//! Sources that a model quotes: every quote is held against the clause it
//! names, and is replaced by a digest of what it quotes.

use vstd::prelude::*;
use vstd::string::*;

use crate::clauses::{AssistantContext, SourceClause};
use crate::digest::{self, content_sha256};
use crate::json::{
    self, find_member, json_number, json_text, parse_json, set_member, Json, JsonNumber, JsonObject,
    JsonTree,
};
use crate::text::{self, chars_of, push_decimal, string_of, text_eq};

verus! {

/// The last of the first `n` clauses with an id.
pub open spec fn clause_named(v: Seq<SourceClause>, id: Seq<char>, n: int) -> Option<int>
    decreases n,
{
    if n <= 0 {
        None
    } else if v[n - 1].clause_id@ == id {
        Some(n - 1)
    } else {
        clause_named(v, id, n - 1)
    }
}

pub open spec fn has_member(v: Seq<(Seq<char>, JsonTree)>, name: Seq<char>) -> bool {
    json::member_from(v, name, 0) is Some
}

/// An object that quotes a source: it names a clause, or has all the parts of a
/// quote.
pub open spec fn quotes_source(v: Seq<(Seq<char>, JsonTree)>) -> bool {
    ||| has_member(v, "clause_id"@)
    ||| has_member(v, "event_id"@) && has_member(v, "start_char"@) && has_member(v, "end_char"@)
        && has_member(v, "text"@)
}

/// A member that is a text with something in it.
pub open spec fn text_member(v: Seq<(Seq<char>, JsonTree)>, name: Seq<char>) -> Option<Seq<char>> {
    match json::member(JsonTree::Object(v), name) {
        Some(JsonTree::Text(s)) => if s.len() > 0 {
            Some(s)
        } else {
            None
        },
        _ => None,
    }
}

/// A member that is a number and no less than zero, and fits a `usize`.
pub open spec fn count_member(v: Seq<(Seq<char>, JsonTree)>, name: Seq<char>) -> Option<usize> {
    match json::member(JsonTree::Object(v), name) {
        Some(JsonTree::Number { unsigned: Some(n), text }) => if n <= usize::MAX {
            Some(n as usize)
        } else {
            None
        },
        _ => None,
    }
}

/// The characters from `from` to `to`, as far as there are any.
pub open spec fn part(s: Seq<char>, from: int, to: int) -> Seq<char> {
    let a = if from < s.len() {
        from
    } else {
        s.len() as int
    };
    let b = if to < s.len() {
        to
    } else {
        s.len() as int
    };
    s.subrange(a, b)
}

pub open spec fn no_text(path: Seq<char>, name: Seq<char>) -> Seq<char> {
    path + "."@ + name + " 必须是非空字符串"@
}

pub open spec fn no_count(path: Seq<char>, name: Seq<char>) -> Seq<char> {
    path + "."@ + name + " 必须是非负整数"@
}

/// A quote that has been held against its clause.
pub open spec fn settled_quote(event_id: Seq<char>, start: usize, end: usize, text: Seq<char>) -> JsonTree {
    JsonTree::Object(
        seq![
            ("content_sha256"@, JsonTree::Text(digest::text_digest(text))),
            ("end_char"@, json::number_tree(end as u64)),
            ("event_id"@, JsonTree::Text(event_id)),
            ("start_char"@, json::number_tree(start as u64)),
        ],
    )
}

/// Whether a range lies in a clause of an event.
pub open spec fn lies_in(c: SourceClause, event_id: Seq<char>, start: usize, end: usize) -> bool {
    event_id == c.event_id@ && c.start_char <= start < end <= c.end_char
}

/// What becomes of a quote.
pub open spec fn resolved_quote(
    v: Seq<(Seq<char>, JsonTree)>,
    clauses: Seq<SourceClause>,
    path: Seq<char>,
) -> Result<JsonTree, Seq<char>> {
    match (
        text_member(v, "clause_id"@),
        text_member(v, "event_id"@),
        text_member(v, "text"@),
        count_member(v, "start_char"@),
        count_member(v, "end_char"@),
    ) {
        (None, _, _, _, _) => Err(no_text(path, "clause_id"@)),
        (_, None, _, _, _) => Err(no_text(path, "event_id"@)),
        (_, _, None, _, _) => Err(no_text(path, "text"@)),
        (_, _, _, None, _) => Err(no_count(path, "start_char"@)),
        (_, _, _, _, None) => Err(no_count(path, "end_char"@)),
        (Some(clause_id), Some(event_id), Some(quoted), Some(start), Some(end)) => match clause_named(
            clauses,
            clause_id,
            clauses.len() as int,
        ) {
            None => Err(path + ".clause_id 不在用户 source catalog"@),
            Some(p) => if !lies_in(clauses[p], event_id, start, end) {
                Err(path + " 偏移不属于指定用户 clause"@)
            } else if quoted != part(
                clauses[p].text@,
                start - clauses[p].start_char,
                end - clauses[p].start_char,
            ) {
                Err(path + ".text 与用户原文切片不一致"@)
            } else {
                Ok(settled_quote(event_id, start, end, quoted))
            },
        },
    }
}

pub open spec fn item_path(path: Seq<char>, i: int) -> Seq<char> {
    path + "["@ + text::decimal(i as nat) + "]"@
}

pub open spec fn member_path(path: Seq<char>, name: Seq<char>) -> Seq<char> {
    path + "."@ + name
}

/// A value with every quote in it settled, or the first complaint.
pub open spec fn resolved(t: JsonTree, clauses: Seq<SourceClause>, path: Seq<char>) -> Result<
    JsonTree,
    Seq<char>,
>
    decreases t, 0int,
{
    match t {
        JsonTree::Array(v) => match resolved_items(v, clauses, path, v.len() as int) {
            Ok(items) => Ok(JsonTree::Array(items)),
            Err(e) => Err(e),
        },
        JsonTree::Object(v) => if quotes_source(v) {
            resolved_quote(v, clauses, path)
        } else {
            match resolved_members(v, clauses, path, v.len() as int) {
                Ok(items) => Ok(JsonTree::Object(items)),
                Err(e) => Err(e),
            }
        },
        _ => Ok(t),
    }
}

pub open spec fn resolved_items(
    v: Seq<JsonTree>,
    clauses: Seq<SourceClause>,
    path: Seq<char>,
    n: int,
) -> Result<Seq<JsonTree>, Seq<char>>
    decreases v, n,
{
    if n <= 0 || n > v.len() {
        Ok(Seq::empty())
    } else {
        match resolved_items(v, clauses, path, n - 1) {
            Err(e) => Err(e),
            Ok(items) => match resolved(v[n - 1], clauses, item_path(path, n - 1)) {
                Err(e) => Err(e),
                Ok(item) => Ok(items.push(item)),
            },
        }
    }
}

pub open spec fn resolved_members(
    v: Seq<(Seq<char>, JsonTree)>,
    clauses: Seq<SourceClause>,
    path: Seq<char>,
    n: int,
) -> Result<Seq<(Seq<char>, JsonTree)>, Seq<char>>
    decreases v, n,
{
    if n <= 0 || n > v.len() {
        Ok(Seq::empty())
    } else {
        match resolved_members(v, clauses, path, n - 1) {
            Err(e) => Err(e),
            Ok(items) => match resolved_member(v[n - 1], clauses, path) {
                Err(e) => Err(e),
                Ok(item) => Ok(items.push((v[n - 1].0, item))),
            },
        }
    }
}

pub open spec fn resolved_member(
    m: (Seq<char>, JsonTree),
    clauses: Seq<SourceClause>,
    path: Seq<char>,
) -> Result<JsonTree, Seq<char>>
    decreases m, 0int,
{
    resolved(m.1, clauses, member_path(path, m.0))
}

/// A complaint after the first few items is the complaint of all.
proof fn first_item_complaint(
    v: Seq<JsonTree>,
    clauses: Seq<SourceClause>,
    path: Seq<char>,
    k: int,
    n: int,
)
    requires
        0 <= k <= n <= v.len(),
        resolved_items(v, clauses, path, k) is Err,
    ensures
        resolved_items(v, clauses, path, n) == resolved_items(v, clauses, path, k),
    decreases n - k,
{
    if k < n {
        first_item_complaint(v, clauses, path, k, n - 1);
    }
}

proof fn first_member_complaint(
    v: Seq<(Seq<char>, JsonTree)>,
    clauses: Seq<SourceClause>,
    path: Seq<char>,
    k: int,
    n: int,
)
    requires
        0 <= k <= n <= v.len(),
        resolved_members(v, clauses, path, k) is Err,
    ensures
        resolved_members(v, clauses, path, n) == resolved_members(v, clauses, path, k),
    decreases n - k,
{
    if k < n {
        first_member_complaint(v, clauses, path, k, n - 1);
    }
}

fn find_clause(clauses: &Vec<SourceClause>, id: &str) -> (r: Option<usize>)
    ensures
        match r {
            Some(p) => p < clauses@.len() && clause_named(clauses@, id@, clauses@.len() as int)
                == Some(p as int),
            None => clause_named(clauses@, id@, clauses@.len() as int) is None,
        },
{
    let mut n: usize = clauses.len();
    while n > 0
        invariant
            n <= clauses@.len(),
            clause_named(clauses@, id@, clauses@.len() as int) == clause_named(
                clauses@,
                id@,
                n as int,
            ),
        decreases n,
    {
        if text_eq(clauses[n - 1].clause_id.as_str(), id) {
            return Some(n - 1);
        }
        n -= 1;
    }
    None
}

/// A member that must be a text with something in it.
fn required_str<'a>(v: &'a Vec<(String, Json)>, name: &str, path: &str) -> (r: Result<&'a str, String>)
    ensures
        match r {
            Ok(s) => text_member(json::members(v@, v@.len() as int), name@) == Some(s@),
            Err(e) => text_member(json::members(v@, v@.len() as int), name@) is None && e@
                == no_text(path@, name@),
        },
{
    match find_member(v, name) {
        Some(p) => match &v[p].1 {
            Json::Text(s) => if s.as_str().unicode_len() > 0 {
                return Ok(s.as_str());
            },
            _ => {},
        },
        None => {},
    }
    let mut e = path.to_owned();
    e.append(".");
    e.append(name);
    e.append(" 必须是非空字符串");
    Err(e)
}

/// A member that must be a number and no less than zero.
fn required_usize(v: &Vec<(String, Json)>, name: &str, path: &str) -> (r: Result<usize, String>)
    ensures
        match r {
            Ok(n) => count_member(json::members(v@, v@.len() as int), name@) == Some(n),
            Err(e) => count_member(json::members(v@, v@.len() as int), name@) is None && e@
                == no_count(path@, name@),
        },
{
    match find_member(v, name) {
        Some(p) => match &v[p].1 {
            Json::Number(JsonNumber { unsigned: Some(n), text: _ }) => if *n <= usize::MAX as u64 {
                return Ok(*n as usize);
            },
            _ => {},
        },
        None => {},
    }
    let mut e = path.to_owned();
    e.append(".");
    e.append(name);
    e.append(" 必须是非负整数");
    Err(e)
}

fn present(v: &Vec<(String, Json)>, name: &str) -> (r: bool)
    ensures
        r == has_member(json::members(v@, v@.len() as int), name@),
{
    match find_member(v, name) {
        Some(_) => true,
        None => false,
    }
}

fn looks_like_source_ref(v: &Vec<(String, Json)>) -> (r: bool)
    ensures
        r == quotes_source(json::members(v@, v@.len() as int)),
{
    present(v, "clause_id") || (present(v, "event_id") && present(v, "start_char") && present(
        v,
        "end_char",
    ) && present(v, "text"))
}

fn complaint(path: &str, what: &str) -> (r: String)
    ensures
        r@ == path@ + what@,
{
    let mut e = path.to_owned();
    e.append(what);
    e
}

/// The characters of a text between two positions, as far as there are any.
pub fn text_part(s: &str, from: usize, to: usize) -> (r: String)
    requires
        from <= to,
    ensures
        r@ == part(s@, from as int, to as int),
{
    let chars = chars_of(s);
    let a: usize = if from < chars.len() {
        from
    } else {
        chars.len()
    };
    let b: usize = if to < chars.len() {
        to
    } else {
        chars.len()
    };
    string_of(&chars, a, b)
}

fn resolve_quote(v: &Vec<(String, Json)>, clauses: &Vec<SourceClause>, path: &str) -> (r: Result<
    Json,
    String,
>)
    ensures
        match r {
            Ok(value) => resolved_quote(json::members(v@, v@.len() as int), clauses@, path@) == Ok::<
                JsonTree,
                Seq<char>,
            >(json::tree(value)),
            Err(e) => resolved_quote(json::members(v@, v@.len() as int), clauses@, path@) == Err::<
                JsonTree,
                Seq<char>,
            >(e@),
        },
{
    let clause_id = match required_str(v, "clause_id", path) {
        Ok(s) => s,
        Err(e) => return Err(e),
    };
    let event_id = match required_str(v, "event_id", path) {
        Ok(s) => s,
        Err(e) => return Err(e),
    };
    let quoted = match required_str(v, "text", path) {
        Ok(s) => s,
        Err(e) => return Err(e),
    };
    let start: usize = match required_usize(v, "start_char", path) {
        Ok(n) => n,
        Err(e) => return Err(e),
    };
    let end: usize = match required_usize(v, "end_char", path) {
        Ok(n) => n,
        Err(e) => return Err(e),
    };
    let clause = match find_clause(clauses, clause_id) {
        Some(p) => &clauses[p],
        None => return Err(complaint(path, ".clause_id 不在用户 source catalog")),
    };
    if !text_eq(event_id, clause.event_id.as_str()) || start < clause.start_char || end
        > clause.end_char || start >= end {
        return Err(complaint(path, " 偏移不属于指定用户 clause"));
    }
    let actual = text_part(
        clause.text.as_str(),
        start - clause.start_char,
        end - clause.start_char,
    );
    if !text_eq(actual.as_str(), quoted) {
        return Err(complaint(path, ".text 与用户原文切片不一致"));
    }
    let object = JsonObject::new().with(
        "content_sha256",
        json_text(content_sha256(quoted).as_str()),
    ).with("end_char", json_number(end as u64)).with("event_id", json_text(event_id)).with(
        "start_char",
        json_number(start as u64),
    );
    assert(object.list() =~= settled_quote(event_id@, start, end, quoted@)->Object_0);
    Ok(object.finish())
}

/// Settles every quote in a value: each must name a clause of the user's, lie
/// in it and repeat it letter for letter. The digest of what it quotes takes the
/// place of the clause and the text.
pub fn resolve_source_refs(value: &Json, clauses: &Vec<SourceClause>, path: &str) -> (r: Result<
    Json,
    String,
>)
    ensures
        match r {
            Ok(out) => resolved(json::tree(*value), clauses@, path@) == Ok::<JsonTree, Seq<char>>(
                json::tree(out),
            ),
            Err(e) => resolved(json::tree(*value), clauses@, path@) == Err::<JsonTree, Seq<char>>(
                e@,
            ),
        },
    decreases value,
{
    match value {
        Json::Array(v) => {
            let ghost all = json::trees(v@, v@.len() as int);
            proof {
                json::trees_index(v@, v@.len() as int);
            }
            let mut out: Vec<Json> = Vec::new();
            let mut i: usize = 0;
            assert(json::trees(out@, 0) =~= Seq::empty());
            while i < v.len()
                invariant
                    i <= v@.len(),
                    all.len() == v@.len(),
                    all == json::trees(v@, v@.len() as int),
                    *value == Json::Array(*v),
                    forall|k: int| 0 <= k < all.len() ==> #[trigger] all[k] == json::tree(v@[k]),
                    resolved_items(all, clauses@, path@, i as int) == Ok::<
                        Seq<JsonTree>,
                        Seq<char>,
                    >(json::trees(out@, out@.len() as int)),
                    decreases_to!(value => v),
                decreases v.len() - i,
            {
                let mut at = path.to_owned();
                at.append("[");
                push_decimal(&mut at, i as u64);
                at.append("]");
                assert(decreases_to!(v => v@[i as int]));
                assert(all[i as int] == json::tree(v@[i as int]));
                match resolve_source_refs(&v[i], clauses, at.as_str()) {
                    Ok(item) => {
                        let ghost before = out@;
                        out.push(item);
                        proof {
                            json::trees_prefix(before, out@, before.len() as int);
                        }
                    },
                    Err(e) => {
                        proof {
                            first_item_complaint(all, clauses@, path@, i + 1, all.len() as int);
                        }
                        return Err(e);
                    },
                }
                i += 1;
            }
            Ok(Json::Array(out))
        },
        Json::Object(v) => {
            if looks_like_source_ref(v) {
                return resolve_quote(v, clauses, path);
            }
            let ghost all = json::members(v@, v@.len() as int);
            proof {
                json::members_index(v@, v@.len() as int);
            }
            let mut out: Vec<(String, Json)> = Vec::new();
            let mut i: usize = 0;
            assert(json::members(out@, 0) =~= Seq::empty());
            while i < v.len()
                invariant
                    i <= v@.len(),
                    all.len() == v@.len(),
                    all == json::members(v@, v@.len() as int),
                    *value == Json::Object(*v),
                    !quotes_source(all),
                    forall|k: int|
                        0 <= k < all.len() ==> #[trigger] all[k] == (v@[k].0@, json::tree(v@[k].1)),
                    resolved_members(all, clauses@, path@, i as int) == Ok::<
                        Seq<(Seq<char>, JsonTree)>,
                        Seq<char>,
                    >(json::members(out@, out@.len() as int)),
                    decreases_to!(value => v),
                decreases v.len() - i,
            {
                let mut at = path.to_owned();
                at.append(".");
                at.append(v[i].0.as_str());
                assert(decreases_to!(v => v@[i as int]));
                assert(all[i as int] == (v@[i as int].0@, json::tree(v@[i as int].1)));
                assert(resolved_member(all[i as int], clauses@, path@) == resolved(
                    all[i as int].1,
                    clauses@,
                    at@,
                ));
                match resolve_source_refs(&v[i].1, clauses, at.as_str()) {
                    Ok(item) => {
                        let ghost before = out@;
                        out.push((v[i].0.clone(), item));
                        proof {
                            json::members_prefix(before, out@, before.len() as int);
                        }
                    },
                    Err(e) => {
                        proof {
                            first_member_complaint(all, clauses@, path@, i + 1, all.len() as int);
                        }
                        return Err(e);
                    },
                }
                i += 1;
            }
            Ok(Json::Object(out))
        },
        Json::Null => Ok(Json::Null),
        Json::Bool(b) => Ok(Json::Bool(*b)),
        Json::Number(n) => Ok(
            Json::Number(JsonNumber { unsigned: n.unsigned, text: n.text.clone() }),
        ),
        Json::Text(s) => Ok(Json::Text(s.clone())),
    }
}

/// A quote that is accepted repeats a clause of the user's: it lies in one, and
/// its text is what stands there.
pub proof fn accepted_quotes_are_true(
    v: Seq<(Seq<char>, JsonTree)>,
    clauses: Seq<SourceClause>,
    path: Seq<char>,
)
    requires
        resolved_quote(v, clauses, path) is Ok,
    ensures
        exists|p: int|
            0 <= p < clauses.len() && text_member(v, "clause_id"@) == Some(
                (#[trigger] clauses[p]).clause_id@,
            ) && text_member(v, "event_id"@) == Some(clauses[p].event_id@) && text_member(v, "text"@)
                == Some(
                part(
                    clauses[p].text@,
                    count_member(v, "start_char"@)->0 - clauses[p].start_char,
                    count_member(v, "end_char"@)->0 - clauses[p].start_char,
                ),
            ),
{
    let id = text_member(v, "clause_id"@)->0;
    clause_named_sound(clauses, id, clauses.len() as int);
    let p = clause_named(clauses, id, clauses.len() as int)->0;
    assert(clauses[p].clause_id@ == id);
}

proof fn clause_named_sound(v: Seq<SourceClause>, id: Seq<char>, n: int)
    requires
        0 <= n <= v.len(),
    ensures
        clause_named(v, id, n) matches Some(p) ==> 0 <= p < n && v[p].clause_id@ == id,
    decreases n,
{
    if n > 0 {
        clause_named_sound(v, id, n - 1);
    }
}

/// How a user stands behind a claim.
#[derive(Debug, Clone, Copy, PartialEq, Eq, Structural)]
pub enum ConsolidationEvidenceKind {
    UserAssertion,
    UserConfirmation,
    Correction,
}

/// The kind that a value names.
pub open spec fn kind_named(t: Option<JsonTree>) -> Option<ConsolidationEvidenceKind> {
    match t {
        Some(JsonTree::Text(s)) => if s == "user_assertion"@ {
            Some(ConsolidationEvidenceKind::UserAssertion)
        } else if s == "user_confirmation"@ {
            Some(ConsolidationEvidenceKind::UserConfirmation)
        } else if s == "correction"@ {
            Some(ConsolidationEvidenceKind::Correction)
        } else {
            None
        },
        _ => None,
    }
}

fn read_kind(value: Option<&Json>) -> (r: Option<ConsolidationEvidenceKind>)
    ensures
        r == kind_named(
            match value {
                Some(j) => Some(json::tree(*j)),
                None => None,
            },
        ),
{
    match value {
        Some(Json::Text(s)) => if text_eq(s.as_str(), "user_assertion") {
            Some(ConsolidationEvidenceKind::UserAssertion)
        } else if text_eq(s.as_str(), "user_confirmation") {
            Some(ConsolidationEvidenceKind::UserConfirmation)
        } else if text_eq(s.as_str(), "correction") {
            Some(ConsolidationEvidenceKind::Correction)
        } else {
            None
        },
        _ => None,
    }
}

/// Confirmations and corrections take up what the assistant said.
pub open spec fn takes_up(kind: ConsolidationEvidenceKind) -> bool {
    kind is UserConfirmation || kind is Correction
}

/// A member that is there and not null.
pub open spec fn filled(t: JsonTree, name: Seq<char>) -> bool {
    match json::member(t, name) {
        Some(value) => !(value is Null),
        None => false,
    }
}

pub open spec fn one_if(b: bool) -> int {
    if b {
        1
    } else {
        0
    }
}

/// How many of subject, relation and object are quoted.
pub open spec fn quoted_parts(t: JsonTree) -> int {
    one_if(filled(t, "subject_span"@)) + one_if(filled(t, "relation_span"@)) + one_if(
        filled(t, "object_span"@),
    )
}

pub open spec fn context_known(contexts: Seq<AssistantContext>, id: Seq<char>) -> bool {
    exists|i: int| 0 <= i < contexts.len() && (#[trigger] contexts[i]).context_id@ == id
}

/// What is wrong with the context that a piece of evidence names.
pub open spec fn context_complaint(
    t: JsonTree,
    kind: ConsolidationEvidenceKind,
    contexts: Seq<AssistantContext>,
    path: Seq<char>,
) -> Option<Seq<char>> {
    match json::member(t, "context_id"@) {
        Some(JsonTree::Text(id)) => if !context_known(contexts, id) {
            Some(path + ".context_id 不在 assistant context catalog"@)
        } else if !takes_up(kind) {
            Some(path + ".context_id 只允许确认或纠正证据使用"@)
        } else {
            None
        },
        _ => None,
    }
}

/// What is wrong with a piece of evidence.
pub open spec fn item_complaint(t: JsonTree, contexts: Seq<AssistantContext>, path: Seq<char>) -> Option<
    Seq<char>,
> {
    if !(t is Object) {
        Some(path + " 必须是对象"@)
    } else {
        match kind_named(json::member(t, "kind"@)) {
            None => Some(path + ".kind 无效：未知的证据类型"@),
            Some(kind) => if context_complaint(t, kind, contexts, path) is Some {
                context_complaint(t, kind, contexts, path)
            } else if 0 < quoted_parts(t) < 3 {
                Some(path + " 的 subject/relation/object 必须全部提供或全部为 null"@)
            } else if quoted_parts(t) == 0 && !takes_up(kind) {
                Some(path + " 普通断言必须包含用户原文中的 subject/relation/object span"@)
            } else if takes_up(kind) && !filled(t, "speech_act_span"@) {
                Some(path + " 确认或纠正证据必须包含用户 speech-act span"@)
            } else {
                None
            },
        }
    }
}

pub open spec fn claim_path(i: int) -> Seq<char> {
    "$.claims["@ + text::decimal(i as nat) + "].evidence"@
}

/// The first complaint about the first `n` pieces of evidence of a claim.
pub open spec fn evidence_complaint(
    v: Seq<JsonTree>,
    contexts: Seq<AssistantContext>,
    path: Seq<char>,
    n: int,
) -> Option<Seq<char>>
    decreases n,
{
    if n <= 0 {
        None
    } else if evidence_complaint(v, contexts, path, n - 1) is Some {
        evidence_complaint(v, contexts, path, n - 1)
    } else {
        item_complaint(v[n - 1], contexts, item_path(path, n - 1))
    }
}

pub open spec fn claim_complaint(t: JsonTree, contexts: Seq<AssistantContext>, i: int) -> Option<
    Seq<char>,
> {
    match json::member(t, "evidence"@) {
        Some(JsonTree::Array(v)) => evidence_complaint(
            v,
            contexts,
            claim_path(i),
            v.len() as int,
        ),
        _ => Some(claim_path(i) + " 必须是数组"@),
    }
}

/// The first complaint about the first `n` claims.
pub open spec fn claims_complaint(v: Seq<JsonTree>, contexts: Seq<AssistantContext>, n: int) -> Option<
    Seq<char>,
>
    decreases n,
{
    if n <= 0 {
        None
    } else if claims_complaint(v, contexts, n - 1) is Some {
        claims_complaint(v, contexts, n - 1)
    } else {
        claim_complaint(v[n - 1], contexts, n - 1)
    }
}

/// What is wrong with the evidence in an answer.
pub open spec fn answer_complaint(t: JsonTree, contexts: Seq<AssistantContext>) -> Option<Seq<char>> {
    match json::member(t, "claims"@) {
        Some(JsonTree::Array(v)) => claims_complaint(v, contexts, v.len() as int),
        _ => Some("$.claims 必须是数组"@),
    }
}

proof fn evidence_complaint_stays(
    v: Seq<JsonTree>,
    contexts: Seq<AssistantContext>,
    path: Seq<char>,
    k: int,
    n: int,
)
    requires
        k <= n,
        evidence_complaint(v, contexts, path, k) is Some,
    ensures
        evidence_complaint(v, contexts, path, n) == evidence_complaint(v, contexts, path, k),
    decreases n - k,
{
    if k < n {
        evidence_complaint_stays(v, contexts, path, k, n - 1);
    }
}

proof fn claims_complaint_stays(
    v: Seq<JsonTree>,
    contexts: Seq<AssistantContext>,
    k: int,
    n: int,
)
    requires
        k <= n,
        claims_complaint(v, contexts, k) is Some,
    ensures
        claims_complaint(v, contexts, n) == claims_complaint(v, contexts, k),
    decreases n - k,
{
    if k < n {
        claims_complaint_stays(v, contexts, k, n - 1);
    }
}

fn is_filled(value: &Json, name: &str) -> (r: bool)
    ensures
        r == filled(json::tree(*value), name@),
{
    match value.get(name) {
        Some(member) => !member.is_null(),
        None => false,
    }
}

fn knows_context(contexts: &Vec<AssistantContext>, id: &str) -> (r: bool)
    ensures
        r == context_known(contexts@, id@),
{
    let mut i: usize = 0;
    while i < contexts.len()
        invariant
            i <= contexts@.len(),
            forall|k: int| 0 <= k < i ==> (#[trigger] contexts@[k]).context_id@ != id@,
        decreases contexts.len() - i,
    {
        if text_eq(contexts[i].context_id.as_str(), id) {
            return true;
        }
        i += 1;
    }
    false
}

pub open spec fn same_complaint(r: Option<String>, e: Option<Seq<char>>) -> bool {
    match r {
        Some(s) => e == Some(s@),
        None => e is None,
    }
}

fn check_context(
    item: &Json,
    kind: ConsolidationEvidenceKind,
    contexts: &Vec<AssistantContext>,
    path: &str,
) -> (r: Option<String>)
    ensures
        same_complaint(r, context_complaint(json::tree(*item), kind, contexts@, path@)),
{
    match item.get("context_id") {
        Some(Json::Text(id)) => if !knows_context(contexts, id.as_str()) {
            Some(complaint(path, ".context_id 不在 assistant context catalog"))
        } else if kind == ConsolidationEvidenceKind::UserAssertion {
            Some(complaint(path, ".context_id 只允许确认或纠正证据使用"))
        } else {
            None
        },
        _ => None,
    }
}

fn check_item(item: &Json, contexts: &Vec<AssistantContext>, path: &str) -> (r: Option<String>)
    ensures
        same_complaint(r, item_complaint(json::tree(*item), contexts@, path@)),
{
    match item {
        Json::Object(_) => {},
        _ => {
            return Some(complaint(path, " 必须是对象"));
        },
    }
    let kind = match read_kind(item.get("kind")) {
        Some(kind) => kind,
        None => return Some(complaint(path, ".kind 无效：未知的证据类型")),
    };
    let adopting = !(kind == ConsolidationEvidenceKind::UserAssertion);
    match check_context(item, kind, contexts, path) {
        Some(e) => return Some(e),
        None => {},
    }
    let subject = is_filled(item, "subject_span");
    let relation = is_filled(item, "relation_span");
    let object = is_filled(item, "object_span");
    if (subject || relation || object) && !(subject && relation && object) {
        return Some(complaint(path, " 的 subject/relation/object 必须全部提供或全部为 null"));
    }
    if !subject && !adopting {
        return Some(
            complaint(path, " 普通断言必须包含用户原文中的 subject/relation/object span"),
        );
    }
    if adopting && !is_filled(item, "speech_act_span") {
        return Some(complaint(path, " 确认或纠正证据必须包含用户 speech-act span"));
    }
    None
}

fn check_claim(claim: &Json, contexts: &Vec<AssistantContext>, index: usize) -> (r: Option<String>)
    ensures
        same_complaint(r, claim_complaint(json::tree(*claim), contexts@, index as int)),
{
    let mut path = "$.claims[".to_owned();
    push_decimal(&mut path, index as u64);
    path.append("].evidence");
    match claim.get("evidence") {
        Some(Json::Array(v)) => {
            let ghost all = json::trees(v@, v@.len() as int);
            proof {
                json::trees_index(v@, v@.len() as int);
            }
            let mut i: usize = 0;
            while i < v.len()
                invariant
                    i <= v@.len(),
                    all.len() == v@.len(),
                    all == json::trees(v@, v@.len() as int),
                    json::member(json::tree(*claim), "evidence"@) == Some(JsonTree::Array(all)),
                    path@ == claim_path(index as int),
                    forall|k: int| 0 <= k < all.len() ==> #[trigger] all[k] == json::tree(v@[k]),
                    evidence_complaint(all, contexts@, path@, i as int) is None,
                decreases v.len() - i,
            {
                let mut at = path.clone();
                at.append("[");
                push_decimal(&mut at, i as u64);
                at.append("]");
                assert(all[i as int] == json::tree(v@[i as int]));
                match check_item(&v[i], contexts, at.as_str()) {
                    Some(e) => {
                        proof {
                            evidence_complaint_stays(
                                all,
                                contexts@,
                                path@,
                                i + 1,
                                all.len() as int,
                            );
                        }
                        return Some(e);
                    },
                    None => {},
                }
                i += 1;
            }
            None
        },
        _ => Some(complaint(path.as_str(), " 必须是数组")),
    }
}

/// Checks the evidence of every claim in an answer: contexts must be known and
/// are for confirmations and corrections alone, the parts of a statement are
/// quoted together or not at all, and what takes up a context says by what words.
pub fn prepare_confirmation_evidence(value: &Json, contexts: &Vec<AssistantContext>) -> (r: Option<
    String,
>)
    ensures
        same_complaint(r, answer_complaint(json::tree(*value), contexts@)),
{
    match value.get("claims") {
        Some(Json::Array(v)) => {
            let ghost all = json::trees(v@, v@.len() as int);
            proof {
                json::trees_index(v@, v@.len() as int);
            }
            let mut i: usize = 0;
            while i < v.len()
                invariant
                    i <= v@.len(),
                    all.len() == v@.len(),
                    all == json::trees(v@, v@.len() as int),
                    json::member(json::tree(*value), "claims"@) == Some(JsonTree::Array(all)),
                    forall|k: int| 0 <= k < all.len() ==> #[trigger] all[k] == json::tree(v@[k]),
                    claims_complaint(all, contexts@, i as int) is None,
                decreases v.len() - i,
            {
                assert(all[i as int] == json::tree(v@[i as int]));
                match check_claim(&v[i], contexts, i) {
                    Some(e) => {
                        proof {
                            claims_complaint_stays(all, contexts@, i + 1, all.len() as int);
                        }
                        return Some(e);
                    },
                    None => {},
                }
                i += 1;
            }
            None
        },
        _ => Some("$.claims 必须是数组".to_owned()),
    }
}

/// What becomes of an answer that has been read.
pub open spec fn settled_answer(
    t: JsonTree,
    clauses: Seq<SourceClause>,
    contexts: Seq<AssistantContext>,
) -> Result<JsonTree, Seq<char>> {
    match answer_complaint(t, contexts) {
        Some(e) => Err(e),
        None => match resolved(t, clauses, "$"@) {
            Err(e) => Err(e),
            Ok(JsonTree::Object(v)) => Ok(
                JsonTree::Object(
                    json::put_member(v, "boundaries"@, JsonTree::Array(Seq::empty())),
                ),
            ),
            Ok(_) => Err("fact v2 响应必须是对象"@),
        },
    }
}

/// Settles an answer that has been read: its evidence is checked, its quotes are
/// held against the clauses, and it is given an empty list of boundaries.
pub fn resolve_fact_output(
    value: &Json,
    clauses: &Vec<SourceClause>,
    contexts: &Vec<AssistantContext>,
) -> (r: Result<Json, String>)
    ensures
        match r {
            Ok(out) => settled_answer(json::tree(*value), clauses@, contexts@) == Ok::<
                JsonTree,
                Seq<char>,
            >(json::tree(out)),
            Err(e) => settled_answer(json::tree(*value), clauses@, contexts@) == Err::<
                JsonTree,
                Seq<char>,
            >(e@),
        },
{
    match prepare_confirmation_evidence(value, contexts) {
        Some(e) => return Err(e),
        None => {},
    }
    match resolve_source_refs(value, clauses, "$") {
        Err(e) => Err(e),
        Ok(Json::Object(v)) => {
            let mut v = v;
            let none: Vec<Json> = Vec::new();
            set_member(&mut v, "boundaries", Json::Array(none));
            assert(json::trees(none@, 0) =~= Seq::empty());
            Ok(Json::Object(v))
        },
        Ok(_) => Err("fact v2 响应必须是对象".to_owned()),
    }
}

/// Reads and settles an answer.
pub fn parse_and_resolve_fact_output(
    response: &str,
    clauses: &Vec<SourceClause>,
    contexts: &Vec<AssistantContext>,
) -> (r: Result<Json, String>)
    ensures
        match json::parsed_json(response@) {
            Ok(t) => match r {
                Ok(out) => settled_answer(t, clauses@, contexts@) == Ok::<JsonTree, Seq<char>>(
                    json::tree(out),
                ),
                Err(e) => settled_answer(t, clauses@, contexts@) == Err::<JsonTree, Seq<char>>(e@),
            },
            Err(message) => r matches Err(e) && e@ == "fact v2 response_json 不是有效 JSON："@
                + message,
        },
{
    match parse_json(response) {
        Ok(value) => resolve_fact_output(&value, clauses, contexts),
        Err(message) => Err(
            complaint("fact v2 response_json 不是有效 JSON：", message.as_str()),
        ),
    }
}

/// A piece of evidence is taken exactly where it is an object of a known kind and
/// is complete for it: an assertion quotes subject, relation and object and names
/// no context; a confirmation or a correction quotes all three or none of them and
/// the words by which it speaks, and names only a context that was given.
pub proof fn evidence_is_complete_for_its_kind(
    t: JsonTree,
    contexts: Seq<AssistantContext>,
    path: Seq<char>,
)
    ensures
        item_complaint(t, contexts, path) is None <==> {
            let kind = json::member(t, "kind"@);
            let asserted = kind == Some(JsonTree::Text("user_assertion"@));
            let taken_up = kind == Some(JsonTree::Text("user_confirmation"@)) || kind == Some(
                JsonTree::Text("correction"@),
            );
            let all = filled(t, "subject_span"@) && filled(t, "relation_span"@) && filled(
                t,
                "object_span"@,
            );
            let none = !filled(t, "subject_span"@) && !filled(t, "relation_span"@) && !filled(
                t,
                "object_span"@,
            );
            &&& t is Object
            &&& asserted || taken_up
            &&& json::member(t, "context_id"@) matches Some(JsonTree::Text(id)) ==> taken_up
                && context_known(contexts, id)
            &&& asserted ==> all
            &&& taken_up ==> (all || none) && filled(t, "speech_act_span"@)
        },
{
    reveal_strlit("user_assertion");
    reveal_strlit("user_confirmation");
    reveal_strlit("correction");
    assert("user_assertion"@.len() == 14 && "user_confirmation"@.len() == 17 && "correction"@.len()
        == 10);
}

/// A quote that is accepted lies within its clause, is not empty, and says what
/// the event says there; its digest is that of the quoted text.
pub proof fn accepted_quotes_lie_in_their_clause(
    v: Seq<(Seq<char>, JsonTree)>,
    clauses: Seq<SourceClause>,
    path: Seq<char>,
)
    requires
        resolved_quote(v, clauses, path) is Ok,
    ensures
        ({
            let start = count_member(v, "start_char"@);
            let end = count_member(v, "end_char"@);
            let quoted = text_member(v, "text"@);
            &&& start is Some && end is Some && quoted is Some
            &&& start->0 < end->0
            &&& exists|p: int|
                0 <= p < clauses.len() && text_member(v, "clause_id"@) == Some(
                    (#[trigger] clauses[p]).clause_id@,
                ) && text_member(v, "event_id"@) == Some(clauses[p].event_id@)
                    && clauses[p].start_char <= start->0 && end->0 <= clauses[p].end_char
            &&& resolved_quote(v, clauses, path)->Ok_0 == settled_quote(
                text_member(v, "event_id"@)->0,
                start->0,
                end->0,
                quoted->0,
            )
        }),
{
    let id = text_member(v, "clause_id"@)->0;
    clause_named_sound(clauses, id, clauses.len() as int);
    let p = clause_named(clauses, id, clauses.len() as int)->0;
    assert(clauses[p].clause_id@ == id);
}

} // verus!
