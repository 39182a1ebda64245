//! JSON values, as `serde_json` reads and writes them.

use vstd::prelude::*;
use vstd::string::*;

use crate::text::{self, decimal_string, text_before, text_eq};

verus! {

/// A number: its text, and its value where that is a `u64`.
#[derive(Clone, Debug, PartialEq, Eq)]
pub struct JsonNumber {
    pub unsigned: Option<u64>,
    pub text: String,
}

/// A JSON value. The members of an object are listed in order.
#[derive(Debug)]
pub enum Json {
    Null,
    Bool(bool),
    Number(JsonNumber),
    Text(String),
    Array(Vec<Json>),
    Object(Vec<(String, Json)>),
}

/// A JSON value as a mathematical tree.
pub enum JsonTree {
    Null,
    Bool(bool),
    Number { unsigned: Option<u64>, text: Seq<char> },
    Text(Seq<char>),
    Array(Seq<JsonTree>),
    Object(Seq<(Seq<char>, JsonTree)>),
}

/// The tree of a value.
pub open spec fn tree(j: Json) -> JsonTree
    decreases j, 0int,
{
    match j {
        Json::Null => JsonTree::Null,
        Json::Bool(b) => JsonTree::Bool(b),
        Json::Number(n) => JsonTree::Number { unsigned: n.unsigned, text: n.text@ },
        Json::Text(s) => JsonTree::Text(s@),
        Json::Array(v) => JsonTree::Array(trees(v@, v@.len() as int)),
        Json::Object(v) => JsonTree::Object(members(v@, v@.len() as int)),
    }
}

/// The trees of the first `n` values.
pub open spec fn trees(v: Seq<Json>, n: int) -> Seq<JsonTree>
    decreases v, n,
{
    if n <= 0 || n > v.len() {
        Seq::empty()
    } else {
        trees(v, n - 1).push(tree(v[n - 1]))
    }
}

/// The names and trees of the first `n` members.
pub open spec fn members(v: Seq<(String, Json)>, n: int) -> Seq<(Seq<char>, JsonTree)>
    decreases v, n,
{
    if n <= 0 || n > v.len() {
        Seq::empty()
    } else {
        members(v, n - 1).push((v[n - 1].0@, tree(v[n - 1].1)))
    }
}

/// The tree of every element stands at its place.
pub proof fn trees_index(v: Seq<Json>, n: int)
    requires
        0 <= n <= v.len(),
    ensures
        trees(v, n).len() == n,
        forall|i: int| 0 <= i < n ==> #[trigger] trees(v, n)[i] == tree(v[i]),
    decreases n,
{
    if n > 0 {
        trees_index(v, n - 1);
    }
}

/// The name and tree of every member stand at their place.
pub proof fn members_index(v: Seq<(String, Json)>, n: int)
    requires
        0 <= n <= v.len(),
    ensures
        members(v, n).len() == n,
        forall|i: int| 0 <= i < n ==> #[trigger] members(v, n)[i] == (v[i].0@, tree(v[i].1)),
    decreases n,
{
    if n > 0 {
        members_index(v, n - 1);
    }
}

pub proof fn trees_prefix(v: Seq<Json>, w: Seq<Json>, n: int)
    requires
        n <= v.len(),
        n <= w.len(),
        forall|i: int| 0 <= i < n ==> v[i] == w[i],
    ensures
        trees(v, n) == trees(w, n),
    decreases n,
{
    if n > 0 {
        trees_prefix(v, w, n - 1);
    }
}

pub proof fn members_prefix(v: Seq<(String, Json)>, w: Seq<(String, Json)>, n: int)
    requires
        n <= v.len(),
        n <= w.len(),
        forall|i: int| 0 <= i < n ==> v[i] == w[i],
    ensures
        members(v, n) == members(w, n),
    decreases n,
{
    if n > 0 {
        members_prefix(v, w, n - 1);
    }
}

/// `serde_json::Value`: a JSON value.
#[verifier::external_type_specification]
#[verifier::external_body]
pub struct ExValue(serde_json::Value);

/// What a `serde_json::Value` holds.
pub uninterp spec fn value_contents(value: serde_json::Value) -> JsonTree;

/// What a text holds when it is read as JSON, or why it cannot be read.
pub uninterp spec fn parsed_json(s: Seq<char>) -> Result<JsonTree, Seq<char>>;

/// `serde_json::from_str` into a `serde_json::Value`, with the error as its
/// message: both depend on the text alone.
#[verifier::external_body]
fn read_value(s: &str) -> (r: Result<serde_json::Value, String>)
    ensures
        match r {
            Ok(value) => parsed_json(s@) == Ok::<JsonTree, Seq<char>>(value_contents(value)),
            Err(message) => parsed_json(s@) == Err::<JsonTree, Seq<char>>(message@),
        },
{
    serde_json::from_str(s).map_err(|error| error.to_string())
}

/// Takes a `serde_json::Value` apart by its variants, each into the variant of
/// the same meaning. Numbers are read by `as_u64` and written by `to_string`.
#[verifier::external_body]
fn take_apart(value: serde_json::Value) -> (r: Json)
    ensures
        tree(r) == value_contents(value),
{
    match value {
        serde_json::Value::Null => Json::Null,
        serde_json::Value::Bool(b) => Json::Bool(b),
        serde_json::Value::Number(n) => Json::Number(
            JsonNumber { unsigned: n.as_u64(), text: n.to_string() },
        ),
        serde_json::Value::String(s) => Json::Text(s),
        serde_json::Value::Array(v) => Json::Array(v.into_iter().map(take_apart).collect()),
        serde_json::Value::Object(m) => Json::Object(
            m.into_iter().map(|(k, v)| (k, take_apart(v))).collect(),
        ),
    }
}

/// Reads a text as JSON.
pub fn parse_json(s: &str) -> (r: Result<Json, String>)
    ensures
        match r {
            Ok(value) => parsed_json(s@) == Ok::<JsonTree, Seq<char>>(tree(value)),
            Err(message) => parsed_json(s@) == Err::<JsonTree, Seq<char>>(message@),
        },
{
    match read_value(s) {
        Ok(value) => Ok(take_apart(value)),
        Err(message) => Err(message),
    }
}

/// A hexadecimal digit in lower case.
pub open spec fn hex_char(d: int) -> char {
    if d < 10 {
        (48 + d) as char
    } else {
        (87 + d) as char
    }
}

/// A character within a JSON string literal: quotation marks, backslashes and
/// control characters are escaped, all others stand for themselves.
pub open spec fn escaped(c: char) -> Seq<char> {
    let n = c as u32;
    if c == '"' || c == '\\' {
        seq!['\\', c]
    } else if n == 8 {
        seq!['\\', 'b']
    } else if n == 9 {
        seq!['\\', 't']
    } else if n == 10 {
        seq!['\\', 'n']
    } else if n == 12 {
        seq!['\\', 'f']
    } else if n == 13 {
        seq!['\\', 'r']
    } else if n < 32 {
        seq!['\\', 'u', '0', '0', hex_char(n as int / 16), hex_char(n as int % 16)]
    } else {
        seq![c]
    }
}

pub open spec fn all_escaped(s: Seq<char>) -> Seq<char>
    decreases s.len(),
{
    if s.len() == 0 {
        Seq::empty()
    } else {
        all_escaped(s.drop_last()) + escaped(s.last())
    }
}

/// A text as a JSON string literal.
pub open spec fn json_string(s: Seq<char>) -> Seq<char> {
    seq!['"'] + all_escaped(s) + seq!['"']
}

/// `serde_json::to_string` of a string slice: the text between quotation marks,
/// with its escapes. Writing a string never fails.
#[verifier::external_body]
pub(crate) fn quote(s: &str) -> (r: String)
    ensures
        r@ == json_string(s@),
{
    serde_json::to_string(s).expect("a string is always serializable")
}

/// A value in JSON without white space.
pub open spec fn rendered(t: JsonTree) -> Seq<char>
    decreases t, 0int,
{
    match t {
        JsonTree::Null => "null"@,
        JsonTree::Bool(b) => if b {
            "true"@
        } else {
            "false"@
        },
        JsonTree::Number { unsigned, text } => text,
        JsonTree::Text(s) => json_string(s),
        JsonTree::Array(v) => "["@ + rendered_items(v, v.len() as int) + "]"@,
        JsonTree::Object(v) => "{"@ + rendered_members(v, v.len() as int) + "}"@,
    }
}

/// The first `n` elements, separated by commas.
pub open spec fn rendered_items(v: Seq<JsonTree>, n: int) -> Seq<char>
    decreases v, n,
{
    if n <= 0 || n > v.len() {
        Seq::empty()
    } else if n == 1 {
        rendered(v[0])
    } else {
        rendered_items(v, n - 1) + ","@ + rendered(v[n - 1])
    }
}

pub open spec fn rendered_member(m: (Seq<char>, JsonTree)) -> Seq<char>
    decreases m, 0int,
{
    json_string(m.0) + ":"@ + rendered(m.1)
}

/// The first `n` members, separated by commas.
pub open spec fn rendered_members(v: Seq<(Seq<char>, JsonTree)>, n: int) -> Seq<char>
    decreases v, n,
{
    if n <= 0 || n > v.len() {
        Seq::empty()
    } else if n == 1 {
        rendered_member(v[0])
    } else {
        rendered_members(v, n - 1) + ","@ + rendered_member(v[n - 1])
    }
}

/// Writes a value as JSON without white space.
pub fn render(j: &Json) -> (r: String)
    ensures
        r@ == rendered(tree(*j)),
    decreases j,
{
    match j {
        Json::Null => "null".to_owned(),
        Json::Bool(b) => if *b {
            "true".to_owned()
        } else {
            "false".to_owned()
        },
        Json::Number(n) => n.text.clone(),
        Json::Text(s) => quote(s.as_str()),
        Json::Array(v) => {
            let ghost all = trees(v@, v@.len() as int);
            proof {
                trees_index(v@, v@.len() as int);
            }
            let mut out = String::new();
            let mut i: usize = 0;
            assert(out@ =~= rendered_items(all, 0));
            while i < v.len()
                invariant
                    i <= v@.len(),
                    all.len() == v@.len(),
                    forall|k: int| 0 <= k < all.len() ==> #[trigger] all[k] == tree(v@[k]),
                    out@ == rendered_items(all, i as int),
                    decreases_to!(j => v),
                decreases v.len() - i,
            {
                if i > 0 {
                    out.append(",");
                }
                assert(decreases_to!(v => v@[i as int]));
                let item = render(&v[i]);
                out.append(item.as_str());
                assert(all[i as int] == tree(v@[i as int]));
                assert(i == 0 ==> out@ =~= rendered(all[0]));
                i += 1;
            }
            let mut whole = "[".to_owned();
            whole.append(out.as_str());
            whole.append("]");
            whole
        },
        Json::Object(v) => {
            let ghost all = members(v@, v@.len() as int);
            proof {
                members_index(v@, v@.len() as int);
            }
            let mut out = String::new();
            let mut i: usize = 0;
            assert(out@ =~= rendered_members(all, 0));
            while i < v.len()
                invariant
                    i <= v@.len(),
                    all.len() == v@.len(),
                    forall|k: int|
                        0 <= k < all.len() ==> #[trigger] all[k] == (v@[k].0@, tree(v@[k].1)),
                    out@ == rendered_members(all, i as int),
                    decreases_to!(j => v),
                decreases v.len() - i,
            {
                if i > 0 {
                    out.append(",");
                }
                let mut member = quote(v[i].0.as_str());
                member.append(":");
                assert(decreases_to!(v => v@[i as int]));
                let item = render(&v[i].1);
                member.append(item.as_str());
                assert(all[i as int] == (v@[i as int].0@, tree(v@[i as int].1)));
                assert(member@ == rendered_member(all[i as int]));
                out.append(member.as_str());
                assert(i == 0 ==> out@ =~= rendered_member(all[0]));
                i += 1;
            }
            let mut whole = "{".to_owned();
            whole.append(out.as_str());
            whole.append("}");
            whole
        },
    }
}

/// A number that is not negative.
pub open spec fn number_tree(n: u64) -> JsonTree {
    JsonTree::Number { unsigned: Some(n), text: text::decimal(n as nat) }
}

pub fn json_number(n: u64) -> (r: Json)
    ensures
        tree(r) == number_tree(n),
{
    Json::Number(JsonNumber { unsigned: Some(n), text: decimal_string(n) })
}

pub fn json_text(s: &str) -> (r: Json)
    ensures
        tree(r) == JsonTree::Text(s@),
{
    Json::Text(s.to_owned())
}

/// A text, or null when there is none.
pub open spec fn opt_text_tree(s: Option<Seq<char>>) -> JsonTree {
    match s {
        Some(value) => JsonTree::Text(value),
        None => JsonTree::Null,
    }
}

pub fn json_opt_text(s: Option<&str>) -> (r: Json)
    ensures
        tree(r) == opt_text_tree(crate::model::opt_str(s)),
{
    match s {
        Some(value) => json_text(value),
        None => Json::Null,
    }
}

/// An object under construction.
#[derive(Debug)]
pub struct JsonObject {
    pub members: Vec<(String, Json)>,
}

impl JsonObject {
    pub open spec fn list(&self) -> Seq<(Seq<char>, JsonTree)> {
        members(self.members@, self.members@.len() as int)
    }

    pub fn new() -> (r: Self)
        ensures
            r.list() == Seq::<(Seq<char>, JsonTree)>::empty(),
    {
        JsonObject { members: Vec::new() }
    }

    /// Adds a member at the end.
    pub fn with(self, name: &str, value: Json) -> (r: Self)
        ensures
            r.list() == self.list().push((name@, tree(value))),
    {
        let mut members = self.members;
        let ghost before = members@;
        members.push((name.to_owned(), value));
        proof {
            members_prefix(before, members@, before.len() as int);
        }
        JsonObject { members }
    }

    pub fn finish(self) -> (r: Json)
        ensures
            tree(r) == JsonTree::Object(self.list()),
    {
        Json::Object(self.members)
    }
}

/// The tree of a list of texts.
pub open spec fn text_trees(v: Seq<Seq<char>>) -> Seq<JsonTree> {
    Seq::new(v.len(), |i: int| JsonTree::Text(v[i]))
}

pub fn json_texts(v: &Vec<String>) -> (r: Json)
    ensures
        tree(r) == JsonTree::Array(text_trees(text::texts(v@))),
{
    let mut out: Vec<Json> = Vec::new();
    let mut i: usize = 0;
    while i < v.len()
        invariant
            i <= v@.len(),
            out@.len() == i,
            forall|k: int| 0 <= k < i ==> tree(#[trigger] out@[k]) == JsonTree::Text(v@[k]@),
        decreases v.len() - i,
    {
        out.push(json_text(v[i].as_str()));
        i += 1;
    }
    proof {
        trees_index(out@, out@.len() as int);
        assert(trees(out@, out@.len() as int) =~= text_trees(text::texts(v@)));
    }
    Json::Array(out)
}

/// The position of a member by name, from `i` on.
pub open spec fn member_from(v: Seq<(Seq<char>, JsonTree)>, name: Seq<char>, i: int) -> Option<int>
    decreases v.len() - i,
{
    if i < 0 || i >= v.len() {
        None
    } else if v[i].0 == name {
        Some(i)
    } else {
        member_from(v, name, i + 1)
    }
}

/// A member of an object by name.
pub open spec fn member(t: JsonTree, name: Seq<char>) -> Option<JsonTree> {
    match t {
        JsonTree::Object(v) => match member_from(v, name, 0) {
            Some(p) => Some(v[p].1),
            None => None,
        },
        _ => None,
    }
}

/// Where a member of an object stands.
pub fn find_member(v: &Vec<(String, Json)>, name: &str) -> (r: Option<usize>)
    ensures
        match r {
            Some(p) => p < v@.len() && member_from(
                members(v@, v@.len() as int),
                name@,
                0,
            ) == Some(p as int) && members(v@, v@.len() as int)[p as int] == (name@, tree(
                v@[p as int].1,
            )),
            None => member_from(members(v@, v@.len() as int), name@, 0) is None,
        },
{
    let ghost all = members(v@, v@.len() as int);
    proof {
        members_index(v@, v@.len() as int);
    }
    let mut i: usize = 0;
    while i < v.len()
        invariant
            i <= v@.len(),
            all == members(v@, v@.len() as int),
            all.len() == v@.len(),
            forall|k: int|
                0 <= k < all.len() ==> #[trigger] all[k] == (v@[k].0@, tree(v@[k].1)),
            member_from(all, name@, 0) == member_from(all, name@, i as int),
        decreases v.len() - i,
    {
        assert(all[i as int] == (v@[i as int].0@, tree(v@[i as int].1)));
        if text_eq(v[i].0.as_str(), name) {
            return Some(i);
        }
        i += 1;
    }
    None
}

impl Json {
    /// A member of an object by name.
    pub fn get(&self, name: &str) -> (r: Option<&Json>)
        ensures
            match r {
                Some(value) => member(tree(*self), name@) == Some(tree(*value)),
                None => member(tree(*self), name@) is None,
            },
    {
        match self {
            Json::Object(v) => match find_member(v, name) {
                Some(p) => Some(&v[p].1),
                None => None,
            },
            _ => None,
        }
    }

    pub fn as_text(&self) -> (r: Option<&str>)
        ensures
            match r {
                Some(s) => tree(*self) == JsonTree::Text(s@),
                None => !(tree(*self) is Text),
            },
    {
        match self {
            Json::Text(s) => Some(s.as_str()),
            _ => None,
        }
    }

    pub fn is_null(&self) -> (r: bool)
        ensures
            r == (tree(*self) is Null),
    {
        match self {
            Json::Null => true,
            _ => false,
        }
    }
}

impl Clone for Json {
    fn clone(&self) -> (r: Self)
        ensures
            tree(r) == tree(*self),
    {
        copy_json(self)
    }
}

/// A copy of a value.
pub fn copy_json(j: &Json) -> (r: Json)
    ensures
        tree(r) == tree(*j),
    decreases j,
{
    match j {
        Json::Null => Json::Null,
        Json::Bool(b) => Json::Bool(*b),
        Json::Number(n) => Json::Number(
            JsonNumber { unsigned: n.unsigned, text: n.text.clone() },
        ),
        Json::Text(s) => Json::Text(s.clone()),
        Json::Array(v) => {
            let mut out: Vec<Json> = Vec::new();
            let mut i: usize = 0;
            while i < v.len()
                invariant
                    i <= v@.len(),
                    out@.len() == i,
                    forall|k: int| 0 <= k < i ==> tree(#[trigger] out@[k]) == tree(v@[k]),
                    decreases_to!(j => v),
                decreases v.len() - i,
            {
                assert(decreases_to!(v => v@[i as int]));
                out.push(copy_json(&v[i]));
                i += 1;
            }
            proof {
                trees_index(v@, v@.len() as int);
                trees_index(out@, out@.len() as int);
                assert(trees(out@, out@.len() as int) =~= trees(v@, v@.len() as int));
            }
            Json::Array(out)
        },
        Json::Object(v) => {
            let mut out: Vec<(String, Json)> = Vec::new();
            let mut i: usize = 0;
            while i < v.len()
                invariant
                    i <= v@.len(),
                    out@.len() == i,
                    forall|k: int|
                        0 <= k < i ==> (#[trigger] out@[k]).0@ == v@[k].0@ && tree(out@[k].1)
                            == tree(v@[k].1),
                    decreases_to!(j => v),
                decreases v.len() - i,
            {
                assert(decreases_to!(v => v@[i as int]));
                out.push((v[i].0.clone(), copy_json(&v[i].1)));
                i += 1;
            }
            proof {
                members_index(v@, v@.len() as int);
                members_index(out@, out@.len() as int);
                assert(members(out@, out@.len() as int) =~= members(v@, v@.len() as int));
            }
            Json::Object(out)
        },
    }
}

/// How many leading members have names before `name`.
pub open spec fn member_place(v: Seq<(Seq<char>, JsonTree)>, name: Seq<char>, i: int) -> int
    decreases v.len() - i,
{
    if i < 0 || i >= v.len() || !text::text_lt(v[i].0, name) {
        i
    } else {
        member_place(v, name, i + 1)
    }
}

/// The members with one set: replaced where it stands, or put before the first
/// name that is not less.
pub open spec fn put_member(
    v: Seq<(Seq<char>, JsonTree)>,
    name: Seq<char>,
    value: JsonTree,
) -> Seq<(Seq<char>, JsonTree)> {
    match member_from(v, name, 0) {
        Some(p) => v.update(p, (name, value)),
        None => v.insert(member_place(v, name, 0), (name, value)),
    }
}

/// The members without the first of a name.
pub open spec fn drop_member(v: Seq<(Seq<char>, JsonTree)>, name: Seq<char>) -> Seq<
    (Seq<char>, JsonTree),
> {
    match member_from(v, name, 0) {
        Some(p) => v.remove(p),
        None => v,
    }
}

/// Sets a member.
pub fn set_member(v: &mut Vec<(String, Json)>, name: &str, value: Json)
    ensures
        members(final(v)@, final(v)@.len() as int) == put_member(
            members(old(v)@, old(v)@.len() as int),
            name@,
            tree(value),
        ),
{
    let ghost before = v@;
    let ghost all = members(v@, v@.len() as int);
    proof {
        members_index(v@, v@.len() as int);
    }
    match find_member(v, name) {
        Some(p) => {
            v.set(p, (name.to_owned(), value));
            proof {
                members_index(v@, v@.len() as int);
                assert(members(v@, v@.len() as int) =~= all.update(p as int, (name@, tree(value))));
            }
        },
        None => {
            let mut i: usize = 0;
            while i < v.len() && text_before(v[i].0.as_str(), name)
                invariant
                    i <= v@.len(),
                    v@ == before,
                    all.len() == v@.len(),
                    forall|k: int|
                        0 <= k < all.len() ==> #[trigger] all[k] == (v@[k].0@, tree(v@[k].1)),
                    member_place(all, name@, 0) == member_place(all, name@, i as int),
                decreases v.len() - i,
            {
                assert(all[i as int] == (v@[i as int].0@, tree(v@[i as int].1)));
                i += 1;
            }
            proof {
                if i < v@.len() {
                    assert(all[i as int] == (v@[i as int].0@, tree(v@[i as int].1)));
                }
            }
            v.insert(i, (name.to_owned(), value));
            proof {
                members_index(v@, v@.len() as int);
                assert(members(v@, v@.len() as int) =~= all.insert(i as int, (name@, tree(value))));
            }
        },
    }
}

/// Takes a member out.
pub fn remove_member(v: &mut Vec<(String, Json)>, name: &str)
    ensures
        members(final(v)@, final(v)@.len() as int) == drop_member(
            members(old(v)@, old(v)@.len() as int),
            name@,
        ),
{
    let ghost all = members(v@, v@.len() as int);
    proof {
        members_index(v@, v@.len() as int);
    }
    match find_member(v, name) {
        Some(p) => {
            v.remove(p);
            proof {
                members_index(v@, v@.len() as int);
                assert(members(v@, v@.len() as int) =~= all.remove(p as int));
            }
        },
        None => {},
    }
}

pub open spec fn strs(v: Seq<&str>) -> Seq<Seq<char>> {
    Seq::new(v.len(), |i: int| v[i]@)
}

/// A list of texts.
pub fn json_strs(v: &Vec<&str>) -> (r: Json)
    ensures
        tree(r) == JsonTree::Array(text_trees(strs(v@))),
{
    let mut out: Vec<Json> = Vec::new();
    let mut i: usize = 0;
    while i < v.len()
        invariant
            i <= v@.len(),
            out@.len() == i,
            forall|k: int| 0 <= k < i ==> tree(#[trigger] out@[k]) == JsonTree::Text(v@[k]@),
        decreases v.len() - i,
    {
        out.push(json_text(v[i]));
        i += 1;
    }
    proof {
        trees_index(out@, out@.len() as int);
        assert(trees(out@, out@.len() as int) =~= text_trees(strs(v@)));
    }
    Json::Array(out)
}

/// Whether two values are the same tree.
pub fn same_json(a: &Json, b: &Json) -> (r: bool)
    ensures
        r == (tree(*a) == tree(*b)),
    decreases *a,
{
    match (a, b) {
        (Json::Null, Json::Null) => true,
        (Json::Bool(x), Json::Bool(y)) => *x == *y,
        (Json::Number(x), Json::Number(y)) => {
            let same = match (x.unsigned, y.unsigned) {
                (Some(m), Some(n)) => m == n,
                (None, None) => true,
                _ => false,
            };
            same && text_eq(x.text.as_str(), y.text.as_str())
        },
        (Json::Text(x), Json::Text(y)) => text_eq(x.as_str(), y.as_str()),
        (Json::Array(x), Json::Array(y)) => {
            let ghost left = trees(x@, x@.len() as int);
            let ghost right = trees(y@, y@.len() as int);
            proof {
                trees_index(x@, x@.len() as int);
                trees_index(y@, y@.len() as int);
            }
            if x.len() != y.len() {
                return false;
            }
            let mut i: usize = 0;
            while i < x.len()
                invariant
                    i <= x@.len(),
                    x@.len() == y@.len(),
                    *a == Json::Array(*x),
                    left.len() == x@.len(),
                    right.len() == y@.len(),
                    tree(*a) == JsonTree::Array(left),
                    tree(*b) == JsonTree::Array(right),
                    forall|k: int| 0 <= k < left.len() ==> #[trigger] left[k] == tree(x@[k]),
                    forall|k: int| 0 <= k < right.len() ==> #[trigger] right[k] == tree(y@[k]),
                    forall|k: int| 0 <= k < i ==> #[trigger] left[k] == right[k],
                decreases x.len() - i,
            {
                assert(decreases_to!(*a => x@[i as int]));
                if !same_json(&x[i], &y[i]) {
                    assert(left[i as int] != right[i as int]);
                    return false;
                }
                assert(left[i as int] == right[i as int]);
                i += 1;
            }
            assert(left =~= right);
            true
        },
        (Json::Object(x), Json::Object(y)) => {
            let ghost left = members(x@, x@.len() as int);
            let ghost right = members(y@, y@.len() as int);
            proof {
                members_index(x@, x@.len() as int);
                members_index(y@, y@.len() as int);
            }
            if x.len() != y.len() {
                return false;
            }
            let mut i: usize = 0;
            while i < x.len()
                invariant
                    i <= x@.len(),
                    x@.len() == y@.len(),
                    *a == Json::Object(*x),
                    left.len() == x@.len(),
                    right.len() == y@.len(),
                    tree(*a) == JsonTree::Object(left),
                    tree(*b) == JsonTree::Object(right),
                    forall|k: int|
                        0 <= k < left.len() ==> #[trigger] left[k] == (x@[k].0@, tree(x@[k].1)),
                    forall|k: int|
                        0 <= k < right.len() ==> #[trigger] right[k] == (y@[k].0@, tree(y@[k].1)),
                    forall|k: int| 0 <= k < i ==> #[trigger] left[k] == right[k],
                decreases x.len() - i,
            {
                assert(decreases_to!(*a => x@[i as int]));
                assert(decreases_to!(*a => x@[i as int].1));
                if !text_eq(x[i].0.as_str(), y[i].0.as_str()) || !same_json(&x[i].1, &y[i].1) {
                    assert(left[i as int] != right[i as int]);
                    return false;
                }
                assert(left[i as int] == right[i as int]);
                i += 1;
            }
            assert(left =~= right);
            true
        },
        _ => false,
    }
}

} // verus!
