//! Facts drawn from clauses: what a model is asked for, and batches that are
//! split when they are too much for one request.

use vstd::prelude::*;
use vstd::string::*;

use crate::clauses::{
    self, assistant_contexts, source_clauses, AssistantContext, ConsolidationEvent,
    ConsolidationInputBatch, ContextModel, SourceClause,
};
use crate::digest::{self, content_sha256};
use crate::json::{
    self, copy_json, json_number, json_text, json_texts, render, Json, JsonObject, JsonTree,
};
use crate::model::{copy_list, EventRole};
use crate::request::{self, ask, fact_schema, StructuredChatRequest};
use crate::text::{self, contains_part, join, lower, text_before, text_eq};

verus! {

/// The user events among the first `n`.
pub open spec fn user_positions(events: Seq<ConsolidationEvent>, n: int) -> Seq<int>
    decreases n,
{
    if n <= 0 {
        Seq::empty()
    } else if events[n - 1].role == EventRole::User {
        user_positions(events, n - 1).push(n - 1)
    } else {
        user_positions(events, n - 1)
    }
}

/// The characters of the first `n` events.
pub open spec fn event_chars(events: Seq<ConsolidationEvent>, n: int) -> nat
    decreases n,
{
    if n <= 0 {
        0
    } else {
        event_chars(events, n - 1) + events[n - 1].content@.len()
    }
}

pub open spec fn event_ids(events: Seq<ConsolidationEvent>) -> Seq<Seq<char>> {
    Seq::new(events.len(), |i: int| events[i].event_id@)
}

pub open spec fn event_hashes(events: Seq<ConsolidationEvent>) -> Seq<Seq<char>> {
    Seq::new(events.len(), |i: int| events[i].content_sha256@)
}

/// The JSON that identifies a part of a batch.
pub open spec fn part_tree(
    session_id: Seq<char>,
    watermark_before: usize,
    events: Seq<ConsolidationEvent>,
) -> JsonTree {
    JsonTree::Object(
        seq![
            ("domain"@, JsonTree::Text("hippocampus-fact-batch-v2"@)),
            ("event_hashes"@, JsonTree::Array(json::text_trees(event_hashes(events)))),
            ("event_ids"@, JsonTree::Array(json::text_trees(event_ids(events)))),
            ("session_id"@, JsonTree::Text(session_id)),
            ("watermark_before"@, json::number_tree(watermark_before as u64)),
        ],
    )
}

/// The events of a part: up to its last user event.
pub open spec fn part_events(events: Seq<ConsolidationEvent>, from: int, to: int) -> Seq<
    ConsolidationEvent,
> {
    events.subrange(from, last_user_end(events, from, to))
}

/// Where the last user event between two positions ends.
pub open spec fn last_user_end(events: Seq<ConsolidationEvent>, from: int, to: int) -> int
    decreases to - from,
{
    if to <= from {
        from
    } else if events[to - 1].role == EventRole::User {
        to
    } else {
        last_user_end(events, from, to - 1)
    }
}

/// A part of a batch that holds some events.
pub open spec fn is_part(
    p: ConsolidationInputBatch,
    session_id: Seq<char>,
    watermark_before: usize,
    events: Seq<ConsolidationEvent>,
) -> bool {
    let n = events.len() as int;
    &&& p.batch_key@ == "batch_v2_"@ + digest::text_digest(
        json::rendered(part_tree(session_id, watermark_before, events)),
    )
    &&& p.session_id@ == session_id
    &&& p.watermark_before == watermark_before
    &&& p.from_sequence == events[0].sequence
    &&& p.through_sequence == events[n - 1].sequence
    &&& p.through_event_id@ == events[n - 1].event_id@
    &&& p.through_event_sha256@ == events[n - 1].content_sha256@
    &&& p.turn_count == user_positions(events, n).len()
    &&& p.char_count == event_chars(events, n)
    &&& p.events@ == events
}

fn copy_events(v: &Vec<ConsolidationEvent>, from: usize, to: usize) -> (r: Vec<ConsolidationEvent>)
    requires
        from <= to <= v@.len(),
    ensures
        r@ == v@.subrange(from as int, to as int),
{
    let mut out: Vec<ConsolidationEvent> = Vec::new();
    let mut i: usize = from;
    while i < to
        invariant
            from <= i <= to <= v@.len(),
            out@ == v@.subrange(from as int, i as int),
        decreases to - i,
    {
        out.push(v[i].clone());
        assert(out@ =~= v@.subrange(from as int, i + 1));
        i += 1;
    }
    out
}

proof fn event_chars_grow(v: Seq<ConsolidationEvent>, a: int, b: int)
    requires
        a <= b,
    ensures
        event_chars(v, a) <= event_chars(v, b),
    decreases b - a,
{
    if a < b {
        event_chars_grow(v, a, b - 1);
        if b <= 0 {
            assert(event_chars(v, a) == 0);
        }
    }
}

proof fn part_chars_at_most_whole(v: Seq<ConsolidationEvent>, from: int, k: int)
    requires
        0 <= from,
        0 <= k,
        from + k <= v.len(),
    ensures
        event_chars(v.subrange(from, from + k), k) <= event_chars(v, from + k),
    decreases k,
{
    if k > 0 {
        part_chars_at_most_whole(v, from, k - 1);
        same_event_chars(v.subrange(from, from + k), v.subrange(from, from + k - 1), k - 1);
    }
}

proof fn same_event_chars(a: Seq<ConsolidationEvent>, b: Seq<ConsolidationEvent>, n: int)
    requires
        n <= a.len(),
        n <= b.len(),
        forall|i: int| 0 <= i < n ==> a[i] == b[i],
    ensures
        event_chars(a, n) == event_chars(b, n),
    decreases n,
{
    if n > 0 {
        same_event_chars(a, b, n - 1);
    }
}

proof fn users_at_most(v: Seq<ConsolidationEvent>, n: int)
    ensures
        user_positions(v, n).len() <= if n < 0 {
            0
        } else {
            n
        },
    decreases n,
{
    if n > 0 {
        users_at_most(v, n - 1);
    }
}

fn last_user(events: &Vec<ConsolidationEvent>, from: usize, to: usize) -> (r: usize)
    requires
        from <= to <= events@.len(),
    ensures
        r == last_user_end(events@, from as int, to as int),
        from <= r <= to,
{
    let mut end: usize = to;
    while end > from && !(events[end - 1].role == EventRole::User)
        invariant
            from <= end <= to <= events@.len(),
            last_user_end(events@, from as int, to as int) == last_user_end(
                events@,
                from as int,
                end as int,
            ),
        decreases end - from,
    {
        end -= 1;
    }
    end
}

/// Makes a part of a batch from the events between two positions, up to the last
/// user event among them; without one there is no part.
fn child_batch(
    parent: &ConsolidationInputBatch,
    from: usize,
    to: usize,
    watermark_before: usize,
) -> (r: Option<ConsolidationInputBatch>)
    requires
        from <= to <= parent.events@.len(),
        event_chars(parent.events@, parent.events@.len() as int) <= usize::MAX,
    ensures
        match r {
            Some(p) => is_part(
                p,
                parent.session_id@,
                watermark_before,
                part_events(parent.events@, from as int, to as int),
            ) && part_events(parent.events@, from as int, to as int).len() > 0,
            None => part_events(parent.events@, from as int, to as int).len() == 0,
        },
{
    let end = last_user(&parent.events, from, to);
    if end == from {
        return None;
    }
    let events = copy_events(&parent.events, from, end);
    let n = events.len();
    let mut turn_count: usize = 0;
    let mut char_count: usize = 0;
    let mut ids: Vec<String> = Vec::new();
    let mut hashes: Vec<String> = Vec::new();
    let mut i: usize = 0;
    proof {
        part_chars_at_most_whole(parent.events@, from as int, n as int);
        event_chars_grow(parent.events@, end as int, parent.events@.len() as int);
    }
    while i < n
        invariant
            i <= n,
            n == events@.len(),
            event_chars(events@, n as int) <= usize::MAX,
            turn_count == user_positions(events@, i as int).len(),
            turn_count <= i,
            char_count == event_chars(events@, i as int),
            ids@.len() == i,
            hashes@.len() == i,
            forall|k: int| 0 <= k < i ==> (#[trigger] ids@[k])@ == events@[k].event_id@,
            forall|k: int| 0 <= k < i ==> (#[trigger] hashes@[k])@ == events@[k].content_sha256@,
        decreases n - i,
    {
        proof {
            event_chars_grow(events@, i + 1, n as int);
            users_at_most(events@, i as int);
        }
        if events[i].role == EventRole::User {
            turn_count = turn_count + 1;
        }
        char_count = char_count + events[i].content.as_str().unicode_len();
        ids.push(events[i].event_id.clone());
        hashes.push(events[i].content_sha256.clone());
        i += 1;
    }
    assert(text::texts(ids@) =~= event_ids(events@));
    assert(text::texts(hashes@) =~= event_hashes(events@));
    let object = JsonObject::new().with("domain", json_text("hippocampus-fact-batch-v2")).with(
        "event_hashes",
        json_texts(&hashes),
    ).with("event_ids", json_texts(&ids)).with(
        "session_id",
        json_text(parent.session_id.as_str()),
    ).with("watermark_before", json_number(watermark_before as u64));
    assert(object.list() =~= part_tree(
        parent.session_id@,
        watermark_before,
        events@,
    )->Object_0);
    let mut batch_key = "batch_v2_".to_owned();
    batch_key.append(content_sha256(render(&object.finish()).as_str()).as_str());
    Some(
        ConsolidationInputBatch {
            batch_key,
            session_id: parent.session_id.clone(),
            watermark_before,
            from_sequence: events[0].sequence,
            through_sequence: events[n - 1].sequence,
            through_event_id: events[n - 1].event_id.clone(),
            through_event_sha256: events[n - 1].content_sha256.clone(),
            turn_count,
            char_count,
            events,
        },
    )
}

/// Where a batch is split: the first half of its turns goes to the front.
pub open spec fn batch_cut(events: Seq<ConsolidationEvent>) -> int {
    let users = user_positions(events, events.len() as int);
    users[(users.len() as int + 1) / 2]
}

proof fn user_positions_sound(events: Seq<ConsolidationEvent>, n: int)
    requires
        0 <= n <= events.len(),
    ensures
        forall|i: int|
            0 <= i < user_positions(events, n).len() ==> 0 <= (#[trigger] user_positions(
                events,
                n,
            )[i]) < n && events[user_positions(events, n)[i]].role == EventRole::User,
        forall|i: int, j: int|
            0 <= i < j < user_positions(events, n).len() ==> user_positions(events, n)[i]
                < user_positions(events, n)[j],
    decreases n,
{
    if n > 0 {
        user_positions_sound(events, n - 1);
        let rest = user_positions(events, n - 1);
        let all = user_positions(events, n);
        assert forall|i: int, j: int| 0 <= i < j < all.len() implies all[i] < all[j] by {
            assert(all[i] == rest[i]);
            if j < rest.len() {
                assert(rest[i] < rest[j]);
            }
        }
        assert forall|i: int| 0 <= i < all.len() implies 0 <= (#[trigger] all[i]) < n
            && events[all[i]].role == EventRole::User by {
            if i < rest.len() {
                assert(all[i] == rest[i]);
            }
        }
    }
}

pub open spec fn positions(v: Seq<usize>) -> Seq<int> {
    Seq::new(v.len(), |i: int| v[i] as int)
}

/// Splits a batch of at least two turns into two parts with whole turns.
pub fn split_batch(batch: &ConsolidationInputBatch) -> (r: Option<
    (ConsolidationInputBatch, ConsolidationInputBatch),
>)
    requires
        event_chars(batch.events@, batch.events@.len() as int) <= usize::MAX,
    ensures
        ({
            let events = batch.events@;
            let n = events.len() as int;
            let cut = batch_cut(events);
            if user_positions(events, n).len() < 2 {
                r is None
            } else {
                &&& r matches Some((left, right))
                &&& is_part(
                    left,
                    batch.session_id@,
                    batch.watermark_before,
                    part_events(events, 0, cut),
                )
                &&& is_part(
                    right,
                    batch.session_id@,
                    left.through_sequence,
                    part_events(events, cut, n),
                )
            }
        }),
{
    let n = batch.events.len();
    let mut users: Vec<usize> = Vec::new();
    let mut i: usize = 0;
    assert(positions(users@) =~= Seq::empty());
    while i < n
        invariant
            i <= n,
            n == batch.events@.len(),
            positions(users@) == user_positions(batch.events@, i as int),
        decreases n - i,
    {
        if batch.events[i].role == EventRole::User {
            let ghost before = positions(users@);
            users.push(i);
            assert(positions(users@) =~= before.push(i as int));
        }
        i += 1;
    }
    if users.len() < 2 {
        return None;
    }
    let ghost all = user_positions(batch.events@, n as int);
    proof {
        user_positions_sound(batch.events@, n as int);
        assert(all.len() == users@.len());
    }
    let half = users.len() - users.len() / 2;
    assert(half == (all.len() as int + 1) / 2);
    let cut = users[half];
    proof {
        assert(all[half as int] == cut);
        assert(all[half as int] < n);
        assert(all[0] < all[half as int]);
        user_before_end(batch.events@, 0, cut as int, all[0]);
        user_before_end(batch.events@, cut as int, n as int, cut as int);
    }
    match child_batch(batch, 0, cut, batch.watermark_before) {
        None => None,
        Some(left) => match child_batch(batch, cut, n, left.through_sequence) {
            None => None,
            Some(right) => Some((left, right)),
        },
    }
}

proof fn user_before_end(events: Seq<ConsolidationEvent>, from: int, to: int, p: int)
    requires
        0 <= from <= p < to <= events.len(),
        events[p].role == EventRole::User,
    ensures
        p < last_user_end(events, from, to) <= to,
    decreases to - p,
{
    if events[to - 1].role != EventRole::User {
        user_before_end(events, from, to - 1, p);
    }
}

pub const FACTS_SYSTEM_PROMPT: &'static str = "Extract only user-adopted facts. Source clauses are the only evidence. Assistant context is interpretation-only and must never be quoted as evidence. Return exactly schema-conforming JSON. Every source reference must copy clause_id, event_id, Unicode scalar-value offsets, and exact text from the source catalog. Never return hashes or span IDs. Use a context_id only for a user's explicit confirmation, denial, or correction. Do not invent or summarize.";

/// An entity that is known already.
#[derive(Debug)]
pub struct CandidateEntity {
    pub entity_id: String,
    pub kind: Json,
    pub canonical_name: String,
    pub disambiguation: Json,
    pub aliases: Vec<String>,
}

/// A claim that is known already.
#[derive(Debug)]
pub struct CandidateClaim {
    pub claim_id: String,
    pub subject_entity_id: String,
    pub predicate_key: String,
    pub normalized_relation: String,
    pub object_kind: Json,
    pub object_text: Option<String>,
    pub object_entity_id: Option<String>,
    pub normalized_object: Json,
    pub polarity: Json,
    pub certainty: Json,
    pub state: Json,
}

/// What is known when facts are asked for.
#[derive(Debug)]
pub struct ConsolidationCandidateSnapshot {
    pub snapshot_sha256: String,
    pub entities: Vec<CandidateEntity>,
    pub claims: Vec<CandidateClaim>,
}

/// A request for facts, with the sources that its answer may quote.
#[derive(Clone, Debug)]
pub struct PreparedFactRequest {
    pub request: StructuredChatRequest,
    pub clauses: Vec<SourceClause>,
    pub assistant_contexts: Vec<AssistantContext>,
}

/// How many entities and claims are put before a model.
pub const ENTITY_LIMIT: usize = 12;

pub const CLAIM_LIMIT: usize = 16;

/// The positions among the first `n` that are marked as wanted.
pub open spec fn marked(flags: Seq<bool>, want: bool, n: int) -> Seq<int>
    decreases n,
{
    if n <= 0 {
        Seq::empty()
    } else if flags[n - 1] == want {
        marked(flags, want, n - 1).push(n - 1)
    } else {
        marked(flags, want, n - 1)
    }
}

/// The marked positions and then the others, in order, and no more than `limit`.
pub open spec fn ranked(flags: Seq<bool>, limit: int) -> Seq<int> {
    let all = marked(flags, true, flags.len() as int) + marked(flags, false, flags.len() as int);
    if all.len() <= limit {
        all
    } else {
        all.take(limit)
    }
}

proof fn marked_in_range(flags: Seq<bool>, want: bool, n: int)
    requires
        0 <= n <= flags.len(),
    ensures
        marked(flags, want, n).len() <= n,
        forall|i: int|
            0 <= i < marked(flags, want, n).len() ==> 0 <= #[trigger] marked(flags, want, n)[i] < n,
    decreases n,
{
    if n > 0 {
        marked_in_range(flags, want, n - 1);
    }
}

fn push_marked(out: &mut Vec<usize>, flags: &Vec<bool>, want: bool)
    ensures
        positions(final(out)@) == positions(old(out)@) + marked(
            flags@,
            want,
            flags@.len() as int,
        ),
{
    let ghost before = positions(out@);
    let mut i: usize = 0;
    assert(positions(out@) =~= before + marked(flags@, want, 0));
    while i < flags.len()
        invariant
            i <= flags@.len(),
            positions(out@) == before + marked(flags@, want, i as int),
        decreases flags.len() - i,
    {
        if flags[i] == want {
            let ghost now = positions(out@);
            out.push(i);
            assert(positions(out@) =~= now.push(i as int));
            assert(now.push(i as int) =~= before + marked(flags@, want, i + 1));
        }
        i += 1;
    }
}

/// Ranks positions: the marked ones first, each kind in order, no more than
/// `limit`.
pub fn rank(flags: &Vec<bool>, limit: usize) -> (r: Vec<usize>)
    ensures
        positions(r@) == ranked(flags@, limit as int),
        forall|i: int| 0 <= i < r@.len() ==> #[trigger] r@[i] < flags@.len(),
{
    let mut out: Vec<usize> = Vec::new();
    assert(positions(out@) =~= Seq::empty());
    push_marked(&mut out, flags, true);
    assert(positions(out@) =~= marked(flags@, true, flags@.len() as int));
    push_marked(&mut out, flags, false);
    let ghost all = positions(out@);
    proof {
        marked_in_range(flags@, true, flags@.len() as int);
        marked_in_range(flags@, false, flags@.len() as int);
        assert forall|i: int| 0 <= i < all.len() implies 0 <= #[trigger] all[i] < flags@.len() by {
            let front = marked(flags@, true, flags@.len() as int);
            if i < front.len() {
                assert(all[i] == front[i]);
            } else {
                assert(all[i] == marked(flags@, false, flags@.len() as int)[i - front.len()]);
            }
        }
    }
    if out.len() > limit {
        out.truncate(limit);
        assert(positions(out@) =~= all.take(limit as int));
    }
    proof {
        assert forall|i: int| 0 <= i < out@.len() implies #[trigger] out@[i] < flags@.len() by {
            assert(all[i] == out@[i]);
        }
    }
    out
}

/// All clauses in lower case, one per line.
pub open spec fn lowered_text(v: Seq<SourceClause>) -> Seq<char> {
    text::joined(Seq::new(v.len(), |i: int| text::lowercased(v[i].text@)), "\n"@)
}

fn lower_clauses(v: &Vec<SourceClause>) -> (r: String)
    ensures
        r@ == lowered_text(v@),
{
    let mut out: Vec<String> = Vec::new();
    let mut i: usize = 0;
    while i < v.len()
        invariant
            i <= v@.len(),
            out@.len() == i,
            forall|k: int|
                0 <= k < i ==> (#[trigger] out@[k])@ == text::lowercased(v@[k].text@),
        decreases v.len() - i,
    {
        out.push(lower(v[i].text.as_str()));
        i += 1;
    }
    assert(text::texts(out@) =~= Seq::new(v@.len(), |k: int| text::lowercased(v@[k].text@)));
    join(&out, "\n")
}

/// Whether a text speaks of a name, whatever its case.
pub open spec fn speaks_of(current: Seq<char>, name: Seq<char>) -> bool {
    text::occurs(current, text::lowercased(name))
}

pub open spec fn entity_matches(e: CandidateEntity, current: Seq<char>) -> bool {
    ||| speaks_of(current, e.canonical_name@)
    ||| exists|i: int| 0 <= i < e.aliases@.len() && speaks_of(current, (#[trigger] e.aliases@[i])@)
}

pub open spec fn claim_matches(c: CandidateClaim, current: Seq<char>) -> bool {
    ||| speaks_of(current, c.normalized_relation@)
    ||| speaks_of(current, c.predicate_key@)
    ||| (c.object_text matches Some(object) && speaks_of(current, object@))
}

fn mentions(current: &str, name: &str) -> (r: bool)
    ensures
        r == speaks_of(current@, name@),
{
    let lowered = lower(name);
    contains_part(current, lowered.as_str())
}

fn entity_is_mentioned(e: &CandidateEntity, current: &str) -> (r: bool)
    ensures
        r == entity_matches(*e, current@),
{
    if mentions(current, e.canonical_name.as_str()) {
        return true;
    }
    let mut i: usize = 0;
    while i < e.aliases.len()
        invariant
            i <= e.aliases@.len(),
            !speaks_of(current@, e.canonical_name@),
            forall|k: int| 0 <= k < i ==> !speaks_of(current@, (#[trigger] e.aliases@[k])@),
        decreases e.aliases.len() - i,
    {
        if mentions(current, e.aliases[i].as_str()) {
            return true;
        }
        i += 1;
    }
    false
}

fn claim_is_mentioned(c: &CandidateClaim, current: &str) -> (r: bool)
    ensures
        r == claim_matches(*c, current@),
{
    mentions(current, c.normalized_relation.as_str()) || mentions(current, c.predicate_key.as_str())
        || match &c.object_text {
        Some(object) => mentions(current, object.as_str()),
        None => false,
    }
}

pub open spec fn entity_tree(e: CandidateEntity) -> JsonTree {
    JsonTree::Object(
        seq![
            ("aliases"@, JsonTree::Array(json::text_trees(text::texts(e.aliases@)))),
            ("disambiguation"@, json::tree(e.disambiguation)),
            ("entity_id"@, JsonTree::Text(e.entity_id@)),
            ("kind"@, json::tree(e.kind)),
            ("name"@, JsonTree::Text(e.canonical_name@)),
        ],
    )
}

fn json_entity(e: &CandidateEntity) -> (r: Json)
    ensures
        json::tree(r) == entity_tree(*e),
{
    let object = JsonObject::new().with("aliases", json_texts(&e.aliases)).with(
        "disambiguation",
        copy_json(&e.disambiguation),
    ).with("entity_id", json_text(e.entity_id.as_str())).with("kind", copy_json(&e.kind)).with(
        "name",
        json_text(e.canonical_name.as_str()),
    );
    assert(object.list() =~= entity_tree(*e)->Object_0);
    object.finish()
}

pub open spec fn claim_tree(c: CandidateClaim) -> JsonTree {
    JsonTree::Object(
        seq![
            ("certainty"@, json::tree(c.certainty)),
            ("claim_id"@, JsonTree::Text(c.claim_id@)),
            ("normalized_object"@, json::tree(c.normalized_object)),
            ("object_entity_id"@, json::opt_text_tree(text::opt_text(c.object_entity_id))),
            ("object_kind"@, json::tree(c.object_kind)),
            ("object_text"@, json::opt_text_tree(text::opt_text(c.object_text))),
            ("polarity"@, json::tree(c.polarity)),
            ("predicate_key"@, JsonTree::Text(c.predicate_key@)),
            ("relation"@, JsonTree::Text(c.normalized_relation@)),
            ("state"@, json::tree(c.state)),
            ("subject_entity_id"@, JsonTree::Text(c.subject_entity_id@)),
        ],
    )
}

fn json_optional(s: &Option<String>) -> (r: Json)
    ensures
        json::tree(r) == json::opt_text_tree(text::opt_text(*s)),
{
    match s {
        Some(value) => json_text(value.as_str()),
        None => Json::Null,
    }
}

fn json_claim(c: &CandidateClaim) -> (r: Json)
    ensures
        json::tree(r) == claim_tree(*c),
{
    let object = JsonObject::new().with("certainty", copy_json(&c.certainty)).with(
        "claim_id",
        json_text(c.claim_id.as_str()),
    ).with("normalized_object", copy_json(&c.normalized_object)).with(
        "object_entity_id",
        json_optional(&c.object_entity_id),
    ).with("object_kind", copy_json(&c.object_kind)).with(
        "object_text",
        json_optional(&c.object_text),
    ).with("polarity", copy_json(&c.polarity)).with(
        "predicate_key",
        json_text(c.predicate_key.as_str()),
    ).with("relation", json_text(c.normalized_relation.as_str())).with(
        "state",
        copy_json(&c.state),
    ).with("subject_entity_id", json_text(c.subject_entity_id.as_str()));
    assert(object.list() =~= claim_tree(*c)->Object_0);
    object.finish()
}

/// The entities that are put before a model, those that the text speaks of first.
pub open spec fn chosen_entities(v: Seq<CandidateEntity>, current: Seq<char>) -> Seq<JsonTree> {
    let order = ranked(
        Seq::new(v.len(), |i: int| entity_matches(v[i], current)),
        ENTITY_LIMIT as int,
    );
    Seq::new(order.len(), |i: int| entity_tree(v[order[i]]))
}

/// The claims that are put before a model, those that the text speaks of first.
pub open spec fn chosen_claims(v: Seq<CandidateClaim>, current: Seq<char>) -> Seq<JsonTree> {
    let order = ranked(
        Seq::new(v.len(), |i: int| claim_matches(v[i], current)),
        CLAIM_LIMIT as int,
    );
    Seq::new(order.len(), |i: int| claim_tree(v[order[i]]))
}

fn choose_entities(v: &Vec<CandidateEntity>, current: &str) -> (r: Json)
    ensures
        json::tree(r) == JsonTree::Array(chosen_entities(v@, current@)),
{
    let mut flags: Vec<bool> = Vec::new();
    let mut i: usize = 0;
    while i < v.len()
        invariant
            i <= v@.len(),
            flags@.len() == i,
            forall|k: int| 0 <= k < i ==> #[trigger] flags@[k] == entity_matches(v@[k], current@),
        decreases v.len() - i,
    {
        flags.push(entity_is_mentioned(&v[i], current));
        i += 1;
    }
    assert(flags@ =~= Seq::new(v@.len(), |k: int| entity_matches(v@[k], current@)));
    let order = rank(&flags, ENTITY_LIMIT);
    let ghost places = positions(order@);
    let mut out: Vec<Json> = Vec::new();
    let mut j: usize = 0;
    while j < order.len()
        invariant
            j <= order@.len(),
            out@.len() == j,
            places == positions(order@),
            forall|k: int| 0 <= k < order@.len() ==> #[trigger] order@[k] < v@.len(),
            forall|k: int| 0 <= k < j ==> json::tree(#[trigger] out@[k]) == entity_tree(
                v@[places[k]],
            ),
        decreases order.len() - j,
    {
        assert(places[j as int] == order@[j as int]);
        out.push(json_entity(&v[order[j]]));
        j += 1;
    }
    proof {
        json::trees_index(out@, out@.len() as int);
        assert(json::trees(out@, out@.len() as int) =~= chosen_entities(v@, current@));
    }
    Json::Array(out)
}

fn choose_claims(v: &Vec<CandidateClaim>, current: &str) -> (r: Json)
    ensures
        json::tree(r) == JsonTree::Array(chosen_claims(v@, current@)),
{
    let mut flags: Vec<bool> = Vec::new();
    let mut i: usize = 0;
    while i < v.len()
        invariant
            i <= v@.len(),
            flags@.len() == i,
            forall|k: int| 0 <= k < i ==> #[trigger] flags@[k] == claim_matches(v@[k], current@),
        decreases v.len() - i,
    {
        flags.push(claim_is_mentioned(&v[i], current));
        i += 1;
    }
    assert(flags@ =~= Seq::new(v@.len(), |k: int| claim_matches(v@[k], current@)));
    let order = rank(&flags, CLAIM_LIMIT);
    let ghost places = positions(order@);
    let mut out: Vec<Json> = Vec::new();
    let mut j: usize = 0;
    while j < order.len()
        invariant
            j <= order@.len(),
            out@.len() == j,
            places == positions(order@),
            forall|k: int| 0 <= k < order@.len() ==> #[trigger] order@[k] < v@.len(),
            forall|k: int| 0 <= k < j ==> json::tree(#[trigger] out@[k]) == claim_tree(
                v@[places[k]],
            ),
        decreases order.len() - j,
    {
        assert(places[j as int] == order@[j as int]);
        out.push(json_claim(&v[order[j]]));
        j += 1;
    }
    proof {
        json::trees_index(out@, out@.len() as int);
        assert(json::trees(out@, out@.len() as int) =~= chosen_claims(v@, current@));
    }
    Json::Array(out)
}

/// The candidates that are put before a model, for a text in lower case.
pub open spec fn candidates_tree(c: ConsolidationCandidateSnapshot, current: Seq<char>) -> JsonTree {
    JsonTree::Object(
        seq![
            ("claims"@, JsonTree::Array(chosen_claims(c.claims@, current))),
            ("entities"@, JsonTree::Array(chosen_entities(c.entities@, current))),
        ],
    )
}

/// Chooses the candidates that are put before a model.
pub fn compact_candidates(candidates: &ConsolidationCandidateSnapshot, clauses: &Vec<SourceClause>) -> (r:
    Json)
    ensures
        json::tree(r) == candidates_tree(*candidates, lowered_text(clauses@)),
{
    let current = lower_clauses(clauses);
    let object = JsonObject::new().with(
        "claims",
        choose_claims(&candidates.claims, current.as_str()),
    ).with("entities", choose_entities(&candidates.entities, current.as_str()));
    assert(object.list() =~= candidates_tree(*candidates, current@)->Object_0);
    object.finish()
}

/// How many leading contexts have ids before `id`.
pub open spec fn context_place(v: Seq<ContextModel>, id: Seq<char>, i: int) -> int
    decreases v.len() - i,
{
    if i < 0 || i >= v.len() || !text::text_lt(v[i].context_id, id) {
        i
    } else {
        context_place(v, id, i + 1)
    }
}

/// A sorted list with one more context, unless one of the same id is there.
pub open spec fn with_context(v: Seq<ContextModel>, c: ContextModel) -> Seq<ContextModel> {
    let p = context_place(v, c.context_id, 0);
    if p < v.len() && v[p].context_id == c.context_id {
        v
    } else {
        v.insert(p, c)
    }
}

/// The first `n` contexts in order of their ids; of those with the same id the
/// first stays.
pub open spec fn catalog(v: Seq<ContextModel>, n: int) -> Seq<ContextModel>
    decreases n,
{
    if n <= 0 {
        Seq::empty()
    } else {
        with_context(catalog(v, n - 1), v[n - 1])
    }
}

proof fn place_in_range(v: Seq<ContextModel>, id: Seq<char>, i: int)
    requires
        0 <= i <= v.len(),
    ensures
        i <= context_place(v, id, i) <= v.len(),
        forall|k: int|
            i <= k < context_place(v, id, i) ==> text::text_lt((#[trigger] v[k]).context_id, id),
        context_place(v, id, i) < v.len() ==> !text::text_lt(
            v[context_place(v, id, i)].context_id,
            id,
        ),
    decreases v.len() - i,
{
    if i < v.len() && text::text_lt(v[i].context_id, id) {
        place_in_range(v, id, i + 1);
    }
}

pub open spec fn context_ids(v: Seq<ContextModel>) -> Seq<Seq<char>> {
    Seq::new(v.len(), |i: int| v[i].context_id)
}

/// A catalog is in strict order of its ids, and holds every id that it was made
/// of.
pub proof fn catalog_is_sorted(v: Seq<ContextModel>, n: int)
    requires
        0 <= n <= v.len(),
    ensures
        text::strictly_sorted(context_ids(catalog(v, n))),
        forall|i: int|
            0 <= i < n ==> context_ids(catalog(v, n)).contains((#[trigger] v[i]).context_id),
    decreases n,
{
    if n > 0 {
        catalog_is_sorted(v, n - 1);
        let rest = catalog(v, n - 1);
        let c = v[n - 1];
        let all = catalog(v, n);
        let p = context_place(rest, c.context_id, 0);
        place_in_range(rest, c.context_id, 0);
        let ids = context_ids(all);
        let rest_ids = context_ids(rest);
        if p < rest.len() && rest[p].context_id == c.context_id {
            assert(rest_ids[p] == c.context_id);
        } else {
            assert(ids[p] == c.context_id);
            assert forall|i: int, j: int| 0 <= i < j < ids.len() implies text::text_lt(
                #[trigger] ids[i],
                #[trigger] ids[j],
            ) by {
                let a = if i < p {
                    i
                } else {
                    i - 1
                };
                let b = if j < p {
                    j
                } else {
                    j - 1
                };
                if i != p {
                    assert(ids[i] == rest_ids[a]);
                }
                if j != p {
                    assert(ids[j] == rest_ids[b]);
                }
                if j == p {
                    assert(text::text_lt(rest[a].context_id, c.context_id));
                } else if i == p {
                    text::text_lt_total(rest[p].context_id, c.context_id);
                    if b > p {
                        assert(text::text_lt(rest_ids[p], rest_ids[b]));
                        text::text_lt_transitive(c.context_id, rest_ids[p], rest_ids[b]);
                    }
                }
            }
            assert forall|i: int| 0 <= i < n - 1 implies ids.contains(
                (#[trigger] v[i]).context_id,
            ) by {
                assert(rest_ids.contains(v[i].context_id));
                let k = choose|k: int|
                    0 <= k < rest_ids.len() && rest_ids[k] == v[i].context_id;
                if k < p {
                    assert(ids[k] == rest_ids[k]);
                } else {
                    assert(ids[k + 1] == rest_ids[k]);
                }
            }
        }
    }
}

fn add_context(v: &mut Vec<AssistantContext>, c: &AssistantContext)
    ensures
        clauses::context_models(final(v)@) == with_context(
            clauses::context_models(old(v)@),
            clauses::context_model(*c),
        ),
{
    let ghost before = v@;
    let ghost all = clauses::context_models(v@);
    let mut i: usize = 0;
    while i < v.len() && text_before(v[i].context_id.as_str(), c.context_id.as_str())
        invariant
            i <= v@.len(),
            v@ == before,
            all == clauses::context_models(v@),
            context_place(all, c.context_id@, 0) == context_place(
                all,
                c.context_id@,
                i as int,
            ),
        decreases v.len() - i,
    {
        i += 1;
    }
    if i < v.len() && text_eq(v[i].context_id.as_str(), c.context_id.as_str()) {
        return ;
    }
    v.insert(i, c.clone());
    assert(clauses::context_models(v@) =~= all.insert(i as int, clauses::context_model(*c)));
}

fn build_catalog(first: &Vec<AssistantContext>, second: &Vec<AssistantContext>) -> (r: Vec<
    AssistantContext,
>)
    ensures
        clauses::context_models(r@) == catalog(
            clauses::context_models(first@) + clauses::context_models(second@),
            (first@.len() + second@.len()) as int,
        ),
{
    let ghost all = clauses::context_models(first@) + clauses::context_models(second@);
    let mut out: Vec<AssistantContext> = Vec::new();
    assert(clauses::context_models(out@) =~= Seq::empty());
    let mut i: usize = 0;
    while i < first.len()
        invariant
            i <= first@.len(),
            all == clauses::context_models(first@) + clauses::context_models(second@),
            clauses::context_models(out@) == catalog(all, i as int),
        decreases first.len() - i,
    {
        assert(all[i as int] == clauses::context_model(first@[i as int]));
        add_context(&mut out, &first[i]);
        i += 1;
    }
    let mut j: usize = 0;
    while j < second.len()
        invariant
            j <= second@.len(),
            all == clauses::context_models(first@) + clauses::context_models(second@),
            clauses::context_models(out@) == catalog(all, first@.len() + j),
        decreases second.len() - j,
    {
        assert(all[first@.len() + j] == clauses::context_model(second@[j as int]));
        add_context(&mut out, &second[j]);
        j += 1;
    }
    out
}

/// A clause in JSON.
pub open spec fn clause_tree(c: SourceClause) -> JsonTree {
    JsonTree::Object(
        seq![
            ("clause_id"@, JsonTree::Text(c.clause_id@)),
            ("span_id"@, JsonTree::Text(c.span_id@)),
            ("event_id"@, JsonTree::Text(c.event_id@)),
            ("start_char"@, json::number_tree(c.start_char as u64)),
            ("end_char"@, json::number_tree(c.end_char as u64)),
            ("text"@, JsonTree::Text(c.text@)),
        ],
    )
}

pub open spec fn clause_trees(v: Seq<SourceClause>) -> Seq<JsonTree> {
    Seq::new(v.len(), |i: int| clause_tree(v[i]))
}

fn json_clauses(v: &Vec<SourceClause>) -> (r: Json)
    ensures
        json::tree(r) == JsonTree::Array(clause_trees(v@)),
{
    let mut out: Vec<Json> = Vec::new();
    let mut i: usize = 0;
    while i < v.len()
        invariant
            i <= v@.len(),
            out@.len() == i,
            forall|k: int| 0 <= k < i ==> json::tree(#[trigger] out@[k]) == clause_tree(v@[k]),
        decreases v.len() - i,
    {
        let c = &v[i];
        let object = JsonObject::new().with("clause_id", json_text(c.clause_id.as_str())).with(
            "span_id",
            json_text(c.span_id.as_str()),
        ).with("event_id", json_text(c.event_id.as_str())).with(
            "start_char",
            json_number(c.start_char as u64),
        ).with("end_char", json_number(c.end_char as u64)).with("text", json_text(c.text.as_str()));
        assert(object.list() =~= clause_tree(*c)->Object_0);
        out.push(object.finish());
        i += 1;
    }
    proof {
        json::trees_index(out@, out@.len() as int);
        assert(json::trees(out@, out@.len() as int) =~= clause_trees(v@));
    }
    Json::Array(out)
}

/// A context in JSON; the event that it comes from is left out.
pub open spec fn context_tree(c: ContextModel) -> JsonTree {
    JsonTree::Object(
        seq![
            ("context_id"@, JsonTree::Text(c.context_id)),
            ("text"@, JsonTree::Text(c.text)),
            ("extractable"@, JsonTree::Bool(c.extractable)),
        ],
    )
}

pub open spec fn context_trees(v: Seq<ContextModel>) -> Seq<JsonTree> {
    Seq::new(v.len(), |i: int| context_tree(v[i]))
}

fn json_contexts(v: &Vec<AssistantContext>) -> (r: Json)
    ensures
        json::tree(r) == JsonTree::Array(context_trees(clauses::context_models(v@))),
{
    let ghost all = clauses::context_models(v@);
    let mut out: Vec<Json> = Vec::new();
    let mut i: usize = 0;
    while i < v.len()
        invariant
            i <= v@.len(),
            out@.len() == i,
            all == clauses::context_models(v@),
            forall|k: int| 0 <= k < i ==> json::tree(#[trigger] out@[k]) == context_tree(all[k]),
        decreases v.len() - i,
    {
        let c = &v[i];
        let object = JsonObject::new().with("context_id", json_text(c.context_id.as_str())).with(
            "text",
            json_text(c.text.as_str()),
        ).with("extractable", Json::Bool(c.extractable));
        assert(object.list() =~= context_tree(all[i as int])->Object_0);
        out.push(object.finish());
        i += 1;
    }
    proof {
        json::trees_index(out@, out@.len() as int);
        assert(json::trees(out@, out@.len() as int) =~= context_trees(all));
    }
    Json::Array(out)
}

/// What a model is told when it is asked for facts.
pub open spec fn fact_question(
    batch: ConsolidationInputBatch,
    clauses: Seq<SourceClause>,
    contexts: Seq<ContextModel>,
    candidates: ConsolidationCandidateSnapshot,
) -> JsonTree {
    JsonTree::Object(
        seq![
            ("session_id"@, JsonTree::Text(batch.session_id@)),
            ("batch_key"@, JsonTree::Text(batch.batch_key@)),
            ("source_clauses"@, JsonTree::Array(clause_trees(clauses))),
            ("assistant_contexts"@, JsonTree::Array(context_trees(contexts))),
            ("candidate_snapshot_sha256"@, JsonTree::Text(candidates.snapshot_sha256@)),
            ("candidates"@, candidates_tree(candidates, lowered_text(clauses))),
        ],
    )
}

/// The clauses that facts may be drawn from: those given, or all of the batch.
pub open spec fn clauses_for(
    batch: ConsolidationInputBatch,
    given: Option<&Vec<SourceClause>>,
    v: Seq<SourceClause>,
) -> bool {
    match given {
        Some(own) => v == own@,
        None => clauses::batch_clauses(batch.events@, batch.events@.len() as int, v),
    }
}

/// Asks a model for the facts of a batch. The answer may quote the clauses, and
/// refer to the contexts of the batch and those given; `whole_schema` is the
/// shape of a whole consolidation.
pub fn prepare_fact_request(
    model: String,
    batch: &ConsolidationInputBatch,
    candidates: &ConsolidationCandidateSnapshot,
    extra_contexts: &Vec<AssistantContext>,
    clause_override: Option<&Vec<SourceClause>>,
    whole_schema: &Json,
    num_ctx: u64,
    num_predict: u64,
) -> (r: PreparedFactRequest)
    requires
        request::has_sections(json::tree(*whole_schema)),
    ensures
        clauses_for(*batch, clause_override, r.clauses@),
        clauses::context_models(r.assistant_contexts@) == ({
            let all = clauses::context_models(extra_contexts@) + clauses::contexts_of(
                batch.events@,
                batch.events@.len() as int,
            );
            catalog(all, all.len() as int)
        }),
        request::request_model(r.request) == request::asked(
            model@,
            FACTS_SYSTEM_PROMPT@,
            json::rendered(
                fact_question(
                    *batch,
                    r.clauses@,
                    clauses::context_models(r.assistant_contexts@),
                    *candidates,
                ),
            ),
            request::fact_shape(json::tree(*whole_schema)),
            num_ctx,
            num_predict,
        ),
{
    let clauses = match clause_override {
        Some(own) => copy_list(own),
        None => source_clauses(batch),
    };
    let own_contexts = assistant_contexts(batch);
    let contexts = build_catalog(extra_contexts, &own_contexts);
    assert(clauses::context_models(own_contexts@).len() == own_contexts@.len());
    let object = JsonObject::new().with("session_id", json_text(batch.session_id.as_str())).with(
        "batch_key",
        json_text(batch.batch_key.as_str()),
    ).with("source_clauses", json_clauses(&clauses)).with(
        "assistant_contexts",
        json_contexts(&contexts),
    ).with(
        "candidate_snapshot_sha256",
        json_text(candidates.snapshot_sha256.as_str()),
    ).with("candidates", compact_candidates(candidates, &clauses));
    assert(object.list() =~= fact_question(
        *batch,
        clauses@,
        clauses::context_models(contexts@),
        *candidates,
    )->Object_0);
    let request = ask(
        model,
        FACTS_SYSTEM_PROMPT,
        render(&object.finish()),
        fact_schema(whole_schema),
        num_ctx,
        num_predict,
    );
    PreparedFactRequest { request, clauses, assistant_contexts: contexts }
}

proof fn marked_positions_are_marked(flags: Seq<bool>, want: bool, n: int)
    requires
        0 <= n <= flags.len(),
    ensures
        forall|i: int| #[trigger]
            marked(flags, want, n).contains(i) <==> 0 <= i < n && flags[i] == want,
        forall|p: int, q: int|
            0 <= p < q < marked(flags, want, n).len() ==> #[trigger] marked(flags, want, n)[p]
                < #[trigger] marked(flags, want, n)[q],
        forall|p: int|
            0 <= p < marked(flags, want, n).len() ==> 0 <= #[trigger] marked(flags, want, n)[p] < n
                && flags[marked(flags, want, n)[p]] == want,
    decreases n,
{
    if n > 0 {
        marked_positions_are_marked(flags, want, n - 1);
        let before = marked(flags, want, n - 1);
        let now = marked(flags, want, n);
        assert forall|i: int| #[trigger] now.contains(i) <==> 0 <= i < n && flags[i] == want by {
            assert(before.contains(i) <==> 0 <= i < n - 1 && flags[i] == want);
            if now.contains(i) {
                let k = choose|k: int| 0 <= k < now.len() && now[k] == i;
                if k < before.len() {
                    assert(before[k] == i);
                }
            }
            if before.contains(i) {
                let k = choose|k: int| 0 <= k < before.len() && before[k] == i;
                assert(now[k] == i);
            }
            if now.len() > before.len() {
                assert(now[before.len() as int] == n - 1);
            }
        }
    }
}

proof fn marked_or_not(flags: Seq<bool>, n: int)
    requires
        0 <= n <= flags.len(),
    ensures
        marked(flags, true, n).len() + marked(flags, false, n).len() == n,
    decreases n,
{
    if n > 0 {
        marked_or_not(flags, n - 1);
    }
}

/// Those that are spoken of come first, and both they and the others in their own
/// order; as many are put forward as there are, up to the limit, and one that is
/// not spoken of only where all that are were.
pub proof fn those_spoken_of_come_first(flags: Seq<bool>, limit: int)
    requires
        0 <= limit,
    ensures
        ({
            let order = ranked(flags, limit);
            &&& order.len() == (if flags.len() <= limit {
                flags.len() as int
            } else {
                limit
            })
            &&& forall|p: int| 0 <= p < order.len() ==> 0 <= #[trigger] order[p] < flags.len()
            &&& forall|p: int, q: int|
                0 <= p < q < order.len() ==> (flags[#[trigger] order[p]] && !flags[
                    #[trigger] order[q]
                ]) || (flags[order[p]] == flags[order[q]] && order[p] < order[q])
            &&& forall|i: int, p: int|
                0 <= i < flags.len() && #[trigger] flags[i] && 0 <= p < order.len() && !flags[
                    #[trigger] order[p]
                ] ==> order.contains(i)
        }),
{
    let n = flags.len() as int;
    let yes = marked(flags, true, n);
    let no = marked(flags, false, n);
    let all = yes + no;
    let order = ranked(flags, limit);
    marked_positions_are_marked(flags, true, n);
    marked_positions_are_marked(flags, false, n);
    marked_or_not(flags, n);
    assert forall|p: int| 0 <= p < order.len() implies 0 <= #[trigger] order[p] < n && (p
        < yes.len() <==> flags[order[p]]) by {
        assert(order[p] == all[p]);
        if p < yes.len() {
            assert(all[p] == yes[p]);
        } else {
            assert(all[p] == no[p - yes.len()]);
        }
    }
    assert forall|p: int, q: int| 0 <= p < q < order.len() implies (flags[#[trigger] order[p]]
        && !flags[#[trigger] order[q]]) || (flags[order[p]] == flags[order[q]] && order[p]
        < order[q]) by {
        assert(order[p] == all[p] && order[q] == all[q]);
        if q < yes.len() {
            assert(yes[p] < yes[q]);
        } else if p >= yes.len() {
            assert(no[p - yes.len()] < no[q - yes.len()]);
        }
    }
    assert forall|i: int, p: int|
        0 <= i < flags.len() && #[trigger] flags[i] && 0 <= p < order.len() && !flags[
            #[trigger] order[p]
        ] implies order.contains(i) by {
        assert(yes.contains(i));
        let k = choose|k: int| 0 <= k < yes.len() && yes[k] == i;
        assert(p >= yes.len());
        assert(order[k] == all[k]);
    }
}

proof fn users_up_to(events: Seq<ConsolidationEvent>, n: int, k: int)
    requires
        0 <= n <= events.len(),
        0 <= k < user_positions(events, n).len(),
    ensures
        user_positions(events, user_positions(events, n)[k]).len() == k,
    decreases n,
{
    if n > 0 {
        let rest = user_positions(events, n - 1);
        if k < rest.len() {
            users_up_to(events, n - 1, k);
        }
    }
}

proof fn users_are_counted(events: Seq<ConsolidationEvent>, n: int)
    requires
        0 <= n <= events.len(),
    ensures
        ({
            let s = Set::new(|i: int| 0 <= i < n && events[i].role == EventRole::User);
            s.finite() && s.len() == user_positions(events, n).len()
        }),
    decreases n,
{
    let s = Set::new(|i: int| 0 <= i < n && events[i].role == EventRole::User);
    if n == 0 {
        assert(s =~= Set::empty());
    } else {
        users_are_counted(events, n - 1);
        let t = Set::new(|i: int| 0 <= i < n - 1 && events[i].role == EventRole::User);
        if events[n - 1].role == EventRole::User {
            assert(s =~= t.insert(n - 1));
        } else {
            assert(s =~= t);
        }
    }
}

/// A batch is split before a user event that has half of the user events before
/// it, one more where their number is odd.
pub proof fn batches_are_split_in_halves(events: Seq<ConsolidationEvent>)
    requires
        user_positions(events, events.len() as int).len() >= 2,
    ensures
        ({
            let cut = batch_cut(events);
            let users = Set::new(
                |i: int| 0 <= i < events.len() && events[i].role == EventRole::User,
            );
            let front = Set::new(|i: int| 0 <= i < cut && events[i].role == EventRole::User);
            &&& 0 < cut < events.len()
            &&& events[cut].role == EventRole::User
            &&& front.len() == (users.len() + 1) / 2
            &&& front.len() < users.len()
        }),
{
    let n = events.len() as int;
    let users = user_positions(events, n);
    let k = (users.len() as int + 1) / 2;
    user_positions_sound(events, n);
    users_up_to(events, n, k);
    let cut = batch_cut(events);
    assert(cut == users[k]);
    users_are_counted(events, n);
    users_are_counted(events, cut);
    assert(users[0] < users[k]);
}

} // verus!
