//! Where a user's message begins a new topic: what can be said without a model,
//! what a model is asked, and what its answer must be.

use vstd::prelude::*;
use vstd::string::*;

use crate::clauses::{self, split_event_clauses, AssistantContext, SourceClause};
use crate::evidence::{self, resolve_source_refs};
use crate::json::{
    self, json_number, json_text, parse_json, render, Json, JsonNumber, JsonObject, JsonTree,
};
use crate::model;
use crate::moment::{self, seconds_between};
use crate::request::{self, ask, boundary_schema, StructuredChatRequest};
use crate::text::{self, contains_part, lower, text_eq};

verus! {

/// A similarity: the bits of a double-precision number, and the number in JSON.
#[derive(Clone, Debug, PartialEq, Eq)]
pub struct Similarity {
    pub bits: u64,
    pub text: String,
}

/// The bits of the similarity under which a topic has shifted, 55 hundredths.
pub const SHIFT_BITS: u64 = 0x3fe1_9999_9999_999a;

/// The bits of the similarity from which on a topic is the same, 65 hundredths.
pub const SAME_BITS: u64 = 0x3fe4_cccc_cccc_cccd;

/// Bits that stand for no number.
pub open spec fn no_number(bits: u64) -> bool {
    bits % 0x8000_0000_0000_0000 > 0x7ff0_0000_0000_0000
}

/// Whether a number is less than a positive one: negative numbers have the
/// highest bit, and others are ordered as their bits are.
pub open spec fn bits_below(bits: u64, limit: u64) -> bool {
    !no_number(bits) && (bits >= 0x8000_0000_0000_0000 || bits < limit)
}

pub open spec fn bits_reach(bits: u64, limit: u64) -> bool {
    !no_number(bits) && bits < 0x8000_0000_0000_0000 && bits >= limit
}

pub fn is_below(bits: u64, limit: u64) -> (r: bool)
    ensures
        r == bits_below(bits, limit),
{
    !(bits % 0x8000_0000_0000_0000 > 0x7ff0_0000_0000_0000) && (bits >= 0x8000_0000_0000_0000
        || bits < limit)
}

pub fn reaches(bits: u64, limit: u64) -> (r: bool)
    ensures
        r == bits_reach(bits, limit),
{
    !(bits % 0x8000_0000_0000_0000 > 0x7ff0_0000_0000_0000) && bits < 0x8000_0000_0000_0000 && bits
        >= limit
}

/// A user's message and what came before it.
#[derive(Clone, Debug, PartialEq, Eq)]
pub struct BoundaryInput {
    pub session_id: String,
    pub watermark_before: usize,
    pub event_id: String,
    pub sequence: usize,
    pub created_at: String,
    pub content: String,
    pub content_sha256: String,
    pub previous_user_event_id: Option<String>,
    pub previous_user_created_at: Option<String>,
    pub previous_user_content: Option<String>,
    pub previous_assistant_context: Option<AssistantContext>,
    pub cosine_similarity: Option<Similarity>,
}

/// Whether a topic begins before an event, and why.
#[derive(Clone, Debug, PartialEq, Eq)]
pub struct BoundaryDecisionV2 {
    pub before_event_id: String,
    pub is_boundary: bool,
    pub reason: String,
    pub evidence_json: String,
    pub signals_json: String,
    pub generator: String,
}

#[derive(Clone, Debug, PartialEq, Eq)]
pub enum BoundaryClassification {
    Deterministic(BoundaryDecisionV2),
    Ambiguous,
}

/// The parts of a decision.
pub struct BoundaryModel {
    pub before_event_id: Seq<char>,
    pub is_boundary: bool,
    pub reason: Seq<char>,
    pub evidence_json: Seq<char>,
    pub signals_json: Seq<char>,
    pub generator: Seq<char>,
}

pub open spec fn boundary_model(d: BoundaryDecisionV2) -> BoundaryModel {
    BoundaryModel {
        before_event_id: d.before_event_id@,
        is_boundary: d.is_boundary,
        reason: d.reason@,
        evidence_json: d.evidence_json@,
        signals_json: d.signals_json@,
        generator: d.generator@,
    }
}

/// A decision with its signals and evidence written as JSON.
pub open spec fn decided(
    event_id: Seq<char>,
    is_boundary: bool,
    reason: Seq<char>,
    signals: Seq<(Seq<char>, JsonTree)>,
    evidence: Seq<JsonTree>,
    generator: Seq<char>,
) -> BoundaryModel {
    BoundaryModel {
        before_event_id: event_id,
        is_boundary,
        reason,
        evidence_json: json::rendered(JsonTree::Array(evidence)),
        signals_json: json::rendered(JsonTree::Object(signals)),
        generator,
    }
}

fn boundary_decision(
    input: &BoundaryInput,
    is_boundary: bool,
    reason: &str,
    signals: JsonObject,
    evidence: Vec<Json>,
    generator: &str,
) -> (r: BoundaryDecisionV2)
    ensures
        boundary_model(r) == decided(
            input.event_id@,
            is_boundary,
            reason@,
            signals.list(),
            json::trees(evidence@, evidence@.len() as int),
            generator@,
        ),
{
    BoundaryDecisionV2 {
        before_event_id: input.event_id.clone(),
        is_boundary,
        reason: reason.to_owned(),
        evidence_json: render(&Json::Array(evidence)),
        signals_json: render(&signals.finish()),
        generator: generator.to_owned(),
    }
}

/// A text in lower case that says that the topic changes.
pub open spec fn changes_topic(lowered: Seq<char>) -> bool {
    ||| text::occurs(lowered, "换个话题"@)
    ||| text::occurs(lowered, "换一个话题"@)
    ||| text::occurs(lowered, "说点别的"@)
    ||| text::occurs(lowered, "另一个话题"@)
    ||| text::occurs(lowered, "回到刚才"@)
    ||| text::occurs(lowered, "change the subject"@)
    ||| text::occurs(lowered, "new topic"@)
}

fn says_topic_changes(lowered: &str) -> (r: bool)
    ensures
        r == changes_topic(lowered@),
{
    contains_part(lowered, "换个话题") || contains_part(lowered, "换一个话题")
        || contains_part(lowered, "说点别的") || contains_part(lowered, "另一个话题")
        || contains_part(lowered, "回到刚才") || contains_part(lowered, "change the subject")
        || contains_part(lowered, "new topic")
}

/// The whole minutes in a number of seconds, rounded toward zero; nothing when
/// that is less than zero.
pub open spec fn minutes_in(seconds: Option<i64>) -> Option<u64> {
    match seconds {
        Some(s) => if s <= -60 {
            None
        } else if s < 0 {
            Some(0)
        } else {
            Some((s / 60) as u64)
        },
        None => None,
    }
}

fn whole_minutes(seconds: Option<i64>) -> (r: Option<u64>)
    ensures
        r == minutes_in(seconds),
{
    match seconds {
        Some(s) => if s <= -60 {
            None
        } else if s < 0 {
            Some(0)
        } else {
            Some(s as u64 / 60)
        },
        None => None,
    }
}

pub open spec fn opt_number_tree(n: Option<u64>) -> JsonTree {
    match n {
        Some(value) => json::number_tree(value),
        None => JsonTree::Null,
    }
}

fn json_opt_number(n: Option<u64>) -> (r: Json)
    ensures
        json::tree(r) == opt_number_tree(n),
{
    match n {
        Some(value) => json_number(value),
        None => Json::Null,
    }
}

pub open spec fn similarity_tree(s: Option<Similarity>) -> JsonTree {
    match s {
        Some(value) => JsonTree::Number { unsigned: None, text: value.text@ },
        None => JsonTree::Null,
    }
}

fn json_similarity(s: &Option<Similarity>) -> (r: Json)
    ensures
        json::tree(r) == similarity_tree(*s),
{
    match s {
        Some(value) => Json::Number(JsonNumber { unsigned: None, text: value.text.clone() }),
        None => Json::Null,
    }
}

/// What can be said of a message whose text in lower case is known, and the
/// seconds since the message before; nothing where only a model can tell.
pub open spec fn classified(
    input: BoundaryInput,
    lowered: Seq<char>,
    seconds: Option<i64>,
    gap_minutes: u64,
) -> Option<BoundaryModel> {
    let id = input.event_id@;
    let none = Seq::<JsonTree>::empty();
    let topic = ("explicit_topic_transition"@, JsonTree::Bool(changes_topic(lowered)));
    let gap = ("gap_minutes"@, opt_number_tree(minutes_in(seconds)));
    let cosine = (
        "embedding_cosine_similarity"@,
        similarity_tree(input.cosine_similarity),
    );
    if input.previous_user_event_id is None {
        let signals = seq![("session_start"@, JsonTree::Bool(true))];
        Some(decided(id, true, "session_start"@, signals, none, "rust"@))
    } else if changes_topic(lowered) {
        Some(decided(id, true, "explicit_topic_transition"@, seq![topic], none, "rust"@))
    } else if minutes_in(seconds) matches Some(m) && m > gap_minutes {
        Some(decided(id, true, "time_gap"@, seq![topic, gap], none, "rust"@))
    } else {
        match input.cosine_similarity {
            Some(s) => if bits_below(s.bits, SHIFT_BITS) {
                Some(
                    decided(
                        id,
                        true,
                        "embedding_topic_shift"@,
                        seq![cosine, topic, gap],
                        none,
                        "rust"@,
                    ),
                )
            } else if bits_reach(s.bits, SAME_BITS) {
                Some(
                    decided(
                        id,
                        false,
                        "embedding_same_topic"@,
                        seq![cosine, topic, gap],
                        none,
                        "rust"@,
                    ),
                )
            } else {
                None
            },
            None => None,
        }
    }
}

pub open spec fn classification_is(c: BoundaryClassification, m: Option<BoundaryModel>) -> bool {
    match c {
        BoundaryClassification::Deterministic(d) => m == Some(boundary_model(d)),
        BoundaryClassification::Ambiguous => m is None,
    }
}

/// Decides on a message whose text in lower case is known, and the seconds since
/// the message before.
pub fn judge_boundary(
    input: &BoundaryInput,
    lowered: &str,
    seconds: Option<i64>,
    gap_minutes: u64,
) -> (r: BoundaryClassification)
    ensures
        classification_is(r, classified(*input, lowered@, seconds, gap_minutes)),
{
    let none: Vec<Json> = Vec::new();
    assert(json::trees(none@, 0) =~= Seq::<JsonTree>::empty());
    if input.previous_user_event_id.is_none() {
        let signals = JsonObject::new().with("session_start", Json::Bool(true));
        assert(signals.list() =~= seq![("session_start"@, JsonTree::Bool(true))]);
        return BoundaryClassification::Deterministic(
            boundary_decision(input, true, "session_start", signals, none, "rust"),
        );
    }
    let explicit = says_topic_changes(lowered);
    let ghost topic = ("explicit_topic_transition"@, JsonTree::Bool(explicit));
    if explicit {
        let signals = JsonObject::new().with("explicit_topic_transition", Json::Bool(explicit));
        assert(signals.list() =~= seq![topic]);
        return BoundaryClassification::Deterministic(
            boundary_decision(input, true, "explicit_topic_transition", signals, none, "rust"),
        );
    }
    let minutes = whole_minutes(seconds);
    let ghost gap = ("gap_minutes"@, opt_number_tree(minutes));
    let late = match minutes {
        Some(m) => m > gap_minutes,
        None => false,
    };
    if late {
        let signals = JsonObject::new().with("explicit_topic_transition", Json::Bool(explicit)).with(
            "gap_minutes",
            json_opt_number(minutes),
        );
        assert(signals.list() =~= seq![topic, gap]);
        return BoundaryClassification::Deterministic(
            boundary_decision(input, true, "time_gap", signals, none, "rust"),
        );
    }
    let signals = JsonObject::new().with(
        "embedding_cosine_similarity",
        json_similarity(&input.cosine_similarity),
    ).with("explicit_topic_transition", Json::Bool(explicit)).with(
        "gap_minutes",
        json_opt_number(minutes),
    );
    assert(signals.list() =~= seq![
        ("embedding_cosine_similarity"@, similarity_tree(input.cosine_similarity)),
        topic,
        gap,
    ]);
    match &input.cosine_similarity {
        Some(s) => if is_below(s.bits, SHIFT_BITS) {
            BoundaryClassification::Deterministic(
                boundary_decision(input, true, "embedding_topic_shift", signals, none, "rust"),
            )
        } else if reaches(s.bits, SAME_BITS) {
            BoundaryClassification::Deterministic(
                boundary_decision(input, false, "embedding_same_topic", signals, none, "rust"),
            )
        } else {
            BoundaryClassification::Ambiguous
        },
        None => BoundaryClassification::Ambiguous,
    }
}

/// The seconds since the user's message before, where both times can be read.
pub open spec fn seconds_since_previous(input: BoundaryInput) -> Option<i64> {
    match input.previous_user_created_at {
        Some(previous) => moment::rfc3339_seconds(previous@, input.created_at@),
        None => None,
    }
}

/// Decides without a model where that can be done: at the start of a session,
/// when the user says so, after a long pause, and when the embeddings are clearly
/// apart or clearly alike.
pub fn classify_boundary(input: &BoundaryInput, gap_minutes: u64) -> (r: BoundaryClassification)
    ensures
        classification_is(
            r,
            classified(
                *input,
                text::lowercased(input.content@),
                seconds_since_previous(*input),
                gap_minutes,
            ),
        ),
{
    let lowered = lower(input.content.as_str());
    let seconds = match &input.previous_user_created_at {
        Some(previous) => seconds_between(previous.as_str(), input.created_at.as_str()),
        None => None,
    };
    judge_boundary(input, lowered.as_str(), seconds, gap_minutes)
}

/// A decision that needs no model is one of five, and each but the last of them
/// is a boundary.
pub proof fn only_same_topic_is_no_boundary(
    input: BoundaryInput,
    lowered: Seq<char>,
    seconds: Option<i64>,
    gap_minutes: u64,
)
    ensures
        classified(input, lowered, seconds, gap_minutes) matches Some(d) ==> (!d.is_boundary <==> (
        d.reason == "embedding_same_topic"@)) && d.before_event_id == input.event_id@,
{
    reveal_strlit("session_start");
    reveal_strlit("explicit_topic_transition");
    reveal_strlit("time_gap");
    reveal_strlit("embedding_topic_shift");
    reveal_strlit("embedding_same_topic");
    assert("session_start"@.len() != "embedding_same_topic"@.len());
    assert("explicit_topic_transition"@.len() != "embedding_same_topic"@.len());
    assert("time_gap"@.len() != "embedding_same_topic"@.len());
    assert("embedding_topic_shift"@.len() != "embedding_same_topic"@.len());
}

/// A clause in JSON, its members in order of their names.
pub open spec fn sorted_clause_tree(
    event_id: Seq<char>,
    start: usize,
    end: usize,
    text: Seq<char>,
) -> JsonTree {
    JsonTree::Object(
        seq![
            ("clause_id"@, JsonTree::Text(clauses::clause_id_text(event_id, start, end, text))),
            ("end_char"@, json::number_tree(end as u64)),
            ("event_id"@, JsonTree::Text(event_id)),
            ("span_id"@, JsonTree::Text(clauses::span_id_text(event_id, start, end, text))),
            ("start_char"@, json::number_tree(start as u64)),
            ("text"@, JsonTree::Text(text)),
        ],
    )
}

/// The clauses of a message in JSON.
pub open spec fn message_clauses(event_id: Seq<char>, content: Seq<char>) -> Seq<JsonTree> {
    let ranges = clauses::clauses_in(content);
    Seq::new(
        ranges.len(),
        |i: int|
            sorted_clause_tree(
                event_id,
                ranges[i].0 as usize,
                ranges[i].1 as usize,
                content.subrange(ranges[i].0, ranges[i].1),
            ),
    )
}

fn json_sorted_clause(c: &SourceClause) -> (r: Json)
    ensures
        forall|event_id: Seq<char>, start: usize, end: usize, text: Seq<char>|
            #[trigger] clauses::is_clause(*c, event_id, start, end, text) ==> json::tree(r)
                == sorted_clause_tree(event_id, start, end, text),
{
    let object = JsonObject::new().with("clause_id", json_text(c.clause_id.as_str())).with(
        "end_char",
        json_number(c.end_char as u64),
    ).with("event_id", json_text(c.event_id.as_str())).with(
        "span_id",
        json_text(c.span_id.as_str()),
    ).with("start_char", json_number(c.start_char as u64)).with("text", json_text(c.text.as_str()));
    let ghost list = object.list();
    proof {
        assert forall|event_id: Seq<char>, start: usize, end: usize, text: Seq<char>|
            #[trigger] clauses::is_clause(*c, event_id, start, end, text) implies JsonTree::Object(
            list,
        ) == sorted_clause_tree(event_id, start, end, text) by {
            assert(list =~= sorted_clause_tree(event_id, start, end, text)->Object_0);
        }
    }
    object.finish()
}

fn json_sorted_clauses(event_id: &str, content: &str) -> (r: Json)
    ensures
        json::tree(r) == JsonTree::Array(message_clauses(event_id@, content@)),
{
    let found = split_event_clauses(event_id, content);
    let ghost want = message_clauses(event_id@, content@);
    let mut out: Vec<Json> = Vec::new();
    let mut i: usize = 0;
    while i < found.len()
        invariant
            i <= found@.len(),
            out@.len() == i,
            clauses::are_clauses_of(found@, event_id@, content@),
            want == message_clauses(event_id@, content@),
            forall|k: int| 0 <= k < i ==> json::tree(#[trigger] out@[k]) == want[k],
        decreases found.len() - i,
    {
        let ghost range = clauses::clauses_in(content@)[i as int];
        assert(clauses::is_clause(
            found@[i as int],
            event_id@,
            range.0 as usize,
            range.1 as usize,
            content@.subrange(range.0, range.1),
        ));
        out.push(json_sorted_clause(&found[i]));
        i += 1;
    }
    proof {
        json::trees_index(out@, out@.len() as int);
        assert(json::trees(out@, out@.len() as int) =~= want);
    }
    Json::Array(out)
}

/// A context in JSON, its members in order of their names.
pub open spec fn sorted_context_tree(c: Option<AssistantContext>) -> JsonTree {
    match c {
        Some(context) => JsonTree::Object(
            seq![
                ("context_id"@, JsonTree::Text(context.context_id@)),
                ("extractable"@, JsonTree::Bool(context.extractable)),
                ("text"@, JsonTree::Text(context.text@)),
            ],
        ),
        None => JsonTree::Null,
    }
}

fn json_sorted_context(c: &Option<AssistantContext>) -> (r: Json)
    ensures
        json::tree(r) == sorted_context_tree(*c),
{
    match c {
        Some(context) => {
            let object = JsonObject::new().with(
                "context_id",
                json_text(context.context_id.as_str()),
            ).with("extractable", Json::Bool(context.extractable)).with(
                "text",
                json_text(context.text.as_str()),
            );
            assert(object.list() =~= sorted_context_tree(*c)->Object_0);
            object.finish()
        },
        None => Json::Null,
    }
}

pub const BOUNDARY_SYSTEM_PROMPT: &'static str = "Classify one conversation boundary. Return only schema JSON. Never use assistant context as evidence.";

pub const BOUNDARY_INSTRUCTION: &'static str = "Decide whether the current user event starts a new topic. Assistant text is context-only. Evidence may reference current user clauses only.";

/// What a model is told about a message.
pub open spec fn boundary_question(input: BoundaryInput) -> JsonTree {
    JsonTree::Object(
        seq![
            ("cosine_similarity"@, similarity_tree(input.cosine_similarity)),
            (
                "current_user_clauses"@,
                JsonTree::Array(message_clauses(input.event_id@, input.content@)),
            ),
            ("instruction"@, JsonTree::Text(BOUNDARY_INSTRUCTION@)),
            ("previous_assistant_context"@, sorted_context_tree(input.previous_assistant_context)),
            (
                "previous_user"@,
                json::opt_text_tree(text::opt_text(input.previous_user_content)),
            ),
        ],
    )
}

/// Asks a model whether a message begins a new topic.
pub fn prepare_boundary_request(
    model: String,
    input: &BoundaryInput,
    num_ctx: u64,
    num_predict: u64,
) -> (r: StructuredChatRequest)
    ensures
        request::request_model(r) == request::asked(
            model@,
            BOUNDARY_SYSTEM_PROMPT@,
            json::rendered(boundary_question(*input)),
            request::boundary_shape(),
            num_ctx,
            num_predict,
        ),
{
    let previous = match &input.previous_user_content {
        Some(s) => json_text(s.as_str()),
        None => Json::Null,
    };
    let object = JsonObject::new().with(
        "cosine_similarity",
        json_similarity(&input.cosine_similarity),
    ).with(
        "current_user_clauses",
        json_sorted_clauses(input.event_id.as_str(), input.content.as_str()),
    ).with("instruction", json_text(BOUNDARY_INSTRUCTION)).with(
        "previous_assistant_context",
        json_sorted_context(&input.previous_assistant_context),
    ).with("previous_user", previous);
    assert(object.list() =~= boundary_question(*input)->Object_0);
    ask(
        model,
        BOUNDARY_SYSTEM_PROMPT,
        render(&object.finish()),
        boundary_schema(),
        num_ctx,
        num_predict,
    )
}

/// An answer about a boundary.
pub struct BoundaryAnswer {
    pub before_event_id: Seq<char>,
    pub is_boundary: bool,
    pub reason: Seq<char>,
    pub evidence: Seq<JsonTree>,
}

/// An answer with its four parts in the order in which they are declared.
pub open spec fn answer_of(
    before: Option<JsonTree>,
    boundary: Option<JsonTree>,
    reason: Option<JsonTree>,
    evidence: Option<JsonTree>,
) -> Option<BoundaryAnswer> {
    match (before, boundary, reason, evidence) {
        (
            Some(JsonTree::Text(before_event_id)),
            Some(JsonTree::Bool(is_boundary)),
            Some(JsonTree::Text(reason)),
            Some(JsonTree::Array(evidence)),
        ) => Some(BoundaryAnswer { before_event_id, is_boundary, reason, evidence }),
        _ => None,
    }
}

pub open spec fn is_answer_part(name: Seq<char>) -> bool {
    name == "before_event_id"@ || name == "is_boundary"@ || name == "reason"@ || name
        == "evidence"@
}

/// An answer about a boundary that has its parts and no others; a list of the
/// four parts is read as well.
pub open spec fn boundary_answer(t: JsonTree) -> Option<BoundaryAnswer> {
    match t {
        JsonTree::Object(v) => if forall|i: int|
            0 <= i < v.len() ==> is_answer_part((#[trigger] v[i]).0) {
            answer_of(
                json::member(t, "before_event_id"@),
                json::member(t, "is_boundary"@),
                json::member(t, "reason"@),
                json::member(t, "evidence"@),
            )
        } else {
            None
        },
        JsonTree::Array(v) => if v.len() == 4 {
            answer_of(Some(v[0]), Some(v[1]), Some(v[2]), Some(v[3]))
        } else {
            None
        },
        _ => None,
    }
}

/// The decision of a model, or what is wrong with its answer.
pub open spec fn model_decision(t: JsonTree, input: BoundaryInput, v: Seq<SourceClause>) -> Result<
    BoundaryModel,
    Seq<char>,
> {
    match evidence::resolved(t, v, "$"@) {
        Err(e) => Err(e),
        Ok(settled) => match boundary_answer(settled) {
            None => Err("boundary response 结构无效：字段或类型不符"@),
            Some(a) => if a.before_event_id != input.event_id@ {
                Err("boundary before_event_id 不是当前用户事件"@)
            } else if a.reason != "model_topic_shift"@ && a.reason != "model_same_topic"@ {
                Err("boundary reason 无效"@)
            } else {
                Ok(
                    decided(
                        input.event_id@,
                        a.is_boundary,
                        a.reason,
                        seq![("llm_ambiguous_resolution"@, JsonTree::Bool(true))],
                        a.evidence,
                        "qwen"@,
                    ),
                )
            },
        },
    }
}

pub open spec fn decision_is(
    r: Result<BoundaryDecisionV2, String>,
    want: Result<BoundaryModel, Seq<char>>,
) -> bool {
    match r {
        Ok(d) => want == Ok::<BoundaryModel, Seq<char>>(boundary_model(d)),
        Err(e) => want == Err::<BoundaryModel, Seq<char>>(e@),
    }
}

fn only_answer_parts(v: &Vec<(String, Json)>) -> (r: bool)
    ensures
        ({
            let all = json::members(v@, v@.len() as int);
            r == forall|i: int| 0 <= i < all.len() ==> is_answer_part((#[trigger] all[i]).0)
        }),
{
    let ghost all = json::members(v@, v@.len() as int);
    proof {
        json::members_index(v@, v@.len() as int);
    }
    let mut i: usize = 0;
    while i < v.len()
        invariant
            i <= v@.len(),
            all == json::members(v@, v@.len() as int),
            all.len() == v@.len(),
            forall|k: int|
                0 <= k < all.len() ==> #[trigger] all[k] == (v@[k].0@, json::tree(v@[k].1)),
            forall|k: int| 0 <= k < i ==> is_answer_part((#[trigger] all[k]).0),
        decreases v.len() - i,
    {
        assert(all[i as int] == (v@[i as int].0@, json::tree(v@[i as int].1)));
        let name = v[i].0.as_str();
        if !(text_eq(name, "before_event_id") || text_eq(name, "is_boundary") || text_eq(
            name,
            "reason",
        ) || text_eq(name, "evidence")) {
            return false;
        }
        i += 1;
    }
    true
}

/// The values of an answer, borrowed from what was read.
struct AnswerParts<'a> {
    before: &'a str,
    is_boundary: bool,
    reason: &'a str,
    evidence: &'a Vec<Json>,
}

spec fn parts_model(p: AnswerParts) -> BoundaryAnswer {
    BoundaryAnswer {
        before_event_id: p.before@,
        is_boundary: p.is_boundary,
        reason: p.reason@,
        evidence: json::trees(p.evidence@, p.evidence@.len() as int),
    }
}

spec fn tree_of(j: Option<&Json>) -> Option<JsonTree> {
    match j {
        Some(value) => Some(json::tree(*value)),
        None => None,
    }
}

fn answer_parts<'a>(
    before: Option<&'a Json>,
    boundary: Option<&'a Json>,
    reason: Option<&'a Json>,
    evidence: Option<&'a Json>,
) -> (r: Option<AnswerParts<'a>>)
    ensures
        match r {
            Some(p) => answer_of(
                tree_of(before),
                tree_of(boundary),
                tree_of(reason),
                tree_of(evidence),
            ) == Some(parts_model(p)),
            None => answer_of(
                tree_of(before),
                tree_of(boundary),
                tree_of(reason),
                tree_of(evidence),
            ) is None,
        },
{
    match (before, boundary, reason, evidence) {
        (
            Some(Json::Text(before)),
            Some(Json::Bool(is_boundary)),
            Some(Json::Text(reason)),
            Some(Json::Array(evidence)),
        ) => Some(
            AnswerParts {
                before: before.as_str(),
                is_boundary: *is_boundary,
                reason: reason.as_str(),
                evidence,
            },
        ),
        _ => None,
    }
}

fn read_answer(value: &Json) -> (r: Option<AnswerParts>)
    ensures
        match r {
            Some(p) => boundary_answer(json::tree(*value)) == Some(parts_model(p)),
            None => boundary_answer(json::tree(*value)) is None,
        },
{
    match value {
        Json::Object(v) => if only_answer_parts(v) {
            let before = value.get("before_event_id");
            let boundary = value.get("is_boundary");
            let reason = value.get("reason");
            let evidence = value.get("evidence");
            let ghost t = json::tree(*value);
            assert(tree_of(before) == json::member(t, "before_event_id"@));
            assert(tree_of(boundary) == json::member(t, "is_boundary"@));
            assert(tree_of(reason) == json::member(t, "reason"@));
            assert(tree_of(evidence) == json::member(t, "evidence"@));
            assert(t == JsonTree::Object(json::members(v@, v@.len() as int)));
            answer_parts(before, boundary, reason, evidence)
        } else {
            None
        },
        Json::Array(v) => {
            proof {
                json::trees_index(v@, v@.len() as int);
            }
            if v.len() == 4 {
                let ghost all = json::trees(v@, 4);
                assert(all[0] == json::tree(v@[0]) && all[1] == json::tree(v@[1]) && all[2]
                    == json::tree(v@[2]) && all[3] == json::tree(v@[3]));
                answer_parts(Some(&v[0]), Some(&v[1]), Some(&v[2]), Some(&v[3]))
            } else {
                None
            }
        },
        _ => None,
    }
}

fn copy_values(v: &Vec<Json>) -> (r: Vec<Json>)
    ensures
        json::trees(r@, r@.len() as int) == json::trees(v@, v@.len() as int),
{
    let mut out: Vec<Json> = Vec::new();
    let mut i: usize = 0;
    while i < v.len()
        invariant
            i <= v@.len(),
            out@.len() == i,
            forall|k: int| 0 <= k < i ==> json::tree(#[trigger] out@[k]) == json::tree(v@[k]),
        decreases v.len() - i,
    {
        out.push(json::copy_json(&v[i]));
        i += 1;
    }
    proof {
        json::trees_index(v@, v@.len() as int);
        json::trees_index(out@, out@.len() as int);
        assert(json::trees(out@, out@.len() as int) =~= json::trees(v@, v@.len() as int));
    }
    out
}

/// Takes the decision out of an answer that has been read: its quotes are held
/// against the clauses of the message, and it must speak of the message.
pub fn resolve_boundary_output(value: &Json, input: &BoundaryInput) -> (r: Result<
    BoundaryDecisionV2,
    String,
>)
    ensures
        exists|v: Seq<SourceClause>|
            #[trigger] clauses::are_clauses_of(v, input.event_id@, input.content@) && decision_is(
                r,
                model_decision(json::tree(*value), *input, v),
            ),
{
    let found = split_event_clauses(input.event_id.as_str(), input.content.as_str());
    assert(clauses::are_clauses_of(found@, input.event_id@, input.content@));
    let settled = match resolve_source_refs(value, &found, "$") {
        Ok(settled) => settled,
        Err(e) => return Err(e),
    };
    let answer = match read_answer(&settled) {
        Some(answer) => answer,
        None => return Err("boundary response 结构无效：字段或类型不符".to_owned()),
    };
    if !text_eq(answer.before, input.event_id.as_str()) {
        return Err("boundary before_event_id 不是当前用户事件".to_owned());
    }
    if !text_eq(answer.reason, "model_topic_shift") && !text_eq(
        answer.reason,
        "model_same_topic",
    ) {
        return Err("boundary reason 无效".to_owned());
    }
    let signals = JsonObject::new().with("llm_ambiguous_resolution", Json::Bool(true));
    assert(signals.list() =~= seq![("llm_ambiguous_resolution"@, JsonTree::Bool(true))]);
    Ok(
        boundary_decision(
            input,
            answer.is_boundary,
            answer.reason,
            signals,
            copy_values(answer.evidence),
            "qwen",
        ),
    )
}

/// Reads the answer of a model about a boundary.
pub fn parse_boundary_output(response: &str, input: &BoundaryInput) -> (r: Result<
    BoundaryDecisionV2,
    String,
>)
    ensures
        match json::parsed_json(response@) {
            Err(message) => r matches Err(e) && e@ == "boundary response_json 不是有效 JSON："@
                + message,
            Ok(t) => exists|v: Seq<SourceClause>|
                #[trigger] clauses::are_clauses_of(v, input.event_id@, input.content@)
                    && decision_is(r, model_decision(t, *input, v)),
        },
{
    match parse_json(response) {
        Ok(value) => resolve_boundary_output(&value, input),
        Err(message) => {
            let mut e = "boundary response_json 不是有效 JSON：".to_owned();
            e.append(message.as_str());
            Err(e)
        },
    }
}

/// What decides on a message without a model, and what it decides. A message
/// begins an episode where it is the first of a user, names a change of topic,
/// comes a whole minute or more after the longest gap, or is less similar to the
/// one before than 0.55; it goes on where it is at least 0.65 similar. A model is
/// asked exactly where nothing of this holds.
pub proof fn plain_boundaries_have_a_cause(
    input: BoundaryInput,
    lowered: Seq<char>,
    seconds: Option<i64>,
    gap_minutes: u64,
)
    ensures
        ({
            let made = classified(input, lowered, seconds, gap_minutes);
            let first = input.previous_user_event_id is None;
            let named = changes_topic(lowered);
            let late = seconds matches Some(s) && s >= 60 * (gap_minutes + 1);
            let known = input.cosine_similarity matches Some(c) && !no_number(c.bits);
            let apart = known && (input.cosine_similarity->0.bits >= 0x8000_0000_0000_0000
                || input.cosine_similarity->0.bits < 0x3fe1_9999_9999_999a);
            let alike = known && 0x3fe4_cccc_cccc_cccd <= input.cosine_similarity->0.bits
                < 0x8000_0000_0000_0000;
            &&& made is Some <==> first || named || late || apart || alike
            &&& made is Some ==> (made->0.is_boundary <==> first || named || late || apart)
            &&& made is Some ==> made->0.generator == "rust"@ && made->0.before_event_id
                == input.event_id@
            &&& first ==> made->0.reason == "session_start"@
            &&& !first && named ==> made->0.reason == "explicit_topic_transition"@
            &&& !first && !named && late ==> made->0.reason == "time_gap"@
            &&& !first && !named && !late && apart ==> made->0.reason == "embedding_topic_shift"@
            &&& !first && !named && !late && alike ==> made->0.reason == "embedding_same_topic"@
        }),
{
}

/// A model's answer is taken only where it speaks of this message and gives one
/// of two reasons.
pub proof fn model_answers_speak_of_the_message(
    t: JsonTree,
    input: BoundaryInput,
    v: Seq<SourceClause>,
)
    ensures
        model_decision(t, input, v) matches Ok(d) ==> d.before_event_id == input.event_id@ && (
        d.reason == "model_topic_shift"@ || d.reason == "model_same_topic"@) && d.generator
            == "qwen"@,
        model_decision(t, input, v) is Ok <==> (evidence::resolved(t, v, "$"@) matches Ok(settled)
            && boundary_answer(settled) matches Some(a) && a.before_event_id == input.event_id@ && (
        a.reason == "model_topic_shift"@ || a.reason == "model_same_topic"@)),
{
}

} // verus!
