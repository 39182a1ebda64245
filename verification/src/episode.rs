//! Planning episodes: where a conversation turns to something new.

use vstd::prelude::*;
use vstd::string::*;
use vstd::utf8::*;

use crate::corpus::distinct;
use crate::digest::{self, hash_id, is_sha256, push_le, PartHasher};
use crate::encoding::{
    self, bit, joined, tag_role, CanonicalEncoder, InputFacts, MessageFacts, SuggestionFacts,
};
use crate::model::{EventRole, SourceSpan};
use crate::moment::{self, seconds_between};
use crate::order::{self, stable_order, KeyPart, PartModel};
use crate::text::{self, contains_text, is_blank, text_eq};

verus! {

pub const EPISODE_ALGORITHM_VERSION: u32 = 1;

pub const SOFT_BOUNDARY_VOTE_THRESHOLD: usize = 2;

#[derive(Clone, Copy, Debug, PartialEq, Eq, Structural)]
pub enum EpisodeSignalState {
    True,
    False,
    Abstain,
}

#[derive(Clone, Copy, Debug, PartialEq, Eq, Structural)]
pub enum EpisodeGapState {
    FirstMessage,
    GreaterThanThreshold,
    EqualToThreshold,
    BelowThreshold,
    InvalidOrOutOfOrder,
    MissingTimestamp,
}

#[derive(Clone, Debug, PartialEq, Eq)]
pub struct EpisodeSignal {
    pub name: String,
    pub state: EpisodeSignalState,
}

/// Whether an episode begins before an event, and why.
#[derive(Clone, Debug, PartialEq, Eq)]
pub struct EpisodeBoundaryDecision {
    pub before_event_id: String,
    pub is_boundary: bool,
    pub gap: EpisodeGapState,
    pub hard_signals: Vec<EpisodeSignal>,
    pub soft_signals: Vec<EpisodeSignal>,
    pub soft_true_votes: usize,
    pub input_sha256: String,
}

/// A message of an episode.
#[derive(Debug, PartialEq, Eq)]
pub struct EpisodeMember {
    pub document_id: String,
    pub event_id: String,
    pub sequence: u64,
    pub role: EventRole,
    pub span: SourceSpan,
    pub content_sha256: String,
}

impl Clone for EpisodeMember {
    fn clone(&self) -> (r: Self)
        ensures
            r == *self,
    {
        EpisodeMember {
            document_id: self.document_id.clone(),
            event_id: self.event_id.clone(),
            sequence: self.sequence,
            role: self.role,
            span: self.span.clone(),
            content_sha256: self.content_sha256.clone(),
        }
    }
}

#[derive(Clone, Debug, PartialEq, Eq)]
pub struct EpisodeDocument {
    pub document_id: String,
    pub session_id: String,
    pub granularity: String,
    pub source_sha256: String,
    pub start_sequence: u64,
    pub end_sequence: u64,
    pub members: Vec<EpisodeMember>,
}

#[derive(Clone, Debug, PartialEq, Eq)]
pub struct EpisodeMaterializationReport {
    pub session_id: String,
    pub source_session_sha256: String,
    pub plan_input_sha256: String,
    pub episode_documents: Vec<EpisodeDocument>,
    pub session_document_id: Option<String>,
    pub boundary_decisions: Vec<EpisodeBoundaryDecision>,
}

/// How the embedding of a message compares with that of the user message
/// before it: by cosine similarity, where there is one.
#[derive(Clone, Copy, Debug, PartialEq, Eq, Structural)]
pub enum CosineVerdict {
    BelowThreshold,
    ReachesThreshold,
    Undefined,
}

/// A message that episodes are made of. An embedding is given by the bits of
/// its numbers.
#[derive(Clone, Debug, PartialEq, Eq)]
pub struct EpisodeInputMessage {
    pub member: EpisodeMember,
    pub created_at: String,
    pub resolved_entity_ids: Vec<String>,
    pub embedding: Option<Vec<u32>>,
    pub cosine: CosineVerdict,
}

/// A reason that was given for a boundary.
#[derive(Clone, Debug, PartialEq, Eq)]
pub struct EpisodeBoundarySuggestion {
    pub before_event_id: String,
    pub reason: String,
}

#[derive(Clone, Debug, PartialEq, Eq)]
pub struct EpisodePlanInput {
    pub session_id: String,
    pub source_session_sha256: String,
    pub gap_minutes: u64,
    pub consolidation_watermark: Option<u64>,
    pub messages: Vec<EpisodeInputMessage>,
    pub suggestions: Vec<EpisodeBoundarySuggestion>,
}

/// Whether the bits are those of a finite number.
pub open spec fn finite(bits: u32) -> bool {
    (bits / 0x80_0000) % 256 != 255
}

pub open spec fn all_finite(v: Seq<u32>) -> bool {
    forall|i: int| 0 <= i < v.len() ==> finite(#[trigger] v[i])
}

fn is_all_finite(v: &Vec<u32>) -> (r: bool)
    ensures
        r == all_finite(v@),
{
    let mut i: usize = 0;
    while i < v.len()
        invariant
            i <= v@.len(),
            forall|k: int| 0 <= k < i ==> finite(#[trigger] v@[k]),
        decreases v.len() - i,
    {
        if (v[i] / 0x80_0000) % 256 == 255 {
            assert(!finite(v@[i as int]));
            return false;
        }
        i += 1;
    }
    true
}

/// The entities of a message, as a sorted set.
pub open spec fn entities_of(m: EpisodeInputMessage) -> Seq<Seq<char>> {
    text::distinct_sorted(text::texts(m.resolved_entity_ids@))
}

/// What is encoded of a message.
pub open spec fn message_facts(m: EpisodeInputMessage) -> MessageFacts {
    MessageFacts {
        document_id: m.member.document_id@,
        event_id: m.member.event_id@,
        sequence: m.member.sequence,
        role: m.member.role,
        span_event_id: m.member.span.event_id@,
        span_start: m.member.span.start_char as u64,
        span_end: m.member.span.end_char as u64,
        content_sha256: m.member.content_sha256@,
        created_at: m.created_at@,
        entities: entities_of(m),
        embedding: encoding::embedding_bits(m.embedding),
    }
}

fn encode_message(encoder: &mut CanonicalEncoder, tag: &str, m: &EpisodeInputMessage)
    requires
        old(encoder).wf(),
    ensures
        final(encoder).wf(),
        final(encoder).parts() == encoding::with_message(
            old(encoder).parts(),
            tag@,
            message_facts(*m),
        ),
{
    let own = &m.member;
    encoder.text(joined(tag, ".document_id").as_str(), own.document_id.as_str());
    encoder.text(joined(tag, ".event_id").as_str(), own.event_id.as_str());
    encoder.number(joined(tag, ".sequence").as_str(), own.sequence);
    encoder.byte(joined(tag, ".role").as_str(), tag_role(own.role));
    encoder.text(joined(tag, ".span.event_id").as_str(), own.span.event_id.as_str());
    encoder.number(joined(tag, ".span.start").as_str(), own.span.start_char as u64);
    encoder.number(joined(tag, ".span.end").as_str(), own.span.end_char as u64);
    encoder.text(joined(tag, ".content_sha256").as_str(), own.content_sha256.as_str());
    encoder.text(joined(tag, ".created_at").as_str(), m.created_at.as_str());
    let entities = distinct(&m.resolved_entity_ids);
    encoder.list(
        joined(tag, ".entities.count").as_str(),
        joined(tag, ".entity").as_str(),
        &entities,
    );
    encoder.embedding(tag, &m.embedding);
}

/// Whether a reason counts.
pub open spec fn known_reason(s: Seq<char>) -> bool {
    s == "explicit_topic_transition"@ || s == "model_topic_shift"@
}

fn knows_reason(s: &str) -> (r: bool)
    ensures
        r == known_reason(s@),
{
    text_eq(s, "explicit_topic_transition") || text_eq(s, "model_topic_shift")
}

/// The events before which the first `n` suggestions see a boundary.
pub open spec fn suggested_events(v: Seq<EpisodeBoundarySuggestion>, n: int) -> Seq<Seq<char>>
    decreases n,
{
    if n <= 0 {
        Seq::empty()
    } else if known_reason(v[n - 1].reason@) {
        suggested_events(v, n - 1).push(v[n - 1].before_event_id@)
    } else {
        suggested_events(v, n - 1)
    }
}

/// The reasons that the first `n` suggestions give for an event.
pub open spec fn given_reasons(
    v: Seq<EpisodeBoundarySuggestion>,
    event: Seq<char>,
    n: int,
) -> Seq<Seq<char>>
    decreases n,
{
    if n <= 0 {
        Seq::empty()
    } else if known_reason(v[n - 1].reason@) && v[n - 1].before_event_id@ == event {
        given_reasons(v, event, n - 1).push(v[n - 1].reason@)
    } else {
        given_reasons(v, event, n - 1)
    }
}

/// The reasons for a boundary before an event, as a sorted set.
pub open spec fn reasons_for(v: Seq<EpisodeBoundarySuggestion>, event: Seq<char>) -> Seq<
    Seq<char>,
> {
    text::distinct_sorted(given_reasons(v, event, v.len() as int))
}

/// All suggestions, by event.
pub open spec fn suggestion_facts(v: Seq<EpisodeBoundarySuggestion>) -> Seq<SuggestionFacts> {
    let events = text::distinct_sorted(suggested_events(v, v.len() as int));
    Seq::new(
        events.len(),
        |i: int| SuggestionFacts { event: events[i], reasons: reasons_for(v, events[i]) },
    )
}

fn list_reasons(v: &Vec<EpisodeBoundarySuggestion>, event: &str) -> (r: Vec<String>)
    ensures
        text::texts(r@) == reasons_for(v@, event@),
{
    let mut out: Vec<String> = Vec::new();
    let mut i: usize = 0;
    assert(text::texts(out@) =~= Seq::empty());
    while i < v.len()
        invariant
            i <= v@.len(),
            text::texts(out@) == given_reasons(v@, event@, i as int),
        decreases v.len() - i,
    {
        if knows_reason(v[i].reason.as_str()) && text_eq(v[i].before_event_id.as_str(), event) {
            let ghost before = text::texts(out@);
            out.push(v[i].reason.clone());
            assert(text::texts(out@) =~= before.push(v@[i as int].reason@));
        }
        i += 1;
    }
    distinct(&out)
}

fn list_events(v: &Vec<EpisodeBoundarySuggestion>) -> (r: Vec<String>)
    ensures
        text::texts(r@) == text::distinct_sorted(suggested_events(v@, v@.len() as int)),
{
    let mut out: Vec<String> = Vec::new();
    let mut i: usize = 0;
    assert(text::texts(out@) =~= Seq::empty());
    while i < v.len()
        invariant
            i <= v@.len(),
            text::texts(out@) == suggested_events(v@, i as int),
        decreases v.len() - i,
    {
        if knows_reason(v[i].reason.as_str()) {
            let ghost before = text::texts(out@);
            out.push(v[i].before_event_id.clone());
            assert(text::texts(out@) =~= before.push(v@[i as int].before_event_id@));
        }
        i += 1;
    }
    distinct(&out)
}

pub open spec fn sort_keys(v: Seq<EpisodeInputMessage>) -> Seq<Seq<PartModel>> {
    Seq::new(
        v.len(),
        |i: int| seq![
            PartModel::Up(v[i].member.sequence),
            PartModel::Text(v[i].member.event_id@),
        ],
    )
}

/// The messages in the order of their sequence numbers.
pub open spec fn message_order(v: Seq<EpisodeInputMessage>) -> Seq<int> {
    order::ordered(sort_keys(v), v.len() as int)
}

fn sort_messages(v: &Vec<EpisodeInputMessage>) -> (r: Vec<usize>)
    ensures
        order::indices(r@) == message_order(v@),
        r@.len() == v@.len(),
        forall|i: int| 0 <= i < r@.len() ==> #[trigger] r@[i] < v@.len(),
{
    let mut keys: Vec<Vec<KeyPart>> = Vec::new();
    let mut i: usize = 0;
    while i < v.len()
        invariant
            i <= v@.len(),
            keys@.len() == i,
            forall|k: int|
                0 <= k < i ==> order::key_model(#[trigger] keys@[k]@) == sort_keys(v@)[k],
        decreases v.len() - i,
    {
        let mut key: Vec<KeyPart> = Vec::new();
        key.push(KeyPart::Up(v[i].member.sequence));
        key.push(KeyPart::Text(v[i].member.event_id.clone()));
        assert(order::key_model(key@) =~= sort_keys(v@)[i as int]);
        keys.push(key);
        i += 1;
    }
    assert(order::key_models(keys@) =~= sort_keys(v@));
    stable_order(&keys)
}

pub open spec fn facts_in_order(v: Seq<EpisodeInputMessage>, order: Seq<int>) -> Seq<MessageFacts> {
    Seq::new(order.len(), |i: int| message_facts(v[order[i]]))
}

/// What a plan is made from.
pub open spec fn plan_facts(i: EpisodePlanInput) -> InputFacts {
    InputFacts {
        session_id: i.session_id@,
        source_sha256: Some(i.source_session_sha256@),
        gap_minutes: i.gap_minutes,
        watermark: i.consolidation_watermark,
        messages: facts_in_order(i.messages@, message_order(i.messages@)),
        suggestions: suggestion_facts(i.suggestions@),
    }
}

pub open spec fn input_digest(domain: Seq<char>, i: InputFacts) -> Seq<char> {
    digest::sha256_hex(digest::framed_all(encoding::input_parts(encode_utf8(domain), i)))
}

/// The digest of what a plan is made from.
pub open spec fn plan_digest(i: EpisodePlanInput) -> Seq<char> {
    input_digest("hippocampus-episode-plan-input-v2"@, plan_facts(i))
}

fn hash_input(
    domain: &str,
    session_id: &str,
    source_sha256: Option<&str>,
    gap_minutes: u64,
    watermark: Option<u64>,
    messages: &Vec<EpisodeInputMessage>,
    places: &Vec<usize>,
    suggestions: &Vec<EpisodeBoundarySuggestion>,
) -> (r: String)
    requires
        forall|i: int| 0 <= i < places@.len() ==> #[trigger] places@[i] < messages@.len(),
    ensures
        r@ == input_digest(
            domain@,
            InputFacts {
                session_id: session_id@,
                source_sha256: crate::model::opt_str(source_sha256),
                gap_minutes,
                watermark,
                messages: facts_in_order(messages@, order::indices(places@)),
                suggestions: suggestion_facts(suggestions@),
            },
        ),
        digest::sha256_shape(r@),
{
    let ghost all = facts_in_order(messages@, order::indices(places@));
    let ghost reasons = suggestion_facts(suggestions@);
    let mut encoder = CanonicalEncoder::new(domain.as_bytes());
    encoder.text("session_id", session_id);
    encoder.option_text("source_session_sha256", source_sha256);
    encoder.number("gap_minutes", gap_minutes);
    encoder.option_number("watermark", watermark);
    encoder.number("messages.count", places.len() as u64);
    let ghost start = encoder.parts();
    let mut i: usize = 0;
    while i < places.len()
        invariant
            i <= places@.len(),
            forall|k: int| 0 <= k < places@.len() ==> #[trigger] places@[k] < messages@.len(),
            all == facts_in_order(messages@, order::indices(places@)),
            encoder.wf(),
            encoder.parts() == encoding::with_messages(
                start,
                "messages.item"@,
                all,
                i as int,
            ),
        decreases places.len() - i,
    {
        assert(order::indices(places@)[i as int] == places@[i as int]);
        assert(all[i as int] == message_facts(messages@[places@[i as int] as int]));
        encode_message(&mut encoder, "messages.item", &messages[places[i]]);
        i += 1;
    }
    let events = list_events(suggestions);
    let ghost names = text::texts(events@);
    assert(reasons.len() == names.len());
    encoder.number("suggestions.count", events.len() as u64);
    let ghost middle = encoder.parts();
    let mut k: usize = 0;
    let inner = joined("suggestions", ".reasons");
    let event_tag = joined("suggestions", ".event");
    while k < events.len()
        invariant
            k <= events@.len(),
            names == text::texts(events@),
            reasons == suggestion_facts(suggestions@),
            names == text::distinct_sorted(
                suggested_events(suggestions@, suggestions@.len() as int),
            ),
            inner@ == "suggestions"@ + ".reasons"@,
            event_tag@ == "suggestions"@ + ".event"@,
            encoder.wf(),
            encoder.parts() == encoding::with_suggestions(
                middle,
                "suggestions"@,
                reasons,
                k as int,
            ),
        decreases events.len() - k,
    {
        assert(names[k as int] == events@[k as int]@);
        let own = list_reasons(suggestions, events[k].as_str());
        assert(reasons[k as int] == (SuggestionFacts {
            event: events@[k as int]@,
            reasons: text::texts(own@),
        }));
        encoder.text(event_tag.as_str(), events[k].as_str());
        encoder.set(inner.as_str(), &own);
        k += 1;
    }
    encoder.finish()
}

/// What a snapshot of the ledger is made of.
pub open spec fn snapshot_facts(
    session_id: Seq<char>,
    watermark: Option<u64>,
    messages: Seq<EpisodeInputMessage>,
    suggestions: Seq<EpisodeBoundarySuggestion>,
) -> InputFacts {
    InputFacts {
        session_id,
        source_sha256: None,
        gap_minutes: 0,
        watermark,
        messages: facts_in_order(messages, message_order(messages)),
        suggestions: suggestion_facts(suggestions),
    }
}

/// The digest of a snapshot of the ledger.
pub fn ledger_snapshot_hash(
    session_id: &str,
    watermark: Option<u64>,
    messages: &Vec<EpisodeInputMessage>,
    suggestions: &Vec<EpisodeBoundarySuggestion>,
) -> (r: String)
    ensures
        r@ == input_digest(
            "hippocampus-episode-ledger-snapshot-v2"@,
            snapshot_facts(session_id@, watermark, messages@, suggestions@),
        ),
        digest::sha256_shape(r@),
{
    let places = sort_messages(messages);
    hash_input(
        "hippocampus-episode-ledger-snapshot-v2",
        session_id,
        None,
        0,
        watermark,
        messages,
        &places,
        suggestions,
    )
}

/// The longest time in seconds that messages of one episode may lie apart.
pub open spec fn gap_seconds(gap_minutes: u64) -> int {
    if gap_minutes > i64::MAX {
        (i64::MAX as int / 60) * 60
    } else {
        gap_minutes * 60
    }
}

/// A gap whose seconds can be counted.
pub open spec fn countable_gap(gap_minutes: u64) -> bool {
    gap_minutes > i64::MAX || gap_minutes * 60 <= i64::MAX
}

/// How a message follows the one before it in time; `seconds` lie between them
/// where both times can be read.
pub open spec fn gap_state(seconds: Option<i64>, gap_minutes: u64) -> EpisodeGapState {
    match seconds {
        None => EpisodeGapState::MissingTimestamp,
        Some(s) => if s < 0 {
            EpisodeGapState::InvalidOrOutOfOrder
        } else if s > gap_seconds(gap_minutes) {
            EpisodeGapState::GreaterThanThreshold
        } else if s == gap_seconds(gap_minutes) {
            EpisodeGapState::EqualToThreshold
        } else {
            EpisodeGapState::BelowThreshold
        },
    }
}

pub open spec fn gap_signal(g: EpisodeGapState) -> EpisodeSignalState {
    match g {
        EpisodeGapState::GreaterThanThreshold => EpisodeSignalState::True,
        EpisodeGapState::EqualToThreshold => EpisodeSignalState::False,
        EpisodeGapState::BelowThreshold => EpisodeSignalState::False,
        _ => EpisodeSignalState::Abstain,
    }
}

/// Judges how a message follows the one before it in time.
pub fn judge_gap(seconds: Option<i64>, gap_minutes: u64) -> (r: EpisodeGapState)
    requires
        countable_gap(gap_minutes),
    ensures
        r == gap_state(seconds, gap_minutes),
{
    let threshold: i64 = if gap_minutes > 0x7fff_ffff_ffff_ffff {
        (i64::MAX / 60) * 60
    } else {
        (gap_minutes as i64) * 60
    };
    match seconds {
        None => EpisodeGapState::MissingTimestamp,
        Some(s) => if s < 0 {
            EpisodeGapState::InvalidOrOutOfOrder
        } else if s > threshold {
            EpisodeGapState::GreaterThanThreshold
        } else if s == threshold {
            EpisodeGapState::EqualToThreshold
        } else {
            EpisodeGapState::BelowThreshold
        },
    }
}

/// Whether the model sees a new topic: it does, it was asked and does not, or
/// it was not asked.
pub open spec fn model_signal(
    reasons: Seq<Seq<char>>,
    sequence: u64,
    watermark: Option<u64>,
) -> EpisodeSignalState {
    if reasons.contains("model_topic_shift"@) {
        EpisodeSignalState::True
    } else if watermark is Some && sequence <= watermark->0 {
        EpisodeSignalState::False
    } else {
        EpisodeSignalState::Abstain
    }
}

/// The number of the first `n` texts that stand in a list.
pub open spec fn shared_count(v: Seq<Seq<char>>, list: Seq<Seq<char>>, n: int) -> nat
    decreases n,
{
    if n <= 0 {
        0
    } else {
        shared_count(v, list, n - 1) + (if list.contains(v[n - 1]) {
            1nat
        } else {
            0nat
        })
    }
}

/// Whether two sets of entities share at most half of what they hold together.
pub open spec fn entities_part(a: Seq<Seq<char>>, b: Seq<Seq<char>>) -> bool {
    let shared = shared_count(a, b, a.len() as int);
    2 * shared <= a.len() + b.len() - shared
}

pub open spec fn entity_signal(
    previous: Option<EpisodeInputMessage>,
    current: EpisodeInputMessage,
) -> EpisodeSignalState {
    match previous {
        None => EpisodeSignalState::Abstain,
        Some(p) => if entities_of(p).len() == 0 || entities_of(current).len() == 0 {
            EpisodeSignalState::Abstain
        } else if entities_part(entities_of(p), entities_of(current)) {
            EpisodeSignalState::True
        } else {
            EpisodeSignalState::False
        },
    }
}

/// Whether two embeddings can be compared.
pub open spec fn comparable_embeddings(a: Option<Seq<u32>>, b: Option<Seq<u32>>) -> bool {
    &&& a is Some
    &&& b is Some
    &&& a->0.len() > 0
    &&& a->0.len() == b->0.len()
    &&& all_finite(a->0)
    &&& all_finite(b->0)
}

pub open spec fn embedding_signal(
    previous: Option<EpisodeInputMessage>,
    current: EpisodeInputMessage,
) -> EpisodeSignalState {
    match previous {
        None => EpisodeSignalState::Abstain,
        Some(p) => if !comparable_embeddings(
            encoding::embedding_bits(p.embedding),
            encoding::embedding_bits(current.embedding),
        ) {
            EpisodeSignalState::Abstain
        } else {
            match current.cosine {
                CosineVerdict::BelowThreshold => EpisodeSignalState::True,
                CosineVerdict::ReachesThreshold => EpisodeSignalState::False,
                CosineVerdict::Undefined => EpisodeSignalState::Abstain,
            }
        },
    }
}

fn count_shared(a: &Vec<String>, b: &Vec<String>) -> (r: usize)
    ensures
        r == shared_count(text::texts(a@), text::texts(b@), a@.len() as int),
        r <= a@.len(),
{
    let ghost left = text::texts(a@);
    let ghost right = text::texts(b@);
    let n = a.len();
    let mut count: usize = 0;
    let mut i: usize = 0;
    while i < n
        invariant
            i <= n,
            n == a@.len(),
            left == text::texts(a@),
            right == text::texts(b@),
            count <= i,
            count == shared_count(left, right, i as int),
        decreases n - i,
    {
        assert(left[i as int] == a@[i as int]@);
        if contains_text(b, a[i].as_str()) {
            count += 1;
        }
        i += 1;
    }
    count
}

fn judge_entities(previous: Option<&EpisodeInputMessage>, current: &EpisodeInputMessage) -> (r:
    EpisodeSignalState)
    ensures
        r == entity_signal(opt_message(previous), *current),
{
    let p = match previous {
        Some(p) => p,
        None => return EpisodeSignalState::Abstain,
    };
    let a = distinct(&p.resolved_entity_ids);
    let b = distinct(&current.resolved_entity_ids);
    assert(text::texts(a@).len() == a@.len());
    assert(text::texts(b@).len() == b@.len());
    if a.len() == 0 || b.len() == 0 {
        return EpisodeSignalState::Abstain;
    }
    let shared = count_shared(&a, &b) as u128;
    let together: u128 = a.len() as u128 + b.len() as u128 - shared;
    if 2 * shared <= together {
        EpisodeSignalState::True
    } else {
        EpisodeSignalState::False
    }
}

fn judge_embeddings(previous: Option<&EpisodeInputMessage>, current: &EpisodeInputMessage) -> (r:
    EpisodeSignalState)
    ensures
        r == embedding_signal(opt_message(previous), *current),
{
    let p = match previous {
        Some(p) => p,
        None => return EpisodeSignalState::Abstain,
    };
    match (&p.embedding, &current.embedding) {
        (Some(a), Some(b)) => {
            if a.len() == 0 || a.len() != b.len() || !is_all_finite(a) || !is_all_finite(b) {
                return EpisodeSignalState::Abstain;
            }
            match current.cosine {
                CosineVerdict::BelowThreshold => EpisodeSignalState::True,
                CosineVerdict::ReachesThreshold => EpisodeSignalState::False,
                CosineVerdict::Undefined => EpisodeSignalState::Abstain,
            }
        },
        _ => EpisodeSignalState::Abstain,
    }
}

pub open spec fn opt_message(o: Option<&EpisodeInputMessage>) -> Option<EpisodeInputMessage> {
    match o {
        Some(m) => Some(*m),
        None => None,
    }
}

pub struct SignalModel {
    pub name: Seq<char>,
    pub state: EpisodeSignalState,
}

pub struct DecisionModel {
    pub before_event_id: Seq<char>,
    pub is_boundary: bool,
    pub gap: EpisodeGapState,
    pub hard: Seq<SignalModel>,
    pub soft: Seq<SignalModel>,
    pub votes: nat,
    pub input_sha256: Seq<char>,
}

pub open spec fn signal_models(v: Seq<EpisodeSignal>) -> Seq<SignalModel> {
    Seq::new(v.len(), |i: int| SignalModel { name: v[i].name@, state: v[i].state })
}

pub open spec fn decision_model(d: EpisodeBoundaryDecision) -> DecisionModel {
    DecisionModel {
        before_event_id: d.before_event_id@,
        is_boundary: d.is_boundary,
        gap: d.gap,
        hard: signal_models(d.hard_signals@),
        soft: signal_models(d.soft_signals@),
        votes: d.soft_true_votes as nat,
        input_sha256: d.input_sha256@,
    }
}

pub open spec fn decision_models(v: Seq<EpisodeBoundaryDecision>) -> Seq<DecisionModel> {
    Seq::new(v.len(), |i: int| decision_model(v[i]))
}

pub open spec fn gap_tag(g: EpisodeGapState) -> u8 {
    match g {
        EpisodeGapState::FirstMessage => 0,
        EpisodeGapState::GreaterThanThreshold => 1,
        EpisodeGapState::EqualToThreshold => 2,
        EpisodeGapState::BelowThreshold => 3,
        EpisodeGapState::InvalidOrOutOfOrder => 4,
        EpisodeGapState::MissingTimestamp => 5,
    }
}

fn tag_gap(g: EpisodeGapState) -> (r: u8)
    ensures
        r == gap_tag(g),
{
    match g {
        EpisodeGapState::FirstMessage => 0,
        EpisodeGapState::GreaterThanThreshold => 1,
        EpisodeGapState::EqualToThreshold => 2,
        EpisodeGapState::BelowThreshold => 3,
        EpisodeGapState::InvalidOrOutOfOrder => 4,
        EpisodeGapState::MissingTimestamp => 5,
    }
}

pub open spec fn signal_tag(s: EpisodeSignalState) -> u8 {
    match s {
        EpisodeSignalState::True => 1,
        EpisodeSignalState::False => 2,
        EpisodeSignalState::Abstain => 3,
    }
}

fn tag_signal(s: EpisodeSignalState) -> (r: u8)
    ensures
        r == signal_tag(s),
{
    match s {
        EpisodeSignalState::True => 1,
        EpisodeSignalState::False => 2,
        EpisodeSignalState::Abstain => 3,
    }
}

/// Parts with the first `n` signals.
pub open spec fn with_signals(
    p: Seq<Seq<u8>>,
    tag: Seq<char>,
    v: Seq<SignalModel>,
    n: int,
) -> Seq<Seq<u8>>
    decreases n,
{
    if n <= 0 {
        p
    } else {
        encoding::with_byte(
            encoding::with_text(with_signals(p, tag, v, n - 1), tag + ".name"@, v[n - 1].name),
            tag + ".state"@,
            signal_tag(v[n - 1].state),
        )
    }
}

pub open spec fn with_signal_list(p: Seq<Seq<u8>>, tag: Seq<char>, v: Seq<SignalModel>) -> Seq<
    Seq<u8>,
> {
    with_signals(encoding::with_number(p, tag + ".count"@, v.len()), tag, v, v.len() as int)
}

fn encode_signals(encoder: &mut CanonicalEncoder, tag: &str, v: &Vec<EpisodeSignal>)
    requires
        old(encoder).wf(),
    ensures
        final(encoder).wf(),
        final(encoder).parts() == with_signal_list(
            old(encoder).parts(),
            tag@,
            signal_models(v@),
        ),
{
    let ghost all = signal_models(v@);
    encoder.number(joined(tag, ".count").as_str(), v.len() as u64);
    let ghost start = encoder.parts();
    let name_tag = joined(tag, ".name");
    let state_tag = joined(tag, ".state");
    let mut i: usize = 0;
    while i < v.len()
        invariant
            i <= v@.len(),
            all == signal_models(v@),
            name_tag@ == tag@ + ".name"@,
            state_tag@ == tag@ + ".state"@,
            encoder.wf(),
            encoder.parts() == with_signals(start, tag@, all, i as int),
        decreases v.len() - i,
    {
        assert(all[i as int] == (SignalModel {
            name: v@[i as int].name@,
            state: v@[i as int].state,
        }));
        encoder.text(name_tag.as_str(), v[i].name.as_str());
        encoder.byte(state_tag.as_str(), tag_signal(v[i].state));
        i += 1;
    }
}

fn encode_opt_message(encoder: &mut CanonicalEncoder, tag: &str, m: Option<&EpisodeInputMessage>)
    requires
        old(encoder).wf(),
    ensures
        final(encoder).wf(),
        final(encoder).parts() == encoding::with_opt_message(
            old(encoder).parts(),
            tag@,
            opt_facts(opt_message(m)),
        ),
{
    encoder.byte(joined(tag, ".present").as_str(), bit(m.is_some()));
    if let Some(m) = m {
        encode_message(encoder, tag, m);
    }
}

pub open spec fn opt_facts(m: Option<EpisodeInputMessage>) -> Option<MessageFacts> {
    match m {
        Some(m) => Some(message_facts(m)),
        None => None,
    }
}

/// What a decision looks at.
pub struct Situation {
    pub current: EpisodeInputMessage,
    pub previous: Option<EpisodeInputMessage>,
    pub previous_user: Option<EpisodeInputMessage>,
    pub reasons: Seq<Seq<char>>,
}

pub open spec fn state_if(b: bool) -> EpisodeSignalState {
    if b {
        EpisodeSignalState::True
    } else {
        EpisodeSignalState::False
    }
}

pub open spec fn gap_of(s: Situation, gap_minutes: u64) -> EpisodeGapState {
    match s.previous {
        None => EpisodeGapState::FirstMessage,
        Some(p) => gap_state(
            moment::rfc3339_seconds(p.created_at@, s.current.created_at@),
            gap_minutes,
        ),
    }
}

/// The signals that each decide for a boundary.
pub open spec fn hard_signals(s: Situation, gap: EpisodeGapState) -> Seq<SignalModel> {
    seq![
        SignalModel { name: "session_start"@, state: state_if(s.previous is None) },
        SignalModel { name: "time_gap"@, state: gap_signal(gap) },
        SignalModel {
            name: "explicit_topic_transition"@,
            state: state_if(s.reasons.contains("explicit_topic_transition"@)),
        },
    ]
}

/// The signals that decide for a boundary together.
pub open spec fn soft_signals(s: Situation, watermark: Option<u64>) -> Seq<SignalModel> {
    seq![
        SignalModel {
            name: "entity_jaccard_distance"@,
            state: entity_signal(s.previous_user, s.current),
        },
        SignalModel {
            name: "embedding_cosine_similarity"@,
            state: embedding_signal(s.previous_user, s.current),
        },
        SignalModel {
            name: "model_topic_shift"@,
            state: model_signal(s.reasons, s.current.member.sequence, watermark),
        },
    ]
}

/// The number of the first `n` signals that are true.
pub open spec fn true_count(v: Seq<SignalModel>, n: int) -> nat
    decreases n,
{
    if n <= 0 {
        0
    } else {
        true_count(v, n - 1) + (if v[n - 1].state == EpisodeSignalState::True {
            1nat
        } else {
            0nat
        })
    }
}

/// The encoding of a decision and of what it looks at.
pub open spec fn decision_parts(
    session_id: Seq<char>,
    gap_minutes: u64,
    watermark: Option<u64>,
    s: Situation,
    gap: EpisodeGapState,
    hard: Seq<SignalModel>,
    soft: Seq<SignalModel>,
    votes: nat,
) -> Seq<Seq<u8>> {
    let a = encoding::with_text(
        seq![encode_utf8("hippocampus-episode-boundary-decision-v2"@)],
        "session_id"@,
        session_id,
    );
    let b = encoding::with_number(a, "gap_minutes"@, gap_minutes as nat);
    let c = encoding::with_opt_number(b, "watermark"@, watermark);
    let d = encoding::with_message(c, "current"@, message_facts(s.current));
    let e = encoding::with_opt_message(d, "previous_eligible"@, opt_facts(s.previous));
    let f = encoding::with_opt_message(e, "previous_user"@, opt_facts(s.previous_user));
    let g = encoding::with_set(f, "suggestion_reasons"@, s.reasons);
    let h = encoding::with_byte(g, "output_gap"@, gap_tag(gap));
    let i = with_signal_list(h, "hard"@, hard);
    let j = with_signal_list(i, "soft"@, soft);
    encoding::with_number(j, "soft_true_votes"@, votes)
}

/// The decision whether an episode begins before a message that follows the one
/// before it in a given way.
pub open spec fn decision_given(
    session_id: Seq<char>,
    gap_minutes: u64,
    watermark: Option<u64>,
    s: Situation,
    gap: EpisodeGapState,
) -> DecisionModel {
    let hard = hard_signals(s, gap);
    let soft = soft_signals(s, watermark);
    let votes = true_count(soft, 3);
    DecisionModel {
        before_event_id: s.current.member.event_id@,
        is_boundary: true_count(hard, 3) > 0 || votes >= SOFT_BOUNDARY_VOTE_THRESHOLD,
        gap,
        hard,
        soft,
        votes,
        input_sha256: digest::sha256_hex(
            digest::framed_all(
                decision_parts(session_id, gap_minutes, watermark, s, gap, hard, soft, votes),
            ),
        ),
    }
}

/// The decision whether an episode begins before a message.
pub open spec fn decision_for(
    session_id: Seq<char>,
    gap_minutes: u64,
    watermark: Option<u64>,
    s: Situation,
) -> DecisionModel {
    decision_given(session_id, gap_minutes, watermark, s, gap_of(s, gap_minutes))
}

fn signal(name: &str, state: EpisodeSignalState) -> (r: EpisodeSignal)
    ensures
        r.name@ == name@,
        r.state == state,
{
    EpisodeSignal { name: name.to_owned(), state }
}

fn truth(b: bool) -> (r: EpisodeSignalState)
    ensures
        r == state_if(b),
{
    if b {
        EpisodeSignalState::True
    } else {
        EpisodeSignalState::False
    }
}

fn count_true(v: &Vec<EpisodeSignal>) -> (r: usize)
    ensures
        r == true_count(signal_models(v@), v@.len() as int),
        r <= v@.len(),
{
    let ghost all = signal_models(v@);
    let n = v.len();
    let mut count: usize = 0;
    let mut i: usize = 0;
    while i < n
        invariant
            i <= n,
            n == v@.len(),
            all == signal_models(v@),
            count <= i,
            count == true_count(all, i as int),
        decreases n - i,
    {
        assert(all[i as int].state == v@[i as int].state);
        if v[i].state == EpisodeSignalState::True {
            count += 1;
        }
        i += 1;
    }
    count
}

/// Judges a situation, given how the message follows the one before it in time.
pub fn judge_situation(
    session_id: &str,
    gap_minutes: u64,
    watermark: Option<u64>,
    current: &EpisodeInputMessage,
    previous: Option<&EpisodeInputMessage>,
    previous_user: Option<&EpisodeInputMessage>,
    reasons: &Vec<String>,
    gap: EpisodeGapState,
) -> (r: EpisodeBoundaryDecision)
    ensures
        decision_model(r) == decision_given(
            session_id@,
            gap_minutes,
            watermark,
            (Situation {
                current: *current,
                previous: opt_message(previous),
                previous_user: opt_message(previous_user),
                reasons: text::texts(reasons@),
            }),
            gap,
        ),
{
    let ghost s = Situation {
        current: *current,
        previous: opt_message(previous),
        previous_user: opt_message(previous_user),
        reasons: text::texts(reasons@),
    };
    let time = match gap {
        EpisodeGapState::GreaterThanThreshold => EpisodeSignalState::True,
        EpisodeGapState::EqualToThreshold => EpisodeSignalState::False,
        EpisodeGapState::BelowThreshold => EpisodeSignalState::False,
        _ => EpisodeSignalState::Abstain,
    };
    let explicit = truth(contains_text(reasons, "explicit_topic_transition"));
    let before_watermark = match watermark {
        Some(through) => current.member.sequence <= through,
        None => false,
    };
    let shift = if contains_text(reasons, "model_topic_shift") {
        EpisodeSignalState::True
    } else if before_watermark {
        EpisodeSignalState::False
    } else {
        EpisodeSignalState::Abstain
    };
    let mut hard: Vec<EpisodeSignal> = Vec::new();
    hard.push(signal("session_start", truth(previous.is_none())));
    hard.push(signal("time_gap", time));
    hard.push(signal("explicit_topic_transition", explicit));
    let mut soft: Vec<EpisodeSignal> = Vec::new();
    soft.push(signal("entity_jaccard_distance", judge_entities(previous_user, current)));
    soft.push(signal("embedding_cosine_similarity", judge_embeddings(previous_user, current)));
    soft.push(signal("model_topic_shift", shift));
    proof {
        assert(signal_models(hard@) =~= hard_signals(s, gap));
        assert(signal_models(soft@) =~= soft_signals(s, watermark));
    }
    let votes = count_true(&soft);
    let is_boundary = count_true(&hard) > 0 || votes >= SOFT_BOUNDARY_VOTE_THRESHOLD;
    let mut encoder = CanonicalEncoder::new("hippocampus-episode-boundary-decision-v2".as_bytes());
    encoder.text("session_id", session_id);
    encoder.number("gap_minutes", gap_minutes);
    encoder.option_number("watermark", watermark);
    encode_message(&mut encoder, "current", current);
    encode_opt_message(&mut encoder, "previous_eligible", previous);
    encode_opt_message(&mut encoder, "previous_user", previous_user);
    encoder.set("suggestion_reasons", reasons);
    encoder.byte("output_gap", tag_gap(gap));
    encode_signals(&mut encoder, "hard", &hard);
    encode_signals(&mut encoder, "soft", &soft);
    encoder.number("soft_true_votes", votes as u64);
    let input_sha256 = encoder.finish();
    EpisodeBoundaryDecision {
        before_event_id: current.member.event_id.clone(),
        is_boundary,
        gap,
        hard_signals: hard,
        soft_signals: soft,
        soft_true_votes: votes,
        input_sha256,
    }
}

/// Decides whether an episode begins before a message.
pub fn decide_boundary(
    input: &EpisodePlanInput,
    current: &EpisodeInputMessage,
    previous: Option<&EpisodeInputMessage>,
    previous_user: Option<&EpisodeInputMessage>,
    reasons: &Vec<String>,
) -> (r: EpisodeBoundaryDecision)
    requires
        countable_gap(input.gap_minutes),
    ensures
        decision_model(r) == decision_for(
            input.session_id@,
            input.gap_minutes,
            input.consolidation_watermark,
            (Situation {
                current: *current,
                previous: opt_message(previous),
                previous_user: opt_message(previous_user),
                reasons: text::texts(reasons@),
            }),
        ),
{
    let gap = match previous {
        None => EpisodeGapState::FirstMessage,
        Some(p) => {
            let seconds = seconds_between(p.created_at.as_str(), current.created_at.as_str());
            judge_gap(seconds, input.gap_minutes)
        },
    };
    judge_situation(
        input.session_id.as_str(),
        input.gap_minutes,
        input.consolidation_watermark,
        current,
        previous,
        previous_user,
        reasons,
        gap,
    )
}

pub open spec fn session_document_text(session_id: Seq<char>) -> Seq<char> {
    "session_"@ + digest::sha256_hex(
        digest::framed_all(
            seq![encode_utf8("hippocampus-session-document-v1"@), encode_utf8(session_id)],
        ),
    )
}

/// The id of the document of a whole session.
pub fn session_document_id(session_id: &str) -> (r: String)
    ensures
        r@ == session_document_text(session_id@),
        digest::hash_id_shape(r@, "session_"@),
{
    let mut hasher = PartHasher::new();
    hasher.part("hippocampus-session-document-v1".as_bytes());
    hasher.part(session_id.as_bytes());
    assert(hasher.parts() =~= seq![
        encode_utf8("hippocampus-session-document-v1"@),
        encode_utf8(session_id@),
    ]);
    hash_id("session_", hasher.finish().as_str())
}

pub open spec fn episode_document_text(session_id: Seq<char>, first_event: Seq<char>) -> Seq<
    char,
> {
    "episode_"@ + digest::sha256_hex(
        digest::framed_all(
            seq![
                encode_utf8("hippocampus-episode-document-v1"@),
                encode_utf8(session_id),
                encode_utf8(first_event),
            ],
        ),
    )
}

/// The values hashed for the first `n` members of a document.
pub open spec fn member_parts(start: Seq<Seq<u8>>, v: Seq<EpisodeMember>, n: int) -> Seq<Seq<u8>>
    decreases n,
{
    if n <= 0 {
        start
    } else {
        let m = v[n - 1];
        member_parts(start, v, n - 1).push(encode_utf8(m.document_id@)).push(
            encode_utf8(m.event_id@),
        ).push(digest::le_bytes(m.sequence as nat, 8)).push(
            encode_utf8(crate::model::role_text(m.role)),
        ).push(digest::le_bytes(m.span.start_char as nat, 8)).push(
            digest::le_bytes(m.span.end_char as nat, 8),
        ).push(encode_utf8(m.content_sha256@))
    }
}

/// The digest of the members of a document.
pub open spec fn members_digest(
    granularity: Seq<char>,
    session_id: Seq<char>,
    v: Seq<EpisodeMember>,
) -> Seq<char> {
    digest::sha256_hex(
        digest::framed_all(
            member_parts(
                seq![
                    encode_utf8("hippocampus-aggregate-source-v1"@),
                    encode_utf8(granularity),
                    encode_utf8(session_id),
                    digest::le_bytes(v.len(), 8),
                ],
                v,
                v.len() as int,
            ),
        ),
    )
}

fn number_part(hasher: &mut PartHasher, n: u64)
    requires
        old(hasher).wf(),
    ensures
        final(hasher).wf(),
        final(hasher).parts() == old(hasher).parts().push(digest::le_bytes(n as nat, 8)),
{
    let mut bytes: Vec<u8> = Vec::new();
    push_le(&mut bytes, n);
    assert(bytes@ =~= digest::le_bytes(n as nat, 8));
    hasher.part(bytes.as_slice());
}

/// The digest of the members of a document.
pub fn members_hash(granularity: &str, session_id: &str, members: &Vec<EpisodeMember>) -> (r: String)
    ensures
        r@ == members_digest(granularity@, session_id@, members@),
        digest::sha256_shape(r@),
{
    let mut hasher = PartHasher::new();
    hasher.part("hippocampus-aggregate-source-v1".as_bytes());
    hasher.part(granularity.as_bytes());
    hasher.part(session_id.as_bytes());
    number_part(&mut hasher, members.len() as u64);
    let ghost start = hasher.parts();
    assert(start =~= seq![
        encode_utf8("hippocampus-aggregate-source-v1"@),
        encode_utf8(granularity@),
        encode_utf8(session_id@),
        digest::le_bytes(members@.len(), 8),
    ]);
    let mut i: usize = 0;
    while i < members.len()
        invariant
            i <= members@.len(),
            hasher.wf(),
            hasher.parts() == member_parts(start, members@, i as int),
        decreases members.len() - i,
    {
        let m = &members[i];
        hasher.part(m.document_id.as_str().as_bytes());
        hasher.part(m.event_id.as_str().as_bytes());
        number_part(&mut hasher, m.sequence);
        hasher.part(m.role.as_str().as_bytes());
        number_part(&mut hasher, m.span.start_char as u64);
        number_part(&mut hasher, m.span.end_char as u64);
        hasher.part(m.content_sha256.as_str().as_bytes());
        i += 1;
    }
    hasher.finish()
}

/// What a document consists of.
pub struct DocumentModel {
    pub document_id: Seq<char>,
    pub session_id: Seq<char>,
    pub granularity: Seq<char>,
    pub source_sha256: Seq<char>,
    pub start_sequence: u64,
    pub end_sequence: u64,
    pub members: Seq<EpisodeMember>,
}

pub open spec fn document_model(d: EpisodeDocument) -> DocumentModel {
    DocumentModel {
        document_id: d.document_id@,
        session_id: d.session_id@,
        granularity: d.granularity@,
        source_sha256: d.source_sha256@,
        start_sequence: d.start_sequence,
        end_sequence: d.end_sequence,
        members: d.members@,
    }
}

pub open spec fn document_models(v: Seq<EpisodeDocument>) -> Seq<DocumentModel> {
    Seq::new(v.len(), |i: int| document_model(v[i]))
}

/// The document of an episode.
pub open spec fn episode_document(session_id: Seq<char>, members: Seq<EpisodeMember>) -> DocumentModel {
    DocumentModel {
        document_id: episode_document_text(session_id, members[0].event_id@),
        session_id,
        granularity: "episode"@,
        source_sha256: members_digest("episode"@, session_id, members),
        start_sequence: members[0].sequence,
        end_sequence: members.last().sequence,
        members,
    }
}

fn make_document(session_id: &str, members: Vec<EpisodeMember>) -> (r: EpisodeDocument)
    requires
        members@.len() > 0,
    ensures
        document_model(r) == episode_document(session_id@, members@),
{
    let mut hasher = PartHasher::new();
    hasher.part("hippocampus-episode-document-v1".as_bytes());
    hasher.part(session_id.as_bytes());
    hasher.part(members[0].event_id.as_str().as_bytes());
    assert(hasher.parts() =~= seq![
        encode_utf8("hippocampus-episode-document-v1"@),
        encode_utf8(session_id@),
        encode_utf8(members@[0].event_id@),
    ]);
    let mut document_id = "episode_".to_owned();
    document_id.append(hasher.finish().as_str());
    let source_sha256 = members_hash("episode", session_id, &members);
    EpisodeDocument {
        document_id,
        session_id: session_id.to_owned(),
        granularity: "episode".to_owned(),
        source_sha256,
        start_sequence: members[0].sequence,
        end_sequence: members[members.len() - 1].sequence,
        members,
    }
}

/// How far a plan has come: the episodes that are closed, the one that is open,
/// the decisions, and the last user message.
pub struct PlanState {
    pub closed: Seq<Seq<int>>,
    pub open: Seq<int>,
    pub decisions: Seq<DecisionModel>,
    pub last_user: Option<int>,
}

pub open spec fn message_at(v: Seq<EpisodeInputMessage>, i: Option<int>) -> Option<
    EpisodeInputMessage,
> {
    match i {
        Some(i) => Some(v[i]),
        None => None,
    }
}

/// What is looked at before the message at a place of the order.
pub open spec fn situation_at(
    input: EpisodePlanInput,
    order: Seq<int>,
    n: int,
    last_user: Option<int>,
) -> Situation {
    let v = input.messages@;
    let current = v[order[n]];
    Situation {
        current,
        previous: if n > 0 {
            Some(v[order[n - 1]])
        } else {
            None
        },
        previous_user: message_at(v, last_user),
        reasons: reasons_for(input.suggestions@, current.member.event_id@),
    }
}

/// The state after one more message: a user message may begin an episode, and so
/// may the first message.
pub open spec fn plan_step(
    input: EpisodePlanInput,
    order: Seq<int>,
    s: PlanState,
    n: int,
) -> PlanState {
    let i = order[n];
    let user = input.messages@[i].member.role == EventRole::User;
    let last_user = if user {
        Some(i)
    } else {
        s.last_user
    };
    if s.open.len() == 0 || user {
        let decision = decision_for(
            input.session_id@,
            input.gap_minutes,
            input.consolidation_watermark,
            situation_at(input, order, n, s.last_user),
        );
        if decision.is_boundary && s.open.len() > 0 {
            PlanState {
                closed: s.closed.push(s.open),
                open: seq![i],
                decisions: s.decisions.push(decision),
                last_user,
            }
        } else {
            PlanState {
                closed: s.closed,
                open: s.open.push(i),
                decisions: s.decisions.push(decision),
                last_user,
            }
        }
    } else {
        PlanState { closed: s.closed, open: s.open.push(i), decisions: s.decisions, last_user }
    }
}

/// The state after the first `n` messages of the order.
pub open spec fn plan_state(input: EpisodePlanInput, order: Seq<int>, n: int) -> PlanState
    decreases n,
{
    if n <= 0 {
        PlanState {
            closed: Seq::empty(),
            open: Seq::empty(),
            decisions: Seq::empty(),
            last_user: None,
        }
    } else {
        plan_step(input, order, plan_state(input, order, n - 1), n - 1)
    }
}

/// The episodes of a plan, each as a list of messages.
pub open spec fn planned(s: PlanState) -> Seq<Seq<int>> {
    if s.open.len() > 0 {
        s.closed.push(s.open)
    } else {
        s.closed
    }
}

/// What is wrong with a message.
pub open spec fn invalid_message(m: EpisodeInputMessage) -> bool {
    ||| text::blank(m.member.document_id@)
    ||| text::blank(m.member.event_id@)
    ||| m.member.span.event_id@ != m.member.event_id@
    ||| m.member.span.start_char != 0
    ||| m.member.span.end_char == 0
    ||| !digest::sha256_shape(m.member.content_sha256@)
    ||| m.member.role == EventRole::System
    ||| m.embedding is Some && !all_finite(m.embedding->0@)
}

/// Two messages share a sequence number.
pub open spec fn sequences_repeat(v: Seq<EpisodeInputMessage>) -> bool {
    exists|i: int, j: int|
        0 <= i < j < v.len() && (#[trigger] v[i]).member.sequence == (
        #[trigger] v[j]).member.sequence
}

/// Why no plan is made.
pub open spec fn plan_fault(input: EpisodePlanInput) -> Option<Seq<char>> {
    if text::blank(input.session_id@) || !digest::sha256_shape(input.source_session_sha256@) {
        Some("episode plan input contains an invalid session identity"@)
    } else if exists|i: int|
        0 <= i < input.messages@.len() && invalid_message(#[trigger] input.messages@[i]) {
        Some("episode plan contains a non-message or invalid direct member"@)
    } else if sequences_repeat(input.messages@) {
        Some("episode plan contains duplicate message sequences"@)
    } else {
        None
    }
}

pub open spec fn members_at(v: Seq<EpisodeInputMessage>, places: Seq<int>) -> Seq<EpisodeMember> {
    Seq::new(places.len(), |i: int| v[places[i]].member)
}

/// The documents of a plan.
pub open spec fn planned_documents(
    session_id: Seq<char>,
    v: Seq<EpisodeInputMessage>,
    episodes: Seq<Seq<int>>,
) -> Seq<DocumentModel> {
    Seq::new(
        episodes.len(),
        |i: int| episode_document(session_id, members_at(v, episodes[i])),
    )
}

/// The final state of a plan.
pub open spec fn final_state(input: EpisodePlanInput) -> PlanState {
    plan_state(input, message_order(input.messages@), input.messages@.len() as int)
}

/// Whether a report is that of a plan.
pub open spec fn report_is(r: EpisodeMaterializationReport, input: EpisodePlanInput) -> bool {
    let s = final_state(input);
    &&& r.session_id@ == input.session_id@
    &&& r.source_session_sha256@ == input.source_session_sha256@
    &&& r.plan_input_sha256@ == plan_digest(input)
    &&& document_models(r.episode_documents@) == planned_documents(
        input.session_id@,
        input.messages@,
        planned(s),
    )
    &&& text::opt_text(r.session_document_id) == (if input.messages@.len() > 0 {
        Some(session_document_text(input.session_id@))
    } else {
        None
    })
    &&& decision_models(r.boundary_decisions@) == s.decisions
}

fn is_invalid(m: &EpisodeInputMessage) -> (r: bool)
    ensures
        r == invalid_message(*m),
{
    let broken = match &m.embedding {
        Some(v) => !is_all_finite(v),
        None => false,
    };
    is_blank(m.member.document_id.as_str()) || is_blank(m.member.event_id.as_str()) || !text_eq(
        m.member.span.event_id.as_str(),
        m.member.event_id.as_str(),
    ) || m.member.span.start_char != 0 || m.member.span.end_char == 0 || !is_sha256(
        m.member.content_sha256.as_str(),
    ) || m.member.role == EventRole::System || broken
}

fn check_plan(input: &EpisodePlanInput) -> (r: Option<String>)
    ensures
        text::opt_text(r) == plan_fault(*input),
{
    if is_blank(input.session_id.as_str()) || !is_sha256(input.source_session_sha256.as_str()) {
        return Some("episode plan input contains an invalid session identity".to_owned());
    }
    let v = &input.messages;
    let mut i: usize = 0;
    while i < v.len()
        invariant
            i <= v@.len(),
            v@ == input.messages@,
            !text::blank(input.session_id@) && digest::sha256_shape(
                input.source_session_sha256@,
            ),
            forall|k: int| 0 <= k < i ==> !invalid_message(#[trigger] v@[k]),
        decreases v.len() - i,
    {
        if is_invalid(&v[i]) {
            assert(invalid_message(input.messages@[i as int]));
            return Some(
                "episode plan contains a non-message or invalid direct member".to_owned(),
            );
        }
        i += 1;
    }
    let mut a: usize = 0;
    while a < v.len()
        invariant
            a <= v@.len(),
            v@ == input.messages@,
            !text::blank(input.session_id@) && digest::sha256_shape(
                input.source_session_sha256@,
            ),
            forall|k: int| 0 <= k < v@.len() ==> !invalid_message(#[trigger] v@[k]),
            forall|p: int, q: int|
                0 <= p < q < v@.len() && p < a ==> (#[trigger] v@[p]).member.sequence != (
                #[trigger] v@[q]).member.sequence,
        decreases v.len() - a,
    {
        let mut b: usize = a + 1;
        while b < v.len()
            invariant
                a < b <= v@.len(),
                v@ == input.messages@,
                !text::blank(input.session_id@) && digest::sha256_shape(
                    input.source_session_sha256@,
                ),
                forall|k: int| 0 <= k < v@.len() ==> !invalid_message(#[trigger] v@[k]),
                forall|q: int|
                    a < q < b ==> v@[a as int].member.sequence != (
                    #[trigger] v@[q]).member.sequence,
            decreases v.len() - b,
        {
            if v[a].member.sequence == v[b].member.sequence {
                assert(input.messages@[a as int].member.sequence
                    == input.messages@[b as int].member.sequence);
                return Some("episode plan contains duplicate message sequences".to_owned());
            }
            b += 1;
        }
        a += 1;
    }
    None
}

fn collect_members(v: &Vec<EpisodeInputMessage>, places: &Vec<usize>) -> (r: Vec<EpisodeMember>)
    requires
        forall|i: int| 0 <= i < places@.len() ==> #[trigger] places@[i] < v@.len(),
    ensures
        r@ == members_at(v@, order::indices(places@)),
{
    let mut out: Vec<EpisodeMember> = Vec::new();
    let mut i: usize = 0;
    while i < places.len()
        invariant
            i <= places@.len(),
            forall|k: int| 0 <= k < places@.len() ==> #[trigger] places@[k] < v@.len(),
            out@.len() == i,
            forall|k: int|
                0 <= k < i ==> #[trigger] out@[k] == v@[places@[k] as int].member,
        decreases places.len() - i,
    {
        out.push(v[places[i]].member.clone());
        i += 1;
    }
    assert(out@ =~= members_at(v@, order::indices(places@)));
    out
}

/// Plans the episodes of a session.
pub fn plan_episodes(input: &EpisodePlanInput) -> (r: Result<EpisodeMaterializationReport, String>)
    requires
        countable_gap(input.gap_minutes),
    ensures
        match r {
            Ok(report) => plan_fault(*input) is None && report_is(report, *input),
            Err(e) => plan_fault(*input) == Some(e@),
        },
{
    if let Some(e) = check_plan(input) {
        return Err(e);
    }
    let v = &input.messages;
    let places = sort_messages(v);
    let ghost order = message_order(v@);
    let plan_input_sha256 = hash_input(
        "hippocampus-episode-plan-input-v2",
        input.session_id.as_str(),
        Some(input.source_session_sha256.as_str()),
        input.gap_minutes,
        input.consolidation_watermark,
        v,
        &places,
        &input.suggestions,
    );
    let mut documents: Vec<EpisodeDocument> = Vec::new();
    let mut decisions: Vec<EpisodeBoundaryDecision> = Vec::new();
    let mut open: Vec<usize> = Vec::new();
    let mut last_user: Option<usize> = None;
    let mut n: usize = 0;
    assert(document_models(documents@) =~= planned_documents(
        input.session_id@,
        v@,
        plan_state(*input, order, 0).closed,
    ));
    assert(decision_models(decisions@) =~= Seq::empty());
    assert(order::indices(open@) =~= Seq::empty());
    while n < places.len()
        invariant
            n <= places@.len(),
            v@ == input.messages@,
            places@.len() == v@.len(),
            countable_gap(input.gap_minutes),
            order == message_order(v@),
            order == order::indices(places@),
            forall|i: int| 0 <= i < places@.len() ==> #[trigger] places@[i] < v@.len(),
            forall|i: int| 0 <= i < open@.len() ==> #[trigger] open@[i] < v@.len(),
            last_user is Some ==> last_user->0 < v@.len(),
            ({
                let s = plan_state(*input, order, n as int);
                &&& document_models(documents@) == planned_documents(
                    input.session_id@,
                    v@,
                    s.closed,
                )
                &&& decision_models(decisions@) == s.decisions
                &&& order::indices(open@) == s.open
                &&& s.last_user == (match last_user {
                    Some(u) => Some(u as int),
                    None => None,
                })
            }),
        decreases places.len() - n,
    {
        let ghost s = plan_state(*input, order, n as int);
        let i = places[n];
        assert(order[n as int] == i as int);
        assert(s.open.len() == open@.len());
        let message = &v[i];
        let user = message.member.role == EventRole::User;
        if open.len() == 0 || user {
            let previous: Option<&EpisodeInputMessage> = if n > 0 {
                assert(order[n - 1] == places@[n - 1]);
                Some(&v[places[n - 1]])
            } else {
                None
            };
            let previous_user: Option<&EpisodeInputMessage> = match last_user {
                Some(u) => Some(&v[u]),
                None => None,
            };
            let reasons = list_reasons(&input.suggestions, message.member.event_id.as_str());
            let decision = decide_boundary(input, message, previous, previous_user, &reasons);
            assert((Situation {
                current: *message,
                previous: opt_message(previous),
                previous_user: opt_message(previous_user),
                reasons: text::texts(reasons@),
            }) == situation_at(*input, order, n as int, s.last_user));
            if decision.is_boundary && open.len() > 0 {
                let members = collect_members(v, &open);
                assert(members@.len() > 0);
                let document = make_document(input.session_id.as_str(), members);
                let ghost before = document_models(documents@);
                documents.push(document);
                assert(document_models(documents@) =~= before.push(document_model(document)));
                assert(document_models(documents@) =~= planned_documents(
                    input.session_id@,
                    v@,
                    s.closed.push(s.open),
                ));
                open = Vec::new();
                assert(order::indices(open@) =~= Seq::empty());
            }
            let ghost before = decision_models(decisions@);
            decisions.push(decision);
            assert(decision_models(decisions@) =~= before.push(decision_model(decision)));
        }
        let ghost before = order::indices(open@);
        open.push(i);
        assert(order::indices(open@) =~= before.push(i as int));
        if user {
            last_user = Some(i);
        }
        proof {
            let after = plan_state(*input, order, n + 1);
            assert(after == plan_step(*input, order, s, n as int));
            assert(seq![i as int] =~= Seq::<int>::empty().push(i as int));
        }
        n += 1;
    }
    let ghost s = plan_state(*input, order, n as int);
    assert(s.open.len() == open@.len());
    if open.len() > 0 {
        let members = collect_members(v, &open);
        assert(members@.len() > 0);
        let document = make_document(input.session_id.as_str(), members);
        let ghost before = document_models(documents@);
        documents.push(document);
        assert(document_models(documents@) =~= before.push(document_model(document)));
        assert(document_models(documents@) =~= planned_documents(
            input.session_id@,
            v@,
            s.closed.push(s.open),
        ));
    }
    let whole: Option<String> = if v.len() > 0 {
        Some(session_document_id(input.session_id.as_str()))
    } else {
        None
    };
    Ok(
        EpisodeMaterializationReport {
            session_id: input.session_id.clone(),
            source_session_sha256: input.source_session_sha256.clone(),
            plan_input_sha256,
            episode_documents: documents,
            session_document_id: whole,
            boundary_decisions: decisions,
        },
    )
}

/// The embeddings that have to be compared for a plan: of each user message, in
/// order, with the user message before it.
pub open spec fn user_pairs(v: Seq<EpisodeInputMessage>, order: Seq<int>, n: int) -> (
    Seq<(int, int)>,
    Option<int>,
)
    decreases n,
{
    if n <= 0 {
        (Seq::empty(), None)
    } else {
        let (pairs, last) = user_pairs(v, order, n - 1);
        let i = order[n - 1];
        if v[i].member.role != EventRole::User {
            (pairs, last)
        } else {
            match last {
                Some(p) => (pairs.push((p, i)), Some(i)),
                None => (pairs, Some(i)),
            }
        }
    }
}

pub open spec fn pair_models(v: Seq<(usize, usize)>) -> Seq<(int, int)> {
    Seq::new(v.len(), |i: int| (v[i].0 as int, v[i].1 as int))
}

/// Lists the messages whose embeddings have to be compared for a plan.
pub fn list_comparisons(v: &Vec<EpisodeInputMessage>) -> (r: Vec<(usize, usize)>)
    ensures
        pair_models(r@) == user_pairs(v@, message_order(v@), v@.len() as int).0,
        forall|i: int|
            0 <= i < r@.len() ==> (#[trigger] r@[i]).0 < v@.len() && r@[i].1 < v@.len(),
{
    let places = sort_messages(v);
    let ghost order = message_order(v@);
    let mut out: Vec<(usize, usize)> = Vec::new();
    let mut last: Option<usize> = None;
    let mut n: usize = 0;
    assert(pair_models(out@) =~= Seq::empty());
    while n < places.len()
        invariant
            n <= places@.len(),
            places@.len() == v@.len(),
            order == order::indices(places@),
            forall|i: int| 0 <= i < places@.len() ==> #[trigger] places@[i] < v@.len(),
            last is Some ==> last->0 < v@.len(),
            forall|i: int|
                0 <= i < out@.len() ==> (#[trigger] out@[i]).0 < v@.len() && out@[i].1 < v@.len(),
            pair_models(out@) == user_pairs(v@, order, n as int).0,
            user_pairs(v@, order, n as int).1 == (match last {
                Some(u) => Some(u as int),
                None => None,
            }),
        decreases places.len() - n,
    {
        let i = places[n];
        assert(order[n as int] == i as int);
        if v[i].member.role == EventRole::User {
            if let Some(p) = last {
                let ghost before = pair_models(out@);
                out.push((p, i));
                assert(pair_models(out@) =~= before.push((p as int, i as int)));
            }
            last = Some(i);
        }
        n += 1;
    }
    out
}

/// All messages of a list of episodes, one episode after the other.
pub open spec fn all_messages(v: Seq<Seq<int>>) -> Seq<int>
    decreases v.len(),
{
    if v.len() == 0 {
        Seq::empty()
    } else {
        all_messages(v.drop_last()) + v.last()
    }
}

proof fn plan_keeps_order(input: EpisodePlanInput, order: Seq<int>, n: int)
    requires
        0 <= n <= order.len(),
    ensures
        all_messages(plan_state(input, order, n).closed) + plan_state(input, order, n).open
            == order.take(n),
        n > 0 ==> plan_state(input, order, n).open.len() > 0,
    decreases n,
{
    if n > 0 {
        plan_keeps_order(input, order, n - 1);
        let s = plan_state(input, order, n - 1);
        let t = plan_state(input, order, n);
        let i = order[n - 1];
        assert(order.take(n) =~= order.take(n - 1).push(i));
        if t.closed == s.closed {
            assert(all_messages(t.closed) + t.open =~= (all_messages(s.closed) + s.open).push(i));
        } else {
            assert(t.closed.drop_last() =~= s.closed);
            assert(all_messages(t.closed) + t.open =~= (all_messages(s.closed) + s.open).push(i));
        }
    } else {
        assert(order.take(0) =~= Seq::empty());
        assert(all_messages(plan_state(input, order, 0).closed) + plan_state(
            input,
            order,
            0,
        ).open =~= Seq::empty());
    }
}

/// Episodes part the messages of a session: one after the other they hold every
/// message once, in order.
pub proof fn episodes_part_the_messages(input: EpisodePlanInput)
    ensures
        all_messages(planned(final_state(input))) == message_order(input.messages@),
{
    let order = message_order(input.messages@);
    let keys = sort_keys(input.messages@);
    order::ordered_is_complete(keys, input.messages@.len() as int);
    assert(order.len() == input.messages@.len());
    plan_keeps_order(input, order, order.len() as int);
    let s = final_state(input);
    assert(order.take(order.len() as int) =~= order);
    if s.open.len() > 0 {
        assert(planned(s).drop_last() =~= s.closed);
    } else {
        assert(s.open =~= Seq::empty());
        assert(all_messages(s.closed) + s.open =~= all_messages(s.closed));
    }
}

proof fn plan_begins_with_users(input: EpisodePlanInput, order: Seq<int>, n: int)
    requires
        0 <= n <= order.len(),
    ensures
        ({
            let s = plan_state(input, order, n);
            &&& n > 0 ==> s.open.len() > 0
            &&& n > 0 && s.closed.len() == 0 ==> s.open[0] == order[0]
            &&& s.closed.len() > 0 ==> s.closed[0].len() > 0 && s.closed[0][0] == order[0]
            &&& s.closed.len() > 0 ==> input.messages@[s.open[0]].member.role == EventRole::User
            &&& forall|k: int|
                1 <= k < s.closed.len() ==> (#[trigger] s.closed[k]).len() > 0
                    && input.messages@[s.closed[k][0]].member.role == EventRole::User
        }),
    decreases n,
{
    if n > 0 {
        plan_begins_with_users(input, order, n - 1);
        let s = plan_state(input, order, n - 1);
        let t = plan_state(input, order, n);
        if t.closed == s.closed {
            if s.open.len() > 0 {
                assert(t.open[0] == s.open[0]);
            }
        } else {
            assert forall|k: int| 1 <= k < t.closed.len() implies (#[trigger] t.closed[k]).len() > 0
                && input.messages@[t.closed[k][0]].member.role == EventRole::User by {
                if k < s.closed.len() {
                    assert(t.closed[k] == s.closed[k]);
                } else {
                    assert(t.closed[k] == s.open);
                }
            }
            if s.closed.len() > 0 {
                assert(t.closed[0] == s.closed[0]);
            } else {
                assert(t.closed[0] == s.open);
            }
        }
    }
}

/// Only a user message begins an episode, but for the first one, which begins
/// with the first message.
pub proof fn episodes_begin_with_users(input: EpisodePlanInput, k: int)
    requires
        0 <= k < planned(final_state(input)).len(),
    ensures
        planned(final_state(input))[k].len() > 0,
        k == 0 ==> planned(final_state(input))[k][0] == message_order(input.messages@)[0],
        k > 0 ==> input.messages@[planned(final_state(input))[k][0]].member.role
            == EventRole::User,
{
    let order = message_order(input.messages@);
    order::ordered_is_complete(sort_keys(input.messages@), input.messages@.len() as int);
    plan_begins_with_users(input, order, order.len() as int);
    let s = final_state(input);
    let all = planned(s);
    if k < s.closed.len() {
        assert(all[k] == s.closed[k]);
    } else {
        assert(all[k] == s.open);
    }
}

/// A time gap above the threshold, an explicit change of topic, or the start of
/// the session begins an episode on its own; other signals only in pairs.
pub proof fn boundaries_need_a_reason(
    session_id: Seq<char>,
    gap_minutes: u64,
    watermark: Option<u64>,
    s: Situation,
)
    ensures
        ({
            let d = decision_for(session_id, gap_minutes, watermark, s);
            d.is_boundary <==> s.previous is None || d.gap == EpisodeGapState::GreaterThanThreshold
                || s.reasons.contains("explicit_topic_transition"@) || d.votes >= 2
        }),
{
    let gap = gap_of(s, gap_minutes);
    let hard = hard_signals(s, gap);
    reveal_with_fuel(true_count, 4);
    assert(hard[0].state == state_if(s.previous is None));
    assert(hard[1].state == gap_signal(gap));
    assert(hard[2].state == state_if(s.reasons.contains("explicit_topic_transition"@)));
}

/// What a plan keeps when a message is added behind all others.
pub open spec fn continues(input: EpisodePlanInput, more: EpisodePlanInput) -> bool {
    let v = input.messages@;
    &&& more.session_id@ == input.session_id@
    &&& more.gap_minutes == input.gap_minutes
    &&& more.consolidation_watermark == input.consolidation_watermark
    &&& more.messages@.len() == v.len() + 1
    &&& forall|i: int| 0 <= i < v.len() ==> #[trigger] more.messages@[i] == v[i]
    &&& forall|i: int|
        0 <= i < v.len() ==> (#[trigger] v[i]).member.sequence
            < more.messages@.last().member.sequence
    &&& forall|i: int|
        0 <= i < v.len() ==> reasons_for(more.suggestions@, (#[trigger] v[i]).member.event_id@)
            == reasons_for(input.suggestions@, v[i].member.event_id@)
}

proof fn order_continues(input: EpisodePlanInput, more: EpisodePlanInput)
    requires
        continues(input, more),
    ensures
        message_order(more.messages@) == message_order(input.messages@).push(
            input.messages@.len() as int,
        ),
{
    let n = input.messages@.len() as int;
    let keys = sort_keys(input.messages@);
    let all = sort_keys(more.messages@);
    assert forall|i: int| 0 <= i < n implies #[trigger] keys[i] == all[i] by {
        assert(more.messages@[i] == input.messages@[i]);
    }
    order::ordered_by_prefix(keys, all, n);
    order::ordered_is_complete(keys, n);
    let rest = order::ordered(all, n);
    if n > 0 {
        let last = rest[n - 1];
        assert(0 <= last < n);
        assert(input.messages@[last].member.sequence < more.messages@[n].member.sequence);
        assert(all[last] == keys[last]);
        assert(!order::part_lt(all[n][0], all[last][0]));
        assert(order::part_lt(all[last][0], all[n][0]));
        assert(!order::key_lt(all[n], all[last], 0));
    }
    assert(order::place(all, rest, n, n) == n);
    assert(rest.insert(n, n) =~= rest.push(n));
}

proof fn situations_continue(
    input: EpisodePlanInput,
    more: EpisodePlanInput,
    n: int,
    last_user: Option<int>,
)
    requires
        continues(input, more),
        0 <= n < input.messages@.len(),
        last_user matches Some(u) ==> 0 <= u < input.messages@.len(),
    ensures
        0 <= message_order(input.messages@)[n] < input.messages@.len(),
        message_order(more.messages@)[n] == message_order(input.messages@)[n],
        more.messages@[message_order(input.messages@)[n]]
            == input.messages@[message_order(input.messages@)[n]],
        situation_at(input, message_order(input.messages@), n, last_user) == situation_at(
            more,
            message_order(more.messages@),
            n,
            last_user,
        ),
{
    let order = message_order(input.messages@);
    let longer = message_order(more.messages@);
    order_continues(input, more);
    order::ordered_is_complete(sort_keys(input.messages@), input.messages@.len() as int);
    let i = order[n];
    assert(longer[n] == i);
    assert(0 <= i < input.messages@.len());
    assert(more.messages@[i] == input.messages@[i]);
    if n > 0 {
        let j = order[n - 1];
        assert(longer[n - 1] == j);
        assert(0 <= j < input.messages@.len());
        assert(more.messages@[j] == input.messages@[j]);
    }
    if let Some(u) = last_user {
        assert(more.messages@[u] == input.messages@[u]);
    }
}

/// Where a plan stands, but for its decisions.
pub open spec fn outline(s: PlanState) -> (Seq<Seq<int>>, Seq<int>, Option<int>) {
    (s.closed, s.open, s.last_user)
}

proof fn steps_agree(
    input: EpisodePlanInput,
    more: EpisodePlanInput,
    s: PlanState,
    t: PlanState,
    n: int,
)
    requires
        continues(input, more),
        0 <= n < input.messages@.len(),
        s.last_user matches Some(u) ==> 0 <= u < input.messages@.len(),
        outline(s) == outline(t),
    ensures
        ({
            let next = plan_step(input, message_order(input.messages@), s, n);
            &&& outline(next) == outline(plan_step(more, message_order(more.messages@), t, n))
            &&& next.last_user matches Some(u) ==> 0 <= u < input.messages@.len()
        }),
{
    situations_continue(input, more, n, s.last_user);
}

proof fn plan_continues(input: EpisodePlanInput, more: EpisodePlanInput, n: int)
    requires
        continues(input, more),
        0 <= n <= input.messages@.len(),
    ensures
        ({
            let s = plan_state(input, message_order(input.messages@), n);
            &&& outline(s) == outline(plan_state(more, message_order(more.messages@), n))
            &&& s.last_user matches Some(u) ==> 0 <= u < input.messages@.len()
        }),
    decreases n,
{
    if n > 0 {
        plan_continues(input, more, n - 1);
        steps_agree(
            input,
            more,
            plan_state(input, message_order(input.messages@), n - 1),
            plan_state(more, message_order(more.messages@), n - 1),
            n - 1,
        );
    }
}

proof fn plan_stays_in_range(input: EpisodePlanInput, order: Seq<int>, n: int)
    requires
        0 <= n <= order.len(),
        forall|i: int| 0 <= i < order.len() ==> 0 <= #[trigger] order[i] < input.messages@.len(),
    ensures
        ({
            let s = plan_state(input, order, n);
            &&& forall|q: int|
                0 <= q < s.open.len() ==> 0 <= #[trigger] s.open[q] < input.messages@.len()
            &&& forall|k: int, q: int|
                0 <= k < s.closed.len() && 0 <= q < s.closed[k].len() ==> 0
                    <= #[trigger] s.closed[k][q] < input.messages@.len()
        }),
    decreases n,
{
    if n > 0 {
        plan_stays_in_range(input, order, n - 1);
        let s = plan_state(input, order, n - 1);
        let t = plan_state(input, order, n);
        assert(0 <= order[n - 1] < input.messages@.len());
        assert forall|k: int, q: int|
            0 <= k < t.closed.len() && 0 <= q < t.closed[k].len() implies 0
            <= #[trigger] t.closed[k][q] < input.messages@.len() by {
            if k < s.closed.len() {
                assert(t.closed[k] == s.closed[k]);
            } else {
                assert(t.closed[k] == s.open);
            }
        }
    }
}

proof fn episode_members_in_range(input: EpisodePlanInput, n: int, k: int)
    requires
        n == input.messages@.len(),
        0 <= k < planned(final_state(input)).len(),
    ensures
        forall|q: int|
            0 <= q < planned(final_state(input))[k].len() ==> 0
                <= #[trigger] planned(final_state(input))[k][q] < n,
{
    let order = message_order(input.messages@);
    order::ordered_is_complete(sort_keys(input.messages@), n);
    plan_stays_in_range(input, order, n);
    let s = final_state(input);
    let all = planned(s);
    if k < s.closed.len() {
        assert(all[k] == s.closed[k]);
    } else {
        assert(all[k] == s.open);
    }
}

/// A message that is added to a session gives no episode a new name: every
/// episode keeps its place and its document, and all but the last keep their
/// members too.
pub proof fn added_messages_keep_episodes(input: EpisodePlanInput, more: EpisodePlanInput, k: int)
    requires
        continues(input, more),
        0 <= k < planned(final_state(input)).len(),
    ensures
        ({
            let before = planned(final_state(input));
            let after = planned(final_state(more));
            let old_documents = planned_documents(input.session_id@, input.messages@, before);
            let new_documents = planned_documents(more.session_id@, more.messages@, after);
            &&& after.len() >= before.len()
            &&& new_documents[k].document_id == old_documents[k].document_id
            &&& k + 1 < before.len() ==> new_documents[k] == old_documents[k]
        }),
{
    let n = input.messages@.len() as int;
    let order = message_order(input.messages@);
    let longer = message_order(more.messages@);
    order_continues(input, more);
    order::ordered_is_complete(sort_keys(input.messages@), n);
    plan_continues(input, more, n);
    plan_begins_with_users(input, order, n);
    plan_keeps_order(input, order, n);
    let s = final_state(input);
    let t = plan_state(more, longer, n);
    let u = final_state(more);
    assert(u == plan_step(more, longer, t, n));
    let before = planned(s);
    let after = planned(u);
    assert(n > 0) by {
        if n == 0 {
            assert(before.len() == 0);
        }
    }
    assert(s.open.len() > 0);
    assert(before =~= s.closed.push(s.open));
    let episode = before[k];
    if k < s.closed.len() {
        assert(after[k] == s.closed[k]);
    } else {
        assert(after[k].len() >= s.open.len() && after[k][0] == s.open[0]);
    }
    episodes_begin_with_users(input, k);
    assert(episode.len() > 0 && after[k].len() > 0 && after[k][0] == episode[0]);
    episode_members_in_range(input, n, k);
    assert(0 <= episode[0] < n);
    assert(more.messages@[episode[0]] == input.messages@[episode[0]]);
    if k + 1 < before.len() {
        assert(after[k] == episode);
        assert(members_at(more.messages@, episode) =~= members_at(input.messages@, episode)) by {
            assert forall|q: int| 0 <= q < episode.len() implies members_at(
                more.messages@,
                episode,
            )[q] == members_at(input.messages@, episode)[q] by {
                assert(0 <= episode[q] < n);
                assert(more.messages@[episode[q]] == input.messages@[episode[q]]);
            }
        }
    }
}

proof fn shared_is_a_meeting(v: Seq<Seq<char>>, list: Seq<Seq<char>>, n: int)
    requires
        v.no_duplicates(),
        0 <= n <= v.len(),
    ensures
        v.take(n).to_set().finite(),
        shared_count(v, list, n) == v.take(n).to_set().intersect(list.to_set()).len(),
    decreases n,
{
    let part = v.take(n);
    vstd::seq_lib::seq_to_set_is_finite(part);
    let now = part.to_set().intersect(list.to_set());
    if n == 0 {
        assert(now =~= Set::empty());
    } else {
        shared_is_a_meeting(v, list, n - 1);
        let x = v[n - 1];
        let short = v.take(n - 1);
        assert(!short.contains(x));
        assert forall|y: Seq<char>| part.contains(y) <==> short.contains(y) || y == x by {
            if part.contains(y) {
                let i = choose|i: int| 0 <= i < part.len() && part[i] == y;
                if i < n - 1 {
                    assert(short[i] == y);
                }
            }
            if short.contains(y) {
                let i = choose|i: int| 0 <= i < short.len() && short[i] == y;
                assert(part[i] == y);
            }
            assert(part[n - 1] == x);
        }
        if list.contains(x) {
            assert(now =~= short.to_set().intersect(list.to_set()).insert(x));
        } else {
            assert(now =~= short.to_set().intersect(list.to_set()));
        }
    }
}

/// The entities that a message names, as a set.
pub open spec fn named_entities(m: EpisodeInputMessage) -> Set<Seq<char>> {
    text::texts(m.resolved_entity_ids@).to_set()
}

/// Entities vote for a boundary exactly where both messages name some and at most
/// half of those that either names are named by both. Messages that name the same
/// entities never give that vote, those that share none always do, and it does
/// not matter which message comes first.
pub proof fn entities_vote_where_they_part(p: EpisodeInputMessage, c: EpisodeInputMessage)
    ensures
        ({
            let vote = entity_signal(Some(p), c);
            let a = named_entities(p);
            let b = named_entities(c);
            &&& a.finite() && b.finite()
            &&& vote == EpisodeSignalState::True <==> a.len() > 0 && b.len() > 0 && 2
                * a.intersect(b).len() <= a.union(b).len()
            &&& vote == EpisodeSignalState::Abstain <==> a.len() == 0 || b.len() == 0
            &&& a == b ==> vote != EpisodeSignalState::True
            &&& a.len() > 0 && a == b ==> vote == EpisodeSignalState::False
            &&& a.len() > 0 && b.len() > 0 && a.disjoint(b) ==> vote == EpisodeSignalState::True
            &&& vote == entity_signal(Some(c), p)
        }),
        entity_signal(None, c) == EpisodeSignalState::Abstain,
{
    let a = named_entities(p);
    let b = named_entities(c);
    let u = entities_of(p);
    let w = entities_of(c);
    text::distinct_sorted_is_a_set(text::texts(p.resolved_entity_ids@));
    text::distinct_sorted_is_a_set(text::texts(c.resolved_entity_ids@));
    shared_is_a_meeting(u, w, u.len() as int);
    shared_is_a_meeting(w, u, w.len() as int);
    assert(u.take(u.len() as int) =~= u);
    assert(w.take(w.len() as int) =~= w);
    assert(a.intersect(b) =~= b.intersect(a));
    vstd::set_lib::lemma_set_intersect_union_lens(a, b);
    if a == b {
        assert(a.intersect(b) =~= a);
    }
    if a.disjoint(b) {
        assert(a.intersect(b) =~= Set::empty());
    }
}

/// Without the start of a session, a long gap and an explicit change of topic, an
/// episode begins exactly where two of three hold: the entities part, the
/// embeddings lie below the threshold, the model saw the topic shift.
pub proof fn soft_boundaries_need_two_votes(
    session_id: Seq<char>,
    gap_minutes: u64,
    watermark: Option<u64>,
    s: Situation,
)
    ensures
        ({
            let d = decision_for(session_id, gap_minutes, watermark, s);
            let parted = s.previous_user matches Some(p) && named_entities(p).len() > 0
                && named_entities(s.current).len() > 0 && 2 * named_entities(p).intersect(
                named_entities(s.current),
            ).len() <= named_entities(p).union(named_entities(s.current)).len();
            let apart = s.previous_user matches Some(p) && comparable_embeddings(
                encoding::embedding_bits(p.embedding),
                encoding::embedding_bits(s.current.embedding),
            ) && s.current.cosine == CosineVerdict::BelowThreshold;
            let told = s.reasons.contains("model_topic_shift"@);
            let hard = s.previous is None || s.reasons.contains("explicit_topic_transition"@)
                || d.gap == EpisodeGapState::GreaterThanThreshold;
            &&& !hard ==> (d.is_boundary <==> (parted && apart) || (parted && told) || (apart
                && told))
            &&& hard ==> d.is_boundary
            &&& d.before_event_id == s.current.member.event_id@
        }),
{
    boundaries_need_a_reason(session_id, gap_minutes, watermark, s);
    let soft = soft_signals(s, watermark);
    reveal_with_fuel(true_count, 4);
    assert(soft[0].state == entity_signal(s.previous_user, s.current));
    assert(soft[1].state == embedding_signal(s.previous_user, s.current));
    assert(soft[2].state == model_signal(s.reasons, s.current.member.sequence, watermark));
    if s.previous_user is Some {
        entities_vote_where_they_part(s.previous_user->0, s.current);
    }
}

/// A gap is greater than the threshold exactly where both times can be read and
/// more than that many minutes lie between them, and not where they are exactly
/// as many.
pub proof fn gaps_are_counted_in_minutes(
    s: Situation,
    gap_minutes: u64,
)
    requires
        gap_minutes * 60 <= i64::MAX,
    ensures
        gap_of(s, gap_minutes) == EpisodeGapState::GreaterThanThreshold <==> (s.previous matches
            Some(p) && moment::rfc3339_seconds(p.created_at@, s.current.created_at@) matches
            Some(n) && n > gap_minutes * 60),
        gap_of(s, gap_minutes) == EpisodeGapState::EqualToThreshold <==> (s.previous matches
            Some(p) && moment::rfc3339_seconds(p.created_at@, s.current.created_at@) matches
            Some(n) && n == gap_minutes * 60),
        gap_of(s, gap_minutes) == EpisodeGapState::InvalidOrOutOfOrder <==> (s.previous matches
            Some(p) && moment::rfc3339_seconds(p.created_at@, s.current.created_at@) matches
            Some(n) && n < 0),
        gap_of(s, gap_minutes) == EpisodeGapState::MissingTimestamp <==> (s.previous matches
            Some(p) && moment::rfc3339_seconds(p.created_at@, s.current.created_at@) is None),
        gap_of(s, gap_minutes) == EpisodeGapState::FirstMessage <==> s.previous is None,
{
}

/// Whether a message is the first of an episode.
pub open spec fn begins(episodes: Seq<Seq<int>>, i: int) -> bool {
    exists|k: int|
        0 <= k < episodes.len() && (#[trigger] episodes[k]).len() > 0 && episodes[k][0] == i
}

/// Whether a place of an order holds the last user message before another place.
pub open spec fn last_user_before(
    v: Seq<EpisodeInputMessage>,
    order: Seq<int>,
    n: int,
    p: Option<int>,
) -> bool {
    match p {
        Some(p) => 0 <= p < n && v[order[p]].member.role == EventRole::User && forall|j: int|
            p < j < n ==> v[#[trigger] order[j]].member.role != EventRole::User,
        None => forall|j: int| 0 <= j < n ==> v[#[trigger] order[j]].member.role != EventRole::User,
    }
}

proof fn plan_keeps_the_last_user(input: EpisodePlanInput, order: Seq<int>, n: int, p: Option<int>)
    requires
        0 <= n <= order.len(),
        last_user_before(input.messages@, order, n, p),
    ensures
        plan_state(input, order, n).last_user == (match p {
            Some(p) => Some(order[p]),
            None => None,
        }),
    decreases n,
{
    if n > 0 {
        let user = input.messages@[order[n - 1]].member.role == EventRole::User;
        if !user {
            plan_keeps_the_last_user(input, order, n - 1, p);
        } else {
            assert(p is Some && p->0 == n - 1);
        }
    }
}

/// Whether all first messages of a state's episodes stand among the first `n` of
/// the order.
spec fn begun_within(s: PlanState, order: Seq<int>, n: int) -> bool {
    &&& n > 0 ==> s.open.len() > 0
    &&& n <= 0 ==> s.open.len() == 0
    &&& forall|k: int|
        0 <= k < planned(s).len() ==> (#[trigger] planned(s)[k]).len() > 0 && exists|j: int|
            0 <= j < n && #[trigger] order[j] == planned(s)[k][0]
}

proof fn plan_begins_within(input: EpisodePlanInput, order: Seq<int>, n: int)
    requires
        0 <= n <= order.len(),
    ensures
        begun_within(plan_state(input, order, n), order, n),
    decreases n,
{
    if n > 0 {
        plan_begins_within(input, order, n - 1);
        let s = plan_state(input, order, n - 1);
        let t = plan_state(input, order, n);
        let a = planned(s);
        let b = planned(t);
        assert forall|k: int| 0 <= k < b.len() implies (#[trigger] b[k]).len() > 0 && exists|j: int|
            0 <= j < n && #[trigger] order[j] == b[k][0] by {
            if k < a.len() {
                assert(a[k].len() > 0);
                assert(b[k][0] == a[k][0]);
                let j = choose|j: int| 0 <= j < n - 1 && #[trigger] order[j] == a[k][0];
                assert(order[j] == b[k][0]);
            } else {
                assert(b[k][0] == order[n - 1]);
            }
        }
    }
}

proof fn begun_episodes_stay(input: EpisodePlanInput, order: Seq<int>, n: int, m: int)
    requires
        0 <= n < m <= order.len(),
        order.no_duplicates(),
    ensures
        begins(planned(plan_state(input, order, m)), order[n]) <==> begins(
            planned(plan_state(input, order, n + 1)),
            order[n],
        ),
    decreases m,
{
    if m > n + 1 {
        begun_episodes_stay(input, order, n, m - 1);
        plan_begins_within(input, order, m - 1);
        let a = planned(plan_state(input, order, m - 1));
        let b = planned(plan_state(input, order, m));
        assert(order[m - 1] != order[n]);
        if begins(a, order[n]) {
            let k = choose|k: int|
                0 <= k < a.len() && (#[trigger] a[k]).len() > 0 && a[k][0] == order[n];
            assert(b[k].len() > 0 && b[k][0] == order[n]);
        }
        if begins(b, order[n]) {
            let k = choose|k: int|
                0 <= k < b.len() && (#[trigger] b[k]).len() > 0 && b[k][0] == order[n];
            assert(k < a.len());
            assert(a[k].len() > 0 && a[k][0] == order[n]);
        }
    }
}

proof fn new_episodes_begin(a: Seq<Seq<int>>, i: int)
    ensures
        begins(a.push(seq![i]), i),
{
    let b = a.push(seq![i]);
    assert(b[a.len() as int].len() > 0 && b[a.len() as int][0] == i);
}

proof fn longer_episodes_begin_as_before(s: PlanState, order: Seq<int>, n: int)
    requires
        0 < n < order.len(),
        order.no_duplicates(),
        begun_within(s, order, n),
    ensures
        !begins(s.closed.push(s.open.push(order[n])), order[n]),
{
    let a = planned(s);
    let b = s.closed.push(s.open.push(order[n]));
    if begins(b, order[n]) {
        let k = choose|k: int|
            0 <= k < b.len() && (#[trigger] b[k]).len() > 0 && b[k][0] == order[n];
        assert(a[k].len() > 0 && a[k][0] == b[k][0]);
        let j = choose|j: int| 0 <= j < n && #[trigger] order[j] == a[k][0];
        assert(order[j] == order[n]);
    }
}

proof fn steps_follow_decisions(input: EpisodePlanInput, order: Seq<int>, s: PlanState, n: int)
    requires
        s.open.len() > 0,
        input.messages@[order[n]].member.role == EventRole::User,
    ensures
        ({
            let boundary = decision_for(
                input.session_id@,
                input.gap_minutes,
                input.consolidation_watermark,
                situation_at(input, order, n, s.last_user),
            ).is_boundary;
            planned(plan_step(input, order, s, n)) == (if boundary {
                planned(s).push(seq![order[n]])
            } else {
                s.closed.push(s.open.push(order[n]))
            })
        }),
{
}

/// What is decided before the message at a place, given the last user message.
#[verifier::opaque]
spec fn decided(input: EpisodePlanInput, s: Situation) -> bool {
    decision_for(input.session_id@, input.gap_minutes, input.consolidation_watermark, s).is_boundary
}

proof fn steps_follow_what_is_decided(
    input: EpisodePlanInput,
    order: Seq<int>,
    s: PlanState,
    n: int,
)
    requires
        s.open.len() > 0,
        input.messages@[order[n]].member.role == EventRole::User,
    ensures
        planned(plan_step(input, order, s, n)) == (if decided(
            input,
            situation_at(input, order, n, s.last_user),
        ) {
            planned(s).push(seq![order[n]])
        } else {
            s.closed.push(s.open.push(order[n]))
        }),
{
    reveal(decided);
    steps_follow_decisions(input, order, s, n);
}

proof fn next_state(input: EpisodePlanInput, order: Seq<int>, n: int)
    requires
        0 <= n,
    ensures
        plan_state(input, order, n + 1) == plan_step(input, order, plan_state(input, order, n), n),
{
}

proof fn episodes_begin_with_the_step(input: EpisodePlanInput, order: Seq<int>, n: int)
    requires
        0 < n < order.len(),
        order.no_duplicates(),
        input.messages@[order[n]].member.role == EventRole::User,
    ensures
        begins(planned(plan_state(input, order, order.len() as int)), order[n]) <==> decided(
            input,
            situation_at(input, order, n, plan_state(input, order, n).last_user),
        ),
{
    let s = plan_state(input, order, n);
    plan_begins_within(input, order, n);
    begun_episodes_stay(input, order, n, order.len() as int);
    next_state(input, order, n);
    steps_follow_what_is_decided(input, order, s, n);
    new_episodes_begin(planned(s), order[n]);
    longer_episodes_begin_as_before(s, order, n);
}

/// A user message begins an episode exactly where it is decided so, and what is
/// decided on is the message just before it and the last user message before it.
pub proof fn episodes_begin_where_decided(input: EpisodePlanInput, n: int, p: Option<int>)
    requires
        0 < n < input.messages@.len(),
        input.messages@[message_order(input.messages@)[n]].member.role == EventRole::User,
        last_user_before(input.messages@, message_order(input.messages@), n, p),
    ensures
        ({
            let v = input.messages@;
            let order = message_order(v);
            let s = Situation {
                current: v[order[n]],
                previous: Some(v[order[n - 1]]),
                previous_user: match p {
                    Some(p) => Some(v[order[p]]),
                    None => None,
                },
                reasons: reasons_for(input.suggestions@, v[order[n]].member.event_id@),
            };
            begins(planned(final_state(input)), order[n]) <==> decision_for(
                input.session_id@,
                input.gap_minutes,
                input.consolidation_watermark,
                s,
            ).is_boundary
        }),
{
    let v = input.messages@;
    let order = message_order(v);
    order::ordered_is_complete(sort_keys(v), v.len() as int);
    plan_keeps_the_last_user(input, order, n, p);
    episodes_begin_with_the_step(input, order, n);
    reveal(decided);
}

/// Whether a pair holds two user messages of an order with none between them.
pub open spec fn neighbouring_users(
    v: Seq<EpisodeInputMessage>,
    order: Seq<int>,
    n: int,
    pair: (int, int),
) -> bool {
    exists|a: int, b: int|
        0 <= a < b < n && #[trigger] order[a] == pair.0 && #[trigger] order[b] == pair.1
            && v[order[b]].member.role == EventRole::User && last_user_before(v, order, b, Some(a))
}

/// The embeddings that are compared belong to two user messages with none between
/// them.
pub proof fn compared_users_are_neighbours(v: Seq<EpisodeInputMessage>, order: Seq<int>, n: int)
    requires
        0 <= n <= order.len(),
    ensures
        forall|k: int|
            0 <= k < user_pairs(v, order, n).0.len() ==> neighbouring_users(
                v,
                order,
                n,
                #[trigger] user_pairs(v, order, n).0[k],
            ),
        forall|a: int, b: int|
            0 <= a < b < n && v[#[trigger] order[b]].member.role == EventRole::User
                && #[trigger] last_user_before(v, order, b, Some(a)) ==> user_pairs(
                v,
                order,
                n,
            ).0.contains((order[a], order[b])),
        user_pairs(v, order, n).1 matches Some(i) ==> exists|a: int|
            #[trigger] order[a] == i && last_user_before(v, order, n, Some(a)),
        user_pairs(v, order, n).1 is None ==> last_user_before(v, order, n, None),
    decreases n,
{
    if n > 0 {
        compared_users_are_neighbours(v, order, n - 1);
        let (pairs, last) = user_pairs(v, order, n - 1);
        let (now, _) = user_pairs(v, order, n);
        let i = order[n - 1];
        let user = v[i].member.role == EventRole::User;
        if user {
            assert(last_user_before(v, order, n, Some(n - 1)));
        } else if last is Some {
            let a = choose|a: int|
                #[trigger] order[a] == last->0 && last_user_before(v, order, n - 1, Some(a));
            assert(last_user_before(v, order, n, Some(a)));
        }
        assert forall|k: int| 0 <= k < now.len() implies neighbouring_users(
            v,
            order,
            n,
            #[trigger] now[k],
        ) by {
            if k < pairs.len() {
                assert(now[k] == pairs[k]);
                assert(neighbouring_users(v, order, n - 1, pairs[k]));
                let (a, b) = choose|a: int, b: int|
                    0 <= a < b < n - 1 && #[trigger] order[a] == pairs[k].0 && #[trigger] order[b]
                        == pairs[k].1 && v[order[b]].member.role == EventRole::User
                        && last_user_before(v, order, b, Some(a));
                assert(order[a] == now[k].0 && order[b] == now[k].1);
            } else {
                let a = choose|a: int|
                    #[trigger] order[a] == last->0 && last_user_before(v, order, n - 1, Some(a));
                assert(order[a] == now[k].0 && order[n - 1] == now[k].1);
            }
        }
        assert forall|a: int, b: int|
            0 <= a < b < n && v[#[trigger] order[b]].member.role == EventRole::User
                && #[trigger] last_user_before(v, order, b, Some(a)) implies now.contains(
            (order[a], order[b]),
        ) by {
            if b < n - 1 {
                assert(pairs.contains((order[a], order[b])));
                let k = choose|k: int| 0 <= k < pairs.len() && pairs[k] == (order[a], order[b]);
                assert(now[k] == (order[a], order[b]));
            } else {
                if last is None {
                    assert(v[order[a]].member.role != EventRole::User);
                }
                let c = choose|c: int|
                    #[trigger] order[c] == last->0 && last_user_before(v, order, n - 1, Some(c));
                assert(c == a) by {
                    if c < a {
                        assert(v[order[a]].member.role != EventRole::User);
                    } else if a < c {
                        assert(v[order[c]].member.role != EventRole::User);
                    }
                }
                assert(now[pairs.len() as int] == (order[a], order[b]));
            }
        }
    }
}

} // verus!
