//! The sessions of a benchmark as they are stored, and a look at those that a
//! workspace holds already.

use vstd::prelude::*;
use vstd::string::*;

use crate::evaluation::{self, CanonicalSession, CanonicalTurn, StoredModel, TurnModel};
use crate::knowledge::KnowledgeTrace;
use crate::model::{
    BudgetAllocationTrace, BudgetConfig, BudgetTokenBreakdown, ContextTrace, ProvenanceQuality,
    QueryKind, RetrievalConfig, RetrievalTrace, Session, SessionStatus, TokenUsage, Turn,
};
use crate::text::{self, text_eq};
use crate::turn;

verus! {

/// A trace that says no more than that its turn was made up.
pub open spec fn made_up_trace(t: ContextTrace) -> bool {
    &&& t.provenance_quality == ProvenanceQuality::Inferred
    &&& turn::blank_trace(ContextTrace { provenance_quality: ProvenanceQuality::Exact, ..t })
}

pub open spec fn nothing_used(u: TokenUsage) -> bool {
    u == (TokenUsage {
        input_tokens: Some(0u64),
        output_tokens: Some(0u64),
        total_tokens: Some(0u64),
    })
}

/// Whether a turn is what a benchmark stores of an exchange.
pub open spec fn same_turn(t: Turn, c: TurnModel) -> bool {
    &&& t.id@ == c.id
    &&& t.created_at@ == c.occurred_at
    &&& t.updated_at@ == c.occurred_at
    &&& t.status == c.status
    &&& t.user_content@ == c.user_content
    &&& t.assistant_content@ == c.assistant_content
    &&& t.thinking@.len() == 0
    &&& nothing_used(t.usage)
    &&& nothing_used(t.probe_usage)
    &&& made_up_trace(t.context_trace)
    &&& t.request_started_at is None
    &&& t.done_reason is None
    &&& t.error is None
}

/// The budget of a stored session, with thresholds that were worked out for it.
pub open spec fn budget_of(c: StoredModel, thresholds: BudgetConfig) -> BudgetConfig {
    BudgetConfig {
        context_window: c.context_window,
        max_output_tokens: c.max_output_tokens,
        safety_margin_tokens: c.safety_margin_tokens,
        ..thresholds
    }
}

pub open spec fn retrieval_of(c: StoredModel) -> RetrievalConfig {
    RetrievalConfig {
        candidate_limit: c.candidate_limit,
        max_selected: c.max_selected,
        evidence_char_budget: 4096,
        expansion_char_budget: 2048,
    }
}

/// Whether a session is what a benchmark stores. When it was last written and
/// whether it is paused make no difference.
pub open spec fn same_source(s: Session, c: StoredModel, thresholds: BudgetConfig) -> bool {
    &&& s.id@ == c.id
    &&& s.title@ == c.title
    &&& s.created_at@ == c.occurred_at
    &&& s.model@ == c.model
    &&& s.ollama_host@ == c.ollama_host
    &&& s.ai_name@ == c.ai_name
    &&& s.system_prompt@.len() == 0
    &&& !s.think
    &&& s.budget == budget_of(c, thresholds)
    &&& s.retrieval == retrieval_of(c)
    &&& s.active_context_start_index == 0
    &&& s.turns@.len() == c.turns.len()
    &&& forall|i: int| 0 <= i < c.turns.len() ==> same_turn(#[trigger] s.turns@[i], c.turns[i])
}

fn is_zero(u: &TokenUsage) -> (r: bool)
    ensures
        r == nothing_used(*u),
{
    u.input_tokens == Some(0u64) && u.output_tokens == Some(0u64) && u.total_tokens == Some(0u64)
}

fn is_nothing(b: &BudgetTokenBreakdown) -> (r: bool)
    ensures
        r == b.is_zero(),
{
    b.recent_history == 0 && b.exact_or_state == 0 && b.episode == 0 && b.graph == 0
}

fn is_untouched(b: &BudgetAllocationTrace) -> (r: bool)
    ensures
        r == b.untouched(),
{
    let shares = b.recent_history_percent == 0 && b.exact_or_state_percent == 0
        && b.episode_percent == 0 && b.graph_percent == 0;
    let tokens = b.mandatory_input_tokens == 0 && b.available_input_tokens == 0
        && b.final_input_tokens.is_none() && is_nothing(&b.initial_tokens) && is_nothing(
        &b.actual_tokens,
    );
    let lists = b.reflow.len() == 0 && b.exclusions.len() == 0 && b.probes.len() == 0
        && b.stage_latencies.len() == 0;
    b.query_kind == QueryKind::GeneralSemantic && shares && tokens && lists
}

fn searched_nothing(t: &RetrievalTrace) -> (r: bool)
    ensures
        r == t.not_run(),
{
    let defaults = RetrievalConfig {
        candidate_limit: 64,
        max_selected: 8,
        evidence_char_budget: 4096,
        expansion_char_budget: 2048,
    };
    let outcome = text_eq(t.status.as_str(), "not_run") && t.current_query_event_id.as_str().unicode_len()
        == 0 && t.error.is_none() && t.query_kind == QueryKind::GeneralSemantic
        && t.warnings.len() == 0;
    let time = t.deadline_ms == 0 && !t.deadline_exceeded && !t.fast_fallback_used
        && t.fallback_reason.is_none() && t.elapsed_ms == 0;
    let lists = t.channels.len() == 0 && t.candidates.len() == 0 && t.fusion_candidates.len() == 0
        && t.state_selections.len() == 0 && t.graph_paths.len() == 0 && t.selected_evidence.len()
        == 0;
    outcome && time && lists && t.config == defaults && is_untouched(&t.budget_allocation)
}

fn looked_nothing_up(t: &KnowledgeTrace) -> (r: bool)
    ensures
        r == t.not_run(),
{
    let limits = t.candidate_limit == 64 && t.max_selected == 4 && t.evidence_char_budget == 3200;
    let lists = t.query_terms.len() == 0 && t.candidates.len() == 0 && t.selected_evidence.len()
        == 0 && t.warnings.len() == 0;
    text_eq(t.status.as_str(), "not_run") && limits && lists && t.injected_message.is_none()
        && t.error.is_none()
}

fn is_made_up(t: &ContextTrace) -> (r: bool)
    ensures
        r == made_up_trace(*t),
{
    let lists = t.included_turn_ids.len() == 0 && t.omitted_turn_ids.len() == 0
        && t.context_items.len() == 0;
    let counts = t.estimated_upper_tokens.is_none() && t.exact_input_tokens.is_none()
        && t.input_budget == 0 && t.active_context_start_before == 0
        && t.active_context_start_after == 0;
    let request = t.context_sha256.is_none() && t.request.is_none()
        && t.identity_instruction.is_none() && !t.untrusted_history_wrapped;
    t.provenance_quality == ProvenanceQuality::Inferred && text_eq(t.decision.as_str(), "pending")
        && lists && counts && request && searched_nothing(&t.retrieval) && looked_nothing_up(
        &t.knowledge,
    )
}

fn is_same_turn(t: &Turn, c: &CanonicalTurn) -> (r: bool)
    ensures
        r == same_turn(*t, evaluation::turn_model(*c)),
{
    let texts = text_eq(t.id.as_str(), c.id.as_str()) && text_eq(
        t.created_at.as_str(),
        c.occurred_at.as_str(),
    ) && text_eq(t.updated_at.as_str(), c.occurred_at.as_str()) && text_eq(
        t.user_content.as_str(),
        c.user_content.as_str(),
    ) && text_eq(t.assistant_content.as_str(), c.assistant_content.as_str())
        && t.thinking.as_str().unicode_len() == 0;
    let outcome = t.request_started_at.is_none() && t.done_reason.is_none() && t.error.is_none();
    texts && t.status == c.status && outcome && is_zero(&t.usage) && is_zero(&t.probe_usage)
        && is_made_up(&t.context_trace)
}

/// Whether a stored session still is what a benchmark stores.
pub fn same_canonical_source(
    actual: &Session,
    expected: &CanonicalSession,
    thresholds: &BudgetConfig,
) -> (r: bool)
    ensures
        r == same_source(*actual, evaluation::stored_model(*expected), *thresholds),
{
    let ghost want = evaluation::stored_model(*expected);
    let texts = text_eq(actual.id.as_str(), expected.id.as_str()) && text_eq(
        actual.title.as_str(),
        expected.title.as_str(),
    ) && text_eq(actual.created_at.as_str(), expected.occurred_at.as_str()) && text_eq(
        actual.model.as_str(),
        expected.model.as_str(),
    ) && text_eq(actual.ollama_host.as_str(), expected.ollama_host.as_str()) && text_eq(
        actual.ai_name.as_str(),
        expected.ai_name.as_str(),
    ) && actual.system_prompt.as_str().unicode_len() == 0;
    let settings = !actual.think && actual.active_context_start_index == 0 && actual.budget
        == limits_of(expected, thresholds) && actual.retrieval == choice_of(expected);
    if !texts || !settings || actual.turns.len() != expected.turns.len() {
        return false;
    }
    let mut i: usize = 0;
    while i < expected.turns.len()
        invariant
            i <= expected.turns@.len(),
            actual.turns@.len() == expected.turns@.len(),
            want.turns == evaluation::turn_models(expected.turns@),
            forall|k: int| 0 <= k < i ==> same_turn(#[trigger] actual.turns@[k], want.turns[k]),
        decreases expected.turns.len() - i,
    {
        assert(want.turns[i as int] == evaluation::turn_model(expected.turns@[i as int]));
        if !is_same_turn(&actual.turns[i], &expected.turns[i]) {
            assert(!same_turn(actual.turns@[i as int], want.turns[i as int]));
            return false;
        }
        i += 1;
    }
    true
}

fn limits_of(c: &CanonicalSession, thresholds: &BudgetConfig) -> (r: BudgetConfig)
    ensures
        r == budget_of(evaluation::stored_model(*c), *thresholds),
{
    BudgetConfig {
        context_window: c.context_window,
        max_output_tokens: c.max_output_tokens,
        safety_margin_tokens: c.safety_margin_tokens,
        probe_threshold: thresholds.probe_threshold,
        warning_threshold: thresholds.warning_threshold,
        trim_target: thresholds.trim_target,
    }
}

fn choice_of(c: &CanonicalSession) -> (r: RetrievalConfig)
    ensures
        r == retrieval_of(evaluation::stored_model(*c)),
{
    RetrievalConfig {
        candidate_limit: c.candidate_limit,
        max_selected: c.max_selected,
        evidence_char_budget: 4096,
        expansion_char_budget: 2048,
    }
}

fn turn_of(c: &CanonicalTurn) -> (t: Turn)
    ensures
        same_turn(t, evaluation::turn_model(*c)),
{
    let mut t = Turn::pending(c.id.as_str(), c.user_content.as_str(), c.occurred_at.as_str());
    t.status = c.status;
    t.assistant_content = c.assistant_content.clone();
    t.usage = TokenUsage::zero();
    t.probe_usage = TokenUsage::zero();
    t.context_trace.provenance_quality = ProvenanceQuality::Inferred;
    t
}

/// The session that a benchmark stores.
pub fn session_of(c: &CanonicalSession, thresholds: &BudgetConfig) -> (s: Session)
    ensures
        same_source(s, evaluation::stored_model(*c), *thresholds),
        s.updated_at@ == c.occurred_at@,
        s.status == SessionStatus::Active,
{
    let ghost want = evaluation::stored_model(*c);
    let mut turns: Vec<Turn> = Vec::new();
    let mut i: usize = 0;
    while i < c.turns.len()
        invariant
            i <= c.turns@.len(),
            turns@.len() == i,
            want.turns == evaluation::turn_models(c.turns@),
            forall|k: int| 0 <= k < i ==> same_turn(#[trigger] turns@[k], want.turns[k]),
        decreases c.turns.len() - i,
    {
        assert(want.turns[i as int] == evaluation::turn_model(c.turns@[i as int]));
        turns.push(turn_of(&c.turns[i]));
        i += 1;
    }
    Session {
        id: c.id.clone(),
        title: c.title.clone(),
        created_at: c.occurred_at.clone(),
        updated_at: c.occurred_at.clone(),
        model: c.model.clone(),
        ollama_host: c.ollama_host.clone(),
        ai_name: c.ai_name.clone(),
        system_prompt: String::new(),
        think: false,
        status: SessionStatus::Active,
        budget: limits_of(c, thresholds),
        retrieval: choice_of(c),
        active_context_start_index: 0,
        turns,
    }
}

/// The place of a session by its id, from `i` on.
pub open spec fn stored_place(v: Seq<StoredModel>, id: Seq<char>, i: int) -> Option<int>
    decreases v.len() - i,
{
    if i < 0 || i >= v.len() {
        None
    } else if v[i].id == id {
        Some(i)
    } else {
        stored_place(v, id, i + 1)
    }
}

fn find_stored(v: &Vec<CanonicalSession>, id: &str) -> (r: Option<usize>)
    ensures
        match r {
            Some(p) => p < v@.len() && stored_place(evaluation::stored_models(v@), id@, 0) == Some(
                p as int,
            ),
            None => stored_place(evaluation::stored_models(v@), id@, 0) is None,
        },
{
    let ghost all = evaluation::stored_models(v@);
    let mut i: usize = 0;
    while i < v.len()
        invariant
            i <= v@.len(),
            all == evaluation::stored_models(v@),
            stored_place(all, id@, 0) == stored_place(all, id@, i as int),
        decreases v.len() - i,
    {
        assert(all[i as int].id == v@[i as int].id@);
        if text_eq(v[i].id.as_str(), id) {
            return Some(i);
        }
        i += 1;
    }
    None
}

pub open spec fn is_expected(s: Session, expected: Seq<StoredModel>) -> bool {
    stored_place(expected, s.id@, 0) is Some
}

/// Whether a session that was found is still what the benchmark stores.
pub open spec fn is_canonical(
    s: Session,
    expected: Seq<StoredModel>,
    thresholds: BudgetConfig,
) -> bool {
    stored_place(expected, s.id@, 0) matches Some(p) && same_source(s, expected[p], thresholds)
}

/// What is wrong with the sessions from `i` on.
pub open spec fn altered_from(
    v: Seq<Session>,
    expected: Seq<StoredModel>,
    thresholds: BudgetConfig,
    i: int,
) -> Option<Seq<char>>
    decreases v.len() - i,
{
    if i < 0 || i >= v.len() {
        None
    } else if !is_canonical(v[i], expected, thresholds) {
        Some("persisted evaluation session differs from canonical source: "@ + v[i].id@)
    } else {
        altered_from(v, expected, thresholds, i + 1)
    }
}

/// What is wrong with a workspace that was found.
pub open spec fn workspace_fault(
    v: Seq<Session>,
    expected: Seq<StoredModel>,
    thresholds: BudgetConfig,
) -> Option<Seq<char>> {
    if exists|i: int| 0 <= i < v.len() && !is_expected(#[trigger] v[i], expected) {
        Some("evaluation workspace contains unexpected persisted session data"@)
    } else {
        altered_from(v, expected, thresholds, 0)
    }
}

/// Checks that a workspace holds nothing but what a benchmark stores.
pub fn check_workspace(
    existing: &Vec<Session>,
    expected: &Vec<CanonicalSession>,
    thresholds: &BudgetConfig,
) -> (r: Result<(), String>)
    ensures
        match r {
            Ok(_) => workspace_fault(
                existing@,
                evaluation::stored_models(expected@),
                *thresholds,
            ) is None,
            Err(e) => workspace_fault(
                existing@,
                evaluation::stored_models(expected@),
                *thresholds,
            ) == Some(e@),
        },
{
    let ghost want = evaluation::stored_models(expected@);
    let mut i: usize = 0;
    while i < existing.len()
        invariant
            i <= existing@.len(),
            want == evaluation::stored_models(expected@),
            forall|k: int| 0 <= k < i ==> is_expected(#[trigger] existing@[k], want),
        decreases existing.len() - i,
    {
        if find_stored(expected, existing[i].id.as_str()).is_none() {
            assert(!is_expected(existing@[i as int], want));
            return Err(
                "evaluation workspace contains unexpected persisted session data".to_owned(),
            );
        }
        i += 1;
    }
    let mut k: usize = 0;
    while k < existing.len()
        invariant
            k <= existing@.len(),
            want == evaluation::stored_models(expected@),
            workspace_fault(existing@, want, *thresholds) == altered_from(
                existing@,
                want,
                *thresholds,
                k as int,
            ),
        decreases existing.len() - k,
    {
        let found = &existing[k];
        let fine = match find_stored(expected, found.id.as_str()) {
            Some(p) => {
                assert(want[p as int] == evaluation::stored_model(expected@[p as int]));
                same_canonical_source(found, &expected[p], thresholds)
            },
            None => false,
        };
        if !fine {
            let mut e = "persisted evaluation session differs from canonical source: ".to_owned();
            e.append(found.id.as_str());
            return Err(e);
        }
        k += 1;
    }
    Ok(())
}

proof fn nothing_is_altered_from(
    v: Seq<Session>,
    expected: Seq<StoredModel>,
    thresholds: BudgetConfig,
    i: int,
)
    requires
        0 <= i <= v.len(),
        forall|k: int| 0 <= k < v.len() ==> is_canonical(#[trigger] v[k], expected, thresholds),
    ensures
        altered_from(v, expected, thresholds, i) is None,
    decreases v.len() - i,
{
    if i < v.len() {
        nothing_is_altered_from(v, expected, thresholds, i + 1);
    }
}

/// A workspace that holds sessions of a benchmark as they are stored, all of them
/// or some, is accepted.
pub proof fn stored_workspaces_are_accepted(
    v: Seq<Session>,
    expected: Seq<StoredModel>,
    thresholds: BudgetConfig,
)
    requires
        forall|k: int| 0 <= k < v.len() ==> is_canonical(#[trigger] v[k], expected, thresholds),
    ensures
        workspace_fault(v, expected, thresholds) is None,
{
    nothing_is_altered_from(v, expected, thresholds, 0);
    assert forall|k: int| 0 <= k < v.len() implies is_expected(#[trigger] v[k], expected) by {
        assert(is_canonical(v[k], expected, thresholds));
    }
}

} // verus!
