//! The life of a turn: it is opened, planned, sent, streamed and closed, and
//! everything that happens to it is written into its session.

use vstd::prelude::*;
use vstd::string::*;

use crate::allocation::{self, allocate_adaptive_plan, AllocationRequest};
use crate::budget::{
    self, budget_evidence_groups, hard_exclusion_reason, recall_for_groups, BudgetEvidenceGroup,
};
use crate::context::{self, ContextAssembler};
use crate::control::{self, ControlState};
use crate::digest::{self, content_sha256};
use crate::json::{self, json_number, json_text, render, Json, JsonObject};
use crate::knowledge::{KnowledgeRecall, KnowledgeTrace};
use crate::model::{
    self, copy_list, copy_opt, event_id, BudgetConfig, BudgetProbeTrace, ChatMessage, ContextPlan,
    ContextTrace, EventRole, ModelRequestTrace, ProvenanceQuality, QueryKind, RecallResult,
    RetrievalTrace, Session, SessionStatus, TokenUsage, Turn, TurnStatus,
};
use crate::text::{self, compact, is_blank, push_decimal, text_eq};

verus! {

#[derive(Clone, Copy, Debug, PartialEq, Eq, Structural)]
pub enum LimitAction {
    ContinueWithTrim,
    EndSession,
}

#[derive(Clone, Copy, Debug, PartialEq, Eq, Structural)]
pub enum PreparationStatus {
    Ready,
    LimitWarning,
    Blocked,
    Ended,
}

#[derive(Clone, Copy, Debug, PartialEq, Eq, Structural)]
pub enum PreparationProgress {
    ExactContextCheckStarted {
        estimated_input_tokens: u64,
        probe_threshold: u64,
        input_budget: u64,
    },
}

/// Sets when a turn was last changed, and why it failed if it did.
fn close_turn(turn: &mut Turn, status: TurnStatus, error: &str, now: &str)
    ensures
        *final(turn) == (Turn {
            status,
            error: final(turn).error,
            updated_at: final(turn).updated_at,
            ..*old(turn)
        }),
        text::opt_text(final(turn).error) == Some(error@),
        final(turn).updated_at@ == now@,
{
    turn.status = status;
    turn.error = Some(error.to_owned());
    turn.updated_at = now.to_owned();
}

/// A turn that another process left pending.
pub open spec fn turn_recovered(before: Turn, after: Turn, now: Seq<char>) -> bool {
    if before.status == TurnStatus::Pending {
        &&& after == (Turn {
            status: TurnStatus::Interrupted,
            error: after.error,
            updated_at: after.updated_at,
            ..before
        })
        &&& text::opt_text(after.error) == Some("上次进程在该轮完成前退出"@)
        &&& after.updated_at@ == now
    } else {
        after == before
    }
}

pub open spec fn turns_recovered(before: Seq<Turn>, after: Seq<Turn>, now: Seq<char>) -> bool {
    before.len() == after.len() && forall|i: int|
        0 <= i < before.len() ==> turn_recovered(before[i], #[trigger] after[i], now)
}

/// Closes the turns that were left pending; says whether there were any.
pub fn recover_stale_pending(session: &mut Session, now: &str) -> (changed: bool)
    ensures
        *final(session) == (Session { turns: final(session).turns, ..*old(session) }),
        turns_recovered(old(session).turns@, final(session).turns@, now@),
        changed == exists|i: int|
            0 <= i < old(session).turns@.len() && (#[trigger] old(session).turns@[i]).status
                == TurnStatus::Pending,
{
    let mut changed = false;
    let ghost before = *session;
    let mut i: usize = 0;
    while i < session.turns.len()
        invariant
            i <= session.turns@.len(),
            *session == (Session { turns: session.turns, ..before }),
            session.turns@.len() == before.turns@.len(),
            forall|k: int|
                0 <= k < i ==> turn_recovered(
                    before.turns@[k],
                    #[trigger] session.turns@[k],
                    now@,
                ),
            forall|k: int|
                i <= k < before.turns@.len() ==> before.turns@[k] == #[trigger] session.turns@[k],
            changed == exists|k: int|
                0 <= k < i && (#[trigger] before.turns@[k]).status == TurnStatus::Pending,
        decreases session.turns.len() - i,
    {
        assert(session.turns@[i as int] == before.turns@[i as int]);
        if session.turns[i].status == TurnStatus::Pending {
            close_turn(
                &mut session.turns[i],
                TurnStatus::Interrupted,
                "上次进程在该轮完成前退出",
                now,
            );
            changed = true;
            assert(before.turns@[i as int].status == TurnStatus::Pending);
        }
        i += 1;
    }
    changed
}

/// Why a turn cannot be opened or continued.
#[derive(Debug, PartialEq, Eq)]
pub enum TurnError {
    SessionExcluded(String),
    EmptyInput,
    NoLimitDecision,
    DifferentSession,
    StaleIndex,
    NotPending,
    NotReady,
}

pub open spec fn turn_error_text(e: TurnError) -> Seq<char> {
    match e {
        TurnError::SessionExcluded(id) => "会话已排除: "@ + id@,
        TurnError::EmptyInput => "用户输入不能为空"@,
        TurnError::NoLimitDecision => "当前轮次不需要上下文临界决策"@,
        TurnError::DifferentSession => "prepared turn belongs to a different session"@,
        TurnError::StaleIndex => "prepared turn index is no longer valid"@,
        TurnError::NotPending => "prepared turn no longer references a pending turn"@,
        TurnError::NotReady => "轮次尚未准备好，不能生成"@,
    }
}

impl TurnError {
    pub fn message(&self) -> (r: String)
        ensures
            r@ == turn_error_text(*self),
    {
        match self {
            TurnError::SessionExcluded(id) => {
                let mut out = "会话已排除: ".to_owned();
                out.append(id.as_str());
                out
            },
            TurnError::EmptyInput => "用户输入不能为空".to_owned(),
            TurnError::NoLimitDecision => "当前轮次不需要上下文临界决策".to_owned(),
            TurnError::DifferentSession => "prepared turn belongs to a different session".to_owned(),
            TurnError::StaleIndex => "prepared turn index is no longer valid".to_owned(),
            TurnError::NotPending =>
                "prepared turn no longer references a pending turn".to_owned(),
            TurnError::NotReady => "轮次尚未准备好，不能生成".to_owned(),
        }
    }
}

/// The trace of a turn about which nothing is known yet.
pub open spec fn blank_trace(t: ContextTrace) -> bool {
    &&& t.included_turn_ids@.len() == 0
    &&& t.omitted_turn_ids@.len() == 0
    &&& t.estimated_upper_tokens is None
    &&& t.exact_input_tokens is None
    &&& t.input_budget == 0
    &&& t.decision@ == "pending"@
    &&& t.active_context_start_before == 0
    &&& t.active_context_start_after == 0
    &&& t.context_items@.len() == 0
    &&& t.context_sha256 is None
    &&& t.request is None
    &&& t.identity_instruction is None
    &&& !t.untrusted_history_wrapped
    &&& t.provenance_quality == ProvenanceQuality::Exact
    &&& t.retrieval.not_run()
    &&& t.knowledge.not_run()
}

/// A turn that was just opened.
pub open spec fn is_opened(t: Turn, id: Seq<char>, user_content: Seq<char>, now: Seq<char>) -> bool {
    &&& t.id@ == id
    &&& t.created_at@ == now
    &&& t.updated_at@ == now
    &&& t.status == TurnStatus::Pending
    &&& t.user_content@ == user_content
    &&& t.assistant_content@.len() == 0
    &&& t.thinking@.len() == 0
    &&& t.usage.input_tokens is None && t.usage.output_tokens is None
    &&& t.probe_usage.input_tokens == Some(0u64) && t.probe_usage.output_tokens == Some(0u64)
    &&& blank_trace(t.context_trace)
    &&& t.request_started_at is None
    &&& t.done_reason is None
    &&& t.error is None
}

impl Turn {
    /// A turn that waits for its answer.
    pub fn pending(id: &str, user_content: &str, now: &str) -> (r: Turn)
        ensures
            is_opened(r, id@, user_content@, now@),
    {
        Turn {
            id: id.to_owned(),
            created_at: now.to_owned(),
            updated_at: now.to_owned(),
            status: TurnStatus::Pending,
            user_content: user_content.to_owned(),
            assistant_content: String::new(),
            thinking: String::new(),
            usage: TokenUsage::new(None, None),
            probe_usage: TokenUsage::zero(),
            context_trace: ContextTrace {
                included_turn_ids: Vec::new(),
                omitted_turn_ids: Vec::new(),
                estimated_upper_tokens: None,
                exact_input_tokens: None,
                input_budget: 0,
                decision: "pending".to_owned(),
                active_context_start_before: 0,
                active_context_start_after: 0,
                context_items: Vec::new(),
                context_sha256: None,
                request: None,
                identity_instruction: None,
                untrusted_history_wrapped: false,
                provenance_quality: ProvenanceQuality::Exact,
                retrieval: RetrievalTrace::default(),
                knowledge: KnowledgeTrace::default(),
            },
            request_started_at: None,
            done_reason: None,
            error: None,
        }
    }
}

/// A session in which a turn was opened: what was left pending is closed, and
/// the first turn gives the session its title.
pub open spec fn turn_opened(
    before: Session,
    after: Session,
    id: Seq<char>,
    user_content: Seq<char>,
    now: Seq<char>,
) -> bool {
    let n = before.turns@.len() as int;
    &&& after == (Session {
        status: SessionStatus::Active,
        title: after.title,
        turns: after.turns,
        ..before
    })
    &&& after.title@ == (if n == 0 {
        text::compacted(user_content, 40)
    } else {
        before.title@
    })
    &&& after.turns@.len() == n + 1
    &&& turns_recovered(before.turns@, after.turns@.take(n), now)
    &&& is_opened(after.turns@[n], id, user_content, now)
}

/// Opens a turn for an input, unless the session is excluded or the input blank.
pub fn open_turn(
    session: &mut Session,
    allowed: bool,
    id: &str,
    user_content: &str,
    now: &str,
) -> (r: Result<usize, TurnError>)
    requires
        old(session).turns@.len() < usize::MAX,
    ensures
        match r {
            Ok(index) => allowed && !text::blank(user_content@) && index
                == old(session).turns@.len() && turn_opened(
                *old(session),
                *final(session),
                id@,
                user_content@,
                now@,
            ),
            Err(e) => *final(session) == *old(session) && if !allowed {
                e matches TurnError::SessionExcluded(s) && s@ == old(session).id@
            } else {
                text::blank(user_content@) && e is EmptyInput
            },
        },
{
    if !allowed {
        return Err(TurnError::SessionExcluded(session.id.clone()));
    }
    if is_blank(user_content) {
        return Err(TurnError::EmptyInput);
    }
    let ghost before = *session;
    let _ = recover_stale_pending(session, now);
    session.status = SessionStatus::Active;
    if session.turns.len() == 0 {
        session.title = compact(user_content, 40);
    }
    let index = session.turns.len();
    let ghost recovered = session.turns@;
    session.turns.push(Turn::pending(id, user_content, now));
    assert(session.turns@.take(index as int) =~= recovered);
    Ok(index)
}

/// The turns of a list that the controls allow.
pub open spec fn allowed_only(
    m: control::ControlModel,
    session: Session,
    indices: Seq<usize>,
) -> Seq<usize>
    decreases indices.len(),
{
    if indices.len() == 0 {
        Seq::empty()
    } else {
        let rest = allowed_only(m, session, indices.drop_last());
        let i = indices.last();
        if control::turn_allowed(m, session.id@, session.turns@[i as int].id@) {
            rest.push(i)
        } else {
            rest
        }
    }
}

pub open spec fn ascending(v: Seq<usize>) -> bool {
    forall|i: int, j: int| 0 <= i < j < v.len() ==> v[i] < v[j]
}

proof fn eligible_ascend(turns: Seq<Turn>, current: Option<usize>, start: int, n: int)
    requires
        0 <= n <= turns.len() <= usize::MAX,
    ensures
        ascending(model::eligible_indices(turns, current, start, n)),
    decreases n,
{
    if n > 0 {
        eligible_ascend(turns, current, start, n - 1);
        model::eligible_indices_sound(turns, current, start, n - 1);
        let rest = model::eligible_indices(turns, current, start, n - 1);
        let all = model::eligible_indices(turns, current, start, n);
        assert forall|i: int, j: int| 0 <= i < j < all.len() implies all[i] < all[j] by {
            if j < rest.len() {
                assert(rest[i] < rest[j]);
            } else {
                assert(all[i] == rest[i]);
            }
        }
    }
}

/// The turns that may be part of the context of a turn: complete ones after the
/// active start that the controls allow.
pub fn allowed_history(session: &Session, turn_index: usize, controls: &ControlState) -> (r: Vec<
    usize,
>)
    ensures
        r@ == allowed_only(
            controls.model(),
            *session,
            session.eligible_spec(Some(turn_index), true),
        ),
        ascending(r@),
        context::in_range(r@, session.turns@.len()),
{
    let eligible = session.eligible_turns(Some(turn_index), true);
    let ghost all = eligible@;
    let _ = session.turns.len();
    proof {
        eligible_ascend(
            session.turns@,
            Some(turn_index),
            session.active_context_start_index as int,
            session.turns@.len() as int,
        );
    }
    let mut out: Vec<usize> = Vec::new();
    let mut k: usize = 0;
    assert(all.take(0) =~= Seq::empty());
    while k < eligible.len()
        invariant
            k <= eligible@.len(),
            all == eligible@,
            ascending(all),
            forall|i: int| 0 <= i < all.len() ==> (#[trigger] all[i]) < session.turns@.len(),
            out@ == allowed_only(controls.model(), *session, all.take(k as int)),
            ascending(out@),
            context::in_range(out@, session.turns@.len()),
            forall|i: int| 0 <= i < out@.len() && k < all.len() ==> #[trigger] out@[i] < all[k as int],
        decreases eligible.len() - k,
    {
        proof {
            assert(all.take(k + 1).drop_last() =~= all.take(k as int));
            assert(all.take(k + 1).last() == all[k as int]);
        }
        let i = eligible[k];
        let ghost before = out@;
        if controls.allows_turn(session.id.as_str(), session.turns[i].id.as_str()) {
            out.push(i);
        }
        assert forall|a: int, b: int| 0 <= a < b < out@.len() implies out@[a] < out@[b] by {
            if b < before.len() {
                assert(before[a] < before[b]);
            } else {
                assert(before[a] < all[k as int]);
            }
        }
        assert(k + 1 < all.len() ==> all[k as int] < all[k + 1]);
        assert forall|a: int| 0 <= a < out@.len() && k + 1 < all.len() implies #[trigger] out@[a]
            < all[k + 1] by {
            if a < before.len() {
                assert(before[a] < all[k as int]);
            }
        }
        assert forall|a: int| 0 <= a < out@.len() implies (#[trigger] out@[a])
            < session.turns@.len() by {
            if a < before.len() {
                assert(before[a] < session.turns@.len());
            }
        }
        k += 1;
    }
    assert(all.take(k as int) =~= all);
    out
}

/// The events of the turns of a history, in order.
pub open spec fn events_of(session: Session, history: Seq<usize>) -> Seq<Seq<char>>
    decreases history.len(),
{
    if history.len() == 0 {
        Seq::empty()
    } else {
        let turn = session.turns@[history.last() as int];
        events_of(session, history.drop_last()).push(
            model::event_id_text(session.id@, Some(turn.id@), EventRole::User),
        ).push(model::event_id_text(session.id@, Some(turn.id@), EventRole::Assistant))
    }
}

/// Lists the events of the turns of a history.
pub fn recent_event_ids(session: &Session, history: &Vec<usize>) -> (r: Vec<String>)
    requires
        context::in_range(history@, session.turns@.len()),
    ensures
        text::texts(r@) == events_of(*session, history@),
{
    let mut out: Vec<String> = Vec::new();
    let mut k: usize = 0;
    assert(history@.take(0) =~= Seq::empty());
    assert(text::texts(out@) =~= Seq::empty());
    while k < history.len()
        invariant
            k <= history@.len(),
            context::in_range(history@, session.turns@.len()),
            text::texts(out@) == events_of(*session, history@.take(k as int)),
        decreases history.len() - k,
    {
        proof {
            assert(history@.take(k + 1).drop_last() =~= history@.take(k as int));
            assert(history@[k as int] < session.turns@.len());
        }
        let ghost before = text::texts(out@);
        let id = session.turns[history[k]].id.as_str();
        let user = event_id(session.id.as_str(), Some(id), EventRole::User);
        let assistant = event_id(session.id.as_str(), Some(id), EventRole::Assistant);
        let ghost (u, a) = (user@, assistant@);
        out.push(user);
        out.push(assistant);
        assert(text::texts(out@) =~= before.push(u).push(a));
        k += 1;
    }
    assert(history@.take(k as int) =~= history@);
    out
}

/// Writes the outcome of a search into a recall and its turn, before anything
/// is planned, so that a later failure can be understood.
pub fn record_search(
    session: &mut Session,
    turn_index: usize,
    recall: &mut RecallResult,
    knowledge: &KnowledgeRecall,
    kind: QueryKind,
    now: &str,
)
    requires
        turn_index < old(session).turns@.len(),
    ensures
        *final(recall) == (RecallResult {
            trace: RetrievalTrace {
                config: old(session).retrieval,
                query_kind: kind,
                budget_allocation: model::BudgetAllocationTrace {
                    query_kind: kind,
                    ..old(recall).trace.budget_allocation
                },
                ..old(recall).trace
            },
            ..*old(recall)
        }),
        *final(session) == (Session { turns: final(session).turns, ..*old(session) }),
        ({
            let before = old(session).turns@[turn_index as int];
            let after = final(session).turns@[turn_index as int];
            &&& final(session).turns@ == old(session).turns@.update(turn_index as int, after)
            &&& after == (Turn {
                context_trace: after.context_trace,
                updated_at: after.updated_at,
                ..before
            })
            &&& after.context_trace == (ContextTrace {
                retrieval: after.context_trace.retrieval,
                knowledge: after.context_trace.knowledge,
                decision: after.context_trace.decision,
                ..before.context_trace
            })
            &&& after.context_trace.retrieval.same(final(recall).trace)
            &&& after.context_trace.knowledge.same(knowledge.trace)
            &&& after.context_trace.decision@ == "retrieval_completed"@
            &&& after.updated_at@ == now@
        }),
{
    recall.trace.config = session.retrieval;
    recall.trace.query_kind = kind;
    recall.trace.budget_allocation.query_kind = kind;
    let turn = &mut session.turns[turn_index];
    turn.context_trace.retrieval = recall.trace.clone();
    turn.context_trace.knowledge = knowledge.trace.clone();
    turn.context_trace.decision = "retrieval_completed".to_owned();
    turn.updated_at = now.to_owned();
}

/// The groups among the first `n` that can be taken one after another without a
/// hard limit being reached.
pub open spec fn unhindered(
    groups: Seq<budget::GroupModel>,
    n: int,
    config: model::RetrievalConfig,
    graph_limit: usize,
) -> Seq<usize>
    decreases n,
{
    if n <= 0 {
        Seq::empty()
    } else {
        let rest = unhindered(groups, n - 1, config, graph_limit);
        if budget::hard_reason(groups, rest, (n - 1) as usize, config, graph_limit) is None {
            rest.push((n - 1) as usize)
        } else {
            rest
        }
    }
}

fn pick_unhindered(
    groups: &Vec<BudgetEvidenceGroup>,
    config: &model::RetrievalConfig,
    graph_limit: usize,
) -> (r: Vec<usize>)
    ensures
        r@ == unhindered(
            budget::group_models(groups@),
            groups@.len() as int,
            *config,
            graph_limit,
        ),
{
    let ghost models = budget::group_models(groups@);
    let mut out: Vec<usize> = Vec::new();
    let mut i: usize = 0;
    while i < groups.len()
        invariant
            i <= groups@.len(),
            models == budget::group_models(groups@),
            out@ == unhindered(models, i as int, *config, graph_limit),
            context::in_range(out@, i as nat),
        decreases groups.len() - i,
    {
        let ghost before = out@;
        assert(context::in_range(out@, models.len()));
        if hard_exclusion_reason(groups, &out, i, config, graph_limit).is_none() {
            out.push(i);
        }
        assert forall|a: int| 0 <= a < out@.len() implies (#[trigger] out@[a]) < i + 1 by {
            if a < before.len() {
                assert(before[a] < i);
            }
        }
        i += 1;
    }
    out
}

/// The plan of a turn that takes all of its history and all evidence that no
/// hard limit excludes.
pub fn plan_in_full(
    session: &Session,
    turn_index: usize,
    history: &Vec<usize>,
    user_content: &str,
    recall: &RecallResult,
    knowledge: &KnowledgeRecall,
    graph_candidate_limit: usize,
) -> (plan: ContextPlan)
    requires
        context::in_range(history@, session.turns@.len()),
    ensures
        ({
            let groups = budget::groups_of(recall.trace, recall.evidence@);
            let evidence = budget::picked_evidence(
                groups,
                unhindered(groups, groups.len() as int, session.retrieval, graph_candidate_limit),
            );
            &&& context::request_laid_out(
                plan,
                *session,
                user_content@,
                history@,
                Some(turn_index),
                evidence,
                context::injected_of(Some(knowledge)),
            )
            &&& allocation::metric_of(plan) == Some(
                context::upper_bound(
                    context::request_messages(
                        *session,
                        user_content@,
                        history@,
                        evidence,
                        context::injected_of(Some(knowledge)),
                    ),
                ),
            )
        }),
{
    let groups = budget_evidence_groups(recall);
    let picked = pick_unhindered(&groups, &session.retrieval, graph_candidate_limit);
    let full = recall_for_groups(recall, &groups, &picked);
    ContextAssembler.assemble_with_recall_and_knowledge(
        session,
        user_content,
        Some(history),
        Some(turn_index),
        Some(&full),
        Some(knowledge),
    )
}

/// Whether an estimate is so close to the limit that it must be counted exactly.
pub fn exact_check_due(estimated_input_tokens: u64, budget: &BudgetConfig) -> (r: Option<
    PreparationProgress,
>)
    ensures
        r == (if estimated_input_tokens >= budget.probe_threshold {
            Some(
                PreparationProgress::ExactContextCheckStarted {
                    estimated_input_tokens,
                    probe_threshold: budget.probe_threshold,
                    input_budget: budget.input_budget_spec() as u64,
                },
            )
        } else {
            None
        }),
{
    if estimated_input_tokens >= budget.probe_threshold {
        Some(
            PreparationProgress::ExactContextCheckStarted {
                estimated_input_tokens,
                probe_threshold: budget.probe_threshold,
                input_budget: budget.input_budget(),
            },
        )
    } else {
        None
    }
}

/// The tokens that an allocation may use: the whole budget, or less than the
/// trim target once the full request reaches the warning threshold.
pub open spec fn limit_for(full_tokens: u64, budget: BudgetConfig) -> u64 {
    if full_tokens >= budget.warning_threshold {
        budget::floored_sub(budget.trim_target, 1)
    } else {
        budget.input_budget_spec() as u64
    }
}

pub fn allocation_limit(full_tokens: u64, budget: &BudgetConfig) -> (r: u64)
    ensures
        r == limit_for(full_tokens, *budget),
{
    if full_tokens >= budget.warning_threshold {
        budget.trim_target.saturating_sub(1)
    } else {
        budget.input_budget()
    }
}

/// The JSON of a message.
pub open spec fn message_tree(m: (Seq<char>, Seq<char>)) -> json::JsonTree {
    json::JsonTree::Object(
        seq![
            ("content"@, json::JsonTree::Text(m.1)),
            ("role"@, json::JsonTree::Text(m.0)),
        ],
    )
}

pub open spec fn message_trees(m: Seq<(Seq<char>, Seq<char>)>) -> Seq<json::JsonTree> {
    Seq::new(m.len(), |i: int| message_tree(m[i]))
}

/// The JSON of the request that is counted.
pub open spec fn probe_tree(session: Session, messages: Seq<(Seq<char>, Seq<char>)>) ->
    json::JsonTree {
    json::JsonTree::Object(
        seq![
            ("kind"@, json::JsonTree::Text("normal"@)),
            ("messages"@, json::JsonTree::Array(message_trees(messages))),
            ("model"@, json::JsonTree::Text(session.model@)),
            ("num_ctx"@, json::number_tree(session.budget.context_window)),
            ("num_predict"@, json::number_tree(session.budget.max_output_tokens)),
            ("think"@, json::JsonTree::Bool(session.think)),
        ],
    )
}

fn json_messages(messages: &Vec<ChatMessage>) -> (r: Json)
    ensures
        json::tree(r) == json::JsonTree::Array(message_trees(model::message_texts(messages@))),
{
    let mut out: Vec<Json> = Vec::new();
    let ghost all = message_trees(model::message_texts(messages@));
    let mut i: usize = 0;
    while i < messages.len()
        invariant
            i <= messages@.len(),
            out@.len() == i,
            all == message_trees(model::message_texts(messages@)),
            forall|k: int| 0 <= k < i ==> json::tree(#[trigger] out@[k]) == all[k],
        decreases messages.len() - i,
    {
        let object = JsonObject::new().with("content", json_text(messages[i].content.as_str())).with(
            "role",
            json_text(messages[i].role.as_str()),
        );
        assert(object.list() =~= all[i as int]->Object_0);
        out.push(object.finish());
        i += 1;
    }
    proof {
        json::trees_index(out@, out@.len() as int);
        assert(json::trees(out@, out@.len() as int) =~= all);
    }
    Json::Array(out)
}

/// The digest by which a counted request is known.
pub fn probe_key(session: &Session, plan: &ContextPlan) -> (r: String)
    ensures
        r@ == digest::text_digest(
            json::rendered(probe_tree(*session, model::message_texts(plan.messages@))),
        ),
        digest::sha256_shape(r@),
{
    let object = JsonObject::new().with("kind", json_text("normal")).with(
        "messages",
        json_messages(&plan.messages),
    ).with("model", json_text(session.model.as_str())).with(
        "num_ctx",
        json_number(session.budget.context_window),
    ).with("num_predict", json_number(session.budget.max_output_tokens)).with(
        "think",
        Json::Bool(session.think),
    );
    assert(object.list() =~= probe_tree(
        *session,
        model::message_texts(plan.messages@),
    )->Object_0);
    content_sha256(render(&object.finish()).as_str())
}

/// Requests that were counted while a turn was prepared.
#[derive(Debug)]
pub struct PreparationProbeCache {
    pub usages: Vec<(String, TokenUsage)>,
    pub traces: Vec<BudgetProbeTrace>,
}

/// The usage counted for a key, from position `i` on.
pub open spec fn usage_from(v: Seq<(String, TokenUsage)>, key: Seq<char>, i: int) -> Option<
    TokenUsage,
>
    decreases v.len() - i,
{
    if i < 0 || i >= v.len() {
        None
    } else if v[i].0@ == key {
        Some(v[i].1)
    } else {
        usage_from(v, key, i + 1)
    }
}

pub open spec fn traced(v: Seq<BudgetProbeTrace>, key: Seq<char>) -> bool {
    exists|i: int| 0 <= i < v.len() && (#[trigger] v[i]).request_sha256@ == key
}

impl PreparationProbeCache {
    pub fn new() -> (r: Self)
        ensures
            r.usages@.len() == 0,
            r.traces@.len() == 0,
    {
        PreparationProbeCache { usages: Vec::new(), traces: Vec::new() }
    }

    /// What was counted for a request before.
    pub fn lookup(&self, key: &str) -> (r: Option<TokenUsage>)
        ensures
            r == usage_from(self.usages@, key@, 0),
    {
        let mut i: usize = 0;
        while i < self.usages.len()
            invariant
                i <= self.usages@.len(),
                usage_from(self.usages@, key@, 0) == usage_from(self.usages@, key@, i as int),
            decreases self.usages.len() - i,
        {
            if text_eq(self.usages[i].0.as_str(), key) {
                return Some(self.usages[i].1);
            }
            i += 1;
        }
        None
    }

    fn is_traced(&self, key: &str) -> (r: bool)
        ensures
            r == traced(self.traces@, key@),
    {
        let mut i: usize = 0;
        while i < self.traces.len()
            invariant
                i <= self.traces@.len(),
                forall|k: int|
                    0 <= k < i ==> (#[trigger] self.traces@[k]).request_sha256@ != key@,
            decreases self.traces.len() - i,
        {
            if text_eq(self.traces[i].request_sha256.as_str(), key) {
                return true;
            }
            i += 1;
        }
        false
    }

    /// Takes down a count, and gives the plan its exact number of input tokens.
    pub fn record(&mut self, plan: &mut ContextPlan, key: &str, usage: TokenUsage, stage: &str)
        ensures
            *final(plan) == (ContextPlan {
                exact_input_tokens: usage.input_tokens,
                ..*old(plan)
            }),
            usage_from(old(self).usages@, key@, 0) is Some ==> final(self).usages
                == old(self).usages,
            usage_from(old(self).usages@, key@, 0) is None ==> final(self).usages@.len()
                == old(self).usages@.len() + 1 && final(self).usages@.drop_last()
                == old(self).usages@ && final(self).usages@.last().0@ == key@
                && final(self).usages@.last().1 == usage,
            final(self).traces@.len() == old(self).traces@.len() + 1,
            final(self).traces@.drop_last() == old(self).traces@,
            ({
                let t = final(self).traces@.last();
                &&& t.stage@ == stage@
                &&& t.request_sha256@ == key@
                &&& t.kind@ == "normal"@
                &&& t.usage == usage
                &&& t.cache_hit == traced(old(self).traces@, key@)
            }),
    {
        let ghost before = *self;
        if self.lookup(key).is_none() {
            self.usages.push((key.to_owned(), usage));
            assert(self.usages@.drop_last() =~= before.usages@);
        }
        let cache_hit = self.is_traced(key);
        self.traces.push(
            BudgetProbeTrace {
                stage: stage.to_owned(),
                request_sha256: key.to_owned(),
                kind: "normal".to_owned(),
                usage,
                cache_hit,
            },
        );
        assert(self.traces@.drop_last() =~= before.traces@);
        plan.exact_input_tokens = usage.input_tokens;
    }
}

/// The usage of a request that does not fit into the window: what was reported,
/// else one token too many.
pub fn overflow_usage(prompt_tokens: Option<u64>, context_window: u64) -> (r: TokenUsage)
    requires
        prompt_tokens is None ==> context_window < u64::MAX,
    ensures
        r.input_tokens == Some(
            match prompt_tokens {
                Some(n) => n,
                None => (context_window + 1) as u64,
            },
        ),
        r.output_tokens == Some(0u64),
        r.total_tokens == r.input_tokens,
{
    let tokens: u64 = match prompt_tokens {
        Some(n) => n,
        None => context_window + 1,
    };
    TokenUsage::new(Some(tokens), Some(0))
}

/// A plan that was allocated for a request.
pub open spec fn planned<'a>(
    r: &AllocationRequest<'a>,
    classify_elapsed: u64,
    probes: Seq<BudgetProbeTrace>,
    plan: ContextPlan,
) -> bool {
    if r.mandatory() > r.session.budget.input_budget_spec() {
        allocation::refused(r, classify_elapsed, probes, plan)
    } else {
        allocation::granted(r, classify_elapsed, probes, plan)
    }
}

/// Allocates the plan of a turn. When it comes out as the full request, what was
/// counted exactly for that holds for it too.
pub fn plan_turn<'a>(
    r: &AllocationRequest<'a>,
    full_plan: &ContextPlan,
    classify_elapsed: u64,
    cache: &PreparationProbeCache,
) -> (plan: ContextPlan)
    requires
        r.wf(),
    ensures
        planned(
            r,
            classify_elapsed,
            cache.traces@,
            ContextPlan { exact_input_tokens: None, ..plan },
        ),
        plan.exact_input_tokens == (if plan.context_sha256@ == full_plan.context_sha256@ {
            full_plan.exact_input_tokens
        } else {
            None
        }),
{
    let mut plan = allocate_adaptive_plan(r, classify_elapsed, &cache.traces);
    let ghost before = plan;
    if text_eq(plan.context_sha256.as_str(), full_plan.context_sha256.as_str()) {
        plan.exact_input_tokens = full_plan.exact_input_tokens;
    }
    assert(before.exact_input_tokens is None);
    assert(before == ContextPlan { exact_input_tokens: None, ..plan });
    plan
}

/// What a turn keeps of the plan that it was sent with.
pub open spec fn plan_traced(
    t: ContextTrace,
    session: Session,
    plan: ContextPlan,
    decision: Seq<char>,
    start_before: usize,
    start_after: usize,
) -> bool {
    &&& t.included_turn_ids@ == plan.included_turn_ids@
    &&& t.omitted_turn_ids@ == plan.omitted_turn_ids@
    &&& t.estimated_upper_tokens == plan.estimated_upper_tokens
    &&& t.exact_input_tokens == plan.exact_input_tokens
    &&& t.input_budget == plan.input_budget
    &&& t.decision@ == decision
    &&& t.active_context_start_before == start_before
    &&& t.active_context_start_after == start_after
    &&& t.context_items@ == plan.context_items@
    &&& text::opt_text(t.context_sha256) == Some(plan.context_sha256@)
    &&& t.request matches Some(q) && q.model@ == session.model@ && q.think == session.think
        && q.context_window == session.budget.context_window && q.max_output_tokens
        == session.budget.max_output_tokens
    &&& text::opt_text(t.identity_instruction) == Some(plan.identity_instruction@)
    &&& t.untrusted_history_wrapped == plan.untrusted_history_wrapped
    &&& t.provenance_quality == ProvenanceQuality::Exact
    &&& t.retrieval.same(plan.retrieval_trace)
    &&& t.knowledge.same(plan.knowledge_trace)
}

/// Writes the plan of a turn into its trace.
pub fn apply_trace(
    session: &mut Session,
    turn_index: usize,
    plan: &ContextPlan,
    decision: &str,
    start_before: usize,
    start_after: usize,
)
    requires
        turn_index < old(session).turns@.len(),
    ensures
        *final(session) == (Session { turns: final(session).turns, ..*old(session) }),
        ({
            let before = old(session).turns@[turn_index as int];
            let after = final(session).turns@[turn_index as int];
            &&& final(session).turns@ == old(session).turns@.update(turn_index as int, after)
            &&& after == (Turn { context_trace: after.context_trace, ..before })
            &&& plan_traced(
                after.context_trace,
                *old(session),
                *plan,
                decision@,
                start_before,
                start_after,
            )
        }),
{
    let request = ModelRequestTrace {
        model: session.model.clone(),
        think: session.think,
        context_window: session.budget.context_window,
        max_output_tokens: session.budget.max_output_tokens,
    };
    let trace = ContextTrace {
        included_turn_ids: copy_list(&plan.included_turn_ids),
        omitted_turn_ids: copy_list(&plan.omitted_turn_ids),
        estimated_upper_tokens: plan.estimated_upper_tokens,
        exact_input_tokens: plan.exact_input_tokens,
        input_budget: plan.input_budget,
        decision: decision.to_owned(),
        active_context_start_before: start_before,
        active_context_start_after: start_after,
        context_items: copy_list(&plan.context_items),
        context_sha256: Some(plan.context_sha256.clone()),
        request: Some(request),
        identity_instruction: Some(plan.identity_instruction.clone()),
        untrusted_history_wrapped: plan.untrusted_history_wrapped,
        provenance_quality: ProvenanceQuality::Exact,
        retrieval: plan.retrieval_trace.clone(),
        knowledge: plan.knowledge_trace.clone(),
    };
    let turn = &mut session.turns[turn_index];
    turn.context_trace = trace;
}

/// A turn that is planned, and how its preparation ended.
#[derive(Clone, Debug)]
pub struct PreparedTurn {
    pub session_id: String,
    pub turn_id: String,
    pub turn_index: usize,
    pub plan: ContextPlan,
    pub status: PreparationStatus,
    pub message: String,
    pub query_embedding: Option<Vec<u32>>,
}

impl PreparedTurn {
    pub fn ready(&self) -> (r: bool)
        ensures
            r == (self.status == PreparationStatus::Ready),
    {
        self.status == PreparationStatus::Ready
    }

    pub fn needs_limit_decision(&self) -> (r: bool)
        ensures
            r == (self.status == PreparationStatus::LimitWarning),
    {
        self.status == PreparationStatus::LimitWarning
    }
}

pub open spec fn is_prepared(
    p: PreparedTurn,
    session: Session,
    turn_index: usize,
    plan: ContextPlan,
    status: PreparationStatus,
    message: Seq<char>,
    query_embedding: Option<Vec<u32>>,
) -> bool {
    &&& p.session_id@ == session.id@
    &&& p.turn_id@ == session.turns@[turn_index as int].id@
    &&& p.turn_index == turn_index
    &&& p.plan == plan
    &&& p.status == status
    &&& p.message@ == message
    &&& p.query_embedding == query_embedding
}

fn prepared(
    session: &Session,
    turn_index: usize,
    plan: ContextPlan,
    status: PreparationStatus,
    message: &str,
    query_embedding: Option<Vec<u32>>,
) -> (p: PreparedTurn)
    requires
        turn_index < session.turns@.len(),
    ensures
        is_prepared(p, *session, turn_index, plan, status, message@, query_embedding),
{
    PreparedTurn {
        session_id: session.id.clone(),
        turn_id: session.turns[turn_index].id.clone(),
        turn_index,
        plan,
        status,
        message: message.to_owned(),
        query_embedding,
    }
}

/// How a preparation ends, by its counts.
pub open spec fn preparation_verdict(plan: ContextPlan, full_tokens: u64, budget: BudgetConfig) ->
    PreparationStatus {
    if plan.retrieval_trace.budget_allocation.mandatory_input_tokens > budget.input_budget_spec() {
        PreparationStatus::Blocked
    } else if full_tokens >= budget.warning_threshold {
        PreparationStatus::LimitWarning
    } else {
        PreparationStatus::Ready
    }
}

/// What is recorded as the decision of a preparation.
pub open spec fn verdict_decision(status: PreparationStatus) -> Seq<char> {
    match status {
        PreparationStatus::Blocked => "mandatory_input_exceeded"@,
        PreparationStatus::LimitWarning => "limit_warning"@,
        _ => "ready"@,
    }
}

/// What the user is told about a preparation.
pub open spec fn verdict_message(status: PreparationStatus) -> Seq<char> {
    match status {
        PreparationStatus::Blocked =>
            "系统提示与当前输入本身已超过输入预算；请缩短输入或提高上下文配置"@,
        PreparationStatus::LimitWarning =>
            "上下文已达到临界阈值；请选择丢弃最旧完整轮次后继续，或暂停当前会话。"@,
        _ => ""@,
    }
}

pub open spec fn usage_added(before: TokenUsage, probe: Option<TokenUsage>, after: TokenUsage) ->
    bool {
    match probe {
        Some(p) => {
            &&& after.input_tokens == model::count_sum(before.input_tokens, p.input_tokens)
            &&& after.output_tokens == model::count_sum(before.output_tokens, p.output_tokens)
            &&& after.total_tokens == model::count_sum(before.total_tokens, p.total_tokens)
        },
        None => after == before,
    }
}

/// The turn after its preparation was concluded.
pub open spec fn turn_concluded(
    before: Turn,
    after: Turn,
    session: Session,
    plan: ContextPlan,
    status: PreparationStatus,
    probe: Option<TokenUsage>,
    start: usize,
    now: Seq<char>,
) -> bool {
    &&& after == (Turn {
        context_trace: after.context_trace,
        updated_at: after.updated_at,
        probe_usage: after.probe_usage,
        status: after.status,
        error: after.error,
        ..before
    })
    &&& plan_traced(
        after.context_trace,
        session,
        plan,
        verdict_decision(status),
        start,
        start,
    )
    &&& after.updated_at@ == now
    &&& usage_added(before.probe_usage, probe, after.probe_usage)
    &&& if status == PreparationStatus::Blocked {
        &&& after.status == TurnStatus::Blocked
        &&& text::opt_text(after.error) == Some(verdict_message(status))
    } else {
        after.status == before.status && after.error == before.error
    }
}

/// Concludes a preparation: the turn is blocked when not even its unavoidable
/// part fits, stopped for a decision at the warning threshold, and ready else.
pub fn conclude_preparation(
    session: &mut Session,
    turn_index: usize,
    plan: ContextPlan,
    full_tokens: u64,
    probe: Option<TokenUsage>,
    start_before: usize,
    query_embedding: Option<Vec<u32>>,
    now: &str,
) -> (p: PreparedTurn)
    requires
        turn_index < old(session).turns@.len(),
    ensures
        ({
            let s = *old(session);
            let status = preparation_verdict(plan, full_tokens, s.budget);
            let i = turn_index as int;
            &&& *final(session) == (Session {
                turns: final(session).turns,
                status: if status == PreparationStatus::Blocked {
                    SessionStatus::Paused
                } else {
                    s.status
                },
                ..s
            })
            &&& final(session).turns@ == s.turns@.update(i, final(session).turns@[i])
            &&& turn_concluded(
                s.turns@[i],
                final(session).turns@[i],
                s,
                plan,
                status,
                probe,
                start_before,
                now@,
            )
            &&& is_prepared(p, s, turn_index, plan, status, verdict_message(status), query_embedding)
        }),
{
    let ghost s = *session;
    if let Some(usage) = probe {
        let turn = &mut session.turns[turn_index];
        turn.probe_usage.add(usage);
    }
    let mandatory = plan.retrieval_trace.budget_allocation.mandatory_input_tokens;
    let (status, decision, message) = if mandatory > session.budget.input_budget() {
        (
            PreparationStatus::Blocked,
            "mandatory_input_exceeded",
            "系统提示与当前输入本身已超过输入预算；请缩短输入或提高上下文配置",
        )
    } else if full_tokens >= session.budget.warning_threshold {
        (
            PreparationStatus::LimitWarning,
            "limit_warning",
            "上下文已达到临界阈值；请选择丢弃最旧完整轮次后继续，或暂停当前会话。",
        )
    } else {
        (PreparationStatus::Ready, "ready", "")
    };
    apply_trace(session, turn_index, &plan, decision, start_before, start_before);
    if status == PreparationStatus::Blocked {
        close_turn(&mut session.turns[turn_index], TurnStatus::Blocked, message, now);
        session.status = SessionStatus::Paused;
    } else {
        let turn = &mut session.turns[turn_index];
        turn.updated_at = now.to_owned();
    }
    assert(session.turns@ =~= s.turns@.update(turn_index as int, session.turns@[turn_index as int]));
    prepared(session, turn_index, plan, status, message, query_embedding)
}

/// Records that a request could not be counted.
pub fn record_probe_failure(session: &mut Session, turn_index: usize, now: &str)
    requires
        turn_index < old(session).turns@.len(),
    ensures
        *final(session) == (Session { turns: final(session).turns, ..*old(session) }),
        ({
            let before = old(session).turns@[turn_index as int];
            let after = final(session).turns@[turn_index as int];
            &&& final(session).turns@ == old(session).turns@.update(turn_index as int, after)
            &&& after == (Turn {
                context_trace: ContextTrace {
                    decision: after.context_trace.decision,
                    ..before.context_trace
                },
                updated_at: after.updated_at,
                ..before
            })
            &&& after.context_trace.decision@ == "probe_failed"@
            &&& after.updated_at@ == now@
        }),
{
    let turn = &mut session.turns[turn_index];
    turn.context_trace.decision = "probe_failed".to_owned();
    turn.updated_at = now.to_owned();
}

/// Closes a turn whose preparation failed, unless something else closed it.
pub fn fail_preparation(session: &mut Session, turn_index: usize, error: &str, now: &str)
    requires
        turn_index < old(session).turns@.len(),
    ensures
        *final(session) == (Session { turns: final(session).turns, ..*old(session) }),
        ({
            let before = old(session).turns@[turn_index as int];
            let after = final(session).turns@[turn_index as int];
            &&& final(session).turns@ == old(session).turns@.update(turn_index as int, after)
            &&& if before.status == TurnStatus::Pending {
                &&& after == (Turn {
                    status: TurnStatus::Failed,
                    error: after.error,
                    updated_at: after.updated_at,
                    ..before
                })
                &&& text::opt_text(after.error) == Some(error@)
                &&& after.updated_at@ == now@
            } else {
                after == before
            }
        }),
{
    if session.turns[turn_index].status == TurnStatus::Pending {
        close_turn(&mut session.turns[turn_index], TurnStatus::Failed, error, now);
    }
    assert(session.turns@ =~= old(session).turns@.update(
        turn_index as int,
        session.turns@[turn_index as int],
    ));
}

/// Whether a prepared turn is still the pending turn of its session.
pub open spec fn pending_fault(session: Session, p: PreparedTurn) -> Option<TurnError> {
    if session.id@ != p.session_id@ {
        Some(TurnError::DifferentSession)
    } else if p.turn_index >= session.turns@.len() {
        Some(TurnError::StaleIndex)
    } else if session.turns@[p.turn_index as int].id@ != p.turn_id@ || session.turns@[p.turn_index
        as int].status != TurnStatus::Pending {
        Some(TurnError::NotPending)
    } else {
        None
    }
}

pub fn pending_turn(session: &Session, p: &PreparedTurn) -> (r: Result<(), TurnError>)
    ensures
        match r {
            Ok(_) => pending_fault(*session, *p) is None,
            Err(e) => pending_fault(*session, *p) == Some(e),
        },
{
    if !text_eq(session.id.as_str(), p.session_id.as_str()) {
        return Err(TurnError::DifferentSession);
    }
    if p.turn_index >= session.turns.len() {
        return Err(TurnError::StaleIndex);
    }
    let turn = &session.turns[p.turn_index];
    if !text_eq(turn.id.as_str(), p.turn_id.as_str()) || !(turn.status == TurnStatus::Pending) {
        return Err(TurnError::NotPending);
    }
    Ok(())
}

/// What a decision at the limit leads to.
pub enum LimitOutcome {
    Ended,
    Blocked,
    Continued,
}

pub open spec fn limit_outcome(p: PreparedTurn, action: LimitAction, budget: BudgetConfig) ->
    LimitOutcome {
    if action == LimitAction::EndSession {
        LimitOutcome::Ended
    } else if p.plan.retrieval_trace.budget_allocation.mandatory_input_tokens
        >= budget.trim_target {
        LimitOutcome::Blocked
    } else {
        LimitOutcome::Continued
    }
}

/// Where the context starts once older turns are dropped.
pub open spec fn trimmed_start(p: PreparedTurn) -> usize {
    if p.plan.selected_history_indices@.len() > 0 {
        p.plan.selected_history_indices@[0]
    } else {
        p.turn_index
    }
}

/// The user ended the session at the limit: the message is not sent.
pub open spec fn ended_at_limit(
    before: Session,
    after: Session,
    p: PreparedTurn,
    r: PreparedTurn,
    now: Seq<char>,
) -> bool {
    let i = p.turn_index as int;
    let t = after.turns@[i];
    let message = "用户选择在上下文临界点暂停会话；消息未发送给模型"@;
    &&& after == (Session { turns: after.turns, status: SessionStatus::Paused, ..before })
    &&& after.turns@ == before.turns@.update(i, t)
    &&& t == (Turn {
        status: TurnStatus::Blocked,
        error: t.error,
        updated_at: t.updated_at,
        context_trace: ContextTrace {
            decision: t.context_trace.decision,
            ..before.turns@[i].context_trace
        },
        ..before.turns@[i]
    })
    &&& text::opt_text(t.error) == Some(message)
    &&& t.context_trace.decision@ == "paused_by_user"@
    &&& t.updated_at@ == now
    &&& r == (PreparedTurn { status: PreparationStatus::Ended, message: r.message, ..p })
    &&& r.message@ == message
}

/// The unavoidable part is above the trim target: nothing can be trimmed.
pub open spec fn blocked_at_limit(
    before: Session,
    after: Session,
    p: PreparedTurn,
    r: PreparedTurn,
    now: Seq<char>,
) -> bool {
    let i = p.turn_index as int;
    let t = after.turns@[i];
    let start = before.active_context_start_index;
    let message = "系统提示与当前输入超过 80% 安全裁剪目标，请缩短系统提示或当前输入"@;
    &&& after == (Session { turns: after.turns, status: SessionStatus::Paused, ..before })
    &&& after.turns@ == before.turns@.update(i, t)
    &&& t == (Turn {
        status: TurnStatus::Blocked,
        error: t.error,
        updated_at: t.updated_at,
        context_trace: t.context_trace,
        ..before.turns@[i]
    })
    &&& plan_traced(
        t.context_trace,
        before,
        p.plan,
        "mandatory_above_trim_target"@,
        start,
        start,
    )
    &&& text::opt_text(t.error) == Some(message)
    &&& t.updated_at@ == now
    &&& is_prepared(
        r,
        before,
        p.turn_index,
        p.plan,
        PreparationStatus::Blocked,
        message,
        None,
    )
}

/// The oldest turns are dropped for good, and the turn is ready.
pub open spec fn continued_at_limit(
    before: Session,
    after: Session,
    p: PreparedTurn,
    r: PreparedTurn,
    now: Seq<char>,
) -> bool {
    let i = p.turn_index as int;
    let t = after.turns@[i];
    let start = before.active_context_start_index;
    &&& after == (Session {
        turns: after.turns,
        status: SessionStatus::Active,
        active_context_start_index: trimmed_start(p),
        ..before
    })
    &&& after.turns@ == before.turns@.update(i, t)
    &&& t == (Turn {
        updated_at: t.updated_at,
        context_trace: t.context_trace,
        ..before.turns@[i]
    })
    &&& plan_traced(
        t.context_trace,
        before,
        p.plan,
        "trimmed_and_continued"@,
        start,
        trimmed_start(p),
    )
    &&& t.updated_at@ == now
    &&& is_prepared(
        r,
        before,
        p.turn_index,
        p.plan,
        PreparationStatus::Ready,
        "已保留最近 "@ + text::decimal(p.plan.selected_history_indices@.len())
            + " 个完整轮次并继续。"@,
        p.query_embedding,
    )
}

fn end_at_limit(session: &mut Session, p: PreparedTurn, now: &str) -> (r: PreparedTurn)
    requires
        p.turn_index < old(session).turns@.len(),
    ensures
        ended_at_limit(*old(session), *final(session), p, r, now@),
{
    let index = p.turn_index;
    let message = "用户选择在上下文临界点暂停会话；消息未发送给模型";
    close_turn(&mut session.turns[index], TurnStatus::Blocked, message, now);
    let turn = &mut session.turns[index];
    turn.context_trace.decision = "paused_by_user".to_owned();
    session.status = SessionStatus::Paused;
    assert(session.turns@ =~= old(session).turns@.update(index as int, session.turns@[index as int]));
    let mut ended = p;
    ended.status = PreparationStatus::Ended;
    ended.message = message.to_owned();
    ended
}

fn block_at_limit(session: &mut Session, p: PreparedTurn, now: &str) -> (r: PreparedTurn)
    requires
        p.turn_index < old(session).turns@.len(),
    ensures
        blocked_at_limit(*old(session), *final(session), p, r, now@),
{
    let index = p.turn_index;
    let start = session.active_context_start_index;
    let message = "系统提示与当前输入超过 80% 安全裁剪目标，请缩短系统提示或当前输入";
    apply_trace(session, index, &p.plan, "mandatory_above_trim_target", start, start);
    close_turn(&mut session.turns[index], TurnStatus::Blocked, message, now);
    session.status = SessionStatus::Paused;
    assert(session.turns@ =~= old(session).turns@.update(index as int, session.turns@[index as int]));
    prepared(session, index, p.plan, PreparationStatus::Blocked, message, None)
}

fn continue_at_limit(session: &mut Session, p: PreparedTurn, now: &str) -> (r: PreparedTurn)
    requires
        p.turn_index < old(session).turns@.len(),
    ensures
        continued_at_limit(*old(session), *final(session), p, r, now@),
{
    let ghost before = *session;
    let index = p.turn_index;
    let start = session.active_context_start_index;
    let retained = p.plan.selected_history_indices.len();
    let new_start = if retained > 0 {
        p.plan.selected_history_indices[0]
    } else {
        index
    };
    apply_trace(session, index, &p.plan, "trimmed_and_continued", start, new_start);
    session.active_context_start_index = new_start;
    session.status = SessionStatus::Active;
    let turn = &mut session.turns[index];
    turn.updated_at = now.to_owned();
    assert(session.turns@ =~= before.turns@.update(index as int, session.turns@[index as int]));
    let mut message = "已保留最近 ".to_owned();
    push_decimal(&mut message, retained as u64);
    message.append(" 个完整轮次并继续。");
    prepared(
        session,
        index,
        p.plan,
        PreparationStatus::Ready,
        message.as_str(),
        p.query_embedding,
    )
}

/// What a decision at the limit makes of the session and of the prepared turn.
pub open spec fn limit_resolved(
    before: Session,
    after: Session,
    p: PreparedTurn,
    action: LimitAction,
    r: PreparedTurn,
    now: Seq<char>,
) -> bool {
    match limit_outcome(p, action, before.budget) {
        LimitOutcome::Ended => ended_at_limit(before, after, p, r, now),
        LimitOutcome::Blocked => blocked_at_limit(before, after, p, r, now),
        LimitOutcome::Continued => continued_at_limit(before, after, p, r, now),
    }
}

/// Carries out what the user decided at the limit.
pub fn resolve_limit(session: &mut Session, p: PreparedTurn, action: LimitAction, now: &str) -> (r:
    Result<PreparedTurn, TurnError>)
    ensures
        match r {
            Err(e) => *final(session) == *old(session) && (if p.status
                != PreparationStatus::LimitWarning {
                e is NoLimitDecision
            } else {
                pending_fault(*old(session), p) == Some(e)
            }),
            Ok(q) => p.status == PreparationStatus::LimitWarning && pending_fault(
                *old(session),
                p,
            ) is None && limit_resolved(*old(session), *final(session), p, action, q, now@),
        },
{
    if !p.needs_limit_decision() {
        return Err(TurnError::NoLimitDecision);
    }
    if let Err(e) = pending_turn(session, &p) {
        return Err(e);
    }
    if action == LimitAction::EndSession {
        return Ok(end_at_limit(session, p, now));
    }
    let mandatory = p.plan.retrieval_trace.budget_allocation.mandatory_input_tokens;
    if mandatory >= session.budget.trim_target {
        return Ok(block_at_limit(session, p, now));
    }
    Ok(continue_at_limit(session, p, now))
}

/// Whatever is decided at the limit, the turn keeps what was retrieved for it when
/// it was prepared, nothing is retrieved or sent anew, and no other turn changes.
pub proof fn limit_decisions_keep_the_retrieval(
    before: Session,
    after: Session,
    p: PreparedTurn,
    action: LimitAction,
    r: PreparedTurn,
    now: Seq<char>,
    start: usize,
)
    requires
        p.turn_index < before.turns@.len(),
        plan_traced(
            before.turns@[p.turn_index as int].context_trace,
            before,
            p.plan,
            "limit_warning"@,
            start,
            start,
        ),
        limit_resolved(before, after, p, action, r, now),
    ensures
        r.plan == p.plan,
        after.turns@.len() == before.turns@.len(),
        ({
            let t = after.turns@[p.turn_index as int];
            &&& t.context_trace.retrieval.same(p.plan.retrieval_trace)
            &&& t.context_trace.knowledge.same(p.plan.knowledge_trace)
            &&& t.context_trace.context_items@ == p.plan.context_items@
            &&& t.request_started_at == before.turns@[p.turn_index as int].request_started_at
        }),
        forall|j: int|
            0 <= j < before.turns@.len() && j != p.turn_index ==> after.turns@[j]
                == before.turns@[j],
{
}

/// The thresholds are inclusive: a request at the warning threshold needs a
/// decision, and one below it does not.
pub proof fn thresholds_are_inclusive(plan: ContextPlan, full_tokens: u64, budget: BudgetConfig)
    requires
        plan.retrieval_trace.budget_allocation.mandatory_input_tokens <= budget.input_budget_spec(),
    ensures
        preparation_verdict(plan, full_tokens, budget) == PreparationStatus::LimitWarning
            <==> full_tokens >= budget.warning_threshold,
        full_tokens < budget.warning_threshold ==> limit_for(full_tokens, budget)
            == budget.input_budget_spec(),
        full_tokens >= budget.warning_threshold && budget.trim_target > 0 ==> limit_for(
            full_tokens,
            budget,
        ) < budget.trim_target,
{
}

#[derive(Clone, Copy, Debug, PartialEq, Eq, Structural)]
pub enum ChatEventKind {
    Thinking,
    Content,
    Completed,
    Usage,
}

/// One piece of a streamed answer.
#[derive(Debug, PartialEq, Eq)]
pub struct ChatEvent {
    pub kind: ChatEventKind,
    pub text: String,
    pub live_output_tokens: Option<u64>,
    pub usage: Option<TokenUsage>,
    pub done_reason: Option<String>,
}

/// What has been streamed so far.
#[derive(Debug, PartialEq, Eq)]
pub struct StreamState {
    pub thinking: String,
    pub content: String,
    pub live_output_tokens: u64,
    pub final_usage: Option<TokenUsage>,
    pub done_reason: Option<String>,
}

/// A stream by what it holds.
pub struct StreamModel {
    pub thinking: Seq<char>,
    pub content: Seq<char>,
    pub live_output_tokens: u64,
    pub final_usage: Option<TokenUsage>,
    pub done_reason: Option<Seq<char>>,
}

/// The stream after one more event: deltas are appended as they come, and only
/// the completion carries the usage.
pub open spec fn streamed(m: StreamModel, e: ChatEvent) -> StreamModel {
    let t = StreamModel {
        live_output_tokens: match e.live_output_tokens {
            Some(n) => n,
            None => m.live_output_tokens,
        },
        ..m
    };
    match e.kind {
        ChatEventKind::Thinking => StreamModel { thinking: m.thinking + e.text@, ..t },
        ChatEventKind::Content => StreamModel { content: m.content + e.text@, ..t },
        ChatEventKind::Completed => StreamModel {
            final_usage: e.usage,
            done_reason: text::opt_text(e.done_reason),
            ..t
        },
        ChatEventKind::Usage => t,
    }
}

impl StreamState {
    pub open spec fn model(&self) -> StreamModel {
        StreamModel {
            thinking: self.thinking@,
            content: self.content@,
            live_output_tokens: self.live_output_tokens,
            final_usage: self.final_usage,
            done_reason: text::opt_text(self.done_reason),
        }
    }

    pub fn new() -> (r: Self)
        ensures
            r.thinking@.len() == 0,
            r.content@.len() == 0,
            r.live_output_tokens == 0,
            r.final_usage is None,
            r.done_reason is None,
    {
        StreamState {
            thinking: String::new(),
            content: String::new(),
            live_output_tokens: 0,
            final_usage: None,
            done_reason: None,
        }
    }

    pub fn note(&mut self, event: &ChatEvent)
        ensures
            final(self).model() == streamed(old(self).model(), *event),
    {
        if let Some(n) = event.live_output_tokens {
            self.live_output_tokens = n;
        }
        match event.kind {
            ChatEventKind::Thinking => self.thinking.append(event.text.as_str()),
            ChatEventKind::Content => self.content.append(event.text.as_str()),
            ChatEventKind::Completed => {
                self.final_usage = event.usage;
                self.done_reason = copy_opt(&event.done_reason);
            },
            ChatEventKind::Usage => {},
        }
    }
}

#[derive(Clone, Copy, Debug, PartialEq, Eq, Structural)]
pub enum StreamFailureKind {
    ContextLength,
    Cancelled,
    Protocol,
    Other,
}

/// Why a stream broke off.
#[derive(Debug, PartialEq, Eq)]
pub struct StreamFailure {
    pub kind: StreamFailureKind,
    pub message: String,
    pub live_output_tokens: Option<u64>,
}

/// Marks a turn as sent, before anything is sent.
pub fn begin_stream(session: &mut Session, p: &PreparedTurn, now: &str) -> (r: Result<(), TurnError>)
    ensures
        match r {
            Err(e) => *final(session) == *old(session) && (if p.status
                != PreparationStatus::Ready {
                e is NotReady
            } else {
                pending_fault(*old(session), *p) == Some(e)
            }),
            Ok(_) => {
                let i = p.turn_index as int;
                let t = final(session).turns@[i];
                &&& p.status == PreparationStatus::Ready
                &&& pending_fault(*old(session), *p) is None
                &&& *final(session) == (Session { turns: final(session).turns, ..*old(session) })
                &&& final(session).turns@ == old(session).turns@.update(i, t)
                &&& t == (Turn {
                    request_started_at: t.request_started_at,
                    updated_at: t.updated_at,
                    ..old(session).turns@[i]
                })
                &&& text::opt_text(t.request_started_at) == Some(now@)
                &&& t.updated_at@ == now@
            },
        },
{
    if !p.ready() {
        return Err(TurnError::NotReady);
    }
    if let Err(e) = pending_turn(session, p) {
        return Err(e);
    }
    let turn = &mut session.turns[p.turn_index];
    turn.request_started_at = Some(now.to_owned());
    turn.updated_at = now.to_owned();
    Ok(())
}

/// What is known of the usage of a stream that broke off: never a count that was
/// made before.
pub open spec fn broken_usage(m: StreamModel, live: u64, usage: TokenUsage) -> bool {
    match m.final_usage {
        Some(u) => usage == u,
        None => {
            &&& usage.input_tokens is None
            &&& usage.output_tokens == (if live > 0 {
                Some(live)
            } else {
                None
            })
            &&& usage.total_tokens is None
        },
    }
}

/// The status of a turn whose stream broke off.
pub open spec fn broken_status(kind: StreamFailureKind, m: StreamModel, live: u64) -> TurnStatus {
    match kind {
        StreamFailureKind::ContextLength => TurnStatus::Blocked,
        StreamFailureKind::Cancelled => TurnStatus::Interrupted,
        _ => if m.thinking.len() > 0 || m.content.len() > 0 || live > 0 {
            TurnStatus::Interrupted
        } else {
            TurnStatus::Failed
        },
    }
}

/// Whether a failure pauses the session.
pub open spec fn pauses(kind: StreamFailureKind) -> bool {
    kind == StreamFailureKind::ContextLength || kind == StreamFailureKind::Cancelled
}

/// A session whose turn broke off.
pub open spec fn stream_broken(
    before: Session,
    after: Session,
    i: int,
    m: StreamModel,
    kind: StreamFailureKind,
    message: Seq<char>,
    live: u64,
    now: Seq<char>,
) -> bool {
    let t = after.turns@[i];
    &&& after == (Session {
        turns: after.turns,
        status: if pauses(kind) {
            SessionStatus::Paused
        } else {
            before.status
        },
        ..before
    })
    &&& after.turns@ == before.turns@.update(i, t)
    &&& t == (Turn {
        thinking: t.thinking,
        assistant_content: t.assistant_content,
        usage: t.usage,
        status: broken_status(kind, m, live),
        error: t.error,
        updated_at: t.updated_at,
        ..before.turns@[i]
    })
    &&& t.thinking@ == m.thinking
    &&& t.assistant_content@ == m.content
    &&& broken_usage(m, live, t.usage)
    &&& text::opt_text(t.error) == Some(message)
    &&& t.updated_at@ == now
}

/// Closes a turn whose stream broke off, with whatever was streamed.
pub fn persist_stream_error(
    session: &mut Session,
    turn_index: usize,
    state: &StreamState,
    failure: &StreamFailure,
    now: &str,
)
    requires
        turn_index < old(session).turns@.len(),
    ensures
        stream_broken(
            *old(session),
            *final(session),
            turn_index as int,
            state.model(),
            failure.kind,
            failure.message@,
            match failure.live_output_tokens {
                Some(n) => n,
                None => state.live_output_tokens,
            },
            now@,
        ),
{
    let live = match failure.live_output_tokens {
        Some(n) => n,
        None => state.live_output_tokens,
    };
    let usage = match state.final_usage {
        Some(usage) => usage,
        None => TokenUsage::new(
            None,
            if live > 0 {
                Some(live)
            } else {
                None
            },
        ),
    };
    let partial = state.thinking.as_str().unicode_len() > 0 || state.content.as_str().unicode_len()
        > 0 || live > 0;
    let status = match failure.kind {
        StreamFailureKind::ContextLength => TurnStatus::Blocked,
        StreamFailureKind::Cancelled => TurnStatus::Interrupted,
        _ => if partial {
            TurnStatus::Interrupted
        } else {
            TurnStatus::Failed
        },
    };
    close_turn(&mut session.turns[turn_index], status, failure.message.as_str(), now);
    let turn = &mut session.turns[turn_index];
    turn.thinking = state.thinking.clone();
    turn.assistant_content = state.content.clone();
    turn.usage = usage;
    if failure.kind == StreamFailureKind::ContextLength || failure.kind
        == StreamFailureKind::Cancelled {
        session.status = SessionStatus::Paused;
    }
    assert(session.turns@ =~= old(session).turns@.update(
        turn_index as int,
        session.turns@[turn_index as int],
    ));
}

/// What is wrong with a stream that came to its end, if anything.
pub open spec fn stream_defect(p: PreparedTurn, m: StreamModel) -> Option<Seq<char>> {
    match m.final_usage {
        None => Some("模型流在完成事件之前结束"@),
        Some(usage) => if p.plan.exact_input_tokens is Some && p.plan.exact_input_tokens
            != usage.input_tokens {
            Some("精确探测与正式请求的输入 token 不一致；拒绝将该轮加入上下文"@)
        } else {
            None
        },
    }
}

/// How an answered turn is closed: an answer without content is no answer, and
/// one that hit the output limit is truncated.
pub open spec fn answer_status(m: StreamModel) -> (TurnStatus, Option<Seq<char>>) {
    if m.content.len() == 0 {
        (TurnStatus::NoAnswer, Some("模型未返回可作为后续上下文的正文"@))
    } else if m.done_reason == Some("length"@) {
        (TurnStatus::Truncated, Some("回答达到输出 token 上限，正文可能不完整"@))
    } else {
        (TurnStatus::Complete, None)
    }
}

/// A session whose turn was answered.
pub open spec fn stream_completed(
    before: Session,
    after: Session,
    i: int,
    m: StreamModel,
    now: Seq<char>,
) -> bool {
    let t = after.turns@[i];
    &&& after == (Session { turns: after.turns, status: SessionStatus::Active, ..before })
    &&& after.turns@ == before.turns@.update(i, t)
    &&& t == (Turn {
        thinking: t.thinking,
        assistant_content: t.assistant_content,
        usage: t.usage,
        done_reason: t.done_reason,
        context_trace: ContextTrace {
            exact_input_tokens: t.usage.input_tokens,
            ..before.turns@[i].context_trace
        },
        status: answer_status(m).0,
        error: t.error,
        updated_at: t.updated_at,
        ..before.turns@[i]
    })
    &&& t.thinking@ == m.thinking
    &&& t.assistant_content@ == m.content
    &&& Some(t.usage) == m.final_usage
    &&& text::opt_text(t.done_reason) == m.done_reason
    &&& text::opt_text(t.error) == answer_status(m).1
    &&& t.updated_at@ == now
}

fn complete_stream(
    session: &mut Session,
    turn_index: usize,
    state: StreamState,
    usage: TokenUsage,
    now: &str,
)
    requires
        turn_index < old(session).turns@.len(),
        state.final_usage == Some(usage),
    ensures
        stream_completed(*old(session), *final(session), turn_index as int, state.model(), now@),
{
    let (status, error) = if state.content.as_str().unicode_len() == 0 {
        (TurnStatus::NoAnswer, Some("模型未返回可作为后续上下文的正文".to_owned()))
    } else {
        let cut = match &state.done_reason {
            Some(reason) => text_eq(reason.as_str(), "length"),
            None => false,
        };
        if cut {
            (
                TurnStatus::Truncated,
                Some("回答达到输出 token 上限，正文可能不完整".to_owned()),
            )
        } else {
            (TurnStatus::Complete, None)
        }
    };
    let turn = &mut session.turns[turn_index];
    turn.thinking = state.thinking;
    turn.assistant_content = state.content;
    turn.usage = usage;
    turn.done_reason = state.done_reason;
    turn.context_trace.exact_input_tokens = usage.input_tokens;
    turn.status = status;
    turn.error = error;
    turn.updated_at = now.to_owned();
    session.status = SessionStatus::Active;
}

/// Closes a turn after its stream: with the failure that broke it off, with what
/// is wrong with it, or with the answer.
pub fn end_stream(
    session: &mut Session,
    p: &PreparedTurn,
    state: StreamState,
    failure: Option<StreamFailure>,
    now: &str,
) -> (r: Result<(), StreamFailure>)
    requires
        p.turn_index < old(session).turns@.len(),
    ensures
        match failure {
            Some(f) => r == Err::<(), StreamFailure>(f) && stream_broken(
                *old(session),
                *final(session),
                p.turn_index as int,
                state.model(),
                f.kind,
                f.message@,
                match f.live_output_tokens {
                    Some(n) => n,
                    None => state.live_output_tokens,
                },
                now@,
            ),
            None => match stream_defect(*p, state.model()) {
                Some(defect) => (r matches Err(f) && f.kind == StreamFailureKind::Protocol
                    && f.message@ == defect && f.live_output_tokens is None) && stream_broken(
                    *old(session),
                    *final(session),
                    p.turn_index as int,
                    state.model(),
                    StreamFailureKind::Protocol,
                    defect,
                    state.live_output_tokens,
                    now@,
                ),
                None => r is Ok && stream_completed(
                    *old(session),
                    *final(session),
                    p.turn_index as int,
                    state.model(),
                    now@,
                ),
            },
        },
{
    if let Some(f) = failure {
        persist_stream_error(session, p.turn_index, &state, &f, now);
        return Err(f);
    }
    let (defect, usage) = match state.final_usage {
        None => (Some("模型流在完成事件之前结束"), TokenUsage::new(None, None)),
        Some(usage) => {
            let differs = match (p.plan.exact_input_tokens, usage.input_tokens) {
                (Some(a), Some(b)) => a != b,
                (Some(_), None) => true,
                (None, _) => false,
            };
            if differs {
                (
                    Some("精确探测与正式请求的输入 token 不一致；拒绝将该轮加入上下文"),
                    usage,
                )
            } else {
                (None, usage)
            }
        },
    };
    match defect {
        Some(message) => {
            let f = StreamFailure {
                kind: StreamFailureKind::Protocol,
                message: message.to_owned(),
                live_output_tokens: None,
            };
            persist_stream_error(session, p.turn_index, &state, &f, now);
            Err(f)
        },
        None => {
            complete_stream(session, p.turn_index, state, usage, now);
            Ok(())
        },
    }
}

/// Only a turn that was answered in full can be seen by later turns.
pub proof fn only_complete_answers_are_remembered(
    before: Session,
    after: Session,
    i: int,
    m: StreamModel,
    now: Seq<char>,
)
    requires
        stream_completed(before, after, i, m, now),
        0 <= i < before.turns@.len(),
    ensures
        after.turns@[i].eligible() <==> m.content.len() > 0 && m.done_reason != Some("length"@),
{
}

/// A turn whose stream broke off is never seen by later turns.
pub proof fn broken_turns_are_not_remembered(
    before: Session,
    after: Session,
    i: int,
    m: StreamModel,
    kind: StreamFailureKind,
    message: Seq<char>,
    live: u64,
    now: Seq<char>,
)
    requires
        stream_broken(before, after, i, m, kind, message, live, now),
        0 <= i < before.turns@.len(),
    ensures
        !after.turns@[i].eligible(),
{
}

/// The inputs by which the messages of an answered turn are embedded in the
/// background; none while memory is disabled or the turn has no answer.
pub fn background_inputs(session: &Session, turn_index: usize, enabled: bool) -> (r: Vec<String>)
    ensures
        text::texts(r@) == (if enabled && turn_index < session.turns@.len()
            && session.turns@[turn_index as int].assistant_content@.len() > 0 {
            crate::windows::message_inputs(session.turns@[turn_index as int].user_content@)
                + crate::windows::message_inputs(
                session.turns@[turn_index as int].assistant_content@,
            )
        } else {
            Seq::empty()
        }),
{
    let none: Vec<String> = Vec::new();
    assert(text::texts(none@) =~= Seq::empty());
    if !enabled || turn_index >= session.turns.len() {
        return none;
    }
    let turn = &session.turns[turn_index];
    if turn.assistant_content.as_str().unicode_len() == 0 {
        return none;
    }
    crate::windows::turn_leaf_embedding_inputs(
        turn.user_content.as_str(),
        turn.assistant_content.as_str(),
    )
}

/// The digest under which the query vector of an answered turn is cached; none
/// while memory is disabled, or without a vector or an answer.
pub fn query_cache_key(session: &Session, p: &PreparedTurn, enabled: bool) -> (r: Option<String>)
    ensures
        text::opt_text(r) == (if enabled && p.query_embedding is Some && p.turn_index
            < session.turns@.len() && session.turns@[p.turn_index as int].assistant_content@.len()
            > 0 {
            Some(digest::text_digest(session.turns@[p.turn_index as int].user_content@))
        } else {
            None
        }),
        r matches Some(key) ==> digest::sha256_shape(key@),
{
    if !enabled || p.query_embedding.is_none() || p.turn_index >= session.turns.len() {
        return None;
    }
    let turn = &session.turns[p.turn_index];
    if turn.assistant_content.as_str().unicode_len() == 0 {
        return None;
    }
    Some(content_sha256(turn.user_content.as_str()))
}

/// What is decided at the limit. Ending pauses the session and blocks the turn.
/// Going on is possible exactly where the unavoidable part lies below the trim
/// target: the turn stays pending, and the context starts at the first turn that
/// the plan kept, or at this one. Otherwise the turn is blocked and nothing is
/// dropped.
pub proof fn limits_are_resolved_as_decided(
    before: Session,
    after: Session,
    p: PreparedTurn,
    action: LimitAction,
    r: PreparedTurn,
    now: Seq<char>,
)
    requires
        p.turn_index < before.turns@.len(),
        limit_resolved(before, after, p, action, r, now),
    ensures
        ({
            let i = p.turn_index as int;
            let mandatory = p.plan.retrieval_trace.budget_allocation.mandatory_input_tokens;
            let kept = p.plan.selected_history_indices@;
            let goes_on = action != LimitAction::EndSession && mandatory
                < before.budget.trim_target;
            &&& goes_on <==> r.status == PreparationStatus::Ready
            &&& action == LimitAction::EndSession <==> r.status == PreparationStatus::Ended
            &&& action != LimitAction::EndSession && mandatory >= before.budget.trim_target
                <==> r.status == PreparationStatus::Blocked
            &&& goes_on ==> after.status == SessionStatus::Active && after.turns@[i].status
                == before.turns@[i].status && after.active_context_start_index == (if kept.len()
                > 0 {
                kept[0]
            } else {
                p.turn_index
            })
            &&& !goes_on ==> after.status == SessionStatus::Paused && after.turns@[i].status
                == TurnStatus::Blocked && after.turns@[i].error is Some
                && after.active_context_start_index == before.active_context_start_index
            &&& forall|j: int|
                0 <= j < before.turns@.len() && j != i ==> #[trigger] after.turns@[j]
                    == before.turns@[j]
        }),
{
}

/// A turn is blocked exactly where its unavoidable part does not fit into the
/// window beside the longest answer and the margin.
pub proof fn requests_are_blocked_by_their_size(
    plan: ContextPlan,
    full_tokens: u64,
    budget: BudgetConfig,
)
    requires
        budget.max_output_tokens + budget.safety_margin_tokens <= budget.context_window,
    ensures
        ({
            let mandatory = plan.retrieval_trace.budget_allocation.mandatory_input_tokens;
            let verdict = preparation_verdict(plan, full_tokens, budget);
            let room = budget.context_window - budget.max_output_tokens
                - budget.safety_margin_tokens;
            &&& verdict == PreparationStatus::Blocked <==> mandatory > room
            &&& verdict == PreparationStatus::Ready <==> mandatory <= room && full_tokens
                < budget.warning_threshold
            &&& verdict == PreparationStatus::Blocked || verdict == PreparationStatus::Ready
                || verdict == PreparationStatus::LimitWarning
        }),
{
}

/// A stream that broke off leaves a turn blocked where the context was too long,
/// interrupted where the user stopped it or something had come, and failed where
/// nothing had; only the first two pause the session. No usage is made up.
pub proof fn broken_streams_are_told_apart(
    before: Session,
    after: Session,
    i: int,
    m: StreamModel,
    kind: StreamFailureKind,
    message: Seq<char>,
    live: u64,
    now: Seq<char>,
)
    requires
        stream_broken(before, after, i, m, kind, message, live, now),
        0 <= i < before.turns@.len(),
    ensures
        ({
            let t = after.turns@[i];
            let long = kind == StreamFailureKind::ContextLength;
            let stopped = kind == StreamFailureKind::Cancelled;
            let came = m.thinking.len() > 0 || m.content.len() > 0 || live > 0;
            &&& t.status == TurnStatus::Blocked <==> long
            &&& t.status == TurnStatus::Interrupted <==> stopped || (!long && came)
            &&& t.status == TurnStatus::Failed <==> !long && !stopped && !came
            &&& after.status == (if long || stopped {
                SessionStatus::Paused
            } else {
                before.status
            })
            &&& t.assistant_content@ == m.content && t.thinking@ == m.thinking
            &&& m.final_usage is None ==> t.usage.input_tokens is None && t.usage.total_tokens is None
                && (t.usage.output_tokens is Some <==> live > 0) && (t.usage.output_tokens matches
                Some(n) ==> n == live)
            &&& m.final_usage matches Some(u) ==> t.usage == u
        }),
{
}

/// An answer without a body is no answer, one that hit the output limit is
/// truncated, and every other is complete; only the last is without an error.
pub proof fn answers_are_told_apart(
    before: Session,
    after: Session,
    i: int,
    m: StreamModel,
    now: Seq<char>,
)
    requires
        stream_completed(before, after, i, m, now),
        0 <= i < before.turns@.len(),
    ensures
        ({
            let t = after.turns@[i];
            let cut = m.done_reason == Some("length"@);
            &&& t.status == TurnStatus::NoAnswer <==> m.content.len() == 0
            &&& t.status == TurnStatus::Truncated <==> m.content.len() > 0 && cut
            &&& t.status == TurnStatus::Complete <==> m.content.len() > 0 && !cut
            &&& t.error is None <==> t.status == TurnStatus::Complete
            &&& t.assistant_content@ == m.content && t.thinking@ == m.thinking
            &&& Some(t.usage) == m.final_usage
            &&& t.context_trace.exact_input_tokens == t.usage.input_tokens
            &&& after.status == SessionStatus::Active
        }),
{
}

/// Only pieces of the answer make it longer, only pieces of thought the thinking,
/// and only the completion tells usage and reason.
pub proof fn pieces_are_appended(m: StreamModel, e: ChatEvent)
    ensures
        ({
            let s = streamed(m, e);
            &&& s.content == m.content + (if e.kind == ChatEventKind::Content {
                e.text@
            } else {
                Seq::empty()
            })
            &&& s.thinking == m.thinking + (if e.kind == ChatEventKind::Thinking {
                e.text@
            } else {
                Seq::empty()
            })
            &&& e.kind != ChatEventKind::Completed ==> s.final_usage == m.final_usage
                && s.done_reason == m.done_reason
            &&& e.kind == ChatEventKind::Completed ==> s.final_usage == e.usage && s.done_reason
                == text::opt_text(e.done_reason)
            &&& e.live_output_tokens is None ==> s.live_output_tokens == m.live_output_tokens
            &&& e.live_output_tokens matches Some(n) ==> s.live_output_tokens == n
        }),
{
    assert(m.content + Seq::<char>::empty() =~= m.content);
    assert(m.thinking + Seq::<char>::empty() =~= m.thinking);
}

/// Of a list of turns exactly those are left that the controls allow.
pub proof fn allowed_turns_are_left(
    m: control::ControlModel,
    session: Session,
    indices: Seq<usize>,
    i: usize,
)
    ensures
        allowed_only(m, session, indices).contains(i) <==> indices.contains(i)
            && control::turn_allowed(m, session.id@, session.turns@[i as int].id@),
    decreases indices.len(),
{
    if indices.len() > 0 {
        let short = indices.drop_last();
        allowed_turns_are_left(m, session, short, i);
        let before = allowed_only(m, session, short);
        let now = allowed_only(m, session, indices);
        if indices.contains(i) {
            let k = choose|k: int| 0 <= k < indices.len() && indices[k] == i;
            if k < short.len() {
                assert(short[k] == i);
            }
        }
        if short.contains(i) {
            let k = choose|k: int| 0 <= k < short.len() && short[k] == i;
            assert(indices[k] == i);
        }
        if now.contains(i) {
            let k = choose|k: int| 0 <= k < now.len() && now[k] == i;
            if k < before.len() {
                assert(before[k] == i);
            } else {
                assert(indices[indices.len() - 1] == i);
            }
        }
        if before.contains(i) {
            let k = choose|k: int| 0 <= k < before.len() && before[k] == i;
            assert(now[k] == i);
        }
        if now.len() > before.len() {
            assert(now[before.len() as int] == indices.last());
        }
    }
}

/// The groups that are taken one after another fill the hard limits: every other
/// group would break one together with them.
pub proof fn unhindered_groups_fill_the_limits(
    groups: Seq<budget::GroupModel>,
    n: int,
    config: model::RetrievalConfig,
    graph_limit: usize,
    i: int,
)
    requires
        0 <= i < n <= usize::MAX,
    ensures
        ({
            let taken = unhindered(groups, n, config, graph_limit);
            taken.contains(i as usize) || budget::hard_reason(
                groups,
                taken,
                i as usize,
                config,
                graph_limit,
            ) is Some
        }),
    decreases n,
{
    let before = unhindered(groups, n - 1, config, graph_limit);
    let taken = unhindered(groups, n, config, graph_limit);
    let more = taken.skip(before.len() as int);
    assert(taken =~= before + more);
    if i < n - 1 {
        unhindered_groups_fill_the_limits(groups, n - 1, config, graph_limit, i);
        if before.contains(i as usize) {
            let k = choose|k: int| 0 <= k < before.len() && before[k] == i as usize;
            assert(taken[k] == i as usize);
        } else {
            budget::refusals_stay(groups, before, more, i as usize, config, graph_limit);
        }
    } else if taken.len() > before.len() {
        assert(taken[before.len() as int] == i as usize);
    }
}

} // verus!
