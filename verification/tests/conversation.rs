use hippocampus::allocation::{plan_metric, AllocationRequest};
use hippocampus::control::ControlState;
use hippocampus::context::ContextAssembler;
use hippocampus::digest::content_sha256;
use hippocampus::knowledge::{KnowledgeRecall, KnowledgeTrace};
use hippocampus::model::{
    context_sha256, event_id, BudgetConfig, ChatMessage, ContextPlan, EventRole, EvidenceKind,
    QueryKind, RecallResult, RecalledEvidence, RetrievalConfig, RetrievalTrace, SelectedEvidence,
    Session, SessionStatus, SourceSpan, TokenUsage, Turn, TurnStatus,
};
use hippocampus::turn::{
    allocation_limit, allowed_history, begin_stream, conclude_preparation, end_stream,
    exact_check_due, open_turn, overflow_usage, persist_stream_error, plan_in_full, plan_turn,
    probe_key, record_search, recover_stale_pending, resolve_limit, ChatEvent, ChatEventKind,
    LimitAction, PreparationProbeCache, PreparationProgress, PreparationStatus, PreparedTurn,
    StreamFailure, StreamFailureKind, StreamState, TurnError,
};

const NOW: &str = "2026-08-21T00:00:00Z";

fn budget() -> BudgetConfig {
    BudgetConfig {
        context_window: 1_000,
        max_output_tokens: 60,
        safety_margin_tokens: 40,
        probe_threshold: 720,
        warning_threshold: 810,
        trim_target: 630,
    }
}

fn session(turns: Vec<Turn>) -> Session {
    Session {
        id: "one".into(),
        title: "".into(),
        created_at: NOW.into(),
        updated_at: NOW.into(),
        model: "model".into(),
        ollama_host: "http://localhost".into(),
        ai_name: "LLM".into(),
        system_prompt: "system".into(),
        think: true,
        status: SessionStatus::Active,
        budget: budget(),
        retrieval: RetrievalConfig {
            candidate_limit: 30,
            max_selected: 5,
            evidence_char_budget: 6_000,
            expansion_char_budget: 2_000,
        },
        active_context_start_index: 0,
        turns,
    }
}

fn complete(id: &str, user: &str, assistant: &str, thinking: &str) -> Turn {
    let mut turn = Turn::pending(id, user, NOW);
    turn.status = TurnStatus::Complete;
    turn.assistant_content = assistant.into();
    turn.thinking = thinking.into();
    turn.usage = TokenUsage::zero();
    turn.request_started_at = Some(NOW.into());
    turn
}

#[test]
fn thinking_is_never_reinjected() {
    let mut session = session(vec![
        complete("t-old", "old", "old-a", "secret"),
        complete("t-new", "new", "new-a", "new-secret"),
    ]);
    session.active_context_start_index = 1;
    let plan = ContextAssembler.assemble(&session, "current", None, None);
    assert!(plan.identity_instruction.contains("LLM"));
    assert_eq!(plan.messages[1].content, plan.identity_instruction);
    assert_eq!(plan.included_turn_ids, vec![session.turns[1].id.clone()]);
    assert!(!format!("{:?}", plan.messages).contains("secret"));
    assert_eq!(plan.messages.last().unwrap().content, "current");
    assert_eq!(plan.context_items.len() + 1, plan.messages.len());
    assert!(plan
        .context_items
        .iter()
        .all(|item| item.role != EventRole::Assistant
            || item.content_sha256 != content_sha256("new-secret")));
    for (message, item) in plan
        .messages
        .iter()
        .filter(|message| message.content != plan.identity_instruction)
        .zip(&plan.context_items)
    {
        assert_eq!(item.role.as_str(), message.role);
        assert_eq!(item.span.start_char, 0);
        assert_eq!(item.span.end_char, message.content.chars().count());
        assert_eq!(item.content_sha256, content_sha256(&message.content));
    }
    assert_eq!(plan.context_sha256, context_sha256(&plan.messages));
}

#[test]
fn memory_and_knowledge_use_supported_system_role() {
    let session = session(vec![]);
    let selected = || SelectedEvidence {
        span: SourceSpan {
            event_id: "event-memory".into(),
            start_char: 0,
            end_char: 6,
        },
        content_sha256: content_sha256("memory"),
        role: EventRole::User,
        kind: EvidenceKind::Core,
        originating_candidate_rank: Some(1),
        reason: "selected_core".into(),
    };
    let recall = RecallResult {
        trace: RetrievalTrace {
            selected_evidence: vec![selected()],
            ..Default::default()
        },
        evidence: vec![RecalledEvidence {
            selected: selected(),
            content: "memory".into(),
        }],
    };
    let knowledge = KnowledgeRecall {
        trace: KnowledgeTrace {
            injected_message: Some("knowledge".into()),
            ..Default::default()
        },
    };
    let plan = ContextAssembler.assemble_with_recall_and_knowledge(
        &session,
        "current user",
        Some(&vec![]),
        None,
        Some(&recall),
        Some(&knowledge),
    );
    assert_eq!(
        plan.messages
            .iter()
            .map(|message| message.role.as_str())
            .collect::<Vec<_>>(),
        vec!["system", "system", "system", "system", "user"]
    );
    assert_eq!(plan.messages[2].content, "knowledge");
    assert_eq!(plan.messages[3].content, "memory");
    assert!(plan.identity_instruction.contains("N system data messages"));
    assert!(plan
        .messages
        .iter()
        .all(|message| matches!(message.role.as_str(), "system" | "user" | "assistant")));
    assert_eq!(plan.context_sha256, context_sha256(&plan.messages));
}

fn plan_of(session: &Session, index: usize) -> ContextPlan {
    ContextAssembler.assemble(
        session,
        &session.turns[index].user_content,
        Some(&vec![]),
        Some(index),
    )
}

fn prepared(session: &mut Session, full_tokens: u64) -> PreparedTurn {
    let index = open_turn(session, true, "turn-1", "hello", NOW).unwrap();
    let plan = plan_of(session, index);
    conclude_preparation(session, index, plan, full_tokens, None, 0, None, NOW)
}

#[test]
fn thresholds_are_inclusive() {
    for (tokens, expected) in [
        (719, PreparationStatus::Ready),
        (720, PreparationStatus::Ready),
        (809, PreparationStatus::Ready),
        (810, PreparationStatus::LimitWarning),
    ] {
        let mut s = session(vec![]);
        let p = prepared(&mut s, tokens);
        assert_eq!(p.status, expected);
    }
    assert_eq!(exact_check_due(719, &budget()), None);
    assert_eq!(
        exact_check_due(720, &budget()),
        Some(PreparationProgress::ExactContextCheckStarted {
            estimated_input_tokens: 720,
            probe_threshold: 720,
            input_budget: 900,
        })
    );
    assert_eq!(allocation_limit(809, &budget()), 900);
    assert_eq!(allocation_limit(810, &budget()), 629);
}

#[test]
fn warning_can_end_without_streaming() {
    let mut s = session(vec![]);
    let p = prepared(&mut s, 850);
    assert_eq!(p.status, PreparationStatus::LimitWarning);
    let ended = resolve_limit(&mut s, p, LimitAction::EndSession, NOW).unwrap();
    assert_eq!(ended.status, PreparationStatus::Ended);
    assert_eq!(s.status, SessionStatus::Paused);
    assert_eq!(s.turns[0].status, TurnStatus::Blocked);
    assert_eq!(s.turns[0].context_trace.decision, "paused_by_user");
    assert!(s.turns[0].request_started_at.is_none());
    assert_eq!(begin_stream(&mut s, &ended, NOW), Err(TurnError::NotReady));
}

#[test]
fn mandatory_block_preserves_prepared_retrieval_trace() {
    let mut s = session(vec![]);
    let index = open_turn(&mut s, true, "turn-1", "hello", NOW).unwrap();
    let mut plan = plan_of(&s, index);
    plan.retrieval_trace.budget_allocation.mandatory_input_tokens = 700;
    plan.retrieval_trace.status = "ready".into();
    let p = conclude_preparation(&mut s, index, plan, 850, None, 0, None, NOW);
    assert_eq!(p.status, PreparationStatus::LimitWarning);
    let blocked = resolve_limit(&mut s, p, LimitAction::ContinueWithTrim, NOW).unwrap();
    assert_eq!(blocked.status, PreparationStatus::Blocked);
    assert_eq!(
        s.turns[0].context_trace.decision,
        "mandatory_above_trim_target"
    );
    assert_eq!(s.turns[0].context_trace.retrieval.status, "ready");
}

#[test]
fn continue_keeps_maximum_recent_suffix_at_trim_target() {
    let mut s = session(
        (0..3)
            .map(|i| {
                let mut turn = complete(
                    &format!("turn-{i}"),
                    &format!("user-{i}"),
                    &format!("assistant-{i}"),
                    "",
                );
                turn.usage = TokenUsage::new(Some(10), Some(5));
                turn
            })
            .collect(),
    );
    s.system_prompt = "You are a helpful assistant. Answer in one short paragraph.".into();
    s.budget = BudgetConfig {
        context_window: 1_200,
        max_output_tokens: 100,
        safety_margin_tokens: 0,
        probe_threshold: 880,
        warning_threshold: 990,
        trim_target: 880,
    };
    let index = open_turn(&mut s, true, "turn-3", "current", NOW).unwrap();
    let history = allowed_history(&s, index, &ControlState::default());
    assert_eq!(history, vec![0, 1, 2]);
    let recall = RecallResult {
        trace: RetrievalTrace::default(),
        evidence: vec![],
    };
    let knowledge = KnowledgeRecall {
        trace: KnowledgeTrace::default(),
    };
    let mut cache = PreparationProbeCache::new();
    let mut full = plan_in_full(&s, index, &history, "current", &recall, &knowledge, 64);
    let mut probes = 0;
    if exact_check_due(plan_metric(&full).unwrap(), &s.budget).is_some() {
        probes += 1;
        let counted = TokenUsage::new(Some(300 + 250 * 3), Some(1));
        let key = probe_key(&s, &full);
        cache.record(&mut full, &key, counted, "near_limit_probe");
    }
    let tokens = plan_metric(&full).unwrap();
    assert_eq!(tokens, 1_050);
    let plan = plan_turn(
        &AllocationRequest {
            session: &s,
            turn_index: index,
            history: &history,
            user_content: "current",
            recall: &recall,
            knowledge: &knowledge,
            allocation_limit: allocation_limit(tokens, &s.budget),
            graph_candidate_limit: 64,
        },
        &full,
        0,
        &cache,
    );
    let p = conclude_preparation(&mut s, index, plan, tokens, None, 0, None, NOW);
    let resumed = resolve_limit(&mut s, p, LimitAction::ContinueWithTrim, NOW).unwrap();
    assert_eq!(resumed.status, PreparationStatus::Ready);
    assert_eq!(resumed.plan.exact_input_tokens, None);
    assert_eq!(probes, 1);
    assert!(plan_metric(&resumed.plan).unwrap() < s.budget.trim_target);
    assert_eq!(resumed.plan.included_turn_ids, vec![s.turns[2].id.clone()]);
    assert_eq!(s.active_context_start_index, 2);
    assert_eq!(
        s.turns.last().unwrap().context_trace.decision,
        "trimmed_and_continued"
    );
}

/// A turn that was prepared with a fact from another conversation, and stands at
/// the limit.
fn prepared_with_fact(s: &mut Session, fact: &str, question: &str, history: Vec<usize>) -> PreparedTurn {
    let index = open_turn(s, true, "turn-1", question, NOW).unwrap();
    let selected = || SelectedEvidence {
        span: SourceSpan {
            event_id: "event-other".into(),
            start_char: 0,
            end_char: fact.chars().count(),
        },
        content_sha256: content_sha256(fact),
        role: EventRole::User,
        kind: EvidenceKind::Core,
        originating_candidate_rank: Some(1),
        reason: "selected_core".into(),
    };
    let recall = RecallResult {
        trace: RetrievalTrace {
            status: "ready".into(),
            selected_evidence: vec![selected()],
            ..Default::default()
        },
        evidence: vec![RecalledEvidence {
            selected: selected(),
            content: fact.into(),
        }],
    };
    let plan = ContextAssembler.assemble_with_recall_and_knowledge(
        s,
        question,
        Some(&history),
        Some(index),
        Some(&recall),
        None,
    );
    conclude_preparation(s, index, plan, 850, None, 0, None, NOW)
}

#[test]
fn limit_resolution_reuses_prepared_retrieval_without_rank_drift() {
    let mut b = session(vec![
        complete("a", "one", "1", ""),
        complete("b", "two", "2", ""),
        complete("c", "three", "3", ""),
    ]);
    let prepared = prepared_with_fact(&mut b, "外部唯一事实：朱砂钥匙", "朱砂钥匙是什么", vec![2]);
    assert!(prepared.needs_limit_decision());
    let trace = prepared.plan.retrieval_trace.clone();
    let evidence = prepared.plan.evidence.clone();
    assert_eq!(evidence.len(), 1);
    let resumed = resolve_limit(&mut b, prepared, LimitAction::ContinueWithTrim, NOW).unwrap();
    assert!(resumed.ready());
    assert_eq!(resumed.plan.retrieval_trace, trace);
    assert_eq!(resumed.plan.evidence, evidence);
    assert!(resumed.plan.retrieval_trace.candidates.is_empty());
    assert_eq!(b.turns[3].context_trace.retrieval, trace);
    assert!(b.turns[3].request_started_at.is_none());
}

#[test]
fn end_session_preserves_prepared_retrieval_trace() {
    let mut b = session(vec![]);
    let prepared = prepared_with_fact(&mut b, "外部事实：银杏信物", "银杏信物是什么", vec![]);
    assert!(prepared.needs_limit_decision());
    let trace = prepared.plan.retrieval_trace.clone();
    let evidence = prepared.plan.evidence.clone();
    let ended = resolve_limit(&mut b, prepared, LimitAction::EndSession, NOW).unwrap();
    assert_eq!(ended.status, PreparationStatus::Ended);
    let turn = b.turns.pop().unwrap();
    assert_eq!(turn.context_trace.retrieval, trace);
    assert_eq!(turn.context_trace.retrieval.selected_evidence, evidence);
    assert_eq!(turn.context_trace.decision, "paused_by_user");
    assert_eq!(turn.status, TurnStatus::Blocked);
    assert!(turn.request_started_at.is_none());
}

#[test]
fn a_ready_turn_needs_no_decision() {
    let mut s = session(vec![]);
    let p = prepared(&mut s, 100);
    assert!(p.ready() && !p.needs_limit_decision());
    let error = resolve_limit(&mut s, p, LimitAction::EndSession, NOW).unwrap_err();
    assert_eq!(error, TurnError::NoLimitDecision);
}

#[test]
fn below_threshold_streams_and_persists_exact_usage() {
    let mut s = session(vec![]);
    let p = prepared(&mut s, 100);
    begin_stream(&mut s, &p, "2026-08-21T00:00:01Z").unwrap();
    assert_eq!(
        s.turns[0].request_started_at.as_deref(),
        Some("2026-08-21T00:00:01Z")
    );
    let mut state = StreamState::new();
    for (kind, text, live) in [
        (ChatEventKind::Thinking, "reason", 1),
        (ChatEventKind::Content, "hello", 2),
    ] {
        state.note(&ChatEvent {
            kind,
            text: text.into(),
            live_output_tokens: Some(live),
            usage: None,
            done_reason: None,
        });
    }
    state.note(&ChatEvent {
        kind: ChatEventKind::Completed,
        text: "".into(),
        live_output_tokens: Some(2),
        usage: Some(TokenUsage::new(Some(100), Some(3))),
        done_reason: Some("stop".into()),
    });
    end_stream(&mut s, &p, state, None, NOW).unwrap();
    let turn = &s.turns[0];
    assert_eq!(turn.status, TurnStatus::Complete);
    assert_eq!(turn.assistant_content, "hello");
    assert_eq!(turn.thinking, "reason");
    assert_eq!(turn.usage.total_tokens, Some(103));
    let next = ContextAssembler.assemble(&s, "next", None, None);
    assert!(!format!("{:?}", next.messages).contains("reason"));
}

#[test]
fn interrupted_stream_never_promotes_probe_usage() {
    let mut s = session(vec![]);
    let index = open_turn(&mut s, true, "turn-1", "question", NOW).unwrap();
    let plan = plan_of(&s, index);
    let p = conclude_preparation(&mut s, index, plan, 750, None, 0, None, NOW);
    begin_stream(&mut s, &p, NOW).unwrap();
    let mut state = StreamState::new();
    state.note(&ChatEvent {
        kind: ChatEventKind::Content,
        text: "partial".into(),
        live_output_tokens: Some(2),
        usage: None,
        done_reason: None,
    });
    let failure = StreamFailure {
        kind: StreamFailureKind::Other,
        message: "lost".into(),
        live_output_tokens: Some(2),
    };
    assert!(end_stream(&mut s, &p, state, Some(failure), NOW).is_err());
    let turn = s.turns.last().unwrap();
    assert_eq!(turn.assistant_content, "partial");
    assert_eq!(turn.status, TurnStatus::Interrupted);
    assert_eq!(turn.usage, TokenUsage::new(None, Some(2)));
    assert_eq!(turn.probe_usage, TokenUsage::zero());
    assert_eq!(turn.error.as_deref(), Some("lost"));
    assert!(!turn.context_eligible());
}

#[test]
fn a_probe_is_not_counted_as_use() {
    let mut s = session(vec![]);
    let p = prepared(&mut s, 750);
    begin_stream(&mut s, &p, NOW).unwrap();
    s.turns[0].probe_usage = TokenUsage::new(Some(750), Some(0));
    let mut state = StreamState::new();
    state.note(&ChatEvent {
        kind: ChatEventKind::Content,
        text: "partial".into(),
        live_output_tokens: Some(1),
        usage: None,
        done_reason: None,
    });
    let failure = StreamFailure {
        kind: StreamFailureKind::Other,
        message: "lost".into(),
        live_output_tokens: None,
    };
    persist_stream_error(&mut s, 0, &state, &failure, NOW);
    let turn = &s.turns[0];
    assert_eq!(turn.usage.input_tokens, None);
    assert_eq!(turn.usage.output_tokens, Some(1));
    assert_eq!(turn.probe_usage.input_tokens, Some(750));
}

#[test]
fn a_stream_without_an_end_is_a_defect() {
    let mut s = session(vec![]);
    let p = prepared(&mut s, 100);
    begin_stream(&mut s, &p, NOW).unwrap();
    let failure = end_stream(&mut s, &p, StreamState::new(), None, NOW).unwrap_err();
    assert_eq!(failure.kind, StreamFailureKind::Protocol);
    assert!(s.turns[0].status != TurnStatus::Complete);
}

#[test]
fn turns_that_cannot_be_opened_change_nothing() {
    let mut s = session(vec![]);
    assert_eq!(
        open_turn(&mut s, false, "t", "hello", NOW),
        Err(TurnError::SessionExcluded("one".into()))
    );
    assert_eq!(
        open_turn(&mut s, true, "t", " \n", NOW),
        Err(TurnError::EmptyInput)
    );
    assert!(s.turns.is_empty());
}

#[test]
fn stale_turns_are_closed_when_the_next_is_opened() {
    let mut s = session(vec![Turn::pending("a", "lost", NOW)]);
    let index = open_turn(&mut s, true, "b", "again", "2026-08-21T00:00:02Z").unwrap();
    assert_eq!(index, 1);
    assert_eq!(s.turns[0].status, TurnStatus::Interrupted);
    assert_eq!(s.turns[0].updated_at, "2026-08-21T00:00:02Z");
    assert_eq!(s.turns[1].status, TurnStatus::Pending);
    let mut again = session(vec![]);
    assert!(!recover_stale_pending(&mut again, NOW));
}

#[test]
fn prepared_turns_are_tied_to_their_session() {
    let mut s = session(vec![]);
    let p = prepared(&mut s, 100);
    let mut other = session(vec![]);
    other.id = "two".into();
    assert_eq!(
        begin_stream(&mut other, &p, NOW),
        Err(TurnError::DifferentSession)
    );
    let mut empty = session(vec![]);
    assert_eq!(begin_stream(&mut empty, &p, NOW), Err(TurnError::StaleIndex));
    s.turns[0].status = TurnStatus::Failed;
    assert_eq!(begin_stream(&mut s, &p, NOW), Err(TurnError::NotPending));
}

#[test]
fn an_overflow_is_counted_past_the_window() {
    assert_eq!(overflow_usage(Some(7), 1_000).input_tokens, Some(7));
    assert_eq!(overflow_usage(None, 1_000).total_tokens, Some(1_001));
}

#[test]
fn one_request_is_counted_once() {
    let mut s = session(vec![]);
    let index = open_turn(&mut s, true, "t", "hello", NOW).unwrap();
    let mut plan = plan_of(&s, index);
    let key = probe_key(&s, &plan);
    assert_eq!(key.len(), 64);
    let mut cache = PreparationProbeCache::new();
    assert!(cache.lookup(&key).is_none());
    cache.record(&mut plan, &key, TokenUsage::new(Some(12), Some(1)), "full");
    assert_eq!(plan.exact_input_tokens, Some(12));
    assert_eq!(cache.lookup(&key).unwrap().input_tokens, Some(12));
    s.think = false;
    assert!(probe_key(&s, &plan) != key);
}

#[test]
fn excluded_turns_leave_the_history() {
    let s = session(vec![
        complete("a", "one", "1", ""),
        complete("b", "two", "2", ""),
        Turn::pending("c", "three", NOW),
    ]);
    let mut controls = ControlState::default();
    assert_eq!(allowed_history(&s, 2, &controls), vec![0, 1]);
    controls
        .events
        .push(event_id("one", Some("a"), EventRole::Assistant));
    assert_eq!(allowed_history(&s, 2, &controls), vec![1]);
}

#[test]
fn the_upper_bound_counts_bytes_and_frames() {
    let message = |content: &str| ChatMessage {
        role: "user".into(),
        content: content.into(),
    };
    let one = ContextAssembler::estimate_upper_bound(&vec![message("a")]);
    let more = ContextAssembler::estimate_upper_bound(&vec![message("a"), message("海棠")]);
    assert!(one > 0);
    assert!(more >= one + 6);
}

#[test]
fn a_trace_begins_with_nothing_shared_out() {
    let trace = RetrievalTrace::default();
    assert_eq!(trace.config.candidate_limit, 64);
    assert_eq!(trace.config.max_selected, 8);
    assert_eq!(trace.config.evidence_char_budget, 4_096);
    assert_eq!(trace.config.expansion_char_budget, 2_048);
    assert_eq!(trace.budget_allocation.available_input_tokens, 0);
    assert_eq!(trace.budget_allocation.final_input_tokens, None);
    assert!(trace.budget_allocation.reflow.is_empty());
    assert!(trace.budget_allocation.probes.is_empty());
}

fn no_knowledge() -> KnowledgeRecall {
    KnowledgeRecall {
        trace: KnowledgeTrace::default(),
    }
}

/// Prepares a turn as the program does, against a backend that counts every
/// request as `count` tokens; also tells how often it was asked.
fn prepare(s: &mut Session, content: &str, mut recall: RecallResult, count: u64) -> (PreparedTurn, usize) {
    let knowledge = no_knowledge();
    let id = format!("turn-{}", s.turns.len());
    let index = open_turn(s, true, &id, content, NOW).unwrap();
    let start = s.active_context_start_index;
    let history = allowed_history(s, index, &ControlState::default());
    record_search(
        s,
        index,
        &mut recall,
        &knowledge,
        QueryKind::GeneralSemantic,
        NOW,
    );
    let mut cache = PreparationProbeCache::new();
    let mut full = plan_in_full(s, index, &history, content, &recall, &knowledge, 32);
    let mut probes = 0;
    if exact_check_due(plan_metric(&full).unwrap(), &s.budget).is_some() {
        probes += 1;
        let key = probe_key(s, &full);
        cache.record(
            &mut full,
            &key,
            TokenUsage::new(Some(count), Some(1)),
            "near_limit_probe",
        );
    }
    let tokens = plan_metric(&full).unwrap();
    let plan = plan_turn(
        &AllocationRequest {
            session: s,
            turn_index: index,
            history: &history,
            user_content: content,
            recall: &recall,
            knowledge: &knowledge,
            allocation_limit: allocation_limit(tokens, &s.budget),
            graph_candidate_limit: 32,
        },
        &full,
        0,
        &cache,
    );
    let probe = cache.traces.last().map(|t| t.usage);
    let prepared = conclude_preparation(s, index, plan, tokens, probe, start, None, NOW);
    (prepared, probes)
}

fn nothing_recalled() -> RecallResult {
    RecallResult {
        trace: RetrievalTrace::default(),
        evidence: vec![],
    }
}

fn original_budget() -> BudgetConfig {
    BudgetConfig {
        context_window: 1_000,
        max_output_tokens: 100,
        safety_margin_tokens: 0,
        probe_threshold: 720,
        warning_threshold: 810,
        trim_target: 720,
    }
}

#[test]
fn request_start_is_durable_before_backend_stream_begins() {
    let mut s = session(vec![]);
    s.budget = original_budget();
    let (p, _) = prepare(&mut s, "hello", nothing_recalled(), 100);
    assert!(s.turns.last().unwrap().request_started_at.is_none());
    begin_stream(&mut s, &p, NOW).unwrap();
    let stored = s.clone();
    assert!(stored
        .turns
        .last()
        .is_some_and(|turn| turn.request_started_at.is_some()));
    assert_eq!(stored.turns[0].status, TurnStatus::Pending);
}

#[test]
fn ordinary_context_skips_render_and_exact_probe() {
    let mut s = session(vec![]);
    s.budget = original_budget();
    let (p, probes) = prepare(&mut s, "hello", nothing_recalled(), 100);
    assert_eq!(p.plan.exact_input_tokens, None);
    assert_eq!(probes, 0);
    assert_eq!(s.turns[0].probe_usage, TokenUsage::zero());
}

#[test]
fn render_fallback_preserves_external_retrieval_trace() {
    let fact = "外部事实：翡翠罗盘";
    let mut b = session(vec![]);
    b.budget = BudgetConfig {
        context_window: 4_000,
        max_output_tokens: 500,
        safety_margin_tokens: 0,
        probe_threshold: 1_750,
        warning_threshold: 3_150,
        trim_target: 1_750,
    };
    let mut input = String::new();
    while ContextAssembler
        .assemble(&b, &input, Some(&vec![]), None)
        .estimated_upper_tokens
        .unwrap_or_default()
        < b.budget.probe_threshold
    {
        input.push('x');
    }
    input.push_str(" 翡翠罗盘是什么");
    let selected = SelectedEvidence {
        span: SourceSpan {
            event_id: event_id("a", Some("turn-0"), EventRole::User),
            start_char: 0,
            end_char: fact.chars().count(),
        },
        content_sha256: content_sha256(fact),
        role: EventRole::User,
        kind: EvidenceKind::Core,
        originating_candidate_rank: Some(1),
        reason: "selected_core".into(),
    };
    let recall = RecallResult {
        trace: RetrievalTrace {
            status: "ready".into(),
            selected_evidence: vec![selected.clone()],
            ..Default::default()
        },
        evidence: vec![RecalledEvidence {
            selected,
            content: fact.into(),
        }],
    };
    let (p, probes) = prepare(&mut b, &input, recall, 100);
    assert_eq!(probes, 1);
    assert!(!p.plan.retrieval_trace.selected_evidence.is_empty());
    assert_eq!(
        b.turns.last().unwrap().context_trace.retrieval.selected_evidence,
        p.plan.retrieval_trace.selected_evidence
    );
}

#[test]
fn what_buckets_are_charged_completes_the_unavoidable_part() {
    let mut s = session(vec![
        complete("a", "user-0", "assistant-0", ""),
        complete("b", "user-1", "assistant-1", ""),
        complete("c", "user-2", "assistant-2", ""),
    ]);
    s.budget = BudgetConfig {
        context_window: 1_200,
        max_output_tokens: 100,
        safety_margin_tokens: 0,
        probe_threshold: 700,
        warning_threshold: 990,
        trim_target: 880,
    };
    let (p, probes) = prepare(&mut s, "current", nothing_recalled(), 1_050);
    assert_eq!(probes, 1);
    let budget = &p.plan.retrieval_trace.budget_allocation;
    let charged = &budget.actual_tokens;
    assert!(charged.recent_history > 0);
    assert_eq!(
        budget.mandatory_input_tokens
            + charged.recent_history
            + charged.exact_or_state
            + charged.episode
            + charged.graph,
        p.plan.estimated_upper_tokens.unwrap()
    );
}
