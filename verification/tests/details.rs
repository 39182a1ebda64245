use hippocampus::boundary::{classify_boundary, BoundaryClassification, BoundaryInput};
use hippocampus::budget::breakdown_value;
use hippocampus::context::{ContextAssembler, WrappedHistoryCursor};
use hippocampus::control::ControlState;
use hippocampus::digest::content_sha256;
use hippocampus::display::{
    channel_line, control_failure, embedding_line, evidence_lines, graph_line,
    memory_maintenance_lines, memory_metrics_lines, memory_status_lines, rebuild_failure, rebuild_line, MemoryMetrics,
    MemoryStatus, RebuildReport,
};
use hippocampus::model::{
    event_id, BudgetBucket, BudgetConfig, BudgetTokenBreakdown, ChannelTrace, ContextItemTrace,
    EventRole, EvidenceKind, RecalledEvidence, RetrievalChannel, RetrievalConfig,
    SelectedEvidence, Session, SessionStatus, SourceSpan, Turn, TurnStatus,
};
use hippocampus::refresh::{inputs_to_cache, EmbeddingRefreshReport};
use hippocampus::stored::{
    config_hash, graph_report, source_hash, EmbeddingRecord, RunRecord, SourceBinding,
};
use hippocampus::turn::{
    background_inputs, conclude_preparation, open_turn, query_cache_key, PreparationStatus,
};

const NOW: &str = "2026-08-21T00:00:00Z";

fn session(turns: Vec<Turn>) -> Session {
    Session {
        id: "s".into(),
        title: "".into(),
        created_at: NOW.into(),
        updated_at: NOW.into(),
        model: "model".into(),
        ollama_host: "http://localhost".into(),
        ai_name: "LLM".into(),
        system_prompt: "system".into(),
        think: false,
        status: SessionStatus::Active,
        budget: BudgetConfig {
            context_window: 1_000,
            max_output_tokens: 60,
            safety_margin_tokens: 40,
            probe_threshold: 720,
            warning_threshold: 810,
            trim_target: 630,
        },
        retrieval: RetrievalConfig {
            candidate_limit: 30,
            max_selected: 5,
            evidence_char_budget: 6_000,
            expansion_char_budget: 2_000,
        },
        active_context_start_index: 0,
        turns,
    }
}

fn answered(id: &str) -> Turn {
    let mut turn = Turn::pending(id, "question", NOW);
    turn.status = TurnStatus::Complete;
    turn.assistant_content = "answer".into();
    turn.request_started_at = Some(NOW.into());
    turn
}

#[test]
fn topics_are_changed_in_any_case() {
    let input = |content: &str, created_at: &str| BoundaryInput {
        session_id: "s".into(),
        watermark_before: 0,
        event_id: "e2".into(),
        sequence: 3,
        created_at: created_at.into(),
        content: content.into(),
        content_sha256: content_sha256(content),
        previous_user_event_id: Some("e1".into()),
        previous_user_created_at: Some("2026-01-01T00:00:00Z".into()),
        previous_user_content: Some("before".into()),
        previous_assistant_context: None,
        cosine_similarity: None,
    };
    let reason = |i: &BoundaryInput| match classify_boundary(i, 30) {
        BoundaryClassification::Deterministic(d) => d.reason,
        BoundaryClassification::Ambiguous => "ambiguous".into(),
    };
    assert_eq!(
        reason(&input("Let us CHANGE the Subject", "2026-01-01T00:01:00Z")),
        "explicit_topic_transition"
    );
    assert_eq!(
        reason(&input("plain", "2026-01-01T00:31:00Z")),
        "time_gap"
    );
    assert_eq!(
        reason(&input("plain", "2026-01-01T01:01:00+00:30")),
        "time_gap"
    );
    assert_eq!(
        reason(&input("plain", "2026-01-01T00:30:00Z")),
        "ambiguous"
    );
}

#[test]
fn vectors_are_cached_for_answered_turns() {
    let mut s = session(vec![answered("a")]);
    assert_eq!(background_inputs(&s, 0, true), vec!["question", "answer"]);
    assert!(background_inputs(&s, 0, false).is_empty());
    assert!(background_inputs(&s, 7, true).is_empty());
    let index = open_turn(&mut s, true, "b", "next question", NOW).unwrap();
    let plan = ContextAssembler.assemble(&s, "next question", Some(&vec![]), Some(index));
    let p = conclude_preparation(&mut s, index, plan, 10, None, 0, Some(vec![1]), NOW);
    assert_eq!(p.status, PreparationStatus::Ready);
    assert_eq!(query_cache_key(&s, &p, true), None);
    s.turns[index].assistant_content = "done".into();
    assert_eq!(
        query_cache_key(&s, &p, true),
        Some(content_sha256("next question"))
    );
    assert_eq!(query_cache_key(&s, &p, false), None);
    let inputs = vec!["a".to_string(), "b".to_string(), "a".to_string()];
    let pairs = inputs_to_cache(&inputs, &vec![content_sha256("b")]);
    assert_eq!(pairs.len(), 1);
    assert!(pairs[0].0 == "a" || pairs[0].1 == "a");
}

#[test]
fn a_rendered_prompt_gives_the_bound() {
    let s = session(vec![answered("a")]);
    let mut plan = ContextAssembler.assemble(&s, "next", None, None);
    ContextAssembler::apply_rendered_upper_bound(&mut plan, "海棠");
    assert_eq!(plan.estimated_upper_tokens, Some(6));
}

fn selected(id: &str) -> SelectedEvidence {
    SelectedEvidence {
        span: SourceSpan {
            event_id: id.into(),
            start_char: 0,
            end_char: 3,
        },
        content_sha256: content_sha256("abc"),
        role: EventRole::User,
        kind: EvidenceKind::Core,
        originating_candidate_rank: Some(1),
        reason: "selected_core".into(),
    }
}

fn item(role: EventRole, id: &str) -> ContextItemTrace {
    ContextItemTrace {
        role,
        span: SourceSpan {
            event_id: id.into(),
            start_char: 0,
            end_char: 3,
        },
        content_sha256: content_sha256("abc"),
    }
}

#[test]
fn wrapped_history_is_read_in_order() {
    let evidence = vec![selected("e1")];
    let mut cursor = WrappedHistoryCursor::new(true, &evidence).unwrap();
    assert_eq!(cursor.consume(&item(EventRole::System, "sys"), true), Ok(None));
    assert_eq!(
        cursor.consume(&item(EventRole::System, "e1"), false),
        Ok(Some(EventRole::User))
    );
    assert!(cursor.consume(&item(EventRole::System, "e2"), false).is_err());
    assert_eq!(cursor.consume(&item(EventRole::User, "e3"), false), Ok(None));
    cursor.finish().unwrap();
    let unread = WrappedHistoryCursor::new(true, &evidence).unwrap();
    assert!(unread.finish().is_err());
    let none = vec![];
    assert!(WrappedHistoryCursor::new(true, &none).is_err());
    assert!(WrappedHistoryCursor::new(false, &evidence).is_err());
}

#[test]
fn excluded_events_are_found_in_a_session() {
    let s = session(vec![answered("a")]);
    let mut state = ControlState::default();
    assert!(!state.session_has_excluded_event(&s));
    state
        .events
        .push(event_id("s", Some("a"), EventRole::User));
    assert!(state.session_has_excluded_event(&s));
}

#[test]
fn digests_of_a_graph_cover_their_parts() {
    assert_eq!(config_hash(32, "f").len(), 64);
    assert!(config_hash(32, "f") != config_hash(33, "f"));
    let binding = || SourceBinding {
        control_generation_sha256: "g".into(),
        leaf_catalog_sha256: "l".into(),
        aggregate_catalog_sha256: "a".into(),
        fingerprint: "f".into(),
    };
    let embedding = |bits: u32| EmbeddingRecord {
        document_id: "d".into(),
        session_id: "s".into(),
        source_sha256: "h".into(),
        model: "m".into(),
        dimensions: 1,
        vector_bits: vec![bits],
    };
    let one = source_hash(&binding(), &vec![embedding(1)], &vec![], &vec![]);
    assert!(one != source_hash(&binding(), &vec![embedding(2)], &vec![], &vec![]));
    let run = RunRecord {
        answer_id: "r".into(),
        trace: b"t".to_vec(),
    };
    assert!(one != source_hash(&binding(), &vec![embedding(1)], &vec![run], &vec![]));
    assert!(one != source_hash(&binding(), &vec![embedding(1)], &vec![], &vec![vec![0]]));
}

#[test]
fn buckets_are_read_one_by_one() {
    let shares = BudgetTokenBreakdown {
        recent_history: 1,
        exact_or_state: 2,
        episode: 3,
        graph: 4,
    };
    let read = |b| breakdown_value(&shares, b);
    assert_eq!(read(BudgetBucket::RecentHistory), 1);
    assert_eq!(read(BudgetBucket::ExactOrState), 2);
    assert_eq!(read(BudgetBucket::Episode), 3);
    assert_eq!(read(BudgetBucket::Graph), 4);
}

#[test]
fn reports_are_printed_in_full() {
    assert_eq!(
        rebuild_line(&RebuildReport {
            sessions: 1,
            events: 2,
            spans: 3,
            answer_contexts: 4,
            documents: 5,
            control_generation_sha256: "g".into(),
            ledger_attempts_preserved: 6,
            consolidation_attempts_replayed: 7,
            consolidation_attempts_skipped_inactive: 8,
            consolidation_attempts_skipped_dependency: 9,
            embeddings_reused: 10,
        }),
        "rebuild: sessions=1 events=2 spans=3 answer_contexts=4 documents=5 control_generation=g ledger_preserved=6 attempts_replayed=7 skipped_inactive=8 skipped_dependency=9 embeddings_reused=10"
    );
    assert_eq!(
        embedding_line(&EmbeddingRefreshReport {
            leaf_documents: 1,
            leaf_reused: 2,
            leaf_embedded_inputs: 3,
            backend_batches: 4,
            aggregate_documents: 5,
            leaf_committed: true,
        }),
        "embedding: leaf_documents=1 leaf_reused=2 leaf_embedded_inputs=3 backend_batches=4 aggregate_documents=5 leaf_committed=true"
    );
    let report = graph_report(
        false,
        &vec![],
        &vec![],
        "s".into(),
        "c".into(),
        "f".into(),
        NOW.into(),
    );
    assert_eq!(
        graph_line(&report),
        "graph: changed=false nodes=0 edges=0 source_sha256=s catalog_sha256=c vector_index_fingerprint=f"
    );
    let rebuild = RebuildReport {
        sessions: 0,
        events: 0,
        spans: 0,
        answer_contexts: 0,
        documents: 0,
        control_generation_sha256: "g".into(),
        ledger_attempts_preserved: 0,
        consolidation_attempts_replayed: 0,
        consolidation_attempts_skipped_inactive: 0,
        consolidation_attempts_skipped_dependency: 0,
        embeddings_reused: 0,
    };
    assert_eq!(
        memory_maintenance_lines(&rebuild, None, None),
        format!("{}\nembedding: disabled\ngraph: disabled", rebuild_line(&rebuild))
    );
    assert_eq!(
        memory_maintenance_lines(&rebuild, None, Some(&report)),
        format!("{}\nembedding: disabled\n{}", rebuild_line(&rebuild), graph_line(&report))
    );
    assert_eq!(
        rebuild_failure("x"),
        "raw data is unchanged and the rebuild commit succeeded, but derived refresh is incomplete: x"
    );
    assert_eq!(
        control_failure(3, "x"),
        "control record sequence 3 is committed, but projection/refresh is incomplete: x"
    );
}

#[test]
fn statuses_are_printed_in_full() {
    let status = memory_status_lines(&MemoryStatus {
        session_id: None,
        healthy: true,
        memory_enabled: false,
        projection_current: true,
        expected_control_generation_sha256: "e".into(),
        indexed_control_generation_sha256: None,
        validation_error: Some("bad".into()),
    });
    let lines: Vec<&str> = status.lines().collect();
    assert_eq!(
        lines,
        vec![
            "session_id: all",
            "healthy: true",
            "memory_enabled: false",
            "projection_current: true",
            "expected_control_generation_sha256: e",
            "indexed_control_generation_sha256: none",
            "validation_error: bad",
        ]
    );
    let metrics = memory_metrics_lines(&MemoryMetrics {
        active_sessions: 1,
        active_events: 2,
        embedding_total: 3,
        embedding_compatible: 4,
        embedding_stale: 5,
        pending_consolidation_events: 6,
        entity_count: 7,
        episode_count: 8,
        graph_current: true,
        graph_node_count: Some(9),
        graph_edge_count: None,
        attempts_applied: 10,
        attempts_rejected: 11,
        attempts_model_error: 12,
        attempts_cancelled: 13,
        attempts_failed: 14,
        consolidation_samples: 15,
        consolidation_p50_ms: Some(16),
        consolidation_p95_ms: None,
        retrieval_runs: 17,
        retrieval_failures: 18,
        retrieval_samples: 19,
        retrieval_p50_ms: None,
        retrieval_p95_ms: Some(20),
    });
    assert!(metrics.contains("graph_edge_count: none"));
    assert!(metrics.contains(
        "consolidation_attempts: applied=10 rejected=11 model_error=12 cancelled=13 failed=14"
    ));
    assert!(metrics.contains("consolidation_latency_ms: samples=15 p50=16 p95=none"));
    assert!(metrics.contains("retrieval_latency_ms: samples=19 p50=none p95=20"));
}

#[test]
fn searches_are_printed_in_full() {
    assert_eq!(
        channel_line(&ChannelTrace {
            channel: RetrievalChannel::Bm25,
            status: "ok".into(),
            candidate_count: 2,
            elapsed_ms: 1,
            error: None,
        }),
        "Bm25: status=ok count=2 error=none"
    );
    assert_eq!(
        evidence_lines(
            1,
            &RecalledEvidence {
                selected: selected("e1"),
                content: "abc".into(),
            }
        ),
        "[1] e1:0..3 role=User kind=Core reason=selected_core\nabc"
    );
}
