use hippocampus::config::{KnowledgeConfig, MemoryConfig};
use hippocampus::knowledge::{KnowledgeRecall, KnowledgeTrace};
use hippocampus::model::{QueryKind, RecallResult, RetrievalChannel, RetrievalConfig};
use hippocampus::search::{
    conclude_search, empty_live_recall, memory_budget_trace, LiveSearch, LiveSearchEvent,
    SearchRequest,
};
use hippocampus::windows::{turn_leaf_embedding_inputs, window_ranges};

fn retrieval() -> RetrievalConfig {
    RetrievalConfig {
        candidate_limit: 30,
        max_selected: 5,
        evidence_char_budget: 6_000,
        expansion_char_budget: 2_000,
    }
}

fn memory() -> MemoryConfig {
    MemoryConfig {
        enabled: true,
        search_timeout_ms: 1_000,
        ..MemoryConfig::default()
    }
}

fn found() -> RecallResult {
    empty_live_recall("event", &retrieval(), &memory(), None)
}

fn fast(result: Result<RecallResult, String>) -> LiveSearchEvent {
    LiveSearchEvent::Fast {
        result,
        elapsed_ms: 3,
    }
}

#[test]
fn live_search_deadline_uses_fast_fallback_and_marks_timeout_channels() {
    let config = memory();
    let knowledge = KnowledgeConfig::default();
    let mut search = LiveSearch::new(true);
    assert!(!search.step(fast(Ok(found()))).done);
    let step = search.step(LiveSearchEvent::Deadline);
    assert!(step.done);
    assert!(search.uses_fallback());
    let outcome = conclude_search(
        search,
        &SearchRequest {
            current_event_id: "event",
            retrieval: retrieval(),
            memory: &config,
            knowledge: &knowledge,
        },
        1_000,
    );
    let trace = &outcome.recall.trace;
    assert!(trace.deadline_exceeded);
    assert!(trace.fast_fallback_used);
    assert!(trace
        .fallback_reason
        .as_deref()
        .unwrap()
        .starts_with("deadline_exceeded:"));
    assert!(trace
        .warnings
        .iter()
        .any(|w| w.starts_with("搜索超过 1000ms，已采用快速搜索结果；未完成通道：")));
    assert!(trace
        .channels
        .iter()
        .any(|c| c.channel == RetrievalChannel::Vector && c.status == "timeout"));
    assert_eq!(outcome.knowledge.trace.status, "timeout");
}

#[test]
fn semantic_channels_prepare_before_delayed_bm25_finishes() {
    let mut search = LiveSearch::new(true);
    let step = search.step(LiveSearchEvent::Embedding {
        result: Ok(vec![1]),
        elapsed_ms: 1,
    });
    assert!(step.prepare_semantic && !step.fuse_semantic);
    let step = search.step(LiveSearchEvent::SemanticPrepared {
        result: Ok(()),
        elapsed_ms: 1,
    });
    assert!(!step.prepare_semantic && !step.fuse_semantic);
    let step = search.step(fast(Ok(found())));
    assert!(step.fuse_semantic && !step.prepare_semantic);
    let step = search.step(LiveSearchEvent::Semantic {
        result: Ok(found()),
        elapsed_ms: 1,
    });
    assert!(!step.fuse_semantic && !step.done);
    let step = search.step(LiveSearchEvent::Knowledge {
        result: Ok(KnowledgeRecall {
            trace: KnowledgeTrace::default(),
        }),
        elapsed_ms: 1,
    });
    assert!(step.done);
}

#[test]
fn knowledge_failure_does_not_discard_fast_memory_results() {
    let config = MemoryConfig::default();
    let knowledge = KnowledgeConfig::default();
    let mut search = LiveSearch::new(false);
    search.step(fast(Ok(found())));
    let step = search.step(LiveSearchEvent::Knowledge {
        result: Err("broken".into()),
        elapsed_ms: 1,
    });
    assert!(step.done);
    let outcome = conclude_search(
        search,
        &SearchRequest {
            current_event_id: "event",
            retrieval: retrieval(),
            memory: &config,
            knowledge: &knowledge,
        },
        5,
    );
    assert_eq!(outcome.knowledge.trace.status, "failed");
    assert_eq!(outcome.knowledge.trace.error.as_deref(), Some("broken"));
    assert_eq!(outcome.recall.trace.current_query_event_id, "event");
    assert!(!outcome.recall.trace.deadline_exceeded);
}

#[test]
fn budgets_follow_the_kind_of_query() {
    let trace = memory_budget_trace(&memory(), QueryKind::MultiHop);
    assert_eq!(
        (
            trace.recent_history_percent,
            trace.exact_or_state_percent,
            trace.episode_percent,
            trace.graph_percent
        ),
        (30, 25, 15, 30)
    );
}

#[test]
fn long_query_uses_cached_overlapping_fragments_not_whole_query_vector() {
    assert_eq!(window_ranges(500), vec![(0, 240), (200, 440), (400, 500)]);
    let long = "长消息".repeat(100);
    let inputs = turn_leaf_embedding_inputs(&long, "answer");
    assert!(!inputs.contains(&long));
    assert!(inputs.contains(&"answer".to_string()));
    let pieces: usize = inputs.iter().filter(|i| i.contains('消')).count();
    assert_eq!(pieces, 2);
}
