use hippocampus::allocation::{allocate_adaptive_plan, plan_metric, AllocationRequest};
use hippocampus::attribution::{
    attribute, breakdown_by_bucket, credit_back, settle, sum_charged, trace_reflow,
    AcceptedBudgetUnit, AttributedTokens, Charge,
};
use hippocampus::boundary::{
    judge_boundary, parse_boundary_output, prepare_boundary_request, BoundaryClassification,
    BoundaryInput, Similarity,
};
use hippocampus::budget::{budget_bucket_name, budget_evidence_groups, hard_exclusion_reason};
use hippocampus::config::MemoryConfig;
use hippocampus::consolidate::{
    consolidation_failure_json, consolidation_success_json, BatchHead, CallFailure,
    ConsolidationAction, ConsolidationAttemptStatus, ConsolidationProgress, ConsolidationRun,
    ConsolidationRunStatus, ConsolidationTrigger, ModelAnswer, OutputCounts, RunEvent,
};
use hippocampus::digest::content_sha256;
use hippocampus::json::{json_text, parse_json, render, Json};
use hippocampus::knowledge::{KnowledgeRecall, KnowledgeTrace};
use hippocampus::merge::{merge_fact_outputs, ClaimOutput, EntityOutput, FactOutput};
use hippocampus::model::{
    BudgetBucket, BudgetConfig, EventRole, EvidenceKind, QueryKind, RecallResult,
    RecalledEvidence, RetrievalConfig, SelectedEvidence, Session, SessionStatus, SourceSpan, Turn,
    TurnStatus,
};
use hippocampus::refresh::{
    batch_inputs, check_batch_response, check_cache_response, check_embedding_cancellation,
    check_vector_dimensions, count_batches, plan_leaf_embeddings, sessions_to_materialize,
    CachedEmbedding, EmbeddingRefresh, EmbeddingRefreshError, EmbeddingRefreshStage, LeafDocument,
    RefreshAction, RefreshEvent,
};
use hippocampus::request::repair_fact_request;
use hippocampus::search::{empty_live_recall, memory_budget_trace};

const NOW: &str = "2026-08-21T00:00:00Z";

fn begin(enabled: bool) -> ConsolidationRun {
    ConsolidationRun::new("s", "caller-model", ConsolidationTrigger::Manual, enabled)
}

fn head(events: usize) -> BatchHead {
    BatchHead {
        batch_key: "batch".into(),
        from_sequence: 1,
        through_sequence: events,
        events,
    }
}

fn answer(decoded: Option<OutputCounts>) -> ModelAnswer {
    ModelAnswer {
        content: "{\"entities\":[],\"claims\":[],\"boundaries\":[]}".into(),
        input_tokens: Some(9),
        output_tokens: Some(3),
        decoded,
    }
}

fn to_the_model(run: &mut ConsolidationRun) {
    run.step(RunEvent::Controls { allowed: Ok(true) }, false);
    run.step(
        RunEvent::SessionLoaded {
            model: Ok("persisted-model".into()),
        },
        false,
    );
    run.step(RunEvent::WatermarkRead { watermark: Ok(0) }, false);
    run.step(
        RunEvent::BatchRead {
            batch: Ok(Some(head(2))),
        },
        false,
    );
    run.step(RunEvent::CandidatesRead { error: None }, false);
    let step = run.step(RunEvent::RequestBuilt { error: None }, false);
    assert!(matches!(step.action, ConsolidationAction::CallModel));
}

#[test]
fn consolidation_disabled_and_up_to_date_skip_model() {
    let mut off = begin(false);
    let step = off.step(RunEvent::Controls { allowed: Ok(true) }, false);
    assert!(matches!(step.action, ConsolidationAction::Finish));
    assert_eq!(off.report.status, ConsolidationRunStatus::Disabled);

    let mut run = begin(true);
    run.step(RunEvent::Controls { allowed: Ok(true) }, false);
    run.step(
        RunEvent::SessionLoaded {
            model: Ok("model".into()),
        },
        false,
    );
    run.step(RunEvent::WatermarkRead { watermark: Ok(4) }, false);
    let step = run.step(RunEvent::BatchRead { batch: Ok(None) }, false);
    assert!(matches!(step.action, ConsolidationAction::Finish));
    assert_eq!(run.report.status, ConsolidationRunStatus::UpToDate);
    assert_eq!(run.report.batches_attempted, 0);
    assert_eq!(run.report.watermark_after, 4);
}

#[test]
fn consolidation_uses_persisted_session_contract_and_applies_batches() {
    let mut run = begin(true);
    to_the_model(&mut run);
    assert_eq!(run.report.model, "persisted-model");
    let step = run.step(
        RunEvent::ModelAnswered {
            answer: answer(Some(OutputCounts {
                entities: 1,
                claims: 2,
                boundaries: 0,
            })),
        },
        false,
    );
    let ConsolidationAction::Apply(outcome) = step.action else {
        panic!("the answer is applied");
    };
    assert_eq!(outcome.status, ConsolidationAttemptStatus::Applied);
    assert_eq!(outcome.input_tokens, Some(9));
    let step = run.step(RunEvent::Applied { watermark_after: 2 }, false);
    assert!(matches!(step.action, ConsolidationAction::ReadBatch));
    assert!(step.progress.iter().any(|p| matches!(
        p,
        ConsolidationProgress::BatchApplied {
            batches_applied: 1,
            ..
        }
    )));
    run.step(RunEvent::BatchRead { batch: Ok(None) }, false);
    assert_eq!(run.report.status, ConsolidationRunStatus::Completed);
    assert_eq!(run.report.events_applied, 2);
    assert_eq!(run.report.claims_applied, 2);
    assert_eq!(run.report.watermark_after, 2);
}

fn malformed(text: &str) -> RunEvent {
    RunEvent::ModelAnswered {
        answer: ModelAnswer {
            content: text.into(),
            input_tokens: Some(8),
            output_tokens: Some(4),
            decoded: None,
        },
    }
}

fn rejection() -> RunEvent {
    RunEvent::ApplyRejected {
        validation_json: "{\"valid\":false}".into(),
        message: "malformed".into(),
    }
}

fn nothing_found() -> RunEvent {
    RunEvent::ModelAnswered {
        answer: answer(Some(OutputCounts {
            entities: 0,
            claims: 0,
            boundaries: 0,
        })),
    }
}

fn next_batch(run: &mut ConsolidationRun) {
    let batch = BatchHead {
        batch_key: "second".into(),
        from_sequence: 3,
        through_sequence: 4,
        events: 2,
    };
    run.step(
        RunEvent::BatchRead {
            batch: Ok(Some(batch)),
        },
        false,
    );
    run.step(RunEvent::CandidatesRead { error: None }, false);
    run.step(RunEvent::RequestBuilt { error: None }, false);
}

#[test]
fn consolidation_failures_are_audited_and_retryable() {
    let mut run = begin(true);
    to_the_model(&mut run);
    run.step(malformed("malformed raw output"), false);
    let step = run.step(rejection(), false);
    let ConsolidationAction::RecordFailure(outcome) = step.action else {
        panic!("the rejection is recorded");
    };
    assert_eq!(outcome.status, ConsolidationAttemptStatus::Rejected);
    let response = outcome.response_json.unwrap();
    let wrapped = parse_json(&response).unwrap();
    assert_eq!(
        wrapped.get("raw_output").unwrap().as_text(),
        Some("malformed raw output")
    );
    assert_eq!(
        wrapped.get("raw_sha256").unwrap().as_text().unwrap(),
        content_sha256("malformed raw output")
    );
    assert_eq!(outcome.response_sha256, Some(content_sha256(&response)));
    assert!(parse_json(&outcome.validation_json.unwrap()).is_ok());
    let step = run.step(RunEvent::FailureRecorded { error: None }, false);
    assert!(matches!(step.action, ConsolidationAction::CallModel));
    assert!(matches!(
        step.progress.as_slice(),
        [
            ConsolidationProgress::ValidationRetry {
                next_attempt: 2,
                max_attempts: 3,
                ..
            },
            ConsolidationProgress::AttemptStarted { attempt: 2, .. },
        ]
    ));
    run.step(nothing_found(), false);
    run.step(RunEvent::Applied { watermark_after: 2 }, false);
    run.step(RunEvent::BatchRead { batch: Ok(None) }, false);
    assert_eq!(run.report.status, ConsolidationRunStatus::Completed);
    assert!(run.report.watermark_after > 0);

    let mut down = begin(true);
    to_the_model(&mut down);
    let step = down.step(
        RunEvent::ModelFailed {
            failure: CallFailure::Backend("backend down".into()),
        },
        false,
    );
    let ConsolidationAction::RecordFailure(outcome) = step.action else {
        panic!("the failure is recorded");
    };
    assert_eq!(outcome.status, ConsolidationAttemptStatus::ModelError);
    assert!(outcome.response_json.is_none());
    assert!(outcome.error_json.unwrap().contains("backend down"));
    let step = down.step(RunEvent::FailureRecorded { error: None }, false);
    assert!(matches!(step.action, ConsolidationAction::Finish));
    assert_eq!(down.report.status, ConsolidationRunStatus::Failed);
    assert_eq!(down.report.watermark_after, 0);

    let mut exhausted = begin(true);
    to_the_model(&mut exhausted);
    for attempt in 0..3 {
        exhausted.step(malformed(&format!("malformed {attempt}")), false);
        exhausted.step(rejection(), false);
        exhausted.step(RunEvent::FailureRecorded { error: None }, false);
    }
    assert_eq!(exhausted.report.status, ConsolidationRunStatus::Failed);
    assert_eq!(exhausted.report.batches_attempted, 1);
    assert_eq!(exhausted.report.watermark_after, 0);
}

#[test]
fn consolidation_cancellation_timeout_and_partial_progress() {
    // Cancelled before it starts: nothing is called or recorded.
    let mut early = begin(true);
    let step = early.step(RunEvent::Controls { allowed: Ok(true) }, true);
    assert!(matches!(step.action, ConsolidationAction::Finish));
    assert_eq!(early.report.status, ConsolidationRunStatus::Cancelled);

    // Cancelled during a call: recorded without a response.
    let mut during = begin(true);
    to_the_model(&mut during);
    let step = during.step(
        RunEvent::ModelFailed {
            failure: CallFailure::Cancelled,
        },
        true,
    );
    let ConsolidationAction::RecordFailure(outcome) = step.action else {
        panic!("the cancellation is recorded");
    };
    assert_eq!(outcome.status, ConsolidationAttemptStatus::Cancelled);
    assert!(outcome.response_json.is_none());
    assert!(outcome.input_tokens.is_none() && outcome.output_tokens.is_none());
    during.step(RunEvent::FailureRecorded { error: None }, true);
    assert_eq!(during.report.status, ConsolidationRunStatus::Cancelled);
    assert_eq!(during.report.watermark_after, 0);

    // A timeout is an error of the model, and leaves the batch for later.
    let mut late = begin(true);
    to_the_model(&mut late);
    let step = late.step(
        RunEvent::ModelFailed {
            failure: CallFailure::Timeout,
        },
        false,
    );
    let ConsolidationAction::RecordFailure(outcome) = step.action else {
        panic!("the timeout is recorded");
    };
    assert_eq!(outcome.status, ConsolidationAttemptStatus::ModelError);
    assert!(outcome.response_json.is_none());
    late.step(RunEvent::FailureRecorded { error: None }, false);
    assert_eq!(late.report.status, ConsolidationRunStatus::Failed);
    assert_eq!(late.report.watermark_after, 0);

    // The first batch stays applied when the second is rejected for good.
    let mut run = begin(true);
    to_the_model(&mut run);
    run.step(nothing_found(), false);
    run.step(RunEvent::Applied { watermark_after: 2 }, false);
    next_batch(&mut run);
    for attempt in 0..3 {
        run.step(malformed(&format!("malformed {attempt}")), false);
        run.step(rejection(), false);
        run.step(RunEvent::FailureRecorded { error: None }, false);
    }
    assert_eq!(run.report.status, ConsolidationRunStatus::Partial);
    assert_eq!(run.report.batches_attempted, 2);
    assert_eq!(run.report.batches_applied, 1);
    assert_eq!(run.report.events_applied, 2);
    assert!(run.report.events_attempted > run.report.events_applied);
    assert_eq!(run.report.watermark_after, 2);

    // Cancelled in the second batch: exactly the first is kept.
    let mut second = begin(true);
    to_the_model(&mut second);
    second.step(nothing_found(), false);
    second.step(RunEvent::Applied { watermark_after: 2 }, false);
    next_batch(&mut second);
    second.step(
        RunEvent::ModelFailed {
            failure: CallFailure::Cancelled,
        },
        true,
    );
    second.step(RunEvent::FailureRecorded { error: None }, true);
    assert_eq!(second.report.status, ConsolidationRunStatus::Cancelled);
    assert_eq!(second.report.batches_attempted, 2);
    assert_eq!(second.report.batches_applied, 1);
    assert_eq!(second.report.watermark_after, 2);

    // A cancellation seen after the response keeps that response.
    let raw = "{\"entities\":[],\"claims\":[],\"boundaries\":[]}";
    let mut after = begin(true);
    to_the_model(&mut after);
    let step = after.step(
        RunEvent::ModelAnswered {
            answer: ModelAnswer {
                content: raw.into(),
                input_tokens: Some(12),
                output_tokens: None,
                decoded: None,
            },
        },
        true,
    );
    let ConsolidationAction::RecordFailure(outcome) = step.action else {
        panic!("the cancellation is recorded");
    };
    assert_eq!(outcome.status, ConsolidationAttemptStatus::Cancelled);
    assert_eq!(outcome.response_json.as_deref(), Some(raw));
    assert_eq!(outcome.response_sha256, Some(content_sha256(raw)));
    assert_eq!(outcome.input_tokens, Some(12));
    assert_eq!(outcome.output_tokens, None);
    after.step(RunEvent::FailureRecorded { error: None }, true);
    assert_eq!(after.report.status, ConsolidationRunStatus::Cancelled);
    assert_eq!(after.report.watermark_after, 0);
}

#[test]
fn audits_are_written_in_json() {
    assert!(consolidation_failure_json("timeout", "slow \"model\"").contains("slow \\\"model\\\""));
    assert!(consolidation_success_json("key", 7).contains("7"));
}

#[test]
fn a_refresh_goes_through_its_stages() {
    assert!(matches!(
        EmbeddingRefresh::begin(false, 600, 16, false),
        Err(EmbeddingRefreshError::Disabled)
    ));
    let mut run = EmbeddingRefresh::begin(true, 600, 2, false).unwrap();
    assert_eq!(run.awaiting, RefreshAction::CheckConfig);
    assert_eq!(
        run.step(RefreshEvent::Done, false).unwrap(),
        RefreshAction::LoadLeaves
    );
    assert_eq!(
        run.step(RefreshEvent::LeavesLoaded { documents: 3 }, false)
            .unwrap(),
        RefreshAction::LoadCache
    );
    assert_eq!(
        run.step(RefreshEvent::Done, false).unwrap(),
        RefreshAction::Plan
    );
    assert_eq!(
        run.step(RefreshEvent::Planned { pending: 3 }, false)
            .unwrap(),
        RefreshAction::VerifyGeneration { batch: 1 }
    );
    assert_eq!(
        run.step(RefreshEvent::Done, false).unwrap(),
        RefreshAction::Embed { batch: 1 }
    );
    assert!(matches!(
        run.step(RefreshEvent::TimedOut, false),
        Err(EmbeddingRefreshError::Timeout {
            batch: 1,
            timeout_secs: 600
        })
    ));
}

#[test]
fn a_refresh_sends_as_many_batches_as_the_inputs_fill() {
    let mut run = EmbeddingRefresh::begin(true, 600, 2, false).unwrap();
    run.step(RefreshEvent::Done, false).unwrap();
    run.step(RefreshEvent::LeavesLoaded { documents: 3 }, false)
        .unwrap();
    run.step(RefreshEvent::Done, false).unwrap();
    let mut action = run
        .step(RefreshEvent::Planned { pending: 3 }, false)
        .unwrap();
    for number in 1..=2 {
        assert_eq!(action, RefreshAction::VerifyGeneration { batch: number });
        assert_eq!(
            run.step(RefreshEvent::Done, false).unwrap(),
            RefreshAction::Embed { batch: number }
        );
        action = run.step(RefreshEvent::Done, false).unwrap();
    }
    assert!(!matches!(action, RefreshAction::VerifyGeneration { .. }));
    assert!(check_cache_response("m", "m", 2, 2).is_ok());
    assert!(check_cache_response("m", "n", 2, 2).is_err());
    assert_eq!(
        check_cache_response("m", "m", 2, 1).unwrap_err(),
        "后台 Embedding 响应与请求不匹配"
    );
}

fn leaf(id: &str, content: &str) -> LeafDocument {
    LeafDocument {
        document_id: id.into(),
        message_document_id: id.into(),
        granularity: hippocampus::model::RetrievalDocumentGranularity::Message,
        content: content.into(),
        start_char: 0,
        end_char: content.chars().count(),
        source_sha256: content_sha256(content),
        reusable_vector: None,
    }
}

#[test]
fn short_query_embedding_is_reused_by_exit_refresh() {
    let documents = vec![leaf("a", "short cache query"), leaf("b", "other")];
    let cached = vec![CachedEmbedding {
        source_sha256: content_sha256("short cache query"),
        vector: vec![1, 2],
    }];
    let plan = plan_leaf_embeddings(&documents, &cached, false).unwrap();
    assert_eq!(plan.vectors[0], Some(vec![1, 2]));
    assert_eq!(plan.pending, vec![1]);
    assert_eq!(count_batches(5, 2), 3);
    assert_eq!(
        batch_inputs(&documents, &plan.pending, 16, 1),
        (0, vec!["other".to_string()])
    );
    assert!(plan_leaf_embeddings(&documents, &cached, true).is_err());
}

#[test]
fn refresh_errors_say_what_happened() {
    assert_eq!(EmbeddingRefreshError::Disabled.message(), "记忆嵌入功能未启用");
    assert_eq!(
        check_embedding_cancellation(true, EmbeddingRefreshStage::Backend, Some(2))
            .unwrap_err()
            .message(),
        "嵌入刷新在 Backend 阶段被取消（批次 Some(2)）"
    );
    assert_eq!(
        check_embedding_cancellation(true, EmbeddingRefreshStage::Planning, None)
            .unwrap_err()
            .message(),
        "嵌入刷新在 Planning 阶段被取消（批次 None）"
    );
    assert_eq!(
        EmbeddingRefreshError::Timeout { batch: 3, timeout_secs: 600 }.message(),
        "嵌入批次 3 在 600 秒后超时"
    );
    assert_eq!(
        EmbeddingRefreshError::Backend { batch: 1, message: "offline".into() }.message(),
        "嵌入批次 1 调用失败: offline"
    );
    assert_eq!(
        EmbeddingRefreshError::InvalidConfig { message: "x".into() }.message(),
        "嵌入配置无效: x"
    );
    assert_eq!(
        EmbeddingRefreshError::TaskJoin {
            stage: EmbeddingRefreshStage::LeafPublish,
            message: "x".into()
        }
        .message(),
        "嵌入刷新在 LeafPublish 阶段的阻塞任务失败: x"
    );
    assert_eq!(
        check_vector_dimensions("d", 3, 2).unwrap_err().message(),
        "文档 d 的向量无效: expected 3 dimensions, got 2"
    );
}

#[test]
fn answers_of_the_embedding_service_are_checked() {
    check_batch_response(1, "m", "m", 2, 2).unwrap();
    assert!(matches!(
        check_batch_response(1, "m", "other", 2, 2),
        Err(EmbeddingRefreshError::InvalidResponse { batch: 1, .. })
    ));
    assert!(check_batch_response(1, "m", "m", 2, 1).is_err());
    assert!(matches!(
        check_vector_dimensions("d", 3, 2),
        Err(EmbeddingRefreshError::Vector { .. })
    ));
    assert!(matches!(
        check_embedding_cancellation(true, EmbeddingRefreshStage::Backend, Some(2)),
        Err(EmbeddingRefreshError::Cancelled {
            stage: EmbeddingRefreshStage::Backend,
            batch: Some(2)
        })
    ));
    assert_eq!(
        sessions_to_materialize(&vec!["b".into(), "a".into()]).unwrap(),
        vec!["a", "b"]
    );
    assert!(sessions_to_materialize(&vec!["a".into(), "a".into()]).is_err());
}

fn boundary(content: &str, cosine: Option<f64>) -> BoundaryInput {
    BoundaryInput {
        session_id: "s".into(),
        watermark_before: 0,
        event_id: "e2".into(),
        sequence: 3,
        created_at: "2026-01-01T00:10:00Z".into(),
        content: content.into(),
        content_sha256: content_sha256(content),
        previous_user_event_id: Some("e1".into()),
        previous_user_created_at: Some(NOW.into()),
        previous_user_content: Some("before".into()),
        previous_assistant_context: None,
        cosine_similarity: cosine.map(|c| Similarity {
            bits: c.to_bits(),
            text: format!("{c}"),
        }),
    }
}

fn reason(input: &BoundaryInput, seconds: Option<i64>) -> Option<(bool, String)> {
    match judge_boundary(input, &input.content, seconds, 30) {
        BoundaryClassification::Deterministic(d) => Some((d.is_boundary, d.reason)),
        BoundaryClassification::Ambiguous => None,
    }
}

#[test]
fn boundaries_are_told_by_time_and_similarity() {
    assert_eq!(
        reason(&boundary("plain", None), Some(31 * 60)),
        Some((true, "time_gap".into()))
    );
    assert_eq!(
        reason(&boundary("plain", Some(0.05)), Some(60)),
        Some((true, "embedding_topic_shift".into()))
    );
    assert_eq!(
        reason(&boundary("plain", Some(0.99)), Some(60)),
        Some((false, "embedding_same_topic".into()))
    );
    assert_eq!(reason(&boundary("plain", None), Some(60)), None);
}

#[test]
fn boundary_answers_are_held_to_their_message() {
    let input = boundary("plain", None);
    let request = prepare_boundary_request("model".into(), &input, 8_192, 128);
    assert_eq!(request.messages.len(), 2);
    let decision = parse_boundary_output(
        "{\"before_event_id\":\"e2\",\"is_boundary\":false,\"reason\":\"model_same_topic\",\"evidence\":[]}",
        &input,
    )
    .unwrap();
    assert!(!decision.is_boundary);
    assert!(parse_boundary_output(
        "{\"before_event_id\":\"e9\",\"is_boundary\":false,\"reason\":\"model_same_topic\",\"evidence\":[]}",
        &input,
    )
    .is_err());
    assert!(parse_boundary_output("not json", &input).is_err());
    let again = repair_fact_request(&request, "bad", "{\"code\":\"x\"}");
    assert!(again.messages.len() >= request.messages.len());
}

#[test]
fn facts_that_repeat_are_merged() {
    let entity = |id: &str, name: &str| EntityOutput {
        local_id: id.into(),
        identity: json_text(name),
        rest: Json::Null,
    };
    let output = |entities| FactOutput {
        entities,
        claims: vec![],
    };
    let merged = merge_fact_outputs(&vec![
        output(vec![entity("e1", "Ann")]),
        output(vec![entity("e1", "Bob"), entity("e2", "Ann")]),
    ]);
    assert_eq!(merged.entities.len(), 2);
    assert!(merged.entities[0].local_id != merged.entities[1].local_id);
    assert_eq!(render(&merged.entities[0].identity), "\"Ann\"");
}

#[test]
fn merged_claims_lose_nothing() {
    let claim = |id: &str, evidence: &[&str], replaces: &[&str]| ClaimOutput {
        local_id: id.into(),
        subject_ref: "e1".into(),
        entity_ref: None,
        object: json_text("tea"),
        traits: json_text("likes"),
        evidence: evidence.iter().map(|e| (*e).into()).collect(),
        replaces_claim_ids: replaces.iter().map(|e| (*e).into()).collect(),
        conflicts_with_claim_ids: vec![],
        rest: Json::Null,
    };
    let output = |claims| FactOutput {
        entities: vec![EntityOutput {
            local_id: "e1".into(),
            identity: json_text("Ann"),
            rest: Json::Null,
        }],
        claims,
    };
    let merged = merge_fact_outputs(&vec![
        output(vec![claim("local_c1", &["b"], &["x"])]),
        output(vec![claim("c1", &["a", "b"], &["y"])]),
    ]);
    assert_eq!(merged.claims.len(), 1);
    assert_eq!(merged.claims[0].local_id, "local_f0_c1");
    assert_eq!(merged.claims[0].subject_ref, "local_f0_e1");
    assert_eq!(merged.claims[0].evidence, vec!["a", "b"]);
    assert_eq!(merged.claims[0].replaces_claim_ids, vec!["x", "y"]);
    assert_eq!(merged.entities[0].local_id, "local_f0_e1");
}

fn charge(bucket: BudgetBucket, reflow: bool, amount: u64) -> AttributedTokens {
    AttributedTokens {
        bucket,
        reflow,
        amount,
    }
}

#[test]
fn charges_follow_the_growth_of_a_request() {
    let log = vec![
        AcceptedBudgetUnit::Recent {
            index: 0,
            metric_before: 10,
            metric_after: 15,
            reflow: false,
        },
        AcceptedBudgetUnit::Evidence {
            group: 0,
            bucket: BudgetBucket::Graph,
            metric_before: 15,
            metric_after: 22,
            reflow: true,
        },
    ];
    let charges = attribute(&log);
    assert_eq!(
        charges,
        vec![
            charge(BudgetBucket::RecentHistory, false, 5),
            charge(BudgetBucket::Graph, true, 7)
        ]
    );
    assert_eq!(sum_charged(&charges, &Charge::Any), 12);
    assert_eq!(sum_charged(&charges, &Charge::Initial), 5);
    let shares = breakdown_by_bucket(&charges);
    assert_eq!((shares.recent_history, shares.graph), (5, 7));
    let reflow = trace_reflow(&charges, 20);
    assert_eq!(reflow[3].offered_tokens, 15);
    assert_eq!(reflow[3].consumed_tokens, 7);
    assert_eq!(reflow[3].remaining_tokens, 8);
}

#[test]
fn credit_is_given_back_from_the_end() {
    let mut charges = vec![
        charge(BudgetBucket::Episode, false, 4),
        charge(BudgetBucket::Graph, false, 3),
    ];
    credit_back(&mut charges, 5);
    assert_eq!(
        charges.iter().map(|c| c.amount).collect::<Vec<_>>(),
        vec![2, 0]
    );
    let mut over = vec![charge(BudgetBucket::Episode, false, 9)];
    settle(&mut over, 6);
    assert_eq!(over[0].amount, 6);
    settle(&mut over, 8);
    assert_eq!(over[0].amount, 6);
}

fn session(turns: Vec<Turn>) -> Session {
    Session {
        id: "s".into(),
        title: "".into(),
        created_at: NOW.into(),
        updated_at: NOW.into(),
        model: "model".into(),
        ollama_host: "http://localhost".into(),
        ai_name: "LLM".into(),
        system_prompt: "system".into(),
        think: false,
        status: SessionStatus::Active,
        budget: BudgetConfig {
            context_window: 20_000,
            max_output_tokens: 1_000,
            safety_margin_tokens: 1_000,
            probe_threshold: 14_400,
            warning_threshold: 16_200,
            trim_target: 12_600,
        },
        retrieval: retrieval(),
        active_context_start_index: 0,
        turns,
    }
}

fn retrieval() -> RetrievalConfig {
    RetrievalConfig {
        candidate_limit: 30,
        max_selected: 1,
        evidence_char_budget: 100,
        expansion_char_budget: 100,
    }
}

fn recall(contents: &[&str]) -> RecallResult {
    let mut result = empty_live_recall("query", &retrieval(), &MemoryConfig::default(), None);
    result.trace.budget_allocation =
        memory_budget_trace(&MemoryConfig::default(), QueryKind::GeneralSemantic);
    for (rank, content) in contents.iter().enumerate() {
        let selected = || SelectedEvidence {
            span: SourceSpan {
                event_id: format!("e{rank}"),
                start_char: 0,
                end_char: content.chars().count(),
            },
            content_sha256: content_sha256(content),
            role: EventRole::User,
            kind: EvidenceKind::Core,
            originating_candidate_rank: Some(rank + 1),
            reason: "selected_core".into(),
        };
        result.trace.selected_evidence.push(selected());
        result.evidence.push(RecalledEvidence {
            selected: selected(),
            content: (*content).into(),
        });
    }
    result
}

#[test]
fn hard_limits_exclude_evidence() {
    let found = recall(&["one", "two"]);
    let groups = budget_evidence_groups(&found);
    assert_eq!(groups.len(), 2);
    assert_eq!(hard_exclusion_reason(&groups, &vec![], 0, &retrieval(), 8), None);
    assert_eq!(
        hard_exclusion_reason(&groups, &vec![0], 1, &retrieval(), 8),
        Some("hard_max_selected")
    );
    let tight = RetrievalConfig {
        max_selected: 5,
        evidence_char_budget: 5,
        ..retrieval()
    };
    assert_eq!(
        hard_exclusion_reason(&groups, &vec![0], 1, &tight, 8),
        Some("hard_core_chars")
    );
    assert_eq!(budget_bucket_name(BudgetBucket::Graph), "graph");
}

#[test]
fn a_plan_stays_within_its_limit() {
    let mut old = Turn::pending("a", "earlier question", NOW);
    old.status = TurnStatus::Complete;
    old.assistant_content = "earlier answer".into();
    old.request_started_at = Some(NOW.into());
    let s = session(vec![old, Turn::pending("b", "now", NOW)]);
    let found = recall(&["one", "two"]);
    let knowledge = KnowledgeRecall {
        trace: KnowledgeTrace::default(),
    };
    let history = vec![0];
    let request = |limit| AllocationRequest {
        session: &s,
        turn_index: 1,
        history: &history,
        user_content: "now",
        recall: &found,
        knowledge: &knowledge,
        allocation_limit: limit,
        graph_candidate_limit: 8,
    };
    let plan = allocate_adaptive_plan(&request(18_000), 1, &vec![]);
    assert!(plan_metric(&plan).unwrap() <= 18_000);
    assert_eq!(plan.included_turn_ids, vec!["a"]);
    assert_eq!(plan.evidence.len(), 1);
    assert!(plan
        .retrieval_trace
        .budget_allocation
        .exclusions
        .iter()
        .any(|e| e.reason == "hard_max_selected"));
    let mandatory = plan
        .retrieval_trace
        .budget_allocation
        .mandatory_input_tokens;
    let bare = allocate_adaptive_plan(&request(mandatory), 1, &vec![]);
    assert!(bare.included_turn_ids.is_empty());
    assert!(bare.evidence.is_empty());
}
