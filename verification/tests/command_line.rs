use hippocampus::channels::{
    enabled_channel_names, json_channels, recall_channels, MemoryChannel, RecallChannels,
};
use hippocampus::commands::{
    begin_consolidation, bulk_goes_on, check_candidate_limit, check_rebuild, chosen_prompt,
    consolidation_trigger_for_tui_exit, dataset_matrix, evaluation_matrices, json_reports,
    json_stateless_done, json_stream_event, limit_choice, memory_search_sentinel,
    order_sessions_for_bulk_consolidation, stateless_messages, stream_output, thinking_enabled,
    turn_warnings, validate_eval_store_isolation, workspace_name, ConsolidationStart, LimitChoice,
    SessionKey, StreamOutput, TuiExitReason,
};
use hippocampus::config::AppConfig;
use hippocampus::consolidate::{
    ConsolidationRunReport, ConsolidationRunStatus, ConsolidationTrigger,
};
use hippocampus::dataset::EvalPath;
use hippocampus::display::{
    brief, cleared_line, consolidation_status_label, count, format_consolidation_report,
    usage_line,
};
use hippocampus::json::{render, Json};
use hippocampus::model::TokenUsage;
use hippocampus::turn::{ChatEvent, ChatEventKind};

fn member<'a>(j: &'a Json, name: &str) -> &'a Json {
    j.get(name).unwrap()
}

fn text<'a>(j: &'a Json, name: &str) -> &'a str {
    member(j, name).as_text().unwrap()
}

fn delta(kind: ChatEventKind, text: &str, live: u64) -> ChatEvent {
    ChatEvent {
        kind,
        text: text.into(),
        live_output_tokens: Some(live),
        usage: None,
        done_reason: None,
    }
}

#[test]
fn json_stream_events_use_exact_deltas_and_stable_event_names() {
    let thinking = delta(ChatEventKind::Thinking, "think", 1);
    let content = delta(ChatEventKind::Content, "delta", 2);
    let completed = ChatEvent {
        kind: ChatEventKind::Completed,
        text: String::new(),
        live_output_tokens: Some(2),
        usage: Some(TokenUsage::new(Some(3), Some(2))),
        done_reason: Some("stop".into()),
    };
    assert_eq!(text(&json_stream_event(&thinking), "event"), "thinking");
    assert_eq!(text(&json_stream_event(&thinking), "delta"), "think");
    assert_eq!(text(&json_stream_event(&content), "event"), "content");
    assert_eq!(text(&json_stream_event(&content), "delta"), "delta");
    assert_eq!(text(&json_stream_event(&completed), "event"), "completed");
    assert_eq!(
        render(member(
            member(&json_stream_event(&completed), "usage"),
            "input_tokens"
        )),
        "3"
    );
}

#[test]
fn command_line_system_prompts_override_config() {
    let config = AppConfig {
        system_prompt: "from config".into(),
        ..AppConfig::default()
    };
    assert_eq!(
        chosen_prompt(None, None, &config.system_prompt),
        "from config"
    );
    assert_eq!(
        chosen_prompt(None, Some("from cli"), &config.system_prompt),
        "from cli"
    );
    assert_eq!(
        chosen_prompt(Some("from file"), None, &config.system_prompt),
        "from file"
    );
}

#[test]
fn memory_consolidate_all_order_is_deterministic() {
    let key = |id: &str, updated_at: &str| SessionKey {
        id: id.into(),
        updated_at: updated_at.into(),
    };
    let sessions = vec![
        key("tie-b", "2026-08-12T12:00:00Z"),
        key("newest", "2026-08-13T12:00:00Z"),
        key("tie-a", "2026-08-12T12:00:00Z"),
    ];
    let order = order_sessions_for_bulk_consolidation(&sessions);
    assert_eq!(
        order
            .iter()
            .map(|i| sessions[*i].id.as_str())
            .collect::<Vec<_>>(),
        vec!["newest", "tie-a", "tie-b"]
    );
    assert_eq!(
        sessions[order[1]].updated_at,
        sessions[order[2]].updated_at
    );
}

#[test]
fn tui_exit_reasons_map_to_exact_consolidation_triggers() {
    assert_eq!(
        consolidation_trigger_for_tui_exit(TuiExitReason::ExitCommand),
        ConsolidationTrigger::TuiExit
    );
    assert_eq!(
        consolidation_trigger_for_tui_exit(TuiExitReason::IdleCtrlC),
        ConsolidationTrigger::TuiIdleCtrlC
    );
}

#[test]
fn memory_consolidation_output_is_machine_stable() {
    let statuses = [
        ConsolidationRunStatus::Disabled,
        ConsolidationRunStatus::UpToDate,
        ConsolidationRunStatus::Completed,
        ConsolidationRunStatus::Partial,
        ConsolidationRunStatus::Failed,
        ConsolidationRunStatus::Cancelled,
    ];
    let reports = statuses
        .into_iter()
        .enumerate()
        .map(|(index, status)| ConsolidationRunReport {
            session_id: format!("session-{index}"),
            trigger: ConsolidationTrigger::Manual,
            model: format!("model-{index}"),
            status,
            batches_attempted: 2,
            batches_applied: 1,
            events_attempted: 4,
            events_applied: 3,
            entities_attempted: 5,
            entities_applied: 4,
            claims_attempted: 6,
            claims_applied: 5,
            boundaries_attempted: 7,
            boundaries_applied: 6,
            watermark_before: 8,
            watermark_after: 9,
            warnings: Vec::new(),
        })
        .collect::<Vec<_>>();
    let encoded = json_reports(&reports);
    let Json::Object(object) = &encoded else {
        panic!("expected an object");
    };
    assert_eq!(object.len(), 1);
    assert_eq!(object[0].0, "reports");
    let Json::Array(encoded_reports) = &object[0].1 else {
        panic!("expected an array");
    };
    assert_eq!(encoded_reports.len(), 6);
    for (report, expected_status) in encoded_reports.iter().zip([
        "disabled",
        "up_to_date",
        "completed",
        "partial",
        "failed",
        "cancelled",
    ]) {
        assert_eq!(text(report, "trigger"), "manual");
        assert_eq!(text(report, "status"), expected_status);
    }
    for report in &reports {
        let human = format_consolidation_report(report);
        assert!(human.contains(&report.session_id));
        assert!(human.contains(&report.model));
        assert!(human.contains("批次 1/2"));
        assert!(human.contains("事件 3/4"));
        assert!(human.contains("水位 8→9"));
        assert!(human.contains(consolidation_status_label(report.status)));
    }
}

#[test]
fn thinking_is_off_unless_asked_for() {
    assert!(!thinking_enabled(false, false));
    assert!(thinking_enabled(true, false));
    assert!(!thinking_enabled(false, true));
}

#[test]
fn consolidation_is_not_started_when_it_cannot_run() {
    assert_eq!(
        begin_consolidation(true, false, None),
        ConsolidationStart::Run
    );
    assert!(matches!(
        begin_consolidation(false, false, None),
        ConsolidationStart::Over {
            status: ConsolidationRunStatus::Disabled,
            ..
        }
    ));
    assert!(matches!(
        begin_consolidation(true, true, None),
        ConsolidationStart::Over {
            status: ConsolidationRunStatus::Cancelled,
            ..
        }
    ));
    assert!(matches!(
        begin_consolidation(true, false, Some("no host")),
        ConsolidationStart::Over {
            status: ConsolidationRunStatus::Failed,
            ..
        }
    ));
    assert!(bulk_goes_on(ConsolidationRunStatus::Failed, false));
    assert!(!bulk_goes_on(ConsolidationRunStatus::Cancelled, false));
    assert!(!bulk_goes_on(ConsolidationRunStatus::Completed, true));
}

#[test]
fn output_goes_where_it_belongs() {
    assert_eq!(
        stream_output(ChatEventKind::Content, true, false),
        StreamOutput::JsonLine
    );
    assert_eq!(
        stream_output(ChatEventKind::Content, false, false),
        StreamOutput::Answer
    );
    assert_eq!(
        stream_output(ChatEventKind::Thinking, false, true),
        StreamOutput::Aside
    );
    assert_eq!(
        stream_output(ChatEventKind::Thinking, false, false),
        StreamOutput::Nowhere
    );
    assert_eq!(limit_choice(false, true), LimitChoice::Proceed);
    assert_eq!(limit_choice(true, true), LimitChoice::Trim);
    assert_eq!(limit_choice(true, false), LimitChoice::End);
}

#[test]
fn an_answer_without_a_session_is_rendered_whole() {
    let done = render(&json_stateless_done(
        "",
        "quoted \"text\"\n",
        Some(TokenUsage::new(Some(1), Some(2))),
    ));
    assert!(done.contains("\"quoted \\\"text\\\"\\n\""));
    assert!(done.contains("\"total_tokens\":3"));
    let messages = stateless_messages("system", "LLM", "prompt");
    assert_eq!(messages[0].role, "system");
    assert_eq!(messages.last().unwrap().content, "prompt");
}

#[test]
fn channels_are_requested_by_name() {
    let none = recall_channels(&vec![], false).unwrap();
    assert_eq!(none, RecallChannels::bm25_only());
    assert!(recall_channels(&vec![MemoryChannel::Graph], false).is_err());
    let some = recall_channels(&vec![MemoryChannel::Bm25, MemoryChannel::Graph], true).unwrap();
    assert_eq!(enabled_channel_names(some), vec!["bm25", "graph"]);
    assert_eq!(
        render(&json_channels(RecallChannels::bm25_only())),
        "{\"bm25\":true,\"entity\":false,\"episode\":false,\"graph\":false,\"state\":false,\"vector\":false}"
    );
    let off = RecallChannels {
        bm25: false,
        ..RecallChannels::bm25_only()
    };
    assert_eq!(off.validate().unwrap_err(), "至少启用一个召回通道");
}

#[test]
fn evaluations_run_every_matrix_that_memory_allows() {
    assert_eq!(evaluation_matrices(false).len(), 1);
    assert!(evaluation_matrices(true).len() > 1);
    assert_eq!(dataset_matrix(false).channels, RecallChannels::bm25_only());
    assert_eq!(dataset_matrix(true).channels, RecallChannels::all());
    assert!(check_candidate_limit(0).is_err());
    assert!(check_candidate_limit(30).is_ok());
    assert!(check_rebuild(true, false).is_err());
    assert!(check_rebuild(false, false).is_ok());
    assert!(workspace_name(None).is_err());
    assert!(workspace_name(Some("run.jsonl")).unwrap().contains("run"));
}

#[test]
fn evaluation_files_stay_out_of_the_store() {
    let path = |parts: &[&str]| EvalPath {
        given: parts.iter().map(|p| (*p).into()).collect(),
        resolved: parts.iter().map(|p| (*p).into()).collect(),
    };
    let sessions = path(&["/", "data", "sessions"]);
    let fine = path(&["/", "tmp", "out.jsonl"]);
    let summary = path(&["/", "tmp", "out.summary.json"]);
    let workspace = path(&["/", "tmp", "work"]);
    validate_eval_store_isolation(&fine, &summary, &workspace, &sessions, None).unwrap();
    let inside = path(&["/", "data", "sessions", "work"]);
    assert!(validate_eval_store_isolation(&fine, &summary, &inside, &sessions, None).is_err());
    assert!(
        validate_eval_store_isolation(&fine, &summary, &workspace, &sessions, Some(&fine)).is_err()
    );
}

#[test]
fn searches_are_told_apart() {
    let one = memory_search_sentinel("q", None, &vec!["bm25"]);
    assert_eq!(one, memory_search_sentinel("q", None, &vec!["bm25"]));
    assert!(one != memory_search_sentinel("q", Some("s"), &vec!["bm25"]));
    assert!(one != memory_search_sentinel("q", None, &vec!["bm25", "graph"]));
}

#[test]
fn lines_are_short_and_complete() {
    assert_eq!(brief("abc", 10), "abc");
    assert!(brief("abcdefgh", 4).chars().count() <= 5);
    assert_eq!(count(Some(7)), "7");
    assert!(cleared_line(1, 2, 3).contains('3'));
    assert!(usage_line(TokenUsage::new(Some(3), Some(2))).contains('5'));
    assert_eq!(
        turn_warnings(&vec!["a".into()], &vec!["b".into()]).len(),
        2
    );
}
