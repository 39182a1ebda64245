use hippocampus::clauses::{
    assistant_contexts, is_deterministic_empty, provenance_span_id, source_clauses,
    split_clause_work, ConsolidationEvent, ConsolidationInputBatch,
};
use hippocampus::digest::content_sha256;
use hippocampus::evidence::resolve_source_refs;
use hippocampus::facts::split_batch;
use hippocampus::json::{json_number, json_text, Json, JsonObject};
use hippocampus::model::EventRole;

fn event(id: &str, sequence: usize, role: EventRole, content: &str) -> ConsolidationEvent {
    ConsolidationEvent {
        event_id: id.into(),
        turn_id: "turn".into(),
        sequence,
        role,
        created_at: "2026-08-21T00:00:00Z".into(),
        content: content.into(),
        content_sha256: content_sha256(content),
    }
}

fn batch(content: &str) -> ConsolidationInputBatch {
    ConsolidationInputBatch {
        batch_key: "batch".into(),
        session_id: "session".into(),
        watermark_before: 0,
        from_sequence: 1,
        through_sequence: 1,
        through_event_id: "user-event".into(),
        through_event_sha256: content_sha256(content),
        turn_count: 1,
        char_count: content.chars().count(),
        events: vec![event("user-event", 1, EventRole::User, content)],
    }
}

#[test]
fn clauses_have_deterministic_host_ids_and_unicode_offsets() {
    let first = source_clauses(&batch("我住在北京。🙂很好！"));
    let second = source_clauses(&batch("我住在北京。🙂很好！"));
    assert_eq!(first, second);
    assert_eq!(first.len(), 2);
    assert_eq!((first[1].start_char, first[1].end_char), (6, 10));
    assert!(first
        .iter()
        .all(|item| item.clause_id.starts_with("clause_")));
    assert!(first.iter().all(|item| item.span_id.starts_with("span_")));
}

#[test]
fn fast_path_is_conservative_about_confirmations() {
    assert!(is_deterministic_empty(
        &source_clauses(&batch("你好！")),
        false
    ));
    assert!(is_deterministic_empty(
        &source_clauses(&batch("天气好吗？")),
        false
    ));
    assert!(!is_deterministic_empty(
        &source_clauses(&batch("对。")),
        true
    ));
    assert!(!is_deterministic_empty(
        &source_clauses(&batch("我住在北京。")),
        false
    ));
}

fn quote(clause_id: &str, event_id: &str, start: u64, end: u64, text: &str) -> Json {
    JsonObject::new()
        .with("clause_id", json_text(clause_id))
        .with("event_id", json_text(event_id))
        .with("start_char", json_number(start))
        .with("end_char", json_number(end))
        .with("text", json_text(text))
        .finish()
}

#[test]
fn source_ref_is_verified_and_hash_is_computed_by_rust() {
    let clauses = source_clauses(&batch("Alice lives in Paris."));
    let value = quote(&clauses[0].clause_id, &clauses[0].event_id, 15, 20, "Paris");
    let resolved = resolve_source_refs(&value, &clauses, "$.quote").unwrap();
    assert_eq!(
        resolved.get("content_sha256").unwrap().as_text().unwrap(),
        content_sha256("Paris")
    );
    assert!(resolved.get("clause_id").is_none());
}

#[test]
fn assistant_event_cannot_become_source_evidence() {
    let clauses = source_clauses(&batch("用户原文。"));
    let value = quote(&clauses[0].clause_id, "assistant-event", 0, 4, "助手原文");
    assert!(resolve_source_refs(&value, &clauses, "$.quote").is_err());
}

#[test]
fn a_quote_that_differs_from_its_range_is_refused() {
    let clauses = source_clauses(&batch("Alice lives in Paris."));
    let id = clauses[0].clause_id.clone();
    let event_id = clauses[0].event_id.clone();
    assert!(resolve_source_refs(&quote(&id, &event_id, 15, 20, "Rome!"), &clauses, "$.q").is_err());
    assert!(resolve_source_refs(&quote(&id, &event_id, 20, 15, ""), &clauses, "$.q").is_err());
    assert!(
        resolve_source_refs(&quote("clause_x", &event_id, 15, 20, "Paris"), &clauses, "$.q")
            .is_err()
    );
}

#[test]
fn clauses_cover_what_is_not_blank() {
    let content = "第一句。 second one! 尾巴";
    let clauses = source_clauses(&batch(content));
    let chars: Vec<char> = content.chars().collect();
    for clause in &clauses {
        let text: String = chars[clause.start_char..clause.end_char].iter().collect();
        assert_eq!(text, clause.text);
        assert_eq!(
            clause.span_id,
            provenance_span_id("user-event", clause.start_char, clause.end_char, &clause.text)
        );
    }
    let covered: usize = clauses.iter().map(|c| c.text.trim().chars().count()).sum();
    assert!(covered >= 4 + 11 + 2);
}

#[test]
fn work_is_halved_and_nothing_is_lost() {
    let clauses = source_clauses(&batch("一。二。三。四。五。"));
    let total = clauses.len();
    assert_eq!(total, 5);
    let (left, right) = split_clause_work(&clauses).unwrap();
    assert_eq!(left.len() + right.len(), total);
    assert!(!left.is_empty() && !right.is_empty());
    assert_eq!(left[0], clauses[0]);
    assert_eq!(right[right.len() - 1], clauses[total - 1]);
}

#[test]
fn an_answer_before_a_message_gives_it_a_context() {
    let mut whole = batch("问题");
    whole.events.push(event(
        "assistant-event",
        2,
        EventRole::Assistant,
        "你住在北京，对吗？",
    ));
    assert!(assistant_contexts(&whole).is_empty());
    whole
        .events
        .push(event("next-event", 3, EventRole::User, "对。"));
    let contexts = assistant_contexts(&whole);
    assert_eq!(contexts.len(), 1);
    assert_eq!(contexts[0].assistant_event_id, "assistant-event");
    assert!(!contexts[0].extractable);
}

#[test]
fn a_single_event_batch_is_not_split() {
    assert!(split_batch(&batch("一。")).is_none());
}

#[test]
fn a_batch_is_split_between_turns() {
    let mut whole = batch("一。");
    whole.events = vec![
        event("u1", 1, EventRole::User, "一。"),
        event("a1", 2, EventRole::Assistant, "好。"),
        event("u2", 3, EventRole::User, "二二。"),
        event("a2", 4, EventRole::Assistant, "好。"),
        event("u3", 5, EventRole::User, "三。"),
    ];
    whole.through_sequence = 5;
    let (left, right) = split_batch(&whole).unwrap();
    assert_eq!(left.from_sequence, 1);
    assert_eq!(left.through_sequence, 3);
    assert_eq!(left.through_event_id, "u2");
    assert_eq!(left.turn_count, 2);
    assert_eq!(left.char_count, 2 + 2 + 3);
    assert_eq!(right.watermark_before, 3);
    assert_eq!(right.from_sequence, 5);
    assert_eq!(right.turn_count, 1);
}
