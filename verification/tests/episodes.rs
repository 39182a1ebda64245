use hippocampus::episode::{
    judge_gap, ledger_snapshot_hash, list_comparisons, plan_episodes, session_document_id,
    CosineVerdict, EpisodeBoundarySuggestion, EpisodeGapState, EpisodeInputMessage,
    EpisodeMaterializationReport, EpisodeMember, EpisodePlanInput,
};
use hippocampus::model::{EventRole, SourceSpan};

fn message(sequence: u64, role: EventRole, time: &str) -> EpisodeInputMessage {
    let id = format!("e{sequence}");
    EpisodeInputMessage {
        member: EpisodeMember {
            document_id: format!("{id}:0:1"),
            event_id: id.clone(),
            sequence,
            role,
            span: SourceSpan {
                event_id: id,
                start_char: 0,
                end_char: 1,
            },
            content_sha256: "0".repeat(64),
        },
        created_at: time.into(),
        resolved_entity_ids: vec![],
        embedding: None,
        cosine: CosineVerdict::Undefined,
    }
}

fn input(messages: Vec<EpisodeInputMessage>) -> EpisodePlanInput {
    EpisodePlanInput {
        session_id: "s".into(),
        source_session_sha256: "1".repeat(64),
        gap_minutes: 30,
        consolidation_watermark: None,
        messages,
        suggestions: vec![],
    }
}

fn plan(messages: Vec<EpisodeInputMessage>) -> EpisodeMaterializationReport {
    plan_episodes(&input(messages)).unwrap()
}

fn bits(v: &[f32]) -> Option<Vec<u32>> {
    Some(v.iter().map(|x| x.to_bits()).collect())
}

#[test]
fn episode_thresholds_soft_votes_and_assistant_behavior() {
    let mut one = message(1, EventRole::User, "2026-01-01T00:00:00Z");
    one.resolved_entity_ids.push("a".into());
    one.embedding = bits(&[1.0, 0.0]);
    let mut two = message(2, EventRole::Assistant, "2026-01-01T00:30:00Z");
    two.embedding = bits(&[0.0, 1.0]);
    let mut three = message(3, EventRole::User, "2026-01-01T00:30:00Z");
    three.resolved_entity_ids.push("b".into());
    three.embedding = bits(&[0.0, 1.0]);
    three.cosine = CosineVerdict::BelowThreshold;
    let report = plan(vec![one, two, three]);
    assert_eq!(report.episode_documents.len(), 2);
    assert_eq!(report.boundary_decisions.len(), 2);
    assert_eq!(
        report.boundary_decisions[1].gap,
        EpisodeGapState::BelowThreshold
    );
}

#[test]
fn episode_ids_are_stable_and_member_hashes_change() {
    let a = || message(1, EventRole::User, "2026-01-01T00:00:00Z");
    let b = message(2, EventRole::Assistant, "2026-01-01T00:01:00Z");
    let short = plan(vec![a()]);
    let long = plan(vec![a(), b]);
    assert_eq!(
        short.episode_documents[0].document_id,
        long.episode_documents[0].document_id
    );
    assert_ne!(
        short.episode_documents[0].source_sha256,
        long.episode_documents[0].source_sha256
    );
}

#[test]
fn decision_and_ledger_hashes_cover_raw_inputs_canonically() {
    let make = |second_time: &str| {
        let first = message(1, EventRole::User, "2026-01-01T00:00:00Z");
        let mut second = message(2, EventRole::User, second_time);
        second.embedding = bits(&[1.0, 0.0]);
        let mut whole = input(vec![first, second]);
        whole.consolidation_watermark = Some(2);
        whole
    };
    let whole = make("2026-01-01T00:01:00Z");
    let changed = make("2026-01-01T00:01:01Z");
    let first_plan = plan_episodes(&whole).unwrap();
    assert_ne!(
        first_plan.plan_input_sha256,
        plan_episodes(&changed).unwrap().plan_input_sha256
    );
    assert_ne!(
        first_plan.boundary_decisions[1].input_sha256,
        plan_episodes(&changed).unwrap().boundary_decisions[1].input_sha256
    );
    assert_ne!(
        ledger_snapshot_hash("s", Some(2), &whole.messages, &vec![]),
        ledger_snapshot_hash("s", None, &whole.messages, &vec![])
    );
}

#[test]
fn gaps_are_told_apart_to_the_second() {
    assert_eq!(judge_gap(Some(1801), 30), EpisodeGapState::GreaterThanThreshold);
    assert_eq!(judge_gap(Some(1800), 30), EpisodeGapState::EqualToThreshold);
    assert_eq!(judge_gap(Some(1799), 30), EpisodeGapState::BelowThreshold);
    assert_eq!(judge_gap(Some(-1), 30), EpisodeGapState::InvalidOrOutOfOrder);
    assert_eq!(judge_gap(None, 30), EpisodeGapState::MissingTimestamp);
}

#[test]
fn a_long_gap_opens_an_episode_and_members_stay_in_order() {
    let report = plan(vec![
        message(1, EventRole::User, "2026-01-01T00:00:00Z"),
        message(2, EventRole::Assistant, "2026-01-01T00:00:10Z"),
        message(3, EventRole::User, "2026-01-01T00:30:11Z"),
        message(4, EventRole::User, "2026-01-01T00:31:00Z"),
    ]);
    let sequences: Vec<Vec<u64>> = report
        .episode_documents
        .iter()
        .map(|d| d.members.iter().map(|m| m.sequence).collect())
        .collect();
    assert_eq!(sequences, vec![vec![1, 2], vec![3, 4]]);
    assert_eq!(
        report.boundary_decisions[1].gap,
        EpisodeGapState::GreaterThanThreshold
    );
    assert_eq!(
        report.session_document_id.as_deref(),
        Some(session_document_id("s").as_str())
    );
}

#[test]
fn unsound_plans_are_refused() {
    let user = |n| message(n, EventRole::User, "2026-01-01T00:00:00Z");
    let mut whole = input(vec![user(1)]);
    whole.session_id = " ".into();
    assert_eq!(
        plan_episodes(&whole).unwrap_err(),
        "episode plan input contains an invalid session identity"
    );
    whole = input(vec![user(1)]);
    whole.messages[0].member.content_sha256 = "short".into();
    assert_eq!(
        plan_episodes(&whole).unwrap_err(),
        "episode plan contains a non-message or invalid direct member"
    );
    whole = input(vec![user(1), user(1)]);
    assert_eq!(
        plan_episodes(&whole).unwrap_err(),
        "episode plan contains duplicate message sequences"
    );
}

#[test]
fn suggestions_are_taken_in_any_order() {
    let suggest = |reasons: &[&str]| {
        let mut whole = input(vec![
            message(1, EventRole::User, "2026-01-01T00:00:00Z"),
            message(2, EventRole::User, "2026-01-01T00:00:10Z"),
        ]);
        whole.suggestions = reasons
            .iter()
            .map(|r| EpisodeBoundarySuggestion {
                before_event_id: "e2".into(),
                reason: (*r).into(),
            })
            .collect();
        plan_episodes(&whole).unwrap().plan_input_sha256
    };
    assert_eq!(
        suggest(&["model_topic_shift", "explicit_task_switch"]),
        suggest(&["explicit_task_switch", "model_topic_shift", "model_topic_shift"])
    );
}

#[test]
fn each_user_message_is_compared_with_the_one_before() {
    let pairs = list_comparisons(&vec![
        message(1, EventRole::User, "2026-01-01T00:00:00Z"),
        message(2, EventRole::Assistant, "2026-01-01T00:00:10Z"),
        message(3, EventRole::User, "2026-01-01T00:00:20Z"),
    ]);
    assert_eq!(pairs, vec![(0, 2)]);
}

#[test]
fn added_messages_rename_no_episode() {
    let first = || {
        vec![
            message(1, EventRole::User, "2026-01-01T00:00:00Z"),
            message(2, EventRole::User, "2026-01-01T01:00:00Z"),
        ]
    };
    let before = plan(first());
    let mut longer = first();
    longer.push(message(3, EventRole::User, "2026-01-01T01:01:00Z"));
    let after = plan(longer);
    assert_eq!(before.episode_documents.len(), 2);
    assert_eq!(after.episode_documents.len(), 2);
    assert_eq!(before.episode_documents[0], after.episode_documents[0]);
    assert_eq!(
        before.episode_documents[1].document_id,
        after.episode_documents[1].document_id
    );
}

#[test]
fn plans_do_not_depend_on_the_order_of_messages() {
    let make = |order: &[u64], reasons: &[&str]| {
        let times = ["00:00:00", "00:00:10", "00:40:00"];
        let messages = order
            .iter()
            .map(|i| {
                let time = format!("2026-01-01T{}Z", times[*i as usize - 1]);
                message(*i, EventRole::User, &time)
            })
            .collect();
        let mut whole = input(messages);
        whole.suggestions = reasons
            .iter()
            .map(|r| EpisodeBoundarySuggestion {
                before_event_id: "e2".into(),
                reason: (*r).into(),
            })
            .collect();
        whole
    };
    let plain = make(&[1, 2, 3], &["topic", "place"]);
    let turned = make(&[3, 1, 2], &["place", "topic", "topic"]);
    assert_eq!(plan_episodes(&plain), plan_episodes(&turned));
    assert_eq!(
        ledger_snapshot_hash("s", None, &plain.messages, &plain.suggestions),
        ledger_snapshot_hash("s", None, &turned.messages, &turned.suggestions)
    );
}
