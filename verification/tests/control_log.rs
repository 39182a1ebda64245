use hippocampus::control::{
    after_append, append_given_up, apply_transition, canonical_record_bytes, check_session_file,
    is_stale_temp_name, list_segments, next_record, parse_segment_name, record_hash, replay,
    resolve_event, segment_name, validate_binding, validate_hash, validate_record,
    validate_safe_id, validate_utc_timestamp, AppendStep, ControlAction, ControlError,
    ControlEvent, ControlLog, ControlRecord, ControlState, ControlTarget, ControlTargetKind,
    DirectoryEntry, FoundPath, SegmentSource, TargetBinding, MAX_APPEND_ATTEMPTS,
};
use hippocampus::digest::content_sha256;
use hippocampus::model::{event_id, EventRole, TurnStatus};

const CREATED: &str = "2026-08-20T00:00:00Z";
const NOW: &str = "2026-08-21T00:00:00Z";

fn binding() -> TargetBinding {
    TargetBinding {
        session_id: None,
        content_sha256: None,
        created_at: CREATED.into(),
    }
}

fn target(id: &str) -> ControlTarget {
    ControlTarget {
        kind: ControlTargetKind::Session,
        id: id.into(),
    }
}

fn segment(record: ControlRecord, bytes: Vec<u8>) -> SegmentSource {
    SegmentSource {
        sequence: record.sequence,
        path: segment_name(record.sequence),
        regular: true,
        size: bytes.len() as u64,
        bytes: Ok(bytes),
        record: Ok(record),
        binding: Ok(binding()),
    }
}

#[test]
fn exclusion_hides_a_session_and_its_turns() {
    let mut state = ControlState::default();
    assert!(state.allows_session("s"));
    apply_transition(
        &mut state,
        ControlAction::Exclude,
        ControlTargetKind::Session,
        "s",
    )
    .unwrap();
    assert!(state.session_is_excluded("s"));
    assert!(!state.allows_event("s", "any"));
    assert!(!state.allows_turn("s", "turn"));
    assert_eq!(state.excluded_sessions(), vec!["s"]);
    assert!(matches!(
        apply_transition(
            &mut state,
            ControlAction::Exclude,
            ControlTargetKind::Session,
            "s"
        ),
        Err(ControlError::InvalidTransition(_))
    ));
    apply_transition(
        &mut state,
        ControlAction::Restore,
        ControlTargetKind::Session,
        "s",
    )
    .unwrap();
    assert_eq!(state, ControlState::default());
    assert!(matches!(
        apply_transition(
            &mut state,
            ControlAction::Restore,
            ControlTargetKind::Session,
            "s"
        ),
        Err(ControlError::InvalidTransition(_))
    ));
}

#[test]
fn either_event_of_a_turn_hides_the_turn() {
    let mut state = ControlState::default();
    let id = event_id("s", Some("t"), EventRole::Assistant);
    apply_transition(
        &mut state,
        ControlAction::Exclude,
        ControlTargetKind::Event,
        &id,
    )
    .unwrap();
    assert!(state.event_is_excluded(&id));
    assert!(!state.allows_turn("s", "t"));
    assert!(state.allows_session("s"));
    assert_eq!(state.excluded_events(), vec![id]);
}

#[test]
fn written_records_are_replayed() {
    let state = ControlState::default();
    let (first, first_bytes) = next_record(
        &state,
        ControlAction::Exclude,
        &target("a"),
        &binding(),
        NOW,
    )
    .unwrap();
    assert_eq!(first.sequence, 1);
    assert_eq!(first.record_sha256, record_hash(&first));
    assert_eq!(first_bytes, canonical_record_bytes(&first));
    let once = replay(vec![segment(first, first_bytes)]).unwrap();
    assert_eq!(once.last_sequence(), 1);
    assert!(once.session_is_excluded("a"));

    let (second, second_bytes) =
        next_record(&once, ControlAction::Restore, &target("a"), &binding(), NOW).unwrap();
    assert_eq!(
        second.previous_record_sha256.as_deref(),
        once.last_record_sha256()
    );
    let (again, again_bytes) = next_record(
        &state,
        ControlAction::Exclude,
        &target("a"),
        &binding(),
        NOW,
    )
    .unwrap();
    let twice = replay(vec![
        segment(again, again_bytes),
        segment(second, second_bytes),
    ])
    .unwrap();
    assert_eq!(twice.last_sequence(), 2);
    assert!(!twice.session_is_excluded("a"));
    assert!(once.generation_sha256() != twice.generation_sha256());
    assert_eq!(twice.generation_sha256().len(), 64);
}

#[test]
fn damaged_segments_stop_a_replay() {
    let make = || {
        next_record(
            &ControlState::default(),
            ControlAction::Exclude,
            &target("a"),
            &binding(),
            NOW,
        )
        .unwrap()
    };
    let (record, bytes) = make();
    let mut one = segment(record, bytes);
    one.regular = false;
    assert!(matches!(replay(vec![one]), Err(ControlError::CorruptLog(_))));
    let (record, mut bytes) = make();
    bytes.push(b' ');
    assert!(replay(vec![segment(record, bytes)]).is_err());
    let (mut record, bytes) = make();
    record.target_id = "b".into();
    assert!(replay(vec![segment(record, bytes)]).is_err());
    let (record, bytes) = make();
    let mut one = segment(record, bytes);
    one.bytes = Err(ControlError::Io {
        path: "p".into(),
        message: "gone".into(),
    });
    assert!(matches!(replay(vec![one]), Err(ControlError::Io { .. })));
}

#[test]
fn records_are_checked_field_by_field() {
    let state = ControlState::default();
    let (record, _) = next_record(
        &state,
        ControlAction::Exclude,
        &target("a"),
        &binding(),
        NOW,
    )
    .unwrap();
    validate_record(&record, 1, &state).unwrap();
    assert!(validate_record(&record, 2, &state).is_err());
    let mut other = record;
    other.timestamp = "2026-08-21T08:00:00+08:00".into();
    assert!(validate_record(&other, 1, &state).is_err());
    assert!(validate_binding(Ok(binding()), &other).is_ok());
    let mut moved = binding();
    moved.created_at = NOW.into();
    assert!(validate_binding(Ok(moved), &other).is_err());
}

#[test]
fn names_of_segments_are_padded_numbers() {
    assert_eq!(segment_name(42), "00000000000000000042.json");
    assert_eq!(parse_segment_name("00000000000000000042.json"), Ok(42));
    assert_eq!(
        parse_segment_name(&segment_name(u64::MAX)),
        Ok(18446744073709551615)
    );
    assert!(parse_segment_name("99999999999999999999.json").is_err());
    assert!(parse_segment_name("42.json").is_err());
    assert!(!is_stale_temp_name("00000000000000000042.json"));
}

#[test]
fn segments_are_listed_by_number() {
    let entry = |name: &str| DirectoryEntry {
        name: Some(name.into()),
        regular: true,
    };
    let listed = list_segments(&vec![
        entry("00000000000000000002.json"),
        entry("00000000000000000001.json"),
    ])
    .unwrap();
    assert_eq!(listed, vec![(1, 1), (2, 0)]);
    assert!(list_segments(&vec![entry("notes.txt")]).is_err());
    assert!(list_segments(&vec![DirectoryEntry {
        name: None,
        regular: true,
    }])
    .is_err());
}

#[test]
fn identifiers_hashes_and_times_are_checked() {
    validate_safe_id("abc-1_x").unwrap();
    assert_eq!(
        validate_safe_id(""),
        Err(ControlError::InvalidTarget("empty target id".into()))
    );
    assert_eq!(
        validate_safe_id("a/\"b"),
        Err(ControlError::InvalidTarget("unsafe target id \"a/\\\"b\"".into()))
    );
    validate_hash(&content_sha256("x"), "field").unwrap();
    assert!(validate_hash("ABC", "field").is_err());
    validate_utc_timestamp("2026-08-21T00:00:00+00:00", "timestamp").unwrap();
    assert!(validate_utc_timestamp("2026-08-21T00:00:00+01:00", "timestamp").is_err());
    assert!(validate_utc_timestamp("yesterday", "timestamp").is_err());
}

#[test]
fn an_event_resolves_to_exactly_one_source() {
    let event = || ControlEvent {
        session_id: "s".into(),
        role: EventRole::User,
        turn_status: Some(TurnStatus::Complete),
        created_at: CREATED.into(),
        content_sha256: content_sha256("x"),
    };
    let bound = resolve_event("e", &vec![event()]).unwrap();
    assert_eq!(bound.session_id.as_deref(), Some("s"));
    assert_eq!(bound.content_sha256, Some(content_sha256("x")));
    assert!(resolve_event("e", &vec![]).is_err());
    assert!(resolve_event("e", &vec![event(), event()]).is_err());
}

#[test]
fn errors_have_messages_and_logs_a_place() {
    let error = ControlError::RecordTooLarge { size: 9, max: 8 };
    assert!(error.message().contains('9') && error.message().contains('8'));
    assert!(ControlError::Locking("busy".into()).message().contains("busy"));
    assert!(ControlLog::new("/data").directory().starts_with("/data/"));
}

#[test]
fn an_append_is_tried_eight_times() {
    assert_eq!(MAX_APPEND_ATTEMPTS, 8);
    assert_eq!(after_append(0, false), AppendStep::Done);
    for attempt in 0..7 {
        assert_eq!(after_append(attempt, true), AppendStep::Again);
    }
    assert_eq!(after_append(7, true), AppendStep::GiveUp);
    assert_eq!(after_append(7, false), AppendStep::Done);
    assert_eq!(
        append_given_up().message(),
        "invalid control transition: control log changed too often while appending"
    );
}

#[test]
fn only_files_and_directories_are_followed() {
    let log = ControlLog::new("root");
    assert_eq!(log.is_present(FoundPath::Directory), Ok(true));
    assert_eq!(log.is_present(FoundPath::Nothing), Ok(false));
    for found in [FoundPath::File, FoundPath::Other] {
        assert_eq!(
            log.is_present(found).unwrap_err().message(),
            format!(
                "control log is corrupt: {} is not a real directory",
                log.directory()
            )
        );
    }
    assert_eq!(check_session_file("s", FoundPath::File), Ok(()));
    assert_eq!(
        check_session_file("s", FoundPath::Nothing),
        Err(ControlError::InvalidTarget("session s does not exist".into()))
    );
    assert_eq!(
        check_session_file("s", FoundPath::Directory),
        Err(ControlError::InvalidTarget(
            "session s is not a regular source file".into()
        ))
    );
    assert!(check_session_file("../s", FoundPath::File).is_err());
}
