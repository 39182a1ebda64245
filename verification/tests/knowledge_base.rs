use hippocampus::config::{KnowledgeConfig, KnowledgeSourceConfig, KnowledgeSourceKind};
use hippocampus::digest::content_sha256;
use hippocampus::lookup::{
    begin_lookup, search_expression, select_knowledge, verify_trace, KnowledgeRow, LoadedSnapshot,
};
use hippocampus::snapshot::{
    is_hash_id, make_snapshot, page_document, passage_spans, revision_id, should_write,
    slice_chars, supported_text_file, KnowledgeSnapshot, PassageKind, SourceDocument,
};
use hippocampus::syncing::{
    begin_sync, finish_source, KnowledgeState, KnowledgeStore, SourceOutcome, SyncRun,
};
use hippocampus::versions::{source_outcome, take_documents};

const NOW: &str = "2026-08-21T00:00:00Z";

fn config() -> KnowledgeConfig {
    let mut config = KnowledgeConfig::default();
    config.sources = vec![KnowledgeSourceConfig {
        id: "local".into(),
        kind: KnowledgeSourceKind::Path,
        location: "/docs".into(),
    }];
    config
}

fn snapshot(content: &str, earlier: &Vec<KnowledgeSnapshot>) -> KnowledgeSnapshot {
    make_snapshot(
        "local",
        KnowledgeSourceKind::Path,
        "/docs",
        SourceDocument {
            document_key: "facts.md".into(),
            title: "facts.md".into(),
            source_location: "/docs/facts.md".into(),
            content: content.into(),
            links: vec![],
        },
        NOW,
        earlier,
    )
}

fn sync(state: &KnowledgeState, revisions: Vec<String>, new_revisions: usize) -> SyncRun {
    let config = config();
    let mut run = begin_sync(&config, state).unwrap();
    finish_source(
        &mut run,
        &config.sources[0],
        NOW,
        SourceOutcome::Read {
            revisions,
            new_revisions,
        },
    );
    run
}

#[test]
fn local_sync_versions_exact_content_and_rebuilds() {
    let store = KnowledgeStore::new("sessions");
    let first = snapshot("海棠计划暗号是青瓷月亮。思源时间 2026。", &vec![]);
    first.validate().unwrap();
    assert!(should_write(&first, None).unwrap());
    let run = sync(
        &KnowledgeState::empty(),
        vec![first.revision_id.clone()],
        1,
    );
    assert_eq!(run.report.new_revisions, 1);
    let again = snapshot("海棠计划暗号是青瓷月亮。思源时间 2026。", &vec![]);
    assert!(!should_write(&again, Some(&first)).unwrap());
    let run = sync(&run.state, vec![again.revision_id.clone()], 0);
    assert_eq!(run.report.new_revisions, 0);
    let documents = store.rebuild(&vec![first]);
    assert!(documents[0].exact_content.contains("青瓷月亮"));

    let earlier = vec![again];
    let second = snapshot("海棠计划暗号更新为银杏晨光。", &earlier);
    assert!(second.revision_id != earlier[0].revision_id);
    assert_eq!(
        second.previous_revision.as_deref(),
        Some(earlier[0].revision_id.as_str())
    );
    let run = sync(&run.state, vec![second.revision_id.clone()], 1);
    assert_eq!(run.report.new_revisions, 1);
    assert_eq!(store.active(&run.state), vec![second.revision_id.clone()]);
    let documents = store.rebuild(&vec![second]);
    assert!(documents[0].exact_content.contains("银杏晨光"));
}

#[test]
fn removed_files_stop_participating_but_snapshots_remain() {
    let store = KnowledgeStore::new("sessions");
    let gone = snapshot("唯一旧词火山玻璃", &vec![]);
    let run = sync(
        &KnowledgeState::empty(),
        vec![gone.revision_id.clone()],
        1,
    );
    assert_eq!(store.active(&run.state).len(), 1);
    let run = sync(&run.state, vec![], 0);
    assert!(store.active(&run.state).is_empty());
    assert!(store
        .snapshot_path(&gone.revision_id)
        .unwrap()
        .ends_with(".json"));
}

#[test]
fn failures_keep_what_was_active() {
    let first = snapshot("x", &vec![]);
    let run = sync(
        &KnowledgeState::empty(),
        vec![first.revision_id.clone()],
        1,
    );
    let config = config();
    let mut failed = begin_sync(&config, &run.state).unwrap();
    finish_source(
        &mut failed,
        &config.sources[0],
        "2026-08-22T00:00:00Z",
        SourceOutcome::Failed("unreadable".into()),
    );
    assert_eq!(failed.report.failed_sources, 1);
    assert_eq!(failed.report.warnings.len(), 1);
    let kept = failed.state.get("local").unwrap();
    assert_eq!(kept.active_revisions, vec![first.revision_id]);
    assert_eq!(kept.last_success_at.as_deref(), Some(NOW));
    assert!(kept.last_error.as_deref().unwrap().contains("unreadable"));
    let store = KnowledgeStore::new("sessions");
    let listed = store.list(&config, &failed.state);
    assert_eq!(listed.len(), 1);
    assert_eq!(listed[0].active_documents, 1);
}

#[test]
fn states_have_a_version() {
    let mut state = KnowledgeState::empty();
    state.check_version().unwrap();
    state.schema_version = 9;
    assert!(state.check_version().is_err());
}

#[test]
fn revisions_depend_on_every_part() {
    let one = revision_id("a", "b", "c");
    assert!(is_hash_id(&one));
    assert!(one != revision_id("ab", "", "c"));
    assert!(one != revision_id("a", "bc", ""));
}

#[test]
fn snapshots_that_were_altered_are_refused() {
    let mut one = snapshot("content", &vec![]);
    one.content = "other".into();
    assert!(one.validate().is_err());
    let mut two = snapshot("content", &vec![]);
    two.schema_version = 2;
    assert!(two.validate().is_err());
}

#[test]
fn long_documents_are_cut_into_overlapping_passages() {
    assert_eq!(passage_spans(&"字".repeat(240)).len(), 1);
    let cut: Vec<(usize, usize, PassageKind)> = passage_spans(&"字".repeat(500))
        .iter()
        .map(|p| (p.start, p.end, p.kind))
        .collect();
    assert_eq!(
        cut,
        vec![
            (0, 500, PassageKind::Document),
            (0, 240, PassageKind::Fragment),
            (200, 440, PassageKind::Fragment),
            (400, 500, PassageKind::Fragment),
        ]
    );
    assert_eq!(slice_chars("海棠计划", 1, 3).unwrap(), "棠计");
    assert!(slice_chars("海棠计划", 3, 5).is_err());
}

#[test]
fn only_text_files_are_read() {
    assert!(supported_text_file("facts.md"));
    assert!(supported_text_file("FACTS.TXT"));
    assert!(!supported_text_file("ignored.bin"));
    assert!(!supported_text_file("README"));
}

#[test]
fn pages_need_content() {
    let page = page_document("http://x", "title", "text".into(), vec![]).unwrap();
    assert_eq!(page.document_key, "http://x");
    assert!(page_document("http://x", "title", "  ".into(), vec![]).is_err());
}

#[test]
fn places_are_below_the_sessions() {
    let store = KnowledgeStore::new("/data/sessions");
    assert!(store.index_path().starts_with(store.root()));
    assert!(store.state_path().starts_with(store.root()));
    assert!(store.snapshots().starts_with(store.root()));
    assert!(store.snapshot_path("../x").is_err());
}

fn row(s: &KnowledgeSnapshot, start: usize, end: usize) -> KnowledgeRow {
    let exact = slice_chars(&s.content, start, end).unwrap();
    KnowledgeRow {
        revision_id: s.revision_id.clone(),
        source_id: s.source_id.clone(),
        document_key: s.document_key.clone(),
        title: s.title.clone(),
        source_location: s.source_location.clone(),
        fetched_at: s.fetched_at.clone(),
        start_char: start,
        end_char: end,
        content_sha256: s.content_sha256.clone(),
        span_sha256: content_sha256(&exact),
        exact_content: exact,
        bm25_score_bits: 0,
    }
}

#[test]
fn found_passages_are_quoted_exactly() {
    let config = config();
    let s = snapshot("海棠计划暗号是青瓷月亮。", &vec![]);
    let terms = vec!["海棠".to_string(), "say \"hi\"".to_string()];
    assert_eq!(search_expression(&terms), "\"海棠\" OR \"say hi\"");
    let before = begin_lookup(&config, &terms, &KnowledgeState::empty()).unwrap();
    assert_eq!(before.status, "ok");
    let rows = vec![row(&s, 0, 12)];
    let loaded = vec![LoadedSnapshot::Snapshot(snapshot(
        "海棠计划暗号是青瓷月亮。",
        &vec![],
    ))];
    let trace = select_knowledge(before, &rows, &loaded).unwrap();
    assert_eq!(trace.selected_evidence.len(), 1);
    assert_eq!(trace.candidates[0].reason, "selected_core");
    let message = trace.injected_message.as_deref().unwrap();
    assert!(message.contains("青瓷月亮"));
    verify_trace(&trace, &loaded).unwrap();
    let altered = vec![LoadedSnapshot::Failed("gone".into())];
    assert!(verify_trace(&trace, &altered).is_err());
}

#[test]
fn nothing_is_looked_up_without_words() {
    let trace = begin_lookup(&config(), &vec![], &KnowledgeState::empty()).unwrap();
    assert_eq!(trace.status, "empty_query");
}

#[test]
fn a_damaged_index_is_refused() {
    let config = config();
    let s = snapshot("abc", &vec![]);
    let mut bad = row(&s, 0, 3);
    bad.span_sha256 = content_sha256("other");
    let before = begin_lookup(&config, &vec!["abc".into()], &KnowledgeState::empty()).unwrap();
    assert!(select_knowledge(before, &vec![bad], &vec![LoadedSnapshot::Snapshot(s)]).is_err());
}

fn document(key: &str, content: &str) -> SourceDocument {
    SourceDocument {
        document_key: key.into(),
        title: key.into(),
        source_location: format!("/docs/{key}"),
        content: content.into(),
        links: vec![],
    }
}

#[test]
fn a_source_that_did_not_change_gives_nothing_new() {
    let config = config();
    let documents = vec![document("a.md", "one"), document("b.md", "two")];
    let first = take_documents(&config.sources[0], &documents, NOW, &vec![], &vec![]);
    assert_eq!(first.fault, None);
    assert_eq!(first.writes.len(), 2);
    let stored = first.writes;
    let later = "2026-08-22T00:00:00Z";
    let again = take_documents(&config.sources[0], &documents, later, &vec![], &stored);
    assert_eq!(again.revisions, first.revisions);
    assert!(again.writes.is_empty());
    let mut run = begin_sync(&config, &KnowledgeState::empty()).unwrap();
    finish_source(&mut run, &config.sources[0], later, source_outcome(again));
    assert_eq!(run.report.new_revisions, 0);

    let changed = vec![document("a.md", "one"), document("b.md", "three")];
    let third = take_documents(&config.sources[0], &changed, later, &stored, &stored);
    assert_eq!(third.writes.len(), 1);
    assert_eq!(third.writes[0].content, "three");
    assert_eq!(third.revisions[0], first.revisions[0]);
    assert!(third.revisions[1] != first.revisions[1]);
    let mut run = begin_sync(&config, &KnowledgeState::empty()).unwrap();
    finish_source(&mut run, &config.sources[0], later, source_outcome(third));
    assert_eq!(run.report.new_revisions, 1);
}

#[test]
fn an_altered_snapshot_stops_its_source() {
    let config = config();
    let documents = vec![document("a.md", "one"), document("b.md", "two")];
    let first = take_documents(&config.sources[0], &documents, NOW, &vec![], &vec![]);
    let mut stored = first.writes;
    stored[0].content_sha256 = "0".repeat(64);
    let again = take_documents(&config.sources[0], &documents, NOW, &vec![], &stored);
    assert!(again.fault.is_some());
    assert!(again.writes.is_empty());
}
