use hippocampus::answers::{
    check_answer, check_consolidation, map_recall, memory_preparation, read_answer,
};
use hippocampus::channels::RecallChannels;
use hippocampus::config::{AppConfig, MemoryConfig};
use hippocampus::consolidate::ConsolidationRunStatus;
use hippocampus::corpus::{
    read_long_mem, scalar, EvalBenchmark, EvalCorpus, LongMemMessage, LongMemRow,
};
use hippocampus::dataset::{
    check_load, eval_run_fingerprint, eval_summary_name, load_eval_corpus, select_cases,
    validate_eval_paths, EvalFingerprintInput, EvalPath, EvalSource, RuntimeFault,
};
use hippocampus::evaluation::{canonical_sessions, group_directory, grouped_cases, EvalGroup};
use hippocampus::json::{json_number, json_text, parse_json, Json};
use hippocampus::ledger::{
    check_ending, check_line, count_resumed, list_open, select_records, EvalJsonl, RecordHead,
    RunIdentity,
};
use hippocampus::locomo::{read_locomo, LocomoQuestion, LocomoSample};
use hippocampus::model::{BudgetConfig, EventRole, Session, TokenUsage};
use hippocampus::runtime::{check_corpus, check_runtime, EvalRunOptions};
use hippocampus::score::{
    eval_mrr, eval_recall_at_k, eval_token_overlap, normalize_eval_answer, score_eval_case,
    tokens, EvalGold, EvalQuestionClass, Ratio, TokenOverlap,
};
use hippocampus::search::empty_live_recall;
use hippocampus::synthetic::synthetic;
use hippocampus::workspace::{check_workspace, same_canonical_source, session_of};

fn texts(v: &[&str]) -> Vec<String> {
    v.iter().map(|t| (*t).into()).collect()
}

#[test]
fn answers_are_compared_without_case_and_punctuation() {
    assert_eq!(normalize_eval_answer("  Hello,   WORLD! "), "hello world");
    assert_eq!(tokens("Alice 住北京"), texts(&["alice", "住", "北", "京"]));
    assert_eq!(
        eval_token_overlap("my cat sat", "the My cat ran"),
        TokenOverlap {
            common: 2,
            predicted: 3,
            expected: 3
        }
    );
}

#[test]
fn rankings_are_scored_by_where_gold_stands() {
    let gold = texts(&["a", "b"]);
    let ranking = texts(&["x", "a", "b"]);
    assert_eq!(
        eval_recall_at_k(&gold, &ranking, 2),
        Some(Ratio { part: 1, whole: 2 })
    );
    assert_eq!(eval_mrr(&gold, &ranking), Some(Ratio { part: 1, whole: 2 }));
    assert_eq!(eval_recall_at_k(&vec![], &ranking, 2), None);
    assert_eq!(eval_mrr(&vec![], &ranking), None);
    assert_eq!(
        eval_mrr(&gold, &texts(&["x"])).map(|r| r.part),
        Some(0)
    );
}

#[test]
fn cases_are_scored() {
    let gold = texts(&["a"]);
    let none = vec![];
    let score = score_eval_case(
        &EvalGold {
            expected_answer: Some("Paris"),
            class: EvalQuestionClass::Temporal,
            gold_evidence: &gold,
            stale_evidence: &none,
            negative_evidence: &none,
        },
        "paris.",
        &texts(&["a"]),
        &texts(&["a"]),
        &TokenUsage::new(Some(10), Some(1)),
    );
    assert!(score.answer_correct);
    assert_eq!(score.temporal_correct, Some(true));
    assert_eq!(score.conflict_correct, None);
    assert_eq!(score.relevant_selected, 1);
    assert_eq!(
        score.evidence_per_input_token,
        Some(Ratio { part: 1, whole: 10 })
    );
}

#[test]
fn the_synthetic_corpus_is_sound() {
    let cases = synthetic();
    assert_eq!(cases.len(), 15);
    let corpus = load_eval_corpus(EvalBenchmark::Synthetic, None, None).unwrap();
    assert_eq!(corpus.cases.len(), 15);
    let again = load_eval_corpus(EvalBenchmark::Synthetic, None, None).unwrap();
    assert_eq!(corpus.dataset_sha256, again.dataset_sha256);
    check_corpus(&corpus, &again).unwrap();
    let groups = grouped_cases(&corpus.cases).unwrap();
    let total: usize = groups.iter().map(|g| g.len()).sum();
    assert_eq!(total, 15);
    let mut other = load_eval_corpus(EvalBenchmark::Synthetic, None, None).unwrap();
    other.cases[0].question = "changed".into();
    assert!(check_corpus(&corpus, &other).is_err());
}

#[test]
fn loads_are_refused_without_a_dataset() {
    assert!(check_load(EvalBenchmark::Locomo, false, None).is_err());
    assert!(check_load(EvalBenchmark::Synthetic, true, None).is_err());
    assert!(check_load(EvalBenchmark::Locomo, true, Some(0)).is_err());
    assert!(check_load(EvalBenchmark::Locomo, true, Some(3)).is_ok());
    assert_eq!(
        select_cases(EvalBenchmark::Synthetic, synthetic(), 2, "x")
            .cases
            .len(),
        2
    );
}

fn long_row() -> LongMemRow {
    let message = |role: &str, content: &str| LongMemMessage {
        role: role.into(),
        content: content.into(),
        has_answer: Some(true),
    };
    LongMemRow {
        question_id: "q1".into(),
        question_type: "single-session-user".into(),
        question: "Where?".into(),
        answer: json_text("Paris"),
        question_date: "2023/05/30 (Tue) 10:00".into(),
        haystack_dates: texts(&["2023/05/20 (Sat) 02:21"]),
        haystack_session_ids: texts(&["s1"]),
        haystack_sessions: vec![vec![
            message("user", "I live in Paris."),
            message("assistant", "Noted."),
        ]],
        answer_session_ids: texts(&["s1"]),
    }
}

#[test]
fn long_conversations_are_read() {
    let cases = read_long_mem(&vec![long_row()]).unwrap();
    assert_eq!(cases[0].expected_answer.as_deref(), Some("Paris"));
    assert_eq!(cases[0].reference_time, "2023-05-30T10:00:00Z");
    assert_eq!(cases[0].sessions[0].occurred_at, "2023-05-20T02:21:00Z");
    assert_eq!(cases[0].sessions[0].messages[1].role, EventRole::Assistant);
    let mut bad = long_row();
    bad.haystack_dates = vec![];
    assert!(read_long_mem(&vec![bad]).is_err());
    let mut wrong = long_row();
    wrong.haystack_sessions[0][0].role = "robot".into();
    assert!(read_long_mem(&vec![wrong]).is_err());
}

#[test]
fn datasets_are_named_by_their_bytes() {
    let source = EvalSource {
        bytes: b"abc".to_vec(),
        samples: vec![],
        rows: vec![long_row()],
    };
    let corpus = load_eval_corpus(EvalBenchmark::LongMemEval, Some(&source), Some(1)).unwrap();
    assert_eq!(corpus.cases.len(), 1);
    assert_eq!(corpus.dataset_sha256.len(), 64);
}

#[test]
fn dialogues_are_read() {
    let conversation = parse_json(
        "{\"speaker_a\":\"Ann\",\"speaker_b\":\"Bob\",\
          \"session_1_date_time\":\"1:56 pm on 8 May, 2023\",\
          \"session_1\":[{\"speaker\":\"Ann\",\"dia_id\":\"D1:1\",\"text\":\"Hi\"},\
                         {\"speaker\":\"Bob\",\"dia_id\":\"D1:2\",\"text\":\"Hello\"}]}",
    )
    .unwrap();
    let sample = LocomoSample {
        sample_id: json_text("conv-1"),
        conversation,
        qa: vec![LocomoQuestion {
            question: "Who?".into(),
            answer: Some(json_text("Ann")),
            category: json_number(1),
            evidence: vec![json_text("D1:1")],
            adversarial_answer: None,
        }],
    };
    let cases = read_locomo(&vec![sample]).unwrap();
    assert_eq!(cases.len(), 1);
    assert_eq!(cases[0].sessions[0].occurred_at, "2023-05-08T13:56:00Z");
    assert_eq!(cases[0].gold_evidence, texts(&["D1:1"]));
    assert!(cases[0].unresolved_gold_evidence.is_empty());
}

#[test]
fn scalars_are_texts_or_numbers() {
    assert_eq!(scalar(&json_text("x"), "answer").unwrap(), "x");
    assert_eq!(scalar(&json_number(7), "answer").unwrap(), "7");
    assert!(scalar(&Json::Array(vec![]), "answer").is_err());
}

fn options() -> EvalRunOptions {
    EvalRunOptions {
        dataset_path: None,
        output: "/tmp/out.jsonl".into(),
        workspace: "/tmp/work".into(),
        answer_model: "model".into(),
        ollama_host: "http://localhost".into(),
        channels: RecallChannels::bm25_only(),
        num_ctx: 8_192,
        num_predict: 256,
        selected_evidence_limit: 5,
    }
}

fn corpus() -> EvalCorpus {
    load_eval_corpus(EvalBenchmark::Synthetic, None, None).unwrap()
}

#[test]
fn runs_are_checked_before_they_start() {
    let config = AppConfig::default();
    check_runtime(&config, &corpus(), &options()).unwrap();
    let mut blank = options();
    blank.answer_model = " ".into();
    assert!(matches!(
        check_runtime(&config, &corpus(), &blank),
        Err(RuntimeFault::Refused(_))
    ));
    let mut deep = options();
    deep.channels = RecallChannels::all();
    assert!(check_runtime(&config, &corpus(), &deep).is_err());
}

fn fingerprint(channels: RecallChannels, num_ctx: u64) -> Result<String, RuntimeFault> {
    eval_run_fingerprint(&EvalFingerprintInput {
        benchmark: EvalBenchmark::Synthetic,
        dataset_sha256: corpus().dataset_sha256,
        answer_model: "model".into(),
        memory: MemoryConfig::default(),
        channels,
        num_ctx,
        num_predict: 256,
        selected_evidence_limit: 5,
    })
}

#[test]
fn fingerprints_cover_the_settings() {
    let one = fingerprint(RecallChannels::bm25_only(), 8_192).unwrap();
    assert_eq!(one.len(), 64);
    assert_eq!(one, fingerprint(RecallChannels::bm25_only(), 8_192).unwrap());
    assert!(one != fingerprint(RecallChannels::bm25_only(), 4_096).unwrap());
    let off = RecallChannels {
        bm25: false,
        ..RecallChannels::bm25_only()
    };
    assert!(fingerprint(off, 8_192).is_err());
}

#[test]
fn outputs_are_kept_apart() {
    let path = |parts: &[&str]| EvalPath {
        given: texts(parts),
        resolved: texts(parts),
    };
    let output = path(&["/", "tmp", "out.jsonl"]);
    let summary = path(&["/", "tmp", "out.jsonl.summary.json"]);
    let work = path(&["/", "tmp", "work"]);
    validate_eval_paths(None, &output, &summary, &work).unwrap();
    assert!(validate_eval_paths(Some(&output), &output, &summary, &work).is_err());
    assert!(validate_eval_paths(None, &path(&["/", "tmp", "work", "o"]), &summary, &work).is_err());
    assert!(validate_eval_paths(None, &path(&["..", "o"]), &summary, &work).is_err());
    assert_eq!(
        eval_summary_name(Some("out.jsonl")).unwrap(),
        "out.jsonl.summary.json"
    );
    assert!(eval_summary_name(None).is_err());
}

#[test]
fn sessions_are_stored_under_names_of_their_own() {
    let whole = corpus();
    let groups = grouped_cases(&whole.cases).unwrap();
    let first = &whole.cases[groups[0][0]];
    let group = EvalGroup {
        benchmark: whole.benchmark,
        dataset_sha256: &whole.dataset_sha256,
        group_id: &first.group_id,
    };
    let (stored, map) = canonical_sessions(&group, &first.sessions, &options(), 30).unwrap();
    assert_eq!(stored.len(), first.sessions.len());
    assert!(!map.entries.is_empty());
    let directory = group_directory(&group);
    assert!(!directory.contains('/'));
    let thresholds = BudgetConfig {
        context_window: 0,
        max_output_tokens: 0,
        safety_margin_tokens: 0,
        probe_threshold: 800,
        warning_threshold: 900,
        trim_target: 700,
    };
    let mut found: Vec<_> = stored.iter().map(|s| session_of(s, &thresholds)).collect();
    check_workspace(&found, &stored, &thresholds).unwrap();
    check_workspace(&vec![], &stored, &thresholds).unwrap();
    assert!(found[0].budget.context_window == stored[0].context_window && !found[0].think);
    found[0].updated_at = "2030-01-01T00:00:00Z".into();
    assert!(same_canonical_source(&found[0], &stored[0], &thresholds));
    let refusal = |change: fn(&mut Session)| {
        let mut altered = vec![found[0].clone()];
        change(&mut altered[0]);
        check_workspace(&altered, &stored, &thresholds).unwrap_err()
    };
    let differs = format!(
        "persisted evaluation session differs from canonical source: {}",
        found[0].id
    );
    assert_eq!(refusal(|s| s.active_context_start_index = 1), differs);
    assert_eq!(refusal(|s| s.budget.trim_target = 1), differs);
    assert_eq!(refusal(|s| s.turns[0].usage.input_tokens = Some(1)), differs);
    assert_eq!(refusal(|s| s.turns[0].probe_usage.output_tokens = None), differs);
    assert_eq!(refusal(|s| s.turns[0].context_trace.input_budget = 1), differs);
    assert_eq!(
        refusal(|s| s.turns[0].context_trace.retrieval.warnings.push("w".into())),
        differs
    );
    assert_eq!(refusal(|s| s.turns[0].thinking.push('x')), differs);
    assert_eq!(
        refusal(|s| s.id = "other".into()),
        "evaluation workspace contains unexpected persisted session data"
    );
    let recall = empty_live_recall(
        "event",
        &hippocampus::model::RetrievalConfig {
            candidate_limit: 30,
            max_selected: 5,
            evidence_char_budget: 1,
            expansion_char_budget: 1,
        },
        &MemoryConfig::default(),
        None,
    );
    let mapped = map_recall(&recall, &map, whole.benchmark, RecallChannels::bm25_only());
    assert!(mapped.ranking.is_empty() && mapped.selected.is_empty() && mapped.unmapped.is_empty());
}

#[test]
fn preparation_follows_the_channels() {
    let words = memory_preparation(RecallChannels::bm25_only());
    assert!(!words.consolidate && !words.embed && !words.link);
    let all = memory_preparation(RecallChannels::all());
    assert!(all.consolidate && all.embed && all.link);
    assert!(check_answer(" ").is_err());
    assert!(check_answer("Paris").is_ok());
    assert_eq!(read_answer("{\"answer\": \"Paris\"}").unwrap(), "Paris");
    assert_eq!(read_answer("[\"Paris\"]").unwrap(), "Paris");
    for reply in [
        "{\"answer\":\"Paris\",\"why\":\"x\"}",
        "{\"answer\":1}",
        "{}",
        "\"Paris\"",
        "[]",
        "not json",
    ] {
        assert_eq!(
            read_answer(reply).unwrap_err(),
            "evaluation answer response violated schema"
        );
    }
    assert!(check_consolidation("s", ConsolidationRunStatus::Completed).is_ok());
    assert!(check_consolidation("s", ConsolidationRunStatus::UpToDate).is_ok());
    assert!(check_consolidation("s", ConsolidationRunStatus::Failed).is_err());
}

fn identity() -> RunIdentity {
    RunIdentity {
        run_fingerprint: "f".into(),
        benchmark: EvalBenchmark::Synthetic,
        dataset_sha256: "d".into(),
        requested_channels: RecallChannels::bm25_only(),
    }
}

fn head(id: &str) -> RecordHead {
    RecordHead {
        schema_version: 1,
        run_fingerprint: "f".into(),
        benchmark: EvalBenchmark::Synthetic,
        dataset_sha256: "d".into(),
        requested_channels: RecallChannels::bm25_only(),
        question_id: id.into(),
    }
}

#[test]
fn a_resumed_run_answers_the_rest() {
    let mut ledger = EvalJsonl::new(identity());
    ledger.read_back(&head("q1"), 1).unwrap();
    assert!(ledger.contains("q1") && ledger.len() == 1);
    assert!(ledger.read_back(&head("q1"), 2).is_err());
    let mut foreign = head("q2");
    foreign.run_fingerprint = "other".into();
    assert!(ledger.read_back(&foreign, 2).is_err());
    let ids = texts(&["q1", "q2", "q3"]);
    assert_eq!(count_resumed(&ids, &ledger), 1);
    assert_eq!(
        list_open(&vec![vec![0, 1], vec![2]], &ids, &ledger),
        vec![vec![1], vec![2]]
    );
    ledger.check_append(&head("q2")).unwrap();
    ledger.finish_append(&head("q2"), true);
    assert!(ledger.contains("q2"));
    assert!(ledger.check_append(&head("q2")).is_err());
    ledger.finish_append(&head("q3"), false);
    assert!(ledger.check_append(&head("q3")).is_err());
}

#[test]
fn records_are_whole_lines() {
    assert!(check_ending(&b"{}\n".to_vec()).is_ok());
    assert!(check_ending(&vec![]).is_ok());
    assert!(check_ending(&b"{}".to_vec()).is_err());
    assert!(check_line("{}", 1).is_ok());
    assert!(check_line("", 2).is_err());
}

#[test]
fn summaries_take_each_question_once() {
    let heads = vec![head("q2"), head("q1")];
    assert_eq!(
        select_records(&heads, &identity(), &texts(&["q1", "q2"])).unwrap().len(),
        2
    );
    assert!(select_records(&vec![head("q1"), head("q1")], &identity(), &texts(&["q1"])).is_err());
}

#[test]
fn summaries_leave_out_what_was_not_asked_for() {
    let asked = texts(&["q1", "q2"]);
    let ids = |heads: &Vec<RecordHead>| -> Vec<String> {
        select_records(heads, &identity(), &asked)
            .unwrap()
            .into_iter()
            .map(|i| heads[i].question_id.clone())
            .collect()
    };
    let plain = vec![head("q1"), head("q2")];
    let turned = vec![head("q2"), head("q1")];
    let more = vec![head("q2"), head("q9"), head("q1")];
    assert_eq!(ids(&plain), texts(&["q1", "q2"]));
    assert_eq!(ids(&turned), ids(&plain));
    assert_eq!(ids(&more), ids(&plain));
    assert_eq!(ids(&vec![head("q2")]), texts(&["q2"]));
    assert!(select_records(&plain, &identity(), &texts(&["q1", "q1"])).is_err());
}

#[test]
fn normalized_answers_stay_as_they_are() {
    assert_eq!(normalize_eval_answer("NO_ANSWER"), "no answer");
    for answer in ["  Hello,   WORLD! ", "NO_ANSWER", "a--b", "", "你好，世界"] {
        let once = normalize_eval_answer(answer);
        assert_eq!(normalize_eval_answer(&once), once);
        assert!(!once.contains("  ") && once.trim() == once);
    }
}
