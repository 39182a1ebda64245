//! Loading a benchmark, and what identifies a run of it.

use vstd::prelude::*;
use vstd::string::*;

use crate::channels::{self, json_channels, RecallChannels};
use crate::config::{self, AdaptiveBudgetConfig, MemoryBudgetConfig, MemoryConfig};
use crate::corpus::{
    self, benchmark_name, read_long_mem, CaseModel, EvalBenchmark, EvalCase, EvalCorpus,
    EvalMessage, EvalSession, LongMemRow, MessageModel, SessionModel,
};
use crate::digest::{self, bytes_sha256, content_sha256};
use crate::json::{
    self, copy_json, json_number, json_opt_text, json_text, json_texts, render, Json, JsonObject,
    JsonTree,
};
use crate::locomo::{self, read_locomo, LocomoSample};
use crate::model;
use crate::score::EvalQuestionClass;
use crate::synthetic::{self, synthetic};
use crate::text::{self, is_blank, text_eq};

verus! {

pub open spec fn class_text(c: EvalQuestionClass) -> Seq<char> {
    match c {
        EvalQuestionClass::General => "general"@,
        EvalQuestionClass::ExactFact => "exact_fact"@,
        EvalQuestionClass::Temporal => "temporal"@,
        EvalQuestionClass::ConflictUpdate => "conflict_update"@,
        EvalQuestionClass::MultiHop => "multi_hop"@,
        EvalQuestionClass::NoAnswer => "no_answer"@,
    }
}

pub fn class_name(c: EvalQuestionClass) -> (r: &'static str)
    ensures
        r@ == class_text(c),
{
    match c {
        EvalQuestionClass::General => "general",
        EvalQuestionClass::ExactFact => "exact_fact",
        EvalQuestionClass::Temporal => "temporal",
        EvalQuestionClass::ConflictUpdate => "conflict_update",
        EvalQuestionClass::MultiHop => "multi_hop",
        EvalQuestionClass::NoAnswer => "no_answer",
    }
}

pub open spec fn opt_bool_tree(b: Option<bool>) -> JsonTree {
    match b {
        Some(b) => JsonTree::Bool(b),
        None => JsonTree::Null,
    }
}

pub open spec fn message_tree(m: MessageModel) -> JsonTree {
    JsonTree::Object(
        seq![
            ("role"@, JsonTree::Text(model::role_text(m.role))),
            ("speaker"@, JsonTree::Text(m.speaker)),
            ("content"@, JsonTree::Text(m.content)),
            (
                "evidence"@,
                JsonTree::Object(
                    seq![
                        ("external_id"@, JsonTree::Text(m.evidence.external_id)),
                        ("source_session_id"@, JsonTree::Text(m.evidence.source_session_id)),
                        ("has_answer"@, opt_bool_tree(m.evidence.has_answer)),
                    ],
                ),
            ),
        ],
    )
}

pub open spec fn message_trees(v: Seq<MessageModel>) -> Seq<JsonTree> {
    Seq::new(v.len(), |i: int| message_tree(v[i]))
}

pub open spec fn session_tree(s: SessionModel) -> JsonTree {
    JsonTree::Object(
        seq![
            ("external_id"@, JsonTree::Text(s.external_id)),
            ("occurred_at"@, JsonTree::Text(s.occurred_at)),
            ("messages"@, JsonTree::Array(message_trees(s.messages))),
        ],
    )
}

pub open spec fn session_trees(v: Seq<SessionModel>) -> Seq<JsonTree> {
    Seq::new(v.len(), |i: int| session_tree(v[i]))
}

/// A question in JSON.
pub open spec fn case_tree(c: CaseModel) -> JsonTree {
    JsonTree::Object(
        seq![
            ("id"@, JsonTree::Text(c.id)),
            ("group_id"@, JsonTree::Text(c.group_id)),
            ("question"@, JsonTree::Text(c.question)),
            ("expected_answer"@, json::opt_text_tree(c.expected_answer)),
            ("class"@, JsonTree::Text(class_text(c.class))),
            ("reference_time"@, JsonTree::Text(c.reference_time)),
            ("sessions"@, JsonTree::Array(session_trees(c.sessions))),
            ("gold_evidence"@, JsonTree::Array(json::text_trees(c.gold))),
            ("unresolved_gold_evidence"@, JsonTree::Array(c.unresolved)),
            ("stale_evidence"@, JsonTree::Array(json::text_trees(c.stale))),
            ("negative_evidence"@, JsonTree::Array(json::text_trees(c.negative))),
            ("source_metadata"@, c.metadata),
        ],
    )
}

pub open spec fn case_trees(v: Seq<CaseModel>) -> Seq<JsonTree> {
    Seq::new(v.len(), |i: int| case_tree(v[i]))
}

fn json_message(m: &EvalMessage) -> (r: Json)
    ensures
        json::tree(r) == message_tree(corpus::message_model(*m)),
{
    let has_answer = match m.evidence.has_answer {
        Some(b) => Json::Bool(b),
        None => Json::Null,
    };
    let evidence = JsonObject::new().with(
        "external_id",
        json_text(m.evidence.external_id.as_str()),
    ).with("source_session_id", json_text(m.evidence.source_session_id.as_str())).with(
        "has_answer",
        has_answer,
    );
    let ghost inner = evidence.list();
    let object = JsonObject::new().with("role", json_text(m.role.as_str())).with(
        "speaker",
        json_text(m.speaker.as_str()),
    ).with("content", json_text(m.content.as_str())).with("evidence", evidence.finish());
    proof {
        let want = message_tree(corpus::message_model(*m));
        assert(inner =~= want->Object_0[3].1->Object_0);
        assert(object.list() =~= want->Object_0);
    }
    object.finish()
}

fn json_session(s: &EvalSession) -> (r: Json)
    ensures
        json::tree(r) == session_tree(corpus::session_model(*s)),
{
    let mut list: Vec<Json> = Vec::new();
    let mut i: usize = 0;
    while i < s.messages.len()
        invariant
            i <= s.messages@.len(),
            list@.len() == i,
            forall|k: int|
                0 <= k < i ==> json::tree(#[trigger] list@[k]) == message_tree(
                    corpus::message_model(s.messages@[k]),
                ),
        decreases s.messages.len() - i,
    {
        list.push(json_message(&s.messages[i]));
        i += 1;
    }
    proof {
        json::trees_index(list@, list@.len() as int);
        assert(json::trees(list@, list@.len() as int) =~= message_trees(
            corpus::message_models(s.messages@),
        ));
    }
    let object = JsonObject::new().with("external_id", json_text(s.external_id.as_str())).with(
        "occurred_at",
        json_text(s.occurred_at.as_str()),
    ).with("messages", Json::Array(list));
    assert(object.list() =~= session_tree(corpus::session_model(*s))->Object_0);
    object.finish()
}

fn json_case(c: &EvalCase) -> (r: Json)
    ensures
        json::tree(r) == case_tree(corpus::case_model(*c)),
{
    let mut sessions: Vec<Json> = Vec::new();
    let mut i: usize = 0;
    while i < c.sessions.len()
        invariant
            i <= c.sessions@.len(),
            sessions@.len() == i,
            forall|k: int|
                0 <= k < i ==> json::tree(#[trigger] sessions@[k]) == session_tree(
                    corpus::session_model(c.sessions@[k]),
                ),
        decreases c.sessions.len() - i,
    {
        sessions.push(json_session(&c.sessions[i]));
        i += 1;
    }
    proof {
        json::trees_index(sessions@, sessions@.len() as int);
        assert(json::trees(sessions@, sessions@.len() as int) =~= session_trees(
            corpus::session_models(c.sessions@),
        ));
    }
    let unresolved = copy_list_json(&c.unresolved_gold_evidence);
    let answer = match &c.expected_answer {
        Some(s) => json_opt_text(Some(s.as_str())),
        None => json_opt_text(None),
    };
    let object = JsonObject::new().with("id", json_text(c.id.as_str())).with(
        "group_id",
        json_text(c.group_id.as_str()),
    ).with("question", json_text(c.question.as_str())).with("expected_answer", answer).with(
        "class",
        json_text(class_name(c.class)),
    ).with("reference_time", json_text(c.reference_time.as_str())).with(
        "sessions",
        Json::Array(sessions),
    ).with("gold_evidence", json_texts(&c.gold_evidence)).with(
        "unresolved_gold_evidence",
        Json::Array(unresolved),
    ).with("stale_evidence", json_texts(&c.stale_evidence)).with(
        "negative_evidence",
        json_texts(&c.negative_evidence),
    ).with("source_metadata", copy_json(&c.source_metadata));
    assert(object.list() =~= case_tree(corpus::case_model(*c))->Object_0);
    object.finish()
}

fn copy_list_json(v: &Vec<Json>) -> (r: Vec<Json>)
    ensures
        json::trees(r@, r@.len() as int) == json::trees(v@, v@.len() as int),
{
    let mut out: Vec<Json> = Vec::new();
    let mut i: usize = 0;
    while i < v.len()
        invariant
            i <= v@.len(),
            out@.len() == i,
            forall|k: int| 0 <= k < i ==> json::tree(#[trigger] out@[k]) == json::tree(v@[k]),
        decreases v.len() - i,
    {
        out.push(copy_json(&v[i]));
        i += 1;
    }
    proof {
        json::trees_index(out@, out@.len() as int);
        json::trees_index(v@, v@.len() as int);
        assert(json::trees(out@, out@.len() as int) =~= json::trees(v@, v@.len() as int));
    }
    out
}

/// The digest of questions as they are.
pub open spec fn cases_digest(v: Seq<CaseModel>) -> Seq<char> {
    digest::text_digest(json::rendered(JsonTree::Array(case_trees(v))))
}

fn digest_cases(v: &Vec<EvalCase>) -> (r: String)
    ensures
        r@ == cases_digest(corpus::case_models(v@)),
{
    let mut list: Vec<Json> = Vec::new();
    let mut i: usize = 0;
    while i < v.len()
        invariant
            i <= v@.len(),
            list@.len() == i,
            forall|k: int|
                0 <= k < i ==> json::tree(#[trigger] list@[k]) == case_tree(
                    corpus::case_model(v@[k]),
                ),
        decreases v.len() - i,
    {
        list.push(json_case(&v[i]));
        i += 1;
    }
    proof {
        json::trees_index(list@, list@.len() as int);
        assert(json::trees(list@, list@.len() as int) =~= case_trees(corpus::case_models(v@)));
    }
    let text = render(&Json::Array(list));
    content_sha256(text.as_str())
}

pub open spec fn case_ids(v: Seq<CaseModel>) -> Seq<Seq<char>> {
    Seq::new(v.len(), |i: int| v[i].id)
}

/// What identifies a selection of questions from a dataset.
pub open spec fn selection_tree(
    benchmark: EvalBenchmark,
    ids: Seq<Seq<char>>,
    source: Seq<char>,
) -> JsonTree {
    JsonTree::Object(
        seq![
            ("benchmark"@, JsonTree::Text(corpus::benchmark_text(benchmark))),
            ("domain"@, JsonTree::Text("hippocampus-eval-dataset-selection-v1"@)),
            ("selected_case_ids"@, JsonTree::Array(json::text_trees(ids))),
            ("source_sha256"@, JsonTree::Text(source)),
        ],
    )
}

/// What a corpus consists of.
pub struct CorpusModel {
    pub benchmark: EvalBenchmark,
    pub dataset_sha256: Seq<char>,
    pub cases: Seq<CaseModel>,
}

pub open spec fn corpus_model(c: EvalCorpus) -> CorpusModel {
    CorpusModel {
        benchmark: c.benchmark,
        dataset_sha256: c.dataset_sha256@,
        cases: corpus::case_models(c.cases@),
    }
}

pub open spec fn synthetic_corpus() -> CorpusModel {
    CorpusModel {
        benchmark: EvalBenchmark::Synthetic,
        dataset_sha256: cases_digest(synthetic::synthetic_cases()),
        cases: synthetic::synthetic_cases(),
    }
}

pub open spec fn at_most(v: Seq<CaseModel>, limit: int) -> Seq<CaseModel> {
    if limit < v.len() {
        v.take(limit)
    } else {
        v
    }
}

/// The first questions of a dataset whose bytes have a given digest.
pub open spec fn selected_corpus(
    benchmark: EvalBenchmark,
    cases: Seq<CaseModel>,
    limit: int,
    source: Seq<char>,
) -> CorpusModel {
    let kept = at_most(cases, limit);
    CorpusModel {
        benchmark,
        dataset_sha256: digest::text_digest(
            json::rendered(selection_tree(benchmark, case_ids(kept), source)),
        ),
        cases: kept,
    }
}

/// Takes the first questions of a dataset whose bytes have a given digest.
pub fn select_cases(
    benchmark: EvalBenchmark,
    cases: Vec<EvalCase>,
    limit: usize,
    source_sha256: &str,
) -> (r: EvalCorpus)
    ensures
        corpus_model(r) == selected_corpus(
            benchmark,
            corpus::case_models(cases@),
            limit as int,
            source_sha256@,
        ),
{
    let ghost all = corpus::case_models(cases@);
    let mut kept = cases;
    if limit < kept.len() {
        kept.truncate(limit);
        assert(corpus::case_models(kept@) =~= all.take(limit as int));
    }
    let mut ids: Vec<String> = Vec::new();
    let mut i: usize = 0;
    while i < kept.len()
        invariant
            i <= kept@.len(),
            ids@.len() == i,
            forall|k: int| 0 <= k < i ==> (#[trigger] ids@[k])@ == kept@[k].id@,
        decreases kept.len() - i,
    {
        ids.push(kept[i].id.clone());
        i += 1;
    }
    assert(text::texts(ids@) =~= case_ids(corpus::case_models(kept@)));
    let object = JsonObject::new().with("benchmark", json_text(benchmark_name(benchmark))).with(
        "domain",
        json_text("hippocampus-eval-dataset-selection-v1"),
    ).with("selected_case_ids", json_texts(&ids)).with("source_sha256", json_text(source_sha256));
    assert(object.list() =~= selection_tree(
        benchmark,
        text::texts(ids@),
        source_sha256@,
    )->Object_0);
    let text = render(&object.finish());
    EvalCorpus { benchmark, dataset_sha256: content_sha256(text.as_str()), cases: kept }
}

/// What is wrong with a request to load a benchmark.
pub open spec fn load_fault(
    benchmark: EvalBenchmark,
    has_dataset: bool,
    limit: Option<usize>,
) -> Option<Seq<char>> {
    if benchmark == EvalBenchmark::Synthetic {
        if has_dataset || limit is Some {
            Some("synthetic evaluation accepts neither dataset nor limit"@)
        } else {
            None
        }
    } else if !has_dataset {
        Some("dataset path required"@)
    } else {
        match limit {
            None => Some("positive flattened-QA limit required"@),
            Some(n) => if n == 0 {
                Some("limit must be positive"@)
            } else {
                None
            },
        }
    }
}

/// Checks a request to load a benchmark before its dataset is read.
pub fn check_load(benchmark: EvalBenchmark, has_dataset: bool, limit: Option<usize>) -> (r: Result<
    (),
    String,
>)
    ensures
        match r {
            Ok(_) => load_fault(benchmark, has_dataset, limit) is None,
            Err(e) => load_fault(benchmark, has_dataset, limit) == Some(e@),
        },
{
    if benchmark == EvalBenchmark::Synthetic {
        if has_dataset || limit.is_some() {
            return Err("synthetic evaluation accepts neither dataset nor limit".to_owned());
        }
        return Ok(());
    }
    if !has_dataset {
        return Err("dataset path required".to_owned());
    }
    match limit {
        None => Err("positive flattened-QA limit required".to_owned()),
        Some(n) => if n == 0 {
            Err("limit must be positive".to_owned())
        } else {
            Ok(())
        },
    }
}

/// A dataset that has been read: its bytes, and the rows that they hold.
#[derive(Debug)]
pub struct EvalSource {
    pub bytes: Vec<u8>,
    pub samples: Vec<LocomoSample>,
    pub rows: Vec<LongMemRow>,
}

/// The questions of a dataset, or what is wrong with it.
pub open spec fn source_cases(benchmark: EvalBenchmark, source: EvalSource) -> Result<
    Seq<CaseModel>,
    Seq<char>,
> {
    if benchmark == EvalBenchmark::Locomo {
        locomo::locomo_cases(source.samples@, source.samples@.len() as int)
    } else {
        corpus::long_mem_cases(source.rows@, source.rows@.len() as int)
    }
}

/// The corpus of a benchmark, or why there is none.
pub open spec fn loaded_corpus(
    benchmark: EvalBenchmark,
    source: Option<EvalSource>,
    limit: Option<usize>,
) -> Result<CorpusModel, Seq<char>> {
    match load_fault(benchmark, source is Some, limit) {
        Some(e) => Err(e),
        None => if benchmark == EvalBenchmark::Synthetic {
            Ok(synthetic_corpus())
        } else {
            match source_cases(benchmark, source->0) {
                Err(e) => Err(e),
                Ok(cases) => Ok(
                    selected_corpus(
                        benchmark,
                        cases,
                        limit->0 as int,
                        digest::sha256_hex(source->0.bytes@),
                    ),
                ),
            }
        },
    }
}

pub open spec fn opt_source(o: Option<&EvalSource>) -> Option<EvalSource> {
    match o {
        Some(s) => Some(*s),
        None => None,
    }
}

/// Loads a benchmark.
pub fn load_eval_corpus(
    benchmark: EvalBenchmark,
    source: Option<&EvalSource>,
    limit: Option<usize>,
) -> (r: Result<EvalCorpus, String>)
    ensures
        match r {
            Ok(c) => loaded_corpus(benchmark, opt_source(source), limit) == Ok::<
                CorpusModel,
                Seq<char>,
            >(corpus_model(c)),
            Err(e) => loaded_corpus(benchmark, opt_source(source), limit) == Err::<
                CorpusModel,
                Seq<char>,
            >(e@),
        },
{
    if let Err(e) = check_load(benchmark, source.is_some(), limit) {
        return Err(e);
    }
    let (given, n) = match (source, limit) {
        (Some(given), Some(n)) => (given, n),
        _ => {
            let cases = synthetic();
            let dataset_sha256 = digest_cases(&cases);
            return Ok(EvalCorpus { benchmark, dataset_sha256, cases });
        },
    };
    let cases = if benchmark == EvalBenchmark::Locomo {
        read_locomo(&given.samples)
    } else {
        read_long_mem(&given.rows)
    };
    match cases {
        Ok(cases) => {
            let sha = bytes_sha256(given.bytes.as_slice());
            Ok(select_cases(benchmark, cases, n, sha.as_str()))
        },
        Err(e) => Err(e),
    }
}

/// What a run of a benchmark depends on.
#[derive(Clone, Debug, PartialEq, Eq)]
pub struct EvalFingerprintInput {
    pub benchmark: EvalBenchmark,
    pub dataset_sha256: String,
    pub answer_model: String,
    pub memory: MemoryConfig,
    pub channels: RecallChannels,
    pub num_ctx: u64,
    pub num_predict: u64,
    pub selected_evidence_limit: usize,
}

pub open spec fn budget_tree(b: MemoryBudgetConfig) -> JsonTree {
    JsonTree::Object(
        seq![
            ("episode"@, json::number_tree(b.episode as u64)),
            ("exact_or_state"@, json::number_tree(b.exact_or_state as u64)),
            ("graph"@, json::number_tree(b.graph as u64)),
            ("recent_history"@, json::number_tree(b.recent_history as u64)),
        ],
    )
}

pub open spec fn budgets_tree(b: AdaptiveBudgetConfig) -> JsonTree {
    JsonTree::Object(
        seq![
            ("event_recap"@, budget_tree(b.event_recap)),
            ("exact_fact"@, budget_tree(b.exact_fact)),
            ("general_semantic"@, budget_tree(b.general_semantic)),
            ("multi_hop"@, budget_tree(b.multi_hop)),
            ("temporal_state"@, budget_tree(b.temporal_state)),
        ],
    )
}

/// A memory configuration in JSON, in order of the names of its settings.
pub open spec fn memory_tree(m: MemoryConfig) -> JsonTree {
    JsonTree::Object(
        seq![
            ("budgets"@, budgets_tree(m.budgets)),
            ("candidate_limit"@, json::number_tree(m.candidate_limit as u64)),
            ("config_version"@, json::number_tree(m.config_version as u64)),
            ("consolidation_timeout_secs"@, json::number_tree(m.consolidation_timeout_secs)),
            ("embedding_batch_size"@, json::number_tree(m.embedding_batch_size as u64)),
            ("embedding_dimensions"@, json::number_tree(m.embedding_dimensions as u64)),
            ("embedding_model"@, JsonTree::Text(m.embedding_model@)),
            ("embedding_timeout_secs"@, json::number_tree(m.embedding_timeout_secs)),
            ("enabled"@, JsonTree::Bool(m.enabled)),
            ("episode_gap_minutes"@, json::number_tree(m.episode_gap_minutes)),
            ("graph_candidate_limit"@, json::number_tree(m.graph_candidate_limit as u64)),
            ("hnsw_ef_construction"@, json::number_tree(m.hnsw_ef_construction as u64)),
            ("hnsw_ef_search"@, json::number_tree(m.hnsw_ef_search as u64)),
            ("hnsw_m"@, json::number_tree(m.hnsw_m as u64)),
            ("max_graph_depth"@, json::number_tree(m.max_graph_depth as u64)),
            ("rrf_k"@, json::number_tree(m.rrf_k as u64)),
            ("search_timeout_ms"@, json::number_tree(m.search_timeout_ms)),
            ("vector_candidate_limit"@, json::number_tree(m.vector_candidate_limit as u64)),
        ],
    )
}

fn json_budget(b: MemoryBudgetConfig) -> (r: Json)
    ensures
        json::tree(r) == budget_tree(b),
{
    let object = JsonObject::new().with("episode", json_number(b.episode as u64)).with(
        "exact_or_state",
        json_number(b.exact_or_state as u64),
    ).with("graph", json_number(b.graph as u64)).with(
        "recent_history",
        json_number(b.recent_history as u64),
    );
    assert(object.list() =~= budget_tree(b)->Object_0);
    object.finish()
}

fn json_budgets(b: AdaptiveBudgetConfig) -> (r: Json)
    ensures
        json::tree(r) == budgets_tree(b),
{
    let object = JsonObject::new().with("event_recap", json_budget(b.event_recap)).with(
        "exact_fact",
        json_budget(b.exact_fact),
    ).with("general_semantic", json_budget(b.general_semantic)).with(
        "multi_hop",
        json_budget(b.multi_hop),
    ).with("temporal_state", json_budget(b.temporal_state));
    assert(object.list() =~= budgets_tree(b)->Object_0);
    object.finish()
}

fn json_memory(m: &MemoryConfig) -> (r: Json)
    ensures
        json::tree(r) == memory_tree(*m),
{
    let object = JsonObject::new().with("budgets", json_budgets(m.budgets)).with(
        "candidate_limit",
        json_number(m.candidate_limit as u64),
    ).with("config_version", json_number(m.config_version as u64)).with(
        "consolidation_timeout_secs",
        json_number(m.consolidation_timeout_secs),
    ).with("embedding_batch_size", json_number(m.embedding_batch_size as u64)).with(
        "embedding_dimensions",
        json_number(m.embedding_dimensions as u64),
    ).with("embedding_model", json_text(m.embedding_model.as_str())).with(
        "embedding_timeout_secs",
        json_number(m.embedding_timeout_secs),
    ).with("enabled", Json::Bool(m.enabled)).with(
        "episode_gap_minutes",
        json_number(m.episode_gap_minutes),
    ).with("graph_candidate_limit", json_number(m.graph_candidate_limit as u64)).with(
        "hnsw_ef_construction",
        json_number(m.hnsw_ef_construction as u64),
    ).with("hnsw_ef_search", json_number(m.hnsw_ef_search as u64)).with(
        "hnsw_m",
        json_number(m.hnsw_m as u64),
    ).with("max_graph_depth", json_number(m.max_graph_depth as u64)).with(
        "rrf_k",
        json_number(m.rrf_k as u64),
    ).with("search_timeout_ms", json_number(m.search_timeout_ms)).with(
        "vector_candidate_limit",
        json_number(m.vector_candidate_limit as u64),
    );
    assert(object.list() =~= memory_tree(*m)->Object_0);
    object.finish()
}

/// What a run depends on, in JSON.
pub open spec fn runtime_tree(i: EvalFingerprintInput) -> JsonTree {
    JsonTree::Object(
        seq![
            ("benchmark"@, JsonTree::Text(corpus::benchmark_text(i.benchmark))),
            ("channels"@, channels::channels_tree(i.channels)),
            ("dataset"@, JsonTree::Text(i.dataset_sha256@)),
            ("domain"@, JsonTree::Text("hippocampus-eval-runtime-v1"@)),
            ("memory"@, memory_tree(i.memory)),
            ("model"@, JsonTree::Text(i.answer_model@)),
            ("num_ctx"@, json::number_tree(i.num_ctx)),
            ("num_predict"@, json::number_tree(i.num_predict)),
            ("schema"@, json::number_tree(1)),
            ("selected"@, json::number_tree(i.selected_evidence_limit as u64)),
        ],
    )
}

pub open spec fn fingerprint_text(i: EvalFingerprintInput) -> Seq<char> {
    digest::text_digest(json::rendered(runtime_tree(i)))
}

/// Why a run has no fingerprint.
#[derive(Debug, PartialEq, Eq)]
pub enum RuntimeFault {
    /// A rule of the run itself is broken.
    Refused(String),
    /// The configuration is refused.
    Config(config::ConfigError),
}

fn json_runtime(i: &EvalFingerprintInput) -> (r: Json)
    ensures
        json::tree(r) == runtime_tree(*i),
{
    let object = JsonObject::new().with("benchmark", json_text(benchmark_name(i.benchmark))).with(
        "channels",
        json_channels(i.channels),
    ).with("dataset", json_text(i.dataset_sha256.as_str())).with(
        "domain",
        json_text("hippocampus-eval-runtime-v1"),
    ).with("memory", json_memory(&i.memory)).with(
        "model",
        json_text(i.answer_model.as_str()),
    ).with("num_ctx", json_number(i.num_ctx)).with("num_predict", json_number(i.num_predict)).with(
        "schema",
        json_number(1),
    ).with("selected", json_number(i.selected_evidence_limit as u64));
    assert(object.list() =~= runtime_tree(*i)->Object_0);
    object.finish()
}

/// The digest that identifies a run.
pub fn eval_run_fingerprint(i: &EvalFingerprintInput) -> (r: Result<String, RuntimeFault>)
    ensures
        match r {
            Ok(text) => text@ == fingerprint_text(*i) && digest::sha256_shape(text@) && !text::blank(i.answer_model@)
                && i.memory.fault() is None && i.channels != channels::no_channels(),
            Err(RuntimeFault::Refused(e)) => if text::blank(i.answer_model@) {
                e@ == "answer model empty"@
            } else {
                i.memory.fault() is None && i.channels == channels::no_channels() && e@
                    == "至少启用一个召回通道"@
            },
            Err(RuntimeFault::Config(e)) => !text::blank(i.answer_model@)
                && i.memory.fault() is Some && config::memory_outcome(Err(e), i.memory.fault()),
        },
{
    if is_blank(i.answer_model.as_str()) {
        return Err(RuntimeFault::Refused("answer model empty".to_owned()));
    }
    if let Err(e) = i.memory.validate() {
        return Err(RuntimeFault::Config(e));
    }
    if let Err(e) = i.channels.validate() {
        return Err(RuntimeFault::Refused(e));
    }
    let text = render(&json_runtime(i));
    Ok(content_sha256(text.as_str()))
}

/// The text that identifies a value within a domain.
pub open spec fn canonical_text(domain: Seq<char>, value: JsonTree) -> Seq<char> {
    digest::text_digest(
        json::rendered(
            JsonTree::Object(seq![("domain"@, JsonTree::Text(domain)), ("value"@, value)]),
        ),
    )
}

/// The digest of a value within a domain.
pub fn canonical_id(domain: &str, value: Json) -> (r: String)
    ensures
        r@ == canonical_text(domain@, json::tree(value)),
        digest::sha256_shape(r@),
{
    let object = JsonObject::new().with("domain", json_text(domain)).with("value", value);
    assert(object.list() =~= seq![
        ("domain"@, JsonTree::Text(domain@)),
        ("value"@, json::tree(value)),
    ]);
    let text = render(&object.finish());
    content_sha256(text.as_str())
}

/// A path: its components as they were given, and those that it stands for.
#[derive(Debug, PartialEq, Eq)]
pub struct EvalPath {
    pub given: Vec<String>,
    pub resolved: Vec<String>,
}

pub open spec fn climbs(v: Seq<String>) -> bool {
    text::texts(v).contains(".."@)
}

/// Whether a path lies below another, or is the same.
pub open spec fn lies_below(path: Seq<Seq<char>>, root: Seq<Seq<char>>) -> bool {
    root.len() <= path.len() && path.take(root.len() as int) == root
}

/// What is wrong with the components of a path.
pub fn reject_parent_components(given: &Vec<String>, label: &str) -> (r: Result<(), String>)
    ensures
        match r {
            Ok(_) => !climbs(given@),
            Err(e) => climbs(given@) && e@ == label@
                + " must not contain parent-directory components"@,
        },
{
    if text::contains_text(given, "..") {
        let mut e = label.to_owned();
        e.append(" must not contain parent-directory components");
        return Err(e);
    }
    Ok(())
}

/// Whether a path lies below another, or is the same.
pub fn below(path: &Vec<String>, root: &Vec<String>) -> (r: bool)
    ensures
        r == lies_below(text::texts(path@), text::texts(root@)),
{
    if root.len() > path.len() {
        return false;
    }
    let mut i: usize = 0;
    while i < root.len()
        invariant
            i <= root@.len() <= path@.len(),
            forall|k: int| 0 <= k < i ==> (#[trigger] path@[k])@ == root@[k]@,
        decreases root.len() - i,
    {
        if !text_eq(path[i].as_str(), root[i].as_str()) {
            proof {
                let a = text::texts(path@).take(root@.len() as int);
                let b = text::texts(root@);
                assert(a[i as int] != b[i as int]);
            }
            return false;
        }
        i += 1;
    }
    assert(text::texts(path@).take(root@.len() as int) =~= text::texts(root@));
    true
}

/// Whether two paths are the same.
pub fn same_path(a: &Vec<String>, b: &Vec<String>) -> (r: bool)
    ensures
        r == (text::texts(a@) == text::texts(b@)),
{
    if a.len() != b.len() {
        assert(text::texts(a@).len() != text::texts(b@).len());
        return false;
    }
    let r = below(a, b);
    assert(text::texts(a@).take(b@.len() as int) =~= text::texts(a@));
    r
}

pub open spec fn parent_refusal(label: Seq<char>) -> Seq<char> {
    label + " must not contain parent-directory components"@
}

/// What is wrong with the paths of a run.
pub open spec fn paths_fault(
    dataset: Option<EvalPath>,
    output: EvalPath,
    summary: EvalPath,
    workspace: EvalPath,
) -> Option<Seq<char>> {
    let out = text::texts(output.resolved@);
    let sum = text::texts(summary.resolved@);
    let root = text::texts(workspace.resolved@);
    if climbs(output.given@) {
        Some(parent_refusal("evaluation output"@))
    } else if climbs(workspace.given@) {
        Some(parent_refusal("evaluation workspace"@))
    } else if dataset is Some && climbs(dataset->0.given@) {
        Some(parent_refusal("evaluation dataset"@))
    } else if climbs(summary.given@) {
        Some(parent_refusal("evaluation summary"@))
    } else if out == sum {
        Some("evaluation output and summary must be distinct"@)
    } else if lies_below(out, root) || lies_below(sum, root) {
        Some("evaluation output must not be inside workspace"@)
    } else {
        match dataset {
            None => None,
            Some(d) => {
                let data = text::texts(d.resolved@);
                if data == out || data == sum {
                    Some("dataset, output, and summary paths must differ"@)
                } else if lies_below(data, root) {
                    Some("dataset must not be inside workspace"@)
                } else {
                    None
                }
            },
        }
    }
}

pub open spec fn opt_path(o: Option<&EvalPath>) -> Option<EvalPath> {
    match o {
        Some(p) => Some(*p),
        None => None,
    }
}

/// Checks where a run reads from and writes to.
pub fn validate_eval_paths(
    dataset: Option<&EvalPath>,
    output: &EvalPath,
    summary: &EvalPath,
    workspace: &EvalPath,
) -> (r: Result<(), String>)
    ensures
        match r {
            Ok(_) => paths_fault(opt_path(dataset), *output, *summary, *workspace) is None,
            Err(e) => paths_fault(opt_path(dataset), *output, *summary, *workspace) == Some(e@),
        },
{
    if let Err(e) = reject_parent_components(&output.given, "evaluation output") {
        return Err(e);
    }
    if let Err(e) = reject_parent_components(&workspace.given, "evaluation workspace") {
        return Err(e);
    }
    if let Some(d) = dataset {
        if let Err(e) = reject_parent_components(&d.given, "evaluation dataset") {
            return Err(e);
        }
    }
    if let Err(e) = reject_parent_components(&summary.given, "evaluation summary") {
        return Err(e);
    }
    if same_path(&output.resolved, &summary.resolved) {
        return Err("evaluation output and summary must be distinct".to_owned());
    }
    if below(&output.resolved, &workspace.resolved) || below(
        &summary.resolved,
        &workspace.resolved,
    ) {
        return Err("evaluation output must not be inside workspace".to_owned());
    }
    if let Some(d) = dataset {
        if same_path(&d.resolved, &output.resolved) || same_path(&d.resolved, &summary.resolved) {
            return Err("dataset, output, and summary paths must differ".to_owned());
        }
        if below(&d.resolved, &workspace.resolved) {
            return Err("dataset must not be inside workspace".to_owned());
        }
    }
    Ok(())
}

/// The name of the file that a summary is written to.
pub fn eval_summary_name(output_name: Option<&str>) -> (r: Result<String, String>)
    ensures
        match output_name {
            Some(name) => r matches Ok(s) && s@ == name@ + ".summary.json"@,
            None => r matches Err(e) && e@ == "output filename missing"@,
        },
{
    match output_name {
        Some(name) => {
            let mut out = name.to_owned();
            out.append(".summary.json");
            Ok(out)
        },
        None => Err("output filename missing".to_owned()),
    }
}

/// What a run reads and writes beside its workspace does not lie in it, is not the
/// same twice, and is named without parent directories.
pub proof fn accepted_paths_are_apart(
    dataset: Option<EvalPath>,
    output: EvalPath,
    summary: EvalPath,
    workspace: EvalPath,
)
    ensures
        paths_fault(dataset, output, summary, workspace) is None <==> {
            let root = text::texts(workspace.resolved@);
            let out = text::texts(output.resolved@);
            let sum = text::texts(summary.resolved@);
            &&& !root.is_prefix_of(out) && !root.is_prefix_of(sum) && out != sum
            &&& !climbs(output.given@) && !climbs(summary.given@) && !climbs(workspace.given@)
            &&& dataset matches Some(d) ==> !climbs(d.given@) && !root.is_prefix_of(
                text::texts(d.resolved@),
            ) && text::texts(d.resolved@) != out && text::texts(d.resolved@) != sum
        },
{
    let root = text::texts(workspace.resolved@);
    below_is_prefix(text::texts(output.resolved@), root);
    below_is_prefix(text::texts(summary.resolved@), root);
    if dataset is Some {
        below_is_prefix(text::texts(dataset->0.resolved@), root);
    }
}

proof fn below_is_prefix(path: Seq<Seq<char>>, root: Seq<Seq<char>>)
    ensures
        lies_below(path, root) <==> root.is_prefix_of(path),
{
    if root.len() <= path.len() {
        assert(path.take(root.len() as int) =~= path.subrange(0, root.len() as int));
    }
}

/// A limit on the questions keeps the first ones, as many as it allows.
pub proof fn limits_keep_the_first_questions(cases: Seq<CaseModel>, limit: int)
    requires
        0 <= limit,
    ensures
        at_most(cases, limit).len() <= limit,
        at_most(cases, limit).len() == limit || at_most(cases, limit).len() == cases.len(),
        forall|i: int|
            0 <= i < at_most(cases, limit).len() ==> #[trigger] at_most(cases, limit)[i]
                == cases[i],
{
}

} // verus!
