//! What is checked before a benchmark is run.

use vstd::prelude::*;
use vstd::string::*;

use crate::channels::{self, RecallChannels};
use crate::config::AppConfig;
use crate::corpus::{
    self, same_case, CaseModel, EvalBenchmark, EvalCase, EvalCorpus, EvalMessage, EvalSession,
    MessageModel, SessionModel,
};
use crate::dataset::{self, RuntimeFault};
use crate::digest::{self, is_sha256};
use crate::model::EventRole;
use crate::moment::{self, utc_offset};
use crate::text::{self, debug_text, is_blank, text_eq};

verus! {

/// How a benchmark is to be run.
#[derive(Clone, Debug, PartialEq, Eq)]
pub struct EvalRunOptions {
    pub dataset_path: Option<String>,
    pub output: String,
    pub workspace: String,
    pub answer_model: String,
    pub ollama_host: String,
    pub channels: RecallChannels,
    pub num_ctx: u64,
    pub num_predict: u64,
    pub selected_evidence_limit: usize,
}

/// The tokens that are kept free beside an answer.
pub const ANSWER_MARGIN_TOKENS: u64 = 512;

/// What is wrong with a run whose configuration is in order.
pub open spec fn options_fault(
    memory_enabled: bool,
    candidate_limit: int,
    corpus: dataset::CorpusModel,
    options: EvalRunOptions,
) -> Option<Seq<char>> {
    if options.channels == channels::no_channels() {
        Some("至少启用一个召回通道"@)
    } else if text::blank(options.answer_model@) {
        Some("answer model empty"@)
    } else if text::blank(options.ollama_host@) {
        Some("Ollama host empty"@)
    } else if options.selected_evidence_limit == 0 {
        Some("selected evidence limit must be positive"@)
    } else if options.selected_evidence_limit > candidate_limit {
        Some("selected evidence limit exceeds candidate limit"@)
    } else if options.num_predict + ANSWER_MARGIN_TOKENS > u64::MAX {
        Some("num_predict plus safety margin overflow"@)
    } else if options.num_ctx <= options.num_predict + ANSWER_MARGIN_TOKENS {
        Some("num_ctx must exceed num_predict plus 512"@)
    } else if !digest::sha256_shape(corpus.dataset_sha256) {
        Some("dataset hash must be lowercase SHA-256 hex"@)
    } else if corpus.cases.len() == 0 {
        Some("evaluation corpus empty"@)
    } else if corpus.benchmark == EvalBenchmark::Synthetic && options.dataset_path is Some {
        Some("synthetic evaluation must not have a dataset path"@)
    } else if corpus.benchmark != EvalBenchmark::Synthetic && options.dataset_path is None {
        Some("dataset benchmark requires a dataset path"@)
    } else if !memory_enabled && options.channels != channels::words_only() {
        Some("disabled memory only supports BM25-only channels"@)
    } else {
        None
    }
}

/// The outcome of checking a run before its dataset is read again.
pub open spec fn runtime_outcome(
    config: AppConfig,
    corpus: dataset::CorpusModel,
    options: EvalRunOptions,
    r: Result<(), RuntimeFault>,
) -> bool {
    match r {
        Err(RuntimeFault::Config(e)) => config.outcome(Err(e)),
        _ => {
            &&& config.outcome(Ok(()))
            &&& ({
                let fault = options_fault(
                    config.memory.enabled,
                    config.memory.candidate_limit as int,
                    corpus,
                    options,
                );
                match r {
                    Err(RuntimeFault::Refused(e)) => fault == Some(e@),
                    _ => fault is None,
                }
            })
        },
    }
}

fn refuse(reason: &str) -> (r: Result<(), RuntimeFault>)
    ensures
        r matches Err(RuntimeFault::Refused(e)) && e@ == reason@,
{
    Err(RuntimeFault::Refused(reason.to_owned()))
}

/// Checks a run before its dataset is read again.
pub fn check_runtime(config: &AppConfig, corpus: &EvalCorpus, options: &EvalRunOptions) -> (r:
    Result<(), RuntimeFault>)
    ensures
        runtime_outcome(*config, dataset::corpus_model(*corpus), *options, r),
{
    if let Err(e) = config.validate() {
        return Err(RuntimeFault::Config(e));
    }
    if let Err(e) = options.channels.validate() {
        return Err(RuntimeFault::Refused(e));
    }
    if is_blank(options.answer_model.as_str()) {
        return refuse("answer model empty");
    }
    if is_blank(options.ollama_host.as_str()) {
        return refuse("Ollama host empty");
    }
    if options.selected_evidence_limit == 0 {
        return refuse("selected evidence limit must be positive");
    }
    if options.selected_evidence_limit > config.memory.candidate_limit {
        return refuse("selected evidence limit exceeds candidate limit");
    }
    if options.num_predict > u64::MAX - ANSWER_MARGIN_TOKENS {
        return refuse("num_predict plus safety margin overflow");
    }
    if options.num_ctx <= options.num_predict + ANSWER_MARGIN_TOKENS {
        return refuse("num_ctx must exceed num_predict plus 512");
    }
    if !is_sha256(corpus.dataset_sha256.as_str()) {
        return refuse("dataset hash must be lowercase SHA-256 hex");
    }
    if corpus.cases.len() == 0 {
        return refuse("evaluation corpus empty");
    }
    if corpus.benchmark == EvalBenchmark::Synthetic {
        if options.dataset_path.is_some() {
            return refuse("synthetic evaluation must not have a dataset path");
        }
    } else if options.dataset_path.is_none() {
        return refuse("dataset benchmark requires a dataset path");
    }
    if !config.memory.enabled && options.channels != RecallChannels::bm25_only() {
        return refuse("disabled memory only supports BM25-only channels");
    }
    Ok(())
}

/// What is wrong with a message of a source.
pub open spec fn message_fault(m: MessageModel) -> Option<Seq<char>> {
    if m.role != EventRole::User && m.role != EventRole::Assistant {
        Some("evaluation source role must be user or assistant"@)
    } else if text::blank(m.content) {
        Some("source message empty"@)
    } else if text::blank(m.evidence.external_id) || text::blank(m.evidence.source_session_id) {
        Some("source evidence IDs must be nonempty"@)
    } else {
        None
    }
}

/// The first thing that is wrong with the messages from `i` on.
pub open spec fn messages_fault(v: Seq<MessageModel>, i: int) -> Option<Seq<char>>
    decreases v.len() - i,
{
    if i < 0 || i >= v.len() {
        None
    } else {
        match message_fault(v[i]) {
            Some(e) => Some(e),
            None => messages_fault(v, i + 1),
        }
    }
}

/// What is wrong with a session of a question.
pub open spec fn session_fault(v: Seq<SessionModel>, i: int) -> Option<Seq<char>> {
    let s = v[i];
    if text::blank(s.external_id) || exists|k: int|
        0 <= k < i && (#[trigger] v[k]).external_id == s.external_id {
        Some("source session IDs must be unique and nonempty"@)
    } else if moment::rfc3339_offset(s.occurred_at) is None {
        Some("invalid source session time "@ + text::debug_quoted(s.occurred_at))
    } else if s.messages.len() == 0 {
        Some("source session messages empty"@)
    } else {
        messages_fault(s.messages, 0)
    }
}

pub open spec fn sessions_fault(v: Seq<SessionModel>, i: int) -> Option<Seq<char>>
    decreases v.len() - i,
{
    if i < 0 || i >= v.len() {
        None
    } else {
        match session_fault(v, i) {
            Some(e) => Some(e),
            None => sessions_fault(v, i + 1),
        }
    }
}

/// What is wrong with a question.
pub open spec fn case_fault(v: Seq<CaseModel>, i: int) -> Option<Seq<char>> {
    let c = v[i];
    if text::blank(c.id) || exists|k: int| 0 <= k < i && (#[trigger] v[k]).id == c.id {
        Some("case IDs must be unique and nonempty"@)
    } else if text::blank(c.group_id) {
        Some("case group ID empty"@)
    } else if text::blank(c.question) {
        Some("case question empty"@)
    } else if text::blank(c.reference_time) {
        Some("case reference time empty"@)
    } else if moment::rfc3339_offset(c.reference_time) is None {
        Some("invalid case reference time "@ + text::debug_quoted(c.reference_time))
    } else {
        sessions_fault(c.sessions, 0)
    }
}

pub open spec fn cases_fault(v: Seq<CaseModel>, i: int) -> Option<Seq<char>>
    decreases v.len() - i,
{
    if i < 0 || i >= v.len() {
        None
    } else {
        match case_fault(v, i) {
            Some(e) => Some(e),
            None => cases_fault(v, i + 1),
        }
    }
}

fn check_message(m: &EvalMessage) -> (r: Option<String>)
    ensures
        text::opt_text(r) == message_fault(corpus::message_model(*m)),
{
    if m.role != EventRole::User && m.role != EventRole::Assistant {
        return Some("evaluation source role must be user or assistant".to_owned());
    }
    if is_blank(m.content.as_str()) {
        return Some("source message empty".to_owned());
    }
    if is_blank(m.evidence.external_id.as_str()) || is_blank(
        m.evidence.source_session_id.as_str(),
    ) {
        return Some("source evidence IDs must be nonempty".to_owned());
    }
    None
}

fn check_session(v: &Vec<EvalSession>, i: usize) -> (r: Option<String>)
    requires
        i < v@.len(),
    ensures
        text::opt_text(r) == session_fault(corpus::session_models(v@), i as int),
{
    let ghost all = corpus::session_models(v@);
    let s = &v[i];
    assert(all[i as int] == corpus::session_model(*s));
    let mut k: usize = 0;
    while k < i
        invariant
            k <= i < v@.len(),
            all == corpus::session_models(v@),
            s == v@[i as int],
            forall|q: int| 0 <= q < k ==> (#[trigger] all[q]).external_id != s.external_id@,
        decreases i - k,
    {
        assert(all[k as int].external_id == v@[k as int].external_id@);
        if text_eq(v[k].external_id.as_str(), s.external_id.as_str()) {
            return Some("source session IDs must be unique and nonempty".to_owned());
        }
        k += 1;
    }
    if is_blank(s.external_id.as_str()) {
        return Some("source session IDs must be unique and nonempty".to_owned());
    }
    if utc_offset(s.occurred_at.as_str()).is_none() {
        let mut e = "invalid source session time ".to_owned();
        e.append(debug_text(s.occurred_at.as_str()).as_str());
        return Some(e);
    }
    if s.messages.len() == 0 {
        return Some("source session messages empty".to_owned());
    }
    let ghost said = corpus::message_models(s.messages@);
    let mut m: usize = 0;
    while m < s.messages.len()
        invariant
            m <= s.messages@.len(),
            i < v@.len(),
            s == v@[i as int],
            said == corpus::message_models(s.messages@),
            session_fault(all, i as int) == messages_fault(said, m as int),
            all == corpus::session_models(v@),
        decreases s.messages.len() - m,
    {
        assert(said[m as int] == corpus::message_model(s.messages@[m as int]));
        if let Some(e) = check_message(&s.messages[m]) {
            return Some(e);
        }
        m += 1;
    }
    None
}

fn check_case(v: &Vec<EvalCase>, i: usize) -> (r: Option<String>)
    requires
        i < v@.len(),
    ensures
        text::opt_text(r) == case_fault(corpus::case_models(v@), i as int),
{
    let ghost all = corpus::case_models(v@);
    let c = &v[i];
    assert(all[i as int] == corpus::case_model(*c));
    let mut k: usize = 0;
    while k < i
        invariant
            k <= i < v@.len(),
            all == corpus::case_models(v@),
            c == v@[i as int],
            forall|q: int| 0 <= q < k ==> (#[trigger] all[q]).id != c.id@,
        decreases i - k,
    {
        assert(all[k as int].id == v@[k as int].id@);
        if text_eq(v[k].id.as_str(), c.id.as_str()) {
            return Some("case IDs must be unique and nonempty".to_owned());
        }
        k += 1;
    }
    if is_blank(c.id.as_str()) {
        return Some("case IDs must be unique and nonempty".to_owned());
    }
    if is_blank(c.group_id.as_str()) {
        return Some("case group ID empty".to_owned());
    }
    if is_blank(c.question.as_str()) {
        return Some("case question empty".to_owned());
    }
    if is_blank(c.reference_time.as_str()) {
        return Some("case reference time empty".to_owned());
    }
    if utc_offset(c.reference_time.as_str()).is_none() {
        let mut e = "invalid case reference time ".to_owned();
        e.append(debug_text(c.reference_time.as_str()).as_str());
        return Some(e);
    }
    let ghost sessions = corpus::session_models(c.sessions@);
    let mut s: usize = 0;
    while s < c.sessions.len()
        invariant
            s <= c.sessions@.len(),
            sessions == corpus::session_models(c.sessions@),
            case_fault(all, i as int) == sessions_fault(sessions, s as int),
            all == corpus::case_models(v@),
        decreases c.sessions.len() - s,
    {
        if let Some(e) = check_session(&c.sessions, s) {
            return Some(e);
        }
        s += 1;
    }
    None
}

/// What is wrong with a corpus that should be the canonical one.
pub open spec fn corpus_fault(
    canonical: dataset::CorpusModel,
    corpus: dataset::CorpusModel,
) -> Option<Seq<char>> {
    if canonical != corpus {
        Some("evaluation corpus does not exactly match its canonical source"@)
    } else {
        cases_fault(corpus.cases, 0)
    }
}

fn same_corpus(a: &EvalCorpus, b: &EvalCorpus) -> (r: bool)
    ensures
        r == (dataset::corpus_model(*a) == dataset::corpus_model(*b)),
{
    let ghost left = corpus::case_models(a.cases@);
    let ghost right = corpus::case_models(b.cases@);
    if a.cases.len() != b.cases.len() {
        assert(left.len() != right.len());
        return false;
    }
    if a.benchmark != b.benchmark || !text_eq(
        a.dataset_sha256.as_str(),
        b.dataset_sha256.as_str(),
    ) {
        return false;
    }
    let mut i: usize = 0;
    while i < a.cases.len()
        invariant
            i <= a.cases@.len(),
            a.cases@.len() == b.cases@.len(),
            left == corpus::case_models(a.cases@),
            right == corpus::case_models(b.cases@),
            forall|k: int| 0 <= k < i ==> #[trigger] left[k] == right[k],
        decreases a.cases.len() - i,
    {
        if !same_case(&a.cases[i], &b.cases[i]) {
            assert(left[i as int] != right[i as int]);
            return false;
        }
        assert(left[i as int] == right[i as int]);
        i += 1;
    }
    assert(left =~= right);
    true
}

/// Checks that a corpus is the canonical one, and that it can be run.
pub fn check_corpus(canonical: &EvalCorpus, given: &EvalCorpus) -> (r: Result<(), String>)
    ensures
        match r {
            Ok(_) => corpus_fault(
                dataset::corpus_model(*canonical),
                dataset::corpus_model(*given),
            ) is None,
            Err(e) => corpus_fault(
                dataset::corpus_model(*canonical),
                dataset::corpus_model(*given),
            ) == Some(e@),
        },
{
    if !same_corpus(canonical, given) {
        return Err("evaluation corpus does not exactly match its canonical source".to_owned());
    }
    let ghost all = corpus::case_models(given.cases@);
    let mut i: usize = 0;
    while i < given.cases.len()
        invariant
            i <= given.cases@.len(),
            all == corpus::case_models(given.cases@),
            corpus_fault(dataset::corpus_model(*canonical), dataset::corpus_model(*given))
                == cases_fault(all, i as int),
        decreases given.cases.len() - i,
    {
        if let Some(e) = check_case(&given.cases, i) {
            return Err(e);
        }
        i += 1;
    }
    Ok(())
}

proof fn cases_without_fault(v: Seq<CaseModel>, from: int, i: int)
    requires
        cases_fault(v, from) is None,
        0 <= from <= i < v.len(),
    ensures
        case_fault(v, i) is None,
    decreases i - from,
{
    if from < i {
        cases_without_fault(v, from + 1, i);
    }
}

/// The questions of a corpus that is run have different ids.
pub proof fn run_cases_are_distinct(corpus: dataset::CorpusModel, i: int, j: int)
    requires
        corpus_fault(corpus, corpus) is None,
        0 <= i < j < corpus.cases.len(),
    ensures
        corpus.cases[i].id != corpus.cases[j].id,
        !text::blank(corpus.cases[i].id),
{
    cases_without_fault(corpus.cases, 0, i);
    cases_without_fault(corpus.cases, 0, j);
}

} // verus!
