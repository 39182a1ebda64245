//! The search before a turn: keyword, knowledge and semantic channels report
//! one by one, and a deadline decides what is used of them.

use vstd::prelude::*;
use vstd::string::*;

use crate::config::{KnowledgeConfig, MemoryBudgetConfig, MemoryConfig};
use crate::knowledge::{KnowledgeRecall, KnowledgeTrace};
use crate::model::{
    self, BudgetAllocationTrace, BudgetTokenBreakdown, ChannelTrace, QueryKind, RecallResult,
    RetrievalChannel, RetrievalConfig, RetrievalTrace,
};
use crate::text::{self, join, push_decimal, text_eq};

verus! {

/// What a search is told. An embedding is a list of bit patterns; the prepared
/// semantic search stays with whoever runs it.
#[allow(inconsistent_fields)]
#[derive(Debug)]
pub enum LiveSearchEvent {
    Fast { result: Result<RecallResult, String>, elapsed_ms: u64 },
    Knowledge { result: Result<KnowledgeRecall, String>, elapsed_ms: u64 },
    Embedding { result: Result<Vec<u32>, String>, elapsed_ms: u64 },
    SemanticPrepared { result: Result<(), String>, elapsed_ms: u64 },
    Semantic { result: Result<RecallResult, String>, elapsed_ms: u64 },
    Deadline,
    Closed,
}

/// What is to be done after an event.
#[derive(Clone, Copy, Debug, PartialEq, Eq, Structural)]
pub struct SearchStep {
    pub prepare_semantic: bool,
    pub fuse_semantic: bool,
    pub done: bool,
}

/// Where a search stands.
#[derive(Debug)]
pub struct LiveSearch {
    pub memory_enabled: bool,
    pub fast: Option<RecallResult>,
    pub fast_finished: bool,
    pub fast_error: Option<String>,
    pub fast_elapsed_ms: u64,
    pub knowledge: Option<KnowledgeRecall>,
    pub knowledge_finished: bool,
    pub knowledge_error: Option<String>,
    pub knowledge_elapsed_ms: u64,
    pub query_embedding: Option<Vec<u32>>,
    pub embedding_finished: bool,
    pub embedding_error: Option<String>,
    pub embedding_elapsed_ms: u64,
    pub semantic: Option<RecallResult>,
    pub semantic_prepared: bool,
    pub semantic_finished: bool,
    pub semantic_error: Option<String>,
    pub semantic_prepare_elapsed_ms: u64,
    pub semantic_fusion_elapsed_ms: u64,
    pub semantic_preparation_started: bool,
    pub semantic_fusion_started: bool,
    pub deadline_exceeded: bool,
}

/// A search from which nothing has been heard.
pub open spec fn silent(memory_enabled: bool) -> LiveSearch {
    LiveSearch {
        memory_enabled,
        fast: None,
        fast_finished: false,
        fast_error: None,
        fast_elapsed_ms: 0,
        knowledge: None,
        knowledge_finished: false,
        knowledge_error: None,
        knowledge_elapsed_ms: 0,
        query_embedding: None,
        embedding_finished: !memory_enabled,
        embedding_error: None,
        embedding_elapsed_ms: 0,
        semantic: None,
        semantic_prepared: false,
        semantic_finished: !memory_enabled,
        semantic_error: None,
        semantic_prepare_elapsed_ms: 0,
        semantic_fusion_elapsed_ms: 0,
        semantic_preparation_started: false,
        semantic_fusion_started: false,
        deadline_exceeded: false,
    }
}

/// An event taken down, before anything is started in response.
pub open spec fn noted(s: LiveSearch, event: LiveSearchEvent) -> LiveSearch {
    match event {
        LiveSearchEvent::Fast { result, elapsed_ms } => {
            let t = LiveSearch { fast_finished: true, fast_elapsed_ms: elapsed_ms, ..s };
            match result {
                Ok(value) => LiveSearch { fast: Some(value), ..t },
                Err(error) => LiveSearch { fast_error: Some(error), ..t },
            }
        },
        LiveSearchEvent::Knowledge { result, elapsed_ms } => {
            let t = LiveSearch { knowledge_finished: true, knowledge_elapsed_ms: elapsed_ms, ..s };
            match result {
                Ok(value) => LiveSearch { knowledge: Some(value), ..t },
                Err(error) => LiveSearch { knowledge_error: Some(error), ..t },
            }
        },
        LiveSearchEvent::Embedding { result, elapsed_ms } => {
            let t = LiveSearch { embedding_finished: true, embedding_elapsed_ms: elapsed_ms, ..s };
            match result {
                Ok(value) => LiveSearch { query_embedding: Some(value), ..t },
                Err(error) => LiveSearch { embedding_error: Some(error), ..t },
            }
        },
        LiveSearchEvent::SemanticPrepared { result, elapsed_ms } => {
            let t = LiveSearch { semantic_prepare_elapsed_ms: elapsed_ms, ..s };
            match result {
                Ok(_) => LiveSearch { semantic_prepared: true, ..t },
                Err(error) => LiveSearch {
                    semantic_error: Some(error),
                    semantic_finished: true,
                    ..t
                },
            }
        },
        LiveSearchEvent::Semantic { result, elapsed_ms } => {
            let t = LiveSearch {
                semantic_finished: true,
                semantic_fusion_elapsed_ms: elapsed_ms,
                ..s
            };
            match result {
                Ok(value) => LiveSearch { semantic: Some(value), ..t },
                Err(error) => LiveSearch { semantic_error: Some(error), ..t },
            }
        },
        LiveSearchEvent::Deadline => LiveSearch { deadline_exceeded: true, ..s },
        LiveSearchEvent::Closed => s,
    }
}

/// Whether the semantic search is to be prepared: once, when the query has a
/// vector.
pub open spec fn preparation_due(s: LiveSearch) -> bool {
    !s.semantic_preparation_started && s.query_embedding is Some
}

/// Whether the results are to be fused: once, when the keyword results and the
/// prepared search are there.
pub open spec fn fusion_due(s: LiveSearch) -> bool {
    !s.semantic_fusion_started && s.fast is Some && s.semantic_prepared
}

/// Whether the semantic search can no longer come to a result.
pub open spec fn semantic_hopeless(s: LiveSearch) -> bool {
    s.memory_enabled && !s.semantic_finished && ((s.embedding_finished && s.embedding_error is Some)
        || (s.fast_finished && s.fast is None))
}

/// The state after what an event calls for was started.
pub open spec fn responded(s: LiveSearch) -> LiveSearch {
    let t = LiveSearch {
        semantic_preparation_started: s.semantic_preparation_started || preparation_due(s),
        ..s
    };
    let u = if fusion_due(t) {
        LiveSearch { semantic_fusion_started: true, semantic_prepared: false, ..t }
    } else {
        t
    };
    LiveSearch { semantic_finished: u.semantic_finished || semantic_hopeless(u), ..u }
}

pub open spec fn all_finished(s: LiveSearch) -> bool {
    s.fast_finished && s.knowledge_finished && s.semantic_finished
}

/// Whether an event ends the search at once.
pub open spec fn ends_search(event: LiveSearchEvent) -> bool {
    event is Deadline || event is Closed
}

/// The state and the step after an event.
pub open spec fn stepped(s: LiveSearch, event: LiveSearchEvent) -> (LiveSearch, SearchStep) {
    let t = noted(s, event);
    if ends_search(event) {
        (t, SearchStep { prepare_semantic: false, fuse_semantic: false, done: true })
    } else {
        let u = responded(t);
        (
            u,
            SearchStep {
                prepare_semantic: preparation_due(t),
                fuse_semantic: fusion_due(t),
                done: all_finished(u),
            },
        )
    }
}

impl LiveSearch {
    pub fn new(memory_enabled: bool) -> (r: Self)
        ensures
            r == silent(memory_enabled),
    {
        LiveSearch {
            memory_enabled,
            fast: None,
            fast_finished: false,
            fast_error: None,
            fast_elapsed_ms: 0,
            knowledge: None,
            knowledge_finished: false,
            knowledge_error: None,
            knowledge_elapsed_ms: 0,
            query_embedding: None,
            embedding_finished: !memory_enabled,
            embedding_error: None,
            embedding_elapsed_ms: 0,
            semantic: None,
            semantic_prepared: false,
            semantic_finished: !memory_enabled,
            semantic_error: None,
            semantic_prepare_elapsed_ms: 0,
            semantic_fusion_elapsed_ms: 0,
            semantic_preparation_started: false,
            semantic_fusion_started: false,
            deadline_exceeded: false,
        }
    }

    #[verifier::rlimit(60)]
    fn note(&mut self, event: LiveSearchEvent)
        ensures
            *final(self) == noted(*old(self), event),
    {
        match event {
            LiveSearchEvent::Fast { result, elapsed_ms } => {
                self.fast_finished = true;
                self.fast_elapsed_ms = elapsed_ms;
                match result {
                    Ok(value) => self.fast = Some(value),
                    Err(error) => self.fast_error = Some(error),
                }
            },
            LiveSearchEvent::Knowledge { result, elapsed_ms } => {
                self.knowledge_finished = true;
                self.knowledge_elapsed_ms = elapsed_ms;
                match result {
                    Ok(value) => self.knowledge = Some(value),
                    Err(error) => self.knowledge_error = Some(error),
                }
            },
            LiveSearchEvent::Embedding { result, elapsed_ms } => {
                self.embedding_finished = true;
                self.embedding_elapsed_ms = elapsed_ms;
                match result {
                    Ok(value) => self.query_embedding = Some(value),
                    Err(error) => self.embedding_error = Some(error),
                }
            },
            LiveSearchEvent::SemanticPrepared { result, elapsed_ms } => {
                self.semantic_prepare_elapsed_ms = elapsed_ms;
                match result {
                    Ok(_) => self.semantic_prepared = true,
                    Err(error) => {
                        self.semantic_error = Some(error);
                        self.semantic_finished = true;
                    },
                }
            },
            LiveSearchEvent::Semantic { result, elapsed_ms } => {
                self.semantic_finished = true;
                self.semantic_fusion_elapsed_ms = elapsed_ms;
                match result {
                    Ok(value) => self.semantic = Some(value),
                    Err(error) => self.semantic_error = Some(error),
                }
            },
            LiveSearchEvent::Deadline => self.deadline_exceeded = true,
            LiveSearchEvent::Closed => {},
        }
    }

    /// Takes down an event and says what is to be done next.
    pub fn step(&mut self, event: LiveSearchEvent) -> (r: SearchStep)
        ensures
            (*final(self), r) == stepped(*old(self), event),
    {
        let ends = match &event {
            LiveSearchEvent::Deadline => true,
            LiveSearchEvent::Closed => true,
            _ => false,
        };
        self.note(event);
        if ends {
            return SearchStep { prepare_semantic: false, fuse_semantic: false, done: true };
        }
        let prepare_semantic = !self.semantic_preparation_started
            && self.query_embedding.is_some();
        if prepare_semantic {
            self.semantic_preparation_started = true;
        }
        let fuse_semantic = !self.semantic_fusion_started && self.fast.is_some()
            && self.semantic_prepared;
        if fuse_semantic {
            self.semantic_fusion_started = true;
            self.semantic_prepared = false;
        }
        if self.memory_enabled && !self.semantic_finished && ((self.embedding_finished
            && self.embedding_error.is_some()) || (self.fast_finished && self.fast.is_none())) {
            self.semantic_finished = true;
        }
        SearchStep {
            prepare_semantic,
            fuse_semantic,
            done: self.fast_finished && self.knowledge_finished && self.semantic_finished,
        }
    }
}

/// The shares of a kind of query.
pub open spec fn kind_budget(config: MemoryConfig, kind: QueryKind) -> MemoryBudgetConfig {
    match kind {
        QueryKind::ExactFact => config.budgets.exact_fact,
        QueryKind::GeneralSemantic => config.budgets.general_semantic,
        QueryKind::EventRecap => config.budgets.event_recap,
        QueryKind::TemporalState => config.budgets.temporal_state,
        QueryKind::MultiHop => config.budgets.multi_hop,
    }
}

pub open spec fn no_tokens() -> BudgetTokenBreakdown {
    BudgetTokenBreakdown { recent_history: 0, exact_or_state: 0, episode: 0, graph: 0 }
}

/// A budget with the shares of a kind of query and nothing spent.
pub open spec fn unspent_budget(
    config: MemoryConfig,
    kind: QueryKind,
    b: BudgetAllocationTrace,
) -> bool {
    let shares = kind_budget(config, kind);
    &&& b.query_kind == kind
    &&& b.recent_history_percent == shares.recent_history
    &&& b.exact_or_state_percent == shares.exact_or_state
    &&& b.episode_percent == shares.episode
    &&& b.graph_percent == shares.graph
    &&& b.mandatory_input_tokens == 0
    &&& b.available_input_tokens == 0
    &&& b.initial_tokens == no_tokens()
    &&& b.actual_tokens == no_tokens()
    &&& b.reflow@.len() == 0
    &&& b.exclusions@.len() == 0
    &&& b.probes@.len() == 0
    &&& b.stage_latencies@.len() == 0
    &&& b.final_input_tokens is None
}

/// The budget that a query of a kind starts with.
pub fn memory_budget_trace(config: &MemoryConfig, kind: QueryKind) -> (b: BudgetAllocationTrace)
    ensures
        unspent_budget(*config, kind, b),
{
    let shares: MemoryBudgetConfig = match kind {
        QueryKind::ExactFact => config.budgets.exact_fact,
        QueryKind::GeneralSemantic => config.budgets.general_semantic,
        QueryKind::EventRecap => config.budgets.event_recap,
        QueryKind::TemporalState => config.budgets.temporal_state,
        QueryKind::MultiHop => config.budgets.multi_hop,
    };
    let nothing = BudgetTokenBreakdown {
        recent_history: 0,
        exact_or_state: 0,
        episode: 0,
        graph: 0,
    };
    BudgetAllocationTrace {
        query_kind: kind,
        recent_history_percent: shares.recent_history,
        exact_or_state_percent: shares.exact_or_state,
        episode_percent: shares.episode,
        graph_percent: shares.graph,
        mandatory_input_tokens: 0,
        available_input_tokens: 0,
        initial_tokens: nothing,
        actual_tokens: nothing,
        reflow: Vec::new(),
        exclusions: Vec::new(),
        probes: Vec::new(),
        stage_latencies: Vec::new(),
        final_input_tokens: None,
    }
}

/// A recall in which nothing was found because the keyword search gave nothing.
pub open spec fn nothing_found(
    event_id: Seq<char>,
    config: RetrievalConfig,
    memory: MemoryConfig,
    error: Option<Seq<char>>,
    r: RecallResult,
) -> bool {
    let t = r.trace;
    &&& r.evidence@.len() == 0
    &&& t.status@ == "fast_search_unavailable"@
    &&& t.current_query_event_id@ == event_id
    &&& t.config == config
    &&& text::opt_text(t.error) == error
    &&& t.query_kind == QueryKind::GeneralSemantic
    &&& unspent_budget(memory, QueryKind::GeneralSemantic, t.budget_allocation)
    &&& t.warnings@.len() == 0
    &&& t.deadline_ms == 0
    &&& !t.deadline_exceeded
    &&& !t.fast_fallback_used
    &&& t.fallback_reason is None
    &&& t.elapsed_ms == 0
    &&& t.channels@.len() == 0
    &&& t.candidates@.len() == 0
    &&& t.fusion_candidates@.len() == 0
    &&& t.state_selections@.len() == 0
    &&& t.graph_paths@.len() == 0
    &&& t.selected_evidence@.len() == 0
}

pub fn empty_live_recall(
    current_event_id: &str,
    retrieval_config: &RetrievalConfig,
    memory_config: &MemoryConfig,
    error: Option<&str>,
) -> (r: RecallResult)
    ensures
        nothing_found(
            current_event_id@,
            *retrieval_config,
            *memory_config,
            model::opt_str(error),
            r,
        ),
{
    let query_kind = QueryKind::GeneralSemantic;
    let mut trace = RetrievalTrace::default();
    trace.status = "fast_search_unavailable".to_owned();
    trace.current_query_event_id = current_event_id.to_owned();
    trace.config = *retrieval_config;
    trace.error = match error {
        Some(value) => Some(value.to_owned()),
        None => None,
    };
    trace.query_kind = query_kind;
    trace.budget_allocation = memory_budget_trace(memory_config, query_kind);
    RecallResult { trace, evidence: Vec::new() }
}

/// The state of one channel by what it says.
pub struct ChannelModel {
    pub channel: RetrievalChannel,
    pub status: Seq<char>,
    pub candidate_count: usize,
    pub elapsed_ms: u64,
    pub error: Option<Seq<char>>,
}

pub open spec fn channel_model(c: ChannelTrace) -> ChannelModel {
    ChannelModel {
        channel: c.channel,
        status: c.status@,
        candidate_count: c.candidate_count,
        elapsed_ms: c.elapsed_ms,
        error: text::opt_text(c.error),
    }
}

pub open spec fn channel_models(v: Seq<ChannelTrace>) -> Seq<ChannelModel> {
    Seq::new(v.len(), |i: int| channel_model(v[i]))
}

/// The first entry of a channel, from position `i` on.
pub open spec fn channel_from(v: Seq<ChannelModel>, channel: RetrievalChannel, i: int) -> Option<int>
    decreases v.len() - i,
{
    if i < 0 || i >= v.len() {
        None
    } else if v[i].channel == channel {
        Some(i)
    } else {
        channel_from(v, channel, i + 1)
    }
}

/// What a channel is expected to have come to.
pub struct ExpectedChannel {
    pub channel: RetrievalChannel,
    pub status: Seq<char>,
    pub elapsed_ms: u64,
}

/// The entry of a channel that reported, brought in line with the outcome.
pub open spec fn channel_settled(
    c: ChannelModel,
    e: ExpectedChannel,
    overruled: bool,
) -> ChannelModel {
    if e.channel == RetrievalChannel::Bm25 {
        ChannelModel {
            status: e.status,
            elapsed_ms: if c.elapsed_ms == 0 {
                e.elapsed_ms
            } else {
                c.elapsed_ms
            },
            ..c
        }
    } else if overruled {
        ChannelModel {
            status: e.status,
            error: if e.status == "timeout"@ {
                Some("live search deadline exceeded"@)
            } else if e.status == "error"@ && c.error is None {
                Some("live semantic search unavailable"@)
            } else {
                c.error
            },
            ..c
        }
    } else if c.status == "empty"@ {
        ChannelModel { status: "ok"@, ..c }
    } else {
        c
    }
}

/// The entry of a channel that did not report.
pub open spec fn channel_added(e: ExpectedChannel, keyword_candidates: usize) -> ChannelModel {
    ChannelModel {
        channel: e.channel,
        status: e.status,
        candidate_count: if e.channel == RetrievalChannel::Bm25 {
            keyword_candidates
        } else {
            0
        },
        elapsed_ms: e.elapsed_ms,
        error: if e.status == "timeout"@ {
            Some("live search deadline exceeded"@)
        } else if e.status == "error"@ {
            Some("live search unavailable"@)
        } else {
            None
        },
    }
}

pub open spec fn channel_ensured(
    v: Seq<ChannelModel>,
    e: ExpectedChannel,
    overruled: bool,
    keyword_candidates: usize,
) -> Seq<ChannelModel> {
    match channel_from(v, e.channel, 0) {
        Some(p) => v.update(p, channel_settled(v[p], e, overruled)),
        None => v.push(channel_added(e, keyword_candidates)),
    }
}

pub open spec fn semantic_status(
    memory_enabled: bool,
    fallback: bool,
    deadline_exceeded: bool,
) -> Seq<char> {
    if !memory_enabled {
        "disabled"@
    } else if fallback && deadline_exceeded {
        "timeout"@
    } else if fallback {
        "error"@
    } else {
        "ok"@
    }
}

pub open spec fn keyword_status(fast_available: bool, deadline_exceeded: bool) -> Seq<char> {
    if fast_available {
        "ok"@
    } else if deadline_exceeded {
        "timeout"@
    } else {
        "error"@
    }
}

/// All six channels, in line with the outcome of a search.
pub open spec fn channels_ensured(
    v: Seq<ChannelModel>,
    memory_enabled: bool,
    fallback: bool,
    deadline_exceeded: bool,
    fast_available: bool,
    bm25_elapsed_ms: u64,
    vector_elapsed_ms: u64,
    keyword_candidates: usize,
) -> Seq<ChannelModel> {
    let status = semantic_status(memory_enabled, fallback, deadline_exceeded);
    let overruled = !memory_enabled || fallback;
    let bm25 = ExpectedChannel {
        channel: RetrievalChannel::Bm25,
        status: keyword_status(fast_available, deadline_exceeded),
        elapsed_ms: bm25_elapsed_ms,
    };
    let vector = ExpectedChannel {
        channel: RetrievalChannel::Vector,
        status,
        elapsed_ms: vector_elapsed_ms,
    };
    let entity = ExpectedChannel { channel: RetrievalChannel::Entity, status, elapsed_ms: 0 };
    let state = ExpectedChannel { channel: RetrievalChannel::State, status, elapsed_ms: 0 };
    let episode = ExpectedChannel { channel: RetrievalChannel::Episode, status, elapsed_ms: 0 };
    let graph = ExpectedChannel { channel: RetrievalChannel::Graph, status, elapsed_ms: 0 };
    let v1 = channel_ensured(v, bm25, overruled, keyword_candidates);
    let v2 = channel_ensured(v1, vector, overruled, keyword_candidates);
    let v3 = channel_ensured(v2, entity, overruled, keyword_candidates);
    let v4 = channel_ensured(v3, state, overruled, keyword_candidates);
    let v5 = channel_ensured(v4, episode, overruled, keyword_candidates);
    channel_ensured(v5, graph, overruled, keyword_candidates)
}

fn find_channel(v: &Vec<ChannelTrace>, channel: RetrievalChannel) -> (r: Option<usize>)
    ensures
        match r {
            Some(p) => channel_from(channel_models(v@), channel, 0) == Some(p as int) && p
                < v@.len(),
            None => channel_from(channel_models(v@), channel, 0) is None,
        },
{
    let ghost all = channel_models(v@);
    let mut i: usize = 0;
    while i < v.len()
        invariant
            i <= v@.len(),
            all == channel_models(v@),
            channel_from(all, channel, 0) == channel_from(all, channel, i as int),
        decreases v.len() - i,
    {
        assert(all[i as int].channel == v@[i as int].channel);
        if v[i].channel == channel {
            return Some(i);
        }
        i += 1;
    }
    None
}

fn missing_error(status: &str, otherwise: &str) -> (r: Option<String>)
    ensures
        text::opt_text(r) == (if status@ == "timeout"@ {
            Some("live search deadline exceeded"@)
        } else if status@ == "error"@ {
            Some(otherwise@)
        } else {
            None
        }),
{
    if text_eq(status, "timeout") {
        Some("live search deadline exceeded".to_owned())
    } else if text_eq(status, "error") {
        Some(otherwise.to_owned())
    } else {
        None
    }
}

fn settle_channel(
    c: &ChannelTrace,
    channel: RetrievalChannel,
    status: &str,
    elapsed_ms: u64,
    overruled: bool,
) -> (r: ChannelTrace)
    ensures
        channel_model(r) == channel_settled(
            channel_model(*c),
            ExpectedChannel { channel, status: status@, elapsed_ms },
            overruled,
        ),
{
    let mut out = c.clone();
    if channel == RetrievalChannel::Bm25 {
        out.status = status.to_owned();
        if out.elapsed_ms == 0 {
            out.elapsed_ms = elapsed_ms;
        }
    } else if overruled {
        out.status = status.to_owned();
        if text_eq(status, "timeout") || out.error.is_none() {
            out.error = missing_error(status, "live semantic search unavailable");
        }
    } else if text_eq(out.status.as_str(), "empty") {
        out.status = "ok".to_owned();
    }
    out
}

fn ensure_channel(
    v: &mut Vec<ChannelTrace>,
    channel: RetrievalChannel,
    status: &str,
    elapsed_ms: u64,
    overruled: bool,
    keyword_candidates: usize,
)
    ensures
        channel_models(final(v)@) == channel_ensured(
            channel_models(old(v)@),
            ExpectedChannel { channel, status: status@, elapsed_ms },
            overruled,
            keyword_candidates,
        ),
{
    let ghost before = channel_models(v@);
    match find_channel(v, channel) {
        Some(p) => {
            let settled = settle_channel(&v[p], channel, status, elapsed_ms, overruled);
            v.set(p, settled);
            assert(channel_models(v@) =~= before.update(p as int, channel_model(settled)));
        },
        None => {
            let added = ChannelTrace {
                channel,
                status: status.to_owned(),
                candidate_count: if channel == RetrievalChannel::Bm25 {
                    keyword_candidates
                } else {
                    0
                },
                elapsed_ms,
                error: missing_error(status, "live search unavailable"),
            };
            let ghost model = channel_model(added);
            v.push(added);
            assert(channel_models(v@) =~= before.push(model));
        },
    }
}

/// Brings the channels of a trace in line with the outcome of a search.
pub fn ensure_live_channel_statuses(
    trace: &mut RetrievalTrace,
    memory_enabled: bool,
    deadline_exceeded: bool,
    fast_available: bool,
    bm25_elapsed_ms: u64,
    vector_elapsed_ms: u64,
)
    ensures
        *final(trace) == (RetrievalTrace { channels: final(trace).channels, ..*old(trace) }),
        channel_models(final(trace).channels@) == channels_ensured(
            channel_models(old(trace).channels@),
            memory_enabled,
            old(trace).fast_fallback_used,
            deadline_exceeded,
            fast_available,
            bm25_elapsed_ms,
            vector_elapsed_ms,
            old(trace).candidates@.len() as usize,
        ),
{
    let fallback = trace.fast_fallback_used;
    let status = if !memory_enabled {
        "disabled"
    } else if fallback && deadline_exceeded {
        "timeout"
    } else if fallback {
        "error"
    } else {
        "ok"
    };
    let keyword = if fast_available {
        "ok"
    } else if deadline_exceeded {
        "timeout"
    } else {
        "error"
    };
    let overruled = !memory_enabled || fallback;
    let n = trace.candidates.len();
    let channels = &mut trace.channels;
    ensure_channel(channels, RetrievalChannel::Bm25, keyword, bm25_elapsed_ms, overruled, n);
    ensure_channel(channels, RetrievalChannel::Vector, status, vector_elapsed_ms, overruled, n);
    ensure_channel(channels, RetrievalChannel::Entity, status, 0, overruled, n);
    ensure_channel(channels, RetrievalChannel::State, status, 0, overruled, n);
    ensure_channel(channels, RetrievalChannel::Episode, status, 0, overruled, n);
    ensure_channel(channels, RetrievalChannel::Graph, status, 0, overruled, n);
}

/// What a search was made for.
pub struct SearchRequest<'a> {
    pub current_event_id: &'a str,
    pub retrieval: RetrievalConfig,
    pub memory: &'a MemoryConfig,
    pub knowledge: &'a KnowledgeConfig,
}

/// What a search came to.
#[derive(Debug)]
pub struct LiveSearchOutcome {
    pub recall: RecallResult,
    pub knowledge: KnowledgeRecall,
    pub query_embedding: Option<Vec<u32>>,
}

/// The channels from which nothing came.
pub open spec fn missing_channels(s: LiveSearch) -> Seq<Seq<char>> {
    (if s.fast is None {
        seq!["bm25"@]
    } else {
        seq![]
    }) + (if s.memory_enabled && s.semantic is None {
        seq!["vector"@, "entity"@, "state"@, "episode"@, "graph"@]
    } else {
        seq![]
    }) + (if s.knowledge is None {
        seq!["knowledge"@]
    } else {
        seq![]
    })
}

/// Whether the keyword results stand in for a semantic search.
pub open spec fn fallback_used(s: LiveSearch) -> bool {
    s.memory_enabled && (s.semantic is None || s.semantic->0.trace.status@ == "bm25_fallback"@)
}

/// The first error that a channel reported, from position `i` on.
pub open spec fn channel_error_from(v: Seq<ChannelTrace>, i: int) -> Option<Seq<char>>
    decreases v.len() - i,
{
    if i < 0 || i >= v.len() {
        None
    } else if v[i].error is Some {
        text::opt_text(v[i].error)
    } else {
        channel_error_from(v, i + 1)
    }
}

/// The most telling detail of a recall: a channel's error, else a warning.
pub open spec fn fallback_detail(r: RecallResult) -> Option<Seq<char>> {
    match channel_error_from(r.trace.channels@, 0) {
        Some(error) => Some(error),
        None => if r.trace.warnings@.len() > 0 {
            Some(r.trace.warnings@[0]@)
        } else {
            None
        },
    }
}

/// Why a semantic search that came back is a fallback, if it says.
pub open spec fn semantic_reason(s: LiveSearch) -> Option<Seq<char>> {
    match s.semantic {
        None => None,
        Some(r) => if r.trace.fallback_reason is Some {
            text::opt_text(r.trace.fallback_reason)
        } else {
            match fallback_detail(r) {
                Some(detail) => Some("semantic_pipeline_fallback: "@ + detail),
                None => None,
            }
        },
    }
}

/// Why the keyword results were used.
pub open spec fn fallback_reason_of(s: LiveSearch, deadline_ms: u64) -> Seq<char> {
    if s.deadline_exceeded {
        "deadline_exceeded: deadline_ms="@ + text::decimal(deadline_ms as nat)
            + ", missing_channels="@ + text::joined(missing_channels(s), ","@)
    } else if s.embedding_error is Some {
        "embedding_failed: "@ + s.embedding_error->0@
    } else if s.semantic_error is Some {
        "semantic_failed: "@ + s.semantic_error->0@
    } else if semantic_reason(s) is Some {
        semantic_reason(s)->0
    } else if s.fast is None {
        "bm25_and_semantic_unavailable"@
    } else if !s.semantic_preparation_started {
        "semantic_preparation_not_started"@
    } else if !s.semantic_fusion_started {
        "semantic_fusion_not_started"@
    } else {
        "semantic_result_unavailable"@
    }
}

pub open spec fn deadline_warning(s: LiveSearch, deadline_ms: u64) -> Seq<char> {
    "搜索超过 "@ + text::decimal(deadline_ms as nat)
        + "ms，已采用快速搜索结果；未完成通道："@ + text::joined(missing_channels(s), ", "@)
}

/// What a search warns of.
pub open spec fn search_warnings(s: LiveSearch, deadline_ms: u64) -> Seq<Seq<char>> {
    (if s.embedding_error is Some {
        seq![s.embedding_error->0@]
    } else {
        seq![]
    }) + (if s.semantic_error is Some {
        seq![s.semantic_error->0@]
    } else {
        seq![]
    }) + (if s.deadline_exceeded {
        seq![deadline_warning(s, deadline_ms)]
    } else {
        seq![]
    })
}

/// The recall that a search builds on: the semantic one, else the keyword one,
/// else an empty one.
pub open spec fn base_recall<'a>(s: LiveSearch, q: SearchRequest<'a>, base: RecallResult) -> bool {
    if s.semantic is Some {
        s.semantic == Some(base)
    } else if s.fast is Some {
        s.fast == Some(base)
    } else {
        nothing_found(
            q.current_event_id@,
            q.retrieval,
            *q.memory,
            text::opt_text(s.fast_error),
            base,
        )
    }
}

/// A recall with the outcome of its search written into it.
pub open spec fn recall_concluded<'a>(
    s: LiveSearch,
    q: SearchRequest<'a>,
    elapsed_ms: u64,
    base: RecallResult,
    r: RecallResult,
) -> bool {
    let deadline_ms = q.memory.search_timeout_ms;
    &&& r.evidence == base.evidence
    &&& r.trace == (RetrievalTrace {
        warnings: r.trace.warnings,
        deadline_ms,
        deadline_exceeded: s.deadline_exceeded,
        fast_fallback_used: fallback_used(s),
        fallback_reason: r.trace.fallback_reason,
        elapsed_ms,
        channels: r.trace.channels,
        ..base.trace
    })
    &&& text::texts(r.trace.warnings@) == text::texts(base.trace.warnings@) + search_warnings(
        s,
        deadline_ms,
    )
    &&& text::opt_text(r.trace.fallback_reason) == (if fallback_used(s) {
        Some(fallback_reason_of(s, deadline_ms))
    } else {
        None
    })
    &&& channel_models(r.trace.channels@) == channels_ensured(
        channel_models(base.trace.channels@),
        s.memory_enabled,
        fallback_used(s),
        s.deadline_exceeded,
        s.fast is Some,
        s.fast_elapsed_ms,
        s.embedding_elapsed_ms,
        base.trace.candidates@.len() as usize,
    )
}

/// The knowledge of a search: what came, else the record that nothing did.
pub open spec fn knowledge_concluded<'a>(
    s: LiveSearch,
    q: SearchRequest<'a>,
    k: KnowledgeRecall,
) -> bool {
    if s.knowledge is Some {
        s.knowledge == Some(k)
    } else {
        &&& k.trace.status@ == (if s.deadline_exceeded {
            "timeout"@
        } else {
            "failed"@
        })
        &&& k.trace.candidate_limit == q.knowledge.candidate_limit
        &&& k.trace.max_selected == q.knowledge.max_selected
        &&& k.trace.evidence_char_budget == q.knowledge.evidence_char_budget
        &&& k.trace.error == s.knowledge_error
        &&& text::texts(k.trace.warnings@) == (if s.deadline_exceeded {
            seq![knowledge_warning(q.memory.search_timeout_ms)]
        } else {
            seq![]
        })
        &&& k.trace.query_terms@.len() == 0
        &&& k.trace.candidates@.len() == 0
        &&& k.trace.selected_evidence@.len() == 0
        &&& k.trace.injected_message is None
    }
}

pub open spec fn knowledge_warning(deadline_ms: u64) -> Seq<char> {
    "知识搜索超过 "@ + text::decimal(deadline_ms as nat) + "ms，本轮未注入知识结果"@
}

fn push_text(out: &mut Vec<String>, s: &str)
    ensures
        text::texts(final(out)@) == text::texts(old(out)@).push(s@),
{
    out.push(s.to_owned());
    assert(text::texts(out@) =~= text::texts(old(out)@).push(s@));
}

fn find_channel_error(v: &Vec<ChannelTrace>) -> (r: Option<String>)
    ensures
        text::opt_text(r) == channel_error_from(v@, 0),
{
    let mut i: usize = 0;
    while i < v.len()
        invariant
            i <= v@.len(),
            channel_error_from(v@, 0) == channel_error_from(v@, i as int),
        decreases v.len() - i,
    {
        if let Some(error) = &v[i].error {
            return Some(error.clone());
        }
        i += 1;
    }
    None
}

impl LiveSearch {
    fn find_missing(&self) -> (r: Vec<String>)
        ensures
            text::texts(r@) == missing_channels(*self),
    {
        let mut out: Vec<String> = Vec::new();
        if self.fast.is_none() {
            push_text(&mut out, "bm25");
        }
        if self.memory_enabled && self.semantic.is_none() {
            push_text(&mut out, "vector");
            push_text(&mut out, "entity");
            push_text(&mut out, "state");
            push_text(&mut out, "episode");
            push_text(&mut out, "graph");
        }
        if self.knowledge.is_none() {
            push_text(&mut out, "knowledge");
        }
        assert(text::texts(out@) =~= missing_channels(*self));
        out
    }

    pub fn uses_fallback(&self) -> (r: bool)
        ensures
            r == fallback_used(*self),
    {
        self.memory_enabled && (match &self.semantic {
            None => true,
            Some(result) => text_eq(result.trace.status.as_str(), "bm25_fallback"),
        })
    }

    fn find_semantic_reason(&self) -> (r: Option<String>)
        ensures
            text::opt_text(r) == semantic_reason(*self),
    {
        match &self.semantic {
            None => None,
            Some(result) => {
                if let Some(reason) = &result.trace.fallback_reason {
                    return Some(reason.clone());
                }
                let detail = match find_channel_error(&result.trace.channels) {
                    Some(error) => Some(error),
                    None => if result.trace.warnings.len() > 0 {
                        Some(result.trace.warnings[0].clone())
                    } else {
                        None
                    },
                };
                match detail {
                    Some(value) => {
                        let mut out = "semantic_pipeline_fallback: ".to_owned();
                        out.append(value.as_str());
                        Some(out)
                    },
                    None => None,
                }
            },
        }
    }

    /// Why the keyword results are used, when they are.
    pub fn explain_fallback(&self, deadline_ms: u64) -> (r: String)
        ensures
            r@ == fallback_reason_of(*self, deadline_ms),
    {
        if self.deadline_exceeded {
            let mut out = "deadline_exceeded: deadline_ms=".to_owned();
            push_decimal(&mut out, deadline_ms);
            out.append(", missing_channels=");
            out.append(join(&self.find_missing(), ",").as_str());
            return out;
        }
        if let Some(error) = &self.embedding_error {
            let mut out = "embedding_failed: ".to_owned();
            out.append(error.as_str());
            return out;
        }
        if let Some(error) = &self.semantic_error {
            let mut out = "semantic_failed: ".to_owned();
            out.append(error.as_str());
            return out;
        }
        if let Some(reason) = self.find_semantic_reason() {
            return reason;
        }
        if self.fast.is_none() {
            "bm25_and_semantic_unavailable".to_owned()
        } else if !self.semantic_preparation_started {
            "semantic_preparation_not_started".to_owned()
        } else if !self.semantic_fusion_started {
            "semantic_fusion_not_started".to_owned()
        } else {
            "semantic_result_unavailable".to_owned()
        }
    }

    fn push_warnings(&self, out: &mut Vec<String>, deadline_ms: u64)
        ensures
            text::texts(final(out)@) == text::texts(old(out)@) + search_warnings(
                *self,
                deadline_ms,
            ),
    {
        let ghost start = text::texts(out@);
        if let Some(error) = &self.embedding_error {
            push_text(out, error.as_str());
        }
        if let Some(error) = &self.semantic_error {
            push_text(out, error.as_str());
        }
        if self.deadline_exceeded {
            let mut warning = "搜索超过 ".to_owned();
            push_decimal(&mut warning, deadline_ms);
            warning.append("ms，已采用快速搜索结果；未完成通道：");
            warning.append(join(&self.find_missing(), ", ").as_str());
            push_text(out, warning.as_str());
        }
        assert(text::texts(out@) =~= start + search_warnings(*self, deadline_ms));
    }
}

fn conclude_knowledge<'a>(
    found: Option<KnowledgeRecall>,
    error: Option<String>,
    deadline_exceeded: bool,
    q: &SearchRequest<'a>,
) -> (k: KnowledgeRecall)
    ensures
        found is Some ==> found == Some(k),
        found is None ==> knowledge_concluded(
            LiveSearch { knowledge: None, knowledge_error: error, deadline_exceeded, ..silent(true)
            },
            *q,
            k,
        ),
{
    if let Some(k) = found {
        return k;
    }
    let mut warnings: Vec<String> = Vec::new();
    if deadline_exceeded {
        let mut warning = "知识搜索超过 ".to_owned();
        push_decimal(&mut warning, q.memory.search_timeout_ms);
        warning.append("ms，本轮未注入知识结果");
        push_text(&mut warnings, warning.as_str());
    }
    assert(text::texts(warnings@) =~= (if deadline_exceeded {
        seq![knowledge_warning(q.memory.search_timeout_ms)]
    } else {
        seq![]
    }));
    let status = if deadline_exceeded {
        "timeout"
    } else {
        "failed"
    };
    KnowledgeRecall {
        trace: KnowledgeTrace {
            status: status.to_owned(),
            query_terms: Vec::new(),
            candidate_limit: q.knowledge.candidate_limit,
            max_selected: q.knowledge.max_selected,
            evidence_char_budget: q.knowledge.evidence_char_budget,
            candidates: Vec::new(),
            selected_evidence: Vec::new(),
            injected_message: None,
            warnings,
            error,
        },
    }
}

/// Closes a search: picks the recall it comes to, and writes down how it went.
pub fn conclude_search<'a>(s: LiveSearch, q: &SearchRequest<'a>, elapsed_ms: u64) -> (r:
    LiveSearchOutcome)
    ensures
        exists|base: RecallResult|
            #[trigger] base_recall(s, *q, base) && recall_concluded(
                s,
                *q,
                elapsed_ms,
                base,
                r.recall,
            ),
        knowledge_concluded(s, *q, r.knowledge),
        r.query_embedding == s.query_embedding,
{
    let deadline_ms = q.memory.search_timeout_ms;
    let fallback = s.uses_fallback();
    let reason = if fallback {
        Some(s.explain_fallback(deadline_ms))
    } else {
        None
    };
    let mut more: Vec<String> = Vec::new();
    s.push_warnings(&mut more, deadline_ms);
    let ghost s0 = s;
    let fast_available = s.fast.is_some();
    let memory_enabled = s.memory_enabled;
    let deadline_exceeded = s.deadline_exceeded;
    let fast_elapsed_ms = s.fast_elapsed_ms;
    let embedding_elapsed_ms = s.embedding_elapsed_ms;
    let knowledge = conclude_knowledge(s.knowledge, s.knowledge_error, deadline_exceeded, q);
    let mut recall = match s.semantic {
        Some(value) => value,
        None => match s.fast {
            Some(value) => value,
            None => empty_live_recall(
                q.current_event_id,
                &q.retrieval,
                q.memory,
                match &s.fast_error {
                    Some(error) => Some(error.as_str()),
                    None => None,
                },
            ),
        },
    };
    let ghost base = recall;
    assert(base_recall(s0, *q, base));
    let ghost w0 = recall.trace.warnings@;
    let ghost m = more@;
    recall.trace.warnings.append(&mut more);
    assert(text::texts(recall.trace.warnings@) =~= text::texts(w0) + text::texts(m));
    recall.trace.deadline_ms = deadline_ms;
    recall.trace.deadline_exceeded = deadline_exceeded;
    recall.trace.fast_fallback_used = fallback;
    recall.trace.fallback_reason = reason;
    recall.trace.elapsed_ms = elapsed_ms;
    ensure_live_channel_statuses(
        &mut recall.trace,
        memory_enabled,
        deadline_exceeded,
        fast_available,
        fast_elapsed_ms,
        embedding_elapsed_ms,
    );
    assert(text::texts(m) =~= search_warnings(s0, deadline_ms));
    assert(recall_concluded(s0, *q, elapsed_ms, base, recall));
    LiveSearchOutcome { recall, knowledge, query_embedding: s.query_embedding }
}

/// Once begun, a stage of the semantic search is never begun again, and fusion
/// is begun only with keyword results at hand.
pub proof fn semantic_stages_begin_once(s: LiveSearch, event: LiveSearchEvent)
    ensures
        stepped(s, event).1.prepare_semantic ==> !s.semantic_preparation_started && stepped(
            s,
            event,
        ).0.semantic_preparation_started,
        stepped(s, event).1.fuse_semantic ==> !s.semantic_fusion_started && stepped(
            s,
            event,
        ).0.semantic_fusion_started && stepped(s, event).0.fast is Some,
        s.semantic_preparation_started ==> stepped(s, event).0.semantic_preparation_started,
        s.semantic_fusion_started ==> stepped(s, event).0.semantic_fusion_started,
{
}

/// A search without memory waits for the keyword and the knowledge results, and
/// for nothing else.
pub proof fn search_without_memory_waits_for_two(s: LiveSearch, event: LiveSearchEvent)
    requires
        !s.memory_enabled,
        s.semantic_finished,
        !ends_search(event),
    ensures
        stepped(s, event).0.semantic_finished,
        stepped(s, event).1.done == (stepped(s, event).0.fast_finished && stepped(
            s,
            event,
        ).0.knowledge_finished),
{
}

/// A failed keyword search, like a failed embedding, ends the semantic search,
/// so that a search waits for no channel that cannot report any more.
pub proof fn failures_end_the_semantic_search(s: LiveSearch, event: LiveSearchEvent)
    requires
        s.memory_enabled,
        !ends_search(event),
        noted(s, event).fast_finished && noted(s, event).fast is None || noted(
            s,
            event,
        ).embedding_finished && noted(s, event).embedding_error is Some,
    ensures
        stepped(s, event).0.semantic_finished,
{
}

/// Results that arrived are not lost by later events of other channels.
pub proof fn results_are_kept(s: LiveSearch, event: LiveSearchEvent)
    ensures
        !(event is Fast) ==> stepped(s, event).0.fast == s.fast,
        !(event is Knowledge) ==> stepped(s, event).0.knowledge == s.knowledge,
        !(event is Semantic) ==> stepped(s, event).0.semantic == s.semantic,
        !(event is Embedding) ==> stepped(s, event).0.query_embedding == s.query_embedding,
{
}

proof fn channel_found(v: Seq<ChannelModel>, channel: RetrievalChannel, i: int)
    requires
        0 <= i,
    ensures
        match channel_from(v, channel, i) {
            Some(p) => i <= p < v.len() && v[p].channel == channel && forall|j: int|
                i <= j < p ==> (#[trigger] v[j]).channel != channel,
            None => forall|j: int| i <= j < v.len() ==> (#[trigger] v[j]).channel != channel,
        },
    decreases v.len() - i,
{
    if i < v.len() && v[i].channel != channel {
        channel_found(v, channel, i + 1);
    }
}

proof fn channel_stays_first(v: Seq<ChannelModel>, channel: RetrievalChannel, p: int, i: int)
    requires
        0 <= i <= p < v.len(),
        v[p].channel == channel,
        forall|j: int| i <= j < p ==> (#[trigger] v[j]).channel != channel,
    ensures
        channel_from(v, channel, i) == Some(p),
    decreases p - i,
{
    if i < p {
        channel_stays_first(v, channel, p, i + 1);
    }
}

/// The entry that counts for a channel.
pub open spec fn entry_of(v: Seq<ChannelModel>, channel: RetrievalChannel) -> Option<ChannelModel> {
    match channel_from(v, channel, 0) {
        Some(p) => Some(v[p]),
        None => None,
    }
}

proof fn ensuring_settles_one_channel(
    v: Seq<ChannelModel>,
    e: ExpectedChannel,
    overruled: bool,
    candidates: usize,
    other: RetrievalChannel,
)
    ensures
        ({
            let w = channel_ensured(v, e, overruled, candidates);
            &&& entry_of(w, e.channel) == Some(
                match entry_of(v, e.channel) {
                    Some(c) => channel_settled(c, e, overruled),
                    None => channel_added(e, candidates),
                },
            )
            &&& other != e.channel ==> entry_of(w, other) == entry_of(v, other)
        }),
{
    let w = channel_ensured(v, e, overruled, candidates);
    channel_found(v, e.channel, 0);
    channel_found(v, other, 0);
    let at = match channel_from(v, e.channel, 0) {
        Some(p) => p,
        None => v.len() as int,
    };
    assert(forall|j: int| 0 <= j < v.len() && j != at ==> #[trigger] w[j] == v[j]);
    assert(w[at].channel == e.channel);
    channel_stays_first(w, e.channel, at, 0);
    if other != e.channel {
        match channel_from(v, other, 0) {
            Some(p) => {
                assert forall|j: int| 0 <= j < p implies (#[trigger] w[j]).channel != other by {
                    if j != at {
                        assert(w[j] == v[j]);
                    }
                }
                channel_stays_first(w, other, p, 0);
            },
            None => {
                channel_found(w, other, 0);
                if channel_from(w, other, 0) is Some {
                    let q = channel_from(w, other, 0)->0;
                    if q != at {
                        assert(w[q] == v[q]);
                    }
                }
            },
        }
    }
}

/// After a search every channel has an entry. That of the keyword search tells
/// whether there are keyword results, and if not, whether time ran out. Where
/// memory is disabled all others are; where the keyword results stand in, they ran
/// out of time or failed; otherwise none of them is empty.
pub proof fn channels_tell_the_outcome(
    v: Seq<ChannelModel>,
    memory_enabled: bool,
    fallback: bool,
    deadline_exceeded: bool,
    fast_available: bool,
    bm25_elapsed_ms: u64,
    vector_elapsed_ms: u64,
    keyword_candidates: usize,
)
    ensures
        ({
            let w = channels_ensured(
                v,
                memory_enabled,
                fallback,
                deadline_exceeded,
                fast_available,
                bm25_elapsed_ms,
                vector_elapsed_ms,
                keyword_candidates,
            );
            &&& forall|c: RetrievalChannel| #[trigger] entry_of(w, c) is Some
            &&& entry_of(w, RetrievalChannel::Bm25)->0.status == (if fast_available {
                "ok"@
            } else if deadline_exceeded {
                "timeout"@
            } else {
                "error"@
            })
            &&& forall|c: RetrievalChannel|
                c != RetrievalChannel::Bm25 ==> {
                    let status = (#[trigger] entry_of(w, c))->0.status;
                    &&& !memory_enabled ==> status == "disabled"@
                    &&& memory_enabled && fallback && deadline_exceeded ==> status == "timeout"@
                    &&& memory_enabled && fallback && !deadline_exceeded ==> status == "error"@
                    &&& memory_enabled && !fallback ==> status != "empty"@
                    &&& memory_enabled && !fallback && entry_of(v, c) is None ==> status == "ok"@
                }
        }),
{
    let status = semantic_status(memory_enabled, fallback, deadline_exceeded);
    let overruled = !memory_enabled || fallback;
    let bm25 = ExpectedChannel {
        channel: RetrievalChannel::Bm25,
        status: keyword_status(fast_available, deadline_exceeded),
        elapsed_ms: bm25_elapsed_ms,
    };
    let vector = ExpectedChannel {
        channel: RetrievalChannel::Vector,
        status,
        elapsed_ms: vector_elapsed_ms,
    };
    let entity = ExpectedChannel { channel: RetrievalChannel::Entity, status, elapsed_ms: 0 };
    let state = ExpectedChannel { channel: RetrievalChannel::State, status, elapsed_ms: 0 };
    let episode = ExpectedChannel { channel: RetrievalChannel::Episode, status, elapsed_ms: 0 };
    let graph = ExpectedChannel { channel: RetrievalChannel::Graph, status, elapsed_ms: 0 };
    let n = keyword_candidates;
    let v1 = channel_ensured(v, bm25, overruled, n);
    let v2 = channel_ensured(v1, vector, overruled, n);
    let v3 = channel_ensured(v2, entity, overruled, n);
    let v4 = channel_ensured(v3, state, overruled, n);
    let v5 = channel_ensured(v4, episode, overruled, n);
    let w = channel_ensured(v5, graph, overruled, n);
    reveal_strlit("ok");
    reveal_strlit("empty");
    assert("ok"@.len() != "empty"@.len());
    assert forall|c: RetrievalChannel| (#[trigger] entry_of(w, c)) is Some && (c
        == RetrievalChannel::Bm25 ==> entry_of(w, c)->0.status == bm25.status) && (c
        != RetrievalChannel::Bm25 ==> (overruled ==> entry_of(w, c)->0.status == status) && (
    !overruled ==> entry_of(w, c)->0.status != "empty"@) && (!overruled && entry_of(v, c) is None
        ==> entry_of(w, c)->0.status == status)) by {
        ensuring_settles_one_channel(v, bm25, overruled, n, c);
        ensuring_settles_one_channel(v1, vector, overruled, n, c);
        ensuring_settles_one_channel(v2, entity, overruled, n, c);
        ensuring_settles_one_channel(v3, state, overruled, n, c);
        ensuring_settles_one_channel(v4, episode, overruled, n, c);
        ensuring_settles_one_channel(v5, graph, overruled, n, c);
    }
}

/// A search is done exactly where time ran out, nothing more can come, or the
/// keyword, knowledge and semantic searches have all come to an end. The semantic
/// search is prepared when the query has a vector, and fused when it is prepared
/// and there are keyword results.
pub proof fn searches_wait_for_all(s: LiveSearch, event: LiveSearchEvent)
    ensures
        ({
            let (t, step) = stepped(s, event);
            let over = event is Deadline || event is Closed;
            &&& step.done <==> over || (t.fast_finished && t.knowledge_finished
                && t.semantic_finished)
            &&& step.prepare_semantic ==> !over && !s.semantic_preparation_started
                && t.query_embedding is Some && t.semantic_preparation_started
            &&& !over && !s.semantic_preparation_started && t.query_embedding is Some
                ==> step.prepare_semantic
            &&& step.fuse_semantic ==> !over && !s.semantic_fusion_started && t.fast is Some
                && t.semantic_fusion_started
            &&& !over && s.memory_enabled && !t.semantic_finished ==> !(t.fast_finished && t.fast is None)
                && !(t.embedding_finished && t.embedding_error is Some)
            &&& t.memory_enabled == s.memory_enabled
        }),
{
}

/// Keyword results stand in exactly where memory is on and the semantic search
/// gave nothing, or only them; a channel is missing exactly where nothing came
/// from it, and those of memory only while it is on.
pub proof fn missing_results_are_named(s: LiveSearch)
    ensures
        fallback_used(s) <==> s.memory_enabled && (s.semantic is None
            || s.semantic->0.trace.status@ == "bm25_fallback"@),
        missing_channels(s).len() == (if s.fast is None {
            1int
        } else {
            0
        }) + (if s.memory_enabled && s.semantic is None {
            5int
        } else {
            0
        }) + (if s.knowledge is None {
            1int
        } else {
            0
        }),
        missing_channels(s).contains("bm25"@) <==> s.fast is None,
        missing_channels(s).contains("knowledge"@) <==> s.knowledge is None,
        missing_channels(s).contains("graph"@) <==> s.memory_enabled && s.semantic is None,
{
    let v = missing_channels(s);
    reveal_strlit("bm25");
    reveal_strlit("vector");
    reveal_strlit("entity");
    reveal_strlit("state");
    reveal_strlit("episode");
    reveal_strlit("graph");
    reveal_strlit("knowledge");
    let a: int = if s.fast is None {
        1
    } else {
        0
    };
    let b: int = if s.memory_enabled && s.semantic is None {
        5
    } else {
        0
    };
    assert("bm25"@.len() == 4 && "vector"@.len() == 6 && "entity"@.len() == 6 && "state"@.len()
        == 5 && "episode"@.len() == 7 && "graph"@.len() == 5 && "knowledge"@.len() == 9);
    assert("state"@[0] == 's' && "graph"@[0] == 'g');
    if s.fast is None {
        assert(v[0] == "bm25"@);
    }
    if b == 5 {
        assert(v[a] == "vector"@ && v[a + 1] == "entity"@ && v[a + 2] == "state"@ && v[a + 3]
            == "episode"@ && v[a + 4] == "graph"@);
    }
    if s.knowledge is None {
        assert(v[a + b] == "knowledge"@);
    }
    assert forall|k: int| 0 <= k < v.len() implies (#[trigger] v[k] == "bm25"@ <==> k < a) && (v[k]
        == "knowledge"@ <==> k >= a + b) && (v[k] == "graph"@ <==> b == 5 && k == a + 4) by {
        if a <= k < a + b {
            assert(k == a || k == a + 1 || k == a + 2 || k == a + 3 || k == a + 4);
        }
    }
}

/// Every kind of query has the shares that are set for it.
pub proof fn kinds_have_their_own_shares(config: MemoryConfig, b: BudgetAllocationTrace)
    requires
        unspent_budget(config, b.query_kind, b),
    ensures
        b.query_kind == QueryKind::ExactFact ==> b.recent_history_percent
            == config.budgets.exact_fact.recent_history && b.exact_or_state_percent
            == config.budgets.exact_fact.exact_or_state && b.episode_percent
            == config.budgets.exact_fact.episode && b.graph_percent
            == config.budgets.exact_fact.graph,
        b.query_kind == QueryKind::GeneralSemantic ==> b.recent_history_percent
            == config.budgets.general_semantic.recent_history && b.exact_or_state_percent
            == config.budgets.general_semantic.exact_or_state && b.episode_percent
            == config.budgets.general_semantic.episode && b.graph_percent
            == config.budgets.general_semantic.graph,
        b.query_kind == QueryKind::EventRecap ==> b.recent_history_percent
            == config.budgets.event_recap.recent_history && b.exact_or_state_percent
            == config.budgets.event_recap.exact_or_state && b.episode_percent
            == config.budgets.event_recap.episode && b.graph_percent
            == config.budgets.event_recap.graph,
        b.query_kind == QueryKind::TemporalState ==> b.recent_history_percent
            == config.budgets.temporal_state.recent_history && b.exact_or_state_percent
            == config.budgets.temporal_state.exact_or_state && b.episode_percent
            == config.budgets.temporal_state.episode && b.graph_percent
            == config.budgets.temporal_state.graph,
        b.query_kind == QueryKind::MultiHop ==> b.recent_history_percent
            == config.budgets.multi_hop.recent_history && b.exact_or_state_percent
            == config.budgets.multi_hop.exact_or_state && b.episode_percent
            == config.budgets.multi_hop.episode && b.graph_percent
            == config.budgets.multi_hop.graph,
{
}

/// A search gives the evidence of the semantic search where there is one, else
/// that of the keyword search, else none; what each warned of is kept.
pub proof fn searches_give_the_best_results<'a>(
    s: LiveSearch,
    q: SearchRequest<'a>,
    elapsed_ms: u64,
    base: RecallResult,
    r: RecallResult,
)
    requires
        base_recall(s, q, base),
        recall_concluded(s, q, elapsed_ms, base, r),
    ensures
        s.semantic matches Some(found) ==> r.evidence@ == found.evidence@,
        s.semantic is None && s.fast is Some ==> r.evidence@ == s.fast->0.evidence@,
        s.semantic is None && s.fast is None ==> r.evidence@.len() == 0 && r.trace.status@
            == "fast_search_unavailable"@,
        r.trace.fast_fallback_used <==> s.memory_enabled && (s.semantic is None
            || s.semantic->0.trace.status@ == "bm25_fallback"@),
        r.trace.deadline_exceeded == s.deadline_exceeded,
        r.trace.elapsed_ms == elapsed_ms,
        r.trace.warnings@.len() == base.trace.warnings@.len() + (if s.embedding_error is Some {
            1int
        } else {
            0
        }) + (if s.semantic_error is Some {
            1int
        } else {
            0
        }) + (if s.deadline_exceeded {
            1int
        } else {
            0
        }),
{
    assert(text::texts(r.trace.warnings@).len() == r.trace.warnings@.len());
    assert(text::texts(base.trace.warnings@).len() == base.trace.warnings@.len());
}

} // verus!
