//! The data that the planners work on: sessions, turns, evidence, traces.

use vstd::prelude::*;
use vstd::string::*;
use vstd::utf8::*;

use crate::digest::{self, hash_id, PartHasher};
use crate::knowledge::KnowledgeTrace;
use crate::text::text_eq;

verus! {

/// Used when a configuration gives no system prompt of its own.
pub const DEFAULT_SYSTEM_PROMPT: &'static str = "You are a helpful assistant.";

/// Who a message of a conversation comes from.
#[derive(Clone, Copy, Debug, PartialEq, Eq, Structural)]
pub enum EventRole {
    System,
    User,
    Assistant,
}

/// The name of a role in messages and identities.
pub open spec fn role_text(role: EventRole) -> Seq<char> {
    match role {
        EventRole::System => "system"@,
        EventRole::User => "user"@,
        EventRole::Assistant => "assistant"@,
    }
}

impl EventRole {
    pub fn as_str(self) -> (r: &'static str)
        ensures
            r@ == role_text(self),
    {
        match self {
            EventRole::System => "system",
            EventRole::User => "user",
            EventRole::Assistant => "assistant",
        }
    }
}

/// Roles have different names.
pub proof fn role_text_injective(a: EventRole, b: EventRole)
    requires
        role_text(a) == role_text(b),
    ensures
        a == b,
{
    reveal_strlit("system");
    reveal_strlit("user");
    reveal_strlit("assistant");
    assert("system"@.len() == 6 && "user"@.len() == 4 && "assistant"@.len() == 9);
}

#[derive(Clone, Copy, Debug, PartialEq, Eq, Structural)]
pub enum TurnStatus {
    Pending,
    Complete,
    NoAnswer,
    Truncated,
    Interrupted,
    Failed,
    Blocked,
}

#[derive(Clone, Copy, Debug, PartialEq, Eq, Structural)]
pub enum SessionStatus {
    Active,
    Paused,
}

#[derive(Clone, Copy, Debug, PartialEq, Eq, Structural)]
pub enum EvidenceKind {
    Core,
    Context,
}

#[derive(Clone, Copy, Debug, PartialEq, Eq, Structural)]
pub enum ProvenanceQuality {
    Exact,
    Inferred,
}

#[derive(Clone, Copy, Debug, PartialEq, Eq, Structural)]
pub enum RetrievalChannel {
    Bm25,
    Vector,
    Entity,
    State,
    Episode,
    Graph,
}

#[derive(Clone, Copy, Debug, PartialEq, Eq, Structural)]
pub enum RetrievalDocumentGranularity {
    Message,
    Fragment,
    Episode,
    Session,
}

#[derive(Clone, Copy, Debug, PartialEq, Eq, Structural)]
pub enum QueryKind {
    ExactFact,
    GeneralSemantic,
    EventRecap,
    TemporalState,
    MultiHop,
}

#[derive(Clone, Copy, Debug, PartialEq, Eq, Structural)]
pub enum BudgetBucket {
    RecentHistory,
    ExactOrState,
    Episode,
    Graph,
}

/// Token counts that a backend reports; a count it does not give is `None`.
#[derive(Clone, Copy, Debug, PartialEq, Eq, Structural)]
pub struct TokenUsage {
    pub input_tokens: Option<u64>,
    pub output_tokens: Option<u64>,
    pub total_tokens: Option<u64>,
}

/// The sum of two counts, when both are known; it stays at `u64::MAX`.
pub open spec fn count_sum(a: Option<u64>, b: Option<u64>) -> Option<u64> {
    match (a, b) {
        (Some(x), Some(y)) => Some(
            if x + y > u64::MAX {
                u64::MAX
            } else {
                (x + y) as u64
            },
        ),
        _ => None,
    }
}

pub fn add_counts(a: Option<u64>, b: Option<u64>) -> (r: Option<u64>)
    ensures
        r == count_sum(a, b),
{
    match (a, b) {
        (Some(x), Some(y)) => Some(x.saturating_add(y)),
        _ => None,
    }
}

impl TokenUsage {
    pub fn new(input_tokens: Option<u64>, output_tokens: Option<u64>) -> (r: TokenUsage)
        ensures
            r.input_tokens == input_tokens,
            r.output_tokens == output_tokens,
            r.total_tokens == count_sum(input_tokens, output_tokens),
    {
        TokenUsage {
            input_tokens,
            output_tokens,
            total_tokens: add_counts(input_tokens, output_tokens),
        }
    }

    pub fn zero() -> (r: TokenUsage)
        ensures
            r.input_tokens == Some(0u64),
            r.output_tokens == Some(0u64),
            r.total_tokens == Some(0u64),
    {
        TokenUsage::new(Some(0), Some(0))
    }

    /// Recomputes the total from the two counts.
    pub fn refresh(&mut self)
        ensures
            final(self).input_tokens == old(self).input_tokens,
            final(self).output_tokens == old(self).output_tokens,
            final(self).total_tokens == count_sum(old(self).input_tokens, old(self).output_tokens),
    {
        self.total_tokens = add_counts(self.input_tokens, self.output_tokens);
    }

    /// Adds the counts of another report, count by count.
    pub fn add(&mut self, other: TokenUsage)
        ensures
            final(self).input_tokens == count_sum(old(self).input_tokens, other.input_tokens),
            final(self).output_tokens == count_sum(old(self).output_tokens, other.output_tokens),
            final(self).total_tokens == count_sum(old(self).total_tokens, other.total_tokens),
    {
        self.input_tokens = add_counts(self.input_tokens, other.input_tokens);
        self.output_tokens = add_counts(self.output_tokens, other.output_tokens);
        self.total_tokens = add_counts(self.total_tokens, other.total_tokens);
    }
}

/// Copies a list whose elements clone to themselves.
pub fn copy_list<T: Clone>(v: &Vec<T>) -> (r: Vec<T>)
    requires
        forall|x: &T, y: T| call_ensures(T::clone, (x,), y) ==> y == *x,
        forall|x: &T| call_requires(T::clone, (x,)),
    ensures
        r@ == v@,
{
    let mut out: Vec<T> = Vec::new();
    let mut i: usize = 0;
    while i < v.len()
        invariant
            i <= v@.len(),
            out@ == v@.take(i as int),
            forall|x: &T, y: T| call_ensures(T::clone, (x,), y) ==> y == *x,
            forall|x: &T| call_requires(T::clone, (x,)),
        decreases v.len() - i,
    {
        out.push(v[i].clone());
        i += 1;
    }
    assert(v@.take(i as int) =~= v@);
    out
}

/// A range of characters of one event.
#[derive(Debug, PartialEq, Eq, Hash)]
pub struct SourceSpan {
    pub event_id: String,
    pub start_char: usize,
    pub end_char: usize,
}

impl Clone for SourceSpan {
    fn clone(&self) -> (r: Self)
        ensures
            r == *self,
    {
        SourceSpan {
            event_id: self.event_id.clone(),
            start_char: self.start_char,
            end_char: self.end_char,
        }
    }
}

/// What identifies a span: its event and its range.
pub open spec fn span_key(s: SourceSpan) -> (Seq<char>, int, int) {
    (s.event_id@, s.start_char as int, s.end_char as int)
}

pub fn same_span(a: &SourceSpan, b: &SourceSpan) -> (r: bool)
    ensures
        r == (span_key(*a) == span_key(*b)),
{
    a.start_char == b.start_char && a.end_char == b.end_char && text_eq(
        a.event_id.as_str(),
        b.event_id.as_str(),
    )
}

/// A span chosen as evidence for an answer.
#[derive(Debug, PartialEq, Eq)]
pub struct SelectedEvidence {
    pub span: SourceSpan,
    pub content_sha256: String,
    pub role: EventRole,
    pub kind: EvidenceKind,
    pub originating_candidate_rank: Option<usize>,
    pub reason: String,
}

impl Clone for SelectedEvidence {
    fn clone(&self) -> (r: Self)
        ensures
            r == *self,
    {
        SelectedEvidence {
            span: self.span.clone(),
            content_sha256: self.content_sha256.clone(),
            role: self.role,
            kind: self.kind,
            originating_candidate_rank: self.originating_candidate_rank,
            reason: self.reason.clone(),
        }
    }
}

/// Evidence together with the text that its span resolves to.
#[derive(Debug, PartialEq, Eq)]
pub struct RecalledEvidence {
    pub selected: SelectedEvidence,
    pub content: String,
}

impl Clone for RecalledEvidence {
    fn clone(&self) -> (r: Self)
        ensures
            r == *self,
    {
        RecalledEvidence { selected: self.selected.clone(), content: self.content.clone() }
    }
}

/// One message of a model request.
#[derive(Debug, PartialEq, Eq)]
pub struct ChatMessage {
    pub role: String,
    pub content: String,
}

impl Clone for ChatMessage {
    fn clone(&self) -> (r: Self)
        ensures
            r == *self,
    {
        ChatMessage { role: self.role.clone(), content: self.content.clone() }
    }
}

/// Where a message of a request comes from.
#[derive(Debug, PartialEq, Eq)]
pub struct ContextItemTrace {
    pub role: EventRole,
    pub span: SourceSpan,
    pub content_sha256: String,
}

impl Clone for ContextItemTrace {
    fn clone(&self) -> (r: Self)
        ensures
            r == *self,
    {
        ContextItemTrace {
            role: self.role,
            span: self.span.clone(),
            content_sha256: self.content_sha256.clone(),
        }
    }
}

/// Copies an optional string.
pub fn copy_opt(o: &Option<String>) -> (r: Option<String>)
    ensures
        r == *o,
{
    match o {
        Some(s) => Some(s.clone()),
        None => None,
    }
}

/// Copies an optional span.
pub fn copy_opt_span(o: &Option<SourceSpan>) -> (r: Option<SourceSpan>)
    ensures
        r == *o,
{
    match o {
        Some(s) => Some(s.clone()),
        None => None,
    }
}

/// Limits of one retrieval.
#[derive(Clone, Copy, Debug, PartialEq, Eq, Structural)]
pub struct RetrievalConfig {
    pub candidate_limit: usize,
    pub max_selected: usize,
    pub evidence_char_budget: usize,
    pub expansion_char_budget: usize,
}

/// How one retrieval channel fared.
#[derive(Debug, PartialEq, Eq)]
pub struct ChannelTrace {
    pub channel: RetrievalChannel,
    pub status: String,
    pub candidate_count: usize,
    pub elapsed_ms: u64,
    pub error: Option<String>,
}

impl Clone for ChannelTrace {
    fn clone(&self) -> (r: Self)
        ensures
            r == *self,
    {
        ChannelTrace {
            channel: self.channel,
            status: self.status.clone(),
            candidate_count: self.candidate_count,
            elapsed_ms: self.elapsed_ms,
            error: copy_opt(&self.error),
        }
    }
}

/// A document that the keyword search ranked.
#[derive(Debug, PartialEq, Eq)]
pub struct RetrievalCandidate {
    pub raw_rank: usize,
    pub document_id: String,
    pub session_id: String,
    pub span: SourceSpan,
    pub granularity: RetrievalDocumentGranularity,
    pub selected: bool,
    pub reason: String,
}

impl Clone for RetrievalCandidate {
    fn clone(&self) -> (r: Self)
        ensures
            r == *self,
    {
        RetrievalCandidate {
            raw_rank: self.raw_rank,
            document_id: self.document_id.clone(),
            session_id: self.session_id.clone(),
            span: self.span.clone(),
            granularity: self.granularity,
            selected: self.selected,
            reason: self.reason.clone(),
        }
    }
}

/// A document that the fusion of all channels ranked.
#[derive(Debug, PartialEq, Eq)]
pub struct FusionCandidate {
    pub fused_rank: usize,
    pub document_id: String,
    pub source_document_ids: Vec<String>,
    pub span: SourceSpan,
    pub granularity: RetrievalDocumentGranularity,
    pub episode_id: Option<String>,
    pub selected: bool,
    pub reason: String,
}

impl FusionCandidate {
    pub open spec fn same(self, o: FusionCandidate) -> bool {
        &&& self.same_identity(o)
        &&& self.selected == o.selected
        &&& self.reason == o.reason
    }

    /// Equal in all but the outcome of the selection.
    pub open spec fn same_identity(self, o: FusionCandidate) -> bool {
        &&& self.fused_rank == o.fused_rank
        &&& self.document_id == o.document_id
        &&& self.source_document_ids@ == o.source_document_ids@
        &&& self.span == o.span
        &&& self.granularity == o.granularity
        &&& self.episode_id == o.episode_id
    }
}

impl Clone for FusionCandidate {
    fn clone(&self) -> (r: Self)
        ensures
            r.same(*self),
    {
        FusionCandidate {
            fused_rank: self.fused_rank,
            document_id: self.document_id.clone(),
            source_document_ids: copy_list(&self.source_document_ids),
            span: self.span.clone(),
            granularity: self.granularity,
            episode_id: copy_opt(&self.episode_id),
            selected: self.selected,
            reason: self.reason.clone(),
        }
    }
}

/// A claim about the state of the world that a query touches.
#[derive(Debug, PartialEq, Eq)]
pub struct StateSelection {
    pub claim_id: String,
    pub related_claim_ids: Vec<String>,
    pub evidence_span: Option<SourceSpan>,
    pub selected: bool,
    pub reason: String,
}

impl StateSelection {
    pub open spec fn same(self, o: StateSelection) -> bool {
        &&& self.same_identity(o)
        &&& self.selected == o.selected
        &&& self.reason == o.reason
    }

    pub open spec fn same_identity(self, o: StateSelection) -> bool {
        &&& self.claim_id == o.claim_id
        &&& self.related_claim_ids@ == o.related_claim_ids@
        &&& self.evidence_span == o.evidence_span
    }
}

impl Clone for StateSelection {
    fn clone(&self) -> (r: Self)
        ensures
            r.same(*self),
    {
        StateSelection {
            claim_id: self.claim_id.clone(),
            related_claim_ids: copy_list(&self.related_claim_ids),
            evidence_span: copy_opt_span(&self.evidence_span),
            selected: self.selected,
            reason: self.reason.clone(),
        }
    }
}

/// A path through the memory graph from a seed to a document.
#[derive(Debug, PartialEq, Eq)]
pub struct GraphPathTrace {
    pub target_document_id: String,
    pub target_rank: usize,
    pub edge_types: Vec<String>,
    pub node_ids: Vec<String>,
    pub edge_ids: Vec<String>,
    pub span: Option<SourceSpan>,
    pub selected: bool,
    pub reason: String,
}

impl GraphPathTrace {
    pub open spec fn same(self, o: GraphPathTrace) -> bool {
        &&& self.same_identity(o)
        &&& self.selected == o.selected
        &&& self.reason == o.reason
    }

    pub open spec fn same_identity(self, o: GraphPathTrace) -> bool {
        &&& self.target_document_id == o.target_document_id
        &&& self.target_rank == o.target_rank
        &&& self.edge_types@ == o.edge_types@
        &&& self.node_ids@ == o.node_ids@
        &&& self.edge_ids@ == o.edge_ids@
        &&& self.span == o.span
    }
}

impl Clone for GraphPathTrace {
    fn clone(&self) -> (r: Self)
        ensures
            r.same(*self),
    {
        GraphPathTrace {
            target_document_id: self.target_document_id.clone(),
            target_rank: self.target_rank,
            edge_types: copy_list(&self.edge_types),
            node_ids: copy_list(&self.node_ids),
            edge_ids: copy_list(&self.edge_ids),
            span: copy_opt_span(&self.span),
            selected: self.selected,
            reason: self.reason.clone(),
        }
    }
}

/// Tokens by budget bucket.
#[derive(Clone, Copy, Debug, PartialEq, Eq, Structural)]
pub struct BudgetTokenBreakdown {
    pub recent_history: u64,
    pub exact_or_state: u64,
    pub episode: u64,
    pub graph: u64,
}

/// Why a unit of context was left out.
#[derive(Debug, PartialEq, Eq)]
pub struct BudgetExclusionTrace {
    pub bucket: BudgetBucket,
    pub candidate_group_id: String,
    pub stage: String,
    pub reason: String,
    pub exact_increment_tokens: Option<u64>,
}

impl Clone for BudgetExclusionTrace {
    fn clone(&self) -> (r: Self)
        ensures
            r == *self,
    {
        BudgetExclusionTrace {
            bucket: self.bucket,
            candidate_group_id: self.candidate_group_id.clone(),
            stage: self.stage.clone(),
            reason: self.reason.clone(),
            exact_increment_tokens: self.exact_increment_tokens,
        }
    }
}

/// What one bucket took of the tokens that others left over.
#[derive(Clone, Copy, Debug, PartialEq, Eq, Structural)]
pub struct BudgetReflowTrace {
    pub bucket: BudgetBucket,
    pub offered_tokens: u64,
    pub consumed_tokens: u64,
    pub remaining_tokens: u64,
}

#[derive(Debug, PartialEq, Eq)]
pub struct BudgetStageLatencyTrace {
    pub stage: String,
    pub elapsed_ms: u64,
}

impl Clone for BudgetStageLatencyTrace {
    fn clone(&self) -> (r: Self)
        ensures
            r == *self,
    {
        BudgetStageLatencyTrace { stage: self.stage.clone(), elapsed_ms: self.elapsed_ms }
    }
}

/// One exact token count that was asked of the backend.
#[derive(Debug, PartialEq, Eq)]
pub struct BudgetProbeTrace {
    pub stage: String,
    pub request_sha256: String,
    pub kind: String,
    pub usage: TokenUsage,
    pub cache_hit: bool,
}

impl Clone for BudgetProbeTrace {
    fn clone(&self) -> (r: Self)
        ensures
            r == *self,
    {
        BudgetProbeTrace {
            stage: self.stage.clone(),
            request_sha256: self.request_sha256.clone(),
            kind: self.kind.clone(),
            usage: self.usage,
            cache_hit: self.cache_hit,
        }
    }
}

/// How the input tokens of a turn were shared out.
#[derive(Debug, PartialEq, Eq)]
pub struct BudgetAllocationTrace {
    pub query_kind: QueryKind,
    pub recent_history_percent: u8,
    pub exact_or_state_percent: u8,
    pub episode_percent: u8,
    pub graph_percent: u8,
    pub mandatory_input_tokens: u64,
    pub available_input_tokens: u64,
    pub initial_tokens: BudgetTokenBreakdown,
    pub actual_tokens: BudgetTokenBreakdown,
    pub reflow: Vec<BudgetReflowTrace>,
    pub exclusions: Vec<BudgetExclusionTrace>,
    pub probes: Vec<BudgetProbeTrace>,
    pub stage_latencies: Vec<BudgetStageLatencyTrace>,
    pub final_input_tokens: Option<u64>,
}

impl BudgetAllocationTrace {
    pub open spec fn same(self, o: BudgetAllocationTrace) -> bool {
        &&& self.query_kind == o.query_kind
        &&& self.recent_history_percent == o.recent_history_percent
        &&& self.exact_or_state_percent == o.exact_or_state_percent
        &&& self.episode_percent == o.episode_percent
        &&& self.graph_percent == o.graph_percent
        &&& self.mandatory_input_tokens == o.mandatory_input_tokens
        &&& self.available_input_tokens == o.available_input_tokens
        &&& self.initial_tokens == o.initial_tokens
        &&& self.actual_tokens == o.actual_tokens
        &&& self.reflow@ == o.reflow@
        &&& self.exclusions@ == o.exclusions@
        &&& self.probes@ == o.probes@
        &&& self.stage_latencies@ == o.stage_latencies@
        &&& self.final_input_tokens == o.final_input_tokens
    }
}

impl Clone for BudgetAllocationTrace {
    fn clone(&self) -> (r: Self)
        ensures
            r.same(*self),
    {
        BudgetAllocationTrace {
            query_kind: self.query_kind,
            recent_history_percent: self.recent_history_percent,
            exact_or_state_percent: self.exact_or_state_percent,
            episode_percent: self.episode_percent,
            graph_percent: self.graph_percent,
            mandatory_input_tokens: self.mandatory_input_tokens,
            available_input_tokens: self.available_input_tokens,
            initial_tokens: self.initial_tokens,
            actual_tokens: self.actual_tokens,
            reflow: copy_list(&self.reflow),
            exclusions: copy_list(&self.exclusions),
            probes: copy_list(&self.probes),
            stage_latencies: copy_list(&self.stage_latencies),
            final_input_tokens: self.final_input_tokens,
        }
    }
}

/// What one retrieval did.
#[derive(Debug, PartialEq, Eq)]
pub struct RetrievalTrace {
    pub status: String,
    pub current_query_event_id: String,
    pub config: RetrievalConfig,
    pub error: Option<String>,
    pub query_kind: QueryKind,
    pub budget_allocation: BudgetAllocationTrace,
    pub warnings: Vec<String>,
    pub deadline_ms: u64,
    pub deadline_exceeded: bool,
    pub fast_fallback_used: bool,
    pub fallback_reason: Option<String>,
    pub elapsed_ms: u64,
    pub channels: Vec<ChannelTrace>,
    pub candidates: Vec<RetrievalCandidate>,
    pub fusion_candidates: Vec<FusionCandidate>,
    pub state_selections: Vec<StateSelection>,
    pub graph_paths: Vec<GraphPathTrace>,
    pub selected_evidence: Vec<SelectedEvidence>,
}

pub open spec fn same_fusion(a: Seq<FusionCandidate>, b: Seq<FusionCandidate>) -> bool {
    a.len() == b.len() && forall|i: int| 0 <= i < a.len() ==> (#[trigger] a[i]).same(b[i])
}

pub open spec fn same_states(a: Seq<StateSelection>, b: Seq<StateSelection>) -> bool {
    a.len() == b.len() && forall|i: int| 0 <= i < a.len() ==> (#[trigger] a[i]).same(b[i])
}

pub open spec fn same_paths(a: Seq<GraphPathTrace>, b: Seq<GraphPathTrace>) -> bool {
    a.len() == b.len() && forall|i: int| 0 <= i < a.len() ==> (#[trigger] a[i]).same(b[i])
}

impl RetrievalTrace {
    /// Equal in all that does not depend on which evidence is selected.
    pub open spec fn same_run(self, o: RetrievalTrace) -> bool {
        &&& self.status == o.status
        &&& self.current_query_event_id == o.current_query_event_id
        &&& self.config == o.config
        &&& self.error == o.error
        &&& self.query_kind == o.query_kind
        &&& self.warnings@ == o.warnings@
        &&& self.deadline_ms == o.deadline_ms
        &&& self.deadline_exceeded == o.deadline_exceeded
        &&& self.fast_fallback_used == o.fast_fallback_used
        &&& self.fallback_reason == o.fallback_reason
        &&& self.elapsed_ms == o.elapsed_ms
        &&& self.channels@ == o.channels@
    }

    pub open spec fn same(self, o: RetrievalTrace) -> bool {
        &&& self.same_run(o)
        &&& self.budget_allocation.same(o.budget_allocation)
        &&& self.candidates@ == o.candidates@
        &&& same_fusion(self.fusion_candidates@, o.fusion_candidates@)
        &&& same_states(self.state_selections@, o.state_selections@)
        &&& same_paths(self.graph_paths@, o.graph_paths@)
        &&& self.selected_evidence@ == o.selected_evidence@
    }
}

pub fn copy_fusion(v: &Vec<FusionCandidate>) -> (r: Vec<FusionCandidate>)
    ensures
        same_fusion(r@, v@),
{
    let mut out: Vec<FusionCandidate> = Vec::new();
    let mut i: usize = 0;
    while i < v.len()
        invariant
            i <= v@.len(),
            out@.len() == i,
            forall|k: int| 0 <= k < i ==> (#[trigger] out@[k]).same(v@[k]),
        decreases v.len() - i,
    {
        out.push(v[i].clone());
        i += 1;
    }
    out
}

pub fn copy_states(v: &Vec<StateSelection>) -> (r: Vec<StateSelection>)
    ensures
        same_states(r@, v@),
{
    let mut out: Vec<StateSelection> = Vec::new();
    let mut i: usize = 0;
    while i < v.len()
        invariant
            i <= v@.len(),
            out@.len() == i,
            forall|k: int| 0 <= k < i ==> (#[trigger] out@[k]).same(v@[k]),
        decreases v.len() - i,
    {
        out.push(v[i].clone());
        i += 1;
    }
    out
}

pub fn copy_paths(v: &Vec<GraphPathTrace>) -> (r: Vec<GraphPathTrace>)
    ensures
        same_paths(r@, v@),
{
    let mut out: Vec<GraphPathTrace> = Vec::new();
    let mut i: usize = 0;
    while i < v.len()
        invariant
            i <= v@.len(),
            out@.len() == i,
            forall|k: int| 0 <= k < i ==> (#[trigger] out@[k]).same(v@[k]),
        decreases v.len() - i,
    {
        out.push(v[i].clone());
        i += 1;
    }
    out
}

impl Clone for RetrievalTrace {
    fn clone(&self) -> (r: Self)
        ensures
            r.same(*self),
    {
        RetrievalTrace {
            status: self.status.clone(),
            current_query_event_id: self.current_query_event_id.clone(),
            config: self.config,
            error: copy_opt(&self.error),
            query_kind: self.query_kind,
            budget_allocation: self.budget_allocation.clone(),
            warnings: copy_list(&self.warnings),
            deadline_ms: self.deadline_ms,
            deadline_exceeded: self.deadline_exceeded,
            fast_fallback_used: self.fast_fallback_used,
            fallback_reason: copy_opt(&self.fallback_reason),
            elapsed_ms: self.elapsed_ms,
            channels: copy_list(&self.channels),
            candidates: copy_list(&self.candidates),
            fusion_candidates: copy_fusion(&self.fusion_candidates),
            state_selections: copy_states(&self.state_selections),
            graph_paths: copy_paths(&self.graph_paths),
            selected_evidence: copy_list(&self.selected_evidence),
        }
    }
}

/// A retrieval and the evidence it resolved.
#[derive(Debug, PartialEq, Eq)]
pub struct RecallResult {
    pub trace: RetrievalTrace,
    pub evidence: Vec<RecalledEvidence>,
}

impl RecallResult {
    pub open spec fn same(self, o: RecallResult) -> bool {
        self.trace.same(o.trace) && self.evidence@ == o.evidence@
    }
}

impl Clone for RecallResult {
    fn clone(&self) -> (r: Self)
        ensures
            r.same(*self),
    {
        RecallResult { trace: self.trace.clone(), evidence: copy_list(&self.evidence) }
    }
}

/// The input limits of a session. The thresholds are counts of tokens.
#[derive(Clone, Copy, Debug, PartialEq, Eq, Structural)]
pub struct BudgetConfig {
    pub context_window: u64,
    pub max_output_tokens: u64,
    pub safety_margin_tokens: u64,
    pub probe_threshold: u64,
    pub warning_threshold: u64,
    pub trim_target: u64,
}

impl BudgetConfig {
    /// What is left of the window for the input.
    pub open spec fn input_budget_spec(self) -> int {
        let rest = self.context_window - self.max_output_tokens - self.safety_margin_tokens;
        if rest < 0 {
            0
        } else {
            rest
        }
    }

    pub fn input_budget(&self) -> (r: u64)
        ensures
            r == self.input_budget_spec(),
    {
        self.context_window.saturating_sub(self.max_output_tokens).saturating_sub(
            self.safety_margin_tokens,
        )
    }
}

/// The text of an optional string slice.
pub open spec fn opt_str(o: Option<&str>) -> Option<Seq<char>> {
    match o {
        Some(s) => Some(s@),
        None => None,
    }
}

/// The values hashed for the identity of an event.
pub open spec fn event_parts(
    session: Seq<char>,
    turn: Option<Seq<char>>,
    role: EventRole,
) -> Seq<Seq<u8>> {
    let turn_bytes = match turn {
        Some(t) => encode_utf8(t),
        None => Seq::<u8>::empty(),
    };
    seq![
        encode_utf8("hippocampus-event-v1"@),
        encode_utf8(session),
        turn_bytes,
        encode_utf8(role_text(role)),
    ]
}

/// The identity of an event: a digest over its session, turn and role.
pub open spec fn event_id_text(session: Seq<char>, turn: Option<Seq<char>>, role: EventRole) -> Seq<
    char,
> {
    "event_"@ + digest::sha256_hex(digest::framed_all(event_parts(session, turn, role)))
}

pub fn event_id(session_id: &str, turn_id: Option<&str>, role: EventRole) -> (r: String)
    ensures
        r@ == event_id_text(session_id@, opt_str(turn_id), role),
        digest::hash_id_shape(r@, "event_"@),
{
    let mut hasher = PartHasher::new();
    hasher.part("hippocampus-event-v1".as_bytes());
    hasher.part(session_id.as_bytes());
    match turn_id {
        Some(turn) => {
            hasher.part(turn.as_bytes());
        },
        None => {
            let none: Vec<u8> = Vec::new();
            hasher.part(none.as_slice());
        },
    }
    hasher.part(role.as_str().as_bytes());
    proof {
        assert(hasher.parts() =~= event_parts(session_id@, opt_str(turn_id), role));
    }
    hash_id("event_", hasher.finish().as_str())
}

/// A message as its role and content.
pub open spec fn message_text(m: ChatMessage) -> (Seq<char>, Seq<char>) {
    (m.role@, m.content@)
}

pub open spec fn message_texts(m: Seq<ChatMessage>) -> Seq<(Seq<char>, Seq<char>)> {
    Seq::new(m.len(), |i: int| message_text(m[i]))
}

/// The values hashed for a list of messages.
pub open spec fn context_parts(m: Seq<(Seq<char>, Seq<char>)>) -> Seq<Seq<u8>>
    decreases m.len(),
{
    if m.len() == 0 {
        seq![encode_utf8("hippocampus-context-v1"@)]
    } else {
        context_parts(m.drop_last()).push(encode_utf8(m.last().0)).push(encode_utf8(m.last().1))
    }
}

pub open spec fn context_digest(m: Seq<(Seq<char>, Seq<char>)>) -> Seq<char> {
    digest::sha256_hex(digest::framed_all(context_parts(m)))
}

/// The digest of the messages of a request.
pub fn context_sha256(messages: &Vec<ChatMessage>) -> (r: String)
    ensures
        r@ == context_digest(message_texts(messages@)),
        digest::sha256_shape(r@),
{
    let mut hasher = PartHasher::new();
    hasher.part("hippocampus-context-v1".as_bytes());
    proof {
        assert(message_texts(messages@).take(0) =~= Seq::empty());
        assert(hasher.parts() =~= context_parts(message_texts(messages@).take(0)));
    }
    let mut i: usize = 0;
    while i < messages.len()
        invariant
            i <= messages@.len(),
            hasher.wf(),
            hasher.parts() == context_parts(message_texts(messages@).take(i as int)),
        decreases messages.len() - i,
    {
        hasher.part(messages[i].role.as_str().as_bytes());
        hasher.part(messages[i].content.as_str().as_bytes());
        proof {
            let all = message_texts(messages@);
            assert(all.take(i + 1).drop_last() =~= all.take(i as int));
        }
        i += 1;
    }
    assert(message_texts(messages@).take(i as int) =~= message_texts(messages@));
    hasher.finish()
}

/// The instruction that tells the model its name.
pub open spec fn identity_text(ai_name: Seq<char>) -> Seq<char> {
    "Your name is "@ + ai_name + ". Use this name when you refer to yourself."@
}

pub fn identity_instruction(ai_name: &str) -> (r: String)
    ensures
        r@ == identity_text(ai_name@),
{
    let mut out = "Your name is ".to_owned();
    out.append(ai_name);
    out.append(". Use this name when you refer to yourself.");
    out
}

/// The settings that a model request was made with.
#[derive(Clone, Debug, PartialEq, Eq)]
pub struct ModelRequestTrace {
    pub model: String,
    pub think: bool,
    pub context_window: u64,
    pub max_output_tokens: u64,
}

/// A request that is ready to be sent, and where each part of it comes from.
#[derive(Clone, Debug, PartialEq, Eq)]
pub struct ContextPlan {
    pub messages: Vec<ChatMessage>,
    pub context_items: Vec<ContextItemTrace>,
    pub context_sha256: String,
    pub included_turn_ids: Vec<String>,
    pub omitted_turn_ids: Vec<String>,
    pub selected_history_indices: Vec<usize>,
    pub estimated_upper_tokens: Option<u64>,
    pub exact_input_tokens: Option<u64>,
    pub input_budget: u64,
    pub identity_instruction: String,
    pub untrusted_history_wrapped: bool,
    pub retrieval_trace: RetrievalTrace,
    pub evidence: Vec<SelectedEvidence>,
    pub knowledge_trace: KnowledgeTrace,
}

/// The record of a request that a turn keeps.
#[derive(Clone, Debug, PartialEq, Eq)]
pub struct ContextTrace {
    pub included_turn_ids: Vec<String>,
    pub omitted_turn_ids: Vec<String>,
    pub estimated_upper_tokens: Option<u64>,
    pub exact_input_tokens: Option<u64>,
    pub input_budget: u64,
    pub decision: String,
    pub active_context_start_before: usize,
    pub active_context_start_after: usize,
    pub context_items: Vec<ContextItemTrace>,
    pub context_sha256: Option<String>,
    pub request: Option<ModelRequestTrace>,
    pub identity_instruction: Option<String>,
    pub untrusted_history_wrapped: bool,
    pub provenance_quality: ProvenanceQuality,
    pub retrieval: RetrievalTrace,
    pub knowledge: KnowledgeTrace,
}

/// The trace of a retrieval that did not run.
impl Default for RetrievalTrace {
    fn default() -> (r: Self)
        ensures
            r.not_run(),
    {
        RetrievalTrace {
            status: "not_run".to_owned(),
            current_query_event_id: String::new(),
            config: RetrievalConfig {
                candidate_limit: 64,
                max_selected: 8,
                evidence_char_budget: 4096,
                expansion_char_budget: 2048,
            },
            error: None,
            query_kind: QueryKind::GeneralSemantic,
            budget_allocation: BudgetAllocationTrace {
                query_kind: QueryKind::GeneralSemantic,
                recent_history_percent: 0,
                exact_or_state_percent: 0,
                episode_percent: 0,
                graph_percent: 0,
                mandatory_input_tokens: 0,
                available_input_tokens: 0,
                initial_tokens: BudgetTokenBreakdown {
                    recent_history: 0,
                    exact_or_state: 0,
                    episode: 0,
                    graph: 0,
                },
                actual_tokens: BudgetTokenBreakdown {
                    recent_history: 0,
                    exact_or_state: 0,
                    episode: 0,
                    graph: 0,
                },
                reflow: Vec::new(),
                exclusions: Vec::new(),
                probes: Vec::new(),
                stage_latencies: Vec::new(),
                final_input_tokens: None,
            },
            warnings: Vec::new(),
            deadline_ms: 0,
            deadline_exceeded: false,
            fast_fallback_used: false,
            fallback_reason: None,
            elapsed_ms: 0,
            channels: Vec::new(),
            candidates: Vec::new(),
            fusion_candidates: Vec::new(),
            state_selections: Vec::new(),
            graph_paths: Vec::new(),
            selected_evidence: Vec::new(),
        }
    }
}

impl RetrievalTrace {
    /// No search was made: nothing was found, nothing selected.
    pub open spec fn not_run(self) -> bool {
        &&& self.status@ == "not_run"@
        &&& self.current_query_event_id@.len() == 0
        &&& self.error is None
        &&& self.query_kind == QueryKind::GeneralSemantic
        &&& self.warnings@.len() == 0
        &&& self.deadline_ms == 0
        &&& !self.deadline_exceeded
        &&& !self.fast_fallback_used
        &&& self.fallback_reason is None
        &&& self.elapsed_ms == 0
        &&& self.channels@.len() == 0
        &&& self.candidates@.len() == 0
        &&& self.fusion_candidates@.len() == 0
        &&& self.state_selections@.len() == 0
        &&& self.graph_paths@.len() == 0
        &&& self.selected_evidence@.len() == 0
        &&& self.config == (RetrievalConfig {
            candidate_limit: 64,
            max_selected: 8,
            evidence_char_budget: 4096,
            expansion_char_budget: 2048,
        })
        &&& self.budget_allocation.untouched()
    }
}

impl BudgetTokenBreakdown {
    pub open spec fn is_zero(self) -> bool {
        self == (BudgetTokenBreakdown {
            recent_history: 0,
            exact_or_state: 0,
            episode: 0,
            graph: 0,
        })
    }
}

impl BudgetAllocationTrace {
    /// Nothing was shared out yet.
    pub open spec fn untouched(self) -> bool {
        &&& self.query_kind == QueryKind::GeneralSemantic
        &&& self.recent_history_percent == 0
        &&& self.exact_or_state_percent == 0
        &&& self.episode_percent == 0
        &&& self.graph_percent == 0
        &&& self.mandatory_input_tokens == 0
        &&& self.available_input_tokens == 0
        &&& self.initial_tokens.is_zero()
        &&& self.actual_tokens.is_zero()
        &&& self.reflow@.len() == 0
        &&& self.exclusions@.len() == 0
        &&& self.probes@.len() == 0
        &&& self.stage_latencies@.len() == 0
        &&& self.final_input_tokens is None
    }
}

/// One exchange of a session.
#[derive(Clone, Debug, PartialEq, Eq)]
pub struct Turn {
    pub id: String,
    pub created_at: String,
    pub updated_at: String,
    pub status: TurnStatus,
    pub user_content: String,
    pub assistant_content: String,
    pub thinking: String,
    pub usage: TokenUsage,
    pub probe_usage: TokenUsage,
    pub context_trace: ContextTrace,
    pub request_started_at: Option<String>,
    pub done_reason: Option<String>,
    pub error: Option<String>,
}

impl Turn {
    /// Whether later turns may see this one: only answered turns count.
    pub open spec fn eligible(self) -> bool {
        self.status == TurnStatus::Complete
    }

    pub fn context_eligible(&self) -> (r: bool)
        ensures
            r == self.eligible(),
    {
        self.status == TurnStatus::Complete
    }
}

/// A conversation.
#[derive(Clone, Debug, PartialEq, Eq)]
pub struct Session {
    pub id: String,
    pub title: String,
    pub created_at: String,
    pub updated_at: String,
    pub model: String,
    pub ollama_host: String,
    pub ai_name: String,
    pub system_prompt: String,
    pub think: bool,
    pub status: SessionStatus,
    pub budget: BudgetConfig,
    pub retrieval: RetrievalConfig,
    pub active_context_start_index: usize,
    pub turns: Vec<Turn>,
}

/// The eligible turns among the first `n`, oldest first: those before the
/// current one, and not before the active start where that is respected.
pub open spec fn eligible_indices(
    turns: Seq<Turn>,
    current: Option<usize>,
    start: int,
    n: int,
) -> Seq<usize>
    decreases n,
{
    if n <= 0 {
        Seq::empty()
    } else {
        let rest = eligible_indices(turns, current, start, n - 1);
        if turns[n - 1].eligible() && start <= n - 1 && (current is Some ==> n - 1
            < current->0) {
            rest.push((n - 1) as usize)
        } else {
            rest
        }
    }
}

/// Every listed index is an eligible turn in range.
pub proof fn eligible_indices_sound(turns: Seq<Turn>, current: Option<usize>, start: int, n: int)
    requires
        0 <= n <= turns.len() <= usize::MAX,
    ensures
        forall|k: int|
            0 <= k < eligible_indices(turns, current, start, n).len() ==> {
                let i = #[trigger] eligible_indices(turns, current, start, n)[k];
                i < n && turns[i as int].eligible() && start <= i && (current is Some ==> i
                    < current->0)
            },
    decreases n,
{
    if n > 0 {
        eligible_indices_sound(turns, current, start, n - 1);
        let rest = eligible_indices(turns, current, start, n - 1);
        let all = eligible_indices(turns, current, start, n);
        assert forall|k: int| 0 <= k < all.len() implies {
            let i = #[trigger] all[k];
            i < n && turns[i as int].eligible() && start <= i && (current is Some ==> i < current->0)
        } by {
            if k < rest.len() {
                assert(all[k] == rest[k]);
            }
        }
    }
}

impl Session {
    pub open spec fn eligible_spec(self, current: Option<usize>, respect_start: bool) -> Seq<
        usize,
    > {
        eligible_indices(
            self.turns@,
            current,
            if respect_start {
                self.active_context_start_index as int
            } else {
                0
            },
            self.turns@.len() as int,
        )
    }

    /// The indices of the turns that may be part of the context.
    pub fn eligible_turns(&self, current: Option<usize>, respect_start: bool) -> (r: Vec<usize>)
        ensures
            r@ == self.eligible_spec(current, respect_start),
            forall|k: int| 0 <= k < r@.len() ==> (#[trigger] r@[k]) < self.turns@.len(),
    {
        let start: usize = if respect_start {
            self.active_context_start_index
        } else {
            0
        };
        let mut out: Vec<usize> = Vec::new();
        let mut i: usize = 0;
        while i < self.turns.len()
            invariant
                i <= self.turns@.len(),
                start == (if respect_start {
                    self.active_context_start_index as int
                } else {
                    0
                }),
                out@ == eligible_indices(self.turns@, current, start as int, i as int),
                forall|k: int| 0 <= k < out@.len() ==> (#[trigger] out@[k]) < self.turns@.len(),
            decreases self.turns.len() - i,
        {
            let before_current = match current {
                Some(index) => i < index,
                None => true,
            };
            if self.turns[i].context_eligible() && start <= i && before_current {
                out.push(i);
            }
            i += 1;
        }
        out
    }
}

/// The turns that may be part of a context are exactly the complete ones from the
/// start of the context on that lie before the current turn.
pub proof fn eligible_indices_are_complete(
    turns: Seq<Turn>,
    current: Option<usize>,
    start: int,
    n: int,
    i: usize,
)
    requires
        0 <= n <= turns.len() <= usize::MAX,
    ensures
        eligible_indices(turns, current, start, n).contains(i) <==> i < n && start <= i
            && turns[i as int].status == TurnStatus::Complete && (current matches Some(c) ==> i
            < c),
    decreases n,
{
    if n > 0 {
        eligible_indices_are_complete(turns, current, start, n - 1, i);
        let before = eligible_indices(turns, current, start, n - 1);
        let now = eligible_indices(turns, current, start, n);
        if now.contains(i) {
            let k = choose|k: int| 0 <= k < now.len() && now[k] == i;
            if k < before.len() {
                assert(before[k] == i);
            }
        }
        if before.contains(i) {
            let k = choose|k: int| 0 <= k < before.len() && before[k] == i;
            assert(now[k] == i);
        }
        if now.len() > before.len() {
            assert(now[before.len() as int] == (n - 1) as usize);
        }
    }
}

/// A sum of counts is known exactly where both are, and stays at the most that
/// can be counted.
pub proof fn counts_add_up(a: Option<u64>, b: Option<u64>)
    ensures
        count_sum(a, b) is Some <==> a is Some && b is Some,
        a is Some && b is Some && a->0 + b->0 <= u64::MAX ==> count_sum(a, b)->0 == a->0 + b->0,
        a is Some && b is Some && a->0 + b->0 > u64::MAX ==> count_sum(a, b)->0 == u64::MAX,
        count_sum(a, b) == count_sum(b, a),
{
}

} // verus!
