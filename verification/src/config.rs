//! Configuration of the assistant, its memory and its knowledge base.

use vstd::prelude::*;
use vstd::string::*;

use crate::model::DEFAULT_SYSTEM_PROMPT;
use crate::text::{self, chars_of, debug_text, is_blank, text_eq};

verus! {

pub const DEFAULT_CONFIG_FILENAME: &'static str = "config.toml";

pub const DEFAULT_AI_NAME: &'static str = "LLM";

/// Why a configuration is refused. Fields are named by their configuration key.
#[derive(Debug, PartialEq, Eq)]
pub enum ConfigError {
    /// A text that must say something is blank.
    Blank { field: &'static str },
    /// Only one configuration version is supported.
    UnsupportedVersion,
    /// A number lies outside its range.
    OutOfRange { field: &'static str },
    /// The shares of a budget do not add up to one hundred.
    BudgetTotal { field: &'static str },
    /// A knowledge source identifier holds a character that is not allowed.
    SourceId,
    /// A knowledge source has no location.
    SourceLocation { id: String },
    /// Two knowledge sources share an identifier.
    DuplicateSource { id: String },
}

/// The range of a number, by its configuration key; the limits on candidates
/// share one.
pub open spec fn range_of(field: Seq<char>) -> Seq<char> {
    if field == "memory.embedding_dimensions"@ {
        "32..=4096"@
    } else if field == "memory.embedding_batch_size"@ {
        "1..=256"@
    } else if field == "memory.search_timeout_ms"@ {
        "1..=60000"@
    } else if field == "memory.max_graph_depth"@ {
        "1..=2"@
    } else if field == "memory.rrf_k"@ {
        "1..=1000"@
    } else if field == "memory.consolidation_timeout_secs"@ || field == "memory.embedding_timeout_secs"@ {
        "1..=3600"@
    } else if field == "memory.episode_gap_minutes"@ {
        "1..=1440"@
    } else if field == "memory.hnsw_m"@ {
        "2..=64"@
    } else if field == "memory.hnsw_ef_construction"@ {
        "hnsw_m..=4096"@
    } else if field == "memory.hnsw_ef_search"@ {
        "1..=4096"@
    } else if field == "knowledge.max_selected"@ {
        "1..=candidate_limit"@
    } else if field == "knowledge.evidence_char_budget"@ {
        "1..=32768"@
    } else {
        "1..=512"@
    }
}

fn find_range(field: &str) -> (r: &'static str)
    ensures
        r@ == range_of(field@),
{
    if text_eq(field, "memory.embedding_dimensions") {
        "32..=4096"
    } else if text_eq(field, "memory.embedding_batch_size") {
        "1..=256"
    } else if text_eq(field, "memory.search_timeout_ms") {
        "1..=60000"
    } else if text_eq(field, "memory.max_graph_depth") {
        "1..=2"
    } else if text_eq(field, "memory.rrf_k") {
        "1..=1000"
    } else if text_eq(field, "memory.consolidation_timeout_secs") || text_eq(field, "memory.embedding_timeout_secs") {
        "1..=3600"
    } else if text_eq(field, "memory.episode_gap_minutes") {
        "1..=1440"
    } else if text_eq(field, "memory.hnsw_m") {
        "2..=64"
    } else if text_eq(field, "memory.hnsw_ef_construction") {
        "hnsw_m..=4096"
    } else if text_eq(field, "memory.hnsw_ef_search") {
        "1..=4096"
    } else if text_eq(field, "knowledge.max_selected") {
        "1..=candidate_limit"
    } else if text_eq(field, "knowledge.evidence_char_budget") {
        "1..=32768"
    } else {
        "1..=512"
    }
}

/// What a refusal says.
pub open spec fn refusal_text(e: ConfigError) -> Seq<char> {
    match e {
        ConfigError::Blank { field } => field@ + " 不能为空"@,
        ConfigError::UnsupportedVersion => "memory.config_version 仅支持版本 1"@,
        ConfigError::OutOfRange { field } => field@ + " 必须在 "@ + range_of(field@)
            + " 之间"@,
        ConfigError::BudgetTotal { field } => field@ + " 的比例之和必须恰好为 100"@,
        ConfigError::SourceId =>
            "knowledge source id 必须是非空 ASCII 字母数字、点、下划线或短横线"@,
        ConfigError::SourceLocation { id } => "knowledge source "@ + text::debug_quoted(id@)
            + " 的 location 不能为空"@,
        ConfigError::DuplicateSource { id } => "knowledge.sources 包含重复 id "@
            + text::debug_quoted(id@),
    }
}

impl ConfigError {
    pub fn message(&self) -> (r: String)
        ensures
            r@ == refusal_text(*self),
    {
        match self {
            ConfigError::Blank { field } => {
                let mut out = (*field).to_owned();
                out.append(" 不能为空");
                out
            },
            ConfigError::UnsupportedVersion => "memory.config_version 仅支持版本 1".to_owned(),
            ConfigError::OutOfRange { field } => {
                let mut out = (*field).to_owned();
                out.append(" 必须在 ");
                out.append(find_range(*field));
                out.append(" 之间");
                out
            },
            ConfigError::BudgetTotal { field } => {
                let mut out = (*field).to_owned();
                out.append(" 的比例之和必须恰好为 100");
                out
            },
            ConfigError::SourceId =>
                "knowledge source id 必须是非空 ASCII 字母数字、点、下划线或短横线".to_owned(),
            ConfigError::SourceLocation { id } => {
                let mut out = "knowledge source ".to_owned();
                out.append(debug_text(id.as_str()).as_str());
                out.append(" 的 location 不能为空");
                out
            },
            ConfigError::DuplicateSource { id } => {
                let mut out = "knowledge.sources 包含重复 id ".to_owned();
                out.append(debug_text(id.as_str()).as_str());
                out
            },
        }
    }
}

/// Percentages by which the input tokens are shared out.
#[derive(Clone, Copy, Debug, PartialEq, Eq, Structural)]
pub struct MemoryBudgetConfig {
    pub recent_history: u8,
    pub exact_or_state: u8,
    pub episode: u8,
    pub graph: u8,
}

impl MemoryBudgetConfig {
    pub open spec fn total_spec(self) -> int {
        self.recent_history + self.exact_or_state + self.episode + self.graph
    }

    pub fn new(recent_history: u8, exact_or_state: u8, episode: u8, graph: u8) -> (r: Self)
        ensures
            r == (MemoryBudgetConfig { recent_history, exact_or_state, episode, graph }),
    {
        MemoryBudgetConfig { recent_history, exact_or_state, episode, graph }
    }

    pub fn total(self) -> (r: u16)
        ensures
            r == self.total_spec(),
    {
        self.recent_history as u16 + self.exact_or_state as u16 + self.episode as u16
            + self.graph as u16
    }
}

/// Budgets by kind of query.
#[derive(Clone, Copy, Debug, PartialEq, Eq, Structural)]
pub struct AdaptiveBudgetConfig {
    pub exact_fact: MemoryBudgetConfig,
    pub general_semantic: MemoryBudgetConfig,
    pub event_recap: MemoryBudgetConfig,
    pub temporal_state: MemoryBudgetConfig,
    pub multi_hop: MemoryBudgetConfig,
}

pub open spec fn default_budgets() -> AdaptiveBudgetConfig {
    AdaptiveBudgetConfig {
        exact_fact: MemoryBudgetConfig {
            recent_history: 45,
            exact_or_state: 40,
            episode: 5,
            graph: 10,
        },
        general_semantic: MemoryBudgetConfig {
            recent_history: 45,
            exact_or_state: 30,
            episode: 15,
            graph: 10,
        },
        event_recap: MemoryBudgetConfig {
            recent_history: 35,
            exact_or_state: 20,
            episode: 35,
            graph: 10,
        },
        temporal_state: MemoryBudgetConfig {
            recent_history: 35,
            exact_or_state: 35,
            episode: 15,
            graph: 15,
        },
        multi_hop: MemoryBudgetConfig {
            recent_history: 30,
            exact_or_state: 25,
            episode: 15,
            graph: 30,
        },
    }
}

impl Default for AdaptiveBudgetConfig {
    fn default() -> (r: Self)
        ensures
            r == default_budgets(),
    {
        AdaptiveBudgetConfig {
            exact_fact: MemoryBudgetConfig::new(45, 40, 5, 10),
            general_semantic: MemoryBudgetConfig::new(45, 30, 15, 10),
            event_recap: MemoryBudgetConfig::new(35, 20, 35, 10),
            temporal_state: MemoryBudgetConfig::new(35, 35, 15, 15),
            multi_hop: MemoryBudgetConfig::new(30, 25, 15, 30),
        }
    }
}

/// The outcome of checking a budget share by share.
pub open spec fn budget_fault(b: AdaptiveBudgetConfig) -> Option<Seq<char>> {
    if b.exact_fact.total_spec() != 100 {
        Some("memory.budgets.exact_fact"@)
    } else if b.general_semantic.total_spec() != 100 {
        Some("memory.budgets.general_semantic"@)
    } else if b.event_recap.total_spec() != 100 {
        Some("memory.budgets.event_recap"@)
    } else if b.temporal_state.total_spec() != 100 {
        Some("memory.budgets.temporal_state"@)
    } else if b.multi_hop.total_spec() != 100 {
        Some("memory.budgets.multi_hop"@)
    } else {
        None
    }
}

impl AdaptiveBudgetConfig {
    pub fn validate(&self) -> (r: Result<(), ConfigError>)
        ensures
            match budget_fault(*self) {
                None => r is Ok,
                Some(name) => r matches Err(ConfigError::BudgetTotal { field }) && field@ == name,
            },
    {
        if self.exact_fact.total() != 100 {
            return Err(ConfigError::BudgetTotal { field: "memory.budgets.exact_fact" });
        }
        if self.general_semantic.total() != 100 {
            return Err(ConfigError::BudgetTotal { field: "memory.budgets.general_semantic" });
        }
        if self.event_recap.total() != 100 {
            return Err(ConfigError::BudgetTotal { field: "memory.budgets.event_recap" });
        }
        if self.temporal_state.total() != 100 {
            return Err(ConfigError::BudgetTotal { field: "memory.budgets.temporal_state" });
        }
        if self.multi_hop.total() != 100 {
            return Err(ConfigError::BudgetTotal { field: "memory.budgets.multi_hop" });
        }
        Ok(())
    }
}

/// Settings of the derived memory.
#[derive(Debug, PartialEq, Eq)]
pub struct MemoryConfig {
    pub config_version: u32,
    pub enabled: bool,
    pub embedding_model: String,
    pub embedding_dimensions: usize,
    pub embedding_batch_size: usize,
    pub candidate_limit: usize,
    pub vector_candidate_limit: usize,
    pub graph_candidate_limit: usize,
    pub max_graph_depth: usize,
    pub rrf_k: usize,
    pub consolidation_timeout_secs: u64,
    pub embedding_timeout_secs: u64,
    pub search_timeout_ms: u64,
    pub episode_gap_minutes: u64,
    pub hnsw_m: usize,
    pub hnsw_ef_construction: usize,
    pub hnsw_ef_search: usize,
    pub budgets: AdaptiveBudgetConfig,
}

impl Clone for MemoryConfig {
    fn clone(&self) -> (r: Self)
        ensures
            r == *self,
    {
        MemoryConfig {
            config_version: self.config_version,
            enabled: self.enabled,
            embedding_model: self.embedding_model.clone(),
            embedding_dimensions: self.embedding_dimensions,
            embedding_batch_size: self.embedding_batch_size,
            candidate_limit: self.candidate_limit,
            vector_candidate_limit: self.vector_candidate_limit,
            graph_candidate_limit: self.graph_candidate_limit,
            max_graph_depth: self.max_graph_depth,
            rrf_k: self.rrf_k,
            consolidation_timeout_secs: self.consolidation_timeout_secs,
            embedding_timeout_secs: self.embedding_timeout_secs,
            search_timeout_ms: self.search_timeout_ms,
            episode_gap_minutes: self.episode_gap_minutes,
            hnsw_m: self.hnsw_m,
            hnsw_ef_construction: self.hnsw_ef_construction,
            hnsw_ef_search: self.hnsw_ef_search,
            budgets: self.budgets,
        }
    }
}

impl Default for MemoryConfig {
    fn default() -> (r: Self)
        ensures
            r.is_default(),
    {
        MemoryConfig {
            config_version: 1,
            enabled: false,
            embedding_model: "qwen3-embedding:8b".to_owned(),
            embedding_dimensions: 1024,
            embedding_batch_size: 16,
            candidate_limit: 64,
            vector_candidate_limit: 64,
            graph_candidate_limit: 32,
            max_graph_depth: 2,
            rrf_k: 60,
            consolidation_timeout_secs: 600,
            embedding_timeout_secs: 600,
            search_timeout_ms: 15000,
            episode_gap_minutes: 30,
            hnsw_m: 16,
            hnsw_ef_construction: 200,
            hnsw_ef_search: 64,
            budgets: AdaptiveBudgetConfig::default(),
        }
    }
}

/// The first rule that a memory configuration breaks.
pub enum MemoryFault {
    Version,
    EmbeddingModel,
    Range(Seq<char>),
    Budget(Seq<char>),
}

impl MemoryConfig {
    pub open spec fn is_default(self) -> bool {
        &&& self.config_version == 1
        &&& !self.enabled
        &&& self.embedding_model@ == "qwen3-embedding:8b"@
        &&& self.embedding_dimensions == 1024
        &&& self.embedding_batch_size == 16
        &&& self.candidate_limit == 64
        &&& self.vector_candidate_limit == 64
        &&& self.graph_candidate_limit == 32
        &&& self.max_graph_depth == 2
        &&& self.rrf_k == 60
        &&& self.consolidation_timeout_secs == 600
        &&& self.embedding_timeout_secs == 600
        &&& self.search_timeout_ms == 15000
        &&& self.episode_gap_minutes == 30
        &&& self.hnsw_m == 16
        &&& self.hnsw_ef_construction == 200
        &&& self.hnsw_ef_search == 64
        &&& self.budgets == default_budgets()
    }

    /// The first rule that this configuration breaks, if any.
    pub open spec fn fault(self) -> Option<MemoryFault> {
        if self.config_version != 1 {
            Some(MemoryFault::Version)
        } else if text::blank(self.embedding_model@) {
            Some(MemoryFault::EmbeddingModel)
        } else if !(32 <= self.embedding_dimensions <= 4096) {
            Some(MemoryFault::Range("memory.embedding_dimensions"@))
        } else if !(1 <= self.embedding_batch_size <= 256) {
            Some(MemoryFault::Range("memory.embedding_batch_size"@))
        } else if !(1 <= self.candidate_limit <= 512) {
            Some(MemoryFault::Range("memory.candidate_limit"@))
        } else if !(1 <= self.vector_candidate_limit <= 512) {
            Some(MemoryFault::Range("memory.vector_candidate_limit"@))
        } else if !(1 <= self.graph_candidate_limit <= 512) {
            Some(MemoryFault::Range("memory.graph_candidate_limit"@))
        } else if !(1 <= self.search_timeout_ms <= 60000) {
            Some(MemoryFault::Range("memory.search_timeout_ms"@))
        } else if !(1 <= self.max_graph_depth <= 2) {
            Some(MemoryFault::Range("memory.max_graph_depth"@))
        } else if !(1 <= self.rrf_k <= 1000) {
            Some(MemoryFault::Range("memory.rrf_k"@))
        } else if !(1 <= self.consolidation_timeout_secs <= 3600) {
            Some(MemoryFault::Range("memory.consolidation_timeout_secs"@))
        } else if !(1 <= self.embedding_timeout_secs <= 3600) {
            Some(MemoryFault::Range("memory.embedding_timeout_secs"@))
        } else if !(1 <= self.episode_gap_minutes <= 1440) {
            Some(MemoryFault::Range("memory.episode_gap_minutes"@))
        } else if !(2 <= self.hnsw_m <= 64) {
            Some(MemoryFault::Range("memory.hnsw_m"@))
        } else if !(self.hnsw_m <= self.hnsw_ef_construction <= 4096) {
            Some(MemoryFault::Range("memory.hnsw_ef_construction"@))
        } else if !(1 <= self.hnsw_ef_search <= 4096) {
            Some(MemoryFault::Range("memory.hnsw_ef_search"@))
        } else {
            match budget_fault(self.budgets) {
                Some(name) => Some(MemoryFault::Budget(name)),
                None => None,
            }
        }
    }

    /// Checks every setting; the error names the first that is wrong.
    pub fn validate(&self) -> (r: Result<(), ConfigError>)
        ensures
            memory_outcome(r, self.fault()),
    {
        if self.config_version != 1 {
            return Err(ConfigError::UnsupportedVersion);
        }
        if is_blank(self.embedding_model.as_str()) {
            return Err(ConfigError::Blank { field: "memory.embedding_model" });
        }
        if !(32 <= self.embedding_dimensions && self.embedding_dimensions <= 4096) {
            return Err(ConfigError::OutOfRange { field: "memory.embedding_dimensions" });
        }
        if !(1 <= self.embedding_batch_size && self.embedding_batch_size <= 256) {
            return Err(ConfigError::OutOfRange { field: "memory.embedding_batch_size" });
        }
        if !(1 <= self.candidate_limit && self.candidate_limit <= 512) {
            return Err(ConfigError::OutOfRange { field: "memory.candidate_limit" });
        }
        if !(1 <= self.vector_candidate_limit && self.vector_candidate_limit <= 512) {
            return Err(ConfigError::OutOfRange { field: "memory.vector_candidate_limit" });
        }
        if !(1 <= self.graph_candidate_limit && self.graph_candidate_limit <= 512) {
            return Err(ConfigError::OutOfRange { field: "memory.graph_candidate_limit" });
        }
        if !(1 <= self.search_timeout_ms && self.search_timeout_ms <= 60000) {
            return Err(ConfigError::OutOfRange { field: "memory.search_timeout_ms" });
        }
        if !(1 <= self.max_graph_depth && self.max_graph_depth <= 2) {
            return Err(ConfigError::OutOfRange { field: "memory.max_graph_depth" });
        }
        if !(1 <= self.rrf_k && self.rrf_k <= 1000) {
            return Err(ConfigError::OutOfRange { field: "memory.rrf_k" });
        }
        if !(1 <= self.consolidation_timeout_secs && self.consolidation_timeout_secs <= 3600) {
            return Err(ConfigError::OutOfRange { field: "memory.consolidation_timeout_secs" });
        }
        if !(1 <= self.embedding_timeout_secs && self.embedding_timeout_secs <= 3600) {
            return Err(ConfigError::OutOfRange { field: "memory.embedding_timeout_secs" });
        }
        if !(1 <= self.episode_gap_minutes && self.episode_gap_minutes <= 1440) {
            return Err(ConfigError::OutOfRange { field: "memory.episode_gap_minutes" });
        }
        if !(2 <= self.hnsw_m && self.hnsw_m <= 64) {
            return Err(ConfigError::OutOfRange { field: "memory.hnsw_m" });
        }
        if self.hnsw_ef_construction < self.hnsw_m || self.hnsw_ef_construction > 4096 {
            return Err(ConfigError::OutOfRange { field: "memory.hnsw_ef_construction" });
        }
        if !(1 <= self.hnsw_ef_search && self.hnsw_ef_search <= 4096) {
            return Err(ConfigError::OutOfRange { field: "memory.hnsw_ef_search" });
        }
        self.budgets.validate()
    }
}

/// How a fault of the memory settings is reported.
pub open spec fn memory_outcome(r: Result<(), ConfigError>, fault: Option<MemoryFault>) -> bool {
    match fault {
        None => r is Ok,
        Some(MemoryFault::Version) => r matches Err(ConfigError::UnsupportedVersion),
        Some(MemoryFault::EmbeddingModel) => r matches Err(ConfigError::Blank { field }) && field@
            == "memory.embedding_model"@,
        Some(MemoryFault::Range(name)) => r matches Err(ConfigError::OutOfRange { field })
            && field@ == name,
        Some(MemoryFault::Budget(name)) => r matches Err(ConfigError::BudgetTotal { field })
            && field@ == name,
    }
}

#[derive(Clone, Copy, Debug, PartialEq, Eq, Structural)]
pub enum KnowledgeSourceKind {
    Path,
}

/// One place that knowledge is read from.
#[derive(Debug, PartialEq, Eq)]
pub struct KnowledgeSourceConfig {
    pub id: String,
    pub kind: KnowledgeSourceKind,
    pub location: String,
}

impl Clone for KnowledgeSourceConfig {
    fn clone(&self) -> (r: Self)
        ensures
            r == *self,
    {
        KnowledgeSourceConfig {
            id: self.id.clone(),
            kind: self.kind,
            location: self.location.clone(),
        }
    }
}

/// ASCII letters and digits.
pub open spec fn ascii_alphanumeric(c: char) -> bool {
    let n = c as u32;
    (0x30 <= n <= 0x39) || (0x41 <= n <= 0x5a) || (0x61 <= n <= 0x7a)
}

/// The characters of an identifier: letters, digits, dot, underscore, hyphen.
pub open spec fn id_char(c: char) -> bool {
    ascii_alphanumeric(c) || c == '.' || c == '_' || c == '-'
}

pub fn is_ascii_alphanumeric(c: char) -> (r: bool)
    ensures
        r == ascii_alphanumeric(c),
{
    let n: u32 = c as u32;
    (0x30 <= n && n <= 0x39) || (0x41 <= n && n <= 0x5a) || (0x61 <= n && n <= 0x7a)
}

pub fn is_id_char(c: char) -> (r: bool)
    ensures
        r == id_char(c),
{
    is_ascii_alphanumeric(c) || c == '.' || c == '_' || c == '-'
}

/// A usable source identifier.
pub open spec fn source_id_ok(s: Seq<char>) -> bool {
    s.len() > 0 && forall|i: int| 0 <= i < s.len() ==> id_char(#[trigger] s[i])
}

/// The outcome of checking one source.
pub open spec fn source_outcome(s: KnowledgeSourceConfig, r: Result<(), ConfigError>) -> bool {
    if !source_id_ok(s.id@) {
        r matches Err(ConfigError::SourceId)
    } else if text::blank(s.location@) {
        r matches Err(ConfigError::SourceLocation { id }) && id@ == s.id@
    } else {
        r is Ok
    }
}

impl KnowledgeSourceConfig {
    pub fn validate(&self) -> (r: Result<(), ConfigError>)
        ensures
            source_outcome(*self, r),
    {
        let chars = chars_of(self.id.as_str());
        if chars.len() == 0 {
            return Err(ConfigError::SourceId);
        }
        let mut i: usize = 0;
        while i < chars.len()
            invariant
                chars@ == self.id@,
                i <= chars@.len(),
                forall|k: int| 0 <= k < i ==> id_char(#[trigger] self.id@[k]),
            decreases chars.len() - i,
        {
            if !is_id_char(chars[i]) {
                assert(!id_char(self.id@[i as int]));
                return Err(ConfigError::SourceId);
            }
            i += 1;
        }
        if is_blank(self.location.as_str()) {
            return Err(ConfigError::SourceLocation { id: self.id.clone() });
        }
        Ok(())
    }
}

/// Settings of the knowledge base.
#[derive(Clone, Debug, PartialEq, Eq)]
pub struct KnowledgeConfig {
    pub auto_sync: bool,
    pub candidate_limit: usize,
    pub max_selected: usize,
    pub evidence_char_budget: usize,
    pub sources: Vec<KnowledgeSourceConfig>,
}

impl KnowledgeConfig {
    /// No source, no synchronisation by itself, and the limits that hold where none are given.
    pub open spec fn is_default(self) -> bool {
        &&& !self.auto_sync
        &&& self.candidate_limit == 64
        &&& self.max_selected == 4
        &&& self.evidence_char_budget == 3200
        &&& self.sources@.len() == 0
    }
}

impl Default for KnowledgeConfig {
    fn default() -> (r: Self)
        ensures
            r.is_default(),
    {
        KnowledgeConfig {
            auto_sync: false,
            candidate_limit: 64,
            max_selected: 4,
            evidence_char_budget: 3200,
            sources: Vec::new(),
        }
    }
}

/// A source that repeats the identifier of an earlier one.
pub open spec fn repeats_source(s: Seq<KnowledgeSourceConfig>, i: int) -> bool {
    exists|j: int| 0 <= j < i && (#[trigger] s[j]).id@ == s[i].id@
}

/// A source that passes both the checks on itself and on repetition.
pub open spec fn source_fine(s: Seq<KnowledgeSourceConfig>, i: int) -> bool {
    source_id_ok(s[i].id@) && !text::blank(s[i].location@) && !repeats_source(s, i)
}

/// The outcome of checking the list of sources: the first that is not fine
/// decides.
pub open spec fn sources_outcome(s: Seq<KnowledgeSourceConfig>, r: Result<(), ConfigError>) -> bool {
    if forall|i: int| 0 <= i < s.len() ==> #[trigger] source_fine(s, i) {
        r is Ok
    } else {
        exists|i: int|
            0 <= i < s.len() && !(#[trigger] source_fine(s, i)) && (forall|j: int|
                0 <= j < i ==> #[trigger] source_fine(s, j)) && (if source_id_ok(s[i].id@)
                && !text::blank(s[i].location@) {
                r matches Err(ConfigError::DuplicateSource { id }) && id@ == s[i].id@
            } else {
                source_outcome(s[i], r)
            })
    }
}

impl KnowledgeConfig {
    pub open spec fn limits_fault(self) -> Option<Seq<char>> {
        if self.candidate_limit == 0 || self.candidate_limit > 512 {
            Some("knowledge.candidate_limit"@)
        } else if self.max_selected == 0 || self.max_selected > self.candidate_limit {
            Some("knowledge.max_selected"@)
        } else if self.evidence_char_budget == 0 || self.evidence_char_budget > 32768 {
            Some("knowledge.evidence_char_budget"@)
        } else {
            None
        }
    }

    pub open spec fn outcome(self, r: Result<(), ConfigError>) -> bool {
        match self.limits_fault() {
            Some(name) => r matches Err(ConfigError::OutOfRange { field }) && field@ == name,
            None => sources_outcome(self.sources@, r),
        }
    }

    /// Settings that pass every check.
    pub open spec fn valid(self) -> bool {
        self.limits_fault() is None && forall|i: int|
            0 <= i < self.sources@.len() ==> #[trigger] source_fine(self.sources@, i)
    }

    /// Checks limits and sources; the error names the first that is wrong.
    pub fn validate(&self) -> (r: Result<(), ConfigError>)
        ensures
            self.outcome(r),
            r is Ok <==> self.valid(),
    {
        if self.candidate_limit == 0 || self.candidate_limit > 512 {
            return Err(ConfigError::OutOfRange { field: "knowledge.candidate_limit" });
        }
        if self.max_selected == 0 || self.max_selected > self.candidate_limit {
            return Err(ConfigError::OutOfRange { field: "knowledge.max_selected" });
        }
        if self.evidence_char_budget == 0 || self.evidence_char_budget > 32768 {
            return Err(ConfigError::OutOfRange { field: "knowledge.evidence_char_budget" });
        }
        let mut i: usize = 0;
        while i < self.sources.len()
            invariant
                i <= self.sources@.len(),
                self.limits_fault() is None,
                forall|j: int| 0 <= j < i ==> #[trigger] source_fine(self.sources@, j),
            decreases self.sources.len() - i,
        {
            match self.sources[i].validate() {
                Err(error) => {
                    assert(!source_fine(self.sources@, i as int));
                    return Err(error);
                },
                Ok(_) => {},
            }
            let mut j: usize = 0;
            while j < i
                invariant
                    j <= i < self.sources@.len(),
                    self.limits_fault() is None,
                    forall|k: int| 0 <= k < i ==> #[trigger] source_fine(self.sources@, k),
                    source_outcome(self.sources@[i as int], Ok(())),
                    forall|k: int|
                        0 <= k < j ==> (#[trigger] self.sources@[k]).id@
                            != self.sources@[i as int].id@,
                decreases i - j,
            {
                if text_eq(self.sources[j].id.as_str(), self.sources[i].id.as_str()) {
                    assert(self.sources@[j as int].id@ == self.sources@[i as int].id@);
                    assert(repeats_source(self.sources@, i as int));
                    assert(!source_fine(self.sources@, i as int));
                    return Err(ConfigError::DuplicateSource { id: self.sources[i].id.clone() });
                }
                j += 1;
            }
            assert(!repeats_source(self.sources@, i as int));
            assert(source_fine(self.sources@, i as int));
            i += 1;
        }
        Ok(())
    }
}

/// The whole configuration.
#[derive(Clone, Debug, PartialEq, Eq)]
pub struct AppConfig {
    pub ai_name: Option<String>,
    pub system_prompt: String,
    pub knowledge: KnowledgeConfig,
    pub memory: MemoryConfig,
}

impl AppConfig {
    pub open spec fn is_default(self) -> bool {
        &&& self.ai_name is None
        &&& self.system_prompt@ == DEFAULT_SYSTEM_PROMPT@
        &&& self.knowledge.is_default()
        &&& self.memory.is_default()
    }
}

impl Default for AppConfig {
    fn default() -> (r: Self)
        ensures
            r.is_default(),
    {
        AppConfig {
            ai_name: None,
            system_prompt: DEFAULT_SYSTEM_PROMPT.to_owned(),
            knowledge: KnowledgeConfig::default(),
            memory: MemoryConfig::default(),
        }
    }
}

/// A configuration with the path it was read from.
#[derive(Clone, Debug, PartialEq, Eq)]
pub struct LoadedConfig {
    pub config: AppConfig,
    pub path: Option<String>,
}

impl AppConfig {
    /// The name the assistant goes by.
    pub open spec fn ai_name_spec(self) -> Seq<char> {
        match self.ai_name {
            Some(name) => name@,
            None => DEFAULT_AI_NAME@,
        }
    }

    pub fn ai_name(&self) -> (r: &str)
        ensures
            r@ == self.ai_name_spec(),
    {
        match &self.ai_name {
            Some(name) => name.as_str(),
            None => DEFAULT_AI_NAME,
        }
    }

    /// What comes of checking the name, then the knowledge settings, then the
    /// memory settings.
    pub open spec fn outcome(self, r: Result<(), ConfigError>) -> bool {
        if self.ai_name is Some && text::blank(self.ai_name->0@) {
            r matches Err(ConfigError::Blank { field }) && field@ == "ai_name"@
        } else if !self.knowledge.valid() {
            self.knowledge.outcome(r) && r is Err
        } else {
            memory_outcome(r, self.memory.fault())
        }
    }

    /// Checks the name, then the knowledge settings, then the memory settings.
    pub fn validate(&self) -> (r: Result<(), ConfigError>)
        ensures
            self.outcome(r),
    {
        match &self.ai_name {
            Some(name) => {
                if is_blank(name.as_str()) {
                    return Err(ConfigError::Blank { field: "ai_name" });
                }
            },
            None => {},
        }
        match self.knowledge.validate() {
            Err(error) => return Err(error),
            Ok(_) => {},
        }
        self.memory.validate()
    }

    /// Makes the location of every path source that is not absolute relative to
    /// the directory of the configuration file. Paths are joined by a slash.
    pub fn resolve_relative_sources(&mut self, base: &str)
        ensures
            final(self).ai_name == old(self).ai_name,
            final(self).system_prompt == old(self).system_prompt,
            final(self).memory == old(self).memory,
            final(self).knowledge.auto_sync == old(self).knowledge.auto_sync,
            final(self).knowledge.candidate_limit == old(self).knowledge.candidate_limit,
            final(self).knowledge.max_selected == old(self).knowledge.max_selected,
            final(self).knowledge.evidence_char_budget == old(
                self,
            ).knowledge.evidence_char_budget,
            final(self).knowledge.sources@.len() == old(self).knowledge.sources@.len(),
            forall|i: int|
                0 <= i < old(self).knowledge.sources@.len() ==> {
                    let before = old(self).knowledge.sources@[i];
                    let after = #[trigger] final(self).knowledge.sources@[i];
                    after.id == before.id && after.kind == before.kind && after.location@
                        == joined_path(base@, before.location@)
                },
    {
        let mut i: usize = 0;
        let ghost start = self.knowledge.sources@;
        while i < self.knowledge.sources.len()
            invariant
                i <= start.len(),
                self.ai_name == old(self).ai_name,
                self.system_prompt == old(self).system_prompt,
                self.memory == old(self).memory,
                self.knowledge.auto_sync == old(self).knowledge.auto_sync,
                self.knowledge.candidate_limit == old(self).knowledge.candidate_limit,
                self.knowledge.max_selected == old(self).knowledge.max_selected,
                self.knowledge.evidence_char_budget == old(self).knowledge.evidence_char_budget,
                start == old(self).knowledge.sources@,
                self.knowledge.sources@.len() == start.len(),
                forall|k: int|
                    i <= k < start.len() ==> #[trigger] self.knowledge.sources@[k] == start[k],
                forall|k: int|
                    0 <= k < i ==> {
                        let after = #[trigger] self.knowledge.sources@[k];
                        after.id == start[k].id && after.kind == start[k].kind && after.location@
                            == joined_path(base@, start[k].location@)
                    },
            decreases start.len() - i,
        {
            let mut source = self.knowledge.sources[i].clone();
            source.location = join_path(base, source.location.as_str());
            self.knowledge.sources.set(i, source);
            i += 1;
        }
    }
}

/// A path that starts at the root.
pub open spec fn absolute_path(p: Seq<char>) -> bool {
    p.len() > 0 && p[0] == '/'
}

/// A path as seen from a directory: absolute paths stay as they are.
pub open spec fn joined_path(base: Seq<char>, p: Seq<char>) -> Seq<char> {
    if absolute_path(p) {
        p
    } else if base.len() == 0 || base.last() == '/' {
        base + p
    } else {
        base + "/"@ + p
    }
}

pub fn join_path(base: &str, path: &str) -> (r: String)
    ensures
        r@ == joined_path(base@, path@),
{
    let chars = chars_of(path);
    if chars.len() > 0 && chars[0] == '/' {
        return path.to_owned();
    }
    let mut out = base.to_owned();
    let head = chars_of(base);
    if head.len() > 0 && head[head.len() - 1] != '/' {
        out.append("/");
    }
    out.append(path);
    out
}

/// A configuration file that does not exist leaves the defaults, and the
/// defaults pass every check.
pub proof fn default_settings_are_valid(config: AppConfig)
    requires
        config.is_default(),
    ensures
        config.memory.fault() is None,
        config.knowledge.valid(),
{
    reveal_strlit("qwen3-embedding:8b");
    assert(config.memory.embedding_model@[0] == 'q');
    assert(!text::white_space(config.memory.embedding_model@[0]));
}

/// Memory settings are accepted exactly where every number is in its range, the
/// model has a name and the shares of every kind of query make up a hundred.
pub proof fn accepted_memory_settings_are_in_range(c: MemoryConfig)
    ensures
        c.fault() is None <==> {
            &&& c.config_version == 1
            &&& exists|i: int|
                0 <= i < c.embedding_model@.len() && !text::white_space(
                    #[trigger] c.embedding_model@[i],
                )
            &&& 32 <= c.embedding_dimensions <= 4096
            &&& 1 <= c.embedding_batch_size <= 256
            &&& 1 <= c.candidate_limit <= 512
            &&& 1 <= c.vector_candidate_limit <= 512
            &&& 1 <= c.graph_candidate_limit <= 512
            &&& 1 <= c.search_timeout_ms <= 60000
            &&& 1 <= c.max_graph_depth <= 2
            &&& 1 <= c.rrf_k <= 1000
            &&& 1 <= c.consolidation_timeout_secs <= 3600
            &&& 1 <= c.embedding_timeout_secs <= 3600
            &&& 1 <= c.episode_gap_minutes <= 1440
            &&& 2 <= c.hnsw_m <= 64
            &&& c.hnsw_m <= c.hnsw_ef_construction <= 4096
            &&& 1 <= c.hnsw_ef_search <= 4096
            &&& shares_are_whole(c.budgets.exact_fact)
            &&& shares_are_whole(c.budgets.general_semantic)
            &&& shares_are_whole(c.budgets.event_recap)
            &&& shares_are_whole(c.budgets.temporal_state)
            &&& shares_are_whole(c.budgets.multi_hop)
        },
{
}

/// The shares of a kind of query make up a hundred percent.
pub open spec fn shares_are_whole(b: MemoryBudgetConfig) -> bool {
    b.recent_history + b.exact_or_state + b.episode + b.graph == 100
}

} // verus!
