use hippocampus::config::{
    join_path, AdaptiveBudgetConfig, AppConfig, ConfigError, KnowledgeConfig,
    KnowledgeSourceConfig, KnowledgeSourceKind, LoadedConfig, MemoryBudgetConfig, MemoryConfig,
};

fn source(id: &str, location: &str) -> KnowledgeSourceConfig {
    KnowledgeSourceConfig {
        id: id.into(),
        kind: KnowledgeSourceKind::Path,
        location: location.into(),
    }
}

#[test]
fn missing_implicit_config_uses_safe_defaults() {
    let config = AppConfig::default();
    assert_eq!(config.ai_name(), "LLM");
    assert!(config.knowledge.sources.is_empty());
    assert!(!config.memory.enabled);
}

#[test]
fn strict_config_resolves_relative_paths() {
    let mut config = AppConfig::default();
    config.ai_name = Some("hippocampus".into());
    config.knowledge.auto_sync = true;
    config.memory.enabled = true;
    config.memory.embedding_model = "test-embedding".into();
    config.memory.embedding_dimensions = 768;
    config.knowledge.sources = vec![source("notes", "notes"), source("rooted", "/srv/notes")];
    config.validate().unwrap();
    config.resolve_relative_sources("/root/of/config");
    let loaded = LoadedConfig {
        config,
        path: Some("/root/of/config/custom.toml".into()),
    };
    assert_eq!(loaded.config.ai_name(), "hippocampus");
    assert!(loaded.config.memory.enabled);
    assert_eq!(loaded.config.memory.embedding_model, "test-embedding");
    assert_eq!(loaded.config.memory.embedding_dimensions, 768);
    assert_eq!(loaded.config.memory.embedding_batch_size, 16);
    assert_eq!(
        loaded.config.knowledge.sources[0].location,
        "/root/of/config/notes"
    );
    assert_eq!(loaded.config.knowledge.sources[1].location, "/srv/notes");
}

#[test]
fn rejects_unknown_fields_and_duplicate_sources() {
    let mut config = AppConfig::default();
    config.knowledge.sources = vec![source("same", "/one"), source("same", "/two")];
    assert!(config.validate().is_err());

    let mut empty_name = AppConfig::default();
    empty_name.ai_name = Some("   ".into());
    assert!(empty_name.validate().is_err());
}

#[test]
fn memory_defaults_match_the_version_one_table() {
    let memory = MemoryConfig::default();
    assert_eq!(memory.config_version, 1);
    assert_eq!(memory.embedding_model, "qwen3-embedding:8b");
    assert_eq!(memory.embedding_dimensions, 1_024);
    assert_eq!(memory.embedding_batch_size, 16);
    assert_eq!(memory.candidate_limit, 64);
    assert_eq!(memory.vector_candidate_limit, 64);
    assert_eq!(memory.graph_candidate_limit, 32);
    assert_eq!(memory.max_graph_depth, 2);
    assert_eq!(memory.rrf_k, 60);
    assert_eq!(memory.consolidation_timeout_secs, 600);
    assert_eq!(memory.embedding_timeout_secs, 600);
    assert_eq!(memory.search_timeout_ms, 15_000);
    assert_eq!(memory.episode_gap_minutes, 30);
    assert_eq!(memory.hnsw_m, 16);
    assert_eq!(memory.hnsw_ef_construction, 200);
    assert_eq!(memory.hnsw_ef_search, 64);
    assert_eq!(
        memory.budgets,
        AdaptiveBudgetConfig {
            exact_fact: MemoryBudgetConfig::new(45, 40, 5, 10),
            general_semantic: MemoryBudgetConfig::new(45, 30, 15, 10),
            event_recap: MemoryBudgetConfig::new(35, 20, 35, 10),
            temporal_state: MemoryBudgetConfig::new(35, 35, 15, 15),
            multi_hop: MemoryBudgetConfig::new(30, 25, 15, 30),
        }
    );
    memory.validate().unwrap();
}

#[test]
fn memory_validation_rejects_representative_invalid_values() {
    let invalid = [
        |memory: &mut MemoryConfig| memory.config_version = 2,
        |memory: &mut MemoryConfig| memory.embedding_dimensions = 31,
        |memory: &mut MemoryConfig| memory.embedding_batch_size = 0,
        |memory: &mut MemoryConfig| memory.graph_candidate_limit = 513,
        |memory: &mut MemoryConfig| memory.max_graph_depth = 3,
        |memory: &mut MemoryConfig| memory.rrf_k = 0,
        |memory: &mut MemoryConfig| memory.embedding_timeout_secs = 3_601,
        |memory: &mut MemoryConfig| memory.search_timeout_ms = 0,
        |memory: &mut MemoryConfig| memory.episode_gap_minutes = 0,
        |memory: &mut MemoryConfig| memory.hnsw_m = 1,
        |memory: &mut MemoryConfig| memory.hnsw_ef_search = 4_097,
    ];
    for mutate in invalid {
        let mut memory = MemoryConfig::default();
        mutate(&mut memory);
        assert!(memory.validate().is_err());
    }

    let blank_model = MemoryConfig {
        embedding_model: "   ".into(),
        ..MemoryConfig::default()
    };
    assert!(blank_model.validate().is_err());

    let construction_too_small = MemoryConfig {
        hnsw_ef_construction: 15,
        ..MemoryConfig::default()
    };
    assert!(construction_too_small.validate().is_err());

    let mut invalid_budget = MemoryConfig::default();
    invalid_budget.budgets.multi_hop.graph = 29;
    assert!(invalid_budget.validate().is_err());
}

#[test]
fn refusals_name_what_is_wrong() {
    let mut memory = MemoryConfig::default();
    memory.config_version = 2;
    assert_eq!(memory.validate(), Err(ConfigError::UnsupportedVersion));
    assert_eq!(
        ConfigError::UnsupportedVersion.message(),
        "memory.config_version 仅支持版本 1"
    );
    memory = MemoryConfig::default();
    memory.embedding_dimensions = 31;
    assert!(matches!(
        memory.validate(),
        Err(ConfigError::OutOfRange { .. })
    ));
    memory = MemoryConfig::default();
    memory.budgets.exact_fact.graph = 11;
    assert!(matches!(
        memory.validate(),
        Err(ConfigError::BudgetTotal { .. })
    ));
    let mut knowledge = KnowledgeConfig::default();
    knowledge.sources = vec![source("a b", "/one")];
    assert!(knowledge.validate().is_err());
    knowledge.sources = vec![source("ok-1_x", "  ")];
    assert_eq!(
        knowledge.validate().unwrap_err().message(),
        "knowledge source \"ok-1_x\" 的 location 不能为空"
    );
    knowledge.sources = vec![source("same", "/one"), source("same", "/two")];
    assert_eq!(
        knowledge.validate().unwrap_err().message(),
        "knowledge.sources 包含重复 id \"same\""
    );
    knowledge.sources = vec![source("ok-1_x", "/one")];
    knowledge.validate().unwrap();
}

#[test]
fn refusals_say_what_is_allowed() {
    let refused = |change: fn(&mut MemoryConfig)| {
        let mut memory = MemoryConfig::default();
        change(&mut memory);
        memory.validate().unwrap_err().message()
    };
    assert_eq!(
        refused(|m| m.embedding_dimensions = 31),
        "memory.embedding_dimensions 必须在 32..=4096 之间"
    );
    assert_eq!(
        refused(|m| m.embedding_batch_size = 257),
        "memory.embedding_batch_size 必须在 1..=256 之间"
    );
    assert_eq!(
        refused(|m| m.candidate_limit = 0),
        "memory.candidate_limit 必须在 1..=512 之间"
    );
    assert_eq!(
        refused(|m| m.search_timeout_ms = 60_001),
        "memory.search_timeout_ms 必须在 1..=60000 之间"
    );
    assert_eq!(
        refused(|m| m.max_graph_depth = 0),
        "memory.max_graph_depth 必须在 1..=2 之间"
    );
    assert_eq!(refused(|m| m.rrf_k = 1_001), "memory.rrf_k 必须在 1..=1000 之间");
    assert_eq!(
        refused(|m| m.consolidation_timeout_secs = 0),
        "memory.consolidation_timeout_secs 必须在 1..=3600 之间"
    );
    assert_eq!(
        refused(|m| m.episode_gap_minutes = 1_441),
        "memory.episode_gap_minutes 必须在 1..=1440 之间"
    );
    assert_eq!(refused(|m| m.hnsw_m = 65), "memory.hnsw_m 必须在 2..=64 之间");
    assert_eq!(
        refused(|m| m.hnsw_ef_construction = 15),
        "memory.hnsw_ef_construction 必须在 hnsw_m..=4096 之间"
    );
    assert_eq!(
        refused(|m| m.budgets.multi_hop.graph = 29),
        "memory.budgets.multi_hop 的比例之和必须恰好为 100"
    );
    assert_eq!(
        refused(|m| m.embedding_model = " ".into()),
        "memory.embedding_model 不能为空"
    );
    let mut knowledge = KnowledgeConfig::default();
    knowledge.max_selected = 0;
    assert_eq!(
        knowledge.validate().unwrap_err().message(),
        "knowledge.max_selected 必须在 1..=candidate_limit 之间"
    );
}

#[test]
fn shares_of_a_budget_add_up() {
    assert_eq!(MemoryBudgetConfig::new(255, 255, 255, 255).total(), 1020);
    assert_eq!(MemoryBudgetConfig::new(45, 40, 5, 10).total(), 100);
}

#[test]
fn a_rooted_path_replaces_its_base() {
    assert_eq!(join_path("/a", "b/c"), "/a/b/c");
    assert_eq!(join_path("/a", "/b"), "/b");
}

#[test]
fn nothing_is_looked_up_by_default() {
    let config = AppConfig::default();
    assert_eq!(config.ai_name, None);
    assert_eq!(config.knowledge, KnowledgeConfig::default());
    assert!(!config.knowledge.auto_sync);
    assert_eq!(config.knowledge.candidate_limit, 64);
    assert_eq!(config.knowledge.max_selected, 4);
    assert_eq!(config.knowledge.evidence_char_budget, 3_200);
    config.validate().unwrap();
}
