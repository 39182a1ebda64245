use hippocampus::digest::content_sha256;
use hippocampus::edges::{build_edges, edge_id, GraphSources};
use hippocampus::graph::{
    build_nodes, edge_name, node_id, parse_edge, parse_node_kind, rank_of_edge, EventRow,
    GraphBasis, GraphEdgeType, GraphNodeKind, LeafDocument, SourceRow,
};
use hippocampus::links::{add_edge, Provenance, WeightTerm};
use hippocampus::model::{RetrievalChannel, RetrievalDocumentGranularity};
use hippocampus::stored::{
    catalog_hash, catalog_is_current, check_refresh, graph_report, weigh_edge, CatalogDigests,
    CatalogMeta, GraphEdge, RefreshRefusal,
};
use hippocampus::walk::{
    check_seeds, choose_path, conclude_walk, incident_edges, list_paths, neighbourhood, place_edges,
    place_seeds, rank_targets, show_path, GraphRecallSeed, Step, Walk, WalkMeasures,
};

fn event(id: &str, sequence: i64, role: &str, content: &str, reply: Option<&str>) -> EventRow {
    EventRow {
        event_id: id.into(),
        session_id: "s".into(),
        sequence,
        role: role.into(),
        content: content.into(),
        content_sha256: content_sha256(content),
        reply_to_event_id: reply.map(|r| r.into()),
        turn_status: Some("complete".into()),
    }
}

fn leaf(id: &str, event: &str, content: &str) -> LeafDocument {
    LeafDocument {
        document_id: id.into(),
        session_id: "s".into(),
        source_event_id: event.into(),
        granularity: RetrievalDocumentGranularity::Message,
        start_char: 0,
        end_char: content.chars().count(),
        source_sha256: content_sha256(content),
        content: content.into(),
    }
}

fn basis() -> GraphBasis {
    build_nodes(
        &vec![
            event("e1", 1, "user", "alpha beta", None),
            event("e2", 2, "assistant", "gamma", Some("e1")),
        ],
        &vec![leaf("d1", "e1", "alpha beta"), leaf("d2", "e2", "gamma")],
        &vec![],
        &vec![SourceRow {
            source_id: "n1".into(),
            session_id: None,
            fields: vec![b"name".to_vec()],
        }],
        &vec![],
    )
    .unwrap()
}

fn sources() -> GraphSources {
    GraphSources {
        episode_members: vec![],
        mentions: vec![],
        leaf_terms: vec![vec![], vec![]],
        scores: vec![],
        runs: vec![],
        claim_evidence: vec![],
        transitions: vec![],
    }
}

#[test]
fn names_of_kinds_read_back() {
    for kind in [
        GraphEdgeType::Reply,
        GraphEdgeType::Adjacent,
        GraphEdgeType::EpisodeMember,
        GraphEdgeType::EntityMention,
        GraphEdgeType::SharedEntity,
        GraphEdgeType::KeywordCooccurrence,
        GraphEdgeType::EmbeddingMutualTopK,
        GraphEdgeType::CommonRecall,
        GraphEdgeType::Support,
        GraphEdgeType::Conflict,
        GraphEdgeType::Replacement,
    ] {
        assert_eq!(parse_edge(edge_name(kind)).unwrap(), kind);
    }
    assert!(parse_edge("friend").is_err());
    assert_eq!(parse_node_kind("entity"), Some(GraphNodeKind::Entity));
    assert_eq!(parse_node_kind("other"), None);
    assert!(rank_of_edge(GraphEdgeType::Reply) != rank_of_edge(GraphEdgeType::Adjacent));
}

#[test]
fn nodes_are_told_apart_by_kind_and_source() {
    assert!(node_id(GraphNodeKind::Entity, "x") != node_id(GraphNodeKind::Claim, "x"));
    assert!(node_id(GraphNodeKind::Entity, "x") != node_id(GraphNodeKind::Entity, "y"));
    let basis = basis();
    assert_eq!(basis.nodes.len(), 3);
    assert_eq!(basis.leaves.len(), 2);
    assert!(basis.nodes.windows(2).all(|w| w[0].id < w[1].id));
}

#[test]
fn leaves_need_their_events() {
    let error = build_nodes(
        &vec![event("e1", 1, "user", "alpha", None)],
        &vec![leaf("d1", "missing", "alpha")],
        &vec![],
        &vec![],
        &vec![],
    )
    .err()
    .unwrap();
    assert_eq!(error, "leaf 缺少事件");
    let mut damaged = event("e1", 1, "user", "alpha", None);
    damaged.content_sha256 = content_sha256("beta");
    assert!(build_nodes(&vec![damaged], &vec![], &vec![], &vec![], &vec![]).is_err());
}

#[test]
fn neighbours_and_replies_are_linked() {
    let edges = build_edges(&basis(), &sources(), 32).unwrap();
    let kinds: Vec<&str> = edges.iter().map(|e| edge_name(e.kind)).collect();
    assert!(kinds.contains(&"reply"));
    assert!(kinds.contains(&"adjacent"));
    for e in &edges {
        assert_eq!(e.id, edge_id(e.kind, &e.source, &e.target));
        assert_eq!(e.provenance_sha256, content_sha256(&e.provenance_json));
    }
    assert!(edges.windows(2).all(|w| w[0].id != w[1].id));
}

#[test]
fn words_that_are_shared_link_messages() {
    let mut with_terms = sources();
    with_terms.leaf_terms = vec![vec!["harbour".into()], vec!["harbour".into()]];
    let edges = build_edges(&basis(), &with_terms, 32).unwrap();
    let shared = edges
        .iter()
        .find(|e| e.kind == GraphEdgeType::KeywordCooccurrence)
        .unwrap();
    assert_eq!(
        shared.terms,
        vec![WeightTerm::Share {
            shared: 1,
            union: 1
        }]
    );
}

#[test]
fn a_node_is_not_linked_with_itself() {
    let mut links = vec![];
    let nothing = || Provenance {
        record_ids: vec!["r".into()],
        spans: vec![],
        terms: vec![],
        reasons: vec![],
    };
    let _ = add_edge(
        &mut links,
        GraphEdgeType::Adjacent,
        "a",
        "a",
        false,
        WeightTerm::One,
        nothing(),
    );
    assert!(links.is_empty());
    add_edge(
        &mut links,
        GraphEdgeType::Adjacent,
        "b",
        "a",
        false,
        WeightTerm::One,
        nothing(),
    )
    .unwrap();
    assert_eq!((links[0].source.as_str(), links[0].target.as_str()), ("a", "b"));
}

fn edges() -> Vec<GraphEdge> {
    build_edges(&basis(), &sources(), 32)
        .unwrap()
        .into_iter()
        .map(|d| weigh_edge(d, 1.0f64.to_bits()).unwrap())
        .collect()
}

#[test]
fn weights_are_positive_numbers() {
    for bits in [0u64, (-1.0f64).to_bits(), f64::NAN.to_bits(), f64::INFINITY.to_bits()] {
        let draft = build_edges(&basis(), &sources(), 32).unwrap().remove(0);
        assert_eq!(weigh_edge(draft, bits).unwrap_err(), "图聚合边权重无效");
    }
}

#[test]
fn reports_count_what_is_stored() {
    let basis = basis();
    let edges = edges();
    let catalog = catalog_hash(&basis.nodes, &edges);
    assert_eq!(catalog.len(), 64);
    let report = graph_report(
        true,
        &basis.nodes,
        &edges,
        "src".into(),
        catalog,
        "fp".into(),
        "now".into(),
    );
    assert_eq!(report.node_count, 3);
    assert_eq!(report.edge_count, edges.len());
    let total: usize = report.node_counts.iter().map(|c| c.1).sum();
    assert_eq!(total, 3);
}

#[test]
fn a_catalog_is_current_or_damaged() {
    let digests = CatalogDigests {
        fingerprint: "f".into(),
        config_sha256: "c".into(),
        source_sha256: "s".into(),
        catalog_sha256: "k".into(),
    };
    let meta = |source: &str, nodes: i64| {
        Some(CatalogMeta {
            algorithm_version: 1,
            fingerprint: "f".into(),
            config_sha256: "c".into(),
            source_sha256: source.into(),
            catalog_sha256: "k".into(),
            node_count: nodes,
            edge_count: 1,
            materialized_at: "now".into(),
        })
    };
    assert_eq!(catalog_is_current(&None, &digests, 2, 1), Ok(false));
    assert_eq!(catalog_is_current(&meta("other", 2), &digests, 2, 1), Ok(false));
    assert_eq!(catalog_is_current(&meta("s", 2), &digests, 2, 1), Ok(true));
    assert!(catalog_is_current(&meta("s", 3), &digests, 2, 1).is_err());
    assert_eq!(
        check_refresh("a", "b", "a", 1, 1),
        Err(RefreshRefusal::ControlStateChanged)
    );
    assert!(check_refresh("a", "a", "a", 1, 2).is_err());
    assert!(check_refresh("a", "a", "a", 2, 2).is_ok());
}

fn seed(rank: usize) -> GraphRecallSeed {
    GraphRecallSeed {
        channel: RetrievalChannel::Bm25,
        source_id: "d1".into(),
        document_id: Some("d1".into()),
        rank,
        score_bits: 1.0f64.to_bits(),
    }
}

#[test]
fn walks_reach_what_is_linked() {
    let basis = basis();
    let edges = edges();
    let seeds = vec![seed(1)];
    check_seeds(&seeds).unwrap();
    assert!(check_seeds(&vec![seed(0)]).is_err());
    let places = place_seeds(&seeds, &basis.nodes, None).unwrap();
    let steps = place_edges(&edges, &basis.nodes, None).unwrap();
    let near = neighbourhood(&steps, &places, basis.nodes.len(), 1);
    assert_eq!(near.iter().filter(|x| **x).count(), 2);
    let scores = vec![0.5f64.to_bits(); basis.nodes.len()];
    let targets = rank_targets(&basis.nodes, &near, &scores);
    assert_eq!(targets.len(), 2);
    let target = *targets.iter().find(|t| **t != places[0]).unwrap();
    let paths = list_paths(&steps, &places, target, 1);
    assert!(!paths.is_empty());
    let qualities = vec![1.0f64.to_bits(); paths.len()];
    let best = choose_path(&paths, &qualities, &seeds, &basis.nodes, &edges).unwrap();
    let measures = WalkMeasures {
        score_bits: scores[target],
        quality_bits: qualities[best],
        seed_mass_bits: 1.0f64.to_bits(),
    };
    let shown = show_path(&paths[best], &seeds, &basis.nodes, &edges, target, 1, measures);
    assert_eq!(shown.target_rank, 2);
    assert_eq!(shown.score_bits, 0.5f64.to_bits());
    assert_eq!(shown.target_document_id, "d2");
    assert_eq!(shown.seed_document_id, "d1");
    assert_eq!(shown.edge_ids.len(), 1);
    assert_eq!(shown.node_ids.len(), 2);
}

#[test]
fn a_walk_shows_the_best_path_to_each_document() {
    let basis = basis();
    let edges = edges();
    let seeds = vec![seed(1)];
    let places = place_seeds(&seeds, &basis.nodes, None).unwrap();
    let steps = place_edges(&edges, &basis.nodes, None).unwrap();
    let near = neighbourhood(&steps, &places, basis.nodes.len(), 1);
    let scores: Vec<u64> = (0..basis.nodes.len())
        .map(|i| if i == places[0] { 0.75f64 } else { 0.25 })
        .map(f64::to_bits)
        .collect();
    let targets = rank_targets(&basis.nodes, &near, &scores);
    assert_eq!(targets[0], places[0]);
    let qualities: Vec<Vec<u64>> = targets
        .iter()
        .map(|t| vec![1.0f64.to_bits(); list_paths(&steps, &places, *t, 1).len()])
        .collect();
    let walk = Walk {
        seeds: &seeds,
        nodes: &basis.nodes,
        edges: &edges,
        steps: &steps,
        places: &places,
        targets: &targets,
        depth: 1,
    };
    let masses = vec![1.0f64.to_bits()];
    let found = conclude_walk(&walk, &scores, &masses, &qualities, true);
    assert_eq!(found.warning, None);
    assert_eq!(found.paths.len(), 2);
    assert_eq!(found.paths[0].target_document_id, "d1");
    assert_eq!(found.paths[0].reason, "seed_document");
    assert_eq!(found.paths[0].target_rank, 1);
    assert_eq!(found.paths[0].edge_ids.len(), 0);
    assert_eq!(found.paths[1].target_document_id, "d2");
    assert_eq!(found.paths[1].target_rank, 2);
    assert_eq!(found.paths[1].edge_ids.len(), 1);
    assert!(found.paths[0].score_bits > found.paths[1].score_bits);
    assert_eq!(found.paths[1].seed_mass_bits, masses[0]);
    let unsettled = conclude_walk(&walk, &scores, &masses, &qualities, false);
    assert_eq!(
        unsettled.warning.as_deref(),
        Some("graph PPR did not converge after 50 iterations")
    );
}

#[test]
fn a_limited_walk_stays_in_its_session() {
    let mut basis = basis();
    let edges = edges();
    let seeds = vec![seed(1)];
    for node in &mut basis.nodes {
        if node.source_id == "d2" {
            node.session_id = Some("elsewhere".into());
        }
    }
    let places = place_seeds(&seeds, &basis.nodes, Some("s")).unwrap();
    assert!(place_seeds(&seeds, &basis.nodes, Some("elsewhere")).is_err());
    let steps = place_edges(&edges, &basis.nodes, Some("s")).unwrap();
    let near = neighbourhood(&steps, &places, basis.nodes.len(), 2);
    let scores = vec![0.5f64.to_bits(); basis.nodes.len()];
    let targets = rank_targets(&basis.nodes, &near, &scores);
    let qualities: Vec<Vec<u64>> = targets
        .iter()
        .map(|t| vec![1.0f64.to_bits(); list_paths(&steps, &places, *t, 2).len()])
        .collect();
    let walk = Walk {
        seeds: &seeds,
        nodes: &basis.nodes,
        edges: &edges,
        steps: &steps,
        places: &places,
        targets: &targets,
        depth: 2,
    };
    let found = conclude_walk(&walk, &scores, &vec![1.0f64.to_bits()], &qualities, true);
    assert_eq!(found.paths.len(), 1);
    assert!(found.paths.iter().all(|p| p.target_session_id == "s"));
}

#[test]
fn paths_take_no_more_edges_than_allowed() {
    let step = |source, target| Step {
        source,
        target,
        usable: true,
    };
    let steps = vec![step(0, 1), step(1, 2)];
    assert!(list_paths(&steps, &vec![0], 2, 1).is_empty());
    let paths = list_paths(&steps, &vec![0], 2, 2);
    assert_eq!(paths.len(), 1);
    assert_eq!(paths[0].nodes, vec![0, 1, 2]);
    assert_eq!(incident_edges(&steps, 1), vec![0, 1]);
    assert_eq!(neighbourhood(&steps, &vec![0], 3, 1), vec![true, true, false]);
}
