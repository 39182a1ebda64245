//! The memory graph as it is stored: its digests, the checks on what is read
//! back, and the report on it.

use vstd::prelude::*;
use vstd::string::*;
use vstd::utf8::*;

use crate::digest::{self, content_sha256, push_le, push_le32, PartHasher};
use crate::edges::{self, edge_id, EdgeDraft};
use crate::graph::{
    self, edge_name, granularity_name, node_name, parse_edge, rank_of_edge, GraphEdgeType,
    GraphNode, GraphNodeKind, EDGE_RULES_VERSION, EMBEDDING_MUTUAL_MIN_BITS,
    EMBEDDING_MUTUAL_TOP_K, GRAPH_ALGORITHM_VERSION, GRAPH_SCHEMA_VERSION,
    KEYWORD_MIN_NORMALIZED_CHARS,
};
use crate::links::about;
use crate::moment::{self, utc_offset};
use crate::order::{self, stable_order, KeyPart};
use crate::text::{self, text_before, text_eq};

verus! {

/// An edge with its weight, as the bits of a double-precision number.
#[derive(Debug, PartialEq, Eq)]
pub struct GraphEdge {
    pub id: String,
    pub kind: GraphEdgeType,
    pub source: String,
    pub target: String,
    pub weight_bits: u64,
    pub directed: bool,
    pub provenance_json: String,
    pub provenance_sha256: String,
}

impl Clone for GraphEdge {
    fn clone(&self) -> (r: Self)
        ensures
            r == *self,
    {
        GraphEdge {
            id: self.id.clone(),
            kind: self.kind,
            source: self.source.clone(),
            target: self.target.clone(),
            weight_bits: self.weight_bits,
            directed: self.directed,
            provenance_json: self.provenance_json.clone(),
            provenance_sha256: self.provenance_sha256.clone(),
        }
    }
}

/// The bits of a finite number above zero.
pub open spec fn positive_bits(bits: u64) -> bool {
    0 < bits < 0x7ff0_0000_0000_0000
}

/// Gives an edge its weight, the sum of its terms.
pub fn weigh_edge(draft: EdgeDraft, weight_bits: u64) -> (r: Result<GraphEdge, String>)
    ensures
        match r {
            Ok(e) => positive_bits(weight_bits) && e == (GraphEdge {
                id: draft.id,
                kind: draft.kind,
                source: draft.source,
                target: draft.target,
                weight_bits,
                directed: draft.directed,
                provenance_json: draft.provenance_json,
                provenance_sha256: draft.provenance_sha256,
            }),
            Err(m) => !positive_bits(weight_bits) && m@ == "图聚合边权重无效"@,
        },
{
    if weight_bits == 0 || weight_bits >= 0x7ff0_0000_0000_0000 {
        return Err("图聚合边权重无效".to_owned());
    }
    Ok(
        GraphEdge {
            id: draft.id,
            kind: draft.kind,
            source: draft.source,
            target: draft.target,
            weight_bits,
            directed: draft.directed,
            provenance_json: draft.provenance_json,
            provenance_sha256: draft.provenance_sha256,
        },
    )
}

pub open spec fn number_bytes(n: int) -> Seq<u8> {
    digest::le_bytes(n as nat, 8)
}

/// What the digest of the settings covers.
pub open spec fn config_parts(fingerprint: Seq<char>, limit: usize) -> Seq<Seq<u8>> {
    seq![
        number_bytes(GRAPH_SCHEMA_VERSION as int),
        number_bytes(GRAPH_ALGORITHM_VERSION as int),
        encode_utf8(fingerprint),
        number_bytes(limit as int),
        number_bytes(EMBEDDING_MUTUAL_TOP_K as int),
        number_bytes(EMBEDDING_MUTUAL_MIN_BITS as int),
        number_bytes(KEYWORD_MIN_NORMALIZED_CHARS as int),
        number_bytes(EDGE_RULES_VERSION as int),
    ]
}

fn hash_number(hasher: &mut PartHasher, n: u64)
    requires
        old(hasher).wf(),
    ensures
        final(hasher).wf(),
        final(hasher).parts() == old(hasher).parts().push(number_bytes(n as int)),
{
    let mut bytes: Vec<u8> = Vec::new();
    push_le(&mut bytes, n);
    assert(bytes@ =~= number_bytes(n as int));
    hasher.part(bytes.as_slice());
}

/// The digest of the settings of the graph.
pub fn config_hash(candidate_limit: usize, fingerprint: &str) -> (r: String)
    ensures
        r@ == graph::parts_digest(
            "hippocampus.graph.config.v1"@,
            config_parts(fingerprint@, candidate_limit),
        ),
        digest::sha256_shape(r@),
{
    let mut hasher = PartHasher::new();
    hasher.part("hippocampus.graph.config.v1".as_bytes());
    hash_number(&mut hasher, GRAPH_SCHEMA_VERSION as u64);
    hash_number(&mut hasher, GRAPH_ALGORITHM_VERSION as u64);
    hasher.part(fingerprint.as_bytes());
    hash_number(&mut hasher, candidate_limit as u64);
    hash_number(&mut hasher, EMBEDDING_MUTUAL_TOP_K as u64);
    hash_number(&mut hasher, EMBEDDING_MUTUAL_MIN_BITS);
    hash_number(&mut hasher, KEYWORD_MIN_NORMALIZED_CHARS as u64);
    hash_number(&mut hasher, EDGE_RULES_VERSION as u64);
    assert(hasher.parts() =~= seq![encode_utf8("hippocampus.graph.config.v1"@)] + config_parts(
        fingerprint@,
        candidate_limit,
    ));
    hasher.finish()
}

/// An embedding as it is stored; the vector as the bits of single-precision
/// numbers.
#[derive(Debug, PartialEq, Eq)]
pub struct EmbeddingRecord {
    pub document_id: String,
    pub session_id: String,
    pub source_sha256: String,
    pub model: String,
    pub dimensions: usize,
    pub vector_bits: Vec<u32>,
}

pub open spec fn bit_parts(v: Seq<u32>) -> Seq<Seq<u8>> {
    Seq::new(v.len(), |i: int| digest::le_bytes(v[i] as nat, 4))
}

/// What the digest of the sources covers of an embedding.
pub open spec fn embedding_parts(e: EmbeddingRecord) -> Seq<Seq<u8>> {
    seq![
        encode_utf8(e.document_id@),
        encode_utf8(e.session_id@),
        encode_utf8(e.source_sha256@),
        encode_utf8(e.model@),
        number_bytes(e.dimensions as int),
    ] + bit_parts(e.vector_bits@)
}

pub open spec fn all_embedding_parts(v: Seq<EmbeddingRecord>, n: int) -> Seq<Seq<u8>>
    decreases n,
{
    if n <= 0 {
        Seq::empty()
    } else {
        all_embedding_parts(v, n - 1) + embedding_parts(v[n - 1])
    }
}

/// An answer and the record of how it was found, as bytes.
#[derive(Debug, PartialEq, Eq)]
pub struct RunRecord {
    pub answer_id: String,
    pub trace: Vec<u8>,
}

pub open spec fn run_parts(v: Seq<RunRecord>, n: int) -> Seq<Seq<u8>>
    decreases n,
{
    if n <= 0 {
        Seq::empty()
    } else {
        run_parts(v, n - 1).push(encode_utf8(v[n - 1].answer_id@)).push(v[n - 1].trace@)
    }
}

/// The digests that the sources of the graph are bound to.
#[derive(Debug, PartialEq, Eq)]
pub struct SourceBinding {
    pub control_generation_sha256: String,
    pub leaf_catalog_sha256: String,
    pub aggregate_catalog_sha256: String,
    pub fingerprint: String,
}

pub open spec fn binding_parts(b: SourceBinding) -> Seq<Seq<u8>> {
    seq![
        encode_utf8(b.control_generation_sha256@),
        encode_utf8(b.leaf_catalog_sha256@),
        encode_utf8(b.aggregate_catalog_sha256@),
        encode_utf8(b.fingerprint@),
    ]
}

/// What the digest of the sources covers.
pub open spec fn source_parts(
    b: SourceBinding,
    embeddings: Seq<EmbeddingRecord>,
    runs: Seq<RunRecord>,
    cells: Seq<Vec<u8>>,
) -> Seq<Seq<u8>> {
    binding_parts(b) + all_embedding_parts(embeddings, embeddings.len() as int) + run_parts(
        runs,
        runs.len() as int,
    ) + graph::byte_lists(cells)
}

fn hash_embedding(hasher: &mut PartHasher, e: &EmbeddingRecord)
    requires
        old(hasher).wf(),
    ensures
        final(hasher).wf(),
        final(hasher).parts() == old(hasher).parts() + embedding_parts(*e),
{
    let ghost start = hasher.parts();
    hasher.part(e.document_id.as_str().as_bytes());
    hasher.part(e.session_id.as_str().as_bytes());
    hasher.part(e.source_sha256.as_str().as_bytes());
    hasher.part(e.model.as_str().as_bytes());
    hash_number(hasher, e.dimensions as u64);
    let ghost front = seq![
        encode_utf8(e.document_id@),
        encode_utf8(e.session_id@),
        encode_utf8(e.source_sha256@),
        encode_utf8(e.model@),
        number_bytes(e.dimensions as int),
    ];
    let ghost all = bit_parts(e.vector_bits@);
    assert(hasher.parts() =~= start + front + all.take(0));
    let mut i: usize = 0;
    while i < e.vector_bits.len()
        invariant
            i <= e.vector_bits@.len(),
            hasher.wf(),
            all == bit_parts(e.vector_bits@),
            hasher.parts() == start + front + all.take(i as int),
        decreases e.vector_bits.len() - i,
    {
        let mut bytes: Vec<u8> = Vec::new();
        push_le32(&mut bytes, e.vector_bits[i]);
        assert(bytes@ =~= all[i as int]);
        hasher.part(bytes.as_slice());
        assert(hasher.parts() =~= start + front + all.take(i + 1));
        i += 1;
    }
    assert(hasher.parts() =~= start + embedding_parts(*e));
}

/// The digest of all that the graph is made from. `cells` holds the bytes of
/// the tables that it reads, cell by cell.
pub fn source_hash(
    binding: &SourceBinding,
    embeddings: &Vec<EmbeddingRecord>,
    runs: &Vec<RunRecord>,
    cells: &Vec<Vec<u8>>,
) -> (r: String)
    ensures
        r@ == graph::parts_digest(
            "hippocampus.graph.source.v1"@,
            source_parts(*binding, embeddings@, runs@, cells@),
        ),
        digest::sha256_shape(r@),
{
    let mut hasher = PartHasher::new();
    hasher.part("hippocampus.graph.source.v1".as_bytes());
    hasher.part(binding.control_generation_sha256.as_str().as_bytes());
    hasher.part(binding.leaf_catalog_sha256.as_str().as_bytes());
    hasher.part(binding.aggregate_catalog_sha256.as_str().as_bytes());
    hasher.part(binding.fingerprint.as_str().as_bytes());
    let ghost a = seq![encode_utf8("hippocampus.graph.source.v1"@)] + binding_parts(*binding);
    assert(hasher.parts() =~= a + all_embedding_parts(embeddings@, 0));
    let mut i: usize = 0;
    while i < embeddings.len()
        invariant
            i <= embeddings@.len(),
            hasher.wf(),
            hasher.parts() == a + all_embedding_parts(embeddings@, i as int),
        decreases embeddings.len() - i,
    {
        hash_embedding(&mut hasher, &embeddings[i]);
        assert(hasher.parts() =~= a + all_embedding_parts(embeddings@, i + 1));
        i += 1;
    }
    let ghost b = a + all_embedding_parts(embeddings@, embeddings@.len() as int);
    assert(hasher.parts() =~= b + run_parts(runs@, 0));
    let mut j: usize = 0;
    while j < runs.len()
        invariant
            j <= runs@.len(),
            hasher.wf(),
            hasher.parts() == b + run_parts(runs@, j as int),
        decreases runs.len() - j,
    {
        hasher.part(runs[j].answer_id.as_str().as_bytes());
        hasher.part(runs[j].trace.as_slice());
        assert(hasher.parts() =~= b + run_parts(runs@, j + 1));
        j += 1;
    }
    let ghost c = b + run_parts(runs@, runs@.len() as int);
    let ghost all = graph::byte_lists(cells@);
    assert(hasher.parts() =~= c + all.take(0));
    let mut k: usize = 0;
    while k < cells.len()
        invariant
            k <= cells@.len(),
            hasher.wf(),
            all == graph::byte_lists(cells@),
            hasher.parts() == c + all.take(k as int),
        decreases cells.len() - k,
    {
        hasher.part(cells[k].as_slice());
        assert(hasher.parts() =~= c + all.take(k + 1));
        k += 1;
    }
    assert(hasher.parts() =~= seq![encode_utf8("hippocampus.graph.source.v1"@)] + source_parts(
        *binding,
        embeddings@,
        runs@,
        cells@,
    ));
    hasher.finish()
}

pub open spec fn session_text(s: Option<String>) -> Seq<char> {
    match s {
        Some(session) => session@,
        None => ""@,
    }
}

pub open spec fn granularity_or_none(n: GraphNode) -> Seq<char> {
    match n.granularity {
        Some(g) => graph::granularity_text(g),
        None => ""@,
    }
}

/// What the digest of the graph covers of a node.
pub open spec fn node_parts(n: GraphNode) -> Seq<Seq<u8>> {
    seq![
        encode_utf8(n.id@),
        encode_utf8(graph::node_kind_text(n.kind)),
        encode_utf8(n.source_id@),
        encode_utf8(session_text(n.session_id)),
        encode_utf8(granularity_or_none(n)),
        encode_utf8(n.source_sha256@),
    ]
}

pub open spec fn flag_byte(b: bool) -> Seq<u8> {
    seq![
        if b {
            1u8
        } else {
            0u8
        },
    ]
}

/// What the digest of the graph covers of an edge.
pub open spec fn edge_parts(e: GraphEdge) -> Seq<Seq<u8>> {
    seq![
        encode_utf8(e.id@),
        encode_utf8(graph::edge_type_text(e.kind)),
        encode_utf8(e.source@),
        encode_utf8(e.target@),
        number_bytes(e.weight_bits as int),
        flag_byte(e.directed),
        encode_utf8(e.provenance_json@),
        encode_utf8(e.provenance_sha256@),
    ]
}

pub open spec fn all_node_parts(v: Seq<GraphNode>, n: int) -> Seq<Seq<u8>>
    decreases n,
{
    if n <= 0 {
        Seq::empty()
    } else {
        all_node_parts(v, n - 1) + node_parts(v[n - 1])
    }
}

pub open spec fn all_edge_parts(v: Seq<GraphEdge>, n: int) -> Seq<Seq<u8>>
    decreases n,
{
    if n <= 0 {
        Seq::empty()
    } else {
        all_edge_parts(v, n - 1) + edge_parts(v[n - 1])
    }
}

/// The digest of a graph.
pub open spec fn catalog_text(nodes: Seq<GraphNode>, edges: Seq<GraphEdge>) -> Seq<char> {
    graph::parts_digest(
        "hippocampus.graph.catalog.v1"@,
        all_node_parts(nodes, nodes.len() as int) + all_edge_parts(edges, edges.len() as int),
    )
}

fn hash_node(hasher: &mut PartHasher, n: &GraphNode)
    requires
        old(hasher).wf(),
    ensures
        final(hasher).wf(),
        final(hasher).parts() == old(hasher).parts() + node_parts(*n),
{
    let ghost start = hasher.parts();
    hasher.part(n.id.as_str().as_bytes());
    hasher.part(node_name(n.kind).as_bytes());
    hasher.part(n.source_id.as_str().as_bytes());
    match &n.session_id {
        Some(session) => hasher.part(session.as_str().as_bytes()),
        None => hasher.part("".as_bytes()),
    }
    match n.granularity {
        Some(g) => hasher.part(granularity_name(g).as_bytes()),
        None => hasher.part("".as_bytes()),
    }
    hasher.part(n.source_sha256.as_str().as_bytes());
    assert(hasher.parts() =~= start + node_parts(*n));
}

fn hash_edge(hasher: &mut PartHasher, e: &GraphEdge)
    requires
        old(hasher).wf(),
    ensures
        final(hasher).wf(),
        final(hasher).parts() == old(hasher).parts() + edge_parts(*e),
{
    let ghost start = hasher.parts();
    hasher.part(e.id.as_str().as_bytes());
    hasher.part(edge_name(e.kind).as_bytes());
    hasher.part(e.source.as_str().as_bytes());
    hasher.part(e.target.as_str().as_bytes());
    hash_number(hasher, e.weight_bits);
    let mut flag: Vec<u8> = Vec::new();
    flag.push(
        if e.directed {
            1
        } else {
            0
        },
    );
    assert(flag@ =~= flag_byte(e.directed));
    hasher.part(flag.as_slice());
    hasher.part(e.provenance_json.as_str().as_bytes());
    hasher.part(e.provenance_sha256.as_str().as_bytes());
    assert(hasher.parts() =~= start + edge_parts(*e));
}

/// The digest of a graph.
pub fn catalog_hash(nodes: &Vec<GraphNode>, edges: &Vec<GraphEdge>) -> (r: String)
    ensures
        r@ == catalog_text(nodes@, edges@),
        digest::sha256_shape(r@),
{
    let mut hasher = PartHasher::new();
    hasher.part("hippocampus.graph.catalog.v1".as_bytes());
    let ghost a = seq![encode_utf8("hippocampus.graph.catalog.v1"@)];
    assert(hasher.parts() =~= a + all_node_parts(nodes@, 0));
    let mut i: usize = 0;
    while i < nodes.len()
        invariant
            i <= nodes@.len(),
            hasher.wf(),
            hasher.parts() == a + all_node_parts(nodes@, i as int),
        decreases nodes.len() - i,
    {
        hash_node(&mut hasher, &nodes[i]);
        assert(hasher.parts() =~= a + all_node_parts(nodes@, i + 1));
        i += 1;
    }
    let ghost b = a + all_node_parts(nodes@, nodes@.len() as int);
    assert(hasher.parts() =~= b + all_edge_parts(edges@, 0));
    let mut j: usize = 0;
    while j < edges.len()
        invariant
            j <= edges@.len(),
            hasher.wf(),
            hasher.parts() == b + all_edge_parts(edges@, j as int),
        decreases edges.len() - j,
    {
        hash_edge(&mut hasher, &edges[j]);
        assert(hasher.parts() =~= b + all_edge_parts(edges@, j + 1));
        j += 1;
    }
    assert(hasher.parts() =~= a + (all_node_parts(nodes@, nodes@.len() as int) + all_edge_parts(
        edges@,
        edges@.len() as int,
    )));
    hasher.finish()
}

/// A row of the table of edges. `provenance_fault` says why the provenance
/// cannot be read, where that is so.
#[derive(Debug, PartialEq, Eq)]
pub struct EdgeRow {
    pub id: String,
    pub edge_type: String,
    pub source: String,
    pub target: String,
    pub weight_bits: u64,
    pub directed: i64,
    pub provenance_json: String,
    pub provenance_sha256: String,
    pub provenance_fault: Option<String>,
}

/// What is wrong with a row of the table of edges.
pub open spec fn edge_row_fault(row: EdgeRow) -> Option<Seq<char>> {
    let replacement = graph::edge_type_named(row.edge_type@) == Some(GraphEdgeType::Replacement);
    if graph::edge_type_named(row.edge_type@) is None {
        Some("未知图边类型 "@ + row.edge_type@)
    } else if !positive_bits(row.weight_bits) {
        Some("图边 "@ + row.id@ + " 权重不是有限正数"@)
    } else if row.source@ == row.target@ {
        Some("图边 "@ + row.id@ + " 包含自环"@)
    } else if row.directed != 0 && row.directed != 1 {
        Some("图边 "@ + row.id@ + " directed 值无效"@)
    } else if (row.directed == 1) != replacement {
        Some("图边 "@ + row.id@ + " directed 与边类型不匹配"@)
    } else if row.directed == 0 && !text::text_lt(row.source@, row.target@) {
        Some("无向图边 "@ + row.id@ + " 端点未规范排序"@)
    } else if row.provenance_fault is Some {
        Some(row.provenance_fault->0@)
    } else if row.provenance_sha256@ != digest::text_digest(row.provenance_json@) {
        Some("图 provenance hash损坏"@)
    } else if row.id@ != edges::edge_id_text(
        graph::edge_type_named(row.edge_type@)->0,
        row.source@,
        row.target@,
    ) {
        Some("图边 "@ + row.id@ + " 的确定性 ID 损坏"@)
    } else {
        None
    }
}

/// The edge of a row.
pub open spec fn edge_of_row(row: EdgeRow) -> GraphEdge {
    GraphEdge {
        id: row.id,
        kind: graph::edge_type_named(row.edge_type@)->0,
        source: row.source,
        target: row.target,
        weight_bits: row.weight_bits,
        directed: row.directed == 1,
        provenance_json: row.provenance_json,
        provenance_sha256: row.provenance_sha256,
    }
}

fn check_edge_row(row: &EdgeRow) -> (r: Result<GraphEdge, String>)
    ensures
        match r {
            Ok(e) => edge_row_fault(*row) is None && e == edge_of_row(*row),
            Err(m) => edge_row_fault(*row) == Some(m@),
        },
{
    let kind = match parse_edge(row.edge_type.as_str()) {
        Ok(kind) => kind,
        Err(m) => return Err(m),
    };
    let id = row.id.as_str();
    if row.weight_bits == 0 || row.weight_bits >= 0x7ff0_0000_0000_0000 {
        return Err(about("图边 ", id, " 权重不是有限正数"));
    }
    if text_eq(row.source.as_str(), row.target.as_str()) {
        return Err(about("图边 ", id, " 包含自环"));
    }
    if row.directed != 0 && row.directed != 1 {
        return Err(about("图边 ", id, " directed 值无效"));
    }
    let directed = row.directed == 1;
    let replacement = kind == GraphEdgeType::Replacement;
    if directed != replacement {
        return Err(about("图边 ", id, " directed 与边类型不匹配"));
    }
    if !directed && !text_before(row.source.as_str(), row.target.as_str()) {
        return Err(about("无向图边 ", id, " 端点未规范排序"));
    }
    match &row.provenance_fault {
        Some(fault) => return Err(fault.clone()),
        None => {},
    }
    let hash = content_sha256(row.provenance_json.as_str());
    if !text_eq(row.provenance_sha256.as_str(), hash.as_str()) {
        return Err("图 provenance hash损坏".to_owned());
    }
    let expected = edge_id(kind, row.source.as_str(), row.target.as_str());
    if !text_eq(id, expected.as_str()) {
        return Err(about("图边 ", id, " 的确定性 ID 损坏"));
    }
    Ok(
        GraphEdge {
            id: row.id.clone(),
            kind,
            source: row.source.clone(),
            target: row.target.clone(),
            weight_bits: row.weight_bits,
            directed,
            provenance_json: row.provenance_json.clone(),
            provenance_sha256: row.provenance_sha256.clone(),
        },
    )
}

/// The first thing that is wrong with the first `n` rows.
pub open spec fn edge_rows_fault(rows: Seq<EdgeRow>, n: int) -> Option<Seq<char>>
    decreases n,
{
    if n <= 0 {
        None
    } else if edge_rows_fault(rows, n - 1) is Some {
        edge_rows_fault(rows, n - 1)
    } else {
        edge_row_fault(rows[n - 1])
    }
}

proof fn edge_rows_fault_stays(rows: Seq<EdgeRow>, k: int, n: int)
    requires
        k <= n,
        edge_rows_fault(rows, k) is Some,
    ensures
        edge_rows_fault(rows, n) == edge_rows_fault(rows, k),
    decreases n - k,
{
    if k < n {
        edge_rows_fault_stays(rows, k, n - 1);
    }
}

pub open spec fn edge_sort_keys(v: Seq<GraphEdge>) -> Seq<Seq<order::PartModel>> {
    Seq::new(
        v.len(),
        |i: int|
            seq![
                order::PartModel::Up(graph::edge_rank(v[i].kind)),
                order::PartModel::Text(v[i].source@),
                order::PartModel::Text(v[i].target@),
            ],
    )
}

/// Edges by kind and ends.
pub open spec fn sorted_edges(v: Seq<GraphEdge>) -> Seq<GraphEdge> {
    let by_ends = order::ordered(edge_sort_keys(v), v.len() as int);
    Seq::new(v.len(), |i: int| v[by_ends[i]])
}

pub open spec fn edges_of_rows(rows: Seq<EdgeRow>) -> Seq<GraphEdge> {
    Seq::new(rows.len(), |i: int| edge_of_row(rows[i]))
}

fn sort_edges(v: &Vec<GraphEdge>) -> (r: Vec<GraphEdge>)
    ensures
        r@ == sorted_edges(v@),
{
    let mut keys: Vec<Vec<KeyPart>> = Vec::new();
    let mut i: usize = 0;
    while i < v.len()
        invariant
            i <= v@.len(),
            keys@.len() == i,
            forall|k: int|
                0 <= k < i ==> order::key_model((#[trigger] keys@[k])@) == edge_sort_keys(v@)[k],
        decreases v.len() - i,
    {
        let mut key: Vec<KeyPart> = Vec::new();
        key.push(KeyPart::Up(rank_of_edge(v[i].kind)));
        key.push(KeyPart::Text(v[i].source.clone()));
        key.push(KeyPart::Text(v[i].target.clone()));
        assert(order::key_model(key@) =~= edge_sort_keys(v@)[i as int]);
        keys.push(key);
        i += 1;
    }
    assert(order::key_models(keys@) =~= edge_sort_keys(v@));
    let by_ends = stable_order(&keys);
    let ghost at = order::indices(by_ends@);
    let mut out: Vec<GraphEdge> = Vec::new();
    let mut j: usize = 0;
    while j < by_ends.len()
        invariant
            j <= by_ends@.len(),
            by_ends@.len() == v@.len(),
            out@.len() == j,
            at == order::indices(by_ends@),
            forall|k: int| 0 <= k < by_ends@.len() ==> #[trigger] by_ends@[k] < v@.len(),
            forall|k: int| 0 <= k < j ==> #[trigger] out@[k] == v@[at[k]],
        decreases by_ends.len() - j,
    {
        assert(at[j as int] == by_ends@[j as int]);
        out.push(v[by_ends[j]].clone());
        j += 1;
    }
    assert(out@ =~= sorted_edges(v@));
    out
}

/// Checks the rows of the table of edges.
pub fn read_edges(rows: &Vec<EdgeRow>) -> (r: Result<Vec<GraphEdge>, String>)
    ensures
        match r {
            Ok(v) => edge_rows_fault(rows@, rows@.len() as int) is None && v@ == sorted_edges(
                edges_of_rows(rows@),
            ),
            Err(m) => edge_rows_fault(rows@, rows@.len() as int) == Some(m@),
        },
{
    let mut out: Vec<GraphEdge> = Vec::new();
    let mut i: usize = 0;
    while i < rows.len()
        invariant
            i <= rows@.len(),
            out@.len() == i,
            edge_rows_fault(rows@, i as int) is None,
            forall|k: int| 0 <= k < i ==> #[trigger] out@[k] == edge_of_row(rows@[k]),
        decreases rows.len() - i,
    {
        match check_edge_row(&rows[i]) {
            Ok(e) => out.push(e),
            Err(m) => {
                proof {
                    edge_rows_fault_stays(rows@, i + 1, rows@.len() as int);
                }
                return Err(m);
            },
        }
        i += 1;
    }
    assert(out@ =~= edges_of_rows(rows@));
    Ok(sort_edges(&out))
}

/// What is stored about a graph as a whole.
#[derive(Debug, PartialEq, Eq)]
pub struct CatalogMeta {
    pub algorithm_version: i64,
    pub fingerprint: String,
    pub config_sha256: String,
    pub source_sha256: String,
    pub catalog_sha256: String,
    pub node_count: i64,
    pub edge_count: i64,
    pub materialized_at: String,
}

/// What a graph should be stored with.
#[derive(Debug, PartialEq, Eq)]
pub struct CatalogDigests {
    pub fingerprint: String,
    pub config_sha256: String,
    pub source_sha256: String,
    pub catalog_sha256: String,
}

/// Whether a stored graph was made with the same settings from the same sources.
pub open spec fn same_origin(m: CatalogMeta, d: CatalogDigests) -> bool {
    m.fingerprint@ == d.fingerprint@ && m.config_sha256@ == d.config_sha256@ && m.source_sha256@
        == d.source_sha256@
}

fn push_integer(out: &mut String, n: i64)
    ensures
        final(out)@ == old(out)@ + integer_text(n as int),
{
    if n < 0 {
        out.append("-");
        if n == i64::MIN {
            text::push_decimal(out, 9223372036854775808);
        } else {
            text::push_decimal(out, (-n) as u64);
        }
        assert(out@ =~= old(out)@ + integer_text(n as int));
    } else {
        text::push_decimal(out, n as u64);
    }
}

/// A number in decimal digits, with a sign where it is less than zero.
pub open spec fn integer_text(n: int) -> Seq<char> {
    if n < 0 {
        "-"@ + text::decimal((-n) as nat)
    } else {
        text::decimal(n as nat)
    }
}

/// What is wrong with a stored graph of the same origin.
pub open spec fn meta_fault(m: CatalogMeta, d: CatalogDigests, nodes: nat, edges: nat) -> Option<
    Seq<char>,
> {
    if m.algorithm_version != GRAPH_ALGORITHM_VERSION {
        Some(
            "图 materialization algorithm_version 异常："@ + integer_text(
                m.algorithm_version as int,
            ),
        )
    } else if m.catalog_sha256@ != d.catalog_sha256@ || m.node_count != nodes || m.edge_count
        != edges {
        Some("图 materialization catalog 或计数损坏"@)
    } else {
        None
    }
}

fn count_is(stored: i64, n: usize) -> (r: bool)
    ensures
        r == (stored == n),
{
    stored >= 0 && stored as u64 == n as u64
}

/// Whether a stored graph should be read back: it is there and of the same
/// origin. An error where what is stored about it cannot be right.
pub fn catalog_is_current(
    meta: &Option<CatalogMeta>,
    digests: &CatalogDigests,
    node_count: usize,
    edge_count: usize,
) -> (r: Result<bool, String>)
    ensures
        match *meta {
            Some(m) => if !same_origin(m, *digests) {
                r == Ok::<bool, String>(false)
            } else {
                match meta_fault(m, *digests, node_count as nat, edge_count as nat) {
                    Some(e) => r matches Err(text) && text@ == e,
                    None => r == Ok::<bool, String>(true),
                }
            },
            None => r == Ok::<bool, String>(false),
        },
{
    let m = match meta {
        Some(m) => m,
        None => return Ok(false),
    };
    if !text_eq(m.fingerprint.as_str(), digests.fingerprint.as_str()) || !text_eq(
        m.config_sha256.as_str(),
        digests.config_sha256.as_str(),
    ) || !text_eq(m.source_sha256.as_str(), digests.source_sha256.as_str()) {
        return Ok(false);
    }
    if m.algorithm_version != GRAPH_ALGORITHM_VERSION {
        let mut e = "图 materialization algorithm_version 异常：".to_owned();
        push_integer(&mut e, m.algorithm_version);
        return Err(e);
    }
    if !text_eq(m.catalog_sha256.as_str(), digests.catalog_sha256.as_str()) || !count_is(
        m.node_count,
        node_count,
    ) || !count_is(m.edge_count, edge_count) {
        return Err("图 materialization catalog 或计数损坏".to_owned());
    }
    Ok(true)
}

/// Edges that say the same.
pub open spec fn same_graph_edge(a: GraphEdge, b: GraphEdge) -> bool {
    &&& a.id@ == b.id@
    &&& a.kind == b.kind
    &&& a.source@ == b.source@
    &&& a.target@ == b.target@
    &&& a.weight_bits == b.weight_bits
    &&& a.directed == b.directed
    &&& a.provenance_json@ == b.provenance_json@
    &&& a.provenance_sha256@ == b.provenance_sha256@
}

pub open spec fn same_graph_edges(a: Seq<GraphEdge>, b: Seq<GraphEdge>) -> bool {
    a.len() == b.len() && forall|i: int|
        0 <= i < a.len() ==> same_graph_edge(#[trigger] a[i], b[i])
}

pub open spec fn same_graph_nodes(a: Seq<GraphNode>, b: Seq<GraphNode>) -> bool {
    a.len() == b.len() && forall|i: int|
        0 <= i < a.len() ==> graph::node_model(#[trigger] a[i]) == graph::node_model(b[i])
}

fn same_optional(a: &Option<String>, b: &Option<String>) -> (r: bool)
    ensures
        r == (text::opt_text(*a) == text::opt_text(*b)),
{
    match (a, b) {
        (Some(x), Some(y)) => text_eq(x.as_str(), y.as_str()),
        (None, None) => true,
        _ => false,
    }
}

fn same_granularity(a: &GraphNode, b: &GraphNode) -> (r: bool)
    ensures
        r == (a.granularity == b.granularity),
{
    match (a.granularity, b.granularity) {
        (Some(x), Some(y)) => x == y,
        (None, None) => true,
        _ => false,
    }
}

fn nodes_match(a: &Vec<GraphNode>, b: &Vec<GraphNode>) -> (r: bool)
    ensures
        r == same_graph_nodes(a@, b@),
{
    if a.len() != b.len() {
        return false;
    }
    let mut i: usize = 0;
    while i < a.len()
        invariant
            i <= a@.len(),
            a@.len() == b@.len(),
            forall|k: int|
                0 <= k < i ==> graph::node_model(#[trigger] a@[k]) == graph::node_model(b@[k]),
        decreases a.len() - i,
    {
        let x = &a[i];
        let y = &b[i];
        if !(x.kind == y.kind && text_eq(x.id.as_str(), y.id.as_str()) && text_eq(
            x.source_id.as_str(),
            y.source_id.as_str(),
        ) && same_optional(&x.session_id, &y.session_id) && same_granularity(x, y) && text_eq(
            x.source_sha256.as_str(),
            y.source_sha256.as_str(),
        )) {
            assert(graph::node_model(a@[i as int]) != graph::node_model(b@[i as int]));
            return false;
        }
        i += 1;
    }
    true
}

fn edges_match(a: &Vec<GraphEdge>, b: &Vec<GraphEdge>) -> (r: bool)
    ensures
        r == same_graph_edges(a@, b@),
{
    if a.len() != b.len() {
        return false;
    }
    let mut i: usize = 0;
    while i < a.len()
        invariant
            i <= a@.len(),
            a@.len() == b@.len(),
            forall|k: int| 0 <= k < i ==> same_graph_edge(#[trigger] a@[k], b@[k]),
        decreases a.len() - i,
    {
        let x = &a[i];
        let y = &b[i];
        if !(x.kind == y.kind && x.weight_bits == y.weight_bits && x.directed == y.directed
            && text_eq(x.id.as_str(), y.id.as_str()) && text_eq(
            x.source.as_str(),
            y.source.as_str(),
        ) && text_eq(x.target.as_str(), y.target.as_str()) && text_eq(
            x.provenance_json.as_str(),
            y.provenance_json.as_str(),
        ) && text_eq(x.provenance_sha256.as_str(), y.provenance_sha256.as_str())) {
            assert(!same_graph_edge(a@[i as int], b@[i as int]));
            return false;
        }
        i += 1;
    }
    true
}

/// What is wrong with a graph that was read back.
pub open spec fn audit_fault(
    actual_nodes: Seq<GraphNode>,
    actual_edges: Seq<GraphEdge>,
    nodes: Seq<GraphNode>,
    edges: Seq<GraphEdge>,
    catalog: Seq<char>,
    materialized_at: Seq<char>,
) -> Option<Seq<char>> {
    if !same_graph_nodes(actual_nodes, nodes) || !same_graph_edges(actual_edges, edges) {
        Some("持久化图节点或边与当前来源不一致"@)
    } else if catalog_text(actual_nodes, actual_edges) != catalog {
        Some("持久化图 catalog hash 损坏"@)
    } else if moment::rfc3339_offset(materialized_at) is None {
        Some("图 materialized_at 不是 RFC3339 时间"@)
    } else {
        None
    }
}

/// Holds a graph that was read back against the one that its sources make.
pub fn audit_catalog(
    actual_nodes: &Vec<GraphNode>,
    actual_edges: &Vec<GraphEdge>,
    nodes: &Vec<GraphNode>,
    edges: &Vec<GraphEdge>,
    catalog: &str,
    materialized_at: &str,
) -> (r: Result<(), String>)
    ensures
        match audit_fault(
            actual_nodes@,
            actual_edges@,
            nodes@,
            edges@,
            catalog@,
            materialized_at@,
        ) {
            Some(e) => r matches Err(m) && m@ == e,
            None => r is Ok,
        },
{
    if !nodes_match(actual_nodes, nodes) || !edges_match(actual_edges, edges) {
        return Err("持久化图节点或边与当前来源不一致".to_owned());
    }
    let actual = catalog_hash(actual_nodes, actual_edges);
    if !text_eq(actual.as_str(), catalog) {
        return Err("持久化图 catalog hash 损坏".to_owned());
    }
    if utc_offset(materialized_at).is_none() {
        return Err("图 materialized_at 不是 RFC3339 时间".to_owned());
    }
    Ok(())
}

/// What a graph consists of.
#[derive(Clone, Debug, PartialEq, Eq)]
pub struct GraphMaterializationReport {
    pub changed: bool,
    pub node_count: usize,
    pub edge_count: usize,
    pub node_counts: Vec<(GraphNodeKind, usize)>,
    pub edge_counts: Vec<(GraphEdgeType, usize)>,
    pub source_sha256: String,
    pub catalog_sha256: String,
    pub vector_index_fingerprint: String,
    pub materialized_at: String,
}

/// How many of the first `n` nodes are of a kind.
pub open spec fn nodes_of_kind(v: Seq<GraphNode>, kind: GraphNodeKind, n: int) -> nat
    decreases n,
{
    if n <= 0 {
        0
    } else if v[n - 1].kind == kind {
        nodes_of_kind(v, kind, n - 1) + 1
    } else {
        nodes_of_kind(v, kind, n - 1)
    }
}

pub open spec fn edges_of_kind(v: Seq<GraphEdge>, kind: GraphEdgeType, n: int) -> nat
    decreases n,
{
    if n <= 0 {
        0
    } else if v[n - 1].kind == kind {
        edges_of_kind(v, kind, n - 1) + 1
    } else {
        edges_of_kind(v, kind, n - 1)
    }
}

fn count_nodes(v: &Vec<GraphNode>, kind: GraphNodeKind) -> (r: usize)
    ensures
        r == nodes_of_kind(v@, kind, v@.len() as int),
{
    let mut n: usize = 0;
    let mut i: usize = 0;
    while i < v.len()
        invariant
            i <= v@.len(),
            n == nodes_of_kind(v@, kind, i as int),
            n <= i,
        decreases v.len() - i,
    {
        if v[i].kind == kind {
            n = n + 1;
        }
        i += 1;
    }
    n
}

fn count_edges(v: &Vec<GraphEdge>, kind: GraphEdgeType) -> (r: usize)
    ensures
        r == edges_of_kind(v@, kind, v@.len() as int),
{
    let mut n: usize = 0;
    let mut i: usize = 0;
    while i < v.len()
        invariant
            i <= v@.len(),
            n == edges_of_kind(v@, kind, i as int),
            n <= i,
        decreases v.len() - i,
    {
        if v[i].kind == kind {
            n = n + 1;
        }
        i += 1;
    }
    n
}

pub open spec fn node_count_row(v: Seq<GraphNode>, kind: GraphNodeKind) -> (GraphNodeKind, usize) {
    (kind, nodes_of_kind(v, kind, v.len() as int) as usize)
}

pub open spec fn edge_count_row(v: Seq<GraphEdge>, kind: GraphEdgeType) -> (GraphEdgeType, usize) {
    (kind, edges_of_kind(v, kind, v.len() as int) as usize)
}

/// The number of nodes of every kind.
pub open spec fn node_count_table(v: Seq<GraphNode>) -> Seq<(GraphNodeKind, usize)> {
    seq![
        node_count_row(v, GraphNodeKind::Document),
        node_count_row(v, GraphNodeKind::Entity),
        node_count_row(v, GraphNodeKind::Claim),
    ]
}

/// The number of edges of every type.
pub open spec fn edge_count_table(v: Seq<GraphEdge>) -> Seq<(GraphEdgeType, usize)> {
    seq![
        edge_count_row(v, GraphEdgeType::Reply),
        edge_count_row(v, GraphEdgeType::Adjacent),
        edge_count_row(v, GraphEdgeType::EpisodeMember),
        edge_count_row(v, GraphEdgeType::EntityMention),
        edge_count_row(v, GraphEdgeType::SharedEntity),
        edge_count_row(v, GraphEdgeType::KeywordCooccurrence),
        edge_count_row(v, GraphEdgeType::EmbeddingMutualTopK),
        edge_count_row(v, GraphEdgeType::CommonRecall),
        edge_count_row(v, GraphEdgeType::Support),
        edge_count_row(v, GraphEdgeType::Conflict),
        edge_count_row(v, GraphEdgeType::Replacement),
    ]
}

/// Reports on a graph.
pub fn graph_report(
    changed: bool,
    nodes: &Vec<GraphNode>,
    edges: &Vec<GraphEdge>,
    source_sha256: String,
    catalog_sha256: String,
    vector_index_fingerprint: String,
    materialized_at: String,
) -> (r: GraphMaterializationReport)
    ensures
        r.changed == changed,
        r.node_count == nodes@.len(),
        r.edge_count == edges@.len(),
        r.node_counts@ == node_count_table(nodes@),
        r.edge_counts@ == edge_count_table(edges@),
        r.source_sha256 == source_sha256,
        r.catalog_sha256 == catalog_sha256,
        r.vector_index_fingerprint == vector_index_fingerprint,
        r.materialized_at == materialized_at,
{
    let mut node_counts: Vec<(GraphNodeKind, usize)> = Vec::new();
    node_counts.push((GraphNodeKind::Document, count_nodes(nodes, GraphNodeKind::Document)));
    node_counts.push((GraphNodeKind::Entity, count_nodes(nodes, GraphNodeKind::Entity)));
    node_counts.push((GraphNodeKind::Claim, count_nodes(nodes, GraphNodeKind::Claim)));
    assert(node_counts@ =~= node_count_table(nodes@));
    let mut edge_counts: Vec<(GraphEdgeType, usize)> = Vec::new();
    push_count(&mut edge_counts, edges, GraphEdgeType::Reply);
    push_count(&mut edge_counts, edges, GraphEdgeType::Adjacent);
    push_count(&mut edge_counts, edges, GraphEdgeType::EpisodeMember);
    push_count(&mut edge_counts, edges, GraphEdgeType::EntityMention);
    push_count(&mut edge_counts, edges, GraphEdgeType::SharedEntity);
    push_count(&mut edge_counts, edges, GraphEdgeType::KeywordCooccurrence);
    push_count(&mut edge_counts, edges, GraphEdgeType::EmbeddingMutualTopK);
    push_count(&mut edge_counts, edges, GraphEdgeType::CommonRecall);
    push_count(&mut edge_counts, edges, GraphEdgeType::Support);
    push_count(&mut edge_counts, edges, GraphEdgeType::Conflict);
    push_count(&mut edge_counts, edges, GraphEdgeType::Replacement);
    assert(edge_counts@ =~= edge_count_table(edges@));
    GraphMaterializationReport {
        changed,
        node_count: nodes.len(),
        edge_count: edges.len(),
        node_counts,
        edge_counts,
        source_sha256,
        catalog_sha256,
        vector_index_fingerprint,
        materialized_at,
    }
}

fn push_count(out: &mut Vec<(GraphEdgeType, usize)>, edges: &Vec<GraphEdge>, kind: GraphEdgeType)
    ensures
        final(out)@ == old(out)@.push(edge_count_row(edges@, kind)),
{
    out.push((kind, count_edges(edges, kind)));
}

/// Every node is counted under exactly one kind.
pub proof fn node_counts_add_up(v: Seq<GraphNode>, n: int)
    requires
        0 <= n <= v.len(),
    ensures
        nodes_of_kind(v, GraphNodeKind::Document, n) + nodes_of_kind(v, GraphNodeKind::Entity, n)
            + nodes_of_kind(v, GraphNodeKind::Claim, n) == n,
    decreases n,
{
    if n > 0 {
        node_counts_add_up(v, n - 1);
    }
}

/// What a refresh of the graph finds out before it reads anything.
#[derive(Debug, PartialEq, Eq)]
pub enum RefreshRefusal {
    ControlStateChanged,
    Corrupt(String),
}

/// Whether the snapshots belong to the present state of the control log, and
/// every document has an embedding.
pub fn check_refresh(
    leaf_generation: &str,
    aggregate_generation: &str,
    generation: &str,
    document_count: i64,
    embedding_count: usize,
) -> (r: Result<(), RefreshRefusal>)
    ensures
        if leaf_generation@ != generation@ || aggregate_generation@ != generation@ {
            r matches Err(RefreshRefusal::ControlStateChanged)
        } else if document_count != embedding_count {
            r matches Err(RefreshRefusal::Corrupt(m)) && m@
                == "memory_documents 未被 compatible embeddings 完整覆盖"@
        } else {
            r is Ok
        },
{
    if !text_eq(leaf_generation, generation) || !text_eq(aggregate_generation, generation) {
        return Err(RefreshRefusal::ControlStateChanged);
    }
    if !count_is(document_count, embedding_count) {
        return Err(
            RefreshRefusal::Corrupt(
                "memory_documents 未被 compatible embeddings 完整覆盖".to_owned(),
            ),
        );
    }
    Ok(())
}

proof fn accepted_rows_are_free_of_faults(rows: Seq<EdgeRow>, n: int)
    requires
        0 <= n <= rows.len(),
    ensures
        edge_rows_fault(rows, n) is None <==> forall|i: int|
            0 <= i < n ==> edge_row_fault(#[trigger] rows[i]) is None,
    decreases n,
{
    if n > 0 {
        accepted_rows_are_free_of_faults(rows, n - 1);
        assert(edge_row_fault(rows[n - 1]) is None || rows[n - 1] == rows[n - 1]);
    }
}

/// Rows of edges are accepted exactly where each has a known kind, a finite weight
/// above zero, two different ends, a direction exactly where it is a replacement,
/// and otherwise its ends in order, provenance that reads and has its digest, and
/// the name that its kind and ends give.
pub proof fn accepted_edges_are_sound(rows: Seq<EdgeRow>)
    ensures
        edge_rows_fault(rows, rows.len() as int) is None <==> forall|i: int|
            0 <= i < rows.len() ==> {
                let row = #[trigger] rows[i];
                let kind = graph::edge_type_named(row.edge_type@);
                &&& kind is Some
                &&& 0 < row.weight_bits < 0x7ff0_0000_0000_0000
                &&& row.source@ != row.target@
                &&& row.directed == (if kind == Some(GraphEdgeType::Replacement) {
                    1int
                } else {
                    0
                })
                &&& kind != Some(GraphEdgeType::Replacement) ==> text::text_lt(
                    row.source@,
                    row.target@,
                )
                &&& row.provenance_fault is None
                &&& row.provenance_sha256@ == digest::text_digest(row.provenance_json@)
                &&& row.id@ == edges::edge_id_text(kind->0, row.source@, row.target@)
            },
{
    accepted_rows_are_free_of_faults(rows, rows.len() as int);
}

/// Stored edges stand by kind, then by source, then by target, and none is lost
/// or made up.
pub proof fn stored_edges_stand_in_order(v: Seq<GraphEdge>)
    ensures
        sorted_edges(v).len() == v.len(),
        forall|e: GraphEdge| #[trigger] sorted_edges(v).contains(e) <==> v.contains(e),
        forall|i: int, j: int|
            0 <= i < j < v.len() ==> {
                let a = #[trigger] sorted_edges(v)[i];
                let b = #[trigger] sorted_edges(v)[j];
                ||| graph::edge_rank(a.kind) < graph::edge_rank(b.kind)
                ||| graph::edge_rank(a.kind) == graph::edge_rank(b.kind) && (text::text_lt(
                    a.source@,
                    b.source@,
                ) || (a.source@ == b.source@ && !text::text_lt(b.target@, a.target@)))
            },
{
    let keys = edge_sort_keys(v);
    let n = v.len() as int;
    let at = order::ordered(keys, n);
    let w = sorted_edges(v);
    order::ordered_is_complete(keys, n);
    assert forall|a: int, b: int| 0 <= a < keys.len() && 0 <= b < keys.len() implies
        order::same_shape(#[trigger] keys[a], #[trigger] keys[b]) by {
        assert forall|x: int| 0 <= x < 3 implies order::comparable(
            #[trigger] keys[a][x],
            #[trigger] keys[b][x],
        ) by {
            assert(x == 0 || x == 1 || x == 2);
        }
    }
    order::ordered_is_sorted(keys, n);
    assert forall|e: GraphEdge| #[trigger] w.contains(e) <==> v.contains(e) by {
        if w.contains(e) {
            let i = choose|i: int| 0 <= i < w.len() && w[i] == e;
            assert(v[at[i]] == e);
        }
        if v.contains(e) {
            let k = choose|k: int| 0 <= k < v.len() && v[k] == e;
            assert(at.contains(k));
            let i = choose|i: int| 0 <= i < at.len() && at[i] == k;
            assert(w[i] == e);
        }
    }
    assert forall|i: int, j: int| 0 <= i < j < n implies {
        let a = #[trigger] w[i];
        let b = #[trigger] w[j];
        ||| graph::edge_rank(a.kind) < graph::edge_rank(b.kind)
        ||| graph::edge_rank(a.kind) == graph::edge_rank(b.kind) && (text::text_lt(
            a.source@,
            b.source@,
        ) || (a.source@ == b.source@ && !text::text_lt(b.target@, a.target@)))
    } by {
        let x = at[i];
        let y = at[j];
        assert(!order::key_lt(keys[y], keys[x], 0));
        assert(keys[x][0] == order::PartModel::Up(graph::edge_rank(v[x].kind)));
        assert(keys[y][0] == order::PartModel::Up(graph::edge_rank(v[y].kind)));
        assert(keys[x][1] == order::PartModel::Text(v[x].source@));
        assert(keys[y][1] == order::PartModel::Text(v[y].source@));
        assert(keys[x][2] == order::PartModel::Text(v[x].target@));
        assert(keys[y][2] == order::PartModel::Text(v[y].target@));
        reveal_with_fuel(order::key_lt, 4);
        text::text_lt_total(v[x].source@, v[y].source@);
        if text::text_lt(v[x].source@, v[y].source@) && text::text_lt(
            v[y].source@,
            v[x].source@,
        ) {
            text::text_lt_asymmetric(v[x].source@, v[y].source@);
        }
    }
}

} // verus!
