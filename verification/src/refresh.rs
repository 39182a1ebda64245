//! The refresh of the embedding catalog: which documents need a vector, in
//! which batches they are sent, how a long message is pooled from its windows,
//! and in which order the stages of a refresh run.

use vstd::prelude::*;
use vstd::string::*;

use crate::digest::{self, content_sha256};
use crate::model::RetrievalDocumentGranularity;
use crate::text::{self, chars_of, contains_text, push_decimal, sorted_set, text_eq};
use crate::windows::{self, window_ranges, WINDOW};

verus! {

#[derive(Clone, Copy, Debug, PartialEq, Eq, Structural)]
pub struct EmbeddingRefreshReport {
    pub leaf_documents: usize,
    pub leaf_reused: usize,
    pub leaf_embedded_inputs: usize,
    pub backend_batches: usize,
    pub aggregate_documents: usize,
    pub leaf_committed: bool,
}

#[derive(Clone, Copy, Debug, PartialEq, Eq, Structural)]
pub enum EmbeddingRefreshStage {
    LeafSnapshot,
    Planning,
    Backend,
    LeafPublish,
    Materialization,
    AggregateSnapshot,
    AggregatePublish,
}

/// What is wrong with a derived index.
#[derive(Debug)]
pub enum RetrievalFault {
    CorruptIndex(String),
    Other(String),
}

/// What is wrong with a vector.
#[derive(Debug)]
pub enum VectorFault {
    DimensionMismatch { expected: usize, actual: usize },
    Other(String),
}

#[allow(inconsistent_fields)]
#[derive(Debug)]
pub enum EmbeddingRefreshError {
    Disabled,
    Cancelled { stage: EmbeddingRefreshStage, batch: Option<usize> },
    Timeout { batch: usize, timeout_secs: u64 },
    Backend { batch: usize, message: String },
    InvalidResponse { batch: usize, message: String },
    InvalidConfig { message: String },
    Vector { document_id: String, fault: VectorFault },
    Retrieval { stage: EmbeddingRefreshStage, fault: RetrievalFault },
    Materialization { session_id: String, fault: RetrievalFault },
    TaskJoin { stage: EmbeddingRefreshStage, message: String },
}

pub open spec fn stage_text(stage: EmbeddingRefreshStage) -> Seq<char> {
    match stage {
        EmbeddingRefreshStage::LeafSnapshot => "LeafSnapshot"@,
        EmbeddingRefreshStage::Planning => "Planning"@,
        EmbeddingRefreshStage::Backend => "Backend"@,
        EmbeddingRefreshStage::LeafPublish => "LeafPublish"@,
        EmbeddingRefreshStage::Materialization => "Materialization"@,
        EmbeddingRefreshStage::AggregateSnapshot => "AggregateSnapshot"@,
        EmbeddingRefreshStage::AggregatePublish => "AggregatePublish"@,
    }
}

fn stage_name(stage: EmbeddingRefreshStage) -> (r: &'static str)
    ensures
        r@ == stage_text(stage),
{
    match stage {
        EmbeddingRefreshStage::LeafSnapshot => "LeafSnapshot",
        EmbeddingRefreshStage::Planning => "Planning",
        EmbeddingRefreshStage::Backend => "Backend",
        EmbeddingRefreshStage::LeafPublish => "LeafPublish",
        EmbeddingRefreshStage::Materialization => "Materialization",
        EmbeddingRefreshStage::AggregateSnapshot => "AggregateSnapshot",
        EmbeddingRefreshStage::AggregatePublish => "AggregatePublish",
    }
}

/// The batch that a refresh was at, if it had come to the batches.
pub open spec fn batch_text(batch: Option<usize>) -> Seq<char> {
    match batch {
        Some(n) => "Some("@ + text::decimal(n as nat) + ")"@,
        None => "None"@,
    }
}

pub open spec fn retrieval_fault_text(f: RetrievalFault) -> Seq<char> {
    match f {
        RetrievalFault::CorruptIndex(m) => m@,
        RetrievalFault::Other(m) => m@,
    }
}

impl RetrievalFault {
    pub fn message(&self) -> (r: &str)
        ensures
            r@ == retrieval_fault_text(*self),
    {
        match self {
            RetrievalFault::CorruptIndex(m) => m.as_str(),
            RetrievalFault::Other(m) => m.as_str(),
        }
    }
}

pub open spec fn vector_fault_text(f: VectorFault) -> Seq<char> {
    match f {
        VectorFault::DimensionMismatch { expected, actual } => "expected "@ + text::decimal(
            expected as nat,
        ) + " dimensions, got "@ + text::decimal(actual as nat),
        VectorFault::Other(m) => m@,
    }
}

impl VectorFault {
    pub fn message(&self) -> (r: String)
        ensures
            r@ == vector_fault_text(*self),
    {
        match self {
            VectorFault::DimensionMismatch { expected, actual } => {
                let mut out = "expected ".to_owned();
                push_decimal(&mut out, *expected as u64);
                out.append(" dimensions, got ");
                push_decimal(&mut out, *actual as u64);
                out
            },
            VectorFault::Other(m) => {
                let mut out = String::new();
                out.append(m.as_str());
                out
            },
        }
    }
}

pub open spec fn refresh_error_text(e: EmbeddingRefreshError) -> Seq<char> {
    match e {
        EmbeddingRefreshError::Disabled => "记忆嵌入功能未启用"@,
        EmbeddingRefreshError::Cancelled { stage, batch } => "嵌入刷新在 "@ + stage_text(stage)
            + " 阶段被取消（批次 "@ + batch_text(batch) + "）"@,
        EmbeddingRefreshError::Timeout { batch, timeout_secs } => "嵌入批次 "@ + text::decimal(
            batch as nat,
        ) + " 在 "@ + text::decimal(timeout_secs as nat) + " 秒后超时"@,
        EmbeddingRefreshError::Backend { batch, message } => "嵌入批次 "@ + text::decimal(
            batch as nat,
        ) + " 调用失败: "@ + message@,
        EmbeddingRefreshError::InvalidResponse { batch, message } => "嵌入批次 "@ + text::decimal(
            batch as nat,
        ) + " 返回无效响应: "@ + message@,
        EmbeddingRefreshError::InvalidConfig { message } => "嵌入配置无效: "@ + message@,
        EmbeddingRefreshError::Vector { document_id, fault } => "文档 "@ + document_id@
            + " 的向量无效: "@ + vector_fault_text(fault),
        EmbeddingRefreshError::Retrieval { stage, fault } => "嵌入刷新在 "@ + stage_text(stage)
            + " 阶段访问派生索引失败: "@ + retrieval_fault_text(fault),
        EmbeddingRefreshError::Materialization { session_id, fault } => "会话 "@ + session_id@
            + " 的 episode materialization 失败: "@ + retrieval_fault_text(fault),
        EmbeddingRefreshError::TaskJoin { stage, message } => "嵌入刷新在 "@ + stage_text(stage)
            + " 阶段的阻塞任务失败: "@ + message@,
    }
}

impl EmbeddingRefreshError {
    pub fn message(&self) -> (r: String)
        ensures
            r@ == refresh_error_text(*self),
    {
        match self {
            EmbeddingRefreshError::Disabled => "记忆嵌入功能未启用".to_owned(),
            EmbeddingRefreshError::Cancelled { stage, batch } => {
                let mut out = "嵌入刷新在 ".to_owned();
                out.append(stage_name(*stage));
                out.append(" 阶段被取消（批次 ");
                match batch {
                    Some(n) => {
                        out.append("Some(");
                        push_decimal(&mut out, *n as u64);
                        out.append(")");
                    },
                    None => out.append("None"),
                }
                out.append("）");
                assert(out@ =~= refresh_error_text(*self));
                out
            },
            EmbeddingRefreshError::Timeout { batch, timeout_secs } => {
                let mut out = "嵌入批次 ".to_owned();
                push_decimal(&mut out, *batch as u64);
                out.append(" 在 ");
                push_decimal(&mut out, *timeout_secs);
                out.append(" 秒后超时");
                out
            },
            EmbeddingRefreshError::Backend { batch, message } => {
                let mut out = "嵌入批次 ".to_owned();
                push_decimal(&mut out, *batch as u64);
                out.append(" 调用失败: ");
                out.append(message.as_str());
                out
            },
            EmbeddingRefreshError::InvalidResponse { batch, message } => {
                let mut out = "嵌入批次 ".to_owned();
                push_decimal(&mut out, *batch as u64);
                out.append(" 返回无效响应: ");
                out.append(message.as_str());
                out
            },
            EmbeddingRefreshError::InvalidConfig { message } => {
                let mut out = "嵌入配置无效: ".to_owned();
                out.append(message.as_str());
                out
            },
            EmbeddingRefreshError::Vector { document_id, fault } => {
                let mut out = "文档 ".to_owned();
                out.append(document_id.as_str());
                out.append(" 的向量无效: ");
                out.append(fault.message().as_str());
                out
            },
            EmbeddingRefreshError::Retrieval { stage, fault } => {
                let mut out = "嵌入刷新在 ".to_owned();
                out.append(stage_name(*stage));
                out.append(" 阶段访问派生索引失败: ");
                out.append(fault.message());
                out
            },
            EmbeddingRefreshError::Materialization { session_id, fault } => {
                let mut out = "会话 ".to_owned();
                out.append(session_id.as_str());
                out.append(" 的 episode materialization 失败: ");
                out.append(fault.message());
                out
            },
            EmbeddingRefreshError::TaskJoin { stage, message } => {
                let mut out = "嵌入刷新在 ".to_owned();
                out.append(stage_name(*stage));
                out.append(" 阶段的阻塞任务失败: ");
                out.append(message.as_str());
                out
            },
        }
    }
}

/// The error of a stage that finds the catalog corrupt.
pub open spec fn is_catalog_error(
    e: EmbeddingRefreshError,
    stage: EmbeddingRefreshStage,
    message: Seq<char>,
) -> bool {
    match e {
        EmbeddingRefreshError::Retrieval { stage: s, fault } => s == stage && (match fault {
            RetrievalFault::CorruptIndex(m) => m@ == message,
            RetrievalFault::Other(_) => false,
        }),
        _ => false,
    }
}

pub fn embedding_catalog_error(stage: EmbeddingRefreshStage, message: String) -> (r:
    EmbeddingRefreshError)
    ensures
        is_catalog_error(r, stage, message@),
{
    EmbeddingRefreshError::Retrieval { stage, fault: RetrievalFault::CorruptIndex(message) }
}

pub open spec fn is_cancelled(
    e: EmbeddingRefreshError,
    stage: EmbeddingRefreshStage,
    batch: Option<usize>,
) -> bool {
    e == (EmbeddingRefreshError::Cancelled { stage, batch })
}

/// Refuses to go on once a refresh is cancelled.
pub fn check_embedding_cancellation(
    cancelled: bool,
    stage: EmbeddingRefreshStage,
    batch: Option<usize>,
) -> (r: Result<(), EmbeddingRefreshError>)
    ensures
        r is Ok <==> !cancelled,
        r matches Err(e) ==> is_cancelled(e, stage, batch),
{
    if cancelled {
        Err(EmbeddingRefreshError::Cancelled { stage, batch })
    } else {
        Ok(())
    }
}

/// A document of the catalog that is embedded by itself. Vectors are lists of
/// bit patterns.
#[derive(Debug)]
pub struct LeafDocument {
    pub document_id: String,
    pub message_document_id: String,
    pub granularity: RetrievalDocumentGranularity,
    pub content: String,
    pub start_char: usize,
    pub end_char: usize,
    pub source_sha256: String,
    pub reusable_vector: Option<Vec<u32>>,
}

/// A vector kept for a content digest.
#[derive(Debug)]
pub struct CachedEmbedding {
    pub source_sha256: String,
    pub vector: Vec<u32>,
}

pub open spec fn opt_vector(v: Option<Vec<u32>>) -> Option<Seq<u32>> {
    match v {
        Some(x) => Some(x@),
        None => None,
    }
}

/// The vector cached for a digest, from position `i` on.
pub open spec fn cached_from(cached: Seq<CachedEmbedding>, digest: Seq<char>, i: int) -> Option<
    Seq<u32>,
>
    decreases cached.len() - i,
{
    if i < 0 || i >= cached.len() {
        None
    } else if cached[i].source_sha256@ == digest {
        Some(cached[i].vector@)
    } else {
        cached_from(cached, digest, i + 1)
    }
}

pub open spec fn is_leaf(d: LeafDocument) -> bool {
    d.granularity == RetrievalDocumentGranularity::Message || d.granularity
        == RetrievalDocumentGranularity::Fragment
}

/// Whether a document gets its vector from the backend rather than from its
/// windows.
pub open spec fn embedded_directly(d: LeafDocument) -> bool {
    d.granularity == RetrievalDocumentGranularity::Fragment || (d.granularity
        == RetrievalDocumentGranularity::Message && d.content@.len() <= 240)
}

/// The vector that a document already has: its own, else a cached one.
pub open spec fn known_vector(d: LeafDocument, cached: Seq<CachedEmbedding>) -> Option<Seq<u32>> {
    if !embedded_directly(d) {
        None
    } else if d.reusable_vector is Some {
        opt_vector(d.reusable_vector)
    } else {
        cached_from(cached, d.source_sha256@, 0)
    }
}

/// The documents among the first `n` that must be sent to the backend.
pub open spec fn pending_documents(
    documents: Seq<LeafDocument>,
    cached: Seq<CachedEmbedding>,
    n: int,
) -> Seq<usize>
    decreases n,
{
    if n <= 0 {
        Seq::empty()
    } else {
        let rest = pending_documents(documents, cached, n - 1);
        let d = documents[n - 1];
        if embedded_directly(d) && known_vector(d, cached) is None {
            rest.push((n - 1) as usize)
        } else {
            rest
        }
    }
}

/// The first document that does not belong into the catalog, from `i` on.
pub open spec fn first_foreign(documents: Seq<LeafDocument>, i: int) -> Option<int>
    decreases documents.len() - i,
{
    if i < 0 || i >= documents.len() {
        None
    } else if !is_leaf(documents[i]) {
        Some(i)
    } else {
        first_foreign(documents, i + 1)
    }
}

/// The vectors that are known, and the documents that lack one.
#[derive(Debug)]
pub struct LeafPlan {
    pub vectors: Vec<Option<Vec<u32>>>,
    pub pending: Vec<usize>,
}

pub open spec fn vectors_known(
    vectors: Seq<Option<Vec<u32>>>,
    documents: Seq<LeafDocument>,
    cached: Seq<CachedEmbedding>,
) -> bool {
    forall|i: int|
        0 <= i < vectors.len() ==> opt_vector(#[trigger] vectors[i]) == known_vector(
            documents[i],
            cached,
        )
}

fn copy_vector(v: &Vec<u32>) -> (r: Vec<u32>)
    ensures
        r@ == v@,
{
    crate::model::copy_list(v)
}

fn find_cached(cached: &Vec<CachedEmbedding>, digest: &str) -> (r: Option<Vec<u32>>)
    ensures
        opt_vector(r) == cached_from(cached@, digest@, 0),
{
    let mut i: usize = 0;
    while i < cached.len()
        invariant
            i <= cached@.len(),
            cached_from(cached@, digest@, 0) == cached_from(cached@, digest@, i as int),
        decreases cached.len() - i,
    {
        if text_eq(cached[i].source_sha256.as_str(), digest) {
            return Some(copy_vector(&cached[i].vector));
        }
        i += 1;
    }
    None
}

fn find_known(d: &LeafDocument, cached: &Vec<CachedEmbedding>) -> (r: Option<Vec<u32>>)
    requires
        embedded_directly(*d),
    ensures
        opt_vector(r) == known_vector(*d, cached@),
{
    match &d.reusable_vector {
        Some(v) => Some(copy_vector(v)),
        None => find_cached(cached, d.source_sha256.as_str()),
    }
}

pub open spec fn foreign_message(d: LeafDocument) -> Seq<char> {
    "leaf catalog 包含非 leaf 文档 "@ + d.document_id@
}

/// Plans a refresh: keeps the vectors that are there, and lists the documents
/// that must be embedded.
pub fn plan_leaf_embeddings(
    documents: &Vec<LeafDocument>,
    cached: &Vec<CachedEmbedding>,
    cancelled: bool,
) -> (r: Result<LeafPlan, EmbeddingRefreshError>)
    ensures
        r is Ok <==> (documents@.len() == 0 || !cancelled) && first_foreign(
            documents@,
            0,
        ) is None,
        r matches Ok(plan) ==> {
            &&& plan.vectors@.len() == documents@.len()
            &&& vectors_known(plan.vectors@, documents@, cached@)
            &&& plan.pending@ == pending_documents(
                documents@,
                cached@,
                documents@.len() as int,
            )
        },
        r matches Err(e) ==> if cancelled && documents@.len() > 0 {
            is_cancelled(e, EmbeddingRefreshStage::Planning, None)
        } else {
            first_foreign(documents@, 0) is Some && is_catalog_error(
                e,
                EmbeddingRefreshStage::Planning,
                foreign_message(documents@[first_foreign(documents@, 0)->0]),
            )
        },
{
    let mut vectors: Vec<Option<Vec<u32>>> = Vec::new();
    let mut pending: Vec<usize> = Vec::new();
    let mut i: usize = 0;
    while i < documents.len()
        invariant
            i <= documents@.len(),
            cancelled ==> i == 0,
            first_foreign(documents@, 0) == first_foreign(documents@, i as int),
            vectors@.len() == i,
            vectors_known(vectors@, documents@, cached@),
            pending@ == pending_documents(documents@, cached@, i as int),
        decreases documents.len() - i,
    {
        if let Err(e) = check_embedding_cancellation(
            cancelled,
            EmbeddingRefreshStage::Planning,
            None,
        ) {
            return Err(e);
        }
        let d = &documents[i];
        let length = chars_of(d.content.as_str()).len();
        let vector = match d.granularity {
            RetrievalDocumentGranularity::Fragment => {
                let known = find_known(d, cached);
                if known.is_none() {
                    pending.push(i);
                }
                known
            },
            RetrievalDocumentGranularity::Message => {
                if length <= WINDOW {
                    let known = find_known(d, cached);
                    if known.is_none() {
                        pending.push(i);
                    }
                    known
                } else {
                    None
                }
            },
            _ => {
                let mut message = "leaf catalog 包含非 leaf 文档 ".to_owned();
                message.append(d.document_id.as_str());
                return Err(embedding_catalog_error(EmbeddingRefreshStage::Planning, message));
            },
        };
        let ghost before = vectors@;
        vectors.push(vector);
        assert(vectors_known(vectors@, documents@, cached@)) by {
            assert forall|k: int| 0 <= k < vectors@.len() implies opt_vector(
                #[trigger] vectors@[k],
            ) == known_vector(documents@[k], cached@) by {
                if k < i {
                    assert(vectors@[k] == before[k]);
                }
            }
        }
        i += 1;
    }
    Ok(LeafPlan { vectors, pending })
}

/// How many batches a number of inputs takes.
pub open spec fn batch_count(len: int, size: int) -> int {
    (len + size - 1) / size
}

/// Where a batch starts and ends among the inputs; batches count from one.
pub open spec fn batch_bounds(len: int, size: int, batch: int) -> (int, int) {
    let from = (batch - 1) * size;
    (from, if from + size <= len {
        from + size
    } else {
        len
    })
}

/// Every input lies in exactly one batch.
pub proof fn batches_partition_inputs(len: int, size: int, p: int)
    requires
        0 <= p < len,
        size > 0,
    ensures
        ({
            let batch = p / size + 1;
            &&& 1 <= batch <= batch_count(len, size)
            &&& batch_bounds(len, size, batch).0 <= p < batch_bounds(len, size, batch).1
            &&& forall|other: int|
                1 <= other && other != batch ==> !((#[trigger] batch_bounds(len, size, other)).0
                    <= p < batch_bounds(len, size, other).1)
        }),
{
    let batch = p / size + 1;
    assert(p / size >= 0) by (nonlinear_arith)
        requires
            p >= 0,
            size > 0,
    ;
    assert(size * (p / size) <= p < size * (p / size) + size) by (nonlinear_arith)
        requires
            size > 0,
    ;
    assert((batch - 1) * size == size * (p / size)) by (nonlinear_arith)
        requires
            batch == p / size + 1,
    ;
    let count = (len + size - 1) / size;
    assert(batch <= count) by (nonlinear_arith)
        requires
            0 <= p < len,
            size > 0,
            batch == p / size + 1,
            count == (len + size - 1) / size,
    {
        assert(p / size <= (len - 1) / size) by (nonlinear_arith)
            requires
                p <= len - 1,
                size > 0,
        ;
        assert((len + size - 1) / size == (len - 1) / size + 1) by (nonlinear_arith)
            requires
                size > 0,
        ;
    }
    assert forall|other: int| 1 <= other && other != batch implies !((#[trigger] batch_bounds(
        len,
        size,
        other,
    )).0 <= p < batch_bounds(len, size, other).1) by {
        if other < batch {
            assert((other - 1) * size + size <= (batch - 1) * size) by (nonlinear_arith)
                requires
                    other <= batch - 1,
                    size > 0,
            ;
        } else {
            assert((other - 1) * size >= (batch - 1) * size + size) by (nonlinear_arith)
                requires
                    other >= batch + 1,
                    size > 0,
            ;
        }
    }
}

/// There are no more batches than there are things to send.
proof fn batch_count_fits(len: usize, size: usize)
    requires
        size > 0,
    ensures
        0 <= batch_count(len as int, size as int) <= len,
{
    let (l, s) = (len as int, size as int);
    assert(0 <= (l + s - 1) / s <= l) by (nonlinear_arith)
        requires
            s > 0,
            l >= 0,
    ;
}

/// The number of batches, computed without overflow.
pub fn count_batches(len: usize, size: usize) -> (r: usize)
    requires
        size > 0,
    ensures
        r == batch_count(len as int, size as int),
{
    let whole = len / size;
    proof {
        assert(len as int == size * (len as int / size as int) + len as int % size as int)
            by (nonlinear_arith)
            requires
                size > 0,
        ;
        let (l, s) = (len as int, size as int);
        assert(l % s == 0 ==> (l + s - 1) / s == l / s) by (nonlinear_arith)
            requires
                s > 0,
        ;
        assert(l % s != 0 ==> (l + s - 1) / s == l / s + 1) by (nonlinear_arith)
            requires
                s > 0,
        ;
        assert(l % s != 0 ==> l / s < l) by (nonlinear_arith)
            requires
                s > 0,
                l >= 0,
        ;
    }
    if len % size == 0 {
        whole
    } else {
        whole + 1
    }
}

/// The inputs of one batch.
pub open spec fn batch_contents(
    documents: Seq<LeafDocument>,
    pending: Seq<usize>,
    size: int,
    batch: int,
) -> Seq<Seq<char>> {
    let bounds = batch_bounds(pending.len() as int, size, batch);
    Seq::new(
        (bounds.1 - bounds.0) as nat,
        |k: int| documents[pending[bounds.0 + k] as int].content@,
    )
}

/// Collects the inputs of one batch, with the position of its first document
/// among those that are pending.
pub fn batch_inputs(
    documents: &Vec<LeafDocument>,
    pending: &Vec<usize>,
    size: usize,
    batch: usize,
) -> (r: (usize, Vec<String>))
    requires
        size > 0,
        1 <= batch <= batch_count(pending@.len() as int, size as int),
        crate::context::in_range(pending@, documents@.len()),
    ensures
        r.0 == batch_bounds(pending@.len() as int, size as int, batch as int).0,
        text::texts(r.1@) == batch_contents(documents@, pending@, size as int, batch as int),
        r.1@.len() > 0,
{
    let n = pending.len();
    let ghost len = pending@.len() as int;
    let ghost bounds = batch_bounds(len, size as int, batch as int);
    proof {
        let (b, s) = (batch as int, size as int);
        let count = batch_count(len, s);
        assert((b - 1) * s < len) by (nonlinear_arith)
            requires
                1 <= b <= count,
                count == (len + s - 1) / s,
                s > 0,
        ;
        assert((b - 1) * s >= 0) by (nonlinear_arith)
            requires
                1 <= b,
                s > 0,
        ;
    }
    let from: usize = (batch - 1) * size;
    let to: usize = if n - from >= size {
        from + size
    } else {
        n
    };
    let mut out: Vec<String> = Vec::new();
    let mut k: usize = from;
    let ghost all = batch_contents(documents@, pending@, size as int, batch as int);
    while k < to
        invariant
            from <= k <= to <= pending@.len(),
            bounds == batch_bounds(pending@.len() as int, size as int, batch as int),
            bounds == (from as int, to as int),
            crate::context::in_range(pending@, documents@.len()),
            all == batch_contents(documents@, pending@, size as int, batch as int),
            text::texts(out@) == all.take(k - from),
        decreases to - k,
    {
        assert(pending@[k as int] < documents@.len());
        let ghost before = text::texts(out@);
        out.push(documents[pending[k]].content.clone());
        proof {
            assert(all[k - from] == documents@[pending@[k as int] as int].content@);
            assert(text::texts(out@) =~= before.push(all[k - from]));
            assert(all.take(k - from).push(all[k - from]) =~= all.take(k - from + 1));
        }
        k += 1;
    }
    assert(all.take(to - from) =~= all);
    (from, out)
}

/// What is wrong with a backend's answer to a batch, if anything.
pub open spec fn batch_defect(
    expected_model: Seq<char>,
    model: Seq<char>,
    expected: usize,
    actual: usize,
) -> Option<Seq<char>> {
    if model != expected_model {
        Some("模型不匹配：期望 "@ + expected_model + "，实际 "@ + model)
    } else if actual != expected {
        Some(
            "向量数量不匹配：期望 "@ + text::decimal(expected as nat) + "，实际 "@
                + text::decimal(actual as nat),
        )
    } else {
        None
    }
}

pub fn check_batch_response(
    batch: usize,
    expected_model: &str,
    model: &str,
    expected: usize,
    actual: usize,
) -> (r: Result<(), EmbeddingRefreshError>)
    ensures
        r is Ok <==> batch_defect(expected_model@, model@, expected, actual) is None,
        r matches Err(e) ==> (e matches EmbeddingRefreshError::InvalidResponse {
            batch: b,
            message,
        } && b == batch && Some(message@) == batch_defect(
            expected_model@,
            model@,
            expected,
            actual,
        )),
{
    if !text_eq(model, expected_model) {
        let mut message = "模型不匹配：期望 ".to_owned();
        message.append(expected_model);
        message.append("，实际 ");
        message.append(model);
        return Err(EmbeddingRefreshError::InvalidResponse { batch, message });
    }
    if actual != expected {
        let mut message = "向量数量不匹配：期望 ".to_owned();
        push_decimal(&mut message, expected as u64);
        message.append("，实际 ");
        push_decimal(&mut message, actual as u64);
        return Err(EmbeddingRefreshError::InvalidResponse { batch, message });
    }
    Ok(())
}

/// Checks that a vector has as many dimensions as the index.
pub fn check_vector_dimensions(document_id: &str, expected: usize, actual: usize) -> (r: Result<
    (),
    EmbeddingRefreshError,
>)
    ensures
        r is Ok <==> actual == expected,
        r matches Err(e) ==> (e matches EmbeddingRefreshError::Vector { document_id: d, fault } && d@
            == document_id@ && fault == (VectorFault::DimensionMismatch { expected, actual })),
{
    if actual != expected {
        return Err(
            EmbeddingRefreshError::Vector {
                document_id: document_id.to_owned(),
                fault: VectorFault::DimensionMismatch { expected, actual },
            },
        );
    }
    Ok(())
}

/// What is wrong with the answer to the embedding of a query, if anything.
pub open spec fn query_defect(
    expected_model: Seq<char>,
    model: Seq<char>,
    count: usize,
    expected_dimensions: usize,
    dimensions: usize,
) -> Option<Seq<char>> {
    if model != expected_model || count != 1 {
        Some("查询 Embedding 响应与请求不匹配"@)
    } else if dimensions != expected_dimensions {
        Some(
            "查询向量维度不匹配：期望 "@ + text::decimal(expected_dimensions as nat) + "，实际 "@
                + text::decimal(dimensions as nat),
        )
    } else {
        None
    }
}

/// Checks the answer to the embedding of a query; `dimensions` is that of its
/// first vector.
pub fn check_query_response(
    expected_model: &str,
    model: &str,
    count: usize,
    expected_dimensions: usize,
    dimensions: usize,
) -> (r: Result<(), String>)
    ensures
        match r {
            Ok(_) => query_defect(
                expected_model@,
                model@,
                count,
                expected_dimensions,
                dimensions,
            ) is None,
            Err(message) => Some(message@) == query_defect(
                expected_model@,
                model@,
                count,
                expected_dimensions,
                dimensions,
            ),
        },
{
    if !text_eq(model, expected_model) || count != 1 {
        return Err("查询 Embedding 响应与请求不匹配".to_owned());
    }
    if dimensions != expected_dimensions {
        let mut message = "查询向量维度不匹配：期望 ".to_owned();
        push_decimal(&mut message, expected_dimensions as u64);
        message.append("，实际 ");
        push_decimal(&mut message, dimensions as u64);
        return Err(message);
    }
    Ok(())
}

/// A long message, and the windows that its vector is pooled from: a document
/// and how many characters it adds to those before it.
#[derive(Debug)]
pub struct PooledMessage {
    pub message: usize,
    pub parts: Vec<(usize, usize)>,
}

pub open spec fn is_fragment_of(d: LeafDocument, message_id: Seq<char>) -> bool {
    d.granularity == RetrievalDocumentGranularity::Fragment && d.message_document_id@ == message_id
}

/// How many of the first `n` documents are windows of a message.
pub open spec fn fragment_count(
    documents: Seq<LeafDocument>,
    message_id: Seq<char>,
    n: int,
) -> nat
    decreases n,
{
    if n <= 0 {
        0
    } else {
        fragment_count(documents, message_id, n - 1) + (if is_fragment_of(
            documents[n - 1],
            message_id,
        ) {
            1nat
        } else {
            0
        })
    }
}

/// The first window of a message with a range, from position `i` on.
pub open spec fn fragment_from(
    documents: Seq<LeafDocument>,
    message_id: Seq<char>,
    range: (int, int),
    i: int,
) -> Option<int>
    decreases documents.len() - i,
{
    if i < 0 || i >= documents.len() {
        None
    } else if is_fragment_of(documents[i], message_id) && documents[i].start_char == range.0
        && documents[i].end_char == range.1 {
        Some(i)
    } else {
        fragment_from(documents, message_id, range, i + 1)
    }
}

pub open spec fn is_long_message(d: LeafDocument) -> bool {
    d.granularity == RetrievalDocumentGranularity::Message && d.content@.len() > 240
}

/// Whether the windows of a message are in the catalog, each once, and nothing
/// else is.
pub open spec fn windows_present(documents: Seq<LeafDocument>, d: LeafDocument) -> bool {
    let w = windows::windows(d.content@.len() as int);
    &&& fragment_count(documents, d.document_id@, documents.len() as int) == w.len()
    &&& forall|k: int|
        0 <= k < w.len() ==> fragment_from(
            documents,
            d.document_id@,
            #[trigger] w[k],
            0,
        ) is Some
}

/// How many characters a window adds to those before it.
pub open spec fn window_weight(len: int, k: int) -> int {
    let w = windows::windows(len);
    if k == 0 {
        w[0].1
    } else {
        w[k].1 - w[k - 1].1
    }
}

/// The document of a window.
pub open spec fn window_document(documents: Seq<LeafDocument>, d: LeafDocument, k: int) -> int {
    fragment_from(
        documents,
        d.document_id@,
        windows::windows(d.content@.len() as int)[k],
        0,
    )->0
}

/// The first window whose document has no vector yet, from `k` on.
pub open spec fn first_unplanned(
    documents: Seq<LeafDocument>,
    vectors: Seq<Option<Vec<u32>>>,
    d: LeafDocument,
    k: int,
) -> Option<int>
    decreases windows::windows(d.content@.len() as int).len() - k,
{
    if k < 0 || k >= windows::windows(d.content@.len() as int).len() {
        None
    } else if vectors[window_document(documents, d, k)] is None {
        Some(window_document(documents, d, k))
    } else {
        first_unplanned(documents, vectors, d, k + 1)
    }
}

/// What keeps a long message from being pooled, if anything.
pub open spec fn pooling_defect(
    documents: Seq<LeafDocument>,
    vectors: Seq<Option<Vec<u32>>>,
    d: LeafDocument,
) -> Option<Seq<char>> {
    if d.start_char != 0 || d.end_char != d.content@.len() {
        Some("长消息 "@ + d.document_id@ + " 的规范范围无效"@)
    } else if !windows_present(documents, d) {
        Some("长消息 "@ + d.document_id@ + " 的分片窗口不规范"@)
    } else {
        match first_unplanned(documents, vectors, d, 0) {
            Some(f) => Some("分片 "@ + documents[f].document_id@ + " 缺少规划向量"@),
            None => None,
        }
    }
}

/// The parts of a long message: its windows in order, each with its weight.
pub open spec fn pooled_parts(
    documents: Seq<LeafDocument>,
    d: LeafDocument,
    parts: Seq<(usize, usize)>,
) -> bool {
    let len = d.content@.len() as int;
    &&& parts.len() == windows::windows(len).len()
    &&& forall|k: int|
        0 <= k < parts.len() ==> (#[trigger] parts[k]).0 == window_document(documents, d, k)
            && parts[k].1 == window_weight(len, k)
}

fn count_fragments(documents: &Vec<LeafDocument>, message_id: &str) -> (r: usize)
    ensures
        r == fragment_count(documents@, message_id@, documents@.len() as int),
{
    let mut n: usize = 0;
    let mut i: usize = 0;
    while i < documents.len()
        invariant
            i <= documents@.len(),
            n <= i,
            n == fragment_count(documents@, message_id@, i as int),
        decreases documents.len() - i,
    {
        if documents[i].granularity == RetrievalDocumentGranularity::Fragment && text_eq(
            documents[i].message_document_id.as_str(),
            message_id,
        ) {
            n += 1;
        }
        i += 1;
    }
    n
}

fn find_fragment(
    documents: &Vec<LeafDocument>,
    message_id: &str,
    range: (usize, usize),
) -> (r: Option<usize>)
    ensures
        match r {
            Some(p) => p < documents@.len() && fragment_from(
                documents@,
                message_id@,
                (range.0 as int, range.1 as int),
                0,
            ) == Some(p as int),
            None => fragment_from(
                documents@,
                message_id@,
                (range.0 as int, range.1 as int),
                0,
            ) is None,
        },
{
    let ghost wanted = (range.0 as int, range.1 as int);
    let mut i: usize = 0;
    while i < documents.len()
        invariant
            i <= documents@.len(),
            wanted == (range.0 as int, range.1 as int),
            fragment_from(documents@, message_id@, wanted, 0) == fragment_from(
                documents@,
                message_id@,
                wanted,
                i as int,
            ),
        decreases documents.len() - i,
    {
        if documents[i].granularity == RetrievalDocumentGranularity::Fragment
            && documents[i].start_char == range.0 && documents[i].end_char == range.1 && text_eq(
            documents[i].message_document_id.as_str(),
            message_id,
        ) {
            return Some(i);
        }
        i += 1;
    }
    None
}

fn about_message(id: &str, what: &str) -> (r: String)
    ensures
        r@ == "长消息 "@ + id@ + what@,
{
    let mut out = "长消息 ".to_owned();
    out.append(id);
    out.append(what);
    out
}

/// Finds the windows of a message in the catalog, with their weights.
fn find_windows(documents: &Vec<LeafDocument>, d: &LeafDocument) -> (r: Option<
    Vec<(usize, usize)>,
>)
    requires
        d.content@.len() > 0,
    ensures
        r is Some <==> windows_present(documents@, *d),
        r matches Some(parts) ==> pooled_parts(documents@, *d, parts@) && forall|k: int|
            0 <= k < parts@.len() ==> (#[trigger] parts@[k]).0 < documents@.len(),
{
    let len = chars_of(d.content.as_str()).len();
    let ranges = window_ranges(len);
    let ghost w = windows::windows(len as int);
    if count_fragments(documents, d.document_id.as_str()) != ranges.len() {
        return None;
    }
    let mut parts: Vec<(usize, usize)> = Vec::new();
    let mut covered: usize = 0;
    let mut k: usize = 0;
    while k < ranges.len()
        invariant
            k <= ranges@.len(),
            len == d.content@.len(),
            w == windows::windows(len as int),
            windows::ranges(ranges@) == w,
            parts@.len() == k,
            covered == (if k == 0 {
                0
            } else {
                w[k - 1].1
            }),
            len > 0,
            forall|i: int|
                0 <= i < k ==> fragment_from(
                    documents@,
                    d.document_id@,
                    #[trigger] w[i],
                    0,
                ) is Some,
            forall|i: int|
                0 <= i < k ==> (#[trigger] parts@[i]).0 == window_document(documents@, *d, i)
                    && parts@[i].1 == window_weight(len as int, i) && parts@[i].0
                    < documents@.len(),
        decreases ranges.len() - k,
    {
        let range = ranges[k];
        assert(w[k as int] == (range.0 as int, range.1 as int));
        assert(covered < range.1) by {
            windows::windows_cover(len as int);
            windows::windows_shape(0, len as int);
        }
        match find_fragment(documents, d.document_id.as_str(), range) {
            Some(p) => {
                parts.push((p, range.1 - covered));
                covered = range.1;
            },
            None => {
                return None;
            },
        }
        k += 1;
    }
    Some(parts)
}

/// Plans how the vector of a long message is pooled from its windows. Nothing is
/// to be done for any other document.
pub fn plan_long_message(
    documents: &Vec<LeafDocument>,
    vectors: &Vec<Option<Vec<u32>>>,
    message: usize,
    cancelled: bool,
) -> (r: Result<Option<PooledMessage>, EmbeddingRefreshError>)
    requires
        message < documents@.len(),
        vectors@.len() == documents@.len(),
    ensures
        ({
            let d = documents@[message as int];
            let defect = pooling_defect(documents@, vectors@, d);
            match r {
                Ok(None) => !cancelled && !is_long_message(d),
                Ok(Some(pooled)) => !cancelled && is_long_message(d) && defect is None
                    && pooled.message == message && pooled_parts(documents@, d, pooled.parts@),
                Err(e) => if cancelled {
                    is_cancelled(e, EmbeddingRefreshStage::Planning, None)
                } else {
                    is_long_message(d) && defect is Some && is_catalog_error(
                        e,
                        EmbeddingRefreshStage::Planning,
                        defect->0,
                    )
                },
            }
        }),
{
    if let Err(e) = check_embedding_cancellation(cancelled, EmbeddingRefreshStage::Planning, None) {
        return Err(e);
    }
    let d = &documents[message];
    let length = chars_of(d.content.as_str()).len();
    if !(d.granularity == RetrievalDocumentGranularity::Message) || length <= WINDOW {
        return Ok(None);
    }
    if d.start_char != 0 || d.end_char != length {
        return Err(
            embedding_catalog_error(
                EmbeddingRefreshStage::Planning,
                about_message(d.document_id.as_str(), " 的规范范围无效"),
            ),
        );
    }
    let parts = match find_windows(documents, d) {
        Some(parts) => parts,
        None => {
            return Err(
                embedding_catalog_error(
                    EmbeddingRefreshStage::Planning,
                    about_message(d.document_id.as_str(), " 的分片窗口不规范"),
                ),
            );
        },
    };
    let mut k: usize = 0;
    while k < parts.len()
        invariant
            k <= parts@.len(),
            vectors@.len() == documents@.len(),
            pooled_parts(documents@, *d, parts@),
            forall|i: int| 0 <= i < parts@.len() ==> (#[trigger] parts@[i]).0 < documents@.len(),
            first_unplanned(documents@, vectors@, *d, 0) == first_unplanned(
                documents@,
                vectors@,
                *d,
                k as int,
            ),
            *d == documents@[message as int],
            message < documents@.len(),
            is_long_message(*d),
            d.start_char == 0 && d.end_char == d.content@.len(),
            windows_present(documents@, *d),
            !cancelled,
        decreases parts.len() - k,
    {
        let f = parts[k].0;
        assert(parts@[k as int].0 == window_document(documents@, *d, k as int));
        if vectors[f].is_none() {
            let mut text = "分片 ".to_owned();
            text.append(documents[f].document_id.as_str());
            text.append(" 缺少规划向量");
            return Err(embedding_catalog_error(EmbeddingRefreshStage::Planning, text));
        }
        k += 1;
    }
    Ok(Some(PooledMessage { message, parts }))
}

/// The weights of a long message's windows add up to its length.
pub proof fn window_weights_add_up(len: int, k: int)
    requires
        len > 0,
        0 < k <= windows::windows(len).len(),
    ensures
        weights_up_to(len, k) == windows::windows(len)[k - 1].1,
        k == windows::windows(len).len() ==> weights_up_to(len, k) == len,
        forall|i: int| 0 <= i < k ==> #[trigger] window_weight(len, i) > 0,
    decreases k,
{
    windows::windows_cover(len);
    windows::windows_shape(0, len);
    if k > 1 {
        window_weights_add_up(len, k - 1);
        assert(windows::windows(len)[k - 1].1 > windows::windows(len)[k - 2].1);
    } else {
        assert(weights_up_to(len, 0) == 0);
        assert(windows::windows(len)[0].1 > 0);
    }
}

pub open spec fn weights_up_to(len: int, k: int) -> int
    decreases k,
{
    if k <= 0 {
        0
    } else {
        weights_up_to(len, k - 1) + window_weight(len, k - 1)
    }
}

/// A vector to be stored for a document.
#[derive(Debug)]
pub struct EmbeddingWrite {
    pub document_id: String,
    pub expected_source_sha256: String,
    pub vector: Vec<u32>,
}

/// The first document without a vector, from `i` on.
pub open spec fn first_without_vector(vectors: Seq<Option<Vec<u32>>>, i: int) -> Option<int>
    decreases vectors.len() - i,
{
    if i < 0 || i >= vectors.len() {
        None
    } else if vectors[i] is None {
        Some(i)
    } else {
        first_without_vector(vectors, i + 1)
    }
}

pub open spec fn write_of(w: EmbeddingWrite, d: LeafDocument, v: Option<Vec<u32>>) -> bool {
    w.document_id@ == d.document_id@ && w.expected_source_sha256@ == d.source_sha256@ && Some(
        w.vector@,
    ) == opt_vector(v)
}

/// Pairs every document with its vector.
pub fn collect_writes(documents: &Vec<LeafDocument>, vectors: &Vec<Option<Vec<u32>>>) -> (r: Result<
    Vec<EmbeddingWrite>,
    EmbeddingRefreshError,
>)
    requires
        vectors@.len() == documents@.len(),
    ensures
        r is Ok <==> first_without_vector(vectors@, 0) is None,
        r matches Ok(writes) ==> writes@.len() == documents@.len() && forall|i: int|
            0 <= i < writes@.len() ==> write_of(
                #[trigger] writes@[i],
                documents@[i],
                vectors@[i],
            ),
        r matches Err(e) ==> is_catalog_error(
            e,
            EmbeddingRefreshStage::Planning,
            "文档 "@ + documents@[first_without_vector(vectors@, 0)->0].document_id@
                + " 缺少规划向量"@,
        ),
{
    let mut out: Vec<EmbeddingWrite> = Vec::new();
    let mut i: usize = 0;
    while i < documents.len()
        invariant
            i <= documents@.len(),
            vectors@.len() == documents@.len(),
            out@.len() == i,
            first_without_vector(vectors@, 0) == first_without_vector(vectors@, i as int),
            forall|k: int|
                0 <= k < i ==> write_of(#[trigger] out@[k], documents@[k], vectors@[k]),
        decreases documents.len() - i,
    {
        match &vectors[i] {
            Some(v) => {
                let w = EmbeddingWrite {
                    document_id: documents[i].document_id.clone(),
                    expected_source_sha256: documents[i].source_sha256.clone(),
                    vector: copy_vector(v),
                };
                assert(write_of(w, documents@[i as int], vectors@[i as int]));
                out.push(w);
            },
            None => {
                let mut text = "文档 ".to_owned();
                text.append(documents[i].document_id.as_str());
                text.append(" 缺少规划向量");
                return Err(embedding_catalog_error(EmbeddingRefreshStage::Planning, text));
            },
        }
        i += 1;
    }
    Ok(out)
}

pub open spec fn repeats(v: Seq<Seq<char>>) -> bool {
    exists|i: int, j: int| 0 <= i < j < v.len() && #[trigger] v[i] == #[trigger] v[j]
}

/// The sessions whose episodes are derived anew, in order; a session that occurs
/// twice is an error.
pub fn sessions_to_materialize(session_ids: &Vec<String>) -> (r: Result<
    Vec<String>,
    EmbeddingRefreshError,
>)
    ensures
        r is Ok <==> !repeats(text::texts(session_ids@)),
        r matches Ok(sorted) ==> text::strictly_sorted(text::texts(sorted@)) && forall|x: Seq<char>|
            #[trigger] text::texts(sorted@).contains(x) <==> text::texts(session_ids@).contains(x),
        r matches Err(e) ==> is_catalog_error(
            e,
            EmbeddingRefreshStage::Materialization,
            "leaf snapshot 包含重复会话"@,
        ),
{
    let ghost all = text::texts(session_ids@);
    let mut i: usize = 0;
    while i < session_ids.len()
        invariant
            i <= session_ids@.len(),
            all == text::texts(session_ids@),
            forall|a: int, b: int|
                0 <= a < b < all.len() && a < i ==> #[trigger] all[a] != #[trigger] all[b],
        decreases session_ids.len() - i,
    {
        let mut j: usize = i + 1;
        while j < session_ids.len()
            invariant
                i < j <= session_ids@.len(),
                all == text::texts(session_ids@),
                forall|b: int| i < b < j ==> all[i as int] != #[trigger] all[b],
            decreases session_ids.len() - j,
        {
            assert(all[j as int] == session_ids@[j as int]@);
            assert(all[i as int] == session_ids@[i as int]@);
            if text_eq(session_ids[i].as_str(), session_ids[j].as_str()) {
                return Err(
                    embedding_catalog_error(
                        EmbeddingRefreshStage::Materialization,
                        "leaf snapshot 包含重复会话".to_owned(),
                    ),
                );
            }
            j += 1;
        }
        i += 1;
    }
    Ok(sorted_set(session_ids))
}

/// The inputs among the first `n` whose digest is neither cached nor that of an
/// earlier input.
pub open spec fn uncached_inputs(
    inputs: Seq<Seq<char>>,
    cached: Seq<Seq<char>>,
    n: int,
) -> Seq<(Seq<char>, Seq<char>)>
    decreases n,
{
    if n <= 0 {
        Seq::empty()
    } else {
        let rest = uncached_inputs(inputs, cached, n - 1);
        let digest = digest::text_digest(inputs[n - 1]);
        if cached.contains(digest) || listed(rest, digest) {
            rest
        } else {
            rest.push((digest, inputs[n - 1]))
        }
    }
}

pub open spec fn listed(v: Seq<(Seq<char>, Seq<char>)>, digest: Seq<char>) -> bool {
    exists|i: int| 0 <= i < v.len() && (#[trigger] v[i]).0 == digest
}

pub open spec fn pair_texts(v: Seq<(String, String)>) -> Seq<(Seq<char>, Seq<char>)> {
    Seq::new(v.len(), |i: int| (v[i].0@, v[i].1@))
}

fn is_listed(v: &Vec<(String, String)>, digest: &str) -> (r: bool)
    ensures
        r == listed(pair_texts(v@), digest@),
{
    let ghost all = pair_texts(v@);
    let mut i: usize = 0;
    while i < v.len()
        invariant
            i <= v@.len(),
            all == pair_texts(v@),
            forall|k: int| 0 <= k < i ==> (#[trigger] all[k]).0 != digest@,
        decreases v.len() - i,
    {
        assert(all[i as int].0 == v@[i as int].0@);
        if text_eq(v[i].0.as_str(), digest) {
            return true;
        }
        i += 1;
    }
    false
}

/// Checks the answer to a batch that is embedded in the background.
pub fn check_cache_response(
    expected_model: &str,
    model: &str,
    expected_count: usize,
    count: usize,
) -> (r: Result<(), String>)
    ensures
        match r {
            Ok(_) => model@ == expected_model@ && count == expected_count,
            Err(message) => (model@ != expected_model@ || count != expected_count) && message@
                == "后台 Embedding 响应与请求不匹配"@,
        },
{
    if !text_eq(model, expected_model) || count != expected_count {
        return Err("后台 Embedding 响应与请求不匹配".to_owned());
    }
    Ok(())
}

/// The inputs that the background cache lacks, with their digests, each once.
pub fn inputs_to_cache(inputs: &Vec<String>, cached: &Vec<String>) -> (r: Vec<(String, String)>)
    ensures
        pair_texts(r@) == uncached_inputs(
            text::texts(inputs@),
            text::texts(cached@),
            inputs@.len() as int,
        ),
{
    let ghost all = text::texts(inputs@);
    let mut out: Vec<(String, String)> = Vec::new();
    let mut i: usize = 0;
    assert(pair_texts(out@) =~= Seq::empty());
    while i < inputs.len()
        invariant
            i <= inputs@.len(),
            all == text::texts(inputs@),
            pair_texts(out@) == uncached_inputs(all, text::texts(cached@), i as int),
        decreases inputs.len() - i,
    {
        let ghost before = pair_texts(out@);
        let hash = content_sha256(inputs[i].as_str());
        assert(all[i as int] == inputs@[i as int]@);
        if !contains_text(cached, hash.as_str()) && !is_listed(&out, hash.as_str()) {
            let ghost pair = (hash@, inputs@[i as int]@);
            out.push((hash, inputs[i].clone()));
            assert(pair_texts(out@) =~= before.push(pair));
        }
        i += 1;
    }
    out
}

/// What a refresh asks to be done next.
#[derive(Clone, Copy, Debug, PartialEq, Eq, Structural)]
pub enum RefreshAction {
    CheckConfig,
    LoadLeaves,
    LoadCache,
    Plan,
    VerifyGeneration { batch: usize },
    Embed { batch: usize },
    DeriveLongMessages,
    PublishLeaves,
    ListSessions,
    Materialize { session: usize },
    LoadAggregates,
    PublishAggregates,
    Finish,
}

/// How what a refresh asked for went.
#[allow(inconsistent_fields)]
#[derive(Debug)]
pub enum RefreshEvent {
    Done,
    LeavesLoaded { documents: usize },
    Planned { pending: usize },
    LeavesPublished { reused: usize, changed: bool },
    SessionsListed { sessions: usize },
    AggregatesLoaded { documents: usize },
    ConfigInvalid { message: String },
    IndexFailed { fault: RetrievalFault },
    MaterializationFailed { session_id: String, fault: RetrievalFault },
    TaskFailed { message: String },
    BackendFailed { message: String },
    TimedOut,
    Interrupted,
    Refused { error: EmbeddingRefreshError },
}

/// Where a refresh stands.
#[derive(Debug)]
pub struct EmbeddingRefresh {
    pub awaiting: RefreshAction,
    pub batch_size: usize,
    pub batches: usize,
    pub sessions: usize,
    pub timeout_secs: u64,
    pub report: EmbeddingRefreshReport,
}

/// The stage in which an action is taken.
pub open spec fn stage_of(action: RefreshAction) -> EmbeddingRefreshStage {
    match action {
        RefreshAction::CheckConfig => EmbeddingRefreshStage::LeafSnapshot,
        RefreshAction::LoadLeaves => EmbeddingRefreshStage::LeafSnapshot,
        RefreshAction::LoadCache => EmbeddingRefreshStage::LeafSnapshot,
        RefreshAction::Plan => EmbeddingRefreshStage::Planning,
        RefreshAction::VerifyGeneration { .. } => EmbeddingRefreshStage::Backend,
        RefreshAction::Embed { .. } => EmbeddingRefreshStage::Backend,
        RefreshAction::DeriveLongMessages => EmbeddingRefreshStage::Planning,
        RefreshAction::PublishLeaves => EmbeddingRefreshStage::LeafPublish,
        RefreshAction::ListSessions => EmbeddingRefreshStage::Materialization,
        RefreshAction::Materialize { .. } => EmbeddingRefreshStage::Materialization,
        RefreshAction::LoadAggregates => EmbeddingRefreshStage::AggregateSnapshot,
        RefreshAction::PublishAggregates => EmbeddingRefreshStage::AggregatePublish,
        RefreshAction::Finish => EmbeddingRefreshStage::AggregatePublish,
    }
}

/// The batch that an action is about, if any.
pub open spec fn batch_of(action: RefreshAction) -> usize {
    match action {
        RefreshAction::VerifyGeneration { batch } => batch,
        RefreshAction::Embed { batch } => batch,
        _ => 0,
    }
}

/// Whether an event can follow an action.
pub open spec fn event_fits(action: RefreshAction, event: RefreshEvent) -> bool {
    match event {
        RefreshEvent::LeavesLoaded { .. } => action is LoadLeaves,
        RefreshEvent::Planned { .. } => action is Plan,
        RefreshEvent::LeavesPublished { .. } => action is PublishLeaves,
        RefreshEvent::SessionsListed { .. } => action is ListSessions,
        RefreshEvent::AggregatesLoaded { .. } => action is LoadAggregates,
        RefreshEvent::Done => action is CheckConfig || action is LoadCache
            || action is VerifyGeneration || action is Embed || action is DeriveLongMessages
            || action is Materialize || action is PublishAggregates,
        RefreshEvent::ConfigInvalid { .. } => action is CheckConfig,
        RefreshEvent::IndexFailed { .. } => action is LoadLeaves || action is LoadCache
            || action is VerifyGeneration || action is PublishLeaves || action is LoadAggregates
            || action is PublishAggregates,
        RefreshEvent::MaterializationFailed { .. } => action is Materialize,
        RefreshEvent::TaskFailed { .. } => action is LoadLeaves || action is VerifyGeneration
            || action is PublishLeaves || action is Materialize || action is LoadAggregates
            || action is PublishAggregates,
        RefreshEvent::BackendFailed { .. } => action is Embed,
        RefreshEvent::TimedOut => action is Embed,
        RefreshEvent::Interrupted => action is Embed,
        RefreshEvent::Refused { .. } => action is Plan || action is Embed
            || action is DeriveLongMessages || action is ListSessions || action is LoadAggregates,
    }
}

/// The error that an event is, if it is one.
pub open spec fn event_error(s: EmbeddingRefresh, event: RefreshEvent) -> Option<
    EmbeddingRefreshError,
> {
    match event {
        RefreshEvent::ConfigInvalid { message } => Some(
            EmbeddingRefreshError::InvalidConfig { message },
        ),
        RefreshEvent::IndexFailed { fault } => Some(
            EmbeddingRefreshError::Retrieval { stage: stage_of(s.awaiting), fault },
        ),
        RefreshEvent::MaterializationFailed { session_id, fault } => Some(
            EmbeddingRefreshError::Materialization { session_id, fault },
        ),
        RefreshEvent::TaskFailed { message } => Some(
            EmbeddingRefreshError::TaskJoin { stage: stage_of(s.awaiting), message },
        ),
        RefreshEvent::BackendFailed { message } => Some(
            EmbeddingRefreshError::Backend { batch: batch_of(s.awaiting), message },
        ),
        RefreshEvent::TimedOut => Some(
            EmbeddingRefreshError::Timeout {
                batch: batch_of(s.awaiting),
                timeout_secs: s.timeout_secs,
            },
        ),
        RefreshEvent::Interrupted => Some(
            EmbeddingRefreshError::Cancelled {
                stage: EmbeddingRefreshStage::Backend,
                batch: Some(batch_of(s.awaiting)),
            },
        ),
        RefreshEvent::Refused { error } => Some(error),
        _ => None,
    }
}

/// What an event tells about the extent of the work.
pub open spec fn informed(s: EmbeddingRefresh, event: RefreshEvent) -> EmbeddingRefresh {
    match event {
        RefreshEvent::LeavesLoaded { documents } => EmbeddingRefresh {
            report: EmbeddingRefreshReport { leaf_documents: documents, ..s.report },
            ..s
        },
        RefreshEvent::Planned { pending } => EmbeddingRefresh {
            batches: batch_count(pending as int, s.batch_size as int) as usize,
            report: EmbeddingRefreshReport { leaf_embedded_inputs: pending, ..s.report },
            ..s
        },
        RefreshEvent::LeavesPublished { reused, changed } => EmbeddingRefresh {
            report: EmbeddingRefreshReport {
                leaf_reused: reused,
                leaf_committed: changed,
                ..s.report
            },
            ..s
        },
        RefreshEvent::SessionsListed { sessions } => EmbeddingRefresh { sessions, ..s },
        RefreshEvent::AggregatesLoaded { documents } => EmbeddingRefresh {
            report: EmbeddingRefreshReport { aggregate_documents: documents, ..s.report },
            ..s
        },
        _ => s,
    }
}

/// Whether an action comes after the documents to embed are known.
pub open spec fn planned(action: RefreshAction) -> bool {
    !(action is CheckConfig || action is LoadLeaves || action is LoadCache || action is Plan)
}

/// The action after `done` batches.
pub open spec fn after_batches(s: EmbeddingRefresh, done: usize) -> RefreshAction {
    if done < s.batches {
        RefreshAction::VerifyGeneration { batch: (done + 1) as usize }
    } else {
        RefreshAction::DeriveLongMessages
    }
}

/// The action after `done` sessions.
pub open spec fn after_sessions(s: EmbeddingRefresh, done: usize) -> RefreshAction {
    if done < s.sessions {
        RefreshAction::Materialize { session: done }
    } else {
        RefreshAction::LoadAggregates
    }
}

/// The action that follows when the one awaited succeeded.
pub open spec fn action_after(s: EmbeddingRefresh) -> RefreshAction {
    match s.awaiting {
        RefreshAction::CheckConfig => RefreshAction::LoadLeaves,
        RefreshAction::LoadLeaves => RefreshAction::LoadCache,
        RefreshAction::LoadCache => RefreshAction::Plan,
        RefreshAction::Plan => after_batches(s, 0),
        RefreshAction::VerifyGeneration { batch } => RefreshAction::Embed { batch },
        RefreshAction::Embed { batch } => after_batches(s, batch),
        RefreshAction::DeriveLongMessages => RefreshAction::PublishLeaves,
        RefreshAction::PublishLeaves => RefreshAction::ListSessions,
        RefreshAction::ListSessions => after_sessions(s, 0),
        RefreshAction::Materialize { session } => after_sessions(s, (session + 1) as usize),
        RefreshAction::LoadAggregates => RefreshAction::PublishAggregates,
        RefreshAction::PublishAggregates => RefreshAction::Finish,
        RefreshAction::Finish => RefreshAction::Finish,
    }
}

/// Where cancellation is looked at before an action, and under which terms.
pub open spec fn cancellation_point(action: RefreshAction) -> Option<
    (EmbeddingRefreshStage, Option<usize>),
> {
    match action {
        RefreshAction::VerifyGeneration { batch } => Some(
            (EmbeddingRefreshStage::Backend, Some(batch)),
        ),
        RefreshAction::PublishLeaves => Some((EmbeddingRefreshStage::LeafPublish, None)),
        _ => None,
    }
}

/// The state after an event that is no error.
pub open spec fn moved_on(s: EmbeddingRefresh, event: RefreshEvent) -> EmbeddingRefresh {
    let t = informed(s, event);
    let action = action_after(t);
    EmbeddingRefresh {
        awaiting: action,
        report: EmbeddingRefreshReport {
            backend_batches: if action is Embed {
                (t.report.backend_batches + 1) as usize
            } else {
                t.report.backend_batches
            },
            ..t.report
        },
        ..t
    }
}

/// The outcome of an event: an error, or the state that follows.
pub open spec fn refresh_stepped(s: EmbeddingRefresh, event: RefreshEvent, cancelled: bool) -> Result<
    EmbeddingRefresh,
    EmbeddingRefreshError,
> {
    match event_error(s, event) {
        Some(error) => Err(error),
        None => {
            let next = moved_on(s, event);
            match cancellation_point(next.awaiting) {
                Some((stage, batch)) => if cancelled {
                    Err(EmbeddingRefreshError::Cancelled { stage, batch })
                } else {
                    Ok(next)
                },
                None => Ok(next),
            }
        },
    }
}

pub open spec fn empty_report() -> EmbeddingRefreshReport {
    EmbeddingRefreshReport {
        leaf_documents: 0,
        leaf_reused: 0,
        leaf_embedded_inputs: 0,
        backend_batches: 0,
        aggregate_documents: 0,
        leaf_committed: false,
    }
}

impl EmbeddingRefresh {
    /// The counts of a refresh are in step with what it is about to do.
    pub open spec fn wf(self) -> bool {
        &&& self.batch_size > 0
        &&& planned(self.awaiting) ==> self.batches == batch_count(
            self.report.leaf_embedded_inputs as int,
            self.batch_size as int,
        )
        &&& match self.awaiting {
            RefreshAction::VerifyGeneration { batch } => 1 <= batch <= self.batches
                && self.report.backend_batches == batch - 1,
            RefreshAction::Embed { batch } => 1 <= batch <= self.batches
                && self.report.backend_batches == batch,
            RefreshAction::CheckConfig => self.report.backend_batches == 0,
            RefreshAction::LoadLeaves => self.report.backend_batches == 0,
            RefreshAction::LoadCache => self.report.backend_batches == 0,
            RefreshAction::Plan => self.report.backend_batches == 0,
            RefreshAction::Materialize { session } => session < self.sessions
                && self.report.backend_batches == self.batches,
            _ => self.report.backend_batches == self.batches,
        }
    }

    /// Begins a refresh, unless memory is disabled or it is already cancelled.
    pub fn begin(enabled: bool, timeout_secs: u64, batch_size: usize, cancelled: bool) -> (r:
        Result<EmbeddingRefresh, EmbeddingRefreshError>)
        requires
            enabled && !cancelled ==> batch_size > 0,
        ensures
            !enabled ==> r == Err::<EmbeddingRefresh, _>(EmbeddingRefreshError::Disabled),
            enabled && cancelled ==> r == Err::<EmbeddingRefresh, _>(
                EmbeddingRefreshError::Cancelled {
                    stage: EmbeddingRefreshStage::LeafSnapshot,
                    batch: None,
                },
            ),
            enabled && !cancelled ==> r == Ok::<_, EmbeddingRefreshError>(
                EmbeddingRefresh {
                    awaiting: RefreshAction::CheckConfig,
                    batch_size,
                    batches: 0,
                    sessions: 0,
                    timeout_secs,
                    report: empty_report(),
                },
            ) && r->Ok_0.wf(),
    {
        if !enabled {
            return Err(EmbeddingRefreshError::Disabled);
        }
        if let Err(e) = check_embedding_cancellation(
            cancelled,
            EmbeddingRefreshStage::LeafSnapshot,
            None,
        ) {
            return Err(e);
        }
        Ok(
            EmbeddingRefresh {
                awaiting: RefreshAction::CheckConfig,
                batch_size,
                batches: 0,
                sessions: 0,
                timeout_secs,
                report: EmbeddingRefreshReport {
                    leaf_documents: 0,
                    leaf_reused: 0,
                    leaf_embedded_inputs: 0,
                    backend_batches: 0,
                    aggregate_documents: 0,
                    leaf_committed: false,
                },
            },
        )
    }

    fn stage(&self) -> (r: EmbeddingRefreshStage)
        ensures
            r == stage_of(self.awaiting),
    {
        match self.awaiting {
            RefreshAction::CheckConfig | RefreshAction::LoadLeaves
            | RefreshAction::LoadCache => EmbeddingRefreshStage::LeafSnapshot,
            RefreshAction::Plan | RefreshAction::DeriveLongMessages =>
                EmbeddingRefreshStage::Planning,
            RefreshAction::VerifyGeneration { .. } | RefreshAction::Embed { .. } =>
                EmbeddingRefreshStage::Backend,
            RefreshAction::PublishLeaves => EmbeddingRefreshStage::LeafPublish,
            RefreshAction::ListSessions | RefreshAction::Materialize { .. } =>
                EmbeddingRefreshStage::Materialization,
            RefreshAction::LoadAggregates => EmbeddingRefreshStage::AggregateSnapshot,
            RefreshAction::PublishAggregates | RefreshAction::Finish =>
                EmbeddingRefreshStage::AggregatePublish,
        }
    }

    fn batch(&self) -> (r: usize)
        ensures
            r == batch_of(self.awaiting),
    {
        match self.awaiting {
            RefreshAction::VerifyGeneration { batch } => batch,
            RefreshAction::Embed { batch } => batch,
            _ => 0,
        }
    }

    fn next_batch(&self, done: usize) -> (r: RefreshAction)
        ensures
            r == after_batches(*self, done),
    {
        if done < self.batches {
            RefreshAction::VerifyGeneration { batch: done + 1 }
        } else {
            RefreshAction::DeriveLongMessages
        }
    }

    fn next_session(&self, done: usize) -> (r: RefreshAction)
        ensures
            r == after_sessions(*self, done),
    {
        if done < self.sessions {
            RefreshAction::Materialize { session: done }
        } else {
            RefreshAction::LoadAggregates
        }
    }

    fn next_action(&self) -> (r: RefreshAction)
        requires
            self.awaiting matches RefreshAction::Materialize { session } ==> session
                < self.sessions,
        ensures
            r == action_after(*self),
    {
        match self.awaiting {
            RefreshAction::CheckConfig => RefreshAction::LoadLeaves,
            RefreshAction::LoadLeaves => RefreshAction::LoadCache,
            RefreshAction::LoadCache => RefreshAction::Plan,
            RefreshAction::Plan => self.next_batch(0),
            RefreshAction::VerifyGeneration { batch } => RefreshAction::Embed { batch },
            RefreshAction::Embed { batch } => self.next_batch(batch),
            RefreshAction::DeriveLongMessages => RefreshAction::PublishLeaves,
            RefreshAction::PublishLeaves => RefreshAction::ListSessions,
            RefreshAction::ListSessions => self.next_session(0),
            RefreshAction::Materialize { session } => self.next_session(session + 1),
            RefreshAction::LoadAggregates => RefreshAction::PublishAggregates,
            RefreshAction::PublishAggregates => RefreshAction::Finish,
            RefreshAction::Finish => RefreshAction::Finish,
        }
    }

    fn error_of(&self, event: RefreshEvent) -> (r: Option<EmbeddingRefreshError>)
        ensures
            r == event_error(*self, event),
    {
        match event {
            RefreshEvent::ConfigInvalid { message } => Some(
                EmbeddingRefreshError::InvalidConfig { message },
            ),
            RefreshEvent::IndexFailed { fault } => Some(
                EmbeddingRefreshError::Retrieval { stage: self.stage(), fault },
            ),
            RefreshEvent::MaterializationFailed { session_id, fault } => Some(
                EmbeddingRefreshError::Materialization { session_id, fault },
            ),
            RefreshEvent::TaskFailed { message } => Some(
                EmbeddingRefreshError::TaskJoin { stage: self.stage(), message },
            ),
            RefreshEvent::BackendFailed { message } => Some(
                EmbeddingRefreshError::Backend { batch: self.batch(), message },
            ),
            RefreshEvent::TimedOut => Some(
                EmbeddingRefreshError::Timeout {
                    batch: self.batch(),
                    timeout_secs: self.timeout_secs,
                },
            ),
            RefreshEvent::Interrupted => Some(
                EmbeddingRefreshError::Cancelled {
                    stage: EmbeddingRefreshStage::Backend,
                    batch: Some(self.batch()),
                },
            ),
            RefreshEvent::Refused { error } => Some(error),
            _ => None,
        }
    }

    fn learn(&mut self, event: &RefreshEvent)
        requires
            old(self).batch_size > 0,
        ensures
            *final(self) == informed(*old(self), *event),
    {
        match event {
            RefreshEvent::LeavesLoaded { documents } => {
                self.report.leaf_documents = *documents;
            },
            RefreshEvent::Planned { pending } => {
                self.batches = count_batches(*pending, self.batch_size);
                self.report.leaf_embedded_inputs = *pending;
            },
            RefreshEvent::LeavesPublished { reused, changed } => {
                self.report.leaf_reused = *reused;
                self.report.leaf_committed = *changed;
            },
            RefreshEvent::SessionsListed { sessions } => {
                self.sessions = *sessions;
            },
            RefreshEvent::AggregatesLoaded { documents } => {
                self.report.aggregate_documents = *documents;
            },
            _ => {},
        }
    }

    /// Takes down how the awaited action went. After an error, or a cancellation
    /// seen in time, the refresh is over; else it names the next action.
    pub fn step(&mut self, event: RefreshEvent, cancelled: bool) -> (r: Result<
        RefreshAction,
        EmbeddingRefreshError,
    >)
        requires
            old(self).wf(),
            event_fits(old(self).awaiting, event),
        ensures
            match refresh_stepped(*old(self), event, cancelled) {
                Ok(next) => r == Ok::<_, EmbeddingRefreshError>(next.awaiting) && *final(self)
                    == next && next.wf(),
                Err(error) => r == Err::<RefreshAction, _>(error),
            },
    {
        let ghost s = *self;
        proof {
            if let RefreshEvent::Planned { pending } = event {
                batch_count_fits(pending, s.batch_size);
            }
        }
        self.learn(&event);
        assert(event_error(*self, event) == event_error(s, event));
        if let Some(error) = self.error_of(event) {
            return Err(error);
        }
        let action = self.next_action();
        let point = match action {
            RefreshAction::VerifyGeneration { batch } => Some(
                (EmbeddingRefreshStage::Backend, Some(batch)),
            ),
            RefreshAction::PublishLeaves => Some((EmbeddingRefreshStage::LeafPublish, None)),
            _ => None,
        };
        if let Some((stage, batch)) = point {
            if let Err(e) = check_embedding_cancellation(cancelled, stage, batch) {
                return Err(e);
            }
        }
        if let RefreshAction::Embed { .. } = action {
            self.report.backend_batches = self.report.backend_batches + 1;
        }
        self.awaiting = action;
        Ok(action)
    }
}

/// Whether an action comes after the point of no return.
pub open spec fn committed(action: RefreshAction) -> bool {
    match action {
        RefreshAction::PublishLeaves => true,
        RefreshAction::ListSessions => true,
        RefreshAction::Materialize { .. } => true,
        RefreshAction::LoadAggregates => true,
        RefreshAction::PublishAggregates => true,
        RefreshAction::Finish => true,
        _ => false,
    }
}

/// Once the leaves are being published, cancellation makes no difference, so
/// that what is derived from them is always brought up to date.
pub proof fn cancellation_is_ignored_after_commit(s: EmbeddingRefresh, event: RefreshEvent)
    requires
        committed(s.awaiting),
    ensures
        refresh_stepped(s, event, true) == refresh_stepped(s, event, false),
        refresh_stepped(s, event, false) matches Ok(next) ==> committed(next.awaiting),
{
}

/// A refresh that finishes has called the backend once per batch, and there were
/// as many batches as the documents to embed fill.
pub proof fn finished_refresh_sent_every_batch(
    s: EmbeddingRefresh,
    event: RefreshEvent,
    cancelled: bool,
)
    requires
        s.wf(),
        event_fits(s.awaiting, event),
    ensures
        refresh_stepped(s, event, cancelled) matches Ok(next) ==> next.wf() && (
        next.awaiting is Finish ==> next.report.backend_batches == batch_count(
            next.report.leaf_embedded_inputs as int,
            next.batch_size as int,
        )),
{
    if let RefreshEvent::Planned { pending } = event {
        batch_count_fits(pending, s.batch_size);
    }
}

proof fn cached_is_first(cached: Seq<CachedEmbedding>, digest: Seq<char>, i: int)
    requires
        0 <= i,
    ensures
        cached_from(cached, digest, i) is None <==> forall|k: int|
            i <= k < cached.len() ==> (#[trigger] cached[k]).source_sha256@ != digest,
        cached_from(cached, digest, i) is Some ==> exists|k: int|
            i <= k < cached.len() && (#[trigger] cached[k]).source_sha256@ == digest
                && cached_from(cached, digest, i) == Some(cached[k].vector@),
    decreases cached.len() - i,
{
    if i < cached.len() {
        if cached[i].source_sha256@ != digest {
            cached_is_first(cached, digest, i + 1);
        } else {
            assert(cached[i].source_sha256@ == digest);
        }
    }
}

/// A document keeps the vector that it has; without one it takes that of a cached
/// text with the same digest. Only fragments, and messages of at most 240
/// characters, have a vector of their own.
pub proof fn vectors_are_kept(d: LeafDocument, cached: Seq<CachedEmbedding>)
    ensures
        ({
            let direct = d.granularity == RetrievalDocumentGranularity::Fragment || (d.granularity
                == RetrievalDocumentGranularity::Message && d.content@.len() <= 240);
            let known = known_vector(d, cached);
            &&& !direct ==> known is None
            &&& direct && d.reusable_vector is Some ==> known == Some(d.reusable_vector->0@)
            &&& direct && d.reusable_vector is None ==> (known is None <==> forall|k: int|
                0 <= k < cached.len() ==> (#[trigger] cached[k]).source_sha256@
                    != d.source_sha256@)
            &&& direct && d.reusable_vector is None && known is Some ==> exists|k: int|
                0 <= k < cached.len() && (#[trigger] cached[k]).source_sha256@ == d.source_sha256@
                    && known == Some(cached[k].vector@)
        }),
{
    cached_is_first(cached, d.source_sha256@, 0);
}

proof fn pending_documents_lack_vectors(
    documents: Seq<LeafDocument>,
    cached: Seq<CachedEmbedding>,
    n: int,
    i: usize,
)
    requires
        0 <= n <= documents.len() <= usize::MAX,
    ensures
        pending_documents(documents, cached, n).contains(i) <==> i < n && embedded_directly(
            documents[i as int],
        ) && known_vector(documents[i as int], cached) is None,
    decreases n,
{
    if n > 0 {
        pending_documents_lack_vectors(documents, cached, n - 1, i);
        let before = pending_documents(documents, cached, n - 1);
        let now = pending_documents(documents, cached, n);
        if now.contains(i) {
            let k = choose|k: int| 0 <= k < now.len() && now[k] == i;
            if k < before.len() {
                assert(before[k] == i);
            }
        }
        if before.contains(i) {
            let k = choose|k: int| 0 <= k < before.len() && before[k] == i;
            assert(now[k] == i);
        }
        if now.len() > before.len() {
            assert(now[before.len() as int] == (n - 1) as usize);
        }
    }
}

/// A document is sent to the backend exactly where it is embedded by itself, has
/// no vector, and none is cached for its digest.
pub proof fn only_what_is_missing_is_sent(
    documents: Seq<LeafDocument>,
    cached: Seq<CachedEmbedding>,
    i: usize,
)
    requires
        documents.len() <= usize::MAX,
    ensures
        pending_documents(documents, cached, documents.len() as int).contains(i) <==> {
            let d = documents[i as int];
            &&& i < documents.len()
            &&& d.granularity == RetrievalDocumentGranularity::Fragment || (d.granularity
                == RetrievalDocumentGranularity::Message && d.content@.len() <= 240)
            &&& d.reusable_vector is None
            &&& forall|k: int|
                0 <= k < cached.len() ==> (#[trigger] cached[k]).source_sha256@
                    != d.source_sha256@
        },
{
    pending_documents_lack_vectors(documents, cached, documents.len() as int, i);
    cached_is_first(cached, documents[i as int].source_sha256@, 0);
}

/// An answer to a batch is taken exactly where it comes from the model that was
/// asked and holds one vector for each input.
pub proof fn answers_match_their_batch(
    expected_model: Seq<char>,
    model: Seq<char>,
    expected: usize,
    actual: usize,
)
    ensures
        batch_defect(expected_model, model, expected, actual) is None <==> model == expected_model
            && actual == expected,
{
}

/// The embedding of a query is taken exactly where it comes from the model that
/// was asked, is one vector, and has the dimensions that were set.
pub proof fn query_vectors_fit(
    expected_model: Seq<char>,
    model: Seq<char>,
    count: usize,
    expected_dimensions: usize,
    dimensions: usize,
)
    ensures
        query_defect(expected_model, model, count, expected_dimensions, dimensions) is None <==> model
            == expected_model && count == 1 && dimensions == expected_dimensions,
{
}

} // verus!
