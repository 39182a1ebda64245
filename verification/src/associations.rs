//! The links that come from embeddings, answers and claims.

use vstd::prelude::*;
use vstd::string::*;

use crate::boundary::{self, reaches};
use crate::digest::{self, content_sha256};
use crate::evidence::{self, text_part};
use crate::graph::{
    self, parse_role, GraphEdgeType, GraphNode, GraphNodeKind, Leaf, NodeModel,
    EMBEDDING_MUTUAL_MIN_BITS, EMBEDDING_MUTUAL_TOP_K,
};
use crate::links::{
    self, about, add_edge, find_node, GraphLink, LinkModel, Provenance, ProvenanceModel, WeightTerm,
};
use crate::model::{EvidenceKind, SelectedEvidence};
use crate::order::{self, stable_order, KeyPart};
use crate::relations::{self, offset, quote_record, shortest_leaf};
use crate::text::{self, sorted_set, text_before, text_eq};

verus! {

/// A document and its similarity to every document, as the bits of
/// double-precision numbers.
#[derive(Debug, PartialEq, Eq)]
pub struct EmbeddingScores {
    pub document_id: String,
    pub scores: Vec<u64>,
}

/// Every document is compared with all.
pub open spec fn complete_scores(rows: Seq<EmbeddingScores>) -> bool {
    forall|i: int| 0 <= i < rows.len() ==> (#[trigger] rows[i]).scores@.len() == rows.len()
}

pub open spec fn finite_bits(bits: u64) -> bool {
    bits % 0x8000_0000_0000_0000 < 0x7ff0_0000_0000_0000
}

/// Whether a document has a similarity to another that is no finite number.
pub open spec fn has_bad_score(rows: Seq<EmbeddingScores>, i: int) -> bool {
    exists|j: int|
        0 <= j < rows.len() && rows[i].document_id@ != (#[trigger] rows[j]).document_id@
            && !finite_bits(rows[i].scores@[j])
}

pub open spec fn some_bad_score(rows: Seq<EmbeddingScores>) -> bool {
    exists|i: int| 0 <= i < rows.len() && #[trigger] has_bad_score(rows, i)
}

/// The other documents among the first `n` that are similar enough.
pub open spec fn alike(rows: Seq<EmbeddingScores>, i: int, n: int) -> Seq<int>
    decreases n,
{
    if n <= 0 {
        Seq::empty()
    } else if rows[i].document_id@ != rows[n - 1].document_id@ && boundary::bits_reach(
        rows[i].scores@[n - 1],
        EMBEDDING_MUTUAL_MIN_BITS,
    ) {
        alike(rows, i, n - 1).push(n - 1)
    } else {
        alike(rows, i, n - 1)
    }
}

pub open spec fn alike_keys(rows: Seq<EmbeddingScores>, i: int, at: Seq<int>) -> Seq<
    Seq<order::PartModel>,
> {
    Seq::new(
        at.len(),
        |k: int|
            seq![
                order::PartModel::Down(rows[i].scores@[at[k]]),
                order::PartModel::Text(rows[at[k]].document_id@),
            ],
    )
}

/// The documents most similar to one, the best first and at most five.
pub open spec fn nearest(rows: Seq<EmbeddingScores>, i: int) -> Seq<int> {
    let at = alike(rows, i, rows.len() as int);
    let by_score = order::ordered(alike_keys(rows, i, at), at.len() as int);
    let n = if at.len() < EMBEDDING_MUTUAL_TOP_K {
        at.len()
    } else {
        EMBEDDING_MUTUAL_TOP_K as nat
    };
    Seq::new(n, |k: int| at[by_score[k]])
}

/// The last row of a document among the first `n`.
pub open spec fn score_row(rows: Seq<EmbeddingScores>, id: Seq<char>, n: int) -> Option<int>
    decreases n,
{
    if n <= 0 {
        None
    } else if rows[n - 1].document_id@ == id {
        Some(n - 1)
    } else {
        score_row(rows, id, n - 1)
    }
}

/// Whether one of some rows is that of a document.
pub open spec fn holds_document(rows: Seq<EmbeddingScores>, at: Seq<int>, id: Seq<char>) -> bool {
    exists|k: int| 0 <= k < at.len() && rows[#[trigger] at[k]].document_id@ == id
}

/// Whether a document is among the nearest of another.
pub open spec fn is_near(rows: Seq<EmbeddingScores>, from: Seq<char>, to: Seq<char>) -> bool {
    match score_row(rows, from, rows.len() as int) {
        Some(i) => holds_document(rows, nearest(rows, i), to),
        None => false,
    }
}

/// The link of a document with the `k`th of its nearest, where each is near the
/// other and the first comes first.
pub open spec fn near_link(
    rows: Seq<EmbeddingScores>,
    nodes: Seq<NodeModel>,
    left: Seq<char>,
    i: int,
    k: int,
) -> Result<Seq<LinkModel>, Seq<char>> {
    let right = rows[nearest(rows, i)[k]].document_id@;
    if !text::text_lt(left, right) || !is_near(rows, right, left) {
        Ok(links::no_links())
    } else {
        match (
            links::node_of(nodes, GraphNodeKind::Document, left),
            links::node_of(nodes, GraphNodeKind::Document, right),
        ) {
            (Some(l), Some(r)) => links::linked(
                GraphEdgeType::EmbeddingMutualTopK,
                l,
                r,
                false,
                WeightTerm::Bits(rows[i].scores@[nearest(rows, i)[k]]),
                ProvenanceModel {
                    records: seq![left, right],
                    spans: Seq::empty(),
                    terms: Seq::empty(),
                    reasons: Seq::empty(),
                },
            ),
            _ => Err("embedding doc node缺失"@),
        }
    }
}

pub open spec fn near_pairs(
    rows: Seq<EmbeddingScores>,
    nodes: Seq<NodeModel>,
    left: Seq<char>,
    i: int,
) -> spec_fn(int) -> Result<Seq<LinkModel>, Seq<char>> {
    |k: int| near_link(rows, nodes, left, i, k)
}

pub open spec fn score_ids(rows: Seq<EmbeddingScores>) -> Seq<Seq<char>> {
    text::distinct_sorted(Seq::new(rows.len(), |i: int| rows[i].document_id@))
}

/// The links of one document with its nearest.
pub open spec fn near_row(rows: Seq<EmbeddingScores>, nodes: Seq<NodeModel>, left: Seq<char>) -> Result<
    Seq<LinkModel>,
    Seq<char>,
> {
    match score_row(rows, left, rows.len() as int) {
        Some(i) => links::gather(
            links::no_links(),
            near_pairs(rows, nodes, left, i),
            nearest(rows, i).len() as int,
        ),
        None => Ok(links::no_links()),
    }
}

pub open spec fn near_rows(rows: Seq<EmbeddingScores>, nodes: Seq<NodeModel>) -> spec_fn(
    int,
) -> Result<Seq<LinkModel>, Seq<char>> {
    |l: int| near_row(rows, nodes, score_ids(rows)[l])
}

/// Links with those of documents that are near each other.
pub open spec fn with_near(
    start: Seq<LinkModel>,
    rows: Seq<EmbeddingScores>,
    nodes: Seq<NodeModel>,
) -> Result<Seq<LinkModel>, Seq<char>> {
    if some_bad_score(rows) {
        Err("cosine计算非有限"@)
    } else {
        links::gather(start, near_rows(rows, nodes), score_ids(rows).len() as int)
    }
}

fn row_is_bad(rows: &Vec<EmbeddingScores>, i: usize) -> (r: bool)
    requires
        i < rows@.len(),
        complete_scores(rows@),
    ensures
        r == has_bad_score(rows@, i as int),
{
    let own = &rows[i];
    let mut j: usize = 0;
    while j < rows.len()
        invariant
            j <= rows@.len(),
            i < rows@.len(),
            *own == rows@[i as int],
            own.scores@.len() == rows@.len(),
            forall|k: int|
                0 <= k < j ==> !(own.document_id@ != (#[trigger] rows@[k]).document_id@
                    && !finite_bits(own.scores@[k])),
        decreases rows.len() - j,
    {
        if !text_eq(own.document_id.as_str(), rows[j].document_id.as_str()) && !(own.scores[j]
            % 0x8000_0000_0000_0000 < 0x7ff0_0000_0000_0000) {
            assert(rows@[j as int].document_id@ != own.document_id@);
            return true;
        }
        j += 1;
    }
    false
}

fn find_nearest(rows: &Vec<EmbeddingScores>, i: usize) -> (r: Vec<usize>)
    requires
        i < rows@.len(),
        complete_scores(rows@),
    ensures
        order::indices(r@) == nearest(rows@, i as int),
        forall|k: int| 0 <= k < r@.len() ==> #[trigger] r@[k] < rows@.len(),
{
    let own = &rows[i];
    let mut at: Vec<usize> = Vec::new();
    let mut j: usize = 0;
    assert(order::indices(at@) =~= Seq::empty());
    while j < rows.len()
        invariant
            j <= rows@.len(),
            i < rows@.len(),
            *own == rows@[i as int],
            own.scores@.len() == rows@.len(),
            order::indices(at@) == alike(rows@, i as int, j as int),
            forall|k: int| 0 <= k < at@.len() ==> #[trigger] at@[k] < j,
        decreases rows.len() - j,
    {
        if !text_eq(own.document_id.as_str(), rows[j].document_id.as_str()) && reaches(
            own.scores[j],
            EMBEDDING_MUTUAL_MIN_BITS,
        ) {
            let ghost before = order::indices(at@);
            at.push(j);
            assert(order::indices(at@) =~= before.push(j as int));
        }
        j += 1;
    }
    let ghost places = order::indices(at@);
    let mut keys: Vec<Vec<KeyPart>> = Vec::new();
    let mut m: usize = 0;
    while m < at.len()
        invariant
            m <= at@.len(),
            i < rows@.len(),
            *own == rows@[i as int],
            own.scores@.len() == rows@.len(),
            keys@.len() == m,
            places == order::indices(at@),
            forall|k: int| 0 <= k < at@.len() ==> #[trigger] at@[k] < rows@.len(),
            forall|k: int|
                0 <= k < m ==> order::key_model((#[trigger] keys@[k])@) == alike_keys(
                    rows@,
                    i as int,
                    places,
                )[k],
        decreases at.len() - m,
    {
        assert(places[m as int] == at@[m as int]);
        let mut key: Vec<KeyPart> = Vec::new();
        key.push(KeyPart::Down(own.scores[at[m]]));
        key.push(KeyPart::Text(rows[at[m]].document_id.clone()));
        assert(order::key_model(key@) =~= alike_keys(rows@, i as int, places)[m as int]);
        keys.push(key);
        m += 1;
    }
    assert(order::key_models(keys@) =~= alike_keys(rows@, i as int, places));
    let by_score = stable_order(&keys);
    let ghost turns = order::indices(by_score@);
    let limit: usize = if at.len() < EMBEDDING_MUTUAL_TOP_K {
        at.len()
    } else {
        EMBEDDING_MUTUAL_TOP_K
    };
    let mut out: Vec<usize> = Vec::new();
    let mut q: usize = 0;
    while q < limit
        invariant
            q <= limit <= by_score@.len(),
            by_score@.len() == at@.len(),
            out@.len() == q,
            places == order::indices(at@),
            turns == order::indices(by_score@),
            forall|k: int| 0 <= k < at@.len() ==> #[trigger] at@[k] < rows@.len(),
            forall|k: int| 0 <= k < by_score@.len() ==> #[trigger] by_score@[k] < at@.len(),
            forall|k: int| 0 <= k < q ==> #[trigger] out@[k] == places[turns[k]],
            forall|k: int| 0 <= k < q ==> #[trigger] out@[k] < rows@.len(),
        decreases limit - q,
    {
        assert(turns[q as int] == by_score@[q as int]);
        assert(places[turns[q as int]] == at@[by_score@[q as int] as int]);
        out.push(at[by_score[q]]);
        q += 1;
    }
    assert(order::indices(out@) =~= nearest(rows@, i as int));
    out
}

fn find_scores(rows: &Vec<EmbeddingScores>, id: &str) -> (r: Option<usize>)
    ensures
        match r {
            Some(p) => p < rows@.len() && score_row(rows@, id@, rows@.len() as int) == Some(
                p as int,
            ),
            None => score_row(rows@, id@, rows@.len() as int) is None,
        },
{
    let mut n: usize = rows.len();
    while n > 0
        invariant
            n <= rows@.len(),
            score_row(rows@, id@, rows@.len() as int) == score_row(rows@, id@, n as int),
        decreases n,
    {
        if text_eq(rows[n - 1].document_id.as_str(), id) {
            return Some(n - 1);
        }
        n -= 1;
    }
    None
}

/// The nearest of every row.
spec fn tops_are(tops: Seq<Vec<usize>>, rows: Seq<EmbeddingScores>) -> bool {
    &&& tops.len() == rows.len()
    &&& forall|i: int|
        0 <= i < tops.len() ==> order::indices((#[trigger] tops[i])@) == nearest(rows, i)
    &&& forall|i: int, k: int|
        0 <= i < tops.len() && 0 <= k < tops[i]@.len() ==> #[trigger] tops[i]@[k] < rows.len()
}

fn near(rows: &Vec<EmbeddingScores>, tops: &Vec<Vec<usize>>, from: &str, to: &str) -> (r: bool)
    requires
        tops_are(tops@, rows@),
    ensures
        r == is_near(rows@, from@, to@),
{
    match find_scores(rows, from) {
        None => false,
        Some(i) => {
            let top = &tops[i];
            let ghost want = nearest(rows@, i as int);
            assert(order::indices(top@) == want);
            let mut k: usize = 0;
            while k < top.len()
                invariant
                    k <= top@.len(),
                    want == nearest(rows@, i as int),
                    order::indices(top@) == want,
                    i < tops@.len(),
                    *top == tops@[i as int],
                    tops_are(tops@, rows@),
                    score_row(rows@, from@, rows@.len() as int) == Some(i as int),
                    forall|q: int|
                        0 <= q < k ==> rows@[#[trigger] want[q]].document_id@ != to@,
                decreases top.len() - k,
            {
                assert(want[k as int] == top@[k as int]);
                assert(tops@[i as int]@[k as int] < rows@.len());
                if text_eq(rows[top[k]].document_id.as_str(), to) {
                    assert(holds_document(rows@, want, to@));
                    return true;
                }
                k += 1;
            }
            false
        },
    }
}

fn add_near_pair(
    out: &mut Vec<GraphLink>,
    rows: &Vec<EmbeddingScores>,
    tops: &Vec<Vec<usize>>,
    nodes: &Vec<GraphNode>,
    left: &str,
    i: usize,
    k: usize,
) -> (r: Result<(), String>)
    requires
        tops_are(tops@, rows@),
        complete_scores(rows@),
        i < rows@.len(),
        k < tops@[i as int]@.len(),
    ensures
        links::links_are(
            r,
            final(out)@,
            links::extended(
                links::link_models(old(out)@),
                near_link(rows@, graph::node_models(nodes@), left@, i as int, k as int),
            ),
        ),
{
    let ghost start = links::link_models(out@);
    assert(start + links::no_links() =~= start);
    let ghost want = nearest(rows@, i as int);
    assert(order::indices(tops@[i as int]@) == want);
    assert(want[k as int] == tops@[i as int]@[k as int]);
    let j = tops[i][k];
    let right = rows[j].document_id.as_str();
    if !text_before(left, right) || !near(rows, tops, right, left) {
        return Ok(());
    }
    let l = match find_node(nodes, GraphNodeKind::Document, left) {
        Some(id) => id,
        None => return Err("embedding doc node缺失".to_owned()),
    };
    let r = match find_node(nodes, GraphNodeKind::Document, right) {
        Some(id) => id,
        None => return Err("embedding doc node缺失".to_owned()),
    };
    let mut record_ids: Vec<String> = Vec::new();
    record_ids.push(left.to_owned());
    record_ids.push(right.to_owned());
    let provenance = Provenance {
        record_ids,
        spans: Vec::new(),
        terms: Vec::new(),
        reasons: Vec::new(),
    };
    proof {
        assert(text::texts(provenance.record_ids@) =~= seq![left@, right@]);
        assert(links::span_models(provenance.spans@) =~= Seq::empty());
        assert(text::texts(provenance.terms@) =~= Seq::empty());
        assert(text::texts(provenance.reasons@) =~= Seq::empty());
    }
    add_edge(
        out,
        GraphEdgeType::EmbeddingMutualTopK,
        l,
        r,
        false,
        WeightTerm::Bits(rows[i].scores[j]),
        provenance,
    )
}

fn add_near_row(
    out: &mut Vec<GraphLink>,
    rows: &Vec<EmbeddingScores>,
    tops: &Vec<Vec<usize>>,
    nodes: &Vec<GraphNode>,
    left: &str,
) -> (r: Result<(), String>)
    requires
        tops_are(tops@, rows@),
        complete_scores(rows@),
    ensures
        links::links_are(
            r,
            final(out)@,
            links::extended(
                links::link_models(old(out)@),
                near_row(rows@, graph::node_models(nodes@), left@),
            ),
        ),
{
    let ghost start = links::link_models(out@);
    assert(start + links::no_links() =~= start);
    let i = match find_scores(rows, left) {
        Some(i) => i,
        None => return Ok(()),
    };
    let ghost models = graph::node_models(nodes@);
    let ghost step = near_pairs(rows@, models, left@, i as int);
    let count = tops[i].len();
    assert(order::indices(tops@[i as int]@) == nearest(rows@, i as int));
    proof {
        links::gather_shift(start, step, count as int);
    }
    let mut k: usize = 0;
    while k < count
        invariant
            k <= count,
            i < rows@.len(),
            tops_are(tops@, rows@),
            complete_scores(rows@),
            count == tops@[i as int]@.len(),
            count == nearest(rows@, i as int).len(),
            score_row(rows@, left@, rows@.len() as int) == Some(i as int),
            models == graph::node_models(nodes@),
            step == near_pairs(rows@, models, left@, i as int),
            start == links::link_models(old(out)@),
            links::gather(start, step, k as int) == Ok::<Seq<LinkModel>, Seq<char>>(
                links::link_models(out@),
            ),
            links::gather(start, step, count as int) == links::extended(
                start,
                links::gather(links::no_links(), step, count as int),
            ),
        decreases count - k,
    {
        assert(step(k as int) == near_link(rows@, models, left@, i as int, k as int));
        if let Err(e) = add_near_pair(out, rows, tops, nodes, left, i, k) {
            proof {
                links::gather_stops(start, step, k + 1, count as int);
            }
            return Err(e);
        }
        k += 1;
    }
    Ok(())
}

/// Links documents whose embeddings are near each other.
pub fn add_embedding_edges(
    out: &mut Vec<GraphLink>,
    rows: &Vec<EmbeddingScores>,
    nodes: &Vec<GraphNode>,
) -> (r: Result<(), String>)
    requires
        complete_scores(rows@),
    ensures
        links::links_are(
            r,
            final(out)@,
            with_near(links::link_models(old(out)@), rows@, graph::node_models(nodes@)),
        ),
{
    let mut tops: Vec<Vec<usize>> = Vec::new();
    let mut ids: Vec<String> = Vec::new();
    let mut i: usize = 0;
    while i < rows.len()
        invariant
            i <= rows@.len(),
            complete_scores(rows@),
            tops@.len() == i,
            ids@.len() == i,
            forall|k: int| 0 <= k < i ==> !#[trigger] has_bad_score(rows@, k),
            forall|k: int|
                0 <= k < i ==> order::indices((#[trigger] tops@[k])@) == nearest(rows@, k),
            forall|k: int, q: int|
                0 <= k < i && 0 <= q < tops@[k]@.len() ==> #[trigger] tops@[k]@[q] < rows@.len(),
            forall|k: int| 0 <= k < i ==> (#[trigger] ids@[k])@ == rows@[k].document_id@,
        decreases rows.len() - i,
    {
        if row_is_bad(rows, i) {
            return Err("cosine计算非有限".to_owned());
        }
        tops.push(find_nearest(rows, i));
        ids.push(rows[i].document_id.clone());
        i += 1;
    }
    assert(text::texts(ids@) =~= Seq::new(rows@.len(), |k: int| rows@[k].document_id@));
    let lefts = sorted_set(&ids);
    proof {
        text::distinct_sorted_is(text::texts(ids@), text::texts(lefts@));
    }
    let ghost names = text::texts(lefts@);
    let ghost models = graph::node_models(nodes@);
    let ghost start = links::link_models(out@);
    let ghost step = near_rows(rows@, models);
    let mut l: usize = 0;
    while l < lefts.len()
        invariant
            l <= lefts@.len(),
            complete_scores(rows@),
            tops_are(tops@, rows@),
            !some_bad_score(rows@),
            names == text::texts(lefts@),
            names == score_ids(rows@),
            models == graph::node_models(nodes@),
            step == near_rows(rows@, models),
            start == links::link_models(old(out)@),
            links::gather(start, step, l as int) == Ok::<Seq<LinkModel>, Seq<char>>(
                links::link_models(out@),
            ),
        decreases lefts.len() - l,
    {
        assert(names[l as int] == lefts@[l as int]@);
        assert(step(l as int) == near_row(rows@, models, lefts@[l as int]@));
        if let Err(e) = add_near_row(out, rows, &tops, nodes, lefts[l].as_str()) {
            proof {
                links::gather_stops(start, step, l + 1, names.len() as int);
            }
            return Err(e);
        }
        l += 1;
    }
    Ok(())
}

/// An answer, and the evidence that was chosen for it.
#[derive(Debug, PartialEq, Eq)]
pub struct RecallRun {
    pub answer_id: String,
    pub evidence: Vec<SelectedEvidence>,
}

/// Evidence whose ranges do not run backwards.
pub open spec fn runs_sound(v: Seq<RecallRun>) -> bool {
    forall|i: int, k: int|
        0 <= i < v.len() && 0 <= k < v[i].evidence@.len() ==> (#[trigger] v[i].evidence@[k]).span.start_char
            <= v[i].evidence@[k].span.end_char
}

/// The document that a piece of evidence stands in.
pub open spec fn evidence_document(answer: Seq<char>, e: SelectedEvidence, leaves: Seq<Leaf>) -> Result<
    Seq<char>,
    Seq<char>,
> {
    match relations::best_leaf(
        leaves,
        e.span.event_id@,
        e.span.start_char,
        e.span.end_char,
        leaves.len() as int,
    ) {
        None => Err("run "@ + answer + " evidence无leaf映射"@),
        Some(p) => {
            let l = leaves[p];
            let quoted = evidence::part(
                l.content@,
                e.span.start_char - l.start,
                e.span.end_char - l.start,
            );
            if e.content_sha256@ != digest::text_digest(quoted) || e.role != l.role {
                Err("run "@ + answer + " evidence binding错误"@)
            } else {
                Ok(l.node_id@)
            }
        },
    }
}

/// The documents of the first `n` pieces of core evidence.
pub open spec fn run_documents(run: RecallRun, leaves: Seq<Leaf>, n: int) -> Result<
    Seq<Seq<char>>,
    Seq<char>,
>
    decreases n,
{
    if n <= 0 {
        Ok(Seq::empty())
    } else {
        match run_documents(run, leaves, n - 1) {
            Err(e) => Err(e),
            Ok(v) => {
                let piece = run.evidence@[n - 1];
                if piece.kind != EvidenceKind::Core {
                    Ok(v)
                } else {
                    match evidence_document(run.answer_id@, piece, leaves) {
                        Ok(id) => Ok(v.push(id)),
                        Err(e) => Err(e),
                    }
                }
            },
        }
    }
}

proof fn run_documents_stop(run: RecallRun, leaves: Seq<Leaf>, k: int, n: int)
    requires
        k <= n,
        run_documents(run, leaves, k) is Err,
    ensures
        run_documents(run, leaves, n) == run_documents(run, leaves, k),
    decreases n - k,
{
    if k < n {
        run_documents_stop(run, leaves, k, n - 1);
    }
}

/// The link of two documents that an answer used together.
pub open spec fn recall_link(answer: Seq<char>, docs: Seq<Seq<char>>, i: int, j: int) -> Result<
    Seq<LinkModel>,
    Seq<char>,
> {
    links::linked(
        GraphEdgeType::CommonRecall,
        docs[i],
        docs[j],
        false,
        WeightTerm::One,
        ProvenanceModel {
            records: seq![answer],
            spans: Seq::empty(),
            terms: Seq::empty(),
            reasons: Seq::empty(),
        },
    )
}

pub open spec fn recall_pairs(answer: Seq<char>, docs: Seq<Seq<char>>, i: int) -> spec_fn(
    int,
) -> Result<Seq<LinkModel>, Seq<char>> {
    |k: int| recall_link(answer, docs, i, i + 1 + k)
}

pub open spec fn recall_row(answer: Seq<char>, docs: Seq<Seq<char>>, i: int) -> Result<
    Seq<LinkModel>,
    Seq<char>,
> {
    links::gather(links::no_links(), recall_pairs(answer, docs, i), docs.len() - i - 1)
}

pub open spec fn recall_rows(answer: Seq<char>, docs: Seq<Seq<char>>) -> spec_fn(int) -> Result<
    Seq<LinkModel>,
    Seq<char>,
> {
    |i: int| recall_row(answer, docs, i)
}

/// The links of all pairs of documents of one answer.
pub open spec fn recall_step(run: RecallRun, leaves: Seq<Leaf>) -> Result<
    Seq<LinkModel>,
    Seq<char>,
> {
    match run_documents(run, leaves, run.evidence@.len() as int) {
        Err(e) => Err(e),
        Ok(v) => {
            let docs = text::distinct_sorted(v);
            links::gather(
                links::no_links(),
                recall_rows(run.answer_id@, docs),
                docs.len() as int,
            )
        },
    }
}

pub open spec fn recall_steps(runs: Seq<RecallRun>, leaves: Seq<Leaf>) -> spec_fn(int) -> Result<
    Seq<LinkModel>,
    Seq<char>,
> {
    |i: int| recall_step(runs[i], leaves)
}

fn place_evidence(answer: &str, e: &SelectedEvidence, leaves: &Vec<Leaf>) -> (r: Result<
    String,
    String,
>)
    requires
        relations::leaves_sound(leaves@),
        e.span.start_char <= e.span.end_char,
    ensures
        match r {
            Ok(id) => evidence_document(answer@, *e, leaves@) == Ok::<Seq<char>, Seq<char>>(id@),
            Err(m) => evidence_document(answer@, *e, leaves@) == Err::<Seq<char>, Seq<char>>(m@),
        },
{
    let leaf = match shortest_leaf(
        leaves,
        e.span.event_id.as_str(),
        e.span.start_char,
        e.span.end_char,
    ) {
        Some(p) => &leaves[p],
        None => return Err(about("run ", answer, " evidence无leaf映射")),
    };
    let quoted = text_part(
        leaf.content.as_str(),
        e.span.start_char - leaf.start,
        e.span.end_char - leaf.start,
    );
    let hash = content_sha256(quoted.as_str());
    if !text_eq(e.content_sha256.as_str(), hash.as_str()) || !(e.role == leaf.role) {
        return Err(about("run ", answer, " evidence binding错误"));
    }
    Ok(leaf.node_id.clone())
}

fn place_run(run: &RecallRun, leaves: &Vec<Leaf>) -> (r: Result<Vec<String>, String>)
    requires
        relations::leaves_sound(leaves@),
        forall|k: int|
            0 <= k < run.evidence@.len() ==> (#[trigger] run.evidence@[k]).span.start_char
                <= run.evidence@[k].span.end_char,
    ensures
        match r {
            Ok(docs) => run_documents(*run, leaves@, run.evidence@.len() as int) is Ok
                && text::texts(docs@) == text::distinct_sorted(
                run_documents(*run, leaves@, run.evidence@.len() as int)->Ok_0,
            ),
            Err(e) => run_documents(*run, leaves@, run.evidence@.len() as int) == Err::<
                Seq<Seq<char>>,
                Seq<char>,
            >(e@),
        },
{
    let mut all: Vec<String> = Vec::new();
    let mut i: usize = 0;
    assert(text::texts(all@) =~= Seq::empty());
    while i < run.evidence.len()
        invariant
            i <= run.evidence@.len(),
            relations::leaves_sound(leaves@),
            forall|k: int|
                0 <= k < run.evidence@.len() ==> (#[trigger] run.evidence@[k]).span.start_char
                    <= run.evidence@[k].span.end_char,
            run_documents(*run, leaves@, i as int) == Ok::<Seq<Seq<char>>, Seq<char>>(
                text::texts(all@),
            ),
        decreases run.evidence.len() - i,
    {
        let piece = &run.evidence[i];
        if piece.kind == EvidenceKind::Core {
            match place_evidence(run.answer_id.as_str(), piece, leaves) {
                Ok(id) => {
                    let ghost before = text::texts(all@);
                    all.push(id);
                    assert(text::texts(all@) =~= before.push(id@));
                },
                Err(e) => {
                    proof {
                        run_documents_stop(*run, leaves@, i + 1, run.evidence@.len() as int);
                    }
                    return Err(e);
                },
            }
        }
        i += 1;
    }
    let out = sorted_set(&all);
    proof {
        text::distinct_sorted_is(text::texts(all@), text::texts(out@));
    }
    Ok(out)
}

fn add_recall_row(out: &mut Vec<GraphLink>, answer: &str, docs: &Vec<String>, i: usize) -> (r:
    Result<(), String>)
    requires
        i < docs@.len(),
    ensures
        links::links_are(
            r,
            final(out)@,
            links::extended(
                links::link_models(old(out)@),
                recall_row(answer@, text::texts(docs@), i as int),
            ),
        ),
{
    let ghost names = text::texts(docs@);
    let ghost start = links::link_models(out@);
    let ghost step = recall_pairs(answer@, names, i as int);
    let ghost total = docs@.len() - i - 1;
    proof {
        links::gather_shift(start, step, total);
    }
    let count = docs.len();
    let mut j: usize = i + 1;
    while j < count
        invariant
            i < j <= count,
            count == docs@.len(),
            names == text::texts(docs@),
            step == recall_pairs(answer@, names, i as int),
            start == links::link_models(old(out)@),
            total == docs@.len() - i - 1,
            links::gather(start, step, j - i - 1) == Ok::<Seq<LinkModel>, Seq<char>>(
                links::link_models(out@),
            ),
            links::gather(start, step, total) == links::extended(
                start,
                recall_row(answer@, names, i as int),
            ),
        decreases count - j,
    {
        let mut record_ids: Vec<String> = Vec::new();
        record_ids.push(answer.to_owned());
        let provenance = Provenance {
            record_ids,
            spans: Vec::new(),
            terms: Vec::new(),
            reasons: Vec::new(),
        };
        proof {
            assert(names[i as int] == docs@[i as int]@ && names[j as int] == docs@[j as int]@);
            assert(text::texts(provenance.record_ids@) =~= seq![answer@]);
            assert(links::span_models(provenance.spans@) =~= Seq::empty());
            assert(text::texts(provenance.terms@) =~= Seq::empty());
            assert(text::texts(provenance.reasons@) =~= Seq::empty());
            assert(step(j - i - 1) == recall_link(answer@, names, i as int, j as int));
        }
        if let Err(e) = add_edge(
            out,
            GraphEdgeType::CommonRecall,
            docs[i].as_str(),
            docs[j].as_str(),
            false,
            WeightTerm::One,
            provenance,
        ) {
            proof {
                links::gather_stops(start, step, j - i, total);
            }
            return Err(e);
        }
        j += 1;
    }
    Ok(())
}

fn add_run(out: &mut Vec<GraphLink>, run: &RecallRun, leaves: &Vec<Leaf>) -> (r: Result<(), String>)
    requires
        relations::leaves_sound(leaves@),
        forall|k: int|
            0 <= k < run.evidence@.len() ==> (#[trigger] run.evidence@[k]).span.start_char
                <= run.evidence@[k].span.end_char,
    ensures
        links::links_are(
            r,
            final(out)@,
            links::extended(links::link_models(old(out)@), recall_step(*run, leaves@)),
        ),
{
    let docs = match place_run(run, leaves) {
        Ok(docs) => docs,
        Err(e) => return Err(e),
    };
    let ghost names = text::texts(docs@);
    let ghost start = links::link_models(out@);
    let ghost step = recall_rows(run.answer_id@, names);
    proof {
        links::gather_shift(start, step, names.len() as int);
    }
    let mut i: usize = 0;
    while i < docs.len()
        invariant
            i <= docs@.len(),
            names == text::texts(docs@),
            step == recall_rows(run.answer_id@, names),
            start == links::link_models(old(out)@),
            recall_step(*run, leaves@) == links::gather(
                links::no_links(),
                step,
                names.len() as int,
            ),
            links::gather(start, step, i as int) == Ok::<Seq<LinkModel>, Seq<char>>(
                links::link_models(out@),
            ),
            links::gather(start, step, names.len() as int) == links::extended(
                start,
                links::gather(links::no_links(), step, names.len() as int),
            ),
        decreases docs.len() - i,
    {
        assert(step(i as int) == recall_row(run.answer_id@, names, i as int));
        if let Err(e) = add_recall_row(out, run.answer_id.as_str(), &docs, i) {
            proof {
                links::gather_stops(start, step, i + 1, names.len() as int);
            }
            return Err(e);
        }
        i += 1;
    }
    Ok(())
}

/// Links documents that the same answer used.
pub fn add_recall_edges(out: &mut Vec<GraphLink>, runs: &Vec<RecallRun>, leaves: &Vec<Leaf>) -> (r:
    Result<(), String>)
    requires
        relations::leaves_sound(leaves@),
        runs_sound(runs@),
    ensures
        links::links_are(
            r,
            final(out)@,
            links::gather(
                links::link_models(old(out)@),
                recall_steps(runs@, leaves@),
                runs@.len() as int,
            ),
        ),
{
    let ghost start = links::link_models(out@);
    let ghost step = recall_steps(runs@, leaves@);
    let mut i: usize = 0;
    while i < runs.len()
        invariant
            i <= runs@.len(),
            relations::leaves_sound(leaves@),
            runs_sound(runs@),
            step == recall_steps(runs@, leaves@),
            start == links::link_models(old(out)@),
            links::gather(start, step, i as int) == Ok::<Seq<LinkModel>, Seq<char>>(
                links::link_models(out@),
            ),
        decreases runs.len() - i,
    {
        assert(step(i as int) == recall_step(runs@[i as int], leaves@));
        assert forall|k: int| 0 <= k < runs@[i as int].evidence@.len() implies (
        #[trigger] runs@[i as int].evidence@[k]).span.start_char
            <= runs@[i as int].evidence@[k].span.end_char by {}
        if let Err(e) = add_run(out, &runs[i], leaves) {
            proof {
                links::gather_stops(start, step, i + 1, runs@.len() as int);
            }
            return Err(e);
        }
        i += 1;
    }
    Ok(())
}

/// A row that ties a claim to a place in an event.
#[derive(Debug, PartialEq, Eq)]
pub struct ClaimEvidenceRow {
    pub evidence_id: String,
    pub claim_id: String,
    pub event_id: String,
    pub start_char: i64,
    pub end_char: i64,
    pub content_sha256: String,
    pub session_id: String,
    pub role: String,
    pub kind: String,
}

/// A row that ties a claim to the one that it gave way to.
#[derive(Debug, PartialEq, Eq)]
pub struct TransitionRow {
    pub transition_id: String,
    pub claim_id: String,
    pub reason: String,
    pub related_claim_id: String,
}

pub open spec fn claim_leaf(row: ClaimEvidenceRow, leaves: Seq<Leaf>) -> Option<int> {
    relations::best_leaf(
        leaves,
        row.event_id@,
        row.start_char as usize,
        row.end_char as usize,
        leaves.len() as int,
    )
}

/// The link of a claim with a document that supports it.
pub open spec fn support_step(
    row: ClaimEvidenceRow,
    nodes: Seq<NodeModel>,
    leaves: Seq<Leaf>,
) -> Result<Seq<LinkModel>, Seq<char>> {
    if !relations::is_offset(row.start_char) || !relations::is_offset(row.end_char) {
        Err("evidence span无效"@)
    } else {
        match claim_leaf(row, leaves) {
            None => Err("evidence "@ + row.evidence_id@ + " 无leaf"@),
            Some(p) => if row.session_id@ != leaves[p].session_id@ {
                Err("evidence binding错误"@)
            } else {
                match (
                    graph::role_named(row.role@),
                    links::node_of(nodes, GraphNodeKind::Claim, row.claim_id@),
                ) {
                    (None, _) => Err(graph::unknown_role(row.role@)),
                    (Some(role), claim) => if role != leaves[p].role {
                        Err("evidence binding错误"@)
                    } else {
                        match claim {
                            None => Err("evidence claim node缺失"@),
                            Some(id) => links::linked(
                                GraphEdgeType::Support,
                                id,
                                leaves[p].node_id@,
                                false,
                                WeightTerm::One,
                                relations::record_provenance(
                                    row.evidence_id@,
                                    leaves[p],
                                    row.start_char as usize,
                                    row.end_char as usize,
                                    row.content_sha256@,
                                    row.kind@,
                                ),
                            ),
                        }
                    },
                }
            },
        }
    }
}

pub open spec fn support_steps(
    rows: Seq<ClaimEvidenceRow>,
    nodes: Seq<NodeModel>,
    leaves: Seq<Leaf>,
) -> spec_fn(int) -> Result<Seq<LinkModel>, Seq<char>> {
    |i: int| support_step(rows[i], nodes, leaves)
}

/// The link of a claim with the one that it gave way to: a conflict, or else a
/// replacement, which has a direction.
pub open spec fn transition_step(row: TransitionRow, nodes: Seq<NodeModel>) -> Result<
    Seq<LinkModel>,
    Seq<char>,
> {
    match (
        links::node_of(nodes, GraphNodeKind::Claim, row.claim_id@),
        links::node_of(nodes, GraphNodeKind::Claim, row.related_claim_id@),
    ) {
        (None, _) => Err("transition old claim缺失"@),
        (_, None) => Err("transition related claim缺失"@),
        (Some(old_id), Some(new_id)) => {
            let kind = if row.reason@ == "conflicted"@ {
                GraphEdgeType::Conflict
            } else {
                GraphEdgeType::Replacement
            };
            links::linked(
                kind,
                old_id,
                new_id,
                kind == GraphEdgeType::Replacement,
                WeightTerm::One,
                ProvenanceModel {
                    records: seq![row.transition_id@],
                    spans: Seq::empty(),
                    terms: Seq::empty(),
                    reasons: seq![row.reason@],
                },
            )
        },
    }
}

pub open spec fn transition_steps(rows: Seq<TransitionRow>, nodes: Seq<NodeModel>) -> spec_fn(
    int,
) -> Result<Seq<LinkModel>, Seq<char>> {
    |i: int| transition_step(rows[i], nodes)
}

/// Links with those of supported claims, and then with those of claims that gave
/// way.
pub open spec fn with_claims(
    start: Seq<LinkModel>,
    evidence: Seq<ClaimEvidenceRow>,
    transitions: Seq<TransitionRow>,
    nodes: Seq<NodeModel>,
    leaves: Seq<Leaf>,
) -> Result<Seq<LinkModel>, Seq<char>> {
    match links::gather(start, support_steps(evidence, nodes, leaves), evidence.len() as int) {
        Ok(v) => links::gather(v, transition_steps(transitions, nodes), transitions.len() as int),
        Err(e) => Err(e),
    }
}

fn add_support(
    out: &mut Vec<GraphLink>,
    row: &ClaimEvidenceRow,
    nodes: &Vec<GraphNode>,
    leaves: &Vec<Leaf>,
) -> (r: Result<(), String>)
    requires
        relations::leaves_sound(leaves@),
    ensures
        links::links_are(
            r,
            final(out)@,
            links::extended(
                links::link_models(old(out)@),
                support_step(*row, graph::node_models(nodes@), leaves@),
            ),
        ),
{
    let (start, end) = match (offset(row.start_char), offset(row.end_char)) {
        (Some(start), Some(end)) => (start, end),
        _ => return Err("evidence span无效".to_owned()),
    };
    let leaf = match shortest_leaf(leaves, row.event_id.as_str(), start, end) {
        Some(p) => &leaves[p],
        None => return Err(about("evidence ", row.evidence_id.as_str(), " 无leaf")),
    };
    if !text_eq(row.session_id.as_str(), leaf.session_id.as_str()) {
        return Err("evidence binding错误".to_owned());
    }
    let role = match parse_role(row.role.as_str()) {
        Ok(role) => role,
        Err(e) => return Err(e),
    };
    if !(role == leaf.role) {
        return Err("evidence binding错误".to_owned());
    }
    let claim = match find_node(nodes, GraphNodeKind::Claim, row.claim_id.as_str()) {
        Some(id) => id,
        None => return Err("evidence claim node缺失".to_owned()),
    };
    let provenance = quote_record(
        row.evidence_id.as_str(),
        leaf,
        start,
        end,
        row.content_sha256.as_str(),
        row.kind.as_str(),
    );
    add_edge(
        out,
        GraphEdgeType::Support,
        claim,
        leaf.node_id.as_str(),
        false,
        WeightTerm::One,
        provenance,
    )
}

fn add_transition(out: &mut Vec<GraphLink>, row: &TransitionRow, nodes: &Vec<GraphNode>) -> (r:
    Result<(), String>)
    ensures
        links::links_are(
            r,
            final(out)@,
            links::extended(
                links::link_models(old(out)@),
                transition_step(*row, graph::node_models(nodes@)),
            ),
        ),
{
    let before = match find_node(nodes, GraphNodeKind::Claim, row.claim_id.as_str()) {
        Some(id) => id,
        None => return Err("transition old claim缺失".to_owned()),
    };
    let after = match find_node(nodes, GraphNodeKind::Claim, row.related_claim_id.as_str()) {
        Some(id) => id,
        None => return Err("transition related claim缺失".to_owned()),
    };
    let conflict = text_eq(row.reason.as_str(), "conflicted");
    let kind = if conflict {
        GraphEdgeType::Conflict
    } else {
        GraphEdgeType::Replacement
    };
    let mut record_ids: Vec<String> = Vec::new();
    record_ids.push(row.transition_id.clone());
    let mut reasons: Vec<String> = Vec::new();
    reasons.push(row.reason.clone());
    let provenance = Provenance { record_ids, spans: Vec::new(), terms: Vec::new(), reasons };
    proof {
        assert(text::texts(provenance.record_ids@) =~= seq![row.transition_id@]);
        assert(links::span_models(provenance.spans@) =~= Seq::empty());
        assert(text::texts(provenance.terms@) =~= Seq::empty());
        assert(text::texts(provenance.reasons@) =~= seq![row.reason@]);
    }
    add_edge(out, kind, before, after, !conflict, WeightTerm::One, provenance)
}

/// Links claims with the documents that support them, and with the claims that
/// they gave way to.
pub fn add_claim_edges(
    out: &mut Vec<GraphLink>,
    evidence: &Vec<ClaimEvidenceRow>,
    transitions: &Vec<TransitionRow>,
    nodes: &Vec<GraphNode>,
    leaves: &Vec<Leaf>,
) -> (r: Result<(), String>)
    requires
        relations::leaves_sound(leaves@),
    ensures
        links::links_are(
            r,
            final(out)@,
            with_claims(
                links::link_models(old(out)@),
                evidence@,
                transitions@,
                graph::node_models(nodes@),
                leaves@,
            ),
        ),
{
    let ghost models = graph::node_models(nodes@);
    let ghost start = links::link_models(out@);
    let ghost step = support_steps(evidence@, models, leaves@);
    let mut i: usize = 0;
    while i < evidence.len()
        invariant
            i <= evidence@.len(),
            relations::leaves_sound(leaves@),
            models == graph::node_models(nodes@),
            step == support_steps(evidence@, models, leaves@),
            start == links::link_models(old(out)@),
            links::gather(start, step, i as int) == Ok::<Seq<LinkModel>, Seq<char>>(
                links::link_models(out@),
            ),
        decreases evidence.len() - i,
    {
        assert(step(i as int) == support_step(evidence@[i as int], models, leaves@));
        if let Err(e) = add_support(out, &evidence[i], nodes, leaves) {
            proof {
                links::gather_stops(start, step, i + 1, evidence@.len() as int);
            }
            return Err(e);
        }
        i += 1;
    }
    let ghost middle = links::link_models(out@);
    let ghost next = transition_steps(transitions@, models);
    let mut j: usize = 0;
    while j < transitions.len()
        invariant
            j <= transitions@.len(),
            models == graph::node_models(nodes@),
            next == transition_steps(transitions@, models),
            start == links::link_models(old(out)@),
            step == support_steps(evidence@, models, leaves@),
            links::gather(start, step, evidence@.len() as int) == Ok::<
                Seq<LinkModel>,
                Seq<char>,
            >(middle),
            links::gather(middle, next, j as int) == Ok::<Seq<LinkModel>, Seq<char>>(
                links::link_models(out@),
            ),
        decreases transitions.len() - j,
    {
        assert(next(j as int) == transition_step(transitions@[j as int], models));
        if let Err(e) = add_transition(out, &transitions[j], nodes) {
            proof {
                links::gather_stops(middle, next, j + 1, transitions@.len() as int);
            }
            return Err(e);
        }
        j += 1;
    }
    Ok(())
}

/// Another document whose similarity to one is a number of at least 0.80.
pub open spec fn close(rows: Seq<EmbeddingScores>, i: int, j: int) -> bool {
    &&& rows[i].document_id@ != rows[j].document_id@
    &&& 0x3fe9_9999_9999_999a <= rows[i].scores@[j] <= 0x7ff0_0000_0000_0000
}

/// Whether one document is more similar than another; of equally similar ones the
/// smaller name counts as more.
pub open spec fn closer(rows: Seq<EmbeddingScores>, i: int, m: int, j: int) -> bool {
    ||| rows[i].scores@[m] > rows[i].scores@[j]
    ||| rows[i].scores@[m] == rows[i].scores@[j] && text::text_lt(
        rows[m].document_id@,
        rows[j].document_id@,
    )
    ||| rows[i].scores@[m] == rows[i].scores@[j] && rows[m].document_id@ == rows[j].document_id@ && m
        < j
}

/// The close documents that are more similar to one than a given one is.
pub open spec fn ahead(rows: Seq<EmbeddingScores>, i: int, j: int) -> Set<int> {
    Set::new(|m: int| 0 <= m < rows.len() && close(rows, i, m) && closer(rows, i, m, j))
}

/// A close document with fewer than five more similar ones.
pub open spec fn among_five(rows: Seq<EmbeddingScores>, i: int, j: int) -> bool {
    0 <= j < rows.len() && close(rows, i, j) && ahead(rows, i, j).len() < 5
}

proof fn alike_are_close(rows: Seq<EmbeddingScores>, i: int, n: int)
    requires
        0 <= n <= rows.len(),
    ensures
        forall|j: int|
            #[trigger] alike(rows, i, n).contains(j) <==> 0 <= j < n && close(rows, i, j),
        forall|a: int, b: int|
            0 <= a < b < alike(rows, i, n).len() ==> #[trigger] alike(rows, i, n)[a]
                < #[trigger] alike(rows, i, n)[b],
        forall|a: int|
            0 <= a < alike(rows, i, n).len() ==> 0 <= #[trigger] alike(rows, i, n)[a] < n && close(
                rows,
                i,
                alike(rows, i, n)[a],
            ),
    decreases n,
{
    if n > 0 {
        alike_are_close(rows, i, n - 1);
        let before = alike(rows, i, n - 1);
        let now = alike(rows, i, n);
        let bits = rows[i].scores@[n - 1];
        assert(boundary::bits_reach(bits, EMBEDDING_MUTUAL_MIN_BITS) <==> 0x3fe9_9999_9999_999a
            <= bits <= 0x7ff0_0000_0000_0000);
        assert forall|j: int| #[trigger] now.contains(j) <==> 0 <= j < n && close(
            rows,
            i,
            j,
        ) by {
            assert(before.contains(j) <==> 0 <= j < n - 1 && close(rows, i, j));
            if now.contains(j) {
                let k = choose|k: int| 0 <= k < now.len() && now[k] == j;
                if k < before.len() {
                    assert(before[k] == j);
                }
            }
            if before.contains(j) {
                let k = choose|k: int| 0 <= k < before.len() && before[k] == j;
                assert(now[k] == j);
            }
            if j == n - 1 && close(rows, i, j) {
                assert(now[before.len() as int] == j);
            }
        }
    }
}

proof fn closer_is_an_order(rows: Seq<EmbeddingScores>, i: int, m: int, j: int)
    ensures
        !(closer(rows, i, m, j) && closer(rows, i, j, m)),
        m != j ==> closer(rows, i, m, j) || closer(rows, i, j, m),
        !closer(rows, i, j, j),
{
    let a = rows[m].document_id@;
    let b = rows[j].document_id@;
    text::text_lt_total(a, b);
    text::text_lt_irreflexive(a);
    text::text_lt_irreflexive(b);
    if text::text_lt(a, b) && text::text_lt(b, a) {
        text::text_lt_asymmetric(a, b);
    }
}

/// The close documents of one in order, the most similar first.
spec fn by_closeness(rows: Seq<EmbeddingScores>, i: int) -> Seq<int> {
    let at = alike(rows, i, rows.len() as int);
    let by_score = order::ordered(alike_keys(rows, i, at), at.len() as int);
    Seq::new(at.len(), |k: int| at[by_score[k]])
}

proof fn closeness_orders(rows: Seq<EmbeddingScores>, i: int)
    ensures
        forall|j: int|
            #[trigger] by_closeness(rows, i).contains(j) <==> 0 <= j < rows.len() && close(
                rows,
                i,
                j,
            ),
        forall|p: int, q: int|
            0 <= p < q < by_closeness(rows, i).len() ==> closer(
                rows,
                i,
                #[trigger] by_closeness(rows, i)[p],
                #[trigger] by_closeness(rows, i)[q],
            ),
        by_closeness(rows, i).no_duplicates(),
{
    let n = rows.len() as int;
    let at = alike(rows, i, n);
    let keys = alike_keys(rows, i, at);
    let by_score = order::ordered(keys, at.len() as int);
    let all = by_closeness(rows, i);
    alike_are_close(rows, i, n);
    order::ordered_is_complete(keys, at.len() as int);
    assert forall|a: int, b: int| 0 <= a < keys.len() && 0 <= b < keys.len() implies
        order::same_shape(#[trigger] keys[a], #[trigger] keys[b]) by {
        assert forall|x: int| 0 <= x < 2 implies order::comparable(
            #[trigger] keys[a][x],
            #[trigger] keys[b][x],
        ) by {
            assert(x == 0 || x == 1);
        }
    }
    order::ordered_is_sorted(keys, at.len() as int);
    assert forall|j: int| #[trigger] all.contains(j) <==> 0 <= j < rows.len() && close(
        rows,
        i,
        j,
    ) by {
        if all.contains(j) {
            let k = choose|k: int| 0 <= k < all.len() && all[k] == j;
            assert(0 <= by_score[k] < at.len());
            assert(at[by_score[k]] == j);
            assert(at.contains(j));
        }
        if at.contains(j) {
            let a = choose|a: int| 0 <= a < at.len() && at[a] == j;
            assert(by_score.contains(a));
            let k = choose|k: int| 0 <= k < by_score.len() && by_score[k] == a;
            assert(all[k] == j);
        }
    }
    assert forall|p: int, q: int| 0 <= p < q < all.len() implies closer(
        rows,
        i,
        #[trigger] all[p],
        #[trigger] all[q],
    ) by {
        let a = by_score[p];
        let b = by_score[q];
        assert(!order::key_lt(keys[b], keys[a], 0) && (order::key_lt(keys[a], keys[b], 0) || a
            < b));
        assert(all[p] == at[a] && all[q] == at[b]);
        assert(keys[a][0] == order::PartModel::Down(rows[i].scores@[at[a]]));
        assert(keys[a][1] == order::PartModel::Text(rows[at[a]].document_id@));
        assert(keys[b][0] == order::PartModel::Down(rows[i].scores@[at[b]]));
        assert(keys[b][1] == order::PartModel::Text(rows[at[b]].document_id@));
        reveal_with_fuel(order::key_lt, 3);
        text::text_lt_total(rows[at[a]].document_id@, rows[at[b]].document_id@);
    }
    assert forall|p: int, q: int| 0 <= p < all.len() && 0 <= q < all.len() && p != q implies all[p]
        != all[q] by {
        if p < q {
            closer_is_an_order(rows, i, all[p], all[q]);
        } else {
            closer_is_an_order(rows, i, all[q], all[p]);
        }
    }
}

/// The nearest of a document are the other documents of at least 0.80 similarity
/// with fewer than five that are more similar: at most five, none of them twice,
/// the most similar first.
pub proof fn nearest_are_the_most_similar(rows: Seq<EmbeddingScores>, i: int)
    ensures
        nearest(rows, i).len() <= 5,
        nearest(rows, i).no_duplicates(),
        forall|j: int| #[trigger] nearest(rows, i).contains(j) <==> among_five(rows, i, j),
        forall|p: int, q: int|
            0 <= p < q < nearest(rows, i).len() ==> rows[i].scores@[#[trigger] nearest(rows, i)[p]]
                >= rows[i].scores@[#[trigger] nearest(rows, i)[q]],
{
    let all = by_closeness(rows, i);
    let few = nearest(rows, i);
    closeness_orders(rows, i);
    assert(forall|k: int| 0 <= k < few.len() ==> #[trigger] few[k] == all[k]);
    assert forall|j: int| #[trigger] few.contains(j) <==> among_five(rows, i, j) by {
        if few.contains(j) {
            let k = choose|k: int| 0 <= k < few.len() && few[k] == j;
            assert(all[k] == j);
            assert(all.contains(j));
        }
        if all.contains(j) {
            let p = choose|p: int| 0 <= p < all.len() && all[p] == j;
            let front = all.take(p);
            front.unique_seq_to_set();
            assert forall|m: int| ahead(rows, i, j).contains(m) <==> front.contains(m) by {
                if ahead(rows, i, j).contains(m) {
                    assert(all.contains(m));
                    let q = choose|q: int| 0 <= q < all.len() && all[q] == m;
                    closer_is_an_order(rows, i, m, j);
                    if q > p {
                        assert(closer(rows, i, all[p], all[q]));
                    }
                    assert(q < p);
                    assert(front[q] == m);
                }
                if front.contains(m) {
                    let q = choose|q: int| 0 <= q < front.len() && front[q] == m;
                    assert(all[q] == m);
                    assert(all.contains(m));
                    assert(closer(rows, i, all[q], all[p]));
                }
            }
            assert(ahead(rows, i, j) =~= front.to_set());
            assert(ahead(rows, i, j).len() == p);
            if few.contains(j) {
                let k = choose|k: int| 0 <= k < few.len() && few[k] == j;
                assert(all[k] == all[p]);
                assert(k == p);
            }
            if p < 5 {
                assert(few[p] == j);
            }
        }
    }
    assert forall|p: int, q: int| 0 <= p < q < few.len() implies rows[i].scores@[#[trigger] few[p]]
        >= rows[i].scores@[#[trigger] few[q]] by {
        assert(few[p] == all[p] && few[q] == all[q]);
        assert(closer(rows, i, all[p], all[q]));
    }
}

/// Every row is that of another document.
pub open spec fn rows_apart(rows: Seq<EmbeddingScores>) -> bool {
    forall|i: int, j: int|
        0 <= i < rows.len() && 0 <= j < rows.len() && i != j ==> (#[trigger] rows[i]).document_id@
            != (#[trigger] rows[j]).document_id@
}

proof fn rows_are_found(rows: Seq<EmbeddingScores>, i: int, n: int)
    requires
        rows_apart(rows),
        0 <= i < n <= rows.len(),
    ensures
        score_row(rows, rows[i].document_id@, n) == Some(i),
    decreases n,
{
    if i < n - 1 {
        assert(rows[i].document_id@ != rows[n - 1].document_id@);
        rows_are_found(rows, i, n - 1);
    }
}

proof fn found_rows_are_theirs(rows: Seq<EmbeddingScores>, id: Seq<char>, n: int)
    requires
        0 <= n <= rows.len(),
    ensures
        score_row(rows, id, n) matches Some(i) ==> 0 <= i < n && rows[i].document_id@ == id,
    decreases n,
{
    if n > 0 {
        found_rows_are_theirs(rows, id, n - 1);
    }
}

proof fn near_is_among_five(rows: Seq<EmbeddingScores>, i: int, j: int)
    requires
        rows_apart(rows),
        0 <= i < rows.len(),
        0 <= j < rows.len(),
    ensures
        is_near(rows, rows[i].document_id@, rows[j].document_id@) <==> among_five(rows, i, j),
{
    rows_are_found(rows, i, rows.len() as int);
    nearest_are_the_most_similar(rows, i);
    let few = nearest(rows, i);
    if holds_document(rows, few, rows[j].document_id@) {
        let k = choose|k: int|
            0 <= k < few.len() && rows[#[trigger] few[k]].document_id@ == rows[j].document_id@;
        assert(few.contains(few[k]));
        assert(among_five(rows, i, few[k]));
        assert(few[k] == j);
    }
    if among_five(rows, i, j) {
        assert(few.contains(j));
        let k = choose|k: int| 0 <= k < few.len() && few[k] == j;
        assert(rows[few[k]].document_id@ == rows[j].document_id@);
    }
}

/// Two documents, in the order of their names, of which each is among the five
/// most similar of the other.
pub open spec fn mutually_near(rows: Seq<EmbeddingScores>, i: int, j: int) -> bool {
    &&& 0 <= i < rows.len()
    &&& 0 <= j < rows.len()
    &&& text::text_lt(rows[i].document_id@, rows[j].document_id@)
    &&& among_five(rows, i, j)
    &&& among_five(rows, j, i)
}

/// A link between the nodes of two documents, with their similarity.
pub open spec fn joins(
    rows: Seq<EmbeddingScores>,
    nodes: Seq<NodeModel>,
    x: LinkModel,
    i: int,
    j: int,
) -> bool {
    let l = links::node_of(nodes, GraphNodeKind::Document, rows[i].document_id@);
    let r = links::node_of(nodes, GraphNodeKind::Document, rows[j].document_id@);
    &&& x.kind == GraphEdgeType::EmbeddingMutualTopK
    &&& x.term == WeightTerm::Bits(rows[i].scores@[j])
    &&& x.provenance.records == seq![rows[i].document_id@, rows[j].document_id@]
    &&& text::text_lt(x.source, x.target)
    &&& (l == Some(x.source) && r == Some(x.target)) || (l == Some(x.target) && r == Some(
        x.source,
    ))
}

proof fn near_links_join(
    rows: Seq<EmbeddingScores>,
    nodes: Seq<NodeModel>,
    i: int,
    k: int,
)
    requires
        rows_apart(rows),
        0 <= i < rows.len(),
        0 <= k < nearest(rows, i).len(),
        near_link(rows, nodes, rows[i].document_id@, i, k) is Ok,
    ensures
        ({
            let j = nearest(rows, i)[k];
            let out = near_link(rows, nodes, rows[i].document_id@, i, k)->Ok_0;
            &&& !mutually_near(rows, i, j) ==> out.len() == 0
            &&& mutually_near(rows, i, j) ==> out.len() == 1 && joins(rows, nodes, out[0], i, j)
        }),
{
    let few = nearest(rows, i);
    let j = few[k];
    nearest_are_the_most_similar(rows, i);
    assert(few.contains(j));
    assert(among_five(rows, i, j));
    near_is_among_five(rows, j, i);
    if mutually_near(rows, i, j) {
        let l = links::node_of(nodes, GraphNodeKind::Document, rows[i].document_id@);
        let r = links::node_of(nodes, GraphNodeKind::Document, rows[j].document_id@);
        text::text_lt_total(l->0, r->0);
    }
}

proof fn near_rows_join(rows: Seq<EmbeddingScores>, nodes: Seq<NodeModel>, i: int, x: LinkModel)
    requires
        rows_apart(rows),
        0 <= i < rows.len(),
        near_row(rows, nodes, rows[i].document_id@) is Ok,
    ensures
        near_row(rows, nodes, rows[i].document_id@)->Ok_0.contains(x) ==> exists|j: int|
            #![trigger mutually_near(rows, i, j)]
            mutually_near(rows, i, j) && joins(rows, nodes, x, i, j),
        forall|j: int|
            #![trigger mutually_near(rows, i, j)]
            mutually_near(rows, i, j) ==> exists|y: LinkModel|
                near_row(rows, nodes, rows[i].document_id@)->Ok_0.contains(y) && #[trigger] joins(
                    rows,
                    nodes,
                    y,
                    i,
                    j,
                ),
{
    let id = rows[i].document_id@;
    let few = nearest(rows, i);
    let step = near_pairs(rows, nodes, id, i);
    let out = near_row(rows, nodes, id)->Ok_0;
    rows_are_found(rows, i, rows.len() as int);
    links::gather_collects(links::no_links(), step, few.len() as int);
    if out.contains(x) {
        let k = choose|k: int| 0 <= k < few.len() && (#[trigger] step(k))->Ok_0.contains(x);
        assert(step(k) == near_link(rows, nodes, id, i, k));
        near_links_join(rows, nodes, i, k);
        assert(mutually_near(rows, i, few[k]));
    }
    assert forall|j: int|
        #![trigger mutually_near(rows, i, j)]
        mutually_near(rows, i, j) implies exists|y: LinkModel|
        out.contains(y) && #[trigger] joins(rows, nodes, y, i, j) by {
        nearest_are_the_most_similar(rows, i);
        assert(few.contains(j));
        let k = choose|k: int| 0 <= k < few.len() && few[k] == j;
        assert(step(k) is Ok);
        assert(step(k) == near_link(rows, nodes, id, i, k));
        near_links_join(rows, nodes, i, k);
        let y = step(k)->Ok_0[0];
        assert(step(k)->Ok_0.contains(y));
        assert(out.contains(y));
        assert(joins(rows, nodes, y, i, j));
    }
}

/// Two documents are linked by their embeddings exactly where their similarity is
/// at least 0.80 and each is among the five most similar of the other; no such
/// link has less.
pub proof fn links_join_mutually_near_documents(
    rows: Seq<EmbeddingScores>,
    nodes: Seq<NodeModel>,
)
    requires
        rows_apart(rows),
    ensures
        with_near(links::no_links(), rows, nodes) matches Ok(out) ==> {
            &&& forall|x: LinkModel| #[trigger]
                out.contains(x) ==> exists|i: int, j: int|
                    #![trigger mutually_near(rows, i, j)]
                    mutually_near(rows, i, j) && joins(rows, nodes, x, i, j)
            &&& forall|i: int, j: int|
                #![trigger mutually_near(rows, i, j)]
                mutually_near(rows, i, j) ==> exists|x: LinkModel|
                    out.contains(x) && #[trigger] joins(rows, nodes, x, i, j)
            &&& forall|x: LinkModel| #[trigger]
                out.contains(x) ==> (x.term matches WeightTerm::Bits(b) && 0x3fe9_9999_9999_999a
                    <= b <= 0x7ff0_0000_0000_0000)
        },
{
    let made = with_near(links::no_links(), rows, nodes);
    if made is Ok {
        let out = made->Ok_0;
        let ids = score_ids(rows);
        let step = near_rows(rows, nodes);
        let named = Seq::new(rows.len(), |i: int| rows[i].document_id@);
        links::gather_collects(links::no_links(), step, ids.len() as int);
        text::distinct_sorted_is_a_set(named);
        assert forall|x: LinkModel| #[trigger] out.contains(x) implies exists|i: int, j: int|
            #![trigger mutually_near(rows, i, j)]
            mutually_near(rows, i, j) && joins(rows, nodes, x, i, j) by {
            let l = choose|l: int| 0 <= l < ids.len() && (#[trigger] step(l))->Ok_0.contains(x);
            assert(step(l) is Ok);
            assert(step(l) == near_row(rows, nodes, ids[l]));
            found_rows_are_theirs(rows, ids[l], rows.len() as int);
            let i = score_row(rows, ids[l], rows.len() as int)->0;
            near_rows_join(rows, nodes, i, x);
        }
        assert forall|i: int, j: int|
            #![trigger mutually_near(rows, i, j)]
            mutually_near(rows, i, j) implies exists|x: LinkModel|
            out.contains(x) && #[trigger] joins(rows, nodes, x, i, j) by {
            let id = rows[i].document_id@;
            assert(named[i] == id);
            assert(named.to_set().contains(id));
            assert(ids.to_set().contains(id));
            let l = choose|l: int| 0 <= l < ids.len() && ids[l] == id;
            assert(step(l) is Ok);
            assert(step(l) == near_row(rows, nodes, id));
            near_rows_join(rows, nodes, i, arbitrary());
            let x = choose|y: LinkModel|
                step(l)->Ok_0.contains(y) && #[trigger] joins(rows, nodes, y, i, j);
            assert(out.contains(x));
        }
        assert forall|x: LinkModel| #[trigger] out.contains(x) implies (x.term matches
            WeightTerm::Bits(b) && 0x3fe9_9999_9999_999a <= b <= 0x7ff0_0000_0000_0000) by {
            let (i, j) = choose|i: int, j: int|
                #![trigger mutually_near(rows, i, j)]
                mutually_near(rows, i, j) && joins(rows, nodes, x, i, j);
            assert(close(rows, i, j));
        }
    }
}

/// A claim that gave way is linked with the one that it gave way to: by a
/// conflict, whose ends are in order, where they conflicted, and otherwise by a
/// replacement from the old claim to the new one.
pub proof fn claims_give_way_to_others(row: TransitionRow, nodes: Seq<NodeModel>)
    ensures
        transition_step(row, nodes) matches Ok(out) ==> {
            let earlier = links::node_of(nodes, GraphNodeKind::Claim, row.claim_id@);
            let later = links::node_of(nodes, GraphNodeKind::Claim, row.related_claim_id@);
            let x = out[0];
            &&& out.len() == 1
            &&& earlier is Some && later is Some && earlier != later
            &&& row.reason@ == "conflicted"@ ==> x.kind == GraphEdgeType::Conflict
                && text::text_lt(x.source, x.target) && ((Some(x.source) == earlier && Some(
                x.target,
            ) == later) || (Some(x.source) == later && Some(x.target) == earlier))
            &&& row.reason@ != "conflicted"@ ==> x.kind == GraphEdgeType::Replacement && Some(
                x.source,
            ) == earlier && Some(x.target) == later
            &&& x.provenance.records == seq![row.transition_id@]
            &&& x.provenance.reasons == seq![row.reason@]
        },
{
    let earlier = links::node_of(nodes, GraphNodeKind::Claim, row.claim_id@);
    let later = links::node_of(nodes, GraphNodeKind::Claim, row.related_claim_id@);
    if earlier is Some && later is Some {
        text::text_lt_total(earlier->0, later->0);
    }
}

/// A claim is supported only by a document of the same session and speaker that
/// holds the quoted range.
pub proof fn claims_are_supported_by_what_was_said(
    row: ClaimEvidenceRow,
    nodes: Seq<NodeModel>,
    leaves: Seq<Leaf>,
)
    ensures
        support_step(row, nodes, leaves) matches Ok(out) ==> {
            let claim = links::node_of(nodes, GraphNodeKind::Claim, row.claim_id@);
            let x = out[0];
            &&& out.len() == 1
            &&& x.kind == GraphEdgeType::Support
            &&& claim is Some
            &&& exists|p: int| {
                let l = #[trigger] leaves[p];
                &&& 0 <= p < leaves.len()
                &&& l.event_id@ == row.event_id@ && l.start <= row.start_char && row.end_char
                    <= l.end
                &&& l.session_id@ == row.session_id@ && graph::role_named(row.role@) == Some(l.role)
                &&& (Some(x.source) == claim && x.target == l.node_id@) || (Some(x.target) == claim
                    && x.source == l.node_id@)
            }
        },
{
    relations::found_leaves_are_shortest(
        leaves,
        row.event_id@,
        row.start_char as usize,
        row.end_char as usize,
        leaves.len() as int,
    );
    if support_step(row, nodes, leaves) is Ok {
        let p = claim_leaf(row, leaves)->0;
        let l = leaves[p];
        assert(l.event_id@ == row.event_id@ && l.start <= row.start_char && row.end_char <= l.end);
    }
}

/// A piece of core evidence of an answer stands in a document.
pub open spec fn cites(run: RecallRun, leaves: Seq<Leaf>, d: Seq<char>) -> bool {
    exists|k: int|
        0 <= k < run.evidence@.len() && (#[trigger] run.evidence@[k]).kind == EvidenceKind::Core
            && evidence_document(run.answer_id@, run.evidence@[k], leaves) == Ok::<
            Seq<char>,
            Seq<char>,
        >(d)
}

proof fn run_documents_cite(run: RecallRun, leaves: Seq<Leaf>, n: int, d: Seq<char>)
    requires
        0 <= n <= run.evidence@.len(),
        run_documents(run, leaves, n) is Ok,
    ensures
        run_documents(run, leaves, n)->Ok_0.contains(d) <==> exists|k: int|
            0 <= k < n && (#[trigger] run.evidence@[k]).kind == EvidenceKind::Core
                && evidence_document(run.answer_id@, run.evidence@[k], leaves) == Ok::<
                Seq<char>,
                Seq<char>,
            >(d),
    decreases n,
{
    if n > 0 {
        run_documents_cite(run, leaves, n - 1, d);
        let before = run_documents(run, leaves, n - 1)->Ok_0;
        let now = run_documents(run, leaves, n)->Ok_0;
        let piece = run.evidence@[n - 1];
        if now.contains(d) {
            let i = choose|i: int| 0 <= i < now.len() && now[i] == d;
            if i < before.len() {
                assert(before[i] == d);
            } else {
                assert(piece.kind == EvidenceKind::Core);
            }
        }
        if before.contains(d) {
            let i = choose|i: int| 0 <= i < before.len() && before[i] == d;
            assert(now[i] == d);
        }
        if now.len() > before.len() {
            assert(now[before.len() as int] == evidence_document(
                run.answer_id@,
                piece,
                leaves,
            )->Ok_0);
        }
    }
}

/// An answer links exactly the pairs of different documents in which its core
/// evidence stands.
pub proof fn answers_link_what_they_cite(run: RecallRun, leaves: Seq<Leaf>)
    ensures
        recall_step(run, leaves) matches Ok(out) ==> {
            &&& forall|x: LinkModel| #[trigger]
                out.contains(x) ==> x.kind == GraphEdgeType::CommonRecall && text::text_lt(
                    x.source,
                    x.target,
                ) && cites(run, leaves, x.source) && cites(run, leaves, x.target)
                    && x.provenance.records == seq![run.answer_id@]
            &&& forall|c: Seq<char>, d: Seq<char>|
                #![trigger cites(run, leaves, c), cites(run, leaves, d)]
                cites(run, leaves, c) && cites(run, leaves, d) && text::text_lt(c, d) ==> exists|
                    x: LinkModel,
                | #[trigger]
                    out.contains(x) && x.source == c && x.target == d
        },
{
    let n = run.evidence@.len() as int;
    if recall_step(run, leaves) is Ok {
        let out = recall_step(run, leaves)->Ok_0;
        let raw = run_documents(run, leaves, n)->Ok_0;
        let docs = text::distinct_sorted(raw);
        let rows = recall_rows(run.answer_id@, docs);
        text::distinct_sorted_is_a_set(raw);
        links::gather_collects(links::no_links(), rows, docs.len() as int);
        assert forall|d: Seq<char>| #[trigger] docs.contains(d) <==> cites(run, leaves, d) by {
            run_documents_cite(run, leaves, n, d);
            text::distinct_sorted_keeps_elements(raw, d);
        }
        assert forall|x: LinkModel| #[trigger] out.contains(x) implies x.kind
            == GraphEdgeType::CommonRecall && text::text_lt(x.source, x.target) && cites(
            run,
            leaves,
            x.source,
        ) && cites(run, leaves, x.target) && x.provenance.records == seq![run.answer_id@] by {
            let i = choose|i: int| 0 <= i < docs.len() && (#[trigger] rows(i))->Ok_0.contains(x);
            assert(rows(i) is Ok);
            assert(rows(i) == recall_row(run.answer_id@, docs, i));
            let pairs = recall_pairs(run.answer_id@, docs, i);
            links::gather_collects(links::no_links(), pairs, docs.len() - i - 1);
            let k = choose|k: int|
                0 <= k < docs.len() - i - 1 && (#[trigger] pairs(k))->Ok_0.contains(x);
            let j = i + 1 + k;
            assert(pairs(k) == recall_link(run.answer_id@, docs, i, j));
            assert(text::text_lt(docs[i], docs[j]));
            assert(docs.contains(docs[i]) && docs.contains(docs[j]));
        }
        assert forall|c: Seq<char>, d: Seq<char>|
            #![trigger cites(run, leaves, c), cites(run, leaves, d)]
            cites(run, leaves, c) && cites(run, leaves, d) && text::text_lt(c, d) implies exists|
            x: LinkModel,
        | #[trigger] out.contains(x) && x.source == c && x.target == d by {
            assert(docs.contains(c) && docs.contains(d));
            let i = choose|i: int| 0 <= i < docs.len() && docs[i] == c;
            let j = choose|j: int| 0 <= j < docs.len() && docs[j] == d;
            if j < i {
                assert(text::text_lt(docs[j], docs[i]));
                text::text_lt_asymmetric(c, d);
            } else if i == j {
                text::text_lt_irreflexive(c);
            }
            assert(rows(i) is Ok);
            assert(rows(i) == recall_row(run.answer_id@, docs, i));
            let pairs = recall_pairs(run.answer_id@, docs, i);
            links::gather_collects(links::no_links(), pairs, docs.len() - i - 1);
            let k = j - i - 1;
            assert(pairs(k) is Ok);
            assert(pairs(k) == recall_link(run.answer_id@, docs, i, j));
            let x = pairs(k)->Ok_0[0];
            assert(pairs(k)->Ok_0.contains(x));
            assert(rows(i)->Ok_0.contains(x));
            assert(out.contains(x));
        }
    }
}

} // verus!
