//! The edges of the memory graph: links with the same ends, put together.

use vstd::prelude::*;
use vstd::string::*;
use vstd::utf8::*;

use crate::associations::{
    self, add_claim_edges, add_embedding_edges, add_recall_edges, ClaimEvidenceRow, EmbeddingScores,
    RecallRun, TransitionRow,
};
use crate::digest::{self, content_sha256, hash_id, PartHasher};
use crate::graph::{
    self, edge_name, rank_of_edge, GraphBasis, GraphEdgeType, GraphEvent, Leaf, NodeModel,
};
use crate::json::{self, json_number, json_text, json_texts, render, Json, JsonObject, JsonTree};
use crate::links::{
    self, add_adjacent, add_episode_edges, add_replies, EpisodeMemberRow, GraphLink,
    LinkModel, ProvenanceModel, RawProvenance, SpanModel, WeightTerm,
};
use crate::model;
use crate::order::{self, stable_order, KeyPart};
use crate::relations::{
    self, add_entity_edges, add_keyword_edges, add_shared_edges, MentionRow,
};
use crate::text::{self, sorted_set, text_eq};

verus! {

/// What the links of the graph are made from, beside its nodes.
pub struct GraphSources {
    pub episode_members: Vec<EpisodeMemberRow>,
    pub mentions: Vec<MentionRow>,
    pub leaf_terms: Vec<Vec<String>>,
    pub scores: Vec<EmbeddingScores>,
    pub runs: Vec<RecallRun>,
    pub claim_evidence: Vec<ClaimEvidenceRow>,
    pub transitions: Vec<TransitionRow>,
}

/// Sources that fit the leaves.
pub open spec fn sources_fit(s: GraphSources, leaves: Seq<Leaf>) -> bool {
    &&& relations::leaves_sound(leaves)
    &&& s.leaf_terms@.len() == leaves.len()
    &&& associations::complete_scores(s.scores@)
    &&& associations::runs_sound(s.runs@)
}

/// Goes on gathering, unless something is wrong.
pub open spec fn and_gather(
    so_far: Result<Seq<LinkModel>, Seq<char>>,
    step: spec_fn(int) -> Result<Seq<LinkModel>, Seq<char>>,
    n: int,
) -> Result<Seq<LinkModel>, Seq<char>> {
    match so_far {
        Ok(v) => links::gather(v, step, n),
        Err(e) => Err(e),
    }
}

/// All links of the graph in the order of the rules, or the first thing that is
/// wrong.
pub open spec fn graph_links(
    nodes: Seq<NodeModel>,
    leaves: Seq<Leaf>,
    events: Seq<GraphEvent>,
    s: GraphSources,
    limit: usize,
) -> Result<Seq<LinkModel>, Seq<char>> {
    let mentions = relations::mentions_of(s.mentions@, leaves);
    let adjacent = links::with_adjacent(links::no_links(), events, leaves);
    let replies = and_gather(adjacent, links::reply_steps(events, leaves), events.len() as int);
    let episodes = and_gather(
        replies,
        links::episode_steps(s.episode_members@, nodes, leaves),
        s.episode_members@.len() as int,
    );
    let entities = and_gather(
        episodes,
        relations::mention_steps(s.mentions@, nodes, leaves),
        s.mentions@.len() as int,
    );
    let shared = and_gather(
        entities,
        relations::shared_steps(mentions, limit),
        relations::entity_names(mentions).len() as int,
    );
    let keywords = and_gather(
        shared,
        relations::keyword_rows(
            relations::message_ids(leaves),
            relations::all_telling(relations::message_terms(leaves, s.leaf_terms@), limit),
        ),
        relations::message_ids(leaves).len() as int,
    );
    let near = match keywords {
        Ok(v) => associations::with_near(v, s.scores@, nodes),
        Err(e) => Err(e),
    };
    let recalled = and_gather(
        near,
        associations::recall_steps(s.runs@, leaves),
        s.runs@.len() as int,
    );
    match recalled {
        Ok(v) => associations::with_claims(v, s.claim_evidence@, s.transitions@, nodes, leaves),
        Err(e) => Err(e),
    }
}

/// Makes the links of the graph.
pub fn build_links(basis: &GraphBasis, sources: &GraphSources, limit: usize) -> (r: Result<
    Vec<GraphLink>,
    String,
>)
    requires
        sources_fit(*sources, basis.leaves@),
    ensures
        ({
            let want = graph_links(
                graph::node_models(basis.nodes@),
                basis.leaves@,
                basis.events@,
                *sources,
                limit,
            );
            match r {
                Ok(v) => want == Ok::<Seq<LinkModel>, Seq<char>>(links::link_models(v@)),
                Err(e) => want == Err::<Seq<LinkModel>, Seq<char>>(e@),
            }
        }),
{
    let mut out: Vec<GraphLink> = Vec::new();
    assert(links::link_models(out@) =~= links::no_links());
    let leaves = &basis.leaves;
    let nodes = &basis.nodes;
    if let Err(e) = add_adjacent(&mut out, &basis.events, leaves) {
        return Err(e);
    }
    if let Err(e) = add_replies(&mut out, &basis.events, leaves) {
        return Err(e);
    }
    if let Err(e) = add_episode_edges(&mut out, &sources.episode_members, nodes, leaves) {
        return Err(e);
    }
    let mentions = match add_entity_edges(&mut out, &sources.mentions, nodes, leaves) {
        Ok(mentions) => mentions,
        Err(e) => return Err(e),
    };
    if let Err(e) = add_shared_edges(&mut out, &mentions, limit) {
        return Err(e);
    }
    if let Err(e) = add_keyword_edges(&mut out, leaves, &sources.leaf_terms, limit) {
        return Err(e);
    }
    if let Err(e) = add_embedding_edges(&mut out, &sources.scores, nodes) {
        return Err(e);
    }
    if let Err(e) = add_recall_edges(&mut out, &sources.runs, leaves) {
        return Err(e);
    }
    if let Err(e) = add_claim_edges(
        &mut out,
        &sources.claim_evidence,
        &sources.transitions,
        nodes,
        leaves,
    ) {
        return Err(e);
    }
    Ok(out)
}

pub open spec fn link_key(l: LinkModel) -> Seq<order::PartModel> {
    seq![
        order::PartModel::Up(graph::edge_rank(l.kind)),
        order::PartModel::Text(l.source),
        order::PartModel::Text(l.target),
    ]
}

pub open spec fn link_keys(v: Seq<LinkModel>) -> Seq<Seq<order::PartModel>> {
    Seq::new(v.len(), |i: int| link_key(v[i]))
}

/// Links of the same kind with the same ends.
pub open spec fn same_edge(a: LinkModel, b: LinkModel) -> bool {
    a.kind == b.kind && a.source == b.source && a.target == b.target
}

/// The first `n` links in order, those of one edge together.
pub open spec fn edge_groups(v: Seq<LinkModel>, at: Seq<int>, n: int) -> Seq<Seq<int>>
    decreases n,
{
    if n <= 0 {
        Seq::empty()
    } else {
        let rest = edge_groups(v, at, n - 1);
        let x = at[n - 1];
        if rest.len() > 0 && same_edge(v[rest.last()[0]], v[x]) {
            rest.update(rest.len() - 1, rest.last().push(x))
        } else {
            rest.push(seq![x])
        }
    }
}

/// The groups of links that make up the edges, by kind and ends.
pub open spec fn grouped(v: Seq<LinkModel>) -> Seq<Seq<int>> {
    edge_groups(v, order::ordered(link_keys(v), v.len() as int), v.len() as int)
}

/// Lists one after the other.
pub open spec fn flat(v: Seq<Seq<int>>) -> Seq<int>
    decreases v.len(),
{
    if v.len() == 0 {
        Seq::empty()
    } else {
        flat(v.drop_last()) + v.last()
    }
}

proof fn groups_flatten(v: Seq<LinkModel>, at: Seq<int>, n: int)
    requires
        0 <= n <= at.len(),
    ensures
        flat(edge_groups(v, at, n)) == at.take(n),
        forall|g: int|
            0 <= g < edge_groups(v, at, n).len() ==> (#[trigger] edge_groups(v, at, n)[g]).len() > 0,
    decreases n,
{
    if n > 0 {
        groups_flatten(v, at, n - 1);
        let rest = edge_groups(v, at, n - 1);
        let all = edge_groups(v, at, n);
        let x = at[n - 1];
        if rest.len() > 0 && same_edge(v[rest.last()[0]], v[x]) {
            assert(all.drop_last() =~= rest.drop_last());
            assert(all.last() == rest.last().push(x));
            assert(flat(all) =~= flat(rest).push(x));
        } else {
            assert(all.drop_last() =~= rest);
            assert(flat(all) =~= flat(rest).push(x));
        }
        assert(at.take(n) =~= at.take(n - 1).push(x));
    } else {
        assert(at.take(0) =~= Seq::empty());
    }
}

/// Every link belongs to exactly one edge.
pub proof fn every_link_has_one_edge(v: Seq<LinkModel>)
    ensures
        flat(grouped(v)).no_duplicates(),
        flat(grouped(v)).len() == v.len(),
        forall|i: int| 0 <= i < v.len() ==> #[trigger] flat(grouped(v)).contains(i),
{
    let keys = link_keys(v);
    let n = v.len() as int;
    order::ordered_is_complete(keys, n);
    let at = order::ordered(keys, n);
    groups_flatten(v, at, n);
    assert(at.take(n) =~= at);
}

proof fn key_tells_edges_apart(a: LinkModel, b: LinkModel)
    ensures
        same_edge(a, b) <==> !order::key_lt(link_key(a), link_key(b), 0) && !order::key_lt(
            link_key(b),
            link_key(a),
            0,
        ),
{
    reveal_with_fuel(order::key_lt, 4);
    text::text_lt_total(a.source, b.source);
    text::text_lt_total(a.target, b.target);
    text::text_lt_irreflexive(a.source);
    text::text_lt_irreflexive(a.target);
}

proof fn link_shapes(v: Seq<LinkModel>)
    ensures
        order::one_shape(link_keys(v)),
{
    let keys = link_keys(v);
    assert forall|i: int, j: int|
        0 <= i < keys.len() && 0 <= j < keys.len() implies order::same_shape(
        #[trigger] keys[i],
        #[trigger] keys[j],
    ) by {}
}

pub open spec fn group_lt(v: Seq<LinkModel>, a: Seq<int>, b: Seq<int>) -> bool {
    order::key_lt(link_key(v[a[0]]), link_key(v[b[0]]), 0)
}

proof fn groups_rise(v: Seq<LinkModel>, at: Seq<int>, n: int)
    requires
        at == order::ordered(link_keys(v), v.len() as int),
        0 <= n <= v.len(),
    ensures
        forall|i: int, j: int|
            0 <= i < j < edge_groups(v, at, n).len() ==> group_lt(
                v,
                #[trigger] edge_groups(v, at, n)[i],
                #[trigger] edge_groups(v, at, n)[j],
            ),
        forall|g: int|
            0 <= g < edge_groups(v, at, n).len() ==> exists|m: int|
                0 <= m < n && (#[trigger] edge_groups(v, at, n)[g])[0] == #[trigger] at[m],
        n > 0 ==> edge_groups(v, at, n).len() > 0 && same_edge(
            v[edge_groups(v, at, n).last()[0]],
            v[at[n - 1]],
        ),
    decreases n,
{
    if n > 0 {
        groups_rise(v, at, n - 1);
        let keys = link_keys(v);
        link_shapes(v);
        order::ordered_is_complete(keys, v.len() as int);
        groups_flatten(v, at, n - 1);
        order::ordered_is_sorted(keys, v.len() as int);
        let rest = edge_groups(v, at, n - 1);
        let all = edge_groups(v, at, n);
        let x = at[n - 1];
        if rest.len() > 0 && same_edge(v[rest.last()[0]], v[x]) {
            let last = rest.len() - 1;
            assert(all[last][0] == rest[last][0]);
            assert forall|g: int| 0 <= g < all.len() implies exists|m: int|
                0 <= m < n && (#[trigger] all[g])[0] == #[trigger] at[m] by {
                assert(all[g][0] == rest[g][0]);
                let m = choose|m: int| 0 <= m < n - 1 && rest[g][0] == #[trigger] at[m];
                assert(0 <= m < n && all[g][0] == at[m]);
            }
            assert forall|i: int, j: int| 0 <= i < j < all.len() implies group_lt(
                v,
                #[trigger] all[i],
                #[trigger] all[j],
            ) by {
                assert(all[i][0] == rest[i][0] && all[j][0] == rest[j][0]);
                assert(group_lt(v, rest[i], rest[j]));
            }
        } else {
            assert(all.last()[0] == x);
            assert forall|g: int| 0 <= g < all.len() implies exists|m: int|
                0 <= m < n && (#[trigger] all[g])[0] == #[trigger] at[m] by {
                if g < rest.len() {
                    assert(all[g] == rest[g]);
                    let m = choose|m: int| 0 <= m < n - 1 && rest[g][0] == #[trigger] at[m];
                    assert(0 <= m < n && all[g][0] == at[m]);
                } else {
                    assert(all[g][0] == at[n - 1]);
                }
            }
            assert forall|i: int, j: int| 0 <= i < j < all.len() implies group_lt(
                v,
                #[trigger] all[i],
                #[trigger] all[j],
            ) by {
                if j < rest.len() {
                    assert(group_lt(v, rest[i], rest[j]));
                } else {
                    let f = rest.last()[0];
                    assert(rest[rest.len() - 1] == rest.last());
                    let m = choose|m: int|
                        0 <= m < n - 1 && rest[rest.len() - 1][0] == #[trigger] at[m];
                    assert(!order::key_lt(keys[at[n - 1]], keys[at[m]], 0));
                    assert(keys[x] == link_key(v[x]) && keys[f] == link_key(v[f]));
                    key_tells_edges_apart(v[f], v[x]);
                    assert(order::key_lt(link_key(v[f]), link_key(v[x]), 0));
                    if i < rest.len() - 1 {
                        let a = rest[i][0];
                        assert(group_lt(v, rest[i], rest[rest.len() - 1]));
                        let p = choose|p: int| 0 <= p < n - 1 && rest[i][0] == #[trigger] at[p];
                        assert(keys[a] == link_key(v[a]));
                        order::key_facts(keys[a], keys[x], keys[f], 0);
                        order::key_facts(keys[f], keys[x], keys[f], 0);
                    }
                }
            }
        }
    }
}

/// The edges stand in strict order of their kinds and ends: no two are the same.
pub proof fn edges_stand_in_order(v: Seq<LinkModel>)
    ensures
        forall|i: int, j: int|
            0 <= i < j < grouped(v).len() ==> group_lt(
                v,
                #[trigger] grouped(v)[i],
                #[trigger] grouped(v)[j],
            ),
{
    groups_rise(v, order::ordered(link_keys(v), v.len() as int), v.len() as int);
}

/// The texts that a group of links brings, link by link.
pub open spec fn brought(
    v: Seq<LinkModel>,
    group: Seq<int>,
    part: spec_fn(LinkModel) -> Seq<Seq<char>>,
    n: int,
) -> Seq<Seq<char>>
    decreases n,
{
    if n <= 0 {
        Seq::empty()
    } else {
        brought(v, group, part, n - 1) + part(v[group[n - 1]])
    }
}

pub open spec fn records_part() -> spec_fn(LinkModel) -> Seq<Seq<char>> {
    |l: LinkModel| l.provenance.records
}

pub open spec fn terms_part() -> spec_fn(LinkModel) -> Seq<Seq<char>> {
    |l: LinkModel| l.provenance.terms
}

pub open spec fn reasons_part() -> spec_fn(LinkModel) -> Seq<Seq<char>> {
    |l: LinkModel| l.provenance.reasons
}

pub open spec fn brought_spans(v: Seq<LinkModel>, group: Seq<int>, n: int) -> Seq<SpanModel>
    decreases n,
{
    if n <= 0 {
        Seq::empty()
    } else {
        brought_spans(v, group, n - 1) + v[group[n - 1]].provenance.spans
    }
}

pub open spec fn span_sort_key(s: SpanModel) -> Seq<order::PartModel> {
    seq![
        order::PartModel::Text(s.session_id),
        order::PartModel::Text(s.event_id),
        order::PartModel::Up(s.start as u64),
        order::PartModel::Up(s.end as u64),
        order::PartModel::Text(s.hash),
        order::PartModel::Text(model::role_text(s.role)),
    ]
}

pub open spec fn span_sort_keys(v: Seq<SpanModel>) -> Seq<Seq<order::PartModel>> {
    Seq::new(v.len(), |i: int| span_sort_key(v[i]))
}

/// The first `n` spans in order, each run of equal ones as one.
pub open spec fn squeezed(v: Seq<SpanModel>, at: Seq<int>, n: int) -> Seq<SpanModel>
    decreases n,
{
    if n <= 0 {
        Seq::empty()
    } else {
        let rest = squeezed(v, at, n - 1);
        let s = v[at[n - 1]];
        if rest.len() > 0 && rest.last() == s {
            rest
        } else {
            rest.push(s)
        }
    }
}

/// Spans in order and without repetitions.
pub open spec fn distinct_spans(v: Seq<SpanModel>) -> Seq<SpanModel> {
    squeezed(v, order::ordered(span_sort_keys(v), v.len() as int), v.len() as int)
}

/// What an edge rests on: all that its links rest on, in order and without
/// repetitions.
pub open spec fn combined(v: Seq<LinkModel>, group: Seq<int>) -> ProvenanceModel {
    let n = group.len() as int;
    ProvenanceModel {
        records: text::distinct_sorted(brought(v, group, records_part(), n)),
        spans: distinct_spans(brought_spans(v, group, n)),
        terms: text::distinct_sorted(brought(v, group, terms_part(), n)),
        reasons: text::distinct_sorted(brought(v, group, reasons_part(), n)),
    }
}

pub open spec fn span_tree(s: SpanModel) -> JsonTree {
    JsonTree::Object(
        seq![
            ("session_id"@, JsonTree::Text(s.session_id)),
            ("event_id"@, JsonTree::Text(s.event_id)),
            ("start_char"@, json::number_tree(s.start as u64)),
            ("end_char"@, json::number_tree(s.end as u64)),
            ("content_sha256"@, JsonTree::Text(s.hash)),
            ("role"@, JsonTree::Text(model::role_text(s.role))),
        ],
    )
}

/// What an edge rests on, in JSON.
pub open spec fn provenance_tree(p: ProvenanceModel) -> JsonTree {
    JsonTree::Object(
        seq![
            ("record_ids"@, JsonTree::Array(json::text_trees(p.records))),
            ("spans"@, JsonTree::Array(Seq::new(p.spans.len(), |i: int| span_tree(p.spans[i])))),
            ("terms"@, JsonTree::Array(json::text_trees(p.terms))),
            ("reasons"@, JsonTree::Array(json::text_trees(p.reasons))),
        ],
    )
}

/// The identity of an edge.
pub open spec fn edge_id_text(kind: GraphEdgeType, source: Seq<char>, target: Seq<char>) -> Seq<
    char,
> {
    "gedge_"@ + graph::parts_digest(
        "hippocampus.graph.edge-id.v1"@,
        seq![
            encode_utf8(graph::edge_type_text(kind)),
            encode_utf8(source),
            encode_utf8(target),
        ],
    )
}

pub fn edge_id(kind: GraphEdgeType, source: &str, target: &str) -> (r: String)
    ensures
        r@ == edge_id_text(kind, source@, target@),
        digest::hash_id_shape(r@, "gedge_"@),
{
    let mut hasher = PartHasher::new();
    hasher.part("hippocampus.graph.edge-id.v1".as_bytes());
    hasher.part(edge_name(kind).as_bytes());
    hasher.part(source.as_bytes());
    hasher.part(target.as_bytes());
    assert(hasher.parts() =~= seq![encode_utf8("hippocampus.graph.edge-id.v1"@)] + seq![
        encode_utf8(graph::edge_type_text(kind)),
        encode_utf8(source@),
        encode_utf8(target@),
    ]);
    hash_id("gedge_", hasher.finish().as_str())
}

/// An edge whose weight has not been summed up.
#[derive(Debug, PartialEq, Eq)]
pub struct EdgeDraft {
    pub id: String,
    pub kind: GraphEdgeType,
    pub source: String,
    pub target: String,
    pub terms: Vec<WeightTerm>,
    pub directed: bool,
    pub provenance_json: String,
    pub provenance_sha256: String,
}

/// The edge of a group of links.
pub open spec fn is_edge_of(d: EdgeDraft, v: Seq<LinkModel>, group: Seq<int>) -> bool {
    let first = v[group[0]];
    let json = json::rendered(provenance_tree(combined(v, group)));
    &&& d.id@ == edge_id_text(first.kind, first.source, first.target)
    &&& d.kind == first.kind
    &&& d.source@ == first.source
    &&& d.target@ == first.target
    &&& d.terms@ == Seq::new(group.len(), |i: int| v[group[i]].term)
    &&& d.directed == (first.kind == GraphEdgeType::Replacement)
    &&& d.provenance_json@ == json
    &&& d.provenance_sha256@ == digest::text_digest(json)
}

fn squeeze_spans(all: &Vec<RawProvenance>) -> (r: Vec<usize>)
    ensures
        Seq::new(r@.len(), |i: int| links::span_model(all@[r@[i] as int])) == distinct_spans(
            links::span_models(all@),
        ),
        forall|i: int| 0 <= i < r@.len() ==> #[trigger] r@[i] < all@.len(),
{
    let ghost models = links::span_models(all@);
    let mut keys: Vec<Vec<KeyPart>> = Vec::new();
    let mut i: usize = 0;
    while i < all.len()
        invariant
            i <= all@.len(),
            keys@.len() == i,
            models == links::span_models(all@),
            forall|k: int|
                0 <= k < i ==> order::key_model((#[trigger] keys@[k])@) == span_sort_keys(
                    models,
                )[k],
        decreases all.len() - i,
    {
        let s = &all[i];
        let mut key: Vec<KeyPart> = Vec::new();
        key.push(KeyPart::Text(s.session_id.clone()));
        key.push(KeyPart::Text(s.event_id.clone()));
        key.push(KeyPart::Up(s.start_char as u64));
        key.push(KeyPart::Up(s.end_char as u64));
        key.push(KeyPart::Text(s.content_sha256.clone()));
        key.push(KeyPart::Text(s.role.as_str().to_owned()));
        assert(order::key_model(key@) =~= span_sort_keys(models)[i as int]);
        keys.push(key);
        i += 1;
    }
    assert(order::key_models(keys@) =~= span_sort_keys(models));
    let sorted = stable_order(&keys);
    let ghost at = order::indices(sorted@);
    let mut out: Vec<usize> = Vec::new();
    let ghost mut kept: Seq<SpanModel> = Seq::empty();
    let mut j: usize = 0;
    while j < sorted.len()
        invariant
            j <= sorted@.len(),
            sorted@.len() == all@.len(),
            models == links::span_models(all@),
            at == order::indices(sorted@),
            kept == squeezed(models, at, j as int),
            kept.len() == out@.len(),
            forall|k: int| 0 <= k < sorted@.len() ==> #[trigger] sorted@[k] < all@.len(),
            forall|k: int| 0 <= k < out@.len() ==> #[trigger] out@[k] < all@.len(),
            forall|k: int|
                0 <= k < out@.len() ==> kept[k] == links::span_model(
                    all@[#[trigger] out@[k] as int],
                ),
        decreases sorted.len() - j,
    {
        let x = sorted[j];
        assert(at[j as int] == x);
        let ghost s = models[x as int];
        let repeated = if out.len() == 0 {
            false
        } else {
            let a = &all[out[out.len() - 1]];
            let b = &all[x];
            assert(kept.last() == links::span_model(*a));
            a.start_char == b.start_char && a.end_char == b.end_char && a.role == b.role && text_eq(
                a.session_id.as_str(),
                b.session_id.as_str(),
            ) && text_eq(a.event_id.as_str(), b.event_id.as_str()) && text_eq(
                a.content_sha256.as_str(),
                b.content_sha256.as_str(),
            )
        };
        if !repeated {
            out.push(x);
            proof {
                kept = kept.push(s);
            }
        }
        j += 1;
    }
    assert(Seq::new(out@.len(), |k: int| links::span_model(all@[out@[k] as int])) =~= kept);
    out
}

fn json_span(s: &RawProvenance) -> (r: Json)
    ensures
        json::tree(r) == span_tree(links::span_model(*s)),
{
    let object = JsonObject::new().with("session_id", json_text(s.session_id.as_str())).with(
        "event_id",
        json_text(s.event_id.as_str()),
    ).with("start_char", json_number(s.start_char as u64)).with(
        "end_char",
        json_number(s.end_char as u64),
    ).with("content_sha256", json_text(s.content_sha256.as_str())).with(
        "role",
        json_text(s.role.as_str()),
    );
    assert(object.list() =~= span_tree(links::span_model(*s))->Object_0);
    object.finish()
}

fn copy_span(s: &RawProvenance) -> (r: RawProvenance)
    ensures
        r == *s,
{
    RawProvenance {
        session_id: s.session_id.clone(),
        event_id: s.event_id.clone(),
        start_char: s.start_char,
        end_char: s.end_char,
        content_sha256: s.content_sha256.clone(),
        role: s.role,
    }
}

fn append_texts(out: &mut Vec<String>, more: &Vec<String>)
    ensures
        text::texts(final(out)@) == text::texts(old(out)@) + text::texts(more@),
{
    let ghost start = text::texts(out@);
    let mut i: usize = 0;
    assert(text::texts(out@) =~= start + text::texts(more@).take(0));
    while i < more.len()
        invariant
            i <= more@.len(),
            text::texts(out@) == start + text::texts(more@).take(i as int),
        decreases more.len() - i,
    {
        let ghost before = text::texts(out@);
        out.push(more[i].clone());
        assert(text::texts(out@) =~= before.push(more@[i as int]@));
        assert(before.push(more@[i as int]@) =~= start + text::texts(more@).take(i + 1));
        i += 1;
    }
    assert(text::texts(more@).take(i as int) =~= text::texts(more@));
}

fn append_spans(out: &mut Vec<RawProvenance>, more: &Vec<RawProvenance>)
    ensures
        links::span_models(final(out)@) == links::span_models(old(out)@) + links::span_models(
            more@,
        ),
{
    let ghost start = links::span_models(out@);
    let mut i: usize = 0;
    assert(links::span_models(out@) =~= start + links::span_models(more@).take(0));
    while i < more.len()
        invariant
            i <= more@.len(),
            links::span_models(out@) == start + links::span_models(more@).take(i as int),
        decreases more.len() - i,
    {
        let ghost before = links::span_models(out@);
        out.push(copy_span(&more[i]));
        assert(links::span_models(out@) =~= before.push(links::span_model(more@[i as int])));
        assert(before.push(links::span_model(more@[i as int])) =~= start + links::span_models(
            more@,
        ).take(i + 1));
        i += 1;
    }
    assert(links::span_models(more@).take(i as int) =~= links::span_models(more@));
}

fn distinct(v: &Vec<String>) -> (r: Vec<String>)
    ensures
        text::texts(r@) == text::distinct_sorted(text::texts(v@)),
{
    let out = sorted_set(v);
    proof {
        text::distinct_sorted_is(text::texts(v@), text::texts(out@));
    }
    out
}

fn write_provenance(
    records: &Vec<String>,
    spans: &Vec<RawProvenance>,
    terms: &Vec<String>,
    reasons: &Vec<String>,
) -> (r: String)
    ensures
        r@ == json::rendered(
            provenance_tree(
                ProvenanceModel {
                    records: text::distinct_sorted(text::texts(records@)),
                    spans: distinct_spans(links::span_models(spans@)),
                    terms: text::distinct_sorted(text::texts(terms@)),
                    reasons: text::distinct_sorted(text::texts(reasons@)),
                },
            ),
        ),
{
    let ghost want = ProvenanceModel {
        records: text::distinct_sorted(text::texts(records@)),
        spans: distinct_spans(links::span_models(spans@)),
        terms: text::distinct_sorted(text::texts(terms@)),
        reasons: text::distinct_sorted(text::texts(reasons@)),
    };
    let at = squeeze_spans(spans);
    let ghost kept = Seq::new(at@.len(), |i: int| links::span_model(spans@[at@[i] as int]));
    let mut list: Vec<Json> = Vec::new();
    let mut i: usize = 0;
    while i < at.len()
        invariant
            i <= at@.len(),
            list@.len() == i,
            kept == Seq::new(at@.len(), |k: int| links::span_model(spans@[at@[k] as int])),
            forall|k: int| 0 <= k < at@.len() ==> #[trigger] at@[k] < spans@.len(),
            forall|k: int| 0 <= k < i ==> json::tree(#[trigger] list@[k]) == span_tree(kept[k]),
        decreases at.len() - i,
    {
        list.push(json_span(&spans[at[i]]));
        i += 1;
    }
    proof {
        json::trees_index(list@, list@.len() as int);
        assert(json::trees(list@, list@.len() as int) =~= Seq::new(
            want.spans.len(),
            |k: int| span_tree(want.spans[k]),
        ));
    }
    let object = JsonObject::new().with("record_ids", json_texts(&distinct(records))).with(
        "spans",
        Json::Array(list),
    ).with("terms", json_texts(&distinct(terms))).with("reasons", json_texts(&distinct(reasons)));
    assert(object.list() =~= provenance_tree(want)->Object_0);
    render(&object.finish())
}

fn draft_edge(v: &Vec<GraphLink>, group: &Vec<usize>) -> (r: EdgeDraft)
    requires
        group@.len() > 0,
        forall|i: int| 0 <= i < group@.len() ==> #[trigger] group@[i] < v@.len(),
    ensures
        is_edge_of(r, links::link_models(v@), order::indices(group@)),
{
    let ghost models = links::link_models(v@);
    let ghost at = order::indices(group@);
    let mut records: Vec<String> = Vec::new();
    let mut spans: Vec<RawProvenance> = Vec::new();
    let mut terms: Vec<String> = Vec::new();
    let mut reasons: Vec<String> = Vec::new();
    let mut weights: Vec<WeightTerm> = Vec::new();
    let mut i: usize = 0;
    proof {
        assert(text::texts(records@) =~= Seq::empty());
        assert(text::texts(terms@) =~= Seq::empty());
        assert(text::texts(reasons@) =~= Seq::empty());
        assert(links::span_models(spans@) =~= Seq::empty());
    }
    while i < group.len()
        invariant
            i <= group@.len(),
            models == links::link_models(v@),
            at == order::indices(group@),
            forall|k: int| 0 <= k < group@.len() ==> #[trigger] group@[k] < v@.len(),
            text::texts(records@) == brought(models, at, records_part(), i as int),
            text::texts(terms@) == brought(models, at, terms_part(), i as int),
            text::texts(reasons@) == brought(models, at, reasons_part(), i as int),
            links::span_models(spans@) == brought_spans(models, at, i as int),
            weights@.len() == i,
            forall|k: int| 0 <= k < i ==> #[trigger] weights@[k] == models[at[k]].term,
        decreases group.len() - i,
    {
        let l = &v[group[i]];
        assert(at[i as int] == group@[i as int]);
        assert(models[at[i as int]] == links::link_model(*l));
        append_texts(&mut records, &l.provenance.record_ids);
        append_texts(&mut terms, &l.provenance.terms);
        append_texts(&mut reasons, &l.provenance.reasons);
        append_spans(&mut spans, &l.provenance.spans);
        weights.push(l.term);
        i += 1;
    }
    let first = &v[group[0]];
    assert(at[0] == group@[0]);
    assert(models[at[0]] == links::link_model(*first));
    let provenance_json = write_provenance(&records, &spans, &terms, &reasons);
    let provenance_sha256 = content_sha256(provenance_json.as_str());
    assert(weights@ =~= Seq::new(at.len(), |k: int| models[at[k]].term));
    EdgeDraft {
        id: edge_id(first.kind, first.source.as_str(), first.target.as_str()),
        kind: first.kind,
        source: first.source.clone(),
        target: first.target.clone(),
        terms: weights,
        directed: first.kind == GraphEdgeType::Replacement,
        provenance_json,
        provenance_sha256,
    }
}

pub open spec fn index_lists(v: Seq<Vec<usize>>) -> Seq<Seq<int>> {
    Seq::new(v.len(), |i: int| order::indices(v[i]@))
}

fn group_links(v: &Vec<GraphLink>) -> (r: Vec<Vec<usize>>)
    ensures
        index_lists(r@) == grouped(links::link_models(v@)),
        forall|g: int| 0 <= g < r@.len() ==> (#[trigger] r@[g])@.len() > 0,
        forall|g: int, k: int|
            0 <= g < r@.len() && 0 <= k < r@[g]@.len() ==> #[trigger] r@[g]@[k] < v@.len(),
{
    let ghost models = links::link_models(v@);
    let mut keys: Vec<Vec<KeyPart>> = Vec::new();
    let mut i: usize = 0;
    while i < v.len()
        invariant
            i <= v@.len(),
            keys@.len() == i,
            models == links::link_models(v@),
            forall|k: int|
                0 <= k < i ==> order::key_model((#[trigger] keys@[k])@) == link_keys(models)[k],
        decreases v.len() - i,
    {
        let l = &v[i];
        let mut key: Vec<KeyPart> = Vec::new();
        key.push(KeyPart::Up(rank_of_edge(l.kind)));
        key.push(KeyPart::Text(l.source.clone()));
        key.push(KeyPart::Text(l.target.clone()));
        assert(order::key_model(key@) =~= link_keys(models)[i as int]);
        keys.push(key);
        i += 1;
    }
    assert(order::key_models(keys@) =~= link_keys(models));
    let sorted = stable_order(&keys);
    let ghost at = order::indices(sorted@);
    let mut out: Vec<Vec<usize>> = Vec::new();
    let mut j: usize = 0;
    assert(index_lists(out@) =~= Seq::empty());
    while j < sorted.len()
        invariant
            j <= sorted@.len(),
            sorted@.len() == v@.len(),
            models == links::link_models(v@),
            at == order::indices(sorted@),
            forall|k: int| 0 <= k < sorted@.len() ==> #[trigger] sorted@[k] < v@.len(),
            index_lists(out@) == edge_groups(models, at, j as int),
            forall|g: int| 0 <= g < out@.len() ==> (#[trigger] out@[g])@.len() > 0,
            forall|g: int, k: int|
                0 <= g < out@.len() && 0 <= k < out@[g]@.len() ==> #[trigger] out@[g]@[k]
                    < v@.len(),
        decreases sorted.len() - j,
    {
        let x = sorted[j];
        assert(at[j as int] == x);
        let ghost rest = index_lists(out@);
        let ghost before = out@;
        let joins = if out.len() == 0 {
            false
        } else {
            let last = &out[out.len() - 1];
            assert(rest.last() == order::indices(last@));
            assert(rest.last()[0] == last@[0]);
            assert(out@[out@.len() - 1]@[0] < v@.len());
            let a = &v[last[0]];
            let b = &v[x];
            a.kind == b.kind && text_eq(a.source.as_str(), b.source.as_str()) && text_eq(
                a.target.as_str(),
                b.target.as_str(),
            )
        };
        if joins {
            let popped = out.pop();
            match popped {
                Some(group) => {
                    let mut group = group;
                    let ghost was = order::indices(group@);
                    group.push(x);
                    assert(order::indices(group@) =~= was.push(x as int));
                    out.push(group);
                    assert(index_lists(out@) =~= rest.update(
                        rest.len() - 1,
                        rest.last().push(x as int),
                    ));
                    assert forall|g: int, k: int|
                        0 <= g < out@.len() && 0 <= k < out@[g]@.len() implies #[trigger] out@[g]@[k]
                        < v@.len() by {
                        if g < before.len() - 1 {
                            assert(out@[g] == before[g]);
                        } else if k < before[before.len() - 1]@.len() {
                            assert(before[before.len() - 1]@[k] < v@.len());
                        }
                    }
                },
                None => {},
            }
        } else {
            let mut group: Vec<usize> = Vec::new();
            group.push(x);
            assert(order::indices(group@) =~= seq![x as int]);
            out.push(group);
            assert(index_lists(out@) =~= rest.push(seq![x as int]));
        }
        j += 1;
    }
    out
}

/// Puts the links of the graph together into its edges.
pub fn finish_edges(v: &Vec<GraphLink>) -> (r: Vec<EdgeDraft>)
    ensures
        r@.len() == grouped(links::link_models(v@)).len(),
        forall|i: int|
            0 <= i < r@.len() ==> is_edge_of(
                #[trigger] r@[i],
                links::link_models(v@),
                grouped(links::link_models(v@))[i],
            ),
{
    let groups = group_links(v);
    let ghost lists = index_lists(groups@);
    let mut out: Vec<EdgeDraft> = Vec::new();
    let mut i: usize = 0;
    while i < groups.len()
        invariant
            i <= groups@.len(),
            lists == index_lists(groups@),
            out@.len() == i,
            forall|g: int| 0 <= g < groups@.len() ==> (#[trigger] groups@[g])@.len() > 0,
            forall|g: int, k: int|
                0 <= g < groups@.len() && 0 <= k < groups@[g]@.len() ==> #[trigger] groups@[g]@[k]
                    < v@.len(),
            forall|k: int|
                0 <= k < i ==> is_edge_of(#[trigger] out@[k], links::link_models(v@), lists[k]),
        decreases groups.len() - i,
    {
        let group = &groups[i];
        assert(lists[i as int] == order::indices(group@));
        assert forall|k: int| 0 <= k < group@.len() implies #[trigger] group@[k] < v@.len() by {
            assert(groups@[i as int]@[k] < v@.len());
        }
        out.push(draft_edge(v, group));
        i += 1;
    }
    out
}

/// Makes the edges of the graph.
pub fn build_edges(basis: &GraphBasis, sources: &GraphSources, limit: usize) -> (r: Result<
    Vec<EdgeDraft>,
    String,
>)
    requires
        sources_fit(*sources, basis.leaves@),
    ensures
        match graph_links(
            graph::node_models(basis.nodes@),
            basis.leaves@,
            basis.events@,
            *sources,
            limit,
        ) {
            Ok(v) => {
                &&& r matches Ok(edges)
                &&& edges@.len() == grouped(v).len()
                &&& forall|i: int|
                    0 <= i < edges@.len() ==> is_edge_of(#[trigger] edges@[i], v, grouped(v)[i])
            },
            Err(e) => r matches Err(m) && m@ == e,
        },
{
    match build_links(basis, sources, limit) {
        Ok(v) => Ok(finish_edges(&v)),
        Err(e) => Err(e),
    }
}

proof fn groups_hold_one_edge(v: Seq<LinkModel>, at: Seq<int>, n: int)
    requires
        0 <= n <= at.len(),
    ensures
        forall|g: int, k: int|
            0 <= g < edge_groups(v, at, n).len() && 0 <= k < edge_groups(v, at, n)[g].len()
                ==> same_edge(
                v[edge_groups(v, at, n)[g][0]],
                v[#[trigger] edge_groups(v, at, n)[g][k]],
            ),
    decreases n,
{
    if n > 0 {
        groups_hold_one_edge(v, at, n - 1);
        groups_flatten(v, at, n - 1);
        let rest = edge_groups(v, at, n - 1);
        let all = edge_groups(v, at, n);
        assert forall|g: int, k: int| 0 <= g < all.len() && 0 <= k < all[g].len() implies same_edge(
            v[all[g][0]],
            v[#[trigger] all[g][k]],
        ) by {
            if g < rest.len() && k < rest[g].len() {
                assert(all[g][0] == rest[g][0]);
                assert(all[g][k] == rest[g][k]);
                assert(same_edge(v[rest[g][0]], v[rest[g][k]]));
            }
        }
    }
}

proof fn flat_holds(v: Seq<Seq<int>>, x: int)
    ensures
        flat(v).contains(x) ==> exists|g: int| 0 <= g < v.len() && (#[trigger] v[g]).contains(x),
    decreases v.len(),
{
    if v.len() > 0 {
        let rest = v.drop_last();
        flat_holds(rest, x);
        if flat(v).contains(x) {
            let i = choose|i: int| 0 <= i < flat(v).len() && flat(v)[i] == x;
            if i < flat(rest).len() {
                assert(flat(rest)[i] == x);
                let g = choose|g: int| 0 <= g < rest.len() && (#[trigger] rest[g]).contains(x);
                assert(v[g] == rest[g]);
            } else {
                assert(v.last()[i - flat(rest).len()] == x);
                assert(v[v.len() - 1].contains(x));
            }
        }
    }
}

/// An edge is made of links of one kind with the same ends, and of all of them:
/// two links belong to one edge exactly where kind and ends are the same.
pub proof fn edges_join_like_links(v: Seq<LinkModel>, i: int, j: int)
    requires
        0 <= i < v.len(),
        0 <= j < v.len(),
    ensures
        (exists|g: int|
            0 <= g < grouped(v).len() && (#[trigger] grouped(v)[g]).contains(i)
                && grouped(v)[g].contains(j)) <==> v[i].kind == v[j].kind && v[i].source
            == v[j].source && v[i].target == v[j].target,
{
    let n = v.len() as int;
    let at = order::ordered(link_keys(v), n);
    let groups = grouped(v);
    order::ordered_is_complete(link_keys(v), n);
    groups_hold_one_edge(v, at, n);
    groups_flatten(v, at, n);
    every_link_has_one_edge(v);
    edges_stand_in_order(v);
    if exists|g: int|
        0 <= g < groups.len() && (#[trigger] groups[g]).contains(i) && groups[g].contains(j) {
        let g = choose|g: int|
            0 <= g < groups.len() && (#[trigger] groups[g]).contains(i) && groups[g].contains(j);
        let p = choose|p: int| 0 <= p < groups[g].len() && groups[g][p] == i;
        let q = choose|q: int| 0 <= q < groups[g].len() && groups[g][q] == j;
        assert(same_edge(v[groups[g][0]], v[groups[g][p]]));
        assert(same_edge(v[groups[g][0]], v[groups[g][q]]));
    }
    if same_edge(v[i], v[j]) {
        assert(flat(groups).contains(i) && flat(groups).contains(j));
        flat_holds(groups, i);
        flat_holds(groups, j);
        let g = choose|g: int| 0 <= g < groups.len() && (#[trigger] groups[g]).contains(i);
        let h = choose|h: int| 0 <= h < groups.len() && (#[trigger] groups[h]).contains(j);
        let p = choose|p: int| 0 <= p < groups[g].len() && groups[g][p] == i;
        let q = choose|q: int| 0 <= q < groups[h].len() && groups[h][q] == j;
        assert(same_edge(v[groups[g][0]], v[groups[g][p]]));
        assert(same_edge(v[groups[h][0]], v[groups[h][q]]));
        let a = v[groups[g][0]];
        let b = v[groups[h][0]];
        key_tells_edges_apart(a, b);
        if g < h {
            assert(group_lt(v, groups[g], groups[h]));
        } else if h < g {
            assert(group_lt(v, groups[h], groups[g]));
        }
        assert(g == h);
    }
}

proof fn brought_by_some(
    v: Seq<LinkModel>,
    group: Seq<int>,
    part: spec_fn(LinkModel) -> Seq<Seq<char>>,
    n: int,
    x: Seq<char>,
)
    requires
        0 <= n <= group.len(),
    ensures
        brought(v, group, part, n).contains(x) <==> exists|k: int|
            0 <= k < n && part(v[#[trigger] group[k]]).contains(x),
    decreases n,
{
    if n > 0 {
        brought_by_some(v, group, part, n - 1, x);
        let before = brought(v, group, part, n - 1);
        let own = part(v[group[n - 1]]);
        let now = brought(v, group, part, n);
        if now.contains(x) {
            let i = choose|i: int| 0 <= i < now.len() && now[i] == x;
            if i < before.len() {
                assert(before[i] == x);
            } else {
                assert(own[i - before.len()] == x);
            }
        }
        if before.contains(x) {
            let i = choose|i: int| 0 <= i < before.len() && before[i] == x;
            assert(now[i] == x);
        }
        if own.contains(x) {
            let i = choose|i: int| 0 <= i < own.len() && own[i] == x;
            assert(now[before.len() + i] == x);
        }
    }
}

proof fn spans_brought_by_some(v: Seq<LinkModel>, group: Seq<int>, n: int, x: SpanModel)
    requires
        0 <= n <= group.len(),
    ensures
        brought_spans(v, group, n).contains(x) <==> exists|k: int|
            0 <= k < n && v[#[trigger] group[k]].provenance.spans.contains(x),
    decreases n,
{
    if n > 0 {
        spans_brought_by_some(v, group, n - 1, x);
        let before = brought_spans(v, group, n - 1);
        let own = v[group[n - 1]].provenance.spans;
        let now = brought_spans(v, group, n);
        if now.contains(x) {
            let i = choose|i: int| 0 <= i < now.len() && now[i] == x;
            if i < before.len() {
                assert(before[i] == x);
            } else {
                assert(own[i - before.len()] == x);
            }
        }
        if before.contains(x) {
            let i = choose|i: int| 0 <= i < before.len() && before[i] == x;
            assert(now[i] == x);
        }
        if own.contains(x) {
            let i = choose|i: int| 0 <= i < own.len() && own[i] == x;
            assert(now[before.len() + i] == x);
        }
    }
}

proof fn squeezing_keeps(v: Seq<SpanModel>, at: Seq<int>, n: int, x: SpanModel)
    requires
        0 <= n <= at.len(),
    ensures
        squeezed(v, at, n).contains(x) <==> exists|k: int| 0 <= k < n && v[#[trigger] at[k]] == x,
    decreases n,
{
    if n > 0 {
        squeezing_keeps(v, at, n - 1, x);
        let before = squeezed(v, at, n - 1);
        let now = squeezed(v, at, n);
        let s = v[at[n - 1]];
        if now.contains(x) {
            let i = choose|i: int| 0 <= i < now.len() && now[i] == x;
            if i < before.len() {
                assert(before[i] == x);
            } else {
                assert(v[at[n - 1]] == x);
            }
        }
        if before.contains(x) {
            let i = choose|i: int| 0 <= i < before.len() && before[i] == x;
            assert(now[i] == x);
        }
        if s == x {
            if now.len() > before.len() {
                assert(now[before.len() as int] == x);
            } else {
                assert(before[before.len() - 1] == x);
                assert(now[before.len() - 1] == x);
            }
        }
    }
}

/// An edge rests on exactly what its links rest on.
pub proof fn edges_rest_on_their_links(
    v: Seq<LinkModel>,
    group: Seq<int>,
    x: Seq<char>,
    s: SpanModel,
)
    ensures
        ({
            let p = combined(v, group);
            &&& p.records.contains(x) <==> exists|k: int|
                0 <= k < group.len() && v[#[trigger] group[k]].provenance.records.contains(x)
            &&& p.terms.contains(x) <==> exists|k: int|
                0 <= k < group.len() && v[#[trigger] group[k]].provenance.terms.contains(x)
            &&& p.reasons.contains(x) <==> exists|k: int|
                0 <= k < group.len() && v[#[trigger] group[k]].provenance.reasons.contains(x)
            &&& p.spans.contains(s) <==> exists|k: int|
                0 <= k < group.len() && v[#[trigger] group[k]].provenance.spans.contains(s)
            &&& p.records.no_duplicates() && p.terms.no_duplicates() && p.reasons.no_duplicates()
        }),
{
    let n = group.len() as int;
    brought_by_some(v, group, records_part(), n, x);
    brought_by_some(v, group, terms_part(), n, x);
    brought_by_some(v, group, reasons_part(), n, x);
    text::distinct_sorted_keeps_elements(brought(v, group, records_part(), n), x);
    text::distinct_sorted_keeps_elements(brought(v, group, terms_part(), n), x);
    text::distinct_sorted_keeps_elements(brought(v, group, reasons_part(), n), x);
    text::distinct_sorted_is_a_set(brought(v, group, records_part(), n));
    text::distinct_sorted_is_a_set(brought(v, group, terms_part(), n));
    text::distinct_sorted_is_a_set(brought(v, group, reasons_part(), n));
    let spans = brought_spans(v, group, n);
    let m = spans.len() as int;
    let at = order::ordered(span_sort_keys(spans), m);
    order::ordered_is_complete(span_sort_keys(spans), m);
    squeezing_keeps(spans, at, m, s);
    spans_brought_by_some(v, group, n, s);
    if spans.contains(s) {
        let i = choose|i: int| 0 <= i < m && spans[i] == s;
        assert(at.contains(i));
        let k = choose|k: int| 0 <= k < at.len() && at[k] == i;
        assert(spans[at[k]] == s);
    }
}

} // verus!
