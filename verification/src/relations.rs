//! The links that come from what was said: entities and words.

use vstd::hash_map::StringHashMap;
use vstd::prelude::*;
use vstd::string::*;

use crate::graph::{
    self, parse_role, GraphEdgeType, GraphNode, GraphNodeKind, Leaf, NodeModel,
    KEYWORD_MIN_NORMALIZED_CHARS,
};
use crate::links::{
    self, about, add_edge, find_node, raw_span, GraphLink, LinkModel, Provenance, ProvenanceModel,
    RawProvenance, WeightTerm,
};
use crate::model::RetrievalDocumentGranularity;
use crate::text::{self, contains_text, sorted_set, text_before, text_eq, union_of};

verus! {

/// Leaves whose ranges do not run backwards.
pub open spec fn leaves_sound(v: Seq<Leaf>) -> bool {
    forall|i: int| 0 <= i < v.len() ==> (#[trigger] v[i]).start <= v[i].end
}

/// A leaf that holds a range of an event.
pub open spec fn covers(l: Leaf, event: Seq<char>, start: usize, end: usize) -> bool {
    l.event_id@ == event && l.start <= start && l.end >= end
}

/// Whether a leaf is shorter, or as short with a smaller id.
pub open spec fn leaf_lt(a: Leaf, b: Leaf) -> bool {
    ||| a.end - a.start < b.end - b.start
    ||| a.end - a.start == b.end - b.start && text::text_lt(a.document_id@, b.document_id@)
}

/// The shortest of the first `n` leaves that hold a range.
pub open spec fn best_leaf(v: Seq<Leaf>, event: Seq<char>, start: usize, end: usize, n: int) -> Option<
    int,
>
    decreases n,
{
    if n <= 0 {
        None
    } else {
        let rest = best_leaf(v, event, start, end, n - 1);
        if !covers(v[n - 1], event, start, end) {
            rest
        } else {
            match rest {
                None => Some(n - 1),
                Some(p) => if leaf_lt(v[n - 1], v[p]) {
                    Some(n - 1)
                } else {
                    rest
                },
            }
        }
    }
}

/// The shortest leaf that holds a range of an event.
pub fn shortest_leaf(leaves: &Vec<Leaf>, event: &str, start: usize, end: usize) -> (r: Option<
    usize,
>)
    requires
        leaves_sound(leaves@),
    ensures
        match r {
            Some(p) => p < leaves@.len() && best_leaf(
                leaves@,
                event@,
                start,
                end,
                leaves@.len() as int,
            ) == Some(p as int) && covers(leaves@[p as int], event@, start, end),
            None => best_leaf(leaves@, event@, start, end, leaves@.len() as int) is None,
        },
{
    let mut best: Option<usize> = None;
    let mut i: usize = 0;
    while i < leaves.len()
        invariant
            i <= leaves@.len(),
            leaves_sound(leaves@),
            match best {
                Some(p) => p < i && best_leaf(leaves@, event@, start, end, i as int) == Some(
                    p as int,
                ) && covers(leaves@[p as int], event@, start, end),
                None => best_leaf(leaves@, event@, start, end, i as int) is None,
            },
        decreases leaves.len() - i,
    {
        let leaf = &leaves[i];
        if text_eq(leaf.event_id.as_str(), event) && leaf.start <= start && leaf.end >= end {
            let better = match best {
                None => true,
                Some(p) => {
                    let known = &leaves[p];
                    let own = leaf.end - leaf.start;
                    let other = known.end - known.start;
                    own < other || (own == other && text_before(
                        leaf.document_id.as_str(),
                        known.document_id.as_str(),
                    ))
                },
            };
            if better {
                best = Some(i);
            }
        }
        i += 1;
    }
    best
}

/// A row that ties a place in an event to an entity.
#[derive(Debug, PartialEq, Eq)]
pub struct MentionRow {
    pub mention_id: String,
    pub entity_id: String,
    pub event_id: String,
    pub start_char: i64,
    pub end_char: i64,
    pub content_sha256: String,
    pub session_id: String,
    pub role: String,
    pub mention_kind: String,
}

/// A mention of an entity in a document.
#[derive(Clone, Debug, PartialEq, Eq)]
pub struct MentionLink {
    pub entity: String,
    pub document: String,
    pub mention: String,
}

pub struct MentionModel {
    pub entity: Seq<char>,
    pub document: Seq<char>,
    pub mention: Seq<char>,
}

pub open spec fn mention_model(m: MentionLink) -> MentionModel {
    MentionModel { entity: m.entity@, document: m.document@, mention: m.mention@ }
}

pub open spec fn mention_models(v: Seq<MentionLink>) -> Seq<MentionModel> {
    Seq::new(v.len(), |i: int| mention_model(v[i]))
}

pub open spec fn is_offset(n: i64) -> bool {
    0 <= n <= usize::MAX
}

pub fn offset(n: i64) -> (r: Option<usize>)
    ensures
        match r {
            Some(value) => is_offset(n) && value == n,
            None => !is_offset(n),
        },
{
    if n >= 0 && n as u64 <= usize::MAX as u64 {
        Some(n as usize)
    } else {
        None
    }
}

/// What a link that quotes a record rests on.
pub open spec fn record_provenance(
    id: Seq<char>,
    leaf: Leaf,
    start: usize,
    end: usize,
    hash: Seq<char>,
    reason: Seq<char>,
) -> ProvenanceModel {
    ProvenanceModel {
        records: seq![id],
        spans: seq![links::leaf_span(leaf, start, end, hash)],
        terms: Seq::empty(),
        reasons: seq![reason],
    }
}

pub fn quote_record(
    id: &str,
    leaf: &Leaf,
    start: usize,
    end: usize,
    hash: &str,
    reason: &str,
) -> (r: Provenance)
    ensures
        links::provenance_model(r) == record_provenance(
            id@,
            *leaf,
            start,
            end,
            hash@,
            reason@,
        ),
{
    let mut record_ids: Vec<String> = Vec::new();
    record_ids.push(id.to_owned());
    let mut spans: Vec<RawProvenance> = Vec::new();
    spans.push(raw_span(leaf, start, end, hash));
    let mut reasons: Vec<String> = Vec::new();
    reasons.push(reason.to_owned());
    let r = Provenance { record_ids, spans, terms: Vec::new(), reasons };
    proof {
        let want = record_provenance(id@, *leaf, start, end, hash@, reason@);
        assert(text::texts(r.record_ids@) =~= want.records);
        assert(links::span_models(r.spans@) =~= want.spans);
        assert(text::texts(r.terms@) =~= want.terms);
        assert(text::texts(r.reasons@) =~= want.reasons);
    }
    r
}

/// The leaf of a mention.
pub open spec fn mention_leaf(row: MentionRow, leaves: Seq<Leaf>) -> Option<int> {
    best_leaf(
        leaves,
        row.event_id@,
        row.start_char as usize,
        row.end_char as usize,
        leaves.len() as int,
    )
}

/// The link of a mention with its entity.
pub open spec fn mention_step(row: MentionRow, nodes: Seq<NodeModel>, leaves: Seq<Leaf>) -> Result<
    Seq<LinkModel>,
    Seq<char>,
> {
    if !is_offset(row.start_char) || !is_offset(row.end_char) {
        Err("mention span无效"@)
    } else {
        match (
            mention_leaf(row, leaves),
            links::node_of(nodes, GraphNodeKind::Entity, row.entity_id@),
        ) {
            (None, _) => Err("mention "@ + row.mention_id@ + " 无leaf映射"@),
            (_, None) => Err(
                "resolved mention "@ + row.mention_id@ + " 指向非resolved entity"@,
            ),
            (Some(p), Some(entity)) => if row.session_id@ != leaves[p].session_id@ {
                Err("mention raw binding错误"@)
            } else {
                match graph::role_named(row.role@) {
                    None => Err(graph::unknown_role(row.role@)),
                    Some(role) => if role != leaves[p].role {
                        Err("mention raw binding错误"@)
                    } else {
                        links::linked(
                            GraphEdgeType::EntityMention,
                            entity,
                            leaves[p].node_id@,
                            false,
                            WeightTerm::One,
                            record_provenance(
                                row.mention_id@,
                                leaves[p],
                                row.start_char as usize,
                                row.end_char as usize,
                                row.content_sha256@,
                                row.mention_kind@,
                            ),
                        )
                    },
                }
            },
        }
    }
}

pub open spec fn mention_steps(
    rows: Seq<MentionRow>,
    nodes: Seq<NodeModel>,
    leaves: Seq<Leaf>,
) -> spec_fn(int) -> Result<Seq<LinkModel>, Seq<char>> {
    |i: int| mention_step(rows[i], nodes, leaves)
}

/// The mentions of all rows.
pub open spec fn mentions_of(rows: Seq<MentionRow>, leaves: Seq<Leaf>) -> Seq<MentionModel> {
    Seq::new(
        rows.len(),
        |i: int|
            MentionModel {
                entity: rows[i].entity_id@,
                document: leaves[mention_leaf(rows[i], leaves)->0].node_id@,
                mention: rows[i].mention_id@,
            },
    )
}

fn add_mention(
    out: &mut Vec<GraphLink>,
    row: &MentionRow,
    nodes: &Vec<GraphNode>,
    leaves: &Vec<Leaf>,
) -> (r: Result<MentionLink, String>)
    requires
        leaves_sound(leaves@),
    ensures
        ({
            let want = links::extended(
                links::link_models(old(out)@),
                mention_step(*row, graph::node_models(nodes@), leaves@),
            );
            match r {
                Ok(m) => want == Ok::<Seq<LinkModel>, Seq<char>>(links::link_models(final(out)@))
                    && mention_model(m) == (MentionModel {
                    entity: row.entity_id@,
                    document: leaves@[mention_leaf(*row, leaves@)->0].node_id@,
                    mention: row.mention_id@,
                }),
                Err(e) => want == Err::<Seq<LinkModel>, Seq<char>>(e@),
            }
        }),
{
    let (start, end) = match (offset(row.start_char), offset(row.end_char)) {
        (Some(start), Some(end)) => (start, end),
        _ => return Err("mention span无效".to_owned()),
    };
    let leaf = match shortest_leaf(leaves, row.event_id.as_str(), start, end) {
        Some(p) => &leaves[p],
        None => return Err(about("mention ", row.mention_id.as_str(), " 无leaf映射")),
    };
    let entity = match find_node(nodes, GraphNodeKind::Entity, row.entity_id.as_str()) {
        Some(id) => id,
        None => return Err(
            about("resolved mention ", row.mention_id.as_str(), " 指向非resolved entity"),
        ),
    };
    if !text_eq(row.session_id.as_str(), leaf.session_id.as_str()) {
        return Err("mention raw binding错误".to_owned());
    }
    let role = match parse_role(row.role.as_str()) {
        Ok(role) => role,
        Err(e) => return Err(e),
    };
    if !(role == leaf.role) {
        return Err("mention raw binding错误".to_owned());
    }
    let provenance = quote_record(
        row.mention_id.as_str(),
        leaf,
        start,
        end,
        row.content_sha256.as_str(),
        row.mention_kind.as_str(),
    );
    match add_edge(
        out,
        GraphEdgeType::EntityMention,
        entity,
        leaf.node_id.as_str(),
        false,
        WeightTerm::One,
        provenance,
    ) {
        Ok(()) => Ok(
            MentionLink {
                entity: row.entity_id.clone(),
                document: leaf.node_id.clone(),
                mention: row.mention_id.clone(),
            },
        ),
        Err(e) => Err(e),
    }
}

/// Links entities with the documents that mention them.
pub fn add_entity_edges(
    out: &mut Vec<GraphLink>,
    rows: &Vec<MentionRow>,
    nodes: &Vec<GraphNode>,
    leaves: &Vec<Leaf>,
) -> (r: Result<Vec<MentionLink>, String>)
    requires
        leaves_sound(leaves@),
    ensures
        ({
            let want = links::gather(
                links::link_models(old(out)@),
                mention_steps(rows@, graph::node_models(nodes@), leaves@),
                rows@.len() as int,
            );
            match r {
                Ok(m) => want == Ok::<Seq<LinkModel>, Seq<char>>(links::link_models(final(out)@))
                    && mention_models(m@) == mentions_of(rows@, leaves@),
                Err(e) => want == Err::<Seq<LinkModel>, Seq<char>>(e@),
            }
        }),
{
    let ghost start = links::link_models(out@);
    let ghost step = mention_steps(rows@, graph::node_models(nodes@), leaves@);
    let ghost want = mentions_of(rows@, leaves@);
    let mut mentions: Vec<MentionLink> = Vec::new();
    let mut i: usize = 0;
    while i < rows.len()
        invariant
            i <= rows@.len(),
            leaves_sound(leaves@),
            mentions@.len() == i,
            want == mentions_of(rows@, leaves@),
            step == mention_steps(rows@, graph::node_models(nodes@), leaves@),
            start == links::link_models(old(out)@),
            forall|k: int| 0 <= k < i ==> mention_model(#[trigger] mentions@[k]) == want[k],
            links::gather(start, step, i as int) == Ok::<Seq<LinkModel>, Seq<char>>(
                links::link_models(out@),
            ),
        decreases rows.len() - i,
    {
        assert(step(i as int) == mention_step(
            rows@[i as int],
            graph::node_models(nodes@),
            leaves@,
        ));
        match add_mention(out, &rows[i], nodes, leaves) {
            Ok(m) => mentions.push(m),
            Err(e) => {
                proof {
                    links::gather_stops(start, step, i + 1, rows@.len() as int);
                }
                return Err(e);
            },
        }
        i += 1;
    }
    assert(mention_models(mentions@) =~= want);
    Ok(mentions)
}

/// The documents of the first `n` mentions of an entity.
pub open spec fn documents_of(m: Seq<MentionModel>, entity: Seq<char>, n: int) -> Seq<Seq<char>>
    decreases n,
{
    if n <= 0 {
        Seq::empty()
    } else if m[n - 1].entity == entity {
        documents_of(m, entity, n - 1).push(m[n - 1].document)
    } else {
        documents_of(m, entity, n - 1)
    }
}

/// The first `n` mentions of an entity in a document.
pub open spec fn records_of(
    m: Seq<MentionModel>,
    entity: Seq<char>,
    document: Seq<char>,
    n: int,
) -> Seq<Seq<char>>
    decreases n,
{
    if n <= 0 {
        Seq::empty()
    } else if m[n - 1].entity == entity && m[n - 1].document == document {
        records_of(m, entity, document, n - 1).push(m[n - 1].mention)
    } else {
        records_of(m, entity, document, n - 1)
    }
}

pub open spec fn entity_names(m: Seq<MentionModel>) -> Seq<Seq<char>> {
    text::distinct_sorted(Seq::new(m.len(), |i: int| m[i].entity))
}

pub open spec fn entity_documents(m: Seq<MentionModel>, entity: Seq<char>) -> Seq<Seq<char>> {
    text::distinct_sorted(documents_of(m, entity, m.len() as int))
}

pub open spec fn document_records(m: Seq<MentionModel>, entity: Seq<char>, document: Seq<char>) -> Seq<
    Seq<char>,
> {
    text::distinct_sorted(records_of(m, entity, document, m.len() as int))
}

/// The link of two documents that mention the same entity.
pub open spec fn shared_link(m: Seq<MentionModel>, entity: Seq<char>, i: int, j: int) -> Result<
    Seq<LinkModel>,
    Seq<char>,
> {
    let docs = entity_documents(m, entity);
    links::linked(
        GraphEdgeType::SharedEntity,
        docs[i],
        docs[j],
        false,
        WeightTerm::One,
        ProvenanceModel {
            records: text::distinct_sorted(
                document_records(m, entity, docs[i]) + document_records(m, entity, docs[j]),
            ),
            spans: Seq::empty(),
            terms: seq![entity],
            reasons: Seq::empty(),
        },
    )
}

pub open spec fn shared_pairs(m: Seq<MentionModel>, entity: Seq<char>, i: int) -> spec_fn(
    int,
) -> Result<Seq<LinkModel>, Seq<char>> {
    |k: int| shared_link(m, entity, i, i + 1 + k)
}

pub open spec fn shared_row(m: Seq<MentionModel>, entity: Seq<char>, i: int) -> Result<
    Seq<LinkModel>,
    Seq<char>,
> {
    links::gather(
        links::no_links(),
        shared_pairs(m, entity, i),
        entity_documents(m, entity).len() - i - 1,
    )
}

pub open spec fn shared_rows(m: Seq<MentionModel>, entity: Seq<char>) -> spec_fn(int) -> Result<
    Seq<LinkModel>,
    Seq<char>,
> {
    |i: int| shared_row(m, entity, i)
}

/// The links of all pairs of documents of one entity; an entity with one
/// document, or with too many, links none.
pub open spec fn shared_step(m: Seq<MentionModel>, entity: Seq<char>, limit: usize) -> Result<
    Seq<LinkModel>,
    Seq<char>,
> {
    let docs = entity_documents(m, entity);
    if 2 <= docs.len() <= limit {
        links::gather(links::no_links(), shared_rows(m, entity), docs.len() as int)
    } else {
        Ok(links::no_links())
    }
}

pub open spec fn shared_steps(m: Seq<MentionModel>, limit: usize) -> spec_fn(int) -> Result<
    Seq<LinkModel>,
    Seq<char>,
> {
    |i: int| shared_step(m, entity_names(m)[i], limit)
}

fn name_entities(m: &Vec<MentionLink>) -> (r: Vec<String>)
    ensures
        text::texts(r@) == entity_names(mention_models(m@)),
{
    let mut all: Vec<String> = Vec::new();
    let mut i: usize = 0;
    while i < m.len()
        invariant
            i <= m@.len(),
            all@.len() == i,
            forall|k: int| 0 <= k < i ==> (#[trigger] all@[k])@ == m@[k].entity@,
        decreases m.len() - i,
    {
        all.push(m[i].entity.clone());
        i += 1;
    }
    assert(text::texts(all@) =~= Seq::new(
        mention_models(m@).len(),
        |k: int| mention_models(m@)[k].entity,
    ));
    let out = sorted_set(&all);
    proof {
        text::distinct_sorted_is(text::texts(all@), text::texts(out@));
    }
    out
}

fn list_documents(m: &Vec<MentionLink>, entity: &str) -> (r: Vec<String>)
    ensures
        text::texts(r@) == entity_documents(mention_models(m@), entity@),
{
    let ghost models = mention_models(m@);
    let mut all: Vec<String> = Vec::new();
    let mut i: usize = 0;
    assert(text::texts(all@) =~= Seq::empty());
    while i < m.len()
        invariant
            i <= m@.len(),
            models == mention_models(m@),
            text::texts(all@) == documents_of(models, entity@, i as int),
        decreases m.len() - i,
    {
        assert(models[i as int] == mention_model(m@[i as int]));
        if text_eq(m[i].entity.as_str(), entity) {
            let ghost before = text::texts(all@);
            all.push(m[i].document.clone());
            assert(text::texts(all@) =~= before.push(m@[i as int].document@));
        }
        i += 1;
    }
    let out = sorted_set(&all);
    proof {
        text::distinct_sorted_is(text::texts(all@), text::texts(out@));
    }
    out
}

fn list_records(m: &Vec<MentionLink>, entity: &str, document: &str) -> (r: Vec<String>)
    ensures
        text::texts(r@) == document_records(mention_models(m@), entity@, document@),
{
    let ghost models = mention_models(m@);
    let mut all: Vec<String> = Vec::new();
    let mut i: usize = 0;
    assert(text::texts(all@) =~= Seq::empty());
    while i < m.len()
        invariant
            i <= m@.len(),
            models == mention_models(m@),
            text::texts(all@) == records_of(models, entity@, document@, i as int),
        decreases m.len() - i,
    {
        assert(models[i as int] == mention_model(m@[i as int]));
        if text_eq(m[i].entity.as_str(), entity) && text_eq(m[i].document.as_str(), document) {
            let ghost before = text::texts(all@);
            all.push(m[i].mention.clone());
            assert(text::texts(all@) =~= before.push(m@[i as int].mention@));
        }
        i += 1;
    }
    let out = sorted_set(&all);
    proof {
        text::distinct_sorted_is(text::texts(all@), text::texts(out@));
    }
    out
}

fn add_shared_row(
    out: &mut Vec<GraphLink>,
    m: &Vec<MentionLink>,
    entity: &str,
    docs: &Vec<String>,
    records: &Vec<Vec<String>>,
    i: usize,
) -> (r: Result<(), String>)
    requires
        i < docs@.len(),
        text::texts(docs@) == entity_documents(mention_models(m@), entity@),
        records@.len() == docs@.len(),
        forall|k: int|
            0 <= k < docs@.len() ==> text::texts((#[trigger] records@[k])@) == document_records(
                mention_models(m@),
                entity@,
                docs@[k]@,
            ),
    ensures
        links::links_are(
            r,
            final(out)@,
            links::extended(
                links::link_models(old(out)@),
                shared_row(mention_models(m@), entity@, i as int),
            ),
        ),
{
    let ghost models = mention_models(m@);
    let ghost names = text::texts(docs@);
    let ghost start = links::link_models(out@);
    let ghost step = shared_pairs(models, entity@, i as int);
    let ghost total = docs@.len() - i - 1;
    proof {
        links::gather_shift(start, step, total);
    }
    let count = docs.len();
    let mut j: usize = i + 1;
    while j < count
        invariant
            i < j <= docs@.len(),
            count == docs@.len(),
            models == mention_models(m@),
            names == text::texts(docs@),
            names == entity_documents(models, entity@),
            step == shared_pairs(models, entity@, i as int),
            start == links::link_models(old(out)@),
            total == docs@.len() - i - 1,
            records@.len() == docs@.len(),
            forall|k: int|
                0 <= k < docs@.len() ==> text::texts((#[trigger] records@[k])@)
                    == document_records(models, entity@, docs@[k]@),
            links::gather(start, step, j - i - 1) == Ok::<Seq<LinkModel>, Seq<char>>(
                links::link_models(out@),
            ),
            links::gather(start, step, total) == links::extended(
                start,
                shared_row(models, entity@, i as int),
            ),
        decreases count - j,
    {
        let both = union_of(&records[i], &records[j]);
        let mut terms: Vec<String> = Vec::new();
        terms.push(entity.to_owned());
        let provenance = Provenance {
            record_ids: both,
            spans: Vec::new(),
            terms,
            reasons: Vec::new(),
        };
        proof {
            assert(names[i as int] == docs@[i as int]@ && names[j as int] == docs@[j as int]@);
            assert(text::texts(provenance.terms@) =~= seq![entity@]);
            assert(links::span_models(provenance.spans@) =~= Seq::empty());
            assert(text::texts(provenance.reasons@) =~= Seq::empty());
            assert(step(j - i - 1) == shared_link(models, entity@, i as int, j as int));
        }
        if let Err(e) = add_edge(
            out,
            GraphEdgeType::SharedEntity,
            docs[i].as_str(),
            docs[j].as_str(),
            false,
            WeightTerm::One,
            provenance,
        ) {
            proof {
                links::gather_stops(start, step, j - i, total);
            }
            return Err(e);
        }
        j += 1;
    }
    Ok(())
}

fn add_shared_entity(out: &mut Vec<GraphLink>, m: &Vec<MentionLink>, entity: &str, limit: usize) -> (r:
    Result<(), String>)
    ensures
        links::links_are(
            r,
            final(out)@,
            links::extended(
                links::link_models(old(out)@),
                shared_step(mention_models(m@), entity@, limit),
            ),
        ),
{
    let ghost models = mention_models(m@);
    let ghost start = links::link_models(out@);
    let docs = list_documents(m, entity);
    assert(start + links::no_links() =~= start);
    assert(entity_documents(models, entity@).len() == docs@.len());
    if docs.len() < 2 || docs.len() > limit {
        return Ok(());
    }
    let mut records: Vec<Vec<String>> = Vec::new();
    let mut k: usize = 0;
    while k < docs.len()
        invariant
            k <= docs@.len(),
            models == mention_models(m@),
            records@.len() == k,
            forall|q: int|
                0 <= q < k ==> text::texts((#[trigger] records@[q])@) == document_records(
                    models,
                    entity@,
                    docs@[q]@,
                ),
        decreases docs.len() - k,
    {
        records.push(list_records(m, entity, docs[k].as_str()));
        k += 1;
    }
    let ghost step = shared_rows(models, entity@);
    proof {
        links::gather_shift(start, step, docs@.len() as int);
    }
    let mut i: usize = 0;
    while i < docs.len()
        invariant
            i <= docs@.len(),
            models == mention_models(m@),
            step == shared_rows(models, entity@),
            start == links::link_models(old(out)@),
            text::texts(docs@) == entity_documents(models, entity@),
            2 <= docs@.len() <= limit,
            entity_documents(models, entity@).len() == docs@.len(),
            records@.len() == docs@.len(),
            forall|q: int|
                0 <= q < docs@.len() ==> text::texts((#[trigger] records@[q])@)
                    == document_records(models, entity@, docs@[q]@),
            links::gather(start, step, i as int) == Ok::<Seq<LinkModel>, Seq<char>>(
                links::link_models(out@),
            ),
            links::gather(start, step, docs@.len() as int) == links::extended(
                start,
                links::gather(links::no_links(), step, docs@.len() as int),
            ),
        decreases docs.len() - i,
    {
        assert(step(i as int) == shared_row(models, entity@, i as int));
        if let Err(e) = add_shared_row(out, m, entity, &docs, &records, i) {
            proof {
                links::gather_stops(start, step, i + 1, docs@.len() as int);
            }
            return Err(e);
        }
        i += 1;
    }
    Ok(())
}

/// Links documents that mention the same entity.
pub fn add_shared_edges(out: &mut Vec<GraphLink>, m: &Vec<MentionLink>, limit: usize) -> (r: Result<
    (),
    String,
>)
    ensures
        links::links_are(
            r,
            final(out)@,
            links::gather(
                links::link_models(old(out)@),
                shared_steps(mention_models(m@), limit),
                entity_names(mention_models(m@)).len() as int,
            ),
        ),
{
    let ghost models = mention_models(m@);
    let ghost start = links::link_models(out@);
    let ghost step = shared_steps(models, limit);
    let names = name_entities(m);
    assert(entity_names(models).len() == names@.len());
    let mut i: usize = 0;
    while i < names.len()
        invariant
            i <= names@.len(),
            models == mention_models(m@),
            step == shared_steps(models, limit),
            start == links::link_models(old(out)@),
            text::texts(names@) == entity_names(models),
            entity_names(models).len() == names@.len(),
            links::gather(start, step, i as int) == Ok::<Seq<LinkModel>, Seq<char>>(
                links::link_models(out@),
            ),
        decreases names.len() - i,
    {
        assert(text::texts(names@)[i as int] == names@[i as int]@);
        assert(step(i as int) == shared_step(models, names@[i as int]@, limit));
        if let Err(e) = add_shared_entity(out, m, names[i].as_str(), limit) {
            proof {
                links::gather_stops(start, step, i + 1, names@.len() as int);
            }
            return Err(e);
        }
        i += 1;
    }
    Ok(())
}

/// The message leaves among the first `n`.
pub open spec fn message_places(v: Seq<Leaf>, n: int) -> Seq<int>
    decreases n,
{
    if n <= 0 {
        Seq::empty()
    } else if v[n - 1].granularity == RetrievalDocumentGranularity::Message {
        message_places(v, n - 1).push(n - 1)
    } else {
        message_places(v, n - 1)
    }
}

/// The terms among the first `n` that are long enough.
pub open spec fn long_terms(v: Seq<Seq<char>>, n: int) -> Seq<Seq<char>>
    decreases n,
{
    if n <= 0 {
        Seq::empty()
    } else if v[n - 1].len() >= KEYWORD_MIN_NORMALIZED_CHARS {
        long_terms(v, n - 1).push(v[n - 1])
    } else {
        long_terms(v, n - 1)
    }
}

/// The distinct terms of a document.
pub open spec fn document_terms(v: Seq<Seq<char>>) -> Seq<Seq<char>> {
    text::distinct_sorted(long_terms(v, v.len() as int))
}

pub open spec fn term_lists(v: Seq<Vec<String>>) -> Seq<Seq<Seq<char>>> {
    Seq::new(v.len(), |i: int| text::texts(v[i]@))
}

/// In how many of the first `n` documents a term stands.
pub open spec fn document_count(docs: Seq<Seq<Seq<char>>>, term: Seq<char>, n: int) -> nat
    decreases n,
{
    if n <= 0 {
        0
    } else if docs[n - 1].contains(term) {
        document_count(docs, term, n - 1) + 1
    } else {
        document_count(docs, term, n - 1)
    }
}

/// A term that stands in several documents, and not in too many.
pub open spec fn telling(docs: Seq<Seq<Seq<char>>>, term: Seq<char>, limit: usize) -> bool {
    2 <= document_count(docs, term, docs.len() as int) <= limit
}

/// The telling ones among the first `n` terms.
pub open spec fn telling_terms(
    docs: Seq<Seq<Seq<char>>>,
    own: Seq<Seq<char>>,
    limit: usize,
    n: int,
) -> Seq<Seq<char>>
    decreases n,
{
    if n <= 0 {
        Seq::empty()
    } else if telling(docs, own[n - 1], limit) {
        telling_terms(docs, own, limit, n - 1).push(own[n - 1])
    } else {
        telling_terms(docs, own, limit, n - 1)
    }
}

/// The telling terms of every document.
pub open spec fn all_telling(docs: Seq<Seq<Seq<char>>>, limit: usize) -> Seq<Seq<Seq<char>>> {
    Seq::new(docs.len(), |i: int| telling_terms(docs, docs[i], limit, docs[i].len() as int))
}

/// The first `n` terms that another list holds too.
pub open spec fn common_terms(a: Seq<Seq<char>>, b: Seq<Seq<char>>, n: int) -> Seq<Seq<char>>
    decreases n,
{
    if n <= 0 {
        Seq::empty()
    } else if b.contains(a[n - 1]) {
        common_terms(a, b, n - 1).push(a[n - 1])
    } else {
        common_terms(a, b, n - 1)
    }
}

/// The link of two documents by the telling terms that they share.
pub open spec fn keyword_link(
    ids: Seq<Seq<char>>,
    terms: Seq<Seq<Seq<char>>>,
    i: int,
    j: int,
) -> Result<Seq<LinkModel>, Seq<char>> {
    let shared = common_terms(terms[i], terms[j], terms[i].len() as int);
    if shared.len() == 0 {
        Ok(links::no_links())
    } else {
        links::linked(
            GraphEdgeType::KeywordCooccurrence,
            ids[i],
            ids[j],
            false,
            WeightTerm::Share {
                shared: shared.len() as usize,
                union: text::distinct_sorted(terms[i] + terms[j]).len() as usize,
            },
            ProvenanceModel {
                records: Seq::empty(),
                spans: Seq::empty(),
                terms: shared,
                reasons: Seq::empty(),
            },
        )
    }
}

pub open spec fn keyword_pairs(ids: Seq<Seq<char>>, terms: Seq<Seq<Seq<char>>>, i: int) -> spec_fn(
    int,
) -> Result<Seq<LinkModel>, Seq<char>> {
    |k: int| keyword_link(ids, terms, i, i + 1 + k)
}

pub open spec fn keyword_row(ids: Seq<Seq<char>>, terms: Seq<Seq<Seq<char>>>, i: int) -> Result<
    Seq<LinkModel>,
    Seq<char>,
> {
    links::gather(links::no_links(), keyword_pairs(ids, terms, i), ids.len() - i - 1)
}

pub open spec fn keyword_rows(ids: Seq<Seq<char>>, terms: Seq<Seq<Seq<char>>>) -> spec_fn(
    int,
) -> Result<Seq<LinkModel>, Seq<char>> {
    |i: int| keyword_row(ids, terms, i)
}

/// The ids of the message documents.
pub open spec fn message_ids(leaves: Seq<Leaf>) -> Seq<Seq<char>> {
    let at = message_places(leaves, leaves.len() as int);
    Seq::new(at.len(), |i: int| leaves[at[i]].node_id@)
}

/// The terms of the message documents.
pub open spec fn message_terms(leaves: Seq<Leaf>, raw: Seq<Vec<String>>) -> Seq<Seq<Seq<char>>> {
    let at = message_places(leaves, leaves.len() as int);
    Seq::new(at.len(), |i: int| document_terms(text::texts(raw[at[i]]@)))
}

fn list_terms(raw: &Vec<String>) -> (r: Vec<String>)
    ensures
        text::texts(r@) == document_terms(text::texts(raw@)),
        text::strictly_sorted(text::texts(r@)),
{
    let ghost all = text::texts(raw@);
    let mut kept: Vec<String> = Vec::new();
    let mut i: usize = 0;
    assert(text::texts(kept@) =~= Seq::empty());
    while i < raw.len()
        invariant
            i <= raw@.len(),
            all == text::texts(raw@),
            text::texts(kept@) == long_terms(all, i as int),
        decreases raw.len() - i,
    {
        assert(all[i as int] == raw@[i as int]@);
        if raw[i].as_str().unicode_len() >= KEYWORD_MIN_NORMALIZED_CHARS {
            let ghost before = text::texts(kept@);
            kept.push(raw[i].clone());
            assert(text::texts(kept@) =~= before.push(raw@[i as int]@));
        }
        i += 1;
    }
    let out = sorted_set(&kept);
    proof {
        text::distinct_sorted_is(text::texts(kept@), text::texts(out@));
    }
    out
}

pub open spec fn counted(m: Map<Seq<char>, usize>, t: Seq<char>) -> nat {
    if m.contains_key(t) {
        m[t] as nat
    } else {
        0
    }
}

pub open spec fn one_if_in(v: Seq<Seq<char>>, t: Seq<char>) -> nat {
    if v.contains(t) {
        1
    } else {
        0
    }
}

proof fn sorted_without_repetition(v: Seq<Seq<char>>)
    requires
        text::strictly_sorted(v),
    ensures
        v.no_duplicates(),
{
    assert forall|i: int, j: int| 0 <= i < v.len() && 0 <= j < v.len() && i != j implies v[i]
        != v[j] by {
        if i < j {
            assert(text::text_lt(v[i], v[j]));
        } else {
            assert(text::text_lt(v[j], v[i]));
        }
        text::text_lt_irreflexive(v[i]);
    }
}

fn count_terms(docs: &Vec<Vec<String>>) -> (r: StringHashMap<usize>)
    requires
        forall|i: int|
            0 <= i < docs@.len() ==> text::strictly_sorted(text::texts((#[trigger] docs@[i])@)),
    ensures
        forall|t: Seq<char>|
            #[trigger] counted(r@, t) == document_count(
                term_lists(docs@),
                t,
                docs@.len() as int,
            ),
{
    let ghost lists = term_lists(docs@);
    let mut counts: StringHashMap<usize> = StringHashMap::new();
    let total = docs.len();
    let mut d: usize = 0;
    while d < total
        invariant
            d <= total,
            total == docs@.len(),
            lists == term_lists(docs@),
            forall|i: int|
                0 <= i < docs@.len() ==> text::strictly_sorted(
                    text::texts((#[trigger] docs@[i])@),
                ),
            forall|t: Seq<char>|
                #[trigger] counted(counts@, t) == document_count(lists, t, d as int),
            forall|t: Seq<char>| #[trigger] counted(counts@, t) <= d,
        decreases total - d,
    {
        let own = &docs[d];
        let ghost terms = text::texts(own@);
        let ghost before = counts@;
        proof {
            sorted_without_repetition(terms);
            assert(lists[d as int] == terms);
        }
        let mut k: usize = 0;
        while k < own.len()
            invariant
                k <= own@.len(),
                d < total,
                terms == text::texts(own@),
                terms.no_duplicates(),
                forall|t: Seq<char>| #[trigger] counted(before, t) <= d,
                forall|t: Seq<char>|
                    #[trigger] counted(counts@, t) == counted(before, t) + one_if_in(
                        terms.take(k as int),
                        t,
                    ),
            decreases own.len() - k,
        {
            let ghost now = counts@;
            let ghost term = own@[k as int]@;
            let known: usize = match counts.get(own[k].as_str()) {
                Some(n) => *n,
                None => 0,
            };
            proof {
                assert(terms[k as int] == term);
                assert(!terms.take(k as int).contains(term)) by {
                    if terms.take(k as int).contains(term) {
                        let q = choose|q: int|
                            0 <= q < k && terms.take(k as int)[q] == term;
                        assert(terms[q] == terms[k as int]);
                    }
                }
                assert(counted(now, term) == counted(before, term));
                assert(known == counted(now, term));
                assert(counted(before, term) <= d);
            }
            counts.insert(own[k].clone(), known + 1);
            proof {
                assert forall|t: Seq<char>|
                    #[trigger] counted(counts@, t) == counted(before, t) + one_if_in(
                        terms.take(k + 1),
                        t,
                    ) by {
                    let shorter = terms.take(k as int);
                    let longer = terms.take(k + 1);
                    assert(counted(now, t) == counted(before, t) + one_if_in(shorter, t));
                    if t == term {
                        assert(longer[k as int] == term);
                    } else {
                        assert(counted(counts@, t) == counted(now, t));
                        if shorter.contains(t) {
                            let q = choose|q: int| 0 <= q < shorter.len() && shorter[q] == t;
                            assert(longer[q] == t);
                        }
                        if longer.contains(t) {
                            let q = choose|q: int| 0 <= q < longer.len() && longer[q] == t;
                            assert(shorter[q] == t);
                        }
                    }
                }
            }
            k += 1;
        }
        proof {
            assert(terms.take(k as int) =~= terms);
            assert forall|t: Seq<char>|
                #[trigger] counted(counts@, t) == document_count(lists, t, d + 1) by {
                assert(counted(before, t) == document_count(lists, t, d as int));
            }
            assert forall|t: Seq<char>| #[trigger] counted(counts@, t) <= d + 1 by {
                assert(counted(before, t) <= d);
            }
        }
        d += 1;
    }
    counts
}

fn keep_telling(
    docs: &Vec<Vec<String>>,
    own: &Vec<String>,
    counts: &StringHashMap<usize>,
    limit: usize,
) -> (r: Vec<String>)
    requires
        forall|t: Seq<char>|
            #[trigger] counted(counts@, t) == document_count(
                term_lists(docs@),
                t,
                docs@.len() as int,
            ),
    ensures
        text::texts(r@) == telling_terms(
            term_lists(docs@),
            text::texts(own@),
            limit,
            own@.len() as int,
        ),
{
    let ghost lists = term_lists(docs@);
    let ghost mine = text::texts(own@);
    let mut out: Vec<String> = Vec::new();
    let mut i: usize = 0;
    assert(text::texts(out@) =~= Seq::empty());
    while i < own.len()
        invariant
            i <= own@.len(),
            lists == term_lists(docs@),
            mine == text::texts(own@),
            forall|t: Seq<char>|
                #[trigger] counted(counts@, t) == document_count(lists, t, docs@.len() as int),
            text::texts(out@) == telling_terms(lists, mine, limit, i as int),
        decreases own.len() - i,
    {
        let ghost term = own@[i as int]@;
        assert(mine[i as int] == term);
        let n: usize = match counts.get(own[i].as_str()) {
            Some(n) => *n,
            None => 0,
        };
        assert(n == counted(counts@, term));
        if 2 <= n && n <= limit {
            let ghost before = text::texts(out@);
            out.push(own[i].clone());
            assert(text::texts(out@) =~= before.push(term));
        }
        i += 1;
    }
    out
}

fn share_terms(a: &Vec<String>, b: &Vec<String>) -> (r: Vec<String>)
    ensures
        text::texts(r@) == common_terms(text::texts(a@), text::texts(b@), a@.len() as int),
{
    let ghost ta = text::texts(a@);
    let mut out: Vec<String> = Vec::new();
    let mut i: usize = 0;
    assert(text::texts(out@) =~= Seq::empty());
    while i < a.len()
        invariant
            i <= a@.len(),
            ta == text::texts(a@),
            text::texts(out@) == common_terms(ta, text::texts(b@), i as int),
        decreases a.len() - i,
    {
        assert(ta[i as int] == a@[i as int]@);
        if contains_text(b, a[i].as_str()) {
            let ghost before = text::texts(out@);
            out.push(a[i].clone());
            assert(text::texts(out@) =~= before.push(a@[i as int]@));
        }
        i += 1;
    }
    out
}

fn add_keyword_pair(
    out: &mut Vec<GraphLink>,
    ids: &Vec<String>,
    terms: &Vec<Vec<String>>,
    i: usize,
    j: usize,
) -> (r: Result<(), String>)
    requires
        i < j < ids@.len(),
        terms@.len() == ids@.len(),
    ensures
        links::links_are(
            r,
            final(out)@,
            links::extended(
                links::link_models(old(out)@),
                keyword_link(text::texts(ids@), term_lists(terms@), i as int, j as int),
            ),
        ),
{
    let ghost start = links::link_models(out@);
    let ghost lists = term_lists(terms@);
    assert(start + links::no_links() =~= start);
    assert(lists[i as int] == text::texts(terms@[i as int]@));
    assert(lists[j as int] == text::texts(terms@[j as int]@));
    assert(text::texts(ids@)[i as int] == ids@[i as int]@);
    assert(text::texts(ids@)[j as int] == ids@[j as int]@);
    let shared = share_terms(&terms[i], &terms[j]);
    assert(text::texts(shared@).len() == shared@.len());
    if shared.len() == 0 {
        return Ok(());
    }
    let both = union_of(&terms[i], &terms[j]);
    assert(text::texts(both@).len() == both@.len());
    let term = WeightTerm::Share { shared: shared.len(), union: both.len() };
    let provenance = Provenance {
        record_ids: Vec::new(),
        spans: Vec::new(),
        terms: shared,
        reasons: Vec::new(),
    };
    proof {
        assert(text::texts(provenance.record_ids@) =~= Seq::empty());
        assert(links::span_models(provenance.spans@) =~= Seq::empty());
        assert(text::texts(provenance.reasons@) =~= Seq::empty());
    }
    add_edge(
        out,
        GraphEdgeType::KeywordCooccurrence,
        ids[i].as_str(),
        ids[j].as_str(),
        false,
        term,
        provenance,
    )
}

fn add_keyword_row(out: &mut Vec<GraphLink>, ids: &Vec<String>, terms: &Vec<Vec<String>>, i: usize) -> (r:
    Result<(), String>)
    requires
        i < ids@.len(),
        terms@.len() == ids@.len(),
    ensures
        links::links_are(
            r,
            final(out)@,
            links::extended(
                links::link_models(old(out)@),
                keyword_row(text::texts(ids@), term_lists(terms@), i as int),
            ),
        ),
{
    let ghost names = text::texts(ids@);
    let ghost lists = term_lists(terms@);
    let ghost start = links::link_models(out@);
    let ghost step = keyword_pairs(names, lists, i as int);
    let ghost total = ids@.len() - i - 1;
    proof {
        links::gather_shift(start, step, total);
    }
    let count = ids.len();
    let mut j: usize = i + 1;
    while j < count
        invariant
            i < j <= count,
            count == ids@.len(),
            names == text::texts(ids@),
            lists == term_lists(terms@),
            terms@.len() == ids@.len(),
            step == keyword_pairs(names, lists, i as int),
            start == links::link_models(old(out)@),
            total == ids@.len() - i - 1,
            links::gather(start, step, j - i - 1) == Ok::<Seq<LinkModel>, Seq<char>>(
                links::link_models(out@),
            ),
            links::gather(start, step, total) == links::extended(
                start,
                keyword_row(names, lists, i as int),
            ),
        decreases count - j,
    {
        assert(step(j - i - 1) == keyword_link(names, lists, i as int, j as int));
        if let Err(e) = add_keyword_pair(out, ids, terms, i, j) {
            proof {
                links::gather_stops(start, step, j - i, total);
            }
            return Err(e);
        }
        j += 1;
    }
    Ok(())
}

/// Links messages that share telling terms. `raw` holds the normalized terms of
/// every leaf.
pub fn add_keyword_edges(
    out: &mut Vec<GraphLink>,
    leaves: &Vec<Leaf>,
    raw: &Vec<Vec<String>>,
    limit: usize,
) -> (r: Result<(), String>)
    requires
        raw@.len() == leaves@.len(),
    ensures
        links::links_are(
            r,
            final(out)@,
            links::gather(
                links::link_models(old(out)@),
                keyword_rows(
                    message_ids(leaves@),
                    all_telling(message_terms(leaves@, raw@), limit),
                ),
                message_ids(leaves@).len() as int,
            ),
        ),
{
    let mut ids: Vec<String> = Vec::new();
    let mut docs: Vec<Vec<String>> = Vec::new();
    let ghost mut at: Seq<int> = Seq::empty();
    let mut i: usize = 0;
    while i < leaves.len()
        invariant
            i <= leaves@.len(),
            raw@.len() == leaves@.len(),
            at == message_places(leaves@, i as int),
            ids@.len() == at.len(),
            docs@.len() == at.len(),
            forall|k: int| 0 <= k < at.len() ==> 0 <= #[trigger] at[k] < i,
            forall|k: int| 0 <= k < at.len() ==> (#[trigger] ids@[k])@ == leaves@[at[k]].node_id@,
            forall|k: int|
                0 <= k < at.len() ==> text::texts((#[trigger] docs@[k])@) == document_terms(
                    text::texts(raw@[at[k]]@),
                ),
            forall|k: int|
                0 <= k < docs@.len() ==> text::strictly_sorted(
                    text::texts((#[trigger] docs@[k])@),
                ),
        decreases leaves.len() - i,
    {
        if leaves[i].granularity == RetrievalDocumentGranularity::Message {
            ids.push(leaves[i].node_id.clone());
            docs.push(list_terms(&raw[i]));
            proof {
                at = at.push(i as int);
            }
        }
        i += 1;
    }
    assert(text::texts(ids@) =~= message_ids(leaves@));
    assert(term_lists(docs@) =~= message_terms(leaves@, raw@));
    let counts = count_terms(&docs);
    let ghost lists = term_lists(docs@);
    let mut terms: Vec<Vec<String>> = Vec::new();
    let mut j: usize = 0;
    while j < docs.len()
        invariant
            j <= docs@.len(),
            terms@.len() == j,
            lists == term_lists(docs@),
            forall|t: Seq<char>|
                #[trigger] counted(counts@, t) == document_count(lists, t, docs@.len() as int),
            forall|k: int|
                0 <= k < j ==> text::texts((#[trigger] terms@[k])@) == all_telling(
                    lists,
                    limit,
                )[k],
        decreases docs.len() - j,
    {
        assert(lists[j as int] == text::texts(docs@[j as int]@));
        terms.push(keep_telling(&docs, &docs[j], &counts, limit));
        j += 1;
    }
    assert(term_lists(terms@) =~= all_telling(lists, limit));
    let ghost names = text::texts(ids@);
    let ghost telling = term_lists(terms@);
    let ghost start = links::link_models(out@);
    let ghost step = keyword_rows(names, telling);
    let mut k: usize = 0;
    while k < ids.len()
        invariant
            k <= ids@.len(),
            terms@.len() == ids@.len(),
            names == text::texts(ids@),
            telling == term_lists(terms@),
            names == message_ids(leaves@),
            telling == all_telling(message_terms(leaves@, raw@), limit),
            step == keyword_rows(names, telling),
            start == links::link_models(old(out)@),
            links::gather(start, step, k as int) == Ok::<Seq<LinkModel>, Seq<char>>(
                links::link_models(out@),
            ),
        decreases ids.len() - k,
    {
        assert(step(k as int) == keyword_row(names, telling, k as int));
        if let Err(e) = add_keyword_row(out, &ids, &terms, k) {
            proof {
                links::gather_stops(start, step, k + 1, names.len() as int);
            }
            return Err(e);
        }
        k += 1;
    }
    Ok(())
}

/// The leaf found for a range holds it, and no leaf that does is shorter, or as
/// short with a smaller name; none is found exactly where none holds the range.
pub proof fn found_leaves_are_shortest(
    v: Seq<Leaf>,
    event: Seq<char>,
    start: usize,
    end: usize,
    n: int,
)
    requires
        0 <= n <= v.len(),
    ensures
        match best_leaf(v, event, start, end, n) {
            Some(p) => {
                &&& 0 <= p < n
                &&& v[p].event_id@ == event && v[p].start <= start && end <= v[p].end
                &&& forall|q: int|
                    0 <= q < n && (#[trigger] v[q]).event_id@ == event && v[q].start <= start && end
                        <= v[q].end ==> v[p].end - v[p].start < v[q].end - v[q].start || (v[p].end
                        - v[p].start == v[q].end - v[q].start && !text::text_lt(
                        v[q].document_id@,
                        v[p].document_id@,
                    ))
            },
            None => forall|q: int|
                0 <= q < n ==> !((#[trigger] v[q]).event_id@ == event && v[q].start <= start && end
                    <= v[q].end),
        },
    decreases n,
{
    if n > 0 {
        found_leaves_are_shortest(v, event, start, end, n - 1);
        let l = v[n - 1];
        text::text_lt_irreflexive(l.document_id@);
        match best_leaf(v, event, start, end, n - 1) {
            Some(p) => {
                if covers(l, event, start, end) {
                    let own = v[p].document_id@;
                    text::text_lt_total(own, l.document_id@);
                    if text::text_lt(own, l.document_id@) && text::text_lt(l.document_id@, own) {
                        text::text_lt_asymmetric(own, l.document_id@);
                    }
                    assert forall|q: int|
                        0 <= q < n && (#[trigger] v[q]).event_id@ == event && v[q].start <= start
                            && end <= v[q].end && leaf_lt(l, v[p]) implies l.end - l.start
                        < v[q].end - v[q].start || (l.end - l.start == v[q].end - v[q].start
                        && !text::text_lt(v[q].document_id@, l.document_id@)) by {
                        if q < n - 1 {
                            let other = v[q].document_id@;
                            if text::text_lt(other, l.document_id@) && text::text_lt(
                                l.document_id@,
                                own,
                            ) {
                                text::text_lt_transitive(other, l.document_id@, own);
                            }
                        }
                    }
                }
            },
            None => {},
        }
    }
}

/// An entity is mentioned in a document.
pub open spec fn mentioned(m: Seq<MentionModel>, entity: Seq<char>, document: Seq<char>) -> bool {
    exists|k: int|
        0 <= k < m.len() && (#[trigger] m[k]).entity == entity && m[k].document == document
}

/// The documents that mention an entity.
pub open spec fn mentioning(m: Seq<MentionModel>, entity: Seq<char>) -> Set<Seq<char>> {
    Set::new(|d: Seq<char>| mentioned(m, entity, d))
}

proof fn documents_mention(m: Seq<MentionModel>, entity: Seq<char>, n: int, d: Seq<char>)
    requires
        0 <= n <= m.len(),
    ensures
        documents_of(m, entity, n).contains(d) <==> exists|k: int|
            0 <= k < n && (#[trigger] m[k]).entity == entity && m[k].document == d,
    decreases n,
{
    if n > 0 {
        documents_mention(m, entity, n - 1, d);
        let before = documents_of(m, entity, n - 1);
        let now = documents_of(m, entity, n);
        if now.contains(d) {
            let i = choose|i: int| 0 <= i < now.len() && now[i] == d;
            if i < before.len() {
                assert(before[i] == d);
            } else {
                assert(m[n - 1].document == d);
            }
        }
        if before.contains(d) {
            let i = choose|i: int| 0 <= i < before.len() && before[i] == d;
            assert(now[i] == d);
        }
        if m[n - 1].entity == entity && m[n - 1].document == d {
            assert(now[before.len() as int] == d);
        }
    }
}

proof fn entity_documents_mention(m: Seq<MentionModel>, entity: Seq<char>)
    ensures
        ({
            let docs = entity_documents(m, entity);
            &&& text::strictly_sorted(docs)
            &&& docs.no_duplicates()
            &&& forall|d: Seq<char>| #[trigger] docs.contains(d) <==> mentioned(m, entity, d)
            &&& docs.len() == mentioning(m, entity).len()
        }),
{
    let n = m.len() as int;
    let raw = documents_of(m, entity, n);
    let docs = entity_documents(m, entity);
    text::distinct_sorted_is_a_set(raw);
    assert forall|d: Seq<char>| #[trigger] docs.contains(d) <==> mentioned(m, entity, d) by {
        documents_mention(m, entity, n, d);
        text::distinct_sorted_keeps_elements(raw, d);
    }
    assert(raw.to_set() =~= mentioning(m, entity)) by {
        assert forall|d: Seq<char>| raw.to_set().contains(d) <==> mentioning(m, entity).contains(
            d,
        ) by {
            documents_mention(m, entity, n, d);
        }
    }
}

/// A link between two documents for the entity that both mention.
pub open spec fn shares_entity(
    m: Seq<MentionModel>,
    limit: usize,
    x: LinkModel,
    entity: Seq<char>,
) -> bool {
    &&& x.kind == GraphEdgeType::SharedEntity
    &&& x.provenance.terms == seq![entity]
    &&& text::text_lt(x.source, x.target)
    &&& mentioned(m, entity, x.source)
    &&& mentioned(m, entity, x.target)
    &&& mentioning(m, entity).len() <= limit
}

proof fn shared_steps_join(m: Seq<MentionModel>, limit: usize, entity: Seq<char>)
    requires
        shared_step(m, entity, limit) is Ok,
    ensures
        forall|x: LinkModel| #[trigger]
            shared_step(m, entity, limit)->Ok_0.contains(x) ==> shares_entity(m, limit, x, entity),
        forall|c: Seq<char>, d: Seq<char>|
            #![trigger mentioned(m, entity, c), mentioned(m, entity, d)]
            mentioned(m, entity, c) && mentioned(m, entity, d) && text::text_lt(c, d)
                && mentioning(m, entity).len() <= limit ==> exists|x: LinkModel| #[trigger]
                shared_step(m, entity, limit)->Ok_0.contains(x) && x.source == c && x.target == d,
{
    let docs = entity_documents(m, entity);
    let all = shared_step(m, entity, limit)->Ok_0;
    let rows = shared_rows(m, entity);
    entity_documents_mention(m, entity);
    if 2 <= docs.len() <= limit {
        links::gather_collects(links::no_links(), rows, docs.len() as int);
        assert forall|x: LinkModel| #[trigger] all.contains(x) implies shares_entity(
            m,
            limit,
            x,
            entity,
        ) by {
            let i = choose|i: int| 0 <= i < docs.len() && (#[trigger] rows(i))->Ok_0.contains(x);
            assert(rows(i) is Ok);
            assert(rows(i) == shared_row(m, entity, i));
            let pairs = shared_pairs(m, entity, i);
            links::gather_collects(links::no_links(), pairs, docs.len() - i - 1);
            let k = choose|k: int|
                0 <= k < docs.len() - i - 1 && (#[trigger] pairs(k))->Ok_0.contains(x);
            let j = i + 1 + k;
            assert(pairs(k) == shared_link(m, entity, i, j));
            assert(text::text_lt(docs[i], docs[j]));
            assert(docs.contains(docs[i]) && docs.contains(docs[j]));
        }
        assert forall|c: Seq<char>, d: Seq<char>|
            #![trigger mentioned(m, entity, c), mentioned(m, entity, d)]
            mentioned(m, entity, c) && mentioned(m, entity, d) && text::text_lt(c, d)
                && mentioning(m, entity).len() <= limit implies exists|x: LinkModel| #[trigger]
            all.contains(x) && x.source == c && x.target == d by {
            assert(docs.contains(c) && docs.contains(d));
            let i = choose|i: int| 0 <= i < docs.len() && docs[i] == c;
            let j = choose|j: int| 0 <= j < docs.len() && docs[j] == d;
            if j < i {
                assert(text::text_lt(docs[j], docs[i]));
                text::text_lt_asymmetric(c, d);
            } else if i == j {
                text::text_lt_irreflexive(c);
            }
            assert(rows(i) is Ok);
            assert(rows(i) == shared_row(m, entity, i));
            let pairs = shared_pairs(m, entity, i);
            links::gather_collects(links::no_links(), pairs, docs.len() - i - 1);
            let k = j - i - 1;
            assert(pairs(k) is Ok);
            assert(pairs(k) == shared_link(m, entity, i, j));
            let x = pairs(k)->Ok_0[0];
            assert(pairs(k)->Ok_0.contains(x));
            assert(rows(i)->Ok_0.contains(x));
            assert(all.contains(x));
        }
    } else {
        assert forall|c: Seq<char>, d: Seq<char>|
            #![trigger mentioned(m, entity, c), mentioned(m, entity, d)]
            mentioned(m, entity, c) && mentioned(m, entity, d) && text::text_lt(c, d)
                && mentioning(m, entity).len() <= limit implies exists|x: LinkModel| #[trigger]
            all.contains(x) && x.source == c && x.target == d by {
            assert(docs.contains(c) && docs.contains(d));
            let i = choose|i: int| 0 <= i < docs.len() && docs[i] == c;
            let j = choose|j: int| 0 <= j < docs.len() && docs[j] == d;
            if i == j {
                text::text_lt_irreflexive(c);
            }
        }
    }
}

/// Two documents are linked for an entity exactly where both mention it and no
/// more documents do than the limit allows.
pub proof fn links_join_documents_of_one_entity(m: Seq<MentionModel>, limit: usize)
    ensures
        links::gather(
            links::no_links(),
            shared_steps(m, limit),
            entity_names(m).len() as int,
        ) matches Ok(out) ==> {
            &&& forall|x: LinkModel| #[trigger]
                out.contains(x) ==> exists|entity: Seq<char>| #[trigger]
                    shares_entity(m, limit, x, entity)
            &&& forall|entity: Seq<char>, c: Seq<char>, d: Seq<char>|
                #![trigger mentioned(m, entity, c), mentioned(m, entity, d)]
                mentioned(m, entity, c) && mentioned(m, entity, d) && text::text_lt(c, d)
                    && mentioning(m, entity).len() <= limit ==> exists|x: LinkModel| #[trigger]
                    out.contains(x) && shares_entity(m, limit, x, entity) && x.source == c
                        && x.target == d
        },
{
    let names = entity_names(m);
    let steps = shared_steps(m, limit);
    let made = links::gather(links::no_links(), steps, names.len() as int);
    if made is Ok {
        let out = made->Ok_0;
        links::gather_collects(links::no_links(), steps, names.len() as int);
        assert forall|x: LinkModel| #[trigger] out.contains(x) implies exists|entity: Seq<char>|
            #[trigger]
            shares_entity(m, limit, x, entity) by {
            let i = choose|i: int| 0 <= i < names.len() && (#[trigger] steps(i))->Ok_0.contains(x);
            assert(steps(i) is Ok);
            assert(steps(i) == shared_step(m, names[i], limit));
            shared_steps_join(m, limit, names[i]);
        }
        assert forall|entity: Seq<char>, c: Seq<char>, d: Seq<char>|
            #![trigger mentioned(m, entity, c), mentioned(m, entity, d)]
            mentioned(m, entity, c) && mentioned(m, entity, d) && text::text_lt(c, d)
                && mentioning(m, entity).len() <= limit implies exists|x: LinkModel| #[trigger]
            out.contains(x) && shares_entity(m, limit, x, entity) && x.source == c && x.target
                == d by {
            let raw = Seq::new(m.len(), |i: int| m[i].entity);
            let k = choose|k: int|
                0 <= k < m.len() && (#[trigger] m[k]).entity == entity && m[k].document == c;
            assert(raw[k] == entity);
            text::distinct_sorted_keeps_elements(raw, entity);
            let i = choose|i: int| 0 <= i < names.len() && names[i] == entity;
            assert(steps(i) is Ok);
            assert(steps(i) == shared_step(m, entity, limit));
            shared_steps_join(m, limit, entity);
            let x = choose|x: LinkModel| #[trigger]
                shared_step(m, entity, limit)->Ok_0.contains(x) && x.source == c && x.target == d;
            assert(out.contains(x));
        }
    }
}

/// The documents in which a term stands.
pub open spec fn documents_with(docs: Seq<Seq<Seq<char>>>, term: Seq<char>) -> Set<int> {
    Set::new(|k: int| 0 <= k < docs.len() && docs[k].contains(term))
}

proof fn documents_are_counted(docs: Seq<Seq<Seq<char>>>, term: Seq<char>, n: int)
    requires
        0 <= n <= docs.len(),
    ensures
        ({
            let s = Set::new(|k: int| 0 <= k < n && docs[k].contains(term));
            s.finite() && s.len() == document_count(docs, term, n)
        }),
    decreases n,
{
    let s = Set::new(|k: int| 0 <= k < n && docs[k].contains(term));
    if n <= 0 {
        assert(s =~= Set::empty());
    } else {
        documents_are_counted(docs, term, n - 1);
        let before = Set::new(|k: int| 0 <= k < n - 1 && docs[k].contains(term));
        if docs[n - 1].contains(term) {
            assert(s =~= before.insert(n - 1));
        } else {
            assert(s =~= before);
        }
    }
}

proof fn telling_terms_tell(
    docs: Seq<Seq<Seq<char>>>,
    own: Seq<Seq<char>>,
    limit: usize,
    n: int,
    t: Seq<char>,
)
    requires
        0 <= n <= own.len(),
    ensures
        telling_terms(docs, own, limit, n).contains(t) <==> own.take(n).contains(t) && 2
            <= documents_with(docs, t).len() <= limit,
    decreases n,
{
    documents_are_counted(docs, t, docs.len() as int);
    assert(documents_with(docs, t) =~= Set::new(
        |k: int| 0 <= k < docs.len() && docs[k].contains(t),
    ));
    let now = telling_terms(docs, own, limit, n);
    if n > 0 {
        telling_terms_tell(docs, own, limit, n - 1, t);
        let before = telling_terms(docs, own, limit, n - 1);
        let part = own.take(n);
        let short = own.take(n - 1);
        if now.contains(t) {
            let i = choose|i: int| 0 <= i < now.len() && now[i] == t;
            if i < before.len() {
                assert(before[i] == t);
            } else {
                assert(part[n - 1] == t);
            }
        }
        if before.contains(t) {
            let i = choose|i: int| 0 <= i < before.len() && before[i] == t;
            assert(now[i] == t);
        }
        if short.contains(t) {
            let i = choose|i: int| 0 <= i < short.len() && short[i] == t;
            assert(part[i] == t);
        }
        if part.contains(t) {
            let i = choose|i: int| 0 <= i < part.len() && part[i] == t;
            if i < n - 1 {
                assert(short[i] == t);
            } else if telling(docs, t, limit) {
                assert(now[before.len() as int] == t);
            }
        }
    }
}

/// A term of a document tells something exactly where it stands in two documents
/// at least and in no more than the limit allows.
pub proof fn telling_terms_are_shared_by_few(
    docs: Seq<Seq<Seq<char>>>,
    limit: usize,
    i: int,
    t: Seq<char>,
)
    requires
        0 <= i < docs.len(),
    ensures
        all_telling(docs, limit)[i].contains(t) <==> docs[i].contains(t) && 2 <= documents_with(
            docs,
            t,
        ).len() <= limit,
{
    telling_terms_tell(docs, docs[i], limit, docs[i].len() as int, t);
    assert(docs[i].take(docs[i].len() as int) =~= docs[i]);
}

proof fn long_terms_are_long(v: Seq<Seq<char>>, n: int, t: Seq<char>)
    requires
        0 <= n <= v.len(),
    ensures
        long_terms(v, n).contains(t) <==> t.len() >= 2 && exists|k: int|
            0 <= k < n && #[trigger] v[k] == t,
    decreases n,
{
    if n > 0 {
        long_terms_are_long(v, n - 1, t);
        let before = long_terms(v, n - 1);
        let now = long_terms(v, n);
        if now.contains(t) {
            let i = choose|i: int| 0 <= i < now.len() && now[i] == t;
            if i < before.len() {
                assert(before[i] == t);
            } else {
                assert(v[n - 1] == t);
            }
        }
        if before.contains(t) {
            let i = choose|i: int| 0 <= i < before.len() && before[i] == t;
            assert(now[i] == t);
        }
        if v[n - 1] == t && t.len() >= 2 {
            assert(now[before.len() as int] == t);
        }
    }
}

/// The terms of a document are those of two characters or more, each once.
pub proof fn document_terms_are_long_enough(v: Seq<Seq<char>>, t: Seq<char>)
    ensures
        document_terms(v).contains(t) <==> v.contains(t) && t.len() >= 2,
        document_terms(v).no_duplicates(),
{
    long_terms_are_long(v, v.len() as int, t);
    text::distinct_sorted_keeps_elements(long_terms(v, v.len() as int), t);
    text::distinct_sorted_is_a_set(long_terms(v, v.len() as int));
}

proof fn common_terms_are_a_meeting(a: Seq<Seq<char>>, b: Seq<Seq<char>>, n: int)
    requires
        a.no_duplicates(),
        0 <= n <= a.len(),
    ensures
        a.take(n).to_set().finite(),
        common_terms(a, b, n).no_duplicates(),
        common_terms(a, b, n).to_set() == a.take(n).to_set().intersect(b.to_set()),
    decreases n,
{
    let now = common_terms(a, b, n);
    let part = a.take(n);
    vstd::seq_lib::seq_to_set_is_finite(part);
    let met = part.to_set().intersect(b.to_set());
    if n <= 0 {
        assert(now.to_set() =~= met);
    } else {
        common_terms_are_a_meeting(a, b, n - 1);
        let before = common_terms(a, b, n - 1);
        let short = a.take(n - 1);
        let x = a[n - 1];
        assert(!short.contains(x));
        assert(!before.contains(x)) by {
            assert(before.to_set().contains(x) ==> short.to_set().contains(x));
        }
        assert forall|y: Seq<char>| part.contains(y) <==> short.contains(y) || y == x by {
            if part.contains(y) {
                let i = choose|i: int| 0 <= i < part.len() && part[i] == y;
                if i < n - 1 {
                    assert(short[i] == y);
                }
            }
            if short.contains(y) {
                let i = choose|i: int| 0 <= i < short.len() && short[i] == y;
                assert(part[i] == y);
            }
            assert(part[n - 1] == x);
        }
        assert forall|y: Seq<char>| now.to_set().contains(y) <==> met.contains(y) by {
            assert(before.to_set().contains(y) <==> short.contains(y) && b.contains(y));
            if now.contains(y) {
                let i = choose|i: int| 0 <= i < now.len() && now[i] == y;
                if i < before.len() {
                    assert(before[i] == y);
                    assert(before.contains(y));
                }
            }
            if before.contains(y) {
                let i = choose|i: int| 0 <= i < before.len() && before[i] == y;
                assert(now[i] == y);
            }
            if y == x && b.contains(x) {
                assert(now[before.len() as int] == x);
            }
        }
        assert(now.to_set() =~= met);
    }
}

/// Two documents are linked by their words exactly where they share a telling
/// term; the weight is the number of those they share over the number of those
/// that either has.
pub proof fn keyword_links_weigh_shared_terms(
    ids: Seq<Seq<char>>,
    terms: Seq<Seq<Seq<char>>>,
    i: int,
    j: int,
)
    requires
        0 <= i < ids.len(),
        0 <= j < ids.len(),
        terms.len() == ids.len(),
        terms[i].no_duplicates(),
        ids[i] != ids[j],
        terms[i].len() + terms[j].len() <= usize::MAX,
    ensures
        ({
            let a = terms[i].to_set();
            let b = terms[j].to_set();
            let made = keyword_link(ids, terms, i, j);
            &&& made is Ok
            &&& a.disjoint(b) ==> made->Ok_0.len() == 0
            &&& !a.disjoint(b) ==> {
                let x = made->Ok_0[0];
                &&& made->Ok_0.len() == 1
                &&& x.kind == GraphEdgeType::KeywordCooccurrence
                &&& x.term matches WeightTerm::Share { shared, union } && shared == a.intersect(
                    b,
                ).len() && union == a.union(b).len()
                &&& x.provenance.terms.to_set() == a.intersect(b)
                &&& text::text_lt(x.source, x.target)
                &&& (x.source == ids[i] && x.target == ids[j]) || (x.source == ids[j] && x.target
                    == ids[i])
            }
        }),
{
    let a = terms[i].to_set();
    let b = terms[j].to_set();
    let n = terms[i].len() as int;
    let shared = common_terms(terms[i], terms[j], n);
    common_terms_are_a_meeting(terms[i], terms[j], n);
    assert(terms[i].take(n) =~= terms[i]);
    shared.unique_seq_to_set();
    vstd::seq_lib::seq_to_set_is_finite(terms[j]);
    text::distinct_sorted_is_a_set(terms[i] + terms[j]);
    assert((terms[i] + terms[j]).to_set() =~= a.union(b)) by {
        assert forall|y: Seq<char>|
            (terms[i] + terms[j]).contains(y) <==> terms[i].contains(y) || terms[j].contains(y) by {
            let both = terms[i] + terms[j];
            if both.contains(y) {
                let k = choose|k: int| 0 <= k < both.len() && both[k] == y;
                if k < n {
                    assert(terms[i][k] == y);
                } else {
                    assert(terms[j][k - n] == y);
                }
            }
            if terms[i].contains(y) {
                let k = choose|k: int| 0 <= k < n && terms[i][k] == y;
                assert(both[k] == y);
            }
            if terms[j].contains(y) {
                let k = choose|k: int| 0 <= k < terms[j].len() && terms[j][k] == y;
                assert(both[n + k] == y);
            }
        }
    }
    vstd::set_lib::lemma_len_union(a, b);
    terms[i].unique_seq_to_set();
    vstd::seq_lib::seq_to_set_is_finite(terms[i]);
    terms[j].lemma_cardinality_of_set();
    text::text_lt_total(ids[i], ids[j]);
    if shared.len() == 0 {
        assert(a.disjoint(b)) by {
            assert forall|y: Seq<char>| a.contains(y) implies !b.contains(y) by {
                if b.contains(y) {
                    assert(shared.to_set().contains(y));
                }
            }
        }
    } else {
        assert(shared.to_set().contains(shared[0]));
        assert(a.contains(shared[0]) && b.contains(shared[0]));
        vstd::set_lib::lemma_len_union_ind(a, b);
        assert(a.union(b).contains(shared[0]));
        assert(a.len() == terms[i].len());
        assert(terms[i].len() > 0) by {
            assert(terms[i].contains(shared[0]));
        }
        vstd::set_lib::lemma_len_intersect(a, b);
        let made = keyword_link(ids, terms, i, j);
        assert(0 < shared.len() <= terms[i].len());
        assert(0 < a.union(b).len() <= usize::MAX);
        assert(made is Ok && made->Ok_0.len() == 1);
        assert(made->Ok_0[0].provenance.terms == shared);
        assert(!a.disjoint(b));
    }
}

} // verus!
