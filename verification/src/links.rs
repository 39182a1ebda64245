//! The links of the memory graph: what connects two nodes, and on what grounds.
//! Every rule reads its rows in order and stops at the first that is wrong.

use vstd::prelude::*;
use vstd::string::*;

use crate::graph::{
    self, find_event, parse_role, GraphEdgeType, GraphEvent, GraphNode, GraphNodeKind, Leaf,
    NodeModel,
};
use crate::model::{self, EventRole, RetrievalDocumentGranularity, TurnStatus};
use crate::order::{self, stable_order, KeyPart};
use crate::text::{self, is_blank, text_before, text_eq};

verus! {

/// A range of an event that a link rests on.
#[derive(Clone, Debug, PartialEq, Eq)]
pub struct RawProvenance {
    pub session_id: String,
    pub event_id: String,
    pub start_char: usize,
    pub end_char: usize,
    pub content_sha256: String,
    pub role: EventRole,
}

/// What a link rests on.
#[derive(Clone, Debug, PartialEq, Eq)]
pub struct Provenance {
    pub record_ids: Vec<String>,
    pub spans: Vec<RawProvenance>,
    pub terms: Vec<String>,
    pub reasons: Vec<String>,
}

/// A part of the weight of an edge: one, a share of words, or the bits of a
/// similarity.
#[derive(Clone, Copy, Debug, PartialEq, Eq, Structural)]
pub enum WeightTerm {
    One,
    Share { shared: usize, union: usize },
    Bits(u64),
}

/// A connection of two nodes.
#[derive(Debug, PartialEq, Eq)]
pub struct GraphLink {
    pub kind: GraphEdgeType,
    pub source: String,
    pub target: String,
    pub term: WeightTerm,
    pub provenance: Provenance,
}

pub struct SpanModel {
    pub session_id: Seq<char>,
    pub event_id: Seq<char>,
    pub start: usize,
    pub end: usize,
    pub hash: Seq<char>,
    pub role: EventRole,
}

pub struct ProvenanceModel {
    pub records: Seq<Seq<char>>,
    pub spans: Seq<SpanModel>,
    pub terms: Seq<Seq<char>>,
    pub reasons: Seq<Seq<char>>,
}

pub struct LinkModel {
    pub kind: GraphEdgeType,
    pub source: Seq<char>,
    pub target: Seq<char>,
    pub term: WeightTerm,
    pub provenance: ProvenanceModel,
}

pub open spec fn span_model(s: RawProvenance) -> SpanModel {
    SpanModel {
        session_id: s.session_id@,
        event_id: s.event_id@,
        start: s.start_char,
        end: s.end_char,
        hash: s.content_sha256@,
        role: s.role,
    }
}

pub open spec fn span_models(v: Seq<RawProvenance>) -> Seq<SpanModel> {
    Seq::new(v.len(), |i: int| span_model(v[i]))
}

pub open spec fn provenance_model(p: Provenance) -> ProvenanceModel {
    ProvenanceModel {
        records: text::texts(p.record_ids@),
        spans: span_models(p.spans@),
        terms: text::texts(p.terms@),
        reasons: text::texts(p.reasons@),
    }
}

pub open spec fn link_model(l: GraphLink) -> LinkModel {
    LinkModel {
        kind: l.kind,
        source: l.source@,
        target: l.target@,
        term: l.term,
        provenance: provenance_model(l.provenance),
    }
}

pub open spec fn link_models(v: Seq<GraphLink>) -> Seq<LinkModel> {
    Seq::new(v.len(), |i: int| link_model(v[i]))
}

/// A part of a weight that is a positive number.
pub open spec fn valid_term(t: WeightTerm) -> bool {
    match t {
        WeightTerm::One => true,
        WeightTerm::Share { shared, union } => shared > 0 && union > 0,
        WeightTerm::Bits(bits) => 0 < bits < 0x7ff0_0000_0000_0000,
    }
}

/// One link, or what is wrong with it: its ends must differ. Those of a link
/// without direction are put in order.
pub open spec fn linked(
    kind: GraphEdgeType,
    source: Seq<char>,
    target: Seq<char>,
    directed: bool,
    term: WeightTerm,
    provenance: ProvenanceModel,
) -> Result<Seq<LinkModel>, Seq<char>> {
    if source == target || !valid_term(term) {
        Err("图边权重或端点无效"@)
    } else if directed || text::text_lt(source, target) {
        Ok(seq![LinkModel { kind, source, target, term, provenance }])
    } else {
        Ok(seq![LinkModel { kind, source: target, target: source, term, provenance }])
    }
}

/// Links with more behind them, unless something is wrong.
pub open spec fn extended(
    start: Seq<LinkModel>,
    more: Result<Seq<LinkModel>, Seq<char>>,
) -> Result<Seq<LinkModel>, Seq<char>> {
    match more {
        Ok(links) => Ok(start + links),
        Err(e) => Err(e),
    }
}

/// Links with those of the first `n` steps behind them, or the first thing that
/// is wrong.
pub open spec fn gather(
    start: Seq<LinkModel>,
    step: spec_fn(int) -> Result<Seq<LinkModel>, Seq<char>>,
    n: int,
) -> Result<Seq<LinkModel>, Seq<char>>
    decreases n,
{
    if n <= 0 {
        Ok(start)
    } else {
        match gather(start, step, n - 1) {
            Ok(links) => extended(links, step(n - 1)),
            Err(e) => Err(e),
        }
    }
}

pub open spec fn no_links() -> Seq<LinkModel> {
    Seq::empty()
}

pub proof fn gather_stops(
    start: Seq<LinkModel>,
    step: spec_fn(int) -> Result<Seq<LinkModel>, Seq<char>>,
    k: int,
    n: int,
)
    requires
        k <= n,
        gather(start, step, k) is Err,
    ensures
        gather(start, step, n) == gather(start, step, k),
    decreases n - k,
{
    if k < n {
        gather_stops(start, step, k, n - 1);
    }
}

pub proof fn gather_shift(
    start: Seq<LinkModel>,
    step: spec_fn(int) -> Result<Seq<LinkModel>, Seq<char>>,
    n: int,
)
    ensures
        gather(start, step, n) == extended(start, gather(no_links(), step, n)),
    decreases n,
{
    if n <= 0 {
        assert(start + no_links() =~= start);
    } else {
        gather_shift(start, step, n - 1);
        match gather(no_links(), step, n - 1) {
            Ok(links) => match step(n - 1) {
                Ok(more) => {
                    assert(start + links + more =~= start + (links + more));
                },
                Err(_) => {},
            },
            Err(_) => {},
        }
    }
}

/// What came of adding links.
pub open spec fn links_are(
    r: Result<(), String>,
    links: Seq<GraphLink>,
    want: Result<Seq<LinkModel>, Seq<char>>,
) -> bool {
    match r {
        Ok(()) => want == Ok::<Seq<LinkModel>, Seq<char>>(link_models(links)),
        Err(e) => want == Err::<Seq<LinkModel>, Seq<char>>(e@),
    }
}

fn term_is_valid(t: WeightTerm) -> (r: bool)
    ensures
        r == valid_term(t),
{
    match t {
        WeightTerm::One => true,
        WeightTerm::Share { shared, union } => shared > 0 && union > 0,
        WeightTerm::Bits(bits) => 0 < bits && bits < 0x7ff0_0000_0000_0000,
    }
}

/// Adds a link.
pub fn add_edge(
    links: &mut Vec<GraphLink>,
    kind: GraphEdgeType,
    source: &str,
    target: &str,
    directed: bool,
    term: WeightTerm,
    provenance: Provenance,
) -> (r: Result<(), String>)
    ensures
        links_are(
            r,
            final(links)@,
            extended(
                link_models(old(links)@),
                linked(kind, source@, target@, directed, term, provenance_model(provenance)),
            ),
        ),
{
    let ghost before = link_models(links@);
    if text_eq(source, target) || !term_is_valid(term) {
        return Err("图边权重或端点无效".to_owned());
    }
    let link = if directed || text_before(source, target) {
        GraphLink {
            kind,
            source: source.to_owned(),
            target: target.to_owned(),
            term,
            provenance,
        }
    } else {
        GraphLink {
            kind,
            source: target.to_owned(),
            target: source.to_owned(),
            term,
            provenance,
        }
    };
    links.push(link);
    assert(link_models(links@) =~= before + seq![link_model(link)]);
    Ok(())
}

/// The span of a leaf.
pub open spec fn leaf_span(l: Leaf, start: usize, end: usize, hash: Seq<char>) -> SpanModel {
    SpanModel {
        session_id: l.session_id@,
        event_id: l.event_id@,
        start,
        end,
        hash,
        role: l.role,
    }
}

pub fn raw_span(l: &Leaf, start: usize, end: usize, hash: &str) -> (r: RawProvenance)
    ensures
        span_model(r) == leaf_span(*l, start, end, hash@),
{
    RawProvenance {
        session_id: l.session_id.clone(),
        event_id: l.event_id.clone(),
        start_char: start,
        end_char: end,
        content_sha256: hash.to_owned(),
        role: l.role,
    }
}

/// The last message leaf of an event among the first `n` leaves.
pub open spec fn message_leaf(v: Seq<Leaf>, event: Seq<char>, n: int) -> Option<int>
    decreases n,
{
    if n <= 0 {
        None
    } else if v[n - 1].granularity == RetrievalDocumentGranularity::Message && v[n - 1].event_id@
        == event {
        Some(n - 1)
    } else {
        message_leaf(v, event, n - 1)
    }
}

pub fn find_message(v: &Vec<Leaf>, event: &str) -> (r: Option<usize>)
    ensures
        match r {
            Some(p) => p < v@.len() && message_leaf(v@, event@, v@.len() as int) == Some(p as int),
            None => message_leaf(v@, event@, v@.len() as int) is None,
        },
{
    let mut n: usize = v.len();
    while n > 0
        invariant
            n <= v@.len(),
            message_leaf(v@, event@, v@.len() as int) == message_leaf(v@, event@, n as int),
        decreases n,
    {
        if v[n - 1].granularity == RetrievalDocumentGranularity::Message && text_eq(
            v[n - 1].event_id.as_str(),
            event,
        ) {
            return Some(n - 1);
        }
        n -= 1;
    }
    None
}

/// The id of the last node of a kind and source among the first `n`.
pub open spec fn node_for(v: Seq<NodeModel>, kind: GraphNodeKind, source: Seq<char>, n: int) -> Option<
    Seq<char>,
>
    decreases n,
{
    if n <= 0 {
        None
    } else if v[n - 1].kind == kind && v[n - 1].source_id == source {
        Some(v[n - 1].id)
    } else {
        node_for(v, kind, source, n - 1)
    }
}

pub open spec fn node_of(v: Seq<NodeModel>, kind: GraphNodeKind, source: Seq<char>) -> Option<
    Seq<char>,
> {
    node_for(v, kind, source, v.len() as int)
}

pub fn find_node<'a>(v: &'a Vec<GraphNode>, kind: GraphNodeKind, source: &str) -> (r: Option<&'a str>)
    ensures
        model::opt_str(r) == node_of(graph::node_models(v@), kind, source@),
{
    let ghost all = graph::node_models(v@);
    let mut n: usize = v.len();
    while n > 0
        invariant
            n <= v@.len(),
            all == graph::node_models(v@),
            node_of(all, kind, source@) == node_for(all, kind, source@, n as int),
        decreases n,
    {
        assert(all[n - 1] == graph::node_model(v@[n - 1]));
        if v[n - 1].kind == kind && text_eq(v[n - 1].source_id.as_str(), source) {
            return Some(v[n - 1].id.as_str());
        }
        n -= 1;
    }
    None
}

/// An event that says something, and not by the system.
pub open spec fn speaks(e: GraphEvent) -> bool {
    e.role != EventRole::System && !text::blank(e.content@)
}

fn event_speaks(e: &GraphEvent) -> (r: bool)
    ensures
        r == speaks(*e),
{
    !(e.role == EventRole::System) && !is_blank(e.content.as_str())
}

/// The speaking events among the first `n`.
pub open spec fn speaking(v: Seq<GraphEvent>, n: int) -> Seq<int>
    decreases n,
{
    if n <= 0 {
        Seq::empty()
    } else if speaks(v[n - 1]) {
        speaking(v, n - 1).push(n - 1)
    } else {
        speaking(v, n - 1)
    }
}

pub open spec fn time_keys(v: Seq<GraphEvent>, at: Seq<int>) -> Seq<Seq<order::PartModel>> {
    Seq::new(
        at.len(),
        |i: int|
            seq![
                order::PartModel::Text(v[at[i]].session_id@),
                order::PartModel::Up(v[at[i]].sequence as u64),
            ],
    )
}

/// The speaking events by session, and in each by sequence.
pub open spec fn timeline(v: Seq<GraphEvent>) -> Seq<int> {
    let at = speaking(v, v.len() as int);
    let by_time = order::ordered(time_keys(v, at), at.len() as int);
    Seq::new(at.len(), |i: int| at[by_time[i]])
}

/// What a link of two messages rests on.
pub open spec fn message_pair(a: Seq<char>, b: Seq<char>, left: Leaf, right: Leaf) -> ProvenanceModel {
    ProvenanceModel {
        records: seq![a, b],
        spans: seq![
            leaf_span(left, 0, left.end, left.hash@),
            leaf_span(right, 0, right.end, right.hash@),
        ],
        terms: Seq::empty(),
        reasons: Seq::empty(),
    }
}

fn pair_provenance(a: &str, b: &str, left: &Leaf, right: &Leaf) -> (r: Provenance)
    ensures
        provenance_model(r) == message_pair(a@, b@, *left, *right),
{
    let mut record_ids: Vec<String> = Vec::new();
    record_ids.push(a.to_owned());
    record_ids.push(b.to_owned());
    let mut spans: Vec<RawProvenance> = Vec::new();
    spans.push(raw_span(left, 0, left.end, left.hash.as_str()));
    spans.push(raw_span(right, 0, right.end, right.hash.as_str()));
    let r = Provenance { record_ids, spans, terms: Vec::new(), reasons: Vec::new() };
    proof {
        let want = message_pair(a@, b@, *left, *right);
        assert(text::texts(r.record_ids@) =~= want.records);
        assert(span_models(r.spans@) =~= want.spans);
        assert(text::texts(r.terms@) =~= want.terms);
        assert(text::texts(r.reasons@) =~= want.reasons);
    }
    r
}

/// The link of an event with the one before it in its session.
pub open spec fn adjacent_step(events: Seq<GraphEvent>, leaves: Seq<Leaf>, line: Seq<int>, i: int) -> Result<
    Seq<LinkModel>,
    Seq<char>,
> {
    if i == 0 {
        Ok(no_links())
    } else {
        let a = events[line[i - 1]];
        let b = events[line[i]];
        let n = leaves.len() as int;
        if a.session_id@ != b.session_id@ {
            Ok(no_links())
        } else {
            match (message_leaf(leaves, a.event_id@, n), message_leaf(leaves, b.event_id@, n)) {
                (Some(p), Some(q)) => linked(
                    GraphEdgeType::Adjacent,
                    leaves[p].node_id@,
                    leaves[q].node_id@,
                    false,
                    WeightTerm::One,
                    message_pair(a.event_id@, b.event_id@, leaves[p], leaves[q]),
                ),
                _ => Err("相邻事件缺少 message doc"@),
            }
        }
    }
}

pub open spec fn adjacent_steps(events: Seq<GraphEvent>, leaves: Seq<Leaf>, line: Seq<int>) -> spec_fn(
    int,
) -> Result<Seq<LinkModel>, Seq<char>> {
    |i: int| adjacent_step(events, leaves, line, i)
}

/// Links with those of all neighbours in time.
pub open spec fn with_adjacent(
    start: Seq<LinkModel>,
    events: Seq<GraphEvent>,
    leaves: Seq<Leaf>,
) -> Result<Seq<LinkModel>, Seq<char>> {
    let line = timeline(events);
    gather(start, adjacent_steps(events, leaves, line), line.len() as int)
}

fn order_events(v: &Vec<GraphEvent>) -> (r: Vec<usize>)
    ensures
        order::indices(r@) == timeline(v@),
        forall|i: int| 0 <= i < r@.len() ==> #[trigger] r@[i] < v@.len(),
{
    let mut at: Vec<usize> = Vec::new();
    let mut i: usize = 0;
    assert(order::indices(at@) =~= Seq::empty());
    while i < v.len()
        invariant
            i <= v@.len(),
            order::indices(at@) == speaking(v@, i as int),
            forall|k: int| 0 <= k < at@.len() ==> #[trigger] at@[k] < i,
        decreases v.len() - i,
    {
        if event_speaks(&v[i]) {
            let ghost before = order::indices(at@);
            at.push(i);
            assert(order::indices(at@) =~= before.push(i as int));
        }
        i += 1;
    }
    let ghost places = order::indices(at@);
    let mut keys: Vec<Vec<KeyPart>> = Vec::new();
    let mut j: usize = 0;
    while j < at.len()
        invariant
            j <= at@.len(),
            keys@.len() == j,
            places == order::indices(at@),
            forall|k: int| 0 <= k < at@.len() ==> #[trigger] at@[k] < v@.len(),
            forall|k: int|
                0 <= k < j ==> order::key_model((#[trigger] keys@[k])@) == time_keys(
                    v@,
                    places,
                )[k],
        decreases at.len() - j,
    {
        assert(places[j as int] == at@[j as int]);
        let e = &v[at[j]];
        let mut key: Vec<KeyPart> = Vec::new();
        key.push(KeyPart::Text(e.session_id.clone()));
        key.push(KeyPart::Up(e.sequence as u64));
        assert(order::key_model(key@) =~= time_keys(v@, places)[j as int]);
        keys.push(key);
        j += 1;
    }
    assert(order::key_models(keys@) =~= time_keys(v@, places));
    let by_time = stable_order(&keys);
    let ghost turns = order::indices(by_time@);
    let mut out: Vec<usize> = Vec::new();
    let mut k: usize = 0;
    while k < by_time.len()
        invariant
            k <= by_time@.len(),
            by_time@.len() == at@.len(),
            out@.len() == k,
            places == order::indices(at@),
            turns == order::indices(by_time@),
            forall|m: int| 0 <= m < at@.len() ==> #[trigger] at@[m] < v@.len(),
            forall|m: int| 0 <= m < by_time@.len() ==> #[trigger] by_time@[m] < at@.len(),
            forall|m: int| 0 <= m < k ==> #[trigger] out@[m] == at@[turns[m]],
            forall|m: int| 0 <= m < k ==> #[trigger] out@[m] < v@.len(),
        decreases by_time.len() - k,
    {
        assert(turns[k as int] == by_time@[k as int]);
        out.push(at[by_time[k]]);
        k += 1;
    }
    proof {
        let want = timeline(v@);
        assert forall|m: int| 0 <= m < want.len() implies order::indices(out@)[m] == want[m] by {
            assert(out@[m] == at@[turns[m]]);
            assert(turns[m] == by_time@[m]);
            assert(places[turns[m]] == at@[turns[m]]);
        }
        assert(order::indices(out@) =~= want);
    }
    out
}

pub fn add_adjacent(links: &mut Vec<GraphLink>, events: &Vec<GraphEvent>, leaves: &Vec<Leaf>) -> (r:
    Result<(), String>)
    ensures
        links_are(
            r,
            final(links)@,
            with_adjacent(link_models(old(links)@), events@, leaves@),
        ),
{
    let line = order_events(events);
    let ghost at = order::indices(line@);
    let ghost start = link_models(links@);
    let ghost step = adjacent_steps(events@, leaves@, at);
    let mut i: usize = 0;
    while i < line.len()
        invariant
            i <= line@.len(),
            at == order::indices(line@),
            at == timeline(events@),
            step == adjacent_steps(events@, leaves@, at),
            start == link_models(old(links)@),
            forall|k: int| 0 <= k < line@.len() ==> #[trigger] line@[k] < events@.len(),
            gather(start, step, i as int) == Ok::<Seq<LinkModel>, Seq<char>>(link_models(links@)),
        decreases line.len() - i,
    {
        let ghost now = link_models(links@);
        assert(step(i as int) == adjacent_step(events@, leaves@, at, i as int));
        assert(now + no_links() =~= now);
        if i > 0 {
            assert(at[i - 1] == line@[i - 1] && at[i as int] == line@[i as int]);
            let a = &events[line[i - 1]];
            let b = &events[line[i]];
            if text_eq(a.session_id.as_str(), b.session_id.as_str()) {
                let found = (
                    find_message(leaves, a.event_id.as_str()),
                    find_message(leaves, b.event_id.as_str()),
                );
                let added = match found {
                    (Some(p), Some(q)) => {
                        let left = &leaves[p];
                        let right = &leaves[q];
                        add_edge(
                            links,
                            GraphEdgeType::Adjacent,
                            left.node_id.as_str(),
                            right.node_id.as_str(),
                            false,
                            WeightTerm::One,
                            pair_provenance(
                                a.event_id.as_str(),
                                b.event_id.as_str(),
                                left,
                                right,
                            ),
                        )
                    },
                    _ => Err("相邻事件缺少 message doc".to_owned()),
                };
                if let Err(e) = added {
                    proof {
                        gather_stops(start, step, i + 1, at.len() as int);
                    }
                    return Err(e);
                }
            }
        }
        i += 1;
    }
    Ok(())
}

/// The link of an event with the one it replies to.
pub open spec fn reply_step(events: Seq<GraphEvent>, leaves: Seq<Leaf>, i: int) -> Result<
    Seq<LinkModel>,
    Seq<char>,
> {
    let e = events[i];
    let n = leaves.len() as int;
    if !speaks(e) || e.reply_to_event_id is None {
        Ok(no_links())
    } else {
        let reply = e.reply_to_event_id->0@;
        match event_at_start(events, reply) {
            None => Err("回复 "@ + e.event_id@ + " 目标缺失"@),
            Some(t) => {
                let target = events[t];
                if target.session_id@ != e.session_id@ || target.role == EventRole::System {
                    Err("回复 "@ + e.event_id@ + " 跨会话或指向 system"@)
                } else if text::blank(target.content@) {
                    if target.role == EventRole::Assistant && target.turn_status == Some(
                        TurnStatus::Failed,
                    ) {
                        Ok(no_links())
                    } else {
                        Err("回复 "@ + e.event_id@ + " 指向非失败状态的空消息"@)
                    }
                } else {
                    match (
                        message_leaf(leaves, e.event_id@, n),
                        message_leaf(leaves, reply, n),
                    ) {
                        (None, _) => Err("回复缺少 message doc"@),
                        (_, None) => Err("回复目标缺少 message doc"@),
                        (Some(p), Some(q)) => linked(
                            GraphEdgeType::Reply,
                            leaves[p].node_id@,
                            leaves[q].node_id@,
                            false,
                            WeightTerm::One,
                            message_pair(e.event_id@, reply, leaves[p], leaves[q]),
                        ),
                    }
                }
            },
        }
    }
}

pub open spec fn event_at_start(events: Seq<GraphEvent>, id: Seq<char>) -> Option<int> {
    graph::event_at(events, id, 0)
}

pub open spec fn reply_steps(events: Seq<GraphEvent>, leaves: Seq<Leaf>) -> spec_fn(int) -> Result<
    Seq<LinkModel>,
    Seq<char>,
> {
    |i: int| reply_step(events, leaves, i)
}

pub fn about(what: &str, id: &str, fault: &str) -> (r: String)
    ensures
        r@ == what@ + id@ + fault@,
{
    let mut m = what.to_owned();
    m.append(id);
    m.append(fault);
    m
}

fn add_reply(links: &mut Vec<GraphLink>, events: &Vec<GraphEvent>, leaves: &Vec<Leaf>, i: usize) -> (r:
    Result<(), String>)
    requires
        i < events@.len(),
    ensures
        links_are(
            r,
            final(links)@,
            extended(link_models(old(links)@), reply_step(events@, leaves@, i as int)),
        ),
{
    let ghost now = link_models(links@);
    assert(now + no_links() =~= now);
    let e = &events[i];
    if !event_speaks(e) {
        return Ok(());
    }
    let reply = match &e.reply_to_event_id {
        Some(reply) => reply,
        None => return Ok(()),
    };
    let target = match find_event(events, reply.as_str()) {
        Some(t) => &events[t],
        None => return Err(about("回复 ", e.event_id.as_str(), " 目标缺失")),
    };
    if !text_eq(target.session_id.as_str(), e.session_id.as_str()) || target.role
        == EventRole::System {
        return Err(about("回复 ", e.event_id.as_str(), " 跨会话或指向 system"));
    }
    if is_blank(target.content.as_str()) {
        let failed = match target.turn_status {
            Some(status) => status == TurnStatus::Failed,
            None => false,
        };
        if target.role == EventRole::Assistant && failed {
            return Ok(());
        }
        return Err(about("回复 ", e.event_id.as_str(), " 指向非失败状态的空消息"));
    }
    let left = match find_message(leaves, e.event_id.as_str()) {
        Some(p) => &leaves[p],
        None => return Err("回复缺少 message doc".to_owned()),
    };
    let right = match find_message(leaves, reply.as_str()) {
        Some(q) => &leaves[q],
        None => return Err("回复目标缺少 message doc".to_owned()),
    };
    add_edge(
        links,
        GraphEdgeType::Reply,
        left.node_id.as_str(),
        right.node_id.as_str(),
        false,
        WeightTerm::One,
        pair_provenance(e.event_id.as_str(), reply.as_str(), left, right),
    )
}

pub fn add_replies(links: &mut Vec<GraphLink>, events: &Vec<GraphEvent>, leaves: &Vec<Leaf>) -> (r:
    Result<(), String>)
    ensures
        links_are(
            r,
            final(links)@,
            gather(
                link_models(old(links)@),
                reply_steps(events@, leaves@),
                events@.len() as int,
            ),
        ),
{
    let ghost start = link_models(links@);
    let ghost step = reply_steps(events@, leaves@);
    let mut i: usize = 0;
    while i < events.len()
        invariant
            i <= events@.len(),
            step == reply_steps(events@, leaves@),
            start == link_models(old(links)@),
            gather(start, step, i as int) == Ok::<Seq<LinkModel>, Seq<char>>(link_models(links@)),
        decreases events.len() - i,
    {
        assert(step(i as int) == reply_step(events@, leaves@, i as int));
        if let Err(e) = add_reply(links, events, leaves, i) {
            proof {
                gather_stops(start, step, i + 1, events@.len() as int);
            }
            return Err(e);
        }
        i += 1;
    }
    Ok(())
}

/// A row that puts a message into an episode.
#[derive(Debug, PartialEq, Eq)]
pub struct EpisodeMemberRow {
    pub document_id: String,
    pub event_id: String,
    pub start_char: i64,
    pub end_char: i64,
    pub content_sha256: String,
    pub session_id: String,
    pub role: String,
}

/// What a link of an episode rests on.
pub open spec fn member_provenance(row: EpisodeMemberRow, message: Leaf) -> ProvenanceModel {
    ProvenanceModel {
        records: seq![row.document_id@, row.event_id@],
        spans: seq![leaf_span(message, 0, message.end, message.hash@)],
        terms: Seq::empty(),
        reasons: Seq::empty(),
    }
}

pub open spec fn episode_step(
    row: EpisodeMemberRow,
    nodes: Seq<NodeModel>,
    leaves: Seq<Leaf>,
) -> Result<Seq<LinkModel>, Seq<char>> {
    match (
        node_of(nodes, GraphNodeKind::Document, row.document_id@),
        message_leaf(leaves, row.event_id@, leaves.len() as int),
    ) {
        (None, _) => Err("episode node缺失"@),
        (_, None) => Err("episode member message缺失"@),
        (Some(episode), Some(p)) => {
            let message = leaves[p];
            if row.start_char != 0 || row.end_char != message.end || row.session_id@
                != message.session_id@ {
                Err("episode member provenance错误"@)
            } else {
                match graph::role_named(row.role@) {
                    None => Err(graph::unknown_role(row.role@)),
                    Some(role) => if role != message.role || row.content_sha256@ != message.hash@ {
                        Err("episode member provenance错误"@)
                    } else {
                        linked(
                            GraphEdgeType::EpisodeMember,
                            episode,
                            message.node_id@,
                            false,
                            WeightTerm::One,
                            member_provenance(row, message),
                        )
                    },
                }
            }
        },
    }
}

pub open spec fn episode_steps(
    rows: Seq<EpisodeMemberRow>,
    nodes: Seq<NodeModel>,
    leaves: Seq<Leaf>,
) -> spec_fn(int) -> Result<Seq<LinkModel>, Seq<char>> {
    |i: int| episode_step(rows[i], nodes, leaves)
}

fn add_episode_member(
    links: &mut Vec<GraphLink>,
    row: &EpisodeMemberRow,
    nodes: &Vec<GraphNode>,
    leaves: &Vec<Leaf>,
) -> (r: Result<(), String>)
    ensures
        links_are(
            r,
            final(links)@,
            extended(
                link_models(old(links)@),
                episode_step(*row, graph::node_models(nodes@), leaves@),
            ),
        ),
{
    let episode = match find_node(nodes, GraphNodeKind::Document, row.document_id.as_str()) {
        Some(id) => id,
        None => return Err("episode node缺失".to_owned()),
    };
    let message = match find_message(leaves, row.event_id.as_str()) {
        Some(p) => &leaves[p],
        None => return Err("episode member message缺失".to_owned()),
    };
    if row.start_char != 0 || row.end_char < 0 || row.end_char as u64 != message.end as u64
        || !text_eq(row.session_id.as_str(), message.session_id.as_str()) {
        return Err("episode member provenance错误".to_owned());
    }
    let role = match parse_role(row.role.as_str()) {
        Ok(role) => role,
        Err(e) => return Err(e),
    };
    if !(role == message.role) || !text_eq(row.content_sha256.as_str(), message.hash.as_str()) {
        return Err("episode member provenance错误".to_owned());
    }
    let mut record_ids: Vec<String> = Vec::new();
    record_ids.push(row.document_id.clone());
    record_ids.push(row.event_id.clone());
    let mut spans: Vec<RawProvenance> = Vec::new();
    spans.push(raw_span(message, 0, message.end, message.hash.as_str()));
    let provenance = Provenance { record_ids, spans, terms: Vec::new(), reasons: Vec::new() };
    proof {
        let want = member_provenance(*row, *message);
        assert(text::texts(provenance.record_ids@) =~= want.records);
        assert(span_models(provenance.spans@) =~= want.spans);
        assert(text::texts(provenance.terms@) =~= want.terms);
        assert(text::texts(provenance.reasons@) =~= want.reasons);
    }
    add_edge(
        links,
        GraphEdgeType::EpisodeMember,
        episode,
        message.node_id.as_str(),
        false,
        WeightTerm::One,
        provenance,
    )
}

pub fn add_episode_edges(
    links: &mut Vec<GraphLink>,
    rows: &Vec<EpisodeMemberRow>,
    nodes: &Vec<GraphNode>,
    leaves: &Vec<Leaf>,
) -> (r: Result<(), String>)
    ensures
        links_are(
            r,
            final(links)@,
            gather(
                link_models(old(links)@),
                episode_steps(rows@, graph::node_models(nodes@), leaves@),
                rows@.len() as int,
            ),
        ),
{
    let ghost start = link_models(links@);
    let ghost step = episode_steps(rows@, graph::node_models(nodes@), leaves@);
    let mut i: usize = 0;
    while i < rows.len()
        invariant
            i <= rows@.len(),
            step == episode_steps(rows@, graph::node_models(nodes@), leaves@),
            start == link_models(old(links)@),
            gather(start, step, i as int) == Ok::<Seq<LinkModel>, Seq<char>>(link_models(links@)),
        decreases rows.len() - i,
    {
        assert(step(i as int) == episode_step(
            rows@[i as int],
            graph::node_models(nodes@),
            leaves@,
        ));
        if let Err(e) = add_episode_member(links, &rows[i], nodes, leaves) {
            proof {
                gather_stops(start, step, i + 1, rows@.len() as int);
            }
            return Err(e);
        }
        i += 1;
    }
    Ok(())
}

/// Steps that all succeed give exactly their links, behind those that were there.
pub proof fn gather_collects(
    start: Seq<LinkModel>,
    step: spec_fn(int) -> Result<Seq<LinkModel>, Seq<char>>,
    n: int,
)
    requires
        gather(start, step, n) is Ok,
    ensures
        forall|k: int| 0 <= k < n ==> #[trigger] step(k) is Ok,
        forall|x: LinkModel|
            #[trigger] gather(start, step, n)->Ok_0.contains(x) <==> start.contains(x) || exists|k: int|
                0 <= k < n && (#[trigger] step(k))->Ok_0.contains(x),
    decreases n,
{
    if n > 0 {
        gather_collects(start, step, n - 1);
        let before = gather(start, step, n - 1)->Ok_0;
        let more = step(n - 1)->Ok_0;
        let all = gather(start, step, n)->Ok_0;
        assert(all == before + more);
        assert forall|x: LinkModel|
            #[trigger] all.contains(x) <==> start.contains(x) || exists|k: int|
                0 <= k < n && (#[trigger] step(k))->Ok_0.contains(x) by {
            if all.contains(x) {
                let i = choose|i: int| 0 <= i < all.len() && all[i] == x;
                if i < before.len() {
                    assert(before[i] == x);
                } else {
                    assert(more[i - before.len()] == x);
                    assert(step(n - 1)->Ok_0.contains(x));
                }
            }
            if before.contains(x) {
                let i = choose|i: int| 0 <= i < before.len() && before[i] == x;
                assert(all[i] == x);
            }
            if more.contains(x) {
                let i = choose|i: int| 0 <= i < more.len() && more[i] == x;
                assert(all[before.len() + i] == x);
            }
            if exists|k: int| 0 <= k < n && (#[trigger] step(k))->Ok_0.contains(x) {
                let k = choose|k: int| 0 <= k < n && (#[trigger] step(k))->Ok_0.contains(x);
                if k < n - 1 {
                    assert(before.contains(x));
                }
            }
        }
    }
}

proof fn speaking_events_speak(v: Seq<GraphEvent>, n: int)
    requires
        0 <= n <= v.len(),
    ensures
        forall|j: int| #[trigger] speaking(v, n).contains(j) <==> 0 <= j < n && v[j].role
            != EventRole::System && !text::blank(v[j].content@),
        speaking(v, n).no_duplicates(),
    decreases n,
{
    if n > 0 {
        speaking_events_speak(v, n - 1);
        let before = speaking(v, n - 1);
        let now = speaking(v, n);
        assert(!before.contains(n - 1));
        assert forall|j: int| #[trigger] now.contains(j) <==> 0 <= j < n && v[j].role
            != EventRole::System && !text::blank(v[j].content@) by {
            assert(before.contains(j) <==> 0 <= j < n - 1 && v[j].role != EventRole::System
                && !text::blank(v[j].content@));
            if now.contains(j) {
                let k = choose|k: int| 0 <= k < now.len() && now[k] == j;
                if k < before.len() {
                    assert(before[k] == j);
                }
            }
            if before.contains(j) {
                let k = choose|k: int| 0 <= k < before.len() && before[k] == j;
                assert(now[k] == j);
            }
            if now.len() > before.len() {
                assert(now[before.len() as int] == n - 1);
            }
        }
    }
}

/// The timeline holds exactly the events that say something, none of them twice,
/// session by session, and in each by sequence.
pub proof fn timelines_are_ordered(v: Seq<GraphEvent>)
    ensures
        forall|j: int| #[trigger] timeline(v).contains(j) <==> 0 <= j < v.len() && v[j].role
            != EventRole::System && !text::blank(v[j].content@),
        timeline(v).no_duplicates(),
        forall|p: int, q: int|
            0 <= p < q < timeline(v).len() ==> {
                let a = v[#[trigger] timeline(v)[p]];
                let b = v[#[trigger] timeline(v)[q]];
                ||| text::text_lt(a.session_id@, b.session_id@)
                ||| a.session_id@ == b.session_id@ && a.sequence <= b.sequence
            },
{
    let n = v.len() as int;
    let at = speaking(v, n);
    let keys = time_keys(v, at);
    let by_time = order::ordered(keys, at.len() as int);
    let line = timeline(v);
    speaking_events_speak(v, n);
    order::ordered_is_complete(keys, at.len() as int);
    assert forall|a: int, b: int| 0 <= a < keys.len() && 0 <= b < keys.len() implies
        order::same_shape(#[trigger] keys[a], #[trigger] keys[b]) by {
        assert forall|x: int| 0 <= x < 2 implies order::comparable(
            #[trigger] keys[a][x],
            #[trigger] keys[b][x],
        ) by {
            assert(x == 0 || x == 1);
        }
    }
    order::ordered_is_sorted(keys, at.len() as int);
    assert forall|j: int| #[trigger] line.contains(j) <==> at.contains(j) by {
        if line.contains(j) {
            let k = choose|k: int| 0 <= k < line.len() && line[k] == j;
            assert(at[by_time[k]] == j);
        }
        if at.contains(j) {
            let a = choose|a: int| 0 <= a < at.len() && at[a] == j;
            assert(by_time.contains(a));
            let k = choose|k: int| 0 <= k < by_time.len() && by_time[k] == a;
            assert(line[k] == j);
        }
    }
    assert forall|p: int, q: int| 0 <= p < line.len() && 0 <= q < line.len() && p != q implies line[p]
        != line[q] by {
        assert(by_time[p] != by_time[q]);
    }
    assert forall|p: int, q: int| 0 <= p < q < line.len() implies {
        let a = v[#[trigger] line[p]];
        let b = v[#[trigger] line[q]];
        ||| text::text_lt(a.session_id@, b.session_id@)
        ||| a.session_id@ == b.session_id@ && a.sequence <= b.sequence
    } by {
        let x = by_time[p];
        let y = by_time[q];
        assert(!order::key_lt(keys[y], keys[x], 0));
        assert(keys[x][0] == order::PartModel::Text(v[at[x]].session_id@));
        assert(keys[y][0] == order::PartModel::Text(v[at[y]].session_id@));
        assert(keys[x][1] == order::PartModel::Up(v[at[x]].sequence as u64));
        assert(keys[y][1] == order::PartModel::Up(v[at[y]].sequence as u64));
        reveal_with_fuel(order::key_lt, 3);
        text::text_lt_total(v[at[x]].session_id@, v[at[y]].session_id@);
    }
}

/// One event comes right after another in its session: both say something, and
/// no event that does lies between them.
pub open spec fn comes_next(v: Seq<GraphEvent>, i: int, j: int) -> bool {
    &&& 0 <= i < v.len() && 0 <= j < v.len() && i != j
    &&& v[i].role != EventRole::System && !text::blank(v[i].content@)
    &&& v[j].role != EventRole::System && !text::blank(v[j].content@)
    &&& v[i].session_id@ == v[j].session_id@
    &&& v[i].sequence <= v[j].sequence
    &&& forall|k: int|
        0 <= k < v.len() && (#[trigger] v[k]).session_id@ == v[i].session_id@ && v[k].role
            != EventRole::System && !text::blank(v[k].content@) ==> v[k].sequence <= v[i].sequence
            || v[k].sequence >= v[j].sequence
}

/// A link between the messages of two events.
pub open spec fn neighbours(leaves: Seq<Leaf>, x: LinkModel, a: GraphEvent, b: GraphEvent) -> bool {
    let n = leaves.len() as int;
    &&& x.kind == GraphEdgeType::Adjacent
    &&& x.provenance.records == seq![a.event_id@, b.event_id@]
    &&& text::text_lt(x.source, x.target)
    &&& message_leaf(leaves, a.event_id@, n) matches Some(p) && message_leaf(
        leaves,
        b.event_id@,
        n,
    ) matches Some(q) && ((x.source == leaves[p].node_id@ && x.target == leaves[q].node_id@) || (
    x.source == leaves[q].node_id@ && x.target == leaves[p].node_id@))
}

/// Adjacent messages are linked, and only they: every link joins an event with
/// the one that comes right after it in its session, and where sequences are not
/// given twice every two such events are joined.
pub proof fn links_join_neighbours_in_time(events: Seq<GraphEvent>, leaves: Seq<Leaf>)
    ensures
        with_adjacent(no_links(), events, leaves) matches Ok(out) ==> {
            &&& forall|x: LinkModel| #[trigger]
                out.contains(x) ==> exists|i: int, j: int| #[trigger]
                    comes_next(events, i, j) && neighbours(leaves, x, events[i], events[j])
            &&& forall|i: int, j: int| #[trigger]
                comes_next(events, i, j) && (forall|a: int, b: int|
                    0 <= a < events.len() && 0 <= b < events.len() && a != b && (
                    #[trigger] events[a]).session_id@ == (#[trigger] events[b]).session_id@
                        ==> events[a].sequence != events[b].sequence) ==> exists|x: LinkModel|
                    out.contains(x) && #[trigger] neighbours(leaves, x, events[i], events[j])
        },
{
    let line = timeline(events);
    let step = adjacent_steps(events, leaves, line);
    let made = with_adjacent(no_links(), events, leaves);
    timelines_are_ordered(events);
    if made is Ok {
        let out = made->Ok_0;
        gather_collects(no_links(), step, line.len() as int);
        assert forall|x: LinkModel| #[trigger] out.contains(x) implies exists|i: int, j: int|
            #[trigger]
            comes_next(events, i, j) && neighbours(leaves, x, events[i], events[j]) by {
            let p = choose|p: int| 0 <= p < line.len() && (#[trigger] step(p))->Ok_0.contains(x);
            assert(step(p) == adjacent_step(events, leaves, line, p));
            assert(step(p) is Ok);
            let i = line[p - 1];
            let j = line[p];
            assert(line.contains(i) && line.contains(j));
            text::text_lt_irreflexive(events[i].session_id@);
            assert forall|k: int|
                0 <= k < events.len() && (#[trigger] events[k]).session_id@ == events[i].session_id@
                    && events[k].role != EventRole::System && !text::blank(
                    events[k].content@,
                ) implies events[k].sequence <= events[i].sequence || events[k].sequence
                >= events[j].sequence by {
                assert(line.contains(k));
                let q = choose|q: int| 0 <= q < line.len() && line[q] == k;
                if q < p - 1 {
                    assert(line[q] == k && line[p - 1] == i);
                } else if q > p {
                    assert(line[q] == k && line[p] == j);
                }
            }
            assert(comes_next(events, i, j));
            adjacent_links_join(events, leaves, line, p, x);
        }
        assert forall|i: int, j: int| #[trigger]
            comes_next(events, i, j) && (forall|a: int, b: int|
                0 <= a < events.len() && 0 <= b < events.len() && a != b && (
                #[trigger] events[a]).session_id@ == (#[trigger] events[b]).session_id@
                    ==> events[a].sequence != events[b].sequence) implies exists|x: LinkModel|
            out.contains(x) && #[trigger] neighbours(leaves, x, events[i], events[j]) by {
            assert(line.contains(i) && line.contains(j));
            let p = choose|p: int| 0 <= p < line.len() && line[p] == i;
            let q = choose|q: int| 0 <= q < line.len() && line[q] == j;
            text::text_lt_irreflexive(events[i].session_id@);
            assert(events[i].sequence != events[j].sequence);
            assert(p < q) by {
                if q < p {
                    assert(line[q] == j && line[p] == i);
                }
            }
            if p + 1 < q {
                let k = line[p + 1];
                assert(line.contains(k));
                let s = events[i].session_id@;
                let t = events[k].session_id@;
                if text::text_lt(s, t) && text::text_lt(t, s) {
                    text::text_lt_asymmetric(s, t);
                }
                assert(line[p] == i && line[q] == j);
                assert(t == s);
                assert(events[k].sequence != events[i].sequence);
                assert(events[k].sequence != events[j].sequence);
            }
            assert(q == p + 1);
            assert(step(q) is Ok);
            assert(step(q) == adjacent_step(events, leaves, line, q));
            assert(step(q)->Ok_0.len() == 1);
            let x = step(q)->Ok_0[0];
            assert(step(q)->Ok_0.contains(x));
            assert(out.contains(x));
            adjacent_links_join(events, leaves, line, q, x);
        }
    }
}

proof fn adjacent_links_join(
    events: Seq<GraphEvent>,
    leaves: Seq<Leaf>,
    line: Seq<int>,
    p: int,
    x: LinkModel,
)
    requires
        0 < p < line.len(),
        adjacent_step(events, leaves, line, p) is Ok,
        adjacent_step(events, leaves, line, p)->Ok_0.contains(x),
    ensures
        neighbours(leaves, x, events[line[p - 1]], events[line[p]]),
{
    let n = leaves.len() as int;
    let a = events[line[p - 1]];
    let b = events[line[p]];
    let l = message_leaf(leaves, a.event_id@, n);
    let r = message_leaf(leaves, b.event_id@, n);
    if l is Some && r is Some {
        text::text_lt_total(leaves[l->0].node_id@, leaves[r->0].node_id@);
    }
}

/// A reply is linked exactly where the event says something and answers one of the
/// same session that is neither by the system nor blank; an answer to a turn that
/// failed without a word is passed over, and every other is refused.
pub proof fn replies_stay_in_their_session(events: Seq<GraphEvent>, leaves: Seq<Leaf>, i: int)
    requires
        0 <= i < events.len(),
    ensures
        ({
            let e = events[i];
            let made = reply_step(events, leaves, i);
            let says = e.role != EventRole::System && !text::blank(e.content@);
            &&& !says || e.reply_to_event_id is None ==> made is Ok && made->Ok_0.len() == 0
            &&& made is Ok && made->Ok_0.len() > 0 ==> {
                &&& says
                &&& e.reply_to_event_id is Some
                &&& event_at_start(events, e.reply_to_event_id->0@) matches Some(t)
                    && events[t].session_id@ == e.session_id@ && events[t].role
                    != EventRole::System && !text::blank(events[t].content@)
                &&& made->Ok_0.len() == 1 && made->Ok_0[0].kind == GraphEdgeType::Reply
                    && text::text_lt(made->Ok_0[0].source, made->Ok_0[0].target)
            }
            &&& made is Ok && made->Ok_0.len() == 0 && says && e.reply_to_event_id is Some ==> (
            event_at_start(events, e.reply_to_event_id->0@) matches Some(t) && text::blank(
                events[t].content@,
            ) && events[t].role == EventRole::Assistant && events[t].turn_status == Some(
                TurnStatus::Failed,
            ) && events[t].session_id@ == e.session_id@)
        }),
{
    let e = events[i];
    let n = leaves.len() as int;
    if e.reply_to_event_id is Some {
        let l = message_leaf(leaves, e.event_id@, n);
        let r = message_leaf(leaves, e.reply_to_event_id->0@, n);
        if l is Some && r is Some {
            text::text_lt_total(leaves[l->0].node_id@, leaves[r->0].node_id@);
        }
    }
}

} // verus!
