//! Walks through the memory graph from what a query found: which nodes lie
//! near, which paths lead to a document, and which of them is shown.

use vstd::prelude::*;
use vstd::string::*;

use crate::associations;
use crate::graph::{self, edge_name, node_id, GraphNode, GraphNodeKind};
use crate::links::about;
use crate::model::{RetrievalChannel, RetrievalDocumentGranularity};
use crate::order::{self, key_before, stable_order, KeyPart};
use crate::stored::GraphEdge;
use crate::text::{self, text_eq};

verus! {

/// Something that a query found, from which a walk starts. The score is given as
/// the bits of a double-precision number.
#[derive(Clone, Debug, PartialEq, Eq)]
pub struct GraphRecallSeed {
    pub channel: RetrievalChannel,
    pub source_id: String,
    pub document_id: Option<String>,
    pub rank: usize,
    pub score_bits: u64,
}

pub open spec fn seed_is_sound(s: GraphRecallSeed) -> bool {
    s.rank > 0 && associations::finite_bits(s.score_bits)
}

/// Checks the ranks and scores of all seeds.
pub fn check_seeds(seeds: &Vec<GraphRecallSeed>) -> (r: Result<(), String>)
    ensures
        match r {
            Ok(()) => forall|i: int|
                0 <= i < seeds@.len() ==> seed_is_sound(#[trigger] seeds@[i]),
            Err(e) => e@ == "图 seed rank/score 无效"@ && exists|i: int|
                0 <= i < seeds@.len() && !seed_is_sound(#[trigger] seeds@[i]),
        },
{
    let mut i: usize = 0;
    while i < seeds.len()
        invariant
            i <= seeds@.len(),
            forall|k: int| 0 <= k < i ==> seed_is_sound(#[trigger] seeds@[k]),
        decreases seeds.len() - i,
    {
        let s = &seeds[i];
        if s.rank == 0 || !(s.score_bits % 0x8000_0000_0000_0000 < 0x7ff0_0000_0000_0000) {
            assert(!seed_is_sound(seeds@[i as int]));
            return Err("图 seed rank/score 无效".to_owned());
        }
        i += 1;
    }
    Ok(())
}

/// Whether a node may be walked to: entities always, others when they belong to
/// the session that the query is limited to.
pub open spec fn in_scope(n: GraphNode, scope: Option<&str>) -> bool {
    n.kind == GraphNodeKind::Entity || match scope {
        None => true,
        Some(session) => text::opt_text(n.session_id) == Some(session@),
    }
}

fn node_in_scope(n: &GraphNode, scope: Option<&str>) -> (r: bool)
    ensures
        r == in_scope(*n, scope),
{
    if n.kind == GraphNodeKind::Entity {
        return true;
    }
    match scope {
        None => true,
        Some(session) => match &n.session_id {
            Some(own) => text_eq(own.as_str(), session),
            None => false,
        },
    }
}

/// The last node with an id among the first `n`.
pub open spec fn node_at(v: Seq<GraphNode>, id: Seq<char>, n: int) -> Option<int>
    decreases n,
{
    if n <= 0 {
        None
    } else if v[n - 1].id@ == id {
        Some(n - 1)
    } else {
        node_at(v, id, n - 1)
    }
}

pub open spec fn node_with(v: Seq<GraphNode>, id: Seq<char>) -> Option<int> {
    node_at(v, id, v.len() as int)
}

fn find_by_id(v: &Vec<GraphNode>, id: &str) -> (r: Option<usize>)
    ensures
        match r {
            Some(p) => p < v@.len() && node_with(v@, id@) == Some(p as int),
            None => node_with(v@, id@) is None,
        },
{
    let mut n: usize = v.len();
    while n > 0
        invariant
            n <= v@.len(),
            node_with(v@, id@) == node_at(v@, id@, n as int),
        decreases n,
    {
        if text_eq(v[n - 1].id.as_str(), id) {
            return Some(n - 1);
        }
        n -= 1;
    }
    None
}

/// The id of the node that a seed stands for.
pub open spec fn seed_node_id(s: GraphRecallSeed) -> Seq<char> {
    graph::node_id_text(
        if s.channel == RetrievalChannel::Entity {
            GraphNodeKind::Entity
        } else {
            GraphNodeKind::Document
        },
        s.source_id@,
    )
}

/// The node of a seed, or what is wrong with it.
pub open spec fn seed_place(s: GraphRecallSeed, nodes: Seq<GraphNode>, scope: Option<&str>) -> Result<
    int,
    Seq<char>,
> {
    match node_with(nodes, seed_node_id(s)) {
        None => Err("图 seed 节点缺失："@ + seed_node_id(s)),
        Some(p) => if !in_scope(nodes[p], scope) {
            Err("图 seed 节点超出会话范围："@ + seed_node_id(s))
        } else {
            Ok(p)
        },
    }
}

/// The nodes of the first `n` seeds, or the first thing that is wrong.
pub open spec fn seed_places(
    seeds: Seq<GraphRecallSeed>,
    nodes: Seq<GraphNode>,
    scope: Option<&str>,
    n: int,
) -> Result<Seq<int>, Seq<char>>
    decreases n,
{
    if n <= 0 {
        Ok(Seq::empty())
    } else {
        match seed_places(seeds, nodes, scope, n - 1) {
            Err(e) => Err(e),
            Ok(v) => match seed_place(seeds[n - 1], nodes, scope) {
                Err(e) => Err(e),
                Ok(p) => Ok(v.push(p)),
            },
        }
    }
}

proof fn seed_places_stop(
    seeds: Seq<GraphRecallSeed>,
    nodes: Seq<GraphNode>,
    scope: Option<&str>,
    k: int,
    n: int,
)
    requires
        k <= n,
        seed_places(seeds, nodes, scope, k) is Err,
    ensures
        seed_places(seeds, nodes, scope, n) == seed_places(seeds, nodes, scope, k),
    decreases n - k,
{
    if k < n {
        seed_places_stop(seeds, nodes, scope, k, n - 1);
    }
}

/// Finds the node of every seed.
pub fn place_seeds(
    seeds: &Vec<GraphRecallSeed>,
    nodes: &Vec<GraphNode>,
    scope: Option<&str>,
) -> (r: Result<Vec<usize>, String>)
    ensures
        match r {
            Ok(v) => seed_places(seeds@, nodes@, scope, seeds@.len() as int) == Ok::<
                Seq<int>,
                Seq<char>,
            >(order::indices(v@)) && v@.len() == seeds@.len() && (forall|i: int|
                0 <= i < v@.len() ==> #[trigger] v@[i] < nodes@.len()),
            Err(e) => seed_places(seeds@, nodes@, scope, seeds@.len() as int) == Err::<
                Seq<int>,
                Seq<char>,
            >(e@),
        },
{
    let mut out: Vec<usize> = Vec::new();
    let mut i: usize = 0;
    assert(order::indices(out@) =~= Seq::empty());
    while i < seeds.len()
        invariant
            i <= seeds@.len(),
            out@.len() == i,
            seed_places(seeds@, nodes@, scope, i as int) == Ok::<Seq<int>, Seq<char>>(
                order::indices(out@),
            ),
            forall|k: int| 0 <= k < i ==> #[trigger] out@[k] < nodes@.len(),
        decreases seeds.len() - i,
    {
        let s = &seeds[i];
        let kind = if s.channel == RetrievalChannel::Entity {
            GraphNodeKind::Entity
        } else {
            GraphNodeKind::Document
        };
        let id = node_id(kind, s.source_id.as_str());
        match find_by_id(nodes, id.as_str()) {
            Some(p) => {
                if !node_in_scope(&nodes[p], scope) {
                    proof {
                        seed_places_stop(seeds@, nodes@, scope, i + 1, seeds@.len() as int);
                    }
                    let mut e = "图 seed 节点超出会话范围：".to_owned();
                    e.append(id.as_str());
                    return Err(e);
                }
                let ghost before = order::indices(out@);
                out.push(p);
                assert(order::indices(out@) =~= before.push(p as int));
            },
            None => {
                proof {
                    seed_places_stop(seeds@, nodes@, scope, i + 1, seeds@.len() as int);
                }
                let mut e = "图 seed 节点缺失：".to_owned();
                e.append(id.as_str());
                return Err(e);
            },
        }
        i += 1;
    }
    Ok(out)
}

/// An edge by the positions of its ends; one that leaves the scope is not used.
#[derive(Clone, Copy, Debug, PartialEq, Eq, Structural)]
pub struct Step {
    pub source: usize,
    pub target: usize,
    pub usable: bool,
}

pub open spec fn steps_fit(steps: Seq<Step>, nodes: nat) -> bool {
    forall|e: int|
        0 <= e < steps.len() ==> (#[trigger] steps[e]).source < nodes && steps[e].target < nodes
}

/// The ends of an edge, or what is wrong with it.
pub open spec fn step_of(e: GraphEdge, nodes: Seq<GraphNode>, scope: Option<&str>) -> Result<
    Step,
    Seq<char>,
> {
    match (node_with(nodes, e.source@), node_with(nodes, e.target@)) {
        (None, _) => Err("图边 "@ + e.id@ + " source 缺失"@),
        (_, None) => Err("图边 "@ + e.id@ + " target 缺失"@),
        (Some(a), Some(b)) => Ok(
            Step {
                source: a as usize,
                target: b as usize,
                usable: in_scope(nodes[a], scope) && in_scope(nodes[b], scope),
            },
        ),
    }
}

pub open spec fn steps_of(
    edges: Seq<GraphEdge>,
    nodes: Seq<GraphNode>,
    scope: Option<&str>,
    n: int,
) -> Result<Seq<Step>, Seq<char>>
    decreases n,
{
    if n <= 0 {
        Ok(Seq::empty())
    } else {
        match steps_of(edges, nodes, scope, n - 1) {
            Err(e) => Err(e),
            Ok(v) => match step_of(edges[n - 1], nodes, scope) {
                Err(e) => Err(e),
                Ok(s) => Ok(v.push(s)),
            },
        }
    }
}

proof fn steps_of_stop(
    edges: Seq<GraphEdge>,
    nodes: Seq<GraphNode>,
    scope: Option<&str>,
    k: int,
    n: int,
)
    requires
        k <= n,
        steps_of(edges, nodes, scope, k) is Err,
    ensures
        steps_of(edges, nodes, scope, n) == steps_of(edges, nodes, scope, k),
    decreases n - k,
{
    if k < n {
        steps_of_stop(edges, nodes, scope, k, n - 1);
    }
}

/// Finds the ends of every edge.
pub fn place_edges(edges: &Vec<GraphEdge>, nodes: &Vec<GraphNode>, scope: Option<&str>) -> (r:
    Result<Vec<Step>, String>)
    ensures
        match r {
            Ok(v) => steps_of(edges@, nodes@, scope, edges@.len() as int) == Ok::<
                Seq<Step>,
                Seq<char>,
            >(v@) && v@.len() == edges@.len() && steps_fit(v@, nodes@.len()),
            Err(e) => steps_of(edges@, nodes@, scope, edges@.len() as int) == Err::<
                Seq<Step>,
                Seq<char>,
            >(e@),
        },
{
    let mut out: Vec<Step> = Vec::new();
    let mut i: usize = 0;
    while i < edges.len()
        invariant
            i <= edges@.len(),
            out@.len() == i,
            steps_of(edges@, nodes@, scope, i as int) == Ok::<Seq<Step>, Seq<char>>(out@),
            steps_fit(out@, nodes@.len()),
        decreases edges.len() - i,
    {
        let e = &edges[i];
        match (find_by_id(nodes, e.source.as_str()), find_by_id(nodes, e.target.as_str())) {
            (Some(a), Some(b)) => out.push(
                Step {
                    source: a,
                    target: b,
                    usable: node_in_scope(&nodes[a], scope) && node_in_scope(&nodes[b], scope),
                },
            ),
            (None, _) => {
                proof {
                    steps_of_stop(edges@, nodes@, scope, i + 1, edges@.len() as int);
                }
                return Err(about("图边 ", e.id.as_str(), " source 缺失"));
            },
            (_, None) => {
                proof {
                    steps_of_stop(edges@, nodes@, scope, i + 1, edges@.len() as int);
                }
                return Err(about("图边 ", e.id.as_str(), " target 缺失"));
            },
        }
        i += 1;
    }
    Ok(out)
}

/// The edges among the first `n` that touch a node.
pub open spec fn touching(steps: Seq<Step>, x: int, n: int) -> Seq<int>
    decreases n,
{
    if n <= 0 {
        Seq::empty()
    } else {
        let rest = touching(steps, x, n - 1);
        let s = steps[n - 1];
        if s.usable && (s.source == x || s.target == x) {
            rest.push(n - 1)
        } else {
            rest
        }
    }
}

pub open spec fn incident(steps: Seq<Step>, x: int) -> Seq<int> {
    touching(steps, x, steps.len() as int)
}

/// The end of an edge that is not `x`.
pub open spec fn across(s: Step, x: int) -> int {
    if s.source == x {
        s.target as int
    } else {
        s.source as int
    }
}

fn cross(s: Step, x: usize) -> (r: usize)
    ensures
        r == across(s, x as int),
{
    if s.source == x {
        s.target
    } else {
        s.source
    }
}

/// The edges that touch a node.
pub fn incident_edges(steps: &Vec<Step>, x: usize) -> (r: Vec<usize>)
    ensures
        order::indices(r@) == incident(steps@, x as int),
        forall|i: int| 0 <= i < r@.len() ==> #[trigger] r@[i] < steps@.len(),
        forall|i: int|
            0 <= i < r@.len() ==> steps@[#[trigger] r@[i] as int].source == x
                || steps@[r@[i] as int].target == x,
{
    let mut out: Vec<usize> = Vec::new();
    let mut i: usize = 0;
    assert(order::indices(out@) =~= Seq::empty());
    while i < steps.len()
        invariant
            i <= steps@.len(),
            order::indices(out@) == touching(steps@, x as int, i as int),
            forall|k: int| 0 <= k < out@.len() ==> #[trigger] out@[k] < i,
            forall|k: int|
                0 <= k < out@.len() ==> steps@[#[trigger] out@[k] as int].source == x
                    || steps@[out@[k] as int].target == x,
        decreases steps.len() - i,
    {
        let s = steps[i];
        if s.usable && (s.source == x || s.target == x) {
            let ghost before = order::indices(out@);
            out.push(i);
            assert(order::indices(out@) =~= before.push(i as int));
        }
        i += 1;
    }
    out
}

/// Whether a node lies within `d` edges of the start.
pub open spec fn reached(steps: Seq<Step>, start: Seq<bool>, x: int, d: nat) -> bool
    decreases d,
{
    if d == 0 {
        start[x]
    } else {
        let less = (d - 1) as nat;
        ||| reached(steps, start, x, less)
        ||| exists|e: int|
            0 <= e < steps.len() && (#[trigger] steps[e]).usable && ((steps[e].source == x
                && reached(steps, start, steps[e].target as int, less)) || (steps[e].target == x
                && reached(steps, start, steps[e].source as int, less)))
    }
}

/// Whether an edge joins a node to one that is reached.
pub open spec fn joins(steps: Seq<Step>, start: Seq<bool>, x: int, e: int, d: nat) -> bool {
    &&& steps[e].usable
    &&& {
        ||| steps[e].source == x && reached(steps, start, steps[e].target as int, d)
        ||| steps[e].target == x && reached(steps, start, steps[e].source as int, d)
    }
}

/// What lies within fewer edges lies within more.
pub proof fn reach_grows(steps: Seq<Step>, start: Seq<bool>, x: int, d: nat, more: nat)
    requires
        d <= more,
        reached(steps, start, x, d),
    ensures
        reached(steps, start, x, more),
    decreases more - d,
{
    if d < more {
        reach_grows(steps, start, x, d, (more - 1) as nat);
    }
}

fn spread(steps: &Vec<Step>, now: &Vec<bool>, Ghost(start): Ghost<Seq<bool>>, Ghost(d): Ghost<
    nat,
>) -> (r: Vec<bool>)
    requires
        steps_fit(steps@, now@.len()),
        forall|x: int| 0 <= x < now@.len() ==> #[trigger] now@[x] == reached(steps@, start, x, d),
    ensures
        r@.len() == now@.len(),
        forall|x: int|
            0 <= x < r@.len() ==> #[trigger] r@[x] == reached(steps@, start, x, d + 1),
{
    let mut next: Vec<bool> = Vec::new();
    let mut k: usize = 0;
    while k < now.len()
        invariant
            k <= now@.len(),
            next@ == now@.take(k as int),
        decreases now.len() - k,
    {
        next.push(now[k]);
        assert(next@ =~= now@.take(k + 1));
        k += 1;
    }
    assert(next@ =~= now@);
    let mut i: usize = 0;
    while i < steps.len()
        invariant
            i <= steps@.len(),
            next@.len() == now@.len(),
            steps_fit(steps@, now@.len()),
            forall|x: int|
                0 <= x < now@.len() ==> #[trigger] now@[x] == reached(steps@, start, x, d),
            forall|x: int|
                0 <= x < next@.len() ==> (#[trigger] next@[x] <==> now@[x] || exists|e: int|
                    0 <= e < i && #[trigger] joins(steps@, start, x, e, d)),
        decreases steps.len() - i,
    {
        let s = steps[i];
        let ghost before = next@;
        assert(steps@[i as int].source < now@.len() && steps@[i as int].target < now@.len());
        let from_source = now[s.source];
        let from_target = now[s.target];
        if s.usable && from_target {
            next.set(s.source, true);
        }
        if s.usable && from_source {
            next.set(s.target, true);
        }
        proof {
            assert forall|x: int| 0 <= x < next@.len() implies (#[trigger] next@[x] <==> now@[x]
                || exists|e: int| 0 <= e < i + 1 && #[trigger] joins(steps@, start, x, e, d)) by {
                assert(before[x] <==> now@[x] || exists|e: int|
                    0 <= e < i && #[trigger] joins(steps@, start, x, e, d));
                if joins(steps@, start, x, i as int, d) {
                    assert(next@[x]);
                }
                if next@[x] && !before[x] {
                    assert(joins(steps@, start, x, i as int, d));
                }
                if next@[x] && before[x] && !now@[x] {
                    let e = choose|e: int|
                        0 <= e < i && #[trigger] joins(steps@, start, x, e, d);
                    assert(0 <= e < i + 1 && joins(steps@, start, x, e, d));
                }
                if exists|e: int| 0 <= e < i + 1 && #[trigger] joins(steps@, start, x, e, d) {
                    let e = choose|e: int|
                        0 <= e < i + 1 && #[trigger] joins(steps@, start, x, e, d);
                    if e < i {
                        assert(0 <= e < i && joins(steps@, start, x, e, d));
                        assert(before[x]);
                        assert(next@[x]);
                    }
                }
            }
        }
        i += 1;
    }
    proof {
        assert forall|x: int| 0 <= x < next@.len() implies #[trigger] next@[x] == reached(
            steps@,
            start,
            x,
            d + 1,
        ) by {
            assert(now@[x] == reached(steps@, start, x, d));
            assert(next@[x] <==> now@[x] || exists|e: int|
                0 <= e < i && #[trigger] joins(steps@, start, x, e, d));
            if next@[x] && !now@[x] {
                let e = choose|e: int| 0 <= e < i && #[trigger] joins(steps@, start, x, e, d);
                assert(steps@[e].usable);
            }
            if reached(steps@, start, x, d + 1) && !now@[x] {
                let e = choose|e: int|
                    0 <= e < steps@.len() && (#[trigger] steps@[e]).usable && ((steps@[e].source
                        == x && reached(steps@, start, steps@[e].target as int, d)) || (
                    steps@[e].target == x && reached(
                        steps@,
                        start,
                        steps@[e].source as int,
                        d,
                    )));
                assert(joins(steps@, start, x, e, d));
            }
        }
    }
    next
}

pub open spec fn starts_at(places: Seq<int>, nodes: nat) -> Seq<bool> {
    Seq::new(nodes, |x: int| places.contains(x))
}

/// The nodes within `depth` edges of the seeds.
pub fn neighbourhood(steps: &Vec<Step>, places: &Vec<usize>, node_count: usize, depth: usize) -> (r:
    Vec<bool>)
    requires
        steps_fit(steps@, node_count as nat),
        forall|i: int| 0 <= i < places@.len() ==> #[trigger] places@[i] < node_count,
    ensures
        r@.len() == node_count,
        forall|x: int|
            0 <= x < node_count ==> #[trigger] r@[x] == reached(
                steps@,
                starts_at(order::indices(places@), node_count as nat),
                x,
                depth as nat,
            ),
{
    let ghost at = order::indices(places@);
    let ghost start = starts_at(at, node_count as nat);
    let mut now: Vec<bool> = Vec::new();
    let mut k: usize = 0;
    while k < node_count
        invariant
            k <= node_count,
            now@.len() == k,
            forall|x: int| 0 <= x < k ==> !#[trigger] now@[x],
        decreases node_count - k,
    {
        now.push(false);
        k += 1;
    }
    let mut i: usize = 0;
    while i < places.len()
        invariant
            i <= places@.len(),
            now@.len() == node_count,
            at == order::indices(places@),
            forall|m: int| 0 <= m < places@.len() ==> #[trigger] places@[m] < node_count,
            forall|x: int|
                0 <= x < node_count ==> #[trigger] now@[x] == at.take(i as int).contains(x),
        decreases places.len() - i,
    {
        let p = places[i];
        let ghost before = now@;
        now.set(p, true);
        proof {
            assert(at[i as int] == p);
            assert forall|x: int| 0 <= x < node_count implies #[trigger] now@[x] == at.take(
                i + 1,
            ).contains(x) by {
                let shorter = at.take(i as int);
                let longer = at.take(i + 1);
                assert(before[x] == shorter.contains(x));
                if x == p {
                    assert(longer[i as int] == x);
                } else {
                    if shorter.contains(x) {
                        let q = choose|q: int| 0 <= q < shorter.len() && shorter[q] == x;
                        assert(longer[q] == x);
                    }
                    if longer.contains(x) {
                        let q = choose|q: int| 0 <= q < longer.len() && longer[q] == x;
                        assert(shorter[q] == x);
                    }
                }
            }
        }
        i += 1;
    }
    assert(at.take(i as int) =~= at);
    let mut d: usize = 0;
    while d < depth
        invariant
            d <= depth,
            now@.len() == node_count,
            steps_fit(steps@, node_count as nat),
            start == starts_at(at, node_count as nat),
            forall|x: int|
                0 <= x < node_count ==> #[trigger] now@[x] == reached(steps@, start, x, d as nat),
        decreases depth - d,
    {
        now = spread(steps, &now, Ghost(start), Ghost(d as nat));
        d += 1;
    }
    now
}

pub open spec fn target_places(nodes: Seq<GraphNode>, local: Seq<bool>, n: int) -> Seq<int>
    decreases n,
{
    if n <= 0 {
        Seq::empty()
    } else if local[n - 1] && nodes[n - 1].kind == GraphNodeKind::Document {
        target_places(nodes, local, n - 1).push(n - 1)
    } else {
        target_places(nodes, local, n - 1)
    }
}

pub open spec fn target_keys(nodes: Seq<GraphNode>, scores: Seq<u64>, at: Seq<int>) -> Seq<
    Seq<order::PartModel>,
> {
    Seq::new(
        at.len(),
        |i: int|
            seq![
                order::PartModel::Down(scores[at[i]]),
                order::PartModel::Text(nodes[at[i]].source_id@),
            ],
    )
}

/// The documents that a walk comes to, the best first.
pub open spec fn ranked_targets(nodes: Seq<GraphNode>, local: Seq<bool>, scores: Seq<u64>) -> Seq<
    int,
> {
    let at = target_places(nodes, local, nodes.len() as int);
    let by_score = order::ordered(target_keys(nodes, scores, at), at.len() as int);
    Seq::new(at.len(), |i: int| at[by_score[i]])
}

/// Ranks the documents near the seeds by their scores; `scores` holds, for every
/// node, the bits of a number that is not negative.
pub fn rank_targets(nodes: &Vec<GraphNode>, local: &Vec<bool>, scores: &Vec<u64>) -> (r: Vec<usize>)
    requires
        local@.len() == nodes@.len(),
        scores@.len() == nodes@.len(),
    ensures
        order::indices(r@) == ranked_targets(nodes@, local@, scores@),
        forall|i: int| 0 <= i < r@.len() ==> #[trigger] r@[i] < nodes@.len(),
{
    let mut at: Vec<usize> = Vec::new();
    let mut i: usize = 0;
    assert(order::indices(at@) =~= Seq::empty());
    while i < nodes.len()
        invariant
            i <= nodes@.len(),
            local@.len() == nodes@.len(),
            order::indices(at@) == target_places(nodes@, local@, i as int),
            forall|k: int| 0 <= k < at@.len() ==> #[trigger] at@[k] < i,
        decreases nodes.len() - i,
    {
        if local[i] && nodes[i].kind == GraphNodeKind::Document {
            let ghost before = order::indices(at@);
            at.push(i);
            assert(order::indices(at@) =~= before.push(i as int));
        }
        i += 1;
    }
    let ghost places = order::indices(at@);
    let mut keys: Vec<Vec<KeyPart>> = Vec::new();
    let mut j: usize = 0;
    while j < at.len()
        invariant
            j <= at@.len(),
            scores@.len() == nodes@.len(),
            keys@.len() == j,
            places == order::indices(at@),
            forall|k: int| 0 <= k < at@.len() ==> #[trigger] at@[k] < nodes@.len(),
            forall|k: int|
                0 <= k < j ==> order::key_model((#[trigger] keys@[k])@) == target_keys(
                    nodes@,
                    scores@,
                    places,
                )[k],
        decreases at.len() - j,
    {
        assert(places[j as int] == at@[j as int]);
        let mut key: Vec<KeyPart> = Vec::new();
        key.push(KeyPart::Down(scores[at[j]]));
        key.push(KeyPart::Text(nodes[at[j]].source_id.clone()));
        assert(order::key_model(key@) =~= target_keys(nodes@, scores@, places)[j as int]);
        keys.push(key);
        j += 1;
    }
    assert(order::key_models(keys@) =~= target_keys(nodes@, scores@, places));
    let by_score = stable_order(&keys);
    let ghost turns = order::indices(by_score@);
    let mut out: Vec<usize> = Vec::new();
    let mut k: usize = 0;
    while k < by_score.len()
        invariant
            k <= by_score@.len(),
            by_score@.len() == at@.len(),
            out@.len() == k,
            places == order::indices(at@),
            turns == order::indices(by_score@),
            forall|m: int| 0 <= m < at@.len() ==> #[trigger] at@[m] < nodes@.len(),
            forall|m: int| 0 <= m < by_score@.len() ==> #[trigger] by_score@[m] < at@.len(),
            forall|m: int| 0 <= m < k ==> #[trigger] out@[m] == places[turns[m]],
            forall|m: int| 0 <= m < k ==> #[trigger] out@[m] < nodes@.len(),
        decreases by_score.len() - k,
    {
        assert(turns[k as int] == by_score@[k as int]);
        assert(places[turns[k as int]] == at@[by_score@[k as int] as int]);
        out.push(at[by_score[k]]);
        k += 1;
    }
    assert(order::indices(out@) =~= ranked_targets(nodes@, local@, scores@));
    out
}

/// A path from a seed to a document: its edges and its nodes.
#[derive(Debug, PartialEq, Eq)]
pub struct WalkPath {
    pub seed: usize,
    pub edges: Vec<usize>,
    pub nodes: Vec<usize>,
}

pub struct PathModel {
    pub seed: int,
    pub edges: Seq<int>,
    pub nodes: Seq<int>,
}

pub open spec fn path_model(p: WalkPath) -> PathModel {
    PathModel {
        seed: p.seed as int,
        edges: order::indices(p.edges@),
        nodes: order::indices(p.nodes@),
    }
}

pub open spec fn path_models(v: Seq<WalkPath>) -> Seq<PathModel> {
    Seq::new(v.len(), |i: int| path_model(v[i]))
}

/// The paths of two edges that begin with `first` and go on with one of the
/// first `n` edges at its far end.
pub open spec fn longer_paths(
    steps: Seq<Step>,
    seed: int,
    a: int,
    target: int,
    first: int,
    n: int,
) -> Seq<PathModel>
    decreases n,
{
    if n <= 0 {
        Seq::empty()
    } else {
        let mid = across(steps[first], a);
        let second = incident(steps, mid)[n - 1];
        let end = across(steps[second], mid);
        let rest = longer_paths(steps, seed, a, target, first, n - 1);
        if end == target && end != a {
            rest.push(PathModel { seed, edges: seq![first, second], nodes: seq![a, mid, end] })
        } else {
            rest
        }
    }
}

/// The paths that begin with an edge.
pub open spec fn paths_by(
    steps: Seq<Step>,
    seed: int,
    a: int,
    target: int,
    depth: nat,
    first: int,
) -> Seq<PathModel> {
    let mid = across(steps[first], a);
    let short = if mid == target {
        seq![PathModel { seed, edges: seq![first], nodes: seq![a, mid] }]
    } else {
        Seq::empty()
    };
    if depth == 2 && mid != a {
        short + longer_paths(
            steps,
            seed,
            a,
            target,
            first,
            incident(steps, mid).len() as int,
        )
    } else {
        short
    }
}

pub open spec fn paths_by_first(
    steps: Seq<Step>,
    seed: int,
    a: int,
    target: int,
    depth: nat,
    n: int,
) -> Seq<PathModel>
    decreases n,
{
    if n <= 0 {
        Seq::empty()
    } else {
        paths_by_first(steps, seed, a, target, depth, n - 1) + paths_by(
            steps,
            seed,
            a,
            target,
            depth,
            incident(steps, a)[n - 1],
        )
    }
}

/// The paths from one seed to a document.
pub open spec fn paths_from(steps: Seq<Step>, seed: int, a: int, target: int, depth: nat) -> Seq<
    PathModel,
> {
    let still = if a == target {
        seq![PathModel { seed, edges: Seq::empty(), nodes: seq![a] }]
    } else {
        Seq::empty()
    };
    still + paths_by_first(steps, seed, a, target, depth, incident(steps, a).len() as int)
}

/// The paths from the first `n` seeds to a document.
pub open spec fn paths_to(
    steps: Seq<Step>,
    places: Seq<int>,
    target: int,
    depth: nat,
    n: int,
) -> Seq<PathModel>
    decreases n,
{
    if n <= 0 {
        Seq::empty()
    } else {
        paths_to(steps, places, target, depth, n - 1) + paths_from(
            steps,
            n - 1,
            places[n - 1],
            target,
            depth,
        )
    }
}

fn push_longer(out: &mut Vec<WalkPath>, steps: &Vec<Step>, seed: usize, a: usize, target: usize, first: usize)
    requires
        first < steps@.len(),
    ensures
        path_models(final(out)@) == path_models(old(out)@) + longer_paths(
            steps@,
            seed as int,
            a as int,
            target as int,
            first as int,
            incident(steps@, across(steps@[first as int], a as int)).len() as int,
        ),
{
    let mid = cross(steps[first], a);
    let seconds = incident_edges(steps, mid);
    let ghost all = order::indices(seconds@);
    let ghost start = path_models(out@);
    let mut i: usize = 0;
    assert(start + longer_paths(
        steps@,
        seed as int,
        a as int,
        target as int,
        first as int,
        0,
    ) =~= start);
    while i < seconds.len()
        invariant
            i <= seconds@.len(),
            first < steps@.len(),
            mid == across(steps@[first as int], a as int),
            all == order::indices(seconds@),
            all == incident(steps@, mid as int),
            forall|k: int| 0 <= k < seconds@.len() ==> #[trigger] seconds@[k] < steps@.len(),
            path_models(out@) == start + longer_paths(
                steps@,
                seed as int,
                a as int,
                target as int,
                first as int,
                i as int,
            ),
        decreases seconds.len() - i,
    {
        let second = seconds[i];
        assert(all[i as int] == second);
        let end = cross(steps[second], mid);
        let ghost before = path_models(out@);
        let ghost rest = longer_paths(
            steps@,
            seed as int,
            a as int,
            target as int,
            first as int,
            i as int,
        );
        if end == target && end != a {
            let mut edges: Vec<usize> = Vec::new();
            edges.push(first);
            edges.push(second);
            let mut nodes: Vec<usize> = Vec::new();
            nodes.push(a);
            nodes.push(mid);
            nodes.push(end);
            assert(order::indices(edges@) =~= seq![first as int, second as int]);
            assert(order::indices(nodes@) =~= seq![a as int, mid as int, end as int]);
            let path = WalkPath { seed, edges, nodes };
            out.push(path);
            assert(path_models(out@) =~= before.push(path_model(path)));
            assert(before.push(path_model(path)) =~= start + rest.push(path_model(path)));
        }
        i += 1;
    }
}

fn push_paths_by(
    out: &mut Vec<WalkPath>,
    steps: &Vec<Step>,
    seed: usize,
    a: usize,
    target: usize,
    depth: usize,
    first: usize,
)
    requires
        first < steps@.len(),
    ensures
        path_models(final(out)@) == path_models(old(out)@) + paths_by(
            steps@,
            seed as int,
            a as int,
            target as int,
            depth as nat,
            first as int,
        ),
{
    let ghost start = path_models(out@);
    let mid = cross(steps[first], a);
    if mid == target {
        let mut edges: Vec<usize> = Vec::new();
        edges.push(first);
        let mut nodes: Vec<usize> = Vec::new();
        nodes.push(a);
        nodes.push(mid);
        assert(order::indices(edges@) =~= seq![first as int]);
        assert(order::indices(nodes@) =~= seq![a as int, mid as int]);
        let path = WalkPath { seed, edges, nodes };
        out.push(path);
        assert(path_models(out@) =~= start + seq![path_model(path)]);
    } else {
        assert(start + Seq::<PathModel>::empty() =~= start);
    }
    let ghost middle = path_models(out@);
    if depth == 2 && mid != a {
        push_longer(out, steps, seed, a, target, first);
    }
    assert(path_models(out@) =~= start + paths_by(
        steps@,
        seed as int,
        a as int,
        target as int,
        depth as nat,
        first as int,
    ));
}

fn push_paths_from(
    out: &mut Vec<WalkPath>,
    steps: &Vec<Step>,
    seed: usize,
    a: usize,
    target: usize,
    depth: usize,
)
    ensures
        path_models(final(out)@) == path_models(old(out)@) + paths_from(
            steps@,
            seed as int,
            a as int,
            target as int,
            depth as nat,
        ),
{
    let ghost start = path_models(out@);
    let ghost still = if a == target {
        seq![PathModel { seed: seed as int, edges: Seq::empty(), nodes: seq![a as int] }]
    } else {
        Seq::empty()
    };
    if a == target {
        let edges: Vec<usize> = Vec::new();
        let mut nodes: Vec<usize> = Vec::new();
        nodes.push(a);
        assert(order::indices(edges@) =~= Seq::empty());
        assert(order::indices(nodes@) =~= seq![a as int]);
        let path = WalkPath { seed, edges, nodes };
        out.push(path);
        assert(path_models(out@) =~= start + seq![path_model(path)]);
    } else {
        assert(start + Seq::<PathModel>::empty() =~= start);
    }
    let ghost middle = path_models(out@);
    let firsts = incident_edges(steps, a);
    let ghost all = order::indices(firsts@);
    let mut i: usize = 0;
    assert(middle + paths_by_first(
        steps@,
        seed as int,
        a as int,
        target as int,
        depth as nat,
        0,
    ) =~= middle);
    while i < firsts.len()
        invariant
            i <= firsts@.len(),
            all == order::indices(firsts@),
            all == incident(steps@, a as int),
            forall|k: int| 0 <= k < firsts@.len() ==> #[trigger] firsts@[k] < steps@.len(),
            path_models(out@) == middle + paths_by_first(
                steps@,
                seed as int,
                a as int,
                target as int,
                depth as nat,
                i as int,
            ),
        decreases firsts.len() - i,
    {
        assert(all[i as int] == firsts@[i as int]);
        push_paths_by(out, steps, seed, a, target, depth, firsts[i]);
        assert(path_models(out@) =~= middle + paths_by_first(
            steps@,
            seed as int,
            a as int,
            target as int,
            depth as nat,
            i + 1,
        ));
        i += 1;
    }
    assert(path_models(out@) =~= start + paths_from(
        steps@,
        seed as int,
        a as int,
        target as int,
        depth as nat,
    ));
}

/// All paths of at most `depth` edges from the seeds to a document.
pub fn list_paths(steps: &Vec<Step>, places: &Vec<usize>, target: usize, depth: usize) -> (r: Vec<
    WalkPath,
>)
    ensures
        path_models(r@) == paths_to(
            steps@,
            order::indices(places@),
            target as int,
            depth as nat,
            places@.len() as int,
        ),
{
    let ghost at = order::indices(places@);
    let mut out: Vec<WalkPath> = Vec::new();
    let mut i: usize = 0;
    assert(path_models(out@) =~= Seq::empty());
    while i < places.len()
        invariant
            i <= places@.len(),
            at == order::indices(places@),
            path_models(out@) == paths_to(steps@, at, target as int, depth as nat, i as int),
        decreases places.len() - i,
    {
        assert(at[i as int] == places@[i as int]);
        push_paths_from(&mut out, steps, i, places[i], target, depth);
        i += 1;
    }
    out
}

/// The channels whose seeds are preferred among paths that are equal otherwise.
pub open spec fn channel_priority(c: RetrievalChannel) -> u64 {
    match c {
        RetrievalChannel::Bm25 => 0,
        RetrievalChannel::Vector => 1,
        _ => 2,
    }
}

fn priority_of(c: RetrievalChannel) -> (r: u64)
    ensures
        r == channel_priority(c),
{
    match c {
        RetrievalChannel::Bm25 => 0,
        RetrievalChannel::Vector => 1,
        _ => 2,
    }
}

pub open spec fn edge_id_parts(edges: Seq<GraphEdge>, at: Seq<int>) -> Seq<order::PartModel> {
    Seq::new(at.len(), |i: int| order::PartModel::Text(edges[at[i]].id@))
}

pub open spec fn node_id_parts(nodes: Seq<GraphNode>, at: Seq<int>) -> Seq<order::PartModel> {
    Seq::new(at.len(), |i: int| order::PartModel::Text(nodes[at[i]].id@))
}

/// By what paths of the same quality are told apart: the shorter first, then by
/// the channel and the id of the seed, its source, and the ids along the path.
pub open spec fn path_key(
    p: PathModel,
    seeds: Seq<GraphRecallSeed>,
    nodes: Seq<GraphNode>,
    edges: Seq<GraphEdge>,
) -> Seq<order::PartModel> {
    seq![
        order::PartModel::Up(p.edges.len() as u64),
        order::PartModel::Up(channel_priority(seeds[p.seed].channel)),
        order::PartModel::Text(nodes[p.nodes[0]].id@),
        order::PartModel::Text(seeds[p.seed].source_id@),
    ] + edge_id_parts(edges, p.edges) + node_id_parts(nodes, p.nodes)
}

/// The best of the first `n` paths: that of the highest quality, and among equal
/// ones the first by its key.
pub open spec fn best_path(
    paths: Seq<PathModel>,
    qualities: Seq<u64>,
    seeds: Seq<GraphRecallSeed>,
    nodes: Seq<GraphNode>,
    edges: Seq<GraphEdge>,
    n: int,
) -> Option<int>
    decreases n,
{
    if n <= 0 {
        None
    } else {
        match best_path(paths, qualities, seeds, nodes, edges, n - 1) {
            None => Some(n - 1),
            Some(b) => if qualities[n - 1] > qualities[b] || (qualities[n - 1] == qualities[b]
                && order::key_lt(
                path_key(paths[n - 1], seeds, nodes, edges),
                path_key(paths[b], seeds, nodes, edges),
                0,
            )) {
                Some(n - 1)
            } else {
                Some(b)
            },
        }
    }
}

/// Paths over the given seeds, nodes and edges.
pub open spec fn paths_fit(v: Seq<WalkPath>, seeds: nat, nodes: nat, edges: nat) -> bool {
    forall|i: int|
        0 <= i < v.len() ==> (#[trigger] v[i]).seed < seeds && v[i].nodes@.len() > 0 && (forall|
            k: int,
        |
            0 <= k < v[i].nodes@.len() ==> #[trigger] v[i].nodes@[k] < nodes) && (forall|k: int|
            0 <= k < v[i].edges@.len() ==> #[trigger] v[i].edges@[k] < edges)
}

fn key_of_path(
    p: &WalkPath,
    seeds: &Vec<GraphRecallSeed>,
    nodes: &Vec<GraphNode>,
    edges: &Vec<GraphEdge>,
) -> (r: Vec<KeyPart>)
    requires
        p.seed < seeds@.len(),
        p.nodes@.len() > 0,
        forall|k: int| 0 <= k < p.nodes@.len() ==> #[trigger] p.nodes@[k] < nodes@.len(),
        forall|k: int| 0 <= k < p.edges@.len() ==> #[trigger] p.edges@[k] < edges@.len(),
    ensures
        order::key_model(r@) == path_key(path_model(*p), seeds@, nodes@, edges@),
{
    let ghost m = path_model(*p);
    let s = &seeds[p.seed];
    let mut key: Vec<KeyPart> = Vec::new();
    key.push(KeyPart::Up(p.edges.len() as u64));
    key.push(KeyPart::Up(priority_of(s.channel)));
    assert(m.nodes[0] == p.nodes@[0]);
    key.push(KeyPart::Text(nodes[p.nodes[0]].id.clone()));
    key.push(KeyPart::Text(s.source_id.clone()));
    let ghost front = seq![
        order::PartModel::Up(m.edges.len() as u64),
        order::PartModel::Up(channel_priority(s.channel)),
        order::PartModel::Text(nodes@[m.nodes[0]].id@),
        order::PartModel::Text(s.source_id@),
    ];
    let ghost first = edge_id_parts(edges@, m.edges);
    let ghost second = node_id_parts(nodes@, m.nodes);
    assert(order::key_model(key@) =~= front + first.take(0));
    let mut i: usize = 0;
    while i < p.edges.len()
        invariant
            i <= p.edges@.len(),
            m == path_model(*p),
            first == edge_id_parts(edges@, m.edges),
            forall|k: int| 0 <= k < p.edges@.len() ==> #[trigger] p.edges@[k] < edges@.len(),
            order::key_model(key@) == front + first.take(i as int),
        decreases p.edges.len() - i,
    {
        assert(m.edges[i as int] == p.edges@[i as int]);
        let ghost before = order::key_model(key@);
        key.push(KeyPart::Text(edges[p.edges[i]].id.clone()));
        assert(order::key_model(key@) =~= before.push(first[i as int]));
        assert(before.push(first[i as int]) =~= front + first.take(i + 1));
        i += 1;
    }
    assert(first.take(i as int) =~= first);
    assert(order::key_model(key@) =~= front + first + second.take(0));
    let mut j: usize = 0;
    while j < p.nodes.len()
        invariant
            j <= p.nodes@.len(),
            m == path_model(*p),
            second == node_id_parts(nodes@, m.nodes),
            forall|k: int| 0 <= k < p.nodes@.len() ==> #[trigger] p.nodes@[k] < nodes@.len(),
            order::key_model(key@) == front + first + second.take(j as int),
        decreases p.nodes.len() - j,
    {
        assert(m.nodes[j as int] == p.nodes@[j as int]);
        let ghost before = order::key_model(key@);
        key.push(KeyPart::Text(nodes[p.nodes[j]].id.clone()));
        assert(order::key_model(key@) =~= before.push(second[j as int]));
        assert(before.push(second[j as int]) =~= front + first + second.take(j + 1));
        j += 1;
    }
    assert(second.take(j as int) =~= second);
    key
}

/// Chooses the path that is shown for a document. `qualities` holds, for every
/// path, the bits of a number that is not negative.
pub fn choose_path(
    paths: &Vec<WalkPath>,
    qualities: &Vec<u64>,
    seeds: &Vec<GraphRecallSeed>,
    nodes: &Vec<GraphNode>,
    edges: &Vec<GraphEdge>,
) -> (r: Option<usize>)
    requires
        qualities@.len() == paths@.len(),
        paths_fit(paths@, seeds@.len(), nodes@.len(), edges@.len()),
    ensures
        match r {
            Some(b) => b < paths@.len() && best_path(
                path_models(paths@),
                qualities@,
                seeds@,
                nodes@,
                edges@,
                paths@.len() as int,
            ) == Some(b as int),
            None => paths@.len() == 0,
        },
{
    let ghost models = path_models(paths@);
    let mut best: Option<usize> = None;
    let mut i: usize = 0;
    while i < paths.len()
        invariant
            i <= paths@.len(),
            qualities@.len() == paths@.len(),
            paths_fit(paths@, seeds@.len(), nodes@.len(), edges@.len()),
            models == path_models(paths@),
            match best {
                Some(b) => b < i && best_path(
                    models,
                    qualities@,
                    seeds@,
                    nodes@,
                    edges@,
                    i as int,
                ) == Some(b as int),
                None => i == 0,
            },
        decreases paths.len() - i,
    {
        let better = match best {
            None => true,
            Some(b) => {
                assert(models[i as int] == path_model(paths@[i as int]));
                assert(models[b as int] == path_model(paths@[b as int]));
                if qualities[i] > qualities[b] {
                    true
                } else if qualities[i] == qualities[b] {
                    assert(paths@[i as int].seed < seeds@.len());
                    assert(paths@[b as int].seed < seeds@.len());
                    let own = key_of_path(&paths[i], seeds, nodes, edges);
                    let known = key_of_path(&paths[b], seeds, nodes, edges);
                    key_before(&own, &known)
                } else {
                    false
                }
            },
        };
        if better {
            best = Some(i);
        }
        i += 1;
    }
    best
}

/// A document that a walk came to, and the path that is shown for it. Scores,
/// masses and qualities are given as the bits of double-precision numbers.
#[derive(Clone, Debug, PartialEq, Eq)]
pub struct WalkedPath {
    pub seed_document_id: String,
    pub target_document_id: String,
    pub edge_types: Vec<String>,
    pub node_ids: Vec<String>,
    pub edge_ids: Vec<String>,
    pub seed_channel: RetrievalChannel,
    pub seed_node_id: String,
    pub seed_source_id: String,
    pub seed_rank: usize,
    pub seed_score_bits: u64,
    pub seed_mass_bits: u64,
    pub score_bits: u64,
    pub quality_bits: u64,
    pub target_rank: usize,
    pub target_granularity: Option<RetrievalDocumentGranularity>,
    pub target_session_id: String,
    pub reason: String,
}

/// What was computed of a path: the score of its document, its own quality and
/// the mass of its seed.
#[derive(Clone, Copy, Debug, PartialEq, Eq, Structural)]
pub struct WalkMeasures {
    pub score_bits: u64,
    pub quality_bits: u64,
    pub seed_mass_bits: u64,
}

pub open spec fn measured(w: WalkedPath) -> WalkMeasures {
    WalkMeasures {
        score_bits: w.score_bits,
        quality_bits: w.quality_bits,
        seed_mass_bits: w.seed_mass_bits,
    }
}

pub open spec fn or_empty(s: Option<String>) -> Seq<char> {
    match s {
        Some(value) => value@,
        None => ""@,
    }
}

/// What is shown of a path to a document.
pub open spec fn shows(
    w: WalkedPath,
    p: PathModel,
    seed: GraphRecallSeed,
    target: GraphNode,
    nodes: Seq<GraphNode>,
    edges: Seq<GraphEdge>,
    target_rank: int,
) -> bool {
    &&& w.seed_document_id@ == or_empty(seed.document_id)
    &&& w.target_document_id@ == target.source_id@
    &&& text::texts(w.edge_types@) == Seq::new(
        p.edges.len(),
        |i: int| graph::edge_type_text(edges[p.edges[i]].kind),
    )
    &&& text::texts(w.node_ids@) == Seq::new(p.nodes.len(), |i: int| nodes[p.nodes[i]].id@)
    &&& text::texts(w.edge_ids@) == Seq::new(p.edges.len(), |i: int| edges[p.edges[i]].id@)
    &&& w.seed_channel == seed.channel
    &&& w.seed_node_id@ == nodes[p.nodes[0]].id@
    &&& w.seed_source_id@ == seed.source_id@
    &&& w.seed_rank == seed.rank
    &&& w.seed_score_bits == seed.score_bits
    &&& w.target_rank == target_rank
    &&& w.target_granularity == target.granularity
    &&& w.target_session_id@ == or_empty(target.session_id)
    &&& w.reason@ == if text::opt_text(seed.document_id) == Some(target.source_id@) {
        "seed_document"@
    } else {
        ""@
    }
}

fn text_or_empty(s: &Option<String>) -> (r: String)
    ensures
        r@ == or_empty(*s),
{
    match s {
        Some(value) => value.clone(),
        None => "".to_owned(),
    }
}

/// Describes the path that is shown for the document at a place in the ranking.
pub fn show_path(
    p: &WalkPath,
    seeds: &Vec<GraphRecallSeed>,
    nodes: &Vec<GraphNode>,
    edges: &Vec<GraphEdge>,
    target: usize,
    position: usize,
    measures: WalkMeasures,
) -> (r: WalkedPath)
    requires
        p.seed < seeds@.len(),
        p.nodes@.len() > 0,
        forall|k: int| 0 <= k < p.nodes@.len() ==> #[trigger] p.nodes@[k] < nodes@.len(),
        forall|k: int| 0 <= k < p.edges@.len() ==> #[trigger] p.edges@[k] < edges@.len(),
        target < nodes@.len(),
        position < usize::MAX,
    ensures
        shows(
            r,
            path_model(*p),
            seeds@[p.seed as int],
            nodes@[target as int],
            nodes@,
            edges@,
            position + 1,
        ),
        measured(r) == measures,
{
    let ghost m = path_model(*p);
    let seed = &seeds[p.seed];
    let document = &nodes[target];
    let mut edge_types: Vec<String> = Vec::new();
    let mut edge_ids: Vec<String> = Vec::new();
    let mut i: usize = 0;
    while i < p.edges.len()
        invariant
            i <= p.edges@.len(),
            m == path_model(*p),
            edge_types@.len() == i,
            edge_ids@.len() == i,
            forall|k: int| 0 <= k < p.edges@.len() ==> #[trigger] p.edges@[k] < edges@.len(),
            forall|k: int|
                0 <= k < i ==> (#[trigger] edge_types@[k])@ == graph::edge_type_text(
                    edges@[m.edges[k]].kind,
                ),
            forall|k: int| 0 <= k < i ==> (#[trigger] edge_ids@[k])@ == edges@[m.edges[k]].id@,
        decreases p.edges.len() - i,
    {
        assert(m.edges[i as int] == p.edges@[i as int]);
        let e = &edges[p.edges[i]];
        edge_types.push(edge_name(e.kind).to_owned());
        edge_ids.push(e.id.clone());
        i += 1;
    }
    let mut node_ids: Vec<String> = Vec::new();
    let mut j: usize = 0;
    while j < p.nodes.len()
        invariant
            j <= p.nodes@.len(),
            m == path_model(*p),
            node_ids@.len() == j,
            forall|k: int| 0 <= k < p.nodes@.len() ==> #[trigger] p.nodes@[k] < nodes@.len(),
            forall|k: int| 0 <= k < j ==> (#[trigger] node_ids@[k])@ == nodes@[m.nodes[k]].id@,
        decreases p.nodes.len() - j,
    {
        assert(m.nodes[j as int] == p.nodes@[j as int]);
        node_ids.push(nodes[p.nodes[j]].id.clone());
        j += 1;
    }
    let own = match &seed.document_id {
        Some(id) => text_eq(id.as_str(), document.source_id.as_str()),
        None => false,
    };
    let reason = if own {
        "seed_document".to_owned()
    } else {
        "".to_owned()
    };
    assert(m.nodes[0] == p.nodes@[0]);
    assert(text::texts(edge_types@) =~= Seq::new(
        m.edges.len(),
        |k: int| graph::edge_type_text(edges@[m.edges[k]].kind),
    ));
    assert(text::texts(edge_ids@) =~= Seq::new(m.edges.len(), |k: int| edges@[m.edges[k]].id@));
    assert(text::texts(node_ids@) =~= Seq::new(m.nodes.len(), |k: int| nodes@[m.nodes[k]].id@));
    WalkedPath {
        seed_document_id: text_or_empty(&seed.document_id),
        target_document_id: document.source_id.clone(),
        edge_types,
        node_ids,
        edge_ids,
        seed_channel: seed.channel,
        seed_node_id: nodes[p.nodes[0]].id.clone(),
        seed_source_id: seed.source_id.clone(),
        seed_rank: seed.rank,
        seed_score_bits: seed.score_bits,
        seed_mass_bits: measures.seed_mass_bits,
        score_bits: measures.score_bits,
        quality_bits: measures.quality_bits,
        target_rank: position + 1,
        target_granularity: document.granularity,
        target_session_id: text_or_empty(&document.session_id),
        reason,
    }
}

/// A path along edges that are used, from the place of its seed to its target,
/// that does not come back to where it began.
pub open spec fn path_holds(
    p: PathModel,
    steps: Seq<Step>,
    seed: int,
    a: int,
    target: int,
    depth: nat,
) -> bool {
    &&& p.seed == seed
    &&& p.nodes.len() == p.edges.len() + 1
    &&& p.nodes[0] == a
    &&& p.nodes.last() == target
    &&& p.edges.len() <= depth
    &&& p.edges.len() >= 2 ==> p.nodes[1] != a && target != a
    &&& forall|i: int|
        0 <= i < p.edges.len() ==> 0 <= #[trigger] p.edges[i] < steps.len()
            && steps[p.edges[i]].usable && across(steps[p.edges[i]], p.nodes[i]) == p.nodes[i + 1]
            && (steps[p.edges[i]].source == p.nodes[i] || steps[p.edges[i]].target == p.nodes[i])
}

proof fn touching_is_usable(steps: Seq<Step>, x: int, n: int)
    requires
        0 <= n <= steps.len(),
    ensures
        forall|i: int|
            0 <= i < touching(steps, x, n).len() ==> 0 <= #[trigger] touching(steps, x, n)[i] < n
                && steps[touching(steps, x, n)[i]].usable && (steps[touching(steps, x, n)[i]].source
                == x || steps[touching(steps, x, n)[i]].target == x),
    decreases n,
{
    if n > 0 {
        touching_is_usable(steps, x, n - 1);
        let rest = touching(steps, x, n - 1);
        let all = touching(steps, x, n);
        assert forall|i: int| 0 <= i < all.len() implies 0 <= #[trigger] all[i] < n
            && steps[all[i]].usable && (steps[all[i]].source == x || steps[all[i]].target == x) by {
            if i < rest.len() {
                assert(all[i] == rest[i]);
            }
        }
    }
}

proof fn longer_paths_hold(
    steps: Seq<Step>,
    seed: int,
    a: int,
    target: int,
    first: int,
    n: int,
)
    requires
        0 <= first < steps.len(),
        steps[first].usable,
        steps[first].source == a || steps[first].target == a,
        across(steps[first], a) != a,
        0 <= n <= incident(steps, across(steps[first], a)).len(),
    ensures
        forall|i: int|
            0 <= i < longer_paths(steps, seed, a, target, first, n).len() ==> path_holds(
                #[trigger] longer_paths(steps, seed, a, target, first, n)[i],
                steps,
                seed,
                a,
                target,
                2,
            ),
    decreases n,
{
    if n > 0 {
        longer_paths_hold(steps, seed, a, target, first, n - 1);
        let mid = across(steps[first], a);
        touching_is_usable(steps, mid, steps.len() as int);
        let second = incident(steps, mid)[n - 1];
        let end = across(steps[second], mid);
        let rest = longer_paths(steps, seed, a, target, first, n - 1);
        let all = longer_paths(steps, seed, a, target, first, n);
        assert forall|i: int| 0 <= i < all.len() implies path_holds(
            #[trigger] all[i],
            steps,
            seed,
            a,
            target,
            2,
        ) by {
            if i < rest.len() {
                assert(all[i] == rest[i]);
            } else {
                let p = all[i];
                assert(p.edges =~= seq![first, second]);
                assert(p.nodes =~= seq![a, mid, end]);
            }
        }
    }
}

proof fn paths_by_first_hold(
    steps: Seq<Step>,
    seed: int,
    a: int,
    target: int,
    depth: nat,
    n: int,
)
    requires
        0 <= n <= incident(steps, a).len(),
        depth >= 1,
    ensures
        forall|i: int|
            0 <= i < paths_by_first(steps, seed, a, target, depth, n).len() ==> path_holds(
                #[trigger] paths_by_first(steps, seed, a, target, depth, n)[i],
                steps,
                seed,
                a,
                target,
                depth,
            ),
    decreases n,
{
    if n > 0 {
        paths_by_first_hold(steps, seed, a, target, depth, n - 1);
        touching_is_usable(steps, a, steps.len() as int);
        let first = incident(steps, a)[n - 1];
        let mid = across(steps[first], a);
        let more = incident(steps, mid).len() as int;
        if depth == 2 && mid != a {
            longer_paths_hold(steps, seed, a, target, first, more);
        }
        let rest = paths_by_first(steps, seed, a, target, depth, n - 1);
        let own = paths_by(steps, seed, a, target, depth, first);
        let all = paths_by_first(steps, seed, a, target, depth, n);
        assert forall|i: int| 0 <= i < own.len() implies path_holds(
            #[trigger] own[i],
            steps,
            seed,
            a,
            target,
            depth,
        ) by {
            let short: int = if mid == target {
                1
            } else {
                0
            };
            if i < short {
                let p = own[i];
                assert(p.edges =~= seq![first]);
                assert(p.nodes =~= seq![a, mid]);
            } else {
                let q = longer_paths(steps, seed, a, target, first, more);
                assert(own[i] == q[i - short]);
            }
        }
        assert forall|i: int| 0 <= i < all.len() implies path_holds(
            #[trigger] all[i],
            steps,
            seed,
            a,
            target,
            depth,
        ) by {
            if i < rest.len() {
                assert(all[i] == rest[i]);
            } else {
                assert(all[i] == own[i - rest.len()]);
            }
        }
    }
}

/// Every path that is listed leads from its seed to the document along edges
/// that are used, and has at most `depth` of them.
pub proof fn listed_paths_hold(steps: Seq<Step>, seed: int, a: int, target: int, depth: nat)
    requires
        depth >= 1,
    ensures
        forall|i: int|
            0 <= i < paths_from(steps, seed, a, target, depth).len() ==> path_holds(
                #[trigger] paths_from(steps, seed, a, target, depth)[i],
                steps,
                seed,
                a,
                target,
                depth,
            ),
{
    let n = incident(steps, a).len() as int;
    paths_by_first_hold(steps, seed, a, target, depth, n);
    let all = paths_from(steps, seed, a, target, depth);
    let rest = paths_by_first(steps, seed, a, target, depth, n);
    let still: int = if a == target {
        1
    } else {
        0
    };
    assert forall|i: int| 0 <= i < all.len() implies path_holds(
        #[trigger] all[i],
        steps,
        seed,
        a,
        target,
        depth,
    ) by {
        if i < still {
            let p = all[i];
            assert(p.nodes =~= seq![a]);
        } else {
            assert(all[i] == rest[i - still]);
        }
    }
}

/// A walk from the seeds of a query to the documents near them: the seeds with
/// their places among the nodes, the edges with their ends, and the documents in
/// the order of their scores.
pub struct Walk<'a> {
    pub seeds: &'a Vec<GraphRecallSeed>,
    pub nodes: &'a Vec<GraphNode>,
    pub edges: &'a Vec<GraphEdge>,
    pub steps: &'a Vec<Step>,
    pub places: &'a Vec<usize>,
    pub targets: &'a Vec<usize>,
    pub depth: usize,
}

impl<'a> Walk<'a> {
    pub open spec fn wf(&self) -> bool {
        &&& self.depth >= 1
        &&& self.places@.len() == self.seeds@.len()
        &&& self.steps@.len() == self.edges@.len()
        &&& steps_fit(self.steps@, self.nodes@.len())
        &&& forall|i: int|
            0 <= i < self.places@.len() ==> #[trigger] self.places@[i] < self.nodes@.len()
        &&& forall|i: int|
            0 <= i < self.targets@.len() ==> #[trigger] self.targets@[i] < self.nodes@.len()
    }

    /// The paths to the document at a place in the ranking.
    pub open spec fn paths(&self, i: int) -> Seq<PathModel> {
        paths_to(
            self.steps@,
            order::indices(self.places@),
            self.targets@[i] as int,
            self.depth as nat,
            self.places@.len() as int,
        )
    }

    /// Which of these paths is shown.
    pub open spec fn best(&self, qualities: Seq<Vec<u64>>, i: int) -> Option<int> {
        best_path(
            self.paths(i),
            qualities[i]@,
            self.seeds@,
            self.nodes@,
            self.edges@,
            self.paths(i).len() as int,
        )
    }

    /// The places in the ranking, of the first `n`, that a path leads to.
    pub open spec fn shown(&self, n: int) -> Seq<int>
        decreases n,
    {
        if n <= 0 {
            Seq::empty()
        } else if self.paths(n - 1).len() > 0 {
            self.shown(n - 1).push(n - 1)
        } else {
            self.shown(n - 1)
        }
    }
}

/// What a walk shows for the document at a place in the ranking.
pub open spec fn entry_shown<'a>(
    x: WalkedPath,
    w: &Walk<'a>,
    scores: Seq<u64>,
    masses: Seq<u64>,
    qualities: Seq<Vec<u64>>,
    i: int,
) -> bool {
    w.best(qualities, i) matches Some(b) && {
        let p = w.paths(i)[b];
        &&& 0 <= b < w.paths(i).len()
        &&& shows(
            x,
            p,
            w.seeds@[p.seed],
            w.nodes@[w.targets@[i] as int],
            w.nodes@,
            w.edges@,
            i + 1,
        )
        &&& measured(x) == (WalkMeasures {
            score_bits: scores[w.targets@[i] as int],
            quality_bits: qualities[i]@[b],
            seed_mass_bits: masses[p.seed],
        })
    }
}

/// What a walk through the graph found, with a warning when the scores had not
/// settled.
#[derive(Clone, Debug, PartialEq, Eq)]
pub struct GraphRecallResult {
    pub paths: Vec<WalkedPath>,
    pub warning: Option<String>,
}

pub open spec fn walk_concluded<'a>(
    r: GraphRecallResult,
    w: &Walk<'a>,
    scores: Seq<u64>,
    masses: Seq<u64>,
    qualities: Seq<Vec<u64>>,
    converged: bool,
) -> bool {
    let at = w.shown(w.targets@.len() as int);
    &&& r.paths@.len() == at.len()
    &&& forall|k: int|
        0 <= k < at.len() ==> entry_shown(
            #[trigger] r.paths@[k],
            w,
            scores,
            masses,
            qualities,
            at[k],
        )
    &&& text::opt_text(r.warning) == if converged {
        None
    } else {
        Some("graph PPR did not converge after 50 iterations"@)
    }
}

proof fn listed_paths_fit(
    steps: Seq<Step>,
    places: Seq<int>,
    target: int,
    depth: nat,
    n: int,
    nodes: nat,
)
    requires
        0 <= n <= places.len(),
        depth >= 1,
        steps_fit(steps, nodes),
        forall|i: int| 0 <= i < places.len() ==> 0 <= #[trigger] places[i] < nodes,
    ensures
        forall|i: int|
            0 <= i < paths_to(steps, places, target, depth, n).len() ==> {
                let p = #[trigger] paths_to(steps, places, target, depth, n)[i];
                &&& 0 <= p.seed < n
                &&& path_holds(p, steps, p.seed, places[p.seed], target, depth)
                &&& forall|k: int| 0 <= k < p.nodes.len() ==> 0 <= #[trigger] p.nodes[k] < nodes
            },
    decreases n,
{
    if n > 0 {
        listed_paths_fit(steps, places, target, depth, n - 1, nodes);
        listed_paths_hold(steps, n - 1, places[n - 1], target, depth);
        let rest = paths_to(steps, places, target, depth, n - 1);
        let own = paths_from(steps, n - 1, places[n - 1], target, depth);
        let all = paths_to(steps, places, target, depth, n);
        assert forall|i: int| 0 <= i < all.len() implies {
            let p = #[trigger] all[i];
            &&& 0 <= p.seed < n
            &&& path_holds(p, steps, p.seed, places[p.seed], target, depth)
            &&& forall|k: int| 0 <= k < p.nodes.len() ==> 0 <= #[trigger] p.nodes[k] < nodes
        } by {
            if i < rest.len() {
                assert(all[i] == rest[i]);
            } else {
                let p = own[i - rest.len()];
                assert(all[i] == p);
                assert forall|k: int| 0 <= k < p.nodes.len() implies 0 <= #[trigger] p.nodes[k]
                    < nodes by {
                    if k > 0 {
                        assert(0 <= p.edges[k - 1] < steps.len());
                        let e = steps[p.edges[k - 1]];
                        assert(e.source < nodes && e.target < nodes);
                        assert(across(e, p.nodes[k - 1]) == p.nodes[k - 1 + 1]);
                    }
                }
            }
        }
    }
}

/// Shows the best path to each document that one leads to, in the order of the
/// ranking. `scores`, `masses` and `qualities` hold what was computed of the
/// nodes, the seeds and the paths, as the bits of numbers that are not negative.
pub fn conclude_walk<'a>(
    w: &Walk<'a>,
    scores: &Vec<u64>,
    masses: &Vec<u64>,
    qualities: &Vec<Vec<u64>>,
    converged: bool,
) -> (r: GraphRecallResult)
    requires
        w.wf(),
        scores@.len() == w.nodes@.len(),
        masses@.len() == w.seeds@.len(),
        qualities@.len() == w.targets@.len(),
        forall|i: int|
            0 <= i < qualities@.len() ==> (#[trigger] qualities@[i])@.len() == w.paths(i).len(),
    ensures
        walk_concluded(r, w, scores@, masses@, qualities@, converged),
{
    let ghost at = order::indices(w.places@);
    let mut paths: Vec<WalkedPath> = Vec::new();
    let mut i: usize = 0;
    while i < w.targets.len()
        invariant
            i <= w.targets@.len(),
            w.wf(),
            at == order::indices(w.places@),
            scores@.len() == w.nodes@.len(),
            masses@.len() == w.seeds@.len(),
            qualities@.len() == w.targets@.len(),
            forall|k: int|
                0 <= k < qualities@.len() ==> (#[trigger] qualities@[k])@.len() == w.paths(
                    k,
                ).len(),
            paths@.len() == w.shown(i as int).len(),
            forall|k: int|
                0 <= k < paths@.len() ==> entry_shown(
                    #[trigger] paths@[k],
                    w,
                    scores@,
                    masses@,
                    qualities@,
                    w.shown(i as int)[k],
                ),
        decreases w.targets.len() - i,
    {
        let target = w.targets[i];
        let listed = list_paths(w.steps, w.places, target, w.depth);
        proof {
            let ms = path_models(listed@);
            assert(ms == w.paths(i as int));
            assert(qualities@[i as int]@.len() == w.paths(i as int).len());
            listed_paths_fit(
                w.steps@,
                at,
                target as int,
                w.depth as nat,
                at.len() as int,
                w.nodes@.len(),
            );
            assert forall|j: int| 0 <= j < listed@.len() implies (#[trigger] listed@[j]).seed
                < w.seeds@.len() && listed@[j].nodes@.len() > 0 && (forall|k: int|
                0 <= k < listed@[j].nodes@.len() ==> #[trigger] listed@[j].nodes@[k]
                    < w.nodes@.len()) && (forall|k: int|
                0 <= k < listed@[j].edges@.len() ==> #[trigger] listed@[j].edges@[k]
                    < w.edges@.len()) by {
                let m = w.paths(i as int)[j];
                assert(m == path_model(listed@[j]));
                assert forall|k: int| 0 <= k < listed@[j].nodes@.len() implies #[trigger] listed@[j].nodes@[k]
                    < w.nodes@.len() by {
                    assert(m.nodes[k] == listed@[j].nodes@[k]);
                }
                assert forall|k: int| 0 <= k < listed@[j].edges@.len() implies #[trigger] listed@[j].edges@[k]
                    < w.edges@.len() by {
                    assert(m.edges[k] == listed@[j].edges@[k]);
                }
            }
        }
        if let Some(b) = choose_path(&listed, &qualities[i], w.seeds, w.nodes, w.edges) {
            let ghost before = paths@;
            assert(w.paths(i as int)[b as int] == path_model(listed@[b as int]));
            let measures = WalkMeasures {
                score_bits: scores[target],
                quality_bits: qualities[i][b],
                seed_mass_bits: masses[listed[b].seed],
            };
            let entry = show_path(&listed[b], w.seeds, w.nodes, w.edges, target, i, measures);
            assert(entry_shown(entry, w, scores@, masses@, qualities@, i as int));
            paths.push(entry);
            assert(w.shown(i + 1) == w.shown(i as int).push(i as int));
            assert forall|k: int| 0 <= k < paths@.len() implies entry_shown(
                #[trigger] paths@[k],
                w,
                scores@,
                masses@,
                qualities@,
                w.shown(i + 1)[k],
            ) by {
                if k < before.len() {
                    assert(paths@[k] == before[k]);
                    assert(w.shown(i + 1)[k] == w.shown(i as int)[k]);
                }
            }
        }
        i += 1;
    }
    let warning = if converged {
        None
    } else {
        Some("graph PPR did not converge after 50 iterations".to_owned())
    };
    GraphRecallResult { paths, warning }
}

proof fn shown_rise<'a>(w: &Walk<'a>, n: int)
    requires
        0 <= n,
    ensures
        forall|k: int| 0 <= k < w.shown(n).len() ==> 0 <= #[trigger] w.shown(n)[k] < n,
        forall|k: int, m: int|
            0 <= k < m < w.shown(n).len() ==> #[trigger] w.shown(n)[k] < #[trigger] w.shown(n)[m],
    decreases n,
{
    if n > 0 {
        shown_rise(w, n - 1);
        let rest = w.shown(n - 1);
        let all = w.shown(n);
        assert(all == rest || all == rest.push(n - 1));
        assert forall|k: int| 0 <= k < all.len() implies 0 <= #[trigger] all[k] < n by {
            if k < rest.len() {
                assert(all[k] == rest[k]);
            }
        }
        assert forall|k: int, m: int| 0 <= k < m < all.len() implies #[trigger] all[k]
            < #[trigger] all[m] by {
            assert(all[k] == rest[k]);
            if m < rest.len() {
                assert(all[m] == rest[m]);
            }
        }
    }
}

proof fn targets_rise(nodes: Seq<GraphNode>, local: Seq<bool>, n: int)
    requires
        0 <= n <= nodes.len(),
        local.len() == nodes.len(),
    ensures
        forall|k: int|
            0 <= k < target_places(nodes, local, n).len() ==> {
                let x = #[trigger] target_places(nodes, local, n)[k];
                0 <= x < n && local[x] && nodes[x].kind == GraphNodeKind::Document
            },
        forall|k: int, m: int|
            0 <= k < m < target_places(nodes, local, n).len() ==> #[trigger] target_places(
                nodes,
                local,
                n,
            )[k] < #[trigger] target_places(nodes, local, n)[m],
    decreases n,
{
    if n > 0 {
        targets_rise(nodes, local, n - 1);
    }
}

/// The ranking of the documents: each stands in it once, and the scores never
/// rise.
pub proof fn ranked_targets_descend(nodes: Seq<GraphNode>, local: Seq<bool>, scores: Seq<u64>)
    requires
        local.len() == nodes.len(),
        scores.len() == nodes.len(),
    ensures
        ranked_targets(nodes, local, scores).no_duplicates(),
        forall|k: int|
            0 <= k < ranked_targets(nodes, local, scores).len() ==> {
                let x = #[trigger] ranked_targets(nodes, local, scores)[k];
                0 <= x < nodes.len() && local[x] && nodes[x].kind == GraphNodeKind::Document
            },
        forall|k: int, m: int|
            0 <= k < m < ranked_targets(nodes, local, scores).len() ==> scores[#[trigger] ranked_targets(
                nodes,
                local,
                scores,
            )[k]] >= scores[#[trigger] ranked_targets(nodes, local, scores)[m]],
{
    let at = target_places(nodes, local, nodes.len() as int);
    let keys = target_keys(nodes, scores, at);
    let n = at.len() as int;
    let by_score = order::ordered(keys, n);
    let ranked = ranked_targets(nodes, local, scores);
    targets_rise(nodes, local, nodes.len() as int);
    order::ordered_is_complete(keys, n);
    assert(order::one_shape(keys));
    order::ordered_is_sorted(keys, n);
    assert forall|k: int, m: int| 0 <= k < m < n implies scores[#[trigger] ranked[k]]
        >= scores[#[trigger] ranked[m]] && ranked[k] != ranked[m] by {
        let (x, y) = (by_score[k], by_score[m]);
        assert(x != y);
        assert(keys[x][0] == order::PartModel::Down(scores[at[x]]));
        assert(keys[y][0] == order::PartModel::Down(scores[at[y]]));
        assert(!order::key_lt(keys[y], keys[x], 0));
        assert(at[x] != at[y]);
    }
}

/// What a walk shows: ranks rise, no document is shown twice, scores never rise,
/// and every path leads from the node of its seed to that of its document over
/// at most `depth` edges.
pub proof fn walked_results_are_ranked<'a>(
    r: GraphRecallResult,
    w: &Walk<'a>,
    local: Seq<bool>,
    scores: Seq<u64>,
    masses: Seq<u64>,
    qualities: Seq<Vec<u64>>,
    converged: bool,
)
    requires
        w.wf(),
        local.len() == w.nodes@.len(),
        scores.len() == w.nodes@.len(),
        order::indices(w.targets@) == ranked_targets(w.nodes@, local, scores),
        forall|x: int, y: int|
            0 <= x < y < w.nodes@.len() && (#[trigger] w.nodes@[x]).kind == GraphNodeKind::Document
                && (#[trigger] w.nodes@[y]).kind == GraphNodeKind::Document
                ==> w.nodes@[x].source_id@ != w.nodes@[y].source_id@,
        walk_concluded(r, w, scores, masses, qualities, converged),
    ensures
        forall|k: int, m: int|
            0 <= k < m < r.paths@.len() ==> {
                let (a, b) = (#[trigger] r.paths@[k], #[trigger] r.paths@[m]);
                &&& a.target_rank < b.target_rank
                &&& a.target_document_id@ != b.target_document_id@
                &&& a.score_bits >= b.score_bits
            },
        forall|k: int|
            0 <= k < r.paths@.len() ==> {
                let x = #[trigger] r.paths@[k];
                &&& x.edge_ids@.len() <= w.depth
                &&& x.edge_types@.len() == x.edge_ids@.len()
                &&& x.node_ids@.len() == x.edge_ids@.len() + 1
                &&& x.node_ids@[0]@ == x.seed_node_id@
            },
{
    let n = w.targets@.len() as int;
    let at = w.shown(n);
    let ranked = ranked_targets(w.nodes@, local, scores);
    shown_rise(w, n);
    ranked_targets_descend(w.nodes@, local, scores);
    assert forall|k: int, m: int| 0 <= k < m < r.paths@.len() implies {
        let (a, b) = (#[trigger] r.paths@[k], #[trigger] r.paths@[m]);
        &&& a.target_rank < b.target_rank
        &&& a.target_document_id@ != b.target_document_id@
        &&& a.score_bits >= b.score_bits
    } by {
        let (i, j) = (at[k], at[m]);
        assert(entry_shown(r.paths@[k], w, scores, masses, qualities, i));
        assert(entry_shown(r.paths@[m], w, scores, masses, qualities, j));
        assert(ranked[i] == w.targets@[i] && ranked[j] == w.targets@[j]);
        assert(measured(r.paths@[k]).score_bits == scores[ranked[i]]);
        assert(measured(r.paths@[m]).score_bits == scores[ranked[j]]);
        assert(ranked[i] != ranked[j]);
        if ranked[i] < ranked[j] {
            assert(w.nodes@[ranked[i]].source_id@ != w.nodes@[ranked[j]].source_id@);
        } else {
            assert(w.nodes@[ranked[j]].source_id@ != w.nodes@[ranked[i]].source_id@);
        }
    }
    assert forall|k: int| 0 <= k < r.paths@.len() implies {
        let x = #[trigger] r.paths@[k];
        &&& x.edge_ids@.len() <= w.depth
        &&& x.edge_types@.len() == x.edge_ids@.len()
        &&& x.node_ids@.len() == x.edge_ids@.len() + 1
        &&& x.node_ids@[0]@ == x.seed_node_id@
    } by {
        let x = r.paths@[k];
        let i = at[k];
        assert(entry_shown(x, w, scores, masses, qualities, i));
        let b = w.best(qualities, i)->0;
        let p = w.paths(i)[b];
        let places = order::indices(w.places@);
        listed_paths_fit(
            w.steps@,
            places,
            w.targets@[i] as int,
            w.depth as nat,
            places.len() as int,
            w.nodes@.len(),
        );
        assert(path_holds(
            p,
            w.steps@,
            p.seed,
            places[p.seed],
            w.targets@[i] as int,
            w.depth as nat,
        ));
        assert(text::texts(x.edge_ids@).len() == p.edges.len());
        assert(text::texts(x.edge_types@).len() == p.edges.len());
        assert(text::texts(x.node_ids@).len() == p.nodes.len());
        assert(text::texts(x.node_ids@)[0] == w.nodes@[p.nodes[0]].id@);
    }
}

proof fn found_node_fits(v: Seq<GraphNode>, id: Seq<char>, n: int)
    requires
        0 <= n <= v.len(),
    ensures
        node_at(v, id, n) matches Some(p) ==> 0 <= p < n && v[p].id@ == id,
    decreases n,
{
    if n > 0 {
        found_node_fits(v, id, n - 1);
    }
}

proof fn placed_seeds_are_in_scope(
    seeds: Seq<GraphRecallSeed>,
    nodes: Seq<GraphNode>,
    scope: Option<&str>,
    n: int,
)
    requires
        0 <= n <= seeds.len(),
    ensures
        seed_places(seeds, nodes, scope, n) matches Ok(v) ==> v.len() == n && (forall|i: int|
            0 <= i < n ==> 0 <= #[trigger] v[i] < nodes.len() && in_scope(nodes[v[i]], scope)),
    decreases n,
{
    if n > 0 {
        placed_seeds_are_in_scope(seeds, nodes, scope, n - 1);
        found_node_fits(nodes, seed_node_id(seeds[n - 1]), nodes.len() as int);
    }
}

proof fn used_edges_are_in_scope(
    edges: Seq<GraphEdge>,
    nodes: Seq<GraphNode>,
    scope: Option<&str>,
    n: int,
)
    requires
        0 <= n <= edges.len(),
        nodes.len() <= usize::MAX,
    ensures
        steps_of(edges, nodes, scope, n) matches Ok(v) ==> v.len() == n && (forall|e: int|
            0 <= e < n && (#[trigger] v[e]).usable ==> in_scope(nodes[v[e].source as int], scope)
                && in_scope(nodes[v[e].target as int], scope)),
    decreases n,
{
    if n > 0 {
        used_edges_are_in_scope(edges, nodes, scope, n - 1);
        found_node_fits(nodes, edges[n - 1].source@, nodes.len() as int);
        found_node_fits(nodes, edges[n - 1].target@, nodes.len() as int);
    }
}

proof fn path_stays_in_scope(
    p: PathModel,
    steps: Seq<Step>,
    nodes: Seq<GraphNode>,
    scope: Option<&str>,
    target: int,
    depth: nat,
    k: int,
)
    requires
        p.nodes.len() > 0,
        path_holds(p, steps, p.seed, p.nodes[0], target, depth),
        in_scope(nodes[p.nodes[0]], scope),
        forall|e: int|
            0 <= e < steps.len() && (#[trigger] steps[e]).usable ==> in_scope(
                nodes[steps[e].source as int],
                scope,
            ) && in_scope(nodes[steps[e].target as int], scope),
        0 <= k < p.nodes.len(),
    ensures
        in_scope(nodes[p.nodes[k]], scope),
    decreases k,
{
    if k > 0 {
        path_stays_in_scope(p, steps, nodes, scope, target, depth, k - 1);
        let e = p.edges[k - 1];
        assert(steps[e].usable && across(steps[e], p.nodes[k - 1]) == p.nodes[k - 1 + 1]);
    }
}

/// A walk that is limited to a session shows documents of that session only, and
/// its paths lead over nodes of that session and entities.
pub proof fn limited_walks_stay_in_their_session<'a>(
    r: GraphRecallResult,
    w: &Walk<'a>,
    session: &str,
    local: Seq<bool>,
    scores: Seq<u64>,
    masses: Seq<u64>,
    qualities: Seq<Vec<u64>>,
    converged: bool,
)
    requires
        w.wf(),
        local.len() == w.nodes@.len(),
        scores.len() == w.nodes@.len(),
        seed_places(w.seeds@, w.nodes@, Some(session), w.seeds@.len() as int) == Ok::<
            Seq<int>,
            Seq<char>,
        >(order::indices(w.places@)),
        steps_of(w.edges@, w.nodes@, Some(session), w.edges@.len() as int) == Ok::<
            Seq<Step>,
            Seq<char>,
        >(w.steps@),
        order::indices(w.targets@) == ranked_targets(w.nodes@, local, scores),
        walk_concluded(r, w, scores, masses, qualities, converged),
    ensures
        forall|k: int|
            0 <= k < r.paths@.len() ==> (#[trigger] r.paths@[k]).target_session_id@ == session@,
        forall|k: int, j: int|
            0 <= k < r.paths@.len() && 0 <= j < r.paths@[k].node_ids@.len() ==> exists|x: int|
                0 <= x < w.nodes@.len() && (#[trigger] w.nodes@[x]).id@ == (
                #[trigger] r.paths@[k].node_ids@[j])@ && in_scope(w.nodes@[x], Some(session)),
{
    let scope = Some(session);
    let at = w.shown(w.targets@.len() as int);
    let places = order::indices(w.places@);
    assert(w.nodes@.len() == w.nodes.len());
    placed_seeds_are_in_scope(w.seeds@, w.nodes@, scope, w.seeds@.len() as int);
    used_edges_are_in_scope(w.edges@, w.nodes@, scope, w.edges@.len() as int);
    ranked_targets_descend(w.nodes@, local, scores);
    shown_rise(w, w.targets@.len() as int);
    assert forall|k: int| 0 <= k < r.paths@.len() implies (
    #[trigger] r.paths@[k]).target_session_id@ == session@ && (forall|j: int|
        0 <= j < r.paths@[k].node_ids@.len() ==> exists|x: int|
            0 <= x < w.nodes@.len() && (#[trigger] w.nodes@[x]).id@ == (
            #[trigger] r.paths@[k].node_ids@[j])@ && in_scope(w.nodes@[x], scope)) by {
        let x = r.paths@[k];
        let i = at[k];
        assert(entry_shown(x, w, scores, masses, qualities, i));
        let target = w.targets@[i] as int;
        let p = w.paths(i)[w.best(qualities, i)->0];
        listed_paths_fit(
            w.steps@,
            places,
            target,
            w.depth as nat,
            places.len() as int,
            w.nodes@.len(),
        );
        assert(path_holds(p, w.steps@, p.seed, places[p.seed], target, w.depth as nat));
        assert(in_scope(w.nodes@[places[p.seed]], scope));
        path_stays_in_scope(
            p,
            w.steps@,
            w.nodes@,
            scope,
            target,
            w.depth as nat,
            p.nodes.len() - 1,
        );
        assert(order::indices(w.targets@)[i] == target);
        assert(w.nodes@[target].kind == GraphNodeKind::Document);
        let ids = Seq::new(p.nodes.len(), |j: int| w.nodes@[p.nodes[j]].id@);
        assert(text::texts(x.node_ids@) == ids);
        assert(text::texts(x.node_ids@).len() == p.nodes.len());
        assert forall|j: int| 0 <= j < x.node_ids@.len() implies exists|y: int|
            0 <= y < w.nodes@.len() && (#[trigger] w.nodes@[y]).id@ == (
            #[trigger] x.node_ids@[j])@ && in_scope(w.nodes@[y], scope) by {
            assert(text::texts(x.node_ids@)[j] == x.node_ids@[j]@);
            path_stays_in_scope(p, w.steps@, w.nodes@, scope, target, w.depth as nat, j);
            assert(ids[j] == x.node_ids@[j]@);
        }
    }
}

/// Paths whose nodes stand between their edges and at both ends.
pub open spec fn paths_are_chains(paths: Seq<PathModel>) -> bool {
    forall|i: int|
        0 <= i < paths.len() ==> (#[trigger] paths[i]).nodes.len() == paths[i].edges.len() + 1
            && paths[i].edges.len() <= u64::MAX
}

proof fn path_keys_are_ordered(
    p: PathModel,
    q: PathModel,
    o: PathModel,
    seeds: Seq<GraphRecallSeed>,
    nodes: Seq<GraphNode>,
    edges: Seq<GraphEdge>,
)
    requires
        paths_are_chains(seq![p, q, o]),
    ensures
        ({
            let (a, b, c) = (
                path_key(p, seeds, nodes, edges),
                path_key(q, seeds, nodes, edges),
                path_key(o, seeds, nodes, edges),
            );
            &&& !(order::key_lt(a, b, 0) && order::key_lt(b, a, 0))
            &&& !order::key_lt(a, b, 0) && !order::key_lt(b, c, 0) ==> !order::key_lt(a, c, 0)
        }),
{
    let all = seq![p, q, o];
    assert(all[0] == p && all[1] == q && all[2] == o);
    let (a, b, c) = (
        path_key(p, seeds, nodes, edges),
        path_key(q, seeds, nodes, edges),
        path_key(o, seeds, nodes, edges),
    );
    assert(a[0] == order::PartModel::Up(p.edges.len() as u64));
    assert(b[0] == order::PartModel::Up(q.edges.len() as u64));
    assert(c[0] == order::PartModel::Up(o.edges.len() as u64));
    if p.edges.len() == q.edges.len() {
        assert(order::same_shape(a, b));
        if q.edges.len() == o.edges.len() {
            assert(order::same_shape(b, c));
            order::key_facts(a, b, c, 0);
        } else {
            order::key_facts(a, b, a, 0);
        }
    } else if q.edges.len() == o.edges.len() {
        assert(order::same_shape(b, c));
    }
}

/// That no path of the same quality comes before another one.
spec fn first_of_equals(
    paths: Seq<PathModel>,
    qualities: Seq<u64>,
    seeds: Seq<GraphRecallSeed>,
    nodes: Seq<GraphNode>,
    edges: Seq<GraphEdge>,
    b: int,
    n: int,
) -> bool {
    forall|i: int|
        0 <= i < n && #[trigger] qualities[i] == qualities[b] ==> !order::key_lt(
            path_key(paths[i], seeds, nodes, edges),
            path_key(paths[b], seeds, nodes, edges),
            0,
        )
}

proof fn best_of_first(
    paths: Seq<PathModel>,
    qualities: Seq<u64>,
    seeds: Seq<GraphRecallSeed>,
    nodes: Seq<GraphNode>,
    edges: Seq<GraphEdge>,
    n: int,
)
    requires
        0 < n <= paths.len(),
        qualities.len() == paths.len(),
        paths_are_chains(paths),
    ensures
        best_path(paths, qualities, seeds, nodes, edges, n) matches Some(b) && 0 <= b < n && (
        forall|i: int| 0 <= i < n ==> #[trigger] qualities[i] <= qualities[b]) && first_of_equals(
            paths,
            qualities,
            seeds,
            nodes,
            edges,
            b,
            n,
        ),
    decreases n,
{
    if n == 1 {
        path_keys_are_ordered(paths[0], paths[0], paths[0], seeds, nodes, edges);
        assert(best_path(paths, qualities, seeds, nodes, edges, 0) is None);
    } else {
        best_of_first(paths, qualities, seeds, nodes, edges, n - 1);
        let before = best_path(paths, qualities, seeds, nodes, edges, n - 1)->0;
        let b = best_path(paths, qualities, seeds, nodes, edges, n)->0;
        let x = paths[n - 1];
        path_keys_are_ordered(x, x, x, seeds, nodes, edges);
        assert forall|i: int| 0 <= i < n && #[trigger] qualities[i] == qualities[b] implies !order::key_lt(
            path_key(paths[i], seeds, nodes, edges),
            path_key(paths[b], seeds, nodes, edges),
            0,
        ) by {
            if i < n - 1 {
                path_keys_are_ordered(paths[i], paths[before], x, seeds, nodes, edges);
                path_keys_are_ordered(x, paths[before], paths[i], seeds, nodes, edges);
            }
        }
    }
}

/// The path that is chosen: no path has a higher quality. Of the paths with the
/// same quality none is shorter; of those none comes from a better channel, words
/// before vectors and both before all else; and of those from the same channel
/// none begins at a node, comes from a source or takes a first edge with a
/// smaller id.
pub proof fn chosen_paths_are_best(
    paths: Seq<PathModel>,
    qualities: Seq<u64>,
    seeds: Seq<GraphRecallSeed>,
    nodes: Seq<GraphNode>,
    edges: Seq<GraphEdge>,
)
    requires
        paths.len() > 0,
        qualities.len() == paths.len(),
        paths_are_chains(paths),
    ensures
        best_path(paths, qualities, seeds, nodes, edges, paths.len() as int) matches Some(b) && 0
            <= b < paths.len() && forall|i: int|
            0 <= i < paths.len() ==> {
                let (p, q) = (paths[b], paths[i]);
                let (c, d) = (seeds[p.seed].channel, seeds[q.seed].channel);
                &&& #[trigger] qualities[i] <= qualities[b]
                &&& qualities[i] == qualities[b] ==> {
                    &&& p.edges.len() <= q.edges.len()
                    &&& p.edges.len() == q.edges.len() && d == RetrievalChannel::Bm25 ==> c
                        == RetrievalChannel::Bm25
                    &&& p.edges.len() == q.edges.len() && d == RetrievalChannel::Vector ==> c
                        == RetrievalChannel::Bm25 || c == RetrievalChannel::Vector
                    &&& p.edges.len() == q.edges.len() && c == d ==> {
                        &&& !text::text_lt(nodes[q.nodes[0]].id@, nodes[p.nodes[0]].id@)
                        &&& nodes[q.nodes[0]].id@ == nodes[p.nodes[0]].id@ ==> {
                            &&& !text::text_lt(seeds[q.seed].source_id@, seeds[p.seed].source_id@)
                            &&& seeds[q.seed].source_id@ == seeds[p.seed].source_id@
                                && p.edges.len() > 0 ==> !text::text_lt(
                                edges[q.edges[0]].id@,
                                edges[p.edges[0]].id@,
                            )
                        }
                    }
                }
            },
{
    let n = paths.len() as int;
    best_of_first(paths, qualities, seeds, nodes, edges, n);
    let b = best_path(paths, qualities, seeds, nodes, edges, n)->0;
    let p = paths[b];
    assert forall|i: int| 0 <= i < n && #[trigger] qualities[i] == qualities[b] implies {
        let q = paths[i];
        let (c, d) = (seeds[p.seed].channel, seeds[q.seed].channel);
        &&& p.edges.len() <= q.edges.len()
        &&& p.edges.len() == q.edges.len() && d == RetrievalChannel::Bm25 ==> c
            == RetrievalChannel::Bm25
        &&& p.edges.len() == q.edges.len() && d == RetrievalChannel::Vector ==> c
            == RetrievalChannel::Bm25 || c == RetrievalChannel::Vector
        &&& p.edges.len() == q.edges.len() && c == d ==> {
            &&& !text::text_lt(nodes[q.nodes[0]].id@, nodes[p.nodes[0]].id@)
            &&& nodes[q.nodes[0]].id@ == nodes[p.nodes[0]].id@ ==> {
                &&& !text::text_lt(seeds[q.seed].source_id@, seeds[p.seed].source_id@)
                &&& seeds[q.seed].source_id@ == seeds[p.seed].source_id@ && p.edges.len() > 0
                    ==> !text::text_lt(edges[q.edges[0]].id@, edges[p.edges[0]].id@)
            }
        }
    } by {
        let q = paths[i];
        let (k, l) = (path_key(q, seeds, nodes, edges), path_key(p, seeds, nodes, edges));
        assert(!order::key_lt(k, l, 0));
        reveal_with_fuel(order::key_lt, 6);
        assert(k[0] == order::PartModel::Up(q.edges.len() as u64));
        assert(l[0] == order::PartModel::Up(p.edges.len() as u64));
        assert(k[1] == order::PartModel::Up(channel_priority(seeds[q.seed].channel)));
        assert(l[1] == order::PartModel::Up(channel_priority(seeds[p.seed].channel)));
        assert(k[2] == order::PartModel::Text(nodes[q.nodes[0]].id@));
        assert(l[2] == order::PartModel::Text(nodes[p.nodes[0]].id@));
        assert(k[3] == order::PartModel::Text(seeds[q.seed].source_id@));
        assert(l[3] == order::PartModel::Text(seeds[p.seed].source_id@));
        text::text_lt_irreflexive(nodes[p.nodes[0]].id@);
        text::text_lt_irreflexive(seeds[p.seed].source_id@);
        if p.edges.len() > 0 && q.edges.len() > 0 {
            assert(k[4] == order::PartModel::Text(edges[q.edges[0]].id@));
            assert(l[4] == order::PartModel::Text(edges[p.edges[0]].id@));
        }
    }
}

/// What is shown for a document is the best that leads to it: no path to it from
/// any seed has a higher quality, and none of the same quality is shorter.
pub proof fn shown_paths_are_best<'a>(
    r: GraphRecallResult,
    w: &Walk<'a>,
    scores: Seq<u64>,
    masses: Seq<u64>,
    qualities: Seq<Vec<u64>>,
    converged: bool,
    k: int,
)
    requires
        w.wf(),
        qualities.len() == w.targets@.len(),
        forall|i: int|
            0 <= i < qualities.len() ==> (#[trigger] qualities[i])@.len() == w.paths(i).len(),
        walk_concluded(r, w, scores, masses, qualities, converged),
        0 <= k < r.paths@.len(),
    ensures
        ({
            let x = r.paths@[k];
            let t = x.target_rank - 1;
            &&& 0 <= t < w.targets@.len()
            &&& x.target_document_id@ == w.nodes@[w.targets@[t] as int].source_id@
            &&& forall|j: int|
                0 <= j < w.paths(t).len() ==> {
                    let p = #[trigger] w.paths(t)[j];
                    &&& qualities[t]@[j] <= x.quality_bits
                    &&& qualities[t]@[j] == x.quality_bits ==> x.edge_ids@.len() <= p.edges.len()
                }
        }),
{
    let at = w.shown(w.targets@.len() as int);
    shown_rise(w, w.targets@.len() as int);
    let t = at[k];
    let x = r.paths@[k];
    assert(entry_shown(x, w, scores, masses, qualities, t));
    let places = order::indices(w.places@);
    assert(qualities[t]@.len() == w.paths(t).len());
    listed_paths_fit(
        w.steps@,
        places,
        w.targets@[t] as int,
        w.depth as nat,
        places.len() as int,
        w.nodes@.len(),
    );
    assert forall|i: int| 0 <= i < w.paths(t).len() implies (#[trigger] w.paths(t)[i]).nodes.len()
        == w.paths(t)[i].edges.len() + 1 && w.paths(t)[i].edges.len() <= u64::MAX by {
        let p = w.paths(t)[i];
        assert(path_holds(
            p,
            w.steps@,
            p.seed,
            places[p.seed],
            w.targets@[t] as int,
            w.depth as nat,
        ));
    }
    chosen_paths_are_best(w.paths(t), qualities[t]@, w.seeds@, w.nodes@, w.edges@);
    let b = w.best(qualities, t)->0;
    assert(text::texts(x.edge_ids@).len() == w.paths(t)[b].edges.len());
    assert(measured(x).quality_bits == qualities[t]@[b]);
}

proof fn touching_is_complete(steps: Seq<Step>, x: int, n: int, e: int)
    requires
        0 <= e < n <= steps.len(),
        steps[e].usable,
        steps[e].source == x || steps[e].target == x,
    ensures
        touching(steps, x, n).contains(e),
    decreases n,
{
    let rest = touching(steps, x, n - 1);
    let all = touching(steps, x, n);
    if e == n - 1 {
        assert(all[all.len() - 1] == e);
    } else {
        touching_is_complete(steps, x, n - 1, e);
        let k = choose|k: int| 0 <= k < rest.len() && rest[k] == e;
        assert(all[k] == e);
    }
}

proof fn longer_paths_are_listed(
    steps: Seq<Step>,
    seed: int,
    a: int,
    target: int,
    first: int,
    n: int,
    k: int,
)
    requires
        0 <= k < n <= incident(steps, across(steps[first], a)).len(),
        across(steps[incident(steps, across(steps[first], a))[k]], across(steps[first], a))
            == target,
        target != a,
    ensures
        ({
            let mid = across(steps[first], a);
            longer_paths(steps, seed, a, target, first, n).contains(
                PathModel {
                    seed,
                    edges: seq![first, incident(steps, mid)[k]],
                    nodes: seq![a, mid, target],
                },
            )
        }),
    decreases n,
{
    let mid = across(steps[first], a);
    let p = PathModel {
        seed,
        edges: seq![first, incident(steps, mid)[k]],
        nodes: seq![a, mid, target],
    };
    let all = longer_paths(steps, seed, a, target, first, n);
    if k == n - 1 {
        assert(all[all.len() - 1] == p);
    } else {
        longer_paths_are_listed(steps, seed, a, target, first, n - 1, k);
        let rest = longer_paths(steps, seed, a, target, first, n - 1);
        let i = choose|i: int| 0 <= i < rest.len() && rest[i] == p;
        assert(all[i] == p);
    }
}

proof fn first_edges_are_tried(
    steps: Seq<Step>,
    seed: int,
    a: int,
    target: int,
    depth: nat,
    n: int,
    k: int,
    p: PathModel,
)
    requires
        0 <= k < n <= incident(steps, a).len(),
        paths_by(steps, seed, a, target, depth, incident(steps, a)[k]).contains(p),
    ensures
        paths_by_first(steps, seed, a, target, depth, n).contains(p),
    decreases n,
{
    let rest = paths_by_first(steps, seed, a, target, depth, n - 1);
    let own = paths_by(steps, seed, a, target, depth, incident(steps, a)[n - 1]);
    let all = paths_by_first(steps, seed, a, target, depth, n);
    if k == n - 1 {
        let i = choose|i: int| 0 <= i < own.len() && own[i] == p;
        assert(all[rest.len() + i] == p);
    } else {
        first_edges_are_tried(steps, seed, a, target, depth, n - 1, k, p);
        let i = choose|i: int| 0 <= i < rest.len() && rest[i] == p;
        assert(all[i] == p);
    }
}

proof fn paths_from_are_complete(
    steps: Seq<Step>,
    seed: int,
    a: int,
    target: int,
    depth: nat,
    p: PathModel,
)
    requires
        1 <= depth <= 2,
        path_holds(p, steps, seed, a, target, depth),
    ensures
        paths_from(steps, seed, a, target, depth).contains(p),
{
    let all = paths_from(steps, seed, a, target, depth);
    let n = incident(steps, a).len() as int;
    let rest = paths_by_first(steps, seed, a, target, depth, n);
    let still: int = if a == target {
        1
    } else {
        0
    };
    if p.edges.len() == 0 {
        assert(p.edges =~= Seq::empty());
        assert(p.nodes =~= seq![a]);
        assert(all[0] == p);
    } else {
        let first = p.edges[0];
        let mid = across(steps[first], a);
        assert(p.nodes[0int + 1] == mid);
        touching_is_complete(steps, a, steps.len() as int, first);
        let k = choose|k: int| 0 <= k < n && incident(steps, a)[k] == first;
        let own = paths_by(steps, seed, a, target, depth, first);
        if p.edges.len() == 1 {
            assert(p.edges =~= seq![first]);
            assert(p.nodes =~= seq![a, mid]);
            assert(own[0] == p);
        } else {
            let second = p.edges[1];
            assert(p.nodes[1int + 1] == target);
            touching_is_complete(steps, mid, steps.len() as int, second);
            let m = incident(steps, mid).len() as int;
            let j = choose|j: int| 0 <= j < m && incident(steps, mid)[j] == second;
            longer_paths_are_listed(steps, seed, a, target, first, m, j);
            let q = longer_paths(steps, seed, a, target, first, m);
            assert(p.edges =~= seq![first, second]);
            assert(p.nodes =~= seq![a, mid, target]);
            let i = choose|i: int| 0 <= i < q.len() && q[i] == p;
            let short: int = if mid == target {
                1
            } else {
                0
            };
            assert(own[short + i] == p);
        }
        first_edges_are_tried(steps, seed, a, target, depth, n, k, p);
        let i = choose|i: int| 0 <= i < rest.len() && rest[i] == p;
        assert(all[still + i] == p);
    }
}

/// No path is passed over: whatever leads from the place of a seed to a document
/// over at most `depth` edges that are used is listed.
pub proof fn every_path_is_listed(
    steps: Seq<Step>,
    places: Seq<int>,
    target: int,
    depth: nat,
    n: int,
    p: PathModel,
)
    requires
        1 <= depth <= 2,
        0 <= p.seed < n <= places.len(),
        path_holds(p, steps, p.seed, places[p.seed], target, depth),
    ensures
        paths_to(steps, places, target, depth, n).contains(p),
    decreases n,
{
    let rest = paths_to(steps, places, target, depth, n - 1);
    let own = paths_from(steps, n - 1, places[n - 1], target, depth);
    let all = paths_to(steps, places, target, depth, n);
    if p.seed == n - 1 {
        paths_from_are_complete(steps, n - 1, places[n - 1], target, depth, p);
        let i = choose|i: int| 0 <= i < own.len() && own[i] == p;
        assert(all[rest.len() + i] == p);
    } else {
        every_path_is_listed(steps, places, target, depth, n - 1, p);
        let i = choose|i: int| 0 <= i < rest.len() && rest[i] == p;
        assert(all[i] == p);
    }
}

proof fn a_joining_edge(steps: Seq<Step>, start: Seq<bool>, x: int, d: nat) -> (e: int)
    requires
        d > 0,
        reached(steps, start, x, d),
        !reached(steps, start, x, (d - 1) as nat),
    ensures
        0 <= e < steps.len(),
        joins(steps, start, x, e, (d - 1) as nat),
{
    let less = (d - 1) as nat;
    choose|e: int|
        0 <= e < steps.len() && (#[trigger] steps[e]).usable && ((steps[e].source == x && reached(
            steps,
            start,
            steps[e].target as int,
            less,
        )) || (steps[e].target == x && reached(steps, start, steps[e].source as int, less)))
}

proof fn listed_from(
    steps: Seq<Step>,
    places: Seq<int>,
    x: int,
    depth: nat,
    s: int,
    edges: Seq<int>,
    nodes: Seq<int>,
)
    requires
        1 <= depth <= 2,
        0 <= s < places.len(),
        path_holds(PathModel { seed: s, edges, nodes }, steps, s, places[s], x, depth),
    ensures
        paths_to(steps, places, x, depth, places.len() as int).len() > 0,
{
    let p = PathModel { seed: s, edges, nodes };
    every_path_is_listed(steps, places, x, depth, places.len() as int, p);
}

/// A node lies near the seeds exactly when some path leads to it: what a walk
/// ranks and what it shows are the same documents.
pub proof fn near_nodes_have_paths(
    steps: Seq<Step>,
    places: Seq<int>,
    nodes: nat,
    x: int,
    depth: nat,
)
    requires
        1 <= depth <= 2,
        0 <= x < nodes,
        steps_fit(steps, nodes),
        forall|i: int| 0 <= i < places.len() ==> 0 <= #[trigger] places[i] < nodes,
    ensures
        reached(steps, starts_at(places, nodes), x, depth) <==> paths_to(
            steps,
            places,
            x,
            depth,
            places.len() as int,
        ).len() > 0,
{
    let start = starts_at(places, nodes);
    let all = paths_to(steps, places, x, depth, places.len() as int);
    if all.len() > 0 {
        listed_paths_fit(steps, places, x, depth, places.len() as int, nodes);
        let p = all[0];
        let a = places[p.seed];
        assert(path_holds(p, steps, p.seed, a, x, depth));
        assert(start[a]);
        assert(reached(steps, start, a, 0));
        if p.edges.len() == 0 {
            reach_grows(steps, start, x, 0, depth);
        } else {
            let e = p.edges[0];
            let mid = p.nodes[0int + 1];
            assert(steps[e].usable && across(steps[e], a) == mid);
            assert(reached(steps, start, mid, 1));
            if p.edges.len() == 1 {
                reach_grows(steps, start, x, 1, depth);
            } else {
                let f = p.edges[1];
                assert(steps[f].usable && across(steps[f], mid) == p.nodes[1int + 1]);
                assert(reached(steps, start, x, 2));
            }
        }
    }
    if reached(steps, start, x, depth) {
        if reached(steps, start, x, 0) {
            assert(places.contains(x));
            let s = choose|s: int| 0 <= s < places.len() && places[s] == x;
            listed_from(steps, places, x, depth, s, Seq::empty(), seq![x]);
        } else if reached(steps, start, x, 1) {
            let e = a_joining_edge(steps, start, x, 1);
            let a: int = if steps[e].source == x && reached(
                steps,
                start,
                steps[e].target as int,
                0,
            ) {
                steps[e].target as int
            } else {
                steps[e].source as int
            };
            assert(places.contains(a));
            let s = choose|s: int| 0 <= s < places.len() && places[s] == a;
            listed_from(steps, places, x, depth, s, seq![e], seq![a, x]);
        } else {
            let f = a_joining_edge(steps, start, x, 2);
            let mid: int = if steps[f].source == x && reached(
                steps,
                start,
                steps[f].target as int,
                1,
            ) {
                steps[f].target as int
            } else {
                steps[f].source as int
            };
            if reached(steps, start, mid, 0) {
                assert(joins(steps, start, x, f, 0));
                assert(reached(steps, start, x, 1));
            }
            let e = a_joining_edge(steps, start, mid, 1);
            let a: int = if steps[e].source == mid && reached(
                steps,
                start,
                steps[e].target as int,
                0,
            ) {
                steps[e].target as int
            } else {
                steps[e].source as int
            };
            assert(places.contains(a));
            let s = choose|s: int| 0 <= s < places.len() && places[s] == a;
            listed_from(steps, places, x, depth, s, seq![e, f], seq![a, mid, x]);
        }
    }
}

proof fn near_documents_are_places(nodes: Seq<GraphNode>, local: Seq<bool>, n: int, x: int)
    requires
        0 <= x < n <= nodes.len(),
        local.len() == nodes.len(),
        local[x],
        nodes[x].kind == GraphNodeKind::Document,
    ensures
        target_places(nodes, local, n).contains(x),
    decreases n,
{
    let rest = target_places(nodes, local, n - 1);
    let all = target_places(nodes, local, n);
    if x == n - 1 {
        assert(all[all.len() - 1] == x);
    } else {
        near_documents_are_places(nodes, local, n - 1, x);
        let k = choose|k: int| 0 <= k < rest.len() && rest[k] == x;
        assert(all[k] == x);
    }
}

/// Every document near the seeds is ranked, and nothing else is; of two with the
/// same score the one with the smaller id stands first.
pub proof fn rankings_hold_what_is_near(
    nodes: Seq<GraphNode>,
    local: Seq<bool>,
    scores: Seq<u64>,
)
    requires
        local.len() == nodes.len(),
        scores.len() == nodes.len(),
    ensures
        forall|x: int|
            #[trigger] ranked_targets(nodes, local, scores).contains(x) <==> 0 <= x < nodes.len()
                && local[x] && nodes[x].kind == GraphNodeKind::Document,
        forall|k: int, m: int|
            0 <= k < m < ranked_targets(nodes, local, scores).len() ==> {
                let x = #[trigger] ranked_targets(nodes, local, scores)[k];
                let y = #[trigger] ranked_targets(nodes, local, scores)[m];
                scores[x] == scores[y] ==> !text::text_lt(
                    nodes[y].source_id@,
                    nodes[x].source_id@,
                )
            },
{
    let at = target_places(nodes, local, nodes.len() as int);
    let keys = target_keys(nodes, scores, at);
    let n = at.len() as int;
    let by_score = order::ordered(keys, n);
    let ranked = ranked_targets(nodes, local, scores);
    ranked_targets_descend(nodes, local, scores);
    order::ordered_is_complete(keys, n);
    assert(order::one_shape(keys));
    order::ordered_is_sorted(keys, n);
    assert forall|x: int| 0 <= x < nodes.len() && local[x] && nodes[x].kind
        == GraphNodeKind::Document implies #[trigger] ranked.contains(x) by {
        near_documents_are_places(nodes, local, nodes.len() as int, x);
        let k = choose|k: int| 0 <= k < n && at[k] == x;
        assert(by_score.contains(k));
        let m = choose|m: int| 0 <= m < n && by_score[m] == k;
        assert(ranked[m] == x);
    }
    assert forall|k: int, m: int| 0 <= k < m < n implies {
        let x = #[trigger] ranked[k];
        let y = #[trigger] ranked[m];
        scores[x] == scores[y] ==> !text::text_lt(nodes[y].source_id@, nodes[x].source_id@)
    } by {
        let (i, j) = (by_score[k], by_score[m]);
        assert(!order::key_lt(keys[j], keys[i], 0));
        assert(keys[i][0] == order::PartModel::Down(scores[at[i]]));
        assert(keys[j][0] == order::PartModel::Down(scores[at[j]]));
        assert(keys[i][1] == order::PartModel::Text(nodes[at[i]].source_id@));
        assert(keys[j][1] == order::PartModel::Text(nodes[at[j]].source_id@));
        reveal_with_fuel(order::key_lt, 3);
    }
}

} // verus!
