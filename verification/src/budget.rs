//! Sharing out the input tokens of a turn between recent history and recalled
//! evidence.

use vstd::prelude::*;
use vstd::string::*;

use crate::digest::{self, content_sha256};
use crate::model::{
    self, copy_list, same_span, BudgetBucket, BudgetExclusionTrace, BudgetTokenBreakdown,
    EvidenceKind, FusionCandidate,
    GraphPathTrace, RecallResult, RecalledEvidence, RetrievalConfig, RetrievalDocumentGranularity,
    RetrievalTrace, SelectedEvidence, SourceSpan, StateSelection,
};
use crate::text::{
    self, contains_text, join, push_decimal, sorted_set, starts_with, text_eq,
};

verus! {

/// Evidence that is taken or left as a whole.
#[derive(Clone, Debug)]
pub struct BudgetEvidenceGroup {
    pub id: String,
    pub bucket: BudgetBucket,
    pub order: usize,
    pub evidence: Vec<RecalledEvidence>,
}

/// A group by what it is, without its position.
pub struct GroupModel {
    pub id: Seq<char>,
    pub bucket: BudgetBucket,
    pub evidence: Seq<RecalledEvidence>,
}

pub open spec fn group_models(groups: Seq<BudgetEvidenceGroup>) -> Seq<GroupModel> {
    Seq::new(
        groups.len(),
        |i: int|
            GroupModel {
                id: groups[i].id@,
                bucket: groups[i].bucket,
                evidence: groups[i].evidence@,
            },
    )
}

pub open spec fn bucket_text(bucket: BudgetBucket) -> Seq<char> {
    match bucket {
        BudgetBucket::RecentHistory => "recent"@,
        BudgetBucket::ExactOrState => "exact_or_state"@,
        BudgetBucket::Episode => "episode"@,
        BudgetBucket::Graph => "graph"@,
    }
}

pub fn budget_bucket_name(bucket: BudgetBucket) -> (r: &'static str)
    ensures
        r@ == bucket_text(bucket),
{
    match bucket {
        BudgetBucket::RecentHistory => "recent",
        BudgetBucket::ExactOrState => "exact_or_state",
        BudgetBucket::Episode => "episode",
        BudgetBucket::Graph => "graph",
    }
}

pub open spec fn breakdown_of(value: BudgetTokenBreakdown, bucket: BudgetBucket) -> u64 {
    match bucket {
        BudgetBucket::RecentHistory => value.recent_history,
        BudgetBucket::ExactOrState => value.exact_or_state,
        BudgetBucket::Episode => value.episode,
        BudgetBucket::Graph => value.graph,
    }
}

pub fn breakdown_value(value: &BudgetTokenBreakdown, bucket: BudgetBucket) -> (r: u64)
    ensures
        r == breakdown_of(*value, bucket),
{
    match bucket {
        BudgetBucket::RecentHistory => value.recent_history,
        BudgetBucket::ExactOrState => value.exact_or_state,
        BudgetBucket::Episode => value.episode,
        BudgetBucket::Graph => value.graph,
    }
}

/// Addition that stays at `u64::MAX`.
pub open spec fn capped_add(a: u64, b: u64) -> u64 {
    if a + b > u64::MAX {
        u64::MAX
    } else {
        (a + b) as u64
    }
}

/// Subtraction that stays at zero.
pub open spec fn floored_sub(a: u64, b: u64) -> u64 {
    if a < b {
        0
    } else {
        (a - b) as u64
    }
}

/// A breakdown with more tokens in one bucket.
pub open spec fn breakdown_plus(
    value: BudgetTokenBreakdown,
    bucket: BudgetBucket,
    tokens: u64,
) -> BudgetTokenBreakdown {
    match bucket {
        BudgetBucket::RecentHistory => BudgetTokenBreakdown {
            recent_history: capped_add(value.recent_history, tokens),
            ..value
        },
        BudgetBucket::ExactOrState => BudgetTokenBreakdown {
            exact_or_state: capped_add(value.exact_or_state, tokens),
            ..value
        },
        BudgetBucket::Episode => BudgetTokenBreakdown {
            episode: capped_add(value.episode, tokens),
            ..value
        },
        BudgetBucket::Graph => BudgetTokenBreakdown {
            graph: capped_add(value.graph, tokens),
            ..value
        },
    }
}

pub fn add_breakdown(value: &mut BudgetTokenBreakdown, bucket: BudgetBucket, tokens: u64)
    ensures
        *final(value) == breakdown_plus(*old(value), bucket, tokens),
{
    match bucket {
        BudgetBucket::RecentHistory => {
            value.recent_history = value.recent_history.saturating_add(tokens);
        },
        BudgetBucket::ExactOrState => {
            value.exact_or_state = value.exact_or_state.saturating_add(tokens);
        },
        BudgetBucket::Episode => {
            value.episode = value.episode.saturating_add(tokens);
        },
        BudgetBucket::Graph => {
            value.graph = value.graph.saturating_add(tokens);
        },
    }
}

pub open spec fn breakdown_total(value: BudgetTokenBreakdown) -> u64 {
    capped_add(
        capped_add(capped_add(value.recent_history, value.exact_or_state), value.episode),
        value.graph,
    )
}

pub fn breakdown_sum(value: &BudgetTokenBreakdown) -> (r: u64)
    ensures
        r == breakdown_total(*value),
{
    value.recent_history.saturating_add(value.exact_or_state).saturating_add(
        value.episode,
    ).saturating_add(value.graph)
}

/// The claims that a state selection rests on: all of them, sorted and without
/// repetition.
pub open spec fn claims_of(state: StateSelection) -> Seq<Seq<char>> {
    choose|claims: Seq<Seq<char>>|
        text::strictly_sorted(claims) && forall|x: Seq<char>|
            #[trigger] claims.contains(x) <==> (text::texts(state.related_claim_ids@).contains(x)
                || x == state.claim_id@)
}

/// The identity of the state selection of a span: the last one with that span.
pub open spec fn state_identity(states: Seq<StateSelection>, span: SourceSpan) -> Option<Seq<char>>
    decreases states.len(),
{
    if states.len() == 0 {
        None
    } else if states.last().evidence_span is Some && model::span_key(
        states.last().evidence_span->0,
    ) == model::span_key(span) {
        Some("state:"@ + text::joined(claims_of(states.last()), ","@))
    } else {
        state_identity(states.drop_last(), span)
    }
}

fn claims_joined(state: &StateSelection) -> (r: String)
    ensures
        r@ == text::joined(claims_of(*state), ","@),
{
    let mut all = copy_list(&state.related_claim_ids);
    all.push(state.claim_id.clone());
    let sorted = sorted_set(&all);
    proof {
        let related = text::texts(state.related_claim_ids@);
        assert(text::texts(all@) =~= related.push(state.claim_id@));
        let mine = text::texts(sorted@);
        assert forall|x: Seq<char>| #[trigger] mine.contains(x) <==> (related.contains(x) || x
            == state.claim_id@) by {
            let pushed = related.push(state.claim_id@);
            assert(pushed == text::texts(all@));
            if pushed.contains(x) {
                let k = choose|k: int| 0 <= k < pushed.len() && pushed[k] == x;
                if k < related.len() {
                    assert(related[k] == x);
                }
            }
            if related.contains(x) {
                let k = choose|k: int| 0 <= k < related.len() && related[k] == x;
                assert(pushed[k] == x);
            }
            if x == state.claim_id@ {
                assert(pushed[related.len() as int] == x);
            }
        }
        let theirs = claims_of(*state);
        assert(text::strictly_sorted(theirs) && forall|x: Seq<char>|
            #[trigger] theirs.contains(x) <==> (related.contains(x) || x == state.claim_id@));
        assert forall|x: Seq<char>| mine.contains(x) <==> theirs.contains(x) by {}
        text::strictly_sorted_unique(mine, theirs);
    }
    join(&sorted, ",")
}

fn find_state_identity(states: &Vec<StateSelection>, span: &SourceSpan) -> (r: Option<String>)
    ensures
        text::opt_text(r) == state_identity(states@, *span),
{
    let mut i: usize = states.len();
    assert(states@.take(states@.len() as int) =~= states@);
    while i > 0
        invariant
            i <= states@.len(),
            state_identity(states@, *span) == state_identity(states@.take(i as int), *span),
        decreases i,
    {
        let state = &states[i - 1];
        proof {
            assert(states@.take(i as int).drop_last() =~= states@.take(i - 1));
            assert(states@.take(i as int).last() == states@[i - 1]);
        }
        match &state.evidence_span {
            Some(candidate) => {
                if same_span(candidate, span) {
                    let mut out = "state:".to_owned();
                    out.append(claims_joined(state).as_str());
                    return Some(out);
                }
            },
            None => {},
        }
        i -= 1;
    }
    assert(states@.take(0) =~= Seq::empty());
    None
}

/// How many fusion candidates have a span.
pub open spec fn fusion_count(candidates: Seq<FusionCandidate>, span: SourceSpan) -> nat
    decreases candidates.len(),
{
    if candidates.len() == 0 {
        0
    } else {
        fusion_count(candidates.drop_last(), span) + if model::span_key(candidates.last().span)
            == model::span_key(span) {
            1nat
        } else {
            0
        }
    }
}

/// The position of the last fusion candidate with a span, or -1.
pub open spec fn fusion_position(candidates: Seq<FusionCandidate>, span: SourceSpan) -> int
    decreases candidates.len(),
{
    if candidates.len() == 0 {
        -1
    } else if model::span_key(candidates.last().span) == model::span_key(span) {
        candidates.len() - 1
    } else {
        fusion_position(candidates.drop_last(), span)
    }
}

/// The fusion candidate of a span: the only one that has it.
pub open spec fn fusion_of(candidates: Seq<FusionCandidate>, span: SourceSpan) -> Option<int> {
    if fusion_count(candidates, span) == 1 {
        Some(fusion_position(candidates, span))
    } else {
        None
    }
}

proof fn fusion_position_in_range(candidates: Seq<FusionCandidate>, span: SourceSpan)
    ensures
        fusion_count(candidates, span) > 0 ==> 0 <= fusion_position(candidates, span)
            < candidates.len(),
    decreases candidates.len(),
{
    if candidates.len() > 0 {
        fusion_position_in_range(candidates.drop_last(), span);
    }
}

fn find_fusion(candidates: &Vec<FusionCandidate>, span: &SourceSpan) -> (r: Option<usize>)
    ensures
        match fusion_of(candidates@, *span) {
            Some(p) => r matches Some(i) && i == p && i < candidates@.len(),
            None => r is None,
        },
{
    let mut count: u8 = 0;
    let mut position: usize = 0;
    let mut i: usize = 0;
    assert(candidates@.take(0) =~= Seq::empty());
    while i < candidates.len()
        invariant
            i <= candidates@.len(),
            count <= 2,
            count < 2 ==> count == fusion_count(candidates@.take(i as int), *span),
            count == 2 ==> fusion_count(candidates@.take(i as int), *span) >= 2,
            count > 0 ==> position == fusion_position(candidates@.take(i as int), *span),
        decreases candidates.len() - i,
    {
        proof {
            assert(candidates@.take(i + 1).drop_last() =~= candidates@.take(i as int));
            assert(candidates@.take(i + 1).last() == candidates@[i as int]);
        }
        if same_span(&candidates[i].span, span) {
            if count < 2 {
                count += 1;
            }
            position = i;
        }
        i += 1;
    }
    proof {
        assert(candidates@.take(i as int) =~= candidates@);
        fusion_position_in_range(candidates@, *span);
    }
    if count == 1 {
        Some(position)
    } else {
        None
    }
}

/// Whether a graph path leads to a piece of evidence: by its span, or by the
/// documents that the evidence was fused from.
pub open spec fn path_leads_to(
    path: GraphPathTrace,
    span: SourceSpan,
    candidates: Seq<FusionCandidate>,
    fusion: Option<int>,
) -> bool {
    ||| path.span is Some && model::span_key(path.span->0) == model::span_key(span)
    ||| match fusion {
        Some(p) => path.target_document_id@ == candidates[p].document_id@ || text::texts(
            candidates[p].source_document_ids@,
        ).contains(path.target_document_id@),
        None => false,
    }
}

/// The first graph path that leads to a piece of evidence, from position `i` on.
pub open spec fn path_from(
    paths: Seq<GraphPathTrace>,
    span: SourceSpan,
    candidates: Seq<FusionCandidate>,
    fusion: Option<int>,
    i: int,
) -> Option<int>
    decreases paths.len() - i,
{
    if i < 0 || i >= paths.len() {
        None
    } else if path_leads_to(paths[i], span, candidates, fusion) {
        Some(i)
    } else {
        path_from(paths, span, candidates, fusion, i + 1)
    }
}

fn find_path(
    paths: &Vec<GraphPathTrace>,
    span: &SourceSpan,
    candidates: &Vec<FusionCandidate>,
    fusion: Option<usize>,
) -> (r: Option<usize>)
    requires
        fusion is Some ==> fusion->0 < candidates@.len(),
    ensures
        match path_from(
            paths@,
            *span,
            candidates@,
            match fusion {
                Some(p) => Some(p as int),
                None => None,
            },
            0,
        ) {
            Some(p) => r matches Some(i) && i == p && i < paths@.len(),
            None => r is None,
        },
{
    let ghost fused: Option<int> = match fusion {
        Some(p) => Some(p as int),
        None => None,
    };
    let mut i: usize = 0;
    while i < paths.len()
        invariant
            i <= paths@.len(),
            fusion is Some ==> fusion->0 < candidates@.len(),
            fused == (match fusion {
                Some(p) => Some(p as int),
                None => None,
            }),
            path_from(paths@, *span, candidates@, fused, 0) == path_from(
                paths@,
                *span,
                candidates@,
                fused,
                i as int,
            ),
        decreases paths.len() - i,
    {
        let by_span = match &paths[i].span {
            Some(other) => same_span(other, span),
            None => false,
        };
        let by_document = match fusion {
            Some(p) => text_eq(
                paths[i].target_document_id.as_str(),
                candidates[p].document_id.as_str(),
            ) || contains_text(
                &candidates[p].source_document_ids,
                paths[i].target_document_id.as_str(),
            ),
            None => false,
        };
        if by_span || by_document {
            assert(path_leads_to(paths@[i as int], *span, candidates@, fused));
            return Some(i);
        }
        i += 1;
    }
    None
}

/// Whether a fused candidate stands for an episode or a session.
pub open spec fn is_episode(candidate: FusionCandidate) -> bool {
    ||| candidate.granularity == RetrievalDocumentGranularity::Episode
    ||| candidate.granularity == RetrievalDocumentGranularity::Session
    ||| candidate.episode_id is Some && exists|i: int|
        0 <= i < candidate.source_document_ids@.len() && {
            let source = (#[trigger] candidate.source_document_ids@[i])@;
            text::has_prefix(source, "episode:"@) || text::has_prefix(source, "session:"@)
        }
}

fn fused_episode(candidate: &FusionCandidate) -> (r: bool)
    ensures
        r == is_episode(*candidate),
{
    if candidate.granularity == RetrievalDocumentGranularity::Episode || candidate.granularity
        == RetrievalDocumentGranularity::Session {
        return true;
    }
    if candidate.episode_id.is_none() {
        return false;
    }
    let mut i: usize = 0;
    while i < candidate.source_document_ids.len()
        invariant
            i <= candidate.source_document_ids@.len(),
            candidate.episode_id is Some,
            forall|k: int|
                0 <= k < i ==> {
                    let source = (#[trigger] candidate.source_document_ids@[k])@;
                    !text::has_prefix(source, "episode:"@) && !text::has_prefix(
                        source,
                        "session:"@,
                    )
                },
        decreases candidate.source_document_ids.len() - i,
    {
        let source = candidate.source_document_ids[i].as_str();
        if starts_with(source, "episode:") || starts_with(source, "session:") {
            assert(candidate.source_document_ids@[i as int]@ == source@);
            return true;
        }
        i += 1;
    }
    false
}

/// How a piece of core evidence was found.
pub struct Origin {
    pub state: Option<Seq<char>>,
    pub fusion: Option<int>,
    pub path: Option<int>,
}

pub open spec fn origin_of(trace: RetrievalTrace, span: SourceSpan) -> Origin {
    let fusion = fusion_of(trace.fusion_candidates@, span);
    Origin {
        state: state_identity(trace.state_selections@, span),
        fusion,
        path: path_from(trace.graph_paths@, span, trace.fusion_candidates@, fusion, 0),
    }
}

/// The bucket that pays for a piece of core evidence.
pub open spec fn bucket_of(trace: RetrievalTrace, span: SourceSpan) -> BudgetBucket {
    let origin = origin_of(trace, span);
    if origin.state is Some {
        BudgetBucket::ExactOrState
    } else if origin.path is Some {
        BudgetBucket::Graph
    } else if origin.fusion is Some && is_episode(trace.fusion_candidates@[origin.fusion->0]) {
        BudgetBucket::Episode
    } else {
        BudgetBucket::ExactOrState
    }
}

/// The fields by which a piece of evidence is told apart within its bucket.
pub open spec fn evidence_identity(bucket: BudgetBucket, s: SelectedEvidence) -> Seq<char> {
    "hippocampus:budget-group:v1\0"@ + bucket_text(bucket) + "\0"@ + s.span.event_id@ + "\0"@
        + text::decimal(s.span.start_char as nat) + "\0"@ + text::decimal(s.span.end_char as nat)
        + "\0"@ + s.content_sha256@ + "\0"@ + model::role_text(s.role)
}

pub open spec fn path_identity(path: GraphPathTrace) -> Seq<char> {
    path.target_document_id@ + ":"@ + text::joined(text::texts(path.node_ids@), ","@) + ":"@
        + text::joined(text::texts(path.edge_ids@), ","@)
}

/// The text that is hashed into the identifier of a group. Evidence of the same
/// claims falls into one group; so does evidence with one graph path and fields.
pub open spec fn group_identity(trace: RetrievalTrace, s: SelectedEvidence) -> Seq<char> {
    let origin = origin_of(trace, s.span);
    let identity = evidence_identity(bucket_of(trace, s.span), s);
    match origin.state {
        Some(state) => "hippocampus:budget-state-group:v1\0"@ + state,
        None => match origin.path {
            Some(p) => identity + "\0"@ + path_identity(trace.graph_paths@[p]),
            None => identity,
        },
    }
}

pub open spec fn group_id(trace: RetrievalTrace, s: SelectedEvidence) -> Seq<char> {
    "grp_"@ + digest::text_digest(group_identity(trace, s))
}

fn evidence_identity_string(bucket: BudgetBucket, s: &SelectedEvidence) -> (out: String)
    ensures
        out@ == evidence_identity(bucket, *s),
{
    let mut out = "hippocampus:budget-group:v1\0".to_owned();
    out.append(budget_bucket_name(bucket));
    out.append("\0");
    out.append(s.span.event_id.as_str());
    out.append("\0");
    push_decimal(&mut out, s.span.start_char as u64);
    out.append("\0");
    push_decimal(&mut out, s.span.end_char as u64);
    out.append("\0");
    out.append(s.content_sha256.as_str());
    out.append("\0");
    out.append(s.role.as_str());
    out
}

fn path_identity_string(path: &GraphPathTrace) -> (out: String)
    ensures
        out@ == path_identity(*path),
{
    let mut out = path.target_document_id.clone();
    out.append(":");
    out.append(join(&path.node_ids, ",").as_str());
    out.append(":");
    out.append(join(&path.edge_ids, ",").as_str());
    out
}

/// The bucket and the group identifier of a piece of core evidence.
fn classify(trace: &RetrievalTrace, s: &SelectedEvidence) -> (r: (BudgetBucket, String))
    ensures
        r.0 == bucket_of(*trace, s.span),
        r.1@ == group_id(*trace, *s),
{
    let state = find_state_identity(&trace.state_selections, &s.span);
    let fusion = find_fusion(&trace.fusion_candidates, &s.span);
    let path = find_path(&trace.graph_paths, &s.span, &trace.fusion_candidates, fusion);
    let bucket = if state.is_some() {
        BudgetBucket::ExactOrState
    } else if path.is_some() {
        BudgetBucket::Graph
    } else {
        let episode = match fusion {
            Some(p) => fused_episode(&trace.fusion_candidates[p]),
            None => false,
        };
        if episode {
            BudgetBucket::Episode
        } else {
            BudgetBucket::ExactOrState
        }
    };
    assert(bucket == bucket_of(*trace, s.span));
    let identity = match &state {
        Some(value) => {
            let mut out = "hippocampus:budget-state-group:v1\0".to_owned();
            out.append(value.as_str());
            out
        },
        None => {
            let mut out = evidence_identity_string(bucket, s);
            match path {
                Some(p) => {
                    out.append("\0");
                    out.append(path_identity_string(&trace.graph_paths[p]).as_str());
                },
                None => {},
            }
            out
        },
    };
    assert(identity@ == group_identity(*trace, *s));
    let mut id = "grp_".to_owned();
    id.append(content_sha256(identity.as_str()).as_str());
    (bucket, id)
}

/// Whether a group was opened by core evidence of the given candidate.
pub open spec fn parent_of(group: GroupModel, rank: Option<usize>) -> bool {
    group.evidence.len() > 0 && group.evidence[0].selected.kind == EvidenceKind::Core
        && group.evidence[0].selected.originating_candidate_rank == rank
}

pub open spec fn parent_count(groups: Seq<GroupModel>, rank: Option<usize>) -> nat
    decreases groups.len(),
{
    if groups.len() == 0 {
        0
    } else {
        parent_count(groups.drop_last(), rank) + if parent_of(groups.last(), rank) {
            1nat
        } else {
            0
        }
    }
}

pub open spec fn parent_position(groups: Seq<GroupModel>, rank: Option<usize>) -> int
    decreases groups.len(),
{
    if groups.len() == 0 {
        -1
    } else if parent_of(groups.last(), rank) {
        groups.len() - 1
    } else {
        parent_position(groups.drop_last(), rank)
    }
}

/// The first group with an identifier, from position `i` on.
pub open spec fn group_from(groups: Seq<GroupModel>, id: Seq<char>, i: int) -> Option<int>
    decreases groups.len() - i,
{
    if i < 0 || i >= groups.len() {
        None
    } else if groups[i].id == id {
        Some(i)
    } else {
        group_from(groups, id, i + 1)
    }
}

/// A group with one more piece of evidence.
pub open spec fn group_with(group: GroupModel, e: RecalledEvidence) -> GroupModel {
    GroupModel { evidence: group.evidence.push(e), ..group }
}

/// Context evidence joins the only group whose core evidence has the same
/// candidate; core evidence joins the group with its identifier or opens one.
pub open spec fn grouped_with(
    groups: Seq<GroupModel>,
    trace: RetrievalTrace,
    e: RecalledEvidence,
) -> Seq<GroupModel> {
    let rank = e.selected.originating_candidate_rank;
    if e.selected.kind == EvidenceKind::Context {
        if parent_count(groups, rank) == 1 {
            let p = parent_position(groups, rank);
            groups.update(p, group_with(groups[p], e))
        } else {
            groups
        }
    } else {
        let id = group_id(trace, e.selected);
        match group_from(groups, id, 0) {
            Some(p) => groups.update(p, group_with(groups[p], e)),
            None => groups.push(
                GroupModel { id, bucket: bucket_of(trace, e.selected.span), evidence: seq![e] },
            ),
        }
    }
}

/// The groups of a list of evidence, in the order in which they open.
pub open spec fn groups_of(trace: RetrievalTrace, evidence: Seq<RecalledEvidence>) -> Seq<
    GroupModel,
>
    decreases evidence.len(),
{
    if evidence.len() == 0 {
        Seq::empty()
    } else {
        grouped_with(groups_of(trace, evidence.drop_last()), trace, evidence.last())
    }
}

proof fn parent_position_in_range(groups: Seq<GroupModel>, rank: Option<usize>)
    ensures
        parent_count(groups, rank) > 0 ==> 0 <= parent_position(groups, rank) < groups.len()
            && parent_of(groups[parent_position(groups, rank)], rank),
    decreases groups.len(),
{
    if groups.len() > 0 {
        parent_position_in_range(groups.drop_last(), rank);
    }
}

proof fn group_from_in_range(groups: Seq<GroupModel>, id: Seq<char>, i: int)
    requires
        0 <= i,
    ensures
        group_from(groups, id, i) matches Some(p) ==> 0 <= p < groups.len(),
    decreases groups.len() - i,
{
    if i < groups.len() && groups[i].id != id {
        group_from_in_range(groups, id, i + 1);
    }
}

/// Every group holds some evidence of its own.
pub proof fn fewer_groups_than_evidence(trace: RetrievalTrace, evidence: Seq<RecalledEvidence>)
    ensures
        groups_of(trace, evidence).len() <= evidence.len(),
    decreases evidence.len(),
{
    if evidence.len() > 0 {
        fewer_groups_than_evidence(trace, evidence.drop_last());
        let groups = groups_of(trace, evidence.drop_last());
        parent_position_in_range(groups, evidence.last().selected.originating_candidate_rank);
        group_from_in_range(groups, group_id(trace, evidence.last().selected), 0);
    }
}

fn find_parent(groups: &Vec<BudgetEvidenceGroup>, rank: Option<usize>) -> (r: Option<usize>)
    ensures
        if parent_count(group_models(groups@), rank) == 1 {
            r matches Some(i) && i == parent_position(group_models(groups@), rank) && i
                < groups@.len()
        } else {
            r is None
        },
{
    let ghost models = group_models(groups@);
    let mut count: u8 = 0;
    let mut position: usize = 0;
    let mut i: usize = 0;
    assert(models.take(0) =~= Seq::empty());
    while i < groups.len()
        invariant
            i <= groups@.len(),
            models == group_models(groups@),
            count <= 2,
            count < 2 ==> count == parent_count(models.take(i as int), rank),
            count == 2 ==> parent_count(models.take(i as int), rank) >= 2,
            count > 0 ==> position == parent_position(models.take(i as int), rank),
        decreases groups.len() - i,
    {
        proof {
            assert(models.take(i + 1).drop_last() =~= models.take(i as int));
            assert(models.take(i + 1).last() == models[i as int]);
        }
        let group = &groups[i];
        let mine = group.evidence.len() > 0 && group.evidence[0].selected.kind
            == EvidenceKind::Core && same_rank(
            group.evidence[0].selected.originating_candidate_rank,
            rank,
        );
        if mine {
            if count < 2 {
                count += 1;
            }
            position = i;
        }
        i += 1;
    }
    proof {
        assert(models.take(i as int) =~= models);
        parent_position_in_range(models, rank);
    }
    if count == 1 {
        Some(position)
    } else {
        None
    }
}

fn same_rank(a: Option<usize>, b: Option<usize>) -> (r: bool)
    ensures
        r == (a == b),
{
    match (a, b) {
        (Some(x), Some(y)) => x == y,
        (None, None) => true,
        _ => false,
    }
}

fn find_group(groups: &Vec<BudgetEvidenceGroup>, id: &str) -> (r: Option<usize>)
    ensures
        match group_from(group_models(groups@), id@, 0) {
            Some(p) => r matches Some(i) && i == p && i < groups@.len(),
            None => r is None,
        },
{
    let mut i: usize = 0;
    while i < groups.len()
        invariant
            i <= groups@.len(),
            group_from(group_models(groups@), id@, 0) == group_from(
                group_models(groups@),
                id@,
                i as int,
            ),
        decreases groups.len() - i,
    {
        if text_eq(groups[i].id.as_str(), id) {
            return Some(i);
        }
        i += 1;
    }
    None
}

/// Groups whose order is their position.
pub open spec fn in_order(groups: Seq<BudgetEvidenceGroup>) -> bool {
    forall|i: int| 0 <= i < groups.len() ==> (#[trigger] groups[i]).order == i
}

fn push_evidence_at(groups: &mut Vec<BudgetEvidenceGroup>, index: usize, e: &RecalledEvidence)
    requires
        index < old(groups)@.len(),
        in_order(old(groups)@),
    ensures
        group_models(final(groups)@) == group_models(old(groups)@).update(
            index as int,
            group_with(group_models(old(groups)@)[index as int], *e),
        ),
        in_order(final(groups)@),
        final(groups)@.len() == old(groups)@.len(),
{
    let id = groups[index].id.clone();
    let bucket = groups[index].bucket;
    let order = groups[index].order;
    let mut evidence = copy_list(&groups[index].evidence);
    evidence.push(e.clone());
    groups.set(index, BudgetEvidenceGroup { id, bucket, order, evidence });
    assert(group_models(groups@) =~= group_models(old(groups)@).update(
        index as int,
        group_with(group_models(old(groups)@)[index as int], *e),
    ));
}

/// Gathers the recalled evidence into the groups that the budget decides on.
pub fn budget_evidence_groups(recall: &RecallResult) -> (groups: Vec<BudgetEvidenceGroup>)
    ensures
        group_models(groups@) == groups_of(recall.trace, recall.evidence@),
        in_order(groups@),
{
    let mut groups: Vec<BudgetEvidenceGroup> = Vec::new();
    let mut i: usize = 0;
    proof {
        assert(recall.evidence@.take(0) =~= Seq::empty());
        assert(group_models(groups@) =~= Seq::empty());
    }
    while i < recall.evidence.len()
        invariant
            i <= recall.evidence@.len(),
            group_models(groups@) == groups_of(recall.trace, recall.evidence@.take(i as int)),
            in_order(groups@),
        decreases recall.evidence.len() - i,
    {
        let e = &recall.evidence[i];
        let ghost before = group_models(groups@);
        proof {
            assert(recall.evidence@.take(i + 1).drop_last() =~= recall.evidence@.take(i as int));
            assert(recall.evidence@.take(i + 1).last() == *e);
        }
        if e.selected.kind == EvidenceKind::Context {
            let parent = find_parent(&groups, e.selected.originating_candidate_rank);
            if let Some(index) = parent {
                push_evidence_at(&mut groups, index, e);
            }
        } else {
            let (bucket, id) = classify(&recall.trace, &e.selected);
            match find_group(&groups, id.as_str()) {
                Some(index) => {
                    push_evidence_at(&mut groups, index, e);
                },
                None => {
                    let order: usize = groups.len();
                    let mut evidence: Vec<RecalledEvidence> = Vec::new();
                    evidence.push(e.clone());
                    let ghost list = evidence@;
                    assert(list =~= seq![*e]);
                    groups.push(BudgetEvidenceGroup { id, bucket, order, evidence });
                    assert(group_models(groups@) =~= before.push(
                        GroupModel {
                            id: group_id(recall.trace, e.selected),
                            bucket: bucket_of(recall.trace, e.selected.span),
                            evidence: seq![*e],
                        },
                    ));
                },
            }
        }
        i += 1;
    }
    assert(recall.evidence@.take(i as int) =~= recall.evidence@);
    groups
}

/// What a limit on groups measures.
#[derive(Clone, Copy, PartialEq, Eq, Structural)]
pub enum Measure {
    CoreSlots,
    CoreChars,
    ContextChars,
}

pub open spec fn weight(e: RecalledEvidence, m: Measure) -> nat {
    match m {
        Measure::CoreSlots => if e.selected.kind == EvidenceKind::Core {
            1
        } else {
            0
        },
        Measure::CoreChars => if e.selected.kind == EvidenceKind::Core {
            e.content@.len()
        } else {
            0
        },
        Measure::ContextChars => if e.selected.kind == EvidenceKind::Context {
            e.content@.len()
        } else {
            0
        },
    }
}

pub open spec fn evidence_weight(evidence: Seq<RecalledEvidence>, m: Measure) -> nat
    decreases evidence.len(),
{
    if evidence.len() == 0 {
        0
    } else {
        evidence_weight(evidence.drop_last(), m) + weight(evidence.last(), m)
    }
}

/// The weight of the groups at the given positions.
pub open spec fn picked_weight(groups: Seq<GroupModel>, picked: Seq<usize>, m: Measure) -> nat
    decreases picked.len(),
{
    if picked.len() == 0 {
        0
    } else {
        picked_weight(groups, picked.drop_last(), m) + evidence_weight(
            groups[picked.last() as int].evidence,
            m,
        )
    }
}

/// How many of the groups at the given positions the graph bucket pays for.
pub open spec fn graph_count(groups: Seq<GroupModel>, picked: Seq<usize>) -> nat
    decreases picked.len(),
{
    if picked.len() == 0 {
        0
    } else {
        graph_count(groups, picked.drop_last()) + if groups[picked.last() as int].bucket
            == BudgetBucket::Graph {
            1nat
        } else {
            0
        }
    }
}

/// Why a group may not join those already taken, whatever its tokens.
pub open spec fn hard_reason(
    groups: Seq<GroupModel>,
    accepted: Seq<usize>,
    candidate: usize,
    config: RetrievalConfig,
    graph_candidate_limit: usize,
) -> Option<Seq<char>> {
    let all = accepted.push(candidate);
    if picked_weight(groups, all, Measure::CoreSlots) > config.max_selected {
        Some("hard_max_selected"@)
    } else if picked_weight(groups, all, Measure::CoreChars) > config.evidence_char_budget {
        Some("hard_core_chars"@)
    } else if picked_weight(groups, all, Measure::ContextChars) > config.expansion_char_budget {
        Some("hard_context_chars"@)
    } else if graph_count(groups, all) > graph_candidate_limit {
        Some("hard_max_selected"@)
    } else {
        None
    }
}

/// What is left of `limit` after the evidence, or `None` once it is exceeded.
fn spend_evidence(evidence: &Vec<RecalledEvidence>, m: Measure, limit: usize) -> (r: Option<usize>)
    ensures
        match r {
            Some(rest) => rest + evidence_weight(evidence@, m) == limit,
            None => evidence_weight(evidence@, m) > limit,
        },
{
    let mut rest: usize = limit;
    let mut i: usize = 0;
    assert(evidence@.take(0) =~= Seq::empty());
    while i < evidence.len()
        invariant
            i <= evidence@.len(),
            rest + evidence_weight(evidence@.take(i as int), m) == limit,
        decreases evidence.len() - i,
    {
        proof {
            assert(evidence@.take(i + 1).drop_last() =~= evidence@.take(i as int));
            assert(evidence@.take(i + 1).last() == evidence@[i as int]);
        }
        let e = &evidence[i];
        let w: usize = match m {
            Measure::CoreSlots => if e.selected.kind == EvidenceKind::Core {
                1
            } else {
                0
            },
            Measure::CoreChars => if e.selected.kind == EvidenceKind::Core {
                e.content.as_str().unicode_len()
            } else {
                0
            },
            Measure::ContextChars => if e.selected.kind == EvidenceKind::Context {
                e.content.as_str().unicode_len()
            } else {
                0
            },
        };
        if w > rest {
            proof {
                evidence_weight_monotone(evidence@, m, i as int + 1);
            }
            return None;
        }
        rest -= w;
        i += 1;
    }
    assert(evidence@.take(i as int) =~= evidence@);
    Some(rest)
}

proof fn evidence_weight_monotone(evidence: Seq<RecalledEvidence>, m: Measure, n: int)
    requires
        0 <= n <= evidence.len(),
    ensures
        evidence_weight(evidence.take(n), m) <= evidence_weight(evidence, m),
    decreases evidence.len(),
{
    if n < evidence.len() {
        evidence_weight_monotone(evidence.drop_last(), m, n);
        assert(evidence.drop_last().take(n) =~= evidence.take(n));
    } else {
        assert(evidence.take(n) =~= evidence);
    }
}

proof fn picked_weight_monotone(groups: Seq<GroupModel>, picked: Seq<usize>, m: Measure, n: int)
    requires
        0 <= n <= picked.len(),
    ensures
        picked_weight(groups, picked.take(n), m) <= picked_weight(groups, picked, m),
    decreases picked.len(),
{
    if n < picked.len() {
        picked_weight_monotone(groups, picked.drop_last(), m, n);
        assert(picked.drop_last().take(n) =~= picked.take(n));
    } else {
        assert(picked.take(n) =~= picked);
    }
}

fn exceeds(
    groups: &Vec<BudgetEvidenceGroup>,
    picked: &Vec<usize>,
    m: Measure,
    limit: usize,
) -> (r: bool)
    requires
        crate::context::in_range(picked@, groups@.len()),
    ensures
        r == (picked_weight(group_models(groups@), picked@, m) > limit),
{
    let ghost models = group_models(groups@);
    let mut rest: usize = limit;
    let mut i: usize = 0;
    assert(picked@.take(0) =~= Seq::empty());
    while i < picked.len()
        invariant
            i <= picked@.len(),
            models == group_models(groups@),
            crate::context::in_range(picked@, groups@.len()),
            rest + picked_weight(models, picked@.take(i as int), m) == limit,
        decreases picked.len() - i,
    {
        proof {
            assert(picked@.take(i + 1).drop_last() =~= picked@.take(i as int));
            assert(picked@.take(i + 1).last() == picked@[i as int]);
            assert(picked@[i as int] < groups@.len());
        }
        match spend_evidence(&groups[picked[i]].evidence, m, rest) {
            Some(left) => {
                rest = left;
            },
            None => {
                proof {
                    picked_weight_monotone(models, picked@, m, i as int + 1);
                }
                return true;
            },
        }
        i += 1;
    }
    assert(picked@.take(i as int) =~= picked@);
    false
}

fn count_graph(groups: &Vec<BudgetEvidenceGroup>, picked: &Vec<usize>) -> (r: usize)
    requires
        crate::context::in_range(picked@, groups@.len()),
    ensures
        r == graph_count(group_models(groups@), picked@),
{
    let mut count: usize = 0;
    let mut i: usize = 0;
    assert(picked@.take(0) =~= Seq::empty());
    while i < picked.len()
        invariant
            i <= picked@.len(),
            count <= i,
            crate::context::in_range(picked@, groups@.len()),
            count == graph_count(group_models(groups@), picked@.take(i as int)),
        decreases picked.len() - i,
    {
        proof {
            assert(picked@.take(i + 1).drop_last() =~= picked@.take(i as int));
            assert(picked@.take(i + 1).last() == picked@[i as int]);
            assert(picked@[i as int] < groups@.len());
        }
        if groups[picked[i]].bucket == BudgetBucket::Graph {
            count += 1;
        }
        i += 1;
    }
    assert(picked@.take(i as int) =~= picked@);
    count
}

/// The limit that a group would break if it joined those already taken.
pub fn hard_exclusion_reason(
    groups: &Vec<BudgetEvidenceGroup>,
    accepted: &Vec<usize>,
    candidate: usize,
    config: &RetrievalConfig,
    graph_candidate_limit: usize,
) -> (r: Option<&'static str>)
    requires
        crate::context::in_range(accepted@, groups@.len()),
        candidate < groups@.len(),
    ensures
        model::opt_str(r) == hard_reason(
            group_models(groups@),
            accepted@,
            candidate,
            *config,
            graph_candidate_limit,
        ),
{
    let mut all = copy_list(accepted);
    all.push(candidate);
    assert(crate::context::in_range(all@, groups@.len())) by {
        assert forall|i: int| 0 <= i < all@.len() implies (#[trigger] all@[i]) < groups@.len() by {
            if i < accepted@.len() {
                assert(all@[i] == accepted@[i]);
            }
        }
    }
    if exceeds(groups, &all, Measure::CoreSlots, config.max_selected) {
        return Some("hard_max_selected");
    }
    if exceeds(groups, &all, Measure::CoreChars, config.evidence_char_budget) {
        return Some("hard_core_chars");
    }
    if exceeds(groups, &all, Measure::ContextChars, config.expansion_char_budget) {
        return Some("hard_context_chars");
    }
    if count_graph(groups, &all) > graph_candidate_limit {
        return Some("hard_max_selected");
    }
    None
}

/// The evidence of the picked groups of one bucket among the first `n`.
pub open spec fn bucket_evidence(
    groups: Seq<GroupModel>,
    picked: Seq<usize>,
    bucket: BudgetBucket,
    n: int,
) -> Seq<RecalledEvidence>
    decreases n,
{
    if n <= 0 {
        Seq::empty()
    } else {
        let rest = bucket_evidence(groups, picked, bucket, n - 1);
        if groups[n - 1].bucket == bucket && picked.contains((n - 1) as usize) {
            rest + groups[n - 1].evidence
        } else {
            rest
        }
    }
}

/// The evidence of the picked groups: exact and state first, then episodes, then
/// the graph, each in the order of the groups.
pub open spec fn picked_evidence(groups: Seq<GroupModel>, picked: Seq<usize>) -> Seq<
    RecalledEvidence,
> {
    let n = groups.len() as int;
    bucket_evidence(groups, picked, BudgetBucket::ExactOrState, n) + bucket_evidence(
        groups,
        picked,
        BudgetBucket::Episode,
        n,
    ) + bucket_evidence(groups, picked, BudgetBucket::Graph, n)
}

fn append_bucket(
    out: &mut Vec<RecalledEvidence>,
    groups: &Vec<BudgetEvidenceGroup>,
    picked: &Vec<usize>,
    bucket: BudgetBucket,
)
    ensures
        final(out)@ == old(out)@ + bucket_evidence(
            group_models(groups@),
            picked@,
            bucket,
            groups@.len() as int,
        ),
{
    let ghost start = out@;
    let mut i: usize = 0;
    assert(out@ =~= start + bucket_evidence(group_models(groups@), picked@, bucket, 0));
    while i < groups.len()
        invariant
            i <= groups@.len(),
            out@ == start + bucket_evidence(group_models(groups@), picked@, bucket, i as int),
        decreases groups.len() - i,
    {
        if groups[i].bucket == bucket && crate::context::contains_index(picked, i) {
            let ghost before = out@;
            let mut more = copy_list(&groups[i].evidence);
            out.append(&mut more);
            assert(out@ =~= start + (bucket_evidence(
                group_models(groups@),
                picked@,
                bucket,
                i as int,
            ) + groups@[i as int].evidence@));
        }
        i += 1;
    }
}

/// The evidence of the picked groups, in the order in which it is sent.
pub fn evidence_of_groups(groups: &Vec<BudgetEvidenceGroup>, picked: &Vec<usize>) -> (r: Vec<
    RecalledEvidence,
>)
    ensures
        r@ == picked_evidence(group_models(groups@), picked@),
{
    let mut out: Vec<RecalledEvidence> = Vec::new();
    append_bucket(&mut out, groups, picked, BudgetBucket::ExactOrState);
    append_bucket(&mut out, groups, picked, BudgetBucket::Episode);
    append_bucket(&mut out, groups, picked, BudgetBucket::Graph);
    assert(out@ =~= picked_evidence(group_models(groups@), picked@));
    out
}

/// Whether a span is that of some evidence.
pub open spec fn span_selected(evidence: Seq<RecalledEvidence>, span: SourceSpan) -> bool {
    exists|i: int|
        0 <= i < evidence.len() && model::span_key((#[trigger] evidence[i]).selected.span)
            == model::span_key(span)
}

pub fn is_selected(evidence: &Vec<RecalledEvidence>, span: &SourceSpan) -> (r: bool)
    ensures
        r == span_selected(evidence@, *span),
{
    let mut i: usize = 0;
    while i < evidence.len()
        invariant
            i <= evidence@.len(),
            forall|k: int|
                0 <= k < i ==> model::span_key((#[trigger] evidence@[k]).selected.span)
                    != model::span_key(*span),
        decreases evidence.len() - i,
    {
        if same_span(&evidence[i].selected.span, span) {
            assert(evidence@[i as int].selected.span == evidence@[i as int].selected.span);
            return true;
        }
        i += 1;
    }
    false
}

pub open spec fn opt_span_selected(
    evidence: Seq<RecalledEvidence>,
    span: Option<SourceSpan>,
) -> bool {
    span is Some && span_selected(evidence, span->0)
}

fn is_opt_selected(evidence: &Vec<RecalledEvidence>, span: &Option<SourceSpan>) -> (r: bool)
    ensures
        r == opt_span_selected(evidence@, *span),
{
    match span {
        Some(value) => is_selected(evidence, value),
        None => false,
    }
}

/// The reason of a candidate once it is known whether it is selected: one that
/// was selected before and is not now has fallen to the token budget.
pub open spec fn reason_after(selected: bool, reason: Seq<char>, was_selected: bool) -> Seq<char> {
    if !selected && was_selected {
        "token_budget"@
    } else {
        reason
    }
}

/// A keyword candidate marked for a selection of evidence.
pub open spec fn candidate_marked(
    before: model::RetrievalCandidate,
    after: model::RetrievalCandidate,
    evidence: Seq<RecalledEvidence>,
) -> bool {
    let chosen = span_selected(evidence, before.span);
    &&& after.raw_rank == before.raw_rank
    &&& after.document_id == before.document_id
    &&& after.session_id == before.session_id
    &&& after.span == before.span
    &&& after.granularity == before.granularity
    &&& after.selected == chosen
    &&& after.reason@ == reason_after(chosen, before.reason@, before.reason@ == "selected_core"@)
}

pub open spec fn fusion_marked(
    before: FusionCandidate,
    after: FusionCandidate,
    evidence: Seq<RecalledEvidence>,
) -> bool {
    let chosen = span_selected(evidence, before.span);
    &&& after.same_identity(before)
    &&& after.selected == chosen
    &&& after.reason@ == reason_after(
        chosen,
        before.reason@,
        text::has_prefix(before.reason@, "selected"@),
    )
}

pub open spec fn state_marked(
    before: StateSelection,
    after: StateSelection,
    evidence: Seq<RecalledEvidence>,
) -> bool {
    let chosen = opt_span_selected(evidence, before.evidence_span);
    &&& after.same_identity(before)
    &&& after.selected == chosen
    &&& after.reason@ == reason_after(
        chosen,
        before.reason@,
        text::has_prefix(before.reason@, "selected"@),
    )
}

/// Whether some fused candidate with a selected span comes from a document.
pub open spec fn document_selected(
    candidates: Seq<FusionCandidate>,
    evidence: Seq<RecalledEvidence>,
    document: Seq<char>,
) -> bool {
    exists|i: int|
        0 <= i < candidates.len() && span_selected(evidence, (#[trigger] candidates[i]).span) && (
        candidates[i].document_id@ == document || text::texts(
            candidates[i].source_document_ids@,
        ).contains(document))
}

pub open spec fn path_chosen(
    path: GraphPathTrace,
    evidence: Seq<RecalledEvidence>,
    candidates: Seq<FusionCandidate>,
) -> bool {
    document_selected(candidates, evidence, path.target_document_id@) || opt_span_selected(
        evidence,
        path.span,
    )
}

pub open spec fn path_marked(
    before: GraphPathTrace,
    after: GraphPathTrace,
    evidence: Seq<RecalledEvidence>,
    candidates: Seq<FusionCandidate>,
) -> bool {
    let chosen = path_chosen(before, evidence, candidates);
    &&& after.same_identity(before)
    &&& after.selected == chosen
    &&& after.reason@ == reason_after(
        chosen,
        before.reason@,
        text::has_prefix(before.reason@, "selected"@),
    )
}

/// A trace marked for a selection of evidence; what the retrieval found stays.
pub open spec fn trace_marked(
    before: RetrievalTrace,
    after: RetrievalTrace,
    evidence: Seq<RecalledEvidence>,
) -> bool {
    &&& after.same_run(before)
    &&& after.budget_allocation.same(before.budget_allocation)
    &&& after.selected_evidence@ == crate::context::selected_of(evidence)
    &&& after.candidates@.len() == before.candidates@.len()
    &&& forall|i: int|
        0 <= i < before.candidates@.len() ==> candidate_marked(
            before.candidates@[i],
            #[trigger] after.candidates@[i],
            evidence,
        )
    &&& after.fusion_candidates@.len() == before.fusion_candidates@.len()
    &&& forall|i: int|
        0 <= i < before.fusion_candidates@.len() ==> fusion_marked(
            before.fusion_candidates@[i],
            #[trigger] after.fusion_candidates@[i],
            evidence,
        )
    &&& after.state_selections@.len() == before.state_selections@.len()
    &&& forall|i: int|
        0 <= i < before.state_selections@.len() ==> state_marked(
            before.state_selections@[i],
            #[trigger] after.state_selections@[i],
            evidence,
        )
    &&& after.graph_paths@.len() == before.graph_paths@.len()
    &&& forall|i: int|
        0 <= i < before.graph_paths@.len() ==> path_marked(
            before.graph_paths@[i],
            #[trigger] after.graph_paths@[i],
            evidence,
            before.fusion_candidates@,
        )
}

fn reason_string(selected: bool, reason: &String, was_selected: bool) -> (r: String)
    ensures
        r@ == reason_after(selected, reason@, was_selected),
{
    if !selected && was_selected {
        "token_budget".to_owned()
    } else {
        reason.clone()
    }
}

fn mark_candidates(
    v: &Vec<model::RetrievalCandidate>,
    evidence: &Vec<RecalledEvidence>,
) -> (r: Vec<model::RetrievalCandidate>)
    ensures
        r@.len() == v@.len(),
        forall|i: int|
            0 <= i < v@.len() ==> candidate_marked(v@[i], #[trigger] r@[i], evidence@),
{
    let mut out: Vec<model::RetrievalCandidate> = Vec::new();
    let mut i: usize = 0;
    while i < v.len()
        invariant
            i <= v@.len(),
            out@.len() == i,
            forall|k: int|
                0 <= k < i ==> candidate_marked(v@[k], #[trigger] out@[k], evidence@),
        decreases v.len() - i,
    {
        let mut c = v[i].clone();
        let chosen = is_selected(evidence, &c.span);
        let was = text_eq(c.reason.as_str(), "selected_core");
        c.reason = reason_string(chosen, &c.reason, was);
        c.selected = chosen;
        out.push(c);
        i += 1;
    }
    out
}

fn mark_fusion(v: &Vec<FusionCandidate>, evidence: &Vec<RecalledEvidence>) -> (r: Vec<
    FusionCandidate,
>)
    ensures
        r@.len() == v@.len(),
        forall|i: int| 0 <= i < v@.len() ==> fusion_marked(v@[i], #[trigger] r@[i], evidence@),
{
    let mut out: Vec<FusionCandidate> = Vec::new();
    let mut i: usize = 0;
    while i < v.len()
        invariant
            i <= v@.len(),
            out@.len() == i,
            forall|k: int| 0 <= k < i ==> fusion_marked(v@[k], #[trigger] out@[k], evidence@),
        decreases v.len() - i,
    {
        let mut c = v[i].clone();
        let chosen = is_selected(evidence, &c.span);
        let was = starts_with(c.reason.as_str(), "selected");
        c.reason = reason_string(chosen, &c.reason, was);
        c.selected = chosen;
        out.push(c);
        i += 1;
    }
    out
}

fn mark_states(v: &Vec<StateSelection>, evidence: &Vec<RecalledEvidence>) -> (r: Vec<
    StateSelection,
>)
    ensures
        r@.len() == v@.len(),
        forall|i: int| 0 <= i < v@.len() ==> state_marked(v@[i], #[trigger] r@[i], evidence@),
{
    let mut out: Vec<StateSelection> = Vec::new();
    let mut i: usize = 0;
    while i < v.len()
        invariant
            i <= v@.len(),
            out@.len() == i,
            forall|k: int| 0 <= k < i ==> state_marked(v@[k], #[trigger] out@[k], evidence@),
        decreases v.len() - i,
    {
        let mut c = v[i].clone();
        let chosen = is_opt_selected(evidence, &c.evidence_span);
        let was = starts_with(c.reason.as_str(), "selected");
        c.reason = reason_string(chosen, &c.reason, was);
        c.selected = chosen;
        out.push(c);
        i += 1;
    }
    out
}

fn is_document_selected(
    candidates: &Vec<FusionCandidate>,
    evidence: &Vec<RecalledEvidence>,
    document: &str,
) -> (r: bool)
    ensures
        r == document_selected(candidates@, evidence@, document@),
{
    let mut i: usize = 0;
    while i < candidates.len()
        invariant
            i <= candidates@.len(),
            forall|k: int|
                0 <= k < i ==> !(span_selected(evidence@, (#[trigger] candidates@[k]).span) && (
                candidates@[k].document_id@ == document@ || text::texts(
                    candidates@[k].source_document_ids@,
                ).contains(document@))),
        decreases candidates.len() - i,
    {
        if is_selected(evidence, &candidates[i].span) && (text_eq(
            candidates[i].document_id.as_str(),
            document,
        ) || contains_text(&candidates[i].source_document_ids, document)) {
            assert(candidates@[i as int].span == candidates@[i as int].span);
            return true;
        }
        i += 1;
    }
    false
}

fn mark_paths(
    v: &Vec<GraphPathTrace>,
    evidence: &Vec<RecalledEvidence>,
    candidates: &Vec<FusionCandidate>,
) -> (r: Vec<GraphPathTrace>)
    ensures
        r@.len() == v@.len(),
        forall|i: int|
            0 <= i < v@.len() ==> path_marked(v@[i], #[trigger] r@[i], evidence@, candidates@),
{
    let mut out: Vec<GraphPathTrace> = Vec::new();
    let mut i: usize = 0;
    while i < v.len()
        invariant
            i <= v@.len(),
            out@.len() == i,
            forall|k: int|
                0 <= k < i ==> path_marked(v@[k], #[trigger] out@[k], evidence@, candidates@),
        decreases v.len() - i,
    {
        let mut c = v[i].clone();
        let chosen = is_document_selected(
            candidates,
            evidence,
            c.target_document_id.as_str(),
        ) || is_opt_selected(evidence, &c.span);
        let was = starts_with(c.reason.as_str(), "selected");
        c.reason = reason_string(chosen, &c.reason, was);
        c.selected = chosen;
        out.push(c);
        i += 1;
    }
    out
}

/// The recall that is left when only the picked groups are sent.
pub fn recall_for_groups(
    recall: &RecallResult,
    groups: &Vec<BudgetEvidenceGroup>,
    picked: &Vec<usize>,
) -> (r: RecallResult)
    ensures
        r.evidence@ == picked_evidence(group_models(groups@), picked@),
        trace_marked(recall.trace, r.trace, r.evidence@),
{
    let evidence = evidence_of_groups(groups, picked);
    let mut trace = recall.trace.clone();
    trace.selected_evidence = crate::context::selected_list(&evidence);
    trace.candidates = mark_candidates(&recall.trace.candidates, &evidence);
    trace.fusion_candidates = mark_fusion(&recall.trace.fusion_candidates, &evidence);
    trace.state_selections = mark_states(&recall.trace.state_selections, &evidence);
    trace.graph_paths = mark_paths(
        &recall.trace.graph_paths,
        &evidence,
        &recall.trace.fusion_candidates,
    );
    RecallResult { trace, evidence }
}

/// An exclusion by what it says.
pub struct ExclusionModel {
    pub bucket: BudgetBucket,
    pub id: Seq<char>,
    pub stage: Seq<char>,
    pub reason: Seq<char>,
    pub tokens: Option<u64>,
}

pub open spec fn exclusion_model(e: BudgetExclusionTrace) -> ExclusionModel {
    ExclusionModel {
        bucket: e.bucket,
        id: e.candidate_group_id@,
        stage: e.stage@,
        reason: e.reason@,
        tokens: e.exact_increment_tokens,
    }
}

pub open spec fn exclusion_models(v: Seq<BudgetExclusionTrace>) -> Seq<ExclusionModel> {
    Seq::new(v.len(), |i: int| exclusion_model(v[i]))
}

/// Whether an exclusion is about the group that a span belongs to.
pub open spec fn exclusion_hits(
    groups: Seq<GroupModel>,
    e: ExclusionModel,
    span: SourceSpan,
) -> bool {
    match group_from(groups, e.id, 0) {
        Some(p) => span_selected(groups[p].evidence, span),
        None => false,
    }
}

/// The reason of the last exclusion that is about a span.
pub open spec fn exclusion_reason(
    groups: Seq<GroupModel>,
    exclusions: Seq<ExclusionModel>,
    span: SourceSpan,
) -> Option<Seq<char>>
    decreases exclusions.len(),
{
    if exclusions.len() == 0 {
        None
    } else if exclusion_hits(groups, exclusions.last(), span) {
        Some(exclusions.last().reason)
    } else {
        exclusion_reason(groups, exclusions.drop_last(), span)
    }
}

pub open spec fn opt_exclusion_reason(
    groups: Seq<GroupModel>,
    exclusions: Seq<ExclusionModel>,
    span: Option<SourceSpan>,
) -> Option<Seq<char>> {
    match span {
        Some(value) => exclusion_reason(groups, exclusions, value),
        None => None,
    }
}

fn find_exclusion_reason(
    groups: &Vec<BudgetEvidenceGroup>,
    exclusions: &Vec<BudgetExclusionTrace>,
    span: &SourceSpan,
) -> (r: Option<String>)
    ensures
        text::opt_text(r) == exclusion_reason(
            group_models(groups@),
            exclusion_models(exclusions@),
            *span,
        ),
{
    let ghost models = exclusion_models(exclusions@);
    let mut i: usize = exclusions.len();
    assert(models.take(models.len() as int) =~= models);
    while i > 0
        invariant
            i <= exclusions@.len(),
            models == exclusion_models(exclusions@),
            exclusion_reason(group_models(groups@), models, *span) == exclusion_reason(
                group_models(groups@),
                models.take(i as int),
                *span,
            ),
        decreases i,
    {
        proof {
            assert(models.take(i as int).drop_last() =~= models.take(i - 1));
            assert(models.take(i as int).last() == models[i - 1]);
        }
        match find_group(groups, exclusions[i - 1].candidate_group_id.as_str()) {
            Some(p) => {
                if is_selected(&groups[p].evidence, span) {
                    return Some(exclusions[i - 1].reason.clone());
                }
            },
            None => {},
        }
        i -= 1;
    }
    assert(models.take(0) =~= Seq::empty());
    None
}

fn find_opt_exclusion_reason(
    groups: &Vec<BudgetEvidenceGroup>,
    exclusions: &Vec<BudgetExclusionTrace>,
    span: &Option<SourceSpan>,
) -> (r: Option<String>)
    ensures
        text::opt_text(r) == opt_exclusion_reason(
            group_models(groups@),
            exclusion_models(exclusions@),
            *span,
        ),
{
    match span {
        Some(value) => find_exclusion_reason(groups, exclusions, value),
        None => None,
    }
}

/// Selection and reason after an exclusion, which overrides both.
pub open spec fn excluded(
    selected: bool,
    reason: Seq<char>,
    exclusion: Option<Seq<char>>,
    selected_after: bool,
    reason_now: Seq<char>,
) -> bool {
    match exclusion {
        Some(r) => !selected_after && reason_now == r,
        None => selected_after == selected && reason_now == reason,
    }
}

/// A trace in which exclusions override the outcome of the selection.
pub open spec fn trace_excluded(
    before: RetrievalTrace,
    after: RetrievalTrace,
    groups: Seq<GroupModel>,
    exclusions: Seq<ExclusionModel>,
) -> bool {
    &&& after.same_run(before)
    &&& after.budget_allocation.same(before.budget_allocation)
    &&& after.selected_evidence@ == before.selected_evidence@
    &&& after.candidates@.len() == before.candidates@.len()
    &&& forall|i: int|
        0 <= i < before.candidates@.len() ==> {
            let b = before.candidates@[i];
            let a = #[trigger] after.candidates@[i];
            a.raw_rank == b.raw_rank && a.document_id == b.document_id && a.session_id
                == b.session_id && a.span == b.span && a.granularity == b.granularity && excluded(
                b.selected,
                b.reason@,
                exclusion_reason(groups, exclusions, b.span),
                a.selected,
                a.reason@,
            )
        }
    &&& after.fusion_candidates@.len() == before.fusion_candidates@.len()
    &&& forall|i: int|
        0 <= i < before.fusion_candidates@.len() ==> {
            let b = before.fusion_candidates@[i];
            let a = #[trigger] after.fusion_candidates@[i];
            a.same_identity(b) && excluded(
                b.selected,
                b.reason@,
                exclusion_reason(groups, exclusions, b.span),
                a.selected,
                a.reason@,
            )
        }
    &&& after.state_selections@.len() == before.state_selections@.len()
    &&& forall|i: int|
        0 <= i < before.state_selections@.len() ==> {
            let b = before.state_selections@[i];
            let a = #[trigger] after.state_selections@[i];
            a.same_identity(b) && excluded(
                b.selected,
                b.reason@,
                opt_exclusion_reason(groups, exclusions, b.evidence_span),
                a.selected,
                a.reason@,
            )
        }
    &&& after.graph_paths@.len() == before.graph_paths@.len()
    &&& forall|i: int|
        0 <= i < before.graph_paths@.len() ==> {
            let b = before.graph_paths@[i];
            let a = #[trigger] after.graph_paths@[i];
            a.same_identity(b) && excluded(
                b.selected,
                b.reason@,
                opt_exclusion_reason(groups, exclusions, b.span),
                a.selected,
                a.reason@,
            )
        }
}

/// Writes the reasons of exclusions into the candidates that they are about.
pub fn apply_budget_exclusion_reasons(
    trace: &mut RetrievalTrace,
    groups: &Vec<BudgetEvidenceGroup>,
    exclusions: &Vec<BudgetExclusionTrace>,
)
    ensures
        trace_excluded(
            *old(trace),
            *final(trace),
            group_models(groups@),
            exclusion_models(exclusions@),
        ),
{
    let ghost g = group_models(groups@);
    let ghost x = exclusion_models(exclusions@);
    let mut candidates: Vec<model::RetrievalCandidate> = Vec::new();
    let mut i: usize = 0;
    while i < trace.candidates.len()
        invariant
            i <= trace.candidates@.len(),
            candidates@.len() == i,
            g == group_models(groups@),
            x == exclusion_models(exclusions@),
            forall|k: int|
                0 <= k < i ==> {
                    let b = trace.candidates@[k];
                    let a = #[trigger] candidates@[k];
                    a.raw_rank == b.raw_rank && a.document_id == b.document_id && a.session_id
                        == b.session_id && a.span == b.span && a.granularity == b.granularity
                        && excluded(
                        b.selected,
                        b.reason@,
                        exclusion_reason(g, x, b.span),
                        a.selected,
                        a.reason@,
                    )
                },
        decreases trace.candidates.len() - i,
    {
        let mut c = trace.candidates[i].clone();
        if let Some(reason) = find_exclusion_reason(groups, exclusions, &c.span) {
            c.selected = false;
            c.reason = reason;
        }
        candidates.push(c);
        i += 1;
    }
    let mut fusion: Vec<FusionCandidate> = Vec::new();
    i = 0;
    while i < trace.fusion_candidates.len()
        invariant
            i <= trace.fusion_candidates@.len(),
            fusion@.len() == i,
            g == group_models(groups@),
            x == exclusion_models(exclusions@),
            forall|k: int|
                0 <= k < i ==> {
                    let b = trace.fusion_candidates@[k];
                    let a = #[trigger] fusion@[k];
                    a.same_identity(b) && excluded(
                        b.selected,
                        b.reason@,
                        exclusion_reason(g, x, b.span),
                        a.selected,
                        a.reason@,
                    )
                },
        decreases trace.fusion_candidates.len() - i,
    {
        let mut c = trace.fusion_candidates[i].clone();
        if let Some(reason) = find_exclusion_reason(groups, exclusions, &c.span) {
            c.selected = false;
            c.reason = reason;
        }
        fusion.push(c);
        i += 1;
    }
    let mut states: Vec<StateSelection> = Vec::new();
    i = 0;
    while i < trace.state_selections.len()
        invariant
            i <= trace.state_selections@.len(),
            states@.len() == i,
            g == group_models(groups@),
            x == exclusion_models(exclusions@),
            forall|k: int|
                0 <= k < i ==> {
                    let b = trace.state_selections@[k];
                    let a = #[trigger] states@[k];
                    a.same_identity(b) && excluded(
                        b.selected,
                        b.reason@,
                        opt_exclusion_reason(g, x, b.evidence_span),
                        a.selected,
                        a.reason@,
                    )
                },
        decreases trace.state_selections.len() - i,
    {
        let mut c = trace.state_selections[i].clone();
        if let Some(reason) = find_opt_exclusion_reason(groups, exclusions, &c.evidence_span) {
            c.selected = false;
            c.reason = reason;
        }
        states.push(c);
        i += 1;
    }
    let mut paths: Vec<GraphPathTrace> = Vec::new();
    i = 0;
    while i < trace.graph_paths.len()
        invariant
            i <= trace.graph_paths@.len(),
            paths@.len() == i,
            g == group_models(groups@),
            x == exclusion_models(exclusions@),
            forall|k: int|
                0 <= k < i ==> {
                    let b = trace.graph_paths@[k];
                    let a = #[trigger] paths@[k];
                    a.same_identity(b) && excluded(
                        b.selected,
                        b.reason@,
                        opt_exclusion_reason(g, x, b.span),
                        a.selected,
                        a.reason@,
                    )
                },
        decreases trace.graph_paths.len() - i,
    {
        let mut c = trace.graph_paths[i].clone();
        if let Some(reason) = find_opt_exclusion_reason(groups, exclusions, &c.span) {
            c.selected = false;
            c.reason = reason;
        }
        paths.push(c);
        i += 1;
    }
    trace.candidates = candidates;
    trace.fusion_candidates = fusion;
    trace.state_selections = states;
    trace.graph_paths = paths;
}

/// Every group belongs to a bucket of evidence.
pub proof fn groups_hold_evidence(trace: RetrievalTrace, evidence: Seq<RecalledEvidence>)
    ensures
        forall|i: int|
            0 <= i < groups_of(trace, evidence).len() ==> (#[trigger] groups_of(
                trace,
                evidence,
            )[i]).bucket != BudgetBucket::RecentHistory,
    decreases evidence.len(),
{
    if evidence.len() > 0 {
        groups_hold_evidence(trace, evidence.drop_last());
        let groups = groups_of(trace, evidence.drop_last());
        let all = groups_of(trace, evidence);
        parent_position_in_range(groups, evidence.last().selected.originating_candidate_rank);
        group_from_in_range(groups, group_id(trace, evidence.last().selected), 0);
        assert forall|i: int| 0 <= i < all.len() implies (#[trigger] all[i]).bucket
            != BudgetBucket::RecentHistory by {
            if i < groups.len() {
                assert(groups[i].bucket != BudgetBucket::RecentHistory);
            }
        }
    }
}

/// What is picked besides adds to the evidence and takes none away.
pub proof fn more_picks_give_more_evidence(
    groups: Seq<GroupModel>,
    less: Seq<usize>,
    more: Seq<usize>,
)
    requires
        forall|x: usize| #[trigger] less.contains(x) ==> more.contains(x),
    ensures
        picked_evidence(groups, less).len() <= picked_evidence(groups, more).len(),
        crate::context::all_evidence_bytes(picked_evidence(groups, less)) <= crate::context::all_evidence_bytes(
            picked_evidence(groups, more),
        ),
{
    let n = groups.len() as int;
    more_picks_give_more_of_a_bucket(groups, less, more, BudgetBucket::ExactOrState, n);
    more_picks_give_more_of_a_bucket(groups, less, more, BudgetBucket::Episode, n);
    more_picks_give_more_of_a_bucket(groups, less, more, BudgetBucket::Graph, n);
    picked_bytes_add_up(groups, less);
    picked_bytes_add_up(groups, more);
}

proof fn picked_bytes_add_up(groups: Seq<GroupModel>, picked: Seq<usize>)
    ensures
        crate::context::all_evidence_bytes(picked_evidence(groups, picked)) == crate::context::all_evidence_bytes(
            bucket_evidence(groups, picked, BudgetBucket::ExactOrState, groups.len() as int),
        ) + crate::context::all_evidence_bytes(
            bucket_evidence(groups, picked, BudgetBucket::Episode, groups.len() as int),
        ) + crate::context::all_evidence_bytes(
            bucket_evidence(groups, picked, BudgetBucket::Graph, groups.len() as int),
        ),
{
    let n = groups.len() as int;
    let exact = bucket_evidence(groups, picked, BudgetBucket::ExactOrState, n);
    let episode = bucket_evidence(groups, picked, BudgetBucket::Episode, n);
    let graph = bucket_evidence(groups, picked, BudgetBucket::Graph, n);
    crate::context::evidence_bytes_add_up(exact + episode, graph);
    crate::context::evidence_bytes_add_up(exact, episode);
}

proof fn more_picks_give_more_of_a_bucket(
    groups: Seq<GroupModel>,
    less: Seq<usize>,
    more: Seq<usize>,
    bucket: BudgetBucket,
    n: int,
)
    requires
        forall|x: usize| #[trigger] less.contains(x) ==> more.contains(x),
    ensures
        bucket_evidence(groups, less, bucket, n).len() <= bucket_evidence(
            groups,
            more,
            bucket,
            n,
        ).len(),
        crate::context::all_evidence_bytes(bucket_evidence(groups, less, bucket, n))
            <= crate::context::all_evidence_bytes(bucket_evidence(groups, more, bucket, n)),
    decreases n,
{
    if n > 0 {
        more_picks_give_more_of_a_bucket(groups, less, more, bucket, n - 1);
        let own = groups[n - 1].evidence;
        crate::context::evidence_bytes_add_up(bucket_evidence(groups, less, bucket, n - 1), own);
        crate::context::evidence_bytes_add_up(bucket_evidence(groups, more, bucket, n - 1), own);
        if less.contains((n - 1) as usize) {
            assert(more.contains((n - 1) as usize));
        }
    }
}

/// All evidence of the groups at the given positions, one after the other.
pub open spec fn evidence_at(groups: Seq<GroupModel>, picked: Seq<usize>) -> Seq<RecalledEvidence>
    decreases picked.len(),
{
    if picked.len() == 0 {
        Seq::empty()
    } else {
        evidence_at(groups, picked.drop_last()) + groups[picked.last() as int].evidence
    }
}

/// The texts of the evidence of one kind.
pub open spec fn contents_of(evidence: Seq<RecalledEvidence>, kind: EvidenceKind) -> Seq<Seq<char>> {
    let own = evidence.filter(|e: RecalledEvidence| e.selected.kind == kind);
    Seq::new(own.len(), |i: int| own[i].content@)
}

proof fn contents_grow(evidence: Seq<RecalledEvidence>, kind: EvidenceKind)
    requires
        evidence.len() > 0,
    ensures
        ({
            let before = contents_of(evidence.drop_last(), kind);
            let now = contents_of(evidence, kind);
            if evidence.last().selected.kind == kind {
                now == before.push(evidence.last().content@) && now.flatten().len()
                    == before.flatten().len() + evidence.last().content@.len()
            } else {
                now == before
            }
        }),
{
    reveal(Seq::filter);
    let before = contents_of(evidence.drop_last(), kind);
    let now = contents_of(evidence, kind);
    if evidence.last().selected.kind == kind {
        assert(now =~= before.push(evidence.last().content@));
        before.lemma_flatten_push(evidence.last().content@);
    } else {
        assert(now =~= before);
    }
}

proof fn weights_count(evidence: Seq<RecalledEvidence>)
    ensures
        evidence_weight(evidence, Measure::CoreSlots) == contents_of(
            evidence,
            EvidenceKind::Core,
        ).len(),
        evidence_weight(evidence, Measure::CoreChars) == contents_of(
            evidence,
            EvidenceKind::Core,
        ).flatten().len(),
        evidence_weight(evidence, Measure::ContextChars) == contents_of(
            evidence,
            EvidenceKind::Context,
        ).flatten().len(),
    decreases evidence.len(),
{
    if evidence.len() == 0 {
        reveal(Seq::filter);
        assert(contents_of(evidence, EvidenceKind::Core) =~= Seq::empty());
        assert(contents_of(evidence, EvidenceKind::Context) =~= Seq::empty());
    } else {
        weights_count(evidence.drop_last());
        contents_grow(evidence, EvidenceKind::Core);
        contents_grow(evidence, EvidenceKind::Context);
    }
}

proof fn weights_add_up(a: Seq<RecalledEvidence>, b: Seq<RecalledEvidence>, m: Measure)
    ensures
        evidence_weight(a + b, m) == evidence_weight(a, m) + evidence_weight(b, m),
    decreases b.len(),
{
    if b.len() == 0 {
        assert(a + b =~= a);
    } else {
        weights_add_up(a, b.drop_last(), m);
        assert((a + b).drop_last() =~= a + b.drop_last());
    }
}

proof fn picked_weigh_as_their_evidence(groups: Seq<GroupModel>, picked: Seq<usize>, m: Measure)
    ensures
        picked_weight(groups, picked, m) == evidence_weight(evidence_at(groups, picked), m),
    decreases picked.len(),
{
    if picked.len() > 0 {
        picked_weigh_as_their_evidence(groups, picked.drop_last(), m);
        weights_add_up(
            evidence_at(groups, picked.drop_last()),
            groups[picked.last() as int].evidence,
            m,
        );
    }
}

proof fn graph_groups_count(groups: Seq<GroupModel>, picked: Seq<usize>)
    ensures
        graph_count(groups, picked) == picked.filter(
            |g: usize| groups[g as int].bucket == BudgetBucket::Graph,
        ).len(),
    decreases picked.len(),
{
    reveal(Seq::filter);
    if picked.len() > 0 {
        graph_groups_count(groups, picked.drop_last());
    }
}

/// A group may join exactly where, with it, there is no more core evidence than
/// may be selected, core and context evidence have no more characters than their
/// budgets, and no more groups come from the graph than its limit. The first of
/// these that fails is the reason.
pub proof fn groups_join_within_the_limits(
    groups: Seq<GroupModel>,
    accepted: Seq<usize>,
    candidate: usize,
    config: RetrievalConfig,
    graph_candidate_limit: usize,
)
    ensures
        ({
            let all = accepted.push(candidate);
            let core = contents_of(evidence_at(groups, all), EvidenceKind::Core);
            let around = contents_of(evidence_at(groups, all), EvidenceKind::Context);
            let graph = all.filter(|g: usize| groups[g as int].bucket == BudgetBucket::Graph);
            let why = hard_reason(groups, accepted, candidate, config, graph_candidate_limit);
            &&& why is None <==> core.len() <= config.max_selected && core.flatten().len()
                <= config.evidence_char_budget && around.flatten().len()
                <= config.expansion_char_budget && graph.len() <= graph_candidate_limit
            &&& core.len() > config.max_selected ==> why == Some("hard_max_selected"@)
            &&& core.len() <= config.max_selected && core.flatten().len()
                > config.evidence_char_budget ==> why == Some("hard_core_chars"@)
            &&& core.len() <= config.max_selected && core.flatten().len()
                <= config.evidence_char_budget && around.flatten().len()
                > config.expansion_char_budget ==> why == Some("hard_context_chars"@)
            &&& why is Some && core.len() <= config.max_selected && core.flatten().len()
                <= config.evidence_char_budget && around.flatten().len()
                <= config.expansion_char_budget ==> why == Some("hard_max_selected"@)
        }),
{
    let all = accepted.push(candidate);
    picked_weigh_as_their_evidence(groups, all, Measure::CoreSlots);
    picked_weigh_as_their_evidence(groups, all, Measure::CoreChars);
    picked_weigh_as_their_evidence(groups, all, Measure::ContextChars);
    weights_count(evidence_at(groups, all));
    graph_groups_count(groups, all);
}

proof fn counts_grow(groups: Seq<GroupModel>, picked: Seq<usize>, more: Seq<usize>, x: usize)
    ensures
        forall|m: Measure| #[trigger]
            picked_weight(groups, picked.push(x), m) <= picked_weight(
                groups,
                (picked + more).push(x),
                m,
            ),
        graph_count(groups, picked.push(x)) <= graph_count(groups, (picked + more).push(x)),
    decreases more.len(),
{
    reveal_with_fuel(picked_weight, 3);
    reveal_with_fuel(graph_count, 3);
    if more.len() == 0 {
        assert(picked + more =~= picked);
    } else {
        let rest = more.drop_last();
        counts_grow(groups, picked, rest, x);
        assert((picked + more).drop_last() =~= picked + rest);
        assert((picked + more).push(x).drop_last() =~= picked + more);
        assert((picked + rest).push(x).drop_last() =~= picked + rest);
        assert forall|m: Measure| #[trigger]
            picked_weight(groups, picked.push(x), m) <= picked_weight(
                groups,
                (picked + more).push(x),
                m,
            ) by {
            assert(picked_weight(groups, picked.push(x), m) <= picked_weight(
                groups,
                (picked + rest).push(x),
                m,
            ));
        }
    }
}

/// A group that may not join some may not join them and others either.
pub proof fn refusals_stay(
    groups: Seq<GroupModel>,
    accepted: Seq<usize>,
    more: Seq<usize>,
    candidate: usize,
    config: RetrievalConfig,
    graph_candidate_limit: usize,
)
    requires
        hard_reason(groups, accepted, candidate, config, graph_candidate_limit) is Some,
    ensures
        hard_reason(groups, accepted + more, candidate, config, graph_candidate_limit) is Some,
{
    counts_grow(groups, accepted, more, candidate);
    let short = accepted.push(candidate);
    let long = (accepted + more).push(candidate);
    assert(picked_weight(groups, short, Measure::CoreSlots) <= picked_weight(
        groups,
        long,
        Measure::CoreSlots,
    ));
    assert(picked_weight(groups, short, Measure::CoreChars) <= picked_weight(
        groups,
        long,
        Measure::CoreChars,
    ));
    assert(picked_weight(groups, short, Measure::ContextChars) <= picked_weight(
        groups,
        long,
        Measure::ContextChars,
    ));
}

/// Two spans are the same place.
pub open spec fn same_place(a: SourceSpan, b: SourceSpan) -> bool {
    a.event_id@ == b.event_id@ && a.start_char == b.start_char && a.end_char == b.end_char
}

proof fn state_identity_is_some(states: Seq<StateSelection>, span: SourceSpan)
    ensures
        state_identity(states, span) is Some <==> exists|i: int|
            0 <= i < states.len() && (#[trigger] states[i]).evidence_span is Some && same_place(
                states[i].evidence_span->0,
                span,
            ),
    decreases states.len(),
{
    if states.len() > 0 {
        let rest = states.drop_last();
        state_identity_is_some(rest, span);
        let last = states.len() - 1;
        if exists|i: int|
            0 <= i < rest.len() && (#[trigger] rest[i]).evidence_span is Some && same_place(
                rest[i].evidence_span->0,
                span,
            ) {
            let i = choose|i: int|
                0 <= i < rest.len() && (#[trigger] rest[i]).evidence_span is Some && same_place(
                    rest[i].evidence_span->0,
                    span,
                );
            assert(states[i] == rest[i]);
        }
        if exists|i: int|
            0 <= i < states.len() && (#[trigger] states[i]).evidence_span is Some && same_place(
                states[i].evidence_span->0,
                span,
            ) {
            let i = choose|i: int|
                0 <= i < states.len() && (#[trigger] states[i]).evidence_span is Some && same_place(
                    states[i].evidence_span->0,
                    span,
                );
            if i < last {
                assert(rest[i] == states[i]);
            }
        }
        if state_identity(states, span) is Some && state_identity(rest, span) is None {
            assert(states[last] == states.last());
        }
    }
}

proof fn path_is_found(
    paths: Seq<GraphPathTrace>,
    span: SourceSpan,
    candidates: Seq<FusionCandidate>,
    fusion: Option<int>,
    i: int,
)
    requires
        0 <= i,
    ensures
        path_from(paths, span, candidates, fusion, i) is Some <==> exists|k: int|
            i <= k < paths.len() && path_leads_to(#[trigger] paths[k], span, candidates, fusion),
    decreases paths.len() - i,
{
    if i < paths.len() {
        path_is_found(paths, span, candidates, fusion, i + 1);
        assert(path_leads_to(paths[i], span, candidates, fusion) || paths[i] == paths[i]);
    }
}

proof fn fusion_is_the_only_one(candidates: Seq<FusionCandidate>, span: SourceSpan)
    ensures
        fusion_count(candidates, span) == Set::new(
            |i: int| 0 <= i < candidates.len() && same_place(candidates[i].span, span),
        ).len(),
        Set::new(
            |i: int| 0 <= i < candidates.len() && same_place(candidates[i].span, span),
        ).finite(),
        fusion_count(candidates, span) > 0 ==> 0 <= fusion_position(candidates, span)
            < candidates.len() && same_place(
            candidates[fusion_position(candidates, span)].span,
            span,
        ),
    decreases candidates.len(),
{
    let s = Set::new(|i: int| 0 <= i < candidates.len() && same_place(candidates[i].span, span));
    if candidates.len() == 0 {
        assert(s =~= Set::empty());
    } else {
        let rest = candidates.drop_last();
        let last = candidates.len() - 1;
        fusion_is_the_only_one(rest, span);
        let t = Set::new(|i: int| 0 <= i < rest.len() && same_place(rest[i].span, span));
        assert(forall|i: int| 0 <= i < rest.len() ==> rest[i] == candidates[i]);
        if same_place(candidates.last().span, span) {
            assert(s =~= t.insert(last));
        } else {
            assert(s =~= t);
        }
    }
}

/// Which bucket pays for a piece of core evidence: exact evidence and state where
/// a state was selected at its place, the graph where a path leads to it, episodes
/// where the one candidate at its place is an episode or a session, or stands in
/// one; and otherwise exact evidence and state again.
pub proof fn evidence_is_paid_by_its_origin(trace: RetrievalTrace, span: SourceSpan)
    ensures
        ({
            let states = trace.state_selections@;
            let paths = trace.graph_paths@;
            let candidates = trace.fusion_candidates@;
            let fusion = fusion_of(candidates, span);
            let here = Set::new(
                |i: int| 0 <= i < candidates.len() && same_place(candidates[i].span, span),
            );
            let stated = exists|i: int|
                0 <= i < states.len() && (#[trigger] states[i]).evidence_span is Some && same_place(
                    states[i].evidence_span->0,
                    span,
                );
            let walked = exists|k: int|
                0 <= k < paths.len() && path_leads_to(#[trigger] paths[k], span, candidates, fusion);
            let bucket = bucket_of(trace, span);
            &&& fusion is Some <==> here.len() == 1
            &&& fusion matches Some(p) ==> here.contains(p)
            &&& stated ==> bucket == BudgetBucket::ExactOrState
            &&& !stated && walked ==> bucket == BudgetBucket::Graph
            &&& !stated && !walked ==> (bucket == BudgetBucket::Episode <==> (fusion matches Some(p)
                && is_episode(candidates[p])))
            &&& bucket != BudgetBucket::RecentHistory
        }),
{
    let candidates = trace.fusion_candidates@;
    let fusion = fusion_of(candidates, span);
    state_identity_is_some(trace.state_selections@, span);
    path_is_found(trace.graph_paths@, span, candidates, fusion, 0);
    fusion_is_the_only_one(candidates, span);
}

/// Tokens are added to their bucket and to no other.
pub proof fn tokens_are_charged_to_one_bucket(
    value: BudgetTokenBreakdown,
    bucket: BudgetBucket,
    tokens: u64,
)
    requires
        value.recent_history + value.exact_or_state + value.episode + value.graph + tokens
            <= u64::MAX,
    ensures
        ({
            let more = breakdown_plus(value, bucket, tokens);
            &&& more.recent_history == value.recent_history + (if bucket
                == BudgetBucket::RecentHistory {
                tokens as int
            } else {
                0
            })
            &&& more.exact_or_state == value.exact_or_state + (if bucket
                == BudgetBucket::ExactOrState {
                tokens as int
            } else {
                0
            })
            &&& more.episode == value.episode + (if bucket == BudgetBucket::Episode {
                tokens as int
            } else {
                0
            })
            &&& more.graph == value.graph + (if bucket == BudgetBucket::Graph {
                tokens as int
            } else {
                0
            })
            &&& breakdown_total(more) == breakdown_total(value) + tokens
            &&& breakdown_total(value) == value.recent_history + value.exact_or_state
                + value.episode + value.graph
        }),
{
}

/// Groups with different names.
pub open spec fn groups_apart(groups: Seq<GroupModel>) -> bool {
    forall|i: int, j: int|
        0 <= i < groups.len() && 0 <= j < groups.len() && i != j ==> (#[trigger] groups[i]).id != (
        #[trigger] groups[j]).id
}

/// A piece of evidence stands in the group of its name.
pub open spec fn in_its_group(
    groups: Seq<GroupModel>,
    trace: RetrievalTrace,
    e: RecalledEvidence,
) -> bool {
    exists|g: int|
        0 <= g < groups.len() && (#[trigger] groups[g]).id == group_id(trace, e.selected)
            && groups[g].evidence.contains(e)
}

proof fn group_found(groups: Seq<GroupModel>, id: Seq<char>, i: int)
    requires
        0 <= i,
    ensures
        match group_from(groups, id, i) {
            Some(p) => i <= p < groups.len() && groups[p].id == id,
            None => forall|k: int| i <= k < groups.len() ==> (#[trigger] groups[k]).id != id,
        },
    decreases groups.len() - i,
{
    if i < groups.len() && groups[i].id != id {
        group_found(groups, id, i + 1);
    }
}

/// Every piece of core evidence stands in the group of its name, and no two groups
/// have one name.
pub proof fn core_evidence_is_grouped(
    trace: RetrievalTrace,
    evidence: Seq<RecalledEvidence>,
    k: int,
)
    requires
        0 <= k < evidence.len(),
    ensures
        groups_apart(groups_of(trace, evidence)),
        evidence[k].selected.kind == EvidenceKind::Core ==> in_its_group(
            groups_of(trace, evidence),
            trace,
            evidence[k],
        ),
    decreases evidence.len(),
{
    let rest = evidence.drop_last();
    let before = groups_of(trace, rest);
    let now = groups_of(trace, evidence);
    let e = evidence.last();
    let rank = e.selected.originating_candidate_rank;
    let id = group_id(trace, e.selected);
    if rest.len() > 0 {
        core_evidence_is_grouped(trace, rest, 0);
    }
    assert(groups_apart(before));
    group_found(before, id, 0);
    parent_position_in_range(before, rank);
    assert(groups_apart(now)) by {
        assert forall|i: int, j: int|
            0 <= i < now.len() && 0 <= j < now.len() && i != j implies (#[trigger] now[i]).id != (
        #[trigger] now[j]).id by {
            if i < before.len() {
                assert(now[i].id == before[i].id);
            }
            if j < before.len() {
                assert(now[j].id == before[j].id);
            }
        }
    }
    if k < rest.len() {
        assert(rest[k] == evidence[k]);
        if evidence[k].selected.kind == EvidenceKind::Core {
            core_evidence_is_grouped(trace, rest, k);
            let g = choose|g: int|
                0 <= g < before.len() && (#[trigger] before[g]).id == group_id(
                    trace,
                    evidence[k].selected,
                ) && before[g].evidence.contains(evidence[k]);
            let m = choose|m: int|
                0 <= m < before[g].evidence.len() && before[g].evidence[m] == evidence[k];
            assert(now[g].id == before[g].id);
            assert(now[g].evidence[m] == evidence[k]);
        }
    } else if e.selected.kind == EvidenceKind::Core {
        match group_from(before, id, 0) {
            Some(p) => {
                assert(now[p].evidence.last() == e);
                assert(now[p].evidence[now[p].evidence.len() - 1] == e);
                assert(now[p].id == id);
            },
            None => {
                let p = before.len() as int;
                assert(now[p].id == id);
                assert(now[p].evidence[0] == e);
            },
        }
    }
}

} // verus!
