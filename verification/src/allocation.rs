//! The allocation of a turn's input tokens: recent history and groups of
//! evidence are taken greedily within their shares, then what is left over is
//! offered to each bucket in turn.

use vstd::prelude::*;
use vstd::string::*;

use crate::attribution::{
    self, attribute, breakdown_by_bucket, settle, trace_reflow, AcceptedBudgetUnit,
};
use crate::budget::{
    self, add_breakdown, apply_budget_exclusion_reasons, breakdown_sum, budget_evidence_groups,
    hard_exclusion_reason, is_selected,
    recall_for_groups, BudgetEvidenceGroup,
};
use crate::clock::{elapsed_millis, now};
use crate::context::{self, contains_index, ContextAssembler};
use crate::digest::{self, content_sha256};
use crate::knowledge::KnowledgeRecall;
use crate::model::{
    self, copy_list, BudgetAllocationTrace, BudgetBucket, BudgetExclusionTrace, BudgetProbeTrace,
    BudgetStageLatencyTrace, BudgetTokenBreakdown, ContextPlan, EvidenceKind, RecallResult,
    RecalledEvidence, RetrievalTrace, SelectedEvidence, Session, SourceSpan,
};
use crate::text::{self, push_decimal, text_eq};

verus! {

/// What an allocation is made for.
pub struct AllocationRequest<'a> {
    pub session: &'a Session,
    pub turn_index: usize,
    pub history: &'a Vec<usize>,
    pub user_content: &'a str,
    pub recall: &'a RecallResult,
    pub knowledge: &'a KnowledgeRecall,
    pub allocation_limit: u64,
    pub graph_candidate_limit: usize,
}

/// The tokens of a plan: exact when known, else the upper estimate.
pub open spec fn metric_of(plan: ContextPlan) -> Option<u64> {
    match plan.exact_input_tokens {
        Some(value) => Some(value),
        None => plan.estimated_upper_tokens,
    }
}

/// The tokens of a plan, if it has any count.
pub fn plan_metric(plan: &ContextPlan) -> (r: Option<u64>)
    ensures
        r == metric_of(*plan),
{
    match plan.exact_input_tokens {
        Some(value) => Some(value),
        None => plan.estimated_upper_tokens,
    }
}

impl<'a> AllocationRequest<'a> {
    pub open spec fn groups(&self) -> Seq<budget::GroupModel> {
        budget::groups_of(self.recall.trace, self.recall.evidence@)
    }

    /// The estimated tokens of a request with a history and picked groups.
    pub open spec fn tokens(&self, history: Seq<usize>, picked: Seq<usize>) -> u64 {
        context::upper_bound(
            context::request_messages(
                *self.session,
                self.user_content@,
                history,
                budget::picked_evidence(self.groups(), picked),
                context::injected_of(Some(self.knowledge)),
            ),
        )
    }

    /// The tokens that no choice can avoid.
    pub open spec fn mandatory(&self) -> u64 {
        self.tokens(Seq::empty(), Seq::empty())
    }

    /// What the limit leaves for history and evidence.
    pub open spec fn available(&self) -> u64 {
        budget::floored_sub(self.allocation_limit, self.mandatory())
    }

    pub open spec fn percent(&self, bucket: BudgetBucket) -> u8 {
        let allocation = self.recall.trace.budget_allocation;
        match bucket {
            BudgetBucket::RecentHistory => allocation.recent_history_percent,
            BudgetBucket::ExactOrState => allocation.exact_or_state_percent,
            BudgetBucket::Episode => allocation.episode_percent,
            BudgetBucket::Graph => allocation.graph_percent,
        }
    }

    /// The share of the available tokens that a bucket starts with.
    pub open spec fn share(&self, bucket: BudgetBucket) -> u64 {
        (self.available() * self.percent(bucket) / 100) as u64
    }

    pub open spec fn shares(&self) -> BudgetTokenBreakdown {
        BudgetTokenBreakdown {
            recent_history: self.share(BudgetBucket::RecentHistory),
            exact_or_state: self.share(BudgetBucket::ExactOrState),
            episode: self.share(BudgetBucket::Episode),
            graph: self.share(BudgetBucket::Graph),
        }
    }

    pub open spec fn hard(&self, accepted: Seq<usize>, candidate: usize) -> Option<Seq<char>> {
        budget::hard_reason(
            self.groups(),
            accepted,
            candidate,
            self.session.retrieval,
            self.graph_candidate_limit,
        )
    }

    /// A history of turns in ascending order, and a limit whose shares can be
    /// computed in 64 bits.
    pub open spec fn wf(&self) -> bool {
        &&& context::in_range(self.history@, self.session.turns@.len())
        &&& forall|i: int, j: int|
            0 <= i < j < self.history@.len() ==> self.history@[i] < self.history@[j]
        &&& forall|b: BudgetBucket| self.allocation_limit * #[trigger] self.percent(b) <= u64::MAX
    }
}

/// The key under which the cost of a refused turn is remembered.
pub open spec fn turn_key(session: Session, index: usize) -> Seq<char> {
    "turn:"@ + session.turns@[index as int].id@
}

/// Where an allocation stands.
pub struct AllocationModel {
    pub history: Seq<usize>,
    pub picked: Seq<usize>,
    pub current: u64,
    pub actual: BudgetTokenBreakdown,
    pub rejected: Seq<(Seq<char>, u64)>,
    pub log: Seq<AcceptedBudgetUnit>,
}

pub open spec fn started<'a>(r: &AllocationRequest<'a>) -> AllocationModel {
    AllocationModel {
        history: Seq::empty(),
        picked: Seq::empty(),
        current: r.mandatory(),
        actual: r.recall.trace.budget_allocation.actual_tokens,
        rejected: Seq::empty(),
        log: Seq::empty(),
    }
}

/// A turn taken in front of the history taken so far.
pub open spec fn with_turn<'a>(
    r: &AllocationRequest<'a>,
    st: AllocationModel,
    index: usize,
    reflow: bool,
) -> AllocationModel {
    let history = seq![index] + st.history;
    let tokens = r.tokens(history, st.picked);
    AllocationModel {
        history,
        current: tokens,
        actual: budget::breakdown_plus(
            st.actual,
            BudgetBucket::RecentHistory,
            budget::floored_sub(tokens, st.current),
        ),
        log: st.log.push(
            AcceptedBudgetUnit::Recent {
                index,
                metric_before: st.current,
                metric_after: tokens,
                reflow,
            },
        ),
        ..st
    }
}

/// A turn that did not fit, with what it would have cost.
pub open spec fn without_turn<'a>(
    r: &AllocationRequest<'a>,
    st: AllocationModel,
    index: usize,
) -> AllocationModel {
    let tokens = r.tokens(seq![index] + st.history, st.picked);
    AllocationModel {
        rejected: st.rejected.push(
            (turn_key(*r.session, index), budget::floored_sub(tokens, st.current)),
        ),
        ..st
    }
}

pub open spec fn with_group<'a>(
    r: &AllocationRequest<'a>,
    st: AllocationModel,
    group: usize,
    reflow: bool,
) -> AllocationModel {
    let picked = st.picked.push(group);
    let tokens = r.tokens(st.history, picked);
    let bucket = r.groups()[group as int].bucket;
    AllocationModel {
        picked,
        current: tokens,
        actual: budget::breakdown_plus(
            st.actual,
            bucket,
            budget::floored_sub(tokens, st.current),
        ),
        log: st.log.push(
            AcceptedBudgetUnit::Evidence {
                group,
                bucket,
                metric_before: st.current,
                metric_after: tokens,
                reflow,
            },
        ),
        ..st
    }
}

pub open spec fn without_group<'a>(
    r: &AllocationRequest<'a>,
    st: AllocationModel,
    group: usize,
) -> AllocationModel {
    let tokens = r.tokens(st.history, st.picked.push(group));
    AllocationModel {
        rejected: st.rejected.push(
            (r.groups()[group as int].id, budget::floored_sub(tokens, st.current)),
        ),
        ..st
    }
}

/// Takes turns from the newest of the first `n` backwards while they fit into
/// the share of the history.
pub open spec fn take_recent<'a>(
    r: &AllocationRequest<'a>,
    st: AllocationModel,
    n: int,
) -> AllocationModel
    decreases n,
{
    if n <= 0 {
        st
    } else {
        let index = r.history@[n - 1];
        let tokens = r.tokens(seq![index] + st.history, st.picked);
        if tokens <= budget::capped_add(r.mandatory(), r.share(BudgetBucket::RecentHistory))
            && tokens <= r.allocation_limit {
            take_recent(r, with_turn(r, st, index, false), n - 1)
        } else {
            without_turn(r, st, index)
        }
    }
}

/// Considers one group for its bucket's share.
pub open spec fn take_group<'a>(
    r: &AllocationRequest<'a>,
    bucket: BudgetBucket,
    base: u64,
    st: AllocationModel,
    i: int,
) -> AllocationModel {
    let group = i as usize;
    if r.groups()[i].bucket != bucket || r.hard(st.picked, group) is Some {
        st
    } else {
        let tokens = r.tokens(st.history, st.picked.push(group));
        if tokens <= r.allocation_limit && budget::floored_sub(tokens, base) <= r.share(bucket) {
            with_group(r, st, group, false)
        } else {
            without_group(r, st, group)
        }
    }
}

/// Considers the first `n` groups of a bucket in order.
pub open spec fn take_groups<'a>(
    r: &AllocationRequest<'a>,
    bucket: BudgetBucket,
    base: u64,
    st: AllocationModel,
    n: int,
) -> AllocationModel
    decreases n,
{
    if n <= 0 {
        st
    } else {
        take_group(r, bucket, base, take_groups(r, bucket, base, st, n - 1), n - 1)
    }
}

pub open spec fn take_bucket<'a>(
    r: &AllocationRequest<'a>,
    bucket: BudgetBucket,
    st: AllocationModel,
) -> AllocationModel {
    take_groups(r, bucket, st.current, st, r.groups().len() as int)
}

/// Offers what is left over to older turns, newest first.
pub open spec fn reflow_recent<'a>(
    r: &AllocationRequest<'a>,
    st: AllocationModel,
    pool: u64,
    n: int,
) -> (AllocationModel, u64)
    decreases n,
{
    if n <= 0 {
        (st, pool)
    } else {
        let index = r.history@[n - 1];
        let tokens = r.tokens(seq![index] + st.history, st.picked);
        let increment = budget::floored_sub(tokens, st.current);
        if tokens <= r.allocation_limit && increment <= pool {
            reflow_recent(r, with_turn(r, st, index, true), (pool - increment) as u64, n - 1)
        } else {
            (without_turn(r, st, index), pool)
        }
    }
}

/// Offers what is left over to one group.
pub open spec fn reflow_group<'a>(
    r: &AllocationRequest<'a>,
    bucket: BudgetBucket,
    st: AllocationModel,
    pool: u64,
    i: int,
) -> (AllocationModel, u64) {
    let group = i as usize;
    if r.groups()[i].bucket != bucket || st.picked.contains(group) || r.hard(
        st.picked,
        group,
    ) is Some {
        (st, pool)
    } else {
        let tokens = r.tokens(st.history, st.picked.push(group));
        let increment = budget::floored_sub(tokens, st.current);
        if tokens <= r.allocation_limit && increment <= pool {
            (with_group(r, st, group, true), (pool - increment) as u64)
        } else {
            (without_group(r, st, group), pool)
        }
    }
}

pub open spec fn reflow_groups<'a>(
    r: &AllocationRequest<'a>,
    bucket: BudgetBucket,
    st: AllocationModel,
    pool: u64,
    n: int,
) -> (AllocationModel, u64)
    decreases n,
{
    if n <= 0 {
        (st, pool)
    } else {
        let rest = reflow_groups(r, bucket, st, pool, n - 1);
        reflow_group(r, bucket, rest.0, rest.1, n - 1)
    }
}

/// The choice after every bucket has had its share.
pub open spec fn shares_taken<'a>(r: &AllocationRequest<'a>) -> AllocationModel {
    let s1 = take_recent(r, started(r), r.history@.len() as int);
    let s2 = take_bucket(r, BudgetBucket::ExactOrState, s1);
    let s3 = take_bucket(r, BudgetBucket::Episode, s2);
    take_bucket(r, BudgetBucket::Graph, s3)
}

/// The tokens left over once every bucket has had its share.
pub open spec fn left_over<'a>(r: &AllocationRequest<'a>) -> u64 {
    budget::floored_sub(r.available(), budget::breakdown_total(shares_taken(r).actual))
}

/// The choice after the history was offered what is left over, and what remains.
pub open spec fn recent_offered<'a>(r: &AllocationRequest<'a>) -> (AllocationModel, u64) {
    let s = shares_taken(r);
    reflow_recent(r, s, left_over(r), r.history@.len() - s.history.len())
}

/// A choice after a bucket was offered what remains.
pub open spec fn bucket_offered<'a>(
    r: &AllocationRequest<'a>,
    bucket: BudgetBucket,
    before: (AllocationModel, u64),
) -> (AllocationModel, u64) {
    reflow_groups(r, bucket, before.0, before.1, r.groups().len() as int)
}

/// The whole choice: shares first, then what is left over.
pub open spec fn allocated<'a>(r: &AllocationRequest<'a>) -> AllocationModel {
    let exact = bucket_offered(r, BudgetBucket::ExactOrState, recent_offered(r));
    let episode = bucket_offered(r, BudgetBucket::Episode, exact);
    bucket_offered(r, BudgetBucket::Graph, episode).0
}

/// What every step of an allocation keeps.
pub open spec fn coherent<'a>(r: &AllocationRequest<'a>, st: AllocationModel) -> bool {
    &&& st.current == r.tokens(st.history, st.picked)
    &&& st.log.len() > 0 ==> st.current <= r.allocation_limit
    &&& st.log.len() == 0 ==> st.history.len() == 0 && st.picked.len() == 0
    &&& attribution::log_chained(st.log, r.mandatory(), st.current)
    &&& st.history.len() <= r.history@.len()
    &&& st.history == r.history@.skip(r.history@.len() - st.history.len())
    &&& context::in_range(st.picked, r.groups().len())
    &&& r.groups().len() <= usize::MAX
}

proof fn turn_keeps_coherence<'a>(
    r: &AllocationRequest<'a>,
    st: AllocationModel,
    n: int,
    reflow: bool,
)
    requires
        coherent(r, st),
        0 < n <= r.history@.len(),
        n == r.history@.len() - st.history.len(),
        r.tokens(seq![r.history@[n - 1]] + st.history, st.picked) <= r.allocation_limit,
    ensures
        coherent(r, with_turn(r, st, r.history@[n - 1], reflow)),
{
    let next = with_turn(r, st, r.history@[n - 1], reflow);
    attribution::log_grows(st.log, next.log.last(), r.mandatory(), st.current);
    assert(next.history =~= r.history@.skip(n - 1));
}

proof fn group_keeps_coherence<'a>(
    r: &AllocationRequest<'a>,
    st: AllocationModel,
    group: usize,
    reflow: bool,
)
    requires
        coherent(r, st),
        group < r.groups().len(),
        r.tokens(st.history, st.picked.push(group)) <= r.allocation_limit,
    ensures
        coherent(r, with_group(r, st, group, reflow)),
{
    let next = with_group(r, st, group, reflow);
    attribution::log_grows(st.log, next.log.last(), r.mandatory(), st.current);
    assert forall|i: int| 0 <= i < next.picked.len() implies (#[trigger] next.picked[i])
        < r.groups().len() by {
        if i < st.picked.len() {
            assert(next.picked[i] == st.picked[i]);
        }
    }
}

/// Where an allocation stands, as the code holds it.
struct Allocation {
    history: Vec<usize>,
    picked: Vec<usize>,
    current: u64,
    actual: BudgetTokenBreakdown,
    rejected: Vec<(String, u64)>,
    log: Vec<AcceptedBudgetUnit>,
}

spec fn rejected_model(v: Seq<(String, u64)>) -> Seq<(Seq<char>, u64)> {
    Seq::new(v.len(), |i: int| (v[i].0@, v[i].1))
}

impl Allocation {
    spec fn model(&self) -> AllocationModel {
        AllocationModel {
            history: self.history@,
            picked: self.picked@,
            current: self.current,
            actual: self.actual,
            rejected: rejected_model(self.rejected@),
            log: self.log@,
        }
    }
}

/// The tokens of a request with a history and picked groups.
fn tokens_with<'a>(
    r: &AllocationRequest<'a>,
    groups: &Vec<BudgetEvidenceGroup>,
    history: &Vec<usize>,
    picked: &Vec<usize>,
) -> (tokens: u64)
    requires
        budget::group_models(groups@) == r.groups(),
        context::in_range(history@, r.session.turns@.len()),
    ensures
        tokens == r.tokens(history@, picked@),
{
    let recall = recall_for_groups(r.recall, groups, picked);
    let plan = ContextAssembler.assemble_with_recall_and_knowledge(
        r.session,
        r.user_content,
        Some(history),
        Some(r.turn_index),
        Some(&recall),
        Some(r.knowledge),
    );
    match plan_metric(&plan) {
        Some(value) => value,
        None => 0,
    }
}

fn prepend(index: usize, history: &Vec<usize>) -> (r: Vec<usize>)
    ensures
        r@ == seq![index] + history@,
{
    let mut out: Vec<usize> = Vec::new();
    out.push(index);
    let mut rest = copy_list(history);
    out.append(&mut rest);
    assert(out@ =~= seq![index] + history@);
    out
}

fn append_index(picked: &Vec<usize>, group: usize) -> (r: Vec<usize>)
    ensures
        r@ == picked@.push(group),
{
    let mut out = copy_list(picked);
    out.push(group);
    out
}

fn turn_key_string(session: &Session, index: usize) -> (r: String)
    requires
        index < session.turns@.len(),
    ensures
        r@ == turn_key(*session, index),
{
    let mut out = "turn:".to_owned();
    out.append(session.turns[index].id.as_str());
    out
}

proof fn suffix_in_range(history: Seq<usize>, from: int, n: nat)
    requires
        context::in_range(history, n),
        0 <= from <= history.len(),
    ensures
        context::in_range(history.skip(from), n),
{
    let s = history.skip(from);
    assert forall|i: int| 0 <= i < s.len() implies (#[trigger] s[i]) < n by {
        assert(s[i] == history[from + i]);
    }
}

impl Allocation {
    /// Tries the turn before those taken; reports whether it was taken.
    fn try_turn<'a>(
        &mut self,
        r: &AllocationRequest<'a>,
        groups: &Vec<BudgetEvidenceGroup>,
        n: usize,
        limit: u64,
        pool: Option<u64>,
    ) -> (taken: Option<u64>)
        requires
            r.wf(),
            budget::group_models(groups@) == r.groups(),
            coherent(r, old(self).model()),
            0 < n <= r.history@.len(),
            n == r.history@.len() - old(self).history@.len(),
            limit <= r.allocation_limit,
        ensures
            ({
                let st = old(self).model();
                let index = r.history@[n - 1];
                let tokens = r.tokens(seq![index] + st.history, st.picked);
                let increment = budget::floored_sub(tokens, st.current);
                let fits = tokens <= limit && (pool is Some ==> increment <= pool->0);
                &&& coherent(r, final(self).model())
                &&& taken == (if fits {
                    Some(increment)
                } else {
                    None
                })
                &&& final(self).model() == (if fits {
                    with_turn(r, st, index, pool is Some)
                } else {
                    without_turn(r, st, index)
                })
            }),
    {
        let ghost st = self.model();
        let index = r.history[n - 1];
        proof {
            assert(r.history@[n - 1] < r.session.turns@.len());
            suffix_in_range(r.history@, n as int - 1, r.session.turns@.len());
            assert(seq![index] + self.history@ =~= r.history@.skip(n as int - 1));
        }
        let proposed = prepend(index, &self.history);
        let tokens = tokens_with(r, groups, &proposed, &self.picked);
        let increment = tokens.saturating_sub(self.current);
        let affordable = match pool {
            Some(left) => increment <= left,
            None => true,
        };
        if tokens <= limit && affordable {
            let before = self.current;
            self.history = proposed;
            add_breakdown(&mut self.actual, BudgetBucket::RecentHistory, increment);
            self.log.push(
                AcceptedBudgetUnit::Recent {
                    index,
                    metric_before: before,
                    metric_after: tokens,
                    reflow: pool.is_some(),
                },
            );
            self.current = tokens;
            proof {
                turn_keeps_coherence(r, st, n as int, pool is Some);
                assert(self.model() == with_turn(r, st, index, pool is Some));
            }
            Some(increment)
        } else {
            let key = turn_key_string(r.session, index);
            self.rejected.push((key, increment));
            proof {
                assert(self.model().rejected =~= without_turn(r, st, index).rejected);
                assert(self.model() == without_turn(r, st, index));
            }
            None
        }
    }

    /// Tries a group; reports what it cost if it was taken.
    fn try_group<'a>(
        &mut self,
        r: &AllocationRequest<'a>,
        groups: &Vec<BudgetEvidenceGroup>,
        group: usize,
        base: u64,
        limit: u64,
        reflow: bool,
    ) -> (taken: Option<u64>)
        requires
            r.wf(),
            budget::group_models(groups@) == r.groups(),
            coherent(r, old(self).model()),
            group < groups@.len(),
            reflow ==> base == old(self).current,
        ensures
            ({
                let st = old(self).model();
                let tokens = r.tokens(st.history, st.picked.push(group));
                let increment = budget::floored_sub(tokens, st.current);
                let fits = tokens <= r.allocation_limit && budget::floored_sub(tokens, base)
                    <= limit;
                &&& coherent(r, final(self).model())
                &&& taken == (if fits {
                    Some(increment)
                } else {
                    None
                })
                &&& final(self).model() == (if fits {
                    with_group(r, st, group, reflow)
                } else {
                    without_group(r, st, group)
                })
            }),
    {
        let ghost st = self.model();
        let proposed = append_index(&self.picked, group);
        proof {
            suffix_in_range(
                r.history@,
                r.history@.len() - self.history@.len(),
                r.session.turns@.len(),
            );
        }
        let tokens = tokens_with(r, groups, &self.history, &proposed);
        let increment = tokens.saturating_sub(self.current);
        if tokens <= r.allocation_limit && tokens.saturating_sub(base) <= limit {
            let before = self.current;
            let bucket = groups[group].bucket;
            proof {
                assert(r.groups()[group as int].bucket == bucket);
            }
            self.picked = proposed;
            add_breakdown(&mut self.actual, bucket, increment);
            self.log.push(
                AcceptedBudgetUnit::Evidence {
                    group,
                    bucket,
                    metric_before: before,
                    metric_after: tokens,
                    reflow,
                },
            );
            self.current = tokens;
            proof {
                group_keeps_coherence(r, st, group, reflow);
                assert(self.model() == with_group(r, st, group, reflow));
            }
            Some(increment)
        } else {
            let id = groups[group].id.clone();
            proof {
                assert(r.groups()[group as int].id == id@);
            }
            self.rejected.push((id, increment));
            proof {
                assert(self.model().rejected =~= without_group(r, st, group).rejected);
                assert(self.model() == without_group(r, st, group));
            }
            None
        }
    }

    fn take_recent<'a>(
        &mut self,
        r: &AllocationRequest<'a>,
        groups: &Vec<BudgetEvidenceGroup>,
        share: u64,
    )
        requires
            share == r.share(BudgetBucket::RecentHistory),
            r.wf(),
            budget::group_models(groups@) == r.groups(),
            coherent(r, old(self).model()),
            old(self).history@.len() == 0,
            old(self).current == r.mandatory(),
        ensures
            coherent(r, final(self).model()),
            final(self).model() == take_recent(r, old(self).model(), r.history@.len() as int),
    {
        let ghost start = self.model();
        let recent_limit = self.current.saturating_add(share);
        let limit = if recent_limit < r.allocation_limit {
            recent_limit
        } else {
            r.allocation_limit
        };
        let mut n: usize = r.history.len();
        while n > 0
            invariant_except_break
                n == r.history@.len() - self.history@.len(),
                take_recent(r, start, r.history@.len() as int) == take_recent(
                    r,
                    self.model(),
                    n as int,
                ),
            invariant
                r.wf(),
                n <= r.history@.len(),
                budget::group_models(groups@) == r.groups(),
                coherent(r, self.model()),
                limit <= r.allocation_limit,
                limit == budget::capped_add(
                    r.mandatory(),
                    r.share(BudgetBucket::RecentHistory),
                ) || limit == r.allocation_limit,
                limit <= budget::capped_add(
                    r.mandatory(),
                    r.share(BudgetBucket::RecentHistory),
                ),
            ensures
                coherent(r, self.model()),
                self.model() == take_recent(r, start, r.history@.len() as int),
            decreases n,
        {
            let taken = self.try_turn(r, groups, n, limit, None);
            if taken.is_none() {
                break;
            }
            n -= 1;
        }
    }

    fn take_bucket<'a>(
        &mut self,
        r: &AllocationRequest<'a>,
        groups: &Vec<BudgetEvidenceGroup>,
        bucket: BudgetBucket,
        share: u64,
    )
        requires
            r.wf(),
            budget::group_models(groups@) == r.groups(),
            coherent(r, old(self).model()),
            share == r.share(bucket),
        ensures
            coherent(r, final(self).model()),
            final(self).model() == take_bucket(r, bucket, old(self).model()),
    {
        let ghost start = self.model();
        let base = self.current;
        let mut i: usize = 0;
        while i < groups.len()
            invariant
                r.wf(),
                i <= groups@.len(),
                groups@.len() == r.groups().len(),
                budget::group_models(groups@) == r.groups(),
                coherent(r, self.model()),
                share == r.share(bucket),
                base == start.current,
                self.model() == take_groups(r, bucket, base, start, i as int),
            decreases groups.len() - i,
        {
            if groups[i].bucket == bucket {
                let reason = hard_exclusion_reason(
                    groups,
                    &self.picked,
                    i,
                    &r.session.retrieval,
                    r.graph_candidate_limit,
                );
                if reason.is_none() {
                    let _ = self.try_group(r, groups, i, base, share, false);
                }
            }
            i += 1;
        }
    }

    fn reflow_recent<'a>(
        &mut self,
        r: &AllocationRequest<'a>,
        groups: &Vec<BudgetEvidenceGroup>,
        offered: u64,
    ) -> (pool: u64)
        requires
            r.wf(),
            budget::group_models(groups@) == r.groups(),
            coherent(r, old(self).model()),
        ensures
            coherent(r, final(self).model()),
            (final(self).model(), pool) == reflow_recent(
                r,
                old(self).model(),
                offered,
                r.history@.len() - old(self).history@.len(),
            ),
    {
        let ghost start = self.model();
        let mut pool: u64 = offered;
        let mut n: usize = r.history.len() - self.history.len();
        let ghost n0 = n as int;
        while n > 0
            invariant_except_break
                n == r.history@.len() - self.history@.len(),
                reflow_recent(r, start, offered, n0) == reflow_recent(
                    r,
                    self.model(),
                    pool,
                    n as int,
                ),
            invariant
                r.wf(),
                n <= r.history@.len(),
                budget::group_models(groups@) == r.groups(),
                coherent(r, self.model()),
            ensures
                coherent(r, self.model()),
                (self.model(), pool) == reflow_recent(r, start, offered, n0),
            decreases n,
        {
            match self.try_turn(r, groups, n, r.allocation_limit, Some(pool)) {
                Some(increment) => {
                    pool = pool - increment;
                },
                None => {
                    break;
                },
            }
            n -= 1;
        }
        pool
    }

    fn reflow_bucket<'a>(
        &mut self,
        r: &AllocationRequest<'a>,
        groups: &Vec<BudgetEvidenceGroup>,
        bucket: BudgetBucket,
        offered: u64,
    ) -> (pool: u64)
        requires
            r.wf(),
            budget::group_models(groups@) == r.groups(),
            coherent(r, old(self).model()),
        ensures
            coherent(r, final(self).model()),
            (final(self).model(), pool) == bucket_offered(r, bucket, (old(self).model(), offered)),
    {
        let ghost start = self.model();
        let mut pool: u64 = offered;
        let mut i: usize = 0;
        while i < groups.len()
            invariant
                r.wf(),
                i <= groups@.len(),
                groups@.len() == r.groups().len(),
                budget::group_models(groups@) == r.groups(),
                coherent(r, self.model()),
                (self.model(), pool) == reflow_groups(r, bucket, start, offered, i as int),
            decreases groups.len() - i,
        {
            if groups[i].bucket == bucket && !contains_index(&self.picked, i) {
                let reason = hard_exclusion_reason(
                    groups,
                    &self.picked,
                    i,
                    &r.session.retrieval,
                    r.graph_candidate_limit,
                );
                if reason.is_none() {
                    let base = self.current;
                    match self.try_group(r, groups, i, base, pool, true) {
                        Some(increment) => {
                            pool = pool - increment;
                        },
                        None => {},
                    }
                }
            }
            i += 1;
        }
        pool
    }
}

/// The share of a bucket.
fn share_of<'a>(r: &AllocationRequest<'a>, available: u64, bucket: BudgetBucket) -> (share: u64)
    requires
        r.wf(),
        available == r.available(),
    ensures
        share == r.share(bucket),
{
    let percent: u8 = match bucket {
        BudgetBucket::RecentHistory => r.recall.trace.budget_allocation.recent_history_percent,
        BudgetBucket::ExactOrState => r.recall.trace.budget_allocation.exact_or_state_percent,
        BudgetBucket::Episode => r.recall.trace.budget_allocation.episode_percent,
        BudgetBucket::Graph => r.recall.trace.budget_allocation.graph_percent,
    };
    let limit = r.allocation_limit;
    assert(percent == r.percent(bucket));
    assert(available * percent <= limit * percent) by (nonlinear_arith)
        requires
            available <= limit,
    ;
    assert(available * percent / 100 <= available * percent);
    available * percent as u64 / 100
}

/// Whether a span is that of some evidence of a group.
pub open spec fn span_grouped(groups: Seq<budget::GroupModel>, span: SourceSpan) -> bool {
    exists|g: int| 0 <= g < groups.len() && budget::span_selected(
        (#[trigger] groups[g]).evidence,
        span,
    )
}

/// The text that identifies context evidence that no group holds.
pub open spec fn orphan_identity(s: SelectedEvidence) -> Seq<char> {
    "hippocampus:budget-orphan-context:v1\0"@ + s.span.event_id@ + "\0"@ + text::decimal(
        s.span.start_char as nat,
    ) + "\0"@ + text::decimal(s.span.end_char as nat) + "\0"@ + s.content_sha256@
}

pub open spec fn orphan_exclusion(s: SelectedEvidence) -> budget::ExclusionModel {
    budget::ExclusionModel {
        bucket: BudgetBucket::ExactOrState,
        id: "grp_"@ + digest::text_digest(orphan_identity(s)),
        stage: "hard"@,
        reason: "dependency_not_selected"@,
        tokens: None,
    }
}

/// The exclusions of context evidence whose core evidence was not recalled.
pub open spec fn orphan_exclusions(
    groups: Seq<budget::GroupModel>,
    evidence: Seq<RecalledEvidence>,
) -> Seq<budget::ExclusionModel>
    decreases evidence.len(),
{
    if evidence.len() == 0 {
        Seq::empty()
    } else {
        let rest = orphan_exclusions(groups, evidence.drop_last());
        let s = evidence.last().selected;
        if s.kind == EvidenceKind::Context && !span_grouped(groups, s.span) {
            rest.push(orphan_exclusion(s))
        } else {
            rest
        }
    }
}

/// The cost remembered for a key: the last one, if any.
pub open spec fn rejected_tokens(rejected: Seq<(Seq<char>, u64)>, key: Seq<char>) -> Option<u64>
    decreases rejected.len(),
{
    if rejected.len() == 0 {
        None
    } else if rejected.last().0 == key {
        Some(rejected.last().1)
    } else {
        rejected_tokens(rejected.drop_last(), key)
    }
}

/// Whether a group with an identifier was picked.
pub open spec fn id_picked(
    groups: Seq<budget::GroupModel>,
    picked: Seq<usize>,
    id: Seq<char>,
) -> bool {
    exists|i: int| 0 <= i < picked.len() && groups[(#[trigger] picked[i]) as int].id == id
}

/// Why a group was left out in the end.
pub open spec fn group_exclusion<'a>(
    r: &AllocationRequest<'a>,
    st: AllocationModel,
    i: int,
) -> budget::ExclusionModel {
    let group = r.groups()[i];
    let hard = r.hard(st.picked, i as usize);
    budget::ExclusionModel {
        bucket: group.bucket,
        id: group.id,
        stage: if hard is Some {
            "hard"@
        } else {
            "reflow"@
        },
        reason: match hard {
            Some(reason) => reason,
            None => "token_budget"@,
        },
        tokens: rejected_tokens(st.rejected, group.id),
    }
}

/// The exclusions among the first `n` groups.
pub open spec fn group_exclusions<'a>(
    r: &AllocationRequest<'a>,
    st: AllocationModel,
    n: int,
) -> Seq<budget::ExclusionModel>
    decreases n,
{
    if n <= 0 {
        Seq::empty()
    } else {
        let rest = group_exclusions(r, st, n - 1);
        if id_picked(r.groups(), st.picked, r.groups()[n - 1].id) {
            rest
        } else {
            rest.push(group_exclusion(r, st, n - 1))
        }
    }
}

pub open spec fn turn_exclusion<'a>(
    r: &AllocationRequest<'a>,
    st: AllocationModel,
    index: usize,
) -> budget::ExclusionModel {
    let id = turn_key(*r.session, index);
    budget::ExclusionModel {
        bucket: BudgetBucket::RecentHistory,
        id,
        stage: "reflow"@,
        reason: "token_budget"@,
        tokens: rejected_tokens(st.rejected, id),
    }
}

/// The exclusions among the first `n` turns of the history.
pub open spec fn turn_exclusions<'a>(
    r: &AllocationRequest<'a>,
    st: AllocationModel,
    n: int,
) -> Seq<budget::ExclusionModel>
    decreases n,
{
    if n <= 0 {
        Seq::empty()
    } else {
        let rest = turn_exclusions(r, st, n - 1);
        let index = r.history@[n - 1];
        if st.history.contains(index) {
            rest
        } else {
            rest.push(turn_exclusion(r, st, index))
        }
    }
}

/// Everything that an allocation left out, after the exclusions it was given.
pub open spec fn all_exclusions<'a>(
    r: &AllocationRequest<'a>,
    st: AllocationModel,
) -> Seq<budget::ExclusionModel> {
    budget::exclusion_models(r.recall.trace.budget_allocation.exclusions@) + orphan_exclusions(
        r.groups(),
        r.recall.evidence@,
    ) + group_exclusions(r, st, r.groups().len() as int) + turn_exclusions(
        r,
        st,
        r.history@.len() as int,
    )
}

fn is_grouped(groups: &Vec<BudgetEvidenceGroup>, span: &SourceSpan) -> (r: bool)
    ensures
        r == span_grouped(budget::group_models(groups@), *span),
{
    let ghost models = budget::group_models(groups@);
    let mut i: usize = 0;
    while i < groups.len()
        invariant
            i <= groups@.len(),
            models == budget::group_models(groups@),
            forall|g: int|
                0 <= g < i ==> !budget::span_selected((#[trigger] models[g]).evidence, *span),
        decreases groups.len() - i,
    {
        assert(models[i as int].evidence == groups@[i as int].evidence@);
        if is_selected(&groups[i].evidence, span) {
            return true;
        }
        i += 1;
    }
    false
}

fn orphan_identity_string(s: &SelectedEvidence) -> (out: String)
    ensures
        out@ == orphan_identity(*s),
{
    let mut out = "hippocampus:budget-orphan-context:v1\0".to_owned();
    out.append(s.span.event_id.as_str());
    out.append("\0");
    push_decimal(&mut out, s.span.start_char as u64);
    out.append("\0");
    push_decimal(&mut out, s.span.end_char as u64);
    out.append("\0");
    out.append(s.content_sha256.as_str());
    out
}

fn push_exclusion(
    out: &mut Vec<BudgetExclusionTrace>,
    bucket: BudgetBucket,
    candidate_group_id: String,
    stage: &str,
    reason: &str,
    exact_increment_tokens: Option<u64>,
)
    ensures
        budget::exclusion_models(final(out)@) == budget::exclusion_models(old(out)@).push(
            budget::ExclusionModel {
                bucket,
                id: candidate_group_id@,
                stage: stage@,
                reason: reason@,
                tokens: exact_increment_tokens,
            },
        ),
{
    out.push(
        BudgetExclusionTrace {
            bucket,
            candidate_group_id,
            stage: stage.to_owned(),
            reason: reason.to_owned(),
            exact_increment_tokens,
        },
    );
    assert(budget::exclusion_models(out@) =~= budget::exclusion_models(old(out)@).push(
        budget::exclusion_model(out@.last()),
    ));
}

fn push_orphans<'a>(
    r: &AllocationRequest<'a>,
    groups: &Vec<BudgetEvidenceGroup>,
    out: &mut Vec<BudgetExclusionTrace>,
)
    requires
        budget::group_models(groups@) == r.groups(),
    ensures
        budget::exclusion_models(final(out)@) == budget::exclusion_models(old(out)@)
            + orphan_exclusions(r.groups(), r.recall.evidence@),
{
    let ghost start = budget::exclusion_models(out@);
    let ghost evidence = r.recall.evidence@;
    let mut i: usize = 0;
    assert(start + orphan_exclusions(r.groups(), evidence.take(0)) =~= start);
    while i < r.recall.evidence.len()
        invariant
            i <= evidence.len(),
            evidence == r.recall.evidence@,
            budget::group_models(groups@) == r.groups(),
            budget::exclusion_models(out@) == start + orphan_exclusions(
                r.groups(),
                evidence.take(i as int),
            ),
        decreases evidence.len() - i,
    {
        proof {
            assert(evidence.take(i + 1).drop_last() =~= evidence.take(i as int));
        }
        let s = &r.recall.evidence[i].selected;
        if s.kind == EvidenceKind::Context && !is_grouped(groups, &s.span) {
            let identity = orphan_identity_string(s);
            let mut id = "grp_".to_owned();
            id.append(content_sha256(identity.as_str()).as_str());
            push_exclusion(
                out,
                BudgetBucket::ExactOrState,
                id,
                "hard",
                "dependency_not_selected",
                None,
            );
            proof {
                let rest = orphan_exclusions(r.groups(), evidence.take(i as int));
                assert((start + rest).push(orphan_exclusion(*s)) =~= start + rest.push(
                    orphan_exclusion(*s),
                ));
            }
        }
        i += 1;
    }
    assert(evidence.take(i as int) =~= evidence);
}

impl Allocation {
    fn rejected_cost(&self, key: &str) -> (r: Option<u64>)
        ensures
            r == rejected_tokens(self.model().rejected, key@),
    {
        let ghost all = rejected_model(self.rejected@);
        let mut i: usize = self.rejected.len();
        assert(all.take(i as int) =~= all);
        while i > 0
            invariant
                i <= self.rejected@.len(),
                all == rejected_model(self.rejected@),
                rejected_tokens(all, key@) == rejected_tokens(all.take(i as int), key@),
            decreases i,
        {
            i -= 1;
            proof {
                assert(all.take(i + 1).drop_last() =~= all.take(i as int));
                assert(all.take(i + 1).last() == all[i as int]);
            }
            if text_eq(self.rejected[i].0.as_str(), key) {
                return Some(self.rejected[i].1);
            }
        }
        None
    }

    fn is_id_picked(&self, groups: &Vec<BudgetEvidenceGroup>, id: &str) -> (r: bool)
        requires
            context::in_range(self.picked@, groups@.len()),
        ensures
            r == id_picked(budget::group_models(groups@), self.picked@, id@),
    {
        let ghost models = budget::group_models(groups@);
        let mut i: usize = 0;
        while i < self.picked.len()
            invariant
                i <= self.picked@.len(),
                models == budget::group_models(groups@),
                context::in_range(self.picked@, groups@.len()),
                forall|k: int| 0 <= k < i ==> models[(#[trigger] self.picked@[k]) as int].id != id@,
            decreases self.picked.len() - i,
        {
            let p = self.picked[i];
            assert(self.picked@[i as int] < groups@.len());
            assert(models[p as int].id == groups@[p as int].id@);
            if text_eq(groups[p].id.as_str(), id) {
                return true;
            }
            i += 1;
        }
        false
    }

    fn push_groups_left_out<'a>(
        &self,
        r: &AllocationRequest<'a>,
        groups: &Vec<BudgetEvidenceGroup>,
        out: &mut Vec<BudgetExclusionTrace>,
    )
        requires
            budget::group_models(groups@) == r.groups(),
            coherent(r, self.model()),
        ensures
            budget::exclusion_models(final(out)@) == budget::exclusion_models(old(out)@)
                + group_exclusions(r, self.model(), r.groups().len() as int),
    {
        let ghost start = budget::exclusion_models(out@);
        let ghost st = self.model();
        let mut i: usize = 0;
        assert(start + group_exclusions(r, st, 0) =~= start);
        while i < groups.len()
            invariant
                i <= groups@.len(),
                groups@.len() == r.groups().len(),
                st == self.model(),
                coherent(r, st),
                budget::group_models(groups@) == r.groups(),
                budget::exclusion_models(out@) == start + group_exclusions(r, st, i as int),
            decreases groups.len() - i,
        {
            assert(r.groups()[i as int].id == groups@[i as int].id@);
            assert(r.groups()[i as int].bucket == groups@[i as int].bucket);
            if !self.is_id_picked(groups, groups[i].id.as_str()) {
                let hard = hard_exclusion_reason(
                    groups,
                    &self.picked,
                    i,
                    &r.session.retrieval,
                    r.graph_candidate_limit,
                );
                let cost = self.rejected_cost(groups[i].id.as_str());
                match hard {
                    Some(reason) => push_exclusion(
                        out,
                        groups[i].bucket,
                        groups[i].id.clone(),
                        "hard",
                        reason,
                        cost,
                    ),
                    None => push_exclusion(
                        out,
                        groups[i].bucket,
                        groups[i].id.clone(),
                        "reflow",
                        "token_budget",
                        cost,
                    ),
                }
                proof {
                    let rest = group_exclusions(r, st, i as int);
                    let e = group_exclusion(r, st, i as int);
                    assert((start + rest).push(e) =~= start + rest.push(e));
                }
            }
            i += 1;
        }
    }

    fn push_turns_left_out<'a>(
        &self,
        r: &AllocationRequest<'a>,
        out: &mut Vec<BudgetExclusionTrace>,
    )
        requires
            r.wf(),
        ensures
            budget::exclusion_models(final(out)@) == budget::exclusion_models(old(out)@)
                + turn_exclusions(r, self.model(), r.history@.len() as int),
    {
        let ghost start = budget::exclusion_models(out@);
        let ghost st = self.model();
        let mut i: usize = 0;
        assert(start + turn_exclusions(r, st, 0) =~= start);
        while i < r.history.len()
            invariant
                i <= r.history@.len(),
                r.wf(),
                st == self.model(),
                budget::exclusion_models(out@) == start + turn_exclusions(r, st, i as int),
            decreases r.history.len() - i,
        {
            let index = r.history[i];
            assert(r.history@[i as int] < r.session.turns@.len());
            if !contains_index(&self.history, index) {
                let key = turn_key_string(r.session, index);
                let cost = self.rejected_cost(key.as_str());
                push_exclusion(
                    out,
                    BudgetBucket::RecentHistory,
                    key,
                    "reflow",
                    "token_budget",
                    cost,
                );
                proof {
                    let rest = turn_exclusions(r, st, i as int);
                    let e = turn_exclusion(r, st, index);
                    assert((start + rest).push(e) =~= start + rest.push(e));
                }
            }
            i += 1;
        }
    }
}

/// The names of stages.
pub open spec fn stage_names(v: Seq<BudgetStageLatencyTrace>) -> Seq<Seq<char>> {
    Seq::new(v.len(), |i: int| v[i].stage@)
}

/// A list of stages that starts with another one.
pub open spec fn stages_extend(
    before: Seq<BudgetStageLatencyTrace>,
    after: Seq<BudgetStageLatencyTrace>,
) -> bool {
    before.len() <= after.len() && forall|i: int|
        0 <= i < before.len() ==> #[trigger] after[i] == before[i]
}

fn push_stage(out: &mut Vec<BudgetStageLatencyTrace>, stage: &str, elapsed_ms: u64)
    ensures
        final(out)@.len() == old(out)@.len() + 1,
        stages_extend(old(out)@, final(out)@),
        final(out)@.last().elapsed_ms == elapsed_ms,
        stage_names(final(out)@) == stage_names(old(out)@).push(stage@),
{
    out.push(BudgetStageLatencyTrace { stage: stage.to_owned(), elapsed_ms });
    assert(stage_names(out@) =~= stage_names(old(out)@).push(stage@));
}

/// The stages up to the count of what cannot be avoided.
pub open spec fn first_stages() -> Seq<Seq<char>> {
    seq!["classify"@, "retrieval_candidates"@, "mandatory_estimate"@]
}

/// The stages in which the buckets take their shares.
pub open spec fn share_stages() -> Seq<Seq<char>> {
    seq!["initial_recent"@, "initial_exact_or_state"@, "initial_episode"@, "initial_graph"@]
}

/// The stages in which the buckets take what is left over.
pub open spec fn reflow_stages() -> Seq<Seq<char>> {
    seq!["reflow_recent"@, "reflow_exact_or_state"@, "reflow_episode"@, "reflow_graph"@]
}

/// Gives every bucket its share, and notes the time that each took.
fn take_shares<'a>(
    r: &AllocationRequest<'a>,
    groups: &Vec<BudgetEvidenceGroup>,
    mandatory: u64,
    shares: &BudgetTokenBreakdown,
    times: &mut Vec<u64>,
) -> (a: Allocation)
    requires
        r.wf(),
        budget::group_models(groups@) == r.groups(),
        mandatory == r.mandatory(),
        *shares == r.shares(),
    ensures
        a.model() == shares_taken(r),
        coherent(r, a.model()),
        final(times)@.len() == old(times)@.len() + 4,
{
    let mut a = Allocation {
        history: Vec::new(),
        picked: Vec::new(),
        current: mandatory,
        actual: r.recall.trace.budget_allocation.actual_tokens,
        rejected: Vec::new(),
        log: Vec::new(),
    };
    let _ = groups.len();
    proof {
        assert(a.model().rejected =~= Seq::empty());
        assert(a.model() == started(r));
        assert(r.history@.skip(r.history@.len() as int) =~= Seq::empty());
        assert(r.groups().len() == groups@.len());
    }
    let recent = now();
    a.take_recent(r, groups, shares.recent_history);
    times.push(elapsed_millis(&recent));
    let exact = now();
    a.take_bucket(r, groups, BudgetBucket::ExactOrState, shares.exact_or_state);
    times.push(elapsed_millis(&exact));
    let episode = now();
    a.take_bucket(r, groups, BudgetBucket::Episode, shares.episode);
    times.push(elapsed_millis(&episode));
    let graph = now();
    a.take_bucket(r, groups, BudgetBucket::Graph, shares.graph);
    times.push(elapsed_millis(&graph));
    a
}

/// Offers the buckets what is left over, and notes the time that each took.
fn take_left_over<'a>(
    r: &AllocationRequest<'a>,
    groups: &Vec<BudgetEvidenceGroup>,
    mandatory: u64,
    a: &mut Allocation,
    times: &mut Vec<u64>,
)
    requires
        r.wf(),
        budget::group_models(groups@) == r.groups(),
        mandatory == r.mandatory(),
        old(a).model() == shares_taken(r),
        coherent(r, old(a).model()),
    ensures
        final(a).model() == allocated(r),
        coherent(r, final(a).model()),
        final(times)@.len() == old(times)@.len() + 4,
{
    let available = r.allocation_limit.saturating_sub(mandatory);
    let pool = available.saturating_sub(breakdown_sum(&a.actual));
    let recent = now();
    let pool = a.reflow_recent(r, groups, pool);
    times.push(elapsed_millis(&recent));
    assert((a.model(), pool) == recent_offered(r));
    let exact = now();
    let pool = a.reflow_bucket(r, groups, BudgetBucket::ExactOrState, pool);
    times.push(elapsed_millis(&exact));
    let episode = now();
    let pool = a.reflow_bucket(r, groups, BudgetBucket::Episode, pool);
    times.push(elapsed_millis(&episode));
    let graph = now();
    let _ = a.reflow_bucket(r, groups, BudgetBucket::Graph, pool);
    times.push(elapsed_millis(&graph));
}

/// Records the stages of a choice and its final count.
fn push_choice_stages(stages: &mut Vec<BudgetStageLatencyTrace>, times: &Vec<u64>)
    requires
        times@.len() == 9,
    ensures
        stage_names(final(stages)@) == stage_names(old(stages)@) + share_stages() + reflow_stages()
            + seq!["final_estimate"@],
        stages_extend(old(stages)@, final(stages)@),
{
    let ghost s0 = stages@;
    push_stage(stages, "initial_recent", times[0]);
    push_stage(stages, "initial_exact_or_state", times[1]);
    push_stage(stages, "initial_episode", times[2]);
    push_stage(stages, "initial_graph", times[3]);
    assert(stage_names(stages@) =~= stage_names(s0) + share_stages());
    push_stage(stages, "reflow_recent", times[4]);
    push_stage(stages, "reflow_exact_or_state", times[5]);
    push_stage(stages, "reflow_episode", times[6]);
    push_stage(stages, "reflow_graph", times[7]);
    assert(stage_names(stages@) =~= stage_names(s0) + share_stages() + reflow_stages());
    push_stage(stages, "final_estimate", times[8]);
    assert(stage_names(stages@) =~= stage_names(s0) + share_stages() + reflow_stages()
        + seq!["final_estimate"@]);
}

/// What a budget trace says about the terms of an allocation.
pub open spec fn terms_stated<'a>(
    r: &AllocationRequest<'a>,
    classify_elapsed: u64,
    probes: Seq<BudgetProbeTrace>,
    b: BudgetAllocationTrace,
) -> bool {
    let given = r.recall.trace.budget_allocation;
    let n = given.stage_latencies@.len() as int;
    &&& b.query_kind == given.query_kind
    &&& b.recent_history_percent == given.recent_history_percent
    &&& b.exact_or_state_percent == given.exact_or_state_percent
    &&& b.episode_percent == given.episode_percent
    &&& b.graph_percent == given.graph_percent
    &&& b.mandatory_input_tokens == r.mandatory()
    &&& b.available_input_tokens == r.available()
    &&& b.initial_tokens == r.shares()
    &&& b.probes@ == probes
    &&& stages_extend(given.stage_latencies@, b.stage_latencies@)
    &&& b.stage_latencies@.len() >= n + 3
    &&& b.stage_latencies@[n].elapsed_ms == classify_elapsed
    &&& b.stage_latencies@[n + 1].elapsed_ms == r.recall.trace.elapsed_ms
}

/// What a budget trace says when not even the unavoidable part fits.
pub open spec fn refusal_stated<'a>(r: &AllocationRequest<'a>, b: BudgetAllocationTrace) -> bool {
    let given = r.recall.trace.budget_allocation;
    &&& b.actual_tokens == given.actual_tokens
    &&& b.reflow@ == given.reflow@
    &&& b.exclusions@ == given.exclusions@
    &&& b.final_input_tokens == given.final_input_tokens
    &&& stage_names(b.stage_latencies@) == stage_names(given.stage_latencies@) + first_stages()
}

/// The charges of an allocation.
pub open spec fn charges_of<'a>(r: &AllocationRequest<'a>) -> Seq<attribution::AttributedTokens> {
    let st = allocated(r);
    attribution::settled(
        attribution::attributed(st.log),
        budget::floored_sub(st.current, r.mandatory()),
    )
}

/// What a budget trace says of an allocation that was made.
pub open spec fn outcome_stated<'a>(r: &AllocationRequest<'a>, b: BudgetAllocationTrace) -> bool {
    let given = r.recall.trace.budget_allocation;
    let st = allocated(r);
    &&& b.actual_tokens == attribution::charged_breakdown(charges_of(r))
    &&& b.reflow@ == attribution::reflow_traces(charges_of(r), r.available())
    &&& budget::exclusion_models(b.exclusions@) == all_exclusions(r, st)
    &&& b.final_input_tokens == Some(st.current)
    &&& stage_names(b.stage_latencies@) == stage_names(given.stage_latencies@) + first_stages()
        + share_stages() + reflow_stages() + seq!["final_estimate"@]
}

/// A retrieval trace after a selection and its exclusions, whatever its budget.
pub open spec fn selection_traced(
    before: RetrievalTrace,
    after: RetrievalTrace,
    evidence: Seq<RecalledEvidence>,
    groups: Seq<budget::GroupModel>,
    exclusions: Seq<budget::ExclusionModel>,
) -> bool {
    exists|marked: RetrievalTrace|
        #[trigger] budget::trace_marked(before, marked, evidence) && budget::trace_excluded(
            marked,
            RetrievalTrace { budget_allocation: marked.budget_allocation, ..after },
            groups,
            exclusions,
        )
}

/// The plan of a request whose unavoidable part is over the input budget.
pub open spec fn refused<'a>(
    r: &AllocationRequest<'a>,
    classify_elapsed: u64,
    probes: Seq<BudgetProbeTrace>,
    plan: ContextPlan,
) -> bool {
    let trace = plan.retrieval_trace;
    &&& context::request_laid_out(
        plan,
        *r.session,
        r.user_content@,
        Seq::empty(),
        Some(r.turn_index),
        Seq::empty(),
        context::injected_of(Some(r.knowledge)),
    )
    &&& plan.evidence@ == r.recall.trace.selected_evidence@
    &&& context::knowledge_of(Some(r.knowledge), plan.knowledge_trace)
    &&& (RetrievalTrace { budget_allocation: r.recall.trace.budget_allocation, ..trace }).same(
        r.recall.trace,
    )
    &&& terms_stated(r, classify_elapsed, probes, trace.budget_allocation)
    &&& refusal_stated(r, trace.budget_allocation)
}

/// The plan of a request that an allocation was made for.
pub open spec fn granted<'a>(
    r: &AllocationRequest<'a>,
    classify_elapsed: u64,
    probes: Seq<BudgetProbeTrace>,
    plan: ContextPlan,
) -> bool {
    let st = allocated(r);
    let evidence = budget::picked_evidence(r.groups(), st.picked);
    let trace = plan.retrieval_trace;
    &&& context::request_laid_out(
        plan,
        *r.session,
        r.user_content@,
        st.history,
        Some(r.turn_index),
        evidence,
        context::injected_of(Some(r.knowledge)),
    )
    &&& plan.evidence@ == context::selected_of(evidence)
    &&& context::knowledge_of(Some(r.knowledge), plan.knowledge_trace)
    &&& selection_traced(
        r.recall.trace,
        trace,
        evidence,
        r.groups(),
        all_exclusions(r, st),
    )
    &&& terms_stated(r, classify_elapsed, probes, trace.budget_allocation)
    &&& outcome_stated(r, trace.budget_allocation)
}

proof fn nothing_picked_in(groups: Seq<budget::GroupModel>, bucket: BudgetBucket, n: int)
    ensures
        budget::bucket_evidence(groups, Seq::empty(), bucket, n) == Seq::<
            RecalledEvidence,
        >::empty(),
    decreases n,
{
    if n > 0 {
        nothing_picked_in(groups, bucket, n - 1);
    }
}

proof fn nothing_picked(groups: Seq<budget::GroupModel>)
    ensures
        budget::picked_evidence(groups, Seq::empty()) == Seq::<RecalledEvidence>::empty(),
{
    let n = groups.len() as int;
    nothing_picked_in(groups, BudgetBucket::ExactOrState, n);
    nothing_picked_in(groups, BudgetBucket::Episode, n);
    nothing_picked_in(groups, BudgetBucket::Graph, n);
    assert(budget::picked_evidence(groups, Seq::empty()) =~= Seq::<RecalledEvidence>::empty());
}

fn shares_of<'a>(r: &AllocationRequest<'a>, available: u64) -> (shares: BudgetTokenBreakdown)
    requires
        r.wf(),
        available == r.available(),
    ensures
        shares == r.shares(),
{
    BudgetTokenBreakdown {
        recent_history: share_of(r, available, BudgetBucket::RecentHistory),
        exact_or_state: share_of(r, available, BudgetBucket::ExactOrState),
        episode: share_of(r, available, BudgetBucket::Episode),
        graph: share_of(r, available, BudgetBucket::Graph),
    }
}

/// The plan with nothing but what cannot be avoided.
fn mandatory_plan<'a>(r: &AllocationRequest<'a>) -> (plan: ContextPlan)
    ensures
        context::request_laid_out(
            plan,
            *r.session,
            r.user_content@,
            Seq::empty(),
            Some(r.turn_index),
            Seq::empty(),
            context::injected_of(Some(r.knowledge)),
        ),
        plan.evidence@ == r.recall.trace.selected_evidence@,
        context::knowledge_of(Some(r.knowledge), plan.knowledge_trace),
        plan.retrieval_trace.same(r.recall.trace),
        metric_of(plan) == Some(r.mandatory()),
{
    let empty_recall = RecallResult { trace: r.recall.trace.clone(), evidence: Vec::new() };
    let no_history: Vec<usize> = Vec::new();
    let plan = ContextAssembler.assemble_with_recall_and_knowledge(
        r.session,
        r.user_content,
        Some(&no_history),
        Some(r.turn_index),
        Some(&empty_recall),
        Some(r.knowledge),
    );
    proof {
        nothing_picked(r.groups());
        same_is_transitive(plan.retrieval_trace, empty_recall.trace, r.recall.trace);
    }
    plan
}

proof fn same_is_transitive(a: RetrievalTrace, b: RetrievalTrace, c: RetrievalTrace)
    requires
        a.same(b),
        b.same(c),
    ensures
        a.same(c),
{
    assert forall|i: int| 0 <= i < a.fusion_candidates@.len() implies (
    #[trigger] a.fusion_candidates@[i]).same(c.fusion_candidates@[i]) by {
        assert(b.fusion_candidates@[i].same(c.fusion_candidates@[i]));
    }
    assert forall|i: int| 0 <= i < a.state_selections@.len() implies (
    #[trigger] a.state_selections@[i]).same(c.state_selections@[i]) by {
        assert(b.state_selections@[i].same(c.state_selections@[i]));
    }
    assert forall|i: int| 0 <= i < a.graph_paths@.len() implies (
    #[trigger] a.graph_paths@[i]).same(c.graph_paths@[i]) by {
        assert(b.graph_paths@[i].same(c.graph_paths@[i]));
    }
}

/// The plan of what an allocation chose, and the trace marked accordingly.
fn chosen_plan<'a>(
    r: &AllocationRequest<'a>,
    groups: &Vec<BudgetEvidenceGroup>,
    a: &Allocation,
) -> (out: (ContextPlan, RetrievalTrace))
    requires
        r.wf(),
        budget::group_models(groups@) == r.groups(),
        a.model() == allocated(r),
        coherent(r, a.model()),
    ensures
        context::request_laid_out(
            out.0,
            *r.session,
            r.user_content@,
            a.history@,
            Some(r.turn_index),
            budget::picked_evidence(r.groups(), a.picked@),
            context::injected_of(Some(r.knowledge)),
        ),
        out.0.evidence@ == context::selected_of(budget::picked_evidence(r.groups(), a.picked@)),
        context::knowledge_of(Some(r.knowledge), out.0.knowledge_trace),
        budget::trace_marked(
            r.recall.trace,
            out.1,
            budget::picked_evidence(r.groups(), a.picked@),
        ),
{
    let recall = recall_for_groups(r.recall, groups, &a.picked);
    proof {
        suffix_in_range(
            r.history@,
            r.history@.len() - a.history@.len(),
            r.session.turns@.len(),
        );
    }
    let plan = ContextAssembler.assemble_with_recall_and_knowledge(
        r.session,
        r.user_content,
        Some(&a.history),
        Some(r.turn_index),
        Some(&recall),
        Some(r.knowledge),
    );
    (plan, recall.trace)
}

/// Everything that an allocation left out.
fn exclusions_of<'a>(
    r: &AllocationRequest<'a>,
    groups: &Vec<BudgetEvidenceGroup>,
    a: &Allocation,
) -> (out: Vec<BudgetExclusionTrace>)
    requires
        r.wf(),
        budget::group_models(groups@) == r.groups(),
        coherent(r, a.model()),
    ensures
        budget::exclusion_models(out@) == all_exclusions(r, a.model()),
{
    let mut out = copy_list(&r.recall.trace.budget_allocation.exclusions);
    push_orphans(r, groups, &mut out);
    a.push_groups_left_out(r, groups, &mut out);
    a.push_turns_left_out(r, &mut out);
    out
}

/// Records in a budget what an allocation cost.
fn record_costs<'a>(r: &AllocationRequest<'a>, a: &Allocation, b: &mut BudgetAllocationTrace)
    requires
        a.model() == allocated(r),
        coherent(r, a.model()),
        old(b).mandatory_input_tokens == r.mandatory(),
        old(b).available_input_tokens == r.available(),
    ensures
        *final(b) == (BudgetAllocationTrace {
            actual_tokens: final(b).actual_tokens,
            reflow: final(b).reflow,
            final_input_tokens: final(b).final_input_tokens,
            ..*old(b)
        }),
        final(b).actual_tokens == attribution::charged_breakdown(charges_of(r)),
        final(b).reflow@ == attribution::reflow_traces(charges_of(r), r.available()),
        final(b).final_input_tokens == Some(allocated(r).current),
{
    let mut charges = attribute(&a.log);
    proof {
        attribution::attributed_bounds(a.log@, r.mandatory(), a.current);
        attribution::settled_charges_sum_up(a.log@, r.mandatory(), a.current);
    }
    settle(&mut charges, a.current.saturating_sub(b.mandatory_input_tokens));
    b.actual_tokens = breakdown_by_bucket(&charges);
    b.reflow = trace_reflow(&charges, b.available_input_tokens);
    b.final_input_tokens = Some(a.current);
}

/// The budget at the outset: the terms, and the stages that are over.
fn opening_budget<'a>(
    r: &AllocationRequest<'a>,
    mandatory: u64,
    elapsed: u64,
    classify_elapsed: u64,
    probes: &Vec<BudgetProbeTrace>,
) -> (b: BudgetAllocationTrace)
    requires
        r.wf(),
        mandatory == r.mandatory(),
    ensures
        terms_stated(r, classify_elapsed, probes@, b),
        refusal_stated(r, b),
{
    let mut b = r.recall.trace.budget_allocation.clone();
    let available = r.allocation_limit.saturating_sub(mandatory);
    b.mandatory_input_tokens = mandatory;
    b.available_input_tokens = available;
    b.initial_tokens = shares_of(r, available);
    let mut stages = copy_list(&r.recall.trace.budget_allocation.stage_latencies);
    let ghost s0 = stages@;
    push_stage(&mut stages, "classify", classify_elapsed);
    push_stage(&mut stages, "retrieval_candidates", r.recall.trace.elapsed_ms);
    push_stage(&mut stages, "mandatory_estimate", elapsed);
    assert(stage_names(stages@) =~= stage_names(s0) + first_stages());
    b.stage_latencies = stages;
    b.probes = copy_list(probes);
    b
}

/// Makes an allocation whose terms are stated, and records its outcome.
#[verifier::spinoff_prover]
#[verifier::rlimit(60)]
fn grant<'a>(
    r: &AllocationRequest<'a>,
    mandatory: u64,
    opening: BudgetAllocationTrace,
    Ghost(classify_elapsed): Ghost<u64>,
    Ghost(probes): Ghost<Seq<BudgetProbeTrace>>,
) -> (plan: ContextPlan)
    requires
        r.wf(),
        mandatory == r.mandatory(),
        terms_stated(r, classify_elapsed, probes, opening),
        refusal_stated(r, opening),
    ensures
        granted(r, classify_elapsed, probes, plan),
{
    let mut budget = opening;
    let groups = budget_evidence_groups(r.recall);
    let mut times: Vec<u64> = Vec::new();
    let mut a = take_shares(r, &groups, mandatory, &budget.initial_tokens, &mut times);
    take_left_over(r, &groups, mandatory, &mut a, &mut times);
    let last = now();
    let exclusions = exclusions_of(r, &groups, &a);
    let (mut plan, mut trace) = chosen_plan(r, &groups, &a);
    record_costs(r, &a, &mut budget);
    times.push(elapsed_millis(&last));
    push_choice_stages(&mut budget.stage_latencies, &times);
    budget.exclusions = exclusions;
    let ghost given = r.recall.trace.budget_allocation.stage_latencies@;
    assert(terms_stated(r, classify_elapsed, probes, budget)) by {
        let n = given.len() as int;
        assert(budget.stage_latencies@[n] == opening.stage_latencies@[n]);
        assert(budget.stage_latencies@[n + 1] == opening.stage_latencies@[n + 1]);
    }
    assert(outcome_stated(r, budget));
    let ghost marked = trace;
    apply_budget_exclusion_reasons(&mut trace, &groups, &budget.exclusions);
    let ghost done = trace;
    trace.budget_allocation = budget;
    assert(selection_traced(
        r.recall.trace,
        trace,
        budget::picked_evidence(r.groups(), a.picked@),
        r.groups(),
        all_exclusions(r, a.model()),
    )) by {
        let after = RetrievalTrace { budget_allocation: marked.budget_allocation, ..trace };
        assert(budget::trace_excluded(marked, done, r.groups(), all_exclusions(r, a.model())));
        assert(after.candidates == done.candidates);
        assert(budget::trace_excluded(marked, after, r.groups(), all_exclusions(r, a.model())));
        assert(budget::trace_marked(
            r.recall.trace,
            marked,
            budget::picked_evidence(r.groups(), a.picked@),
        ));
    }
    plan.retrieval_trace = trace;
    plan
}

/// Chooses the history and the evidence that a request sends within its token
/// limit, and records how the tokens were shared out. Every unit is taken only
/// while the request stays within the limit, so nothing has to be given back.
pub fn allocate_adaptive_plan<'a>(
    r: &AllocationRequest<'a>,
    classify_elapsed: u64,
    probes: &Vec<BudgetProbeTrace>,
) -> (plan: ContextPlan)
    requires
        r.wf(),
    ensures
        r.mandatory() > r.session.budget.input_budget_spec() ==> refused(
            r,
            classify_elapsed,
            probes@,
            plan,
        ),
        r.mandatory() <= r.session.budget.input_budget_spec() ==> granted(
            r,
            classify_elapsed,
            probes@,
            plan,
        ),
{
    let started = now();
    let mut blocked = mandatory_plan(r);
    let mandatory = match plan_metric(&blocked) {
        Some(value) => value,
        None => 0,
    };
    let budget = opening_budget(
        r,
        mandatory,
        elapsed_millis(&started),
        classify_elapsed,
        probes,
    );
    if mandatory > r.session.budget.input_budget() {
        blocked.retrieval_trace.budget_allocation = budget;
        return blocked;
    }
    grant(r, mandatory, budget, Ghost(classify_elapsed), Ghost(probes@))
}

proof fn take_recent_coherent<'a>(r: &AllocationRequest<'a>, st: AllocationModel, n: int)
    requires
        coherent(r, st),
        0 <= n == r.history@.len() - st.history.len(),
    ensures
        coherent(r, take_recent(r, st, n)),
    decreases n,
{
    if n > 0 {
        let index = r.history@[n - 1];
        let tokens = r.tokens(seq![index] + st.history, st.picked);
        if tokens <= budget::capped_add(r.mandatory(), r.share(BudgetBucket::RecentHistory))
            && tokens <= r.allocation_limit {
            turn_keeps_coherence(r, st, n, false);
            take_recent_coherent(r, with_turn(r, st, index, false), n - 1);
        }
    }
}

proof fn take_groups_coherent<'a>(
    r: &AllocationRequest<'a>,
    bucket: BudgetBucket,
    base: u64,
    st: AllocationModel,
    n: int,
)
    requires
        coherent(r, st),
        n <= r.groups().len(),
    ensures
        coherent(r, take_groups(r, bucket, base, st, n)),
    decreases n,
{
    if n > 0 {
        take_groups_coherent(r, bucket, base, st, n - 1);
        let before = take_groups(r, bucket, base, st, n - 1);
        let group = (n - 1) as usize;
        if r.tokens(before.history, before.picked.push(group)) <= r.allocation_limit {
            group_keeps_coherence(r, before, group, false);
        }
    }
}

proof fn reflow_recent_coherent<'a>(
    r: &AllocationRequest<'a>,
    st: AllocationModel,
    pool: u64,
    n: int,
)
    requires
        coherent(r, st),
        0 <= n == r.history@.len() - st.history.len(),
    ensures
        coherent(r, reflow_recent(r, st, pool, n).0),
    decreases n,
{
    if n > 0 {
        let index = r.history@[n - 1];
        let tokens = r.tokens(seq![index] + st.history, st.picked);
        let increment = budget::floored_sub(tokens, st.current);
        if tokens <= r.allocation_limit && increment <= pool {
            turn_keeps_coherence(r, st, n, true);
            reflow_recent_coherent(
                r,
                with_turn(r, st, index, true),
                (pool - increment) as u64,
                n - 1,
            );
        }
    }
}

proof fn reflow_groups_coherent<'a>(
    r: &AllocationRequest<'a>,
    bucket: BudgetBucket,
    st: AllocationModel,
    pool: u64,
    n: int,
)
    requires
        coherent(r, st),
        n <= r.groups().len(),
    ensures
        coherent(r, reflow_groups(r, bucket, st, pool, n).0),
    decreases n,
{
    if n > 0 {
        reflow_groups_coherent(r, bucket, st, pool, n - 1);
        let before = reflow_groups(r, bucket, st, pool, n - 1).0;
        let group = (n - 1) as usize;
        if r.tokens(before.history, before.picked.push(group)) <= r.allocation_limit {
            group_keeps_coherence(r, before, group, true);
        }
    }
}

proof fn allocation_coherent<'a>(r: &AllocationRequest<'a>)
    ensures
        coherent(r, allocated(r)),
{
    let n = r.groups().len() as int;
    let m = r.history@.len() as int;
    budget::fewer_groups_than_evidence(r.recall.trace, r.recall.evidence@);
    assert(r.recall.evidence@.len() == r.recall.evidence.len());
    assert(r.history@.skip(m) =~= Seq::empty());
    assert(coherent(r, started(r)));
    take_recent_coherent(r, started(r), m);
    let s1 = take_recent(r, started(r), m);
    take_groups_coherent(r, BudgetBucket::ExactOrState, s1.current, s1, n);
    let s2 = take_bucket(r, BudgetBucket::ExactOrState, s1);
    take_groups_coherent(r, BudgetBucket::Episode, s2.current, s2, n);
    let s3 = take_bucket(r, BudgetBucket::Episode, s2);
    take_groups_coherent(r, BudgetBucket::Graph, s3.current, s3, n);
    let s4 = shares_taken(r);
    assert(coherent(r, s4));
    reflow_recent_coherent(r, s4, left_over(r), m - s4.history.len());
    let o1 = recent_offered(r);
    reflow_groups_coherent(r, BudgetBucket::ExactOrState, o1.0, o1.1, n);
    let o2 = bucket_offered(r, BudgetBucket::ExactOrState, o1);
    reflow_groups_coherent(r, BudgetBucket::Episode, o2.0, o2.1, n);
    let o3 = bucket_offered(r, BudgetBucket::Episode, o2);
    reflow_groups_coherent(r, BudgetBucket::Graph, o3.0, o3.1, n);
}

/// An allocation that takes anything keeps the request within its limit.
pub proof fn allocations_stay_within_the_limit<'a>(r: &AllocationRequest<'a>)
    ensures
        allocated(r).history.len() > 0 || allocated(r).picked.len() > 0 ==> allocated(r).current
            <= r.allocation_limit,
        allocated(r).current == r.tokens(allocated(r).history, allocated(r).picked),
{
    allocation_coherent(r);
}

/// The history that an allocation takes is the most recent part of what it was
/// offered, without a gap.
pub proof fn allocated_history_is_recent<'a>(r: &AllocationRequest<'a>)
    ensures
        allocated(r).history.len() <= r.history@.len(),
        allocated(r).history == r.history@.skip(
            r.history@.len() - allocated(r).history.len(),
        ),
{
    allocation_coherent(r);
}

proof fn nothing_picked_gives_no_evidence(
    groups: Seq<budget::GroupModel>,
    bucket: BudgetBucket,
    n: int,
)
    ensures
        budget::bucket_evidence(groups, Seq::empty(), bucket, n) == Seq::<RecalledEvidence>::empty(),
    decreases n,
{
    if n > 0 {
        nothing_picked_gives_no_evidence(groups, bucket, n - 1);
    }
}

/// No choice takes a request below its unavoidable part.
pub proof fn choices_only_add<'a>(
    r: &AllocationRequest<'a>,
    history: Seq<usize>,
    picked: Seq<usize>,
)
    ensures
        r.mandatory() <= r.tokens(history, picked),
{
    let n = r.groups().len() as int;
    nothing_picked_gives_no_evidence(r.groups(), BudgetBucket::ExactOrState, n);
    nothing_picked_gives_no_evidence(r.groups(), BudgetBucket::Episode, n);
    nothing_picked_gives_no_evidence(r.groups(), BudgetBucket::Graph, n);
    assert(budget::picked_evidence(r.groups(), Seq::empty()) =~= Seq::empty());
    context::requests_only_grow(
        *r.session,
        r.user_content@,
        history,
        budget::picked_evidence(r.groups(), picked),
        context::injected_of(Some(r.knowledge)),
    );
}

/// The unavoidable part of a request and what the buckets are charged make up the
/// whole, whether the charges are summed as they come or by bucket.
pub proof fn charges_make_up_the_growth<'a>(r: &AllocationRequest<'a>)
    ensures
        r.mandatory() + attribution::charged(charges_of(r), attribution::Charge::Any)
            == allocated(r).current,
        r.mandatory() + budget::breakdown_total(attribution::charged_breakdown(charges_of(r)))
            == allocated(r).current,
{
    allocation_coherent(r);
    let st = allocated(r);
    choices_only_add(r, st.history, st.picked);
    attribution::settled_charges_sum_up(st.log, r.mandatory(), st.current);
    attribution::buckets_make_up_total(charges_of(r));
}

/// More turns and more groups never lower the estimate.
pub proof fn choices_add_up<'a>(
    r: &AllocationRequest<'a>,
    older: Seq<usize>,
    history: Seq<usize>,
    less: Seq<usize>,
    more: Seq<usize>,
)
    requires
        forall|x: usize| #[trigger] less.contains(x) ==> more.contains(x),
    ensures
        r.tokens(history, less) <= r.tokens(older + history, more),
{
    budget::more_picks_give_more_evidence(r.groups(), less, more);
    context::requests_grow_with_what_they_hold(
        *r.session,
        r.user_content@,
        older,
        history,
        budget::picked_evidence(r.groups(), less),
        budget::picked_evidence(r.groups(), more),
        context::injected_of(Some(r.knowledge)),
    );
}

proof fn picks_add_up<'a>(
    r: &AllocationRequest<'a>,
    history: Seq<usize>,
    less: Seq<usize>,
    more: Seq<usize>,
)
    requires
        forall|x: usize| #[trigger] less.contains(x) ==> more.contains(x),
    ensures
        r.tokens(history, less) <= r.tokens(history, more),
{
    choices_add_up(r, Seq::empty(), history, less, more);
    assert(Seq::<usize>::empty() + history =~= history);
}

proof fn pushing_keeps(picked: Seq<usize>, x: usize)
    ensures
        forall|y: usize| #[trigger] picked.contains(y) ==> picked.push(x).contains(y),
{
    assert forall|y: usize| #[trigger] picked.contains(y) implies picked.push(x).contains(y) by {
        let i = choose|i: int| 0 <= i < picked.len() && picked[i] == y;
        assert(picked.push(x)[i] == y);
    }
}

proof fn joining_keeps(picked: Seq<usize>, more: Seq<usize>, x: usize)
    ensures
        forall|y: usize| #[trigger]
            picked.push(x).contains(y) ==> (picked + more).push(x).contains(y),
        forall|y: usize| #[trigger] picked.contains(y) ==> (picked + more).contains(y),
{
    let all = (picked + more).push(x);
    assert forall|y: usize| #[trigger] picked.push(x).contains(y) implies all.contains(y) by {
        let i = choose|i: int| 0 <= i < picked.push(x).len() && picked.push(x)[i] == y;
        if i < picked.len() {
            assert(all[i] == y);
        } else {
            assert(all[all.len() - 1] == y);
        }
    }
    assert forall|y: usize| #[trigger] picked.contains(y) implies (picked + more).contains(y) by {
        let i = choose|i: int| 0 <= i < picked.len() && picked[i] == y;
        assert((picked + more)[i] == y);
    }
}

/// The sum of a breakdown, without a cap.
pub open spec fn uncapped_total(b: BudgetTokenBreakdown) -> int {
    b.recent_history + b.exact_or_state + b.episode + b.graph
}

/// The tokens that were already charged when an allocation began.
pub open spec fn charged_before<'a>(r: &AllocationRequest<'a>) -> int {
    uncapped_total(r.recall.trace.budget_allocation.actual_tokens)
}

/// The buckets were charged what the request grew by.
spec fn charges_follow<'a>(r: &AllocationRequest<'a>, st: AllocationModel) -> bool {
    let grown = charged_before(r) + st.current - r.mandatory();
    ||| uncapped_total(st.actual) == grown
    ||| uncapped_total(st.actual) >= u64::MAX && grown >= u64::MAX
}

proof fn turn_is_charged<'a>(r: &AllocationRequest<'a>, st: AllocationModel, index: usize, reflow: bool)
    requires
        st.current == r.tokens(st.history, st.picked),
        charges_follow(r, st),
    ensures
        charges_follow(r, with_turn(r, st, index, reflow)),
        st.current <= with_turn(r, st, index, reflow).current,
{
    choices_add_up(r, seq![index], st.history, st.picked, st.picked);
}

proof fn group_is_charged<'a>(r: &AllocationRequest<'a>, st: AllocationModel, group: usize, reflow: bool)
    requires
        st.current == r.tokens(st.history, st.picked),
        charges_follow(r, st),
    ensures
        charges_follow(r, with_group(r, st, group, reflow)),
        st.current <= with_group(r, st, group, reflow).current,
{
    pushing_keeps(st.picked, group);
    picks_add_up(r, st.history, st.picked, st.picked.push(group));
}

proof fn take_recent_is_charged<'a>(r: &AllocationRequest<'a>, st: AllocationModel, n: int)
    requires
        coherent(r, st),
        charges_follow(r, st),
        0 <= n == r.history@.len() - st.history.len(),
    ensures
        charges_follow(r, take_recent(r, st, n)),
    decreases n,
{
    if n > 0 {
        let index = r.history@[n - 1];
        let tokens = r.tokens(seq![index] + st.history, st.picked);
        if tokens <= budget::capped_add(r.mandatory(), r.share(BudgetBucket::RecentHistory))
            && tokens <= r.allocation_limit {
            turn_keeps_coherence(r, st, n, false);
            turn_is_charged(r, st, index, false);
            take_recent_is_charged(r, with_turn(r, st, index, false), n - 1);
        }
    }
}

proof fn take_groups_is_charged<'a>(
    r: &AllocationRequest<'a>,
    bucket: BudgetBucket,
    base: u64,
    st: AllocationModel,
    n: int,
)
    requires
        coherent(r, st),
        charges_follow(r, st),
        n <= r.groups().len(),
    ensures
        charges_follow(r, take_groups(r, bucket, base, st, n)),
    decreases n,
{
    if n > 0 {
        take_groups_is_charged(r, bucket, base, st, n - 1);
        take_groups_coherent(r, bucket, base, st, n - 1);
        let before = take_groups(r, bucket, base, st, n - 1);
        group_is_charged(r, before, (n - 1) as usize, false);
    }
}

proof fn shares_are_charged<'a>(r: &AllocationRequest<'a>)
    ensures
        coherent(r, shares_taken(r)),
        charges_follow(r, shares_taken(r)),
{
    let n = r.groups().len() as int;
    let m = r.history@.len() as int;
    budget::fewer_groups_than_evidence(r.recall.trace, r.recall.evidence@);
    assert(r.recall.evidence@.len() == r.recall.evidence.len());
    assert(r.history@.skip(m) =~= Seq::empty());
    assert(coherent(r, started(r)));
    take_recent_coherent(r, started(r), m);
    take_recent_is_charged(r, started(r), m);
    let s1 = take_recent(r, started(r), m);
    take_groups_coherent(r, BudgetBucket::ExactOrState, s1.current, s1, n);
    take_groups_is_charged(r, BudgetBucket::ExactOrState, s1.current, s1, n);
    let s2 = take_bucket(r, BudgetBucket::ExactOrState, s1);
    take_groups_coherent(r, BudgetBucket::Episode, s2.current, s2, n);
    take_groups_is_charged(r, BudgetBucket::Episode, s2.current, s2, n);
    let s3 = take_bucket(r, BudgetBucket::Episode, s2);
    take_groups_coherent(r, BudgetBucket::Graph, s3.current, s3, n);
    take_groups_is_charged(r, BudgetBucket::Graph, s3.current, s3, n);
}

/// A group was picked, or there is no room for it beside what was.
spec fn dealt_with<'a>(r: &AllocationRequest<'a>, st: AllocationModel, i: int, room: int) -> bool {
    ||| st.picked.contains(i as usize)
    ||| r.hard(st.picked, i as usize) is Some
    ||| r.tokens(st.history, st.picked.push(i as usize)) > room
}

proof fn dealings_stay<'a>(
    r: &AllocationRequest<'a>,
    st: AllocationModel,
    next: AllocationModel,
    i: int,
    room: int,
)
    requires
        dealt_with(r, st, i, room),
        goes_on(st, next),
    ensures
        dealt_with(r, next, i, room),
{
    let group = i as usize;
    let more = next.picked.skip(st.picked.len() as int);
    joining_keeps(st.picked, more, group);
    if r.hard(st.picked, group) is Some {
        budget::refusals_stay(
            r.groups(),
            st.picked,
            more,
            group,
            r.session.retrieval,
            r.graph_candidate_limit,
        );
    }
    picks_add_up(r, st.history, st.picked.push(group), next.picked.push(group));
}

/// One choice goes on from another: the history stays, picks are only added.
spec fn goes_on(st: AllocationModel, next: AllocationModel) -> bool {
    &&& next.history == st.history
    &&& st.picked.len() <= next.picked.len()
    &&& next.picked == st.picked + next.picked.skip(st.picked.len() as int)
}

proof fn going_on_chains(a: AllocationModel, b: AllocationModel, c: AllocationModel)
    requires
        goes_on(a, b),
        goes_on(b, c),
    ensures
        goes_on(a, c),
{
    assert(c.picked =~= a.picked + c.picked.skip(a.picked.len() as int)) by {
        assert forall|i: int| 0 <= i < a.picked.len() implies c.picked[i] == a.picked[i] by {
            assert(b.picked[i] == (a.picked + b.picked.skip(a.picked.len() as int))[i]);
            assert(c.picked[i] == (b.picked + c.picked.skip(b.picked.len() as int))[i]);
        }
    }
}

proof fn reflow_group_deals_with_it<'a>(
    r: &AllocationRequest<'a>,
    bucket: BudgetBucket,
    st: AllocationModel,
    pool: u64,
    i: int,
    room: int,
)
    requires
        st.current == r.tokens(st.history, st.picked),
        room <= r.allocation_limit,
        room <= pool + st.current,
    ensures
        ({
            let out = reflow_group(r, bucket, st, pool, i);
            &&& goes_on(st, out.0)
            &&& out.1 + out.0.current == pool + st.current
            &&& r.groups()[i].bucket == bucket ==> dealt_with(r, out.0, i, room)
        }),
{
    let out = reflow_group(r, bucket, st, pool, i);
    let group = i as usize;
    pushing_keeps(st.picked, group);
    picks_add_up(r, st.history, st.picked, st.picked.push(group));
    assert(out.0.picked =~= st.picked + out.0.picked.skip(st.picked.len() as int));
    if out.0.picked.len() > st.picked.len() {
        assert(out.0.picked[st.picked.len() as int] == group);
    }
}

proof fn reflow_groups_deals_with_all<'a>(
    r: &AllocationRequest<'a>,
    bucket: BudgetBucket,
    st: AllocationModel,
    pool: u64,
    n: int,
    room: int,
)
    requires
        coherent(r, st),
        0 <= n <= r.groups().len(),
        room <= r.allocation_limit,
        room <= pool + st.current,
    ensures
        ({
            let out = reflow_groups(r, bucket, st, pool, n);
            &&& goes_on(st, out.0)
            &&& out.1 + out.0.current == pool + st.current
            &&& forall|i: int|
                0 <= i < n && (#[trigger] r.groups()[i]).bucket == bucket ==> dealt_with(
                    r,
                    out.0,
                    i,
                    room,
                )
        }),
    decreases n,
{
    let out = reflow_groups(r, bucket, st, pool, n);
    if n <= 0 {
        assert(out.0.picked =~= st.picked + out.0.picked.skip(st.picked.len() as int));
    } else {
        let before = reflow_groups(r, bucket, st, pool, n - 1);
        reflow_groups_deals_with_all(r, bucket, st, pool, n - 1, room);
        assert(before.0.current == r.tokens(before.0.history, before.0.picked)) by {
            reflow_groups_coherent(r, bucket, st, pool, n - 1);
        }
        reflow_group_deals_with_it(r, bucket, before.0, before.1, n - 1, room);
        going_on_chains(st, before.0, out.0);
        assert forall|i: int|
            0 <= i < n && (#[trigger] r.groups()[i]).bucket == bucket implies dealt_with(
            r,
            out.0,
            i,
            room,
        ) by {
            if i < n - 1 {
                dealings_stay(r, before.0, out.0, i, room);
            }
        }
    }
}

proof fn reflow_recent_takes_all_that_fits<'a>(
    r: &AllocationRequest<'a>,
    st: AllocationModel,
    pool: u64,
    n: int,
    room: int,
)
    requires
        coherent(r, st),
        0 <= n == r.history@.len() - st.history.len(),
        room <= r.allocation_limit,
        room <= pool + st.current,
    ensures
        ({
            let out = reflow_recent(r, st, pool, n);
            let m = r.history@.len() - out.0.history.len();
            &&& out.0.picked == st.picked
            &&& out.1 + out.0.current == pool + st.current
            &&& m >= 0
            &&& m > 0 ==> r.tokens(seq![r.history@[m - 1]] + out.0.history, out.0.picked) > room
        }),
    decreases n,
{
    if n > 0 {
        let index = r.history@[n - 1];
        let tokens = r.tokens(seq![index] + st.history, st.picked);
        let increment = budget::floored_sub(tokens, st.current);
        choices_add_up(r, seq![index], st.history, st.picked, st.picked);
        if tokens <= r.allocation_limit && increment <= pool {
            turn_keeps_coherence(r, st, n, true);
            reflow_recent_takes_all_that_fits(
                r,
                with_turn(r, st, index, true),
                (pool - increment) as u64,
                n - 1,
                room,
            );
        }
    }
}

/// Nothing that fits is left out, whatever its bucket. Every group that is not
/// picked breaks a hard limit together with the picked ones, or a request with it
/// too would need more than the allocation limit and what was charged before the
/// allocation leave. The same holds of one more turn of history.
pub proof fn nothing_that_fits_is_left_out<'a>(r: &AllocationRequest<'a>)
    ensures
        forall|i: int|
            0 <= i < r.groups().len() ==> {
                let group = #[trigger] (i as usize);
                ||| allocated(r).picked.contains(group)
                ||| r.hard(allocated(r).picked, group) is Some
                ||| r.tokens(allocated(r).history, allocated(r).picked.push(group))
                    + charged_before(r) > r.allocation_limit
            },
        allocated(r).history.len() < r.history@.len() ==> r.tokens(
            seq![r.history@[r.history@.len() - allocated(r).history.len() - 1]]
                + allocated(r).history,
            allocated(r).picked,
        ) + charged_before(r) > r.allocation_limit,
{
    let n = r.groups().len() as int;
    let s = shares_taken(r);
    shares_are_charged(r);
    let room = r.allocation_limit - charged_before(r);
    assert(room <= left_over(r) + s.current);
    reflow_recent_takes_all_that_fits(
        r,
        s,
        left_over(r),
        r.history@.len() - s.history.len(),
        room,
    );
    reflow_recent_coherent(r, s, left_over(r), r.history@.len() - s.history.len());
    let o1 = recent_offered(r);
    reflow_groups_deals_with_all(r, BudgetBucket::ExactOrState, o1.0, o1.1, n, room);
    reflow_groups_coherent(r, BudgetBucket::ExactOrState, o1.0, o1.1, n);
    let o2 = bucket_offered(r, BudgetBucket::ExactOrState, o1);
    reflow_groups_deals_with_all(r, BudgetBucket::Episode, o2.0, o2.1, n, room);
    reflow_groups_coherent(r, BudgetBucket::Episode, o2.0, o2.1, n);
    let o3 = bucket_offered(r, BudgetBucket::Episode, o2);
    reflow_groups_deals_with_all(r, BudgetBucket::Graph, o3.0, o3.1, n, room);
    let o4 = bucket_offered(r, BudgetBucket::Graph, o3);
    let end = allocated(r);
    assert(end == o4.0);
    budget::groups_hold_evidence(r.recall.trace, r.recall.evidence@);
    going_on_chains(o2.0, o3.0, end);
    going_on_chains(o1.0, o2.0, end);
    assert forall|i: int| 0 <= i < n implies {
        let group = #[trigger] (i as usize);
        ||| end.picked.contains(group)
        ||| r.hard(end.picked, group) is Some
        ||| r.tokens(end.history, end.picked.push(group)) + charged_before(r) > r.allocation_limit
    } by {
        let bucket = r.groups()[i].bucket;
        if bucket == BudgetBucket::ExactOrState {
            dealings_stay(r, o2.0, end, i, room);
        } else if bucket == BudgetBucket::Episode {
            dealings_stay(r, o3.0, end, i, room);
        }
        assert(dealt_with(r, end, i, room));
    }
    let m = r.history@.len() - end.history.len();
    assert(end.history == o1.0.history);
    if m > 0 {
        joining_keeps(o1.0.picked, end.picked.skip(o1.0.picked.len() as int), 0);
        picks_add_up(
            r,
            seq![r.history@[m - 1]] + end.history,
            o1.0.picked,
            end.picked,
        );
    }
}

/// A bucket had its share: the picks from one place to another are of its groups
/// and cost no more than the share, and every other group of it breaks a hard
/// limit, the allocation limit or the share.
pub open spec fn had_its_share<'a>(
    r: &AllocationRequest<'a>,
    st: AllocationModel,
    bucket: BudgetBucket,
    from: int,
    to: int,
) -> bool {
    let before = r.tokens(st.history, st.picked.take(from));
    let upto = st.picked.take(to);
    &&& 0 <= from <= to <= st.picked.len()
    &&& forall|k: int|
        from <= k < to ==> r.groups()[(#[trigger] st.picked[k]) as int].bucket == bucket
    &&& r.tokens(st.history, upto) <= before + r.share(bucket)
    &&& forall|i: int|
        0 <= i < r.groups().len() && (#[trigger] r.groups()[i]).bucket == bucket ==> {
            let with_it = r.tokens(st.history, upto.push(i as usize));
            ||| upto.contains(i as usize)
            ||| r.hard(upto, i as usize) is Some
            ||| with_it > r.allocation_limit
            ||| with_it > before + r.share(bucket)
        }
}

spec fn share_room<'a>(r: &AllocationRequest<'a>, bucket: BudgetBucket, base: u64) -> int {
    if base + r.share(bucket) < r.allocation_limit {
        base + r.share(bucket)
    } else {
        r.allocation_limit as int
    }
}

proof fn take_group_deals_with_it<'a>(
    r: &AllocationRequest<'a>,
    bucket: BudgetBucket,
    base: u64,
    st: AllocationModel,
    i: int,
)
    requires
        st.current == r.tokens(st.history, st.picked),
        base <= st.current <= base + r.share(bucket),
        0 <= i <= usize::MAX,
    ensures
        ({
            let out = take_group(r, bucket, base, st, i);
            &&& goes_on(st, out)
            &&& st.current <= out.current <= base + r.share(bucket)
            &&& r.groups()[i].bucket == bucket ==> dealt_with(
                r,
                out,
                i,
                share_room(r, bucket, base),
            )
            &&& forall|k: int|
                st.picked.len() <= k < out.picked.len() ==> r.groups()[(
                #[trigger] out.picked[k]) as int].bucket == bucket
        }),
{
    let out = take_group(r, bucket, base, st, i);
    let group = i as usize;
    pushing_keeps(st.picked, group);
    picks_add_up(r, st.history, st.picked, st.picked.push(group));
    assert(out.picked =~= st.picked + out.picked.skip(st.picked.len() as int));
    if out.picked.len() > st.picked.len() {
        assert(out.picked[st.picked.len() as int] == group);
    }
}

proof fn take_groups_deals_with_all<'a>(
    r: &AllocationRequest<'a>,
    bucket: BudgetBucket,
    base: u64,
    st: AllocationModel,
    n: int,
)
    requires
        coherent(r, st),
        base == st.current,
        0 <= n <= r.groups().len(),
    ensures
        ({
            let out = take_groups(r, bucket, base, st, n);
            &&& goes_on(st, out)
            &&& st.current <= out.current <= base + r.share(bucket)
            &&& forall|i: int|
                0 <= i < n && (#[trigger] r.groups()[i]).bucket == bucket ==> dealt_with(
                    r,
                    out,
                    i,
                    share_room(r, bucket, base),
                )
            &&& forall|k: int|
                st.picked.len() <= k < out.picked.len() ==> r.groups()[(
                #[trigger] out.picked[k]) as int].bucket == bucket
        }),
    decreases n,
{
    let out = take_groups(r, bucket, base, st, n);
    if n <= 0 {
        assert(out.picked =~= st.picked + out.picked.skip(st.picked.len() as int));
    } else {
        let before = take_groups(r, bucket, base, st, n - 1);
        take_groups_deals_with_all(r, bucket, base, st, n - 1);
        assert(before.current == r.tokens(before.history, before.picked)) by {
            take_groups_coherent(r, bucket, base, st, n - 1);
        }
        take_group_deals_with_it(r, bucket, base, before, n - 1);
        going_on_chains(st, before, out);
        assert forall|i: int|
            0 <= i < n && (#[trigger] r.groups()[i]).bucket == bucket implies dealt_with(
            r,
            out,
            i,
            share_room(r, bucket, base),
        ) by {
            if i < n - 1 {
                dealings_stay(r, before, out, i, share_room(r, bucket, base));
            }
        }
        assert forall|k: int| st.picked.len() <= k < out.picked.len() implies r.groups()[(
        #[trigger] out.picked[k]) as int].bucket == bucket by {
            if k < before.picked.len() {
                assert(out.picked[k] == (before.picked + out.picked.skip(
                    before.picked.len() as int,
                ))[k]);
            }
        }
    }
}

proof fn bucket_had_its_share<'a>(
    r: &AllocationRequest<'a>,
    bucket: BudgetBucket,
    st: AllocationModel,
    end: AllocationModel,
)
    requires
        coherent(r, st),
        goes_on(take_bucket(r, bucket, st), end),
    ensures
        had_its_share(
            r,
            end,
            bucket,
            st.picked.len() as int,
            take_bucket(r, bucket, st).picked.len() as int,
        ),
        goes_on(st, end),
        coherent(r, take_bucket(r, bucket, st)),
{
    let n = r.groups().len() as int;
    let out = take_bucket(r, bucket, st);
    take_groups_deals_with_all(r, bucket, st.current, st, n);
    take_groups_coherent(r, bucket, st.current, st, n);
    going_on_chains(st, out, end);
    assert(end.picked.take(out.picked.len() as int) =~= out.picked);
    assert(end.picked.take(st.picked.len() as int) =~= st.picked);
    assert forall|k: int| st.picked.len() <= k < out.picked.len() implies r.groups()[(
    #[trigger] end.picked[k]) as int].bucket == bucket by {
        assert(end.picked[k] == out.picked[k]);
    }
    assert forall|i: int| 0 <= i < n && (#[trigger] r.groups()[i]).bucket == bucket implies {
        let with_it = r.tokens(end.history, out.picked.push(i as usize));
        ||| out.picked.contains(i as usize)
        ||| r.hard(out.picked, i as usize) is Some
        ||| with_it > r.allocation_limit
        ||| with_it > st.current + r.share(bucket)
    } by {
        assert(dealt_with(r, out, i, share_room(r, bucket, st.current)));
    }
}

proof fn take_recent_takes_all_that_fits<'a>(r: &AllocationRequest<'a>, st: AllocationModel, n: int)
    requires
        coherent(r, st),
        st.current <= r.mandatory() + r.share(BudgetBucket::RecentHistory),
        0 <= n == r.history@.len() - st.history.len(),
    ensures
        ({
            let out = take_recent(r, st, n);
            let m = r.history@.len() - out.history.len();
            &&& out.picked == st.picked
            &&& out.current <= r.mandatory() + r.share(BudgetBucket::RecentHistory)
            &&& m >= 0
            &&& m > 0 ==> r.tokens(seq![r.history@[m - 1]] + out.history, out.picked) > share_room(
                r,
                BudgetBucket::RecentHistory,
                r.mandatory(),
            )
        }),
    decreases n,
{
    if n > 0 {
        let index = r.history@[n - 1];
        let tokens = r.tokens(seq![index] + st.history, st.picked);
        if tokens <= budget::capped_add(r.mandatory(), r.share(BudgetBucket::RecentHistory))
            && tokens <= r.allocation_limit {
            turn_keeps_coherence(r, st, n, false);
            take_recent_takes_all_that_fits(r, with_turn(r, st, index, false), n - 1);
        }
    }
}

/// Before anything is shared out a second time, history and then each bucket had
/// its share: what it took costs no more, and what it left would not have fitted.
pub proof fn shares_come_first<'a>(r: &AllocationRequest<'a>)
    ensures
        ({
            let s = shares_taken(r);
            let m = r.history@.len() - s.history.len();
            let past = r.mandatory() + r.share(BudgetBucket::RecentHistory);
            &&& m >= 0
            &&& s.history == r.history@.skip(m)
            &&& r.tokens(s.history, Seq::empty()) <= past
            &&& m > 0 ==> {
                let longer = r.tokens(seq![r.history@[m - 1]] + s.history, Seq::empty());
                longer > r.allocation_limit || longer > past
            }
            &&& exists|a: int, b: int|
                #![trigger s.picked.take(a), s.picked.take(b)]
                had_its_share(r, s, BudgetBucket::ExactOrState, 0, a) && had_its_share(
                    r,
                    s,
                    BudgetBucket::Episode,
                    a,
                    b,
                ) && had_its_share(r, s, BudgetBucket::Graph, b, s.picked.len() as int)
        }),
        allocated(r).picked.take(shares_taken(r).picked.len() as int) == shares_taken(r).picked,
        shares_taken(r).history.len() <= allocated(r).history.len(),
{
    let n = r.groups().len() as int;
    let m = r.history@.len() as int;
    budget::fewer_groups_than_evidence(r.recall.trace, r.recall.evidence@);
    assert(r.recall.evidence@.len() == r.recall.evidence.len());
    assert(r.history@.skip(m) =~= Seq::empty());
    assert(coherent(r, started(r)));
    take_recent_coherent(r, started(r), m);
    take_recent_takes_all_that_fits(r, started(r), m);
    let s1 = take_recent(r, started(r), m);
    let s2 = take_bucket(r, BudgetBucket::ExactOrState, s1);
    let s3 = take_bucket(r, BudgetBucket::Episode, s2);
    let s4 = take_bucket(r, BudgetBucket::Graph, s3);
    assert(s4 == shares_taken(r));
    assert(s1.picked =~= Seq::empty());
    take_groups_coherent(r, BudgetBucket::ExactOrState, s1.current, s1, n);
    take_groups_coherent(r, BudgetBucket::Episode, s2.current, s2, n);
    assert(goes_on(s4, s4)) by {
        assert(s4.picked =~= s4.picked + s4.picked.skip(s4.picked.len() as int));
    }
    bucket_had_its_share(r, BudgetBucket::Graph, s3, s4);
    bucket_had_its_share(r, BudgetBucket::Episode, s2, s4);
    bucket_had_its_share(r, BudgetBucket::ExactOrState, s1, s4);
    let a = s2.picked.len() as int;
    let b = s3.picked.len() as int;
    assert(had_its_share(r, s4, BudgetBucket::ExactOrState, 0, a));
    assert(had_its_share(r, s4, BudgetBucket::Episode, a, b));
    assert(had_its_share(r, s4, BudgetBucket::Graph, b, s4.picked.len() as int));
    assert(s4.picked.take(a).len() == a && s4.picked.take(b).len() == b);
    shares_are_charged(r);
    let rest = m - s4.history.len();
    reflow_recent_coherent(r, s4, left_over(r), rest);
    let o1 = recent_offered(r);
    reflow_recent_keeps(r, s4, left_over(r), rest);
    reflow_groups_deals_with_all(r, BudgetBucket::ExactOrState, o1.0, o1.1, n, 0);
    reflow_groups_coherent(r, BudgetBucket::ExactOrState, o1.0, o1.1, n);
    let o2 = bucket_offered(r, BudgetBucket::ExactOrState, o1);
    reflow_groups_deals_with_all(r, BudgetBucket::Episode, o2.0, o2.1, n, 0);
    reflow_groups_coherent(r, BudgetBucket::Episode, o2.0, o2.1, n);
    let o3 = bucket_offered(r, BudgetBucket::Episode, o2);
    reflow_groups_deals_with_all(r, BudgetBucket::Graph, o3.0, o3.1, n, 0);
    going_on_chains(o2.0, o3.0, allocated(r));
    going_on_chains(o1.0, o2.0, allocated(r));
    assert(allocated(r).picked.take(s4.picked.len() as int) =~= s4.picked);
}

proof fn reflow_recent_keeps<'a>(r: &AllocationRequest<'a>, st: AllocationModel, pool: u64, n: int)
    ensures
        reflow_recent(r, st, pool, n).0.picked == st.picked,
        reflow_recent(r, st, pool, n).0.history.len() >= st.history.len(),
    decreases n,
{
    if n > 0 {
        let index = r.history@[n - 1];
        let tokens = r.tokens(seq![index] + st.history, st.picked);
        let increment = budget::floored_sub(tokens, st.current);
        reflow_recent_keeps(
            r,
            with_turn(r, st, index, true),
            (pool - increment) as u64,
            n - 1,
        );
    }
}

/// The share of a bucket is its percentage of what the limit leaves above the
/// unavoidable part, rounded down.
pub proof fn shares_are_percentages<'a>(r: &AllocationRequest<'a>, bucket: BudgetBucket)
    requires
        r.wf(),
    ensures
        r.mandatory() <= r.allocation_limit ==> r.available() == r.allocation_limit - r.mandatory(),
        r.mandatory() > r.allocation_limit ==> r.available() == 0,
        r.share(bucket) * 100 <= r.available() * r.percent(bucket) < r.share(bucket) * 100 + 100,
{
    let available = r.available() as int;
    let percent = r.percent(bucket) as int;
    assert(available <= r.allocation_limit);
    assert(0 <= available * percent <= r.allocation_limit * percent) by (nonlinear_arith)
        requires
            0 <= available <= r.allocation_limit,
            0 <= percent,
    ;
    assert(r.allocation_limit * r.percent(bucket) <= u64::MAX);
}

} // verus!
