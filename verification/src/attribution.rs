//! The attribution of an allocation's tokens: every unit of context that was
//! taken is charged what it added, and what it saved is credited to the units
//! before it, newest first.

use vstd::prelude::*;

use crate::budget;
use crate::model::{BudgetBucket, BudgetReflowTrace, BudgetTokenBreakdown};

verus! {

/// A unit of context that was taken, with the tokens before and after.
#[derive(Clone, Copy, Debug, PartialEq, Eq, Structural)]
pub enum AcceptedBudgetUnit {
    Recent { index: usize, metric_before: u64, metric_after: u64, reflow: bool },
    Evidence {
        group: usize,
        bucket: BudgetBucket,
        metric_before: u64,
        metric_after: u64,
        reflow: bool,
    },
}

impl AcceptedBudgetUnit {
    pub open spec fn bucket_spec(self) -> BudgetBucket {
        match self {
            AcceptedBudgetUnit::Recent { .. } => BudgetBucket::RecentHistory,
            AcceptedBudgetUnit::Evidence { bucket, .. } => bucket,
        }
    }

    pub open spec fn before_spec(self) -> u64 {
        match self {
            AcceptedBudgetUnit::Recent { metric_before, .. } => metric_before,
            AcceptedBudgetUnit::Evidence { metric_before, .. } => metric_before,
        }
    }

    pub open spec fn after_spec(self) -> u64 {
        match self {
            AcceptedBudgetUnit::Recent { metric_after, .. } => metric_after,
            AcceptedBudgetUnit::Evidence { metric_after, .. } => metric_after,
        }
    }

    pub open spec fn reflow_spec(self) -> bool {
        match self {
            AcceptedBudgetUnit::Recent { reflow, .. } => reflow,
            AcceptedBudgetUnit::Evidence { reflow, .. } => reflow,
        }
    }

    pub fn bucket(&self) -> (r: BudgetBucket)
        ensures
            r == self.bucket_spec(),
    {
        match self {
            AcceptedBudgetUnit::Recent { .. } => BudgetBucket::RecentHistory,
            AcceptedBudgetUnit::Evidence { bucket, .. } => *bucket,
        }
    }

    pub fn metrics(&self) -> (r: (u64, u64))
        ensures
            r.0 == self.before_spec(),
            r.1 == self.after_spec(),
    {
        match self {
            AcceptedBudgetUnit::Recent { metric_before, metric_after, .. } => (
                *metric_before,
                *metric_after,
            ),
            AcceptedBudgetUnit::Evidence { metric_before, metric_after, .. } => (
                *metric_before,
                *metric_after,
            ),
        }
    }

    pub fn is_reflow(&self) -> (r: bool)
        ensures
            r == self.reflow_spec(),
    {
        match self {
            AcceptedBudgetUnit::Recent { reflow, .. } => *reflow,
            AcceptedBudgetUnit::Evidence { reflow, .. } => *reflow,
        }
    }
}

/// A log whose entries follow one another from `first` to `last` tokens.
pub open spec fn log_chained(log: Seq<AcceptedBudgetUnit>, first: u64, last: u64) -> bool
    decreases log.len(),
{
    if log.len() == 0 {
        first == last
    } else {
        log.last().after_spec() == last && log_chained(
            log.drop_last(),
            first,
            log.last().before_spec(),
        )
    }
}

pub proof fn log_grows(
    log: Seq<AcceptedBudgetUnit>,
    unit: AcceptedBudgetUnit,
    first: u64,
    last: u64,
)
    requires
        log_chained(log, first, last),
        unit.before_spec() == last,
    ensures
        log_chained(log.push(unit), first, unit.after_spec()),
{
    assert(log.push(unit).drop_last() =~= log);
}

/// Tokens charged to a bucket, within its share or out of what was left over.
#[derive(Clone, Copy, Debug, PartialEq, Eq, Structural)]
pub struct AttributedTokens {
    pub bucket: BudgetBucket,
    pub reflow: bool,
    pub amount: u64,
}

/// Takes a credit off the charges, from the last one backwards.
pub open spec fn take_back(charges: Seq<AttributedTokens>, credit: u64) -> Seq<AttributedTokens>
    decreases charges.len(),
{
    if charges.len() == 0 {
        charges
    } else {
        let last = charges.last();
        let applied = if credit < last.amount {
            credit
        } else {
            last.amount
        };
        take_back(charges.drop_last(), (credit - applied) as u64).push(
            AttributedTokens { amount: (last.amount - applied) as u64, ..last },
        )
    }
}

/// The charges of a log: growth is charged, shrinkage credited.
pub open spec fn attributed(log: Seq<AcceptedBudgetUnit>) -> Seq<AttributedTokens>
    decreases log.len(),
{
    if log.len() == 0 {
        Seq::empty()
    } else {
        let rest = attributed(log.drop_last());
        let unit = log.last();
        if unit.after_spec() >= unit.before_spec() {
            rest.push(
                AttributedTokens {
                    bucket: unit.bucket_spec(),
                    reflow: unit.reflow_spec(),
                    amount: (unit.after_spec() - unit.before_spec()) as u64,
                },
            )
        } else {
            take_back(rest, (unit.before_spec() - unit.after_spec()) as u64)
        }
    }
}

/// Which charges are meant.
pub enum Charge {
    Any,
    Initial,
    In(BudgetBucket),
    Reflow(BudgetBucket),
}

pub open spec fn charged_as(c: AttributedTokens, which: Charge) -> bool {
    match which {
        Charge::Any => true,
        Charge::Initial => !c.reflow,
        Charge::In(bucket) => c.bucket == bucket,
        Charge::Reflow(bucket) => c.reflow && c.bucket == bucket,
    }
}

/// The sum of some of the charges.
pub open spec fn charged(charges: Seq<AttributedTokens>, which: Charge) -> nat
    decreases charges.len(),
{
    if charges.len() == 0 {
        0
    } else {
        charged(charges.drop_last(), which) + (if charged_as(charges.last(), which) {
            charges.last().amount as nat
        } else {
            0
        })
    }
}

/// Charges brought down to a total.
pub open spec fn settled(charges: Seq<AttributedTokens>, target: u64) -> Seq<AttributedTokens> {
    let total = charged(charges, Charge::Any);
    if total > target {
        take_back(charges, (total - target) as u64)
    } else {
        charges
    }
}

/// A credit lowers the total, but not below nothing.
proof fn take_back_total(charges: Seq<AttributedTokens>, credit: u64)
    ensures
        take_back(charges, credit).len() == charges.len(),
        charged(take_back(charges, credit), Charge::Any) == (if charged(charges, Charge::Any)
            >= credit {
            (charged(charges, Charge::Any) - credit) as nat
        } else {
            0
        }),
    decreases charges.len(),
{
    if charges.len() > 0 {
        let last = charges.last();
        let applied = if credit < last.amount {
            credit
        } else {
            last.amount
        };
        let rest = take_back(charges.drop_last(), (credit - applied) as u64);
        take_back_total(charges.drop_last(), (credit - applied) as u64);
        let all = take_back(charges, credit);
        assert(all.drop_last() =~= rest);
    }
}

/// What is charged for a log is at most the last count, and at least what the
/// count grew by.
pub proof fn attributed_bounds(log: Seq<AcceptedBudgetUnit>, first: u64, last: u64)
    requires
        log_chained(log, first, last),
    ensures
        charged(attributed(log), Charge::Any) <= last,
        charged(attributed(log), Charge::Any) >= last - first,
    decreases log.len(),
{
    if log.len() > 0 {
        let unit = log.last();
        attributed_bounds(log.drop_last(), first, unit.before_spec());
        let rest = attributed(log.drop_last());
        if unit.after_spec() >= unit.before_spec() {
            assert(attributed(log).drop_last() =~= rest);
        } else {
            take_back_total(rest, (unit.before_spec() - unit.after_spec()) as u64);
        }
    }
}

/// The charges of a log, settled to what the count grew by, sum up to exactly
/// that growth, or to nothing when the count shrank.
pub proof fn settled_charges_sum_up(log: Seq<AcceptedBudgetUnit>, first: u64, last: u64)
    requires
        log_chained(log, first, last),
    ensures
        charged(settled(attributed(log), budget::floored_sub(last, first)), Charge::Any)
            == budget::floored_sub(last, first),
{
    attributed_bounds(log, first, last);
    let charges = attributed(log);
    let target = budget::floored_sub(last, first);
    let total = charged(charges, Charge::Any);
    if total > target {
        take_back_total(charges, (total - target) as u64);
    }
}

/// The sums over the four buckets make up the total.
pub proof fn buckets_make_up_total(charges: Seq<AttributedTokens>)
    ensures
        charged(charges, Charge::Any) == charged(charges, Charge::In(BudgetBucket::RecentHistory))
            + charged(charges, Charge::In(BudgetBucket::ExactOrState)) + charged(
            charges,
            Charge::In(BudgetBucket::Episode),
        ) + charged(charges, Charge::In(BudgetBucket::Graph)),
    decreases charges.len(),
{
    if charges.len() > 0 {
        buckets_make_up_total(charges.drop_last());
    }
}

proof fn charged_at_most_total(charges: Seq<AttributedTokens>, which: Charge)
    ensures
        charged(charges, which) <= charged(charges, Charge::Any),
    decreases charges.len(),
{
    if charges.len() > 0 {
        charged_at_most_total(charges.drop_last(), which);
    }
}

proof fn charged_grows(charges: Seq<AttributedTokens>, n: int, which: Charge)
    requires
        0 <= n <= charges.len(),
    ensures
        charged(charges.take(n), which) <= charged(charges, which),
    decreases charges.len(),
{
    if n < charges.len() {
        charged_grows(charges.drop_last(), n, which);
        assert(charges.drop_last().take(n) =~= charges.take(n));
    } else {
        assert(charges.take(n) =~= charges);
    }
}

fn matches_charge(c: &AttributedTokens, which: &Charge) -> (r: bool)
    ensures
        r == charged_as(*c, *which),
{
    match which {
        Charge::Any => true,
        Charge::Initial => !c.reflow,
        Charge::In(bucket) => c.bucket == *bucket,
        Charge::Reflow(bucket) => c.reflow && c.bucket == *bucket,
    }
}

/// Adds up some of the charges.
pub fn sum_charged(charges: &Vec<AttributedTokens>, which: &Charge) -> (r: u64)
    requires
        charged(charges@, Charge::Any) <= u64::MAX,
    ensures
        r == charged(charges@, *which),
{
    let mut total: u64 = 0;
    let mut i: usize = 0;
    proof {
        charged_at_most_total(charges@, *which);
    }
    while i < charges.len()
        invariant
            i <= charges@.len(),
            total == charged(charges@.take(i as int), *which),
            charged(charges@, *which) <= u64::MAX,
        decreases charges.len() - i,
    {
        proof {
            assert(charges@.take(i + 1).drop_last() =~= charges@.take(i as int));
            charged_grows(charges@, i + 1, *which);
        }
        if matches_charge(&charges[i], which) {
            total = total + charges[i].amount;
        }
        i += 1;
    }
    assert(charges@.take(i as int) =~= charges@);
    total
}

/// Takes a credit off charges in place.
pub fn credit_back(charges: &mut Vec<AttributedTokens>, credit: u64)
    ensures
        final(charges)@ == take_back(old(charges)@, credit),
{
    let ghost before = charges@;
    let mut left: u64 = credit;
    let mut i: usize = charges.len();
    proof {
        assert(before.take(i as int) =~= before);
        assert(take_back(before, left) + charges@.skip(i as int) =~= take_back(before, left));
    }
    while i > 0
        invariant
            i <= charges@.len(),
            charges@.len() == before.len(),
            charges@.take(i as int) == before.take(i as int),
            take_back(before, credit) == take_back(before.take(i as int), left)
                + charges@.skip(i as int),
        decreases i,
    {
        i -= 1;
        let c = charges[i];
        let applied = if left < c.amount {
            left
        } else {
            c.amount
        };
        let ghost prev = charges@;
        let ghost left0 = left;
        charges.set(
            i,
            AttributedTokens { bucket: c.bucket, reflow: c.reflow, amount: c.amount - applied },
        );
        left = left - applied;
        proof {
            let prefix = before.take(i + 1);
            assert(prev[i as int] == prev.take(i + 1)[i as int]);
            assert(prefix.last() == c);
            assert(prefix.drop_last() =~= before.take(i as int));
            assert(take_back(prefix, left0) == take_back(before.take(i as int), left).push(
                charges@[i as int],
            ));
            assert(take_back(prefix, left0) + prev.skip(i + 1) =~= take_back(
                before.take(i as int),
                left,
            ) + charges@.skip(i as int));
            assert(charges@.take(i as int) =~= prev.take(i + 1).take(i as int));
            assert(before.take(i as int) =~= before.take(i + 1).take(i as int));
        }
    }
    assert(before.take(0) =~= Seq::<AttributedTokens>::empty());
    assert(charges@ =~= take_back(before.take(0), left) + charges@.skip(0));
}

/// Charges the units of a log.
pub fn attribute(log: &Vec<AcceptedBudgetUnit>) -> (r: Vec<AttributedTokens>)
    ensures
        r@ == attributed(log@),
{
    let mut charges: Vec<AttributedTokens> = Vec::new();
    let mut i: usize = 0;
    while i < log.len()
        invariant
            i <= log@.len(),
            charges@ == attributed(log@.take(i as int)),
        decreases log.len() - i,
    {
        proof {
            assert(log@.take(i + 1).drop_last() =~= log@.take(i as int));
        }
        let unit = log[i];
        let (before, after) = unit.metrics();
        if after >= before {
            charges.push(
                AttributedTokens {
                    bucket: unit.bucket(),
                    reflow: unit.is_reflow(),
                    amount: after - before,
                },
            );
        } else {
            credit_back(&mut charges, before - after);
        }
        i += 1;
    }
    assert(log@.take(i as int) =~= log@);
    charges
}

/// Brings charges down to a total.
pub fn settle(charges: &mut Vec<AttributedTokens>, target: u64)
    requires
        charged(old(charges)@, Charge::Any) <= u64::MAX,
    ensures
        final(charges)@ == settled(old(charges)@, target),
{
    let total = sum_charged(charges, &Charge::Any);
    if total > target {
        credit_back(charges, total - target);
    }
}

/// What every bucket was charged.
pub open spec fn charged_breakdown(charges: Seq<AttributedTokens>) -> BudgetTokenBreakdown {
    BudgetTokenBreakdown {
        recent_history: charged(charges, Charge::In(BudgetBucket::RecentHistory)) as u64,
        exact_or_state: charged(charges, Charge::In(BudgetBucket::ExactOrState)) as u64,
        episode: charged(charges, Charge::In(BudgetBucket::Episode)) as u64,
        graph: charged(charges, Charge::In(BudgetBucket::Graph)) as u64,
    }
}

pub fn breakdown_by_bucket(charges: &Vec<AttributedTokens>) -> (r: BudgetTokenBreakdown)
    requires
        charged(charges@, Charge::Any) <= u64::MAX,
    ensures
        r == charged_breakdown(charges@),
{
    BudgetTokenBreakdown {
        recent_history: sum_charged(charges, &Charge::In(BudgetBucket::RecentHistory)),
        exact_or_state: sum_charged(charges, &Charge::In(BudgetBucket::ExactOrState)),
        episode: sum_charged(charges, &Charge::In(BudgetBucket::Episode)),
        graph: sum_charged(charges, &Charge::In(BudgetBucket::Graph)),
    }
}

/// What one bucket took of the tokens offered to it.
pub open spec fn reflow_of(
    charges: Seq<AttributedTokens>,
    bucket: BudgetBucket,
    offered: u64,
) -> BudgetReflowTrace {
    let consumed = charged(charges, Charge::Reflow(bucket)) as u64;
    BudgetReflowTrace {
        bucket,
        offered_tokens: offered,
        consumed_tokens: consumed,
        remaining_tokens: budget::floored_sub(offered, consumed),
    }
}

/// What the buckets took, one after another, of the tokens that were left.
pub open spec fn reflow_traces(charges: Seq<AttributedTokens>, available: u64) -> Seq<
    BudgetReflowTrace,
> {
    let start = budget::floored_sub(available, charged(charges, Charge::Initial) as u64);
    let recent = reflow_of(charges, BudgetBucket::RecentHistory, start);
    let exact = reflow_of(charges, BudgetBucket::ExactOrState, recent.remaining_tokens);
    let episode = reflow_of(charges, BudgetBucket::Episode, exact.remaining_tokens);
    let graph = reflow_of(charges, BudgetBucket::Graph, episode.remaining_tokens);
    seq![recent, exact, episode, graph]
}

fn reflow_trace(
    charges: &Vec<AttributedTokens>,
    bucket: BudgetBucket,
    offered: u64,
) -> (r: BudgetReflowTrace)
    requires
        charged(charges@, Charge::Any) <= u64::MAX,
    ensures
        r == reflow_of(charges@, bucket, offered),
{
    let consumed = sum_charged(charges, &Charge::Reflow(bucket));
    BudgetReflowTrace {
        bucket,
        offered_tokens: offered,
        consumed_tokens: consumed,
        remaining_tokens: offered.saturating_sub(consumed),
    }
}

pub fn trace_reflow(charges: &Vec<AttributedTokens>, available: u64) -> (r: Vec<BudgetReflowTrace>)
    requires
        charged(charges@, Charge::Any) <= u64::MAX,
    ensures
        r@ == reflow_traces(charges@, available),
{
    let start = available.saturating_sub(sum_charged(charges, &Charge::Initial));
    let recent = reflow_trace(charges, BudgetBucket::RecentHistory, start);
    let exact = reflow_trace(charges, BudgetBucket::ExactOrState, recent.remaining_tokens);
    let episode = reflow_trace(charges, BudgetBucket::Episode, exact.remaining_tokens);
    let graph = reflow_trace(charges, BudgetBucket::Graph, episode.remaining_tokens);
    let mut out: Vec<BudgetReflowTrace> = Vec::new();
    out.push(recent);
    out.push(exact);
    out.push(episode);
    out.push(graph);
    assert(out@ =~= reflow_traces(charges@, available));
    out
}

} // verus!
