//! What the plan of the episodes of a session does not depend on: the order in
//! which its messages are given, and the order and number of the suggestions.

use vstd::prelude::*;
use vstd::utf8::*;

use crate::digest;
use crate::encoding;
use crate::episode::{
    self, EpisodeBoundarySuggestion, EpisodeInputMessage, EpisodeMaterializationReport,
    EpisodePlanInput, PlanState,
};
use crate::order;
use crate::text;

verus! {

/// Whether a reason is given for a boundary before an event.
pub open spec fn suggests(
    v: Seq<EpisodeBoundarySuggestion>,
    event: Seq<char>,
    reason: Seq<char>,
) -> bool {
    exists|k: int|
        0 <= k < v.len() && (#[trigger] v[k]).before_event_id@ == event && v[k].reason@ == reason
}

/// The same suggestions, in any order and each any number of times.
pub open spec fn same_suggestions(
    v: Seq<EpisodeBoundarySuggestion>,
    w: Seq<EpisodeBoundarySuggestion>,
) -> bool {
    forall|event: Seq<char>, reason: Seq<char>|
        #[trigger] suggests(v, event, reason) <==> suggests(w, event, reason)
}

/// The same session with the same messages and suggestions, in any order.
pub open spec fn reordered(i: EpisodePlanInput, j: EpisodePlanInput) -> bool {
    &&& i.session_id@ == j.session_id@
    &&& i.source_session_sha256@ == j.source_session_sha256@
    &&& i.gap_minutes == j.gap_minutes
    &&& i.consolidation_watermark == j.consolidation_watermark
    &&& i.messages@.to_multiset() == j.messages@.to_multiset()
    &&& same_suggestions(i.suggestions@, j.suggestions@)
}

proof fn reasons_listed(v: Seq<EpisodeBoundarySuggestion>, event: Seq<char>, x: Seq<char>, n: int)
    requires
        0 <= n <= v.len(),
    ensures
        episode::given_reasons(v, event, n).contains(x) <==> episode::known_reason(x) && exists|
            k: int,
        |
            0 <= k < n && (#[trigger] v[k]).before_event_id@ == event && v[k].reason@ == x,
    decreases n,
{
    if n > 0 {
        reasons_listed(v, event, x, n - 1);
        let rest = episode::given_reasons(v, event, n - 1);
        let all = episode::given_reasons(v, event, n);
        let last = v[n - 1];
        if all.contains(x) {
            let p = choose|p: int| 0 <= p < all.len() && all[p] == x;
            if p < rest.len() {
                assert(rest[p] == x);
                assert(rest.contains(x));
            }
        }
        if rest.contains(x) {
            let p = choose|p: int| 0 <= p < rest.len() && rest[p] == x;
            assert(all[p] == x);
        }
        if episode::known_reason(last.reason@) && last.before_event_id@ == event {
            assert(all[rest.len() as int] == last.reason@);
        }
    }
}

proof fn events_listed(v: Seq<EpisodeBoundarySuggestion>, x: Seq<char>, n: int)
    requires
        0 <= n <= v.len(),
    ensures
        episode::suggested_events(v, n).contains(x) <==> exists|k: int|
            0 <= k < n && (#[trigger] v[k]).before_event_id@ == x && episode::known_reason(
                v[k].reason@,
            ),
    decreases n,
{
    if n > 0 {
        events_listed(v, x, n - 1);
        let rest = episode::suggested_events(v, n - 1);
        let all = episode::suggested_events(v, n);
        let last = v[n - 1];
        if all.contains(x) {
            let p = choose|p: int| 0 <= p < all.len() && all[p] == x;
            if p < rest.len() {
                assert(rest[p] == x);
                assert(rest.contains(x));
            }
        }
        if rest.contains(x) {
            let p = choose|p: int| 0 <= p < rest.len() && rest[p] == x;
            assert(all[p] == x);
        }
        if episode::known_reason(last.reason@) {
            assert(all[rest.len() as int] == last.before_event_id@);
        }
    }
}

proof fn reasons_agree(
    v: Seq<EpisodeBoundarySuggestion>,
    w: Seq<EpisodeBoundarySuggestion>,
    event: Seq<char>,
)
    requires
        same_suggestions(v, w),
    ensures
        episode::reasons_for(v, event) == episode::reasons_for(w, event),
{
    let a = episode::given_reasons(v, event, v.len() as int);
    let b = episode::given_reasons(w, event, w.len() as int);
    assert forall|x: Seq<char>| #[trigger] a.contains(x) <==> b.contains(x) by {
        reasons_listed(v, event, x, v.len() as int);
        reasons_listed(w, event, x, w.len() as int);
        assert(suggests(v, event, x) <==> suggests(w, event, x));
    }
    assert(text::same_elements(a, b));
    text::distinct_sorted_by_elements(a, b);
}

proof fn suggestions_agree(v: Seq<EpisodeBoundarySuggestion>, w: Seq<EpisodeBoundarySuggestion>)
    requires
        same_suggestions(v, w),
    ensures
        episode::suggestion_facts(v) == episode::suggestion_facts(w),
{
    let a = episode::suggested_events(v, v.len() as int);
    let b = episode::suggested_events(w, w.len() as int);
    assert forall|x: Seq<char>| #[trigger] a.contains(x) <==> b.contains(x) by {
        events_listed(v, x, v.len() as int);
        events_listed(w, x, w.len() as int);
        if a.contains(x) {
            let k = choose|k: int|
                0 <= k < v.len() && (#[trigger] v[k]).before_event_id@ == x
                    && episode::known_reason(v[k].reason@);
            assert(suggests(v, x, v[k].reason@));
            assert(suggests(w, x, v[k].reason@));
        }
        if b.contains(x) {
            let k = choose|k: int|
                0 <= k < w.len() && (#[trigger] w[k]).before_event_id@ == x
                    && episode::known_reason(w[k].reason@);
            assert(suggests(w, x, w[k].reason@));
            assert(suggests(v, x, w[k].reason@));
        }
    }
    assert(text::same_elements(a, b));
    text::distinct_sorted_by_elements(a, b);
    let events = text::distinct_sorted(a);
    assert forall|i: int| 0 <= i < events.len() implies episode::reasons_for(v, #[trigger] events[i])
        == episode::reasons_for(w, events[i]) by {
        reasons_agree(v, w, events[i]);
    }
    assert(episode::suggestion_facts(v) =~= episode::suggestion_facts(w));
}

/// The messages at some places.
pub open spec fn taken(v: Seq<EpisodeInputMessage>, places: Seq<int>) -> Seq<EpisodeInputMessage> {
    Seq::new(places.len(), |k: int| v[places[k]])
}

/// Sequence numbers that rise.
pub open spec fn rising(v: Seq<EpisodeInputMessage>) -> bool {
    forall|a: int, b: int|
        0 <= a < b < v.len() ==> (#[trigger] v[a]).member.sequence < (
        #[trigger] v[b]).member.sequence
}

proof fn rising_is_unique(a: Seq<EpisodeInputMessage>, b: Seq<EpisodeInputMessage>)
    requires
        rising(a),
        rising(b),
        forall|m: EpisodeInputMessage| #[trigger] a.contains(m) <==> b.contains(m),
    ensures
        a == b,
    decreases a.len(),
{
    if a.len() == 0 {
        if b.len() > 0 {
            assert(b.contains(b[0]));
            assert(a.contains(b[0]));
        }
        assert(a =~= b);
    } else {
        let n = a.len() - 1;
        assert(a.contains(a[n]));
        assert(b.contains(a[n]));
        let m = b.len() - 1;
        let p = choose|p: int| 0 <= p < b.len() && b[p] == a[n];
        assert(b.contains(b[m]));
        assert(a.contains(b[m]));
        let q = choose|q: int| 0 <= q < a.len() && a[q] == b[m];
        assert(p == m) by {
            if p < m {
                assert(b[p].member.sequence < b[m].member.sequence);
                if q < n {
                    assert(a[q].member.sequence < a[n].member.sequence);
                }
            }
        }
        let ra = a.drop_last();
        let rb = b.drop_last();
        assert forall|x: EpisodeInputMessage| #[trigger] ra.contains(x) <==> rb.contains(x) by {
            if ra.contains(x) {
                let k = choose|k: int| 0 <= k < ra.len() && ra[k] == x;
                assert(a[k] == x);
                assert(a.contains(x));
                assert(b.contains(x));
                let l = choose|l: int| 0 <= l < b.len() && b[l] == x;
                assert(a[k].member.sequence < a[n].member.sequence);
                assert(rb[l] == x);
            }
            if rb.contains(x) {
                let k = choose|k: int| 0 <= k < rb.len() && rb[k] == x;
                assert(b[k] == x);
                assert(b.contains(x));
                assert(a.contains(x));
                let l = choose|l: int| 0 <= l < a.len() && a[l] == x;
                assert(b[k].member.sequence < b[m].member.sequence);
                assert(ra[l] == x);
            }
        }
        rising_is_unique(ra, rb);
        assert(a =~= ra.push(a[n]));
        assert(b =~= rb.push(b[m]));
    }
}

proof fn sorted_rises(v: Seq<EpisodeInputMessage>)
    requires
        !episode::sequences_repeat(v),
    ensures
        ({
            let order = episode::message_order(v);
            &&& order.len() == v.len()
            &&& forall|k: int| 0 <= k < order.len() ==> 0 <= #[trigger] order[k] < v.len()
            &&& rising(taken(v, order))
            &&& forall|m: EpisodeInputMessage|
                #[trigger] taken(v, order).contains(m) <==> v.contains(m)
        }),
{
    let n = v.len() as int;
    let keys = episode::sort_keys(v);
    let order = episode::message_order(v);
    let sorted = taken(v, order);
    order::ordered_is_complete(keys, n);
    assert(order::one_shape(keys));
    order::ordered_is_sorted(keys, n);
    assert forall|a: int, b: int| 0 <= a < b < sorted.len() implies (
    #[trigger] sorted[a]).member.sequence < (#[trigger] sorted[b]).member.sequence by {
        let (x, y) = (order[a], order[b]);
        assert(x != y);
        assert(keys[x][0] == order::PartModel::Up(v[x].member.sequence));
        assert(keys[y][0] == order::PartModel::Up(v[y].member.sequence));
        assert(!order::key_lt(keys[y], keys[x], 0));
        if x < y {
            assert(v[x].member.sequence != v[y].member.sequence);
        } else {
            assert(v[y].member.sequence != v[x].member.sequence);
        }
    }
    assert forall|m: EpisodeInputMessage| #[trigger] sorted.contains(m) <==> v.contains(m) by {
        if sorted.contains(m) {
            let k = choose|k: int| 0 <= k < sorted.len() && sorted[k] == m;
            assert(v[order[k]] == m);
        }
        if v.contains(m) {
            let x = choose|x: int| 0 <= x < v.len() && v[x] == m;
            assert(order.contains(x));
            let k = choose|k: int| 0 <= k < order.len() && order[k] == x;
            assert(sorted[k] == m);
        }
    }
}

proof fn same_messages(v: Seq<EpisodeInputMessage>, w: Seq<EpisodeInputMessage>)
    requires
        v.to_multiset() == w.to_multiset(),
    ensures
        v.len() == w.len(),
        forall|m: EpisodeInputMessage| #[trigger] v.contains(m) <==> w.contains(m),
{
    v.to_multiset_ensures();
    w.to_multiset_ensures();
    assert forall|m: EpisodeInputMessage| #[trigger] v.contains(m) <==> w.contains(m) by {
        assert(v.contains(m) <==> v.to_multiset().count(m) > 0);
        assert(w.contains(m) <==> w.to_multiset().count(m) > 0);
    }
}

/// Repeated sequence numbers are found in any order of the messages.
proof fn repeats_are_kept(v: Seq<EpisodeInputMessage>, w: Seq<EpisodeInputMessage>)
    requires
        v.to_multiset() == w.to_multiset(),
        episode::sequences_repeat(v),
    ensures
        episode::sequences_repeat(w),
{
    same_messages(v, w);
    if !episode::sequences_repeat(w) {
        assert(w.no_duplicates()) by {
            assert forall|a: int, b: int| 0 <= a < w.len() && 0 <= b < w.len() && a != b implies w[a]
                != w[b] by {
                if a < b {
                    assert(w[a].member.sequence != w[b].member.sequence);
                } else {
                    assert(w[b].member.sequence != w[a].member.sequence);
                }
            }
        }
        w.lemma_multiset_has_no_duplicates();
        v.lemma_multiset_has_no_duplicates_conv();
        let (p, q) = choose|p: int, q: int|
            0 <= p < q < v.len() && (#[trigger] v[p]).member.sequence == (
            #[trigger] v[q]).member.sequence;
        assert(v.contains(v[p]) && v.contains(v[q]));
        assert(w.contains(v[p]) && w.contains(v[q]));
        let a = choose|a: int| 0 <= a < w.len() && w[a] == v[p];
        let b = choose|b: int| 0 <= b < w.len() && w[b] == v[q];
        assert(v[p] != v[q]);
        assert(a != b);
        if a < b {
            assert(w[a].member.sequence == w[b].member.sequence);
        } else {
            assert(w[b].member.sequence == w[a].member.sequence);
        }
    }
}

proof fn invalid_are_kept(v: Seq<EpisodeInputMessage>, w: Seq<EpisodeInputMessage>)
    requires
        v.to_multiset() == w.to_multiset(),
        exists|i: int| 0 <= i < v.len() && episode::invalid_message(#[trigger] v[i]),
    ensures
        exists|i: int| 0 <= i < w.len() && episode::invalid_message(#[trigger] w[i]),
{
    same_messages(v, w);
    let i = choose|i: int| 0 <= i < v.len() && episode::invalid_message(#[trigger] v[i]);
    assert(v.contains(v[i]));
    assert(w.contains(v[i]));
    let j = choose|j: int| 0 <= j < w.len() && w[j] == v[i];
    assert(episode::invalid_message(w[j]));
}

/// States of two plans that hold the same messages and decisions.
pub open spec fn alike(
    v: Seq<EpisodeInputMessage>,
    s: PlanState,
    w: Seq<EpisodeInputMessage>,
    t: PlanState,
) -> bool {
    &&& s.closed.len() == t.closed.len()
    &&& forall|e: int|
        0 <= e < s.closed.len() ==> taken(v, #[trigger] s.closed[e]) == taken(w, t.closed[e])
    &&& taken(v, s.open) == taken(w, t.open)
    &&& s.decisions == t.decisions
    &&& episode::message_at(v, s.last_user) == episode::message_at(w, t.last_user)
}

proof fn taken_pushed(v: Seq<EpisodeInputMessage>, places: Seq<int>, x: int)
    ensures
        taken(v, places.push(x)) == taken(v, places).push(v[x]),
        taken(v, seq![x]) == seq![v[x]],
        taken(v, places).len() == places.len(),
{
    assert(taken(v, places.push(x)) =~= taken(v, places).push(v[x]));
    assert(taken(v, seq![x]) =~= seq![v[x]]);
}

proof fn steps_are_alike(
    i: EpisodePlanInput,
    j: EpisodePlanInput,
    oi: Seq<int>,
    oj: Seq<int>,
    s: PlanState,
    t: PlanState,
    n: int,
)
    requires
        i.session_id@ == j.session_id@,
        i.gap_minutes == j.gap_minutes,
        i.consolidation_watermark == j.consolidation_watermark,
        same_suggestions(i.suggestions@, j.suggestions@),
        oi.len() == oj.len(),
        0 <= n < oi.len(),
        taken(i.messages@, oi) == taken(j.messages@, oj),
        alike(i.messages@, s, j.messages@, t),
    ensures
        alike(
            i.messages@,
            episode::plan_step(i, oi, s, n),
            j.messages@,
            episode::plan_step(j, oj, t, n),
        ),
{
    let (v, w) = (i.messages@, j.messages@);
    assert(taken(v, oi)[n] == taken(w, oj)[n]);
    assert(v[oi[n]] == w[oj[n]]);
    if n > 0 {
        assert(taken(v, oi)[n - 1] == taken(w, oj)[n - 1]);
    }
    reasons_agree(i.suggestions@, j.suggestions@, v[oi[n]].member.event_id@);
    assert(episode::situation_at(i, oi, n, s.last_user) == episode::situation_at(
        j,
        oj,
        n,
        t.last_user,
    ));
    taken_pushed(v, s.open, oi[n]);
    taken_pushed(w, t.open, oj[n]);
    let a = episode::plan_step(i, oi, s, n);
    let b = episode::plan_step(j, oj, t, n);
    assert forall|e: int| 0 <= e < a.closed.len() implies taken(v, #[trigger] a.closed[e]) == taken(
        w,
        b.closed[e],
    ) by {
        if e < s.closed.len() {
            assert(a.closed[e] == s.closed[e]);
            assert(b.closed[e] == t.closed[e]);
        }
    }
}

proof fn states_are_alike(
    i: EpisodePlanInput,
    j: EpisodePlanInput,
    oi: Seq<int>,
    oj: Seq<int>,
    n: int,
)
    requires
        i.session_id@ == j.session_id@,
        i.gap_minutes == j.gap_minutes,
        i.consolidation_watermark == j.consolidation_watermark,
        same_suggestions(i.suggestions@, j.suggestions@),
        oi.len() == oj.len(),
        0 <= n <= oi.len(),
        taken(i.messages@, oi) == taken(j.messages@, oj),
    ensures
        alike(
            i.messages@,
            episode::plan_state(i, oi, n),
            j.messages@,
            episode::plan_state(j, oj, n),
        ),
    decreases n,
{
    if n > 0 {
        states_are_alike(i, j, oi, oj, n - 1);
        steps_are_alike(
            i,
            j,
            oi,
            oj,
            episode::plan_state(i, oi, n - 1),
            episode::plan_state(j, oj, n - 1),
            n - 1,
        );
    } else {
        let none = Seq::<int>::empty();
        assert(taken(i.messages@, none) =~= taken(j.messages@, none));
    }
}

proof fn members_agree(
    v: Seq<EpisodeInputMessage>,
    a: Seq<int>,
    w: Seq<EpisodeInputMessage>,
    b: Seq<int>,
)
    requires
        taken(v, a) == taken(w, b),
    ensures
        episode::members_at(v, a) == episode::members_at(w, b),
{
    let (x, y) = (taken(v, a), taken(w, b));
    assert(a.len() == x.len() && b.len() == y.len());
    assert(episode::members_at(v, a) =~= episode::members_at(w, b)) by {
        assert forall|k: int| 0 <= k < a.len() implies episode::members_at(v, a)[k]
            == episode::members_at(w, b)[k] by {
            assert(x[k] == v[a[k]]);
            assert(y[k] == w[b[k]]);
        }
    }
}

proof fn faults_agree(i: EpisodePlanInput, j: EpisodePlanInput)
    requires
        reordered(i, j),
    ensures
        episode::plan_fault(i) == episode::plan_fault(j),
{
    let (v, w) = (i.messages@, j.messages@);
    if exists|k: int| 0 <= k < v.len() && episode::invalid_message(#[trigger] v[k]) {
        invalid_are_kept(v, w);
    }
    if exists|k: int| 0 <= k < w.len() && episode::invalid_message(#[trigger] w[k]) {
        invalid_are_kept(w, v);
    }
    if episode::sequences_repeat(v) {
        repeats_are_kept(v, w);
    }
    if episode::sequences_repeat(w) {
        repeats_are_kept(w, v);
    }
}

proof fn orders_agree(v: Seq<EpisodeInputMessage>, w: Seq<EpisodeInputMessage>)
    requires
        v.to_multiset() == w.to_multiset(),
        !episode::sequences_repeat(v),
        !episode::sequences_repeat(w),
    ensures
        v.len() == w.len(),
        episode::message_order(v).len() == v.len(),
        episode::message_order(w).len() == w.len(),
        taken(v, episode::message_order(v)) == taken(w, episode::message_order(w)),
        episode::facts_in_order(v, episode::message_order(v)) == episode::facts_in_order(
            w,
            episode::message_order(w),
        ),
{
    same_messages(v, w);
    let oi = episode::message_order(v);
    let oj = episode::message_order(w);
    sorted_rises(v);
    sorted_rises(w);
    let a = taken(v, oi);
    let b = taken(w, oj);
    assert forall|m: EpisodeInputMessage| #[trigger] a.contains(m) <==> b.contains(m) by {
        assert(a.contains(m) <==> v.contains(m));
        assert(v.contains(m) <==> w.contains(m));
        assert(b.contains(m) <==> w.contains(m));
    }
    rising_is_unique(a, b);
    let (f, g) = (episode::facts_in_order(v, oi), episode::facts_in_order(w, oj));
    assert(f =~= g) by {
        assert forall|k: int| 0 <= k < f.len() implies f[k] == g[k] by {
            assert(a[k] == v[oi[k]]);
            assert(b[k] == w[oj[k]]);
        }
    }
}

proof fn documents_agree(i: EpisodePlanInput, j: EpisodePlanInput)
    requires
        i.session_id@ == j.session_id@,
        alike(
            i.messages@,
            episode::final_state(i),
            j.messages@,
            episode::final_state(j),
        ),
    ensures
        episode::planned_documents(
            i.session_id@,
            i.messages@,
            episode::planned(episode::final_state(i)),
        ) == episode::planned_documents(
            j.session_id@,
            j.messages@,
            episode::planned(episode::final_state(j)),
        ),
{
    let (v, w) = (i.messages@, j.messages@);
    let s = episode::final_state(i);
    let t = episode::final_state(j);
    let (p, q) = (episode::planned(s), episode::planned(t));
    assert(s.open.len() == taken(v, s.open).len() && t.open.len() == taken(w, t.open).len());
    let a = episode::planned_documents(i.session_id@, v, p);
    let b = episode::planned_documents(j.session_id@, w, q);
    assert(a =~= b) by {
        assert forall|e: int| 0 <= e < a.len() implies a[e] == b[e] by {
            if e < s.closed.len() {
                assert(p[e] == s.closed[e]);
                assert(q[e] == t.closed[e]);
            } else {
                assert(p[e] == s.open);
                assert(q[e] == t.open);
            }
            members_agree(v, p[e], w, q[e]);
        }
    }
}

/// The order in which messages are given, and the order and number of the
/// suggestions, make no difference to a plan: it is refused for the same reason,
/// or the reports are the same in every document, decision and digest.
pub proof fn plans_ignore_order(i: EpisodePlanInput, j: EpisodePlanInput)
    requires
        reordered(i, j),
    ensures
        episode::plan_fault(i) == episode::plan_fault(j),
        episode::plan_fault(i) is None ==> {
            &&& episode::plan_facts(i) == episode::plan_facts(j)
            &&& episode::plan_digest(i) == episode::plan_digest(j)
            &&& forall|r: EpisodeMaterializationReport|
                #[trigger] episode::report_is(r, i) <==> episode::report_is(r, j)
        },
{
    faults_agree(i, j);
    if episode::plan_fault(i) is None {
        let (v, w) = (i.messages@, j.messages@);
        orders_agree(v, w);
        suggestions_agree(i.suggestions@, j.suggestions@);
        assert(episode::plan_facts(i) == episode::plan_facts(j));
        states_are_alike(
            i,
            j,
            episode::message_order(v),
            episode::message_order(w),
            v.len() as int,
        );
        documents_agree(i, j);
    }
}

/// The order of messages and suggestions makes no difference to the digest of a
/// snapshot of the ledger either, as long as no sequence number is repeated.
pub proof fn snapshots_ignore_order(
    session_id: Seq<char>,
    watermark: Option<u64>,
    v: Seq<EpisodeInputMessage>,
    w: Seq<EpisodeInputMessage>,
    a: Seq<EpisodeBoundarySuggestion>,
    b: Seq<EpisodeBoundarySuggestion>,
)
    requires
        v.to_multiset() == w.to_multiset(),
        !episode::sequences_repeat(v),
        same_suggestions(a, b),
    ensures
        episode::snapshot_facts(session_id, watermark, v, a) == episode::snapshot_facts(
            session_id,
            watermark,
            w,
            b,
        ),
{
    if episode::sequences_repeat(w) {
        repeats_are_kept(w, v);
    }
    orders_agree(v, w);
    suggestions_agree(a, b);
}

/// The values that are hashed for a plan.
pub open spec fn plan_parts(i: EpisodePlanInput) -> Seq<Seq<u8>> {
    encoding::input_parts(
        encode_utf8("hippocampus-episode-plan-input-v2"@),
        episode::plan_facts(i),
    )
}

/// What is within the limits of the encoding: no list has more elements, and no
/// value more bytes, than a 64-bit number can count.
pub open spec fn plan_encodable(i: EpisodePlanInput) -> bool {
    &&& encoding::input_encodable(episode::plan_facts(i))
    &&& forall|k: int|
        0 <= k < plan_parts(i).len() ==> (#[trigger] plan_parts(i)[k]).len()
            < digest::byte_range(8)
}

/// Inputs that differ in anything a plan is made from, be it the time of one
/// message, are hashed from different bytes: their digests are equal only where
/// SHA-256 collides.
pub proof fn plan_digests_cover_the_input(i: EpisodePlanInput, k: EpisodePlanInput)
    requires
        plan_encodable(i),
        plan_encodable(k),
        episode::plan_facts(i) != episode::plan_facts(k),
    ensures
        digest::framed_all(plan_parts(i)) != digest::framed_all(plan_parts(k)),
        episode::plan_digest(i) == digest::sha256_hex(digest::framed_all(plan_parts(i))),
        episode::plan_digest(k) == digest::sha256_hex(digest::framed_all(plan_parts(k))),
{
    if digest::framed_all(plan_parts(i)) == digest::framed_all(plan_parts(k)) {
        digest::framed_all_injective(plan_parts(i), plan_parts(k));
        encoding::encoding_covers_the_input(
            encode_utf8("hippocampus-episode-plan-input-v2"@),
            episode::plan_facts(i),
            episode::plan_facts(k),
        );
    }
}

/// A message with another time, in an input that is the same otherwise, is one
/// such difference.
pub proof fn changed_times_are_covered(i: EpisodePlanInput, k: EpisodePlanInput, x: int)
    requires
        i.messages@.len() == k.messages@.len(),
        0 <= x < i.messages@.len(),
        forall|y: int|
            0 <= y < i.messages@.len() ==> (#[trigger] i.messages@[y]).member
                == k.messages@[y].member,
        i.messages@[x].created_at@ != k.messages@[x].created_at@,
    ensures
        episode::plan_facts(i) != episode::plan_facts(k),
{
    let (v, w) = (i.messages@, k.messages@);
    assert(episode::sort_keys(v) =~= episode::sort_keys(w)) by {
        assert forall|y: int| 0 <= y < v.len() implies episode::sort_keys(v)[y]
            == episode::sort_keys(w)[y] by {
            assert(v[y].member == w[y].member);
        }
    }
    let order = episode::message_order(v);
    order::ordered_is_complete(episode::sort_keys(v), v.len() as int);
    assert(order.contains(x));
    let p = choose|p: int| 0 <= p < order.len() && order[p] == x;
    assert(episode::plan_facts(i).messages[p].created_at == v[x].created_at@);
    assert(episode::plan_facts(k).messages[p].created_at == w[x].created_at@);
}

} // verus!
