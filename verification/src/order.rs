//! Stable sorting by keys of several parts.

use vstd::prelude::*;

use crate::text::{self, text_before};

verus! {

/// One part of a sort key: a text or a number, in rising or falling order.
#[derive(Debug, PartialEq, Eq)]
pub enum KeyPart {
    Text(String),
    TextDown(String),
    Up(u64),
    Down(u64),
}

pub enum PartModel {
    Text(Seq<char>),
    TextDown(Seq<char>),
    Up(u64),
    Down(u64),
}

pub open spec fn part_model(p: KeyPart) -> PartModel {
    match p {
        KeyPart::Text(s) => PartModel::Text(s@),
        KeyPart::TextDown(s) => PartModel::TextDown(s@),
        KeyPart::Up(n) => PartModel::Up(n),
        KeyPart::Down(n) => PartModel::Down(n),
    }
}

pub open spec fn key_model(k: Seq<KeyPart>) -> Seq<PartModel> {
    Seq::new(k.len(), |i: int| part_model(k[i]))
}

pub open spec fn key_models(v: Seq<Vec<KeyPart>>) -> Seq<Seq<PartModel>> {
    Seq::new(v.len(), |i: int| key_model(v[i]@))
}

/// Parts that can be compared.
pub open spec fn comparable(a: PartModel, b: PartModel) -> bool {
    match (a, b) {
        (PartModel::Text(_), PartModel::Text(_)) => true,
        (PartModel::TextDown(_), PartModel::TextDown(_)) => true,
        (PartModel::Up(_), PartModel::Up(_)) => true,
        (PartModel::Down(_), PartModel::Down(_)) => true,
        _ => false,
    }
}

/// Whether one part comes before another.
pub open spec fn part_lt(a: PartModel, b: PartModel) -> bool {
    match (a, b) {
        (PartModel::Text(x), PartModel::Text(y)) => text::text_lt(x, y),
        (PartModel::TextDown(x), PartModel::TextDown(y)) => text::text_lt(y, x),
        (PartModel::Up(x), PartModel::Up(y)) => x < y,
        (PartModel::Down(x), PartModel::Down(y)) => y < x,
        _ => false,
    }
}

/// Whether one key comes before another: the first part in which they differ
/// tells, from `i` on.
pub open spec fn key_lt(a: Seq<PartModel>, b: Seq<PartModel>, i: int) -> bool
    decreases a.len() - i,
{
    if i < 0 || i >= a.len() || i >= b.len() {
        false
    } else if part_lt(a[i], b[i]) {
        true
    } else if part_lt(b[i], a[i]) {
        false
    } else {
        key_lt(a, b, i + 1)
    }
}

/// Keys of the same shape.
pub open spec fn same_shape(a: Seq<PartModel>, b: Seq<PartModel>) -> bool {
    a.len() == b.len() && forall|i: int|
        0 <= i < a.len() ==> comparable(#[trigger] a[i], #[trigger] b[i])
}

/// Where a new element goes among the first `p`: behind every key that is not
/// greater.
pub open spec fn place(keys: Seq<Seq<PartModel>>, order: Seq<int>, x: int, p: int) -> int
    decreases p,
{
    if p <= 0 || !key_lt(keys[x], keys[order[p - 1]], 0) {
        p
    } else {
        place(keys, order, x, p - 1)
    }
}

/// The first `n` positions in order of their keys; equal keys keep their order.
pub open spec fn ordered(keys: Seq<Seq<PartModel>>, n: int) -> Seq<int>
    decreases n,
{
    if n <= 0 {
        Seq::empty()
    } else {
        let rest = ordered(keys, n - 1);
        rest.insert(place(keys, rest, n - 1, rest.len() as int), n - 1)
    }
}

pub open spec fn indices(v: Seq<usize>) -> Seq<int> {
    Seq::new(v.len(), |i: int| v[i] as int)
}

fn part_before(a: &KeyPart, b: &KeyPart) -> (r: bool)
    ensures
        r == part_lt(part_model(*a), part_model(*b)),
{
    match (a, b) {
        (KeyPart::Text(x), KeyPart::Text(y)) => text_before(x.as_str(), y.as_str()),
        (KeyPart::TextDown(x), KeyPart::TextDown(y)) => text_before(y.as_str(), x.as_str()),
        (KeyPart::Up(x), KeyPart::Up(y)) => *x < *y,
        (KeyPart::Down(x), KeyPart::Down(y)) => *y < *x,
        _ => false,
    }
}

/// Whether one key comes before another.
pub fn key_before(a: &Vec<KeyPart>, b: &Vec<KeyPart>) -> (r: bool)
    ensures
        r == key_lt(key_model(a@), key_model(b@), 0),
{
    let ghost ka = key_model(a@);
    let ghost kb = key_model(b@);
    let mut i: usize = 0;
    while i < a.len() && i < b.len()
        invariant
            i <= a@.len(),
            i <= b@.len(),
            ka == key_model(a@),
            kb == key_model(b@),
            key_lt(ka, kb, 0) == key_lt(ka, kb, i as int),
        decreases a.len() - i,
    {
        assert(ka[i as int] == part_model(a@[i as int]));
        assert(kb[i as int] == part_model(b@[i as int]));
        if part_before(&a[i], &b[i]) {
            return true;
        }
        if part_before(&b[i], &a[i]) {
            return false;
        }
        i += 1;
    }
    false
}

proof fn place_in_range(keys: Seq<Seq<PartModel>>, order: Seq<int>, x: int, p: int)
    requires
        0 <= p <= order.len(),
    ensures
        0 <= place(keys, order, x, p) <= p,
        forall|q: int|
            place(keys, order, x, p) <= q < p ==> key_lt(keys[x], keys[#[trigger] order[q]], 0),
        place(keys, order, x, p) > 0 ==> !key_lt(
            keys[x],
            keys[order[place(keys, order, x, p) - 1]],
            0,
        ),
    decreases p,
{
    if p > 0 && key_lt(keys[x], keys[order[p - 1]], 0) {
        place_in_range(keys, order, x, p - 1);
    }
}

proof fn place_by_prefix(
    keys: Seq<Seq<PartModel>>,
    more: Seq<Seq<PartModel>>,
    order: Seq<int>,
    x: int,
    p: int,
)
    requires
        0 <= p <= order.len(),
        keys[x] == more[x],
        forall|q: int| 0 <= q < order.len() ==> keys[#[trigger] order[q]] == more[order[q]],
    ensures
        place(keys, order, x, p) == place(more, order, x, p),
    decreases p,
{
    if p > 0 {
        assert(keys[order[p - 1]] == more[order[p - 1]]);
        place_by_prefix(keys, more, order, x, p - 1);
    }
}

/// The order of the first positions depends on their keys alone.
pub proof fn ordered_by_prefix(keys: Seq<Seq<PartModel>>, more: Seq<Seq<PartModel>>, n: int)
    requires
        0 <= n <= keys.len(),
        n <= more.len(),
        forall|i: int| 0 <= i < n ==> #[trigger] keys[i] == more[i],
    ensures
        ordered(keys, n) == ordered(more, n),
    decreases n,
{
    if n > 0 {
        ordered_by_prefix(keys, more, n - 1);
        ordered_is_complete(keys, n - 1);
        let rest = ordered(keys, n - 1);
        assert(keys[n - 1] == more[n - 1]);
        place_by_prefix(keys, more, rest, n - 1, rest.len() as int);
    }
}

/// Every position stands in the order exactly once.
pub proof fn ordered_is_complete(keys: Seq<Seq<PartModel>>, n: int)
    requires
        0 <= n <= keys.len(),
    ensures
        ordered(keys, n).len() == n,
        forall|i: int| 0 <= i < n ==> 0 <= #[trigger] ordered(keys, n)[i] < n,
        forall|x: int| 0 <= x < n ==> #[trigger] ordered(keys, n).contains(x),
        ordered(keys, n).no_duplicates(),
    decreases n,
{
    if n > 0 {
        ordered_is_complete(keys, n - 1);
        let rest = ordered(keys, n - 1);
        let p = place(keys, rest, n - 1, rest.len() as int);
        place_in_range(keys, rest, n - 1, rest.len() as int);
        let all = ordered(keys, n);
        assert forall|x: int| 0 <= x < n implies #[trigger] all.contains(x) by {
            if x == n - 1 {
                assert(all[p] == x);
            } else {
                assert(rest.contains(x));
                let k = choose|k: int| 0 <= k < rest.len() && rest[k] == x;
                if k < p {
                    assert(all[k] == x);
                } else {
                    assert(all[k + 1] == x);
                }
            }
        }
        assert forall|i: int| 0 <= i < n implies 0 <= #[trigger] all[i] < n by {
            if i < p {
                assert(all[i] == rest[i]);
            } else if i > p {
                assert(all[i] == rest[i - 1]);
            }
        }
        assert forall|i: int, j: int| 0 <= i < j < all.len() implies all[i] != all[j] by {
            let a = if i < p {
                i
            } else {
                i - 1
            };
            let b = if j < p {
                j
            } else {
                j - 1
            };
            if i != p {
                assert(all[i] == rest[a]);
            }
            if j != p {
                assert(all[j] == rest[b]);
            }
        }
    }
}

proof fn part_facts(a: PartModel, b: PartModel, c: PartModel)
    requires
        comparable(a, b),
        comparable(b, c),
    ensures
        !(part_lt(a, b) && part_lt(b, a)),
        !part_lt(a, b) && !part_lt(b, a) ==> a == b,
        part_lt(a, b) && part_lt(b, c) ==> part_lt(a, c),
        !part_lt(a, b) && !part_lt(b, c) ==> !part_lt(a, c),
{
    match (a, b, c) {
        (PartModel::Text(x), PartModel::Text(y), PartModel::Text(z)) => {
            text_facts(x, y, z);
        },
        (PartModel::TextDown(x), PartModel::TextDown(y), PartModel::TextDown(z)) => {
            text_facts(z, y, x);
            text_facts(y, x, z);
        },
        _ => {},
    }
}

proof fn text_facts(x: Seq<char>, y: Seq<char>, z: Seq<char>)
    ensures
        !(text::text_lt(x, y) && text::text_lt(y, x)),
        !text::text_lt(x, y) && !text::text_lt(y, x) ==> x == y,
        text::text_lt(x, y) && text::text_lt(y, z) ==> text::text_lt(x, z),
        !text::text_lt(x, y) && !text::text_lt(y, z) ==> !text::text_lt(x, z),
{
    text::text_lt_total(x, y);
    text::text_lt_total(y, z);
    text::text_lt_total(x, z);
    if text::text_lt(x, y) && text::text_lt(y, x) {
        text::text_lt_asymmetric(x, y);
    }
    if text::text_lt(x, y) && text::text_lt(y, z) {
        text::text_lt_transitive(x, y, z);
    }
    if !text::text_lt(x, y) && !text::text_lt(y, z) && text::text_lt(x, z) {
        if x == y {
        } else if y == z {
        } else {
            text::text_lt_transitive(z, y, x);
            text::text_lt_asymmetric(z, x);
        }
    }
}

/// The order of keys of one shape: no key comes before one that comes before it,
/// and what is not before the second of three, nor that before the third, is not
/// before the third.
pub proof fn key_facts(a: Seq<PartModel>, b: Seq<PartModel>, c: Seq<PartModel>, i: int)
    requires
        same_shape(a, b),
        same_shape(b, c),
        0 <= i <= a.len(),
    ensures
        !(key_lt(a, b, i) && key_lt(b, a, i)),
        !key_lt(a, b, i) && !key_lt(b, c, i) ==> !key_lt(a, c, i),
    decreases a.len() - i,
{
    if i < a.len() {
        assert(comparable(a[i], b[i]) && comparable(b[i], c[i]));
        part_facts(a[i], b[i], c[i]);
        part_facts(b[i], a[i], c[i]);
        part_facts(c[i], b[i], a[i]);
        part_facts(b[i], c[i], a[i]);
        key_facts(a, b, c, i + 1);
    }
}

pub open spec fn one_shape(keys: Seq<Seq<PartModel>>) -> bool {
    forall|i: int, j: int|
        0 <= i < keys.len() && 0 <= j < keys.len() ==> same_shape(
            #[trigger] keys[i],
            #[trigger] keys[j],
        )
}

/// No key in the order comes before one that stands earlier; and of two equal
/// keys the one that came first stands first.
pub proof fn ordered_is_sorted(keys: Seq<Seq<PartModel>>, n: int)
    requires
        0 <= n <= keys.len(),
        one_shape(keys),
    ensures
        forall|i: int, j: int|
            0 <= i < j < n ==> {
                let a = #[trigger] ordered(keys, n)[i];
                let b = #[trigger] ordered(keys, n)[j];
                !key_lt(keys[b], keys[a], 0) && (key_lt(keys[a], keys[b], 0) || a < b)
            },
    decreases n,
{
    if n > 0 {
        ordered_is_sorted(keys, n - 1);
        ordered_is_complete(keys, n - 1);
        let rest = ordered(keys, n - 1);
        let x = n - 1;
        let p = place(keys, rest, x, rest.len() as int);
        place_in_range(keys, rest, x, rest.len() as int);
        let all = ordered(keys, n);
        assert forall|i: int, j: int| 0 <= i < j < n implies {
            let a = #[trigger] all[i];
            let b = #[trigger] all[j];
            !key_lt(keys[b], keys[a], 0) && (key_lt(keys[a], keys[b], 0) || a < b)
        } by {
            if j < p {
                assert(all[i] == rest[i] && all[j] == rest[j]);
            } else if j == p {
                assert(all[j] == x && all[i] == rest[i]);
                let last = rest[p - 1];
                if i < p - 1 {
                    assert(!key_lt(keys[last], keys[rest[i]], 0));
                    key_facts(keys[x], keys[last], keys[rest[i]], 0);
                }
            } else if i < p {
                assert(all[i] == rest[i] && all[j] == rest[j - 1]);
            } else if i == p {
                assert(all[i] == x && all[j] == rest[j - 1]);
                key_facts(keys[x], keys[rest[j - 1]], keys[x], 0);
            } else {
                assert(all[i] == rest[i - 1] && all[j] == rest[j - 1]);
            }
        }
    }
}

/// Sorts positions by their keys; equal keys keep their order.
pub fn stable_order(keys: &Vec<Vec<KeyPart>>) -> (r: Vec<usize>)
    ensures
        indices(r@) == ordered(key_models(keys@), keys@.len() as int),
        r@.len() == keys@.len(),
        forall|i: int| 0 <= i < r@.len() ==> #[trigger] r@[i] < keys@.len(),
{
    let ghost all = key_models(keys@);
    let mut out: Vec<usize> = Vec::new();
    let mut n: usize = 0;
    assert(indices(out@) =~= Seq::empty());
    while n < keys.len()
        invariant
            n <= keys@.len(),
            all == key_models(keys@),
            out@.len() == n,
            indices(out@) == ordered(all, n as int),
            forall|i: int| 0 <= i < n ==> #[trigger] out@[i] < n,
        decreases keys.len() - n,
    {
        let ghost rest = indices(out@);
        let mut p: usize = out.len();
        while p > 0 && key_before(&keys[n], &keys[out[p - 1]])
            invariant
                p <= out@.len(),
                n < keys@.len(),
                all == key_models(keys@),
                rest == indices(out@),
                out@.len() == n,
                forall|i: int| 0 <= i < n ==> #[trigger] out@[i] < n,
                place(all, rest, n as int, n as int) == place(all, rest, n as int, p as int),
            decreases p,
        {
            assert(rest[p - 1] == out@[p - 1]);
            assert(all[n as int] == key_model(keys@[n as int]@));
            assert(all[rest[p - 1]] == key_model(keys@[rest[p - 1]]@));
            p -= 1;
        }
        proof {
            if p > 0 {
                assert(rest[p - 1] == out@[p - 1]);
                assert(all[n as int] == key_model(keys@[n as int]@));
                assert(all[rest[p - 1]] == key_model(keys@[rest[p - 1]]@));
            }
        }
        out.insert(p, n);
        assert(indices(out@) =~= rest.insert(p as int, n as int));
        n += 1;
    }
    out
}

} // verus!
