//! Text as a sequence of Unicode scalar values: blanks, trimming, decimal
//! rendering, lexicographic order and sorted sets of strings.

use vstd::prelude::*;
use vstd::string::*;

verus! {

/// `String::push` of the standard library appends one character.
pub assume_specification[ String::push ](s: &mut String, c: char)
    ensures
        final(s)@ == old(s)@.push(c),
;

/// A text in double quotes, with escapes, as it is shown to developers.
pub uninterp spec fn debug_quoted(s: Seq<char>) -> Seq<char>;

/// `std::fmt::Debug` of a string slice: the result depends on the text alone.
#[verifier::external_body]
pub(crate) fn debug_text(s: &str) -> (r: String)
    ensures
        r@ == debug_quoted(s@),
{
    format!("{s:?}")
}

/// A text in lower case.
pub uninterp spec fn lowercased(s: Seq<char>) -> Seq<char>;

/// `str::to_lowercase`: the result depends on the text alone.
#[verifier::external_body]
pub(crate) fn lower(s: &str) -> (r: String)
    ensures
        r@ == lowercased(s@),
{
    s.to_lowercase()
}

/// The characters with the Unicode `White_Space` property.
pub open spec fn white_space(c: char) -> bool {
    let n = c as u32;
    ||| 0x9 <= n <= 0xd
    ||| n == 0x20
    ||| n == 0x85
    ||| n == 0xa0
    ||| n == 0x1680
    ||| 0x2000 <= n <= 0x200a
    ||| n == 0x2028
    ||| n == 0x2029
    ||| n == 0x202f
    ||| n == 0x205f
    ||| n == 0x3000
}

pub fn is_white_space(c: char) -> (r: bool)
    ensures
        r == white_space(c),
{
    let n: u32 = c as u32;
    (0x9 <= n && n <= 0xd) || n == 0x20 || n == 0x85 || n == 0xa0 || n == 0x1680 || (0x2000 <= n && n
        <= 0x200a) || n == 0x2028 || n == 0x2029 || n == 0x202f || n == 0x205f || n == 0x3000
}

/// Whether nothing but white space occurs in a text.
pub open spec fn blank(s: Seq<char>) -> bool {
    forall|i: int| 0 <= i < s.len() ==> white_space(#[trigger] s[i])
}

/// The characters of a string, in order.
pub fn chars_of(s: &str) -> (r: Vec<char>)
    ensures
        r@ == s@,
{
    let mut out: Vec<char> = Vec::new();
    for c in it: s.chars()
        invariant
            it.seq() == s@,
            out@ == s@.take(it.index() as int),
    {
        out.push(c);
    }
    out
}

/// The string made of the characters `from..to`.
pub fn string_of(chars: &Vec<char>, from: usize, to: usize) -> (r: String)
    requires
        from <= to <= chars@.len(),
    ensures
        r@ == chars@.subrange(from as int, to as int),
{
    let mut out: String = String::new();
    let mut i: usize = from;
    while i < to
        invariant
            from <= i <= to <= chars@.len(),
            out@ == chars@.subrange(from as int, i as int),
        decreases to - i,
    {
        out.push(chars[i]);
        i += 1;
    }
    out
}

/// Whether two strings hold the same text.
pub fn text_eq(a: &str, b: &str) -> (r: bool)
    ensures
        r == (a@ == b@),
{
    let left = chars_of(a);
    let right = chars_of(b);
    if left.len() != right.len() {
        return false;
    }
    let mut i: usize = 0;
    while i < left.len()
        invariant
            left@ == a@,
            right@ == b@,
            left@.len() == right@.len(),
            i <= left@.len(),
            forall|k: int| 0 <= k < i ==> #[trigger] a@[k] == b@[k],
        decreases left.len() - i,
    {
        if left[i] != right[i] {
            assert(a@[i as int] != b@[i as int]);
            return false;
        }
        i += 1;
    }
    assert(a@ =~= b@);
    true
}

pub fn is_blank(s: &str) -> (r: bool)
    ensures
        r == blank(s@),
{
    let chars = chars_of(s);
    let mut i: usize = 0;
    while i < chars.len()
        invariant
            i <= chars@.len(),
            chars@ == s@,
            forall|k: int| 0 <= k < i ==> white_space(#[trigger] s@[k]),
        decreases chars.len() - i,
    {
        if !is_white_space(chars[i]) {
            assert(!white_space(s@[i as int]));
            return false;
        }
        i += 1;
    }
    true
}

/// The decimal digit for a value below ten.
pub open spec fn digit(d: nat) -> char {
    (48 + d) as char
}

/// A number in decimal notation without leading zeros.
pub open spec fn decimal(n: nat) -> Seq<char>
    decreases n,
{
    if n < 10 {
        seq![digit(n)]
    } else {
        decimal(n / 10).push(digit(n % 10))
    }
}

pub fn push_decimal(out: &mut String, n: u64)
    ensures
        final(out)@ == old(out)@ + decimal(n as nat),
    decreases n,
{
    if n >= 10 {
        push_decimal(out, n / 10);
    }
    let d: u8 = (n % 10) as u8;
    out.push((48 + d) as char);
    proof {
        assert(digit((n % 10) as nat) == (48 + d) as char);
    }
}

/// `n` in decimal notation.
pub fn decimal_string(n: u64) -> (r: String)
    ensures
        r@ == decimal(n as nat),
{
    let mut out = String::new();
    push_decimal(&mut out, n);
    assert(out@ =~= decimal(n as nat));
    out
}

/// Lexicographic order of texts by code point, which is also the order of
/// their UTF-8 encodings.
pub open spec fn text_lt(a: Seq<char>, b: Seq<char>) -> bool
    decreases a.len(),
{
    if b.len() == 0 {
        false
    } else if a.len() == 0 {
        true
    } else if a[0] != b[0] {
        (a[0] as int) < (b[0] as int)
    } else {
        text_lt(a.drop_first(), b.drop_first())
    }
}

/// No text comes before itself.
pub proof fn text_lt_irreflexive(a: Seq<char>)
    ensures
        !text_lt(a, a),
    decreases a.len(),
{
    if a.len() > 0 {
        text_lt_irreflexive(a.drop_first());
    }
}

/// The order of texts is transitive.
pub proof fn text_lt_transitive(a: Seq<char>, b: Seq<char>, c: Seq<char>)
    requires
        text_lt(a, b),
        text_lt(b, c),
    ensures
        text_lt(a, c),
    decreases a.len(),
{
    if a.len() > 0 && a[0] == b[0] && b[0] == c[0] {
        text_lt_transitive(a.drop_first(), b.drop_first(), c.drop_first());
    }
}

/// Of two different texts one comes before the other.
pub proof fn text_lt_total(a: Seq<char>, b: Seq<char>)
    ensures
        a == b || text_lt(a, b) || text_lt(b, a),
    decreases a.len(),
{
    if a.len() == 0 && b.len() == 0 {
        assert(a =~= b);
    } else if a.len() > 0 && b.len() > 0 && a[0] == b[0] {
        text_lt_total(a.drop_first(), b.drop_first());
        if a.drop_first() == b.drop_first() {
            assert(a =~= seq![a[0]] + a.drop_first());
            assert(b =~= seq![b[0]] + b.drop_first());
        }
    }
}

/// The order of texts is never both ways.
pub proof fn text_lt_asymmetric(a: Seq<char>, b: Seq<char>)
    requires
        text_lt(a, b),
    ensures
        !text_lt(b, a),
        a != b,
{
    if text_lt(b, a) {
        text_lt_transitive(a, b, a);
        text_lt_irreflexive(a);
    }
    text_lt_irreflexive(a);
}

/// Whether `a` comes before `b`.
pub fn text_before(a: &str, b: &str) -> (r: bool)
    ensures
        r == text_lt(a@, b@),
{
    let left = chars_of(a);
    let right = chars_of(b);
    let mut i: usize = 0;
    proof {
        assert(a@.skip(0) =~= a@);
        assert(b@.skip(0) =~= b@);
    }
    while i < left.len() && i < right.len() && left[i] == right[i]
        invariant
            left@ == a@,
            right@ == b@,
            i <= left@.len(),
            i <= right@.len(),
            text_lt(a@, b@) == text_lt(a@.skip(i as int), b@.skip(i as int)),
        decreases left.len() - i,
    {
        assert(a@.skip(i as int).drop_first() =~= a@.skip(i + 1));
        assert(b@.skip(i as int).drop_first() =~= b@.skip(i + 1));
        i += 1;
    }
    if i >= right.len() {
        false
    } else if i >= left.len() {
        true
    } else {
        proof {
            vstd::utf8::char_u32_cast(left@[i as int], left@[i as int] as u32);
            vstd::utf8::char_u32_cast(right@[i as int], right@[i as int] as u32);
        }
        (left[i] as u32) < (right[i] as u32)
    }
}

/// The texts of a list of strings.
pub open spec fn texts(v: Seq<String>) -> Seq<Seq<char>> {
    Seq::new(v.len(), |i: int| v[i]@)
}

/// The text of an optional string.
pub open spec fn opt_text(o: Option<String>) -> Option<Seq<char>> {
    match o {
        Some(s) => Some(s@),
        None => None,
    }
}

/// Strictly increasing: a sorted list without repetitions.
pub open spec fn strictly_sorted(v: Seq<Seq<char>>) -> bool {
    forall|i: int, j: int| 0 <= i < j < v.len() ==> text_lt(#[trigger] v[i], #[trigger] v[j])
}

/// Two strictly sorted lists with the same elements are equal: a sorted list
/// without repetitions is determined by the set of its elements.
pub proof fn strictly_sorted_unique(a: Seq<Seq<char>>, b: Seq<Seq<char>>)
    requires
        strictly_sorted(a),
        strictly_sorted(b),
        forall|x: Seq<char>| a.contains(x) <==> b.contains(x),
    ensures
        a == b,
    decreases a.len(),
{
    if a.len() == 0 {
        if b.len() > 0 {
            assert(b.contains(b[0]));
            assert(a.contains(b[0]));
        }
        assert(a =~= b);
    } else {
        assert(a.contains(a[0]));
        assert(b.contains(a[0]));
        assert(b.len() > 0);
        assert(b.contains(b[0]));
        assert(a.contains(b[0]));
        let i = choose|i: int| 0 <= i < b.len() && b[i] == a[0];
        let j = choose|j: int| 0 <= j < a.len() && a[j] == b[0];
        if a[0] != b[0] {
            assert(text_lt(b[0], b[i]));
            assert(text_lt(a[0], a[j]));
            text_lt_asymmetric(a[0], b[0]);
        }
        let ta = a.drop_first();
        let tb = b.drop_first();
        assert forall|x: Seq<char>| ta.contains(x) <==> tb.contains(x) by {
            if ta.contains(x) {
                let k = choose|k: int| 0 <= k < ta.len() && ta[k] == x;
                assert(a[k + 1] == x);
                assert(a.contains(x));
                assert(text_lt(a[0], a[k + 1]));
                text_lt_irreflexive(a[0]);
                let m = choose|m: int| 0 <= m < b.len() && b[m] == x;
                assert(tb[m - 1] == x);
            }
            if tb.contains(x) {
                let k = choose|k: int| 0 <= k < tb.len() && tb[k] == x;
                assert(b[k + 1] == x);
                assert(b.contains(x));
                assert(text_lt(b[0], b[k + 1]));
                text_lt_irreflexive(b[0]);
                let m = choose|m: int| 0 <= m < a.len() && a[m] == x;
                assert(ta[m - 1] == x);
            }
        }
        strictly_sorted_unique(ta, tb);
        assert(a =~= seq![a[0]] + ta);
        assert(b =~= seq![b[0]] + tb);
    }
}

/// Whether a list of strings holds a text.
pub fn contains_text(v: &Vec<String>, s: &str) -> (r: bool)
    ensures
        r == texts(v@).contains(s@),
{
    let mut i: usize = 0;
    while i < v.len()
        invariant
            i <= v@.len(),
            forall|k: int| 0 <= k < i ==> (#[trigger] v@[k])@ != s@,
        decreases v.len() - i,
    {
        if text_eq(v[i].as_str(), s) {
            assert(texts(v@)[i as int] == s@);
            return true;
        }
        i += 1;
    }
    assert forall|k: int| 0 <= k < texts(v@).len() implies texts(v@)[k] != s@ by {
        assert(v@[k]@ != s@);
    }
    false
}

/// Adds a text to a strictly sorted list; returns whether it was absent.
pub fn insert_text(set: &mut Vec<String>, value: &str) -> (added: bool)
    requires
        strictly_sorted(texts(old(set)@)),
    ensures
        strictly_sorted(texts(final(set)@)),
        added == !texts(old(set)@).contains(value@),
        !added ==> texts(final(set)@) == texts(old(set)@),
        forall|x: Seq<char>|
            #[trigger] texts(final(set)@).contains(x) <==> (texts(old(set)@).contains(x) || x
                == value@),
        added ==> final(set)@.len() == old(set)@.len() + 1,
{
    let ghost before = texts(set@);
    let mut i: usize = 0;
    while i < set.len() && text_before(set[i].as_str(), value)
        invariant
            i <= set@.len(),
            texts(set@) == before,
            strictly_sorted(before),
            forall|k: int| 0 <= k < i ==> text_lt(#[trigger] before[k], value@),
        decreases set.len() - i,
    {
        assert(before[i as int] == set@[i as int]@);
        i += 1;
    }
    if i < set.len() && text_eq(set[i].as_str(), value) {
        assert(before[i as int] == value@);
        assert(before.contains(value@));
        return false;
    }
    proof {
        assert forall|k: int| i <= k < before.len() implies text_lt(value@, #[trigger] before[k]) by {
            assert(before[i as int] == set@[i as int]@);
            text_lt_total(before[i as int], value@);
            if k > i {
                assert(text_lt(before[i as int], before[k]));
                text_lt_transitive(value@, before[i as int], before[k]);
            }
        }
        assert forall|k: int| 0 <= k < before.len() implies before[k] != value@ by {
            text_lt_irreflexive(value@);
        }
    }
    let item = value.to_owned();
    set.insert(i, item);
    proof {
        let after = texts(set@);
        assert(after =~= before.insert(i as int, value@));
        assert forall|p: int, q: int| 0 <= p < q < after.len() implies text_lt(
            #[trigger] after[p],
            #[trigger] after[q],
        ) by {
            if q < i {
                assert(after[p] == before[p] && after[q] == before[q]);
            } else if q == i {
                assert(after[p] == before[p]);
            } else if p < i {
                assert(after[p] == before[p] && after[q] == before[q - 1]);
            } else if p == i {
                assert(after[q] == before[q - 1]);
            } else {
                assert(after[p] == before[p - 1] && after[q] == before[q - 1]);
            }
        }
        assert forall|x: Seq<char>| #[trigger] after.contains(x) <==> (before.contains(x) || x
            == value@) by {
            if after.contains(x) {
                let k = choose|k: int| 0 <= k < after.len() && after[k] == x;
                if k < i {
                    assert(before[k] == x);
                } else if k > i {
                    assert(before[k - 1] == x);
                }
            }
            if before.contains(x) {
                let k = choose|k: int| 0 <= k < before.len() && before[k] == x;
                if k < i {
                    assert(after[k] == x);
                } else {
                    assert(after[k + 1] == x);
                }
            }
            if x == value@ {
                assert(after[i as int] == x);
            }
        }
    }
    true
}

/// Takes a text out of a strictly sorted list; returns whether it was there.
pub fn remove_text(set: &mut Vec<String>, value: &str) -> (removed: bool)
    requires
        strictly_sorted(texts(old(set)@)),
    ensures
        strictly_sorted(texts(final(set)@)),
        removed == texts(old(set)@).contains(value@),
        !removed ==> texts(final(set)@) == texts(old(set)@),
        forall|x: Seq<char>|
            #[trigger] texts(final(set)@).contains(x) <==> (texts(old(set)@).contains(x) && x
                != value@),
{
    let ghost before = texts(set@);
    let mut i: usize = 0;
    while i < set.len()
        invariant
            i <= set@.len(),
            texts(set@) == before,
            before == texts(old(set)@),
            strictly_sorted(before),
            forall|k: int| 0 <= k < i ==> #[trigger] before[k] != value@,
        decreases set.len() - i,
    {
        if text_eq(set[i].as_str(), value) {
            assert(before[i as int] == value@);
            assert(before.contains(value@));
            let _ = set.remove(i);
            proof {
                let after = texts(set@);
                assert(after =~= before.remove(i as int));
                assert forall|x: Seq<char>| #[trigger] after.contains(x) <==> (before.contains(x)
                    && x != value@) by {
                    if after.contains(x) {
                        let k = choose|k: int| 0 <= k < after.len() && after[k] == x;
                        text_lt_irreflexive(value@);
                        if k < i {
                            assert(before[k] == x);
                        } else {
                            assert(before[k + 1] == x);
                            assert(text_lt(before[i as int], before[k + 1]));
                        }
                    }
                    if before.contains(x) && x != value@ {
                        let k = choose|k: int| 0 <= k < before.len() && before[k] == x;
                        if k < i {
                            assert(after[k] == x);
                        } else {
                            assert(after[k - 1] == x);
                        }
                    }
                }
                assert forall|p: int, q: int| 0 <= p < q < after.len() implies text_lt(
                    #[trigger] after[p],
                    #[trigger] after[q],
                ) by {
                    let p0 = if p < i { p } else { p + 1 };
                    let q0 = if q < i { q } else { q + 1 };
                    assert(after[p] == before[p0] && after[q] == before[q0]);
                }
            }
            return true;
        }
        assert(before[i as int] != value@);
        i += 1;
    }
    false
}

pub open spec fn same_elements(a: Seq<Seq<char>>, b: Seq<Seq<char>>) -> bool {
    forall|x: Seq<char>| #[trigger] a.contains(x) <==> b.contains(x)
}

/// The elements of a list, sorted and without repetitions.
pub open spec fn distinct_sorted(v: Seq<Seq<char>>) -> Seq<Seq<char>> {
    choose|s: Seq<Seq<char>>| strictly_sorted(s) && #[trigger] same_elements(s, v)
}

pub proof fn distinct_sorted_is(v: Seq<Seq<char>>, s: Seq<Seq<char>>)
    requires
        strictly_sorted(s),
        same_elements(s, v),
    ensures
        distinct_sorted(v) == s,
{
    let d = distinct_sorted(v);
    assert(strictly_sorted(d) && same_elements(d, v));
    assert forall|x: Seq<char>| d.contains(x) <==> s.contains(x) by {
        assert(d.contains(x) <==> v.contains(x));
        assert(s.contains(x) <==> v.contains(x));
    }
    strictly_sorted_unique(d, s);
}

/// Where a text that is not in a sorted list belongs.
proof fn insertion_place(s: Seq<Seq<char>>, x: Seq<char>) -> (p: int)
    requires
        strictly_sorted(s),
        !s.contains(x),
    ensures
        0 <= p <= s.len(),
        forall|k: int| 0 <= k < p ==> text_lt(#[trigger] s[k], x),
        forall|k: int| p <= k < s.len() ==> text_lt(x, #[trigger] s[k]),
    decreases s.len(),
{
    if s.len() == 0 {
        0
    } else {
        let n = s.len() - 1;
        let rest = s.drop_last();
        assert forall|k: int| 0 <= k < rest.len() implies #[trigger] rest[k] != x by {
            assert(s.contains(s[k]));
        }
        let q = insertion_place(rest, x);
        assert(s.contains(s[n]));
        text_lt_total(s[n], x);
        if text_lt(s[n], x) {
            assert forall|k: int| 0 <= k < s.len() implies text_lt(#[trigger] s[k], x) by {
                if k < n {
                    text_lt_transitive(s[k], s[n], x);
                }
            }
            s.len() as int
        } else {
            assert forall|k: int| 0 <= k < q implies text_lt(#[trigger] s[k], x) by {
                assert(s[k] == rest[k]);
            }
            assert forall|k: int| q <= k < s.len() implies text_lt(x, #[trigger] s[k]) by {
                if k < n {
                    assert(s[k] == rest[k]);
                }
            }
            q
        }
    }
}

/// A sorted list with one more element.
proof fn sorted_with(t: Seq<Seq<char>>, x: Seq<char>) -> (s: Seq<Seq<char>>)
    requires
        strictly_sorted(t),
    ensures
        strictly_sorted(s),
        forall|y: Seq<char>| #[trigger] s.contains(y) <==> t.contains(y) || y == x,
{
    if t.contains(x) {
        t
    } else {
        let p = insertion_place(t, x);
        let s = t.insert(p, x);
        assert forall|i: int, j: int| 0 <= i < j < s.len() implies text_lt(
            #[trigger] s[i],
            #[trigger] s[j],
        ) by {
            if i < p {
                assert(s[i] == t[i]);
            } else if i > p {
                assert(s[i] == t[i - 1]);
            }
            if j < p {
                assert(s[j] == t[j]);
            } else if j > p {
                assert(s[j] == t[j - 1]);
            }
        }
        assert forall|y: Seq<char>| #[trigger] s.contains(y) <==> t.contains(y) || y == x by {
            if s.contains(y) && y != x {
                let k = choose|k: int| 0 <= k < s.len() && s[k] == y;
                if k < p {
                    assert(t[k] == y);
                } else {
                    assert(t[k - 1] == y);
                }
            }
            if t.contains(y) {
                let k = choose|k: int| 0 <= k < t.len() && t[k] == y;
                if k < p {
                    assert(s[k] == y);
                } else {
                    assert(s[k + 1] == y);
                }
            }
            assert(s[p] == x);
        }
        s
    }
}

/// Every list has a sorted list of its elements.
proof fn distinct_sorted_exists(v: Seq<Seq<char>>) -> (s: Seq<Seq<char>>)
    ensures
        strictly_sorted(s),
        same_elements(s, v),
    decreases v.len(),
{
    if v.len() == 0 {
        v
    } else {
        let rest = v.drop_last();
        let t = distinct_sorted_exists(rest);
        let s = sorted_with(t, v.last());
        assert forall|y: Seq<char>| #[trigger] s.contains(y) <==> v.contains(y) by {
            assert(t.contains(y) <==> rest.contains(y));
            if v.contains(y) {
                let k = choose|k: int| 0 <= k < v.len() && v[k] == y;
                if k < rest.len() {
                    assert(rest[k] == y);
                }
            }
            if rest.contains(y) {
                let k = choose|k: int| 0 <= k < rest.len() && rest[k] == y;
                assert(v[k] == y);
            }
            assert(v[v.len() - 1] == v.last());
        }
        s
    }
}

/// A sorted list without repetitions holds exactly the texts it was made of.
pub proof fn distinct_sorted_keeps_elements(v: Seq<Seq<char>>, x: Seq<char>)
    ensures
        distinct_sorted(v).contains(x) <==> v.contains(x),
{
    let s = distinct_sorted_exists(v);
    distinct_sorted_is(v, s);
}

/// Only the elements of a list matter for its sorted form, not their order and
/// not how often each occurs.
pub proof fn distinct_sorted_by_elements(v: Seq<Seq<char>>, w: Seq<Seq<char>>)
    requires
        same_elements(v, w),
    ensures
        distinct_sorted(v) == distinct_sorted(w),
{
    let s = distinct_sorted_exists(v);
    distinct_sorted_is(v, s);
    assert forall|y: Seq<char>| #[trigger] s.contains(y) <==> w.contains(y) by {
        assert(s.contains(y) <==> v.contains(y));
        assert(v.contains(y) <==> w.contains(y));
    }
    distinct_sorted_is(w, s);
}

/// The sorted list without repetitions of the given strings.
pub fn sorted_set(values: &Vec<String>) -> (r: Vec<String>)
    ensures
        strictly_sorted(texts(r@)),
        forall|x: Seq<char>| #[trigger] texts(r@).contains(x) <==> texts(values@).contains(x),
{
    let mut out: Vec<String> = Vec::new();
    let mut i: usize = 0;
    while i < values.len()
        invariant
            i <= values@.len(),
            strictly_sorted(texts(out@)),
            forall|x: Seq<char>|
                #[trigger] texts(out@).contains(x) <==> texts(values@).take(i as int).contains(x),
        decreases values.len() - i,
    {
        let ghost before = texts(out@);
        let _ = insert_text(&mut out, values[i].as_str());
        proof {
            let all = texts(values@);
            assert(all.take(i + 1) =~= all.take(i as int).push(all[i as int]));
            assert forall|x: Seq<char>| #[trigger]
                texts(out@).contains(x) <==> all.take(i + 1).contains(x) by {
                let shorter = all.take(i as int);
                let longer = all.take(i + 1);
                if shorter.contains(x) {
                    let k = choose|k: int| 0 <= k < shorter.len() && shorter[k] == x;
                    assert(longer[k] == x);
                }
                if x == all[i as int] {
                    assert(longer[i as int] == x);
                }
                if longer.contains(x) {
                    let k = choose|k: int| 0 <= k < longer.len() && longer[k] == x;
                    if k < i {
                        assert(shorter[k] == x);
                    }
                }
            }
        }
        i += 1;
    }
    proof {
        assert(texts(values@).take(i as int) =~= texts(values@));
    }
    out
}

/// A copy of a list of texts.
pub fn copy_texts(v: &Vec<String>) -> (r: Vec<String>)
    ensures
        texts(r@) == texts(v@),
{
    let mut out: Vec<String> = Vec::new();
    let mut i: usize = 0;
    while i < v.len()
        invariant
            i <= v@.len(),
            out@.len() == i,
            forall|k: int| 0 <= k < i ==> (#[trigger] out@[k])@ == v@[k]@,
        decreases v.len() - i,
    {
        out.push(v[i].clone());
        i += 1;
    }
    assert(texts(out@) =~= texts(v@));
    out
}

/// Two lists as one, sorted and without repetitions.
pub fn union_of(a: &Vec<String>, b: &Vec<String>) -> (r: Vec<String>)
    ensures
        texts(r@) == distinct_sorted(texts(a@) + texts(b@)),
{
    let mut both = copy_texts(a);
    let mut more = copy_texts(b);
    let ghost first = texts(both@);
    let ghost second = texts(more@);
    both.append(&mut more);
    assert(texts(both@) =~= first + second);
    let out = sorted_set(&both);
    proof {
        distinct_sorted_is(texts(both@), texts(out@));
    }
    out
}

/// A text that begins with `prefix`.
pub open spec fn has_prefix(s: Seq<char>, prefix: Seq<char>) -> bool {
    prefix.len() <= s.len() && s.take(prefix.len() as int) == prefix
}

/// A text that ends with `suffix`.
pub open spec fn has_suffix(s: Seq<char>, suffix: Seq<char>) -> bool {
    suffix.len() <= s.len() && s.skip(s.len() - suffix.len()) == suffix
}

/// Whether the characters of `part` stand in `whole` from position `at` on.
pub open spec fn stands_at(whole: Seq<char>, part: Seq<char>, at: int) -> bool {
    0 <= at && at + part.len() <= whole.len() && whole.subrange(at, at + part.len()) == part
}

/// Whether `part` occurs somewhere in `whole`.
pub open spec fn occurs(whole: Seq<char>, part: Seq<char>) -> bool {
    exists|at: int| #[trigger] stands_at(whole, part, at)
}

/// Tests `stands_at` on lists of characters.
pub fn chars_stand_at(whole: &Vec<char>, part: &Vec<char>, at: usize) -> (r: bool)
    ensures
        r == stands_at(whole@, part@, at as int),
{
    if at > whole.len() || part.len() > whole.len() - at {
        return false;
    }
    let mut i: usize = 0;
    while i < part.len()
        invariant
            i <= part@.len(),
            at + part@.len() <= whole@.len() <= usize::MAX,
            forall|k: int| 0 <= k < i ==> whole@[at + k] == #[trigger] part@[k],
        decreases part.len() - i,
    {
        if whole[at + i] != part[i] {
            assert(whole@.subrange(at as int, at + part@.len())[i as int] != part@[i as int]);
            return false;
        }
        i += 1;
    }
    assert(whole@.subrange(at as int, at + part@.len()) =~= part@);
    true
}

pub fn starts_with(s: &str, prefix: &str) -> (r: bool)
    ensures
        r == has_prefix(s@, prefix@),
{
    let r = chars_stand_at(&chars_of(s), &chars_of(prefix), 0);
    assert(prefix@.len() <= s@.len() ==> s@.subrange(0, prefix@.len() as int) =~= s@.take(
        prefix@.len() as int,
    ));
    r
}

pub fn ends_with(s: &str, suffix: &str) -> (r: bool)
    ensures
        r == has_suffix(s@, suffix@),
{
    let whole = chars_of(s);
    let part = chars_of(suffix);
    if part.len() > whole.len() {
        return false;
    }
    let at: usize = whole.len() - part.len();
    assert(s@.subrange(at as int, at + suffix@.len()) =~= s@.skip(s@.len() - suffix@.len()));
    chars_stand_at(&whole, &part, at)
}

pub fn contains_part(s: &str, part: &str) -> (r: bool)
    ensures
        r == occurs(s@, part@),
{
    let whole = chars_of(s);
    let wanted = chars_of(part);
    if wanted.len() > whole.len() {
        return false;
    }
    let last: usize = whole.len() - wanted.len();
    let mut at: usize = 0;
    loop
        invariant
            whole@ == s@,
            wanted@ == part@,
            at <= last,
            last == whole@.len() - wanted@.len(),
            forall|k: int| 0 <= k < at ==> !#[trigger] stands_at(s@, part@, k),
        decreases last - at,
    {
        if chars_stand_at(&whole, &wanted, at) {
            return true;
        }
        if at == last {
            return false;
        }
        at += 1;
    }
}

/// Texts one after the other, separated by `separator`.
pub open spec fn joined(parts: Seq<Seq<char>>, separator: Seq<char>) -> Seq<char>
    decreases parts.len(),
{
    if parts.len() == 0 {
        Seq::empty()
    } else if parts.len() == 1 {
        parts[0]
    } else {
        joined(parts.drop_last(), separator) + separator + parts.last()
    }
}

pub fn join(parts: &Vec<String>, separator: &str) -> (r: String)
    ensures
        r@ == joined(texts(parts@), separator@),
{
    let mut out = String::new();
    let mut i: usize = 0;
    assert(texts(parts@).take(0) =~= Seq::empty());
    while i < parts.len()
        invariant
            i <= parts@.len(),
            out@ == joined(texts(parts@).take(i as int), separator@),
        decreases parts.len() - i,
    {
        proof {
            let all = texts(parts@);
            assert(all.take(i + 1).drop_last() =~= all.take(i as int));
            assert(all.take(i + 1).last() == parts@[i as int]@);
        }
        if i > 0 {
            out.append(separator);
        }
        out.append(parts[i].as_str());
        proof {
            if i == 0 {
                assert(out@ =~= parts@[0]@);
            }
        }
        i += 1;
    }
    assert(texts(parts@).take(i as int) =~= texts(parts@));
    out
}

/// The words of a text: its runs of characters other than white space.
pub open spec fn words(s: Seq<char>) -> Seq<Seq<char>>
    decreases s.len(),
{
    if s.len() == 0 {
        Seq::empty()
    } else {
        let rest = words(s.drop_last());
        let c = s.last();
        if white_space(c) {
            rest
        } else if s.len() == 1 || white_space(s[s.len() - 2]) {
            rest.push(seq![c])
        } else {
            rest.update(rest.len() - 1, rest.last().push(c))
        }
    }
}

/// The last character of a text that ends within a word stands in its last word.
proof fn words_end(s: Seq<char>)
    requires
        s.len() > 0,
        !white_space(s.last()),
    ensures
        words(s).len() > 0,
    decreases s.len(),
{
    if s.len() > 1 && !white_space(s[s.len() - 2]) {
        words_end(s.drop_last());
    }
}

/// Words are not empty and hold no white space, only characters of the text.
pub proof fn words_are_plain(s: Seq<char>)
    ensures
        forall|k: int| 0 <= k < words(s).len() ==> (#[trigger] words(s)[k]).len() > 0,
        forall|k: int, i: int|
            0 <= k < words(s).len() && 0 <= i < words(s)[k].len() ==> !white_space(
                #[trigger] words(s)[k][i],
            ) && s.contains(words(s)[k][i]),
    decreases s.len(),
{
    if s.len() > 0 {
        let front = s.drop_last();
        let rest = words(front);
        let all = words(s);
        let c = s.last();
        words_are_plain(front);
        if !white_space(c) && s.len() > 1 && !white_space(s[s.len() - 2]) {
            words_end(front);
        }
        assert forall|k: int| 0 <= k < all.len() implies (#[trigger] all[k]).len() > 0 by {
            if k < rest.len() {
                assert(rest[k].len() > 0);
            }
        }
        assert forall|k: int, i: int| 0 <= k < all.len() && 0 <= i < all[k].len() implies !white_space(
            #[trigger] all[k][i],
        ) && s.contains(all[k][i]) by {
            if k < rest.len() && i < rest[k].len() {
                assert(all[k][i] == rest[k][i]);
                assert(front.contains(rest[k][i]));
                let p = choose|p: int| 0 <= p < front.len() && front[p] == rest[k][i];
                assert(s[p] == all[k][i]);
            } else {
                assert(all[k][i] == c);
                assert(s[s.len() - 1] == c);
            }
        }
    }
}

/// A word behind white space is one more word.
proof fn words_with_one_more(p: Seq<char>, w: Seq<char>)
    requires
        p.len() == 0 || white_space(p.last()),
        w.len() > 0,
        forall|i: int| 0 <= i < w.len() ==> !white_space(#[trigger] w[i]),
    ensures
        words(p + w) == words(p).push(w),
    decreases w.len(),
{
    let all = p + w;
    let c = w.last();
    assert(all.last() == c);
    if w.len() == 1 {
        assert(all.drop_last() =~= p);
        assert(w =~= seq![c]);
    } else {
        let front = w.drop_last();
        assert forall|i: int| 0 <= i < front.len() implies !white_space(#[trigger] front[i]) by {
            assert(front[i] == w[i]);
        }
        words_with_one_more(p, front);
        assert(all.drop_last() =~= p + front);
        assert(all[all.len() - 2] == w[w.len() - 2]);
        assert(front.push(c) =~= w);
        assert(words(p).push(front).update(words(p).len() as int, front.push(c)) =~= words(p).push(
            w,
        ));
    }
}

/// Words that are joined by single spaces are read back.
pub proof fn joined_words_read_back(ws: Seq<Seq<char>>)
    requires
        forall|k: int| 0 <= k < ws.len() ==> (#[trigger] ws[k]).len() > 0,
        forall|k: int, i: int|
            0 <= k < ws.len() && 0 <= i < ws[k].len() ==> !white_space(#[trigger] ws[k][i]),
    ensures
        words(joined(ws, " "@)) == ws,
    decreases ws.len(),
{
    reveal_strlit(" ");
    if ws.len() == 0 {
        assert(words(joined(ws, " "@)) =~= ws);
    } else {
        let rest = ws.drop_last();
        let last = ws.last();
        assert(last == ws[ws.len() - 1]);
        assert forall|k: int| 0 <= k < rest.len() implies (#[trigger] rest[k]).len() > 0 by {
            assert(rest[k] == ws[k]);
        }
        assert forall|k: int, i: int| 0 <= k < rest.len() && 0 <= i < rest[k].len() implies !white_space(
            #[trigger] rest[k][i],
        ) by {
            assert(rest[k] == ws[k]);
            assert(!white_space(ws[k][i]));
        }
        assert forall|i: int| 0 <= i < last.len() implies !white_space(#[trigger] last[i]) by {
            assert(!white_space(ws[ws.len() - 1][i]));
        }
        joined_words_read_back(rest);
        if ws.len() == 1 {
            let none = Seq::<char>::empty();
            words_with_one_more(none, last);
            assert(none + last =~= last);
            assert(ws =~= words(none).push(last));
        } else {
            let p = joined(rest, " "@) + " "@;
            assert(p.drop_last() =~= joined(rest, " "@));
            assert(p.last() == ' ');
            assert(words(p) == rest);
            words_with_one_more(p, last);
            assert(ws =~= rest.push(last));
        }
    }
}

/// Words that are joined by single spaces have no other white space: none in
/// front, none behind, and never two in a row.
pub proof fn joined_words_are_spaced_singly(ws: Seq<Seq<char>>)
    requires
        ws.len() > 0,
        forall|k: int| 0 <= k < ws.len() ==> (#[trigger] ws[k]).len() > 0,
        forall|k: int, i: int|
            0 <= k < ws.len() && 0 <= i < ws[k].len() ==> !white_space(#[trigger] ws[k][i]),
    ensures
        ({
            let all = joined(ws, " "@);
            &&& all.len() > 0
            &&& !white_space(all[0])
            &&& !white_space(all.last())
            &&& forall|i: int|
                0 <= i && i + 1 < all.len() && white_space(#[trigger] all[i]) ==> !white_space(
                    all[i + 1],
                )
        }),
    decreases ws.len(),
{
    reveal_strlit(" ");
    let n = ws.len() - 1;
    let all = joined(ws, " "@);
    let last = ws[n];
    assert(!white_space(last[0]) && !white_space(last[last.len() - 1]));
    if ws.len() == 1 {
        assert forall|i: int| 0 <= i < all.len() implies !white_space(#[trigger] all[i]) by {
            assert(all[i] == ws[0][i]);
        }
    } else {
        let rest = ws.drop_last();
        assert forall|k: int| 0 <= k < rest.len() implies (#[trigger] rest[k]).len() > 0 by {
            assert(rest[k] == ws[k]);
        }
        assert forall|k: int, i: int| 0 <= k < rest.len() && 0 <= i < rest[k].len() implies !white_space(
            #[trigger] rest[k][i],
        ) by {
            assert(!white_space(ws[k][i]));
        }
        joined_words_are_spaced_singly(rest);
        let front = joined(rest, " "@);
        assert(all =~= front + " "@ + last);
        assert forall|i: int| 0 <= i && i + 1 < all.len() && white_space(
            #[trigger] all[i],
        ) implies !white_space(all[i + 1]) by {
            if i + 1 < front.len() {
                assert(all[i] == front[i] && all[i + 1] == front[i + 1]);
            } else if i < front.len() {
                assert(all[i] == front.last());
            } else if i == front.len() {
                assert(all[i + 1] == last[0]);
            } else {
                assert(all[i] == last[i - front.len() - 1]);
                assert(!white_space(ws[n][i - front.len() - 1]));
            }
        }
    }
}

/// Every character of joined texts stands in one of them or in the separator.
pub proof fn joined_characters(parts: Seq<Seq<char>>, separator: Seq<char>, i: int)
    requires
        0 <= i < joined(parts, separator).len(),
    ensures
        separator.contains(joined(parts, separator)[i]) || exists|k: int, j: int|
            0 <= k < parts.len() && 0 <= j < parts[k].len() && #[trigger] parts[k][j] == joined(
                parts,
                separator,
            )[i],
    decreases parts.len(),
{
    let all = joined(parts, separator);
    if parts.len() == 1 {
        assert(parts[0][i] == all[i]);
    } else {
        let rest = parts.drop_last();
        let front = joined(rest, separator);
        let n = parts.len() - 1;
        if i < front.len() {
            joined_characters(rest, separator, i);
            assert(front[i] == all[i]);
            if !separator.contains(front[i]) {
                let (k, j) = choose|k: int, j: int|
                    0 <= k < rest.len() && 0 <= j < rest[k].len() && #[trigger] rest[k][j]
                        == front[i];
                assert(parts[k][j] == all[i]);
            }
        } else if i < front.len() + separator.len() {
            assert(separator[i - front.len()] == all[i]);
        } else {
            assert(parts[n][i - front.len() - separator.len()] == all[i]);
        }
    }
}

/// Splits a text into its words.
pub fn split_words(s: &str) -> (r: Vec<String>)
    ensures
        texts(r@) == words(s@),
{
    let chars = chars_of(s);
    let mut out: Vec<String> = Vec::new();
    let mut i: usize = 0;
    assert(s@.take(0) =~= Seq::empty());
    assert(texts(out@) =~= Seq::empty());
    while i < chars.len()
        invariant
            i <= chars@.len(),
            chars@ == s@,
            texts(out@) == words(s@.take(i as int)),
        decreases chars.len() - i,
    {
        let c = chars[i];
        let ghost before = texts(out@);
        proof {
            assert(s@.take(i + 1).drop_last() =~= s@.take(i as int));
            assert(s@.take(i + 1).last() == c);
            if i > 0 {
                assert(s@.take(i + 1)[i - 1] == s@[i - 1]);
                assert(s@.take(i as int).last() == s@[i - 1]);
                if !white_space(s@[i - 1]) {
                    words_end(s@.take(i as int));
                }
            }
        }
        if !is_white_space(c) {
            if i == 0 || is_white_space(chars[i - 1]) {
                let mut word = String::new();
                word.push(c);
                assert(word@ =~= seq![c]);
                out.push(word);
                assert(texts(out@) =~= before.push(seq![c]));
            } else {
                let n = out.len();
                let mut word = out[n - 1].clone();
                word.push(c);
                let ghost w = word@;
                out.set(n - 1, word);
                assert(texts(out@) =~= before.update(n - 1, w));
            }
        }
        i += 1;
    }
    assert(s@.take(i as int) =~= s@);
    out
}

/// At most the first `limit` characters of a text.
pub open spec fn clipped(s: Seq<char>, limit: nat) -> Seq<char> {
    if s.len() <= limit {
        s
    } else {
        s.take(limit as int)
    }
}

/// A text on one line, cut off with an ellipsis after `limit` characters.
pub open spec fn compacted(s: Seq<char>, limit: nat) -> Seq<char> {
    let line = joined(words(s), " "@);
    if line.len() > limit {
        clipped(line, limit).push('…')
    } else {
        line
    }
}

pub fn compact(s: &str, limit: usize) -> (r: String)
    ensures
        r@ == compacted(s@, limit as nat),
{
    let line = join(&split_words(s), " ");
    let chars = chars_of(line.as_str());
    if chars.len() > limit {
        let mut out = string_of(&chars, 0, limit);
        assert(out@ =~= line@.take(limit as int));
        out.push('…');
        return out;
    }
    line
}

/// The sorted form of a list holds each of its elements once: it is as long as
/// the set of them.
pub proof fn distinct_sorted_is_a_set(v: Seq<Seq<char>>)
    ensures
        strictly_sorted(distinct_sorted(v)),
        distinct_sorted(v).no_duplicates(),
        distinct_sorted(v).to_set() == v.to_set(),
        distinct_sorted(v).len() == v.to_set().len(),
        v.to_set().finite(),
        distinct_sorted(v).len() == 0 <==> v.len() == 0,
{
    let d = distinct_sorted(v);
    let s = distinct_sorted_exists(v);
    distinct_sorted_is(v, s);
    assert forall|i: int, j: int| 0 <= i < d.len() && 0 <= j < d.len() && i != j implies d[i]
        != d[j] by {
        if i < j {
            text_lt_irreflexive(d[i]);
        } else {
            text_lt_irreflexive(d[j]);
        }
    }
    assert forall|x: Seq<char>| d.to_set().contains(x) <==> v.to_set().contains(x) by {
        assert(d.contains(x) <==> v.contains(x));
    }
    assert(d.to_set() =~= v.to_set());
    d.unique_seq_to_set();
    vstd::seq_lib::seq_to_set_is_finite(d);
    if v.len() > 0 {
        assert(v.contains(v[0]));
        assert(d.contains(v[0]));
    }
    if d.len() > 0 {
        assert(d.contains(d[0]));
        assert(v.contains(d[0]));
    }
}

/// One text comes before another exactly where, at the first place in which they
/// differ, it has the smaller character or has ended.
pub proof fn texts_are_ordered_by_their_first_difference(a: Seq<char>, b: Seq<char>)
    ensures
        text_lt(a, b) <==> exists|k: int|
            0 <= k < b.len() && k <= a.len() && a.take(k) == #[trigger] b.take(k) && (k == a.len()
                || (a[k] as int) < (b[k] as int)),
    decreases a.len(),
{
    if b.len() > 0 && a.len() > 0 && a[0] == b[0] {
        let s = a.drop_first();
        let t = b.drop_first();
        texts_are_ordered_by_their_first_difference(s, t);
        if text_lt(s, t) {
            let k = choose|k: int|
                0 <= k < t.len() && k <= s.len() && s.take(k) == #[trigger] t.take(k) && (k
                    == s.len() || (s[k] as int) < (t[k] as int));
            let p = a.take(k + 1);
            let q = b.take(k + 1);
            assert forall|i: int| 0 <= i < k + 1 implies #[trigger] p[i] == q[i] by {
                if i > 0 {
                    assert(s.take(k)[i - 1] == t.take(k)[i - 1]);
                }
            }
            assert(p =~= q);
        }
        if exists|k: int|
            0 <= k < b.len() && k <= a.len() && a.take(k) == #[trigger] b.take(k) && (k == a.len()
                || (a[k] as int) < (b[k] as int)) {
            let k = choose|k: int|
                0 <= k < b.len() && k <= a.len() && a.take(k) == #[trigger] b.take(k) && (k
                    == a.len() || (a[k] as int) < (b[k] as int));
            assert(k > 0);
            let p = s.take(k - 1);
            let q = t.take(k - 1);
            assert forall|i: int| 0 <= i < k - 1 implies #[trigger] p[i] == q[i] by {
                assert(a.take(k)[i + 1] == b.take(k)[i + 1]);
            }
            assert(p =~= q);
        }
    } else if b.len() > 0 {
        assert(a.take(0) =~= b.take(0));
        if a.len() > 0 {
            assert forall|k: int|
                0 <= k < b.len() && k <= a.len() && a.take(k) == #[trigger] b.take(k) implies k
                == 0 by {
                if k > 0 {
                    assert(a.take(k)[0] == b.take(k)[0]);
                }
            }
        }
    }
}

/// What is cut off keeps its beginning and never has more characters than the
/// limit, but for an ellipsis that stands exactly where something was cut.
pub proof fn compacted_texts_are_short(s: Seq<char>, limit: nat)
    ensures
        ({
            let line = joined(words(s), " "@);
            let short = compacted(s, limit);
            &&& line.len() <= limit ==> short == line
            &&& line.len() > limit ==> short.len() == limit + 1 && short.last() == '…'
                && short.take(limit as int) == line.take(limit as int)
        }),
{
    let line = joined(words(s), " "@);
    if line.len() > limit {
        assert(compacted(s, limit).take(limit as int) =~= line.take(limit as int));
    }
}

} // verus!
