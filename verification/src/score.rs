//! How an answer to a benchmark question is judged. Every measure is given as
//! the counts that it is a quotient of.

use vstd::multiset::Multiset;
use vstd::prelude::*;
use vstd::seq_lib::*;
use vstd::string::*;

use crate::model::TokenUsage;
use crate::text::{
    self, chars_of, contains_text, join, lower, sorted_set, split_words, string_of, text_eq,
};

verus! {

/// Marks of ASCII other than letters, digits and white space.
pub open spec fn ascii_mark(c: char) -> bool {
    let n = c as u32;
    (33 <= n <= 47) || (58 <= n <= 64) || (91 <= n <= 96) || (123 <= n <= 126)
}

fn is_ascii_mark(c: char) -> (r: bool)
    ensures
        r == ascii_mark(c),
{
    let n = c as u32;
    (33 <= n && n <= 47) || (58 <= n && n <= 64) || (91 <= n && n <= 96) || (123 <= n && n <= 126)
}

/// A text with a space in place of every mark.
pub open spec fn unmarked(s: Seq<char>) -> Seq<char> {
    Seq::new(
        s.len(),
        |i: int|
            if ascii_mark(s[i]) {
                ' '
            } else {
                s[i]
            },
    )
}

pub open spec fn is_article(w: Seq<char>) -> bool {
    w == "a"@ || w == "an"@ || w == "the"@
}

/// The words among the first `n` that are no articles.
pub open spec fn telling_words(v: Seq<Seq<char>>, n: int) -> Seq<Seq<char>>
    decreases n,
{
    if n <= 0 {
        Seq::empty()
    } else if is_article(v[n - 1]) {
        telling_words(v, n - 1)
    } else {
        telling_words(v, n - 1).push(v[n - 1])
    }
}

/// An answer in lower case without marks and articles, one space between words.
pub open spec fn normal_form(lowered: Seq<char>) -> Seq<char> {
    let w = text::words(unmarked(lowered));
    text::joined(telling_words(w, w.len() as int), " "@)
}

/// Words that were kept stand in the list and are no articles.
proof fn telling_words_stand(v: Seq<Seq<char>>, n: int, k: int)
    requires
        0 <= n <= v.len(),
        0 <= k < telling_words(v, n).len(),
    ensures
        !is_article(telling_words(v, n)[k]),
        exists|i: int| 0 <= i < n && #[trigger] v[i] == telling_words(v, n)[k],
    decreases n,
{
    if n > 0 {
        let rest = telling_words(v, n - 1);
        if k < rest.len() {
            telling_words_stand(v, n - 1, k);
            let i = choose|i: int| 0 <= i < n - 1 && #[trigger] v[i] == rest[k];
            assert(v[i] == telling_words(v, n)[k]);
        } else {
            assert(v[n - 1] == telling_words(v, n)[k]);
        }
    }
}

proof fn telling_words_stay(v: Seq<Seq<char>>, n: int)
    requires
        0 <= n <= v.len(),
        forall|k: int| 0 <= k < v.len() ==> !is_article(#[trigger] v[k]),
    ensures
        telling_words(v, n) == v.take(n),
    decreases n,
{
    if n > 0 {
        telling_words_stay(v, n - 1);
        assert(v.take(n) =~= v.take(n - 1).push(v[n - 1]));
    } else {
        assert(v.take(0) =~= Seq::empty());
    }
}

/// The words of a normalized answer are those that it was made of: no articles,
/// no marks, one space between two of them and none around them.
pub proof fn normal_forms_are_plain(s: Seq<char>)
    ensures
        ({
            let form = normal_form(s);
            &&& text::joined(text::words(form), " "@) == form
            &&& forall|k: int|
                0 <= k < text::words(form).len() ==> !is_article(#[trigger] text::words(form)[k])
            &&& forall|i: int| 0 <= i < form.len() ==> !ascii_mark(#[trigger] form[i])
            &&& forall|i: int|
                0 <= i < form.len() && text::white_space(#[trigger] form[i]) ==> form[i] == ' ' && 0
                    < i < form.len() - 1 && form[i + 1] != ' '
        }),
{
    let plain = unmarked(s);
    let w = text::words(plain);
    let kept = telling_words(w, w.len() as int);
    let form = normal_form(s);
    text::words_are_plain(plain);
    assert forall|k: int| 0 <= k < kept.len() implies (#[trigger] kept[k]).len() > 0 && !is_article(
        kept[k],
    ) by {
        telling_words_stand(w, w.len() as int, k);
        let i = choose|i: int| 0 <= i < w.len() && #[trigger] w[i] == kept[k];
        assert(w[i].len() > 0);
    }
    assert forall|k: int, j: int| 0 <= k < kept.len() && 0 <= j < kept[k].len() implies !text::white_space(
        #[trigger] kept[k][j],
    ) && !ascii_mark(kept[k][j]) by {
        telling_words_stand(w, w.len() as int, k);
        let i = choose|i: int| 0 <= i < w.len() && #[trigger] w[i] == kept[k];
        assert(!text::white_space(w[i][j]));
        assert(plain.contains(w[i][j]));
        let p = choose|p: int| 0 <= p < plain.len() && plain[p] == w[i][j];
        assert(!ascii_mark(plain[p]));
    }
    text::joined_words_read_back(kept);
    if kept.len() > 0 {
        text::joined_words_are_spaced_singly(kept);
    }
    reveal_strlit(" ");
    assert forall|i: int| 0 <= i < form.len() implies !ascii_mark(#[trigger] form[i]) && (
    text::white_space(form[i]) ==> form[i] == ' ') by {
        text::joined_characters(kept, " "@, i);
        if " "@.contains(form[i]) {
            assert(form[i] == ' ');
        } else {
            let (k, j) = choose|k: int, j: int|
                0 <= k < kept.len() && 0 <= j < kept[k].len() && #[trigger] kept[k][j] == form[i];
            assert(!ascii_mark(kept[k][j]) && !text::white_space(kept[k][j]));
        }
    }
}

/// Normalizing a text that is normalized changes nothing, with or without another
/// lower-casing before it, as long as that leaves the text alone.
pub proof fn normal_forms_stay(s: Seq<char>)
    ensures
        normal_form(normal_form(s)) == normal_form(s),
        text::lowercased(normal_form(s)) == normal_form(s) ==> normal_form(
            text::lowercased(normal_form(s)),
        ) == normal_form(s),
{
    let form = normal_form(s);
    normal_forms_are_plain(s);
    assert(unmarked(form) =~= form);
    let w = text::words(form);
    telling_words_stay(w, w.len() as int);
    assert(w.take(w.len() as int) =~= w);
}

/// Normalizes an answer that is in lower case already.
pub fn normalize_lowered(lowered: &str) -> (r: String)
    ensures
        r@ == normal_form(lowered@),
{
    let chars = chars_of(lowered);
    let mut plain: Vec<char> = Vec::new();
    let mut i: usize = 0;
    while i < chars.len()
        invariant
            i <= chars@.len(),
            chars@ == lowered@,
            plain@ == unmarked(lowered@).take(i as int),
        decreases chars.len() - i,
    {
        let c = chars[i];
        plain.push(
            if is_ascii_mark(c) {
                ' '
            } else {
                c
            },
        );
        assert(plain@ =~= unmarked(lowered@).take(i + 1));
        i += 1;
    }
    assert(plain@ =~= unmarked(lowered@));
    let spaced = string_of(&plain, 0, plain.len());
    assert(spaced@ =~= unmarked(lowered@));
    let words = split_words(spaced.as_str());
    let ghost all = text::texts(words@);
    let mut kept: Vec<String> = Vec::new();
    let mut j: usize = 0;
    assert(text::texts(kept@) =~= Seq::empty());
    while j < words.len()
        invariant
            j <= words@.len(),
            all == text::texts(words@),
            text::texts(kept@) == telling_words(all, j as int),
        decreases words.len() - j,
    {
        let w = words[j].as_str();
        assert(all[j as int] == words@[j as int]@);
        if !(text_eq(w, "a") || text_eq(w, "an") || text_eq(w, "the")) {
            let ghost before = text::texts(kept@);
            kept.push(words[j].clone());
            assert(text::texts(kept@) =~= before.push(words@[j as int]@));
        }
        j += 1;
    }
    join(&kept, " ")
}

/// Normalizes an answer, so that answers that differ only in case, marks,
/// articles and spacing are the same.
pub fn normalize_eval_answer(s: &str) -> (r: String)
    ensures
        r@ == normal_form(text::lowercased(s@)),
{
    let lowered = lower(s);
    normalize_lowered(lowered.as_str())
}

/// Characters that are words of their own.
pub open spec fn ideograph(c: char) -> bool {
    let n = c as u32;
    (0x3400 <= n <= 0x4dbf) || (0x4e00 <= n <= 0x9fff) || (0xf900 <= n <= 0xfaff) || (0x3040 <= n
        <= 0x30ff) || (0xac00 <= n <= 0xd7af)
}

fn cjk(c: char) -> (r: bool)
    ensures
        r == ideograph(c),
{
    let n = c as u32;
    (0x3400 <= n && n <= 0x4dbf) || (0x4e00 <= n && n <= 0x9fff) || (0xf900 <= n && n <= 0xfaff) || (
    0x3040 <= n && n <= 0x30ff) || (0xac00 <= n && n <= 0xd7af)
}

/// Letters and digits of any script.
pub uninterp spec fn letter_or_digit(c: char) -> bool;

/// `char::is_alphanumeric`: a fixed property of the character.
#[verifier::external_body]
fn is_letter_or_digit(c: char) -> (r: bool)
    ensures
        r == letter_or_digit(c),
{
    c.is_alphanumeric()
}

/// The tokens of the first `n` characters, and the run that is still open: each
/// ideograph is one, and so is each run of other letters and digits.
pub open spec fn token_state(s: Seq<char>, n: int) -> (Seq<Seq<char>>, Seq<char>)
    decreases n,
{
    if n <= 0 {
        (Seq::empty(), Seq::empty())
    } else {
        let (done, run) = token_state(s, n - 1);
        let c = s[n - 1];
        let closed = if run.len() > 0 {
            done.push(run)
        } else {
            done
        };
        if ideograph(c) {
            (closed.push(seq![c]), Seq::empty())
        } else if letter_or_digit(c) {
            (done, run.push(c))
        } else {
            (closed, Seq::empty())
        }
    }
}

/// The tokens of a normalized answer.
pub open spec fn tokens_of(s: Seq<char>) -> Seq<Seq<char>> {
    let (done, run) = token_state(s, s.len() as int);
    if run.len() > 0 {
        done.push(run)
    } else {
        done
    }
}

fn run_text(run: &Vec<char>) -> (r: String)
    ensures
        r@ == run@,
{
    let s = string_of(run, 0, run.len());
    assert(s@ =~= run@);
    s
}

/// Cuts a normalized answer into tokens.
pub fn cut_tokens(normalized: &str) -> (r: Vec<String>)
    ensures
        text::texts(r@) == tokens_of(normalized@),
{
    let chars = chars_of(normalized);
    let mut out: Vec<String> = Vec::new();
    let mut run: Vec<char> = Vec::new();
    let mut i: usize = 0;
    assert(text::texts(out@) =~= Seq::empty());
    while i < chars.len()
        invariant
            i <= chars@.len(),
            chars@ == normalized@,
            token_state(normalized@, i as int) == (text::texts(out@), run@),
        decreases chars.len() - i,
    {
        let c = chars[i];
        let single = cjk(c);
        let part = !single && is_letter_or_digit(c);
        if part {
            run.push(c);
        } else {
            if run.len() > 0 {
                let ghost before = text::texts(out@);
                out.push(run_text(&run));
                assert(text::texts(out@) =~= before.push(run@));
            }
            if single {
                let mut own: Vec<char> = Vec::new();
                own.push(c);
                let ghost before = text::texts(out@);
                out.push(run_text(&own));
                assert(own@ =~= seq![c]);
                assert(text::texts(out@) =~= before.push(seq![c]));
            }
            run = Vec::new();
            assert(run@ =~= Seq::empty());
        }
        i += 1;
    }
    if run.len() > 0 {
        let ghost before = text::texts(out@);
        out.push(run_text(&run));
        assert(text::texts(out@) =~= before.push(run@));
    }
    out
}

pub fn tokens(s: &str) -> (r: Vec<String>)
    ensures
        text::texts(r@) == tokens_of(normal_form(text::lowercased(s@))),
{
    let normalized = normalize_eval_answer(s);
    cut_tokens(normalized.as_str())
}

/// How many tokens two answers have in common, each counted as often as both
/// have it.
pub open spec fn common_tokens(a: Seq<Seq<char>>, b: Seq<Seq<char>>) -> nat {
    a.to_multiset().intersection_with(b.to_multiset()).len()
}

proof fn taking_a_token(a: Seq<Seq<char>>, b: Seq<Seq<char>>, n: int)
    requires
        0 < n <= a.len(),
    ensures
        match first_place(b, a[n - 1], 0) {
            Some(p) => common_tokens(a.take(n), b) == common_tokens(a.take(n - 1), b.remove(p)) + 1,
            None => common_tokens(a.take(n), b) == common_tokens(a.take(n - 1), b),
        },
{
    broadcast use {
        vstd::multiset::group_multiset_axioms,
        vstd::multiset::group_multiset_properties,
    };

    let x = a[n - 1];
    let shorter = a.take(n - 1);
    let longer = a.take(n);
    assert(longer =~= shorter.push(x));
    broadcast use to_multiset_build, to_multiset_contains;

    let am = shorter.to_multiset();
    let bm = b.to_multiset();
    assert(longer.to_multiset() =~= am.insert(x));
    first_place_sound(b, x, 0);
    match first_place(b, x, 0) {
        Some(p) => {
            broadcast use to_multiset_remove;

            let less = b.remove(p).to_multiset();
            assert(less =~= bm.remove(x));
            assert(bm.count(x) > 0) by {
                assert(b.contains(x)) by {
                    assert(b[p] == x);
                }
            }
            let small = am.intersection_with(less);
            let big = am.insert(x).intersection_with(bm);
            assert(big =~= small.insert(x)) by {
                assert forall|y: Seq<char>| big.count(y) == small.insert(x).count(y) by {}
            }
            assert(big.len() == small.len() + 1);
        },
        None => {
            assert(bm.count(x) == 0) by {
                assert(!b.contains(x));
            }
            let small = am.intersection_with(bm);
            let big = am.insert(x).intersection_with(bm);
            assert(big =~= small) by {
                assert forall|y: Seq<char>| big.count(y) == small.count(y) by {}
            }
        },
    }
}

/// Where a text stands first, from `i` on.
pub open spec fn first_place(v: Seq<Seq<char>>, x: Seq<char>, i: int) -> Option<int>
    decreases v.len() - i,
{
    if i < 0 || i >= v.len() {
        None
    } else if v[i] == x {
        Some(i)
    } else {
        first_place(v, x, i + 1)
    }
}

proof fn first_place_sound(v: Seq<Seq<char>>, x: Seq<char>, i: int)
    requires
        0 <= i <= v.len(),
    ensures
        match first_place(v, x, i) {
            Some(p) => i <= p < v.len() && v[p] == x,
            None => forall|k: int| i <= k < v.len() ==> v[k] != x,
        },
    decreases v.len() - i,
{
    if i < v.len() && v[i] != x {
        first_place_sound(v, x, i + 1);
    }
}

fn find_first(v: &Vec<String>, x: &str) -> (r: Option<usize>)
    ensures
        match r {
            Some(p) => p < v@.len() && first_place(text::texts(v@), x@, 0) == Some(p as int),
            None => first_place(text::texts(v@), x@, 0) is None,
        },
{
    let ghost all = text::texts(v@);
    let mut i: usize = 0;
    while i < v.len()
        invariant
            i <= v@.len(),
            all == text::texts(v@),
            first_place(all, x@, 0) == first_place(all, x@, i as int),
        decreases v.len() - i,
    {
        assert(all[i as int] == v@[i as int]@);
        if text_eq(v[i].as_str(), x) {
            return Some(i);
        }
        i += 1;
    }
    None
}

proof fn nothing_in_common(b: Seq<Seq<char>>)
    ensures
        common_tokens(Seq::empty(), b) == 0,
{
    broadcast use {
        vstd::multiset::group_multiset_axioms,
        vstd::multiset::group_multiset_properties,
    };

    let none = Seq::<Seq<char>>::empty();
    broadcast use to_multiset_len;

    assert(none.to_multiset().len() == 0);
    let both = none.to_multiset().intersection_with(b.to_multiset());
    assert(both =~= Multiset::empty()) by {
        assert forall|y: Seq<char>| both.count(y) == 0 by {
            broadcast use to_multiset_contains;

            assert(!none.contains(y));
        }
    }
}

/// Counts the tokens that two answers have in common.
pub fn count_common(a: &Vec<String>, b: &Vec<String>) -> (r: usize)
    ensures
        r == common_tokens(text::texts(a@), text::texts(b@)),
        r <= a@.len(),
{
    let ghost ta = text::texts(a@);
    let ghost tb = text::texts(b@);
    let mut left = text::copy_texts(b);
    let total = a.len();
    let mut n: usize = total;
    let mut common: usize = 0;
    assert(ta.take(n as int) =~= ta);
    while n > 0
        invariant
            n <= total,
            total == a@.len(),
            ta == text::texts(a@),
            common + n <= total,
            common_tokens(ta, tb) == common + common_tokens(
                ta.take(n as int),
                text::texts(left@),
            ),
        decreases n,
    {
        let ghost now = text::texts(left@);
        assert(ta[n - 1] == a@[n - 1]@);
        proof {
            taking_a_token(ta, now, n as int);
        }
        match find_first(&left, a[n - 1].as_str()) {
            Some(p) => {
                left.remove(p);
                assert(text::texts(left@) =~= now.remove(p as int));
                common = common + 1;
            },
            None => {},
        }
        n -= 1;
    }
    proof {
        assert(ta.take(0) =~= Seq::empty());
        nothing_in_common(text::texts(left@));
    }
    common
}

/// The counts that a token measure is made of.
#[derive(Clone, Copy, Debug, PartialEq, Eq, Structural)]
pub struct TokenOverlap {
    pub common: usize,
    pub predicted: usize,
    pub expected: usize,
}

pub open spec fn overlap_of(a: Seq<char>, b: Seq<char>) -> TokenOverlap {
    let ta = tokens_of(normal_form(text::lowercased(a)));
    let tb = tokens_of(normal_form(text::lowercased(b)));
    TokenOverlap {
        common: common_tokens(ta, tb) as usize,
        predicted: ta.len() as usize,
        expected: tb.len() as usize,
    }
}

/// Counts the tokens of an answer and of the one that is expected.
pub fn eval_token_overlap(predicted: &str, expected: &str) -> (r: TokenOverlap)
    ensures
        r == overlap_of(predicted@, expected@),
        r.common <= r.predicted,
{
    let a = tokens(predicted);
    let b = tokens(expected);
    assert(text::texts(a@).len() == a@.len());
    assert(text::texts(b@).len() == b@.len());
    TokenOverlap { common: count_common(&a, &b), predicted: a.len(), expected: b.len() }
}

/// A share: so many out of so many.
#[derive(Clone, Copy, Debug, PartialEq, Eq, Structural)]
pub struct Ratio {
    pub part: u64,
    pub whole: u64,
}

/// How many of the first `n` texts stand in a list.
pub open spec fn hits(v: Seq<Seq<char>>, list: Seq<Seq<char>>, n: int) -> nat
    decreases n,
{
    if n <= 0 {
        0
    } else if list.contains(v[n - 1]) {
        hits(v, list, n - 1) + 1
    } else {
        hits(v, list, n - 1)
    }
}

proof fn hits_at_most(v: Seq<Seq<char>>, list: Seq<Seq<char>>, n: int)
    requires
        0 <= n,
    ensures
        hits(v, list, n) <= n,
    decreases n,
{
    if n > 0 {
        hits_at_most(v, list, n - 1);
    }
}

pub open spec fn first_few(v: Seq<Seq<char>>, k: int) -> Seq<Seq<char>> {
    if v.len() <= k {
        v
    } else {
        v.take(k)
    }
}

/// How much of the gold evidence the first `k` of a ranking hold; nothing where
/// there is no gold evidence.
pub open spec fn recall_ratio(gold: Seq<Seq<char>>, ranking: Seq<Seq<char>>, k: int) -> Option<
    Ratio,
> {
    let g = text::distinct_sorted(gold);
    if g.len() == 0 {
        None
    } else {
        Some(
            Ratio {
                part: hits(g, first_few(ranking, k), g.len() as int) as u64,
                whole: g.len() as u64,
            },
        )
    }
}

fn distinct(v: &Vec<String>) -> (r: Vec<String>)
    ensures
        text::texts(r@) == text::distinct_sorted(text::texts(v@)),
{
    let out = sorted_set(v);
    proof {
        text::distinct_sorted_is(text::texts(v@), text::texts(out@));
    }
    out
}

fn count_hits(v: &Vec<String>, list: &Vec<String>) -> (r: usize)
    ensures
        r == hits(text::texts(v@), text::texts(list@), v@.len() as int),
        r <= v@.len(),
{
    let ghost all = text::texts(v@);
    let mut n: usize = 0;
    let mut i: usize = 0;
    while i < v.len()
        invariant
            i <= v@.len(),
            all == text::texts(v@),
            n == hits(all, text::texts(list@), i as int),
            n <= i,
        decreases v.len() - i,
    {
        assert(all[i as int] == v@[i as int]@);
        if contains_text(list, v[i].as_str()) {
            n = n + 1;
        }
        i += 1;
    }
    n
}

fn take_first(v: &Vec<String>, k: usize) -> (r: Vec<String>)
    ensures
        text::texts(r@) == first_few(text::texts(v@), k as int),
{
    let ghost all = text::texts(v@);
    let limit: usize = if v.len() <= k {
        v.len()
    } else {
        k
    };
    let mut out: Vec<String> = Vec::new();
    let mut i: usize = 0;
    assert(text::texts(out@) =~= all.take(0));
    while i < limit
        invariant
            i <= limit <= v@.len(),
            all == text::texts(v@),
            text::texts(out@) == all.take(i as int),
        decreases limit - i,
    {
        let ghost before = text::texts(out@);
        out.push(v[i].clone());
        assert(text::texts(out@) =~= before.push(v@[i as int]@));
        assert(before.push(v@[i as int]@) =~= all.take(i + 1));
        i += 1;
    }
    assert(all.take(limit as int) =~= first_few(all, k as int));
    out
}

/// Measures how much of the gold evidence the first `k` of a ranking hold.
pub fn eval_recall_at_k(gold: &Vec<String>, ranking: &Vec<String>, k: usize) -> (r: Option<Ratio>)
    ensures
        r == recall_ratio(text::texts(gold@), text::texts(ranking@), k as int),
{
    let g = distinct(gold);
    assert(text::texts(g@).len() == g@.len());
    if g.len() == 0 {
        return None;
    }
    let top = take_first(ranking, k);
    let part = count_hits(&g, &top);
    Some(Ratio { part: part as u64, whole: g.len() as u64 })
}

/// A recall is a share of one at most.
pub proof fn recall_is_a_share(gold: Seq<Seq<char>>, ranking: Seq<Seq<char>>, k: int)
    requires
        text::distinct_sorted(gold).len() <= u64::MAX,
    ensures
        recall_ratio(gold, ranking, k) matches Some(r) ==> r.part <= r.whole && r.whole > 0,
{
    let g = text::distinct_sorted(gold);
    hits_at_most(g, first_few(ranking, k), g.len() as int);
}

/// The first place, from `i` on, that holds gold evidence.
pub open spec fn first_hit(gold: Seq<Seq<char>>, ranking: Seq<Seq<char>>, i: int) -> Option<int>
    decreases ranking.len() - i,
{
    if i < 0 || i >= ranking.len() {
        None
    } else if gold.contains(ranking[i]) {
        Some(i)
    } else {
        first_hit(gold, ranking, i + 1)
    }
}

/// The reciprocal of the rank of the first gold evidence, zero where there is
/// none in the ranking; nothing without gold evidence.
pub open spec fn reciprocal_rank(gold: Seq<Seq<char>>, ranking: Seq<Seq<char>>) -> Option<Ratio> {
    if gold.len() == 0 {
        None
    } else {
        match first_hit(gold, ranking, 0) {
            Some(i) => Some(Ratio { part: 1, whole: (i + 1) as u64 }),
            None => Some(Ratio { part: 0, whole: 1 }),
        }
    }
}

/// Measures how early gold evidence comes.
pub fn eval_mrr(gold: &Vec<String>, ranking: &Vec<String>) -> (r: Option<Ratio>)
    ensures
        r == reciprocal_rank(text::texts(gold@), text::texts(ranking@)),
{
    let ghost g = text::texts(gold@);
    let ghost all = text::texts(ranking@);
    if gold.len() == 0 {
        assert(g.len() == 0);
        return None;
    }
    assert(g.len() > 0);
    let count = ranking.len();
    let mut i: usize = 0;
    while i < count
        invariant
            i <= count,
            count == ranking@.len(),
            g == text::texts(gold@),
            g.len() > 0,
            all == text::texts(ranking@),
            first_hit(g, all, 0) == first_hit(g, all, i as int),
        decreases count - i,
    {
        assert(all[i as int] == ranking@[i as int]@);
        if contains_text(gold, ranking[i].as_str()) {
            return Some(Ratio { part: 1, whole: (i + 1) as u64 });
        }
        i += 1;
    }
    Some(Ratio { part: 0, whole: 1 })
}

/// What kind of question is asked.
#[derive(Clone, Copy, Debug, PartialEq, Eq, Structural)]
pub enum EvalQuestionClass {
    General,
    ExactFact,
    Temporal,
    ConflictUpdate,
    MultiHop,
    NoAnswer,
}

/// The measures of one answer.
#[derive(Clone, Copy, Debug, PartialEq, Eq, Structural)]
pub struct EvalScore {
    pub answer_correct: bool,
    pub answer_overlap: Option<TokenOverlap>,
    pub temporal_correct: Option<bool>,
    pub conflict_correct: Option<bool>,
    pub refused: bool,
    pub correct_refusal: Option<bool>,
    pub recall_at_5: Option<Ratio>,
    pub recall_at_10: Option<Ratio>,
    pub mrr: Option<Ratio>,
    pub relevant_selected: usize,
    pub evidence_per_input_token: Option<Ratio>,
    pub stale_state_false_recall: Option<bool>,
    pub no_answer_false_recall: Option<bool>,
}

/// What is known about the right answer.
pub struct EvalGold<'a> {
    pub expected_answer: Option<&'a str>,
    pub class: EvalQuestionClass,
    pub gold_evidence: &'a Vec<String>,
    pub stale_evidence: &'a Vec<String>,
    pub negative_evidence: &'a Vec<String>,
}

pub open spec fn if_some<T>(b: bool, value: T) -> Option<T> {
    if b {
        Some(value)
    } else {
        None
    }
}

/// Whether any of the first ten of a ranking stands in a list.
pub open spec fn ten_meet(list: Seq<Seq<char>>, ranking: Seq<Seq<char>>) -> bool {
    first_hit(list, first_few(ranking, 10), 0) is Some
}

/// Whether an answer is the one expected; where none is, only a refusal is right.
pub open spec fn is_right(expected: Option<&str>, answer: Seq<char>) -> bool {
    let given = normal_form(text::lowercased(answer));
    match expected {
        Some(text) => given == normal_form(text::lowercased(text@)),
        None => given == "no answer"@,
    }
}

pub open spec fn score_of(
    g: EvalGold,
    answer: Seq<char>,
    ranking: Seq<Seq<char>>,
    selected: Seq<Seq<char>>,
    input_tokens: Option<u64>,
) -> EvalScore {
    let refused = normal_form(text::lowercased(answer)) == "no answer"@;
    let right = is_right(g.expected_answer, answer);
    let gold = text::texts(g.gold_evidence@);
    let chosen = text::distinct_sorted(selected);
    let relevant = hits(chosen, gold, chosen.len() as int) as usize;
    EvalScore {
        answer_correct: right,
        answer_overlap: match g.expected_answer {
            Some(text) => Some(overlap_of(answer, text@)),
            None => None,
        },
        temporal_correct: if_some(g.class == EvalQuestionClass::Temporal, right),
        conflict_correct: if_some(g.class == EvalQuestionClass::ConflictUpdate, right),
        refused,
        correct_refusal: if_some(g.class == EvalQuestionClass::NoAnswer, refused),
        recall_at_5: recall_ratio(gold, ranking, 5),
        recall_at_10: recall_ratio(gold, ranking, 10),
        mrr: reciprocal_rank(gold, ranking),
        relevant_selected: relevant,
        evidence_per_input_token: match input_tokens {
            Some(n) => if_some(n > 0, Ratio { part: relevant as u64, whole: n }),
            None => None,
        },
        stale_state_false_recall: if_some(
            g.stale_evidence@.len() > 0,
            ten_meet(text::texts(g.stale_evidence@), ranking),
        ),
        no_answer_false_recall: if_some(
            g.class == EvalQuestionClass::NoAnswer,
            ten_meet(text::texts(g.negative_evidence@), ranking),
        ),
    }
}

fn ten_hold(list: &Vec<String>, ranking: &Vec<String>) -> (r: bool)
    ensures
        r == ten_meet(text::texts(list@), text::texts(ranking@)),
{
    let top = take_first(ranking, 10);
    let ghost want = text::texts(list@);
    let ghost all = text::texts(top@);
    let mut i: usize = 0;
    while i < top.len()
        invariant
            i <= top@.len(),
            want == text::texts(list@),
            all == text::texts(top@),
            all == first_few(text::texts(ranking@), 10),
            first_hit(want, all, 0) == first_hit(want, all, i as int),
        decreases top.len() - i,
    {
        assert(all[i as int] == top@[i as int]@);
        if contains_text(list, top[i].as_str()) {
            return true;
        }
        i += 1;
    }
    false
}

/// Judges an answer by the expected one and by the evidence that it was given
/// from.
pub fn score_eval_case(
    gold: &EvalGold,
    answer: &str,
    ranking: &Vec<String>,
    selected: &Vec<String>,
    usage: &TokenUsage,
) -> (r: EvalScore)
    ensures
        r == score_of(
            *gold,
            answer@,
            text::texts(ranking@),
            text::texts(selected@),
            usage.input_tokens,
        ),
{
    let given = normalize_eval_answer(answer);
    let refused = text_eq(given.as_str(), "no answer");
    let right = match gold.expected_answer {
        Some(text) => {
            let expected = normalize_eval_answer(text);
            text_eq(given.as_str(), expected.as_str())
        },
        None => refused,
    };
    let chosen = distinct(selected);
    assert(text::texts(chosen@).len() == chosen@.len());
    let relevant = count_hits(&chosen, gold.gold_evidence);
    let no_answer = gold.class == EvalQuestionClass::NoAnswer;
    let answer_overlap = match gold.expected_answer {
        Some(text) => Some(eval_token_overlap(answer, text)),
        None => None,
    };
    let evidence_per_input_token = match usage.input_tokens {
        Some(n) => if n > 0 {
            Some(Ratio { part: relevant as u64, whole: n })
        } else {
            None
        },
        None => None,
    };
    let stale = if gold.stale_evidence.len() > 0 {
        Some(ten_hold(gold.stale_evidence, ranking))
    } else {
        None
    };
    let negative = if no_answer {
        Some(ten_hold(gold.negative_evidence, ranking))
    } else {
        None
    };
    EvalScore {
        answer_correct: right,
        answer_overlap,
        temporal_correct: if gold.class == EvalQuestionClass::Temporal {
            Some(right)
        } else {
            None
        },
        conflict_correct: if gold.class == EvalQuestionClass::ConflictUpdate {
            Some(right)
        } else {
            None
        },
        refused,
        correct_refusal: if no_answer {
            Some(refused)
        } else {
            None
        },
        recall_at_5: eval_recall_at_k(gold.gold_evidence, ranking, 5),
        recall_at_10: eval_recall_at_k(gold.gold_evidence, ranking, 10),
        mrr: eval_mrr(gold.gold_evidence, ranking),
        relevant_selected: relevant,
        evidence_per_input_token,
        stale_state_false_recall: stale,
        no_answer_false_recall: negative,
    }
}

/// Where no answer is expected, exactly a refusal is right; where one is, exactly
/// an answer of the same normal form, so that the expected text itself always is.
/// A class of questions is told apart only where a question belongs to it.
pub proof fn answers_are_judged_by_their_form(
    g: EvalGold,
    answer: Seq<char>,
    ranking: Seq<Seq<char>>,
    selected: Seq<Seq<char>>,
    input_tokens: Option<u64>,
)
    ensures
        ({
            let s = score_of(g, answer, ranking, selected, input_tokens);
            let given = normal_form(text::lowercased(answer));
            &&& s.refused <==> given == "no answer"@
            &&& g.expected_answer is None ==> s.answer_correct == s.refused
            &&& g.expected_answer matches Some(text) ==> {
                &&& s.answer_correct <==> given == normal_form(text::lowercased(text@))
                &&& text@ == answer ==> s.answer_correct
            }
            &&& s.temporal_correct is Some <==> g.class == EvalQuestionClass::Temporal
            &&& s.temporal_correct matches Some(b) ==> b == s.answer_correct
            &&& s.conflict_correct is Some <==> g.class == EvalQuestionClass::ConflictUpdate
            &&& s.conflict_correct matches Some(b) ==> b == s.answer_correct
            &&& s.correct_refusal is Some <==> g.class == EvalQuestionClass::NoAnswer
            &&& s.correct_refusal matches Some(b) ==> b == s.refused
            &&& s.answer_overlap is Some <==> g.expected_answer is Some
        }),
{
}

/// Two answers of one normal form are judged alike.
pub proof fn like_answers_are_judged_alike(
    g: EvalGold,
    one: Seq<char>,
    other: Seq<char>,
    ranking: Seq<Seq<char>>,
    selected: Seq<Seq<char>>,
    input_tokens: Option<u64>,
)
    requires
        normal_form(text::lowercased(one)) == normal_form(text::lowercased(other)),
    ensures
        score_of(g, one, ranking, selected, input_tokens) == score_of(
            g,
            other,
            ranking,
            selected,
            input_tokens,
        ),
{
}

proof fn hits_are_a_meeting(v: Seq<Seq<char>>, list: Seq<Seq<char>>, n: int)
    requires
        v.no_duplicates(),
        0 <= n <= v.len(),
    ensures
        v.take(n).to_set().finite(),
        hits(v, list, n) == v.take(n).to_set().intersect(list.to_set()).len(),
    decreases n,
{
    seq_to_set_is_finite(v.take(n));
    let now = v.take(n).to_set().intersect(list.to_set());
    if n == 0 {
        assert(now =~= Set::empty());
    } else {
        hits_are_a_meeting(v, list, n - 1);
        let x = v[n - 1];
        let before = v.take(n - 1).to_set();
        assert(!v.take(n - 1).contains(x));
        assert forall|y: Seq<char>| v.take(n).contains(y) <==> v.take(n - 1).contains(y) || y
            == x by {
            if v.take(n).contains(y) {
                let i = choose|i: int| 0 <= i < n && v.take(n)[i] == y;
                if i < n - 1 {
                    assert(v.take(n - 1)[i] == y);
                }
            }
            if v.take(n - 1).contains(y) {
                let short = v.take(n - 1);
                let i = choose|i: int| 0 <= i < n - 1 && short[i] == y;
                assert(v.take(n)[i] == y);
            }
            assert(v.take(n)[n - 1] == x);
        }
        if list.contains(x) {
            assert(now =~= before.intersect(list.to_set()).insert(x));
        } else {
            assert(now =~= before.intersect(list.to_set()));
        }
    }
}

/// A text stands among the first `k` of a ranking.
pub open spec fn ranked_within(ranking: Seq<Seq<char>>, k: int, x: Seq<char>) -> bool {
    exists|i: int| 0 <= i < k && i < ranking.len() && #[trigger] ranking[i] == x
}

proof fn first_few_rank(ranking: Seq<Seq<char>>, k: int)
    requires
        0 <= k,
    ensures
        first_few(ranking, k).to_set() == Set::new(|x: Seq<char>| ranked_within(ranking, k, x)),
{
    let few = first_few(ranking, k);
    assert forall|x: Seq<char>| few.contains(x) <==> ranked_within(ranking, k, x) by {
        if few.contains(x) {
            let i = choose|i: int| 0 <= i < few.len() && few[i] == x;
            assert(ranking[i] == x);
        }
        if ranked_within(ranking, k, x) {
            let i = choose|i: int| 0 <= i < k && i < ranking.len() && #[trigger] ranking[i] == x;
            assert(few[i] == x);
        }
    }
    assert(few.to_set() =~= Set::new(|x: Seq<char>| ranked_within(ranking, k, x)));
}

/// A recall counts each gold text once, and as found exactly where it stands
/// among the first `k` of the ranking.
pub proof fn recall_counts_what_is_found(gold: Seq<Seq<char>>, ranking: Seq<Seq<char>>, k: int)
    requires
        0 <= k,
        gold.to_set().len() <= u64::MAX,
    ensures
        recall_ratio(gold, ranking, k) is None <==> gold.len() == 0,
        recall_ratio(gold, ranking, k) matches Some(r) ==> r.whole == gold.to_set().len()
            && r.part == gold.to_set().intersect(
            Set::new(|x: Seq<char>| ranked_within(ranking, k, x)),
        ).len(),
        recall_ratio(gold, ranking, k) matches Some(r) ==> (r.part == r.whole <==> forall|i: int|
            0 <= i < gold.len() ==> ranked_within(ranking, k, #[trigger] gold[i])),
{
    let g = text::distinct_sorted(gold);
    text::distinct_sorted_is_a_set(gold);
    hits_are_a_meeting(g, first_few(ranking, k), g.len() as int);
    hits_at_most(g, first_few(ranking, k), g.len() as int);
    assert(g.take(g.len() as int) =~= g);
    first_few_rank(ranking, k);
    let near = Set::new(|x: Seq<char>| ranked_within(ranking, k, x));
    let met = gold.to_set().intersect(near);
    if met.len() == gold.to_set().len() {
        vstd::set_lib::lemma_subset_equality(met, gold.to_set());
        assert forall|i: int| 0 <= i < gold.len() implies ranked_within(
            ranking,
            k,
            #[trigger] gold[i],
        ) by {
            assert(gold.to_set().contains(gold[i]));
            assert(met.contains(gold[i]));
        }
    }
    if forall|i: int| 0 <= i < gold.len() ==> ranked_within(ranking, k, #[trigger] gold[i]) {
        assert(met =~= gold.to_set());
    }
}

proof fn first_hit_is_first(gold: Seq<Seq<char>>, ranking: Seq<Seq<char>>, i: int)
    requires
        0 <= i,
    ensures
        first_hit(gold, ranking, i) matches Some(p) ==> i <= p < ranking.len() && gold.contains(
            ranking[p],
        ) && forall|j: int| i <= j < p ==> !gold.contains(#[trigger] ranking[j]),
        first_hit(gold, ranking, i) is None ==> forall|j: int|
            i <= j < ranking.len() ==> !gold.contains(#[trigger] ranking[j]),
    decreases ranking.len() - i,
{
    if i < ranking.len() && !gold.contains(ranking[i]) {
        first_hit_is_first(gold, ranking, i + 1);
    }
}

/// The reciprocal rank is that of the first place with gold evidence, and zero
/// exactly where the ranking holds none.
pub proof fn ranks_count_to_the_first_hit(gold: Seq<Seq<char>>, ranking: Seq<Seq<char>>)
    requires
        ranking.len() <= u64::MAX,
    ensures
        reciprocal_rank(gold, ranking) is None <==> gold.len() == 0,
        reciprocal_rank(gold, ranking) matches Some(r) ==> {
            if exists|j: int| 0 <= j < ranking.len() && gold.contains(#[trigger] ranking[j]) {
                &&& r.part == 1
                &&& 1 <= r.whole <= ranking.len()
                &&& gold.contains(ranking[r.whole - 1])
                &&& forall|j: int| 0 <= j < r.whole - 1 ==> !gold.contains(#[trigger] ranking[j])
            } else {
                r.part == 0 && r.whole == 1
            }
        },
{
    first_hit_is_first(gold, ranking, 0);
}

/// Stale and negative evidence counts as recalled exactly where some of it is
/// among the first ten of the ranking; selected evidence is relevant where it is
/// gold, each text counted once.
pub proof fn scores_count_evidence(
    g: EvalGold,
    answer: Seq<char>,
    ranking: Seq<Seq<char>>,
    selected: Seq<Seq<char>>,
    input_tokens: Option<u64>,
)
    requires
        selected.to_set().len() <= usize::MAX,
    ensures
        ({
            let s = score_of(g, answer, ranking, selected, input_tokens);
            let gold = text::texts(g.gold_evidence@);
            let stale = text::texts(g.stale_evidence@);
            let negative = text::texts(g.negative_evidence@);
            &&& s.stale_state_false_recall is Some <==> stale.len() > 0
            &&& s.stale_state_false_recall matches Some(b) ==> (b <==> exists|i: int|
                0 <= i < 10 && i < ranking.len() && stale.contains(#[trigger] ranking[i]))
            &&& s.no_answer_false_recall is Some <==> g.class == EvalQuestionClass::NoAnswer
            &&& s.no_answer_false_recall matches Some(b) ==> (b <==> exists|i: int|
                0 <= i < 10 && i < ranking.len() && negative.contains(#[trigger] ranking[i]))
            &&& s.relevant_selected == selected.to_set().intersect(gold.to_set()).len()
            &&& s.recall_at_5 == recall_ratio(gold, ranking, 5)
            &&& s.recall_at_10 == recall_ratio(gold, ranking, 10)
            &&& s.mrr == reciprocal_rank(gold, ranking)
            &&& s.evidence_per_input_token is Some <==> input_tokens is Some && input_tokens->0 > 0
            &&& s.evidence_per_input_token matches Some(r) ==> r.part == s.relevant_selected
                && Some(r.whole) == input_tokens
        }),
{
    let gold = text::texts(g.gold_evidence@);
    let chosen = text::distinct_sorted(selected);
    text::distinct_sorted_is_a_set(selected);
    hits_are_a_meeting(chosen, gold, chosen.len() as int);
    hits_at_most(chosen, gold, chosen.len() as int);
    assert(chosen.take(chosen.len() as int) =~= chosen);
    ten_meets_within(text::texts(g.stale_evidence@), ranking);
    ten_meets_within(text::texts(g.negative_evidence@), ranking);
}

proof fn ten_meets_within(list: Seq<Seq<char>>, ranking: Seq<Seq<char>>)
    ensures
        ten_meet(list, ranking) <==> exists|i: int|
            0 <= i < 10 && i < ranking.len() && list.contains(#[trigger] ranking[i]),
{
    let few = first_few(ranking, 10);
    first_hit_is_first(list, few, 0);
    if ten_meet(list, ranking) {
        let p = first_hit(list, few, 0)->0;
        assert(few[p] == ranking[p]);
        assert(list.contains(ranking[p]));
    }
    if exists|i: int| 0 <= i < 10 && i < ranking.len() && list.contains(#[trigger] ranking[i]) {
        let i = choose|i: int|
            0 <= i < 10 && i < ranking.len() && list.contains(#[trigger] ranking[i]);
        assert(few[i] == ranking[i]);
        assert(list.contains(few[i]));
    }
}

} // verus!
