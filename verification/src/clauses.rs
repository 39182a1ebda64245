//! The clauses of user messages, which are the only evidence that facts can be
//! drawn from, and the assistant messages that explain them.

use vstd::prelude::*;
use vstd::string::*;
use vstd::utf8::*;

use crate::digest::{self, bytes_sha256, hash_id, push_be, push_bytes};
use crate::model::EventRole;
use crate::text::{
    self, chars_of, is_white_space, lower, string_of, text_eq,
};

verus! {

/// An event of a session that is to be consolidated.
#[derive(Debug, PartialEq, Eq)]
pub struct ConsolidationEvent {
    pub event_id: String,
    pub turn_id: String,
    pub sequence: usize,
    pub role: EventRole,
    pub created_at: String,
    pub content: String,
    pub content_sha256: String,
}

impl Clone for ConsolidationEvent {
    fn clone(&self) -> (r: Self)
        ensures
            r == *self,
    {
        ConsolidationEvent {
            event_id: self.event_id.clone(),
            turn_id: self.turn_id.clone(),
            sequence: self.sequence,
            role: self.role,
            created_at: self.created_at.clone(),
            content: self.content.clone(),
            content_sha256: self.content_sha256.clone(),
        }
    }
}

/// Consecutive events of a session that are consolidated together.
#[derive(Debug, PartialEq, Eq)]
pub struct ConsolidationInputBatch {
    pub batch_key: String,
    pub session_id: String,
    pub watermark_before: usize,
    pub from_sequence: usize,
    pub through_sequence: usize,
    pub through_event_id: String,
    pub through_event_sha256: String,
    pub turn_count: usize,
    pub char_count: usize,
    pub events: Vec<ConsolidationEvent>,
}

#[derive(Debug, PartialEq, Eq)]
pub struct SourceClause {
    pub clause_id: String,
    pub span_id: String,
    pub event_id: String,
    pub start_char: usize,
    pub end_char: usize,
    pub text: String,
}

impl Clone for SourceClause {
    fn clone(&self) -> (r: Self)
        ensures
            r == *self,
    {
        SourceClause {
            clause_id: self.clause_id.clone(),
            span_id: self.span_id.clone(),
            event_id: self.event_id.clone(),
            start_char: self.start_char,
            end_char: self.end_char,
            text: self.text.clone(),
        }
    }
}

#[derive(Debug, PartialEq, Eq)]
pub struct AssistantContext {
    pub context_id: String,
    pub text: String,
    pub extractable: bool,
    pub assistant_event_id: String,
}

impl Clone for AssistantContext {
    fn clone(&self) -> (r: Self)
        ensures
            r == *self,
    {
        AssistantContext {
            context_id: self.context_id.clone(),
            text: self.text.clone(),
            extractable: self.extractable,
            assistant_event_id: self.assistant_event_id.clone(),
        }
    }
}

/// A value framed by its length in eight big-endian bytes.
pub open spec fn be_framed(value: Seq<u8>) -> Seq<u8> {
    digest::be_bytes(value.len(), 8) + value
}

/// The bytes that identify a piece of an event within a domain.
pub open spec fn piece_bytes(
    domain: Seq<char>,
    event_id: Seq<char>,
    start: usize,
    end: usize,
    text: Seq<char>,
) -> Seq<u8> {
    be_framed(encode_utf8(domain)) + be_framed(encode_utf8(event_id)) + be_framed(
        encode_utf8(text),
    ) + digest::be_bytes(start as nat, 8) + digest::be_bytes(end as nat, 8)
}

pub open spec fn piece_id(
    prefix: Seq<char>,
    domain: Seq<char>,
    event_id: Seq<char>,
    start: usize,
    end: usize,
    text: Seq<char>,
) -> Seq<char> {
    prefix + "_"@ + digest::sha256_hex(piece_bytes(domain, event_id, start, end, text))
}

pub open spec fn clause_id_text(
    event_id: Seq<char>,
    start: usize,
    end: usize,
    text: Seq<char>,
) -> Seq<char> {
    piece_id("clause"@, "hippocampus-clause-v1"@, event_id, start, end, text)
}

pub open spec fn span_id_text(
    event_id: Seq<char>,
    start: usize,
    end: usize,
    text: Seq<char>,
) -> Seq<char> {
    piece_id("span"@, "hippocampus-span-v1"@, event_id, start, end, text)
}

pub open spec fn context_id_text(event_id: Seq<char>, text: Seq<char>) -> Seq<char> {
    piece_id(
        "context"@,
        "hippocampus-assistant-context-v1"@,
        event_id,
        0,
        text.len() as usize,
        text,
    )
}

fn push_framed(out: &mut Vec<u8>, value: &[u8])
    ensures
        final(out)@ == old(out)@ + be_framed(value@),
{
    push_be(out, value.len() as u64);
    push_bytes(out, value);
    assert(out@ =~= old(out)@ + be_framed(value@));
}

fn deterministic_id(
    prefix: &str,
    domain: &str,
    event_id: &str,
    start: usize,
    end: usize,
    text: &str,
) -> (r: String)
    ensures
        r@ == piece_id(prefix@, domain@, event_id@, start, end, text@),
        digest::hash_id_shape(r@, prefix@ + "_"@),
{
    let mut bytes: Vec<u8> = Vec::new();
    push_framed(&mut bytes, domain.as_bytes());
    push_framed(&mut bytes, event_id.as_bytes());
    push_framed(&mut bytes, text.as_bytes());
    push_be(&mut bytes, start as u64);
    push_be(&mut bytes, end as u64);
    assert(bytes@ =~= piece_bytes(domain@, event_id@, start, end, text@));
    let mut out = prefix.to_owned();
    out.append("_");
    hash_id(out.as_str(), bytes_sha256(bytes.as_slice()).as_str())
}

/// The identifier of an assistant message as context.
pub fn assistant_context_id(event_id: &str, text: &str) -> (r: String)
    ensures
        r@ == context_id_text(event_id@, text@),
        digest::hash_id_shape(r@, "context_"@),
{
    proof {
        reveal_strlit("context");
        reveal_strlit("_");
        reveal_strlit("context_");
        assert("context"@ + "_"@ =~= "context_"@);
    }
    deterministic_id(
        "context",
        "hippocampus-assistant-context-v1",
        event_id,
        0,
        text.unicode_len(),
        text,
    )
}

/// The identifier of a span as evidence.
pub fn provenance_span_id(event_id: &str, start: usize, end: usize, text: &str) -> (r: String)
    ensures
        r@ == span_id_text(event_id@, start, end, text@),
        digest::hash_id_shape(r@, "span_"@),
{
    proof {
        reveal_strlit("span");
        reveal_strlit("_");
        reveal_strlit("span_");
        assert("span"@ + "_"@ =~= "span_"@);
    }
    deterministic_id("span", "hippocampus-span-v1", event_id, start, end, text)
}

/// A framed value can be told from what follows it.
pub proof fn be_framed_prefix(a: Seq<u8>, x: Seq<u8>, b: Seq<u8>, y: Seq<u8>)
    requires
        a.len() <= u64::MAX,
        b.len() <= u64::MAX,
        be_framed(a) + x == be_framed(b) + y,
    ensures
        a == b,
        x == y,
{
    let p = be_framed(a) + x;
    let q = be_framed(b) + y;
    digest::be_bytes_len(a.len(), 8);
    digest::be_bytes_len(b.len(), 8);
    assert(p.take(8) =~= digest::be_bytes(a.len(), 8));
    assert(q.take(8) =~= digest::be_bytes(b.len(), 8));
    digest::eight_bytes_range();
    digest::be_bytes_injective(a.len(), b.len(), 8);
    assert(p.subrange(8, 8 + a.len() as int) =~= a);
    assert(q.subrange(8, 8 + b.len() as int) =~= b);
    assert(p.skip(8 + a.len() as int) =~= x);
    assert(q.skip(8 + b.len() as int) =~= y);
}

/// Within a domain, what is hashed for an identifier tells pieces apart: it
/// determines the event, the range and the text.
pub proof fn piece_bytes_injective(
    domain: Seq<char>,
    e1: Seq<char>,
    s1: usize,
    t1: usize,
    x1: Seq<char>,
    e2: Seq<char>,
    s2: usize,
    t2: usize,
    x2: Seq<char>,
)
    requires
        piece_bytes(domain, e1, s1, t1, x1) == piece_bytes(domain, e2, s2, t2, x2),
        encode_utf8(domain).len() <= u64::MAX,
        encode_utf8(e1).len() <= u64::MAX,
        encode_utf8(e2).len() <= u64::MAX,
        encode_utf8(x1).len() <= u64::MAX,
        encode_utf8(x2).len() <= u64::MAX,
    ensures
        e1 == e2,
        s1 == s2,
        t1 == t2,
        x1 == x2,
{
    let d = encode_utf8(domain);
    let tail1 = digest::be_bytes(s1 as nat, 8) + digest::be_bytes(t1 as nat, 8);
    let tail2 = digest::be_bytes(s2 as nat, 8) + digest::be_bytes(t2 as nat, 8);
    let text1 = be_framed(encode_utf8(x1)) + tail1;
    let text2 = be_framed(encode_utf8(x2)) + tail2;
    let event1 = be_framed(encode_utf8(e1)) + text1;
    let event2 = be_framed(encode_utf8(e2)) + text2;
    assert(piece_bytes(domain, e1, s1, t1, x1) =~= be_framed(d) + event1);
    assert(piece_bytes(domain, e2, s2, t2, x2) =~= be_framed(d) + event2);
    be_framed_prefix(d, event1, d, event2);
    be_framed_prefix(encode_utf8(e1), text1, encode_utf8(e2), text2);
    be_framed_prefix(encode_utf8(x1), tail1, encode_utf8(x2), tail2);
    encode_utf8_decode_utf8(e1);
    encode_utf8_decode_utf8(e2);
    encode_utf8_decode_utf8(x1);
    encode_utf8_decode_utf8(x2);
    digest::be_bytes_len(s1 as nat, 8);
    digest::be_bytes_len(s2 as nat, 8);
    assert(tail1.take(8) =~= digest::be_bytes(s1 as nat, 8));
    assert(tail2.take(8) =~= digest::be_bytes(s2 as nat, 8));
    assert(tail1.skip(8) =~= digest::be_bytes(t1 as nat, 8));
    assert(tail2.skip(8) =~= digest::be_bytes(t2 as nat, 8));
    digest::eight_bytes_range();
    digest::be_bytes_injective(s1 as nat, s2 as nat, 8);
    digest::be_bytes_injective(t1 as nat, t2 as nat, 8);
}

/// The characters that end a clause.
pub open spec fn clause_end(c: char) -> bool {
    c == '.' || c == '。' || c == '!' || c == '！' || c == '?' || c == '？' || c == ';' || c
        == '；' || c == '\n' || c == '\r'
}

fn is_clause_end(c: char) -> (r: bool)
    ensures
        r == clause_end(c),
{
    c == '.' || c == '。' || c == '!' || c == '！' || c == '?' || c == '？' || c == ';' || c
        == '；' || c == '\n' || c == '\r'
}

/// Where the clause begins that is open after `n` characters.
pub open spec fn open_start(s: Seq<char>, n: int) -> int
    decreases n,
{
    if n <= 0 {
        0
    } else if clause_end(s[n - 1]) {
        n
    } else {
        open_start(s, n - 1)
    }
}

/// The clauses that end within the first `n` characters, with their ends.
pub open spec fn closed_ranges(s: Seq<char>, n: int) -> Seq<(int, int)>
    decreases n,
{
    if n <= 0 {
        Seq::empty()
    } else if clause_end(s[n - 1]) {
        closed_ranges(s, n - 1).push((open_start(s, n - 1), n))
    } else {
        closed_ranges(s, n - 1)
    }
}

/// The clauses of a text, untrimmed; the last one may lack an end.
pub open spec fn clause_ranges(s: Seq<char>) -> Seq<(int, int)> {
    let n = s.len() as int;
    if open_start(s, n) < n {
        closed_ranges(s, n).push((open_start(s, n), n))
    } else {
        closed_ranges(s, n)
    }
}

/// The first position from `a` on that is not white space.
pub open spec fn skip_white(s: Seq<char>, a: int, b: int) -> int
    decreases b - a,
{
    if a < b && text::white_space(s[a]) {
        skip_white(s, a + 1, b)
    } else {
        a
    }
}

/// The last position up to `b` that is not preceded by white space.
pub open spec fn drop_white(s: Seq<char>, a: int, b: int) -> int
    decreases b - a,
{
    if a < b && text::white_space(s[b - 1]) {
        drop_white(s, a, b - 1)
    } else {
        b
    }
}

/// A range without the white space around it.
pub open spec fn trimmed_range(s: Seq<char>, r: (int, int)) -> (int, int) {
    let a = skip_white(s, r.0, r.1);
    (a, drop_white(s, a, r.1))
}

/// The trimmed ranges that are not empty.
pub open spec fn kept_ranges(s: Seq<char>, ranges: Seq<(int, int)>) -> Seq<(int, int)>
    decreases ranges.len(),
{
    if ranges.len() == 0 {
        Seq::empty()
    } else {
        let rest = kept_ranges(s, ranges.drop_last());
        let r = trimmed_range(s, ranges.last());
        if r.0 < r.1 {
            rest.push(r)
        } else {
            rest
        }
    }
}

/// The ranges of the clauses of a text.
pub open spec fn clauses_in(s: Seq<char>) -> Seq<(int, int)> {
    kept_ranges(s, clause_ranges(s))
}

/// The clause of an event with a range and a text.
pub open spec fn is_clause(
    c: SourceClause,
    event_id: Seq<char>,
    start: usize,
    end: usize,
    text: Seq<char>,
) -> bool {
    &&& c.clause_id@ == clause_id_text(event_id, start, end, text)
    &&& c.span_id@ == span_id_text(event_id, start, end, text)
    &&& c.event_id@ == event_id
    &&& c.start_char == start
    &&& c.end_char == end
    &&& c.text@ == text
}

/// The clauses of one event.
pub open spec fn are_clauses_of(v: Seq<SourceClause>, event_id: Seq<char>, content: Seq<char>) -> bool {
    let ranges = clauses_in(content);
    &&& v.len() == ranges.len()
    &&& forall|i: int|
        0 <= i < v.len() ==> is_clause(
            #[trigger] v[i],
            event_id,
            ranges[i].0 as usize,
            ranges[i].1 as usize,
            content.subrange(ranges[i].0, ranges[i].1),
        )
}

fn source_clause(event_id: &str, start: usize, end: usize, text: String) -> (c: SourceClause)
    ensures
        is_clause(c, event_id@, start, end, text@),
        digest::hash_id_shape(c.clause_id@, "clause_"@),
        digest::hash_id_shape(c.span_id@, "span_"@),
{
    proof {
        reveal_strlit("clause");
        reveal_strlit("_");
        reveal_strlit("clause_");
        assert("clause"@ + "_"@ =~= "clause_"@);
    }
    SourceClause {
        clause_id: deterministic_id(
            "clause",
            "hippocampus-clause-v1",
            event_id,
            start,
            end,
            text.as_str(),
        ),
        span_id: provenance_span_id(event_id, start, end, text.as_str()),
        event_id: event_id.to_owned(),
        start_char: start,
        end_char: end,
        text,
    }
}

proof fn ranges_in_bounds(s: Seq<char>, n: int)
    requires
        0 <= n <= s.len(),
    ensures
        0 <= open_start(s, n) <= n,
        forall|i: int|
            0 <= i < closed_ranges(s, n).len() ==> 0 <= (#[trigger] closed_ranges(s, n)[i]).0
                < closed_ranges(s, n)[i].1 <= open_start(s, n),
        forall|i: int, j: int|
            0 <= i < j < closed_ranges(s, n).len() ==> (#[trigger] closed_ranges(s, n)[i]).1
                <= (#[trigger] closed_ranges(s, n)[j]).0,
    decreases n,
{
    if n > 0 {
        ranges_in_bounds(s, n - 1);
        let rest = closed_ranges(s, n - 1);
        let all = closed_ranges(s, n);
        if clause_end(s[n - 1]) {
            assert forall|i: int| 0 <= i < all.len() implies 0 <= (#[trigger] all[i]).0 < all[i].1
                <= open_start(s, n) by {
                if i < rest.len() {
                    assert(all[i] == rest[i]);
                }
            }
            assert forall|i: int, j: int| 0 <= i < j < all.len() implies (#[trigger] all[i]).1 <= (
            #[trigger] all[j]).0 by {
                assert(all[i] == rest[i]);
                if j < rest.len() {
                    assert(all[j] == rest[j]);
                }
            }
        }
    }
}

proof fn clause_ranges_in_bounds(s: Seq<char>)
    ensures
        forall|i: int|
            0 <= i < clause_ranges(s).len() ==> 0 <= (#[trigger] clause_ranges(s)[i]).0
                < clause_ranges(s)[i].1 <= s.len(),
        forall|i: int, j: int|
            0 <= i < j < clause_ranges(s).len() ==> (#[trigger] clause_ranges(s)[i]).1 <= (
            #[trigger] clause_ranges(s)[j]).0,
{
    let n = s.len() as int;
    ranges_in_bounds(s, n);
    let rest = closed_ranges(s, n);
    let all = clause_ranges(s);
    assert forall|i: int| 0 <= i < all.len() implies 0 <= (#[trigger] all[i]).0 < all[i].1
        <= s.len() by {
        if i < rest.len() {
            assert(all[i] == rest[i]);
        }
    }
    assert forall|i: int, j: int| 0 <= i < j < all.len() implies (#[trigger] all[i]).1 <= (
    #[trigger] all[j]).0 by {
        assert(all[i] == rest[i]);
        if j < rest.len() {
            assert(all[j] == rest[j]);
        }
    }
}

proof fn skip_white_bounds(s: Seq<char>, a: int, b: int)
    requires
        a <= b,
    ensures
        a <= skip_white(s, a, b) <= b,
        skip_white(s, a, b) < b ==> !text::white_space(s[skip_white(s, a, b)]),
    decreases b - a,
{
    if a < b && text::white_space(s[a]) {
        skip_white_bounds(s, a + 1, b);
    }
}

proof fn drop_white_bounds(s: Seq<char>, a: int, b: int)
    requires
        a <= b,
    ensures
        a <= drop_white(s, a, b) <= b,
        a < drop_white(s, a, b) ==> !text::white_space(s[drop_white(s, a, b) - 1]),
    decreases b - a,
{
    if a < b && text::white_space(s[b - 1]) {
        drop_white_bounds(s, a, b - 1);
    }
}

proof fn kept_ranges_sound(s: Seq<char>, ranges: Seq<(int, int)>)
    requires
        forall|i: int|
            0 <= i < ranges.len() ==> 0 <= (#[trigger] ranges[i]).0 <= ranges[i].1 <= s.len(),
        forall|i: int, j: int|
            0 <= i < j < ranges.len() ==> (#[trigger] ranges[i]).1 <= (#[trigger] ranges[j]).0,
    ensures
        forall|i: int|
            0 <= i < kept_ranges(s, ranges).len() ==> {
                let r = #[trigger] kept_ranges(s, ranges)[i];
                0 <= r.0 < r.1 <= s.len() && !text::white_space(s[r.0]) && !text::white_space(
                    s[r.1 - 1],
                ) && (ranges.len() > 0 ==> r.1 <= ranges.last().1)
            },
        forall|i: int, j: int|
            0 <= i < j < kept_ranges(s, ranges).len() ==> (#[trigger] kept_ranges(s, ranges)[i]).1
                <= (#[trigger] kept_ranges(s, ranges)[j]).0,
    decreases ranges.len(),
{
    if ranges.len() > 0 {
        let front = ranges.drop_last();
        assert forall|i: int, j: int| 0 <= i < j < front.len() implies (#[trigger] front[i]).1 <= (
        #[trigger] front[j]).0 by {
            assert(ranges[i].1 <= ranges[j].0);
        }
        assert forall|i: int| 0 <= i < front.len() implies 0 <= (#[trigger] front[i]).0
            <= front[i].1 <= s.len() by {
            assert(ranges[i].0 <= ranges[i].1);
        }
        kept_ranges_sound(s, front);
        let last = ranges.last();
        assert(0 <= ranges[ranges.len() - 1].0 <= ranges[ranges.len() - 1].1);
        skip_white_bounds(s, last.0, last.1);
        drop_white_bounds(s, skip_white(s, last.0, last.1), last.1);
        let rest = kept_ranges(s, front);
        let all = kept_ranges(s, ranges);
        let r = trimmed_range(s, last);
        if front.len() > 0 {
            assert(ranges[front.len() - 1].1 <= ranges[ranges.len() - 1].0);
        }
        assert forall|i: int| 0 <= i < all.len() implies {
            let x = #[trigger] all[i];
            0 <= x.0 < x.1 <= s.len() && !text::white_space(s[x.0]) && !text::white_space(
                s[x.1 - 1],
            ) && x.1 <= last.1
        } by {
            if i < rest.len() {
                assert(all[i] == rest[i]);
            }
        }
        assert forall|i: int, j: int| 0 <= i < j < all.len() implies (#[trigger] all[i]).1 <= (
        #[trigger] all[j]).0 by {
            assert(all[i] == rest[i]);
            if j < rest.len() {
                assert(all[j] == rest[j]);
            }
        }
    }
}

/// The clauses of a text lie within it, in order and apart from one another, and
/// neither begin nor end with white space.
pub proof fn clauses_are_sound(s: Seq<char>)
    ensures
        forall|i: int|
            0 <= i < clauses_in(s).len() ==> {
                let r = #[trigger] clauses_in(s)[i];
                0 <= r.0 < r.1 <= s.len() && !text::white_space(s[r.0]) && !text::white_space(
                    s[r.1 - 1],
                )
            },
        forall|i: int, j: int|
            0 <= i < j < clauses_in(s).len() ==> (#[trigger] clauses_in(s)[i]).1 <= (
            #[trigger] clauses_in(s)[j]).0,
{
    clause_ranges_in_bounds(s);
    kept_ranges_sound(s, clause_ranges(s));
}

pub open spec fn int_ranges(v: Seq<(usize, usize)>) -> Seq<(int, int)> {
    Seq::new(v.len(), |i: int| (v[i].0 as int, v[i].1 as int))
}

fn find_clause_ranges(chars: &Vec<char>) -> (r: Vec<(usize, usize)>)
    ensures
        int_ranges(r@) == clause_ranges(chars@),
{
    let mut out: Vec<(usize, usize)> = Vec::new();
    let mut start: usize = 0;
    let mut i: usize = 0;
    assert(int_ranges(out@) =~= Seq::empty());
    while i < chars.len()
        invariant
            i <= chars@.len(),
            start == open_start(chars@, i as int),
            int_ranges(out@) == closed_ranges(chars@, i as int),
        decreases chars.len() - i,
    {
        if is_clause_end(chars[i]) {
            let ghost before = int_ranges(out@);
            out.push((start, i + 1));
            assert(int_ranges(out@) =~= before.push((start as int, i + 1)));
            start = i + 1;
        }
        i += 1;
    }
    if start < chars.len() {
        let ghost before = int_ranges(out@);
        out.push((start, chars.len()));
        assert(int_ranges(out@) =~= before.push((start as int, chars@.len() as int)));
    }
    out
}

fn trim_range(chars: &Vec<char>, range: (usize, usize)) -> (r: (usize, usize))
    requires
        range.0 <= range.1 <= chars@.len(),
    ensures
        (r.0 as int, r.1 as int) == trimmed_range(
            chars@,
            (range.0 as int, range.1 as int),
        ),
        r.0 <= r.1 <= chars@.len(),
{
    let mut a: usize = range.0;
    while a < range.1 && is_white_space(chars[a])
        invariant
            range.0 <= a <= range.1 <= chars@.len(),
            skip_white(chars@, range.0 as int, range.1 as int) == skip_white(
                chars@,
                a as int,
                range.1 as int,
            ),
        decreases range.1 - a,
    {
        a += 1;
    }
    let mut b: usize = range.1;
    while b > a && is_white_space(chars[b - 1])
        invariant
            a <= b <= range.1 <= chars@.len(),
            drop_white(chars@, a as int, range.1 as int) == drop_white(
                chars@,
                a as int,
                b as int,
            ),
        decreases b - a,
    {
        b -= 1;
    }
    (a, b)
}

/// Splits an event into its clauses.
pub fn split_event_clauses(event_id: &str, content: &str) -> (r: Vec<SourceClause>)
    ensures
        are_clauses_of(r@, event_id@, content@),
{
    let chars = chars_of(content);
    let ranges = find_clause_ranges(&chars);
    let ghost all = clause_ranges(content@);
    proof {
        clause_ranges_in_bounds(content@);
    }
    let mut out: Vec<SourceClause> = Vec::new();
    let mut i: usize = 0;
    assert(all.take(0) =~= Seq::empty());
    while i < ranges.len()
        invariant
            i <= ranges@.len(),
            chars@ == content@,
            all == clause_ranges(content@),
            int_ranges(ranges@) == all,
            forall|k: int|
                0 <= k < all.len() ==> 0 <= (#[trigger] all[k]).0 < all[k].1 <= content@.len(),
            out@.len() == kept_ranges(content@, all.take(i as int)).len(),
            forall|k: int|
                0 <= k < out@.len() ==> is_clause(
                    #[trigger] out@[k],
                    event_id@,
                    kept_ranges(content@, all.take(i as int))[k].0 as usize,
                    kept_ranges(content@, all.take(i as int))[k].1 as usize,
                    content@.subrange(
                        kept_ranges(content@, all.take(i as int))[k].0,
                        kept_ranges(content@, all.take(i as int))[k].1,
                    ),
                ),
        decreases ranges.len() - i,
    {
        proof {
            assert(all.take(i + 1).drop_last() =~= all.take(i as int));
            assert(all.take(i + 1).last() == all[i as int]);
            assert(all[i as int] == (ranges@[i as int].0 as int, ranges@[i as int].1 as int));
        }
        let (start, end) = trim_range(&chars, ranges[i]);
        if start < end {
            let ghost before = out@;
            let ghost kept = kept_ranges(content@, all.take(i as int));
            out.push(source_clause(event_id, start, end, string_of(&chars, start, end)));
            proof {
                let now = kept_ranges(content@, all.take(i + 1));
                assert(now == kept.push((start as int, end as int)));
                assert forall|k: int| 0 <= k < out@.len() implies is_clause(
                    #[trigger] out@[k],
                    event_id@,
                    now[k].0 as usize,
                    now[k].1 as usize,
                    content@.subrange(now[k].0, now[k].1),
                ) by {
                    if k < before.len() {
                        assert(out@[k] == before[k]);
                        assert(now[k] == kept[k]);
                    }
                }
            }
        }
        i += 1;
    }
    assert(all.take(i as int) =~= all);
    out
}

/// The clauses of the user events among the first `n`, in order.
pub open spec fn batch_clauses(events: Seq<ConsolidationEvent>, n: int, v: Seq<SourceClause>) -> bool
    decreases n,
{
    if n <= 0 {
        v.len() == 0
    } else if events[n - 1].role != EventRole::User {
        batch_clauses(events, n - 1, v)
    } else {
        let own = clauses_in(events[n - 1].content@).len();
        &&& own <= v.len()
        &&& batch_clauses(events, n - 1, v.take(v.len() - own))
        &&& are_clauses_of(
            v.skip(v.len() - own),
            events[n - 1].event_id@,
            events[n - 1].content@,
        )
    }
}

/// The clauses of all user events of a batch; no other event is a source.
pub fn source_clauses(batch: &ConsolidationInputBatch) -> (r: Vec<SourceClause>)
    ensures
        batch_clauses(batch.events@, batch.events@.len() as int, r@),
{
    let mut out: Vec<SourceClause> = Vec::new();
    let mut i: usize = 0;
    while i < batch.events.len()
        invariant
            i <= batch.events@.len(),
            batch_clauses(batch.events@, i as int, out@),
        decreases batch.events.len() - i,
    {
        if batch.events[i].role == EventRole::User {
            let ghost before = out@;
            let mut own = split_event_clauses(
                batch.events[i].event_id.as_str(),
                batch.events[i].content.as_str(),
            );
            let ghost added = own@;
            out.append(&mut own);
            proof {
                assert(out@.take(out@.len() - added.len()) =~= before);
                assert(out@.skip(out@.len() - added.len()) =~= added);
            }
        }
        i += 1;
    }
    out
}

/// A context by what it says.
pub struct ContextModel {
    pub context_id: Seq<char>,
    pub text: Seq<char>,
    pub extractable: bool,
    pub assistant_event_id: Seq<char>,
}

pub open spec fn context_model(c: AssistantContext) -> ContextModel {
    ContextModel {
        context_id: c.context_id@,
        text: c.text@,
        extractable: c.extractable,
        assistant_event_id: c.assistant_event_id@,
    }
}

pub open spec fn context_models(v: Seq<AssistantContext>) -> Seq<ContextModel> {
    Seq::new(v.len(), |i: int| context_model(v[i]))
}

/// The assistant event that the next user event may refer to.
pub open spec fn pending_context(events: Seq<ConsolidationEvent>, n: int) -> Option<int>
    decreases n,
{
    if n <= 0 {
        None
    } else {
        match events[n - 1].role {
            EventRole::Assistant => Some(n - 1),
            EventRole::User => None,
            EventRole::System => pending_context(events, n - 1),
        }
    }
}

pub open spec fn context_of(e: ConsolidationEvent) -> ContextModel {
    ContextModel {
        context_id: context_id_text(e.event_id@, e.content@),
        text: e.content@,
        extractable: false,
        assistant_event_id: e.event_id@,
    }
}

/// The contexts of the first `n` events: for every user event the assistant
/// event before it.
pub open spec fn contexts_of(events: Seq<ConsolidationEvent>, n: int) -> Seq<ContextModel>
    decreases n,
{
    if n <= 0 {
        Seq::empty()
    } else {
        let rest = contexts_of(events, n - 1);
        match (events[n - 1].role, pending_context(events, n - 1)) {
            (EventRole::User, Some(p)) => rest.push(context_of(events[p])),
            _ => rest,
        }
    }
}

/// The assistant messages that user messages of a batch may refer to. They are
/// never extractable.
pub fn assistant_contexts(batch: &ConsolidationInputBatch) -> (r: Vec<AssistantContext>)
    ensures
        context_models(r@) == contexts_of(batch.events@, batch.events@.len() as int),
{
    let events = &batch.events;
    let mut out: Vec<AssistantContext> = Vec::new();
    let mut previous: Option<usize> = None;
    let mut i: usize = 0;
    assert(context_models(out@) =~= Seq::empty());
    while i < events.len()
        invariant
            i <= events@.len(),
            match previous {
                Some(p) => p < i && pending_context(events@, i as int) == Some(p as int),
                None => pending_context(events@, i as int) is None,
            },
            context_models(out@) == contexts_of(events@, i as int),
        decreases events.len() - i,
    {
        match events[i].role {
            EventRole::Assistant => previous = Some(i),
            EventRole::User => {
                if let Some(p) = previous {
                    let ghost before = context_models(out@);
                    let e = &events[p];
                    out.push(
                        AssistantContext {
                            context_id: assistant_context_id(
                                e.event_id.as_str(),
                                e.content.as_str(),
                            ),
                            text: e.content.clone(),
                            extractable: false,
                            assistant_event_id: e.event_id.clone(),
                        },
                    );
                    assert(context_models(out@) =~= before.push(context_of(events@[p as int])));
                }
                previous = None;
            },
            EventRole::System => {},
        }
        i += 1;
    }
    out
}

/// The characters of the first `n` clauses.
pub open spec fn clause_chars(v: Seq<SourceClause>, n: int) -> nat
    decreases n,
{
    if n <= 0 {
        0
    } else {
        clause_chars(v, n - 1) + v[n - 1].text@.len()
    }
}

/// The first split from `k` on at which the front holds at least half of all
/// characters; the last one leaves one clause for the back.
pub open spec fn half_split(v: Seq<SourceClause>, k: int) -> int
    decreases v.len() - k,
{
    if k >= v.len() - 1 || 2 * clause_chars(v, k) >= clause_chars(v, v.len() as int) {
        k
    } else {
        half_split(v, k + 1)
    }
}

proof fn clause_chars_grow(v: Seq<SourceClause>, a: int, b: int)
    requires
        a <= b,
    ensures
        clause_chars(v, a) <= clause_chars(v, b),
    decreases b - a,
{
    if a < b {
        clause_chars_grow(v, a, b - 1);
        if b <= 0 {
            assert(clause_chars(v, a) == 0);
        }
    }
}

proof fn half_split_bounds(v: Seq<SourceClause>, k: int)
    requires
        1 <= k < v.len(),
    ensures
        k <= half_split(v, k) < v.len(),
    decreases v.len() - k,
{
    if k < v.len() - 1 && 2 * clause_chars(v, k) < clause_chars(v, v.len() as int) {
        half_split_bounds(v, k + 1);
    }
}

fn copy_clauses(v: &Vec<SourceClause>, from: usize, to: usize) -> (r: Vec<SourceClause>)
    requires
        from <= to <= v@.len(),
    ensures
        r@ == v@.subrange(from as int, to as int),
{
    let mut out: Vec<SourceClause> = Vec::new();
    let mut i: usize = from;
    while i < to
        invariant
            from <= i <= to <= v@.len(),
            out@ == v@.subrange(from as int, i as int),
        decreases to - i,
    {
        out.push(v[i].clone());
        assert(out@ =~= v@.subrange(from as int, i + 1));
        i += 1;
    }
    out
}

/// The punctuation at which a clause can be cut in two.
pub open spec fn weak_mark(c: char) -> bool {
    c == '，' || c == ',' || c == '、' || c == ':' || c == '：'
}

fn is_weak_mark(c: char) -> (r: bool)
    ensures
        r == weak_mark(c),
{
    c == '，' || c == ',' || c == '、' || c == ':' || c == '：'
}

pub open spec fn distance(a: int, b: int) -> int {
    if a < b {
        b - a
    } else {
        a - b
    }
}

/// The cut behind a weak mark among the first `n` characters that is nearest to
/// the middle; the first of several.
pub open spec fn nearest_cut(s: Seq<char>, n: int) -> Option<int>
    decreases n,
{
    if n <= 0 {
        None
    } else {
        let best = nearest_cut(s, n - 1);
        if !weak_mark(s[n - 1]) {
            best
        } else {
            let middle = s.len() as int / 2;
            match best {
                Some(b) => if distance(n, middle) < distance(b, middle) {
                    Some(n)
                } else {
                    best
                },
                None => Some(n),
            }
        }
    }
}

pub open spec fn least(a: int, b: int) -> int {
    if a < b {
        a
    } else {
        b
    }
}

/// Where a single clause is cut: the end of the front, and the start of the
/// back. Without a mark a long clause is cut in the middle, with an overlap.
pub open spec fn single_cut(s: Seq<char>) -> Option<(int, int)> {
    let n = s.len() as int;
    let middle = n / 2;
    let mark = nearest_cut(s, n);
    if n < 2 {
        None
    } else if mark is Some && 0 < mark->0 < n {
        Some((mark->0, mark->0))
    } else if n <= 64 {
        None
    } else {
        let overlap = least(32, least(middle, n - middle));
        Some((middle + overlap, middle - overlap))
    }
}

fn find_nearest_cut(chars: &Vec<char>) -> (r: Option<usize>)
    ensures
        match r {
            Some(c) => nearest_cut(chars@, chars@.len() as int) == Some(c as int) && 0 < c
                <= chars@.len(),
            None => nearest_cut(chars@, chars@.len() as int) is None,
        },
{
    let middle = chars.len() / 2;
    let mut best: Option<usize> = None;
    let mut i: usize = 0;
    while i < chars.len()
        invariant
            i <= chars@.len(),
            middle == chars@.len() as int / 2,
            match best {
                Some(c) => nearest_cut(chars@, i as int) == Some(c as int) && 0 < c <= i,
                None => nearest_cut(chars@, i as int) is None,
            },
        decreases chars.len() - i,
    {
        if is_weak_mark(chars[i]) {
            let cut = i + 1;
            let far = if cut < middle {
                middle - cut
            } else {
                cut - middle
            };
            let nearer = match best {
                Some(b) => far < (if b < middle {
                    middle - b
                } else {
                    b - middle
                }),
                None => true,
            };
            if nearer {
                best = Some(cut);
            }
        }
        i += 1;
    }
    best
}

fn find_single_cut(chars: &Vec<char>) -> (r: Option<(usize, usize)>)
    ensures
        match r {
            Some(c) => single_cut(chars@) == Some((c.0 as int, c.1 as int)) && c.0 <= chars@.len()
                && c.1 <= chars@.len(),
            None => single_cut(chars@) is None,
        },
{
    let n = chars.len();
    if n < 2 {
        return None;
    }
    let middle = n / 2;
    if let Some(cut) = find_nearest_cut(chars) {
        if cut < n {
            return Some((cut, cut));
        }
    }
    if n <= 64 {
        return None;
    }
    let back = n - middle;
    let half = if middle < back {
        middle
    } else {
        back
    };
    let overlap: usize = if 32 < half {
        32
    } else {
        half
    };
    Some((middle + overlap, middle - overlap))
}

/// The two halves of a single clause, if it can be cut into two that both differ
/// from it.
pub open spec fn single_split(c: SourceClause, r: Option<(Vec<SourceClause>, Vec<SourceClause>)>) ->
    bool {
    let s = c.text@;
    let n = s.len() as int;
    match single_cut(s) {
        Some((front, back)) => if s.take(front) == s || s.skip(back) == s {
            r is None
        } else {
            &&& r matches Some((left, right))
            &&& left@.len() == 1 && right@.len() == 1
            &&& is_clause(
                left@[0],
                c.event_id@,
                c.start_char,
                (c.start_char + front) as usize,
                s.take(front),
            )
            &&& is_clause(
                right@[0],
                c.event_id@,
                (c.start_char + back) as usize,
                c.end_char,
                s.skip(back),
            )
        },
        None => r is None,
    }
}

fn split_single_clause(c: &SourceClause) -> (r: Option<(Vec<SourceClause>, Vec<SourceClause>)>)
    requires
        c.start_char + c.text@.len() <= usize::MAX,
    ensures
        single_split(*c, r),
{
    let chars = chars_of(c.text.as_str());
    match find_single_cut(&chars) {
        None => None,
        Some((front, back)) => {
            let left_text = string_of(&chars, 0, front);
            let right_text = string_of(&chars, back, chars.len());
            assert(left_text@ =~= c.text@.take(front as int));
            assert(right_text@ =~= c.text@.skip(back as int));
            if text_eq(left_text.as_str(), c.text.as_str()) || text_eq(
                right_text.as_str(),
                c.text.as_str(),
            ) {
                return None;
            }
            let mut left: Vec<SourceClause> = Vec::new();
            left.push(
                source_clause(c.event_id.as_str(), c.start_char, c.start_char + front, left_text),
            );
            let mut right: Vec<SourceClause> = Vec::new();
            right.push(
                source_clause(c.event_id.as_str(), c.start_char + back, c.end_char, right_text),
            );
            Some((left, right))
        },
    }
}

/// Splits the clauses of a request in two: several clauses by their number of
/// characters, a single one within itself.
pub fn split_clause_work(clauses: &Vec<SourceClause>) -> (r: Option<
    (Vec<SourceClause>, Vec<SourceClause>),
>)
    requires
        clause_chars(clauses@, clauses@.len() as int) <= usize::MAX,
        clauses@.len() == 1 ==> clauses@[0].start_char + clauses@[0].text@.len() <= usize::MAX,
    ensures
        clauses@.len() == 0 ==> r is None,
        clauses@.len() == 1 ==> single_split(clauses@[0], r),
        clauses@.len() > 1 ==> (r matches Some((left, right)) && 0 < half_split(clauses@, 1)
            < clauses@.len() && left@ == clauses@.take(half_split(clauses@, 1)) && right@
            == clauses@.skip(half_split(clauses@, 1))),
{
    if clauses.len() == 0 {
        return None;
    }
    if clauses.len() == 1 {
        return split_single_clause(&clauses[0]);
    }
    let ghost n = clauses@.len() as int;
    proof {
        half_split_bounds(clauses@, 1);
    }
    let mut total: usize = 0;
    let mut i: usize = 0;
    while i < clauses.len()
        invariant
            i <= clauses@.len(),
            n == clauses@.len(),
            total == clause_chars(clauses@, i as int),
            clause_chars(clauses@, n) <= usize::MAX,
        decreases clauses.len() - i,
    {
        proof {
            clause_chars_grow(clauses@, i + 1, n);
        }
        total = total + clauses[i].text.as_str().unicode_len();
        i += 1;
    }
    let mut k: usize = 1;
    let mut front: usize = clauses[0].text.as_str().unicode_len();
    assert(clause_chars(clauses@, 1) == clause_chars(clauses@, 0) + clauses@[0].text@.len());
    proof {
        clause_chars_grow(clauses@, 1, n);
    }
    while k < clauses.len() - 1 && front < total - front
        invariant
            1 <= k < clauses@.len(),
            n == clauses@.len(),
            total == clause_chars(clauses@, n),
            front == clause_chars(clauses@, k as int),
            front <= total,
            half_split(clauses@, 1) == half_split(clauses@, k as int),
        decreases clauses.len() - k,
    {
        proof {
            clause_chars_grow(clauses@, k + 1, n);
        }
        front = front + clauses[k].text.as_str().unicode_len();
        k += 1;
    }
    let left = copy_clauses(clauses, 0, k);
    let right = copy_clauses(clauses, k, clauses.len());
    assert(left@ =~= clauses@.take(k as int));
    assert(right@ =~= clauses@.skip(k as int));
    Some((left, right))
}

/// Splitting several clauses loses none and keeps their order, and both halves
/// hold some.
pub proof fn split_work_is_complete(v: Seq<SourceClause>)
    requires
        v.len() > 1,
    ensures
        v.take(half_split(v, 1)) + v.skip(half_split(v, 1)) == v,
        v.take(half_split(v, 1)).len() > 0,
        v.skip(half_split(v, 1)).len() > 0,
{
    half_split_bounds(v, 1);
    assert(v.take(half_split(v, 1)) + v.skip(half_split(v, 1)) =~= v);
}

/// The two halves of a single clause cover it together.
pub proof fn single_cut_covers(s: Seq<char>)
    ensures
        single_cut(s) matches Some((front, back)) ==> 0 <= back <= front <= s.len(),
{
}

/// The text without white space around it.
pub open spec fn trimmed(s: Seq<char>) -> Seq<char> {
    let r = trimmed_range(s, (0, s.len() as int));
    s.subrange(r.0, r.1)
}

/// White space and the marks that end a sentence.
pub open spec fn sentence_margin(c: char) -> bool {
    text::white_space(c) || c == '。' || c == '.' || c == '！' || c == '!' || c == '？' || c == '?'
}

pub open spec fn skip_margin(s: Seq<char>, a: int, b: int) -> int
    decreases b - a,
{
    if a < b && sentence_margin(s[a]) {
        skip_margin(s, a + 1, b)
    } else {
        a
    }
}

pub open spec fn drop_margin(s: Seq<char>, a: int, b: int) -> int
    decreases b - a,
{
    if a < b && sentence_margin(s[b - 1]) {
        drop_margin(s, a, b - 1)
    } else {
        b
    }
}

/// The text without white space and sentence marks around it.
pub open spec fn stripped(s: Seq<char>) -> Seq<char> {
    let a = skip_margin(s, 0, s.len() as int);
    s.subrange(a, drop_margin(s, a, s.len() as int))
}

/// Answers that mean something only together with what they answer.
pub open spec fn is_confirmation(s: Seq<char>) -> bool {
    s == "对"@ || s == "是"@ || s == "是的"@ || s == "没错"@ || s == "不是"@ || s == "不对"@ || s
        == "yes"@ || s == "no"@ || s == "correct"@
}

pub open spec fn is_greeting(s: Seq<char>) -> bool {
    s == "你好"@ || s == "您好"@ || s == "嗨"@ || s == "谢谢"@ || s == "感谢"@ || s == "再见"@ || s
        == "hi"@ || s == "hello"@ || s == "thanks"@ || s == "thank you"@ || s == "bye"@
}

/// A mark that separates parts of a sentence.
pub open spec fn part_mark(c: char) -> bool {
    c == '，' || c == ',' || c == '；' || c == ';' || c == '。' || c == '.'
}

/// A question that states nothing on the side.
pub open spec fn bare_question(s: Seq<char>) -> bool {
    s.len() > 0 && (s.last() == '?' || s.last() == '？') && forall|i: int|
        0 <= i < s.len() ==> !part_mark(#[trigger] s[i])
}

/// Whether a trimmed clause certainly states nothing, given its bare words in
/// lower case.
pub open spec fn states_nothing(clause: Seq<char>, words: Seq<char>, has_context: bool) -> bool {
    if clause.len() == 0 {
        true
    } else if has_context && is_confirmation(words) {
        false
    } else {
        is_greeting(words) || bare_question(clause)
    }
}

fn confirmation(s: &str) -> (r: bool)
    ensures
        r == is_confirmation(s@),
{
    text_eq(s, "对") || text_eq(s, "是") || text_eq(s, "是的") || text_eq(s, "没错") || text_eq(
        s,
        "不是",
    ) || text_eq(s, "不对") || text_eq(s, "yes") || text_eq(s, "no") || text_eq(s, "correct")
}

fn greeting(s: &str) -> (r: bool)
    ensures
        r == is_greeting(s@),
{
    text_eq(s, "你好") || text_eq(s, "您好") || text_eq(s, "嗨") || text_eq(s, "谢谢") || text_eq(
        s,
        "感谢",
    ) || text_eq(s, "再见") || text_eq(s, "hi") || text_eq(s, "hello") || text_eq(s, "thanks")
        || text_eq(s, "thank you") || text_eq(s, "bye")
}

fn asks_only(s: &str) -> (r: bool)
    ensures
        r == bare_question(s@),
{
    let chars = chars_of(s);
    let n = chars.len();
    if n == 0 || (chars[n - 1] != '?' && chars[n - 1] != '？') {
        return false;
    }
    let mut i: usize = 0;
    while i < n
        invariant
            i <= n,
            n == chars@.len(),
            chars@ == s@,
            forall|k: int| 0 <= k < i ==> !part_mark(#[trigger] s@[k]),
        decreases n - i,
    {
        let c = chars[i];
        if c == '，' || c == ',' || c == '；' || c == ';' || c == '。' || c == '.' {
            assert(part_mark(s@[i as int]));
            return false;
        }
        i += 1;
    }
    true
}

/// Judges a trimmed clause by itself and its bare words in lower case.
pub fn judge_clause(clause: &str, words: &str, has_context: bool) -> (r: bool)
    ensures
        r == states_nothing(clause@, words@, has_context),
{
    if clause.unicode_len() == 0 {
        return true;
    }
    if has_context && confirmation(words) {
        return false;
    }
    greeting(words) || asks_only(clause)
}

pub fn trim(s: &str) -> (r: String)
    ensures
        r@ == trimmed(s@),
{
    let chars = chars_of(s);
    let (a, b) = trim_range(&chars, (0, chars.len()));
    string_of(&chars, a, b)
}

fn margin(c: char) -> (r: bool)
    ensures
        r == sentence_margin(c),
{
    is_white_space(c) || c == '。' || c == '.' || c == '！' || c == '!' || c == '？' || c == '?'
}

/// A text without white space and sentence marks around it.
pub fn strip(s: &str) -> (r: String)
    ensures
        r@ == stripped(s@),
{
    let chars = chars_of(s);
    let n = chars.len();
    let mut a: usize = 0;
    while a < n && margin(chars[a])
        invariant
            a <= n,
            n == chars@.len(),
            chars@ == s@,
            skip_margin(s@, 0, n as int) == skip_margin(s@, a as int, n as int),
        decreases n - a,
    {
        a += 1;
    }
    let mut b: usize = n;
    while b > a && margin(chars[b - 1])
        invariant
            a <= b <= n,
            n == chars@.len(),
            chars@ == s@,
            drop_margin(s@, a as int, n as int) == drop_margin(s@, a as int, b as int),
        decreases b - a,
    {
        b -= 1;
    }
    string_of(&chars, a, b)
}

pub open spec fn clause_states_nothing(s: Seq<char>, has_context: bool) -> bool {
    states_nothing(trimmed(s), text::lowercased(stripped(trimmed(s))), has_context)
}

fn clause_is_unambiguously_nonassertive(s: &str, has_assistant_context: bool) -> (r: bool)
    ensures
        r == clause_states_nothing(s@, has_assistant_context),
{
    let clause = trim(s);
    let words = lower(strip(clause.as_str()).as_str());
    judge_clause(clause.as_str(), words.as_str(), has_assistant_context)
}

/// Whether clauses certainly hold no fact, so that no model need be asked. A
/// confirmation is never judged so while there is something to confirm.
pub fn is_deterministic_empty(clauses: &Vec<SourceClause>, has_assistant_context: bool) -> (r: bool)
    ensures
        r == (clauses@.len() > 0 && forall|i: int|
            0 <= i < clauses@.len() ==> clause_states_nothing(
                (#[trigger] clauses@[i]).text@,
                has_assistant_context,
            )),
{
    if clauses.len() == 0 {
        return false;
    }
    let mut i: usize = 0;
    while i < clauses.len()
        invariant
            i <= clauses@.len(),
            forall|k: int|
                0 <= k < i ==> clause_states_nothing(
                    (#[trigger] clauses@[k]).text@,
                    has_assistant_context,
                ),
        decreases clauses.len() - i,
    {
        if !clause_is_unambiguously_nonassertive(clauses[i].text.as_str(), has_assistant_context) {
            return false;
        }
        i += 1;
    }
    true
}

} // verus!
