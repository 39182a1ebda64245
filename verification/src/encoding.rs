//! A canonical encoding of messages and suggestions: tagged values, each
//! framed by its length, with a count before every list.

use vstd::prelude::*;
use vstd::string::*;
use vstd::utf8::*;

use crate::digest::{self, push_le, push_le32, PartHasher};
use crate::model::EventRole;
use crate::text;

verus! {

/// What is encoded of a message.
pub struct MessageFacts {
    pub document_id: Seq<char>,
    pub event_id: Seq<char>,
    pub sequence: u64,
    pub role: EventRole,
    pub span_event_id: Seq<char>,
    pub span_start: u64,
    pub span_end: u64,
    pub content_sha256: Seq<char>,
    pub created_at: Seq<char>,
    pub entities: Seq<Seq<char>>,
    pub embedding: Option<Seq<u32>>,
}

/// The reasons that were given for a boundary before an event.
pub struct SuggestionFacts {
    pub event: Seq<char>,
    pub reasons: Seq<Seq<char>>,
}

pub open spec fn role_tag(role: EventRole) -> u8 {
    match role {
        EventRole::System => 0,
        EventRole::User => 1,
        EventRole::Assistant => 2,
    }
}

pub fn tag_role(role: EventRole) -> (r: u8)
    ensures
        r == role_tag(role),
{
    match role {
        EventRole::System => 0,
        EventRole::User => 1,
        EventRole::Assistant => 2,
    }
}

/// Parts with one more tagged value.
pub open spec fn with_field(p: Seq<Seq<u8>>, tag: Seq<char>, value: Seq<u8>) -> Seq<Seq<u8>> {
    p.push(encode_utf8(tag)).push(value)
}

pub open spec fn with_text(p: Seq<Seq<u8>>, tag: Seq<char>, value: Seq<char>) -> Seq<Seq<u8>> {
    with_field(p, tag, encode_utf8(value))
}

pub open spec fn with_number(p: Seq<Seq<u8>>, tag: Seq<char>, value: nat) -> Seq<Seq<u8>> {
    with_field(p, tag, digest::le_bytes(value, 8))
}

pub open spec fn with_byte(p: Seq<Seq<u8>>, tag: Seq<char>, value: u8) -> Seq<Seq<u8>> {
    with_field(p, tag, seq![value])
}

pub open spec fn presence(b: bool) -> u8 {
    if b {
        1
    } else {
        0
    }
}

pub open spec fn with_opt_number(p: Seq<Seq<u8>>, tag: Seq<char>, value: Option<u64>) -> Seq<
    Seq<u8>,
> {
    let marked = with_byte(p, tag + "_present"@, presence(value is Some));
    match value {
        Some(n) => with_number(marked, tag, n as nat),
        None => marked,
    }
}

pub open spec fn with_opt_text(
    p: Seq<Seq<u8>>,
    tag: Seq<char>,
    value: Option<Seq<char>>,
) -> Seq<Seq<u8>> {
    let marked = with_byte(p, tag + "_present"@, presence(value is Some));
    match value {
        Some(s) => with_text(marked, tag, s),
        None => marked,
    }
}

/// Parts with the first `n` texts under one tag.
pub open spec fn with_texts(
    p: Seq<Seq<u8>>,
    tag: Seq<char>,
    v: Seq<Seq<char>>,
    n: int,
) -> Seq<Seq<u8>>
    decreases n,
{
    if n <= 0 {
        p
    } else {
        with_text(with_texts(p, tag, v, n - 1), tag, v[n - 1])
    }
}

/// Parts with the bits of the first `n` numbers under one tag.
pub open spec fn with_values(p: Seq<Seq<u8>>, tag: Seq<char>, v: Seq<u32>, n: int) -> Seq<Seq<u8>>
    decreases n,
{
    if n <= 0 {
        p
    } else {
        with_field(
            with_values(p, tag, v, n - 1),
            tag,
            digest::le_bytes(v[n - 1] as nat, 4),
        )
    }
}

/// Parts with what identifies a message.
pub open spec fn with_member(p: Seq<Seq<u8>>, tag: Seq<char>, m: MessageFacts) -> Seq<Seq<u8>> {
    let a = with_text(p, tag + ".document_id"@, m.document_id);
    let b = with_text(a, tag + ".event_id"@, m.event_id);
    let c = with_number(b, tag + ".sequence"@, m.sequence as nat);
    let d = with_byte(c, tag + ".role"@, role_tag(m.role));
    let e = with_text(d, tag + ".span.event_id"@, m.span_event_id);
    let f = with_number(e, tag + ".span.start"@, m.span_start as nat);
    let g = with_number(f, tag + ".span.end"@, m.span_end as nat);
    with_text(g, tag + ".content_sha256"@, m.content_sha256)
}

pub open spec fn with_embedding(
    p: Seq<Seq<u8>>,
    tag: Seq<char>,
    embedding: Option<Seq<u32>>,
) -> Seq<Seq<u8>> {
    let marked = with_byte(p, tag + ".embedding.present"@, presence(embedding is Some));
    match embedding {
        Some(v) => with_values(
            with_number(marked, tag + ".embedding.count"@, v.len()),
            tag + ".embedding.value"@,
            v,
            v.len() as int,
        ),
        None => marked,
    }
}

/// Parts with a list of texts and their count.
pub open spec fn with_list(
    p: Seq<Seq<u8>>,
    count_tag: Seq<char>,
    tag: Seq<char>,
    v: Seq<Seq<char>>,
) -> Seq<Seq<u8>> {
    with_texts(with_number(p, count_tag, v.len()), tag, v, v.len() as int)
}

/// Parts with a message.
pub open spec fn with_message(p: Seq<Seq<u8>>, tag: Seq<char>, m: MessageFacts) -> Seq<Seq<u8>> {
    let dated = with_text(with_member(p, tag, m), tag + ".created_at"@, m.created_at);
    with_embedding(
        with_list(dated, tag + ".entities.count"@, tag + ".entity"@, m.entities),
        tag,
        m.embedding,
    )
}

pub open spec fn with_opt_message(
    p: Seq<Seq<u8>>,
    tag: Seq<char>,
    m: Option<MessageFacts>,
) -> Seq<Seq<u8>> {
    let marked = with_byte(p, tag + ".present"@, presence(m is Some));
    match m {
        Some(m) => with_message(marked, tag, m),
        None => marked,
    }
}

/// Parts with the first `n` messages.
pub open spec fn with_messages(
    p: Seq<Seq<u8>>,
    tag: Seq<char>,
    v: Seq<MessageFacts>,
    n: int,
) -> Seq<Seq<u8>>
    decreases n,
{
    if n <= 0 {
        p
    } else {
        with_message(with_messages(p, tag, v, n - 1), tag, v[n - 1])
    }
}

/// Parts with a set of texts.
pub open spec fn with_set(p: Seq<Seq<u8>>, tag: Seq<char>, v: Seq<Seq<char>>) -> Seq<Seq<u8>> {
    with_list(p, tag + ".count"@, tag + ".item"@, v)
}

pub open spec fn with_suggestion(p: Seq<Seq<u8>>, tag: Seq<char>, s: SuggestionFacts) -> Seq<
    Seq<u8>,
> {
    with_set(with_text(p, tag + ".event"@, s.event), tag + ".reasons"@, s.reasons)
}

/// Parts with the first `n` suggestions.
pub open spec fn with_suggestions(
    p: Seq<Seq<u8>>,
    tag: Seq<char>,
    v: Seq<SuggestionFacts>,
    n: int,
) -> Seq<Seq<u8>>
    decreases n,
{
    if n <= 0 {
        p
    } else {
        with_suggestion(with_suggestions(p, tag, v, n - 1), tag, v[n - 1])
    }
}

/// What a plan is made from.
pub struct InputFacts {
    pub session_id: Seq<char>,
    pub source_sha256: Option<Seq<char>>,
    pub gap_minutes: u64,
    pub watermark: Option<u64>,
    pub messages: Seq<MessageFacts>,
    pub suggestions: Seq<SuggestionFacts>,
}

/// The encoding of what a plan is made from.
pub open spec fn input_parts(domain: Seq<u8>, i: InputFacts) -> Seq<Seq<u8>> {
    let a = with_text(seq![domain], "session_id"@, i.session_id);
    let b = with_opt_text(a, "source_session_sha256"@, i.source_sha256);
    let c = with_number(b, "gap_minutes"@, i.gap_minutes as nat);
    let d = with_opt_number(c, "watermark"@, i.watermark);
    let e = with_number(d, "messages.count"@, i.messages.len());
    let f = with_messages(e, "messages.item"@, i.messages, i.messages.len() as int);
    let g = with_number(f, "suggestions.count"@, i.suggestions.len());
    with_suggestions(g, "suggestions"@, i.suggestions, i.suggestions.len() as int)
}

/// Collects tagged values and hashes them together.
pub struct CanonicalEncoder {
    hasher: PartHasher,
}

impl CanonicalEncoder {
    pub closed spec fn wf(&self) -> bool {
        self.hasher.wf()
    }

    /// What has been encoded.
    pub closed spec fn parts(&self) -> Seq<Seq<u8>> {
        self.hasher.parts()
    }

    pub fn new(domain: &[u8]) -> (r: Self)
        ensures
            r.wf(),
            r.parts() == seq![domain@],
    {
        let mut hasher = PartHasher::new();
        hasher.part(domain);
        assert(hasher.parts() =~= seq![domain@]);
        CanonicalEncoder { hasher }
    }

    pub fn field(&mut self, tag: &str, value: &[u8])
        requires
            old(self).wf(),
        ensures
            final(self).wf(),
            final(self).parts() == with_field(old(self).parts(), tag@, value@),
    {
        self.hasher.part(tag.as_bytes());
        self.hasher.part(value);
    }

    pub fn byte(&mut self, tag: &str, value: u8)
        requires
            old(self).wf(),
        ensures
            final(self).wf(),
            final(self).parts() == with_byte(old(self).parts(), tag@, value),
    {
        let mut bytes: Vec<u8> = Vec::new();
        bytes.push(value);
        assert(bytes@ =~= seq![value]);
        self.field(tag, bytes.as_slice());
    }

    pub fn number(&mut self, tag: &str, value: u64)
        requires
            old(self).wf(),
        ensures
            final(self).wf(),
            final(self).parts() == with_number(old(self).parts(), tag@, value as nat),
    {
        let mut bytes: Vec<u8> = Vec::new();
        push_le(&mut bytes, value);
        assert(bytes@ =~= digest::le_bytes(value as nat, 8));
        self.field(tag, bytes.as_slice());
    }

    pub fn text(&mut self, tag: &str, value: &str)
        requires
            old(self).wf(),
        ensures
            final(self).wf(),
            final(self).parts() == with_text(old(self).parts(), tag@, value@),
    {
        self.field(tag, value.as_bytes());
    }

    pub fn option_number(&mut self, tag: &str, value: Option<u64>)
        requires
            old(self).wf(),
        ensures
            final(self).wf(),
            final(self).parts() == with_opt_number(old(self).parts(), tag@, value),
    {
        self.byte(joined(tag, "_present").as_str(), bit(value.is_some()));
        if let Some(n) = value {
            self.number(tag, n);
        }
    }

    pub fn option_text(&mut self, tag: &str, value: Option<&str>)
        requires
            old(self).wf(),
        ensures
            final(self).wf(),
            final(self).parts() == with_opt_text(
                old(self).parts(),
                tag@,
                crate::model::opt_str(value),
            ),
    {
        self.byte(joined(tag, "_present").as_str(), bit(value.is_some()));
        if let Some(s) = value {
            self.text(tag, s);
        }
    }

    /// A list of texts and their count.
    pub fn list(&mut self, count_tag: &str, tag: &str, values: &Vec<String>)
        requires
            old(self).wf(),
        ensures
            final(self).wf(),
            final(self).parts() == with_list(
                old(self).parts(),
                count_tag@,
                tag@,
                text::texts(values@),
            ),
    {
        let ghost all = text::texts(values@);
        self.number(count_tag, values.len() as u64);
        let ghost start = self.parts();
        let mut i: usize = 0;
        while i < values.len()
            invariant
                i <= values@.len(),
                all == text::texts(values@),
                self.wf(),
                self.parts() == with_texts(start, tag@, all, i as int),
            decreases values.len() - i,
        {
            assert(all[i as int] == values@[i as int]@);
            self.text(tag, values[i].as_str());
            i += 1;
        }
    }

    /// A set of texts.
    pub fn set(&mut self, tag: &str, values: &Vec<String>)
        requires
            old(self).wf(),
        ensures
            final(self).wf(),
            final(self).parts() == with_set(old(self).parts(), tag@, text::texts(values@)),
    {
        self.list(joined(tag, ".count").as_str(), joined(tag, ".item").as_str(), values);
    }

    /// The bits of an embedding.
    pub fn embedding(&mut self, tag: &str, embedding: &Option<Vec<u32>>)
        requires
            old(self).wf(),
        ensures
            final(self).wf(),
            final(self).parts() == with_embedding(
                old(self).parts(),
                tag@,
                embedding_bits(*embedding),
            ),
    {
        self.byte(joined(tag, ".embedding.present").as_str(), bit(embedding.is_some()));
        if let Some(values) = embedding {
            self.number(joined(tag, ".embedding.count").as_str(), values.len() as u64);
            let name = joined(tag, ".embedding.value");
            let ghost start = self.parts();
            let mut i: usize = 0;
            while i < values.len()
                invariant
                    i <= values@.len(),
                    self.wf(),
                    self.parts() == with_values(start, name@, values@, i as int),
                decreases values.len() - i,
            {
                let mut bytes: Vec<u8> = Vec::new();
                push_le32(&mut bytes, values[i]);
                assert(bytes@ =~= digest::le_bytes(values@[i as int] as nat, 4));
                self.field(name.as_str(), bytes.as_slice());
                i += 1;
            }
        }
    }

    /// The digest of what has been encoded.
    pub fn finish(self) -> (r: String)
        requires
            self.wf(),
        ensures
            r@ == digest::sha256_hex(digest::framed_all(self.parts())),
            digest::sha256_shape(r@),
    {
        self.hasher.finish()
    }
}

pub open spec fn embedding_bits(e: Option<Vec<u32>>) -> Option<Seq<u32>> {
    match e {
        Some(v) => Some(v@),
        None => None,
    }
}

/// A tag with more at its end.
pub fn joined(tag: &str, more: &str) -> (r: String)
    ensures
        r@ == tag@ + more@,
{
    let mut out = tag.to_owned();
    out.append(more);
    out
}

pub fn bit(b: bool) -> (r: u8)
    ensures
        r == presence(b),
{
    if b {
        1
    } else {
        0
    }
}

/// Equal sums with equal first lengths have equal summands.
proof fn split_sum(a: Seq<Seq<u8>>, x: Seq<Seq<u8>>, b: Seq<Seq<u8>>, y: Seq<Seq<u8>>)
    requires
        a + x == b + y,
        a.len() == b.len(),
    ensures
        a == b,
        x == y,
{
    let s = a + x;
    let t = b + y;
    assert(s.len() == a.len() + x.len());
    assert(t.len() == b.len() + y.len());
    assert(x.len() == y.len());
    assert forall|i: int| 0 <= i < a.len() implies a[i] == b[i] by {
        assert(s[i] == a[i]);
        assert(t[i] == b[i]);
    }
    assert forall|i: int| 0 <= i < x.len() implies x[i] == y[i] by {
        assert(s[i + a.len()] == x[i]);
        assert(t[i + a.len()] == y[i]);
    }
    assert(a =~= b);
    assert(x =~= y);
}

/// A tagged value can be told from what follows it.
proof fn field_is_told(
    p: Seq<Seq<u8>>,
    q: Seq<Seq<u8>>,
    tag: Seq<char>,
    v: Seq<u8>,
    w: Seq<u8>,
    x: Seq<Seq<u8>>,
    y: Seq<Seq<u8>>,
)
    requires
        with_field(p, tag, v) + x == with_field(q, tag, w) + y,
        p.len() == q.len(),
    ensures
        p == q,
        v == w,
        x == y,
{
    let a = with_field(p, tag, v);
    let b = with_field(q, tag, w);
    split_sum(a, x, b, y);
    assert(a[p.len() as int + 1] == v);
    assert(b[p.len() as int + 1] == w);
    assert(a.take(p.len() as int) =~= p);
    assert(b.take(p.len() as int) =~= q);
}

proof fn text_is_told(a: Seq<char>, b: Seq<char>)
    requires
        encode_utf8(a) == encode_utf8(b),
    ensures
        a == b,
{
    encode_utf8_decode_utf8(a);
    encode_utf8_decode_utf8(b);
}

proof fn number_is_told(a: nat, b: nat)
    requires
        digest::le_bytes(a, 8) == digest::le_bytes(b, 8),
        a <= u64::MAX,
        b <= u64::MAX,
    ensures
        a == b,
{
    digest::eight_bytes_range();
    digest::le_bytes_injective(a, b, 8);
}

proof fn texts_len(p: Seq<Seq<u8>>, tag: Seq<char>, v: Seq<Seq<char>>, n: int)
    requires
        n >= 0,
    ensures
        with_texts(p, tag, v, n).len() == p.len() + 2 * n,
    decreases n,
{
    if n > 0 {
        texts_len(p, tag, v, n - 1);
    }
}

proof fn texts_are_told(
    p: Seq<Seq<u8>>,
    q: Seq<Seq<u8>>,
    tag: Seq<char>,
    a: Seq<Seq<char>>,
    b: Seq<Seq<char>>,
    n: int,
    x: Seq<Seq<u8>>,
    y: Seq<Seq<u8>>,
)
    requires
        with_texts(p, tag, a, n) + x == with_texts(q, tag, b, n) + y,
        p.len() == q.len(),
        n >= 0,
    ensures
        p == q,
        forall|k: int| 0 <= k < n ==> a[k] == b[k],
        x == y,
    decreases n,
{
    if n > 0 {
        let pa = with_texts(p, tag, a, n - 1);
        let qb = with_texts(q, tag, b, n - 1);
        texts_len(p, tag, a, n - 1);
        texts_len(q, tag, b, n - 1);
        field_is_told(pa, qb, tag, encode_utf8(a[n - 1]), encode_utf8(b[n - 1]), x, y);
        text_is_told(a[n - 1], b[n - 1]);
        let none = Seq::<Seq<u8>>::empty();
        assert(pa + none =~= qb + none);
        texts_are_told(p, q, tag, a, b, n - 1, none, none);
    } else {
        split_sum(p, x, q, y);
    }
}

proof fn list_is_told(
    p: Seq<Seq<u8>>,
    q: Seq<Seq<u8>>,
    count_tag: Seq<char>,
    tag: Seq<char>,
    a: Seq<Seq<char>>,
    b: Seq<Seq<char>>,
    x: Seq<Seq<u8>>,
    y: Seq<Seq<u8>>,
)
    requires
        with_list(p, count_tag, tag, a) + x == with_list(q, count_tag, tag, b) + y,
        p.len() == q.len(),
        a.len() <= u64::MAX,
        b.len() <= u64::MAX,
    ensures
        p == q,
        a == b,
        x == y,
{
    let pa = with_number(p, count_tag, a.len());
    let qb = with_number(q, count_tag, b.len());
    let la = with_list(p, count_tag, tag, a);
    let lb = with_list(q, count_tag, tag, b);
    texts_keep(pa, tag, a, a.len() as int);
    texts_keep(qb, tag, b, b.len() as int);
    texts_len(pa, tag, a, a.len() as int);
    texts_len(qb, tag, b, b.len() as int);
    let n = p.len() as int;
    assert((la + x)[n + 1] == la[n + 1]);
    assert((lb + y)[n + 1] == lb[n + 1]);
    assert(la[n + 1] == pa[n + 1]);
    assert(lb[n + 1] == qb[n + 1]);
    number_is_told(a.len(), b.len());
    texts_are_told(pa, qb, tag, a, b, a.len() as int, x, y);
    assert(pa.take(n) =~= p);
    assert(qb.take(n) =~= q);
    assert(a =~= b);
}

/// Texts leave what stands before them.
proof fn texts_keep(p: Seq<Seq<u8>>, tag: Seq<char>, v: Seq<Seq<char>>, n: int)
    ensures
        with_texts(p, tag, v, n).len() >= p.len(),
        forall|i: int| 0 <= i < p.len() ==> with_texts(p, tag, v, n)[i] == p[i],
    decreases n,
{
    if n > 0 {
        texts_keep(p, tag, v, n - 1);
    }
}

proof fn values_len(p: Seq<Seq<u8>>, tag: Seq<char>, v: Seq<u32>, n: int)
    requires
        n >= 0,
    ensures
        with_values(p, tag, v, n).len() == p.len() + 2 * n,
        forall|i: int| 0 <= i < p.len() ==> with_values(p, tag, v, n)[i] == p[i],
    decreases n,
{
    if n > 0 {
        values_len(p, tag, v, n - 1);
    }
}

proof fn values_are_told(
    p: Seq<Seq<u8>>,
    q: Seq<Seq<u8>>,
    tag: Seq<char>,
    a: Seq<u32>,
    b: Seq<u32>,
    n: int,
    x: Seq<Seq<u8>>,
    y: Seq<Seq<u8>>,
)
    requires
        with_values(p, tag, a, n) + x == with_values(q, tag, b, n) + y,
        p.len() == q.len(),
        n >= 0,
    ensures
        p == q,
        forall|k: int| 0 <= k < n ==> a[k] == b[k],
        x == y,
    decreases n,
{
    if n > 0 {
        let pa = with_values(p, tag, a, n - 1);
        let qb = with_values(q, tag, b, n - 1);
        values_len(p, tag, a, n - 1);
        values_len(q, tag, b, n - 1);
        let va = digest::le_bytes(a[n - 1] as nat, 4);
        let vb = digest::le_bytes(b[n - 1] as nat, 4);
        field_is_told(pa, qb, tag, va, vb, x, y);
        digest::eight_bytes_range();
        digest::le_bytes_injective(a[n - 1] as nat, b[n - 1] as nat, 4);
        let none = Seq::<Seq<u8>>::empty();
        assert(pa + none =~= qb + none);
        values_are_told(p, q, tag, a, b, n - 1, none, none);
    } else {
        split_sum(p, x, q, y);
    }
}

proof fn embedding_keeps(p: Seq<Seq<u8>>, tag: Seq<char>, e: Option<Seq<u32>>)
    ensures
        with_embedding(p, tag, e).len() >= p.len() + 2,
        forall|i: int| 0 <= i < p.len() ==> with_embedding(p, tag, e)[i] == p[i],
        with_embedding(p, tag, e)[p.len() as int + 1] == seq![presence(e is Some)],
        e is Some ==> with_embedding(p, tag, e).len() >= p.len() + 4 && with_embedding(
            p,
            tag,
            e,
        )[p.len() as int + 3] == digest::le_bytes(e->0.len(), 8),
{
    let marked = with_byte(p, tag + ".embedding.present"@, presence(e is Some));
    if let Some(v) = e {
        let counted = with_number(marked, tag + ".embedding.count"@, v.len());
        values_len(counted, tag + ".embedding.value"@, v, v.len() as int);
        assert forall|i: int| 0 <= i < p.len() implies with_embedding(p, tag, e)[i] == p[i] by {
            assert(counted[i] == p[i]);
        }
        assert(counted[p.len() as int + 3] == digest::le_bytes(v.len(), 8));
        assert(counted[p.len() as int + 1] == seq![presence(e is Some)]);
    }
}

proof fn embedding_is_told(
    p: Seq<Seq<u8>>,
    q: Seq<Seq<u8>>,
    tag: Seq<char>,
    a: Option<Seq<u32>>,
    b: Option<Seq<u32>>,
    x: Seq<Seq<u8>>,
    y: Seq<Seq<u8>>,
)
    requires
        with_embedding(p, tag, a) + x == with_embedding(q, tag, b) + y,
        p.len() == q.len(),
        a is Some ==> a->0.len() <= u64::MAX,
        b is Some ==> b->0.len() <= u64::MAX,
    ensures
        p == q,
        a == b,
        x == y,
{
    let n = p.len() as int;
    let ea = with_embedding(p, tag, a);
    let eb = with_embedding(q, tag, b);
    embedding_keeps(p, tag, a);
    embedding_keeps(q, tag, b);
    assert((ea + x)[n + 1] == ea[n + 1]);
    assert((eb + y)[n + 1] == eb[n + 1]);
    assert(seq![presence(a is Some)][0] == seq![presence(b is Some)][0]);
    let pa = with_byte(p, tag + ".embedding.present"@, presence(a is Some));
    let qb = with_byte(q, tag + ".embedding.present"@, presence(b is Some));
    match (a, b) {
        (Some(v), Some(w)) => {
            assert((ea + x)[n + 3] == ea[n + 3]);
            assert((eb + y)[n + 3] == eb[n + 3]);
            number_is_told(v.len(), w.len());
            let ca = with_number(pa, tag + ".embedding.count"@, v.len());
            let cb = with_number(qb, tag + ".embedding.count"@, w.len());
            values_are_told(ca, cb, tag + ".embedding.value"@, v, w, v.len() as int, x, y);
            assert(ca.take(n) =~= p);
            assert(cb.take(n) =~= q);
            assert(v =~= w);
        },
        (None, None) => {
            split_sum(pa, x, qb, y);
            assert(pa.take(n) =~= p);
            assert(qb.take(n) =~= q);
        },
        _ => {},
    }
}

proof fn member_is_told(
    p: Seq<Seq<u8>>,
    q: Seq<Seq<u8>>,
    tag: Seq<char>,
    a: MessageFacts,
    b: MessageFacts,
    x: Seq<Seq<u8>>,
    y: Seq<Seq<u8>>,
)
    requires
        with_member(p, tag, a) + x == with_member(q, tag, b) + y,
        p.len() == q.len(),
    ensures
        p == q,
        a.document_id == b.document_id,
        a.event_id == b.event_id,
        a.sequence == b.sequence,
        a.role == b.role,
        a.span_event_id == b.span_event_id,
        a.span_start == b.span_start,
        a.span_end == b.span_end,
        a.content_sha256 == b.content_sha256,
        x == y,
{
    let ma = with_member(p, tag, a);
    let mb = with_member(q, tag, b);
    assert(ma.len() == p.len() + 16);
    assert(mb.len() == q.len() + 16);
    split_sum(ma, x, mb, y);
    let n = p.len() as int;
    assert(ma[n + 1] == encode_utf8(a.document_id));
    assert(mb[n + 1] == encode_utf8(b.document_id));
    text_is_told(a.document_id, b.document_id);
    assert(ma[n + 3] == encode_utf8(a.event_id));
    assert(mb[n + 3] == encode_utf8(b.event_id));
    text_is_told(a.event_id, b.event_id);
    assert(ma[n + 5] == digest::le_bytes(a.sequence as nat, 8));
    assert(mb[n + 5] == digest::le_bytes(b.sequence as nat, 8));
    number_is_told(a.sequence as nat, b.sequence as nat);
    assert(ma[n + 7] == seq![role_tag(a.role)]);
    assert(mb[n + 7] == seq![role_tag(b.role)]);
    assert(seq![role_tag(a.role)][0] == seq![role_tag(b.role)][0]);
    assert(ma[n + 9] == encode_utf8(a.span_event_id));
    assert(mb[n + 9] == encode_utf8(b.span_event_id));
    text_is_told(a.span_event_id, b.span_event_id);
    assert(ma[n + 11] == digest::le_bytes(a.span_start as nat, 8));
    assert(mb[n + 11] == digest::le_bytes(b.span_start as nat, 8));
    number_is_told(a.span_start as nat, b.span_start as nat);
    assert(ma[n + 13] == digest::le_bytes(a.span_end as nat, 8));
    assert(mb[n + 13] == digest::le_bytes(b.span_end as nat, 8));
    number_is_told(a.span_end as nat, b.span_end as nat);
    assert(ma[n + 15] == encode_utf8(a.content_sha256));
    assert(mb[n + 15] == encode_utf8(b.content_sha256));
    text_is_told(a.content_sha256, b.content_sha256);
    assert(ma.take(n) =~= p);
    assert(mb.take(n) =~= q);
}

/// The lists of a message have lengths that can be encoded.
pub open spec fn encodable(m: MessageFacts) -> bool {
    m.entities.len() <= u64::MAX && (m.embedding is Some ==> m.embedding->0.len() <= u64::MAX)
}

proof fn texts_shift(p: Seq<Seq<u8>>, q: Seq<Seq<u8>>, tag: Seq<char>, v: Seq<Seq<char>>, n: int)
    ensures
        with_texts(p + q, tag, v, n) == p + with_texts(q, tag, v, n),
    decreases n,
{
    if n > 0 {
        texts_shift(p, q, tag, v, n - 1);
        assert(with_texts(p + q, tag, v, n) =~= p + with_texts(q, tag, v, n));
    }
}

proof fn values_shift(p: Seq<Seq<u8>>, q: Seq<Seq<u8>>, tag: Seq<char>, v: Seq<u32>, n: int)
    ensures
        with_values(p + q, tag, v, n) == p + with_values(q, tag, v, n),
    decreases n,
{
    if n > 0 {
        values_shift(p, q, tag, v, n - 1);
        assert(with_values(p + q, tag, v, n) =~= p + with_values(q, tag, v, n));
    }
}

proof fn field_shift(p: Seq<Seq<u8>>, q: Seq<Seq<u8>>, tag: Seq<char>, v: Seq<u8>)
    ensures
        with_field(p + q, tag, v) == p + with_field(q, tag, v),
{
    assert(with_field(p + q, tag, v) =~= p + with_field(q, tag, v));
}

proof fn list_shift(
    p: Seq<Seq<u8>>,
    q: Seq<Seq<u8>>,
    count_tag: Seq<char>,
    tag: Seq<char>,
    v: Seq<Seq<char>>,
)
    ensures
        with_list(p + q, count_tag, tag, v) == p + with_list(q, count_tag, tag, v),
{
    field_shift(p, q, count_tag, digest::le_bytes(v.len(), 8));
    texts_shift(p, with_number(q, count_tag, v.len()), tag, v, v.len() as int);
}

proof fn member_shift(p: Seq<Seq<u8>>, q: Seq<Seq<u8>>, tag: Seq<char>, m: MessageFacts)
    ensures
        with_member(p + q, tag, m) == p + with_member(q, tag, m),
{
    assert(with_member(p + q, tag, m) =~= p + with_member(q, tag, m));
}

proof fn embedding_shift(
    p: Seq<Seq<u8>>,
    q: Seq<Seq<u8>>,
    tag: Seq<char>,
    e: Option<Seq<u32>>,
)
    ensures
        with_embedding(p + q, tag, e) == p + with_embedding(q, tag, e),
{
    let marked = with_byte(q, tag + ".embedding.present"@, presence(e is Some));
    field_shift(p, q, tag + ".embedding.present"@, seq![presence(e is Some)]);
    if let Some(v) = e {
        field_shift(p, marked, tag + ".embedding.count"@, digest::le_bytes(v.len(), 8));
        let counted = with_number(marked, tag + ".embedding.count"@, v.len());
        values_shift(p, counted, tag + ".embedding.value"@, v, v.len() as int);
    }
}

proof fn message_shift(p: Seq<Seq<u8>>, q: Seq<Seq<u8>>, tag: Seq<char>, m: MessageFacts)
    ensures
        with_message(p + q, tag, m) == p + with_message(q, tag, m),
{
    let a = with_member(q, tag, m);
    member_shift(p, q, tag, m);
    field_shift(p, a, tag + ".created_at"@, encode_utf8(m.created_at));
    let b = with_text(a, tag + ".created_at"@, m.created_at);
    list_shift(p, b, tag + ".entities.count"@, tag + ".entity"@, m.entities);
    let c = with_list(b, tag + ".entities.count"@, tag + ".entity"@, m.entities);
    embedding_shift(p, c, tag, m.embedding);
}

/// The parts of a message on its own.
pub open spec fn message_parts(tag: Seq<char>, m: MessageFacts) -> Seq<Seq<u8>> {
    with_message(Seq::empty(), tag, m)
}

proof fn message_alone(p: Seq<Seq<u8>>, tag: Seq<char>, m: MessageFacts)
    ensures
        with_message(p, tag, m) == p + message_parts(tag, m),
{
    let none = Seq::<Seq<u8>>::empty();
    assert(p + none =~= p);
    message_shift(p, none, tag, m);
}

/// Two encoded messages that are followed by anything are told apart.
proof fn message_is_told(
    tag: Seq<char>,
    a: MessageFacts,
    b: MessageFacts,
    x: Seq<Seq<u8>>,
    y: Seq<Seq<u8>>,
)
    requires
        message_parts(tag, a) + x == message_parts(tag, b) + y,
        encodable(a),
        encodable(b),
    ensures
        a == b,
        x == y,
{
    let none = Seq::<Seq<u8>>::empty();
    let ma = with_member(none, tag, a);
    let mb = with_member(none, tag, b);
    let da = with_text(ma, tag + ".created_at"@, a.created_at);
    let db = with_text(mb, tag + ".created_at"@, b.created_at);
    let la = with_list(da, tag + ".entities.count"@, tag + ".entity"@, a.entities);
    let lb = with_list(db, tag + ".entities.count"@, tag + ".entity"@, b.entities);
    // What follows the list of entities, on its own.
    let ea = with_embedding(none, tag, a.embedding);
    let eb = with_embedding(none, tag, b.embedding);
    embedding_shift(la, none, tag, a.embedding);
    embedding_shift(lb, none, tag, b.embedding);
    assert(la + none =~= la);
    assert(lb + none =~= lb);
    assert(message_parts(tag, a) + x =~= la + (ea + x));
    assert(message_parts(tag, b) + y =~= lb + (eb + y));
    assert(da.len() == 18);
    assert(db.len() == 18);
    list_is_told(
        da,
        db,
        tag + ".entities.count"@,
        tag + ".entity"@,
        a.entities,
        b.entities,
        ea + x,
        eb + y,
    );
    embedding_is_told(none, none, tag, a.embedding, b.embedding, x, y);
    assert(da + none =~= da);
    assert(db + none =~= db);
    field_is_told(
        ma,
        mb,
        tag + ".created_at"@,
        encode_utf8(a.created_at),
        encode_utf8(b.created_at),
        none,
        none,
    );
    text_is_told(a.created_at, b.created_at);
    assert(ma + none =~= ma);
    assert(mb + none =~= mb);
    member_is_told(none, none, tag, a, b, none, none);
}

proof fn messages_are_told(
    p: Seq<Seq<u8>>,
    q: Seq<Seq<u8>>,
    tag: Seq<char>,
    a: Seq<MessageFacts>,
    b: Seq<MessageFacts>,
    n: int,
    x: Seq<Seq<u8>>,
    y: Seq<Seq<u8>>,
)
    requires
        with_messages(p, tag, a, n) + x == with_messages(q, tag, b, n) + y,
        p.len() == q.len(),
        n >= 0,
        forall|k: int| 0 <= k < n ==> encodable(#[trigger] a[k]),
        forall|k: int| 0 <= k < n ==> encodable(#[trigger] b[k]),
    ensures
        p == q,
        forall|k: int| 0 <= k < n ==> a[k] == b[k],
        x == y,
    decreases n,
{
    if n > 0 {
        let pa = with_messages(p, tag, a, n - 1);
        let qb = with_messages(q, tag, b, n - 1);
        message_alone(pa, tag, a[n - 1]);
        message_alone(qb, tag, b[n - 1]);
        let ra = message_parts(tag, a[n - 1]) + x;
        let rb = message_parts(tag, b[n - 1]) + y;
        assert(with_messages(p, tag, a, n) + x =~= pa + ra);
        assert(with_messages(q, tag, b, n) + y =~= qb + rb);
        messages_are_told(p, q, tag, a, b, n - 1, ra, rb);
        message_is_told(tag, a[n - 1], b[n - 1], x, y);
    } else {
        split_sum(p, x, q, y);
    }
}

pub open spec fn suggestion_parts(tag: Seq<char>, s: SuggestionFacts) -> Seq<Seq<u8>> {
    with_suggestion(Seq::empty(), tag, s)
}

proof fn suggestion_alone(p: Seq<Seq<u8>>, tag: Seq<char>, s: SuggestionFacts)
    ensures
        with_suggestion(p, tag, s) == p + suggestion_parts(tag, s),
{
    let none = Seq::<Seq<u8>>::empty();
    assert(p + none =~= p);
    field_shift(p, none, tag + ".event"@, encode_utf8(s.event));
    let named = with_text(none, tag + ".event"@, s.event);
    let inner = tag + ".reasons"@;
    list_shift(p, named, inner + ".count"@, inner + ".item"@, s.reasons);
}

proof fn suggestion_is_told(
    tag: Seq<char>,
    a: SuggestionFacts,
    b: SuggestionFacts,
    x: Seq<Seq<u8>>,
    y: Seq<Seq<u8>>,
)
    requires
        suggestion_parts(tag, a) + x == suggestion_parts(tag, b) + y,
        a.reasons.len() <= u64::MAX,
        b.reasons.len() <= u64::MAX,
    ensures
        a == b,
        x == y,
{
    let none = Seq::<Seq<u8>>::empty();
    let na = with_text(none, tag + ".event"@, a.event);
    let nb = with_text(none, tag + ".event"@, b.event);
    let inner = tag + ".reasons"@;
    list_is_told(na, nb, inner + ".count"@, inner + ".item"@, a.reasons, b.reasons, x, y);
    assert(na + none =~= na);
    assert(nb + none =~= nb);
    field_is_told(
        none,
        none,
        tag + ".event"@,
        encode_utf8(a.event),
        encode_utf8(b.event),
        none,
        none,
    );
    text_is_told(a.event, b.event);
}

proof fn suggestions_are_told(
    p: Seq<Seq<u8>>,
    q: Seq<Seq<u8>>,
    tag: Seq<char>,
    a: Seq<SuggestionFacts>,
    b: Seq<SuggestionFacts>,
    n: int,
    x: Seq<Seq<u8>>,
    y: Seq<Seq<u8>>,
)
    requires
        with_suggestions(p, tag, a, n) + x == with_suggestions(q, tag, b, n) + y,
        p.len() == q.len(),
        n >= 0,
        forall|k: int| 0 <= k < n ==> (#[trigger] a[k]).reasons.len() <= u64::MAX,
        forall|k: int| 0 <= k < n ==> (#[trigger] b[k]).reasons.len() <= u64::MAX,
    ensures
        p == q,
        forall|k: int| 0 <= k < n ==> a[k] == b[k],
        x == y,
    decreases n,
{
    if n > 0 {
        let pa = with_suggestions(p, tag, a, n - 1);
        let qb = with_suggestions(q, tag, b, n - 1);
        suggestion_alone(pa, tag, a[n - 1]);
        suggestion_alone(qb, tag, b[n - 1]);
        let ra = suggestion_parts(tag, a[n - 1]) + x;
        let rb = suggestion_parts(tag, b[n - 1]) + y;
        assert(with_suggestions(p, tag, a, n) + x =~= pa + ra);
        assert(with_suggestions(q, tag, b, n) + y =~= qb + rb);
        suggestions_are_told(p, q, tag, a, b, n - 1, ra, rb);
        suggestion_is_told(tag, a[n - 1], b[n - 1], x, y);
    } else {
        split_sum(p, x, q, y);
    }
}

proof fn messages_shift(
    p: Seq<Seq<u8>>,
    q: Seq<Seq<u8>>,
    tag: Seq<char>,
    v: Seq<MessageFacts>,
    n: int,
)
    ensures
        with_messages(p + q, tag, v, n) == p + with_messages(q, tag, v, n),
    decreases n,
{
    if n > 0 {
        messages_shift(p, q, tag, v, n - 1);
        message_shift(p, with_messages(q, tag, v, n - 1), tag, v[n - 1]);
    }
}

proof fn suggestions_shift(
    p: Seq<Seq<u8>>,
    q: Seq<Seq<u8>>,
    tag: Seq<char>,
    v: Seq<SuggestionFacts>,
    n: int,
)
    ensures
        with_suggestions(p + q, tag, v, n) == p + with_suggestions(q, tag, v, n),
    decreases n,
{
    if n > 0 {
        suggestions_shift(p, q, tag, v, n - 1);
        let rest = with_suggestions(q, tag, v, n - 1);
        suggestion_alone(p + rest, tag, v[n - 1]);
        suggestion_alone(rest, tag, v[n - 1]);
        assert((p + rest) + suggestion_parts(tag, v[n - 1]) =~= p + (rest + suggestion_parts(
            tag,
            v[n - 1],
        )));
    }
}

proof fn opt_text_is_told(
    p: Seq<Seq<u8>>,
    q: Seq<Seq<u8>>,
    tag: Seq<char>,
    a: Option<Seq<char>>,
    b: Option<Seq<char>>,
    x: Seq<Seq<u8>>,
    y: Seq<Seq<u8>>,
)
    requires
        with_opt_text(p, tag, a) + x == with_opt_text(q, tag, b) + y,
        p.len() == q.len(),
    ensures
        p == q,
        a == b,
        x == y,
{
    let n = p.len() as int;
    let oa = with_opt_text(p, tag, a);
    let ob = with_opt_text(q, tag, b);
    assert((oa + x)[n + 1] == oa[n + 1]);
    assert((ob + y)[n + 1] == ob[n + 1]);
    assert(oa[n + 1] == seq![presence(a is Some)]);
    assert(ob[n + 1] == seq![presence(b is Some)]);
    assert(seq![presence(a is Some)][0] == seq![presence(b is Some)][0]);
    split_sum(oa, x, ob, y);
    assert(oa.take(n) =~= p);
    assert(ob.take(n) =~= q);
    if a is Some {
        assert(oa[n + 3] == encode_utf8(a->0));
        assert(ob[n + 3] == encode_utf8(b->0));
        text_is_told(a->0, b->0);
    }
}

proof fn opt_number_is_told(
    p: Seq<Seq<u8>>,
    q: Seq<Seq<u8>>,
    tag: Seq<char>,
    a: Option<u64>,
    b: Option<u64>,
    x: Seq<Seq<u8>>,
    y: Seq<Seq<u8>>,
)
    requires
        with_opt_number(p, tag, a) + x == with_opt_number(q, tag, b) + y,
        p.len() == q.len(),
    ensures
        p == q,
        a == b,
        x == y,
{
    let n = p.len() as int;
    let oa = with_opt_number(p, tag, a);
    let ob = with_opt_number(q, tag, b);
    assert((oa + x)[n + 1] == oa[n + 1]);
    assert((ob + y)[n + 1] == ob[n + 1]);
    assert(oa[n + 1] == seq![presence(a is Some)]);
    assert(ob[n + 1] == seq![presence(b is Some)]);
    assert(seq![presence(a is Some)][0] == seq![presence(b is Some)][0]);
    split_sum(oa, x, ob, y);
    assert(oa.take(n) =~= p);
    assert(ob.take(n) =~= q);
    if a is Some {
        assert(oa[n + 3] == digest::le_bytes(a->0 as nat, 8));
        assert(ob[n + 3] == digest::le_bytes(b->0 as nat, 8));
        number_is_told(a->0 as nat, b->0 as nat);
    }
}

/// Lists of an input have lengths that can be encoded.
pub open spec fn input_encodable(i: InputFacts) -> bool {
    &&& i.messages.len() <= u64::MAX
    &&& i.suggestions.len() <= u64::MAX
    &&& forall|k: int| 0 <= k < i.messages.len() ==> encodable(#[trigger] i.messages[k])
    &&& forall|k: int|
        0 <= k < i.suggestions.len() ==> (#[trigger] i.suggestions[k]).reasons.len() <= u64::MAX
}

proof fn opt_number_shift(p: Seq<Seq<u8>>, q: Seq<Seq<u8>>, tag: Seq<char>, v: Option<u64>)
    ensures
        with_opt_number(p + q, tag, v) == p + with_opt_number(q, tag, v),
{
    assert(with_opt_number(p + q, tag, v) =~= p + with_opt_number(q, tag, v));
}

/// The encoding behind the fixed head: counts and lists.
pub open spec fn body_parts(i: InputFacts) -> Seq<Seq<u8>> {
    let e = with_number(Seq::empty(), "messages.count"@, i.messages.len());
    let f = with_messages(e, "messages.item"@, i.messages, i.messages.len() as int);
    let g = with_number(f, "suggestions.count"@, i.suggestions.len());
    with_suggestions(g, "suggestions"@, i.suggestions, i.suggestions.len() as int)
}

/// The head of the encoding.
pub open spec fn head_parts(domain: Seq<u8>, i: InputFacts) -> Seq<Seq<u8>> {
    let a = with_text(seq![domain], "session_id"@, i.session_id);
    let b = with_opt_text(a, "source_session_sha256"@, i.source_sha256);
    let c = with_number(b, "gap_minutes"@, i.gap_minutes as nat);
    with_opt_number(c, "watermark"@, i.watermark)
}

proof fn head_and_body(domain: Seq<u8>, i: InputFacts)
    ensures
        input_parts(domain, i) == head_parts(domain, i) + body_parts(i),
{
    let none = Seq::<Seq<u8>>::empty();
    let head = head_parts(domain, i);
    assert(head + none =~= head);
    field_shift(head, none, "messages.count"@, digest::le_bytes(i.messages.len(), 8));
    let e = with_number(none, "messages.count"@, i.messages.len());
    messages_shift(head, e, "messages.item"@, i.messages, i.messages.len() as int);
    let f = with_messages(e, "messages.item"@, i.messages, i.messages.len() as int);
    field_shift(head, f, "suggestions.count"@, digest::le_bytes(i.suggestions.len(), 8));
    let g = with_number(f, "suggestions.count"@, i.suggestions.len());
    suggestions_shift(head, g, "suggestions"@, i.suggestions, i.suggestions.len() as int);
}

/// What follows the messages.
pub open spec fn tail_parts(i: InputFacts) -> Seq<Seq<u8>> {
    let g = with_number(Seq::empty(), "suggestions.count"@, i.suggestions.len());
    with_suggestions(g, "suggestions"@, i.suggestions, i.suggestions.len() as int)
}

proof fn body_and_tail(i: InputFacts)
    ensures
        body_parts(i) == with_messages(
            with_number(Seq::empty(), "messages.count"@, i.messages.len()),
            "messages.item"@,
            i.messages,
            i.messages.len() as int,
        ) + tail_parts(i),
{
    let none = Seq::<Seq<u8>>::empty();
    let e = with_number(none, "messages.count"@, i.messages.len());
    let f = with_messages(e, "messages.item"@, i.messages, i.messages.len() as int);
    assert(f + none =~= f);
    field_shift(f, none, "suggestions.count"@, digest::le_bytes(i.suggestions.len(), 8));
    let g = with_number(none, "suggestions.count"@, i.suggestions.len());
    suggestions_shift(f, g, "suggestions"@, i.suggestions, i.suggestions.len() as int);
}

proof fn messages_keep(p: Seq<Seq<u8>>, tag: Seq<char>, v: Seq<MessageFacts>, n: int)
    ensures
        with_messages(p, tag, v, n).len() >= p.len(),
        forall|i: int| 0 <= i < p.len() ==> with_messages(p, tag, v, n)[i] == p[i],
{
    let none = Seq::<Seq<u8>>::empty();
    assert(p + none =~= p);
    messages_shift(p, none, tag, v, n);
}

proof fn suggestions_keep(p: Seq<Seq<u8>>, tag: Seq<char>, v: Seq<SuggestionFacts>, n: int)
    ensures
        with_suggestions(p, tag, v, n).len() >= p.len(),
        forall|i: int| 0 <= i < p.len() ==> with_suggestions(p, tag, v, n)[i] == p[i],
{
    let none = Seq::<Seq<u8>>::empty();
    assert(p + none =~= p);
    suggestions_shift(p, none, tag, v, n);
}

proof fn tails_are_told(a: InputFacts, b: InputFacts)
    requires
        tail_parts(a) == tail_parts(b),
        input_encodable(a),
        input_encodable(b),
    ensures
        a.suggestions == b.suggestions,
{
    let none = Seq::<Seq<u8>>::empty();
    let ga = with_number(none, "suggestions.count"@, a.suggestions.len());
    let gb = with_number(none, "suggestions.count"@, b.suggestions.len());
    suggestions_keep(ga, "suggestions"@, a.suggestions, a.suggestions.len() as int);
    suggestions_keep(gb, "suggestions"@, b.suggestions, b.suggestions.len() as int);
    assert(ga.len() == 2 && gb.len() == 2);
    assert(tail_parts(a)[1] == ga[1]);
    assert(tail_parts(b)[1] == gb[1]);
    number_is_told(a.suggestions.len(), b.suggestions.len());
    assert(tail_parts(a) + none =~= tail_parts(b) + none);
    suggestions_are_told(
        ga,
        gb,
        "suggestions"@,
        a.suggestions,
        b.suggestions,
        a.suggestions.len() as int,
        none,
        none,
    );
    assert(a.suggestions =~= b.suggestions);
}

proof fn bodies_are_told(a: InputFacts, b: InputFacts)
    requires
        body_parts(a) == body_parts(b),
        input_encodable(a),
        input_encodable(b),
    ensures
        a.messages == b.messages,
        a.suggestions == b.suggestions,
{
    let none = Seq::<Seq<u8>>::empty();
    let ea = with_number(none, "messages.count"@, a.messages.len());
    let eb = with_number(none, "messages.count"@, b.messages.len());
    body_and_tail(a);
    body_and_tail(b);
    messages_keep(ea, "messages.item"@, a.messages, a.messages.len() as int);
    messages_keep(eb, "messages.item"@, b.messages, b.messages.len() as int);
    let fa = with_messages(ea, "messages.item"@, a.messages, a.messages.len() as int);
    let fb = with_messages(eb, "messages.item"@, b.messages, b.messages.len() as int);
    assert(ea.len() == 2 && eb.len() == 2);
    assert(body_parts(a)[1] == fa[1]);
    assert(body_parts(b)[1] == fb[1]);
    assert(ea[1] == eb[1]);
    number_is_told(a.messages.len(), b.messages.len());
    messages_are_told(
        ea,
        eb,
        "messages.item"@,
        a.messages,
        b.messages,
        a.messages.len() as int,
        tail_parts(a),
        tail_parts(b),
    );
    assert(a.messages =~= b.messages);
    tails_are_told(a, b);
}

/// The encoding covers everything: within a domain, inputs with equal
/// encodings are equal in every message, embedding, suggestion and setting.
pub proof fn encoding_covers_the_input(domain: Seq<u8>, a: InputFacts, b: InputFacts)
    requires
        input_parts(domain, a) == input_parts(domain, b),
        input_encodable(a),
        input_encodable(b),
    ensures
        a == b,
{
    let none = Seq::<Seq<u8>>::empty();
    head_and_body(domain, a);
    head_and_body(domain, b);
    let a1 = with_text(seq![domain], "session_id"@, a.session_id);
    let b1 = with_text(seq![domain], "session_id"@, b.session_id);
    let a2 = with_opt_text(a1, "source_session_sha256"@, a.source_sha256);
    let b2 = with_opt_text(b1, "source_session_sha256"@, b.source_sha256);
    // What stands behind the optional digest, on its own.
    let ra = with_opt_number(
        with_number(none, "gap_minutes"@, a.gap_minutes as nat),
        "watermark"@,
        a.watermark,
    );
    let rb = with_opt_number(
        with_number(none, "gap_minutes"@, b.gap_minutes as nat),
        "watermark"@,
        b.watermark,
    );
    assert(a2 + none =~= a2);
    assert(b2 + none =~= b2);
    field_shift(a2, none, "gap_minutes"@, digest::le_bytes(a.gap_minutes as nat, 8));
    field_shift(b2, none, "gap_minutes"@, digest::le_bytes(b.gap_minutes as nat, 8));
    opt_number_shift(
        a2,
        with_number(none, "gap_minutes"@, a.gap_minutes as nat),
        "watermark"@,
        a.watermark,
    );
    opt_number_shift(
        b2,
        with_number(none, "gap_minutes"@, b.gap_minutes as nat),
        "watermark"@,
        b.watermark,
    );
    assert(input_parts(domain, a) =~= a2 + (ra + body_parts(a)));
    assert(input_parts(domain, b) =~= b2 + (rb + body_parts(b)));
    opt_text_is_told(
        a1,
        b1,
        "source_session_sha256"@,
        a.source_sha256,
        b.source_sha256,
        ra + body_parts(a),
        rb + body_parts(b),
    );
    opt_number_is_told(
        with_number(none, "gap_minutes"@, a.gap_minutes as nat),
        with_number(none, "gap_minutes"@, b.gap_minutes as nat),
        "watermark"@,
        a.watermark,
        b.watermark,
        body_parts(a),
        body_parts(b),
    );
    let na = with_number(none, "gap_minutes"@, a.gap_minutes as nat);
    let nb = with_number(none, "gap_minutes"@, b.gap_minutes as nat);
    assert(na[1] == digest::le_bytes(a.gap_minutes as nat, 8));
    assert(nb[1] == digest::le_bytes(b.gap_minutes as nat, 8));
    number_is_told(a.gap_minutes as nat, b.gap_minutes as nat);
    assert(a1[2] == encode_utf8(a.session_id));
    assert(b1[2] == encode_utf8(b.session_id));
    text_is_told(a.session_id, b.session_id);
    bodies_are_told(a, b);
}

} // verus!
