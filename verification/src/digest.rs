//! SHA-256 identities: byte framing of hashed values and the lowercase
//! hexadecimal digests that name documents, revisions and records.

use sha2::{Digest, Sha256};
use vstd::prelude::*;
use vstd::string::*;
use vstd::utf8::*;

use crate::text::chars_of;

verus! {

/// The lowercase hexadecimal SHA-256 digest of a byte sequence.
pub uninterp spec fn sha256_hex(bytes: Seq<u8>) -> Seq<char>;

/// A digit of a lowercase hexadecimal number.
pub open spec fn lower_hex(c: char) -> bool {
    let n = c as u32;
    (0x30 <= n <= 0x39) || (0x61 <= n <= 0x66)
}

/// A text of 64 lowercase hexadecimal digits.
pub open spec fn sha256_shape(s: Seq<char>) -> bool {
    s.len() == 64 && forall|i: int| 0 <= i < s.len() ==> lower_hex(#[trigger] s[i])
}

/// `sha2::Sha256::digest`, rendered by its `LowerHex` implementation: the digest
/// depends on the bytes alone and is 64 lowercase hexadecimal digits long.
#[verifier::external_body]
fn sha256_lower_hex(bytes: &[u8]) -> (r: String)
    ensures
        r@ == sha256_hex(bytes@),
        sha256_shape(r@),
{
    format!("{:x}", Sha256::digest(bytes))
}

/// A prefix and a digest of 64 lowercase hexadecimal digits.
pub open spec fn hash_id_shape(id: Seq<char>, prefix: Seq<char>) -> bool {
    &&& id.len() == prefix.len() + 64
    &&& id.take(prefix.len() as int) == prefix
    &&& sha256_shape(id.skip(prefix.len() as int))
}

/// A digest behind a prefix that says what it identifies.
pub fn hash_id(prefix: &str, hash: &str) -> (r: String)
    requires
        sha256_shape(hash@),
    ensures
        r@ == prefix@ + hash@,
        hash_id_shape(r@, prefix@),
{
    let mut out = prefix.to_owned();
    out.append(hash);
    assert(out@.take(prefix@.len() as int) =~= prefix@);
    assert(out@.skip(prefix@.len() as int) =~= hash@);
    out
}

/// The digest of a byte sequence.
pub fn bytes_sha256(bytes: &[u8]) -> (r: String)
    ensures
        r@ == sha256_hex(bytes@),
        sha256_shape(r@),
{
    sha256_lower_hex(bytes)
}

/// The digest of a text in UTF-8.
pub open spec fn text_digest(s: Seq<char>) -> Seq<char> {
    sha256_hex(encode_utf8(s))
}

/// The digest that identifies a message or fragment by its content.
pub fn content_sha256(content: &str) -> (r: String)
    ensures
        r@ == text_digest(content@),
        sha256_shape(r@),
{
    sha256_lower_hex(content.as_bytes())
}

pub fn is_lower_hex(c: char) -> (r: bool)
    ensures
        r == lower_hex(c),
{
    let n: u32 = c as u32;
    (0x30 <= n && n <= 0x39) || (0x61 <= n && n <= 0x66)
}

/// Whether a text is a lowercase SHA-256 digest.
pub fn is_sha256(value: &str) -> (r: bool)
    ensures
        r == sha256_shape(value@),
{
    let chars = chars_of(value);
    if chars.len() != 64 {
        return false;
    }
    let mut i: usize = 0;
    while i < chars.len()
        invariant
            chars@ == value@,
            chars@.len() == 64,
            i <= chars@.len(),
            forall|k: int| 0 <= k < i ==> lower_hex(#[trigger] value@[k]),
        decreases chars.len() - i,
    {
        if !is_lower_hex(chars[i]) {
            assert(!lower_hex(value@[i as int]));
            return false;
        }
        i += 1;
    }
    true
}

/// The low `width` base-256 digits of `n`, least significant first.
pub open spec fn le_bytes(n: nat, width: nat) -> Seq<u8>
    decreases width,
{
    if width == 0 {
        Seq::empty()
    } else {
        seq![(n % 256) as u8] + le_bytes(n / 256, (width - 1) as nat)
    }
}

/// The low `width` base-256 digits of `n`, most significant first.
pub open spec fn be_bytes(n: nat, width: nat) -> Seq<u8>
    decreases width,
{
    if width == 0 {
        Seq::empty()
    } else {
        be_bytes(n / 256, (width - 1) as nat).push((n % 256) as u8)
    }
}

/// The number of values that `width` bytes can tell apart.
pub open spec fn byte_range(width: nat) -> nat
    decreases width,
{
    if width == 0 {
        1
    } else {
        256 * byte_range((width - 1) as nat)
    }
}

pub proof fn le_bytes_len(n: nat, width: nat)
    ensures
        le_bytes(n, width).len() == width,
    decreases width,
{
    if width > 0 {
        le_bytes_len(n / 256, (width - 1) as nat);
    }
}

pub proof fn be_bytes_len(n: nat, width: nat)
    ensures
        be_bytes(n, width).len() == width,
    decreases width,
{
    if width > 0 {
        be_bytes_len(n / 256, (width - 1) as nat);
    }
}

/// Little-endian rendering tells numbers in range apart.
pub proof fn le_bytes_injective(a: nat, b: nat, width: nat)
    requires
        a < byte_range(width),
        b < byte_range(width),
        le_bytes(a, width) == le_bytes(b, width),
    ensures
        a == b,
    decreases width,
{
    if width > 0 {
        let w = (width - 1) as nat;
        let x = le_bytes(a, width);
        let y = le_bytes(b, width);
        assert(x[0] == (a % 256) as u8);
        assert(y[0] == (b % 256) as u8);
        assert(x.drop_first() =~= le_bytes(a / 256, w));
        assert(y.drop_first() =~= le_bytes(b / 256, w));
        le_bytes_injective(a / 256, b / 256, w);
    }
}

/// Big-endian rendering tells numbers in range apart.
pub proof fn be_bytes_injective(a: nat, b: nat, width: nat)
    requires
        a < byte_range(width),
        b < byte_range(width),
        be_bytes(a, width) == be_bytes(b, width),
    ensures
        a == b,
    decreases width,
{
    if width > 0 {
        let w = (width - 1) as nat;
        let x = be_bytes(a, width);
        let y = be_bytes(b, width);
        be_bytes_len(a / 256, w);
        be_bytes_len(b / 256, w);
        assert(x.last() == (a % 256) as u8);
        assert(y.last() == (b % 256) as u8);
        assert(x.drop_last() =~= be_bytes(a / 256, w));
        assert(y.drop_last() =~= be_bytes(b / 256, w));
        be_bytes_injective(a / 256, b / 256, w);
    }
}

/// Eight bytes hold every 64-bit number.
pub proof fn eight_bytes_range()
    ensures
        byte_range(8) == 0x1_0000_0000_0000_0000,
        byte_range(4) == 0x1_0000_0000,
{
    reveal_with_fuel(byte_range, 9);
}

/// Appends `n` in eight bytes, least significant first.
pub fn push_le(out: &mut Vec<u8>, n: u64)
    ensures
        final(out)@ == old(out)@ + le_bytes(n as nat, 8),
{
    let ghost start = out@;
    let mut rest: u64 = n;
    let mut i: u8 = 0;
    while i < 8
        invariant
            i <= 8,
            out@ + le_bytes(rest as nat, (8 - i) as nat) == start + le_bytes(n as nat, 8),
        decreases 8 - i,
    {
        let ghost before = out@;
        let ghost w = (7 - i) as nat;
        out.push((rest % 256) as u8);
        proof {
            assert(out@ + le_bytes((rest / 256) as nat, w) =~= before + le_bytes(rest as nat, w + 1));
        }
        rest = rest / 256;
        i += 1;
    }
    assert(out@ + le_bytes(rest as nat, 0) =~= out@);
}

/// Appends a 32-bit number in four bytes, least significant first.
pub fn push_le32(out: &mut Vec<u8>, n: u32)
    ensures
        final(out)@ == old(out)@ + le_bytes(n as nat, 4),
{
    let ghost start = out@;
    let mut rest: u32 = n;
    let mut i: u8 = 0;
    while i < 4
        invariant
            i <= 4,
            out@ + le_bytes(rest as nat, (4 - i) as nat) == start + le_bytes(n as nat, 4),
        decreases 4 - i,
    {
        let ghost before = out@;
        let ghost w = (3 - i) as nat;
        out.push((rest % 256) as u8);
        proof {
            assert(out@ + le_bytes((rest / 256) as nat, w) =~= before + le_bytes(rest as nat, w + 1));
        }
        rest = rest / 256;
        i += 1;
    }
    assert(out@ + le_bytes(rest as nat, 0) =~= out@);
}

fn push_be_digits(out: &mut Vec<u8>, n: u64, width: u8)
    ensures
        final(out)@ == old(out)@ + be_bytes(n as nat, width as nat),
    decreases width,
{
    if width > 0 {
        push_be_digits(out, n / 256, width - 1);
        out.push((n % 256) as u8);
    }
    assert(out@ =~= old(out)@ + be_bytes(n as nat, width as nat));
}

/// Appends `n` in eight bytes, most significant first.
pub fn push_be(out: &mut Vec<u8>, n: u64)
    ensures
        final(out)@ == old(out)@ + be_bytes(n as nat, 8),
{
    push_be_digits(out, n, 8);
}

/// Appends a byte sequence.
pub fn push_bytes(out: &mut Vec<u8>, value: &[u8])
    ensures
        final(out)@ == old(out)@ + value@,
{
    let ghost start = out@;
    let mut i: usize = 0;
    while i < value.len()
        invariant
            i <= value@.len(),
            out@ == start + value@.take(i as int),
        decreases value.len() - i,
    {
        out.push(value[i]);
        i += 1;
    }
    assert(value@.take(i as int) =~= value@);
}

/// A value framed by its length in eight little-endian bytes.
pub open spec fn framed(value: Seq<u8>) -> Seq<u8> {
    le_bytes(value.len(), 8) + value
}

/// A list of values, each framed by its length.
pub open spec fn framed_all(parts: Seq<Seq<u8>>) -> Seq<u8>
    decreases parts.len(),
{
    if parts.len() == 0 {
        Seq::empty()
    } else {
        framed_all(parts.drop_last()) + framed(parts.last())
    }
}

pub proof fn framed_all_first(parts: Seq<Seq<u8>>)
    requires
        parts.len() > 0,
    ensures
        framed_all(parts) == framed(parts[0]) + framed_all(parts.drop_first()),
    decreases parts.len(),
{
    if parts.len() == 1 {
        assert(parts.drop_last() =~= Seq::<Seq<u8>>::empty());
        assert(parts.drop_first() =~= Seq::<Seq<u8>>::empty());
        assert(framed_all(parts.drop_last()) =~= Seq::<u8>::empty());
        assert(framed_all(parts) =~= framed(parts[0]));
        assert(framed(parts[0]) + framed_all(parts.drop_first()) =~= framed(parts[0]));
    } else {
        framed_all_first(parts.drop_last());
        assert(parts.drop_last().drop_first() =~= parts.drop_first().drop_last());
        assert(framed_all(parts) =~= framed(parts[0]) + (framed_all(
            parts.drop_first().drop_last(),
        ) + framed(parts.last())));
    }
}

/// Framing tells lists of values apart: equal frames come from equal lists.
pub proof fn framed_all_injective(a: Seq<Seq<u8>>, b: Seq<Seq<u8>>)
    requires
        framed_all(a) == framed_all(b),
        forall|i: int| 0 <= i < a.len() ==> (#[trigger] a[i]).len() < byte_range(8),
        forall|i: int| 0 <= i < b.len() ==> (#[trigger] b[i]).len() < byte_range(8),
    ensures
        a == b,
    decreases a.len(),
{
    if a.len() == 0 || b.len() == 0 {
        if a.len() > 0 {
            framed_all_first(a);
            le_bytes_len(a[0].len(), 8);
            assert(framed_all(a).len() > 0);
        }
        if b.len() > 0 {
            framed_all_first(b);
            le_bytes_len(b[0].len(), 8);
            assert(framed_all(b).len() > 0);
        }
        assert(a =~= b);
    } else {
        framed_all_first(a);
        framed_all_first(b);
        let x = framed_all(a);
        let la = a[0].len();
        let lb = b[0].len();
        le_bytes_len(la, 8);
        le_bytes_len(lb, 8);
        assert(x.take(8) =~= le_bytes(la, 8));
        assert(x.take(8) =~= le_bytes(lb, 8));
        le_bytes_injective(la, lb, 8);
        assert(x.subrange(8, 8 + la as int) =~= a[0]);
        assert(x.subrange(8, 8 + lb as int) =~= b[0]);
        assert(x.skip(8 + la as int) =~= framed_all(a.drop_first()));
        assert(x.skip(8 + lb as int) =~= framed_all(b.drop_first()));
        framed_all_injective(a.drop_first(), b.drop_first());
        assert(a =~= seq![a[0]] + a.drop_first());
        assert(b =~= seq![b[0]] + b.drop_first());
    }
}

/// Collects length-framed values and hashes them together.
pub struct PartHasher {
    bytes: Vec<u8>,
    parts: Ghost<Seq<Seq<u8>>>,
}

impl PartHasher {
    pub closed spec fn wf(&self) -> bool {
        self.bytes@ == framed_all(self.parts@)
    }

    /// The values collected so far.
    pub closed spec fn parts(&self) -> Seq<Seq<u8>> {
        self.parts@
    }

    pub fn new() -> (r: PartHasher)
        ensures
            r.wf(),
            r.parts() == Seq::<Seq<u8>>::empty(),
    {
        PartHasher { bytes: Vec::new(), parts: Ghost(Seq::empty()) }
    }

    pub fn part(&mut self, value: &[u8])
        requires
            old(self).wf(),
        ensures
            final(self).wf(),
            final(self).parts() == old(self).parts().push(value@),
    {
        push_le(&mut self.bytes, value.len() as u64);
        push_bytes(&mut self.bytes, value);
        proof {
            let grown = self.parts@.push(value@);
            assert(grown.drop_last() =~= self.parts@);
            assert(self.bytes@ =~= framed_all(grown));
            self.parts@ = grown;
        }
    }

    pub fn finish(self) -> (r: String)
        requires
            self.wf(),
        ensures
            r@ == sha256_hex(framed_all(self.parts())),
            sha256_shape(r@),
    {
        sha256_lower_hex(self.bytes.as_slice())
    }
}

} // verus!
