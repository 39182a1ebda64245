//! Snapshots of documents: what the knowledge base keeps of its sources.

use vstd::prelude::*;
use vstd::string::*;
use vstd::utf8::*;

use crate::clauses;
use crate::config::KnowledgeSourceKind;
use crate::digest::{self, bytes_sha256, content_sha256, hash_id, push_be, push_bytes};
use crate::text::{self, chars_of, is_blank, push_decimal, string_of, text_eq};
use crate::windows;

verus! {

pub const KNOWLEDGE_SCHEMA_VERSION: u32 = 1;

/// One version of one document.
#[derive(Clone, Debug, PartialEq, Eq)]
pub struct KnowledgeSnapshot {
    pub schema_version: u32,
    pub revision_id: String,
    pub source_id: String,
    pub source_kind: KnowledgeSourceKind,
    pub configured_location: String,
    pub document_key: String,
    pub title: String,
    pub source_location: String,
    pub fetched_at: String,
    pub content: String,
    pub content_sha256: String,
    pub previous_revision: Option<String>,
    pub links: Vec<String>,
}

/// The bytes that identify a version of a document.
pub open spec fn revision_bytes(
    source_id: Seq<char>,
    document_key: Seq<char>,
    content_hash: Seq<char>,
) -> Seq<u8> {
    encode_utf8("hippocampus:knowledge-revision:v1\0"@) + clauses::be_framed(
        encode_utf8(source_id),
    ) + clauses::be_framed(encode_utf8(document_key)) + clauses::be_framed(
        encode_utf8(content_hash),
    )
}

pub open spec fn revision_text(
    source_id: Seq<char>,
    document_key: Seq<char>,
    content_hash: Seq<char>,
) -> Seq<char> {
    "rev_"@ + digest::sha256_hex(revision_bytes(source_id, document_key, content_hash))
}

fn push_framed(out: &mut Vec<u8>, value: &str)
    ensures
        final(out)@ == old(out)@ + clauses::be_framed(encode_utf8(value@)),
{
    let bytes = value.as_bytes();
    push_be(out, bytes.len() as u64);
    push_bytes(out, bytes);
    assert(out@ =~= old(out)@ + clauses::be_framed(encode_utf8(value@)));
}

/// The id of a version of a document.
pub fn revision_id(source_id: &str, document_key: &str, content_hash: &str) -> (r: String)
    ensures
        r@ == revision_text(source_id@, document_key@, content_hash@),
        digest::hash_id_shape(r@, "rev_"@),
{
    let mut bytes: Vec<u8> = Vec::new();
    push_bytes(&mut bytes, "hippocampus:knowledge-revision:v1\0".as_bytes());
    push_framed(&mut bytes, source_id);
    push_framed(&mut bytes, document_key);
    push_framed(&mut bytes, content_hash);
    assert(bytes@ =~= revision_bytes(source_id@, document_key@, content_hash@));
    hash_id("rev_", bytes_sha256(bytes.as_slice()).as_str())
}

/// What is hashed for a version tells versions apart.
pub proof fn revision_bytes_injective(
    s1: Seq<char>,
    d1: Seq<char>,
    c1: Seq<char>,
    s2: Seq<char>,
    d2: Seq<char>,
    c2: Seq<char>,
)
    requires
        revision_bytes(s1, d1, c1) == revision_bytes(s2, d2, c2),
        encode_utf8(s1).len() <= u64::MAX,
        encode_utf8(s2).len() <= u64::MAX,
        encode_utf8(d1).len() <= u64::MAX,
        encode_utf8(d2).len() <= u64::MAX,
        encode_utf8(c1).len() <= u64::MAX,
        encode_utf8(c2).len() <= u64::MAX,
    ensures
        s1 == s2,
        d1 == d2,
        c1 == c2,
{
    let head = encode_utf8("hippocampus:knowledge-revision:v1\0"@);
    let e1 = clauses::be_framed(encode_utf8(c1));
    let e2 = clauses::be_framed(encode_utf8(c2));
    let t1 = clauses::be_framed(encode_utf8(d1)) + e1;
    let t2 = clauses::be_framed(encode_utf8(d2)) + e2;
    let w1 = clauses::be_framed(encode_utf8(s1)) + t1;
    let w2 = clauses::be_framed(encode_utf8(s2)) + t2;
    let a = revision_bytes(s1, d1, c1);
    let b = revision_bytes(s2, d2, c2);
    assert(a =~= head + w1);
    assert(b =~= head + w2);
    assert(a.skip(head.len() as int) =~= w1);
    assert(b.skip(head.len() as int) =~= w2);
    clauses::be_framed_prefix(encode_utf8(s1), t1, encode_utf8(s2), t2);
    clauses::be_framed_prefix(encode_utf8(d1), e1, encode_utf8(d2), e2);
    let none = Seq::<u8>::empty();
    assert(e1 + none =~= e1);
    assert(e2 + none =~= e2);
    clauses::be_framed_prefix(encode_utf8(c1), none, encode_utf8(c2), none);
    encode_utf8_decode_utf8(s1);
    encode_utf8_decode_utf8(s2);
    encode_utf8_decode_utf8(d1);
    encode_utf8_decode_utf8(d2);
    encode_utf8_decode_utf8(c1);
    encode_utf8_decode_utf8(c2);
}

/// A hexadecimal digit in either case.
pub open spec fn hex_digit(c: char) -> bool {
    let n = c as u32;
    (0x30 <= n <= 0x39) || (0x41 <= n <= 0x46) || (0x61 <= n <= 0x66)
}

/// A text that has the shape of a revision id, and is safe as a file name.
pub open spec fn hash_id_shape(s: Seq<char>) -> bool {
    s.len() == 68 && text::has_prefix(s, "rev_"@) && forall|i: int|
        4 <= i < s.len() ==> hex_digit(#[trigger] s[i])
}

/// Whether a text has the shape of a revision id.
pub fn is_hash_id(value: &str) -> (r: bool)
    ensures
        r == hash_id_shape(value@),
{
    let chars = chars_of(value);
    if chars.len() != 68 || !text::starts_with(value, "rev_") {
        return false;
    }
    let mut i: usize = 4;
    while i < chars.len()
        invariant
            4 <= i <= chars@.len(),
            chars@ == value@,
            forall|k: int| 4 <= k < i ==> hex_digit(#[trigger] chars@[k]),
        decreases chars.len() - i,
    {
        let n: u32 = chars[i] as u32;
        let fine = (0x30 <= n && n <= 0x39) || (0x41 <= n && n <= 0x46) || (0x61 <= n && n <= 0x66);
        if !fine {
            assert(!hex_digit(value@[i as int]));
            return false;
        }
        i += 1;
    }
    true
}

impl KnowledgeSnapshot {
    /// What is wrong with a snapshot.
    pub open spec fn fault(self) -> Option<Seq<char>> {
        if self.schema_version != KNOWLEDGE_SCHEMA_VERSION {
            Some("不支持的知识快照版本 "@ + text::decimal(self.schema_version as nat))
        } else if self.source_id@.len() == 0 || self.document_key@.len() == 0 {
            Some("知识快照缺少 source_id 或 document_key"@)
        } else if digest::text_digest(self.content@) != self.content_sha256@ {
            Some("知识快照 "@ + self.revision_id@ + " 内容哈希不匹配"@)
        } else if revision_text(self.source_id@, self.document_key@, self.content_sha256@)
            != self.revision_id@ {
            Some("知识快照 "@ + self.revision_id@ + " revision ID 不匹配"@)
        } else {
            None
        }
    }

    /// Checks that a snapshot is what its id says.
    pub fn validate(&self) -> (r: Result<(), String>)
        ensures
            match r {
                Ok(_) => self.fault() is None,
                Err(e) => self.fault() == Some(e@),
            },
    {
        if self.schema_version != KNOWLEDGE_SCHEMA_VERSION {
            let mut e = "不支持的知识快照版本 ".to_owned();
            push_decimal(&mut e, self.schema_version as u64);
            return Err(e);
        }
        if self.source_id.as_str().unicode_len() == 0 || self.document_key.as_str().unicode_len()
            == 0 {
            return Err("知识快照缺少 source_id 或 document_key".to_owned());
        }
        let hash = content_sha256(self.content.as_str());
        if !text_eq(hash.as_str(), self.content_sha256.as_str()) {
            let mut e = "知识快照 ".to_owned();
            e.append(self.revision_id.as_str());
            e.append(" 内容哈希不匹配");
            return Err(e);
        }
        let expected = revision_id(
            self.source_id.as_str(),
            self.document_key.as_str(),
            self.content_sha256.as_str(),
        );
        if !text_eq(expected.as_str(), self.revision_id.as_str()) {
            let mut e = "知识快照 ".to_owned();
            e.append(self.revision_id.as_str());
            e.append(" revision ID 不匹配");
            return Err(e);
        }
        Ok(())
    }
}

/// A range of characters of a document, or why there is none.
pub open spec fn sliced(content: Seq<char>, start: int, end: int) -> Result<Seq<char>, Seq<char>> {
    if start > end || end > content.len() {
        Err(
            "知识片段范围 "@ + text::decimal(start as nat) + ".."@ + text::decimal(end as nat)
                + " 超出 "@ + text::decimal(content.len()),
        )
    } else {
        Ok(content.subrange(start, end))
    }
}

/// Takes a range of characters of a document.
pub fn slice_chars(content: &str, start: usize, end: usize) -> (r: Result<String, String>)
    ensures
        match r {
            Ok(s) => sliced(content@, start as int, end as int) == Ok::<Seq<char>, Seq<char>>(s@),
            Err(e) => sliced(content@, start as int, end as int) == Err::<Seq<char>, Seq<char>>(
                e@,
            ),
        },
{
    let chars = chars_of(content);
    if start > end || end > chars.len() {
        let mut e = "知识片段范围 ".to_owned();
        push_decimal(&mut e, start as u64);
        e.append("..");
        push_decimal(&mut e, end as u64);
        e.append(" 超出 ");
        push_decimal(&mut e, chars.len() as u64);
        return Err(e);
    }
    Ok(string_of(&chars, start, end))
}

/// How a passage was cut.
#[derive(Clone, Copy, Debug, PartialEq, Eq, Structural)]
pub enum PassageKind {
    Document,
    Fragment,
}

/// A range of characters that is indexed.
#[derive(Clone, Copy, Debug, PartialEq, Eq, Structural)]
pub struct Passage {
    pub start: usize,
    pub end: usize,
    pub kind: PassageKind,
}

/// The passages of a document of `len` characters: the whole, and overlapping
/// fragments of a long one.
pub open spec fn passages(len: int) -> Seq<(int, int, PassageKind)> {
    let whole = seq![(0int, len, PassageKind::Document)];
    if len > 240 {
        let cut = windows::windows(len);
        whole + Seq::new(cut.len(), |i: int| (cut[i].0, cut[i].1, PassageKind::Fragment))
    } else {
        whole
    }
}

pub open spec fn passage_models(v: Seq<Passage>) -> Seq<(int, int, PassageKind)> {
    Seq::new(v.len(), |i: int| (v[i].start as int, v[i].end as int, v[i].kind))
}

/// Cuts a document into the passages that are indexed.
pub fn passage_spans(content: &str) -> (r: Vec<Passage>)
    ensures
        passage_models(r@) == passages(content@.len() as int),
{
    let chars = chars_of(content);
    let len = chars.len();
    let mut out: Vec<Passage> = Vec::new();
    out.push(Passage { start: 0, end: len, kind: PassageKind::Document });
    if len <= 240 {
        assert(passage_models(out@) =~= passages(len as int));
        return out;
    }
    let ghost all = windows::windows(len as int);
    let mut start: usize = 0;
    assert(out@.len() == 1);
    assert(all.skip(0) =~= all);
    while len - start > 240
        invariant
            start < len,
            len == content@.len(),
            all == windows::windows(len as int),
            out@.len() >= 1,
            passage_models(out@)[0] == (0int, len as int, PassageKind::Document),
            out@.len() - 1 <= all.len(),
            all.skip(out@.len() - 1) == windows::windows_from(start as int, len as int),
            forall|k: int|
                0 <= k < out@.len() - 1 ==> #[trigger] passage_models(out@)[k + 1] == (
                    all[k].0,
                    all[k].1,
                    PassageKind::Fragment,
                ),
        decreases len - start,
    {
        let ghost n = (out@.len() - 1) as int;
        let ghost rest = windows::windows_from(start as int, len as int);
        assert(rest.len() > 0 && rest[0] == (start as int, start + 240));
        assert(all[n] == all.skip(n)[0]);
        let ghost before = passage_models(out@);
        out.push(Passage { start, end: start + 240, kind: PassageKind::Fragment });
        proof {
            let now = passage_models(out@);
            assert(now =~= before.push((start as int, start + 240, PassageKind::Fragment)));
            assert(all.skip(n + 1) =~= all.skip(n).skip(1));
            assert(rest.skip(1) =~= windows::windows_from(start + 200, len as int));
            assert forall|k: int| 0 <= k < n + 1 implies #[trigger] now[k + 1] == (
                all[k].0,
                all[k].1,
                PassageKind::Fragment,
            ) by {
                if k < n {
                    assert(before[k + 1] == now[k + 1]);
                }
            }
        }
        start += 200;
    }
    let ghost n = (out@.len() - 1) as int;
    let ghost before = passage_models(out@);
    assert(windows::windows_from(start as int, len as int) =~= seq![(start as int, len as int)]);
    assert(all[n] == all.skip(n)[0]);
    out.push(Passage { start, end: len, kind: PassageKind::Fragment });
    proof {
        let now = passage_models(out@);
        assert(now =~= before.push((start as int, len as int, PassageKind::Fragment)));
        assert(all.len() == n + 1);
        let want = passages(len as int);
        assert forall|k: int| 0 <= k < now.len() implies now[k] == want[k] by {
            if k > 0 && k - 1 < n {
                assert(before[(k - 1) + 1] == now[k]);
            }
        }
        assert(now =~= want);
    }
    out
}

/// Every passage is a range of the document, and a fragment holds at most 240
/// characters.
pub proof fn passages_are_ranges(len: int, k: int)
    requires
        0 <= len,
        0 <= k < passages(len).len(),
    ensures
        0 <= passages(len)[k].0 <= passages(len)[k].1 <= len,
        passages(len)[k].2 == PassageKind::Fragment ==> passages(len)[k].1 - passages(len)[k].0
            <= 240,
        k == 0 <==> passages(len)[k].2 == PassageKind::Document,
{
    if len > 240 {
        windows::windows_shape(0, len);
        last_window_is_short(0, len);
        let cut = windows::windows(len);
        if k > 0 {
            assert(passages(len)[k] == (cut[k - 1].0, cut[k - 1].1, PassageKind::Fragment));
        }
    }
}

proof fn last_window_is_short(start: int, len: int)
    requires
        start < len,
    ensures
        windows::windows_from(start, len).len() > 0,
        windows::windows_from(start, len).last().1 - windows::windows_from(start, len).last().0
            <= 240,
    decreases len - start,
{
    if start + 240 < len {
        last_window_is_short(start + 200, len);
    }
}

/// A letter in lower case.
pub open spec fn ascii_lower(c: char) -> char {
    if 'A' <= c && c <= 'Z' {
        (c as u32 + 32) as char
    } else {
        c
    }
}

/// The characters of a name from `at` on, in either case, make up a lower-case
/// text.
pub open spec fn spells(name: Seq<char>, at: int, word: Seq<char>) -> bool {
    &&& 0 <= at
    &&& at + word.len() == name.len()
    &&& forall|i: int| 0 <= i < word.len() ==> ascii_lower(#[trigger] name[at + i]) == word[i]
}

/// A file name with something before the extension `.txt` or `.md`.
pub open spec fn text_file_name(name: Seq<char>) -> bool {
    ||| name.len() > 4 && spells(name, name.len() - 4, ".txt"@)
    ||| name.len() > 3 && spells(name, name.len() - 3, ".md"@)
}

fn lower_ascii(c: char) -> (r: char)
    ensures
        r == ascii_lower(c),
{
    match c {
        'A' => 'a',
        'B' => 'b',
        'C' => 'c',
        'D' => 'd',
        'E' => 'e',
        'F' => 'f',
        'G' => 'g',
        'H' => 'h',
        'I' => 'i',
        'J' => 'j',
        'K' => 'k',
        'L' => 'l',
        'M' => 'm',
        'N' => 'n',
        'O' => 'o',
        'P' => 'p',
        'Q' => 'q',
        'R' => 'r',
        'S' => 's',
        'T' => 't',
        'U' => 'u',
        'V' => 'v',
        'W' => 'w',
        'X' => 'x',
        'Y' => 'y',
        'Z' => 'z',
        _ => c,
    }
}

fn ends_in(name: &Vec<char>, word: &Vec<char>) -> (r: bool)
    requires
        word@.len() <= name@.len(),
    ensures
        r == spells(name@, name@.len() - word@.len(), word@),
{
    let total = name.len();
    let at = total - word.len();
    let mut i: usize = 0;
    while i < word.len()
        invariant
            i <= word@.len() <= name@.len(),
            total == name@.len(),
            at == total - word@.len(),
            forall|k: int| 0 <= k < i ==> ascii_lower(#[trigger] name@[at + k]) == word@[k],
        decreases word.len() - i,
    {
        if lower_ascii(name[at + i]) != word[i] {
            assert(ascii_lower(name@[at + i]) != word@[i as int]);
            return false;
        }
        i += 1;
    }
    true
}

/// Whether a file of this name is read as text.
pub fn supported_text_file(name: &str) -> (r: bool)
    ensures
        r == text_file_name(name@),
{
    let chars = chars_of(name);
    let plain = chars_of(".txt");
    let marked = chars_of(".md");
    proof {
        reveal_strlit(".txt");
        reveal_strlit(".md");
    }
    (chars.len() > 4 && ends_in(&chars, &plain)) || (chars.len() > 3 && ends_in(&chars, &marked))
}

/// A document that was read from a source.
#[derive(Debug, PartialEq, Eq)]
pub struct SourceDocument {
    pub document_key: String,
    pub title: String,
    pub source_location: String,
    pub content: String,
    pub links: Vec<String>,
}

/// Makes the document of a web page: without a title it goes by its address.
pub fn page_document(location: &str, title: &str, content: String, links: Vec<String>) -> (r:
    Result<SourceDocument, String>)
    ensures
        match r {
            Ok(d) => !text::blank(content@) && d.document_key@ == location@ && d.source_location@
                == location@ && d.content@ == content@ && d.links@ == links@ && d.title@ == (
            if text::blank(title@) {
                location@
            } else {
                title@
            }),
            Err(e) => text::blank(content@) && e@ == "网页没有可索引正文"@,
        },
{
    if is_blank(content.as_str()) {
        return Err("网页没有可索引正文".to_owned());
    }
    let name = if is_blank(title) {
        location.to_owned()
    } else {
        title.to_owned()
    };
    Ok(
        SourceDocument {
            document_key: location.to_owned(),
            title: name,
            source_location: location.to_owned(),
            content,
            links,
        },
    )
}

/// What a snapshot holds.
pub struct SnapshotModel {
    pub revision_id: Seq<char>,
    pub source_id: Seq<char>,
    pub source_kind: KnowledgeSourceKind,
    pub configured_location: Seq<char>,
    pub document_key: Seq<char>,
    pub title: Seq<char>,
    pub source_location: Seq<char>,
    pub fetched_at: Seq<char>,
    pub content: Seq<char>,
    pub content_sha256: Seq<char>,
    pub previous_revision: Option<Seq<char>>,
    pub links: Seq<Seq<char>>,
}

pub open spec fn snapshot_model(s: KnowledgeSnapshot) -> SnapshotModel {
    SnapshotModel {
        revision_id: s.revision_id@,
        source_id: s.source_id@,
        source_kind: s.source_kind,
        configured_location: s.configured_location@,
        document_key: s.document_key@,
        title: s.title@,
        source_location: s.source_location@,
        fetched_at: s.fetched_at@,
        content: s.content@,
        content_sha256: s.content_sha256@,
        previous_revision: text::opt_text(s.previous_revision),
        links: text::texts(s.links@),
    }
}

/// The version of a document among earlier ones: the last that has its key.
pub open spec fn earlier_version(v: Seq<KnowledgeSnapshot>, key: Seq<char>, n: int) -> Option<
    Seq<char>,
>
    decreases n,
{
    if n <= 0 {
        None
    } else if v[n - 1].document_key@ == key {
        Some(v[n - 1].revision_id@)
    } else {
        earlier_version(v, key, n - 1)
    }
}

fn find_earlier(v: &Vec<KnowledgeSnapshot>, key: &str) -> (r: Option<String>)
    ensures
        text::opt_text(r) == earlier_version(v@, key@, v@.len() as int),
{
    let mut n: usize = v.len();
    while n > 0
        invariant
            n <= v@.len(),
            earlier_version(v@, key@, v@.len() as int) == earlier_version(v@, key@, n as int),
        decreases n,
    {
        if text_eq(v[n - 1].document_key.as_str(), key) {
            return Some(v[n - 1].revision_id.clone());
        }
        n -= 1;
    }
    None
}

/// The snapshot of a document that was read, given the versions before.
pub open spec fn snapshot_of(
    source_id: Seq<char>,
    kind: KnowledgeSourceKind,
    location: Seq<char>,
    d: SourceDocument,
    now: Seq<char>,
    earlier: Seq<KnowledgeSnapshot>,
) -> SnapshotModel {
    let hash = digest::text_digest(d.content@);
    let id = revision_text(source_id, d.document_key@, hash);
    let previous = earlier_version(earlier, d.document_key@, earlier.len() as int);
    SnapshotModel {
        revision_id: id,
        source_id,
        source_kind: kind,
        configured_location: location,
        document_key: d.document_key@,
        title: d.title@,
        source_location: d.source_location@,
        fetched_at: now,
        content: d.content@,
        content_sha256: hash,
        previous_revision: if previous == Some(id) {
            None
        } else {
            previous
        },
        links: text::texts(d.links@),
    }
}

/// Makes the snapshot of a document that was read.
pub fn make_snapshot(
    source_id: &str,
    kind: KnowledgeSourceKind,
    location: &str,
    document: SourceDocument,
    now: &str,
    earlier: &Vec<KnowledgeSnapshot>,
) -> (r: KnowledgeSnapshot)
    ensures
        snapshot_model(r) == snapshot_of(source_id@, kind, location@, document, now@, earlier@),
        r.schema_version == KNOWLEDGE_SCHEMA_VERSION,
{
    let hash = content_sha256(document.content.as_str());
    let id = revision_id(source_id, document.document_key.as_str(), hash.as_str());
    let previous_revision = match find_earlier(earlier, document.document_key.as_str()) {
        Some(before) => if text_eq(before.as_str(), id.as_str()) {
            None
        } else {
            Some(before)
        },
        None => None,
    };
    KnowledgeSnapshot {
        schema_version: KNOWLEDGE_SCHEMA_VERSION,
        revision_id: id,
        source_id: source_id.to_owned(),
        source_kind: kind,
        configured_location: location.to_owned(),
        document_key: document.document_key,
        title: document.title,
        source_location: document.source_location,
        fetched_at: now.to_owned(),
        content: document.content,
        content_sha256: hash,
        previous_revision,
        links: document.links,
    }
}

/// A snapshot that is made of a named document passes every check.
pub proof fn made_snapshots_are_valid(
    s: KnowledgeSnapshot,
    kind: KnowledgeSourceKind,
    location: Seq<char>,
    d: SourceDocument,
    now: Seq<char>,
    earlier: Seq<KnowledgeSnapshot>,
)
    requires
        s.schema_version == KNOWLEDGE_SCHEMA_VERSION,
        s.source_id@.len() > 0,
        d.document_key@.len() > 0,
        snapshot_model(s) == snapshot_of(s.source_id@, kind, location, d, now, earlier),
    ensures
        s.fault() is None,
{
    let m = snapshot_model(s);
    assert(m.content == d.content@);
    assert(m.document_key == d.document_key@);
    assert(m.content_sha256 == digest::text_digest(d.content@));
    assert(m.revision_id == revision_text(s.source_id@, d.document_key@, m.content_sha256));
}

/// Whether a snapshot is to be written, or why not: `existing` is what is stored
/// under its id.
pub open spec fn write_outcome(s: KnowledgeSnapshot, existing: Option<KnowledgeSnapshot>) -> Result<
    bool,
    Seq<char>,
> {
    match s.fault() {
        Some(e) => Err(e),
        None => match existing {
            None => Ok(true),
            Some(old) => if old.source_id@ != s.source_id@ || old.document_key@ != s.document_key@
                || old.content_sha256@ != s.content_sha256@ {
                Err("知识 revision ID 冲突："@ + s.revision_id@)
            } else {
                Ok(false)
            },
        },
    }
}

pub open spec fn opt_snapshot(o: Option<&KnowledgeSnapshot>) -> Option<KnowledgeSnapshot> {
    match o {
        Some(s) => Some(*s),
        None => None,
    }
}

/// Decides whether a snapshot is to be written: one that is stored stays.
pub fn should_write(snapshot: &KnowledgeSnapshot, existing: Option<&KnowledgeSnapshot>) -> (r:
    Result<bool, String>)
    ensures
        match r {
            Ok(b) => write_outcome(*snapshot, opt_snapshot(existing)) == Ok::<bool, Seq<char>>(b),
            Err(e) => write_outcome(*snapshot, opt_snapshot(existing)) == Err::<bool, Seq<char>>(
                e@,
            ),
        },
{
    if let Err(e) = snapshot.validate() {
        return Err(e);
    }
    match existing {
        None => Ok(true),
        Some(stored) => {
            if !text_eq(stored.source_id.as_str(), snapshot.source_id.as_str()) || !text_eq(
                stored.document_key.as_str(),
                snapshot.document_key.as_str(),
            ) || !text_eq(stored.content_sha256.as_str(), snapshot.content_sha256.as_str()) {
                let mut e = "知识 revision ID 冲突：".to_owned();
                e.append(snapshot.revision_id.as_str());
                return Err(e);
            }
            Ok(false)
        },
    }
}

/// A document that is read again unchanged is no new version: its snapshot gets
/// the name of the one that is stored, and is not written.
pub proof fn unchanged_documents_stay(
    stored: KnowledgeSnapshot,
    again: KnowledgeSnapshot,
    source_id: Seq<char>,
    kind: KnowledgeSourceKind,
    location: Seq<char>,
    first: SourceDocument,
    second: SourceDocument,
    read_at: Seq<char>,
    now: Seq<char>,
    before: Seq<KnowledgeSnapshot>,
    earlier: Seq<KnowledgeSnapshot>,
)
    requires
        snapshot_model(stored) == snapshot_of(source_id, kind, location, first, read_at, before),
        snapshot_model(again) == snapshot_of(source_id, kind, location, second, now, earlier),
        again.fault() is None,
        second.document_key@ == first.document_key@,
        second.content@ == first.content@,
    ensures
        again.revision_id@ == stored.revision_id@,
        write_outcome(again, Some(stored)) == Ok::<bool, Seq<char>>(false),
{
}

/// A passage can be taken exactly where its range lies in the document, and holds
/// the characters of the range.
pub proof fn passages_hold_their_range(content: Seq<char>, start: int, end: int)
    requires
        0 <= start,
    ensures
        sliced(content, start, end) is Ok <==> start <= end <= content.len(),
        sliced(content, start, end) matches Ok(s) ==> s.len() == end - start && forall|k: int|
            0 <= k < s.len() ==> #[trigger] s[k] == content[start + k],
{
}

/// A snapshot is accepted exactly where it has a source and a key, its digest is
/// that of its content, and its name is that of source, key and digest. One that
/// is stored under its name is never written again, and never replaced by another.
pub proof fn accepted_snapshots_are_what_they_say(
    s: KnowledgeSnapshot,
    existing: Option<KnowledgeSnapshot>,
)
    ensures
        s.fault() is None <==> s.schema_version == KNOWLEDGE_SCHEMA_VERSION && s.source_id@.len()
            > 0 && s.document_key@.len() > 0 && s.content_sha256@ == digest::text_digest(s.content@)
            && s.revision_id@ == revision_text(s.source_id@, s.document_key@, s.content_sha256@),
        write_outcome(s, existing) == Ok::<bool, Seq<char>>(true) <==> s.fault() is None
            && existing is None,
        write_outcome(s, existing) == Ok::<bool, Seq<char>>(false) <==> s.fault() is None && (
        existing matches Some(kept) && kept.source_id@ == s.source_id@ && kept.document_key@
            == s.document_key@ && kept.content_sha256@ == s.content_sha256@),
{
}

} // verus!
