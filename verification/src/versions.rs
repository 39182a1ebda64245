//! Taking the documents of a source into the store of snapshots: which of them
//! are new versions, and what a whole synchronisation leaves behind.

use vstd::prelude::*;
use vstd::string::*;

use crate::config::{KnowledgeSourceConfig, KnowledgeSourceKind};
use crate::snapshot::{
    self, make_snapshot, should_write, KnowledgeSnapshot, SnapshotModel, SourceDocument,
    KNOWLEDGE_SCHEMA_VERSION,
};
use crate::syncing::{self, SourceModel, SourceOutcome};
use crate::text::{self, copy_texts, text_eq};

verus! {

pub open spec fn snapshot_models(v: Seq<KnowledgeSnapshot>) -> Seq<SnapshotModel> {
    Seq::new(v.len(), |i: int| snapshot::snapshot_model(v[i]))
}

/// The first snapshot with an id, from `i` on.
pub open spec fn stored_from(store: Seq<SnapshotModel>, id: Seq<char>, i: int) -> Option<
    SnapshotModel,
>
    decreases store.len() - i,
{
    if i < 0 || i >= store.len() {
        None
    } else if store[i].revision_id == id {
        Some(store[i])
    } else {
        stored_from(store, id, i + 1)
    }
}

/// What is stored under an id.
pub open spec fn stored_under(store: Seq<SnapshotModel>, id: Seq<char>) -> Option<SnapshotModel> {
    stored_from(store, id, 0)
}

/// Whether two snapshots are of the same version of the same document.
pub open spec fn same_version(a: SnapshotModel, b: SnapshotModel) -> bool {
    a.source_id == b.source_id && a.document_key == b.document_key && a.content_sha256
        == b.content_sha256
}

/// Whether a snapshot that was just made is written, or why not.
pub open spec fn write_decision(m: SnapshotModel, existing: Option<SnapshotModel>) -> Result<
    bool,
    Seq<char>,
> {
    if m.source_id.len() == 0 || m.document_key.len() == 0 {
        Err("知识快照缺少 source_id 或 document_key"@)
    } else {
        match existing {
            None => Ok(true),
            Some(old) => if same_version(old, m) {
                Ok(false)
            } else {
                Err("知识 revision ID 冲突："@ + m.revision_id)
            },
        }
    }
}

/// What a source was read as.
pub struct Reading {
    pub source_id: Seq<char>,
    pub kind: KnowledgeSourceKind,
    pub location: Seq<char>,
    pub documents: Seq<SourceDocument>,
    pub now: Seq<char>,
    pub earlier: Seq<KnowledgeSnapshot>,
}

impl Reading {
    /// The snapshot of a document that was read.
    pub open spec fn made(self, i: int) -> SnapshotModel {
        snapshot::snapshot_of(
            self.source_id,
            self.kind,
            self.location,
            self.documents[i],
            self.now,
            self.earlier,
        )
    }
}

/// What is taken of a source: the versions it has, the snapshots that are to be
/// written, and why it went no further.
pub struct TakenModel {
    pub revisions: Seq<Seq<char>>,
    pub writes: Seq<SnapshotModel>,
    pub fault: Option<Seq<char>>,
}

/// What is taken of the first `n` documents of a source.
pub open spec fn taken(r: Reading, store: Seq<SnapshotModel>, n: int) -> TakenModel
    decreases n,
{
    if n <= 0 {
        TakenModel { revisions: Seq::empty(), writes: Seq::empty(), fault: None }
    } else {
        let t = taken(r, store, n - 1);
        let m = r.made(n - 1);
        if t.fault is Some {
            t
        } else {
            match write_decision(m, stored_under(store + t.writes, m.revision_id)) {
                Err(e) => TakenModel { fault: Some(e), ..t },
                Ok(new) => TakenModel {
                    revisions: t.revisions.push(m.revision_id),
                    writes: if new {
                        t.writes.push(m)
                    } else {
                        t.writes
                    },
                    fault: None,
                },
            }
        }
    }
}

/// What is taken of all documents of a source.
pub open spec fn taken_of(r: Reading, store: Seq<SnapshotModel>) -> TakenModel {
    taken(r, store, r.documents.len() as int)
}

/// What is taken of a source.
#[derive(Debug, PartialEq, Eq)]
pub struct TakenSource {
    pub revisions: Vec<String>,
    pub writes: Vec<KnowledgeSnapshot>,
    pub fault: Option<String>,
}

pub open spec fn taken_model(t: TakenSource) -> TakenModel {
    TakenModel {
        revisions: text::texts(t.revisions@),
        writes: snapshot_models(t.writes@),
        fault: text::opt_text(t.fault),
    }
}

fn copy_document(d: &SourceDocument) -> (r: SourceDocument)
    ensures
        r.document_key@ == d.document_key@,
        r.title@ == d.title@,
        r.source_location@ == d.source_location@,
        r.content@ == d.content@,
        text::texts(r.links@) == text::texts(d.links@),
{
    SourceDocument {
        document_key: d.document_key.clone(),
        title: d.title.clone(),
        source_location: d.source_location.clone(),
        content: d.content.clone(),
        links: copy_texts(&d.links),
    }
}

fn find_from<'a>(v: &'a Vec<KnowledgeSnapshot>, id: &str) -> (r: Option<&'a KnowledgeSnapshot>)
    ensures
        match r {
            Some(s) => stored_under(snapshot_models(v@), id@) == Some(
                snapshot::snapshot_model(*s),
            ),
            None => stored_under(snapshot_models(v@), id@) is None,
        },
{
    let ghost all = snapshot_models(v@);
    let mut i: usize = 0;
    while i < v.len()
        invariant
            i <= v@.len(),
            all == snapshot_models(v@),
            stored_under(all, id@) == stored_from(all, id@, i as int),
        decreases v.len() - i,
    {
        assert(all[i as int] == snapshot::snapshot_model(v@[i as int]));
        if text_eq(v[i].revision_id.as_str(), id) {
            return Some(&v[i]);
        }
        i += 1;
    }
    None
}

proof fn stored_in_two(a: Seq<SnapshotModel>, b: Seq<SnapshotModel>, id: Seq<char>, i: int)
    requires
        0 <= i <= a.len(),
    ensures
        stored_from(a + b, id, i) == match stored_from(a, id, i) {
            Some(s) => Some(s),
            None => stored_under(b, id),
        },
    decreases a.len() - i,
{
    let all = a + b;
    if i < a.len() {
        assert(all[i] == a[i]);
        if a[i].revision_id != id {
            stored_in_two(a, b, id, i + 1);
        }
    } else {
        stored_in_tail(a, b, id, 0);
    }
}

proof fn stored_in_tail(a: Seq<SnapshotModel>, b: Seq<SnapshotModel>, id: Seq<char>, k: int)
    requires
        0 <= k <= b.len(),
    ensures
        stored_from(a + b, id, a.len() + k) == stored_from(b, id, k),
    decreases b.len() - k,
{
    let all = a + b;
    if k < b.len() {
        assert(all[a.len() + k] == b[k]);
        if b[k].revision_id != id {
            stored_in_tail(a, b, id, k + 1);
        }
    }
}

/// What a snapshot that was just made is written for.
proof fn made_snapshots_are_decided(
    s: KnowledgeSnapshot,
    r: Reading,
    i: int,
    existing: Option<KnowledgeSnapshot>,
)
    requires
        s.schema_version == KNOWLEDGE_SCHEMA_VERSION,
        snapshot::snapshot_model(s) == r.made(i),
    ensures
        snapshot::write_outcome(s, existing) == write_decision(
            r.made(i),
            match existing {
                Some(e) => Some(snapshot::snapshot_model(e)),
                None => None,
            },
        ),
{
    let m = snapshot::snapshot_model(s);
    assert(m.content == s.content@ && m.content_sha256 == s.content_sha256@);
    assert(m.source_id == s.source_id@ && m.document_key == s.document_key@);
    assert(m.revision_id == s.revision_id@);
}

/// Takes the documents of a source: `stored` holds what is stored under the ids
/// of their versions, `earlier` the versions that the source had before.
pub fn take_documents(
    source: &KnowledgeSourceConfig,
    documents: &Vec<SourceDocument>,
    now: &str,
    earlier: &Vec<KnowledgeSnapshot>,
    stored: &Vec<KnowledgeSnapshot>,
) -> (t: TakenSource)
    ensures
        taken_model(t) == taken_of(
            (Reading {
                source_id: source.id@,
                kind: source.kind,
                location: source.location@,
                documents: documents@,
                now: now@,
                earlier: earlier@,
            }),
            snapshot_models(stored@),
        ),
{
    let ghost r = Reading {
        source_id: source.id@,
        kind: source.kind,
        location: source.location@,
        documents: documents@,
        now: now@,
        earlier: earlier@,
    };
    let ghost store = snapshot_models(stored@);
    let mut out = TakenSource { revisions: Vec::new(), writes: Vec::new(), fault: None };
    let mut i: usize = 0;
    assert(text::texts(out.revisions@) =~= Seq::empty());
    assert(snapshot_models(out.writes@) =~= Seq::empty());
    while i < documents.len() && out.fault.is_none()
        invariant
            i <= documents@.len(),
            r == (Reading {
                source_id: source.id@,
                kind: source.kind,
                location: source.location@,
                documents: documents@,
                now: now@,
                earlier: earlier@,
            }),
            store == snapshot_models(stored@),
            taken_model(out) == taken(r, store, i as int),
        decreases documents.len() - i,
    {
        let ghost before = taken_model(out);
        let made = make_snapshot(
            source.id.as_str(),
            source.kind,
            source.location.as_str(),
            copy_document(&documents[i]),
            now,
            earlier,
        );
        let ghost m = r.made(i as int);
        assert(snapshot::snapshot_model(made) == m);
        proof {
            stored_in_two(store, before.writes, m.revision_id, 0);
        }
        let existing = match find_from(stored, made.revision_id.as_str()) {
            Some(s) => Some(s),
            None => find_from(&out.writes, made.revision_id.as_str()),
        };
        proof {
            made_snapshots_are_decided(made, r, i as int, snapshot::opt_snapshot(existing));
        }
        let decision = should_write(&made, existing);
        match decision {
            Err(e) => {
                out.fault = Some(e);
            },
            Ok(new) => {
                let ghost names = text::texts(out.revisions@);
                out.revisions.push(made.revision_id.clone());
                assert(text::texts(out.revisions@) =~= names.push(m.revision_id));
                if new {
                    let ghost written = snapshot_models(out.writes@);
                    out.writes.push(made);
                    assert(snapshot_models(out.writes@) =~= written.push(m));
                }
            },
        }
        i += 1;
    }
    proof {
        faults_stay(r, store, i as int, documents@.len() as int);
    }
    out
}

proof fn faults_stay(r: Reading, store: Seq<SnapshotModel>, i: int, n: int)
    requires
        0 <= i <= n,
        taken(r, store, i).fault is Some || i == n,
    ensures
        taken(r, store, n) == taken(r, store, i),
    decreases n - i,
{
    if i < n {
        faults_stay(r, store, i, n - 1);
    }
}

/// What is noted of a source that was read without a fault.
pub fn source_outcome(t: TakenSource) -> (r: SourceOutcome)
    requires
        taken_model(t).fault is None,
    ensures
        outcome_is(r, taken_model(t)),
{
    assert(snapshot_models(t.writes@).len() == t.writes@.len());
    SourceOutcome::Read { new_revisions: t.writes.len(), revisions: t.revisions }
}

/// Whether an outcome says of a source what was taken of it; a fault has no
/// outcome, since it ends the synchronisation.
pub open spec fn outcome_is(o: SourceOutcome, t: TakenModel) -> bool {
    match o {
        SourceOutcome::Read { revisions, new_revisions } => t.fault is None && text::texts(
            revisions@,
        ) == t.revisions && new_revisions == t.writes.len(),
        SourceOutcome::Failed(_) => false,
    }
}

/// Whether a store holds the version of a document that was read.
pub open spec fn holds_version(store: Seq<SnapshotModel>, m: SnapshotModel) -> bool {
    stored_under(store, m.revision_id) matches Some(old) && same_version(old, m)
}

/// A store that grows keeps what it holds.
proof fn growing_keeps(a: Seq<SnapshotModel>, b: Seq<SnapshotModel>, m: SnapshotModel)
    requires
        holds_version(a, m),
    ensures
        holds_version(a + b, m),
{
    stored_in_two(a, b, m.revision_id, 0);
}

/// What was taken is stored afterwards, every document as its version.
proof fn taken_is_stored(r: Reading, store: Seq<SnapshotModel>, n: int)
    requires
        0 <= n <= r.documents.len(),
        taken(r, store, n).fault is None,
    ensures
        taken(r, store, n).revisions == Seq::new(n as nat, |i: int| r.made(i).revision_id),
        forall|i: int|
            0 <= i < n ==> holds_version(
                store + taken(r, store, n).writes,
                #[trigger] r.made(i),
            ) && r.made(i).source_id.len() > 0 && r.made(i).document_key.len() > 0,
    decreases n,
{
    let t = taken(r, store, n);
    if n <= 0 {
        assert(t.revisions =~= Seq::new(n as nat, |i: int| r.made(i).revision_id));
    } else {
        let before = taken(r, store, n - 1);
        let m = r.made(n - 1);
        taken_is_stored(r, store, n - 1);
        let held = store + before.writes;
        assert(t.revisions =~= Seq::new(n as nat, |i: int| r.made(i).revision_id));
        assert(store + before.writes.push(m) =~= held + seq![m]);
        let grown = store + t.writes;
        assert forall|i: int| 0 <= i < n implies holds_version(grown, #[trigger] r.made(i)) && r.made(
            i,
        ).source_id.len() > 0 && r.made(i).document_key.len() > 0 by {
            if i < n - 1 {
                growing_keeps(held, seq![m], r.made(i));
            } else if stored_under(held, m.revision_id) is None {
                stored_in_two(held, seq![m], m.revision_id, 0);
                assert(seq![m][0] == m);
                assert(stored_under(seq![m], m.revision_id) == Some(m));
            }
        }
    }
}

/// Documents whose versions are all stored are taken without a write.
proof fn stored_is_not_written(r: Reading, store: Seq<SnapshotModel>, n: int)
    requires
        0 <= n <= r.documents.len(),
        forall|i: int|
            0 <= i < n ==> holds_version(store, #[trigger] r.made(i)) && r.made(i).source_id.len()
                > 0 && r.made(i).document_key.len() > 0,
    ensures
        taken(r, store, n) == (TakenModel {
            revisions: Seq::new(n as nat, |i: int| r.made(i).revision_id),
            writes: Seq::empty(),
            fault: None,
        }),
    decreases n,
{
    let want = Seq::new(n as nat, |i: int| r.made(i).revision_id);
    if n <= 0 {
        assert(want =~= Seq::empty());
    } else {
        stored_is_not_written(r, store, n - 1);
        let m = r.made(n - 1);
        assert(holds_version(store, m));
        assert(store + Seq::<SnapshotModel>::empty() =~= store);
        assert(want =~= Seq::new((n - 1) as nat, |i: int| r.made(i).revision_id).push(
            m.revision_id,
        ));
    }
}

/// Documents of which one alone is new are taken with one write.
proof fn one_is_written(r: Reading, store: Seq<SnapshotModel>, x: int, n: int)
    requires
        0 <= x < n <= r.documents.len(),
        stored_under(store, r.made(x).revision_id) is None,
        forall|i: int|
            0 <= i < n ==> (#[trigger] r.made(i)).source_id.len() > 0 && r.made(
                i,
            ).document_key.len() > 0,
        forall|i: int| 0 <= i < n && i != x ==> holds_version(store, #[trigger] r.made(i)),
    ensures
        taken(r, store, n).fault is None,
        taken(r, store, n).writes == seq![r.made(x)],
    decreases n,
{
    let m = r.made(n - 1);
    if n == x + 1 {
        stored_is_not_written(r, store, x);
        assert(store + Seq::<SnapshotModel>::empty() =~= store);
        assert(Seq::empty().push(m) =~= seq![m]);
    } else {
        one_is_written(r, store, x, n - 1);
        assert(holds_version(store, m));
        growing_keeps(store, seq![r.made(x)], m);
    }
}

/// What a synchronisation reads: a reading of every source.
pub open spec fn store_after(store: Seq<SnapshotModel>, readings: Seq<Reading>, n: int) -> Seq<
    SnapshotModel,
>
    decreases n,
{
    if n <= 0 {
        store
    } else {
        let before = store_after(store, readings, n - 1);
        before + taken_of(readings[n - 1], before).writes
    }
}

/// Snapshots that were written stay, whatever is read later: those of documents
/// that were removed or changed too.
pub proof fn snapshots_stay(store: Seq<SnapshotModel>, readings: Seq<Reading>, n: int)
    requires
        0 <= n <= readings.len(),
    ensures
        store_after(store, readings, n).len() >= store.len(),
        store_after(store, readings, n).take(store.len() as int) == store,
    decreases n,
{
    if n <= 0 {
        assert(store.take(store.len() as int) =~= store);
    } else {
        snapshots_stay(store, readings, n - 1);
        let before = store_after(store, readings, n - 1);
        let after = store_after(store, readings, n);
        assert(after.take(store.len() as int) =~= before.take(store.len() as int));
    }
}

proof fn stores_grow(store: Seq<SnapshotModel>, readings: Seq<Reading>, k: int, n: int) -> (more: Seq<
    SnapshotModel,
>)
    requires
        0 <= k <= n <= readings.len(),
    ensures
        store_after(store, readings, n) == store_after(store, readings, k) + more,
    decreases n - k,
{
    if k == n {
        let more = Seq::<SnapshotModel>::empty();
        assert(store_after(store, readings, n) + more =~= store_after(store, readings, n));
        more
    } else {
        let rest = stores_grow(store, readings, k, n - 1);
        let before = store_after(store, readings, n - 1);
        let own = taken_of(readings[n - 1], before).writes;
        let more = rest + own;
        assert(store_after(store, readings, k) + more =~= before + own);
        more
    }
}

/// Whether a reading of a synchronisation has no fault.
pub open spec fn is_taken(store: Seq<SnapshotModel>, readings: Seq<Reading>, k: int) -> bool {
    taken_of(readings[k], store_after(store, readings, k)).fault is None
}

/// No reading of a synchronisation has a fault.
pub open spec fn all_taken(store: Seq<SnapshotModel>, readings: Seq<Reading>) -> bool {
    forall|k: int| 0 <= k < readings.len() ==> #[trigger] is_taken(store, readings, k)
}

/// The same documents with the same texts, read again.
pub open spec fn read_again(a: Reading, b: Reading) -> bool {
    &&& b.source_id == a.source_id
    &&& b.documents.len() == a.documents.len()
    &&& forall|i: int|
        0 <= i < a.documents.len() ==> (#[trigger] b.documents[i]).document_key@
            == a.documents[i].document_key@ && b.documents[i].content@ == a.documents[i].content@
}

/// Everything that a synchronisation took is stored when it is over.
proof fn synced_is_stored(store: Seq<SnapshotModel>, readings: Seq<Reading>, k: int, i: int)
    requires
        all_taken(store, readings),
        0 <= k < readings.len(),
        0 <= i < readings[k].documents.len(),
    ensures
        holds_version(store_after(store, readings, readings.len() as int), readings[k].made(i)),
        readings[k].made(i).source_id.len() > 0,
        readings[k].made(i).document_key.len() > 0,
{
    let r = readings[k];
    let before = store_after(store, readings, k);
    assert(is_taken(store, readings, k));
    taken_is_stored(r, before, r.documents.len() as int);
    assert(store_after(store, readings, k + 1) == before + taken_of(r, before).writes);
    let more = stores_grow(store, readings, k + 1, readings.len() as int);
    growing_keeps(store_after(store, readings, k + 1), more, r.made(i));
}

proof fn again_is_held(
    store: Seq<SnapshotModel>,
    first: Seq<Reading>,
    again: Seq<Reading>,
    k: int,
    i: int,
)
    requires
        all_taken(store, first),
        again.len() == first.len(),
        0 <= k < first.len(),
        read_again(first[k], again[k]),
        0 <= i < again[k].documents.len(),
    ensures
        holds_version(store_after(store, first, first.len() as int), again[k].made(i)),
        again[k].made(i).source_id.len() > 0,
        again[k].made(i).document_key.len() > 0,
        again[k].made(i).revision_id == first[k].made(i).revision_id,
{
    synced_is_stored(store, first, k, i);
    let (a, b) = (first[k].made(i), again[k].made(i));
    assert(again[k].documents[i].content@ == first[k].documents[i].content@);
    assert(same_version(a, b) && a.revision_id == b.revision_id);
}

/// A source that has not changed is read again without a write, also when other
/// sources have added to the store.
proof fn unchanged_source_stays(
    store: Seq<SnapshotModel>,
    first: Seq<Reading>,
    again: Seq<Reading>,
    k: int,
    more: Seq<SnapshotModel>,
)
    requires
        all_taken(store, first),
        again.len() == first.len(),
        0 <= k < first.len(),
        read_again(first[k], again[k]),
    ensures
        ({
            let t = taken_of(again[k], store_after(store, first, first.len() as int) + more);
            &&& t.fault is None
            &&& t.writes == Seq::<SnapshotModel>::empty()
            &&& t.revisions == taken_of(first[k], store_after(store, first, k)).revisions
        }),
{
    let held = store_after(store, first, first.len() as int);
    let r = again[k];
    let n = r.documents.len() as int;
    assert forall|i: int| 0 <= i < n implies holds_version(held + more, #[trigger] r.made(i))
        && r.made(i).source_id.len() > 0 && r.made(i).document_key.len() > 0 by {
        again_is_held(store, first, again, k, i);
        growing_keeps(held, more, r.made(i));
    }
    stored_is_not_written(r, held + more, n);
    assert(is_taken(store, first, k));
    taken_is_stored(first[k], store_after(store, first, k), n);
    let names = Seq::new(n as nat, |i: int| r.made(i).revision_id);
    let known = Seq::new(n as nat, |i: int| first[k].made(i).revision_id);
    assert forall|i: int| 0 <= i < n implies names[i] == known[i] by {
        again_is_held(store, first, again, k, i);
    }
    assert(names =~= known);
}

/// A source that is read again after a whole synchronisation: nothing is wrong,
/// nothing is written, and it has the versions that it had.
pub open spec fn source_stays(
    store: Seq<SnapshotModel>,
    first: Seq<Reading>,
    again: Seq<Reading>,
    k: int,
) -> bool {
    let t = taken_of(again[k], store_after(store, first, first.len() as int));
    &&& t.fault is None
    &&& t.writes.len() == 0
    &&& t.revisions == taken_of(first[k], store_after(store, first, k)).revisions
}

proof fn unchanged_store_stays(
    store: Seq<SnapshotModel>,
    first: Seq<Reading>,
    again: Seq<Reading>,
    k: int,
)
    requires
        all_taken(store, first),
        again.len() == first.len(),
        0 <= k < first.len(),
        read_again(first[k], again[k]),
    ensures
        source_stays(store, first, again, k),
        ({
            let held = store_after(store, first, first.len() as int);
            held + taken_of(again[k], held).writes == held
        }),
{
    let held = store_after(store, first, first.len() as int);
    let none = Seq::<SnapshotModel>::empty();
    assert(held + none =~= held);
    unchanged_source_stays(store, first, again, k, none);
}

/// A synchronisation of sources that have not changed since the last one writes
/// nothing, finds nothing wrong, and leaves every source with the versions it had.
pub proof fn unchanged_sources_stay(
    store: Seq<SnapshotModel>,
    first: Seq<Reading>,
    again: Seq<Reading>,
    n: int,
)
    requires
        all_taken(store, first),
        again.len() == first.len(),
        forall|k: int| 0 <= k < first.len() ==> read_again(#[trigger] first[k], again[k]),
        0 <= n <= again.len(),
    ensures
        store_after(store_after(store, first, first.len() as int), again, n) == store_after(
            store,
            first,
            first.len() as int,
        ),
        forall|k: int| 0 <= k < n ==> #[trigger] source_stays(store, first, again, k),
    decreases n,
{
    if n > 0 {
        unchanged_sources_stay(store, first, again, n - 1);
        assert(read_again(first[n - 1], again[n - 1]));
        unchanged_store_stays(store, first, again, n - 1);
    }
}

/// The outcomes that are noted of readings, each made with the store as it was.
pub open spec fn outcomes_are(
    outcomes: Seq<SourceOutcome>,
    store: Seq<SnapshotModel>,
    readings: Seq<Reading>,
) -> bool {
    &&& outcomes.len() == readings.len()
    &&& forall|k: int|
        0 <= k < readings.len() ==> outcome_is(
            #[trigger] outcomes[k],
            taken_of(readings[k], store_after(store, readings, k)),
        )
}

proof fn counts_of_sync(
    start: Seq<(Seq<char>, SourceModel)>,
    sources: Seq<KnowledgeSourceConfig>,
    times: Seq<Seq<char>>,
    outcomes: Seq<SourceOutcome>,
    n: int,
)
    requires
        0 <= n <= outcomes.len(),
        forall|k: int| 0 <= k < outcomes.len() ==> (#[trigger] outcomes[k]) is Read,
    ensures
        ({
            let m = syncing::synced(start, sources, times, outcomes, n);
            &&& m.configured == sources.len()
            &&& m.successful == n
            &&& m.failed == 0
            &&& m.active == active_count(outcomes, n)
            &&& m.new_revisions == new_count(outcomes, n)
            &&& m.warnings.len() == 0
        }),
    decreases n,
{
    if n > 0 {
        counts_of_sync(start, sources, times, outcomes, n - 1);
        assert(outcomes[n - 1] is Read);
    }
}

/// How many versions the first `n` sources have.
pub open spec fn active_count(outcomes: Seq<SourceOutcome>, n: int) -> nat
    decreases n,
{
    if n <= 0 {
        0
    } else {
        active_count(outcomes, n - 1) + (match outcomes[n - 1] {
            SourceOutcome::Read { revisions, .. } => text::distinct_sorted(
                text::texts(revisions@),
            ).len(),
            SourceOutcome::Failed(_) => 0,
        })
    }
}

/// How many versions of the first `n` sources are new.
pub open spec fn new_count(outcomes: Seq<SourceOutcome>, n: int) -> nat
    decreases n,
{
    if n <= 0 {
        0
    } else {
        new_count(outcomes, n - 1) + (match outcomes[n - 1] {
            SourceOutcome::Read { new_revisions, .. } => new_revisions as nat,
            SourceOutcome::Failed(_) => 0,
        })
    }
}

proof fn repeated_counts(
    store: Seq<SnapshotModel>,
    first: Seq<Reading>,
    again: Seq<Reading>,
    before: Seq<SourceOutcome>,
    after: Seq<SourceOutcome>,
    n: int,
)
    requires
        all_taken(store, first),
        again.len() == first.len(),
        forall|k: int| 0 <= k < first.len() ==> read_again(#[trigger] first[k], again[k]),
        outcomes_are(before, store, first),
        outcomes_are(after, store_after(store, first, first.len() as int), again),
        0 <= n <= again.len(),
    ensures
        active_count(after, n) == active_count(before, n),
        new_count(after, n) == 0,
    decreases n,
{
    if n > 0 {
        repeated_counts(store, first, again, before, after, n - 1);
        let held = store_after(store, first, first.len() as int);
        unchanged_sources_stay(store, first, again, again.len() as int);
        unchanged_sources_stay(store, first, again, n - 1);
        assert(outcome_is(after[n - 1], taken_of(again[n - 1], store_after(held, again, n - 1))));
        assert(outcome_is(before[n - 1], taken_of(first[n - 1], store_after(store, first, n - 1))));
        assert(source_stays(store, first, again, n - 1));
    }
}

/// A second synchronisation of sources that have not changed since a first one in
/// which none failed: it reports no new version, as many documents as the first,
/// and every configured source as read.
pub proof fn repeated_syncs_find_nothing_new(
    store: Seq<SnapshotModel>,
    sources: Seq<KnowledgeSourceConfig>,
    first: Seq<Reading>,
    again: Seq<Reading>,
    start: Seq<(Seq<char>, SourceModel)>,
    before: Seq<SourceOutcome>,
    after: Seq<SourceOutcome>,
    first_times: Seq<Seq<char>>,
    again_times: Seq<Seq<char>>,
)
    requires
        first.len() == sources.len(),
        again.len() == sources.len(),
        all_taken(store, first),
        forall|k: int| 0 <= k < first.len() ==> read_again(#[trigger] first[k], again[k]),
        outcomes_are(before, store, first),
        outcomes_are(after, store_after(store, first, first.len() as int), again),
    ensures
        ({
            let n = sources.len() as int;
            let r1 = syncing::synced(start, sources, first_times, before, n);
            let r2 = syncing::synced(r1.sources, sources, again_times, after, n);
            &&& r2.new_revisions == 0
            &&& r2.active == r1.active
            &&& r2.configured == sources.len()
            &&& r2.successful == sources.len()
            &&& r2.failed == 0
            &&& r2.warnings.len() == 0
        }),
{
    let n = sources.len() as int;
    let r1 = syncing::synced(start, sources, first_times, before, n);
    counts_of_sync(start, sources, first_times, before, n);
    counts_of_sync(r1.sources, sources, again_times, after, n);
    repeated_counts(store, first, again, before, after, n);
}

/// A document of a source whose text has changed to one that was not stored yet,
/// while all else stayed as it was.
pub open spec fn changed_once(
    held: Seq<SnapshotModel>,
    first: Seq<Reading>,
    again: Seq<Reading>,
    k: int,
    x: int,
) -> bool {
    &&& again.len() == first.len()
    &&& 0 <= k < first.len()
    &&& forall|j: int| 0 <= j < first.len() && j != k ==> read_again(#[trigger] first[j], again[j])
    &&& again[k].source_id == first[k].source_id
    &&& again[k].documents.len() == first[k].documents.len()
    &&& 0 <= x < first[k].documents.len()
    &&& forall|i: int|
        0 <= i < first[k].documents.len() ==> (#[trigger] again[k].documents[i]).document_key@
            == first[k].documents[i].document_key@ && (i != x ==> again[k].documents[i].content@
            == first[k].documents[i].content@)
    &&& stored_under(held, again[k].made(x).revision_id) is None
}

proof fn changed_source_is_taken(
    store: Seq<SnapshotModel>,
    first: Seq<Reading>,
    again: Seq<Reading>,
    k: int,
    x: int,
)
    requires
        all_taken(store, first),
        changed_once(store_after(store, first, first.len() as int), first, again, k, x),
    ensures
        ({
            let t = taken_of(again[k], store_after(store, first, first.len() as int));
            &&& t.fault is None
            &&& t.writes == seq![again[k].made(x)]
        }),
{
    let held = store_after(store, first, first.len() as int);
    let r = again[k];
    assert forall|i: int| 0 <= i < r.documents.len() implies (
    #[trigger] r.made(i)).source_id.len() > 0 && r.made(i).document_key.len() > 0 by {
        synced_is_stored(store, first, k, i);
        assert(r.documents[i].document_key@ == first[k].documents[i].document_key@);
    }
    assert forall|i: int| 0 <= i < r.documents.len() && i != x implies holds_version(
        held,
        #[trigger] r.made(i),
    ) by {
        synced_is_stored(store, first, k, i);
        assert(r.documents[i].document_key@ == first[k].documents[i].document_key@);
        assert(r.documents[i].content@ == first[k].documents[i].content@);
        assert(same_version(first[k].made(i), r.made(i)));
    }
    one_is_written(r, held, x, r.documents.len() as int);
}

proof fn changed_stores(
    store: Seq<SnapshotModel>,
    first: Seq<Reading>,
    again: Seq<Reading>,
    k: int,
    x: int,
    n: int,
)
    requires
        all_taken(store, first),
        changed_once(store_after(store, first, first.len() as int), first, again, k, x),
        0 <= n <= again.len(),
    ensures
        ({
            let held = store_after(store, first, first.len() as int);
            let more = if n <= k {
                Seq::empty()
            } else {
                seq![again[k].made(x)]
            };
            &&& store_after(held, again, n) == held + more
            &&& n < again.len() ==> {
                let t = taken_of(again[n], store_after(held, again, n));
                &&& t.fault is None
                &&& t.writes.len() == if n == k {
                    1nat
                } else {
                    0nat
                }
            }
        }),
    decreases n,
{
    let held = store_after(store, first, first.len() as int);
    let none = Seq::<SnapshotModel>::empty();
    let own = seq![again[k].made(x)];
    assert(held + none =~= held);
    if n > 0 {
        changed_stores(store, first, again, k, x, n - 1);
        changed_source_is_taken(store, first, again, k, x);
        let before = store_after(held, again, n - 1);
        let writes = taken_of(again[n - 1], before).writes;
        if n - 1 == k {
            assert(before == held);
            assert(writes == own);
        } else {
            assert(writes =~= none);
            assert(before + none =~= before);
        }
    }
    if n < again.len() {
        if n == k {
            changed_source_is_taken(store, first, again, k, x);
        } else {
            assert(read_again(first[n], again[n]));
            unchanged_source_stays(
                store,
                first,
                again,
                n,
                if n <= k {
                    none
                } else {
                    own
                },
            );
        }
    }
}

proof fn changed_counts(
    store: Seq<SnapshotModel>,
    first: Seq<Reading>,
    again: Seq<Reading>,
    after: Seq<SourceOutcome>,
    k: int,
    x: int,
    n: int,
)
    requires
        all_taken(store, first),
        changed_once(store_after(store, first, first.len() as int), first, again, k, x),
        outcomes_are(after, store_after(store, first, first.len() as int), again),
        0 <= n <= again.len(),
    ensures
        new_count(after, n) == if n <= k {
            0nat
        } else {
            1nat
        },
    decreases n,
{
    if n > 0 {
        let held = store_after(store, first, first.len() as int);
        changed_counts(store, first, again, after, k, x, n - 1);
        changed_stores(store, first, again, k, x, n - 1);
        assert(outcome_is(after[n - 1], taken_of(again[n - 1], store_after(held, again, n - 1))));
    }
}

/// When one document alone has changed, to a text that was not stored yet, the
/// next synchronisation reports one new version, and adds its snapshot to those
/// that were there.
pub proof fn changed_documents_are_new(
    store: Seq<SnapshotModel>,
    sources: Seq<KnowledgeSourceConfig>,
    first: Seq<Reading>,
    again: Seq<Reading>,
    start: Seq<(Seq<char>, SourceModel)>,
    after: Seq<SourceOutcome>,
    times: Seq<Seq<char>>,
    k: int,
    x: int,
)
    requires
        first.len() == sources.len(),
        all_taken(store, first),
        changed_once(store_after(store, first, first.len() as int), first, again, k, x),
        outcomes_are(after, store_after(store, first, first.len() as int), again),
    ensures
        ({
            let n = sources.len() as int;
            let held = store_after(store, first, n);
            &&& syncing::synced(start, sources, times, after, n).new_revisions == 1
            &&& store_after(held, again, n) == held.push(again[k].made(x))
        }),
{
    let n = sources.len() as int;
    let held = store_after(store, first, n);
    counts_of_sync(start, sources, times, after, n);
    changed_counts(store, first, again, after, k, x, n);
    changed_stores(store, first, again, k, x, n);
    assert(held + seq![again[k].made(x)] =~= held.push(again[k].made(x)));
}

} // verus!
