//! Bringing the knowledge base up to date with its sources.

use vstd::prelude::*;
use vstd::string::*;

use crate::config::{
    self, join_path, ConfigError, KnowledgeConfig, KnowledgeSourceConfig, KnowledgeSourceKind,
};
use crate::digest::{self, content_sha256};
use crate::corpus::distinct;
use crate::model::copy_opt;
use crate::snapshot::{
    self, is_hash_id, passage_spans, slice_chars, KnowledgeSnapshot, PassageKind,
    KNOWLEDGE_SCHEMA_VERSION,
};
use crate::text::{self, copy_texts, push_decimal, text_before, text_eq};

verus! {

/// What is known of one source.
#[derive(Clone, Debug, PartialEq, Eq)]
pub struct KnowledgeSourceState {
    pub kind: KnowledgeSourceKind,
    pub location: String,
    pub enabled: bool,
    pub active_revisions: Vec<String>,
    pub last_sync_at: String,
    pub last_success_at: Option<String>,
    pub last_error: Option<String>,
}

/// What is known of all sources, in order of their ids.
#[derive(Clone, Debug, PartialEq, Eq)]
pub struct KnowledgeState {
    pub schema_version: u32,
    pub sources: Vec<(String, KnowledgeSourceState)>,
}

pub struct SourceModel {
    pub kind: KnowledgeSourceKind,
    pub location: Seq<char>,
    pub enabled: bool,
    pub active: Seq<Seq<char>>,
    pub last_sync_at: Seq<char>,
    pub last_success_at: Option<Seq<char>>,
    pub last_error: Option<Seq<char>>,
}

pub open spec fn source_model(s: KnowledgeSourceState) -> SourceModel {
    SourceModel {
        kind: s.kind,
        location: s.location@,
        enabled: s.enabled,
        active: text::texts(s.active_revisions@),
        last_sync_at: s.last_sync_at@,
        last_success_at: text::opt_text(s.last_success_at),
        last_error: text::opt_text(s.last_error),
    }
}

pub open spec fn entry_model(e: (String, KnowledgeSourceState)) -> (Seq<char>, SourceModel) {
    (e.0@, source_model(e.1))
}

pub open spec fn entry_models(v: Seq<(String, KnowledgeSourceState)>) -> Seq<
    (Seq<char>, SourceModel),
> {
    Seq::new(v.len(), |i: int| entry_model(v[i]))
}

/// Sources in order of their ids, each once.
pub open spec fn sorted_entries(v: Seq<(Seq<char>, SourceModel)>) -> bool {
    forall|i: int, j: int|
        0 <= i < j < v.len() ==> text::text_lt((#[trigger] v[i]).0, (#[trigger] v[j]).0)
}

/// The first place from `i` on whose id does not come before the given one.
pub open spec fn entry_place(v: Seq<(Seq<char>, SourceModel)>, id: Seq<char>, i: int) -> int
    decreases v.len() - i,
{
    if i < 0 || i >= v.len() || !text::text_lt(v[i].0, id) {
        i
    } else {
        entry_place(v, id, i + 1)
    }
}

/// What is known of a source.
pub open spec fn entry_of(v: Seq<(Seq<char>, SourceModel)>, id: Seq<char>) -> Option<SourceModel> {
    let p = entry_place(v, id, 0);
    if p < v.len() && v[p].0 == id {
        Some(v[p].1)
    } else {
        None
    }
}

/// Sources with one more, or with one that is known anew.
pub open spec fn with_entry(
    v: Seq<(Seq<char>, SourceModel)>,
    id: Seq<char>,
    s: SourceModel,
) -> Seq<(Seq<char>, SourceModel)> {
    let p = entry_place(v, id, 0);
    if p < v.len() && v[p].0 == id {
        v.update(p, (id, s))
    } else {
        v.insert(p, (id, s))
    }
}

proof fn entry_place_splits(v: Seq<(Seq<char>, SourceModel)>, id: Seq<char>, i: int)
    requires
        sorted_entries(v),
        0 <= i <= v.len(),
        forall|k: int| 0 <= k < i ==> text::text_lt((#[trigger] v[k]).0, id),
    ensures
        ({
            let p = entry_place(v, id, i);
            &&& i <= p <= v.len()
            &&& forall|k: int| 0 <= k < p ==> text::text_lt((#[trigger] v[k]).0, id)
            &&& forall|k: int| p <= k < v.len() ==> !text::text_lt((#[trigger] v[k]).0, id)
        }),
    decreases v.len() - i,
{
    if i < v.len() && text::text_lt(v[i].0, id) {
        entry_place_splits(v, id, i + 1);
    } else {
        assert forall|k: int| i <= k < v.len() implies !text::text_lt((#[trigger] v[k]).0, id) by {
            if k > i && text::text_lt(v[k].0, id) {
                text::text_lt_transitive(v[i].0, v[k].0, id);
            }
        }
    }
}

/// Putting a source keeps the order, and changes that source alone.
pub proof fn with_entry_keeps_the_rest(
    v: Seq<(Seq<char>, SourceModel)>,
    id: Seq<char>,
    s: SourceModel,
    other: Seq<char>,
)
    requires
        sorted_entries(v),
    ensures
        sorted_entries(with_entry(v, id, s)),
        entry_of(with_entry(v, id, s), id) == Some(s),
        other != id ==> entry_of(with_entry(v, id, s), other) == entry_of(v, other),
{
    let p = entry_place(v, id, 0);
    let w = with_entry(v, id, s);
    entry_place_splits(v, id, 0);
    let found = p < v.len() && v[p].0 == id;
    assert forall|i: int, j: int| 0 <= i < j < w.len() implies text::text_lt(
        (#[trigger] w[i]).0,
        (#[trigger] w[j]).0,
    ) by {
        if found {
            assert(w[i].0 == v[i].0);
            assert(w[j].0 == v[j].0);
        } else if i < p && j == p {
            assert(w[i] == v[i]);
        } else if i == p {
            assert(w[j] == v[j - 1]);
            assert(!text::text_lt(v[j - 1].0, id));
            if v[j - 1].0 == id {
                if j - 1 > p {
                    assert(text::text_lt(v[p].0, v[j - 1].0));
                    assert(!text::text_lt(v[p].0, id));
                }
            }
            text::text_lt_total(v[j - 1].0, id);
        } else {
            let a = if i < p {
                i
            } else {
                i - 1
            };
            let b = if j < p {
                j
            } else {
                j - 1
            };
            assert(w[i] == v[a]);
            assert(w[j] == v[b]);
        }
    }
    found_place(w, id, p);
    if other != id {
        if entry_of(v, other) is Some {
            let q = entry_place(v, other, 0);
            entry_place_splits(v, other, 0);
            if found || q < p {
                assert(w[q] == v[q]);
                found_place(w, other, q);
            } else {
                assert(w[q + 1] == v[q]);
                found_place(w, other, q + 1);
            }
        } else if entry_of(w, other) is Some {
            let q = entry_place(w, other, 0);
            entry_place_splits(w, other, 0);
            assert(w[q].0 == other);
            if found {
                assert(w[q] == v[q]);
                found_place(v, other, q);
            } else if q < p {
                assert(w[q] == v[q]);
                found_place(v, other, q);
            } else {
                assert(q != p);
                assert(w[q] == v[q - 1]);
                found_place(v, other, q - 1);
            }
        }
    }
}

proof fn found_place(v: Seq<(Seq<char>, SourceModel)>, id: Seq<char>, q: int)
    requires
        sorted_entries(v),
        0 <= q < v.len(),
        v[q].0 == id,
    ensures
        entry_of(v, id) == Some(v[q].1),
{
    entry_place_splits(v, id, 0);
    let p = entry_place(v, id, 0);
    text::text_lt_irreflexive(id);
    if p < q {
        assert(text::text_lt(v[p].0, v[q].0));
        assert(!text::text_lt(v[p].0, id));
    } else if q < p {
        assert(text::text_lt(v[q].0, id));
    }
}

impl KnowledgeState {
    pub open spec fn list(&self) -> Seq<(Seq<char>, SourceModel)> {
        entry_models(self.sources@)
    }

    /// What is known before anything has been read.
    pub fn empty() -> (r: Self)
        ensures
            r.schema_version == KNOWLEDGE_SCHEMA_VERSION,
            r.list() == Seq::<(Seq<char>, SourceModel)>::empty(),
    {
        let sources: Vec<(String, KnowledgeSourceState)> = Vec::new();
        assert(entry_models(sources@) =~= Seq::empty());
        KnowledgeState { schema_version: KNOWLEDGE_SCHEMA_VERSION, sources }
    }

    /// Checks the version of a state that was read.
    pub fn check_version(&self) -> (r: Result<(), String>)
        ensures
            match r {
                Ok(_) => self.schema_version == KNOWLEDGE_SCHEMA_VERSION,
                Err(e) => self.schema_version != KNOWLEDGE_SCHEMA_VERSION && e@
                    == "不支持的知识状态版本 "@ + text::decimal(self.schema_version as nat),
            },
    {
        if self.schema_version != KNOWLEDGE_SCHEMA_VERSION {
            let mut e = "不支持的知识状态版本 ".to_owned();
            push_decimal(&mut e, self.schema_version as u64);
            return Err(e);
        }
        Ok(())
    }

    fn place_of(&self, id: &str) -> (r: usize)
        ensures
            r == entry_place(self.list(), id@, 0),
            r <= self.sources@.len(),
    {
        let ghost all = self.list();
        let mut i: usize = 0;
        while i < self.sources.len() && text_before(self.sources[i].0.as_str(), id)
            invariant
                i <= self.sources@.len(),
                all == entry_models(self.sources@),
                entry_place(all, id@, 0) == entry_place(all, id@, i as int),
            decreases self.sources.len() - i,
        {
            assert(all[i as int].0 == self.sources@[i as int].0@);
            i += 1;
        }
        proof {
            if i < self.sources@.len() {
                assert(all[i as int].0 == self.sources@[i as int].0@);
            }
        }
        i
    }

    /// Finds what is known of a source.
    pub fn get(&self, id: &str) -> (r: Option<&KnowledgeSourceState>)
        ensures
            match r {
                Some(s) => entry_of(self.list(), id@) == Some(source_model(*s)),
                None => entry_of(self.list(), id@) is None,
            },
    {
        let p = self.place_of(id);
        if p < self.sources.len() {
            assert(self.list()[p as int] == entry_model(self.sources@[p as int]));
            if text_eq(self.sources[p].0.as_str(), id) {
                return Some(&self.sources[p].1);
            }
        }
        None
    }

    /// Puts what is known of a source.
    pub fn put(&mut self, id: &str, s: KnowledgeSourceState)
        ensures
            final(self).schema_version == old(self).schema_version,
            final(self).list() == with_entry(old(self).list(), id@, source_model(s)),
    {
        let ghost before = self.list();
        let p = self.place_of(id);
        let known = if p < self.sources.len() {
            assert(before[p as int] == entry_model(self.sources@[p as int]));
            text_eq(self.sources[p].0.as_str(), id)
        } else {
            false
        };
        let entry = (id.to_owned(), s);
        if known {
            self.sources.set(p, entry);
            assert(entry_models(self.sources@) =~= before.update(p as int, (id@, source_model(s))));
        } else {
            self.sources.insert(p, entry);
            assert(entry_models(self.sources@) =~= before.insert(p as int, (id@, source_model(s))));
        }
    }
}

pub open spec fn disabled(s: SourceModel) -> SourceModel {
    SourceModel { enabled: false, ..s }
}

pub open spec fn all_disabled(v: Seq<(Seq<char>, SourceModel)>) -> Seq<(Seq<char>, SourceModel)> {
    Seq::new(v.len(), |i: int| (v[i].0, disabled(v[i].1)))
}

fn copy_state(s: &KnowledgeSourceState, enabled: bool) -> (r: KnowledgeSourceState)
    ensures
        source_model(r) == (SourceModel { enabled, ..source_model(*s) }),
{
    KnowledgeSourceState {
        kind: s.kind,
        location: s.location.clone(),
        enabled,
        active_revisions: copy_texts(&s.active_revisions),
        last_sync_at: s.last_sync_at.clone(),
        last_success_at: copy_opt(&s.last_success_at),
        last_error: copy_opt(&s.last_error),
    }
}

/// The outcome of a synchronisation.
#[derive(Clone, Debug, PartialEq, Eq)]
pub struct KnowledgeSyncReport {
    pub configured_sources: usize,
    pub successful_sources: usize,
    pub failed_sources: usize,
    pub active_documents: usize,
    pub new_revisions: usize,
    pub warnings: Vec<String>,
}

/// A synchronisation in progress.
#[derive(Debug)]
pub struct SyncRun {
    pub state: KnowledgeState,
    pub report: KnowledgeSyncReport,
}

/// How far a synchronisation has come.
pub struct SyncModel {
    pub sources: Seq<(Seq<char>, SourceModel)>,
    pub configured: nat,
    pub successful: nat,
    pub failed: nat,
    pub active: nat,
    pub new_revisions: nat,
    pub warnings: Seq<Seq<char>>,
}

pub open spec fn run_model(r: SyncRun) -> SyncModel {
    SyncModel {
        sources: r.state.list(),
        configured: r.report.configured_sources as nat,
        successful: r.report.successful_sources as nat,
        failed: r.report.failed_sources as nat,
        active: r.report.active_documents as nat,
        new_revisions: r.report.new_revisions as nat,
        warnings: text::texts(r.report.warnings@),
    }
}

pub open spec fn started(sources: Seq<(Seq<char>, SourceModel)>, configured: nat) -> SyncModel {
    SyncModel {
        sources: all_disabled(sources),
        configured,
        successful: 0,
        failed: 0,
        active: 0,
        new_revisions: 0,
        warnings: Seq::empty(),
    }
}

/// Begins a synchronisation: no source takes part until it has been read.
pub fn begin_sync(config: &KnowledgeConfig, state: &KnowledgeState) -> (r: Result<
    SyncRun,
    ConfigError,
>)
    ensures
        match r {
            Ok(run) => config.valid() && run.state.schema_version == state.schema_version
                && run_model(run) == started(state.list(), config.sources@.len()),
            Err(e) => config.outcome(Err(e)),
        },
{
    if let Err(e) = config.validate() {
        return Err(e);
    }
    let ghost before = state.list();
    let mut sources: Vec<(String, KnowledgeSourceState)> = Vec::new();
    let mut i: usize = 0;
    while i < state.sources.len()
        invariant
            i <= state.sources@.len(),
            before == entry_models(state.sources@),
            sources@.len() == i,
            forall|k: int|
                0 <= k < i ==> entry_model(#[trigger] sources@[k]) == (
                    before[k].0,
                    disabled(before[k].1),
                ),
        decreases state.sources.len() - i,
    {
        let entry = &state.sources[i];
        assert(before[i as int] == entry_model(state.sources@[i as int]));
        sources.push((entry.0.clone(), copy_state(&entry.1, false)));
        i += 1;
    }
    assert(entry_models(sources@) =~= all_disabled(before));
    let warnings: Vec<String> = Vec::new();
    assert(text::texts(warnings@) =~= Seq::empty());
    Ok(
        SyncRun {
            state: KnowledgeState { schema_version: state.schema_version, sources },
            report: KnowledgeSyncReport {
                configured_sources: config.sources.len(),
                successful_sources: 0,
                failed_sources: 0,
                active_documents: 0,
                new_revisions: 0,
                warnings,
            },
        },
    )
}

/// What came of reading a source: the versions it now has and how many of them
/// are new, or why it could not be read.
#[derive(Debug, PartialEq, Eq)]
pub enum SourceOutcome {
    Read { revisions: Vec<String>, new_revisions: usize },
    Failed(String),
}

/// Notice that a source could not be read.
pub open spec fn failure_notice(id: Seq<char>, error: Seq<char>) -> Seq<char> {
    "知识源 "@ + id + " 更新失败："@ + error
}

/// What is known of a source after it was read, or could not be.
pub open spec fn source_after(
    id: Seq<char>,
    kind: KnowledgeSourceKind,
    location: Seq<char>,
    now: Seq<char>,
    previous: Option<SourceModel>,
    outcome: SourceOutcome,
) -> SourceModel {
    match outcome {
        SourceOutcome::Read { revisions, .. } => SourceModel {
            kind,
            location,
            enabled: true,
            active: text::distinct_sorted(text::texts(revisions@)),
            last_sync_at: now,
            last_success_at: Some(now),
            last_error: None,
        },
        SourceOutcome::Failed(error) => SourceModel {
            kind,
            location,
            enabled: true,
            active: match previous {
                Some(p) => p.active,
                None => Seq::empty(),
            },
            last_sync_at: now,
            last_success_at: match previous {
                Some(p) => p.last_success_at,
                None => None,
            },
            last_error: Some(failure_notice(id, error@)),
        },
    }
}

/// The progress of a synchronisation with one source more.
pub open spec fn after_source(
    m: SyncModel,
    source: KnowledgeSourceConfig,
    now: Seq<char>,
    outcome: SourceOutcome,
) -> SyncModel {
    let known = source_after(
        source.id@,
        source.kind,
        source.location@,
        now,
        entry_of(m.sources, source.id@),
        outcome,
    );
    SyncModel {
        sources: with_entry(m.sources, source.id@, known),
        configured: m.configured,
        successful: m.successful + (if outcome is Read {
            1nat
        } else {
            0nat
        }),
        failed: m.failed + (if outcome is Failed {
            1nat
        } else {
            0nat
        }),
        active: m.active + known.active.len(),
        new_revisions: m.new_revisions + (match outcome {
            SourceOutcome::Read { new_revisions, .. } => new_revisions as nat,
            SourceOutcome::Failed(_) => 0nat,
        }),
        warnings: match outcome {
            SourceOutcome::Read { .. } => m.warnings,
            SourceOutcome::Failed(error) => m.warnings.push(failure_notice(source.id@, error@)),
        },
    }
}

/// Takes note of what came of reading a source.
pub fn finish_source(
    run: &mut SyncRun,
    source: &KnowledgeSourceConfig,
    now: &str,
    outcome: SourceOutcome,
)
    requires
        ({
            let m = after_source(run_model(*old(run)), *source, now@, outcome);
            m.successful <= usize::MAX && m.failed <= usize::MAX && m.active <= usize::MAX
                && m.new_revisions <= usize::MAX
        }),
    ensures
        run_model(*final(run)) == after_source(run_model(*old(run)), *source, now@, outcome),
        final(run).state.schema_version == old(run).state.schema_version,
{
    match outcome {
        SourceOutcome::Read { revisions, new_revisions } => {
            let active = distinct(&revisions);
            assert(text::texts(active@).len() == active@.len());
            run.report.active_documents = run.report.active_documents + active.len();
            run.report.successful_sources = run.report.successful_sources + 1;
            run.report.new_revisions = run.report.new_revisions + new_revisions;
            run.state.put(
                source.id.as_str(),
                KnowledgeSourceState {
                    kind: source.kind,
                    location: source.location.clone(),
                    enabled: true,
                    active_revisions: active,
                    last_sync_at: now.to_owned(),
                    last_success_at: Some(now.to_owned()),
                    last_error: None,
                },
            );
        },
        SourceOutcome::Failed(error) => {
            let mut notice = "知识源 ".to_owned();
            notice.append(source.id.as_str());
            notice.append(" 更新失败：");
            notice.append(error.as_str());
            let mut active: Vec<String> = Vec::new();
            let mut last_success_at: Option<String> = None;
            assert(text::texts(active@) =~= Seq::empty());
            if let Some(previous) = run.state.get(source.id.as_str()) {
                active = copy_texts(&previous.active_revisions);
                last_success_at = copy_opt(&previous.last_success_at);
            }
            assert(text::texts(active@).len() == active@.len());
            run.report.failed_sources = run.report.failed_sources + 1;
            run.report.active_documents = run.report.active_documents + active.len();
            let ghost before = text::texts(run.report.warnings@);
            run.report.warnings.push(notice.clone());
            assert(text::texts(run.report.warnings@) =~= before.push(notice@));
            run.state.put(
                source.id.as_str(),
                KnowledgeSourceState {
                    kind: source.kind,
                    location: source.location.clone(),
                    enabled: true,
                    active_revisions: active,
                    last_sync_at: now.to_owned(),
                    last_success_at,
                    last_error: Some(notice),
                },
            );
        },
    }
}

/// The progress of a synchronisation after the first `n` sources.
pub open spec fn synced(
    start: Seq<(Seq<char>, SourceModel)>,
    sources: Seq<KnowledgeSourceConfig>,
    times: Seq<Seq<char>>,
    outcomes: Seq<SourceOutcome>,
    n: int,
) -> SyncModel
    decreases n,
{
    if n <= 0 {
        started(start, sources.len())
    } else {
        after_source(
            synced(start, sources, times, outcomes, n - 1),
            sources[n - 1],
            times[n - 1],
            outcomes[n - 1],
        )
    }
}

/// Whether one of the first `n` sources has an id.
pub open spec fn configured(sources: Seq<KnowledgeSourceConfig>, id: Seq<char>, n: int) -> bool {
    exists|k: int| 0 <= k < n && (#[trigger] sources[k]).id@ == id
}

proof fn disabled_stay_sorted(v: Seq<(Seq<char>, SourceModel)>)
    requires
        sorted_entries(v),
    ensures
        sorted_entries(all_disabled(v)),
        forall|id: Seq<char>|
            (#[trigger] entry_of(all_disabled(v), id)) is Some ==> !entry_of(
                all_disabled(v),
                id,
            )->0.enabled,
{
    let w = all_disabled(v);
    assert forall|i: int, j: int| 0 <= i < j < w.len() implies text::text_lt(
        (#[trigger] w[i]).0,
        (#[trigger] w[j]).0,
    ) by {
        assert(w[i].0 == v[i].0);
        assert(w[j].0 == v[j].0);
    }
    assert forall|id: Seq<char>| (#[trigger] entry_of(w, id)) is Some implies !entry_of(
        w,
        id,
    )->0.enabled by {
        let p = entry_place(w, id, 0);
        entry_place_splits(w, id, 0);
        assert(w[p] == (v[p].0, disabled(v[p].1)));
    }
}

/// A synchronisation reports every source as read or failed, and after it a
/// source takes part exactly when it is configured.
pub proof fn sync_enables_configured_sources(
    start: Seq<(Seq<char>, SourceModel)>,
    sources: Seq<KnowledgeSourceConfig>,
    times: Seq<Seq<char>>,
    outcomes: Seq<SourceOutcome>,
    n: int,
)
    requires
        sorted_entries(start),
        0 <= n <= sources.len(),
    ensures
        ({
            let m = synced(start, sources, times, outcomes, n);
            &&& sorted_entries(m.sources)
            &&& m.successful + m.failed == n
            &&& m.warnings.len() == m.failed
            &&& forall|id: Seq<char>|
                ((#[trigger] entry_of(m.sources, id)) is Some && entry_of(
                    m.sources,
                    id,
                )->0.enabled) <==> configured(sources, id, n)
        }),
    decreases n,
{
    if n == 0 {
        disabled_stay_sorted(start);
    } else {
        sync_enables_configured_sources(start, sources, times, outcomes, n - 1);
        let before = synced(start, sources, times, outcomes, n - 1);
        let after = synced(start, sources, times, outcomes, n);
        let own = sources[n - 1].id@;
        let known = source_after(
            own,
            sources[n - 1].kind,
            sources[n - 1].location@,
            times[n - 1],
            entry_of(before.sources, own),
            outcomes[n - 1],
        );
        assert forall|id: Seq<char>|
            ((#[trigger] entry_of(after.sources, id)) is Some && entry_of(
                after.sources,
                id,
            )->0.enabled) <==> configured(sources, id, n) by {
            with_entry_keeps_the_rest(before.sources, own, known, id);
            assert(entry_of(before.sources, id) is Some && entry_of(before.sources, id)->0.enabled
                <==> configured(sources, id, n - 1));
            if configured(sources, id, n - 1) {
                let k = choose|k: int| 0 <= k < n - 1 && (#[trigger] sources[k]).id@ == id;
                assert(sources[k].id@ == id);
            }
            if configured(sources, id, n) && id != own {
                let k = choose|k: int| 0 <= k < n && (#[trigger] sources[k]).id@ == id;
                assert(k < n - 1);
                assert(sources[k].id@ == id);
            }
            if id == own {
                assert(sources[n - 1].id@ == id);
            }
        }
        with_entry_keeps_the_rest(before.sources, own, known, own);
    }
}

/// A source that fails keeps the versions it had.
pub proof fn failures_keep_versions(
    m: SyncModel,
    source: KnowledgeSourceConfig,
    now: Seq<char>,
    error: String,
)
    requires
        sorted_entries(m.sources),
        entry_of(m.sources, source.id@) is Some,
    ensures
        entry_of(
            after_source(m, source, now, SourceOutcome::Failed(error)).sources,
            source.id@,
        )->0.active == entry_of(m.sources, source.id@)->0.active,
{
    let known = source_after(
        source.id@,
        source.kind,
        source.location@,
        now,
        entry_of(m.sources, source.id@),
        SourceOutcome::Failed(error),
    );
    with_entry_keeps_the_rest(m.sources, source.id@, known, source.id@);
}

/// How a configured source is doing.
#[derive(Clone, Debug, PartialEq, Eq)]
pub struct KnowledgeSourceStatus {
    pub id: String,
    pub kind: KnowledgeSourceKind,
    pub location: String,
    pub enabled: bool,
    pub active_documents: usize,
    pub last_sync_at: Option<String>,
    pub last_success_at: Option<String>,
    pub last_error: Option<String>,
}

/// Whether a status is that of a source.
pub open spec fn status_is(
    s: KnowledgeSourceStatus,
    source: KnowledgeSourceConfig,
    known: Option<SourceModel>,
) -> bool {
    &&& s.id@ == source.id@
    &&& s.kind == source.kind
    &&& s.location@ == source.location@
    &&& s.enabled == (known is Some && known->0.enabled)
    &&& s.active_documents == (match known {
        Some(k) => k.active.len(),
        None => 0,
    })
    &&& text::opt_text(s.last_sync_at) == (match known {
        Some(k) => Some(k.last_sync_at),
        None => None,
    })
    &&& text::opt_text(s.last_success_at) == (match known {
        Some(k) => k.last_success_at,
        None => None,
    })
    &&& text::opt_text(s.last_error) == (match known {
        Some(k) => k.last_error,
        None => None,
    })
}

/// A passage as it is indexed.
#[derive(Debug, PartialEq, Eq)]
pub struct IndexDocument {
    pub document_id: String,
    pub revision_id: String,
    pub source_id: String,
    pub document_key: String,
    pub title: String,
    pub source_location: String,
    pub fetched_at: String,
    pub start_char: usize,
    pub end_char: usize,
    pub kind: PassageKind,
    pub content_sha256: String,
    pub span_sha256: String,
    pub exact_content: String,
}

pub struct IndexModel {
    pub document_id: Seq<char>,
    pub revision_id: Seq<char>,
    pub source_id: Seq<char>,
    pub document_key: Seq<char>,
    pub title: Seq<char>,
    pub source_location: Seq<char>,
    pub fetched_at: Seq<char>,
    pub start_char: int,
    pub end_char: int,
    pub kind: PassageKind,
    pub content_sha256: Seq<char>,
    pub span_sha256: Seq<char>,
    pub exact_content: Seq<char>,
}

pub open spec fn index_model(d: IndexDocument) -> IndexModel {
    IndexModel {
        document_id: d.document_id@,
        revision_id: d.revision_id@,
        source_id: d.source_id@,
        document_key: d.document_key@,
        title: d.title@,
        source_location: d.source_location@,
        fetched_at: d.fetched_at@,
        start_char: d.start_char as int,
        end_char: d.end_char as int,
        kind: d.kind,
        content_sha256: d.content_sha256@,
        span_sha256: d.span_sha256@,
        exact_content: d.exact_content@,
    }
}

pub open spec fn index_models(v: Seq<IndexDocument>) -> Seq<IndexModel> {
    Seq::new(v.len(), |i: int| index_model(v[i]))
}

/// A passage of a snapshot as it is indexed.
pub open spec fn indexed_passage(s: KnowledgeSnapshot, p: (int, int, PassageKind)) -> IndexModel {
    let content = s.content@.subrange(p.0, p.1);
    IndexModel {
        document_id: s.revision_id@ + ":"@ + text::decimal(p.0 as nat) + ":"@ + text::decimal(
            p.1 as nat,
        ),
        revision_id: s.revision_id@,
        source_id: s.source_id@,
        document_key: s.document_key@,
        title: s.title@,
        source_location: s.source_location@,
        fetched_at: s.fetched_at@,
        start_char: p.0,
        end_char: p.1,
        kind: p.2,
        content_sha256: s.content_sha256@,
        span_sha256: digest::text_digest(content),
        exact_content: content,
    }
}

/// All passages of a snapshot as they are indexed.
pub open spec fn indexed_snapshot(s: KnowledgeSnapshot) -> Seq<IndexModel> {
    let cut = snapshot::passages(s.content@.len() as int);
    Seq::new(cut.len(), |i: int| indexed_passage(s, cut[i]))
}

/// The passages of the first `n` snapshots.
pub open spec fn indexed_all(v: Seq<KnowledgeSnapshot>, n: int) -> Seq<IndexModel>
    decreases n,
{
    if n <= 0 {
        Seq::empty()
    } else {
        indexed_all(v, n - 1) + indexed_snapshot(v[n - 1])
    }
}

/// The versions that take part: those of the first `n` sources that are enabled.
pub open spec fn active_revisions(v: Seq<(Seq<char>, SourceModel)>, n: int) -> Seq<Seq<char>>
    decreases n,
{
    if n <= 0 {
        Seq::empty()
    } else if v[n - 1].1.enabled {
        active_revisions(v, n - 1) + v[n - 1].1.active
    } else {
        active_revisions(v, n - 1)
    }
}

fn index_passage(s: &KnowledgeSnapshot, start: usize, end: usize, kind: PassageKind) -> (r:
    IndexDocument)
    requires
        start <= end <= s.content@.len(),
    ensures
        index_model(r) == indexed_passage(*s, (start as int, end as int, kind)),
{
    let exact_content = match slice_chars(s.content.as_str(), start, end) {
        Ok(content) => content,
        Err(e) => e,
    };
    let mut document_id = s.revision_id.clone();
    document_id.append(":");
    push_decimal(&mut document_id, start as u64);
    document_id.append(":");
    push_decimal(&mut document_id, end as u64);
    IndexDocument {
        document_id,
        revision_id: s.revision_id.clone(),
        source_id: s.source_id.clone(),
        document_key: s.document_key.clone(),
        title: s.title.clone(),
        source_location: s.source_location.clone(),
        fetched_at: s.fetched_at.clone(),
        start_char: start,
        end_char: end,
        kind,
        content_sha256: s.content_sha256.clone(),
        span_sha256: content_sha256(exact_content.as_str()),
        exact_content,
    }
}

fn index_snapshot(s: &KnowledgeSnapshot, out: &mut Vec<IndexDocument>)
    ensures
        index_models(final(out)@) == index_models(old(out)@) + indexed_snapshot(*s),
{
    let spans = passage_spans(s.content.as_str());
    let ghost cut = snapshot::passages(s.content@.len() as int);
    let ghost start = index_models(out@);
    let ghost want = indexed_snapshot(*s);
    let mut i: usize = 0;
    assert(start + want.take(0) =~= start);
    while i < spans.len()
        invariant
            i <= spans@.len(),
            cut == snapshot::passages(s.content@.len() as int),
            snapshot::passage_models(spans@) == cut,
            want == indexed_snapshot(*s),
            index_models(out@) == start + want.take(i as int),
        decreases spans.len() - i,
    {
        proof {
            snapshot::passages_are_ranges(s.content@.len() as int, i as int);
            assert(cut[i as int] == snapshot::passage_models(spans@)[i as int]);
        }
        let ghost before = index_models(out@);
        let document = index_passage(s, spans[i].start, spans[i].end, spans[i].kind);
        out.push(document);
        proof {
            assert(want[i as int] == index_model(document));
            assert(index_models(out@) =~= before.push(index_model(document)));
            assert(want.take(i + 1) =~= want.take(i as int).push(want[i as int]));
            assert(start + want.take(i + 1) =~= (start + want.take(i as int)).push(
                want[i as int],
            ));
        }
        i += 1;
    }
    assert(want.take(i as int) =~= want);
}

/// Where the knowledge base lies.
#[derive(Clone, Debug, PartialEq, Eq)]
pub struct KnowledgeStore {
    root: String,
    snapshots: String,
    state_path: String,
    index_path: String,
}

impl KnowledgeStore {
    pub closed spec fn root_spec(&self) -> Seq<char> {
        self.root@
    }

    pub closed spec fn snapshots_spec(&self) -> Seq<char> {
        self.snapshots@
    }

    pub closed spec fn state_spec(&self) -> Seq<char> {
        self.state_path@
    }

    pub closed spec fn index_spec(&self) -> Seq<char> {
        self.index_path@
    }

    /// The knowledge base beside the sessions of a directory.
    pub fn new(session_root: &str) -> (r: Self)
        ensures
            r.root_spec() == config::joined_path(session_root@, ".knowledge"@),
            r.snapshots_spec() == config::joined_path(r.root_spec(), "snapshots"@),
            r.state_spec() == config::joined_path(r.root_spec(), "state.json"@),
            r.index_spec() == config::joined_path(r.root_spec(), "index.sqlite3"@),
    {
        let root = join_path(session_root, ".knowledge");
        KnowledgeStore {
            snapshots: join_path(root.as_str(), "snapshots"),
            state_path: join_path(root.as_str(), "state.json"),
            index_path: join_path(root.as_str(), "index.sqlite3"),
            root,
        }
    }

    pub fn root(&self) -> (r: &str)
        ensures
            r@ == self.root_spec(),
    {
        self.root.as_str()
    }

    pub fn snapshots(&self) -> (r: &str)
        ensures
            r@ == self.snapshots_spec(),
    {
        self.snapshots.as_str()
    }

    pub fn state_path(&self) -> (r: &str)
        ensures
            r@ == self.state_spec(),
    {
        self.state_path.as_str()
    }

    pub fn index_path(&self) -> (r: &str)
        ensures
            r@ == self.index_spec(),
    {
        self.index_path.as_str()
    }

    /// The file of a snapshot; an id that is no safe file name has none.
    pub fn snapshot_path(&self, revision: &str) -> (r: Result<String, String>)
        ensures
            match r {
                Ok(path) => snapshot::hash_id_shape(revision@) && path@ == config::joined_path(
                    self.snapshots_spec(),
                    revision@ + ".json"@,
                ),
                Err(e) => !snapshot::hash_id_shape(revision@) && e@
                    == "不安全的知识 revision ID"@,
            },
    {
        if !is_hash_id(revision) {
            return Err("不安全的知识 revision ID".to_owned());
        }
        let mut name = revision.to_owned();
        name.append(".json");
        Ok(join_path(self.snapshots.as_str(), name.as_str()))
    }

    /// Lists how the configured sources are doing.
    pub fn list(&self, config: &KnowledgeConfig, state: &KnowledgeState) -> (r: Vec<
        KnowledgeSourceStatus,
    >)
        ensures
            r@.len() == config.sources@.len(),
            forall|i: int|
                0 <= i < r@.len() ==> status_is(
                    #[trigger] r@[i],
                    config.sources@[i],
                    entry_of(state.list(), config.sources@[i].id@),
                ),
    {
        let mut out: Vec<KnowledgeSourceStatus> = Vec::new();
        let mut i: usize = 0;
        while i < config.sources.len()
            invariant
                i <= config.sources@.len(),
                out@.len() == i,
                forall|k: int|
                    0 <= k < i ==> status_is(
                        #[trigger] out@[k],
                        config.sources@[k],
                        entry_of(state.list(), config.sources@[k].id@),
                    ),
            decreases config.sources.len() - i,
        {
            let source = &config.sources[i];
            let status = match state.get(source.id.as_str()) {
                Some(known) => {
                    assert(text::texts(known.active_revisions@).len()
                        == known.active_revisions@.len());
                    KnowledgeSourceStatus {
                        id: source.id.clone(),
                        kind: source.kind,
                        location: source.location.clone(),
                        enabled: known.enabled,
                        active_documents: known.active_revisions.len(),
                        last_sync_at: Some(known.last_sync_at.clone()),
                        last_success_at: copy_opt(&known.last_success_at),
                        last_error: copy_opt(&known.last_error),
                    }
                },
                None => KnowledgeSourceStatus {
                    id: source.id.clone(),
                    kind: source.kind,
                    location: source.location.clone(),
                    enabled: false,
                    active_documents: 0,
                    last_sync_at: None,
                    last_success_at: None,
                    last_error: None,
                },
            };
            out.push(status);
            i += 1;
        }
        out
    }

    /// Lists the versions that the index is made of.
    pub fn active(&self, state: &KnowledgeState) -> (r: Vec<String>)
        ensures
            text::texts(r@) == active_revisions(state.list(), state.list().len() as int),
    {
        let ghost all = state.list();
        let mut out: Vec<String> = Vec::new();
        let mut i: usize = 0;
        assert(text::texts(out@) =~= Seq::empty());
        while i < state.sources.len()
            invariant
                i <= state.sources@.len(),
                all == entry_models(state.sources@),
                text::texts(out@) == active_revisions(all, i as int),
            decreases state.sources.len() - i,
        {
            let source = &state.sources[i].1;
            assert(all[i as int] == entry_model(state.sources@[i as int]));
            if source.enabled {
                let mut more = copy_texts(&source.active_revisions);
                let ghost before = text::texts(out@);
                let ghost added = text::texts(more@);
                out.append(&mut more);
                assert(text::texts(out@) =~= before + added);
            }
            i += 1;
        }
        assert(all.len() == state.sources@.len());
        out
    }

    /// Makes the documents of the index from the snapshots of all versions that
    /// take part, in order.
    pub fn rebuild(&self, snapshots: &Vec<KnowledgeSnapshot>) -> (r: Vec<IndexDocument>)
        ensures
            index_models(r@) == indexed_all(snapshots@, snapshots@.len() as int),
    {
        let mut out: Vec<IndexDocument> = Vec::new();
        let mut i: usize = 0;
        assert(index_models(out@) =~= Seq::empty());
        while i < snapshots.len()
            invariant
                i <= snapshots@.len(),
                index_models(out@) == indexed_all(snapshots@, i as int),
            decreases snapshots.len() - i,
        {
            index_snapshot(&snapshots[i], &mut out);
            i += 1;
        }
        out
    }
}

} // verus!
