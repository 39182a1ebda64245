//! The ledger of the answers of a benchmark run.

use vstd::prelude::*;
use vstd::string::*;

use crate::channels::RecallChannels;
use crate::corpus::{EvalBenchmark, EVAL_SCHEMA_VERSION};
use crate::evaluation;
use crate::order;
use crate::text::{self, contains_text, debug_text, is_blank, push_decimal, text_eq};

verus! {

/// What a run is told by.
#[derive(Debug, PartialEq, Eq)]
pub struct RunIdentity {
    pub run_fingerprint: String,
    pub benchmark: EvalBenchmark,
    pub dataset_sha256: String,
    pub requested_channels: RecallChannels,
}

/// What an answer is recorded under.
#[derive(Debug, PartialEq, Eq)]
pub struct RecordHead {
    pub schema_version: u32,
    pub run_fingerprint: String,
    pub benchmark: EvalBenchmark,
    pub dataset_sha256: String,
    pub requested_channels: RecallChannels,
    pub question_id: String,
}

/// Whether a record belongs to a run.
pub open spec fn belongs(h: RecordHead, run: RunIdentity) -> bool {
    &&& h.schema_version == EVAL_SCHEMA_VERSION
    &&& h.run_fingerprint@ == run.run_fingerprint@
    &&& h.benchmark == run.benchmark
    &&& h.dataset_sha256@ == run.dataset_sha256@
    &&& h.requested_channels == run.requested_channels
}

fn is_of_run(h: &RecordHead, run: &RunIdentity) -> (r: bool)
    ensures
        r == belongs(*h, *run),
{
    h.schema_version == EVAL_SCHEMA_VERSION && h.benchmark == run.benchmark
        && h.requested_channels == run.requested_channels && text_eq(
        h.run_fingerprint.as_str(),
        run.run_fingerprint.as_str(),
    ) && text_eq(h.dataset_sha256.as_str(), run.dataset_sha256.as_str())
}

/// A text that ends with the number of a line.
pub open spec fn line_text(prefix: Seq<char>, number: nat) -> Seq<char> {
    prefix + text::decimal(number)
}

fn at_line(prefix: &str, number: u64) -> (r: String)
    ensures
        r@ == line_text(prefix@, number as nat),
{
    let mut out = prefix.to_owned();
    push_decimal(&mut out, number);
    out
}

/// The last byte of a ledger must end a line.
pub fn check_ending(bytes: &Vec<u8>) -> (r: Result<(), String>)
    ensures
        match r {
            Ok(_) => bytes@.len() == 0 || bytes@.last() == 10u8,
            Err(e) => bytes@.len() > 0 && bytes@.last() != 10u8 && e@
                == "existing evaluation JSONL does not end with a newline"@,
        },
{
    if bytes.len() == 0 || bytes[bytes.len() - 1] == 10 {
        return Ok(());
    }
    Err("existing evaluation JSONL does not end with a newline".to_owned())
}

/// A line of a ledger must hold something; lines are numbered from one.
pub fn check_line(line: &str, number: u64) -> (r: Result<(), String>)
    ensures
        match r {
            Ok(_) => !text::blank(line@),
            Err(e) => text::blank(line@) && e@ == line_text(
                "empty evaluation JSONL line "@,
                number as nat,
            ),
        },
{
    if is_blank(line) {
        return Err(at_line("empty evaluation JSONL line ", number));
    }
    Ok(())
}

/// The questions that a run has answered, in order.
#[derive(Debug)]
pub struct EvalJsonl {
    run: RunIdentity,
    ids: Vec<String>,
    poisoned: bool,
}

impl EvalJsonl {
    /// The run that is recorded.
    pub closed spec fn run(&self) -> RunIdentity {
        self.run
    }

    /// The ids of the questions that have been answered.
    pub closed spec fn answered(&self) -> Seq<Seq<char>> {
        text::texts(self.ids@)
    }

    /// Whether a write failed, so that nothing more is written.
    pub closed spec fn is_poisoned(&self) -> bool {
        self.poisoned
    }

    /// No question is answered twice.
    pub open spec fn consistent(&self) -> bool {
        self.answered().no_duplicates()
    }

    /// An empty ledger.
    pub fn new(run: RunIdentity) -> (r: Self)
        ensures
            r.run() == run,
            r.answered() == Seq::<Seq<char>>::empty(),
            !r.is_poisoned(),
            r.consistent(),
    {
        let ids: Vec<String> = Vec::new();
        assert(text::texts(ids@) =~= Seq::empty());
        EvalJsonl { run, ids, poisoned: false }
    }

    pub fn contains(&self, id: &str) -> (r: bool)
        ensures
            r == self.answered().contains(id@),
    {
        contains_text(&self.ids, id)
    }

    /// The number of answers.
    pub fn len(&self) -> (r: usize)
        ensures
            r == self.answered().len(),
    {
        self.ids.len()
    }

    fn note(&mut self, id: &str)
        requires
            old(self).consistent(),
            !old(self).answered().contains(id@),
        ensures
            final(self).run() == old(self).run(),
            final(self).is_poisoned() == old(self).is_poisoned(),
            final(self).answered() == old(self).answered().push(id@),
            final(self).consistent(),
    {
        let ghost before = text::texts(self.ids@);
        self.ids.push(id.to_owned());
        let ghost after = text::texts(self.ids@);
        assert(after =~= before.push(id@));
        assert forall|i: int, j: int|
            0 <= i < after.len() && 0 <= j < after.len() && i != j implies after[i] != after[j] by {
            if i == before.len() {
                assert(before.contains(before[j]));
            }
            if j == before.len() {
                assert(before.contains(before[i]));
            }
        }
    }

    /// Takes up a record of an existing ledger; lines are numbered from one.
    pub fn read_back(&mut self, head: &RecordHead, number: u64) -> (r: Result<(), String>)
        requires
            old(self).consistent(),
        ensures
            final(self).consistent(),
            final(self).run() == old(self).run(),
            final(self).is_poisoned() == old(self).is_poisoned(),
            match r {
                Ok(_) => belongs(*head, old(self).run()) && !old(self).answered().contains(
                    head.question_id@,
                ) && final(self).answered() == old(self).answered().push(head.question_id@),
                Err(e) => final(self).answered() == old(self).answered() && (if !belongs(
                    *head,
                    old(self).run(),
                ) {
                    e@ == line_text("mixed JSONL line "@, number as nat)
                } else {
                    old(self).answered().contains(head.question_id@) && e@
                        == "duplicate question ID"@
                }),
            },
    {
        if !is_of_run(head, &self.run) {
            return Err(at_line("mixed JSONL line ", number));
        }
        if self.contains(head.question_id.as_str()) {
            return Err("duplicate question ID".to_owned());
        }
        self.note(head.question_id.as_str());
        Ok(())
    }

    /// Why a record may not be appended.
    pub open spec fn append_fault(&self, head: RecordHead) -> Option<Seq<char>> {
        if self.is_poisoned() {
            Some("evaluation JSONL writer is poisoned"@)
        } else if !belongs(head, self.run()) {
            Some("incompatible evaluation record"@)
        } else if self.answered().contains(head.question_id@) {
            Some("duplicate question ID"@)
        } else {
            None
        }
    }

    /// Checks a record before it is written.
    pub fn check_append(&self, head: &RecordHead) -> (r: Result<(), String>)
        ensures
            match r {
                Ok(_) => self.append_fault(*head) is None,
                Err(e) => self.append_fault(*head) == Some(e@),
            },
    {
        if self.poisoned {
            return Err("evaluation JSONL writer is poisoned".to_owned());
        }
        if !is_of_run(head, &self.run) {
            return Err("incompatible evaluation record".to_owned());
        }
        if self.contains(head.question_id.as_str()) {
            return Err("duplicate question ID".to_owned());
        }
        Ok(())
    }

    /// Takes note of whether a record was written. A write that failed poisons
    /// the ledger.
    pub fn finish_append(&mut self, head: &RecordHead, written: bool)
        requires
            old(self).consistent(),
            old(self).append_fault(*head) is None,
        ensures
            final(self).consistent(),
            final(self).run() == old(self).run(),
            final(self).is_poisoned() == !written,
            final(self).answered() == if written {
                old(self).answered().push(head.question_id@)
            } else {
                old(self).answered()
            },
    {
        if written {
            self.note(head.question_id.as_str());
        } else {
            self.poisoned = true;
        }
    }
}

/// A failed write is the last: nothing is appended to a poisoned ledger.
pub proof fn poisoned_ledgers_take_nothing(ledger: EvalJsonl, head: RecordHead)
    requires
        ledger.is_poisoned(),
    ensures
        ledger.append_fault(head) == Some("evaluation JSONL writer is poisoned"@),
{
}

pub open spec fn head_ids(v: Seq<RecordHead>) -> Seq<Seq<char>> {
    Seq::new(v.len(), |i: int| v[i].question_id@)
}

/// What is wrong with a record.
pub open spec fn head_fault(v: Seq<RecordHead>, run: RunIdentity, i: int) -> Option<Seq<char>> {
    if !belongs(v[i], run) {
        Some("incompatible evaluation record "@ + text::debug_quoted(v[i].question_id@))
    } else if head_ids(v).take(i).contains(v[i].question_id@) {
        Some("duplicate evaluation record for "@ + text::debug_quoted(v[i].question_id@))
    } else {
        None
    }
}

/// What is wrong with the records from `i` on.
pub open spec fn heads_fault(v: Seq<RecordHead>, run: RunIdentity, i: int) -> Option<Seq<char>>
    decreases v.len() - i,
{
    if i < 0 || i >= v.len() {
        None
    } else {
        match head_fault(v, run, i) {
            Some(e) => Some(e),
            None => heads_fault(v, run, i + 1),
        }
    }
}

/// What is wrong with the requested questions from `i` on.
pub open spec fn request_fault(ids: Seq<Seq<char>>, i: int) -> Option<Seq<char>>
    decreases ids.len() - i,
{
    if i < 0 || i >= ids.len() {
        None
    } else if ids.take(i).contains(ids[i]) {
        Some("duplicate requested question ID "@ + text::debug_quoted(ids[i]))
    } else {
        request_fault(ids, i + 1)
    }
}

/// The place of a record by its question, from `i` on.
pub open spec fn head_place(ids: Seq<Seq<char>>, id: Seq<char>, i: int) -> Option<int>
    decreases ids.len() - i,
{
    if i < 0 || i >= ids.len() {
        None
    } else if ids[i] == id {
        Some(i)
    } else {
        head_place(ids, id, i + 1)
    }
}

/// The records of the first `n` requested questions, in the order of request.
pub open spec fn chosen_records(ids: Seq<Seq<char>>, requested: Seq<Seq<char>>, n: int) -> Seq<int>
    decreases n,
{
    if n <= 0 {
        Seq::empty()
    } else {
        let rest = chosen_records(ids, requested, n - 1);
        match head_place(ids, requested[n - 1], 0) {
            Some(p) => rest.push(p),
            None => rest,
        }
    }
}

/// The records that a summary is made of, or why there is none.
pub open spec fn summary_records(
    v: Seq<RecordHead>,
    run: RunIdentity,
    requested: Seq<Seq<char>>,
) -> Result<Seq<int>, Seq<char>> {
    match heads_fault(v, run, 0) {
        Some(e) => Err(e),
        None => match request_fault(requested, 0) {
            Some(e) => Err(e),
            None => Ok(chosen_records(head_ids(v), requested, requested.len() as int)),
        },
    }
}

fn seen_before(v: &Vec<String>, i: usize) -> (r: bool)
    requires
        i < v@.len(),
    ensures
        r == text::texts(v@).take(i as int).contains(text::texts(v@)[i as int]),
{
    let ghost all = text::texts(v@);
    let mut k: usize = 0;
    while k < i
        invariant
            k <= i < v@.len(),
            all == text::texts(v@),
            forall|q: int| 0 <= q < k ==> #[trigger] all[q] != all[i as int],
        decreases i - k,
    {
        assert(all[k as int] == v@[k as int]@);
        if text_eq(v[k].as_str(), v[i].as_str()) {
            assert(all.take(i as int)[k as int] == all[i as int]);
            return true;
        }
        k += 1;
    }
    proof {
        let front = all.take(i as int);
        if front.contains(all[i as int]) {
            let q = choose|q: int| 0 <= q < front.len() && front[q] == all[i as int];
            assert(all[q] == all[i as int]);
        }
    }
    false
}

fn find_head(ids: &Vec<String>, id: &str) -> (r: Option<usize>)
    ensures
        match r {
            Some(p) => p < ids@.len() && head_place(text::texts(ids@), id@, 0) == Some(p as int),
            None => head_place(text::texts(ids@), id@, 0) is None,
        },
{
    let ghost all = text::texts(ids@);
    let mut i: usize = 0;
    while i < ids.len()
        invariant
            i <= ids@.len(),
            all == text::texts(ids@),
            head_place(all, id@, 0) == head_place(all, id@, i as int),
        decreases ids.len() - i,
    {
        assert(all[i as int] == ids@[i as int]@);
        if text_eq(ids[i].as_str(), id) {
            return Some(i);
        }
        i += 1;
    }
    None
}

/// Selects the records that a summary is made of.
pub fn select_records(heads: &Vec<RecordHead>, run: &RunIdentity, requested: &Vec<String>) -> (r:
    Result<Vec<usize>, String>)
    ensures
        match r {
            Ok(places) => summary_records(heads@, *run, text::texts(requested@)) == Ok::<
                Seq<int>,
                Seq<char>,
            >(order::indices(places@)) && forall|i: int|
                0 <= i < places@.len() ==> #[trigger] places@[i] < heads@.len(),
            Err(e) => summary_records(heads@, *run, text::texts(requested@)) == Err::<
                Seq<int>,
                Seq<char>,
            >(e@),
        },
{
    let ghost want = text::texts(requested@);
    let mut ids: Vec<String> = Vec::new();
    let mut i: usize = 0;
    while i < heads.len()
        invariant
            i <= heads@.len(),
            ids@.len() == i,
            forall|k: int| 0 <= k < i ==> (#[trigger] ids@[k])@ == heads@[k].question_id@,
        decreases heads.len() - i,
    {
        ids.push(heads[i].question_id.clone());
        i += 1;
    }
    assert(text::texts(ids@) =~= head_ids(heads@));
    let mut h: usize = 0;
    while h < heads.len()
        invariant
            h <= heads@.len(),
            ids@.len() == heads@.len(),
            text::texts(ids@) == head_ids(heads@),
            want == text::texts(requested@),
            heads_fault(heads@, *run, 0) == heads_fault(heads@, *run, h as int),
        decreases heads.len() - h,
    {
        assert(head_ids(heads@)[h as int] == heads@[h as int].question_id@);
        if !is_of_run(&heads[h], run) {
            let mut e = "incompatible evaluation record ".to_owned();
            e.append(debug_text(heads[h].question_id.as_str()).as_str());
            return Err(e);
        }
        if seen_before(&ids, h) {
            let mut e = "duplicate evaluation record for ".to_owned();
            e.append(debug_text(heads[h].question_id.as_str()).as_str());
            return Err(e);
        }
        h += 1;
    }
    let mut q: usize = 0;
    while q < requested.len()
        invariant
            q <= requested@.len(),
            want == text::texts(requested@),
            heads_fault(heads@, *run, 0) is None,
            request_fault(want, 0) == request_fault(want, q as int),
        decreases requested.len() - q,
    {
        assert(want[q as int] == requested@[q as int]@);
        if seen_before(requested, q) {
            let mut e = "duplicate requested question ID ".to_owned();
            e.append(debug_text(requested[q].as_str()).as_str());
            return Err(e);
        }
        q += 1;
    }
    let mut out: Vec<usize> = Vec::new();
    let mut n: usize = 0;
    assert(order::indices(out@) =~= Seq::empty());
    while n < requested.len()
        invariant
            n <= requested@.len(),
            want == text::texts(requested@),
            ids@.len() == heads@.len(),
            text::texts(ids@) == head_ids(heads@),
            order::indices(out@) == chosen_records(head_ids(heads@), want, n as int),
            forall|k: int| 0 <= k < out@.len() ==> #[trigger] out@[k] < heads@.len(),
        decreases requested.len() - n,
    {
        assert(want[n as int] == requested@[n as int]@);
        if let Some(p) = find_head(&ids, requested[n].as_str()) {
            let ghost before = order::indices(out@);
            out.push(p);
            assert(order::indices(out@) =~= before.push(p as int));
        }
        n += 1;
    }
    Ok(out)
}

/// The first `n` requested questions that there is a record of.
pub open spec fn recorded_ids(requested: Seq<Seq<char>>, ids: Seq<Seq<char>>, n: int) -> Seq<
    Seq<char>,
>
    decreases n,
{
    if n <= 0 {
        Seq::empty()
    } else if ids.contains(requested[n - 1]) {
        recorded_ids(requested, ids, n - 1).push(requested[n - 1])
    } else {
        recorded_ids(requested, ids, n - 1)
    }
}

/// The records at some places.
pub open spec fn heads_at(v: Seq<RecordHead>, places: Seq<int>) -> Seq<RecordHead> {
    Seq::new(places.len(), |k: int| v[places[k]])
}

/// All records belong to the run, and no question has two.
pub open spec fn sound_records(v: Seq<RecordHead>, run: RunIdentity) -> bool {
    &&& forall|i: int| 0 <= i < v.len() ==> belongs(#[trigger] v[i], run)
    &&& head_ids(v).no_duplicates()
}

proof fn heads_fault_from(v: Seq<RecordHead>, run: RunIdentity, i: int)
    requires
        0 <= i <= v.len(),
    ensures
        heads_fault(v, run, i) is None <==> forall|k: int|
            i <= k < v.len() ==> belongs(#[trigger] v[k], run) && !head_ids(v).take(k).contains(
                v[k].question_id@,
            ),
    decreases v.len() - i,
{
    if i < v.len() {
        heads_fault_from(v, run, i + 1);
        if heads_fault(v, run, i) is None {
            assert forall|k: int| i <= k < v.len() implies belongs(#[trigger] v[k], run)
                && !head_ids(v).take(k).contains(v[k].question_id@) by {
                if k == i {
                    assert(head_fault(v, run, i) is None);
                }
            }
        } else {
            if head_fault(v, run, i) is Some {
                assert(!(belongs(v[i], run) && !head_ids(v).take(i).contains(v[i].question_id@)));
            } else {
                let k = choose|k: int|
                    i + 1 <= k < v.len() && !(belongs(#[trigger] v[k], run) && !head_ids(
                        v,
                    ).take(k).contains(v[k].question_id@));
                assert(i <= k < v.len());
            }
        }
    }
}

/// Records are refused exactly when one is of another run or repeats a question.
proof fn heads_fault_is(v: Seq<RecordHead>, run: RunIdentity)
    ensures
        heads_fault(v, run, 0) is None <==> sound_records(v, run),
{
    heads_fault_from(v, run, 0);
    let ids = head_ids(v);
    if heads_fault(v, run, 0) is None {
        assert forall|a: int, b: int| 0 <= a < b < ids.len() implies ids[a] != ids[b] by {
            assert(!ids.take(b).contains(v[b].question_id@));
            assert(ids.take(b)[a] == ids[a]);
        }
    }
    if sound_records(v, run) {
        assert forall|k: int| 0 <= k < v.len() implies belongs(#[trigger] v[k], run) && !ids.take(
            k,
        ).contains(v[k].question_id@) by {
            if ids.take(k).contains(v[k].question_id@) {
                let a = choose|a: int| 0 <= a < k && ids.take(k)[a] == v[k].question_id@;
                assert(ids[a] == ids[k]);
            }
        }
    }
}

proof fn request_fault_from(ids: Seq<Seq<char>>, i: int)
    requires
        0 <= i <= ids.len(),
    ensures
        request_fault(ids, i) is None <==> forall|k: int|
            i <= k < ids.len() ==> !ids.take(k).contains(#[trigger] ids[k]),
    decreases ids.len() - i,
{
    if i < ids.len() {
        request_fault_from(ids, i + 1);
        if request_fault(ids, i) is None {
            assert forall|k: int| i <= k < ids.len() implies !ids.take(k).contains(
                #[trigger] ids[k],
            ) by {}
        } else if !ids.take(i).contains(ids[i]) {
            let k = choose|k: int| i + 1 <= k < ids.len() && ids.take(k).contains(#[trigger] ids[k]);
            assert(i <= k < ids.len());
        }
    }
}

proof fn request_fault_is(ids: Seq<Seq<char>>)
    ensures
        request_fault(ids, 0) is None <==> ids.no_duplicates(),
{
    request_fault_from(ids, 0);
    if request_fault(ids, 0) is None {
        assert forall|a: int, b: int| 0 <= a < b < ids.len() implies ids[a] != ids[b] by {
            assert(!ids.take(b).contains(ids[b]));
            assert(ids.take(b)[a] == ids[a]);
        }
    }
    if ids.no_duplicates() {
        assert forall|k: int| 0 <= k < ids.len() implies !ids.take(k).contains(#[trigger] ids[k]) by {
            if ids.take(k).contains(ids[k]) {
                let a = choose|a: int| 0 <= a < k && ids.take(k)[a] == ids[k];
                assert(ids[a] == ids[k]);
            }
        }
    }
}

proof fn head_place_is(ids: Seq<Seq<char>>, id: Seq<char>, i: int)
    requires
        0 <= i <= ids.len(),
    ensures
        match head_place(ids, id, i) {
            Some(p) => i <= p < ids.len() && ids[p] == id,
            None => forall|k: int| i <= k < ids.len() ==> #[trigger] ids[k] != id,
        },
    decreases ids.len() - i,
{
    if i < ids.len() && ids[i] != id {
        head_place_is(ids, id, i + 1);
    }
}

proof fn chosen_records_are(ids: Seq<Seq<char>>, requested: Seq<Seq<char>>, n: int)
    requires
        0 <= n <= requested.len(),
    ensures
        ({
            let p = chosen_records(ids, requested, n);
            &&& p.len() == recorded_ids(requested, ids, n).len()
            &&& forall|k: int|
                0 <= k < p.len() ==> 0 <= #[trigger] p[k] < ids.len() && ids[p[k]] == recorded_ids(
                    requested,
                    ids,
                    n,
                )[k]
        }),
    decreases n,
{
    if n > 0 {
        chosen_records_are(ids, requested, n - 1);
        head_place_is(ids, requested[n - 1], 0);
        if let Some(p) = head_place(ids, requested[n - 1], 0) {
            assert(ids.contains(ids[p]));
        }
    }
}

proof fn recorded_ids_agree(
    requested: Seq<Seq<char>>,
    a: Seq<Seq<char>>,
    b: Seq<Seq<char>>,
    n: int,
)
    requires
        0 <= n <= requested.len(),
        forall|k: int|
            0 <= k < requested.len() ==> (a.contains(#[trigger] requested[k]) <==> b.contains(
                requested[k],
            )),
    ensures
        recorded_ids(requested, a, n) == recorded_ids(requested, b, n),
    decreases n,
{
    if n > 0 {
        recorded_ids_agree(requested, a, b, n - 1);
        assert(a.contains(requested[n - 1]) <==> b.contains(requested[n - 1]));
    }
}

/// When a summary is made: every record belongs to the run, no question has two
/// records, and none is requested twice. It then covers the requested questions
/// that there is a record of, in the order of request, each by its own record.
pub proof fn summaries_cover_the_requested(
    v: Seq<RecordHead>,
    run: RunIdentity,
    requested: Seq<Seq<char>>,
)
    ensures
        summary_records(v, run, requested) is Ok <==> sound_records(v, run)
            && requested.no_duplicates(),
        summary_records(v, run, requested) matches Ok(p) ==> {
            &&& forall|k: int| 0 <= k < p.len() ==> 0 <= #[trigger] p[k] < v.len()
            &&& head_ids(heads_at(v, p)) == recorded_ids(
                requested,
                head_ids(v),
                requested.len() as int,
            )
        },
{
    heads_fault_is(v, run);
    request_fault_is(requested);
    let n = requested.len() as int;
    chosen_records_are(head_ids(v), requested, n);
    if let Ok(p) = summary_records(v, run, requested) {
        assert forall|k: int| 0 <= k < p.len() implies 0 <= #[trigger] p[k] < v.len() by {}
        assert(head_ids(heads_at(v, p)) =~= recorded_ids(requested, head_ids(v), n)) by {
            assert forall|k: int| 0 <= k < p.len() implies head_ids(heads_at(v, p))[k]
                == recorded_ids(requested, head_ids(v), n)[k] by {
                assert(head_ids(v)[p[k]] == v[p[k]].question_id@);
            }
        }
    }
}

/// Of the records only those of requested questions matter: a list with the same
/// ones gives the same summary, whatever else it holds and in whatever order.
pub proof fn summaries_ignore_other_records(
    v: Seq<RecordHead>,
    w: Seq<RecordHead>,
    run: RunIdentity,
    requested: Seq<Seq<char>>,
)
    requires
        sound_records(v, run),
        sound_records(w, run),
        forall|h: RecordHead|
            requested.contains(h.question_id@) ==> (#[trigger] v.contains(h) <==> w.contains(h)),
    ensures
        match summary_records(v, run, requested) {
            Ok(p) => summary_records(w, run, requested) matches Ok(q) && heads_at(v, p) == heads_at(
                w,
                q,
            ),
            Err(e) => summary_records(w, run, requested) == Err::<Seq<int>, Seq<char>>(e),
        },
{
    heads_fault_is(v, run);
    heads_fault_is(w, run);
    let n = requested.len() as int;
    let (a, b) = (head_ids(v), head_ids(w));
    assert forall|k: int| 0 <= k < requested.len() implies (a.contains(#[trigger] requested[k])
        <==> b.contains(requested[k])) by {
        let id = requested[k];
        if a.contains(id) {
            let x = choose|x: int| 0 <= x < a.len() && a[x] == id;
            assert(v.contains(v[x]));
            assert(w.contains(v[x]));
            let y = choose|y: int| 0 <= y < w.len() && w[y] == v[x];
            assert(b[y] == id);
        }
        if b.contains(id) {
            let y = choose|y: int| 0 <= y < b.len() && b[y] == id;
            assert(w.contains(w[y]));
            assert(v.contains(w[y]));
            let x = choose|x: int| 0 <= x < v.len() && v[x] == w[y];
            assert(a[x] == id);
        }
    }
    recorded_ids_agree(requested, a, b, n);
    summaries_cover_the_requested(v, run, requested);
    summaries_cover_the_requested(w, run, requested);
    chosen_records_are(a, requested, n);
    chosen_records_are(b, requested, n);
    if let Ok(p) = summary_records(v, run, requested) {
        let q = summary_records(w, run, requested)->Ok_0;
        assert(heads_at(v, p) =~= heads_at(w, q)) by {
            assert forall|k: int| 0 <= k < p.len() implies heads_at(v, p)[k] == heads_at(w, q)[k] by {
                let (x, y) = (p[k], q[k]);
                let id = recorded_ids(requested, a, n)[k];
                recorded_ids_requested(requested, a, n, k);
                assert(a[x] == id && b[y] == id);
                assert(v.contains(v[x]));
                assert(w.contains(v[x]));
                let z = choose|z: int| 0 <= z < w.len() && w[z] == v[x];
                assert(b[z] == id);
                assert(z == y);
            }
        }
    }
}

proof fn recorded_ids_requested(
    requested: Seq<Seq<char>>,
    ids: Seq<Seq<char>>,
    n: int,
    k: int,
)
    requires
        0 <= n <= requested.len(),
        0 <= k < recorded_ids(requested, ids, n).len(),
    ensures
        requested.contains(recorded_ids(requested, ids, n)[k]),
    decreases n,
{
    if n > 0 {
        if k < recorded_ids(requested, ids, n - 1).len() {
            recorded_ids_requested(requested, ids, n - 1, k);
        } else {
            assert(requested[n - 1] == recorded_ids(requested, ids, n)[k]);
        }
    }
}

proof fn sound_in_any_order(v: Seq<RecordHead>, w: Seq<RecordHead>, run: RunIdentity)
    requires
        v.to_multiset() == w.to_multiset(),
        sound_records(v, run),
    ensures
        sound_records(w, run),
{
    v.to_multiset_ensures();
    w.to_multiset_ensures();
    let (a, b) = (head_ids(v), head_ids(w));
    assert(v.no_duplicates()) by {
        assert forall|x: int, y: int| 0 <= x < v.len() && 0 <= y < v.len() && x != y implies v[x]
            != v[y] by {
            assert(a[x] != a[y]);
        }
    }
    v.lemma_multiset_has_no_duplicates();
    w.lemma_multiset_has_no_duplicates_conv();
    assert forall|y: int| 0 <= y < w.len() implies belongs(#[trigger] w[y], run) && v.contains(
        w[y],
    ) by {
        assert(w.contains(w[y]));
        assert(w.to_multiset().count(w[y]) > 0);
        assert(v.contains(w[y]));
        let x = choose|x: int| 0 <= x < v.len() && v[x] == w[y];
        assert(belongs(v[x], run));
    }
    assert forall|x: int, y: int| 0 <= x < y < b.len() implies b[x] != b[y] by {
        assert(belongs(w[x], run) && belongs(w[y], run));
        let p = choose|p: int| 0 <= p < v.len() && v[p] == w[x];
        let q = choose|q: int| 0 <= q < v.len() && v[q] == w[y];
        assert(w[x] != w[y]);
        assert(p != q);
        assert(a[p] != a[q]);
    }
}

/// The order of the records makes no difference: a summary is made of one order
/// exactly when it is made of any other, and of the same records.
pub proof fn summaries_ignore_order(
    v: Seq<RecordHead>,
    w: Seq<RecordHead>,
    run: RunIdentity,
    requested: Seq<Seq<char>>,
)
    requires
        v.to_multiset() == w.to_multiset(),
    ensures
        match summary_records(v, run, requested) {
            Ok(p) => summary_records(w, run, requested) matches Ok(q) && heads_at(v, p) == heads_at(
                w,
                q,
            ),
            Err(_) => summary_records(w, run, requested) is Err,
        },
{
    summaries_cover_the_requested(v, run, requested);
    summaries_cover_the_requested(w, run, requested);
    if sound_records(v, run) {
        sound_in_any_order(v, w, run);
        v.to_multiset_ensures();
        w.to_multiset_ensures();
        assert forall|h: RecordHead| requested.contains(h.question_id@) implies (
        #[trigger] v.contains(h) <==> w.contains(h)) by {
            assert(v.contains(h) <==> v.to_multiset().count(h) > 0);
            assert(w.contains(h) <==> w.to_multiset().count(h) > 0);
        }
        summaries_ignore_other_records(v, w, run, requested);
    } else if sound_records(w, run) {
        sound_in_any_order(w, v, run);
    }
}

/// The number of the first `n` questions that have been answered.
pub open spec fn answered_count(
    ids: Seq<Seq<char>>,
    answered: Seq<Seq<char>>,
    n: int,
) -> nat
    decreases n,
{
    if n <= 0 {
        0
    } else {
        answered_count(ids, answered, n - 1) + (if answered.contains(ids[n - 1]) {
            1nat
        } else {
            0nat
        })
    }
}

/// The questions of a group that have not been answered, among its first `n`.
pub open spec fn open_questions(
    group: Seq<int>,
    ids: Seq<Seq<char>>,
    answered: Seq<Seq<char>>,
    n: int,
) -> Seq<int>
    decreases n,
{
    if n <= 0 {
        Seq::empty()
    } else {
        let rest = open_questions(group, ids, answered, n - 1);
        if answered.contains(ids[group[n - 1]]) {
            rest
        } else {
            rest.push(group[n - 1])
        }
    }
}

/// What is left to do of the first `n` groups: of each its open questions,
/// where it has any.
pub open spec fn open_groups(
    groups: Seq<Seq<int>>,
    ids: Seq<Seq<char>>,
    answered: Seq<Seq<char>>,
    n: int,
) -> Seq<Seq<int>>
    decreases n,
{
    if n <= 0 {
        Seq::empty()
    } else {
        let rest = open_groups(groups, ids, answered, n - 1);
        let own = open_questions(groups[n - 1], ids, answered, groups[n - 1].len() as int);
        if own.len() == 0 {
            rest
        } else {
            rest.push(own)
        }
    }
}

/// Counts the questions that have been answered.
pub fn count_resumed(ids: &Vec<String>, ledger: &EvalJsonl) -> (r: usize)
    ensures
        r == answered_count(text::texts(ids@), ledger.answered(), ids@.len() as int),
        r <= ids@.len(),
{
    let ghost all = text::texts(ids@);
    let n = ids.len();
    let mut count: usize = 0;
    let mut i: usize = 0;
    while i < n
        invariant
            i <= n,
            n == ids@.len(),
            all == text::texts(ids@),
            count <= i,
            count == answered_count(all, ledger.answered(), i as int),
        decreases n - i,
    {
        assert(all[i as int] == ids@[i as int]@);
        if ledger.contains(ids[i].as_str()) {
            count += 1;
        }
        i += 1;
    }
    count
}

/// Lists what is left to do of each group.
pub fn list_open(groups: &Vec<Vec<usize>>, ids: &Vec<String>, ledger: &EvalJsonl) -> (r: Vec<
    Vec<usize>,
>)
    requires
        forall|p: int, k: int|
            0 <= p < groups@.len() && 0 <= k < groups@[p]@.len() ==> (#[trigger] groups@[p]@[k])
                < ids@.len(),
    ensures
        evaluation::index_groups(r@) == open_groups(
            evaluation::index_groups(groups@),
            text::texts(ids@),
            ledger.answered(),
            groups@.len() as int,
        ),
{
    let ghost lists = evaluation::index_groups(groups@);
    let ghost names = text::texts(ids@);
    let ghost done = ledger.answered();
    let mut out: Vec<Vec<usize>> = Vec::new();
    let mut g: usize = 0;
    assert(evaluation::index_groups(out@) =~= Seq::empty());
    while g < groups.len()
        invariant
            g <= groups@.len(),
            lists == evaluation::index_groups(groups@),
            names == text::texts(ids@),
            done == ledger.answered(),
            forall|p: int, k: int|
                0 <= p < groups@.len() && 0 <= k < groups@[p]@.len() ==> (
                #[trigger] groups@[p]@[k]) < ids@.len(),
            evaluation::index_groups(out@) == open_groups(lists, names, done, g as int),
        decreases groups.len() - g,
    {
        let group = &groups[g];
        assert(lists[g as int] == order::indices(group@));
        let mut own: Vec<usize> = Vec::new();
        let mut k: usize = 0;
        assert(order::indices(own@) =~= Seq::empty());
        while k < group.len()
            invariant
                k <= group@.len(),
                g < groups@.len(),
                *group == groups@[g as int],
                names == text::texts(ids@),
                done == ledger.answered(),
                forall|p: int, q: int|
                    0 <= p < groups@.len() && 0 <= q < groups@[p]@.len() ==> (
                    #[trigger] groups@[p]@[q]) < ids@.len(),
                order::indices(own@) == open_questions(
                    order::indices(group@),
                    names,
                    done,
                    k as int,
                ),
            decreases group.len() - k,
        {
            assert(groups@[g as int]@[k as int] < ids@.len());
            let i = group[k];
            assert(order::indices(group@)[k as int] == i as int);
            assert(names[i as int] == ids@[i as int]@);
            if !ledger.contains(ids[i].as_str()) {
                let ghost before = order::indices(own@);
                own.push(i);
                assert(order::indices(own@) =~= before.push(i as int));
            }
            k += 1;
        }
        assert(order::indices(own@).len() == own@.len());
        if own.len() > 0 {
            let ghost before = evaluation::index_groups(out@);
            let ghost list = order::indices(own@);
            out.push(own);
            assert(evaluation::index_groups(out@) =~= before.push(list));
        }
        g += 1;
    }
    out
}

proof fn open_questions_are_open(
    group: Seq<int>,
    ids: Seq<Seq<char>>,
    answered: Seq<Seq<char>>,
    n: int,
)
    requires
        0 <= n <= group.len(),
    ensures
        forall|k: int|
            0 <= k < open_questions(group, ids, answered, n).len() ==> !answered.contains(
                ids[#[trigger] open_questions(group, ids, answered, n)[k]],
            ),
        forall|k: int|
            0 <= k < n && !answered.contains(ids[#[trigger] group[k]]) ==> open_questions(
                group,
                ids,
                answered,
                n,
            ).contains(group[k]),
    decreases n,
{
    if n > 0 {
        open_questions_are_open(group, ids, answered, n - 1);
        let rest = open_questions(group, ids, answered, n - 1);
        let whole = open_questions(group, ids, answered, n);
        assert forall|k: int| 0 <= k < n && !answered.contains(ids[#[trigger] group[k]]) implies
            whole.contains(group[k]) by {
            if k < n - 1 {
                assert(rest.contains(group[k]));
                let q = choose|q: int| 0 <= q < rest.len() && rest[q] == group[k];
                assert(whole[q] == group[k]);
            } else {
                assert(whole[rest.len() as int] == group[k]);
            }
        }
        assert forall|k: int| 0 <= k < whole.len() implies !answered.contains(
            ids[#[trigger] whole[k]],
        ) by {
            if k < rest.len() {
                assert(whole[k] == rest[k]);
            }
        }
    }
}

/// A run that is taken up again answers exactly what has not been answered: it
/// lists no answered question, and every other one.
pub proof fn resumed_runs_answer_the_rest(
    groups: Seq<Seq<int>>,
    ids: Seq<Seq<char>>,
    answered: Seq<Seq<char>>,
    n: int,
)
    requires
        0 <= n <= groups.len(),
    ensures
        forall|p: int, k: int|
            0 <= p < open_groups(groups, ids, answered, n).len() && 0 <= k < open_groups(
                groups,
                ids,
                answered,
                n,
            )[p].len() ==> !answered.contains(
                ids[#[trigger] open_groups(groups, ids, answered, n)[p][k]],
            ),
        forall|p: int, k: int|
            0 <= p < n && 0 <= k < groups[p].len() && !answered.contains(
                ids[#[trigger] groups[p][k]],
            ) ==> evaluation::in_group(
                open_groups(groups, ids, answered, n),
                groups[p][k],
            ),
    decreases n,
{
    if n > 0 {
        resumed_runs_answer_the_rest(groups, ids, answered, n - 1);
        let group = groups[n - 1];
        open_questions_are_open(group, ids, answered, group.len() as int);
        let own = open_questions(group, ids, answered, group.len() as int);
        let rest = open_groups(groups, ids, answered, n - 1);
        let whole = open_groups(groups, ids, answered, n);
        assert forall|p: int, k: int|
            0 <= p < n && 0 <= k < groups[p].len() && !answered.contains(
                ids[#[trigger] groups[p][k]],
            ) implies evaluation::in_group(whole, groups[p][k]) by {
            if p < n - 1 {
                assert(evaluation::in_group(rest, groups[p][k]));
                let q = choose|q: int|
                    0 <= q < rest.len() && (#[trigger] rest[q]).contains(groups[p][k]);
                assert(whole[q] == rest[q]);
            } else {
                assert(own.contains(groups[p][k]));
                assert(own.len() > 0);
                assert(whole[rest.len() as int] == own);
            }
        }
        assert forall|p: int, k: int|
            0 <= p < whole.len() && 0 <= k < whole[p].len() implies !answered.contains(
            ids[#[trigger] whole[p][k]],
        ) by {
            if p < rest.len() {
                assert(whole[p] == rest[p]);
                assert(whole[p][k] == rest[p][k]);
            } else {
                assert(whole[p] == own);
                assert(whole[p][k] == own[k]);
            }
        }
    }
}

proof fn heads_without_fault(v: Seq<RecordHead>, run: RunIdentity, i: int)
    requires
        0 <= i,
    ensures
        heads_fault(v, run, i) is None <==> forall|k: int|
            i <= k < v.len() ==> #[trigger] head_fault(v, run, k) is None,
    decreases v.len() - i,
{
    if i < v.len() {
        heads_without_fault(v, run, i + 1);
        if heads_fault(v, run, i) is None {
            assert forall|k: int| i <= k < v.len() implies #[trigger] head_fault(v, run, k) is None by {
                if k > i {
                    assert(head_fault(v, run, k) is None);
                }
            }
        }
    }
}

/// The records of a ledger are accepted exactly where each belongs to the run, with
/// its dataset, benchmark and channels, and no question is answered twice.
pub proof fn accepted_records_belong_to_the_run(v: Seq<RecordHead>, run: RunIdentity)
    ensures
        heads_fault(v, run, 0) is None <==> (forall|k: int|
            0 <= k < v.len() ==> (#[trigger] v[k]).schema_version == EVAL_SCHEMA_VERSION
                && v[k].run_fingerprint@ == run.run_fingerprint@ && v[k].benchmark == run.benchmark
                && v[k].dataset_sha256@ == run.dataset_sha256@ && v[k].requested_channels
                == run.requested_channels) && forall|i: int, j: int|
            0 <= i < j < v.len() ==> (#[trigger] v[i]).question_id@ != (
            #[trigger] v[j]).question_id@,
{
    heads_without_fault(v, run, 0);
    let ids = head_ids(v);
    assert forall|k: int| 0 <= k < v.len() implies (#[trigger] head_fault(v, run, k) is None
        <==> belongs(v[k], run) && forall|i: int|
        0 <= i < k ==> (#[trigger] v[i]).question_id@ != v[k].question_id@) by {
        let front = ids.take(k);
        if front.contains(v[k].question_id@) {
            let i = choose|i: int| 0 <= i < front.len() && front[i] == v[k].question_id@;
            assert(v[i].question_id@ == v[k].question_id@);
        } else {
            assert forall|i: int| 0 <= i < k implies (#[trigger] v[i]).question_id@
                != v[k].question_id@ by {
                assert(front[i] == v[i].question_id@);
            }
        }
    }
    if heads_fault(v, run, 0) is None {
        assert forall|k: int| 0 <= k < v.len() implies belongs(#[trigger] v[k], run) by {
            assert(head_fault(v, run, k) is None);
        }
        assert forall|i: int, j: int| 0 <= i < j < v.len() implies (#[trigger] v[i]).question_id@
            != (#[trigger] v[j]).question_id@ by {
            assert(head_fault(v, run, j) is None);
        }
    }
}

} // verus!
