//! Running a benchmark: what is stored, asked and recorded for each question.

use vstd::hash_map::StringHashMap;
use vstd::prelude::*;
use vstd::string::*;

use crate::corpus::{
    self, benchmark_name, same_sessions, CaseModel, EvalBenchmark, EvalCase, EvalEvidenceRef,
    EvalMessage, EvalSession, EvidenceModel, MessageModel, SessionModel,
};
use crate::dataset::{self, canonical_id};
use crate::digest::{self, hash_id};
use crate::json::{self, json_number, json_text, JsonObject, JsonTree};
use crate::model::{self, event_id, EventRole, TurnStatus};
use crate::order;
use crate::runtime::EvalRunOptions;
use crate::text::{chars_of, string_of, text_eq};

verus! {

/// The place of the group of a question among the first groups, from `i` on.
pub open spec fn group_place(
    groups: Seq<Seq<int>>,
    cases: Seq<CaseModel>,
    id: Seq<char>,
    i: int,
) -> Option<int>
    decreases groups.len() - i,
{
    if i < 0 || i >= groups.len() {
        None
    } else if cases[groups[i][0]].group_id == id {
        Some(i)
    } else {
        group_place(groups, cases, id, i + 1)
    }
}

/// The first `n` questions by group, in order; nothing when two questions of a
/// group are about different sessions.
pub open spec fn grouped(cases: Seq<CaseModel>, n: int) -> Option<Seq<Seq<int>>>
    decreases n,
{
    if n <= 0 {
        Some(Seq::empty())
    } else {
        match grouped(cases, n - 1) {
            None => None,
            Some(groups) => match group_place(groups, cases, cases[n - 1].group_id, 0) {
                Some(p) => if cases[groups[p][0]].sessions == cases[n - 1].sessions {
                    Some(groups.update(p, groups[p].push(n - 1)))
                } else {
                    None
                },
                None => Some(groups.push(seq![n - 1])),
            },
        }
    }
}

proof fn group_place_found(
    groups: Seq<Seq<int>>,
    cases: Seq<CaseModel>,
    id: Seq<char>,
    i: int,
)
    requires
        0 <= i,
    ensures
        match group_place(groups, cases, id, i) {
            Some(p) => i <= p < groups.len() && cases[groups[p][0]].group_id == id,
            None => true,
        },
    decreases groups.len() - i,
{
    if i < groups.len() && cases[groups[i][0]].group_id != id {
        group_place_found(groups, cases, id, i + 1);
    }
}

proof fn grouped_stops(cases: Seq<CaseModel>, k: int, n: int)
    requires
        k <= n,
        grouped(cases, k) is None,
    ensures
        grouped(cases, n) is None,
    decreases n - k,
{
    if k < n {
        grouped_stops(cases, k, n - 1);
    }
}

/// Whether a question stands in a group.
pub open spec fn in_group(groups: Seq<Seq<int>>, i: int) -> bool {
    exists|p: int| 0 <= p < groups.len() && (#[trigger] groups[p]).contains(i)
}

/// Every question stands in a group, and all questions of a group share its id
/// and its sessions.
pub proof fn groups_share_sessions(cases: Seq<CaseModel>, n: int)
    requires
        0 <= n <= cases.len(),
        grouped(cases, n) is Some,
    ensures
        forall|i: int| 0 <= i < n ==> in_group(grouped(cases, n)->0, i),
        forall|p: int|
            0 <= p < grouped(cases, n)->0.len() ==> (#[trigger] grouped(cases, n)->0[p]).len() > 0,
        forall|p: int, k: int|
            0 <= p < grouped(cases, n)->0.len() && 0 <= k < grouped(cases, n)->0[p].len() ==> {
                let i = #[trigger] grouped(cases, n)->0[p][k];
                let first = grouped(cases, n)->0[p][0];
                0 <= i < n && 0 <= first < n && cases[i].group_id == cases[first].group_id
                    && cases[i].sessions == cases[first].sessions
            },
    decreases n,
{
    if n > 0 {
        groups_share_sessions(cases, n - 1);
        let before = grouped(cases, n - 1)->0;
        let after = grouped(cases, n)->0;
        group_place_found(before, cases, cases[n - 1].group_id, 0);
        let place = group_place(before, cases, cases[n - 1].group_id, 0);
        assert forall|i: int| 0 <= i < n implies in_group(after, i) by {
            if i < n - 1 {
                assert(in_group(before, i));
                let p = choose|p: int|
                    0 <= p < before.len() && (#[trigger] before[p]).contains(i);
                let k = choose|k: int| 0 <= k < before[p].len() && before[p][k] == i;
                assert(after[p][k] == i);
                assert(after[p].contains(i));
            } else {
                match place {
                    Some(p) => {
                        assert(after[p][before[p].len() as int] == i);
                        assert(after[p].contains(i));
                    },
                    None => {
                        assert(after[before.len() as int][0] == i);
                        assert(after[before.len() as int].contains(i));
                    },
                }
            }
        }
        assert forall|p: int, k: int| 0 <= p < after.len() && 0 <= k < after[p].len() implies {
            let i = #[trigger] after[p][k];
            let first = after[p][0];
            0 <= i < n && 0 <= first < n && cases[i].group_id == cases[first].group_id
                && cases[i].sessions == cases[first].sessions
        } by {
            if p < before.len() {
                assert(before[p].len() > 0);
                let first = before[p][0];
                assert(after[p][0] == first);
                if k < before[p].len() {
                    assert(after[p][k] == before[p][k]);
                }
            }
        }
    }
}

pub open spec fn index_groups(v: Seq<Vec<usize>>) -> Seq<Seq<int>> {
    Seq::new(v.len(), |i: int| order::indices(v[i]@))
}

/// Parts the questions of a corpus into groups.
pub fn grouped_cases(cases: &Vec<EvalCase>) -> (r: Result<Vec<Vec<usize>>, String>)
    ensures
        match r {
            Ok(groups) => grouped(corpus::case_models(cases@), cases@.len() as int) == Some(
                index_groups(groups@),
            ),
            Err(e) => grouped(corpus::case_models(cases@), cases@.len() as int) is None && e@
                == "cases in a group must carry identical sessions"@,
        },
{
    let ghost all = corpus::case_models(cases@);
    let mut groups: Vec<Vec<usize>> = Vec::new();
    let mut n: usize = 0;
    assert(index_groups(groups@) =~= Seq::empty());
    while n < cases.len()
        invariant
            n <= cases@.len(),
            all == corpus::case_models(cases@),
            grouped(all, n as int) == Some(index_groups(groups@)),
            forall|p: int|
                0 <= p < groups@.len() ==> (#[trigger] groups@[p])@.len() > 0 && groups@[p]@[0]
                    < cases@.len(),
        decreases cases.len() - n,
    {
        let ghost before = index_groups(groups@);
        let ghost id = cases@[n as int].group_id@;
        assert(all[n as int] == corpus::case_model(cases@[n as int]));
        let mut p: usize = 0;
        let mut found = false;
        while p < groups.len() && !found
            invariant
                p <= groups@.len(),
                n < cases@.len(),
                all == corpus::case_models(cases@),
                before == index_groups(groups@),
                id == cases@[n as int].group_id@,
                forall|q: int|
                    0 <= q < groups@.len() ==> (#[trigger] groups@[q])@.len() > 0
                        && groups@[q]@[0] < cases@.len(),
                group_place(before, all, id, 0) == group_place(before, all, id, p as int),
                found ==> p < groups@.len() && group_place(before, all, id, p as int) == Some(
                    p as int,
                ),
            decreases groups.len() - p, (if found { 0int } else { 1int }),
        {
            assert(groups@[p as int]@.len() > 0);
            assert(before[p as int] == order::indices(groups@[p as int]@));
            assert(before[p as int][0] == groups@[p as int]@[0]);
            let first = groups[p][0];
            assert(all[first as int] == corpus::case_model(cases@[first as int]));
            if text_eq(cases[first].group_id.as_str(), cases[n].group_id.as_str()) {
                found = true;
            } else {
                p += 1;
            }
        }
        if found {
            assert(groups@[p as int]@.len() > 0);
            assert(before[p as int] == order::indices(groups@[p as int]@));
            assert(before[p as int][0] == groups@[p as int]@[0]);
            let first = groups[p][0];
            assert(all[first as int] == corpus::case_model(cases@[first as int]));
            if !same_sessions(&cases[first].sessions, &cases[n].sessions) {
                proof {
                    grouped_stops(all, n + 1, all.len() as int);
                }
                return Err("cases in a group must carry identical sessions".to_owned());
            }
            let mut list = copy_indices(&groups[p]);
            list.push(n);
            let ghost own = order::indices(list@);
            assert(own =~= before[p as int].push(n as int));
            groups.set(p, list);
            assert(index_groups(groups@) =~= before.update(p as int, own));
        } else {
            let mut list: Vec<usize> = Vec::new();
            list.push(n);
            assert(order::indices(list@) =~= seq![n as int]);
            groups.push(list);
            assert(index_groups(groups@) =~= before.push(seq![n as int]));
        }
        n += 1;
    }
    Ok(groups)
}

fn copy_indices(v: &Vec<usize>) -> (r: Vec<usize>)
    ensures
        r@ == v@,
{
    let mut out: Vec<usize> = Vec::new();
    let mut i: usize = 0;
    while i < v.len()
        invariant
            i <= v@.len(),
            out@ == v@.take(i as int),
        decreases v.len() - i,
    {
        out.push(v[i]);
        assert(v@.take(i + 1) =~= v@.take(i as int).push(v@[i as int]));
        i += 1;
    }
    assert(v@.take(i as int) =~= v@);
    out
}

/// One exchange of a session that is stored for a benchmark.
#[derive(Debug, PartialEq, Eq)]
pub struct CanonicalTurn {
    pub id: String,
    pub occurred_at: String,
    pub status: TurnStatus,
    pub user_content: String,
    pub assistant_content: String,
}

/// A session that is stored for a benchmark.
#[derive(Debug, PartialEq, Eq)]
pub struct CanonicalSession {
    pub id: String,
    pub title: String,
    pub occurred_at: String,
    pub model: String,
    pub ollama_host: String,
    pub ai_name: String,
    pub context_window: u64,
    pub max_output_tokens: u64,
    pub safety_margin_tokens: u64,
    pub candidate_limit: usize,
    pub max_selected: usize,
    pub turns: Vec<CanonicalTurn>,
}

pub struct TurnModel {
    pub id: Seq<char>,
    pub occurred_at: Seq<char>,
    pub status: TurnStatus,
    pub user_content: Seq<char>,
    pub assistant_content: Seq<char>,
}

pub struct StoredModel {
    pub id: Seq<char>,
    pub title: Seq<char>,
    pub occurred_at: Seq<char>,
    pub model: Seq<char>,
    pub ollama_host: Seq<char>,
    pub ai_name: Seq<char>,
    pub context_window: u64,
    pub max_output_tokens: u64,
    pub safety_margin_tokens: u64,
    pub candidate_limit: usize,
    pub max_selected: usize,
    pub turns: Seq<TurnModel>,
}

pub open spec fn turn_model(t: CanonicalTurn) -> TurnModel {
    TurnModel {
        id: t.id@,
        occurred_at: t.occurred_at@,
        status: t.status,
        user_content: t.user_content@,
        assistant_content: t.assistant_content@,
    }
}

pub open spec fn turn_models(v: Seq<CanonicalTurn>) -> Seq<TurnModel> {
    Seq::new(v.len(), |i: int| turn_model(v[i]))
}

pub open spec fn stored_model(s: CanonicalSession) -> StoredModel {
    StoredModel {
        id: s.id@,
        title: s.title@,
        occurred_at: s.occurred_at@,
        model: s.model@,
        ollama_host: s.ollama_host@,
        ai_name: s.ai_name@,
        context_window: s.context_window,
        max_output_tokens: s.max_output_tokens,
        safety_margin_tokens: s.safety_margin_tokens,
        candidate_limit: s.candidate_limit,
        max_selected: s.max_selected,
        turns: turn_models(s.turns@),
    }
}

pub open spec fn stored_models(v: Seq<CanonicalSession>) -> Seq<StoredModel> {
    Seq::new(v.len(), |i: int| stored_model(v[i]))
}

/// What the sessions of a group are named after.
pub struct GroupName {
    pub benchmark: EvalBenchmark,
    pub dataset: Seq<char>,
    pub group: Seq<char>,
}

pub open spec fn session_identity(name: GroupName, external: Seq<char>, index: int) -> JsonTree {
    JsonTree::Object(
        seq![
            ("benchmark"@, JsonTree::Text(corpus::benchmark_text(name.benchmark))),
            ("dataset"@, JsonTree::Text(name.dataset)),
            ("external"@, JsonTree::Text(external)),
            ("group"@, JsonTree::Text(name.group)),
            ("index"@, json::number_tree(index as u64)),
        ],
    )
}

pub open spec fn stored_session_id(name: GroupName, external: Seq<char>, index: int) -> Seq<char> {
    "eval_"@ + dataset::canonical_text(
        "hippocampus-eval-session-v1"@,
        session_identity(name, external, index),
    )
}

pub open spec fn turn_identity(name: GroupName, external: Seq<char>, index: int) -> JsonTree {
    JsonTree::Object(
        seq![
            ("benchmark"@, JsonTree::Text(corpus::benchmark_text(name.benchmark))),
            ("dataset"@, JsonTree::Text(name.dataset)),
            ("group"@, JsonTree::Text(name.group)),
            ("index"@, json::number_tree(index as u64)),
            ("session"@, JsonTree::Text(external)),
        ],
    )
}

pub open spec fn stored_turn_id(name: GroupName, external: Seq<char>, index: int) -> Seq<char> {
    "turn_"@ + dataset::canonical_text(
        "hippocampus-eval-turn-v1"@,
        turn_identity(name, external, index),
    )
}

/// The names that a group gives its sessions.
#[derive(Debug)]
pub struct EvalGroup<'a> {
    pub benchmark: EvalBenchmark,
    pub dataset_sha256: &'a str,
    pub group_id: &'a str,
}

pub open spec fn group_name(g: EvalGroup) -> GroupName {
    GroupName { benchmark: g.benchmark, dataset: g.dataset_sha256@, group: g.group_id@ }
}

fn name_session(g: &EvalGroup, external: &str, index: usize) -> (r: String)
    ensures
        r@ == stored_session_id(group_name(*g), external@, index as int),
        digest::hash_id_shape(r@, "eval_"@),
{
    let object = JsonObject::new().with("benchmark", json_text(benchmark_name(g.benchmark))).with(
        "dataset",
        json_text(g.dataset_sha256),
    ).with("external", json_text(external)).with("group", json_text(g.group_id)).with(
        "index",
        json_number(index as u64),
    );
    assert(object.list() =~= session_identity(
        group_name(*g),
        external@,
        index as int,
    )->Object_0);
    hash_id("eval_", canonical_id("hippocampus-eval-session-v1", object.finish()).as_str())
}

fn name_turn(g: &EvalGroup, external: &str, index: usize) -> (r: String)
    ensures
        r@ == stored_turn_id(group_name(*g), external@, index as int),
        digest::hash_id_shape(r@, "turn_"@),
{
    let object = JsonObject::new().with("benchmark", json_text(benchmark_name(g.benchmark))).with(
        "dataset",
        json_text(g.dataset_sha256),
    ).with("group", json_text(g.group_id)).with("index", json_number(index as u64)).with(
        "session",
        json_text(external),
    );
    assert(object.list() =~= turn_identity(group_name(*g), external@, index as int)->Object_0);
    hash_id("turn_", canonical_id("hippocampus-eval-turn-v1", object.finish()).as_str())
}

/// The name of the directory of a group.
pub fn group_directory(g: &EvalGroup) -> (r: String)
    ensures
        r@ == dataset::canonical_text(
            "hippocampus-eval-group-v1"@,
            JsonTree::Object(
                seq![
                    ("benchmark"@, JsonTree::Text(corpus::benchmark_text(g.benchmark))),
                    ("dataset"@, JsonTree::Text(g.dataset_sha256@)),
                    ("group"@, JsonTree::Text(g.group_id@)),
                ],
            ),
        ),
        digest::sha256_shape(r@),
{
    let object = JsonObject::new().with("benchmark", json_text(benchmark_name(g.benchmark))).with(
        "dataset",
        json_text(g.dataset_sha256),
    ).with("group", json_text(g.group_id));
    assert(object.list() =~= seq![
        ("benchmark"@, JsonTree::Text(corpus::benchmark_text(g.benchmark))),
        ("dataset"@, JsonTree::Text(g.dataset_sha256@)),
        ("group"@, JsonTree::Text(g.group_id@)),
    ]);
    canonical_id("hippocampus-eval-group-v1", object.finish())
}

/// The id under which a question is searched for.
pub fn query_id(fingerprint: &str, question_id: &str) -> (r: String)
    ensures
        r@ == "eval_query_"@ + dataset::canonical_text(
            "hippocampus-eval-query-v1"@,
            JsonTree::Object(
                seq![
                    ("fingerprint"@, JsonTree::Text(fingerprint@)),
                    ("question"@, JsonTree::Text(question_id@)),
                ],
            ),
        ),
        digest::hash_id_shape(r@, "eval_query_"@),
{
    let object = JsonObject::new().with("fingerprint", json_text(fingerprint)).with(
        "question",
        json_text(question_id),
    );
    assert(object.list() =~= seq![
        ("fingerprint"@, JsonTree::Text(fingerprint@)),
        ("question"@, JsonTree::Text(question_id@)),
    ]);
    hash_id("eval_query_", canonical_id("hippocampus-eval-query-v1", object.finish()).as_str())
}

/// Whether a user message and the answer to it make up one turn.
pub open spec fn answered(v: Seq<MessageModel>, i: int) -> bool {
    v[i].role == EventRole::User && i + 1 < v.len() && v[i + 1].role == EventRole::Assistant
}

pub open spec fn turn_length(v: Seq<MessageModel>, i: int) -> int {
    if answered(v, i) {
        2
    } else {
        1
    }
}

/// The turn that begins with a message.
pub open spec fn turn_at(
    name: GroupName,
    external: Seq<char>,
    occurred_at: Seq<char>,
    v: Seq<MessageModel>,
    i: int,
) -> TurnModel {
    let empty = Seq::<char>::empty();
    TurnModel {
        id: stored_turn_id(name, external, i),
        occurred_at,
        status: if answered(v, i) || v[i].role != EventRole::User {
            TurnStatus::Complete
        } else {
            TurnStatus::NoAnswer
        },
        user_content: if v[i].role == EventRole::User {
            v[i].content
        } else {
            empty
        },
        assistant_content: if answered(v, i) {
            v[i + 1].content
        } else if v[i].role == EventRole::User {
            empty
        } else {
            v[i].content
        },
    }
}

/// The turns of a session from a message on.
pub open spec fn turns_from(
    name: GroupName,
    external: Seq<char>,
    occurred_at: Seq<char>,
    v: Seq<MessageModel>,
    i: int,
) -> Seq<TurnModel>
    decreases v.len() - i,
{
    if i < 0 || i >= v.len() {
        Seq::empty()
    } else {
        seq![turn_at(name, external, occurred_at, v, i)] + turns_from(
            name,
            external,
            occurred_at,
            v,
            i + turn_length(v, i),
        )
    }
}

/// A message and the event that it is stored as.
pub open spec fn event_at(
    session_id: Seq<char>,
    turn_id: Seq<char>,
    m: MessageModel,
) -> (Seq<char>, EvidenceModel) {
    (model::event_id_text(session_id, Some(turn_id), m.role), m.evidence)
}

/// The events of a session from a message on, each with where it comes from.
pub open spec fn events_from(
    name: GroupName,
    session_id: Seq<char>,
    external: Seq<char>,
    v: Seq<MessageModel>,
    i: int,
) -> Seq<(Seq<char>, EvidenceModel)>
    decreases v.len() - i,
{
    if i < 0 || i >= v.len() {
        Seq::empty()
    } else {
        let turn_id = stored_turn_id(name, external, i);
        let first = seq![event_at(session_id, turn_id, v[i])];
        let own = if answered(v, i) {
            first.push(event_at(session_id, turn_id, v[i + 1]))
        } else {
            first
        };
        own + events_from(name, session_id, external, v, i + turn_length(v, i))
    }
}

/// A text without the slashes at its end.
pub open spec fn without_slashes(s: Seq<char>) -> Seq<char>
    decreases s.len(),
{
    if s.len() > 0 && s.last() == '/' {
        without_slashes(s.drop_last())
    } else {
        s
    }
}

fn trim_slashes(s: &str) -> (r: String)
    ensures
        r@ == without_slashes(s@),
{
    let chars = chars_of(s);
    let mut end = chars.len();
    assert(s@.take(end as int) =~= s@);
    while end > 0 && chars[end - 1] == '/'
        invariant
            end <= chars@.len(),
            chars@ == s@,
            without_slashes(s@) == without_slashes(s@.take(end as int)),
        decreases end,
    {
        assert(s@.take(end as int).drop_last() =~= s@.take(end - 1));
        end -= 1;
    }
    let out = string_of(&chars, 0, end);
    assert(s@.subrange(0, end as int) =~= s@.take(end as int));
    out
}

/// How a session of a question is stored.
pub open spec fn stored_session(
    name: GroupName,
    s: SessionModel,
    index: int,
    options: EvalRunOptions,
    candidate_limit: usize,
) -> StoredModel {
    StoredModel {
        id: stored_session_id(name, s.external_id, index),
        title: s.external_id,
        occurred_at: s.occurred_at,
        model: options.answer_model@,
        ollama_host: without_slashes(options.ollama_host@),
        ai_name: "Hippocampus Eval"@,
        context_window: options.num_ctx,
        max_output_tokens: options.num_predict,
        safety_margin_tokens: 512,
        candidate_limit,
        max_selected: options.selected_evidence_limit,
        turns: turns_from(name, s.external_id, s.occurred_at, s.messages, 0),
    }
}

pub open spec fn stored_sessions(
    name: GroupName,
    v: Seq<SessionModel>,
    options: EvalRunOptions,
    candidate_limit: usize,
) -> Seq<StoredModel> {
    Seq::new(v.len(), |i: int| stored_session(name, v[i], i, options, candidate_limit))
}

/// The events of the first `n` sessions.
pub open spec fn all_events(name: GroupName, v: Seq<SessionModel>, n: int) -> Seq<
    (Seq<char>, EvidenceModel),
>
    decreases n,
{
    if n <= 0 {
        Seq::empty()
    } else {
        let s = v[n - 1];
        all_events(name, v, n - 1) + events_from(
            name,
            stored_session_id(name, s.external_id, n - 1),
            s.external_id,
            s.messages,
            0,
        )
    }
}

/// No event occurs twice.
pub open spec fn events_differ(v: Seq<(Seq<char>, EvidenceModel)>) -> bool {
    forall|i: int, j: int| 0 <= i < j < v.len() ==> (#[trigger] v[i]).0 != (#[trigger] v[j]).0
}

/// Stored events, each with where it comes from.
#[derive(Debug)]
pub struct EventMap {
    pub entries: Vec<(String, EvalEvidenceRef)>,
}

pub open spec fn entry_model(e: (String, EvalEvidenceRef)) -> (Seq<char>, EvidenceModel) {
    (e.0@, corpus::evidence_model(e.1))
}

pub open spec fn entry_models(v: Seq<(String, EvalEvidenceRef)>) -> Seq<(Seq<char>, EvidenceModel)> {
    Seq::new(v.len(), |i: int| entry_model(v[i]))
}

impl EventMap {
    pub open spec fn list(&self) -> Seq<(Seq<char>, EvidenceModel)> {
        entry_models(self.entries@)
    }
}

fn push_event(
    out: &mut Vec<(String, EvalEvidenceRef)>,
    session_id: &str,
    turn_id: &str,
    m: &EvalMessage,
)
    ensures
        entry_models(final(out)@) == entry_models(old(out)@).push(
            event_at(session_id@, turn_id@, corpus::message_model(*m)),
        ),
{
    let id = event_id(session_id, Some(turn_id), m.role);
    out.push((id, m.evidence.clone()));
    assert(entry_models(out@) =~= entry_models(old(out)@).push(
        event_at(session_id@, turn_id@, corpus::message_model(*m)),
    ));
}

fn build_turns(
    g: &EvalGroup,
    session_id: &str,
    s: &EvalSession,
    events: &mut Vec<(String, EvalEvidenceRef)>,
) -> (r: Vec<CanonicalTurn>)
    ensures
        turn_models(r@) == turns_from(
            group_name(*g),
            s.external_id@,
            s.occurred_at@,
            corpus::message_models(s.messages@),
            0,
        ),
        entry_models(final(events)@) == entry_models(old(events)@) + events_from(
            group_name(*g),
            session_id@,
            s.external_id@,
            corpus::message_models(s.messages@),
            0,
        ),
{
    let ghost name = group_name(*g);
    let ghost said = corpus::message_models(s.messages@);
    let ghost all_turns = turns_from(name, s.external_id@, s.occurred_at@, said, 0);
    let ghost all_events = events_from(name, session_id@, s.external_id@, said, 0);
    let ghost start = entry_models(events@);
    let mut out: Vec<CanonicalTurn> = Vec::new();
    let mut i: usize = 0;
    assert(turn_models(out@) =~= Seq::empty());
    assert(turn_models(out@) + all_turns =~= all_turns);
    assert(entry_models(events@) + all_events =~= start + all_events);
    while i < s.messages.len()
        invariant
            i <= s.messages@.len(),
            name == group_name(*g),
            said == corpus::message_models(s.messages@),
            turn_models(out@) + turns_from(
                name,
                s.external_id@,
                s.occurred_at@,
                said,
                i as int,
            ) == all_turns,
            entry_models(events@) + events_from(
                name,
                session_id@,
                s.external_id@,
                said,
                i as int,
            ) == start + all_events,
        decreases s.messages.len() - i,
    {
        let n = s.messages.len();
        let first = &s.messages[i];
        assert(said[i as int] == corpus::message_model(*first));
        let user = first.role == EventRole::User;
        let paired = user && n - i > 1 && s.messages[i + 1].role == EventRole::Assistant;
        proof {
            if i + 1 < n {
                assert(said[i + 1] == corpus::message_model(s.messages@[i + 1]));
            }
            assert(paired == answered(said, i as int));
        }
        let turn_id = name_turn(g, s.external_id.as_str(), i);
        let ghost before_turns = turn_models(out@);
        let ghost before_events = entry_models(events@);
        let ghost rest_turns = turns_from(
            name,
            s.external_id@,
            s.occurred_at@,
            said,
            i + turn_length(said, i as int),
        );
        let ghost rest_events = events_from(
            name,
            session_id@,
            s.external_id@,
            said,
            i + turn_length(said, i as int),
        );
        push_event(events, session_id, turn_id.as_str(), first);
        let mut user_content = String::new();
        let mut assistant_content = String::new();
        let mut status = TurnStatus::Complete;
        let mut consumed: usize = 1;
        if paired {
            push_event(events, session_id, turn_id.as_str(), &s.messages[i + 1]);
            user_content = first.content.clone();
            assistant_content = s.messages[i + 1].content.clone();
            consumed = 2;
        } else if user {
            user_content = first.content.clone();
            status = TurnStatus::NoAnswer;
        } else {
            assistant_content = first.content.clone();
        }
        let turn = CanonicalTurn {
            id: turn_id,
            occurred_at: s.occurred_at.clone(),
            status,
            user_content,
            assistant_content,
        };
        out.push(turn);
        proof {
            let model = turn_at(name, s.external_id@, s.occurred_at@, said, i as int);
            assert(turn_model(turn).user_content =~= model.user_content);
            assert(turn_model(turn).assistant_content =~= model.assistant_content);
            assert(turn_model(turn) == model);
            assert(turn_models(out@) =~= before_turns.push(model));
            assert(before_turns.push(model) + rest_turns =~= before_turns + (seq![model]
                + rest_turns));
            let now = entry_models(events@);
            let one = event_at(session_id@, turn_id@, said[i as int]);
            if paired {
                let two = event_at(session_id@, turn_id@, said[i + 1]);
                assert(now == before_events.push(one).push(two));
                assert(now + rest_events =~= before_events + (seq![one].push(two) + rest_events));
            } else {
                assert(now == before_events.push(one));
                assert(now + rest_events =~= before_events + (seq![one] + rest_events));
            }
        }
        i += consumed;
    }
    proof {
        assert(turn_models(out@) + Seq::<TurnModel>::empty() =~= turn_models(out@));
        assert(entry_models(events@) + Seq::<(Seq<char>, EvidenceModel)>::empty()
            =~= entry_models(events@));
    }
    out
}

fn has_repeated_event(v: &Vec<(String, EvalEvidenceRef)>) -> (r: bool)
    ensures
        r == !events_differ(entry_models(v@)),
{
    let ghost all = entry_models(v@);
    let mut seen: StringHashMap<usize> = StringHashMap::new();
    let mut i: usize = 0;
    while i < v.len()
        invariant
            i <= v@.len(),
            all == entry_models(v@),
            forall|k: int| 0 <= k < i ==> seen@.contains_key((#[trigger] all[k]).0),
            forall|s: Seq<char>| #[trigger]
                seen@.contains_key(s) ==> seen@[s] < i && all[seen@[s] as int].0 == s,
            forall|a: int, b: int|
                0 <= a < b < i ==> (#[trigger] all[a]).0 != (#[trigger] all[b]).0,
        decreases v.len() - i,
    {
        assert(all[i as int].0 == v@[i as int].0@);
        if seen.contains_key(v[i].0.as_str()) {
            proof {
                let k = seen@[v@[i as int].0@];
                assert(all[k as int].0 == all[i as int].0);
            }
            return true;
        }
        seen.insert(v[i].0.clone(), i);
        i += 1;
    }
    false
}

/// Makes the sessions that are stored for a group, and the events that they
/// consist of.
pub fn canonical_sessions(
    g: &EvalGroup,
    sessions: &Vec<EvalSession>,
    options: &EvalRunOptions,
    candidate_limit: usize,
) -> (r: Result<(Vec<CanonicalSession>, EventMap), String>)
    ensures
        ({
            let name = group_name(*g);
            let models = corpus::session_models(sessions@);
            let events = all_events(name, models, models.len() as int);
            match r {
                Ok((stored, map)) => events_differ(events) && map.list() == events
                    && stored_models(stored@) == stored_sessions(
                    name,
                    models,
                    *options,
                    candidate_limit,
                ),
                Err(e) => !events_differ(events) && e@ == "duplicate evaluation event mapping"@,
            }
        }),
{
    let ghost name = group_name(*g);
    let ghost models = corpus::session_models(sessions@);
    let ghost want = stored_sessions(name, models, *options, candidate_limit);
    let host = trim_slashes(options.ollama_host.as_str());
    let mut out: Vec<CanonicalSession> = Vec::new();
    let mut events: Vec<(String, EvalEvidenceRef)> = Vec::new();
    let mut i: usize = 0;
    assert(entry_models(events@) =~= Seq::empty());
    while i < sessions.len()
        invariant
            i <= sessions@.len(),
            name == group_name(*g),
            models == corpus::session_models(sessions@),
            want == stored_sessions(name, models, *options, candidate_limit),
            host@ == without_slashes(options.ollama_host@),
            out@.len() == i,
            forall|k: int| 0 <= k < i ==> stored_model(#[trigger] out@[k]) == want[k],
            entry_models(events@) == all_events(name, models, i as int),
        decreases sessions.len() - i,
    {
        let s = &sessions[i];
        assert(models[i as int] == corpus::session_model(*s));
        let id = name_session(g, s.external_id.as_str(), i);
        let turns = build_turns(g, id.as_str(), s, &mut events);
        let session = CanonicalSession {
            id,
            title: s.external_id.clone(),
            occurred_at: s.occurred_at.clone(),
            model: options.answer_model.clone(),
            ollama_host: host.clone(),
            ai_name: "Hippocampus Eval".to_owned(),
            context_window: options.num_ctx,
            max_output_tokens: options.num_predict,
            safety_margin_tokens: 512,
            candidate_limit,
            max_selected: options.selected_evidence_limit,
            turns,
        };
        out.push(session);
        assert(stored_model(session) == want[i as int]);
        i += 1;
    }
    assert(stored_models(out@) =~= want);
    if has_repeated_event(&events) {
        return Err("duplicate evaluation event mapping".to_owned());
    }
    Ok((out, EventMap { entries: events }))
}

proof fn messages_become_events(
    name: GroupName,
    session_id: Seq<char>,
    external: Seq<char>,
    v: Seq<MessageModel>,
    i: int,
)
    requires
        0 <= i <= v.len(),
    ensures
        ({
            let events = events_from(name, session_id, external, v, i);
            &&& events.len() == v.len() - i
            &&& forall|k: int|
                0 <= k < events.len() ==> (#[trigger] events[k]).1 == v[i + k].evidence
        }),
    decreases v.len() - i,
{
    if i < v.len() {
        let n = turn_length(v, i);
        messages_become_events(name, session_id, external, v, i + n);
        let rest = events_from(name, session_id, external, v, i + n);
        let events = events_from(name, session_id, external, v, i);
        assert forall|k: int| 0 <= k < events.len() implies (#[trigger] events[k]).1 == v[i
            + k].evidence by {
            if k >= n {
                assert(events[k] == rest[k - n]);
            }
        }
    }
}

/// Every message of a session is stored as one event, in order, with where it
/// comes from.
pub proof fn every_message_becomes_one_event(
    name: GroupName,
    session_id: Seq<char>,
    external: Seq<char>,
    v: Seq<MessageModel>,
)
    ensures
        ({
            let events = events_from(name, session_id, external, v, 0);
            &&& events.len() == v.len()
            &&& forall|k: int| 0 <= k < v.len() ==> (#[trigger] events[k]).1 == v[k].evidence
        }),
{
    messages_become_events(name, session_id, external, v, 0);
}

/// The texts of a turn, those that are there.
pub open spec fn texts_of_turn(t: TurnModel) -> Seq<char> {
    t.user_content + t.assistant_content
}

/// What a session says, turn by turn.
pub open spec fn said_in(v: Seq<TurnModel>) -> Seq<char>
    decreases v.len(),
{
    if v.len() == 0 {
        Seq::empty()
    } else {
        texts_of_turn(v[0]) + said_in(v.drop_first())
    }
}

/// What the messages say from one on.
pub open spec fn said_by(v: Seq<MessageModel>, i: int) -> Seq<char>
    decreases v.len() - i,
{
    if i < 0 || i >= v.len() {
        Seq::empty()
    } else {
        v[i].content + said_by(v, i + 1)
    }
}

/// No word is lost or made up when messages are put into turns, and a question
/// and the answer right after it make up one complete turn.
pub proof fn turns_say_what_the_messages_say(
    name: GroupName,
    external: Seq<char>,
    occurred_at: Seq<char>,
    v: Seq<MessageModel>,
    i: int,
)
    requires
        0 <= i <= v.len(),
    ensures
        said_in(turns_from(name, external, occurred_at, v, i)) == said_by(v, i),
        i < v.len() ==> {
            let t = turns_from(name, external, occurred_at, v, i)[0];
            let paired = v[i].role == EventRole::User && i + 1 < v.len() && v[i + 1].role
                == EventRole::Assistant;
            &&& paired ==> t.user_content == v[i].content && t.assistant_content == v[i
                + 1].content && t.status == TurnStatus::Complete
            &&& !paired && v[i].role == EventRole::User ==> t.user_content == v[i].content
                && t.assistant_content.len() == 0 && t.status == TurnStatus::NoAnswer
            &&& v[i].role != EventRole::User ==> t.user_content.len() == 0 && t.assistant_content
                == v[i].content && t.status == TurnStatus::Complete
        },
    decreases v.len() - i,
{
    if i < v.len() {
        let n = turn_length(v, i);
        turns_say_what_the_messages_say(name, external, occurred_at, v, i + n);
        let turns = turns_from(name, external, occurred_at, v, i);
        let rest = turns_from(name, external, occurred_at, v, i + n);
        let t = turn_at(name, external, occurred_at, v, i);
        assert(turns.drop_first() =~= rest);
        assert(turns[0] == t);
        if n == 2 {
            assert(said_by(v, i + 1) == v[i + 1].content + said_by(v, i + 2));
            assert(said_by(v, i) == v[i].content + said_by(v, i + 1));
            assert(texts_of_turn(t) + said_by(v, i + 2) =~= v[i].content + (v[i + 1].content
                + said_by(v, i + 2)));
        } else {
            assert(texts_of_turn(t) =~= v[i].content);
        }
    }
}

} // verus!
