//! Benchmark questions, and how those of LongMemEval are read.

use vstd::prelude::*;
use vstd::string::*;

use crate::json::{self, json_text, json_texts, same_json, Json, JsonObject, JsonTree};
use crate::model::EventRole;
use crate::moment::{self, time};
use crate::score::EvalQuestionClass;
use crate::text::{
    self, contains_text, debug_text, ends_with, is_blank, push_decimal,
    sorted_set, text_eq,
};

verus! {

pub const EVAL_SCHEMA_VERSION: u32 = 1;

#[derive(Clone, Copy, Debug, PartialEq, Eq, Structural)]
pub enum EvalBenchmark {
    Synthetic,
    Locomo,
    LongMemEval,
}

pub open spec fn benchmark_text(b: EvalBenchmark) -> Seq<char> {
    match b {
        EvalBenchmark::Synthetic => "synthetic"@,
        EvalBenchmark::Locomo => "locomo"@,
        EvalBenchmark::LongMemEval => "long_mem_eval"@,
    }
}

pub fn benchmark_name(b: EvalBenchmark) -> (r: &'static str)
    ensures
        r@ == benchmark_text(b),
{
    match b {
        EvalBenchmark::Synthetic => "synthetic",
        EvalBenchmark::Locomo => "locomo",
        EvalBenchmark::LongMemEval => "long_mem_eval",
    }
}

/// Where a message comes from in its dataset.
#[derive(Debug, PartialEq, Eq)]
pub struct EvalEvidenceRef {
    pub external_id: String,
    pub source_session_id: String,
    pub has_answer: Option<bool>,
}

impl Clone for EvalEvidenceRef {
    fn clone(&self) -> (r: Self)
        ensures
            r == *self,
    {
        EvalEvidenceRef {
            external_id: self.external_id.clone(),
            source_session_id: self.source_session_id.clone(),
            has_answer: self.has_answer,
        }
    }
}

#[derive(Debug, PartialEq, Eq)]
pub struct EvalMessage {
    pub role: EventRole,
    pub speaker: String,
    pub content: String,
    pub evidence: EvalEvidenceRef,
}

impl Clone for EvalMessage {
    fn clone(&self) -> (r: Self)
        ensures
            r == *self,
    {
        EvalMessage {
            role: self.role,
            speaker: self.speaker.clone(),
            content: self.content.clone(),
            evidence: self.evidence.clone(),
        }
    }
}

#[derive(Clone, Debug, PartialEq, Eq)]
pub struct EvalSession {
    pub external_id: String,
    pub occurred_at: String,
    pub messages: Vec<EvalMessage>,
}

/// A benchmark question, with the sessions that it is about.
#[derive(Clone, Debug)]
pub struct EvalCase {
    pub id: String,
    pub group_id: String,
    pub question: String,
    pub expected_answer: Option<String>,
    pub class: EvalQuestionClass,
    pub reference_time: String,
    pub sessions: Vec<EvalSession>,
    pub gold_evidence: Vec<String>,
    pub unresolved_gold_evidence: Vec<Json>,
    pub stale_evidence: Vec<String>,
    pub negative_evidence: Vec<String>,
    pub source_metadata: Json,
}

#[derive(Clone, Debug)]
pub struct EvalCorpus {
    pub benchmark: EvalBenchmark,
    pub dataset_sha256: String,
    pub cases: Vec<EvalCase>,
}

pub struct EvidenceModel {
    pub external_id: Seq<char>,
    pub source_session_id: Seq<char>,
    pub has_answer: Option<bool>,
}

pub struct MessageModel {
    pub role: EventRole,
    pub speaker: Seq<char>,
    pub content: Seq<char>,
    pub evidence: EvidenceModel,
}

pub struct SessionModel {
    pub external_id: Seq<char>,
    pub occurred_at: Seq<char>,
    pub messages: Seq<MessageModel>,
}

pub struct CaseModel {
    pub id: Seq<char>,
    pub group_id: Seq<char>,
    pub question: Seq<char>,
    pub expected_answer: Option<Seq<char>>,
    pub class: EvalQuestionClass,
    pub reference_time: Seq<char>,
    pub sessions: Seq<SessionModel>,
    pub gold: Seq<Seq<char>>,
    pub unresolved: Seq<JsonTree>,
    pub stale: Seq<Seq<char>>,
    pub negative: Seq<Seq<char>>,
    pub metadata: JsonTree,
}

pub open spec fn evidence_model(e: EvalEvidenceRef) -> EvidenceModel {
    EvidenceModel {
        external_id: e.external_id@,
        source_session_id: e.source_session_id@,
        has_answer: e.has_answer,
    }
}

pub open spec fn message_model(m: EvalMessage) -> MessageModel {
    MessageModel {
        role: m.role,
        speaker: m.speaker@,
        content: m.content@,
        evidence: evidence_model(m.evidence),
    }
}

pub open spec fn message_models(v: Seq<EvalMessage>) -> Seq<MessageModel> {
    Seq::new(v.len(), |i: int| message_model(v[i]))
}

pub open spec fn session_model(s: EvalSession) -> SessionModel {
    SessionModel {
        external_id: s.external_id@,
        occurred_at: s.occurred_at@,
        messages: message_models(s.messages@),
    }
}

pub open spec fn session_models(v: Seq<EvalSession>) -> Seq<SessionModel> {
    Seq::new(v.len(), |i: int| session_model(v[i]))
}

pub open spec fn case_model(c: EvalCase) -> CaseModel {
    CaseModel {
        id: c.id@,
        group_id: c.group_id@,
        question: c.question@,
        expected_answer: text::opt_text(c.expected_answer),
        class: c.class,
        reference_time: c.reference_time@,
        sessions: session_models(c.sessions@),
        gold: text::texts(c.gold_evidence@),
        unresolved: json::trees(
            c.unresolved_gold_evidence@,
            c.unresolved_gold_evidence@.len() as int,
        ),
        stale: text::texts(c.stale_evidence@),
        negative: text::texts(c.negative_evidence@),
        metadata: json::tree(c.source_metadata),
    }
}

pub open spec fn case_models(v: Seq<EvalCase>) -> Seq<CaseModel> {
    Seq::new(v.len(), |i: int| case_model(v[i]))
}

/// A copy of a session.
pub fn copy_session(s: &EvalSession) -> (r: EvalSession)
    ensures
        session_model(r) == session_model(*s),
{
    let messages = crate::model::copy_list(&s.messages);
    EvalSession {
        external_id: s.external_id.clone(),
        occurred_at: s.occurred_at.clone(),
        messages,
    }
}

pub fn copy_sessions(v: &Vec<EvalSession>) -> (r: Vec<EvalSession>)
    ensures
        session_models(r@) == session_models(v@),
{
    let mut out: Vec<EvalSession> = Vec::new();
    let mut i: usize = 0;
    while i < v.len()
        invariant
            i <= v@.len(),
            out@.len() == i,
            forall|k: int| 0 <= k < i ==> session_model(#[trigger] out@[k]) == session_model(v@[k]),
        decreases v.len() - i,
    {
        out.push(copy_session(&v[i]));
        i += 1;
    }
    assert(session_models(out@) =~= session_models(v@));
    out
}

fn same_message(a: &EvalMessage, b: &EvalMessage) -> (r: bool)
    ensures
        r == (message_model(*a) == message_model(*b)),
{
    let same_answer = match (a.evidence.has_answer, b.evidence.has_answer) {
        (Some(x), Some(y)) => x == y,
        (None, None) => true,
        _ => false,
    };
    a.role == b.role && same_answer && text_eq(a.speaker.as_str(), b.speaker.as_str()) && text_eq(
        a.content.as_str(),
        b.content.as_str(),
    ) && text_eq(a.evidence.external_id.as_str(), b.evidence.external_id.as_str()) && text_eq(
        a.evidence.source_session_id.as_str(),
        b.evidence.source_session_id.as_str(),
    )
}

fn same_session(a: &EvalSession, b: &EvalSession) -> (r: bool)
    ensures
        r == (session_model(*a) == session_model(*b)),
{
    let ghost left = message_models(a.messages@);
    let ghost right = message_models(b.messages@);
    if a.messages.len() != b.messages.len() {
        assert(left.len() != right.len());
        return false;
    }
    if !text_eq(a.external_id.as_str(), b.external_id.as_str()) || !text_eq(
        a.occurred_at.as_str(),
        b.occurred_at.as_str(),
    ) {
        return false;
    }
    let mut i: usize = 0;
    while i < a.messages.len()
        invariant
            i <= a.messages@.len(),
            a.messages@.len() == b.messages@.len(),
            left == message_models(a.messages@),
            right == message_models(b.messages@),
            forall|k: int| 0 <= k < i ==> #[trigger] left[k] == right[k],
        decreases a.messages.len() - i,
    {
        if !same_message(&a.messages[i], &b.messages[i]) {
            assert(left[i as int] != right[i as int]);
            return false;
        }
        assert(left[i as int] == right[i as int]);
        i += 1;
    }
    assert(left =~= right);
    true
}

/// Whether two lists of sessions are the same.
pub fn same_sessions(a: &Vec<EvalSession>, b: &Vec<EvalSession>) -> (r: bool)
    ensures
        r == (session_models(a@) == session_models(b@)),
{
    let ghost left = session_models(a@);
    let ghost right = session_models(b@);
    if a.len() != b.len() {
        assert(left.len() != right.len());
        return false;
    }
    let mut i: usize = 0;
    while i < a.len()
        invariant
            i <= a@.len(),
            a@.len() == b@.len(),
            left == session_models(a@),
            right == session_models(b@),
            forall|k: int| 0 <= k < i ==> #[trigger] left[k] == right[k],
        decreases a.len() - i,
    {
        if !same_session(&a[i], &b[i]) {
            assert(left[i as int] != right[i as int]);
            return false;
        }
        assert(left[i as int] == right[i as int]);
        i += 1;
    }
    assert(left =~= right);
    true
}

fn same_texts(a: &Vec<String>, b: &Vec<String>) -> (r: bool)
    ensures
        r == (text::texts(a@) == text::texts(b@)),
{
    let ghost left = text::texts(a@);
    let ghost right = text::texts(b@);
    if a.len() != b.len() {
        assert(left.len() != right.len());
        return false;
    }
    let mut i: usize = 0;
    while i < a.len()
        invariant
            i <= a@.len(),
            a@.len() == b@.len(),
            left == text::texts(a@),
            right == text::texts(b@),
            forall|k: int| 0 <= k < i ==> #[trigger] left[k] == right[k],
        decreases a.len() - i,
    {
        if !text_eq(a[i].as_str(), b[i].as_str()) {
            assert(left[i as int] != right[i as int]);
            return false;
        }
        assert(left[i as int] == right[i as int]);
        i += 1;
    }
    assert(left =~= right);
    true
}

fn same_trees(a: &Vec<Json>, b: &Vec<Json>) -> (r: bool)
    ensures
        r == (json::trees(a@, a@.len() as int) == json::trees(b@, b@.len() as int)),
{
    let ghost left = json::trees(a@, a@.len() as int);
    let ghost right = json::trees(b@, b@.len() as int);
    proof {
        json::trees_index(a@, a@.len() as int);
        json::trees_index(b@, b@.len() as int);
    }
    if a.len() != b.len() {
        return false;
    }
    let mut i: usize = 0;
    while i < a.len()
        invariant
            i <= a@.len(),
            a@.len() == b@.len(),
            left.len() == a@.len(),
            right.len() == b@.len(),
            forall|k: int| 0 <= k < left.len() ==> #[trigger] left[k] == json::tree(a@[k]),
            forall|k: int| 0 <= k < right.len() ==> #[trigger] right[k] == json::tree(b@[k]),
            forall|k: int| 0 <= k < i ==> #[trigger] left[k] == right[k],
            left == json::trees(a@, a@.len() as int),
            right == json::trees(b@, b@.len() as int),
        decreases a.len() - i,
    {
        if !same_json(&a[i], &b[i]) {
            assert(left[i as int] != right[i as int]);
            return false;
        }
        assert(left[i as int] == right[i as int]);
        i += 1;
    }
    assert(left =~= right);
    true
}

/// Whether two questions are the same.
pub fn same_case(a: &EvalCase, b: &EvalCase) -> (r: bool)
    ensures
        r == (case_model(*a) == case_model(*b)),
{
    let answers = match (&a.expected_answer, &b.expected_answer) {
        (Some(x), Some(y)) => text_eq(x.as_str(), y.as_str()),
        (None, None) => true,
        _ => false,
    };
    answers && a.class == b.class && text_eq(a.id.as_str(), b.id.as_str()) && text_eq(
        a.group_id.as_str(),
        b.group_id.as_str(),
    ) && text_eq(a.question.as_str(), b.question.as_str()) && text_eq(
        a.reference_time.as_str(),
        b.reference_time.as_str(),
    ) && same_sessions(&a.sessions, &b.sessions) && same_texts(
        &a.gold_evidence,
        &b.gold_evidence,
    ) && same_trees(&a.unresolved_gold_evidence, &b.unresolved_gold_evidence) && same_texts(
        &a.stale_evidence,
        &b.stale_evidence,
    ) && same_texts(&a.negative_evidence, &b.negative_evidence) && same_json(
        &a.source_metadata,
        &b.source_metadata,
    )
}

/// A text or a number as a text.
pub open spec fn scalar_text(t: JsonTree) -> Option<Seq<char>> {
    match t {
        JsonTree::Text(s) => Some(s),
        JsonTree::Number { unsigned, text } => Some(text),
        _ => None,
    }
}

pub open spec fn not_scalar(label: Seq<char>) -> Seq<char> {
    label + " must be scalar"@
}

/// Takes a text or a number as a text.
pub fn scalar(v: &Json, label: &str) -> (r: Result<String, String>)
    ensures
        match r {
            Ok(s) => scalar_text(json::tree(*v)) == Some(s@),
            Err(e) => scalar_text(json::tree(*v)) is None && e@ == not_scalar(label@),
        },
{
    match v {
        Json::Text(s) => Ok(s.clone()),
        Json::Number(n) => Ok(n.text.clone()),
        _ => {
            let mut e = label.to_owned();
            e.append(" must be scalar");
            Err(e)
        },
    }
}

/// A row of LongMemEval.
#[derive(Debug)]
pub struct LongMemRow {
    pub question_id: String,
    pub question_type: String,
    pub question: String,
    pub answer: Json,
    pub question_date: String,
    pub haystack_dates: Vec<String>,
    pub haystack_session_ids: Vec<String>,
    pub haystack_sessions: Vec<Vec<LongMemMessage>>,
    pub answer_session_ids: Vec<String>,
}

#[derive(Debug, PartialEq, Eq)]
pub struct LongMemMessage {
    pub role: String,
    pub content: String,
    pub has_answer: Option<bool>,
}

pub const LONG_MEM_DATE: &'static str = "%Y/%m/%d (%a) %H:%M";

pub open spec fn known_question_type(s: Seq<char>) -> bool {
    ||| s == "temporal-reasoning"@
    ||| s == "multi-session"@
    ||| s == "knowledge-update"@
    ||| s == "single-session-user"@
    ||| s == "single-session-assistant"@
    ||| s == "single-session-preference"@
}

fn knows_question_type(s: &str) -> (r: bool)
    ensures
        r == known_question_type(s@),
{
    text_eq(s, "temporal-reasoning") || text_eq(s, "multi-session") || text_eq(
        s,
        "knowledge-update",
    ) || text_eq(s, "single-session-user") || text_eq(s, "single-session-assistant") || text_eq(
        s,
        "single-session-preference",
    )
}

/// What is wrong with a row before its sessions are looked at.
pub open spec fn long_mem_head_fault(rows: Seq<LongMemRow>, i: int) -> Option<Seq<char>> {
    let x = rows[i];
    if x.question_id@.len() == 0 || exists|k: int|
        0 <= k < i && (#[trigger] rows[k]).question_id@ == x.question_id@ {
        Some("question IDs must be unique/nonempty"@)
    } else if x.haystack_dates@.len() != x.haystack_session_ids@.len() || x.haystack_dates@.len()
        != x.haystack_sessions@.len() {
        Some("parallel haystack lengths differ"@)
    } else if text::blank(x.question@) {
        Some("LongMemEval question must be nonempty"@)
    } else if !known_question_type(x.question_type@) {
        Some("unknown LongMemEval question_type "@ + text::debug_quoted(x.question_type@))
    } else if text::blank(x.question_date@) {
        Some("question_date must be nonempty"@)
    } else {
        None
    }
}

/// The id of a message: its session and its place.
pub open spec fn long_mem_message_id(sid: Seq<char>, i: int) -> Seq<char> {
    sid + ":"@ + text::decimal(i as nat)
}

pub open spec fn long_mem_role(s: Seq<char>) -> Option<EventRole> {
    if s == "user"@ {
        Some(EventRole::User)
    } else if s == "assistant"@ {
        Some(EventRole::Assistant)
    } else {
        None
    }
}

/// The first `n` messages of a session, or what is wrong with one.
pub open spec fn long_mem_messages(sid: Seq<char>, v: Seq<LongMemMessage>, n: int) -> Result<
    Seq<MessageModel>,
    Seq<char>,
>
    decreases n,
{
    if n <= 0 {
        Ok(Seq::empty())
    } else {
        match long_mem_messages(sid, v, n - 1) {
            Err(e) => Err(e),
            Ok(rest) => {
                let m = v[n - 1];
                if text::blank(m.content@) {
                    Err("message content must be nonempty"@)
                } else {
                    match long_mem_role(m.role@) {
                        None => Err("invalid LongMemEval role"@),
                        Some(role) => Ok(
                            rest.push(
                                MessageModel {
                                    role,
                                    speaker: m.role@,
                                    content: m.content@,
                                    evidence: EvidenceModel {
                                        external_id: long_mem_message_id(sid, n - 1),
                                        source_session_id: sid,
                                        has_answer: m.has_answer,
                                    },
                                },
                            ),
                        ),
                    }
                }
            },
        }
    }
}

proof fn long_mem_messages_stop(sid: Seq<char>, v: Seq<LongMemMessage>, k: int, n: int)
    requires
        k <= n,
        long_mem_messages(sid, v, k) is Err,
    ensures
        long_mem_messages(sid, v, n) == long_mem_messages(sid, v, k),
    decreases n - k,
{
    if k < n {
        long_mem_messages_stop(sid, v, k, n - 1);
    }
}

/// What is wrong with a session of a row before its messages are looked at.
pub open spec fn long_mem_session_fault(x: LongMemRow, i: int) -> Option<Seq<char>> {
    if x.haystack_session_ids@[i]@.len() == 0 || exists|k: int|
        0 <= k < i && (#[trigger] x.haystack_session_ids@[k])@ == x.haystack_session_ids@[i]@ {
        Some("session IDs must be unique/nonempty"@)
    } else if text::blank(x.haystack_dates@[i]@) {
        Some("session date must be nonempty"@)
    } else if x.haystack_sessions@[i]@.len() == 0 {
        Some("LongMemEval session must be nonempty"@)
    } else {
        None
    }
}

/// A session of a row whose time has been read.
pub open spec fn long_mem_session(
    x: LongMemRow,
    i: int,
    occurred: Result<Seq<char>, Seq<char>>,
) -> Result<SessionModel, Seq<char>> {
    let sid = x.haystack_session_ids@[i]@;
    let messages = x.haystack_sessions@[i]@;
    match long_mem_session_fault(x, i) {
        Some(e) => Err(e),
        None => match (long_mem_messages(sid, messages, messages.len() as int), occurred) {
            (Err(e), _) => Err(e),
            (_, Err(e)) => Err(e),
            (Ok(models), Ok(occurred_at)) => Ok(
                SessionModel { external_id: sid, occurred_at, messages: models },
            ),
        },
    }
}

fn build_messages(sid: &str, v: &Vec<LongMemMessage>) -> (r: Result<Vec<EvalMessage>, String>)
    ensures
        match r {
            Ok(out) => long_mem_messages(sid@, v@, v@.len() as int) == Ok::<
                Seq<MessageModel>,
                Seq<char>,
            >(message_models(out@)),
            Err(e) => long_mem_messages(sid@, v@, v@.len() as int) == Err::<
                Seq<MessageModel>,
                Seq<char>,
            >(e@),
        },
{
    let mut out: Vec<EvalMessage> = Vec::new();
    let mut i: usize = 0;
    assert(message_models(out@) =~= Seq::empty());
    while i < v.len()
        invariant
            i <= v@.len(),
            long_mem_messages(sid@, v@, i as int) == Ok::<Seq<MessageModel>, Seq<char>>(
                message_models(out@),
            ),
        decreases v.len() - i,
    {
        let m = &v[i];
        if is_blank(m.content.as_str()) {
            proof {
                long_mem_messages_stop(sid@, v@, i + 1, v@.len() as int);
            }
            return Err("message content must be nonempty".to_owned());
        }
        let role = if text_eq(m.role.as_str(), "user") {
            EventRole::User
        } else if text_eq(m.role.as_str(), "assistant") {
            EventRole::Assistant
        } else {
            proof {
                long_mem_messages_stop(sid@, v@, i + 1, v@.len() as int);
            }
            return Err("invalid LongMemEval role".to_owned());
        };
        let mut external_id = sid.to_owned();
        external_id.append(":");
        push_decimal(&mut external_id, i as u64);
        let ghost before = message_models(out@);
        let message = EvalMessage {
            role,
            speaker: m.role.clone(),
            content: m.content.clone(),
            evidence: EvalEvidenceRef {
                external_id,
                source_session_id: sid.to_owned(),
                has_answer: m.has_answer,
            },
        };
        out.push(message);
        assert(message_models(out@) =~= before.push(message_model(message)));
        i += 1;
    }
    Ok(out)
}

/// Whether a text stands among the first `n`.
fn among_first(v: &Vec<String>, s: &str, n: usize) -> (r: bool)
    requires
        n <= v@.len(),
    ensures
        r == exists|k: int| 0 <= k < n && (#[trigger] v@[k])@ == s@,
{
    let mut i: usize = 0;
    while i < n
        invariant
            i <= n <= v@.len(),
            forall|k: int| 0 <= k < i ==> (#[trigger] v@[k])@ != s@,
        decreases n - i,
    {
        if text_eq(v[i].as_str(), s) {
            return true;
        }
        i += 1;
    }
    false
}

/// Makes a session of a row, once its time has been read.
pub fn build_long_mem_session(x: &LongMemRow, i: usize, occurred: Result<String, String>) -> (r:
    Result<EvalSession, String>)
    requires
        i < x.haystack_session_ids@.len(),
        x.haystack_dates@.len() == x.haystack_session_ids@.len(),
        x.haystack_dates@.len() == x.haystack_sessions@.len(),
    ensures
        forall|want: Result<Seq<char>, Seq<char>>| #[trigger]
            moment::moment_is(occurred, want) ==> match r {
                Ok(s) => long_mem_session(*x, i as int, want) == Ok::<SessionModel, Seq<char>>(
                    session_model(s),
                ),
                Err(e) => long_mem_session(*x, i as int, want) == Err::<SessionModel, Seq<char>>(
                    e@,
                ),
            },
{
    let sid = x.haystack_session_ids[i].as_str();
    if sid.unicode_len() == 0 || among_first(&x.haystack_session_ids, sid, i) {
        return Err("session IDs must be unique/nonempty".to_owned());
    }
    if is_blank(x.haystack_dates[i].as_str()) {
        return Err("session date must be nonempty".to_owned());
    }
    if x.haystack_sessions[i].len() == 0 {
        return Err("LongMemEval session must be nonempty".to_owned());
    }
    let messages = match build_messages(sid, &x.haystack_sessions[i]) {
        Ok(messages) => messages,
        Err(e) => return Err(e),
    };
    match occurred {
        Ok(occurred_at) => Ok(
            EvalSession { external_id: sid.to_owned(), occurred_at, messages },
        ),
        Err(e) => Err(e),
    }
}

/// The first `n` sessions of a row, or what is wrong with one.
pub open spec fn long_mem_sessions(x: LongMemRow, n: int) -> Result<Seq<SessionModel>, Seq<char>>
    decreases n,
{
    if n <= 0 {
        Ok(Seq::empty())
    } else {
        match long_mem_sessions(x, n - 1) {
            Err(e) => Err(e),
            Ok(v) => match long_mem_session(
                x,
                n - 1,
                moment::read_moment(x.haystack_dates@[n - 1]@, LONG_MEM_DATE@),
            ) {
                Err(e) => Err(e),
                Ok(s) => Ok(v.push(s)),
            },
        }
    }
}

proof fn long_mem_sessions_stop(x: LongMemRow, k: int, n: int)
    requires
        k <= n,
        long_mem_sessions(x, k) is Err,
    ensures
        long_mem_sessions(x, n) == long_mem_sessions(x, k),
    decreases n - k,
{
    if k < n {
        long_mem_sessions_stop(x, k, n - 1);
    }
}

fn build_sessions(x: &LongMemRow) -> (r: Result<Vec<EvalSession>, String>)
    requires
        x.haystack_dates@.len() == x.haystack_session_ids@.len(),
        x.haystack_dates@.len() == x.haystack_sessions@.len(),
    ensures
        match r {
            Ok(v) => long_mem_sessions(*x, x.haystack_dates@.len() as int) == Ok::<
                Seq<SessionModel>,
                Seq<char>,
            >(session_models(v@)),
            Err(e) => long_mem_sessions(*x, x.haystack_dates@.len() as int) == Err::<
                Seq<SessionModel>,
                Seq<char>,
            >(e@),
        },
{
    let mut out: Vec<EvalSession> = Vec::new();
    let mut i: usize = 0;
    assert(session_models(out@) =~= Seq::empty());
    while i < x.haystack_dates.len()
        invariant
            i <= x.haystack_dates@.len(),
            x.haystack_dates@.len() == x.haystack_session_ids@.len(),
            x.haystack_dates@.len() == x.haystack_sessions@.len(),
            long_mem_sessions(*x, i as int) == Ok::<Seq<SessionModel>, Seq<char>>(
                session_models(out@),
            ),
        decreases x.haystack_dates.len() - i,
    {
        let occurred = time(x.haystack_dates[i].as_str(), LONG_MEM_DATE);
        assert(moment::moment_is(
            occurred,
            moment::read_moment(x.haystack_dates@[i as int]@, LONG_MEM_DATE@),
        ));
        match build_long_mem_session(x, i, occurred) {
            Ok(s) => {
                let ghost before = session_models(out@);
                out.push(s);
                assert(session_models(out@) =~= before.push(session_model(s)));
            },
            Err(e) => {
                proof {
                    long_mem_sessions_stop(*x, i + 1, x.haystack_dates@.len() as int);
                }
                return Err(e);
            },
        }
        i += 1;
    }
    Ok(out)
}

/// The messages among the first `n` that hold the answer.
pub open spec fn answering_messages(v: Seq<MessageModel>, n: int) -> Seq<Seq<char>>
    decreases n,
{
    if n <= 0 {
        Seq::empty()
    } else if v[n - 1].evidence.has_answer == Some(true) {
        answering_messages(v, n - 1).push(v[n - 1].evidence.external_id)
    } else {
        answering_messages(v, n - 1)
    }
}

/// The messages of the first `n` sessions that hold the answer.
pub open spec fn all_answering(v: Seq<SessionModel>, n: int) -> Seq<Seq<char>>
    decreases n,
{
    if n <= 0 {
        Seq::empty()
    } else {
        let m = v[n - 1].messages;
        all_answering(v, n - 1) + answering_messages(m, m.len() as int)
    }
}

/// The first `n` sessions that hold the answer.
pub open spec fn answering_sessions(v: Seq<SessionModel>, n: int) -> Seq<Seq<char>>
    decreases n,
{
    if n <= 0 {
        Seq::empty()
    } else {
        let m = v[n - 1].messages;
        if answering_messages(m, m.len() as int).len() > 0 {
            answering_sessions(v, n - 1).push(v[n - 1].external_id)
        } else {
            answering_sessions(v, n - 1)
        }
    }
}

/// The first `n` texts that stand in a list.
pub open spec fn listed(v: Seq<Seq<char>>, list: Seq<Seq<char>>, n: int) -> Seq<Seq<char>>
    decreases n,
{
    if n <= 0 {
        Seq::empty()
    } else if list.contains(v[n - 1]) {
        listed(v, list, n - 1).push(v[n - 1])
    } else {
        listed(v, list, n - 1)
    }
}

/// A question that has no answer.
pub open spec fn is_abstention(x: LongMemRow) -> bool {
    text::has_suffix(x.question_id@, "_abs"@)
}

pub open spec fn long_mem_class(x: LongMemRow) -> EvalQuestionClass {
    if is_abstention(x) {
        EvalQuestionClass::NoAnswer
    } else if x.question_type@ == "temporal-reasoning"@ {
        EvalQuestionClass::Temporal
    } else if x.question_type@ == "knowledge-update"@ {
        EvalQuestionClass::ConflictUpdate
    } else if x.question_type@ == "multi-session"@ {
        EvalQuestionClass::MultiHop
    } else {
        EvalQuestionClass::ExactFact
    }
}

pub open spec fn long_mem_metadata(x: LongMemRow, sessions: Seq<SessionModel>) -> JsonTree {
    JsonTree::Object(
        seq![
            (
                "answer_session_ids"@,
                JsonTree::Array(json::text_trees(text::texts(x.answer_session_ids@))),
            ),
            (
                "has_answer_message_ids"@,
                JsonTree::Array(json::text_trees(all_answering(sessions, sessions.len() as int))),
            ),
            ("question_type"@, JsonTree::Text(x.question_type@)),
        ],
    )
}

/// What is wrong with the answer of a row.
pub open spec fn long_mem_answer_fault(x: LongMemRow) -> Option<Seq<char>> {
    let ids = text::texts(x.answer_session_ids@);
    let known = text::texts(x.haystack_session_ids@);
    if is_abstention(x) {
        None
    } else if exists|i: int| 0 <= i < ids.len() && !known.contains(#[trigger] ids[i]) {
        Some("answer_session_id must name an imported haystack session"@)
    } else {
        match scalar_text(json::tree(x.answer)) {
            None => Some(not_scalar("answer"@)),
            Some(s) => if text::blank(s) {
                Some("answerable LongMemEval answer must be nonempty"@)
            } else {
                None
            },
        }
    }
}

/// The question of a row whose sessions and time have been read.
pub open spec fn long_mem_question(
    x: LongMemRow,
    sessions: Seq<SessionModel>,
    reference_time: Seq<char>,
) -> CaseModel {
    let no = is_abstention(x);
    let ids = text::texts(x.answer_session_ids@);
    let known = text::texts(x.haystack_session_ids@);
    CaseModel {
        id: x.question_id@,
        group_id: x.question_id@,
        question: x.question@,
        expected_answer: if no {
            None
        } else {
            scalar_text(json::tree(x.answer))
        },
        class: long_mem_class(x),
        reference_time,
        sessions,
        gold: if no {
            Seq::empty()
        } else {
            text::distinct_sorted(ids)
        },
        unresolved: Seq::empty(),
        stale: Seq::empty(),
        negative: if no {
            text::distinct_sorted(
                listed(ids, known, ids.len() as int) + answering_sessions(
                    sessions,
                    sessions.len() as int,
                ),
            )
        } else {
            Seq::empty()
        },
        metadata: long_mem_metadata(x, sessions),
    }
}

/// The question of a row whose sessions have been read, or what is wrong.
pub open spec fn long_mem_finish(
    x: LongMemRow,
    sessions: Seq<SessionModel>,
    reference: Result<Seq<char>, Seq<char>>,
) -> Result<CaseModel, Seq<char>> {
    match (long_mem_answer_fault(x), reference) {
        (Some(e), _) => Err(e),
        (None, Err(e)) => Err(e),
        (None, Ok(reference_time)) => Ok(long_mem_question(x, sessions, reference_time)),
    }
}

fn list_answering(v: &Vec<EvalSession>) -> (r: (Vec<String>, Vec<String>))
    ensures
        text::texts(r.0@) == all_answering(session_models(v@), v@.len() as int),
        text::texts(r.1@) == answering_sessions(session_models(v@), v@.len() as int),
{
    let ghost models = session_models(v@);
    let mut messages: Vec<String> = Vec::new();
    let mut sessions: Vec<String> = Vec::new();
    let mut i: usize = 0;
    assert(text::texts(messages@) =~= Seq::empty());
    assert(text::texts(sessions@) =~= Seq::empty());
    while i < v.len()
        invariant
            i <= v@.len(),
            models == session_models(v@),
            text::texts(messages@) == all_answering(models, i as int),
            text::texts(sessions@) == answering_sessions(models, i as int),
        decreases v.len() - i,
    {
        let own = &v[i].messages;
        let ghost m = message_models(own@);
        let ghost start = text::texts(messages@);
        let mut found = false;
        let mut k: usize = 0;
        assert(models[i as int].messages == m);
        assert(start + answering_messages(m, 0) =~= start);
        while k < own.len()
            invariant
                k <= own@.len(),
                m == message_models(own@),
                text::texts(messages@) == start + answering_messages(m, k as int),
                found == (answering_messages(m, k as int).len() > 0),
            decreases own.len() - k,
        {
            assert(m[k as int] == message_model(own@[k as int]));
            let holds = match own[k].evidence.has_answer {
                Some(b) => b,
                None => false,
            };
            if holds {
                let ghost before = text::texts(messages@);
                let ghost rest = answering_messages(m, k as int);
                messages.push(own[k].evidence.external_id.clone());
                found = true;
                assert(text::texts(messages@) =~= before.push(
                    own@[k as int].evidence.external_id@,
                ));
                assert(before.push(own@[k as int].evidence.external_id@) =~= start + rest.push(
                    own@[k as int].evidence.external_id@,
                ));
            }
            k += 1;
        }
        if found {
            let ghost before = text::texts(sessions@);
            sessions.push(v[i].external_id.clone());
            assert(text::texts(sessions@) =~= before.push(v@[i as int].external_id@));
        }
        i += 1;
    }
    (messages, sessions)
}

fn list_known(v: &Vec<String>, list: &Vec<String>) -> (r: Vec<String>)
    ensures
        text::texts(r@) == listed(text::texts(v@), text::texts(list@), v@.len() as int),
        r@.len() == v@.len() <==> (forall|i: int|
            0 <= i < v@.len() ==> text::texts(list@).contains(#[trigger] text::texts(v@)[i])),
{
    let ghost all = text::texts(v@);
    let ghost known = text::texts(list@);
    let mut out: Vec<String> = Vec::new();
    let mut i: usize = 0;
    assert(text::texts(out@) =~= Seq::empty());
    while i < v.len()
        invariant
            i <= v@.len(),
            all == text::texts(v@),
            known == text::texts(list@),
            text::texts(out@) == listed(all, known, i as int),
            out@.len() <= i,
            out@.len() == i <==> (forall|k: int| 0 <= k < i ==> known.contains(#[trigger] all[k])),
        decreases v.len() - i,
    {
        assert(all[i as int] == v@[i as int]@);
        if contains_text(list, v[i].as_str()) {
            let ghost before = text::texts(out@);
            out.push(v[i].clone());
            assert(text::texts(out@) =~= before.push(v@[i as int]@));
        }
        i += 1;
    }
    out
}

/// Makes the question of a row, once its sessions and its time have been read.
pub fn finish_long_mem_case(
    x: &LongMemRow,
    sessions: Vec<EvalSession>,
    reference: Result<String, String>,
) -> (r: Result<EvalCase, String>)
    ensures
        forall|want: Result<Seq<char>, Seq<char>>| #[trigger]
            moment::moment_is(reference, want) ==> match r {
                Ok(c) => long_mem_finish(*x, session_models(sessions@), want) == Ok::<
                    CaseModel,
                    Seq<char>,
                >(case_model(c)),
                Err(e) => long_mem_finish(*x, session_models(sessions@), want) == Err::<
                    CaseModel,
                    Seq<char>,
                >(e@),
            },
{
    let ghost models = session_models(sessions@);
    let ghost ids = text::texts(x.answer_session_ids@);
    let ghost known = text::texts(x.haystack_session_ids@);
    let no = ends_with(x.question_id.as_str(), "_abs");
    let (message_ids, session_ids) = list_answering(&sessions);
    let imported = list_known(&x.answer_session_ids, &x.haystack_session_ids);
    let mut expected_answer: Option<String> = None;
    if !no {
        if imported.len() != x.answer_session_ids.len() {
            return Err("answer_session_id must name an imported haystack session".to_owned());
        }
        match scalar(&x.answer, "answer") {
            Ok(answer) => {
                if is_blank(answer.as_str()) {
                    return Err("answerable LongMemEval answer must be nonempty".to_owned());
                }
                expected_answer = Some(answer);
            },
            Err(e) => return Err(e),
        }
    }
    assert(long_mem_answer_fault(*x) is None);
    let reference_time = match reference {
        Ok(reference_time) => reference_time,
        Err(e) => return Err(e),
    };
    let class = if no {
        EvalQuestionClass::NoAnswer
    } else if text_eq(x.question_type.as_str(), "temporal-reasoning") {
        EvalQuestionClass::Temporal
    } else if text_eq(x.question_type.as_str(), "knowledge-update") {
        EvalQuestionClass::ConflictUpdate
    } else if text_eq(x.question_type.as_str(), "multi-session") {
        EvalQuestionClass::MultiHop
    } else {
        EvalQuestionClass::ExactFact
    };
    let gold = if no {
        Vec::new()
    } else {
        distinct(&x.answer_session_ids)
    };
    let negative = if no {
        text::union_of(&imported, &session_ids)
    } else {
        Vec::new()
    };
    let none: Vec<Json> = Vec::new();
    let stale: Vec<String> = Vec::new();
    let object = JsonObject::new().with(
        "answer_session_ids",
        json_texts(&x.answer_session_ids),
    ).with("has_answer_message_ids", json_texts(&message_ids)).with(
        "question_type",
        json_text(x.question_type.as_str()),
    );
    proof {
        assert(object.list() =~= long_mem_metadata(*x, models)->Object_0);
        assert(json::trees(none@, 0) =~= Seq::empty());
        assert(text::texts(stale@) =~= Seq::empty());
        if no {
            assert(text::texts(gold@) =~= Seq::empty());
        } else {
            assert(text::texts(negative@) =~= Seq::empty());
        }
    }
    Ok(
        EvalCase {
            id: x.question_id.clone(),
            group_id: x.question_id.clone(),
            question: x.question.clone(),
            expected_answer,
            class,
            reference_time,
            sessions,
            gold_evidence: gold,
            unresolved_gold_evidence: none,
            stale_evidence: stale,
            negative_evidence: negative,
            source_metadata: object.finish(),
        },
    )
}

/// A list sorted and without repetitions.
pub fn distinct(v: &Vec<String>) -> (r: Vec<String>)
    ensures
        text::texts(r@) == text::distinct_sorted(text::texts(v@)),
{
    let out = sorted_set(v);
    proof {
        text::distinct_sorted_is(text::texts(v@), text::texts(out@));
    }
    out
}

/// The question of a row, or what is wrong with it.
pub open spec fn long_mem_case(rows: Seq<LongMemRow>, i: int) -> Result<CaseModel, Seq<char>> {
    let x = rows[i];
    match long_mem_head_fault(rows, i) {
        Some(e) => Err(e),
        None => match long_mem_sessions(x, x.haystack_dates@.len() as int) {
            Err(e) => Err(e),
            Ok(sessions) => long_mem_finish(
                x,
                sessions,
                moment::read_moment(x.question_date@, LONG_MEM_DATE@),
            ),
        },
    }
}

/// The questions of the first `n` rows, or the first thing that is wrong.
pub open spec fn long_mem_cases(rows: Seq<LongMemRow>, n: int) -> Result<
    Seq<CaseModel>,
    Seq<char>,
>
    decreases n,
{
    if n <= 0 {
        Ok(Seq::empty())
    } else {
        match long_mem_cases(rows, n - 1) {
            Err(e) => Err(e),
            Ok(v) => match long_mem_case(rows, n - 1) {
                Err(e) => Err(e),
                Ok(c) => Ok(v.push(c)),
            },
        }
    }
}

proof fn long_mem_cases_stop(rows: Seq<LongMemRow>, k: int, n: int)
    requires
        k <= n,
        long_mem_cases(rows, k) is Err,
    ensures
        long_mem_cases(rows, n) == long_mem_cases(rows, k),
    decreases n - k,
{
    if k < n {
        long_mem_cases_stop(rows, k, n - 1);
    }
}

fn check_head(rows: &Vec<LongMemRow>, i: usize) -> (r: Option<String>)
    requires
        i < rows@.len(),
    ensures
        text::opt_text(r) == long_mem_head_fault(rows@, i as int),
{
    let x = &rows[i];
    let id = x.question_id.as_str();
    let mut k: usize = 0;
    while k < i
        invariant
            k <= i < rows@.len(),
            id@ == rows@[i as int].question_id@,
            forall|q: int| 0 <= q < k ==> (#[trigger] rows@[q]).question_id@ != id@,
        decreases i - k,
    {
        if text_eq(rows[k].question_id.as_str(), id) {
            return Some("question IDs must be unique/nonempty".to_owned());
        }
        k += 1;
    }
    if id.unicode_len() == 0 {
        return Some("question IDs must be unique/nonempty".to_owned());
    }
    if x.haystack_dates.len() != x.haystack_session_ids.len() || x.haystack_dates.len()
        != x.haystack_sessions.len() {
        return Some("parallel haystack lengths differ".to_owned());
    }
    if is_blank(x.question.as_str()) {
        return Some("LongMemEval question must be nonempty".to_owned());
    }
    if !knows_question_type(x.question_type.as_str()) {
        let mut e = "unknown LongMemEval question_type ".to_owned();
        e.append(debug_text(x.question_type.as_str()).as_str());
        return Some(e);
    }
    if is_blank(x.question_date.as_str()) {
        return Some("question_date must be nonempty".to_owned());
    }
    None
}

fn build_long_mem_case(rows: &Vec<LongMemRow>, i: usize) -> (r: Result<EvalCase, String>)
    requires
        i < rows@.len(),
    ensures
        match r {
            Ok(c) => long_mem_case(rows@, i as int) == Ok::<CaseModel, Seq<char>>(case_model(c)),
            Err(e) => long_mem_case(rows@, i as int) == Err::<CaseModel, Seq<char>>(e@),
        },
{
    if let Some(e) = check_head(rows, i) {
        return Err(e);
    }
    let x = &rows[i];
    let sessions = match build_sessions(x) {
        Ok(sessions) => sessions,
        Err(e) => return Err(e),
    };
    let reference = time(x.question_date.as_str(), LONG_MEM_DATE);
    assert(moment::moment_is(
        reference,
        moment::read_moment(x.question_date@, LONG_MEM_DATE@),
    ));
    finish_long_mem_case(x, sessions, reference)
}

/// Reads the questions of LongMemEval.
pub fn read_long_mem(rows: &Vec<LongMemRow>) -> (r: Result<Vec<EvalCase>, String>)
    ensures
        match r {
            Ok(v) => long_mem_cases(rows@, rows@.len() as int) == Ok::<
                Seq<CaseModel>,
                Seq<char>,
            >(case_models(v@)),
            Err(e) => long_mem_cases(rows@, rows@.len() as int) == Err::<
                Seq<CaseModel>,
                Seq<char>,
            >(e@),
        },
{
    let mut out: Vec<EvalCase> = Vec::new();
    let mut i: usize = 0;
    assert(case_models(out@) =~= Seq::empty());
    while i < rows.len()
        invariant
            i <= rows@.len(),
            long_mem_cases(rows@, i as int) == Ok::<Seq<CaseModel>, Seq<char>>(
                case_models(out@),
            ),
        decreases rows.len() - i,
    {
        match build_long_mem_case(rows, i) {
            Ok(c) => {
                let ghost before = case_models(out@);
                out.push(c);
                assert(case_models(out@) =~= before.push(case_model(c)));
            },
            Err(e) => {
                proof {
                    long_mem_cases_stop(rows@, i + 1, rows@.len() as int);
                }
                return Err(e);
            },
        }
        i += 1;
    }
    Ok(out)
}

proof fn imported_messages_match(sid: Seq<char>, v: Seq<LongMemMessage>, n: int)
    requires
        0 <= n <= v.len(),
    ensures
        long_mem_messages(sid, v, n) matches Ok(m) ==> m.len() == n && forall|k: int|
            0 <= k < n ==> (#[trigger] m[k]).content == v[k].content@ && !text::blank(m[k].content)
                && (m[k].role == EventRole::User <==> v[k].role@ == "user"@) && (m[k].role
                == EventRole::Assistant <==> v[k].role@ == "assistant"@),
    decreases n,
{
    reveal_strlit("user");
    reveal_strlit("assistant");
    assert("user"@.len() == 4 && "assistant"@.len() == 9);
    if n > 0 {
        imported_messages_match(sid, v, n - 1);
    }
}

/// A session of a row and what it became.
pub open spec fn session_matches(x: LongMemRow, s: SessionModel, i: int) -> bool {
    let v = x.haystack_sessions@[i]@;
    &&& s.external_id == x.haystack_session_ids@[i]@
    &&& s.messages.len() == v.len() && v.len() > 0
    &&& forall|k: int|
        0 <= k < v.len() ==> (#[trigger] s.messages[k]).content == v[k].content@ && !text::blank(
            s.messages[k].content,
        ) && (s.messages[k].role == EventRole::User <==> v[k].role@ == "user"@) && (
        s.messages[k].role == EventRole::Assistant <==> v[k].role@ == "assistant"@)
}

proof fn imported_sessions_match(x: LongMemRow, n: int)
    requires
        0 <= n <= x.haystack_session_ids@.len(),
    ensures
        long_mem_sessions(x, n) matches Ok(s) ==> s.len() == n && (forall|i: int|
            0 <= i < n ==> session_matches(x, #[trigger] s[i], i)) && forall|i: int, j: int|
            0 <= i < j < n ==> (#[trigger] s[i]).external_id != (#[trigger] s[j]).external_id,
    decreases n,
{
    if n > 0 {
        imported_sessions_match(x, n - 1);
        let m = x.haystack_sessions@[n - 1]@;
        imported_messages_match(x.haystack_session_ids@[n - 1]@, m, m.len() as int);
        if long_mem_sessions(x, n) is Ok {
            let before = long_mem_sessions(x, n - 1)->Ok_0;
            let s = long_mem_sessions(x, n)->Ok_0;
            assert(s =~= before.push(s[n - 1]));
            assert forall|i: int, j: int| 0 <= i < j < n implies (#[trigger] s[i]).external_id != (
            #[trigger] s[j]).external_id by {
                if j == n - 1 {
                    assert(s[i] == before[i]);
                    assert(session_matches(x, before[i], i));
                    assert(x.haystack_session_ids@[i]@ != x.haystack_session_ids@[j]@);
                }
            }
            assert forall|i: int| 0 <= i < n implies session_matches(x, #[trigger] s[i], i) by {
                if i < n - 1 {
                    assert(s[i] == before[i]);
                }
            }
        }
    }
}

/// What a question that was read says about its row: it has the name, the text and
/// all sessions of the row; it has no answer exactly where its name says so, and
/// otherwise the answer of the row; its class follows from that and its type.
pub open spec fn question_matches(x: LongMemRow, c: CaseModel) -> bool {
    let no = text::has_suffix(x.question_id@, "_abs"@);
    let kind = x.question_type@;
    &&& c.id == x.question_id@ && c.id.len() > 0
    &&& c.question == x.question@ && !text::blank(c.question)
    &&& c.sessions.len() == x.haystack_sessions@.len()
    &&& forall|i: int|
        0 <= i < c.sessions.len() ==> session_matches(x, #[trigger] c.sessions[i], i)
    &&& c.expected_answer is None <==> no
    &&& !no ==> c.expected_answer == scalar_text(json::tree(x.answer)) && !text::blank(
        c.expected_answer->0,
    )
    &&& no ==> c.gold.len() == 0
    &&& c.class == EvalQuestionClass::NoAnswer <==> no
    &&& c.class == EvalQuestionClass::Temporal <==> !no && kind == "temporal-reasoning"@
    &&& c.class == EvalQuestionClass::ConflictUpdate <==> !no && kind == "knowledge-update"@
    &&& c.class == EvalQuestionClass::MultiHop <==> !no && kind == "multi-session"@
}

/// Every row becomes one question that matches it, and no name is given twice.
pub proof fn imported_questions_match_their_rows(rows: Seq<LongMemRow>, n: int)
    requires
        0 <= n <= rows.len(),
    ensures
        long_mem_cases(rows, n) matches Ok(v) ==> v.len() == n && (forall|i: int|
            0 <= i < n ==> question_matches(rows[i], #[trigger] v[i])) && forall|i: int, j: int|
            0 <= i < j < n ==> (#[trigger] v[i]).id != (#[trigger] v[j]).id,
    decreases n,
{
    if n > 0 {
        imported_questions_match_their_rows(rows, n - 1);
        let x = rows[n - 1];
        if long_mem_cases(rows, n) is Ok {
            let before = long_mem_cases(rows, n - 1)->Ok_0;
            let v = long_mem_cases(rows, n)->Ok_0;
            let c = v[n - 1];
            assert(v =~= before.push(c));
            imported_sessions_match(x, x.haystack_dates@.len() as int);
            reveal_strlit("temporal-reasoning");
            reveal_strlit("knowledge-update");
            reveal_strlit("multi-session");
            assert("temporal-reasoning"@.len() == 18 && "knowledge-update"@.len() == 16
                && "multi-session"@.len() == 13);
            assert(question_matches(x, c));
            assert forall|i: int| 0 <= i < n implies question_matches(rows[i], #[trigger] v[i]) by {
                if i < n - 1 {
                    assert(v[i] == before[i]);
                }
            }
            assert forall|i: int, j: int| 0 <= i < j < n implies (#[trigger] v[i]).id != (
            #[trigger] v[j]).id by {
                if j == n - 1 {
                    assert(v[i] == before[i]);
                    assert(question_matches(rows[i], before[i]));
                    assert(rows[i].question_id@ != x.question_id@);
                }
            }
        }
    }
}

proof fn answering_messages_answer(v: Seq<MessageModel>, n: int, x: Seq<char>)
    requires
        0 <= n <= v.len(),
    ensures
        answering_messages(v, n).contains(x) <==> exists|k: int|
            0 <= k < n && (#[trigger] v[k]).evidence.has_answer == Some(true)
                && v[k].evidence.external_id == x,
    decreases n,
{
    if n > 0 {
        answering_messages_answer(v, n - 1, x);
        let before = answering_messages(v, n - 1);
        let now = answering_messages(v, n);
        if now.contains(x) {
            let i = choose|i: int| 0 <= i < now.len() && now[i] == x;
            if i < before.len() {
                assert(before[i] == x);
            } else {
                assert(v[n - 1].evidence.external_id == x);
            }
        }
        if before.contains(x) {
            let i = choose|i: int| 0 <= i < before.len() && before[i] == x;
            assert(now[i] == x);
        }
        if now.len() > before.len() {
            assert(now[before.len() as int] == v[n - 1].evidence.external_id);
        }
    }
}

/// The messages that answer a question are exactly those that are marked so.
pub proof fn marked_messages_answer(v: Seq<SessionModel>, n: int, x: Seq<char>)
    requires
        0 <= n <= v.len(),
    ensures
        all_answering(v, n).contains(x) <==> exists|i: int, k: int|
            0 <= i < n && 0 <= k < v[i].messages.len() && (
            #[trigger] v[i].messages[k]).evidence.has_answer == Some(true)
                && v[i].messages[k].evidence.external_id == x,
    decreases n,
{
    if n > 0 {
        marked_messages_answer(v, n - 1, x);
        let m = v[n - 1].messages;
        answering_messages_answer(m, m.len() as int, x);
        let before = all_answering(v, n - 1);
        let own = answering_messages(m, m.len() as int);
        let now = all_answering(v, n);
        if now.contains(x) {
            let i = choose|i: int| 0 <= i < now.len() && now[i] == x;
            if i < before.len() {
                assert(before[i] == x);
            } else {
                assert(own[i - before.len()] == x);
                let k = choose|k: int|
                    0 <= k < m.len() && (#[trigger] m[k]).evidence.has_answer == Some(true)
                        && m[k].evidence.external_id == x;
                assert(v[n - 1].messages[k].evidence.external_id == x);
            }
        }
        if before.contains(x) {
            let i = choose|i: int| 0 <= i < before.len() && before[i] == x;
            assert(now[i] == x);
        }
        if own.contains(x) {
            let i = choose|i: int| 0 <= i < own.len() && own[i] == x;
            assert(now[before.len() + i] == x);
        }
    }
}

} // verus!
