//! The control log: records that exclude sessions and events from memory, or
//! restore them, chained by their digests.

use vstd::prelude::*;
use vstd::string::*;
use vstd::utf8::*;

use crate::config::{self, is_ascii_alphanumeric, is_id_char, join_path};
use crate::digest::{self, bytes_sha256, content_sha256, is_lower_hex, is_sha256, push_be, push_bytes};
use crate::json::{self, json_number, json_opt_text, json_text, render, JsonObject};
use crate::model::{self, copy_list, event_id, EventRole, Session, TurnStatus};
use crate::moment::{self, utc_offset};
use crate::text::{
    self, chars_of, contains_text, debug_text, ends_with, insert_text, push_decimal, remove_text,
    starts_with, text_eq,
};

verus! {

pub const CONTROL_LOG_VERSION: u32 = 1;

pub const CONTROL_DIRECTORY: &'static str = ".hippocampus-control";

pub const MAX_SEGMENT_BYTES: u64 = 16384;

/// How often an append is tried when others append at the same time.
pub const MAX_APPEND_ATTEMPTS: usize = 8;

#[derive(Clone, Copy, Debug, PartialEq, Eq, Structural)]
pub enum ControlAction {
    Exclude,
    Restore,
}

#[derive(Clone, Copy, Debug, PartialEq, Eq, Structural)]
pub enum ControlTargetKind {
    Session,
    Event,
}

#[derive(Clone, Debug, PartialEq, Eq)]
pub struct ControlTarget {
    pub kind: ControlTargetKind,
    pub id: String,
}

#[derive(Clone, Debug, PartialEq, Eq)]
pub struct ControlRecord {
    pub version: u32,
    pub sequence: u64,
    pub action: ControlAction,
    pub target_kind: ControlTargetKind,
    pub target_id: String,
    pub target_session_id: Option<String>,
    pub target_content_sha256: Option<String>,
    pub target_created_at: String,
    pub timestamp: String,
    pub previous_record_sha256: Option<String>,
    pub record_sha256: String,
}

/// What the log amounts to: the excluded sessions and events, each a sorted list
/// without repetitions, and where the log ends.
#[derive(Clone, Debug, PartialEq, Eq)]
pub struct ControlState {
    pub sessions: Vec<String>,
    pub events: Vec<String>,
    pub sequence: u64,
    pub record_sha256: Option<String>,
}

/// A state by what it holds.
pub struct ControlModel {
    pub sessions: Set<Seq<char>>,
    pub events: Set<Seq<char>>,
    pub sequence: u64,
    pub record_sha256: Option<Seq<char>>,
}

pub open spec fn members_of(v: Seq<String>) -> Set<Seq<char>> {
    Set::new(|x: Seq<char>| text::texts(v).contains(x))
}

/// What identifies one exact end of the log.
pub open spec fn generation_bytes(sequence: u64, record: Option<Seq<char>>) -> Seq<u8> {
    encode_utf8("hippocampus-control-generation-v1\0"@) + digest::be_bytes(sequence as nat, 8)
        + match record {
        Some(hash) => encode_utf8(hash),
        None => Seq::<u8>::empty(),
    }
}

impl ControlState {
    pub open spec fn model(&self) -> ControlModel {
        ControlModel {
            sessions: members_of(self.sessions@),
            events: members_of(self.events@),
            sequence: self.sequence,
            record_sha256: text::opt_text(self.record_sha256),
        }
    }

    pub open spec fn wf(&self) -> bool {
        text::strictly_sorted(text::texts(self.sessions@)) && text::strictly_sorted(
            text::texts(self.events@),
        )
    }

    /// A stable token that binds what is derived from the log to its exact end.
    pub fn generation_sha256(&self) -> (r: String)
        ensures
            r@ == digest::sha256_hex(
                generation_bytes(self.sequence, text::opt_text(self.record_sha256)),
            ),
            digest::sha256_shape(r@),
    {
        let mut bytes: Vec<u8> = Vec::new();
        push_bytes(&mut bytes, "hippocampus-control-generation-v1\0".as_bytes());
        push_be(&mut bytes, self.sequence);
        if let Some(hash) = &self.record_sha256 {
            push_bytes(&mut bytes, hash.as_str().as_bytes());
        }
        assert(bytes@ =~= generation_bytes(self.sequence, text::opt_text(self.record_sha256)));
        bytes_sha256(bytes.as_slice())
    }

    pub fn allows_session(&self, session_id: &str) -> (r: bool)
        ensures
            r == !self.model().sessions.contains(session_id@),
    {
        !self.session_is_excluded(session_id)
    }

    pub fn session_is_excluded(&self, session_id: &str) -> (r: bool)
        ensures
            r == self.model().sessions.contains(session_id@),
    {
        contains_text(&self.sessions, session_id)
    }

    pub fn event_is_excluded(&self, event_id: &str) -> (r: bool)
        ensures
            r == self.model().events.contains(event_id@),
    {
        contains_text(&self.events, event_id)
    }

    pub fn allows_event(&self, session_id: &str, event_id: &str) -> (r: bool)
        ensures
            r == event_allowed(self.model(), session_id@, event_id@),
    {
        self.allows_session(session_id) && !self.event_is_excluded(event_id)
    }

    pub fn allows_turn(&self, session_id: &str, turn_id: &str) -> (r: bool)
        ensures
            r == turn_allowed(self.model(), session_id@, turn_id@),
    {
        let user = event_id(session_id, Some(turn_id), EventRole::User);
        let assistant = event_id(session_id, Some(turn_id), EventRole::Assistant);
        self.allows_event(session_id, user.as_str()) && self.allows_event(
            session_id,
            assistant.as_str(),
        )
    }

    pub fn session_has_excluded_event(&self, session: &Session) -> (r: bool)
        ensures
            r == exists|i: int|
                0 <= i < session.turns@.len() && !turn_allowed(
                    self.model(),
                    session.id@,
                    (#[trigger] session.turns@[i]).id@,
                ),
    {
        let mut i: usize = 0;
        while i < session.turns.len()
            invariant
                i <= session.turns@.len(),
                forall|k: int|
                    0 <= k < i ==> turn_allowed(
                        self.model(),
                        session.id@,
                        (#[trigger] session.turns@[k]).id@,
                    ),
            decreases session.turns.len() - i,
        {
            if !self.allows_turn(session.id.as_str(), session.turns[i].id.as_str()) {
                return true;
            }
            i += 1;
        }
        false
    }

    /// The excluded sessions in order.
    pub fn excluded_sessions(&self) -> (r: Vec<String>)
        ensures
            r@ == self.sessions@,
    {
        copy_list(&self.sessions)
    }

    /// The excluded events in order.
    pub fn excluded_events(&self) -> (r: Vec<String>)
        ensures
            r@ == self.events@,
    {
        copy_list(&self.events)
    }

    pub fn last_sequence(&self) -> (r: u64)
        ensures
            r == self.sequence,
    {
        self.sequence
    }

    pub fn last_record_sha256(&self) -> (r: Option<&str>)
        ensures
            model::opt_str(r) == text::opt_text(self.record_sha256),
    {
        match &self.record_sha256 {
            Some(hash) => Some(hash.as_str()),
            None => None,
        }
    }
}

impl Default for ControlState {
    fn default() -> (r: Self)
        ensures
            r.wf(),
            r.model() == empty_model(),
    {
        let r = ControlState {
            sessions: Vec::new(),
            events: Vec::new(),
            sequence: 0,
            record_sha256: None,
        };
        assert(r.model().sessions =~= Set::empty());
        assert(r.model().events =~= Set::empty());
        r
    }
}

/// The state of an empty log.
pub open spec fn empty_model() -> ControlModel {
    ControlModel {
        sessions: Set::empty(),
        events: Set::empty(),
        sequence: 0,
        record_sha256: None,
    }
}

pub open spec fn event_allowed(m: ControlModel, session: Seq<char>, event: Seq<char>) -> bool {
    !m.sessions.contains(session) && !m.events.contains(event)
}

/// A turn is allowed when both of its events are.
pub open spec fn turn_allowed(m: ControlModel, session: Seq<char>, turn: Seq<char>) -> bool {
    event_allowed(m, session, model::event_id_text(session, Some(turn), EventRole::User))
        && event_allowed(
        m,
        session,
        model::event_id_text(session, Some(turn), EventRole::Assistant),
    )
}

#[allow(inconsistent_fields)]
#[derive(Debug, PartialEq, Eq)]
pub enum ControlError {
    Io { path: String, message: String },
    CorruptLog(String),
    CorruptSource { path: String, message: String },
    InvalidTarget(String),
    InvalidTransition(String),
    RecordTooLarge { size: usize, max: u64 },
    Locking(String),
}

/// An error by what it says.
#[allow(inconsistent_fields)]
pub enum ControlFault {
    Io { path: Seq<char>, message: Seq<char> },
    CorruptLog(Seq<char>),
    CorruptSource { path: Seq<char>, message: Seq<char> },
    InvalidTarget(Seq<char>),
    InvalidTransition(Seq<char>),
    RecordTooLarge { size: usize, max: u64 },
    Locking(Seq<char>),
}

pub open spec fn fault(e: ControlError) -> ControlFault {
    match e {
        ControlError::Io { path, message } => ControlFault::Io {
            path: path@,
            message: message@,
        },
        ControlError::CorruptLog(m) => ControlFault::CorruptLog(m@),
        ControlError::CorruptSource { path, message } => ControlFault::CorruptSource {
            path: path@,
            message: message@,
        },
        ControlError::InvalidTarget(m) => ControlFault::InvalidTarget(m@),
        ControlError::InvalidTransition(m) => ControlFault::InvalidTransition(m@),
        ControlError::RecordTooLarge { size, max } => ControlFault::RecordTooLarge { size, max },
        ControlError::Locking(m) => ControlFault::Locking(m@),
    }
}

/// The message of an error.
pub open spec fn fault_text(f: ControlFault) -> Seq<char> {
    match f {
        ControlFault::Io { path, message } => "control log I/O failed at "@ + path + ": "@
            + message,
        ControlFault::CorruptLog(m) => "control log is corrupt: "@ + m,
        ControlFault::CorruptSource { path, message } => "control source is corrupt at "@ + path
            + ": "@ + message,
        ControlFault::InvalidTarget(m) => "invalid control target: "@ + m,
        ControlFault::InvalidTransition(m) => "invalid control transition: "@ + m,
        ControlFault::RecordTooLarge { size, max } => "canonical control record is too large: "@
            + text::decimal(size as nat) + " bytes exceeds "@ + text::decimal(max as nat)
            + " bytes"@,
        ControlFault::Locking(m) => "could not lock the session root: "@ + m,
    }
}

fn two(a: &str, b: &str) -> (r: String)
    ensures
        r@ == a@ + b@,
{
    let mut out = a.to_owned();
    out.append(b);
    out
}

impl ControlError {
    pub fn message(&self) -> (r: String)
        ensures
            r@ == fault_text(fault(*self)),
    {
        match self {
            ControlError::Io { path, message } => {
                let mut out = two("control log I/O failed at ", path.as_str());
                out.append(": ");
                out.append(message.as_str());
                out
            },
            ControlError::CorruptLog(m) => two("control log is corrupt: ", m.as_str()),
            ControlError::CorruptSource { path, message } => {
                let mut out = two("control source is corrupt at ", path.as_str());
                out.append(": ");
                out.append(message.as_str());
                out
            },
            ControlError::InvalidTarget(m) => two("invalid control target: ", m.as_str()),
            ControlError::InvalidTransition(m) => two("invalid control transition: ", m.as_str()),
            ControlError::RecordTooLarge { size, max } => {
                let mut out = "canonical control record is too large: ".to_owned();
                push_decimal(&mut out, *size as u64);
                out.append(" bytes exceeds ");
                push_decimal(&mut out, *max);
                out.append(" bytes");
                out
            },
            ControlError::Locking(m) => two("could not lock the session root: ", m.as_str()),
        }
    }
}

/// The fault of a check, if it fails.
pub open spec fn check_fault<T>(r: Result<T, ControlError>) -> Option<ControlFault> {
    match r {
        Ok(_) => None,
        Err(e) => Some(fault(e)),
    }
}

/// The set that a kind of target is listed in.
pub open spec fn targets(m: ControlModel, kind: ControlTargetKind) -> Set<Seq<char>> {
    match kind {
        ControlTargetKind::Session => m.sessions,
        ControlTargetKind::Event => m.events,
    }
}

/// What keeps a transition from being made: a target that is already in the
/// state asked for.
pub open spec fn transition_fault(
    m: ControlModel,
    action: ControlAction,
    kind: ControlTargetKind,
    id: Seq<char>,
) -> Option<ControlFault> {
    match action {
        ControlAction::Exclude => if targets(m, kind).contains(id) {
            Some(ControlFault::InvalidTransition(id + " is already excluded"@))
        } else {
            None
        },
        ControlAction::Restore => if targets(m, kind).contains(id) {
            None
        } else {
            Some(ControlFault::InvalidTransition(id + " is not excluded"@))
        },
    }
}

/// The state after a transition.
pub open spec fn transitioned(
    m: ControlModel,
    action: ControlAction,
    kind: ControlTargetKind,
    id: Seq<char>,
) -> ControlModel {
    let after = match action {
        ControlAction::Exclude => targets(m, kind).insert(id),
        ControlAction::Restore => targets(m, kind).remove(id),
    };
    match kind {
        ControlTargetKind::Session => ControlModel { sessions: after, ..m },
        ControlTargetKind::Event => ControlModel { events: after, ..m },
    }
}

fn transition_list(list: &mut Vec<String>, action: ControlAction, id: &str) -> (done: bool)
    requires
        text::strictly_sorted(text::texts(old(list)@)),
    ensures
        text::strictly_sorted(text::texts(final(list)@)),
        done == (match action {
            ControlAction::Exclude => !members_of(old(list)@).contains(id@),
            ControlAction::Restore => members_of(old(list)@).contains(id@),
        }),
        members_of(final(list)@) == (if !done {
            members_of(old(list)@)
        } else {
            match action {
                ControlAction::Exclude => members_of(old(list)@).insert(id@),
                ControlAction::Restore => members_of(old(list)@).remove(id@),
            }
        }),
{
    let ghost before = members_of(list@);
    match action {
        ControlAction::Exclude => {
            let added = insert_text(list, id);
            assert(members_of(list@) =~= if added {
                before.insert(id@)
            } else {
                before
            });
            added
        },
        ControlAction::Restore => {
            let removed = remove_text(list, id);
            assert(members_of(list@) =~= if removed {
                before.remove(id@)
            } else {
                before
            });
            removed
        },
    }
}

/// Makes a transition; a refused one leaves the state as it is.
pub fn apply_transition(
    state: &mut ControlState,
    action: ControlAction,
    kind: ControlTargetKind,
    id: &str,
) -> (r: Result<(), ControlError>)
    requires
        old(state).wf(),
    ensures
        final(state).wf(),
        check_fault(r) == transition_fault(old(state).model(), action, kind, id@),
        r is Ok ==> final(state).model() == transitioned(old(state).model(), action, kind, id@),
        r is Err ==> final(state).model() == old(state).model(),
{
    let done = match kind {
        ControlTargetKind::Session => transition_list(&mut state.sessions, action, id),
        ControlTargetKind::Event => transition_list(&mut state.events, action, id),
    };
    if done {
        return Ok(());
    }
    match action {
        ControlAction::Exclude => Err(
            ControlError::InvalidTransition(two(id, " is already excluded")),
        ),
        ControlAction::Restore => Err(ControlError::InvalidTransition(two(id, " is not excluded"))),
    }
}

/// What is excluded can be restored, and restoring it gives back what was
/// there before.
pub proof fn restore_undoes_exclude(m: ControlModel, kind: ControlTargetKind, id: Seq<char>)
    requires
        transition_fault(m, ControlAction::Exclude, kind, id) is None,
    ensures
        transition_fault(
            transitioned(m, ControlAction::Exclude, kind, id),
            ControlAction::Restore,
            kind,
            id,
        ) is None,
        transitioned(
            transitioned(m, ControlAction::Exclude, kind, id),
            ControlAction::Restore,
            kind,
            id,
        ) == m,
{
    assert(targets(m, kind).insert(id).remove(id) =~= targets(m, kind));
}

/// Repeating a transition is refused.
pub proof fn transitions_do_not_repeat(
    m: ControlModel,
    action: ControlAction,
    kind: ControlTargetKind,
    id: Seq<char>,
)
    requires
        transition_fault(m, action, kind, id) is None,
    ensures
        transition_fault(transitioned(m, action, kind, id), action, kind, id) is Some,
{
}

/// An excluded session allows none of its events or turns.
pub proof fn excluded_sessions_allow_nothing(
    m: ControlModel,
    session: Seq<char>,
    event: Seq<char>,
    turn: Seq<char>,
)
    requires
        m.sessions.contains(session),
    ensures
        !event_allowed(m, session, event),
        !turn_allowed(m, session, turn),
{
}

/// An identifier that is safe as a file name.
pub open spec fn safe_id(s: Seq<char>) -> bool {
    s.len() > 0 && config::ascii_alphanumeric(s[0]) && forall|i: int|
        1 <= i < s.len() ==> config::id_char(#[trigger] s[i])
}

pub open spec fn safe_id_fault(s: Seq<char>) -> Option<ControlFault> {
    if s.len() == 0 {
        Some(ControlFault::InvalidTarget("empty target id"@))
    } else if !safe_id(s) {
        Some(ControlFault::InvalidTarget("unsafe target id "@ + text::debug_quoted(s)))
    } else {
        None
    }
}

fn is_safe_id(id: &str) -> (r: bool)
    ensures
        r == safe_id(id@),
{
    let chars = chars_of(id);
    if chars.len() == 0 || !is_ascii_alphanumeric(chars[0]) {
        return false;
    }
    let mut i: usize = 1;
    while i < chars.len()
        invariant
            1 <= i <= chars@.len(),
            chars@ == id@,
            forall|k: int| 1 <= k < i ==> config::id_char(#[trigger] id@[k]),
        decreases chars.len() - i,
    {
        if !is_id_char(chars[i]) {
            assert(!config::id_char(id@[i as int]));
            return false;
        }
        i += 1;
    }
    true
}

pub fn validate_safe_id(id: &str) -> (r: Result<(), ControlError>)
    ensures
        check_fault(r) == safe_id_fault(id@),
{
    if id.unicode_len() == 0 {
        return Err(ControlError::InvalidTarget("empty target id".to_owned()));
    }
    if !is_safe_id(id) {
        return Err(
            ControlError::InvalidTarget(two("unsafe target id ", debug_text(id).as_str())),
        );
    }
    Ok(())
}

/// What is wrong with a timestamp that should be in UTC.
pub open spec fn timestamp_defect(offset: Option<i32>) -> Option<Seq<char>> {
    match offset {
        None => Some(" is not RFC3339"@),
        Some(seconds) => if seconds != 0 {
            Some(" is not UTC"@)
        } else {
            None
        },
    }
}

/// Judges a timestamp by its offset from UTC.
pub fn judge_offset(offset: Option<i32>) -> (r: Option<&'static str>)
    ensures
        model::opt_str(r) == timestamp_defect(offset),
{
    match offset {
        None => Some(" is not RFC3339"),
        Some(seconds) => if seconds != 0 {
            Some(" is not UTC")
        } else {
            None
        },
    }
}

pub open spec fn timestamp_fault(value: Seq<char>, field: Seq<char>) -> Option<ControlFault> {
    match timestamp_defect(moment::rfc3339_offset(value)) {
        Some(defect) => Some(ControlFault::CorruptLog(field + defect)),
        None => None,
    }
}

pub fn validate_utc_timestamp(value: &str, field: &str) -> (r: Result<(), ControlError>)
    ensures
        check_fault(r) == timestamp_fault(value@, field@),
{
    match judge_offset(utc_offset(value)) {
        Some(defect) => Err(ControlError::CorruptLog(two(field, defect))),
        None => Ok(()),
    }
}

/// What is wrong with a timestamp of a session, if anything.
pub open spec fn source_defect(value: Seq<char>, field: Seq<char>) -> Option<Seq<char>> {
    match timestamp_defect(moment::rfc3339_offset(value)) {
        Some(defect) => Some(field + defect),
        None => None,
    }
}

pub fn validate_source_timestamp(value: &str, field: &str) -> (r: Result<(), String>)
    ensures
        match r {
            Ok(_) => source_defect(value@, field@) is None,
            Err(m) => source_defect(value@, field@) == Some(m@),
        },
{
    match judge_offset(utc_offset(value)) {
        Some(defect) => Err(two(field, defect)),
        None => Ok(()),
    }
}

pub open spec fn first_of(a: Option<Seq<char>>, b: Option<Seq<char>>) -> Option<Seq<char>> {
    match a {
        Some(x) => Some(x),
        None => b,
    }
}

pub open spec fn turn_field(turn: model::Turn, what: Seq<char>) -> Seq<char> {
    "turn "@ + turn.id@ + what
}

/// What is wrong with the timestamps of a turn, if anything.
pub open spec fn turn_defect(turn: model::Turn) -> Option<Seq<char>> {
    first_of(
        first_of(
            source_defect(turn.created_at@, turn_field(turn, " created_at"@)),
            source_defect(turn.updated_at@, turn_field(turn, " updated_at"@)),
        ),
        match turn.request_started_at {
            Some(t) => source_defect(t@, turn_field(turn, " request_started_at"@)),
            None => None,
        },
    )
}

/// The first defect among the turns, from `i` on.
pub open spec fn turns_defect(turns: Seq<model::Turn>, i: int) -> Option<Seq<char>>
    decreases turns.len() - i,
{
    if i < 0 || i >= turns.len() {
        None
    } else {
        first_of(turn_defect(turns[i]), turns_defect(turns, i + 1))
    }
}

/// What is wrong with the timestamps of a session, if anything.
pub open spec fn session_defect(s: Session) -> Option<Seq<char>> {
    first_of(
        first_of(
            source_defect(s.created_at@, "session.created_at"@),
            source_defect(s.updated_at@, "session.updated_at"@),
        ),
        turns_defect(s.turns@, 0),
    )
}

fn turn_field_string(turn: &model::Turn, what: &str) -> (r: String)
    ensures
        r@ == turn_field(*turn, what@),
{
    let mut out = two("turn ", turn.id.as_str());
    out.append(what);
    out
}

fn validate_turn_timestamps(turn: &model::Turn) -> (r: Result<(), String>)
    ensures
        match r {
            Ok(_) => turn_defect(*turn) is None,
            Err(m) => turn_defect(*turn) == Some(m@),
        },
{
    if let Err(m) = validate_source_timestamp(
        turn.created_at.as_str(),
        turn_field_string(turn, " created_at").as_str(),
    ) {
        return Err(m);
    }
    if let Err(m) = validate_source_timestamp(
        turn.updated_at.as_str(),
        turn_field_string(turn, " updated_at").as_str(),
    ) {
        return Err(m);
    }
    if let Some(t) = &turn.request_started_at {
        if let Err(m) = validate_source_timestamp(
            t.as_str(),
            turn_field_string(turn, " request_started_at").as_str(),
        ) {
            return Err(m);
        }
    }
    Ok(())
}

pub fn validate_source_timestamps(session: &Session) -> (r: Result<(), String>)
    ensures
        match r {
            Ok(_) => session_defect(*session) is None,
            Err(m) => session_defect(*session) == Some(m@),
        },
{
    if let Err(m) = validate_source_timestamp(session.created_at.as_str(), "session.created_at") {
        return Err(m);
    }
    if let Err(m) = validate_source_timestamp(session.updated_at.as_str(), "session.updated_at") {
        return Err(m);
    }
    let mut i: usize = 0;
    while i < session.turns.len()
        invariant
            i <= session.turns@.len(),
            session_defect(*session) == turns_defect(session.turns@, i as int),
        decreases session.turns.len() - i,
    {
        if let Err(m) = validate_turn_timestamps(&session.turns[i]) {
            return Err(m);
        }
        i += 1;
    }
    Ok(())
}

pub open spec fn hash_fault(value: Seq<char>, field: Seq<char>) -> Option<ControlFault> {
    if digest::sha256_shape(value) {
        None
    } else {
        Some(ControlFault::CorruptLog(field + " is not a lowercase SHA-256"@))
    }
}

pub fn validate_hash(value: &str, field: &str) -> (r: Result<(), ControlError>)
    ensures
        check_fault(r) == hash_fault(value@, field@),
{
    if !is_sha256(value) {
        return Err(ControlError::CorruptLog(two(field, " is not a lowercase SHA-256")));
    }
    Ok(())
}

pub open spec fn optional_hash_fault(value: Option<Seq<char>>, field: Seq<char>) -> Option<
    ControlFault,
> {
    match value {
        Some(v) => hash_fault(v, field),
        None => None,
    }
}

pub fn validate_optional_hash(value: Option<&str>, field: &str) -> (r: Result<(), ControlError>)
    ensures
        check_fault(r) == optional_hash_fault(model::opt_str(value), field@),
{
    match value {
        Some(v) => validate_hash(v, field),
        None => Ok(()),
    }
}

pub open spec fn action_text(a: ControlAction) -> Seq<char> {
    match a {
        ControlAction::Exclude => "exclude"@,
        ControlAction::Restore => "restore"@,
    }
}

pub open spec fn kind_text(k: ControlTargetKind) -> Seq<char> {
    match k {
        ControlTargetKind::Session => "session"@,
        ControlTargetKind::Event => "event"@,
    }
}

impl ControlAction {
    pub fn as_str(&self) -> (r: &'static str)
        ensures
            r@ == action_text(*self),
    {
        match self {
            ControlAction::Exclude => "exclude",
            ControlAction::Restore => "restore",
        }
    }
}

impl ControlTargetKind {
    pub fn as_str(&self) -> (r: &'static str)
        ensures
            r@ == kind_text(*self),
    {
        match self {
            ControlTargetKind::Session => "session",
            ControlTargetKind::Event => "event",
        }
    }
}

/// The members of a record that its digest covers.
pub open spec fn payload_members(r: ControlRecord) -> Seq<(Seq<char>, json::JsonTree)> {
    seq![
        ("version"@, json::number_tree(r.version as u64)),
        ("sequence"@, json::number_tree(r.sequence)),
        ("action"@, json::JsonTree::Text(action_text(r.action))),
        ("target_kind"@, json::JsonTree::Text(kind_text(r.target_kind))),
        ("target_id"@, json::JsonTree::Text(r.target_id@)),
        ("target_session_id"@, json::opt_text_tree(text::opt_text(r.target_session_id))),
        ("target_content_sha256"@, json::opt_text_tree(text::opt_text(r.target_content_sha256))),
        ("target_created_at"@, json::JsonTree::Text(r.target_created_at@)),
        ("timestamp"@, json::JsonTree::Text(r.timestamp@)),
        ("previous_record_sha256"@, json::opt_text_tree(text::opt_text(r.previous_record_sha256))),
    ]
}

/// The digest that a record must carry.
pub open spec fn record_digest(r: ControlRecord) -> Seq<char> {
    digest::text_digest(json::rendered(json::JsonTree::Object(payload_members(r))))
}

/// The text of a record in the log.
pub open spec fn record_text(r: ControlRecord) -> Seq<char> {
    json::rendered(
        json::JsonTree::Object(
            payload_members(r).push(
                ("record_sha256"@, json::JsonTree::Text(r.record_sha256@)),
            ),
        ),
    )
}

/// The bytes of a record in the log: its text and a line feed.
pub open spec fn canonical_bytes(r: ControlRecord) -> Seq<u8> {
    encode_utf8(record_text(r)).push(10u8)
}

fn opt_as_str(s: &Option<String>) -> (r: Option<&str>)
    ensures
        model::opt_str(r) == text::opt_text(*s),
{
    match s {
        Some(value) => Some(value.as_str()),
        None => None,
    }
}

fn payload_object(r: &ControlRecord) -> (o: JsonObject)
    ensures
        o.list() == payload_members(*r),
{
    let o = JsonObject::new().with("version", json_number(r.version as u64)).with(
        "sequence",
        json_number(r.sequence),
    ).with("action", json_text(r.action.as_str())).with(
        "target_kind",
        json_text(r.target_kind.as_str()),
    ).with("target_id", json_text(r.target_id.as_str())).with(
        "target_session_id",
        json_opt_text(opt_as_str(&r.target_session_id)),
    ).with("target_content_sha256", json_opt_text(opt_as_str(&r.target_content_sha256))).with(
        "target_created_at",
        json_text(r.target_created_at.as_str()),
    ).with("timestamp", json_text(r.timestamp.as_str())).with(
        "previous_record_sha256",
        json_opt_text(opt_as_str(&r.previous_record_sha256)),
    );
    assert(o.list() =~= payload_members(*r));
    o
}

pub fn record_hash(record: &ControlRecord) -> (r: String)
    ensures
        r@ == record_digest(*record),
        digest::sha256_shape(r@),
{
    content_sha256(render(&payload_object(record).finish()).as_str())
}

pub fn canonical_record_bytes(record: &ControlRecord) -> (r: Vec<u8>)
    ensures
        r@ == canonical_bytes(*record),
{
    let whole = payload_object(record).with(
        "record_sha256",
        json_text(record.record_sha256.as_str()),
    ).finish();
    let text = render(&whole);
    let mut bytes: Vec<u8> = Vec::new();
    push_bytes(&mut bytes, text.as_str().as_bytes());
    bytes.push(10u8);
    assert(bytes@ =~= canonical_bytes(*record));
    bytes
}

pub open spec fn first_fault(a: Option<ControlFault>, b: Option<ControlFault>) -> Option<
    ControlFault,
> {
    match a {
        Some(f) => Some(f),
        None => b,
    }
}

pub open spec fn in_log(f: Option<ControlFault>) -> Option<ControlFault> {
    match f {
        Some(x) => Some(ControlFault::CorruptLog(fault_text(x))),
        None => None,
    }
}

/// What is wrong with the way a record is bound to its target.
pub open spec fn binding_fields_fault(r: ControlRecord) -> Option<ControlFault> {
    match r.target_kind {
        ControlTargetKind::Session => if r.target_session_id is Some
            || r.target_content_sha256 is Some {
            Some(ControlFault::CorruptLog("session record has event-only binding fields"@))
        } else {
            None
        },
        ControlTargetKind::Event => match r.target_session_id {
            None => Some(ControlFault::CorruptLog("event record lacks session binding"@)),
            Some(session) => first_fault(
                in_log(safe_id_fault(session@)),
                hash_fault(
                    match r.target_content_sha256 {
                        Some(h) => h@,
                        None => ""@,
                    },
                    "target_content_sha256"@,
                ),
            ),
        },
    }
}

/// What is wrong with a record by itself and at its place in the log.
pub open spec fn record_fault(r: ControlRecord, sequence: u64, m: ControlModel) -> Option<
    ControlFault,
> {
    if r.version != 1 || r.sequence != sequence {
        Some(ControlFault::CorruptLog("version or sequence mismatch"@))
    } else {
        first_fault(in_log(safe_id_fault(r.target_id@)), fields_fault(r, m))
    }
}

pub open spec fn fields_fault(r: ControlRecord, m: ControlModel) -> Option<ControlFault> {
    first_fault(
        timestamp_fault(r.target_created_at@, "target_created_at"@),
        first_fault(
            timestamp_fault(r.timestamp@, "timestamp"@),
            first_fault(
                optional_hash_fault(
                    text::opt_text(r.previous_record_sha256),
                    "previous_record_sha256"@,
                ),
                first_fault(hash_fault(r.record_sha256@, "record_sha256"@), chain_fault(r, m)),
            ),
        ),
    )
}

pub open spec fn chain_fault(r: ControlRecord, m: ControlModel) -> Option<ControlFault> {
    if text::opt_text(r.previous_record_sha256) != m.record_sha256 {
        Some(ControlFault::CorruptLog("previous record hash mismatch"@))
    } else if r.record_sha256@ != record_digest(r) {
        Some(ControlFault::CorruptLog("record hash mismatch"@))
    } else {
        binding_fields_fault(r)
    }
}

fn relogged(e: ControlError) -> (r: ControlError)
    ensures
        fault(r) == ControlFault::CorruptLog(fault_text(fault(e))),
{
    ControlError::CorruptLog(e.message())
}

fn corrupt(m: &str) -> (r: ControlError)
    ensures
        fault(r) == ControlFault::CorruptLog(m@),
{
    ControlError::CorruptLog(m.to_owned())
}

fn same_opt(a: &Option<String>, b: &Option<String>) -> (r: bool)
    ensures
        r == (text::opt_text(*a) == text::opt_text(*b)),
{
    match (a, b) {
        (Some(x), Some(y)) => text_eq(x.as_str(), y.as_str()),
        (None, None) => true,
        _ => false,
    }
}

fn validate_binding_fields(record: &ControlRecord) -> (r: Result<(), ControlError>)
    ensures
        check_fault(r) == binding_fields_fault(*record),
{
    match record.target_kind {
        ControlTargetKind::Session => {
            if record.target_session_id.is_some() || record.target_content_sha256.is_some() {
                return Err(corrupt("session record has event-only binding fields"));
            }
            Ok(())
        },
        ControlTargetKind::Event => {
            match &record.target_session_id {
                None => Err(corrupt("event record lacks session binding")),
                Some(session) => {
                    if let Err(e) = validate_safe_id(session.as_str()) {
                        return Err(relogged(e));
                    }
                    let hash = match &record.target_content_sha256 {
                        Some(h) => h.as_str(),
                        None => "",
                    };
                    validate_hash(hash, "target_content_sha256")
                },
            }
        },
    }
}

fn validate_fields(record: &ControlRecord, state: &ControlState) -> (r: Result<(), ControlError>)
    ensures
        check_fault(r) == fields_fault(*record, state.model()),
{
    if let Err(e) = validate_utc_timestamp(
        record.target_created_at.as_str(),
        "target_created_at",
    ) {
        return Err(e);
    }
    if let Err(e) = validate_utc_timestamp(record.timestamp.as_str(), "timestamp") {
        return Err(e);
    }
    if let Err(e) = validate_optional_hash(
        opt_as_str(&record.previous_record_sha256),
        "previous_record_sha256",
    ) {
        return Err(e);
    }
    if let Err(e) = validate_hash(record.record_sha256.as_str(), "record_sha256") {
        return Err(e);
    }
    if !same_opt(&record.previous_record_sha256, &state.record_sha256) {
        return Err(corrupt("previous record hash mismatch"));
    }
    if !text_eq(record.record_sha256.as_str(), record_hash(record).as_str()) {
        return Err(corrupt("record hash mismatch"));
    }
    validate_binding_fields(record)
}

/// Checks a record by itself and against the log before it.
pub fn validate_record(record: &ControlRecord, sequence: u64, state: &ControlState) -> (r: Result<
    (),
    ControlError,
>)
    ensures
        check_fault(r) == record_fault(*record, sequence, state.model()),
{
    if record.version != CONTROL_LOG_VERSION || record.sequence != sequence {
        return Err(corrupt("version or sequence mismatch"));
    }
    if let Err(e) = validate_safe_id(record.target_id.as_str()) {
        return Err(relogged(e));
    }
    validate_fields(record, state)
}

/// What a target is bound to in the sources.
#[derive(Debug, PartialEq, Eq)]
pub struct TargetBinding {
    pub session_id: Option<String>,
    pub content_sha256: Option<String>,
    pub created_at: String,
}

pub open spec fn binding_matches(b: TargetBinding, r: ControlRecord) -> bool {
    &&& text::opt_text(b.session_id) == text::opt_text(r.target_session_id)
    &&& text::opt_text(b.content_sha256) == text::opt_text(r.target_content_sha256)
    &&& b.created_at@ == r.target_created_at@
}

pub open spec fn binding_fault(b: Result<TargetBinding, ControlError>, r: ControlRecord) -> Option<
    ControlFault,
> {
    match b {
        Err(e) => Some(fault(e)),
        Ok(binding) => if binding_matches(binding, r) {
            None
        } else {
            Some(ControlFault::CorruptLog("target binding changed for "@ + r.target_id@))
        },
    }
}

/// Checks that a record is still bound to what its target is now.
pub fn validate_binding(binding: Result<TargetBinding, ControlError>, record: &ControlRecord) -> (r:
    Result<(), ControlError>)
    ensures
        check_fault(r) == binding_fault(binding, *record),
{
    match binding {
        Err(e) => Err(e),
        Ok(b) => {
            if !same_opt(&b.session_id, &record.target_session_id) || !same_opt(
                &b.content_sha256,
                &record.target_content_sha256,
            ) || !text_eq(b.created_at.as_str(), record.target_created_at.as_str()) {
                return Err(
                    ControlError::CorruptLog(
                        two("target binding changed for ", record.target_id.as_str()),
                    ),
                );
            }
            Ok(())
        },
    }
}

/// A segment of the log as it was found: its number, its file, what was read,
/// and what its target is bound to now.
#[derive(Debug)]
pub struct SegmentSource {
    pub sequence: u64,
    pub path: String,
    pub regular: bool,
    pub size: u64,
    pub bytes: Result<Vec<u8>, ControlError>,
    pub record: Result<ControlRecord, String>,
    pub binding: Result<TargetBinding, ControlError>,
}

/// A number with at least `width` digits.
pub open spec fn padded(n: nat, width: nat) -> Seq<char>
    decreases width,
{
    if width == 0 {
        Seq::empty()
    } else {
        padded(n / 10, (width - 1) as nat).push(text::digit(n % 10))
    }
}

/// The file name of a segment.
pub open spec fn segment_file(sequence: u64) -> Seq<char> {
    padded(sequence as nat, 20) + ".json"@
}

pub open spec fn segment_text(path: Seq<char>, what: Seq<char>) -> Seq<char> {
    "segment "@ + path + what
}

/// What is wrong with a segment as a file.
pub open spec fn file_fault(s: SegmentSource, expected: u64) -> Option<ControlFault> {
    if s.sequence != expected {
        Some(
            ControlFault::CorruptLog(
                "expected segment "@ + segment_file(expected) + ", found "@ + segment_file(
                    s.sequence,
                ),
            ),
        )
    } else if !s.regular {
        Some(ControlFault::CorruptLog(segment_text(s.path@, " is not a regular file"@)))
    } else if s.size > MAX_SEGMENT_BYTES {
        Some(ControlFault::CorruptLog(segment_text(s.path@, " is too large"@)))
    } else {
        check_fault(s.bytes)
    }
}

/// The state after a segment, or what is wrong with it.
pub open spec fn segment_replayed(m: ControlModel, s: SegmentSource, expected: u64) -> Result<
    ControlModel,
    ControlFault,
> {
    match file_fault(s, expected) {
        Some(f) => Err(f),
        None => match s.record {
            Err(e) => Err(
                ControlFault::CorruptLog(segment_text(s.path@, " is invalid JSON: "@) + e@),
            ),
            Ok(r) => record_replayed(m, s, r),
        },
    }
}

pub open spec fn record_replayed(m: ControlModel, s: SegmentSource, r: ControlRecord) -> Result<
    ControlModel,
    ControlFault,
> {
    let invalid = record_fault(r, s.sequence, m);
    let unbound = binding_fault(s.binding, r);
    let refused = transition_fault(m, r.action, r.target_kind, r.target_id@);
    if invalid is Some {
        Err(invalid->0)
    } else if s.bytes->Ok_0@ != canonical_bytes(r) {
        Err(ControlFault::CorruptLog(segment_text(s.path@, " is not canonical JSON"@)))
    } else if unbound is Some {
        Err(unbound->0)
    } else if refused is Some {
        Err(ControlFault::CorruptLog(fault_text(refused->0)))
    } else {
        Ok(
            ControlModel {
                sequence: r.sequence,
                record_sha256: Some(r.record_sha256@),
                ..transitioned(m, r.action, r.target_kind, r.target_id@)
            },
        )
    }
}

/// What the first `n` segments of a log amount to.
pub open spec fn replayed(segments: Seq<SegmentSource>, n: int) -> Result<ControlModel, ControlFault>
    decreases n,
{
    if n <= 0 {
        Ok(empty_model())
    } else {
        match replayed(segments, n - 1) {
            Err(f) => Err(f),
            Ok(m) => segment_replayed(m, segments[n - 1], n as u64),
        }
    }
}

fn push_padded(out: &mut String, n: u64, width: u8)
    ensures
        final(out)@ == old(out)@ + padded(n as nat, width as nat),
    decreases width,
{
    if width > 0 {
        push_padded(out, n / 10, width - 1);
        let d: u8 = (n % 10) as u8;
        out.push((48 + d) as char);
        proof {
            assert(text::digit((n % 10) as nat) == (48 + d) as char);
        }
    }
    assert(out@ =~= old(out)@ + padded(n as nat, width as nat));
}

/// The file name of a segment.
pub fn segment_name(sequence: u64) -> (r: String)
    ensures
        r@ == segment_file(sequence),
{
    let mut out = String::new();
    push_padded(&mut out, sequence, 20);
    assert(out@ =~= padded(sequence as nat, 20));
    out.append(".json");
    out
}

fn segment_message(path: &str, what: &str) -> (r: String)
    ensures
        r@ == segment_text(path@, what@),
{
    let mut out = two("segment ", path);
    out.append(what);
    out
}

fn bytes_equal(a: &Vec<u8>, b: &Vec<u8>) -> (r: bool)
    ensures
        r == (a@ == b@),
{
    if a.len() != b.len() {
        return false;
    }
    let mut i: usize = 0;
    while i < a.len()
        invariant
            i <= a@.len(),
            a@.len() == b@.len(),
            forall|k: int| 0 <= k < i ==> a@[k] == b@[k],
        decreases a.len() - i,
    {
        if a[i] != b[i] {
            assert(a@[i as int] != b@[i as int]);
            return false;
        }
        i += 1;
    }
    assert(a@ =~= b@);
    true
}

/// Takes one segment into the state; a refused segment leaves it unspecified.
fn replay_segment(state: &mut ControlState, segment: SegmentSource, expected: u64) -> (r: Result<
    (),
    ControlError,
>)
    requires
        old(state).wf(),
    ensures
        final(state).wf(),
        match segment_replayed(old(state).model(), segment, expected) {
            Ok(m) => r is Ok && final(state).model() == m,
            Err(f) => check_fault(r) == Some(f),
        },
{
    if segment.sequence != expected {
        let mut message = two("expected segment ", segment_name(expected).as_str());
        message.append(", found ");
        message.append(segment_name(segment.sequence).as_str());
        return Err(ControlError::CorruptLog(message));
    }
    let path = segment.path;
    if !segment.regular {
        return Err(
            ControlError::CorruptLog(segment_message(path.as_str(), " is not a regular file")),
        );
    }
    if segment.size > MAX_SEGMENT_BYTES {
        return Err(ControlError::CorruptLog(segment_message(path.as_str(), " is too large")));
    }
    let bytes = match segment.bytes {
        Ok(bytes) => bytes,
        Err(e) => {
            return Err(e);
        },
    };
    let record = match segment.record {
        Ok(record) => record,
        Err(e) => {
            let mut message = segment_message(path.as_str(), " is invalid JSON: ");
            message.append(e.as_str());
            return Err(ControlError::CorruptLog(message));
        },
    };
    if let Err(e) = validate_record(&record, segment.sequence, state) {
        return Err(e);
    }
    if !bytes_equal(&bytes, &canonical_record_bytes(&record)) {
        return Err(
            ControlError::CorruptLog(segment_message(path.as_str(), " is not canonical JSON")),
        );
    }
    if let Err(e) = validate_binding(segment.binding, &record) {
        return Err(e);
    }
    if let Err(e) = apply_transition(
        state,
        record.action,
        record.target_kind,
        record.target_id.as_str(),
    ) {
        return Err(relogged(e));
    }
    state.sequence = record.sequence;
    state.record_sha256 = Some(record.record_sha256);
    Ok(())
}

/// Replays a log from its segments in order.
pub fn replay(segments: Vec<SegmentSource>) -> (r: Result<ControlState, ControlError>)
    ensures
        match replayed(segments@, segments@.len() as int) {
            Ok(m) => r is Ok && r->Ok_0.wf() && r->Ok_0.model() == m,
            Err(f) => check_fault(r) == Some(f),
        },
{
    let ghost all = segments@;
    let mut rest = segments;
    let mut state = ControlState::default();
    let mut i: u64 = 0;
    let total = rest.len();
    while rest.len() > 0
        invariant
            all == segments@,
            total == all.len(),
            i + rest@.len() == all.len(),
            rest@ == all.skip(i as int),
            state.wf(),
            replayed(all, i as int) == Ok::<ControlModel, ControlFault>(state.model()),
        decreases rest.len(),
    {
        let ghost before = rest@;
        let segment = rest.remove(0);
        proof {
            assert(segment == all[i as int]);
            assert(rest@ =~= all.skip(i + 1));
            replay_fails_early(all, i + 1, all.len() as int);
        }
        if let Err(e) = replay_segment(&mut state, segment, i + 1) {
            return Err(e);
        }
        i += 1;
    }
    Ok(state)
}

proof fn replay_fails_early(segments: Seq<SegmentSource>, k: int, n: int)
    requires
        0 <= k <= n,
    ensures
        replayed(segments, k) is Err ==> replayed(segments, n) == replayed(segments, k),
    decreases n - k,
{
    if k < n {
        replay_fails_early(segments, k, n - 1);
    }
}

/// A log that replays is numbered from one without a gap, and ends with the
/// record that was replayed last.
pub proof fn replayed_logs_are_numbered(segments: Seq<SegmentSource>, n: int)
    requires
        0 < n <= segments.len() <= u64::MAX,
        replayed(segments, n) is Ok,
    ensures
        replayed(segments, n)->Ok_0.sequence == n,
        segments[n - 1].sequence == n,
        segments[n - 1].record is Ok,
        replayed(segments, n)->Ok_0.record_sha256 == Some(
            segments[n - 1].record->Ok_0.record_sha256@,
        ),
{
}

/// What keeps a record from being written: an unsafe target, a transition that
/// is refused, or a record that is too large.
pub open spec fn append_fault(
    m: ControlModel,
    action: ControlAction,
    target: ControlTarget,
    r: ControlRecord,
) -> Option<ControlFault> {
    first_fault(
        safe_id_fault(target.id@),
        first_fault(
            transition_fault(m, action, target.kind, target.id@),
            if canonical_bytes(r).len() > MAX_SEGMENT_BYTES {
                Some(
                    ControlFault::RecordTooLarge {
                        size: canonical_bytes(r).len() as usize,
                        max: MAX_SEGMENT_BYTES,
                    },
                )
            } else {
                None
            },
        ),
    )
}

/// The record that continues a log.
pub open spec fn continues(
    m: ControlModel,
    action: ControlAction,
    target: ControlTarget,
    binding: TargetBinding,
    timestamp: Seq<char>,
    r: ControlRecord,
) -> bool {
    &&& r.version == 1
    &&& r.sequence == m.sequence + 1
    &&& r.action == action
    &&& r.target_kind == target.kind
    &&& r.target_id@ == target.id@
    &&& binding_matches(binding, r)
    &&& r.timestamp@ == timestamp
    &&& text::opt_text(r.previous_record_sha256) == m.record_sha256
    &&& r.record_sha256@ == record_digest(r)
    &&& digest::sha256_shape(r.record_sha256@)
}

/// Composes the record that continues a log, and its bytes. Whether it may be
/// written does not depend on the order in which the reasons are looked at.
pub fn next_record(
    state: &ControlState,
    action: ControlAction,
    target: &ControlTarget,
    binding: &TargetBinding,
    timestamp: &str,
) -> (r: Result<(ControlRecord, Vec<u8>), ControlError>)
    requires
        state.wf(),
        state.sequence < u64::MAX,
    ensures
        match r {
            Ok((record, bytes)) => continues(
                state.model(),
                action,
                *target,
                *binding,
                timestamp@,
                record,
            ) && bytes@ == canonical_bytes(record) && append_fault(
                state.model(),
                action,
                *target,
                record,
            ) is None,
            Err(e) => exists|record: ControlRecord|
                #[trigger] continues(
                    state.model(),
                    action,
                    *target,
                    *binding,
                    timestamp@,
                    record,
                ) && append_fault(state.model(), action, *target, record) == Some(fault(e)),
        },
{
    let mut record = ControlRecord {
        version: CONTROL_LOG_VERSION,
        sequence: state.sequence + 1,
        action,
        target_kind: target.kind,
        target_id: target.id.clone(),
        target_session_id: model::copy_opt(&binding.session_id),
        target_content_sha256: model::copy_opt(&binding.content_sha256),
        target_created_at: binding.created_at.clone(),
        timestamp: timestamp.to_owned(),
        previous_record_sha256: model::copy_opt(&state.record_sha256),
        record_sha256: String::new(),
    };
    let ghost blank = record;
    record.record_sha256 = record_hash(&record);
    assert(payload_members(record) =~= payload_members(blank));
    assert(continues(state.model(), action, *target, *binding, timestamp@, record));
    if let Err(e) = validate_safe_id(target.id.as_str()) {
        return Err(e);
    }
    let mut trial = ControlState {
        sessions: copy_list(&state.sessions),
        events: copy_list(&state.events),
        sequence: state.sequence,
        record_sha256: model::copy_opt(&state.record_sha256),
    };
    assert(trial.model().sessions =~= state.model().sessions);
    assert(trial.model().events =~= state.model().events);
    if let Err(e) = apply_transition(&mut trial, action, target.kind, target.id.as_str()) {
        return Err(e);
    }
    let bytes = canonical_record_bytes(&record);
    let size = bytes.len();
    if size as u64 > MAX_SEGMENT_BYTES {
        return Err(ControlError::RecordTooLarge { size, max: MAX_SEGMENT_BYTES });
    }
    Ok((record, bytes))
}

/// A binding whose timestamp and digest the log accepts.
pub open spec fn binding_sound(b: TargetBinding, kind: ControlTargetKind) -> bool {
    &&& timestamp_defect(moment::rfc3339_offset(b.created_at@)) is None
    &&& match kind {
        ControlTargetKind::Session => b.session_id is None && b.content_sha256 is None,
        ControlTargetKind::Event => b.session_id is Some && safe_id(b.session_id->0@)
            && b.content_sha256 is Some && digest::sha256_shape(b.content_sha256->0@),
    }
}

/// A record that was written is replayed: the next segment, read back as it was
/// written and bound to the same target, leads to the state that the transition
/// leads to.
pub proof fn written_records_replay(
    m: ControlModel,
    action: ControlAction,
    target: ControlTarget,
    binding: TargetBinding,
    timestamp: Seq<char>,
    r: ControlRecord,
    s: SegmentSource,
)
    requires
        m.sequence < u64::MAX,
        m.record_sha256 matches Some(h) ==> digest::sha256_shape(h),
        binding_sound(binding, target.kind),
        timestamp_defect(moment::rfc3339_offset(timestamp)) is None,
        continues(m, action, target, binding, timestamp, r),
        append_fault(m, action, target, r) is None,
        s.sequence == r.sequence,
        s.regular,
        s.size == canonical_bytes(r).len(),
        s.bytes is Ok && s.bytes->Ok_0@ == canonical_bytes(r),
        s.record == Ok::<ControlRecord, String>(r),
        s.binding == Ok::<TargetBinding, ControlError>(binding),
    ensures
        segment_replayed(m, s, (m.sequence + 1) as u64) == Ok::<ControlModel, ControlFault>(
            ControlModel {
                sequence: (m.sequence + 1) as u64,
                record_sha256: Some(r.record_sha256@),
                ..transitioned(m, action, target.kind, target.id@)
            },
        ),
{
    assert(file_fault(s, (m.sequence + 1) as u64) is None);
    assert(binding_fields_fault(r) is None);
    assert(record_fault(r, s.sequence, m) is None);
}

/// The value of a run of decimal digits.
pub open spec fn digits_value(s: Seq<char>) -> nat
    decreases s.len(),
{
    if s.len() == 0 {
        0
    } else {
        digits_value(s.drop_last()) * 10 + (s.last() as u32 - 48) as nat
    }
}

pub open spec fn is_digit(c: char) -> bool {
    0x30 <= c as u32 <= 0x39
}

pub open spec fn all_digits(s: Seq<char>) -> bool {
    forall|i: int| 0 <= i < s.len() ==> is_digit(#[trigger] s[i])
}

/// A file name in the shape of a segment's.
pub open spec fn segment_shape(name: Seq<char>) -> bool {
    name.len() == 25 && text::has_suffix(name, ".json"@) && all_digits(name.take(20))
}

/// The number of a segment by its file name, or what is wrong with the name.
pub open spec fn segment_number(name: Seq<char>) -> Result<u64, ControlFault> {
    if !segment_shape(name) {
        Err(ControlFault::CorruptLog("unexpected control-log file "@ + name))
    } else if digits_value(name.take(20)) > u64::MAX {
        Err(ControlFault::CorruptLog("invalid segment filename "@ + name))
    } else {
        Ok(digits_value(name.take(20)) as u64)
    }
}

fn digits_number(chars: &Vec<char>, n: usize) -> (r: Option<u64>)
    requires
        n <= chars@.len(),
        all_digits(chars@.take(n as int)),
    ensures
        match r {
            Some(v) => digits_value(chars@.take(n as int)) == v,
            None => digits_value(chars@.take(n as int)) > u64::MAX,
        },
{
    let ghost all = chars@.take(n as int);
    let mut v: u64 = 0;
    let mut i: usize = 0;
    assert(all.take(0) =~= Seq::empty());
    while i < n
        invariant
            i <= n <= chars@.len(),
            all == chars@.take(n as int),
            all_digits(all),
            v == digits_value(all.take(i as int)),
        decreases n - i,
    {
        proof {
            assert(all.take(i + 1).drop_last() =~= all.take(i as int));
            assert(all.take(i + 1).last() == all[i as int]);
            assert(is_digit(all[i as int]));
        }
        let d: u64 = (chars[i] as u32 - 48) as u64;
        if v > (u64::MAX - d) / 10 {
            proof {
                digits_value_grows(all, i + 1);
                assert(v * 10 + d > u64::MAX);
                assert(all.take(n as int) =~= all);
            }
            return None;
        }
        v = v * 10 + d;
        i += 1;
    }
    assert(all.take(n as int) =~= all);
    Some(v)
}

proof fn digits_value_grows(s: Seq<char>, n: int)
    requires
        0 <= n <= s.len(),
        all_digits(s),
    ensures
        digits_value(s.take(n)) <= digits_value(s),
    decreases s.len() - n,
{
    if n < s.len() {
        digits_value_grows(s, n + 1);
        assert(s.take(n + 1).drop_last() =~= s.take(n));
        assert(s.take(n + 1).last() == s[n]);
        assert(is_digit(s[n]));
    } else {
        assert(s.take(n) =~= s);
    }
}

fn digits_up_to(chars: &Vec<char>, n: usize) -> (r: bool)
    requires
        n <= chars@.len(),
    ensures
        r == all_digits(chars@.take(n as int)),
{
    let mut i: usize = 0;
    while i < n
        invariant
            i <= n <= chars@.len(),
            forall|k: int| 0 <= k < i ==> is_digit(#[trigger] chars@.take(n as int)[k]),
        decreases n - i,
    {
        let c: u32 = chars[i] as u32;
        assert(chars@.take(n as int)[i as int] == chars@[i as int]);
        if c < 0x30 || c > 0x39 {
            return false;
        }
        i += 1;
    }
    true
}

/// Reads the number of a segment off its file name.
pub fn parse_segment_name(name: &str) -> (r: Result<u64, ControlError>)
    ensures
        match r {
            Ok(n) => segment_number(name@) == Ok::<u64, ControlFault>(n),
            Err(e) => segment_number(name@) == Err::<u64, ControlFault>(fault(e)),
        },
{
    let chars = chars_of(name);
    if chars.len() != 25 || !ends_with(name, ".json") || !digits_up_to(&chars, 20) {
        return Err(ControlError::CorruptLog(two("unexpected control-log file ", name)));
    }
    match digits_number(&chars, 20) {
        Some(n) => Ok(n),
        None => Err(ControlError::CorruptLog(two("invalid segment filename ", name))),
    }
}

pub open spec fn power_of_ten(n: nat) -> nat
    decreases n,
{
    if n == 0 {
        1
    } else {
        10 * power_of_ten((n - 1) as nat)
    }
}

proof fn padded_reads_back(n: nat, width: nat)
    requires
        n < power_of_ten(width),
    ensures
        padded(n, width).len() == width,
        all_digits(padded(n, width)),
        digits_value(padded(n, width)) == n,
    decreases width,
{
    if width > 0 {
        let w = (width - 1) as nat;
        padded_reads_back(n / 10, w);
        let s = padded(n, width);
        assert(s.drop_last() =~= padded(n / 10, w));
        assert(s.last() == text::digit(n % 10));
        assert forall|i: int| 0 <= i < s.len() implies is_digit(#[trigger] s[i]) by {
            if i < w {
                assert(s[i] == padded(n / 10, w)[i]);
            }
        }
    }
}

/// Every segment is found again by its file name.
pub proof fn segment_names_read_back(sequence: u64)
    ensures
        segment_number(segment_file(sequence)) == Ok::<u64, ControlFault>(sequence),
{
    assert(power_of_ten(20) == 100_000_000_000_000_000_000) by {
        reveal_with_fuel(power_of_ten, 21);
    }
    padded_reads_back(sequence as nat, 20);
    reveal_strlit(".json");
    let name = segment_file(sequence);
    assert(name.take(20) =~= padded(sequence as nat, 20));
    assert(name.skip(20) =~= ".json"@);
}

/// A file left behind by an append that did not finish.
pub open spec fn stale_temp_shape(name: Seq<char>) -> bool {
    name.len() == 45 && text::has_prefix(name, ".control-"@) && text::has_suffix(name, ".tmp"@)
        && forall|i: int| 9 <= i < 41 ==> digest::lower_hex(#[trigger] name[i])
}

pub fn is_stale_temp_name(name: &str) -> (r: bool)
    ensures
        r == stale_temp_shape(name@),
{
    let chars = chars_of(name);
    if chars.len() != 45 || !starts_with(name, ".control-") || !ends_with(name, ".tmp") {
        return false;
    }
    let mut i: usize = 9;
    while i < 41
        invariant
            9 <= i <= 41,
            chars@ == name@,
            chars@.len() == 45,
            forall|k: int| 9 <= k < i ==> digest::lower_hex(#[trigger] name@[k]),
        decreases 41 - i,
    {
        if !is_lower_hex(chars[i]) {
            assert(!digest::lower_hex(name@[i as int]));
            return false;
        }
        i += 1;
    }
    true
}

/// An entry of the log's directory; without a name when that is no UTF-8.
#[derive(Debug)]
pub struct DirectoryEntry {
    pub name: Option<String>,
    pub regular: bool,
}

/// What is wrong with an entry, if anything.
pub open spec fn entry_fault(e: DirectoryEntry) -> Option<ControlFault> {
    match e.name {
        None => Some(ControlFault::CorruptLog("non-UTF-8 segment filename"@)),
        Some(name) => if stale_temp_shape(name@) {
            if e.regular {
                None
            } else {
                Some(
                    ControlFault::CorruptLog(
                        "stale temporary entry "@ + name@ + " is not a regular file"@,
                    ),
                )
            }
        } else {
            match segment_number(name@) {
                Err(f) => Some(f),
                Ok(_) => if e.regular {
                    None
                } else {
                    Some(ControlFault::CorruptLog("unexpected entry "@ + name@))
                },
            }
        },
    }
}

/// The first fault among the entries, from `i` on.
pub open spec fn entries_fault(v: Seq<DirectoryEntry>, i: int) -> Option<ControlFault>
    decreases v.len() - i,
{
    if i < 0 || i >= v.len() {
        None
    } else {
        first_fault(entry_fault(v[i]), entries_fault(v, i + 1))
    }
}

/// The segments among the first `n` entries, each with its number and position.
pub open spec fn segments_listed(v: Seq<DirectoryEntry>, n: int) -> Seq<(u64, usize)>
    decreases n,
{
    if n <= 0 {
        Seq::empty()
    } else {
        let rest = segments_listed(v, n - 1);
        let name = v[n - 1].name->0@;
        if stale_temp_shape(name) {
            rest
        } else {
            rest.push((segment_number(name)->Ok_0, (n - 1) as usize))
        }
    }
}

pub open spec fn numbers_ascend(v: Seq<(u64, usize)>) -> bool {
    forall|i: int, j: int| 0 <= i < j < v.len() ==> (#[trigger] v[i]).0 <= (#[trigger] v[j]).0
}

/// Puts a segment at its place in an ascending list.
fn insert_segment(v: &mut Vec<(u64, usize)>, entry: (u64, usize))
    requires
        numbers_ascend(old(v)@),
    ensures
        numbers_ascend(final(v)@),
        final(v)@.to_multiset() == old(v)@.to_multiset().insert(entry),
{
    let ghost before = v@;
    let mut p: usize = v.len();
    while p > 0 && v[p - 1].0 > entry.0
        invariant
            p <= v@.len(),
            v@ == before,
            numbers_ascend(before),
            forall|k: int| p <= k < v@.len() ==> (#[trigger] v@[k]).0 > entry.0,
        decreases p,
    {
        p -= 1;
    }
    v.insert(p, entry);
    proof {
        let after = v@;
        assert(after =~= before.insert(p as int, entry));
        before.to_multiset_ensures();
        vstd::seq_lib::to_multiset_insert(before, p as int, entry);
        assert forall|i: int, j: int| 0 <= i < j < after.len() implies (#[trigger] after[i]).0
            <= (#[trigger] after[j]).0 by {
            let a = if i < p {
                i
            } else {
                i - 1
            };
            let b = if j < p {
                j
            } else {
                j - 1
            };
            if i != p && j != p {
                assert(before[a].0 <= before[b].0);
            } else if i == p {
                assert(before[b].0 > entry.0);
            } else if p > 0 {
                assert(before[p - 1].0 <= entry.0);
                if a < p - 1 {
                    assert(before[a].0 <= before[p - 1].0);
                }
            }
        }
    }
}

/// Lists the segments of a log's directory in ascending order.
pub fn list_segments(entries: &Vec<DirectoryEntry>) -> (r: Result<Vec<(u64, usize)>, ControlError>)
    ensures
        check_fault(r) == entries_fault(entries@, 0),
        r matches Ok(v) ==> numbers_ascend(v@) && v@.to_multiset() == segments_listed(
            entries@,
            entries@.len() as int,
        ).to_multiset(),
{
    let mut out: Vec<(u64, usize)> = Vec::new();
    let mut i: usize = 0;
    while i < entries.len()
        invariant
            i <= entries@.len(),
            entries_fault(entries@, 0) == entries_fault(entries@, i as int),
            numbers_ascend(out@),
            out@.to_multiset() == segments_listed(entries@, i as int).to_multiset(),
        decreases entries.len() - i,
    {
        let name = match &entries[i].name {
            Some(name) => name.as_str(),
            None => {
                return Err(corrupt("non-UTF-8 segment filename"));
            },
        };
        if is_stale_temp_name(name) {
            if !entries[i].regular {
                let mut message = two("stale temporary entry ", name);
                message.append(" is not a regular file");
                return Err(ControlError::CorruptLog(message));
            }
        } else {
            match parse_segment_name(name) {
                Err(e) => {
                    return Err(e);
                },
                Ok(n) => {
                    if !entries[i].regular {
                        return Err(ControlError::CorruptLog(two("unexpected entry ", name)));
                    }
                    insert_segment(&mut out, (n, i));
                    proof {
                        let rest = segments_listed(entries@, i as int);
                        rest.to_multiset_ensures();
                        assert(rest.push((n, i)).to_multiset() =~= rest.to_multiset().insert(
                            (n, i),
                        ));
                    }
                },
            }
        }
        i += 1;
    }
    Ok(out)
}

/// An event of a session, as far as controls look at it.
#[derive(Debug)]
pub struct ControlEvent {
    pub session_id: String,
    pub role: EventRole,
    pub turn_status: Option<TurnStatus>,
    pub created_at: String,
    pub content_sha256: String,
}

/// What keeps an event from being controlled.
pub open spec fn event_fault(id: Seq<char>, matched: Seq<ControlEvent>) -> Option<ControlFault> {
    if matched.len() != 1 {
        Some(
            ControlFault::InvalidTarget(
                "event "@ + id + " matched "@ + text::decimal(matched.len()) + " raw sources"@,
            ),
        )
    } else {
        let e = matched[0];
        if e.role == EventRole::System {
            Some(ControlFault::InvalidTarget("system events cannot be controlled"@))
        } else if e.turn_status == Some(TurnStatus::Pending) {
            Some(ControlFault::InvalidTarget("pending events cannot be controlled"@))
        } else {
            first_fault(
                timestamp_fault(e.created_at@, "event created_at"@),
                hash_fault(e.content_sha256@, "event content_sha256"@),
            )
        }
    }
}

/// Binds an event that matched exactly one source.
pub fn resolve_event(id: &str, matched: &Vec<ControlEvent>) -> (r: Result<
    TargetBinding,
    ControlError,
>)
    ensures
        check_fault(r) == event_fault(id@, matched@),
        r matches Ok(b) ==> text::opt_text(b.session_id) == Some(matched@[0].session_id@)
            && text::opt_text(b.content_sha256) == Some(matched@[0].content_sha256@)
            && b.created_at@ == matched@[0].created_at@,
{
    if matched.len() != 1 {
        let mut message = two("event ", id);
        message.append(" matched ");
        push_decimal(&mut message, matched.len() as u64);
        message.append(" raw sources");
        return Err(ControlError::InvalidTarget(message));
    }
    let e = &matched[0];
    if e.role == EventRole::System {
        return Err(ControlError::InvalidTarget("system events cannot be controlled".to_owned()));
    }
    let pending = match e.turn_status {
        Some(status) => status == TurnStatus::Pending,
        None => false,
    };
    if pending {
        return Err(ControlError::InvalidTarget("pending events cannot be controlled".to_owned()));
    }
    if let Err(error) = validate_utc_timestamp(e.created_at.as_str(), "event created_at") {
        return Err(error);
    }
    if let Err(error) = validate_hash(e.content_sha256.as_str(), "event content_sha256") {
        return Err(error);
    }
    Ok(
        TargetBinding {
            session_id: Some(e.session_id.clone()),
            content_sha256: Some(e.content_sha256.clone()),
            created_at: e.created_at.clone(),
        },
    )
}

/// Binds a session.
pub fn resolve_session(session: &Session) -> (r: Result<TargetBinding, ControlError>)
    ensures
        check_fault(r) == timestamp_fault(session.created_at@, "session created_at"@),
        r matches Ok(b) ==> b.session_id is None && b.content_sha256 is None && b.created_at@
            == session.created_at@,
{
    if let Err(error) = validate_utc_timestamp(session.created_at.as_str(), "session created_at") {
        return Err(error);
    }
    Ok(
        TargetBinding {
            session_id: None,
            content_sha256: None,
            created_at: session.created_at.clone(),
        },
    )
}

/// Checks that a session read from a file is sound and the one that was asked
/// for.
pub fn check_exact_session(id: &str, path: &str, session: &Session) -> (r: Result<
    (),
    ControlError,
>)
    ensures
        check_fault(r) == match session_defect(*session) {
            Some(message) => Some(ControlFault::CorruptSource { path: path@, message }),
            None => if session.id@ != id@ {
                Some(
                    ControlFault::CorruptSource {
                        path: path@,
                        message: "source filename and session id differ"@,
                    },
                )
            } else {
                None
            },
        },
{
    if let Err(message) = validate_source_timestamps(session) {
        return Err(ControlError::CorruptSource { path: path.to_owned(), message });
    }
    if !text_eq(session.id.as_str(), id) {
        return Err(
            ControlError::CorruptSource {
                path: path.to_owned(),
                message: "source filename and session id differ".to_owned(),
            },
        );
    }
    Ok(())
}

/// What stands at a path, links not followed.
#[derive(Clone, Copy, Debug, PartialEq, Eq, Structural)]
pub enum FoundPath {
    Nothing,
    File,
    Directory,
    Other,
}

/// What keeps the file of a session from being read.
pub open spec fn session_file_fault(id: Seq<char>, found: FoundPath) -> Option<ControlFault> {
    first_fault(
        safe_id_fault(id),
        match found {
            FoundPath::File => None,
            FoundPath::Nothing => Some(
                ControlFault::InvalidTarget("session "@ + id + " does not exist"@),
            ),
            _ => Some(
                ControlFault::InvalidTarget(
                    "session "@ + id + " is not a regular source file"@,
                ),
            ),
        },
    )
}

/// Checks that the file of a session can be read.
pub fn check_session_file(id: &str, found: FoundPath) -> (r: Result<(), ControlError>)
    ensures
        check_fault(r) == session_file_fault(id@, found),
{
    if let Err(error) = validate_safe_id(id) {
        return Err(error);
    }
    let mut message = two("session ", id);
    match found {
        FoundPath::File => Ok(()),
        FoundPath::Nothing => {
            message.append(" does not exist");
            Err(ControlError::InvalidTarget(message))
        },
        _ => {
            message.append(" is not a regular source file");
            Err(ControlError::InvalidTarget(message))
        },
    }
}

/// What follows when a record was to be put at the end of the log.
#[derive(Clone, Copy, Debug, PartialEq, Eq, Structural)]
pub enum AppendStep {
    Done,
    Again,
    GiveUp,
}

/// Decides what follows the attempt with this number, the first being 0, when the
/// place at the end of the log was or was not taken by someone else.
pub fn after_append(attempt: usize, taken: bool) -> (r: AppendStep)
    requires
        attempt < MAX_APPEND_ATTEMPTS,
    ensures
        r == (if !taken {
            AppendStep::Done
        } else if attempt + 1 < MAX_APPEND_ATTEMPTS {
            AppendStep::Again
        } else {
            AppendStep::GiveUp
        }),
{
    if !taken {
        AppendStep::Done
    } else if attempt + 1 < MAX_APPEND_ATTEMPTS {
        AppendStep::Again
    } else {
        AppendStep::GiveUp
    }
}

/// The error of an append that was given up.
pub fn append_given_up() -> (r: ControlError)
    ensures
        fault(r) == ControlFault::InvalidTransition(
            "control log changed too often while appending"@,
        ),
{
    ControlError::InvalidTransition("control log changed too often while appending".to_owned())
}

/// Where a control log is kept.
#[derive(Clone, Debug, PartialEq, Eq)]
pub struct ControlLog {
    pub root: String,
    pub directory: String,
}

impl ControlLog {
    pub fn new(root: &str) -> (r: Self)
        ensures
            r.root@ == root@,
            r.directory@ == config::joined_path(root@, ".hippocampus-control"@),
    {
        ControlLog { root: root.to_owned(), directory: join_path(root, ".hippocampus-control") }
    }

    pub fn directory(&self) -> (r: &str)
        ensures
            r@ == self.directory@,
    {
        self.directory.as_str()
    }

    /// Whether there is a log to replay: what stands in its place must be a
    /// directory.
    pub fn is_present(&self, found: FoundPath) -> (r: Result<bool, ControlError>)
        ensures
            check_fault(r) == if found == FoundPath::File || found == FoundPath::Other {
                Some(ControlFault::CorruptLog(self.directory@ + " is not a real directory"@))
            } else {
                None
            },
            r matches Ok(b) ==> b == (found == FoundPath::Directory),
    {
        match found {
            FoundPath::Directory => Ok(true),
            FoundPath::Nothing => Ok(false),
            _ => Err(
                ControlError::CorruptLog(
                    two(self.directory.as_str(), " is not a real directory"),
                ),
            ),
        }
    }
}

/// The end of a log determines its generation: two ends with the same bytes are
/// the same end.
pub proof fn generations_tell_ends_apart(
    a: u64,
    ra: Option<Seq<char>>,
    b: u64,
    rb: Option<Seq<char>>,
)
    requires
        ra matches Some(h) ==> digest::sha256_shape(h),
        rb matches Some(h) ==> digest::sha256_shape(h),
        generation_bytes(a, ra) == generation_bytes(b, rb),
    ensures
        a == b,
        ra == rb,
{
    let head = encode_utf8("hippocampus-control-generation-v1\0"@);
    let x = generation_bytes(a, ra);
    let y = generation_bytes(b, rb);
    let n = head.len() as int;
    digest::be_bytes_len(a as nat, 8);
    digest::be_bytes_len(b as nat, 8);
    assert(x.subrange(n, n + 8) =~= digest::be_bytes(a as nat, 8));
    assert(y.subrange(n, n + 8) =~= digest::be_bytes(b as nat, 8));
    digest::eight_bytes_range();
    digest::be_bytes_injective(a as nat, b as nat, 8);
    let tx = match ra {
        Some(h) => encode_utf8(h),
        None => Seq::<u8>::empty(),
    };
    let ty = match rb {
        Some(h) => encode_utf8(h),
        None => Seq::<u8>::empty(),
    };
    assert(x.skip(n + 8) =~= tx);
    assert(y.skip(n + 8) =~= ty);
    match (ra, rb) {
        (Some(h), Some(g)) => {
            encode_utf8_decode_utf8(h);
            encode_utf8_decode_utf8(g);
        },
        (Some(h), None) => {
            encode_utf8_decode_utf8(h);
            encode_utf8_decode_utf8(Seq::<char>::empty());
            assert(encode_utf8(Seq::<char>::empty()) =~= Seq::<u8>::empty());
        },
        (None, Some(g)) => {
            encode_utf8_decode_utf8(g);
            encode_utf8_decode_utf8(Seq::<char>::empty());
            assert(encode_utf8(Seq::<char>::empty()) =~= Seq::<u8>::empty());
        },
        _ => {},
    }
}

/// A transition changes what is allowed of its target and of nothing else.
/// Excluding a session takes away all of its events, excluding an event only that
/// one; restoring gives back what nothing else excludes.
pub proof fn transitions_concern_their_target(
    m: ControlModel,
    kind: ControlTargetKind,
    id: Seq<char>,
    session: Seq<char>,
    event: Seq<char>,
)
    ensures
        event_allowed(
            transitioned(m, ControlAction::Exclude, ControlTargetKind::Session, id),
            session,
            event,
        ) <==> event_allowed(m, session, event) && session != id,
        event_allowed(
            transitioned(m, ControlAction::Exclude, ControlTargetKind::Event, id),
            session,
            event,
        ) <==> event_allowed(m, session, event) && event != id,
        event_allowed(
            transitioned(m, ControlAction::Restore, ControlTargetKind::Session, id),
            session,
            event,
        ) <==> !m.events.contains(event) && (session == id || !m.sessions.contains(session)),
        event_allowed(
            transitioned(m, ControlAction::Restore, ControlTargetKind::Event, id),
            session,
            event,
        ) <==> !m.sessions.contains(session) && (event == id || !m.events.contains(event)),
        event_allowed(m, session, event) <==> !m.sessions.contains(session) && !m.events.contains(
            event,
        ),
        transition_fault(m, ControlAction::Exclude, kind, id) is None <==> transition_fault(
            m,
            ControlAction::Restore,
            kind,
            id,
        ) is Some,
        transition_fault(m, ControlAction::Exclude, ControlTargetKind::Session, id) is None
            <==> !m.sessions.contains(id),
        transition_fault(m, ControlAction::Exclude, ControlTargetKind::Event, id) is None
            <==> !m.events.contains(id),
{
}

/// A turn is allowed exactly where neither its session, nor its question, nor its
/// answer is excluded.
pub proof fn turns_are_allowed_as_a_whole(m: ControlModel, session: Seq<char>, turn: Seq<char>)
    ensures
        turn_allowed(m, session, turn) <==> !m.sessions.contains(session) && !m.events.contains(
            model::event_id_text(session, Some(turn), EventRole::User),
        ) && !m.events.contains(
            model::event_id_text(session, Some(turn), EventRole::Assistant),
        ),
{
}

/// A safe name can be a file name: it is not empty, begins with a letter or digit,
/// and holds no separator and no white space.
pub proof fn safe_names_are_plain(s: Seq<char>)
    ensures
        safe_id_fault(s) is None <==> safe_id(s),
        safe_id(s) ==> s.len() > 0 && s[0] != '.' && s[0] != '-',
        safe_id(s) ==> forall|i: int|
            0 <= i < s.len() ==> #[trigger] s[i] != '/' && s[i] != '\\' && s[i] != '\0' && !text::white_space(
                s[i],
            ) && (s[i] as u32) < 128,
{
    if safe_id(s) {
        assert forall|i: int| 0 <= i < s.len() implies #[trigger] s[i] != '/' && s[i] != '\\' && s[i]
            != '\0' && !text::white_space(s[i]) && (s[i] as u32) < 128 by {
            assert(config::id_char(s[i]));
        }
    }
}

proof fn turns_without_defect(turns: Seq<model::Turn>, i: int)
    requires
        0 <= i,
    ensures
        turns_defect(turns, i) is None <==> forall|k: int|
            i <= k < turns.len() ==> turn_defect(#[trigger] turns[k]) is None,
    decreases turns.len() - i,
{
    if i < turns.len() {
        turns_without_defect(turns, i + 1);
        assert(turn_defect(turns[i]) is None || turns[i] == turns[i]);
    }
}

/// A time of the log or of a session that can be read and is in UTC.
pub open spec fn in_utc(s: Seq<char>) -> bool {
    moment::rfc3339_offset(s) == Some(0i32)
}

/// The times of a session are accepted exactly where every one of them can be
/// read and is in UTC.
pub proof fn accepted_times_are_in_utc(s: Session)
    ensures
        session_defect(s) is None <==> in_utc(s.created_at@) && in_utc(s.updated_at@) && forall|
            k: int,
        |
            0 <= k < s.turns@.len() ==> in_utc((#[trigger] s.turns@[k]).created_at@) && in_utc(
                s.turns@[k].updated_at@,
            ) && (s.turns@[k].request_started_at matches Some(t) ==> in_utc(t@)),
{
    turns_without_defect(s.turns@, 0);
    assert forall|k: int| 0 <= k < s.turns@.len() implies (turn_defect(#[trigger] s.turns@[k]) is None
        <==> in_utc(s.turns@[k].created_at@) && in_utc(s.turns@[k].updated_at@) && (
    s.turns@[k].request_started_at matches Some(t) ==> in_utc(t@))) by {}
}

} // verus!
