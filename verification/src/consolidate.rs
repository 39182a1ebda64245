//! The consolidation of a session into derived memory: batches of events are
//! sent to a model one by one, and every attempt is recorded or applied.

use vstd::prelude::*;
use vstd::string::*;

use crate::digest::{self, content_sha256};
use crate::json::{self, json_number, json_text, parse_json, render, Json, JsonObject};
use crate::text::{self, push_decimal};

verus! {

#[derive(Clone, Copy, Debug, PartialEq, Eq, Structural)]
pub enum ConsolidationTrigger {
    Manual,
    TuiExit,
    TuiIdleCtrlC,
}

#[derive(Clone, Copy, Debug, PartialEq, Eq, Structural)]
pub enum ConsolidationRunStatus {
    Disabled,
    UpToDate,
    Completed,
    Partial,
    Failed,
    Cancelled,
}

#[derive(Clone, Copy, Debug, PartialEq, Eq, Structural)]
pub enum ConsolidationAttemptStatus {
    Applied,
    Rejected,
    ModelError,
    Cancelled,
}

pub open spec fn trigger_text(t: ConsolidationTrigger) -> Seq<char> {
    match t {
        ConsolidationTrigger::Manual => "manual"@,
        ConsolidationTrigger::TuiExit => "tui_exit"@,
        ConsolidationTrigger::TuiIdleCtrlC => "tui_idle_ctrl_c"@,
    }
}

impl ConsolidationTrigger {
    pub fn as_str(&self) -> (r: &'static str)
        ensures
            r@ == trigger_text(*self),
    {
        match self {
            ConsolidationTrigger::Manual => "manual",
            ConsolidationTrigger::TuiExit => "tui_exit",
            ConsolidationTrigger::TuiIdleCtrlC => "tui_idle_ctrl_c",
        }
    }
}

pub open spec fn run_status_text(s: ConsolidationRunStatus) -> Seq<char> {
    match s {
        ConsolidationRunStatus::Disabled => "disabled"@,
        ConsolidationRunStatus::UpToDate => "up_to_date"@,
        ConsolidationRunStatus::Completed => "completed"@,
        ConsolidationRunStatus::Partial => "partial"@,
        ConsolidationRunStatus::Failed => "failed"@,
        ConsolidationRunStatus::Cancelled => "cancelled"@,
    }
}

impl ConsolidationRunStatus {
    pub fn as_str(&self) -> (r: &'static str)
        ensures
            r@ == run_status_text(*self),
    {
        match self {
            ConsolidationRunStatus::Disabled => "disabled",
            ConsolidationRunStatus::UpToDate => "up_to_date",
            ConsolidationRunStatus::Completed => "completed",
            ConsolidationRunStatus::Partial => "partial",
            ConsolidationRunStatus::Failed => "failed",
            ConsolidationRunStatus::Cancelled => "cancelled",
        }
    }
}

/// How a run of the consolidation of one session went.
#[derive(Debug, PartialEq, Eq)]
pub struct ConsolidationRunReport {
    pub session_id: String,
    pub trigger: ConsolidationTrigger,
    pub model: String,
    pub status: ConsolidationRunStatus,
    pub batches_attempted: usize,
    pub batches_applied: usize,
    pub events_attempted: usize,
    pub events_applied: usize,
    pub entities_attempted: usize,
    pub entities_applied: usize,
    pub claims_attempted: usize,
    pub claims_applied: usize,
    pub boundaries_attempted: usize,
    pub boundaries_applied: usize,
    pub watermark_before: usize,
    pub watermark_after: usize,
    pub warnings: Vec<String>,
}

/// A report in which nothing has happened yet.
pub open spec fn report_of_nothing(
    r: ConsolidationRunReport,
    session_id: Seq<char>,
    trigger: ConsolidationTrigger,
    model: Seq<char>,
    status: ConsolidationRunStatus,
    warnings: Seq<Seq<char>>,
) -> bool {
    &&& r.session_id@ == session_id
    &&& r.trigger == trigger
    &&& r.model@ == model
    &&& r.status == status
    &&& r.batches_attempted == 0
    &&& r.batches_applied == 0
    &&& r.events_attempted == 0
    &&& r.events_applied == 0
    &&& r.entities_attempted == 0
    &&& r.entities_applied == 0
    &&& r.claims_attempted == 0
    &&& r.claims_applied == 0
    &&& r.boundaries_attempted == 0
    &&& r.boundaries_applied == 0
    &&& r.watermark_before == 0
    &&& r.watermark_after == 0
    &&& text::texts(r.warnings@) == warnings
}

/// A report of a run that did nothing.
pub fn synthetic_consolidation_report(
    session_id: &str,
    model: &str,
    trigger: ConsolidationTrigger,
    status: ConsolidationRunStatus,
    warnings: Vec<String>,
) -> (r: ConsolidationRunReport)
    ensures
        report_of_nothing(r, session_id@, trigger, model@, status, text::texts(warnings@)),
{
    ConsolidationRunReport {
        session_id: session_id.to_owned(),
        trigger,
        model: model.to_owned(),
        status,
        batches_attempted: 0,
        batches_applied: 0,
        events_attempted: 0,
        events_applied: 0,
        entities_attempted: 0,
        entities_applied: 0,
        claims_attempted: 0,
        claims_applied: 0,
        boundaries_attempted: 0,
        boundaries_applied: 0,
        watermark_before: 0,
        watermark_after: 0,
        warnings,
    }
}

/// The report that a run starts with: failed until it turns out otherwise.
pub fn consolidation_report(session_id: &str, model: &str, trigger: ConsolidationTrigger) -> (r:
    ConsolidationRunReport)
    ensures
        report_of_nothing(
            r,
            session_id@,
            trigger,
            model@,
            ConsolidationRunStatus::Failed,
            Seq::empty(),
        ),
{
    let none: Vec<String> = Vec::new();
    assert(text::texts(none@) =~= Seq::empty());
    synthetic_consolidation_report(
        session_id,
        model,
        trigger,
        ConsolidationRunStatus::Failed,
        none,
    )
}

/// A failure after something was applied is a partial success.
pub open spec fn failure_status(r: ConsolidationRunReport) -> ConsolidationRunStatus {
    if r.batches_applied == 0 {
        ConsolidationRunStatus::Failed
    } else {
        ConsolidationRunStatus::Partial
    }
}

pub fn consolidation_failure_status(report: &ConsolidationRunReport) -> (r: ConsolidationRunStatus)
    ensures
        r == failure_status(*report),
{
    if report.batches_applied == 0 {
        ConsolidationRunStatus::Failed
    } else {
        ConsolidationRunStatus::Partial
    }
}

/// A failure as a JSON object.
pub open spec fn failure_tree(kind: Seq<char>, message: Seq<char>) -> json::JsonTree {
    json::JsonTree::Object(
        seq![
            ("kind"@, json::JsonTree::Text(kind)),
            ("message"@, json::JsonTree::Text(message)),
            ("valid"@, json::JsonTree::Bool(false)),
        ],
    )
}

pub fn consolidation_failure_json(kind: &str, message: &str) -> (r: String)
    ensures
        r@ == json::rendered(failure_tree(kind@, message@)),
{
    let object = JsonObject::new().with("kind", json_text(kind)).with(
        "message",
        json_text(message),
    ).with("valid", Json::Bool(false));
    assert(object.list() =~= failure_tree(kind@, message@)->Object_0);
    render(&object.finish())
}

/// The record of an answer that is no JSON.
pub open spec fn invalid_output_tree(raw: Seq<char>) -> json::JsonTree {
    json::JsonTree::Object(
        seq![
            ("kind"@, json::JsonTree::Text("invalid_model_output"@)),
            ("raw_output"@, json::JsonTree::Text(raw)),
            ("raw_sha256"@, json::JsonTree::Text(digest::text_digest(raw))),
            ("valid"@, json::JsonTree::Bool(false)),
        ],
    )
}

/// What is recorded of an answer: itself if it is JSON, else a record of it.
pub open spec fn audited(raw: Seq<char>) -> Seq<char> {
    if json::parsed_json(raw) is Ok {
        raw
    } else {
        json::rendered(invalid_output_tree(raw))
    }
}

/// The record of an answer that is known not to be JSON.
pub fn invalid_output_json(raw: &str) -> (r: String)
    ensures
        r@ == json::rendered(invalid_output_tree(raw@)),
{
    let object = JsonObject::new().with("kind", json_text("invalid_model_output")).with(
        "raw_output",
        json_text(raw),
    ).with("raw_sha256", json_text(content_sha256(raw).as_str())).with("valid", Json::Bool(false));
    assert(object.list() =~= invalid_output_tree(raw@)->Object_0);
    render(&object.finish())
}

pub fn consolidation_audit_response(raw: &str) -> (r: String)
    ensures
        r@ == audited(raw@),
{
    match parse_json(raw) {
        Ok(_) => raw.to_owned(),
        Err(_) => invalid_output_json(raw),
    }
}

/// The record of an answer that was applied.
pub open spec fn success_tree(batch_key: Seq<char>, watermark_after: usize) -> json::JsonTree {
    json::JsonTree::Object(
        seq![
            ("batch_key"@, json::JsonTree::Text(batch_key)),
            ("valid"@, json::JsonTree::Bool(true)),
            ("watermark_after"@, json::number_tree(watermark_after as u64)),
        ],
    )
}

pub fn consolidation_success_json(batch_key: &str, watermark_after: usize) -> (r: String)
    ensures
        r@ == json::rendered(success_tree(batch_key@, watermark_after)),
{
    let object = JsonObject::new().with("batch_key", json_text(batch_key)).with(
        "valid",
        Json::Bool(true),
    ).with("watermark_after", json_number(watermark_after as u64));
    assert(object.list() =~= success_tree(batch_key@, watermark_after)->Object_0);
    render(&object.finish())
}

/// How often a batch is sent to the model before it is given up.
pub const CONSOLIDATION_VALIDATION_ATTEMPTS: usize = 3;

/// The batch that is being consolidated.
#[derive(Debug, PartialEq, Eq)]
pub struct BatchHead {
    pub batch_key: String,
    pub from_sequence: usize,
    pub through_sequence: usize,
    pub events: usize,
}

/// What an answer holds, when it has the expected structure.
#[derive(Clone, Copy, Debug, PartialEq, Eq, Structural)]
pub struct OutputCounts {
    pub entities: usize,
    pub claims: usize,
    pub boundaries: usize,
}

#[derive(Debug, PartialEq, Eq)]
pub struct ModelAnswer {
    pub content: String,
    pub input_tokens: Option<u64>,
    pub output_tokens: Option<u64>,
    pub decoded: Option<OutputCounts>,
}

#[derive(Debug)]
pub enum CallFailure {
    Backend(String),
    Timeout,
    Cancelled,
}

/// What a run is told.
#[allow(inconsistent_fields)]
#[derive(Debug)]
pub enum RunEvent {
    Controls { allowed: Result<bool, String> },
    SessionLoaded { model: Result<String, String> },
    WatermarkRead { watermark: Result<usize, String> },
    BatchRead { batch: Result<Option<BatchHead>, String> },
    CandidatesRead { error: Option<String> },
    RequestBuilt { error: Option<String> },
    ModelAnswered { answer: ModelAnswer },
    ModelFailed { failure: CallFailure },
    FailureRecorded { error: Option<String> },
    Applied { watermark_after: usize },
    ApplyRejected { validation_json: String, message: String },
    ApplyStale { message: String },
    ApplyFailed { message: String },
}

/// The part of an attempt's record that tells how it went.
#[derive(Debug, PartialEq, Eq)]
pub struct AttemptOutcome {
    pub status: ConsolidationAttemptStatus,
    pub response_json: Option<String>,
    pub response_sha256: Option<String>,
    pub input_tokens: Option<u64>,
    pub output_tokens: Option<u64>,
    pub validation_json: Option<String>,
    pub error_json: Option<String>,
}

pub open spec fn opt_digest(s: Option<Seq<char>>) -> Option<Seq<char>> {
    match s {
        Some(value) => Some(digest::text_digest(value)),
        None => None,
    }
}

/// An outcome by what it says; its response digest is that of its response.
pub open spec fn outcome_says(
    o: AttemptOutcome,
    status: ConsolidationAttemptStatus,
    response: Option<Seq<char>>,
    tokens: (Option<u64>, Option<u64>),
    validation: Option<Seq<char>>,
    error: Option<Seq<char>>,
) -> bool {
    &&& o.status == status
    &&& text::opt_text(o.response_json) == response
    &&& text::opt_text(o.response_sha256) == opt_digest(response)
    &&& o.input_tokens == tokens.0
    &&& o.output_tokens == tokens.1
    &&& text::opt_text(o.validation_json) == validation
    &&& text::opt_text(o.error_json) == error
}

/// What a run waits for.
#[allow(inconsistent_fields)]
#[derive(Debug)]
pub enum ConsolidationPhase {
    ReadControls,
    LoadSession,
    ReadWatermark,
    ReadBatch,
    ReadCandidates,
    BuildRequest,
    CallModel,
    RecordCallFailure { cancelled: bool, primary: String },
    RecordLateCancellation,
    Apply { answer: ModelAnswer },
    RecordRejection { message: String, retryable: bool },
    Finished,
}

/// What a run asks to be done next.
#[derive(Debug)]
pub enum ConsolidationAction {
    LoadSession,
    ReadWatermark,
    ReadBatch,
    ReadCandidates,
    BuildRequest,
    CallModel,
    RecordFailure(AttemptOutcome),
    Apply(AttemptOutcome),
    Finish,
}

#[derive(Clone, Debug, PartialEq, Eq)]
pub enum ConsolidationProgress {
    AttemptStarted {
        session_id: String,
        attempt: usize,
        events: usize,
        from_sequence: usize,
        through_sequence: usize,
    },
    ValidationRetry { session_id: String, next_attempt: usize, max_attempts: usize },
    BatchApplied { session_id: String, batches_applied: usize, watermark_after: usize },
}

/// What follows an event: progress to be shown, and the next action.
#[derive(Debug)]
pub struct ConsolidationStep {
    pub action: ConsolidationAction,
    pub progress: Vec<ConsolidationProgress>,
}

/// Where a run stands.
#[derive(Debug)]
pub struct ConsolidationRun {
    pub enabled: bool,
    pub phase: ConsolidationPhase,
    pub report: ConsolidationRunReport,
    pub batch: BatchHead,
    pub attempt: usize,
}

pub open spec fn event_fits(phase: ConsolidationPhase, event: RunEvent) -> bool {
    match event {
        RunEvent::Controls { .. } => phase is ReadControls,
        RunEvent::SessionLoaded { .. } => phase is LoadSession,
        RunEvent::WatermarkRead { .. } => phase is ReadWatermark,
        RunEvent::BatchRead { .. } => phase is ReadBatch,
        RunEvent::CandidatesRead { .. } => phase is ReadCandidates,
        RunEvent::RequestBuilt { .. } => phase is BuildRequest,
        RunEvent::ModelAnswered { .. } => phase is CallModel,
        RunEvent::ModelFailed { .. } => phase is CallModel,
        RunEvent::FailureRecorded { .. } => phase is RecordCallFailure
            || phase is RecordLateCancellation || phase is RecordRejection,
        RunEvent::Applied { .. } => phase is Apply,
        RunEvent::ApplyRejected { .. } => phase is Apply,
        RunEvent::ApplyStale { .. } => phase is Apply,
        RunEvent::ApplyFailed { .. } => phase is Apply,
    }
}

/// Whether the counts can take in an event.
pub open spec fn counts_fit(run: ConsolidationRun, event: RunEvent) -> bool {
    match event {
        RunEvent::RequestBuilt { .. } => run.report.batches_attempted < usize::MAX
            && run.report.events_attempted + run.batch.events <= usize::MAX,
        RunEvent::ModelAnswered { answer } => answer.decoded matches Some(c)
            ==> run.report.entities_attempted + c.entities <= usize::MAX
            && run.report.claims_attempted + c.claims <= usize::MAX
            && run.report.boundaries_attempted + c.boundaries <= usize::MAX,
        _ => true,
    }
}

/// Whether a run that counted this can end with a status: one that failed has
/// applied nothing, one that got something done is partial or completed, and one
/// that had nothing to do has attempted nothing.
pub open spec fn status_fits(r: ConsolidationRunReport, status: ConsolidationRunStatus) -> bool {
    match status {
        ConsolidationRunStatus::Failed => r.batches_applied == 0,
        ConsolidationRunStatus::Partial => r.batches_applied > 0,
        ConsolidationRunStatus::Completed => r.batches_applied > 0 && r.batches_attempted
            == r.batches_applied && r.events_attempted == r.events_applied,
        ConsolidationRunStatus::UpToDate => r.batches_attempted == 0,
        ConsolidationRunStatus::Disabled => r.batches_attempted == 0,
        ConsolidationRunStatus::Cancelled => true,
    }
}

impl ConsolidationRun {
    /// No batch was read yet.
    pub open spec fn starting(self) -> bool {
        self.phase is ReadControls || self.phase is LoadSession || self.phase is ReadWatermark
    }

    /// A batch is on its way to the model or back.
    pub open spec fn in_flight(self) -> bool {
        self.phase is CallModel || self.phase is RecordCallFailure
            || self.phase is RecordLateCancellation || self.phase is Apply
            || self.phase is RecordRejection
    }

    /// No more is applied than was attempted, and outside a batch in flight no
    /// less; a batch in flight is attempted at most as often as is allowed. The
    /// watermark moves only where something was applied, and the status of a run
    /// that is over fits what it counted.
    pub open spec fn wf(self) -> bool {
        let r = self.report;
        &&& self.starting() ==> r.batches_attempted == 0
        &&& r.batches_applied == 0 ==> r.watermark_after == r.watermark_before
        &&& if self.phase is Finished {
            r.batches_attempted <= r.batches_applied + 1 && status_fits(r, r.status)
        } else if self.in_flight() {
            r.batches_attempted == r.batches_applied + 1 && r.events_attempted == r.events_applied
                + self.batch.events
        } else {
            r.batches_attempted == r.batches_applied && r.events_attempted == r.events_applied
        }
        &&& !(self.phase is Finished) ==> r.status == ConsolidationRunStatus::Failed
        &&& r.batches_applied <= r.batches_attempted
        &&& r.events_applied <= r.events_attempted
        &&& r.entities_applied <= r.entities_attempted
        &&& r.claims_applied <= r.claims_attempted
        &&& r.boundaries_applied <= r.boundaries_attempted
        &&& self.in_flight() ==> 1 <= self.attempt <= 3
        &&& self.phase matches ConsolidationPhase::Apply { answer } ==> (answer.decoded matches Some(
            c,
        ) ==> r.entities_applied + c.entities <= r.entities_attempted && r.claims_applied + c.claims
            <= r.claims_attempted && r.boundaries_applied + c.boundaries <= r.boundaries_attempted)
    }
}

/// A report that differs from another in its status and added warnings.
pub open spec fn report_after(
    before: ConsolidationRunReport,
    after: ConsolidationRunReport,
    status: ConsolidationRunStatus,
    added: Seq<Seq<char>>,
) -> bool {
    &&& after == (ConsolidationRunReport { status, warnings: after.warnings, ..before })
    &&& text::texts(after.warnings@) == text::texts(before.warnings@) + added
}

/// The run is over, with a status and added warnings.
pub open spec fn ended(
    before: ConsolidationRunReport,
    after: ConsolidationRun,
    step: ConsolidationStep,
    status: ConsolidationRunStatus,
    added: Seq<Seq<char>>,
) -> bool {
    &&& after.phase is Finished
    &&& step.action is Finish
    &&& report_after(before, after.report, status, added)
}

/// The run goes on to an action, unless it was cancelled.
pub open spec fn went_on(
    before: ConsolidationRunReport,
    after: ConsolidationRun,
    step: ConsolidationStep,
    cancelled: bool,
    phase_reached: bool,
    action_asked: bool,
) -> bool {
    if cancelled {
        ended(before, after, step, ConsolidationRunStatus::Cancelled, Seq::empty())
    } else {
        phase_reached && action_asked && after.report == before
    }
}

pub open spec fn attempt_started(p: ConsolidationProgress, run: ConsolidationRun) -> bool {
    p matches ConsolidationProgress::AttemptStarted {
        session_id,
        attempt,
        events,
        from_sequence,
        through_sequence,
    } && session_id@ == run.report.session_id@ && attempt == run.attempt && events
        == run.batch.events && from_sequence == run.batch.from_sequence && through_sequence
        == run.batch.through_sequence
}

/// The kind and the message of a failed call.
pub open spec fn call_failure(f: CallFailure) -> (Seq<char>, Seq<char>) {
    match f {
        CallFailure::Backend(message) => ("backend"@, message@),
        CallFailure::Timeout => (
            "timeout"@,
            "structured consolidation model call timed out"@,
        ),
        CallFailure::Cancelled => ("cancellation"@, "caller cancelled consolidation"@),
    }
}

pub open spec fn controls_handled(
    before: ConsolidationRun,
    allowed: Result<bool, String>,
    cancelled: bool,
    after: ConsolidationRun,
    step: ConsolidationStep,
) -> bool {
    let r = before.report;
    match allowed {
        Err(error) => ended(
            r,
            after,
            step,
            r.status,
            seq!["无法读取控制状态: "@ + error@],
        ),
        Ok(false) => ended(r, after, step, r.status, seq!["会话已排除: "@ + r.session_id@]),
        Ok(true) => if !before.enabled {
            ended(r, after, step, ConsolidationRunStatus::Disabled, Seq::empty())
        } else {
            went_on(
                r,
                after,
                step,
                cancelled,
                after.phase is LoadSession,
                step.action is LoadSession,
            )
        },
    }
}

pub open spec fn session_handled(
    before: ConsolidationRun,
    model: Result<String, String>,
    cancelled: bool,
    after: ConsolidationRun,
    step: ConsolidationStep,
) -> bool {
    let r = before.report;
    match model {
        Err(error) => ended(
            r,
            after,
            step,
            r.status,
            seq!["无法加载会话 "@ + r.session_id@ + ": "@ + error@],
        ),
        Ok(name) => went_on(
            ConsolidationRunReport { model: name, ..r },
            after,
            step,
            cancelled,
            after.phase is ReadWatermark,
            step.action is ReadWatermark,
        ),
    }
}

pub open spec fn watermark_handled(
    before: ConsolidationRun,
    watermark: Result<usize, String>,
    cancelled: bool,
    after: ConsolidationRun,
    step: ConsolidationStep,
) -> bool {
    let r = before.report;
    match watermark {
        Err(error) => ended(r, after, step, r.status, seq!["无法读取巩固水位: "@ + error@]),
        Ok(w) => went_on(
            ConsolidationRunReport { watermark_before: w, watermark_after: w, ..r },
            after,
            step,
            cancelled,
            after.phase is ReadBatch,
            step.action is ReadBatch,
        ),
    }
}

pub open spec fn batch_handled(
    before: ConsolidationRun,
    batch: Result<Option<BatchHead>, String>,
    cancelled: bool,
    after: ConsolidationRun,
    step: ConsolidationStep,
) -> bool {
    let r = before.report;
    match batch {
        Err(error) => ended(
            r,
            after,
            step,
            failure_status(r),
            seq!["无法读取待巩固批次: "@ + error@],
        ),
        Ok(None) => ended(
            r,
            after,
            step,
            if r.batches_applied == 0 {
                ConsolidationRunStatus::UpToDate
            } else {
                ConsolidationRunStatus::Completed
            },
            Seq::empty(),
        ),
        Ok(Some(head)) => after.batch == head && went_on(
            r,
            after,
            step,
            cancelled,
            after.phase is ReadCandidates,
            step.action is ReadCandidates,
        ),
    }
}

pub open spec fn candidates_handled(
    before: ConsolidationRun,
    error: Option<String>,
    cancelled: bool,
    after: ConsolidationRun,
    step: ConsolidationStep,
) -> bool {
    let r = before.report;
    match error {
        Some(e) => ended(
            r,
            after,
            step,
            failure_status(r),
            seq!["无法读取巩固候选: "@ + e@],
        ),
        None => went_on(
            r,
            after,
            step,
            cancelled,
            after.phase is BuildRequest,
            step.action is BuildRequest,
        ),
    }
}

pub open spec fn request_handled(
    before: ConsolidationRun,
    error: Option<String>,
    cancelled: bool,
    after: ConsolidationRun,
    step: ConsolidationStep,
) -> bool {
    let r = before.report;
    match error {
        Some(e) => ended(
            r,
            after,
            step,
            failure_status(r),
            seq!["无法序列化巩固请求: "@ + e@],
        ),
        None => if cancelled {
            ended(r, after, step, ConsolidationRunStatus::Cancelled, Seq::empty())
        } else {
            &&& after.phase is CallModel
            &&& step.action is CallModel
            &&& after.attempt == 1
            &&& after.report == (ConsolidationRunReport {
                batches_attempted: (r.batches_attempted + 1) as usize,
                events_attempted: (r.events_attempted + before.batch.events) as usize,
                ..r
            })
            &&& step.progress@.len() == 1
            &&& attempt_started(step.progress@[0], after)
        },
    }
}

/// A report that counts what an answer holds as attempted.
pub open spec fn counted(r: ConsolidationRunReport, c: Option<OutputCounts>) ->
    ConsolidationRunReport {
    match c {
        Some(counts) => ConsolidationRunReport {
            entities_attempted: (r.entities_attempted + counts.entities) as usize,
            claims_attempted: (r.claims_attempted + counts.claims) as usize,
            boundaries_attempted: (r.boundaries_attempted + counts.boundaries) as usize,
            ..r
        },
        None => r,
    }
}

pub open spec fn answer_handled(
    before: ConsolidationRun,
    answer: ModelAnswer,
    cancelled: bool,
    after: ConsolidationRun,
    step: ConsolidationStep,
) -> bool {
    &&& after.report == counted(before.report, answer.decoded)
    &&& after.attempt == before.attempt
    &&& if cancelled {
        &&& after.phase is RecordLateCancellation
        &&& step.action matches ConsolidationAction::RecordFailure(o) && outcome_says(
            o,
            ConsolidationAttemptStatus::Cancelled,
            Some(answer.content@),
            (answer.input_tokens, answer.output_tokens),
            None,
            Some(
                json::rendered(
                    failure_tree("cancellation"@, "caller cancelled consolidation"@),
                ),
            ),
        )
    } else {
        &&& after.phase == (ConsolidationPhase::Apply { answer })
        &&& step.action matches ConsolidationAction::Apply(o) && outcome_says(
            o,
            ConsolidationAttemptStatus::Applied,
            Some(answer.content@),
            (answer.input_tokens, answer.output_tokens),
            Some(
                json::rendered(
                    success_tree(before.batch.batch_key@, before.batch.through_sequence),
                ),
            ),
            None,
        )
    }
}

pub open spec fn call_failure_handled(
    before: ConsolidationRun,
    failure: CallFailure,
    after: ConsolidationRun,
    step: ConsolidationStep,
) -> bool {
    let (kind, message) = call_failure(failure);
    &&& after.report == before.report
    &&& after.phase matches ConsolidationPhase::RecordCallFailure { cancelled, primary }
        && cancelled == (failure is Cancelled) && primary@ == kind + ": "@ + message
    &&& step.action matches ConsolidationAction::RecordFailure(o) && outcome_says(
        o,
        if failure is Cancelled {
            ConsolidationAttemptStatus::Cancelled
        } else {
            ConsolidationAttemptStatus::ModelError
        },
        None,
        (None, None),
        None,
        Some(json::rendered(failure_tree(kind, message))),
    )
}

/// What is warned of a failure, depending on whether it could be recorded.
pub open spec fn recorded_warning(
    what: Seq<char>,
    detail: Seq<char>,
    error: Option<String>,
) -> Seq<char> {
    match error {
        Some(e) => what + " ("@ + detail + "); 失败审计无法写入: "@ + e@,
        None => what + ": "@ + detail,
    }
}

pub open spec fn retry_warning(next: usize) -> Seq<char> {
    "巩固输出校验失败，正在进行第 "@ + text::decimal(next as nat) + "/"@ + text::decimal(3)
        + " 次重试"@
}

pub open spec fn record_handled(
    before: ConsolidationRun,
    error: Option<String>,
    after: ConsolidationRun,
    step: ConsolidationStep,
) -> bool {
    let r = before.report;
    match before.phase {
        ConsolidationPhase::RecordCallFailure { cancelled, primary } => ended(
            r,
            after,
            step,
            if cancelled {
                ConsolidationRunStatus::Cancelled
            } else {
                failure_status(r)
            },
            seq![recorded_warning("巩固失败"@, primary@, error)],
        ),
        ConsolidationPhase::RecordLateCancellation => ended(
            r,
            after,
            step,
            ConsolidationRunStatus::Cancelled,
            if error is Some {
                seq![recorded_warning("巩固取消"@, "caller cancelled consolidation"@, error)]
            } else {
                Seq::empty()
            },
        ),
        ConsolidationPhase::RecordRejection { message, retryable } => {
            let warning = recorded_warning("巩固应用被拒绝"@, message@, error);
            if retryable && before.attempt < 3 {
                let next = (before.attempt + 1) as usize;
                &&& after.phase is CallModel
                &&& step.action is CallModel
                &&& after.attempt == next
                &&& report_after(r, after.report, r.status, seq![warning, retry_warning(next)])
                &&& step.progress@.len() == 2
                &&& step.progress@[0] matches ConsolidationProgress::ValidationRetry {
                    session_id,
                    next_attempt,
                    max_attempts,
                } && session_id@ == r.session_id@ && next_attempt == next && max_attempts == 3
                &&& attempt_started(step.progress@[1], after)
            } else {
                ended(r, after, step, failure_status(r), seq![warning])
            }
        },
        _ => true,
    }
}

/// A report that counts what an answer holds as applied.
pub open spec fn counted_applied(
    r: ConsolidationRunReport,
    events: usize,
    c: Option<OutputCounts>,
    watermark_after: usize,
) -> ConsolidationRunReport {
    let applied = ConsolidationRunReport {
        batches_applied: (r.batches_applied + 1) as usize,
        events_applied: (r.events_applied + events) as usize,
        watermark_after,
        ..r
    };
    match c {
        Some(counts) => ConsolidationRunReport {
            entities_applied: (r.entities_applied + counts.entities) as usize,
            claims_applied: (r.claims_applied + counts.claims) as usize,
            boundaries_applied: (r.boundaries_applied + counts.boundaries) as usize,
            ..applied
        },
        None => applied,
    }
}

pub open spec fn applied_handled(
    before: ConsolidationRun,
    watermark_after: usize,
    cancelled: bool,
    after: ConsolidationRun,
    step: ConsolidationStep,
) -> bool {
    let decoded = before.phase->Apply_answer.decoded;
    let r = counted_applied(before.report, before.batch.events, decoded, watermark_after);
    &&& went_on(
        r,
        after,
        step,
        cancelled,
        after.phase is ReadBatch,
        step.action is ReadBatch,
    )
    &&& step.progress@.len() == 1
    &&& step.progress@[0] matches ConsolidationProgress::BatchApplied {
        session_id,
        batches_applied,
        watermark_after: w,
    } && session_id@ == r.session_id@ && batches_applied == r.batches_applied && w
        == watermark_after
}

pub open spec fn rejection_handled(
    before: ConsolidationRun,
    validation: Seq<char>,
    message: Seq<char>,
    retryable: bool,
    after: ConsolidationRun,
    step: ConsolidationStep,
) -> bool {
    let answer = before.phase->Apply_answer;
    &&& after.report == before.report
    &&& after.attempt == before.attempt
    &&& after.phase matches ConsolidationPhase::RecordRejection { message: m, retryable: t } && m@
        == message && t == retryable
    &&& step.action matches ConsolidationAction::RecordFailure(o) && outcome_says(
        o,
        ConsolidationAttemptStatus::Rejected,
        Some(audited(answer.content@)),
        (answer.input_tokens, answer.output_tokens),
        Some(validation),
        Some(json::rendered(failure_tree("apply"@, message))),
    )
}

/// Whether an event is followed by progress to be shown.
pub open spec fn shows_progress(event: RunEvent, step: ConsolidationStep) -> bool {
    event is Applied || step.action is CallModel
}

/// Everything that follows an event.
pub open spec fn run_stepped(
    before: ConsolidationRun,
    event: RunEvent,
    cancelled: bool,
    after: ConsolidationRun,
    step: ConsolidationStep,
) -> bool {
    &&& event_handled(before, event, cancelled, after, step)
    &&& after.enabled == before.enabled
    &&& !(event is BatchRead) ==> after.batch == before.batch
    &&& !shows_progress(event, step) ==> step.progress@.len() == 0
}

pub open spec fn event_handled(
    before: ConsolidationRun,
    event: RunEvent,
    cancelled: bool,
    after: ConsolidationRun,
    step: ConsolidationStep,
) -> bool {
    match event {
        RunEvent::Controls { allowed } => controls_handled(
            before,
            allowed,
            cancelled,
            after,
            step,
        ),
        RunEvent::SessionLoaded { model } => session_handled(
            before,
            model,
            cancelled,
            after,
            step,
        ),
        RunEvent::WatermarkRead { watermark } => watermark_handled(
            before,
            watermark,
            cancelled,
            after,
            step,
        ),
        RunEvent::BatchRead { batch } => batch_handled(
            before,
            batch,
            cancelled,
            after,
            step,
        ),
        RunEvent::CandidatesRead { error } => candidates_handled(
            before,
            error,
            cancelled,
            after,
            step,
        ),
        RunEvent::RequestBuilt { error } => request_handled(
            before,
            error,
            cancelled,
            after,
            step,
        ),
        RunEvent::ModelAnswered { answer } => answer_handled(
            before,
            answer,
            cancelled,
            after,
            step,
        ),
        RunEvent::ModelFailed { failure } => call_failure_handled(
            before,
            failure,
            after,
            step,
        ),
        RunEvent::FailureRecorded { error } => record_handled(
            before,
            error,
            after,
            step,
        ),
        RunEvent::Applied { watermark_after } => applied_handled(
            before,
            watermark_after,
            cancelled,
            after,
            step,
        ),
        RunEvent::ApplyRejected { validation_json, message } => rejection_handled(
            before,
            validation_json@,
            message@,
            true,
            after,
            step,
        ),
        RunEvent::ApplyStale { message } => rejection_handled(
            before,
            json::rendered(failure_tree("stale"@, message@)),
            message@,
            false,
            after,
            step,
        ),
        RunEvent::ApplyFailed { message } => rejection_handled(
            before,
            json::rendered(failure_tree("retrieval"@, message@)),
            message@,
            false,
            after,
            step,
        ),
    }
}

fn quiet(action: ConsolidationAction) -> (r: ConsolidationStep)
    ensures
        r.action == action,
        r.progress@.len() == 0,
{
    ConsolidationStep { action, progress: Vec::new() }
}

fn two_parts(a: &str, b: &str) -> (r: String)
    ensures
        r@ == a@ + b@,
{
    let mut out = a.to_owned();
    out.append(b);
    out
}

fn recorded_warning_string(what: &str, detail: &str, error: &Option<String>) -> (r: String)
    ensures
        r@ == recorded_warning(what@, detail@, *error),
{
    let mut out = what.to_owned();
    match error {
        Some(e) => {
            out.append(" (");
            out.append(detail);
            out.append("); 失败审计无法写入: ");
            out.append(e.as_str());
        },
        None => {
            out.append(": ");
            out.append(detail);
        },
    }
    out
}

impl ConsolidationRun {
    /// A run that has yet to read the controls of its session.
    pub fn new(session_id: &str, model: &str, trigger: ConsolidationTrigger, enabled: bool) -> (r:
        Self)
        ensures
            r.wf(),
            r.enabled == enabled,
            r.phase is ReadControls,
            report_of_nothing(
                r.report,
                session_id@,
                trigger,
                model@,
                ConsolidationRunStatus::Failed,
                Seq::empty(),
            ),
    {
        ConsolidationRun {
            enabled,
            phase: ConsolidationPhase::ReadControls,
            report: consolidation_report(session_id, model, trigger),
            batch: BatchHead {
                batch_key: String::new(),
                from_sequence: 0,
                through_sequence: 0,
                events: 0,
            },
            attempt: 0,
        }
    }

    fn warn(&mut self, warning: String)
        ensures
            *final(self) == (ConsolidationRun {
                report: ConsolidationRunReport {
                    warnings: final(self).report.warnings,
                    ..old(self).report
                },
                ..*old(self)
            }),
            text::texts(final(self).report.warnings@) == text::texts(
                old(self).report.warnings@,
            ).push(warning@),
    {
        let ghost before = self.report.warnings@;
        self.report.warnings.push(warning);
        assert(text::texts(self.report.warnings@) =~= text::texts(before).push(warning@));
    }

    fn end(&mut self, status: ConsolidationRunStatus) -> (step: ConsolidationStep)
        requires
            old(self).wf(),
            status_fits(old(self).report, status),
        ensures
            final(self).wf(),
            ended(old(self).report, *final(self), step, status, Seq::empty()),
            step.progress@.len() == 0,
            final(self).batch == old(self).batch,
            final(self).enabled == old(self).enabled,
    {
        self.report.status = status;
        self.phase = ConsolidationPhase::Finished;
        assert(text::texts(self.report.warnings@) + Seq::<Seq<char>>::empty() =~= text::texts(
            self.report.warnings@,
        ));
        quiet(ConsolidationAction::Finish)
    }

    fn end_with(&mut self, status: ConsolidationRunStatus, warning: String) -> (step:
        ConsolidationStep)
        requires
            old(self).wf(),
            status_fits(old(self).report, status),
        ensures
            final(self).wf(),
            ended(old(self).report, *final(self), step, status, seq![warning@]),
            step.progress@.len() == 0,
            final(self).batch == old(self).batch,
            final(self).enabled == old(self).enabled,
    {
        let ghost before = self.report.warnings@;
        self.warn(warning);
        self.report.status = status;
        self.phase = ConsolidationPhase::Finished;
        assert(text::texts(before).push(warning@) =~= text::texts(before) + seq![warning@]);
        quiet(ConsolidationAction::Finish)
    }

    fn on_controls(&mut self, allowed: Result<bool, String>, cancelled: bool) -> (step:
        ConsolidationStep)
        requires
            old(self).wf(),
            old(self).phase is ReadControls,
        ensures
            final(self).wf(),
            controls_handled(*old(self), allowed, cancelled, *final(self), step),
            final(self).enabled == old(self).enabled,
            final(self).batch == old(self).batch,
            step.progress@.len() == 0,
    {
        let status = self.report.status;
        match allowed {
            Err(error) => self.end_with(
                status,
                two_parts("无法读取控制状态: ", error.as_str()),
            ),
            Ok(false) => {
                let warning = two_parts("会话已排除: ", self.report.session_id.as_str());
                self.end_with(status, warning)
            },
            Ok(true) => {
                if !self.enabled {
                    return self.end(ConsolidationRunStatus::Disabled);
                }
                if cancelled {
                    return self.end(ConsolidationRunStatus::Cancelled);
                }
                self.phase = ConsolidationPhase::LoadSession;
                quiet(ConsolidationAction::LoadSession)
            },
        }
    }

    fn on_session(&mut self, model: Result<String, String>, cancelled: bool) -> (step:
        ConsolidationStep)
        requires
            old(self).wf(),
            old(self).phase is LoadSession,
        ensures
            final(self).wf(),
            session_handled(*old(self), model, cancelled, *final(self), step),
            final(self).enabled == old(self).enabled,
            final(self).batch == old(self).batch,
            step.progress@.len() == 0,
    {
        let status = self.report.status;
        match model {
            Err(error) => {
                let mut warning = "无法加载会话 ".to_owned();
                warning.append(self.report.session_id.as_str());
                warning.append(": ");
                warning.append(error.as_str());
                self.end_with(status, warning)
            },
            Ok(name) => {
                self.report.model = name;
                if cancelled {
                    return self.end(ConsolidationRunStatus::Cancelled);
                }
                self.phase = ConsolidationPhase::ReadWatermark;
                quiet(ConsolidationAction::ReadWatermark)
            },
        }
    }

    fn on_watermark(&mut self, watermark: Result<usize, String>, cancelled: bool) -> (step:
        ConsolidationStep)
        requires
            old(self).wf(),
            old(self).phase is ReadWatermark,
        ensures
            final(self).wf(),
            watermark_handled(*old(self), watermark, cancelled, *final(self), step),
            final(self).enabled == old(self).enabled,
            final(self).batch == old(self).batch,
            step.progress@.len() == 0,
    {
        let status = self.report.status;
        match watermark {
            Err(error) => self.end_with(
                status,
                two_parts("无法读取巩固水位: ", error.as_str()),
            ),
            Ok(w) => {
                self.report.watermark_before = w;
                self.report.watermark_after = w;
                if cancelled {
                    return self.end(ConsolidationRunStatus::Cancelled);
                }
                self.phase = ConsolidationPhase::ReadBatch;
                quiet(ConsolidationAction::ReadBatch)
            },
        }
    }

    fn on_batch(&mut self, batch: Result<Option<BatchHead>, String>, cancelled: bool) -> (step:
        ConsolidationStep)
        requires
            old(self).wf(),
            old(self).phase is ReadBatch,
        ensures
            final(self).wf(),
            batch_handled(*old(self), batch, cancelled, *final(self), step),
            final(self).enabled == old(self).enabled,
            step.progress@.len() == 0,
    {
        match batch {
            Err(error) => {
                let status = consolidation_failure_status(&self.report);
                self.end_with(status, two_parts("无法读取待巩固批次: ", error.as_str()))
            },
            Ok(None) => {
                let status = if self.report.batches_applied == 0 {
                    ConsolidationRunStatus::UpToDate
                } else {
                    ConsolidationRunStatus::Completed
                };
                self.end(status)
            },
            Ok(Some(head)) => {
                self.batch = head;
                if cancelled {
                    return self.end(ConsolidationRunStatus::Cancelled);
                }
                self.phase = ConsolidationPhase::ReadCandidates;
                quiet(ConsolidationAction::ReadCandidates)
            },
        }
    }

    fn on_candidates(&mut self, error: Option<String>, cancelled: bool) -> (step:
        ConsolidationStep)
        requires
            old(self).wf(),
            old(self).phase is ReadCandidates,
        ensures
            final(self).wf(),
            candidates_handled(*old(self), error, cancelled, *final(self), step),
            final(self).enabled == old(self).enabled,
            final(self).batch == old(self).batch,
            step.progress@.len() == 0,
    {
        if let Some(e) = error {
            let status = consolidation_failure_status(&self.report);
            return self.end_with(status, two_parts("无法读取巩固候选: ", e.as_str()));
        }
        if cancelled {
            return self.end(ConsolidationRunStatus::Cancelled);
        }
        self.phase = ConsolidationPhase::BuildRequest;
        quiet(ConsolidationAction::BuildRequest)
    }

    fn started(&self) -> (p: ConsolidationProgress)
        ensures
            attempt_started(p, *self),
    {
        ConsolidationProgress::AttemptStarted {
            session_id: self.report.session_id.clone(),
            attempt: self.attempt,
            events: self.batch.events,
            from_sequence: self.batch.from_sequence,
            through_sequence: self.batch.through_sequence,
        }
    }

    fn on_request(&mut self, error: Option<String>, cancelled: bool) -> (step: ConsolidationStep)
        requires
            old(self).wf(),
            old(self).phase is BuildRequest,
            old(self).report.batches_attempted < usize::MAX,
            old(self).report.events_attempted + old(self).batch.events <= usize::MAX,
        ensures
            final(self).wf(),
            request_handled(*old(self), error, cancelled, *final(self), step),
            final(self).enabled == old(self).enabled,
            final(self).batch == old(self).batch,
            !(step.action is CallModel) ==> step.progress@.len() == 0,
    {
        if let Some(e) = error {
            let status = consolidation_failure_status(&self.report);
            return self.end_with(status, two_parts("无法序列化巩固请求: ", e.as_str()));
        }
        if cancelled {
            return self.end(ConsolidationRunStatus::Cancelled);
        }
        self.report.batches_attempted = self.report.batches_attempted + 1;
        self.report.events_attempted = self.report.events_attempted + self.batch.events;
        self.attempt = 1;
        self.phase = ConsolidationPhase::CallModel;
        let mut progress: Vec<ConsolidationProgress> = Vec::new();
        progress.push(self.started());
        ConsolidationStep { action: ConsolidationAction::CallModel, progress }
    }

    fn on_answer(&mut self, answer: ModelAnswer, cancelled: bool) -> (step: ConsolidationStep)
        requires
            old(self).wf(),
            old(self).phase is CallModel,
            counts_fit(*old(self), RunEvent::ModelAnswered { answer }),
        ensures
            final(self).wf(),
            answer_handled(*old(self), answer, cancelled, *final(self), step),
            final(self).enabled == old(self).enabled,
            final(self).batch == old(self).batch,
            step.progress@.len() == 0,
    {
        if let Some(c) = answer.decoded {
            self.report.entities_attempted = self.report.entities_attempted + c.entities;
            self.report.claims_attempted = self.report.claims_attempted + c.claims;
            self.report.boundaries_attempted = self.report.boundaries_attempted + c.boundaries;
        }
        let response_json = Some(answer.content.clone());
        let response_sha256 = Some(content_sha256(answer.content.as_str()));
        if cancelled {
            self.phase = ConsolidationPhase::RecordLateCancellation;
            return quiet(
                ConsolidationAction::RecordFailure(
                    AttemptOutcome {
                        status: ConsolidationAttemptStatus::Cancelled,
                        response_json,
                        response_sha256,
                        input_tokens: answer.input_tokens,
                        output_tokens: answer.output_tokens,
                        validation_json: None,
                        error_json: Some(
                            consolidation_failure_json(
                                "cancellation",
                                "caller cancelled consolidation",
                            ),
                        ),
                    },
                ),
            );
        }
        let validation = consolidation_success_json(
            self.batch.batch_key.as_str(),
            self.batch.through_sequence,
        );
        let outcome = AttemptOutcome {
            status: ConsolidationAttemptStatus::Applied,
            response_json,
            response_sha256,
            input_tokens: answer.input_tokens,
            output_tokens: answer.output_tokens,
            validation_json: Some(validation),
            error_json: None,
        };
        self.phase = ConsolidationPhase::Apply { answer };
        quiet(ConsolidationAction::Apply(outcome))
    }

    fn on_call_failure(&mut self, failure: CallFailure) -> (step: ConsolidationStep)
        requires
            old(self).wf(),
            old(self).phase is CallModel,
        ensures
            final(self).wf(),
            call_failure_handled(*old(self), failure, *final(self), step),
            final(self).enabled == old(self).enabled,
            final(self).batch == old(self).batch,
            step.progress@.len() == 0,
    {
        let (kind, message, cancelled) = match failure {
            CallFailure::Backend(message) => ("backend", message, false),
            CallFailure::Timeout => (
                "timeout",
                "structured consolidation model call timed out".to_owned(),
                false,
            ),
            CallFailure::Cancelled => (
                "cancellation",
                "caller cancelled consolidation".to_owned(),
                true,
            ),
        };
        let mut primary = kind.to_owned();
        primary.append(": ");
        primary.append(message.as_str());
        let status = if cancelled {
            ConsolidationAttemptStatus::Cancelled
        } else {
            ConsolidationAttemptStatus::ModelError
        };
        self.phase = ConsolidationPhase::RecordCallFailure { cancelled, primary };
        quiet(
            ConsolidationAction::RecordFailure(
                AttemptOutcome {
                    status,
                    response_json: None,
                    response_sha256: None,
                    input_tokens: None,
                    output_tokens: None,
                    validation_json: None,
                    error_json: Some(consolidation_failure_json(kind, message.as_str())),
                },
            ),
        )
    }

    fn retry(&mut self) -> (step: ConsolidationStep)
        requires
            old(self).wf(),
            old(self).in_flight(),
            old(self).attempt < 3,
        ensures
            final(self).wf(),
            final(self).phase is CallModel,
            step.action is CallModel,
            final(self).attempt == old(self).attempt + 1,
            report_after(
                old(self).report,
                final(self).report,
                old(self).report.status,
                seq![retry_warning(final(self).attempt)],
            ),
            step.progress@.len() == 2,
            step.progress@[0] matches ConsolidationProgress::ValidationRetry {
                session_id,
                next_attempt,
                max_attempts,
            } && session_id@ == old(self).report.session_id@ && next_attempt
                == final(self).attempt && max_attempts == 3,
            attempt_started(step.progress@[1], *final(self)),
            final(self).batch == old(self).batch,
            final(self).enabled == old(self).enabled,
    {
        let ghost before = self.report.warnings@;
        let next: usize = self.attempt + 1;
        let mut warning = "巩固输出校验失败，正在进行第 ".to_owned();
        push_decimal(&mut warning, next as u64);
        warning.append("/");
        push_decimal(&mut warning, CONSOLIDATION_VALIDATION_ATTEMPTS as u64);
        warning.append(" 次重试");
        let ghost w = warning@;
        self.warn(warning);
        assert(text::texts(before).push(w) =~= text::texts(before) + seq![w]);
        let mut progress: Vec<ConsolidationProgress> = Vec::new();
        progress.push(
            ConsolidationProgress::ValidationRetry {
                session_id: self.report.session_id.clone(),
                next_attempt: next,
                max_attempts: CONSOLIDATION_VALIDATION_ATTEMPTS,
            },
        );
        self.attempt = next;
        self.phase = ConsolidationPhase::CallModel;
        progress.push(self.started());
        ConsolidationStep { action: ConsolidationAction::CallModel, progress }
    }

    fn on_recorded(&mut self, error: Option<String>) -> (step: ConsolidationStep)
        requires
            old(self).wf(),
            old(self).phase is RecordCallFailure || old(self).phase is RecordLateCancellation
                || old(self).phase is RecordRejection,
        ensures
            final(self).wf(),
            record_handled(*old(self), error, *final(self), step),
            final(self).enabled == old(self).enabled,
            final(self).batch == old(self).batch,
            !(step.action is CallModel) ==> step.progress@.len() == 0,
    {
        let ghost before = *self;
        let failed = consolidation_failure_status(&self.report);
        let rejected = match &self.phase {
            ConsolidationPhase::RecordCallFailure { cancelled, primary } => {
                let status = if *cancelled {
                    ConsolidationRunStatus::Cancelled
                } else {
                    failed
                };
                let warning = recorded_warning_string("巩固失败", primary.as_str(), &error);
                return self.end_with(status, warning);
            },
            ConsolidationPhase::RecordRejection { message, retryable } => Some(
                (
                    recorded_warning_string("巩固应用被拒绝", message.as_str(), &error),
                    *retryable,
                ),
            ),
            _ => None,
        };
        match rejected {
            None => {
                if error.is_some() {
                    let warning = recorded_warning_string(
                        "巩固取消",
                        "caller cancelled consolidation",
                        &error,
                    );
                    return self.end_with(ConsolidationRunStatus::Cancelled, warning);
                }
                self.end(ConsolidationRunStatus::Cancelled)
            },
            Some((warning, retryable)) => {
                if retryable && self.attempt < CONSOLIDATION_VALIDATION_ATTEMPTS {
                    let ghost w = warning@;
                    self.warn(warning);
                    let ghost middle = self.report.warnings@;
                    let step = self.retry();
                    assert(text::texts(self.report.warnings@) =~= text::texts(
                        before.report.warnings@,
                    ) + seq![w, retry_warning(self.attempt)]);
                    return step;
                }
                self.end_with(failed, warning)
            },
        }
    }

    fn on_applied(&mut self, watermark_after: usize, cancelled: bool) -> (step: ConsolidationStep)
        requires
            old(self).wf(),
            old(self).phase is Apply,
        ensures
            final(self).wf(),
            applied_handled(*old(self), watermark_after, cancelled, *final(self), step),
            final(self).enabled == old(self).enabled,
            final(self).batch == old(self).batch,
    {
        let decoded = match &self.phase {
            ConsolidationPhase::Apply { answer } => answer.decoded,
            _ => None,
        };
        self.phase = ConsolidationPhase::ReadBatch;
        self.report.batches_applied = self.report.batches_applied + 1;
        self.report.events_applied = self.report.events_applied + self.batch.events;
        if let Some(c) = decoded {
            self.report.entities_applied = self.report.entities_applied + c.entities;
            self.report.claims_applied = self.report.claims_applied + c.claims;
            self.report.boundaries_applied = self.report.boundaries_applied + c.boundaries;
        }
        self.report.watermark_after = watermark_after;
        let mut progress: Vec<ConsolidationProgress> = Vec::new();
        progress.push(
            ConsolidationProgress::BatchApplied {
                session_id: self.report.session_id.clone(),
                batches_applied: self.report.batches_applied,
                watermark_after,
            },
        );
        let action = if cancelled {
            self.end(ConsolidationRunStatus::Cancelled).action
        } else {
            ConsolidationAction::ReadBatch
        };
        ConsolidationStep { action, progress }
    }

    fn on_rejected(&mut self, validation_json: String, message: String, retryable: bool) -> (step:
        ConsolidationStep)
        requires
            old(self).wf(),
            old(self).phase is Apply,
        ensures
            final(self).wf(),
            rejection_handled(
                *old(self),
                validation_json@,
                message@,
                retryable,
                *final(self),
                step,
            ),
            final(self).enabled == old(self).enabled,
            final(self).batch == old(self).batch,
            step.progress@.len() == 0,
    {
        let (response, input_tokens, output_tokens) = match &self.phase {
            ConsolidationPhase::Apply { answer } => (
                consolidation_audit_response(answer.content.as_str()),
                answer.input_tokens,
                answer.output_tokens,
            ),
            _ => (String::new(), None, None),
        };
        let response_sha256 = Some(content_sha256(response.as_str()));
        let error_json = Some(consolidation_failure_json("apply", message.as_str()));
        self.phase = ConsolidationPhase::RecordRejection { message, retryable };
        quiet(
            ConsolidationAction::RecordFailure(
                AttemptOutcome {
                    status: ConsolidationAttemptStatus::Rejected,
                    response_json: Some(response),
                    response_sha256,
                    input_tokens,
                    output_tokens,
                    validation_json: Some(validation_json),
                    error_json,
                },
            ),
        )
    }

    /// Whether the counts can take in an event.
    pub fn can_count(&self, event: &RunEvent) -> (r: bool)
        ensures
            r == counts_fit(*self, *event),
    {
        match event {
            RunEvent::RequestBuilt { .. } => self.report.batches_attempted < usize::MAX
                && self.batch.events <= usize::MAX - self.report.events_attempted,
            RunEvent::ModelAnswered { answer } => match answer.decoded {
                Some(c) => c.entities <= usize::MAX - self.report.entities_attempted && c.claims
                    <= usize::MAX - self.report.claims_attempted && c.boundaries <= usize::MAX
                    - self.report.boundaries_attempted,
                None => true,
            },
            _ => true,
        }
    }

    /// Takes down an event and says what is to be done next.
    pub fn step(&mut self, event: RunEvent, cancelled: bool) -> (step: ConsolidationStep)
        requires
            old(self).wf(),
            event_fits(old(self).phase, event),
            counts_fit(*old(self), event),
        ensures
            final(self).wf(),
            run_stepped(*old(self), event, cancelled, *final(self), step),
    {
        match event {
            RunEvent::Controls { allowed } => self.on_controls(allowed, cancelled),
            RunEvent::SessionLoaded { model } => self.on_session(model, cancelled),
            RunEvent::WatermarkRead { watermark } => self.on_watermark(
                watermark,
                cancelled,
            ),
            RunEvent::BatchRead { batch } => self.on_batch(batch, cancelled),
            RunEvent::CandidatesRead { error } => self.on_candidates(error, cancelled),
            RunEvent::RequestBuilt { error } => self.on_request(error, cancelled),
            RunEvent::ModelAnswered { answer } => self.on_answer(answer, cancelled),
            RunEvent::ModelFailed { failure } => self.on_call_failure(failure),
            RunEvent::FailureRecorded { error } => self.on_recorded(error),
            RunEvent::Applied { watermark_after } => self.on_applied(
                watermark_after,
                cancelled,
            ),
            RunEvent::ApplyRejected { validation_json, message } => self.on_rejected(
                validation_json,
                message,
                true,
            ),
            RunEvent::ApplyStale { message } => {
                let validation = consolidation_failure_json("stale", message.as_str());
                self.on_rejected(validation, message, false)
            },
            RunEvent::ApplyFailed { message } => {
                let validation = consolidation_failure_json("retrieval", message.as_str());
                self.on_rejected(validation, message, false)
            },
        }
    }
}

/// A cancellation that is seen starts nothing: no batch is read, sent or
/// applied after it. Only an attempt to repair a rejected answer does not look.
pub proof fn cancellation_starts_nothing(
    before: ConsolidationRun,
    event: RunEvent,
    after: ConsolidationRun,
    step: ConsolidationStep,
)
    requires
        run_stepped(before, event, true, after, step),
        event_fits(before.phase, event),
        !(event is FailureRecorded),
    ensures
        step.action is Finish || step.action is RecordFailure,
{
}

/// What a report says of a run that is over: a failed one applied nothing, a
/// partial or completed one applied something, a completed one all that it
/// attempted, and one that was up to date or disabled attempted nothing. At most
/// one batch was left, and where none was applied the watermark has not moved.
pub proof fn finished_reports_add_up(run: ConsolidationRun)
    requires
        run.wf(),
        run.phase is Finished,
    ensures
        ({
            let r = run.report;
            &&& r.status == ConsolidationRunStatus::Failed ==> r.batches_applied == 0
            &&& r.status == ConsolidationRunStatus::Partial ==> r.batches_applied > 0
            &&& r.status == ConsolidationRunStatus::Completed ==> r.batches_applied > 0
                && r.batches_attempted == r.batches_applied && r.events_attempted
                == r.events_applied
            &&& r.status == ConsolidationRunStatus::UpToDate || r.status
                == ConsolidationRunStatus::Disabled ==> r.batches_attempted == 0
                && r.batches_applied == 0
            &&& r.batches_applied <= r.batches_attempted <= r.batches_applied + 1
            &&& r.batches_applied == 0 ==> r.watermark_after == r.watermark_before
        }),
{
}

/// A run that ends is partial exactly when it fails after something was applied.
pub proof fn failures_after_progress_are_partial(r: ConsolidationRunReport)
    ensures
        failure_status(r) == ConsolidationRunStatus::Partial <==> r.batches_applied > 0,
        failure_status(r) == ConsolidationRunStatus::Failed <==> r.batches_applied == 0,
{
}

/// An attempt, as it is kept for audit.
#[derive(Debug, PartialEq, Eq)]
pub struct ConsolidationAttemptRecord {
    pub attempt_id: String,
    pub batch_key: String,
    pub session_id: String,
    pub from_sequence: usize,
    pub through_sequence: usize,
    pub trigger: String,
    pub model: String,
    pub request_json: String,
    pub request_sha256: String,
    pub input_event_ids: Vec<String>,
    pub input_event_hashes: Vec<String>,
    pub outcome: AttemptOutcome,
    pub latency_ms: u64,
    pub started_at: String,
    pub completed_at: String,
}

/// When an attempt was made and how long it took.
#[derive(Debug)]
pub struct AttemptTiming {
    pub attempt_id: String,
    pub latency_ms: u64,
    pub started_at: String,
    pub completed_at: String,
}

/// The longest latency that a record can hold.
pub const MAX_LATENCY_MS: u64 = 0x7fff_ffff_ffff_ffff;

impl ConsolidationRun {
    /// The record of an attempt on the current batch, whose events are given by
    /// identifier and digest.
    pub fn attempt_record(
        &self,
        outcome: AttemptOutcome,
        request_json: &str,
        input_event_ids: Vec<String>,
        input_event_hashes: Vec<String>,
        timing: AttemptTiming,
    ) -> (r: ConsolidationAttemptRecord)
        ensures
            r.attempt_id == timing.attempt_id,
            r.batch_key@ == self.batch.batch_key@,
            r.session_id@ == self.report.session_id@,
            r.from_sequence == self.batch.from_sequence,
            r.through_sequence == self.batch.through_sequence,
            r.trigger@ == trigger_text(self.report.trigger),
            r.model@ == self.report.model@,
            r.request_json@ == request_json@,
            r.request_sha256@ == digest::text_digest(request_json@),
            r.input_event_ids == input_event_ids,
            r.input_event_hashes == input_event_hashes,
            r.outcome == outcome,
            r.latency_ms == (if timing.latency_ms <= MAX_LATENCY_MS {
                timing.latency_ms
            } else {
                MAX_LATENCY_MS
            }),
            r.started_at == timing.started_at,
            r.completed_at == timing.completed_at,
    {
        ConsolidationAttemptRecord {
            attempt_id: timing.attempt_id,
            batch_key: self.batch.batch_key.clone(),
            session_id: self.report.session_id.clone(),
            from_sequence: self.batch.from_sequence,
            through_sequence: self.batch.through_sequence,
            trigger: self.report.trigger.as_str().to_owned(),
            model: self.report.model.clone(),
            request_json: request_json.to_owned(),
            request_sha256: content_sha256(request_json),
            input_event_ids,
            input_event_hashes,
            outcome,
            latency_ms: if timing.latency_ms <= MAX_LATENCY_MS {
                timing.latency_ms
            } else {
                MAX_LATENCY_MS
            },
            started_at: timing.started_at,
            completed_at: timing.completed_at,
        }
    }
}

/// A session is loaded only where the controls allow it, memory is on and nobody
/// cancelled; in every other case the run is over at once.
pub proof fn only_allowed_sessions_are_loaded(
    before: ConsolidationRun,
    allowed: Result<bool, String>,
    cancelled: bool,
    after: ConsolidationRun,
    step: ConsolidationStep,
)
    requires
        run_stepped(before, RunEvent::Controls { allowed }, cancelled, after, step),
    ensures
        step.action is LoadSession <==> allowed == Ok::<bool, String>(true) && before.enabled
            && !cancelled,
        !(step.action is LoadSession) ==> step.action is Finish && after.phase is Finished,
        allowed == Ok::<bool, String>(true) && !before.enabled ==> after.report.status
            == ConsolidationRunStatus::Disabled,
        allowed == Ok::<bool, String>(true) && before.enabled && cancelled ==> after.report.status
            == ConsolidationRunStatus::Cancelled,
{
}

/// An answer that was refused is asked for again exactly where it can be mended
/// and fewer than three attempts were made; otherwise the run is over, failed
/// where it applied nothing and partial where it did.
pub proof fn refused_answers_are_retried_twice(
    before: ConsolidationRun,
    error: Option<String>,
    cancelled: bool,
    after: ConsolidationRun,
    step: ConsolidationStep,
)
    requires
        before.phase is RecordRejection,
        before.attempt < usize::MAX,
        run_stepped(before, RunEvent::FailureRecorded { error }, cancelled, after, step),
    ensures
        step.action is CallModel <==> before.phase->RecordRejection_retryable && before.attempt < 3,
        step.action is CallModel ==> after.attempt == before.attempt + 1 && after.batch
            == before.batch && after.report.batches_attempted == before.report.batches_attempted,
        !(step.action is CallModel) ==> step.action is Finish && (after.report.status
            == ConsolidationRunStatus::Failed <==> before.report.batches_applied == 0) && (
        after.report.status == ConsolidationRunStatus::Partial <==> before.report.batches_applied
            > 0),
{
}

/// Only an answer that is refused as invalid can be mended, not one that came too
/// late or could not be stored.
pub proof fn only_invalid_answers_can_be_mended(
    before: ConsolidationRun,
    event: RunEvent,
    cancelled: bool,
    after: ConsolidationRun,
    step: ConsolidationStep,
)
    requires
        before.phase is Apply,
        event is ApplyRejected || event is ApplyStale || event is ApplyFailed,
        run_stepped(before, event, cancelled, after, step),
    ensures
        after.phase is RecordRejection,
        after.phase->RecordRejection_retryable <==> event is ApplyRejected,
        step.action is RecordFailure,
        after.attempt == before.attempt,
        after.report == before.report,
{
}

/// A batch that was applied is counted with all it holds, moves the watermark to
/// where it ends, and is followed by the next one unless the run was cancelled.
pub proof fn applied_batches_are_counted(
    before: ConsolidationRun,
    watermark_after: usize,
    cancelled: bool,
    after: ConsolidationRun,
    step: ConsolidationStep,
)
    requires
        before.wf(),
        before.phase is Apply,
        run_stepped(before, RunEvent::Applied { watermark_after }, cancelled, after, step),
    ensures
        after.report.batches_applied == before.report.batches_applied + 1,
        after.report.events_applied == before.report.events_applied + before.batch.events,
        after.report.watermark_after == watermark_after,
        after.report.watermark_before == before.report.watermark_before,
        step.action is ReadBatch <==> !cancelled,
        cancelled ==> step.action is Finish && after.report.status
            == ConsolidationRunStatus::Cancelled,
        before.phase->Apply_answer.decoded matches Some(c) ==> after.report.entities_applied
            == before.report.entities_applied + c.entities && after.report.claims_applied
            == before.report.claims_applied + c.claims && after.report.boundaries_applied
            == before.report.boundaries_applied + c.boundaries,
{
}

/// A run goes on while there are batches, and is over when there is none: up to
/// date where it applied nothing, completed where it did.
pub proof fn runs_end_without_batches(
    before: ConsolidationRun,
    batch: Result<Option<BatchHead>, String>,
    cancelled: bool,
    after: ConsolidationRun,
    step: ConsolidationStep,
)
    requires
        run_stepped(before, RunEvent::BatchRead { batch }, cancelled, after, step),
    ensures
        batch matches Ok(Some(head)) ==> after.batch == head && (step.action is ReadCandidates
            <==> !cancelled),
        batch matches Ok(None) ==> step.action is Finish && after.report.status == (
        if before.report.batches_applied == 0 {
            ConsolidationRunStatus::UpToDate
        } else {
            ConsolidationRunStatus::Completed
        }),
        batch is Err ==> step.action is Finish && after.report.status == (
        if before.report.batches_applied == 0 {
            ConsolidationRunStatus::Failed
        } else {
            ConsolidationRunStatus::Partial
        }),
{
}

} // verus!
