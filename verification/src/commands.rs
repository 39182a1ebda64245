//! What the commands of the program decide.

use vstd::prelude::*;
use vstd::string::*;
use vstd::utf8::*;

use crate::channels::{self, RecallChannels};
use crate::consolidate::{ConsolidationRunReport, ConsolidationRunStatus, ConsolidationTrigger};
use crate::corpus::distinct;
use crate::dataset::{self, reject_parent_components, EvalPath};
use crate::digest::{self, bytes_sha256, hash_id, push_bytes};
use crate::json::{
    self, json_number, json_opt_text, json_text, json_texts, Json, JsonObject, JsonTree,
};
use crate::model::{self, identity_instruction, ChatMessage, TokenUsage};
use crate::order::{self, stable_order, KeyPart, PartModel};
use crate::text;
use crate::turn::{ChatEvent, ChatEventKind};

verus! {

/// One way of recalling that a benchmark is run with.
#[derive(Clone, Copy, Debug)]
pub struct EvalMatrix {
    pub name: &'static str,
    pub channels: RecallChannels,
}

pub open spec fn matrix_model(m: EvalMatrix) -> (Seq<char>, RecallChannels) {
    (m.name@, m.channels)
}

pub open spec fn matrix_models(v: Seq<EvalMatrix>) -> Seq<(Seq<char>, RecallChannels)> {
    Seq::new(v.len(), |i: int| matrix_model(v[i]))
}

pub open spec fn vector_channels(graph: bool) -> RecallChannels {
    RecallChannels {
        bm25: false,
        vector: true,
        entity: false,
        state: false,
        episode: false,
        graph,
    }
}

/// The ways of recalling that are compared: from words alone to everything.
pub open spec fn compared_matrices(memory_enabled: bool) -> Seq<(Seq<char>, RecallChannels)> {
    if memory_enabled {
        seq![
            ("bm25-only"@, channels::words_only()),
            ("vector-only"@, vector_channels(false)),
            ("vector-graph"@, vector_channels(true)),
            ("full"@, channels::all_channels()),
        ]
    } else {
        seq![("bm25-only"@, channels::words_only())]
    }
}

/// Lists the ways of recalling that the synthetic benchmark compares.
pub fn evaluation_matrices(memory_enabled: bool) -> (r: Vec<EvalMatrix>)
    ensures
        matrix_models(r@) == compared_matrices(memory_enabled),
{
    let mut out: Vec<EvalMatrix> = Vec::new();
    out.push(EvalMatrix { name: "bm25-only", channels: RecallChannels::bm25_only() });
    if memory_enabled {
        let vector = RecallChannels {
            bm25: false,
            vector: true,
            entity: false,
            state: false,
            episode: false,
            graph: false,
        };
        let linked = RecallChannels {
            bm25: false,
            vector: true,
            entity: false,
            state: false,
            episode: false,
            graph: true,
        };
        out.push(EvalMatrix { name: "vector-only", channels: vector });
        out.push(EvalMatrix { name: "vector-graph", channels: linked });
        out.push(EvalMatrix { name: "full", channels: RecallChannels::all() });
    }
    assert(matrix_models(out@) =~= compared_matrices(memory_enabled));
    out
}

/// The way of recalling that a dataset is run with.
pub fn dataset_matrix(memory_enabled: bool) -> (r: EvalMatrix)
    ensures
        matrix_model(r) == compared_matrices(memory_enabled).last(),
{
    if memory_enabled {
        EvalMatrix { name: "full", channels: RecallChannels::all() }
    } else {
        EvalMatrix { name: "bm25-only", channels: RecallChannels::bm25_only() }
    }
}

/// A benchmark needs ten candidates to judge a recall by.
pub fn check_candidate_limit(candidate_limit: usize) -> (r: Result<(), String>)
    ensures
        match r {
            Ok(_) => candidate_limit >= 10,
            Err(e) => candidate_limit < 10 && e@
                == "evaluation requires memory.candidate_limit >= 10"@,
        },
{
    if candidate_limit < 10 {
        return Err("evaluation requires memory.candidate_limit >= 10".to_owned());
    }
    Ok(())
}

/// The name of the directory that a run works in.
pub fn workspace_name(output_name: Option<&str>) -> (r: Result<String, String>)
    ensures
        match output_name {
            Some(name) => r matches Ok(s) && s@ == "."@ + name@ + ".workspace"@,
            None => r matches Err(e) && e@ == "evaluation output filename missing"@,
        },
{
    match output_name {
        Some(name) => {
            let mut out = ".".to_owned();
            out.append(name);
            out.append(".workspace");
            Ok(out)
        },
        None => Err("evaluation output filename missing".to_owned()),
    }
}

/// Whether one of two paths lies below the other, or they are the same.
pub open spec fn overlap(a: Seq<String>, b: Seq<String>) -> bool {
    dataset::lies_below(text::texts(a), text::texts(b)) || dataset::lies_below(
        text::texts(b),
        text::texts(a),
    )
}

pub open spec fn overlap_text(a: Seq<char>, b: Seq<char>) -> Seq<char> {
    a + " and "@ + b + " must be disjoint"@
}

fn ensure_disjoint(a: &EvalPath, b: &EvalPath, a_label: &str, b_label: &str) -> (r: Result<
    (),
    String,
>)
    ensures
        match r {
            Ok(_) => !overlap(a.resolved@, b.resolved@),
            Err(e) => overlap(a.resolved@, b.resolved@) && e@ == overlap_text(a_label@, b_label@),
        },
{
    if dataset::below(&a.resolved, &b.resolved) || dataset::below(&b.resolved, &a.resolved) {
        let mut e = a_label.to_owned();
        e.append(" and ");
        e.append(b_label);
        e.append(" must be disjoint");
        return Err(e);
    }
    Ok(())
}

/// What is wrong with where a run works, seen from what else is stored.
pub open spec fn isolation_fault(
    output: EvalPath,
    summary: EvalPath,
    workspace: EvalPath,
    sessions: EvalPath,
    config: Option<EvalPath>,
) -> Option<Seq<char>> {
    if dataset::climbs(output.given@) {
        Some(dataset::parent_refusal("evaluation output"@))
    } else if dataset::climbs(summary.given@) {
        Some(dataset::parent_refusal("evaluation summary"@))
    } else if dataset::climbs(workspace.given@) {
        Some(dataset::parent_refusal("evaluation workspace"@))
    } else if dataset::climbs(sessions.given@) {
        Some(dataset::parent_refusal("sessions directory"@))
    } else if overlap(workspace.resolved@, sessions.resolved@) {
        Some(overlap_text("evaluation workspace"@, "sessions directory"@))
    } else {
        match config {
            None => None,
            Some(c) => if dataset::climbs(c.given@) {
                Some(dataset::parent_refusal("config path"@))
            } else if text::texts(output.resolved@) == text::texts(c.resolved@) {
                Some("evaluation output and config path must be distinct"@)
            } else if text::texts(summary.resolved@) == text::texts(c.resolved@) {
                Some("evaluation summary and config path must be distinct"@)
            } else if overlap(workspace.resolved@, c.resolved@) {
                Some(overlap_text("evaluation workspace"@, "config path"@))
            } else {
                None
            },
        }
    }
}

/// Checks that a run keeps away from the sessions and the configuration.
pub fn validate_eval_store_isolation(
    output: &EvalPath,
    summary: &EvalPath,
    workspace: &EvalPath,
    sessions: &EvalPath,
    config: Option<&EvalPath>,
) -> (r: Result<(), String>)
    ensures
        match r {
            Ok(_) => isolation_fault(
                *output,
                *summary,
                *workspace,
                *sessions,
                dataset::opt_path(config),
            ) is None,
            Err(e) => isolation_fault(
                *output,
                *summary,
                *workspace,
                *sessions,
                dataset::opt_path(config),
            ) == Some(e@),
        },
{
    if let Err(e) = reject_parent_components(&output.given, "evaluation output") {
        return Err(e);
    }
    if let Err(e) = reject_parent_components(&summary.given, "evaluation summary") {
        return Err(e);
    }
    if let Err(e) = reject_parent_components(&workspace.given, "evaluation workspace") {
        return Err(e);
    }
    if let Err(e) = reject_parent_components(&sessions.given, "sessions directory") {
        return Err(e);
    }
    if let Err(e) = ensure_disjoint(
        workspace,
        sessions,
        "evaluation workspace",
        "sessions directory",
    ) {
        return Err(e);
    }
    if let Some(c) = config {
        if let Err(e) = reject_parent_components(&c.given, "config path") {
            return Err(e);
        }
        if dataset::same_path(&output.resolved, &c.resolved) {
            return Err("evaluation output and config path must be distinct".to_owned());
        }
        if dataset::same_path(&summary.resolved, &c.resolved) {
            return Err("evaluation summary and config path must be distinct".to_owned());
        }
        if let Err(e) = ensure_disjoint(workspace, c, "evaluation workspace", "config path") {
            return Err(e);
        }
    }
    Ok(())
}

/// The embeddings of a disabled memory are not made anew.
pub fn check_rebuild(reembed: bool, memory_enabled: bool) -> (r: Result<(), String>)
    ensures
        match r {
            Ok(_) => !reembed || memory_enabled,
            Err(e) => reembed && !memory_enabled && e@
                == "memory rebuild --reembed requires memory.enabled=true"@,
        },
{
    if reembed && !memory_enabled {
        return Err("memory rebuild --reembed requires memory.enabled=true".to_owned());
    }
    Ok(())
}

/// The bytes that identify a search: the query, the session and the first `n`
/// channels, each behind a zero byte.
pub open spec fn search_bytes(
    query: Seq<char>,
    session: Option<Seq<char>>,
    names: Seq<Seq<char>>,
    n: int,
) -> Seq<u8>
    decreases n,
{
    if n <= 0 {
        encode_utf8("hippocampus-memory-search-sentinel-v1\0"@) + encode_utf8(query)
            + encode_utf8("\0"@) + encode_utf8(
            match session {
                Some(id) => id,
                None => "<all-sessions>"@,
            },
        )
    } else {
        search_bytes(query, session, names, n - 1) + encode_utf8("\0"@) + encode_utf8(
            names[n - 1],
        )
    }
}

/// The id that a search of the memory goes by.
pub fn memory_search_sentinel(query: &str, session_id: Option<&str>, names: &Vec<&str>) -> (r: String)
    ensures
        r@ == "synthetic-memory-search-"@ + digest::sha256_hex(
            search_bytes(
                query@,
                model::opt_str(session_id),
                json::strs(names@),
                names@.len() as int,
            ),
        ),
        digest::hash_id_shape(r@, "synthetic-memory-search-"@),
{
    let ghost all = json::strs(names@);
    let ghost session = model::opt_str(session_id);
    let mut bytes: Vec<u8> = Vec::new();
    push_bytes(&mut bytes, "hippocampus-memory-search-sentinel-v1\0".as_bytes());
    push_bytes(&mut bytes, query.as_bytes());
    push_bytes(&mut bytes, "\0".as_bytes());
    match session_id {
        Some(id) => push_bytes(&mut bytes, id.as_bytes()),
        None => push_bytes(&mut bytes, "<all-sessions>".as_bytes()),
    }
    assert(bytes@ =~= search_bytes(query@, session, all, 0));
    let mut i: usize = 0;
    while i < names.len()
        invariant
            i <= names@.len(),
            all == json::strs(names@),
            bytes@ == search_bytes(query@, session, all, i as int),
        decreases names.len() - i,
    {
        assert(all[i as int] == names@[i as int]@);
        push_bytes(&mut bytes, "\0".as_bytes());
        push_bytes(&mut bytes, names[i].as_bytes());
        i += 1;
    }
    hash_id("synthetic-memory-search-", bytes_sha256(bytes.as_slice()).as_str())
}

/// What the bulk consolidation orders sessions by.
#[derive(Debug, PartialEq, Eq)]
pub struct SessionKey {
    pub id: String,
    pub updated_at: String,
}

pub open spec fn bulk_keys(v: Seq<SessionKey>) -> Seq<Seq<PartModel>> {
    Seq::new(
        v.len(),
        |i: int| seq![PartModel::TextDown(v[i].updated_at@), PartModel::Text(v[i].id@)],
    )
}

/// Orders sessions for the bulk consolidation: the latest first, then by id.
pub fn order_sessions_for_bulk_consolidation(v: &Vec<SessionKey>) -> (r: Vec<usize>)
    ensures
        order::indices(r@) == order::ordered(bulk_keys(v@), v@.len() as int),
        r@.len() == v@.len(),
        forall|i: int| 0 <= i < r@.len() ==> #[trigger] r@[i] < v@.len(),
{
    let mut keys: Vec<Vec<KeyPart>> = Vec::new();
    let mut i: usize = 0;
    while i < v.len()
        invariant
            i <= v@.len(),
            keys@.len() == i,
            forall|k: int|
                0 <= k < i ==> order::key_model(#[trigger] keys@[k]@) == bulk_keys(v@)[k],
        decreases v.len() - i,
    {
        let mut key: Vec<KeyPart> = Vec::new();
        key.push(KeyPart::TextDown(v[i].updated_at.clone()));
        key.push(KeyPart::Text(v[i].id.clone()));
        assert(order::key_model(key@) =~= bulk_keys(v@)[i as int]);
        keys.push(key);
        i += 1;
    }
    assert(order::key_models(keys@) =~= bulk_keys(v@));
    stable_order(&keys)
}

/// The bulk consolidation takes up every session once, no session before one
/// that was updated later, and of two that were updated at the same time the one
/// with the smaller id first.
pub proof fn bulk_order_is_by_recency(v: Seq<SessionKey>, i: int, j: int)
    requires
        0 <= i < j < v.len(),
    ensures
        ({
            let order = order::ordered(bulk_keys(v), v.len() as int);
            let a = v[order[i]];
            let b = v[order[j]];
            &&& order.len() == v.len()
            &&& !text::text_lt(a.updated_at@, b.updated_at@)
            &&& a.updated_at@ == b.updated_at@ ==> !text::text_lt(b.id@, a.id@)
        }),
{
    let keys = bulk_keys(v);
    let n = v.len() as int;
    order::ordered_is_complete(keys, n);
    assert(order::one_shape(keys)) by {
        assert forall|p: int, q: int| 0 <= p < keys.len() && 0 <= q < keys.len() implies order::same_shape(
            #[trigger] keys[p],
            #[trigger] keys[q],
        ) by {
            assert(keys[p].len() == 2 && keys[q].len() == 2);
        }
    }
    order::ordered_is_sorted(keys, n);
    let order = order::ordered(keys, n);
    let a = keys[order[i]];
    let b = keys[order[j]];
    assert(!order::key_lt(b, a, 0));
    reveal_with_fuel(order::key_lt, 3);
    assert(a[0] == PartModel::TextDown(v[order[i]].updated_at@));
    assert(b[0] == PartModel::TextDown(v[order[j]].updated_at@));
    assert(a[1] == PartModel::Text(v[order[i]].id@));
    assert(b[1] == PartModel::Text(v[order[j]].id@));
    text::text_lt_irreflexive(v[order[i]].updated_at@);
}

/// Why the terminal interface was left.
#[derive(Clone, Copy, Debug, PartialEq, Eq, Structural)]
pub enum TuiExitReason {
    ExitCommand,
    IdleCtrlC,
}

/// What a consolidation is put down to when the terminal interface was left.
pub fn consolidation_trigger_for_tui_exit(reason: TuiExitReason) -> (r: ConsolidationTrigger)
    ensures
        r == (match reason {
            TuiExitReason::ExitCommand => ConsolidationTrigger::TuiExit,
            TuiExitReason::IdleCtrlC => ConsolidationTrigger::TuiIdleCtrlC,
        }),
{
    match reason {
        TuiExitReason::ExitCommand => ConsolidationTrigger::TuiExit,
        TuiExitReason::IdleCtrlC => ConsolidationTrigger::TuiIdleCtrlC,
    }
}

/// How the consolidation of a session begins.
#[derive(Debug, PartialEq, Eq)]
pub enum ConsolidationStart {
    /// It is over: the status and the warnings of its report.
    Over { status: ConsolidationRunStatus, warnings: Vec<String> },
    /// It is run.
    Run,
}

/// Decides how the consolidation of a session begins; `client_error` tells why
/// there is no client.
pub fn begin_consolidation(memory_enabled: bool, cancelled: bool, client_error: Option<&str>) -> (r:
    ConsolidationStart)
    ensures
        if !memory_enabled {
            r matches ConsolidationStart::Over { status, warnings } && status
                == ConsolidationRunStatus::Disabled && warnings@.len() == 0
        } else if cancelled {
            r matches ConsolidationStart::Over { status, warnings } && status
                == ConsolidationRunStatus::Cancelled && warnings@.len() == 0
        } else {
            match client_error {
                Some(e) => r matches ConsolidationStart::Over { status, warnings } && status
                    == ConsolidationRunStatus::Failed && text::texts(warnings@) == seq![
                    "无法创建 Ollama 客户端："@ + e@,
                ],
                None => r is Run,
            }
        },
{
    if !memory_enabled {
        return ConsolidationStart::Over {
            status: ConsolidationRunStatus::Disabled,
            warnings: Vec::new(),
        };
    }
    if cancelled {
        return ConsolidationStart::Over {
            status: ConsolidationRunStatus::Cancelled,
            warnings: Vec::new(),
        };
    }
    match client_error {
        Some(e) => {
            let mut notice = "无法创建 Ollama 客户端：".to_owned();
            notice.append(e);
            let mut warnings: Vec<String> = Vec::new();
            warnings.push(notice);
            assert(text::texts(warnings@) =~= seq!["无法创建 Ollama 客户端："@ + e@]);
            ConsolidationStart::Over { status: ConsolidationRunStatus::Failed, warnings }
        },
        None => ConsolidationStart::Run,
    }
}

/// Whether the bulk consolidation goes on after a session.
pub fn bulk_goes_on(status: ConsolidationRunStatus, cancelled: bool) -> (r: bool)
    ensures
        r == (status != ConsolidationRunStatus::Cancelled && !cancelled),
{
    status != ConsolidationRunStatus::Cancelled && !cancelled
}

/// A report in JSON.
pub open spec fn report_tree(r: ConsolidationRunReport) -> JsonTree {
    JsonTree::Object(
        seq![
            ("session_id"@, JsonTree::Text(r.session_id@)),
            ("trigger"@, JsonTree::Text(crate::consolidate::trigger_text(r.trigger))),
            ("model"@, JsonTree::Text(r.model@)),
            ("status"@, JsonTree::Text(crate::consolidate::run_status_text(r.status))),
            ("batches_attempted"@, json::number_tree(r.batches_attempted as u64)),
            ("batches_applied"@, json::number_tree(r.batches_applied as u64)),
            ("events_attempted"@, json::number_tree(r.events_attempted as u64)),
            ("events_applied"@, json::number_tree(r.events_applied as u64)),
            ("entities_attempted"@, json::number_tree(r.entities_attempted as u64)),
            ("entities_applied"@, json::number_tree(r.entities_applied as u64)),
            ("claims_attempted"@, json::number_tree(r.claims_attempted as u64)),
            ("claims_applied"@, json::number_tree(r.claims_applied as u64)),
            ("boundaries_attempted"@, json::number_tree(r.boundaries_attempted as u64)),
            ("boundaries_applied"@, json::number_tree(r.boundaries_applied as u64)),
            ("watermark_before"@, json::number_tree(r.watermark_before as u64)),
            ("watermark_after"@, json::number_tree(r.watermark_after as u64)),
            ("warnings"@, JsonTree::Array(json::text_trees(text::texts(r.warnings@)))),
        ],
    )
}

pub open spec fn report_trees(v: Seq<ConsolidationRunReport>) -> Seq<JsonTree> {
    Seq::new(v.len(), |i: int| report_tree(v[i]))
}

fn json_report(r: &ConsolidationRunReport) -> (out: Json)
    ensures
        json::tree(out) == report_tree(*r),
{
    let object = JsonObject::new().with("session_id", json_text(r.session_id.as_str())).with(
        "trigger",
        json_text(r.trigger.as_str()),
    ).with("model", json_text(r.model.as_str())).with(
        "status",
        json_text(r.status.as_str()),
    ).with("batches_attempted", json_number(r.batches_attempted as u64)).with(
        "batches_applied",
        json_number(r.batches_applied as u64),
    ).with("events_attempted", json_number(r.events_attempted as u64)).with(
        "events_applied",
        json_number(r.events_applied as u64),
    ).with("entities_attempted", json_number(r.entities_attempted as u64)).with(
        "entities_applied",
        json_number(r.entities_applied as u64),
    ).with("claims_attempted", json_number(r.claims_attempted as u64)).with(
        "claims_applied",
        json_number(r.claims_applied as u64),
    ).with("boundaries_attempted", json_number(r.boundaries_attempted as u64)).with(
        "boundaries_applied",
        json_number(r.boundaries_applied as u64),
    ).with("watermark_before", json_number(r.watermark_before as u64)).with(
        "watermark_after",
        json_number(r.watermark_after as u64),
    ).with("warnings", json_texts(&r.warnings));
    assert(object.list() =~= report_tree(*r)->Object_0);
    object.finish()
}

/// The reports of a consolidation in JSON.
pub fn json_reports(v: &Vec<ConsolidationRunReport>) -> (r: Json)
    ensures
        json::tree(r) == JsonTree::Object(
            seq![("reports"@, JsonTree::Array(report_trees(v@)))],
        ),
{
    let mut list: Vec<Json> = Vec::new();
    let mut i: usize = 0;
    while i < v.len()
        invariant
            i <= v@.len(),
            list@.len() == i,
            forall|k: int| 0 <= k < i ==> json::tree(#[trigger] list@[k]) == report_tree(v@[k]),
        decreases v.len() - i,
    {
        list.push(json_report(&v[i]));
        i += 1;
    }
    proof {
        json::trees_index(list@, list@.len() as int);
        assert(json::trees(list@, list@.len() as int) =~= report_trees(v@));
    }
    let object = JsonObject::new().with("reports", Json::Array(list));
    assert(object.list() =~= seq![("reports"@, JsonTree::Array(report_trees(v@)))]);
    object.finish()
}

pub open spec fn opt_number_tree(n: Option<u64>) -> JsonTree {
    match n {
        Some(n) => json::number_tree(n),
        None => JsonTree::Null,
    }
}

fn json_opt_number(n: Option<u64>) -> (r: Json)
    ensures
        json::tree(r) == opt_number_tree(n),
{
    match n {
        Some(n) => json_number(n),
        None => Json::Null,
    }
}

pub open spec fn usage_tree(u: Option<TokenUsage>) -> JsonTree {
    match u {
        Some(u) => JsonTree::Object(
            seq![
                ("input_tokens"@, opt_number_tree(u.input_tokens)),
                ("output_tokens"@, opt_number_tree(u.output_tokens)),
                ("total_tokens"@, opt_number_tree(u.total_tokens)),
            ],
        ),
        None => JsonTree::Null,
    }
}

pub fn json_usage(u: Option<TokenUsage>) -> (r: Json)
    ensures
        json::tree(r) == usage_tree(u),
{
    match u {
        Some(u) => {
            let object = JsonObject::new().with(
                "input_tokens",
                json_opt_number(u.input_tokens),
            ).with("output_tokens", json_opt_number(u.output_tokens)).with(
                "total_tokens",
                json_opt_number(u.total_tokens),
            );
            assert(object.list() =~= usage_tree(Some(u))->Object_0);
            object.finish()
        },
        None => Json::Null,
    }
}

/// A streamed event in JSON, in order of the names of its parts.
pub open spec fn event_tree(e: ChatEvent) -> JsonTree {
    let live = ("live_output_tokens"@, opt_number_tree(e.live_output_tokens));
    match e.kind {
        ChatEventKind::Thinking => JsonTree::Object(
            seq![
                ("delta"@, JsonTree::Text(e.text@)),
                ("event"@, JsonTree::Text("thinking"@)),
                live,
            ],
        ),
        ChatEventKind::Content => JsonTree::Object(
            seq![
                ("delta"@, JsonTree::Text(e.text@)),
                ("event"@, JsonTree::Text("content"@)),
                live,
            ],
        ),
        ChatEventKind::Usage => JsonTree::Object(
            seq![("event"@, JsonTree::Text("usage"@)), live],
        ),
        ChatEventKind::Completed => JsonTree::Object(
            seq![
                ("done_reason"@, json::opt_text_tree(text::opt_text(e.done_reason))),
                ("event"@, JsonTree::Text("completed"@)),
                live,
                ("usage"@, usage_tree(e.usage)),
            ],
        ),
    }
}

/// A streamed event in JSON.
pub fn json_stream_event(e: &ChatEvent) -> (r: Json)
    ensures
        json::tree(r) == event_tree(*e),
{
    let live = json_opt_number(e.live_output_tokens);
    let object = match e.kind {
        ChatEventKind::Thinking => JsonObject::new().with(
            "delta",
            json_text(e.text.as_str()),
        ).with("event", json_text("thinking")).with("live_output_tokens", live),
        ChatEventKind::Content => JsonObject::new().with(
            "delta",
            json_text(e.text.as_str()),
        ).with("event", json_text("content")).with("live_output_tokens", live),
        ChatEventKind::Usage => JsonObject::new().with("event", json_text("usage")).with(
            "live_output_tokens",
            live,
        ),
        ChatEventKind::Completed => {
            let reason = match &e.done_reason {
                Some(s) => json_opt_text(Some(s.as_str())),
                None => json_opt_text(None),
            };
            JsonObject::new().with("done_reason", reason).with(
                "event",
                json_text("completed"),
            ).with("live_output_tokens", live).with("usage", json_usage(e.usage))
        },
    };
    assert(object.list() =~= event_tree(*e)->Object_0);
    object.finish()
}

/// Where a streamed event is shown.
#[derive(Clone, Copy, Debug, PartialEq, Eq, Structural)]
pub enum StreamOutput {
    JsonLine,
    Answer,
    Aside,
    Nowhere,
}

/// Decides where a streamed event is shown.
pub fn stream_output(kind: ChatEventKind, json_output: bool, show_thinking: bool) -> (r: StreamOutput)
    ensures
        r == (if json_output {
            StreamOutput::JsonLine
        } else if kind == ChatEventKind::Content {
            StreamOutput::Answer
        } else if kind == ChatEventKind::Thinking && show_thinking {
            StreamOutput::Aside
        } else {
            StreamOutput::Nowhere
        }),
{
    if json_output {
        StreamOutput::JsonLine
    } else if kind == ChatEventKind::Content {
        StreamOutput::Answer
    } else if kind == ChatEventKind::Thinking && show_thinking {
        StreamOutput::Aside
    } else {
        StreamOutput::Nowhere
    }
}

/// The end of an answer without a session, in JSON.
pub open spec fn stateless_tree(
    thinking: Seq<char>,
    content: Seq<char>,
    usage: Option<TokenUsage>,
) -> JsonTree {
    JsonTree::Object(
        seq![
            ("content"@, JsonTree::Text(content)),
            ("event"@, JsonTree::Text("done"@)),
            ("session_id"@, JsonTree::Null),
            ("stateless"@, JsonTree::Bool(true)),
            ("thinking"@, JsonTree::Text(thinking)),
            ("usage"@, usage_tree(usage)),
        ],
    )
}

/// The end of an answer without a session, in JSON.
pub fn json_stateless_done(thinking: &str, content: &str, usage: Option<TokenUsage>) -> (r: Json)
    ensures
        json::tree(r) == stateless_tree(thinking@, content@, usage),
{
    let object = JsonObject::new().with("content", json_text(content)).with(
        "event",
        json_text("done"),
    ).with("session_id", Json::Null).with("stateless", Json::Bool(true)).with(
        "thinking",
        json_text(thinking),
    ).with("usage", json_usage(usage));
    assert(object.list() =~= stateless_tree(thinking@, content@, usage)->Object_0);
    object.finish()
}

/// What is sent for a question without a session.
pub open spec fn stateless_texts(
    system_prompt: Seq<char>,
    ai_name: Seq<char>,
    prompt: Seq<char>,
) -> Seq<(Seq<char>, Seq<char>)> {
    let identity = ("system"@, model::identity_text(ai_name));
    let question = ("user"@, prompt);
    if system_prompt.len() == 0 {
        seq![identity, question]
    } else {
        seq![("system"@, system_prompt), identity, question]
    }
}

/// Makes the messages of a question without a session.
pub fn stateless_messages(system_prompt: &str, ai_name: &str, prompt: &str) -> (r: Vec<ChatMessage>)
    ensures
        model::message_texts(r@) == stateless_texts(system_prompt@, ai_name@, prompt@),
{
    let mut out: Vec<ChatMessage> = Vec::new();
    if system_prompt.unicode_len() > 0 {
        out.push(ChatMessage { role: "system".to_owned(), content: system_prompt.to_owned() });
    }
    out.push(ChatMessage { role: "system".to_owned(), content: identity_instruction(ai_name) });
    out.push(ChatMessage { role: "user".to_owned(), content: prompt.to_owned() });
    assert(model::message_texts(out@) =~= stateless_texts(system_prompt@, ai_name@, prompt@));
    out
}

/// The system prompt that is used: that of a file, else that of the command
/// line, else the configured one.
pub fn chosen_prompt(file: Option<&str>, given: Option<&str>, configured: &str) -> (r: String)
    ensures
        r@ == (match (file, given) {
            (Some(s), _) => s@,
            (None, Some(s)) => s@,
            (None, None) => configured@,
        }),
{
    match file {
        Some(s) => s.to_owned(),
        None => match given {
            Some(s) => s.to_owned(),
            None => configured.to_owned(),
        },
    }
}

/// Whether the model is asked to think aloud.
pub fn thinking_enabled(think: bool, no_think: bool) -> (r: bool)
    ensures
        r == (think && !no_think),
{
    think && !no_think
}

/// What a question in a session does when its context has grown too long.
#[derive(Clone, Copy, Debug, PartialEq, Eq, Structural)]
pub enum LimitChoice {
    Proceed,
    Trim,
    End,
}

/// Decides what a question in a session does at the limit of its context.
pub fn limit_choice(needs_decision: bool, trim: bool) -> (r: LimitChoice)
    ensures
        r == (if !needs_decision {
            LimitChoice::Proceed
        } else if trim {
            LimitChoice::Trim
        } else {
            LimitChoice::End
        }),
{
    if !needs_decision {
        LimitChoice::Proceed
    } else if trim {
        LimitChoice::Trim
    } else {
        LimitChoice::End
    }
}

/// The warnings of a turn: those of the knowledge base and of the web, sorted and
/// without repetitions.
pub fn turn_warnings(knowledge: &Vec<String>, web: &Vec<String>) -> (r: Vec<String>)
    ensures
        text::texts(r@) == text::distinct_sorted(text::texts(knowledge@) + text::texts(web@)),
{
    text::union_of(knowledge, web)
}

/// Where nothing is wrong with where a run works, no path lies below its workspace
/// and below the sessions or the configuration at once, nothing climbs to a parent,
/// and the configuration is not written over.
pub proof fn isolated_runs_share_no_path(
    output: EvalPath,
    summary: EvalPath,
    workspace: EvalPath,
    sessions: EvalPath,
    config: Option<EvalPath>,
    path: Seq<Seq<char>>,
)
    requires
        isolation_fault(output, summary, workspace, sessions, config) is None,
        text::texts(workspace.resolved@).is_prefix_of(path),
    ensures
        !text::texts(sessions.resolved@).is_prefix_of(path),
        config matches Some(c) ==> !text::texts(c.resolved@).is_prefix_of(path) && text::texts(
            c.resolved@,
        ) != text::texts(output.resolved@) && text::texts(c.resolved@) != text::texts(
            summary.resolved@,
        ),
        forall|i: int| 0 <= i < output.given@.len() ==> (#[trigger] output.given@[i])@ != ".."@,
        forall|i: int| 0 <= i < workspace.given@.len() ==> (#[trigger] workspace.given@[i])@ != ".."@,
{
    let w = text::texts(workspace.resolved@);
    if text::texts(sessions.resolved@).is_prefix_of(path) {
        prefixes_of_one_path_overlap(w, text::texts(sessions.resolved@), path);
    }
    if config is Some && text::texts(config->0.resolved@).is_prefix_of(path) {
        prefixes_of_one_path_overlap(w, text::texts(config->0.resolved@), path);
    }
    assert forall|i: int| 0 <= i < output.given@.len() implies (#[trigger] output.given@[i])@
        != ".."@ by {
        assert(text::texts(output.given@)[i] == output.given@[i]@);
    }
    assert forall|i: int| 0 <= i < workspace.given@.len() implies (#[trigger] workspace.given@[i])@
        != ".."@ by {
        assert(text::texts(workspace.given@)[i] == workspace.given@[i]@);
    }
}

proof fn prefixes_of_one_path_overlap(a: Seq<Seq<char>>, b: Seq<Seq<char>>, path: Seq<Seq<char>>)
    requires
        a.is_prefix_of(path),
        b.is_prefix_of(path),
    ensures
        dataset::lies_below(a, b) || dataset::lies_below(b, a),
{
    if a.len() <= b.len() {
        assert(b.take(a.len() as int) =~= a);
    } else {
        assert(a.take(b.len() as int) =~= b);
    }
}

} // verus!
