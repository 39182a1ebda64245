//! The lines that the program prints.

use vstd::prelude::*;
use vstd::string::*;

use crate::config::KnowledgeSourceKind;
use crate::consolidate::{ConsolidationRunReport, ConsolidationRunStatus};
use crate::control::{ControlAction, ControlRecord, ControlTargetKind};
use crate::corpus::EvalBenchmark;
use crate::knowledge::KnowledgeEvidence;
use crate::model::{
    ChannelTrace, EventRole, EvidenceKind, RecalledEvidence, RetrievalChannel, Session,
    SessionStatus, TokenUsage, Turn, TurnStatus,
};
use crate::refresh::EmbeddingRefreshReport;
use crate::stored::GraphMaterializationReport;
use crate::syncing::{KnowledgeSourceStatus, KnowledgeSyncReport};
use crate::text::{self, chars_of, compact, decimal_string, push_decimal};

verus! {

/// What a rebuild of the derived data did.
#[derive(Debug, PartialEq, Eq)]
pub struct RebuildReport {
    pub sessions: usize,
    pub events: usize,
    pub spans: usize,
    pub answer_contexts: usize,
    pub documents: usize,
    pub control_generation_sha256: String,
    pub ledger_attempts_preserved: usize,
    pub consolidation_attempts_replayed: usize,
    pub consolidation_attempts_skipped_inactive: usize,
    pub consolidation_attempts_skipped_dependency: usize,
    pub embeddings_reused: usize,
}

/// The state of the memory.
#[derive(Debug, PartialEq, Eq)]
pub struct MemoryStatus {
    pub session_id: Option<String>,
    pub healthy: bool,
    pub memory_enabled: bool,
    pub projection_current: bool,
    pub expected_control_generation_sha256: String,
    pub indexed_control_generation_sha256: Option<String>,
    pub validation_error: Option<String>,
}

/// What the memory holds.
#[derive(Debug, PartialEq, Eq)]
pub struct MemoryMetrics {
    pub active_sessions: usize,
    pub active_events: usize,
    pub embedding_total: usize,
    pub embedding_compatible: usize,
    pub embedding_stale: usize,
    pub pending_consolidation_events: usize,
    pub entity_count: usize,
    pub episode_count: usize,
    pub graph_current: bool,
    pub graph_node_count: Option<u64>,
    pub graph_edge_count: Option<u64>,
    pub attempts_applied: usize,
    pub attempts_rejected: usize,
    pub attempts_model_error: usize,
    pub attempts_cancelled: usize,
    pub attempts_failed: usize,
    pub consolidation_samples: usize,
    pub consolidation_p50_ms: Option<u64>,
    pub consolidation_p95_ms: Option<u64>,
    pub retrieval_runs: usize,
    pub retrieval_failures: usize,
    pub retrieval_samples: usize,
    pub retrieval_p50_ms: Option<u64>,
    pub retrieval_p95_ms: Option<u64>,
}

/// What is printed about a benchmark run.
#[derive(Debug, PartialEq, Eq)]
pub struct EvalRunLines {
    pub benchmark: EvalBenchmark,
    pub matrix: String,
    pub output: String,
    pub summary_path: String,
    pub resumed_records: usize,
    pub appended_records: usize,
    pub completed_questions: usize,
    pub requested_questions: usize,
    pub run_fingerprint: String,
}

/// A text that may be missing, or what stands in for it.
pub open spec fn or_text(o: Option<String>, other: Seq<char>) -> Seq<char> {
    match o {
        Some(s) => s@,
        None => other,
    }
}

pub fn or_else<'a>(o: &'a Option<String>, other: &'a str) -> (r: &'a str)
    ensures
        r@ == or_text(*o, other@),
{
    match o {
        Some(s) => s.as_str(),
        None => other,
    }
}

/// A text on one line, cut off after `limit` characters.
pub open spec fn brief_text(s: Seq<char>, limit: nat) -> Seq<char> {
    let line = text::compacted(s, limit);
    if line.len() == 0 {
        "（无）"@
    } else {
        line
    }
}

pub fn brief(s: &str, limit: usize) -> (r: String)
    ensures
        r@ == brief_text(s@, limit as nat),
{
    let line = compact(s, limit);
    if chars_of(line.as_str()).len() == 0 {
        return "（无）".to_owned();
    }
    line
}

pub open spec fn format_consolidation_report_text(r: ConsolidationRunReport) -> Seq<char> {
    "会话 "@
        + r.session_id@
        + "｜模型 "@
        + r.model@
        + "｜"@
        + consolidation_status_label_text(r.status)
        + "｜批次 "@
        + text::decimal(r.batches_applied as nat)
        + "/"@
        + text::decimal(r.batches_attempted as nat)
        + "｜事件 "@
        + text::decimal(r.events_applied as nat)
        + "/"@
        + text::decimal(r.events_attempted as nat)
        + "｜实体 "@
        + text::decimal(r.entities_applied as nat)
        + "/"@
        + text::decimal(r.entities_attempted as nat)
        + "｜声明 "@
        + text::decimal(r.claims_applied as nat)
        + "/"@
        + text::decimal(r.claims_attempted as nat)
        + "｜边界 "@
        + text::decimal(r.boundaries_applied as nat)
        + "/"@
        + text::decimal(r.boundaries_attempted as nat)
        + "｜水位 "@
        + text::decimal(r.watermark_before as nat)
        + "→"@
        + text::decimal(r.watermark_after as nat)
}

/// One line about the consolidation of a session.
pub fn format_consolidation_report(r: &ConsolidationRunReport) -> (line: String)
    ensures
        line@ == format_consolidation_report_text(*r),
{
    let mut out = "会话 ".to_owned();
    out.append(r.session_id.as_str());
    out.append("｜模型 ");
    out.append(r.model.as_str());
    out.append("｜");
    out.append(consolidation_status_label(r.status));
    out.append("｜批次 ");
    push_decimal(&mut out, r.batches_applied as u64);
    out.append("/");
    push_decimal(&mut out, r.batches_attempted as u64);
    out.append("｜事件 ");
    push_decimal(&mut out, r.events_applied as u64);
    out.append("/");
    push_decimal(&mut out, r.events_attempted as u64);
    out.append("｜实体 ");
    push_decimal(&mut out, r.entities_applied as u64);
    out.append("/");
    push_decimal(&mut out, r.entities_attempted as u64);
    out.append("｜声明 ");
    push_decimal(&mut out, r.claims_applied as u64);
    out.append("/");
    push_decimal(&mut out, r.claims_attempted as u64);
    out.append("｜边界 ");
    push_decimal(&mut out, r.boundaries_applied as u64);
    out.append("/");
    push_decimal(&mut out, r.boundaries_attempted as u64);
    out.append("｜水位 ");
    push_decimal(&mut out, r.watermark_before as u64);
    out.append("→");
    push_decimal(&mut out, r.watermark_after as u64);
    out
}

pub open spec fn consolidating_notice_text(session_id: Seq<char>, model: Seq<char>) -> Seq<char> {
    "巩固中：会话 "@
        + session_id
        + "（模型 "@
        + model
        + "）…"@
}

/// The notice that a session is being consolidated.
pub fn consolidating_notice(session_id: &str, model: &str) -> (line: String)
    ensures
        line@ == consolidating_notice_text(session_id@, model@),
{
    let mut out = "巩固中：会话 ".to_owned();
    out.append(session_id);
    out.append("（模型 ");
    out.append(model);
    out.append("）…");
    out
}

pub open spec fn warning_line_text(warning: Seq<char>) -> Seq<char> {
    "警告："@
        + warning
}

/// A warning.
pub fn warning_line(warning: &str) -> (line: String)
    ensures
        line@ == warning_line_text(warning@),
{
    let mut out = "警告：".to_owned();
    out.append(warning);
    out
}

pub open spec fn stale_knowledge_line_text(warning: Seq<char>) -> Seq<char> {
    "警告："@
        + warning
        + "；继续使用最近成功的知识版本（如有）。"@
}

/// A warning that the knowledge of a source may be old.
pub fn stale_knowledge_line(warning: &str) -> (line: String)
    ensures
        line@ == stale_knowledge_line_text(warning@),
{
    let mut out = "警告：".to_owned();
    out.append(warning);
    out.append("；继续使用最近成功的知识版本（如有）。");
    out
}

pub open spec fn control_line_text(r: ControlRecord) -> Seq<char> {
    "control: action="@
        + action_label_text(r.action)
        + " target="@
        + target_label_text(r.target_kind)
        + ":"@
        + r.target_id@
        + " sequence="@
        + text::decimal(r.sequence as nat)
        + " hash="@
        + r.record_sha256@
}

/// One line about a record of the control log.
pub fn control_line(r: &ControlRecord) -> (line: String)
    ensures
        line@ == control_line_text(*r),
{
    let mut out = "control: action=".to_owned();
    out.append(action_label(r.action));
    out.append(" target=");
    out.append(target_label(r.target_kind));
    out.append(":");
    out.append(r.target_id.as_str());
    out.append(" sequence=");
    push_decimal(&mut out, r.sequence as u64);
    out.append(" hash=");
    out.append(r.record_sha256.as_str());
    out
}

pub open spec fn rebuild_line_text(r: RebuildReport) -> Seq<char> {
    "rebuild: sessions="@
        + text::decimal(r.sessions as nat)
        + " events="@
        + text::decimal(r.events as nat)
        + " spans="@
        + text::decimal(r.spans as nat)
        + " answer_contexts="@
        + text::decimal(r.answer_contexts as nat)
        + " documents="@
        + text::decimal(r.documents as nat)
        + " control_generation="@
        + r.control_generation_sha256@
        + " ledger_preserved="@
        + text::decimal(r.ledger_attempts_preserved as nat)
        + " attempts_replayed="@
        + text::decimal(r.consolidation_attempts_replayed as nat)
        + " skipped_inactive="@
        + text::decimal(r.consolidation_attempts_skipped_inactive as nat)
        + " skipped_dependency="@
        + text::decimal(r.consolidation_attempts_skipped_dependency as nat)
        + " embeddings_reused="@
        + text::decimal(r.embeddings_reused as nat)
}

/// One line about a rebuild of the derived data.
pub fn rebuild_line(r: &RebuildReport) -> (line: String)
    ensures
        line@ == rebuild_line_text(*r),
{
    let mut out = "rebuild: sessions=".to_owned();
    push_decimal(&mut out, r.sessions as u64);
    out.append(" events=");
    push_decimal(&mut out, r.events as u64);
    out.append(" spans=");
    push_decimal(&mut out, r.spans as u64);
    out.append(" answer_contexts=");
    push_decimal(&mut out, r.answer_contexts as u64);
    out.append(" documents=");
    push_decimal(&mut out, r.documents as u64);
    out.append(" control_generation=");
    out.append(r.control_generation_sha256.as_str());
    out.append(" ledger_preserved=");
    push_decimal(&mut out, r.ledger_attempts_preserved as u64);
    out.append(" attempts_replayed=");
    push_decimal(&mut out, r.consolidation_attempts_replayed as u64);
    out.append(" skipped_inactive=");
    push_decimal(&mut out, r.consolidation_attempts_skipped_inactive as u64);
    out.append(" skipped_dependency=");
    push_decimal(&mut out, r.consolidation_attempts_skipped_dependency as u64);
    out.append(" embeddings_reused=");
    push_decimal(&mut out, r.embeddings_reused as u64);
    out
}

pub open spec fn embedding_line_text(r: EmbeddingRefreshReport) -> Seq<char> {
    "embedding: leaf_documents="@
        + text::decimal(r.leaf_documents as nat)
        + " leaf_reused="@
        + text::decimal(r.leaf_reused as nat)
        + " leaf_embedded_inputs="@
        + text::decimal(r.leaf_embedded_inputs as nat)
        + " backend_batches="@
        + text::decimal(r.backend_batches as nat)
        + " aggregate_documents="@
        + text::decimal(r.aggregate_documents as nat)
        + " leaf_committed="@
        + truth_text(r.leaf_committed)
}

/// One line about a refresh of the embeddings.
pub fn embedding_line(r: &EmbeddingRefreshReport) -> (line: String)
    ensures
        line@ == embedding_line_text(*r),
{
    let mut out = "embedding: leaf_documents=".to_owned();
    push_decimal(&mut out, r.leaf_documents as u64);
    out.append(" leaf_reused=");
    push_decimal(&mut out, r.leaf_reused as u64);
    out.append(" leaf_embedded_inputs=");
    push_decimal(&mut out, r.leaf_embedded_inputs as u64);
    out.append(" backend_batches=");
    push_decimal(&mut out, r.backend_batches as u64);
    out.append(" aggregate_documents=");
    push_decimal(&mut out, r.aggregate_documents as u64);
    out.append(" leaf_committed=");
    out.append(truth(r.leaf_committed));
    out
}

pub open spec fn graph_line_text(r: GraphMaterializationReport) -> Seq<char> {
    "graph: changed="@
        + truth_text(r.changed)
        + " nodes="@
        + text::decimal(r.node_count as nat)
        + " edges="@
        + text::decimal(r.edge_count as nat)
        + " source_sha256="@
        + r.source_sha256@
        + " catalog_sha256="@
        + r.catalog_sha256@
        + " vector_index_fingerprint="@
        + r.vector_index_fingerprint@
}

/// One line about a refresh of the graph.
pub fn graph_line(r: &GraphMaterializationReport) -> (line: String)
    ensures
        line@ == graph_line_text(*r),
{
    let mut out = "graph: changed=".to_owned();
    out.append(truth(r.changed));
    out.append(" nodes=");
    push_decimal(&mut out, r.node_count as u64);
    out.append(" edges=");
    push_decimal(&mut out, r.edge_count as u64);
    out.append(" source_sha256=");
    out.append(r.source_sha256.as_str());
    out.append(" catalog_sha256=");
    out.append(r.catalog_sha256.as_str());
    out.append(" vector_index_fingerprint=");
    out.append(r.vector_index_fingerprint.as_str());
    out
}

/// The lines about the upkeep of the memory: the rebuild, and the refreshes that followed it.
pub open spec fn memory_maintenance_text(
    rebuild: RebuildReport,
    embedding: Option<&EmbeddingRefreshReport>,
    graph: Option<&GraphMaterializationReport>,
) -> Seq<char> {
    rebuild_line_text(rebuild)
        + "\n"@
        + (match embedding {
        Some(e) => embedding_line_text(*e),
        None => "embedding: disabled"@,
    })
        + "\n"@
        + (match graph {
        Some(g) => graph_line_text(*g),
        None => "graph: disabled"@,
    })
}

/// What is printed once the memory was rebuilt and what is derived from it refreshed.
pub fn memory_maintenance_lines(
    rebuild: &RebuildReport,
    embedding: Option<&EmbeddingRefreshReport>,
    graph: Option<&GraphMaterializationReport>,
) -> (lines: String)
    ensures
        lines@ == memory_maintenance_text(*rebuild, embedding, graph),
{
    let mut out = rebuild_line(rebuild);
    out.append("\n");
    match embedding {
        Some(e) => out.append(embedding_line(e).as_str()),
        None => out.append("embedding: disabled"),
    }
    out.append("\n");
    match graph {
        Some(g) => out.append(graph_line(g).as_str()),
        None => out.append("graph: disabled"),
    }
    out
}

pub open spec fn sync_line_text(r: KnowledgeSyncReport) -> Seq<char> {
    "知识同步完成：来源 "@
        + text::decimal(r.configured_sources as nat)
        + "，成功 "@
        + text::decimal(r.successful_sources as nat)
        + "，失败 "@
        + text::decimal(r.failed_sources as nat)
        + "，活动文档 "@
        + text::decimal(r.active_documents as nat)
        + "，新增 revision "@
        + text::decimal(r.new_revisions as nat)
        + "。"@
}

/// One line about a synchronisation of the knowledge base.
pub fn sync_line(r: &KnowledgeSyncReport) -> (line: String)
    ensures
        line@ == sync_line_text(*r),
{
    let mut out = "知识同步完成：来源 ".to_owned();
    push_decimal(&mut out, r.configured_sources as u64);
    out.append("，成功 ");
    push_decimal(&mut out, r.successful_sources as u64);
    out.append("，失败 ");
    push_decimal(&mut out, r.failed_sources as u64);
    out.append("，活动文档 ");
    push_decimal(&mut out, r.active_documents as u64);
    out.append("，新增 revision ");
    push_decimal(&mut out, r.new_revisions as u64);
    out.append("。");
    out
}

pub open spec fn source_status_lines_text(s: KnowledgeSourceStatus) -> Seq<char> {
    s.id@
        + "｜"@
        + kind_label_text(s.kind)
        + "｜"@
        + activity_text(s.enabled)
        + "｜"@
        + text::decimal(s.active_documents as nat)
        + " 篇｜成功="@
        + or_text(s.last_success_at, "从未"@)
        + "｜错误="@
        + or_text(s.last_error, "无"@)
        + "\n  "@
        + s.location@
}

/// Two lines about a source of the knowledge base.
pub fn source_status_lines(s: &KnowledgeSourceStatus) -> (line: String)
    ensures
        line@ == source_status_lines_text(*s),
{
    let mut out = s.id.as_str().to_owned();
    out.append("｜");
    out.append(kind_label(s.kind));
    out.append("｜");
    out.append(activity(s.enabled));
    out.append("｜");
    push_decimal(&mut out, s.active_documents as u64);
    out.append(" 篇｜成功=");
    out.append(or_else(&s.last_success_at, "从未"));
    out.append("｜错误=");
    out.append(or_else(&s.last_error, "无"));
    out.append("\n  ");
    out.append(s.location.as_str());
    out
}

pub open spec fn found_lines_text(number: int, e: KnowledgeEvidence) -> Seq<char> {
    "[K"@
        + text::decimal(number as nat)
        + "] "@
        + e.title@
        + "｜"@
        + e.fetched_at@
        + "｜"@
        + text::decimal(e.start_char as nat)
        + ".."@
        + text::decimal(e.end_char as nat)
        + "\n  source="@
        + e.source_location@
        + "\n  revision="@
        + e.revision_id@
}

/// The lines about a passage that was found.
pub fn found_lines(number: usize, e: &KnowledgeEvidence) -> (line: String)
    ensures
        line@ == found_lines_text(number as int, *e),
{
    let mut out = "[K".to_owned();
    push_decimal(&mut out, number as u64);
    out.append("] ");
    out.append(e.title.as_str());
    out.append("｜");
    out.append(e.fetched_at.as_str());
    out.append("｜");
    push_decimal(&mut out, e.start_char as u64);
    out.append("..");
    push_decimal(&mut out, e.end_char as u64);
    out.append("\n  source=");
    out.append(e.source_location.as_str());
    out.append("\n  revision=");
    out.append(e.revision_id.as_str());
    out
}

pub open spec fn cited_line_text(e: KnowledgeEvidence) -> Seq<char> {
    "  - "@
        + e.title@
        + "｜"@
        + e.source_location@
        + "｜revision="@
        + e.revision_id@
        + "｜"@
        + text::decimal(e.start_char as nat)
        + ".."@
        + text::decimal(e.end_char as nat)
}

/// One line about a passage that an answer rests on.
pub fn cited_line(e: &KnowledgeEvidence) -> (line: String)
    ensures
        line@ == cited_line_text(*e),
{
    let mut out = "  - ".to_owned();
    out.append(e.title.as_str());
    out.append("｜");
    out.append(e.source_location.as_str());
    out.append("｜revision=");
    out.append(e.revision_id.as_str());
    out.append("｜");
    push_decimal(&mut out, e.start_char as u64);
    out.append("..");
    push_decimal(&mut out, e.end_char as u64);
    out
}

pub open spec fn usage_line_text(u: TokenUsage) -> Seq<char> {
    "token：input="@
        + count_text(u.input_tokens)
        + ", output="@
        + count_text(u.output_tokens)
        + ", total="@
        + count_text(u.total_tokens)
}

/// One line about the tokens of an answer.
pub fn usage_line(u: TokenUsage) -> (line: String)
    ensures
        line@ == usage_line_text(u),
{
    let mut out = "token：input=".to_owned();
    out.append(count(u.input_tokens).as_str());
    out.append(", output=");
    out.append(count(u.output_tokens).as_str());
    out.append(", total=");
    out.append(count(u.total_tokens).as_str());
    out
}

pub open spec fn session_line_text(s: Session) -> Seq<char> {
    s.id@
        + "｜"@
        + session_status_text(s.status)
        + "｜"@
        + s.updated_at@
        + "｜"@
        + s.model@
        + "｜"@
        + text::decimal(s.turns@.len() as nat)
        + " 轮｜"@
        + s.title@
}

/// One line about a session.
pub fn session_line(s: &Session) -> (line: String)
    ensures
        line@ == session_line_text(*s),
{
    let mut out = s.id.as_str().to_owned();
    out.append("｜");
    out.append(session_status(s.status));
    out.append("｜");
    out.append(s.updated_at.as_str());
    out.append("｜");
    out.append(s.model.as_str());
    out.append("｜");
    push_decimal(&mut out, s.turns.len() as u64);
    out.append(" 轮｜");
    out.append(s.title.as_str());
    out
}

pub open spec fn session_head_text(s: Session) -> Seq<char> {
    "会话 "@
        + s.id@
        + "｜"@
        + session_status_text(s.status)
        + "｜"@
        + s.title@
        + "\nAI："@
        + s.ai_name@
        + "｜模型："@
        + s.model@
        + "｜Ollama："@
        + s.ollama_host@
        + "｜thinking："@
        + switch_text(s.think)
        + "\n系统提示："@
        + s.system_prompt@
}

/// The lines above the turns of a session.
pub fn session_head(s: &Session) -> (line: String)
    ensures
        line@ == session_head_text(*s),
{
    let mut out = "会话 ".to_owned();
    out.append(s.id.as_str());
    out.append("｜");
    out.append(session_status(s.status));
    out.append("｜");
    out.append(s.title.as_str());
    out.append("\nAI：");
    out.append(s.ai_name.as_str());
    out.append("｜模型：");
    out.append(s.model.as_str());
    out.append("｜Ollama：");
    out.append(s.ollama_host.as_str());
    out.append("｜thinking：");
    out.append(switch(s.think));
    out.append("\n系统提示：");
    out.append(s.system_prompt.as_str());
    out
}

pub open spec fn session_budget_text(s: Session) -> Seq<char> {
    "预算：context="@
        + text::decimal(s.budget.context_window as nat)
        + ", input="@
        + text::decimal(s.budget.input_budget_spec() as nat)
        + ", output reserve="@
        + text::decimal(s.budget.max_output_tokens as nat)
        + ", safety="@
        + text::decimal(s.budget.safety_margin_tokens as nat)
        + "\n阈值：80%="@
        + text::decimal(s.budget.probe_threshold as nat)
        + ", 90%="@
        + text::decimal(s.budget.warning_threshold as nat)
        + "；活动起点="@
        + text::decimal(s.active_context_start_index as nat)
}

/// The lines about the budget of a session.
pub fn session_budget(s: &Session) -> (line: String)
    ensures
        line@ == session_budget_text(*s),
{
    let mut out = "预算：context=".to_owned();
    push_decimal(&mut out, s.budget.context_window as u64);
    out.append(", input=");
    push_decimal(&mut out, s.budget.input_budget() as u64);
    out.append(", output reserve=");
    push_decimal(&mut out, s.budget.max_output_tokens as u64);
    out.append(", safety=");
    push_decimal(&mut out, s.budget.safety_margin_tokens as u64);
    out.append("\n阈值：80%=");
    push_decimal(&mut out, s.budget.probe_threshold as u64);
    out.append(", 90%=");
    push_decimal(&mut out, s.budget.warning_threshold as u64);
    out.append("；活动起点=");
    push_decimal(&mut out, s.active_context_start_index as u64);
    out
}

pub open spec fn turn_lines_text(number: int, t: Turn) -> Seq<char> {
    "第 "@
        + text::decimal(number as nat)
        + " 轮 ["@
        + turn_status_text(t.status)
        + "] 用户："@
        + brief_text(t.user_content@, 80)
        + "\n  正文："@
        + brief_text(t.assistant_content@, 80)
        + "\n  精确：input="@
        + count_text(t.usage.input_tokens)
        + ", output="@
        + count_text(t.usage.output_tokens)
        + ", total="@
        + count_text(t.usage.total_tokens)
        + "\n  probe：input="@
        + count_text(t.probe_usage.input_tokens)
        + ", output="@
        + count_text(t.probe_usage.output_tokens)
        + ", total="@
        + count_text(t.probe_usage.total_tokens)
}

/// The lines about a turn.
pub fn turn_lines(number: usize, t: &Turn) -> (line: String)
    ensures
        line@ == turn_lines_text(number as int, *t),
{
    let mut out = "第 ".to_owned();
    push_decimal(&mut out, number as u64);
    out.append(" 轮 [");
    out.append(turn_status(t.status));
    out.append("] 用户：");
    out.append(brief(t.user_content.as_str(), 80).as_str());
    out.append("\n  正文：");
    out.append(brief(t.assistant_content.as_str(), 80).as_str());
    out.append("\n  精确：input=");
    out.append(count(t.usage.input_tokens).as_str());
    out.append(", output=");
    out.append(count(t.usage.output_tokens).as_str());
    out.append(", total=");
    out.append(count(t.usage.total_tokens).as_str());
    out.append("\n  probe：input=");
    out.append(count(t.probe_usage.input_tokens).as_str());
    out.append(", output=");
    out.append(count(t.probe_usage.output_tokens).as_str());
    out.append(", total=");
    out.append(count(t.probe_usage.total_tokens).as_str());
    out
}

pub open spec fn eval_report_lines_text(r: EvalRunLines) -> Seq<char> {
    "benchmark: "@
        + benchmark_label_text(r.benchmark)
        + "\nmatrix: "@
        + r.matrix@
        + "\noutput: "@
        + r.output@
        + "\nsummary_path: "@
        + r.summary_path@
        + "\nresumed_records: "@
        + text::decimal(r.resumed_records as nat)
        + "\nappended_records: "@
        + text::decimal(r.appended_records as nat)
        + "\ncompleted/requested: "@
        + text::decimal(r.completed_questions as nat)
        + "/"@
        + text::decimal(r.requested_questions as nat)
        + "\nrun_fingerprint: "@
        + r.run_fingerprint@
}

/// The lines about a benchmark run.
pub fn eval_report_lines(r: &EvalRunLines) -> (line: String)
    ensures
        line@ == eval_report_lines_text(*r),
{
    let mut out = "benchmark: ".to_owned();
    out.append(benchmark_label(r.benchmark));
    out.append("\nmatrix: ");
    out.append(r.matrix.as_str());
    out.append("\noutput: ");
    out.append(r.output.as_str());
    out.append("\nsummary_path: ");
    out.append(r.summary_path.as_str());
    out.append("\nresumed_records: ");
    push_decimal(&mut out, r.resumed_records as u64);
    out.append("\nappended_records: ");
    push_decimal(&mut out, r.appended_records as u64);
    out.append("\ncompleted/requested: ");
    push_decimal(&mut out, r.completed_questions as u64);
    out.append("/");
    push_decimal(&mut out, r.requested_questions as u64);
    out.append("\nrun_fingerprint: ");
    out.append(r.run_fingerprint.as_str());
    out
}

pub open spec fn eval_failure_text(benchmark: EvalBenchmark, matrix: Seq<char>, output: Seq<char>) -> Seq<char> {
    "evaluation failed: benchmark="@
        + benchmark_label_text(benchmark)
        + ", matrix="@
        + matrix
        + ", output="@
        + output
        + "; 已持久化记录保留，可用相同命令恢复"@
}

/// What is said when a benchmark run failed.
pub fn eval_failure(benchmark: EvalBenchmark, matrix: &str, output: &str) -> (line: String)
    ensures
        line@ == eval_failure_text(benchmark, matrix@, output@),
{
    let mut out = "evaluation failed: benchmark=".to_owned();
    out.append(benchmark_label(benchmark));
    out.append(", matrix=");
    out.append(matrix);
    out.append(", output=");
    out.append(output);
    out.append("; 已持久化记录保留，可用相同命令恢复");
    out
}

pub open spec fn control_failure_text(sequence: u64, error: Seq<char>) -> Seq<char> {
    "control record sequence "@
        + text::decimal(sequence as nat)
        + " is committed, but projection/refresh is incomplete: "@
        + error
}

/// What is said when a control record stands but the refresh failed.
pub fn control_failure(sequence: u64, error: &str) -> (line: String)
    ensures
        line@ == control_failure_text(sequence, error@),
{
    let mut out = "control record sequence ".to_owned();
    push_decimal(&mut out, sequence as u64);
    out.append(" is committed, but projection/refresh is incomplete: ");
    out.append(error);
    out
}

pub open spec fn rebuild_failure_text(error: Seq<char>) -> Seq<char> {
    "raw data is unchanged and the rebuild commit succeeded, but derived refresh is incomplete: "@
        + error
}

/// What is said when a rebuild stands but the refresh failed.
pub fn rebuild_failure(error: &str) -> (line: String)
    ensures
        line@ == rebuild_failure_text(error@),
{
    let mut out = "raw data is unchanged and the rebuild commit succeeded, but derived refresh is incomplete: ".to_owned();
    out.append(error);
    out
}

pub open spec fn cleared_line_text(sessions: usize, files: usize, indexes: usize) -> Seq<char> {
    "已清空全部历史记录："@
        + text::decimal(sessions as nat)
        + " 个会话，"@
        + text::decimal(files as nat)
        + " 个临时文件，"@
        + text::decimal(indexes as nat)
        + " 个记忆索引文件；知识库已保留。"@
}

/// One line about a history that was cleared.
pub fn cleared_line(sessions: usize, files: usize, indexes: usize) -> (line: String)
    ensures
        line@ == cleared_line_text(sessions, files, indexes),
{
    let mut out = "已清空全部历史记录：".to_owned();
    push_decimal(&mut out, sessions as u64);
    out.append(" 个会话，");
    push_decimal(&mut out, files as u64);
    out.append(" 个临时文件，");
    push_decimal(&mut out, indexes as u64);
    out.append(" 个记忆索引文件；知识库已保留。");
    out
}

pub open spec fn memory_status_lines_text(s: MemoryStatus) -> Seq<char> {
    "session_id: "@
        + or_text(s.session_id, "all"@)
        + "\nhealthy: "@
        + truth_text(s.healthy)
        + "\nmemory_enabled: "@
        + truth_text(s.memory_enabled)
        + "\nprojection_current: "@
        + truth_text(s.projection_current)
        + "\nexpected_control_generation_sha256: "@
        + s.expected_control_generation_sha256@
        + "\nindexed_control_generation_sha256: "@
        + or_text(s.indexed_control_generation_sha256, "none"@)
        + "\nvalidation_error: "@
        + or_text(s.validation_error, "none"@)
}

/// The lines about the state of the memory.
pub fn memory_status_lines(s: &MemoryStatus) -> (line: String)
    ensures
        line@ == memory_status_lines_text(*s),
{
    let mut out = "session_id: ".to_owned();
    out.append(or_else(&s.session_id, "all"));
    out.append("\nhealthy: ");
    out.append(truth(s.healthy));
    out.append("\nmemory_enabled: ");
    out.append(truth(s.memory_enabled));
    out.append("\nprojection_current: ");
    out.append(truth(s.projection_current));
    out.append("\nexpected_control_generation_sha256: ");
    out.append(s.expected_control_generation_sha256.as_str());
    out.append("\nindexed_control_generation_sha256: ");
    out.append(or_else(&s.indexed_control_generation_sha256, "none"));
    out.append("\nvalidation_error: ");
    out.append(or_else(&s.validation_error, "none"));
    out
}

pub open spec fn memory_metrics_lines_text(m: MemoryMetrics) -> Seq<char> {
    "active_sessions: "@
        + text::decimal(m.active_sessions as nat)
        + "\nactive_events: "@
        + text::decimal(m.active_events as nat)
        + "\nembedding_total: "@
        + text::decimal(m.embedding_total as nat)
        + "\nembedding_compatible: "@
        + text::decimal(m.embedding_compatible as nat)
        + "\nembedding_stale: "@
        + text::decimal(m.embedding_stale as nat)
        + "\npending_consolidation_events: "@
        + text::decimal(m.pending_consolidation_events as nat)
        + "\nentity_count: "@
        + text::decimal(m.entity_count as nat)
        + "\nepisode_count: "@
        + text::decimal(m.episode_count as nat)
        + "\ngraph_current: "@
        + truth_text(m.graph_current)
        + "\ngraph_node_count: "@
        + none_or_text(m.graph_node_count)
        + "\ngraph_edge_count: "@
        + none_or_text(m.graph_edge_count)
        + "\nconsolidation_attempts: applied="@
        + text::decimal(m.attempts_applied as nat)
        + " rejected="@
        + text::decimal(m.attempts_rejected as nat)
        + " model_error="@
        + text::decimal(m.attempts_model_error as nat)
        + " cancelled="@
        + text::decimal(m.attempts_cancelled as nat)
        + " failed="@
        + text::decimal(m.attempts_failed as nat)
        + "\nconsolidation_latency_ms: samples="@
        + text::decimal(m.consolidation_samples as nat)
        + " p50="@
        + none_or_text(m.consolidation_p50_ms)
        + " p95="@
        + none_or_text(m.consolidation_p95_ms)
        + "\nretrieval_runs: "@
        + text::decimal(m.retrieval_runs as nat)
        + "\nretrieval_failures: "@
        + text::decimal(m.retrieval_failures as nat)
        + "\nretrieval_latency_ms: samples="@
        + text::decimal(m.retrieval_samples as nat)
        + " p50="@
        + none_or_text(m.retrieval_p50_ms)
        + " p95="@
        + none_or_text(m.retrieval_p95_ms)
}

/// The lines about what the memory holds.
pub fn memory_metrics_lines(m: &MemoryMetrics) -> (line: String)
    ensures
        line@ == memory_metrics_lines_text(*m),
{
    let mut out = "active_sessions: ".to_owned();
    push_decimal(&mut out, m.active_sessions as u64);
    out.append("\nactive_events: ");
    push_decimal(&mut out, m.active_events as u64);
    out.append("\nembedding_total: ");
    push_decimal(&mut out, m.embedding_total as u64);
    out.append("\nembedding_compatible: ");
    push_decimal(&mut out, m.embedding_compatible as u64);
    out.append("\nembedding_stale: ");
    push_decimal(&mut out, m.embedding_stale as u64);
    out.append("\npending_consolidation_events: ");
    push_decimal(&mut out, m.pending_consolidation_events as u64);
    out.append("\nentity_count: ");
    push_decimal(&mut out, m.entity_count as u64);
    out.append("\nepisode_count: ");
    push_decimal(&mut out, m.episode_count as u64);
    out.append("\ngraph_current: ");
    out.append(truth(m.graph_current));
    out.append("\ngraph_node_count: ");
    out.append(none_or(m.graph_node_count).as_str());
    out.append("\ngraph_edge_count: ");
    out.append(none_or(m.graph_edge_count).as_str());
    out.append("\nconsolidation_attempts: applied=");
    push_decimal(&mut out, m.attempts_applied as u64);
    out.append(" rejected=");
    push_decimal(&mut out, m.attempts_rejected as u64);
    out.append(" model_error=");
    push_decimal(&mut out, m.attempts_model_error as u64);
    out.append(" cancelled=");
    push_decimal(&mut out, m.attempts_cancelled as u64);
    out.append(" failed=");
    push_decimal(&mut out, m.attempts_failed as u64);
    out.append("\nconsolidation_latency_ms: samples=");
    push_decimal(&mut out, m.consolidation_samples as u64);
    out.append(" p50=");
    out.append(none_or(m.consolidation_p50_ms).as_str());
    out.append(" p95=");
    out.append(none_or(m.consolidation_p95_ms).as_str());
    out.append("\nretrieval_runs: ");
    push_decimal(&mut out, m.retrieval_runs as u64);
    out.append("\nretrieval_failures: ");
    push_decimal(&mut out, m.retrieval_failures as u64);
    out.append("\nretrieval_latency_ms: samples=");
    push_decimal(&mut out, m.retrieval_samples as u64);
    out.append(" p50=");
    out.append(none_or(m.retrieval_p50_ms).as_str());
    out.append(" p95=");
    out.append(none_or(m.retrieval_p95_ms).as_str());
    out
}

pub open spec fn channel_line_text(c: ChannelTrace) -> Seq<char> {
    channel_label_text(c.channel)
        + ": status="@
        + c.status@
        + " count="@
        + text::decimal(c.candidate_count as nat)
        + " error="@
        + or_text(c.error, "none"@)
}

/// One line about a channel of a search.
pub fn channel_line(c: &ChannelTrace) -> (line: String)
    ensures
        line@ == channel_line_text(*c),
{
    let mut out = channel_label(c.channel).to_owned();
    out.append(": status=");
    out.append(c.status.as_str());
    out.append(" count=");
    push_decimal(&mut out, c.candidate_count as u64);
    out.append(" error=");
    out.append(or_else(&c.error, "none"));
    out
}

pub open spec fn evidence_lines_text(number: int, e: RecalledEvidence) -> Seq<char> {
    "["@
        + text::decimal(number as nat)
        + "] "@
        + e.selected.span.event_id@
        + ":"@
        + text::decimal(e.selected.span.start_char as nat)
        + ".."@
        + text::decimal(e.selected.span.end_char as nat)
        + " role="@
        + role_label_text(e.selected.role)
        + " kind="@
        + evidence_label_text(e.selected.kind)
        + " reason="@
        + e.selected.reason@
        + "\n"@
        + e.content@
}

/// The lines about a piece of evidence that was found.
pub fn evidence_lines(number: usize, e: &RecalledEvidence) -> (line: String)
    ensures
        line@ == evidence_lines_text(number as int, *e),
{
    let mut out = "[".to_owned();
    push_decimal(&mut out, number as u64);
    out.append("] ");
    out.append(e.selected.span.event_id.as_str());
    out.append(":");
    push_decimal(&mut out, e.selected.span.start_char as u64);
    out.append("..");
    push_decimal(&mut out, e.selected.span.end_char as u64);
    out.append(" role=");
    out.append(role_label(e.selected.role));
    out.append(" kind=");
    out.append(evidence_label(e.selected.kind));
    out.append(" reason=");
    out.append(e.selected.reason.as_str());
    out.append("\n");
    out.append(e.content.as_str());
    out
}

pub open spec fn consolidation_status_label_text(x: ConsolidationRunStatus) -> Seq<char> {
    match x {
        ConsolidationRunStatus::Disabled => "已禁用"@,
        ConsolidationRunStatus::UpToDate => "已是最新"@,
        ConsolidationRunStatus::Completed => "已完成"@,
        ConsolidationRunStatus::Partial => "部分完成"@,
        ConsolidationRunStatus::Failed => "失败"@,
        ConsolidationRunStatus::Cancelled => "已取消"@,
    }
}

pub fn consolidation_status_label(x: ConsolidationRunStatus) -> (r: &'static str)
    ensures
        r@ == consolidation_status_label_text(x),
{
    match x {
        ConsolidationRunStatus::Disabled => "已禁用",
        ConsolidationRunStatus::UpToDate => "已是最新",
        ConsolidationRunStatus::Completed => "已完成",
        ConsolidationRunStatus::Partial => "部分完成",
        ConsolidationRunStatus::Failed => "失败",
        ConsolidationRunStatus::Cancelled => "已取消",
    }
}

pub open spec fn action_label_text(x: ControlAction) -> Seq<char> {
    match x {
        ControlAction::Exclude => "exclude"@,
        ControlAction::Restore => "restore"@,
    }
}

pub fn action_label(x: ControlAction) -> (r: &'static str)
    ensures
        r@ == action_label_text(x),
{
    match x {
        ControlAction::Exclude => "exclude",
        ControlAction::Restore => "restore",
    }
}

pub open spec fn target_label_text(x: ControlTargetKind) -> Seq<char> {
    match x {
        ControlTargetKind::Session => "session"@,
        ControlTargetKind::Event => "event"@,
    }
}

pub fn target_label(x: ControlTargetKind) -> (r: &'static str)
    ensures
        r@ == target_label_text(x),
{
    match x {
        ControlTargetKind::Session => "session",
        ControlTargetKind::Event => "event",
    }
}

pub open spec fn kind_label_text(x: KnowledgeSourceKind) -> Seq<char> {
    match x {
        KnowledgeSourceKind::Path => "Path"@,
    }
}

pub fn kind_label(x: KnowledgeSourceKind) -> (r: &'static str)
    ensures
        r@ == kind_label_text(x),
{
    match x {
        KnowledgeSourceKind::Path => "Path",
    }
}

pub open spec fn session_status_text(x: SessionStatus) -> Seq<char> {
    match x {
        SessionStatus::Active => "active"@,
        SessionStatus::Paused => "paused"@,
    }
}

pub fn session_status(x: SessionStatus) -> (r: &'static str)
    ensures
        r@ == session_status_text(x),
{
    match x {
        SessionStatus::Active => "active",
        SessionStatus::Paused => "paused",
    }
}

pub open spec fn turn_status_text(x: TurnStatus) -> Seq<char> {
    match x {
        TurnStatus::Pending => "pending"@,
        TurnStatus::Complete => "complete"@,
        TurnStatus::NoAnswer => "no_answer"@,
        TurnStatus::Truncated => "truncated"@,
        TurnStatus::Interrupted => "interrupted"@,
        TurnStatus::Failed => "failed"@,
        TurnStatus::Blocked => "blocked"@,
    }
}

pub fn turn_status(x: TurnStatus) -> (r: &'static str)
    ensures
        r@ == turn_status_text(x),
{
    match x {
        TurnStatus::Pending => "pending",
        TurnStatus::Complete => "complete",
        TurnStatus::NoAnswer => "no_answer",
        TurnStatus::Truncated => "truncated",
        TurnStatus::Interrupted => "interrupted",
        TurnStatus::Failed => "failed",
        TurnStatus::Blocked => "blocked",
    }
}

pub open spec fn benchmark_label_text(x: EvalBenchmark) -> Seq<char> {
    match x {
        EvalBenchmark::Synthetic => "Synthetic"@,
        EvalBenchmark::Locomo => "Locomo"@,
        EvalBenchmark::LongMemEval => "LongMemEval"@,
    }
}

pub fn benchmark_label(x: EvalBenchmark) -> (r: &'static str)
    ensures
        r@ == benchmark_label_text(x),
{
    match x {
        EvalBenchmark::Synthetic => "Synthetic",
        EvalBenchmark::Locomo => "Locomo",
        EvalBenchmark::LongMemEval => "LongMemEval",
    }
}

pub open spec fn role_label_text(x: EventRole) -> Seq<char> {
    match x {
        EventRole::System => "System"@,
        EventRole::User => "User"@,
        EventRole::Assistant => "Assistant"@,
    }
}

pub fn role_label(x: EventRole) -> (r: &'static str)
    ensures
        r@ == role_label_text(x),
{
    match x {
        EventRole::System => "System",
        EventRole::User => "User",
        EventRole::Assistant => "Assistant",
    }
}

pub open spec fn evidence_label_text(x: EvidenceKind) -> Seq<char> {
    match x {
        EvidenceKind::Core => "Core"@,
        EvidenceKind::Context => "Context"@,
    }
}

pub fn evidence_label(x: EvidenceKind) -> (r: &'static str)
    ensures
        r@ == evidence_label_text(x),
{
    match x {
        EvidenceKind::Core => "Core",
        EvidenceKind::Context => "Context",
    }
}

pub open spec fn channel_label_text(x: RetrievalChannel) -> Seq<char> {
    match x {
        RetrievalChannel::Bm25 => "Bm25"@,
        RetrievalChannel::Vector => "Vector"@,
        RetrievalChannel::Entity => "Entity"@,
        RetrievalChannel::State => "State"@,
        RetrievalChannel::Episode => "Episode"@,
        RetrievalChannel::Graph => "Graph"@,
    }
}

pub fn channel_label(x: RetrievalChannel) -> (r: &'static str)
    ensures
        r@ == channel_label_text(x),
{
    match x {
        RetrievalChannel::Bm25 => "Bm25",
        RetrievalChannel::Vector => "Vector",
        RetrievalChannel::Entity => "Entity",
        RetrievalChannel::State => "State",
        RetrievalChannel::Episode => "Episode",
        RetrievalChannel::Graph => "Graph",
    }
}

pub open spec fn truth_text(b: bool) -> Seq<char> {
    if b {
        "true"@
    } else {
        "false"@
    }
}

/// A truth value.
pub fn truth(b: bool) -> (r: &'static str)
    ensures
        r@ == truth_text(b),
{
    if b {
        "true"
    } else {
        "false"
    }
}

pub open spec fn activity_text(b: bool) -> Seq<char> {
    if b {
        "active"@
    } else {
        "inactive"@
    }
}

/// Whether a source takes part.
pub fn activity(b: bool) -> (r: &'static str)
    ensures
        r@ == activity_text(b),
{
    if b {
        "active"
    } else {
        "inactive"
    }
}

pub open spec fn switch_text(b: bool) -> Seq<char> {
    if b {
        "on"@
    } else {
        "off"@
    }
}

/// Whether something is on.
pub fn switch(b: bool) -> (r: &'static str)
    ensures
        r@ == switch_text(b),
{
    if b {
        "on"
    } else {
        "off"
    }
}

pub open spec fn count_text(n: Option<u64>) -> Seq<char> {
    match n {
        Some(n) => text::decimal(n as nat),
        None => "未知"@,
    }
}

/// A count of tokens that may be unknown.
pub fn count(n: Option<u64>) -> (r: String)
    ensures
        r@ == count_text(n),
{
    match n {
        Some(n) => decimal_string(n),
        None => "未知".to_owned(),
    }
}

pub open spec fn none_or_text(n: Option<u64>) -> Seq<char> {
    match n {
        Some(n) => text::decimal(n as nat),
        None => "none"@,
    }
}

/// A number that may be missing.
pub fn none_or(n: Option<u64>) -> (r: String)
    ensures
        r@ == none_or_text(n),
{
    match n {
        Some(n) => decimal_string(n),
        None => "none".to_owned(),
    }
}

} // verus!
