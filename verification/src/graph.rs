//! The memory graph: its nodes, and the rows that they are made from.

use vstd::prelude::*;
use vstd::string::*;
use vstd::utf8::*;

use crate::digest::{self, content_sha256, hash_id, PartHasher};
use crate::model::{copy_opt, EventRole, RetrievalDocumentGranularity, TurnStatus};
use crate::order::{self, stable_order, KeyPart};
use crate::text::{self, text_before, text_eq};

verus! {

pub const GRAPH_SCHEMA_VERSION: i64 = 1;

pub const GRAPH_ALGORITHM_VERSION: i64 = 1;

pub const EMBEDDING_MUTUAL_TOP_K: usize = 5;

/// The bits of the least similarity of mutual neighbours, 80 hundredths.
pub const EMBEDDING_MUTUAL_MIN_BITS: u64 = 0x3fe9_9999_9999_999a;

pub const KEYWORD_MIN_NORMALIZED_CHARS: usize = 2;

pub const EDGE_RULES_VERSION: i64 = 1;

#[derive(Clone, Copy, Debug, PartialEq, Eq, Structural)]
pub enum GraphNodeKind {
    Document,
    Entity,
    Claim,
}

#[derive(Clone, Copy, Debug, PartialEq, Eq, Structural)]
pub enum GraphEdgeType {
    Reply,
    Adjacent,
    EpisodeMember,
    EntityMention,
    SharedEntity,
    KeywordCooccurrence,
    EmbeddingMutualTopK,
    CommonRecall,
    Support,
    Conflict,
    Replacement,
}

pub open spec fn node_kind_text(kind: GraphNodeKind) -> Seq<char> {
    match kind {
        GraphNodeKind::Document => "document"@,
        GraphNodeKind::Entity => "entity"@,
        GraphNodeKind::Claim => "claim"@,
    }
}

pub fn node_name(kind: GraphNodeKind) -> (r: &'static str)
    ensures
        r@ == node_kind_text(kind),
{
    match kind {
        GraphNodeKind::Document => "document",
        GraphNodeKind::Entity => "entity",
        GraphNodeKind::Claim => "claim",
    }
}

/// The kind of node that a name stands for.
pub open spec fn node_kind_named(s: Seq<char>) -> Option<GraphNodeKind> {
    if s == "document"@ {
        Some(GraphNodeKind::Document)
    } else if s == "entity"@ {
        Some(GraphNodeKind::Entity)
    } else if s == "claim"@ {
        Some(GraphNodeKind::Claim)
    } else {
        None
    }
}

pub fn parse_node_kind(s: &str) -> (r: Option<GraphNodeKind>)
    ensures
        r == node_kind_named(s@),
{
    if text_eq(s, "document") {
        Some(GraphNodeKind::Document)
    } else if text_eq(s, "entity") {
        Some(GraphNodeKind::Entity)
    } else if text_eq(s, "claim") {
        Some(GraphNodeKind::Claim)
    } else {
        None
    }
}

pub open spec fn edge_type_text(kind: GraphEdgeType) -> Seq<char> {
    match kind {
        GraphEdgeType::Reply => "reply"@,
        GraphEdgeType::Adjacent => "adjacent"@,
        GraphEdgeType::EpisodeMember => "episode_member"@,
        GraphEdgeType::EntityMention => "entity_mention"@,
        GraphEdgeType::SharedEntity => "shared_entity"@,
        GraphEdgeType::KeywordCooccurrence => "keyword_cooccurrence"@,
        GraphEdgeType::EmbeddingMutualTopK => "embedding_mutual_top_k"@,
        GraphEdgeType::CommonRecall => "common_recall"@,
        GraphEdgeType::Support => "support"@,
        GraphEdgeType::Conflict => "conflict"@,
        GraphEdgeType::Replacement => "replacement"@,
    }
}

pub fn edge_name(kind: GraphEdgeType) -> (r: &'static str)
    ensures
        r@ == edge_type_text(kind),
{
    match kind {
        GraphEdgeType::Reply => "reply",
        GraphEdgeType::Adjacent => "adjacent",
        GraphEdgeType::EpisodeMember => "episode_member",
        GraphEdgeType::EntityMention => "entity_mention",
        GraphEdgeType::SharedEntity => "shared_entity",
        GraphEdgeType::KeywordCooccurrence => "keyword_cooccurrence",
        GraphEdgeType::EmbeddingMutualTopK => "embedding_mutual_top_k",
        GraphEdgeType::CommonRecall => "common_recall",
        GraphEdgeType::Support => "support",
        GraphEdgeType::Conflict => "conflict",
        GraphEdgeType::Replacement => "replacement",
    }
}

/// The place of an edge type in the order of types.
pub open spec fn edge_rank(kind: GraphEdgeType) -> u64 {
    match kind {
        GraphEdgeType::Reply => 0,
        GraphEdgeType::Adjacent => 1,
        GraphEdgeType::EpisodeMember => 2,
        GraphEdgeType::EntityMention => 3,
        GraphEdgeType::SharedEntity => 4,
        GraphEdgeType::KeywordCooccurrence => 5,
        GraphEdgeType::EmbeddingMutualTopK => 6,
        GraphEdgeType::CommonRecall => 7,
        GraphEdgeType::Support => 8,
        GraphEdgeType::Conflict => 9,
        GraphEdgeType::Replacement => 10,
    }
}

pub fn rank_of_edge(kind: GraphEdgeType) -> (r: u64)
    ensures
        r == edge_rank(kind),
{
    match kind {
        GraphEdgeType::Reply => 0,
        GraphEdgeType::Adjacent => 1,
        GraphEdgeType::EpisodeMember => 2,
        GraphEdgeType::EntityMention => 3,
        GraphEdgeType::SharedEntity => 4,
        GraphEdgeType::KeywordCooccurrence => 5,
        GraphEdgeType::EmbeddingMutualTopK => 6,
        GraphEdgeType::CommonRecall => 7,
        GraphEdgeType::Support => 8,
        GraphEdgeType::Conflict => 9,
        GraphEdgeType::Replacement => 10,
    }
}

/// The edge type that a name stands for.
pub open spec fn edge_type_named(s: Seq<char>) -> Option<GraphEdgeType> {
    if s == "reply"@ {
        Some(GraphEdgeType::Reply)
    } else if s == "adjacent"@ {
        Some(GraphEdgeType::Adjacent)
    } else if s == "episode_member"@ {
        Some(GraphEdgeType::EpisodeMember)
    } else if s == "entity_mention"@ {
        Some(GraphEdgeType::EntityMention)
    } else if s == "shared_entity"@ {
        Some(GraphEdgeType::SharedEntity)
    } else if s == "keyword_cooccurrence"@ {
        Some(GraphEdgeType::KeywordCooccurrence)
    } else if s == "embedding_mutual_top_k"@ {
        Some(GraphEdgeType::EmbeddingMutualTopK)
    } else if s == "common_recall"@ {
        Some(GraphEdgeType::CommonRecall)
    } else if s == "support"@ {
        Some(GraphEdgeType::Support)
    } else if s == "conflict"@ {
        Some(GraphEdgeType::Conflict)
    } else if s == "replacement"@ {
        Some(GraphEdgeType::Replacement)
    } else {
        None
    }
}

pub fn parse_edge(s: &str) -> (r: Result<GraphEdgeType, String>)
    ensures
        match r {
            Ok(kind) => edge_type_named(s@) == Some(kind),
            Err(e) => edge_type_named(s@) is None && e@ == "未知图边类型 "@ + s@,
        },
{
    if text_eq(s, "reply") {
        Ok(GraphEdgeType::Reply)
    } else if text_eq(s, "adjacent") {
        Ok(GraphEdgeType::Adjacent)
    } else if text_eq(s, "episode_member") {
        Ok(GraphEdgeType::EpisodeMember)
    } else if text_eq(s, "entity_mention") {
        Ok(GraphEdgeType::EntityMention)
    } else if text_eq(s, "shared_entity") {
        Ok(GraphEdgeType::SharedEntity)
    } else if text_eq(s, "keyword_cooccurrence") {
        Ok(GraphEdgeType::KeywordCooccurrence)
    } else if text_eq(s, "embedding_mutual_top_k") {
        Ok(GraphEdgeType::EmbeddingMutualTopK)
    } else if text_eq(s, "common_recall") {
        Ok(GraphEdgeType::CommonRecall)
    } else if text_eq(s, "support") {
        Ok(GraphEdgeType::Support)
    } else if text_eq(s, "conflict") {
        Ok(GraphEdgeType::Conflict)
    } else if text_eq(s, "replacement") {
        Ok(GraphEdgeType::Replacement)
    } else {
        let mut e = "未知图边类型 ".to_owned();
        e.append(s);
        Err(e)
    }
}

/// Every edge type reads back from its name.
pub proof fn edge_names_read_back(kind: GraphEdgeType)
    ensures
        edge_type_named(edge_type_text(kind)) == Some(kind),
{
    reveal_strlit("reply");
    reveal_strlit("adjacent");
    reveal_strlit("episode_member");
    reveal_strlit("entity_mention");
    reveal_strlit("shared_entity");
    reveal_strlit("keyword_cooccurrence");
    reveal_strlit("embedding_mutual_top_k");
    reveal_strlit("common_recall");
    reveal_strlit("support");
    reveal_strlit("conflict");
    reveal_strlit("replacement");
    assert("reply"@.len() == 5);
    assert("adjacent"@.len() == 8 && "adjacent"@[0] == 'a');
    assert("episode_member"@.len() == 14 && "episode_member"@[1] == 'p');
    assert("entity_mention"@.len() == 14 && "entity_mention"@[1] == 'n');
    assert("shared_entity"@.len() == 13 && "shared_entity"@[0] == 's');
    assert("keyword_cooccurrence"@.len() == 20);
    assert("embedding_mutual_top_k"@.len() == 22);
    assert("common_recall"@.len() == 13 && "common_recall"@[0] == 'c');
    assert("support"@.len() == 7);
    assert("conflict"@.len() == 8 && "conflict"@[0] == 'c');
    assert("replacement"@.len() == 11);
}

pub open spec fn granularity_text(g: RetrievalDocumentGranularity) -> Seq<char> {
    match g {
        RetrievalDocumentGranularity::Message => "message"@,
        RetrievalDocumentGranularity::Fragment => "fragment"@,
        RetrievalDocumentGranularity::Episode => "episode"@,
        RetrievalDocumentGranularity::Session => "session"@,
    }
}

pub fn granularity_name(g: RetrievalDocumentGranularity) -> (r: &'static str)
    ensures
        r@ == granularity_text(g),
{
    match g {
        RetrievalDocumentGranularity::Message => "message",
        RetrievalDocumentGranularity::Fragment => "fragment",
        RetrievalDocumentGranularity::Episode => "episode",
        RetrievalDocumentGranularity::Session => "session",
    }
}

pub open spec fn granularity_named(s: Seq<char>) -> Option<RetrievalDocumentGranularity> {
    if s == "message"@ {
        Some(RetrievalDocumentGranularity::Message)
    } else if s == "fragment"@ {
        Some(RetrievalDocumentGranularity::Fragment)
    } else if s == "episode"@ {
        Some(RetrievalDocumentGranularity::Episode)
    } else if s == "session"@ {
        Some(RetrievalDocumentGranularity::Session)
    } else {
        None
    }
}

pub fn parse_granularity(s: &str) -> (r: Option<RetrievalDocumentGranularity>)
    ensures
        r == granularity_named(s@),
{
    if text_eq(s, "message") {
        Some(RetrievalDocumentGranularity::Message)
    } else if text_eq(s, "fragment") {
        Some(RetrievalDocumentGranularity::Fragment)
    } else if text_eq(s, "episode") {
        Some(RetrievalDocumentGranularity::Episode)
    } else if text_eq(s, "session") {
        Some(RetrievalDocumentGranularity::Session)
    } else {
        None
    }
}

/// The role that a name stands for.
pub open spec fn role_named(s: Seq<char>) -> Option<EventRole> {
    if s == "user"@ {
        Some(EventRole::User)
    } else if s == "assistant"@ {
        Some(EventRole::Assistant)
    } else if s == "system"@ {
        Some(EventRole::System)
    } else {
        None
    }
}

pub open spec fn unknown_role(s: Seq<char>) -> Seq<char> {
    "无效事件角色 "@ + s
}

pub fn parse_role(s: &str) -> (r: Result<EventRole, String>)
    ensures
        match r {
            Ok(role) => role_named(s@) == Some(role),
            Err(e) => role_named(s@) is None && e@ == unknown_role(s@),
        },
{
    if text_eq(s, "user") {
        Ok(EventRole::User)
    } else if text_eq(s, "assistant") {
        Ok(EventRole::Assistant)
    } else if text_eq(s, "system") {
        Ok(EventRole::System)
    } else {
        let mut e = "无效事件角色 ".to_owned();
        e.append(s);
        Err(e)
    }
}

/// The status that a name stands for.
pub open spec fn status_named(s: Seq<char>) -> Option<TurnStatus> {
    if s == "pending"@ {
        Some(TurnStatus::Pending)
    } else if s == "complete"@ {
        Some(TurnStatus::Complete)
    } else if s == "no_answer"@ {
        Some(TurnStatus::NoAnswer)
    } else if s == "truncated"@ {
        Some(TurnStatus::Truncated)
    } else if s == "interrupted"@ {
        Some(TurnStatus::Interrupted)
    } else if s == "failed"@ {
        Some(TurnStatus::Failed)
    } else if s == "blocked"@ {
        Some(TurnStatus::Blocked)
    } else {
        None
    }
}

pub open spec fn unknown_status(s: Seq<char>) -> Seq<char> {
    "无效回合状态 "@ + s
}

pub fn parse_status(s: &str) -> (r: Result<TurnStatus, String>)
    ensures
        match r {
            Ok(status) => status_named(s@) == Some(status),
            Err(e) => status_named(s@) is None && e@ == unknown_status(s@),
        },
{
    if text_eq(s, "pending") {
        Ok(TurnStatus::Pending)
    } else if text_eq(s, "complete") {
        Ok(TurnStatus::Complete)
    } else if text_eq(s, "no_answer") {
        Ok(TurnStatus::NoAnswer)
    } else if text_eq(s, "truncated") {
        Ok(TurnStatus::Truncated)
    } else if text_eq(s, "interrupted") {
        Ok(TurnStatus::Interrupted)
    } else if text_eq(s, "failed") {
        Ok(TurnStatus::Failed)
    } else if text_eq(s, "blocked") {
        Ok(TurnStatus::Blocked)
    } else {
        let mut e = "无效回合状态 ".to_owned();
        e.append(s);
        Err(e)
    }
}

/// A digest over a domain and some values, each framed by its length.
pub open spec fn parts_digest(domain: Seq<char>, parts: Seq<Seq<u8>>) -> Seq<char> {
    digest::sha256_hex(digest::framed_all(seq![encode_utf8(domain)] + parts))
}

/// The identity of a node.
pub open spec fn node_id_text(kind: GraphNodeKind, source: Seq<char>) -> Seq<char> {
    "gnode_"@ + parts_digest(
        "hippocampus.graph.node-id.v1"@,
        seq![encode_utf8(node_kind_text(kind)), encode_utf8(source)],
    )
}

pub fn node_id(kind: GraphNodeKind, source: &str) -> (r: String)
    ensures
        r@ == node_id_text(kind, source@),
        digest::hash_id_shape(r@, "gnode_"@),
{
    let mut hasher = PartHasher::new();
    hasher.part("hippocampus.graph.node-id.v1".as_bytes());
    hasher.part(node_name(kind).as_bytes());
    hasher.part(source.as_bytes());
    assert(hasher.parts() =~= seq![encode_utf8("hippocampus.graph.node-id.v1"@)] + seq![
        encode_utf8(node_kind_text(kind)),
        encode_utf8(source@),
    ]);
    hash_id("gnode_", hasher.finish().as_str())
}

/// A row of the table of events.
#[derive(Debug, PartialEq, Eq)]
pub struct EventRow {
    pub event_id: String,
    pub session_id: String,
    pub sequence: i64,
    pub role: String,
    pub content: String,
    pub content_sha256: String,
    pub reply_to_event_id: Option<String>,
    pub turn_status: Option<String>,
}

/// An event that has been checked.
#[derive(Debug, PartialEq, Eq)]
pub struct GraphEvent {
    pub event_id: String,
    pub session_id: String,
    pub sequence: usize,
    pub role: EventRole,
    pub content: String,
    pub reply_to_event_id: Option<String>,
    pub turn_status: Option<TurnStatus>,
}

impl Clone for GraphEvent {
    fn clone(&self) -> (r: Self)
        ensures
            r == *self,
    {
        GraphEvent {
            event_id: self.event_id.clone(),
            session_id: self.session_id.clone(),
            sequence: self.sequence,
            role: self.role,
            content: self.content.clone(),
            reply_to_event_id: copy_opt(&self.reply_to_event_id),
            turn_status: self.turn_status,
        }
    }
}

/// The status of a row, or nothing where none is given; an error where the name
/// is unknown.
pub open spec fn row_status(s: Option<String>) -> Result<Option<TurnStatus>, Seq<char>> {
    match s {
        None => Ok(None),
        Some(name) => match status_named(name@) {
            Some(status) => Ok(Some(status)),
            None => Err(unknown_status(name@)),
        },
    }
}

/// The event of a row, or what is wrong with it.
pub open spec fn event_of(row: EventRow) -> Result<GraphEvent, Seq<char>> {
    if row.content_sha256@ != digest::text_digest(row.content@) {
        Err("事件 "@ + row.event_id@ + " hash 损坏"@)
    } else if !(0 <= row.sequence <= usize::MAX) {
        Err("事件 sequence 无效"@)
    } else {
        match (role_named(row.role@), row_status(row.turn_status)) {
            (None, _) => Err(unknown_role(row.role@)),
            (_, Err(e)) => Err(e),
            (Some(role), Ok(turn_status)) => Ok(
                GraphEvent {
                    event_id: row.event_id,
                    session_id: row.session_id,
                    sequence: row.sequence as usize,
                    role,
                    content: row.content,
                    reply_to_event_id: row.reply_to_event_id,
                    turn_status,
                },
            ),
        }
    }
}

fn check_event(row: &EventRow) -> (r: Result<GraphEvent, String>)
    ensures
        match r {
            Ok(e) => event_of(*row) == Ok::<GraphEvent, Seq<char>>(e),
            Err(m) => event_of(*row) == Err::<GraphEvent, Seq<char>>(m@),
        },
{
    if !text_eq(row.content_sha256.as_str(), content_sha256(row.content.as_str()).as_str()) {
        let mut m = "事件 ".to_owned();
        m.append(row.event_id.as_str());
        m.append(" hash 损坏");
        return Err(m);
    }
    if row.sequence < 0 || row.sequence as u64 > usize::MAX as u64 {
        return Err("事件 sequence 无效".to_owned());
    }
    let role = match parse_role(row.role.as_str()) {
        Ok(role) => role,
        Err(m) => return Err(m),
    };
    let turn_status = match &row.turn_status {
        None => None,
        Some(name) => match parse_status(name.as_str()) {
            Ok(status) => Some(status),
            Err(m) => return Err(m),
        },
    };
    Ok(
        GraphEvent {
            event_id: row.event_id.clone(),
            session_id: row.session_id.clone(),
            sequence: row.sequence as usize,
            role,
            content: row.content.clone(),
            reply_to_event_id: copy_opt(&row.reply_to_event_id),
            turn_status,
        },
    )
}

/// How many leading events have ids before `id`.
pub open spec fn event_place(v: Seq<GraphEvent>, id: Seq<char>, i: int) -> int
    decreases v.len() - i,
{
    if i < 0 || i >= v.len() || !text::text_lt(v[i].event_id@, id) {
        i
    } else {
        event_place(v, id, i + 1)
    }
}

/// Events in order of their ids with one more; it takes the place of one with
/// the same id.
pub open spec fn with_event(v: Seq<GraphEvent>, e: GraphEvent) -> Seq<GraphEvent> {
    let p = event_place(v, e.event_id@, 0);
    if p < v.len() && v[p].event_id@ == e.event_id@ {
        v.update(p, e)
    } else {
        v.insert(p, e)
    }
}

/// The events of the first `n` rows in order of their ids, or the first thing
/// that is wrong.
pub open spec fn events_of(rows: Seq<EventRow>, n: int) -> Result<Seq<GraphEvent>, Seq<char>>
    decreases n,
{
    if n <= 0 {
        Ok(Seq::empty())
    } else {
        match events_of(rows, n - 1) {
            Err(e) => Err(e),
            Ok(v) => match event_of(rows[n - 1]) {
                Err(e) => Err(e),
                Ok(event) => Ok(with_event(v, event)),
            },
        }
    }
}

proof fn events_of_stops(rows: Seq<EventRow>, k: int, n: int)
    requires
        k <= n,
        events_of(rows, k) is Err,
    ensures
        events_of(rows, n) == events_of(rows, k),
    decreases n - k,
{
    if k < n {
        events_of_stops(rows, k, n - 1);
    }
}

fn put_event(v: &mut Vec<GraphEvent>, e: GraphEvent)
    ensures
        final(v)@ == with_event(old(v)@, e),
{
    let ghost before = v@;
    let mut i: usize = 0;
    while i < v.len() && text_before(v[i].event_id.as_str(), e.event_id.as_str())
        invariant
            i <= v@.len(),
            v@ == before,
            event_place(v@, e.event_id@, 0) == event_place(v@, e.event_id@, i as int),
        decreases v.len() - i,
    {
        i += 1;
    }
    if i < v.len() && text_eq(v[i].event_id.as_str(), e.event_id.as_str()) {
        v.set(i, e);
    } else {
        v.insert(i, e);
    }
}

/// Checks the rows of the table of events: every digest, role and status.
pub fn check_events(rows: &Vec<EventRow>) -> (r: Result<Vec<GraphEvent>, String>)
    ensures
        match r {
            Ok(v) => events_of(rows@, rows@.len() as int) == Ok::<Seq<GraphEvent>, Seq<char>>(v@),
            Err(m) => events_of(rows@, rows@.len() as int) == Err::<Seq<GraphEvent>, Seq<char>>(
                m@,
            ),
        },
{
    let mut out: Vec<GraphEvent> = Vec::new();
    let mut i: usize = 0;
    while i < rows.len()
        invariant
            i <= rows@.len(),
            events_of(rows@, i as int) == Ok::<Seq<GraphEvent>, Seq<char>>(out@),
        decreases rows.len() - i,
    {
        match check_event(&rows[i]) {
            Ok(event) => put_event(&mut out, event),
            Err(m) => {
                proof {
                    events_of_stops(rows@, i + 1, rows@.len() as int);
                }
                return Err(m);
            },
        }
        i += 1;
    }
    Ok(out)
}

/// A document that stands for a part of one event.
#[derive(Debug, PartialEq, Eq)]
pub struct LeafDocument {
    pub document_id: String,
    pub session_id: String,
    pub source_event_id: String,
    pub granularity: RetrievalDocumentGranularity,
    pub start_char: usize,
    pub end_char: usize,
    pub source_sha256: String,
    pub content: String,
}

/// A document that stands for several events.
#[derive(Debug, PartialEq, Eq)]
pub struct AggregateDocument {
    pub document_id: String,
    pub session_id: String,
    pub granularity: RetrievalDocumentGranularity,
    pub source_sha256: String,
}

/// A row of the table of entities or of claims; `fields` holds the bytes of its
/// columns after the first two.
#[derive(Debug, PartialEq, Eq)]
pub struct SourceRow {
    pub source_id: String,
    pub session_id: Option<String>,
    pub fields: Vec<Vec<u8>>,
}

#[derive(Debug, PartialEq, Eq)]
pub struct GraphNode {
    pub id: String,
    pub kind: GraphNodeKind,
    pub source_id: String,
    pub session_id: Option<String>,
    pub granularity: Option<RetrievalDocumentGranularity>,
    pub source_sha256: String,
}

impl Clone for GraphNode {
    fn clone(&self) -> (r: Self)
        ensures
            r == *self,
    {
        GraphNode {
            id: self.id.clone(),
            kind: self.kind,
            source_id: self.source_id.clone(),
            session_id: copy_opt(&self.session_id),
            granularity: self.granularity,
            source_sha256: self.source_sha256.clone(),
        }
    }
}

/// A node by what it says.
pub struct NodeModel {
    pub id: Seq<char>,
    pub kind: GraphNodeKind,
    pub source_id: Seq<char>,
    pub session_id: Option<Seq<char>>,
    pub granularity: Option<RetrievalDocumentGranularity>,
    pub source_sha256: Seq<char>,
}

pub open spec fn node_model(n: GraphNode) -> NodeModel {
    NodeModel {
        id: n.id@,
        kind: n.kind,
        source_id: n.source_id@,
        session_id: text::opt_text(n.session_id),
        granularity: n.granularity,
        source_sha256: n.source_sha256@,
    }
}

pub open spec fn node_models(v: Seq<GraphNode>) -> Seq<NodeModel> {
    Seq::new(v.len(), |i: int| node_model(v[i]))
}

/// A part of an event, as a node of the graph.
#[derive(Clone, Debug, PartialEq, Eq)]
pub struct Leaf {
    pub node_id: String,
    pub document_id: String,
    pub session_id: String,
    pub event_id: String,
    pub start: usize,
    pub end: usize,
    pub hash: String,
    pub role: EventRole,
    pub content: String,
    pub granularity: RetrievalDocumentGranularity,
}

/// The leaf of a document whose event has a role.
pub open spec fn is_leaf_of(l: Leaf, d: LeafDocument, role: EventRole) -> bool {
    &&& l.node_id@ == node_id_text(GraphNodeKind::Document, d.document_id@)
    &&& l.document_id == d.document_id
    &&& l.session_id == d.session_id
    &&& l.event_id == d.source_event_id
    &&& l.start == d.start_char
    &&& l.end == d.end_char
    &&& l.hash == d.source_sha256
    &&& l.role == role
    &&& l.content == d.content
    &&& l.granularity == d.granularity
}

/// The first event with an id, from `i` on.
pub open spec fn event_at(v: Seq<GraphEvent>, id: Seq<char>, i: int) -> Option<int>
    decreases v.len() - i,
{
    if i < 0 || i >= v.len() {
        None
    } else if v[i].event_id@ == id {
        Some(i)
    } else {
        event_at(v, id, i + 1)
    }
}

pub fn find_event(v: &Vec<GraphEvent>, id: &str) -> (r: Option<usize>)
    ensures
        match r {
            Some(p) => p < v@.len() && event_at(v@, id@, 0) == Some(p as int),
            None => event_at(v@, id@, 0) is None,
        },
{
    let mut i: usize = 0;
    while i < v.len()
        invariant
            i <= v@.len(),
            event_at(v@, id@, 0) == event_at(v@, id@, i as int),
        decreases v.len() - i,
    {
        if text_eq(v[i].event_id.as_str(), id) {
            return Some(i);
        }
        i += 1;
    }
    None
}

/// What is wrong with a document of an event.
pub open spec fn leaf_fault(d: LeafDocument, events: Seq<GraphEvent>) -> Option<Seq<char>> {
    match event_at(events, d.source_event_id@, 0) {
        None => Some("leaf 缺少事件"@),
        Some(p) => if events[p].session_id@ != d.session_id@ {
            Some("leaf session 绑定错误"@)
        } else {
            None
        },
    }
}

/// The first thing that is wrong with the first `n` documents.
pub open spec fn leaves_fault(v: Seq<LeafDocument>, events: Seq<GraphEvent>, n: int) -> Option<
    Seq<char>,
>
    decreases n,
{
    if n <= 0 {
        None
    } else if leaves_fault(v, events, n - 1) is Some {
        leaves_fault(v, events, n - 1)
    } else {
        leaf_fault(v[n - 1], events)
    }
}

proof fn leaves_fault_stays(v: Seq<LeafDocument>, events: Seq<GraphEvent>, k: int, n: int)
    requires
        k <= n,
        leaves_fault(v, events, k) is Some,
    ensures
        leaves_fault(v, events, n) == leaves_fault(v, events, k),
    decreases n - k,
{
    if k < n {
        leaves_fault_stays(v, events, k, n - 1);
    }
}

/// The leaves of all documents.
pub open spec fn are_leaves_of(
    leaves: Seq<Leaf>,
    v: Seq<LeafDocument>,
    events: Seq<GraphEvent>,
) -> bool {
    leaves.len() == v.len() && forall|i: int|
        0 <= i < v.len() ==> is_leaf_of(
            #[trigger] leaves[i],
            v[i],
            events[event_at(events, v[i].source_event_id@, 0)->0].role,
        )
}

pub open spec fn leaf_node(d: LeafDocument) -> NodeModel {
    NodeModel {
        id: node_id_text(GraphNodeKind::Document, d.document_id@),
        kind: GraphNodeKind::Document,
        source_id: d.document_id@,
        session_id: Some(d.session_id@),
        granularity: Some(d.granularity),
        source_sha256: d.source_sha256@,
    }
}

pub open spec fn aggregate_node(d: AggregateDocument) -> NodeModel {
    NodeModel {
        id: node_id_text(GraphNodeKind::Document, d.document_id@),
        kind: GraphNodeKind::Document,
        source_id: d.document_id@,
        session_id: Some(d.session_id@),
        granularity: Some(d.granularity),
        source_sha256: d.source_sha256@,
    }
}

pub open spec fn byte_lists(v: Seq<Vec<u8>>) -> Seq<Seq<u8>> {
    Seq::new(v.len(), |i: int| v[i]@)
}

pub open spec fn session_bytes(s: Option<String>) -> Seq<u8> {
    match s {
        Some(session) => encode_utf8(session@),
        None => encode_utf8(""@),
    }
}

/// The digest of a row.
pub open spec fn row_digest(domain: Seq<char>, row: SourceRow) -> Seq<char> {
    parts_digest(
        domain,
        seq![encode_utf8(row.source_id@), session_bytes(row.session_id)] + byte_lists(
            row.fields@,
        ),
    )
}

pub open spec fn source_node(kind: GraphNodeKind, domain: Seq<char>, row: SourceRow) -> NodeModel {
    NodeModel {
        id: node_id_text(kind, row.source_id@),
        kind,
        source_id: row.source_id@,
        session_id: text::opt_text(row.session_id),
        granularity: None,
        source_sha256: row_digest(domain, row),
    }
}

fn digest_row(domain: &str, row: &SourceRow) -> (r: String)
    ensures
        r@ == row_digest(domain@, *row),
{
    let mut hasher = PartHasher::new();
    hasher.part(domain.as_bytes());
    hasher.part(row.source_id.as_str().as_bytes());
    match &row.session_id {
        Some(session) => hasher.part(session.as_str().as_bytes()),
        None => hasher.part("".as_bytes()),
    }
    let ghost front = seq![
        encode_utf8(domain@),
        encode_utf8(row.source_id@),
        session_bytes(row.session_id),
    ];
    assert(hasher.parts() =~= front + byte_lists(row.fields@).take(0));
    let mut i: usize = 0;
    while i < row.fields.len()
        invariant
            i <= row.fields@.len(),
            hasher.wf(),
            hasher.parts() == front + byte_lists(row.fields@).take(i as int),
        decreases row.fields.len() - i,
    {
        hasher.part(row.fields[i].as_slice());
        assert(hasher.parts() =~= front + byte_lists(row.fields@).take(i + 1));
        i += 1;
    }
    assert(hasher.parts() =~= seq![encode_utf8(domain@)] + (seq![
        encode_utf8(row.source_id@),
        session_bytes(row.session_id),
    ] + byte_lists(row.fields@)));
    hasher.finish()
}

/// All nodes, in the order in which they are read.
pub open spec fn listed_nodes(
    leaves: Seq<LeafDocument>,
    aggregates: Seq<AggregateDocument>,
    entities: Seq<SourceRow>,
    claims: Seq<SourceRow>,
) -> Seq<NodeModel> {
    Seq::new(leaves.len(), |i: int| leaf_node(leaves[i])) + Seq::new(
        aggregates.len(),
        |i: int| aggregate_node(aggregates[i]),
    ) + Seq::new(
        entities.len(),
        |i: int|
            source_node(
                GraphNodeKind::Entity,
                "hippocampus.graph.entity-source.v1"@,
                entities[i],
            ),
    ) + Seq::new(
        claims.len(),
        |i: int|
            source_node(GraphNodeKind::Claim, "hippocampus.graph.claim-source.v1"@, claims[i]),
    )
}

pub open spec fn id_keys(v: Seq<NodeModel>) -> Seq<Seq<order::PartModel>> {
    Seq::new(v.len(), |i: int| seq![order::PartModel::Text(v[i].id)])
}

/// Nodes in order of their ids.
pub open spec fn sorted_nodes(v: Seq<NodeModel>) -> Seq<NodeModel> {
    let by_id = order::ordered(id_keys(v), v.len() as int);
    Seq::new(v.len(), |i: int| v[by_id[i]])
}

/// Whether two neighbours have the same id.
pub open spec fn ids_collide(v: Seq<NodeModel>) -> bool {
    exists|i: int| 0 < i < v.len() && #[trigger] repeats(v, i)
}

pub open spec fn repeats(v: Seq<NodeModel>, i: int) -> bool {
    v[i - 1].id == v[i].id
}

/// The nodes of the graph, or what is wrong with what they are made of.
pub open spec fn graph_nodes(
    rows: Seq<EventRow>,
    leaves: Seq<LeafDocument>,
    aggregates: Seq<AggregateDocument>,
    entities: Seq<SourceRow>,
    claims: Seq<SourceRow>,
) -> Result<Seq<NodeModel>, Seq<char>> {
    match events_of(rows, rows.len() as int) {
        Err(e) => Err(e),
        Ok(events) => match leaves_fault(leaves, events, leaves.len() as int) {
            Some(e) => Err(e),
            None => {
                let nodes = sorted_nodes(listed_nodes(leaves, aggregates, entities, claims));
                if ids_collide(nodes) {
                    Err("图节点 ID 冲突"@)
                } else {
                    Ok(nodes)
                }
            },
        },
    }
}

pub open spec fn ids_rise(v: Seq<NodeModel>) -> bool {
    forall|i: int, j: int|
        0 <= i < j < v.len() ==> !text::text_lt((#[trigger] v[j]).id, (#[trigger] v[i]).id)
}

pub open spec fn ids_rise_strictly(v: Seq<NodeModel>) -> bool {
    forall|i: int, j: int|
        0 <= i < j < v.len() ==> text::text_lt((#[trigger] v[i]).id, (#[trigger] v[j]).id)
}

proof fn sorted_ids_rise(v: Seq<NodeModel>)
    ensures
        ids_rise(sorted_nodes(v)),
{
    let keys = id_keys(v);
    let n = v.len() as int;
    let s = sorted_nodes(v);
    order::ordered_is_complete(keys, n);
    assert(order::one_shape(keys)) by {
        assert forall|i: int, j: int|
            0 <= i < keys.len() && 0 <= j < keys.len() implies order::same_shape(
            #[trigger] keys[i],
            #[trigger] keys[j],
        ) by {}
    }
    order::ordered_is_sorted(keys, n);
    let by_id = order::ordered(keys, n);
    assert forall|i: int, j: int| 0 <= i < j < s.len() implies !text::text_lt(
        (#[trigger] s[j]).id,
        (#[trigger] s[i]).id,
    ) by {
        let a = by_id[i];
        let b = by_id[j];
        assert(!order::key_lt(keys[b], keys[a], 0));
        assert(keys[b][0] == order::PartModel::Text(s[j].id));
        assert(keys[a][0] == order::PartModel::Text(s[i].id));
    }
}

proof fn neighbours_rise(v: Seq<NodeModel>, i: int, j: int)
    requires
        ids_rise(v),
        !ids_collide(v),
        0 <= i < j < v.len(),
    ensures
        text::text_lt(v[i].id, v[j].id),
    decreases j - i,
{
    let before = v[j - 1].id;
    assert(!repeats(v, j));
    assert(!text::text_lt(v[j].id, before));
    text::text_lt_total(before, v[j].id);
    if i < j - 1 {
        neighbours_rise(v, i, j - 1);
        text::text_lt_transitive(v[i].id, before, v[j].id);
    }
}

/// The nodes of a graph without a collision are in strict order of their ids.
pub proof fn node_ids_are_distinct(v: Seq<NodeModel>)
    requires
        !ids_collide(sorted_nodes(v)),
    ensures
        ids_rise_strictly(sorted_nodes(v)),
{
    sorted_ids_rise(v);
    let s = sorted_nodes(v);
    assert forall|i: int, j: int| 0 <= i < j < s.len() implies text::text_lt(
        (#[trigger] s[i]).id,
        (#[trigger] s[j]).id,
    ) by {
        neighbours_rise(s, i, j);
    }
}

fn build_leaves(documents: &Vec<LeafDocument>, events: &Vec<GraphEvent>) -> (r: Result<
    Vec<Leaf>,
    String,
>)
    ensures
        match r {
            Ok(leaves) => leaves_fault(documents@, events@, documents@.len() as int) is None
                && are_leaves_of(leaves@, documents@, events@),
            Err(m) => leaves_fault(documents@, events@, documents@.len() as int) == Some(m@),
        },
{
    let mut out: Vec<Leaf> = Vec::new();
    let mut i: usize = 0;
    while i < documents.len()
        invariant
            i <= documents@.len(),
            out@.len() == i,
            leaves_fault(documents@, events@, i as int) is None,
            forall|k: int|
                0 <= k < i ==> is_leaf_of(
                    #[trigger] out@[k],
                    documents@[k],
                    events@[event_at(events@, documents@[k].source_event_id@, 0)->0].role,
                ),
        decreases documents.len() - i,
    {
        let d = &documents[i];
        let role = match find_event(events, d.source_event_id.as_str()) {
            Some(p) => {
                if !text_eq(events[p].session_id.as_str(), d.session_id.as_str()) {
                    proof {
                        leaves_fault_stays(documents@, events@, i + 1, documents@.len() as int);
                    }
                    return Err("leaf session 绑定错误".to_owned());
                }
                events[p].role
            },
            None => {
                proof {
                    leaves_fault_stays(documents@, events@, i + 1, documents@.len() as int);
                }
                return Err("leaf 缺少事件".to_owned());
            },
        };
        out.push(
            Leaf {
                node_id: node_id(GraphNodeKind::Document, d.document_id.as_str()),
                document_id: d.document_id.clone(),
                session_id: d.session_id.clone(),
                event_id: d.source_event_id.clone(),
                start: d.start_char,
                end: d.end_char,
                hash: d.source_sha256.clone(),
                role,
                content: d.content.clone(),
                granularity: d.granularity,
            },
        );
        i += 1;
    }
    Ok(out)
}

fn list_documents(
    nodes: &mut Vec<GraphNode>,
    leaves: &Vec<LeafDocument>,
    aggregates: &Vec<AggregateDocument>,
)
    ensures
        node_models(final(nodes)@) == node_models(old(nodes)@) + Seq::new(
            leaves@.len(),
            |i: int| leaf_node(leaves@[i]),
        ) + Seq::new(aggregates@.len(), |i: int| aggregate_node(aggregates@[i])),
{
    let ghost start = node_models(nodes@);
    let ghost first = Seq::new(leaves@.len(), |k: int| leaf_node(leaves@[k]));
    let ghost second = Seq::new(aggregates@.len(), |k: int| aggregate_node(aggregates@[k]));
    let mut i: usize = 0;
    assert(node_models(nodes@) =~= start + first.take(0));
    while i < leaves.len()
        invariant
            i <= leaves@.len(),
            first == Seq::new(leaves@.len(), |k: int| leaf_node(leaves@[k])),
            node_models(nodes@) == start + first.take(i as int),
        decreases leaves.len() - i,
    {
        let d = &leaves[i];
        let ghost before = node_models(nodes@);
        nodes.push(
            GraphNode {
                id: node_id(GraphNodeKind::Document, d.document_id.as_str()),
                kind: GraphNodeKind::Document,
                source_id: d.document_id.clone(),
                session_id: Some(d.session_id.clone()),
                granularity: Some(d.granularity),
                source_sha256: d.source_sha256.clone(),
            },
        );
        assert(node_models(nodes@) =~= before.push(leaf_node(*d)));
        assert(before.push(leaf_node(*d)) =~= start + first.take(i + 1));
        i += 1;
    }
    assert(first.take(i as int) =~= first);
    let mut j: usize = 0;
    assert(node_models(nodes@) =~= start + first + second.take(0));
    while j < aggregates.len()
        invariant
            j <= aggregates@.len(),
            second == Seq::new(aggregates@.len(), |k: int| aggregate_node(aggregates@[k])),
            node_models(nodes@) == start + first + second.take(j as int),
        decreases aggregates.len() - j,
    {
        let d = &aggregates[j];
        let ghost before = node_models(nodes@);
        nodes.push(
            GraphNode {
                id: node_id(GraphNodeKind::Document, d.document_id.as_str()),
                kind: GraphNodeKind::Document,
                source_id: d.document_id.clone(),
                session_id: Some(d.session_id.clone()),
                granularity: Some(d.granularity),
                source_sha256: d.source_sha256.clone(),
            },
        );
        assert(node_models(nodes@) =~= before.push(aggregate_node(*d)));
        assert(before.push(aggregate_node(*d)) =~= start + first + second.take(j + 1));
        j += 1;
    }
    assert(second.take(j as int) =~= second);
}

fn list_rows(nodes: &mut Vec<GraphNode>, kind: GraphNodeKind, domain: &str, rows: &Vec<SourceRow>)
    ensures
        node_models(final(nodes)@) == node_models(old(nodes)@) + Seq::new(
            rows@.len(),
            |i: int| source_node(kind, domain@, rows@[i]),
        ),
{
    let ghost start = node_models(nodes@);
    let ghost all = Seq::new(rows@.len(), |k: int| source_node(kind, domain@, rows@[k]));
    let mut i: usize = 0;
    assert(node_models(nodes@) =~= start + all.take(0));
    while i < rows.len()
        invariant
            i <= rows@.len(),
            all == Seq::new(rows@.len(), |k: int| source_node(kind, domain@, rows@[k])),
            node_models(nodes@) == start + all.take(i as int),
        decreases rows.len() - i,
    {
        let row = &rows[i];
        let ghost before = node_models(nodes@);
        nodes.push(
            GraphNode {
                id: node_id(kind, row.source_id.as_str()),
                kind,
                source_id: row.source_id.clone(),
                session_id: copy_opt(&row.session_id),
                granularity: None,
                source_sha256: digest_row(domain, row),
            },
        );
        assert(node_models(nodes@) =~= before.push(source_node(kind, domain@, *row)));
        assert(before.push(source_node(kind, domain@, *row)) =~= start + all.take(i + 1));
        i += 1;
    }
    assert(all.take(i as int) =~= all);
}

fn sort_nodes(nodes: &Vec<GraphNode>) -> (r: Vec<GraphNode>)
    ensures
        node_models(r@) == sorted_nodes(node_models(nodes@)),
{
    let ghost all = node_models(nodes@);
    let mut keys: Vec<Vec<KeyPart>> = Vec::new();
    let mut i: usize = 0;
    while i < nodes.len()
        invariant
            i <= nodes@.len(),
            keys@.len() == i,
            all == node_models(nodes@),
            forall|k: int|
                0 <= k < i ==> order::key_model((#[trigger] keys@[k])@) == id_keys(all)[k],
        decreases nodes.len() - i,
    {
        let mut key: Vec<KeyPart> = Vec::new();
        key.push(KeyPart::Text(nodes[i].id.clone()));
        assert(order::key_model(key@) =~= id_keys(all)[i as int]);
        keys.push(key);
        i += 1;
    }
    assert(order::key_models(keys@) =~= id_keys(all));
    let by_id = stable_order(&keys);
    let ghost places = order::indices(by_id@);
    let mut out: Vec<GraphNode> = Vec::new();
    let mut j: usize = 0;
    while j < by_id.len()
        invariant
            j <= by_id@.len(),
            by_id@.len() == nodes@.len(),
            out@.len() == j,
            places == order::indices(by_id@),
            forall|k: int| 0 <= k < by_id@.len() ==> #[trigger] by_id@[k] < nodes@.len(),
            forall|k: int| 0 <= k < j ==> #[trigger] out@[k] == nodes@[places[k]],
        decreases by_id.len() - j,
    {
        assert(places[j as int] == by_id@[j as int]);
        out.push(nodes[by_id[j]].clone());
        j += 1;
    }
    proof {
        let want = sorted_nodes(all);
        assert forall|k: int| 0 <= k < want.len() implies node_models(out@)[k] == want[k] by {
            assert(out@[k] == nodes@[places[k]]);
            assert(places[k] == by_id@[k]);
        }
        assert(node_models(out@) =~= want);
    }
    out
}

fn neighbours_collide(nodes: &Vec<GraphNode>) -> (r: bool)
    ensures
        r == ids_collide(node_models(nodes@)),
{
    let ghost all = node_models(nodes@);
    let mut i: usize = 1;
    while i < nodes.len()
        invariant
            1 <= i,
            all == node_models(nodes@),
            forall|k: int| 0 < k < i && k < all.len() ==> !#[trigger] repeats(all, k),
        decreases nodes.len() - i,
    {
        assert(all[i - 1].id == nodes@[i - 1].id@);
        assert(all[i as int].id == nodes@[i as int].id@);
        assert(repeats(all, i as int) == (nodes@[i - 1].id@ == nodes@[i as int].id@));
        if text_eq(nodes[i - 1].id.as_str(), nodes[i].id.as_str()) {
            return true;
        }
        i += 1;
    }
    false
}

/// What the graph is made of, once it has been checked.
pub struct GraphBasis {
    pub nodes: Vec<GraphNode>,
    pub leaves: Vec<Leaf>,
    pub events: Vec<GraphEvent>,
}

/// Makes the nodes of the graph: one for every document, resolved entity and
/// claim, in order of their ids.
pub fn build_nodes(
    rows: &Vec<EventRow>,
    leaves: &Vec<LeafDocument>,
    aggregates: &Vec<AggregateDocument>,
    entities: &Vec<SourceRow>,
    claims: &Vec<SourceRow>,
) -> (r: Result<GraphBasis, String>)
    ensures
        match r {
            Ok(basis) => {
                &&& graph_nodes(rows@, leaves@, aggregates@, entities@, claims@) == Ok::<
                    Seq<NodeModel>,
                    Seq<char>,
                >(node_models(basis.nodes@))
                &&& events_of(rows@, rows@.len() as int) == Ok::<Seq<GraphEvent>, Seq<char>>(
                    basis.events@,
                )
                &&& are_leaves_of(basis.leaves@, leaves@, basis.events@)
            },
            Err(m) => graph_nodes(rows@, leaves@, aggregates@, entities@, claims@) == Err::<
                Seq<NodeModel>,
                Seq<char>,
            >(m@),
        },
{
    let events = match check_events(rows) {
        Ok(events) => events,
        Err(m) => return Err(m),
    };
    let built = match build_leaves(leaves, &events) {
        Ok(built) => built,
        Err(m) => return Err(m),
    };
    let mut nodes: Vec<GraphNode> = Vec::new();
    let ghost none = node_models(nodes@);
    list_documents(&mut nodes, leaves, aggregates);
    list_rows(&mut nodes, GraphNodeKind::Entity, "hippocampus.graph.entity-source.v1", entities);
    list_rows(&mut nodes, GraphNodeKind::Claim, "hippocampus.graph.claim-source.v1", claims);
    assert(node_models(nodes@) =~= listed_nodes(leaves@, aggregates@, entities@, claims@));
    let sorted = sort_nodes(&nodes);
    if neighbours_collide(&sorted) {
        return Err("图节点 ID 冲突".to_owned());
    }
    Ok(GraphBasis { nodes: sorted, leaves: built, events })
}

/// Events in strict order of their names.
pub open spec fn events_rise(v: Seq<GraphEvent>) -> bool {
    forall|i: int, j: int|
        0 <= i < j < v.len() ==> text::text_lt(
            (#[trigger] v[i]).event_id@,
            (#[trigger] v[j]).event_id@,
        )
}

proof fn event_place_parts(v: Seq<GraphEvent>, id: Seq<char>, i: int)
    requires
        0 <= i <= v.len(),
        events_rise(v),
    ensures
        i <= event_place(v, id, i) <= v.len(),
        forall|k: int|
            i <= k < event_place(v, id, i) ==> text::text_lt((#[trigger] v[k]).event_id@, id),
        forall|k: int|
            event_place(v, id, i) <= k < v.len() ==> !text::text_lt(
                (#[trigger] v[k]).event_id@,
                id,
            ),
    decreases v.len() - i,
{
    if i < v.len() {
        if text::text_lt(v[i].event_id@, id) {
            event_place_parts(v, id, i + 1);
        } else {
            assert forall|k: int| i <= k < v.len() implies !text::text_lt(
                (#[trigger] v[k]).event_id@,
                id,
            ) by {
                if k > i && text::text_lt(v[k].event_id@, id) {
                    text::text_lt_transitive(v[i].event_id@, v[k].event_id@, id);
                }
            }
        }
    }
}

proof fn adding_keeps_events_rising(v: Seq<GraphEvent>, e: GraphEvent)
    requires
        events_rise(v),
    ensures
        events_rise(with_event(v, e)),
        with_event(v, e).contains(e),
        forall|x: GraphEvent| #[trigger]
            with_event(v, e).contains(x) ==> x == e || v.contains(x),
        forall|x: GraphEvent| #[trigger]
            v.contains(x) && x.event_id@ != e.event_id@ ==> with_event(v, e).contains(x),
{
    let id = e.event_id@;
    let p = event_place(v, id, 0);
    let w = with_event(v, e);
    event_place_parts(v, id, 0);
    let same = p < v.len() && v[p].event_id@ == id;
    assert(w[p] == e);
    assert forall|x: GraphEvent| #[trigger] w.contains(x) implies x == e || v.contains(x) by {
        let k = choose|k: int| 0 <= k < w.len() && w[k] == x;
        if k < p || same {
            if k != p {
                assert(v[k] == x);
            }
        } else if k > p {
            assert(v[k - 1] == x);
        }
    }
    assert forall|x: GraphEvent| #[trigger] v.contains(x) && x.event_id@ != id implies w.contains(
        x,
    ) by {
        let k = choose|k: int| 0 <= k < v.len() && v[k] == x;
        if k < p || same {
            assert(w[k] == x);
        } else {
            assert(w[k + 1] == x);
        }
    }
    assert forall|i: int, j: int| 0 <= i < j < w.len() implies text::text_lt(
        (#[trigger] w[i]).event_id@,
        (#[trigger] w[j]).event_id@,
    ) by {
        if same {
            assert(w[i].event_id@ == v[i].event_id@ && w[j].event_id@ == v[j].event_id@);
        } else {
            let a = if i < p {
                i
            } else {
                i - 1
            };
            let b = if j < p {
                j
            } else {
                j - 1
            };
            if i == p {
                text::text_lt_total(v[b].event_id@, id);
                if b > p && v[b].event_id@ == id {
                    assert(text::text_lt(v[p].event_id@, v[b].event_id@));
                }
                assert(w[j] == v[b]);
            } else if j == p {
                assert(w[i] == v[a]);
            } else {
                assert(w[i] == v[a] && w[j] == v[b]);
            }
        }
    }
}

/// The events of a graph stand in strict order of their names, come each from a
/// row whose content has its digest, and no row's name is missing among them.
pub proof fn events_come_from_their_rows(rows: Seq<EventRow>, n: int)
    requires
        0 <= n <= rows.len(),
    ensures
        events_of(rows, n) matches Ok(v) ==> {
            &&& events_rise(v)
            &&& forall|x: GraphEvent| #[trigger]
                v.contains(x) ==> exists|i: int|
                    0 <= i < n && (#[trigger] rows[i]).event_id@ == x.event_id@ && rows[i].content@
                        == x.content@ && rows[i].session_id@ == x.session_id@ && rows[i].sequence
                        == x.sequence && role_named(rows[i].role@) == Some(x.role)
            &&& forall|i: int|
                0 <= i < n ==> (#[trigger] rows[i]).content_sha256@ == digest::text_digest(
                    rows[i].content@,
                ) && rows[i].sequence >= 0 && exists|k: int|
                    0 <= k < v.len() && (#[trigger] v[k]).event_id@ == rows[i].event_id@
        },
    decreases n,
{
    if n > 0 {
        events_come_from_their_rows(rows, n - 1);
        if events_of(rows, n) is Ok {
            let before = events_of(rows, n - 1)->Ok_0;
            let e = event_of(rows[n - 1])->Ok_0;
            let now = events_of(rows, n)->Ok_0;
            adding_keeps_events_rising(before, e);
            assert forall|x: GraphEvent| #[trigger] now.contains(x) implies exists|i: int|
                0 <= i < n && (#[trigger] rows[i]).event_id@ == x.event_id@ && rows[i].content@
                    == x.content@ && rows[i].session_id@ == x.session_id@ && rows[i].sequence
                    == x.sequence && role_named(rows[i].role@) == Some(x.role) by {
                if x == e {
                    assert(rows[n - 1].event_id@ == x.event_id@);
                } else {
                    assert(before.contains(x));
                    let i = choose|i: int|
                        0 <= i < n - 1 && (#[trigger] rows[i]).event_id@ == x.event_id@
                            && rows[i].content@ == x.content@ && rows[i].session_id@
                            == x.session_id@ && rows[i].sequence == x.sequence && role_named(
                            rows[i].role@,
                        ) == Some(x.role);
                    assert(rows[i].event_id@ == x.event_id@);
                }
            }
            assert forall|i: int| 0 <= i < n implies (#[trigger] rows[i]).content_sha256@
                == digest::text_digest(rows[i].content@) && rows[i].sequence >= 0 && exists|
                k: int,
            | 0 <= k < now.len() && (#[trigger] now[k]).event_id@ == rows[i].event_id@ by {
                if i < n - 1 && rows[i].event_id@ != e.event_id@ {
                    let k = choose|k: int|
                        0 <= k < before.len() && (#[trigger] before[k]).event_id@
                            == rows[i].event_id@;
                    let x = before[k];
                    assert(before.contains(x));
                    assert(now.contains(x));
                    let m = choose|m: int| 0 <= m < now.len() && now[m] == x;
                    assert(now[m].event_id@ == rows[i].event_id@);
                } else {
                    let m = choose|m: int| 0 <= m < now.len() && now[m] == e;
                    assert(now[m].event_id@ == rows[i].event_id@);
                }
            }
        }
    }
}

} // verus!
