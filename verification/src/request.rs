//! Requests for structured answers: what a model is asked, and the shape that
//! its answer must have.

use vstd::prelude::*;
use vstd::string::*;

use crate::json::{
    self, copy_json, find_member, json_number, json_strs, json_text, parse_json, remove_member,
    render, set_member, Json, JsonObject, JsonTree,
};
use crate::model::{self, copy_list, ChatMessage};

verus! {

/// A request for an answer in a given shape.
#[derive(Clone, Debug)]
pub struct StructuredChatRequest {
    pub model: String,
    pub messages: Vec<ChatMessage>,
    pub schema: Json,
    pub think: bool,
    pub num_ctx: u64,
    pub num_predict: u64,
}

/// The parts of a request.
pub struct RequestModel {
    pub model: Seq<char>,
    pub messages: Seq<(Seq<char>, Seq<char>)>,
    pub schema: JsonTree,
    pub think: bool,
    pub num_ctx: u64,
    pub num_predict: u64,
}

pub open spec fn request_model(r: StructuredChatRequest) -> RequestModel {
    RequestModel {
        model: r.model@,
        messages: model::message_texts(r.messages@),
        schema: json::tree(r.schema),
        think: r.think,
        num_ctx: r.num_ctx,
        num_predict: r.num_predict,
    }
}

/// A request of a system and a user message.
pub open spec fn asked(
    model: Seq<char>,
    system: Seq<char>,
    user: Seq<char>,
    schema: JsonTree,
    num_ctx: u64,
    num_predict: u64,
) -> RequestModel {
    RequestModel {
        model,
        messages: seq![("system"@, system), ("user"@, user)],
        schema,
        think: true,
        num_ctx,
        num_predict,
    }
}

pub fn ask(
    model: String,
    system: &str,
    user: String,
    schema: Json,
    num_ctx: u64,
    num_predict: u64,
) -> (r: StructuredChatRequest)
    ensures
        request_model(r) == asked(
            model@,
            system@,
            user@,
            json::tree(schema),
            num_ctx,
            num_predict,
        ),
{
    let mut messages: Vec<ChatMessage> = Vec::new();
    messages.push(ChatMessage { role: "system".to_owned(), content: system.to_owned() });
    messages.push(ChatMessage { role: "user".to_owned(), content: user });
    assert(model::message_texts(messages@) =~= seq![("system"@, system@), ("user"@, user@)]);
    StructuredChatRequest { model, messages, schema, think: true, num_ctx, num_predict }
}

/// The instruction of a repair.
pub const REPAIR_INSTRUCTION: &'static str = "Return one complete replacement object. Correct only the listed paths. Reuse only source and candidate IDs from the original request.";

/// The errors that a repair lists: those that were written down, or the text
/// itself where it cannot be read.
pub open spec fn listed_errors(validation: Seq<char>) -> JsonTree {
    match json::parsed_json(validation) {
        Ok(t) => t,
        Err(_) => JsonTree::Array(
            seq![
                JsonTree::Object(
                    seq![
                        ("code"@, JsonTree::Text("invalid"@)),
                        ("message"@, JsonTree::Text(validation)),
                        ("path"@, JsonTree::Text("$"@)),
                    ],
                ),
            ],
        ),
    }
}

/// The message that asks for a repair.
pub open spec fn repair_tree(invalid: Seq<char>, errors: JsonTree) -> JsonTree {
    JsonTree::Object(
        seq![
            ("instruction"@, JsonTree::Text(REPAIR_INSTRUCTION@)),
            ("invalid_response"@, JsonTree::Text(invalid)),
            ("kind"@, JsonTree::Text("repair"@)),
            ("validation_errors"@, errors),
        ],
    )
}

/// A list of one value.
fn one(item: Json) -> (r: Json)
    ensures
        json::tree(r) == JsonTree::Array(seq![json::tree(item)]),
{
    let mut v: Vec<Json> = Vec::new();
    v.push(item);
    proof {
        json::trees_index(v@, 1);
        assert(json::trees(v@, 1) =~= seq![json::tree(item)]);
    }
    Json::Array(v)
}

/// Asks for a repair of an answer, with its errors as a value.
pub fn repair_with_errors(
    original: &StructuredChatRequest,
    invalid_response: &str,
    errors: Json,
) -> (r: StructuredChatRequest)
    ensures
        request_model(r) == (RequestModel {
            messages: request_model(*original).messages.push(
                ("user"@, json::rendered(repair_tree(invalid_response@, json::tree(errors)))),
            ),
            ..request_model(*original)
        }),
{
    let object = JsonObject::new().with("instruction", json_text(REPAIR_INSTRUCTION)).with(
        "invalid_response",
        json_text(invalid_response),
    ).with("kind", json_text("repair")).with("validation_errors", errors);
    assert(object.list() =~= repair_tree(
        invalid_response@,
        json::tree(errors),
    )->Object_0);
    let content = render(&object.finish());
    let mut messages = copy_list(&original.messages);
    messages.push(ChatMessage { role: "user".to_owned(), content });
    assert(model::message_texts(messages@) =~= model::message_texts(original.messages@).push(
        ("user"@, content@),
    ));
    StructuredChatRequest {
        model: original.model.clone(),
        messages,
        schema: copy_json(&original.schema),
        think: original.think,
        num_ctx: original.num_ctx,
        num_predict: original.num_predict,
    }
}

/// Asks for a repair of an answer: the request as it was, and one more message
/// with the answer and what is wrong with it.
pub fn repair_fact_request(
    original: &StructuredChatRequest,
    invalid_response: &str,
    validation_json: &str,
) -> (r: StructuredChatRequest)
    ensures
        request_model(r) == (RequestModel {
            messages: request_model(*original).messages.push(
                (
                    "user"@,
                    json::rendered(
                        repair_tree(invalid_response@, listed_errors(validation_json@)),
                    ),
                ),
            ),
            ..request_model(*original)
        }),
{
    let errors = match parse_json(validation_json) {
        Ok(value) => value,
        Err(_) => {
            let object = JsonObject::new().with("code", json_text("invalid")).with(
                "message",
                json_text(validation_json),
            ).with("path", json_text("$"));
            assert(object.list() =~= seq![
                ("code"@, JsonTree::Text("invalid"@)),
                ("message"@, JsonTree::Text(validation_json@)),
                ("path"@, JsonTree::Text("$"@)),
            ]);
            one(object.finish())
        },
    };
    repair_with_errors(original, invalid_response, errors)
}

/// The shape of a text with a greatest length.
pub open spec fn text_shape(longest: u64) -> JsonTree {
    JsonTree::Object(
        seq![
            ("maxLength"@, json::number_tree(longest)),
            ("minLength"@, json::number_tree(1)),
            ("type"@, JsonTree::Text("string"@)),
        ],
    )
}

fn text_shape_json(longest: u64) -> (r: Json)
    ensures
        json::tree(r) == text_shape(longest),
{
    let object = JsonObject::new().with("maxLength", json_number(longest)).with(
        "minLength",
        json_number(1),
    ).with("type", json_text("string"));
    assert(object.list() =~= text_shape(longest)->Object_0);
    object.finish()
}

/// The shape of an offset.
pub open spec fn offset_shape() -> JsonTree {
    JsonTree::Object(
        seq![("minimum"@, json::number_tree(0)), ("type"@, JsonTree::Text("integer"@))],
    )
}

fn offset_shape_json() -> (r: Json)
    ensures
        json::tree(r) == offset_shape(),
{
    let object = JsonObject::new().with("minimum", json_number(0)).with(
        "type",
        json_text("integer"),
    );
    assert(object.list() =~= offset_shape()->Object_0);
    object.finish()
}

/// The parts that a quote must have.
pub open spec fn quote_names() -> JsonTree {
    JsonTree::Array(
        json::text_trees(seq!["clause_id"@, "event_id"@, "start_char"@, "end_char"@, "text"@]),
    )
}

pub open spec fn quote_parts() -> JsonTree {
    JsonTree::Object(
        seq![
            ("clause_id"@, text_shape(96)),
            ("end_char"@, offset_shape()),
            ("event_id"@, text_shape(128)),
            ("start_char"@, offset_shape()),
            ("text"@, text_shape(4096)),
        ],
    )
}

/// The shape of a quote.
pub open spec fn quote_shape() -> JsonTree {
    JsonTree::Object(
        seq![
            ("additionalProperties"@, JsonTree::Bool(false)),
            ("properties"@, quote_parts()),
            ("required"@, quote_names()),
            ("type"@, JsonTree::Text("object"@)),
        ],
    )
}

fn quote_shape_json() -> (r: Json)
    ensures
        json::tree(r) == quote_shape(),
{
    let parts = JsonObject::new().with("clause_id", text_shape_json(96)).with(
        "end_char",
        offset_shape_json(),
    ).with("event_id", text_shape_json(128)).with("start_char", offset_shape_json()).with(
        "text",
        text_shape_json(4096),
    );
    assert(parts.list() =~= quote_parts()->Object_0);
    let names: Vec<&str> = vec!["clause_id", "event_id", "start_char", "end_char", "text"];
    assert(json::strs(names@) =~= seq![
        "clause_id"@,
        "event_id"@,
        "start_char"@,
        "end_char"@,
        "text"@,
    ]);
    let object = JsonObject::new().with("additionalProperties", Json::Bool(false)).with(
        "properties",
        parts.finish(),
    ).with("required", json_strs(&names)).with("type", json_text("object"));
    assert(object.list() =~= quote_shape()->Object_0);
    object.finish()
}

/// An object with a single text.
pub open spec fn single(name: Seq<char>, value: Seq<char>) -> JsonTree {
    JsonTree::Object(seq![(name, JsonTree::Text(value))])
}

fn single_json(name: &str, value: &str) -> (r: Json)
    ensures
        json::tree(r) == single(name@, value@),
{
    let object = JsonObject::new().with(name, json_text(value));
    assert(object.list() =~= seq![(name@, JsonTree::Text(value@))]);
    object.finish()
}

/// The shape of the evidence for a boundary.
pub open spec fn boundary_evidence_shape() -> JsonTree {
    JsonTree::Object(
        seq![
            ("items"@, quote_shape()),
            ("maxItems"@, json::number_tree(4)),
            ("type"@, JsonTree::Text("array"@)),
        ],
    )
}

pub open spec fn reason_shape() -> JsonTree {
    JsonTree::Object(
        seq![
            (
                "enum"@,
                JsonTree::Array(json::text_trees(seq!["model_topic_shift"@, "model_same_topic"@])),
            ),
        ],
    )
}

pub open spec fn boundary_parts() -> JsonTree {
    JsonTree::Object(
        seq![
            ("before_event_id"@, text_shape(128)),
            ("evidence"@, boundary_evidence_shape()),
            ("is_boundary"@, single("type"@, "boolean"@)),
            ("reason"@, reason_shape()),
        ],
    )
}

/// The shape of an answer about a boundary.
pub open spec fn boundary_shape() -> JsonTree {
    JsonTree::Object(
        seq![
            ("additionalProperties"@, JsonTree::Bool(false)),
            ("properties"@, boundary_parts()),
            (
                "required"@,
                JsonTree::Array(
                    json::text_trees(
                        seq!["before_event_id"@, "is_boundary"@, "reason"@, "evidence"@],
                    ),
                ),
            ),
            ("type"@, JsonTree::Text("object"@)),
        ],
    )
}

/// The shape of an answer about a boundary.
pub fn boundary_schema() -> (r: Json)
    ensures
        json::tree(r) == boundary_shape(),
{
    let evidence = JsonObject::new().with("items", quote_shape_json()).with(
        "maxItems",
        json_number(4),
    ).with("type", json_text("array"));
    assert(evidence.list() =~= boundary_evidence_shape()->Object_0);
    let reasons: Vec<&str> = vec!["model_topic_shift", "model_same_topic"];
    assert(json::strs(reasons@) =~= seq!["model_topic_shift"@, "model_same_topic"@]);
    let reason = JsonObject::new().with("enum", json_strs(&reasons));
    assert(reason.list() =~= reason_shape()->Object_0);
    let parts = JsonObject::new().with("before_event_id", text_shape_json(128)).with(
        "evidence",
        evidence.finish(),
    ).with("is_boundary", single_json("type", "boolean")).with("reason", reason.finish());
    assert(parts.list() =~= boundary_parts()->Object_0);
    let names: Vec<&str> = vec!["before_event_id", "is_boundary", "reason", "evidence"];
    assert(json::strs(names@) =~= seq![
        "before_event_id"@,
        "is_boundary"@,
        "reason"@,
        "evidence"@,
    ]);
    let object = JsonObject::new().with("additionalProperties", Json::Bool(false)).with(
        "properties",
        parts.finish(),
    ).with("required", json_strs(&names)).with("type", json_text("object"));
    assert(object.list() =~= boundary_shape()->Object_0);
    object.finish()
}

/// A quote or nothing.
pub open spec fn quote_or_null() -> JsonTree {
    JsonTree::Object(
        seq![
            (
                "anyOf"@,
                JsonTree::Array(
                    seq![single("$ref"@, "#/$defs/quote"@), single("type"@, "null"@)],
                ),
            ),
        ],
    )
}

fn quote_or_null_json() -> (r: Json)
    ensures
        json::tree(r) == quote_or_null(),
{
    let mut v: Vec<Json> = Vec::new();
    v.push(single_json("$ref", "#/$defs/quote"));
    v.push(single_json("type", "null"));
    proof {
        json::trees_index(v@, 2);
        assert(json::trees(v@, 2) =~= seq![
            single("$ref"@, "#/$defs/quote"@),
            single("type"@, "null"@),
        ]);
    }
    let object = JsonObject::new().with("anyOf", Json::Array(v));
    assert(object.list() =~= quote_or_null()->Object_0);
    object.finish()
}

/// The shape of the name of a context.
pub open spec fn context_shape() -> JsonTree {
    JsonTree::Object(
        seq![
            ("maxLength"@, json::number_tree(96)),
            ("type"@, JsonTree::Array(json::text_trees(seq!["string"@, "null"@]))),
        ],
    )
}

fn context_shape_json() -> (r: Json)
    ensures
        json::tree(r) == context_shape(),
{
    let kinds: Vec<&str> = vec!["string", "null"];
    assert(json::strs(kinds@) =~= seq!["string"@, "null"@]);
    let object = JsonObject::new().with("maxLength", json_number(96)).with(
        "type",
        json_strs(&kinds),
    );
    assert(object.list() =~= context_shape()->Object_0);
    object.finish()
}

/// The parts of a piece of evidence, with those that facts need.
pub open spec fn evidence_parts(v: Seq<(Seq<char>, JsonTree)>) -> Seq<(Seq<char>, JsonTree)> {
    let a = json::put_member(v, "subject_span"@, quote_or_null());
    let b = json::put_member(a, "relation_span"@, quote_or_null());
    let c = json::put_member(b, "object_span"@, quote_or_null());
    json::put_member(c, "context_id"@, context_shape())
}

pub open spec fn evidence_names() -> JsonTree {
    JsonTree::Array(
        json::text_trees(
            seq![
                "kind"@,
                "quote"@,
                "subject_span"@,
                "relation_span"@,
                "object_span"@,
                "speech_act_span"@,
                "context_id"@,
            ],
        ),
    )
}

/// The shape of evidence, with what facts need.
pub open spec fn evidence_shape(t: JsonTree) -> JsonTree {
    match t {
        JsonTree::Object(v) => {
            let named = json::put_member(v, "required"@, evidence_names());
            match json::member(JsonTree::Object(named), "properties"@) {
                Some(JsonTree::Object(parts)) => JsonTree::Object(
                    json::put_member(
                        named,
                        "properties"@,
                        JsonTree::Object(evidence_parts(parts)),
                    ),
                ),
                _ => JsonTree::Object(named),
            }
        },
        _ => t,
    }
}

/// The definitions of a shape, with what facts need.
pub open spec fn fact_defs(v: Seq<(Seq<char>, JsonTree)>) -> Seq<(Seq<char>, JsonTree)> {
    let quoted = json::put_member(v, "quote"@, quote_shape());
    match json::member(JsonTree::Object(quoted), "evidence"@) {
        Some(t) => json::put_member(quoted, "evidence"@, evidence_shape(t)),
        None => quoted,
    }
}

/// A shape that has its parts and its definitions.
pub open spec fn has_sections(t: JsonTree) -> bool {
    &&& t is Object
    &&& json::member(t, "properties"@) matches Some(JsonTree::Object(_))
    &&& json::member(t, "$defs"@) matches Some(JsonTree::Object(_))
}

/// The shape of an answer with facts, made from that of a whole consolidation:
/// without boundaries, and with quotes in place of digests.
pub open spec fn fact_shape(t: JsonTree) -> JsonTree {
    let v = t->Object_0;
    let parts = json::member(t, "properties"@)->0->Object_0;
    let defs = json::member(t, "$defs"@)->0->Object_0;
    let named = json::put_member(
        v,
        "required"@,
        JsonTree::Array(json::text_trees(seq!["entities"@, "claims"@])),
    );
    let trimmed = json::put_member(
        named,
        "properties"@,
        JsonTree::Object(json::drop_member(parts, "boundaries"@)),
    );
    JsonTree::Object(json::put_member(trimmed, "$defs"@, JsonTree::Object(fact_defs(defs))))
}

fn copy_members(v: &Vec<(String, Json)>) -> (r: Vec<(String, Json)>)
    ensures
        json::members(r@, r@.len() as int) == json::members(v@, v@.len() as int),
{
    let mut out: Vec<(String, Json)> = Vec::new();
    let mut i: usize = 0;
    while i < v.len()
        invariant
            i <= v@.len(),
            out@.len() == i,
            forall|k: int|
                0 <= k < i ==> (#[trigger] out@[k]).0@ == v@[k].0@ && json::tree(out@[k].1)
                    == json::tree(v@[k].1),
        decreases v.len() - i,
    {
        out.push((v[i].0.clone(), copy_json(&v[i].1)));
        i += 1;
    }
    proof {
        json::members_index(v@, v@.len() as int);
        json::members_index(out@, out@.len() as int);
        assert(json::members(out@, out@.len() as int) =~= json::members(v@, v@.len() as int));
    }
    out
}

fn evidence_shape_json(j: &Json) -> (r: Json)
    ensures
        json::tree(r) == evidence_shape(json::tree(*j)),
{
    match j {
        Json::Object(v) => {
            let mut v = copy_members(v);
            let names: Vec<&str> = vec![
                "kind",
                "quote",
                "subject_span",
                "relation_span",
                "object_span",
                "speech_act_span",
                "context_id",
            ];
            assert(json::strs(names@) =~= seq![
                "kind"@,
                "quote"@,
                "subject_span"@,
                "relation_span"@,
                "object_span"@,
                "speech_act_span"@,
                "context_id"@,
            ]);
            set_member(&mut v, "required", json_strs(&names));
            let found = match find_member(&v, "properties") {
                Some(p) => match &v[p].1 {
                    Json::Object(parts) => Some(copy_members(parts)),
                    _ => None,
                },
                None => None,
            };
            match found {
                Some(parts) => {
                    let mut parts = parts;
                    set_member(&mut parts, "subject_span", quote_or_null_json());
                    set_member(&mut parts, "relation_span", quote_or_null_json());
                    set_member(&mut parts, "object_span", quote_or_null_json());
                    set_member(&mut parts, "context_id", context_shape_json());
                    set_member(&mut v, "properties", Json::Object(parts));
                },
                None => {},
            }
            Json::Object(v)
        },
        _ => copy_json(j),
    }
}

/// The shape of an answer with facts.
pub fn fact_schema(whole: &Json) -> (r: Json)
    requires
        has_sections(json::tree(*whole)),
    ensures
        json::tree(r) == fact_shape(json::tree(*whole)),
{
    let (v, parts, defs) = match (whole, whole.get("properties"), whole.get("$defs")) {
        (Json::Object(v), Some(Json::Object(parts)), Some(Json::Object(defs))) => (
            copy_members(v),
            copy_members(parts),
            copy_members(defs),
        ),
        _ => {
            assert(false);
            return Json::Null;
        },
    };
    let mut v = v;
    let mut parts = parts;
    let mut defs = defs;
    let names: Vec<&str> = vec!["entities", "claims"];
    assert(json::strs(names@) =~= seq!["entities"@, "claims"@]);
    set_member(&mut v, "required", json_strs(&names));
    remove_member(&mut parts, "boundaries");
    set_member(&mut v, "properties", Json::Object(parts));
    set_member(&mut defs, "quote", quote_shape_json());
    let evidence = match find_member(&defs, "evidence") {
        Some(p) => Some(evidence_shape_json(&defs[p].1)),
        None => None,
    };
    match evidence {
        Some(shape) => {
            set_member(&mut defs, "evidence", shape);
        },
        None => {},
    }
    set_member(&mut v, "$defs", Json::Object(defs));
    Json::Object(v)
}

} // verus!
