//! The questions of LoCoMo.

use vstd::prelude::*;
use vstd::string::*;

use crate::corpus::{
    self, copy_sessions, distinct, scalar, CaseModel, EvalCase, EvalEvidenceRef, EvalMessage,
    EvalSession, EvidenceModel, MessageModel, SessionModel,
};
use crate::json::{self, copy_json, json_number, json_text, Json, JsonObject, JsonTree};
use crate::model::EventRole;
use crate::moment::{self, time};
use crate::number::{self, number_fault, parse_number};
use crate::order::{self, stable_order, KeyPart, PartModel};
use crate::score::EvalQuestionClass;
use crate::text::{
    self, contains_text, is_blank, push_decimal, starts_with, string_of, text_eq,
};

verus! {

/// A conversation of LoCoMo, and what is asked about it.
#[derive(Debug)]
pub struct LocomoSample {
    pub sample_id: Json,
    pub conversation: Json,
    pub qa: Vec<LocomoQuestion>,
}

#[derive(Debug)]
pub struct LocomoQuestion {
    pub question: String,
    pub answer: Option<Json>,
    pub category: Json,
    pub evidence: Vec<Json>,
    pub adversarial_answer: Option<Json>,
}

pub const LOCOMO_DATE: &'static str = "%I:%M %p on %d %B, %Y";

/// A member of an object that is a text.
pub open spec fn text_member(t: JsonTree, name: Seq<char>) -> Option<Seq<char>> {
    match json::member(t, name) {
        Some(JsonTree::Text(s)) => Some(s),
        _ => None,
    }
}

fn get_text<'a>(j: &'a Json, name: &str) -> (r: Option<&'a str>)
    ensures
        match r {
            Some(s) => text_member(json::tree(*j), name@) == Some(s@),
            None => text_member(json::tree(*j), name@) is None,
        },
{
    match j.get(name) {
        Some(value) => value.as_text(),
        None => None,
    }
}

/// The two who speak, or what is wrong with them.
pub open spec fn speakers(conversation: JsonTree) -> Result<(Seq<char>, Seq<char>), Seq<char>> {
    match text_member(conversation, "speaker_a"@) {
        None => Err("LoCoMo speaker_a missing"@),
        Some(a) => match text_member(conversation, "speaker_b"@) {
            None => Err("LoCoMo speaker_b missing"@),
            Some(b) => if text::blank(a) || text::blank(b) || a == b {
                Err("LoCoMo speaker_a and speaker_b must be distinct and nonempty"@)
            } else {
                Ok((a, b))
            },
        },
    }
}

fn read_speakers<'a>(conversation: &'a Json) -> (r: Result<(&'a str, &'a str), String>)
    ensures
        match r {
            Ok((a, b)) => speakers(json::tree(*conversation)) == Ok::<
                (Seq<char>, Seq<char>),
                Seq<char>,
            >((a@, b@)),
            Err(e) => speakers(json::tree(*conversation)) == Err::<
                (Seq<char>, Seq<char>),
                Seq<char>,
            >(e@),
        },
{
    let a = match get_text(conversation, "speaker_a") {
        Some(a) => a,
        None => return Err("LoCoMo speaker_a missing".to_owned()),
    };
    let b = match get_text(conversation, "speaker_b") {
        Some(b) => b,
        None => return Err("LoCoMo speaker_b missing".to_owned()),
    };
    if is_blank(a) || is_blank(b) || text_eq(a, b) {
        return Err("LoCoMo speaker_a and speaker_b must be distinct and nonempty".to_owned());
    }
    Ok((a, b))
}

/// The number of a session, by its name.
pub open spec fn session_number(name: Seq<char>) -> Option<nat> {
    if text::has_prefix(name, "session_"@) {
        match number::number_of(
            name.subrange("session_"@.len() as int, name.len() as int),
            usize::MAX as nat,
        ) {
            Ok(n) => Some(n),
            Err(_) => None,
        }
    } else {
        None
    }
}

fn number_session(name: &str) -> (r: Option<u64>)
    ensures
        match r {
            Some(n) => session_number(name@) == Some(n as nat),
            None => session_number(name@) is None,
        },
{
    if !starts_with(name, "session_") {
        return None;
    }
    let chars = text::chars_of(name);
    let skip = "session_".unicode_len();
    let rest = string_of(&chars, skip, chars.len());
    match parse_number(rest.as_str(), usize::MAX as u64) {
        Ok(n) => Some(n),
        Err(_) => None,
    }
}

/// The members of an object.
pub open spec fn entries(t: JsonTree) -> Seq<(Seq<char>, JsonTree)> {
    match t {
        JsonTree::Object(v) => v,
        _ => Seq::empty(),
    }
}

/// The sessions among the first `n` members, each by its number and its place,
/// or what is wrong with one.
pub open spec fn session_places(v: Seq<(Seq<char>, JsonTree)>, n: int) -> Result<
    Seq<(u64, int)>,
    Seq<char>,
>
    decreases n,
{
    if n <= 0 {
        Ok(Seq::empty())
    } else {
        match session_places(v, n - 1) {
            Err(e) => Err(e),
            Ok(rest) => match session_number(v[n - 1].0) {
                None => Ok(rest),
                Some(number) => match v[n - 1].1 {
                    JsonTree::Array(items) => if items.len() == 0 {
                        Err(v[n - 1].0 + " must not be empty"@)
                    } else {
                        Ok(rest.push((number as u64, n - 1)))
                    },
                    _ => Err(v[n - 1].0 + " must be an array"@),
                },
            },
        }
    }
}

proof fn session_places_stop(v: Seq<(Seq<char>, JsonTree)>, k: int, n: int)
    requires
        k <= n,
        session_places(v, k) is Err,
    ensures
        session_places(v, n) == session_places(v, k),
    decreases n - k,
{
    if k < n {
        session_places_stop(v, k, n - 1);
    }
}

/// Every place is that of a session.
proof fn session_places_hold(v: Seq<(Seq<char>, JsonTree)>, n: int)
    requires
        session_places(v, n) is Ok,
        0 <= n <= v.len(),
    ensures
        forall|i: int|
            0 <= i < session_places(v, n)->Ok_0.len() ==> 0 <= (#[trigger] session_places(
                v,
                n,
            )->Ok_0[i]).1 < n && v[session_places(v, n)->Ok_0[i].1].1 is Array,
    decreases n,
{
    if n > 0 {
        session_places_hold(v, n - 1);
    }
}

pub open spec fn number_keys(v: Seq<(u64, int)>) -> Seq<Seq<PartModel>> {
    Seq::new(v.len(), |i: int| seq![PartModel::Up(v[i].0)])
}

/// The places of the sessions of a conversation, in the order of their numbers.
pub open spec fn session_order(v: Seq<(Seq<char>, JsonTree)>) -> Result<Seq<int>, Seq<char>> {
    match session_places(v, v.len() as int) {
        Err(e) => Err(e),
        Ok(places) => {
            let order = order::ordered(number_keys(places), places.len() as int);
            Ok(Seq::new(order.len(), |i: int| places[order[i]].1))
        },
    }
}

fn order_sessions(v: &Vec<(String, Json)>) -> (r: Result<Vec<usize>, String>)
    ensures
        match r {
            Ok(places) => session_order(json::members(v@, v@.len() as int)) == Ok::<
                Seq<int>,
                Seq<char>,
            >(order::indices(places@)) && forall|i: int|
                0 <= i < places@.len() ==> #[trigger] places@[i] < v@.len()
                    && v@[places@[i] as int].1 is Array,
            Err(e) => session_order(json::members(v@, v@.len() as int)) == Err::<
                Seq<int>,
                Seq<char>,
            >(e@),
        },
{
    let ghost all = json::members(v@, v@.len() as int);
    proof {
        json::members_index(v@, v@.len() as int);
    }
    let mut found: Vec<usize> = Vec::new();
    let mut keys: Vec<Vec<KeyPart>> = Vec::new();
    let ghost mut model: Seq<(u64, int)> = Seq::empty();
    let mut i: usize = 0;
    while i < v.len()
        invariant
            i <= v@.len(),
            all == json::members(v@, v@.len() as int),
            all.len() == v@.len(),
            forall|k: int|
                0 <= k < all.len() ==> #[trigger] all[k] == (v@[k].0@, json::tree(v@[k].1)),
            session_places(all, i as int) == Ok::<Seq<(u64, int)>, Seq<char>>(model),
            found@.len() == model.len(),
            keys@.len() == model.len(),
            forall|k: int|
                0 <= k < model.len() ==> #[trigger] model[k] == (model[k].0, found@[k] as int),
            forall|k: int|
                0 <= k < model.len() ==> order::key_model(#[trigger] keys@[k]@) == seq![
                    PartModel::Up(model[k].0),
                ],
            forall|k: int|
                0 <= k < found@.len() ==> #[trigger] found@[k] < v@.len()
                    && v@[found@[k] as int].1 is Array,
        decreases v.len() - i,
    {
        assert(all[i as int] == (v@[i as int].0@, json::tree(v@[i as int].1)));
        let name = v[i].0.as_str();
        if let Some(number) = number_session(name) {
            match &v[i].1 {
                Json::Array(items) => {
                    proof {
                        json::trees_index(items@, items@.len() as int);
                    }
                    if items.len() == 0 {
                        let mut e = name.to_owned();
                        e.append(" must not be empty");
                        proof {
                            session_places_stop(all, i + 1, all.len() as int);
                        }
                        return Err(e);
                    }
                },
                _ => {
                    let mut e = name.to_owned();
                    e.append(" must be an array");
                    proof {
                        session_places_stop(all, i + 1, all.len() as int);
                    }
                    return Err(e);
                },
            }
            let mut key: Vec<KeyPart> = Vec::new();
            key.push(KeyPart::Up(number));
            assert(order::key_model(key@) =~= seq![PartModel::Up(number)]);
            keys.push(key);
            found.push(i);
            proof {
                model = model.push((number, i as int));
            }
        }
        i += 1;
    }
    assert(order::key_models(keys@) =~= number_keys(model));
    let sorted = stable_order(&keys);
    let ghost want = order::ordered(number_keys(model), model.len() as int);
    let mut out: Vec<usize> = Vec::new();
    let mut k: usize = 0;
    while k < sorted.len()
        invariant
            k <= sorted@.len(),
            sorted@.len() == found@.len(),
            forall|q: int| 0 <= q < sorted@.len() ==> #[trigger] sorted@[q] < found@.len(),
            out@.len() == k,
            forall|q: int| 0 <= q < k ==> #[trigger] out@[q] == found@[sorted@[q] as int],
        decreases sorted.len() - k,
    {
        out.push(found[sorted[k]]);
        k += 1;
    }
    proof {
        assert(order::indices(sorted@) == want);
        assert(want.len() == sorted@.len());
        let places = Seq::new(want.len(), |i: int| model[want[i]].1);
        assert forall|q: int| 0 <= q < places.len() implies places[q] == out@[q] as int by {
            assert(want[q] == order::indices(sorted@)[q]);
            assert(model[want[q]] == (model[want[q]].0, found@[want[q]] as int));
        }
        assert(order::indices(out@) =~= places);
    }
    Ok(out)
}

/// What was said, with the caption of a picture that was shown.
pub open spec fn utterance_text(speaker: Seq<char>, said: Seq<char>, u: JsonTree) -> Seq<char> {
    let plain = speaker + ": "@ + said;
    match text_member(u, "blip_caption"@) {
        Some(caption) => if text::blank(caption) {
            plain
        } else {
            plain + "\nOfficial dataset image caption: "@ + caption
        },
        None => plain,
    }
}

/// One thing that was said, after `previous` spoke; `known` are the ids so far.
pub open spec fn utterance(
    pair: (Seq<char>, Seq<char>),
    key: Seq<char>,
    u: JsonTree,
    previous: Option<Seq<char>>,
    known: Seq<Seq<char>>,
) -> Result<MessageModel, Seq<char>> {
    if !(u is Object) {
        Err("utterance object required"@)
    } else {
        match text_member(u, "speaker"@) {
            None => Err("speaker missing"@),
            Some(speaker) => if speaker != pair.0 && speaker != pair.1 {
                Err("utterance speaker must equal speaker_a or speaker_b"@)
            } else if previous == Some(speaker) {
                Err("speakers must alternate"@)
            } else {
                match (text_member(u, "text"@), json::member(u, "dia_id"@)) {
                    (None, _) => Err("text missing"@),
                    (_, None) => Err("dia_id missing"@),
                    (Some(said), Some(dia)) => match corpus::scalar_text(dia) {
                        None => Err(corpus::not_scalar("dia_id"@)),
                        Some(id) => if text::blank(id) || known.contains(id) {
                            Err("dia_id must be nonempty and unique"@)
                        } else {
                            Ok(
                                MessageModel {
                                    role: if speaker == pair.0 {
                                        EventRole::User
                                    } else {
                                        EventRole::Assistant
                                    },
                                    speaker,
                                    content: utterance_text(speaker, said, u),
                                    evidence: EvidenceModel {
                                        external_id: id,
                                        source_session_id: key,
                                        has_answer: None,
                                    },
                                },
                            )
                        },
                    },
                }
            },
        }
    }
}

fn read_utterance(
    a: &str,
    b: &str,
    key: &str,
    u: &Json,
    previous: Option<&str>,
    known: &Vec<String>,
) -> (r: Result<EvalMessage, String>)
    ensures
        ({
            let want = utterance(
                (a@, b@),
                key@,
                json::tree(*u),
                crate::model::opt_str(previous),
                text::texts(known@),
            );
            match r {
                Ok(m) => want == Ok::<MessageModel, Seq<char>>(corpus::message_model(m)),
                Err(e) => want == Err::<MessageModel, Seq<char>>(e@),
            }
        }),
{
    match u {
        Json::Object(_) => {},
        _ => return Err("utterance object required".to_owned()),
    }
    let speaker = match get_text(u, "speaker") {
        Some(speaker) => speaker,
        None => return Err("speaker missing".to_owned()),
    };
    if !text_eq(speaker, a) && !text_eq(speaker, b) {
        return Err("utterance speaker must equal speaker_a or speaker_b".to_owned());
    }
    if let Some(last) = previous {
        if text_eq(last, speaker) {
            return Err("speakers must alternate".to_owned());
        }
    }
    let said = match get_text(u, "text") {
        Some(said) => said,
        None => return Err("text missing".to_owned()),
    };
    let mut content = speaker.to_owned();
    content.append(": ");
    content.append(said);
    if let Some(caption) = get_text(u, "blip_caption") {
        if !is_blank(caption) {
            content.append("\nOfficial dataset image caption: ");
            content.append(caption);
        }
    }
    let dia = match u.get("dia_id") {
        Some(dia) => dia,
        None => return Err("dia_id missing".to_owned()),
    };
    let id = match scalar(dia, "dia_id") {
        Ok(id) => id,
        Err(e) => return Err(e),
    };
    if is_blank(id.as_str()) || contains_text(known, id.as_str()) {
        return Err("dia_id must be nonempty and unique".to_owned());
    }
    let role = if text_eq(speaker, a) {
        EventRole::User
    } else {
        EventRole::Assistant
    };
    Ok(
        EvalMessage {
            role,
            speaker: speaker.to_owned(),
            content,
            evidence: EvalEvidenceRef {
                external_id: id,
                source_session_id: key.to_owned(),
                has_answer: None,
            },
        },
    )
}

pub open spec fn message_ids(v: Seq<MessageModel>) -> Seq<Seq<char>> {
    Seq::new(v.len(), |i: int| v[i].evidence.external_id)
}

pub open spec fn last_speaker(v: Seq<MessageModel>) -> Option<Seq<char>> {
    if v.len() == 0 {
        None
    } else {
        Some(v.last().speaker)
    }
}

/// The first `n` things that were said in a session; `known` are the ids of
/// earlier sessions.
pub open spec fn utterances(
    pair: (Seq<char>, Seq<char>),
    key: Seq<char>,
    v: Seq<JsonTree>,
    known: Seq<Seq<char>>,
    n: int,
) -> Result<Seq<MessageModel>, Seq<char>>
    decreases n,
{
    if n <= 0 {
        Ok(Seq::empty())
    } else {
        match utterances(pair, key, v, known, n - 1) {
            Err(e) => Err(e),
            Ok(rest) => match utterance(
                pair,
                key,
                v[n - 1],
                last_speaker(rest),
                known + message_ids(rest),
            ) {
                Err(e) => Err(e),
                Ok(m) => Ok(rest.push(m)),
            },
        }
    }
}

proof fn utterances_stop(
    pair: (Seq<char>, Seq<char>),
    key: Seq<char>,
    v: Seq<JsonTree>,
    known: Seq<Seq<char>>,
    k: int,
    n: int,
)
    requires
        k <= n,
        utterances(pair, key, v, known, k) is Err,
    ensures
        utterances(pair, key, v, known, n) == utterances(pair, key, v, known, k),
    decreases n - k,
{
    if k < n {
        utterances_stop(pair, key, v, known, k, n - 1);
    }
}

/// A session whose time has been read.
pub open spec fn locomo_session(
    pair: (Seq<char>, Seq<char>),
    key: Seq<char>,
    items: Seq<JsonTree>,
    known: Seq<Seq<char>>,
    occurred: Result<Seq<char>, Seq<char>>,
) -> Result<SessionModel, Seq<char>> {
    match occurred {
        Err(e) => Err(e),
        Ok(occurred_at) => match utterances(pair, key, items, known, items.len() as int) {
            Err(e) => Err(e),
            Ok(messages) => Ok(SessionModel { external_id: key, occurred_at, messages }),
        },
    }
}

/// Makes a session, once its time has been read; its ids join the known ones.
pub fn build_locomo_session(
    speaker_a: &str,
    speaker_b: &str,
    key: &str,
    items: &Vec<Json>,
    known: &mut Vec<String>,
    occurred: Result<String, String>,
) -> (r: Result<EvalSession, String>)
    ensures
        forall|want: Result<Seq<char>, Seq<char>>| #[trigger]
            moment::moment_is(occurred, want) ==> ({
                let session = locomo_session(
                    (speaker_a@, speaker_b@),
                    key@,
                    json::trees(items@, items@.len() as int),
                    text::texts(old(known)@),
                    want,
                );
                match r {
                    Ok(s) => session == Ok::<SessionModel, Seq<char>>(corpus::session_model(s))
                        && text::texts(final(known)@) == text::texts(old(known)@) + message_ids(
                        corpus::session_model(s).messages,
                    ),
                    Err(e) => session == Err::<SessionModel, Seq<char>>(e@),
                }
            }),
{
    let occurred_at = match occurred {
        Ok(occurred_at) => occurred_at,
        Err(e) => return Err(e),
    };
    let ghost pair = (speaker_a@, speaker_b@);
    let ghost all = json::trees(items@, items@.len() as int);
    let ghost start = text::texts(known@);
    proof {
        json::trees_index(items@, items@.len() as int);
    }
    let mut messages: Vec<EvalMessage> = Vec::new();
    let mut i: usize = 0;
    assert(corpus::message_models(messages@) =~= Seq::empty());
    assert(start + message_ids(corpus::message_models(messages@)) =~= start);
    while i < items.len()
        invariant
            i <= items@.len(),
            pair == (speaker_a@, speaker_b@),
            start == text::texts(old(known)@),
            occurred == Ok::<String, String>(occurred_at),
            all == json::trees(items@, items@.len() as int),
            all.len() == items@.len(),
            forall|k: int| 0 <= k < all.len() ==> #[trigger] all[k] == json::tree(items@[k]),
            utterances(pair, key@, all, start, i as int) == Ok::<Seq<MessageModel>, Seq<char>>(
                corpus::message_models(messages@),
            ),
            text::texts(known@) == start + message_ids(corpus::message_models(messages@)),
        decreases items.len() - i,
    {
        let ghost before = corpus::message_models(messages@);
        let ghost ids = text::texts(known@);
        let message = {
            let previous: Option<&str> = if messages.len() == 0 {
                None
            } else {
                Some(messages[messages.len() - 1].speaker.as_str())
            };
            assert(crate::model::opt_str(previous) == last_speaker(before));
            assert(all[i as int] == json::tree(items@[i as int]));
            match read_utterance(speaker_a, speaker_b, key, &items[i], previous, known) {
                Ok(message) => message,
                Err(e) => {
                    proof {
                        utterances_stop(pair, key@, all, start, i + 1, all.len() as int);
                    }
                    return Err(e);
                },
            }
        };
        let id = message.evidence.external_id.clone();
        known.push(id);
        messages.push(message);
        proof {
            let after = corpus::message_models(messages@);
            assert(after =~= before.push(corpus::message_model(message)));
            assert(text::texts(known@) =~= ids.push(id@));
            assert(message_ids(after) =~= message_ids(before).push(id@));
            assert(ids.push(id@) =~= start + message_ids(after));
        }
        i += 1;
    }
    Ok(EvalSession { external_id: key.to_owned(), occurred_at, messages })
}

/// The ids of the messages of the first `n` sessions.
pub open spec fn known_ids(v: Seq<SessionModel>, n: int) -> Seq<Seq<char>>
    decreases n,
{
    if n <= 0 {
        Seq::empty()
    } else {
        known_ids(v, n - 1) + message_ids(v[n - 1].messages)
    }
}

proof fn known_ids_prefix(v: Seq<SessionModel>, w: Seq<SessionModel>, n: int)
    requires
        0 <= n <= v.len(),
        n <= w.len(),
        forall|i: int| 0 <= i < n ==> v[i] == w[i],
    ensures
        known_ids(v, n) == known_ids(w, n),
    decreases n,
{
    if n > 0 {
        known_ids_prefix(v, w, n - 1);
    }
}

/// The elements of an array.
pub open spec fn elements(t: JsonTree) -> Seq<JsonTree> {
    match t {
        JsonTree::Array(v) => v,
        _ => Seq::empty(),
    }
}

/// When a session took place, or why that is unknown.
pub open spec fn session_time(conversation: JsonTree, key: Seq<char>) -> Result<
    Seq<char>,
    Seq<char>,
> {
    match text_member(conversation, key + "_date_time"@) {
        None => Err("session date missing"@),
        Some(date) => moment::read_moment(date, LOCOMO_DATE@),
    }
}

/// The first `n` sessions in the order of `places`, or what is wrong with one.
pub open spec fn locomo_sessions(
    conversation: JsonTree,
    pair: (Seq<char>, Seq<char>),
    places: Seq<int>,
    n: int,
) -> Result<Seq<SessionModel>, Seq<char>>
    decreases n,
{
    if n <= 0 {
        Ok(Seq::empty())
    } else {
        match locomo_sessions(conversation, pair, places, n - 1) {
            Err(e) => Err(e),
            Ok(rest) => {
                let (key, value) = entries(conversation)[places[n - 1]];
                match locomo_session(
                    pair,
                    key,
                    elements(value),
                    known_ids(rest, rest.len() as int),
                    session_time(conversation, key),
                ) {
                    Err(e) => Err(e),
                    Ok(s) => Ok(rest.push(s)),
                }
            },
        }
    }
}

proof fn locomo_sessions_stop(
    conversation: JsonTree,
    pair: (Seq<char>, Seq<char>),
    places: Seq<int>,
    k: int,
    n: int,
)
    requires
        k <= n,
        locomo_sessions(conversation, pair, places, k) is Err,
    ensures
        locomo_sessions(conversation, pair, places, n) == locomo_sessions(
            conversation,
            pair,
            places,
            k,
        ),
    decreases n - k,
{
    if k < n {
        locomo_sessions_stop(conversation, pair, places, k, n - 1);
    }
}

fn read_session_time(conversation: &Json, key: &str) -> (r: Result<String, String>)
    ensures
        moment::moment_is(r, session_time(json::tree(*conversation), key@)),
{
    let mut name = key.to_owned();
    name.append("_date_time");
    match get_text(conversation, name.as_str()) {
        Some(date) => time(date, LOCOMO_DATE),
        None => Err("session date missing".to_owned()),
    }
}

/// All sessions of a conversation, or what is wrong.
pub open spec fn conversation_sessions(conversation: JsonTree) -> Result<
    Seq<SessionModel>,
    Seq<char>,
> {
    match speakers(conversation) {
        Err(e) => Err(e),
        Ok(pair) => match session_order(entries(conversation)) {
            Err(e) => Err(e),
            Ok(places) => match locomo_sessions(
                conversation,
                pair,
                places,
                places.len() as int,
            ) {
                Err(e) => Err(e),
                Ok(v) => if v.len() == 0 {
                    Err("no sessions"@)
                } else {
                    Ok(v)
                },
            },
        },
    }
}

fn build_sessions(conversation: &Json) -> (r: Result<(Vec<EvalSession>, Vec<String>), String>)
    ensures
        match r {
            Ok((v, known)) => conversation_sessions(json::tree(*conversation)) == Ok::<
                Seq<SessionModel>,
                Seq<char>,
            >(corpus::session_models(v@)) && text::texts(known@) == known_ids(
                corpus::session_models(v@),
                v@.len() as int,
            ) && v@.len() > 0,
            Err(e) => conversation_sessions(json::tree(*conversation)) == Err::<
                Seq<SessionModel>,
                Seq<char>,
            >(e@),
        },
{
    let ghost whole = json::tree(*conversation);
    let (a, b) = match read_speakers(conversation) {
        Ok(pair) => pair,
        Err(e) => return Err(e),
    };
    let ghost pair = (a@, b@);
    let list = match conversation {
        Json::Object(list) => list,
        _ => return Err("LoCoMo speaker_a missing".to_owned()),
    };
    let places = match order_sessions(list) {
        Ok(places) => places,
        Err(e) => return Err(e),
    };
    let ghost all = json::members(list@, list@.len() as int);
    let ghost order = order::indices(places@);
    proof {
        json::members_index(list@, list@.len() as int);
    }
    let mut known: Vec<String> = Vec::new();
    let mut out: Vec<EvalSession> = Vec::new();
    let mut i: usize = 0;
    assert(corpus::session_models(out@) =~= Seq::empty());
    assert(text::texts(known@) =~= Seq::empty());
    while i < places.len()
        invariant
            i <= places@.len(),
            whole == json::tree(*conversation),
            entries(whole) == all,
            speakers(whole) == Ok::<(Seq<char>, Seq<char>), Seq<char>>(pair),
            session_order(all) == Ok::<Seq<int>, Seq<char>>(order),
            pair == (a@, b@),
            order == order::indices(places@),
            all.len() == list@.len(),
            forall|k: int|
                0 <= k < all.len() ==> #[trigger] all[k] == (list@[k].0@, json::tree(list@[k].1)),
            forall|k: int|
                0 <= k < places@.len() ==> #[trigger] places@[k] < list@.len()
                    && list@[places@[k] as int].1 is Array,
            out@.len() == i,
            locomo_sessions(whole, pair, order, i as int) == Ok::<Seq<SessionModel>, Seq<char>>(
                corpus::session_models(out@),
            ),
            text::texts(known@) == known_ids(corpus::session_models(out@), i as int),
        decreases places.len() - i,
    {
        let p = places[i];
        assert(order[i as int] == p as int);
        assert(all[p as int] == (list@[p as int].0@, json::tree(list@[p as int].1)));
        let key = list[p].0.as_str();
        let items = match &list[p].1 {
            Json::Array(items) => items,
            _ => return Err(String::new()),
        };
        let occurred = read_session_time(conversation, key);
        assert(moment::moment_is(occurred, session_time(whole, key@)));
        let ghost before = corpus::session_models(out@);
        match build_locomo_session(a, b, key, items, &mut known, occurred) {
            Ok(s) => {
                out.push(s);
                proof {
                    let after = corpus::session_models(out@);
                    assert(after =~= before.push(corpus::session_model(s)));
                    known_ids_prefix(before, after, i as int);
                }
            },
            Err(e) => {
                proof {
                    locomo_sessions_stop(whole, pair, order, i + 1, order.len() as int);
                }
                return Err(e);
            },
        }
        i += 1;
    }
    if out.len() == 0 {
        return Err("no sessions".to_owned());
    }
    Ok((out, known))
}

pub open spec fn opt_tree(o: Option<Json>) -> Option<JsonTree> {
    match o {
        Some(j) => Some(json::tree(j)),
        None => None,
    }
}

/// The answer that is expected: the plain one, or else the adversarial one.
pub open spec fn locomo_answer(answer: Option<JsonTree>, adversarial: Option<JsonTree>) -> Result<
    Option<Seq<char>>,
    Seq<char>,
> {
    let plain = match answer {
        Some(t) => corpus::scalar_text(t),
        None => None,
    };
    if answer is Some && plain is None {
        Err(corpus::not_scalar("answer"@))
    } else if plain is Some && !text::blank(plain->0) {
        Ok(plain)
    } else {
        match adversarial {
            Some(t) => match corpus::scalar_text(t) {
                None => Err(corpus::not_scalar("adversarial_answer"@)),
                Some(s) => if text::blank(s) {
                    Err("adversarial_answer empty"@)
                } else {
                    Ok(Some(s))
                },
            },
            None => if answer is Some {
                Err("blank answer has no adversarial fallback"@)
            } else {
                Ok(None)
            },
        }
    }
}

/// Finds the answer that is expected.
pub fn find_locomo_answer(answer: &Option<Json>, adversarial: &Option<Json>) -> (r: Result<
    Option<String>,
    String,
>)
    ensures
        match r {
            Ok(a) => locomo_answer(opt_tree(*answer), opt_tree(*adversarial)) == Ok::<
                Option<Seq<char>>,
                Seq<char>,
            >(text::opt_text(a)),
            Err(e) => locomo_answer(opt_tree(*answer), opt_tree(*adversarial)) == Err::<
                Option<Seq<char>>,
                Seq<char>,
            >(e@),
        },
{
    if let Some(value) = answer {
        match scalar(value, "answer") {
            Ok(s) => {
                if !is_blank(s.as_str()) {
                    return Ok(Some(s));
                }
            },
            Err(e) => return Err(e),
        }
    }
    if let Some(value) = adversarial {
        return match scalar(value, "adversarial_answer") {
            Ok(s) => if is_blank(s.as_str()) {
                Err("adversarial_answer empty".to_owned())
            } else {
                Ok(Some(s))
            },
            Err(e) => Err(e),
        };
    }
    if answer.is_some() {
        return Err("blank answer has no adversarial fallback".to_owned());
    }
    Ok(None)
}

/// Whether evidence names a known message.
pub open spec fn names_known(t: JsonTree, known: Seq<Seq<char>>) -> bool {
    corpus::scalar_text(t) is Some && known.contains(corpus::scalar_text(t)->0)
}

/// The known messages that the first `n` pieces of evidence name.
pub open spec fn named(v: Seq<JsonTree>, known: Seq<Seq<char>>, n: int) -> Seq<Seq<char>>
    decreases n,
{
    if n <= 0 {
        Seq::empty()
    } else if names_known(v[n - 1], known) {
        named(v, known, n - 1).push(corpus::scalar_text(v[n - 1])->0)
    } else {
        named(v, known, n - 1)
    }
}

/// The first `n` pieces of evidence that name no known message.
pub open spec fn unnamed(v: Seq<JsonTree>, known: Seq<Seq<char>>, n: int) -> Seq<JsonTree>
    decreases n,
{
    if n <= 0 {
        Seq::empty()
    } else if names_known(v[n - 1], known) {
        unnamed(v, known, n - 1)
    } else {
        unnamed(v, known, n - 1).push(v[n - 1])
    }
}

/// Parts evidence into the messages that it names, sorted, and the rest.
pub fn resolve(raw: &Vec<Json>, known: &Vec<String>) -> (r: (Vec<String>, Vec<Json>))
    ensures
        ({
            let all = json::trees(raw@, raw@.len() as int);
            let ids = text::texts(known@);
            &&& text::texts(r.0@) == text::distinct_sorted(named(all, ids, all.len() as int))
            &&& json::trees(r.1@, r.1@.len() as int) == unnamed(all, ids, all.len() as int)
        }),
{
    let ghost all = json::trees(raw@, raw@.len() as int);
    let ghost ids = text::texts(known@);
    proof {
        json::trees_index(raw@, raw@.len() as int);
    }
    let mut good: Vec<String> = Vec::new();
    let mut bad: Vec<Json> = Vec::new();
    let mut i: usize = 0;
    assert(text::texts(good@) =~= Seq::empty());
    while i < raw.len()
        invariant
            i <= raw@.len(),
            all == json::trees(raw@, raw@.len() as int),
            all.len() == raw@.len(),
            ids == text::texts(known@),
            forall|k: int| 0 <= k < all.len() ==> #[trigger] all[k] == json::tree(raw@[k]),
            text::texts(good@) == named(all, ids, i as int),
            json::trees(bad@, bad@.len() as int) == unnamed(all, ids, i as int),
        decreases raw.len() - i,
    {
        assert(all[i as int] == json::tree(raw@[i as int]));
        let mut hit = false;
        if let Ok(s) = scalar(&raw[i], "evidence") {
            if contains_text(known, s.as_str()) {
                hit = true;
                let ghost before = text::texts(good@);
                good.push(s);
                assert(text::texts(good@) =~= before.push(s@));
            }
        }
        if !hit {
            let ghost before = bad@;
            let copy = copy_json(&raw[i]);
            bad.push(copy);
            proof {
                json::trees_prefix(before, bad@, before.len() as int);
            }
        }
        i += 1;
    }
    (distinct(&good), bad)
}

pub open spec fn locomo_class(category: nat, no_answer: bool) -> EvalQuestionClass {
    if category == 1 {
        EvalQuestionClass::ExactFact
    } else if category == 2 {
        EvalQuestionClass::Temporal
    } else if category == 3 {
        EvalQuestionClass::MultiHop
    } else if category == 4 {
        EvalQuestionClass::General
    } else if no_answer {
        EvalQuestionClass::NoAnswer
    } else {
        EvalQuestionClass::ExactFact
    }
}

pub open spec fn null_or(o: Option<JsonTree>) -> JsonTree {
    match o {
        Some(t) => t,
        None => JsonTree::Null,
    }
}

pub open spec fn locomo_metadata(
    sample: Seq<char>,
    index: int,
    category: nat,
    adversarial: Option<JsonTree>,
) -> JsonTree {
    JsonTree::Object(
        seq![
            ("adversarial_answer"@, null_or(adversarial)),
            ("category"@, json::number_tree(category as u64)),
            ("qa_index"@, json::number_tree(index as u64)),
            ("sample_id"@, JsonTree::Text(sample)),
        ],
    )
}

/// The category of a question, or what is wrong with it.
pub open spec fn category_of(t: JsonTree) -> Result<nat, Seq<char>> {
    match corpus::scalar_text(t) {
        None => Err(corpus::not_scalar("category"@)),
        Some(s) => match number::number_of(s, 255) {
            Err(f) => Err(number::number_fault_text(f)),
            Ok(n) => if 1 <= n <= 5 {
                Ok(n)
            } else {
                Err("invalid category"@)
            },
        },
    }
}

fn read_category(t: &Json) -> (r: Result<u64, String>)
    ensures
        match r {
            Ok(n) => category_of(json::tree(*t)) == Ok::<nat, Seq<char>>(n as nat) && 1 <= n <= 5,
            Err(e) => category_of(json::tree(*t)) == Err::<nat, Seq<char>>(e@),
        },
{
    let s = match scalar(t, "category") {
        Ok(s) => s,
        Err(e) => return Err(e),
    };
    match parse_number(s.as_str(), 255) {
        Ok(n) => if n >= 1 && n <= 5 {
            Ok(n)
        } else {
            Err("invalid category".to_owned())
        },
        Err(f) => Err(number_fault(f)),
    }
}

/// A question about a conversation, or what is wrong with it.
pub open spec fn locomo_case(
    sample: Seq<char>,
    sessions: Seq<SessionModel>,
    q: LocomoQuestion,
    index: int,
) -> Result<CaseModel, Seq<char>> {
    let evidence = json::trees(q.evidence@, q.evidence@.len() as int);
    let known = known_ids(sessions, sessions.len() as int);
    let gold = text::distinct_sorted(named(evidence, known, evidence.len() as int));
    match (
        category_of(json::tree(q.category)),
        locomo_answer(opt_tree(q.answer), opt_tree(q.adversarial_answer)),
    ) {
        (Err(e), _) => Err(e),
        (_, Err(e)) => Err(e),
        (Ok(category), Ok(answer)) => if category != 5 && answer is None {
            Err("categories 1-4 require an answer"@)
        } else {
            Ok(
                CaseModel {
                    id: sample + "-"@ + text::decimal(index as nat),
                    group_id: sample,
                    question: q.question@,
                    expected_answer: answer,
                    class: locomo_class(category, answer is None),
                    reference_time: sessions.last().occurred_at,
                    sessions,
                    gold: if answer is None {
                        Seq::empty()
                    } else {
                        gold
                    },
                    unresolved: unnamed(evidence, known, evidence.len() as int),
                    stale: Seq::empty(),
                    negative: if answer is None {
                        gold
                    } else {
                        Seq::empty()
                    },
                    metadata: locomo_metadata(
                        sample,
                        index,
                        category,
                        opt_tree(q.adversarial_answer),
                    ),
                },
            )
        },
    }
}

/// Makes a question about a conversation whose sessions have been read.
pub fn build_locomo_case(
    sample: &str,
    sessions: &Vec<EvalSession>,
    known: &Vec<String>,
    q: &LocomoQuestion,
    index: usize,
) -> (r: Result<EvalCase, String>)
    requires
        sessions@.len() > 0,
        text::texts(known@) == known_ids(
            corpus::session_models(sessions@),
            sessions@.len() as int,
        ),
    ensures
        ({
            let want = locomo_case(
                sample@,
                corpus::session_models(sessions@),
                *q,
                index as int,
            );
            match r {
                Ok(c) => want == Ok::<CaseModel, Seq<char>>(corpus::case_model(c)),
                Err(e) => want == Err::<CaseModel, Seq<char>>(e@),
            }
        }),
{
    proof {
        json::trees_index(q.evidence@, q.evidence@.len() as int);
    }
    let category = match read_category(&q.category) {
        Ok(category) => category,
        Err(e) => return Err(e),
    };
    let (found, unresolved) = resolve(&q.evidence, known);
    let answer = match find_locomo_answer(&q.answer, &q.adversarial_answer) {
        Ok(answer) => answer,
        Err(e) => return Err(e),
    };
    let no = answer.is_none();
    if category != 5 && no {
        return Err("categories 1-4 require an answer".to_owned());
    }
    let none: Vec<String> = Vec::new();
    let stale: Vec<String> = Vec::new();
    assert(text::texts(none@) =~= Seq::empty());
    assert(text::texts(stale@) =~= Seq::empty());
    let (gold, negative) = if no {
        (none, found)
    } else {
        (found, none)
    };
    let class = if category == 1 {
        EvalQuestionClass::ExactFact
    } else if category == 2 {
        EvalQuestionClass::Temporal
    } else if category == 3 {
        EvalQuestionClass::MultiHop
    } else if category == 4 {
        EvalQuestionClass::General
    } else if no {
        EvalQuestionClass::NoAnswer
    } else {
        EvalQuestionClass::ExactFact
    };
    let mut id = sample.to_owned();
    id.append("-");
    push_decimal(&mut id, index as u64);
    let adversarial = match &q.adversarial_answer {
        Some(value) => copy_json(value),
        None => Json::Null,
    };
    let object = JsonObject::new().with("adversarial_answer", adversarial).with(
        "category",
        json_number(category),
    ).with("qa_index", json_number(index as u64)).with("sample_id", json_text(sample));
    assert(object.list() =~= locomo_metadata(
        sample@,
        index as int,
        category as nat,
        opt_tree(q.adversarial_answer),
    )->Object_0);
    let copy = copy_sessions(sessions);
    assert(corpus::session_models(sessions@).last() == corpus::session_model(sessions@.last()));
    Ok(
        EvalCase {
            id,
            group_id: sample.to_owned(),
            question: q.question.clone(),
            expected_answer: answer,
            class,
            reference_time: sessions[sessions.len() - 1].occurred_at.clone(),
            sessions: copy,
            gold_evidence: gold,
            unresolved_gold_evidence: unresolved,
            stale_evidence: stale,
            negative_evidence: negative,
            source_metadata: object.finish(),
        },
    )
}

/// The first `n` questions about a conversation.
pub open spec fn sample_cases(
    sample: Seq<char>,
    sessions: Seq<SessionModel>,
    qa: Seq<LocomoQuestion>,
    n: int,
) -> Result<Seq<CaseModel>, Seq<char>>
    decreases n,
{
    if n <= 0 {
        Ok(Seq::empty())
    } else {
        match sample_cases(sample, sessions, qa, n - 1) {
            Err(e) => Err(e),
            Ok(rest) => match locomo_case(sample, sessions, qa[n - 1], n - 1) {
                Err(e) => Err(e),
                Ok(c) => Ok(rest.push(c)),
            },
        }
    }
}

proof fn sample_cases_stop(
    sample: Seq<char>,
    sessions: Seq<SessionModel>,
    qa: Seq<LocomoQuestion>,
    k: int,
    n: int,
)
    requires
        k <= n,
        sample_cases(sample, sessions, qa, k) is Err,
    ensures
        sample_cases(sample, sessions, qa, n) == sample_cases(sample, sessions, qa, k),
    decreases n - k,
{
    if k < n {
        sample_cases_stop(sample, sessions, qa, k, n - 1);
    }
}

/// Whether one of the first `n` samples has an id.
pub open spec fn sample_taken(v: Seq<LocomoSample>, id: Seq<char>, n: int) -> bool {
    exists|k: int|
        0 <= k < n && corpus::scalar_text(json::tree((#[trigger] v[k]).sample_id)) == Some(id)
}

/// The questions of one sample, or what is wrong with it.
pub open spec fn locomo_sample(v: Seq<LocomoSample>, i: int) -> Result<Seq<CaseModel>, Seq<char>> {
    match corpus::scalar_text(json::tree(v[i].sample_id)) {
        None => Err(corpus::not_scalar("sample_id"@)),
        Some(sample) => if text::blank(sample) || sample_taken(v, sample, i) {
            Err("LoCoMo sample_id must be nonempty and unique"@)
        } else {
            match conversation_sessions(json::tree(v[i].conversation)) {
                Err(e) => Err(e),
                Ok(sessions) => sample_cases(
                    sample,
                    sessions,
                    v[i].qa@,
                    v[i].qa@.len() as int,
                ),
            }
        },
    }
}

/// The questions of the first `n` samples, or the first thing that is wrong.
pub open spec fn locomo_cases(v: Seq<LocomoSample>, n: int) -> Result<Seq<CaseModel>, Seq<char>>
    decreases n,
{
    if n <= 0 {
        Ok(Seq::empty())
    } else {
        match locomo_cases(v, n - 1) {
            Err(e) => Err(e),
            Ok(rest) => match locomo_sample(v, n - 1) {
                Err(e) => Err(e),
                Ok(more) => Ok(rest + more),
            },
        }
    }
}

proof fn locomo_cases_stop(v: Seq<LocomoSample>, k: int, n: int)
    requires
        k <= n,
        locomo_cases(v, k) is Err,
    ensures
        locomo_cases(v, n) == locomo_cases(v, k),
    decreases n - k,
{
    if k < n {
        locomo_cases_stop(v, k, n - 1);
    }
}

fn build_sample(v: &Vec<LocomoSample>, i: usize, ids: &Vec<String>) -> (r: Result<
    (Vec<EvalCase>, String),
    String,
>)
    requires
        i < v@.len(),
        forall|s: Seq<char>| #[trigger] text::texts(ids@).contains(s) <==> sample_taken(v@, s, i as int),
    ensures
        match r {
            Ok((cases, id)) => locomo_sample(v@, i as int) == Ok::<Seq<CaseModel>, Seq<char>>(
                corpus::case_models(cases@),
            ) && corpus::scalar_text(json::tree(v@[i as int].sample_id)) == Some(id@),
            Err(e) => locomo_sample(v@, i as int) == Err::<Seq<CaseModel>, Seq<char>>(e@),
        },
{
    let x = &v[i];
    let sample = match scalar(&x.sample_id, "sample_id") {
        Ok(sample) => sample,
        Err(e) => return Err(e),
    };
    if is_blank(sample.as_str()) || contains_text(ids, sample.as_str()) {
        return Err("LoCoMo sample_id must be nonempty and unique".to_owned());
    }
    let (sessions, known) = match build_sessions(&x.conversation) {
        Ok(built) => built,
        Err(e) => return Err(e),
    };
    let ghost models = corpus::session_models(sessions@);
    let mut out: Vec<EvalCase> = Vec::new();
    let mut k: usize = 0;
    assert(corpus::case_models(out@) =~= Seq::empty());
    while k < x.qa.len()
        invariant
            k <= x.qa@.len(),
            i < v@.len(),
            x == v@[i as int],
            corpus::scalar_text(json::tree(x.sample_id)) == Some(sample@),
            !text::blank(sample@) && !sample_taken(v@, sample@, i as int),
            conversation_sessions(json::tree(x.conversation)) == Ok::<
                Seq<SessionModel>,
                Seq<char>,
            >(models),
            models == corpus::session_models(sessions@),
            sessions@.len() > 0,
            text::texts(known@) == known_ids(models, sessions@.len() as int),
            sample_cases(sample@, models, x.qa@, k as int) == Ok::<Seq<CaseModel>, Seq<char>>(
                corpus::case_models(out@),
            ),
        decreases x.qa.len() - k,
    {
        match build_locomo_case(sample.as_str(), &sessions, &known, &x.qa[k], k) {
            Ok(c) => {
                let ghost before = corpus::case_models(out@);
                out.push(c);
                assert(corpus::case_models(out@) =~= before.push(corpus::case_model(c)));
            },
            Err(e) => {
                proof {
                    sample_cases_stop(sample@, models, x.qa@, k + 1, x.qa@.len() as int);
                }
                return Err(e);
            },
        }
        k += 1;
    }
    Ok((out, sample))
}

/// Reads the questions of LoCoMo.
pub fn read_locomo(v: &Vec<LocomoSample>) -> (r: Result<Vec<EvalCase>, String>)
    ensures
        match r {
            Ok(cases) => locomo_cases(v@, v@.len() as int) == Ok::<Seq<CaseModel>, Seq<char>>(
                corpus::case_models(cases@),
            ),
            Err(e) => locomo_cases(v@, v@.len() as int) == Err::<Seq<CaseModel>, Seq<char>>(e@),
        },
{
    let mut out: Vec<EvalCase> = Vec::new();
    let mut ids: Vec<String> = Vec::new();
    let mut i: usize = 0;
    assert(corpus::case_models(out@) =~= Seq::empty());
    while i < v.len()
        invariant
            i <= v@.len(),
            locomo_cases(v@, i as int) == Ok::<Seq<CaseModel>, Seq<char>>(
                corpus::case_models(out@),
            ),
            ids@.len() == i,
            forall|k: int|
                0 <= k < i ==> corpus::scalar_text(json::tree((#[trigger] v@[k]).sample_id))
                    == Some(ids@[k]@),
        decreases v.len() - i,
    {
        proof {
            let names = text::texts(ids@);
            assert forall|s: Seq<char>| #[trigger]
                names.contains(s) <==> sample_taken(v@, s, i as int) by {
                if names.contains(s) {
                    let k = choose|k: int| 0 <= k < names.len() && names[k] == s;
                    assert(corpus::scalar_text(json::tree(v@[k].sample_id)) == Some(ids@[k]@));
                }
                if sample_taken(v@, s, i as int) {
                    let k = choose|k: int|
                        0 <= k < i && corpus::scalar_text(json::tree((#[trigger] v@[k]).sample_id))
                            == Some(s);
                    assert(names[k] == s);
                }
            }
        }
        match build_sample(v, i, &ids) {
            Ok((cases, id)) => {
                let mut more = cases;
                let ghost before = corpus::case_models(out@);
                let ghost added = corpus::case_models(more@);
                out.append(&mut more);
                assert(corpus::case_models(out@) =~= before + added);
                ids.push(id);
            },
            Err(e) => {
                proof {
                    locomo_cases_stop(v@, i + 1, v@.len() as int);
                }
                return Err(e);
            },
        }
        i += 1;
    }
    Ok(out)
}

/// In a session that was read the two take turns: who speaks first in the pair is
/// the user, nobody speaks twice running, and no id is given twice or known before.
pub proof fn speakers_take_turns(
    pair: (Seq<char>, Seq<char>),
    key: Seq<char>,
    v: Seq<JsonTree>,
    known: Seq<Seq<char>>,
    n: int,
)
    requires
        0 <= n <= v.len(),
    ensures
        utterances(pair, key, v, known, n) matches Ok(m) ==> {
            &&& m.len() == n
            &&& forall|i: int|
                0 <= i < n ==> {
                    &&& Some((#[trigger] m[i]).speaker) == text_member(v[i], "speaker"@)
                    &&& m[i].speaker == pair.0 || m[i].speaker == pair.1
                    &&& m[i].role == EventRole::User <==> m[i].speaker == pair.0
                    &&& m[i].role == EventRole::Assistant <==> m[i].speaker != pair.0
                    &&& m[i].evidence.source_session_id == key
                    &&& !text::blank(m[i].evidence.external_id)
                    &&& !known.contains(m[i].evidence.external_id)
                }
            &&& forall|i: int, j: int|
                0 <= i < j < n ==> (#[trigger] m[i]).evidence.external_id != (
                #[trigger] m[j]).evidence.external_id
            &&& forall|i: int, j: int|
                0 <= i < n && j == i + 1 && j < n ==> (#[trigger] m[i]).speaker != (
                #[trigger] m[j]).speaker
        },
    decreases n,
{
    if n > 0 {
        speakers_take_turns(pair, key, v, known, n - 1);
        if utterances(pair, key, v, known, n) is Ok {
            let rest = utterances(pair, key, v, known, n - 1)->Ok_0;
            let m = utterances(pair, key, v, known, n)->Ok_0;
            let last = m[n - 1];
            let taken = known + message_ids(rest);
            assert(m =~= rest.push(last));
            assert(!taken.contains(last.evidence.external_id));
            assert(!known.contains(last.evidence.external_id)) by {
                if known.contains(last.evidence.external_id) {
                    let k = choose|k: int|
                        0 <= k < known.len() && known[k] == last.evidence.external_id;
                    assert(taken[k] == last.evidence.external_id);
                }
            }
            assert forall|i: int, j: int| 0 <= i < j < n implies (
            #[trigger] m[i]).evidence.external_id != (#[trigger] m[j]).evidence.external_id by {
                assert(m[i] == rest[i]);
                if j == n - 1 {
                    assert(taken[known.len() + i] == rest[i].evidence.external_id);
                }
            }
        }
    }
}

/// Evidence that names a known message is resolved to it, and all other evidence
/// is left as it is.
pub proof fn evidence_is_resolved_or_left(
    v: Seq<JsonTree>,
    known: Seq<Seq<char>>,
    n: int,
    x: Seq<char>,
    t: JsonTree,
)
    requires
        0 <= n <= v.len(),
    ensures
        named(v, known, n).contains(x) <==> known.contains(x) && exists|k: int|
            0 <= k < n && corpus::scalar_text(#[trigger] v[k]) == Some(x),
        unnamed(v, known, n).contains(t) <==> v.take(n).contains(t) && !(corpus::scalar_text(
            t,
        ) matches Some(s) && known.contains(s)),
        named(v, known, n).len() + unnamed(v, known, n).len() == n,
    decreases n,
{
    if n > 0 {
        evidence_is_resolved_or_left(v, known, n - 1, x, t);
        let a = named(v, known, n - 1);
        let b = unnamed(v, known, n - 1);
        let c = named(v, known, n);
        let d = unnamed(v, known, n);
        let p = v.take(n - 1);
        let q = v.take(n);
        assert(q =~= p.push(v[n - 1]));
        if a.contains(x) {
            let i = choose|i: int| 0 <= i < a.len() && a[i] == x;
            assert(c[i] == x);
        }
        if c.contains(x) {
            let i = choose|i: int| 0 <= i < c.len() && c[i] == x;
            if i < a.len() {
                assert(a[i] == x);
            } else {
                assert(corpus::scalar_text(v[n - 1]) == Some(x));
            }
        }
        if known.contains(x) && corpus::scalar_text(v[n - 1]) == Some(x) {
            assert(c[a.len() as int] == x);
        }
        if b.contains(t) {
            let i = choose|i: int| 0 <= i < b.len() && b[i] == t;
            assert(d[i] == t);
            let j = choose|j: int| 0 <= j < p.len() && p[j] == t;
            assert(q[j] == t);
        }
        if d.contains(t) {
            let i = choose|i: int| 0 <= i < d.len() && d[i] == t;
            if i < b.len() {
                assert(b[i] == t);
            } else {
                assert(q[n - 1] == t);
            }
        }
        if q.contains(t) {
            let j = choose|j: int| 0 <= j < q.len() && q[j] == t;
            if j < n - 1 {
                assert(p[j] == t);
            } else if !names_known(t, known) {
                assert(d[b.len() as int] == t);
            }
        }
    }
}

/// The expected answer is never blank; it is the plain one wherever that is not
/// blank, and there is none only where none is given at all.
pub proof fn expected_answers_are_given(answer: Option<JsonTree>, adversarial: Option<JsonTree>)
    ensures
        locomo_answer(answer, adversarial) matches Ok(Some(s)) ==> !text::blank(s) && ((
        answer matches Some(a) && corpus::scalar_text(a) == Some(s)) || (
        adversarial matches Some(b) && corpus::scalar_text(b) == Some(s))),
        locomo_answer(answer, adversarial) == Ok::<Option<Seq<char>>, Seq<char>>(None)
            <==> answer is None && adversarial is None,
        answer matches Some(a) ==> (corpus::scalar_text(a) matches Some(s) ==> !text::blank(s)
            ==> locomo_answer(answer, adversarial) == Ok::<Option<Seq<char>>, Seq<char>>(Some(s))),
        answer matches Some(a) ==> corpus::scalar_text(a) is None ==> locomo_answer(
            answer,
            adversarial,
        ) is Err,
{
}

/// A question that was read keeps what it asks; only one of the last category may
/// be without an answer, and its evidence then speaks against an answer.
pub proof fn questions_match_their_category(
    sample: Seq<char>,
    sessions: Seq<SessionModel>,
    q: LocomoQuestion,
    index: int,
)
    ensures
        locomo_case(sample, sessions, q, index) matches Ok(c) ==> {
            let category = category_of(json::tree(q.category))->Ok_0;
            &&& 1 <= category <= 5
            &&& c.question == q.question@ && c.group_id == sample && c.sessions == sessions
            &&& c.expected_answer is None ==> category == 5 && c.gold.len() == 0
            &&& c.expected_answer is Some ==> c.negative.len() == 0
            &&& c.class == EvalQuestionClass::NoAnswer <==> c.expected_answer is None
            &&& c.class == EvalQuestionClass::Temporal <==> category == 2
            &&& c.class == EvalQuestionClass::MultiHop <==> category == 3
            &&& c.class == EvalQuestionClass::General <==> category == 4
            &&& c.class == EvalQuestionClass::ExactFact <==> category == 1 || category == 5
                && c.expected_answer is Some
        },
{
}

proof fn session_places_are_complete(v: Seq<(Seq<char>, JsonTree)>, n: int)
    requires
        0 <= n <= v.len(),
    ensures
        session_places(v, n) matches Ok(p) ==> {
            &&& forall|i: int|
                0 <= i < p.len() ==> 0 <= (#[trigger] p[i]).1 < n && session_number(
                    v[p[i].1].0,
                ) is Some && p[i].0 == session_number(v[p[i].1].0)->0 as u64
            &&& forall|i: int, j: int| 0 <= i < j < p.len() ==> (#[trigger] p[i]).1 < (#[trigger] p[j]).1
            &&& forall|x: int|
                0 <= x < n && session_number((#[trigger] v[x]).0) is Some ==> exists|i: int|
                    0 <= i < p.len() && (#[trigger] p[i]).1 == x
        },
    decreases n,
{
    if n > 0 {
        session_places_are_complete(v, n - 1);
        if session_places(v, n) is Ok {
            let rest = session_places(v, n - 1)->Ok_0;
            let p = session_places(v, n)->Ok_0;
            assert forall|x: int|
                0 <= x < n && session_number((#[trigger] v[x]).0) is Some implies exists|i: int|
                0 <= i < p.len() && (#[trigger] p[i]).1 == x by {
                if x < n - 1 {
                    let i = choose|i: int| 0 <= i < rest.len() && (#[trigger] rest[i]).1 == x;
                    assert(p[i].1 == x);
                } else {
                    assert(p[rest.len() as int].1 == x);
                }
            }
        }
    }
}

proof fn session_numbers_fit(name: Seq<char>)
    ensures
        session_number(name) matches Some(n) ==> n <= u64::MAX,
{
    let rest = name.subrange("session_"@.len() as int, name.len() as int);
    number::read_numbers_fit(rest, usize::MAX as nat);
}

/// The sessions of a conversation are all its members that are named by a number,
/// each once, and they stand in the order of these numbers.
pub proof fn sessions_stand_in_order(v: Seq<(Seq<char>, JsonTree)>)
    ensures
        session_order(v) matches Ok(o) ==> {
            &&& o.no_duplicates()
            &&& forall|x: int|
                o.contains(x) <==> 0 <= x < v.len() && session_number((#[trigger] v[x]).0) is Some
            &&& forall|i: int, j: int|
                0 <= i < j < o.len() ==> session_number(v[#[trigger] o[i]].0)->0
                    <= session_number(v[#[trigger] o[j]].0)->0
        },
{
    session_places_are_complete(v, v.len() as int);
    if session_order(v) is Ok {
        let p = session_places(v, v.len() as int)->Ok_0;
        let keys = number_keys(p);
        let order = order::ordered(keys, p.len() as int);
        let o = session_order(v)->Ok_0;
        order::ordered_is_complete(keys, p.len() as int);
        assert(order::one_shape(keys));
        order::ordered_is_sorted(keys, p.len() as int);
        reveal_with_fuel(order::key_lt, 2);
        assert forall|i: int, j: int| 0 <= i < j < o.len() implies session_number(
            v[#[trigger] o[i]].0,
        )->0 <= session_number(v[#[trigger] o[j]].0)->0 by {
            let a = order[i];
            let b = order[j];
            session_numbers_fit(v[o[i]].0);
            session_numbers_fit(v[o[j]].0);
            assert(!order::key_lt(keys[b], keys[a], 0));
            assert(keys[a][0] == PartModel::Up(p[a].0) && keys[b][0] == PartModel::Up(p[b].0));
        }
        assert forall|x: int|
            o.contains(x) <==> 0 <= x < v.len() && session_number((#[trigger] v[x]).0) is Some by {
            if o.contains(x) {
                let i = choose|i: int| 0 <= i < o.len() && o[i] == x;
                assert(p[order[i]].1 == x);
            }
            if 0 <= x < v.len() && session_number(v[x].0) is Some {
                let i = choose|i: int| 0 <= i < p.len() && (#[trigger] p[i]).1 == x;
                assert(order.contains(i));
                let k = choose|k: int| 0 <= k < order.len() && order[k] == i;
                assert(o[k] == x);
            }
        }
        assert forall|i: int, j: int| 0 <= i < o.len() && 0 <= j < o.len() && i != j implies o[i]
            != o[j] by {
            assert(order[i] != order[j]);
            assert(o[i] == p[order[i]].1 && o[j] == p[order[j]].1);
            if order[i] < order[j] {
                assert(p[order[i]].1 < p[order[j]].1);
            } else {
                assert(p[order[j]].1 < p[order[i]].1);
            }
        }
    }
}

} // verus!
