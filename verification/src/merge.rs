//! Answers with facts, put together into one.

use vstd::prelude::*;
use vstd::string::*;

use crate::json::{self, copy_json, json_text, render, Json, JsonObject, JsonTree};
use crate::text::{self, chars_of, copy_texts, push_decimal, string_of, text_eq, union_of};

verus! {

/// An entity in an answer. `identity` holds the members by which two entities
/// are the same: name, kind, resolution, known entity and evidence of the name.
#[derive(Debug)]
pub struct EntityOutput {
    pub local_id: String,
    pub identity: Json,
    pub rest: Json,
}

/// A claim in an answer. `traits` holds the members by which two claims with the
/// same subject and object are the same: predicate, polarity, cardinality,
/// certainty and disposition. Every piece of evidence is given as JSON.
#[derive(Debug)]
pub struct ClaimOutput {
    pub local_id: String,
    pub subject_ref: String,
    pub entity_ref: Option<String>,
    pub object: Json,
    pub traits: Json,
    pub evidence: Vec<String>,
    pub replaces_claim_ids: Vec<String>,
    pub conflicts_with_claim_ids: Vec<String>,
    pub rest: Json,
}

/// The facts of one answer.
#[derive(Debug)]
pub struct FactOutput {
    pub entities: Vec<EntityOutput>,
    pub claims: Vec<ClaimOutput>,
}

pub struct EntityModel {
    pub local_id: Seq<char>,
    pub identity: JsonTree,
    pub rest: JsonTree,
}

#[verifier::ext_equal]
pub struct ClaimModel {
    pub local_id: Seq<char>,
    pub subject_ref: Seq<char>,
    pub entity_ref: Option<Seq<char>>,
    pub object: JsonTree,
    pub traits: JsonTree,
    pub evidence: Seq<Seq<char>>,
    pub replaces: Seq<Seq<char>>,
    pub conflicts: Seq<Seq<char>>,
    pub rest: JsonTree,
}

pub open spec fn entity_model(e: EntityOutput) -> EntityModel {
    EntityModel {
        local_id: e.local_id@,
        identity: json::tree(e.identity),
        rest: json::tree(e.rest),
    }
}

pub open spec fn claim_model(c: ClaimOutput) -> ClaimModel {
    ClaimModel {
        local_id: c.local_id@,
        subject_ref: c.subject_ref@,
        entity_ref: text::opt_text(c.entity_ref),
        object: json::tree(c.object),
        traits: json::tree(c.traits),
        evidence: text::texts(c.evidence@),
        replaces: text::texts(c.replaces_claim_ids@),
        conflicts: text::texts(c.conflicts_with_claim_ids@),
        rest: json::tree(c.rest),
    }
}

pub open spec fn entity_models(v: Seq<EntityOutput>) -> Seq<EntityModel> {
    Seq::new(v.len(), |i: int| entity_model(v[i]))
}

pub open spec fn claim_models(v: Seq<ClaimOutput>) -> Seq<ClaimModel> {
    Seq::new(v.len(), |i: int| claim_model(v[i]))
}

/// A local name without the prefix `local_`, however often it stands there.
pub open spec fn bare_name(s: Seq<char>) -> Seq<char>
    decreases s.len(),
{
    if s.len() >= 6 && text::has_prefix(s, "local_"@) {
        bare_name(s.skip(6))
    } else {
        s
    }
}

/// The name of something from the answer at a position.
pub open spec fn global_name(index: int, local: Seq<char>) -> Seq<char> {
    "local_f"@ + text::decimal(index as nat) + "_"@ + bare_name(local)
}

fn name_in(index: usize, local: &str) -> (r: String)
    ensures
        r@ == global_name(index as int, local@),
{
    let chars = chars_of(local);
    let prefix = chars_of("local_");
    let mut from: usize = 0;
    assert(local@.skip(0) =~= local@);
    proof {
        reveal_strlit("local_");
    }
    while chars.len() - from >= 6 && text::chars_stand_at(&chars, &prefix, from)
        invariant
            from <= chars@.len(),
            chars@ == local@,
            prefix@ == "local_"@,
            prefix@.len() == 6,
            bare_name(local@) == bare_name(local@.skip(from as int)),
        decreases chars@.len() - from,
    {
        proof {
            let rest = local@.skip(from as int);
            assert(text::stands_at(chars@, prefix@, from as int));
            assert(rest.take(6) =~= prefix@) by {
                assert forall|k: int| 0 <= k < 6 implies rest[k] == prefix@[k] by {
                    assert(chars@.subrange(from as int, from + 6)[k] == prefix@[k]);
                }
            }
            assert(text::has_prefix(rest, "local_"@)) by {
                assert(rest.subrange(0, 6) =~= prefix@);
            }
            assert(rest.skip(6) =~= local@.skip(from + 6));
        }
        from += 6;
    }
    proof {
        let rest = local@.skip(from as int);
        if rest.len() >= 6 && text::has_prefix(rest, "local_"@) {
            assert(chars@.subrange(from as int, from + 6) =~= rest.subrange(0, 6));
        }
    }
    let bare = string_of(&chars, from, chars.len());
    assert(bare@ =~= local@.skip(from as int));
    let mut out = "local_f".to_owned();
    push_decimal(&mut out, index as u64);
    out.append("_");
    out.append(bare.as_str());
    out
}

/// The first entity with an identity, from `i` on.
pub open spec fn entity_at(v: Seq<EntityModel>, key: Seq<char>, i: int) -> Option<int>
    decreases v.len() - i,
{
    if i < 0 || i >= v.len() {
        None
    } else if json::rendered(v[i].identity) == key {
        Some(i)
    } else {
        entity_at(v, key, i + 1)
    }
}

/// The entities with those of one answer: one with a known identity is not
/// added, others get a name of their own.
pub open spec fn entities_with(v: Seq<EntityModel>, own: Seq<EntityModel>, index: int, n: int) -> Seq<
    EntityModel,
>
    decreases n,
{
    if n <= 0 {
        v
    } else {
        let before = entities_with(v, own, index, n - 1);
        let e = own[n - 1];
        match entity_at(before, json::rendered(e.identity), 0) {
            Some(_) => before,
            None => before.push(
                EntityModel { local_id: global_name(index, e.local_id), ..e },
            ),
        }
    }
}

/// What the names of one answer stand for.
pub open spec fn names_of(v: Seq<EntityModel>, own: Seq<EntityModel>, index: int, n: int) -> Seq<
    (Seq<char>, Seq<char>),
>
    decreases n,
{
    if n <= 0 {
        Seq::empty()
    } else {
        let before = entities_with(v, own, index, n - 1);
        let e = own[n - 1];
        let global = match entity_at(before, json::rendered(e.identity), 0) {
            Some(p) => before[p].local_id,
            None => global_name(index, e.local_id),
        };
        names_of(v, own, index, n - 1).push((e.local_id, global))
    }
}

/// What a name stands for; one that is not in the list stands for itself. The
/// last entry for a name counts.
pub open spec fn meant(names: Seq<(Seq<char>, Seq<char>)>, id: Seq<char>) -> Seq<char>
    decreases names.len(),
{
    if names.len() == 0 {
        id
    } else if names.last().0 == id {
        names.last().1
    } else {
        meant(names.drop_last(), id)
    }
}

/// A claim of one answer with the names that it means.
pub open spec fn relinked(c: ClaimModel, names: Seq<(Seq<char>, Seq<char>)>, index: int) -> ClaimModel {
    ClaimModel {
        local_id: global_name(index, c.local_id),
        subject_ref: meant(names, c.subject_ref),
        entity_ref: match c.entity_ref {
            Some(id) => Some(meant(names, id)),
            None => None,
        },
        ..c
    }
}

/// What two claims share when they are the same.
pub open spec fn claim_key(c: ClaimModel) -> Seq<char> {
    json::rendered(
        JsonTree::Object(
            seq![
                ("entity_ref"@, json::opt_text_tree(c.entity_ref)),
                ("object"@, c.object),
                ("subject_ref"@, JsonTree::Text(c.subject_ref)),
                ("traits"@, c.traits),
            ],
        ),
    )
}

pub open spec fn claim_at(v: Seq<ClaimModel>, key: Seq<char>, i: int) -> Option<int>
    decreases v.len() - i,
{
    if i < 0 || i >= v.len() {
        None
    } else if claim_key(v[i]) == key {
        Some(i)
    } else {
        claim_at(v, key, i + 1)
    }
}

/// A claim that was made twice: what either brings, sorted and without
/// repetitions.
pub open spec fn merged(a: ClaimModel, b: ClaimModel) -> ClaimModel {
    ClaimModel {
        evidence: text::distinct_sorted(a.evidence + b.evidence),
        replaces: text::distinct_sorted(a.replaces + b.replaces),
        conflicts: text::distinct_sorted(a.conflicts + b.conflicts),
        ..a
    }
}

/// The claims with one more.
pub open spec fn claims_plus(v: Seq<ClaimModel>, c: ClaimModel) -> Seq<ClaimModel> {
    match claim_at(v, claim_key(c), 0) {
        Some(p) => v.update(p, merged(v[p], c)),
        None => v.push(c),
    }
}

pub open spec fn claims_with(
    v: Seq<ClaimModel>,
    own: Seq<ClaimModel>,
    names: Seq<(Seq<char>, Seq<char>)>,
    index: int,
    n: int,
) -> Seq<ClaimModel>
    decreases n,
{
    if n <= 0 {
        v
    } else {
        claims_plus(claims_with(v, own, names, index, n - 1), relinked(own[n - 1], names, index))
    }
}

/// The entities of the first `n` answers.
pub open spec fn all_entities(outputs: Seq<FactOutput>, n: int) -> Seq<EntityModel>
    decreases n,
{
    if n <= 0 {
        Seq::empty()
    } else {
        let own = entity_models(outputs[n - 1].entities@);
        entities_with(all_entities(outputs, n - 1), own, n - 1, own.len() as int)
    }
}

/// The claims of the first `n` answers.
pub open spec fn all_claims(outputs: Seq<FactOutput>, n: int) -> Seq<ClaimModel>
    decreases n,
{
    if n <= 0 {
        Seq::empty()
    } else {
        let entities = entity_models(outputs[n - 1].entities@);
        let claims = claim_models(outputs[n - 1].claims@);
        let names = names_of(
            all_entities(outputs, n - 1),
            entities,
            n - 1,
            entities.len() as int,
        );
        claims_with(all_claims(outputs, n - 1), claims, names, n - 1, claims.len() as int)
    }
}

pub open spec fn pairs(v: Seq<(String, String)>) -> Seq<(Seq<char>, Seq<char>)> {
    Seq::new(v.len(), |i: int| (v[i].0@, v[i].1@))
}

fn find_entity(v: &Vec<EntityOutput>, keys: &Vec<String>, key: &str) -> (r: Option<usize>)
    requires
        keys@.len() == v@.len(),
        forall|i: int|
            0 <= i < v@.len() ==> (#[trigger] keys@[i])@ == json::rendered(
                json::tree(v@[i].identity),
            ),
    ensures
        match r {
            Some(p) => p < v@.len() && entity_at(entity_models(v@), key@, 0) == Some(p as int),
            None => entity_at(entity_models(v@), key@, 0) is None,
        },
{
    let ghost all = entity_models(v@);
    let mut i: usize = 0;
    while i < v.len()
        invariant
            i <= v@.len(),
            all == entity_models(v@),
            keys@.len() == v@.len(),
            forall|k: int|
                0 <= k < v@.len() ==> (#[trigger] keys@[k])@ == json::rendered(
                    json::tree(v@[k].identity),
                ),
            entity_at(all, key@, 0) == entity_at(all, key@, i as int),
        decreases v.len() - i,
    {
        assert(all[i as int] == entity_model(v@[i as int]));
        if text_eq(keys[i].as_str(), key) {
            return Some(i);
        }
        i += 1;
    }
    None
}

fn find_claim(v: &Vec<ClaimOutput>, keys: &Vec<String>, key: &str) -> (r: Option<usize>)
    requires
        keys@.len() == v@.len(),
        forall|i: int|
            0 <= i < v@.len() ==> (#[trigger] keys@[i])@ == claim_key(claim_model(v@[i])),
    ensures
        match r {
            Some(p) => p < v@.len() && claim_at(claim_models(v@), key@, 0) == Some(p as int)
                && claim_key(claim_model(v@[p as int])) == key@,
            None => claim_at(claim_models(v@), key@, 0) is None,
        },
{
    let ghost all = claim_models(v@);
    let mut i: usize = 0;
    while i < v.len()
        invariant
            i <= v@.len(),
            all == claim_models(v@),
            keys@.len() == v@.len(),
            forall|k: int|
                0 <= k < v@.len() ==> (#[trigger] keys@[k])@ == claim_key(claim_model(v@[k])),
            claim_at(all, key@, 0) == claim_at(all, key@, i as int),
        decreases v.len() - i,
    {
        assert(all[i as int] == claim_model(v@[i as int]));
        if text_eq(keys[i].as_str(), key) {
            return Some(i);
        }
        i += 1;
    }
    None
}

fn look_up(names: &Vec<(String, String)>, id: &str) -> (r: String)
    ensures
        r@ == meant(pairs(names@), id@),
{
    let ghost all = pairs(names@);
    let mut n: usize = names.len();
    assert(all.take(n as int) =~= all);
    while n > 0
        invariant
            n <= names@.len(),
            all == pairs(names@),
            meant(all, id@) == meant(all.take(n as int), id@),
        decreases n,
    {
        proof {
            assert(all.take(n as int).last() == (names@[n - 1].0@, names@[n - 1].1@));
            assert(all.take(n as int).drop_last() =~= all.take(n - 1));
        }
        if text_eq(names[n - 1].0.as_str(), id) {
            return names[n - 1].1.clone();
        }
        n -= 1;
    }
    id.to_owned()
}

fn claim_key_of(c: &ClaimOutput) -> (r: String)
    ensures
        r@ == claim_key(claim_model(*c)),
{
    let entity_ref = match &c.entity_ref {
        Some(id) => json_text(id.as_str()),
        None => Json::Null,
    };
    let object = JsonObject::new().with("entity_ref", entity_ref).with(
        "object",
        copy_json(&c.object),
    ).with("subject_ref", json_text(c.subject_ref.as_str())).with("traits", copy_json(&c.traits));
    assert(object.list() =~= seq![
        ("entity_ref"@, json::opt_text_tree(text::opt_text(c.entity_ref))),
        ("object"@, json::tree(c.object)),
        ("subject_ref"@, JsonTree::Text(c.subject_ref@)),
        ("traits"@, json::tree(c.traits)),
    ]);
    render(&object.finish())
}

fn relink(c: &ClaimOutput, names: &Vec<(String, String)>, index: usize) -> (r: ClaimOutput)
    ensures
        claim_model(r) == relinked(claim_model(*c), pairs(names@), index as int),
{
    let entity_ref = match &c.entity_ref {
        Some(id) => Some(look_up(names, id.as_str())),
        None => None,
    };
    ClaimOutput {
        local_id: name_in(index, c.local_id.as_str()),
        subject_ref: look_up(names, c.subject_ref.as_str()),
        entity_ref,
        object: copy_json(&c.object),
        traits: copy_json(&c.traits),
        evidence: copy_texts(&c.evidence),
        replaces_claim_ids: copy_texts(&c.replaces_claim_ids),
        conflicts_with_claim_ids: copy_texts(&c.conflicts_with_claim_ids),
        rest: copy_json(&c.rest),
    }
}

/// Adds the entities of one answer; returns what its names stand for.
fn merge_entities(
    entities: &mut Vec<EntityOutput>,
    keys: &mut Vec<String>,
    own: &Vec<EntityOutput>,
    index: usize,
) -> (names: Vec<(String, String)>)
    requires
        old(keys)@.len() == old(entities)@.len(),
        forall|i: int|
            0 <= i < old(entities)@.len() ==> (#[trigger] old(keys)@[i])@ == json::rendered(
                json::tree(old(entities)@[i].identity),
            ),
    ensures
        final(keys)@.len() == final(entities)@.len(),
        forall|i: int|
            0 <= i < final(entities)@.len() ==> (#[trigger] final(keys)@[i])@ == json::rendered(
                json::tree(final(entities)@[i].identity),
            ),
        entity_models(final(entities)@) == entities_with(
            entity_models(old(entities)@),
            entity_models(own@),
            index as int,
            own@.len() as int,
        ),
        pairs(names@) == names_of(
            entity_models(old(entities)@),
            entity_models(own@),
            index as int,
            own@.len() as int,
        ),
{
    let ghost start = entity_models(entities@);
    let ghost mine = entity_models(own@);
    let mut names: Vec<(String, String)> = Vec::new();
    assert(pairs(names@) =~= Seq::empty());
    let mut i: usize = 0;
    while i < own.len()
        invariant
            i <= own@.len(),
            mine == entity_models(own@),
            keys@.len() == entities@.len(),
            forall|k: int|
                0 <= k < entities@.len() ==> (#[trigger] keys@[k])@ == json::rendered(
                    json::tree(entities@[k].identity),
                ),
            entity_models(entities@) == entities_with(start, mine, index as int, i as int),
            pairs(names@) == names_of(start, mine, index as int, i as int),
        decreases own.len() - i,
    {
        let e = &own[i];
        assert(mine[i as int] == entity_model(*e));
        let key = render(&e.identity);
        let ghost before = entity_models(entities@);
        let ghost listed = pairs(names@);
        let global = match find_entity(entities, keys, key.as_str()) {
            Some(p) => {
                assert(before[p as int] == entity_model(entities@[p as int]));
                entities[p].local_id.clone()
            },
            None => {
                let local = name_in(index, e.local_id.as_str());
                entities.push(
                    EntityOutput {
                        local_id: local.clone(),
                        identity: copy_json(&e.identity),
                        rest: copy_json(&e.rest),
                    },
                );
                keys.push(key);
                assert(entity_models(entities@) =~= before.push(
                    EntityModel {
                        local_id: global_name(index as int, e.local_id@),
                        ..entity_model(*e)
                    },
                ));
                local
            },
        };
        names.push((e.local_id.clone(), global));
        assert(pairs(names@) =~= listed.push((e.local_id@, global@)));
        i += 1;
    }
    names
}

fn merge_claim(claims: &mut Vec<ClaimOutput>, keys: &mut Vec<String>, claim: ClaimOutput)
    requires
        old(keys)@.len() == old(claims)@.len(),
        forall|i: int|
            0 <= i < old(claims)@.len() ==> (#[trigger] old(keys)@[i])@ == claim_key(
                claim_model(old(claims)@[i]),
            ),
    ensures
        final(keys)@.len() == final(claims)@.len(),
        forall|i: int|
            0 <= i < final(claims)@.len() ==> (#[trigger] final(keys)@[i])@ == claim_key(
                claim_model(final(claims)@[i]),
            ),
        claim_models(final(claims)@) == claims_plus(
            claim_models(old(claims)@),
            claim_model(claim),
        ),
{
    let ghost before = claim_models(claims@);
    let key = claim_key_of(&claim);
    match find_claim(claims, keys, key.as_str()) {
        Some(p) => {
            let known = &claims[p];
            let both = ClaimOutput {
                local_id: known.local_id.clone(),
                subject_ref: known.subject_ref.clone(),
                entity_ref: crate::model::copy_opt(&known.entity_ref),
                object: copy_json(&known.object),
                traits: copy_json(&known.traits),
                evidence: union_of(&known.evidence, &claim.evidence),
                replaces_claim_ids: union_of(
                    &known.replaces_claim_ids,
                    &claim.replaces_claim_ids,
                ),
                conflicts_with_claim_ids: union_of(
                    &known.conflicts_with_claim_ids,
                    &claim.conflicts_with_claim_ids,
                ),
                rest: copy_json(&known.rest),
            };
            assert(claim_model(both) == merged(before[p as int], claim_model(claim)));
            claims.set(p, both);
            assert(claim_models(claims@) =~= before.update(p as int, claim_model(both)));
        },
        None => {
            claims.push(claim);
            keys.push(key);
            assert(claim_models(claims@) =~= before.push(claim_model(claim)));
        },
    }
}

fn merge_claims(
    claims: &mut Vec<ClaimOutput>,
    keys: &mut Vec<String>,
    own: &Vec<ClaimOutput>,
    names: &Vec<(String, String)>,
    index: usize,
)
    requires
        old(keys)@.len() == old(claims)@.len(),
        forall|i: int|
            0 <= i < old(claims)@.len() ==> (#[trigger] old(keys)@[i])@ == claim_key(
                claim_model(old(claims)@[i]),
            ),
    ensures
        final(keys)@.len() == final(claims)@.len(),
        forall|i: int|
            0 <= i < final(claims)@.len() ==> (#[trigger] final(keys)@[i])@ == claim_key(
                claim_model(final(claims)@[i]),
            ),
        claim_models(final(claims)@) == claims_with(
            claim_models(old(claims)@),
            claim_models(own@),
            pairs(names@),
            index as int,
            own@.len() as int,
        ),
{
    let ghost start = claim_models(claims@);
    let ghost mine = claim_models(own@);
    let mut i: usize = 0;
    while i < own.len()
        invariant
            i <= own@.len(),
            mine == claim_models(own@),
            keys@.len() == claims@.len(),
            forall|k: int|
                0 <= k < claims@.len() ==> (#[trigger] keys@[k])@ == claim_key(
                    claim_model(claims@[k]),
                ),
            claim_models(claims@) == claims_with(
                start,
                mine,
                pairs(names@),
                index as int,
                i as int,
            ),
        decreases own.len() - i,
    {
        assert(mine[i as int] == claim_model(own@[i as int]));
        let claim = relink(&own[i], names, index);
        merge_claim(claims, keys, claim);
        i += 1;
    }
}

/// Puts answers together: an entity or claim that several of them hold stands
/// once, under the name that it got in the first, and local names are set apart
/// by the position of their answer.
pub fn merge_fact_outputs(outputs: &Vec<FactOutput>) -> (r: FactOutput)
    ensures
        entity_models(r.entities@) == all_entities(outputs@, outputs@.len() as int),
        claim_models(r.claims@) == all_claims(outputs@, outputs@.len() as int),
{
    let mut entities: Vec<EntityOutput> = Vec::new();
    let mut entity_keys: Vec<String> = Vec::new();
    let mut claims: Vec<ClaimOutput> = Vec::new();
    let mut claim_keys: Vec<String> = Vec::new();
    assert(entity_models(entities@) =~= Seq::empty());
    assert(claim_models(claims@) =~= Seq::empty());
    let mut i: usize = 0;
    while i < outputs.len()
        invariant
            i <= outputs@.len(),
            entity_keys@.len() == entities@.len(),
            forall|k: int|
                0 <= k < entities@.len() ==> (#[trigger] entity_keys@[k])@ == json::rendered(
                    json::tree(entities@[k].identity),
                ),
            claim_keys@.len() == claims@.len(),
            forall|k: int|
                0 <= k < claims@.len() ==> (#[trigger] claim_keys@[k])@ == claim_key(
                    claim_model(claims@[k]),
                ),
            entity_models(entities@) == all_entities(outputs@, i as int),
            claim_models(claims@) == all_claims(outputs@, i as int),
        decreases outputs.len() - i,
    {
        let output = &outputs[i];
        let names = merge_entities(&mut entities, &mut entity_keys, &output.entities, i);
        merge_claims(&mut claims, &mut claim_keys, &output.claims, &names, i);
        i += 1;
    }
    FactOutput { entities, claims }
}

pub open spec fn entities_distinct(v: Seq<EntityModel>) -> bool {
    forall|i: int, j: int|
        0 <= i < j < v.len() ==> json::rendered((#[trigger] v[i]).identity) != json::rendered(
            (#[trigger] v[j]).identity,
        )
}

pub open spec fn claims_distinct(v: Seq<ClaimModel>) -> bool {
    forall|i: int, j: int|
        0 <= i < j < v.len() ==> claim_key(#[trigger] v[i]) != claim_key(#[trigger] v[j])
}

proof fn entity_absent(v: Seq<EntityModel>, key: Seq<char>, i: int)
    requires
        0 <= i <= v.len(),
        entity_at(v, key, i) is None,
    ensures
        forall|k: int| i <= k < v.len() ==> json::rendered((#[trigger] v[k]).identity) != key,
    decreases v.len() - i,
{
    if i < v.len() {
        entity_absent(v, key, i + 1);
    }
}

proof fn claim_absent(v: Seq<ClaimModel>, key: Seq<char>, i: int)
    requires
        0 <= i <= v.len(),
    ensures
        match claim_at(v, key, i) {
            Some(p) => i <= p < v.len() && claim_key(v[p]) == key,
            None => forall|k: int| i <= k < v.len() ==> claim_key(#[trigger] v[k]) != key,
        },
    decreases v.len() - i,
{
    if i < v.len() && claim_key(v[i]) != key {
        claim_absent(v, key, i + 1);
    }
}

proof fn entities_stay_distinct(v: Seq<EntityModel>, own: Seq<EntityModel>, index: int, n: int)
    requires
        entities_distinct(v),
    ensures
        entities_distinct(entities_with(v, own, index, n)),
    decreases n,
{
    if n > 0 {
        entities_stay_distinct(v, own, index, n - 1);
        let before = entities_with(v, own, index, n - 1);
        let key = json::rendered(own[n - 1].identity);
        if entity_at(before, key, 0) is None {
            entity_absent(before, key, 0);
        }
    }
}

proof fn claims_stay_distinct(
    v: Seq<ClaimModel>,
    own: Seq<ClaimModel>,
    names: Seq<(Seq<char>, Seq<char>)>,
    index: int,
    n: int,
)
    requires
        claims_distinct(v),
    ensures
        claims_distinct(claims_with(v, own, names, index, n)),
    decreases n,
{
    if n > 0 {
        claims_stay_distinct(v, own, names, index, n - 1);
        let before = claims_with(v, own, names, index, n - 1);
        let c = relinked(own[n - 1], names, index);
        let after = claims_plus(before, c);
        claim_absent(before, claim_key(c), 0);
        match claim_at(before, claim_key(c), 0) {
            Some(p) => {
                assert(claim_key(merged(before[p], c)) == claim_key(before[p]));
                assert forall|i: int| 0 <= i < after.len() implies claim_key(#[trigger] after[i])
                    == claim_key(before[i]) by {}
                assert forall|i: int, j: int| 0 <= i < j < after.len() implies claim_key(
                    #[trigger] after[i],
                ) != claim_key(#[trigger] after[j]) by {
                    assert(claim_key(before[i]) != claim_key(before[j]));
                }
            },
            None => {},
        }
    }
}

/// No entity and no claim stands twice in what answers are put together into.
pub proof fn merged_facts_are_distinct(outputs: Seq<FactOutput>, n: int)
    requires
        0 <= n <= outputs.len(),
    ensures
        entities_distinct(all_entities(outputs, n)),
        claims_distinct(all_claims(outputs, n)),
    decreases n,
{
    if n > 0 {
        merged_facts_are_distinct(outputs, n - 1);
        let entities = entity_models(outputs[n - 1].entities@);
        let claims = claim_models(outputs[n - 1].claims@);
        let before = all_entities(outputs, n - 1);
        entities_stay_distinct(before, entities, n - 1, entities.len() as int);
        claims_stay_distinct(
            all_claims(outputs, n - 1),
            claims,
            names_of(before, entities, n - 1, entities.len() as int),
            n - 1,
            claims.len() as int,
        );
    }
}

/// What a merged claim keeps of another: it is the same claim, with all of its
/// evidence, replacements and conflicts.
pub open spec fn covers(a: ClaimModel, c: ClaimModel) -> bool {
    &&& claim_key(a) == claim_key(c)
    &&& forall|x: Seq<char>| #[trigger] c.evidence.contains(x) ==> a.evidence.contains(x)
    &&& forall|x: Seq<char>| #[trigger] c.replaces.contains(x) ==> a.replaces.contains(x)
    &&& forall|x: Seq<char>| #[trigger] c.conflicts.contains(x) ==> a.conflicts.contains(x)
}

pub open spec fn covered(v: Seq<ClaimModel>, c: ClaimModel) -> bool {
    exists|p: int| 0 <= p < v.len() && covers(#[trigger] v[p], c)
}

proof fn union_holds_both(a: Seq<Seq<char>>, b: Seq<Seq<char>>)
    ensures
        forall|x: Seq<char>| #[trigger]
            a.contains(x) ==> text::distinct_sorted(a + b).contains(x),
        forall|x: Seq<char>| #[trigger]
            b.contains(x) ==> text::distinct_sorted(a + b).contains(x),
{
    assert forall|x: Seq<char>| #[trigger] a.contains(x) implies text::distinct_sorted(
        a + b,
    ).contains(x) by {
        let k = choose|k: int| 0 <= k < a.len() && a[k] == x;
        assert((a + b)[k] == x);
        text::distinct_sorted_keeps_elements(a + b, x);
    }
    assert forall|x: Seq<char>| #[trigger] b.contains(x) implies text::distinct_sorted(
        a + b,
    ).contains(x) by {
        let k = choose|k: int| 0 <= k < b.len() && b[k] == x;
        assert((a + b)[a.len() + k] == x);
        text::distinct_sorted_keeps_elements(a + b, x);
    }
}

proof fn merging_covers_both(a: ClaimModel, b: ClaimModel)
    requires
        claim_key(a) == claim_key(b),
    ensures
        covers(merged(a, b), a),
        covers(merged(a, b), b),
{
    union_holds_both(a.evidence, b.evidence);
    union_holds_both(a.replaces, b.replaces);
    union_holds_both(a.conflicts, b.conflicts);
    assert(claim_key(merged(a, b)) == claim_key(a));
}

/// A claim that is added is covered, and what was covered stays so.
proof fn adding_covers(v: Seq<ClaimModel>, c: ClaimModel, known: ClaimModel)
    ensures
        covered(claims_plus(v, c), c),
        covered(v, known) ==> covered(claims_plus(v, c), known),
{
    let after = claims_plus(v, c);
    claim_absent(v, claim_key(c), 0);
    match claim_at(v, claim_key(c), 0) {
        Some(p) => {
            merging_covers_both(v[p], c);
            assert(covers(after[p], c));
            if covered(v, known) {
                let q = choose|q: int| 0 <= q < v.len() && covers(#[trigger] v[q], known);
                if q == p {
                    assert(covers(after[p], known));
                } else {
                    assert(after[q] == v[q]);
                }
            }
        },
        None => {
            assert(after[v.len() as int] == c);
            if covered(v, known) {
                let q = choose|q: int| 0 <= q < v.len() && covers(#[trigger] v[q], known);
                assert(after[q] == v[q]);
            }
        },
    }
}

proof fn answers_cover_their_claims(
    v: Seq<ClaimModel>,
    own: Seq<ClaimModel>,
    names: Seq<(Seq<char>, Seq<char>)>,
    index: int,
    n: int,
    known: ClaimModel,
)
    requires
        0 <= n <= own.len(),
    ensures
        covered(v, known) ==> covered(claims_with(v, own, names, index, n), known),
        forall|i: int|
            0 <= i < n ==> covered(
                claims_with(v, own, names, index, n),
                relinked(#[trigger] own[i], names, index),
            ),
    decreases n,
{
    if n > 0 {
        let before = claims_with(v, own, names, index, n - 1);
        let c = relinked(own[n - 1], names, index);
        answers_cover_their_claims(v, own, names, index, n - 1, known);
        adding_covers(before, c, known);
        assert forall|i: int| 0 <= i < n implies covered(
            claims_with(v, own, names, index, n),
            relinked(#[trigger] own[i], names, index),
        ) by {
            adding_covers(before, c, relinked(own[i], names, index));
        }
    }
}

/// The claim at a position of an answer, with the names that it means there.
pub open spec fn claim_of(outputs: Seq<FactOutput>, k: int, i: int) -> ClaimModel {
    let entities = entity_models(outputs[k].entities@);
    relinked(
        claim_model(outputs[k].claims@[i]),
        names_of(all_entities(outputs, k), entities, k, entities.len() as int),
        k,
    )
}

/// Nothing that an answer claims is lost: every claim stands in some merged one,
/// with all of its evidence, replacements and conflicts.
pub proof fn merged_claims_keep_what_they_rest_on(
    outputs: Seq<FactOutput>,
    n: int,
    k: int,
    i: int,
)
    requires
        0 <= k < n <= outputs.len(),
        0 <= i < outputs[k].claims@.len(),
    ensures
        covered(all_claims(outputs, n), claim_of(outputs, k, i)),
    decreases n,
{
    let entities = entity_models(outputs[n - 1].entities@);
    let claims = claim_models(outputs[n - 1].claims@);
    let names = names_of(all_entities(outputs, n - 1), entities, n - 1, entities.len() as int);
    answers_cover_their_claims(
        all_claims(outputs, n - 1),
        claims,
        names,
        n - 1,
        claims.len() as int,
        claim_of(outputs, k, i),
    );
    if k < n - 1 {
        merged_claims_keep_what_they_rest_on(outputs, n - 1, k, i);
    } else {
        assert(claims[i] == claim_model(outputs[k].claims@[i]));
    }
}

proof fn global_names_are_marked(index: int, local: Seq<char>)
    ensures
        text::has_prefix(global_name(index, local), "local_f"@),
{
    assert(global_name(index, local).take("local_f"@.len() as int) =~= "local_f"@);
}

proof fn entity_names_are_marked(v: Seq<EntityModel>, own: Seq<EntityModel>, index: int, n: int)
    requires
        forall|i: int|
            0 <= i < v.len() ==> text::has_prefix((#[trigger] v[i]).local_id, "local_f"@),
    ensures
        forall|i: int|
            0 <= i < entities_with(v, own, index, n).len() ==> text::has_prefix(
                (#[trigger] entities_with(v, own, index, n)[i]).local_id,
                "local_f"@,
            ),
    decreases n,
{
    if n > 0 {
        entity_names_are_marked(v, own, index, n - 1);
        global_names_are_marked(index, own[n - 1].local_id);
    }
}

proof fn claim_names_are_marked(
    v: Seq<ClaimModel>,
    own: Seq<ClaimModel>,
    names: Seq<(Seq<char>, Seq<char>)>,
    index: int,
    n: int,
)
    requires
        forall|i: int|
            0 <= i < v.len() ==> text::has_prefix((#[trigger] v[i]).local_id, "local_f"@),
    ensures
        forall|i: int|
            0 <= i < claims_with(v, own, names, index, n).len() ==> text::has_prefix(
                (#[trigger] claims_with(v, own, names, index, n)[i]).local_id,
                "local_f"@,
            ),
    decreases n,
{
    if n > 0 {
        claim_names_are_marked(v, own, names, index, n - 1);
        global_names_are_marked(index, own[n - 1].local_id);
        let before = claims_with(v, own, names, index, n - 1);
        claim_absent(before, claim_key(relinked(own[n - 1], names, index)), 0);
    }
}

/// Every entity and every claim of a merged answer has a local name that begins
/// with `local_f`.
pub proof fn merged_names_are_marked(outputs: Seq<FactOutput>, n: int)
    requires
        0 <= n <= outputs.len(),
    ensures
        forall|i: int|
            0 <= i < all_entities(outputs, n).len() ==> text::has_prefix(
                (#[trigger] all_entities(outputs, n)[i]).local_id,
                "local_f"@,
            ),
        forall|i: int|
            0 <= i < all_claims(outputs, n).len() ==> text::has_prefix(
                (#[trigger] all_claims(outputs, n)[i]).local_id,
                "local_f"@,
            ),
    decreases n,
{
    if n > 0 {
        merged_names_are_marked(outputs, n - 1);
        let entities = entity_models(outputs[n - 1].entities@);
        let claims = claim_models(outputs[n - 1].claims@);
        let before = all_entities(outputs, n - 1);
        entity_names_are_marked(before, entities, n - 1, entities.len() as int);
        claim_names_are_marked(
            all_claims(outputs, n - 1),
            claims,
            names_of(before, entities, n - 1, entities.len() as int),
            n - 1,
            claims.len() as int,
        );
    }
}

proof fn entity_found(v: Seq<EntityModel>, key: Seq<char>, i: int)
    requires
        0 <= i,
    ensures
        entity_at(v, key, i) matches Some(p) ==> i <= p < v.len() && json::rendered(v[p].identity)
            == key,
    decreases v.len() - i,
{
    if i < v.len() && json::rendered(v[i].identity) != key {
        entity_found(v, key, i + 1);
    }
}

/// An entity of a list has an identity and a name.
pub open spec fn stands_as(v: Seq<EntityModel>, identity: JsonTree, name: Seq<char>) -> bool {
    exists|p: int|
        0 <= p < v.len() && json::rendered((#[trigger] v[p]).identity) == json::rendered(identity)
            && v[p].local_id == name
}

proof fn entities_stay(v: Seq<EntityModel>, own: Seq<EntityModel>, index: int, n: int)
    ensures
        v.len() <= entities_with(v, own, index, n).len(),
        entities_with(v, own, index, n).take(v.len() as int) == v,
    decreases n,
{
    let now = entities_with(v, own, index, n);
    if n <= 0 {
        assert(now.take(v.len() as int) =~= v);
    } else {
        entities_stay(v, own, index, n - 1);
        let before = entities_with(v, own, index, n - 1);
        assert(now.take(v.len() as int) =~= before.take(v.len() as int));
    }
}

proof fn names_find_entities(v: Seq<EntityModel>, own: Seq<EntityModel>, index: int, n: int, i: int)
    requires
        0 <= i < n <= own.len(),
    ensures
        names_of(v, own, index, n).len() == n,
        names_of(v, own, index, n)[i].0 == own[i].local_id,
        stands_as(
            entities_with(v, own, index, n),
            own[i].identity,
            names_of(v, own, index, n)[i].1,
        ),
    decreases n,
{
    let before = entities_with(v, own, index, n - 1);
    let now = entities_with(v, own, index, n);
    let key = json::rendered(own[n - 1].identity);
    entity_found(before, key, 0);
    names_are_as_many(v, own, index, n);
    let name = names_of(v, own, index, n)[i].1;
    if i < n - 1 {
        names_find_entities(v, own, index, n - 1, i);
        names_are_as_many(v, own, index, n - 1);
        let p = choose|p: int|
            0 <= p < before.len() && json::rendered((#[trigger] before[p]).identity)
                == json::rendered(own[i].identity) && before[p].local_id == name;
        assert(now[p] == before[p]);
    } else {
        match entity_at(before, key, 0) {
            Some(p) => {
                assert(now[p].local_id == name);
            },
            None => {
                assert(now[before.len() as int].local_id == name);
            },
        }
    }
}

proof fn names_are_as_many(v: Seq<EntityModel>, own: Seq<EntityModel>, index: int, n: int)
    requires
        0 <= n,
    ensures
        names_of(v, own, index, n).len() == n,
    decreases n,
{
    if n > 0 {
        names_are_as_many(v, own, index, n - 1);
    }
}

proof fn last_name_counts(names: Seq<(Seq<char>, Seq<char>)>, i: int)
    requires
        0 <= i < names.len(),
        forall|j: int| i < j < names.len() ==> (#[trigger] names[j]).0 != names[i].0,
    ensures
        meant(names, names[i].0) == names[i].1,
    decreases names.len(),
{
    if i < names.len() - 1 {
        assert(names[names.len() - 1].0 != names[i].0);
        assert forall|j: int| i < j < names.drop_last().len() implies (
        #[trigger] names.drop_last()[j]).0 != names.drop_last()[i].0 by {
            assert(names[j].0 != names[i].0);
        }
        last_name_counts(names.drop_last(), i);
    }
}

/// What the names of the answer at a position stand for.
pub open spec fn names_in(outputs: Seq<FactOutput>, k: int) -> Seq<(Seq<char>, Seq<char>)> {
    let entities = entity_models(outputs[k].entities@);
    names_of(all_entities(outputs, k), entities, k, entities.len() as int)
}

/// A name that an answer gives an entity still means an entity of that identity
/// when the answers are put together.
pub proof fn names_keep_their_entities(outputs: Seq<FactOutput>, n: int, k: int, i: int)
    requires
        0 <= k < n <= outputs.len(),
        0 <= i < outputs[k].entities@.len(),
        forall|j: int|
            i < j < outputs[k].entities@.len() ==> (#[trigger] outputs[k].entities@[j]).local_id@
                != outputs[k].entities@[i].local_id@,
    ensures
        stands_as(
            all_entities(outputs, n),
            json::tree(outputs[k].entities@[i].identity),
            meant(names_in(outputs, k), outputs[k].entities@[i].local_id@),
        ),
    decreases n,
{
    let own = entity_models(outputs[k].entities@);
    let m = own.len() as int;
    let before = all_entities(outputs, k);
    let names = names_in(outputs, k);
    if k == n - 1 {
        names_find_entities(before, own, k, m, i);
        assert forall|j: int| i < j < names.len() implies (#[trigger] names[j]).0 != names[i].0 by {
            names_find_entities(before, own, k, m, j);
            assert(own[j].local_id == outputs[k].entities@[j].local_id@);
        }
        last_name_counts(names, i);
    } else {
        names_keep_their_entities(outputs, n - 1, k, i);
        let more = entity_models(outputs[n - 1].entities@);
        let shorter = all_entities(outputs, n - 1);
        let longer = all_entities(outputs, n);
        entities_stay(shorter, more, n - 1, more.len() as int);
        let name = meant(names, outputs[k].entities@[i].local_id@);
        let p = choose|p: int|
            0 <= p < shorter.len() && json::rendered((#[trigger] shorter[p]).identity)
                == json::rendered(json::tree(outputs[k].entities@[i].identity))
                && shorter[p].local_id == name;
        assert(longer.take(shorter.len() as int)[p] == longer[p]);
    }
}

/// Some claim of the first `n` answers is the same and gives a piece of evidence,
/// a replacement or a conflict.
pub open spec fn given_by(
    outputs: Seq<FactOutput>,
    n: int,
    key: Seq<char>,
    pick: spec_fn(ClaimModel) -> Seq<Seq<char>>,
    x: Seq<char>,
) -> bool {
    exists|k: int, i: int|
        0 <= k < n && 0 <= i < outputs[k].claims@.len() && claim_key(
            #[trigger] claim_of(outputs, k, i),
        ) == key && pick(claim_of(outputs, k, i)).contains(x)
}

spec fn only_given(
    outputs: Seq<FactOutput>,
    n: int,
    v: Seq<ClaimModel>,
    pick: spec_fn(ClaimModel) -> Seq<Seq<char>>,
) -> bool {
    forall|p: int, x: Seq<char>|
        #![trigger pick(v[p]).contains(x)]
        0 <= p < v.len() && pick(v[p]).contains(x) ==> given_by(
            outputs,
            n,
            claim_key(v[p]),
            pick,
            x,
        )
}

spec fn joins_lists(pick: spec_fn(ClaimModel) -> Seq<Seq<char>>) -> bool {
    forall|a: ClaimModel, b: ClaimModel|
        #![trigger pick(merged(a, b))]
        pick(merged(a, b)) == text::distinct_sorted(pick(a) + pick(b))
}

proof fn claims_stay_given(
    outputs: Seq<FactOutput>,
    k: int,
    m: int,
    v: Seq<ClaimModel>,
    pick: spec_fn(ClaimModel) -> Seq<Seq<char>>,
)
    requires
        0 <= k < outputs.len(),
        0 <= m <= outputs[k].claims@.len(),
        joins_lists(pick),
        only_given(outputs, k + 1, v, pick),
    ensures
        only_given(
            outputs,
            k + 1,
            claims_with(v, claim_models(outputs[k].claims@), names_in(outputs, k), k, m),
            pick,
        ),
    decreases m,
{
    if m > 0 {
        claims_stay_given(outputs, k, m - 1, v, pick);
        let own = claim_models(outputs[k].claims@);
        let names = names_in(outputs, k);
        let before = claims_with(v, own, names, k, m - 1);
        let now = claims_with(v, own, names, k, m);
        let c = relinked(own[m - 1], names, k);
        assert(c == claim_of(outputs, k, m - 1));
        claim_absent(before, claim_key(c), 0);
        assert forall|p: int, x: Seq<char>|
            #![trigger pick(now[p]).contains(x)]
            0 <= p < now.len() && pick(now[p]).contains(x) implies given_by(
            outputs,
            k + 1,
            claim_key(now[p]),
            pick,
            x,
        ) by {
            let at = claim_at(before, claim_key(c), 0);
            if at is Some && p == at->0 {
                let old = before[p];
                let both = pick(old) + pick(c);
                assert(now[p] == merged(old, c));
                text::distinct_sorted_keeps_elements(both, x);
                let q = choose|q: int| 0 <= q < both.len() && both[q] == x;
                assert(claim_key(now[p]) == claim_key(old));
                if q < pick(old).len() {
                    assert(pick(old)[q] == x);
                    assert(pick(before[p]).contains(x));
                } else {
                    assert(pick(c)[q - pick(old).len()] == x);
                    assert(claim_key(claim_of(outputs, k, m - 1)) == claim_key(now[p]));
                }
            } else if p < before.len() {
                assert(now[p] == before[p]);
                assert(pick(before[p]).contains(x));
            } else {
                assert(now[p] == c);
                assert(claim_key(claim_of(outputs, k, m - 1)) == claim_key(now[p]));
            }
        }
    }
}

proof fn merged_lists_are_given(
    outputs: Seq<FactOutput>,
    n: int,
    pick: spec_fn(ClaimModel) -> Seq<Seq<char>>,
)
    requires
        0 <= n <= outputs.len(),
        joins_lists(pick),
    ensures
        only_given(outputs, n, all_claims(outputs, n), pick),
    decreases n,
{
    if n > 0 {
        merged_lists_are_given(outputs, n - 1, pick);
        let before = all_claims(outputs, n - 1);
        assert forall|p: int, x: Seq<char>|
            #![trigger pick(before[p]).contains(x)]
            0 <= p < before.len() && pick(before[p]).contains(x) implies given_by(
            outputs,
            n,
            claim_key(before[p]),
            pick,
            x,
        ) by {
            assert(given_by(outputs, n - 1, claim_key(before[p]), pick, x));
            let (k, i) = choose|k: int, i: int|
                0 <= k < n - 1 && 0 <= i < outputs[k].claims@.len() && claim_key(
                    #[trigger] claim_of(outputs, k, i),
                ) == claim_key(before[p]) && pick(claim_of(outputs, k, i)).contains(x);
            assert(claim_key(claim_of(outputs, k, i)) == claim_key(before[p]));
        }
        claims_stay_given(outputs, n - 1, outputs[n - 1].claims@.len() as int, before, pick);
    }
}

/// Nothing is made up: what a merged claim rests on, replaces or conflicts with
/// comes from an answer with the same claim.
pub proof fn merged_claims_rest_on_answers(outputs: Seq<FactOutput>, n: int, p: int, x: Seq<char>)
    requires
        0 <= n <= outputs.len(),
        0 <= p < all_claims(outputs, n).len(),
    ensures
        ({
            let c = all_claims(outputs, n)[p];
            &&& c.evidence.contains(x) ==> given_by(
                outputs,
                n,
                claim_key(c),
                |a: ClaimModel| a.evidence,
                x,
            )
            &&& c.replaces.contains(x) ==> given_by(
                outputs,
                n,
                claim_key(c),
                |a: ClaimModel| a.replaces,
                x,
            )
            &&& c.conflicts.contains(x) ==> given_by(
                outputs,
                n,
                claim_key(c),
                |a: ClaimModel| a.conflicts,
                x,
            )
        }),
{
    let c = all_claims(outputs, n)[p];
    let evidence = |a: ClaimModel| a.evidence;
    let replaces = |a: ClaimModel| a.replaces;
    let conflicts = |a: ClaimModel| a.conflicts;
    merged_lists_are_given(outputs, n, evidence);
    merged_lists_are_given(outputs, n, replaces);
    merged_lists_are_given(outputs, n, conflicts);
    assert(c.evidence.contains(x) ==> evidence(all_claims(outputs, n)[p]).contains(x));
    assert(c.replaces.contains(x) ==> replaces(all_claims(outputs, n)[p]).contains(x));
    assert(c.conflicts.contains(x) ==> conflicts(all_claims(outputs, n)[p]).contains(x));
}

} // verus!
