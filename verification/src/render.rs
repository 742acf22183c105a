//! Shared helpers for rendering resource documents.

use vstd::prelude::*;

use crate::json::JsonV;
use crate::json::JsonValue;
use crate::json::entries_push;
use crate::json::lemma_model_obj;
use crate::json::obj1;
use crate::json::obj_has_key;

verus! {

/// Appends a string entry when the value is present.
pub open spec fn opt_entry_str(
    es: Seq<(Seq<char>, JsonV)>,
    key: Seq<char>,
    v: Option<String>,
) -> Seq<(Seq<char>, JsonV)> {
    match v {
        Option::Some(s) => es.push((key, JsonV::Str(s@))),
        Option::None => es,
    }
}

/// Appends an integer entry when the value is present.
pub open spec fn opt_entry_u32(
    es: Seq<(Seq<char>, JsonV)>,
    key: Seq<char>,
    v: Option<u32>,
) -> Seq<(Seq<char>, JsonV)> {
    match v {
        Option::Some(d) => es.push((key, JsonV::Int(d as int))),
        Option::None => es,
    }
}

/// Appends a boolean entry when the value is present.
pub open spec fn opt_entry_bool(
    es: Seq<(Seq<char>, JsonV)>,
    key: Seq<char>,
    v: Option<bool>,
) -> Seq<(Seq<char>, JsonV)> {
    match v {
        Option::Some(b) => es.push((key, JsonV::Bool(b))),
        Option::None => es,
    }
}

/// Appends a string entry when the value is present.
pub fn push_opt_str(es: &mut Vec<(String, JsonValue)>, key: &str, v: &Option<String>)
    ensures
        JsonValue::model_obj(final(es)@) == opt_entry_str(
            JsonValue::model_obj(old(es)@),
            key@,
            *v,
        ),
{
    match v {
        Option::Some(s) => entries_push(es, key, JsonValue::Str(s.clone())),
        Option::None => {},
    }
}

/// Appends an integer entry when the value is present.
pub fn push_opt_u32(es: &mut Vec<(String, JsonValue)>, key: &str, v: &Option<u32>)
    ensures
        JsonValue::model_obj(final(es)@) == opt_entry_u32(
            JsonValue::model_obj(old(es)@),
            key@,
            *v,
        ),
{
    match v {
        Option::Some(d) => entries_push(es, key, JsonValue::Int(*d as i64)),
        Option::None => {},
    }
}

/// Appends a boolean entry when the value is present.
pub fn push_opt_bool(es: &mut Vec<(String, JsonValue)>, key: &str, v: &Option<bool>)
    ensures
        JsonValue::model_obj(final(es)@) == opt_entry_bool(
            JsonValue::model_obj(old(es)@),
            key@,
            *v,
        ),
{
    match v {
        Option::Some(b) => entries_push(es, key, JsonValue::Bool(*b)),
        Option::None => {},
    }
}

/// Wraps one resource body:
/// `{ "resource": { <res_type>: { <name>: <body> } } }`.
pub fn wrap_resource(res_type: &str, name: &String, body: JsonValue) -> (r: JsonValue)
    ensures
        r@ == JsonV::Obj(
            seq![
                (
                    "resource"@,
                    JsonV::Obj(seq![(res_type@, JsonV::Obj(seq![(name@, body@)]))]),
                ),
            ],
        ),
{
    let ghost bodyv = body@;
    let mut inner: Vec<(String, JsonValue)> = Vec::new();
    inner.push((name.clone(), body));
    proof {
        lemma_model_obj(inner@);
        assert(JsonValue::model_obj(inner@) =~= seq![(name@, bodyv)]);
    }
    obj1("resource", obj1(res_type, JsonValue::Obj(inner)))
}


/// The properties of a loosely-typed resource, given a best-effort "name"
/// entry when the declaration names neither an identifying key nor a
/// "name" key.
pub open spec fn named_props_spec(
    props: Seq<(Seq<char>, JsonV)>,
    name: Seq<char>,
    bucket_counts: bool,
) -> Seq<(Seq<char>, JsonV)> {
    if obj_has_key(props, "name"@) || (bucket_counts && obj_has_key(props, "bucket"@)) {
        props
    } else {
        props.push(("name"@, JsonV::Str(name)))
    }
}

/// Whether some entry of the list carries `key`.
#[verifier::loop_isolation(false)]
pub fn entries_contains_key(entries: &Vec<(String, JsonValue)>, key: &str) -> (r: bool)
    ensures
        r == obj_has_key(JsonValue::model_obj(entries@), key@),
{
    proof {
        lemma_model_obj(entries@);
    }
    let ghost es = JsonValue::model_obj(entries@);
    let keys: String = key.to_owned();
    let mut i: usize = 0;
    while i < entries.len()
        invariant
            0 <= i <= entries@.len(),
            forall|j: int| 0 <= j < i ==> (#[trigger] es[j]).0 != key@,
        decreases entries@.len() - i,
    {
        if entries[i].0.eq(&keys) {
            proof {
                assert(es[i as int].0 == key@);
            }
            return true;
        }
        i += 1;
    }
    proof {
        if obj_has_key(es, key@) {
            let w = choose|w: int| 0 <= w < es.len() && (#[trigger] es[w]).0 == key@;
            assert(es[w].0 != key@);
        }
    }
    false
}

/// A deep copy of an entry list with the same model.
pub fn entries_clone(entries: &Vec<(String, JsonValue)>) -> (r: Vec<(String, JsonValue)>)
    ensures
        JsonValue::model_obj(r@) == JsonValue::model_obj(entries@),
{
    let mut out: Vec<(String, JsonValue)> = Vec::new();
    let mut i: usize = 0;
    while i < entries.len()
        invariant
            0 <= i <= entries@.len(),
            out@.len() == i,
            forall|j: int|
                0 <= j < i ==> out@[j].0@ == entries@[j].0@ && out@[j].1@ == entries@[j].1@,
        decreases entries@.len() - i,
    {
        let (k, v) = &entries[i];
        out.push((k.clone(), crate::json::json_clone(v)));
        i += 1;
    }
    proof {
        lemma_model_obj(out@);
        lemma_model_obj(entries@);
        assert(JsonValue::model_obj(out@) =~= JsonValue::model_obj(entries@));
    }
    out
}

/// Renders a loosely-typed resource:
/// `{ "resource": { <res_type>: { <name>: <props'> } } }` where the
/// properties gain a best-effort "name" entry as `named_props_spec` says.
pub fn any_resource_doc(
    res_type: &str,
    name: &String,
    properties: &Vec<(String, JsonValue)>,
    bucket_counts: bool,
) -> (r: JsonValue)
    ensures
        r@ == JsonV::Obj(
            seq![
                (
                    "resource"@,
                    JsonV::Obj(
                        seq![
                            (
                                res_type@,
                                JsonV::Obj(
                                    seq![
                                        (
                                            name@,
                                            JsonV::Obj(
                                                named_props_spec(
                                                    JsonValue::model_obj(properties@),
                                                    name@,
                                                    bucket_counts,
                                                ),
                                            ),
                                        ),
                                    ],
                                ),
                            ),
                        ],
                    ),
                ),
            ],
        ),
{
    let mut props = entries_clone(properties);
    let has_name = entries_contains_key(&props, "name");
    let has_bucket = bucket_counts && entries_contains_key(&props, "bucket");
    if !has_name && !has_bucket {
        entries_push(&mut props, "name", JsonValue::Str(name.clone()));
    }
    wrap_resource(res_type, name, JsonValue::Obj(props))
}

} // verus!
