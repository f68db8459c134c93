//! The query tools: one module per query kind.
//!
//! Each tool owns its argument struct (with the defaults the tool applies
//! when an argument is omitted), its typed result, the snippet it sends, and
//! a verified decoder and encoder for the transport's text form of that
//! result.

use vstd::prelude::*;

pub mod assemblers;
pub mod entities;
pub mod furnaces;
pub mod inventory;
pub mod position;
pub mod power;
pub mod production;
pub mod recipe;
pub mod research;
pub mod resources;

verus! {

/// Prefix form of an optional decoded list, used by the decoders' loops.
pub open spec fn sp_prepend_list<T>(prefix: Seq<T>, r: Option<Seq<T>>) -> Option<Seq<T>> {
    match r {
        None => None,
        Some(rest) => Some(prefix + rest),
    }
}

} // verus!

use crate::json;
use crate::json::JsonSpec;
use crate::json::JsonValue;

verus! {

/// What a query tool declares to the assistant: an invocable name, a
/// human-readable description, and a schema for its arguments.
pub struct ToolSpec {
    pub name: String,
    pub description: String,
    pub parameters: JsonValue,
}

/// The schema of a tool that takes no arguments.
pub open spec fn sp_schema_no_args() -> JsonSpec {
    JsonSpec::Obj(
        seq![
            ("type"@, JsonSpec::Str("object"@)),
            ("properties"@, JsonSpec::Obj(Seq::empty())),
        ],
    )
}

/// The schema of a tool with one optional integer argument.
pub open spec fn sp_schema_opt_int(key: Seq<char>, desc: Seq<char>) -> JsonSpec {
    JsonSpec::Obj(
        seq![
            ("type"@, JsonSpec::Str("object"@)),
            (
                "properties"@,
                JsonSpec::Obj(
                    seq![
                        (
                            key,
                            JsonSpec::Obj(
                                seq![
                                    ("type"@, JsonSpec::Str("integer"@)),
                                    ("description"@, JsonSpec::Str(desc)),
                                ],
                            ),
                        ),
                    ],
                ),
            ),
        ],
    )
}

/// The schema of a tool with one required string argument.
pub open spec fn sp_schema_req_str(key: Seq<char>, desc: Seq<char>) -> JsonSpec {
    JsonSpec::Obj(
        seq![
            ("type"@, JsonSpec::Str("object"@)),
            (
                "properties"@,
                JsonSpec::Obj(
                    seq![
                        (
                            key,
                            JsonSpec::Obj(
                                seq![
                                    ("type"@, JsonSpec::Str("string"@)),
                                    ("description"@, JsonSpec::Str(desc)),
                                ],
                            ),
                        ),
                    ],
                ),
            ),
            ("required"@, JsonSpec::Arr(seq![JsonSpec::Str(key)])),
        ],
    )
}

/// Build the no-argument schema.
pub fn schema_no_args() -> (r: JsonValue)
    ensures
        json::model_of(r) == sp_schema_no_args(),
        json::wf_json(json::model_of(r)),
{
    let inner: Vec<(String, JsonValue)> = Vec::new();
    proof {
        json::lemma_model_of_obj(inner);
        assert(json::member_models_of(inner@) =~= Seq::<(Seq<char>, JsonSpec)>::empty());
    }
    let props = JsonValue::Obj(inner);
    let mut pairs: Vec<(String, JsonValue)> = Vec::new();
    pairs.push((String::from_str("type"), JsonValue::Str(String::from_str("object"))));
    pairs.push((String::from_str("properties"), props));
    proof {
        json::lemma_model_of_obj(pairs);
        assert(json::member_models_of(pairs@) =~= sp_schema_no_args()->Obj_0);
        let mm = json::member_models_of(pairs@);
        assert(json::wf_json(mm[0].1));
        assert(json::wf_json(mm[1].1));
        assert(json::wf_json_members(mm, 2));
        assert(json::wf_json_members(mm, 1));
        assert(json::wf_json_members(mm, 0));
    }
    JsonValue::Obj(pairs)
}

fn schema_one_key(key: &str, kind: &str, desc: &str) -> (r: JsonValue)
    ensures
        json::model_of(r) == JsonSpec::Obj(
            seq![
                ("type"@, JsonSpec::Str("object"@)),
                (
                    "properties"@,
                    JsonSpec::Obj(
                        seq![
                            (
                                key@,
                                JsonSpec::Obj(
                                    seq![
                                        ("type"@, JsonSpec::Str(kind@)),
                                        ("description"@, JsonSpec::Str(desc@)),
                                    ],
                                ),
                            ),
                        ],
                    ),
                ),
            ],
        ),
        json::wf_json(json::model_of(r)),
{
    let mut field: Vec<(String, JsonValue)> = Vec::new();
    field.push((String::from_str("type"), JsonValue::Str(String::from_str(kind))));
    field.push((String::from_str("description"), JsonValue::Str(String::from_str(desc))));
    proof {
        json::lemma_model_of_obj(field);
        let fm = json::member_models_of(field@);
        assert(fm =~= seq![
            ("type"@, JsonSpec::Str(kind@)),
            ("description"@, JsonSpec::Str(desc@)),
        ]);
        assert(json::wf_json(fm[0].1));
        assert(json::wf_json(fm[1].1));
        assert(json::wf_json_members(fm, 2));
        assert(json::wf_json_members(fm, 1));
        assert(json::wf_json_members(fm, 0));
    }
    let field_obj = JsonValue::Obj(field);
    let mut inner: Vec<(String, JsonValue)> = Vec::new();
    inner.push((String::from_str(key), field_obj));
    proof {
        json::lemma_model_of_obj(inner);
        let im = json::member_models_of(inner@);
        assert(im =~= seq![
            (
                key@,
                JsonSpec::Obj(
                    seq![
                        ("type"@, JsonSpec::Str(kind@)),
                        ("description"@, JsonSpec::Str(desc@)),
                    ],
                ),
            ),
        ]);
        assert(json::wf_json(im[0].1));
        assert(json::wf_json_members(im, 1));
        assert(json::wf_json_members(im, 0));
    }
    let props = JsonValue::Obj(inner);
    let mut pairs: Vec<(String, JsonValue)> = Vec::new();
    pairs.push((String::from_str("type"), JsonValue::Str(String::from_str("object"))));
    pairs.push((String::from_str("properties"), props));
    proof {
        json::lemma_model_of_obj(pairs);
        let mm = json::member_models_of(pairs@);
        assert(mm =~= seq![
            ("type"@, JsonSpec::Str("object"@)),
            (
                "properties"@,
                JsonSpec::Obj(
                    seq![
                        (
                            key@,
                            JsonSpec::Obj(
                                seq![
                                    ("type"@, JsonSpec::Str(kind@)),
                                    ("description"@, JsonSpec::Str(desc@)),
                                ],
                            ),
                        ),
                    ],
                ),
            ),
        ]);
        assert(json::wf_json(mm[0].1));
        assert(json::wf_json(mm[1].1));
        assert(json::wf_json_members(mm, 2));
        assert(json::wf_json_members(mm, 1));
        assert(json::wf_json_members(mm, 0));
    }
    JsonValue::Obj(pairs)
}

/// Build a schema with one optional integer argument.
pub fn schema_opt_int(key: &str, desc: &str) -> (r: JsonValue)
    ensures
        json::model_of(r) == sp_schema_opt_int(key@, desc@),
        json::wf_json(json::model_of(r)),
{
    let r = schema_one_key(key, "integer", desc);
    proof {
        let got = json::model_of(r)->Obj_0;
        let want = sp_schema_opt_int(key@, desc@)->Obj_0;
        assert(got =~= want);
    }
    r
}

/// Build a schema with one required string argument.
pub fn schema_req_str(key: &str, desc: &str) -> (r: JsonValue)
    ensures
        json::model_of(r) == sp_schema_req_str(key@, desc@),
        json::wf_json(json::model_of(r)),
{
    let base = schema_one_key(key, "string", desc);
    let mut req_items: Vec<JsonValue> = Vec::new();
    req_items.push(JsonValue::Str(String::from_str(key)));
    proof {
        json::lemma_model_of_arr(req_items);
        assert(json::models_of(req_items@) =~= seq![JsonSpec::Str(key@)]);
        assert(json::wf_json(json::models_of(req_items@)[0]));
        assert(json::wf_json_list(json::models_of(req_items@), 1));
        assert(json::wf_json_list(json::models_of(req_items@), 0));
    }
    let req = JsonValue::Arr(req_items);
    let ghost base_model = json::model_of(base);
    match base {
        JsonValue::Obj(mut pairs) => {
            let ghost base_models = json::member_models_of(pairs@);
            proof {
                json::lemma_model_of_obj(pairs);
                assert(base_model == JsonSpec::Obj(base_models));
                json::lemma_wf_obj_elem(base_models, 0);
                json::lemma_wf_obj_elem(base_models, 1);
            }
            pairs.push((String::from_str("required"), req));
            proof {
                json::lemma_model_of_obj(pairs);
                let mm = json::member_models_of(pairs@);
                assert(mm =~= base_models.push(
                    ("required"@, JsonSpec::Arr(seq![JsonSpec::Str(key@)])),
                ));
                assert(mm =~= sp_schema_req_str(key@, desc@)->Obj_0);
                assert(json::wf_json(mm[0].1));
                assert(json::wf_json(mm[1].1));
                assert(json::wf_json(mm[2].1));
                assert(json::wf_json_members(mm, 3));
                assert(json::wf_json_members(mm, 2));
                assert(json::wf_json_members(mm, 1));
                assert(json::wf_json_members(mm, 0));
            }
            JsonValue::Obj(pairs)
        },
        _ => {
            proof {
                assert(false);
            }
            base
        },
    }
}

} // verus!
