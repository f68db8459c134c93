//! The nearby-entities query: player-relevant structures near the player,
//! capped at fifty, with resource deposits and vegetation filtered out.

use vstd::prelude::*;

use crate::error::SenseiError;
use crate::json;
use crate::json::Decimal;
use crate::json::JsonSpec;
use crate::json::JsonValue;
use crate::json::NumSpec;
use crate::lua;
use crate::tools::sp_prepend_list;

verus! {

/// Arguments of this query.
#[derive(Debug)]
pub struct GetNearbyEntitiesArgs {
    /// Defaults to 20 when omitted.
    pub radius: Option<u64>,
}

/// The value of the optional argument after the default is applied.
pub open spec fn spec_radius_of(args: GetNearbyEntitiesArgs) -> u64 {
    if args.radius is Some {
        args.radius.unwrap()
    } else {
        20
    }
}

/// One decoded record of this query's result.
#[derive(Debug, PartialEq)]
pub struct NearbyEntity {
    pub name: String,
    pub kind: String,
    pub x: Decimal,
    pub y: Decimal,
}

/// The full result: the decoded records, in the order the snippet emitted
/// them.
#[derive(Debug, PartialEq)]
pub struct NearbyEntities {
    pub entities: Vec<NearbyEntity>,
}

pub ghost struct EntityModel {
    pub name: Seq<char>,
    pub kind: Seq<char>,
    pub x: NumSpec,
    pub y: NumSpec,
}

impl NearbyEntity {
    pub open spec fn model(&self) -> EntityModel {
        EntityModel { name: self.name@, kind: self.kind@, x: self.x.model(), y: self.y.model() }
    }

    pub open spec fn wf(&self) -> bool {
        json::wf_num(self.x.model()) && json::wf_num(self.y.model())
    }
}

pub open spec fn entities_models(v: Seq<NearbyEntity>) -> Seq<EntityModel> {
    Seq::new(
        v.len(),
        |i: int|
            if 0 <= i < v.len() {
                v[i].model()
            } else {
                arbitrary()
            },
    )
}

impl NearbyEntities {
    pub open spec fn model(&self) -> Seq<EntityModel> {
        entities_models(self.entities@)
    }
}

pub open spec fn sp_decode_entities_rec(m: JsonSpec) -> Option<EntityModel> {
    if json::sp_get_str(m, "name"@) is Some && json::sp_get_str(m, "type"@) is Some && json::sp_get_num(m, "x"@) is Some && json::sp_get_num(m, "y"@) is Some {
        Some(EntityModel { name: json::sp_get_str(m, "name"@).unwrap(), kind: json::sp_get_str(m, "type"@).unwrap(), x: json::sp_get_num(m, "x"@).unwrap(), y: json::sp_get_num(m, "y"@).unwrap() })
    } else {
        None
    }
}

pub open spec fn sp_decode_entities_list(ms: Seq<JsonSpec>) -> Option<Seq<EntityModel>>
    decreases ms.len(),
{
    if ms.len() == 0 {
        Some(Seq::empty())
    } else {
        match sp_decode_entities_rec(ms[0]) {
            None => None,
            Some(im) => match sp_decode_entities_list(ms.skip(1)) {
                None => None,
                Some(rest) => Some(seq![im] + rest),
            },
        }
    }
}

pub open spec fn sp_decode_entities(m: JsonSpec) -> Option<Seq<EntityModel>> {
    match json::sp_get_items(m, "entities"@) {
        None => None,
        Some(ms) => sp_decode_entities_list(ms),
    }
}

pub open spec fn sp_encode_entities_rec(rm: EntityModel) -> JsonSpec {
    JsonSpec::Obj(
        seq![
            ("name"@, JsonSpec::Str(rm.name)),
            ("type"@, JsonSpec::Str(rm.kind)),
            ("x"@, JsonSpec::Num(rm.x)),
            ("y"@, JsonSpec::Num(rm.y)),
        ],
    )
}

pub open spec fn sp_encode_entities_list(rms: Seq<EntityModel>) -> Seq<JsonSpec> {
    Seq::new(
        rms.len(),
        |i: int|
            if 0 <= i < rms.len() {
                sp_encode_entities_rec(rms[i])
            } else {
                JsonSpec::Null
            },
    )
}

pub open spec fn sp_encode_entities(rms: Seq<EntityModel>) -> JsonSpec {
    JsonSpec::Obj(seq![("entities"@, JsonSpec::Arr(sp_encode_entities_list(rms)))])
}

/// The snippet this query sends, with the default applied to an omitted
/// argument.
pub fn snippet_for(args: &GetNearbyEntitiesArgs) -> (r: String)
    ensures
        r@ == lua::spec_snippet(lua::QueryKind::Entities, Seq::empty(), spec_radius_of(*args) as nat),
{
    let v: u64 = match args.radius {
        Some(x) => x,
        None => 20,
    };
    lua::nearby_entities(v)
}

fn decode_rec(v: &JsonValue) -> (r: Option<NearbyEntity>)
    ensures
        match r {
            Some(it) => sp_decode_entities_rec(json::model_of(*v)) == Some(it.model())
                && (json::wf_json(json::model_of(*v)) ==> it.wf()),
            None => sp_decode_entities_rec(json::model_of(*v)) is None,
        },
{
    let name = v.get_str_field("name");
    let kind = v.get_str_field("type");
    let x = v.get_num_field("x");
    let y = v.get_num_field("y");
    match (name, kind, x, y) {
        (Some(name), Some(kind), Some(x), Some(y)) => {
            proof {
                if json::wf_json(json::model_of(*v)) {
                json::lemma_wf_get(json::model_of(*v), "x"@);
                json::lemma_wf_get(json::model_of(*v), "y"@);
                }
            }
            Some(NearbyEntity { name, kind, x, y })
        },
        _ => None,
    }
}

fn decode_rec_list(items: &Vec<JsonValue>) -> (r: Option<Vec<NearbyEntity>>)
    requires
        json::wf_json_list(json::models_of(items@), 0),
    ensures
        match r {
            Some(out) => sp_decode_entities_list(json::models_of(items@)) == Some(
                entities_models(out@),
            ) && (forall|k: int| 0 <= k < out@.len() ==> (#[trigger] out@[k]).wf()),
            None => sp_decode_entities_list(json::models_of(items@)) is None,
        },
{
    let ghost ms = json::models_of(items@);
    let n = items.len();
    let mut out: Vec<NearbyEntity> = Vec::new();
    let mut i: usize = 0;
    proof {
        assert(ms.skip(0) =~= ms);
        assert(entities_models(out@) =~= Seq::<EntityModel>::empty());
        if sp_decode_entities_list(ms) is Some {
            let rest = sp_decode_entities_list(ms).unwrap();
            assert(Seq::<EntityModel>::empty() + rest =~= rest);
        }
    }
    while i < n
        invariant
            n == items@.len(),
            i <= n,
            ms == json::models_of(items@),
            json::wf_json_list(ms, 0),
            sp_decode_entities_list(ms) == sp_prepend_list(
                entities_models(out@),
                sp_decode_entities_list(ms.skip(i as int)),
            ),
            forall|k: int| 0 <= k < out@.len() ==> (#[trigger] out@[k]).wf(),
        decreases n - i,
    {
        proof {
            assert(ms.skip(i as int)[0] == ms[i as int]);
            assert(ms[i as int] == json::model_of(items@[i as int]));
            assert(ms.skip(i as int).skip(1) =~= ms.skip(i as int + 1));
            assert(json::wf_json(JsonSpec::Arr(ms)));
            json::lemma_wf_arr_elem(ms, i as int);
        }
        match decode_rec(&items[i]) {
            None => {
                return None;
            },
            Some(it) => {
                let ghost old_out = out@;
                out.push(it);
                proof {
                    assert(entities_models(out@) =~= entities_models(old_out).push(
                        it.model(),
                    ));
                    let x = sp_decode_entities_list(ms.skip(i as int + 1));
                    if x is Some {
                        let rest = x.unwrap();
                        assert(entities_models(old_out) + (seq![it.model()] + rest)
                            =~= entities_models(out@) + rest);
                    }
                }
                i = i + 1;
            },
        }
    }
    proof {
        assert(ms.skip(n as int) =~= Seq::<JsonSpec>::empty());
        assert(entities_models(out@) + Seq::<EntityModel>::empty() =~= entities_models(
            out@,
        ));
    }
    Some(out)
}

/// Decode a transport response into this query's typed result.
pub fn parse_entities(s: &str) -> (r: Result<NearbyEntities, SenseiError>)
    ensures
        match r {
            Ok(p) => json::sp_json(s@) is Some && sp_decode_entities(
                json::sp_json(s@).unwrap(),
            ) == Some(p.model()) && (forall|k: int|
                0 <= k < p.entities@.len() ==> (#[trigger] p.entities@[k]).wf()),
            Err(e) => match e {
                SenseiError::JsonParse(msg) => (json::sp_json(s@) is None && msg@
                    == "malformed transport text"@) || (json::sp_json(s@) is Some
                    && sp_decode_entities(json::sp_json(s@).unwrap()) is None && msg@
                    == "response shape mismatch"@),
                _ => false,
            },
        },
{
    match json::parse_json(s) {
        None => Err(SenseiError::JsonParse(String::from_str("malformed transport text"))),
        Some(jv) => {
            match jv.get_items_field("entities") {
                None => Err(
                    SenseiError::JsonParse(String::from_str("response shape mismatch")),
                ),
                Some(items) => {
                    proof {
                        json::lemma_wf_get(json::model_of(jv), "entities"@);
                    }
                    match decode_rec_list(items) {
                        None => Err(
                            SenseiError::JsonParse(
                                String::from_str("response shape mismatch"),
                            ),
                        ),
                        Some(out) => Ok(NearbyEntities { entities: out }),
                    }
                },
            }
        },
    }
}

fn encode_rec(it: &NearbyEntity) -> (r: JsonValue)
    requires
        it.wf(),
    ensures
        json::model_of(r) == sp_encode_entities_rec(it.model()),
        json::wf_json(json::model_of(r)),
{
    let mut pairs: Vec<(String, JsonValue)> = Vec::new();
    pairs.push((String::from_str("name"), JsonValue::Str(it.name.clone())));
    pairs.push((String::from_str("type"), JsonValue::Str(it.kind.clone())));
    pairs.push((String::from_str("x"), JsonValue::Num(it.x.duplicate())));
    pairs.push((String::from_str("y"), JsonValue::Num(it.y.duplicate())));
    proof {
        json::lemma_model_of_obj(pairs);
        assert(json::member_models_of(pairs@) =~= sp_encode_entities_rec(it.model())->Obj_0);
        let mm = json::member_models_of(pairs@);
        assert(json::wf_json(mm[0].1));
        assert(json::wf_json(mm[1].1));
        assert(json::wf_json(mm[2].1));
        assert(json::wf_json(mm[3].1));
        assert(json::wf_json_members(mm, 4));
        assert(json::wf_json_members(mm, 3));
        assert(json::wf_json_members(mm, 2));
        assert(json::wf_json_members(mm, 1));
        assert(json::wf_json_members(mm, 0));
    }
    JsonValue::Obj(pairs)
}

/// Encode this query's typed result to the transport's canonical text.
pub fn encode_entities(p: &NearbyEntities) -> (r: String)
    requires
        forall|k: int| 0 <= k < p.entities@.len() ==> (#[trigger] p.entities@[k]).wf(),
    ensures
        r@ == json::sp_print(sp_encode_entities(p.model())),
{
    let ghost eil = sp_encode_entities_list(p.model());
    let n = p.entities.len();
    let mut jitems: Vec<JsonValue> = Vec::new();
    let mut i: usize = 0;
    proof {
        assert(json::models_of(jitems@) =~= eil.take(0));
        assert(json::wf_json_list(json::models_of(jitems@), 0));
    }
    while i < n
        invariant
            n == p.entities@.len(),
            i <= n,
            forall|k: int| 0 <= k < p.entities@.len() ==> (#[trigger] p.entities@[k]).wf(),
            eil == sp_encode_entities_list(p.model()),
            eil.len() == n,
            json::models_of(jitems@) == eil.take(i as int),
            json::wf_json_list(json::models_of(jitems@), 0),
        decreases n - i,
    {
        proof {
            assert(p.model()[i as int] == p.entities@[i as int].model());
            assert(eil[i as int] == sp_encode_entities_rec(p.entities@[i as int].model()));
        }
        let jv = encode_rec(&p.entities[i]);
        let ghost old_models = json::models_of(jitems@);
        proof {
            json::lemma_wf_list_push(old_models, json::model_of(jv), 0);
        }
        jitems.push(jv);
        proof {
            assert(json::models_of(jitems@) =~= old_models.push(json::model_of(jv)));
            assert(json::models_of(jitems@) =~= eil.take(i as int + 1));
        }
        i = i + 1;
    }
    proof {
        assert(eil.take(n as int) =~= eil);
        json::lemma_model_of_arr(jitems);
    }
    let jarr = JsonValue::Arr(jitems);
    let mut pairs: Vec<(String, JsonValue)> = Vec::new();
    pairs.push((String::from_str("entities"), jarr));
    proof {
        json::lemma_model_of_obj(pairs);
        assert(json::member_models_of(pairs@) =~= sp_encode_entities(p.model())->Obj_0);
        let mm = json::member_models_of(pairs@);
        assert(json::wf_json(mm[0].1));
        assert(json::wf_json_members(mm, 1));
        assert(json::wf_json_members(mm, 0));
    }
    let jv = JsonValue::Obj(pairs);
    json::to_json_text(&jv)
}

proof fn lemma_rec_round_trip(rm: EntityModel)
    requires
        json::wf_num(rm.x),
        json::wf_num(rm.y),
    ensures
        sp_decode_entities_rec(sp_encode_entities_rec(rm)) == Some(rm),
        json::wf_json(sp_encode_entities_rec(rm)),
{
    let enc = sp_encode_entities_rec(rm);
    let mm = enc->Obj_0;
    assert(json::wf_json(mm[0].1));
    assert(json::wf_json(mm[1].1));
    assert(json::wf_json(mm[2].1));
    assert(json::wf_json(mm[3].1));
    assert(json::wf_json_members(mm, 4));
    assert(json::wf_json_members(mm, 3));
    assert(json::wf_json_members(mm, 2));
    assert(json::wf_json_members(mm, 1));
    assert(json::wf_json_members(mm, 0));
    reveal_strlit("name");
    reveal_strlit("type");
    reveal_strlit("x");
    reveal_strlit("y");
    assert("name"@[0] != "type"@[0]);
    assert("name"@ != "type"@);
    assert("name"@.len() != "x"@.len());
    assert("name"@ != "x"@);
    assert("name"@.len() != "y"@.len());
    assert("name"@ != "y"@);
    assert("type"@.len() != "x"@.len());
    assert("type"@ != "x"@);
    assert("type"@.len() != "y"@.len());
    assert("type"@ != "y"@);
    assert("x"@[0] != "y"@[0]);
    assert("x"@ != "y"@);
    let s1 = mm.skip(1);
    assert(s1 =~= seq![
        ("type"@, JsonSpec::Str(rm.kind)),
        ("x"@, JsonSpec::Num(rm.x)),
        ("y"@, JsonSpec::Num(rm.y)),
    ]);
    let s2 = s1.skip(1);
    assert(s2 =~= seq![
        ("x"@, JsonSpec::Num(rm.x)),
        ("y"@, JsonSpec::Num(rm.y)),
    ]);
    let s3 = s2.skip(1);
    assert(s3 =~= seq![
        ("y"@, JsonSpec::Num(rm.y)),
    ]);
    assert(json::sp_get_str(enc, "name"@) == Some(rm.name));
    assert(json::sp_obj_get(s1, "type"@) is Some);
    assert(json::sp_get_str(enc, "type"@) == Some(rm.kind));
    assert(json::sp_obj_get(s2, "x"@) is Some);
    assert(json::sp_obj_get(s1, "x"@) is Some);
    assert(json::sp_get_num(enc, "x"@) == Some(rm.x));
    assert(json::sp_obj_get(s3, "y"@) is Some);
    assert(json::sp_obj_get(s2, "y"@) is Some);
    assert(json::sp_obj_get(s1, "y"@) is Some);
    assert(json::sp_get_num(enc, "y"@) == Some(rm.y));
}


proof fn lemma_rec_list_round_trip(rms: Seq<EntityModel>)
    requires
        forall|k: int| 0 <= k < rms.len() ==> json::wf_num((#[trigger] rms[k]).x) && json::wf_num((#[trigger] rms[k]).y),
    ensures
        sp_decode_entities_list(sp_encode_entities_list(rms)) == Some(rms),
        json::wf_json_list(sp_encode_entities_list(rms), 0),
    decreases rms.len(),
{
    let el = sp_encode_entities_list(rms);
    if rms.len() == 0 {
        assert(el =~= Seq::<JsonSpec>::empty());
        assert(sp_decode_entities_list(el) == Some(Seq::<EntityModel>::empty()));
        assert(rms =~= Seq::<EntityModel>::empty());
    } else {
        lemma_rec_round_trip(rms[0]);
        assert(el[0] == sp_encode_entities_rec(rms[0]));
        assert(el.skip(1) =~= sp_encode_entities_list(rms.skip(1))) by {
            assert forall|k: int| 0 <= k < el.skip(1).len() implies #[trigger] el.skip(1)[k]
                == sp_encode_entities_list(rms.skip(1))[k] by {
                assert(el.skip(1)[k] == el[k + 1]);
                assert(rms.skip(1)[k] == rms[k + 1]);
            }
        }
        assert(forall|k: int|
            0 <= k < rms.skip(1).len() ==> #[trigger] rms.skip(1)[k] == rms[k + 1]);
        lemma_rec_list_round_trip(rms.skip(1));
        assert(sp_decode_entities_list(el) == Some(seq![rms[0]] + rms.skip(1)));
        assert(seq![rms[0]] + rms.skip(1) =~= rms);
        assert(json::wf_json_list(el.skip(1), 0));
        assert forall|k: int| 0 <= k < el.len() implies json::wf_json(#[trigger] el[k]) by {
            if k == 0 {
            } else {
                json::lemma_wf_arr_elem(el.skip(1), k - 1);
                assert(el.skip(1)[k - 1] == el[k]);
            }
        }
        json::lemma_wf_list_from_all(el, 0);
    }
}

/// Round trip: encoding any list of well-formed records and decoding the
/// text reproduces it exactly.
pub proof fn lemma_entities_round_trip(rms: Seq<EntityModel>)
    requires
        forall|k: int| 0 <= k < rms.len() ==> json::wf_num((#[trigger] rms[k]).x) && json::wf_num((#[trigger] rms[k]).y),
    ensures
        json::sp_json(json::sp_print(sp_encode_entities(rms))) == Some(
            sp_encode_entities(rms),
        ),
        sp_decode_entities(sp_encode_entities(rms)) == Some(rms),
{
    lemma_rec_list_round_trip(rms);
    let enc = sp_encode_entities(rms);
    let mm = enc->Obj_0;
    assert(mm[0].1 == JsonSpec::Arr(sp_encode_entities_list(rms)));
    assert(json::wf_json(mm[0].1));
    assert(json::wf_json_members(mm, 1));
    assert(json::wf_json_members(mm, 0));
    json::lemma_round_trip(enc);
    assert(json::sp_get_items(enc, "entities"@) == Some(sp_encode_entities_list(rms)));
}

} // verus!

verus! {

/// What this tool declares to the assistant.
pub fn definition() -> (r: crate::tools::ToolSpec)
    ensures
        r.name@ == "get_nearby_entities"@,
        r.description@ == "Get buildings and structures near the player (excludes resources, trees, and decoratives). Returns up to 50 entities."@,
        crate::json::model_of(r.parameters) == crate::tools::sp_schema_opt_int("radius"@, "Search radius in tiles (default: 20)"@),
        crate::json::wf_json(crate::json::model_of(r.parameters)),
{
    crate::tools::ToolSpec {
        name: String::from_str("get_nearby_entities"),
        description: String::from_str(
            "Get buildings and structures near the player (excludes resources, trees, and decoratives). Returns up to 50 entities.",
        ),
        parameters: crate::tools::schema_opt_int("radius", "Search radius in tiles (default: 20)"),
    }
}

} // verus!
