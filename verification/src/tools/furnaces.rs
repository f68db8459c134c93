//! The furnaces query: furnaces with their positions, recipes, first fuel
//! item and first output item.

use vstd::prelude::*;

use crate::error::SenseiError;
use crate::json;
use crate::json::Decimal;
use crate::json::JsonSpec;
use crate::json::JsonValue;
use crate::json::NumSpec;
use crate::lua;
use crate::tools::sp_prepend_list;

verus! {

/// Arguments of this query.
#[derive(Debug)]
pub struct GetFurnacesArgs {
    /// Defaults to 30 when omitted.
    pub limit: Option<u32>,
}

/// The value of the optional argument after the default is applied.
pub open spec fn spec_limit_of(args: GetFurnacesArgs) -> u32 {
    if args.limit is Some {
        args.limit.unwrap()
    } else {
        30
    }
}

/// One decoded record of this query's result.
#[derive(Debug, PartialEq)]
pub struct FurnaceInfo {
    pub name: String,
    pub x: Decimal,
    pub y: Decimal,
    pub recipe: Option<String>,
    pub fuel_type: Option<String>,
    pub output_item: Option<String>,
}

/// The full result: the decoded records, in the order the snippet emitted
/// them.
#[derive(Debug, PartialEq)]
pub struct Furnaces {
    pub furnaces: Vec<FurnaceInfo>,
}

pub ghost struct FurnaceModel {
    pub name: Seq<char>,
    pub x: NumSpec,
    pub y: NumSpec,
    pub recipe: Option<Seq<char>>,
    pub fuel_type: Option<Seq<char>>,
    pub output_item: Option<Seq<char>>,
}

impl FurnaceInfo {
    pub open spec fn model(&self) -> FurnaceModel {
        FurnaceModel { name: self.name@, x: self.x.model(), y: self.y.model(), recipe: if self.recipe is Some { Some(self.recipe.unwrap()@) } else { None }, fuel_type: if self.fuel_type is Some { Some(self.fuel_type.unwrap()@) } else { None }, output_item: if self.output_item is Some { Some(self.output_item.unwrap()@) } else { None } }
    }

    pub open spec fn wf(&self) -> bool {
        json::wf_num(self.x.model()) && json::wf_num(self.y.model())
    }
}

pub open spec fn furnaces_models(v: Seq<FurnaceInfo>) -> Seq<FurnaceModel> {
    Seq::new(
        v.len(),
        |i: int|
            if 0 <= i < v.len() {
                v[i].model()
            } else {
                arbitrary()
            },
    )
}

impl Furnaces {
    pub open spec fn model(&self) -> Seq<FurnaceModel> {
        furnaces_models(self.furnaces@)
    }
}

pub open spec fn sp_decode_furnaces_rec(m: JsonSpec) -> Option<FurnaceModel> {
    if json::sp_get_str(m, "name"@) is Some && json::sp_get_num(m, "x"@) is Some && json::sp_get_num(m, "y"@) is Some && json::sp_get_opt_str(m, "recipe"@) is Some && json::sp_get_opt_str(m, "fuel_type"@) is Some && json::sp_get_opt_str(m, "output_item"@) is Some {
        Some(FurnaceModel { name: json::sp_get_str(m, "name"@).unwrap(), x: json::sp_get_num(m, "x"@).unwrap(), y: json::sp_get_num(m, "y"@).unwrap(), recipe: json::sp_get_opt_str(m, "recipe"@).unwrap(), fuel_type: json::sp_get_opt_str(m, "fuel_type"@).unwrap(), output_item: json::sp_get_opt_str(m, "output_item"@).unwrap() })
    } else {
        None
    }
}

pub open spec fn sp_decode_furnaces_list(ms: Seq<JsonSpec>) -> Option<Seq<FurnaceModel>>
    decreases ms.len(),
{
    if ms.len() == 0 {
        Some(Seq::empty())
    } else {
        match sp_decode_furnaces_rec(ms[0]) {
            None => None,
            Some(im) => match sp_decode_furnaces_list(ms.skip(1)) {
                None => None,
                Some(rest) => Some(seq![im] + rest),
            },
        }
    }
}

pub open spec fn sp_decode_furnaces(m: JsonSpec) -> Option<Seq<FurnaceModel>> {
    match json::sp_get_items(m, "furnaces"@) {
        None => None,
        Some(ms) => sp_decode_furnaces_list(ms),
    }
}

pub open spec fn sp_encode_furnaces_rec(rm: FurnaceModel) -> JsonSpec {
    JsonSpec::Obj(
        seq![
            ("name"@, JsonSpec::Str(rm.name)),
            ("x"@, JsonSpec::Num(rm.x)),
            ("y"@, JsonSpec::Num(rm.y)),
            ("recipe"@, if rm.recipe is Some { JsonSpec::Str(rm.recipe.unwrap()) } else { JsonSpec::Null }),
            ("fuel_type"@, if rm.fuel_type is Some { JsonSpec::Str(rm.fuel_type.unwrap()) } else { JsonSpec::Null }),
            ("output_item"@, if rm.output_item is Some { JsonSpec::Str(rm.output_item.unwrap()) } else { JsonSpec::Null }),
        ],
    )
}

pub open spec fn sp_encode_furnaces_list(rms: Seq<FurnaceModel>) -> Seq<JsonSpec> {
    Seq::new(
        rms.len(),
        |i: int|
            if 0 <= i < rms.len() {
                sp_encode_furnaces_rec(rms[i])
            } else {
                JsonSpec::Null
            },
    )
}

pub open spec fn sp_encode_furnaces(rms: Seq<FurnaceModel>) -> JsonSpec {
    JsonSpec::Obj(seq![("furnaces"@, JsonSpec::Arr(sp_encode_furnaces_list(rms)))])
}

/// The snippet this query sends, with the default applied to an omitted
/// argument.
pub fn snippet_for(args: &GetFurnacesArgs) -> (r: String)
    ensures
        r@ == lua::spec_snippet(lua::QueryKind::Furnaces, Seq::empty(), spec_limit_of(*args) as nat),
{
    let v: u32 = match args.limit {
        Some(x) => x,
        None => 30,
    };
    lua::furnaces(v)
}

fn decode_rec(v: &JsonValue) -> (r: Option<FurnaceInfo>)
    ensures
        match r {
            Some(it) => sp_decode_furnaces_rec(json::model_of(*v)) == Some(it.model())
                && (json::wf_json(json::model_of(*v)) ==> it.wf()),
            None => sp_decode_furnaces_rec(json::model_of(*v)) is None,
        },
{
    let name = v.get_str_field("name");
    let x = v.get_num_field("x");
    let y = v.get_num_field("y");
    let recipe = v.get_opt_str_field("recipe");
    let fuel_type = v.get_opt_str_field("fuel_type");
    let output_item = v.get_opt_str_field("output_item");
    match (name, x, y, recipe, fuel_type, output_item) {
        (Some(name), Some(x), Some(y), Some(recipe), Some(fuel_type), Some(output_item)) => {
            proof {
                if json::wf_json(json::model_of(*v)) {
                json::lemma_wf_get(json::model_of(*v), "x"@);
                json::lemma_wf_get(json::model_of(*v), "y"@);
                }
            }
            Some(FurnaceInfo { name, x, y, recipe, fuel_type, output_item })
        },
        _ => None,
    }
}

fn decode_rec_list(items: &Vec<JsonValue>) -> (r: Option<Vec<FurnaceInfo>>)
    requires
        json::wf_json_list(json::models_of(items@), 0),
    ensures
        match r {
            Some(out) => sp_decode_furnaces_list(json::models_of(items@)) == Some(
                furnaces_models(out@),
            ) && (forall|k: int| 0 <= k < out@.len() ==> (#[trigger] out@[k]).wf()),
            None => sp_decode_furnaces_list(json::models_of(items@)) is None,
        },
{
    let ghost ms = json::models_of(items@);
    let n = items.len();
    let mut out: Vec<FurnaceInfo> = Vec::new();
    let mut i: usize = 0;
    proof {
        assert(ms.skip(0) =~= ms);
        assert(furnaces_models(out@) =~= Seq::<FurnaceModel>::empty());
        if sp_decode_furnaces_list(ms) is Some {
            let rest = sp_decode_furnaces_list(ms).unwrap();
            assert(Seq::<FurnaceModel>::empty() + rest =~= rest);
        }
    }
    while i < n
        invariant
            n == items@.len(),
            i <= n,
            ms == json::models_of(items@),
            json::wf_json_list(ms, 0),
            sp_decode_furnaces_list(ms) == sp_prepend_list(
                furnaces_models(out@),
                sp_decode_furnaces_list(ms.skip(i as int)),
            ),
            forall|k: int| 0 <= k < out@.len() ==> (#[trigger] out@[k]).wf(),
        decreases n - i,
    {
        proof {
            assert(ms.skip(i as int)[0] == ms[i as int]);
            assert(ms[i as int] == json::model_of(items@[i as int]));
            assert(ms.skip(i as int).skip(1) =~= ms.skip(i as int + 1));
            assert(json::wf_json(JsonSpec::Arr(ms)));
            json::lemma_wf_arr_elem(ms, i as int);
        }
        match decode_rec(&items[i]) {
            None => {
                return None;
            },
            Some(it) => {
                let ghost old_out = out@;
                out.push(it);
                proof {
                    assert(furnaces_models(out@) =~= furnaces_models(old_out).push(
                        it.model(),
                    ));
                    let x = sp_decode_furnaces_list(ms.skip(i as int + 1));
                    if x is Some {
                        let rest = x.unwrap();
                        assert(furnaces_models(old_out) + (seq![it.model()] + rest)
                            =~= furnaces_models(out@) + rest);
                    }
                }
                i = i + 1;
            },
        }
    }
    proof {
        assert(ms.skip(n as int) =~= Seq::<JsonSpec>::empty());
        assert(furnaces_models(out@) + Seq::<FurnaceModel>::empty() =~= furnaces_models(
            out@,
        ));
    }
    Some(out)
}

/// Decode a transport response into this query's typed result.
pub fn parse_furnaces(s: &str) -> (r: Result<Furnaces, SenseiError>)
    ensures
        match r {
            Ok(p) => json::sp_json(s@) is Some && sp_decode_furnaces(
                json::sp_json(s@).unwrap(),
            ) == Some(p.model()) && (forall|k: int|
                0 <= k < p.furnaces@.len() ==> (#[trigger] p.furnaces@[k]).wf()),
            Err(e) => match e {
                SenseiError::JsonParse(msg) => (json::sp_json(s@) is None && msg@
                    == "malformed transport text"@) || (json::sp_json(s@) is Some
                    && sp_decode_furnaces(json::sp_json(s@).unwrap()) is None && msg@
                    == "response shape mismatch"@),
                _ => false,
            },
        },
{
    match json::parse_json(s) {
        None => Err(SenseiError::JsonParse(String::from_str("malformed transport text"))),
        Some(jv) => {
            match jv.get_items_field("furnaces") {
                None => Err(
                    SenseiError::JsonParse(String::from_str("response shape mismatch")),
                ),
                Some(items) => {
                    proof {
                        json::lemma_wf_get(json::model_of(jv), "furnaces"@);
                    }
                    match decode_rec_list(items) {
                        None => Err(
                            SenseiError::JsonParse(
                                String::from_str("response shape mismatch"),
                            ),
                        ),
                        Some(out) => Ok(Furnaces { furnaces: out }),
                    }
                },
            }
        },
    }
}

fn encode_rec(it: &FurnaceInfo) -> (r: JsonValue)
    requires
        it.wf(),
    ensures
        json::model_of(r) == sp_encode_furnaces_rec(it.model()),
        json::wf_json(json::model_of(r)),
{
    let mut pairs: Vec<(String, JsonValue)> = Vec::new();
    pairs.push((String::from_str("name"), JsonValue::Str(it.name.clone())));
    pairs.push((String::from_str("x"), JsonValue::Num(it.x.duplicate())));
    pairs.push((String::from_str("y"), JsonValue::Num(it.y.duplicate())));
    pairs.push((String::from_str("recipe"), match &it.recipe {
        Some(t) => JsonValue::Str(t.clone()),
        None => JsonValue::Null,
    }));
    pairs.push((String::from_str("fuel_type"), match &it.fuel_type {
        Some(t) => JsonValue::Str(t.clone()),
        None => JsonValue::Null,
    }));
    pairs.push((String::from_str("output_item"), match &it.output_item {
        Some(t) => JsonValue::Str(t.clone()),
        None => JsonValue::Null,
    }));
    proof {
        json::lemma_model_of_obj(pairs);
        assert(json::member_models_of(pairs@) =~= sp_encode_furnaces_rec(it.model())->Obj_0);
        let mm = json::member_models_of(pairs@);
        assert(json::wf_json(mm[0].1));
        assert(json::wf_json(mm[1].1));
        assert(json::wf_json(mm[2].1));
        assert(json::wf_json(mm[3].1));
        assert(json::wf_json(mm[4].1));
        assert(json::wf_json(mm[5].1));
        assert(json::wf_json_members(mm, 6));
        assert(json::wf_json_members(mm, 5));
        assert(json::wf_json_members(mm, 4));
        assert(json::wf_json_members(mm, 3));
        assert(json::wf_json_members(mm, 2));
        assert(json::wf_json_members(mm, 1));
        assert(json::wf_json_members(mm, 0));
    }
    JsonValue::Obj(pairs)
}

/// Encode this query's typed result to the transport's canonical text.
pub fn encode_furnaces(p: &Furnaces) -> (r: String)
    requires
        forall|k: int| 0 <= k < p.furnaces@.len() ==> (#[trigger] p.furnaces@[k]).wf(),
    ensures
        r@ == json::sp_print(sp_encode_furnaces(p.model())),
{
    let ghost eil = sp_encode_furnaces_list(p.model());
    let n = p.furnaces.len();
    let mut jitems: Vec<JsonValue> = Vec::new();
    let mut i: usize = 0;
    proof {
        assert(json::models_of(jitems@) =~= eil.take(0));
        assert(json::wf_json_list(json::models_of(jitems@), 0));
    }
    while i < n
        invariant
            n == p.furnaces@.len(),
            i <= n,
            forall|k: int| 0 <= k < p.furnaces@.len() ==> (#[trigger] p.furnaces@[k]).wf(),
            eil == sp_encode_furnaces_list(p.model()),
            eil.len() == n,
            json::models_of(jitems@) == eil.take(i as int),
            json::wf_json_list(json::models_of(jitems@), 0),
        decreases n - i,
    {
        proof {
            assert(p.model()[i as int] == p.furnaces@[i as int].model());
            assert(eil[i as int] == sp_encode_furnaces_rec(p.furnaces@[i as int].model()));
        }
        let jv = encode_rec(&p.furnaces[i]);
        let ghost old_models = json::models_of(jitems@);
        proof {
            json::lemma_wf_list_push(old_models, json::model_of(jv), 0);
        }
        jitems.push(jv);
        proof {
            assert(json::models_of(jitems@) =~= old_models.push(json::model_of(jv)));
            assert(json::models_of(jitems@) =~= eil.take(i as int + 1));
        }
        i = i + 1;
    }
    proof {
        assert(eil.take(n as int) =~= eil);
        json::lemma_model_of_arr(jitems);
    }
    let jarr = JsonValue::Arr(jitems);
    let mut pairs: Vec<(String, JsonValue)> = Vec::new();
    pairs.push((String::from_str("furnaces"), jarr));
    proof {
        json::lemma_model_of_obj(pairs);
        assert(json::member_models_of(pairs@) =~= sp_encode_furnaces(p.model())->Obj_0);
        let mm = json::member_models_of(pairs@);
        assert(json::wf_json(mm[0].1));
        assert(json::wf_json_members(mm, 1));
        assert(json::wf_json_members(mm, 0));
    }
    let jv = JsonValue::Obj(pairs);
    json::to_json_text(&jv)
}

proof fn lemma_rec_round_trip(rm: FurnaceModel)
    requires
        json::wf_num(rm.x),
        json::wf_num(rm.y),
    ensures
        sp_decode_furnaces_rec(sp_encode_furnaces_rec(rm)) == Some(rm),
        json::wf_json(sp_encode_furnaces_rec(rm)),
{
    let enc = sp_encode_furnaces_rec(rm);
    let mm = enc->Obj_0;
    assert(json::wf_json(mm[0].1));
    assert(json::wf_json(mm[1].1));
    assert(json::wf_json(mm[2].1));
    assert(json::wf_json(mm[3].1));
    assert(json::wf_json(mm[4].1));
    assert(json::wf_json(mm[5].1));
    assert(json::wf_json_members(mm, 6));
    assert(json::wf_json_members(mm, 5));
    assert(json::wf_json_members(mm, 4));
    assert(json::wf_json_members(mm, 3));
    assert(json::wf_json_members(mm, 2));
    assert(json::wf_json_members(mm, 1));
    assert(json::wf_json_members(mm, 0));
    reveal_strlit("name");
    reveal_strlit("x");
    reveal_strlit("y");
    reveal_strlit("recipe");
    reveal_strlit("fuel_type");
    reveal_strlit("output_item");
    assert("name"@.len() != "x"@.len());
    assert("name"@ != "x"@);
    assert("name"@.len() != "y"@.len());
    assert("name"@ != "y"@);
    assert("name"@.len() != "recipe"@.len());
    assert("name"@ != "recipe"@);
    assert("name"@.len() != "fuel_type"@.len());
    assert("name"@ != "fuel_type"@);
    assert("name"@.len() != "output_item"@.len());
    assert("name"@ != "output_item"@);
    assert("x"@[0] != "y"@[0]);
    assert("x"@ != "y"@);
    assert("x"@.len() != "recipe"@.len());
    assert("x"@ != "recipe"@);
    assert("x"@.len() != "fuel_type"@.len());
    assert("x"@ != "fuel_type"@);
    assert("x"@.len() != "output_item"@.len());
    assert("x"@ != "output_item"@);
    assert("y"@.len() != "recipe"@.len());
    assert("y"@ != "recipe"@);
    assert("y"@.len() != "fuel_type"@.len());
    assert("y"@ != "fuel_type"@);
    assert("y"@.len() != "output_item"@.len());
    assert("y"@ != "output_item"@);
    assert("recipe"@.len() != "fuel_type"@.len());
    assert("recipe"@ != "fuel_type"@);
    assert("recipe"@.len() != "output_item"@.len());
    assert("recipe"@ != "output_item"@);
    assert("fuel_type"@.len() != "output_item"@.len());
    assert("fuel_type"@ != "output_item"@);
    let s1 = mm.skip(1);
    assert(s1 =~= seq![
        ("x"@, JsonSpec::Num(rm.x)),
        ("y"@, JsonSpec::Num(rm.y)),
        ("recipe"@, if rm.recipe is Some { JsonSpec::Str(rm.recipe.unwrap()) } else { JsonSpec::Null }),
        ("fuel_type"@, if rm.fuel_type is Some { JsonSpec::Str(rm.fuel_type.unwrap()) } else { JsonSpec::Null }),
        ("output_item"@, if rm.output_item is Some { JsonSpec::Str(rm.output_item.unwrap()) } else { JsonSpec::Null }),
    ]);
    let s2 = s1.skip(1);
    assert(s2 =~= seq![
        ("y"@, JsonSpec::Num(rm.y)),
        ("recipe"@, if rm.recipe is Some { JsonSpec::Str(rm.recipe.unwrap()) } else { JsonSpec::Null }),
        ("fuel_type"@, if rm.fuel_type is Some { JsonSpec::Str(rm.fuel_type.unwrap()) } else { JsonSpec::Null }),
        ("output_item"@, if rm.output_item is Some { JsonSpec::Str(rm.output_item.unwrap()) } else { JsonSpec::Null }),
    ]);
    let s3 = s2.skip(1);
    assert(s3 =~= seq![
        ("recipe"@, if rm.recipe is Some { JsonSpec::Str(rm.recipe.unwrap()) } else { JsonSpec::Null }),
        ("fuel_type"@, if rm.fuel_type is Some { JsonSpec::Str(rm.fuel_type.unwrap()) } else { JsonSpec::Null }),
        ("output_item"@, if rm.output_item is Some { JsonSpec::Str(rm.output_item.unwrap()) } else { JsonSpec::Null }),
    ]);
    let s4 = s3.skip(1);
    assert(s4 =~= seq![
        ("fuel_type"@, if rm.fuel_type is Some { JsonSpec::Str(rm.fuel_type.unwrap()) } else { JsonSpec::Null }),
        ("output_item"@, if rm.output_item is Some { JsonSpec::Str(rm.output_item.unwrap()) } else { JsonSpec::Null }),
    ]);
    let s5 = s4.skip(1);
    assert(s5 =~= seq![
        ("output_item"@, if rm.output_item is Some { JsonSpec::Str(rm.output_item.unwrap()) } else { JsonSpec::Null }),
    ]);
    assert(json::sp_get_str(enc, "name"@) == Some(rm.name));
    assert(json::sp_obj_get(s1, "x"@) is Some);
    assert(json::sp_get_num(enc, "x"@) == Some(rm.x));
    assert(json::sp_obj_get(s2, "y"@) is Some);
    assert(json::sp_obj_get(s1, "y"@) is Some);
    assert(json::sp_get_num(enc, "y"@) == Some(rm.y));
    assert(json::sp_obj_get(s3, "recipe"@) is Some);
    assert(json::sp_obj_get(s2, "recipe"@) is Some);
    assert(json::sp_obj_get(s1, "recipe"@) is Some);
    assert(json::sp_get_opt_str(enc, "recipe"@) == (if rm.recipe is Some { Some(Some(rm.recipe.unwrap())) } else { Some(None) }));
    assert(json::sp_obj_get(s4, "fuel_type"@) is Some);
    assert(json::sp_obj_get(s3, "fuel_type"@) is Some);
    assert(json::sp_obj_get(s2, "fuel_type"@) is Some);
    assert(json::sp_obj_get(s1, "fuel_type"@) is Some);
    assert(json::sp_get_opt_str(enc, "fuel_type"@) == (if rm.fuel_type is Some { Some(Some(rm.fuel_type.unwrap())) } else { Some(None) }));
    assert(json::sp_obj_get(s5, "output_item"@) is Some);
    assert(json::sp_obj_get(s4, "output_item"@) is Some);
    assert(json::sp_obj_get(s3, "output_item"@) is Some);
    assert(json::sp_obj_get(s2, "output_item"@) is Some);
    assert(json::sp_obj_get(s1, "output_item"@) is Some);
    assert(json::sp_get_opt_str(enc, "output_item"@) == (if rm.output_item is Some { Some(Some(rm.output_item.unwrap())) } else { Some(None) }));
}


proof fn lemma_rec_list_round_trip(rms: Seq<FurnaceModel>)
    requires
        forall|k: int| 0 <= k < rms.len() ==> json::wf_num((#[trigger] rms[k]).x) && json::wf_num((#[trigger] rms[k]).y),
    ensures
        sp_decode_furnaces_list(sp_encode_furnaces_list(rms)) == Some(rms),
        json::wf_json_list(sp_encode_furnaces_list(rms), 0),
    decreases rms.len(),
{
    let el = sp_encode_furnaces_list(rms);
    if rms.len() == 0 {
        assert(el =~= Seq::<JsonSpec>::empty());
        assert(sp_decode_furnaces_list(el) == Some(Seq::<FurnaceModel>::empty()));
        assert(rms =~= Seq::<FurnaceModel>::empty());
    } else {
        lemma_rec_round_trip(rms[0]);
        assert(el[0] == sp_encode_furnaces_rec(rms[0]));
        assert(el.skip(1) =~= sp_encode_furnaces_list(rms.skip(1))) by {
            assert forall|k: int| 0 <= k < el.skip(1).len() implies #[trigger] el.skip(1)[k]
                == sp_encode_furnaces_list(rms.skip(1))[k] by {
                assert(el.skip(1)[k] == el[k + 1]);
                assert(rms.skip(1)[k] == rms[k + 1]);
            }
        }
        assert(forall|k: int|
            0 <= k < rms.skip(1).len() ==> #[trigger] rms.skip(1)[k] == rms[k + 1]);
        lemma_rec_list_round_trip(rms.skip(1));
        assert(sp_decode_furnaces_list(el) == Some(seq![rms[0]] + rms.skip(1)));
        assert(seq![rms[0]] + rms.skip(1) =~= rms);
        assert(json::wf_json_list(el.skip(1), 0));
        assert forall|k: int| 0 <= k < el.len() implies json::wf_json(#[trigger] el[k]) by {
            if k == 0 {
            } else {
                json::lemma_wf_arr_elem(el.skip(1), k - 1);
                assert(el.skip(1)[k - 1] == el[k]);
            }
        }
        json::lemma_wf_list_from_all(el, 0);
    }
}

/// Round trip: encoding any list of well-formed records and decoding the
/// text reproduces it exactly.
pub proof fn lemma_furnaces_round_trip(rms: Seq<FurnaceModel>)
    requires
        forall|k: int| 0 <= k < rms.len() ==> json::wf_num((#[trigger] rms[k]).x) && json::wf_num((#[trigger] rms[k]).y),
    ensures
        json::sp_json(json::sp_print(sp_encode_furnaces(rms))) == Some(
            sp_encode_furnaces(rms),
        ),
        sp_decode_furnaces(sp_encode_furnaces(rms)) == Some(rms),
{
    lemma_rec_list_round_trip(rms);
    let enc = sp_encode_furnaces(rms);
    let mm = enc->Obj_0;
    assert(mm[0].1 == JsonSpec::Arr(sp_encode_furnaces_list(rms)));
    assert(json::wf_json(mm[0].1));
    assert(json::wf_json_members(mm, 1));
    assert(json::wf_json_members(mm, 0));
    json::lemma_round_trip(enc);
    assert(json::sp_get_items(enc, "furnaces"@) == Some(sp_encode_furnaces_list(rms)));
}

} // verus!

verus! {

/// What this tool declares to the assistant.
pub fn definition() -> (r: crate::tools::ToolSpec)
    ensures
        r.name@ == "get_furnaces"@,
        r.description@ == "Get furnaces on the map with their recipes, fuel types, and output items"@,
        crate::json::model_of(r.parameters) == crate::tools::sp_schema_opt_int("limit"@, "Maximum number of furnaces to return (default: 30)"@),
        crate::json::wf_json(crate::json::model_of(r.parameters)),
{
    crate::tools::ToolSpec {
        name: String::from_str("get_furnaces"),
        description: String::from_str(
            "Get furnaces on the map with their recipes, fuel types, and output items",
        ),
        parameters: crate::tools::schema_opt_int("limit", "Maximum number of furnaces to return (default: 30)"),
    }
}

} // verus!
