//! The recipe query: a prototype lookup returning a recipe's ingredients,
//! products and base crafting time.  It is the one query with no player
//! precondition.

use vstd::prelude::*;

use crate::error::SenseiError;
use crate::json;
use crate::json::Decimal;
use crate::json::JsonSpec;
use crate::json::JsonValue;
use crate::json::NumSpec;
use crate::lua;
use crate::tools::sp_prepend_list;

verus! {

/// Arguments of the recipe query.
#[derive(Debug)]
pub struct GetRecipeArgs {
    /// Recipe prototype name to look up.
    pub recipe_name: String,
}

/// One input required of the recipe.
#[derive(Debug, PartialEq)]
pub struct RecipeIngredient {
    /// Prototype name.
    pub name: String,
    /// `item` or `fluid`.
    pub kind: String,
    /// Units per craft.
    pub amount: Decimal,
}

pub ghost struct IngredientModel {
    pub name: Seq<char>,
    pub kind: Seq<char>,
    pub amount: NumSpec,
}

impl RecipeIngredient {
    pub open spec fn model(&self) -> IngredientModel {
        IngredientModel { name: self.name@, kind: self.kind@, amount: self.amount.model() }
    }

    pub open spec fn wf(&self) -> bool {
        json::wf_num(self.amount.model())
    }
}

pub open spec fn ingredient_models(v: Seq<RecipeIngredient>) -> Seq<IngredientModel> {
    Seq::new(
        v.len(),
        |i: int|
            if 0 <= i < v.len() {
                v[i].model()
            } else {
                arbitrary()
            },
    )
}

pub open spec fn sp_decode_ingredient_rec(m: JsonSpec) -> Option<IngredientModel> {
    if json::sp_get_str(m, "name"@) is Some && json::sp_get_str(m, "type"@) is Some
        && json::sp_get_num(m, "amount"@) is Some {
        Some(
            IngredientModel {
                name: json::sp_get_str(m, "name"@).unwrap(),
                kind: json::sp_get_str(m, "type"@).unwrap(),
                amount: json::sp_get_num(m, "amount"@).unwrap(),
            },
        )
    } else {
        None
    }
}

pub open spec fn sp_decode_ingredient_list(ms: Seq<JsonSpec>) -> Option<Seq<IngredientModel>>
    decreases ms.len(),
{
    if ms.len() == 0 {
        Some(Seq::empty())
    } else {
        match sp_decode_ingredient_rec(ms[0]) {
            None => None,
            Some(im) => match sp_decode_ingredient_list(ms.skip(1)) {
                None => None,
                Some(rest) => Some(seq![im] + rest),
            },
        }
    }
}

pub open spec fn sp_encode_ingredient_rec(rm: IngredientModel) -> JsonSpec {
    JsonSpec::Obj(
        seq![
            ("name"@, JsonSpec::Str(rm.name)),
            ("type"@, JsonSpec::Str(rm.kind)),
            ("amount"@, JsonSpec::Num(rm.amount)),
        ],
    )
}

pub open spec fn sp_encode_ingredient_list(rms: Seq<IngredientModel>) -> Seq<JsonSpec> {
    Seq::new(
        rms.len(),
        |i: int|
            if 0 <= i < rms.len() {
                sp_encode_ingredient_rec(rms[i])
            } else {
                JsonSpec::Null
            },
    )
}

fn decode_ingredient_rec(v: &JsonValue) -> (r: Option<RecipeIngredient>)
    ensures
        match r {
            Some(it) => sp_decode_ingredient_rec(json::model_of(*v)) == Some(it.model())
                && (json::wf_json(json::model_of(*v)) ==> it.wf()),
            None => sp_decode_ingredient_rec(json::model_of(*v)) is None,
        },
{
    let name = v.get_str_field("name");
    let kind = v.get_str_field("type");
    let amount = v.get_num_field("amount");
    match (name, kind, amount) {
        (Some(name), Some(kind), Some(amount)) => {
            proof {
                if json::wf_json(json::model_of(*v)) {
                    json::lemma_wf_get(json::model_of(*v), "amount"@);
                }
            }
            Some(RecipeIngredient { name, kind, amount })
        },
        _ => None,
    }
}

fn decode_ingredient_list(items: &Vec<JsonValue>) -> (r: Option<Vec<RecipeIngredient>>)
    requires
        json::wf_json_list(json::models_of(items@), 0),
    ensures
        match r {
            Some(out) => sp_decode_ingredient_list(json::models_of(items@)) == Some(
                ingredient_models(out@),
            ) && (forall|k: int| 0 <= k < out@.len() ==> (#[trigger] out@[k]).wf()),
            None => sp_decode_ingredient_list(json::models_of(items@)) is None,
        },
{
    let ghost ms = json::models_of(items@);
    let n = items.len();
    let mut out: Vec<RecipeIngredient> = Vec::new();
    let mut i: usize = 0;
    proof {
        assert(ms.skip(0) =~= ms);
        assert(ingredient_models(out@) =~= Seq::<IngredientModel>::empty());
        if sp_decode_ingredient_list(ms) is Some {
            let rest = sp_decode_ingredient_list(ms).unwrap();
            assert(Seq::<IngredientModel>::empty() + rest =~= rest);
        }
    }
    while i < n
        invariant
            n == items@.len(),
            i <= n,
            ms == json::models_of(items@),
            json::wf_json_list(ms, 0),
            sp_decode_ingredient_list(ms) == sp_prepend_list(
                ingredient_models(out@),
                sp_decode_ingredient_list(ms.skip(i as int)),
            ),
            forall|k: int| 0 <= k < out@.len() ==> (#[trigger] out@[k]).wf(),
        decreases n - i,
    {
        proof {
            assert(ms.skip(i as int)[0] == ms[i as int]);
            assert(ms[i as int] == json::model_of(items@[i as int]));
            assert(ms.skip(i as int).skip(1) =~= ms.skip(i as int + 1));
            assert(json::wf_json(JsonSpec::Arr(ms)));
            json::lemma_wf_arr_elem(ms, i as int);
        }
        match decode_ingredient_rec(&items[i]) {
            None => {
                return None;
            },
            Some(it) => {
                let ghost old_out = out@;
                out.push(it);
                proof {
                    assert(ingredient_models(out@) =~= ingredient_models(old_out).push(
                        it.model(),
                    ));
                    let x = sp_decode_ingredient_list(ms.skip(i as int + 1));
                    if x is Some {
                        let rest = x.unwrap();
                        assert(ingredient_models(old_out) + (seq![it.model()] + rest)
                            =~= ingredient_models(out@) + rest);
                    }
                }
                i = i + 1;
            },
        }
    }
    proof {
        assert(ms.skip(n as int) =~= Seq::<JsonSpec>::empty());
        assert(ingredient_models(out@) + Seq::<IngredientModel>::empty() =~= ingredient_models(
            out@,
        ));
    }
    Some(out)
}

fn encode_ingredient_rec(it: &RecipeIngredient) -> (r: JsonValue)
    requires
        it.wf(),
    ensures
        json::model_of(r) == sp_encode_ingredient_rec(it.model()),
        json::wf_json(json::model_of(r)),
{
    let mut pairs: Vec<(String, JsonValue)> = Vec::new();
    pairs.push((String::from_str("name"), JsonValue::Str(it.name.clone())));
    pairs.push((String::from_str("type"), JsonValue::Str(it.kind.clone())));
    pairs.push((String::from_str("amount"), JsonValue::Num(it.amount.duplicate())));
    proof {
        json::lemma_model_of_obj(pairs);
        assert(json::member_models_of(pairs@) =~= sp_encode_ingredient_rec(it.model())->Obj_0);
        let mm = json::member_models_of(pairs@);
        assert(json::wf_json(mm[0].1));
        assert(json::wf_json(mm[1].1));
        assert(json::wf_json(mm[2].1));
        assert(json::wf_json_members(mm, 3));
        assert(json::wf_json_members(mm, 2));
        assert(json::wf_json_members(mm, 1));
        assert(json::wf_json_members(mm, 0));
    }
    JsonValue::Obj(pairs)
}

fn encode_ingredient_list(v: &Vec<RecipeIngredient>) -> (r: Vec<JsonValue>)
    requires
        forall|k: int| 0 <= k < v@.len() ==> (#[trigger] v@[k]).wf(),
    ensures
        json::models_of(r@) == sp_encode_ingredient_list(ingredient_models(v@)),
        json::wf_json_list(json::models_of(r@), 0),
{
    let ghost eil = sp_encode_ingredient_list(ingredient_models(v@));
    let n = v.len();
    let mut jitems: Vec<JsonValue> = Vec::new();
    let mut i: usize = 0;
    proof {
        assert(json::models_of(jitems@) =~= eil.take(0));
        assert(json::wf_json_list(json::models_of(jitems@), 0));
    }
    while i < n
        invariant
            n == v@.len(),
            i <= n,
            forall|k: int| 0 <= k < v@.len() ==> (#[trigger] v@[k]).wf(),
            eil == sp_encode_ingredient_list(ingredient_models(v@)),
            eil.len() == n,
            json::models_of(jitems@) == eil.take(i as int),
            json::wf_json_list(json::models_of(jitems@), 0),
        decreases n - i,
    {
        proof {
            assert(ingredient_models(v@)[i as int] == v@[i as int].model());
            assert(eil[i as int] == sp_encode_ingredient_rec(v@[i as int].model()));
        }
        let jv = encode_ingredient_rec(&v[i]);
        let ghost old_models = json::models_of(jitems@);
        proof {
            json::lemma_wf_list_push(old_models, json::model_of(jv), 0);
        }
        jitems.push(jv);
        proof {
            assert(json::models_of(jitems@) =~= old_models.push(json::model_of(jv)));
            assert(json::models_of(jitems@) =~= eil.take(i as int + 1));
        }
        i = i + 1;
    }
    proof {
        assert(eil.take(n as int) =~= eil);
    }
    jitems
}

proof fn lemma_ingredient_rec_round_trip(rm: IngredientModel)
    requires
        json::wf_num(rm.amount),
    ensures
        sp_decode_ingredient_rec(sp_encode_ingredient_rec(rm)) == Some(rm),
        json::wf_json(sp_encode_ingredient_rec(rm)),
{
    let enc = sp_encode_ingredient_rec(rm);
    let mm = enc->Obj_0;
    assert(json::wf_json(mm[0].1));
    assert(json::wf_json(mm[1].1));
    assert(json::wf_json(mm[2].1));
    assert(json::wf_json_members(mm, 3));
    assert(json::wf_json_members(mm, 2));
    assert(json::wf_json_members(mm, 1));
    assert(json::wf_json_members(mm, 0));
    reveal_strlit("name");
    reveal_strlit("type");
    reveal_strlit("amount");
    assert("name"@[0] != "type"@[0]);
    assert("name"@ != "type"@);
    assert("name"@.len() != "amount"@.len());
    assert("name"@ != "amount"@);
    assert("type"@.len() != "amount"@.len());
    assert("type"@ != "amount"@);
    let s1 = mm.skip(1);
    assert(s1 =~= seq![
        ("type"@, JsonSpec::Str(rm.kind)),
        ("amount"@, JsonSpec::Num(rm.amount)),
    ]);
    let s2 = s1.skip(1);
    assert(s2 =~= seq![("amount"@, JsonSpec::Num(rm.amount))]);
    assert(json::sp_get_str(enc, "name"@) == Some(rm.name));
    assert(json::sp_obj_get(s1, "type"@) is Some);
    assert(json::sp_get_str(enc, "type"@) == Some(rm.kind));
    assert(json::sp_obj_get(s2, "amount"@) is Some);
    assert(json::sp_obj_get(s1, "amount"@) is Some);
    assert(json::sp_get_num(enc, "amount"@) == Some(rm.amount));
}

proof fn lemma_ingredient_list_round_trip(rms: Seq<IngredientModel>)
    requires
        forall|k: int| 0 <= k < rms.len() ==> json::wf_num((#[trigger] rms[k]).amount),
    ensures
        sp_decode_ingredient_list(sp_encode_ingredient_list(rms)) == Some(rms),
        json::wf_json_list(sp_encode_ingredient_list(rms), 0),
    decreases rms.len(),
{
    let el = sp_encode_ingredient_list(rms);
    if rms.len() == 0 {
        assert(el =~= Seq::<JsonSpec>::empty());
        assert(sp_decode_ingredient_list(el) == Some(Seq::<IngredientModel>::empty()));
        assert(rms =~= Seq::<IngredientModel>::empty());
    } else {
        lemma_ingredient_rec_round_trip(rms[0]);
        assert(el[0] == sp_encode_ingredient_rec(rms[0]));
        assert(el.skip(1) =~= sp_encode_ingredient_list(rms.skip(1))) by {
            assert forall|k: int| 0 <= k < el.skip(1).len() implies #[trigger] el.skip(1)[k]
                == sp_encode_ingredient_list(rms.skip(1))[k] by {
                assert(el.skip(1)[k] == el[k + 1]);
                assert(rms.skip(1)[k] == rms[k + 1]);
            }
        }
        assert(forall|k: int|
            0 <= k < rms.skip(1).len() ==> #[trigger] rms.skip(1)[k] == rms[k + 1]);
        lemma_ingredient_list_round_trip(rms.skip(1));
        assert(sp_decode_ingredient_list(el) == Some(seq![rms[0]] + rms.skip(1)));
        assert(seq![rms[0]] + rms.skip(1) =~= rms);
        assert forall|k: int| 0 <= k < el.len() implies json::wf_json(#[trigger] el[k]) by {
            if k > 0 {
                json::lemma_wf_arr_elem(el.skip(1), k - 1);
                assert(el.skip(1)[k - 1] == el[k]);
            }
        }
        json::lemma_wf_list_from_all(el, 0);
    }
}


/// One output produced of the recipe.
#[derive(Debug, PartialEq)]
pub struct RecipeProduct {
    /// Prototype name.
    pub name: String,
    /// `item` or `fluid`.
    pub kind: String,
    /// Units per craft.
    pub amount: Decimal,
}

pub ghost struct ProductModel {
    pub name: Seq<char>,
    pub kind: Seq<char>,
    pub amount: NumSpec,
}

impl RecipeProduct {
    pub open spec fn model(&self) -> ProductModel {
        ProductModel { name: self.name@, kind: self.kind@, amount: self.amount.model() }
    }

    pub open spec fn wf(&self) -> bool {
        json::wf_num(self.amount.model())
    }
}

pub open spec fn product_models(v: Seq<RecipeProduct>) -> Seq<ProductModel> {
    Seq::new(
        v.len(),
        |i: int|
            if 0 <= i < v.len() {
                v[i].model()
            } else {
                arbitrary()
            },
    )
}

pub open spec fn sp_decode_product_rec(m: JsonSpec) -> Option<ProductModel> {
    if json::sp_get_str(m, "name"@) is Some && json::sp_get_str(m, "type"@) is Some
        && json::sp_get_num(m, "amount"@) is Some {
        Some(
            ProductModel {
                name: json::sp_get_str(m, "name"@).unwrap(),
                kind: json::sp_get_str(m, "type"@).unwrap(),
                amount: json::sp_get_num(m, "amount"@).unwrap(),
            },
        )
    } else {
        None
    }
}

pub open spec fn sp_decode_product_list(ms: Seq<JsonSpec>) -> Option<Seq<ProductModel>>
    decreases ms.len(),
{
    if ms.len() == 0 {
        Some(Seq::empty())
    } else {
        match sp_decode_product_rec(ms[0]) {
            None => None,
            Some(im) => match sp_decode_product_list(ms.skip(1)) {
                None => None,
                Some(rest) => Some(seq![im] + rest),
            },
        }
    }
}

pub open spec fn sp_encode_product_rec(rm: ProductModel) -> JsonSpec {
    JsonSpec::Obj(
        seq![
            ("name"@, JsonSpec::Str(rm.name)),
            ("type"@, JsonSpec::Str(rm.kind)),
            ("amount"@, JsonSpec::Num(rm.amount)),
        ],
    )
}

pub open spec fn sp_encode_product_list(rms: Seq<ProductModel>) -> Seq<JsonSpec> {
    Seq::new(
        rms.len(),
        |i: int|
            if 0 <= i < rms.len() {
                sp_encode_product_rec(rms[i])
            } else {
                JsonSpec::Null
            },
    )
}

fn decode_product_rec(v: &JsonValue) -> (r: Option<RecipeProduct>)
    ensures
        match r {
            Some(it) => sp_decode_product_rec(json::model_of(*v)) == Some(it.model())
                && (json::wf_json(json::model_of(*v)) ==> it.wf()),
            None => sp_decode_product_rec(json::model_of(*v)) is None,
        },
{
    let name = v.get_str_field("name");
    let kind = v.get_str_field("type");
    let amount = v.get_num_field("amount");
    match (name, kind, amount) {
        (Some(name), Some(kind), Some(amount)) => {
            proof {
                if json::wf_json(json::model_of(*v)) {
                    json::lemma_wf_get(json::model_of(*v), "amount"@);
                }
            }
            Some(RecipeProduct { name, kind, amount })
        },
        _ => None,
    }
}

fn decode_product_list(items: &Vec<JsonValue>) -> (r: Option<Vec<RecipeProduct>>)
    requires
        json::wf_json_list(json::models_of(items@), 0),
    ensures
        match r {
            Some(out) => sp_decode_product_list(json::models_of(items@)) == Some(
                product_models(out@),
            ) && (forall|k: int| 0 <= k < out@.len() ==> (#[trigger] out@[k]).wf()),
            None => sp_decode_product_list(json::models_of(items@)) is None,
        },
{
    let ghost ms = json::models_of(items@);
    let n = items.len();
    let mut out: Vec<RecipeProduct> = Vec::new();
    let mut i: usize = 0;
    proof {
        assert(ms.skip(0) =~= ms);
        assert(product_models(out@) =~= Seq::<ProductModel>::empty());
        if sp_decode_product_list(ms) is Some {
            let rest = sp_decode_product_list(ms).unwrap();
            assert(Seq::<ProductModel>::empty() + rest =~= rest);
        }
    }
    while i < n
        invariant
            n == items@.len(),
            i <= n,
            ms == json::models_of(items@),
            json::wf_json_list(ms, 0),
            sp_decode_product_list(ms) == sp_prepend_list(
                product_models(out@),
                sp_decode_product_list(ms.skip(i as int)),
            ),
            forall|k: int| 0 <= k < out@.len() ==> (#[trigger] out@[k]).wf(),
        decreases n - i,
    {
        proof {
            assert(ms.skip(i as int)[0] == ms[i as int]);
            assert(ms[i as int] == json::model_of(items@[i as int]));
            assert(ms.skip(i as int).skip(1) =~= ms.skip(i as int + 1));
            assert(json::wf_json(JsonSpec::Arr(ms)));
            json::lemma_wf_arr_elem(ms, i as int);
        }
        match decode_product_rec(&items[i]) {
            None => {
                return None;
            },
            Some(it) => {
                let ghost old_out = out@;
                out.push(it);
                proof {
                    assert(product_models(out@) =~= product_models(old_out).push(
                        it.model(),
                    ));
                    let x = sp_decode_product_list(ms.skip(i as int + 1));
                    if x is Some {
                        let rest = x.unwrap();
                        assert(product_models(old_out) + (seq![it.model()] + rest)
                            =~= product_models(out@) + rest);
                    }
                }
                i = i + 1;
            },
        }
    }
    proof {
        assert(ms.skip(n as int) =~= Seq::<JsonSpec>::empty());
        assert(product_models(out@) + Seq::<ProductModel>::empty() =~= product_models(
            out@,
        ));
    }
    Some(out)
}

fn encode_product_rec(it: &RecipeProduct) -> (r: JsonValue)
    requires
        it.wf(),
    ensures
        json::model_of(r) == sp_encode_product_rec(it.model()),
        json::wf_json(json::model_of(r)),
{
    let mut pairs: Vec<(String, JsonValue)> = Vec::new();
    pairs.push((String::from_str("name"), JsonValue::Str(it.name.clone())));
    pairs.push((String::from_str("type"), JsonValue::Str(it.kind.clone())));
    pairs.push((String::from_str("amount"), JsonValue::Num(it.amount.duplicate())));
    proof {
        json::lemma_model_of_obj(pairs);
        assert(json::member_models_of(pairs@) =~= sp_encode_product_rec(it.model())->Obj_0);
        let mm = json::member_models_of(pairs@);
        assert(json::wf_json(mm[0].1));
        assert(json::wf_json(mm[1].1));
        assert(json::wf_json(mm[2].1));
        assert(json::wf_json_members(mm, 3));
        assert(json::wf_json_members(mm, 2));
        assert(json::wf_json_members(mm, 1));
        assert(json::wf_json_members(mm, 0));
    }
    JsonValue::Obj(pairs)
}

fn encode_product_list(v: &Vec<RecipeProduct>) -> (r: Vec<JsonValue>)
    requires
        forall|k: int| 0 <= k < v@.len() ==> (#[trigger] v@[k]).wf(),
    ensures
        json::models_of(r@) == sp_encode_product_list(product_models(v@)),
        json::wf_json_list(json::models_of(r@), 0),
{
    let ghost eil = sp_encode_product_list(product_models(v@));
    let n = v.len();
    let mut jitems: Vec<JsonValue> = Vec::new();
    let mut i: usize = 0;
    proof {
        assert(json::models_of(jitems@) =~= eil.take(0));
        assert(json::wf_json_list(json::models_of(jitems@), 0));
    }
    while i < n
        invariant
            n == v@.len(),
            i <= n,
            forall|k: int| 0 <= k < v@.len() ==> (#[trigger] v@[k]).wf(),
            eil == sp_encode_product_list(product_models(v@)),
            eil.len() == n,
            json::models_of(jitems@) == eil.take(i as int),
            json::wf_json_list(json::models_of(jitems@), 0),
        decreases n - i,
    {
        proof {
            assert(product_models(v@)[i as int] == v@[i as int].model());
            assert(eil[i as int] == sp_encode_product_rec(v@[i as int].model()));
        }
        let jv = encode_product_rec(&v[i]);
        let ghost old_models = json::models_of(jitems@);
        proof {
            json::lemma_wf_list_push(old_models, json::model_of(jv), 0);
        }
        jitems.push(jv);
        proof {
            assert(json::models_of(jitems@) =~= old_models.push(json::model_of(jv)));
            assert(json::models_of(jitems@) =~= eil.take(i as int + 1));
        }
        i = i + 1;
    }
    proof {
        assert(eil.take(n as int) =~= eil);
    }
    jitems
}

proof fn lemma_product_rec_round_trip(rm: ProductModel)
    requires
        json::wf_num(rm.amount),
    ensures
        sp_decode_product_rec(sp_encode_product_rec(rm)) == Some(rm),
        json::wf_json(sp_encode_product_rec(rm)),
{
    let enc = sp_encode_product_rec(rm);
    let mm = enc->Obj_0;
    assert(json::wf_json(mm[0].1));
    assert(json::wf_json(mm[1].1));
    assert(json::wf_json(mm[2].1));
    assert(json::wf_json_members(mm, 3));
    assert(json::wf_json_members(mm, 2));
    assert(json::wf_json_members(mm, 1));
    assert(json::wf_json_members(mm, 0));
    reveal_strlit("name");
    reveal_strlit("type");
    reveal_strlit("amount");
    assert("name"@[0] != "type"@[0]);
    assert("name"@ != "type"@);
    assert("name"@.len() != "amount"@.len());
    assert("name"@ != "amount"@);
    assert("type"@.len() != "amount"@.len());
    assert("type"@ != "amount"@);
    let s1 = mm.skip(1);
    assert(s1 =~= seq![
        ("type"@, JsonSpec::Str(rm.kind)),
        ("amount"@, JsonSpec::Num(rm.amount)),
    ]);
    let s2 = s1.skip(1);
    assert(s2 =~= seq![("amount"@, JsonSpec::Num(rm.amount))]);
    assert(json::sp_get_str(enc, "name"@) == Some(rm.name));
    assert(json::sp_obj_get(s1, "type"@) is Some);
    assert(json::sp_get_str(enc, "type"@) == Some(rm.kind));
    assert(json::sp_obj_get(s2, "amount"@) is Some);
    assert(json::sp_obj_get(s1, "amount"@) is Some);
    assert(json::sp_get_num(enc, "amount"@) == Some(rm.amount));
}

proof fn lemma_product_list_round_trip(rms: Seq<ProductModel>)
    requires
        forall|k: int| 0 <= k < rms.len() ==> json::wf_num((#[trigger] rms[k]).amount),
    ensures
        sp_decode_product_list(sp_encode_product_list(rms)) == Some(rms),
        json::wf_json_list(sp_encode_product_list(rms), 0),
    decreases rms.len(),
{
    let el = sp_encode_product_list(rms);
    if rms.len() == 0 {
        assert(el =~= Seq::<JsonSpec>::empty());
        assert(sp_decode_product_list(el) == Some(Seq::<ProductModel>::empty()));
        assert(rms =~= Seq::<ProductModel>::empty());
    } else {
        lemma_product_rec_round_trip(rms[0]);
        assert(el[0] == sp_encode_product_rec(rms[0]));
        assert(el.skip(1) =~= sp_encode_product_list(rms.skip(1))) by {
            assert forall|k: int| 0 <= k < el.skip(1).len() implies #[trigger] el.skip(1)[k]
                == sp_encode_product_list(rms.skip(1))[k] by {
                assert(el.skip(1)[k] == el[k + 1]);
                assert(rms.skip(1)[k] == rms[k + 1]);
            }
        }
        assert(forall|k: int|
            0 <= k < rms.skip(1).len() ==> #[trigger] rms.skip(1)[k] == rms[k + 1]);
        lemma_product_list_round_trip(rms.skip(1));
        assert(sp_decode_product_list(el) == Some(seq![rms[0]] + rms.skip(1)));
        assert(seq![rms[0]] + rms.skip(1) =~= rms);
        assert forall|k: int| 0 <= k < el.len() implies json::wf_json(#[trigger] el[k]) by {
            if k > 0 {
                json::lemma_wf_arr_elem(el.skip(1), k - 1);
                assert(el.skip(1)[k - 1] == el[k]);
            }
        }
        json::lemma_wf_list_from_all(el, 0);
    }
}


/// Full recipe details from the prototype data.
#[derive(Debug, PartialEq)]
pub struct RecipeInfo {
    /// Recipe prototype name.
    pub name: String,
    /// Base crafting time in seconds.
    pub energy: Decimal,
    /// Inputs consumed per craft.
    pub ingredients: Vec<RecipeIngredient>,
    /// Outputs produced per craft.
    pub products: Vec<RecipeProduct>,
}

pub ghost struct RecipeModel {
    pub name: Seq<char>,
    pub energy: NumSpec,
    pub ingredients: Seq<IngredientModel>,
    pub products: Seq<ProductModel>,
}

impl RecipeInfo {
    pub open spec fn model(&self) -> RecipeModel {
        RecipeModel {
            name: self.name@,
            energy: self.energy.model(),
            ingredients: ingredient_models(self.ingredients@),
            products: product_models(self.products@),
        }
    }

    pub open spec fn wf(&self) -> bool {
        json::wf_num(self.energy.model()) && (forall|k: int|
            0 <= k < self.ingredients@.len() ==> (#[trigger] self.ingredients@[k]).wf()) && (
        forall|k: int| 0 <= k < self.products@.len() ==> (#[trigger] self.products@[k]).wf())
    }
}

pub open spec fn sp_decode_recipe(m: JsonSpec) -> Option<RecipeModel> {
    if json::sp_get_str(m, "name"@) is Some && json::sp_get_num(m, "energy"@) is Some
        && json::sp_get_items(m, "ingredients"@) is Some && json::sp_get_items(
        m,
        "products"@,
    ) is Some && sp_decode_ingredient_list(json::sp_get_items(m, "ingredients"@).unwrap())
        is Some && sp_decode_product_list(json::sp_get_items(m, "products"@).unwrap())
        is Some {
        Some(
            RecipeModel {
                name: json::sp_get_str(m, "name"@).unwrap(),
                energy: json::sp_get_num(m, "energy"@).unwrap(),
                ingredients: sp_decode_ingredient_list(
                    json::sp_get_items(m, "ingredients"@).unwrap(),
                ).unwrap(),
                products: sp_decode_product_list(
                    json::sp_get_items(m, "products"@).unwrap(),
                ).unwrap(),
            },
        )
    } else {
        None
    }
}

pub open spec fn sp_encode_recipe(rm: RecipeModel) -> JsonSpec {
    JsonSpec::Obj(
        seq![
            ("name"@, JsonSpec::Str(rm.name)),
            ("energy"@, JsonSpec::Num(rm.energy)),
            ("ingredients"@, JsonSpec::Arr(sp_encode_ingredient_list(rm.ingredients))),
            ("products"@, JsonSpec::Arr(sp_encode_product_list(rm.products))),
        ],
    )
}

/// The snippet this query sends, with the recipe name sanitized.
pub fn snippet_for(args: &GetRecipeArgs) -> (r: String)
    ensures
        r@ == lua::spec_snippet(lua::QueryKind::Recipe, args.recipe_name@, 0),
{
    lua::recipe(args.recipe_name.as_str())
}

/// Decode a transport response into typed recipe details.
pub fn parse_recipe(s: &str) -> (r: Result<RecipeInfo, SenseiError>)
    ensures
        match r {
            Ok(p) => p.wf() && json::sp_json(s@) is Some && sp_decode_recipe(
                json::sp_json(s@).unwrap(),
            ) == Some(p.model()),
            Err(e) => match e {
                SenseiError::JsonParse(msg) => (json::sp_json(s@) is None && msg@
                    == "malformed transport text"@) || (json::sp_json(s@) is Some
                    && sp_decode_recipe(json::sp_json(s@).unwrap()) is None && msg@
                    == "response shape mismatch"@),
                _ => false,
            },
        },
{
    match json::parse_json(s) {
        None => Err(SenseiError::JsonParse(String::from_str("malformed transport text"))),
        Some(jv) => {
            let name = jv.get_str_field("name");
            let energy = jv.get_num_field("energy");
            match (name, energy) {
                (Some(name), Some(energy)) => {
                    let ing_items = jv.get_items_field("ingredients");
                    match ing_items {
                        None => Err(
                            SenseiError::JsonParse(
                                String::from_str("response shape mismatch"),
                            ),
                        ),
                        Some(ing_items) => {
                            proof {
                                json::lemma_wf_get(json::model_of(jv), "ingredients"@);
                            }
                            match decode_ingredient_list(ing_items) {
                                None => Err(
                                    SenseiError::JsonParse(
                                        String::from_str("response shape mismatch"),
                                    ),
                                ),
                                Some(ingredients) => {
                                    let prod_items = jv.get_items_field("products");
                                    match prod_items {
                                        None => Err(
                                            SenseiError::JsonParse(
                                                String::from_str("response shape mismatch"),
                                            ),
                                        ),
                                        Some(prod_items) => {
                                            proof {
                                                json::lemma_wf_get(
                                                    json::model_of(jv),
                                                    "products"@,
                                                );
                                            }
                                            match decode_product_list(prod_items) {
                                                None => Err(
                                                    SenseiError::JsonParse(
                                                        String::from_str(
                                                            "response shape mismatch",
                                                        ),
                                                    ),
                                                ),
                                                Some(products) => {
                                                    proof {
                                                        json::lemma_wf_get(
                                                            json::model_of(jv),
                                                            "energy"@,
                                                        );
                                                    }
                                                    Ok(
                                                        RecipeInfo {
                                                            name,
                                                            energy,
                                                            ingredients,
                                                            products,
                                                        },
                                                    )
                                                },
                                            }
                                        },
                                    }
                                },
                            }
                        },
                    }
                },
                _ => Err(SenseiError::JsonParse(String::from_str("response shape mismatch"))),
            }
        },
    }
}

/// Encode recipe details to the transport's canonical text.
pub fn encode_recipe(p: &RecipeInfo) -> (r: String)
    requires
        p.wf(),
    ensures
        r@ == json::sp_print(sp_encode_recipe(p.model())),
{
    let jing = encode_ingredient_list(&p.ingredients);
    let jprod = encode_product_list(&p.products);
    proof {
        json::lemma_model_of_arr(jing);
        json::lemma_model_of_arr(jprod);
    }
    let mut pairs: Vec<(String, JsonValue)> = Vec::new();
    pairs.push((String::from_str("name"), JsonValue::Str(p.name.clone())));
    pairs.push((String::from_str("energy"), JsonValue::Num(p.energy.duplicate())));
    pairs.push((String::from_str("ingredients"), JsonValue::Arr(jing)));
    pairs.push((String::from_str("products"), JsonValue::Arr(jprod)));
    proof {
        json::lemma_model_of_obj(pairs);
        assert(json::member_models_of(pairs@) =~= sp_encode_recipe(p.model())->Obj_0);
        let mm = json::member_models_of(pairs@);
        assert(json::wf_json(mm[0].1));
        assert(json::wf_json(mm[1].1));
        assert(json::wf_json(mm[2].1));
        assert(json::wf_json(mm[3].1));
        assert(json::wf_json_members(mm, 4));
        assert(json::wf_json_members(mm, 3));
        assert(json::wf_json_members(mm, 2));
        assert(json::wf_json_members(mm, 1));
        assert(json::wf_json_members(mm, 0));
    }
    let jv = JsonValue::Obj(pairs);
    json::to_json_text(&jv)
}

/// Round trip: encoding any well-formed recipe and decoding the text
/// reproduces it exactly.
pub proof fn lemma_recipe_round_trip(rm: RecipeModel)
    requires
        json::wf_num(rm.energy),
        forall|k: int|
            0 <= k < rm.ingredients.len() ==> json::wf_num(
                (#[trigger] rm.ingredients[k]).amount,
            ),
        forall|k: int|
            0 <= k < rm.products.len() ==> json::wf_num((#[trigger] rm.products[k]).amount),
    ensures
        json::sp_json(json::sp_print(sp_encode_recipe(rm))) == Some(sp_encode_recipe(rm)),
        sp_decode_recipe(sp_encode_recipe(rm)) == Some(rm),
{
    lemma_ingredient_list_round_trip(rm.ingredients);
    lemma_product_list_round_trip(rm.products);
    let enc = sp_encode_recipe(rm);
    let mm = enc->Obj_0;
    assert(json::wf_json(mm[0].1));
    assert(json::wf_json(mm[1].1));
    assert(json::wf_json(mm[2].1));
    assert(json::wf_json(mm[3].1));
    assert(json::wf_json_members(mm, 4));
    assert(json::wf_json_members(mm, 3));
    assert(json::wf_json_members(mm, 2));
    assert(json::wf_json_members(mm, 1));
    assert(json::wf_json_members(mm, 0));
    json::lemma_round_trip(enc);
    reveal_strlit("name");
    reveal_strlit("energy");
    reveal_strlit("ingredients");
    reveal_strlit("products");
    assert("name"@.len() != "energy"@.len());
    assert("name"@ != "energy"@);
    assert("name"@.len() != "ingredients"@.len());
    assert("name"@ != "ingredients"@);
    assert("name"@.len() != "products"@.len());
    assert("name"@ != "products"@);
    assert("energy"@.len() != "ingredients"@.len());
    assert("energy"@ != "ingredients"@);
    assert("energy"@.len() != "products"@.len());
    assert("energy"@ != "products"@);
    assert("ingredients"@.len() != "products"@.len());
    assert("ingredients"@ != "products"@);
    let s1 = mm.skip(1);
    assert(s1 =~= seq![
        ("energy"@, JsonSpec::Num(rm.energy)),
        ("ingredients"@, JsonSpec::Arr(sp_encode_ingredient_list(rm.ingredients))),
        ("products"@, JsonSpec::Arr(sp_encode_product_list(rm.products))),
    ]);
    let s2 = s1.skip(1);
    assert(s2 =~= seq![
        ("ingredients"@, JsonSpec::Arr(sp_encode_ingredient_list(rm.ingredients))),
        ("products"@, JsonSpec::Arr(sp_encode_product_list(rm.products))),
    ]);
    let s3 = s2.skip(1);
    assert(s3 =~= seq![("products"@, JsonSpec::Arr(sp_encode_product_list(rm.products)))]);
    assert(json::sp_get_str(enc, "name"@) == Some(rm.name));
    assert(json::sp_obj_get(s1, "energy"@) is Some);
    assert(json::sp_get_num(enc, "energy"@) == Some(rm.energy));
    assert(json::sp_obj_get(s2, "ingredients"@) is Some);
    assert(json::sp_obj_get(s1, "ingredients"@) is Some);
    assert(json::sp_get_items(enc, "ingredients"@) == Some(
        sp_encode_ingredient_list(rm.ingredients),
    ));
    assert(json::sp_obj_get(s3, "products"@) is Some);
    assert(json::sp_obj_get(s2, "products"@) is Some);
    assert(json::sp_obj_get(s1, "products"@) is Some);
    assert(json::sp_get_items(enc, "products"@) == Some(
        sp_encode_product_list(rm.products),
    ));
}

} // verus!

verus! {

/// What this tool declares to the assistant.
pub fn definition() -> (r: crate::tools::ToolSpec)
    ensures
        r.name@ == "get_recipe"@,
        r.description@ == "Look up a recipe's ingredients, products, and crafting time by prototype name"@,
        crate::json::model_of(r.parameters) == crate::tools::sp_schema_req_str("recipe_name"@, "The recipe prototype name (e.g. 'iron-gear-wheel', 'electronic-circuit')"@),
        crate::json::wf_json(crate::json::model_of(r.parameters)),
{
    crate::tools::ToolSpec {
        name: String::from_str("get_recipe"),
        description: String::from_str(
            "Look up a recipe's ingredients, products, and crafting time by prototype name",
        ),
        parameters: crate::tools::schema_req_str("recipe_name", "The recipe prototype name (e.g. 'iron-gear-wheel', 'electronic-circuit')"),
    }
}

} // verus!
