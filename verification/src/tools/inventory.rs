//! The inventory query: every item in the player's main inventory,
//! aggregated by name.

use vstd::prelude::*;

use crate::error::SenseiError;
use crate::json;
use crate::json::Decimal;
use crate::json::JsonSpec;
use crate::json::JsonValue;
use crate::lua;
use crate::tools::sp_prepend_list;

verus! {

/// Arguments of the inventory query; it takes none.
#[derive(Debug)]
pub struct GetPlayerInventoryArgs {}

/// A single item stack aggregated across all inventory slots.
#[derive(Debug, PartialEq)]
pub struct InventoryItem {
    /// Item prototype name.
    pub name: String,
    /// Total count across all stacks of this item.
    pub count: u64,
}

/// The player's main inventory contents, one entry per item name.
#[derive(Debug, PartialEq)]
pub struct PlayerInventory {
    pub items: Vec<InventoryItem>,
}

pub ghost struct ItemModel {
    pub name: Seq<char>,
    pub count: nat,
}

impl InventoryItem {
    pub open spec fn model(&self) -> ItemModel {
        ItemModel { name: self.name@, count: self.count as nat }
    }
}

pub open spec fn item_models(v: Seq<InventoryItem>) -> Seq<ItemModel> {
    Seq::new(
        v.len(),
        |i: int|
            if 0 <= i < v.len() {
                v[i].model()
            } else {
                ItemModel { name: Seq::empty(), count: 0 }
            },
    )
}

impl PlayerInventory {
    pub open spec fn model(&self) -> Seq<ItemModel> {
        item_models(self.items@)
    }
}

pub open spec fn sp_decode_item(m: JsonSpec) -> Option<ItemModel> {
    if json::sp_get_str(m, "name"@) is Some && json::sp_get_u64(m, "count"@) is Some {
        Some(
            ItemModel {
                name: json::sp_get_str(m, "name"@).unwrap(),
                count: json::sp_get_u64(m, "count"@).unwrap(),
            },
        )
    } else {
        None
    }
}

pub open spec fn sp_decode_item_list(ms: Seq<JsonSpec>) -> Option<Seq<ItemModel>>
    decreases ms.len(),
{
    if ms.len() == 0 {
        Some(Seq::empty())
    } else {
        match sp_decode_item(ms[0]) {
            None => None,
            Some(im) => match sp_decode_item_list(ms.skip(1)) {
                None => None,
                Some(rest) => Some(seq![im] + rest),
            },
        }
    }
}

pub open spec fn sp_decode_inventory(m: JsonSpec) -> Option<Seq<ItemModel>> {
    match json::sp_get_items(m, "items"@) {
        None => None,
        Some(ms) => sp_decode_item_list(ms),
    }
}

pub open spec fn sp_encode_item(im: ItemModel) -> JsonSpec {
    JsonSpec::Obj(
        seq![
            ("name"@, JsonSpec::Str(im.name)),
            (
                "count"@,
                JsonSpec::Num(json::NumSpec { neg: false, int_part: im.count, frac: Seq::empty() }),
            ),
        ],
    )
}

pub open spec fn sp_encode_item_list(ims: Seq<ItemModel>) -> Seq<JsonSpec> {
    Seq::new(
        ims.len(),
        |i: int|
            if 0 <= i < ims.len() {
                sp_encode_item(ims[i])
            } else {
                JsonSpec::Null
            },
    )
}

pub open spec fn sp_encode_inventory(ims: Seq<ItemModel>) -> JsonSpec {
    JsonSpec::Obj(seq![("items"@, JsonSpec::Arr(sp_encode_item_list(ims)))])
}

/// The snippet this query sends (it has no parameters to apply).
pub fn snippet_for(args: &GetPlayerInventoryArgs) -> (r: String)
    ensures
        r@ == lua::spec_snippet(lua::QueryKind::Inventory, Seq::empty(), 0),
{
    lua::player_inventory()
}

fn decode_item(v: &JsonValue) -> (r: Option<InventoryItem>)
    ensures
        match r {
            Some(it) => sp_decode_item(json::model_of(*v)) == Some(it.model()),
            None => sp_decode_item(json::model_of(*v)) is None,
        },
{
    let name = v.get_str_field("name");
    let count = v.get_u64_field("count");
    match (name, count) {
        (Some(name), Some(count)) => Some(InventoryItem { name, count }),
        _ => None,
    }
}

fn decode_item_list(items: &Vec<JsonValue>) -> (r: Option<Vec<InventoryItem>>)
    ensures
        match r {
            Some(out) => sp_decode_item_list(json::models_of(items@)) == Some(
                item_models(out@),
            ),
            None => sp_decode_item_list(json::models_of(items@)) is None,
        },
{
    let ghost ms = json::models_of(items@);
    let n = items.len();
    let mut out: Vec<InventoryItem> = Vec::new();
    let mut i: usize = 0;
    proof {
        assert(ms.skip(0) =~= ms);
        assert(item_models(out@) =~= Seq::<ItemModel>::empty());
        if sp_decode_item_list(ms) is Some {
            let rest = sp_decode_item_list(ms).unwrap();
            assert(Seq::<ItemModel>::empty() + rest =~= rest);
        }
    }
    while i < n
        invariant
            n == items@.len(),
            i <= n,
            ms == json::models_of(items@),
            sp_decode_item_list(ms) == sp_prepend_list(
                item_models(out@),
                sp_decode_item_list(ms.skip(i as int)),
            ),
        decreases n - i,
    {
        proof {
            assert(ms.skip(i as int)[0] == ms[i as int]);
            assert(ms[i as int] == json::model_of(items@[i as int]));
            assert(ms.skip(i as int).skip(1) =~= ms.skip(i as int + 1));
        }
        match decode_item(&items[i]) {
            None => {
                return None;
            },
            Some(it) => {
                let ghost old_out = out@;
                out.push(it);
                proof {
                    assert(item_models(out@) =~= item_models(old_out).push(it.model()));
                    let x = sp_decode_item_list(ms.skip(i as int + 1));
                    if x is Some {
                        let rest = x.unwrap();
                        assert(item_models(old_out) + (seq![it.model()] + rest)
                            =~= item_models(out@) + rest);
                    }
                }
                i = i + 1;
            },
        }
    }
    proof {
        assert(ms.skip(n as int) =~= Seq::<JsonSpec>::empty());
        assert(item_models(out@) + Seq::<ItemModel>::empty() =~= item_models(out@));
    }
    Some(out)
}

/// Decode a transport response into a typed inventory.
pub fn parse_inventory(s: &str) -> (r: Result<PlayerInventory, SenseiError>)
    ensures
        match r {
            Ok(p) => json::sp_json(s@) is Some && sp_decode_inventory(
                json::sp_json(s@).unwrap(),
            ) == Some(p.model()),
            Err(e) => match e {
                SenseiError::JsonParse(msg) => (json::sp_json(s@) is None && msg@
                    == "malformed transport text"@) || (json::sp_json(s@) is Some
                    && sp_decode_inventory(json::sp_json(s@).unwrap()) is None && msg@
                    == "response shape mismatch"@),
                _ => false,
            },
        },
{
    match json::parse_json(s) {
        None => Err(SenseiError::JsonParse(String::from_str("malformed transport text"))),
        Some(jv) => {
            match jv.get_items_field("items") {
                None => Err(SenseiError::JsonParse(String::from_str("response shape mismatch"))),
                Some(items) => match decode_item_list(items) {
                    None => Err(
                        SenseiError::JsonParse(String::from_str("response shape mismatch")),
                    ),
                    Some(out) => Ok(PlayerInventory { items: out }),
                },
            }
        },
    }
}

fn encode_item(it: &InventoryItem) -> (r: JsonValue)
    ensures
        json::model_of(r) == sp_encode_item(it.model()),
        json::wf_json(json::model_of(r)),
{
    let mut pairs: Vec<(String, JsonValue)> = Vec::new();
    pairs.push((String::from_str("name"), JsonValue::Str(it.name.clone())));
    pairs.push((String::from_str("count"), JsonValue::Num(Decimal::from_u64(it.count))));
    proof {
        json::lemma_model_of_obj(pairs);
        assert(json::member_models_of(pairs@) =~= sp_encode_item(it.model())->Obj_0);
        let mm = json::member_models_of(pairs@);
        assert(json::wf_json(mm[0].1));
        assert(json::wf_json(mm[1].1));
        assert(json::wf_json_members(mm, 2));
        assert(json::wf_json_members(mm, 1));
        assert(json::wf_json_members(mm, 0));
    }
    JsonValue::Obj(pairs)
}

/// Encode an inventory to the transport's canonical text.
pub fn encode_inventory(p: &PlayerInventory) -> (r: String)
    ensures
        r@ == json::sp_print(sp_encode_inventory(p.model())),
{
    let ghost eil = sp_encode_item_list(p.model());
    let n = p.items.len();
    let mut jitems: Vec<JsonValue> = Vec::new();
    let mut i: usize = 0;
    proof {
        assert(json::models_of(jitems@) =~= eil.take(0));
        assert(json::wf_json_list(json::models_of(jitems@), 0));
    }
    while i < n
        invariant
            n == p.items@.len(),
            i <= n,
            eil == sp_encode_item_list(p.model()),
            eil.len() == n,
            json::models_of(jitems@) == eil.take(i as int),
            json::wf_json_list(json::models_of(jitems@), 0),
        decreases n - i,
    {
        proof {
            assert(p.model()[i as int] == p.items@[i as int].model());
            assert(eil[i as int] == sp_encode_item(p.items@[i as int].model()));
        }
        let jv = encode_item(&p.items[i]);
        let ghost old_models = json::models_of(jitems@);
        proof {
            json::lemma_wf_list_push(old_models, json::model_of(jv), 0);
        }
        jitems.push(jv);
        proof {
            assert(json::models_of(jitems@) =~= old_models.push(json::model_of(jv)));
            assert(json::models_of(jitems@) =~= eil.take(i as int + 1));
        }
        i = i + 1;
    }
    proof {
        assert(eil.take(n as int) =~= eil);
        json::lemma_model_of_arr(jitems);
    }
    let jarr = JsonValue::Arr(jitems);
    let mut pairs: Vec<(String, JsonValue)> = Vec::new();
    pairs.push((String::from_str("items"), jarr));
    proof {
        json::lemma_model_of_obj(pairs);
        assert(json::member_models_of(pairs@) =~= sp_encode_inventory(p.model())->Obj_0);
        let mm = json::member_models_of(pairs@);
        assert(json::wf_json(mm[0].1));
        assert(json::wf_json_members(mm, 1));
        assert(json::wf_json_members(mm, 0));
    }
    let jv = JsonValue::Obj(pairs);
    json::to_json_text(&jv)
}

proof fn lemma_item_round_trip(im: ItemModel)
    requires
        im.count <= 0xFFFF_FFFF_FFFF_FFFF,
    ensures
        sp_decode_item(sp_encode_item(im)) == Some(im),
        json::wf_json(sp_encode_item(im)),
{
    let enc = sp_encode_item(im);
    let mm = enc->Obj_0;
    assert(json::wf_json(mm[0].1));
    assert(json::wf_json(mm[1].1));
    assert(json::wf_json_members(mm, 2));
    assert(json::wf_json_members(mm, 1));
    assert(json::wf_json_members(mm, 0));
    reveal_strlit("name");
    reveal_strlit("count");
    assert("name"@[0] != "count"@[0]);
    assert("name"@ != "count"@);
    assert(mm.skip(1) =~= seq![
        (
            "count"@,
            JsonSpec::Num(json::NumSpec { neg: false, int_part: im.count, frac: Seq::empty() }),
        ),
    ]);
    assert(json::sp_get_str(enc, "name"@) == Some(im.name));
    assert(json::sp_obj_get(mm.skip(1), "count"@) is Some);
    assert(json::sp_get_u64(enc, "count"@) == Some(im.count));
}

proof fn lemma_item_list_round_trip(ims: Seq<ItemModel>)
    requires
        forall|k: int| 0 <= k < ims.len() ==> (#[trigger] ims[k]).count <= 0xFFFF_FFFF_FFFF_FFFF,
    ensures
        sp_decode_item_list(sp_encode_item_list(ims)) == Some(ims),
        json::wf_json_list(sp_encode_item_list(ims), 0),
    decreases ims.len(),
{
    let el = sp_encode_item_list(ims);
    if ims.len() == 0 {
        assert(el =~= Seq::<JsonSpec>::empty());
        assert(sp_decode_item_list(el) == Some(Seq::<ItemModel>::empty()));
        assert(ims =~= Seq::<ItemModel>::empty());
    } else {
        lemma_item_round_trip(ims[0]);
        assert(el[0] == sp_encode_item(ims[0]));
        assert(el.skip(1) =~= sp_encode_item_list(ims.skip(1))) by {
            assert forall|k: int| 0 <= k < el.skip(1).len() implies #[trigger] el.skip(1)[k]
                == sp_encode_item_list(ims.skip(1))[k] by {
                assert(el.skip(1)[k] == el[k + 1]);
                assert(ims.skip(1)[k] == ims[k + 1]);
            }
        }
        assert(forall|k: int|
            0 <= k < ims.skip(1).len() ==> (#[trigger] ims.skip(1)[k]).count
                <= 0xFFFF_FFFF_FFFF_FFFF) by {
            assert(forall|k: int|
                0 <= k < ims.skip(1).len() ==> #[trigger] ims.skip(1)[k] == ims[k + 1]);
        }
        lemma_item_list_round_trip(ims.skip(1));
        assert(sp_decode_item_list(el) == Some(seq![ims[0]] + ims.skip(1)));
        assert(seq![ims[0]] + ims.skip(1) =~= ims);
        assert(json::wf_json_list(el.skip(1), 0));
        assert forall|k: int| 0 <= k < el.len() implies json::wf_json(#[trigger] el[k]) by {
            if k == 0 {
            } else {
                json::lemma_wf_arr_elem(el.skip(1), k - 1);
                assert(el.skip(1)[k - 1] == el[k]);
            }
        }
        json::lemma_wf_list_from_all(el, 0);
    }
}


/// Round trip: encoding any inventory whose counts fit the machine range
/// and decoding the text reproduces it exactly.
pub proof fn lemma_inventory_round_trip(ims: Seq<ItemModel>)
    requires
        forall|k: int| 0 <= k < ims.len() ==> (#[trigger] ims[k]).count <= 0xFFFF_FFFF_FFFF_FFFF,
    ensures
        json::sp_json(json::sp_print(sp_encode_inventory(ims))) == Some(
            sp_encode_inventory(ims),
        ),
        sp_decode_inventory(sp_encode_inventory(ims)) == Some(ims),
{
    lemma_item_list_round_trip(ims);
    let enc = sp_encode_inventory(ims);
    let mm = enc->Obj_0;
    assert(mm[0].1 == JsonSpec::Arr(sp_encode_item_list(ims)));
    assert(json::wf_json(mm[0].1));
    assert(json::wf_json_members(mm, 1));
    assert(json::wf_json_members(mm, 0));
    json::lemma_round_trip(enc);
    assert(json::sp_get_items(enc, "items"@) == Some(sp_encode_item_list(ims)));
}

} // verus!

verus! {

/// What this tool declares to the assistant.
pub fn definition() -> (r: crate::tools::ToolSpec)
    ensures
        r.name@ == "get_player_inventory"@,
        r.description@ == "Get all items in the player's main inventory"@,
        crate::json::model_of(r.parameters) == crate::tools::sp_schema_no_args(),
        crate::json::wf_json(crate::json::model_of(r.parameters)),
{
    crate::tools::ToolSpec {
        name: String::from_str("get_player_inventory"),
        description: String::from_str(
            "Get all items in the player's main inventory",
        ),
        parameters: crate::tools::schema_no_args(),
    }
}

} // verus!
