//! The production-statistics query: all-time produced and consumed counts
//! of one item.

use vstd::prelude::*;

use crate::error::SenseiError;
use crate::json;
use crate::json::Decimal;
use crate::json::JsonSpec;
use crate::json::JsonValue;
use crate::lua;

verus! {

/// Arguments of the production query.
#[derive(Debug)]
pub struct GetProductionStatsArgs {
    /// Item prototype name to query.
    pub item: String,
}

/// Cumulative production and consumption totals for a single item.
#[derive(Debug, PartialEq)]
pub struct ProductionStats {
    /// The queried item name, echoed back.
    pub item: String,
    /// All-time count produced.
    pub produced: u64,
    /// All-time count consumed.
    pub consumed: u64,
}

pub ghost struct ProductionModel {
    pub item: Seq<char>,
    pub produced: nat,
    pub consumed: nat,
}

impl ProductionStats {
    pub open spec fn model(&self) -> ProductionModel {
        ProductionModel {
            item: self.item@,
            produced: self.produced as nat,
            consumed: self.consumed as nat,
        }
    }
}

pub open spec fn sp_decode_production(m: JsonSpec) -> Option<ProductionModel> {
    if json::sp_get_str(m, "item"@) is Some && json::sp_get_u64(m, "produced"@) is Some
        && json::sp_get_u64(m, "consumed"@) is Some {
        Some(
            ProductionModel {
                item: json::sp_get_str(m, "item"@).unwrap(),
                produced: json::sp_get_u64(m, "produced"@).unwrap(),
                consumed: json::sp_get_u64(m, "consumed"@).unwrap(),
            },
        )
    } else {
        None
    }
}

pub open spec fn sp_encode_production(pm: ProductionModel) -> JsonSpec {
    JsonSpec::Obj(
        seq![
            ("item"@, JsonSpec::Str(pm.item)),
            (
                "produced"@,
                JsonSpec::Num(json::NumSpec { neg: false, int_part: pm.produced, frac: Seq::empty() }),
            ),
            (
                "consumed"@,
                JsonSpec::Num(json::NumSpec { neg: false, int_part: pm.consumed, frac: Seq::empty() }),
            ),
        ],
    )
}

/// The snippet this query sends, with the item name sanitized.
pub fn snippet_for(args: &GetProductionStatsArgs) -> (r: String)
    ensures
        r@ == lua::spec_snippet(lua::QueryKind::Production, args.item@, 0),
{
    lua::production_stats(args.item.as_str())
}

/// Decode a transport response into typed production statistics.
pub fn parse_production_stats(s: &str) -> (r: Result<ProductionStats, SenseiError>)
    ensures
        match r {
            Ok(p) => json::sp_json(s@) is Some && sp_decode_production(
                json::sp_json(s@).unwrap(),
            ) == Some(p.model()),
            Err(e) => match e {
                SenseiError::JsonParse(msg) => (json::sp_json(s@) is None && msg@
                    == "malformed transport text"@) || (json::sp_json(s@) is Some
                    && sp_decode_production(json::sp_json(s@).unwrap()) is None && msg@
                    == "response shape mismatch"@),
                _ => false,
            },
        },
{
    match json::parse_json(s) {
        None => Err(SenseiError::JsonParse(String::from_str("malformed transport text"))),
        Some(jv) => {
            let item = jv.get_str_field("item");
            let produced = jv.get_u64_field("produced");
            let consumed = jv.get_u64_field("consumed");
            match (item, produced, consumed) {
                (Some(item), Some(produced), Some(consumed)) => Ok(
                    ProductionStats { item, produced, consumed },
                ),
                _ => Err(SenseiError::JsonParse(String::from_str("response shape mismatch"))),
            }
        },
    }
}

/// Encode production statistics to the transport's canonical text.
pub fn encode_production_stats(p: &ProductionStats) -> (r: String)
    ensures
        r@ == json::sp_print(sp_encode_production(p.model())),
{
    let mut pairs: Vec<(String, JsonValue)> = Vec::new();
    pairs.push((String::from_str("item"), JsonValue::Str(p.item.clone())));
    pairs.push((String::from_str("produced"), JsonValue::Num(Decimal::from_u64(p.produced))));
    pairs.push((String::from_str("consumed"), JsonValue::Num(Decimal::from_u64(p.consumed))));
    proof {
        json::lemma_model_of_obj(pairs);
        assert(json::member_models_of(pairs@) =~= sp_encode_production(p.model())->Obj_0);
        let mm = json::member_models_of(pairs@);
        assert(json::wf_json(mm[0].1));
        assert(json::wf_json(mm[1].1));
        assert(json::wf_json(mm[2].1));
        assert(json::wf_json_members(mm, 3));
        assert(json::wf_json_members(mm, 2));
        assert(json::wf_json_members(mm, 1));
        assert(json::wf_json_members(mm, 0));
    }
    let jv = JsonValue::Obj(pairs);
    json::to_json_text(&jv)
}

/// Round trip: encoding any production record whose counters fit the
/// machine range and decoding the text reproduces it exactly.
pub proof fn lemma_production_round_trip(pm: ProductionModel)
    requires
        pm.produced <= 0xFFFF_FFFF_FFFF_FFFF,
        pm.consumed <= 0xFFFF_FFFF_FFFF_FFFF,
    ensures
        json::sp_json(json::sp_print(sp_encode_production(pm))) == Some(
            sp_encode_production(pm),
        ),
        sp_decode_production(sp_encode_production(pm)) == Some(pm),
{
    let enc = sp_encode_production(pm);
    let mm = enc->Obj_0;
    assert(json::wf_json(mm[0].1));
    assert(json::wf_json(mm[1].1));
    assert(json::wf_json(mm[2].1));
    assert(json::wf_json_members(mm, 3));
    assert(json::wf_json_members(mm, 2));
    assert(json::wf_json_members(mm, 1));
    assert(json::wf_json_members(mm, 0));
    json::lemma_round_trip(enc);
    reveal_strlit("item");
    reveal_strlit("produced");
    reveal_strlit("consumed");
    assert("item"@.len() != "produced"@.len());
    assert("item"@ != "produced"@);
    assert("item"@.len() != "consumed"@.len());
    assert("item"@ != "consumed"@);
    assert("produced"@[0] != "consumed"@[0]);
    assert("produced"@ != "consumed"@);
    assert(mm.skip(1) =~= seq![
        (
            "produced"@,
            JsonSpec::Num(json::NumSpec { neg: false, int_part: pm.produced, frac: Seq::empty() }),
        ),
        (
            "consumed"@,
            JsonSpec::Num(json::NumSpec { neg: false, int_part: pm.consumed, frac: Seq::empty() }),
        ),
    ]);
    assert(mm.skip(1).skip(1) =~= seq![
        (
            "consumed"@,
            JsonSpec::Num(json::NumSpec { neg: false, int_part: pm.consumed, frac: Seq::empty() }),
        ),
    ]);
    assert(json::sp_get_str(enc, "item"@) == Some(pm.item));
    assert(json::sp_obj_get(mm.skip(1), "produced"@) is Some);
    assert(json::sp_get_u64(enc, "produced"@) == Some(pm.produced));
    assert(json::sp_obj_get(mm.skip(1).skip(1), "consumed"@) is Some);
    assert(json::sp_obj_get(mm.skip(1), "consumed"@) is Some);
    assert(json::sp_get_u64(enc, "consumed"@) == Some(pm.consumed));
}

} // verus!

verus! {

/// What this tool declares to the assistant.
pub fn definition() -> (r: crate::tools::ToolSpec)
    ensures
        r.name@ == "get_production_stats"@,
        r.description@ == "Get total production and consumption statistics for a specific item"@,
        crate::json::model_of(r.parameters) == crate::tools::sp_schema_req_str("item"@, "The item prototype name (e.g. 'iron-plate', 'electronic-circuit')"@),
        crate::json::wf_json(crate::json::model_of(r.parameters)),
{
    crate::tools::ToolSpec {
        name: String::from_str("get_production_stats"),
        description: String::from_str(
            "Get total production and consumption statistics for a specific item",
        ),
        parameters: crate::tools::schema_req_str("item", "The item prototype name (e.g. 'iron-plate', 'electronic-circuit')"),
    }
}

} // verus!
