//! The power-grid query: electric network production, consumption and
//! satisfaction read from the first electric pole's network statistics.

use vstd::prelude::*;

use crate::error::SenseiError;
use crate::json;
use crate::json::Decimal;
use crate::json::JsonSpec;
use crate::json::JsonValue;
use crate::json::NumSpec;
use crate::lua;

verus! {

/// Arguments of the power query; it takes none.
#[derive(Debug)]
pub struct GetPowerStatsArgs {}

/// Electric network summary for the player's surface.
#[derive(Debug, PartialEq)]
pub struct PowerStats {
    /// Total power being generated across the network.
    pub production_watts: Decimal,
    /// Total power being consumed across the network.
    pub consumption_watts: Decimal,
    /// Ratio of production to consumption; below one means a brownout.
    pub satisfaction: Decimal,
}

pub ghost struct PowerModel {
    pub production_watts: NumSpec,
    pub consumption_watts: NumSpec,
    pub satisfaction: NumSpec,
}

impl PowerStats {
    pub open spec fn model(&self) -> PowerModel {
        PowerModel {
            production_watts: self.production_watts.model(),
            consumption_watts: self.consumption_watts.model(),
            satisfaction: self.satisfaction.model(),
        }
    }

    pub open spec fn wf(&self) -> bool {
        json::wf_num(self.production_watts.model()) && json::wf_num(
            self.consumption_watts.model(),
        ) && json::wf_num(self.satisfaction.model())
    }
}

pub open spec fn sp_decode_power(m: JsonSpec) -> Option<PowerModel> {
    if json::sp_get_num(m, "production_watts"@) is Some && json::sp_get_num(
        m,
        "consumption_watts"@,
    ) is Some && json::sp_get_num(m, "satisfaction"@) is Some {
        Some(
            PowerModel {
                production_watts: json::sp_get_num(m, "production_watts"@).unwrap(),
                consumption_watts: json::sp_get_num(m, "consumption_watts"@).unwrap(),
                satisfaction: json::sp_get_num(m, "satisfaction"@).unwrap(),
            },
        )
    } else {
        None
    }
}

pub open spec fn sp_encode_power(pm: PowerModel) -> JsonSpec {
    JsonSpec::Obj(
        seq![
            ("production_watts"@, JsonSpec::Num(pm.production_watts)),
            ("consumption_watts"@, JsonSpec::Num(pm.consumption_watts)),
            ("satisfaction"@, JsonSpec::Num(pm.satisfaction)),
        ],
    )
}

/// The snippet this query sends (it has no parameters to apply).
pub fn snippet_for(args: &GetPowerStatsArgs) -> (r: String)
    ensures
        r@ == lua::spec_snippet(lua::QueryKind::Power, Seq::empty(), 0),
{
    lua::power_stats()
}

/// Decode a transport response into typed power statistics.
pub fn parse_power_stats(s: &str) -> (r: Result<PowerStats, SenseiError>)
    ensures
        match r {
            Ok(p) => p.wf() && json::sp_json(s@) is Some && sp_decode_power(
                json::sp_json(s@).unwrap(),
            ) == Some(p.model()),
            Err(e) => match e {
                SenseiError::JsonParse(msg) => (json::sp_json(s@) is None && msg@
                    == "malformed transport text"@) || (json::sp_json(s@) is Some
                    && sp_decode_power(json::sp_json(s@).unwrap()) is None && msg@
                    == "response shape mismatch"@),
                _ => false,
            },
        },
{
    match json::parse_json(s) {
        None => Err(SenseiError::JsonParse(String::from_str("malformed transport text"))),
        Some(jv) => {
            let production_watts = jv.get_num_field("production_watts");
            let consumption_watts = jv.get_num_field("consumption_watts");
            let satisfaction = jv.get_num_field("satisfaction");
            match (production_watts, consumption_watts, satisfaction) {
                (Some(production_watts), Some(consumption_watts), Some(satisfaction)) => {
                    proof {
                        json::lemma_wf_get(json::model_of(jv), "production_watts"@);
                        json::lemma_wf_get(json::model_of(jv), "consumption_watts"@);
                        json::lemma_wf_get(json::model_of(jv), "satisfaction"@);
                    }
                    Ok(PowerStats { production_watts, consumption_watts, satisfaction })
                },
                _ => Err(SenseiError::JsonParse(String::from_str("response shape mismatch"))),
            }
        },
    }
}

/// Encode power statistics to the transport's canonical text.
pub fn encode_power_stats(p: &PowerStats) -> (r: String)
    requires
        p.wf(),
    ensures
        r@ == json::sp_print(sp_encode_power(p.model())),
{
    let mut pairs: Vec<(String, JsonValue)> = Vec::new();
    pairs.push(
        (String::from_str("production_watts"), JsonValue::Num(p.production_watts.duplicate())),
    );
    pairs.push(
        (
            String::from_str("consumption_watts"),
            JsonValue::Num(p.consumption_watts.duplicate()),
        ),
    );
    pairs.push((String::from_str("satisfaction"), JsonValue::Num(p.satisfaction.duplicate())));
    proof {
        json::lemma_model_of_obj(pairs);
        assert(json::member_models_of(pairs@) =~= sp_encode_power(p.model())->Obj_0);
        let mm = json::member_models_of(pairs@);
        assert(json::wf_json(mm[0].1));
        assert(json::wf_json(mm[1].1));
        assert(json::wf_json(mm[2].1));
        assert(json::wf_json_members(mm, 3));
        assert(json::wf_json_members(mm, 2));
        assert(json::wf_json_members(mm, 1));
        assert(json::wf_json_members(mm, 0));
    }
    let jv = JsonValue::Obj(pairs);
    json::to_json_text(&jv)
}

/// Round trip: encoding any well-formed power record and decoding the text
/// reproduces it exactly.
pub proof fn lemma_power_round_trip(pm: PowerModel)
    requires
        json::wf_num(pm.production_watts),
        json::wf_num(pm.consumption_watts),
        json::wf_num(pm.satisfaction),
    ensures
        json::sp_json(json::sp_print(sp_encode_power(pm))) == Some(sp_encode_power(pm)),
        sp_decode_power(sp_encode_power(pm)) == Some(pm),
{
    let enc = sp_encode_power(pm);
    let mm = enc->Obj_0;
    assert(json::wf_json(mm[0].1));
    assert(json::wf_json(mm[1].1));
    assert(json::wf_json(mm[2].1));
    assert(json::wf_json_members(mm, 3));
    assert(json::wf_json_members(mm, 2));
    assert(json::wf_json_members(mm, 1));
    assert(json::wf_json_members(mm, 0));
    json::lemma_round_trip(enc);
    reveal_strlit("production_watts");
    reveal_strlit("consumption_watts");
    reveal_strlit("satisfaction");
    assert("production_watts"@[0] != "consumption_watts"@[0]);
    assert("production_watts"@ != "consumption_watts"@);
    assert("production_watts"@.len() != "satisfaction"@.len());
    assert("production_watts"@ != "satisfaction"@);
    assert("consumption_watts"@.len() != "satisfaction"@.len());
    assert("consumption_watts"@ != "satisfaction"@);
    assert(mm.skip(1) =~= seq![
        ("consumption_watts"@, JsonSpec::Num(pm.consumption_watts)),
        ("satisfaction"@, JsonSpec::Num(pm.satisfaction)),
    ]);
    assert(mm.skip(1).skip(1) =~= seq![("satisfaction"@, JsonSpec::Num(pm.satisfaction))]);
    assert(json::sp_get_num(enc, "production_watts"@) == Some(pm.production_watts));
    assert(json::sp_obj_get(mm.skip(1), "consumption_watts"@) is Some);
    assert(json::sp_get_num(enc, "consumption_watts"@) == Some(pm.consumption_watts));
    assert(json::sp_obj_get(mm.skip(1).skip(1), "satisfaction"@) is Some);
    assert(json::sp_obj_get(mm.skip(1), "satisfaction"@) is Some);
    assert(json::sp_get_num(enc, "satisfaction"@) == Some(pm.satisfaction));
}

} // verus!

verus! {

/// What this tool declares to the assistant.
pub fn definition() -> (r: crate::tools::ToolSpec)
    ensures
        r.name@ == "get_power_stats"@,
        r.description@ == "Get the power grid statistics: total production, consumption, and satisfaction ratio"@,
        crate::json::model_of(r.parameters) == crate::tools::sp_schema_no_args(),
        crate::json::wf_json(crate::json::model_of(r.parameters)),
{
    crate::tools::ToolSpec {
        name: String::from_str("get_power_stats"),
        description: String::from_str(
            "Get the power grid statistics: total production, consumption, and satisfaction ratio",
        ),
        parameters: crate::tools::schema_no_args(),
    }
}

} // verus!
