//! The player-position query: x/y coordinates and surface name of the first
//! connected player.

use vstd::prelude::*;

use crate::error::SenseiError;
use crate::json;
use crate::json::Decimal;
use crate::json::JsonSpec;
use crate::json::JsonValue;
use crate::json::NumSpec;
use crate::lua;

verus! {

/// Arguments of the position query; it takes none.
#[derive(Debug)]
pub struct GetPlayerPositionArgs {}

/// The player's current location in the world.
#[derive(Debug, PartialEq)]
pub struct PlayerPosition {
    /// Tile x coordinate (east is positive).
    pub x: Decimal,
    /// Tile y coordinate (south is positive).
    pub y: Decimal,
    /// Surface name, typically `nauvis` for the default world.
    pub surface: String,
}

pub ghost struct PositionModel {
    pub x: NumSpec,
    pub y: NumSpec,
    pub surface: Seq<char>,
}

impl PlayerPosition {
    pub open spec fn model(&self) -> PositionModel {
        PositionModel { x: self.x.model(), y: self.y.model(), surface: self.surface@ }
    }

    pub open spec fn wf(&self) -> bool {
        json::wf_num(self.x.model()) && json::wf_num(self.y.model())
    }
}

/// What a structured value must look like to decode into a position.
pub open spec fn sp_decode_position(m: JsonSpec) -> Option<PositionModel> {
    if json::sp_get_num(m, "x"@) is Some && json::sp_get_num(m, "y"@) is Some
        && json::sp_get_str(m, "surface"@) is Some {
        Some(
            PositionModel {
                x: json::sp_get_num(m, "x"@).unwrap(),
                y: json::sp_get_num(m, "y"@).unwrap(),
                surface: json::sp_get_str(m, "surface"@).unwrap(),
            },
        )
    } else {
        None
    }
}

/// The transport form of a position.
pub open spec fn sp_encode_position(pm: PositionModel) -> JsonSpec {
    JsonSpec::Obj(
        seq![
            ("x"@, JsonSpec::Num(pm.x)),
            ("y"@, JsonSpec::Num(pm.y)),
            ("surface"@, JsonSpec::Str(pm.surface)),
        ],
    )
}

/// The snippet this query sends (it has no parameters to apply).
pub fn snippet_for(args: &GetPlayerPositionArgs) -> (r: String)
    ensures
        r@ == lua::spec_snippet(lua::QueryKind::Position, Seq::empty(), 0),
{
    lua::player_position()
}

/// Decode a transport response into a typed position.
pub fn parse_position(s: &str) -> (r: Result<PlayerPosition, SenseiError>)
    ensures
        match r {
            Ok(p) => p.wf() && json::sp_json(s@) is Some && sp_decode_position(
                json::sp_json(s@).unwrap(),
            ) == Some(p.model()),
            Err(e) => match e {
                SenseiError::JsonParse(msg) => (json::sp_json(s@) is None && msg@
                    == "malformed transport text"@) || (json::sp_json(s@) is Some
                    && sp_decode_position(json::sp_json(s@).unwrap()) is None && msg@
                    == "response shape mismatch"@),
                _ => false,
            },
        },
{
    match json::parse_json(s) {
        None => Err(SenseiError::JsonParse(String::from_str("malformed transport text"))),
        Some(jv) => {
            let x = jv.get_num_field("x");
            let y = jv.get_num_field("y");
            let surface = jv.get_str_field("surface");
            match (x, y, surface) {
                (Some(x), Some(y), Some(surface)) => {
                    proof {
                        json::lemma_wf_get(json::model_of(jv), "x"@);
                        json::lemma_wf_get(json::model_of(jv), "y"@);
                    }
                    Ok(PlayerPosition { x, y, surface })
                },
                _ => Err(SenseiError::JsonParse(String::from_str("response shape mismatch"))),
            }
        },
    }
}

/// Encode a position to the transport's canonical text.
pub fn encode_position(p: &PlayerPosition) -> (r: String)
    requires
        p.wf(),
    ensures
        r@ == json::sp_print(sp_encode_position(p.model())),
{
    let mut pairs: Vec<(String, JsonValue)> = Vec::new();
    pairs.push((String::from_str("x"), JsonValue::Num(p.x.duplicate())));
    pairs.push((String::from_str("y"), JsonValue::Num(p.y.duplicate())));
    pairs.push((String::from_str("surface"), JsonValue::Str(p.surface.clone())));
    proof {
        json::lemma_model_of_obj(pairs);
        assert(json::member_models_of(pairs@) =~= sp_encode_position(p.model())->Obj_0);
        let mm = json::member_models_of(pairs@);
        assert(mm[0].1 == JsonSpec::Num(p.x.model()));
        assert(mm[1].1 == JsonSpec::Num(p.y.model()));
        assert(mm[2].1 == JsonSpec::Str(p.surface@));
        assert(json::wf_json(mm[0].1));
        assert(json::wf_json(mm[1].1));
        assert(json::wf_json(mm[2].1));
        assert(json::wf_json_members(mm, 3));
        assert(json::wf_json_members(mm, 2));
        assert(json::wf_json_members(mm, 1));
        assert(json::wf_json_members(mm, 0));
    }
    let jv = JsonValue::Obj(pairs);
    json::to_json_text(&jv)
}

/// Round trip: encoding any well-formed position and decoding the text
/// gives back the same position.
pub proof fn lemma_position_round_trip(pm: PositionModel)
    requires
        json::wf_num(pm.x),
        json::wf_num(pm.y),
    ensures
        json::sp_json(json::sp_print(sp_encode_position(pm))) == Some(sp_encode_position(pm)),
        sp_decode_position(sp_encode_position(pm)) == Some(pm),
{
    let enc = sp_encode_position(pm);
    let mm = enc->Obj_0;
    assert(mm[0].1 == JsonSpec::Num(pm.x));
    assert(mm[1].1 == JsonSpec::Num(pm.y));
    assert(mm[2].1 == JsonSpec::Str(pm.surface));
    assert(json::wf_json(mm[0].1));
    assert(json::wf_json(mm[1].1));
    assert(json::wf_json(mm[2].1));
    assert(json::wf_json_members(mm, 3));
    assert(json::wf_json_members(mm, 2));
    assert(json::wf_json_members(mm, 1));
    assert(json::wf_json_members(mm, 0));
    json::lemma_round_trip(enc);
    reveal_strlit("x");
    reveal_strlit("y");
    reveal_strlit("surface");
    assert("x"@[0] != "y"@[0]);
    assert("x"@ != "y"@);
    assert("x"@.len() != "surface"@.len());
    assert("x"@ != "surface"@);
    assert("y"@.len() != "surface"@.len());
    assert("y"@ != "surface"@);
    assert(mm.skip(1) =~= seq![("y"@, JsonSpec::Num(pm.y)), ("surface"@, JsonSpec::Str(pm.surface))]);
    assert(mm.skip(1).skip(1) =~= seq![("surface"@, JsonSpec::Str(pm.surface))]);
    assert(json::sp_get_num(enc, "x"@) == Some(pm.x));
    assert(json::sp_obj_get(mm.skip(1), "y"@) == Some(JsonSpec::Num(pm.y)));
    assert(json::sp_get_num(enc, "y"@) == Some(pm.y));
    assert(json::sp_obj_get(mm.skip(1).skip(1), "surface"@) == Some(JsonSpec::Str(pm.surface)));
    assert(json::sp_obj_get(mm.skip(1), "surface"@) == Some(JsonSpec::Str(pm.surface)));
    assert(json::sp_get_str(enc, "surface"@) == Some(pm.surface));
}

} // verus!

verus! {

/// What this tool declares to the assistant.
pub fn definition() -> (r: crate::tools::ToolSpec)
    ensures
        r.name@ == "get_player_position"@,
        r.description@ == "Get the current player's position and surface name"@,
        crate::json::model_of(r.parameters) == crate::tools::sp_schema_no_args(),
        crate::json::wf_json(crate::json::model_of(r.parameters)),
{
    crate::tools::ToolSpec {
        name: String::from_str("get_player_position"),
        description: String::from_str(
            "Get the current player's position and surface name",
        ),
        parameters: crate::tools::schema_no_args(),
    }
}

} // verus!
