//! Tests of the typed-result decoders, encoders and their round trips, and
//! of the deposit aggregation.

use factorio_sensei::json::Decimal;
use factorio_sensei::tools::assemblers::encode_assemblers;
use factorio_sensei::tools::assemblers::parse_assemblers;
use factorio_sensei::tools::assemblers::AssemblerInfo;
use factorio_sensei::tools::assemblers::Assemblers;
use factorio_sensei::tools::entities::encode_entities;
use factorio_sensei::tools::entities::parse_entities;
use factorio_sensei::tools::entities::NearbyEntities;
use factorio_sensei::tools::entities::NearbyEntity;
use factorio_sensei::tools::furnaces::encode_furnaces;
use factorio_sensei::tools::furnaces::parse_furnaces;
use factorio_sensei::tools::furnaces::FurnaceInfo;
use factorio_sensei::tools::furnaces::Furnaces;
use factorio_sensei::tools::inventory::encode_inventory;
use factorio_sensei::tools::inventory::parse_inventory;
use factorio_sensei::tools::inventory::InventoryItem;
use factorio_sensei::tools::inventory::PlayerInventory;
use factorio_sensei::tools::position::encode_position;
use factorio_sensei::tools::position::parse_position;
use factorio_sensei::tools::position::PlayerPosition;
use factorio_sensei::tools::power::encode_power_stats;
use factorio_sensei::tools::power::parse_power_stats;
use factorio_sensei::tools::power::PowerStats;
use factorio_sensei::tools::production::encode_production_stats;
use factorio_sensei::tools::production::parse_production_stats;
use factorio_sensei::tools::production::ProductionStats;
use factorio_sensei::tools::recipe::encode_recipe;
use factorio_sensei::tools::recipe::parse_recipe;
use factorio_sensei::tools::recipe::RecipeInfo;
use factorio_sensei::tools::recipe::RecipeIngredient;
use factorio_sensei::tools::recipe::RecipeProduct;
use factorio_sensei::tools::research::encode_research_status;
use factorio_sensei::tools::research::parse_research_status;
use factorio_sensei::tools::research::ResearchStatus;
use factorio_sensei::tools::resources::aggregate_deposits;
use factorio_sensei::tools::resources::encode_resources;
use factorio_sensei::tools::resources::parse_resources;
use factorio_sensei::tools::resources::patch_of_group;
use factorio_sensei::tools::resources::Deposit;
use factorio_sensei::tools::resources::NearbyResources;
use factorio_sensei::tools::resources::ResourcePatch;

fn dec(neg: bool, int_part: u64, frac: &[u8]) -> Decimal {
    Decimal { neg, int_part, frac: frac.to_vec() }
}

#[test]
fn test_parse_position() {
    let json = r#"{"x":1.5,"y":-3.2,"surface":"nauvis"}"#;
    let pos = parse_position(json).unwrap();
    assert_eq!(pos.x, dec(false, 1, &[5]));
    assert_eq!(pos.y, dec(true, 3, &[2]));
    assert_eq!(pos.surface, "nauvis");
}

#[test]
fn test_parse_position_integer_coords() {
    let json = r#"{"x":0,"y":0,"surface":"nauvis"}"#;
    let pos = parse_position(json).unwrap();
    assert_eq!(pos.x, dec(false, 0, &[]));
    assert_eq!(pos.y, dec(false, 0, &[]));
}

#[test]
fn test_parse_inventory() {
    let json = r#"{"items":[{"name":"iron-plate","count":50},{"name":"copper-plate","count":25}]}"#;
    let inv = parse_inventory(json).unwrap();
    assert_eq!(inv.items.len(), 2);
    assert_eq!(inv.items[0].name, "iron-plate");
    assert_eq!(inv.items[0].count, 50);
}

#[test]
fn test_parse_empty_inventory() {
    let json = r#"{"items":[]}"#;
    let inv = parse_inventory(json).unwrap();
    assert!(inv.items.is_empty());
}

#[test]
fn test_parse_power_stats() {
    let json = r#"{"production_watts":5000000,"consumption_watts":3500000,"satisfaction":1.0}"#;
    let stats = parse_power_stats(json).unwrap();
    assert_eq!(stats.production_watts, dec(false, 5000000, &[]));
    assert_eq!(stats.consumption_watts, dec(false, 3500000, &[]));
    assert_eq!(stats.satisfaction, dec(false, 1, &[0]));
}

#[test]
fn test_parse_no_power() {
    let json = r#"{"production_watts":0,"consumption_watts":0,"satisfaction":1.0}"#;
    let stats = parse_power_stats(json).unwrap();
    assert_eq!(stats.production_watts, dec(false, 0, &[]));
    assert_eq!(stats.satisfaction, dec(false, 1, &[0]));
}

#[test]
fn test_parse_brownout() {
    let json = r#"{"production_watts":1000,"consumption_watts":2000,"satisfaction":0.5}"#;
    let stats = parse_power_stats(json).unwrap();
    assert_eq!(stats.satisfaction, dec(false, 0, &[5]));
}

#[test]
fn test_parse_production_stats() {
    let json = r#"{"item":"iron-plate","produced":1500,"consumed":800}"#;
    let stats = parse_production_stats(json).unwrap();
    assert_eq!(stats.item, "iron-plate");
    assert_eq!(stats.produced, 1500);
    assert_eq!(stats.consumed, 800);
}

#[test]
fn test_parse_zero_stats() {
    let json = r#"{"item":"nuclear-fuel","produced":0,"consumed":0}"#;
    let stats = parse_production_stats(json).unwrap();
    assert_eq!(stats.produced, 0);
    assert_eq!(stats.consumed, 0);
}

#[test]
fn test_parse_recipe() {
    let json = r#"{
        "name": "iron-gear-wheel",
        "energy": 0.5,
        "ingredients": [{"name": "iron-plate", "type": "item", "amount": 2}],
        "products": [{"name": "iron-gear-wheel", "type": "item", "amount": 1}]
    }"#;
    let recipe = parse_recipe(json).unwrap();
    assert_eq!(recipe.name, "iron-gear-wheel");
    assert_eq!(recipe.energy, dec(false, 0, &[5]));
    assert_eq!(recipe.ingredients.len(), 1);
    assert_eq!(recipe.ingredients[0].name, "iron-plate");
    assert_eq!(recipe.ingredients[0].amount, dec(false, 2, &[]));
    assert_eq!(recipe.products[0].name, "iron-gear-wheel");
}

#[test]
fn test_parse_multi_ingredient_recipe() {
    let json = r#"{
        "name": "electronic-circuit",
        "energy": 0.5,
        "ingredients": [
            {"name": "iron-plate", "type": "item", "amount": 1},
            {"name": "copper-cable", "type": "item", "amount": 3}
        ],
        "products": [{"name": "electronic-circuit", "type": "item", "amount": 1}]
    }"#;
    let recipe = parse_recipe(json).unwrap();
    assert_eq!(recipe.ingredients.len(), 2);
}

#[test]
fn test_parse_active_research() {
    let json = r#"{"current":"automation-2","progress":0.45,"queue":["automation-2","logistics"]}"#;
    let status = parse_research_status(json).unwrap();
    assert_eq!(status.current.as_deref(), Some("automation-2"));
    assert_eq!(status.progress, Some(dec(false, 0, &[4, 5])));
    assert_eq!(status.queue, vec!["automation-2", "logistics"]);
}

#[test]
fn test_parse_no_research() {
    let json = r#"{"queue":[]}"#;
    let status = parse_research_status(json).unwrap();
    assert_eq!(status.current, None);
    assert_eq!(status.progress, None);
    assert!(status.queue.is_empty());
}

#[test]
fn test_parse_entities() {
    let json = r#"{"entities":[
        {"name":"stone-furnace","type":"furnace","x":1.5,"y":2.5},
        {"name":"transport-belt","type":"transport-belt","x":3.0,"y":4.0}
    ]}"#;
    let result = parse_entities(json).unwrap();
    assert_eq!(result.entities.len(), 2);
    assert_eq!(result.entities[0].name, "stone-furnace");
    assert_eq!(result.entities[0].kind, "furnace");
}

#[test]
fn test_parse_empty_entities() {
    let json = r#"{"entities":[]}"#;
    let result = parse_entities(json).unwrap();
    assert!(result.entities.is_empty());
}

#[test]
fn test_parse_resources() {
    let json = r#"{"resources":[
        {"name":"iron-ore","total_amount":50000,"center_x":10.5,"center_y":-20.3},
        {"name":"copper-ore","total_amount":30000,"center_x":50.0,"center_y":15.0}
    ]}"#;
    let result = parse_resources(json).unwrap();
    assert_eq!(result.resources.len(), 2);
    assert_eq!(result.resources[0].name, "iron-ore");
    assert_eq!(result.resources[0].total_amount, 50000);
}

#[test]
fn test_parse_no_resources() {
    let json = r#"{"resources":[]}"#;
    let result = parse_resources(json).unwrap();
    assert!(result.resources.is_empty());
}

#[test]
fn test_parse_assemblers() {
    let json = r#"{"assemblers":[
        {"name":"assembling-machine-1","x":5.0,"y":10.0,"recipe":"iron-gear-wheel","crafting_speed":0.5},
        {"name":"assembling-machine-2","x":8.0,"y":10.0,"recipe":null,"crafting_speed":0.75}
    ]}"#;
    let result = parse_assemblers(json).unwrap();
    assert_eq!(result.assemblers.len(), 2);
    assert_eq!(result.assemblers[0].recipe.as_deref(), Some("iron-gear-wheel"));
    assert_eq!(result.assemblers[1].recipe, None);
}

#[test]
fn test_parse_no_assemblers() {
    let json = r#"{"assemblers":[]}"#;
    let result = parse_assemblers(json).unwrap();
    assert!(result.assemblers.is_empty());
}

#[test]
fn test_parse_furnaces() {
    let json = r#"{"furnaces":[
        {"name":"stone-furnace","x":1.0,"y":2.0,"recipe":"iron-plate","fuel_type":"coal","output_item":"iron-plate"},
        {"name":"steel-furnace","x":4.0,"y":2.0,"recipe":null,"fuel_type":null,"output_item":null}
    ]}"#;
    let result = parse_furnaces(json).unwrap();
    assert_eq!(result.furnaces.len(), 2);
    assert_eq!(result.furnaces[0].recipe.as_deref(), Some("iron-plate"));
    assert_eq!(result.furnaces[0].fuel_type.as_deref(), Some("coal"));
    assert_eq!(result.furnaces[1].recipe, None);
    assert_eq!(result.furnaces[1].fuel_type, None);
}

#[test]
fn test_parse_no_furnaces() {
    let json = r#"{"furnaces":[]}"#;
    let result = parse_furnaces(json).unwrap();
    assert!(result.furnaces.is_empty());
}

#[test]
fn malformed_text_is_a_parse_error() {
    assert!(parse_position("not json at all").is_err());
    assert!(parse_position(r#"{"x":1.5,"y":-3.2}"#).is_err());
    assert!(parse_inventory(r#"{"items":[{"name":"iron-plate","count":1.5}]}"#).is_err());
}

#[test]
fn position_round_trips_through_the_transport_text() {
    let p = PlayerPosition {
        x: dec(false, 1, &[5]),
        y: dec(true, 3, &[2]),
        surface: "nauvis".to_string(),
    };
    assert_eq!(parse_position(&encode_position(&p)).unwrap(), p);
}

#[test]
fn inventory_round_trips_through_the_transport_text() {
    let p = PlayerInventory {
        items: vec![
            InventoryItem { name: "iron-plate".to_string(), count: 50 },
            InventoryItem { name: "copper-plate".to_string(), count: 25 },
        ],
    };
    assert_eq!(parse_inventory(&encode_inventory(&p)).unwrap(), p);
}

#[test]
fn production_round_trips_through_the_transport_text() {
    let p = ProductionStats { item: "iron-plate".to_string(), produced: 1500, consumed: 800 };
    assert_eq!(parse_production_stats(&encode_production_stats(&p)).unwrap(), p);
}

#[test]
fn power_round_trips_through_the_transport_text() {
    let p = PowerStats {
        production_watts: dec(false, 5000000, &[]),
        consumption_watts: dec(false, 3500000, &[]),
        satisfaction: dec(false, 0, &[9, 7]),
    };
    assert_eq!(parse_power_stats(&encode_power_stats(&p)).unwrap(), p);
}

#[test]
fn research_round_trips_through_the_transport_text() {
    let p = ResearchStatus {
        current: Some("automation-2".to_string()),
        progress: Some(dec(false, 0, &[4, 5])),
        queue: vec!["automation-2".to_string(), "logistics".to_string()],
    };
    assert_eq!(parse_research_status(&encode_research_status(&p)).unwrap(), p);
    let idle = ResearchStatus { current: None, progress: None, queue: vec![] };
    assert_eq!(parse_research_status(&encode_research_status(&idle)).unwrap(), idle);
}

#[test]
fn recipe_round_trips_through_the_transport_text() {
    let p = RecipeInfo {
        name: "iron-gear-wheel".to_string(),
        energy: dec(false, 0, &[5]),
        ingredients: vec![RecipeIngredient {
            name: "iron-plate".to_string(),
            kind: "item".to_string(),
            amount: dec(false, 2, &[]),
        }],
        products: vec![RecipeProduct {
            name: "iron-gear-wheel".to_string(),
            kind: "item".to_string(),
            amount: dec(false, 1, &[]),
        }],
    };
    assert_eq!(parse_recipe(&encode_recipe(&p)).unwrap(), p);
}

#[test]
fn entities_round_trip_through_the_transport_text() {
    let p = NearbyEntities {
        entities: vec![NearbyEntity {
            name: "stone-furnace".to_string(),
            kind: "furnace".to_string(),
            x: dec(false, 1, &[5]),
            y: dec(true, 2, &[5]),
        }],
    };
    assert_eq!(parse_entities(&encode_entities(&p)).unwrap(), p);
}

#[test]
fn resources_round_trip_through_the_transport_text() {
    let p = NearbyResources {
        resources: vec![ResourcePatch {
            name: "iron-ore".to_string(),
            total_amount: 50000,
            center_x: dec(false, 10, &[5]),
            center_y: dec(true, 20, &[3]),
        }],
    };
    assert_eq!(parse_resources(&encode_resources(&p)).unwrap(), p);
}

#[test]
fn assemblers_round_trip_through_the_transport_text() {
    let p = Assemblers {
        assemblers: vec![
            AssemblerInfo {
                name: "assembling-machine-1".to_string(),
                x: dec(false, 5, &[]),
                y: dec(false, 10, &[]),
                recipe: Some("iron-gear-wheel".to_string()),
                crafting_speed: dec(false, 0, &[5]),
            },
            AssemblerInfo {
                name: "assembling-machine-2".to_string(),
                x: dec(false, 8, &[]),
                y: dec(false, 10, &[]),
                recipe: None,
                crafting_speed: dec(false, 0, &[7, 5]),
            },
        ],
    };
    assert_eq!(parse_assemblers(&encode_assemblers(&p)).unwrap(), p);
}

#[test]
fn furnaces_round_trip_through_the_transport_text() {
    let p = Furnaces {
        furnaces: vec![FurnaceInfo {
            name: "stone-furnace".to_string(),
            x: dec(false, 1, &[]),
            y: dec(false, 2, &[]),
            recipe: Some("iron-plate".to_string()),
            fuel_type: Some("coal".to_string()),
            output_item: None,
        }],
    };
    assert_eq!(parse_furnaces(&encode_furnaces(&p)).unwrap(), p);
}

#[test]
fn three_iron_ore_deposits_aggregate_to_one_patch() {
    let deposits = vec![
        Deposit { name: "iron-ore".to_string(), amount: 100, x: 0, y: 0 },
        Deposit { name: "iron-ore".to_string(), amount: 200, x: 2, y: 0 },
        Deposit { name: "iron-ore".to_string(), amount: 300, x: 4, y: 0 },
    ];
    let groups = aggregate_deposits(&deposits);
    assert_eq!(groups.len(), 1);
    assert_eq!(groups[0].name, "iron-ore");
    assert_eq!(groups[0].total_amount, 600);
    assert_eq!(groups[0].sum_x, 6);
    assert_eq!(groups[0].sum_y, 0);
    assert_eq!(groups[0].count, 3);
    let patch = patch_of_group(&groups[0]).unwrap();
    assert_eq!(
        patch,
        ResourcePatch {
            name: "iron-ore".to_string(),
            total_amount: 600,
            center_x: dec(false, 2, &[]),
            center_y: dec(false, 0, &[]),
        }
    );
}

#[test]
fn aggregation_keeps_first_appearance_order() {
    let deposits = vec![
        Deposit { name: "coal".to_string(), amount: 10, x: 1, y: 1 },
        Deposit { name: "stone".to_string(), amount: 20, x: 3, y: 5 },
        Deposit { name: "coal".to_string(), amount: 30, x: 5, y: 3 },
    ];
    let groups = aggregate_deposits(&deposits);
    assert_eq!(groups.len(), 2);
    assert_eq!(groups[0].name, "coal");
    assert_eq!(groups[0].total_amount, 40);
    assert_eq!(groups[0].sum_x, 6);
    assert_eq!(groups[0].sum_y, 4);
    assert_eq!(groups[0].count, 2);
    assert_eq!(groups[1].name, "stone");
    assert_eq!(groups[1].count, 1);
}

#[test]
fn uncentered_groups_report_no_patch() {
    let deposits = vec![
        Deposit { name: "coal".to_string(), amount: 10, x: 0, y: 0 },
        Deposit { name: "coal".to_string(), amount: 10, x: 1, y: 0 },
    ];
    let groups = aggregate_deposits(&deposits);
    assert!(patch_of_group(&groups[0]).is_none());
}

#[test]
fn numbers_beyond_the_machine_range_are_refused() {
    assert!(parse_production_stats(
        r#"{"item":"x","produced":18446744073709551616,"consumed":0}"#
    )
    .is_err());
    assert!(parse_production_stats(r#"{"item":"x","produced":1e30,"consumed":0}"#).is_err());
}

#[test]
fn exponent_forms_fold_into_exact_decimals() {
    let stats =
        parse_production_stats(r#"{"item":"x","produced":1e3,"consumed":15E+2}"#).unwrap();
    assert_eq!(stats.produced, 1000);
    assert_eq!(stats.consumed, 1500);
    let json = r#"{"x":1.5e2,"y":2.5e-3,"surface":"nauvis"}"#;
    let pos = parse_position(json).unwrap();
    assert_eq!(pos.x, dec(false, 150, &[]));
    assert_eq!(pos.y, dec(false, 0, &[0, 0, 2, 5]));
    let split = parse_position(r#"{"x":12.345e1,"y":-4.25e-1,"surface":"nauvis"}"#).unwrap();
    assert_eq!(split.x, dec(false, 123, &[4, 5]));
    assert_eq!(split.y, dec(true, 0, &[4, 2, 5]));
}

#[test]
fn dangling_exponent_markers_end_the_number() {
    // An `e` with no digits after it is not an exponent part, so the number
    // ends before it and the trailing text fails the parse.
    assert!(factorio_sensei::json::parse_json("1e").is_none());
    assert!(factorio_sensei::json::parse_json("1e+").is_none());
    // Exponent magnitudes beyond the supported bound are refused.
    assert!(factorio_sensei::json::parse_json("1e99999").is_none());
}

#[test]
fn string_escapes_survive_the_round_trip() {
    let p = PlayerPosition {
        x: dec(false, 0, &[]),
        y: dec(false, 0, &[]),
        surface: "na\"uv\\is\nline\ttab".to_string(),
    };
    let text = encode_position(&p);
    assert_eq!(parse_position(&text).unwrap(), p);
}

#[test]
fn surrounding_whitespace_is_tolerated_by_the_parser() {
    let json = " \n {\"x\": 1 , \"y\" : 2 ,\t\"surface\" : \"nauvis\" } \n";
    let pos = parse_position(json).unwrap();
    assert_eq!(pos.x, dec(false, 1, &[]));
    assert_eq!(pos.y, dec(false, 2, &[]));
}

#[test]
fn trailing_text_is_rejected_by_the_parser() {
    assert!(parse_position(r#"{"x":1,"y":2,"surface":"nauvis"} extra"#).is_err());
    assert!(factorio_sensei::json::parse_json("[1,2,]").is_none());
    assert!(factorio_sensei::json::parse_json(r#"{"a":}"#).is_none());
}

#[test]
fn unicode_escapes_decode_in_strings() {
    // A basic escape, a control character, and a surrogate pair.
    let json = "{\"x\":0,\"y\":0,\"surface\":\"na\\u0076is\"}";
    assert_eq!(parse_position(json).unwrap().surface, "navis");
    let tabbed = "{\"x\":0,\"y\":0,\"surface\":\"a\\u0009b\"}";
    assert_eq!(parse_position(tabbed).unwrap().surface, "a\tb");
    let astral = "{\"x\":0,\"y\":0,\"surface\":\"\\uD83D\\uDE00\"}";
    assert_eq!(parse_position(astral).unwrap().surface, "\u{1F600}");
}

#[test]
fn bad_unicode_escapes_are_refused() {
    assert!(factorio_sensei::json::parse_json("\"\\uZZZZ\"").is_none());
    assert!(factorio_sensei::json::parse_json("\"\\u12\"").is_none());
    // A lone surrogate, high or low, denotes nothing.
    assert!(factorio_sensei::json::parse_json("\"\\uD83D\"").is_none());
    assert!(factorio_sensei::json::parse_json("\"\\uDE00\"").is_none());
}
