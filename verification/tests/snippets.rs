//! Tests of the snippet synthesizer and the parameter sanitizer.

use factorio_sensei::lua::assemblers;
use factorio_sensei::lua::furnaces;
use factorio_sensei::lua::nearby_entities;
use factorio_sensei::lua::nearby_resources;
use factorio_sensei::lua::player_inventory;
use factorio_sensei::lua::player_position;
use factorio_sensei::lua::power_stats;
use factorio_sensei::lua::production_stats;
use factorio_sensei::lua::recipe;
use factorio_sensei::lua::research_status;
use factorio_sensei::lua::sanitize_lua_string;

#[test]
fn test_player_position_contains_iife() {
    let lua = player_position();
    assert!(lua.starts_with("(function()"));
    assert!(lua.ends_with("end)()"));
}

#[test]
fn test_player_position_has_player_check() {
    let lua = player_position();
    assert!(lua.contains("game.connected_players[1]"));
    assert!(lua.contains("no_player"));
}

#[test]
fn test_player_position_uses_dot_syntax() {
    let lua = player_position();
    assert!(lua.contains("p.position.x"));
    assert!(lua.contains("p.surface.name"));
}

#[test]
fn test_player_inventory_loops_inventory() {
    let lua = player_inventory();
    assert!(lua.contains("get_main_inventory()"));
    assert!(lua.contains("valid_for_read"));
    assert!(lua.contains("stack.name"));
}

#[test]
fn test_production_stats_uses_dot_syntax() {
    let lua = production_stats("iron-plate");
    assert!(lua.contains("get_item_production_statistics"));
    assert!(lua.contains("iron-plate"));
    assert!(lua.contains("stats.get_input_count"));
    assert!(lua.contains("stats.get_output_count"));
}

#[test]
fn test_production_stats_sanitizes_input() {
    let lua = production_stats(r#"iron"; os.execute("rm"#);
    assert!(lua.contains(r#"iron\"; os.execute(\"rm"#));
    assert!(!lua.contains(r#"iron"; os"#));
}

#[test]
fn test_nearby_entities_caps_at_50() {
    let lua = nearby_entities(20);
    assert!(lua.contains("count >= 50"));
}

#[test]
fn test_nearby_entities_filters_noise() {
    let lua = nearby_entities(20);
    assert!(lua.contains("resource"));
    assert!(lua.contains("tree"));
    assert!(lua.contains("simple-entity"));
}

#[test]
fn test_nearby_resources_aggregates() {
    let lua = nearby_resources(50);
    assert!(lua.contains("total_amount"));
    assert!(lua.contains("sum_x"));
    assert!(lua.contains("center_x"));
}

#[test]
fn test_recipe_no_player_check() {
    let lua = recipe("iron-gear-wheel");
    assert!(!lua.contains("connected_players"));
    assert!(lua.contains("prototypes.recipe"));
}

#[test]
fn test_recipe_sanitizes_name() {
    let lua = recipe(r#"test"]game.tick--"#);
    assert!(lua.contains(r#"test\"\]game.tick--"#));
}

#[test]
fn test_assemblers_respects_limit() {
    let lua = assemblers(15);
    assert!(lua.contains("limit=15"));
}

#[test]
fn test_furnaces_checks_fuel_and_output() {
    let lua = furnaces(30);
    assert!(lua.contains("get_fuel_inventory()"));
    assert!(lua.contains("get_output_inventory()"));
}

#[test]
fn test_research_status_handles_queue() {
    let lua = research_status();
    assert!(lua.contains("current_research"));
    assert!(lua.contains("research_queue"));
    assert!(lua.contains("research_progress"));
}

#[test]
fn test_power_stats_finds_poles() {
    let lua = power_stats();
    assert!(lua.contains("electric-pole"));
    assert!(lua.contains("electric_network_statistics"));
    assert!(lua.contains("get_flow_count"));
    assert!(lua.contains("precision_index=defines.flow_precision_index.one_second"));
}

#[test]
fn test_sanitize_lua_string() {
    assert_eq!(sanitize_lua_string("iron-plate"), "iron-plate");
    assert_eq!(sanitize_lua_string(r#"a"b"#), r#"a\"b"#);
    assert_eq!(sanitize_lua_string(r"a\b"), r"a\\b");
    assert_eq!(sanitize_lua_string("a[b]"), r"a\[b\]");
}

#[test]
fn every_player_query_shares_the_precondition() {
    let check = "local p = game.connected_players[1] if not p then return {error=\"no_player\"} end";
    for lua in [
        player_position(),
        player_inventory(),
        production_stats("iron-plate"),
        power_stats(),
        research_status(),
        nearby_entities(20),
        nearby_resources(50),
        assemblers(30),
        furnaces(30),
    ] {
        assert!(lua.starts_with("(function()"));
        assert!(lua.ends_with(" end)()"));
        assert!(lua.contains(check));
    }
}

#[test]
fn sanitizer_defuses_breakout_attempts() {
    let hostile = r#"test"]game.tick--"#;
    let safe = sanitize_lua_string(hostile);
    assert_eq!(safe, r#"test\"\]game.tick--"#);
    assert!(!safe.contains(r#""]"#));
    let nested = r#"\"; os.exit()"#;
    assert_eq!(sanitize_lua_string(nested), r#"\\\"; os.exit()"#);
}
