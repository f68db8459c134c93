//! Tests of the transport envelopes and the response classifier.

use factorio_sensei::error::SenseiError;
use factorio_sensei::repl::classify_input;
use factorio_sensei::repl::status_prompt;
use factorio_sensei::repl::ReplAction;
use factorio_sensei::transport::classify_response;
use factorio_sensei::transport::extract_lua_error;
use factorio_sensei::transport::poll_command;
use factorio_sensei::transport::respond_command;
use factorio_sensei::transport::wrap_lua_command;

#[test]
fn test_extract_lua_error_with_error() {
    let response = r#"{"error":"some lua problem"}"#;
    assert_eq!(extract_lua_error(response), Some("some lua problem".to_string()));
}

#[test]
fn test_extract_lua_error_no_player_returns_none() {
    let response = r#"{"error":"no_player"}"#;
    assert_eq!(extract_lua_error(response), None);
}

#[test]
fn test_extract_lua_error_valid_json() {
    let response = r#"{"x":1.5,"y":-3.2}"#;
    assert_eq!(extract_lua_error(response), None);
}

#[test]
fn test_extract_lua_error_not_json() {
    let response = "not json at all";
    assert_eq!(extract_lua_error(response), None);
}

#[test]
fn classifier_maps_the_sentinel_to_no_player() {
    match classify_response(r#"{"error":"no_player"}"#) {
        Err(SenseiError::NoPlayer) => {},
        other => panic!("unexpected: {:?}", other),
    }
}

#[test]
fn classifier_maps_other_errors_verbatim() {
    match classify_response(r#"{"error":"anything else"}"#) {
        Err(SenseiError::LuaError(m)) => assert_eq!(m, "anything else"),
        other => panic!("unexpected: {:?}", other),
    }
}

#[test]
fn classifier_passes_plain_objects_through() {
    let text = r#"{"x":1.5,"y":-3.2}"#;
    assert_eq!(classify_response(text).unwrap(), text);
}

#[test]
fn classifier_passes_free_text_through() {
    assert_eq!(classify_response("not json at all").unwrap(), "not json at all");
}

#[test]
fn classifier_parses_before_classifying() {
    // The sentinel is recognized from the parsed value, however it is spelled.
    match classify_response("{ \"error\" : \"no_player\" }") {
        Err(SenseiError::NoPlayer) => {},
        other => panic!("unexpected: {:?}", other),
    }
    // Free text that merely contains the sentinel spelling is not an error.
    let free = "log: got \"error\":\"no_player\" once";
    assert_eq!(classify_response(free).unwrap(), free);
    // A non-string error member is not a classification either.
    let odd = "{\"error\":42}";
    assert_eq!(classify_response(odd).unwrap(), odd);
}

#[test]
fn command_envelopes_are_exact() {
    assert_eq!(
        wrap_lua_command("(function() return 1 end)()"),
        "/c rcon.print(helpers.table_to_json((function() return 1 end)()))"
    );
    assert_eq!(poll_command(), "/sensei_poll");
    assert_eq!(respond_command("hello there"), "/sensei_respond hello there");
}

#[test]
fn error_messages_name_their_kind() {
    assert_eq!(SenseiError::NoPlayer.message(), "No player connected");
    assert_eq!(
        SenseiError::LuaError("boom".to_string()).message(),
        "Lua error from Factorio: boom"
    );
    assert_eq!(
        SenseiError::Rcon("reset".to_string()).message(),
        "RCON error: reset"
    );
    assert_eq!(
        SenseiError::JsonParse("bad".to_string()).message(),
        "JSON parse error: bad"
    );
    assert_eq!(
        SenseiError::UnexpectedResponse("eh".to_string()).message(),
        "Unexpected response: eh"
    );
}

#[test]
fn input_classification_follows_the_commands() {
    assert_eq!(classify_input("   "), None);
    assert_eq!(classify_input("/quit"), Some(ReplAction::Quit));
    assert_eq!(classify_input(" /help "), Some(ReplAction::Help));
    assert_eq!(classify_input("/clear"), Some(ReplAction::ClearHistory));
    assert_eq!(classify_input("/status"), Some(ReplAction::Status));
    assert_eq!(
        classify_input("  how do I smelt faster? "),
        Some(ReplAction::Ask("how do I smelt faster?".to_string()))
    );
    assert!(status_prompt().contains("status overview"));
}

#[test]
fn tool_declarations_carry_names_and_schemas() {
    let spec = factorio_sensei::tools::recipe::definition();
    assert_eq!(spec.name, "get_recipe");
    assert!(spec.description.contains("recipe"));
    let text = factorio_sensei::json::to_json_text(&spec.parameters);
    assert!(text.contains("\"recipe_name\""));
    assert!(text.contains("\"required\""));
    assert!(factorio_sensei::json::parse_json(&text).is_some());

    let plain = factorio_sensei::tools::position::definition();
    assert_eq!(plain.name, "get_player_position");
    assert_eq!(
        factorio_sensei::json::to_json_text(&plain.parameters),
        r#"{"type":"object","properties":{}}"#
    );

    let bounded = factorio_sensei::tools::entities::definition();
    assert_eq!(bounded.name, "get_nearby_entities");
    assert!(factorio_sensei::json::to_json_text(&bounded.parameters).contains("\"radius\""));
}
