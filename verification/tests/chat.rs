//! Tests of the chat bridge's decisions: the display sanitizer, the message
//! feed, the backoff state machine, and the conversation store.

use factorio_sensei::bridge::apology_text;
use factorio_sensei::bridge::ingame_prompt;
use factorio_sensei::bridge::outbound_reply;
use factorio_sensei::bridge::parse_coach_messages;
use factorio_sensei::bridge::parse_poll_response;
use factorio_sensei::bridge::sanitize_for_game;
use factorio_sensei::bridge::BridgeState;
use factorio_sensei::bridge::ChatRole;
use factorio_sensei::bridge::ChatTurn;
use factorio_sensei::bridge::ConversationStore;
use factorio_sensei::error::SenseiError;

#[test]
fn strips_bold_markers() {
    assert_eq!(sanitize_for_game("use **bold** text"), "use bold text");
}

#[test]
fn strips_code_fences() {
    let input = "before\n```lua\nprint('hi')\n```\nafter";
    let result = sanitize_for_game(input);
    assert!(result.contains("print('hi')"));
    assert!(!result.contains("```"));
}

#[test]
fn strips_inline_backticks() {
    assert_eq!(sanitize_for_game("use `iron-plate`"), "use iron-plate");
}

#[test]
fn strips_markdown_headers() {
    assert_eq!(sanitize_for_game("## Analysis"), "Analysis");
}

#[test]
fn flattens_newlines() {
    let input = "line one\nline two\nline three";
    assert_eq!(sanitize_for_game(input), "line one | line two | line three");
}

#[test]
fn truncates_long_text() {
    let long = "a".repeat(1500);
    let result = sanitize_for_game(&long);
    assert!(result.len() <= 1003);
    assert!(result.ends_with("..."));
}

#[test]
fn collapses_whitespace() {
    assert_eq!(sanitize_for_game("too   many   spaces"), "too many spaces");
}

#[test]
fn escapes_brackets() {
    assert_eq!(sanitize_for_game("use [item=iron-plate]"), "use (item=iron-plate)");
}

#[test]
fn empty_input() {
    assert_eq!(sanitize_for_game(""), "");
}

#[test]
fn strips_blank_lines() {
    let input = "first\n\n\nsecond";
    assert_eq!(sanitize_for_game(input), "first | second");
}

#[test]
fn truncates_multibyte_safely() {
    let mut input = "a".repeat(999);
    input.push('\u{20ac}');
    input.push_str("tail");
    let result = sanitize_for_game(&input);
    assert!(result.ends_with("..."));
    assert!(result.len() <= 1003);
}

#[test]
fn combined_markdown() {
    let input = "## Tips\n\n**First**, use `assembler`.\n\n### Next\n\nBuild more.";
    let result = sanitize_for_game(input);
    assert!(!result.contains("**"));
    assert!(!result.contains("##"));
    assert!(!result.contains('`'));
    assert!(result.contains("First"));
    assert!(result.contains("assembler"));
}

#[test]
fn deserialize_single_message() {
    let json = r#"[{"player":"nick","message":"what now?","tick":12345}]"#;
    let msgs = parse_coach_messages(json).unwrap();
    assert_eq!(msgs.len(), 1);
    assert_eq!(msgs[0].player, "nick");
    assert_eq!(msgs[0].message, "what now?");
}

#[test]
fn deserialize_multiple_messages() {
    let json = r#"[
        {"player":"alice","message":"help","tick":100},
        {"player":"bob","message":"tips?","tick":200}
    ]"#;
    let msgs = parse_coach_messages(json).unwrap();
    assert_eq!(msgs.len(), 2);
    assert_eq!(msgs[1].player, "bob");
}

#[test]
fn deserialize_empty_array() {
    let json = "[]";
    let msgs = parse_coach_messages(json).unwrap();
    assert!(msgs.is_empty());
}

#[test]
fn poll_empty_reply_means_no_messages() {
    assert!(parse_poll_response("").unwrap().is_empty());
    assert!(parse_poll_response("  \n").unwrap().is_empty());
    assert!(parse_poll_response(" [] ").unwrap().is_empty());
}

#[test]
fn poll_error_marker_is_a_failed_poll() {
    match parse_poll_response(r#"{"error":"boom"}"#) {
        Err(SenseiError::LuaError(m)) => assert_eq!(m, r#"{"error":"boom"}"#),
        other => panic!("unexpected: {:?}", other),
    }
}

#[test]
fn poll_garbage_is_a_parse_failure() {
    match parse_poll_response("<html>") {
        Err(SenseiError::JsonParse(_)) => {},
        other => panic!("unexpected: {:?}", other),
    }
}

#[test]
fn poll_payload_decodes_messages() {
    let msgs = parse_poll_response(r#" [{"player":"nick","message":"hi"}] "#).unwrap();
    assert_eq!(msgs.len(), 1);
    assert_eq!(msgs[0].player, "nick");
}

#[test]
fn backoff_engages_on_the_fourth_failure() {
    let mut st = BridgeState::new();
    st.note_failure();
    assert_eq!(st.poll_delay_ms(2000), 2000);
    st.note_failure();
    assert_eq!(st.poll_delay_ms(2000), 2000);
    st.note_failure();
    assert_eq!(st.poll_delay_ms(2000), 2000);
    assert!(st.should_log_failure());
    st.note_failure();
    assert!(st.entered_degraded());
    assert!(!st.should_log_failure());
    assert!(st.is_degraded());
    assert_eq!(st.poll_delay_ms(2000), 10000);
}

#[test]
fn backoff_recovers_on_the_next_success() {
    let mut st = BridgeState::new();
    for _ in 0..4 {
        st.note_failure();
    }
    assert_eq!(st.poll_delay_ms(2000), 10000);
    st.note_success();
    assert!(!st.is_degraded());
    assert_eq!(st.poll_delay_ms(2000), 2000);
}

#[test]
fn prompt_tags_the_sender() {
    assert_eq!(
        ingame_prompt("nick", "what now?"),
        "[In-game message from player nick] what now?"
    );
}

#[test]
fn apology_is_fixed() {
    assert_eq!(
        apology_text(),
        "Sorry, I encountered an error processing your question."
    );
}

#[test]
fn conversation_store_keeps_order_and_isolation() {
    let mut store = ConversationStore::new();
    store.append_turn("alice", ChatTurn { role: ChatRole::Player, content: "one".to_string() });
    store.append_turn("bob", ChatTurn { role: ChatRole::Player, content: "hi".to_string() });
    store.append_turn(
        "alice",
        ChatTurn { role: ChatRole::Assistant, content: "two".to_string() },
    );
    let alice = store.history_of("alice").unwrap();
    assert_eq!(alice.len(), 2);
    assert_eq!(alice[0].content, "one");
    assert_eq!(alice[0].role, ChatRole::Player);
    assert_eq!(alice[1].content, "two");
    assert_eq!(alice[1].role, ChatRole::Assistant);
    let bob = store.history_of("bob").unwrap();
    assert_eq!(bob.len(), 1);
    assert!(store.history_of("carol").is_none());
    store.clear();
    assert!(store.history_of("alice").is_none());
}

#[test]
fn outbound_reply_sanitizes_or_apologizes() {
    assert_eq!(outbound_reply(Some("**bold** [tip]")), "bold (tip)");
    assert_eq!(
        outbound_reply(None),
        "Sorry, I encountered an error processing your question."
    );
}

#[test]
fn text_at_the_byte_budget_is_kept_whole() {
    let exact = "a".repeat(1000);
    assert_eq!(sanitize_for_game(&exact), exact);
    let over = "a".repeat(1001);
    let result = sanitize_for_game(&over);
    assert_eq!(result.len(), 1003);
    assert!(result.ends_with("..."));
}

#[test]
fn poll_payload_with_escaped_control_characters_decodes() {
    let json = "[{\"player\":\"nick\",\"message\":\"line\\u000Abreak\"}]";
    let msgs = parse_coach_messages(json).unwrap();
    assert_eq!(msgs[0].message, "line\nbreak");
}
