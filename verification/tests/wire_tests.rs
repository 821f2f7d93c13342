use chatstream::chunk::{ChatRequest, Message, Role};
use chatstream::text::trim_str;
use chatstream::wire::{request_body, u16_decimal, TurnError};

fn msg(id: usize, role: Role, content: &str) -> Message {
    Message { id, role, content: content.to_string() }
}

#[test]
fn empty_history_serializes_as_an_empty_array() {
    let req = ChatRequest { message: "hi".to_string(), history: Vec::new() };
    assert_eq!(request_body(&req), "{\"message\":\"hi\",\"history\":[]}");
}

#[test]
fn history_serializes_roles_and_contents_without_ids() {
    let req = ChatRequest {
        message: "next".to_string(),
        history: vec![msg(0, Role::User, "a"), msg(1, Role::Assistant, "b")],
    };
    assert_eq!(
        request_body(&req),
        "{\"message\":\"next\",\"history\":[{\"role\":\"user\",\"content\":\"a\"},{\"role\":\"assistant\",\"content\":\"b\"}]}"
    );
}

#[test]
fn quotes_backslashes_and_controls_are_escaped() {
    let req = ChatRequest {
        message: "say \"hi\"\\now\n\tok\r\u{8}\u{c}".to_string(),
        history: Vec::new(),
    };
    assert_eq!(
        request_body(&req),
        "{\"message\":\"say \\\"hi\\\"\\\\now\\n\\tok\\r\\b\\f\",\"history\":[]}"
    );
}

#[test]
fn rare_control_characters_use_the_u00_escape() {
    let req = ChatRequest { message: "a\u{1}b\u{1f}c".to_string(), history: Vec::new() };
    assert_eq!(request_body(&req), "{\"message\":\"a\\u0001b\\u001fc\",\"history\":[]}");
}

#[test]
fn non_ascii_text_passes_through_unescaped() {
    let req = ChatRequest { message: "héllo 😀".to_string(), history: Vec::new() };
    assert_eq!(request_body(&req), "{\"message\":\"héllo 😀\",\"history\":[]}");
}

#[test]
fn decimal_formatting_is_exact() {
    assert_eq!(u16_decimal(0), "0");
    assert_eq!(u16_decimal(7), "7");
    assert_eq!(u16_decimal(42), "42");
    assert_eq!(u16_decimal(503), "503");
    assert_eq!(u16_decimal(65535), "65535");
}

#[test]
fn each_failure_kind_renders_its_text() {
    assert_eq!(TurnError::Environment.text(), "no window");
    assert_eq!(TurnError::Request("bad body".to_string()).text(), "bad body");
    assert_eq!(TurnError::Http(404).text(), "HTTP 404");
    assert_eq!(TurnError::Transport("connection reset".to_string()).text(), "connection reset");
}

#[test]
fn trimming_removes_unicode_whitespace() {
    assert_eq!(trim_str("  \u{a0}data: x\u{2003} \r"), "data: x");
    assert_eq!(trim_str("\t\n  \r"), "");
    assert_eq!(trim_str("plain"), "plain");
}
