use chatstream::frame::parse_chunk;
use chatstream::chunk::StreamChunk;

fn text_content(r: Option<StreamChunk>) -> String {
    match r {
        Some(StreamChunk::Text { content }) => content,
        other => panic!("expected a text chunk, got {:?}", other),
    }
}

#[test]
fn parses_text_frame() {
    assert_eq!(text_content(parse_chunk(r#"{"type":"text","content":"Hel"}"#)), "Hel");
}

#[test]
fn parses_tool_start_frame() {
    let r = parse_chunk(r#"{"type":"tool_start","name":"search"}"#);
    assert!(matches!(r, Some(StreamChunk::ToolStart { name }) if name == "search"));
}

#[test]
fn parses_tool_end_frame() {
    let r = parse_chunk(r#"{"type":"tool_end","name":"search"}"#);
    assert!(matches!(r, Some(StreamChunk::ToolEnd { name }) if name == "search"));
}

#[test]
fn parses_done_frame() {
    assert!(matches!(parse_chunk(r#"{"type":"done"}"#), Some(StreamChunk::Done)));
}

#[test]
fn parses_error_frame() {
    let r = parse_chunk(r#"{"type":"error","message":"boom"}"#);
    assert!(matches!(r, Some(StreamChunk::Error { message }) if message == "boom"));
}

#[test]
fn key_order_does_not_matter() {
    assert_eq!(text_content(parse_chunk(r#"{"content":"x","type":"text"}"#)), "x");
}

#[test]
fn whitespace_between_tokens_is_tolerated() {
    assert!(matches!(parse_chunk("  { \"type\" :\t\"done\" }  "), Some(StreamChunk::Done)));
}

#[test]
fn unknown_members_are_ignored() {
    assert_eq!(text_content(parse_chunk(r#"{"extra":"y","type":"text","content":"x"}"#)), "x");
}

#[test]
fn repeated_member_keeps_the_last_value() {
    assert_eq!(text_content(parse_chunk(r#"{"type":"text","content":"a","content":"b"}"#)), "b");
}

#[test]
fn short_escapes_decode() {
    let r = parse_chunk(r#"{"type":"text","content":"a\nb\"c\\d\te\/f"}"#);
    assert_eq!(text_content(r), "a\nb\"c\\d\te/f");
}

#[test]
fn unicode_escape_decodes() {
    let payload = "{\"type\":\"text\",\"content\":\"\\u0041\\u00e9\"}";
    assert_eq!(text_content(parse_chunk(payload)), "A\u{e9}");
}

#[test]
fn unicode_escape_uppercase_hex_decodes() {
    let payload = "{\"type\":\"text\",\"content\":\"\\u00E9\"}";
    assert_eq!(text_content(parse_chunk(payload)), "\u{e9}");
}

#[test]
fn surrogate_pair_escape_decodes() {
    let payload = "{\"type\":\"text\",\"content\":\"\\ud83d\\ude00\"}";
    assert_eq!(text_content(parse_chunk(payload)), "\u{1f600}");
}

#[test]
fn raw_multibyte_characters_pass_through() {
    assert_eq!(text_content(parse_chunk(r#"{"type":"text","content":"héllo"}"#)), "héllo");
}

#[test]
fn lone_trailing_surrogate_is_rejected() {
    assert!(parse_chunk(r#"{"type":"text","content":"\ude00"}"#).is_none());
}

#[test]
fn unpaired_leading_surrogate_is_rejected() {
    assert!(parse_chunk(r#"{"type":"text","content":"\ud83dx"}"#).is_none());
}

#[test]
fn unknown_escape_is_rejected() {
    assert!(parse_chunk(r#"{"type":"text","content":"\x"}"#).is_none());
}

#[test]
fn missing_closing_brace_is_rejected() {
    assert!(parse_chunk(r#"{"type":"done""#).is_none());
}

#[test]
fn trailing_garbage_is_rejected() {
    assert!(parse_chunk(r#"{"type":"done"}x"#).is_none());
}

#[test]
fn non_string_member_value_is_rejected() {
    assert!(parse_chunk(r#"{"type":"text","content":5}"#).is_none());
}

#[test]
fn missing_type_member_gives_no_chunk() {
    assert!(parse_chunk(r#"{"content":"x"}"#).is_none());
}

#[test]
fn unknown_type_gives_no_chunk() {
    assert!(parse_chunk(r#"{"type":"typing"}"#).is_none());
}

#[test]
fn text_without_content_gives_no_chunk() {
    assert!(parse_chunk(r#"{"type":"text"}"#).is_none());
}

#[test]
fn tool_start_without_name_gives_no_chunk() {
    assert!(parse_chunk(r#"{"type":"tool_start"}"#).is_none());
}

#[test]
fn error_without_message_gives_no_chunk() {
    assert!(parse_chunk(r#"{"type":"error"}"#).is_none());
}

#[test]
fn raw_control_character_in_string_is_rejected() {
    assert!(parse_chunk("{\"type\":\"text\",\"content\":\"a\u{1}b\"}").is_none());
}

#[test]
fn empty_payload_gives_no_chunk() {
    assert!(parse_chunk("").is_none());
}

#[test]
fn non_object_payload_gives_no_chunk() {
    assert!(parse_chunk("\"done\"").is_none());
    assert!(parse_chunk("done").is_none());
}

#[test]
fn empty_object_gives_no_chunk() {
    assert!(parse_chunk("{}").is_none());
}

#[test]
fn trailing_comma_is_rejected() {
    assert!(parse_chunk(r#"{"type":"done",}"#).is_none());
}
