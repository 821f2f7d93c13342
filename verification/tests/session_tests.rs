use chatstream::chunk::{Role, StreamChunk};
use chatstream::decoder::Decoder;
use chatstream::session::Session;
use chatstream::wire::{request_body, TurnError};

fn feed_str(d: &mut Decoder, s: &str) -> Vec<StreamChunk> {
    d.feed(&s.as_bytes().to_vec())
}

fn run_stream(s: &mut Session, stream: &str) {
    let mut d = Decoder::new();
    for chunk in feed_str(&mut d, stream) {
        s.handle_chunk(&chunk);
    }
}

#[test]
fn submitting_blank_input_is_a_no_op() {
    let mut s = Session::new();
    s.set_input("   \t  ".to_string());
    assert!(s.submit().is_none());
    assert!(!s.loading());
    assert_eq!(s.messages().len(), 0);
    assert_eq!(s.next_id(), 0);
}

#[test]
fn submitting_while_loading_changes_nothing() {
    let mut s = Session::new();
    s.set_input("hi".to_string());
    let first = s.submit();
    assert!(first.is_some());
    assert!(s.loading());
    let messages_before = s.messages().len();
    let next_id_before = s.next_id();
    let accumulator_before = s.accumulator().clone();
    s.set_input("again".to_string());
    assert!(s.submit().is_none());
    assert_eq!(s.messages().len(), messages_before);
    assert_eq!(s.next_id(), next_id_before);
    assert_eq!(s.accumulator(), &accumulator_before);
    assert_eq!(s.input().as_str(), "again");
    assert!(s.loading());
}

#[test]
fn submit_returns_the_request_with_prior_history() {
    let mut s = Session::new();
    s.set_input("hi".to_string());
    let req = s.submit().expect("submit should start a turn");
    assert_eq!(req.message, "hi");
    assert!(req.history.is_empty());
    assert_eq!(s.input().as_str(), "");
    assert_eq!(s.messages().len(), 1);
    assert_eq!(s.messages()[0].id, 0);
    assert!(s.messages()[0].role == Role::User);
    assert_eq!(s.messages()[0].content, "hi");
}

#[test]
fn scenario_plain_text_turn() {
    let mut s = Session::new();
    s.set_input("hi".to_string());
    let req = s.submit().expect("submit should start a turn");
    assert_eq!(request_body(&req), "{\"message\":\"hi\",\"history\":[]}");
    run_stream(
        &mut s,
        "data: {\"type\":\"text\",\"content\":\"Hel\"}\ndata: {\"type\":\"text\",\"content\":\"lo\"}\ndata: {\"type\":\"done\"}\n",
    );
    assert!(!s.loading());
    assert_eq!(s.accumulator().as_str(), "");
    assert_eq!(s.messages().len(), 2);
    assert!(s.messages()[1].role == Role::Assistant);
    assert_eq!(s.messages()[1].content, "Hello");
    assert_eq!(s.messages()[1].id, 1);
}

#[test]
fn scenario_tool_call_turn() {
    let mut s = Session::new();
    s.set_input("look this up".to_string());
    s.submit().expect("submit should start a turn");
    let mut d = Decoder::new();
    let chunks = feed_str(
        &mut d,
        "data: {\"type\":\"tool_start\",\"name\":\"search\"}\ndata: {\"type\":\"text\",\"content\":\"result\"}\ndata: {\"type\":\"tool_end\",\"name\":\"search\"}\ndata: {\"type\":\"done\"}\n",
    );
    assert_eq!(chunks.len(), 4);
    let mut seen_active = Vec::new();
    for chunk in chunks {
        s.handle_chunk(&chunk);
        seen_active.push(s.active_tool().clone());
    }
    assert_eq!(seen_active[0].as_deref(), Some("search"));
    assert_eq!(seen_active[1].as_deref(), Some("search"));
    assert!(seen_active[2].is_none());
    assert!(seen_active[3].is_none());
    assert!(!s.loading());
    // The paragraph break lands after the text that had arrived by then.
    assert_eq!(s.messages()[1].content, "result\n\n");
}

#[test]
fn scenario_http_failure_turn() {
    let mut s = Session::new();
    s.set_input("hi".to_string());
    s.submit().expect("submit should start a turn");
    // Status 503: no chunk is decoded; the transport failure ends the turn.
    s.fail_turn(TurnError::Http(503).text());
    assert!(!s.loading());
    assert_eq!(s.messages().len(), 2);
    assert!(s.messages()[1].role == Role::Assistant);
    assert_eq!(s.messages()[1].content, "Error: HTTP 503");
}

#[test]
fn error_chunk_commits_an_error_message() {
    let mut s = Session::new();
    s.set_input("hi".to_string());
    s.submit().expect("submit should start a turn");
    run_stream(&mut s, "data: {\"type\":\"error\",\"message\":\"boom\"}\n");
    assert!(!s.loading());
    assert_eq!(s.messages()[1].content, "Error: boom");
    assert_eq!(s.accumulator().as_str(), "");
    assert!(s.active_tool().is_none());
}

#[test]
fn ids_keep_increasing_across_turns() {
    let mut s = Session::new();
    for turn in 0..3 {
        s.set_input(format!("question {}", turn));
        s.submit().expect("submit should start a turn");
        run_stream(
            &mut s,
            "data: {\"type\":\"text\",\"content\":\"answer\"}\ndata: {\"type\":\"done\"}\n",
        );
    }
    assert_eq!(s.messages().len(), 6);
    for (k, m) in s.messages().iter().enumerate() {
        assert_eq!(m.id, k);
    }
    assert_eq!(s.next_id(), 6);
}

#[test]
fn second_turn_sends_the_committed_history() {
    let mut s = Session::new();
    s.set_input("first".to_string());
    s.submit().expect("submit should start a turn");
    run_stream(&mut s, "data: {\"type\":\"text\",\"content\":\"reply\"}\ndata: {\"type\":\"done\"}\n");
    s.set_input("second".to_string());
    let req = s.submit().expect("submit should start a turn");
    assert_eq!(req.message, "second");
    assert_eq!(req.history.len(), 2);
    assert_eq!(req.history[0].content, "first");
    assert_eq!(req.history[1].content, "reply");
    assert_eq!(
        request_body(&req),
        "{\"message\":\"second\",\"history\":[{\"role\":\"user\",\"content\":\"first\"},{\"role\":\"assistant\",\"content\":\"reply\"}]}"
    );
}

#[test]
fn text_chunks_accumulate_while_streaming() {
    let mut s = Session::new();
    s.set_input("hi".to_string());
    s.submit().expect("submit should start a turn");
    s.handle_chunk(&StreamChunk::Text { content: "a".to_string() });
    assert_eq!(s.accumulator().as_str(), "a");
    s.handle_chunk(&StreamChunk::Text { content: "bc".to_string() });
    assert_eq!(s.accumulator().as_str(), "abc");
    assert!(s.loading());
    s.handle_chunk(&StreamChunk::Done);
    assert_eq!(s.accumulator().as_str(), "");
    assert_eq!(s.messages()[1].content, "abc");
}

#[test]
fn consume_read_drives_a_whole_turn_across_split_reads() {
    let mut s = Session::new();
    s.set_input("hi".to_string());
    s.submit().expect("submit should start a turn");
    let stream =
        "data: {\"type\":\"text\",\"content\":\"Hel\"}\ndata: {\"type\":\"text\",\"content\":\"lo\"}\ndata: {\"type\":\"done\"}\n";
    let bytes = stream.as_bytes();
    let mut d = Decoder::new();
    for read in bytes.chunks(5) {
        if !s.loading() || d.is_done() {
            break;
        }
        s.consume_read(&mut d, &read.to_vec());
    }
    assert!(d.is_done());
    assert!(!s.loading());
    assert_eq!(s.messages().len(), 2);
    assert_eq!(s.messages()[1].content, "Hello");
}

#[test]
fn input_setter_and_getter_round_trip() {
    let mut s = Session::new();
    assert_eq!(s.input().as_str(), "");
    s.set_input("typing…".to_string());
    assert_eq!(s.input().as_str(), "typing…");
}
