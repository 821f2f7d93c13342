use chatstream::chunk::StreamChunk;
use chatstream::decoder::Decoder;

fn feed_str(d: &mut Decoder, s: &str) -> Vec<StreamChunk> {
    d.feed(&s.as_bytes().to_vec())
}

fn reprs(chunks: &[StreamChunk]) -> Vec<String> {
    chunks.iter().map(|c| format!("{:?}", c)).collect()
}

#[test]
fn one_read_decodes_all_frames() {
    let mut d = Decoder::new();
    let out = feed_str(
        &mut d,
        "data: {\"type\":\"text\",\"content\":\"Hel\"}\ndata: {\"type\":\"text\",\"content\":\"lo\"}\ndata: {\"type\":\"done\"}\n",
    );
    assert_eq!(out.len(), 3);
    assert!(matches!(&out[0], StreamChunk::Text { content } if content == "Hel"));
    assert!(matches!(&out[1], StreamChunk::Text { content } if content == "lo"));
    assert!(matches!(&out[2], StreamChunk::Done));
    assert!(d.is_done());
}

#[test]
fn every_split_point_decodes_the_same_chunks() {
    // One stream, with a multi-byte character inside a frame, cut at every
    // byte boundary: the chunk sequence must match the one-read decoding.
    let stream =
        "data: {\"type\":\"text\",\"content\":\"héllo\"}\n\ndata: {\"type\":\"text\",\"content\":\"wörld\"}\ndata: {\"type\":\"done\"}\n";
    let bytes = stream.as_bytes();
    let mut whole = Decoder::new();
    let expected = reprs(&whole.feed(&bytes.to_vec()));
    for cut in 0..=bytes.len() {
        let mut d = Decoder::new();
        let mut got = d.feed(&bytes[..cut].to_vec());
        got.extend(d.feed(&bytes[cut..].to_vec()));
        assert_eq!(reprs(&got), expected, "split at byte {}", cut);
        assert!(d.is_done());
    }
}

#[test]
fn byte_at_a_time_decodes_the_same_chunks() {
    let stream = "data: {\"type\":\"text\",\"content\":\"héllo\"}\ndata: {\"type\":\"done\"}\n";
    let bytes = stream.as_bytes();
    let mut whole = Decoder::new();
    let expected = reprs(&whole.feed(&bytes.to_vec()));
    let mut d = Decoder::new();
    let mut got = Vec::new();
    for b in bytes {
        got.extend(d.feed(&vec![*b]));
    }
    assert_eq!(reprs(&got), expected);
}

#[test]
fn non_frame_lines_yield_nothing() {
    let mut d = Decoder::new();
    let out = feed_str(&mut d, "\n\n: keep-alive\nevent: message\ndata:{\"type\":\"done\"}\n");
    assert!(out.is_empty());
    assert!(!d.is_done());
}

#[test]
fn malformed_payload_is_skipped_and_decoding_goes_on() {
    let mut d = Decoder::new();
    let out = feed_str(
        &mut d,
        "data: {oops\ndata: {\"type\":\"text\",\"content\":\"ok\"}\ndata: {\"type\":\"done\"}\n",
    );
    assert_eq!(out.len(), 2);
    assert!(matches!(&out[0], StreamChunk::Text { content } if content == "ok"));
    assert!(matches!(&out[1], StreamChunk::Done));
}

#[test]
fn done_stops_decoding_within_one_read() {
    let mut d = Decoder::new();
    let out = feed_str(
        &mut d,
        "data: {\"type\":\"done\"}\ndata: {\"type\":\"text\",\"content\":\"late\"}\n",
    );
    assert_eq!(out.len(), 1);
    assert!(matches!(&out[0], StreamChunk::Done));
    assert!(d.is_done());
}

#[test]
fn feeding_after_done_is_a_no_op() {
    let mut d = Decoder::new();
    let first = feed_str(&mut d, "data: {\"type\":\"done\"}\n");
    assert_eq!(first.len(), 1);
    assert!(d.is_done());
    let again = feed_str(&mut d, "data: {\"type\":\"text\",\"content\":\"late\"}\n");
    assert!(again.is_empty());
    let and_again = feed_str(&mut d, "data: {\"type\":\"done\"}\n");
    assert!(and_again.is_empty());
    assert!(d.is_done());
}

#[test]
fn error_chunk_also_stops_decoding() {
    let mut d = Decoder::new();
    let out = feed_str(
        &mut d,
        "data: {\"type\":\"error\",\"message\":\"boom\"}\ndata: {\"type\":\"text\",\"content\":\"late\"}\n",
    );
    assert_eq!(out.len(), 1);
    assert!(matches!(&out[0], StreamChunk::Error { message } if message == "boom"));
    assert!(d.is_done());
}

#[test]
fn crlf_line_endings_are_tolerated() {
    let mut d = Decoder::new();
    let out = feed_str(&mut d, "data: {\"type\":\"text\",\"content\":\"x\"}\r\n");
    assert_eq!(out.len(), 1);
    assert!(matches!(&out[0], StreamChunk::Text { content } if content == "x"));
}

#[test]
fn frame_split_inside_prefix_reassembles() {
    let mut d = Decoder::new();
    assert!(feed_str(&mut d, "da").is_empty());
    assert!(feed_str(&mut d, "ta: {\"type\":\"do").is_empty());
    let out = feed_str(&mut d, "ne\"}\n");
    assert_eq!(out.len(), 1);
    assert!(matches!(&out[0], StreamChunk::Done));
}

#[test]
fn incomplete_line_waits_for_its_newline() {
    let mut d = Decoder::new();
    let out = feed_str(&mut d, "data: {\"type\":\"done\"}");
    assert!(out.is_empty());
    assert!(!d.is_done());
    let out = feed_str(&mut d, "\n");
    assert_eq!(out.len(), 1);
    assert!(matches!(&out[0], StreamChunk::Done));
}

#[test]
fn surrounding_whitespace_on_a_frame_line_is_trimmed() {
    let mut d = Decoder::new();
    let out = feed_str(&mut d, "  data: {\"type\":\"done\"}  \n");
    assert_eq!(out.len(), 1);
    assert!(matches!(&out[0], StreamChunk::Done));
}

#[test]
fn space_before_the_colon_is_not_a_frame() {
    let mut d = Decoder::new();
    let out = feed_str(&mut d, "data : {\"type\":\"done\"}\n");
    assert!(out.is_empty());
}

#[test]
fn invalid_utf8_never_aborts_the_stream() {
    let mut d = Decoder::new();
    let mut bytes = b"data: {\"type\":\"text\",\"content\":\"a".to_vec();
    bytes.push(0xFF);
    bytes.extend_from_slice(b"b\"}\ndata: {\"type\":\"done\"}\n");
    let out = d.feed(&bytes);
    assert_eq!(out.len(), 2);
    assert!(matches!(&out[0], StreamChunk::Text { content } if content == "a\u{fffd}b"));
    assert!(matches!(&out[1], StreamChunk::Done));
}
