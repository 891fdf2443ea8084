use sse_bridge::events::StreamEvent;
use sse_bridge::sse::{
    classify_sse_line, parse_sse_line, SseError, SseLineOutcome, SseParser, MAX_LINE_BYTES,
};

/// Drain a parser over the given chunks, collecting forwarded delta texts
/// and counting malformed diagnostics.
fn feed_all(parser: &mut SseParser, chunks: &[Vec<u8>]) -> (Vec<String>, usize, bool) {
    let mut texts = Vec::new();
    let mut malformed = 0usize;
    for chunk in chunks {
        match parser.push_chunk(chunk) {
            Ok(outcomes) => {
                for o in outcomes {
                    match o {
                        SseLineOutcome::Event(StreamEvent::ContentBlockDelta { delta, .. }) => {
                            texts.push(delta.text);
                        }
                        SseLineOutcome::Event(_) => {}
                        SseLineOutcome::MalformedEvent => malformed += 1,
                        SseLineOutcome::Ignored => {}
                    }
                }
            }
            Err(SseError::FrameTooLarge) => return (texts, malformed, true),
        }
    }
    (texts, malformed, false)
}

const STREAM: &str = "event: whatever\ndata: {\"type\":\"content_block_delta\",\"delta\":{\"text\":\"héllo \"}}\n\ndata: {\"type\":\"ping\"}\ndata: {\"type\":\"content_block_delta\",\"delta\":{\"text\":\"wörld\"}}\ndata: [DONE]\n";

#[test]
fn chunk_boundary_invariance_one_byte_at_a_time() {
    let bytes = STREAM.as_bytes();

    let mut whole = SseParser::new();
    let unsplit = feed_all(&mut whole, &[bytes.to_vec()]);

    let mut split = SseParser::new();
    let one_byte_chunks: Vec<Vec<u8>> = bytes.iter().map(|b| vec![*b]).collect();
    let bytewise = feed_all(&mut split, &one_byte_chunks);

    assert_eq!(unsplit, bytewise);
    assert_eq!(unsplit.0, vec!["héllo ".to_string(), "wörld".to_string()]);
    assert_eq!(unsplit.1, 0);
}

#[test]
fn chunk_boundary_invariance_splits_mid_codepoint() {
    let bytes = STREAM.as_bytes();
    // Split inside the two-byte encoding of 'é' (and everywhere else).
    for split_at in [1usize, 30, 31, 32, 60, 100] {
        let at = split_at.min(bytes.len());
        let mut parser = SseParser::new();
        let chunks = vec![bytes[..at].to_vec(), bytes[at..].to_vec()];
        let result = feed_all(&mut parser, &chunks);
        assert_eq!(result.0, vec!["héllo ".to_string(), "wörld".to_string()]);
        assert!(!result.2);
    }
}

#[test]
fn malformed_data_line_is_diagnosed_and_skipped() {
    let mut parser = SseParser::new();
    let input = b"data: {nope}\ndata: {\"type\":\"message_stop\"}\n".to_vec();
    let outcomes = parser.push_chunk(&input).unwrap();
    assert_eq!(outcomes.len(), 2);
    assert!(matches!(outcomes[0], SseLineOutcome::MalformedEvent));
    assert!(matches!(outcomes[1], SseLineOutcome::Event(StreamEvent::MessageStop)));
}

#[test]
fn oversized_frame_is_rejected() {
    let mut parser = SseParser::new();
    let big = vec![b'a'; 2 * 1024 * 1024];
    match parser.push_chunk(&big) {
        Err(SseError::FrameTooLarge) => {}
        Ok(_) => panic!("a 2 MiB line without newline must fail"),
    }
    assert!(parser.has_failed());
    assert!(parser.buffered_len() <= MAX_LINE_BYTES);
    // Feeding a failed parser fails again.
    assert!(matches!(parser.push_chunk(&vec![b'\n']), Err(SseError::FrameTooLarge)));
}

#[test]
fn line_just_under_the_limit_survives() {
    let mut parser = SseParser::new();
    let mut line = vec![b'x'; MAX_LINE_BYTES];
    line.push(b'\n');
    let outcomes = parser.push_chunk(&line).unwrap();
    // Not a data: line, so it is discarded without an event.
    assert_eq!(outcomes.len(), 0);
    assert_eq!(parser.buffered_len(), 0);
}

#[test]
fn parse_sse_line_accepts_data_lines_only() {
    assert!(parse_sse_line("event: foo").is_none());
    assert!(parse_sse_line("").is_none());
    assert!(parse_sse_line("data: [DONE]").is_none());
    assert!(parse_sse_line("data: {broken").is_none());
    match parse_sse_line("data: {\"type\":\"content_block_delta\",\"index\":3,\"delta\":{\"type\":\"text_delta\",\"text\":\"Hi\"}}") {
        Some(StreamEvent::ContentBlockDelta { index, delta }) => {
            assert_eq!(index, 3);
            assert_eq!(delta.delta_type, "text_delta");
            assert_eq!(delta.text, "Hi");
        }
        _ => panic!("expected a content block delta"),
    }
}

#[test]
fn classify_keeps_crlf_payloads_decodable() {
    // A CR before the newline is trailing JSON whitespace, as upstream
    // proxies often emit CRLF.
    let line = b"data: {\"type\":\"ping\"}\r".to_vec();
    assert!(matches!(
        classify_sse_line(&line),
        SseLineOutcome::Event(StreamEvent::Ping)
    ));
}

#[test]
fn decodes_full_message_start() {
    let line = "data: {\"type\":\"message_start\",\"message\":{\"id\":\"msg_1\",\"type\":\"message\",\"role\":\"assistant\",\"content\":[{\"type\":\"text\",\"text\":\"hey\"}],\"model\":\"m1\",\"stop_reason\":null,\"stop_sequence\":null,\"usage\":{\"input_tokens\":10,\"output_tokens\":null}}}";
    match parse_sse_line(line) {
        Some(StreamEvent::MessageStart { message }) => {
            assert_eq!(message.id, "msg_1");
            assert_eq!(message.message_type, "message");
            assert_eq!(message.role, "assistant");
            assert_eq!(message.model, "m1");
            assert_eq!(message.content.len(), 1);
            assert_eq!(message.content[0].block_type, "text");
            assert_eq!(message.content[0].text, "hey");
            assert_eq!(message.stop_reason, None);
            assert_eq!(message.stop_sequence, None);
            assert_eq!(message.usage.input_tokens, Some(10));
            assert_eq!(message.usage.output_tokens, None);
        }
        _ => panic!("expected message start"),
    }
}

#[test]
fn absent_fields_take_neutral_defaults() {
    match parse_sse_line("data: {\"type\":\"content_block_delta\",\"delta\":{\"text\":\"Hel\"}}") {
        Some(StreamEvent::ContentBlockDelta { index, delta }) => {
            assert_eq!(index, 0);
            assert_eq!(delta.delta_type, "");
            assert_eq!(delta.text, "Hel");
        }
        _ => panic!("expected delta"),
    }
    match parse_sse_line("data: {\"type\":\"message_delta\",\"delta\":{\"stop_reason\":\"end_turn\"}}") {
        Some(StreamEvent::MessageDelta { delta, usage }) => {
            assert_eq!(delta.stop_reason.as_deref(), Some("end_turn"));
            assert_eq!(delta.stop_sequence, None);
            assert_eq!(usage.input_tokens, None);
            assert_eq!(usage.output_tokens, None);
        }
        _ => panic!("expected message delta"),
    }
}

#[test]
fn present_fields_of_wrong_type_are_malformed() {
    assert!(parse_sse_line("data: {\"type\":\"content_block_delta\",\"index\":\"x\"}").is_none());
    assert!(parse_sse_line("data: {\"type\":\"message_delta\",\"delta\":{\"stop_reason\":5}}").is_none());
    assert!(parse_sse_line("data: {\"type\":\"something_new\"}").is_none());
    assert!(parse_sse_line("data: {\"no_type\":1}").is_none());
}

#[test]
fn event_variants_decode() {
    assert!(matches!(parse_sse_line("data: {\"type\":\"ping\"}"), Some(StreamEvent::Ping)));
    assert!(matches!(
        parse_sse_line("data: {\"type\":\"message_stop\"}"),
        Some(StreamEvent::MessageStop)
    ));
    assert!(matches!(
        parse_sse_line("data: {\"type\":\"content_block_stop\",\"index\":2}"),
        Some(StreamEvent::ContentBlockStop { index: 2 })
    ));
    match parse_sse_line(
        "data: {\"type\":\"content_block_start\",\"index\":1,\"content_block\":{\"type\":\"text\",\"text\":\"\"}}",
    ) {
        Some(StreamEvent::ContentBlockStart { index, content_block }) => {
            assert_eq!(index, 1);
            assert_eq!(content_block.block_type, "text");
        }
        _ => panic!("expected content block start"),
    }
}
