use mistral_stream::decode::DecodeError;
use mistral_stream::stream::{
    complete_buffer_record, malformed_record, parse_mistral_stream, Diagnostic, Outcome,
    StreamError, StreamParser, StreamState,
};

fn chunk(content: &str) -> String {
    format!(
        "{{\"id\":\"x\",\"created\":1,\"model\":\"m\",\"choices\":[{{\"index\":0,\"delta\":{{\"content\":\"{content}\"}},\"finish_reason\":null}}]}}"
    )
}

fn frame(content: &str) -> Vec<u8> {
    format!("data: {}\n\n", chunk(content)).into_bytes()
}

fn last_frame(content: &str) -> Vec<u8> {
    format!(
        "data: {{\"id\":\"x\",\"created\":1,\"model\":\"m\",\"choices\":[{{\"index\":0,\"delta\":{{\"content\":\"{content}\"}},\"finish_reason\":\"stop\"}}]}}\n\n"
    )
    .into_bytes()
}

fn steady() -> StreamParser {
    let mut parser = StreamParser::new();
    assert!(matches!(parser.feed(&frame("")), Outcome::Decoded { .. }));
    assert_eq!(parser.state(), StreamState::SubsequentChunk);
    parser
}

#[test]
fn new_parser_is_initial() {
    let parser = StreamParser::new();
    assert_eq!(parser.state(), StreamState::FirstChunk);
    assert!(parser.is_running());
    assert!(!parser.is_finished());
    assert!(parser.pending().is_empty());
    assert_eq!(parser.content(), "");
    assert!(parser.error().is_none());
}

#[test]
fn state_names() {
    assert_eq!(StreamState::FirstChunk.name(), "FirstChunk");
    assert_eq!(StreamState::PartialChunk.name(), "PartialChunk");
    assert_eq!(StreamState::SubsequentChunk.name(), "SubsequentChunk");
}

#[test]
fn single_chunk_gives_one_token() {
    let report = parse_mistral_stream(&vec![Ok(frame("ku"))]);
    assert_eq!(report.content, "ku");
    assert_eq!(report.tokens, vec!["ku".to_string()]);
    assert!(report.diagnostics.is_empty());
    assert_eq!(report.consumed, 1);
    assert!(!report.finished);
    assert!(report.error.is_none());
}

#[test]
fn tokens_of_minimal_chunks_in_order() {
    let tokens = [
        "", "Tur", "ku", " River", ",", " Finland", ":", " Historical", " water", "way",
        " connecting", " the", " Balt", "ic", " Sea", " with", " a", " vibr", "ant", " city",
        " known",
    ];
    let mut source: Vec<Result<Vec<u8>, String>> = tokens.iter().map(|t| Ok(frame(t))).collect();
    source.push(Ok(b"data: [DONE]".to_vec()));
    let report = parse_mistral_stream(&source);
    assert_eq!(
        report.content,
        "Turku River, Finland: Historical waterway connecting the Baltic Sea with a vibrant city known"
    );
    let expected: Vec<String> = tokens.iter().map(|t| t.to_string()).collect();
    assert_eq!(report.tokens, expected);
    assert_eq!(report.tokens.concat(), report.content);
    assert_eq!(report.consumed, 22);
    assert!(report.diagnostics.is_empty());
    assert!(report.error.is_none());
    assert!(!report.finished);
}

#[test]
fn empty_source_gives_empty_report() {
    let report = parse_mistral_stream(&Vec::new());
    assert_eq!(report.content, "");
    assert!(report.tokens.is_empty());
    assert_eq!(report.consumed, 0);
    assert!(report.error.is_none());
}

#[test]
fn empty_content_is_a_token_and_absent_content_is_none() {
    let mut parser = StreamParser::new();
    match parser.feed(&frame("")) {
        Outcome::Decoded { token, finished } => {
            assert_eq!(token, Some(String::new()));
            assert!(!finished);
        }
        other => panic!("{other:?}"),
    }
    let bare =
        b"data: {\"id\":\"x\",\"created\":1,\"model\":\"m\",\"choices\":[{\"index\":0,\"delta\":{}}]}";
    match parser.feed(bare) {
        Outcome::Decoded { token, finished } => {
            assert_eq!(token, None);
            assert!(!finished);
        }
        other => panic!("{other:?}"),
    }
    let report = parse_mistral_stream(&vec![Ok(bare.to_vec()), Ok(frame("")), Ok(frame("a"))]);
    assert_eq!(report.tokens, vec![String::new(), "a".to_string()]);
    assert_eq!(report.content, "a");
}

#[test]
fn first_choice_is_authoritative() {
    let two = b"data: {\"id\":\"x\",\"created\":1,\"model\":\"m\",\"choices\":[{\"index\":0,\"delta\":{\"content\":\"a\"}},{\"index\":1,\"delta\":{\"content\":\"b\"},\"finish_reason\":\"stop\"}]}";
    let mut parser = StreamParser::new();
    match parser.feed(two) {
        Outcome::Decoded { token, finished } => {
            assert_eq!(token, Some("a".to_string()));
            assert!(!finished);
        }
        other => panic!("{other:?}"),
    }
    assert!(parser.is_running());
}

#[test]
fn sentinel_and_blank_leave_the_parser_as_it_is() {
    let mut parser = StreamParser::new();
    assert!(matches!(parser.feed(b"data: [DONE]"), Outcome::Filtered));
    assert!(matches!(parser.feed(b"  \n data: [DONE] \r\n"), Outcome::Filtered));
    assert!(matches!(parser.feed(b"\n"), Outcome::Filtered));
    assert_eq!(parser.state(), StreamState::FirstChunk);
    assert!(parser.is_running());
    assert_eq!(parser.content(), "");
    let report = parse_mistral_stream(&vec![Ok(b" data: [DONE] \n".to_vec())]);
    assert!(report.tokens.is_empty());
    assert!(report.diagnostics.is_empty());
    assert_eq!(report.consumed, 1);
}

#[test]
fn blank_delivery_keeps_stitching() {
    let mut parser = steady();
    assert!(matches!(parser.feed(b"{\"id\":"), Outcome::Buffered));
    assert!(matches!(parser.feed(b" \n"), Outcome::Filtered));
    assert_eq!(parser.state(), StreamState::PartialChunk);
    assert_eq!(parser.pending(), &b"{\"id\":".to_vec());
}

#[test]
fn broken_start_is_dropped() {
    let mut parser = StreamParser::new();
    match parser.feed(b"ent\":\"ku\"},\"finish_reason\":null}]}") {
        Outcome::Dropped(Diagnostic::BrokenStart) => {}
        other => panic!("{other:?}"),
    }
    assert_eq!(parser.state(), StreamState::SubsequentChunk);
    assert!(parser.pending().is_empty());
    assert!(parser.is_running());
    assert_eq!(
        Diagnostic::BrokenStart.message(),
        "Token stream starts broken, can't stitch"
    );
}

#[test]
fn first_fragment_that_opens_a_chunk_is_not_kept() {
    let mut parser = StreamParser::new();
    match parser.feed(b"data: {\"id\":\"x\",\"crea") {
        Outcome::Dropped(Diagnostic::Malformed { state, fragment, error }) => {
            assert_eq!(state, StreamState::FirstChunk);
            assert_eq!(fragment, b"{\"id\":\"x\",\"crea".to_vec());
            assert!(matches!(error, DecodeError::Syntax(_)));
        }
        other => panic!("{other:?}"),
    }
    assert_eq!(parser.state(), StreamState::SubsequentChunk);
    assert!(parser.pending().is_empty());
}

#[test]
fn stitching_is_sticky_until_a_chunk_decodes() {
    let whole = chunk("hello");
    let (one, rest) = whole.split_at(whole.find("llo").unwrap());
    let (two, three) = rest.split_at(rest.len() - 1);
    assert_eq!(three, "}");
    let mut parser = steady();
    assert!(matches!(parser.feed(format!("data: {one}").as_bytes()), Outcome::Buffered));
    assert_eq!(parser.state(), StreamState::PartialChunk);
    assert_eq!(parser.pending(), &one.as_bytes().to_vec());
    assert!(matches!(parser.feed(two.as_bytes()), Outcome::Buffered));
    assert_eq!(parser.state(), StreamState::PartialChunk);
    assert_eq!(parser.pending(), &format!("{one}{two}").into_bytes());
    match parser.feed(three.as_bytes()) {
        Outcome::Decoded { token, finished } => {
            assert_eq!(token, Some("hello".to_string()));
            assert!(!finished);
        }
        other => panic!("{other:?}"),
    }
    assert_eq!(parser.state(), StreamState::SubsequentChunk);
    assert!(parser.pending().is_empty());
    assert_eq!(parser.content(), "hello");
}

#[test]
fn split_chunk_gives_the_token_of_the_whole() {
    let whole = chunk("Turku");
    for at in 1..whole.len() {
        let (one, two) = whole.split_at(at);
        if one.ends_with('}') || one.ends_with(' ') || two.starts_with(' ') {
            continue;
        }
        let mut split = steady();
        assert!(matches!(split.feed(format!("data: {one}").as_bytes()), Outcome::Buffered), "{at}");
        let second = split.feed(format!("{two}\n\n").as_bytes());
        let mut unsplit = steady();
        let first = unsplit.feed(format!("data: {whole}\n\n").as_bytes());
        match (second, first) {
            (
                Outcome::Decoded { token: a, finished: f },
                Outcome::Decoded { token: b, finished: g },
            ) => {
                assert_eq!(a, Some("Turku".to_string()));
                assert_eq!(a, b);
                assert_eq!(f, g);
            }
            other => panic!("{at}: {other:?}"),
        }
        assert_eq!(split.content(), unsplit.content());
        assert!(split.pending().is_empty());
        assert_eq!(split.state(), unsplit.state());
    }
}

#[test]
fn split_behind_a_closing_brace_is_dropped() {
    let whole = chunk("ku");
    let at = whole.find("},").unwrap() + 1;
    let (one, two) = whole.split_at(at);
    let mut parser = steady();
    match parser.feed(one.as_bytes()) {
        Outcome::Dropped(Diagnostic::Malformed { state, .. }) => {
            assert_eq!(state, StreamState::SubsequentChunk);
        }
        other => panic!("{other:?}"),
    }
    assert!(matches!(parser.feed(two.as_bytes()), Outcome::Dropped(Diagnostic::Malformed { .. })));
    assert_eq!(parser.content(), "");
    assert_eq!(parser.state(), StreamState::SubsequentChunk);
}

#[test]
fn complete_buffer_is_fatal() {
    let mut parser = steady();
    assert!(matches!(parser.feed(b"{\"a\":{\"b\":1},\"c\":"), Outcome::Buffered));
    assert_eq!(parser.state(), StreamState::PartialChunk);
    match parser.feed(b"\"more") {
        Outcome::Fatal(Diagnostic::BufferComplete { pending }) => {
            assert_eq!(pending, b"{\"a\":{\"b\":1},\"c\":".to_vec());
        }
        other => panic!("{other:?}"),
    }
    assert!(!parser.is_running());
    assert!(!parser.is_finished());
    assert!(matches!(parser.error(), Some(StreamError::StitchInvariantViolation)));
    assert_eq!(parser.pending(), &b"{\"a\":{\"b\":1},\"c\":".to_vec());
    assert!(matches!(parser.feed(&frame("late")), Outcome::Ignored));
    assert_eq!(parser.content(), "");
}

#[test]
fn fatal_violation_ends_the_run() {
    let source = vec![
        Ok(frame("a")),
        Ok(b"{\"x\":{},".to_vec()),
        Ok(b"junk}".to_vec()),
        Ok(frame("b")),
    ];
    let report = parse_mistral_stream(&source);
    assert_eq!(report.content, "a");
    assert_eq!(report.tokens, vec!["a".to_string()]);
    assert_eq!(report.consumed, 3);
    assert!(matches!(report.error, Some(StreamError::StitchInvariantViolation)));
    assert!(!report.finished);
    assert_eq!(report.diagnostics.len(), 1);
    assert_eq!(
        report.diagnostics[0].message(),
        "Can't stitch, buffer already contains a complete chunk\n{\"x\":{},"
    );
}

#[test]
fn malformed_fragment_that_closes_is_dropped() {
    let mut parser = steady();
    match parser.feed(b"data: {\"id\":1}") {
        Outcome::Dropped(record) => {
            assert_eq!(
                record.message(),
                "State: SubsequentChunk\nBroken buffer: {\\\"id\\\":1}\nError: the document is not a completion chunk"
            );
        }
        other => panic!("{other:?}"),
    }
    assert_eq!(parser.state(), StreamState::SubsequentChunk);
    assert!(parser.pending().is_empty());
    assert!(parser.is_running());
}

#[test]
fn malformed_fragment_while_stitching_keeps_the_buffer() {
    let mut parser = steady();
    assert!(matches!(parser.feed(b"{\"id\":"), Outcome::Buffered));
    match parser.feed(b"oops}") {
        Outcome::Dropped(Diagnostic::Malformed { state, fragment, error }) => {
            assert_eq!(state, StreamState::PartialChunk);
            assert_eq!(fragment, b"oops}".to_vec());
            assert!(matches!(error, DecodeError::Syntax(_)));
        }
        other => panic!("{other:?}"),
    }
    assert_eq!(parser.state(), StreamState::SubsequentChunk);
    assert_eq!(parser.pending(), &b"{\"id\":".to_vec());
    assert!(matches!(parser.feed(&frame("a")), Outcome::Dropped(_)));
}

#[test]
fn syntax_record_names_state_and_fragment() {
    let mut parser = steady();
    match parser.feed(b"a\tb}") {
        Outcome::Dropped(record) => {
            let text = record.message();
            assert!(text.starts_with("State: SubsequentChunk\nBroken buffer: a\\tb}\nError: "), "{text}");
            assert!(text.len() > "State: SubsequentChunk\nBroken buffer: a\\tb}\nError: ".len());
        }
        other => panic!("{other:?}"),
    }
}

#[test]
fn finish_reason_stops_the_parser() {
    let mut parser = StreamParser::new();
    assert!(matches!(parser.feed(&frame("a")), Outcome::Decoded { finished: false, .. }));
    match parser.feed(&last_frame("b")) {
        Outcome::Decoded { token, finished } => {
            assert_eq!(token, Some("b".to_string()));
            assert!(finished);
        }
        other => panic!("{other:?}"),
    }
    assert!(parser.is_finished());
    assert!(!parser.is_running());
    assert!(parser.error().is_none());
    assert!(matches!(parser.feed(&frame("c")), Outcome::Ignored));
    assert!(matches!(parser.feed(b"data: [DONE]"), Outcome::Ignored));
    assert_eq!(parser.content(), "ab");
}

#[test]
fn nothing_is_read_after_a_finish_reason() {
    let source = vec![
        Ok(frame("a")),
        Ok(last_frame("")),
        Ok(frame("never")),
        Err("never".to_string()),
        Ok(b"data: [DONE]".to_vec()),
    ];
    let report = parse_mistral_stream(&source);
    assert_eq!(report.content, "a");
    assert_eq!(report.tokens, vec!["a".to_string(), String::new()]);
    assert_eq!(report.consumed, 2);
    assert!(report.finished);
    assert!(report.error.is_none());
    let short = parse_mistral_stream(&source[..2].to_vec());
    assert_eq!(short.content, report.content);
    assert_eq!(short.tokens, report.tokens);
    assert_eq!(short.consumed, report.consumed);
}

#[test]
fn transport_failure_keeps_the_text() {
    let source = vec![Ok(frame("a")), Ok(frame("b")), Err("connection reset".to_string()), Ok(frame("c"))];
    let report = parse_mistral_stream(&source);
    assert_eq!(report.content, "ab");
    assert_eq!(report.tokens, vec!["a".to_string(), "b".to_string()]);
    assert_eq!(report.consumed, 3);
    assert!(!report.finished);
    match report.error {
        Some(StreamError::Transport(message)) => assert_eq!(message, "connection reset"),
        other => panic!("{other:?}"),
    }
}

#[test]
fn transport_failure_on_the_parser() {
    let mut parser = steady();
    assert!(matches!(parser.feed(&frame("a")), Outcome::Decoded { .. }));
    parser.transport_failed("gone".to_string());
    assert!(!parser.is_running());
    assert!(matches!(parser.error(), Some(StreamError::Transport(m)) if m == "gone"));
    assert_eq!(parser.content(), "a");
    parser.channel_closed();
    assert!(matches!(parser.error(), Some(StreamError::Transport(_))));
}

#[test]
fn closed_channel_stops_the_parser() {
    let mut parser = StreamParser::new();
    assert!(matches!(parser.feed(&frame("a")), Outcome::Decoded { .. }));
    parser.channel_closed();
    assert!(!parser.is_running());
    assert!(!parser.is_finished());
    assert!(matches!(parser.error(), Some(StreamError::ChannelClosed)));
    assert_eq!(parser.content(), "a");
    assert!(matches!(parser.feed(&frame("b")), Outcome::Ignored));
    assert_eq!(parser.content(), "a");
}

#[test]
fn failure_after_the_end_changes_nothing() {
    let mut parser = StreamParser::new();
    assert!(matches!(parser.feed(&last_frame("a")), Outcome::Decoded { finished: true, .. }));
    parser.channel_closed();
    parser.transport_failed("late".to_string());
    assert!(parser.is_finished());
    assert!(parser.error().is_none());
}

#[test]
fn resolve_takes_the_decode_result() {
    let mut parser = steady();
    let outcome = parser.resolve(b"{\"id\":".to_vec(), Err(DecodeError::Schema));
    assert!(matches!(outcome, Outcome::Buffered));
    assert_eq!(parser.state(), StreamState::PartialChunk);
    let decoded = mistral_stream::decode::decode_chunk(chunk("x").into_bytes());
    let outcome = parser.resolve(b"anything".to_vec(), decoded);
    match outcome {
        Outcome::Decoded { token, finished } => {
            assert_eq!(token, Some("x".to_string()));
            assert!(!finished);
        }
        other => panic!("{other:?}"),
    }
    assert!(parser.pending().is_empty());
    assert_eq!(parser.state(), StreamState::SubsequentChunk);
}

#[test]
fn pending_bytes_go_in_front_of_the_fragment() {
    let whole = chunk("ab");
    let (one, two) = whole.split_at(20);
    let mut parser = steady();
    assert!(matches!(parser.feed(one.as_bytes()), Outcome::Buffered));
    assert!(matches!(parser.feed(two.as_bytes()), Outcome::Decoded { .. }));
    let mut swapped = steady();
    assert!(matches!(swapped.feed(&two.as_bytes()[..two.len() - 1]), Outcome::Buffered));
    assert!(!matches!(swapped.feed(one.as_bytes()), Outcome::Decoded { .. }));
}

#[test]
fn cancelled_parser_keeps_the_text() {
    let mut parser = steady();
    assert!(matches!(parser.feed(&frame("a")), Outcome::Decoded { .. }));
    assert!(matches!(parser.feed(b"{\"id\":"), Outcome::Buffered));
    parser.cancel();
    assert!(parser.is_cancelled());
    assert!(!parser.is_running());
    assert!(!parser.is_finished());
    assert!(parser.error().is_none());
    assert_eq!(parser.content(), "a");
    assert!(matches!(parser.feed(&frame("b")), Outcome::Ignored));
    assert_eq!(parser.content(), "a");
    parser.channel_closed();
    assert!(parser.is_cancelled());
}

#[test]
fn cancel_after_the_end_changes_nothing() {
    let mut parser = StreamParser::new();
    assert!(!parser.is_cancelled());
    assert!(matches!(parser.feed(&last_frame("a")), Outcome::Decoded { finished: true, .. }));
    parser.cancel();
    assert!(parser.is_finished());
    assert!(!parser.is_cancelled());
}

#[test]
fn records_are_written_from_their_parts() {
    assert_eq!(
        complete_buffer_record("{\"a\":{}"),
        "Can't stitch, buffer already contains a complete chunk\n{\"a\":{}"
    );
    assert_eq!(
        malformed_record(StreamState::PartialChunk, "x\\ny}", "EOF at character 3"),
        "State: PartialChunk\nBroken buffer: x\\ny}\nError: EOF at character 3"
    );
    assert_eq!(
        malformed_record(StreamState::FirstChunk, "", ""),
        "State: FirstChunk\nBroken buffer: \nError: "
    );
}

#[test]
fn fatal_violation_leaves_the_state_of_a_handled_delivery() {
    let mut parser = steady();
    assert!(matches!(parser.feed(b"{\"a\":{},"), Outcome::Buffered));
    assert!(matches!(parser.feed(b"x"), Outcome::Fatal(_)));
    assert_eq!(parser.state(), StreamState::SubsequentChunk);
}
