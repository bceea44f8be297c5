//! Tests of the transport's decisions: framing of input bytes, and what happens to each frame.

use codecks_mcp::json::JsonValue;
use codecks_mcp::mcp::RequestKey;
use codecks_mcp::transport::{
    is_request_for, is_request_frame_for, oversized_response, Action, BlockedAction, Dispatcher,
    FrameRead, FrameReader, MAX_FRAME_BYTES, MAX_IN_FLIGHT_REQUESTS,
};
use serde_json::Value;

fn to_json(value: &Value) -> JsonValue {
    match value {
        Value::Null => JsonValue::Null,
        Value::Bool(b) => JsonValue::Bool(*b),
        Value::Number(n) => JsonValue::Number(n.to_string()),
        Value::String(s) => JsonValue::Str(s.clone()),
        Value::Array(items) => JsonValue::Array(items.iter().map(to_json).collect()),
        Value::Object(map) => JsonValue::Object(
            map.iter()
                .map(|(key, value)| (key.clone(), to_json(value)))
                .collect(),
        ),
    }
}

fn from_json(value: &JsonValue) -> Value {
    serde_json::from_str(&value.to_text()).expect("the library should write valid JSON")
}

fn message(text: &str) -> JsonValue {
    to_json(&serde_json::from_str::<Value>(text).expect("the test message should be JSON"))
}

fn tool_call(id: i64) -> JsonValue {
    message(&format!(
        r#"{{"jsonrpc": "2.0", "id": {id}, "method": "tools/call",
            "params": {{"name": "list_projects", "arguments": {{}}}}}}"#
    ))
}

fn cancellation(id: i64) -> JsonValue {
    message(&format!(
        r#"{{"jsonrpc": "2.0", "method": "notifications/cancelled",
            "params": {{"requestId": {id}, "reason": "test cancellation"}}}}"#
    ))
}

fn number_key(id: i64) -> RequestKey {
    RequestKey::Number(id.to_string())
}

/// Feeds all of `input` to the reader and collects the frames it completes.
fn frames_of(reader: &mut FrameReader, mut input: &[u8]) -> Vec<FrameRead> {
    let mut frames = Vec::new();
    while !input.is_empty() {
        let (consumed, frame) = reader.accept(input);
        assert!(consumed > 0 && consumed <= input.len());
        frames.extend(frame);
        input = &input[consumed..];
    }
    frames
}

#[test]
fn input_is_split_into_newline_terminated_frames() {
    let mut reader = FrameReader::new();

    let frames = frames_of(&mut reader, b"{\"a\":1}\n\n{\"b\"");
    let last = frames_of(&mut reader, b":2}\n");

    assert!(matches!(&frames[..], [FrameRead::Message(a), FrameRead::Message(b)]
        if a.as_slice() == b"{\"a\":1}" && b.is_empty()));
    assert!(matches!(&last[..], [FrameRead::Message(c)] if c.as_slice() == b"{\"b\":2}"));
    assert!(matches!(reader.finish(), FrameRead::EndOfFile));
}

#[test]
fn an_unterminated_last_line_is_a_frame_at_the_end_of_input() {
    let mut reader = FrameReader::new();

    assert!(frames_of(&mut reader, b"partial").is_empty());

    assert!(matches!(reader.finish(), FrameRead::Message(m) if m.as_slice() == b"partial"));
    assert!(matches!(reader.finish(), FrameRead::EndOfFile));
}

#[test]
fn oversized_frames_fail_safely_and_do_not_stop_later_requests() {
    let mut reader = FrameReader::new();
    let mut input = vec![b' '; MAX_FRAME_BYTES + 1];
    input.push(b'\n');
    input.extend_from_slice(b"{\"id\":2}\n");

    let frames = frames_of(&mut reader, &input);

    assert_eq!(frames.len(), 2);
    assert!(matches!(frames[0], FrameRead::Oversized));
    assert!(matches!(&frames[1], FrameRead::Message(m) if m.as_slice() == b"{\"id\":2}"));
    assert_eq!(
        from_json(&oversized_response()),
        serde_json::from_str::<Value>(
            r#"{"jsonrpc": "2.0", "id": null, "error": {
                "code": -32600,
                "message": "The MCP message exceeds the one mebibyte frame limit."
            }}"#
        )
        .unwrap()
    );
}

#[test]
fn a_frame_of_exactly_the_limit_is_kept() {
    let mut reader = FrameReader::new();
    let mut input = vec![b'x'; MAX_FRAME_BYTES];
    input.push(b'\n');

    let frames = frames_of(&mut reader, &input);

    assert!(matches!(&frames[..], [FrameRead::Message(m)] if m.len() == MAX_FRAME_BYTES));
    assert_eq!(frames[0].stored_bytes(), MAX_FRAME_BYTES);
    assert_eq!(frames[0].backlog_bytes(), MAX_FRAME_BYTES as u32);
}

#[test]
fn frames_without_bytes_still_take_backlog_room() {
    assert_eq!(FrameRead::Oversized.stored_bytes(), 0);
    assert_eq!(FrameRead::Oversized.backlog_bytes(), 1);
    assert_eq!(FrameRead::Message(Vec::new()).backlog_bytes(), 1);
    assert_eq!(FrameRead::Message(vec![1, 2, 3]).backlog_bytes(), 3);
}

#[test]
fn an_oversized_line_split_over_many_reads_is_dropped() {
    let mut reader = FrameReader::new();
    let chunk = vec![b'y'; 4096];
    let mut frames = Vec::new();
    for _ in 0..(MAX_FRAME_BYTES / chunk.len() + 1) {
        frames.extend(frames_of(&mut reader, &chunk));
    }
    assert!(frames.is_empty());
    frames.extend(frames_of(&mut reader, b"\nnext\n"));

    assert!(matches!(&frames[..], [FrameRead::Oversized, FrameRead::Message(m)]
        if m.as_slice() == b"next"));
}

#[test]
fn frames_that_are_not_json_get_a_parse_error() {
    let mut dispatcher = Dispatcher::new();

    match dispatcher.on_message(None) {
        Action::Respond(response) => assert_eq!(
            from_json(&response),
            serde_json::from_str::<Value>(
                r#"{"jsonrpc": "2.0", "id": null, "error": {"code": -32700, "message": "Parse error."}}"#
            )
            .unwrap()
        ),
        other => panic!("a parse error was expected, not {other:?}"),
    }
}

#[test]
fn tool_calls_run_as_tasks_and_other_messages_inline() {
    let mut dispatcher = Dispatcher::new();

    assert!(matches!(
        dispatcher.on_message(Some(&message(r#"{"jsonrpc": "2.0", "id": 1, "method": "ping"}"#))),
        Action::Inline
    ));
    assert!(matches!(
        dispatcher.on_message(Some(&message(r#"{"jsonrpc": "2.0", "id": null, "method": "tools/call"}"#))),
        Action::Inline
    ));
    match dispatcher.on_message(Some(&tool_call(7))) {
        Action::Spawn { key, token, replaces } => {
            assert_eq!(key, number_key(7));
            assert_eq!(token, 1);
            assert!(!replaces);
        }
        other => panic!("a spawned call was expected, not {other:?}"),
    }
}

#[test]
fn cancellation_aborts_a_stalled_tool_call_without_emitting_its_response() {
    let mut dispatcher = Dispatcher::new();
    let token = match dispatcher.on_message(Some(&tool_call(1))) {
        Action::Spawn { token, .. } => token,
        other => panic!("a spawned call was expected, not {other:?}"),
    };

    assert!(matches!(
        dispatcher.on_message(Some(&cancellation(1))),
        Action::Abort(key) if key == number_key(1)
    ));
    assert!(!dispatcher.complete(&number_key(1), token));
    assert!(matches!(
        dispatcher.on_message(Some(&cancellation(1))),
        Action::Ignore
    ));
}

#[test]
fn a_completed_call_is_taken_in_once() {
    let mut dispatcher = Dispatcher::new();
    let token = match dispatcher.on_message(Some(&tool_call(3))) {
        Action::Spawn { token, .. } => token,
        other => panic!("a spawned call was expected, not {other:?}"),
    };

    assert!(dispatcher.complete(&number_key(3), token));
    assert!(!dispatcher.complete(&number_key(3), token));
}

#[test]
fn a_reused_id_replaces_the_running_call_and_its_stale_completion_is_ignored() {
    let mut dispatcher = Dispatcher::new();
    let first = match dispatcher.on_message(Some(&tool_call(5))) {
        Action::Spawn { token, .. } => token,
        other => panic!("a spawned call was expected, not {other:?}"),
    };
    let second = match dispatcher.on_message(Some(&tool_call(5))) {
        Action::Spawn { token, replaces, .. } => {
            assert!(replaces);
            token
        }
        other => panic!("a spawned call was expected, not {other:?}"),
    };

    assert_ne!(first, second);
    assert!(!dispatcher.complete(&number_key(5), first));
    assert!(dispatcher.complete(&number_key(5), second));
}

#[test]
fn caps_concurrent_tool_calls_and_rejects_excess_work() {
    let mut dispatcher = Dispatcher::new();
    for id in 1..=MAX_IN_FLIGHT_REQUESTS as i64 {
        assert!(matches!(
            dispatcher.on_message(Some(&tool_call(id))),
            Action::Spawn { .. }
        ));
    }

    let excess = MAX_IN_FLIGHT_REQUESTS as i64 + 1;
    match dispatcher.on_message(Some(&tool_call(excess))) {
        Action::Respond(response) => {
            let response = from_json(&response);
            assert_eq!(response["id"], excess);
            assert_eq!(response["error"]["code"], -32000);
            assert_eq!(
                response["error"]["message"],
                "Too many tool requests are already in flight."
            );
        }
        other => panic!("the excess call should be rejected, not {other:?}"),
    }

    assert!(matches!(
        dispatcher.on_message(Some(&tool_call(1))),
        Action::Spawn { replaces: true, .. }
    ));
}

#[test]
fn reaps_completed_tool_calls_before_accepting_more_ready_input() {
    let mut dispatcher = Dispatcher::new();
    let mut tokens = Vec::new();
    for id in 1..=MAX_IN_FLIGHT_REQUESTS as i64 {
        match dispatcher.on_message(Some(&tool_call(id))) {
            Action::Spawn { key, token, .. } => tokens.push((key, token)),
            other => panic!("a spawned call was expected, not {other:?}"),
        }
    }
    for (key, token) in &tokens {
        assert!(dispatcher.complete(key, *token));
    }

    let last = MAX_IN_FLIGHT_REQUESTS as i64 + 1;
    assert!(matches!(
        dispatcher.on_message(Some(&tool_call(last))),
        Action::Spawn { replaces: false, .. }
    ));
}

#[test]
fn cancellation_is_processed_while_response_output_is_backpressured() {
    let mut dispatcher = Dispatcher::new();
    let _ = dispatcher.on_message(Some(&tool_call(1)));

    assert!(matches!(
        dispatcher.on_blocked_input(Some(&cancellation(1))),
        BlockedAction::Abort(key) if key == number_key(1)
    ));
    assert!(matches!(
        dispatcher.on_blocked_input(Some(&cancellation(2))),
        BlockedAction::DropDeferred(key) if key == number_key(2)
    ));
    assert!(matches!(
        dispatcher.on_blocked_input(Some(&tool_call(3))),
        BlockedAction::Defer
    ));
    assert!(matches!(dispatcher.on_blocked_input(None), BlockedAction::Defer));
    assert!(is_request_for(Some(&tool_call(2)), &number_key(2)));
    assert!(!is_request_for(Some(&tool_call(2)), &number_key(3)));
    assert!(!is_request_for(None, &number_key(2)));
}

#[test]
fn string_and_number_ids_are_different_keys() {
    let mut dispatcher = Dispatcher::new();
    let string_call = message(
        r#"{"jsonrpc": "2.0", "id": "1", "method": "tools/call", "params": {"name": "list_projects"}}"#,
    );

    assert!(matches!(
        dispatcher.on_message(Some(&string_call)),
        Action::Spawn { replaces: false, ref key, .. } if *key == RequestKey::String("1".to_owned())
    ));
    assert!(matches!(
        dispatcher.on_message(Some(&tool_call(1))),
        Action::Spawn { replaces: false, .. }
    ));
}

#[test]
fn a_whole_input_yields_its_lines_in_order() {
    let mut reader = FrameReader::new();

    let mut frames = frames_of(&mut reader, b"ab\n\ncd");
    frames.push(reader.finish());
    frames.push(reader.finish());

    assert!(matches!(&frames[..], [
        FrameRead::Message(a),
        FrameRead::Message(b),
        FrameRead::Message(c),
        FrameRead::EndOfFile,
    ] if a.as_slice() == b"ab" && b.is_empty() && c.as_slice() == b"cd"));
}

#[test]
fn frames_are_the_same_whatever_pieces_the_input_comes_in() {
    let input = b"{\"a\":1}\n\nxy\n tail";
    for piece in 1..=input.len() {
        let mut reader = FrameReader::new();
        let mut frames = Vec::new();
        for chunk in input.chunks(piece) {
            frames.extend(frames_of(&mut reader, chunk));
        }
        frames.push(reader.finish());
        assert!(matches!(&frames[..], [
            FrameRead::Message(a),
            FrameRead::Message(b),
            FrameRead::Message(c),
            FrameRead::Message(d),
        ] if a.as_slice() == b"{\"a\":1}" && b.is_empty() && c.as_slice() == b"xy"
            && d.as_slice() == b" tail"));
    }
}

#[test]
fn a_frame_that_is_not_json_gets_a_parse_error() {
    let mut dispatcher = Dispatcher::new();

    for frame in [&b"{not json"[..], b"", b"\xff\xfe", b"{\"a\":1} trailing"] {
        let (action, message) = dispatcher.on_frame(frame);
        assert!(message.is_none());
        match action {
            Action::Respond(response) => {
                let response = from_json(&response);
                assert_eq!(response["id"], Value::Null);
                assert_eq!(response["error"]["code"], -32700);
                assert_eq!(response["error"]["message"], "Parse error.");
            }
            other => panic!("a parse error was expected, not {other:?}"),
        }
    }
}

#[test]
fn a_frame_is_decoded_before_it_is_decided() {
    let mut dispatcher = Dispatcher::new();

    let (action, message) = dispatcher.on_frame(
        br#"{"jsonrpc": "2.0", "id": 4, "method": "tools/call", "params": {"name": "list_projects"}}"#,
    );
    assert!(matches!(action, Action::Spawn { ref key, replaces: false, .. } if *key == number_key(4)));
    let message = from_json(&message.expect("the frame holds a message"));
    assert_eq!(message["params"]["name"], "list_projects");

    let (action, message) = dispatcher.on_frame(br#"{"jsonrpc": "2.0", "id": 5, "method": "ping"}"#);
    assert!(matches!(action, Action::Inline));
    assert_eq!(from_json(&message.unwrap())["method"], "ping");
}

#[test]
fn blocked_frames_are_decoded_before_they_are_decided() {
    let mut dispatcher = Dispatcher::new();
    let _ = dispatcher.on_frame(
        br#"{"jsonrpc": "2.0", "id": 1, "method": "tools/call", "params": {"name": "list_projects"}}"#,
    );
    let cancel = |id: i64| {
        FrameRead::Message(
            format!(
                r#"{{"jsonrpc": "2.0", "method": "notifications/cancelled", "params": {{"requestId": {id}}}}}"#
            )
            .into_bytes(),
        )
    };

    assert!(matches!(
        dispatcher.on_blocked_frame(&cancel(1)),
        BlockedAction::Abort(key) if key == number_key(1)
    ));
    assert!(matches!(
        dispatcher.on_blocked_frame(&cancel(2)),
        BlockedAction::DropDeferred(key) if key == number_key(2)
    ));
    assert!(matches!(
        dispatcher.on_blocked_frame(&FrameRead::Message(b"not json".to_vec())),
        BlockedAction::Defer
    ));
    assert!(matches!(
        dispatcher.on_blocked_frame(&FrameRead::Oversized),
        BlockedAction::Defer
    ));

    let held = FrameRead::Message(
        br#"{"jsonrpc": "2.0", "id": 2, "method": "tools/call"}"#.to_vec(),
    );
    assert!(is_request_frame_for(&held, &number_key(2)));
    assert!(!is_request_frame_for(&held, &number_key(3)));
    assert!(!is_request_frame_for(&FrameRead::Oversized, &number_key(2)));
}
