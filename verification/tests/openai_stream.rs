use molo::provider::openai::lines::{step_stream, LineStep, ReadEvent, SseLines};
use molo::provider::openai::stream::{
    parse_sse_line, ToolCallAggregator, MAX_ACCUMULATED_TEXT, MAX_SSE_LINE, MAX_TOOL_CALLS,
};
use molo::provider::{FinishReason, ProviderError, StreamEvent, TimeoutStage, Usage};
use molo::time::Moment;

fn parse_events(line: &str, aggregator: &mut ToolCallAggregator) -> Vec<StreamEvent> {
    parse_sse_line(line, aggregator)
        .into_iter()
        .map(|event| event.expect("test input must not produce an error"))
        .collect()
}

fn done(reason: FinishReason, usage: Option<Usage>) -> Vec<Result<StreamEvent, ProviderError>> {
    vec![Ok(StreamEvent::Done { reason, usage })]
}

#[test]
fn stream_parses_delta() {
    let line = r#"data: {"choices":[{"delta":{"content":"hi"},"finish_reason":null}]}"#;
    assert_eq!(
        parse_events(line, &mut ToolCallAggregator::default()),
        vec![StreamEvent::Delta("hi".to_string())]
    );
}

#[test]
fn stream_parses_finish_reason() {
    let line = r#"data: {"choices":[{"delta":{},"finish_reason":"stop"}]}"#;
    let mut aggregator = ToolCallAggregator::default();
    assert!(parse_events(line, &mut aggregator).is_empty());
    assert_eq!(aggregator.flush_done(), done(FinishReason::Stop, None));
}

#[test]
fn stream_maps_length_finish_reason() {
    let line = r#"data: {"choices":[{"delta":{},"finish_reason":"length"}]}"#;
    let mut aggregator = ToolCallAggregator::default();
    assert!(parse_events(line, &mut aggregator).is_empty());
    assert_eq!(aggregator.flush_done(), done(FinishReason::Length, None));
}

#[test]
fn stream_maps_tool_calls_finish_reason() {
    let line = r#"data: {"choices":[{"delta":{},"finish_reason":"tool_calls"}]}"#;
    let mut aggregator = ToolCallAggregator::default();
    assert!(parse_events(line, &mut aggregator).is_empty());
    assert_eq!(aggregator.flush_done(), done(FinishReason::Stop, None));
}

#[test]
fn stream_parses_usage_only_tail_chunk() {
    let mut aggregator = ToolCallAggregator::default();
    let done_line = r#"data: {"choices":[{"delta":{"content":"ok"},"finish_reason":"stop"}]}"#;
    let usage_line = r#"data: {"choices":[],"usage":{"prompt_tokens":5,"completion_tokens":3,"total_tokens":8}}"#;

    assert_eq!(
        parse_events(done_line, &mut aggregator),
        vec![StreamEvent::Delta("ok".to_string())]
    );
    assert!(parse_events(usage_line, &mut aggregator).is_empty());
    assert_eq!(
        aggregator.flush_done(),
        done(FinishReason::Stop, Some(Usage::new(5, 3)))
    );
}

#[test]
fn stream_parses_usage_in_finish_chunk() {
    let line = r#"data: {"choices":[{"delta":{},"finish_reason":"stop"}],"usage":{"prompt_tokens":5,"completion_tokens":3,"total_tokens":8}}"#;
    let mut aggregator = ToolCallAggregator::default();
    assert!(parse_events(line, &mut aggregator).is_empty());
    assert_eq!(
        aggregator.flush_done(),
        done(FinishReason::Stop, Some(Usage::new(5, 3)))
    );
}

#[test]
fn stream_skips_irrelevant_lines() {
    let mut aggregator = ToolCallAggregator::default();
    assert!(parse_sse_line("", &mut aggregator).is_empty());
    assert!(parse_sse_line(": keep-alive", &mut aggregator).is_empty());
    assert!(parse_sse_line("event: message", &mut aggregator).is_empty());
    let events = parse_sse_line("data: [DONE]", &mut aggregator);
    assert_eq!(events.len(), 1);
    assert!(matches!(
        events[0],
        Err(ProviderError::Api { status: 0, .. })
    ));
    assert!(parse_sse_line(r#"data: {"choices":[]}"#, &mut aggregator).is_empty());
    assert!(parse_sse_line(
        r#"data: {"choices":[{"delta":{"role":"assistant"},"finish_reason":null}]}"#,
        &mut aggregator
    )
    .is_empty());
}

#[test]
fn stream_rejects_invalid_json() {
    let line = "data: not-json";
    let events = parse_sse_line(line, &mut ToolCallAggregator::default());
    match events.as_slice() {
        [Err(ProviderError::Api { status: 0, message })] => {
            assert_eq!(message, "invalid stream event: not-json")
        }
        _ => panic!("expected single api error, got {events:?}"),
    }
}

#[test]
fn stream_extracts_provider_error() {
    let line = r#"data: {"error":{"message":"rate limited"}}"#;
    let events = parse_sse_line(line, &mut ToolCallAggregator::default());
    let err = events.into_iter().next().unwrap().unwrap_err();
    assert!(err.message().contains("rate limited"));
}

#[test]
fn stream_forwards_reasoning_chunks() {
    let mut aggregator = ToolCallAggregator::default();
    let line1 =
        r#"data: {"choices":[{"delta":{"reasoning_content":"first"},"finish_reason":null}]}"#;
    let line2 =
        r#"data: {"choices":[{"delta":{"reasoning_content":" multiply"},"finish_reason":null}]}"#;
    let line3 = r#"data: {"choices":[{"delta":{"content":"answer"},"finish_reason":"stop"}]}"#;

    assert_eq!(
        parse_events(line1, &mut aggregator),
        vec![StreamEvent::Reasoning("first".to_string())]
    );
    assert_eq!(
        parse_events(line2, &mut aggregator),
        vec![StreamEvent::Reasoning(" multiply".to_string())]
    );
    assert_eq!(
        parse_events(line3, &mut aggregator),
        vec![StreamEvent::Delta("answer".to_string())]
    );
    assert_eq!(aggregator.flush_done(), done(FinishReason::Stop, None));
}

#[test]
fn stream_reasoning_with_tool_call() {
    let mut aggregator = ToolCallAggregator::default();
    let line1 = r#"data: {"choices":[{"delta":{"reasoning_content":"all"},"finish_reason":null}]}"#;
    let line2 =
        r#"data: {"choices":[{"delta":{"reasoning_content":" set"},"finish_reason":null}]}"#;
    let line3 = r#"data: {"choices":[{"delta":{"tool_calls":[{"index":0,"id":"call_1","function":{"name":"calculator","arguments":"{}"}}]},"finish_reason":"tool_calls"}]}"#;

    assert_eq!(
        parse_events(line1, &mut aggregator),
        vec![StreamEvent::Reasoning("all".to_string())]
    );
    assert_eq!(
        parse_events(line2, &mut aggregator),
        vec![StreamEvent::Reasoning(" set".to_string())]
    );
    assert_eq!(
        parse_events(line3, &mut aggregator),
        vec![StreamEvent::ToolCall {
            id: "call_1".to_string(),
            name: "calculator".to_string(),
            arguments: "{}".to_string(),
        },]
    );
    assert_eq!(aggregator.flush_done(), done(FinishReason::Stop, None));
}

#[test]
fn stream_aggregates_tool_call_chunks() {
    let mut aggregator = ToolCallAggregator::default();
    let line1 = r#"data: {"choices":[{"delta":{"tool_calls":[{"index":0,"id":"call_1","type":"function","function":{"name":"calculator","arguments":"{\"expression\": \""}}]},"finish_reason":null}]}"#;
    let line2 = r#"data: {"choices":[{"delta":{"tool_calls":[{"index":0,"function":{"arguments":"1+1"}}]},"finish_reason":null}]}"#;
    let line3 = r#"data: {"choices":[{"delta":{"tool_calls":[{"index":0,"function":{"arguments":"\"}"}}]},"finish_reason":"tool_calls"}]}"#;

    assert!(parse_events(line1, &mut aggregator).is_empty());
    assert!(parse_events(line2, &mut aggregator).is_empty());
    assert_eq!(
        parse_events(line3, &mut aggregator),
        vec![StreamEvent::ToolCall {
            id: "call_1".to_string(),
            name: "calculator".to_string(),
            arguments: "{\"expression\": \"1+1\"}".to_string(),
        },]
    );
    assert_eq!(aggregator.flush_done(), done(FinishReason::Stop, None));
}

#[test]
fn stream_handles_multiple_interleaved_tool_calls() {
    let mut aggregator = ToolCallAggregator::default();
    let line1 = r#"data: {"choices":[{"delta":{"tool_calls":[{"index":0,"id":"call_1","function":{"name":"now","arguments":"{}"}},{"index":1,"id":"call_2","function":{"name":"calculator","arguments":"{\"exp"}}]},"finish_reason":null}]}"#;
    let line2 = r#"data: {"choices":[{"delta":{"tool_calls":[{"index":1,"function":{"arguments":"ression\":\"1\"}"}}]},"finish_reason":"tool_calls"}]}"#;

    assert!(parse_events(line1, &mut aggregator).is_empty());
    assert_eq!(
        parse_events(line2, &mut aggregator),
        vec![
            StreamEvent::ToolCall {
                id: "call_1".to_string(),
                name: "now".to_string(),
                arguments: "{}".to_string(),
            },
            StreamEvent::ToolCall {
                id: "call_2".to_string(),
                name: "calculator".to_string(),
                arguments: "{\"expression\":\"1\"}".to_string(),
            },
        ]
    );
    assert_eq!(aggregator.flush_done(), done(FinishReason::Stop, None));
}

#[test]
fn stream_keeps_delta_and_tool_call_order() {
    let mut aggregator = ToolCallAggregator::default();
    let line1 =
        r#"data: {"choices":[{"delta":{"content":"let me compute"},"finish_reason":null}]}"#;
    let line2 = r#"data: {"choices":[{"delta":{"tool_calls":[{"index":0,"id":"call_1","function":{"name":"calculator","arguments":"{}"}}]},"finish_reason":"tool_calls"}]}"#;

    assert_eq!(
        parse_events(line1, &mut aggregator),
        vec![StreamEvent::Delta("let me compute".to_string())]
    );
    assert_eq!(
        parse_events(line2, &mut aggregator),
        vec![StreamEvent::ToolCall {
            id: "call_1".to_string(),
            name: "calculator".to_string(),
            arguments: "{}".to_string(),
        },]
    );
    assert_eq!(aggregator.flush_done(), done(FinishReason::Stop, None));
}

#[test]
fn bad_line_discards_pending_done() {
    let mut aggregator = ToolCallAggregator::default();
    let finish = r#"data: {"choices":[{"delta":{},"finish_reason":"stop"}]}"#;
    assert!(parse_sse_line(finish, &mut aggregator).is_empty());

    let bad = "data: not-json";
    let events = parse_sse_line(bad, &mut aggregator);
    assert_eq!(events.len(), 1);
    assert!(matches!(
        events[0],
        Err(ProviderError::Api { status: 0, .. })
    ));
    assert!(parse_sse_line("data: [DONE]", &mut aggregator).is_empty());
}

#[test]
fn tool_call_count_limit_only_for_new_calls() {
    let mut aggregator = ToolCallAggregator::default();
    for i in 0..MAX_TOOL_CALLS {
        let line = format!(
            r#"data: {{"choices":[{{"delta":{{"tool_calls":[{{"index":{i},"id":"c{i}","function":{{"name":"f","arguments":"{{}}"}}}}]}},"finish_reason":null}}]}}"#
        );
        assert!(
            parse_sse_line(&line, &mut aggregator).is_empty(),
            "tool call {i} must be accepted"
        );
    }
    let over = r#"data: {"choices":[{"delta":{"tool_calls":[{"index":64,"id":"c64","function":{"name":"f","arguments":"{}"}}]},"finish_reason":null}]}"#;
    let events = parse_sse_line(over, &mut aggregator);
    assert_eq!(events.len(), 1);
    assert!(matches!(
        events[0],
        Err(ProviderError::Api { status: 0, .. })
    ));
    let cont = r#"data: {"choices":[{"delta":{"tool_calls":[{"index":0,"function":{"arguments":"{\"more\":true}"}}]},"finish_reason":null}]}"#;
    assert!(parse_sse_line(cont, &mut aggregator).is_empty());
}

#[test]
fn tool_arguments_size_limit() {
    let mut aggregator = ToolCallAggregator::default();
    let huge = "x".repeat(MAX_ACCUMULATED_TEXT + 1);
    let line = format!(
        r#"data: {{"choices":[{{"delta":{{"tool_calls":[{{"index":0,"id":"c0","function":{{"name":"f","arguments":"{huge}"}}}}]}},"finish_reason":null}}]}}"#
    );
    let events = parse_sse_line(&line, &mut aggregator);
    assert_eq!(events.len(), 1);
    assert!(matches!(
        events[0],
        Err(ProviderError::Api { status: 0, .. })
    ));
}

#[test]
fn tool_arguments_continuation_size_limit() {
    let mut aggregator = ToolCallAggregator::default();
    let first = "x".repeat(MAX_ACCUMULATED_TEXT - 1);
    let line1 = format!(
        r#"data: {{"choices":[{{"delta":{{"tool_calls":[{{"index":0,"id":"c0","function":{{"name":"f","arguments":"{first}"}}}}]}},"finish_reason":null}}]}}"#
    );
    assert!(parse_sse_line(&line1, &mut aggregator).is_empty());
    let cont = r#"data: {"choices":[{"delta":{"tool_calls":[{"index":0,"function":{"arguments":"yy"}}]},"finish_reason":null}]}"#;
    let events = parse_sse_line(cont, &mut aggregator);
    assert_eq!(events.len(), 1);
    assert!(matches!(
        events[0],
        Err(ProviderError::Api { status: 0, .. })
    ));
}

#[test]
fn errored_latch_blocks_resurrected_done() {
    let mut aggregator = ToolCallAggregator::default();
    let events = parse_sse_line("data: not-json", &mut aggregator);
    assert_eq!(events.len(), 1);
    assert!(matches!(
        events[0],
        Err(ProviderError::Api { status: 0, .. })
    ));
    let finish = r#"data: {"choices":[{"delta":{},"finish_reason":"stop"}]}"#;
    assert!(parse_sse_line(finish, &mut aggregator).is_empty());
    assert!(parse_sse_line("data: [DONE]", &mut aggregator).is_empty());
}

const START: Moment = Moment { nanos: 0 };
const DEADLINE: Moment = Moment { nanos: 1_000 };

/// Reads lines until the stream is over, at a time before the deadline.
fn lines_of(events: Vec<ReadEvent>) -> Vec<Result<String, ProviderError>> {
    let mut lines = SseLines::new();
    let mut events = events.into_iter();
    let mut out = vec![];
    loop {
        let step = match lines.poll(START, DEADLINE) {
            LineStep::Read => lines.feed(events.next().unwrap_or(ReadEvent::Closed)),
            step => step,
        };
        match step {
            LineStep::Line(line) => out.push(Ok(line)),
            LineStep::Fail(e) => out.push(Err(e)),
            LineStep::End => return out,
            LineStep::Read => {}
        }
    }
}

/// The events of a whole stream, as its reader sees them.
fn events_of(chunks: Vec<&[u8]>) -> Vec<Result<StreamEvent, ProviderError>> {
    let mut aggregator = ToolCallAggregator::default();
    let mut out = vec![];
    let reads = chunks
        .into_iter()
        .map(|c| ReadEvent::Bytes(c.to_vec()))
        .collect();
    for item in lines_of(reads) {
        out.extend(step_stream(item, &mut aggregator));
    }
    if !aggregator.is_finished() {
        out.extend(aggregator.flush_done());
    }
    out
}

#[test]
fn sse_lines_joins_chunks_and_strips_terminators() {
    let lines = lines_of(vec![
        ReadEvent::Bytes(b"data: a\r".to_vec()),
        ReadEvent::Bytes(b"\ndata: b\ndata: c".to_vec()),
    ]);
    assert_eq!(
        lines,
        vec![
            Ok("data: a".to_string()),
            Ok("data: b".to_string()),
            Ok("data: c".to_string())
        ]
    );
}

#[test]
fn sse_lines_emits_tail_without_newline() {
    let lines = lines_of(vec![ReadEvent::Bytes(b"data: x".to_vec())]);
    assert_eq!(lines, vec![Ok("data: x".to_string())]);
}

#[test]
fn sse_lines_idle_timeout_emits_timeout() {
    let lines = lines_of(vec![ReadEvent::Idle]);
    assert_eq!(
        lines,
        vec![Err(ProviderError::Timeout(TimeoutStage::Idle))]
    );
}

#[test]
fn sse_lines_total_deadline_kills_keepalive_stream() {
    let mut lines = SseLines::new();
    assert_eq!(lines.poll(START, DEADLINE), LineStep::Read);
    lines.feed(ReadEvent::Bytes(b": keep-alive\n: keep-alive\n".to_vec()));
    let late = Moment { nanos: 1_000 };
    assert_eq!(
        lines.poll(late, DEADLINE),
        LineStep::Line(": keep-alive".to_string())
    );
    assert_eq!(
        lines.poll(late, DEADLINE),
        LineStep::Line(": keep-alive".to_string())
    );
    assert_eq!(
        lines.poll(late, DEADLINE),
        LineStep::Fail(ProviderError::Timeout(TimeoutStage::StreamTotal))
    );
    assert_eq!(lines.poll(late, DEADLINE), LineStep::End);
}

#[test]
fn sse_lines_keepalive_lines_delivered_within_deadline() {
    let lines = lines_of(vec![ReadEvent::Bytes(b": keep-alive\n".to_vec())]);
    assert_eq!(lines, vec![Ok(": keep-alive".to_string())]);
}

#[test]
fn sse_lines_over_limit_terminates_stream() {
    let lines = lines_of(vec![ReadEvent::Bytes(vec![b'x'; MAX_SSE_LINE + 1])]);
    assert_eq!(lines.len(), 1);
    assert!(matches!(
        lines[0],
        Err(ProviderError::Api { status: 0, .. })
    ));
}

#[test]
fn short_lines_are_not_limited_by_their_chunk() {
    let line = "x".repeat(100_000);
    let text = format!("{line}\r\n").repeat(20).into_bytes();
    assert!(text.len() > MAX_SSE_LINE);
    let mut tail = text.clone();
    tail.extend_from_slice(b"rest");
    let expected = |rest: Option<&str>| -> Vec<Result<String, ProviderError>> {
        let mut lines: Vec<Result<String, ProviderError>> =
            (0..20).map(|_| Ok(line.clone())).collect();
        lines.extend(rest.map(|r| Ok(r.to_string())));
        lines
    };
    let chunked = |bytes: &[u8], size: usize| {
        lines_of(
            bytes
                .chunks(size)
                .map(|c| ReadEvent::Bytes(c.to_vec()))
                .collect(),
        )
    };
    assert_eq!(chunked(&text, text.len()), expected(None));
    assert_eq!(chunked(&text, 65_536), expected(None));
    assert_eq!(chunked(&tail, tail.len()), expected(Some("rest")));
    assert_eq!(chunked(&tail, 99_999), expected(Some("rest")));
}

#[test]
fn line_without_end_is_limited_across_chunks() {
    let full = || ReadEvent::Bytes(vec![b'x'; MAX_SSE_LINE]);
    let ended = lines_of(vec![full(), ReadEvent::Bytes(b"\n".to_vec())]);
    assert_eq!(ended, vec![Ok("x".repeat(MAX_SSE_LINE))]);

    let too_long = lines_of(vec![full(), ReadEvent::Bytes(b"x".to_vec())]);
    assert_eq!(
        too_long,
        vec![Err(ProviderError::Api {
            status: 0,
            message: "stream line exceeds size limit (1048576 bytes)".into()
        })]
    );

    let mut after_a_line = b"a\n".to_vec();
    after_a_line.extend(vec![b'x'; MAX_SSE_LINE + 1]);
    let failed = lines_of(vec![ReadEvent::Bytes(after_a_line)]);
    assert_eq!(failed.len(), 1);
    assert!(failed[0].is_err());
}

#[test]
fn finished_line_is_limited_too() {
    let mut longest = vec![b'x'; MAX_SSE_LINE];
    longest.extend_from_slice(b"\nnext\n");
    assert_eq!(
        lines_of(vec![ReadEvent::Bytes(longest)]),
        vec![Ok("x".repeat(MAX_SSE_LINE)), Ok("next".to_string())]
    );

    let mut too_long = b"first\n".to_vec();
    too_long.extend(vec![b'x'; MAX_SSE_LINE + 1]);
    too_long.extend_from_slice(b"\nnext\n");
    let failed = lines_of(vec![ReadEvent::Bytes(too_long)]);
    assert_eq!(
        failed,
        vec![Err(ProviderError::Api {
            status: 0,
            message: "stream line exceeds size limit (1048576 bytes)".into()
        })]
    );
}

#[test]
fn sse_lines_replace_broken_utf8() {
    let lines = lines_of(vec![ReadEvent::Bytes(b"a\xffb\n".to_vec())]);
    assert_eq!(lines, vec![Ok("a\u{fffd}b".to_string())]);
}

#[test]
fn chunk_boundaries_do_not_matter() {
    let text: &[u8] = b"data: {\"choices\":[{\"delta\":{\"content\":\"hi\"},\"finish_reason\":\"stop\"}]}\ndata: [DONE]\n";
    let whole = events_of(vec![text]);
    assert_eq!(whole.len(), 2);
    assert_eq!(events_of(text.chunks(1).collect()), whole);
    assert_eq!(events_of(text.chunks(7).collect()), whole);
}

#[test]
fn sse_stream_eof_flushes_pending_done() {
    let events = events_of(vec![
        b"data: {\"choices\":[{\"delta\":{},\"finish_reason\":\"stop\"}]}\n",
        b"data: {\"usage\":{\"prompt_tokens\":1,\"completion_tokens\":2,\"total_tokens\":3}}\n",
    ]);
    assert_eq!(
        events,
        done(FinishReason::Stop, Some(Usage::new(1, 2)))
    );
}

#[test]
fn sse_stream_done_marker_flushes() {
    let events = events_of(vec![
        b"data: {\"choices\":[{\"delta\":{},\"finish_reason\":\"stop\"}]}\n",
        b"data: [DONE]\n",
    ]);
    assert_eq!(events, done(FinishReason::Stop, None));
}

#[test]
fn sse_stream_error_then_no_done() {
    let events = events_of(vec![
        b"data: {\"choices\":[{\"delta\":{},\"finish_reason\":\"stop\"}]}",
        b"data: not-json",
        b"data: [DONE]",
    ]);
    assert_eq!(events.len(), 1);
    assert!(matches!(
        events[0],
        Err(ProviderError::Api { status: 0, .. })
    ));
}

#[test]
fn transport_failure_ends_the_stream_without_done() {
    let mut aggregator = ToolCallAggregator::default();
    let finish = r#"data: {"choices":[{"delta":{},"finish_reason":"stop"}]}"#;
    assert!(step_stream(Ok(finish.to_string()), &mut aggregator).is_empty());
    let events = step_stream(
        Err(ProviderError::Network("reset".into())),
        &mut aggregator,
    );
    assert_eq!(events, vec![Err(ProviderError::Network("reset".into()))]);
    assert!(aggregator.flush_done().is_empty());
}
