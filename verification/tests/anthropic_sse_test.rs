use codez_llm_switch::protocol::ResponseEvent;
use codez_llm_switch::protocol::{ContentItem, ResponseItem};
use codez_llm_switch::testing::translate_anthropic_sse_for_test as run;
use serde_json::Value;

fn json(text: &str) -> Value {
    serde_json::from_str(text).unwrap()
}

fn json_lines(text: &str) -> Vec<Value> {
    text.lines().filter(|l| !l.trim().is_empty()).map(json).collect()
}

#[test]
fn text_stream_synthesizes_message_and_completed() {
    let events = vec![
        json(r#"{"type":"message_start","message":{"id":"msg_1","usage":{"input_tokens":3,"cache_read_input_tokens":7}}}"#),
        json(r#"{"type":"content_block_start","index":0,"content_block":{"type":"text"}}"#),
        json(r#"{"type":"content_block_delta","index":0,"delta":{"type":"text_delta","text":"Hel"}}"#),
        json(r#"{"type":"content_block_delta","index":0,"delta":{"type":"text_delta","text":"lo"}}"#),
        json(r#"{"type":"content_block_stop","index":0}"#),
        json(r#"{"type":"message_delta","delta":{"stop_reason":"end_turn"},"usage":{"output_tokens":2}}"#),
        json(r#"{"type":"message_stop"}"#),
    ];
    let out = run(&events, true).unwrap();

    let deltas: Vec<&String> = out
        .iter()
        .filter_map(|e| match e {
            ResponseEvent::OutputTextDelta(s) => Some(s),
            _ => None,
        })
        .collect();
    assert_eq!(deltas, vec!["Hel", "lo"]);

    let synth = out
        .iter()
        .find_map(|e| match e {
            ResponseEvent::OutputItemDone(ResponseItem::Message { role, content, .. })
                if role == "assistant" =>
            {
                Some(content)
            }
            _ => None,
        })
        .expect("synth assistant message");
    assert!(matches!(&synth[0], ContentItem::OutputText { text } if text == "Hello"));

    let (rid, usage, end) = out
        .iter()
        .find_map(|e| match e {
            ResponseEvent::Completed {
                response_id,
                token_usage,
                end_turn,
            } => Some((response_id, token_usage, end_turn)),
            _ => None,
        })
        .expect("Completed");
    assert_eq!(rid, "msg_1");
    assert_eq!(*end, Some(true));
    let u = usage.as_ref().unwrap();
    assert_eq!(u.input_tokens, 3);
    assert_eq!(u.cached_input_tokens, 7);
    assert_eq!(u.output_tokens, 2);
    assert_eq!(u.total_tokens, 5);
}

#[test]
fn tool_use_aggregates_partial_json_to_arguments_string() {
    let events = vec![
        json(r#"{"type":"message_start","message":{"id":"msg_2","usage":{"input_tokens":1}}}"#),
        json(r#"{"type":"content_block_start","index":0,"content_block":{"type":"tool_use","id":"toolu_1","name":"get_weather"}}"#),
        json(r#"{"type":"content_block_delta","index":0,"delta":{"type":"input_json_delta","partial_json":"{\"ci"}}"#),
        json(r#"{"type":"content_block_delta","index":0,"delta":{"type":"input_json_delta","partial_json":"ty\":\"SF\"}"}}"#),
        json(r#"{"type":"content_block_stop","index":0}"#),
        json(r#"{"type":"message_delta","delta":{"stop_reason":"tool_use"},"usage":{"output_tokens":5}}"#),
        json(r#"{"type":"message_stop"}"#),
    ];
    let out = run(&events, true).unwrap();

    let fc = out
        .iter()
        .find_map(|e| match e {
            ResponseEvent::OutputItemDone(ResponseItem::FunctionCall {
                name,
                arguments,
                call_id,
                ..
            }) => Some((name, arguments, call_id)),
            _ => None,
        })
        .expect("FunctionCall");
    assert_eq!(fc.0, "get_weather");
    assert_eq!(fc.1, "{\"city\":\"SF\"}");
    assert_eq!(fc.2, "toolu_1");

    let end = out
        .iter()
        .find_map(|e| match e {
            ResponseEvent::Completed { end_turn, .. } => Some(*end_turn),
            _ => None,
        })
        .unwrap();
    assert_eq!(end, Some(false));

    let has_msg = out.iter().any(|e| {
        matches!(
            e,
            ResponseEvent::OutputItemDone(ResponseItem::Message { .. })
        )
    });
    assert!(!has_msg, "pure tool-call response should not emit Message item");
}

#[test]
fn web_search_server_tool_blocks_are_ignored_text_flows_through() {
    let events = vec![
        json(r#"{"type":"message_start","message":{"id":"msg_ws","usage":{"input_tokens":10}}}"#),
        json(r#"{"type":"content_block_start","index":0,"content_block":{"type":"server_tool_use","id":"srvtoolu_1","name":"web_search","input":{}}}"#),
        json(r#"{"type":"content_block_delta","index":0,"delta":{"type":"input_json_delta","partial_json":"{\"query\":\"rust\"}"}}"#),
        json(r#"{"type":"content_block_stop","index":0}"#),
        json(r#"{"type":"content_block_start","index":1,"content_block":{"type":"web_search_tool_result","tool_use_id":"srvtoolu_1","content":[{"type":"web_search_result","url":"https://rust-lang.org","title":"Rust"}]}}"#),
        json(r#"{"type":"content_block_stop","index":1}"#),
        json(r#"{"type":"content_block_start","index":2,"content_block":{"type":"text"}}"#),
        json(r#"{"type":"content_block_delta","index":2,"delta":{"type":"text_delta","text":"Rust 是一门系统语言。"}}"#),
        json(r#"{"type":"content_block_stop","index":2}"#),
        json(r#"{"type":"message_delta","delta":{"stop_reason":"end_turn"},"usage":{"output_tokens":8}}"#),
        json(r#"{"type":"message_stop"}"#),
    ];
    let out = run(&events, true).unwrap();

    let has_fc = out.iter().any(|e| {
        matches!(
            e,
            ResponseEvent::OutputItemDone(ResponseItem::FunctionCall { .. })
        )
    });
    assert!(!has_fc, "a web search of the upstream is no call");

    let msg_text = out
        .iter()
        .find_map(|e| match e {
            ResponseEvent::OutputItemDone(ResponseItem::Message { content, .. }) => {
                content.iter().find_map(|c| match c {
                    ContentItem::OutputText { text } => Some(text.clone()),
                    _ => None,
                })
            }
            _ => None,
        })
        .expect("assistant message");
    assert_eq!(msg_text, "Rust 是一门系统语言。");
}

#[test]
fn max_tokens_stop_reason_maps_end_turn_to_none() {
    let events = vec![
        json(r#"{"type":"message_start","message":{"id":"msg_3","usage":{"input_tokens":1}}}"#),
        json(r#"{"type":"content_block_start","index":0,"content_block":{"type":"text"}}"#),
        json(r#"{"type":"content_block_delta","index":0,"delta":{"type":"text_delta","text":"truncat"}}"#),
        json(r#"{"type":"content_block_stop","index":0}"#),
        json(r#"{"type":"message_delta","delta":{"stop_reason":"max_tokens"},"usage":{"output_tokens":7}}"#),
        json(r#"{"type":"message_stop"}"#),
    ];
    let out = run(&events, true).unwrap();
    let end = out
        .iter()
        .find_map(|e| match e {
            ResponseEvent::Completed { end_turn, .. } => Some(*end_turn),
            _ => None,
        })
        .expect("Completed");
    assert_eq!(end, None);
}

#[test]
fn error_event_fails() {
    let events =
        vec![json(r#"{"type":"error","error":{"type":"overloaded_error","message":"x"}}"#)];
    assert!(run(&events, false).is_err());
}

#[test]
fn missing_response_id_synthesizes_id() {
    let events = vec![
        json(r#"{"type":"message_start","message":{"usage":{"input_tokens":1}}}"#),
        json(r#"{"type":"message_delta","delta":{"stop_reason":"end_turn"},"usage":{"output_tokens":1}}"#),
        json(r#"{"type":"message_stop"}"#),
    ];
    let out = run(&events, true).unwrap();
    let rid = out
        .iter()
        .find_map(|e| match e {
            ResponseEvent::Completed { response_id, .. } => Some(response_id.clone()),
            _ => None,
        })
        .unwrap();
    assert!(
        rid.starts_with("llmswitch-"),
        "synth id when upstream omits id: {rid}"
    );
}

#[test]
fn no_arg_tool_use_gets_empty_object() {
    let events = vec![
        json(r#"{"type":"message_start","message":{"id":"msg_3","usage":{"input_tokens":1}}}"#),
        json(r#"{"type":"content_block_start","index":0,"content_block":{"type":"tool_use","id":"toolu_2","name":"no_args_tool"}}"#),
        json(r#"{"type":"content_block_stop","index":0}"#),
        json(r#"{"type":"message_delta","delta":{"stop_reason":"tool_use"},"usage":{"output_tokens":2}}"#),
        json(r#"{"type":"message_stop"}"#),
    ];
    let out = run(&events, true).unwrap();
    let fc = out
        .iter()
        .find_map(|e| match e {
            ResponseEvent::OutputItemDone(ResponseItem::FunctionCall { arguments, .. }) => {
                Some(arguments)
            }
            _ => None,
        })
        .expect("FunctionCall");
    assert_eq!(fc, "{}");
}

#[test]
fn anthropic_sse_test_fixture_text_stream_produces_correct_events() {
    let events = json_lines(
        r#"
{"type":"message_start","message":{"id":"msg_text1","type":"message","role":"assistant","content":[],"usage":{"input_tokens":5,"output_tokens":1}}}
{"type":"content_block_start","index":0,"content_block":{"type":"text","text":""}}
{"type":"ping"}
{"type":"content_block_delta","index":0,"delta":{"type":"text_delta","text":"Hello"}}
{"type":"content_block_delta","index":0,"delta":{"type":"text_delta","text":", world"}}
{"type":"content_block_stop","index":0}
{"type":"message_delta","delta":{"stop_reason":"end_turn","stop_sequence":null},"usage":{"output_tokens":4}}
{"type":"message_stop"}
"#,
    );
    let out = run(&events, true).unwrap();

    let deltas: Vec<&String> = out
        .iter()
        .filter_map(|e| match e {
            ResponseEvent::OutputTextDelta(s) => Some(s),
            _ => None,
        })
        .collect();
    assert_eq!(deltas, vec!["Hello", ", world"]);

    let msg = out
        .iter()
        .find_map(|e| match e {
            ResponseEvent::OutputItemDone(ResponseItem::Message { role, content, .. })
                if role == "assistant" =>
            {
                Some(content)
            }
            _ => None,
        })
        .expect("assistant message");
    assert!(matches!(&msg[0], ContentItem::OutputText { text } if text == "Hello, world"));

    let rid = out
        .iter()
        .find_map(|e| match e {
            ResponseEvent::Completed { response_id, .. } => Some(response_id.as_str()),
            _ => None,
        })
        .unwrap();
    assert_eq!(rid, "msg_text1");

    let usage = out
        .iter()
        .find_map(|e| match e {
            ResponseEvent::Completed { token_usage, .. } => token_usage.as_ref(),
            _ => None,
        })
        .unwrap();
    assert_eq!(usage.input_tokens, 5);
    assert_eq!(usage.output_tokens, 4);

    let end_turn = out
        .iter()
        .find_map(|e| match e {
            ResponseEvent::Completed { end_turn, .. } => Some(*end_turn),
            _ => None,
        })
        .unwrap();
    assert_eq!(end_turn, Some(true));
}

#[test]
fn anthropic_sse_test_fixture_tool_call_stream_produces_correct_events() {
    let events = json_lines(
        r#"
{"type":"message_start","message":{"id":"msg_tool1","type":"message","role":"assistant","content":[],"usage":{"input_tokens":10,"output_tokens":1}}}
{"type":"content_block_start","index":0,"content_block":{"type":"tool_use","id":"toolu_abc","name":"get_weather","input":{}}}
{"type":"content_block_delta","index":0,"delta":{"type":"input_json_delta","partial_json":""}}
{"type":"content_block_delta","index":0,"delta":{"type":"input_json_delta","partial_json":"{\"city\":"}}
{"type":"content_block_delta","index":0,"delta":{"type":"input_json_delta","partial_json":"\"SF\"}"}}
{"type":"content_block_stop","index":0}
{"type":"message_delta","delta":{"stop_reason":"tool_use","stop_sequence":null},"usage":{"output_tokens":7}}
{"type":"message_stop"}
"#,
    );
    let out = run(&events, true).unwrap();

    let fc = out
        .iter()
        .find_map(|e| match e {
            ResponseEvent::OutputItemDone(ResponseItem::FunctionCall {
                name,
                arguments,
                call_id,
                ..
            }) => Some((name.as_str(), arguments.as_str(), call_id.as_str())),
            _ => None,
        })
        .expect("FunctionCall");
    assert_eq!(fc.0, "get_weather");
    assert_eq!(fc.1, "{\"city\":\"SF\"}");
    assert_eq!(fc.2, "toolu_abc");

    let end_turn = out
        .iter()
        .find_map(|e| match e {
            ResponseEvent::Completed { end_turn, .. } => Some(*end_turn),
            _ => None,
        })
        .unwrap();
    assert_eq!(end_turn, Some(false));
    let usage = out
        .iter()
        .find_map(|e| match e {
            ResponseEvent::Completed { token_usage, .. } => token_usage.as_ref(),
            _ => None,
        })
        .unwrap();
    assert_eq!(usage.input_tokens, 10);
    assert_eq!(usage.output_tokens, 7);
}
