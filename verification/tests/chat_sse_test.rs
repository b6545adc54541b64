use codez_llm_switch::testing::translate_chat_sse_for_test as run;
use codez_llm_switch::protocol::ResponseEvent;
use codez_llm_switch::protocol::{ContentItem, ResponseItem};
use serde_json::Value;

fn json(text: &str) -> Value {
    serde_json::from_str(text).unwrap()
}

fn json_lines(text: &str) -> Vec<Value> {
    text.lines().filter(|l| !l.trim().is_empty()).map(json).collect()
}

fn text_chunk(id: &str, delta: &str) -> serde_json::Value {
    let mut chunk = json(
        r#"{"choices": [{"index": 0, "delta": {}, "finish_reason": null}]}"#,
    );
    chunk["id"] = Value::from(id);
    chunk["choices"][0]["delta"]["content"] = Value::from(delta);
    chunk
}

#[test]
fn accumulates_text_and_synthesizes_assistant_message() {
    let chunks = vec![
        text_chunk("resp-1", "Hello"),
        text_chunk("resp-1", " world"),
        json(r#"{"id":"resp-1","choices":[{"index":0,"delta":{},"finish_reason":"stop"}],
               "usage":{"prompt_tokens":3,"completion_tokens":2,"total_tokens":5}}"#),
    ];
    let events = run(&chunks, true).unwrap();
    let deltas: Vec<&String> = events.iter().filter_map(|e| match e {
        ResponseEvent::OutputTextDelta(s) => Some(s), _ => None }).collect();
    assert_eq!(deltas, vec!["Hello", " world"]);
    let synth = events.iter().find_map(|e| match e {
        ResponseEvent::OutputItemDone(ResponseItem::Message { role, content, .. }) if role == "assistant" => Some(content),
        _ => None }).expect("synth assistant message present");
    assert!(matches!(&synth[0], ContentItem::OutputText { text } if text == "Hello world"));
    let completed = events.iter().find_map(|e| match e {
        ResponseEvent::Completed { response_id, token_usage, end_turn } => Some((response_id, token_usage, end_turn)),
        _ => None }).expect("Completed present");
    assert_eq!(completed.0, "resp-1");
    assert_eq!(*completed.2, Some(true));
    assert_eq!(completed.1.as_ref().unwrap().output_tokens, 2);
}

#[test]
fn aggregates_tool_call_arguments_by_index() {
    let chunks = vec![
        json(r#"{"id":"r","choices":[{"index":0,"delta":{"tool_calls":[
            {"index":0,"id":"call_1","function":{"name":"get_weather","arguments":"{\"ci"}}]},"finish_reason":null}]}"#),
        json(r#"{"id":"r","choices":[{"index":0,"delta":{"tool_calls":[
            {"index":0,"function":{"arguments":"ty\":\"SF\"}"}}]},"finish_reason":null}]}"#),
        json(r#"{"id":"r","choices":[{"index":0,"delta":{},"finish_reason":"tool_calls"}],
               "usage":{"prompt_tokens":1,"completion_tokens":1,"total_tokens":2}}"#),
    ];
    let events = run(&chunks, true).unwrap();
    let fc = events.iter().find_map(|e| match e {
        ResponseEvent::OutputItemDone(ResponseItem::FunctionCall { name, arguments, call_id, .. }) => Some((name, arguments, call_id)),
        _ => None }).expect("FunctionCall present");
    assert_eq!(fc.0, "get_weather");
    assert_eq!(fc.1, "{\"city\":\"SF\"}");
    assert_eq!(fc.2, "call_1");
    let completed2 = events.iter().find_map(|e| match e {
        ResponseEvent::Completed { end_turn, .. } => Some(end_turn), _ => None }).unwrap();
    assert_eq!(*completed2, Some(false));
}

#[test]
fn missing_id_synthesizes_response_id() {
    let chunks = vec![json(r#"{"choices":[{"index":0,"delta":{"content":"x"},"finish_reason":"stop"}]}"#)];
    let events = run(&chunks, true).unwrap();
    let rid = events.iter().find_map(|e| match e {
        ResponseEvent::Completed { response_id, .. } => Some(response_id.clone()), _ => None }).unwrap();
    assert!(rid.starts_with("llmswitch-"), "synth id when upstream omits id: {rid}");
}

#[test]
fn cached_tokens_in_prompt_tokens_details_is_mapped() {
    let chunks = vec![
        text_chunk("resp-c", "Hi"),
        json(r#"{"id":"resp-c","choices":[{"index":0,"delta":{},"finish_reason":"stop"}],
               "usage":{
                   "prompt_tokens": 10,
                   "completion_tokens": 3,
                   "total_tokens": 13,
                   "prompt_tokens_details": {"cached_tokens": 7}
               }}"#),
    ];
    let events = run(&chunks, true).unwrap();
    let usage = events.iter().find_map(|e| match e {
        ResponseEvent::Completed { token_usage, .. } => token_usage.as_ref(),
        _ => None,
    }).expect("Completed with usage");
    assert_eq!(usage.cached_input_tokens, 7);
    assert_eq!(usage.input_tokens, 10);
    assert_eq!(usage.output_tokens, 3);
}

#[test]
fn finish_reason_length_gives_end_turn_false() {
    let chunks = vec![
        text_chunk("resp-l", "Truncated"),
        json(r#"{"id":"resp-l","choices":[{"index":0,"delta":{},"finish_reason":"length"}],
               "usage":{"prompt_tokens":5,"completion_tokens":1,"total_tokens":6}}"#),
    ];
    let events = run(&chunks, true).unwrap();
    let end_turn = events.iter().find_map(|e| match e {
        ResponseEvent::Completed { end_turn, .. } => Some(*end_turn),
        _ => None,
    }).expect("Completed present");
    assert_eq!(end_turn, Some(false));
}

#[test]
fn chat_sse_test_fixture_text_stream_produces_correct_events() {
    let chunks = json_lines(
        r#"
{"id":"chatcmpl-text1","choices":[{"index":0,"delta":{"role":"assistant","content":""},"finish_reason":null}]}
{"id":"chatcmpl-text1","choices":[{"index":0,"delta":{"content":"Hello"},"finish_reason":null}]}
{"id":"chatcmpl-text1","choices":[{"index":0,"delta":{"content":", world"},"finish_reason":null}]}
{"id":"chatcmpl-text1","choices":[{"index":0,"delta":{},"finish_reason":"stop"}],"usage":{"prompt_tokens":5,"completion_tokens":4,"total_tokens":9}}
"#,
    );
    let events = run(&chunks, true).unwrap();
    let deltas: Vec<&String> = events.iter().filter_map(|e| match e {
        ResponseEvent::OutputTextDelta(s) => Some(s), _ => None }).collect();
    assert_eq!(deltas, vec!["Hello", ", world"]);
    let msg = events.iter().find_map(|e| match e {
        ResponseEvent::OutputItemDone(ResponseItem::Message { role, content, .. }) if role == "assistant" => Some(content),
        _ => None }).expect("assistant message");
    assert!(matches!(&msg[0], ContentItem::OutputText { text } if text == "Hello, world"));
    let rid = events.iter().find_map(|e| match e {
        ResponseEvent::Completed { response_id, .. } => Some(response_id.as_str()), _ => None }).unwrap();
    assert_eq!(rid, "chatcmpl-text1");
}

#[test]
fn chat_sse_test_fixture_tool_call_stream_produces_correct_events() {
    let chunks = json_lines(
        r#"
{"id":"chatcmpl-tool1","choices":[{"index":0,"delta":{"role":"assistant","content":null,"tool_calls":[{"index":0,"id":"call_1","type":"function","function":{"name":"get_weather","arguments":""}}]},"finish_reason":null}]}
{"id":"chatcmpl-tool1","choices":[{"index":0,"delta":{"tool_calls":[{"index":0,"function":{"arguments":"{\"city\":"}}]},"finish_reason":null}]}
{"id":"chatcmpl-tool1","choices":[{"index":0,"delta":{"tool_calls":[{"index":0,"function":{"arguments":"\"SF\"}"}}]},"finish_reason":null}]}
{"id":"chatcmpl-tool1","choices":[{"index":0,"delta":{},"finish_reason":"tool_calls"}],"usage":{"prompt_tokens":10,"completion_tokens":7,"total_tokens":17}}
"#,
    );
    let events = run(&chunks, true).unwrap();
    let fc = events.iter().find_map(|e| match e {
        ResponseEvent::OutputItemDone(ResponseItem::FunctionCall { name, arguments, call_id, .. }) => Some((name.as_str(), arguments.as_str(), call_id.as_str())),
        _ => None }).expect("FunctionCall");
    assert_eq!(fc.0, "get_weather");
    assert_eq!(fc.1, "{\"city\":\"SF\"}");
    assert_eq!(fc.2, "call_1");
    let end_turn = events.iter().find_map(|e| match e {
        ResponseEvent::Completed { end_turn, .. } => Some(end_turn), _ => None }).unwrap();
    assert_eq!(*end_turn, Some(false));
}
