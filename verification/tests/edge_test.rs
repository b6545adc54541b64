use codez_llm_switch::connector::anthropic_req::{self, tool_use_block};
use codez_llm_switch::connector::chat_req;
use codez_llm_switch::connector::reorder::reorder_tool_messages;
use codez_llm_switch::protocol::{
    ApiError, ContentItem, FunctionCallOutputBody, FunctionCallOutputPayload, Reasoning,
    ResponseEvent, ResponseItem, ResponsesApiRequest, TextControls,
};
use codez_llm_switch::testing::{
    build_anthropic_request_for_test, build_chat_request_for_test, dummy_ctx, dummy_ctx_anthropic,
    sample_request, translate_anthropic_sse_for_test, translate_chat_sse_for_test,
};
use codez_llm_switch::ConnError;
use serde_json::Value;

fn json(text: &str) -> Value {
    serde_json::from_str(text).unwrap()
}

fn chat(req: &ResponsesApiRequest) -> Result<Value, ConnError> {
    build_chat_request_for_test(req, &dummy_ctx("m"))
}

fn anthropic(req: &ResponsesApiRequest) -> Result<Value, ConnError> {
    build_anthropic_request_for_test(req, &dummy_ctx_anthropic("m", None))
}

fn reason(r: Result<Value, ConnError>) -> String {
    match r {
        Err(ConnError::HardFail(m)) => m,
        other => panic!("unexpected {other:?}"),
    }
}

fn message(role: &str, text: &str) -> ResponseItem {
    ResponseItem::Message {
        id: None,
        role: role.into(),
        content: vec![ContentItem::InputText { text: text.into() }],
        phase: None,
        metadata: None,
    }
}

fn call(id: &str) -> ResponseItem {
    ResponseItem::FunctionCall {
        id: None,
        name: "f".into(),
        namespace: None,
        arguments: "{}".into(),
        call_id: id.into(),
        metadata: None,
    }
}

fn output(id: &str, text: &str) -> ResponseItem {
    ResponseItem::FunctionCallOutput {
        call_id: id.into(),
        output: FunctionCallOutputPayload {
            body: FunctionCallOutputBody::Text(text.into()),
            success: None,
        },
        metadata: None,
    }
}

fn outline(v: &Value) -> Vec<String> {
    v["messages"]
        .as_array()
        .unwrap()
        .iter()
        .map(|m| match m["role"].as_str().unwrap() {
            "tool" => format!("tool {} {}", m["tool_call_id"].as_str().unwrap(), m["content"].as_str().unwrap()),
            role => match m.get("tool_calls") {
                Some(tc) => format!("call {}", tc[0]["id"].as_str().unwrap()),
                None => format!("{role} {}", m["content"].as_str().unwrap()),
            },
        })
        .collect()
}

#[test]
fn results_move_behind_their_calls() {
    let mut req = sample_request();
    req.input = vec![
        message("user", "q"),
        call("a"),
        call("b"),
        call("c"),
        output("c", "rc"),
        message("assistant", "text"),
        output("a", "ra"),
        output("a", "again"),
    ];
    let v = chat(&req).unwrap();
    assert_eq!(
        outline(&v),
        vec![
            "user q",
            "call a",
            "tool a ra",
            "tool a again",
            "call b",
            "tool b [No output available yet]",
            "call c",
            "tool c rc",
            "assistant text",
        ]
    );
}

#[test]
fn repeated_call_gets_a_placeholder_behind_the_first() {
    let mut req = sample_request();
    req.input = vec![call("a"), output("a", "r"), call("a")];
    assert_eq!(
        outline(&chat(&req).unwrap()),
        vec!["call a", "tool a r", "tool a [No output available yet]", "call a"]
    );
}

#[test]
fn result_before_its_call_is_dropped() {
    let mut req = sample_request();
    req.input = vec![output("a", "early"), call("a"), output("a", "late")];
    assert_eq!(outline(&chat(&req).unwrap()), vec!["call a", "tool a late"]);
    let v = anthropic(&req).unwrap();
    assert_eq!(v["messages"].as_array().unwrap().len(), 2);
    assert_eq!(v["messages"][1]["content"][0]["content"], "late");
}

#[test]
fn reordering_keeps_what_has_no_place() {
    let messages = vec![
        json(r#"{"role":"tool","tool_call_id":"x","content":"1"}"#),
        json(r#"{"role":"tool","content":"no id"}"#),
        json(r#"{"role":"tool","tool_call_id":"b","content":"2"}"#),
        json(r#"{"role":"tool","tool_call_id":"x","content":"3"}"#),
        json(r#"{"role":"assistant","tool_calls":[{"id":"a"},{"id":"b"},{"no":"id"}]}"#),
        json(r#"{"role":"tool","tool_call_id":"a","content":"4"}"#),
        json(r#"{"role":"user","tool_calls":[{"id":"x"}]}"#),
    ];
    let contents: Vec<Value> = reorder_tool_messages(messages)
        .into_iter()
        .map(|m| m.get("content").cloned().unwrap_or(Value::Null))
        .collect();
    assert_eq!(
        Value::Array(contents),
        json(r#"["no id", null, "4", "2", null, "1", "3"]"#)
    );
}

#[test]
fn refusals_say_why() {
    let mut req = sample_request();
    req.input = vec![ResponseItem::FunctionCall {
        id: None,
        name: "send".into(),
        namespace: Some("mcp".into()),
        arguments: "{}".into(),
        call_id: "c".into(),
        metadata: None,
    }];
    assert_eq!(reason(chat(&req)), "namespaced function call 'send' not supported in v1 chat connector");
    assert_eq!(
        reason(anthropic(&req)),
        "namespaced function call 'send' not supported in v1 anthropic connector"
    );
    req.input = vec![ResponseItem::CompactionTrigger { metadata: None }, ResponseItem::Compaction {
        encrypted_content: "e".into(),
        metadata: None,
    }];
    assert_eq!(
        reason(chat(&req)),
        "Compaction (encrypted content) not supported in v1 chat connector"
    );
    assert_eq!(reason(anthropic(&req)), "Compaction not supported in v1 anthropic connector");
}

#[test]
fn unknown_tool_types_are_shown() {
    let mut req = sample_request();
    req.tools = vec![json(r#"{"type":"cus\"tom"}"#)];
    assert_eq!(
        reason(chat(&req)),
        "tool definition type Some(\"cus\\\"tom\") not supported in v1 chat connector (only standard function supported)"
    );
    req.tools = vec![json(r#"{"type":7}"#)];
    assert_eq!(
        reason(anthropic(&req)),
        "tool definition type None not supported in v1 anthropic connector (only standard function)"
    );
}

#[test]
fn tools_are_looked_at_before_the_history_and_the_choice() {
    let mut req = sample_request();
    req.tools = vec![json(r#"{"type":"x"}"#)];
    req.input = vec![ResponseItem::Other];
    req.tool_choice = "nonsense".into();
    assert!(reason(chat(&req)).starts_with("tool definition type"));
    req.tools = vec![json(r#"{"type":"function"}"#)];
    assert!(reason(chat(&req)).starts_with("unknown ResponseItem variant"));
    req.input = vec![];
    assert_eq!(
        reason(chat(&req)),
        "tool_choice 'nonsense' cannot be expressed in Chat Completions protocol"
    );
    assert_eq!(
        reason(anthropic(&req)),
        "tool_choice 'nonsense' cannot be expressed in Anthropic Messages protocol"
    );
}

#[test]
fn tool_choice_may_name_a_function() {
    let mut req = sample_request();
    req.tools = vec![json(r#"{"type":"function","name":"f"}"#)];
    req.tool_choice = r#"{"type":"function","name":"f"}"#.into();
    assert_eq!(
        chat(&req).unwrap()["tool_choice"],
        json(r#"{"type":"function","function":{"name":"f"}}"#)
    );
    assert_eq!(anthropic(&req).unwrap()["tool_choice"], json(r#"{"type":"tool","name":"f"}"#));
    req.tool_choice = r#"{"type":"function"}"#.into();
    assert!(chat(&req).is_err());
    assert!(anthropic(&req).is_err());
}

#[test]
fn tool_choice_is_mapped_by_what_it_denotes() {
    let named = || Some(json(r#"{"type":"function","name":"g"}"#));
    let c = chat_req::map_tool_choice_given("anything", named()).unwrap().unwrap();
    assert_eq!(c["function"]["name"], "g");
    assert!(chat_req::map_tool_choice_given("anything", None).is_err());
    assert_eq!(chat_req::map_tool_choice_given("auto", None).unwrap().unwrap(), "auto");
    let c = anthropic_req::map_tool_choice_given("anything", named()).unwrap().unwrap();
    assert_eq!(c, json(r#"{"type":"tool","name":"g"}"#));
    let c = anthropic_req::map_tool_choice_given("required", None).unwrap().unwrap();
    assert_eq!(c, json(r#"{"type":"any"}"#));
    assert!(anthropic_req::map_tool_choice_given("", None).unwrap().is_none());
}

#[test]
fn parallel_use_is_switched_off_without_a_choice() {
    let mut req = sample_request();
    req.tools = vec![json(r#"{"type":"function","name":"f"}"#)];
    req.tool_choice = "".into();
    req.parallel_tool_calls = false;
    assert_eq!(
        anthropic(&req).unwrap()["tool_choice"],
        json(r#"{"type":"auto","disable_parallel_tool_use":true}"#)
    );
    req.parallel_tool_calls = true;
    assert!(anthropic(&req).unwrap().get("tool_choice").is_none());
}

#[test]
fn null_description_is_left_out_for_anthropic() {
    let mut req = sample_request();
    req.tools = vec![json(r#"{"type":"function","name":"f","description":null}"#)];
    assert_eq!(
        anthropic(&req).unwrap()["tools"][0],
        json(r#"{"name":"f","input_schema":{"type":"object"}}"#)
    );
}

fn effort() -> Option<Reasoning> {
    Some(Reasoning {
        effort: Some(Value::from("high")),
        summary: None,
        context: None,
    })
}

#[test]
fn effort_is_handed_on() {
    let mut req = sample_request();
    req.reasoning = effort();
    assert_eq!(chat(&req).unwrap()["reasoning_effort"], "high");
    for (max, budget) in [(100u32, 1024u64), (2048, 1024), (10_000, 5000), (16_002, 8000), (100_000, 8000)] {
        let v = build_anthropic_request_for_test(&req, &dummy_ctx_anthropic("m", Some(max))).unwrap();
        assert_eq!(v["thinking"]["type"], "enabled");
        assert_eq!(v["thinking"]["budget_tokens"], budget);
    }
    req.reasoning = Some(Reasoning {
        effort: None,
        summary: Some(Value::from("auto")),
        context: None,
    });
    assert!(chat(&req).unwrap().get("reasoning_effort").is_none());
    assert!(anthropic(&req).unwrap().get("thinking").is_none());
}

#[test]
fn output_formats_become_hints_for_anthropic() {
    let mut req = sample_request();
    req.text = Some(TextControls {
        verbosity: None,
        format: Some(json(r#"{"type":"json_object"}"#)),
    });
    assert_eq!(anthropic(&req).unwrap()["system"], "\n\nRespond with valid JSON.");
    assert!(chat(&req).unwrap().get("response_format").is_none());
    req.instructions = "Be kind.".into();
    req.text = Some(TextControls {
        verbosity: None,
        format: Some(json(r#"{"type":"json_schema","name":"n"}"#)),
    });
    assert_eq!(
        anthropic(&req).unwrap()["system"],
        "Be kind.\n\nYou must respond with valid JSON matching this schema: {\"name\":\"n\",\"type\":\"json_schema\"}"
    );
    assert_eq!(
        chat(&req).unwrap()["response_format"],
        json(r#"{"type":"json_schema","json_schema":{"name":"n"}}"#)
    );
}

#[test]
fn ignored_fields_leave_no_trace() {
    let plain = sample_request();
    let mut rich = sample_request();
    rich.store = true;
    rich.stream = false;
    rich.includes = vec!["reasoning.encrypted_content".into()];
    rich.service_tier = Some("flex".into());
    rich.prompt_cache_key = Some("k".into());
    rich.client_metadata = Some(vec![("a".into(), "b".into())]);
    rich.model = "other".into();
    assert_eq!(chat(&plain).unwrap(), chat(&rich).unwrap());
    assert_eq!(anthropic(&plain).unwrap(), anthropic(&rich).unwrap());
}

#[test]
fn other_roles_speak_as_the_user() {
    let mut req = sample_request();
    req.input = vec![message("developer", "a"), message("user", "b"), message("assistant", "c")];
    let v = anthropic(&req).unwrap();
    assert_eq!(
        v["messages"],
        json(
            r#"[
            {"role":"user","content":[{"type":"text","text":"a"},{"type":"text","text":"b"}]},
            {"role":"assistant","content":[{"type":"text","text":"c"}]}
        ]"#
        )
    );
}

#[test]
fn calls_and_results_alternate_for_anthropic() {
    let mut req = sample_request();
    req.input = vec![call("a"), call("a"), output("a", "r"), call("b")];
    let v = anthropic(&req).unwrap();
    let roles: Vec<&str> =
        v["messages"].as_array().unwrap().iter().map(|m| m["role"].as_str().unwrap()).collect();
    assert_eq!(roles, vec!["assistant", "user", "assistant", "user"]);
    assert_eq!(v["messages"][3]["content"][0]["tool_use_id"], "b");
    assert_eq!(v["messages"][3]["content"][0]["content"], "[No output available yet]");
}

#[test]
fn arguments_that_are_not_json_are_refused_with_words() {
    let mut req = sample_request();
    req.input = vec![ResponseItem::FunctionCall {
        id: None,
        name: "f".into(),
        namespace: None,
        arguments: "".into(),
        call_id: "c".into(),
        metadata: None,
    }];
    assert_eq!(
        reason(anthropic(&req)),
        "FunctionCall arguments invalid JSON: EOF while parsing a value at line 1 column 0"
    );
    assert!(chat(&req).is_ok());
    let block = tool_use_block("c", "f", Ok(json("[1]"))).unwrap();
    assert_eq!(block, json(r#"{"type":"tool_use","id":"c","name":"f","input":[1]}"#));
    assert_eq!(
        reason(tool_use_block("c", "f", Err("why".into()))),
        "FunctionCall arguments invalid JSON: why"
    );
}

#[test]
fn errors_have_words() {
    assert_eq!(ConnError::HardFail("x".into()).message(), "llm-switch unsupported: x");
    let e = ApiError::Api { status: 500, message: "down".into() };
    assert_eq!(ConnError::Http(e).message(), "down");
    assert_eq!(ApiError::Stream("s".into()).message(), "s");
    assert_eq!(ApiError::InvalidRequest { message: "i".into() }.message(), "i");
}

#[test]
fn hard_failures_become_invalid_requests() {
    let e = ApiError::from(ConnError::HardFail("x".into()));
    assert!(matches!(e, ApiError::InvalidRequest { message } if message == "x"));
    let e = ApiError::from(ConnError::Http(ApiError::Stream("s".into())));
    assert!(matches!(e, ApiError::Stream(m) if m == "s"));
}

fn call_ids(events: &[ResponseEvent]) -> Vec<String> {
    events
        .iter()
        .filter_map(|e| match e {
            ResponseEvent::OutputItemDone(ResponseItem::FunctionCall { call_id, .. }) => Some(call_id.clone()),
            _ => None,
        })
        .collect()
}

#[test]
fn calls_come_out_by_index_and_get_identifiers() {
    let chunks = vec![json(
        r#"{"choices":[{"delta":{"tool_calls":[
            {"index":7,"function":{"name":"late"}},
            {"index":-2,"function":{"name":"early","arguments":"x"}},
            {"index":7,"function":{"arguments":"y"}},
            {"index":3,"id":"own","function":{"name":"mid"}},
            {"function":{"name":"none"}}
        ]}}]}"#,
    )];
    let events = translate_chat_sse_for_test(&chunks, true).unwrap();
    assert_eq!(call_ids(&events), vec!["llmswitch-call-1", "llmswitch-call-2", "own", "llmswitch-call-3"]);
    assert_eq!(events.len(), 5);
    assert!(matches!(
        &events[4],
        ResponseEvent::Completed { response_id, .. } if response_id == "llmswitch-resp-4"
    ));
    assert!(matches!(
        &events[3],
        ResponseEvent::OutputItemDone(ResponseItem::FunctionCall { name, arguments, .. })
            if name == "late" && arguments == "y"
    ));
}

#[test]
fn many_made_up_identifiers_differ() {
    let mut pieces = Vec::new();
    for i in 0..12 {
        let mut piece = json(r#"{"function":{"name":"f"}}"#);
        piece["index"] = Value::from(i);
        pieces.push(piece);
    }
    let mut chunk = json(r#"{"id":"r","choices":[{"delta":{}}]}"#);
    chunk["choices"][0]["delta"]["tool_calls"] = Value::Array(pieces);
    let ids = call_ids(&translate_chat_sse_for_test(&[chunk], true).unwrap());
    assert_eq!(ids.len(), 12);
    assert_eq!(ids[8], "llmswitch-call-9");
    assert_eq!(ids[9], "llmswitch-call-10");
    assert_eq!(ids[11], "llmswitch-call-12");
}

#[test]
fn first_identifier_and_last_reason_count() {
    let chunks = vec![
        json(r#"{"id":"","choices":[{"finish_reason":"stop"}]}"#),
        json(r#"{"id":"one","usage":{"prompt_tokens":1},"choices":[{"finish_reason":"odd"}]}"#),
        json(r#"{"id":"two","usage":null,"choices":[{"finish_reason":""}]}"#),
        json("[]"),
    ];
    let events = translate_chat_sse_for_test(&chunks, true).unwrap();
    match &events[0] {
        ResponseEvent::Completed { response_id, token_usage, end_turn } => {
            assert_eq!(response_id, "one");
            assert_eq!(token_usage.unwrap().input_tokens, 1);
            assert_eq!(token_usage.unwrap().total_tokens, 0);
            assert_eq!(*end_turn, None);
        }
        other => panic!("unexpected {other:?}"),
    }
}

#[test]
fn unfinished_stream_is_not_completed() {
    let chunks = vec![json(r#"{"choices":[{"delta":{"content":"a"}}]}"#)];
    let events = translate_chat_sse_for_test(&chunks, false).unwrap();
    assert_eq!(events.len(), 1);
}

#[test]
fn upstream_errors_are_shown() {
    let e = translate_chat_sse_for_test(&[json(r#"{"error":"no"}"#)], true).unwrap_err();
    assert!(matches!(e, ConnError::HardFail(m) if m == "upstream error in SSE chunk: \"no\""));
    let e = translate_anthropic_sse_for_test(&[json(r#"{"type":"error"}"#)], true).unwrap_err();
    assert!(matches!(e, ConnError::HardFail(m) if m == "anthropic upstream error: "));
    let e = translate_anthropic_sse_for_test(&[json(r#"{"type":"error","error":{"a":1}}"#)], true).unwrap_err();
    assert!(matches!(e, ConnError::HardFail(m) if m == "anthropic upstream error: {\"a\":1}"));
}

#[test]
fn anthropic_total_counts_created_cache_but_not_read_cache() {
    let events = vec![
        json(r#"{"type":"message_start","message":{"id":"m","usage":{"input_tokens":3,"cache_read_input_tokens":7,"cache_creation_input_tokens":11}}}"#),
        json(r#"{"type":"message_delta","usage":{"output_tokens":2}}"#),
    ];
    let out = translate_anthropic_sse_for_test(&events, true).unwrap();
    match &out[0] {
        ResponseEvent::Completed { token_usage: Some(u), end_turn, .. } => {
            assert_eq!(u.input_tokens, 3);
            assert_eq!(u.cached_input_tokens, 7);
            assert_eq!(u.output_tokens, 2);
            assert_eq!(u.total_tokens, 16);
            assert_eq!(*end_turn, None);
        }
        other => panic!("unexpected {other:?}"),
    }
}

#[test]
fn anthropic_blocks_come_out_by_index() {
    let events = vec![
        json(r#"{"type":"content_block_start","index":2,"content_block":{"type":"tool_use","id":"b","name":"g"}}"#),
        json(r#"{"type":"content_block_delta","index":1,"delta":{"type":"input_json_delta","partial_json":"{"}}"#),
        json(r#"{"type":"content_block_start","index":1,"content_block":{"type":"tool_use","name":"f"}}"#),
        json(r#"{"type":"content_block_delta","index":1,"delta":{"type":"input_json_delta","partial_json":"}"}}"#),
    ];
    let out = translate_anthropic_sse_for_test(&events, true).unwrap();
    assert_eq!(call_ids(&out), vec!["llmswitch-call-1", "b"]);
    assert!(matches!(
        &out[0],
        ResponseEvent::OutputItemDone(ResponseItem::FunctionCall { arguments, .. }) if arguments == "{}"
    ));
    assert!(matches!(
        &out[2],
        ResponseEvent::Completed { response_id, .. } if response_id == "llmswitch-resp-2"
    ));
}

#[test]
fn deltas_and_message_hold_the_same_text() {
    let mut chunks = Vec::new();
    for piece in ["a", "", "b\n", "ü"] {
        let mut c = json(r#"{"choices":[{"delta":{}}]}"#);
        c["choices"][0]["delta"]["content"] = Value::from(piece);
        chunks.push(c);
    }
    let events = translate_chat_sse_for_test(&chunks, true).unwrap();
    let mut shown = String::new();
    let mut whole = String::new();
    for e in &events {
        match e {
            ResponseEvent::OutputTextDelta(t) => shown.push_str(t),
            ResponseEvent::OutputItemDone(ResponseItem::Message { content, .. }) => {
                if let ContentItem::OutputText { text } = &content[0] {
                    whole.push_str(text);
                }
            }
            _ => {}
        }
    }
    assert_eq!(shown, "ab\nü");
    assert_eq!(whole, shown);
}

#[test]
fn growing_conversation_keeps_its_messages() {
    let items = || vec![message("user", "q"), call("a"), output("a", "r"), message("assistant", "done")];
    let mut short = sample_request();
    short.input = items();
    let mut long = sample_request();
    long.input = items();
    long.input.push(message("user", "next"));
    long.input.push(call("b"));
    let s = anthropic(&short).unwrap();
    let l = anthropic(&long).unwrap();
    let s = s["messages"].as_array().unwrap();
    let l = l["messages"].as_array().unwrap();
    assert_eq!(s.as_slice(), &l[..s.len()]);
    assert_eq!(l.len(), s.len() + 3);
}

#[test]
fn untranslatable_requests_fail_everywhere() {
    let mut req = sample_request();
    req.tools = vec![json(r#"{"type":"function"}"#), json(r#"{"type":"web_search"}"#)];
    assert!(codez_llm_switch::request_has_namespace_tools(&req));
    assert!(chat(&req).is_err());
    assert!(anthropic(&req).is_err());
}
