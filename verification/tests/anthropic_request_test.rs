use codez_llm_switch::protocol::{
    AgentMessageInputContent, ContentItem, FunctionCallOutputBody, FunctionCallOutputContentItem,
    FunctionCallOutputPayload, ResponseItem,
};
use codez_llm_switch::protocol::TextControls;
use codez_llm_switch::testing::{build_anthropic_request_for_test as build, dummy_ctx_anthropic};
use serde_json::Value;

fn json(text: &str) -> Value {
    serde_json::from_str(text).unwrap()
}

fn ctx() -> codez_llm_switch::EgressCtx {
    dummy_ctx_anthropic("opus-4-8", Some(8192))
}

fn base_req() -> codez_llm_switch::protocol::ResponsesApiRequest {
    let mut r = codez_llm_switch::testing::sample_request();
    r.model = "opus-4-8".into();
    r
}

fn find_block<'a>(v: &'a serde_json::Value, ty: &str) -> Option<&'a serde_json::Value> {
    v["messages"]
        .as_array()?
        .iter()
        .filter_map(|m| m["content"].as_array())
        .flatten()
        .find(|b| b["type"] == ty)
}

#[test]
fn system_goes_top_level_and_messages_have_no_system_role() {
    let mut req = base_req();
    req.instructions = "be brief".into();
    req.input = vec![ResponseItem::Message {
        id: None,
        role: "user".into(),
        content: vec![ContentItem::InputText { text: "hi".into() }],
        phase: None,
        metadata: None,
    }];
    let v = build(&req, &ctx()).unwrap();
    assert_eq!(v["system"], "be brief");
    let msgs = v["messages"].as_array().unwrap();
    assert!(
        msgs.iter().all(|m| m["role"] != "system"),
        "messages should not have role=system"
    );
    assert_eq!(msgs[0]["role"], "user");
}

#[test]
fn empty_instructions_no_system_field() {
    let mut req = base_req();
    req.instructions = "".into();
    req.input = vec![];
    let v = build(&req, &ctx()).unwrap();
    assert!(
        v.get("system").is_none() || v["system"] == serde_json::Value::Null,
        "empty instructions should not produce system field"
    );
}

#[test]
fn max_tokens_required_uses_default() {
    let v = build(&base_req(), &ctx()).unwrap();
    assert_eq!(v["max_tokens"], 8192);
}

#[test]
fn max_tokens_falls_back_to_4096_when_no_config() {
    let req = base_req();
    let ctx_no_default = dummy_ctx_anthropic("opus-4-8", None);
    let v = build(&req, &ctx_no_default).unwrap();
    assert_eq!(v["max_tokens"], 4096);
}

#[test]
fn function_call_becomes_tool_use_with_parsed_object() {
    let mut req = base_req();
    req.input = vec![ResponseItem::FunctionCall {
        id: None,
        name: "get_weather".into(),
        namespace: None,
        arguments: "{\"city\":\"SF\"}".into(),
        call_id: "call_1".into(),
        metadata: None,
    }];
    let v = build(&req, &ctx()).unwrap();
    let asst = v["messages"]
        .as_array()
        .unwrap()
        .iter()
        .find(|m| m["role"] == "assistant")
        .expect("assistant message must exist");
    let block = &asst["content"][0];
    assert_eq!(block["type"], "tool_use");
    assert_eq!(block["id"], "call_1");
    assert_eq!(block["name"], "get_weather");
    assert_eq!(block["input"]["city"], "SF");
}

#[test]
fn function_call_invalid_json_arguments_hard_fails() {
    let mut req = base_req();
    req.input = vec![ResponseItem::FunctionCall {
        id: None,
        name: "f".into(),
        namespace: None,
        arguments: "not-valid-json".into(),
        call_id: "c".into(),
        metadata: None,
    }];
    assert!(
        build(&req, &ctx()).is_err(),
        "invalid JSON arguments should hard fail"
    );
}

#[test]
fn tool_output_maps_is_error() {
    let mut req = base_req();
    req.input = vec![
        ResponseItem::FunctionCall {
            id: None,
            name: "f".into(),
            namespace: None,
            arguments: "{}".into(),
            call_id: "c".into(),
            metadata: None,
        },
        ResponseItem::FunctionCallOutput {
            call_id: "c".into(),
            output: FunctionCallOutputPayload {
                body: FunctionCallOutputBody::Text("boom".into()),
                success: Some(false),
            },
            metadata: None,
        },
    ];
    let v = build(&req, &ctx()).unwrap();
    let tr = find_block(&v, "tool_result").expect("tool_result present");
    assert_eq!(tr["tool_use_id"], "c");
    assert_eq!(tr["is_error"], true);
    assert!(tr["content"].is_string(), "tool_result content should be string");
}

#[test]
fn tool_output_success_no_is_error_field() {
    let mut req = base_req();
    req.input = vec![
        ResponseItem::FunctionCall {
            id: None,
            name: "f".into(),
            namespace: None,
            arguments: "{}".into(),
            call_id: "c".into(),
            metadata: None,
        },
        ResponseItem::FunctionCallOutput {
            call_id: "c".into(),
            output: FunctionCallOutputPayload {
                body: FunctionCallOutputBody::Text("ok".into()),
                success: Some(true),
            },
            metadata: None,
        },
    ];
    let v = build(&req, &ctx()).unwrap();
    let tr = find_block(&v, "tool_result").expect("tool_result present");
    let is_error = tr.get("is_error");
    assert!(
        is_error.is_none() || is_error == Some(&serde_json::Value::Bool(false)),
        "is_error should not be true on success"
    );
}

#[test]
fn tool_result_image_content_hard_fails() {
    let mut req = base_req();
    req.input = vec![
        ResponseItem::FunctionCall {
            id: None,
            name: "f".into(),
            namespace: None,
            arguments: "{}".into(),
            call_id: "c".into(),
            metadata: None,
        },
        ResponseItem::FunctionCallOutput {
            call_id: "c".into(),
            output: FunctionCallOutputPayload {
                body: FunctionCallOutputBody::ContentItems(vec![
                    FunctionCallOutputContentItem::InputImage {
                        image_url: "data:...".into(),
                        detail: None,
                    },
                ]),
                success: None,
            },
            metadata: None,
        },
    ];
    assert!(
        build(&req, &ctx()).is_err(),
        "tool_result with image should hard fail"
    );
}

#[test]
fn tool_result_encrypted_content_hard_fails() {
    let mut req = base_req();
    req.input = vec![
        ResponseItem::FunctionCall {
            id: None,
            name: "f".into(),
            namespace: None,
            arguments: "{}".into(),
            call_id: "c".into(),
            metadata: None,
        },
        ResponseItem::FunctionCallOutput {
            call_id: "c".into(),
            output: FunctionCallOutputPayload {
                body: FunctionCallOutputBody::ContentItems(vec![
                    FunctionCallOutputContentItem::EncryptedContent {
                        encrypted_content: "enc".into(),
                    },
                ]),
                success: None,
            },
            metadata: None,
        },
    ];
    assert!(
        build(&req, &ctx()).is_err(),
        "tool_result with encrypted content should hard fail"
    );
}

#[test]
fn disable_parallel_tool_use_when_false() {
    let mut req = base_req();
    req.tools =
        vec![json(r#"{"type":"function","name":"f","parameters":{"type":"object"}}"#)];
    req.parallel_tool_calls = false;
    let v = build(&req, &ctx()).unwrap();
    assert_eq!(v["tool_choice"]["disable_parallel_tool_use"], true);
}

#[test]
fn parallel_true_no_disable_parallel_field() {
    let mut req = base_req();
    req.tools =
        vec![json(r#"{"type":"function","name":"f","parameters":{"type":"object"}}"#)];
    req.parallel_tool_calls = true;
    let v = build(&req, &ctx()).unwrap();
    let disable = v
        .get("tool_choice")
        .and_then(|tc| tc.get("disable_parallel_tool_use"));
    assert!(
        disable.is_none() || disable == Some(&serde_json::Value::Bool(false)),
        "when parallel_tool_calls=true should not set disable_parallel_tool_use=true"
    );
}

#[test]
fn tools_map_to_input_schema() {
    let mut req = base_req();
    req.tools = vec![json(r#"{"type":"function","name":"f","description":"d","parameters":{"type":"object"}}"#)];
    let v = build(&req, &ctx()).unwrap();
    assert_eq!(v["tools"][0]["name"], "f");
    assert_eq!(v["tools"][0]["description"], "d");
    assert_eq!(v["tools"][0]["input_schema"]["type"], "object");
    assert_eq!(v["tools"][0].get("type"), None);
}

#[test]
fn non_function_tool_definition_hard_fails() {
    let mut req = base_req();
    req.tools = vec![json(r#"{"type":"custom","name":"freeform"}"#)];
    assert!(
        build(&req, &ctx()).is_err(),
        "non-function tool types should hard fail"
    );
}

#[test]
fn orphan_tool_call_gets_placeholder_tool_result() {
    let mut req = base_req();
    req.input = vec![ResponseItem::FunctionCall {
        id: None,
        name: "f".into(),
        namespace: None,
        arguments: "{}".into(),
        call_id: "orphan".into(),
        metadata: None,
    }];
    let v = build(&req, &ctx()).unwrap();
    let tr = find_block(&v, "tool_result");
    assert!(
        tr.is_some(),
        "orphan FunctionCall must get placeholder tool_result block"
    );
    assert_eq!(tr.unwrap()["tool_use_id"], "orphan");
}

#[test]
fn anthropic_request_test_orphan_tool_result_is_dropped() {
    let mut req = base_req();
    req.input = vec![ResponseItem::FunctionCallOutput {
        call_id: "ghost".into(),
        output: FunctionCallOutputPayload {
            body: FunctionCallOutputBody::Text("x".into()),
            success: None,
        },
        metadata: None,
    }];
    let v = build(&req, &ctx()).unwrap();
    let tr = find_block(&v, "tool_result");
    assert!(tr.is_none(), "orphan result without corresponding call should be dropped");
}

#[test]
fn consecutive_same_role_blocks_merged() {
    let mut req = base_req();
    req.input = vec![
        ResponseItem::FunctionCall {
            id: None,
            name: "f1".into(),
            namespace: None,
            arguments: "{}".into(),
            call_id: "c1".into(),
            metadata: None,
        },
        ResponseItem::FunctionCall {
            id: None,
            name: "f2".into(),
            namespace: None,
            arguments: "{}".into(),
            call_id: "c2".into(),
            metadata: None,
        },
    ];
    let v = build(&req, &ctx()).unwrap();
    let msgs = v["messages"].as_array().unwrap();
    let asst_msgs: Vec<_> = msgs.iter().filter(|m| m["role"] == "assistant").collect();
    assert_eq!(asst_msgs.len(), 1, "consecutive same role messages should merge into one");
    assert_eq!(asst_msgs[0]["content"].as_array().unwrap().len(), 2);
}

#[test]
fn anthropic_request_test_reasoning_item_is_discarded_silently() {
    let mut req = base_req();
    req.input = vec![
        ResponseItem::Reasoning {
            id: String::new(),
            summary: vec![],
            content: None,
            encrypted_content: None,
            metadata: None,
        },
        ResponseItem::Message {
            id: None,
            role: "user".into(),
            content: vec![ContentItem::InputText { text: "hi".into() }],
            phase: None,
            metadata: None,
        },
    ];
    let v = build(&req, &ctx()).unwrap();
    let msgs = v["messages"].as_array().unwrap();
    assert_eq!(msgs.len(), 1);
    assert_eq!(msgs[0]["role"], "user");
}

#[test]
fn anthropic_request_test_compaction_trigger_is_discarded_silently() {
    let mut req = base_req();
    req.input = vec![
        ResponseItem::CompactionTrigger { metadata: None },
        ResponseItem::Message {
            id: None,
            role: "user".into(),
            content: vec![ContentItem::InputText { text: "hi".into() }],
            phase: None,
            metadata: None,
        },
    ];
    let v = build(&req, &ctx()).unwrap();
    let msgs = v["messages"].as_array().unwrap();
    assert_eq!(msgs.len(), 1);
    assert_eq!(msgs[0]["role"], "user");
}

#[test]
fn anthropic_request_test_namespaced_function_call_hard_fails() {
    let mut req = base_req();
    req.input = vec![ResponseItem::FunctionCall {
        id: None,
        name: "f".into(),
        namespace: Some("mcp".into()),
        arguments: "{}".into(),
        call_id: "c".into(),
        metadata: None,
    }];
    assert!(
        build(&req, &ctx()).is_err(),
        "namespaced function call should hard fail"
    );
}

#[test]
fn anthropic_request_test_input_image_hard_fails() {
    let mut req = base_req();
    req.input = vec![ResponseItem::Message {
        id: None,
        role: "user".into(),
        content: vec![ContentItem::InputImage {
            image_url: "data:...".into(),
            detail: None,
        }],
        phase: None,
        metadata: None,
    }];
    assert!(
        build(&req, &ctx()).is_err(),
        "image input should hard fail"
    );
}

#[test]
fn anthropic_request_test_local_shell_call_hard_fails() {
    let mut req = base_req();
    req.input = vec![ResponseItem::LocalShellCall {
        id: None,
        call_id: None,
        status: codez_llm_switch::protocol::LocalShellStatus::Completed,
        action: codez_llm_switch::protocol::LocalShellAction::Exec(
            codez_llm_switch::protocol::LocalShellExecAction {
                command: vec![],
                timeout_ms: None,
                working_directory: None,
                env: None,
                user: None,
            },
        ),
        metadata: None,
    }];
    assert!(build(&req, &ctx()).is_err(), "LocalShellCall should hard fail");
}

#[test]
fn anthropic_request_test_tool_search_call_hard_fails() {
    let mut req = base_req();
    req.input = vec![ResponseItem::ToolSearchCall {
        id: None,
        call_id: None,
        status: None,
        execution: "{}".into(),
        arguments: json(r#"{}"#),
        metadata: None,
    }];
    assert!(build(&req, &ctx()).is_err(), "ToolSearchCall should hard fail");
}

#[test]
fn anthropic_request_test_web_search_call_hard_fails() {
    let mut req = base_req();
    req.input = vec![ResponseItem::WebSearchCall {
        id: None,
        status: None,
        action: None,
        metadata: None,
    }];
    assert!(build(&req, &ctx()).is_err(), "WebSearchCall should hard fail");
}

#[test]
fn anthropic_request_test_image_generation_call_hard_fails() {
    let mut req = base_req();
    req.input = vec![ResponseItem::ImageGenerationCall {
        id: String::new(),
        status: "completed".into(),
        revised_prompt: None,
        result: "base64data".into(),
        metadata: None,
    }];
    assert!(
        build(&req, &ctx()).is_err(),
        "ImageGenerationCall should hard fail"
    );
}

#[test]
fn anthropic_request_test_custom_tool_call_hard_fails() {
    let mut req = base_req();
    req.input = vec![ResponseItem::CustomToolCall {
        id: None,
        status: None,
        call_id: "c".into(),
        name: "custom".into(),
        input: "{}".into(),
        metadata: None,
    }];
    assert!(build(&req, &ctx()).is_err(), "CustomToolCall should hard fail");
}

#[test]
fn anthropic_request_test_custom_tool_call_output_hard_fails() {
    let mut req = base_req();
    req.input = vec![ResponseItem::CustomToolCallOutput {
        call_id: "c".into(),
        name: None,
        output: FunctionCallOutputPayload {
            body: FunctionCallOutputBody::Text("x".into()),
            success: None,
        },
        metadata: None,
    }];
    assert!(
        build(&req, &ctx()).is_err(),
        "CustomToolCallOutput should hard fail"
    );
}

#[test]
fn anthropic_request_test_tool_search_output_hard_fails() {
    let mut req = base_req();
    req.input = vec![ResponseItem::ToolSearchOutput {
        call_id: None,
        status: "done".into(),
        execution: "{}".into(),
        tools: vec![],
        metadata: None,
    }];
    assert!(build(&req, &ctx()).is_err(), "ToolSearchOutput should hard fail");
}

#[test]
fn anthropic_request_test_compaction_hard_fails() {
    let mut req = base_req();
    req.input = vec![ResponseItem::Compaction {
        encrypted_content: "enc".into(),
        metadata: None,
    }];
    assert!(
        build(&req, &ctx()).is_err(),
        "Compaction should hard fail (encrypted content)"
    );
}

#[test]
fn anthropic_request_test_context_compaction_hard_fails() {
    let mut req = base_req();
    req.input = vec![ResponseItem::ContextCompaction {
        encrypted_content: Some("enc".into()),
        metadata: None,
    }];
    assert!(
        build(&req, &ctx()).is_err(),
        "ContextCompaction should hard fail (encrypted content)"
    );
}

#[test]
fn anthropic_request_test_agent_message_encrypted_content_hard_fails() {
    let mut req = base_req();
    req.input = vec![ResponseItem::AgentMessage {
        author: "agent".into(),
        recipient: "user".into(),
        content: vec![AgentMessageInputContent::EncryptedContent {
            encrypted_content: "enc".into(),
        }],
        metadata: None,
    }];
    assert!(
        build(&req, &ctx()).is_err(),
        "AgentMessage with EncryptedContent should hard fail"
    );
}

#[test]
fn anthropic_request_test_other_variant_hard_fails() {
    let unknown_item = ResponseItem::Other;
    let mut req = base_req();
    req.input = vec![unknown_item];
    assert!(build(&req, &ctx()).is_err(), "Other unknown variant should hard fail");
}

#[test]
fn stream_is_always_true() {
    let v = build(&base_req(), &ctx()).unwrap();
    assert_eq!(v["stream"], true);
}

#[test]
fn model_field_comes_from_ctx() {
    let v = build(&base_req(), &ctx()).unwrap();
    assert_eq!(v["model"], "opus-4-8");
}

#[test]
fn golden_system_user_tool_roundtrip() {
    let expected: serde_json::Value = json(
        r#"{
  "model": "opus-4-8",
  "max_tokens": 8192,
  "stream": true,
  "system": "You are a helpful assistant.",
  "messages": [
    {
      "role": "user",
      "content": [{"type": "text", "text": "What is the weather in SF?"}]
    },
    {
      "role": "assistant",
      "content": [
        {
          "type": "tool_use",
          "id": "call_weather_1",
          "name": "get_weather",
          "input": {"city": "SF"}
        }
      ]
    },
    {
      "role": "user",
      "content": [
        {
          "type": "tool_result",
          "tool_use_id": "call_weather_1",
          "content": "Sunny, 72°F"
        }
      ]
    },
    {
      "role": "assistant",
      "content": [{"type": "text", "text": "It's sunny and 72°F in SF."}]
    }
  ],
  "tools": [
    {
      "name": "get_weather",
      "description": "Get current weather for a city",
      "input_schema": {
        "type": "object",
        "properties": {"city": {"type": "string"}},
        "required": ["city"]
      }
    }
  ],
  "tool_choice": {"type": "auto"}
}"#,
    );

    let mut req = codez_llm_switch::testing::sample_request();
    req.model = "opus-4-8".into();
    req.instructions = "You are a helpful assistant.".into();
    req.tools = vec![json(r#"{
        "type": "function",
        "name": "get_weather",
        "description": "Get current weather for a city",
        "parameters": {
            "type": "object",
            "properties": {
                "city": { "type": "string" }
            },
            "required": ["city"]
        }
    }"#)];
    req.tool_choice = "auto".into();
    req.parallel_tool_calls = true;
    req.input = vec![
        ResponseItem::Message {
            id: None,
            role: "user".into(),
            content: vec![ContentItem::InputText {
                text: "What is the weather in SF?".into(),
            }],
            phase: None,
            metadata: None,
        },
        ResponseItem::FunctionCall {
            id: None,
            name: "get_weather".into(),
            namespace: None,
            arguments: "{\"city\":\"SF\"}".into(),
            call_id: "call_weather_1".into(),
            metadata: None,
        },
        ResponseItem::FunctionCallOutput {
            call_id: "call_weather_1".into(),
            output: FunctionCallOutputPayload {
                body: FunctionCallOutputBody::Text("Sunny, 72°F".into()),
                success: Some(true),
            },
            metadata: None,
        },
        ResponseItem::Message {
            id: None,
            role: "assistant".into(),
            content: vec![ContentItem::OutputText {
                text: "It's sunny and 72°F in SF.".into(),
            }],
            phase: None,
            metadata: None,
        },
    ];

    let ctx = dummy_ctx_anthropic("opus-4-8", Some(8192));
    let actual = build(&req, &ctx).unwrap();

    assert_eq!(
        actual, expected,
        "actual output does not match golden fixture\nactual:\n{}",
        serde_json::to_string_pretty(&actual).unwrap()
    );
}

#[test]
fn multiple_orphan_calls_injected_in_order() {
    let mut req = base_req();
    req.input = vec![
        ResponseItem::FunctionCall {
            id: None,
            name: "f1".into(),
            namespace: None,
            arguments: "{}".into(),
            call_id: "orphan_a".into(),
            metadata: None,
        },
        ResponseItem::FunctionCall {
            id: None,
            name: "f2".into(),
            namespace: None,
            arguments: "{}".into(),
            call_id: "orphan_b".into(),
            metadata: None,
        },
    ];
    let v = build(&req, &ctx()).unwrap();
    let ids: Vec<&str> = v["messages"]
        .as_array()
        .unwrap()
        .iter()
        .filter(|m| m["role"] == "user")
        .filter_map(|m| m["content"].as_array())
        .flatten()
        .filter(|b| b["type"] == "tool_result")
        .map(|b| b["tool_use_id"].as_str().unwrap())
        .collect();
    assert_eq!(ids, vec!["orphan_a", "orphan_b"], "multiple orphans should be injected in appearance order");
}

#[test]
fn text_format_json_schema_appends_system_instruction() {
    let schema = json(r#"{"type": "object", "properties": {"answer": {"type": "string"}}}"#);
    let mut format = json(
        r#"{"type": "json_schema", "strict": false, "name": "codex_output_schema"}"#,
    );
    format["schema"] = schema;
    let text_controls = Some(TextControls { verbosity: None, format: Some(format) });
    assert!(text_controls.is_some(), "should return TextControls when schema is non-null");

    let mut req = base_req();
    req.instructions = "You are a helpful assistant.".into();
    req.text = text_controls;

    let v = build(&req, &ctx()).unwrap();
    let system = v["system"].as_str().expect("system field should be string");
    assert!(
        system.contains("You must respond with valid JSON matching this schema:"),
        "text.format=json_schema should append schema instruction in system, actual system: {system:?}"
    );
    assert!(
        system.contains("You are a helpful assistant."),
        "system should preserve original instructions, actual: {system:?}"
    );
}

#[test]
fn prompt_cache_off_emits_no_cache_control() {
    let req = base_req();
    let v = build(&req, &ctx()).unwrap();
    assert!(v.get("cache_control").is_none(), "default must not add cache_control");
}

#[test]
fn prompt_cache_on_emits_top_level_cache_control() {
    let req = base_req();
    let mut c = dummy_ctx_anthropic("opus-4-8", Some(8192));
    c.prompt_cache = true;
    let v = build(&req, &c).unwrap();
    assert_eq!(v["cache_control"]["type"], "ephemeral");
    let msgs = v["messages"].as_array().cloned().unwrap_or_default();
    for m in &msgs {
        if let Some(blocks) = m["content"].as_array() {
            for b in blocks {
                assert!(b.get("cache_control").is_none(), "no per-block cache_control");
            }
        }
    }
}

#[test]
fn translated_messages_prefix_is_stable_across_turns() {

    fn user_msg(text: &str) -> ResponseItem {
        ResponseItem::Message {
            id: None,
            role: "user".into(),
            content: vec![ContentItem::InputText { text: text.into() }],
            phase: None,
            metadata: None,
        }
    }

    fn assistant_msg(text: &str) -> ResponseItem {
        ResponseItem::Message {
            id: None,
            role: "assistant".into(),
            content: vec![ContentItem::InputText { text: text.into() }],
            phase: None,
            metadata: None,
        }
    }

    let mut turn_n = base_req();
    turn_n.input = vec![user_msg("first question")];

    let mut turn_n1 = base_req();
    turn_n1.input = vec![
        user_msg("first question"),
        assistant_msg("first answer"),
        user_msg("second question"),
    ];

    let v_n = build(&turn_n, &ctx()).unwrap();
    let v_n1 = build(&turn_n1, &ctx()).unwrap();

    let msg_n = &v_n["messages"].as_array().unwrap()[0];
    let msg_n1_first = &v_n1["messages"].as_array().unwrap()[0];
    assert_eq!(
        serde_json::to_string(msg_n).unwrap(),
        serde_json::to_string(msg_n1_first).unwrap(),
        "earlier message bytes must be stable across turns for cache lookback"
    );
}
