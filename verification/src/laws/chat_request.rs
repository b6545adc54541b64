//! What a Chat Completions request says.

use super::requests::lemma_chat_keys;
use crate::connector::chat_req::{
    chat_body, chat_messages, chat_tool, chat_tools, chat_tools_from,
};
use crate::json::{held, held_all, parsed, JsonView};
use crate::protocol::ResponsesApiRequest;
use crate::text::quoted;
use vstd::prelude::*;

verus! {

/// Whether a tool definition is that of a function.
pub open spec fn defines_function(t: JsonView) -> bool {
    t.text_at("type"@) == Some("function"@)
}

/// A member of a definition, or what stands for one that is missing.
pub open spec fn member(t: JsonView, key: Seq<char>, missing: JsonView) -> JsonView {
    match t.get(key) {
        Some(x) => x,
        None => missing,
    }
}

/// The object that says that anything fits.
pub open spec fn any_object() -> JsonView {
    JsonView::Object(map!["type"@ => JsonView::Text("object"@)])
}

/// Whether a tool choice is one of the three words that any protocol knows.
pub open spec fn is_word(tc: Seq<char>) -> bool {
    tc == "auto"@ || tc == "none"@ || tc == "required"@
}

/// The function that a tool choice names in JSON.
pub open spec fn named_function(tc: Seq<char>) -> Option<JsonView> {
    match parsed(tc) {
        Ok(v) => if v.text_at("type"@) == Some("function"@) {
            v.get("name"@)
        } else {
            None
        },
        Err(_) => None,
    }
}

/// Whether a tool choice can be said at all: it is a word, nothing, or names a function.
pub open spec fn can_be_said(tc: Seq<char>) -> bool {
    is_word(tc) || tc.len() == 0 || named_function(tc) is Some
}

/// What a tool definition is sent as.
pub open spec fn sent_tool(t: JsonView) -> JsonView {
    JsonView::Object(
        map![
            "type"@ => JsonView::Text("function"@),
            "function"@ => JsonView::Object(map![
                "name"@ => member(t, "name"@, JsonView::Null),
                "description"@ => member(t, "description"@, JsonView::Null),
                "parameters"@ => member(t, "parameters"@, any_object()),
            ]),
        ],
    )
}

/// The reason for a tool definition that is not that of a function.
pub open spec fn tool_refusal(t: JsonView) -> Seq<char> {
    "tool definition type "@ + (match t.text_at("type"@) {
        Some(kind) => "Some("@ + quoted(kind) + ")"@,
        None => "None"@,
    }) + " not supported in v1 chat connector (only standard function supported)"@
}

proof fn lemma_tools_from(done: Seq<JsonView>, tools: Seq<JsonView>)
    ensures
        match chat_tools_from(done, tools) {
            Ok(ts) => {
                &&& ts.len() == done.len() + tools.len()
                &&& forall|i: int| 0 <= i < done.len() ==> #[trigger] ts[i] == done[i]
                &&& forall|i: int|
                    0 <= i < tools.len() ==> defines_function(#[trigger] tools[i])
                        && ts[done.len() + i] == sent_tool(tools[i])
            },
            Err(reason) => exists|k: int|
                0 <= k < tools.len() && !defines_function(#[trigger] tools[k]) && reason
                    == tool_refusal(tools[k]) && forall|i: int|
                    0 <= i < k ==> defines_function(#[trigger] tools[i]),
        },
    decreases tools.len(),
{
    if tools.len() > 0 {
        match chat_tool(tools[0]) {
            Ok(t) => {
                let rest = tools.skip(1);
                assert(t == sent_tool(tools[0]));
                lemma_tools_from(done.push(t), rest);
                match chat_tools_from(done.push(t), rest) {
                    Ok(ts) => {
                        assert forall|i: int| 0 <= i < done.len() implies #[trigger] ts[i]
                            == done[i] by {
                            assert(ts[i] == done.push(t)[i]);
                        }
                        assert forall|i: int| 0 <= i < tools.len() implies defines_function(
                            #[trigger] tools[i],
                        ) && ts[done.len() + i] == sent_tool(tools[i]) by {
                            if i == 0 {
                                assert(ts[done.len() as int] == done.push(t)[done.len() as int]);
                            } else {
                                assert(rest[i - 1] == tools[i]);
                                assert(ts[done.push(t).len() + (i - 1)] == sent_tool(rest[i - 1]));
                            }
                        }
                    },
                    Err(reason) => {
                        let k = choose|k: int|
                            0 <= k < rest.len() && !defines_function(#[trigger] rest[k])
                                && reason == tool_refusal(rest[k]) && forall|i: int|
                                0 <= i < k ==> defines_function(#[trigger] rest[i]);
                        assert(tools[k + 1] == rest[k]);
                        assert forall|i: int| 0 <= i < k + 1 implies defines_function(
                            #[trigger] tools[i],
                        ) by {
                            if i > 0 {
                                assert(rest[i - 1] == tools[i]);
                            }
                        }
                    },
                }
            },
            Err(reason) => {
                assert(reason =~= tool_refusal(tools[0]));
            },
        }
    }
}

/// A request that is not refused says these things and no others: the model, that the response is
/// to be streamed and counted, whether calls may be parallel, the messages of the history, one
/// tool for each tool definition in the same order, the tool choice where there are tools, the
/// reasoning effort, and the schema of the output.
pub proof fn law_chat_request_says(req: ResponsesApiRequest, model: Seq<char>)
    ensures
        chat_body(req, model) matches Ok(body) ==> {
            &&& body is Object
            &&& body.get("model"@) == Some(JsonView::Text(model))
            &&& body.get("stream"@) == Some(JsonView::Bool(true))
            &&& body.get("stream_options"@) == Some(
                JsonView::Object(map!["include_usage"@ => JsonView::Bool(true)]),
            )
            &&& body.get("parallel_tool_calls"@) == Some(JsonView::Bool(req.parallel_tool_calls))
            &&& chat_messages(req.instructions@, req.input@) matches Ok(ms) && body.get(
                "messages"@,
            ) == Some(JsonView::List(ms))
            &&& body.get("reasoning_effort"@) == (match req.reasoning {
                Some(r) => match r.effort {
                    Some(e) => Some(held(e)),
                    None => None,
                },
                None => None,
            })
            &&& forall|key: Seq<char>| #[trigger]
                body.get(key) is Some ==> (key == "model"@ || key == "stream"@ || key
                    == "stream_options"@ || key == "parallel_tool_calls"@ || key == "messages"@
                    || key == "reasoning_effort"@ || key == "response_format"@ || key == "tools"@
                    || key == "tool_choice"@)
        },
{
    lemma_chat_keys();
    reveal_strlit("include_usage");
}

/// A request that is not refused offers one tool for each tool definition, in the same order, with
/// its name, its description and its parameters. Without tool definitions it offers none.
pub proof fn law_chat_tools_are_offered(req: ResponsesApiRequest, model: Seq<char>)
    ensures
        chat_body(req, model) matches Ok(body) ==> if req.tools@.len() == 0 {
            body.get("tools"@) is None
        } else {
            &&& body.list_at("tools"@) matches Some(ts) && ts.len() == req.tools@.len() && forall|
                i: int,
            |
                0 <= i < ts.len() ==> #[trigger] ts[i] == sent_tool(held(req.tools@[i]))
        },
{
    lemma_chat_keys();
    let tools = held_all(req.tools@);
    assert(tools.len() == req.tools@.len());
    lemma_tools_from(Seq::empty(), tools);
    if let Ok(body) = chat_body(req, model) {
        if tools.len() > 0 {
            let ts = chat_tools(tools)->Ok_0->Some_0;
            assert(body.list_at("tools"@) == Some(ts));
            assert forall|i: int| 0 <= i < ts.len() implies #[trigger] ts[i] == sent_tool(
                held(req.tools@[i]),
            ) by {
                assert(tools[i] == held(req.tools@[i]));
                assert(ts[Seq::<JsonView>::empty().len() + i] == sent_tool(tools[i]));
            }
        }
    }
}

/// Together with tools, a request says the tool choice: a word as it is, a function by its name,
/// and nothing where nothing was chosen. Without tools it says none.
pub proof fn law_chat_tool_choice_is_said(req: ResponsesApiRequest, model: Seq<char>)
    ensures
        chat_body(req, model) matches Ok(body) ==> body.get("tool_choice"@) == (
        if req.tools@.len() == 0 || req.tool_choice@.len() == 0 {
            None
        } else if is_word(req.tool_choice@) {
            Some(JsonView::Text(req.tool_choice@))
        } else {
            Some(
                JsonView::Object(
                    map![
                        "type"@ => JsonView::Text("function"@),
                        "function"@ => JsonView::Object(map![
                            "name"@ => named_function(req.tool_choice@)->Some_0,
                        ]),
                    ],
                ),
            )
        }),
{
    lemma_chat_keys();
    lemma_words();
    assert(held_all(req.tools@).len() == req.tools@.len());
}

proof fn lemma_words()
    ensures
        "auto"@.len() == 4,
        "none"@.len() == 4,
        "required"@.len() == 8,
{
    reveal_strlit("auto");
    reveal_strlit("none");
    reveal_strlit("required");
}

/// A JSON schema for the output is said with its name, its schema and its strictness, each as far
/// as it is given. Nothing is said of any other format.
pub proof fn law_chat_schema_is_said(req: ResponsesApiRequest, model: Seq<char>)
    ensures
        chat_body(req, model) matches Ok(body) ==> ({
            let format = match req.text {
                Some(controls) => match controls.format {
                    Some(f) => Some(held(f)),
                    None => None,
                },
                None => None,
            };
            match format {
                Some(f) => if f.text_at("type"@) == Some("json_schema"@) {
                    &&& body.get("response_format"@) matches Some(rf) && {
                        &&& rf is Object
                        &&& rf.get("type"@) == Some(JsonView::Text("json_schema"@))
                        &&& rf.get("json_schema"@) matches Some(s) && {
                            &&& s is Object
                            &&& s.get("name"@) == f.get("name"@)
                            &&& s.get("schema"@) == f.get("schema"@)
                            &&& s.get("strict"@) == f.get("strict"@)
                            &&& forall|key: Seq<char>| #[trigger]
                                s.get(key) is Some ==> key == "name"@ || key == "schema"@ || key
                                    == "strict"@
                        }
                        &&& forall|key: Seq<char>| #[trigger]
                            rf.get(key) is Some ==> key == "type"@ || key == "json_schema"@
                    }
                } else {
                    body.get("response_format"@) is None
                },
                None => body.get("response_format"@) is None,
            }
        }),
{
    lemma_chat_keys();
    reveal_strlit("name");
    reveal_strlit("schema");
    reveal_strlit("strict");
    reveal_strlit("type");
    reveal_strlit("json_schema");
    assert("name"@.len() == 4 && "schema"@.len() == 6 && "strict"@.len() == 6);
    assert("type"@.len() == 4 && "json_schema"@.len() == 11);
    assert("schema"@[1] == 'c' && "strict"@[1] == 't');
}

/// A request is refused for its first tool definition that is not that of a function; if there is
/// none, for its history; and if that can be sent, for a tool choice that cannot be said together
/// with tools. Otherwise it is not refused.
pub proof fn law_chat_requests_are_refused(req: ResponsesApiRequest, model: Seq<char>)
    ensures
        forall|k: int|
            0 <= k < req.tools@.len() && !defines_function(held(#[trigger] req.tools@[k])) && (forall|
                i: int,
            |
                0 <= i < k ==> defines_function(held(#[trigger] req.tools@[i]))) ==> chat_body(
                req,
                model,
            ) == Err::<JsonView, Seq<char>>(tool_refusal(held(req.tools@[k]))),
        (forall|i: int|
            0 <= i < req.tools@.len() ==> defines_function(held(#[trigger] req.tools@[i]))) ==> (
        match chat_messages(req.instructions@, req.input@) {
            Err(reason) => chat_body(req, model) == Err::<JsonView, Seq<char>>(reason),
            Ok(_) => if req.tools@.len() > 0 && !can_be_said(req.tool_choice@) {
                chat_body(req, model) == Err::<JsonView, Seq<char>>(
                    "tool_choice '"@ + req.tool_choice@
                        + "' cannot be expressed in Chat Completions protocol"@,
                )
            } else {
                chat_body(req, model) is Ok
            },
        }),
{
    lemma_words();
    let tools = held_all(req.tools@);
    assert(tools.len() == req.tools@.len());
    lemma_tools_from(Seq::empty(), tools);
    assert forall|k: int|
        0 <= k < req.tools@.len() && !defines_function(held(#[trigger] req.tools@[k])) && (forall|
            i: int,
        |
            0 <= i < k ==> defines_function(held(#[trigger] req.tools@[i]))) implies chat_body(
        req,
        model,
    ) == Err::<JsonView, Seq<char>>(tool_refusal(held(req.tools@[k]))) by {
        assert(tools[k] == held(req.tools@[k]));
        match chat_tools_from(Seq::empty(), tools) {
            Ok(_) => {},
            Err(reason) => {
                let j = choose|j: int|
                    0 <= j < tools.len() && !defines_function(#[trigger] tools[j]) && reason
                        == tool_refusal(tools[j]) && forall|i: int|
                        0 <= i < j ==> defines_function(#[trigger] tools[i]);
                assert(tools[j] == held(req.tools@[j]));
                if j < k {
                    assert(defines_function(held(req.tools@[j])));
                } else if k < j {
                    assert(defines_function(tools[k]));
                }
            },
        }
    }
    if forall|i: int| 0 <= i < req.tools@.len() ==> defines_function(held(#[trigger] req.tools@[i])) {
        if let Err(reason) = chat_tools_from(Seq::empty(), tools) {
            let j = choose|j: int|
                0 <= j < tools.len() && !defines_function(#[trigger] tools[j]) && reason
                    == tool_refusal(tools[j]) && forall|i: int|
                    0 <= i < j ==> defines_function(#[trigger] tools[i]);
            assert(tools[j] == held(req.tools@[j]));
        }
    }
}

} // verus!
