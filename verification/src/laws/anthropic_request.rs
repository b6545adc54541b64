//! What an Anthropic Messages request says.

use super::chat_request::{
    any_object, can_be_said, defines_function, is_word, member, named_function,
};
use super::requests::lemma_anthropic_keys;
use crate::connector::anthropic_req::{
    anthropic_body, anthropic_messages, anthropic_tool, anthropic_tools, anthropic_tools_from,
    choice_given,
};
use crate::connector::chat_req;
use crate::json::{held, held_all, json_text, JsonView};
use crate::protocol::ResponsesApiRequest;
use crate::text::quoted;
use vstd::prelude::*;

verus! {

/// Whether `sent` is what a tool definition is sent as: its name, its parameters as the schema of
/// the input, its description unless that is null, and nothing else.
pub open spec fn is_sent_tool(sent: JsonView, t: JsonView) -> bool {
    &&& sent is Object
    &&& sent.get("name"@) == Some(member(t, "name"@, JsonView::Null))
    &&& sent.get("input_schema"@) == Some(member(t, "parameters"@, any_object()))
    &&& sent.get("description"@) == (if member(t, "description"@, JsonView::Null) is Null {
        None
    } else {
        t.get("description"@)
    })
    &&& forall|key: Seq<char>| #[trigger]
        sent.get(key) is Some ==> key == "name"@ || key == "input_schema"@ || key == "description"@
}

/// The reason for a tool definition that is not that of a function.
pub open spec fn tool_refusal(t: JsonView) -> Seq<char> {
    "tool definition type "@ + (match t.text_at("type"@) {
        Some(kind) => "Some("@ + quoted(kind) + ")"@,
        None => "None"@,
    }) + " not supported in v1 anthropic connector (only standard function)"@
}

proof fn lemma_tool(t: JsonView)
    ensures
        match anthropic_tool(t) {
            Ok(sent) => defines_function(t) && is_sent_tool(sent, t),
            Err(reason) => !defines_function(t) && reason == tool_refusal(t),
        },
{
    reveal_strlit("name");
    reveal_strlit("input_schema");
    reveal_strlit("description");
    assert("name"@.len() == 4 && "input_schema"@.len() == 12 && "description"@.len() == 11);
    if let Err(reason) = anthropic_tool(t) {
        assert(reason =~= tool_refusal(t));
    }
}

proof fn lemma_tools_from(done: Seq<JsonView>, tools: Seq<JsonView>)
    ensures
        match anthropic_tools_from(done, tools) {
            Ok(ts) => {
                &&& ts.len() == done.len() + tools.len()
                &&& forall|i: int| 0 <= i < done.len() ==> #[trigger] ts[i] == done[i]
                &&& forall|i: int|
                    0 <= i < tools.len() ==> defines_function(#[trigger] tools[i]) && is_sent_tool(
                        ts[done.len() + i],
                        tools[i],
                    )
            },
            Err(reason) => exists|k: int|
                0 <= k < tools.len() && !defines_function(#[trigger] tools[k]) && reason
                    == tool_refusal(tools[k]) && forall|i: int|
                    0 <= i < k ==> defines_function(#[trigger] tools[i]),
        },
    decreases tools.len(),
{
    if tools.len() > 0 {
        lemma_tool(tools[0]);
        if let Ok(t) = anthropic_tool(tools[0]) {
            let rest = tools.skip(1);
            lemma_tools_from(done.push(t), rest);
            match anthropic_tools_from(done.push(t), rest) {
                Ok(ts) => {
                    assert forall|i: int| 0 <= i < done.len() implies #[trigger] ts[i]
                        == done[i] by {
                        assert(ts[i] == done.push(t)[i]);
                    }
                    assert forall|i: int| 0 <= i < tools.len() implies defines_function(
                        #[trigger] tools[i],
                    ) && is_sent_tool(ts[done.len() + i], tools[i]) by {
                        if i == 0 {
                            assert(ts[done.len() as int] == done.push(t)[done.len() as int]);
                        } else {
                            assert(rest[i - 1] == tools[i]);
                            assert(is_sent_tool(ts[done.push(t).len() + (i - 1)], rest[i - 1]));
                        }
                    }
                },
                Err(reason) => {
                    let k = choose|k: int|
                        0 <= k < rest.len() && !defines_function(#[trigger] rest[k]) && reason
                            == tool_refusal(rest[k]) && forall|i: int|
                            0 <= i < k ==> defines_function(#[trigger] rest[i]);
                    assert(tools[k + 1] == rest[k]);
                    assert forall|i: int| 0 <= i < k + 1 implies defines_function(
                        #[trigger] tools[i],
                    ) by {
                        if i > 0 {
                            assert(rest[i - 1] == tools[i]);
                        }
                    }
                },
            }
        }
    }
}

proof fn lemma_words()
    ensures
        "auto"@.len() == 4,
        "none"@.len() == 4,
        "required"@.len() == 8,
        "auto"@ != "none"@,
{
    reveal_strlit("auto");
    reveal_strlit("none");
    reveal_strlit("required");
    assert("auto"@[0] == 'a' && "none"@[0] == 'n');
}

/// A request that is not refused says these things and no others: the model, how many tokens a
/// response may have (4096 where nothing is configured), that it is to be streamed, the messages
/// of the history, and beyond that a system prompt, tools, a tool choice, how long to think, and
/// that the prompt is to be cached, which it says if and only if that is switched on.
pub proof fn law_anthropic_request_says(
    req: ResponsesApiRequest,
    model: Seq<char>,
    default_max_tokens: Option<u32>,
    prompt_cache: bool,
)
    ensures
        anthropic_body(req, model, default_max_tokens, prompt_cache) matches Ok(body) ==> {
            &&& body is Object
            &&& body.get("model"@) == Some(JsonView::Text(model))
            &&& body.get("stream"@) == Some(JsonView::Bool(true))
            &&& body.get("max_tokens"@) == Some(
                JsonView::Int(
                    match default_max_tokens {
                        Some(n) => n as int,
                        None => 4096,
                    },
                ),
            )
            &&& anthropic_messages(req.input@) matches Ok(ms) && body.get("messages"@) == Some(
                JsonView::List(ms),
            )
            &&& body.get("cache_control"@) == (if prompt_cache {
                Some(JsonView::Object(map!["type"@ => JsonView::Text("ephemeral"@)]))
            } else {
                None
            })
            &&& forall|key: Seq<char>| #[trigger]
                body.get(key) is Some ==> (key == "model"@ || key == "stream"@ || key
                    == "max_tokens"@ || key == "messages"@ || key == "cache_control"@ || key
                    == "system"@ || key == "tools"@ || key == "tool_choice"@ || key == "thinking"@)
        },
{
    lemma_anthropic_keys();
}

/// The system prompt is made of the instructions and of words on the output format: those that
/// hold the whole of a JSON schema, or else those that only ask for JSON. Without either there is
/// none.
pub proof fn law_anthropic_system_is_said(
    req: ResponsesApiRequest,
    model: Seq<char>,
    default_max_tokens: Option<u32>,
    prompt_cache: bool,
)
    ensures
        anthropic_body(req, model, default_max_tokens, prompt_cache) matches Ok(body) ==> ({
            let format = match req.text {
                Some(controls) => match controls.format {
                    Some(f) => Some(held(f)),
                    None => None,
                },
                None => None,
            };
            body.get("system"@) == match format {
                None => if req.instructions@.len() == 0 {
                    None
                } else {
                    Some(JsonView::Text(req.instructions@))
                },
                Some(f) => Some(
                    JsonView::Text(
                        req.instructions@ + (if f.text_at("type"@) == Some("json_schema"@) {
                            "\n\nYou must respond with valid JSON matching this schema: "@
                                + json_text(f)
                        } else {
                            "\n\nRespond with valid JSON."@
                        }),
                    ),
                ),
            }
        }),
{
    lemma_anthropic_keys();
}

/// An upstream is asked to think if and only if the request names an effort, for half of the tokens
/// that a response may have, but for at least 1024 and at most 8000.
pub proof fn law_anthropic_thinking_is_said(
    req: ResponsesApiRequest,
    model: Seq<char>,
    default_max_tokens: Option<u32>,
    prompt_cache: bool,
)
    ensures
        anthropic_body(req, model, default_max_tokens, prompt_cache) matches Ok(body) ==> ({
            let half = match default_max_tokens {
                Some(n) => n as int / 2,
                None => 2048,
            };
            body.get("thinking"@) == if req.reasoning matches Some(r) && r.effort is Some {
                Some(
                    JsonView::Object(
                        map![
                            "type"@ => JsonView::Text("enabled"@),
                            "budget_tokens"@ => JsonView::Int(
                                if half < 1024 {
                                    1024
                                } else if half > 8000 {
                                    8000
                                } else {
                                    half
                                },
                            ),
                        ],
                    ),
                )
            } else {
                None
            }
        }),
{
    lemma_anthropic_keys();
}

/// A request that is not refused offers one tool for each tool definition, in the same order.
/// Without tool definitions it offers none.
pub proof fn law_anthropic_tools_are_offered(
    req: ResponsesApiRequest,
    model: Seq<char>,
    default_max_tokens: Option<u32>,
    prompt_cache: bool,
)
    ensures
        anthropic_body(req, model, default_max_tokens, prompt_cache) matches Ok(body) ==> if
            req.tools@.len() == 0 {
            body.get("tools"@) is None
        } else {
            &&& body.list_at("tools"@) matches Some(ts) && ts.len() == req.tools@.len() && forall|
                i: int,
            |
                0 <= i < ts.len() ==> is_sent_tool(#[trigger] ts[i], held(req.tools@[i]))
        },
{
    lemma_anthropic_keys();
    let tools = held_all(req.tools@);
    assert(tools.len() == req.tools@.len());
    lemma_tools_from(Seq::empty(), tools);
    if let Ok(body) = anthropic_body(req, model, default_max_tokens, prompt_cache) {
        if tools.len() > 0 {
            let ts = anthropic_tools(tools)->Ok_0->Some_0;
            assert(body.list_at("tools"@) == Some(ts));
            assert forall|i: int| 0 <= i < ts.len() implies is_sent_tool(
                #[trigger] ts[i],
                held(req.tools@[i]),
            ) by {
                assert(tools[i] == held(req.tools@[i]));
                assert(is_sent_tool(ts[Seq::<JsonView>::empty().len() + i], tools[i]));
            }
        }
    }
}

/// The choice that is meant by the text of one, if any is: each word has its kind, and a function
/// is a tool by its name.
pub open spec fn meant(tc: Seq<char>) -> Option<Map<Seq<char>, JsonView>> {
    if tc.len() == 0 {
        None
    } else if tc == "auto"@ {
        Some(map!["type"@ => JsonView::Text("auto"@)])
    } else if tc == "none"@ {
        Some(map!["type"@ => JsonView::Text("none"@)])
    } else if tc == "required"@ {
        Some(map!["type"@ => JsonView::Text("any"@)])
    } else {
        Some(
            map![
                "type"@ => JsonView::Text("tool"@),
                "name"@ => named_function(tc)->Some_0,
            ],
        )
    }
}

/// Together with tools, a request says the tool choice, and if calls may not be parallel, it says
/// so in the choice, where nothing was chosen in one that leaves it to the upstream. Without tools
/// it says none.
pub proof fn law_anthropic_tool_choice_is_said(
    req: ResponsesApiRequest,
    model: Seq<char>,
    default_max_tokens: Option<u32>,
    prompt_cache: bool,
)
    ensures
        anthropic_body(req, model, default_max_tokens, prompt_cache) matches Ok(body) ==> body.get(
            "tool_choice"@,
        ) == (if req.tools@.len() == 0 {
            None
        } else if req.parallel_tool_calls {
            match meant(req.tool_choice@) {
                Some(c) => Some(JsonView::Object(c)),
                None => None,
            }
        } else {
            Some(
                JsonView::Object(
                    (match meant(req.tool_choice@) {
                        Some(c) => c,
                        None => map!["type"@ => JsonView::Text("auto"@)],
                    }).insert("disable_parallel_tool_use"@, JsonView::Bool(true)),
                ),
            )
        }),
{
    lemma_anthropic_keys();
    lemma_words();
    assert(held_all(req.tools@).len() == req.tools@.len());
}

/// A request is refused for its first tool definition that is not that of a function; if there is
/// none, for its history; and if that can be sent, for a tool choice that cannot be said together
/// with tools. Otherwise it is not refused.
pub proof fn law_anthropic_requests_are_refused(
    req: ResponsesApiRequest,
    model: Seq<char>,
    default_max_tokens: Option<u32>,
    prompt_cache: bool,
)
    ensures
        ({
            let r = anthropic_body(req, model, default_max_tokens, prompt_cache);
            &&& forall|k: int|
                0 <= k < req.tools@.len() && !defines_function(held(#[trigger] req.tools@[k])) && (
                forall|i: int| 0 <= i < k ==> defines_function(held(#[trigger] req.tools@[i])))
                    ==> r == Err::<JsonView, Seq<char>>(tool_refusal(held(req.tools@[k])))
            &&& (forall|i: int|
                0 <= i < req.tools@.len() ==> defines_function(held(#[trigger] req.tools@[i])))
                ==> (match anthropic_messages(req.input@) {
                Err(reason) => r == Err::<JsonView, Seq<char>>(reason),
                Ok(_) => if req.tools@.len() > 0 && !can_be_said(req.tool_choice@) {
                    r == Err::<JsonView, Seq<char>>(
                        "tool_choice '"@ + req.tool_choice@
                            + "' cannot be expressed in Anthropic Messages protocol"@,
                    )
                } else {
                    r is Ok
                },
            })
        }),
{
    lemma_words();
    let r = anthropic_body(req, model, default_max_tokens, prompt_cache);
    let tools = held_all(req.tools@);
    assert(tools.len() == req.tools@.len());
    lemma_tools_from(Seq::empty(), tools);
    assert forall|k: int|
        0 <= k < req.tools@.len() && !defines_function(held(#[trigger] req.tools@[k])) && (forall|
            i: int,
        |
            0 <= i < k ==> defines_function(held(#[trigger] req.tools@[i]))) implies r == Err::<
        JsonView,
        Seq<char>,
    >(tool_refusal(held(req.tools@[k]))) by {
        assert(tools[k] == held(req.tools@[k]));
        match anthropic_tools_from(Seq::empty(), tools) {
            Ok(_) => {},
            Err(reason) => {
                let j = choose|j: int|
                    0 <= j < tools.len() && !defines_function(#[trigger] tools[j]) && reason
                        == tool_refusal(tools[j]) && forall|i: int|
                        0 <= i < j ==> defines_function(#[trigger] tools[i]);
                assert(tools[j] == held(req.tools@[j]));
                if j < k {
                    assert(defines_function(held(req.tools@[j])));
                } else if k < j {
                    assert(defines_function(tools[k]));
                }
            },
        }
    }
    if forall|i: int| 0 <= i < req.tools@.len() ==> defines_function(held(#[trigger] req.tools@[i])) {
        if let Err(reason) = anthropic_tools_from(Seq::empty(), tools) {
            let j = choose|j: int|
                0 <= j < tools.len() && !defines_function(#[trigger] tools[j]) && reason
                    == tool_refusal(tools[j]) && forall|i: int|
                    0 <= i < j ==> defines_function(#[trigger] tools[i]);
            assert(tools[j] == held(req.tools@[j]));
        }
    }
}

/// A tool choice that is none of the words and not empty is judged by the JSON value that it
/// denotes alone: it can be said if and only if that names a function.
pub proof fn law_tool_choice_is_judged_by_its_value(tc: Seq<char>, v: Option<JsonView>)
    requires
        !is_word(tc),
        tc.len() > 0,
    ensures
        ({
            let name = match v {
                Some(j) => if j.text_at("type"@) == Some("function"@) {
                    j.get("name"@)
                } else {
                    None
                },
                None => None,
            };
            &&& chat_req::choice_given(tc, v) == match name {
                Some(n) => Ok::<Option<JsonView>, Seq<char>>(
                    Some(
                        JsonView::Object(
                            map![
                                "type"@ => JsonView::Text("function"@),
                                "function"@ => JsonView::Object(map!["name"@ => n]),
                            ],
                        ),
                    ),
                ),
                None => Err(
                    "tool_choice '"@ + tc + "' cannot be expressed in Chat Completions protocol"@,
                ),
            }
            &&& choice_given(tc, v) == match name {
                Some(n) => Ok::<Option<JsonView>, Seq<char>>(
                    Some(
                        JsonView::Object(
                            map!["type"@ => JsonView::Text("tool"@), "name"@ => n],
                        ),
                    ),
                ),
                None => Err(
                    "tool_choice '"@ + tc + "' cannot be expressed in Anthropic Messages protocol"@,
                ),
            }
        }),
{
}

/// A word is said as it is to a Chat Completions upstream, and by its kind to an Anthropic Messages
/// upstream, whatever JSON value it may denote. Nothing is said of an empty choice.
pub proof fn law_words_are_said(tc: Seq<char>, v: Option<JsonView>)
    requires
        is_word(tc) || tc.len() == 0,
    ensures
        chat_req::choice_given(tc, v) == Ok::<Option<JsonView>, Seq<char>>(
            if tc.len() == 0 {
                None
            } else {
                Some(JsonView::Text(tc))
            },
        ),
        choice_given(tc, v) == Ok::<Option<JsonView>, Seq<char>>(
            if tc.len() == 0 {
                None
            } else if tc == "required"@ {
                Some(JsonView::Object(map!["type"@ => JsonView::Text("any"@)]))
            } else {
                Some(JsonView::Object(map!["type"@ => JsonView::Text(tc)]))
            },
        ),
{
    lemma_words();
}

} // verus!
