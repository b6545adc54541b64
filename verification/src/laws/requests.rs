//! What holds of whole requests.

use crate::config::{AuthKind, Connector};
use crate::connector::anthropic_req::{
    self, anthropic_body, anthropic_tools, anthropic_tools_from, max_tokens, system_text,
    thinking_budget,
};
use crate::connector::chat_req::{self, chat_body, chat_tools, chat_tools_from};
use crate::connector::{body_of, egress_headers_of, EgressCtx};
use crate::http::headers_for;
use crate::json::{held, held_all, typed, JsonView};
use crate::namespace::{has_namespace_tools, is_function_tool, is_namespaced_call};
use crate::protocol::{effort_of, format_of, ResponseItem, ResponsesApiRequest};
use vstd::prelude::*;

verus! {

// ---- tools that cannot be translated ----

proof fn lemma_chat_tools_refused(done: Seq<JsonView>, tools: Seq<JsonView>, i: int)
    requires
        0 <= i < tools.len(),
        !is_function_tool(tools[i]),
    ensures
        chat_tools_from(done, tools) is Err,
    decreases tools.len(),
{
    if i > 0 {
        if let Ok(t) = chat_req::chat_tool(tools[0]) {
            assert(tools.skip(1)[i - 1] == tools[i]);
            lemma_chat_tools_refused(done.push(t), tools.skip(1), i - 1);
        }
    }
}

proof fn lemma_anthropic_tools_refused(done: Seq<JsonView>, tools: Seq<JsonView>, i: int)
    requires
        0 <= i < tools.len(),
        !is_function_tool(tools[i]),
    ensures
        anthropic_tools_from(done, tools) is Err,
    decreases tools.len(),
{
    if i > 0 {
        if let Ok(t) = anthropic_req::anthropic_tool(tools[0]) {
            assert(tools.skip(1)[i - 1] == tools[i]);
            lemma_anthropic_tools_refused(done.push(t), tools.skip(1), i - 1);
        }
    }
}

proof fn lemma_chat_calls_refused(s: chat_req::Scan, items: Seq<ResponseItem>, i: int)
    requires
        0 <= i < items.len(),
        is_namespaced_call(items[i]),
    ensures
        chat_req::scan_items(s, items) is Err,
    decreases items.len(),
{
    if i > 0 {
        if let Ok(next) = chat_req::scan_item(s, items[0]) {
            assert(items.skip(1)[i - 1] == items[i]);
            lemma_chat_calls_refused(next, items.skip(1), i - 1);
        }
    }
}

proof fn lemma_anthropic_calls_refused(s: anthropic_req::Scan, items: Seq<ResponseItem>, i: int)
    requires
        0 <= i < items.len(),
        is_namespaced_call(items[i]),
    ensures
        anthropic_req::scan_items(s, items) is Err,
    decreases items.len(),
{
    if i > 0 {
        if let Ok(next) = anthropic_req::scan_item(s, items[0]) {
            assert(items.skip(1)[i - 1] == items[i]);
            lemma_anthropic_calls_refused(next, items.skip(1), i - 1);
        }
    }
}

/// A request with tools that cannot be translated is refused by every connector, so that nothing
/// is lost by keeping it off a route that would translate it.
pub proof fn law_untranslatable_requests_are_refused(
    kind: Connector,
    req: ResponsesApiRequest,
    ctx: EgressCtx,
)
    requires
        has_namespace_tools(req),
    ensures
        body_of(kind, req, ctx) is Err,
{
    let tools = held_all(req.tools@);
    if exists|i: int|
        0 <= i < req.tools@.len() && !is_function_tool(held(#[trigger] req.tools@[i])) {
        let i = choose|i: int|
            0 <= i < req.tools@.len() && !is_function_tool(
                held(#[trigger] req.tools@[i]),
            );
        assert(tools[i] == held(req.tools@[i]));
        lemma_chat_tools_refused(Seq::empty(), tools, i);
        lemma_anthropic_tools_refused(Seq::empty(), tools, i);
    } else {
        let i = choose|i: int|
            0 <= i < req.input@.len() && is_namespaced_call(#[trigger] req.input@[i]);
        lemma_chat_calls_refused(chat_req::scan_start(req.instructions@), req.input@, i);
        lemma_anthropic_calls_refused(anthropic_req::scan_start(), req.input@, i);
    }
}

// ---- fields ----

pub(super) proof fn lemma_chat_keys()
    ensures
        "tools"@ != "model"@,
        "tools"@ != "messages"@,
        "tools"@ != "stream"@,
        "tools"@ != "stream_options"@,
        "tools"@ != "parallel_tool_calls"@,
        "tools"@ != "reasoning_effort"@,
        "tools"@ != "response_format"@,
        "tools"@ != "tool_choice"@,
        "tool_choice"@ != "model"@,
        "tool_choice"@ != "messages"@,
        "tool_choice"@ != "stream"@,
        "tool_choice"@ != "stream_options"@,
        "tool_choice"@ != "parallel_tool_calls"@,
        "tool_choice"@ != "reasoning_effort"@,
        "tool_choice"@ != "response_format"@,
        "model"@ != "messages"@,
        "model"@ != "stream"@,
        "model"@ != "stream_options"@,
        "model"@ != "parallel_tool_calls"@,
        "model"@ != "reasoning_effort"@,
        "model"@ != "response_format"@,
        "messages"@ != "stream"@,
        "messages"@ != "stream_options"@,
        "messages"@ != "parallel_tool_calls"@,
        "messages"@ != "reasoning_effort"@,
        "messages"@ != "response_format"@,
        "stream"@ != "stream_options"@,
        "stream"@ != "parallel_tool_calls"@,
        "stream"@ != "reasoning_effort"@,
        "stream"@ != "response_format"@,
        "stream_options"@ != "parallel_tool_calls"@,
        "stream_options"@ != "reasoning_effort"@,
        "stream_options"@ != "response_format"@,
        "parallel_tool_calls"@ != "reasoning_effort"@,
        "parallel_tool_calls"@ != "response_format"@,
        "reasoning_effort"@ != "response_format"@,
{
    reveal_strlit("tools");
    reveal_strlit("tool_choice");
    reveal_strlit("model");
    reveal_strlit("messages");
    reveal_strlit("stream");
    reveal_strlit("stream_options");
    reveal_strlit("parallel_tool_calls");
    reveal_strlit("reasoning_effort");
    reveal_strlit("response_format");
    assert("tools"@.len() == 5 && "model"@.len() == 5 && "tool_choice"@.len() == 11);
    assert("messages"@.len() == 8 && "stream"@.len() == 6 && "stream_options"@.len() == 14);
    assert("parallel_tool_calls"@.len() == 19 && "reasoning_effort"@.len() == 16);
    assert("response_format"@.len() == 15);
    assert("tools"@[0] == 't' && "model"@[0] == 'm');
}

/// Every Chat Completions request streams, asks for token counts and goes to the model that was
/// chosen for it. It has a tool choice only together with tools.
pub proof fn law_chat_request_fields(req: ResponsesApiRequest, model: Seq<char>)
    ensures
        chat_body(req, model) matches Ok(body) ==> {
            &&& body.get("model"@) == Some(JsonView::Text(model))
            &&& body.get("stream"@) == Some(JsonView::Bool(true))
            &&& body.get("stream_options"@) matches Some(o) && o.get("include_usage"@) == Some(
                JsonView::Bool(true),
            )
            &&& body.get("parallel_tool_calls"@) == Some(JsonView::Bool(req.parallel_tool_calls))
            &&& body.get("reasoning_effort"@) == effort_of(req)
            &&& body.get("messages"@) matches Some(ms) && ms is List
            &&& body.get("tools"@) is Some <==> req.tools@.len() > 0
            &&& body.get("tool_choice"@) is Some ==> req.tools@.len() > 0
        },
{
    lemma_chat_keys();
    if let Ok(body) = chat_body(req, model) {
        let tools = chat_tools(held_all(req.tools@));
        assert(held_all(req.tools@).len() == req.tools@.len());
    }
}

/// What a Chat Completions request says depends on these parts of a request and on no others:
/// whether to store, the service tier, the cache key, the metadata of the client, what else to
/// hand out and every other control are left out of it.
pub proof fn law_chat_request_ignores_the_rest(
    a: ResponsesApiRequest,
    b: ResponsesApiRequest,
    model: Seq<char>,
)
    requires
        a.instructions@ == b.instructions@,
        a.input@ == b.input@,
        a.tools@ == b.tools@,
        a.tool_choice@ == b.tool_choice@,
        a.parallel_tool_calls == b.parallel_tool_calls,
        effort_of(a) == effort_of(b),
        format_of(a) == format_of(b),
    ensures
        chat_body(a, model) == chat_body(b, model),
{
}

pub(super) proof fn lemma_anthropic_keys()
    ensures
        "tools"@ != "model"@,
        "tools"@ != "messages"@,
        "tools"@ != "max_tokens"@,
        "tools"@ != "stream"@,
        "tools"@ != "system"@,
        "tools"@ != "tool_choice"@,
        "tools"@ != "thinking"@,
        "tools"@ != "cache_control"@,
        "tool_choice"@ != "model"@,
        "tool_choice"@ != "messages"@,
        "tool_choice"@ != "max_tokens"@,
        "tool_choice"@ != "stream"@,
        "tool_choice"@ != "system"@,
        "tool_choice"@ != "thinking"@,
        "tool_choice"@ != "cache_control"@,
        "model"@ != "messages"@,
        "model"@ != "max_tokens"@,
        "model"@ != "stream"@,
        "model"@ != "system"@,
        "model"@ != "thinking"@,
        "model"@ != "cache_control"@,
        "messages"@ != "max_tokens"@,
        "messages"@ != "stream"@,
        "messages"@ != "system"@,
        "messages"@ != "thinking"@,
        "messages"@ != "cache_control"@,
        "max_tokens"@ != "stream"@,
        "max_tokens"@ != "system"@,
        "max_tokens"@ != "thinking"@,
        "max_tokens"@ != "cache_control"@,
        "stream"@ != "system"@,
        "stream"@ != "thinking"@,
        "stream"@ != "cache_control"@,
        "system"@ != "thinking"@,
        "system"@ != "cache_control"@,
        "thinking"@ != "cache_control"@,
{
    reveal_strlit("tools");
    reveal_strlit("tool_choice");
    reveal_strlit("model");
    reveal_strlit("messages");
    reveal_strlit("max_tokens");
    reveal_strlit("stream");
    reveal_strlit("system");
    reveal_strlit("thinking");
    reveal_strlit("cache_control");
    assert("tools"@.len() == 5 && "model"@.len() == 5 && "tool_choice"@.len() == 11);
    assert("messages"@.len() == 8 && "thinking"@.len() == 8 && "max_tokens"@.len() == 10);
    assert("stream"@.len() == 6 && "system"@.len() == 6 && "cache_control"@.len() == 13);
    assert("tools"@[0] == 't' && "model"@[0] == 'm');
    assert("messages"@[0] == 'm' && "thinking"@[0] == 't');
    assert("stream"@[1] == 't' && "system"@[1] == 'y');
}

/// Every Anthropic Messages request streams, goes to the model that was chosen for it and says how
/// many tokens a response may have. It has a tool choice only together with tools, and asks for
/// caching if and only if that is switched on.
pub proof fn law_anthropic_request_fields(
    req: ResponsesApiRequest,
    model: Seq<char>,
    default_max_tokens: Option<u32>,
    prompt_cache: bool,
)
    ensures
        anthropic_body(req, model, default_max_tokens, prompt_cache) matches Ok(body) ==> {
            &&& body.get("model"@) == Some(JsonView::Text(model))
            &&& body.get("stream"@) == Some(JsonView::Bool(true))
            &&& body.get("max_tokens"@) == Some(
                JsonView::Int(max_tokens(default_max_tokens) as int),
            )
            &&& body.get("messages"@) matches Some(ms) && ms is List
            &&& body.text_at("system"@) == system_text(
                req.instructions@,
                format_of(req),
            )
            &&& body.get("tools"@) is Some <==> req.tools@.len() > 0
            &&& body.get("tool_choice"@) is Some ==> req.tools@.len() > 0
            &&& body.get("cache_control"@) == if prompt_cache {
                Some(typed("ephemeral"@))
            } else {
                None
            }
        },
{
    lemma_anthropic_keys();
    if let Ok(body) = anthropic_body(req, model, default_max_tokens, prompt_cache) {
        let tools = anthropic_tools(held_all(req.tools@));
        assert(held_all(req.tools@).len() == req.tools@.len());
    }
}

/// What an Anthropic Messages request says depends on these parts of a request and on no others.
/// Of the reasoning effort only counts whether there is one.
pub proof fn law_anthropic_request_ignores_the_rest(
    a: ResponsesApiRequest,
    b: ResponsesApiRequest,
    model: Seq<char>,
    default_max_tokens: Option<u32>,
    prompt_cache: bool,
)
    requires
        a.instructions@ == b.instructions@,
        a.input@ == b.input@,
        a.tools@ == b.tools@,
        a.tool_choice@ == b.tool_choice@,
        a.parallel_tool_calls == b.parallel_tool_calls,
        effort_of(a) is Some <==> effort_of(b) is Some,
        format_of(a) == format_of(b),
    ensures
        anthropic_body(a, model, default_max_tokens, prompt_cache) == anthropic_body(
            b,
            model,
            default_max_tokens,
            prompt_cache,
        ),
{
}

/// An upstream may always think for a while, but never for more than a fixed number of tokens.
pub proof fn law_thinking_is_bounded(max_tokens: u32)
    ensures
        1024 <= thinking_budget(max_tokens) <= 8000,
        2048 <= max_tokens ==> 2 * thinking_budget(max_tokens) <= max_tokens,
{
}

// ---- headers ----

/// A key is sent in one way only: as a bearer token, or as a key of its own together with a
/// version. Either way the headers say that the body is JSON.
pub proof fn law_keys_are_sent_in_one_way(
    auth: AuthKind,
    key: Option<Seq<char>>,
    anthropic_version: Option<Seq<char>>,
)
    ensures
        headers_for(auth, key, anthropic_version) matches Ok(h) ==> {
            &&& key is Some
            &&& h.contains_key("content-type"@)
            &&& h.contains_key("authorization"@) <==> auth == AuthKind::Bearer
            &&& h.contains_key("x-api-key"@) <==> auth == AuthKind::XApiKey
            &&& h.contains_key("anthropic-version"@) <==> auth == AuthKind::XApiKey
        },
        key is None ==> headers_for(auth, key, anthropic_version) is Err,
{
    reveal_strlit("content-type");
    reveal_strlit("authorization");
    reveal_strlit("x-api-key");
    reveal_strlit("anthropic-version");
    assert("content-type"@.len() == 12 && "authorization"@.len() == 13);
    assert("x-api-key"@.len() == 9 && "anthropic-version"@.len() == 17);
}

/// What the client lends is used only where the provider has no key and the key would be sent as a
/// bearer token; a key of the provider is never mixed with it.
pub proof fn law_lent_headers_are_a_last_resort(
    ctx: EgressCtx,
    anthropic_version: Option<Seq<char>>,
    lent: Option<Map<Seq<char>, Seq<Seq<u8>>>>,
)
    requires
        ctx.key is Some || ctx.auth == AuthKind::XApiKey,
    ensures
        egress_headers_of(ctx, anthropic_version, lent) == egress_headers_of(
            ctx,
            anthropic_version,
            None,
        ),
{
}

} // verus!
