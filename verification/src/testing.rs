//! Samples and shortcuts for tests.

use crate::config::AuthKind;
use crate::connector::anthropic_req::{anthropic_body, build_anthropic_request};
use crate::connector::anthropic_sse::{
    anthropic_start, translate_anthropic_sse, AnthropicSseState,
};
use crate::connector::chat_req::{build_chat_request, chat_body};
use crate::connector::chat_sse::{chat_start, translate_chat_sse, ChatSseState};
use crate::connector::{builds, push_yields, translated, ConnError, EgressCtx};
use crate::http::{
    build_headers, empty_headers, header_text, header_values, no_headers, with_header,
    with_json_type,
};
use crate::json::held_all;
use crate::protocol::{ResponseEvent, ResponsesApiRequest};
use reqwest::header::{HeaderMap, HeaderValue};
use serde_json::Value;
use vstd::prelude::*;
use vstd::string::*;

verus! {

/// Whether a request is as small as it can be.
pub open spec fn is_sample_request(r: ResponsesApiRequest) -> bool {
    &&& r.model@ == "test"@
    &&& r.instructions@ == Seq::<char>::empty()
    &&& r.input@.len() == 0
    &&& r.tools@.len() == 0
    &&& r.tool_choice@ == "auto"@
    &&& r.parallel_tool_calls
    &&& r.reasoning is None
    &&& !r.store
    &&& r.stream
    &&& r.includes@.len() == 0
    &&& r.service_tier is None
    &&& r.prompt_cache_key is None
    &&& r.text is None
    &&& r.client_metadata is None
}

/// A request that is as small as it can be.
pub fn sample_request() -> (r: ResponsesApiRequest)
    ensures
        is_sample_request(r),
{
    let r = ResponsesApiRequest {
        model: "test".to_owned(),
        instructions: String::new(),
        input: Vec::new(),
        tools: Vec::new(),
        tool_choice: "auto".to_owned(),
        parallel_tool_calls: true,
        reasoning: None,
        store: false,
        stream: true,
        includes: Vec::new(),
        service_tier: None,
        prompt_cache_key: None,
        text: None,
        client_metadata: None,
    };
    assert(r.instructions@ =~= Seq::<char>::empty());
    r
}

/// Settings for a Chat Completions upstream.
pub fn dummy_ctx(model: &str) -> (r: EgressCtx)
    ensures
        r.base_url@ == "https://api.example.com"@,
        r.model@ == model@,
        r.auth == AuthKind::Bearer,
        r.key matches Some(k) && k@ == "test-key"@,
        r.anthropic_version is None,
        r.path_override is None,
        r.default_max_tokens is None,
        !r.prompt_cache,
{
    EgressCtx {
        base_url: "https://api.example.com".to_owned(),
        model: model.to_owned(),
        auth: AuthKind::Bearer,
        key: Some("test-key".to_owned()),
        anthropic_version: None,
        path_override: None,
        default_max_tokens: None,
        prompt_cache: false,
    }
}

/// Settings for an Anthropic Messages upstream.
pub fn dummy_ctx_anthropic(model: &str, default_max_tokens: Option<u32>) -> (r: EgressCtx)
    ensures
        r.base_url@ == "https://api.anthropic.com"@,
        r.model@ == model@,
        r.auth == AuthKind::XApiKey,
        r.key matches Some(k) && k@ == "test-key"@,
        r.anthropic_version matches Some(v) && v@ == "2023-06-01"@,
        r.path_override is None,
        r.default_max_tokens == default_max_tokens,
        !r.prompt_cache,
{
    EgressCtx {
        base_url: "https://api.anthropic.com".to_owned(),
        model: model.to_owned(),
        auth: AuthKind::XApiKey,
        key: Some("test-key".to_owned()),
        anthropic_version: Some("2023-06-01".to_owned()),
        path_override: None,
        default_max_tokens,
        prompt_cache: false,
    }
}

/// Builds the body of a Chat Completions request.
pub fn build_chat_request_for_test(req: &ResponsesApiRequest, ctx: &EgressCtx) -> (r: Result<
    Value,
    ConnError,
>)
    ensures
        builds(r, chat_body(*req, ctx.model@)),
{
    build_chat_request(req, ctx)
}

/// Builds the body of an Anthropic Messages request.
pub fn build_anthropic_request_for_test(req: &ResponsesApiRequest, ctx: &EgressCtx) -> (r: Result<
    Value,
    ConnError,
>)
    ensures
        builds(r, anthropic_body(*req, ctx.model@, ctx.default_max_tokens, ctx.prompt_cache)),
{
    build_anthropic_request(req, ctx)
}

/// Runs all records of a Chat Completions stream, and its end if `done` says so.
pub fn translate_chat_sse_for_test(chunks: &[Value], done: bool) -> (r: Result<
    Vec<ResponseEvent>,
    ConnError,
>)
    ensures
        push_yields(r, translated::<ChatSseState>(chat_start(), held_all(chunks@), done)),
{
    translate_chat_sse(chunks, done)
}

/// Runs all events of an Anthropic Messages stream, and its end if `done` says so.
pub fn translate_anthropic_sse_for_test(events: &[Value], done: bool) -> (r: Result<
    Vec<ResponseEvent>,
    ConnError,
>)
    ensures
        push_yields(
            r,
            translated::<AnthropicSseState>(anthropic_start(), held_all(events@), done),
        ),
{
    translate_anthropic_sse(events, done)
}

/// A translator at the start of a Chat Completions stream.
pub fn chat_translator() -> (r: ChatSseState)
    ensures
        r.view() == chat_start(),
{
    ChatSseState::new()
}

/// The headers that carry a sample key.
pub fn dummy_headers() -> (r: HeaderMap<HeaderValue>)
    ensures
        header_values(r) == with_json_type(
            with_header(empty_headers(), "authorization"@, "Bearer testkey"@),
        ),
{
    proof {
        reveal_strlit("Bearer ");
        reveal_strlit("testkey");
        reveal_strlit("Bearer testkey");
        assert("Bearer "@ + "testkey"@ =~= "Bearer testkey"@);
        assert(header_text("Bearer testkey"@));
    }
    match build_headers(AuthKind::Bearer, Some("testkey"), None) {
        Ok(h) => h,
        Err(_) => no_headers(),
    }
}

} // verus!
