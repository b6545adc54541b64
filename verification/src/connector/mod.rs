//! Connectors: what is sent to an upstream, and how its stream is read.

use crate::config::{AuthKind, Connector as ConnectorKind};
use crate::http::{
    build_headers, egress_url, has_room, header_values, headers_for, http_message, put_json_type,
    url_of, with_json_type,
};
use crate::json::{held, held_all, held_opt, JsonView};
use crate::protocol::{
    api_words, events_view, message_done, ApiError, ApiErrorView, EventView, ResponseEvent, ResponseItem,
    ResponsesApiRequest,
};
use crate::text::{join, opt_text};
use reqwest::header::{HeaderMap, HeaderValue};
use serde_json::Value;
use vstd::prelude::*;
use vstd::string::*;

pub mod anthropic;
pub mod anthropic_req;
pub mod anthropic_sse;
pub mod chat;
pub mod chat_req;
pub mod chat_sse;
pub mod content;
pub mod reorder;

verus! {

/// Why a connector gives up.
#[derive(Debug)]
pub enum ConnError {
    /// The target protocol cannot express what was asked.
    HardFail(String),
    /// The exchange with the upstream failed.
    Http(ApiError),
}

impl ConnError {
    /// Whether this is a hard failure with the given reason.
    pub open spec fn hard_fails(self, reason: Seq<char>) -> bool {
        self matches ConnError::HardFail(m) && m@ == reason
    }

    /// The error in words. A failed exchange speaks for itself.
    pub fn message(&self) -> (r: String)
        ensures
            r@ == (match *self {
                ConnError::HardFail(reason) => "llm-switch unsupported: "@ + reason@,
                ConnError::Http(e) => api_words(e@),
            }),
    {
        match self {
            ConnError::HardFail(reason) => join("llm-switch unsupported: ", reason.as_str()),
            ConnError::Http(e) => e.message(),
        }
    }
}

impl vstd::std_specs::convert::FromSpecImpl<ConnError> for ApiError {
    open spec fn obeys_from_spec() -> bool {
        true
    }

    open spec fn from_spec(e: ConnError) -> ApiError {
        match e {
            ConnError::Http(api) => api,
            ConnError::HardFail(message) => ApiError::InvalidRequest { message },
        }
    }
}

impl From<ConnError> for ApiError {
    fn from(e: ConnError) -> (r: ApiError) {
        match e {
            ConnError::Http(api) => api,
            ConnError::HardFail(message) => ApiError::InvalidRequest { message },
        }
    }
}

/// Where a request goes and with what settings.
#[derive(Debug)]
pub struct EgressCtx {
    pub base_url: String,
    pub model: String,
    pub auth: AuthKind,
    pub key: Option<String>,
    pub anthropic_version: Option<String>,
    pub path_override: Option<String>,
    pub default_max_tokens: Option<u32>,
    /// Ask an Anthropic upstream to cache the prompt.
    pub prompt_cache: bool,
}

/// A state machine that turns the JSON records of an upstream stream into response events.
///
/// `Model` is its state as a mathematical value. `pushed` says what one record does to it and
/// which events it yields, or with which reason it fails; `finished` says the same of the end of
/// the stream.
pub trait SseTranslator: Sized {
    type Model;

    spec fn model(&self) -> Self::Model;

    spec fn pushed(m: Self::Model, data: JsonView) -> (Self::Model, Result<
        Seq<EventView>,
        Seq<char>,
    >);

    spec fn finished(m: Self::Model) -> (Self::Model, Seq<EventView>);

    /// Takes one record.
    fn push(&mut self, data: &Value) -> (r: Result<Vec<ResponseEvent>, ConnError>)
        ensures
            final(self).model() == Self::pushed(old(self).model(), held(*data)).0,
            push_yields(r, Self::pushed(old(self).model(), held(*data)).1),
    ;

    /// Ends the stream.
    fn finish(&mut self) -> (r: Vec<ResponseEvent>)
        ensures
            final(self).model() == Self::finished(old(self).model()).0,
            events_view(r@) == Self::finished(old(self).model()).1,
    ;
}

/// Whether a translator returned these events, or failed hard with this reason.
pub open spec fn push_yields(
    r: Result<Vec<ResponseEvent>, ConnError>,
    want: Result<Seq<EventView>, Seq<char>>,
) -> bool {
    match (r, want) {
        (Ok(events), Ok(seen)) => events_view(events@) == seen,
        (Err(e), Err(reason)) => e.hard_fails(reason),
        _ => false,
    }
}

/// What a translator does with some records, one after the other, up to the first that fails.
pub open spec fn pushed_all<T: SseTranslator>(m: T::Model, data: Seq<JsonView>) -> (
    T::Model,
    Result<Seq<EventView>, Seq<char>>,
)
    decreases data.len(),
{
    if data.len() == 0 {
        (m, Ok(Seq::empty()))
    } else {
        let (m1, before) = pushed_all::<T>(m, data.drop_last());
        match before {
            Err(reason) => (m1, Err(reason)),
            Ok(events) => {
                let (m2, now) = T::pushed(m1, data.last());
                match now {
                    Err(reason) => (m2, Err(reason)),
                    Ok(more) => (m2, Ok(events + more)),
                }
            },
        }
    }
}

/// What a translator makes of some records, with the end of the stream behind them or without.
pub open spec fn translated<T: SseTranslator>(m: T::Model, data: Seq<JsonView>, done: bool) -> Result<
    Seq<EventView>,
    Seq<char>,
> {
    let (after, r) = pushed_all::<T>(m, data);
    match r {
        Err(reason) => Err(reason),
        Ok(events) => Ok(
            if done {
                events + T::finished(after).1
            } else {
                events
            },
        ),
    }
}

/// A failure stays, whatever records follow.
pub(crate) proof fn lemma_failure_stays<T: SseTranslator>(m: T::Model, data: Seq<JsonView>, n: int)
    requires
        0 <= n <= data.len(),
        pushed_all::<T>(m, data.take(n)).1 is Err,
    ensures
        pushed_all::<T>(m, data) == pushed_all::<T>(m, data.take(n)),
    decreases data.len() - n,
{
    if n == data.len() {
        assert(data.take(n) =~= data);
    } else {
        assert(data.take(n + 1).drop_last() =~= data.take(n));
        lemma_failure_stays::<T>(m, data, n + 1);
    }
}

/// Runs a translator over some records, and ends the stream if `done` says so.
pub(crate) fn translate_all<T: SseTranslator>(state: T, data: &[Value], done: bool) -> (r: Result<
    Vec<ResponseEvent>,
    ConnError,
>)
    ensures
        push_yields(r, translated::<T>(state.model(), held_all(data@), done)),
{
    let mut st: T = state;
    let mut out: Vec<ResponseEvent> = Vec::new();
    let ghost records = held_all(data@);
    assert(events_view(out@) =~= Seq::empty());
    let mut i: usize = 0;
    while i < data.len()
        invariant
            i <= data@.len(),
            records == held_all(data@),
            pushed_all::<T>(state.model(), records.take(i as int)) == (
                st.model(),
                Ok::<Seq<EventView>, Seq<char>>(events_view(out@)),
            ),
        decreases data.len() - i,
    {
        assert(records.take(i + 1).drop_last() =~= records.take(i as int));
        assert(records.take(i + 1).last() == held(data@[i as int]));
        let ghost before = out@;
        match st.push(&data[i]) {
            Ok(events) => {
                let mut more: Vec<ResponseEvent> = events;
                let ghost new = more@;
                out.append(&mut more);
                assert(events_view(out@) =~= events_view(before) + events_view(new));
            },
            Err(e) => {
                proof {
                    lemma_failure_stays::<T>(state.model(), records, i + 1);
                }
                return Err(e);
            },
        }
        i += 1;
    }
    assert(records.take(records.len() as int) =~= records);
    if done {
        let ghost before = out@;
        let mut more: Vec<ResponseEvent> = st.finish();
        let ghost new = more@;
        out.append(&mut more);
        assert(events_view(out@) =~= events_view(before) + events_view(new));
    }
    Ok(out)
}

/// The later value where there is one, else the earlier.
pub open spec fn latest<T>(new: Option<T>, before: Option<T>) -> Option<T> {
    match new {
        Some(_) => new,
        None => before,
    }
}

/// The completed message, if there is text.
pub open spec fn text_done(text: Seq<char>) -> Seq<EventView> {
    if text.len() > 0 {
        seq![message_done(text)]
    } else {
        Seq::empty()
    }
}

// ---- what is sent ----

/// What is sent to an upstream.
#[derive(Debug)]
pub struct Outgoing {
    pub url: String,
    pub headers: HeaderMap<HeaderValue>,
    pub body: Value,
}

/// What is sent to an upstream, with texts as sequences.
pub struct OutgoingView {
    pub url: Seq<char>,
    pub headers: Map<Seq<char>, Seq<Seq<u8>>>,
    pub body: JsonView,
}

impl View for Outgoing {
    type V = OutgoingView;

    open spec fn view(&self) -> OutgoingView {
        OutgoingView {
            url: self.url@,
            headers: header_values(self.headers),
            body: held(self.body),
        }
    }
}

/// Whether the headers are to come from the client: there is no key, and the key would be sent as
/// the client sends its own.
pub open spec fn lacks_bearer(ctx: EgressCtx) -> bool {
    ctx.key is None && ctx.auth == AuthKind::Bearer
}

/// Whether the headers are to come from the client.
pub fn borrows_auth(ctx: &EgressCtx) -> (r: bool)
    ensures
        r == lacks_bearer(*ctx),
{
    ctx.key.is_none() && ctx.auth == AuthKind::Bearer
}

/// The headers of a request, or why there are none. `lent` are the headers with which the client
/// would authenticate itself, where it lends them.
pub open spec fn egress_headers_of(
    ctx: EgressCtx,
    anthropic_version: Option<Seq<char>>,
    lent: Option<Map<Seq<char>, Seq<Seq<u8>>>>,
) -> Result<Map<Seq<char>, Seq<Seq<u8>>>, Seq<char>> {
    match ctx.key {
        Some(key) => match headers_for(ctx.auth, Some(key@), anthropic_version) {
            Ok(h) => Ok(h),
            Err(e) => Err(http_message(e)),
        },
        None => match (ctx.auth, lent) {
            (AuthKind::Bearer, Some(h)) => Ok(with_json_type(h)),
            _ => Err("missing API key (set key_env or auth_key)"@),
        },
    }
}

/// What a lent header map holds.
pub open spec fn lent_values(lent: Option<HeaderMap<HeaderValue>>) -> Option<
    Map<Seq<char>, Seq<Seq<u8>>>,
> {
    match lent {
        Some(h) => Some(header_values(h)),
        None => None,
    }
}

/// Whether what the client lends may be too much for one more name: it is used, and has no room
/// that is granted without fail.
pub open spec fn may_overflow(ctx: EgressCtx, lent: Option<HeaderMap<HeaderValue>>) -> bool {
    &&& lacks_bearer(ctx)
    &&& lent matches Some(h) && !has_room(header_values(h))
}

/// The headers of a request: with the key of the provider where it has one, else with those that
/// the client lends where the key would be sent as the client sends its own. There is no answer
/// only where the client lends more than the outside crate can hold, see [`may_overflow`].
pub fn egress_headers(
    ctx: &EgressCtx,
    anthropic_version: Option<&str>,
    lent: Option<HeaderMap<HeaderValue>>,
) -> (r: Option<Result<HeaderMap<HeaderValue>, ApiError>>)
    ensures
        match (
            r,
            egress_headers_of(
                *ctx,
                match anthropic_version {
                    Some(v) => Some(v@),
                    None => None,
                },
                lent_values(lent),
            ),
        ) {
            (None, _) => may_overflow(*ctx, lent),
            (Some(Ok(h)), Ok(m)) => header_values(h) == m,
            (Some(Err(e)), Err(message)) => e@ == (ApiErrorView::InvalidRequest { message }),
            _ => false,
        },
{
    if let Some(key) = &ctx.key {
        return match build_headers(ctx.auth, Some(key.as_str()), anthropic_version) {
            Ok(h) => Some(Ok(h)),
            Err(e) => Some(Err(ApiError::InvalidRequest { message: e.message() })),
        };
    }
    match (ctx.auth, lent) {
        (AuthKind::Bearer, Some(lent)) => {
            let mut h: HeaderMap<HeaderValue> = lent;
            if put_json_type(&mut h) {
                Some(Ok(h))
            } else {
                None
            }
        },
        _ => Some(
            Err(
                ApiError::InvalidRequest {
                    message: "missing API key (set key_env or auth_key)".to_owned(),
                },
            ),
        ),
    }
}

/// The body of a request in the protocol of its upstream.
pub open spec fn body_of(kind: ConnectorKind, req: ResponsesApiRequest, ctx: EgressCtx) -> Result<
    JsonView,
    Seq<char>,
> {
    match kind {
        ConnectorKind::Chat => chat_req::chat_body(req, ctx.model@),
        ConnectorKind::Anthropic => anthropic_req::anthropic_body(
            req,
            ctx.model@,
            ctx.default_max_tokens,
            ctx.prompt_cache,
        ),
    }
}

/// The version header that a protocol asks for: only one of them has versions.
pub open spec fn version_asked(kind: ConnectorKind, ctx: EgressCtx) -> Option<Seq<char>> {
    match kind {
        ConnectorKind::Chat => None,
        ConnectorKind::Anthropic => opt_text(ctx.anthropic_version),
    }
}

/// A body with the address and the headers of its upstream, or why there are none.
pub open spec fn addressed(
    kind: ConnectorKind,
    ctx: EgressCtx,
    body: JsonView,
    lent: Option<Map<Seq<char>, Seq<Seq<u8>>>>,
) -> Result<OutgoingView, Seq<char>> {
    match egress_headers_of(ctx, version_asked(kind, ctx), lent) {
        Err(reason) => Err(reason),
        Ok(headers) => Ok(
            OutgoingView {
                url: url_of(ctx.base_url@, kind, opt_text(ctx.path_override)),
                headers,
                body,
            },
        ),
    }
}

/// What is sent to an upstream, or why nothing is. The body is looked at before the headers.
pub open spec fn outgoing(
    kind: ConnectorKind,
    req: ResponsesApiRequest,
    ctx: EgressCtx,
    lent: Option<Map<Seq<char>, Seq<Seq<u8>>>>,
) -> Result<OutgoingView, Seq<char>> {
    match body_of(kind, req, ctx) {
        Err(reason) => Err(reason),
        Ok(body) => addressed(kind, ctx, body, lent),
    }
}

/// Whether a function returned this request, or refused with this reason.
pub open spec fn sends(
    r: Result<Outgoing, ApiError>,
    want: Result<OutgoingView, Seq<char>>,
) -> bool {
    match (r, want) {
        (Ok(o), Ok(v)) => o@ == v,
        (Err(e), Err(message)) => e@ == (ApiErrorView::InvalidRequest { message }),
        _ => false,
    }
}

/// Gives a body the address and the headers of its upstream. `lent` are the headers with which the
/// client would authenticate itself, where it lends them. There is no answer only where it lends
/// more than the outside crate can hold, see [`may_overflow`].
pub fn address(
    kind: ConnectorKind,
    ctx: &EgressCtx,
    body: Value,
    lent: Option<HeaderMap<HeaderValue>>,
) -> (r: Option<Result<Outgoing, ApiError>>)
    ensures
        match r {
            None => may_overflow(*ctx, lent),
            Some(o) => sends(o, addressed(kind, *ctx, held(body), lent_values(lent))),
        },
{
    let url: String = egress_url(ctx.base_url.as_str(), kind, borrowed(&ctx.path_override));
    let version: Option<&str> = match kind {
        ConnectorKind::Chat => None,
        ConnectorKind::Anthropic => borrowed(&ctx.anthropic_version),
    };
    match egress_headers(ctx, version, lent) {
        None => None,
        Some(Ok(headers)) => Some(Ok(Outgoing { url, headers, body })),
        Some(Err(e)) => Some(Err(e)),
    }
}

/// What builds requests in the protocol of an upstream.
pub trait Connector: Send + Sync {
    spec fn speaks(&self) -> ConnectorKind;

    /// The protocol that it builds requests in.
    fn kind(&self) -> (r: ConnectorKind)
        ensures
            r == self.speaks(),
    ;

    /// Builds the body of a request.
    fn body(&self, req: &ResponsesApiRequest, ctx: &EgressCtx) -> (r: Result<Value, ApiError>)
        ensures
            match (r, body_of(self.speaks(), *req, *ctx)) {
                (Ok(v), Ok(j)) => held(v) == j,
                (Err(e), Err(message)) => e@ == (ApiErrorView::InvalidRequest { message }),
                _ => false,
            },
    ;
}

/// One of the connectors.
#[derive(Debug)]
pub enum AnyConnector {
    Chat(chat::ChatConnector),
    Anthropic(anthropic::AnthropicConnector),
}

impl Connector for AnyConnector {
    open spec fn speaks(&self) -> ConnectorKind {
        match *self {
            AnyConnector::Chat(c) => c.speaks(),
            AnyConnector::Anthropic(c) => c.speaks(),
        }
    }

    fn kind(&self) -> (r: ConnectorKind) {
        match self {
            AnyConnector::Chat(c) => c.kind(),
            AnyConnector::Anthropic(c) => c.kind(),
        }
    }

    fn body(&self, req: &ResponsesApiRequest, ctx: &EgressCtx) -> (r: Result<Value, ApiError>) {
        match self {
            AnyConnector::Chat(c) => c.body(req, ctx),
            AnyConnector::Anthropic(c) => c.body(req, ctx),
        }
    }
}

/// The connector of a protocol.
pub fn make_connector(kind: ConnectorKind) -> (r: AnyConnector)
    ensures
        r.speaks() == kind,
{
    match kind {
        ConnectorKind::Chat => AnyConnector::Chat(chat::ChatConnector),
        ConnectorKind::Anthropic => AnyConnector::Anthropic(anthropic::AnthropicConnector),
    }
}

/// Builds the request to the upstream. `lent` are the headers with which the client would
/// authenticate itself, where it lends them. There is no answer only where the body can be built
/// and the client lends more than the outside crate can hold, see [`may_overflow`].
pub fn prepare<C: Connector>(
    connector: &C,
    req: &ResponsesApiRequest,
    ctx: &EgressCtx,
    lent: Option<HeaderMap<HeaderValue>>,
) -> (r: Option<Result<Outgoing, ApiError>>)
    ensures
        match r {
            None => may_overflow(*ctx, lent) && body_of(connector.speaks(), *req, *ctx) is Ok,
            Some(o) => sends(o, outgoing(connector.speaks(), *req, *ctx, lent_values(lent))),
        },
{
    match connector.body(req, ctx) {
        Ok(body) => address(connector.kind(), ctx, body, lent),
        Err(e) => Some(Err(e)),
    }
}

/// A borrowed optional text.
fn borrowed(s: &Option<String>) -> (r: Option<&str>)
    ensures
        opt_text(*s) == (match r {
            Some(t) => Some(t@),
            None => None,
        }),
{
    match s {
        Some(t) => Some(t.as_str()),
        None => None,
    }
}

// ---- synthesised identifiers ----

/// The counter after `n`, which starts again at zero past the greatest.
pub open spec fn next_count(n: u64) -> u64 {
    if n == u64::MAX {
        0
    } else {
        (n + 1) as u64
    }
}

/// The identifier that stands in for one that the upstream left out.
pub open spec fn synth_name(kind: Seq<char>, n: u64) -> Seq<char> {
    "llmswitch-"@ + kind + "-"@ + crate::text::decimal(n as nat)
}

/// The identifier that stands in for one that the upstream left out.
pub(crate) fn synth_text(kind: &str, n: u64) -> (r: String)
    ensures
        r@ == synth_name(kind@, n),
{
    let head: String = crate::text::join3("llmswitch-", kind, "-");
    crate::text::join(head.as_str(), crate::text::decimal_text(n).as_str())
}

// ---- requests ----

/// Whether a builder returned this JSON, or failed hard with this reason.
pub open spec fn builds(r: Result<Value, ConnError>, want: Result<JsonView, Seq<char>>) -> bool {
    match (r, want) {
        (Ok(v), Ok(j)) => held(v) == j,
        (Err(e), Err(reason)) => e.hard_fails(reason),
        _ => false,
    }
}

/// Whether a function returned this text, or failed hard with this reason.
pub open spec fn spells(r: Result<String, ConnError>, want: Result<Seq<char>, Seq<char>>) -> bool {
    match (r, want) {
        (Ok(s), Ok(t)) => s@ == t,
        (Err(e), Err(reason)) => e.hard_fails(reason),
        _ => false,
    }
}

/// Whether a function returned this choice, or failed hard with this reason.
pub open spec fn chooses(
    r: Result<Option<Value>, ConnError>,
    want: Result<Option<JsonView>, Seq<char>>,
) -> bool {
    match (r, want) {
        (Ok(v), Ok(j)) => held_opt(v) == j,
        (Err(e), Err(reason)) => e.hard_fails(reason),
        _ => false,
    }
}

// ---- items ----

/// The name of an item's variant.
pub open spec fn variant(item: ResponseItem) -> Seq<char> {
    match item {
        ResponseItem::Message { .. } => "Message"@,
        ResponseItem::AgentMessage { .. } => "AgentMessage"@,
        ResponseItem::Reasoning { .. } => "Reasoning"@,
        ResponseItem::LocalShellCall { .. } => "LocalShellCall"@,
        ResponseItem::FunctionCall { .. } => "FunctionCall"@,
        ResponseItem::ToolSearchCall { .. } => "ToolSearchCall"@,
        ResponseItem::FunctionCallOutput { .. } => "FunctionCallOutput"@,
        ResponseItem::CustomToolCall { .. } => "CustomToolCall"@,
        ResponseItem::CustomToolCallOutput { .. } => "CustomToolCallOutput"@,
        ResponseItem::ToolSearchOutput { .. } => "ToolSearchOutput"@,
        ResponseItem::WebSearchCall { .. } => "WebSearchCall"@,
        ResponseItem::ImageGenerationCall { .. } => "ImageGenerationCall"@,
        ResponseItem::Compaction { .. } => "Compaction"@,
        ResponseItem::CompactionTrigger { .. } => "CompactionTrigger"@,
        ResponseItem::ContextCompaction { .. } => "ContextCompaction"@,
        ResponseItem::Other => "Other"@,
    }
}

/// The name of an item's variant.
pub fn variant_name(item: &ResponseItem) -> (r: &'static str)
    ensures
        r@ == variant(*item),
{
    match item {
        ResponseItem::Message { .. } => "Message",
        ResponseItem::AgentMessage { .. } => "AgentMessage",
        ResponseItem::Reasoning { .. } => "Reasoning",
        ResponseItem::LocalShellCall { .. } => "LocalShellCall",
        ResponseItem::FunctionCall { .. } => "FunctionCall",
        ResponseItem::ToolSearchCall { .. } => "ToolSearchCall",
        ResponseItem::FunctionCallOutput { .. } => "FunctionCallOutput",
        ResponseItem::CustomToolCall { .. } => "CustomToolCall",
        ResponseItem::CustomToolCallOutput { .. } => "CustomToolCallOutput",
        ResponseItem::ToolSearchOutput { .. } => "ToolSearchOutput",
        ResponseItem::WebSearchCall { .. } => "WebSearchCall",
        ResponseItem::ImageGenerationCall { .. } => "ImageGenerationCall",
        ResponseItem::Compaction { .. } => "Compaction",
        ResponseItem::CompactionTrigger { .. } => "CompactionTrigger",
        ResponseItem::ContextCompaction { .. } => "ContextCompaction",
        ResponseItem::Other => "Other",
    }
}

} // verus!
