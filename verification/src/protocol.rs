//! The Responses protocol as the switch sees it: the request that a client wants to send, the
//! items of its history, and the events that it expects back.

use crate::json::{held_opt, JsonView};
use crate::text::opt_text;
use serde_json::Value;
use vstd::prelude::*;

verus! {

// ---- request ----

/// A request in the Responses protocol.
#[derive(Debug)]
pub struct ResponsesApiRequest {
    pub model: String,
    pub instructions: String,
    pub input: Vec<ResponseItem>,
    /// Tool definitions in their wire form.
    pub tools: Vec<Value>,
    pub tool_choice: String,
    pub parallel_tool_calls: bool,
    pub reasoning: Option<Reasoning>,
    pub store: bool,
    pub stream: bool,
    pub includes: Vec<String>,
    pub service_tier: Option<String>,
    pub prompt_cache_key: Option<String>,
    pub text: Option<TextControls>,
    pub client_metadata: Option<Vec<(String, String)>>,
}

/// Reasoning controls, each in its wire form.
#[derive(Debug)]
pub struct Reasoning {
    pub effort: Option<Value>,
    pub summary: Option<Value>,
    pub context: Option<Value>,
}

/// Controls of the text output, each in its wire form. A structured format is an object such as
/// `{"type": "json_schema", "strict": .., "schema": .., "name": ..}`.
#[derive(Debug)]
pub struct TextControls {
    pub verbosity: Option<Value>,
    pub format: Option<Value>,
}

/// One piece of a message.
#[derive(Debug)]
pub enum ContentItem {
    InputText { text: String },
    InputImage { image_url: String, detail: Option<String> },
    OutputText { text: String },
}

/// One piece of a message between agents.
#[derive(Debug)]
pub enum AgentMessageInputContent {
    InputText { text: String },
    EncryptedContent { encrypted_content: String },
}

/// One piece of a structured tool result.
#[derive(Debug)]
pub enum FunctionCallOutputContentItem {
    InputText { text: String },
    InputImage { image_url: String, detail: Option<String> },
    EncryptedContent { encrypted_content: String },
}

/// What a tool returned.
#[derive(Debug)]
pub enum FunctionCallOutputBody {
    Text(String),
    ContentItems(Vec<FunctionCallOutputContentItem>),
}

/// What a tool returned, and whether it succeeded where that is known.
#[derive(Debug)]
pub struct FunctionCallOutputPayload {
    pub body: FunctionCallOutputBody,
    pub success: Option<bool>,
}

/// How far a local shell call has come.
#[derive(Debug, Clone, Copy, PartialEq, Eq)]
pub enum LocalShellStatus {
    Completed,
    InProgress,
    Incomplete,
}

/// A command for the local shell.
#[derive(Debug)]
pub struct LocalShellExecAction {
    pub command: Vec<String>,
    pub timeout_ms: Option<u64>,
    pub working_directory: Option<String>,
    pub env: Option<Vec<(String, String)>>,
    pub user: Option<String>,
}

/// What a local shell call does.
#[derive(Debug)]
pub enum LocalShellAction {
    Exec(LocalShellExecAction),
}

/// One item of the history, or one item that a model has completed.
#[allow(inconsistent_fields)]
#[derive(Debug)]
pub enum ResponseItem {
    Message {
        id: Option<String>,
        role: String,
        content: Vec<ContentItem>,
        phase: Option<String>,
        metadata: Option<Value>,
    },
    AgentMessage {
        author: String,
        recipient: String,
        content: Vec<AgentMessageInputContent>,
        metadata: Option<Value>,
    },
    Reasoning {
        id: String,
        summary: Vec<Value>,
        content: Option<Vec<Value>>,
        encrypted_content: Option<String>,
        metadata: Option<Value>,
    },
    LocalShellCall {
        id: Option<String>,
        call_id: Option<String>,
        status: LocalShellStatus,
        action: LocalShellAction,
        metadata: Option<Value>,
    },
    FunctionCall {
        id: Option<String>,
        name: String,
        namespace: Option<String>,
        arguments: String,
        call_id: String,
        metadata: Option<Value>,
    },
    ToolSearchCall {
        id: Option<String>,
        call_id: Option<String>,
        status: Option<String>,
        execution: String,
        arguments: Value,
        metadata: Option<Value>,
    },
    FunctionCallOutput {
        call_id: String,
        output: FunctionCallOutputPayload,
        metadata: Option<Value>,
    },
    CustomToolCall {
        id: Option<String>,
        status: Option<String>,
        call_id: String,
        name: String,
        input: String,
        metadata: Option<Value>,
    },
    CustomToolCallOutput {
        call_id: String,
        name: Option<String>,
        output: FunctionCallOutputPayload,
        metadata: Option<Value>,
    },
    ToolSearchOutput {
        call_id: Option<String>,
        status: String,
        execution: String,
        tools: Vec<Value>,
        metadata: Option<Value>,
    },
    WebSearchCall {
        id: Option<String>,
        status: Option<String>,
        action: Option<Value>,
        metadata: Option<Value>,
    },
    ImageGenerationCall {
        id: String,
        status: String,
        revised_prompt: Option<String>,
        result: String,
        metadata: Option<Value>,
    },
    Compaction { encrypted_content: String, metadata: Option<Value> },
    CompactionTrigger { metadata: Option<Value> },
    ContextCompaction { encrypted_content: Option<String>, metadata: Option<Value> },
    Other,
}

/// The reasoning effort of a request.
pub open spec fn effort_of(req: ResponsesApiRequest) -> Option<JsonView> {
    match req.reasoning {
        Some(reasoning) => held_opt(reasoning.effort),
        None => None,
    }
}

/// The structured output format of a request.
pub open spec fn format_of(req: ResponsesApiRequest) -> Option<JsonView> {
    match req.text {
        Some(controls) => held_opt(controls.format),
        None => None,
    }
}

// ---- response ----

/// Token counts of one response.
#[derive(Debug, Clone, Copy, PartialEq, Eq)]
pub struct TokenUsage {
    pub input_tokens: i64,
    pub cached_input_tokens: i64,
    pub output_tokens: i64,
    pub reasoning_output_tokens: i64,
    pub total_tokens: i64,
}

/// An event of a streamed response.
#[derive(Debug)]
pub enum ResponseEvent {
    /// A piece of text to show as it arrives.
    OutputTextDelta(String),
    /// An item of the response is complete.
    OutputItemDone(ResponseItem),
    /// The response is complete.
    Completed { response_id: String, token_usage: Option<TokenUsage>, end_turn: Option<bool> },
}

/// Why a request failed.
#[derive(Debug)]
pub enum ApiError {
    /// The upstream answered with a status that is not a success.
    Api { status: u16, message: String },
    /// The connection or the stream broke.
    Stream(String),
    /// The request cannot be sent as it is.
    InvalidRequest { message: String },
}

// ---- where a request comes from ----

/// Which sub-agent sends a request.
#[derive(Debug)]
pub enum SubAgentSource {
    Review,
    Compact,
    MemoryConsolidation,
    Other(String),
}

/// Which internal session sends a request.
#[derive(Debug, Clone, Copy, PartialEq, Eq)]
pub enum InternalSessionSource {
    MemoryConsolidation,
}

/// Which session sends a request.
#[derive(Debug)]
pub enum SessionSource {
    Cli,
    VSCode,
    Exec,
    Mcp,
    Custom(String),
    Internal(InternalSessionSource),
    SubAgent(SubAgentSource),
    Unknown,
}

// ---- what the events say ----

/// What a piece of a message says.
pub enum ContentView {
    InputText(Seq<char>),
    InputImage(Seq<char>, Option<Seq<char>>),
    OutputText(Seq<char>),
}

/// What a completed item says. Only messages and function calls are ever completed here.
pub enum ItemView {
    Message {
        id: Option<Seq<char>>,
        role: Seq<char>,
        content: Seq<ContentView>,
        phase: Option<Seq<char>>,
        metadata: Option<JsonView>,
    },
    FunctionCall {
        id: Option<Seq<char>>,
        name: Seq<char>,
        namespace: Option<Seq<char>>,
        arguments: Seq<char>,
        call_id: Seq<char>,
        metadata: Option<JsonView>,
    },
    Unlisted,
}

/// What an event says.
pub enum EventView {
    OutputTextDelta(Seq<char>),
    OutputItemDone(ItemView),
    Completed {
        response_id: Seq<char>,
        token_usage: Option<TokenUsage>,
        end_turn: Option<bool>,
    },
}

/// What an error says.
pub enum ApiErrorView {
    Api { status: u16, message: Seq<char> },
    Stream(Seq<char>),
    InvalidRequest { message: Seq<char> },
}

impl View for ContentItem {
    type V = ContentView;

    open spec fn view(&self) -> ContentView {
        match *self {
            ContentItem::InputText { text } => ContentView::InputText(text@),
            ContentItem::InputImage { image_url, detail } => ContentView::InputImage(
                image_url@,
                opt_text(detail),
            ),
            ContentItem::OutputText { text } => ContentView::OutputText(text@),
        }
    }
}

impl View for ResponseItem {
    type V = ItemView;

    open spec fn view(&self) -> ItemView {
        match *self {
            ResponseItem::Message { id, role, content, phase, metadata } => ItemView::Message {
                id: opt_text(id),
                role: role@,
                content: content@.map_values(|c: ContentItem| c@),
                phase: opt_text(phase),
                metadata: held_opt(metadata),
            },
            ResponseItem::FunctionCall { id, name, namespace, arguments, call_id, metadata } =>
                ItemView::FunctionCall {
                id: opt_text(id),
                name: name@,
                namespace: opt_text(namespace),
                arguments: arguments@,
                call_id: call_id@,
                metadata: held_opt(metadata),
            },
            _ => ItemView::Unlisted,
        }
    }
}

impl View for ResponseEvent {
    type V = EventView;

    open spec fn view(&self) -> EventView {
        match *self {
            ResponseEvent::OutputTextDelta(s) => EventView::OutputTextDelta(s@),
            ResponseEvent::OutputItemDone(item) => EventView::OutputItemDone(item@),
            ResponseEvent::Completed { response_id, token_usage, end_turn } =>
                EventView::Completed { response_id: response_id@, token_usage, end_turn },
        }
    }
}

impl View for ApiError {
    type V = ApiErrorView;

    open spec fn view(&self) -> ApiErrorView {
        match *self {
            ApiError::Api { status, message } => ApiErrorView::Api { status, message: message@ },
            ApiError::Stream(message) => ApiErrorView::Stream(message@),
            ApiError::InvalidRequest { message } => ApiErrorView::InvalidRequest {
                message: message@,
            },
        }
    }
}

/// The words that an error carries.
pub open spec fn api_words(e: ApiErrorView) -> Seq<char> {
    match e {
        ApiErrorView::Api { message, .. } => message,
        ApiErrorView::Stream(message) => message,
        ApiErrorView::InvalidRequest { message } => message,
    }
}

impl ApiError {
    /// The words that the error carries.
    pub fn message(&self) -> (r: String)
        ensures
            r@ == api_words(self@),
    {
        match self {
            ApiError::Api { message, .. } => message.clone(),
            ApiError::Stream(message) => message.clone(),
            ApiError::InvalidRequest { message } => message.clone(),
        }
    }
}

/// What each of the events says.
pub open spec fn events_view(events: Seq<ResponseEvent>) -> Seq<EventView> {
    events.map_values(|e: ResponseEvent| e@)
}

/// A completed function call.
pub open spec fn call_done(name: Seq<char>, arguments: Seq<char>, call_id: Seq<char>) -> EventView {
    EventView::OutputItemDone(
        ItemView::FunctionCall {
            id: None,
            name,
            namespace: None,
            arguments,
            call_id,
            metadata: None,
        },
    )
}

/// A completed assistant message that consists of one text.
pub open spec fn message_done(text: Seq<char>) -> EventView {
    EventView::OutputItemDone(
        ItemView::Message {
            id: None,
            role: "assistant"@,
            content: seq![ContentView::OutputText(text)],
            phase: None,
            metadata: None,
        },
    )
}

/// A completed function call.
pub(crate) fn function_call_done(name: String, arguments: String, call_id: String) -> (r:
    ResponseEvent)
    ensures
        r@ == call_done(name@, arguments@, call_id@),
{
    ResponseEvent::OutputItemDone(
        ResponseItem::FunctionCall {
            id: None,
            name,
            namespace: None,
            arguments,
            call_id,
            metadata: None,
        },
    )
}

/// A completed assistant message that consists of one text.
pub(crate) fn assistant_message_done(text: String) -> (r: ResponseEvent)
    ensures
        r@ == message_done(text@),
{
    let ghost said = text@;
    let content: Vec<ContentItem> = vec![ContentItem::OutputText { text }];
    assert(content@.map_values(|c: ContentItem| c@) =~= seq![ContentView::OutputText(said)]);
    ResponseEvent::OutputItemDone(
        ResponseItem::Message {
            id: None,
            role: "assistant".to_owned(),
            content,
            phase: None,
            metadata: None,
        },
    )
}

} // verus!
