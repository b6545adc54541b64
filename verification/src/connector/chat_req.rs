//! The request to a Chat Completions upstream.

use super::{builds, chooses, spells, ConnError, EgressCtx};
use super::content::{after, items_text, items_to_text, lemma_after, lemma_after_nothing};
use super::reorder::{reorder_tool_messages, reordered};
use crate::json::{self, empty_object, held, held_all, held_opt, member_or, typed, JsonView};
use crate::protocol::{
    effort_of, format_of, AgentMessageInputContent, ContentItem, FunctionCallOutputBody, FunctionCallOutputContentItem,
    FunctionCallOutputPayload, ResponseItem, ResponsesApiRequest,
};
use crate::text::{holds, join, join3, others, same, show, shown, texts, without};
use serde_json::Value;
use vstd::prelude::*;
use vstd::string::*;

verus! {

// ---- single messages ----

/// A message with a text for its content.
pub open spec fn message_json(role: Seq<char>, content: Seq<char>) -> JsonView {
    empty_object().with("role"@, JsonView::Text(role)).with("content"@, JsonView::Text(content))
}

/// An assistant message that consists of one call.
pub open spec fn call_json(call_id: Seq<char>, name: Seq<char>, arguments: Seq<char>) -> JsonView {
    let function = empty_object().with("name"@, JsonView::Text(name)).with(
        "arguments"@,
        JsonView::Text(arguments),
    );
    let call = empty_object().with("id"@, JsonView::Text(call_id)).with(
        "type"@,
        JsonView::Text("function"@),
    ).with("function"@, function);
    empty_object().with("role"@, JsonView::Text("assistant"@)).with(
        "tool_calls"@,
        JsonView::List(seq![call]),
    )
}

/// The message that carries the result of a call.
pub open spec fn result_json(call_id: Seq<char>, content: Seq<char>) -> JsonView {
    empty_object().with("role"@, JsonView::Text("tool"@)).with(
        "tool_call_id"@,
        JsonView::Text(call_id),
    ).with("content"@, JsonView::Text(content))
}

/// A message with a text for its content.
fn text_message(role: &str, content: &str) -> (r: Value)
    ensures
        held(r) == message_json(role@, content@),
{
    let mut v: Value = json::object_of("role", json::text(role));
    json::set(&mut v, "content", json::text(content));
    v
}

/// An assistant message that consists of one call.
fn call_message(call_id: &str, name: &str, arguments: &str) -> (r: Value)
    ensures
        held(r) == call_json(call_id@, name@, arguments@),
{
    let mut function: Value = json::object_of("name", json::text(name));
    json::set(&mut function, "arguments", json::text(arguments));
    let mut call: Value = json::object_of("id", json::text(call_id));
    json::set(&mut call, "type", json::text("function"));
    json::set(&mut call, "function", function);
    let ghost held_call = held(call);
    let calls: Vec<Value> = vec![call];
    assert(held_all(calls@) =~= seq![held_call]);
    let mut v: Value = json::object_of("role", json::text("assistant"));
    json::set(&mut v, "tool_calls", json::list(calls));
    v
}

/// The message that carries the result of a call.
fn result_message(call_id: &str, content: &str) -> (r: Value)
    ensures
        held(r) == result_json(call_id@, content@),
{
    let mut v: Value = json::object_of("role", json::text("tool"));
    json::set(&mut v, "tool_call_id", json::text(call_id));
    json::set(&mut v, "content", json::text(content));
    v
}

// ---- content ----

/// The text of a message, all pieces in one. An image is refused.
pub open spec fn message_text(content: Seq<ContentItem>) -> Result<Seq<char>, Seq<char>>
    decreases content.len(),
{
    if content.len() == 0 {
        Ok(Seq::empty())
    } else {
        match content[0] {
            ContentItem::InputText { text } => after(text@, message_text(content.skip(1))),
            ContentItem::OutputText { text } => after(text@, message_text(content.skip(1))),
            ContentItem::InputImage { .. } => Err(
                "image input not supported in v1 chat connector (no capability flag)"@,
            ),
        }
    }
}

/// The text of a message between agents, all pieces in one. What is encrypted is refused.
pub open spec fn agent_text(content: Seq<AgentMessageInputContent>) -> Result<Seq<char>, Seq<char>>
    decreases content.len(),
{
    if content.len() == 0 {
        Ok(Seq::empty())
    } else {
        match content[0] {
            AgentMessageInputContent::InputText { text } => after(
                text@,
                agent_text(content.skip(1)),
            ),
            AgentMessageInputContent::EncryptedContent { .. } => Err(
                "AgentMessage contains encrypted content (EncryptedContent), v1 chat connector cannot read it"@,
            ),
        }
    }
}

/// The text of a structured tool result.
pub open spec fn chat_items_text(items: Seq<FunctionCallOutputContentItem>) -> Result<
    Seq<char>,
    Seq<char>,
> {
    items_text(
        items,
        "tool result contains image content (InputImage), v1 chat connector does not support it"@,
        "tool result contains encrypted content (EncryptedContent), v1 chat connector does not support it"@,
    )
}

/// The text of a tool result. One that is known to have failed is marked, as the protocol has no
/// other way to say so.
pub open spec fn output_text(output: FunctionCallOutputPayload) -> Result<Seq<char>, Seq<char>> {
    let body = match output.body {
        FunctionCallOutputBody::Text(t) => Ok(t@),
        FunctionCallOutputBody::ContentItems(items) => chat_items_text(items@),
    };
    if output.success == Some(false) {
        after("[tool error] "@, body)
    } else {
        body
    }
}

/// The text of a message.
fn content_to_text(content: &Vec<ContentItem>) -> (r: Result<String, ConnError>)
    ensures
        spells(r, message_text(content@)),
{
    let mut text: String = String::new();
    let mut i: usize = 0;
    assert(content@.skip(0) =~= content@);
    proof {
        lemma_after_nothing(message_text(content@));
    }
    assert(text@ =~= Seq::empty());
    while i < content.len()
        invariant
            i <= content@.len(),
            message_text(content@) == after(text@, message_text(content@.skip(i as int))),
        decreases content.len() - i,
    {
        assert(content@.skip(i as int).skip(1) =~= content@.skip(i + 1));
        let ghost before = text@;
        match &content[i] {
            ContentItem::InputText { text: t } => {
                text.append(t.as_str());
                proof {
                    lemma_after(before, t@, message_text(content@.skip(i + 1)));
                }
            },
            ContentItem::OutputText { text: t } => {
                text.append(t.as_str());
                proof {
                    lemma_after(before, t@, message_text(content@.skip(i + 1)));
                }
            },
            ContentItem::InputImage { .. } => {
                return Err(
                    ConnError::HardFail(
                        "image input not supported in v1 chat connector (no capability flag)".to_owned(),
                    ),
                );
            },
        }
        i += 1;
    }
    assert(text@ + Seq::<char>::empty() =~= text@);
    Ok(text)
}

/// Maps a message of the history.
pub fn map_message(role: &str, content: &Vec<ContentItem>) -> (r: Result<Value, ConnError>)
    ensures
        builds(
            r,
            match message_text(content@) {
                Ok(text) => Ok(message_json(role@, text)),
                Err(reason) => Err(reason),
            },
        ),
{
    match content_to_text(content) {
        Ok(text) => Ok(text_message(role, text.as_str())),
        Err(e) => Err(e),
    }
}

/// The text of a message between agents.
fn agent_content_to_text(content: &Vec<AgentMessageInputContent>) -> (r: Result<String, ConnError>)
    ensures
        spells(r, agent_text(content@)),
{
    let mut text: String = String::new();
    let mut i: usize = 0;
    assert(content@.skip(0) =~= content@);
    proof {
        lemma_after_nothing(agent_text(content@));
    }
    assert(text@ =~= Seq::empty());
    while i < content.len()
        invariant
            i <= content@.len(),
            agent_text(content@) == after(text@, agent_text(content@.skip(i as int))),
        decreases content.len() - i,
    {
        assert(content@.skip(i as int).skip(1) =~= content@.skip(i + 1));
        let ghost before = text@;
        match &content[i] {
            AgentMessageInputContent::InputText { text: t } => {
                text.append(t.as_str());
                proof {
                    lemma_after(before, t@, agent_text(content@.skip(i + 1)));
                }
            },
            AgentMessageInputContent::EncryptedContent { .. } => {
                return Err(
                    ConnError::HardFail(
                        "AgentMessage contains encrypted content (EncryptedContent), v1 chat connector cannot read it".to_owned(),
                    ),
                );
            },
        }
        i += 1;
    }
    assert(text@ + Seq::<char>::empty() =~= text@);
    Ok(text)
}

/// Maps a message between agents to one of the assistant.
pub fn map_agent_message(content: &Vec<AgentMessageInputContent>) -> (r: Result<Value, ConnError>)
    ensures
        builds(
            r,
            match agent_text(content@) {
                Ok(text) => Ok(message_json("assistant"@, text)),
                Err(reason) => Err(reason),
            },
        ),
{
    match agent_content_to_text(content) {
        Ok(text) => Ok(text_message("assistant", text.as_str())),
        Err(e) => Err(e),
    }
}

/// The text of a structured tool result.
pub fn content_items_to_text(items: &Vec<FunctionCallOutputContentItem>) -> (r: Result<
    String,
    ConnError,
>)
    ensures
        spells(r, chat_items_text(items@)),
{
    items_to_text(
        items,
        "tool result contains image content (InputImage), v1 chat connector does not support it",
        "tool result contains encrypted content (EncryptedContent), v1 chat connector does not support it",
    )
}

/// Maps a tool result.
pub fn map_function_call_output(call_id: &str, output: &FunctionCallOutputPayload) -> (r: Result<
    Value,
    ConnError,
>)
    ensures
        builds(
            r,
            match output_text(*output) {
                Ok(text) => Ok(result_json(call_id@, text)),
                Err(reason) => Err(reason),
            },
        ),
{
    let text: String = match &output.body {
        FunctionCallOutputBody::Text(t) => t.clone(),
        FunctionCallOutputBody::ContentItems(items) => match content_items_to_text(items) {
            Ok(t) => t,
            Err(e) => {
                return Err(e);
            },
        },
    };
    let failed: bool = match output.success {
        Some(ok) => !ok,
        None => false,
    };
    if failed {
        let marked: String = join("[tool error] ", text.as_str());
        Ok(result_message(call_id, marked.as_str()))
    } else {
        Ok(result_message(call_id, text.as_str()))
    }
}

// ---- tools ----

/// A tool definition in the form of the upstream. Only a function has one.
pub open spec fn chat_tool(t: JsonView) -> Result<JsonView, Seq<char>> {
    if t.text_at("type"@) == Some("function"@) {
        let function = empty_object().with(
            "name"@,
            member_or(t, "name"@, JsonView::Null),
        ).with("description"@, member_or(t, "description"@, JsonView::Null)).with(
            "parameters"@,
            member_or(t, "parameters"@, typed("object"@)),
        );
        Ok(typed("function"@).with("function"@, function))
    } else {
        Err(
            "tool definition type "@ + shown(t.text_at("type"@))
                + " not supported in v1 chat connector (only standard function supported)"@,
        )
    }
}

/// The tool definitions behind `done` in the form of the upstream. The first that has none decides.
pub open spec fn chat_tools_from(done: Seq<JsonView>, tools: Seq<JsonView>) -> Result<
    Seq<JsonView>,
    Seq<char>,
>
    decreases tools.len(),
{
    if tools.len() == 0 {
        Ok(done)
    } else {
        match chat_tool(tools[0]) {
            Ok(t) => chat_tools_from(done.push(t), tools.skip(1)),
            Err(reason) => Err(reason),
        }
    }
}

/// The tool definitions in the form of the upstream, none where there are none.
pub open spec fn chat_tools(tools: Seq<JsonView>) -> Result<Option<Seq<JsonView>>, Seq<char>> {
    if tools.len() == 0 {
        Ok(None)
    } else {
        match chat_tools_from(Seq::empty(), tools) {
            Ok(ts) => Ok(Some(ts)),
            Err(reason) => Err(reason),
        }
    }
}

/// Maps a tool definition.
fn map_tool(t: &Value) -> (r: Result<Value, ConnError>)
    ensures
        builds(r, chat_tool(held(*t))),
{
    let kind: Option<&str> = json::text_at(t, "type");
    let is_function: bool = match kind {
        Some(k) => same(k, "function"),
        None => false,
    };
    if is_function {
        let parameters: Value = json::copy_or(
            t,
            "parameters",
            json::typed_object("object"),
        );
        let mut function: Value = json::object_of("name", json::copy_or(t, "name", json::null()));
        json::set(&mut function, "description", json::copy_or(t, "description", json::null()));
        json::set(&mut function, "parameters", parameters);
        let mut v: Value = json::typed_object("function");
        json::set(&mut v, "function", function);
        Ok(v)
    } else {
        let found: String = show(kind);
        Err(
            ConnError::HardFail(
                join3(
                    "tool definition type ",
                    found.as_str(),
                    " not supported in v1 chat connector (only standard function supported)",
                ),
            ),
        )
    }
}

/// Maps the tool definitions.
pub fn map_tools(tools: &Vec<Value>) -> (r: Result<Option<Vec<Value>>, ConnError>)
    ensures
        match (r, chat_tools(held_all(tools@))) {
            (Ok(Some(ts)), Ok(Some(want))) => held_all(ts@) == want,
            (Ok(None), Ok(None)) => true,
            (Err(e), Err(reason)) => e.hard_fails(reason),
            _ => false,
        },
{
    if tools.len() == 0 {
        return Ok(None);
    }
    let ghost all = held_all(tools@);
    let mut out: Vec<Value> = Vec::new();
    assert(held_all(out@) =~= Seq::empty());
    assert(all.skip(0) =~= all);
    let mut i: usize = 0;
    while i < tools.len()
        invariant
            i <= tools@.len(),
            all == held_all(tools@),
            chat_tools_from(Seq::empty(), all) == chat_tools_from(
                held_all(out@),
                all.skip(i as int),
            ),
        decreases tools.len() - i,
    {
        assert(all.skip(i as int).skip(1) =~= all.skip(i + 1));
        assert(all.skip(i as int)[0] == held(tools@[i as int]));
        let ghost before = out@;
        match map_tool(&tools[i]) {
            Ok(v) => {
                out.push(v);
                assert(held_all(out@) =~= held_all(before).push(held(v)));
            },
            Err(e) => {
                return Err(e);
            },
        }
        i += 1;
    }
    Ok(Some(out))
}

// ---- tool choice ----

/// The choice that a JSON value expresses: one function, by its name.
pub open spec fn named_choice(v: JsonView) -> Option<JsonView> {
    if v.text_at("type"@) == Some("function"@) {
        match v.get("name"@) {
            Some(name) => Some(typed("function"@).with("function"@, empty_object().with("name"@, name))),
            None => None,
        }
    } else {
        None
    }
}

/// The tool choice in the form of the upstream, given the JSON value that its text denotes, if it
/// denotes one. An empty text is no choice.
pub open spec fn choice_given(tc: Seq<char>, v: Option<JsonView>) -> Result<
    Option<JsonView>,
    Seq<char>,
> {
    if tc == "auto"@ || tc == "none"@ || tc == "required"@ {
        Ok(Some(JsonView::Text(tc)))
    } else if tc.len() == 0 {
        Ok(None)
    } else {
        let choice = match v {
            Some(j) => named_choice(j),
            None => None,
        };
        match choice {
            Some(c) => Ok(Some(c)),
            None => Err(
                "tool_choice '"@ + tc + "' cannot be expressed in Chat Completions protocol"@,
            ),
        }
    }
}

/// The tool choice in the form of the upstream.
pub open spec fn chat_choice(tc: Seq<char>) -> Result<Option<JsonView>, Seq<char>> {
    choice_given(tc, json::denoted(tc))
}

/// Maps a tool choice, given the JSON value that its text denotes, if it denotes one.
pub fn map_tool_choice_given(tc: &str, v: Option<Value>) -> (r: Result<Option<Value>, ConnError>)
    ensures
        chooses(r, choice_given(tc@, held_opt(v))),
{
    if same(tc, "auto") || same(tc, "none") || same(tc, "required") {
        return Ok(Some(json::text(tc)));
    }
    if tc.is_empty() {
        return Ok(None);
    }
    if let Some(v) = v {
        let is_function: bool = match json::text_at(&v, "type") {
            Some(k) => same(k, "function"),
            None => false,
        };
        if is_function {
            if let Some(name) = json::get(&v, "name") {
                let mut choice: Value = json::typed_object("function");
                json::set(&mut choice, "function", json::object_of("name", name.clone()));
                return Ok(Some(choice));
            }
        }
    }
    Err(
        ConnError::HardFail(
            join3(
                "tool_choice '",
                tc,
                "' cannot be expressed in Chat Completions protocol",
            ),
        ),
    )
}

/// Maps a tool choice. What is not one of the three words may be JSON that names a function.
pub fn map_tool_choice(tc: &str) -> (r: Result<Option<Value>, ConnError>)
    ensures
        chooses(r, chat_choice(tc@)),
{
    map_tool_choice_given(tc, json::denoted_value(tc))
}

// ---- history ----

/// What the history amounts to so far.
pub struct Scan {
    pub messages: Seq<JsonView>,
    /// The identifiers of all calls.
    pub calls: Seq<Seq<char>>,
    /// The identifiers of the calls without a result, each once.
    pub needing: Seq<Seq<char>>,
}

/// Why an item cannot be sent at all.
pub open spec fn refusal(item: ResponseItem) -> Seq<char> {
    match item {
        ResponseItem::LocalShellCall { .. } => "LocalShellCall not supported in v1 chat connector"@,
        ResponseItem::ToolSearchCall { .. } => "ToolSearchCall not supported in v1 chat connector"@,
        ResponseItem::ToolSearchOutput { .. } =>
            "ToolSearchOutput not supported in v1 chat connector"@,
        ResponseItem::WebSearchCall { .. } => "WebSearchCall not supported in v1 chat connector"@,
        ResponseItem::ImageGenerationCall { .. } =>
            "ImageGenerationCall not supported in v1 chat connector"@,
        ResponseItem::CustomToolCall { .. } => "CustomToolCall not supported in v1 chat connector"@,
        ResponseItem::CustomToolCallOutput { .. } =>
            "CustomToolCallOutput not supported in v1 chat connector"@,
        ResponseItem::Compaction { .. } =>
            "Compaction (encrypted content) not supported in v1 chat connector"@,
        ResponseItem::ContextCompaction { .. } =>
            "ContextCompaction (encrypted content) not supported in v1 chat connector"@,
        _ => "unknown ResponseItem variant (Other) not supported in v1 chat connector"@,
    }
}

/// The history after one more message.
pub open spec fn with_message(s: Scan, m: JsonView) -> Scan {
    Scan { messages: s.messages.push(m), ..s }
}

/// What one more item does. A result whose call has not been seen is dropped, and so are items
/// that only concern the client.
pub open spec fn scan_item(s: Scan, item: ResponseItem) -> Result<Scan, Seq<char>> {
    match item {
        ResponseItem::Message { role, content, .. } => match message_text(content@) {
            Ok(text) => Ok(with_message(s, message_json(role@, text))),
            Err(reason) => Err(reason),
        },
        ResponseItem::FunctionCall { name, namespace, arguments, call_id, .. } => if namespace
            is Some {
            Err(
                "namespaced function call '"@ + name@
                    + "' not supported in v1 chat connector"@,
            )
        } else {
            Ok(
                Scan {
                    messages: s.messages.push(call_json(call_id@, name@, arguments@)),
                    calls: s.calls.push(call_id@),
                    needing: if s.needing.contains(call_id@) {
                        s.needing
                    } else {
                        s.needing.push(call_id@)
                    },
                },
            )
        },
        ResponseItem::FunctionCallOutput { call_id, output, .. } => if !s.calls.contains(call_id@) {
            Ok(s)
        } else {
            match output_text(output) {
                Ok(text) => Ok(
                    Scan {
                        messages: s.messages.push(result_json(call_id@, text)),
                        calls: s.calls,
                        needing: others(s.needing, call_id@),
                    },
                ),
                Err(reason) => Err(reason),
            }
        },
        ResponseItem::AgentMessage { content, .. } => match agent_text(content@) {
            Ok(text) => Ok(with_message(s, message_json("assistant"@, text))),
            Err(reason) => Err(reason),
        },
        ResponseItem::Reasoning { .. } => Ok(s),
        ResponseItem::CompactionTrigger { .. } => Ok(s),
        _ => Err(refusal(item)),
    }
}

/// What some more items do, one after the other, up to the first that is refused.
pub open spec fn scan_items(s: Scan, items: Seq<ResponseItem>) -> Result<Scan, Seq<char>>
    decreases items.len(),
{
    if items.len() == 0 {
        Ok(s)
    } else {
        match scan_item(s, items[0]) {
            Ok(next) => scan_items(next, items.skip(1)),
            Err(reason) => Err(reason),
        }
    }
}

/// What stands before the history: the instructions, if there are some.
pub open spec fn scan_start(instructions: Seq<char>) -> Scan {
    Scan {
        messages: if instructions.len() > 0 {
            seq![message_json("system"@, instructions)]
        } else {
            Seq::empty()
        },
        calls: Seq::empty(),
        needing: Seq::empty(),
    }
}

/// The results that stand in for the missing ones.
pub open spec fn placeholders(needing: Seq<Seq<char>>) -> Seq<JsonView> {
    needing.map_values(|id: Seq<char>| result_json(id, "[No output available yet]"@))
}

/// The messages of a request.
pub open spec fn chat_messages(instructions: Seq<char>, input: Seq<ResponseItem>) -> Result<
    Seq<JsonView>,
    Seq<char>,
> {
    match scan_items(scan_start(instructions), input) {
        Ok(s) => Ok(reordered(s.messages + placeholders(s.needing))),
        Err(reason) => Err(reason),
    }
}

/// The history in the course of a scan.
struct Scanner {
    messages: Vec<Value>,
    calls: Vec<String>,
    needing: Vec<String>,
}

impl View for Scanner {
    type V = Scan;

    closed spec fn view(&self) -> Scan {
        Scan {
            messages: held_all(self.messages@),
            calls: texts(self.calls@),
            needing: texts(self.needing@),
        }
    }
}

/// Whether a step came to this history, or failed hard with this reason.
spec fn steps(r: Result<(), ConnError>, now: Scan, want: Result<Scan, Seq<char>>) -> bool {
    match (r, want) {
        (Ok(_), Ok(s)) => now == s,
        (Err(e), Err(reason)) => e.hard_fails(reason),
        _ => false,
    }
}

fn refuse(reason: &str) -> (r: Result<(), ConnError>)
    ensures
        r matches Err(e) && e.hard_fails(reason@),
{
    Err(ConnError::HardFail(reason.to_owned()))
}

impl Scanner {
    fn start(instructions: &str) -> (r: Scanner)
        ensures
            r@ == scan_start(instructions@),
    {
        let mut messages: Vec<Value> = Vec::new();
        if !instructions.is_empty() {
            messages.push(text_message("system", instructions));
        }
        let r = Scanner { messages, calls: Vec::new(), needing: Vec::new() };
        assert(r@.messages =~= scan_start(instructions@).messages);
        assert(r@.calls =~= Seq::empty());
        assert(r@.needing =~= Seq::empty());
        r
    }

    fn push(&mut self, m: Value)
        ensures
            final(self)@ == with_message(old(self)@, held(m)),
    {
        self.messages.push(m);
        assert(self@.messages =~= old(self)@.messages.push(held(m)));
    }

    fn call(&mut self, call_id: &str, name: &str, arguments: &str)
        ensures
            final(self)@.messages == old(self)@.messages.push(
                call_json(call_id@, name@, arguments@),
            ),
            final(self)@.calls == old(self)@.calls.push(call_id@),
            final(self)@.needing == (if old(self)@.needing.contains(call_id@) {
                old(self)@.needing
            } else {
                old(self)@.needing.push(call_id@)
            }),
    {
        self.calls.push(call_id.to_owned());
        assert(self@.calls =~= old(self)@.calls.push(call_id@));
        if !holds(&self.needing, call_id) {
            self.needing.push(call_id.to_owned());
            assert(self@.needing =~= old(self)@.needing.push(call_id@));
        }
        self.messages.push(call_message(call_id, name, arguments));
        assert(self@.messages =~= old(self)@.messages.push(call_json(call_id@, name@, arguments@)));
    }

    fn output(&mut self, call_id: &str, output: &FunctionCallOutputPayload) -> (r: Result<
        (),
        ConnError,
    >)
        ensures
            steps(
                r,
                final(self)@,
                if !old(self)@.calls.contains(call_id@) {
                    Ok(old(self)@)
                } else {
                    match output_text(*output) {
                        Ok(text) => Ok(
                            Scan {
                                messages: old(self)@.messages.push(result_json(call_id@, text)),
                                calls: old(self)@.calls,
                                needing: others(old(self)@.needing, call_id@),
                            },
                        ),
                        Err(reason) => Err(reason),
                    }
                },
            ),
    {
        if !holds(&self.calls, call_id) {
            return Ok(());
        }
        let mut needing: Vec<String> = Vec::new();
        std::mem::swap(&mut self.needing, &mut needing);
        self.needing = without(needing, call_id);
        match map_function_call_output(call_id, output) {
            Ok(m) => {
                self.messages.push(m);
                assert(self@.messages =~= old(self)@.messages.push(held(m)));
                Ok(())
            },
            Err(e) => Err(e),
        }
    }

    fn item(&mut self, item: &ResponseItem) -> (r: Result<(), ConnError>)
        ensures
            steps(r, final(self)@, scan_item(old(self)@, *item)),
    {
        match item {
            ResponseItem::Message { role, content, .. } => match map_message(
                role.as_str(),
                content,
            ) {
                Ok(m) => {
                    self.push(m);
                    Ok(())
                },
                Err(e) => Err(e),
            },
            ResponseItem::FunctionCall { name, namespace, arguments, call_id, .. } => {
                if namespace.is_some() {
                    let reason: String = join3(
                        "namespaced function call '",
                        name.as_str(),
                        "' not supported in v1 chat connector",
                    );
                    return Err(ConnError::HardFail(reason));
                }
                self.call(call_id.as_str(), name.as_str(), arguments.as_str());
                Ok(())
            },
            ResponseItem::FunctionCallOutput { call_id, output, .. } => self.output(
                call_id.as_str(),
                output,
            ),
            ResponseItem::AgentMessage { content, .. } => match map_agent_message(content) {
                Ok(m) => {
                    self.push(m);
                    Ok(())
                },
                Err(e) => Err(e),
            },
            ResponseItem::Reasoning { .. } => Ok(()),
            ResponseItem::CompactionTrigger { .. } => Ok(()),
            ResponseItem::LocalShellCall { .. } => refuse(
                "LocalShellCall not supported in v1 chat connector",
            ),
            ResponseItem::ToolSearchCall { .. } => refuse(
                "ToolSearchCall not supported in v1 chat connector",
            ),
            ResponseItem::ToolSearchOutput { .. } => refuse(
                "ToolSearchOutput not supported in v1 chat connector",
            ),
            ResponseItem::WebSearchCall { .. } => refuse(
                "WebSearchCall not supported in v1 chat connector",
            ),
            ResponseItem::ImageGenerationCall { .. } => refuse(
                "ImageGenerationCall not supported in v1 chat connector",
            ),
            ResponseItem::CustomToolCall { .. } => refuse(
                "CustomToolCall not supported in v1 chat connector",
            ),
            ResponseItem::CustomToolCallOutput { .. } => refuse(
                "CustomToolCallOutput not supported in v1 chat connector",
            ),
            ResponseItem::Compaction { .. } => refuse(
                "Compaction (encrypted content) not supported in v1 chat connector",
            ),
            ResponseItem::ContextCompaction { .. } => refuse(
                "ContextCompaction (encrypted content) not supported in v1 chat connector",
            ),
            ResponseItem::Other => refuse(
                "unknown ResponseItem variant (Other) not supported in v1 chat connector",
            ),
        }
    }
}

/// The messages of a request.
fn build_messages(instructions: &str, input: &Vec<ResponseItem>) -> (r: Result<
    Vec<Value>,
    ConnError,
>)
    ensures
        match (r, chat_messages(instructions@, input@)) {
            (Ok(ms), Ok(want)) => held_all(ms@) == want,
            (Err(e), Err(reason)) => e.hard_fails(reason),
            _ => false,
        },
{
    let mut s: Scanner = Scanner::start(instructions);
    let ghost start = s@;
    let mut i: usize = 0;
    assert(input@.skip(0) =~= input@);
    while i < input.len()
        invariant
            i <= input@.len(),
            start == scan_start(instructions@),
            scan_items(start, input@) == scan_items(s@, input@.skip(i as int)),
        decreases input.len() - i,
    {
        assert(input@.skip(i as int).skip(1) =~= input@.skip(i + 1));
        match s.item(&input[i]) {
            Ok(_) => {},
            Err(e) => {
                return Err(e);
            },
        }
        i += 1;
    }
    let ghost end = s@;
    let mut messages: Vec<Value> = s.messages;
    let needing: Vec<String> = s.needing;
    let ghost fill = placeholders(end.needing);
    let mut k: usize = 0;
    assert(end.messages + fill.take(0) =~= end.messages);
    while k < needing.len()
        invariant
            k <= needing@.len(),
            end.needing == texts(needing@),
            fill == placeholders(end.needing),
            held_all(messages@) == end.messages + fill.take(k as int),
        decreases needing.len() - k,
    {
        let ghost before = messages@;
        let m: Value = result_message(needing[k].as_str(), "[No output available yet]");
        messages.push(m);
        proof {
            assert(fill.take(k + 1) =~= fill.take(k as int).push(fill[k as int]));
            assert(held_all(messages@) =~= held_all(before).push(held(m)));
            assert(held_all(messages@) =~= end.messages + fill.take(k + 1));
        }
        k += 1;
    }
    assert(fill.take(fill.len() as int) =~= fill);
    Ok(reorder_tool_messages(messages))
}

// ---- remaining fields ----

/// `v` with the member `key` of `from`, where that has one.
pub open spec fn with_member(v: JsonView, from: JsonView, key: Seq<char>) -> JsonView {
    match from.get(key) {
        Some(x) => v.with(key, x),
        None => v,
    }
}

/// A structured output format in the form of the upstream. Only a JSON schema has one.
pub open spec fn response_format(format: JsonView) -> Option<JsonView> {
    if format.text_at("type"@) == Some("json_schema"@) {
        let schema = with_member(
            with_member(with_member(empty_object(), format, "name"@), format, "schema"@),
            format,
            "strict"@,
        );
        Some(typed("json_schema"@).with("json_schema"@, schema))
    } else {
        None
    }
}

/// The body with those fields that the upstream knows in another form; every other field of the
/// Responses protocol is left out.
pub open spec fn downgraded(
    body: JsonView,
    effort: Option<JsonView>,
    format: Option<JsonView>,
) -> JsonView {
    let b = match effort {
        Some(e) => body.with("reasoning_effort"@, e),
        None => body,
    };
    match format {
        Some(f) => match response_format(f) {
            Some(rf) => b.with("response_format"@, rf),
            None => b,
        },
        None => b,
    }
}

/// Copies the member under `key`, where there is one.
fn copy_member(v: &mut Value, from: &Value, key: &str)
    requires
        held(*old(v)) is Object,
    ensures
        held(*final(v)) == with_member(held(*old(v)), held(*from), key@),
        held(*final(v)) is Object,
{
    if let Some(x) = json::get(from, key) {
        json::set(v, key, x.clone());
    }
}

/// Adds the fields that the upstream knows in another form.
fn apply_field_downgrade(body: &mut Value, req: &ResponsesApiRequest)
    requires
        held(*old(body)) is Object,
    ensures
        held(*final(body)) == downgraded(held(*old(body)), effort_of(*req), format_of(*req)),
{
    if let Some(reasoning) = &req.reasoning {
        if let Some(e) = &reasoning.effort {
            json::set(body, "reasoning_effort", e.clone());
        }
    }
    if let Some(controls) = &req.text {
        if let Some(format) = &controls.format {
            let is_schema: bool = match json::text_at(format, "type") {
                Some(k) => same(k, "json_schema"),
                None => false,
            };
            if is_schema {
                let mut schema: Value = json::object();
                copy_member(&mut schema, format, "name");
                copy_member(&mut schema, format, "schema");
                copy_member(&mut schema, format, "strict");
                let mut rf: Value = json::typed_object("json_schema");
                json::set(&mut rf, "json_schema", schema);
                json::set(body, "response_format", rf);
            }
        }
    }
}

// ---- request ----

/// The body before the tools and the remaining fields.
pub open spec fn chat_base(model: Seq<char>, messages: Seq<JsonView>, parallel: bool) -> JsonView {
    empty_object().with("model"@, JsonView::Text(model)).with(
        "messages"@,
        JsonView::List(messages),
    ).with("stream"@, JsonView::Bool(true)).with(
        "stream_options"@,
        empty_object().with("include_usage"@, JsonView::Bool(true)),
    ).with("parallel_tool_calls"@, JsonView::Bool(parallel))
}

/// The body with the tools and, only together with some, the tool choice.
pub open spec fn with_tools(
    body: JsonView,
    tools: Option<Seq<JsonView>>,
    choice: Result<Option<JsonView>, Seq<char>>,
) -> Result<JsonView, Seq<char>> {
    match tools {
        None => Ok(body),
        Some(ts) => match choice {
            Err(reason) => Err(reason),
            Ok(None) => Ok(body.with("tools"@, JsonView::List(ts))),
            Ok(Some(c)) => Ok(
                body.with("tools"@, JsonView::List(ts)).with("tool_choice"@, c),
            ),
        },
    }
}

/// The body of the request to the upstream, or why there is none. The tools are looked at first,
/// then the history, then the tool choice.
pub open spec fn chat_body(req: ResponsesApiRequest, model: Seq<char>) -> Result<
    JsonView,
    Seq<char>,
> {
    match chat_tools(held_all(req.tools@)) {
        Err(reason) => Err(reason),
        Ok(tools) => match chat_messages(req.instructions@, req.input@) {
            Err(reason) => Err(reason),
            Ok(messages) => match with_tools(
                chat_base(model, messages, req.parallel_tool_calls),
                tools,
                chat_choice(req.tool_choice@),
            ) {
                Err(reason) => Err(reason),
                Ok(body) => Ok(downgraded(body, effort_of(req), format_of(req))),
            },
        },
    }
}

/// Builds the body of a Chat Completions request.
pub fn build_chat_request(req: &ResponsesApiRequest, ctx: &EgressCtx) -> (r: Result<
    Value,
    ConnError,
>)
    ensures
        builds(r, chat_body(*req, ctx.model@)),
{
    let tools: Option<Vec<Value>> = match map_tools(&req.tools) {
        Ok(t) => t,
        Err(e) => {
            return Err(e);
        },
    };
    let messages: Vec<Value> = match build_messages(req.instructions.as_str(), &req.input) {
        Ok(m) => m,
        Err(e) => {
            return Err(e);
        },
    };

    let mut body: Value = json::object_of("model", json::text(ctx.model.as_str()));
    json::set(&mut body, "messages", json::list(messages));
    json::set(&mut body, "stream", json::boolean(true));
    json::set(
        &mut body,
        "stream_options",
        json::object_of("include_usage", json::boolean(true)),
    );
    json::set(&mut body, "parallel_tool_calls", json::boolean(req.parallel_tool_calls));

    if let Some(ts) = tools {
        json::set(&mut body, "tools", json::list(ts));
        match map_tool_choice(req.tool_choice.as_str()) {
            Ok(Some(c)) => {
                json::set(&mut body, "tool_choice", c);
            },
            Ok(None) => {},
            Err(e) => {
                return Err(e);
            },
        }
    }
    apply_field_downgrade(&mut body, req);
    Ok(body)
}

} // verus!
