//! The request to an Anthropic Messages upstream.

use super::content::{items_text, items_to_text};
use super::{builds, chooses, spells, variant, variant_name, ConnError, EgressCtx};
use crate::json::{
    self, empty_object, held, held_all, held_opt, json_text, member_or, parsed, typed, with_some,
    JsonView,
};
use crate::protocol::{
    format_of, AgentMessageInputContent, ContentItem, FunctionCallOutputBody, FunctionCallOutputContentItem,
    FunctionCallOutputPayload, ResponseItem, ResponsesApiRequest,
};
use crate::text::{holds, join, join3, others, same, show, shown, texts, without};
use serde_json::Value;
use vstd::prelude::*;
use vstd::string::*;

verus! {

/// How many tokens a response may have where nothing else is configured.
pub const DEFAULT_MAX_TOKENS: u32 = 4096;

// ---- turns ----

/// Consecutive content of one role.
pub struct Turn {
    pub role: Seq<char>,
    pub blocks: Seq<JsonView>,
}

/// The turns after one more block, which joins the last turn if that has the same role.
pub open spec fn with_block(turns: Seq<Turn>, role: Seq<char>, block: JsonView) -> Seq<Turn> {
    if turns.len() > 0 && turns.last().role == role {
        turns.drop_last().push(Turn { role, blocks: turns.last().blocks.push(block) })
    } else {
        turns.push(Turn { role, blocks: seq![block] })
    }
}

/// What the list of turns holds.
spec fn turns_view(turns: Seq<(String, Vec<Value>)>) -> Seq<Turn> {
    turns.map_values(
        |t: (String, Vec<Value>)| Turn { role: t.0@, blocks: held_all(t.1@) },
    )
}

/// Adds a block to the last turn, or starts a new turn if the role changes.
fn push_block(role: &str, block: Value, turns: &mut Vec<(String, Vec<Value>)>)
    ensures
        turns_view(final(turns)@) == with_block(turns_view(old(turns)@), role@, held(block)),
{
    let ghost before = turns@;
    match turns.pop() {
        Some(last) => {
            let mut t: (String, Vec<Value>) = last;
            if same(t.0.as_str(), role) {
                let ghost was = t.1@;
                t.1.push(block);
                turns.push(t);
                proof {
                    assert(held_all(t.1@) =~= held_all(was).push(held(block)));
                    assert(turns_view(turns@) =~= with_block(
                        turns_view(before),
                        role@,
                        held(block),
                    ));
                }
            } else {
                turns.push(t);
                assert(turns@ =~= before);
                let one: Vec<Value> = vec![block];
                assert(held_all(one@) =~= seq![held(block)]);
                turns.push((role.to_owned(), one));
                assert(turns_view(turns@) =~= with_block(turns_view(before), role@, held(block)));
            }
        },
        None => {
            let one: Vec<Value> = vec![block];
            assert(held_all(one@) =~= seq![held(block)]);
            turns.push((role.to_owned(), one));
            assert(turns_view(turns@) =~= with_block(turns_view(before), role@, held(block)));
        },
    }
}

// ---- blocks ----

/// A block of text.
pub open spec fn text_block(text: Seq<char>) -> JsonView {
    typed("text"@).with("text"@, JsonView::Text(text))
}

/// A block that uses a tool.
pub open spec fn use_block(call_id: Seq<char>, name: Seq<char>, input: JsonView) -> JsonView {
    typed("tool_use"@).with("id"@, JsonView::Text(call_id)).with(
        "name"@,
        JsonView::Text(name),
    ).with("input"@, input)
}

/// A block with the result of a tool.
pub open spec fn result_block(call_id: Seq<char>, content: Seq<char>, failed: bool) -> JsonView {
    let block = typed("tool_result"@).with("tool_use_id"@, JsonView::Text(call_id)).with(
        "content"@,
        JsonView::Text(content),
    );
    if failed {
        block.with("is_error"@, JsonView::Bool(true))
    } else {
        block
    }
}

fn make_text_block(text: &str) -> (r: Value)
    ensures
        held(r) == text_block(text@),
{
    let mut v: Value = json::typed_object("text");
    json::set(&mut v, "text", json::text(text));
    v
}

fn make_result_block(call_id: &str, content: &str, failed: bool) -> (r: Value)
    ensures
        held(r) == result_block(call_id@, content@, failed),
{
    let mut v: Value = json::typed_object("tool_result");
    json::set(&mut v, "tool_use_id", json::text(call_id));
    json::set(&mut v, "content", json::text(content));
    if failed {
        json::set(&mut v, "is_error", json::boolean(true));
    }
    v
}

/// The block of a piece of a message. An image has none.
pub open spec fn content_block(c: ContentItem) -> Result<JsonView, Seq<char>> {
    match c {
        ContentItem::InputText { text } => Ok(text_block(text@)),
        ContentItem::OutputText { text } => Ok(text_block(text@)),
        ContentItem::InputImage { .. } => Err(
            "image input not supported in v1 anthropic connector (no capability flags)"@,
        ),
    }
}

/// Maps a piece of a message to a block.
pub fn content_item_to_block(c: &ContentItem) -> (r: Result<Value, ConnError>)
    ensures
        builds(r, content_block(*c)),
{
    match c {
        ContentItem::InputText { text } => Ok(make_text_block(text.as_str())),
        ContentItem::OutputText { text } => Ok(make_text_block(text.as_str())),
        ContentItem::InputImage { .. } => Err(
            ConnError::HardFail(
                "image input not supported in v1 anthropic connector (no capability flags)".to_owned(),
            ),
        ),
    }
}

/// The text of a structured tool result.
pub open spec fn anthropic_items_text(items: Seq<FunctionCallOutputContentItem>) -> Result<
    Seq<char>,
    Seq<char>,
> {
    items_text(
        items,
        "tool result contains image content (InputImage), v1 anthropic connector not supported"@,
        "tool result contains encrypted content (EncryptedContent), v1 anthropic connector not supported"@,
    )
}

/// The text of a structured tool result.
pub fn tool_result_items_to_text(items: &Vec<FunctionCallOutputContentItem>) -> (r: Result<
    String,
    ConnError,
>)
    ensures
        spells(r, anthropic_items_text(items@)),
{
    items_to_text(
        items,
        "tool result contains image content (InputImage), v1 anthropic connector not supported",
        "tool result contains encrypted content (EncryptedContent), v1 anthropic connector not supported",
    )
}

/// The block of a tool result, marked if the tool is known to have failed.
pub open spec fn output_block(call_id: Seq<char>, output: FunctionCallOutputPayload) -> Result<
    JsonView,
    Seq<char>,
> {
    let text = match output.body {
        FunctionCallOutputBody::Text(t) => Ok(t@),
        FunctionCallOutputBody::ContentItems(items) => anthropic_items_text(items@),
    };
    match text {
        Ok(t) => Ok(result_block(call_id, t, output.success == Some(false))),
        Err(reason) => Err(reason),
    }
}

/// Maps a tool result to a block.
pub fn tool_result_block(call_id: &str, output: &FunctionCallOutputPayload) -> (r: Result<
    Value,
    ConnError,
>)
    ensures
        builds(r, output_block(call_id@, *output)),
{
    let text: String = match &output.body {
        FunctionCallOutputBody::Text(t) => t.clone(),
        FunctionCallOutputBody::ContentItems(items) => match tool_result_items_to_text(items) {
            Ok(t) => t,
            Err(e) => {
                return Err(e);
            },
        },
    };
    let failed: bool = match output.success {
        Some(ok) => !ok,
        None => false,
    };
    Ok(make_result_block(call_id, text.as_str(), failed))
}

/// The block of a call, given what its arguments denote: a JSON value, or why they denote none.
pub open spec fn call_block(
    call_id: Seq<char>,
    name: Seq<char>,
    input: Result<JsonView, Seq<char>>,
) -> Result<JsonView, Seq<char>> {
    match input {
        Ok(v) => Ok(use_block(call_id, name, v)),
        Err(why) => Err("FunctionCall arguments invalid JSON: "@ + why),
    }
}

/// Maps a call to a block, given what its arguments denote: a JSON value, or why they denote none.
pub fn tool_use_block(call_id: &str, name: &str, input: Result<Value, String>) -> (r: Result<
    Value,
    ConnError,
>)
    ensures
        builds(
            r,
            call_block(
                call_id@,
                name@,
                match input {
                    Ok(v) => Ok(held(v)),
                    Err(why) => Err(why@),
                },
            ),
        ),
{
    match input {
        Ok(x) => {
            let mut v: Value = json::typed_object("tool_use");
            json::set(&mut v, "id", json::text(call_id));
            json::set(&mut v, "name", json::text(name));
            json::set(&mut v, "input", x);
            Ok(v)
        },
        Err(why) => Err(
            ConnError::HardFail(join("FunctionCall arguments invalid JSON: ", why.as_str())),
        ),
    }
}

// ---- history ----

/// What the history amounts to so far.
pub struct Scan {
    pub turns: Seq<Turn>,
    /// The identifiers of all calls.
    pub calls: Seq<Seq<char>>,
    /// The identifiers of the calls without a result.
    pub needing: Seq<Seq<char>>,
}

/// Nothing has been scanned.
pub open spec fn scan_start() -> Scan {
    Scan { turns: Seq::empty(), calls: Seq::empty(), needing: Seq::empty() }
}

/// The role under which a message is sent.
pub open spec fn turn_role(role: Seq<char>) -> Seq<char> {
    if role == "assistant"@ {
        "assistant"@
    } else {
        "user"@
    }
}

/// The turns after the pieces of a message, up to the first that is refused.
pub open spec fn with_content(
    turns: Seq<Turn>,
    role: Seq<char>,
    content: Seq<ContentItem>,
) -> Result<Seq<Turn>, Seq<char>>
    decreases content.len(),
{
    if content.len() == 0 {
        Ok(turns)
    } else {
        match content_block(content[0]) {
            Ok(block) => with_content(with_block(turns, role, block), role, content.skip(1)),
            Err(reason) => Err(reason),
        }
    }
}

/// The turns after the pieces of a message between agents, up to the first that is encrypted.
pub open spec fn with_agent_content(
    turns: Seq<Turn>,
    content: Seq<AgentMessageInputContent>,
) -> Result<Seq<Turn>, Seq<char>>
    decreases content.len(),
{
    if content.len() == 0 {
        Ok(turns)
    } else {
        match content[0] {
            AgentMessageInputContent::InputText { text } => with_agent_content(
                with_block(turns, "assistant"@, text_block(text@)),
                content.skip(1),
            ),
            AgentMessageInputContent::EncryptedContent { .. } => Err(
                "AgentMessage contains encrypted content (EncryptedContent), v1 anthropic connector cannot read it"@,
            ),
        }
    }
}

/// The history with other turns.
pub open spec fn with_turns(s: Scan, turns: Result<Seq<Turn>, Seq<char>>) -> Result<
    Scan,
    Seq<char>,
> {
    match turns {
        Ok(turns) => Ok(Scan { turns, ..s }),
        Err(reason) => Err(reason),
    }
}

/// What one more item does. A result whose call has not been seen is dropped, and so are items
/// that only concern the client.
pub open spec fn scan_item(s: Scan, item: ResponseItem) -> Result<Scan, Seq<char>> {
    match item {
        ResponseItem::Message { role, content, .. } => with_turns(
            s,
            with_content(s.turns, turn_role(role@), content@),
        ),
        ResponseItem::AgentMessage { content, .. } => with_turns(
            s,
            with_agent_content(s.turns, content@),
        ),
        ResponseItem::FunctionCall { name, namespace, arguments, call_id, .. } => if namespace
            is Some {
            Err(
                "namespaced function call '"@ + name@
                    + "' not supported in v1 anthropic connector"@,
            )
        } else {
            match call_block(call_id@, name@, parsed(arguments@)) {
                Ok(block) => Ok(
                    Scan {
                        turns: with_block(s.turns, "assistant"@, block),
                        calls: s.calls.push(call_id@),
                        needing: s.needing.push(call_id@),
                    },
                ),
                Err(reason) => Err(reason),
            }
        },
        ResponseItem::FunctionCallOutput { call_id, output, .. } => if !s.calls.contains(call_id@) {
            Ok(s)
        } else {
            match output_block(call_id@, output) {
                Ok(block) => Ok(
                    Scan {
                        turns: with_block(s.turns, "user"@, block),
                        calls: s.calls,
                        needing: others(s.needing, call_id@),
                    },
                ),
                Err(reason) => Err(reason),
            }
        },
        ResponseItem::Reasoning { .. } => Ok(s),
        ResponseItem::CompactionTrigger { .. } => Ok(s),
        _ => Err(variant(item) + " not supported in v1 anthropic connector"@),
    }
}

/// What some more items do, one after the other, up to the first that is refused.
pub open spec fn scan_items(s: Scan, items: Seq<ResponseItem>) -> Result<Scan, Seq<char>>
    decreases items.len(),
{
    if items.len() == 0 {
        Ok(s)
    } else {
        match scan_item(s, items[0]) {
            Ok(next) => scan_items(next, items.skip(1)),
            Err(reason) => Err(reason),
        }
    }
}

/// The turns after results that stand in for the missing ones.
pub open spec fn with_placeholders(turns: Seq<Turn>, needing: Seq<Seq<char>>) -> Seq<Turn>
    decreases needing.len(),
{
    if needing.len() == 0 {
        turns
    } else {
        with_placeholders(
            with_block(
                turns,
                "user"@,
                result_block(needing[0], "[No output available yet]"@, false),
            ),
            needing.skip(1),
        )
    }
}

/// The turns of a request.
pub open spec fn anthropic_turns(input: Seq<ResponseItem>) -> Result<Seq<Turn>, Seq<char>> {
    match scan_items(scan_start(), input) {
        Ok(s) => Ok(with_placeholders(s.turns, s.needing)),
        Err(reason) => Err(reason),
    }
}

/// The message of a turn.
pub open spec fn turn_json(t: Turn) -> JsonView {
    empty_object().with("role"@, JsonView::Text(t.role)).with(
        "content"@,
        JsonView::List(t.blocks),
    )
}

/// The messages of a request.
pub open spec fn anthropic_messages(input: Seq<ResponseItem>) -> Result<Seq<JsonView>, Seq<char>> {
    match anthropic_turns(input) {
        Ok(turns) => Ok(turns.map_values(|t: Turn| turn_json(t))),
        Err(reason) => Err(reason),
    }
}

/// The history in the course of a scan.
struct Scanner {
    turns: Vec<(String, Vec<Value>)>,
    calls: Vec<String>,
    needing: Vec<String>,
}

impl View for Scanner {
    type V = Scan;

    closed spec fn view(&self) -> Scan {
        Scan {
            turns: turns_view(self.turns@),
            calls: texts(self.calls@),
            needing: texts(self.needing@),
        }
    }
}

/// Whether a step came to this history, or failed hard with this reason.
spec fn steps(r: Result<(), ConnError>, now: Scan, want: Result<Scan, Seq<char>>) -> bool {
    match (r, want) {
        (Ok(_), Ok(s)) => now == s,
        (Err(e), Err(reason)) => e.hard_fails(reason),
        _ => false,
    }
}

impl Scanner {
    fn block(&mut self, role: &str, block: Value)
        ensures
            final(self)@ == (Scan {
                turns: with_block(old(self)@.turns, role@, held(block)),
                ..old(self)@
            }),
    {
        push_block(role, block, &mut self.turns);
    }

    fn message(&mut self, role: &str, content: &Vec<ContentItem>) -> (r: Result<(), ConnError>)
        ensures
            steps(
                r,
                final(self)@,
                with_turns(
                    old(self)@,
                    with_content(old(self)@.turns, turn_role(role@), content@),
                ),
            ),
    {
        let sent: &str = if same(role, "assistant") {
            "assistant"
        } else {
            "user"
        };
        let ghost start = self@;
        let mut i: usize = 0;
        assert(content@.skip(0) =~= content@);
        while i < content.len()
            invariant
                i <= content@.len(),
                self@ == (Scan { turns: self@.turns, ..start }),
                sent@ == turn_role(role@),
                with_content(start.turns, sent@, content@) == with_content(
                    self@.turns,
                    sent@,
                    content@.skip(i as int),
                ),
                start == old(self)@,
            decreases content.len() - i,
        {
            assert(content@.skip(i as int).skip(1) =~= content@.skip(i + 1));
            match content_item_to_block(&content[i]) {
                Ok(block) => self.block(sent, block),
                Err(e) => {
                    return Err(e);
                },
            }
            i += 1;
        }
        Ok(())
    }

    fn agent_message(&mut self, content: &Vec<AgentMessageInputContent>) -> (r: Result<
        (),
        ConnError,
    >)
        ensures
            steps(
                r,
                final(self)@,
                with_turns(old(self)@, with_agent_content(old(self)@.turns, content@)),
            ),
    {
        let ghost start = self@;
        let mut i: usize = 0;
        assert(content@.skip(0) =~= content@);
        while i < content.len()
            invariant
                i <= content@.len(),
                self@ == (Scan { turns: self@.turns, ..start }),
                with_agent_content(start.turns, content@) == with_agent_content(
                    self@.turns,
                    content@.skip(i as int),
                ),
                start == old(self)@,
            decreases content.len() - i,
        {
            assert(content@.skip(i as int).skip(1) =~= content@.skip(i + 1));
            match &content[i] {
                AgentMessageInputContent::InputText { text } => self.block(
                    "assistant",
                    make_text_block(text.as_str()),
                ),
                AgentMessageInputContent::EncryptedContent { .. } => {
                    return Err(
                        ConnError::HardFail(
                            "AgentMessage contains encrypted content (EncryptedContent), v1 anthropic connector cannot read it".to_owned(),
                        ),
                    );
                },
            }
            i += 1;
        }
        Ok(())
    }

    fn call(&mut self, call_id: &str, block: Value)
        ensures
            final(self)@ == (Scan {
                turns: with_block(old(self)@.turns, "assistant"@, held(block)),
                calls: old(self)@.calls.push(call_id@),
                needing: old(self)@.needing.push(call_id@),
            }),
    {
        self.calls.push(call_id.to_owned());
        assert(self@.calls =~= old(self)@.calls.push(call_id@));
        self.needing.push(call_id.to_owned());
        assert(self@.needing =~= old(self)@.needing.push(call_id@));
        self.block("assistant", block);
    }

    fn output(&mut self, call_id: &str, output: &FunctionCallOutputPayload) -> (r: Result<
        (),
        ConnError,
    >)
        ensures
            steps(
                r,
                final(self)@,
                if !old(self)@.calls.contains(call_id@) {
                    Ok(old(self)@)
                } else {
                    match output_block(call_id@, *output) {
                        Ok(block) => Ok(
                            Scan {
                                turns: with_block(old(self)@.turns, "user"@, block),
                                calls: old(self)@.calls,
                                needing: others(old(self)@.needing, call_id@),
                            },
                        ),
                        Err(reason) => Err(reason),
                    }
                },
            ),
    {
        if !holds(&self.calls, call_id) {
            return Ok(());
        }
        let mut needing: Vec<String> = Vec::new();
        std::mem::swap(&mut self.needing, &mut needing);
        self.needing = without(needing, call_id);
        match tool_result_block(call_id, output) {
            Ok(block) => {
                self.block("user", block);
                Ok(())
            },
            Err(e) => Err(e),
        }
    }

    fn item(&mut self, item: &ResponseItem) -> (r: Result<(), ConnError>)
        ensures
            steps(r, final(self)@, scan_item(old(self)@, *item)),
    {
        match item {
            ResponseItem::Message { role, content, .. } => self.message(role.as_str(), content),
            ResponseItem::AgentMessage { content, .. } => self.agent_message(content),
            ResponseItem::FunctionCall { name, namespace, arguments, call_id, .. } => {
                if namespace.is_some() {
                    let reason: String = join3(
                        "namespaced function call '",
                        name.as_str(),
                        "' not supported in v1 anthropic connector",
                    );
                    return Err(ConnError::HardFail(reason));
                }
                let input: Result<Value, String> = json::parse(arguments.as_str());
                match tool_use_block(call_id.as_str(), name.as_str(), input) {
                    Ok(block) => {
                        self.call(call_id.as_str(), block);
                        Ok(())
                    },
                    Err(e) => Err(e),
                }
            },
            ResponseItem::FunctionCallOutput { call_id, output, .. } => self.output(
                call_id.as_str(),
                output,
            ),
            ResponseItem::Reasoning { .. } => Ok(()),
            ResponseItem::CompactionTrigger { .. } => Ok(()),
            _ => Err(
                ConnError::HardFail(
                    join(variant_name(item), " not supported in v1 anthropic connector"),
                ),
            ),
        }
    }
}

/// The messages of a request.
fn build_messages(input: &Vec<ResponseItem>) -> (r: Result<Vec<Value>, ConnError>)
    ensures
        match (r, anthropic_messages(input@)) {
            (Ok(ms), Ok(want)) => held_all(ms@) == want,
            (Err(e), Err(reason)) => e.hard_fails(reason),
            _ => false,
        },
{
    let mut s: Scanner = Scanner { turns: Vec::new(), calls: Vec::new(), needing: Vec::new() };
    proof {
        assert(s@.turns =~= Seq::empty());
        assert(s@.calls =~= Seq::empty());
        assert(s@.needing =~= Seq::empty());
        assert(input@.skip(0) =~= input@);
    }
    let mut i: usize = 0;
    while i < input.len()
        invariant
            i <= input@.len(),
            scan_items(scan_start(), input@) == scan_items(s@, input@.skip(i as int)),
        decreases input.len() - i,
    {
        assert(input@.skip(i as int).skip(1) =~= input@.skip(i + 1));
        match s.item(&input[i]) {
            Ok(_) => {},
            Err(e) => {
                return Err(e);
            },
        }
        i += 1;
    }
    let ghost end = s@;
    let mut turns: Vec<(String, Vec<Value>)> = s.turns;
    let needing: Vec<String> = s.needing;
    let mut k: usize = 0;
    assert(end.needing.skip(0) =~= end.needing);
    while k < needing.len()
        invariant
            k <= needing@.len(),
            end.needing == texts(needing@),
            with_placeholders(end.turns, end.needing) == with_placeholders(
                turns_view(turns@),
                end.needing.skip(k as int),
            ),
        decreases needing.len() - k,
    {
        assert(end.needing.skip(k as int).skip(1) =~= end.needing.skip(k + 1));
        assert(end.needing.skip(k as int)[0] == needing@[k as int]@);
        let block: Value = make_result_block(
            needing[k].as_str(),
            "[No output available yet]",
            false,
        );
        push_block("user", block, &mut turns);
        k += 1;
    }
    let ghost all = turns_view(turns@);
    let ghost want = all.map_values(|t: Turn| turn_json(t));
    let mut messages: Vec<Value> = Vec::new();
    assert(held_all(messages@) =~= want.take(0));
    for t in it: turns
        invariant
            it.seq() == turns@,
            all == turns_view(turns@),
            want == all.map_values(|t: Turn| turn_json(t)),
            held_all(messages@) == want.take(it.index()),
    {
        let ghost n = it.index();
        let ghost before = messages@;
        let mut m: Value = json::object_of("role", json::text(t.0.as_str()));
        json::set(&mut m, "content", json::list(t.1));
        messages.push(m);
        proof {
            assert(held(m) == want[n]);
            assert(held_all(messages@) =~= held_all(before).push(held(m)));
            assert(want.take(n + 1) =~= want.take(n).push(want[n]));
        }
    }
    assert(want.take(want.len() as int) =~= want);
    Ok(messages)
}

// ---- tools ----

/// A tool definition in the form of the upstream. Only a function has one. A description that is
/// null or missing is left out.
pub open spec fn anthropic_tool(t: JsonView) -> Result<JsonView, Seq<char>> {
    if t.text_at("type"@) == Some("function"@) {
        let tool = empty_object().with("name"@, member_or(t, "name"@, JsonView::Null)).with(
            "input_schema"@,
            member_or(t, "parameters"@, typed("object"@)),
        );
        Ok(
            match t.get("description"@) {
                Some(d) => if d is Null {
                    tool
                } else {
                    tool.with("description"@, d)
                },
                None => tool,
            },
        )
    } else {
        Err(
            "tool definition type "@ + shown(t.text_at("type"@))
                + " not supported in v1 anthropic connector (only standard function)"@,
        )
    }
}

/// The tool definitions behind `done` in the form of the upstream. The first that has none decides.
pub open spec fn anthropic_tools_from(done: Seq<JsonView>, tools: Seq<JsonView>) -> Result<
    Seq<JsonView>,
    Seq<char>,
>
    decreases tools.len(),
{
    if tools.len() == 0 {
        Ok(done)
    } else {
        match anthropic_tool(tools[0]) {
            Ok(t) => anthropic_tools_from(done.push(t), tools.skip(1)),
            Err(reason) => Err(reason),
        }
    }
}

/// The tool definitions in the form of the upstream, none where there are none.
pub open spec fn anthropic_tools(tools: Seq<JsonView>) -> Result<Option<Seq<JsonView>>, Seq<char>> {
    if tools.len() == 0 {
        Ok(None)
    } else {
        match anthropic_tools_from(Seq::empty(), tools) {
            Ok(ts) => Ok(Some(ts)),
            Err(reason) => Err(reason),
        }
    }
}

/// Maps a tool definition.
fn map_tool(t: &Value) -> (r: Result<Value, ConnError>)
    ensures
        builds(r, anthropic_tool(held(*t))),
{
    let kind: Option<&str> = json::text_at(t, "type");
    let is_function: bool = match kind {
        Some(k) => same(k, "function"),
        None => false,
    };
    if is_function {
        let schema: Value = json::copy_or(t, "parameters", json::typed_object("object"));
        let mut tool: Value = json::object_of("name", json::copy_or(t, "name", json::null()));
        json::set(&mut tool, "input_schema", schema);
        if let Some(d) = json::get(t, "description") {
            if !json::is_null(d) {
                json::set(&mut tool, "description", d.clone());
            }
        }
        Ok(tool)
    } else {
        let found: String = show(kind);
        Err(
            ConnError::HardFail(
                join3(
                    "tool definition type ",
                    found.as_str(),
                    " not supported in v1 anthropic connector (only standard function)",
                ),
            ),
        )
    }
}

/// Maps the tool definitions.
pub fn map_tools(tools: &Vec<Value>) -> (r: Result<Option<Vec<Value>>, ConnError>)
    ensures
        match (r, anthropic_tools(held_all(tools@))) {
            (Ok(Some(ts)), Ok(Some(want))) => held_all(ts@) == want,
            (Ok(None), Ok(None)) => true,
            (Err(e), Err(reason)) => e.hard_fails(reason),
            _ => false,
        },
{
    if tools.len() == 0 {
        return Ok(None);
    }
    let ghost all = held_all(tools@);
    let mut out: Vec<Value> = Vec::new();
    assert(held_all(out@) =~= Seq::empty());
    assert(all.skip(0) =~= all);
    let mut i: usize = 0;
    while i < tools.len()
        invariant
            i <= tools@.len(),
            all == held_all(tools@),
            anthropic_tools_from(Seq::empty(), all) == anthropic_tools_from(
                held_all(out@),
                all.skip(i as int),
            ),
        decreases tools.len() - i,
    {
        assert(all.skip(i as int).skip(1) =~= all.skip(i + 1));
        assert(all.skip(i as int)[0] == held(tools@[i as int]));
        let ghost before = out@;
        match map_tool(&tools[i]) {
            Ok(v) => {
                out.push(v);
                assert(held_all(out@) =~= held_all(before).push(held(v)));
            },
            Err(e) => {
                return Err(e);
            },
        }
        i += 1;
    }
    Ok(Some(out))
}

// ---- tool choice ----

/// The choice that a JSON value expresses: one tool, by its name.
pub open spec fn named_choice(v: JsonView) -> Option<JsonView> {
    if v.text_at("type"@) == Some("function"@) {
        match v.get("name"@) {
            Some(name) => Some(typed("tool"@).with("name"@, name)),
            None => None,
        }
    } else {
        None
    }
}

/// The tool choice in the form of the upstream, given the JSON value that its text denotes, if it
/// denotes one. An empty text is no choice.
pub open spec fn choice_given(tc: Seq<char>, v: Option<JsonView>) -> Result<
    Option<JsonView>,
    Seq<char>,
> {
    if tc == "auto"@ {
        Ok(Some(typed("auto"@)))
    } else if tc == "none"@ {
        Ok(Some(typed("none"@)))
    } else if tc == "required"@ {
        Ok(Some(typed("any"@)))
    } else if tc.len() == 0 {
        Ok(None)
    } else {
        let choice = match v {
            Some(j) => named_choice(j),
            None => None,
        };
        match choice {
            Some(c) => Ok(Some(c)),
            None => Err(
                "tool_choice '"@ + tc + "' cannot be expressed in Anthropic Messages protocol"@,
            ),
        }
    }
}

/// The tool choice in the form of the upstream.
pub open spec fn anthropic_choice(tc: Seq<char>) -> Result<Option<JsonView>, Seq<char>> {
    choice_given(tc, json::denoted(tc))
}

/// Maps a tool choice, given the JSON value that its text denotes, if it denotes one.
pub fn map_tool_choice_given(tc: &str, v: Option<Value>) -> (r: Result<Option<Value>, ConnError>)
    ensures
        chooses(r, choice_given(tc@, held_opt(v))),
        r matches Ok(Some(c)) ==> held(c) is Object,
{
    if same(tc, "auto") {
        return Ok(Some(json::typed_object("auto")));
    }
    if same(tc, "none") {
        return Ok(Some(json::typed_object("none")));
    }
    if same(tc, "required") {
        return Ok(Some(json::typed_object("any")));
    }
    if tc.is_empty() {
        return Ok(None);
    }
    if let Some(v) = v {
        let is_function: bool = match json::text_at(&v, "type") {
            Some(k) => same(k, "function"),
            None => false,
        };
        if is_function {
            if let Some(name) = json::get(&v, "name") {
                let mut choice: Value = json::typed_object("tool");
                json::set(&mut choice, "name", name.clone());
                return Ok(Some(choice));
            }
        }
    }
    Err(
        ConnError::HardFail(
            join3("tool_choice '", tc, "' cannot be expressed in Anthropic Messages protocol"),
        ),
    )
}

/// Maps a tool choice. What is not one of the three words may be JSON that names a function.
pub fn map_tool_choice(tc: &str) -> (r: Result<Option<Value>, ConnError>)
    ensures
        chooses(r, anthropic_choice(tc@)),
        r matches Ok(Some(c)) ==> held(c) is Object,
{
    map_tool_choice_given(tc, json::denoted_value(tc))
}

/// The tool choice with parallel use switched off where that is asked for.
pub open spec fn with_parallel(choice: Option<JsonView>, parallel: bool) -> Option<JsonView> {
    if parallel {
        choice
    } else {
        let c = match choice {
            Some(c) => c,
            None => typed("auto"@),
        };
        Some(c.with("disable_parallel_tool_use"@, JsonView::Bool(true)))
    }
}

// ---- remaining fields ----

/// How many tokens a response may have.
pub open spec fn max_tokens(default: Option<u32>) -> u32 {
    match default {
        Some(n) => n,
        None => DEFAULT_MAX_TOKENS,
    }
}

/// How many tokens the upstream may think: half of what a response may have, but not less than
/// 1024 and not more than 8000.
pub open spec fn thinking_budget(max_tokens: u32) -> u64 {
    if max_tokens / 2 < 1024 {
        1024
    } else if max_tokens / 2 > 8000 {
        8000
    } else {
        (max_tokens / 2) as u64
    }
}

/// The thinking that a request asks for, by naming an effort.
pub open spec fn thinking(req: ResponsesApiRequest, max_tokens: u32) -> Option<JsonView> {
    match req.reasoning {
        Some(reasoning) => if reasoning.effort is Some {
            Some(
                typed("enabled"@).with(
                    "budget_tokens"@,
                    JsonView::Int(thinking_budget(max_tokens) as int),
                ),
            )
        } else {
            None
        },
        None => None,
    }
}

/// What the upstream is told in words of a structured output format, as it has no field for one.
pub open spec fn format_hint(format: JsonView) -> Seq<char> {
    if format.text_at("type"@) == Some("json_schema"@) {
        "\n\nYou must respond with valid JSON matching this schema: "@ + json_text(format)
    } else {
        "\n\nRespond with valid JSON."@
    }
}

/// The system prompt: the instructions and behind them the hint on the output format.
pub open spec fn system_text(instructions: Seq<char>, format: Option<JsonView>) -> Option<
    Seq<char>,
> {
    match format {
        Some(f) => Some(instructions + format_hint(f)),
        None => if instructions.len() > 0 {
            Some(instructions)
        } else {
            None
        },
    }
}

fn thinking_tokens(max_tokens: u32) -> (r: u64)
    ensures
        r == thinking_budget(max_tokens),
{
    let half: u32 = max_tokens / 2;
    if half < 1024 {
        1024
    } else if half > 8000 {
        8000
    } else {
        half as u64
    }
}

fn map_thinking(req: &ResponsesApiRequest, max_tokens: u32) -> (r: Option<Value>)
    ensures
        held_opt(r) == thinking(*req, max_tokens),
{
    match &req.reasoning {
        Some(reasoning) => if reasoning.effort.is_some() {
            let mut v: Value = json::typed_object("enabled");
            json::set(&mut v, "budget_tokens", json::number(thinking_tokens(max_tokens)));
            Some(v)
        } else {
            None
        },
        None => None,
    }
}

fn map_format_hint(format: &Value) -> (r: String)
    ensures
        r@ == format_hint(held(*format)),
{
    let is_schema: bool = match json::text_at(format, "type") {
        Some(k) => same(k, "json_schema"),
        None => false,
    };
    if is_schema {
        let shown: String = json::print(format);
        join(
            "\n\nYou must respond with valid JSON matching this schema: ",
            shown.as_str(),
        )
    } else {
        "\n\nRespond with valid JSON.".to_owned()
    }
}

/// A text as a JSON value, where there is one.
pub open spec fn opt_text_json(s: Option<Seq<char>>) -> Option<JsonView> {
    match s {
        Some(t) => Some(JsonView::Text(t)),
        None => None,
    }
}

fn map_system(req: &ResponsesApiRequest) -> (r: Option<Value>)
    ensures
        held_opt(r) == opt_text_json(system_text(req.instructions@, format_of(*req))),
{
    if let Some(controls) = &req.text {
        if let Some(format) = &controls.format {
            let hint: String = map_format_hint(format);
            let system: String = join(req.instructions.as_str(), hint.as_str());
            return Some(json::text(system.as_str()));
        }
    }
    if req.instructions.as_str().is_empty() {
        None
    } else {
        Some(json::text(req.instructions.as_str()))
    }
}

// ---- request ----

/// The body before what only some requests have.
pub open spec fn anthropic_base(model: Seq<char>, messages: Seq<JsonView>, max_tokens: u32) -> JsonView {
    empty_object().with("model"@, JsonView::Text(model)).with(
        "messages"@,
        JsonView::List(messages),
    ).with("max_tokens"@, JsonView::Int(max_tokens as int)).with("stream"@, JsonView::Bool(true))
}

/// The body with the tools and, only together with some, the tool choice.
pub open spec fn with_tools(
    body: JsonView,
    tools: Option<Seq<JsonView>>,
    choice: Result<Option<JsonView>, Seq<char>>,
    parallel: bool,
) -> Result<JsonView, Seq<char>> {
    match tools {
        None => Ok(body),
        Some(ts) => match choice {
            Err(reason) => Err(reason),
            Ok(c) => Ok(
                with_some(
                    body.with("tools"@, JsonView::List(ts)),
                    "tool_choice"@,
                    with_parallel(c, parallel),
                ),
            ),
        },
    }
}

/// The mark by which the upstream is asked to cache the prompt.
pub open spec fn cache_mark(prompt_cache: bool) -> Option<JsonView> {
    if prompt_cache {
        Some(typed("ephemeral"@))
    } else {
        None
    }
}

/// The body of the request to the upstream, or why there is none. The tools are looked at first,
/// then the history, then the tool choice.
pub open spec fn anthropic_body(
    req: ResponsesApiRequest,
    model: Seq<char>,
    default_max_tokens: Option<u32>,
    prompt_cache: bool,
) -> Result<JsonView, Seq<char>> {
    let max = max_tokens(default_max_tokens);
    match anthropic_tools(held_all(req.tools@)) {
        Err(reason) => Err(reason),
        Ok(tools) => match anthropic_messages(req.input@) {
            Err(reason) => Err(reason),
            Ok(messages) => {
                let base = with_some(
                    anthropic_base(model, messages, max),
                    "system"@,
                    opt_text_json(system_text(req.instructions@, format_of(req))),
                );
                match with_tools(
                    base,
                    tools,
                    anthropic_choice(req.tool_choice@),
                    req.parallel_tool_calls,
                ) {
                    Err(reason) => Err(reason),
                    Ok(body) => Ok(
                        with_some(
                            with_some(body, "thinking"@, thinking(req, max)),
                            "cache_control"@,
                            cache_mark(prompt_cache),
                        ),
                    ),
                }
            },
        },
    }
}

/// Builds the body of an Anthropic Messages request.
pub fn build_anthropic_request(req: &ResponsesApiRequest, ctx: &EgressCtx) -> (r: Result<
    Value,
    ConnError,
>)
    ensures
        builds(r, anthropic_body(*req, ctx.model@, ctx.default_max_tokens, ctx.prompt_cache)),
{
    let tools: Option<Vec<Value>> = match map_tools(&req.tools) {
        Ok(t) => t,
        Err(e) => {
            return Err(e);
        },
    };
    let messages: Vec<Value> = match build_messages(&req.input) {
        Ok(m) => m,
        Err(e) => {
            return Err(e);
        },
    };
    let max: u32 = match ctx.default_max_tokens {
        Some(n) => n,
        None => DEFAULT_MAX_TOKENS,
    };

    let mut body: Value = json::object_of("model", json::text(ctx.model.as_str()));
    json::set(&mut body, "messages", json::list(messages));
    json::set(&mut body, "max_tokens", json::number(max as u64));
    json::set(&mut body, "stream", json::boolean(true));
    json::set_some(&mut body, "system", map_system(req));

    if let Some(ts) = tools {
        json::set(&mut body, "tools", json::list(ts));
        let choice: Option<Value> = match map_tool_choice(req.tool_choice.as_str()) {
            Ok(c) => c,
            Err(e) => {
                return Err(e);
            },
        };
        let sent: Option<Value> = if req.parallel_tool_calls {
            choice
        } else {
            let mut c: Value = match choice {
                Some(c) => c,
                None => json::typed_object("auto"),
            };
            json::set(&mut c, "disable_parallel_tool_use", json::boolean(true));
            Some(c)
        };
        json::set_some(&mut body, "tool_choice", sent);
    }
    json::set_some(&mut body, "thinking", map_thinking(req, max));
    if ctx.prompt_cache {
        json::set(&mut body, "cache_control", json::typed_object("ephemeral"));
    }
    Ok(body)
}

} // verus!
