//! The stream of a Chat Completions upstream.
//!
//! [`ChatSseState`] takes the records of the stream one by one. It passes text on as it arrives,
//! gathers the pieces of each tool call under the call's index, and at the end completes the
//! calls, then the whole text as one message, then the response.

use super::{
    latest, next_count, push_yields, synth_name, synth_text, text_done, ConnError, SseTranslator,
};
use crate::json::{self, held, held_all, json_text, JsonView};
use crate::order::{ordered_keys, values_in_order};
use crate::protocol::{
    assistant_message_done, call_done, events_view, function_call_done, EventView, ResponseEvent,
    TokenUsage,
};
use crate::text::{join, opt_text, same};
use serde_json::Value;
use std::collections::BTreeMap;
use vstd::prelude::*;
use vstd::string::*;

verus! {

// ---- model ----

/// What has arrived of one tool call.
pub struct ToolView {
    pub call_id: Option<Seq<char>>,
    pub name: Option<Seq<char>>,
    pub arguments: Seq<char>,
}

/// What has arrived of a response.
pub struct ChatModel {
    /// All text so far.
    pub text: Seq<char>,
    /// The first identifier that is not empty.
    pub response_id: Option<Seq<char>>,
    /// The last reason to stop that is not empty.
    pub finish_reason: Option<Seq<char>>,
    /// The last token counts that are not null.
    pub usage: Option<JsonView>,
    /// The tool calls by their index.
    pub calls: Map<i64, ToolView>,
    /// How many identifiers were made up.
    pub made_up: u64,
}

/// Nothing has arrived.
pub open spec fn chat_start() -> ChatModel {
    ChatModel {
        text: Seq::empty(),
        response_id: None,
        finish_reason: None,
        usage: None,
        calls: Map::empty(),
        made_up: 0,
    }
}

pub open spec fn empty_tool() -> ToolView {
    ToolView { call_id: None, name: None, arguments: Seq::empty() }
}

/// A tool call after one more piece of it: an identifier and a name replace earlier ones unless
/// they are empty, the arguments are appended.
pub open spec fn tool_after(acc: ToolView, piece: JsonView) -> ToolView {
    let call_id = latest(piece.filled_text_at("id"@), acc.call_id);
    match piece.get("function"@) {
        Some(func) => ToolView {
            call_id,
            name: latest(func.filled_text_at("name"@), acc.name),
            arguments: match func.text_at("arguments"@) {
                Some(args) => acc.arguments + args,
                None => acc.arguments,
            },
        },
        None => ToolView { call_id, name: acc.name, arguments: acc.arguments },
    }
}

/// The index of a piece, zero where it has none.
pub open spec fn piece_index(piece: JsonView) -> i64 {
    match piece.i64_at("index"@) {
        Some(i) => i,
        None => 0,
    }
}

/// The tool calls after one more piece.
pub open spec fn calls_after(calls: Map<i64, ToolView>, piece: JsonView) -> Map<i64, ToolView> {
    let i = piece_index(piece);
    let acc = if calls.contains_key(i) {
        calls[i]
    } else {
        empty_tool()
    };
    calls.insert(i, tool_after(acc, piece))
}

/// The tool calls after some more pieces.
pub open spec fn calls_after_all(calls: Map<i64, ToolView>, pieces: Seq<JsonView>) -> Map<
    i64,
    ToolView,
>
    decreases pieces.len(),
{
    if pieces.len() == 0 {
        calls
    } else {
        calls_after(calls_after_all(calls, pieces.drop_last()), pieces.last())
    }
}

/// The first choice of a record.
pub open spec fn first_choice(chunk: JsonView) -> Option<JsonView> {
    match chunk.list_at("choices"@) {
        Some(choices) => if choices.len() > 0 {
            Some(choices[0])
        } else {
            None
        },
        None => None,
    }
}

/// The text that a choice adds.
pub open spec fn choice_text(choice: JsonView) -> Option<Seq<char>> {
    match choice.get("delta"@) {
        Some(delta) => delta.filled_text_at("content"@),
        None => None,
    }
}

/// The pieces of tool calls that a choice adds.
pub open spec fn choice_pieces(choice: JsonView) -> Seq<JsonView> {
    match choice.get("delta"@) {
        Some(delta) => match delta.list_at("tool_calls"@) {
            Some(pieces) => pieces,
            None => Seq::empty(),
        },
        None => Seq::empty(),
    }
}

/// The response after the parts of a record that stand outside its choices.
pub open spec fn after_header(m: ChatModel, chunk: JsonView) -> ChatModel {
    ChatModel {
        response_id: latest(m.response_id, chunk.filled_text_at("id"@)),
        usage: match chunk.get("usage"@) {
            Some(u) => if u is Null {
                m.usage
            } else {
                Some(u)
            },
            None => m.usage,
        },
        ..m
    }
}

/// The response after the first choice of a record.
pub open spec fn after_choice(m: ChatModel, choice: JsonView) -> ChatModel {
    ChatModel {
        finish_reason: latest(choice.filled_text_at("finish_reason"@), m.finish_reason),
        text: match choice_text(choice) {
            Some(t) => m.text + t,
            None => m.text,
        },
        calls: calls_after_all(m.calls, choice_pieces(choice)),
        ..m
    }
}

/// What a record does. A record with an error fails and changes nothing; any other yields its
/// text, if it has some.
pub open spec fn chat_pushed(m: ChatModel, chunk: JsonView) -> (ChatModel, Result<
    Seq<EventView>,
    Seq<char>,
>) {
    match chunk.get("error"@) {
        Some(err) => (m, Err("upstream error in SSE chunk: "@ + json_text(err))),
        None => match first_choice(chunk) {
            None => (after_header(m, chunk), Ok(Seq::empty())),
            Some(choice) => (
                after_choice(after_header(m, chunk), choice),
                Ok(
                    match choice_text(choice) {
                        Some(t) => seq![EventView::OutputTextDelta(t)],
                        None => Seq::empty(),
                    },
                ),
            ),
        },
    }
}

/// What a reason to stop says of the turn.
pub open spec fn chat_end_turn(reason: Option<Seq<char>>) -> Option<bool> {
    match reason {
        Some(r) => if r == "stop"@ {
            Some(true)
        } else if r == "tool_calls"@ || r == "length"@ {
            Some(false)
        } else {
            None
        },
        None => None,
    }
}

/// The count under `key`, zero where there is none.
pub open spec fn count_at(u: JsonView, key: Seq<char>) -> i64 {
    match u.i64_at(key) {
        Some(n) => n,
        None => 0,
    }
}

/// What the token counts of an upstream say.
pub open spec fn chat_usage(u: JsonView) -> TokenUsage {
    TokenUsage {
        input_tokens: count_at(u, "prompt_tokens"@),
        cached_input_tokens: match u.get("prompt_tokens_details"@) {
            Some(d) => count_at(d, "cached_tokens"@),
            None => 0,
        },
        output_tokens: count_at(u, "completion_tokens"@),
        reasoning_output_tokens: 0,
        total_tokens: count_at(u, "total_tokens"@),
    }
}

/// The completed calls, and how many identifiers are made up after them. A call without an
/// identifier gets the next made-up one.
pub open spec fn calls_done(accs: Seq<ToolView>, made_up: u64) -> (Seq<EventView>, u64)
    decreases accs.len(),
{
    if accs.len() == 0 {
        (Seq::empty(), made_up)
    } else {
        let (events, n) = calls_done(accs.drop_last(), made_up);
        let acc = accs.last();
        let name = match acc.name {
            Some(s) => s,
            None => Seq::empty(),
        };
        match acc.call_id {
            Some(id) => (events.push(call_done(name, acc.arguments, id)), n),
            None => (
                events.push(
                    call_done(name, acc.arguments, synth_name("call"@, next_count(n))),
                ),
                next_count(n),
            ),
        }
    }
}

/// What the end of the stream does: the calls are completed in the order of their index, then the
/// message, then the response.
pub open spec fn chat_finished(m: ChatModel) -> (ChatModel, Seq<EventView>) {
    let (calls, n) = calls_done(values_in_order(m.calls), m.made_up);
    let made_up = if m.response_id is None {
        next_count(n)
    } else {
        n
    };
    let response_id = match m.response_id {
        Some(id) => id,
        None => synth_name("resp"@, made_up),
    };
    let token_usage = match m.usage {
        Some(u) => Some(chat_usage(u)),
        None => None,
    };
    (
        ChatModel {
            text: Seq::empty(),
            response_id: None,
            finish_reason: m.finish_reason,
            usage: m.usage,
            calls: Map::empty(),
            made_up,
        },
        (calls + text_done(m.text)).push(
            EventView::Completed {
                response_id,
                token_usage,
                end_turn: chat_end_turn(m.finish_reason),
            },
        ),
    )
}

// ---- state machine ----

/// What has arrived of one tool call.
#[derive(Debug)]
struct ToolAcc {
    call_id: Option<String>,
    name: Option<String>,
    arguments: String,
}

impl View for ToolAcc {
    type V = ToolView;

    closed spec fn view(&self) -> ToolView {
        ToolView {
            call_id: opt_text(self.call_id),
            name: opt_text(self.name),
            arguments: self.arguments@,
        }
    }
}

/// The state machine of a Chat Completions stream.
#[derive(Debug)]
pub struct ChatSseState {
    text: String,
    response_id: Option<String>,
    finish_reason: Option<String>,
    usage: Option<Value>,
    tool_calls: BTreeMap<i64, ToolAcc>,
    synth_counter: u64,
}

impl ToolAcc {
    /// Takes one more piece of the call.
    fn take_piece(&mut self, piece: &Value)
        ensures
            final(self)@ == tool_after(old(self)@, held(*piece)),
    {
        if let Some(id) = json::filled_text_at(piece, "id") {
            self.call_id = Some(id.to_owned());
        }
        if let Some(func) = json::get(piece, "function") {
            if let Some(name) = json::filled_text_at(func, "name") {
                self.name = Some(name.to_owned());
            }
            if let Some(args) = json::text_at(func, "arguments") {
                self.arguments.append(args);
            }
        }
    }
}

impl ChatSseState {
    /// The state as a mathematical value.
    pub closed spec fn view(&self) -> ChatModel {
        ChatModel {
            text: self.text@,
            response_id: opt_text(self.response_id),
            finish_reason: opt_text(self.finish_reason),
            usage: crate::json::held_opt(self.usage),
            calls: self.tool_calls@.map_values(|a: ToolAcc| a@),
            made_up: self.synth_counter,
        }
    }

    /// A state machine at the start of a stream.
    pub fn new() -> (r: ChatSseState)
        ensures
            r.view() == chat_start(),
    {
        let r = ChatSseState {
            text: String::new(),
            response_id: None,
            finish_reason: None,
            usage: None,
            tool_calls: BTreeMap::new(),
            synth_counter: 0,
        };
        assert(r.view().calls =~= chat_start().calls);
        r
    }

    /// Takes one more piece of a tool call.
    fn take_piece(&mut self, piece: &Value)
        ensures
            final(self).view() == (ChatModel {
                calls: calls_after(old(self).view().calls, held(*piece)),
                ..old(self).view()
            }),
    {
        broadcast use vstd::std_specs::btree::group_btree_axioms;

        let ghost before = self.tool_calls@;
        let i: i64 = match json::i64_at(piece, "index") {
            Some(i) => i,
            None => 0,
        };
        let mut acc: ToolAcc = match self.tool_calls.remove(&i) {
            Some(acc) => acc,
            None => ToolAcc { call_id: None, name: None, arguments: String::new() },
        };
        acc.take_piece(piece);
        let ghost after = acc;
        self.tool_calls.insert(i, acc);
        assert(self.tool_calls@ =~= before.insert(i, after));
        assert(self.view().calls =~= calls_after(old(self).view().calls, held(*piece)));
    }

    /// Takes one record of the stream and returns the events that it yields. It fails only on a
    /// record that carries an error; whatever else a record lacks or gets wrong is passed over.
    pub fn push_chunk(&mut self, chunk: &Value) -> (r: Result<Vec<ResponseEvent>, ConnError>)
        ensures
            final(self).view() == chat_pushed(old(self).view(), held(*chunk)).0,
            push_yields(r, chat_pushed(old(self).view(), held(*chunk)).1),
    {
        let mut out: Vec<ResponseEvent> = Vec::new();

        if let Some(err) = json::get(chunk, "error") {
            let shown: String = json::print(err);
            return Err(
                ConnError::HardFail(join("upstream error in SSE chunk: ", shown.as_str())),
            );
        }
        if let Some(id) = json::filled_text_at(chunk, "id") {
            if self.response_id.is_none() {
                self.response_id = Some(id.to_owned());
            }
        }
        if let Some(u) = json::get(chunk, "usage") {
            if !json::is_null(u) {
                self.usage = Some(u.clone());
            }
        }
        assert(self.view() == after_header(old(self).view(), held(*chunk)));

        let choice: &Value = match json::list_at(chunk, "choices") {
            Some(choices) => if choices.len() > 0 {
                &choices[0]
            } else {
                assert(events_view(out@) =~= Seq::empty());
                return Ok(out);
            },
            None => {
                assert(events_view(out@) =~= Seq::empty());
                return Ok(out);
            },
        };
        assert(first_choice(held(*chunk)) == Some(held(*choice)));

        if let Some(reason) = json::filled_text_at(choice, "finish_reason") {
            self.finish_reason = Some(reason.to_owned());
        }
        let ghost pieces = choice_pieces(held(*choice));
        let ghost calls = self.view().calls;
        if let Some(delta) = json::get(choice, "delta") {
            if let Some(content) = json::filled_text_at(delta, "content") {
                self.text.append(content);
                out.push(ResponseEvent::OutputTextDelta(content.to_owned()));
            }
            if let Some(tcs) = json::list_at(delta, "tool_calls") {
                let ghost start = self.view();
                let mut i: usize = 0;
                while i < tcs.len()
                    invariant
                        i <= tcs@.len(),
                        pieces == held_all(tcs@),
                        self.view() == (ChatModel {
                            calls: calls_after_all(calls, pieces.take(i as int)),
                            ..start
                        }),
                    decreases tcs.len() - i,
                {
                    assert(pieces.take(i + 1).drop_last() =~= pieces.take(i as int));
                    assert(pieces.take(i + 1).last() == held(tcs@[i as int]));
                    self.take_piece(&tcs[i]);
                    i += 1;
                }
                assert(pieces.take(pieces.len() as int) =~= pieces);
            }
        }
        assert(self.view() == after_choice(
            after_header(old(self).view(), held(*chunk)),
            held(*choice),
        ));
        proof {
            match choice_text(held(*choice)) {
                Some(t) => {
                    assert(events_view(out@) =~= seq![EventView::OutputTextDelta(t)]);
                },
                None => {
                    assert(events_view(out@) =~= Seq::empty());
                },
            }
        }
        Ok(out)
    }

    /// Ends the stream: completes the tool calls in the order of their index, then the text as one
    /// message if there is any, then the response.
    pub fn finish(&mut self) -> (r: Vec<ResponseEvent>)
        ensures
            final(self).view() == chat_finished(old(self).view()).0,
            events_view(r@) == chat_finished(old(self).view()).1,
    {
        broadcast use vstd::std_specs::btree::group_btree_axioms;

        let ghost start = self.view();
        let mut out: Vec<ResponseEvent> = Vec::new();
        let mut pending: BTreeMap<i64, ToolAcc> = BTreeMap::new();
        std::mem::swap(&mut self.tool_calls, &mut pending);
        let ghost all = pending@;
        let keys: Vec<i64> = ordered_keys(&pending);
        let ghost accs = values_in_order(start.calls);
        proof {
            assert(start.calls.dom() =~= all.dom());
            crate::order::lemma_keys_in_order(keys@, start.calls);
            assert(self.view().calls =~= Map::empty());
            assert(events_view(out@) =~= Seq::empty());
            assert(accs.take(0) =~= Seq::empty());
            assert forall|j: int| 0 <= j < keys@.len() implies pending@.contains_key(
                #[trigger] keys@[j],
            ) by {
                assert(keys@.to_set().contains(keys@[j]));
            }
        }
        let mut i: usize = 0;
        while i < keys.len()
            invariant
                i <= keys@.len(),
                crate::order::increasing(keys@),
                accs.len() == keys@.len(),
                forall|j: int| 0 <= j < keys@.len() ==> accs[j] == all[#[trigger] keys@[j]]@,
                forall|j: int|
                    i <= j < keys@.len() ==> pending@.contains_key(#[trigger] keys@[j])
                        && pending@[keys@[j]] == all[keys@[j]],
                events_view(out@) == calls_done(accs.take(i as int), start.made_up).0,
                self.view() == (ChatModel {
                    calls: Map::empty(),
                    made_up: calls_done(accs.take(i as int), start.made_up).1,
                    ..start
                }),
            decreases keys.len() - i,
        {
            assert(accs.take(i + 1).drop_last() =~= accs.take(i as int));
            assert(accs.take(i + 1).last() == all[keys@[i as int]]@);
            let ghost before = out@;
            if let Some(acc) = pending.remove(&keys[i]) {
                let call_id: String = match acc.call_id {
                    Some(id) => id,
                    None => self.synth_id("call"),
                };
                let name: String = match acc.name {
                    Some(name) => name,
                    None => String::new(),
                };
                out.push(function_call_done(name, acc.arguments, call_id));
                assert(events_view(out@) =~= events_view(before).push(out@.last()@));
            }
            i += 1;
        }
        assert(accs.take(accs.len() as int) =~= accs);
        let ghost calls = events_view(out@);

        if !self.text.as_str().is_empty() {
            let mut text: String = String::new();
            std::mem::swap(&mut self.text, &mut text);
            let ghost before = out@;
            out.push(assistant_message_done(text));
            assert(events_view(out@) =~= events_view(before).push(out@.last()@));
        }
        assert(self.text@ =~= Seq::empty());
        assert(events_view(out@) =~= calls + text_done(start.text));

        let response_id: String = match self.response_id.take() {
            Some(id) => id,
            None => self.synth_id("resp"),
        };
        let token_usage: Option<TokenUsage> = match &self.usage {
            Some(u) => Some(map_usage(u)),
            None => None,
        };
        let end_turn: Option<bool> = match &self.finish_reason {
            Some(reason) => map_end_turn(Some(reason.as_str())),
            None => map_end_turn(None),
        };
        let ghost before = out@;
        out.push(ResponseEvent::Completed { response_id, token_usage, end_turn });
        assert(events_view(out@) =~= events_view(before).push(out@.last()@));
        out
    }

    /// Makes up an identifier, a new one each time.
    fn synth_id(&mut self, kind: &str) -> (r: String)
        ensures
            final(self).view() == (ChatModel {
                made_up: next_count(old(self).view().made_up),
                ..old(self).view()
            }),
            r@ == synth_name(kind@, next_count(old(self).view().made_up)),
    {
        self.synth_counter = self.synth_counter.wrapping_add(1);
        synth_text(kind, self.synth_counter)
    }
}

impl SseTranslator for ChatSseState {
    type Model = ChatModel;

    open spec fn model(&self) -> ChatModel {
        self.view()
    }

    open spec fn pushed(m: ChatModel, data: JsonView) -> (ChatModel, Result<
        Seq<EventView>,
        Seq<char>,
    >) {
        chat_pushed(m, data)
    }

    open spec fn finished(m: ChatModel) -> (ChatModel, Seq<EventView>) {
        chat_finished(m)
    }

    fn push(&mut self, data: &Value) -> (r: Result<Vec<ResponseEvent>, ConnError>) {
        self.push_chunk(data)
    }

    fn finish(&mut self) -> (r: Vec<ResponseEvent>) {
        ChatSseState::finish(self)
    }
}

// ---- helpers ----

/// Maps the reason to stop: a natural end is the end of the turn, tool calls and a cut are not,
/// and any other reason leaves it open.
pub fn map_end_turn(reason: Option<&str>) -> (r: Option<bool>)
    ensures
        r == chat_end_turn(
            match reason {
                Some(s) => Some(s@),
                None => None,
            },
        ),
{
    match reason {
        Some(s) => if same(s, "stop") {
            Some(true)
        } else if same(s, "tool_calls") || same(s, "length") {
            Some(false)
        } else {
            None
        },
        None => None,
    }
}

/// The count under `key`, zero where there is none.
fn token_count(u: &Value, key: &str) -> (r: i64)
    ensures
        r == count_at(held(*u), key@),
{
    match json::i64_at(u, key) {
        Some(n) => n,
        None => 0,
    }
}

/// Maps the token counts of the upstream, with zero for what it leaves out.
pub fn map_usage(u: &Value) -> (r: TokenUsage)
    ensures
        r == chat_usage(held(*u)),
{
    TokenUsage {
        input_tokens: token_count(u, "prompt_tokens"),
        cached_input_tokens: match json::get(u, "prompt_tokens_details") {
            Some(d) => token_count(d, "cached_tokens"),
            None => 0,
        },
        output_tokens: token_count(u, "completion_tokens"),
        reasoning_output_tokens: 0,
        total_tokens: token_count(u, "total_tokens"),
    }
}

/// Runs all records of a stream, and its end if `done` says so.
pub fn translate_chat_sse(chunks: &[Value], done: bool) -> (r: Result<
    Vec<ResponseEvent>,
    ConnError,
>)
    ensures
        push_yields(
            r,
            super::translated::<ChatSseState>(chat_start(), held_all(chunks@), done),
        ),
{
    super::translate_all(ChatSseState::new(), chunks, done)
}

} // verus!
