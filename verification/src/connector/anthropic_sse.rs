//! The stream of an Anthropic Messages upstream.
//!
//! [`AnthropicSseState`] takes the events of the stream one by one. It passes text on as it
//! arrives, gathers the input of each tool use under the index of its content block, and at the
//! end completes the calls, then the whole text as one message, then the response.

use super::{
    latest, next_count, push_yields, synth_name, synth_text, text_done, ConnError, SseTranslator,
};
use crate::json::{self, held, held_all, json_text, JsonView};
use crate::order::{ordered_keys, values_in_order};
use crate::protocol::{
    assistant_message_done, call_done, events_view, function_call_done, EventView, ResponseEvent,
    TokenUsage,
};
use crate::text::{join, opt_text, same};
use serde_json::Value;
use std::collections::BTreeMap;
use vstd::prelude::*;
use vstd::string::*;

verus! {

// ---- model ----

/// What has arrived of one content block.
pub struct BlockView {
    pub is_tool_use: bool,
    pub call_id: Option<Seq<char>>,
    pub name: Option<Seq<char>>,
    pub partial_json: Seq<char>,
}

/// What has arrived of a response.
pub struct AnthropicModel {
    /// All text so far.
    pub text: Seq<char>,
    /// The first identifier that is not empty.
    pub response_id: Option<Seq<char>>,
    /// The last reason to stop.
    pub stop_reason: Option<Seq<char>>,
    pub input_tokens: i64,
    pub cached_input_tokens: i64,
    pub cache_creation_input_tokens: i64,
    pub output_tokens: i64,
    /// The content blocks by their index.
    pub blocks: Map<i64, BlockView>,
    /// How many identifiers were made up.
    pub made_up: u64,
}

/// Nothing has arrived.
pub open spec fn anthropic_start() -> AnthropicModel {
    AnthropicModel {
        text: Seq::empty(),
        response_id: None,
        stop_reason: None,
        input_tokens: 0,
        cached_input_tokens: 0,
        cache_creation_input_tokens: 0,
        output_tokens: 0,
        blocks: Map::empty(),
        made_up: 0,
    }
}

/// The block under an index, an empty one where nothing has arrived of it.
pub open spec fn block_at(blocks: Map<i64, BlockView>, i: i64) -> BlockView {
    if blocks.contains_key(i) {
        blocks[i]
    } else {
        BlockView { is_tool_use: false, call_id: None, name: None, partial_json: Seq::empty() }
    }
}

/// The index of the block that an event speaks of, zero where it names none.
pub open spec fn event_index(evt: JsonView) -> i64 {
    match evt.i64_at("index"@) {
        Some(i) => i,
        None => 0,
    }
}

/// The integer under `key`, or the value from before.
pub open spec fn i64_or(v: JsonView, key: Seq<char>, before: i64) -> i64 {
    match v.i64_at(key) {
        Some(n) => n,
        None => before,
    }
}

/// The response after the start of its message.
pub open spec fn after_message_start(m: AnthropicModel, message: JsonView) -> AnthropicModel {
    let response_id = latest(m.response_id, message.filled_text_at("id"@));
    match message.get("usage"@) {
        Some(u) => AnthropicModel {
            response_id,
            input_tokens: i64_or(u, "input_tokens"@, m.input_tokens),
            cached_input_tokens: i64_or(u, "cache_read_input_tokens"@, m.cached_input_tokens),
            cache_creation_input_tokens: i64_or(
                u,
                "cache_creation_input_tokens"@,
                m.cache_creation_input_tokens,
            ),
            ..m
        },
        None => AnthropicModel { response_id, ..m },
    }
}

/// A block after its start: a tool use takes its identifier and its name from there.
pub open spec fn block_started(b: BlockView, content_block: Option<JsonView>) -> BlockView {
    match content_block {
        Some(cb) => if cb.text_at("type"@) == Some("tool_use"@) {
            BlockView {
                is_tool_use: true,
                call_id: cb.text_at("id"@),
                name: cb.text_at("name"@),
                partial_json: b.partial_json,
            }
        } else {
            b
        },
        None => b,
    }
}

/// The piece of text that a delta adds.
pub open spec fn delta_text(evt: JsonView) -> Option<Seq<char>> {
    match evt.get("delta"@) {
        Some(d) => if d.text_at("type"@) == Some("text_delta"@) {
            d.text_at("text"@)
        } else {
            None
        },
        None => None,
    }
}

/// The piece of a tool input that a delta adds.
pub open spec fn delta_json(evt: JsonView) -> Option<Seq<char>> {
    match evt.get("delta"@) {
        Some(d) => if d.text_at("type"@) == Some("input_json_delta"@) {
            d.text_at("partial_json"@)
        } else {
            None
        },
        None => None,
    }
}

/// The response after a delta of a block.
pub open spec fn after_block_delta(m: AnthropicModel, evt: JsonView) -> AnthropicModel {
    let i = event_index(evt);
    AnthropicModel {
        text: match delta_text(evt) {
            Some(t) => m.text + t,
            None => m.text,
        },
        blocks: match delta_json(evt) {
            Some(p) => m.blocks.insert(
                i,
                BlockView {
                    partial_json: block_at(m.blocks, i).partial_json + p,
                    ..block_at(m.blocks, i)
                },
            ),
            None => m.blocks,
        },
        ..m
    }
}

/// The response after a delta of the message.
pub open spec fn after_message_delta(m: AnthropicModel, evt: JsonView) -> AnthropicModel {
    AnthropicModel {
        stop_reason: match evt.get("delta"@) {
            Some(d) => latest(d.text_at("stop_reason"@), m.stop_reason),
            None => m.stop_reason,
        },
        output_tokens: match evt.get("usage"@) {
            Some(u) => i64_or(u, "output_tokens"@, m.output_tokens),
            None => m.output_tokens,
        },
        ..m
    }
}

/// What an event does. An error fails and changes nothing, and an event of a type that is not
/// listed here does nothing.
pub open spec fn anthropic_pushed(m: AnthropicModel, evt: JsonView) -> (AnthropicModel, Result<
    Seq<EventView>,
    Seq<char>,
>) {
    let kind = evt.text_at("type"@);
    if kind == Some("error"@) {
        (
            m,
            Err(
                "anthropic upstream error: "@ + (match evt.get("error"@) {
                    Some(e) => json_text(e),
                    None => Seq::empty(),
                }),
            ),
        )
    } else if kind == Some("message_start"@) {
        (
            match evt.get("message"@) {
                Some(message) => after_message_start(m, message),
                None => m,
            },
            Ok(Seq::empty()),
        )
    } else if kind == Some("content_block_start"@) {
        let i = event_index(evt);
        (
            AnthropicModel {
                blocks: m.blocks.insert(
                    i,
                    block_started(block_at(m.blocks, i), evt.get("content_block"@)),
                ),
                ..m
            },
            Ok(Seq::empty()),
        )
    } else if kind == Some("content_block_delta"@) {
        (
            after_block_delta(m, evt),
            Ok(
                match delta_text(evt) {
                    Some(t) => seq![EventView::OutputTextDelta(t)],
                    None => Seq::empty(),
                },
            ),
        )
    } else if kind == Some("message_delta"@) {
        (after_message_delta(m, evt), Ok(Seq::empty()))
    } else {
        (m, Ok(Seq::empty()))
    }
}

/// What a reason to stop says of the turn.
pub open spec fn anthropic_end_turn(reason: Option<Seq<char>>) -> Option<bool> {
    match reason {
        Some(r) => if r == "end_turn"@ {
            Some(true)
        } else if r == "tool_use"@ {
            Some(false)
        } else {
            None
        },
        None => None,
    }
}

/// The completed tool uses among the blocks, and how many identifiers are made up after them. A
/// tool use without input has an empty object for its arguments, and one without an identifier
/// gets the next made-up one.
pub open spec fn tool_uses_done(blocks: Seq<BlockView>, made_up: u64) -> (Seq<EventView>, u64)
    decreases blocks.len(),
{
    if blocks.len() == 0 {
        (Seq::empty(), made_up)
    } else {
        let (events, n) = tool_uses_done(blocks.drop_last(), made_up);
        let b = blocks.last();
        let name = match b.name {
            Some(s) => s,
            None => Seq::empty(),
        };
        let arguments = if b.partial_json.len() == 0 {
            "{}"@
        } else {
            b.partial_json
        };
        if !b.is_tool_use {
            (events, n)
        } else {
            match b.call_id {
                Some(id) => (events.push(call_done(name, arguments, id)), n),
                None => (
                    events.push(call_done(name, arguments, synth_name("call"@, next_count(n)))),
                    next_count(n),
                ),
            }
        }
    }
}

/// The token counts of the response. The total leaves the tokens read from the cache out, and
/// wraps around where it does not fit.
pub open spec fn anthropic_usage(m: AnthropicModel) -> TokenUsage {
    TokenUsage {
        input_tokens: m.input_tokens,
        cached_input_tokens: m.cached_input_tokens,
        output_tokens: m.output_tokens,
        reasoning_output_tokens: 0,
        total_tokens: m.cache_creation_input_tokens.wrapping_add(m.input_tokens).wrapping_add(
            m.output_tokens,
        ),
    }
}

/// What the end of the stream does: the tool uses are completed in the order of their blocks,
/// then the message, then the response.
pub open spec fn anthropic_finished(m: AnthropicModel) -> (AnthropicModel, Seq<EventView>) {
    let (calls, n) = tool_uses_done(values_in_order(m.blocks), m.made_up);
    let made_up = if m.response_id is None {
        next_count(n)
    } else {
        n
    };
    let response_id = match m.response_id {
        Some(id) => id,
        None => synth_name("resp"@, made_up),
    };
    (
        AnthropicModel {
            text: Seq::empty(),
            response_id: None,
            blocks: Map::empty(),
            made_up,
            ..m
        },
        (calls + text_done(m.text)).push(
            EventView::Completed {
                response_id,
                token_usage: Some(anthropic_usage(m)),
                end_turn: anthropic_end_turn(m.stop_reason),
            },
        ),
    )
}

// ---- state machine ----

/// What has arrived of one content block.
#[derive(Debug)]
struct BlockAcc {
    is_tool_use: bool,
    call_id: Option<String>,
    name: Option<String>,
    partial_json: String,
}

impl View for BlockAcc {
    type V = BlockView;

    closed spec fn view(&self) -> BlockView {
        BlockView {
            is_tool_use: self.is_tool_use,
            call_id: opt_text(self.call_id),
            name: opt_text(self.name),
            partial_json: self.partial_json@,
        }
    }
}

/// The state machine of an Anthropic Messages stream.
#[derive(Debug)]
pub struct AnthropicSseState {
    text: String,
    response_id: Option<String>,
    stop_reason: Option<String>,
    input_tokens: i64,
    cached_input_tokens: i64,
    cache_creation_input_tokens: i64,
    output_tokens: i64,
    blocks: BTreeMap<i64, BlockAcc>,
    synth_counter: u64,
}

/// A copy of an optional text.
fn owned(s: Option<&str>) -> (r: Option<String>)
    ensures
        opt_text(r) == (match s {
            Some(t) => Some(t@),
            None => None,
        }),
{
    match s {
        Some(t) => Some(t.to_owned()),
        None => None,
    }
}

/// The integer under `key`, or the value from before.
fn number_or(v: &Value, key: &str, before: i64) -> (r: i64)
    ensures
        r == i64_or(held(*v), key@, before),
{
    match json::i64_at(v, key) {
        Some(n) => n,
        None => before,
    }
}

impl AnthropicSseState {
    /// The state as a mathematical value.
    pub closed spec fn view(&self) -> AnthropicModel {
        AnthropicModel {
            text: self.text@,
            response_id: opt_text(self.response_id),
            stop_reason: opt_text(self.stop_reason),
            input_tokens: self.input_tokens,
            cached_input_tokens: self.cached_input_tokens,
            cache_creation_input_tokens: self.cache_creation_input_tokens,
            output_tokens: self.output_tokens,
            blocks: self.blocks@.map_values(|b: BlockAcc| b@),
            made_up: self.synth_counter,
        }
    }

    /// A state machine at the start of a stream.
    pub fn new() -> (r: AnthropicSseState)
        ensures
            r.view() == anthropic_start(),
    {
        let r = AnthropicSseState {
            text: String::new(),
            response_id: None,
            stop_reason: None,
            input_tokens: 0,
            cached_input_tokens: 0,
            cache_creation_input_tokens: 0,
            output_tokens: 0,
            blocks: BTreeMap::new(),
            synth_counter: 0,
        };
        assert(r.view().blocks =~= anthropic_start().blocks);
        r
    }

    /// Takes the block under an index out, to be put back changed.
    fn take_block(&mut self, i: i64) -> (r: BlockAcc)
        ensures
            r@ == block_at(old(self).view().blocks, i),
            final(self).view() == (AnthropicModel {
                blocks: old(self).view().blocks.remove(i),
                ..old(self).view()
            }),
    {
        broadcast use vstd::std_specs::btree::group_btree_axioms;

        let ghost before = self.blocks@;
        let found: Option<BlockAcc> = self.blocks.remove(&i);
        assert(self.view().blocks =~= old(self).view().blocks.remove(i));
        match found {
            Some(b) => b,
            None => BlockAcc {
                is_tool_use: false,
                call_id: None,
                name: None,
                partial_json: String::new(),
            },
        }
    }

    /// Puts a block under an index.
    fn put_block(&mut self, i: i64, b: BlockAcc)
        ensures
            final(self).view() == (AnthropicModel {
                blocks: old(self).view().blocks.insert(i, b@),
                ..old(self).view()
            }),
    {
        broadcast use vstd::std_specs::btree::group_btree_axioms;

        self.blocks.insert(i, b);
        assert(self.view().blocks =~= old(self).view().blocks.insert(i, b@));
    }

    /// Takes the start of the message.
    fn take_message_start(&mut self, message: &Value)
        ensures
            final(self).view() == after_message_start(old(self).view(), held(*message)),
    {
        if let Some(id) = json::filled_text_at(message, "id") {
            if self.response_id.is_none() {
                self.response_id = Some(id.to_owned());
            }
        }
        if let Some(usage) = json::get(message, "usage") {
            self.input_tokens = number_or(usage, "input_tokens", self.input_tokens);
            self.cached_input_tokens =
            number_or(usage, "cache_read_input_tokens", self.cached_input_tokens);
            self.cache_creation_input_tokens =
            number_or(usage, "cache_creation_input_tokens", self.cache_creation_input_tokens);
        }
    }

    /// Takes the start of a block.
    fn take_block_start(&mut self, evt: &Value)
        ensures
            final(self).view() == (AnthropicModel {
                blocks: old(self).view().blocks.insert(
                    event_index(held(*evt)),
                    block_started(
                        block_at(old(self).view().blocks, event_index(held(*evt))),
                        held(*evt).get("content_block"@),
                    ),
                ),
                ..old(self).view()
            }),
    {
        let i: i64 = number_or(evt, "index", 0);
        let mut b: BlockAcc = self.take_block(i);
        if let Some(cb) = json::get(evt, "content_block") {
            let is_tool_use: bool = match json::text_at(cb, "type") {
                Some(t) => same(t, "tool_use"),
                None => false,
            };
            if is_tool_use {
                b.is_tool_use = true;
                b.call_id = owned(json::text_at(cb, "id"));
                b.name = owned(json::text_at(cb, "name"));
            }
        }
        let ghost after = b@;
        self.put_block(i, b);
        assert(self.view().blocks =~= old(self).view().blocks.insert(i, after));
    }

    /// Takes a delta of a block and returns the text that it adds.
    fn take_block_delta(&mut self, evt: &Value) -> (r: Option<String>)
        ensures
            final(self).view() == after_block_delta(old(self).view(), held(*evt)),
            opt_text(r) == delta_text(held(*evt)),
    {
        let i: i64 = number_or(evt, "index", 0);
        let Some(delta) = json::get(evt, "delta") else {
            return None;
        };
        let Some(kind) = json::text_at(delta, "type") else {
            return None;
        };
        proof {
            reveal_strlit("text_delta");
            reveal_strlit("input_json_delta");
            assert("text_delta"@.len() != "input_json_delta"@.len());
        }
        if same(kind, "text_delta") {
            match json::text_at(delta, "text") {
                Some(t) => {
                    self.text.append(t);
                    Some(t.to_owned())
                },
                None => None,
            }
        } else {
            if same(kind, "input_json_delta") {
                if let Some(p) = json::text_at(delta, "partial_json") {
                    let mut b: BlockAcc = self.take_block(i);
                    b.partial_json.append(p);
                    let ghost after = b@;
                    self.put_block(i, b);
                    assert(self.view().blocks =~= old(self).view().blocks.insert(i, after));
                }
            }
            None
        }
    }

    /// Takes a delta of the message.
    fn take_message_delta(&mut self, evt: &Value)
        ensures
            final(self).view() == after_message_delta(old(self).view(), held(*evt)),
    {
        if let Some(delta) = json::get(evt, "delta") {
            if let Some(reason) = json::text_at(delta, "stop_reason") {
                self.stop_reason = Some(reason.to_owned());
            }
        }
        if let Some(usage) = json::get(evt, "usage") {
            self.output_tokens = number_or(usage, "output_tokens", self.output_tokens);
        }
    }

    /// Takes one event of the stream and returns the events that it yields. It fails only on an
    /// event of type `error`; whatever else an event lacks or gets wrong is passed over.
    pub fn push_event(&mut self, evt: &Value) -> (r: Result<Vec<ResponseEvent>, ConnError>)
        ensures
            final(self).view() == anthropic_pushed(old(self).view(), held(*evt)).0,
            push_yields(r, anthropic_pushed(old(self).view(), held(*evt)).1),
    {
        let mut out: Vec<ResponseEvent> = Vec::new();
        assert(events_view(out@) =~= Seq::empty());
        let Some(kind) = json::text_at(evt, "type") else {
            return Ok(out);
        };
        if same(kind, "error") {
            let shown: String = match json::get(evt, "error") {
                Some(e) => json::print(e),
                None => String::new(),
            };
            assert(held(*evt).get("error"@) is None ==> shown@ =~= Seq::empty());
            return Err(ConnError::HardFail(join("anthropic upstream error: ", shown.as_str())));
        } else if same(kind, "message_start") {
            if let Some(message) = json::get(evt, "message") {
                self.take_message_start(message);
            }
        } else if same(kind, "content_block_start") {
            self.take_block_start(evt);
        } else if same(kind, "content_block_delta") {
            if let Some(t) = self.take_block_delta(evt) {
                let ghost said = t@;
                out.push(ResponseEvent::OutputTextDelta(t));
                assert(events_view(out@) =~= seq![EventView::OutputTextDelta(said)]);
            }
        } else if same(kind, "message_delta") {
            self.take_message_delta(evt);
        }
        Ok(out)
    }

    /// Ends the stream: completes the tool uses in the order of their blocks, then the text as one
    /// message if there is any, then the response.
    pub fn finish(&mut self) -> (r: Vec<ResponseEvent>)
        ensures
            final(self).view() == anthropic_finished(old(self).view()).0,
            events_view(r@) == anthropic_finished(old(self).view()).1,
    {
        broadcast use vstd::std_specs::btree::group_btree_axioms;

        let ghost start = self.view();
        let mut out: Vec<ResponseEvent> = Vec::new();
        let mut pending: BTreeMap<i64, BlockAcc> = BTreeMap::new();
        std::mem::swap(&mut self.blocks, &mut pending);
        let ghost all = pending@;
        let keys: Vec<i64> = ordered_keys(&pending);
        let ghost accs = values_in_order(start.blocks);
        proof {
            assert(start.blocks.dom() =~= all.dom());
            crate::order::lemma_keys_in_order(keys@, start.blocks);
            assert(self.view().blocks =~= Map::empty());
            assert(events_view(out@) =~= Seq::empty());
            assert(accs.take(0) =~= Seq::empty());
            assert forall|j: int| 0 <= j < keys@.len() implies pending@.contains_key(
                #[trigger] keys@[j],
            ) by {
                assert(keys@.to_set().contains(keys@[j]));
            }
        }
        let mut i: usize = 0;
        while i < keys.len()
            invariant
                i <= keys@.len(),
                crate::order::increasing(keys@),
                accs.len() == keys@.len(),
                forall|j: int| 0 <= j < keys@.len() ==> accs[j] == all[#[trigger] keys@[j]]@,
                forall|j: int|
                    i <= j < keys@.len() ==> pending@.contains_key(#[trigger] keys@[j])
                        && pending@[keys@[j]] == all[keys@[j]],
                events_view(out@) == tool_uses_done(accs.take(i as int), start.made_up).0,
                self.view() == (AnthropicModel {
                    blocks: Map::empty(),
                    made_up: tool_uses_done(accs.take(i as int), start.made_up).1,
                    ..start
                }),
            decreases keys.len() - i,
        {
            assert(accs.take(i + 1).drop_last() =~= accs.take(i as int));
            assert(accs.take(i + 1).last() == all[keys@[i as int]]@);
            let ghost before = out@;
            if let Some(b) = pending.remove(&keys[i]) {
                if b.is_tool_use {
                    let arguments: String = if b.partial_json.as_str().is_empty() {
                        "{}".to_owned()
                    } else {
                        b.partial_json
                    };
                    let call_id: String = match b.call_id {
                        Some(id) => id,
                        None => self.synth_id("call"),
                    };
                    let name: String = match b.name {
                        Some(name) => name,
                        None => String::new(),
                    };
                    out.push(function_call_done(name, arguments, call_id));
                    assert(events_view(out@) =~= events_view(before).push(out@.last()@));
                }
            }
            i += 1;
        }
        assert(accs.take(accs.len() as int) =~= accs);
        let ghost calls = events_view(out@);

        if !self.text.as_str().is_empty() {
            let mut text: String = String::new();
            std::mem::swap(&mut self.text, &mut text);
            let ghost before = out@;
            out.push(assistant_message_done(text));
            assert(events_view(out@) =~= events_view(before).push(out@.last()@));
        }
        assert(self.text@ =~= Seq::empty());
        assert(events_view(out@) =~= calls + text_done(start.text));

        let response_id: String = match self.response_id.take() {
            Some(id) => id,
            None => self.synth_id("resp"),
        };
        let total_tokens: i64 = self.cache_creation_input_tokens.wrapping_add(
            self.input_tokens,
        ).wrapping_add(self.output_tokens);
        let token_usage: Option<TokenUsage> = Some(
            TokenUsage {
                input_tokens: self.input_tokens,
                cached_input_tokens: self.cached_input_tokens,
                output_tokens: self.output_tokens,
                reasoning_output_tokens: 0,
                total_tokens,
            },
        );
        let end_turn: Option<bool> = match &self.stop_reason {
            Some(reason) => map_end_turn(Some(reason.as_str())),
            None => map_end_turn(None),
        };
        let ghost before = out@;
        out.push(ResponseEvent::Completed { response_id, token_usage, end_turn });
        assert(events_view(out@) =~= events_view(before).push(out@.last()@));
        out
    }

    /// Makes up an identifier, a new one each time.
    fn synth_id(&mut self, kind: &str) -> (r: String)
        ensures
            final(self).view() == (AnthropicModel {
                made_up: next_count(old(self).view().made_up),
                ..old(self).view()
            }),
            r@ == synth_name(kind@, next_count(old(self).view().made_up)),
    {
        self.synth_counter = self.synth_counter.wrapping_add(1);
        synth_text(kind, self.synth_counter)
    }
}

impl SseTranslator for AnthropicSseState {
    type Model = AnthropicModel;

    open spec fn model(&self) -> AnthropicModel {
        self.view()
    }

    open spec fn pushed(m: AnthropicModel, data: JsonView) -> (AnthropicModel, Result<
        Seq<EventView>,
        Seq<char>,
    >) {
        anthropic_pushed(m, data)
    }

    open spec fn finished(m: AnthropicModel) -> (AnthropicModel, Seq<EventView>) {
        anthropic_finished(m)
    }

    fn push(&mut self, data: &Value) -> (r: Result<Vec<ResponseEvent>, ConnError>) {
        self.push_event(data)
    }

    fn finish(&mut self) -> (r: Vec<ResponseEvent>) {
        AnthropicSseState::finish(self)
    }
}

// ---- helpers ----

/// Maps the reason to stop: a natural end is the end of the turn, a tool use is not, and any other
/// reason leaves it open, a cut at the token limit among them.
pub fn map_end_turn(stop_reason: Option<&str>) -> (r: Option<bool>)
    ensures
        r == anthropic_end_turn(
            match stop_reason {
                Some(s) => Some(s@),
                None => None,
            },
        ),
{
    match stop_reason {
        Some(s) => if same(s, "end_turn") {
            Some(true)
        } else if same(s, "tool_use") {
            Some(false)
        } else {
            None
        },
        None => None,
    }
}

/// Runs all events of a stream, and its end if `done` says so.
pub fn translate_anthropic_sse(events: &[Value], done: bool) -> (r: Result<
    Vec<ResponseEvent>,
    ConnError,
>)
    ensures
        push_yields(
            r,
            super::translated::<AnthropicSseState>(anthropic_start(), held_all(events@), done),
        ),
{
    super::translate_all(AnthropicSseState::new(), events, done)
}

} // verus!
