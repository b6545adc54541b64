//! The stream of an upstream, from bytes to events.
//!
//! A stream consists of frames, each ended by an empty line. Bytes are kept until a frame is
//! complete and only then decoded, so that no character is cut however the bytes arrive. Of each
//! frame the lines that start with `data:` count; what follows is a JSON record, or the mark
//! `[DONE]` that ends the stream.

use crate::connector::SseTranslator;
use crate::json::{self, held, parsed, JsonView};
use crate::protocol::{events_view, ApiError, ApiErrorView, EventView, ResponseEvent};
use crate::text::{chars_of, join, same, trim, trim_end_at, trim_start, trim_start_at};
use serde_json::Value;
use vstd::prelude::*;
use vstd::string::*;
use vstd::utf8::{decode_utf8, valid_utf8};

verus! {

// ---- model ----

/// How a step ends: the stream goes on, is done, or has failed.
pub enum End {
    More,
    Done,
    Failed(ApiErrorView),
}

/// What a part of the stream does: the state of the translator after it, the events that it
/// yields, and how it ends.
pub struct Step<M> {
    pub m: M,
    pub events: Seq<EventView>,
    pub end: End,
}

/// Nothing happens.
pub open spec fn idle<M>(m: M) -> Step<M> {
    Step { m, events: Seq::empty(), end: End::More }
}

/// The stream fails.
pub open spec fn broken<M>(m: M, message: Seq<char>) -> Step<M> {
    Step { m, events: Seq::empty(), end: End::Failed(ApiErrorView::Stream(message)) }
}

/// A step behind some events.
pub open spec fn behind<M>(events: Seq<EventView>, s: Step<M>) -> Step<M> {
    Step { m: s.m, events: events + s.events, end: s.end }
}

/// What a record does, given what its text parses to.
pub open spec fn record_step<T: SseTranslator>(
    m: T::Model,
    record: Result<JsonView, Seq<char>>,
) -> Step<T::Model> {
    match record {
        Err(why) => broken(m, "bad SSE json: "@ + why),
        Ok(v) => {
            let (after, r) = T::pushed(m, v);
            match r {
                Ok(events) => Step { m: after, events, end: End::More },
                Err(message) => Step {
                    m: after,
                    events: Seq::empty(),
                    end: End::Failed(ApiErrorView::InvalidRequest { message }),
                },
            }
        },
    }
}

/// What a line carries, if it carries data.
pub open spec fn data_of(line: Seq<char>) -> Option<Seq<char>> {
    let l = trim_start(line);
    if l.len() >= 5 && l.take(5) == "data:"@ {
        Some(trim(l.skip(5)))
    } else {
        None
    }
}

/// What a line does.
pub open spec fn line_step<T: SseTranslator>(m: T::Model, line: Seq<char>) -> Step<T::Model> {
    match data_of(line) {
        None => idle(m),
        Some(data) => if data == "[DONE]"@ {
            Step { m, events: Seq::empty(), end: End::Done }
        } else if data.len() == 0 {
            idle(m)
        } else {
            record_step::<T>(m, parsed(data))
        },
    }
}

/// Where the first line of a text ends: at its first line feed, or at its end.
pub open spec fn line_end(text: Seq<char>) -> nat
    decreases text.len(),
{
    if text.len() == 0 || text[0] == '\n' {
        0
    } else {
        1 + line_end(text.skip(1))
    }
}

/// What the lines of a text do, one after the other, up to one that ends the stream. A carriage
/// return before a line feed counts as white space at the end of its line.
pub open spec fn text_step<T: SseTranslator>(m: T::Model, text: Seq<char>) -> Step<T::Model>
    decreases text.len(),
{
    let n = line_end(text) as int;
    let s = line_step::<T>(m, text.take(n));
    if s.end is More && n < text.len() {
        behind(s.events, text_step::<T>(s.m, text.skip(n + 1)))
    } else {
        s
    }
}

/// The words in which `std` says why bytes are not UTF-8.
pub uninterp spec fn utf8_fault(bytes: Seq<u8>) -> Seq<char>;

/// What a frame does.
pub open spec fn frame_step<T: SseTranslator>(m: T::Model, frame: Seq<u8>) -> Step<T::Model> {
    if valid_utf8(frame) {
        text_step::<T>(m, decode_utf8(frame))
    } else {
        broken(m, "SSE frame UTF-8 error: "@ + utf8_fault(frame))
    }
}

/// Whether two line feeds stand at `p`.
pub open spec fn is_break(bytes: Seq<u8>, p: int) -> bool {
    0 <= p && p + 1 < bytes.len() && bytes[p] == 10 && bytes[p + 1] == 10
}

/// Whether the first frame ends at `p`.
pub open spec fn frame_ends(bytes: Seq<u8>, p: int) -> bool {
    is_break(bytes, p) && forall|q: int| 0 <= q < p ==> !is_break(bytes, q)
}

/// What the complete frames of some bytes do, one after the other, up to one that ends the stream,
/// and which bytes are left.
pub open spec fn bytes_step<T: SseTranslator>(m: T::Model, bytes: Seq<u8>) -> (
    Step<T::Model>,
    Seq<u8>,
)
    decreases bytes.len(),
{
    if exists|p: int| frame_ends(bytes, p) {
        let p = choose|p: int| frame_ends(bytes, p);
        let s = frame_step::<T>(m, bytes.take(p));
        let rest = bytes.skip(p + 2);
        if s.end is More {
            let (next, left) = bytes_step::<T>(s.m, rest);
            (behind(s.events, next), left)
        } else {
            (s, rest)
        }
    } else {
        (idle(m), bytes)
    }
}

/// What arrives of a stream: some more bytes, a fault on the way, or the end of the bytes.
pub enum ArrivalView {
    Bytes(Seq<u8>),
    Broken(Seq<char>),
    End,
}

/// A reader: the state of its translator, the bytes of the frame that is not complete yet, and
/// whether the stream is still open.
pub struct ReaderView<M> {
    pub m: M,
    pub pending: Seq<u8>,
    pub open: bool,
}

/// The items that hand on some events.
pub open spec fn handed_on(events: Seq<EventView>) -> Seq<Result<EventView, ApiErrorView>> {
    events.map_values(|e: EventView| Ok::<EventView, ApiErrorView>(e))
}

/// The items that hand on some events and behind them one error.
pub open spec fn handed_on_with(events: Seq<EventView>, e: ApiErrorView) -> Seq<
    Result<EventView, ApiErrorView>,
> {
    handed_on(events).push(Err(e))
}

/// The error for a fault on the way.
pub open spec fn fault_of(why: Seq<char>) -> ApiErrorView {
    ApiErrorView::Stream("stream error: "@ + why)
}

/// What an arrival does to a reader, and the items that it yields. The mark at the end of a stream
/// and the end of the bytes complete the response and close the stream. An error closes it too,
/// and then nothing is completed. Of a stream that is closed, nothing is looked at any more.
pub open spec fn received<T: SseTranslator>(r: ReaderView<T::Model>, got: ArrivalView) -> (
    ReaderView<T::Model>,
    Seq<Result<EventView, ApiErrorView>>,
) {
    if !r.open {
        (r, Seq::empty())
    } else {
        match got {
            ArrivalView::Bytes(chunk) => {
                let (s, pending) = bytes_step::<T>(r.m, r.pending + chunk);
                match s.end {
                    End::More => (ReaderView { m: s.m, pending, open: true }, handed_on(s.events)),
                    End::Done => {
                        let (m, last) = T::finished(s.m);
                        (ReaderView { m, pending, open: false }, handed_on(s.events + last))
                    },
                    End::Failed(e) => (
                        ReaderView { m: s.m, pending, open: false },
                        handed_on_with(s.events, e),
                    ),
                }
            },
            ArrivalView::Broken(why) => (
                ReaderView { open: false, ..r },
                handed_on_with(Seq::empty(), fault_of(why)),
            ),
            ArrivalView::End => {
                let (m, last) = T::finished(r.m);
                (ReaderView { m, open: false, ..r }, handed_on(last))
            },
        }
    }
}

proof fn lemma_frame_end_unique(bytes: Seq<u8>, p: int, q: int)
    requires
        frame_ends(bytes, p),
        frame_ends(bytes, q),
    ensures
        p == q,
{
    if p < q {
        assert(!is_break(bytes, p));
    } else if q < p {
        assert(!is_break(bytes, q));
    }
}

proof fn lemma_line_end(text: Seq<char>, n: int)
    requires
        0 <= n <= text.len(),
        forall|j: int| 0 <= j < n ==> text[j] != '\n',
        n < text.len() ==> text[n] == '\n',
    ensures
        line_end(text) == n,
    decreases n,
{
    if n > 0 {
        let rest = text.skip(1);
        assert forall|j: int| 0 <= j < n - 1 implies rest[j] != '\n' by {
            assert(text[j + 1] != '\n');
        }
        lemma_line_end(rest, n - 1);
    }
}

// ---- reader ----

/// How a part of the stream ends: the stream goes on, is done, or has failed.
#[derive(Debug)]
pub enum Outcome {
    More,
    Done,
    Failed(ApiError),
}

impl View for Outcome {
    type V = End;

    open spec fn view(&self) -> End {
        match *self {
            Outcome::More => End::More,
            Outcome::Done => End::Done,
            Outcome::Failed(e) => End::Failed(e@),
        }
    }
}

/// Whether a reader did this.
pub open spec fn did<M>(m: M, events: Seq<ResponseEvent>, outcome: Outcome, s: Step<M>) -> bool {
    m == s.m && events_view(events) == s.events && outcome@ == s.end
}

/// Splits the bytes of a stream into frames and hands their records to a translator.
#[derive(Debug)]
struct FrameReader<T: SseTranslator> {
    buf: Vec<u8>,
    translator: T,
}

/// `std::str::from_utf8`: the text that the bytes encode, or the words of the error. Which words
/// those are is [`utf8_fault`].
#[verifier::external_body]
fn decode(bytes: &[u8]) -> (r: Result<String, String>)
    ensures
        match r {
            Ok(s) => valid_utf8(bytes@) && s@ == decode_utf8(bytes@),
            Err(why) => !valid_utf8(bytes@) && why@ == utf8_fault(bytes@),
        },
{
    std::str::from_utf8(bytes).map(|s| s.to_string()).map_err(|e| e.to_string())
}

/// Where the first frame ends.
fn find_break(bytes: &Vec<u8>) -> (r: Option<usize>)
    ensures
        match r {
            Some(p) => frame_ends(bytes@, p as int) && p + 2 <= bytes.len(),
            None => forall|p: int| !frame_ends(bytes@, p),
        },
{
    if bytes.len() < 2 {
        return None;
    }
    let mut p: usize = 0;
    while p < bytes.len() - 1
        invariant
            p <= bytes@.len() - 1,
            forall|q: int| 0 <= q < p ==> !is_break(bytes@, q),
        decreases bytes.len() - p,
    {
        if bytes[p] == 10 && bytes[p + 1] == 10 {
            return Some(p);
        }
        p += 1;
    }
    assert forall|q: int| !frame_ends(bytes@, q) by {
        assert(!is_break(bytes@, q));
    }
    None
}

/// Hands a record to a translator, given what its text parses to.
pub fn take_record<T: SseTranslator>(translator: &mut T, record: Result<Value, String>) -> (r: (
    Vec<ResponseEvent>,
    Outcome,
))
    ensures
        did(
            final(translator).model(),
            r.0@,
            r.1,
            record_step::<T>(
                old(translator).model(),
                match record {
                    Ok(v) => Ok(held(v)),
                    Err(why) => Err(why@),
                },
            ),
        ),
{
    let none: Vec<ResponseEvent> = Vec::new();
    assert(events_view(none@) =~= Seq::empty());
    match record {
        Err(why) => (
            none,
            Outcome::Failed(ApiError::Stream(join("bad SSE json: ", why.as_str()))),
        ),
        Ok(v) => match translator.push(&v) {
            Ok(events) => (events, Outcome::More),
            Err(e) => (none, Outcome::Failed(ApiError::from(e))),
        },
    }
}

impl<T: SseTranslator> FrameReader<T> {
    /// The bytes of the frame that is not complete yet.
    spec fn pending(&self) -> Seq<u8> {
        self.buf@
    }

    /// The state of the translator.
    spec fn state(&self) -> T::Model {
        self.translator.model()
    }

    /// Takes the line of `text` from `lo` to `hi`; `cs` are the characters of `text`.
    fn take_line(&mut self, text: &str, cs: &Vec<char>, lo: usize, hi: usize) -> (r: (
        Vec<ResponseEvent>,
        Outcome,
    ))
        requires
            cs@ == text@,
            lo <= hi <= cs@.len(),
        ensures
            did(
                final(self).state(),
                r.0@,
                r.1,
                line_step::<T>(old(self).state(), text@.subrange(lo as int, hi as int)),
            ),
            final(self).pending() == old(self).pending(),
    {
        let none: Vec<ResponseEvent> = Vec::new();
        assert(events_view(none@) =~= Seq::empty());
        let start: usize = trim_start_at(cs, lo, hi);
        let ghost l = text@.subrange(start as int, hi as int);
        proof {
            reveal_strlit("data:");
        }
        let carries: bool = hi - start >= 5 && cs[start] == 'd' && cs[start + 1] == 'a' && cs[start
            + 2] == 't' && cs[start + 3] == 'a' && cs[start + 4] == ':';
        assert(carries == (l.len() >= 5 && l.take(5) == "data:"@)) by {
            if l.len() >= 5 {
                if carries {
                    assert(l.take(5) =~= "data:"@);
                } else {
                    let t = l.take(5);
                    assert(t[0] == cs@[start as int]);
                    assert(t[1] == cs@[start + 1]);
                    assert(t[2] == cs@[start + 2]);
                    assert(t[3] == cs@[start + 3]);
                    assert(t[4] == cs@[start + 4]);
                }
            }
        }
        if !carries {
            return (none, Outcome::More);
        }
        let a: usize = trim_start_at(cs, start + 5, hi);
        let b: usize = trim_end_at(cs, a, hi);
        let data: &str = text.substring_char(a, b);
        assert(l.skip(5) =~= cs@.subrange(start + 5, hi as int));
        assert(data_of(text@.subrange(lo as int, hi as int)) == Some(data@));
        if same(data, "[DONE]") {
            return (none, Outcome::Done);
        }
        if data.is_empty() {
            return (none, Outcome::More);
        }
        take_record(&mut self.translator, json::parse(data))
    }

    /// Takes the text of a frame.
    fn take_text(&mut self, text: &str) -> (r: (Vec<ResponseEvent>, Outcome))
        ensures
            did(final(self).state(), r.0@, r.1, text_step::<T>(old(self).state(), text@)),
            final(self).pending() == old(self).pending(),
    {
        let cs: Vec<char> = chars_of(text);
        let mut out: Vec<ResponseEvent> = Vec::new();
        let mut lo: usize = 0;
        let ghost whole = text_step::<T>(self.state(), text@);
        proof {
            assert(events_view(out@) =~= Seq::empty());
            assert(text@.skip(0) =~= text@);
            assert(Seq::<EventView>::empty() + whole.events =~= whole.events);
        }
        loop
            invariant
                cs@ == text@,
                lo <= cs@.len(),
                whole == text_step::<T>(old(self).state(), text@),
                whole == behind(
                    events_view(out@),
                    text_step::<T>(self.state(), text@.skip(lo as int)),
                ),
                self.pending() == old(self).pending(),
            decreases cs@.len() - lo,
        {
            let mut hi: usize = lo;
            while hi < cs.len() && cs[hi] != '\n'
                invariant
                    lo <= hi <= cs@.len(),
                    cs@ == text@,
                    forall|j: int| lo <= j < hi ==> text@[j] != '\n',
                decreases cs.len() - hi,
            {
                hi += 1;
            }
            let ghost rest = text@.skip(lo as int);
            let ghost before = out@;
            let ghost m = self.state();
            proof {
                assert forall|j: int| 0 <= j < hi - lo implies rest[j] != '\n' by {
                    assert(text@[lo + j] != '\n');
                }
                lemma_line_end(rest, hi - lo);
                assert(rest.take(hi - lo) =~= text@.subrange(lo as int, hi as int));
            }
            let (events, outcome) = self.take_line(text, &cs, lo, hi);
            let ghost s = line_step::<T>(m, rest.take(hi - lo));
            let mut more: Vec<ResponseEvent> = events;
            let ghost new = more@;
            out.append(&mut more);
            assert(events_view(out@) =~= events_view(before) + events_view(new));
            let goes_on: bool = match &outcome {
                Outcome::More => true,
                _ => false,
            };
            if !goes_on || hi == cs.len() {
                return (out, outcome);
            }
            proof {
                assert(rest.skip(hi - lo + 1) =~= text@.skip(hi + 1));
                let tail = text_step::<T>(s.m, text@.skip(hi + 1));
                assert(events_view(before) + (s.events + tail.events) =~= events_view(out@)
                    + tail.events);
            }
            lo = hi + 1;
        }
    }

    /// Takes a frame.
    fn take_frame(&mut self, frame: &Vec<u8>) -> (r: (Vec<ResponseEvent>, Outcome))
        ensures
            did(final(self).state(), r.0@, r.1, frame_step::<T>(old(self).state(), frame@)),
            final(self).pending() == old(self).pending(),
    {
        match decode(frame.as_slice()) {
            Ok(text) => self.take_text(text.as_str()),
            Err(why) => {
                let none: Vec<ResponseEvent> = Vec::new();
                assert(events_view(none@) =~= Seq::empty());
                (
                    none,
                    Outcome::Failed(
                        ApiError::Stream(join("SSE frame UTF-8 error: ", why.as_str())),
                    ),
                )
            },
        }
    }

    /// Takes some more bytes of the stream and returns the events that they yield and how they
    /// end. What follows the end of a stream is not looked at.
    fn feed(&mut self, chunk: &[u8]) -> (r: (Vec<ResponseEvent>, Outcome))
        ensures
            did(
                final(self).state(),
                r.0@,
                r.1,
                bytes_step::<T>(old(self).state(), old(self).pending() + chunk@).0,
            ),
            final(self).pending() == bytes_step::<T>(
                old(self).state(),
                old(self).pending() + chunk@,
            ).1,
    {
        let ghost bytes = self.pending() + chunk@;
        let ghost whole = bytes_step::<T>(self.state(), bytes);
        self.buf.extend_from_slice(chunk);
        assert(self.pending() =~= bytes);
        let mut out: Vec<ResponseEvent> = Vec::new();
        assert(events_view(out@) =~= Seq::empty());
        assert(Seq::<EventView>::empty() + whole.0.events =~= whole.0.events);
        loop
            invariant
                whole == bytes_step::<T>(old(self).state(), old(self).pending() + chunk@),
                whole.0 == behind(
                    events_view(out@),
                    bytes_step::<T>(self.state(), self.pending()).0,
                ),
                whole.1 == bytes_step::<T>(self.state(), self.pending()).1,
            decreases self.buf@.len(),
        {
            let ghost m = self.state();
            let ghost left = self.pending();
            let ghost before = out@;
            let Some(p) = find_break(&self.buf) else {
                assert(events_view(out@) + Seq::<EventView>::empty() =~= events_view(out@));
                return (out, Outcome::More);
            };
            proof {
                let q = choose|q: int| frame_ends(left, q);
                lemma_frame_end_unique(left, p as int, q);
            }
            let rest: Vec<u8> = self.buf.split_off(p + 2);
            let mut frame: Vec<u8> = rest;
            std::mem::swap(&mut self.buf, &mut frame);
            frame.truncate(p);
            assert(frame@ =~= left.take(p as int));
            assert(self.pending() =~= left.skip(p + 2));
            let (events, outcome) = self.take_frame(&frame);
            let ghost s = frame_step::<T>(m, left.take(p as int));
            let mut more: Vec<ResponseEvent> = events;
            let ghost new = more@;
            out.append(&mut more);
            assert(events_view(out@) =~= events_view(before) + events_view(new));
            let goes_on: bool = match &outcome {
                Outcome::More => true,
                _ => false,
            };
            if !goes_on {
                return (out, outcome);
            }
            proof {
                let next = bytes_step::<T>(s.m, left.skip(p + 2)).0;
                assert(events_view(before) + (s.events + next.events) =~= events_view(out@)
                    + next.events);
            }
        }
    }
}

/// What arrives of a stream: some more bytes, a fault on the way with its words, or the end of the
/// bytes.
#[derive(Debug)]
pub enum Arrival<'a> {
    Bytes(&'a [u8]),
    Broken(String),
    End,
}

impl<'a> View for Arrival<'a> {
    type V = ArrivalView;

    open spec fn view(&self) -> ArrivalView {
        match *self {
            Arrival::Bytes(chunk) => ArrivalView::Bytes(chunk@),
            Arrival::Broken(why) => ArrivalView::Broken(why@),
            Arrival::End => ArrivalView::End,
        }
    }
}

/// What an item for the client says: an event or an error.
pub open spec fn item_view(item: Result<ResponseEvent, ApiError>) -> Result<
    EventView,
    ApiErrorView,
> {
    match item {
        Ok(e) => Ok(e@),
        Err(e) => Err(e@),
    }
}

/// What each of the items for the client says.
pub open spec fn items_view(items: Seq<Result<ResponseEvent, ApiError>>) -> Seq<
    Result<EventView, ApiErrorView>,
> {
    items.map_values(|item: Result<ResponseEvent, ApiError>| item_view(item))
}

/// Turns events into items for the client.
fn hand_on(events: Vec<ResponseEvent>) -> (r: Vec<Result<ResponseEvent, ApiError>>)
    ensures
        items_view(r@) == handed_on(events_view(events@)),
{
    let mut out: Vec<Result<ResponseEvent, ApiError>> = Vec::new();
    for e in it: events
        invariant
            it.seq() == events@,
            out@.len() == it.index(),
            forall|i: int|
                0 <= i < it.index() ==> out@[i] == Ok::<ResponseEvent, ApiError>(events@[i]),
    {
        out.push(Ok(e));
    }
    assert(items_view(out@) =~= handed_on(events_view(events@)));
    out
}

/// Turns events and an error behind them into items for the client.
fn hand_on_with(events: Vec<ResponseEvent>, e: ApiError) -> (r: Vec<
    Result<ResponseEvent, ApiError>,
>)
    ensures
        items_view(r@) == handed_on_with(events_view(events@), e@),
{
    let mut out: Vec<Result<ResponseEvent, ApiError>> = hand_on(events);
    let ghost before = out@;
    out.push(Err(e));
    assert(items_view(out@) =~= items_view(before).push(Err(e@)));
    out
}

/// Reads the stream of an upstream.
#[derive(Debug)]
pub struct SseReader<T: SseTranslator> {
    frames: FrameReader<T>,
    open: bool,
}

impl<T: SseTranslator> SseReader<T> {
    /// The reader as a mathematical value.
    pub closed spec fn view(&self) -> ReaderView<T::Model> {
        ReaderView { m: self.frames.state(), pending: self.frames.pending(), open: self.open }
    }

    /// A reader at the start of a stream.
    pub fn new(translator: T) -> (r: SseReader<T>)
        ensures
            r.view() == (ReaderView {
                m: translator.model(),
                pending: Seq::<u8>::empty(),
                open: true,
            }),
    {
        let r = SseReader { frames: FrameReader { buf: Vec::new(), translator }, open: true };
        assert(r.view().pending =~= Seq::<u8>::empty());
        r
    }

    /// Whether the stream is still open.
    pub fn is_open(&self) -> (r: bool)
        ensures
            r == self.view().open,
    {
        self.open
    }

    /// Takes what arrives of the stream and returns the items for the client that it yields. The
    /// mark at the end of the stream and the end of the bytes complete the response and close the
    /// stream. An error is the last item of its stream: nothing is completed behind it.
    pub fn receive(&mut self, got: Arrival) -> (r: Vec<Result<ResponseEvent, ApiError>>)
        ensures
            final(self).view() == received::<T>(old(self).view(), got@).0,
            items_view(r@) == received::<T>(old(self).view(), got@).1,
    {
        if !self.open {
            let none: Vec<Result<ResponseEvent, ApiError>> = Vec::new();
            assert(items_view(none@) =~= Seq::empty());
            return none;
        }
        match got {
            Arrival::Bytes(chunk) => {
                let (events, outcome) = self.frames.feed(chunk);
                match outcome {
                    Outcome::More => hand_on(events),
                    Outcome::Done => {
                        self.open = false;
                        let ghost seen = events@;
                        let mut all: Vec<ResponseEvent> = events;
                        let mut last: Vec<ResponseEvent> = self.frames.translator.finish();
                        let ghost new = last@;
                        all.append(&mut last);
                        assert(events_view(all@) =~= events_view(seen) + events_view(new));
                        hand_on(all)
                    },
                    Outcome::Failed(e) => {
                        self.open = false;
                        hand_on_with(events, e)
                    },
                }
            },
            Arrival::Broken(why) => {
                self.open = false;
                let none: Vec<ResponseEvent> = Vec::new();
                assert(events_view(none@) =~= Seq::empty());
                hand_on_with(none, ApiError::Stream(join("stream error: ", why.as_str())))
            },
            Arrival::End => {
                self.open = false;
                hand_on(self.frames.translator.finish())
            },
        }
    }
}

// ---- status ----

/// Whether an upstream reports success.
pub fn is_success(status: u16) -> (r: bool)
    ensures
        r == (200 <= status < 300),
{
    200 <= status && status < 300
}

/// The error for an answer without success: its status and its text, whatever the status is.
pub fn status_error(status: u16, text: String) -> (r: ApiError)
    ensures
        r@ == (ApiErrorView::Api { status, message: text@ }),
{
    ApiError::Api { status, message: text }
}

} // verus!
