//! What the bytes of a stream come to.

use super::stream::lemma_first_frame;
use crate::connector::SseTranslator;
use crate::json::{parsed, JsonView};
use crate::protocol::{ApiErrorView, EventView};
use crate::sse::{
    bytes_step, frame_ends, is_break,
    line_end, line_step, received, record_step, text_step, utf8_fault, ArrivalView, End,
    ReaderView, Step,
};
use crate::text::{decimal, digit, trim, trim_end, trim_start, white_space};
use vstd::prelude::*;
use vstd::utf8::{decode_utf8, valid_utf8};

verus! {

// ---- white space ----

/// Whether a character is white space, by its number.
pub open spec fn is_space(c: char) -> bool {
    let n = c as u32;
    ||| 9 <= n <= 13
    ||| n == 0x20
    ||| n == 0x85
    ||| n == 0xa0
    ||| n == 0x1680
    ||| 0x2000 <= n <= 0x200a
    ||| n == 0x2028
    ||| n == 0x2029
    ||| n == 0x202f
    ||| n == 0x205f
    ||| n == 0x3000
}

/// Whether a text is nothing but white space.
pub open spec fn is_blank(s: Seq<char>) -> bool {
    forall|i: int| 0 <= i < s.len() ==> is_space(#[trigger] s[i])
}

/// White space is what Unicode says it is.
pub proof fn law_white_space(c: char)
    ensures
        white_space(c) <==> is_space(c),
{
}

proof fn lemma_trim_start(w: Seq<char>, s: Seq<char>)
    requires
        is_blank(w),
        s.len() == 0 || !is_space(s[0]),
    ensures
        trim_start(w + s) == s,
    decreases w.len(),
{
    if w.len() == 0 {
        assert(w + s =~= s);
        if s.len() > 0 {
            law_white_space(s[0]);
        }
    } else {
        assert(is_space(w[0]));
        law_white_space(w[0]);
        let rest = w.skip(1);
        assert forall|i: int| 0 <= i < rest.len() implies is_space(#[trigger] rest[i]) by {
            assert(is_space(w[i + 1]));
        }
        assert((w + s).skip(1) =~= rest + s);
        assert((w + s).first() == w[0]);
        lemma_trim_start(rest, s);
    }
}

proof fn lemma_trim_end(s: Seq<char>, w: Seq<char>)
    requires
        is_blank(w),
        s.len() == 0 || !is_space(s.last()),
    ensures
        trim_end(s + w) == s,
    decreases w.len(),
{
    if w.len() == 0 {
        assert(s + w =~= s);
        if s.len() > 0 {
            law_white_space(s.last());
        }
    } else {
        let rest = w.drop_last();
        assert(is_space(w[w.len() - 1]));
        law_white_space(w.last());
        assert forall|i: int| 0 <= i < rest.len() implies is_space(#[trigger] rest[i]) by {
            assert(is_space(w[i]));
        }
        assert((s + w).drop_last() =~= s + rest);
        assert((s + w).last() == w.last());
        lemma_trim_end(s, rest);
    }
}

/// Trimming takes all white space from both ends, and nothing else.
pub proof fn law_trimming(before: Seq<char>, s: Seq<char>, behind: Seq<char>)
    requires
        is_blank(before),
        is_blank(behind),
        s.len() > 0 ==> !is_space(s[0]) && !is_space(s.last()),
    ensures
        trim(before + s + behind) == s,
{
    if s.len() == 0 {
        let all = before + behind;
        assert(before + s + behind =~= all + Seq::<char>::empty());
        assert forall|i: int| 0 <= i < all.len() implies is_space(#[trigger] all[i]) by {
            if i < before.len() {
                assert(is_space(before[i]));
            } else {
                assert(is_space(behind[i - before.len()]));
            }
        }
        lemma_trim_start(all, Seq::empty());
        assert(trim_end(Seq::<char>::empty()) =~= s);
    } else {
        assert(before + s + behind =~= before + (s + behind));
        assert((s + behind)[0] == s[0]);
        lemma_trim_start(before, s + behind);
        lemma_trim_end(s, behind);
    }
}

// ---- lines ----

/// What a line of data does, however white space stands around the data: the mark ends the stream,
/// an empty line does nothing, and anything else is a record and is handed to the translator as
/// what its text parses to.
pub proof fn law_data_lines<T: SseTranslator>(
    m: T::Model,
    before: Seq<char>,
    inner: Seq<char>,
    data: Seq<char>,
    behind: Seq<char>,
)
    requires
        is_blank(before),
        is_blank(inner),
        is_blank(behind),
        data.len() > 0 ==> !is_space(data[0]) && !is_space(data.last()),
    ensures
        line_step::<T>(m, before + "data:"@ + inner + data + behind) == if data == "[DONE]"@ {
            Step { m, events: Seq::<EventView>::empty(), end: End::Done }
        } else if data.len() == 0 {
            Step { m, events: Seq::<EventView>::empty(), end: End::More }
        } else {
            record_step::<T>(m, parsed(data))
        },
{
    let tail = inner + data + behind;
    let line = before + "data:"@ + inner + data + behind;
    reveal_strlit("data:");
    reveal_strlit("[DONE]");
    assert("[DONE]"@.len() == 6);
    let rest = "data:"@ + tail;
    assert(line =~= before + rest);
    assert(rest[0] == 'd');
    assert(!is_space('d'));
    lemma_trim_start(before, rest);
    assert(rest.take(5) =~= "data:"@);
    assert(rest.skip(5) =~= tail);
    law_trimming(inner, data, behind);
}

/// A line whose text does not start with the word for data does nothing.
pub proof fn law_other_lines<T: SseTranslator>(m: T::Model, before: Seq<char>, rest: Seq<char>)
    requires
        is_blank(before),
        rest.len() == 0 || !is_space(rest[0]),
        !(rest.len() >= 5 && rest.take(5) == "data:"@),
    ensures
        line_step::<T>(m, before + rest) == (Step {
            m,
            events: Seq::<EventView>::empty(),
            end: End::More,
        }),
{
    lemma_trim_start(before, rest);
}

/// A record is pushed to the translator. Its events are handed on, and its refusal fails the
/// stream with the reason; so does a text that is not JSON, with the words for that.
pub proof fn law_records<T: SseTranslator>(m: T::Model, v: JsonView, why: Seq<char>)
    ensures
        record_step::<T>(m, Ok(v)) == match T::pushed(m, v).1 {
            Ok(events) => Step { m: T::pushed(m, v).0, events, end: End::More },
            Err(message) => Step {
                m: T::pushed(m, v).0,
                events: Seq::<EventView>::empty(),
                end: End::Failed(ApiErrorView::InvalidRequest { message }),
            },
        },
        record_step::<T>(m, Err(why)) == (Step {
            m,
            events: Seq::<EventView>::empty(),
            end: End::Failed(ApiErrorView::Stream("bad SSE json: "@ + why)),
        }),
{
}

proof fn lemma_line_end(line: Seq<char>, rest: Seq<char>)
    requires
        forall|i: int| 0 <= i < line.len() ==> #[trigger] line[i] != '\n',
    ensures
        line_end(line + seq!['\n'] + rest) == line.len(),
        line_end(line) == line.len(),
    decreases line.len(),
{
    let all = line + seq!['\n'] + rest;
    if line.len() > 0 {
        let tail = line.skip(1);
        assert(line[0] != '\n');
        assert forall|i: int| 0 <= i < tail.len() implies #[trigger] tail[i] != '\n' by {
            assert(tail[i] == line[i + 1]);
        }
        lemma_line_end(tail, rest);
        assert(all.skip(1) =~= tail + seq!['\n'] + rest);
        assert(all[0] == line[0]);
    } else {
        assert(all[0] == '\n');
    }
}

/// The lines of a frame are taken one after the other, up to one that ends the stream.
pub proof fn law_lines_are_taken_in_order<T: SseTranslator>(
    m: T::Model,
    line: Seq<char>,
    rest: Seq<char>,
)
    requires
        forall|i: int| 0 <= i < line.len() ==> #[trigger] line[i] != '\n',
    ensures
        text_step::<T>(m, line) == line_step::<T>(m, line),
        ({
            let first = line_step::<T>(m, line);
            let then = text_step::<T>(first.m, rest);
            text_step::<T>(m, line + seq!['\n'] + rest) == if first.end is More {
                Step { m: then.m, events: first.events + then.events, end: then.end }
            } else {
                first
            }
        }),
{
    let all = line + seq!['\n'] + rest;
    lemma_line_end(line, rest);
    assert(line.take(line.len() as int) =~= line);
    assert(all.take(line.len() as int) =~= line);
    assert(all.skip(line.len() as int + 1) =~= rest);
}

// ---- frames ----

/// The frames of a stream are taken one after the other, each up to the first empty line, until one
/// ends the stream. A frame is decoded as a whole; bytes that are not UTF-8 fail the stream with
/// the words for that. What has no empty line yet is kept and does nothing.
pub proof fn law_frames_are_taken_in_order<T: SseTranslator>(
    m: T::Model,
    frame: Seq<u8>,
    rest: Seq<u8>,
)
    requires
        forall|i: int|
            0 <= i < frame.len() ==> !(#[trigger] frame[i] == 10 && (frame + seq![10u8])[i + 1] == 10),
    ensures
        ({
            let first = if valid_utf8(frame) {
                text_step::<T>(m, decode_utf8(frame))
            } else {
                Step {
                    m,
                    events: Seq::<EventView>::empty(),
                    end: End::Failed(
                        ApiErrorView::Stream("SSE frame UTF-8 error: "@ + utf8_fault(frame)),
                    ),
                }
            };
            let (then, left) = bytes_step::<T>(first.m, rest);
            bytes_step::<T>(m, frame + seq![10u8, 10u8] + rest) == if first.end is More {
                (Step { m: then.m, events: first.events + then.events, end: then.end }, left)
            } else {
                (first, rest)
            }
        }),
        bytes_step::<T>(m, frame) == (
            Step { m, events: Seq::<EventView>::empty(), end: End::More },
            frame,
        ),
{
    let all = frame + seq![10u8, 10u8] + rest;
    let p = frame.len() as int;
    assert(all[p] == 10 && all[p + 1] == 10);
    assert forall|q: int| 0 <= q < p implies !is_break(all, q) by {
        assert(all[q] == frame[q]);
        assert(all[q + 1] == (frame + seq![10u8])[q + 1]);
    }
    assert(frame_ends(all, p));
    lemma_first_frame::<T>(m, all, p);
    assert(all.take(p) =~= frame);
    assert(all.skip(p + 2) =~= rest);
    assert forall|q: int| !frame_ends(frame, q) by {
        if is_break(frame, q) {
            assert(frame[q] == 10);
            assert((frame + seq![10u8])[q + 1] == frame[q + 1]);
        }
    }
}

/// Bytes without an empty line do nothing and are all kept.
pub proof fn law_incomplete_frames_wait<T: SseTranslator>(m: T::Model, bytes: Seq<u8>)
    requires
        forall|i: int, j: int|
            0 <= i && j == i + 1 && j < bytes.len() ==> !(#[trigger] bytes[i] == 10
                && #[trigger] bytes[j] == 10),
    ensures
        bytes_step::<T>(m, bytes) == (
            Step { m, events: Seq::<EventView>::empty(), end: End::More },
            bytes,
        ),
{
    assert forall|q: int| !frame_ends(bytes, q) by {
        if is_break(bytes, q) {
            assert(!(bytes[q] == 10 && bytes[q + 1] == 10));
        }
    }
}

// ---- arrivals ----

/// What arrives of an open stream. Bytes go behind those that were kept; their events are handed
/// on, and behind them the completed response if they end the stream, or the error if they fail
/// it. A fault is an error with its words. The end of the bytes completes the response. The stream
/// stays open only while bytes leave it open.
pub proof fn law_what_arrives<T: SseTranslator>(
    r: ReaderView<T::Model>,
    chunk: Seq<u8>,
    why: Seq<char>,
)
    requires
        r.open,
    ensures
        ({
            let (s, left) = bytes_step::<T>(r.m, r.pending + chunk);
            let (next, items) = received::<T>(r, ArrivalView::Bytes(chunk));
            match s.end {
                End::More => {
                    &&& next == (ReaderView { m: s.m, pending: left, open: true })
                    &&& items.len() == s.events.len()
                    &&& forall|i: int|
                        0 <= i < items.len() ==> #[trigger] items[i] == Ok::<
                            EventView,
                            ApiErrorView,
                        >(s.events[i])
                },
                End::Done => {
                    let all = s.events + T::finished(s.m).1;
                    &&& !next.open
                    &&& items.len() == all.len()
                    &&& forall|i: int|
                        0 <= i < items.len() ==> #[trigger] items[i] == Ok::<
                            EventView,
                            ApiErrorView,
                        >(all[i])
                },
                End::Failed(e) => {
                    &&& !next.open
                    &&& items.len() == s.events.len() + 1
                    &&& forall|i: int|
                        0 <= i < s.events.len() ==> #[trigger] items[i] == Ok::<
                            EventView,
                            ApiErrorView,
                        >(s.events[i])
                    &&& items.last() == Err::<EventView, ApiErrorView>(e)
                },
            }
        }),
        ({
            let (next, items) = received::<T>(r, ArrivalView::Broken(why));
            &&& !next.open
            &&& items.len() == 1
            &&& items[0] == Err::<EventView, ApiErrorView>(
                ApiErrorView::Stream("stream error: "@ + why),
            )
        }),
        ({
            let (next, items) = received::<T>(r, ArrivalView::End);
            &&& !next.open
            &&& items.len() == T::finished(r.m).1.len()
            &&& forall|i: int|
                0 <= i < items.len() ==> #[trigger] items[i] == Ok::<EventView, ApiErrorView>(
                    T::finished(r.m).1[i],
                )
        }),
{
}

// ---- numerals ----

/// The number that a text of digits denotes.
pub open spec fn number_of(s: Seq<char>) -> nat
    decreases s.len(),
{
    if s.len() == 0 {
        0
    } else {
        (number_of(s.drop_last()) * 10 + (s.last() as u32 - 48)) as nat
    }
}

/// A numeral is made of digits, denotes its number, and has no zero before it that says nothing.
pub proof fn law_numerals_denote(n: nat)
    ensures
        number_of(decimal(n)) == n,
        decimal(n).len() >= 1,
        forall|i: int| 0 <= i < decimal(n).len() ==> '0' <= #[trigger] decimal(n)[i] <= '9',
        decimal(n).len() > 1 ==> decimal(n)[0] != '0',
    decreases n,
{
    reveal_with_fuel(number_of, 2);
    if n < 10 {
        assert(digit(n) as u32 == 48 + n);
        assert(seq![digit(n)].drop_last() =~= Seq::empty());
    } else {
        law_numerals_denote(n / 10);
        let d = decimal(n / 10);
        assert(digit(n % 10) as u32 == 48 + n % 10);
        assert(d.push(digit(n % 10)).drop_last() =~= d);
        if d.len() == 1 {
            assert(d[0] as u32 == 48 + n / 10) by {
                assert(d.drop_last() =~= Seq::empty());
            }
        }
        assert forall|i: int| 0 <= i < decimal(n).len() implies '0' <= #[trigger] decimal(n)[i]
            <= '9' by {
            if i < d.len() {
                assert(decimal(n)[i] == d[i]);
            }
        }
    }
}

} // verus!
