//! Where results of calls end up.

use super::chat_history::{carries_some, lemma_parts, plain_part, result_part};
use crate::connector::anthropic_req::call_block;
use crate::connector::reorder::{
    bystanders, call_ids, laid_out, placed_all, present, reordered, result_id, result_ids,
    results_for, Laid,
};
use crate::json::{held, held_all, held_opt, JsonView};
use serde_json::Value;
use vstd::prelude::*;

verus! {

/// The identifiers of the calls that a message of the assistant makes, as far as they have some.
pub open spec fn calls_of(m: JsonView) -> Seq<Option<Seq<char>>> {
    if m.text_at("role"@) == Some("assistant"@) {
        match m.list_at("tool_calls"@) {
            Some(cs) => cs.map_values(|c: JsonView| c.text_at("id"@)),
            None => Seq::empty(),
        }
    } else {
        Seq::empty()
    }
}

/// The identifier of the call whose result a message carries.
pub open spec fn carried(m: JsonView) -> Option<Seq<char>> {
    if carries_some(m) {
        m.text_at("tool_call_id"@)
    } else {
        None
    }
}

/// Whether one of the messages makes this call.
pub open spec fn is_made(ms: Seq<JsonView>, id: Seq<char>) -> bool {
    exists|k: int| 0 <= k < ms.len() && calls_of(#[trigger] ms[k]).contains(Some(id))
}

/// The results of these calls, call by call, without those of calls that are made earlier or come
/// a second time.
pub open spec fn new_results(
    msgs: Seq<JsonView>,
    earlier: Seq<JsonView>,
    ids: Seq<Option<Seq<char>>>,
) -> Seq<JsonView>
    decreases ids.len(),
{
    if ids.len() == 0 {
        Seq::empty()
    } else {
        let before = new_results(msgs, earlier, ids.drop_last());
        match ids.last() {
            Some(id) => if is_made(earlier, id) || ids.drop_last().contains(Some(id)) {
                before
            } else {
                before + result_part(msgs, id)
            },
            None => before,
        }
    }
}

/// Messages that carry no result, each followed by the results of the calls that it is the first
/// to make.
pub open spec fn with_results(msgs: Seq<JsonView>, plain: Seq<JsonView>) -> Seq<JsonView>
    decreases plain.len(),
{
    if plain.len() == 0 {
        Seq::empty()
    } else {
        with_results(msgs, plain.drop_last()).push(plain.last()) + new_results(
            msgs,
            plain.drop_last(),
            calls_of(plain.last()),
        )
    }
}

spec fn knows(placed: Set<Seq<char>>, earlier: Seq<JsonView>) -> bool {
    forall|id: Seq<char>| #[trigger] placed.contains(id) <==> is_made(earlier, id)
}

proof fn lemma_placed(
    msgs: Seq<JsonView>,
    earlier: Seq<JsonView>,
    l: Laid,
    ids: Seq<Option<Seq<char>>>,
)
    requires
        knows(l.placed, earlier),
    ensures
        placed_all(msgs, l, present(ids)).out == l.out + new_results(msgs, earlier, ids),
        forall|id: Seq<char>| #[trigger]
            placed_all(msgs, l, present(ids)).placed.contains(id) <==> is_made(earlier, id)
                || ids.contains(Some(id)),
    decreases ids.len(),
{
    if ids.len() == 0 {
        assert(l.out + Seq::<JsonView>::empty() =~= l.out);
    } else {
        let head = ids.drop_last();
        lemma_placed(msgs, earlier, l, head);
        let mid = placed_all(msgs, l, present(head));
        let r = placed_all(msgs, l, present(ids));
        assert(head.push(ids.last()) =~= ids);
        if let Some(id) = ids.last() {
            assert(present(ids).drop_last() =~= present(head));
            lemma_parts(msgs, id);
            assert(mid.placed.contains(id) <==> is_made(earlier, id) || head.contains(Some(id)));
            let before = new_results(msgs, earlier, head);
            assert(l.out + before + results_for(msgs, id) =~= l.out + (before + results_for(
                msgs,
                id,
            )));
        }
        assert forall|id: Seq<char>| #[trigger] r.placed.contains(id) <==> is_made(earlier, id)
            || ids.contains(Some(id)) by {
            super::lists::lemma_push_contains(head, ids.last(), Some(id));
            assert(mid.placed.contains(id) <==> is_made(earlier, id) || head.contains(Some(id)));
        }
    }
}

proof fn lemma_call_ids(m: JsonView)
    ensures
        call_ids(m) == present(calls_of(m)),
{
    if m.text_at("role"@) == Some("assistant"@) {
        if let Some(cs) = m.list_at("tool_calls"@) {
            assert(cs.map_values(|c: JsonView| c.text_at("id"@)) =~= calls_of(m));
        } else {
            assert(call_ids(m) =~= present(calls_of(m)));
        }
    } else {
        assert(call_ids(m) =~= present(calls_of(m)));
    }
}

proof fn lemma_with_results(msgs: Seq<JsonView>, plain: Seq<JsonView>)
    ensures
        laid_out(msgs, plain).out == with_results(msgs, plain),
        knows(laid_out(msgs, plain).placed, plain),
    decreases plain.len(),
{
    if plain.len() > 0 {
        let head = plain.drop_last();
        let m = plain.last();
        lemma_with_results(msgs, head);
        let l = laid_out(msgs, head);
        let pushed = Laid { out: l.out.push(m), placed: l.placed };
        lemma_placed(msgs, head, pushed, calls_of(m));
        lemma_call_ids(m);
        let r = laid_out(msgs, plain);
        assert forall|id: Seq<char>| #[trigger] r.placed.contains(id) <==> is_made(plain, id) by {
            if is_made(head, id) {
                let k = choose|k: int|
                    0 <= k < head.len() && calls_of(#[trigger] head[k]).contains(Some(id));
                assert(calls_of(plain[k]).contains(Some(id)));
            }
            if calls_of(m).contains(Some(id)) {
                assert(calls_of(plain[plain.len() - 1]).contains(Some(id)));
            }
            if is_made(plain, id) {
                let k = choose|k: int|
                    0 <= k < plain.len() && calls_of(#[trigger] plain[k]).contains(Some(id));
                if k < head.len() {
                    assert(calls_of(head[k]).contains(Some(id)));
                }
            }
        }
    }
}

/// Each message that carries no result stays in its order and is followed by the results of the
/// calls that it is the first to make, call by call. Results of calls that are not made come at the
/// end, call by call as they first appear.
pub proof fn law_where_results_end_up(msgs: Seq<JsonView>)
    ensures
        reordered(msgs) == with_results(msgs, plain_part(msgs)) + new_results(
            msgs,
            plain_part(msgs),
            msgs.map_values(|m: JsonView| carried(m)),
        ),
{
    let plain = bystanders(msgs);
    lemma_parts(msgs, Seq::empty());
    lemma_with_results(msgs, plain);
    let ids = msgs.map_values(|m: JsonView| carried(m));
    assert(msgs.map_values(|m: JsonView| result_id(m)) =~= ids);
    assert(result_ids(msgs) == present(ids));
    lemma_placed(msgs, plain, laid_out(msgs, plain), ids);
}

// ---- values ----

/// An object holds under a key what was last put there, and what is put under a key leaves the
/// others alone. Lists and optional values hold what their elements hold.
pub proof fn law_values_hold_what_is_put(
    v: JsonView,
    key: Seq<char>,
    other: Seq<char>,
    x: JsonView,
    vs: Seq<Value>,
    o: Option<Value>,
)
    ensures
        v is Object ==> v.with(key, x) is Object && v.with(key, x).get(key) == Some(x),
        v is Object && other != key ==> v.with(key, x).get(other) == v.get(other),
        held_all(vs).len() == vs.len(),
        forall|i: int| 0 <= i < vs.len() ==> #[trigger] held_all(vs)[i] == held(vs[i]),
        held_opt(o) == match o {
            Some(y) => Some(held(y)),
            None => None,
        },
        v.text_at(key) == match v.get(key) {
            Some(JsonView::Text(s)) => Some(s),
            _ => None,
        },
        v.list_at(key) == match v.get(key) {
            Some(JsonView::List(s)) => Some(s),
            _ => None,
        },
        v.i64_at(key) == match v.get(key) {
            Some(JsonView::Int(n)) => if i64::MIN <= n <= i64::MAX {
                Some(n as i64)
            } else {
                None
            },
            _ => None,
        },
{
}

/// A call is sent with its identifier, its name and the value of its arguments, whatever that is.
/// Arguments without a value are refused with the words for that.
pub proof fn law_calls_are_sent_with_their_input(
    call_id: Seq<char>,
    name: Seq<char>,
    input: JsonView,
    why: Seq<char>,
)
    ensures
        call_block(call_id, name, Ok(input)) == Ok::<JsonView, Seq<char>>(
            JsonView::Object(
                map![
                    "type"@ => JsonView::Text("tool_use"@),
                    "id"@ => JsonView::Text(call_id),
                    "name"@ => JsonView::Text(name),
                    "input"@ => input,
                ],
            ),
        ),
        call_block(call_id, name, Err(why)) == Err::<JsonView, Seq<char>>(
            "FunctionCall arguments invalid JSON: "@ + why,
        ),
{
}

} // verus!
