//! What holds of the messages of a Chat Completions request.

use crate::connector::chat_req::{
    agent_text, call_json, chat_messages, message_json, message_text, output_text, placeholders,
    result_json, scan_item, scan_items, scan_start, Scan,
};
use crate::connector::reorder::{
    bystanders, call_ids, laid_out, placed_all, placed_one, present, reordered, result_id,
    result_ids, results_for, Laid,
};
use super::lists::{lemma_others_contains, lemma_others_distinct, lemma_push_contains};
use crate::json::JsonView;
use crate::protocol::ResponseItem;
use vstd::prelude::*;

verus! {

// ---- filters ----

pub(super) proof fn lemma_bystanders_add(a: Seq<JsonView>, b: Seq<JsonView>)
    ensures
        bystanders(a + b) == bystanders(a) + bystanders(b),
{
    Seq::filter_distributes_over_add(a, b, |m: JsonView| result_id(m) is None);
}

pub(super) proof fn lemma_results_add(a: Seq<JsonView>, b: Seq<JsonView>, id: Seq<char>)
    ensures
        results_for(a + b, id) == results_for(a, id) + results_for(b, id),
{
    Seq::filter_distributes_over_add(a, b, |m: JsonView| result_id(m) == Some(id));
}

/// The elements of `results_for` carry a result of that call.
pub(super) proof fn lemma_results_have_id(all: Seq<JsonView>, id: Seq<char>)
    ensures
        forall|i: int|
            0 <= i < results_for(all, id).len() ==> result_id(#[trigger] results_for(all, id)[i])
                == Some(id),
{
    let p = |m: JsonView| result_id(m) == Some(id);
    assert forall|i: int| 0 <= i < results_for(all, id).len() implies result_id(
        #[trigger] results_for(all, id)[i],
    ) == Some(id) by {
        all.lemma_filter_pred(p, i);
    }
}

pub(super) proof fn lemma_bystanders_have_none(all: Seq<JsonView>)
    ensures
        forall|i: int|
            0 <= i < bystanders(all).len() ==> result_id(#[trigger] bystanders(all)[i]) is None,
{
    let p = |m: JsonView| result_id(m) is None;
    assert forall|i: int| 0 <= i < bystanders(all).len() implies result_id(
        #[trigger] bystanders(all)[i],
    ) is None by {
        all.lemma_filter_pred(p, i);
    }
}

/// If every message carries a result of the call `id`, filters keep all or nothing.
proof fn lemma_all_of_one_call(ms: Seq<JsonView>, id: Seq<char>, x: Seq<char>)
    requires
        forall|i: int| 0 <= i < ms.len() ==> result_id(#[trigger] ms[i]) == Some(id),
    ensures
        bystanders(ms) == Seq::<JsonView>::empty(),
        results_for(ms, x) == if x == id {
            ms
        } else {
            Seq::empty()
        },
    decreases ms.len(),
{
    reveal(Seq::filter);
    if ms.len() > 0 {
        lemma_all_of_one_call(ms.drop_last(), id, x);
        assert(result_id(ms.last()) == Some(id));
        assert(ms.drop_last().push(ms.last()) =~= ms);
    }
}

/// If no message carries a result, filters keep nothing or all.
proof fn lemma_no_results(ms: Seq<JsonView>, x: Seq<char>)
    requires
        forall|i: int| 0 <= i < ms.len() ==> result_id(#[trigger] ms[i]) is None,
    ensures
        bystanders(ms) == ms,
        results_for(ms, x) == Seq::<JsonView>::empty(),
    decreases ms.len(),
{
    reveal(Seq::filter);
    if ms.len() > 0 {
        lemma_no_results(ms.drop_last(), x);
        assert(result_id(ms.last()) is None);
        assert(ms.drop_last().push(ms.last()) =~= ms);
    }
}

// ---- layout ----

/// Whether a layout holds these bystanders, and the results of exactly the placed calls.
pub(super) open spec fn sound(all: Seq<JsonView>, l: Laid, plain: Seq<JsonView>) -> bool {
    &&& bystanders(l.out) == plain
    &&& forall|x: Seq<char>| #[trigger]
        results_for(l.out, x) == if l.placed.contains(x) {
            results_for(all, x)
        } else {
            Seq::empty()
        }
}

proof fn lemma_placed_one(all: Seq<JsonView>, l: Laid, id: Seq<char>, plain: Seq<JsonView>)
    requires
        sound(all, l, plain),
    ensures
        sound(all, placed_one(all, l, id), plain),
        placed_one(all, l, id).placed == l.placed.insert(id),
{
    if l.placed.contains(id) {
        assert(l.placed.insert(id) =~= l.placed);
    } else {
        let more = results_for(all, id);
        let now = placed_one(all, l, id);
        lemma_results_have_id(all, id);
        lemma_bystanders_add(l.out, more);
        lemma_all_of_one_call(more, id, id);
        assert(plain + Seq::<JsonView>::empty() =~= plain);
        assert forall|x: Seq<char>| #[trigger]
            results_for(now.out, x) == if now.placed.contains(x) {
                results_for(all, x)
            } else {
                Seq::empty()
            } by {
            lemma_results_add(l.out, more, x);
            lemma_all_of_one_call(more, id, x);
            assert(results_for(l.out, x) + Seq::<JsonView>::empty() =~= results_for(l.out, x));
            assert(Seq::<JsonView>::empty() + more =~= more);
        }
    }
}

pub(super) proof fn lemma_placed_all(all: Seq<JsonView>, l: Laid, ids: Seq<Seq<char>>, plain: Seq<JsonView>)
    requires
        sound(all, l, plain),
    ensures
        sound(all, placed_all(all, l, ids), plain),
        placed_all(all, l, ids).placed == l.placed.union(ids.to_set()),
    decreases ids.len(),
{
    if ids.len() == 0 {
        assert(l.placed.union(ids.to_set()) =~= l.placed);
    } else {
        lemma_placed_all(all, l, ids.drop_last(), plain);
        lemma_placed_one(all, placed_all(all, l, ids.drop_last()), ids.last(), plain);
        assert(placed_all(all, l, ids).placed =~= l.placed.union(ids.to_set())) by {
            assert forall|x: Seq<char>| ids.to_set().contains(x) implies
                ids.drop_last().to_set().contains(x) || x == ids.last() by {
                let i = choose|i: int| 0 <= i < ids.len() && ids[i] == x;
                if i < ids.len() - 1 {
                    assert(ids.drop_last()[i] == x);
                }
            }
            assert forall|x: Seq<char>| ids.drop_last().to_set().contains(x)
                || x == ids.last() implies ids.to_set().contains(x) by {
                if x == ids.last() {
                    assert(ids[ids.len() - 1] == x);
                } else {
                    let i = choose|i: int|
                        0 <= i < ids.drop_last().len() && ids.drop_last()[i] == x;
                    assert(ids[i] == x);
                }
            }
        }
    }
}

/// Whether some message makes this call.
pub open spec fn calls(ms: Seq<JsonView>, id: Seq<char>) -> bool {
    exists|i: int| 0 <= i < ms.len() && call_ids(#[trigger] ms[i]).contains(id)
}

/// Whether some message carries a result of this call.
pub open spec fn answers(ms: Seq<JsonView>, id: Seq<char>) -> bool {
    exists|i: int| 0 <= i < ms.len() && result_id(#[trigger] ms[i]) == Some(id)
}

pub(super) proof fn lemma_laid_out(all: Seq<JsonView>, rest: Seq<JsonView>)
    requires
        forall|i: int| 0 <= i < rest.len() ==> result_id(#[trigger] rest[i]) is None,
    ensures
        sound(all, laid_out(all, rest), rest),
        forall|id: Seq<char>| #[trigger]
            laid_out(all, rest).placed.contains(id) <==> calls(rest, id),
    decreases rest.len(),
{
    reveal(Seq::filter);
    if rest.len() == 0 {
        assert(bystanders(laid_out(all, rest).out) =~= rest);
    } else {
        let head = rest.drop_last();
        let m = rest.last();
        lemma_laid_out(all, head);
        let l = laid_out(all, head);
        let pushed = Laid { out: l.out.push(m), placed: l.placed };
        assert(pushed.out.drop_last() =~= l.out);
        assert(head.push(m) =~= rest);
        assert(sound(all, pushed, rest)) by {
            assert forall|x: Seq<char>| #[trigger]
                results_for(pushed.out, x) == if pushed.placed.contains(x) {
                    results_for(all, x)
                } else {
                    Seq::empty()
                } by {
                assert(results_for(pushed.out, x) == results_for(l.out, x));
            }
        }
        lemma_placed_all(all, pushed, call_ids(m), rest);
        assert forall|id: Seq<char>| #[trigger]
            laid_out(all, rest).placed.contains(id) <==> calls(rest, id) by {
            if calls(rest, id) {
                let i = choose|i: int| 0 <= i < rest.len() && call_ids(#[trigger] rest[i]).contains(id);
                if i < head.len() {
                    assert(call_ids(head[i]).contains(id));
                }
            }
            if calls(head, id) {
                let i = choose|i: int| 0 <= i < head.len() && call_ids(#[trigger] head[i]).contains(id);
                assert(call_ids(rest[i]).contains(id));
            }
            if call_ids(m).contains(id) {
                assert(call_ids(rest[rest.len() - 1]).contains(id));
            }
        }
    }
}

proof fn lemma_present_contains(ids: Seq<Option<Seq<char>>>, x: Seq<char>)
    ensures
        present(ids).contains(x) <==> ids.contains(Some(x)),
    decreases ids.len(),
{
    if ids.len() > 0 {
        let head = ids.drop_last();
        lemma_present_contains(head, x);
        if ids.contains(Some(x)) {
            let i = choose|i: int| 0 <= i < ids.len() && ids[i] == Some(x);
            if i < head.len() {
                assert(head[i] == Some(x));
                let j = choose|j: int| 0 <= j < present(head).len() && present(head)[j] == x;
                assert(present(ids)[j] == x);
            } else {
                assert(present(ids)[present(head).len() as int] == x);
            }
        }
        if present(ids).contains(x) {
            let j = choose|j: int| 0 <= j < present(ids).len() && present(ids)[j] == x;
            if j < present(head).len() {
                assert(present(head)[j] == x);
                let i = choose|i: int| 0 <= i < head.len() && head[i] == Some(x);
                assert(ids[i] == Some(x));
            } else {
                assert(ids[ids.len() - 1] == Some(x));
            }
        }
    }
}

pub(super) proof fn lemma_result_ids(msgs: Seq<JsonView>, x: Seq<char>)
    ensures
        result_ids(msgs).contains(x) <==> answers(msgs, x),
        !answers(msgs, x) ==> results_for(msgs, x) == Seq::<JsonView>::empty(),
{
    let ids = msgs.map_values(|m: JsonView| result_id(m));
    lemma_present_contains(ids, x);
    if ids.contains(Some(x)) {
        let i = choose|i: int| 0 <= i < ids.len() && ids[i] == Some(x);
        assert(result_id(msgs[i]) == Some(x));
    }
    if answers(msgs, x) {
        let i = choose|i: int| 0 <= i < msgs.len() && result_id(#[trigger] msgs[i]) == Some(x);
        assert(ids[i] == Some(x));
    } else {
        msgs.lemma_all_neg_filter_empty(|m: JsonView| result_id(m) == Some(x));
        assert(results_for(msgs, x) =~= Seq::empty());
    }
}

/// Putting results behind their calls loses nothing and doubles nothing: the other messages stay
/// in their order, and so do the results of each call.
pub proof fn law_reordering_keeps_all(msgs: Seq<JsonView>)
    ensures
        bystanders(reordered(msgs)) == bystanders(msgs),
        forall|id: Seq<char>| #[trigger]
            results_for(reordered(msgs), id) == results_for(msgs, id),
{
    let plain = bystanders(msgs);
    let l = laid_out(msgs, plain);
    let ids = result_ids(msgs);
    lemma_bystanders_have_none(msgs);
    lemma_laid_out(msgs, plain);
    lemma_placed_all(msgs, l, ids, plain);
    assert forall|id: Seq<char>| #[trigger]
        results_for(reordered(msgs), id) == results_for(msgs, id) by {
        lemma_result_ids(msgs, id);
        if answers(msgs, id) {
            assert(ids.to_set().contains(id));
        }
    }
}

// ---- neighbours ----

/// Whether each result follows a message that makes its call, with nothing between the two but
/// results of calls of that message.
pub open spec fn results_follow_calls(ms: Seq<JsonView>) -> bool {
    forall|i: int|
        #![trigger ms[i]]
        0 <= i < ms.len() && result_id(ms[i]) is Some ==> follows_call(ms, i)
}

/// Whether the result at `i` follows a message that makes its call.
pub open spec fn follows_call(ms: Seq<JsonView>, i: int) -> bool {
    exists|j: int| 0 <= j < i && is_answer_to(ms, j, i)
}

/// Whether from behind `j` up to `i` there are only results of calls of the message at `j`.
pub open spec fn is_answer_to(ms: Seq<JsonView>, j: int, i: int) -> bool {
    forall|k: int|
        #![trigger ms[k]]
        j < k <= i ==> answers_one_of(ms[k], call_ids(ms[j]))
}

/// Whether a message carries a result of one of these calls.
pub open spec fn answers_one_of(m: JsonView, ids: Seq<Seq<char>>) -> bool {
    match result_id(m) {
        Some(id) => ids.contains(id),
        None => false,
    }
}

proof fn lemma_follow_prefix(a: Seq<JsonView>, b: Seq<JsonView>, i: int)
    requires
        0 <= i < a.len(),
        follows_call(a, i),
    ensures
        follows_call(a + b, i),
{
    let j = choose|j: int| 0 <= j < i && is_answer_to(a, j, i);
    let ab = a + b;
    assert forall|k: int| #![trigger ab[k]] j < k <= i implies answers_one_of(ab[k], call_ids(ab[j])) by {
        assert(ab[k] == a[k]);
        assert(ab[j] == a[j]);
    }
    assert(is_answer_to(ab, j, i));
}

/// Results of calls of the message at `j` keep their place when they are laid out behind it.
proof fn lemma_placed_follow(
    all: Seq<JsonView>,
    l: Laid,
    ids: Seq<Seq<char>>,
    j: int,
)
    requires
        0 <= j < l.out.len(),
        results_follow_calls(l.out),
        is_answer_to(l.out, j, l.out.len() - 1),
        forall|i: int| 0 <= i < ids.len() ==> call_ids(l.out[j]).contains(#[trigger] ids[i]),
    ensures
        ({
            let r = placed_all(all, l, ids);
            &&& r.out.len() >= l.out.len()
            &&& r.out[j] == l.out[j]
            &&& results_follow_calls(r.out)
            &&& is_answer_to(r.out, j, r.out.len() - 1)
        }),
    decreases ids.len(),
{
    if ids.len() > 0 {
        let head = ids.drop_last();
        let id = ids.last();
        assert forall|i: int| 0 <= i < head.len() implies call_ids(l.out[j]).contains(
            #[trigger] head[i],
        ) by {
            assert(head[i] == ids[i]);
        }
        lemma_placed_follow(all, l, head, j);
        let mid = placed_all(all, l, head);
        let r = placed_all(all, l, ids);
        if !mid.placed.contains(id) {
            let more = results_for(all, id);
            lemma_results_have_id(all, id);
            assert(r.out == mid.out + more);
            assert(call_ids(l.out[j]).contains(ids[ids.len() - 1]));
            assert forall|k: int| #![trigger r.out[k]] j < k <= r.out.len() - 1 implies answers_one_of(r.out[k], call_ids(r.out[j])) by {
                assert(r.out[j] == mid.out[j]);
                if k < mid.out.len() {
                    assert(r.out[k] == mid.out[k]);
                } else {
                    assert(r.out[k] == more[k - mid.out.len()]);
                }
            }
            assert forall|i: int| #![trigger r.out[i]] 0 <= i < r.out.len() && result_id(
                r.out[i],
            ) is Some implies follows_call(r.out, i) by {
                if i < mid.out.len() {
                    assert(r.out[i] == mid.out[i]);
                    lemma_follow_prefix(mid.out, more, i);
                } else {
                    assert forall|k: int| #![trigger r.out[k]] j < k <= i implies answers_one_of(r.out[k], call_ids(r.out[j])) by {}
                    assert(is_answer_to(r.out, j, i));
                }
            }
        }
    }
}

proof fn lemma_laid_out_follow(all: Seq<JsonView>, rest: Seq<JsonView>)
    requires
        forall|i: int| 0 <= i < rest.len() ==> result_id(#[trigger] rest[i]) is None,
    ensures
        results_follow_calls(laid_out(all, rest).out),
    decreases rest.len(),
{
    if rest.len() > 0 {
        let head = rest.drop_last();
        let m = rest.last();
        assert forall|i: int| 0 <= i < head.len() implies result_id(#[trigger] head[i]) is None by {
            assert(head[i] == rest[i]);
        }
        lemma_laid_out_follow(all, head);
        let l = laid_out(all, head);
        let pushed = Laid { out: l.out.push(m), placed: l.placed };
        let j = l.out.len() as int;
        assert(result_id(rest[rest.len() - 1]) is None);
        assert forall|i: int| #![trigger pushed.out[i]] 0 <= i < pushed.out.len() && result_id(
            pushed.out[i],
        ) is Some implies follows_call(pushed.out, i) by {
            assert(pushed.out =~= l.out + seq![m]);
            if i < l.out.len() {
                assert(pushed.out[i] == l.out[i]);
                lemma_follow_prefix(l.out, seq![m], i);
            }
        }
        assert(is_answer_to(pushed.out, j, pushed.out.len() - 1));
        assert forall|i: int| 0 <= i < call_ids(m).len() implies call_ids(pushed.out[j]).contains(
            #[trigger] call_ids(m)[i],
        ) by {
            assert(pushed.out[j] == m);
        }
        lemma_placed_follow(all, pushed, call_ids(m), j);
    }
}

/// If everything is placed already, nothing more is laid out.
pub(super) proof fn lemma_nothing_left(all: Seq<JsonView>, l: Laid, ids: Seq<Seq<char>>)
    requires
        forall|i: int| 0 <= i < ids.len() ==> l.placed.contains(#[trigger] ids[i]),
    ensures
        placed_all(all, l, ids) == l,
    decreases ids.len(),
{
    if ids.len() > 0 {
        let head = ids.drop_last();
        assert forall|i: int| 0 <= i < head.len() implies l.placed.contains(#[trigger] head[i]) by {
            assert(head[i] == ids[i]);
        }
        lemma_nothing_left(all, l, head);
        assert(l.placed.contains(ids[ids.len() - 1]));
    }
}

/// Whether every result among the messages belongs to a call among them.
pub open spec fn no_orphan_results(msgs: Seq<JsonView>) -> bool {
    forall|id: Seq<char>| #[trigger] answers(msgs, id) ==> calls(bystanders(msgs), id)
}

pub(super) proof fn lemma_reordered_without_orphans(msgs: Seq<JsonView>)
    requires
        no_orphan_results(msgs),
    ensures
        reordered(msgs) == laid_out(msgs, bystanders(msgs)).out,
{
    let plain = bystanders(msgs);
    let l = laid_out(msgs, plain);
    let ids = result_ids(msgs);
    lemma_bystanders_have_none(msgs);
    lemma_laid_out(msgs, plain);
    assert forall|i: int| 0 <= i < ids.len() implies l.placed.contains(#[trigger] ids[i]) by {
        assert(ids.contains(ids[i]));
        lemma_result_ids(msgs, ids[i]);
    }
    lemma_nothing_left(msgs, l, ids);
}

/// Where each result belongs to a call, it ends up right behind the message that makes the call,
/// with nothing between the two but other results of calls of that message.
pub proof fn law_results_follow_their_calls(msgs: Seq<JsonView>)
    requires
        no_orphan_results(msgs),
    ensures
        results_follow_calls(reordered(msgs)),
{
    lemma_bystanders_have_none(msgs);
    lemma_reordered_without_orphans(msgs);
    lemma_laid_out_follow(msgs, bystanders(msgs));
}

proof fn lemma_same_results_same_places(
    a: Seq<JsonView>,
    b: Seq<JsonView>,
    l: Laid,
    ids: Seq<Seq<char>>,
)
    requires
        forall|id: Seq<char>| #[trigger] results_for(a, id) == results_for(b, id),
    ensures
        placed_all(a, l, ids) == placed_all(b, l, ids),
    decreases ids.len(),
{
    if ids.len() > 0 {
        lemma_same_results_same_places(a, b, l, ids.drop_last());
        assert(results_for(a, ids.last()) == results_for(b, ids.last()));
    }
}

proof fn lemma_same_results_same_layout(a: Seq<JsonView>, b: Seq<JsonView>, rest: Seq<JsonView>)
    requires
        forall|id: Seq<char>| #[trigger] results_for(a, id) == results_for(b, id),
    ensures
        laid_out(a, rest) == laid_out(b, rest),
    decreases rest.len(),
{
    if rest.len() > 0 {
        lemma_same_results_same_layout(a, b, rest.drop_last());
        let l = laid_out(a, rest.drop_last());
        lemma_same_results_same_places(
            a,
            b,
            Laid { out: l.out.push(rest.last()), placed: l.placed },
            call_ids(rest.last()),
        );
    }
}

/// Where each result belongs to a call, only the order of the results of one call matters, not how
/// results of different calls, or results and other messages, are mixed.
pub proof fn law_mix_is_immaterial(a: Seq<JsonView>, b: Seq<JsonView>)
    requires
        no_orphan_results(a),
        bystanders(a) == bystanders(b),
        forall|id: Seq<char>| #[trigger] results_for(a, id) == results_for(b, id),
    ensures
        reordered(a) == reordered(b),
{
    assert forall|id: Seq<char>| #[trigger] answers(b, id) implies calls(bystanders(b), id) by {
        let i = choose|i: int| 0 <= i < b.len() && result_id(#[trigger] b[i]) == Some(id);
        let p = |m: JsonView| result_id(m) == Some(id);
        b.lemma_filter_contains(p, i);
        let k = choose|k: int| 0 <= k < b.filter(p).len() && b.filter(p)[k] == b[i];
        assert(results_for(a, id).len() > 0);
        lemma_result_ids(a, id);
    }
    lemma_reordered_without_orphans(a);
    lemma_reordered_without_orphans(b);
    lemma_same_results_same_layout(a, b, bystanders(a));
}

// ---- whole requests ----

pub(super) proof fn lemma_shapes(a: Seq<char>, b: Seq<char>, c: Seq<char>)
    ensures
        result_id(message_json(a, b)) is None,
        call_ids(message_json(a, b)) == Seq::<Seq<char>>::empty(),
        result_id(call_json(a, b, c)) is None,
        call_ids(call_json(a, b, c)) == seq![a],
        result_id(result_json(a, b)) == Some(a),
        call_ids(result_json(a, b)) == Seq::<Seq<char>>::empty(),
{
    reveal_strlit("role");
    reveal_strlit("content");
    reveal_strlit("tool_calls");
    reveal_strlit("tool_call_id");
    reveal_strlit("id");
    reveal_strlit("type");
    reveal_strlit("function");
    reveal_strlit("assistant");
    reveal_strlit("tool");
    assert("role"@.len() == 4 && "content"@.len() == 7 && "tool_calls"@.len() == 10);
    assert("tool_call_id"@.len() == 12 && "id"@.len() == 2 && "type"@.len() == 4);
    assert("function"@.len() == 8 && "assistant"@.len() == 9 && "tool"@.len() == 4);
    let m = call_json(a, b, c);
    let listed = m.list_at("tool_calls"@)->Some_0;
    assert(listed.len() == 1);
    assert(listed[0].text_at("id"@) == Some(a));
    let ids = listed.map_values(|c: JsonView| c.text_at("id"@));
    assert(ids =~= seq![Some(a)]);
    reveal_with_fuel(present, 2);
    assert(ids.drop_last() =~= Seq::empty());
    assert(call_ids(m) =~= seq![a]);
}

/// A message that makes calls carries no result.
pub(super) proof fn lemma_callers_carry_none(m: JsonView)
    requires
        call_ids(m).len() > 0,
    ensures
        result_id(m) is None,
{
    reveal_strlit("assistant");
    reveal_strlit("tool");
    assert("assistant"@.len() != "tool"@.len());
}

proof fn lemma_calls_push(ms: Seq<JsonView>, m: JsonView, id: Seq<char>)
    ensures
        calls(ms.push(m), id) <==> calls(ms, id) || call_ids(m).contains(id),
        answers(ms.push(m), id) <==> answers(ms, id) || result_id(m) == Some(id),
{
    let now = ms.push(m);
    if calls(ms, id) {
        let i = choose|i: int| 0 <= i < ms.len() && call_ids(#[trigger] ms[i]).contains(id);
        assert(now[i] == ms[i]);
    }
    if answers(ms, id) {
        let i = choose|i: int| 0 <= i < ms.len() && result_id(#[trigger] ms[i]) == Some(id);
        assert(now[i] == ms[i]);
    }
    assert(now[ms.len() as int] == m);
    if calls(now, id) {
        let i = choose|i: int| 0 <= i < now.len() && call_ids(#[trigger] now[i]).contains(id);
        if i < ms.len() {
            assert(now[i] == ms[i]);
        }
    }
    if answers(now, id) {
        let i = choose|i: int| 0 <= i < now.len() && result_id(#[trigger] now[i]) == Some(id);
        if i < ms.len() {
            assert(now[i] == ms[i]);
        }
    }
}

/// What holds of the history at every point: its calls are those of its messages, results belong
/// to calls, and a call without a result is one that needs it.
pub(super) open spec fn scan_inv(s: Scan) -> bool {
    &&& s.needing.no_duplicates()
    &&& forall|id: Seq<char>| #[trigger] calls(s.messages, id) <==> s.calls.contains(id)
    &&& forall|id: Seq<char>| #[trigger] answers(s.messages, id) ==> s.calls.contains(id)
    &&& forall|id: Seq<char>| #[trigger] s.needing.contains(id) ==> s.calls.contains(id)
    &&& forall|id: Seq<char>| #[trigger]
        s.calls.contains(id) ==> s.needing.contains(id) || answers(s.messages, id)
}

pub(super) proof fn lemma_scan_item(s: Scan, item: ResponseItem)
    requires
        scan_inv(s),
    ensures
        scan_item(s, item) matches Ok(t) ==> scan_inv(t),
{
    if let Ok(t) = scan_item(s, item) {
        match item {
            ResponseItem::FunctionCall { name, namespace, arguments, call_id, .. } => {
                let m = call_json(call_id@, name@, arguments@);
                lemma_shapes(call_id@, name@, arguments@);
                assert(seq![call_id@][0] == call_id@);
                assert forall|id: Seq<char>| true implies ({
                    &&& calls(t.messages, id) <==> calls(s.messages, id) || id == call_id@
                    &&& answers(t.messages, id) <==> answers(s.messages, id)
                    &&& t.calls.contains(id) <==> s.calls.contains(id) || id == call_id@
                    &&& t.needing.contains(id) <==> s.needing.contains(id) || id == call_id@
                }) by {
                    lemma_calls_push(s.messages, m, id);
                    lemma_push_contains(s.calls, call_id@, id);
                    lemma_push_contains(s.needing, call_id@, id);
                    assert(seq![call_id@].contains(id) <==> id == call_id@);
                }
                assert(t.needing.no_duplicates());
            },
            ResponseItem::FunctionCallOutput { call_id, output, .. } => {
                if s.calls.contains(call_id@) {
                    let m = t.messages.last();
                    assert(t.messages.drop_last() =~= s.messages);
                    let text = output_text(output)->Ok_0;
                    lemma_shapes(call_id@, text, text);
                    lemma_others_contains(s.needing, call_id@);
                    lemma_others_distinct(s.needing, call_id@);
                    assert forall|id: Seq<char>| true implies ({
                        &&& calls(t.messages, id) <==> calls(s.messages, id)
                        &&& answers(t.messages, id) <==> answers(s.messages, id) || id == call_id@
                        &&& t.needing.contains(id) <==> s.needing.contains(id) && id != call_id@
                    }) by {
                        lemma_calls_push(s.messages, m, id);
                    }
                }
            },
            _ => {
                if t.messages.len() > s.messages.len() {
                    let m = t.messages.last();
                    match item {
                        ResponseItem::Message { role, content, .. } => {
                            let text = message_text(content@)->Ok_0;
                            lemma_shapes(role@, text, text);
                        },
                        ResponseItem::AgentMessage { content, .. } => {
                            let text = agent_text(content@)->Ok_0;
                            lemma_shapes("assistant"@, text, text);
                        },
                        _ => {},
                    }
                    assert forall|id: Seq<char>| true implies ({
                        &&& calls(t.messages, id) <==> calls(s.messages, id)
                        &&& answers(t.messages, id) <==> answers(s.messages, id)
                    }) by {
                        lemma_calls_push(s.messages, m, id);
                    }
                }
            },
        }
    }
}

pub(super) proof fn lemma_scan_items(s: Scan, items: Seq<ResponseItem>)
    requires
        scan_inv(s),
    ensures
        scan_items(s, items) matches Ok(t) ==> scan_inv(t),
    decreases items.len(),
{
    if items.len() > 0 {
        lemma_scan_item(s, items[0]);
        if let Ok(next) = scan_item(s, items[0]) {
            lemma_scan_items(next, items.skip(1));
        }
    }
}

pub(super) proof fn lemma_scan_start(instructions: Seq<char>)
    ensures
        scan_inv(scan_start(instructions)),
{
    let s = scan_start(instructions);
    lemma_shapes("system"@, instructions, instructions);
    assert forall|id: Seq<char>| true implies !calls(s.messages, id) && !answers(
        s.messages,
        id,
    ) by {}
}

/// The messages with a result for each call that needs one, the missing ones in a given order.
pub(super) open spec fn filled(s: Scan, order: Seq<Seq<char>>) -> Seq<JsonView> {
    s.messages + placeholders(order)
}

pub(super) proof fn lemma_filled(s: Scan, order: Seq<Seq<char>>)
    requires
        scan_inv(s),
        order.no_duplicates(),
        order.to_set() == s.needing.to_set(),
    ensures
        no_orphan_results(filled(s, order)),
        forall|id: Seq<char>| #[trigger]
            calls(filled(s, order), id) ==> answers(filled(s, order), id),
        bystanders(filled(s, order)) == bystanders(s.messages),
        forall|id: Seq<char>| #[trigger]
            results_for(filled(s, order), id) == results_for(s.messages, id) + (
            if s.needing.contains(id) {
                placeholders(seq![id])
            } else {
                Seq::empty()
            }),
{
    let ms = s.messages;
    let ps = placeholders(order);
    let all = filled(s, order);
    lemma_bystanders_add(ms, ps);
    lemma_placeholder_filters(order);
    assert(bystanders(ms) + Seq::<JsonView>::empty() =~= bystanders(ms));
    assert forall|id: Seq<char>| #[trigger]
        results_for(all, id) == results_for(ms, id) + (if s.needing.contains(id) {
            placeholders(seq![id])
        } else {
            Seq::empty()
        }) by {
        lemma_results_add(ms, ps, id);
        lemma_to_set(order, id);
        lemma_to_set(s.needing, id);
        assert(results_for(ps, id) == if order.contains(id) {
            placeholders(seq![id])
        } else {
            Seq::empty()
        });
    }
    assert forall|id: Seq<char>| #[trigger] answers(all, id) implies calls(bystanders(all), id) by {
        let i = choose|i: int| 0 <= i < all.len() && result_id(#[trigger] all[i]) == Some(id);
        if i < ms.len() {
            assert(result_id(ms[i]) == Some(id));
            assert(answers(ms, id));
        } else {
            let k = i - ms.len();
            assert(all[i] == ps[k]);
            lemma_shapes(order[k], "[No output available yet]"@, id);
            assert(order.to_set().contains(order[k]));
            assert(s.needing.to_set().contains(id));
            assert(s.needing.contains(id));
        }
        assert(s.calls.contains(id));
        assert(calls(ms, id));
        lemma_callers_stay(ms, id);
    }
    assert forall|id: Seq<char>| #[trigger] calls(all, id) implies answers(all, id) by {
        let i = choose|i: int| 0 <= i < all.len() && call_ids(#[trigger] all[i]).contains(id);
        if i < ms.len() {
            assert(call_ids(ms[i]).contains(id));
            assert(calls(ms, id));
        } else {
            let k = i - ms.len();
            assert(all[i] == ps[k]);
            lemma_shapes(order[k], "[No output available yet]"@, id);
        }
        assert(s.calls.contains(id));
        if s.needing.contains(id) {
            assert(s.needing.to_set().contains(id));
            assert(order.to_set().contains(id));
            let k = choose|k: int| 0 <= k < order.len() && order[k] == id;
            lemma_shapes(order[k], "[No output available yet]"@, id);
            assert(all[ms.len() + k] == ps[k]);
        } else {
            let k = choose|k: int| 0 <= k < ms.len() && result_id(#[trigger] ms[k]) == Some(id);
            assert(all[k] == ms[k]);
        }
    }
}

proof fn lemma_to_set(s: Seq<Seq<char>>, x: Seq<char>)
    ensures
        s.to_set().contains(x) <==> s.contains(x),
{
}

pub(super) proof fn lemma_callers_stay(ms: Seq<JsonView>, id: Seq<char>)
    requires
        calls(ms, id),
    ensures
        calls(bystanders(ms), id),
{
    let i = choose|i: int| 0 <= i < ms.len() && call_ids(#[trigger] ms[i]).contains(id);
    lemma_callers_carry_none(ms[i]);
    let p = |m: JsonView| result_id(m) is None;
    ms.lemma_filter_contains(p, i);
    let k = choose|k: int| 0 <= k < ms.filter(p).len() && ms.filter(p)[k] == ms[i];
    assert(call_ids(bystanders(ms)[k]).contains(id));
}

proof fn lemma_placeholder_filters(order: Seq<Seq<char>>)
    requires
        order.no_duplicates(),
    ensures
        bystanders(placeholders(order)) == Seq::<JsonView>::empty(),
        forall|id: Seq<char>| #[trigger]
            results_for(placeholders(order), id) == if order.contains(id) {
                placeholders(seq![id])
            } else {
                Seq::empty()
            },
    decreases order.len(),
{
    reveal(Seq::filter);
    let ps = placeholders(order);
    if order.len() > 0 {
        let head = order.drop_last();
        let last = order.last();
        assert(head.no_duplicates());
        lemma_placeholder_filters(head);
        lemma_shapes(last, "[No output available yet]"@, last);
        assert(ps.drop_last() =~= placeholders(head));
        assert(!head.contains(last)) by {
            if head.contains(last) {
                let i = choose|i: int| 0 <= i < head.len() && head[i] == last;
                assert(order[i] == order[order.len() - 1]);
            }
        }
        assert(head.push(last) =~= order);
        assert forall|id: Seq<char>| #[trigger]
            results_for(ps, id) == if order.contains(id) {
                placeholders(seq![id])
            } else {
                Seq::empty()
            } by {
            lemma_push_contains(head, last, id);
            assert(results_for(placeholders(head), id) == if head.contains(id) {
                placeholders(seq![id])
            } else {
                Seq::empty()
            });
            if id == last {
                assert(results_for(ps, id) =~= placeholders(seq![id]));
            }
        }
    }
}

/// The messages of a request that is not refused are in the order that the upstream asks for: each
/// result follows the message with its call, with nothing between the two but results of that same
/// message, and each call has a result, if only one that stands in for it.
pub proof fn law_chat_calls_and_results_pair_up(instructions: Seq<char>, input: Seq<ResponseItem>)
    ensures
        chat_messages(instructions, input) matches Ok(ms) ==> results_follow_calls(ms) && (forall|
            id: Seq<char>,
        | #[trigger]
            calls(ms, id) <==> answers(ms, id)),
{
    lemma_scan_start(instructions);
    lemma_scan_items(scan_start(instructions), input);
    if let Ok(s) = scan_items(scan_start(instructions), input) {
        let all = filled(s, s.needing);
        let ms = reordered(all);
        lemma_filled(s, s.needing);
        law_results_follow_their_calls(all);
        law_reordering_keeps_all(all);
        assert forall|id: Seq<char>| #[trigger] calls(ms, id) implies answers(ms, id) by {
            lemma_callers_stay(ms, id);
            lemma_bystanders_within(all, id);
            assert(calls(all, id));
            lemma_answers_by_results(all, id);
            assert(results_for(ms, id) == results_for(all, id));
            lemma_answers_by_results(ms, id);
        }
        assert forall|id: Seq<char>| answers(ms, id) implies #[trigger] calls(ms, id) by {
            lemma_answers_by_results(ms, id);
            assert(results_for(ms, id) == results_for(all, id));
            lemma_answers_by_results(all, id);
            assert(calls(bystanders(all), id));
            lemma_bystanders_within(ms, id);
        }
    }
}

pub(super) proof fn lemma_bystanders_within(ms: Seq<JsonView>, id: Seq<char>)
    requires
        calls(bystanders(ms), id),
    ensures
        calls(ms, id),
{
    let p = |m: JsonView| result_id(m) is None;
    let k = choose|k: int|
        0 <= k < bystanders(ms).len() && call_ids(#[trigger] bystanders(ms)[k]).contains(id);
    assert(ms.filter(p).contains(ms.filter(p)[k]));
    ms.lemma_filter_contains_rev(p, ms.filter(p)[k]);
    let i = choose|i: int| 0 <= i < ms.len() && ms[i] == ms.filter(p)[k];
    assert(call_ids(ms[i]).contains(id));
}

proof fn lemma_answers_by_results(ms: Seq<JsonView>, id: Seq<char>)
    ensures
        answers(ms, id) <==> results_for(ms, id).len() > 0,
{
    lemma_result_ids(ms, id);
    if answers(ms, id) {
        let i = choose|i: int| 0 <= i < ms.len() && result_id(#[trigger] ms[i]) == Some(id);
        let p = |m: JsonView| result_id(m) == Some(id);
        ms.lemma_filter_contains(p, i);
    }
}

/// In which order the missing results are filled in makes no difference to the request.
pub proof fn law_order_of_placeholders_is_immaterial(
    instructions: Seq<char>,
    input: Seq<ResponseItem>,
    order: Seq<Seq<char>>,
)
    requires
        scan_items(scan_start(instructions), input) is Ok,
        order.no_duplicates(),
        order.to_set() == (scan_items(scan_start(instructions), input)->Ok_0).needing.to_set(),
    ensures
        chat_messages(instructions, input) == Ok::<Seq<JsonView>, Seq<char>>(
            reordered(
                (scan_items(scan_start(instructions), input)->Ok_0).messages + placeholders(order),
            ),
        ),
{
    let s = scan_items(scan_start(instructions), input)->Ok_0;
    lemma_scan_start(instructions);
    lemma_scan_items(scan_start(instructions), input);
    lemma_filled(s, s.needing);
    lemma_filled(s, order);
    assert forall|id: Seq<char>| #[trigger]
        results_for(filled(s, s.needing), id) == results_for(filled(s, order), id) by {}
    law_mix_is_immaterial(filled(s, s.needing), filled(s, order));
}

// ---- what leaves no trace ----

/// A history is scanned part by part.
pub proof fn lemma_scan_in_parts(s: Scan, a: Seq<ResponseItem>, b: Seq<ResponseItem>)
    ensures
        scan_items(s, a + b) == match scan_items(s, a) {
            Ok(t) => scan_items(t, b),
            Err(reason) => Err(reason),
        },
    decreases a.len(),
{
    if a.len() == 0 {
        assert(a + b =~= b);
    } else {
        assert((a + b).skip(1) =~= a.skip(1) + b);
        if let Ok(next) = scan_item(s, a[0]) {
            lemma_scan_in_parts(next, a.skip(1), b);
        }
    }
}

/// Whether an item only concerns the client, or is a result whose call does not come before it.
pub open spec fn leaves_no_trace(before: Seq<ResponseItem>, item: ResponseItem) -> bool {
    match item {
        ResponseItem::Reasoning { .. } => true,
        ResponseItem::CompactionTrigger { .. } => true,
        ResponseItem::FunctionCallOutput { call_id, .. } => forall|i: int|
            0 <= i < before.len() ==> !makes_call(#[trigger] before[i], call_id@),
        _ => false,
    }
}

/// Whether an item is this call.
pub open spec fn makes_call(item: ResponseItem, id: Seq<char>) -> bool {
    match item {
        ResponseItem::FunctionCall { call_id, .. } => call_id@ == id,
        _ => false,
    }
}

proof fn lemma_calls_come_from_items(s: Scan, items: Seq<ResponseItem>, id: Seq<char>)
    requires
        !s.calls.contains(id),
        forall|i: int| 0 <= i < items.len() ==> !makes_call(#[trigger] items[i], id),
    ensures
        scan_items(s, items) matches Ok(t) ==> !t.calls.contains(id),
    decreases items.len(),
{
    if items.len() > 0 {
        if let Ok(next) = scan_item(s, items[0]) {
            assert(!makes_call(items[0], id));
            match items[0] {
                ResponseItem::FunctionCall { call_id, .. } => {
                    lemma_push_contains(s.calls, call_id@, id);
                },
                _ => {},
            }
            assert forall|i: int| 0 <= i < items.skip(1).len() implies !makes_call(
                #[trigger] items.skip(1)[i],
                id,
            ) by {
                assert(items.skip(1)[i] == items[i + 1]);
            }
            lemma_calls_come_from_items(next, items.skip(1), id);
        }
    }
}

/// An item that only concerns the client, and a result whose call does not come before it, leave
/// no trace in the request.
pub proof fn law_dropped_items_leave_no_trace(
    instructions: Seq<char>,
    before: Seq<ResponseItem>,
    item: ResponseItem,
    behind: Seq<ResponseItem>,
)
    requires
        leaves_no_trace(before, item),
    ensures
        chat_messages(instructions, before + seq![item] + behind) == chat_messages(
            instructions,
            before + behind,
        ),
{
    let s = scan_start(instructions);
    lemma_scan_in_parts(s, before + seq![item], behind);
    lemma_scan_in_parts(s, before, seq![item]);
    lemma_scan_in_parts(s, before, behind);
    if let Ok(t) = scan_items(s, before) {
        if let ResponseItem::FunctionCallOutput { call_id, .. } = item {
            lemma_calls_come_from_items(s, before, call_id@);
        }
        assert(seq![item].skip(1) =~= Seq::<ResponseItem>::empty());
        reveal_with_fuel(scan_items, 2);
        assert(scan_items(t, seq![item]) == Ok::<Scan, Seq<char>>(t));
    }
}

} // verus!
