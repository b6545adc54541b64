//! The order of tool results in a Chat Completions request: each stands right behind the assistant
//! message with the call that produced it.

use crate::json::{self, held, held_all, JsonView};
use crate::text::{same, texts};
use serde_json::Value;
use vstd::prelude::*;
use vstd::string::*;

verus! {

// ---- model ----

/// The identifier of the call whose result a message carries. A message of another role, or one
/// that names no call, carries none.
pub open spec fn result_id(m: JsonView) -> Option<Seq<char>> {
    if m.text_at("role"@) == Some("tool"@) {
        m.text_at("tool_call_id"@)
    } else {
        None
    }
}

/// The messages that carry no result.
pub open spec fn bystanders(msgs: Seq<JsonView>) -> Seq<JsonView> {
    msgs.filter(|m: JsonView| result_id(m) is None)
}

/// The messages that carry a result of the call `id`.
pub open spec fn results_for(msgs: Seq<JsonView>, id: Seq<char>) -> Seq<JsonView> {
    msgs.filter(|m: JsonView| result_id(m) == Some(id))
}

/// The texts among some optional ones.
pub open spec fn present(ids: Seq<Option<Seq<char>>>) -> Seq<Seq<char>>
    decreases ids.len(),
{
    if ids.len() == 0 {
        Seq::empty()
    } else {
        match ids.last() {
            Some(id) => present(ids.drop_last()).push(id),
            None => present(ids.drop_last()),
        }
    }
}

/// The identifiers of the calls whose results the messages carry.
pub open spec fn result_ids(msgs: Seq<JsonView>) -> Seq<Seq<char>> {
    present(msgs.map_values(|m: JsonView| result_id(m)))
}

/// The identifiers of the calls that a message of the assistant makes.
pub open spec fn call_ids(m: JsonView) -> Seq<Seq<char>> {
    if m.text_at("role"@) == Some("assistant"@) {
        match m.list_at("tool_calls"@) {
            Some(calls) => present(calls.map_values(|c: JsonView| c.text_at("id"@))),
            None => Seq::empty(),
        }
    } else {
        Seq::empty()
    }
}

/// What is laid out so far, and the calls whose results are in it.
pub struct Laid {
    pub out: Seq<JsonView>,
    pub placed: Set<Seq<char>>,
}

/// The layout after the results of a call, which are placed once.
pub open spec fn placed_one(all: Seq<JsonView>, l: Laid, id: Seq<char>) -> Laid {
    if l.placed.contains(id) {
        l
    } else {
        Laid { out: l.out + results_for(all, id), placed: l.placed.insert(id) }
    }
}

/// The layout after the results of some calls, in that order.
pub open spec fn placed_all(all: Seq<JsonView>, l: Laid, ids: Seq<Seq<char>>) -> Laid
    decreases ids.len(),
{
    if ids.len() == 0 {
        l
    } else {
        placed_one(all, placed_all(all, l, ids.drop_last()), ids.last())
    }
}

/// The layout of some messages that carry no result, each followed by the results of its calls.
pub open spec fn laid_out(all: Seq<JsonView>, rest: Seq<JsonView>) -> Laid
    decreases rest.len(),
{
    if rest.len() == 0 {
        Laid { out: Seq::empty(), placed: Set::empty() }
    } else {
        let l = laid_out(all, rest.drop_last());
        placed_all(all, Laid { out: l.out.push(rest.last()), placed: l.placed }, call_ids(rest.last()))
    }
}

/// The messages with each result right behind its call. A result whose call is not there comes at
/// the end, together with the others of the same call.
pub open spec fn reordered(msgs: Seq<JsonView>) -> Seq<JsonView> {
    placed_all(msgs, laid_out(msgs, bystanders(msgs)), result_ids(msgs)).out
}

// ---- groups of results ----

/// Whether the groups hold the results of every call that is not placed yet, each call once.
spec fn grouped(
    groups: Seq<(String, Vec<Value>)>,
    all: Seq<JsonView>,
    placed: Set<Seq<char>>,
) -> bool {
    &&& forall|i: int|
        0 <= i < groups.len() ==> !placed.contains((#[trigger] groups[i]).0@) && held_all(
            groups[i].1@,
        ) == results_for(all, groups[i].0@)
    &&& forall|i: int, j: int|
        0 <= i < j < groups.len() ==> (#[trigger] groups[i]).0@ != (#[trigger] groups[j]).0@
    &&& forall|id: Seq<char>|
        !placed.contains(id) && (#[trigger] results_for(all, id)).len() > 0 ==> exists|i: int|
            0 <= i < groups.len() && (#[trigger] groups[i]).0@ == id
}

/// The place of the group of a call.
fn find_group(groups: &Vec<(String, Vec<Value>)>, id: &str) -> (r: Option<usize>)
    ensures
        match r {
            Some(i) => i < groups@.len() && groups@[i as int].0@ == id@,
            None => forall|i: int| 0 <= i < groups@.len() ==> (#[trigger] groups@[i]).0@ != id@,
        },
{
    let mut i: usize = 0;
    while i < groups.len()
        invariant
            i <= groups@.len(),
            forall|j: int| 0 <= j < i ==> (#[trigger] groups@[j]).0@ != id@,
        decreases groups.len() - i,
    {
        if same(groups[i].0.as_str(), id) {
            return Some(i);
        }
        i += 1;
    }
    None
}

/// Adds a result to the group of its call.
fn add_result(
    groups: &mut Vec<(String, Vec<Value>)>,
    id: &str,
    msg: Value,
    Ghost(seen): Ghost<Seq<JsonView>>,
)
    requires
        grouped(old(groups)@, seen, Set::empty()),
        result_id(held(msg)) == Some(id@),
    ensures
        grouped(final(groups)@, seen.push(held(msg)), Set::empty()),
{
    let ghost before = groups@;
    let ghost now = seen.push(held(msg));
    proof {
        reveal(Seq::filter);
        assert(now.drop_last() =~= seen);
        assert forall|x: Seq<char>| x != id@ implies #[trigger] results_for(now, x) == results_for(
            seen,
            x,
        ) by {}
        assert(results_for(now, id@) == results_for(seen, id@).push(held(msg)));
    }
    match find_group(groups, id) {
        Some(i) => {
            let mut g: (String, Vec<Value>) = groups.remove(i);
            let ghost was = g.1@;
            g.1.push(msg);
            assert(held_all(g.1@) =~= held_all(was).push(held(msg)));
            groups.insert(i, g);
            assert forall|x: Seq<char>| (#[trigger] results_for(now, x)).len() > 0 implies exists|
                k: int,
            |
                0 <= k < groups@.len() && (#[trigger] groups@[k]).0@ == x by {
                if x == id@ {
                    assert(groups@[i as int].0@ == x);
                } else {
                    assert(results_for(seen, x).len() > 0);
                    let k = choose|k: int|
                        0 <= k < before.len() && (#[trigger] before[k]).0@ == x;
                    assert(groups@[k].0@ == x);
                }
            }
        },
        None => {
            let one: Vec<Value> = vec![msg];
            proof {
                if results_for(seen, id@).len() > 0 {
                    let k = choose|k: int|
                        0 <= k < before.len() && (#[trigger] before[k]).0@ == id@;
                    assert(false);
                }
                assert(results_for(seen, id@) =~= Seq::empty());
                assert(held_all(one@) =~= results_for(now, id@));
            }
            groups.push((id.to_owned(), one));
            assert forall|x: Seq<char>| (#[trigger] results_for(now, x)).len() > 0 implies exists|
                k: int,
            |
                0 <= k < groups@.len() && (#[trigger] groups@[k]).0@ == x by {
                if x == id@ {
                    assert(groups@[before.len() as int].0@ == x);
                } else {
                    assert(results_for(seen, x).len() > 0);
                    let k = choose|k: int|
                        0 <= k < before.len() && (#[trigger] before[k]).0@ == x;
                    assert(groups@[k].0@ == x);
                }
            }
        },
    }
}

/// Moves the results of a call behind what is laid out so far.
fn place_results(
    groups: &mut Vec<(String, Vec<Value>)>,
    out: &mut Vec<Value>,
    id: &str,
    Ghost(all): Ghost<Seq<JsonView>>,
    Ghost(placed): Ghost<Set<Seq<char>>>,
)
    requires
        grouped(old(groups)@, all, placed),
    ensures
        ({
            let l = placed_one(all, Laid { out: held_all(old(out)@), placed }, id@);
            held_all(final(out)@) == l.out && grouped(final(groups)@, all, l.placed)
        }),
{
    let ghost before = groups@;
    let ghost was = out@;
    match find_group(groups, id) {
        Some(i) => {
            let g: (String, Vec<Value>) = groups.remove(i);
            let mut results: Vec<Value> = g.1;
            let ghost moved = results@;
            out.append(&mut results);
            proof {
                assert(!placed.contains(before[i as int].0@));
                assert(held_all(out@) =~= held_all(was) + held_all(moved));
                let now = placed.insert(id@);
                assert forall|x: Seq<char>|
                    !now.contains(x) && (#[trigger] results_for(all, x)).len()
                        > 0 implies exists|k: int|
                    0 <= k < groups@.len() && (#[trigger] groups@[k]).0@ == x by {
                    let k = choose|k: int|
                        0 <= k < before.len() && (#[trigger] before[k]).0@ == x;
                    if k < i {
                        assert(groups@[k].0@ == x);
                    } else {
                        assert(k != i);
                        assert(groups@[k - 1].0@ == x);
                    }
                }
            }
        },
        None => {
            proof {
                if !placed.contains(id@) {
                    if results_for(all, id@).len() > 0 {
                        let k = choose|k: int|
                            0 <= k < before.len() && (#[trigger] before[k]).0@ == id@;
                        assert(false);
                    }
                    assert(results_for(all, id@) =~= Seq::empty());
                    assert(held_all(out@) + results_for(all, id@) =~= held_all(out@));
                }
            }
        },
    }
}

/// Puts the results of the calls of a message behind what is laid out so far.
fn place_calls(
    groups: &mut Vec<(String, Vec<Value>)>,
    out: &mut Vec<Value>,
    msg: &Value,
    Ghost(all): Ghost<Seq<JsonView>>,
    Ghost(placed): Ghost<Set<Seq<char>>>,
)
    requires
        grouped(old(groups)@, all, placed),
    ensures
        ({
            let l = placed_all(
                all,
                Laid { out: held_all(old(out)@), placed },
                call_ids(held(*msg)),
            );
            held_all(final(out)@) == l.out && grouped(final(groups)@, all, l.placed)
        }),
{
    let ghost start = Laid { out: held_all(out@), placed };
    let Some(role) = json::text_at(msg, "role") else {
        return;
    };
    if !same(role, "assistant") {
        return;
    }
    let Some(calls) = json::list_at(msg, "tool_calls") else {
        return;
    };
    let ghost ids = held_all(calls@).map_values(|c: JsonView| c.text_at("id"@));
    let mut i: usize = 0;
    assert(ids.take(0) =~= Seq::empty());
    while i < calls.len()
        invariant
            i <= calls@.len(),
            ids == held_all(calls@).map_values(|c: JsonView| c.text_at("id"@)),
            held_all(out@) == placed_all(all, start, present(ids.take(i as int))).out,
            grouped(groups@, all, placed_all(all, start, present(ids.take(i as int))).placed),
        decreases calls.len() - i,
    {
        let ghost done = present(ids.take(i as int));
        proof {
            assert(ids.take(i + 1).drop_last() =~= ids.take(i as int));
            assert(ids.take(i + 1).last() == held(calls@[i as int]).text_at("id"@));
        }
        if let Some(id) = json::text_at(&calls[i], "id") {
            assert(done.push(id@).drop_last() =~= done);
            place_results(
                groups,
                out,
                id,
                Ghost(all),
                Ghost(placed_all(all, start, done).placed),
            );
        }
        i += 1;
    }
    assert(ids.take(ids.len() as int) =~= ids);
}

/// Puts each result right behind the message with its call. Results of the same call stay together
/// and in order, and so do the other messages. Results whose call is not there come at the end.
pub fn reorder_tool_messages(messages: Vec<Value>) -> (r: Vec<Value>)
    ensures
        held_all(r@) == reordered(held_all(messages@)),
{
    let ghost all = held_all(messages@);
    let mut groups: Vec<(String, Vec<Value>)> = Vec::new();
    let mut ids: Vec<String> = Vec::new();
    let mut rest: Vec<Value> = Vec::new();
    proof {
        reveal(Seq::filter);
        assert(all.take(0) =~= Seq::empty());
        assert(held_all(rest@) =~= bystanders(all.take(0)));
        assert(texts(ids@) =~= result_ids(all.take(0)));
        assert forall|id: Seq<char>| (#[trigger] results_for(all.take(0), id)).len() == 0 by {}
    }
    for msg in it: messages
        invariant
            it.seq() == messages@,
            all == held_all(messages@),
            held_all(rest@) == bystanders(all.take(it.index())),
            texts(ids@) == result_ids(all.take(it.index())),
            grouped(groups@, all.take(it.index()), Set::empty()),
    {
        let ghost n = it.index();
        let ghost seen = all.take(n);
        let ghost now = all.take(n + 1);
        proof {
            reveal(Seq::filter);
            assert(now =~= seen.push(held(msg)));
            assert(now.drop_last() =~= seen);
            let before = seen.map_values(|m: JsonView| result_id(m));
            let after = now.map_values(|m: JsonView| result_id(m));
            assert(after.drop_last() =~= before);
            assert(after.last() == result_id(held(msg)));
        }
        let is_result: bool = match json::text_at(&msg, "role") {
            Some(role) => same(role, "tool"),
            None => false,
        };
        let id: Option<String> = if is_result {
            match json::text_at(&msg, "tool_call_id") {
                Some(id) => Some(id.to_owned()),
                None => None,
            }
        } else {
            None
        };
        match id {
            Some(id) => {
                add_result(&mut groups, id.as_str(), msg, Ghost(seen));
                let ghost before = ids@;
                ids.push(id);
                assert(texts(ids@) =~= texts(before).push(id@));
            },
            None => {
                assert forall|x: Seq<char>| #[trigger] results_for(now, x) == results_for(
                    seen,
                    x,
                ) by {}
                let ghost before = rest@;
                rest.push(msg);
                assert(held_all(rest@) =~= held_all(before).push(held(msg)));
            },
        }
    }
    proof {
        assert(all.take(all.len() as int) =~= all);
    }

    let ghost plain = held_all(rest@);
    let mut out: Vec<Value> = Vec::new();
    assert(plain.take(0) =~= Seq::empty());
    assert(held_all(out@) =~= Seq::empty());
    for msg in it: rest
        invariant
            it.seq() == rest@,
            plain == held_all(rest@),
            held_all(out@) == laid_out(all, plain.take(it.index())).out,
            grouped(groups@, all, laid_out(all, plain.take(it.index())).placed),
    {
        let ghost n = it.index();
        let ghost l = laid_out(all, plain.take(n));
        proof {
            assert(plain.take(n + 1).drop_last() =~= plain.take(n));
            assert(plain.take(n + 1).last() == held(msg));
        }
        let ghost before = out@;
        out.push(msg.clone());
        assert(held_all(out@) =~= held_all(before).push(held(msg)));
        place_calls(&mut groups, &mut out, &msg, Ghost(all), Ghost(l.placed));
    }
    assert(plain.take(plain.len() as int) =~= plain);

    let ghost middle = laid_out(all, plain);
    let ghost left = texts(ids@);
    let mut i: usize = 0;
    assert(left.take(0) =~= Seq::empty());
    while i < ids.len()
        invariant
            i <= ids@.len(),
            left == texts(ids@),
            held_all(out@) == placed_all(all, middle, left.take(i as int)).out,
            grouped(groups@, all, placed_all(all, middle, left.take(i as int)).placed),
        decreases ids.len() - i,
    {
        proof {
            assert(left.take(i + 1).drop_last() =~= left.take(i as int));
            assert(left.take(i + 1).last() == ids@[i as int]@);
        }
        place_results(
            &mut groups,
            &mut out,
            ids[i].as_str(),
            Ghost(all),
            Ghost(placed_all(all, middle, left.take(i as int)).placed),
        );
        i += 1;
    }
    assert(left.take(left.len() as int) =~= left);
    out
}

} // verus!
