//! Walking a map in the order of its integer keys.

use std::collections::BTreeMap;
use vstd::prelude::*;

verus! {

/// Whether each key is less than every later one.
pub open spec fn increasing(ks: Seq<i64>) -> bool {
    forall|i: int, j: int| 0 <= i < j < ks.len() ==> ks[i] < ks[j]
}

/// Whether `ks` lists the keys of `m` in increasing order.
pub open spec fn lists_keys<V>(ks: Seq<i64>, m: Map<i64, V>) -> bool {
    increasing(ks) && ks.to_set() == m.dom()
}

/// The keys of `m` in increasing order.
pub open spec fn keys_in_order<V>(m: Map<i64, V>) -> Seq<i64> {
    choose|ks: Seq<i64>| lists_keys(ks, m)
}

/// The values of `m` in increasing order of their keys.
pub open spec fn values_in_order<V>(m: Map<i64, V>) -> Seq<V> {
    keys_in_order(m).map_values(|k: i64| m[k])
}

/// Two increasing sequences with the same elements are the same sequence.
pub proof fn lemma_increasing_unique(a: Seq<i64>, b: Seq<i64>)
    requires
        increasing(a),
        increasing(b),
        a.to_set() == b.to_set(),
    ensures
        a == b,
    decreases a.len(),
{
    if a.len() == 0 {
        assert(b.len() == 0) by {
            if b.len() > 0 {
                assert(b.to_set().contains(b[0]));
            }
        }
        assert(a =~= b);
    } else {
        assert(a.to_set().contains(a.last()));
        assert(b.contains(a.last()));
        assert(b.to_set().contains(b.last()));
        assert(a.contains(b.last()));
        let i = choose|i: int| 0 <= i < a.len() && a[i] == b.last();
        let j = choose|j: int| 0 <= j < b.len() && b[j] == a.last();
        assert(a.last() == b.last());
        let x = a.drop_last();
        let y = b.drop_last();
        assert(x.to_set() =~= y.to_set()) by {
            assert forall|k: i64| x.to_set().contains(k) implies y.to_set().contains(k) by {
                let p = choose|p: int| 0 <= p < x.len() && x[p] == k;
                assert(a[p] == k);
                assert(a.to_set().contains(k));
                assert(b.contains(k));
                let q = choose|q: int| 0 <= q < b.len() && b[q] == k;
                assert(y[q] == k);
            }
            assert forall|k: i64| y.to_set().contains(k) implies x.to_set().contains(k) by {
                let q = choose|q: int| 0 <= q < y.len() && y[q] == k;
                assert(b[q] == k);
                assert(b.to_set().contains(k));
                assert(a.contains(k));
                let p = choose|p: int| 0 <= p < a.len() && a[p] == k;
                assert(x[p] == k);
            }
        }
        lemma_increasing_unique(x, y);
        assert(a =~= x.push(a.last()));
        assert(b =~= y.push(b.last()));
    }
}

/// A list of the keys in increasing order is the list.
pub proof fn lemma_keys_in_order<V>(ks: Seq<i64>, m: Map<i64, V>)
    requires
        lists_keys(ks, m),
    ensures
        keys_in_order(m) == ks,
{
    lemma_increasing_unique(keys_in_order(m), ks);
}

/// The keys of a map in increasing order.
pub fn ordered_keys<V>(m: &BTreeMap<i64, V>) -> (r: Vec<i64>)
    ensures
        r@ == keys_in_order(m@),
        lists_keys(r@, m@),
{
    broadcast use vstd::std_specs::btree::group_btree_axioms;

    let mut out: Vec<i64> = Vec::new();
    for kv in it: m.iter()
        invariant
            out@.len() == it.index(),
            forall|i: int| 0 <= i < it.index() ==> out@[i] == *it.seq()[i].0,
    {
        out.push(*kv.0);
    }
    proof {
        let walk = vstd::std_specs::btree::spec_btree_map_iter(m);
        let s = vstd::std_specs::iter::IteratorSpec::remaining(&walk);
        let ks = s.map_values(|kv: (&i64, &V)| *kv.0);
        assert(vstd::laws_cmp::obeys_cmp::<i64>());
        assert(out@ =~= ks);
        assert(vstd::std_specs::btree::increasing_seq(ks));
        assert forall|i: int, j: int| 0 <= i < j < ks.len() implies ks[i] < ks[j] by {
            assert(vstd::std_specs::cmp::OrdSpec::cmp_spec(&ks[i], &ks[j]) is Less);
        }
        assert(ks.to_set() =~= m@.dom()) by {
            assert forall|k: i64| m@.dom().contains(k) implies ks.to_set().contains(k) by {
                assert(m@.contains_key(k));
                assert(s.contains((&k, &m@[k])));
                let j = choose|j: int| 0 <= j < s.len() && s[j] == (&k, &m@[k]);
                assert(ks[j] == k);
            }
            assert forall|k: i64| ks.to_set().contains(k) implies m@.dom().contains(k) by {
                let j = choose|j: int| 0 <= j < ks.len() && ks[j] == k;
                assert(m@.contains_key(*s[j].0));
            }
        }
        lemma_keys_in_order(ks, m@);
    }
    out
}

} // verus!
