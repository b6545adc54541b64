//! A table of values by text keys.

use crate::text::same;
use vstd::prelude::*;
use vstd::string::*;

verus! {

/// A table in which each key occurs once. The order of the entries is that of their first
/// insertion.
#[derive(Debug)]
pub struct Table<V> {
    entries: Vec<(String, V)>,
}

/// Whether some entry has this key.
spec fn has_key<V>(entries: Seq<(String, V)>, key: Seq<char>) -> bool {
    exists|i: int| 0 <= i < entries.len() && (#[trigger] entries[i]).0@ == key
}

/// The place of an entry with this key.
spec fn place_of<V>(entries: Seq<(String, V)>, key: Seq<char>) -> int {
    choose|i: int| 0 <= i < entries.len() && (#[trigger] entries[i]).0@ == key
}

/// Whether no key occurs twice.
spec fn distinct<V>(entries: Seq<(String, V)>) -> bool {
    forall|i: int, j: int|
        0 <= i < j < entries.len() ==> (#[trigger] entries[i]).0@ != (#[trigger] entries[j]).0@
}

/// The keys of the entries.
spec fn keys_of<V>(entries: Seq<(String, V)>) -> Seq<Seq<char>> {
    entries.map_values(|e: (String, V)| e.0@)
}

/// The map from keys to values that the entries make up.
spec fn map_of<V>(entries: Seq<(String, V)>) -> Map<Seq<char>, V> {
    keys_of(entries).to_set().mk_map(|k: Seq<char>| entries[place_of(entries, k)].1)
}

proof fn lemma_map_of<V>(entries: Seq<(String, V)>)
    requires
        distinct(entries),
    ensures
        forall|k: Seq<char>| #[trigger]
            map_of(entries).contains_key(k) <==> has_key(entries, k),
        forall|i: int|
            0 <= i < entries.len() ==> map_of(entries).contains_key((#[trigger] entries[i]).0@)
                && map_of(entries)[entries[i].0@] == entries[i].1,
{
    let m = map_of(entries);
    let ks = keys_of(entries);
    assert forall|k: Seq<char>| #[trigger] m.contains_key(k) <==> has_key(entries, k) by {
        if m.contains_key(k) {
            assert(ks.to_set().contains(k));
            let i = choose|i: int| 0 <= i < ks.len() && ks[i] == k;
            assert(entries[i].0@ == k);
        }
        if has_key(entries, k) {
            let i = place_of(entries, k);
            assert(ks[i] == k);
            assert(ks.to_set().contains(k));
        }
    }
    assert forall|i: int| 0 <= i < entries.len() implies m.contains_key((#[trigger] entries[i]).0@)
        && m[entries[i].0@] == entries[i].1 by {
        let k = entries[i].0@;
        assert(has_key(entries, k));
        let j = place_of(entries, k);
        assert(entries[j].0@ == k);
        assert(i == j);
    }
}

impl<V> View for Table<V> {
    type V = Map<Seq<char>, V>;

    closed spec fn view(&self) -> Map<Seq<char>, V> {
        map_of(self.entries@)
    }
}

impl<V> Table<V> {
    #[verifier::type_invariant]
    spec fn inv(self) -> bool {
        distinct(self.entries@)
    }

    /// A table without entries.
    pub fn new() -> (r: Table<V>)
        ensures
            r@ == Map::<Seq<char>, V>::empty(),
    {
        let r = Table { entries: Vec::new() };
        proof {
            lemma_map_of(r.entries@);
            assert(r@ =~= Map::<Seq<char>, V>::empty());
        }
        r
    }

    fn find(&self, key: &str) -> (r: Option<usize>)
        ensures
            match r {
                Some(i) => i < self.entries@.len() && self.entries@[i as int].0@ == key@,
                None => !has_key(self.entries@, key@),
            },
    {
        let mut i: usize = 0;
        while i < self.entries.len()
            invariant
                i <= self.entries@.len(),
                forall|j: int| 0 <= j < i ==> (#[trigger] self.entries@[j]).0@ != key@,
            decreases self.entries.len() - i,
        {
            if same(self.entries[i].0.as_str(), key) {
                return Some(i);
            }
            i += 1;
        }
        None
    }

    /// The value under a key.
    pub fn get(&self, key: &str) -> (r: Option<&V>)
        ensures
            match r {
                Some(v) => self@.contains_key(key@) && *v == self@[key@],
                None => !self@.contains_key(key@),
            },
    {
        proof {
            use_type_invariant(self);
            lemma_map_of(self.entries@);
        }
        match self.find(key) {
            Some(i) => Some(&self.entries[i].1),
            None => None,
        }
    }

    /// Whether the table has no entries.
    pub fn is_empty(&self) -> (r: bool)
        ensures
            r == (self@ == Map::<Seq<char>, V>::empty()),
    {
        proof {
            use_type_invariant(self);
            lemma_map_of(self.entries@);
            if self.entries@.len() == 0 {
                assert(self@ =~= Map::<Seq<char>, V>::empty());
            } else {
                assert(self@.contains_key(self.entries@[0].0@));
            }
        }
        self.entries.len() == 0
    }

    /// Puts a value under a key, in place of the one that was there.
    pub fn insert(&mut self, key: String, v: V)
        ensures
            final(self)@ == old(self)@.insert(key@, v),
    {
        proof {
            use_type_invariant(&*self);
            lemma_map_of(self.entries@);
        }
        let ghost before = self.entries@;
        let ghost k = key@;
        let at: Option<usize> = self.find(key.as_str());
        let mut entries: Vec<(String, V)> = Vec::new();
        std::mem::swap(&mut self.entries, &mut entries);
        match at {
            Some(i) => {
                entries.remove(i);
                entries.insert(i, (key, v));
                assert(entries@ =~= before.update(i as int, (key, v)));
            },
            None => {
                entries.push((key, v));
            },
        }
        proof {
            let after = entries@;
            let want = map_of(before).insert(k, v);
            let n: int = match at {
                Some(i) => i as int,
                None => before.len() as int,
            };
            assert(after[n] == (key, v));
            assert forall|i: int, j: int| 0 <= i < j < after.len() implies (#[trigger] after[i]).0@
                != (#[trigger] after[j]).0@ by {
                if i != n && j != n {
                    assert(before[i].0@ != before[j].0@);
                } else if at is None {
                    assert(before[i].0@ != k);
                } else if i == n {
                    assert(before[n].0@ != before[j].0@);
                } else {
                    assert(before[i].0@ != before[n].0@);
                }
            }
            lemma_map_of(after);
            assert forall|x: Seq<char>| #[trigger]
                map_of(after).contains_key(x) <==> want.contains_key(x) by {
                if map_of(after).contains_key(x) && x != k {
                    let i = place_of(after, x);
                    assert(before[i].0@ == x);
                    assert(has_key(before, x));
                }
                if want.contains_key(x) && x != k {
                    let i = place_of(before, x);
                    assert(after[i].0@ == x);
                    assert(has_key(after, x));
                }
                if x == k {
                    assert(after[n].0@ == x);
                    assert(has_key(after, x));
                }
            }
            assert forall|x: Seq<char>| map_of(after).contains_key(x) implies #[trigger] map_of(
                after,
            )[x] == want[x] by {
                let i = place_of(after, x);
                assert(after[i].0@ == x);
                if x == k {
                    assert(after[n].0@ == x);
                } else {
                    assert(before[i].0@ == x);
                }
            }
            assert(map_of(after) =~= want);
        }
        self.entries = entries;
    }
}

impl<V: Clone> Clone for Table<V> {
    fn clone(&self) -> (r: Table<V>)
        ensures
            r@.dom() == self@.dom(),
            forall|k: Seq<char>| #[trigger]
                self@.contains_key(k) ==> cloned(self@[k], r@[k]),
    {
        proof {
            use_type_invariant(self);
            lemma_map_of(self.entries@);
        }
        let mut entries: Vec<(String, V)> = Vec::new();
        let mut i: usize = 0;
        while i < self.entries.len()
            invariant
                i <= self.entries@.len(),
                entries@.len() == i,
                forall|j: int|
                    0 <= j < i ==> (#[trigger] entries@[j]).0@ == self.entries@[j].0@ && cloned(
                        self.entries@[j].1,
                        entries@[j].1,
                    ),
            decreases self.entries.len() - i,
        {
            let e: &(String, V) = &self.entries[i];
            entries.push((e.0.clone(), e.1.clone()));
            i += 1;
        }
        proof {
            let before = self.entries@;
            let after = entries@;
            assert forall|a: int, b: int| 0 <= a < b < after.len() implies (#[trigger] after[a]).0@
                != (#[trigger] after[b]).0@ by {
                assert(before[a].0@ != before[b].0@);
            }
            lemma_map_of(after);
            assert forall|k: Seq<char>| #[trigger]
                map_of(after).contains_key(k) <==> map_of(before).contains_key(k) by {
                if has_key(after, k) {
                    assert(before[place_of(after, k)].0@ == k);
                }
                if has_key(before, k) {
                    assert(after[place_of(before, k)].0@ == k);
                }
            }
            assert(map_of(after).dom() =~= map_of(before).dom());
            assert forall|k: Seq<char>| #[trigger] map_of(before).contains_key(k) implies cloned(
                map_of(before)[k],
                map_of(after)[k],
            ) by {
                let n = place_of(before, k);
                assert(before[n].0@ == k);
                assert(after[n].0@ == k);
            }
        }
        Table { entries }
    }
}

} // verus!
