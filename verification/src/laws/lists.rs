//! Facts on lists.

use crate::text::others;
use vstd::prelude::*;

verus! {

/// A list with one more element has that element and those from before.
pub proof fn lemma_push_contains<T>(s: Seq<T>, x: T, y: T)
    ensures
        s.push(x).contains(y) <==> s.contains(y) || x == y,
{
    if s.contains(y) {
        let i = choose|i: int| 0 <= i < s.len() && s[i] == y;
        assert(s.push(x)[i] == y);
    }
    assert(s.push(x)[s.len() as int] == x);
    if s.push(x).contains(y) {
        let i = choose|i: int| 0 <= i < s.push(x).len() && s.push(x)[i] == y;
        if i < s.len() {
            assert(s[i] == y);
        }
    }
}

/// Leaving a text out keeps the other texts, and only those.
pub proof fn lemma_others_contains(s: Seq<Seq<char>>, x: Seq<char>)
    ensures
        forall|y: Seq<char>| #[trigger] others(s, x).contains(y) <==> s.contains(y) && y != x,
    decreases s.len(),
{
    reveal(Seq::filter);
    if s.len() > 0 {
        let head = s.drop_last();
        lemma_others_contains(head, x);
        assert(head.push(s.last()) =~= s);
        assert forall|y: Seq<char>| #[trigger] others(s, x).contains(y) <==> s.contains(y) && y
            != x by {
            lemma_push_contains(head, s.last(), y);
            lemma_push_contains(others(head, x), s.last(), y);
            assert(others(head, x).contains(y) <==> head.contains(y) && y != x);
        }
    }
}

/// Leaving a text out makes no duplicates.
pub proof fn lemma_others_distinct(s: Seq<Seq<char>>, x: Seq<char>)
    requires
        s.no_duplicates(),
    ensures
        others(s, x).no_duplicates(),
    decreases s.len(),
{
    reveal(Seq::filter);
    if s.len() > 0 {
        let head = s.drop_last();
        let last = s.last();
        assert(head.no_duplicates());
        lemma_others_distinct(head, x);
        assert(head.push(last) =~= s);
        assert(!head.contains(last)) by {
            if head.contains(last) {
                let i = choose|i: int| 0 <= i < head.len() && head[i] == last;
                assert(s[i] == s[s.len() - 1]);
            }
        }
        lemma_others_contains(head, x);
        let f = others(head, x);
        assert(!f.contains(last));
        if last != x {
            assert forall|i: int, j: int| 0 <= i < j < f.push(last).len() implies f.push(last)[i]
                != f.push(last)[j] by {
                if j < f.len() {
                    assert(f[i] != f[j]);
                } else {
                    assert(f.contains(f[i]));
                }
            }
        }
    }
}

} // verus!
