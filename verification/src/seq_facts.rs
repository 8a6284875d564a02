//! General facts about filtered sequences.
use vstd::prelude::*;

verus! {

/// Every member of a filtered sequence is a member of the original.
pub proof fn lemma_filter_member<A>(s: Seq<A>, pred: spec_fn(A) -> bool, j: int)
    requires
        0 <= j < s.filter(pred).len(),
    ensures
        exists|q: int| 0 <= q < s.len() && s[q] == s.filter(pred)[j],
    decreases s.len(),
{
    reveal(Seq::filter);
    if s.len() > 0 {
        let rest = s.drop_last();
        if j < rest.filter(pred).len() {
            lemma_filter_member(rest, pred, j);
            let q = choose|q: int| 0 <= q < rest.len() && rest[q] == rest.filter(pred)[j];
            assert(s[q] == s.filter(pred)[j]);
        } else {
            assert(s[s.len() - 1] == s.filter(pred)[j]);
        }
    }
}

/// Removing one element from a sequence removes at most that element from
/// its filtered sequence.
pub proof fn lemma_filter_remove_len<A>(s: Seq<A>, pred: spec_fn(A) -> bool, q: int)
    requires
        0 <= q < s.len(),
    ensures
        s.filter(pred).len() == s.remove(q).filter(pred).len() + (if pred(s[q]) {
            1int
        } else {
            0int
        }),
{
    let a = s.take(q);
    let b = s.skip(q + 1);
    let one = seq![s[q]];
    assert(s =~= a + one + b);
    assert(s.remove(q) =~= a + b);
    Seq::filter_distributes_over_add(a + one, b, pred);
    Seq::filter_distributes_over_add(a, one, pred);
    Seq::filter_distributes_over_add(a, b, pred);
    reveal_with_fuel(Seq::filter, 2);
    assert(one.drop_last() =~= Seq::<A>::empty());
}

} // verus!
