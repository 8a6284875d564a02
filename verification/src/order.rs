//! Facts about the rendering order: inserting the next position keeps an
//! order valid, a rendering order exists, and it is unique.
use vstd::prelude::*;
use crate::model::{SectionView, is_order_of_first, renders_before, is_render_order, render_order};

verus! {

/// Inserting position `m` at `p` into an order of the first `m` positions
/// yields an order of the first `m + 1`, provided every section before `p`
/// has at least the priority of section `m` and the one at `p` (if any) less.
pub proof fn lemma_insert_keeps_order(secs: Seq<SectionView>, ord: Seq<int>, m: int, p: int)
    requires
        0 <= m < secs.len(),
        is_order_of_first(secs, ord, m),
        0 <= p <= m,
        forall|i: int| 0 <= i < p ==> secs[#[trigger] ord[i]].priority >= secs[m].priority,
        p < m ==> secs[ord[p]].priority < secs[m].priority,
    ensures
        is_order_of_first(secs, ord.insert(p, m), m + 1),
{
    let o2 = ord.insert(p, m);
    assert forall|i: int| #![trigger o2[i]] 0 <= i < m + 1 implies 0 <= o2[i] < m + 1 by {
        if i < p {
            assert(o2[i] == ord[i]);
        } else if i > p {
            assert(o2[i] == ord[i - 1]);
        }
    }
    assert forall|k: int| 0 <= k < m + 1 implies #[trigger] o2.contains(k) by {
        if k == m {
            assert(o2[p] == m);
        } else {
            assert(ord.contains(k));
            let q = choose|q: int| 0 <= q < ord.len() && ord[q] == k;
            if q < p {
                assert(o2[q] == k);
            } else {
                assert(o2[q + 1] == k);
            }
        }
    }
    assert forall|i: int, j: int| #![trigger o2[i], o2[j]] 0 <= i < j < m + 1 implies renders_before(
        secs,
        o2[i],
        o2[j],
    ) by {
        if j < p {
            assert(o2[i] == ord[i] && o2[j] == ord[j]);
            assert(renders_before(secs, ord[i], ord[j]));
        } else if j == p {
            assert(o2[i] == ord[i] && o2[j] == m);
            assert(secs[ord[i]].priority >= secs[m].priority);
            assert(0 <= ord[i] < m);
        } else if i < p {
            assert(o2[i] == ord[i] && o2[j] == ord[j - 1]);
            assert(renders_before(secs, ord[i], ord[j - 1]));
        } else if i == p {
            assert(o2[i] == m && o2[j] == ord[j - 1]);
            if j - 1 > p {
                assert(renders_before(secs, ord[p], ord[j - 1]));
            }
            assert(secs[ord[j - 1]].priority < secs[m].priority);
        } else {
            assert(o2[i] == ord[i - 1] && o2[j] == ord[j - 1]);
            assert(renders_before(secs, ord[i - 1], ord[j - 1]));
        }
    }
}

/// The first position at or after `p` whose section has a lower priority
/// than section `m` (or the end of `ord`).
proof fn scan_position(secs: Seq<SectionView>, ord: Seq<int>, m: int, p: int) -> (q: int)
    requires
        0 <= m < secs.len(),
        is_order_of_first(secs, ord, m),
        0 <= p <= m,
        forall|i: int| 0 <= i < p ==> secs[#[trigger] ord[i]].priority >= secs[m].priority,
    ensures
        p <= q <= m,
        forall|i: int| 0 <= i < q ==> secs[#[trigger] ord[i]].priority >= secs[m].priority,
        q < m ==> secs[ord[q]].priority < secs[m].priority,
    decreases m - p,
{
    if p == m || secs[ord[p]].priority < secs[m].priority {
        p
    } else {
        scan_position(secs, ord, m, p + 1)
    }
}

/// An order of the first `m` positions exists.
pub proof fn lemma_order_exists(secs: Seq<SectionView>, m: int) -> (ord: Seq<int>)
    requires
        0 <= m <= secs.len(),
    ensures
        is_order_of_first(secs, ord, m),
    decreases m,
{
    if m == 0 {
        Seq::empty()
    } else {
        let prev = lemma_order_exists(secs, m - 1);
        let p = scan_position(secs, prev, m - 1, 0);
        lemma_insert_keeps_order(secs, prev, m - 1, p);
        prev.insert(p, m - 1)
    }
}

/// Two orders of the first `m` positions agree up to index `i`.
proof fn lemma_orders_agree(secs: Seq<SectionView>, o1: Seq<int>, o2: Seq<int>, m: int, i: int)
    requires
        0 <= m <= secs.len(),
        is_order_of_first(secs, o1, m),
        is_order_of_first(secs, o2, m),
        0 <= i < m,
    ensures
        forall|j: int| 0 <= j <= i ==> o1[j] == o2[j],
    decreases i,
{
    if i > 0 {
        lemma_orders_agree(secs, o1, o2, m, i - 1);
    }
    let a = o1[i];
    let b = o2[i];
    if a != b {
        assert(o1.contains(b));
        let jb = choose|q: int| 0 <= q < o1.len() && o1[q] == b;
        assert(o2.contains(a));
        let ja = choose|q: int| 0 <= q < o2.len() && o2[q] == a;
        if jb < i {
            assert(o2[jb] == b);
            assert(renders_before(secs, o2[jb], o2[i]));
        }
        if ja < i {
            assert(o1[ja] == a);
            assert(renders_before(secs, o1[ja], o1[i]));
        }
        assert(renders_before(secs, o1[i], o1[jb]));
        assert(renders_before(secs, o2[i], o2[ja]));
    }
}

/// There is at most one order of the first `m` positions.
pub proof fn lemma_order_unique(secs: Seq<SectionView>, o1: Seq<int>, o2: Seq<int>, m: int)
    requires
        0 <= m <= secs.len(),
        is_order_of_first(secs, o1, m),
        is_order_of_first(secs, o2, m),
    ensures
        o1 == o2,
{
    if m > 0 {
        lemma_orders_agree(secs, o1, o2, m, m - 1);
    }
    assert(o1 =~= o2);
}

/// `render_order` is a rendering order of the sections.
pub proof fn lemma_render_order(secs: Seq<SectionView>)
    ensures
        is_render_order(secs, render_order(secs)),
{
    let ord = lemma_order_exists(secs, secs.len() as int);
    assert(is_render_order(secs, ord));
}

/// Any rendering order of the sections is `render_order`.
pub proof fn lemma_render_order_unique(secs: Seq<SectionView>, ord: Seq<int>)
    requires
        is_render_order(secs, ord),
    ensures
        render_order(secs) == ord,
{
    lemma_render_order(secs);
    lemma_order_unique(secs, render_order(secs), ord, secs.len() as int);
}

} // verus!
