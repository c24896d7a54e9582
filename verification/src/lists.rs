//! Facts about lists from which some elements are kept.

use vstd::prelude::*;

verus! {

/// What a filter keeps of a start of a list is a start of what it keeps of the
/// list.
pub proof fn lemma_filter_prefix<A>(s: Seq<A>, keep: spec_fn(A) -> bool, n: int)
    requires
        0 <= n <= s.len(),
    ensures
        s.take(n).filter(keep).is_prefix_of(s.filter(keep)),
    decreases s.len() - n,
{
    if n == s.len() {
        assert(s.take(n) =~= s);
    } else {
        lemma_filter_prefix(s, keep, n + 1);
        lemma_filter_step(s, keep, n);
    }
}

/// What a filter keeps grows by at most the element that is added.
pub proof fn lemma_filter_step<A>(s: Seq<A>, keep: spec_fn(A) -> bool, n: int)
    requires
        0 <= n < s.len(),
    ensures
        s.take(n + 1).filter(keep) == (if keep(s[n]) {
            s.take(n).filter(keep).push(s[n])
        } else {
            s.take(n).filter(keep)
        }),
{
    reveal(Seq::filter);
    assert(s.take(n + 1).drop_last() =~= s.take(n));
}

/// A filter keeps no more than there is.
pub proof fn lemma_filter_len<A>(s: Seq<A>, keep: spec_fn(A) -> bool)
    ensures
        s.filter(keep).len() <= s.len(),
    decreases s.len(),
{
    reveal(Seq::filter);
    if s.len() > 0 {
        lemma_filter_len(s.drop_last(), keep);
    }
}

/// What a filter keeps is of the list, and to be kept.
pub proof fn lemma_filter_members<A>(s: Seq<A>, keep: spec_fn(A) -> bool, i: int)
    requires
        0 <= i < s.filter(keep).len(),
    ensures
        keep(s.filter(keep)[i]),
        s.contains(s.filter(keep)[i]),
    decreases s.len(),
{
    reveal(Seq::filter);
    let before = s.drop_last().filter(keep);
    if i < before.len() {
        lemma_filter_members(s.drop_last(), keep, i);
        let k = choose|k: int| 0 <= k < s.drop_last().len() && s.drop_last()[k] == before[i];
        assert(s[k] == before[i]);
    } else {
        assert(s[s.len() - 1] == s.filter(keep)[i]);
    }
}

/// What is to be kept is among what a filter keeps.
pub proof fn lemma_filter_contains<A>(s: Seq<A>, keep: spec_fn(A) -> bool, k: int) -> (p: int)
    requires
        0 <= k < s.len(),
        keep(s[k]),
    ensures
        0 <= p < s.filter(keep).len(),
        s.filter(keep)[p] == s[k],
    decreases s.len(),
{
    reveal(Seq::filter);
    if k == s.len() - 1 {
        s.drop_last().filter(keep).len() as int
    } else {
        lemma_filter_contains(s.drop_last(), keep, k)
    }
}

/// A filter that keeps everything keeps the list.
pub proof fn lemma_filter_all<A>(s: Seq<A>, keep: spec_fn(A) -> bool)
    requires
        forall|i: int| 0 <= i < s.len() ==> keep(#[trigger] s[i]),
    ensures
        s.filter(keep) == s,
    decreases s.len(),
{
    reveal(Seq::filter);
    if s.len() > 0 {
        lemma_filter_all(s.drop_last(), keep);
        assert(s =~= s.drop_last().push(s.last()));
    } else {
        assert(s.filter(keep) =~= s);
    }
}

/// What is not kept at the start of a list makes no difference.
pub proof fn lemma_filter_without_first<A>(x: A, s: Seq<A>, keep: spec_fn(A) -> bool)
    requires
        !keep(x),
    ensures
        (seq![x] + s).filter(keep) == s.filter(keep),
    decreases s.len(),
{
    reveal(Seq::filter);
    let whole = seq![x] + s;
    if s.len() == 0 {
        assert(whole.drop_last() =~= Seq::empty());
        assert(whole.drop_last().filter(keep) =~= Seq::empty());
        assert(whole.filter(keep) =~= s.filter(keep));
    } else {
        assert(whole.drop_last() =~= seq![x] + s.drop_last());
        lemma_filter_without_first(x, s.drop_last(), keep);
        assert(whole.last() == s.last());
    }
}

/// The items at the positions that `keep` keeps.
pub open spec fn pick<A>(items: Seq<A>, keep: spec_fn(int) -> bool) -> Seq<A>
    decreases items.len(),
{
    if items.len() == 0 {
        Seq::empty()
    } else {
        let before = pick(items.drop_last(), keep);
        if keep(items.len() - 1) {
            before.push(items.last())
        } else {
            before
        }
    }
}

/// No more is picked than there is.
pub proof fn lemma_pick_len<A>(items: Seq<A>, keep: spec_fn(int) -> bool)
    ensures
        pick(items, keep).len() <= items.len(),
    decreases items.len(),
{
    if items.len() > 0 {
        lemma_pick_len(items.drop_last(), keep);
    }
}

/// What is picked stands at a position that is kept.
pub proof fn lemma_pick_member<A>(items: Seq<A>, keep: spec_fn(int) -> bool, i: int) -> (k: int)
    requires
        0 <= i < pick(items, keep).len(),
    ensures
        0 <= k < items.len(),
        keep(k),
        items[k] == pick(items, keep)[i],
    decreases items.len(),
{
    let before = pick(items.drop_last(), keep);
    if i < before.len() {
        lemma_pick_member(items.drop_last(), keep, i)
    } else {
        items.len() - 1
    }
}

/// What stands at a position that is kept is picked.
pub proof fn lemma_pick_contains<A>(items: Seq<A>, keep: spec_fn(int) -> bool, k: int) -> (p: int)
    requires
        0 <= k < items.len(),
        keep(k),
    ensures
        0 <= p < pick(items, keep).len(),
        pick(items, keep)[p] == items[k],
    decreases items.len(),
{
    if k == items.len() - 1 {
        pick(items.drop_last(), keep).len() as int
    } else {
        lemma_pick_contains(items.drop_last(), keep, k)
    }
}

/// What is picked stays in order.
pub proof fn lemma_pick_order<A>(items: Seq<A>, keep: spec_fn(int) -> bool, i: int, j: int) -> (r: (
    int,
    int,
))
    requires
        0 <= i < j < pick(items, keep).len(),
    ensures
        0 <= r.0 < r.1 < items.len(),
        keep(r.0) && keep(r.1),
        items[r.0] == pick(items, keep)[i],
        items[r.1] == pick(items, keep)[j],
    decreases items.len(),
{
    let before = pick(items.drop_last(), keep);
    if j < before.len() {
        lemma_pick_order(items.drop_last(), keep, i, j)
    } else {
        (lemma_pick_member(items.drop_last(), keep, i), items.len() - 1)
    }
}

} // verus!
