//! Stable sorting by keys, and the removal of neighbours with equal keys.
//!
//! A key is a list of numbers, and keys are compared like words in a dictionary:
//! the first number that differs decides, and a key that runs out comes first.

use vstd::prelude::*;

verus! {

/// `a` comes before `b` in dictionary order.
pub open spec fn key_lt(a: Seq<i128>, b: Seq<i128>) -> bool
    decreases a.len(),
{
    if b.len() == 0 {
        false
    } else if a.len() == 0 {
        true
    } else if a[0] != b[0] {
        a[0] < b[0]
    } else {
        key_lt(a.drop_first(), b.drop_first())
    }
}

/// No key comes before itself.
pub proof fn lemma_key_irreflexive(a: Seq<i128>)
    ensures
        !key_lt(a, a),
    decreases a.len(),
{
    if a.len() > 0 {
        lemma_key_irreflexive(a.drop_first());
    }
}

/// What comes before a key comes before everything that the key comes before.
pub proof fn lemma_key_transitive(a: Seq<i128>, b: Seq<i128>, c: Seq<i128>)
    requires
        key_lt(a, b),
        key_lt(b, c),
    ensures
        key_lt(a, c),
    decreases a.len(),
{
    if a.len() > 0 && a[0] == b[0] && b[0] == c[0] {
        lemma_key_transitive(a.drop_first(), b.drop_first(), c.drop_first());
    }
}

/// Of two different keys, one comes before the other.
pub proof fn lemma_key_total(a: Seq<i128>, b: Seq<i128>)
    ensures
        key_lt(a, b) || key_lt(b, a) || a == b,
    decreases a.len(),
{
    if a.len() == 0 || b.len() == 0 {
        if a.len() == b.len() {
            assert(a =~= b);
        }
    } else if a[0] == b[0] {
        lemma_key_total(a.drop_first(), b.drop_first());
        if a.drop_first() == b.drop_first() {
            assert(a =~= seq![a[0]] + a.drop_first());
            assert(b =~= seq![b[0]] + b.drop_first());
        }
    }
}

/// Where the item at `x` stands before the item at `y` once the items are
/// sorted: by their keys, and by where they stood where the keys are equal.
pub open spec fn precedes(keys: Seq<Seq<i128>>, x: int, y: int) -> bool {
    key_lt(keys[x], keys[y]) || (keys[x] == keys[y] && x < y)
}

/// `precedes` puts every two different positions in one order.
proof fn lemma_precedes_total(keys: Seq<Seq<i128>>, x: int, y: int)
    ensures
        x != y ==> precedes(keys, x, y) || precedes(keys, y, x),
        !(precedes(keys, x, y) && precedes(keys, y, x)),
{
    lemma_key_total(keys[x], keys[y]);
    lemma_key_irreflexive(keys[x]);
    if key_lt(keys[x], keys[y]) && key_lt(keys[y], keys[x]) {
        lemma_key_transitive(keys[x], keys[y], keys[x]);
    }
}

proof fn lemma_precedes_transitive(keys: Seq<Seq<i128>>, x: int, y: int, z: int)
    requires
        precedes(keys, x, y),
        precedes(keys, y, z),
    ensures
        precedes(keys, x, z),
{
    if key_lt(keys[x], keys[y]) && key_lt(keys[y], keys[z]) {
        lemma_key_transitive(keys[x], keys[y], keys[z]);
    }
}

/// `order` holds positions of `keys`, each one before all those that it precedes.
pub open spec fn ascending(keys: Seq<Seq<i128>>, order: Seq<usize>) -> bool {
    forall|i: int, j: int|
        0 <= i < j < order.len() ==> precedes(
            keys,
            #[trigger] order[i] as int,
            #[trigger] order[j] as int,
        )
}

/// `order` holds the positions `lo..hi`, each of them once.
pub open spec fn covers(order: Seq<usize>, lo: int, hi: int) -> bool {
    &&& order.len() == hi - lo
    &&& forall|i: int| 0 <= i < order.len() ==> lo <= #[trigger] order[i] < hi
    &&& forall|x: usize| lo <= x < hi ==> #[trigger] order.contains(x)
}

/// `order` lists the positions of `keys` in sorted order: equal keys keep the
/// order in which they stood.
pub open spec fn is_stable_order(keys: Seq<Seq<i128>>, order: Seq<usize>) -> bool {
    covers(order, 0, keys.len() as int) && ascending(keys, order)
}

/// The positions of `keys` in sorted order.
pub open spec fn stable_order(keys: Seq<Seq<i128>>) -> Seq<usize> {
    choose|order: Seq<usize>| is_stable_order(keys, order)
}

/// There is one sorted order, and no second.
pub proof fn lemma_stable_order_unique(keys: Seq<Seq<i128>>, a: Seq<usize>, b: Seq<usize>)
    requires
        is_stable_order(keys, a),
        is_stable_order(keys, b),
    ensures
        a == b,
{
    assert forall|i: int| 0 <= i < a.len() implies a[i] == b[i] by {
        lemma_same_start(keys, a, b, i + 1);
    }
    assert(a =~= b);
}

proof fn lemma_same_start(keys: Seq<Seq<i128>>, a: Seq<usize>, b: Seq<usize>, n: int)
    requires
        is_stable_order(keys, a),
        is_stable_order(keys, b),
        0 <= n <= a.len(),
    ensures
        forall|i: int| 0 <= i < n ==> a[i] == b[i],
    decreases n,
{
    if n > 0 {
        lemma_same_start(keys, a, b, n - 1);
        let k = n - 1;
        if a[k] != b[k] {
            assert(b.contains(a[k]));
            let p = choose|p: int| 0 <= p < b.len() && b[p] == a[k];
            assert(a.contains(b[k]));
            let q = choose|q: int| 0 <= q < a.len() && a[q] == b[k];
            lemma_precedes_total(keys, a[k] as int, a[k] as int);
            lemma_precedes_total(keys, b[k] as int, b[k] as int);
            if p < k {
                assert(a[p] == b[p]);
                assert(precedes(keys, a[p] as int, a[k] as int));
            }
            if q < k {
                assert(a[q] == b[q]);
                assert(precedes(keys, b[q] as int, b[k] as int));
            }
            assert(precedes(keys, b[k] as int, b[p] as int));
            assert(precedes(keys, a[k] as int, a[q] as int));
            lemma_precedes_total(keys, a[k] as int, b[k] as int);
        }
    }
}

/// A list of keys, each as its numbers.
pub open spec fn key_views(keys: Seq<Vec<i128>>) -> Seq<Seq<i128>> {
    Seq::new(keys.len(), |i: int| keys[i]@)
}

/// Whether `a` comes before `b` in dictionary order.
pub fn key_less(a: &Vec<i128>, b: &Vec<i128>) -> (r: bool)
    ensures
        r == key_lt(a@, b@),
{
    let mut i: usize = 0;
    assert(a@.skip(0) =~= a@);
    assert(b@.skip(0) =~= b@);
    while i < a.len() && i < b.len() && a[i] == b[i]
        invariant
            i <= a@.len(),
            i <= b@.len(),
            key_lt(a@, b@) == key_lt(a@.skip(i as int), b@.skip(i as int)),
        decreases a@.len() - i,
    {
        assert(a@.skip(i as int).drop_first() =~= a@.skip(i + 1));
        assert(b@.skip(i as int).drop_first() =~= b@.skip(i + 1));
        i = i + 1;
    }
    if i >= b.len() {
        false
    } else if i >= a.len() {
        true
    } else {
        a[i] < b[i]
    }
}

/// Merges two ascending lists of positions, all of the first before all of the
/// second.
fn merge(keys: &Vec<Vec<i128>>, left: &Vec<usize>, right: &Vec<usize>, Ghost(lo): Ghost<int>, Ghost(mid): Ghost<int>, Ghost(hi): Ghost<int>) -> (r: Vec<usize>)
    requires
        0 <= lo <= mid <= hi <= keys@.len(),
        covers(left@, lo, mid),
        covers(right@, mid, hi),
        ascending(key_views(keys@), left@),
        ascending(key_views(keys@), right@),
    ensures
        covers(r@, lo, hi),
        ascending(key_views(keys@), r@),
{
    let ghost kv = key_views(keys@);
    let mut out: Vec<usize> = Vec::new();
    let mut i: usize = 0;
    let mut j: usize = 0;
    while i < left.len() || j < right.len()
        invariant
            kv == key_views(keys@),
            0 <= lo <= mid <= hi <= keys@.len(),
            covers(left@, lo, mid),
            covers(right@, mid, hi),
            ascending(kv, left@),
            ascending(kv, right@),
            i <= left@.len(),
            j <= right@.len(),
            out@.len() == i + j,
            forall|k: int| 0 <= k < out@.len() ==> lo <= #[trigger] out@[k] < hi,
            forall|k: int| 0 <= k < i ==> out@.contains(#[trigger] left@[k]),
            forall|k: int| 0 <= k < j ==> out@.contains(#[trigger] right@[k]),
            ascending(kv, out@),
            forall|k: int, m: int|
                0 <= k < out@.len() && i <= m < left@.len() ==> precedes(
                    kv,
                    #[trigger] out@[k] as int,
                    #[trigger] left@[m] as int,
                ),
            forall|k: int, m: int|
                0 <= k < out@.len() && j <= m < right@.len() ==> precedes(
                    kv,
                    #[trigger] out@[k] as int,
                    #[trigger] right@[m] as int,
                ),
        decreases left@.len() - i + right@.len() - j,
    {
        let from_left: bool = if i >= left.len() {
            false
        } else if j >= right.len() {
            true
        } else {
            !key_less(&keys[right[j]], &keys[left[i]])
        };
        let ghost before = out@;
        let ghost (i0, j0) = (i as int, j as int);
        if from_left {
            let x = left[i];
            out.push(x);
            i = i + 1;
            proof {
                if j < right@.len() {
                    lemma_precedes_total(kv, x as int, right@[j as int] as int);
                    assert(precedes(kv, x as int, right@[j as int] as int));
                    assert forall|m: int| j <= m < right@.len() implies precedes(
                        kv,
                        x as int,
                        #[trigger] right@[m] as int,
                    ) by {
                        if m > j {
                            lemma_precedes_transitive(
                                kv,
                                x as int,
                                right@[j as int] as int,
                                right@[m] as int,
                            );
                        }
                    }
                }
            }
        } else {
            let x = right[j];
            out.push(x);
            j = j + 1;
            proof {
                if i < left@.len() {
                    assert(precedes(kv, x as int, left@[i as int] as int));
                    assert forall|m: int| i <= m < left@.len() implies precedes(
                        kv,
                        x as int,
                        #[trigger] left@[m] as int,
                    ) by {
                        if m > i {
                            lemma_precedes_transitive(
                                kv,
                                x as int,
                                left@[i as int] as int,
                                left@[m] as int,
                            );
                        }
                    }
                }
            }
        }
        proof {
            assert forall|v: usize| before.contains(v) implies out@.contains(v) by {
                let k = choose|k: int| 0 <= k < before.len() && before[k] == v;
                assert(out@[k] == v);
            }
            assert(out@[before.len() as int] == out@.last());
            assert forall|a: int, b: int| 0 <= a < b < out@.len() implies precedes(
                kv,
                #[trigger] out@[a] as int,
                #[trigger] out@[b] as int,
            ) by {
                if b < before.len() {
                    assert(precedes(kv, before[a] as int, before[b] as int));
                } else if from_left {
                    assert(precedes(kv, before[a] as int, left@[i0] as int));
                } else {
                    assert(precedes(kv, before[a] as int, right@[j0] as int));
                }
            }
        }
    }
    assert forall|x: usize| lo <= x < hi implies #[trigger] out@.contains(x) by {
        if x < mid {
            assert(left@.contains(x));
            let k = choose|k: int| 0 <= k < left@.len() && left@[k] == x;
            assert(out@.contains(left@[k]));
        } else {
            assert(right@.contains(x));
            let k = choose|k: int| 0 <= k < right@.len() && right@[k] == x;
            assert(out@.contains(right@[k]));
        }
    }
    out
}

fn sort_range(keys: &Vec<Vec<i128>>, lo: usize, hi: usize) -> (r: Vec<usize>)
    requires
        lo <= hi <= keys@.len(),
    ensures
        covers(r@, lo as int, hi as int),
        ascending(key_views(keys@), r@),
    decreases hi - lo,
{
    if hi - lo <= 1 {
        let mut out: Vec<usize> = Vec::new();
        if lo < hi {
            out.push(lo);
            assert(out@[0] == lo);
        }
        assert forall|x: usize| lo <= x < hi implies #[trigger] out@.contains(x) by {
            assert(out@[0] == x);
        }
        out
    } else {
        let mid: usize = lo + (hi - lo) / 2;
        let left = sort_range(keys, lo, mid);
        let right = sort_range(keys, mid, hi);
        merge(keys, &left, &right, Ghost(lo as int), Ghost(mid as int), Ghost(hi as int))
    }
}

/// The positions of `keys` in sorted order.
pub fn order_by_key(keys: &Vec<Vec<i128>>) -> (r: Vec<usize>)
    ensures
        is_stable_order(key_views(keys@), r@),
        r@ == stable_order(key_views(keys@)),
{
    let r = sort_range(keys, 0, keys.len());
    proof {
        lemma_stable_order_unique(key_views(keys@), r@, stable_order(key_views(keys@)));
    }
    r
}

/// `order` without the positions whose key equals that of the position before.
pub open spec fn dedup_order(keys: Seq<Seq<i128>>, order: Seq<usize>) -> Seq<usize>
    decreases order.len(),
{
    if order.len() == 0 {
        Seq::empty()
    } else {
        let before = dedup_order(keys, order.drop_last());
        if order.len() >= 2 && keys[order.last() as int] == keys[order[order.len() - 2] as int] {
            before
        } else {
            before.push(order.last())
        }
    }
}

/// The items at the positions in `order`.
pub open spec fn select<A>(items: Seq<A>, order: Seq<usize>) -> Seq<A> {
    Seq::new(order.len(), |i: int| items[order[i] as int])
}

/// `items` sorted by `keys`, equal keys in the order in which they stood.
pub open spec fn sorted<A>(items: Seq<A>, keys: Seq<Seq<i128>>) -> Seq<A> {
    select(items, stable_order(keys))
}

/// `items` sorted by `keys`, with the first item of each key alone.
pub open spec fn sorted_dedup<A>(items: Seq<A>, keys: Seq<Seq<i128>>) -> Seq<A> {
    select(items, dedup_order(keys, stable_order(keys)))
}

/// What is left of a list of positions are positions of that list.
pub proof fn lemma_dedup_within(keys: Seq<Seq<i128>>, order: Seq<usize>, bound: int)
    requires
        forall|i: int| 0 <= i < order.len() ==> 0 <= #[trigger] order[i] < bound,
    ensures
        dedup_order(keys, order).len() <= order.len(),
        forall|i: int|
            0 <= i < dedup_order(keys, order).len() ==> 0 <= #[trigger] dedup_order(
                keys,
                order,
            )[i] < bound,
    decreases order.len(),
{
    if order.len() > 0 {
        assert forall|i: int| 0 <= i < order.drop_last().len() implies 0
            <= #[trigger] order.drop_last()[i] < bound by {
            assert(order[i] == order.drop_last()[i]);
        }
        lemma_dedup_within(keys, order.drop_last(), bound);
        assert(0 <= order[order.len() - 1] < bound);
    }
}

proof fn lemma_dedup_last(keys: Seq<Seq<i128>>, order: Seq<usize>)
    requires
        order.len() > 0,
    ensures
        dedup_order(keys, order).len() > 0,
        keys[dedup_order(keys, order).last() as int] == keys[order.last() as int],
    decreases order.len(),
{
    if order.len() >= 2 {
        lemma_dedup_last(keys, order.drop_last());
        assert(order.drop_last().last() == order[order.len() - 2]);
    }
}

/// The keys at the positions in `order` rise strictly.
pub open spec fn rising(keys: Seq<Seq<i128>>, order: Seq<usize>) -> bool {
    forall|i: int, j: int|
        0 <= i < j < order.len() ==> key_lt(
            keys[#[trigger] order[i] as int],
            keys[#[trigger] order[j] as int],
        )
}

/// `order` holds a position, `x` or one before it, with the key of `x`.
pub open spec fn holds_key_of(keys: Seq<Seq<i128>>, order: Seq<usize>, x: int) -> bool {
    exists|i: int|
        0 <= i < order.len() && #[trigger] order[i] <= x && keys[order[i] as int] == keys[x]
}

/// Sorting by key and dropping repeats leaves each key once, in strictly rising
/// order, and of the items with one key the one that stood first.
pub proof fn lemma_sorted_dedup(keys: Seq<Seq<i128>>, order: Seq<usize>)
    requires
        is_stable_order(keys, order),
    ensures
        rising(keys, dedup_order(keys, order)),
        forall|x: usize|
            x < keys.len() ==> #[trigger] holds_key_of(keys, dedup_order(keys, order), x as int),
{
    lemma_dedup_rising(keys, order);
    assert forall|x: usize| x < keys.len() implies #[trigger] holds_key_of(
        keys,
        dedup_order(keys, order),
        x as int,
    ) by {
        assert(order.contains(x));
        let p = choose|p: int| 0 <= p < order.len() && order[p] == x;
        lemma_dedup_first(keys, order, p);
    }
}

proof fn lemma_ascending_rest(keys: Seq<Seq<i128>>, order: Seq<usize>)
    requires
        ascending(keys, order),
        order.len() > 0,
    ensures
        ascending(keys, order.drop_last()),
{
    let rest = order.drop_last();
    assert forall|i: int, j: int| 0 <= i < j < rest.len() implies precedes(
        keys,
        #[trigger] rest[i] as int,
        #[trigger] rest[j] as int,
    ) by {
        assert(precedes(keys, order[i] as int, order[j] as int));
    }
}

proof fn lemma_dedup_rising(keys: Seq<Seq<i128>>, order: Seq<usize>)
    requires
        ascending(keys, order),
    ensures
        rising(keys, dedup_order(keys, order)),
    decreases order.len(),
{
    if order.len() > 0 {
        let rest = order.drop_last();
        let before = dedup_order(keys, rest);
        let kept = dedup_order(keys, order);
        lemma_ascending_rest(keys, order);
        lemma_dedup_rising(keys, rest);
        let repeated = order.len() >= 2 && keys[order.last() as int] == keys[order[order.len()
            - 2] as int];
        if repeated {
            assert(kept == before);
        } else if order.len() == 1 {
            assert(before.len() == 0);
            assert(kept.len() == 1);
        } else {
            lemma_dedup_last(keys, rest);
            assert(rest.last() == order[order.len() - 2]);
            assert(precedes(keys, order[order.len() - 2] as int, order[order.len() - 1] as int));
            assert(key_lt(keys[before.last() as int], keys[order.last() as int]));
            assert(kept == before.push(order.last()));
            assert forall|i: int, j: int| 0 <= i < j < kept.len() implies key_lt(
                keys[#[trigger] kept[i] as int],
                keys[#[trigger] kept[j] as int],
            ) by {
                assert(kept[i] == before[i]);
                if j < before.len() {
                    assert(kept[j] == before[j]);
                } else if i < before.len() - 1 {
                    assert(before[before.len() - 1] == before.last());
                    assert(key_lt(keys[before[i] as int], keys[before[before.len() - 1] as int]));
                    lemma_key_transitive(
                        keys[before[i] as int],
                        keys[before.last() as int],
                        keys[order.last() as int],
                    );
                }
            }
        }
    }
}

proof fn lemma_dedup_first(keys: Seq<Seq<i128>>, order: Seq<usize>, p: int)
    requires
        ascending(keys, order),
        0 <= p < order.len(),
    ensures
        holds_key_of(keys, dedup_order(keys, order), order[p] as int),
    decreases order.len(),
{
    let rest = order.drop_last();
    let kept = dedup_order(keys, order);
    lemma_ascending_rest(keys, order);
    let repeated = order.len() >= 2 && keys[order.last() as int] == keys[order[order.len()
        - 2] as int];
    if p < order.len() - 1 || repeated {
        let q = if p < order.len() - 1 {
            p
        } else {
            order.len() - 2
        };
        lemma_dedup_first(keys, rest, q);
        let i = choose|i: int|
            0 <= i < dedup_order(keys, rest).len() && #[trigger] dedup_order(keys, rest)[i]
                <= rest[q] && keys[dedup_order(keys, rest)[i] as int] == keys[rest[q] as int];
        assert(kept[i] == dedup_order(keys, rest)[i]);
        if q != p {
            assert(precedes(keys, order[q] as int, order[p] as int));
            lemma_key_irreflexive(keys[order[p] as int]);
        }
        assert(kept[i] <= order[p]);
    } else {
        assert(kept[kept.len() - 1] == order[p]);
    }
}

/// `order` without the positions whose key equals that of the position before.
pub fn without_repeats(keys: &Vec<Vec<i128>>, order: &Vec<usize>) -> (r: Vec<usize>)
    requires
        forall|i: int| 0 <= i < order@.len() ==> #[trigger] order@[i] < keys@.len(),
    ensures
        r@ == dedup_order(key_views(keys@), order@),
        forall|i: int| 0 <= i < r@.len() ==> #[trigger] r@[i] < keys@.len(),
{
    let mut out: Vec<usize> = Vec::new();
    let ghost kv = key_views(keys@);
    let mut i: usize = 0;
    while i < order.len()
        invariant
            i <= order@.len(),
            kv == key_views(keys@),
            forall|i: int| 0 <= i < order@.len() ==> #[trigger] order@[i] < keys@.len(),
            forall|i: int| 0 <= i < out@.len() ==> #[trigger] out@[i] < keys@.len(),
            out@ == dedup_order(kv, order@.take(i as int)),
        decreases order@.len() - i,
    {
        assert(order@.take(i + 1).drop_last() =~= order@.take(i as int));
        let repeated: bool = if i == 0 {
            false
        } else {
            same_key(&keys[order[i]], &keys[order[i - 1]])
        };
        if !repeated {
            out.push(order[i]);
        }
        i = i + 1;
    }
    assert(order@.take(order@.len() as int) =~= order@);
    out
}

/// Whether `a` and `b` are the same key.
pub fn same_key(a: &Vec<i128>, b: &Vec<i128>) -> (r: bool)
    ensures
        r == (a@ == b@),
{
    let r = !key_less(a, b) && !key_less(b, a);
    proof {
        lemma_key_total(a@, b@);
        lemma_key_irreflexive(a@);
    }
    r
}

/// The key by which texts are sorted: the numbers of their characters.
pub open spec fn text_key(s: Seq<char>) -> Seq<i128> {
    Seq::new(s.len(), |i: int| s[i] as u32 as i128)
}

proof fn lemma_char_number(x: char, y: char)
    ensures
        x as u32 as i128 == y as u32 as i128 ==> x == y,
{
}

/// Texts with one key are one text.
pub proof fn lemma_text_key_injective(a: Seq<char>, b: Seq<char>)
    ensures
        text_key(a) == text_key(b) <==> a == b,
{
    if text_key(a) == text_key(b) {
        assert(text_key(a).len() == text_key(b).len());
        assert forall|i: int| 0 <= i < a.len() implies a[i] == b[i] by {
            assert(text_key(a)[i] == text_key(b)[i]);
            lemma_char_number(a[i], b[i]);
        }
        assert(a =~= b);
    }
}

/// Appends to `key` the numbers of the characters of `s`.
pub fn push_text_key(key: &mut Vec<i128>, s: &str)
    ensures
        final(key)@ == old(key)@ + text_key(s@),
{
    let a = crate::text::chars_of(s);
    let mut i: usize = 0;
    let ghost start = key@;
    assert(start + text_key(s@.take(0)) =~= start);
    while i < a.len()
        invariant
            a@ == s@,
            i <= a@.len(),
            key@ == start + text_key(s@.take(i as int)),
        decreases a@.len() - i,
    {
        let n: u32 = a[i] as u32;
        key.push(n as i128);
        assert(start + text_key(s@.take(i + 1)) =~= (start + text_key(s@.take(i as int))).push(
            n as i128,
        ));
        i = i + 1;
    }
    assert(s@.take(s@.len() as int) =~= s@);
}

/// The key by which the text `s` is sorted.
pub fn key_of_text(s: &str) -> (r: Vec<i128>)
    ensures
        r@ == text_key(s@),
{
    let mut key: Vec<i128> = Vec::new();
    push_text_key(&mut key, s);
    assert(Seq::<i128>::empty() + text_key(s@) =~= text_key(s@));
    key
}

/// The first position in `order`, from `i` on, whose item comes behind `x`.
spec fn place_of(keys: Seq<Seq<i128>>, order: Seq<usize>, x: int, i: int) -> int
    decreases order.len() - i,
{
    if i >= order.len() {
        order.len() as int
    } else if precedes(keys, x, order[i] as int) {
        i
    } else {
        place_of(keys, order, x, i + 1)
    }
}

proof fn lemma_place_of(keys: Seq<Seq<i128>>, order: Seq<usize>, x: int, i: int)
    requires
        0 <= i <= order.len(),
    ensures
        i <= place_of(keys, order, x, i) <= order.len(),
        forall|k: int|
            i <= k < place_of(keys, order, x, i) ==> !precedes(keys, x, #[trigger] order[k] as int),
        place_of(keys, order, x, i) < order.len() ==> precedes(
            keys,
            x,
            order[place_of(keys, order, x, i)] as int,
        ),
    decreases order.len() - i,
{
    if i < order.len() && !precedes(keys, x, order[i] as int) {
        lemma_place_of(keys, order, x, i + 1);
    }
}

proof fn lemma_order_exists(keys: Seq<Seq<i128>>, n: int) -> (order: Seq<usize>)
    requires
        0 <= n <= keys.len(),
        n <= usize::MAX,
    ensures
        covers(order, 0, n),
        ascending(keys, order),
    decreases n,
{
    if n == 0 {
        Seq::empty()
    } else {
        let x = n - 1;
        let rest = lemma_order_exists(keys, x);
        let p = place_of(keys, rest, x, 0);
        lemma_place_of(keys, rest, x, 0);
        let order = rest.insert(p, x as usize);
        assert forall|i: int, j: int| 0 <= i < j < order.len() implies precedes(
            keys,
            #[trigger] order[i] as int,
            #[trigger] order[j] as int,
        ) by {
            let a = if i < p {
                i
            } else {
                i - 1
            };
            let b = if j < p {
                j
            } else {
                j - 1
            };
            if i == p {
                assert(order[j] == rest[b]);
                if b > p {
                    assert(precedes(keys, rest[p] as int, rest[b] as int));
                    lemma_precedes_transitive(keys, x, rest[p] as int, rest[b] as int);
                }
            } else if j == p {
                assert(order[i] == rest[a]);
                assert(!precedes(keys, x, rest[a] as int));
                lemma_precedes_total(keys, x, rest[a] as int);
            } else {
                assert(order[i] == rest[a] && order[j] == rest[b]);
                assert(precedes(keys, rest[a] as int, rest[b] as int));
            }
        }
        assert forall|y: usize| 0 <= y < n implies #[trigger] order.contains(y) by {
            if y == x as usize {
                assert(order[p] == y);
            } else {
                assert(rest.contains(y));
                let k = choose|k: int| 0 <= k < rest.len() && rest[k] == y;
                if k < p {
                    assert(order[k] == y);
                } else {
                    assert(order[k + 1] == y);
                }
            }
        }
        assert forall|i: int| 0 <= i < order.len() implies 0 <= #[trigger] order[i] < n by {
            if i < p {
                assert(order[i] == rest[i]);
            } else if i > p {
                assert(order[i] == rest[i - 1]);
            }
        }
        order
    }
}

/// There is a sorted order.
pub proof fn lemma_stable_order_exists(keys: Seq<Seq<i128>>)
    requires
        keys.len() <= usize::MAX,
    ensures
        is_stable_order(keys, stable_order(keys)),
{
    let order = lemma_order_exists(keys, keys.len() as int);
    assert(is_stable_order(keys, order));
}

/// Position `i` is the first one with its key.
pub open spec fn is_first_of_key(keys: Seq<Seq<i128>>, i: int) -> bool {
    forall|k: int| 0 <= k < i ==> #[trigger] keys[k] != keys[i]
}

/// Every key has a first position.
pub proof fn lemma_first_with_key(keys: Seq<Seq<i128>>, x: int) -> (k: int)
    requires
        0 <= x < keys.len(),
    ensures
        0 <= k <= x,
        keys[k] == keys[x],
        is_first_of_key(keys, k),
    decreases x,
{
    if is_first_of_key(keys, x) {
        x
    } else {
        let y = choose|y: int| 0 <= y < x && #[trigger] keys[y] == keys[x];
        lemma_first_with_key(keys, y)
    }
}

proof fn lemma_first_of_key(keys: Seq<Seq<i128>>, order: Seq<usize>, p: int)
    requires
        is_stable_order(keys, order),
        0 <= p < order.len(),
    ensures
        is_first_of_key(keys, order[p] as int) <==> p == 0 || keys[order[p - 1] as int]
            != keys[order[p] as int],
{
    let x = order[p] as int;
    if p > 0 && keys[order[p - 1] as int] == keys[x] {
        assert(precedes(keys, order[p - 1] as int, order[p] as int));
        lemma_key_irreflexive(keys[x]);
        assert(keys[order[p - 1] as int] == keys[x]);
        assert(!is_first_of_key(keys, x));
    } else {
        assert forall|k: int| 0 <= k < x implies #[trigger] keys[k] != keys[x] by {
            if keys[k] == keys[x] {
                assert(order.contains(k as usize));
                let q = choose|q: int| 0 <= q < order.len() && order[q] == k as usize;
                lemma_key_irreflexive(keys[x]);
                if q > p {
                    assert(precedes(keys, order[p] as int, order[q] as int));
                } else {
                    assert(q < p);
                    assert(precedes(keys, order[p - 1] as int, order[p] as int));
                    assert(key_lt(keys[order[p - 1] as int], keys[x]));
                    if q < p - 1 {
                        assert(precedes(keys, order[q] as int, order[p - 1] as int));
                        if key_lt(keys[order[q] as int], keys[order[p - 1] as int]) {
                            lemma_key_transitive(
                                keys[order[q] as int],
                                keys[order[p - 1] as int],
                                keys[x],
                            );
                        }
                    }
                }
            }
        }
    }
}

/// Tells of each position whether it is the first one with its key.
pub fn first_occurrences(keys: &Vec<Vec<i128>>) -> (r: Vec<bool>)
    ensures
        r@.len() == keys@.len(),
        forall|i: int|
            0 <= i < keys@.len() ==> #[trigger] r@[i] == is_first_of_key(key_views(keys@), i),
{
    let ghost kv = key_views(keys@);
    let order = order_by_key(keys);
    let mut out: Vec<bool> = Vec::new();
    let mut i: usize = 0;
    while i < keys.len()
        invariant
            i <= keys@.len(),
            out@.len() == i,
        decreases keys@.len() - i,
    {
        out.push(false);
        i = i + 1;
    }
    let mut p: usize = 0;
    while p < order.len()
        invariant
            p <= order@.len(),
            kv == key_views(keys@),
            is_stable_order(kv, order@),
            out@.len() == keys@.len(),
            forall|q: int|
                0 <= q < p ==> out@[#[trigger] order@[q] as int] == is_first_of_key(
                    kv,
                    order@[q] as int,
                ),
        decreases order@.len() - p,
    {
        let first: bool = if p == 0 {
            true
        } else {
            !same_key(&keys[order[p - 1]], &keys[order[p]])
        };
        proof {
            lemma_first_of_key(kv, order@, p as int);
        }
        assert forall|q: int| 0 <= q < p implies order@[q] != order@[p as int] by {
            assert(precedes(kv, order@[q] as int, order@[p as int] as int));
            lemma_key_irreflexive(kv[order@[p as int] as int]);
        }
        out.set(order[p], first);
        p = p + 1;
    }
    assert forall|i: int| 0 <= i < keys@.len() implies #[trigger] out@[i] == is_first_of_key(
        kv,
        i,
    ) by {
        assert(order@.contains(i as usize));
        let q = choose|q: int| 0 <= q < order@.len() && order@[q] == i as usize;
        assert(out@[order@[q] as int] == is_first_of_key(kv, order@[q] as int));
    }
    out
}

proof fn lemma_dedup_member(keys: Seq<Seq<i128>>, order: Seq<usize>, i: int)
    requires
        0 <= i < dedup_order(keys, order).len(),
    ensures
        exists|p: int| 0 <= p < order.len() && #[trigger] order[p] == dedup_order(keys, order)[i],
    decreases order.len(),
{
    let rest = order.drop_last();
    let before = dedup_order(keys, rest);
    if i < before.len() {
        lemma_dedup_member(keys, rest, i);
        let p = choose|p: int| 0 <= p < rest.len() && #[trigger] rest[p] == before[i];
        assert(order[p] == before[i]);
    } else {
        assert(order[order.len() - 1] == dedup_order(keys, order)[i]);
    }
}

/// What is left of a list of positions stands in the order of that list.
pub proof fn lemma_dedup_subsequence(keys: Seq<Seq<i128>>, order: Seq<usize>, i: int, j: int)
    requires
        0 <= i < j < dedup_order(keys, order).len(),
    ensures
        exists|p: int, q: int|
            0 <= p < q < order.len() && #[trigger] order[p] == dedup_order(keys, order)[i]
                && #[trigger] order[q] == dedup_order(keys, order)[j],
    decreases order.len(),
{
    let rest = order.drop_last();
    let before = dedup_order(keys, rest);
    let kept = dedup_order(keys, order);
    if j < before.len() {
        lemma_dedup_subsequence(keys, rest, i, j);
        let (p, q) = choose|p: int, q: int|
            0 <= p < q < rest.len() && #[trigger] rest[p] == before[i] && #[trigger] rest[q]
                == before[j];
        assert(order[p] == kept[i] && order[q] == kept[j]);
    } else {
        lemma_dedup_member(keys, rest, i);
        let p = choose|p: int| 0 <= p < rest.len() && #[trigger] rest[p] == before[i];
        assert(order[p] == kept[i]);
        assert(order[order.len() - 1] == kept[j]);
    }
}

/// What comes first has no greater key than what follows.
pub proof fn lemma_precedes_not_reversed(keys: Seq<Seq<i128>>, x: int, y: int)
    requires
        precedes(keys, x, y),
    ensures
        !key_lt(keys[y], keys[x]),
{
    lemma_key_irreflexive(keys[x]);
    if key_lt(keys[x], keys[y]) && key_lt(keys[y], keys[x]) {
        lemma_key_transitive(keys[x], keys[y], keys[x]);
    }
}

/// Sorted items without repeats: their keys rise strictly, each is one of the
/// items, and no key is lost.
pub proof fn lemma_sorted_dedup_items<A>(items: Seq<A>, keys: Seq<Seq<i128>>)
    requires
        items.len() == keys.len(),
        keys.len() <= usize::MAX,
    ensures
        ({
            let order = dedup_order(keys, stable_order(keys));
            &&& sorted_dedup(items, keys).len() == order.len()
            &&& forall|i: int| 0 <= i < order.len() ==> #[trigger] order[i] < items.len()
            &&& forall|i: int|
                0 <= i < order.len() ==> #[trigger] sorted_dedup(items, keys)[i]
                    == items[order[i] as int]
            &&& rising(keys, order)
            &&& forall|x: usize|
                x < keys.len() ==> #[trigger] holds_key_of(keys, order, x as int)
        }),
{
    lemma_stable_order_exists(keys);
    lemma_sorted_dedup(keys, stable_order(keys));
    lemma_dedup_within(keys, stable_order(keys), keys.len() as int);
}

/// Sorted items are the items, in an order in which no key is smaller than one
/// before it.
pub proof fn lemma_sorted_items<A>(items: Seq<A>, keys: Seq<Seq<i128>>)
    requires
        items.len() == keys.len(),
        keys.len() <= usize::MAX,
    ensures
        ({
            let order = stable_order(keys);
            &&& covers(order, 0, items.len() as int)
            &&& sorted(items, keys).len() == items.len()
            &&& forall|i: int|
                0 <= i < items.len() ==> #[trigger] sorted(items, keys)[i] == items[order[i] as int]
            &&& forall|i: int, j: int|
                0 <= i < j < items.len() ==> !key_lt(
                    keys[#[trigger] order[j] as int],
                    keys[#[trigger] order[i] as int],
                )
            &&& forall|i: int, j: int|
                0 <= i < j < items.len() ==> #[trigger] order[i] != #[trigger] order[j]
        }),
{
    lemma_stable_order_exists(keys);
    let order = stable_order(keys);
    assert forall|i: int, j: int| 0 <= i < j < items.len() implies !key_lt(
        keys[#[trigger] order[j] as int],
        keys[#[trigger] order[i] as int],
    ) && order[i] != order[j] by {
        assert(precedes(keys, order[i] as int, order[j] as int));
        lemma_precedes_not_reversed(keys, order[i] as int, order[j] as int);
        lemma_key_irreflexive(keys[order[i] as int]);
    }
}

/// No item is lost by sorting.
pub proof fn lemma_sorted_contains<A>(items: Seq<A>, keys: Seq<Seq<i128>>, x: int) -> (i: int)
    requires
        items.len() == keys.len(),
        keys.len() <= usize::MAX,
        0 <= x < items.len(),
    ensures
        0 <= i < sorted(items, keys).len(),
        sorted(items, keys)[i] == items[x],
{
    lemma_sorted_items(items, keys);
    let order = stable_order(keys);
    assert(order.contains(x as usize));
    let i = choose|i: int| 0 <= i < order.len() && order[i] == x as usize;
    assert(sorted(items, keys)[i] == items[order[i] as int]);
    i
}

/// No key is lost by sorting and dropping repeats.
pub proof fn lemma_sorted_dedup_contains<A>(items: Seq<A>, keys: Seq<Seq<i128>>, x: int) -> (r: (
    int,
    int,
))
    requires
        items.len() == keys.len(),
        keys.len() <= usize::MAX,
        0 <= x < items.len(),
    ensures
        0 <= r.0 < sorted_dedup(items, keys).len(),
        0 <= r.1 < items.len(),
        sorted_dedup(items, keys)[r.0] == items[r.1],
        keys[r.1] == keys[x],
{
    lemma_sorted_dedup_items(items, keys);
    let order = dedup_order(keys, stable_order(keys));
    assert(holds_key_of(keys, order, (x as usize) as int));
    let i = choose|i: int|
        0 <= i < order.len() && #[trigger] order[i] <= x && keys[order[i] as int] == keys[x];
    assert(sorted_dedup(items, keys)[i] == items[order[i] as int]);
    (i, order[i] as int)
}

/// `a` comes before `b` in the order of their characters: at the first place where they
/// differ, `a` has ended or has the character with the lower number.
pub open spec fn text_before(a: Seq<char>, b: Seq<char>) -> bool {
    exists|i: int| #[trigger]
        differ_at(a, b, i) && i < b.len() && (i == a.len() || (a[i] as u32) < (b[i] as u32))
}

/// `a` and `b` are the same up to `i`, and not there.
pub open spec fn differ_at(a: Seq<char>, b: Seq<char>, i: int) -> bool {
    &&& 0 <= i <= a.len()
    &&& i <= b.len()
    &&& a.take(i) == b.take(i)
    &&& i < a.len() && i < b.len() ==> a[i] != b[i]
}

/// Texts are sorted by their characters, like words in a dictionary.
pub proof fn lemma_texts_are_sorted_by_character(a: Seq<char>, b: Seq<char>)
    ensures
        key_lt(text_key(a), text_key(b)) <==> text_before(a, b),
    decreases a.len(),
{
    let ka = text_key(a);
    let kb = text_key(b);
    if a.len() == 0 || b.len() == 0 || a[0] != b[0] {
        assert(a.take(0) =~= b.take(0));
        if a.len() > 0 && b.len() > 0 {
            lemma_char_number(a[0], b[0]);
            assert(ka[0] != kb[0]);
        }
        if key_lt(ka, kb) {
            assert(differ_at(a, b, 0));
        }
        if text_before(a, b) {
            let i = choose|i: int| #[trigger]
                differ_at(a, b, i) && i < b.len() && (i == a.len() || (a[i] as u32) < (
                b[i] as u32));
            if i > 0 {
                assert(a.take(i)[0] == b.take(i)[0]);
            }
        }
    } else {
        let ra = a.drop_first();
        let rb = b.drop_first();
        lemma_texts_are_sorted_by_character(ra, rb);
        assert(ka.drop_first() =~= text_key(ra));
        assert(kb.drop_first() =~= text_key(rb));
        if text_before(ra, rb) {
            let i = choose|i: int| #[trigger]
                differ_at(ra, rb, i) && i < rb.len() && (i == ra.len() || (ra[i] as u32) < (
                rb[i] as u32));
            assert(a.take(i + 1) =~= seq![a[0]] + ra.take(i));
            assert(b.take(i + 1) =~= seq![b[0]] + rb.take(i));
            assert(differ_at(a, b, i + 1));
        }
        if text_before(a, b) {
            let i = choose|i: int| #[trigger]
                differ_at(a, b, i) && i < b.len() && (i == a.len() || (a[i] as u32) < (
                b[i] as u32));
            assert(i > 0);
            assert(ra.take(i - 1) =~= a.take(i).drop_first());
            assert(rb.take(i - 1) =~= b.take(i).drop_first());
            assert(differ_at(ra, rb, i - 1));
        }
    }
}

/// What is left of a list of positions without repeats has every key that the list has.
pub proof fn lemma_dedup_keeps_keys(keys: Seq<Seq<i128>>, order: Seq<usize>, p: int) -> (i: int)
    requires
        0 <= p < order.len(),
    ensures
        0 <= i < dedup_order(keys, order).len(),
        keys[dedup_order(keys, order)[i] as int] == keys[order[p] as int],
    decreases order.len(),
{
    let rest = order.drop_last();
    let kept = dedup_order(keys, order);
    if p < order.len() - 1 {
        let i = lemma_dedup_keeps_keys(keys, rest, p);
        assert(kept[i] == dedup_order(keys, rest)[i]);
        i
    } else {
        lemma_dedup_last(keys, order);
        kept.len() - 1
    }
}

/// Keys that tell apart the same positions leave the same positions without repeats.
pub proof fn lemma_dedup_alike(a: Seq<Seq<i128>>, b: Seq<Seq<i128>>, order: Seq<usize>)
    requires
        forall|i: int, j: int|
            0 <= i < order.len() && 0 <= j < order.len() ==> (a[#[trigger] order[i] as int]
                == a[#[trigger] order[j] as int] <==> b[order[i] as int] == b[order[j] as int]),
    ensures
        dedup_order(a, order) == dedup_order(b, order),
    decreases order.len(),
{
    if order.len() > 0 {
        let rest = order.drop_last();
        assert forall|i: int, j: int| 0 <= i < rest.len() && 0 <= j < rest.len() implies (
        a[#[trigger] rest[i] as int] == a[#[trigger] rest[j] as int] <==> b[rest[i] as int]
            == b[rest[j] as int]) by {
            assert(rest[i] == order[i] && rest[j] == order[j]);
        }
        lemma_dedup_alike(a, b, rest);
        if order.len() >= 2 {
            assert(order[order.len() - 1] == order.last());
            let last = order[order.len() - 1];
            let other = order[order.len() - 2];
            assert(a[last as int] == a[other as int] <==> b[last as int] == b[other as int]);
        }
    }
}

} // verus!
