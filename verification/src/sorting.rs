//! Stable ordering of entries by a pair of text keys.
//!
//! Entries are named by their position in the key list. The order computed
//! here lists the positions so that keys ascend, and entries with the same key
//! keep the order in which they were given.

use vstd::prelude::*;
use vstd::seq_lib::seq_to_set_is_finite;
use vstd::std_specs::vec::vec_index_mut;
use vstd::set_lib::{lemma_int_range, lemma_subset_equality, set_int_range};
use crate::text::{is_lex_less, lex_less, lemma_lex_less_total, lemma_lex_less_transitive};

verus! {

/// The key of one entry: compared by `primary` first, then by `secondary`.
#[derive(Debug)]
pub struct SortKey {
    pub primary: Vec<char>,
    pub secondary: Vec<char>,
}

/// The mathematical value of a [`SortKey`].
pub struct SortKeyView {
    pub primary: Seq<char>,
    pub secondary: Seq<char>,
}

impl View for SortKey {
    type V = SortKeyView;

    open spec fn view(&self) -> SortKeyView {
        SortKeyView { primary: self.primary@, secondary: self.secondary@ }
    }
}

/// The values of a list of keys.
pub open spec fn key_views(keys: Seq<SortKey>) -> Seq<SortKeyView> {
    keys.map_values(|k: SortKey| k@)
}

/// Whether key `a` is strictly smaller than key `b`.
pub open spec fn key_less(a: SortKeyView, b: SortKeyView) -> bool {
    lex_less(a.primary, b.primary) || (a.primary == b.primary && lex_less(
        a.secondary,
        b.secondary,
    ))
}

/// Whether entry `i` stands before entry `j`: it has the smaller key, or the
/// same key and the earlier position.
pub open spec fn precedes(keys: Seq<SortKeyView>, i: int, j: int) -> bool {
    key_less(keys[i], keys[j]) || (keys[i] == keys[j] && i < j)
}

/// Whether `order` lists positions of `keys` in strictly ascending order.
pub open spec fn ascends(order: Seq<usize>, keys: Seq<SortKeyView>) -> bool {
    forall|a: int, b: int|
        0 <= a < b < order.len() ==> precedes(keys, #[trigger] order[a] as int, #[trigger] order[b] as int)
}

/// Whether `order` is the stable ascending order of `keys`: it lists every
/// position of `keys` once, each entry before all that it precedes.
pub open spec fn is_stable_order(order: Seq<usize>, keys: Seq<SortKeyView>) -> bool {
    &&& order.len() == keys.len()
    &&& forall|k: int| 0 <= k < order.len() ==> 0 <= #[trigger] order[k] < keys.len()
    &&& ascends(order, keys)
}

/// Whether `out` holds the entries of `items` in the order that `order` names.
pub open spec fn arranged<T>(out: Seq<T>, items: Seq<T>, order: Seq<usize>) -> bool {
    &&& out.len() == order.len()
    &&& forall|k: int| 0 <= k < out.len() ==> #[trigger] out[k] == items[order[k] as int]
}

/// Whether `out` holds `items` sorted by `keys`, the key of each item at
/// its position: ascending, items with the same key in the order of `items`.
pub open spec fn is_sorted_by_key<T>(out: Seq<T>, items: Seq<T>, keys: Seq<SortKeyView>) -> bool {
    exists|order: Seq<usize>| #[trigger] is_stable_order(order, keys) && arranged(out, items, order)
}

/// The keys of a list of entries.
pub open spec fn entry_keys<T>(entries: Seq<(SortKey, T)>) -> Seq<SortKeyView> {
    Seq::new(entries.len(), |k: int| entries[k].0@)
}

/// The items of a list of entries.
pub open spec fn entry_items<T>(entries: Seq<(SortKey, T)>) -> Seq<T> {
    Seq::new(entries.len(), |k: int| entries[k].1)
}

/// Of two keys, one is smaller or they are the same key.
pub proof fn lemma_key_trichotomy(a: SortKeyView, b: SortKeyView)
    ensures
        a == b ==> !key_less(a, b) && !key_less(b, a),
        a != b ==> key_less(a, b) != key_less(b, a),
{
    lemma_lex_less_total(a.primary, b.primary);
    lemma_lex_less_total(a.secondary, b.secondary);
}

/// The order on keys is transitive.
pub proof fn lemma_key_less_transitive(a: SortKeyView, b: SortKeyView, c: SortKeyView)
    requires
        key_less(a, b),
        key_less(b, c),
    ensures
        key_less(a, c),
{
    lemma_lex_less_total(a.primary, b.primary);
    lemma_lex_less_total(b.primary, c.primary);
    if lex_less(a.primary, b.primary) && lex_less(b.primary, c.primary) {
        lemma_lex_less_transitive(a.primary, b.primary, c.primary);
    }
    if a.primary == b.primary && b.primary == c.primary {
        lemma_lex_less_transitive(a.secondary, b.secondary, c.secondary);
    }
}

/// The order on entries is transitive.
pub proof fn lemma_precedes_transitive(keys: Seq<SortKeyView>, i: int, j: int, k: int)
    requires
        precedes(keys, i, j),
        precedes(keys, j, k),
    ensures
        precedes(keys, i, k),
{
    if key_less(keys[i], keys[j]) && key_less(keys[j], keys[k]) {
        lemma_key_less_transitive(keys[i], keys[j], keys[k]);
    }
}

/// No entry precedes itself, and of two entries exactly one precedes the other.
pub proof fn lemma_precedes_total(keys: Seq<SortKeyView>, i: int, j: int)
    ensures
        !precedes(keys, i, i),
        i != j ==> precedes(keys, i, j) != precedes(keys, j, i),
{
    lemma_key_trichotomy(keys[i], keys[i]);
    lemma_key_trichotomy(keys[i], keys[j]);
}

/// A stable order names every position.
pub proof fn lemma_stable_order_is_onto(order: Seq<usize>, keys: Seq<SortKeyView>, position: int)
    requires
        is_stable_order(order, keys),
        0 <= position < keys.len(),
    ensures
        exists|j: int| 0 <= j < order.len() && #[trigger] order[j] == position,
{
    let n = keys.len() as int;
    let named = Seq::new(order.len(), |k: int| order[k] as int);
    assert forall|i: int, j: int|
        0 <= i < named.len() && 0 <= j < named.len() && i != j implies named[i] != named[j] by {
        lemma_precedes_total(keys, named[i], named[i]);
        if i < j {
            assert(precedes(keys, order[i] as int, order[j] as int));
        } else {
            assert(precedes(keys, order[j] as int, order[i] as int));
        }
    }
    named.unique_seq_to_set();
    seq_to_set_is_finite(named);
    lemma_int_range(0, n);
    assert forall|v: int| named.to_set().contains(v) implies set_int_range(0, n).contains(v) by {
        let k = choose|k: int| 0 <= k < named.len() && named[k] == v;
        assert(0 <= order[k] < keys.len());
    }
    lemma_subset_equality(named.to_set(), set_int_range(0, n));
    assert(set_int_range(0, n).contains(position));
    assert(named.contains(position));
    let j = choose|j: int| 0 <= j < named.len() && named[j] == position;
    assert(order[j] == position);
}

proof fn lemma_stable_orders_agree(
    first: Seq<usize>,
    second: Seq<usize>,
    keys: Seq<SortKeyView>,
    upto: int,
)
    requires
        is_stable_order(first, keys),
        is_stable_order(second, keys),
        0 <= upto <= keys.len(),
    ensures
        forall|i: int| 0 <= i < upto ==> first[i] == second[i],
    decreases upto,
{
    if upto > 0 {
        lemma_stable_orders_agree(first, second, keys, upto - 1);
        let m = upto - 1;
        let x = first[m] as int;
        let y = second[m] as int;
        if x != y {
            lemma_stable_order_is_onto(second, keys, x);
            let j = choose|j: int| 0 <= j < second.len() && #[trigger] second[j] == x;
            if j < m {
                assert(first[j] == second[j]);
                assert(precedes(keys, first[j] as int, first[m] as int));
                lemma_precedes_total(keys, x, x);
            }
            assert(precedes(keys, second[m] as int, second[j] as int));
            lemma_stable_order_is_onto(first, keys, y);
            let i = choose|i: int| 0 <= i < first.len() && #[trigger] first[i] == y;
            if i < m {
                assert(first[i] == second[i]);
                assert(precedes(keys, second[i] as int, second[m] as int));
                lemma_precedes_total(keys, y, y);
            }
            assert(precedes(keys, first[m] as int, first[i] as int));
            lemma_precedes_total(keys, x, y);
        }
    }
}

/// Keys have one stable order and no other.
pub proof fn lemma_stable_order_unique(
    first: Seq<usize>,
    second: Seq<usize>,
    keys: Seq<SortKeyView>,
)
    requires
        is_stable_order(first, keys),
        is_stable_order(second, keys),
    ensures
        first == second,
{
    lemma_stable_orders_agree(first, second, keys, keys.len() as int);
    assert(first =~= second);
}

/// Items have one sorted arrangement by their keys and no other.
pub proof fn lemma_sorted_by_key_unique<T>(
    first: Seq<T>,
    second: Seq<T>,
    items: Seq<T>,
    keys: Seq<SortKeyView>,
)
    requires
        is_sorted_by_key(first, items, keys),
        is_sorted_by_key(second, items, keys),
    ensures
        first == second,
{
    let one = choose|order: Seq<usize>| #[trigger]
        is_stable_order(order, keys) && arranged(first, items, order);
    let two = choose|order: Seq<usize>| #[trigger]
        is_stable_order(order, keys) && arranged(second, items, order);
    lemma_stable_order_unique(one, two, keys);
    assert(first =~= second);
}

/// Tests whether key `a` is strictly smaller than key `b`.
pub fn key_is_less(a: &SortKey, b: &SortKey) -> (less: bool)
    ensures
        less == key_less(a@, b@),
{
    proof {
        lemma_lex_less_total(a.primary@, b.primary@);
    }
    if is_lex_less(&a.primary, &b.primary) {
        true
    } else if is_lex_less(&b.primary, &a.primary) {
        false
    } else {
        is_lex_less(&a.secondary, &b.secondary)
    }
}

/// Merges two ascending runs, the first over positions from `lo` up to
/// `mid` and the second over positions from `mid` up to `hi`.
fn merge_runs(
    keys: &Vec<SortKey>,
    left: &Vec<usize>,
    right: &Vec<usize>,
    Ghost(lo): Ghost<int>,
    Ghost(mid): Ghost<int>,
    Ghost(hi): Ghost<int>,
) -> (out: Vec<usize>)
    requires
        0 <= lo <= mid <= hi <= keys.len(),
        ascends(left@, key_views(keys@)),
        ascends(right@, key_views(keys@)),
        forall|p: int| 0 <= p < left.len() ==> lo <= #[trigger] left[p] < mid,
        forall|q: int| 0 <= q < right.len() ==> mid <= #[trigger] right[q] < hi,
        left.len() + right.len() <= usize::MAX,
    ensures
        out.len() == left.len() + right.len(),
        ascends(out@, key_views(keys@)),
        forall|k: int| 0 <= k < out.len() ==> lo <= #[trigger] out[k] < hi,
{
    let ghost kv = key_views(keys@);
    let mut out: Vec<usize> = Vec::new();
    let mut i: usize = 0;
    let mut j: usize = 0;
    while i < left.len() || j < right.len()
        invariant
            kv == key_views(keys@),
            i <= left.len(),
            j <= right.len(),
            out.len() == i + j,
            left.len() + right.len() <= usize::MAX,
            ascends(left@, kv),
            ascends(right@, kv),
            ascends(out@, kv),
            0 <= lo <= mid <= hi <= keys.len(),
            forall|p: int| 0 <= p < left.len() ==> lo <= #[trigger] left[p] < mid,
            forall|q: int| 0 <= q < right.len() ==> mid <= #[trigger] right[q] < hi,
            forall|a: int, p: int|
                0 <= a < out.len() && i <= p < left.len() ==> precedes(
                    kv,
                    #[trigger] out[a] as int,
                    #[trigger] left[p] as int,
                ),
            forall|a: int, q: int|
                0 <= a < out.len() && j <= q < right.len() ==> precedes(
                    kv,
                    #[trigger] out[a] as int,
                    #[trigger] right[q] as int,
                ),
            forall|k: int| 0 <= k < out.len() ==> lo <= #[trigger] out[k] < hi,
        decreases left.len() + right.len() - i - j,
    {
        let ghost before = out@;
        let take_left: bool = if i == left.len() {
            false
        } else if j == right.len() {
            true
        } else {
            !key_is_less(&keys[right[j]], &keys[left[i]])
        };
        if take_left {
            let x: usize = left[i];
            proof {
                if j < right.len() {
                    let y = right[j as int];
                    lemma_key_trichotomy(kv[x as int], kv[y as int]);
                    assert(precedes(kv, x as int, y as int));
                    assert forall|q: int| j < q < right.len() implies precedes(
                        kv,
                        x as int,
                        #[trigger] right[q] as int,
                    ) by {
                        assert(precedes(kv, right[j as int] as int, right[q] as int));
                        lemma_precedes_transitive(kv, x as int, y as int, right[q] as int);
                    }
                }
                assert forall|p: int| i < p < left.len() implies precedes(
                    kv,
                    x as int,
                    #[trigger] left[p] as int,
                ) by {
                    assert(precedes(kv, left[i as int] as int, left[p] as int));
                }
            }
            out.push(x);
            i += 1;
            assert(out@[out.len() - 1] == left[i - 1]);
        } else {
            let y: usize = right[j];
            proof {
                if i < left.len() {
                    let x = left[i as int];
                    assert(precedes(kv, y as int, x as int));
                    assert forall|p: int| i < p < left.len() implies precedes(
                        kv,
                        y as int,
                        #[trigger] left[p] as int,
                    ) by {
                        assert(precedes(kv, left[i as int] as int, left[p] as int));
                        lemma_precedes_transitive(kv, y as int, x as int, left[p] as int);
                    }
                }
                assert forall|q: int| j < q < right.len() implies precedes(
                    kv,
                    y as int,
                    #[trigger] right[q] as int,
                ) by {
                    assert(precedes(kv, right[j as int] as int, right[q] as int));
                }
            }
            out.push(y);
            j += 1;
            assert(out@[out.len() - 1] == right[j - 1]);
        }
        proof {
            assert forall|k: int| 0 <= k < out.len() implies lo <= #[trigger] out[k] < hi by {
                if k < before.len() {
                    assert(out[k] == before[k]);
                }
            }
            assert forall|a: int, b: int| 0 <= a < b < out.len() implies precedes(
                kv,
                #[trigger] out[a] as int,
                #[trigger] out[b] as int,
            ) by {
                if b < before.len() {
                    assert(out[a] == before[a] && out[b] == before[b]);
                } else {
                    assert(out[a] == before[a]);
                }
            }
        }
    }
    out
}

/// The ascending run over the positions from `lo` up to `hi`.
fn order_range(keys: &Vec<SortKey>, lo: usize, hi: usize) -> (out: Vec<usize>)
    requires
        lo <= hi <= keys.len(),
    ensures
        out.len() == hi - lo,
        ascends(out@, key_views(keys@)),
        forall|k: int| 0 <= k < out.len() ==> lo <= #[trigger] out[k] < hi,
    decreases hi - lo,
{
    if hi - lo == 0 {
        return Vec::new();
    }
    if hi - lo == 1 {
        let mut single: Vec<usize> = Vec::new();
        single.push(lo);
        return single;
    }
    let mid: usize = lo + (hi - lo) / 2;
    let left = order_range(keys, lo, mid);
    let right = order_range(keys, mid, hi);
    merge_runs(keys, &left, &right, Ghost(lo as int), Ghost(mid as int), Ghost(hi as int))
}

/// Computes the stable ascending order of `keys`.
pub fn stable_order(keys: &Vec<SortKey>) -> (order: Vec<usize>)
    ensures
        is_stable_order(order@, key_views(keys@)),
{
    order_range(keys, 0, keys.len())
}

fn take_slot<T>(slots: &mut Vec<Option<T>>, at: usize) -> (item: Option<T>)
    requires
        at < old(slots)@.len(),
    ensures
        item == old(slots)@[at as int],
        final(slots)@ == old(slots)@.update(at as int, None),
{
    let slot = vec_index_mut(slots, at);
    slot.take()
}

/// Sorts items by the key that each comes with: ascending, items with
/// the same key in the order in which they were given.
pub fn sort_by_key<T>(entries: Vec<(SortKey, T)>) -> (out: Vec<T>)
    ensures
        is_sorted_by_key(out@, entry_items(entries@), entry_keys(entries@)),
{
    let ghost all = entries@;
    let ghost items = entry_items(all);
    let mut keys: Vec<SortKey> = Vec::new();
    let mut slots: Vec<Option<T>> = Vec::new();
    for entry in it: entries
        invariant
            it.seq() == all,
            keys@.len() == it.index(),
            slots@.len() == it.index(),
            forall|k: int| 0 <= k < it.index() ==> (#[trigger] keys@[k])@ == all[k].0@,
            forall|k: int| 0 <= k < it.index() ==> #[trigger] slots@[k] == Some(all[k].1),
    {
        let (key, item) = entry;
        keys.push(key);
        slots.push(Some(item));
    }
    let ghost key_list = entry_keys(all);
    assert(key_views(keys@) =~= key_list);
    let order = stable_order(&keys);
    let mut out: Vec<T> = Vec::new();
    let mut k: usize = 0;
    while k < order.len()
        invariant
            k <= order.len(),
            out.len() == k,
            slots@.len() == all.len(),
            items == entry_items(all),
            is_stable_order(order@, key_list),
            key_list.len() == all.len(),
            forall|p: int| 0 <= p < k ==> #[trigger] out@[p] == items[order@[p] as int],
            forall|s: int|
                0 <= s < slots@.len() ==> #[trigger] slots@[s] == Some(all[s].1) || exists|q: int|
                    0 <= q < k && #[trigger] order@[q] == s,
        decreases order.len() - k,
    {
        let at: usize = order[k];
        let ghost before = slots@;
        proof {
            assert forall|q: int| 0 <= q < k implies order@[q] != at by {
                assert(precedes(key_list, order@[q] as int, order@[k as int] as int));
                lemma_precedes_total(key_list, at as int, at as int);
            }
            assert(before[at as int] == Some(all[at as int].1));
        }
        let item = take_slot(&mut slots, at);
        match item {
            Some(value) => {
                out.push(value);
            },
            None => {},
        }
        proof {
            assert forall|s: int| 0 <= s < slots@.len() implies #[trigger] slots@[s] == Some(
                all[s].1,
            ) || exists|q: int| 0 <= q < k + 1 && #[trigger] order@[q] == s by {
                if s == at {
                    assert(order@[k as int] == s);
                } else {
                    assert(slots@[s] == before[s]);
                    if before[s] != Some(all[s].1) {
                        let q = choose|q: int| 0 <= q < k && #[trigger] order@[q] == s;
                        assert(0 <= q < k + 1 && order@[q] == s);
                    }
                }
            }
        }
        k += 1;
    }
    assert(arranged(out@, items, order@));
    out
}

} // verus!
