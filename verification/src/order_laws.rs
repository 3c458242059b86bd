use crate::order::{
    bytes_before, comes_before, insert_ranked, lemma_comes_before_asymmetric,
    lemma_placement_of_first, placement, placement_of_first,
};
use vstd::prelude::*;
use vstd::seq_lib::{to_multiset_build, to_multiset_contains};
use vstd::utf8::{decode_utf8, encode_utf8, encode_utf8_decode_utf8};

verus! {

/// Every item of the sequence stands before all that follow it.
pub open spec fn strictly_sorted<T>(items: Seq<T>, before: spec_fn(T, T) -> bool) -> bool {
    forall|i: int, j: int| 0 <= i < j < items.len() ==> before(#[trigger] items[i], #[trigger] items[j])
}

/// Two sequences that hold the same items, each with every item before
/// all that follow it, are the same sequence, where no two items stand
/// before each other.
pub proof fn lemma_sorted_unique<T>(a: Seq<T>, b: Seq<T>, before: spec_fn(T, T) -> bool)
    requires
        forall|x: T| a.contains(x) <==> b.contains(x),
        strictly_sorted(a, before),
        strictly_sorted(b, before),
        forall|x: T, y: T| #[trigger] before(x, y) ==> !before(y, x),
    ensures
        a == b,
    decreases a.len(),
{
    if a.len() > 0 {
        assert(a.contains(a[0]));
        assert(b.contains(a[0]));
    }
    if b.len() > 0 {
        assert(b.contains(b[0]));
        assert(a.contains(b[0]));
    }
    if a.len() > 0 {
        let i = choose|i: int| 0 <= i < a.len() && a[i] == b[0];
        let j = choose|j: int| 0 <= j < b.len() && b[j] == a[0];
        if i > 0 && j > 0 {
            assert(before(a[0], a[i]));
            assert(before(b[0], b[j]));
        }
        assert(a[0] == b[0]);
        let rest_a = a.skip(1);
        let rest_b = b.skip(1);
        assert forall|x: T| rest_a.contains(x) implies rest_b.contains(x) by {
            let k = choose|k: int| 0 <= k < rest_a.len() && rest_a[k] == x;
            assert(before(a[0], a[k + 1]));
            assert(a.contains(x));
            let at = choose|at: int| 0 <= at < b.len() && b[at] == x;
            assert(at > 0);
            assert(rest_b[at - 1] == x);
        }
        assert forall|x: T| rest_b.contains(x) implies rest_a.contains(x) by {
            let k = choose|k: int| 0 <= k < rest_b.len() && rest_b[k] == x;
            assert(before(b[0], b[k + 1]));
            assert(b.contains(x));
            let at = choose|at: int| 0 <= at < a.len() && a[at] == x;
            assert(at > 0);
            assert(rest_a[at - 1] == x);
        }
        assert forall|i: int, j: int| 0 <= i < j < rest_a.len() implies before(
            #[trigger] rest_a[i],
            #[trigger] rest_a[j],
        ) by {
            assert(rest_a[i] == a[i + 1] && rest_a[j] == a[j + 1]);
        }
        assert forall|i: int, j: int| 0 <= i < j < rest_b.len() implies before(
            #[trigger] rest_b[i],
            #[trigger] rest_b[j],
        ) by {
            assert(rest_b[i] == b[i + 1] && rest_b[j] == b[j + 1]);
        }
        lemma_sorted_unique(rest_a, rest_b, before);
        assert forall|k: int| 0 <= k < a.len() implies a[k] == b[k] by {
            if k > 0 {
                assert(a[k] == rest_a[k - 1]);
                assert(b[k] == rest_b[k - 1]);
            }
        }
        assert(a.len() == rest_a.len() + 1 && b.len() == rest_b.len() + 1);
        assert(a == b);
    } else {
        assert(a == b);
    }
}

/// Standing before in the order of the dictionary carries over.
pub proof fn lemma_bytes_before_transitive(a: Seq<u8>, b: Seq<u8>, c: Seq<u8>)
    requires
        bytes_before(a, b),
        bytes_before(b, c),
    ensures
        bytes_before(a, c),
    decreases a.len(),
{
    if a.len() > 0 && b.len() > 0 && c.len() > 0 && a[0] == b[0] && b[0] == c[0] {
        lemma_bytes_before_transitive(a.skip(1), b.skip(1), c.skip(1));
    }
}

/// Of two different sequences of bytes one stands before the other.
pub proof fn lemma_bytes_before_total(a: Seq<u8>, b: Seq<u8>)
    requires
        a != b,
    ensures
        bytes_before(a, b) || bytes_before(b, a),
    decreases a.len(),
{
    if a.len() > 0 && b.len() > 0 && a[0] == b[0] {
        if a.skip(1) == b.skip(1) {
            assert(a.len() == a.skip(1).len() + 1);
            assert(b.len() == b.skip(1).len() + 1);
            assert forall|k: int| 0 <= k < a.len() implies a[k] == b[k] by {
                if k > 0 {
                    assert(a[k] == a.skip(1)[k - 1]);
                    assert(b[k] == b.skip(1)[k - 1]);
                }
            }
            assert(a =~= b);
        }
        lemma_bytes_before_total(a.skip(1), b.skip(1));
    } else if a.len() == 0 && b.len() == 0 {
        assert(a =~= b);
    }
}

/// Coming before carries over.
pub proof fn lemma_comes_before_transitive(
    a: (Seq<char>, nat),
    b: (Seq<char>, nat),
    c: (Seq<char>, nat),
)
    requires
        comes_before(a, b),
        comes_before(b, c),
    ensures
        comes_before(a, c),
{
    if a.1 == b.1 && b.1 == c.1 {
        lemma_bytes_before_transitive(encode_utf8(a.0), encode_utf8(b.0), encode_utf8(c.0));
    }
}

/// Of two keys with different names one comes before the other.
pub proof fn lemma_comes_before_total(a: (Seq<char>, nat), b: (Seq<char>, nat))
    requires
        a.0 != b.0,
    ensures
        comes_before(a, b) || comes_before(b, a),
{
    if a.1 == b.1 {
        encode_utf8_decode_utf8(a.0);
        encode_utf8_decode_utf8(b.0);
        assert(encode_utf8(a.0) != encode_utf8(b.0)) by {
            if encode_utf8(a.0) == encode_utf8(b.0) {
                assert(decode_utf8(encode_utf8(a.0)) == decode_utf8(encode_utf8(b.0)));
            }
        }
        lemma_bytes_before_total(encode_utf8(a.0), encode_utf8(b.0));
    }
}

/// The items that `order` names, in its order.
pub open spec fn items_along<T>(items: Seq<T>, order: Seq<int>) -> Seq<T> {
    Seq::new(order.len(), |k: int| items[order[k]])
}

/// No index occurs twice in `order`.
pub open spec fn distinct(order: Seq<int>) -> bool {
    forall|a: int, b: int| 0 <= a < b < order.len() ==> #[trigger] order[a] != #[trigger] order[b]
}

/// No name occurs twice among the keys.
pub open spec fn distinct_names(keys: Seq<(Seq<char>, nat)>) -> bool {
    forall|i: int, j: int| 0 <= i < j < keys.len() ==> (#[trigger] keys[i]).0 != (#[trigger] keys[j]).0
}

/// Putting an index into an order that does not hold it yet adds that
/// index and no other, and no index occurs twice afterwards.
pub proof fn lemma_insert_ranked_distinct(keys: Seq<(Seq<char>, nat)>, order: Seq<int>, i: int)
    requires
        distinct(order),
        forall|k: int| 0 <= k < order.len() ==> #[trigger] order[k] != i,
    ensures
        distinct(insert_ranked(keys, order, i)),
        forall|k: int|
            0 <= k < insert_ranked(keys, order, i).len() ==> #[trigger] insert_ranked(
                keys,
                order,
                i,
            )[k] == i || order.contains(insert_ranked(keys, order, i)[k]),
    decreases order.len(),
{
    let put = insert_ranked(keys, order, i);
    if order.len() == 0 {
    } else if comes_before(keys[i], keys[order.last()]) {
        let front = order.drop_last();
        let inner = insert_ranked(keys, front, i);
        assert forall|a: int, b: int| 0 <= a < b < front.len() implies #[trigger] front[a]
            != #[trigger] front[b] by {
            assert(front[a] == order[a] && front[b] == order[b]);
        }
        assert forall|k: int| 0 <= k < front.len() implies #[trigger] front[k] != i by {
            assert(front[k] == order[k]);
        }
        lemma_insert_ranked_distinct(keys, front, i);
        assert(put == inner.push(order.last()));
        assert forall|k: int| 0 <= k < put.len() implies #[trigger] put[k] == i || order.contains(
            put[k],
        ) by {
            if k < inner.len() {
                assert(put[k] == inner[k]);
                if inner[k] != i {
                    let at = choose|at: int| 0 <= at < front.len() && front[at] == inner[k];
                    assert(order[at] == inner[k]);
                }
            } else {
                assert(order[order.len() - 1] == put[k]);
            }
        }
        assert forall|a: int, b: int| 0 <= a < b < put.len() implies #[trigger] put[a]
            != #[trigger] put[b] by {
            if b < inner.len() {
                assert(put[a] == inner[a] && put[b] == inner[b]);
            } else {
                assert(put[a] == inner[a]);
                if inner[a] != i {
                    let at = choose|at: int| 0 <= at < front.len() && front[at] == inner[a];
                    assert(order[at] == inner[a]);
                    assert(order[order.len() - 1] == put[b]);
                } else {
                    assert(order[order.len() - 1] != i);
                }
            }
        }
    } else {
        assert(put == order.push(i));
        assert forall|k: int| 0 <= k < put.len() implies #[trigger] put[k] == i || order.contains(
            put[k],
        ) by {
            if k < order.len() {
                assert(order[k] == put[k]);
            }
        }
        assert forall|a: int, b: int| 0 <= a < b < put.len() implies #[trigger] put[a]
            != #[trigger] put[b] by {
            assert(put[a] == order[a]);
            if b < order.len() {
                assert(put[b] == order[b]);
            }
        }
    }
}

/// No index occurs twice in the order of the first `n` keys.
pub proof fn lemma_placement_of_first_distinct(keys: Seq<(Seq<char>, nat)>, n: int)
    requires
        0 <= n <= keys.len(),
    ensures
        distinct(placement_of_first(keys, n)),
        forall|k: int|
            0 <= k < placement_of_first(keys, n).len() ==> 0 <= #[trigger] placement_of_first(
                keys,
                n,
            )[k] < n,
    decreases n,
{
    if n > 0 {
        let before = placement_of_first(keys, n - 1);
        let put = placement_of_first(keys, n);
        lemma_placement_of_first_distinct(keys, n - 1);
        lemma_insert_ranked_distinct(keys, before, n - 1);
        assert forall|k: int| 0 <= k < put.len() implies 0 <= #[trigger] put[k] < n by {
            if put[k] != n - 1 {
                let at = choose|at: int| 0 <= at < before.len() && before[at] == put[k];
                assert(0 <= before[at] < n - 1);
            }
        }
    }
}

/// Putting an index into an order adds the item at that index to the
/// items along the order.
pub proof fn lemma_insert_ranked_items<T>(
    items: Seq<T>,
    keys: Seq<(Seq<char>, nat)>,
    order: Seq<int>,
    i: int,
)
    ensures
        items_along(items, insert_ranked(keys, order, i)).to_multiset() == items_along(
            items,
            order,
        ).to_multiset().insert(items[i]),
    decreases order.len(),
{
    let put = insert_ranked(keys, order, i);
    if order.len() > 0 && comes_before(keys[i], keys[order.last()]) {
        let front = order.drop_last();
        let inner = insert_ranked(keys, front, i);
        let last = items[order.last()];
        lemma_insert_ranked_items(items, keys, front, i);
        assert(items_along(items, put) == items_along(items, inner).push(last));
        assert(items_along(items, order) == items_along(items, front).push(last));
        to_multiset_build(items_along(items, inner), last);
        to_multiset_build(items_along(items, front), last);
        assert(items_along(items, front).to_multiset().insert(items[i]).insert(last)
            =~= items_along(items, front).to_multiset().insert(last).insert(items[i]));
    } else {
        assert(put == order.push(i));
        assert(items_along(items, put) == items_along(items, order).push(items[i]));
        to_multiset_build(items_along(items, order), items[i]);
    }
}

/// The items along the order of the first `n` keys are the first `n`
/// items, each as often as it occurs among them.
pub proof fn lemma_placement_of_first_items<T>(items: Seq<T>, keys: Seq<(Seq<char>, nat)>, n: int)
    requires
        0 <= n <= items.len(),
    ensures
        items_along(items, placement_of_first(keys, n)).to_multiset() == items.take(
            n,
        ).to_multiset(),
    decreases n,
{
    if n > 0 {
        lemma_placement_of_first_items(items, keys, n - 1);
        lemma_insert_ranked_items(items, keys, placement_of_first(keys, n - 1), n - 1);
        assert(items.take(n) == items.take(n - 1).push(items[n - 1]));
        to_multiset_build(items.take(n - 1), items[n - 1]);
    } else {
        assert(items_along(items, placement_of_first(keys, n)) == items.take(n));
    }
}

/// Along the placement of keys with different names, every key comes
/// before all that follow it.
pub proof fn lemma_placement_strictly_sorted(keys: Seq<(Seq<char>, nat)>, a: int, b: int)
    requires
        distinct_names(keys),
        0 <= a < b < keys.len(),
    ensures
        comes_before(keys[placement(keys)[a]], keys[placement(keys)[b]]),
    decreases b - a,
{
    let order = placement(keys);
    let n = keys.len() as int;
    lemma_placement_of_first(keys, n);
    lemma_placement_of_first_distinct(keys, n);
    let x = order[b - 1];
    let y = order[b];
    assert(x != y);
    assert(!comes_before(keys[order[(b - 1) + 1]], keys[order[b - 1]]));
    if x < y {
        assert(keys[x].0 != keys[y].0);
    } else {
        assert(keys[y].0 != keys[x].0);
    }
    lemma_comes_before_total(keys[x], keys[y]);
    if a < b - 1 {
        lemma_placement_strictly_sorted(keys, a, b - 1);
        lemma_comes_before_transitive(keys[order[a]], keys[x], keys[y]);
    }
}

/// The keys along the placement are the keys that were placed.
pub proof fn lemma_placed_keys_are_keys(keys: Seq<(Seq<char>, nat)>, x: (Seq<char>, nat))
    ensures
        items_along(keys, placement(keys)).contains(x) <==> keys.contains(x),
        items_along(keys, placement(keys)).len() == keys.len(),
{
    lemma_placement_of_first(keys, keys.len() as int);
    lemma_placement_of_first_items(keys, keys, keys.len() as int);
    assert(keys.take(keys.len() as int) == keys);
    to_multiset_contains(items_along(keys, placement(keys)), x);
    to_multiset_contains(keys, x);
}

/// The placement does not depend on the order in which the keys come: two
/// sequences that hold the same keys, in each of which no name occurs
/// twice, are placed in the same order.
pub proof fn lemma_placement_of_same_keys(a: Seq<(Seq<char>, nat)>, b: Seq<(Seq<char>, nat)>)
    requires
        forall|x: (Seq<char>, nat)| a.contains(x) <==> b.contains(x),
        distinct_names(a),
        distinct_names(b),
    ensures
        items_along(a, placement(a)) == items_along(b, placement(b)),
        a.len() == b.len(),
{
    let before = |x: (Seq<char>, nat), y: (Seq<char>, nat)| comes_before(x, y);
    let placed_a = items_along(a, placement(a));
    let placed_b = items_along(b, placement(b));
    lemma_placement_of_first(a, a.len() as int);
    lemma_placement_of_first(b, b.len() as int);
    assert forall|x: (Seq<char>, nat)| placed_a.contains(x) <==> placed_b.contains(x) by {
        lemma_placed_keys_are_keys(a, x);
        lemma_placed_keys_are_keys(b, x);
    }
    assert forall|i: int, j: int| 0 <= i < j < placed_a.len() implies before(
        #[trigger] placed_a[i],
        #[trigger] placed_a[j],
    ) by {
        lemma_placement_strictly_sorted(a, i, j);
    }
    assert forall|i: int, j: int| 0 <= i < j < placed_b.len() implies before(
        #[trigger] placed_b[i],
        #[trigger] placed_b[j],
    ) by {
        lemma_placement_strictly_sorted(b, i, j);
    }
    assert forall|x: (Seq<char>, nat), y: (Seq<char>, nat)| #[trigger] before(x, y) implies !before(
        y,
        x,
    ) by {
        lemma_comes_before_asymmetric(x, y);
    }
    lemma_sorted_unique(placed_a, placed_b, before);
}

/// The item `i` is placed before the item `j`: its key comes before, or
/// neither key comes before the other and `i` came first.
pub open spec fn precedes(keys: Seq<(Seq<char>, nat)>, i: int, j: int) -> bool {
    comes_before(keys[i], keys[j]) || (!comes_before(keys[j], keys[i]) && i < j)
}

/// Keys of which neither comes before the other have the same size and
/// names of the same bytes.
pub proof fn lemma_neither_before(a: (Seq<char>, nat), b: (Seq<char>, nat))
    requires
        !comes_before(a, b),
        !comes_before(b, a),
    ensures
        a.1 == b.1,
        encode_utf8(a.0) == encode_utf8(b.0),
{
    if encode_utf8(a.0) != encode_utf8(b.0) {
        lemma_bytes_before_total(encode_utf8(a.0), encode_utf8(b.0));
    }
}

/// Being placed before carries over.
pub proof fn lemma_precedes_transitive(keys: Seq<(Seq<char>, nat)>, i: int, j: int, k: int)
    requires
        precedes(keys, i, j),
        precedes(keys, j, k),
    ensures
        precedes(keys, i, k),
{
    if comes_before(keys[i], keys[j]) {
        if comes_before(keys[j], keys[k]) {
            lemma_comes_before_transitive(keys[i], keys[j], keys[k]);
        } else {
            lemma_neither_before(keys[j], keys[k]);
        }
    } else {
        lemma_neither_before(keys[i], keys[j]);
        if !comes_before(keys[j], keys[k]) {
            lemma_neither_before(keys[j], keys[k]);
        }
    }
}

/// Of two items at most one is placed before the other.
pub proof fn lemma_precedes_asymmetric(keys: Seq<(Seq<char>, nat)>, i: int, j: int)
    requires
        precedes(keys, i, j),
    ensures
        !precedes(keys, j, i),
{
    if comes_before(keys[i], keys[j]) {
        lemma_comes_before_asymmetric(keys[i], keys[j]);
    }
}

/// Each index of `order` is placed before the next.
pub open spec fn stable(keys: Seq<(Seq<char>, nat)>, order: Seq<int>) -> bool {
    forall|k: int| 0 <= k < order.len() - 1 ==> precedes(keys, #[trigger] order[k], order[k + 1])
}

/// In an order of which each index is placed before the next, each is
/// placed before all that follow it.
pub proof fn lemma_stable_all_pairs(keys: Seq<(Seq<char>, nat)>, order: Seq<int>, a: int, b: int)
    requires
        stable(keys, order),
        0 <= a < b < order.len(),
    ensures
        precedes(keys, order[a], order[b]),
    decreases b - a,
{
    if a + 1 < b {
        lemma_stable_all_pairs(keys, order, a, b - 1);
        assert(precedes(keys, order[b - 1], order[(b - 1) + 1]));
        lemma_precedes_transitive(keys, order[a], order[b - 1], order[b]);
    }
}

/// Putting an index that is greater than all of an order into it keeps
/// each index placed before the next.
pub proof fn lemma_insert_ranked_stable(keys: Seq<(Seq<char>, nat)>, order: Seq<int>, i: int)
    requires
        stable(keys, order),
        forall|k: int| 0 <= k < order.len() ==> #[trigger] order[k] < i,
    ensures
        stable(keys, insert_ranked(keys, order, i)),
        insert_ranked(keys, order, i).len() == order.len() + 1,
        insert_ranked(keys, order, i).last() == i || (order.len() > 0 && insert_ranked(
            keys,
            order,
            i,
        ).last() == order.last()),
    decreases order.len(),
{
    let put = insert_ranked(keys, order, i);
    if order.len() == 0 {
    } else if comes_before(keys[i], keys[order.last()]) {
        let front = order.drop_last();
        let inner = insert_ranked(keys, front, i);
        assert forall|k: int| 0 <= k < front.len() - 1 implies precedes(
            keys,
            #[trigger] front[k],
            front[k + 1],
        ) by {
            assert(front[k] == order[k] && front[k + 1] == order[k + 1]);
        }
        assert forall|k: int| 0 <= k < front.len() implies #[trigger] front[k] < i by {
            assert(front[k] == order[k]);
        }
        lemma_insert_ranked_stable(keys, front, i);
        assert(put == inner.push(order.last()));
        assert forall|k: int| 0 <= k < put.len() - 1 implies precedes(
            keys,
            #[trigger] put[k],
            put[k + 1],
        ) by {
            if k + 1 < inner.len() {
                assert(put[k] == inner[k] && put[k + 1] == inner[k + 1]);
            } else {
                assert(put[k] == inner.last());
                assert(put[k + 1] == order.last());
                if inner.last() != i {
                    assert(front.last() == order[order.len() - 2]);
                    assert(order.last() == order[(order.len() - 2) + 1]);
                }
            }
        }
    } else {
        assert(put == order.push(i));
        assert forall|k: int| 0 <= k < put.len() - 1 implies precedes(
            keys,
            #[trigger] put[k],
            put[k + 1],
        ) by {
            if k + 1 < order.len() {
                assert(put[k] == order[k] && put[k + 1] == order[k + 1]);
            } else {
                assert(put[k] == order[order.len() - 1]);
                assert(put[k + 1] == i);
            }
        }
    }
}

/// In the order of the first `n` keys each index is placed before the
/// next.
pub proof fn lemma_placement_of_first_stable(keys: Seq<(Seq<char>, nat)>, n: int)
    requires
        0 <= n <= keys.len(),
    ensures
        stable(keys, placement_of_first(keys, n)),
    decreases n,
{
    if n > 0 {
        lemma_placement_of_first_stable(keys, n - 1);
        lemma_placement_of_first_distinct(keys, n - 1);
        lemma_insert_ranked_stable(keys, placement_of_first(keys, n - 1), n - 1);
    }
}

/// The placement holds every index of the keys.
pub proof fn lemma_placement_holds(keys: Seq<(Seq<char>, nat)>, x: int)
    ensures
        placement(keys).contains(x) <==> 0 <= x < keys.len(),
{
    let n = keys.len() as int;
    let all = Seq::new(keys.len(), |i: int| i);
    lemma_placement_of_first(keys, n);
    lemma_placement_of_first_items(all, keys, n);
    assert(all.take(n) == all);
    assert(items_along(all, placement(keys)) == placement(keys));
    to_multiset_contains(placement(keys), x);
    to_multiset_contains(all, x);
    if 0 <= x < n {
        assert(all[x] == x);
    }
}

/// The placement is the one order that holds every index of the keys once
/// and in which each index is placed before the next.
pub proof fn lemma_placement_is(keys: Seq<(Seq<char>, nat)>, order: Seq<int>)
    requires
        stable(keys, order),
        forall|x: int| order.contains(x) <==> 0 <= x < keys.len(),
    ensures
        order == placement(keys),
{
    let before = |i: int, j: int| precedes(keys, i, j);
    let placed = placement(keys);
    lemma_placement_of_first_stable(keys, keys.len() as int);
    assert forall|x: int| order.contains(x) <==> placed.contains(x) by {
        lemma_placement_holds(keys, x);
    }
    assert forall|a: int, b: int| 0 <= a < b < order.len() implies before(
        #[trigger] order[a],
        #[trigger] order[b],
    ) by {
        lemma_stable_all_pairs(keys, order, a, b);
    }
    assert forall|a: int, b: int| 0 <= a < b < placed.len() implies before(
        #[trigger] placed[a],
        #[trigger] placed[b],
    ) by {
        lemma_stable_all_pairs(keys, placed, a, b);
    }
    assert forall|i: int, j: int| #[trigger] before(i, j) implies !before(j, i) by {
        lemma_precedes_asymmetric(keys, i, j);
    }
    lemma_sorted_unique(order, placed, before);
}

} // verus!
