use crate::order_laws::{lemma_placement_is, precedes, stable};
use vstd::prelude::*;
use vstd::utf8::encode_utf8;

verus! {

/// `a` stands before `b` in the order of the dictionary, byte by byte.
pub open spec fn bytes_before(a: Seq<u8>, b: Seq<u8>) -> bool
    decreases a.len(),
{
    if b.len() == 0 {
        false
    } else if a.len() == 0 {
        true
    } else if a[0] != b[0] {
        a[0] < b[0]
    } else {
        bytes_before(a.skip(1), b.skip(1))
    }
}

/// The child `a` is placed before the child `b`: it is the larger one, or
/// of the same size and its name stands first by its UTF-8 bytes.
pub open spec fn comes_before(a: (Seq<char>, nat), b: (Seq<char>, nat)) -> bool {
    a.1 > b.1 || (a.1 == b.1 && bytes_before(
        encode_utf8(a.0),
        encode_utf8(b.0),
    ))
}

/// The order `order` of some children with the child `i` put in: behind
/// every child that it does not come before.
pub open spec fn insert_ranked(
    keys: Seq<(Seq<char>, nat)>,
    order: Seq<int>,
    i: int,
) -> Seq<int>
    decreases order.len(),
{
    if order.len() == 0 {
        seq![i]
    } else if comes_before(keys[i], keys[order.last()]) {
        insert_ranked(keys, order.drop_last(), i).push(order.last())
    } else {
        order.push(i)
    }
}

/// The order in which the first `n` children are placed, as their indices.
pub open spec fn placement_of_first(keys: Seq<(Seq<char>, nat)>, n: int) -> Seq<int>
    decreases n,
{
    if n <= 0 {
        Seq::empty()
    } else {
        insert_ranked(keys, placement_of_first(keys, n - 1), n - 1)
    }
}

/// The order in which the children of a directory are placed, as their
/// indices: by size, largest first, and children of one size by name.
/// Children that agree in both keep the order they came in. It is the one
/// order that holds every index once and places each before the next
/// (`order_laws::lemma_placement_is`).
pub open spec fn placement(keys: Seq<(Seq<char>, nat)>) -> Seq<int> {
    placement_of_first(keys, keys.len() as int)
}

/// Whether the bytes of `a` stand before those of `b`.
fn slice_before(a: &[u8], b: &[u8]) -> (before: bool)
    ensures
        before == bytes_before(a@, b@),
{
    let mut i: usize = 0;
    assert(a@.skip(0) == a@);
    assert(b@.skip(0) == b@);
    while i < a.len() && i < b.len() && a[i] == b[i]
        invariant
            i <= a.len(),
            i <= b.len(),
            bytes_before(a@, b@) == bytes_before(a@.skip(i as int), b@.skip(i as int)),
        decreases a.len() - i,
    {
        assert(a@.skip(i as int).skip(1) == a@.skip(i + 1));
        assert(b@.skip(i as int).skip(1) == b@.skip(i + 1));
        i = i + 1;
    }
    if i >= b.len() {
        false
    } else if i >= a.len() {
        true
    } else {
        a[i] < b[i]
    }
}

/// Something that has a place among its siblings: a name and a size.
pub trait Ranked {
    /// The name and the size by which the item is placed.
    spec fn key(&self) -> (Seq<char>, nat);

    /// Whether the item is placed before `other`.
    fn placed_before(&self, other: &Self) -> (before: bool)
        ensures
            before == comes_before(self.key(), other.key()),
    ;
}

/// Whether an item of size `size_a` and name `a` is placed before one of
/// size `size_b` and name `b`.
pub fn key_before(size_a: u64, a: &str, size_b: u64, b: &str) -> (before: bool)
    ensures
        before == comes_before((a@, size_a as nat), (b@, size_b as nat)),
{
    if size_a != size_b {
        size_a > size_b
    } else {
        slice_before(a.as_bytes(), b.as_bytes())
    }
}

/// The keys of some items, in their order.
pub open spec fn keys_of<T: Ranked>(items: Seq<T>) -> Seq<(Seq<char>, nat)> {
    Seq::new(items.len(), |i: int| items[i].key())
}

/// The indices of `order` as integers.
pub open spec fn indices(order: Seq<usize>) -> Seq<int> {
    Seq::new(order.len(), |k: int| order[k] as int)
}

/// Whether `x` is among the first `n` of `order`.
pub open spec fn among_first(order: Seq<usize>, n: int, x: int) -> bool {
    exists|k: int| 0 <= k < n && k < order.len() && #[trigger] order[k] == x
}

/// Merges two runs of indices, each in its order, into one: every index of
/// the first run came before every index of the second.
fn merge<T: Ranked>(items: &Vec<T>, left: &Vec<usize>, right: &Vec<usize>) -> (merged: Vec<usize>)
    requires
        stable(keys_of(items@), indices(left@)),
        stable(keys_of(items@), indices(right@)),
        forall|k: int| 0 <= k < left@.len() ==> (#[trigger] left@[k]) < items@.len(),
        forall|k: int| 0 <= k < right@.len() ==> (#[trigger] right@[k]) < items@.len(),
        forall|a: int, b: int|
            0 <= a < left@.len() && 0 <= b < right@.len() ==> (#[trigger] left@[a]) < (
            #[trigger] right@[b]),
        left@.len() + right@.len() <= usize::MAX,
    ensures
        stable(keys_of(items@), indices(merged@)),
        merged@.len() == left@.len() + right@.len(),
        forall|x: int|
            among_first(merged@, merged@.len() as int, x) <==> among_first(
                left@,
                left@.len() as int,
                x,
            ) || among_first(right@, right@.len() as int, x),
{
    let ghost keys = keys_of(items@);
    let mut merged: Vec<usize> = Vec::new();
    let mut i: usize = 0;
    let mut j: usize = 0;
    while i < left.len() || j < right.len()
        invariant
            i <= left@.len(),
            j <= right@.len(),
            merged@.len() == i + j,
            keys == keys_of(items@),
            stable(keys, indices(left@)),
            stable(keys, indices(right@)),
            forall|k: int| 0 <= k < left@.len() ==> (#[trigger] left@[k]) < items@.len(),
            forall|k: int| 0 <= k < right@.len() ==> (#[trigger] right@[k]) < items@.len(),
            forall|a: int, b: int|
                0 <= a < left@.len() && 0 <= b < right@.len() ==> (#[trigger] left@[a]) < (
                #[trigger] right@[b]),
            left@.len() + right@.len() <= usize::MAX,
            stable(keys, indices(merged@)),
            merged@.len() > 0 && i < left@.len() ==> precedes(
                keys,
                merged@[merged@.len() - 1] as int,
                left@[i as int] as int,
            ),
            merged@.len() > 0 && j < right@.len() ==> precedes(
                keys,
                merged@[merged@.len() - 1] as int,
                right@[j as int] as int,
            ),
            forall|x: int|
                among_first(merged@, merged@.len() as int, x) <==> among_first(left@, i as int, x)
                    || among_first(right@, j as int, x),
        decreases (left@.len() - i) + (right@.len() - j),
    {
        let from_right = if i == left.len() {
            true
        } else if j == right.len() {
            false
        } else {
            items[right[j]].placed_before(&items[left[i]])
        };
        let ghost held = merged@;
        let next = if from_right {
            right[j]
        } else {
            left[i]
        };
        proof {
            if i < left@.len() && j < right@.len() {
                assert(left@[i as int] < right@[j as int]);
            }
            if !from_right && i + 1 < left@.len() {
                assert(indices(left@)[i as int] == left@[i as int]);
                assert(indices(left@)[i + 1] == left@[i + 1]);
                assert(precedes(keys, indices(left@)[i as int], indices(left@)[i + 1]));
            }
            if from_right && j + 1 < right@.len() {
                assert(indices(right@)[j as int] == right@[j as int]);
                assert(indices(right@)[j + 1] == right@[j + 1]);
                assert(precedes(keys, indices(right@)[j as int], indices(right@)[j + 1]));
            }
        }
        merged.push(next);
        proof {
            let grown = indices(merged@);
            assert forall|k: int| 0 <= k < grown.len() - 1 implies precedes(
                keys,
                #[trigger] grown[k],
                grown[k + 1],
            ) by {
                if k + 1 < held.len() {
                    assert(indices(held)[k] == grown[k]);
                    assert(indices(held)[k + 1] == grown[k + 1]);
                } else {
                    assert(grown[k] == held[held.len() - 1]);
                    assert(grown[k + 1] == next);
                }
            }
            let ni: int = if from_right {
                i as int
            } else {
                i + 1
            };
            let nj: int = if from_right {
                j + 1
            } else {
                j as int
            };
            assert forall|x: int|
                among_first(merged@, merged@.len() as int, x) <==> among_first(left@, ni, x)
                    || among_first(right@, nj, x) by {
                if among_first(merged@, merged@.len() as int, x) {
                    let k = choose|k: int|
                        0 <= k < merged@.len() && k < merged@.len() && #[trigger] merged@[k] == x;
                    if k < held.len() {
                        assert(held[k] == x);
                        assert(among_first(held, held.len() as int, x));
                        if among_first(left@, i as int, x) {
                            let a = choose|a: int|
                                0 <= a < i && a < left@.len() && #[trigger] left@[a] == x;
                            assert(left@[a] == x);
                        } else {
                            let b = choose|b: int|
                                0 <= b < j && b < right@.len() && #[trigger] right@[b] == x;
                            assert(right@[b] == x);
                        }
                    } else if from_right {
                        assert(right@[j as int] == x);
                    } else {
                        assert(left@[i as int] == x);
                    }
                }
                if among_first(left@, ni, x) {
                    let a = choose|a: int| 0 <= a < ni && a < left@.len() && #[trigger] left@[a] == x;
                    if a < i {
                        assert(among_first(left@, i as int, x));
                        let k = choose|k: int|
                            0 <= k < held.len() && k < held.len() && #[trigger] held[k] == x;
                        assert(merged@[k] == x);
                    } else {
                        assert(merged@[held.len() as int] == x);
                    }
                }
                if among_first(right@, nj, x) {
                    let b = choose|b: int|
                        0 <= b < nj && b < right@.len() && #[trigger] right@[b] == x;
                    if b < j {
                        assert(among_first(right@, j as int, x));
                        let k = choose|k: int|
                            0 <= k < held.len() && k < held.len() && #[trigger] held[k] == x;
                        assert(merged@[k] == x);
                    } else {
                        assert(merged@[held.len() as int] == x);
                    }
                }
            }
        }
        if from_right {
            j = j + 1;
        } else {
            i = i + 1;
        }
    }
    merged
}

/// The order in which the items from `lo` up to `hi` are placed among
/// themselves.
fn sort_range<T: Ranked>(items: &Vec<T>, lo: usize, hi: usize) -> (order: Vec<usize>)
    requires
        lo <= hi <= items@.len(),
    ensures
        order@.len() == hi - lo,
        stable(keys_of(items@), indices(order@)),
        forall|x: int| among_first(order@, order@.len() as int, x) <==> lo <= x < hi,
    decreases hi - lo,
{
    let mut order: Vec<usize> = Vec::new();
    if hi - lo == 0 {
        return order;
    }
    if hi - lo == 1 {
        order.push(lo);
        assert forall|x: int| among_first(order@, order@.len() as int, x) <==> lo <= x < hi by {
            if lo <= x < hi {
                assert(order@[0] == x);
            }
        }
        return order;
    }
    let mid = lo + (hi - lo) / 2;
    let left = sort_range(items, lo, mid);
    let right = sort_range(items, mid, hi);
    proof {
        assert forall|k: int| 0 <= k < left@.len() implies lo <= (#[trigger] left@[k]) < mid by {
            assert(among_first(left@, left@.len() as int, left@[k] as int));
        }
        assert forall|k: int| 0 <= k < right@.len() implies mid <= (#[trigger] right@[k]) < hi by {
            assert(among_first(right@, right@.len() as int, right@[k] as int));
        }
    }
    merge(items, &left, &right)
}

/// The order in which some items are placed, as their indices.
pub fn placement_order<T: Ranked>(items: &Vec<T>) -> (order: Vec<usize>)
    ensures
        indices(order@) == placement(keys_of(items@)),
        order@.len() == items@.len(),
        forall|k: int| 0 <= k < order@.len() ==> (#[trigger] order@[k]) < items@.len(),
{
    let order = sort_range(items, 0, items.len());
    proof {
        let keys = keys_of(items@);
        let listed = indices(order@);
        assert forall|x: int| listed.contains(x) <==> 0 <= x < keys.len() by {
            if listed.contains(x) {
                let k = choose|k: int| 0 <= k < listed.len() && listed[k] == x;
                assert(order@[k] == x);
                assert(among_first(order@, order@.len() as int, x));
            }
            if 0 <= x < keys.len() {
                assert(among_first(order@, order@.len() as int, x));
                let k = choose|k: int|
                    0 <= k < order@.len() && k < order@.len() && #[trigger] order@[k] == x;
                assert(listed[k] == x);
            }
        }
        lemma_placement_is(keys, listed);
        assert forall|k: int| 0 <= k < order@.len() implies (#[trigger] order@[k])
            < items@.len() by {
            assert(among_first(order@, order@.len() as int, order@[k] as int));
        }
    }
    order
}

/// Of two sequences of bytes at most one stands before the other.
pub proof fn lemma_bytes_before_asymmetric(a: Seq<u8>, b: Seq<u8>)
    requires
        bytes_before(a, b),
    ensures
        !bytes_before(b, a),
    decreases a.len(),
{
    if a.len() > 0 && b.len() > 0 && a[0] == b[0] {
        lemma_bytes_before_asymmetric(a.skip(1), b.skip(1));
    }
}

/// Of two children at most one comes before the other.
pub proof fn lemma_comes_before_asymmetric(a: (Seq<char>, nat), b: (Seq<char>, nat))
    requires
        comes_before(a, b),
    ensures
        !comes_before(b, a),
{
    if a.1 == b.1 {
        lemma_bytes_before_asymmetric(encode_utf8(a.0), encode_utf8(b.0));
    }
}

/// The children of `order` are in range, and each is followed only by
/// children that do not come before it.
pub open spec fn ranked(keys: Seq<(Seq<char>, nat)>, order: Seq<int>) -> bool {
    &&& forall|k: int| 0 <= k < order.len() ==> 0 <= #[trigger] order[k] < keys.len()
    &&& forall|k: int|
        0 <= k < order.len() - 1 ==> !comes_before(
            keys[#[trigger] order[k + 1]],
            keys[order[k]],
        )
}

/// Putting a child into a ranked order gives a ranked order that is one
/// longer and ends with that child or as the order did.
pub proof fn lemma_insert_ranked(keys: Seq<(Seq<char>, nat)>, order: Seq<int>, i: int)
    requires
        ranked(keys, order),
        0 <= i < keys.len(),
    ensures
        ranked(keys, insert_ranked(keys, order, i)),
        insert_ranked(keys, order, i).len() == order.len() + 1,
        insert_ranked(keys, order, i).last() == i || (order.len() > 0 && insert_ranked(
            keys,
            order,
            i,
        ).last() == order.last()),
    decreases order.len(),
{
    let put = insert_ranked(keys, order, i);
    if order.len() == 0 {
    } else if comes_before(keys[i], keys[order.last()]) {
        let front = order.drop_last();
        let inner = insert_ranked(keys, front, i);
        assert forall|k: int| 0 <= k < front.len() - 1 implies !comes_before(
            keys[#[trigger] front[k + 1]],
            keys[front[k]],
        ) by {
            assert(front[k + 1] == order[k + 1]);
        }
        lemma_insert_ranked(keys, front, i);
        lemma_comes_before_asymmetric(keys[i], keys[order.last()]);
        assert(put == inner.push(order.last()));
        assert forall|k: int| 0 <= k < put.len() - 1 implies !comes_before(
            keys[#[trigger] put[k + 1]],
            keys[put[k]],
        ) by {
            if k + 1 < inner.len() {
                assert(put[k + 1] == inner[k + 1]);
                assert(put[k] == inner[k]);
            } else {
                assert(put[k + 1] == order.last());
                assert(put[k] == inner.last());
                if inner.last() != i {
                    assert(front.last() == order[order.len() - 2]);
                    assert(order.last() == order[(order.len() - 2) + 1]);
                }
            }
        }
    } else {
        assert(put == order.push(i));
        assert forall|k: int| 0 <= k < put.len() - 1 implies !comes_before(
            keys[#[trigger] put[k + 1]],
            keys[put[k]],
        ) by {
            if k + 1 < order.len() {
                assert(put[k + 1] == order[k + 1]);
            }
        }
    }
}

/// The order of the first `n` children is ranked and holds `n` of them.
pub proof fn lemma_placement_of_first(keys: Seq<(Seq<char>, nat)>, n: int)
    requires
        0 <= n <= keys.len(),
    ensures
        ranked(keys, placement_of_first(keys, n)),
        placement_of_first(keys, n).len() == n,
    decreases n,
{
    if n > 0 {
        lemma_placement_of_first(keys, n - 1);
        lemma_insert_ranked(keys, placement_of_first(keys, n - 1), n - 1);
    }
}

/// The placement of the children of a directory holds as many indices as
/// there are children, each of them in range, and no child in it is
/// followed by one that comes before it: so sizes never grow along it.
pub proof fn lemma_placement_ranked(keys: Seq<(Seq<char>, nat)>)
    ensures
        placement(keys).len() == keys.len(),
        ranked(keys, placement(keys)),
        forall|k: int|
            0 <= k < keys.len() - 1 ==> keys[placement(keys)[k]].1
                >= keys[#[trigger] placement(keys)[k + 1]].1,
{
    lemma_placement_of_first(keys, keys.len() as int);
}

/// The sum of a sequence of numbers.
pub open spec fn total(numbers: Seq<int>) -> int
    decreases numbers.len(),
{
    if numbers.len() == 0 {
        0
    } else {
        total(numbers.drop_last()) + numbers.last()
    }
}

/// The sizes of some keys, in their order.
pub open spec fn sizes_of(keys: Seq<(Seq<char>, nat)>) -> Seq<int> {
    Seq::new(keys.len(), |i: int| keys[i].1 as int)
}

/// The sizes of the children that `order` names, in its order.
pub open spec fn sizes_along(keys: Seq<(Seq<char>, nat)>, order: Seq<int>) -> Seq<int> {
    Seq::new(order.len(), |k: int| keys[order[k]].1 as int)
}

/// Putting a child into an order adds its size to the sum of the sizes.
pub proof fn lemma_insert_ranked_total(
    keys: Seq<(Seq<char>, nat)>,
    order: Seq<int>,
    i: int,
)
    ensures
        total(sizes_along(keys, insert_ranked(keys, order, i))) == total(
            sizes_along(keys, order),
        ) + keys[i].1,
    decreases order.len(),
{
    let put = insert_ranked(keys, order, i);
    if order.len() == 0 {
        assert(sizes_along(keys, put).drop_last() == sizes_along(keys, order));
    } else if comes_before(keys[i], keys[order.last()]) {
        let front = order.drop_last();
        let inner = insert_ranked(keys, front, i);
        lemma_insert_ranked_total(keys, front, i);
        assert(sizes_along(keys, put).drop_last() == sizes_along(keys, inner));
        assert(sizes_along(keys, order).drop_last() == sizes_along(keys, front));
    } else {
        assert(sizes_along(keys, put).drop_last() == sizes_along(keys, order));
    }
}

/// The sizes along the order of the first `n` children sum to what the
/// sizes of those children sum to.
pub proof fn lemma_placement_of_first_total(keys: Seq<(Seq<char>, nat)>, n: int)
    requires
        0 <= n <= keys.len(),
    ensures
        total(sizes_along(keys, placement_of_first(keys, n))) == total(sizes_of(keys.take(n))),
    decreases n,
{
    if n > 0 {
        lemma_placement_of_first_total(keys, n - 1);
        lemma_insert_ranked_total(keys, placement_of_first(keys, n - 1), n - 1);
        assert(sizes_of(keys.take(n)).drop_last() == sizes_of(keys.take(n - 1)));
    } else {
        assert(sizes_along(keys, placement_of_first(keys, n)).len() == 0);
    }
}

/// Placing the children of a directory keeps the sum of their sizes.
pub proof fn lemma_placement_total(keys: Seq<(Seq<char>, nat)>)
    ensures
        total(sizes_along(keys, placement(keys))) == total(sizes_of(keys)),
{
    lemma_placement_of_first_total(keys, keys.len() as int);
    assert(keys.take(keys.len() as int) == keys);
}

/// The sum of the first `k` of some numbers that are not negative is not
/// negative and not more than the sum of all.
pub proof fn lemma_total_prefix(numbers: Seq<int>, k: int)
    requires
        0 <= k <= numbers.len(),
        forall|j: int| 0 <= j < numbers.len() ==> 0 <= #[trigger] numbers[j],
    ensures
        0 <= total(numbers.take(k)) <= total(numbers),
        k < numbers.len() ==> total(numbers.take(k + 1)) == total(numbers.take(k)) + numbers[k],
    decreases numbers.len() - k,
{
    if k < numbers.len() {
        assert(numbers.take(k + 1).drop_last() == numbers.take(k));
        lemma_total_prefix(numbers, k + 1);
        lemma_total_nonnegative(numbers.take(k));
    } else {
        assert(numbers.take(k) == numbers);
        lemma_total_nonnegative(numbers);
    }
}

/// The sum of numbers that are not negative is not negative.
pub proof fn lemma_total_nonnegative(numbers: Seq<int>)
    requires
        forall|j: int| 0 <= j < numbers.len() ==> 0 <= #[trigger] numbers[j],
    ensures
        0 <= total(numbers),
    decreases numbers.len(),
{
    if numbers.len() > 0 {
        assert forall|j: int| 0 <= j < numbers.drop_last().len() implies 0
            <= #[trigger] numbers.drop_last()[j] by {
            assert(numbers.drop_last()[j] == numbers[j]);
        }
        lemma_total_nonnegative(numbers.drop_last());
    }
}

} // verus!
