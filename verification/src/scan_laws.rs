use crate::fs_node::{entry_at, FsModel};
use crate::order::{lemma_placement_total, sizes_along};
use crate::order_laws::{distinct_names, items_along, lemma_placement_of_same_keys};
use crate::scan_tree::{
    child_at, child_keys, lemma_child_keys_total, scan, scan_entries, sum_sizes, ScanModel,
};
use vstd::prelude::*;

verus! {

/// The indices of the entries of a listing that the scan keeps, in their
/// order.
pub open spec fn kept(entries: Seq<(Seq<char>, FsModel)>) -> Seq<int>
    decreases entries.len(),
{
    if entries.len() == 0 {
        Seq::empty()
    } else if scan(entries.last().1) is Some {
        kept(entries.drop_last()).push(entries.len() - 1)
    } else {
        kept(entries.drop_last())
    }
}

/// The children that the scan makes of a listing are the trees of the
/// entries it keeps, under their names and in their order, and it keeps
/// every entry that has a tree.
pub proof fn lemma_kept(entries: Seq<(Seq<char>, FsModel)>)
    ensures
        scan_entries(entries).len() == kept(entries).len(),
        forall|k: int|
            0 <= k < kept(entries).len() ==> 0 <= #[trigger] kept(entries)[k] < entries.len()
                && scan(entries[kept(entries)[k]].1) is Some && scan_entries(entries)[k] == (
                entries[kept(entries)[k]].0,
                scan(entries[kept(entries)[k]].1)->0,
            ),
        forall|a: int, b: int|
            0 <= a < b < kept(entries).len() ==> #[trigger] kept(entries)[a] < #[trigger] kept(
                entries,
            )[b],
        forall|i: int|
            #[trigger] entry_at(entries, i) && scan(entries[i].1) is Some ==> kept(entries).contains(
                i,
            ),
    decreases entries.len(),
{
    if entries.len() > 0 {
        let front = entries.drop_last();
        let last = entries.len() - 1;
        lemma_kept(front);
        let held = kept(entries);
        let before = kept(front);
        assert forall|k: int| 0 <= k < held.len() implies 0 <= #[trigger] held[k] < entries.len()
            && scan(entries[held[k]].1) is Some && scan_entries(entries)[k] == (
            entries[held[k]].0,
            scan(entries[held[k]].1)->0,
        ) by {
            if k < before.len() {
                assert(held[k] == before[k]);
                assert(front[before[k]] == entries[before[k]]);
                assert(scan_entries(entries)[k] == scan_entries(front)[k]);
            }
        }
        assert forall|a: int, b: int| 0 <= a < b < held.len() implies #[trigger] held[a]
            < #[trigger] held[b] by {
            assert(held[a] == before[a]);
            if b < before.len() {
                assert(held[b] == before[b]);
            }
        }
        assert forall|i: int| #[trigger]
            entry_at(entries, i) && scan(entries[i].1) is Some implies held.contains(i) by {
            if i < last {
                assert(entry_at(front, i));
                assert(front[i] == entries[i]);
                let k = choose|k: int| 0 <= k < before.len() && before[k] == i;
                assert(held[k] == i);
            } else {
                assert(held[held.len() - 1] == i);
            }
        }
    }
}

/// Where no directory that was read lists a name twice, no directory of
/// the scanned tree holds a name twice.
pub proof fn lemma_scan_names_unique(node: FsModel)
    requires
        node.names_unique(),
    ensures
        scan(node) matches Some(tree) ==> tree.names_unique(),
    decreases node,
{
    match node {
        FsModel::Dir { entries } => {
            let children = scan_entries(entries);
            let held = kept(entries);
            lemma_kept(entries);
            assert forall|a: int, b: int| 0 <= a < b < children.len() implies (
            #[trigger] children[a]).0 != (#[trigger] children[b]).0 by {
                assert(held[a] < held[b]);
                assert(entries[held[a]].0 != entries[held[b]].0);
            }
            assert forall|k: int| 0 <= k < children.len() implies (
            #[trigger] children[k]).1.names_unique() by {
                lemma_scan_names_unique(entries[held[k]].1);
            }
        },
        _ => {},
    }
}

/// Two sequences of children with the same names and sizes, in neither of
/// which a name occurs twice, have the same sum of sizes.
pub proof fn lemma_same_keys_same_sum(
    first: Seq<(Seq<char>, ScanModel)>,
    second: Seq<(Seq<char>, ScanModel)>,
)
    requires
        forall|x: (Seq<char>, nat)|
            child_keys(first).contains(x) <==> child_keys(second).contains(x),
        distinct_names(child_keys(first)),
        distinct_names(child_keys(second)),
    ensures
        sum_sizes(first) == sum_sizes(second),
{
    let keys = child_keys(first);
    let other_keys = child_keys(second);
    lemma_placement_of_same_keys(keys, other_keys);
    lemma_placement_total(keys);
    lemma_placement_total(other_keys);
    lemma_child_keys_total(first);
    lemma_child_keys_total(second);
    let placed = items_along(keys, crate::order::placement(keys));
    let other_placed = items_along(other_keys, crate::order::placement(other_keys));
    assert(sizes_along(keys, crate::order::placement(keys)) == sizes_along(
        other_keys,
        crate::order::placement(other_keys),
    )) by {
        assert forall|k: int| 0 <= k < placed.len() implies sizes_along(
            keys,
            crate::order::placement(keys),
        )[k] == sizes_along(other_keys, crate::order::placement(other_keys))[k] by {
            assert(placed[k] == other_placed[k]);
        }
    }
}

/// The scan does not depend on the order in which directories list their
/// entries: of two nodes that hold the same entries, with no name twice in
/// a listing, both are kept or both are left out, and the trees of those
/// kept hold the same entries, with the same sizes.
pub proof fn lemma_scan_ignores_order(first: FsModel, second: FsModel)
    requires
        first.same_entries(second),
        first.names_unique(),
        second.names_unique(),
    ensures
        scan(first) is Some <==> scan(second) is Some,
        scan(first) is Some ==> scan(first)->0.same_entries(scan(second)->0),
    decreases first,
{
    match first {
        FsModel::Dir { entries } => {
            let others = second->Dir_entries;
            let children = scan_entries(entries);
            let other_children = scan_entries(others);
            let held = kept(entries);
            let other_held = kept(others);
            lemma_kept(entries);
            lemma_kept(others);
            lemma_scan_names_unique(first);
            lemma_scan_names_unique(second);
            let tree = ScanModel::Dir { size: sum_sizes(children), children };
            let other_tree = ScanModel::Dir { size: sum_sizes(other_children), children: other_children };
            assert(scan(first) == Some(tree));
            assert(scan(second) == Some(other_tree));
            assert(tree.names_unique());
            assert(other_tree.names_unique());
            assert forall|k: int| #[trigger] child_at(children, k) implies exists|n: int|
                0 <= n < other_children.len() && (#[trigger] other_children[n]).0 == children[k].0
                    && children[k].1.same_entries(other_children[n].1) by {
                let i = held[k];
                assert(entry_at(entries, i));
                let j = choose|j: int|
                    0 <= j < others.len() && (#[trigger] others[j]).0 == entries[i].0
                        && entries[i].1.same_entries(others[j].1);
                lemma_scan_ignores_order(entries[i].1, others[j].1);
                assert(entry_at(others, j));
                let n = choose|n: int| 0 <= n < other_held.len() && other_held[n] == j;
                assert(other_children[n].0 == children[k].0);
            }
            assert forall|n: int| #[trigger] child_at(other_children, n) implies exists|k: int|
                0 <= k < children.len() && (#[trigger] children[k]).0 == other_children[n].0
                    && children[k].1.same_entries(other_children[n].1) by {
                let j = other_held[n];
                assert(entry_at(others, j));
                let i = choose|i: int|
                    0 <= i < entries.len() && (#[trigger] entries[i]).0 == others[j].0
                        && entries[i].1.same_entries(others[j].1);
                lemma_scan_ignores_order(entries[i].1, others[j].1);
                assert(entry_at(entries, i));
                let k = choose|k: int| 0 <= k < held.len() && held[k] == i;
                assert(children[k].0 == other_children[n].0);
            }
            let keys = child_keys(children);
            let other_keys = child_keys(other_children);
            assert forall|x: (Seq<char>, nat)| keys.contains(x) implies other_keys.contains(x) by {
                let k = choose|k: int| 0 <= k < keys.len() && keys[k] == x;
                assert(child_at(children, k));
                let n = choose|n: int|
                    0 <= n < other_children.len() && (#[trigger] other_children[n]).0
                        == children[k].0 && children[k].1.same_entries(other_children[n].1);
                lemma_same_entries_size(children[k].1, other_children[n].1);
                assert(other_keys[n] == x);
            }
            assert forall|x: (Seq<char>, nat)| other_keys.contains(x) implies keys.contains(x) by {
                let n = choose|n: int| 0 <= n < other_keys.len() && other_keys[n] == x;
                assert(child_at(other_children, n));
                let k = choose|k: int|
                    0 <= k < children.len() && (#[trigger] children[k]).0 == other_children[n].0
                        && children[k].1.same_entries(other_children[n].1);
                lemma_same_entries_size(children[k].1, other_children[n].1);
                assert(keys[k] == x);
            }
            lemma_names_unique_keys(tree);
            lemma_names_unique_keys(other_tree);
            lemma_same_keys_same_sum(children, other_children);
            assert(tree.same_entries(other_tree));
        },
        _ => {},
    }
}

/// Trees that hold the same entries have the same size.
pub proof fn lemma_same_entries_size(first: ScanModel, second: ScanModel)
    requires
        first.same_entries(second),
    ensures
        first.size() == second.size(),
{
}

/// Two directories that hold the same entries have children of the same
/// names and sizes.
pub proof fn lemma_same_entries_keys(first: ScanModel, second: ScanModel)
    requires
        first is Dir,
        first.same_entries(second),
    ensures
        forall|x: (Seq<char>, nat)|
            child_keys(first->Dir_children).contains(x) <==> child_keys(
                second->Dir_children,
            ).contains(x),
{
    let children = first->Dir_children;
    let others = second->Dir_children;
    let keys = child_keys(children);
    let other_keys = child_keys(others);
    assert forall|x: (Seq<char>, nat)| keys.contains(x) implies other_keys.contains(x) by {
        let i = choose|i: int| 0 <= i < keys.len() && keys[i] == x;
        assert(child_at(children, i));
        let j = choose|j: int|
            0 <= j < others.len() && (#[trigger] others[j]).0 == children[i].0
                && children[i].1.same_entries(others[j].1);
        assert(other_keys[j] == x);
    }
    assert forall|x: (Seq<char>, nat)| other_keys.contains(x) implies keys.contains(x) by {
        let j = choose|j: int| 0 <= j < other_keys.len() && other_keys[j] == x;
        assert(child_at(others, j));
        let i = choose|i: int|
            0 <= i < children.len() && (#[trigger] children[i]).0 == others[j].0
                && children[i].1.same_entries(others[j].1);
        assert(keys[i] == x);
    }
}

/// In a tree without a name twice in a directory, no name occurs twice
/// among the keys of the children of the root.
pub proof fn lemma_names_unique_keys(tree: ScanModel)
    requires
        tree is Dir,
        tree.names_unique(),
    ensures
        distinct_names(child_keys(tree->Dir_children)),
{
    let children = tree->Dir_children;
    let keys = child_keys(children);
    assert forall|i: int, j: int| 0 <= i < j < keys.len() implies (#[trigger] keys[i]).0 != (
    #[trigger] keys[j]).0 by {
        assert(children[i].0 != children[j].0);
    }
}

/// Every tree holds the same entries as itself.
pub proof fn lemma_same_entries_reflexive(tree: ScanModel)
    ensures
        tree.same_entries(tree),
    decreases tree,
{
    match tree {
        ScanModel::File { .. } => {},
        ScanModel::Dir { children, .. } => {
            assert forall|i: int| #[trigger] child_at(children, i) implies exists|j: int|
                0 <= j < children.len() && (#[trigger] children[j]).0 == children[i].0
                    && children[i].1.same_entries(children[j].1) by {
                lemma_same_entries_reflexive(children[i].1);
                assert(children[i].0 == children[i].0);
            }
            assert forall|j: int| #[trigger] child_at(children, j) implies exists|i: int|
                0 <= i < children.len() && (#[trigger] children[i]).0 == children[j].0
                    && children[i].1.same_entries(children[j].1) by {
                lemma_same_entries_reflexive(children[j].1);
                assert(children[j].0 == children[j].0);
            }
        },
    }
}

} // verus!
