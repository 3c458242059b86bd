use crate::order::{indices, keys_of, lemma_placement_ranked, placement, placement_order};
use crate::scan_tree::{child_keys, children_view, ScanModel, ScanTree};
use crate::layout_laws::lemma_same_entries_placed;
use crate::render_tree::Rect;
use vstd::prelude::*;

verus! {

/// A tree of names and sizes: what an exporter writes out.
#[derive(Debug, PartialEq, Eq)]
pub enum ExportTree {
    Dir { name: String, size: u64, children: Vec<ExportTree> },
    File { name: String, size: u64 },
}

/// The mathematical value of an [`ExportTree`].
pub enum ExportModel {
    Dir { name: Seq<char>, size: nat, children: Seq<ExportModel> },
    File { name: Seq<char>, size: nat },
}

impl ExportModel {
    /// The size that the node carries.
    pub open spec fn size(self) -> nat {
        match self {
            ExportModel::Dir { size, .. } => size,
            ExportModel::File { size, .. } => size,
        }
    }

    /// In every directory of the tree the children stand by size, the
    /// largest first.
    pub open spec fn sorted_by_size(self) -> bool
        decreases self,
    {
        match self {
            ExportModel::Dir { children, .. } => {
                &&& forall|k: int|
                    0 <= k < children.len() - 1 ==> children[k].size() >= (
                    #[trigger] children[k + 1]).size()
                &&& forall|k: int|
                    0 <= k < children.len() ==> (#[trigger] children[k]).sorted_by_size()
            },
            ExportModel::File { .. } => true,
        }
    }
}

/// The export tree of `tree` under the name `name`: every node with its
/// name and size, the children of each directory in the order of
/// `placement`.
pub open spec fn export(tree: ScanModel, name: Seq<char>) -> ExportModel
    decreases tree,
{
    match tree {
        ScanModel::File { size, .. } => ExportModel::File { name, size },
        ScanModel::Dir { size, children } => ExportModel::Dir {
            name,
            size,
            children: Seq::new(
                children.len(),
                |k: int|
                    {
                        let i = placement(child_keys(children))[k];
                        if 0 <= i < children.len() {
                            export(children[i].1, children[i].0)
                        } else {
                            ExportModel::File { name, size }
                        }
                    },
            ),
        },
    }
}

/// In every directory of an export tree the children stand by size, the
/// largest first, and every node carries the size it had.
pub proof fn lemma_export_sorted(tree: ScanModel, name: Seq<char>)
    ensures
        export(tree, name).sorted_by_size(),
        export(tree, name).size() == tree.size(),
    decreases tree,
{
    match tree {
        ScanModel::Dir { size, children } => {
            let placed = export(tree, name)->Dir_children;
            let order = placement(child_keys(children));
            lemma_placement_ranked(child_keys(children));
            assert forall|k: int| 0 <= k < placed.len() implies (
            #[trigger] placed[k]).sorted_by_size() && placed[k].size() == children[order[k]].1.size() by {
                lemma_export_sorted(children[order[k]].1, children[order[k]].0);
            }
            assert forall|k: int| 0 <= k < placed.len() - 1 implies placed[k].size() >= (
            #[trigger] placed[k + 1]).size() by {
                assert(placed[k].size() == children[order[k]].1.size());
                assert(placed[k + 1].size() == children[order[k + 1]].1.size());
            }
        },
        ScanModel::File { .. } => {},
    }
}

impl View for ExportTree {
    type V = ExportModel;

    open spec fn view(&self) -> ExportModel
        decreases self,
    {
        match self {
            ExportTree::Dir { name, size, children } => ExportModel::Dir {
                name: name@,
                size: *size as nat,
                children: exports_view(children@),
            },
            ExportTree::File { name, size } => ExportModel::File {
                name: name@,
                size: *size as nat,
            },
        }
    }
}

/// The values of some nodes, in their order.
pub open spec fn exports_view(nodes: Seq<ExportTree>) -> Seq<ExportModel>
    decreases nodes,
{
    Seq::new(
        nodes.len(),
        |i: int|
            if 0 <= i < nodes.len() {
                nodes[i]@
            } else {
                ExportModel::File { name: Seq::empty(), size: 0 }
            },
    )
}

impl ExportTree {
    /// The size that the node carries.
    pub fn get_size(&self) -> (size: u64)
        ensures
            size == self@.size(),
    {
        match self {
            ExportTree::Dir { size, .. } => *size,
            ExportTree::File { size, .. } => *size,
        }
    }

    /// The export tree of `tree` under the name `name`.
    pub fn from_scan_tree(tree: ScanTree, name: String) -> (exported: ExportTree)
        ensures
            exported@ == export(tree@, name@),
            exported@.sorted_by_size(),
    {
        proof {
            lemma_export_sorted(tree@, name@);
        }
        export_of(&tree, name)
    }
}

/// The export tree of `tree` under the name `name`.
pub fn export_of(tree: &ScanTree, name: String) -> (exported: ExportTree)
    ensures
        exported@ == export(tree@, name@),
    decreases tree,
{
    match tree {
        ScanTree::File { size, .. } => ExportTree::File { name, size: *size },
        ScanTree::Dir { size, children } => {
            let order = placement_order(children);
            let ghost models = children_view(children@);
            assert(keys_of(children@) == child_keys(models));
            let mut placed: Vec<ExportTree> = Vec::new();
            let mut k: usize = 0;
            while k < order.len()
                invariant
                    k <= order.len(),
                    order.len() == children.len(),
                    tree matches ScanTree::Dir { size: s, children: c } && c == children && s
                        == size,
                    models == children_view(children@),
                    indices(order@) == placement(child_keys(models)),
                    forall|j: int| 0 <= j < order@.len() ==> (#[trigger] order@[j]) < children@.len(),
                    placed@.len() == k,
                    forall|j: int|
                        0 <= j < k ==> (#[trigger] placed@[j])@ == export(
                            models[placement(child_keys(models))[j]].1,
                            models[placement(child_keys(models))[j]].0,
                        ),
                decreases order.len() - k,
            {
                let i = order[k];
                let child = &children[i];
                assert(indices(order@)[k as int] == i);
                let node = export_of(&child.tree, child.name.clone());
                placed.push(node);
                k = k + 1;
            }
            let exported = ExportTree::Dir { name, size: *size, children: placed };
            proof {
                let expected = export(tree@, name@);
                assert forall|j: int| 0 <= j < placed@.len() implies exported@->Dir_children[j]
                    == expected->Dir_children[j] by {
                    assert(indices(order@)[j] == order@[j]);
                }
                assert(exported@->Dir_children == expected->Dir_children);
            }
            exported
        },
    }
}

/// The export does not depend on the order in which the children of a
/// directory are listed: two trees that hold the same files and directories
/// under the same names, with no name twice in a directory, are exported
/// alike.
pub proof fn lemma_export_ignores_order(first: ScanModel, second: ScanModel, name: Seq<char>)
    requires
        first.same_entries(second),
        first.names_unique(),
        second.names_unique(),
    ensures
        export(first, name) == export(second, name),
    decreases first,
{
    match first {
        ScanModel::File { .. } => {},
        ScanModel::Dir { size, children } => {
            let others = second->Dir_children;
            let order = placement(child_keys(children));
            let other_order = placement(child_keys(others));
            let placed = export(first, name)->Dir_children;
            let other_placed = export(second, name)->Dir_children;
            if children.len() > 0 {
                lemma_same_entries_placed(first, second, 0, Rect::whole(), true);
            } else {
                assert(child_keys(others).len() == 0) by {
                    crate::scan_laws::lemma_same_entries_keys(first, second);
                    if others.len() > 0 {
                        assert(child_keys(others).contains(child_keys(others)[0]));
                        let at = choose|at: int|
                            0 <= at < child_keys(children).len() && child_keys(children)[at]
                                == child_keys(others)[0];
                    }
                }
            }
            assert(placed.len() == other_placed.len());
            assert forall|k: int| 0 <= k < placed.len() implies placed[k] == other_placed[k] by {
                lemma_same_entries_placed(first, second, k, Rect::whole(), true);
                lemma_export_ignores_order(
                    children[order[k]].1,
                    others[other_order[k]].1,
                    children[order[k]].0,
                );
            }
            assert(placed == other_placed);
        },
    }
}

} // verus!
