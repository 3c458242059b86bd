//! Sizes of a directory tree and their layout as a treemap.
//!
//! What was read from disk is handed over as an [`fs_node::FsNode`].
//! [`scan_tree::scan_dir`] sums it up into a [`scan_tree::ScanTree`] and
//! [`issues::report`] lists what could not be read.
//! [`render_tree::RenderTree::from_scan_tree`] lays the tree out in the unit
//! square and colours its files; [`export_tree::ExportTree`] holds the same
//! tree as names and sizes alone.

pub mod color;
pub mod export_tree;
pub mod fade;
pub mod fs_node;
pub mod issues;
pub mod layout_laws;
pub mod order;
pub mod order_laws;
pub mod render_tree;
pub mod scan_laws;
pub mod scan_tree;
pub mod tree;

use crate::fs_node::FsNode;
use crate::scan_tree::{children_view, scan_root, ScanModel, ScanTree};
use crate::tree::{entries_view, fs_tree_of, FsTree, Tree, TreeEntry, TreeModel};
use vstd::prelude::*;

verus! {

/// The tree of sizes of a scanned tree: its nodes without their timestamps.
pub open spec fn sizes_of_scan(tree: ScanModel) -> TreeModel
    decreases tree,
{
    match tree {
        ScanModel::File { size, .. } => TreeModel::Leaf(size),
        ScanModel::Dir { size, children } => TreeModel::Node {
            size,
            children: Seq::new(
                children.len(),
                |i: int|
                    if 0 <= i < children.len() {
                        (children[i].0, sizes_of_scan(children[i].1))
                    } else {
                        (Seq::empty(), TreeModel::empty())
                    },
            ),
        },
    }
}

/// The tree of sizes of a scanned tree.
pub fn tree_of_scan(tree: &ScanTree) -> (sizes: Tree)
    ensures
        sizes@ == sizes_of_scan(tree@),
    decreases tree,
{
    match tree {
        ScanTree::File { size, .. } => Tree::Leaf(*size),
        ScanTree::Dir { size, children } => {
            let mut entries: Vec<TreeEntry> = Vec::new();
            let mut i: usize = 0;
            while i < children.len()
                invariant
                    i <= children.len(),
                    tree matches ScanTree::Dir { size: s, children: c } && c == children && s
                        == size,
                    entries@.len() == i,
                    forall|j: int|
                        0 <= j < i ==> (#[trigger] entries@[j]).name@ == children@[j].name@
                            && entries@[j].tree@ == sizes_of_scan(children@[j].tree@),
                decreases children.len() - i,
            {
                let child = &children[i];
                let entry = TreeEntry { name: child.name.clone(), tree: tree_of_scan(&child.tree) };
                entries.push(entry);
                i = i + 1;
            }
            proof {
                let models = children_view(children@);
                let expected = sizes_of_scan(tree@)->Node_children;
                assert(expected.len() == models.len());
                assert forall|j: int| 0 <= j < entries@.len() implies entries_view(entries@)[j]
                    == expected[j] by {
                    assert(models[j] == (children@[j].name@, children@[j].tree@));
                }
                assert(entries_view(entries@) == expected);
            }
            Tree::Node { size: *size, children: entries }
        },
    }
}

/// Builds the named tree of what was found at `root`, under the name
/// `name`: the sizes as `scan_tree::scan_dir` sums them, each leaf with the
/// colour of its name, the children of each node by size.
pub fn scan_dir(root: &FsNode, name: String) -> (named: FsTree)
    requires
        root@.bytes() <= u64::MAX,
    ensures
        named@ == fs_tree_of(sizes_of_scan(scan_root(root@)), name@),
{
    let scanned = scan_tree::scan_dir(root);
    tree_of_scan(&scanned).to_fs_tree(name)
}

} // verus!
