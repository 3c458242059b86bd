use fs_tree::fs_node::{FsEntry, FsNode};
use fs_tree::scan_tree::{ScanEntry, ScanTree};
use fs_tree::tree::{FsTree, Tree, TreeEntry};
use fs_tree::{scan_dir, tree_of_scan};

fn closed() -> FsNode {
    FsNode::ClosedDir { reason: "Permission denied (os error 13)".to_string() }
}

fn file(size: u64) -> FsNode {
    FsNode::File { size, access: 1, creation: 2, modification: 3 }
}

fn entry(name: &str, node: FsNode) -> FsEntry {
    FsEntry { name: name.to_string(), node }
}

#[test]
fn scan_to_named_tree_sorts_and_colors() {
    let root = FsNode::Dir {
        entries: vec![
            entry("a", file(10)),
            entry("link", FsNode::Symlink),
            entry("b", FsNode::Dir { entries: vec![entry("c", file(20))] }),
        ],
    };
    let named = scan_dir(&root, "/root".to_string());
    let expected = FsTree::Node {
        name: "/root".to_string(),
        size: 30,
        children: vec![
            FsTree::Node {
                name: "b".to_string(),
                size: 20,
                children: vec![FsTree::Leaf { name: "c".to_string(), size: 20, color: 0x01_eff2 }],
            },
            FsTree::Leaf { name: "a".to_string(), size: 10, color: 0x01_ec8c },
        ],
    };
    assert_eq!(named, expected);
}

#[test]
fn scan_to_named_tree_of_closed_root_is_empty_node() {
    let named = scan_dir(&closed(), "locked".to_string());
    assert_eq!(named, FsTree::Node { name: "locked".to_string(), size: 0, children: vec![] });
    assert_eq!(named.get_size(), 0);
}

#[test]
fn tree_of_scan_drops_the_timestamps() {
    let scanned = ScanTree::Dir {
        size: 3,
        children: vec![ScanEntry {
            name: "f".to_string(),
            tree: ScanTree::File { size: 3, access: 7, creation: 8, modification: 9 },
        }],
    };
    let sizes = tree_of_scan(&scanned);
    let expected = Tree::Node {
        size: 3,
        children: vec![TreeEntry { name: "f".to_string(), tree: Tree::Leaf(3) }],
    };
    assert_eq!(sizes, expected);
}
