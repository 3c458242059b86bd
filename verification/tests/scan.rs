use fs_tree::fs_node::{FsEntry, FsNode};
use fs_tree::scan_tree::{scan_dir, ScanEntry, ScanTree};

fn closed() -> FsNode {
    FsNode::ClosedDir { reason: "Permission denied (os error 13)".to_string() }
}

fn unreadable() -> FsNode {
    FsNode::Unreadable { reason: "No such file or directory (os error 2)".to_string() }
}

fn file(size: u64) -> FsNode {
    FsNode::File { size, access: 1, creation: 2, modification: 3 }
}

fn leaf(size: u64) -> ScanTree {
    ScanTree::File { size, access: 1, creation: 2, modification: 3 }
}

fn entry(name: &str, node: FsNode) -> FsEntry {
    FsEntry { name: name.to_string(), node }
}

fn child(name: &str, tree: ScanTree) -> ScanEntry {
    ScanEntry { name: name.to_string(), tree }
}

fn dir(entries: Vec<FsEntry>) -> FsNode {
    FsNode::Dir { entries }
}

fn empty_dir() -> ScanTree {
    ScanTree::Dir { size: 0, children: vec![] }
}

/// The sum of the sizes of all file leaves of a tree.
fn file_bytes(tree: &ScanTree) -> u64 {
    match tree {
        ScanTree::File { size, .. } => *size,
        ScanTree::Dir { children, .. } => children.iter().map(|c| file_bytes(&c.tree)).sum(),
    }
}

/// Whether every directory carries the sum of its children's sizes.
fn sizes_add_up(tree: &ScanTree) -> bool {
    match tree {
        ScanTree::File { .. } => true,
        ScanTree::Dir { size, children } => {
            *size == children.iter().map(|c| c.tree.get_size()).sum::<u64>()
                && children.iter().all(|c| sizes_add_up(&c.tree))
        }
    }
}

#[test]
fn scan_sums_sizes_bottom_up() {
    let root = dir(vec![
        entry("a", file(10)),
        entry("b", dir(vec![entry("c", file(20))])),
    ]);
    let tree = scan_dir(&root);
    let expected = ScanTree::Dir {
        size: 30,
        children: vec![
            child("a", leaf(10)),
            child("b", ScanTree::Dir { size: 20, children: vec![child("c", leaf(20))] }),
        ],
    };
    assert_eq!(tree, expected);
}

#[test]
fn scan_keeps_timestamps_of_files() {
    let root = dir(vec![entry(
        "f",
        FsNode::File { size: 7, access: -5, creation: 11, modification: 1_700_000_000 },
    )]);
    let tree = scan_dir(&root);
    let expected = ScanTree::Dir {
        size: 7,
        children: vec![child(
            "f",
            ScanTree::File { size: 7, access: -5, creation: 11, modification: 1_700_000_000 },
        )],
    };
    assert_eq!(tree, expected);
}

#[test]
fn scan_skips_symlinks() {
    let with_link = dir(vec![
        entry("data", dir(vec![entry("big", file(1000))])),
        entry("shortcut", FsNode::Symlink),
        entry("small", file(1)),
    ]);
    let without_link = dir(vec![
        entry("data", dir(vec![entry("big", file(1000))])),
        entry("small", file(1)),
    ]);
    let tree = scan_dir(&with_link);
    assert_eq!(tree, scan_dir(&without_link));
    assert_eq!(tree.get_size(), 1001);
    match &tree {
        ScanTree::Dir { children, .. } => {
            assert!(children.iter().all(|c| c.name != "shortcut"));
            assert_eq!(children.len(), 2);
        }
        ScanTree::File { .. } => panic!("the root is a directory"),
    }
}

#[test]
fn scan_skips_symlink_deep_in_the_tree() {
    let root = dir(vec![entry(
        "a",
        dir(vec![entry("b", dir(vec![entry("link", FsNode::Symlink), entry("f", file(4))]))]),
    )]);
    let tree = scan_dir(&root);
    let expected = ScanTree::Dir {
        size: 4,
        children: vec![child(
            "a",
            ScanTree::Dir {
                size: 4,
                children: vec![child(
                    "b",
                    ScanTree::Dir { size: 4, children: vec![child("f", leaf(4))] },
                )],
            },
        )],
    };
    assert_eq!(tree, expected);
}

#[test]
fn scan_of_closed_root_is_empty_dir() {
    assert_eq!(scan_dir(&closed()), empty_dir());
}

#[test]
fn scan_keeps_closed_subdirectory_as_empty_dir() {
    let root = dir(vec![entry("locked", closed()), entry("f", file(5))]);
    let tree = scan_dir(&root);
    let expected = ScanTree::Dir {
        size: 5,
        children: vec![child("locked", empty_dir()), child("f", leaf(5))],
    };
    assert_eq!(tree, expected);
}

#[test]
fn scan_skips_unreadable_entries_and_other_kinds() {
    let root = dir(vec![
        entry("gone", unreadable()),
        entry("", FsNode::Unlisted { reason: "Input/output error (os error 5)".to_string() }),
        entry("socket", FsNode::Other),
        entry("f", file(9)),
    ]);
    let tree = scan_dir(&root);
    let expected = ScanTree::Dir { size: 9, children: vec![child("f", leaf(9))] };
    assert_eq!(tree, expected);
}

#[test]
fn scan_of_root_that_is_left_out_is_empty_dir() {
    assert_eq!(scan_dir(&unreadable()), empty_dir());
    assert_eq!(scan_dir(&FsNode::Symlink), empty_dir());
    assert_eq!(scan_dir(&FsNode::Other), empty_dir());
}

#[test]
fn scan_of_root_that_is_a_file_is_a_single_leaf() {
    assert_eq!(scan_dir(&file(12)), leaf(12));
}

#[test]
fn scan_keeps_zero_byte_files() {
    let root = dir(vec![entry("empty", file(0))]);
    let tree = scan_dir(&root);
    let expected = ScanTree::Dir { size: 0, children: vec![child("empty", leaf(0))] };
    assert_eq!(tree, expected);
}

#[test]
fn scan_of_empty_directory() {
    assert_eq!(scan_dir(&dir(vec![])), empty_dir());
}

#[test]
fn scanned_sizes_add_up_in_every_directory() {
    let root = dir(vec![
        entry("a", file(10)),
        entry("l", FsNode::Symlink),
        entry(
            "b",
            dir(vec![
                entry("c", file(20)),
                entry("d", dir(vec![entry("e", file(3)), entry("x", unreadable())])),
                entry("closed", closed()),
            ]),
        ),
    ]);
    let tree = scan_dir(&root);
    assert!(sizes_add_up(&tree));
    assert_eq!(tree.get_size(), 33);
    assert_eq!(file_bytes(&tree), 33);
    assert_eq!(root.checked_bytes(), Some(33));
}

#[test]
fn checked_bytes_counts_regular_files_only() {
    assert_eq!(FsNode::Symlink.checked_bytes(), Some(0));
    assert_eq!(unreadable().checked_bytes(), Some(0));
    assert_eq!(FsNode::Other.checked_bytes(), Some(0));
    assert_eq!(closed().checked_bytes(), Some(0));
    assert_eq!(file(5).checked_bytes(), Some(5));
    let root = dir(vec![entry("a", file(u64::MAX - 1)), entry("b", file(1))]);
    assert_eq!(root.checked_bytes(), Some(u64::MAX));
}

#[test]
fn checked_bytes_reports_overflow() {
    let root = dir(vec![entry("a", file(u64::MAX)), entry("b", file(1))]);
    assert_eq!(root.checked_bytes(), None);
    let nested = dir(vec![entry("d", root), entry("c", file(0))]);
    assert_eq!(nested.checked_bytes(), None);
}
