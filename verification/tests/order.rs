use fs_tree::export_tree::ExportTree;
use fs_tree::fs_node::{FsEntry, FsNode};
use fs_tree::render_tree::{ColorMode, RenderTree};
use fs_tree::scan_tree::scan_dir;

fn closed() -> FsNode {
    FsNode::ClosedDir { reason: "Permission denied (os error 13)".to_string() }
}

fn file(size: u64, stamp: i64) -> FsNode {
    FsNode::File { size, access: stamp, creation: stamp + 1, modification: stamp + 2 }
}

fn entry(name: &str, node: FsNode) -> FsEntry {
    FsEntry { name: name.to_string(), node }
}

/// One directory tree, listed in one order.
fn listing() -> FsNode {
    FsNode::Dir {
        entries: vec![
            entry("src", FsNode::Dir {
                entries: vec![
                    entry("main.rs", file(300, 10)),
                    entry("lib.rs", file(300, 20)),
                    entry("util", FsNode::Dir {
                        entries: vec![entry("a.rs", file(5, 30)), entry("b.rs", file(5, 40))],
                    }),
                ],
            }),
            entry("README", file(610, 50)),
            entry("target", closed()),
            entry("link", FsNode::Symlink),
            entry("LICENSE", file(40, 60)),
        ],
    }
}

/// The same tree, with the entries of every directory in another order.
fn listing_shuffled() -> FsNode {
    FsNode::Dir {
        entries: vec![
            entry("LICENSE", file(40, 60)),
            entry("link", FsNode::Symlink),
            entry("README", file(610, 50)),
            entry("src", FsNode::Dir {
                entries: vec![
                    entry("util", FsNode::Dir {
                        entries: vec![entry("b.rs", file(5, 40)), entry("a.rs", file(5, 30))],
                    }),
                    entry("lib.rs", file(300, 20)),
                    entry("main.rs", file(300, 10)),
                ],
            }),
            entry("target", closed()),
        ],
    }
}

#[test]
fn scan_order_shows_in_the_scan_tree_only() {
    let one = scan_dir(&listing());
    let other = scan_dir(&listing_shuffled());
    assert_ne!(one, other);
    assert_eq!(one.get_size(), 1260);
    assert_eq!(other.get_size(), 1260);
}

#[test]
fn layout_does_not_depend_on_the_listing_order() {
    for mode in [ColorMode::Name, ColorMode::Access, ColorMode::Modification, ColorMode::Creation] {
        let one = RenderTree::from_scan_tree(scan_dir(&listing()), ".".to_string(), &mode, 100);
        let other =
            RenderTree::from_scan_tree(scan_dir(&listing_shuffled()), ".".to_string(), &mode, 100);
        assert_eq!(one, other);
    }
}

/// The names of the children of a node, in their order.
fn names(tree: &RenderTree) -> Vec<String> {
    match tree {
        RenderTree::Dir { children, .. } => children
            .iter()
            .map(|c| match c {
                RenderTree::Dir { name, .. } => name.clone(),
                RenderTree::File { name, .. } => name.clone(),
            })
            .collect(),
        RenderTree::File { .. } => vec![],
    }
}

#[test]
fn layout_order_is_by_size_then_name_at_every_level() {
    let laid = RenderTree::from_scan_tree(
        scan_dir(&listing_shuffled()),
        ".".to_string(),
        &ColorMode::Name,
        0,
    );
    assert_eq!(names(&laid), vec!["README", "src", "LICENSE", "target"]);
    match &laid {
        RenderTree::Dir { children, .. } => {
            assert_eq!(names(&children[1]), vec!["lib.rs", "main.rs", "util"]);
            match &children[1] {
                RenderTree::Dir { children, .. } => {
                    assert_eq!(names(&children[2]), vec!["a.rs", "b.rs"]);
                }
                RenderTree::File { .. } => panic!("src is a directory"),
            }
        }
        RenderTree::File { .. } => panic!("the root is a directory"),
    }
}

#[test]
fn export_does_not_depend_on_the_listing_order() {
    let one = ExportTree::from_scan_tree(scan_dir(&listing()), ".".to_string());
    let other = ExportTree::from_scan_tree(scan_dir(&listing_shuffled()), ".".to_string());
    assert_eq!(one, other);
    assert_eq!(one.get_size(), 1260);
}
