use fs_tree::tree::{FsTree, Tree, TreeEntry};
use std::path::{Component, Path};

/// The names that lead down a path from the root.
fn names(path: &Path) -> Vec<String> {
    let mut names = Vec::new();
    for component in path.components() {
        match component {
            Component::RootDir => {}
            Component::Normal(name) => names.push(name.to_string_lossy().into_owned()),
            _ => panic!("Unsupported path component: {:?}", component),
        }
    }
    names
}

fn entry(name: &str, tree: Tree) -> TreeEntry {
    TreeEntry { name: name.to_string(), tree }
}

fn node(size: u64, children: Vec<TreeEntry>) -> Tree {
    Tree::Node { size, children }
}

#[test]
fn test_basic_insertion() {
    let mut tree = Tree::new();
    tree.insert(&names(Path::new("/a/b/c")), 5);
    tree.insert(&names(Path::new("/a/b/d")), 6);
    tree.insert(&names(Path::new("/a/e")), 7);
    tree.insert(&names(Path::new("/f")), 8);
    assert_eq!(tree.get(&names(Path::new("/"))), 26);
    assert_eq!(tree.get(&names(Path::new("/a/b/d"))), 6);
    assert_eq!(tree.get(&names(Path::new("/a/b"))), 11);
}

#[test]
fn new_tree_is_an_empty_node() {
    assert_eq!(Tree::new(), node(0, vec![]));
    assert_eq!(Tree::new().get_size(), 0);
    assert_eq!(Tree::new().get(&vec![]), 0);
}

#[test]
fn insert_builds_the_nodes_on_the_way() {
    let mut tree = Tree::new();
    tree.insert(&names(Path::new("/a/b")), 5);
    tree.insert(&names(Path::new("/a/c")), 2);
    tree.insert(&names(Path::new("/d")), 1);
    let expected = node(
        8,
        vec![
            entry("a", node(7, vec![entry("b", Tree::Leaf(5)), entry("c", Tree::Leaf(2))])),
            entry("d", Tree::Leaf(1)),
        ],
    );
    assert_eq!(tree, expected);
}

#[test]
fn insert_with_empty_path_makes_the_root_a_leaf() {
    let mut tree = Tree::new();
    tree.insert(&names(Path::new("/a")), 3);
    tree.insert(&vec![], 9);
    assert_eq!(tree, Tree::Leaf(9));
}

#[test]
fn insert_through_a_leaf_turns_it_into_a_node() {
    let mut tree = Tree::new();
    tree.insert(&names(Path::new("/a")), 10);
    tree.insert(&names(Path::new("/a/b/c")), 5);
    let expected = node(15, vec![entry("a", node(5, vec![entry("c", Tree::Leaf(5))]))]);
    assert_eq!(tree, expected);
}

#[test]
fn insert_over_a_leaf_replaces_its_value() {
    let mut tree = Tree::new();
    tree.insert(&names(Path::new("/a")), 10);
    tree.insert(&names(Path::new("/a")), 5);
    assert_eq!(tree, node(15, vec![entry("a", Tree::Leaf(5))]));
}

#[test]
fn get_of_missing_path_is_zero() {
    let mut tree = Tree::new();
    tree.insert(&names(Path::new("/a/b")), 5);
    assert_eq!(tree.get(&names(Path::new("/x"))), 0);
    assert_eq!(tree.get(&names(Path::new("/a/x"))), 0);
    assert_eq!(tree.get(&names(Path::new("/a/b/c"))), 0);
    assert_eq!(tree.get(&names(Path::new("/a"))), 5);
    assert_eq!(tree.get(&names(Path::new("/a/b"))), 5);
}

#[test]
fn to_fs_tree_sorts_and_colors() {
    let mut tree = Tree::new();
    tree.insert(&names(Path::new("/a")), 10);
    tree.insert(&names(Path::new("/b/c")), 20);
    let named = tree.to_fs_tree("root".to_string());
    let expected = FsTree::Node {
        name: "root".to_string(),
        size: 30,
        children: vec![
            FsTree::Node {
                name: "b".to_string(),
                size: 20,
                children: vec![FsTree::Leaf { name: "c".to_string(), size: 20, color: 0x01_eff2 }],
            },
            FsTree::Leaf { name: "a".to_string(), size: 10, color: 0x01_ec8c },
        ],
    };
    assert_eq!(named, expected);
    assert_eq!(named.get_size(), 30);
}

#[test]
fn to_fs_tree_of_a_leaf() {
    let named = Tree::Leaf(4).to_fs_tree("notes.txt".to_string());
    assert_eq!(named, FsTree::Leaf { name: "notes.txt".to_string(), size: 4, color: 0xe3_274c });
    assert_eq!(named.get_size(), 4);
}
