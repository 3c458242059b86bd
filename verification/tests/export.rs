use fs_tree::export_tree::ExportTree;
use fs_tree::scan_tree::{ScanEntry, ScanTree};

fn leaf(size: u64) -> ScanTree {
    ScanTree::File { size, access: 4, creation: 5, modification: 6 }
}

fn child(name: &str, tree: ScanTree) -> ScanEntry {
    ScanEntry { name: name.to_string(), tree }
}

fn file(name: &str, size: u64) -> ExportTree {
    ExportTree::File { name: name.to_string(), size }
}

#[test]
fn export_of_a_file() {
    let exported = ExportTree::from_scan_tree(leaf(42), "f".to_string());
    assert_eq!(exported, file("f", 42));
    assert_eq!(exported.get_size(), 42);
}

#[test]
fn export_sorts_children_by_size_then_name() {
    let tree = ScanTree::Dir {
        size: 30,
        children: vec![
            child("a", leaf(10)),
            child("b", ScanTree::Dir { size: 20, children: vec![child("c", leaf(20))] }),
        ],
    };
    let exported = ExportTree::from_scan_tree(tree, "/root".to_string());
    let expected = ExportTree::Dir {
        name: "/root".to_string(),
        size: 30,
        children: vec![
            ExportTree::Dir { name: "b".to_string(), size: 20, children: vec![file("c", 20)] },
            file("a", 10),
        ],
    };
    assert_eq!(exported, expected);
    assert_eq!(exported.get_size(), 30);
}

#[test]
fn export_breaks_ties_by_name() {
    let tree = ScanTree::Dir {
        size: 9,
        children: vec![
            child("z", leaf(3)),
            child("m", leaf(3)),
            child("big", leaf(0)),
            child("a", leaf(3)),
        ],
    };
    let exported = ExportTree::from_scan_tree(tree, "d".to_string());
    let expected = ExportTree::Dir {
        name: "d".to_string(),
        size: 9,
        children: vec![file("a", 3), file("m", 3), file("z", 3), file("big", 0)],
    };
    assert_eq!(exported, expected);
}

#[test]
fn export_of_empty_directory() {
    let tree = ScanTree::Dir { size: 0, children: vec![] };
    let exported = ExportTree::from_scan_tree(tree, "empty".to_string());
    assert_eq!(
        exported,
        ExportTree::Dir { name: "empty".to_string(), size: 0, children: vec![] }
    );
    assert_eq!(exported.get_size(), 0);
}
