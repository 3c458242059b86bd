use fs_tree::fs_node::{FsEntry, FsNode};
use fs_tree::issues::{report, Issue, IssueKind};
use fs_tree::scan_tree::scan_dir;

fn file(size: u64) -> FsNode {
    FsNode::File { size, access: 0, creation: 0, modification: 0 }
}

fn entry(name: &str, node: FsNode) -> FsEntry {
    FsEntry { name: name.to_string(), node }
}

fn issue(kind: IssueKind, path: &[&str], reason: &str) -> Issue {
    Issue {
        kind,
        path: path.iter().map(|name| name.to_string()).collect(),
        reason: reason.to_string(),
    }
}

#[test]
fn clean_reading_reports_nothing() {
    let root = FsNode::Dir {
        entries: vec![
            entry("a", file(1)),
            entry("d", FsNode::Dir { entries: vec![entry("b", file(2))] }),
        ],
    };
    assert_eq!(report(&root), vec![]);
}

#[test]
fn symlinks_and_other_kinds_are_not_reported() {
    let root = FsNode::Dir {
        entries: vec![entry("link", FsNode::Symlink), entry("pipe", FsNode::Other)],
    };
    assert_eq!(report(&root), vec![]);
    assert_eq!(report(&FsNode::Symlink), vec![]);
    assert_eq!(report(&file(3)), vec![]);
}

#[test]
fn closed_root_is_reported_once() {
    let root = FsNode::ClosedDir { reason: "denied".to_string() };
    assert_eq!(report(&root), vec![issue(IssueKind::Directory, &[], "denied")]);
}

#[test]
fn every_failure_is_reported_once_with_its_path() {
    let root = FsNode::Dir {
        entries: vec![
            entry("a", file(1)),
            entry("gone", FsNode::Unreadable { reason: "vanished".to_string() }),
            entry(
                "d",
                FsNode::Dir {
                    entries: vec![
                        entry("locked", FsNode::ClosedDir { reason: "denied".to_string() }),
                        entry("link", FsNode::Symlink),
                        entry("", FsNode::Unlisted { reason: "io".to_string() }),
                        entry(
                            "e",
                            FsNode::Dir {
                                entries: vec![entry(
                                    "x",
                                    FsNode::Unreadable { reason: "stale".to_string() },
                                )],
                            },
                        ),
                    ],
                },
            ),
            entry("z", FsNode::ClosedDir { reason: "busy".to_string() }),
        ],
    };
    let expected = vec![
        issue(IssueKind::Metadata, &["gone"], "vanished"),
        issue(IssueKind::Directory, &["d", "locked"], "denied"),
        issue(IssueKind::Listing, &["d", ""], "io"),
        issue(IssueKind::Metadata, &["d", "e", "x"], "stale"),
        issue(IssueKind::Directory, &["z"], "busy"),
    ];
    assert_eq!(report(&root), expected);
    assert_eq!(scan_dir(&root).get_size(), 1);
}
