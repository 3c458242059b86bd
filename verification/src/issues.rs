use crate::fs_node::{entries_view, FsModel, FsNode};
use crate::tree::names;
use vstd::prelude::*;

verus! {

/// What went wrong where a directory tree was read.
#[derive(Debug, Clone, Copy, PartialEq, Eq, Structural)]
pub enum IssueKind {
    /// The listing of a directory failed to give an entry.
    Listing,
    /// The metadata of an entry could not be read.
    Metadata,
    /// A directory could not be opened.
    Directory,
}

/// One thing that went wrong: what, where and why.
#[derive(Debug, PartialEq, Eq)]
pub struct Issue {
    pub kind: IssueKind,
    /// The names that lead down to the entry from the root.
    pub path: Vec<String>,
    pub reason: String,
}

/// The mathematical value of an [`Issue`].
pub struct IssueModel {
    pub kind: IssueKind,
    pub path: Seq<Seq<char>>,
    pub reason: Seq<char>,
}

impl View for Issue {
    type V = IssueModel;

    open spec fn view(&self) -> IssueModel {
        IssueModel { kind: self.kind, path: names(self.path@), reason: self.reason@ }
    }
}

/// The values of some issues, in their order.
pub open spec fn issues_view(issues: Seq<Issue>) -> Seq<IssueModel> {
    Seq::new(issues.len(), |i: int| issues[i]@)
}

/// What is to be reported of the node found under `path`: one issue for
/// each entry that could not be listed or read and for each directory that
/// could not be opened, in the order of the listings. Links and entries of
/// other kinds are left out without a word.
pub open spec fn issues_of(node: FsModel, path: Seq<Seq<char>>) -> Seq<IssueModel>
    decreases node,
{
    match node {
        FsModel::Unlisted { reason } => seq![IssueModel { kind: IssueKind::Listing, path, reason }],
        FsModel::Unreadable { reason } => seq![
            IssueModel { kind: IssueKind::Metadata, path, reason },
        ],
        FsModel::ClosedDir { reason } => seq![
            IssueModel { kind: IssueKind::Directory, path, reason },
        ],
        FsModel::Dir { entries } => issues_in(entries, path),
        _ => Seq::empty(),
    }
}

/// What is to be reported of the entries of the directory found under
/// `path`.
pub open spec fn issues_in(entries: Seq<(Seq<char>, FsModel)>, path: Seq<Seq<char>>) -> Seq<
    IssueModel,
>
    decreases entries,
{
    if entries.len() == 0 {
        Seq::empty()
    } else {
        issues_in(entries.drop_last(), path) + issues_of(
            entries.last().1,
            path.push(entries.last().0),
        )
    }
}

/// A copy of a path with one more name at its end.
fn path_with(path: &Vec<String>, name: &String) -> (longer: Vec<String>)
    ensures
        names(longer@) == names(path@).push(name@),
{
    let mut longer: Vec<String> = Vec::new();
    let mut i: usize = 0;
    while i < path.len()
        invariant
            i <= path.len(),
            longer@.len() == i,
            forall|j: int| 0 <= j < i ==> (#[trigger] longer@[j])@ == path@[j]@,
        decreases path.len() - i,
    {
        longer.push(path[i].clone());
        i = i + 1;
    }
    longer.push(name.clone());
    assert(names(longer@) == names(path@).push(name@));
    longer
}

/// A copy of a path.
fn path_copy(path: &Vec<String>) -> (copy: Vec<String>)
    ensures
        names(copy@) == names(path@),
{
    let mut copy: Vec<String> = Vec::new();
    let mut i: usize = 0;
    while i < path.len()
        invariant
            i <= path.len(),
            copy@.len() == i,
            forall|j: int| 0 <= j < i ==> (#[trigger] copy@[j])@ == path@[j]@,
        decreases path.len() - i,
    {
        copy.push(path[i].clone());
        i = i + 1;
    }
    assert(names(copy@) == names(path@));
    copy
}

/// Adds to `issues` what is to be reported of the node found under `path`.
fn report_into(node: &FsNode, path: &Vec<String>, issues: &mut Vec<Issue>)
    ensures
        issues_view(final(issues)@) == issues_view(old(issues)@) + issues_of(
            node@,
            names(path@),
        ),
    decreases node,
{
    let ghost before = issues_view(issues@);
    match node {
        FsNode::Unlisted { reason } => {
            let issue = Issue {
                kind: IssueKind::Listing,
                path: path_copy(path),
                reason: reason.clone(),
            };
            issues.push(issue);
            assert(issues_view(issues@) == before + issues_of(node@, names(path@)));
        },
        FsNode::Unreadable { reason } => {
            let issue = Issue {
                kind: IssueKind::Metadata,
                path: path_copy(path),
                reason: reason.clone(),
            };
            issues.push(issue);
            assert(issues_view(issues@) == before + issues_of(node@, names(path@)));
        },
        FsNode::ClosedDir { reason } => {
            let issue = Issue {
                kind: IssueKind::Directory,
                path: path_copy(path),
                reason: reason.clone(),
            };
            issues.push(issue);
            assert(issues_view(issues@) == before + issues_of(node@, names(path@)));
        },
        FsNode::Dir { entries } => {
            let ghost listing = entries_view(entries@);
            let mut i: usize = 0;
            assert(listing.take(0).len() == 0);
            assert(issues_view(issues@) == before + issues_in(listing.take(0), names(path@)));
            while i < entries.len()
                invariant
                    i <= entries.len(),
                    node matches FsNode::Dir { entries: e } && e == entries,
                    listing == entries_view(entries@),
                    issues_view(issues@) == before + issues_in(
                        listing.take(i as int),
                        names(path@),
                    ),
                decreases entries.len() - i,
            {
                let entry = &entries[i];
                let ghost so_far = issues_view(issues@);
                proof {
                    let upto = listing.take(i + 1);
                    assert(upto.drop_last() == listing.take(i as int));
                    assert(upto.last() == (entry.name@, entry.node@));
                }
                match &entry.node {
                    FsNode::File { .. } | FsNode::Symlink | FsNode::Other => {
                        assert(so_far + issues_of(entry.node@, names(path@).push(entry.name@))
                            == so_far);
                    },
                    _ => {
                        let below = path_with(path, &entry.name);
                        report_into(&entry.node, &below, issues);
                    },
                }
                assert(issues_view(issues@) == before + issues_in(
                    listing.take(i + 1),
                    names(path@),
                ));
                i = i + 1;
            }
            assert(listing.take(i as int) == listing);
        },
        _ => {
            assert(issues_view(issues@) == before + issues_of(node@, names(path@)));
        },
    }
}

/// What is to be reported of what was found at `root`.
pub fn report(root: &FsNode) -> (issues: Vec<Issue>)
    ensures
        issues_view(issues@) == issues_of(root@, Seq::empty()),
{
    let mut issues: Vec<Issue> = Vec::new();
    let path: Vec<String> = Vec::new();
    assert(names(path@) == Seq::<Seq<char>>::empty());
    report_into(root, &path, &mut issues);
    assert(issues_view(Seq::<Issue>::empty()) + issues_of(root@, Seq::empty()) == issues_of(
        root@,
        Seq::empty(),
    ));
    issues
}

} // verus!
