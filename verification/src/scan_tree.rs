use crate::fs_node::{entries_view, lemma_sum_bytes_split, sum_bytes, FsModel, FsNode};
use crate::order::{key_before, sizes_of, total, Ranked};
use crate::scan_laws::lemma_scan_names_unique;
use vstd::prelude::*;

verus! {

/// A directory tree annotated with sizes: what a scan produces.
#[derive(Debug, PartialEq, Eq)]
pub enum ScanTree {
    Dir { size: u64, children: Vec<ScanEntry> },
    File { size: u64, access: i64, creation: i64, modification: i64 },
}

/// One child of a directory, under its name.
#[derive(Debug, PartialEq, Eq)]
pub struct ScanEntry {
    pub name: String,
    pub tree: ScanTree,
}

/// The mathematical value of a [`ScanTree`].
pub enum ScanModel {
    Dir { size: nat, children: Seq<(Seq<char>, ScanModel)> },
    File { size: nat, access: int, creation: int, modification: int },
}

/// The sum of the sizes that the children of a directory carry.
pub open spec fn sum_sizes(children: Seq<(Seq<char>, ScanModel)>) -> nat
    decreases children.len(),
{
    if children.len() == 0 {
        0
    } else {
        sum_sizes(children.drop_last()) + children.last().1.size()
    }
}

/// The sum of the lengths of all files below the children of a directory.
pub open spec fn sum_file_bytes(children: Seq<(Seq<char>, ScanModel)>) -> nat
    decreases children,
{
    if children.len() == 0 {
        0
    } else {
        sum_file_bytes(children.drop_last()) + children.last().1.file_bytes()
    }
}

impl ScanModel {
    /// The size that the node carries.
    pub open spec fn size(self) -> nat {
        match self {
            ScanModel::Dir { size, .. } => size,
            ScanModel::File { size, .. } => size,
        }
    }

    /// Every directory of the tree carries the sum of its children's sizes.
    pub open spec fn wf(self) -> bool
        decreases self,
    {
        match self {
            ScanModel::Dir { size, children } => {
                &&& size == sum_sizes(children)
                &&& forall|i: int| 0 <= i < children.len() ==> (#[trigger] children[i]).1.wf()
            },
            ScanModel::File { .. } => true,
        }
    }

    /// The sum of the lengths of all files in the tree.
    pub open spec fn file_bytes(self) -> nat
        decreases self,
    {
        match self {
            ScanModel::Dir { children, .. } => sum_file_bytes(children),
            ScanModel::File { size, .. } => size,
        }
    }

    /// No directory of the tree holds two children of one name.
    pub open spec fn names_unique(self) -> bool
        decreases self,
    {
        match self {
            ScanModel::Dir { children, .. } => {
                &&& forall|i: int, j: int|
                    0 <= i < j < children.len() ==> (#[trigger] children[i]).0 != (
                    #[trigger] children[j]).0
                &&& forall|i: int| 0 <= i < children.len() ==> (#[trigger] children[i]).1.names_unique()
            },
            ScanModel::File { .. } => true,
        }
    }

    /// The two trees hold the same files and directories under the same
    /// names, with the same sizes and timestamps: they differ at most in
    /// the order in which the children of a directory are listed.
    pub open spec fn same_entries(self, other: ScanModel) -> bool
        decreases self,
    {
        match self {
            ScanModel::File { .. } => other == self,
            ScanModel::Dir { size, children } => {
                &&& other is Dir
                &&& other->Dir_size == size
                &&& forall|i: int|
                    #[trigger] child_at(children, i) ==> exists|j: int|
                        0 <= j < other->Dir_children.len() && (#[trigger] other->Dir_children[j]).0
                            == children[i].0 && children[i].1.same_entries(
                            other->Dir_children[j].1,
                        )
                &&& forall|j: int|
                    #[trigger] child_at(other->Dir_children, j) ==> exists|i: int|
                        0 <= i < children.len() && (#[trigger] children[i]).0
                            == other->Dir_children[j].0 && children[i].1.same_entries(
                            other->Dir_children[j].1,
                        )
            },
        }
    }

    /// The empty directory.
    pub open spec fn empty_dir() -> ScanModel {
        ScanModel::Dir { size: 0, children: Seq::empty() }
    }
}

/// `i` is the index of one of the children.
pub open spec fn child_at(children: Seq<(Seq<char>, ScanModel)>, i: int) -> bool {
    0 <= i < children.len()
}

impl View for ScanTree {
    type V = ScanModel;

    open spec fn view(&self) -> ScanModel
        decreases self,
    {
        match self {
            ScanTree::Dir { size, children } => ScanModel::Dir {
                size: *size as nat,
                children: children_view(children@),
            },
            ScanTree::File { size, access, creation, modification } => ScanModel::File {
                size: *size as nat,
                access: *access as int,
                creation: *creation as int,
                modification: *modification as int,
            },
        }
    }
}

/// The values of the children of a directory, in their order.
pub open spec fn children_view(children: Seq<ScanEntry>) -> Seq<(Seq<char>, ScanModel)>
    decreases children,
{
    Seq::new(
        children.len(),
        |i: int|
            if 0 <= i < children.len() {
                (children[i].name@, children[i].tree@)
            } else {
                (Seq::empty(), ScanModel::empty_dir())
            },
    )
}

impl ScanTree {
    /// The size that the node carries.
    pub fn get_size(&self) -> (size: u64)
        ensures
            size == self@.size(),
    {
        match self {
            ScanTree::Dir { size, .. } => *size,
            ScanTree::File { size, .. } => *size,
        }
    }
}

/// What the scan makes of one node: its tree, or `None` where the node is
/// left out. Links, unreadable entries and entries of other kinds are left
/// out; a directory that could not be opened counts as empty.
pub open spec fn scan(node: FsModel) -> Option<ScanModel>
    decreases node,
{
    match node {
        FsModel::File { size, access, creation, modification } => Some(
            ScanModel::File { size, access, creation, modification },
        ),
        FsModel::Dir { entries } => {
            let children = scan_entries(entries);
            Some(ScanModel::Dir { size: sum_sizes(children), children })
        },
        FsModel::ClosedDir { .. } => Some(ScanModel::empty_dir()),
        _ => None,
    }
}

/// The trees of the entries of a listing that the scan keeps, in the
/// listing's order and under their names.
pub open spec fn scan_entries(entries: Seq<(Seq<char>, FsModel)>) -> Seq<(Seq<char>, ScanModel)>
    decreases entries,
{
    if entries.len() == 0 {
        Seq::empty()
    } else {
        let front = scan_entries(entries.drop_last());
        match scan(entries.last().1) {
            Some(tree) => front.push((entries.last().0, tree)),
            None => front,
        }
    }
}

/// The tree of a scan that starts at `root`: an empty directory where the
/// root itself is left out.
pub open spec fn scan_root(root: FsModel) -> ScanModel {
    match scan(root) {
        Some(tree) => tree,
        None => ScanModel::empty_dir(),
    }
}

/// Every directory of a scanned tree carries the sum of its children's sizes.
pub proof fn lemma_scan_wf(node: FsModel)
    ensures
        scan(node) matches Some(tree) ==> tree.wf(),
    decreases node,
{
    match node {
        FsModel::Dir { entries } => {
            lemma_scan_entries_wf(entries);
            let children = scan_entries(entries);
            let tree = ScanModel::Dir { size: sum_sizes(children), children };
            assert(scan(node) == Some(tree));
            assert(tree.wf());
        },
        _ => {},
    }
}

/// Each tree that the scan of a listing keeps is well formed.
pub proof fn lemma_scan_entries_wf(entries: Seq<(Seq<char>, FsModel)>)
    ensures
        forall|i: int|
            0 <= i < scan_entries(entries).len() ==> (#[trigger] scan_entries(entries)[i]).1.wf(),
    decreases entries,
{
    if entries.len() > 0 {
        let front = scan_entries(entries.drop_last());
        let kept = scan_entries(entries);
        lemma_scan_entries_wf(entries.drop_last());
        lemma_scan_wf(entries.last().1);
        assert forall|i: int| 0 <= i < kept.len() implies (#[trigger] kept[i]).1.wf() by {
            if i < front.len() {
                assert(kept[i] == front[i]);
            }
        }
    }
}

/// A scanned tree carries at its root the bytes of exactly the regular
/// files that are reached without following a link.
pub proof fn lemma_scan_size(node: FsModel)
    ensures
        scan(node) matches Some(tree) ==> tree.size() == node.bytes(),
        scan(node) is None ==> node.bytes() == 0,
    decreases node,
{
    match node {
        FsModel::Dir { entries } => {
            lemma_scan_entries_size(entries);
        },
        _ => {},
    }
}

/// The sizes of the trees kept from a listing sum to the bytes below it.
pub proof fn lemma_scan_entries_size(entries: Seq<(Seq<char>, FsModel)>)
    ensures
        sum_sizes(scan_entries(entries)) == sum_bytes(entries),
    decreases entries,
{
    if entries.len() > 0 {
        let front = scan_entries(entries.drop_last());
        lemma_scan_entries_size(entries.drop_last());
        lemma_scan_size(entries.last().1);
        match scan(entries.last().1) {
            Some(tree) => {
                assert(front.push((entries.last().0, tree)).drop_last() == front);
            },
            None => {},
        }
    }
}

/// An entry that the scan leaves out changes nothing, wherever it stands:
/// such are a link, an entry without metadata and one of another kind.
pub proof fn lemma_scan_ignores_left_out(
    entries: Seq<(Seq<char>, FsModel)>,
    at: int,
    name: Seq<char>,
    node: FsModel,
)
    requires
        0 <= at <= entries.len(),
        scan(node) is None,
    ensures
        scan_entries(entries.insert(at, (name, node))) == scan_entries(entries),
        scan(FsModel::Dir { entries: entries.insert(at, (name, node)) }) == scan(
            FsModel::Dir { entries },
        ),
    decreases entries.len(),
{
    let with = entries.insert(at, (name, node));
    if at == entries.len() {
        assert(with.drop_last() == entries);
    } else {
        lemma_scan_ignores_left_out(entries.drop_last(), at, name, node);
        assert(with.drop_last() == entries.drop_last().insert(at, (name, node)));
        assert(with.last() == entries.last());
    }
}

/// In a well-formed tree the size at the root is the sum of the lengths of
/// all its files.
pub proof fn lemma_size_is_file_bytes(tree: ScanModel)
    requires
        tree.wf(),
    ensures
        tree.size() == tree.file_bytes(),
    decreases tree,
{
    match tree {
        ScanModel::Dir { children, .. } => {
            lemma_sizes_are_file_bytes(children);
        },
        ScanModel::File { .. } => {},
    }
}

/// The sizes of well-formed children sum to the lengths of the files below them.
pub proof fn lemma_sizes_are_file_bytes(children: Seq<(Seq<char>, ScanModel)>)
    requires
        forall|i: int| 0 <= i < children.len() ==> (#[trigger] children[i]).1.wf(),
    ensures
        sum_sizes(children) == sum_file_bytes(children),
    decreases children,
{
    if children.len() > 0 {
        assert forall|i: int| 0 <= i < children.drop_last().len() implies (
        #[trigger] children.drop_last()[i]).1.wf() by {
            assert(children.drop_last()[i] == children[i]);
        }
        lemma_sizes_are_file_bytes(children.drop_last());
        lemma_size_is_file_bytes(children.last().1);
    }
}

/// Scans one node of a listing.
fn scan_node(node: &FsNode) -> (found: Option<ScanTree>)
    requires
        node@.bytes() <= u64::MAX,
    ensures
        scan(node@) == (match found {
            Some(tree) => Some(tree@),
            None => None,
        }),
    decreases node,
{
    match node {
        FsNode::File { size, access, creation, modification } => Some(
            ScanTree::File {
                size: *size,
                access: *access,
                creation: *creation,
                modification: *modification,
            },
        ),
        FsNode::Dir { entries } => {
            let ghost listing = entries_view(entries@);
            let mut children: Vec<ScanEntry> = Vec::new();
            let mut size: u64 = 0;
            let mut i: usize = 0;
            assert(listing.take(0).len() == 0);
            while i < entries.len()
                invariant
                    i <= entries.len(),
                    node matches FsNode::Dir { entries: e } && e == entries,
                    listing == entries_view(entries@),
                    sum_bytes(listing) <= u64::MAX,
                    children_view(children@) == scan_entries(listing.take(i as int)),
                    size == sum_sizes(children_view(children@)),
                decreases entries.len() - i,
            {
                let entry = &entries[i];
                let ghost before = listing.take(i as int);
                let ghost upto = listing.take(i + 1);
                proof {
                    assert(upto.drop_last() == before);
                    assert(upto.last() == (entry.name@, entry.node@));
                    lemma_sum_bytes_split(listing, i + 1);
                    lemma_scan_entries_size(before);
                    lemma_scan_entries_size(upto);
                    lemma_scan_size(entry.node@);
                }
                match scan_node(&entry.node) {
                    Some(tree) => {
                        let ghost kept = children_view(children@);
                        assert(kept.push((entry.name@, tree@)).drop_last() == kept);
                        size = size + tree.get_size();
                        let child = ScanEntry { name: entry.name.clone(), tree };
                        children.push(child);
                        assert(children_view(children@) == kept.push((entry.name@, tree@)));
                    },
                    None => {},
                }
                i = i + 1;
            }
            assert(listing.take(i as int) == listing);
            Some(ScanTree::Dir { size, children })
        },
        FsNode::ClosedDir { .. } => {
            let children: Vec<ScanEntry> = Vec::new();
            assert(children_view(children@) == Seq::<(Seq<char>, ScanModel)>::empty());
            Some(ScanTree::Dir { size: 0, children })
        },
        _ => None,
    }
}

/// Builds the size-annotated tree of what was found at `root`.
///
/// Links, entries without metadata and entries that are neither file nor
/// directory are absent from the tree and from every size. A directory that
/// could not be opened is an empty directory of size 0, and so is a root
/// that is itself left out.
pub fn scan_dir(root: &FsNode) -> (tree: ScanTree)
    requires
        root@.bytes() <= u64::MAX,
    ensures
        tree@ == scan_root(root@),
        tree@.wf(),
        tree@.size() == root@.bytes(),
        root@.names_unique() ==> tree@.names_unique(),
{
    proof {
        lemma_scan_wf(root@);
        lemma_scan_size(root@);
        if root@.names_unique() {
            lemma_scan_names_unique(root@);
        }
    }
    match scan_node(root) {
        Some(tree) => tree,
        None => {
            let children: Vec<ScanEntry> = Vec::new();
            assert(children_view(children@) == Seq::<(Seq<char>, ScanModel)>::empty());
            ScanTree::Dir { size: 0, children }
        },
    }
}

/// The names and sizes by which the children of a directory are placed.
pub open spec fn child_keys(children: Seq<(Seq<char>, ScanModel)>) -> Seq<(Seq<char>, nat)> {
    Seq::new(children.len(), |i: int| (children[i].0, children[i].1.size()))
}

/// The sizes of the children of a directory sum to what their keys' do.
pub proof fn lemma_child_keys_total(children: Seq<(Seq<char>, ScanModel)>)
    ensures
        total(sizes_of(child_keys(children))) == sum_sizes(children),
    decreases children.len(),
{
    if children.len() > 0 {
        lemma_child_keys_total(children.drop_last());
        assert(sizes_of(child_keys(children)).drop_last() == sizes_of(
            child_keys(children.drop_last()),
        ));
    }
}

impl Ranked for ScanEntry {
    open spec fn key(&self) -> (Seq<char>, nat) {
        (self.name@, self.tree@.size())
    }

    fn placed_before(&self, other: &Self) -> (before: bool) {
        key_before(self.tree.get_size(), self.name.as_str(), other.tree.get_size(), other.name.as_str())
    }
}

} // verus!
