use vstd::prelude::*;

verus! {

/// What was found behind one name of a directory listing, read without
/// following symbolic links.
#[derive(Debug, PartialEq, Eq)]
pub enum FsNode {
    /// An entry that the listing of its directory failed to give; `reason`
    /// says why.
    Unlisted { reason: String },
    /// An entry whose metadata could not be read; `reason` says why.
    Unreadable { reason: String },
    /// A symbolic link, whatever it points to.
    Symlink,
    /// Neither a link, a regular file nor a directory.
    Other,
    /// A regular file: its length in bytes and its three timestamps.
    File { size: u64, access: i64, creation: i64, modification: i64 },
    /// A directory that was opened, with what its listing gave.
    Dir { entries: Vec<FsEntry> },
    /// A directory that could not be opened; `reason` says why.
    ClosedDir { reason: String },
}

/// One entry of a directory listing.
#[derive(Debug, PartialEq, Eq)]
pub struct FsEntry {
    pub name: String,
    pub node: FsNode,
}

/// The mathematical value of an [`FsNode`].
pub enum FsModel {
    Unlisted { reason: Seq<char> },
    Unreadable { reason: Seq<char> },
    Symlink,
    Other,
    File { size: nat, access: int, creation: int, modification: int },
    Dir { entries: Seq<(Seq<char>, FsModel)> },
    ClosedDir { reason: Seq<char> },
}

/// The bytes of the regular files below the entries of a listing.
pub open spec fn sum_bytes(entries: Seq<(Seq<char>, FsModel)>) -> nat
    decreases entries,
{
    if entries.len() == 0 {
        0
    } else {
        sum_bytes(entries.drop_last()) + entries.last().1.bytes()
    }
}

/// `i` is the index of one of the entries.
pub open spec fn entry_at(entries: Seq<(Seq<char>, FsModel)>, i: int) -> bool {
    0 <= i < entries.len()
}

impl FsModel {
    /// No opened directory holds two entries of one name.
    pub open spec fn names_unique(self) -> bool
        decreases self,
    {
        match self {
            FsModel::Dir { entries } => {
                &&& forall|i: int, j: int|
                    0 <= i < j < entries.len() ==> (#[trigger] entries[i]).0 != (
                    #[trigger] entries[j]).0
                &&& forall|i: int| 0 <= i < entries.len() ==> (#[trigger] entries[i]).1.names_unique()
            },
            _ => true,
        }
    }

    /// The two nodes hold the same entries under the same names: they
    /// differ at most in the order in which directories list their entries.
    pub open spec fn same_entries(self, other: FsModel) -> bool
        decreases self,
    {
        match self {
            FsModel::Dir { entries } => {
                &&& other is Dir
                &&& forall|i: int|
                    #[trigger] entry_at(entries, i) ==> exists|j: int|
                        0 <= j < other->Dir_entries.len() && (#[trigger] other->Dir_entries[j]).0
                            == entries[i].0 && entries[i].1.same_entries(other->Dir_entries[j].1)
                &&& forall|j: int|
                    #[trigger] entry_at(other->Dir_entries, j) ==> exists|i: int|
                        0 <= i < entries.len() && (#[trigger] entries[i]).0
                            == other->Dir_entries[j].0 && entries[i].1.same_entries(
                            other->Dir_entries[j].1,
                        )
            },
            _ => other == self,
        }
    }
}

impl FsModel {
    /// The sum of the lengths of the regular files that are reached from
    /// the node through opened directories alone, so without following a
    /// symbolic link.
    pub open spec fn bytes(self) -> nat
        decreases self,
    {
        match self {
            FsModel::File { size, .. } => size,
            FsModel::Dir { entries } => sum_bytes(entries),
            _ => 0,
        }
    }
}

impl View for FsNode {
    type V = FsModel;

    open spec fn view(&self) -> FsModel
        decreases self,
    {
        match self {
            FsNode::Unlisted { reason } => FsModel::Unlisted { reason: reason@ },
            FsNode::Unreadable { reason } => FsModel::Unreadable { reason: reason@ },
            FsNode::Symlink => FsModel::Symlink,
            FsNode::Other => FsModel::Other,
            FsNode::File { size, access, creation, modification } => FsModel::File {
                size: *size as nat,
                access: *access as int,
                creation: *creation as int,
                modification: *modification as int,
            },
            FsNode::Dir { entries } => FsModel::Dir { entries: entries_view(entries@) },
            FsNode::ClosedDir { reason } => FsModel::ClosedDir { reason: reason@ },
        }
    }
}

/// The values of the entries of a listing, in its order.
pub open spec fn entries_view(entries: Seq<FsEntry>) -> Seq<(Seq<char>, FsModel)>
    decreases entries,
{
    Seq::new(
        entries.len(),
        |i: int|
            if 0 <= i < entries.len() {
                (entries[i].name@, entries[i].node@)
            } else {
                (Seq::empty(), FsModel::Symlink)
            },
    )
}

/// The bytes below a listing are those below its first `n` entries and
/// those below the rest.
pub proof fn lemma_sum_bytes_split(entries: Seq<(Seq<char>, FsModel)>, n: int)
    requires
        0 <= n <= entries.len(),
    ensures
        sum_bytes(entries) == sum_bytes(entries.take(n)) + sum_bytes(entries.skip(n)),
    decreases entries.len(),
{
    if n == entries.len() {
        assert(entries.take(n) == entries);
        assert(entries.skip(n).len() == 0);
    } else {
        let front = entries.drop_last();
        lemma_sum_bytes_split(front, n);
        assert(front.take(n) == entries.take(n));
        assert(entries.skip(n).drop_last() == front.skip(n));
        assert(entries.skip(n).last() == entries.last());
    }
}

impl FsNode {
    /// The bytes of the regular files reached from the node without
    /// following a link, or `None` where they are more than a `u64` holds.
    pub fn checked_bytes(&self) -> (total: Option<u64>)
        ensures
            match total {
                Some(n) => n == self@.bytes(),
                None => self@.bytes() > u64::MAX,
            },
        decreases self,
    {
        match self {
            FsNode::File { size, .. } => Some(*size),
            FsNode::Dir { entries } => {
                let ghost listing = entries_view(entries@);
                let mut total: u64 = 0;
                let mut i: usize = 0;
                assert(listing.take(0).len() == 0);
                while i < entries.len()
                    invariant
                        i <= entries.len(),
                        self matches FsNode::Dir { entries: e } && e == entries,
                        listing == entries_view(entries@),
                        total == sum_bytes(listing.take(i as int)),
                    decreases entries.len() - i,
                {
                    let entry = &entries[i];
                    proof {
                        let upto = listing.take(i + 1);
                        assert(upto.drop_last() == listing.take(i as int));
                        assert(upto.last() == (entry.name@, entry.node@));
                        lemma_sum_bytes_split(listing, i + 1);
                    }
                    let below = match entry.node.checked_bytes() {
                        Some(n) => n,
                        None => {
                            return None;
                        },
                    };
                    total = match total.checked_add(below) {
                        Some(n) => n,
                        None => {
                            return None;
                        },
                    };
                    i = i + 1;
                }
                assert(listing.take(i as int) == listing);
                Some(total)
            },
            _ => Some(0),
        }
    }
}

} // verus!
