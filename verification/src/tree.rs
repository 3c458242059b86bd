use crate::color::{name_color, name_color_of};
use crate::order::{indices, key_before, keys_of, placement, placement_order, Ranked};
use vstd::prelude::*;

verus! {

/// A tree of sizes that grows by one file at a time.
#[derive(Debug, PartialEq, Eq)]
pub enum Tree {
    Node { size: u64, children: Vec<TreeEntry> },
    Leaf(u64),
}

/// One child of a node, under its name.
#[derive(Debug, PartialEq, Eq)]
pub struct TreeEntry {
    pub name: String,
    pub tree: Tree,
}

/// The mathematical value of a [`Tree`].
pub enum TreeModel {
    Node { size: nat, children: Seq<(Seq<char>, TreeModel)> },
    Leaf(nat),
}

impl TreeModel {
    /// The size that the node carries.
    pub open spec fn size(self) -> nat {
        match self {
            TreeModel::Node { size, .. } => size,
            TreeModel::Leaf(size) => size,
        }
    }

    /// The node without children, of size 0.
    pub open spec fn empty() -> TreeModel {
        TreeModel::Node { size: 0, children: Seq::empty() }
    }
}

/// The index of the first child named `name`, or the number of children
/// where none has that name.
pub open spec fn position(children: Seq<(Seq<char>, TreeModel)>, name: Seq<char>) -> int
    decreases children.len(),
{
    if children.len() == 0 {
        0
    } else if children[0].0 == name {
        0
    } else {
        1 + position(children.skip(1), name)
    }
}

/// The tree after a file of `value` bytes was entered under `path`, a
/// sequence of names that leads down from the root.
///
/// Every node on the way grows by `value`, nodes that are missing are made,
/// and the node at the end of the path becomes a leaf of `value`. A leaf
/// met on the way becomes an empty node, uses up one name of the path, and
/// the way goes on from it.
pub open spec fn inserted(tree: TreeModel, path: Seq<Seq<char>>, value: nat) -> TreeModel
    decreases path.len(),
{
    if path.len() == 0 {
        TreeModel::Leaf(value)
    } else {
        match tree {
            TreeModel::Leaf(_) => inserted(TreeModel::empty(), path.skip(1), value),
            TreeModel::Node { size, children } => {
                let at = position(children, path[0]);
                if at < children.len() {
                    TreeModel::Node {
                        size: size + value,
                        children: children.update(
                            at,
                            (path[0], inserted(children[at].1, path.skip(1), value)),
                        ),
                    }
                } else {
                    TreeModel::Node {
                        size: size + value,
                        children: children.push(
                            (path[0], inserted(TreeModel::empty(), path.skip(1), value)),
                        ),
                    }
                }
            },
        }
    }
}

/// No size on the way down `path` leaves the range of `u64` when it grows
/// by `value`.
pub open spec fn has_room(tree: TreeModel, path: Seq<Seq<char>>, value: nat) -> bool
    decreases path.len(),
{
    if path.len() == 0 {
        true
    } else {
        match tree {
            TreeModel::Leaf(_) => true,
            TreeModel::Node { size, children } => {
                let at = position(children, path[0]);
                &&& size + value <= u64::MAX
                &&& at < children.len() ==> has_room(children[at].1, path.skip(1), value)
            },
        }
    }
}

/// The size found under `path`: that of the node it leads to, and 0 where
/// it leads to none.
pub open spec fn lookup(tree: TreeModel, path: Seq<Seq<char>>) -> nat
    decreases path.len(),
{
    if path.len() == 0 {
        tree.size()
    } else {
        match tree {
            TreeModel::Leaf(_) => 0,
            TreeModel::Node { children, .. } => {
                let at = position(children, path[0]);
                if at < children.len() {
                    lookup(children[at].1, path.skip(1))
                } else {
                    0
                }
            },
        }
    }
}

/// The values of the children of a node, in their order.
pub open spec fn entries_view(children: Seq<TreeEntry>) -> Seq<(Seq<char>, TreeModel)>
    decreases children,
{
    Seq::new(
        children.len(),
        |i: int|
            if 0 <= i < children.len() {
                (children[i].name@, children[i].tree@)
            } else {
                (Seq::empty(), TreeModel::empty())
            },
    )
}

impl View for Tree {
    type V = TreeModel;

    open spec fn view(&self) -> TreeModel
        decreases self,
    {
        match self {
            Tree::Node { size, children } => TreeModel::Node {
                size: *size as nat,
                children: entries_view(children@),
            },
            Tree::Leaf(size) => TreeModel::Leaf(*size as nat),
        }
    }
}

/// The names of a path.
pub open spec fn names(path: Seq<String>) -> Seq<Seq<char>> {
    Seq::new(path.len(), |i: int| path[i]@)
}

/// The first child named `name` is at `at` where none before it has that
/// name and it has, and there is none where no child has that name.
pub proof fn lemma_position(children: Seq<(Seq<char>, TreeModel)>, name: Seq<char>, at: int)
    requires
        0 <= at <= children.len(),
        forall|j: int| 0 <= j < at ==> (#[trigger] children[j]).0 != name,
        at < children.len() ==> children[at].0 == name,
    ensures
        position(children, name) == at,
    decreases children.len(),
{
    if children.len() > 0 && at > 0 {
        let rest = children.skip(1);
        assert forall|j: int| 0 <= j < at - 1 implies (#[trigger] rest[j]).0 != name by {
            assert(rest[j] == children[j + 1]);
        }
        assert(children[0].0 != name);
        lemma_position(rest, name, at - 1);
    }
}

/// The child at the position of a name has that name, and the position is
/// within the children or just behind them.
pub proof fn lemma_position_found(children: Seq<(Seq<char>, TreeModel)>, name: Seq<char>)
    ensures
        0 <= position(children, name) <= children.len(),
        position(children, name) < children.len() ==> children[position(children, name)].0
            == name,
        forall|j: int| 0 <= j < position(children, name) ==> (#[trigger] children[j]).0 != name,
    decreases children.len(),
{
    if children.len() > 0 && children[0].0 != name {
        let rest = children.skip(1);
        lemma_position_found(rest, name);
        assert forall|j: int| 0 <= j < position(children, name) implies (
        #[trigger] children[j]).0 != name by {
            if j > 0 {
                assert(children[j] == rest[j - 1]);
            }
        }
    }
}

/// The index of the first child named `name`, or the number of children
/// where none has that name.
fn find(children: &Vec<TreeEntry>, name: &String) -> (at: usize)
    ensures
        at == position(entries_view(children@), name@),
        at <= children.len(),
{
    let mut at: usize = 0;
    while at < children.len() && children[at].name != *name
        invariant
            at <= children.len(),
            forall|j: int| 0 <= j < at ==> (#[trigger] entries_view(children@)[j]).0 != name@,
        decreases children.len() - at,
    {
        at = at + 1;
    }
    proof {
        lemma_position(entries_view(children@), name@, at as int);
    }
    at
}

impl Tree {
    /// The node without children, of size 0.
    pub fn new() -> (tree: Tree)
        ensures
            tree@ == TreeModel::empty(),
    {
        let children: Vec<TreeEntry> = Vec::new();
        assert(entries_view(children@) == Seq::<(Seq<char>, TreeModel)>::empty());
        Tree::Node { size: 0, children }
    }

    /// The size that the node carries.
    pub fn get_size(&self) -> (size: u64)
        ensures
            size == self@.size(),
    {
        match self {
            Tree::Node { size, .. } => *size,
            Tree::Leaf(size) => *size,
        }
    }

    /// The size found under `path`, and 0 where it leads to no node.
    pub fn get(&self, path: &Vec<String>) -> (size: u64)
        ensures
            size == lookup(self@, names(path@)),
    {
        let mut current = self;
        let mut from: usize = 0;
        assert(names(path@).skip(0) == names(path@));
        while from < path.len()
            invariant
                from <= path.len(),
                lookup(self@, names(path@)) == lookup(current@, names(path@).skip(from as int)),
            decreases path.len() - from,
        {
            let ghost rest = names(path@).skip(from as int);
            assert(rest[0] == path@[from as int]@);
            assert(rest.skip(1) == names(path@).skip(from + 1));
            match current {
                Tree::Node { children, .. } => {
                    let at = find(children, &path[from]);
                    if at < children.len() {
                        current = &children[at].tree;
                    } else {
                        return 0;
                    }
                },
                Tree::Leaf(_) => {
                    return 0;
                },
            }
            from = from + 1;
        }
        current.get_size()
    }
}

/// An empty node has room for every value that a `u64` holds.
pub proof fn lemma_empty_has_room(path: Seq<Seq<char>>, value: nat)
    requires
        value <= u64::MAX,
    ensures
        has_room(TreeModel::empty(), path, value),
{
    if path.len() > 0 {
        assert(position(Seq::<(Seq<char>, TreeModel)>::empty(), path[0]) == 0);
    }
}

impl Tree {
    /// Enters a file of `value` bytes under `path`, the names that lead
    /// down to it from the root.
    pub fn insert(&mut self, path: &Vec<String>, value: u64)
        requires
            has_room(old(self)@, names(path@), value as nat),
        ensures
            final(self)@ == inserted(old(self)@, names(path@), value as nat),
    {
        assert(names(path@).skip(0) == names(path@));
        self.insert_from(path, 0, value);
    }

    /// Enters a file of `value` bytes under what is left of `path` from the
    /// index `from` on.
    fn insert_from(&mut self, path: &Vec<String>, from: usize, value: u64)
        requires
            from <= path.len(),
            has_room(old(self)@, names(path@).skip(from as int), value as nat),
        ensures
            final(self)@ == inserted(old(self)@, names(path@).skip(from as int), value as nat),
        decreases path.len() - from,
    {
        let ghost rest = names(path@).skip(from as int);
        if from == path.len() {
            *self = Tree::Leaf(value);
            return ;
        }
        proof {
            assert(rest[0] == path@[from as int]@);
            assert(rest.skip(1) == names(path@).skip(from + 1));
            lemma_empty_has_room(rest.skip(1), value as nat);
        }
        match self {
            Tree::Node { size, children } => {
                let ghost before = entries_view(children@);
                *size = *size + value;
                let at = find(children, &path[from]);
                if at == children.len() {
                    let fresh = TreeEntry { name: path[from].clone(), tree: Tree::new() };
                    children.push(fresh);
                    assert(entries_view(children@) == before.push((rest[0], TreeModel::empty())));
                }
                let ghost with_child = entries_view(children@);
                proof {
                    lemma_position_found(before, rest[0]);
                }
                children[at].tree.insert_from(path, from + 1, value);
                assert(entries_view(children@) == with_child.update(
                    at as int,
                    (rest[0], inserted(with_child[at as int].1, rest.skip(1), value as nat)),
                ));
                assert(at < before.len() ==> with_child == before);
                assert(at == before.len() ==> with_child.update(
                    at as int,
                    (rest[0], inserted(TreeModel::empty(), rest.skip(1), value as nat)),
                ) == before.push((rest[0], inserted(TreeModel::empty(), rest.skip(1), value as nat))));
            },
            Tree::Leaf(_) => {
                *self = Tree::new();
                self.insert_from(path, from + 1, value);
            },
        }
    }
}

impl Tree {
    /// Whether a file of `value` bytes can be entered under `path` with no
    /// size on the way leaving the range of `u64`.
    pub fn has_room_for(&self, path: &Vec<String>, value: u64) -> (room: bool)
        ensures
            room == has_room(self@, names(path@), value as nat),
    {
        let mut current = self;
        let mut from: usize = 0;
        assert(names(path@).skip(0) == names(path@));
        while from < path.len()
            invariant
                from <= path.len(),
                has_room(self@, names(path@), value as nat) == has_room(
                    current@,
                    names(path@).skip(from as int),
                    value as nat,
                ),
            decreases path.len() - from,
        {
            let ghost rest = names(path@).skip(from as int);
            assert(rest[0] == path@[from as int]@);
            assert(rest.skip(1) == names(path@).skip(from + 1));
            match current {
                Tree::Node { size, children } => {
                    if *size > u64::MAX - value {
                        return false;
                    }
                    let at = find(children, &path[from]);
                    if at < children.len() {
                        current = &children[at].tree;
                    } else {
                        return true;
                    }
                },
                Tree::Leaf(_) => {
                    return true;
                },
            }
            from = from + 1;
        }
        true
    }
}

/// A tree of names and sizes with a colour for each leaf.
#[derive(Debug, PartialEq, Eq)]
pub enum FsTree {
    Node { name: String, size: u64, children: Vec<FsTree> },
    Leaf { name: String, size: u64, color: u32 },
}

/// The mathematical value of an [`FsTree`].
pub enum FsTreeModel {
    Node { name: Seq<char>, size: nat, children: Seq<FsTreeModel> },
    Leaf { name: Seq<char>, size: nat, color: u32 },
}

impl FsTreeModel {
    /// The size that the node carries.
    pub open spec fn size(self) -> nat {
        match self {
            FsTreeModel::Node { size, .. } => size,
            FsTreeModel::Leaf { size, .. } => size,
        }
    }
}

/// The names and sizes by which the children of a node are placed.
pub open spec fn entry_keys(children: Seq<(Seq<char>, TreeModel)>) -> Seq<(Seq<char>, nat)> {
    Seq::new(children.len(), |i: int| (children[i].0, children[i].1.size()))
}

/// The named tree of `tree` under the name `name`: each leaf with the
/// colour of its name, the children of each node in the order of
/// `placement`.
pub open spec fn fs_tree_of(tree: TreeModel, name: Seq<char>) -> FsTreeModel
    decreases tree,
{
    match tree {
        TreeModel::Leaf(size) => FsTreeModel::Leaf { name, size, color: name_color_of(name) },
        TreeModel::Node { size, children } => FsTreeModel::Node {
            name,
            size,
            children: Seq::new(
                children.len(),
                |k: int|
                    {
                        let i = placement(entry_keys(children))[k];
                        if 0 <= i < children.len() {
                            fs_tree_of(children[i].1, children[i].0)
                        } else {
                            FsTreeModel::Leaf { name, size, color: 0 }
                        }
                    },
            ),
        },
    }
}

impl View for FsTree {
    type V = FsTreeModel;

    open spec fn view(&self) -> FsTreeModel
        decreases self,
    {
        match self {
            FsTree::Node { name, size, children } => FsTreeModel::Node {
                name: name@,
                size: *size as nat,
                children: named_view(children@),
            },
            FsTree::Leaf { name, size, color } => FsTreeModel::Leaf {
                name: name@,
                size: *size as nat,
                color: *color,
            },
        }
    }
}

/// The values of some nodes, in their order.
pub open spec fn named_view(nodes: Seq<FsTree>) -> Seq<FsTreeModel>
    decreases nodes,
{
    Seq::new(
        nodes.len(),
        |i: int|
            if 0 <= i < nodes.len() {
                nodes[i]@
            } else {
                FsTreeModel::Leaf { name: Seq::empty(), size: 0, color: 0 }
            },
    )
}

impl Ranked for TreeEntry {
    open spec fn key(&self) -> (Seq<char>, nat) {
        (self.name@, self.tree@.size())
    }

    fn placed_before(&self, other: &Self) -> (before: bool) {
        key_before(self.tree.get_size(), self.name.as_str(), other.tree.get_size(), other.name.as_str())
    }
}

impl FsTree {
    /// The size that the node carries.
    pub fn get_size(&self) -> (size: u64)
        ensures
            size == self@.size(),
    {
        match self {
            FsTree::Node { size, .. } => *size,
            FsTree::Leaf { size, .. } => *size,
        }
    }
}

impl Tree {
    /// The named tree of this tree under the name `name`.
    pub fn to_fs_tree(&self, name: String) -> (named: FsTree)
        ensures
            named@ == fs_tree_of(self@, name@),
        decreases self,
    {
        match self {
            Tree::Leaf(size) => {
                let color = name_color(name.as_str());
                FsTree::Leaf { size: *size, color, name }
            },
            Tree::Node { size, children } => {
                let order = placement_order(children);
                let ghost models = entries_view(children@);
                assert(keys_of(children@) == entry_keys(models));
                let mut placed: Vec<FsTree> = Vec::new();
                let mut k: usize = 0;
                while k < order.len()
                    invariant
                        k <= order.len(),
                        order.len() == children.len(),
                        self matches Tree::Node { size: s, children: c } && c == children && s
                            == size,
                        models == entries_view(children@),
                        indices(order@) == placement(entry_keys(models)),
                        forall|j: int|
                            0 <= j < order@.len() ==> (#[trigger] order@[j]) < children@.len(),
                        placed@.len() == k,
                        forall|j: int|
                            0 <= j < k ==> (#[trigger] placed@[j])@ == fs_tree_of(
                                models[placement(entry_keys(models))[j]].1,
                                models[placement(entry_keys(models))[j]].0,
                            ),
                    decreases order.len() - k,
                {
                    let i = order[k];
                    let child = &children[i];
                    assert(indices(order@)[k as int] == i);
                    let node = child.tree.to_fs_tree(child.name.clone());
                    placed.push(node);
                    k = k + 1;
                }
                let named = FsTree::Node { size: *size, children: placed, name };
                proof {
                    let expected = fs_tree_of(self@, name@);
                    assert forall|j: int| 0 <= j < placed@.len() implies named@->Node_children[j]
                        == expected->Node_children[j] by {
                        assert(indices(order@)[j] == order@[j]);
                    }
                    assert(named@->Node_children == expected->Node_children);
                }
                named
            },
        }
    }
}

/// No leaf is met on the way down `path` before its end.
pub open spec fn clear_way(tree: TreeModel, path: Seq<Seq<char>>) -> bool
    decreases path.len(),
{
    if path.len() == 0 {
        true
    } else {
        match tree {
            TreeModel::Leaf(_) => false,
            TreeModel::Node { children, .. } => {
                let at = position(children, path[0]);
                at < children.len() ==> clear_way(children[at].1, path.skip(1))
            },
        }
    }
}

/// Where no leaf is met on the way, every node on the way down `path`,
/// the root first, has grown by `value` after a file of `value` bytes was
/// entered under `path`, and the size found under `path` itself is `value`.
pub proof fn lemma_insert_then_get(tree: TreeModel, path: Seq<Seq<char>>, value: nat, n: int)
    requires
        clear_way(tree, path),
        0 <= n <= path.len(),
    ensures
        lookup(inserted(tree, path, value), path) == value,
        n < path.len() ==> lookup(inserted(tree, path, value), path.take(n)) == lookup(
            tree,
            path.take(n),
        ) + value,
    decreases path.len(),
{
    if path.len() > 0 {
        let rest = path.skip(1);
        let children = tree->Node_children;
        let at = position(children, path[0]);
        let below = if at < children.len() {
            children[at].1
        } else {
            TreeModel::empty()
        };
        let grown = inserted(tree, path, value)->Node_children;
        lemma_position_found(children, path[0]);
        assert(position(Seq::<(Seq<char>, TreeModel)>::empty(), rest[0]) == 0) by {
            lemma_position_found(Seq::<(Seq<char>, TreeModel)>::empty(), rest[0]);
        }
        assert(clear_way(below, rest));
        assert(grown[at] == (path[0], inserted(below, rest, value)));
        assert forall|j: int| 0 <= j < at implies (#[trigger] grown[j]).0 != path[0] by {
            assert(grown[j] == children[j]);
        }
        lemma_position(grown, path[0], at);
        lemma_insert_then_get(below, rest, value, if n > 0 {
            n - 1
        } else {
            0
        });
        if 0 < n < path.len() {
            assert(path.take(n)[0] == path[0]);
            assert(path.take(n).skip(1) == rest.take(n - 1));
            if at == children.len() {
                assert(lookup(TreeModel::empty(), rest.take(n - 1)) == 0) by {
                    if rest.take(n - 1).len() > 0 {
                        lemma_position_found(
                            Seq::<(Seq<char>, TreeModel)>::empty(),
                            rest.take(n - 1)[0],
                        );
                    }
                }
            }
        }
        if n == 0 {
            assert(path.take(0).len() == 0);
        }
    }
}

} // verus!
