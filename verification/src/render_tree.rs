use crate::color::{gray_color, grayscale_from_age, name_color, name_color_of};
use crate::layout_laws::{lemma_layout_nested, lemma_layout_sorted};
use crate::order::{indices, keys_of, placement, placement_order, sizes_along};
use crate::scan_tree::{child_keys, children_view, ScanModel, ScanTree};
use vstd::prelude::*;

verus! {

/// What the colour of a file is taken from.
#[derive(Debug, Clone, Copy, PartialEq, Eq, Structural)]
pub enum ColorMode {
    /// The file's name.
    Name,
    /// The time of the last access.
    Access,
    /// The time of the last modification.
    Modification,
    /// The time of creation.
    Creation,
}

/// The length of a side of the root square, in the units that rectangles
/// are measured in.
pub const UNIT: u64 = 0x1_0000_0000;

/// A rectangle with its origin at the top left, in units of which `UNIT`
/// make up a side of the root square.
#[derive(Debug, Clone, Copy, PartialEq, Eq, Structural)]
pub struct Rect {
    pub x: u64,
    pub y: u64,
    pub width: u64,
    pub height: u64,
}

impl Rect {
    /// The rectangle lies within the root square.
    pub open spec fn within_unit(self) -> bool {
        self.x + self.width <= UNIT && self.y + self.height <= UNIT
    }

    /// `inner` lies within the rectangle.
    pub open spec fn contains(self, inner: Rect) -> bool {
        &&& self.x <= inner.x
        &&& inner.x + inner.width <= self.x + self.width
        &&& self.y <= inner.y
        &&& inner.y + inner.height <= self.y + self.height
    }

    /// The area of the rectangle, in square units.
    pub open spec fn area(self) -> int {
        self.width * self.height
    }

    /// The root square.
    pub open spec fn whole() -> Rect {
        Rect { x: 0, y: 0, width: UNIT, height: UNIT }
    }

    /// The extent of the rectangle along the axis that is sliced.
    pub open spec fn along(self, horizontal: bool) -> int {
        if horizontal {
            self.width as int
        } else {
            self.height as int
        }
    }

    /// The slice of the rectangle that starts `offset` units along the
    /// sliced axis and is `extent` units long.
    pub open spec fn slice(self, horizontal: bool, offset: int, extent: int) -> Rect {
        if horizontal {
            Rect { x: (self.x + offset) as u64, y: self.y, width: extent as u64, height: self.height }
        } else {
            Rect { x: self.x, y: (self.y + offset) as u64, width: self.width, height: extent as u64 }
        }
    }
}

/// The share of a length that falls to a part of a whole: none of it where
/// the whole is nothing, else the length times the part over the whole,
/// rounded down.
pub open spec fn share(along: int, part: int, whole: int) -> int {
    if whole <= 0 {
        0
    } else {
        along * part / whole
    }
}

/// Where the slice of the child at place `k` starts: where the slice
/// before it ends. No slice reaches past the end of the sliced length.
pub open spec fn offset_of(sizes: Seq<int>, k: int, along: int, whole: int) -> int
    decreases k,
{
    if k <= 0 {
        0
    } else {
        let start = offset_of(sizes, k - 1, along, whole);
        let end = start + share(along, sizes[k - 1], whole);
        if end <= along {
            end
        } else {
            along
        }
    }
}

/// How long the slice of the child at place `k` is.
pub open spec fn extent_of(sizes: Seq<int>, k: int, along: int, whole: int) -> int {
    offset_of(sizes, k + 1, along, whole) - offset_of(sizes, k, along, whole)
}

/// The sizes of the children, in the order in which they are placed.
pub open spec fn placed_sizes(children: Seq<(Seq<char>, ScanModel)>) -> Seq<int> {
    sizes_along(child_keys(children), placement(child_keys(children)))
}

/// The rectangle of the child at place `k` among the children of a
/// directory of size `whole` that occupies `rect`.
pub open spec fn slot(
    children: Seq<(Seq<char>, ScanModel)>,
    k: int,
    rect: Rect,
    horizontal: bool,
    whole: int,
) -> Rect {
    let sizes = placed_sizes(children);
    let along = rect.along(horizontal);
    rect.slice(horizontal, offset_of(sizes, k, along, whole), extent_of(sizes, k, along, whole))
}

/// The colour of a file.
pub open spec fn file_color(
    mode: ColorMode,
    name: Seq<char>,
    now: int,
    access: int,
    creation: int,
    modification: int,
) -> u32 {
    match mode {
        ColorMode::Name => name_color_of(name),
        ColorMode::Access => gray_color(now, access),
        ColorMode::Modification => gray_color(now, modification),
        ColorMode::Creation => gray_color(now, creation),
    }
}

/// The mathematical value of a [`RenderTree`].
pub enum RenderModel {
    Dir { name: Seq<char>, size: nat, children: Seq<RenderModel>, rect: Rect },
    File { name: Seq<char>, size: nat, color: u32, rect: Rect },
}

impl RenderModel {
    /// The size that the node carries.
    pub open spec fn size(self) -> nat {
        match self {
            RenderModel::Dir { size, .. } => size,
            RenderModel::File { size, .. } => size,
        }
    }

    /// The rectangle that the node occupies.
    pub open spec fn rect(self) -> Rect {
        match self {
            RenderModel::Dir { rect, .. } => rect,
            RenderModel::File { rect, .. } => rect,
        }
    }
}

/// The render tree of `tree` under the name `name`, laid out in `rect`.
///
/// A file takes the whole rectangle. A directory slices it among its
/// children, along the x axis where `horizontal` holds and along the y axis
/// where not: in the order of `placement`, each child gets the share of
/// the sliced side that its size has in the directory's, and is laid out
/// in its slice with the axis flipped.
pub open spec fn layout(
    tree: ScanModel,
    name: Seq<char>,
    mode: ColorMode,
    now: int,
    rect: Rect,
    horizontal: bool,
) -> RenderModel
    decreases tree,
{
    match tree {
        ScanModel::File { size, access, creation, modification } => RenderModel::File {
            name,
            size,
            color: file_color(mode, name, now, access, creation, modification),
            rect,
        },
        ScanModel::Dir { size, children } => RenderModel::Dir {
            name,
            size,
            children: Seq::new(
                children.len(),
                |k: int|
                    {
                        let i = placement(child_keys(children))[k];
                        if 0 <= i < children.len() {
                            layout(
                                children[i].1,
                                children[i].0,
                                mode,
                                now,
                                slot(children, k, rect, horizontal, size as int),
                                !horizontal,
                            )
                        } else {
                            RenderModel::Dir { name, size, children: Seq::empty(), rect }
                        }
                    },
            ),
            rect,
        },
    }
}

/// A tree of named rectangles: what a renderer draws.
#[derive(Debug, PartialEq, Eq)]
pub enum RenderTree {
    Dir { name: String, size: u64, children: Vec<RenderTree>, rect: Rect },
    File { name: String, size: u64, color: u32, rect: Rect },
}

impl View for RenderTree {
    type V = RenderModel;

    open spec fn view(&self) -> RenderModel
        decreases self,
    {
        match self {
            RenderTree::Dir { name, size, children, rect } => RenderModel::Dir {
                name: name@,
                size: *size as nat,
                children: nodes_view(children@),
                rect: *rect,
            },
            RenderTree::File { name, size, color, rect } => RenderModel::File {
                name: name@,
                size: *size as nat,
                color: *color,
                rect: *rect,
            },
        }
    }
}

/// The values of some nodes, in their order.
pub open spec fn nodes_view(nodes: Seq<RenderTree>) -> Seq<RenderModel>
    decreases nodes,
{
    Seq::new(
        nodes.len(),
        |i: int|
            if 0 <= i < nodes.len() {
                nodes[i]@
            } else {
                RenderModel::Dir {
                    name: Seq::empty(),
                    size: 0,
                    children: Seq::empty(),
                    rect: Rect::whole(),
                }
            },
    )
}

/// The share of a length is not negative, and for a part of the whole it
/// is within the length.
pub proof fn lemma_share_bounds(along: int, part: int, whole: int)
    requires
        0 <= along,
        0 <= part,
    ensures
        0 <= share(along, part, whole),
        part <= whole ==> share(along, part, whole) <= along,
{
    if whole > 0 {
        assert(0 <= along * part) by (nonlinear_arith)
            requires
                0 <= along,
                0 <= part,
        ;
        assert(0 <= (along * part) / whole) by (nonlinear_arith)
            requires
                0 <= along * part,
                0 < whole,
        ;
        if part <= whole {
            assert(along * part <= along * whole) by (nonlinear_arith)
                requires
                    0 <= along,
                    part <= whole,
            ;
            assert((along * part) / whole <= along) by (nonlinear_arith)
                requires
                    along * part <= along * whole,
                    0 < whole,
            ;
        }
    }
}

/// Every slice starts within the sliced length.
pub proof fn lemma_offset_bounds(sizes: Seq<int>, k: int, along: int, whole: int)
    requires
        0 <= along,
        forall|j: int| 0 <= j < sizes.len() ==> 0 <= #[trigger] sizes[j],
        0 <= k <= sizes.len(),
    ensures
        0 <= offset_of(sizes, k, along, whole) <= along,
    decreases k,
{
    if k > 0 {
        lemma_offset_bounds(sizes, k - 1, along, whole);
        lemma_share_bounds(along, sizes[k - 1], whole);
    }
}

impl RenderTree {
    /// The size that the node carries.
    pub fn get_size(&self) -> (size: u64)
        ensures
            size == self@.size(),
    {
        match self {
            RenderTree::Dir { size, .. } => *size,
            RenderTree::File { size, .. } => *size,
        }
    }

    /// The rectangle that the node occupies.
    pub fn get_rect(&self) -> (rect: Rect)
        ensures
            rect == self@.rect(),
    {
        match self {
            RenderTree::Dir { rect, .. } => *rect,
            RenderTree::File { rect, .. } => *rect,
        }
    }

    /// Lays `tree` out in the root square, sliced along the x axis first,
    /// and colours its files as `color_mode` says, seen at the time `now`.
    pub fn from_scan_tree(tree: ScanTree, name: String, color_mode: &ColorMode, now: i64) -> (placed:
        RenderTree)
        ensures
            placed@ == layout(tree@, name@, *color_mode, now as int, Rect::whole(), true),
            placed@.rect() == Rect::whole(),
            placed@.sorted_by_size(),
            placed@.nested(),
    {
        let whole = Rect { x: 0, y: 0, width: UNIT, height: UNIT };
        proof {
            lemma_layout_sorted(tree@, name@, *color_mode, now as int, whole, true);
            lemma_layout_nested(tree@, name@, *color_mode, now as int, whole, true);
        }
        layout_in(&tree, name, *color_mode, now, whole, true)
    }
}

/// Lays `tree` out in `rect`.
pub fn layout_in(
    tree: &ScanTree,
    name: String,
    mode: ColorMode,
    now: i64,
    rect: Rect,
    horizontal: bool,
) -> (placed: RenderTree)
    requires
        rect.within_unit(),
    ensures
        placed@ == layout(tree@, name@, mode, now as int, rect, horizontal),
    decreases tree,
{
    match tree {
        ScanTree::File { size, access, creation, modification } => {
            let color = match mode {
                ColorMode::Name => name_color(name.as_str()),
                ColorMode::Access => grayscale_from_age(now, *access),
                ColorMode::Modification => grayscale_from_age(now, *modification),
                ColorMode::Creation => grayscale_from_age(now, *creation),
            };
            RenderTree::File { name, size: *size, color, rect }
        },
        ScanTree::Dir { size, children } => {
            let order = placement_order(children);
            let ghost models = children_view(children@);
            assert(keys_of(children@) == child_keys(models));
            let ghost sizes = placed_sizes(models);
            let ghost whole = *size as int;
            let along: u64 = if horizontal {
                rect.width
            } else {
                rect.height
            };
            let mut placed: Vec<RenderTree> = Vec::new();
            let mut offset: u64 = 0;
            let mut k: usize = 0;
            while k < order.len()
                invariant
                    k <= order.len(),
                    order.len() == children.len(),
                    tree matches ScanTree::Dir { size: s, children: c } && c == children && s
                        == size,
                    models == children_view(children@),
                    sizes == placed_sizes(models),
                    whole == *size as int,
                    indices(order@) == placement(child_keys(models)),
                    forall|j: int| 0 <= j < order@.len() ==> (#[trigger] order@[j]) < children@.len(),
                    rect.within_unit(),
                    along == rect.along(horizontal),
                    offset == offset_of(sizes, k as int, along as int, whole),
                    offset <= along,
                    placed@.len() == k,
                    forall|j: int|
                        0 <= j < k ==> (#[trigger] placed@[j])@ == layout(
                            models[placement(child_keys(models))[j]].1,
                            models[placement(child_keys(models))[j]].0,
                            mode,
                            now as int,
                            slot(models, j, rect, horizontal, whole),
                            !horizontal,
                        ),
                decreases order.len() - k,
            {
                let i = order[k];
                let child = &children[i];
                let part = child.tree.get_size();
                proof {
                    assert(indices(order@)[k as int] == i);
                    assert(sizes[k as int] == part);
                    assert forall|j: int| 0 <= j < sizes.len() implies 0 <= #[trigger] sizes[j] by {}
                    lemma_offset_bounds(sizes, k + 1, along as int, whole);
                    lemma_share_bounds(along as int, part as int, whole);
                    assert(along as int * part as int <= 0xffff_ffff_ffff_ffff_ffff_ffff)
                        by (nonlinear_arith)
                        requires
                            0 <= along <= 0x1_0000_0000,
                            0 <= part <= 0xffff_ffff_ffff_ffff,
                    ;
                }
                let wide: u128 = if *size == 0 {
                    0
                } else {
                    (along as u128 * part as u128) / (*size as u128)
                };
                assert(wide == share(along as int, part as int, whole));
                let rest: u64 = along - offset;
                let extent: u64 = if wide <= rest as u128 {
                    wide as u64
                } else {
                    rest
                };
                assert(extent == extent_of(sizes, k as int, along as int, whole));
                let inner = if horizontal {
                    Rect { x: rect.x + offset, y: rect.y, width: extent, height: rect.height }
                } else {
                    Rect { x: rect.x, y: rect.y + offset, width: rect.width, height: extent }
                };
                assert(inner == slot(models, k as int, rect, horizontal, whole));
                let node = layout_in(&child.tree, child.name.clone(), mode, now, inner, !horizontal);
                placed.push(node);
                offset = offset + extent;
                k = k + 1;
            }
            let laid = RenderTree::Dir { name, size: *size, children: placed, rect };
            proof {
                let expected = layout(tree@, name@, mode, now as int, rect, horizontal);
                assert(expected->Dir_children.len() == laid@->Dir_children.len());
                assert forall|j: int| 0 <= j < placed@.len() implies laid@->Dir_children[j]
                    == expected->Dir_children[j] by {
                    assert(indices(order@)[j] == order@[j]);
                }
                assert(laid@->Dir_children == expected->Dir_children);
            }
            laid
        },
    }
}

/// What a renderer draws for one file: a rectangle and its colour.
#[derive(Debug, Clone, Copy, PartialEq, Eq, Structural)]
pub struct Tile {
    pub rect: Rect,
    pub color: u32,
}

/// The tiles of a tree: one for each file, in the order of the tree.
pub open spec fn tiles_of(tree: RenderModel) -> Seq<Tile>
    decreases tree,
{
    match tree {
        RenderModel::File { color, rect, .. } => seq![Tile { rect, color }],
        RenderModel::Dir { children, .. } => tiles_in(children),
    }
}

/// The tiles of some trees, one tree after the other.
pub open spec fn tiles_in(trees: Seq<RenderModel>) -> Seq<Tile>
    decreases trees,
{
    if trees.len() == 0 {
        Seq::empty()
    } else {
        tiles_in(trees.drop_last()) + tiles_of(trees.last())
    }
}

impl RenderTree {
    /// The tiles to draw: one for each file of the tree.
    pub fn tiles(&self) -> (tiles: Vec<Tile>)
        ensures
            tiles@ == tiles_of(self@),
    {
        let mut tiles: Vec<Tile> = Vec::new();
        tiles_into(self, &mut tiles);
        assert(Seq::<Tile>::empty() + tiles_of(self@) == tiles_of(self@));
        tiles
    }
}

/// Adds the tiles of `tree` to `tiles`.
fn tiles_into(tree: &RenderTree, tiles: &mut Vec<Tile>)
    ensures
        final(tiles)@ == old(tiles)@ + tiles_of(tree@),
    decreases tree,
{
    let ghost before = tiles@;
    match tree {
        RenderTree::File { color, rect, .. } => {
            tiles.push(Tile { rect: *rect, color: *color });
            assert(tiles@ == before + tiles_of(tree@));
        },
        RenderTree::Dir { children, .. } => {
            let ghost models = nodes_view(children@);
            let mut i: usize = 0;
            assert(models.take(0).len() == 0);
            assert(tiles@ == before + tiles_in(models.take(0)));
            while i < children.len()
                invariant
                    i <= children.len(),
                    tree matches RenderTree::Dir { children: c, .. } && c == children,
                    models == nodes_view(children@),
                    tiles@ == before + tiles_in(models.take(i as int)),
                decreases children.len() - i,
            {
                proof {
                    let upto = models.take(i + 1);
                    assert(upto.drop_last() == models.take(i as int));
                    assert(upto.last() == children@[i as int]@);
                }
                tiles_into(&children[i], tiles);
                assert(tiles@ == before + tiles_in(models.take(i + 1)));
                i = i + 1;
            }
            assert(models.take(i as int) == models);
        },
    }
}

} // verus!
