use crate::color::name_color_of;
use crate::order::{
    lemma_placement_ranked, lemma_placement_total, lemma_total_prefix, placement, total,
};
use crate::order_laws::{items_along, lemma_placement_of_same_keys};
use crate::scan_laws::{
    lemma_names_unique_keys, lemma_same_entries_keys, lemma_scan_ignores_order,
    lemma_scan_names_unique,
};
use crate::render_tree::{
    extent_of, file_color, layout, lemma_offset_bounds, lemma_share_bounds, offset_of,
    placed_sizes, share, slot, tiles_in, tiles_of, ColorMode, Rect, RenderModel,
};
use crate::fs_node::FsModel;
use crate::scan_tree::{child_at, child_keys, lemma_child_keys_total, scan_root, sum_sizes, ScanModel};
use vstd::prelude::*;

verus! {

impl RenderModel {
    /// In every directory of the tree the children stand by size, the
    /// largest first.
    pub open spec fn sorted_by_size(self) -> bool
        decreases self,
    {
        match self {
            RenderModel::Dir { children, .. } => {
                &&& forall|k: int|
                    0 <= k < children.len() - 1 ==> children[k].size() >= (
                    #[trigger] children[k + 1]).size()
                &&& forall|k: int|
                    0 <= k < children.len() ==> (#[trigger] children[k]).sorted_by_size()
            },
            RenderModel::File { .. } => true,
        }
    }

    /// Every rectangle of the tree lies within the rectangle of its parent.
    pub open spec fn nested(self) -> bool
        decreases self,
    {
        match self {
            RenderModel::Dir { children, rect, .. } => {
                &&& forall|k: int|
                    0 <= k < children.len() ==> rect.contains((#[trigger] children[k]).rect())
                &&& forall|k: int| 0 <= k < children.len() ==> (#[trigger] children[k]).nested()
            },
            RenderModel::File { .. } => true,
        }
    }
}

/// A laid-out node has the size and the rectangle it was given.
pub proof fn lemma_layout_keeps(
    tree: ScanModel,
    name: Seq<char>,
    mode: ColorMode,
    now: int,
    rect: Rect,
    horizontal: bool,
)
    ensures
        layout(tree, name, mode, now, rect, horizontal).size() == tree.size(),
        layout(tree, name, mode, now, rect, horizontal).rect() == rect,
        tree is Dir ==> layout(tree, name, mode, now, rect, horizontal) is Dir && layout(
            tree,
            name,
            mode,
            now,
            rect,
            horizontal,
        )->Dir_children.len() == tree->Dir_children.len(),
{
}

/// The layout is a function of the tree, the name, the colour mode and the
/// time alone: two results for equal inputs are equal, in geometry and in
/// colour.
pub proof fn lemma_layout_deterministic(
    first: RenderModel,
    second: RenderModel,
    tree: ScanModel,
    name: Seq<char>,
    mode: ColorMode,
    now: int,
)
    requires
        first == layout(tree, name, mode, now, Rect::whole(), true),
        second == layout(tree, name, mode, now, Rect::whole(), true),
    ensures
        first == second,
{
}

/// The colour that a file gets from its name depends on the name alone.
pub proof fn lemma_name_color_deterministic(
    name: Seq<char>,
    now: int,
    access: int,
    creation: int,
    modification: int,
)
    ensures
        file_color(ColorMode::Name, name, now, access, creation, modification) == name_color_of(
            name,
        ),
{
}

/// In every directory of a laid-out tree the children stand by size, the
/// largest first.
pub proof fn lemma_layout_sorted(
    tree: ScanModel,
    name: Seq<char>,
    mode: ColorMode,
    now: int,
    rect: Rect,
    horizontal: bool,
)
    ensures
        layout(tree, name, mode, now, rect, horizontal).sorted_by_size(),
    decreases tree,
{
    match tree {
        ScanModel::Dir { size, children } => {
            let laid = layout(tree, name, mode, now, rect, horizontal);
            let placed = laid->Dir_children;
            let order = placement(child_keys(children));
            lemma_placement_ranked(child_keys(children));
            assert forall|k: int| 0 <= k < placed.len() implies (
            #[trigger] placed[k]).sorted_by_size() && placed[k].size() == children[order[k]].1.size() by {
                let i = order[k];
                let inner = slot(children, k, rect, horizontal, size as int);
                lemma_layout_sorted(children[i].1, children[i].0, mode, now, inner, !horizontal);
                lemma_layout_keeps(children[i].1, children[i].0, mode, now, inner, !horizontal);
            }
            assert forall|k: int| 0 <= k < placed.len() - 1 implies placed[k].size() >= (
            #[trigger] placed[k + 1]).size() by {
                assert(placed[k].size() == children[order[k]].1.size());
                assert(placed[k + 1].size() == children[order[k + 1]].1.size());
            }
        },
        ScanModel::File { .. } => {},
    }
}

/// The slices of a rectangle that lies within the root square lie within
/// the rectangle, one behind the other.
pub proof fn lemma_slot_within(
    children: Seq<(Seq<char>, ScanModel)>,
    k: int,
    rect: Rect,
    horizontal: bool,
    whole: int,
)
    requires
        rect.within_unit(),
        0 <= k < children.len(),
    ensures
        rect.contains(slot(children, k, rect, horizontal, whole)),
        slot(children, k, rect, horizontal, whole).within_unit(),
        0 <= offset_of(placed_sizes(children), k, rect.along(horizontal), whole),
        0 <= extent_of(placed_sizes(children), k, rect.along(horizontal), whole),
        offset_of(placed_sizes(children), k + 1, rect.along(horizontal), whole) <= rect.along(
            horizontal,
        ),
{
    let sizes = placed_sizes(children);
    let along = rect.along(horizontal);
    lemma_placement_ranked(child_keys(children));
    lemma_offset_bounds(sizes, k, along, whole);
    lemma_offset_bounds(sizes, k + 1, along, whole);
    lemma_share_bounds(along, sizes[k], whole);
}

/// Every rectangle of a tree laid out within the root square lies within
/// the rectangle of its parent.
pub proof fn lemma_layout_nested(
    tree: ScanModel,
    name: Seq<char>,
    mode: ColorMode,
    now: int,
    rect: Rect,
    horizontal: bool,
)
    requires
        rect.within_unit(),
    ensures
        layout(tree, name, mode, now, rect, horizontal).nested(),
    decreases tree,
{
    match tree {
        ScanModel::Dir { size, children } => {
            let laid = layout(tree, name, mode, now, rect, horizontal);
            let placed = laid->Dir_children;
            let order = placement(child_keys(children));
            lemma_placement_ranked(child_keys(children));
            assert forall|k: int| 0 <= k < placed.len() implies (#[trigger] placed[k]).nested()
                && rect.contains(placed[k].rect()) by {
                let i = order[k];
                let inner = slot(children, k, rect, horizontal, size as int);
                lemma_slot_within(children, k, rect, horizontal, size as int);
                lemma_layout_nested(children[i].1, children[i].0, mode, now, inner, !horizontal);
                lemma_layout_keeps(children[i].1, children[i].0, mode, now, inner, !horizontal);
            }
        },
        ScanModel::File { .. } => {},
    }
}

/// Where the sizes sum to the whole and the whole is not nothing, every
/// slice is as long as its share, and the first `k` slices fall short of
/// the exact share of their sizes by less than one unit each.
pub proof fn lemma_offsets_exact(sizes: Seq<int>, k: int, along: int, whole: int)
    requires
        0 <= along,
        0 < whole,
        total(sizes) == whole,
        forall|j: int| 0 <= j < sizes.len() ==> 0 <= #[trigger] sizes[j],
        0 <= k <= sizes.len(),
    ensures
        offset_of(sizes, k, along, whole) * whole <= along * total(sizes.take(k)),
        offset_of(sizes, k, along, whole) * whole >= along * total(sizes.take(k)) - k * whole,
        k > 0 ==> offset_of(sizes, k, along, whole) * whole > along * total(sizes.take(k)) - k
            * whole,
        k > 0 ==> extent_of(sizes, k - 1, along, whole) == share(along, sizes[k - 1], whole),
    decreases k,
{
    if k == 0 {
        assert(sizes.take(0).len() == 0);
    } else {
        lemma_offsets_exact(sizes, k - 1, along, whole);
        lemma_total_prefix(sizes, k - 1);
        lemma_total_prefix(sizes, k);
        let start = offset_of(sizes, k - 1, along, whole);
        let part = sizes[k - 1];
        let before = total(sizes.take(k - 1));
        let upto = total(sizes.take(k));
        let long = share(along, part, whole);
        assert(long == (along * part) / whole);
        assert(long * whole <= along * part < long * whole + whole) by (nonlinear_arith)
            requires
                long == (along * part) / whole,
                0 < whole,
        ;
        assert(along * upto == along * before + along * part) by (nonlinear_arith)
            requires
                upto == before + part,
        ;
        assert((start + long) * whole == start * whole + long * whole) by (nonlinear_arith);
        assert(along * upto <= along * whole) by (nonlinear_arith)
            requires
                0 <= along,
                upto <= whole,
        ;
        assert(start + long <= along) by (nonlinear_arith)
            requires
                (start + long) * whole <= along * whole,
                0 < whole,
        ;
        assert(offset_of(sizes, k, along, whole) == start + long);
        assert(k * whole == (k - 1) * whole + whole) by (nonlinear_arith);
    }
}

/// The slices of a directory whose size is the sum of its children's and
/// not nothing: each is as long as the share that its child's size has in
/// the directory's, and together they leave less than one unit for each
/// child of the sliced side uncovered.
pub proof fn lemma_slices_fill(children: Seq<(Seq<char>, ScanModel)>, rect: Rect, horizontal: bool)
    requires
        sum_sizes(children) > 0,
    ensures
        forall|k: int|
            0 <= k < children.len() ==> #[trigger] extent_of(
                placed_sizes(children),
                k,
                rect.along(horizontal),
                sum_sizes(children) as int,
            ) == share(
                rect.along(horizontal),
                placed_sizes(children)[k],
                sum_sizes(children) as int,
            ),
        rect.along(horizontal) - children.len() < offset_of(
            placed_sizes(children),
            children.len() as int,
            rect.along(horizontal),
            sum_sizes(children) as int,
        ) <= rect.along(horizontal),
{
    let sizes = placed_sizes(children);
    let along = rect.along(horizontal);
    let whole = sum_sizes(children) as int;
    let n = children.len() as int;
    lemma_placement_ranked(child_keys(children));
    lemma_placement_total(child_keys(children));
    lemma_child_keys_total(children);
    assert forall|k: int| 0 <= k < n implies #[trigger] extent_of(sizes, k, along, whole) == share(
        along,
        sizes[k],
        whole,
    ) by {
        lemma_offsets_exact(sizes, k + 1, along, whole);
    }
    lemma_offsets_exact(sizes, n, along, whole);
    assert(sizes.take(n) == sizes);
    assert(n > 0);
    let end = offset_of(sizes, n, along, whole);
    assert(along - n < end <= along) by (nonlinear_arith)
        requires
            end * whole <= along * whole,
            end * whole > along * whole - n * whole,
            0 < whole,
    ;
}

/// In a directory of size 0 every slice is empty.
pub proof fn lemma_slices_of_nothing(sizes: Seq<int>, k: int, along: int)
    requires
        0 <= along,
        0 <= k,
    ensures
        offset_of(sizes, k, along, 0) == 0,
        extent_of(sizes, k, along, 0) == 0,
    decreases k,
{
    if k > 0 {
        lemma_slices_of_nothing(sizes, k - 1, along);
    }
    assert(offset_of(sizes, k + 1, along, 0) == offset_of(sizes, k, along, 0) + share(
        along,
        sizes[k],
        0,
    ));
}

/// The sum of the areas of the rectangles of some nodes.
pub open spec fn sum_areas(nodes: Seq<RenderModel>) -> int
    decreases nodes.len(),
{
    if nodes.len() == 0 {
        0
    } else {
        sum_areas(nodes.drop_last()) + nodes.last().rect().area()
    }
}

/// The first `k` children of a laid-out directory cover as much as the
/// part of its rectangle before the slice of the next child.
proof fn lemma_areas_upto(
    tree: ScanModel,
    name: Seq<char>,
    mode: ColorMode,
    now: int,
    rect: Rect,
    horizontal: bool,
    k: int,
)
    requires
        tree is Dir,
        rect.within_unit(),
        0 <= k <= tree->Dir_children.len(),
    ensures
        sum_areas(layout(tree, name, mode, now, rect, horizontal)->Dir_children.take(k))
            == rect.along(!horizontal) * offset_of(
            placed_sizes(tree->Dir_children),
            k,
            rect.along(horizontal),
            tree->Dir_size as int,
        ),
    decreases k,
{
    let children = tree->Dir_children;
    let whole = tree->Dir_size as int;
    let placed = layout(tree, name, mode, now, rect, horizontal)->Dir_children;
    let sizes = placed_sizes(children);
    let along = rect.along(horizontal);
    let across = rect.along(!horizontal);
    if k == 0 {
        assert(placed.take(0).len() == 0);
    } else {
        lemma_areas_upto(tree, name, mode, now, rect, horizontal, k - 1);
        lemma_placement_ranked(child_keys(children));
        lemma_slot_within(children, k - 1, rect, horizontal, whole);
        let i = placement(child_keys(children))[k - 1];
        let inner = slot(children, k - 1, rect, horizontal, whole);
        lemma_layout_keeps(children[i].1, children[i].0, mode, now, inner, !horizontal);
        assert(placed.take(k).drop_last() == placed.take(k - 1));
        assert(placed.take(k).last() == placed[k - 1]);
        let start = offset_of(sizes, k - 1, along, whole);
        let long = extent_of(sizes, k - 1, along, whole);
        assert(inner.area() == across * long) by (nonlinear_arith)
            requires
                inner.area() == inner.width * inner.height,
                (inner.width == long && inner.height == across) || (inner.width == across
                    && inner.height == long),
        ;
        assert(across * (start + long) == across * start + across * long) by (nonlinear_arith);
    }
}

/// The children of a laid-out directory whose size is the sum of its
/// children's cover its rectangle but for less than one unit of the sliced
/// side for each child; where its size is 0, each child has no area.
pub proof fn lemma_layout_areas(
    tree: ScanModel,
    name: Seq<char>,
    mode: ColorMode,
    now: int,
    rect: Rect,
    horizontal: bool,
)
    requires
        tree is Dir,
        tree->Dir_size == sum_sizes(tree->Dir_children),
        rect.within_unit(),
    ensures
        sum_areas(layout(tree, name, mode, now, rect, horizontal)->Dir_children) <= rect.area(),
        tree->Dir_size > 0 ==> sum_areas(
            layout(tree, name, mode, now, rect, horizontal)->Dir_children,
        ) >= rect.area() - (tree->Dir_children.len() - 1) * rect.along(!horizontal),
        tree->Dir_size == 0 ==> forall|k: int|
            0 <= k < tree->Dir_children.len() ==> (#[trigger] layout(
                tree,
                name,
                mode,
                now,
                rect,
                horizontal,
            )->Dir_children[k]).rect().area() == 0,
{
    let children = tree->Dir_children;
    let whole = tree->Dir_size as int;
    let n = children.len() as int;
    let placed = layout(tree, name, mode, now, rect, horizontal)->Dir_children;
    let sizes = placed_sizes(children);
    let along = rect.along(horizontal);
    let across = rect.along(!horizontal);
    lemma_areas_upto(tree, name, mode, now, rect, horizontal, n);
    assert(placed.take(n) == placed);
    lemma_placement_ranked(child_keys(children));
    let end = offset_of(sizes, n, along, whole);
    lemma_offset_bounds(sizes, n, along, whole);
    assert(rect.area() == across * along) by (nonlinear_arith)
        requires
            rect.area() == rect.width * rect.height,
            (rect.width == along && rect.height == across) || (rect.width == across
                && rect.height == along),
    ;
    assert(across * end <= across * along) by (nonlinear_arith)
        requires
            0 <= across,
            end <= along,
    ;
    if whole > 0 {
        lemma_slices_fill(children, rect, horizontal);
        assert(across * end >= across * along - (n - 1) * across) by (nonlinear_arith)
            requires
                0 <= across,
                end >= along - n + 1,
        ;
    } else {
        assert forall|k: int| 0 <= k < n implies (#[trigger] placed[k]).rect().area() == 0 by {
            let i = placement(child_keys(children))[k];
            let inner = slot(children, k, rect, horizontal, whole);
            lemma_layout_keeps(children[i].1, children[i].0, mode, now, inner, !horizontal);
            lemma_slices_of_nothing(sizes, k, along);
            assert(inner.width == 0 || inner.height == 0);
            assert(inner.area() == 0) by (nonlinear_arith)
                requires
                    inner.area() == inner.width * inner.height,
                    inner.width == 0 || inner.height == 0,
            ;
        }
    }
}

/// Of two directories that hold the same entries, with no name twice, the
/// children at each place hold the same entries and have the same name
/// and the same slot.
pub proof fn lemma_same_entries_placed(
    first: ScanModel,
    second: ScanModel,
    k: int,
    rect: Rect,
    horizontal: bool,
)
    requires
        first is Dir,
        first.same_entries(second),
        first.names_unique(),
        second.names_unique(),
        0 <= k < first->Dir_children.len(),
    ensures
        first->Dir_children.len() == second->Dir_children.len(),
        0 <= placement(child_keys(first->Dir_children))[k] < first->Dir_children.len(),
        0 <= placement(child_keys(second->Dir_children))[k] < second->Dir_children.len(),
        first->Dir_children[placement(child_keys(first->Dir_children))[k]].0
            == second->Dir_children[placement(child_keys(second->Dir_children))[k]].0,
        first->Dir_children[placement(child_keys(first->Dir_children))[k]].1.same_entries(
            second->Dir_children[placement(child_keys(second->Dir_children))[k]].1,
        ),
        slot(first->Dir_children, k, rect, horizontal, first->Dir_size as int) == slot(
            second->Dir_children,
            k,
            rect,
            horizontal,
            second->Dir_size as int,
        ),
{
    let children = first->Dir_children;
    let others = second->Dir_children;
    let keys = child_keys(children);
    let other_keys = child_keys(others);
    lemma_same_entries_keys(first, second);
    lemma_names_unique_keys(first);
    lemma_names_unique_keys(second);
    lemma_placement_of_same_keys(keys, other_keys);
    lemma_placement_ranked(keys);
    lemma_placement_ranked(other_keys);
    let order = placement(keys);
    let other_order = placement(other_keys);
    let placed = items_along(keys, order);
    let other_placed = items_along(other_keys, other_order);
    assert(placed_sizes(children) == placed_sizes(others)) by {
        assert forall|n: int| 0 <= n < order.len() implies placed_sizes(children)[n]
            == placed_sizes(others)[n] by {
            assert(placed[n] == other_placed[n]);
        }
    }
    let i = order[k];
    let j = other_order[k];
    assert(placed[k] == other_placed[k]);
    assert(keys[i] == other_keys[j]);
    assert(child_at(children, i));
    let found = choose|found: int|
        0 <= found < others.len() && (#[trigger] others[found]).0 == children[i].0
            && children[i].1.same_entries(others[found].1);
    if found < j {
        assert(others[found].0 != others[j].0);
    } else if j < found {
        assert(others[j].0 != others[found].0);
    }
}

/// The layout does not depend on the order in which the children of a
/// directory are listed: two trees that hold the same files and directories
/// under the same names, with no name twice in a directory, have the same
/// layout.
pub proof fn lemma_layout_ignores_order(
    first: ScanModel,
    second: ScanModel,
    name: Seq<char>,
    mode: ColorMode,
    now: int,
    rect: Rect,
    horizontal: bool,
)
    requires
        first.same_entries(second),
        first.names_unique(),
        second.names_unique(),
    ensures
        layout(first, name, mode, now, rect, horizontal) == layout(
            second,
            name,
            mode,
            now,
            rect,
            horizontal,
        ),
    decreases first,
{
    match first {
        ScanModel::File { .. } => {},
        ScanModel::Dir { size, children } => {
            let others = second->Dir_children;
            let order = placement(child_keys(children));
            let other_order = placement(child_keys(others));
            let laid = layout(first, name, mode, now, rect, horizontal)->Dir_children;
            let other_laid = layout(second, name, mode, now, rect, horizontal)->Dir_children;
            if children.len() > 0 {
                lemma_same_entries_placed(first, second, 0, rect, horizontal);
            } else {
                lemma_same_entries_keys(first, second);
                if others.len() > 0 {
                    assert(child_keys(others).contains(child_keys(others)[0]));
                    let at = choose|at: int|
                        0 <= at < child_keys(children).len() && child_keys(children)[at]
                            == child_keys(others)[0];
                }
            }
            assert(laid.len() == other_laid.len());
            assert forall|k: int| 0 <= k < laid.len() implies laid[k] == other_laid[k] by {
                lemma_same_entries_placed(first, second, k, rect, horizontal);
                let i = order[k];
                let j = other_order[k];
                lemma_layout_ignores_order(
                    children[i].1,
                    others[j].1,
                    children[i].0,
                    mode,
                    now,
                    slot(children, k, rect, horizontal, size as int),
                    !horizontal,
                );
            }
            assert(laid == other_laid);
        },
    }
}

/// The layout of what was scanned does not depend on the order in which
/// the directories were listed: two readings that hold the same entries,
/// with no name twice in a listing, lead to the same layout.
pub proof fn lemma_layout_of_scan_ignores_order(
    first: FsModel,
    second: FsModel,
    name: Seq<char>,
    mode: ColorMode,
    now: int,
)
    requires
        first.same_entries(second),
        first.names_unique(),
        second.names_unique(),
    ensures
        layout(scan_root(first), name, mode, now, Rect::whole(), true) == layout(
            scan_root(second),
            name,
            mode,
            now,
            Rect::whole(),
            true,
        ),
{
    lemma_scan_ignores_order(first, second);
    lemma_scan_names_unique(first);
    lemma_scan_names_unique(second);
    lemma_layout_ignores_order(
        scan_root(first),
        scan_root(second),
        name,
        mode,
        now,
        Rect::whole(),
        true,
    );
}

/// Every tile of a tree whose rectangles lie within those of their parents
/// lies within the rectangle of the tree.
pub proof fn lemma_tiles_within(tree: RenderModel, k: int)
    requires
        tree.nested(),
        0 <= k < tiles_of(tree).len(),
    ensures
        tree.rect().contains(tiles_of(tree)[k].rect),
    decreases tree,
{
    match tree {
        RenderModel::Dir { children, rect, .. } => {
            lemma_tiles_in_within(children, rect, k);
        },
        RenderModel::File { .. } => {},
    }
}

/// Every tile of some trees that lie within a rectangle, each with its
/// rectangles within those of their parents, lies within that rectangle.
pub proof fn lemma_tiles_in_within(trees: Seq<RenderModel>, outer: Rect, k: int)
    requires
        forall|m: int| 0 <= m < trees.len() ==> outer.contains((#[trigger] trees[m]).rect()),
        forall|m: int| 0 <= m < trees.len() ==> (#[trigger] trees[m]).nested(),
        0 <= k < tiles_in(trees).len(),
    ensures
        outer.contains(tiles_in(trees)[k].rect),
    decreases trees,
{
    let front = trees.drop_last();
    let before = tiles_in(front);
    if k < before.len() {
        assert forall|m: int| 0 <= m < front.len() implies outer.contains(
            (#[trigger] front[m]).rect(),
        ) && front[m].nested() by {
            assert(front[m] == trees[m]);
        }
        lemma_tiles_in_within(front, outer, k);
    } else {
        lemma_tiles_within(trees.last(), k - before.len());
    }
}

} // verus!
