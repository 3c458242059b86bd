use fs_tree::render_tree::{ColorMode, Rect, RenderTree, Tile, UNIT};
use fs_tree::scan_tree::{ScanEntry, ScanTree};

fn leaf(size: u64) -> ScanTree {
    ScanTree::File { size, access: 0, creation: 0, modification: 0 }
}

fn child(name: &str, tree: ScanTree) -> ScanEntry {
    ScanEntry { name: name.to_string(), tree }
}

fn dir(size: u64, children: Vec<ScanEntry>) -> ScanTree {
    ScanTree::Dir { size, children }
}

fn rect(x: u64, y: u64, width: u64, height: u64) -> Rect {
    Rect { x, y, width, height }
}

fn sample() -> ScanTree {
    dir(30, vec![child("a", leaf(10)), child("b", dir(20, vec![child("c", leaf(20))]))])
}

/// A tree with several levels, ties in size and an empty directory.
fn forest() -> ScanTree {
    dir(
        100,
        vec![
            child("small", leaf(1)),
            child("twin-b", leaf(7)),
            child("twin-a", leaf(7)),
            child("hollow", dir(0, vec![])),
            child(
                "deep",
                dir(
                    85,
                    vec![
                        child("x", leaf(5)),
                        child("y", dir(50, vec![child("p", leaf(49)), child("q", leaf(1))])),
                        child("z", leaf(30)),
                    ],
                ),
            ),
        ],
    )
}

fn children_of(tree: &RenderTree) -> &[RenderTree] {
    match tree {
        RenderTree::Dir { children, .. } => children,
        RenderTree::File { .. } => &[],
    }
}

fn name_of(tree: &RenderTree) -> &str {
    match tree {
        RenderTree::Dir { name, .. } => name,
        RenderTree::File { name, .. } => name,
    }
}

fn contains(outer: &Rect, inner: &Rect) -> bool {
    outer.x <= inner.x
        && inner.x + inner.width <= outer.x + outer.width
        && outer.y <= inner.y
        && inner.y + inner.height <= outer.y + outer.height
}

fn nested(tree: &RenderTree) -> bool {
    let outer = tree.get_rect();
    children_of(tree).iter().all(|c| contains(&outer, &c.get_rect()) && nested(c))
}

fn sorted(tree: &RenderTree) -> bool {
    let children = children_of(tree);
    children.windows(2).all(|pair| pair[0].get_size() >= pair[1].get_size())
        && children.iter().all(sorted)
}

fn area(rect: &Rect) -> u128 {
    rect.width as u128 * rect.height as u128
}

#[test]
fn layout_places_larger_child_first() {
    let laid = RenderTree::from_scan_tree(sample(), "root".to_string(), &ColorMode::Name, 0);
    let expected = RenderTree::Dir {
        name: "root".to_string(),
        size: 30,
        rect: rect(0, 0, UNIT, UNIT),
        children: vec![
            RenderTree::Dir {
                name: "b".to_string(),
                size: 20,
                rect: rect(0, 0, 2_863_311_530, UNIT),
                children: vec![RenderTree::File {
                    name: "c".to_string(),
                    size: 20,
                    color: 0x01_eff2,
                    rect: rect(0, 0, 2_863_311_530, UNIT),
                }],
            },
            RenderTree::File {
                name: "a".to_string(),
                size: 10,
                color: 0x01_ec8c,
                rect: rect(2_863_311_530, 0, 1_431_655_765, UNIT),
            },
        ],
    };
    assert_eq!(laid, expected);
}

#[test]
fn layout_gives_each_child_its_fraction_of_the_width() {
    let laid = RenderTree::from_scan_tree(sample(), "root".to_string(), &ColorMode::Name, 0);
    let children = children_of(&laid);
    assert_eq!(name_of(&children[0]), "b");
    assert_eq!(name_of(&children[1]), "a");
    let unit = UNIT as f64;
    let b = children[0].get_rect();
    let a = children[1].get_rect();
    assert!((b.width as f64 / unit - 20.0 / 30.0).abs() < 1e-9);
    assert!((a.width as f64 / unit - 10.0 / 30.0).abs() < 1e-9);
    assert!((a.x as f64 / unit - 20.0 / 30.0).abs() < 1e-9);
    assert_eq!(b.x, 0);
    assert_eq!(a.height, UNIT);
    assert_eq!(b.height, UNIT);
}

#[test]
fn layout_root_is_the_unit_square() {
    let laid = RenderTree::from_scan_tree(leaf(5), "f".to_string(), &ColorMode::Name, 0);
    assert_eq!(laid.get_rect(), rect(0, 0, UNIT, UNIT));
    assert_eq!(laid.get_size(), 5);
    assert_eq!(UNIT, 1 << 32);
}

#[test]
fn layout_flips_the_axis_at_each_level() {
    let tree = dir(
        8,
        vec![child("l", dir(4, vec![child("p", leaf(3)), child("q", leaf(1))])), child("r", leaf(4))],
    );
    let laid = RenderTree::from_scan_tree(tree, "root".to_string(), &ColorMode::Name, 0);
    let half = UNIT / 2;
    let top = children_of(&laid);
    assert_eq!(name_of(&top[0]), "l");
    assert_eq!(top[0].get_rect(), rect(0, 0, half, UNIT));
    assert_eq!(top[1].get_rect(), rect(half, 0, half, UNIT));
    let inner = children_of(&top[0]);
    assert_eq!(name_of(&inner[0]), "p");
    assert_eq!(inner[0].get_rect(), rect(0, 0, half, UNIT / 4 * 3));
    assert_eq!(inner[1].get_rect(), rect(0, UNIT / 4 * 3, half, UNIT / 4));
}

#[test]
fn layout_breaks_ties_by_name() {
    let one = dir(6, vec![child("b", leaf(2)), child("c", leaf(2)), child("a", leaf(2))]);
    let other = dir(6, vec![child("c", leaf(2)), child("a", leaf(2)), child("b", leaf(2))]);
    let first = RenderTree::from_scan_tree(one, "d".to_string(), &ColorMode::Name, 0);
    let second = RenderTree::from_scan_tree(other, "d".to_string(), &ColorMode::Name, 0);
    let names: Vec<&str> = children_of(&first).iter().map(name_of).collect();
    assert_eq!(names, vec!["a", "b", "c"]);
    assert_eq!(first, second);
}

#[test]
fn layout_orders_names_by_their_bytes() {
    let tree = dir(
        4,
        vec![child("ab", leaf(1)), child("a", leaf(1)), child("B", leaf(1)), child("", leaf(1))],
    );
    let laid = RenderTree::from_scan_tree(tree, "d".to_string(), &ColorMode::Name, 0);
    let names: Vec<&str> = children_of(&laid).iter().map(name_of).collect();
    assert_eq!(names, vec!["", "B", "a", "ab"]);
}

#[test]
fn layout_of_empty_directory_gives_zero_area_children() {
    let tree = dir(0, vec![child("e", leaf(0)), child("d", dir(0, vec![child("f", leaf(0))]))]);
    let laid = RenderTree::from_scan_tree(tree, "root".to_string(), &ColorMode::Name, 0);
    let children = children_of(&laid);
    assert_eq!(children.len(), 2);
    assert_eq!(name_of(&children[0]), "d");
    assert_eq!(children[0].get_rect(), rect(0, 0, 0, UNIT));
    assert_eq!(children[1].get_rect(), rect(0, 0, 0, UNIT));
    assert_eq!(children_of(&children[0])[0].get_rect(), rect(0, 0, 0, 0));
    assert!(children.iter().all(|c| area(&c.get_rect()) == 0));
}

#[test]
fn layout_twice_gives_the_same_tree() {
    for mode in [ColorMode::Name, ColorMode::Access, ColorMode::Modification, ColorMode::Creation] {
        let first = RenderTree::from_scan_tree(forest(), "root".to_string(), &mode, 1_000);
        let second = RenderTree::from_scan_tree(forest(), "root".to_string(), &mode, 1_000);
        assert_eq!(first, second);
    }
}

#[test]
fn layout_sorts_children_by_size_everywhere() {
    let laid = RenderTree::from_scan_tree(forest(), "root".to_string(), &ColorMode::Name, 0);
    assert!(sorted(&laid));
    let names: Vec<&str> = children_of(&laid).iter().map(name_of).collect();
    assert_eq!(names, vec!["deep", "twin-a", "twin-b", "small", "hollow"]);
}

#[test]
fn layout_keeps_children_within_their_parent() {
    let laid = RenderTree::from_scan_tree(forest(), "root".to_string(), &ColorMode::Name, 0);
    assert!(nested(&laid));
}

#[test]
fn layout_children_cover_their_parent() {
    let laid = RenderTree::from_scan_tree(forest(), "root".to_string(), &ColorMode::Name, 0);
    let children = children_of(&laid);
    let covered: u128 = children.iter().map(|c| area(&c.get_rect())).sum();
    let whole = area(&laid.get_rect());
    assert!(covered <= whole);
    assert!(whole - covered < children.len() as u128 * UNIT as u128);
    let fraction = covered as f64 / whole as f64;
    assert!((fraction - 1.0).abs() < 1e-8);
}

fn count_scan(tree: &ScanTree) -> usize {
    match tree {
        ScanTree::File { .. } => 1,
        ScanTree::Dir { children, .. } => {
            1 + children.iter().map(|c| count_scan(&c.tree)).sum::<usize>()
        }
    }
}

fn count(tree: &RenderTree) -> usize {
    1 + children_of(tree).iter().map(count).sum::<usize>()
}

#[test]
fn layout_keeps_one_node_for_each_node() {
    let laid = RenderTree::from_scan_tree(forest(), "root".to_string(), &ColorMode::Name, 0);
    assert_eq!(count(&laid), count_scan(&forest()));
}

#[test]
fn layout_colors_by_the_chosen_timestamp() {
    let now = 1_000_000_000;
    let color = |mode: ColorMode| {
        let tree = ScanTree::File {
            size: 1,
            access: now,
            creation: now - 31_536_000,
            modification: now + 5,
        };
        match RenderTree::from_scan_tree(tree, "notes.txt".to_string(), &mode, now) {
            RenderTree::File { color, .. } => color,
            RenderTree::Dir { .. } => panic!("a file stays a file"),
        }
    };
    assert_eq!(color(ColorMode::Access), 0xff_ffff);
    assert_eq!(color(ColorMode::Creation), 0x8d_8d8d);
    assert_eq!(color(ColorMode::Modification), 0x3e_eca9);
    assert_eq!(color(ColorMode::Name), 0xe3_274c);
}

#[test]
fn layout_of_ill_formed_sizes_stays_within_the_parent() {
    let tree = dir(10, vec![child("a", leaf(30)), child("b", leaf(20))]);
    let laid = RenderTree::from_scan_tree(tree, "root".to_string(), &ColorMode::Name, 0);
    assert!(nested(&laid));
    let children = children_of(&laid);
    assert_eq!(children[0].get_rect(), rect(0, 0, UNIT, UNIT));
    assert_eq!(children[1].get_rect(), rect(UNIT, 0, 0, UNIT));
}

#[test]
fn layout_keeps_the_listing_order_of_children_with_one_key() {
    let tree = dir(
        15,
        vec![
            child("x", leaf(5)),
            child("x", dir(5, vec![child("inner", leaf(5))])),
            child("x", dir(5, vec![])),
        ],
    );
    let laid = RenderTree::from_scan_tree(tree, "d".to_string(), &ColorMode::Name, 0);
    let children = children_of(&laid);
    assert!(matches!(children[0], RenderTree::File { .. }));
    assert_eq!(children_of(&children[1]).len(), 1);
    assert!(matches!(children[2], RenderTree::Dir { .. }));
    assert_eq!(children_of(&children[2]).len(), 0);
}

#[test]
fn layout_orders_a_large_directory() {
    let count: u64 = 5_000;
    let children: Vec<ScanEntry> =
        (0..count).map(|i| child(&format!("f{:05}", (i * 7919) % count), leaf((i * 31) % 97))).collect();
    let size: u64 = children.iter().map(|c| c.tree.get_size()).sum();
    let laid = RenderTree::from_scan_tree(dir(size, children), "d".to_string(), &ColorMode::Name, 0);
    let placed = children_of(&laid);
    assert_eq!(placed.len(), count as usize);
    assert!(sorted(&laid));
    assert!(nested(&laid));
    assert!(placed.windows(2).all(|pair| {
        pair[0].get_size() > pair[1].get_size() || name_of(&pair[0]) < name_of(&pair[1])
    }));
}

#[test]
fn tiles_are_the_files_in_the_order_of_the_tree() {
    let laid = RenderTree::from_scan_tree(sample(), "root".to_string(), &ColorMode::Name, 0);
    let expected = vec![
        Tile { rect: rect(0, 0, 2_863_311_530, UNIT), color: 0x01_eff2 },
        Tile { rect: rect(2_863_311_530, 0, 1_431_655_765, UNIT), color: 0x01_ec8c },
    ];
    assert_eq!(laid.tiles(), expected);
}

#[test]
fn tiles_lie_within_the_unit_square() {
    let laid = RenderTree::from_scan_tree(forest(), "root".to_string(), &ColorMode::Name, 0);
    let tiles = laid.tiles();
    assert_eq!(tiles.len(), 7);
    let whole = rect(0, 0, UNIT, UNIT);
    assert!(tiles.iter().all(|tile| contains(&whole, &tile.rect)));
    let empty = RenderTree::from_scan_tree(dir(0, vec![]), "e".to_string(), &ColorMode::Name, 0);
    assert_eq!(empty.tiles(), vec![]);
}
