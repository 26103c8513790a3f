use tiny_neo_space::data::cell::Cell;
use tiny_neo_space::data::cell::CellGrid;
use tiny_neo_space::data::color::Rgba;
use tiny_neo_space::data::coord::pack;
use tiny_neo_space::data::coord::shift;
use tiny_neo_space::data::coord::unpack;
use tiny_neo_space::data::coord::unshift;
use tiny_neo_space::data::coord::CoordMap;
use tiny_neo_space::data::coord::CoordSet;

const RED: Rgba = Rgba { r: 255, g: 0, b: 0, a: 255 };
const BLUE: Rgba = Rgba { r: 0, g: 0, b: 255, a: 255 };

#[test]
fn new_cell_is_empty_and_white() {
    let cell = Cell::new();
    assert_eq!(cell.color, Rgba { r: 255, g: 255, b: 255, a: 255 });
    assert!(!cell.is_filled);
}

#[test]
fn cell_with_color_is_filled() {
    let cell = Cell::with_color(RED);
    assert_eq!(cell, Cell { color: RED, is_filled: true });
}

#[test]
fn clearing_a_cell_makes_it_empty_and_white() {
    let mut cell = Cell::with_color(BLUE);
    cell.clear();
    assert_eq!(cell, Cell::new());
}

#[test]
fn empty_grid_has_no_cells() {
    let grid = CellGrid::new();
    assert_eq!(grid.get((0, 0)), None);
    assert!(!grid.contains((0, 0)));
    assert!(grid.iter().is_empty());
}

#[test]
fn set_then_get_returns_the_cell() {
    let mut grid = CellGrid::new();
    grid.set((3, -4), Some(Cell::with_color(RED)));
    assert_eq!(grid.get((3, -4)), Some(Cell { color: RED, is_filled: true }));
    assert_eq!(grid.get((-4, 3)), None);
    assert!(grid.contains((3, -4)));
}

#[test]
fn set_none_removes_the_entry() {
    let mut grid = CellGrid::new();
    grid.set((1, 1), Some(Cell::with_color(RED)));
    grid.set((1, 1), None);
    assert_eq!(grid.get((1, 1)), None);
    assert!(grid.iter().is_empty());
}

#[test]
fn setting_an_empty_cell_clears_the_place() {
    let mut grid = CellGrid::new();
    grid.set((1, 1), Some(Cell::with_color(RED)));
    grid.set((1, 1), Some(Cell::new()));
    assert_eq!(grid.get((1, 1)), None);
    assert!(grid.iter().is_empty());
}

#[test]
fn set_overwrites_the_colour() {
    let mut grid = CellGrid::new();
    grid.set((0, 0), Some(Cell::with_color(RED)));
    grid.set((0, 0), Some(Cell::with_color(BLUE)));
    assert_eq!(grid.get((0, 0)), Some(Cell::with_color(BLUE)));
    assert_eq!(grid.iter().len(), 1);
}

#[test]
fn remove_returns_the_cell_that_was_there() {
    let mut grid = CellGrid::new();
    grid.set((7, 8), Some(Cell::with_color(BLUE)));
    assert_eq!(grid.remove((7, 8)), Some(Cell::with_color(BLUE)));
    assert_eq!(grid.remove((7, 8)), None);
    assert_eq!(grid.get((7, 8)), None);
}

#[test]
fn iter_yields_every_painted_cell_once() {
    let mut grid = CellGrid::new();
    grid.set((0, 0), Some(Cell::with_color(RED)));
    grid.set((-1, 5), Some(Cell::with_color(BLUE)));
    grid.set((i32::MAX, i32::MIN), Some(Cell::with_color(RED)));
    let mut entries = grid.iter();
    entries.sort_by_key(|e| e.0);
    assert_eq!(
        entries,
        vec![
            ((-1, 5), Cell::with_color(BLUE)),
            ((0, 0), Cell::with_color(RED)),
            ((i32::MAX, i32::MIN), Cell::with_color(RED)),
        ]
    );
    let again = grid.iter();
    assert_eq!(again.len(), 3);
}

#[test]
fn pack_and_unpack_are_inverse() {
    for c in [(0, 0), (1, -1), (-1, 1), (i32::MIN, i32::MAX), (i32::MAX, i32::MIN), (123456, -654321)] {
        assert_eq!(unpack(pack(c)), c);
    }
    assert_eq!(pack((i32::MIN, i32::MIN)), 0);
    assert_eq!(pack((i32::MAX, i32::MAX)), u64::MAX);
    assert_eq!(pack((0, 0)), 0x8000_0000_8000_0000);
    assert_eq!(unpack(0x8000_0001_7fff_ffff), (1, -1));
}

#[test]
fn shift_adds_the_distance() {
    assert_eq!(shift((1, 2), 5, -7), (6, -5));
    assert_eq!(unshift((6, -5), 5, -7), (1, 2));
    assert_eq!(shift((4, 4), 0, 0), (4, 4));
}

#[test]
fn shift_wraps_around_the_ends_of_the_range() {
    assert_eq!(shift((i32::MAX, i32::MIN), 1, -1), (i32::MIN, i32::MAX));
    assert_eq!(unshift((i32::MIN, i32::MAX), 1, -1), (i32::MAX, i32::MIN));
}

#[test]
fn coord_set_insert_contains_remove() {
    let mut set = CoordSet::new();
    assert!(set.is_empty());
    assert!(set.insert((1, 1)));
    assert!(!set.insert((1, 1)));
    assert!(set.insert((-1, -1)));
    assert_eq!(set.len(), 2);
    assert!(set.contains((1, 1)));
    assert!(!set.contains((1, -1)));
    assert!(set.remove((1, 1)));
    assert!(!set.remove((1, 1)));
    assert_eq!(set.len(), 1);
    assert!(!set.is_empty());
}

#[test]
fn coord_set_to_vec_lists_each_member_once() {
    let mut set = CoordSet::new();
    set.insert((2, 3));
    set.insert((2, 3));
    set.insert((-5, 0));
    let mut members = set.to_vec();
    members.sort();
    assert_eq!(members, vec![(-5, 0), (2, 3)]);
}

#[test]
fn coord_set_extend_is_union() {
    let mut a = CoordSet::new();
    a.insert((0, 0));
    a.insert((1, 0));
    let mut b = CoordSet::new();
    b.insert((1, 0));
    b.insert((2, 0));
    a.extend(&b);
    let mut members = a.to_vec();
    members.sort();
    assert_eq!(members, vec![(0, 0), (1, 0), (2, 0)]);
}

#[test]
fn coord_set_clone_has_the_same_members() {
    let mut a = CoordSet::new();
    a.insert((9, 9));
    a.insert((-9, 9));
    let b = a.clone();
    let mut members = b.to_vec();
    members.sort();
    assert_eq!(members, vec![(-9, 9), (9, 9)]);
}

#[test]
fn coord_map_insert_get_remove() {
    let mut map: CoordMap<u32> = CoordMap::new();
    assert!(map.is_empty());
    assert_eq!(map.insert((1, 2), 10), None);
    assert_eq!(map.insert((1, 2), 11), Some(10));
    assert_eq!(map.get((1, 2)), Some(&11));
    assert_eq!(map.get((2, 1)), None);
    assert!(map.contains_key((1, 2)));
    assert_eq!(map.keys(), vec![(1, 2)]);
    assert_eq!(map.remove((1, 2)), Some(11));
    assert_eq!(map.remove((1, 2)), None);
    assert!(map.is_empty());
}
