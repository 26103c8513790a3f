use tiny_neo_space::data::cell::Cell;
use tiny_neo_space::data::cell::CellGrid;
use tiny_neo_space::data::color::Rgba;
use tiny_neo_space::data::coord::CoordSet;
use tiny_neo_space::data::selection::compute_bounding_rect;
use tiny_neo_space::data::selection::pick_filled_cells;
use tiny_neo_space::data::selection::shift_cells;
use tiny_neo_space::data::selection::Selection;
use tiny_neo_space::data::selection::SelectionKind;
use tiny_neo_space::data::selection::SelectionRect;
use tiny_neo_space::data::selection::SelectionState;
use tiny_neo_space::input::selection::add_cell_to_selection;
use tiny_neo_space::input::selection::delete_selection;
use tiny_neo_space::input::selection::drop_lifted;
use tiny_neo_space::input::selection::finalize_selection_drag_tight;
use tiny_neo_space::input::selection::handle_select_tool;
use tiny_neo_space::input::selection::start_move_with_lift;
use tiny_neo_space::input::selection::PointerInput;
use tiny_neo_space::rendering::canvas::CanvasRenderer;
use tiny_neo_space::rendering::selection::build_selection_preview;
use tiny_neo_space::state::ApplicationState;

const RED: Rgba = Rgba { r: 255, g: 0, b: 0, a: 255 };
const BLUE: Rgba = Rgba { r: 0, g: 0, b: 255, a: 255 };

fn set_of(cells: &[(i32, i32)]) -> CoordSet {
    let mut set = CoordSet::new();
    for c in cells {
        set.insert(*c);
    }
    set
}

fn sorted(set: &CoordSet) -> Vec<(i32, i32)> {
    let mut members = set.to_vec();
    members.sort();
    members
}

fn selected(state: &ApplicationState) -> Vec<(i32, i32)> {
    match &state.selection.current {
        Some(sel) => sorted(sel.cells()),
        None => Vec::new(),
    }
}

fn state_with(cells: &[((i32, i32), Rgba)]) -> ApplicationState {
    let mut state = ApplicationState::new();
    for (coord, color) in cells {
        state.cells.set(*coord, Some(Cell::with_color(*color)));
    }
    state
}

fn drag(state: &mut ApplicationState, from: (i32, i32), to: (i32, i32), additive: bool) {
    state.selection.start_drag(from);
    state.selection.update_drag_end(to);
    finalize_selection_drag_tight(state, additive);
}

fn pointer(cell: (i32, i32)) -> PointerInput {
    PointerInput { cell, pressed: false, down: false, released: false, shift: false, drop_offset: (0, 0) }
}

#[test]
fn rect_from_points_orders_the_corners() {
    let rect = SelectionRect::from_points((3, -1), (-2, 4));
    assert_eq!(rect, SelectionRect { min_x: -2, min_y: -1, max_x: 3, max_y: 4 });
    assert_eq!(SelectionRect::from_points((1, 1), (1, 1)), SelectionRect { min_x: 1, min_y: 1, max_x: 1, max_y: 1 });
}

#[test]
fn rect_contains_its_border_and_not_beyond() {
    let rect = SelectionRect::from_points((0, 0), (3, 2));
    assert!(rect.contains(0, 0));
    assert!(rect.contains(3, 2));
    assert!(rect.contains(1, 1));
    assert!(!rect.contains(4, 2));
    assert!(!rect.contains(3, 3));
    assert!(!rect.contains(-1, 0));
}

#[test]
fn rect_width_and_height_count_both_edges() {
    let rect = SelectionRect::from_points((1, 1), (2, 2));
    assert_eq!(rect.width(), 2);
    assert_eq!(rect.height(), 2);
    let single = SelectionRect::from_points((5, 5), (5, 5));
    assert_eq!(single.width(), 1);
    assert_eq!(single.height(), 1);
}

#[test]
fn rect_width_of_the_whole_range_does_not_overflow() {
    let rect = SelectionRect::from_points((i32::MIN, i32::MIN), (i32::MAX, i32::MAX));
    assert_eq!(rect.width(), 4294967296);
    assert_eq!(rect.height(), 4294967296);
}

#[test]
fn bounding_rect_of_nothing_is_none() {
    assert_eq!(compute_bounding_rect(&CoordSet::new()), None);
}

#[test]
fn bounding_rect_is_tight() {
    let set = set_of(&[(1, 5), (-3, 2), (4, -4)]);
    assert_eq!(
        compute_bounding_rect(&set),
        Some(SelectionRect { min_x: -3, min_y: -4, max_x: 4, max_y: 5 })
    );
    assert_eq!(
        compute_bounding_rect(&set_of(&[(7, 7)])),
        Some(SelectionRect { min_x: 7, min_y: 7, max_x: 7, max_y: 7 })
    );
}

#[test]
fn pick_filled_cells_takes_only_painted_cells_inside() {
    let mut grid = CellGrid::new();
    grid.set((1, 1), Some(Cell::with_color(RED)));
    grid.set((2, 2), Some(Cell::with_color(BLUE)));
    grid.set((5, 5), Some(Cell::with_color(BLUE)));
    let picked = pick_filled_cells(&grid, &SelectionRect::from_points((0, 0), (3, 3)));
    assert_eq!(sorted(&picked), vec![(1, 1), (2, 2)]);
}

#[test]
fn shift_cells_moves_every_member() {
    let moved = shift_cells(&set_of(&[(0, 0), (1, 2)]), 3, -1);
    assert_eq!(sorted(&moved), vec![(3, -1), (4, 1)]);
}

#[test]
fn new_selection_state_is_idle() {
    let state = SelectionState::new();
    assert!(!state.active_drag);
    assert_eq!(state.drag_start, None);
    assert_eq!(state.drag_end, None);
    assert!(state.current.is_none());
    assert!(!state.is_moving);
    assert!(!state.is_lifted);
    assert!(state.lifted_cells.iter().is_empty());
}

#[test]
fn start_drag_records_both_ends() {
    let mut state = SelectionState::new();
    state.is_moving = true;
    state.start_drag((2, 3));
    assert!(state.active_drag);
    assert_eq!(state.drag_start, Some((2, 3)));
    assert_eq!(state.drag_end, Some((2, 3)));
    assert!(!state.is_moving);
}

#[test]
fn update_drag_end_follows_the_pointer_only_while_dragging() {
    let mut state = SelectionState::new();
    state.update_drag_end((9, 9));
    assert_eq!(state.drag_end, None);
    state.start_drag((0, 0));
    state.update_drag_end((4, 5));
    assert_eq!(state.drag_start, Some((0, 0)));
    assert_eq!(state.drag_end, Some((4, 5)));
}

#[test]
fn finalize_drag_selects_filled_cells_with_tight_rect() {
    let mut grid = CellGrid::new();
    grid.set((1, 1), Some(Cell::with_color(RED)));
    grid.set((2, 2), Some(Cell::with_color(RED)));
    let mut state = SelectionState::new();
    state.start_drag((0, 0));
    state.update_drag_end((3, 3));
    assert!(state.finalize_drag(&grid));
    assert!(!state.active_drag);
    let sel = state.current.as_ref().unwrap();
    assert_eq!(sel.rect, SelectionRect { min_x: 1, min_y: 1, max_x: 2, max_y: 2 });
    assert_eq!(sorted(sel.cells()), vec![(1, 1), (2, 2)]);
}

#[test]
fn finalize_drag_over_nothing_clears_the_selection() {
    let mut grid = CellGrid::new();
    grid.set((1, 1), Some(Cell::with_color(RED)));
    let mut state = SelectionState::new();
    state.start_drag((0, 0));
    state.update_drag_end((3, 3));
    assert!(state.finalize_drag(&grid));
    state.start_drag((10, 10));
    state.update_drag_end((12, 12));
    assert!(!state.finalize_drag(&grid));
    assert!(state.current.is_none());
}

#[test]
fn finalize_drag_without_a_drag_selects_nothing() {
    let grid = CellGrid::new();
    let mut state = SelectionState::new();
    assert!(!state.finalize_drag(&grid));
    assert!(state.current.is_none());
}

#[test]
fn contains_point_goes_by_the_rectangle() {
    let mut state = SelectionState::new();
    assert!(!state.contains_point(0, 0));
    state.current = Some(Selection {
        rect: SelectionRect { min_x: 0, min_y: 0, max_x: 2, max_y: 2 },
        kind: SelectionKind::Cells(set_of(&[(0, 0), (2, 2)])),
        preview: None,
    });
    assert!(state.contains_point(1, 1));
    assert!(state.contains_point(2, 0));
    assert!(!state.contains_point(3, 1));
}

#[test]
fn start_move_needs_a_selection() {
    let mut state = SelectionState::new();
    state.start_move();
    assert!(!state.is_moving);
    state.current = Some(Selection {
        rect: SelectionRect { min_x: 0, min_y: 0, max_x: 0, max_y: 0 },
        kind: SelectionKind::Cells(set_of(&[(0, 0)])),
        preview: None,
    });
    state.start_move();
    assert!(state.is_moving);
}

#[test]
fn finalize_move_shifts_the_selection() {
    let mut state = SelectionState::new();
    state.current = Some(Selection {
        rect: SelectionRect { min_x: 1, min_y: 1, max_x: 2, max_y: 2 },
        kind: SelectionKind::Cells(set_of(&[(1, 1), (2, 2)])),
        preview: None,
    });
    state.start_move();
    assert_eq!(state.finalize_move(3, -1), Some((3, -1)));
    assert!(!state.is_moving);
    let sel = state.current.as_ref().unwrap();
    assert_eq!(sorted(sel.cells()), vec![(4, 0), (5, 1)]);
    assert_eq!(sel.rect, SelectionRect { min_x: 4, min_y: 0, max_x: 5, max_y: 1 });
}

#[test]
fn finalize_move_by_nothing_reports_none() {
    let mut state = SelectionState::new();
    state.current = Some(Selection {
        rect: SelectionRect { min_x: 1, min_y: 1, max_x: 1, max_y: 1 },
        kind: SelectionKind::Cells(set_of(&[(1, 1)])),
        preview: None,
    });
    state.start_move();
    assert_eq!(state.finalize_move(0, 0), None);
    assert!(!state.is_moving);
    assert_eq!(sorted(state.current.as_ref().unwrap().cells()), vec![(1, 1)]);
}

#[test]
fn finalize_move_without_a_move_reports_none() {
    let mut state = SelectionState::new();
    assert_eq!(state.finalize_move(1, 1), None);
}

#[test]
fn clear_returns_to_idle() {
    let mut state = SelectionState::new();
    state.start_drag((1, 1));
    state.clear();
    assert!(!state.active_drag);
    assert_eq!(state.drag_start, None);
    assert!(state.current.is_none());
}

#[test]
fn drag_select_picks_filled_cells_and_fits_the_rect() {
    let mut state = state_with(&[((1, 1), RED), ((2, 2), RED)]);
    drag(&mut state, (0, 0), (3, 3), false);
    assert_eq!(selected(&state), vec![(1, 1), (2, 2)]);
    let sel = state.selection.current.as_ref().unwrap();
    assert_eq!(sel.rect, SelectionRect { min_x: 1, min_y: 1, max_x: 2, max_y: 2 });
    assert!(!state.selection.active_drag);
}

#[test]
fn drag_select_builds_a_preview() {
    let mut state = state_with(&[((1, 1), RED), ((2, 2), BLUE)]);
    drag(&mut state, (3, 3), (0, 0), false);
    let sel = state.selection.current.as_ref().unwrap();
    let preview = sel.preview.as_ref().unwrap();
    assert_eq!(preview.width, 2);
    assert_eq!(preview.height, 2);
    let mut cells = preview.cells.iter();
    cells.sort_by_key(|e| e.0);
    assert_eq!(cells, vec![((0, 0), Cell::with_color(RED)), ((1, 1), Cell::with_color(BLUE))]);
}

#[test]
fn additive_drag_unions_with_the_selection() {
    let mut state = state_with(&[((1, 1), RED), ((2, 2), RED), ((10, 10), BLUE)]);
    drag(&mut state, (0, 0), (3, 3), false);
    drag(&mut state, (9, 9), (11, 11), true);
    assert_eq!(selected(&state), vec![(1, 1), (2, 2), (10, 10)]);
    let sel = state.selection.current.as_ref().unwrap();
    assert_eq!(sel.rect, SelectionRect { min_x: 1, min_y: 1, max_x: 10, max_y: 10 });
}

#[test]
fn plain_drag_replaces_the_selection() {
    let mut state = state_with(&[((1, 1), RED), ((10, 10), BLUE)]);
    drag(&mut state, (0, 0), (3, 3), false);
    drag(&mut state, (9, 9), (11, 11), false);
    assert_eq!(selected(&state), vec![(10, 10)]);
}

#[test]
fn empty_drag_clears_the_selection() {
    let mut state = state_with(&[((1, 1), RED)]);
    drag(&mut state, (0, 0), (3, 3), false);
    drag(&mut state, (20, 20), (30, 30), false);
    assert!(state.selection.current.is_none());
}

#[test]
fn empty_additive_drag_keeps_the_selection() {
    let mut state = state_with(&[((1, 1), RED)]);
    drag(&mut state, (0, 0), (3, 3), false);
    drag(&mut state, (20, 20), (30, 30), true);
    assert_eq!(selected(&state), vec![(1, 1)]);
    assert_eq!(
        state.selection.current.as_ref().unwrap().rect,
        SelectionRect { min_x: 1, min_y: 1, max_x: 1, max_y: 1 }
    );
}

#[test]
fn shift_click_adds_a_filled_cell() {
    let mut state = state_with(&[((1, 1), RED), ((5, 0), BLUE)]);
    drag(&mut state, (0, 0), (3, 3), false);
    add_cell_to_selection(&mut state, (5, 0));
    assert_eq!(selected(&state), vec![(1, 1), (5, 0)]);
    assert_eq!(
        state.selection.current.as_ref().unwrap().rect,
        SelectionRect { min_x: 1, min_y: 0, max_x: 5, max_y: 1 }
    );
}

#[test]
fn shift_click_on_an_empty_place_does_nothing() {
    let mut state = state_with(&[((1, 1), RED)]);
    drag(&mut state, (0, 0), (3, 3), false);
    add_cell_to_selection(&mut state, (5, 0));
    assert_eq!(selected(&state), vec![(1, 1)]);
}

#[test]
fn shift_click_without_a_selection_starts_one() {
    let mut state = state_with(&[((4, 4), RED)]);
    add_cell_to_selection(&mut state, (4, 4));
    assert_eq!(selected(&state), vec![(4, 4)]);
}

#[test]
fn lift_takes_the_cells_off_the_grid() {
    let mut state = state_with(&[((1, 1), RED), ((2, 2), BLUE), ((9, 9), BLUE)]);
    let mut canvas = CanvasRenderer::new();
    drag(&mut state, (0, 0), (3, 3), false);
    start_move_with_lift(&mut state, &mut canvas);
    assert!(state.selection.is_moving);
    assert!(state.selection.is_lifted);
    assert_eq!(state.cells.get((1, 1)), None);
    assert_eq!(state.cells.get((2, 2)), None);
    assert_eq!(state.cells.get((9, 9)), Some(Cell::with_color(BLUE)));
    let mut lifted = state.selection.lifted_cells.iter();
    lifted.sort_by_key(|e| e.0);
    assert_eq!(lifted, vec![((1, 1), Cell::with_color(RED)), ((2, 2), Cell::with_color(BLUE))]);
    assert_eq!(canvas.chunk_state((0, 0)), Some(true));
}

#[test]
fn lift_without_a_selection_does_nothing() {
    let mut state = state_with(&[((1, 1), RED)]);
    let mut canvas = CanvasRenderer::new();
    start_move_with_lift(&mut state, &mut canvas);
    assert!(!state.selection.is_moving);
    assert!(!state.selection.is_lifted);
    assert_eq!(state.cells.get((1, 1)), Some(Cell::with_color(RED)));
    assert_eq!(canvas.chunk_state((0, 0)), None);
}

#[test]
fn lift_and_drop_moves_the_cells() {
    let mut state = state_with(&[((1, 1), RED), ((2, 2), BLUE)]);
    let mut canvas = CanvasRenderer::new();
    drag(&mut state, (0, 0), (3, 3), false);
    start_move_with_lift(&mut state, &mut canvas);
    assert_eq!(drop_lifted(&mut state, &mut canvas, 5, 5), Some((5, 5)));
    assert_eq!(state.cells.get((6, 6)), Some(Cell::with_color(RED)));
    assert_eq!(state.cells.get((7, 7)), Some(Cell::with_color(BLUE)));
    assert_eq!(state.cells.get((1, 1)), None);
    assert_eq!(state.cells.get((2, 2)), None);
    assert_eq!(selected(&state), vec![(6, 6), (7, 7)]);
    let sel = state.selection.current.as_ref().unwrap();
    assert_eq!(sel.rect, SelectionRect { min_x: 6, min_y: 6, max_x: 7, max_y: 7 });
    assert!(sel.preview.is_none());
    assert!(!state.selection.is_moving);
    assert!(!state.selection.is_lifted);
    assert!(state.selection.lifted_cells.iter().is_empty());
}

#[test]
fn drop_marks_the_destination_chunk_dirty() {
    let mut state = state_with(&[((1, 1), RED)]);
    let mut canvas = CanvasRenderer::new();
    drag(&mut state, (0, 0), (3, 3), false);
    start_move_with_lift(&mut state, &mut canvas);
    let grid = CellGrid::new();
    canvas.update(&grid);
    drop_lifted(&mut state, &mut canvas, 100, -100);
    assert_eq!(canvas.chunk_state((1, -2)), Some(true));
    assert_eq!(canvas.chunk_state((0, 0)), Some(false));
}

#[test]
fn drop_by_nothing_leaves_the_grid_unchanged() {
    let mut state = state_with(&[((1, 1), RED), ((2, 2), BLUE), ((3, 0), BLUE)]);
    let mut canvas = CanvasRenderer::new();
    let mut before = state.cells.iter();
    before.sort_by_key(|e| e.0);
    drag(&mut state, (0, 0), (2, 2), false);
    start_move_with_lift(&mut state, &mut canvas);
    assert_eq!(drop_lifted(&mut state, &mut canvas, 0, 0), Some((0, 0)));
    let mut after = state.cells.iter();
    after.sort_by_key(|e| e.0);
    assert_eq!(before, after);
    assert!(!state.selection.is_moving);
    assert_eq!(selected(&state), vec![(1, 1), (2, 2)]);
}

#[test]
fn move_equals_remove_and_reinsert() {
    let painted = [((0, 0), RED), ((1, 0), BLUE), ((4, 4), RED), ((-2, 3), BLUE)];
    for (dx, dy) in [(1, 0), (-3, 7), (4, 4), (0, -1), (100, 100)] {
        let mut state = state_with(&painted);
        let mut canvas = CanvasRenderer::new();
        drag(&mut state, (0, 0), (1, 1), false);
        start_move_with_lift(&mut state, &mut canvas);
        drop_lifted(&mut state, &mut canvas, dx, dy);
        let mut direct = CellGrid::new();
        for (coord, color) in painted {
            direct.set(coord, Some(Cell::with_color(color)));
        }
        direct.set((0, 0), None);
        direct.set((1, 0), None);
        direct.set((dx, dy), Some(Cell::with_color(RED)));
        direct.set((1 + dx, dy), Some(Cell::with_color(BLUE)));
        let mut got = state.cells.iter();
        got.sort_by_key(|e| e.0);
        let mut want = direct.iter();
        want.sort_by_key(|e| e.0);
        assert_eq!(got, want);
    }
}

#[test]
fn drop_overwrites_cells_at_the_destination() {
    let mut state = state_with(&[((0, 0), RED), ((5, 0), BLUE)]);
    let mut canvas = CanvasRenderer::new();
    drag(&mut state, (0, 0), (0, 0), false);
    start_move_with_lift(&mut state, &mut canvas);
    drop_lifted(&mut state, &mut canvas, 5, 0);
    assert_eq!(state.cells.get((5, 0)), Some(Cell::with_color(RED)));
    assert_eq!(state.cells.iter().len(), 1);
}

#[test]
fn drop_without_lift_does_nothing() {
    let mut state = state_with(&[((0, 0), RED)]);
    let mut canvas = CanvasRenderer::new();
    assert_eq!(drop_lifted(&mut state, &mut canvas, 1, 1), None);
    assert_eq!(state.cells.get((0, 0)), Some(Cell::with_color(RED)));
    assert_eq!(canvas.chunk_state((0, 0)), None);
}

#[test]
fn second_lift_during_a_move_is_ignored() {
    let mut state = state_with(&[((1, 1), RED)]);
    let mut canvas = CanvasRenderer::new();
    drag(&mut state, (0, 0), (3, 3), false);
    start_move_with_lift(&mut state, &mut canvas);
    start_move_with_lift(&mut state, &mut canvas);
    assert_eq!(state.selection.lifted_cells.iter().len(), 1);
    drop_lifted(&mut state, &mut canvas, 1, 0);
    assert_eq!(state.cells.get((2, 1)), Some(Cell::with_color(RED)));
}

#[test]
fn delete_selection_removes_the_cells() {
    let mut state = state_with(&[((1, 1), RED), ((2, 2), BLUE), ((70, 70), BLUE)]);
    let mut canvas = CanvasRenderer::new();
    drag(&mut state, (0, 0), (3, 3), false);
    delete_selection(&mut state, &mut canvas);
    assert_eq!(state.cells.get((1, 1)), None);
    assert_eq!(state.cells.get((2, 2)), None);
    assert_eq!(state.cells.get((70, 70)), Some(Cell::with_color(BLUE)));
    assert!(state.selection.current.is_none());
    assert!(!state.selection.is_moving);
    assert_eq!(canvas.chunk_state((0, 0)), Some(true));
    assert_eq!(canvas.chunk_state((1, 1)), None);
}

#[test]
fn delete_without_a_selection_does_nothing() {
    let mut state = state_with(&[((1, 1), RED)]);
    let mut canvas = CanvasRenderer::new();
    delete_selection(&mut state, &mut canvas);
    assert_eq!(state.cells.get((1, 1)), Some(Cell::with_color(RED)));
    assert_eq!(canvas.chunk_state((0, 0)), None);
}

#[test]
fn preview_holds_selected_cells_relative_to_the_corner() {
    let mut grid = CellGrid::new();
    grid.set((10, 20), Some(Cell::with_color(RED)));
    grid.set((12, 21), Some(Cell::with_color(BLUE)));
    grid.set((11, 20), Some(Cell::with_color(BLUE)));
    let rect = SelectionRect { min_x: 10, min_y: 20, max_x: 12, max_y: 21 };
    let preview = build_selection_preview(&grid, &rect, &set_of(&[(10, 20), (12, 21), (11, 21)])).unwrap();
    assert_eq!(preview.width, 3);
    assert_eq!(preview.height, 2);
    let mut cells = preview.cells.iter();
    cells.sort_by_key(|e| e.0);
    assert_eq!(cells, vec![((0, 0), Cell::with_color(RED)), ((2, 1), Cell::with_color(BLUE))]);
}

#[test]
fn preview_of_an_inverted_rect_is_none() {
    let grid = CellGrid::new();
    let rect = SelectionRect { min_x: 5, min_y: 0, max_x: 4, max_y: 0 };
    assert!(build_selection_preview(&grid, &rect, &CoordSet::new()).is_none());
}

#[test]
fn select_tool_press_outside_starts_a_drag() {
    let mut state = state_with(&[((1, 1), RED)]);
    let mut canvas = CanvasRenderer::new();
    let input = PointerInput { pressed: true, down: true, ..pointer((0, 0)) };
    handle_select_tool(&mut state, &mut canvas, &input);
    assert!(state.selection.active_drag);
    assert_eq!(state.selection.drag_start, Some((0, 0)));
    assert_eq!(state.selection.drag_end, Some((0, 0)));
}

#[test]
fn select_tool_drag_then_release_commits() {
    let mut state = state_with(&[((1, 1), RED), ((2, 2), RED)]);
    let mut canvas = CanvasRenderer::new();
    handle_select_tool(&mut state, &mut canvas, &PointerInput { pressed: true, down: true, ..pointer((0, 0)) });
    handle_select_tool(&mut state, &mut canvas, &PointerInput { down: true, ..pointer((2, 1)) });
    assert_eq!(state.selection.drag_end, Some((2, 1)));
    handle_select_tool(&mut state, &mut canvas, &PointerInput { down: true, ..pointer((3, 3)) });
    handle_select_tool(&mut state, &mut canvas, &PointerInput { released: true, ..pointer((3, 3)) });
    assert!(!state.selection.active_drag);
    assert_eq!(selected(&state), vec![(1, 1), (2, 2)]);
    assert_eq!(
        state.selection.current.as_ref().unwrap().rect,
        SelectionRect { min_x: 1, min_y: 1, max_x: 2, max_y: 2 }
    );
}

#[test]
fn select_tool_press_inside_lifts_and_release_drops() {
    let mut state = state_with(&[((1, 1), RED), ((2, 2), RED)]);
    let mut canvas = CanvasRenderer::new();
    drag(&mut state, (0, 0), (3, 3), false);
    handle_select_tool(&mut state, &mut canvas, &PointerInput { pressed: true, down: true, ..pointer((1, 1)) });
    assert!(state.selection.is_moving);
    assert!(state.selection.is_lifted);
    assert_eq!(state.cells.get((1, 1)), None);
    handle_select_tool(
        &mut state,
        &mut canvas,
        &PointerInput { released: true, drop_offset: (5, 5), ..pointer((6, 7)) },
    );
    assert!(!state.selection.is_moving);
    assert_eq!(state.cells.get((6, 6)), Some(Cell::with_color(RED)));
    assert_eq!(state.cells.get((7, 7)), Some(Cell::with_color(RED)));
    assert_eq!(state.cells.get((1, 1)), None);
    assert_eq!(state.cells.get((2, 2)), None);
    assert_eq!(selected(&state), vec![(6, 6), (7, 7)]);
}

#[test]
fn select_tool_press_between_selected_cells_starts_a_drag() {
    let mut state = state_with(&[((1, 1), RED), ((2, 2), RED)]);
    let mut canvas = CanvasRenderer::new();
    drag(&mut state, (0, 0), (3, 3), false);
    assert!(state.selection.contains_point(1, 2));
    assert!(!state.selection.contains_cell((1, 2)));
    handle_select_tool(&mut state, &mut canvas, &PointerInput { pressed: true, down: true, ..pointer((1, 2)) });
    assert!(!state.selection.is_moving);
    assert!(state.selection.active_drag);
    assert_eq!(state.selection.drag_start, Some((1, 2)));
    assert_eq!(state.cells.get((1, 1)), Some(Cell::with_color(RED)));
}

#[test]
fn contains_cell_goes_by_the_set() {
    let mut state = SelectionState::new();
    assert!(!state.contains_cell((0, 0)));
    state.current = Some(Selection {
        rect: SelectionRect { min_x: 0, min_y: 0, max_x: 2, max_y: 2 },
        kind: SelectionKind::Cells(set_of(&[(0, 0), (2, 2)])),
        preview: None,
    });
    assert!(state.contains_cell((0, 0)));
    assert!(state.contains_cell((2, 2)));
    assert!(!state.contains_cell((1, 1)));
}

#[test]
fn select_tool_shift_release_adds_to_the_selection() {
    let mut state = state_with(&[((1, 1), RED), ((8, 8), BLUE)]);
    let mut canvas = CanvasRenderer::new();
    drag(&mut state, (0, 0), (3, 3), false);
    handle_select_tool(&mut state, &mut canvas, &PointerInput { released: true, shift: true, ..pointer((8, 8)) });
    assert_eq!(selected(&state), vec![(1, 1), (8, 8)]);
}

#[test]
fn select_tool_shift_drag_is_additive() {
    let mut state = state_with(&[((1, 1), RED), ((8, 8), BLUE)]);
    let mut canvas = CanvasRenderer::new();
    drag(&mut state, (0, 0), (3, 3), false);
    handle_select_tool(&mut state, &mut canvas, &PointerInput { pressed: true, down: true, ..pointer((7, 7)) });
    handle_select_tool(&mut state, &mut canvas, &PointerInput { down: true, shift: true, ..pointer((9, 9)) });
    handle_select_tool(&mut state, &mut canvas, &PointerInput { released: true, shift: true, ..pointer((9, 9)) });
    assert_eq!(selected(&state), vec![(1, 1), (8, 8)]);
}

#[test]
fn select_tool_idle_frame_changes_nothing() {
    let mut state = state_with(&[((1, 1), RED)]);
    let mut canvas = CanvasRenderer::new();
    handle_select_tool(&mut state, &mut canvas, &pointer((1, 1)));
    assert!(!state.selection.active_drag);
    assert!(state.selection.current.is_none());
    assert_eq!(state.cells.get((1, 1)), Some(Cell::with_color(RED)));
}
