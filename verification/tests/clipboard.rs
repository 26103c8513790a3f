use tiny_neo_space::data::cell::Cell;
use tiny_neo_space::data::color::Rgba;
use tiny_neo_space::data::selection::SelectionRect;
use tiny_neo_space::input::clipboard::copy_selection;
use tiny_neo_space::input::clipboard::cut_selection;
use tiny_neo_space::input::clipboard::paste_clipboard_at_cursor;
use tiny_neo_space::input::edit::copy_relative;
use tiny_neo_space::input::edit::lift_cells;
use tiny_neo_space::input::edit::mark_all;
use tiny_neo_space::input::edit::place_cells;
use tiny_neo_space::input::selection::finalize_selection_drag_tight;
use tiny_neo_space::data::cell::CellGrid;
use tiny_neo_space::data::coord::CoordSet;
use tiny_neo_space::rendering::canvas::CanvasRenderer;
use tiny_neo_space::state::ApplicationState;
use tiny_neo_space::state::Clipboard;

const RED: Rgba = Rgba { r: 255, g: 0, b: 0, a: 255 };
const BLUE: Rgba = Rgba { r: 0, g: 0, b: 255, a: 255 };

fn state_with_selection() -> ApplicationState {
    let mut state = ApplicationState::new();
    state.cells.set((10, 20), Some(Cell::with_color(RED)));
    state.cells.set((12, 21), Some(Cell::with_color(BLUE)));
    state.cells.set((50, 50), Some(Cell::with_color(BLUE)));
    state.selection.start_drag((9, 19));
    state.selection.update_drag_end((13, 22));
    finalize_selection_drag_tight(&mut state, false);
    state
}

fn sorted_cells(grid: &CellGrid) -> Vec<((i32, i32), Cell)> {
    let mut cells = grid.iter();
    cells.sort_by_key(|e| e.0);
    cells
}

fn sorted_set(set: &CoordSet) -> Vec<(i32, i32)> {
    let mut members = set.to_vec();
    members.sort();
    members
}

#[test]
fn empty_clipboard_has_no_data() {
    let clipboard = Clipboard::empty();
    assert_eq!(clipboard.width, 0);
    assert_eq!(clipboard.height, 0);
    assert!(!clipboard.has_data);
    assert!(clipboard.cells.iter().is_empty());
}

#[test]
fn copy_stores_cells_relative_to_the_corner() {
    let mut state = state_with_selection();
    copy_selection(&mut state);
    assert!(state.clipboard.has_data);
    assert_eq!(state.clipboard.width, 3);
    assert_eq!(state.clipboard.height, 2);
    assert_eq!(
        sorted_cells(&state.clipboard.cells),
        vec![((0, 0), Cell::with_color(RED)), ((2, 1), Cell::with_color(BLUE))]
    );
    assert_eq!(state.cells.get((10, 20)), Some(Cell::with_color(RED)));
}

#[test]
fn copy_without_a_selection_does_nothing() {
    let mut state = ApplicationState::new();
    state.cells.set((0, 0), Some(Cell::with_color(RED)));
    copy_selection(&mut state);
    assert!(!state.clipboard.has_data);
}

#[test]
fn copy_skips_selected_cells_that_were_erased() {
    let mut state = state_with_selection();
    state.cells.set((12, 21), None);
    copy_selection(&mut state);
    assert_eq!(sorted_cells(&state.clipboard.cells), vec![((0, 0), Cell::with_color(RED))]);
    assert_eq!(state.clipboard.width, 3);
}

#[test]
fn cut_copies_then_removes() {
    let mut state = state_with_selection();
    let mut canvas = CanvasRenderer::new();
    cut_selection(&mut state, &mut canvas);
    assert!(state.clipboard.has_data);
    assert_eq!(
        sorted_cells(&state.clipboard.cells),
        vec![((0, 0), Cell::with_color(RED)), ((2, 1), Cell::with_color(BLUE))]
    );
    assert_eq!(state.cells.get((10, 20)), None);
    assert_eq!(state.cells.get((12, 21)), None);
    assert_eq!(state.cells.get((50, 50)), Some(Cell::with_color(BLUE)));
    assert!(state.selection.current.is_none());
    assert_eq!(canvas.chunk_state((0, 0)), Some(true));
}

#[test]
fn cut_without_a_selection_does_nothing() {
    let mut state = ApplicationState::new();
    let mut canvas = CanvasRenderer::new();
    state.cells.set((0, 0), Some(Cell::with_color(RED)));
    cut_selection(&mut state, &mut canvas);
    assert!(!state.clipboard.has_data);
    assert_eq!(state.cells.get((0, 0)), Some(Cell::with_color(RED)));
    assert_eq!(canvas.chunk_state((0, 0)), None);
}

#[test]
fn paste_places_cells_at_the_anchor_and_selects_them() {
    let mut state = state_with_selection();
    let mut canvas = CanvasRenderer::new();
    copy_selection(&mut state);
    paste_clipboard_at_cursor(&mut state, &mut canvas, (100, -100));
    assert_eq!(state.cells.get((100, -100)), Some(Cell::with_color(RED)));
    assert_eq!(state.cells.get((102, -99)), Some(Cell::with_color(BLUE)));
    assert_eq!(state.cells.get((10, 20)), Some(Cell::with_color(RED)));
    let sel = state.selection.current.as_ref().unwrap();
    assert_eq!(sorted_set(sel.cells()), vec![(100, -100), (102, -99)]);
    assert_eq!(sel.rect, SelectionRect { min_x: 100, min_y: -100, max_x: 102, max_y: -99 });
    assert!(sel.preview.is_none());
    assert_eq!(canvas.chunk_state((1, -2)), Some(true));
}

#[test]
fn paste_at_the_same_corner_restores_a_cut() {
    let mut state = state_with_selection();
    let mut canvas = CanvasRenderer::new();
    let before = sorted_cells(&state.cells);
    cut_selection(&mut state, &mut canvas);
    paste_clipboard_at_cursor(&mut state, &mut canvas, (10, 20));
    assert_eq!(sorted_cells(&state.cells), before);
}

#[test]
fn paste_with_an_empty_clipboard_does_nothing() {
    let mut state = state_with_selection();
    let mut canvas = CanvasRenderer::new();
    let before = sorted_cells(&state.cells);
    paste_clipboard_at_cursor(&mut state, &mut canvas, (0, 0));
    assert_eq!(sorted_cells(&state.cells), before);
    assert_eq!(canvas.chunk_state((0, 0)), None);
    assert_eq!(sorted_set(state.selection.current.as_ref().unwrap().cells()), vec![(10, 20), (12, 21)]);
}

#[test]
fn paste_overwrites_what_is_there() {
    let mut state = state_with_selection();
    let mut canvas = CanvasRenderer::new();
    copy_selection(&mut state);
    paste_clipboard_at_cursor(&mut state, &mut canvas, (50, 50));
    assert_eq!(state.cells.get((50, 50)), Some(Cell::with_color(RED)));
}

#[test]
fn paste_can_be_repeated() {
    let mut state = state_with_selection();
    let mut canvas = CanvasRenderer::new();
    copy_selection(&mut state);
    paste_clipboard_at_cursor(&mut state, &mut canvas, (0, 0));
    paste_clipboard_at_cursor(&mut state, &mut canvas, (0, 10));
    assert_eq!(state.cells.get((0, 0)), Some(Cell::with_color(RED)));
    assert_eq!(state.cells.get((0, 10)), Some(Cell::with_color(RED)));
    assert_eq!(state.cells.get((2, 11)), Some(Cell::with_color(BLUE)));
}

#[test]
fn lift_cells_returns_the_painted_ones() {
    let mut grid = CellGrid::new();
    grid.set((0, 0), Some(Cell::with_color(RED)));
    grid.set((1, 0), Some(Cell::with_color(BLUE)));
    let mut canvas = CanvasRenderer::new();
    let mut set = CoordSet::new();
    set.insert((0, 0));
    set.insert((200, 200));
    let lifted = lift_cells(&mut grid, &mut canvas, &set);
    assert_eq!(sorted_cells(&lifted), vec![((0, 0), Cell::with_color(RED))]);
    assert_eq!(sorted_cells(&grid), vec![((1, 0), Cell::with_color(BLUE))]);
    assert_eq!(canvas.chunk_state((0, 0)), Some(true));
    assert_eq!(canvas.chunk_state((3, 3)), None);
}

#[test]
fn place_cells_lays_cells_over_the_grid() {
    let mut grid = CellGrid::new();
    grid.set((5, 5), Some(Cell::with_color(BLUE)));
    let mut cells = CellGrid::new();
    cells.set((0, 0), Some(Cell::with_color(RED)));
    cells.set((1, 1), Some(Cell::with_color(RED)));
    let mut canvas = CanvasRenderer::new();
    let placed = place_cells(&mut grid, &mut canvas, &cells, 4, 4);
    assert_eq!(sorted_set(&placed), vec![(4, 4), (5, 5)]);
    assert_eq!(
        sorted_cells(&grid),
        vec![((4, 4), Cell::with_color(RED)), ((5, 5), Cell::with_color(RED))]
    );
    assert_eq!(canvas.chunk_state((0, 0)), Some(true));
}

#[test]
fn copy_relative_can_clip_to_a_rect() {
    let mut grid = CellGrid::new();
    grid.set((0, 0), Some(Cell::with_color(RED)));
    grid.set((9, 9), Some(Cell::with_color(BLUE)));
    let mut set = CoordSet::new();
    set.insert((0, 0));
    set.insert((9, 9));
    let all = copy_relative(&grid, &set, (-1, -1), None);
    assert_eq!(
        sorted_cells(&all),
        vec![((1, 1), Cell::with_color(RED)), ((10, 10), Cell::with_color(BLUE))]
    );
    let clipped = copy_relative(&grid, &set, (-1, -1), Some(SelectionRect { min_x: 0, min_y: 0, max_x: 5, max_y: 5 }));
    assert_eq!(sorted_cells(&clipped), vec![((1, 1), Cell::with_color(RED))]);
}

#[test]
fn mark_all_marks_every_chunk_touched() {
    let mut canvas = CanvasRenderer::new();
    let mut set = CoordSet::new();
    set.insert((0, 0));
    set.insert((-1, 0));
    set.insert((1, 1));
    mark_all(&mut canvas, &set);
    assert_eq!(canvas.chunk_state((0, 0)), Some(true));
    assert_eq!(canvas.chunk_state((-1, 0)), Some(true));
    assert_eq!(canvas.chunk_state((0, -1)), None);
}
