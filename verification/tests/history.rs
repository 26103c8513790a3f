use tiny_neo_space::data::cell::Cell;
use tiny_neo_space::data::color::Rgba;
use tiny_neo_space::input::dispatcher::apply_changes_and_record;
use tiny_neo_space::input::dispatcher::undo_last;
use tiny_neo_space::rendering::canvas::CanvasRenderer;
use tiny_neo_space::state::ApplicationState;
use tiny_neo_space::state::CellChange;
use tiny_neo_space::state::Command;
use tiny_neo_space::state::History;
use tiny_neo_space::state::DEFAULT_HISTORY_SIZE;

const RED: Rgba = Rgba { r: 255, g: 0, b: 0, a: 255 };
const BLUE: Rgba = Rgba { r: 0, g: 0, b: 255, a: 255 };
const GREEN: Rgba = Rgba { r: 0, g: 255, b: 0, a: 255 };

fn paint(coord: (i32, i32), color: Rgba) -> CellChange {
    CellChange { coord, before: None, after: Some(Cell::with_color(color)) }
}

fn erase(coord: (i32, i32)) -> CellChange {
    CellChange { coord, before: None, after: None }
}

fn command(tag: i32) -> Command {
    Command { changes: vec![erase((tag, tag))] }
}

fn snapshot(state: &ApplicationState) -> Vec<((i32, i32), Cell)> {
    let mut cells = state.cells.iter();
    cells.sort_by_key(|e| e.0);
    cells
}

#[test]
fn new_history_is_empty() {
    let history = History::new(5);
    assert!(history.stack.is_empty());
    assert_eq!(history.max, 5);
}

#[test]
fn push_keeps_commands_oldest_first() {
    let mut history = History::new(3);
    history.push(command(1));
    history.push(command(2));
    assert_eq!(history.stack.len(), 2);
    assert_eq!(history.stack[0].changes[0].coord, (1, 1));
    assert_eq!(history.stack[1].changes[0].coord, (2, 2));
}

#[test]
fn push_beyond_capacity_evicts_the_oldest() {
    let mut history = History::new(3);
    for tag in 1..=4 {
        history.push(command(tag));
    }
    assert_eq!(history.stack.len(), 3);
    let tags: Vec<i32> = history.stack.iter().map(|c| c.changes[0].coord.0).collect();
    assert_eq!(tags, vec![2, 3, 4]);
}

#[test]
fn history_never_grows_beyond_capacity() {
    let mut history = History::new(2);
    for tag in 0..10 {
        history.push(command(tag));
        assert!(history.stack.len() <= 2);
    }
    let tags: Vec<i32> = history.stack.iter().map(|c| c.changes[0].coord.0).collect();
    assert_eq!(tags, vec![8, 9]);
}

#[test]
fn history_of_capacity_zero_keeps_nothing() {
    let mut history = History::new(0);
    history.push(command(1));
    assert!(history.stack.is_empty());
}

#[test]
fn pop_returns_the_newest_command() {
    let mut history = History::new(3);
    history.push(command(1));
    history.push(command(2));
    assert_eq!(history.pop().unwrap().changes[0].coord, (2, 2));
    assert_eq!(history.pop().unwrap().changes[0].coord, (1, 1));
    assert!(history.pop().is_none());
}

#[test]
fn default_history_size_is_fifty() {
    assert_eq!(DEFAULT_HISTORY_SIZE, 50);
    let state = ApplicationState::new();
    assert_eq!(state.history.max, 50);
}

#[test]
fn record_applies_the_changes() {
    let mut state = ApplicationState::new();
    let mut canvas = CanvasRenderer::new();
    apply_changes_and_record(&mut state, &mut canvas, vec![paint((0, 0), RED), paint((70, 0), BLUE)]);
    assert_eq!(state.cells.get((0, 0)), Some(Cell::with_color(RED)));
    assert_eq!(state.cells.get((70, 0)), Some(Cell::with_color(BLUE)));
    assert_eq!(canvas.chunk_state((0, 0)), Some(true));
    assert_eq!(canvas.chunk_state((1, 0)), Some(true));
    assert_eq!(state.history.stack.len(), 1);
}

#[test]
fn record_fills_in_missing_before_values() {
    let mut state = ApplicationState::new();
    let mut canvas = CanvasRenderer::new();
    state.cells.set((0, 0), Some(Cell::with_color(RED)));
    apply_changes_and_record(&mut state, &mut canvas, vec![paint((0, 0), BLUE), paint((1, 0), BLUE)]);
    let recorded = &state.history.stack[0].changes;
    assert_eq!(
        recorded[0],
        CellChange { coord: (0, 0), before: Some(Cell::with_color(RED)), after: Some(Cell::with_color(BLUE)) }
    );
    assert_eq!(recorded[1], CellChange { coord: (1, 0), before: None, after: Some(Cell::with_color(BLUE)) });
}

#[test]
fn record_takes_before_values_from_the_grid_as_it_was() {
    let mut state = ApplicationState::new();
    let mut canvas = CanvasRenderer::new();
    state.cells.set((0, 0), Some(Cell::with_color(RED)));
    apply_changes_and_record(&mut state, &mut canvas, vec![paint((0, 0), BLUE), paint((0, 0), GREEN)]);
    let recorded = &state.history.stack[0].changes;
    assert_eq!(recorded[0].before, Some(Cell::with_color(RED)));
    assert_eq!(recorded[1].before, Some(Cell::with_color(RED)));
    assert_eq!(state.cells.get((0, 0)), Some(Cell::with_color(GREEN)));
}

#[test]
fn record_keeps_a_given_before_value() {
    let mut state = ApplicationState::new();
    let mut canvas = CanvasRenderer::new();
    let change = CellChange { coord: (0, 0), before: Some(Cell::with_color(GREEN)), after: None };
    apply_changes_and_record(&mut state, &mut canvas, vec![change]);
    assert_eq!(state.history.stack[0].changes[0].before, Some(Cell::with_color(GREEN)));
}

#[test]
fn record_with_after_none_removes_the_cell() {
    let mut state = ApplicationState::new();
    let mut canvas = CanvasRenderer::new();
    state.cells.set((3, 3), Some(Cell::with_color(RED)));
    apply_changes_and_record(&mut state, &mut canvas, vec![erase((3, 3))]);
    assert_eq!(state.cells.get((3, 3)), None);
}

#[test]
fn undo_restores_the_before_values() {
    let mut state = ApplicationState::new();
    let mut canvas = CanvasRenderer::new();
    state.cells.set((0, 0), Some(Cell::with_color(RED)));
    apply_changes_and_record(&mut state, &mut canvas, vec![paint((0, 0), BLUE), paint((1, 0), BLUE)]);
    canvas.update(&state.cells);
    undo_last(&mut state, &mut canvas);
    assert_eq!(state.cells.get((0, 0)), Some(Cell::with_color(RED)));
    assert_eq!(state.cells.get((1, 0)), None);
    assert!(state.history.stack.is_empty());
    assert_eq!(canvas.chunk_state((0, 0)), Some(true));
}

#[test]
fn undo_on_an_empty_history_does_nothing() {
    let mut state = ApplicationState::new();
    let mut canvas = CanvasRenderer::new();
    state.cells.set((0, 0), Some(Cell::with_color(RED)));
    undo_last(&mut state, &mut canvas);
    assert_eq!(state.cells.get((0, 0)), Some(Cell::with_color(RED)));
    assert_eq!(canvas.chunk_state((0, 0)), None);
}

#[test]
fn undo_round_trip_restores_the_grid() {
    let mut state = ApplicationState::new();
    let mut canvas = CanvasRenderer::new();
    state.cells.set((0, 0), Some(Cell::with_color(RED)));
    state.cells.set((5, 5), Some(Cell::with_color(GREEN)));
    let before = snapshot(&state);
    let commands = vec![
        vec![paint((0, 0), BLUE), paint((1, 1), BLUE)],
        vec![erase((0, 0)), erase((5, 5)), paint((2, 2), RED)],
        vec![paint((0, 0), GREEN), paint((0, 0), RED), erase((1, 1))],
        vec![],
        vec![paint((5, 5), BLUE)],
    ];
    let count = commands.len();
    for changes in commands {
        apply_changes_and_record(&mut state, &mut canvas, changes);
    }
    assert_ne!(snapshot(&state), before);
    for _ in 0..count {
        undo_last(&mut state, &mut canvas);
    }
    assert_eq!(snapshot(&state), before);
    assert!(state.history.stack.is_empty());
}

#[test]
fn undo_cannot_reach_evicted_commands() {
    let mut state = ApplicationState::new();
    let mut canvas = CanvasRenderer::new();
    state.history = History::new(2);
    apply_changes_and_record(&mut state, &mut canvas, vec![paint((0, 0), RED)]);
    apply_changes_and_record(&mut state, &mut canvas, vec![paint((1, 0), RED)]);
    apply_changes_and_record(&mut state, &mut canvas, vec![paint((2, 0), RED)]);
    for _ in 0..3 {
        undo_last(&mut state, &mut canvas);
    }
    assert_eq!(snapshot(&state), vec![((0, 0), Cell::with_color(RED))]);
}
