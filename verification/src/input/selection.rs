//! The selection tool: dragging out a selection, lifting it off the grid,
//! dropping it somewhere else, and deleting it.

use crate::data::cell::Cell;
use crate::data::coord::unshift_spec;
use crate::data::coord::CoordSet;
use crate::data::selection::bounding_rect;
use crate::data::selection::compute_bounding_rect;
use crate::data::selection::pick_filled;
use crate::data::selection::pick_filled_cells;
use crate::data::selection::shifted_set;
use crate::data::selection::Selection;
use crate::data::selection::SelectionKind;
use crate::data::selection::SelectionModel;
use crate::data::selection::SelectionRect;
use crate::data::selection::SelectionStateModel;
use crate::input::edit::lift_cells;
use crate::input::edit::overlay_shifted;
use crate::input::edit::place_cells;
use crate::data::cell::CellGrid;
use crate::rendering::canvas::mark_cells;
use crate::rendering::canvas::CanvasRenderer;
use crate::rendering::selection::build_selection_preview;
use crate::rendering::selection::preview_of;
use crate::state::ApplicationState;
use crate::state::Editor;
use crate::state::StateModel;
use vstd::prelude::*;

verus! {

/// The pointer during one frame, as the tools see it.
#[derive(Clone, Copy, Debug)]
pub struct PointerInput {
    /// The cell under the pointer.
    pub cell: (i32, i32),
    /// The button went down in this frame.
    pub pressed: bool,
    /// The button is held.
    pub down: bool,
    /// The button came up in this frame.
    pub released: bool,
    /// The modifier for adding to the selection is held.
    pub shift: bool,
    /// How far the pointer has carried the selection since it was lifted, in
    /// whole cells.
    pub drop_offset: (i32, i32),
}

impl StateModel {
    /// The drag ends, and the painted cells inside the dragged rectangle are
    /// selected, with the rectangle fitted tightly around what is selected.
    /// When `additive` is set they join the cells already selected; when it
    /// is not they replace them. If the rectangle holds no painted cell, the
    /// selection stays as it is when `additive` is set and is cleared when it
    /// is not.
    pub open spec fn finalize_drag_tight(self, additive: bool) -> StateModel {
        let ended = SelectionStateModel { active_drag: false, ..self.selection };
        match (self.selection.drag_start, self.selection.drag_end) {
            (Some(start), Some(end)) => {
                let picked = pick_filled(self.cells, SelectionRect::from_points_spec(start, end));
                if picked.is_empty() {
                    if additive {
                        StateModel { selection: ended, ..self }
                    } else {
                        StateModel {
                            selection: SelectionStateModel { current: None, ..ended },
                            ..self
                        }
                    }
                } else {
                    let cells = match self.selection.current {
                        Some(sel) => if additive {
                            sel.cells.union(picked)
                        } else {
                            picked
                        },
                        None => picked,
                    };
                    let rect = bounding_rect(cells);
                    StateModel {
                        selection: SelectionStateModel {
                            current: Some(
                                SelectionModel {
                                    rect,
                                    cells,
                                    preview: preview_of(self.cells, rect, cells),
                                },
                            ),
                            ..ended
                        },
                        ..self
                    }
                }
            },
            _ => StateModel { selection: ended, ..self },
        }
    }

    /// A painted cell joins the selection; the click on an empty place does
    /// nothing.
    pub open spec fn add_to_selection(self, cell: (i32, i32)) -> StateModel {
        if self.cells.contains_key(cell) {
            let cells = match self.selection.current {
                Some(sel) => sel.cells.insert(cell),
                None => Set::empty().insert(cell),
            };
            StateModel {
                selection: SelectionStateModel {
                    current: Some(
                        SelectionModel { rect: bounding_rect(cells), cells, preview: None },
                    ),
                    ..self.selection
                },
                ..self
            }
        } else {
            self
        }
    }
}

impl Editor {
    /// A move begins: the selected cells leave the grid for the staging area
    /// and their chunks become dirty, so that the canvas shows a hole. The
    /// preview is built from the grid as it was, unless there is one already.
    /// Nothing happens while a move is under way or nothing is selected.
    pub open spec fn lift(self) -> Editor {
        let s = self.state;
        if s.selection.is_moving {
            self
        } else {
            match s.selection.current {
                Some(sel) => Editor {
                    state: StateModel {
                        cells: s.cells.remove_keys(sel.cells),
                        selection: SelectionStateModel {
                            current: Some(
                                SelectionModel {
                                    preview: if sel.preview is None {
                                        preview_of(s.cells, sel.rect, sel.cells)
                                    } else {
                                        sel.preview
                                    },
                                    ..sel
                                },
                            ),
                            lifted: s.cells.restrict(sel.cells),
                            is_lifted: true,
                            is_moving: true,
                            ..s.selection
                        },
                        ..s
                    },
                    chunks: mark_cells(self.chunks, sel.cells.intersect(s.cells.dom())),
                },
                None => self,
            }
        }
    }

    /// The move ends `(dx, dy)` cells away: the staged cells go back onto the
    /// grid that far from where they were taken, the chunks they land in
    /// become dirty, and the selection is the cells that landed, with its
    /// rectangle fitted to them and its preview gone. Nothing happens unless
    /// cells were lifted.
    pub open spec fn drop_lifted(self, dx: i32, dy: i32) -> Editor {
        let s = self.state;
        if !s.selection.is_lifted {
            self
        } else {
            let placed = shifted_set(s.selection.lifted.dom(), dx, dy);
            Editor {
                state: StateModel {
                    cells: overlay_shifted(s.cells, s.selection.lifted, dx, dy),
                    selection: SelectionStateModel {
                        current: match s.selection.current {
                            Some(sel) => Some(
                                SelectionModel {
                                    rect: if placed.is_empty() {
                                        sel.rect
                                    } else {
                                        bounding_rect(placed)
                                    },
                                    cells: placed,
                                    preview: None,
                                },
                            ),
                            None => None,
                        },
                        lifted: Map::empty(),
                        is_lifted: false,
                        is_moving: false,
                        ..s.selection
                    },
                    ..s
                },
                chunks: mark_cells(self.chunks, placed),
            }
        }
    }

    /// What a drop reports: the distance, if cells were lifted.
    pub open spec fn drop_result(self, dx: i32, dy: i32) -> Option<(i32, i32)> {
        if self.state.selection.is_lifted {
            Some((dx, dy))
        } else {
            None
        }
    }

    /// The selected cells are cleared from the grid, their chunks become
    /// dirty, and nothing is selected any more.
    pub open spec fn delete_selection(self) -> Editor {
        let s = self.state;
        match s.selection.current {
            Some(sel) => Editor {
                state: StateModel {
                    cells: s.cells.remove_keys(sel.cells),
                    selection: SelectionStateModel {
                        current: None,
                        is_moving: false,
                        ..s.selection
                    },
                    ..s
                },
                chunks: mark_cells(self.chunks, sel.cells.intersect(s.cells.dom())),
            },
            None => self,
        }
    }

    /// What a press of the button does: on a selected cell it lifts the
    /// selection, and anywhere else it begins a drag.
    pub open spec fn select_press(self, cell: (i32, i32)) -> Editor {
        if self.state.selection.contains_cell(cell) {
            self.lift()
        } else {
            Editor {
                state: StateModel { selection: self.state.selection.start_drag(cell), ..self.state },
                ..self
            }
        }
    }

    /// What a release of the button does: it drops what is being moved, or
    /// ends the drag, or, with the modifier held and neither under way, adds
    /// the clicked cell to the selection.
    pub open spec fn select_release(self, input: PointerInput) -> Editor {
        if self.state.selection.is_moving {
            self.drop_lifted(input.drop_offset.0, input.drop_offset.1)
        } else if self.state.selection.active_drag {
            Editor { state: self.state.finalize_drag_tight(input.shift), ..self }
        } else if input.shift {
            Editor { state: self.state.add_to_selection(input.cell), ..self }
        } else {
            self
        }
    }

    /// One frame of the selection tool: the press, then the drag following
    /// the pointer, then the release.
    pub open spec fn select_tool(self, input: PointerInput) -> Editor {
        let pressed = if input.pressed {
            self.select_press(input.cell)
        } else {
            self
        };
        let dragged = if pressed.state.selection.active_drag && input.down {
            Editor {
                state: StateModel {
                    selection: pressed.state.selection.update_drag_end(input.cell),
                    ..pressed.state
                },
                ..pressed
            }
        } else {
            pressed
        };
        if input.released {
            dragged.select_release(input)
        } else {
            dragged
        }
    }
}

/// Ends the drag and commits the selection; see
/// [`StateModel::finalize_drag_tight`].
pub fn finalize_selection_drag_tight(state: &mut ApplicationState, additive: bool)
    ensures
        final(state)@ == old(state)@.finalize_drag_tight(additive),
        old(state)@.selection.is_tight() ==> final(state)@.selection.is_tight(),
{
    state.selection.active_drag = false;
    match (state.selection.drag_start, state.selection.drag_end) {
        (Some(start), Some(end)) => {
            let rect = SelectionRect::from_points(start, end);
            let mut cells = pick_filled_cells(&state.cells, &rect);
            if cells.is_empty() {
                if !additive {
                    state.selection.current = None;
                }
                return ;
            }
            let ghost picked = cells@;
            if additive {
                match &state.selection.current {
                    Some(sel) => match &sel.kind {
                        SelectionKind::Cells(existing) => {
                            cells.extend(existing);
                            assert(cells@ =~= existing@.union(picked));
                        },
                    },
                    None => {},
                }
            }
            match compute_bounding_rect(&cells) {
                Some(tight) => {
                    let preview = build_selection_preview(&state.cells, &tight, &cells);
                    state.selection.current =
                    Some(Selection { rect: tight, kind: SelectionKind::Cells(cells), preview });
                },
                None => {},
            }
        },
        _ => {},
    }
}

/// Adds the painted cell at `cell` to the selection; see
/// [`StateModel::add_to_selection`].
pub fn add_cell_to_selection(state: &mut ApplicationState, cell: (i32, i32))
    ensures
        final(state)@ == old(state)@.add_to_selection(cell),
        old(state)@.selection.is_tight() ==> final(state)@.selection.is_tight(),
{
    if state.cells.contains(cell) {
        let mut cells = match state.selection.current.take() {
            Some(sel) => match sel.kind {
                SelectionKind::Cells(existing) => existing,
            },
            None => CoordSet::new(),
        };
        cells.insert(cell);
        match compute_bounding_rect(&cells) {
            Some(rect) => {
                state.selection.current =
                Some(Selection { rect, kind: SelectionKind::Cells(cells), preview: None });
            },
            None => {
                assert(cells@.contains(cell));
            },
        }
    }
}

/// Begins a move of the selection by lifting its cells off the grid; see
/// [`Editor::lift`].
pub fn start_move_with_lift(state: &mut ApplicationState, canvas: &mut CanvasRenderer)
    ensures
        Editor::of(final(state), final(canvas)) == Editor::of(old(state), old(canvas)).lift(),
{
    if state.selection.is_moving {
        return ;
    }
    let current = state.selection.current.take();
    match current {
        Some(sel) => {
            let Selection { rect, kind, preview } = sel;
            let preview = match preview {
                Some(p) => Some(p),
                None => match &kind {
                    SelectionKind::Cells(cells) => build_selection_preview(&state.cells, &rect, cells),
                },
            };
            let lifted = match &kind {
                SelectionKind::Cells(cells) => lift_cells(&mut state.cells, canvas, cells),
            };
            state.selection.lifted_cells = lifted;
            state.selection.current = Some(Selection { rect, kind, preview });
            state.selection.is_lifted = true;
            state.selection.is_moving = true;
        },
        None => {},
    }
}

/// Ends a move by putting the lifted cells back `(dx, dy)` cells from where
/// they were taken; see [`Editor::drop_lifted`].
pub fn drop_lifted(state: &mut ApplicationState, canvas: &mut CanvasRenderer, dx: i32, dy: i32) -> (moved:
    Option<(i32, i32)>)
    ensures
        Editor::of(final(state), final(canvas)) == Editor::of(old(state), old(canvas)).drop_lifted(
            dx,
            dy,
        ),
        moved == Editor::of(old(state), old(canvas)).drop_result(dx, dy),
        old(state)@.selection.is_tight() ==> final(state)@.selection.is_tight(),
{
    if !state.selection.is_lifted {
        return None;
    }
    let mut lifted = CellGrid::new();
    std::mem::swap(&mut state.selection.lifted_cells, &mut lifted);
    let placed = place_cells(&mut state.cells, canvas, &lifted, dx, dy);
    let current = state.selection.current.take();
    match current {
        Some(sel) => {
            let rect = match compute_bounding_rect(&placed) {
                Some(tight) => tight,
                None => sel.rect,
            };
            state.selection.current =
            Some(Selection { rect, kind: SelectionKind::Cells(placed), preview: None });
        },
        None => {},
    }
    state.selection.is_lifted = false;
    state.selection.is_moving = false;
    Some((dx, dy))
}

/// Clears the selected cells from the grid and ends the selection; see
/// [`Editor::delete_selection`].
pub fn delete_selection(state: &mut ApplicationState, canvas: &mut CanvasRenderer)
    ensures
        Editor::of(final(state), final(canvas)) == Editor::of(old(state), old(canvas)).delete_selection(),
{
    let current = state.selection.current.take();
    match current {
        Some(sel) => {
            match &sel.kind {
                SelectionKind::Cells(cells) => {
                    let _ = lift_cells(&mut state.cells, canvas, cells);
                },
            }
            state.selection.is_moving = false;
        },
        None => {},
    }
}

/// One frame of the selection tool; see [`Editor::select_tool`].
pub fn handle_select_tool(
    state: &mut ApplicationState,
    canvas: &mut CanvasRenderer,
    input: &PointerInput,
)
    ensures
        Editor::of(final(state), final(canvas)) == Editor::of(old(state), old(canvas)).select_tool(
            *input,
        ),
        old(state)@.selection.is_tight() ==> final(state)@.selection.is_tight(),
{
    if input.pressed {
        if state.selection.contains_cell(input.cell) {
            start_move_with_lift(state, canvas);
        } else {
            state.selection.start_drag(input.cell);
        }
    }
    if state.selection.active_drag && input.down {
        state.selection.update_drag_end(input.cell);
    }
    if input.released {
        if state.selection.is_moving {
            drop_lifted(state, canvas, input.drop_offset.0, input.drop_offset.1);
        } else if state.selection.active_drag {
            finalize_selection_drag_tight(state, input.shift);
        } else if input.shift {
            add_cell_to_selection(state, input.cell);
        }
    }
}

/// While a selection is lifted, none of the lifted cells is on the grid, and
/// the lifted cells are those selected cells that were painted, as they
/// were.
pub proof fn lemma_lift_leaves_hole(editor: Editor)
    requires
        editor.state.selection.current is Some,
        !editor.state.selection.is_moving,
    ensures
        ({
            let sel = editor.state.selection.current->0;
            let lifted = editor.lift();
            &&& lifted.state.selection.is_moving
            &&& lifted.state.selection.is_lifted
            &&& lifted.state.selection.lifted.dom() == sel.cells.intersect(editor.state.cells.dom())
            &&& forall|c: (i32, i32)| #[trigger]
                lifted.state.selection.lifted.contains_key(c)
                    ==> !lifted.state.cells.contains_key(c) && lifted.state.selection.lifted[c]
                    == editor.state.cells[c]
            &&& forall|c: (i32, i32)|
                !sel.cells.contains(c) ==> #[trigger] lifted.state.cells.get(c)
                    == editor.state.cells.get(c)
        }),
{
}

/// `grid` after the cells of `cells` were cleared and painted again
/// `(dx, dy)` away.
pub open spec fn move_cells(
    grid: Map<(i32, i32), Cell>,
    cells: Set<(i32, i32)>,
    dx: i32,
    dy: i32,
) -> Map<(i32, i32), Cell> {
    overlay_shifted(grid.remove_keys(cells), grid.restrict(cells), dx, dy)
}

/// A place of a grid whose cells were moved holds the cell that was moved
/// there, if one was; else nothing, if its own cell was moved away; else
/// what it held before.
pub proof fn lemma_move_cells_at(
    grid: Map<(i32, i32), Cell>,
    cells: Set<(i32, i32)>,
    dx: i32,
    dy: i32,
    c: (i32, i32),
)
    ensures
        move_cells(grid, cells, dx, dy).get(c) == if cells.contains(unshift_spec(c, dx, dy))
            && grid.contains_key(unshift_spec(c, dx, dy)) {
            Some(grid[unshift_spec(c, dx, dy)])
        } else if cells.contains(c) {
            None
        } else {
            grid.get(c)
        },
{
}

/// Lifting a selection and dropping it `(dx, dy)` away gives the grid that
/// clearing the selected cells and painting them again that far away would
/// give, and selects the cells where they landed. Dropping the selection
/// where it was lifted leaves the grid exactly as it was.
pub proof fn lemma_move_round_trip(editor: Editor, dx: i32, dy: i32)
    requires
        editor.state.selection.current is Some,
        !editor.state.selection.is_moving,
    ensures
        ({
            let sel = editor.state.selection.current->0;
            let grid = editor.state.cells;
            let moved = editor.lift().drop_lifted(dx, dy);
            &&& moved.state.cells == move_cells(grid, sel.cells, dx, dy)
            &&& dx == 0 && dy == 0 ==> moved.state.cells == grid
            &&& moved.state.selection.current is Some
            &&& moved.state.selection.current->0.cells == shifted_set(
                sel.cells.intersect(grid.dom()),
                dx,
                dy,
            )
            &&& !moved.state.selection.is_moving
            &&& !moved.state.selection.is_lifted
            &&& moved.state.selection.lifted == Map::<(i32, i32), Cell>::empty()
        }),
{
}

} // verus!
