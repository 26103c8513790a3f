//! Copy, cut and paste.

use crate::data::coord::lemma_shift_inverse;
use crate::data::coord::shift_spec;
use crate::data::coord::unshift_spec;
use crate::data::selection::bounding_rect;
use crate::data::selection::compute_bounding_rect;
use crate::data::selection::shifted_set;
use crate::data::selection::Selection;
use crate::data::selection::SelectionKind;
use crate::data::selection::SelectionModel;
use crate::data::selection::SelectionStateModel;
use crate::input::edit::copy_relative;
use crate::input::edit::lift_cells;
use crate::input::edit::mark_all;
use crate::input::edit::overlay_shifted;
use crate::input::edit::place_cells;
use crate::input::edit::relative_cells;
use crate::rendering::canvas::mark_cells;
use crate::rendering::canvas::CanvasRenderer;
use crate::state::ApplicationState;
use crate::state::Clipboard;
use crate::state::ClipboardModel;
use crate::state::Editor;
use crate::state::StateModel;
use vstd::prelude::*;

verus! {

impl StateModel {
    /// The clipboard takes those selected cells that are painted, keyed by
    /// their place relative to the top left corner of the selection's
    /// rectangle, and the size of that rectangle. Nothing happens when
    /// nothing is selected.
    pub open spec fn copy_selection(self) -> StateModel {
        match self.selection.current {
            Some(sel) => StateModel {
                clipboard: ClipboardModel {
                    width: sel.rect.max_x - sel.rect.min_x + 1,
                    height: sel.rect.max_y - sel.rect.min_y + 1,
                    cells: relative_cells(self.cells, sel.cells, (sel.rect.min_x, sel.rect.min_y)),
                    has_data: true,
                },
                ..self
            },
            None => self,
        }
    }
}

impl Editor {
    /// A copy, after which the selected cells are cleared from the grid, the
    /// chunk of every selected cell becomes dirty, and nothing is selected.
    pub open spec fn cut_selection(self) -> Editor {
        let copied = self.state.copy_selection();
        match copied.selection.current {
            Some(sel) => Editor {
                state: StateModel {
                    cells: copied.cells.remove_keys(sel.cells),
                    selection: SelectionStateModel { current: None, ..copied.selection },
                    ..copied
                },
                chunks: mark_cells(self.chunks, sel.cells),
            },
            None => Editor { state: copied, ..self },
        }
    }

    /// The cells of the clipboard are laid onto the grid, each at `anchor`
    /// plus its relative place; the chunks they land in become dirty; and
    /// the cells that landed are the new selection. An empty clipboard
    /// changes nothing.
    pub open spec fn paste(self, anchor: (i32, i32)) -> Editor {
        let s = self.state;
        if !s.clipboard.has_data {
            self
        } else {
            let placed = shifted_set(s.clipboard.cells.dom(), anchor.0, anchor.1);
            Editor {
                state: StateModel {
                    cells: overlay_shifted(s.cells, s.clipboard.cells, anchor.0, anchor.1),
                    selection: if placed.is_empty() {
                        s.selection
                    } else {
                        SelectionStateModel {
                            current: Some(
                                SelectionModel {
                                    rect: bounding_rect(placed),
                                    cells: placed,
                                    preview: None,
                                },
                            ),
                            ..s.selection
                        }
                    },
                    ..s
                },
                chunks: mark_cells(self.chunks, placed),
            }
        }
    }
}

/// Copies the selection to the clipboard; see [`StateModel::copy_selection`].
pub fn copy_selection(state: &mut ApplicationState)
    ensures
        final(state)@ == old(state)@.copy_selection(),
{
    match &state.selection.current {
        Some(sel) => match &sel.kind {
            SelectionKind::Cells(cells) => {
                let rect = sel.rect;
                let copy = copy_relative(&state.cells, cells, (rect.min_x, rect.min_y), None);
                state.clipboard =
                Clipboard { width: rect.width(), height: rect.height(), cells: copy, has_data: true };
            },
        },
        None => {},
    }
}

/// Copies the selection and clears it from the grid; see
/// [`Editor::cut_selection`].
pub fn cut_selection(state: &mut ApplicationState, canvas: &mut CanvasRenderer)
    ensures
        Editor::of(final(state), final(canvas)) == Editor::of(old(state), old(canvas)).cut_selection(),
{
    copy_selection(state);
    let current = state.selection.current.take();
    match current {
        Some(sel) => match &sel.kind {
            SelectionKind::Cells(cells) => {
                let _ = lift_cells(&mut state.cells, canvas, cells);
                mark_all(canvas, cells);
            },
        },
        None => {},
    }
}

/// Pastes the clipboard with its top left corner at `anchor`; see
/// [`Editor::paste`].
pub fn paste_clipboard_at_cursor(
    state: &mut ApplicationState,
    canvas: &mut CanvasRenderer,
    anchor: (i32, i32),
)
    ensures
        Editor::of(final(state), final(canvas)) == Editor::of(old(state), old(canvas)).paste(anchor),
        old(state)@.selection.is_tight() ==> final(state)@.selection.is_tight(),
{
    if !state.clipboard.has_data {
        return ;
    }
    let placed = place_cells(&mut state.cells, canvas, &state.clipboard.cells, anchor.0, anchor.1);
    match compute_bounding_rect(&placed) {
        Some(rect) => {
            state.selection.current =
            Some(Selection { rect, kind: SelectionKind::Cells(placed), preview: None });
        },
        None => {},
    }
}

/// Cutting a selection and pasting it at the top left corner of its
/// rectangle gives the grid back as it was, and pasting it anywhere else
/// puts each cell that was cut as far from the new corner as it was from
/// the old.
pub proof fn lemma_cut_paste_round_trip(editor: Editor, anchor: (i32, i32))
    requires
        editor.state.selection.current is Some,
    ensures
        ({
            let sel = editor.state.selection.current->0;
            let corner = (sel.rect.min_x, sel.rect.min_y);
            let cut = editor.cut_selection();
            &&& cut.paste(corner).state.cells == editor.state.cells
            &&& forall|c: (i32, i32)|
                sel.cells.contains(c) && editor.state.cells.contains_key(c) ==> #[trigger] cut.paste(
                    anchor,
                ).state.cells.get(shift_spec(unshift_spec(c, corner.0, corner.1), anchor.0, anchor.1))
                    == Some(editor.state.cells[c])
        }),
{
    let sel = editor.state.selection.current->0;
    let corner = (sel.rect.min_x, sel.rect.min_y);
    let cut = editor.cut_selection();
    assert forall|c: (i32, i32)|
        shift_spec(unshift_spec(c, corner.0, corner.1), corner.0, corner.1) == c && unshift_spec(
            shift_spec(c, anchor.0, anchor.1),
            anchor.0,
            anchor.1,
        ) == c by {
        lemma_shift_inverse(c, corner.0, corner.1);
        lemma_shift_inverse(c, anchor.0, anchor.1);
    }
    assert(cut.paste(corner).state.cells =~= editor.state.cells);
}

} // verus!
