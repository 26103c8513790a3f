//! The picture of a selection that follows the pointer during a move.

use crate::data::cell::Cell;
use crate::data::cell::CellGrid;
use crate::data::coord::CoordSet;
use crate::data::selection::PreviewModel;
use crate::data::selection::SelectionPreview;
use crate::data::selection::SelectionRect;
use crate::input::edit::copy_relative;
use crate::input::edit::rect_cells;
use crate::input::edit::relative_cells;
use vstd::prelude::*;

verus! {

/// The preview of the selection `cells` with bounding box `rect`: as many
/// columns and rows as the box has, and those selected cells inside the box
/// that are painted, keyed by their place relative to its top left corner.
/// A box without columns or rows has no preview.
pub open spec fn preview_of(
    grid: Map<(i32, i32), Cell>,
    rect: SelectionRect,
    cells: Set<(i32, i32)>,
) -> Option<PreviewModel> {
    let width = rect.max_x - rect.min_x + 1;
    let height = rect.max_y - rect.min_y + 1;
    if width <= 0 || height <= 0 {
        None
    } else {
        Some(
            PreviewModel {
                width,
                height,
                cells: relative_cells(
                    grid,
                    cells.intersect(rect_cells(rect)),
                    (rect.min_x, rect.min_y),
                ),
            },
        )
    }
}

/// What an optional preview stands for.
pub open spec fn preview_model(preview: Option<SelectionPreview>) -> Option<PreviewModel> {
    match preview {
        Some(p) => Some(p@),
        None => None,
    }
}

/// Builds the preview of a selection from the grid as it is now.
pub fn build_selection_preview(cells: &CellGrid, rect: &SelectionRect, selected: &CoordSet) -> (preview:
    Option<SelectionPreview>)
    ensures
        preview_model(preview) == preview_of(cells@, *rect, selected@),
{
    let width = rect.width();
    let height = rect.height();
    if width <= 0 || height <= 0 {
        return None;
    }
    let copy = copy_relative(cells, selected, (rect.min_x, rect.min_y), Some(*rect));
    Some(SelectionPreview { width, height, cells: copy })
}

} // verus!
