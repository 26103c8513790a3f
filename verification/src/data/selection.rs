//! Selections: a set of cells with its bounding rectangle, and the state of
//! the selection tool around it.

use crate::data::cell::Cell;
use crate::data::cell::CellGrid;
use crate::data::coord::shift;
use crate::data::coord::shift_spec;
use crate::data::coord::CoordSet;
use vstd::prelude::*;

verus! {

/// An axis-aligned rectangle of cells, both corners included.
#[derive(Clone, Copy, Debug, PartialEq, Eq, Structural)]
pub struct SelectionRect {
    pub min_x: i32,
    pub min_y: i32,
    pub max_x: i32,
    pub max_y: i32,
}

impl SelectionRect {
    /// The rectangle spanned by two opposite corners, in any order.
    pub open spec fn from_points_spec(corner: (i32, i32), opposite: (i32, i32)) -> SelectionRect {
        SelectionRect {
            min_x: if corner.0 <= opposite.0 {
                corner.0
            } else {
                opposite.0
            },
            min_y: if corner.1 <= opposite.1 {
                corner.1
            } else {
                opposite.1
            },
            max_x: if corner.0 <= opposite.0 {
                opposite.0
            } else {
                corner.0
            },
            max_y: if corner.1 <= opposite.1 {
                opposite.1
            } else {
                corner.1
            },
        }
    }

    pub open spec fn contains_spec(self, x: i32, y: i32) -> bool {
        self.min_x <= x <= self.max_x && self.min_y <= y <= self.max_y
    }

    pub fn from_points(corner: (i32, i32), opposite: (i32, i32)) -> (rect: SelectionRect)
        ensures
            rect == Self::from_points_spec(corner, opposite),
    {
        SelectionRect {
            min_x: if corner.0 <= opposite.0 {
                corner.0
            } else {
                opposite.0
            },
            min_y: if corner.1 <= opposite.1 {
                corner.1
            } else {
                opposite.1
            },
            max_x: if corner.0 <= opposite.0 {
                opposite.0
            } else {
                corner.0
            },
            max_y: if corner.1 <= opposite.1 {
                opposite.1
            } else {
                corner.1
            },
        }
    }

    pub fn contains(&self, x: i32, y: i32) -> (inside: bool)
        ensures
            inside == self.contains_spec(x, y),
    {
        x >= self.min_x && x <= self.max_x && y >= self.min_y && y <= self.max_y
    }

    /// The number of columns.
    pub fn width(&self) -> (w: i64)
        ensures
            w == self.max_x - self.min_x + 1,
    {
        self.max_x as i64 - self.min_x as i64 + 1
    }

    /// The number of rows.
    pub fn height(&self) -> (h: i64)
        ensures
            h == self.max_y - self.min_y + 1,
    {
        self.max_y as i64 - self.min_y as i64 + 1
    }
}

/// `rect` is the tight bounding box of `cells`: it holds every cell, and each
/// of its four sides touches one.
pub open spec fn is_bounding_rect(cells: Set<(i32, i32)>, rect: SelectionRect) -> bool {
    &&& forall|c: (i32, i32)| #[trigger] cells.contains(c) ==> rect.contains_spec(c.0, c.1)
    &&& exists|c: (i32, i32)| #[trigger] cells.contains(c) && c.0 == rect.min_x
    &&& exists|c: (i32, i32)| #[trigger] cells.contains(c) && c.0 == rect.max_x
    &&& exists|c: (i32, i32)| #[trigger] cells.contains(c) && c.1 == rect.min_y
    &&& exists|c: (i32, i32)| #[trigger] cells.contains(c) && c.1 == rect.max_y
}

/// The tight bounding box of a set of cells that is finite and not empty.
pub open spec fn bounding_rect(cells: Set<(i32, i32)>) -> SelectionRect {
    choose|rect: SelectionRect| is_bounding_rect(cells, rect)
}

/// A set has at most one tight bounding box.
pub proof fn lemma_bounding_rect_unique(cells: Set<(i32, i32)>, a: SelectionRect, b: SelectionRect)
    requires
        is_bounding_rect(cells, a),
        is_bounding_rect(cells, b),
    ensures
        a == b,
        a == bounding_rect(cells),
{
}

/// The tight bounding box of `cells`, or `None` for the empty set.
pub fn compute_bounding_rect(cells: &CoordSet) -> (rect: Option<SelectionRect>)
    ensures
        match rect {
            Some(r) => !cells@.is_empty() && is_bounding_rect(cells@, r) && r == bounding_rect(cells@),
            None => cells@.is_empty(),
        },
{
    let members = cells.to_vec();
    if members.len() == 0 {
        assert(cells@ =~= Set::<(i32, i32)>::empty());
        return None;
    }
    let first = members[0];
    let mut rect = SelectionRect { min_x: first.0, min_y: first.1, max_x: first.0, max_y: first.1 };
    let mut i: usize = 1;
    while i < members.len()
        invariant
            1 <= i <= members@.len(),
            forall|j: int| 0 <= j < i ==> rect.contains_spec((#[trigger] members@[j]).0, members@[j].1),
            exists|j: int| 0 <= j < i && (#[trigger] members@[j]).0 == rect.min_x,
            exists|j: int| 0 <= j < i && (#[trigger] members@[j]).0 == rect.max_x,
            exists|j: int| 0 <= j < i && (#[trigger] members@[j]).1 == rect.min_y,
            exists|j: int| 0 <= j < i && (#[trigger] members@[j]).1 == rect.max_y,
        decreases members@.len() - i,
    {
        let c = members[i];
        let ghost prev = rect;
        let ghost j1 = choose|j: int| 0 <= j < i && (#[trigger] members@[j]).0 == rect.min_x;
        let ghost j2 = choose|j: int| 0 <= j < i && (#[trigger] members@[j]).0 == rect.max_x;
        let ghost j3 = choose|j: int| 0 <= j < i && (#[trigger] members@[j]).1 == rect.min_y;
        let ghost j4 = choose|j: int| 0 <= j < i && (#[trigger] members@[j]).1 == rect.max_y;
        if c.0 < rect.min_x {
            rect.min_x = c.0;
        }
        if c.0 > rect.max_x {
            rect.max_x = c.0;
        }
        if c.1 < rect.min_y {
            rect.min_y = c.1;
        }
        if c.1 > rect.max_y {
            rect.max_y = c.1;
        }
        proof {
            let k = i as int;
            assert(members@[if rect.min_x == prev.min_x { j1 } else { k }].0 == rect.min_x);
            assert(members@[if rect.max_x == prev.max_x { j2 } else { k }].0 == rect.max_x);
            assert(members@[if rect.min_y == prev.min_y { j3 } else { k }].1 == rect.min_y);
            assert(members@[if rect.max_y == prev.max_y { j4 } else { k }].1 == rect.max_y);
        }
        i += 1;
    }
    proof {
        assert(members@.to_set().contains(members@[0]));
        assert forall|c: (i32, i32)| #[trigger] cells@.contains(c) implies rect.contains_spec(
            c.0,
            c.1,
        ) by {
            assert(members@.to_set().contains(c));
            let j = choose|j: int| 0 <= j < members@.len() && members@[j] == c;
            assert(rect.contains_spec(members@[j].0, members@[j].1));
        }
        let j1 = choose|j: int| 0 <= j < i && (#[trigger] members@[j]).0 == rect.min_x;
        let j2 = choose|j: int| 0 <= j < i && (#[trigger] members@[j]).0 == rect.max_x;
        let j3 = choose|j: int| 0 <= j < i && (#[trigger] members@[j]).1 == rect.min_y;
        let j4 = choose|j: int| 0 <= j < i && (#[trigger] members@[j]).1 == rect.max_y;
        assert(members@.to_set().contains(members@[j1]));
        assert(members@.to_set().contains(members@[j2]));
        assert(members@.to_set().contains(members@[j3]));
        assert(members@.to_set().contains(members@[j4]));
        assert(cells@.contains(members@[j1]) && members@[j1].0 == rect.min_x);
        assert(cells@.contains(members@[j2]) && members@[j2].0 == rect.max_x);
        assert(cells@.contains(members@[j3]) && members@[j3].1 == rect.min_y);
        assert(cells@.contains(members@[j4]) && members@[j4].1 == rect.max_y);
        assert(is_bounding_rect(cells@, rect));
        lemma_bounding_rect_unique(cells@, rect, rect);
    }
    Some(rect)
}

/// The painted cells of `grid` that lie inside `rect`.
pub open spec fn pick_filled(grid: Map<(i32, i32), Cell>, rect: SelectionRect) -> Set<(i32, i32)> {
    Set::new(|c: (i32, i32)| grid.contains_key(c) && rect.contains_spec(c.0, c.1))
}

/// Collects the painted cells of `cells` that lie inside `rect`.
pub fn pick_filled_cells(cells: &CellGrid, rect: &SelectionRect) -> (picked: CoordSet)
    ensures
        picked@ == pick_filled(cells@, *rect),
{
    let entries = cells.iter();
    let mut picked = CoordSet::new();
    let mut i: usize = 0;
    while i < entries.len()
        invariant
            i <= entries@.len(),
            entries@.to_set() == cells@.kv_pairs(),
            forall|c: (i32, i32)|
                picked@.contains(c) <==> rect.contains_spec(c.0, c.1) && exists|j: int|
                    0 <= j < i && (#[trigger] entries@[j]).0 == c,
        decreases entries@.len() - i,
    {
        let (coord, cell) = entries[i];
        let ghost before = picked@;
        if cell.is_filled && rect.contains(coord.0, coord.1) {
            picked.insert(coord);
        }
        proof {
            cells.lemma_entries_filled();
            assert(entries@.to_set().contains(entries@[i as int]));
            assert(cells@.kv_pairs().contains((coord, cell)));
            assert forall|c: (i32, i32)|
                picked@.contains(c) <==> rect.contains_spec(c.0, c.1) && exists|j: int|
                    0 <= j < i + 1 && (#[trigger] entries@[j]).0 == c by {
                if before.contains(c) {
                    let j = choose|j: int| 0 <= j < i && (#[trigger] entries@[j]).0 == c;
                    assert(0 <= j < i + 1 && entries@[j].0 == c);
                }
                if c == coord {
                    assert(entries@[i as int].0 == c);
                }
                if rect.contains_spec(c.0, c.1) && exists|j: int|
                    0 <= j < i + 1 && (#[trigger] entries@[j]).0 == c {
                    let j = choose|j: int| 0 <= j < i + 1 && (#[trigger] entries@[j]).0 == c;
                    if j < i {
                        assert(before.contains(c));
                    }
                }
            }
        }
        i += 1;
    }
    proof {
        assert forall|c: (i32, i32)| picked@.contains(c) <==> pick_filled(cells@, *rect).contains(
            c,
        ) by {
            if picked@.contains(c) {
                let j = choose|j: int| 0 <= j < i && (#[trigger] entries@[j]).0 == c;
                assert(entries@.to_set().contains(entries@[j]));
                assert(cells@.kv_pairs().contains(entries@[j]));
            }
            if pick_filled(cells@, *rect).contains(c) {
                assert(cells@.kv_pairs().contains((c, cells@[c])));
                assert(entries@.to_set().contains((c, cells@[c])));
                let j = choose|j: int| 0 <= j < entries@.len() && entries@[j] == (c, cells@[c]);
                assert(entries@[j].0 == c);
            }
        }
        assert(picked@ =~= pick_filled(cells@, *rect));
    }
    picked
}

/// What a selection is made of.
#[derive(Debug)]
pub enum SelectionKind {
    /// A set of cells.
    Cells(CoordSet),
}

/// The picture of a selection while it is dragged: its cells, keyed by their
/// place relative to the top left corner of the selection.
#[derive(Debug)]
pub struct SelectionPreview {
    pub width: i64,
    pub height: i64,
    pub cells: CellGrid,
}

/// A committed selection.
#[derive(Debug)]
pub struct Selection {
    pub rect: SelectionRect,
    pub kind: SelectionKind,
    pub preview: Option<SelectionPreview>,
}

/// The state of the selection tool.
#[derive(Debug)]
pub struct SelectionState {
    /// A selection rectangle is being dragged out.
    pub active_drag: bool,
    /// Where the drag began.
    pub drag_start: Option<(i32, i32)>,
    /// Where the drag is now.
    pub drag_end: Option<(i32, i32)>,
    /// The committed selection.
    pub current: Option<Selection>,
    /// The committed selection is being moved.
    pub is_moving: bool,
    /// The cells of the selection were taken off the grid for the move.
    pub is_lifted: bool,
    /// The cells taken off the grid, at the coordinates they were taken from.
    pub lifted_cells: CellGrid,
}

/// What a [`SelectionPreview`] stands for.
#[verifier::ext_equal]
pub struct PreviewModel {
    pub width: int,
    pub height: int,
    pub cells: Map<(i32, i32), Cell>,
}

/// What a [`Selection`] stands for.
#[verifier::ext_equal]
pub struct SelectionModel {
    pub rect: SelectionRect,
    pub cells: Set<(i32, i32)>,
    pub preview: Option<PreviewModel>,
}

/// What a [`SelectionState`] stands for.
#[verifier::ext_equal]
pub struct SelectionStateModel {
    pub active_drag: bool,
    pub drag_start: Option<(i32, i32)>,
    pub drag_end: Option<(i32, i32)>,
    pub current: Option<SelectionModel>,
    pub is_moving: bool,
    pub is_lifted: bool,
    pub lifted: Map<(i32, i32), Cell>,
}

impl View for SelectionKind {
    type V = Set<(i32, i32)>;

    open spec fn view(&self) -> Set<(i32, i32)> {
        match self {
            SelectionKind::Cells(cells) => cells@,
        }
    }
}

impl View for SelectionPreview {
    type V = PreviewModel;

    open spec fn view(&self) -> PreviewModel {
        PreviewModel { width: self.width as int, height: self.height as int, cells: self.cells@ }
    }
}

impl View for Selection {
    type V = SelectionModel;

    open spec fn view(&self) -> SelectionModel {
        SelectionModel {
            rect: self.rect,
            cells: self.kind@,
            preview: match self.preview {
                Some(p) => Some(p@),
                None => None,
            },
        }
    }
}

impl View for SelectionState {
    type V = SelectionStateModel;

    open spec fn view(&self) -> SelectionStateModel {
        SelectionStateModel {
            active_drag: self.active_drag,
            drag_start: self.drag_start,
            drag_end: self.drag_end,
            current: match self.current {
                Some(s) => Some(s@),
                None => None,
            },
            is_moving: self.is_moving,
            is_lifted: self.is_lifted,
            lifted: self.lifted_cells@,
        }
    }
}

impl Selection {
    /// The selected cells.
    pub fn cells(&self) -> (cells: &CoordSet)
        ensures
            cells@ == self@.cells,
    {
        match &self.kind {
            SelectionKind::Cells(cells) => cells,
        }
    }
}

impl SelectionModel {
    /// The selection of `cells`, if there are any: the set with its tight
    /// bounding box and no preview.
    pub open spec fn of_cells(cells: Set<(i32, i32)>) -> Option<SelectionModel> {
        if cells.is_empty() {
            None
        } else {
            Some(SelectionModel { rect: bounding_rect(cells), cells, preview: None })
        }
    }

    /// The rectangle fits the cells: it is their tight bounding box, unless
    /// there are none.
    pub open spec fn is_tight(self) -> bool {
        !self.cells.is_empty() ==> is_bounding_rect(self.cells, self.rect)
    }
}

impl SelectionStateModel {
    /// The rectangle of the committed selection, if there is one, fits its
    /// cells.
    pub open spec fn is_tight(self) -> bool {
        match self.current {
            Some(sel) => sel.is_tight(),
            None => true,
        }
    }

    /// Nothing selected, nothing in progress.
    pub open spec fn idle() -> SelectionStateModel {
        SelectionStateModel {
            active_drag: false,
            drag_start: None,
            drag_end: None,
            current: None,
            is_moving: false,
            is_lifted: false,
            lifted: Map::empty(),
        }
    }

    /// A drag begins at `start`.
    pub open spec fn start_drag(self, start: (i32, i32)) -> SelectionStateModel {
        SelectionStateModel {
            active_drag: true,
            drag_start: Some(start),
            drag_end: Some(start),
            is_moving: false,
            ..self
        }
    }

    /// The drag, if there is one, now reaches `end`.
    pub open spec fn update_drag_end(self, end: (i32, i32)) -> SelectionStateModel {
        if self.active_drag {
            SelectionStateModel { drag_end: Some(end), ..self }
        } else {
            self
        }
    }

    /// The drag ends. The painted cells inside the dragged rectangle become
    /// the selection; if there are none, nothing is selected.
    pub open spec fn finalize_drag(self, grid: Map<(i32, i32), Cell>) -> SelectionStateModel {
        match (self.drag_start, self.drag_end) {
            (Some(start), Some(end)) => SelectionStateModel {
                active_drag: false,
                current: SelectionModel::of_cells(
                    pick_filled(grid, SelectionRect::from_points_spec(start, end)),
                ),
                ..self
            },
            _ => SelectionStateModel { active_drag: false, current: None, ..self },
        }
    }

    /// Whether `(x, y)` lies in the bounding box of the committed selection.
    pub open spec fn contains_point(self, x: i32, y: i32) -> bool {
        match self.current {
            Some(sel) => sel.rect.contains_spec(x, y),
            None => false,
        }
    }

    /// Whether `cell` is one of the selected cells.
    pub open spec fn contains_cell(self, cell: (i32, i32)) -> bool {
        match self.current {
            Some(sel) => sel.cells.contains(cell),
            None => false,
        }
    }

    /// A move of the committed selection begins, if there is one.
    pub open spec fn start_move(self) -> SelectionStateModel {
        if self.current is Some {
            SelectionStateModel { is_moving: true, ..self }
        } else {
            self
        }
    }

    /// The move ends `(dx, dy)` cells away: the selected cells are renamed by
    /// that much and the rectangle fitted to them again.
    pub open spec fn finalize_move(self, dx: i32, dy: i32) -> SelectionStateModel {
        if !self.is_moving {
            self
        } else if dx == 0 && dy == 0 {
            SelectionStateModel { is_moving: false, ..self }
        } else {
            SelectionStateModel {
                is_moving: false,
                current: match self.current {
                    Some(sel) => Some(
                        SelectionModel {
                            rect: if sel.cells.is_empty() {
                                sel.rect
                            } else {
                                bounding_rect(shifted_set(sel.cells, dx, dy))
                            },
                            cells: shifted_set(sel.cells, dx, dy),
                            preview: sel.preview,
                        },
                    ),
                    None => None,
                },
                ..self
            }
        }
    }

    /// What [`finalize_move`](Self::finalize_move) reports: the distance, if a
    /// move was under way and went anywhere.
    pub open spec fn move_result(self, dx: i32, dy: i32) -> Option<(i32, i32)> {
        if self.is_moving && !(dx == 0 && dy == 0) {
            Some((dx, dy))
        } else {
            None
        }
    }
}

/// The cells of `cells`, each moved by `(dx, dy)`.
pub open spec fn shifted_set(cells: Set<(i32, i32)>, dx: i32, dy: i32) -> Set<(i32, i32)> {
    Set::new(|c: (i32, i32)| cells.contains(crate::data::coord::unshift_spec(c, dx, dy)))
}

/// Moves every member of `cells` by `(dx, dy)`.
pub fn shift_cells(cells: &CoordSet, dx: i32, dy: i32) -> (moved: CoordSet)
    ensures
        moved@ == shifted_set(cells@, dx, dy),
{
    let members = cells.to_vec();
    let mut moved = CoordSet::new();
    let mut i: usize = 0;
    while i < members.len()
        invariant
            i <= members@.len(),
            forall|c: (i32, i32)|
                moved@.contains(c) <==> exists|j: int|
                    0 <= j < i && shift_spec(#[trigger] members@[j], dx, dy) == c,
        decreases members@.len() - i,
    {
        moved.insert(shift(members[i], dx, dy));
        i += 1;
    }
    moved
}

impl Default for SelectionState {
    /// The idle state.
    fn default() -> (state: SelectionState)
        ensures
            state@ == SelectionStateModel::idle(),
    {
        SelectionState {
            active_drag: false,
            drag_start: None,
            drag_end: None,
            current: None,
            is_moving: false,
            is_lifted: false,
            lifted_cells: CellGrid::new(),
        }
    }
}

impl SelectionState {
    /// The idle state.
    pub fn new() -> (state: SelectionState)
        ensures
            state@ == SelectionStateModel::idle(),
    {
        Self::default()
    }

    /// Back to the idle state.
    pub fn clear(&mut self)
        ensures
            final(self)@ == SelectionStateModel::idle(),
    {
        *self = SelectionState::new();
    }

    /// Begins a drag at `start`.
    pub fn start_drag(&mut self, start: (i32, i32))
        ensures
            final(self)@ == old(self)@.start_drag(start),
    {
        self.active_drag = true;
        self.drag_start = Some(start);
        self.drag_end = Some(start);
        self.is_moving = false;
    }

    /// Moves the far corner of the drag, if there is one, to `end`.
    pub fn update_drag_end(&mut self, end: (i32, i32))
        ensures
            final(self)@ == old(self)@.update_drag_end(end),
    {
        if self.active_drag {
            self.drag_end = Some(end);
        }
    }

    /// Ends the drag and selects the painted cells inside the dragged
    /// rectangle. The result says whether anything is selected.
    pub fn finalize_drag(&mut self, cells: &CellGrid) -> (selected: bool)
        ensures
            final(self)@ == old(self)@.finalize_drag(cells@),
            selected == (final(self)@.current is Some),
            final(self)@.is_tight(),
    {
        self.active_drag = false;
        match (self.drag_start, self.drag_end) {
            (Some(start), Some(end)) => {
                let rect = SelectionRect::from_points(start, end);
                let picked = pick_filled_cells(cells, &rect);
                match compute_bounding_rect(&picked) {
                    Some(tight) => {
                        self.current =
                        Some(
                            Selection { rect: tight, kind: SelectionKind::Cells(picked), preview: None },
                        );
                        true
                    },
                    None => {
                        self.current = None;
                        false
                    },
                }
            },
            _ => {
                self.current = None;
                false
            },
        }
    }

    /// Whether `(x, y)` lies in the bounding box of the committed selection.
    pub fn contains_point(&self, x: i32, y: i32) -> (inside: bool)
        ensures
            inside == self@.contains_point(x, y),
    {
        match &self.current {
            Some(sel) => sel.rect.contains(x, y),
            None => false,
        }
    }

    /// Whether `cell` is one of the selected cells.
    pub fn contains_cell(&self, cell: (i32, i32)) -> (selected: bool)
        ensures
            selected == self@.contains_cell(cell),
    {
        match &self.current {
            Some(sel) => sel.cells().contains(cell),
            None => false,
        }
    }

    /// Begins a move of the committed selection, if there is one.
    pub fn start_move(&mut self)
        ensures
            final(self)@ == old(self)@.start_move(),
    {
        if self.current.is_some() {
            self.is_moving = true;
        }
    }

    /// Ends a move `(offset_x, offset_y)` cells from where it began, and
    /// reports that distance if the selection went anywhere.
    pub fn finalize_move(&mut self, offset_x: i32, offset_y: i32) -> (moved: Option<(i32, i32)>)
        ensures
            final(self)@ == old(self)@.finalize_move(offset_x, offset_y),
            moved == old(self)@.move_result(offset_x, offset_y),
            old(self)@.is_tight() ==> final(self)@.is_tight(),
    {
        if !self.is_moving {
            return None;
        }
        self.is_moving = false;
        if offset_x == 0 && offset_y == 0 {
            return None;
        }
        let current = self.current.take();
        match current {
            Some(sel) => {
                let moved = match &sel.kind {
                    SelectionKind::Cells(cells) => shift_cells(cells, offset_x, offset_y),
                };
                let rect = match compute_bounding_rect(&moved) {
                    Some(tight) => tight,
                    None => sel.rect,
                };
                proof {
                    if sel.kind@.is_empty() {
                        assert(moved@ =~= Set::<(i32, i32)>::empty());
                    } else {
                        let c = choose|c: (i32, i32)| sel.kind@.contains(c);
                        crate::data::coord::lemma_shift_inverse(c, offset_x, offset_y);
                        assert(moved@.contains(shift_spec(c, offset_x, offset_y)));
                    }
                }
                self.current =
                Some(Selection { rect, kind: SelectionKind::Cells(moved), preview: sel.preview });
            },
            None => {},
        }
        Some((offset_x, offset_y))
    }
}

} // verus!
