//! Cells and the sparse grid that holds the painted ones.

use crate::data::color::Rgba;
use crate::data::coord::CoordMap;
use vstd::prelude::*;

verus! {

/// One unit of the canvas.
#[derive(Clone, Copy, Debug, PartialEq, Eq, Structural)]
pub struct Cell {
    pub color: Rgba,
    pub is_filled: bool,
}

impl Cell {
    /// An empty white cell.
    pub fn new() -> (c: Cell)
        ensures
            c == (Cell { color: Rgba::white(), is_filled: false }),
    {
        Cell { color: Rgba::rgb(255, 255, 255), is_filled: false }
    }

    /// A painted cell.
    pub fn with_color(color: Rgba) -> (c: Cell)
        ensures
            c == (Cell { color, is_filled: true }),
    {
        Cell { color, is_filled: true }
    }

    /// Back to empty and white.
    pub fn clear(&mut self)
        ensures
            *final(self) == (Cell { color: Rgba::white(), is_filled: false }),
    {
        self.color = Rgba::rgb(255, 255, 255);
        self.is_filled = false;
    }
}

/// What a grid holds after `cell` is written at `coord`: a painted cell is
/// stored, and `None` or an empty cell clears the place.
pub open spec fn grid_set(
    grid: Map<(i32, i32), Cell>,
    coord: (i32, i32),
    cell: Option<Cell>,
) -> Map<(i32, i32), Cell> {
    match cell {
        Some(c) => if c.is_filled {
            grid.insert(coord, c)
        } else {
            grid.remove(coord)
        },
        None => grid.remove(coord),
    }
}

/// The painted cells of an unbounded canvas, by coordinate.
///
/// The view is a finite map whose every cell is filled: a place that was
/// never painted, or was cleared, has no entry.
#[derive(Debug)]
pub struct CellGrid {
    cells: CoordMap<Cell>,
}

impl View for CellGrid {
    type V = Map<(i32, i32), Cell>;

    closed spec fn view(&self) -> Map<(i32, i32), Cell> {
        Map::new(
            |c: (i32, i32)| self.cells@.contains_key(c) && self.cells@[c].is_filled,
            |c: (i32, i32)| self.cells@[c],
        )
    }
}

impl CellGrid {
    pub fn new() -> (grid: CellGrid)
        ensures
            grid@ == Map::<(i32, i32), Cell>::empty(),
    {
        CellGrid { cells: CoordMap::new() }
    }

    /// Every entry is a filled cell, and there are finitely many.
    pub proof fn lemma_entries_filled(&self)
        ensures
            forall|c: (i32, i32)| self@.contains_key(c) ==> (#[trigger] self@[c]).is_filled,
            self@.dom().finite(),
    {
        self.cells.lemma_finite();
        assert(self@.dom().subset_of(self.cells@.dom()));
        vstd::set_lib::lemma_set_subset_finite(self.cells@.dom(), self@.dom());
    }

    /// The cell painted at `coord`, if any.
    pub fn get(&self, coord: (i32, i32)) -> (cell: Option<Cell>)
        ensures
            cell == self@.get(coord),
    {
        match self.cells.get(coord) {
            Some(c) => if c.is_filled {
                Some(*c)
            } else {
                None
            },
            None => None,
        }
    }

    pub fn contains(&self, coord: (i32, i32)) -> (found: bool)
        ensures
            found == self@.contains_key(coord),
    {
        self.get(coord).is_some()
    }

    /// Writes `cell` at `coord`; `None` clears the place.
    pub fn set(&mut self, coord: (i32, i32), cell: Option<Cell>)
        ensures
            final(self)@ == grid_set(old(self)@, coord, cell),
    {
        match cell {
            Some(c) => {
                if c.is_filled {
                    self.cells.insert(coord, c);
                } else {
                    self.cells.remove(coord);
                }
            },
            None => {
                self.cells.remove(coord);
            },
        }
    }

    /// Clears the place at `coord` and returns the cell that was painted there.
    pub fn remove(&mut self, coord: (i32, i32)) -> (cell: Option<Cell>)
        ensures
            final(self)@ == old(self)@.remove(coord),
            cell == old(self)@.get(coord),
    {
        let prev = self.cells.remove(coord);
        match prev {
            Some(c) => if c.is_filled {
                Some(c)
            } else {
                None
            },
            None => None,
        }
    }

    /// The painted cells with their coordinates, each once, in no particular
    /// order.
    pub fn iter(&self) -> (entries: Vec<((i32, i32), Cell)>)
        ensures
            entries@.no_duplicates(),
            entries@.to_set() == self@.kv_pairs(),
    {
        let keys = self.cells.keys();
        let mut entries: Vec<((i32, i32), Cell)> = Vec::new();
        let mut i: usize = 0;
        while i < keys.len()
            invariant
                i <= keys@.len(),
                keys@.no_duplicates(),
                keys@.to_set() == self.cells@.dom(),
                forall|j: int| 0 <= j < entries@.len() ==> self@.contains_pair(
                    (#[trigger] entries@[j]).0,
                    entries@[j].1,
                ),
                forall|j: int|
                    0 <= j < entries@.len() ==> exists|p: int|
                        0 <= p < i && keys@[p] == (#[trigger] entries@[j]).0,
                forall|p: int|
                    0 <= p < i && self@.contains_key(#[trigger] keys@[p]) ==> exists|j: int|
                        0 <= j < entries@.len() && entries@[j].0 == keys@[p],
                entries@.no_duplicates(),
            decreases keys@.len() - i,
        {
            let coord = keys[i];
            match self.cells.get(coord) {
                Some(c) => {
                    if c.is_filled {
                        let ghost before = entries@;
                        entries.push((coord, *c));
                        proof {
                            assert forall|p: int|
                                0 <= p < i + 1 && self@.contains_key(
                                    #[trigger] keys@[p],
                                ) implies exists|j: int|
                                0 <= j < entries@.len() && entries@[j].0 == keys@[p] by {
                                if p < i {
                                    let j = choose|j: int|
                                        0 <= j < before.len() && before[j].0 == keys@[p];
                                    assert(entries@[j].0 == keys@[p]);
                                } else {
                                    assert(entries@[before.len() as int].0 == keys@[p]);
                                }
                            }
                            assert forall|j: int| 0 <= j < entries@.len() implies exists|p: int|
                                0 <= p < i + 1 && keys@[p] == (#[trigger] entries@[j]).0 by {
                                if j < before.len() {
                                    let p = choose|p: int| 0 <= p < i && keys@[p] == before[j].0;
                                    assert(keys@[p] == entries@[j].0);
                                } else {
                                    assert(keys@[i as int] == entries@[j].0);
                                }
                            }
                        }
                    }
                },
                None => {},
            }
            i += 1;
        }
        entries
    }
}

} // verus!
