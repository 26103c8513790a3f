//! Edits of many cells at once: taking a set of cells off the grid, laying
//! cells onto it somewhere else, and copying cells relative to a corner.

use crate::data::cell::Cell;
use crate::data::cell::CellGrid;
use crate::data::coord::lemma_shift_inverse;
use crate::data::coord::shift;
use crate::data::coord::shift_spec;
use crate::data::coord::unshift;
use crate::data::coord::unshift_spec;
use crate::data::coord::CoordSet;
use crate::data::selection::shifted_set;
use crate::data::selection::SelectionRect;
use crate::rendering::canvas::lemma_mark_cells_step;
use crate::rendering::canvas::mark_cells;
use crate::rendering::canvas::CanvasRenderer;
use vstd::prelude::*;

verus! {

/// `grid` with `cells` laid over it `(dx, dy)` away from where they are
/// keyed. Where a moved cell lands on a cell of the grid, the moved one stays.
pub open spec fn overlay_shifted(
    grid: Map<(i32, i32), Cell>,
    cells: Map<(i32, i32), Cell>,
    dx: i32,
    dy: i32,
) -> Map<(i32, i32), Cell> {
    Map::new(
        |c: (i32, i32)| grid.contains_key(c) || cells.contains_key(unshift_spec(c, dx, dy)),
        |c: (i32, i32)|
            if cells.contains_key(unshift_spec(c, dx, dy)) {
                cells[unshift_spec(c, dx, dy)]
            } else {
                grid[c]
            },
    )
}

/// The cells of `cells` that are painted in `grid`, keyed by their place
/// relative to `origin`.
pub open spec fn relative_cells(
    grid: Map<(i32, i32), Cell>,
    cells: Set<(i32, i32)>,
    origin: (i32, i32),
) -> Map<(i32, i32), Cell> {
    Map::new(
        |r: (i32, i32)|
            cells.contains(shift_spec(r, origin.0, origin.1)) && grid.contains_key(
                shift_spec(r, origin.0, origin.1),
            ),
        |r: (i32, i32)| grid[shift_spec(r, origin.0, origin.1)],
    )
}

/// The cells inside `rect`.
pub open spec fn rect_cells(rect: SelectionRect) -> Set<(i32, i32)> {
    Set::new(|c: (i32, i32)| rect.contains_spec(c.0, c.1))
}

/// Marks the chunk of every cell of `cells` dirty.
pub fn mark_all(canvas: &mut CanvasRenderer, cells: &CoordSet)
    ensures
        final(canvas)@ == mark_cells(old(canvas)@, cells@),
{
    let members = cells.to_vec();
    let mut i: usize = 0;
    let ghost mut done: Set<(i32, i32)> = Set::empty();
    while i < members.len()
        invariant
            i <= members@.len(),
            done == members@.take(i as int).to_set(),
            canvas@ == mark_cells(old(canvas)@, done),
        decreases members@.len() - i,
    {
        let c = members[i];
        canvas.mark_dirty(c);
        proof {
            lemma_mark_cells_step(old(canvas)@, done, c);
            lemma_take_to_set_step(members@, i as int);
            done = done.insert(c);
        }
        i += 1;
    }
    proof {
        assert(members@.take(members@.len() as int) =~= members@);
    }
}

/// The members of the first `i + 1` places are those of the first `i` and
/// the one at place `i`.
pub proof fn lemma_take_to_set_step<T>(s: Seq<T>, i: int)
    requires
        0 <= i < s.len(),
    ensures
        s.take(i + 1).to_set() == s.take(i).to_set().insert(s[i]),
        s.no_duplicates() ==> !s.take(i).to_set().contains(s[i]),
{
    let longer = s.take(i + 1);
    let shorter = s.take(i);
    let a = longer.to_set();
    let b = shorter.to_set().insert(s[i]);
    assert forall|x: T| a.contains(x) <==> b.contains(x) by {
        if a.contains(x) {
            let j = choose|j: int| 0 <= j < longer.len() && longer[j] == x;
            if j < i {
                assert(shorter[j] == x);
            }
        }
        if shorter.to_set().contains(x) {
            let j = choose|j: int| 0 <= j < shorter.len() && shorter[j] == x;
            assert(longer[j] == x);
        }
        if x == s[i] {
            assert(longer[i] == x);
        }
    }
    assert(a =~= b);
    if s.no_duplicates() && shorter.to_set().contains(s[i]) {
        let j = choose|j: int| 0 <= j < shorter.len() && shorter[j] == s[i];
        assert(s[j] == s[i]);
    }
}

/// Takes the cells of `cells` off the grid and returns those that were
/// painted, at the coordinates they were taken from. The chunk of every cell
/// taken is marked dirty.
pub fn lift_cells(grid: &mut CellGrid, canvas: &mut CanvasRenderer, cells: &CoordSet) -> (lifted:
    CellGrid)
    ensures
        lifted@ == old(grid)@.restrict(cells@),
        final(grid)@ == old(grid)@.remove_keys(cells@),
        final(canvas)@ == mark_cells(old(canvas)@, cells@.intersect(old(grid)@.dom())),
{
    let members = cells.to_vec();
    let mut lifted = CellGrid::new();
    let mut i: usize = 0;
    let ghost mut done: Set<(i32, i32)> = Set::empty();
    while i < members.len()
        invariant
            i <= members@.len(),
            members@.no_duplicates(),
            done == members@.take(i as int).to_set(),
            lifted@ == old(grid)@.restrict(done),
            grid@ == old(grid)@.remove_keys(done),
            canvas@ == mark_cells(old(canvas)@, done.intersect(old(grid)@.dom())),
        decreases members@.len() - i,
    {
        let c = members[i];
        proof {
            lemma_take_to_set_step(members@, i as int);
            old(grid).lemma_entries_filled();
        }
        match grid.remove(c) {
            Some(cell) => {
                lifted.set(c, Some(cell));
                canvas.mark_dirty(c);
                proof {
                    lemma_mark_cells_step(old(canvas)@, done.intersect(old(grid)@.dom()), c);
                    assert(done.insert(c).intersect(old(grid)@.dom()) =~= done.intersect(
                        old(grid)@.dom(),
                    ).insert(c));
                    assert(lifted@ =~= old(grid)@.restrict(done.insert(c)));
                }
            },
            None => {
                proof {
                    assert(done.insert(c).intersect(old(grid)@.dom()) =~= done.intersect(
                        old(grid)@.dom(),
                    ));
                    assert(lifted@ =~= old(grid)@.restrict(done.insert(c)));
                }
            },
        }
        proof {
            assert(grid@ =~= old(grid)@.remove_keys(done.insert(c)));
            done = done.insert(c);
        }
        i += 1;
    }
    proof {
        assert(members@.take(members@.len() as int) =~= members@);
    }
    lifted
}

/// Laying one more cell over a grid is an `insert` at the place it lands on.
pub proof fn lemma_overlay_insert(
    grid: Map<(i32, i32), Cell>,
    cells: Map<(i32, i32), Cell>,
    c: (i32, i32),
    cell: Cell,
    dx: i32,
    dy: i32,
)
    ensures
        overlay_shifted(grid, cells.insert(c, cell), dx, dy) == overlay_shifted(
            grid,
            cells,
            dx,
            dy,
        ).insert(shift_spec(c, dx, dy), cell),
        shifted_set(cells.insert(c, cell).dom(), dx, dy) == shifted_set(cells.dom(), dx, dy).insert(
            shift_spec(c, dx, dy),
        ),
{
}

/// Lays `cells` onto the grid `(dx, dy)` away from where they are keyed,
/// marks the chunks they land in dirty, and returns where they landed.
pub fn place_cells(
    grid: &mut CellGrid,
    canvas: &mut CanvasRenderer,
    cells: &CellGrid,
    dx: i32,
    dy: i32,
) -> (placed: CoordSet)
    ensures
        final(grid)@ == overlay_shifted(old(grid)@, cells@, dx, dy),
        final(canvas)@ == mark_cells(old(canvas)@, shifted_set(cells@.dom(), dx, dy)),
        placed@ == shifted_set(cells@.dom(), dx, dy),
{
    let entries = cells.iter();
    let mut placed = CoordSet::new();
    let mut i: usize = 0;
    let ghost mut done: Map<(i32, i32), Cell> = Map::empty();
    while i < entries.len()
        invariant
            i <= entries@.len(),
            entries@.no_duplicates(),
            entries@.to_set() == cells@.kv_pairs(),
            done.submap_of(cells@),
            forall|c: (i32, i32)|
                done.contains_key(c) <==> exists|j: int| 0 <= j < i && (#[trigger] entries@[j]).0 == c,
            grid@ == overlay_shifted(old(grid)@, done, dx, dy),
            canvas@ == mark_cells(old(canvas)@, shifted_set(done.dom(), dx, dy)),
            placed@ == shifted_set(done.dom(), dx, dy),
        decreases entries@.len() - i,
    {
        let (coord, cell) = entries[i];
        let dest = shift(coord, dx, dy);
        proof {
            cells.lemma_entries_filled();
            assert(entries@.to_set().contains(entries@[i as int]));
            assert(cells@.kv_pairs().contains((coord, cell)));
            lemma_overlay_insert(old(grid)@, done, coord, cell, dx, dy);
            lemma_mark_cells_step(old(canvas)@, shifted_set(done.dom(), dx, dy), dest);
        }
        grid.set(dest, Some(cell));
        canvas.mark_dirty(dest);
        placed.insert(dest);
        proof {
            let before = done;
            done = done.insert(coord, cell);
            assert forall|c: (i32, i32)|
                done.contains_key(c) <==> exists|j: int|
                    0 <= j < i + 1 && (#[trigger] entries@[j]).0 == c by {
                if before.contains_key(c) {
                    let j = choose|j: int| 0 <= j < i && (#[trigger] entries@[j]).0 == c;
                    assert(0 <= j < i + 1 && entries@[j].0 == c);
                }
                if c == coord {
                    assert(entries@[i as int].0 == c);
                }
                if exists|j: int| 0 <= j < i + 1 && (#[trigger] entries@[j]).0 == c {
                    let j = choose|j: int| 0 <= j < i + 1 && (#[trigger] entries@[j]).0 == c;
                    if j < i {
                        assert(before.contains_key(c));
                    }
                }
            }
        }
        i += 1;
    }
    proof {
        assert forall|c: (i32, i32)| cells@.contains_key(c) implies done.contains_key(c) by {
            assert(cells@.kv_pairs().contains((c, cells@[c])));
            assert(entries@.to_set().contains((c, cells@[c])));
            let j = choose|j: int| 0 <= j < entries@.len() && entries@[j] == (c, cells@[c]);
            assert(entries@[j].0 == c);
        }
        assert(done =~= cells@);
    }
    placed
}

/// Copies those cells of `cells` that are painted in `grid`, and lie inside
/// `clip` if one is given, keyed by their place relative to `origin`.
pub fn copy_relative(
    grid: &CellGrid,
    cells: &CoordSet,
    origin: (i32, i32),
    clip: Option<SelectionRect>,
) -> (copy: CellGrid)
    ensures
        copy@ == relative_cells(
            grid@,
            match clip {
                Some(rect) => cells@.intersect(rect_cells(rect)),
                None => cells@,
            },
            origin,
        ),
{
    let members = cells.to_vec();
    let mut copy = CellGrid::new();
    let mut i: usize = 0;
    let ghost wanted = match clip {
        Some(rect) => cells@.intersect(rect_cells(rect)),
        None => cells@,
    };
    let ghost mut done: Set<(i32, i32)> = Set::empty();
    while i < members.len()
        invariant
            i <= members@.len(),
            members@.to_set() == cells@,
            wanted == match clip {
                Some(rect) => cells@.intersect(rect_cells(rect)),
                None => cells@,
            },
            done == members@.take(i as int).to_set(),
            copy@ == relative_cells(grid@, done.intersect(wanted), origin),
        decreases members@.len() - i,
    {
        let c = members[i];
        let inside = match clip {
            Some(rect) => rect.contains(c.0, c.1),
            None => true,
        };
        proof {
            lemma_take_to_set_step(members@, i as int);
            grid.lemma_entries_filled();
            assert(members@.to_set().contains(members@[i as int]));
            assert(inside == wanted.contains(c));
            lemma_shift_inverse(c, origin.0, origin.1);
            assert forall|r: (i32, i32)|
                shift_spec(r, origin.0, origin.1) == c <==> r == unshift_spec(
                    c,
                    origin.0,
                    origin.1,
                ) by {
                lemma_shift_inverse(r, origin.0, origin.1);
            }
        }
        if inside {
            match grid.get(c) {
                Some(cell) => {
                    copy.set(unshift(c, origin.0, origin.1), Some(cell));
                },
                None => {},
            }
        }
        proof {
            assert(copy@ =~= relative_cells(grid@, done.insert(c).intersect(wanted), origin));
            done = done.insert(c);
        }
        i += 1;
    }
    proof {
        assert(members@.take(members@.len() as int) =~= members@);
        assert(done.intersect(wanted) =~= wanted);
    }
    copy
}

} // verus!
