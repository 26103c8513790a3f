//! The paint and erase tools, and the line that joins two cells of a stroke.

use crate::data::cell::grid_set;
use crate::data::cell::Cell;
use crate::input::selection::PointerInput;
use crate::rendering::canvas::chunk_of;
use crate::rendering::canvas::CanvasRenderer;
use crate::state::ApplicationState;
use crate::state::Editor;
use crate::state::StateModel;
use vstd::prelude::*;

verus! {

/// The distance between two numbers.
pub open spec fn distance(a: int, b: int) -> int {
    if a <= b {
        b - a
    } else {
        a - b
    }
}

/// How far a line has gone along its shorter axis when it has gone `k`
/// cells along its longer one: `k * minor / major`, rounded to the nearest
/// whole number, and down from a half.
pub open spec fn minor_step(minor: int, major: int, k: int) -> int {
    if major == 0 {
        0
    } else {
        (2 * minor * k + major - 1) / (2 * major)
    }
}

/// Cell `k` of the line from `from` to `to`. The line advances one cell
/// along its longer axis with each cell, and stays as close to the straight
/// segment as whole cells allow.
pub open spec fn line_point(from: (i32, i32), to: (i32, i32), k: int) -> (i32, i32) {
    let dx = distance(from.0 as int, to.0 as int);
    let dy = distance(from.1 as int, to.1 as int);
    let along_x = if dx >= dy {
        k
    } else {
        minor_step(dx, dy, k)
    };
    let along_y = if dx >= dy {
        minor_step(dy, dx, k)
    } else {
        k
    };
    (
        (if from.0 < to.0 {
            from.0 + along_x
        } else {
            from.0 - along_x
        }) as i32,
        (if from.1 < to.1 {
            from.1 + along_y
        } else {
            from.1 - along_y
        }) as i32,
    )
}

/// The number of cells of the line from `from` to `to`.
pub open spec fn line_len(from: (i32, i32), to: (i32, i32)) -> nat {
    let dx = distance(from.0 as int, to.0 as int);
    let dy = distance(from.1 as int, to.1 as int);
    if dx >= dy {
        (dx + 1) as nat
    } else {
        (dy + 1) as nat
    }
}

/// The cells of the line from `from` to `to`, both ends included.
pub open spec fn line_cells(from: (i32, i32), to: (i32, i32)) -> Seq<(i32, i32)> {
    Seq::new(line_len(from, to), |k: int| line_point(from, to, k))
}

/// A whole number `q` that is within half a step of `minor * k / major`,
/// the lower half included, is the rounded quotient.
proof fn lemma_minor_step(minor: int, major: int, k: int, q: int)
    requires
        major > 0,
        -major < 2 * (minor * k - major * q) <= major,
    ensures
        q == minor_step(minor, major, k),
{
    let n = 2 * minor * k + major - 1;
    let d = 2 * major;
    let r = n - q * d;
    assert(2 * (minor * k - major * q) == 2 * minor * k - q * d) by (nonlinear_arith)
        requires
            d == 2 * major,
    ;
    vstd::arithmetic::div_mod::lemma_fundamental_div_mod_converse(n, d, q, r);
}

/// A multiple of `2 * d` that lies within `d` of zero is zero.
proof fn lemma_small_multiple(d: int, t: int)
    requires
        d > 0,
        -d <= 2 * (d * t) <= d,
    ensures
        t == 0,
{
    assert(t == 0) by (nonlinear_arith)
        requires
            d > 0,
            -d <= 2 * (d * t) <= d,
    ;
}

/// The line begins at `from` and ends at `to`.
pub proof fn lemma_line_ends(from: (i32, i32), to: (i32, i32))
    ensures
        line_cells(from, to).len() >= 1,
        line_cells(from, to).first() == from,
        line_cells(from, to).last() == to,
{
    let dx = distance(from.0 as int, to.0 as int);
    let dy = distance(from.1 as int, to.1 as int);
    if dx >= dy {
        if dx > 0 {
            assert(minor_step(dy, dx, 0) == 0) by {
                lemma_minor_step(dy, dx, 0, 0);
            }
            assert(minor_step(dy, dx, dx) == dy) by {
                assert(dy * dx - dx * dy == 0) by (nonlinear_arith);
                lemma_minor_step(dy, dx, dx, dy);
            }
        }
    } else {
        assert(minor_step(dx, dy, 0) == 0) by {
            lemma_minor_step(dx, dy, 0, 0);
        }
        assert(minor_step(dx, dy, dy) == dx) by {
            assert(dx * dy - dy * dx == 0) by (nonlinear_arith);
            lemma_minor_step(dx, dy, dy, dx);
        }
    }
}

/// The rounded quotient lies within half a step of `minor * k / major`.
proof fn lemma_minor_step_bounds(minor: int, major: int, k: int)
    requires
        major > 0,
    ensures
        -major < 2 * (minor * k - major * minor_step(minor, major, k)) <= major,
{
    let n = 2 * minor * k + major - 1;
    let d = 2 * major;
    let q = minor_step(minor, major, k);
    vstd::arithmetic::div_mod::lemma_fundamental_div_mod(n, d);
    vstd::arithmetic::div_mod::lemma_mod_bound(n, d);
    assert(2 * (minor * k - major * q) == n - d * q - major + 1) by (nonlinear_arith)
        requires
            n == 2 * minor * k + major - 1,
            d == 2 * major,
    ;
}

/// Along its shorter axis a line goes on by one cell or stays, with each
/// cell it goes on along its longer axis, and it ends where it should.
proof fn lemma_minor_step_next(minor: int, major: int, k: int)
    requires
        0 <= minor <= major,
        0 < major,
        0 <= k < major,
    ensures
        minor_step(minor, major, k + 1) == minor_step(minor, major, k) || minor_step(
            minor,
            major,
            k + 1,
        ) == minor_step(minor, major, k) + 1,
        0 <= minor_step(minor, major, k) <= minor,
        0 <= minor_step(minor, major, k + 1) <= minor,
{
    let q = minor_step(minor, major, k);
    lemma_minor_step_bounds(minor, major, k);
    lemma_minor_step_bounds(minor, major, k + 1);
    let v = 2 * (minor * k - major * q);
    assert(2 * (minor * (k + 1) - major * q) == v + 2 * minor) by (nonlinear_arith)
        requires
            v == 2 * (minor * k - major * q),
    ;
    assert(2 * (minor * (k + 1) - major * (q + 1)) == v + 2 * minor - 2 * major) by (nonlinear_arith)
        requires
            v == 2 * (minor * k - major * q),
    ;
    if v + 2 * minor <= major {
        lemma_minor_step(minor, major, k + 1, q);
    } else {
        lemma_minor_step(minor, major, k + 1, q + 1);
    }
    let q1 = minor_step(minor, major, k + 1);
    assert(0 <= q && q1 <= minor) by (nonlinear_arith)
        requires
            -major < 2 * (minor * k - major * q) <= major,
            -major < 2 * (minor * (k + 1) - major * q1) <= major,
            0 <= minor <= major,
            0 < major,
            0 <= k < major,
    ;
}

/// A line is connected: each cell of it lies a king's move from the one
/// before, and is another cell.
pub proof fn lemma_line_connected(from: (i32, i32), to: (i32, i32), k: int)
    requires
        0 <= k,
        k + 1 < line_len(from, to),
    ensures
        ({
            let a = line_point(from, to, k);
            let b = line_point(from, to, k + 1);
            &&& -1 <= b.0 - a.0 <= 1
            &&& -1 <= b.1 - a.1 <= 1
            &&& a != b
        }),
{
    let dx = distance(from.0 as int, to.0 as int);
    let dy = distance(from.1 as int, to.1 as int);
    if dx >= dy {
        lemma_minor_step_next(dy, dx, k);
    } else {
        lemma_minor_step_next(dx, dy, k);
    }
}

/// The cells of the line from `from` to `to`, in order.
pub fn bresenham(from: (i32, i32), to: (i32, i32)) -> (cells: Vec<(i32, i32)>)
    ensures
        cells@ == line_cells(from, to),
{
    let x1: i64 = to.0 as i64;
    let y1: i64 = to.1 as i64;
    let mut x: i64 = from.0 as i64;
    let mut y: i64 = from.1 as i64;
    let dx: i64 = if x <= x1 {
        x1 - x
    } else {
        x - x1
    };
    let dy: i64 = if y <= y1 {
        y1 - y
    } else {
        y - y1
    };
    let right: bool = x < x1;
    let down: bool = y < y1;
    let mut err: i64 = dx - dy;
    let mut cells: Vec<(i32, i32)> = Vec::new();
    let ghost mut a: int = 0;
    let ghost mut b: int = 0;
    let ghost mut pa: int = 0;
    let ghost mut pb: int = 0;
    let ghost major: int = if dx >= dy {
        dx as int
    } else {
        dy as int
    };
    proof {
        lemma_line_ends(from, to);
    }
    cells.push((x as i32, y as i32));
    while !(x == x1 && y == y1)
        invariant
            x1 == to.0,
            y1 == to.1,
            dx == distance(from.0 as int, to.0 as int),
            dy == distance(from.1 as int, to.1 as int),
            right == (from.0 < to.0),
            down == (from.1 < to.1),
            major == if dx >= dy {
                dx as int
            } else {
                dy as int
            },
            0 <= a <= dx,
            0 <= b <= dy,
            x == if right {
                from.0 + a
            } else {
                from.0 - a
            },
            y == if down {
                from.1 + b
            } else {
                from.1 - b
            },
            pa == dy * a,
            pb == dx * b,
            err == dx - dy - pa + pb,
            dx >= dy && dx > 0 ==> -dx < 2 * (pa - pb) <= dx,
            dx < dy ==> -dy <= 2 * (pa - pb) < dy,
            cells@.len() == (if dx >= dy {
                a
            } else {
                b
            }) + 1,
            forall|i: int| 0 <= i < cells@.len() ==> cells@[i] == line_point(from, to, i),
        decreases major - (if dx >= dy {
                a
            } else {
                b
            }),
    {
        proof {
            if dx >= dy {
                if a == dx {
                    assert(pa - pb == dx * (dy - b)) by (nonlinear_arith)
                        requires
                            pa == dy * a,
                            pb == dx * b,
                            a == dx,
                    ;
                    lemma_small_multiple(dx as int, dy - b);
                }
                assert(a < dx);
                if dx == dy {
                    assert(pa - pb == dx * (a - b)) by (nonlinear_arith)
                        requires
                            pa == dy * a,
                            pb == dx * b,
                            dx == dy,
                    ;
                    lemma_small_multiple(dx as int, a - b);
                }
            } else {
                if b == dy {
                    assert(pb - pa == dy * (dx - a)) by (nonlinear_arith)
                        requires
                            pa == dy * a,
                            pb == dx * b,
                            b == dy,
                    ;
                    lemma_small_multiple(dy as int, dx - a);
                }
                assert(b < dy);
            }
        }
        let e2: i64 = 2 * err;
        let ghost old_a = a;
        let ghost old_b = b;
        let ghost old_pa = pa;
        if e2 > -dy {
            proof {
                if a == dx {
                    assert(dx < dy);
                    assert(pa == dy * dx);
                    assert(pb <= dx * dy - dx) by (nonlinear_arith)
                        requires
                            pb == dx * b,
                            b < dy,
                            dx >= 0,
                    ;
                    assert(dy * dx == dx * dy) by (nonlinear_arith);
                }
                assert(a < dx);
                assert(dy * (a + 1) == dy * a + dy) by (nonlinear_arith);
                a = a + 1;
                pa = pa + dy;
            }
            err -= dy;
            if right {
                x += 1;
            } else {
                x -= 1;
            }
        }
        if e2 < dx {
            proof {
                if b == dy {
                    assert(dx >= dy);
                    assert(pb == dx * dy);
                    assert(old_pa <= dy * dx - dy) by (nonlinear_arith)
                        requires
                            old_pa == dy * old_a,
                            old_a < dx,
                            dy >= 0,
                    ;
                    assert(dy * dx == dx * dy) by (nonlinear_arith);
                }
                assert(b < dy);
                assert(dx * (b + 1) == dx * b + dx) by (nonlinear_arith);
                b = b + 1;
                pb = pb + dx;
            }
            err += dx;
            if down {
                y += 1;
            } else {
                y -= 1;
            }
        }
        proof {
            if dx >= dy {
                assert(a == old_a + 1);
                lemma_minor_step(dy as int, dx as int, a, b);
            } else {
                assert(b == old_b + 1);
                lemma_minor_step(dx as int, dy as int, b, a);
            }
        }
        cells.push((x as i32, y as i32));
    }
    cells
}

impl Editor {
    /// The cell at `coord` is set to `new_cell`, or cleared if that is
    /// `None`, and its chunk becomes dirty. Painting a cell in the colour it
    /// has, or clearing an empty place, changes nothing at all.
    pub open spec fn set_cell(self, coord: (i32, i32), new_cell: Option<Cell>) -> Editor {
        let changes = match new_cell {
            Some(cell) => match self.state.cells.get(coord) {
                Some(existing) => existing.color != cell.color,
                None => true,
            },
            None => self.state.cells.contains_key(coord),
        };
        if changes {
            Editor {
                state: StateModel {
                    cells: grid_set(self.state.cells, coord, new_cell),
                    ..self.state
                },
                chunks: self.chunks.insert(chunk_of(coord), true),
            }
        } else {
            self
        }
    }

    /// Every cell of `coords` is set to `new_cell`, one after the other.
    pub open spec fn set_cells(self, coords: Seq<(i32, i32)>, new_cell: Option<Cell>) -> Editor
        decreases coords.len(),
    {
        if coords.len() == 0 {
            self
        } else {
            self.set_cells(coords.drop_last(), new_cell).set_cell(coords.last(), new_cell)
        }
    }

    /// The cell that the paint tool writes: one of the current colour; the
    /// erase tool writes none.
    pub open spec fn brush(self, is_erasing: bool) -> Option<Cell> {
        if is_erasing {
            None
        } else {
            Some(Cell { color: self.state.current_color, is_filled: true })
        }
    }

    /// One frame of the paint or erase tool. A press begins a stroke at the
    /// cell under the pointer. While the button is held, the stroke runs on
    /// in a line from where it was last to the cell under the pointer. A
    /// release ends it.
    pub open spec fn perform_drawing(self, input: PointerInput, is_erasing: bool) -> Editor {
        if input.pressed {
            Editor {
                state: StateModel { last_painted_cell: Some(input.cell), ..self.state },
                ..self
            }.set_cell(input.cell, self.brush(is_erasing))
        } else if input.down {
            match self.state.last_painted_cell {
                Some(last) => {
                    let drawn = self.set_cells(line_cells(last, input.cell), self.brush(is_erasing));
                    Editor {
                        state: StateModel { last_painted_cell: Some(input.cell), ..drawn.state },
                        ..drawn
                    }
                },
                None => self,
            }
        } else if input.released {
            Editor { state: StateModel { last_painted_cell: None, ..self.state }, ..self }
        } else {
            self
        }
    }
}

/// Writing the same cell to the same place twice is the same as writing it
/// once: the grid and the dirty chunks are as after the first time.
pub proof fn lemma_set_cell_idempotent(editor: Editor, coord: (i32, i32), new_cell: Option<Cell>)
    ensures
        editor.set_cell(coord, new_cell).set_cell(coord, new_cell) == editor.set_cell(
            coord,
            new_cell,
        ),
{
}

/// Sets one cell; see [`Editor::set_cell`].
pub fn set_cell(
    state: &mut ApplicationState,
    cell_coords: (i32, i32),
    new_cell: Option<Cell>,
    canvas_renderer: &mut CanvasRenderer,
)
    ensures
        Editor::of(final(state), final(canvas_renderer)) == Editor::of(
            old(state),
            old(canvas_renderer),
        ).set_cell(cell_coords, new_cell),
{
    match new_cell {
        Some(cell) => {
            let needs_update = match state.cells.get(cell_coords) {
                Some(existing) => existing.color != cell.color,
                None => true,
            };
            if needs_update {
                state.cells.set(cell_coords, Some(cell));
                canvas_renderer.mark_dirty(cell_coords);
            }
        },
        None => {
            if state.cells.remove(cell_coords).is_some() {
                canvas_renderer.mark_dirty(cell_coords);
            }
        },
    }
}

/// One frame of the paint tool, or of the erase tool if `is_erasing` is set;
/// see [`Editor::perform_drawing`].
pub fn perform_drawing(
    state: &mut ApplicationState,
    input: &PointerInput,
    is_erasing: bool,
    canvas_renderer: &mut CanvasRenderer,
)
    ensures
        Editor::of(final(state), final(canvas_renderer)) == Editor::of(
            old(state),
            old(canvas_renderer),
        ).perform_drawing(*input, is_erasing),
        final(state)@.selection == old(state)@.selection,
{
    let new_cell = if is_erasing {
        None
    } else {
        Some(Cell::with_color(state.current_color))
    };
    if input.pressed {
        state.last_painted_cell = Some(input.cell);
        set_cell(state, input.cell, new_cell, canvas_renderer);
    } else if input.down {
        match state.last_painted_cell {
            Some(last) => {
                let cells_to_paint = bresenham(last, input.cell);
                let ghost start = Editor::of(state, canvas_renderer);
                let mut i: usize = 0;
                while i < cells_to_paint.len()
                    invariant
                        i <= cells_to_paint@.len(),
                        state@.selection == old(state)@.selection,
                        Editor::of(state, canvas_renderer) == start.set_cells(
                            cells_to_paint@.take(i as int),
                            new_cell,
                        ),
                    decreases cells_to_paint@.len() - i,
                {
                    proof {
                        let next = cells_to_paint@.take(i + 1);
                        assert(next.drop_last() =~= cells_to_paint@.take(i as int));
                        assert(next.last() == cells_to_paint@[i as int]);
                    }
                    set_cell(state, cells_to_paint[i], new_cell, canvas_renderer);
                    i += 1;
                }
                proof {
                    assert(cells_to_paint@.take(cells_to_paint@.len() as int) =~= cells_to_paint@);
                }
                state.last_painted_cell = Some(input.cell);
            },
            None => {},
        }
    } else if input.released {
        state.last_painted_cell = None;
    }
}

} // verus!
