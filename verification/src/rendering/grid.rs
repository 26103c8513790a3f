//! The lines of the background grid.
//!
//! When the canvas is zoomed out, only every `step`-th line is drawn. A line
//! that would also be drawn at twice the step is drawn in full; the others
//! fade out as the next level comes near. Every sixteenth line marks a tile.

use vstd::prelude::*;

verus! {

/// The distance between two tile boundaries, in cells.
pub const TILE_SIZE: i64 = 16;

/// A line of the grid along one axis.
#[derive(Clone, Copy, Debug, PartialEq, Eq, Structural)]
pub struct GridLine {
    /// The cell coordinate of the line.
    pub coord: i64,
    /// The line is still drawn at twice the step.
    pub survives_next: bool,
    /// The line is a tile boundary.
    pub is_tile: bool,
}

/// The first line: the multiple of `step` at or below `min`.
pub open spec fn grid_first(min: i32, step: i32) -> int {
    (min as int / step as int) * step
}

/// Line `k`, counting from the first.
pub open spec fn grid_line_at(min: i32, step: i32, k: int) -> GridLine {
    let coord = grid_first(min, step) + k * step;
    GridLine {
        coord: coord as i64,
        survives_next: coord % (2 * step) == 0,
        is_tile: coord % 16 == 0,
    }
}

/// The number of lines: from the first line to the one after the multiple
/// of `step` at or below `max`.
pub open spec fn grid_line_count(min: i32, max: i32, step: i32) -> nat {
    let n = max as int / step as int - min as int / step as int + 2;
    if n < 0 {
        0
    } else {
        n as nat
    }
}

/// The lines to draw along one axis for a view from cell `min` to cell
/// `max`.
pub open spec fn grid_lines_spec(min: i32, max: i32, step: i32) -> Seq<GridLine> {
    Seq::new(grid_line_count(min, max, step), |k: int| grid_line_at(min, step, k))
}

/// `v / step`, rounded down.
fn floor_div(v: i64, step: i64) -> (q: i64)
    requires
        0 < step <= 0x7fff_ffff,
        -0x8000_0000 <= v <= 0x7fff_ffff,
    ensures
        q == v as int / step as int,
        -0x8000_0000 <= q <= 0x7fff_ffff,
        q * step <= v < q * step + step,
{
    proof {
        vstd::arithmetic::div_mod::lemma_fundamental_div_mod(v as int, step as int);
        vstd::arithmetic::div_mod::lemma_mod_bound(v as int, step as int);
    }
    if v >= 0 {
        let q: i64 = v / step;
        proof {
            let r = v as int % step as int;
            assert(q * step == step * q) by (nonlinear_arith);
            assert(0 <= q <= v) by (nonlinear_arith)
                requires
                    v == step * q + r,
                    0 <= r < step,
                    step >= 1,
                    v >= 0,
            ;
        }
        q
    } else {
        let n: i64 = -v - 1;
        let down: i64 = n / step;
        proof {
            vstd::arithmetic::div_mod::lemma_fundamental_div_mod(n as int, step as int);
            vstd::arithmetic::div_mod::lemma_mod_bound(n as int, step as int);
            let r = n as int % step as int;
            let q = -(down as int) - 1;
            assert(v == q * step + (step - 1 - r)) by (nonlinear_arith)
                requires
                    n == step * down + r,
                    n == -v - 1,
                    q == -down - 1,
            ;
            vstd::arithmetic::div_mod::lemma_fundamental_div_mod_converse(
                v as int,
                step as int,
                q,
                step - 1 - r,
            );
            assert(0 <= down <= n) by (nonlinear_arith)
                requires
                    n == step * down + r,
                    0 <= r < step,
                    step >= 1,
                    n >= 0,
            ;
        }
        -down - 1
    }
}

/// Whether `v` is a multiple of `m`.
fn is_multiple(v: i64, m: i64) -> (b: bool)
    requires
        m > 0,
        v > i64::MIN,
    ensures
        b == (v as int % m as int == 0),
{
    let size: i64 = if v >= 0 {
        v
    } else {
        -v
    };
    proof {
        let x = v as int;
        let d = m as int;
        vstd::arithmetic::div_mod::lemma_fundamental_div_mod(x, d);
        vstd::arithmetic::div_mod::lemma_fundamental_div_mod(-x, d);
        vstd::arithmetic::div_mod::lemma_mod_bound(x, d);
        vstd::arithmetic::div_mod::lemma_mod_bound(-x, d);
        if x % d == 0 {
            assert(-x == (-(x / d)) * d + 0) by (nonlinear_arith)
                requires
                    x == d * (x / d) + 0,
            ;
            vstd::arithmetic::div_mod::lemma_fundamental_div_mod_converse(-x, d, -(x / d), 0);
        }
        if (-x) % d == 0 {
            assert(x == (-((-x) / d)) * d + 0) by (nonlinear_arith)
                requires
                    -x == d * ((-x) / d) + 0,
            ;
            vstd::arithmetic::div_mod::lemma_fundamental_div_mod_converse(x, d, -((-x) / d), 0);
        }
    }
    size % m == 0
}

/// The lines of the grid along one axis; see [`grid_lines_spec`].
pub fn grid_lines(min: i32, max: i32, step: i32) -> (lines: Vec<GridLine>)
    requires
        step > 0,
    ensures
        lines@ == grid_lines_spec(min, max, step),
{
    let s: i64 = step as i64;
    let low: i64 = floor_div(min as i64, s);
    let high: i64 = floor_div(max as i64, s);
    let first: i64 = low * s;
    let last: i64 = high * s + s;
    let double: i64 = 2 * s;
    let mut lines: Vec<GridLine> = Vec::new();
    let mut coord: i64 = first;
    let ghost mut k: int = 0;
    let ghost n: int = high - low + 2;
    proof {
        assert(first + (n - 1) * s == last) by (nonlinear_arith)
            requires
                first == low * s,
                last == high * s + s,
                n == high - low + 2,
        ;
    }
    while coord <= last
        invariant
            0 < s <= 0x7fff_ffff,
            s == step,
            double == 2 * s,
            first == grid_first(min, step),
            first + (n - 1) * s == last,
            -0x1_0000_0000 <= first <= 0x7fff_ffff,
            -0x1_0000_0000 <= last <= 0x1_0000_0000,
            0 <= k,
            coord == first + k * s,
            k > 0 ==> coord - s <= last,
            lines@.len() == k,
            forall|i: int| 0 <= i < k ==> #[trigger] lines@[i] == grid_line_at(min, step, i),
        decreases last + s - coord,
    {
        proof {
            assert((k + 1) * s == k * s + s) by (nonlinear_arith);
        }
        let line = GridLine {
            coord,
            survives_next: is_multiple(coord, double),
            is_tile: is_multiple(coord, TILE_SIZE),
        };
        assert(line == grid_line_at(min, step, k));
        lines.push(line);
        coord += s;
        proof {
            k = k + 1;
        }
    }
    proof {
        assert(k >= n) by (nonlinear_arith)
            requires
                first + k * s > last,
                first + (n - 1) * s == last,
                s > 0,
        ;
        if k > 0 {
            assert(k <= n) by (nonlinear_arith)
                requires
                    first + k * s - s <= last,
                    first + (n - 1) * s == last,
                    s > 0,
            ;
        }
        assert(lines@ =~= grid_lines_spec(min, max, step));
    }
    lines
}

} // verus!
