//! The contour tracer: a four-direction state machine that follows the
//! closed boundary where the scalar field crosses a threshold, emitting
//! sub-pixel boundary points by linear interpolation between sample centres.
//!
//! The machine keeps one invariant throughout the walk: the current cell's
//! value is at or below the threshold, and the comparison cell — the "inside"
//! neighbour of the current look direction — is strictly above it. The
//! invariant holds at the start cell by construction and is preserved by all
//! twelve transitions, so the interpolation denominator is always at least
//! one and the division-by-zero degeneracy of equal samples cannot arise.
//!
//! The precondition `traceable` admits either field polarity: a figure
//! strictly above the threshold at least two cells from the border, or a
//! low region fenced in by an above-threshold border ring. Both keep every
//! cell the walk samples inside the grid.

use vstd::prelude::*;
use vstd::arithmetic::div_mod::lemma_div_is_ordered;
use vstd::arithmetic::div_mod::lemma_div_multiples_vanish;
use vstd::arithmetic::div_mod::lemma_div_pos_is_pos;
use vstd::arithmetic::div_mod::lemma_fundamental_div_mod_converse;
use vstd::arithmetic::div_mod::lemma_mod_bound;
use vstd::arithmetic::mul::lemma_mul_inequality;
use crate::contour::COORD_LIMIT;
use crate::contour::Contour;
use crate::contour::Params;
use crate::contour::Point;
use crate::contour::SCALE;
use crate::contour::SIMPLIFY_COORD_LIMIT;
use crate::contour::coords_bounded;
use crate::contour::coords_in_field;
use crate::contour::lemma_coords_bounded_widen;
use crate::contour::lemma_in_field_bounded;
use crate::contour::lemma_scale_unit_bounds;
use crate::contour::lemma_smooth_iter_in_field;
use crate::contour::lemma_smooth_iter_len;
use crate::contour::scale_spec;
use crate::contour::smooth_iter;
use crate::field::ScalarField;
use crate::simplify::simplify_spec;

verus! {

/// Why no contour could be produced from a scalar field.
#[derive(Clone, Copy, PartialEq, Eq, Structural, Debug)]
pub enum ContourError {
    /// The field has no threshold crossing: it is uniformly above or below
    /// the threshold.
    NoBoundaryFound,
    /// The walk exceeded its step bound without closing: the boundary is
    /// malformed, multiply connected, or degenerate.
    NonTerminatingTrace,
}

/// The tracer's look direction, cycling Right -> Down -> Left -> Up.
#[derive(Clone, Copy, PartialEq, Eq, Structural, Debug)]
pub enum LookDirection {
    Right,
    Down,
    Left,
    Up,
}

/// The comparison cell: the neighbour on the "inside" of the current look
/// direction, encoding a consistent clockwise winding.
pub open spec fn comp_cell(x: int, y: int, dir: LookDirection) -> (int, int) {
    match dir {
        LookDirection::Right => (x, y + 1),
        LookDirection::Down => (x - 1, y),
        LookDirection::Left => (x, y - 1),
        LookDirection::Up => (x + 1, y),
    }
}

/// The machine's invariant at a state: the current cell is at or below the
/// threshold and its comparison cell is strictly above it.
pub open spec fn state_ok(f: ScalarField, thr: u8, x: int, y: int, dir: LookDirection) -> bool {
    &&& 1 <= x <= f.width - 2
    &&& 1 <= y <= f.height - 2
    &&& f.at(x, y) <= thr
    &&& f.at(comp_cell(x, y, dir).0, comp_cell(x, y, dir).1) > thr
}

/// The boundary point emitted at a state: the linear interpolation between
/// the current cell's centre and the comparison cell's centre, weighted by
/// how far the threshold crossing lies between the two samples, in
/// fixed-point coordinates.
pub open spec fn emitted_point(f: ScalarField, thr: u8, x: int, y: int, dir: LookDirection) -> Point {
    let c = comp_cell(x, y, dir);
    let o = thr as int - f.at(x, y) as int;
    let i = f.at(c.0, c.1) as int - thr as int;
    let den = i + o;
    Point {
        x: ((SCALE as int * (c.0 * i + x * o)) / den) as i64,
        y: ((SCALE as int * (c.1 * i + y * o)) / den) as i64,
    }
}

/// One transition: the three-way priority check of the current look
/// direction. Turning 90 degrees inward moves diagonally and rotates the
/// look direction clockwise; moving straight ahead keeps it; otherwise the
/// machine pivots counter-clockwise in place.
pub open spec fn step_state(f: ScalarField, thr: u8, x: int, y: int, dir: LookDirection) -> (
    int,
    int,
    LookDirection,
) {
    match dir {
        LookDirection::Right => if f.at(x + 1, y + 1) <= thr {
            (x + 1, y + 1, LookDirection::Down)
        } else if f.at(x + 1, y) <= thr {
            (x + 1, y, LookDirection::Right)
        } else {
            (x, y, LookDirection::Up)
        },
        LookDirection::Down => if f.at(x - 1, y + 1) <= thr {
            (x - 1, y + 1, LookDirection::Left)
        } else if f.at(x, y + 1) <= thr {
            (x, y + 1, LookDirection::Down)
        } else {
            (x, y, LookDirection::Right)
        },
        LookDirection::Left => if f.at(x - 1, y - 1) <= thr {
            (x - 1, y - 1, LookDirection::Up)
        } else if f.at(x - 1, y) <= thr {
            (x - 1, y, LookDirection::Left)
        } else {
            (x, y, LookDirection::Down)
        },
        LookDirection::Up => if f.at(x + 1, y - 1) <= thr {
            (x + 1, y - 1, LookDirection::Right)
        } else if f.at(x, y - 1) <= thr {
            (x, y - 1, LookDirection::Up)
        } else {
            (x, y, LookDirection::Left)
        },
    }
}

/// The points the machine emits from a state until it returns to the start
/// cell, or `None` if the fuel runs out first. Fuel is checked before the
/// closing test, mirroring the step cap of the walk.
pub open spec fn trace_from(
    f: ScalarField,
    thr: u8,
    x: int,
    y: int,
    dir: LookDirection,
    started: bool,
    sx: int,
    sy: int,
    fuel: nat,
) -> Option<Seq<Point>>
    decreases fuel,
{
    if fuel == 0 {
        None
    } else if started && x == sx && y == sy {
        Some(Seq::empty())
    } else {
        let p = emitted_point(f, thr, x, y, dir);
        let n = step_state(f, thr, x, y, dir);
        match trace_from(f, thr, n.0, n.1, n.2, true, sx, sy, (fuel - 1) as nat) {
            Option::None => None,
            Option::Some(rest) => Some(seq![p] + rest),
        }
    }
}

/// Whether `(x, y)` is a start cell: at or below the threshold with the cell
/// directly below strictly above it (a vertical crossing).
pub open spec fn is_start_at(f: ScalarField, thr: u8, x: int, y: int) -> bool {
    f.at(x, y) <= thr && f.at(x, y + 1) > thr
}

/// The first start cell at or after scan position `k` in row-major order
/// over all rows but the last.
pub open spec fn start_from(f: ScalarField, thr: u8, k: nat) -> Option<(int, int)>
    decreases (f.height - 1) * f.width - k,
{
    if k >= (f.height - 1) * f.width {
        None
    } else {
        let x = (k % (f.width as nat)) as int;
        let y = (k / (f.width as nat)) as int;
        if is_start_at(f, thr, x, y) {
            Some((x, y))
        } else {
            start_from(f, thr, k + 1)
        }
    }
}

/// The tracer's full outcome on a field: no start cell means no boundary;
/// otherwise the walk from the first start cell looking Right, with a step
/// budget of one step per grid cell.
pub open spec fn trace_outcome(f: ScalarField, thr: u8) -> Result<Seq<Point>, ContourError> {
    match start_from(f, thr, 0) {
        Option::None => Result::Err(ContourError::NoBoundaryFound),
        Option::Some(s) => match trace_from(
            f,
            thr,
            s.0,
            s.1,
            LookDirection::Right,
            false,
            s.0,
            s.1,
            (f.width * f.height) as nat,
        ) {
            Option::None => Result::Err(ContourError::NonTerminatingTrace),
            Option::Some(pts) => Result::Ok(pts),
        },
    }
}

/// An at-or-below cell that sits next to a strictly-above cell is interior:
/// under `border_above` because a low cell cannot lie on the border ring,
/// and under `above_cells_interior` because its high neighbour keeps it
/// within one cell of the grid's two-deep interior.
proof fn lemma_low_cell_is_interior(f: ScalarField, thr: u8, x: int, y: int, cx: int, cy: int)
    requires
        f.wf(),
        f.traceable(thr),
        0 <= x < f.width,
        0 <= y < f.height,
        f.at(x, y) <= thr,
        0 <= cx < f.width,
        0 <= cy < f.height,
        f.at(cx, cy) > thr,
        -1 <= x - cx <= 1,
        -1 <= y - cy <= 1,
    ensures
        1 <= x <= f.width - 2,
        1 <= y <= f.height - 2,
{
    if f.border_above(thr) {
        assert(!(x == 0 || x == f.width - 1 || y == 0 || y == f.height - 1));
    } else {
        assert(2 <= cx <= f.width - 3 && 2 <= cy <= f.height - 3);
    }
}

/// The machine's invariant is preserved by every transition.
proof fn lemma_step_preserves(f: ScalarField, thr: u8, x: int, y: int, dir: LookDirection)
    requires
        f.wf(),
        f.traceable(thr),
        state_ok(f, thr, x, y, dir),
    ensures
        state_ok(f, thr, step_state(f, thr, x, y, dir).0, step_state(f, thr, x, y, dir).1,
        step_state(f, thr, x, y, dir).2),
{
    let n = step_state(f, thr, x, y, dir);
    let c = comp_cell(n.0, n.1, n.2);
    assert(f.at(n.0, n.1) <= thr);
    assert(f.at(c.0, c.1) > thr);
    assert(0 <= c.0 < f.width && 0 <= c.1 < f.height);
    lemma_low_cell_is_interior(f, thr, n.0, n.1, c.0, c.1);
}

/// A weighted average of two values in `[0, m]`, scaled by `s`, divided by
/// the total weight, lies in `[0, s * m]`.
proof fn lemma_weighted_div_bound(s: int, a: int, b: int, i: int, o: int, m: int)
    requires
        0 <= a <= m,
        0 <= b <= m,
        1 <= i,
        0 <= o,
        0 < s,
    ensures
        0 <= (s * (a * i + b * o)) / (i + o) <= s * m,
{
    let den = i + o;
    lemma_mul_inequality(a, m, i);
    lemma_mul_inequality(b, m, o);
    assert(a * i >= 0) by (nonlinear_arith)
        requires
            0 <= a,
            0 <= i,
    ;
    assert(b * o >= 0) by (nonlinear_arith)
        requires
            0 <= b,
            0 <= o,
    ;
    assert(m * i + m * o == m * den) by (nonlinear_arith)
        requires
            den == i + o,
    ;
    assert(s * (a * i + b * o) <= s * (m * den)) by (nonlinear_arith)
        requires
            a * i + b * o <= m * den,
            0 < s,
    ;
    assert(s * (a * i + b * o) >= 0) by (nonlinear_arith)
        requires
            a * i >= 0,
            b * o >= 0,
            0 < s,
    ;
    assert(s * (m * den) == den * (s * m)) by (nonlinear_arith);
    lemma_div_pos_is_pos(s * (a * i + b * o), den);
    lemma_div_is_ordered(s * (a * i + b * o), den * (s * m), den);
    lemma_div_multiples_vanish(s * m, den);
}

/// The emitted point of a valid state lies inside the field's fixed-point
/// extent.
proof fn lemma_emitted_point_in_field(f: ScalarField, thr: u8, x: int, y: int, dir: LookDirection)
    requires
        f.wf(),
        state_ok(f, thr, x, y, dir),
    ensures
        0 <= emitted_point(f, thr, x, y, dir).x <= SCALE * f.width,
        0 <= emitted_point(f, thr, x, y, dir).y <= SCALE * f.height,
{
    let c = comp_cell(x, y, dir);
    let o = thr as int - f.at(x, y) as int;
    let i = f.at(c.0, c.1) as int - thr as int;
    lemma_weighted_div_bound(SCALE as int, c.0, x, i, o, f.width - 1);
    lemma_weighted_div_bound(SCALE as int, c.1, y, i, o, f.height - 1);
    assert(SCALE * (f.width - 1) <= SCALE * f.width) by (nonlinear_arith)
        requires
            0 < SCALE,
    ;
    assert(SCALE * (f.height - 1) <= SCALE * f.height) by (nonlinear_arith)
        requires
            0 < SCALE,
    ;
}

/// Prepends an already-emitted prefix to a pending trace result.
pub open spec fn with_prefix(prefix: Seq<Point>, t: Option<Seq<Point>>) -> Option<Seq<Point>> {
    match t {
        Option::None => None,
        Option::Some(rest) => Some(prefix + rest),
    }
}

/// Traces the single closed boundary where the field crosses `threshold`,
/// as an ordered clockwise sequence of sub-pixel points, or reports why no
/// boundary could be produced. The result is exactly `trace_outcome`: the
/// walk of the state machine from the first row-major vertical crossing.
#[verifier::rlimit(100)]
pub fn find_contour_from_grayscale(image: &ScalarField, threshold: u8) -> (r: Result<
    Contour,
    ContourError,
>)
    requires
        image.wf(),
        image.traceable(threshold),
    ensures
        (match r {
            Result::Ok(c) => trace_outcome(*image, threshold) == Result::<
                Seq<Point>,
                ContourError,
            >::Ok(c@) && 1 <= c@.len() <= image.width * image.height && coords_in_field(
                c@,
                image.width as int,
                image.height as int,
            ),
            Result::Err(e) => trace_outcome(*image, threshold) == Result::<
                Seq<Point>,
                ContourError,
            >::Err(e),
        }),
{
    let ghost f = *image;
    let w = image.width;
    let h = image.height;
    let mut found = false;
    let mut sx: usize = 0;
    let mut sy: usize = 0;
    let mut y: usize = 0;
    while y < h - 1
        invariant_except_break
            !found,
            start_from(f, threshold, (y * w) as nat) == start_from(f, threshold, 0),
        invariant
            image.wf(),
            f == *image,
            w == image.width,
            h == image.height,
            y <= h - 1,
        ensures
            found ==> start_from(f, threshold, 0) == Option::Some((sx as int, sy as int)) && sx < w
                && sy < h - 1 && is_start_at(f, threshold, sx as int, sy as int),
            !found ==> start_from(f, threshold, ((h - 1) * w) as nat) == start_from(f, threshold, 0),
        decreases h - 1 - y,
    {
        let mut x: usize = 0;
        while x < w
            invariant_except_break
                !found,
                start_from(f, threshold, (y * w + x) as nat) == start_from(f, threshold, 0),
            invariant
                image.wf(),
                f == *image,
                w == image.width,
                h == image.height,
                y < h - 1,
                x <= w,
            ensures
                found ==> start_from(f, threshold, 0) == Option::Some((sx as int, sy as int)) && sx
                    < w && sy < h - 1 && is_start_at(f, threshold, sx as int, sy as int),
                !found ==> start_from(f, threshold, (y * w + w) as nat) == start_from(
                    f,
                    threshold,
                    0,
                ),
            decreases w - x,
        {
            proof {
                assert(y * w + x < (h - 1) * w && y * w + x <= 16384 * 16384) by (nonlinear_arith)
                    requires
                        x < w,
                        y < h - 1,
                        w <= 16384,
                        h <= 16384,
                ;
                lemma_fundamental_div_mod_converse((y * w + x) as int, w as int, y as int, x as int);
            }
            let v = image.get(x, y);
            let below = image.get(x, y + 1);
            if v <= threshold && below > threshold {
                found = true;
                sx = x;
                sy = y;
                proof {
                    assert(is_start_at(f, threshold, x as int, y as int));
                    assert(start_from(f, threshold, (y * w + x) as nat) == Option::Some(
                        (x as int, y as int),
                    ));
                }
                break ;
            }
            x = x + 1;
        }
        if found {
            break ;
        }
        proof {
            assert(y * w + w == (y + 1) * w) by (nonlinear_arith);
        }
        y = y + 1;
    }
    if !found {
        proof {
            assert(((h - 1) * w) as nat >= ((f.height - 1) * f.width));
            assert(start_from(f, threshold, ((h - 1) * w) as nat) == Option::<(int, int)>::None);
        }
        return Result::Err(ContourError::NoBoundaryFound);
    }
    proof {
        lemma_low_cell_is_interior(
            f,
            threshold,
            sx as int,
            sy as int,
            sx as int,
            sy as int + 1,
        );
    }
    let ghost sxi = sx as int;
    let ghost syi = sy as int;
    let ghost full = trace_from(
        f,
        threshold,
        sxi,
        syi,
        LookDirection::Right,
        false,
        sxi,
        syi,
        (w * h) as nat,
    );
    let mut cx = sx;
    let mut cy = sy;
    let mut dir = LookDirection::Right;
    let mut contour = Contour::new();
    proof {
        assert(w * h <= 16384 * 16384) by (nonlinear_arith)
            requires
                w <= 16384,
                h <= 16384,
        ;
    }
    let mut fuel: usize = w * h;
    proof {
        assert(with_prefix(contour@, full) == full) by {
            match full {
                Option::None => {
                },
                Option::Some(s) => {
                    assert(contour@ + s =~= s);
                },
            }
        }
    }
    loop
        invariant
            image.wf(),
            image.traceable(threshold),
            f == *image,
            w == image.width,
            h == image.height,
            state_ok(f, threshold, cx as int, cy as int, dir),
            cx < w,
            cy < h,
            fuel + contour@.len() == w * h,
            full == with_prefix(
                contour@,
                trace_from(
                    f,
                    threshold,
                    cx as int,
                    cy as int,
                    dir,
                    contour@.len() > 0,
                    sxi,
                    syi,
                    fuel as nat,
                ),
            ),
            full == trace_from(f, threshold, sxi, syi, LookDirection::Right, false, sxi, syi, (w
                * h) as nat),
            start_from(f, threshold, 0) == Option::Some((sxi, syi)),
            sxi == sx as int,
            syi == sy as int,
            coords_in_field(contour@, w as int, h as int),
        decreases fuel,
    {
        if fuel == 0 {
            return Result::Err(ContourError::NonTerminatingTrace);
        }
        if contour.len() > 0 && cx == sx && cy == sy {
            proof {
                assert(contour@ + Seq::<Point>::empty() =~= contour@);
            }
            return Result::Ok(contour);
        }
        let ghost ox = cx as int;
        let ghost oy = cy as int;
        let ghost od = dir;
        let ghost ostarted = contour@.len() > 0;
        let ghost ocontour = contour@;
        // Emit the interpolated boundary point of the current state.
        let (px, py) = match dir {
            LookDirection::Right => (cx, cy + 1),
            LookDirection::Down => (cx - 1, cy),
            LookDirection::Left => (cx, cy - 1),
            LookDirection::Up => (cx + 1, cy),
        };
        let v0 = image.get(cx, cy);
        let v1 = image.get(px, py);
        let o: u64 = (threshold - v0) as u64;
        let ii: u64 = (v1 - threshold) as u64;
        let den = ii + o;
        proof {
            assert(comp_cell(ox, oy, od) == (px as int, py as int));
            assert((px as int) * (ii as int) <= 16384 * 255 && (cx as int) * (o as int) <= 16384
                * 255 && (py as int) * (ii as int) <= 16384 * 255 && (cy as int) * (o as int)
                <= 16384 * 255 && 0 <= (px as int) * (ii as int) && 0 <= (cx as int) * (o as int)
                && 0 <= (py as int) * (ii as int) && 0 <= (cy as int) * (o as int))
                by (nonlinear_arith)
                requires
                    px <= 16384,
                    py <= 16384,
                    cx <= 16384,
                    cy <= 16384,
                    ii <= 255,
                    o <= 255,
            ;
        }
        let nx = ((SCALE as u64) * ((px as u64) * ii + (cx as u64) * o)) / den;
        let ny = ((SCALE as u64) * ((py as u64) * ii + (cy as u64) * o)) / den;
        proof {
            let c = comp_cell(ox, oy, od);
            let oo = threshold as int - f.at(ox, oy) as int;
            let iiv = f.at(c.0, c.1) as int - threshold as int;
            assert(oo == o as int && iiv == ii as int);
            lemma_weighted_div_bound(SCALE as int, c.0, ox, iiv, oo, w as int - 1);
            lemma_weighted_div_bound(SCALE as int, c.1, oy, iiv, oo, h as int - 1);
            assert(SCALE as int * (w as int - 1) <= 16_384_000 && SCALE as int * (h as int - 1)
                <= 16_384_000) by (nonlinear_arith)
                requires
                    w <= 16384,
                    h <= 16384,
            ;
            assert(nx as int == (SCALE as int * (c.0 * iiv + ox * oo)) / (iiv + oo));
            assert(ny as int == (SCALE as int * (c.1 * iiv + oy * oo)) / (iiv + oo));
            assert(Point { x: nx as i64, y: ny as i64 } == emitted_point(f, threshold, ox, oy, od));
            lemma_emitted_point_in_field(f, threshold, ox, oy, od);
        }
        contour.push(Point { x: nx as i64, y: ny as i64 });
        proof {
            lemma_emitted_point_in_field(f, threshold, ox, oy, od);
            assert forall|idx: int| 0 <= idx < contour@.len() implies 0 <= (#[trigger] contour@[idx]).x
                <= SCALE as int * (w as int) && 0 <= contour@[idx].y <= SCALE as int * (h as int) by {
                if idx < contour@.len() - 1 {
                    assert(contour@[idx] == ocontour[idx]);
                    assert(0 <= ocontour[idx].x <= SCALE as int * (w as int));
                } else {
                    assert(contour@[idx] == emitted_point(f, threshold, ox, oy, od));
                }
            }
            assert(coords_in_field(contour@, w as int, h as int));
        }
        // Advance: diagonal-inward, straight ahead, or pivot.
        match dir {
            LookDirection::Right => {
                if image.get(cx + 1, cy + 1) <= threshold {
                    dir = LookDirection::Down;
                    cx = cx + 1;
                    cy = cy + 1;
                } else if image.get(cx + 1, cy) <= threshold {
                    cx = cx + 1;
                } else {
                    dir = LookDirection::Up;
                }
            },
            LookDirection::Down => {
                if image.get(cx - 1, cy + 1) <= threshold {
                    dir = LookDirection::Left;
                    cx = cx - 1;
                    cy = cy + 1;
                } else if image.get(cx, cy + 1) <= threshold {
                    cy = cy + 1;
                } else {
                    dir = LookDirection::Right;
                }
            },
            LookDirection::Left => {
                if image.get(cx - 1, cy - 1) <= threshold {
                    dir = LookDirection::Up;
                    cx = cx - 1;
                    cy = cy - 1;
                } else if image.get(cx - 1, cy) <= threshold {
                    cx = cx - 1;
                } else {
                    dir = LookDirection::Down;
                }
            },
            LookDirection::Up => {
                if image.get(cx + 1, cy - 1) <= threshold {
                    dir = LookDirection::Right;
                    cx = cx + 1;
                    cy = cy - 1;
                } else if image.get(cx, cy - 1) <= threshold {
                    cy = cy - 1;
                } else {
                    dir = LookDirection::Left;
                }
            },
        }
        fuel = fuel - 1;
        proof {
            let n = step_state(f, threshold, ox, oy, od);
            assert(n.0 == cx as int && n.1 == cy as int && n.2 == dir);
            lemma_step_preserves(f, threshold, ox, oy, od);
            let p = emitted_point(f, threshold, ox, oy, od);
            let tnew = trace_from(f, threshold, n.0, n.1, n.2, true, sxi, syi, fuel as nat);
            let old_t = trace_from(f, threshold, ox, oy, od, ostarted, sxi, syi, (fuel + 1) as nat);
            assert(!(ostarted && ox == sxi && oy == syi));
            assert(((fuel + 1) as nat - 1) as nat == fuel as nat);
            assert(old_t == (match tnew {
                Option::None => Option::<Seq<Point>>::None,
                Option::Some(rest) => Option::Some(seq![p] + rest),
            }));
            match tnew {
                Option::None => {
                },
                Option::Some(rest) => {
                    assert(ocontour + (seq![p] + rest) =~= (ocontour + seq![p]) + rest);
                    assert(ocontour + seq![p] =~= contour@);
                },
            }
        }
    }
}

/// The threshold at which the grayscale scalar field is traced.
pub const FIELD_THRESHOLD: u8 = 128;

/// The outcome of the full contour pipeline on a field: trace the boundary,
/// smooth it `k` times, simplify it in pixel space with the tolerance
/// `num / den`, then scale it into unit image space.
pub open spec fn pipeline_outcome(f: ScalarField, thr: u8, k: nat, num: int, den: int) -> Result<
    Seq<Point>,
    ContourError,
> {
    match trace_outcome(f, thr) {
        Result::Err(e) => Result::Err(e),
        Result::Ok(pts) => Result::Ok(
            scale_spec(
                simplify_spec(smooth_iter(pts, k), num, den),
                f.width as int,
                f.height as int,
            ),
        ),
    }
}

/// Runs the whole contour pipeline on a scalar field: tracing at
/// `FIELD_THRESHOLD`, smoothing, simplifying in pixel space, and scaling
/// into unit space, with the given parameters.
pub fn contour_from_field(field: &ScalarField, params: &Params) -> (r: Result<
    Contour,
    ContourError,
>)
    requires
        field.wf(),
        field.traceable(FIELD_THRESHOLD),
        params.wf(),
    ensures
        (match r {
            Result::Ok(c) => pipeline_outcome(
                *field,
                FIELD_THRESHOLD,
                params.smooth_iterations as nat,
                params.simplify_cos_num as int,
                params.simplify_cos_den as int,
            ) == Result::<Seq<Point>, ContourError>::Ok(c@) && coords_bounded(c@, SCALE as int) && c@.len()
                <= field.width * field.height,
            Result::Err(e) => pipeline_outcome(
                *field,
                FIELD_THRESHOLD,
                params.smooth_iterations as nat,
                params.simplify_cos_num as int,
                params.simplify_cos_den as int,
            ) == Result::<Seq<Point>, ContourError>::Err(e),
        }),
{
    let w = field.width;
    let h = field.height;
    let traced = match find_contour_from_grayscale(field, FIELD_THRESHOLD) {
        Result::Ok(c) => c,
        Result::Err(e) => {
            return Result::Err(e);
        },
    };
    let ghost k = params.smooth_iterations as nat;
    let ghost num = params.simplify_cos_num as int;
    let ghost den = params.simplify_cos_den as int;
    proof {
        assert(SCALE as int * w as int <= COORD_LIMIT as int && SCALE as int * h as int
            <= COORD_LIMIT as int && SCALE as int * 16384 <= COORD_LIMIT as int && SCALE as int
            * 16384 <= SIMPLIFY_COORD_LIMIT as int) by (nonlinear_arith)
            requires
                w <= 16384,
                h <= 16384,
        ;
        lemma_in_field_bounded(traced@, w as int, h as int, 16384);
        lemma_coords_bounded_widen(traced@, SCALE as int * 16384, COORD_LIMIT as int);
        lemma_smooth_iter_in_field(traced@, k, w as int, h as int);
        lemma_smooth_iter_len(traced@, k);
    }
    let smoothed = traced.smooth(params.smooth_iterations);
    proof {
        lemma_in_field_bounded(smoothed@, w as int, h as int, 16384);
        lemma_coords_bounded_widen(
            smoothed@,
            SCALE as int * 16384,
            SIMPLIFY_COORD_LIMIT as int,
        );
    }
    let simplified = smoothed.simplify(params.simplify_cos_num, params.simplify_cos_den);
    proof {
        crate::simplify::lemma_simplify_spec_len(smoothed@, num, den);
        crate::simplify::lemma_simplify_spec_in_field(smoothed@, num, den, w as int, h as int);
        lemma_in_field_bounded(simplified@, w as int, h as int, 16384);
        lemma_coords_bounded_widen(simplified@, SCALE as int * 16384, COORD_LIMIT as int);
        lemma_scale_unit_bounds(simplified@, w as int, h as int);
    }
    let scaled = simplified.scale(w, h);
    Result::Ok(scaled)
}

/// A boundary cell of the field: at or below the threshold, inside the
/// grid's one-deep interior, with at least one strictly-above 4-neighbour.
pub open spec fn is_boundary_cell(f: ScalarField, thr: u8, x: int, y: int) -> bool {
    &&& 1 <= x <= f.width - 2
    &&& 1 <= y <= f.height - 2
    &&& f.at(x, y) <= thr
    &&& (f.at(x + 1, y) > thr || f.at(x - 1, y) > thr || f.at(x, y + 1) > thr || f.at(
        x,
        y - 1,
    ) > thr)
}

/// The point lies within one grid cell (`SCALE` fixed-point units, per
/// axis) of some boundary cell of the field.
pub open spec fn near_boundary_cell(f: ScalarField, thr: u8, p: Point) -> bool {
    exists|x: int, y: int|
        #[trigger] is_boundary_cell(f, thr, x, y) && SCALE * x - SCALE <= p.x <= SCALE * x + SCALE
            && SCALE * y - SCALE <= p.y <= SCALE * y + SCALE
}

/// A weighted average of two values, scaled by `s` and divided by the total
/// weight, lies between the scaled values.
proof fn lemma_weighted_div_range(s: int, a: int, b: int, i: int, o: int)
    requires
        1 <= i,
        0 <= o,
        0 < s,
    ensures
        (s * (a * i + b * o)) / (i + o) >= s * (if a <= b {
            a
        } else {
            b
        }),
        (s * (a * i + b * o)) / (i + o) <= s * (if a <= b {
            b
        } else {
            a
        }),
{
    let den = i + o;
    let lo = if a <= b {
        a
    } else {
        b
    };
    let hi = if a <= b {
        b
    } else {
        a
    };
    assert(lo * i <= a * i && lo * o <= b * o && a * i <= hi * i && b * o <= hi * o)
        by (nonlinear_arith)
        requires
            lo <= a <= hi,
            lo <= b <= hi,
            0 <= i,
            0 <= o,
    ;
    assert(lo * i + lo * o == lo * den && hi * i + hi * o == hi * den) by (nonlinear_arith)
        requires
            den == i + o,
    ;
    assert(s * (lo * den) <= s * (a * i + b * o) <= s * (hi * den)) by (nonlinear_arith)
        requires
            lo * den <= a * i + b * o <= hi * den,
            0 < s,
    ;
    assert(s * (lo * den) == den * (s * lo) && s * (hi * den) == den * (s * hi))
        by (nonlinear_arith);
    lemma_div_is_ordered(den * (s * lo), s * (a * i + b * o), den);
    lemma_div_is_ordered(s * (a * i + b * o), den * (s * hi), den);
    lemma_div_multiples_vanish(s * lo, den);
    lemma_div_multiples_vanish(s * hi, den);
}

/// The point a state emits lies within one cell of the state's cell.
proof fn lemma_emitted_point_near_cell(f: ScalarField, thr: u8, x: int, y: int, dir: LookDirection)
    requires
        f.wf(),
        state_ok(f, thr, x, y, dir),
    ensures
        ({
            let p = emitted_point(f, thr, x, y, dir);
            SCALE * x - SCALE <= p.x <= SCALE * x + SCALE && SCALE * y - SCALE <= p.y <= SCALE * y
                + SCALE
        }),
{
    let c = comp_cell(x, y, dir);
    let o = thr as int - f.at(x, y) as int;
    let i = f.at(c.0, c.1) as int - thr as int;
    lemma_weighted_div_range(SCALE as int, c.0, x, i, o);
    lemma_weighted_div_range(SCALE as int, c.1, y, i, o);
    lemma_weighted_div_bound(SCALE as int, c.0, x, i, o, f.width - 1);
    lemma_weighted_div_bound(SCALE as int, c.1, y, i, o, f.height - 1);
    assert(SCALE * (x - 1) == SCALE * x - SCALE && SCALE * (x + 1) == SCALE * x + SCALE && SCALE * (
    y - 1) == SCALE * y - SCALE && SCALE * (y + 1) == SCALE * y + SCALE) by (nonlinear_arith);
}

/// Every point the machine emits from a valid state, until the walk closes,
/// lies within one cell of a boundary cell.
proof fn lemma_trace_points_near_boundary(
    f: ScalarField,
    thr: u8,
    x: int,
    y: int,
    dir: LookDirection,
    started: bool,
    sx: int,
    sy: int,
    fuel: nat,
)
    requires
        f.wf(),
        f.traceable(thr),
        state_ok(f, thr, x, y, dir),
        trace_from(f, thr, x, y, dir, started, sx, sy, fuel) is Some,
    ensures
        forall|i: int|
            0 <= i < trace_from(f, thr, x, y, dir, started, sx, sy, fuel)->Some_0.len()
                ==> near_boundary_cell(
                f,
                thr,
                #[trigger] trace_from(f, thr, x, y, dir, started, sx, sy, fuel)->Some_0[i],
            ),
    decreases fuel,
{
    if fuel != 0 && !(started && x == sx && y == sy) {
        let p = emitted_point(f, thr, x, y, dir);
        let n = step_state(f, thr, x, y, dir);
        let rest = trace_from(f, thr, n.0, n.1, n.2, true, sx, sy, (fuel - 1) as nat)->Some_0;
        lemma_emitted_point_near_cell(f, thr, x, y, dir);
        assert(is_boundary_cell(f, thr, x, y));
        assert(near_boundary_cell(f, thr, p));
        lemma_step_preserves(f, thr, x, y, dir);
        lemma_trace_points_near_boundary(f, thr, n.0, n.1, n.2, true, sx, sy, (fuel - 1) as nat);
        let whole = trace_from(f, thr, x, y, dir, started, sx, sy, fuel)->Some_0;
        assert forall|i: int| 0 <= i < whole.len() implies near_boundary_cell(
            f,
            thr,
            #[trigger] whole[i],
        ) by {
            if i == 0 {
                assert(whole[0] == p);
            } else {
                assert(whole[i] == rest[i - 1]);
            }
        }
    }
}

/// The first start cell found by the row-major scan is a genuine vertical
/// crossing inside the scanned rows.
proof fn lemma_start_from_is_start(f: ScalarField, thr: u8, k: nat)
    requires
        f.wf(),
        start_from(f, thr, k) is Some,
    ensures
        ({
            let s = start_from(f, thr, k)->Some_0;
            is_start_at(f, thr, s.0, s.1) && 0 <= s.0 < f.width && 0 <= s.1 < f.height - 1
        }),
    decreases (f.height - 1) * f.width - k,
{
    let w = f.width as int;
    let h = f.height as int;
    if k < (h - 1) * w {
        let x = (k % (f.width as nat)) as int;
        let y = (k / (f.width as nat)) as int;
        if is_start_at(f, thr, x, y) {
            lemma_mod_bound(k as int, w);
            lemma_div_pos_is_pos(k as int, w);
            assert((h - 1) * w - 1 == (h - 2) * w + (w - 1)) by (nonlinear_arith);
            lemma_fundamental_div_mod_converse((h - 1) * w - 1, w, h - 2, w - 1);
            lemma_div_is_ordered(k as int, (h - 1) * w - 1, w);
        } else {
            lemma_start_from_is_start(f, thr, k + 1);
        }
    }
}

/// One direction of the raster round trip, proved of the tracer itself:
/// every point of a traced contour lies within one grid cell of a boundary
/// cell of the field — a cell at or below the threshold with an
/// above-threshold 4-neighbour.
pub proof fn lemma_contour_points_near_boundary(f: ScalarField, thr: u8)
    requires
        f.wf(),
        f.traceable(thr),
        trace_outcome(f, thr) is Ok,
    ensures
        forall|i: int|
            0 <= i < trace_outcome(f, thr)->Ok_0.len() ==> near_boundary_cell(
                f,
                thr,
                #[trigger] trace_outcome(f, thr)->Ok_0[i],
            ),
{
    lemma_start_from_is_start(f, thr, 0);
    let s = start_from(f, thr, 0)->Some_0;
    lemma_low_cell_is_interior(f, thr, s.0, s.1, s.0, s.1 + 1);
    assert(state_ok(f, thr, s.0, s.1, LookDirection::Right));
    lemma_trace_points_near_boundary(
        f,
        thr,
        s.0,
        s.1,
        LookDirection::Right,
        false,
        s.0,
        s.1,
        (f.width * f.height) as nat,
    );
}

} // verus!
