//! The contour data type and its point-sequence operations: smoothing,
//! simplification and scaling into unit image space.

use vstd::prelude::*;
use vstd::arithmetic::div_mod::lemma_div_is_ordered;
use vstd::arithmetic::div_mod::lemma_div_multiples_vanish;
use vstd::arithmetic::div_mod::lemma_div_pos_is_pos;

verus! {

/// Number of fixed-point coordinate units per pixel.
pub const SCALE: i64 = 1000;

/// Largest coordinate value the smoothing and scaling passes accept;
/// keeps three-point sums far inside the `i64` range.
pub const COORD_LIMIT: i64 = 100_000_000;

/// Largest coordinate value the simplifier accepts; together with
/// `SIMPLIFY_DEN_LIMIT` it keeps the squared comparison inside the `i128`
/// range, and it covers pixel-space contours of fields up to
/// `MAX_FIELD_DIM` on a side.
pub const SIMPLIFY_COORD_LIMIT: i64 = 16_777_216;

/// Largest tolerance denominator the simplifier accepts.
pub const SIMPLIFY_DEN_LIMIT: i64 = 4096;

/// A 2D point in fixed-point coordinates (`SCALE` units per pixel).
#[derive(Clone, Copy, PartialEq, Eq, Structural, Debug)]
pub struct Point {
    pub x: i64,
    pub y: i64,
}

/// An ordered, implicitly cyclic sequence of boundary points.
#[derive(Clone, Debug)]
pub struct Contour {
    pub points: Vec<Point>,
}

impl View for Contour {
    type V = Seq<Point>;

    open spec fn view(&self) -> Seq<Point> {
        self.points@
    }
}

/// Every coordinate of every point lies in `[0, bound]`.
pub open spec fn coords_bounded(s: Seq<Point>, bound: int) -> bool {
    forall|i: int|
        0 <= i < s.len() ==> 0 <= #[trigger] s[i].x <= bound && 0 <= s[i].y <= bound
}

/// Cyclic predecessor of index `i` in a sequence of length `n`.
pub open spec fn cyc_prev(i: int, n: int) -> int {
    if i == 0 {
        n - 1
    } else {
        i - 1
    }
}

/// Cyclic successor of index `i` in a sequence of length `n`.
pub open spec fn cyc_next(i: int, n: int) -> int {
    if i == n - 1 {
        0
    } else {
        i + 1
    }
}

/// Integer average of three values, rounded toward negative infinity.
pub open spec fn avg3(a: int, b: int, c: int) -> int {
    (a + b + c) / 3
}

/// One smoothing pass: each point becomes the unweighted average of itself
/// and its two cyclic neighbours.
pub open spec fn smooth_once(s: Seq<Point>) -> Seq<Point> {
    Seq::new(
        s.len(),
        |i: int|
            Point {
                x: avg3(
                    s[cyc_prev(i, s.len() as int)].x as int,
                    s[i].x as int,
                    s[cyc_next(i, s.len() as int)].x as int,
                ) as i64,
                y: avg3(
                    s[cyc_prev(i, s.len() as int)].y as int,
                    s[i].y as int,
                    s[cyc_next(i, s.len() as int)].y as int,
                ) as i64,
            },
    )
}

/// `k` sequential smoothing passes; each pass runs on the previous pass's
/// output.
pub open spec fn smooth_iter(s: Seq<Point>, k: nat) -> Seq<Point>
    decreases k,
{
    if k == 0 {
        s
    } else {
        smooth_once(smooth_iter(s, (k - 1) as nat))
    }
}

/// Every point divided componentwise by the field dimensions, mapping pixel
/// space into unit image space (`SCALE` units = 1.0).
pub open spec fn scale_spec(s: Seq<Point>, w: int, h: int) -> Seq<Point> {
    Seq::new(
        s.len(),
        |i: int| Point { x: (s[i].x as int / w) as i64, y: (s[i].y as int / h) as i64 },
    )
}

proof fn lemma_avg3_bounded(a: int, b: int, c: int, bound: int)
    requires
        0 <= a <= bound,
        0 <= b <= bound,
        0 <= c <= bound,
    ensures
        0 <= avg3(a, b, c) <= bound,
{
    lemma_div_is_ordered(0, a + b + c, 3);
    lemma_div_is_ordered(a + b + c, 3 * bound, 3);
    lemma_div_multiples_vanish(bound, 3);
}

/// Smoothing keeps every coordinate inside the bound of its input.
proof fn lemma_smooth_once_bounded(s: Seq<Point>, bound: int)
    requires
        coords_bounded(s, bound),
        0 <= bound <= COORD_LIMIT,
    ensures
        coords_bounded(smooth_once(s), bound),
{
    assert forall|i: int| 0 <= i < smooth_once(s).len() implies 0 <= #[trigger] smooth_once(
        s,
    )[i].x <= bound && 0 <= smooth_once(s)[i].y <= bound by {
        let n = s.len() as int;
        let p = cyc_prev(i, n);
        let q = cyc_next(i, n);
        lemma_avg3_bounded(s[p].x as int, s[i].x as int, s[q].x as int, bound);
        lemma_avg3_bounded(s[p].y as int, s[i].y as int, s[q].y as int, bound);
    }
}

/// Smoothing with `k = 0` is the identity transform.
pub proof fn lemma_smooth_zero_is_identity(s: Seq<Point>)
    ensures
        smooth_iter(s, 0) == s,
{
}

/// Sequential smoothing passes compose additively: smoothing `a` times and
/// then `b` times equals smoothing `a + b` times in one call.
pub proof fn lemma_smooth_iter_adds(s: Seq<Point>, a: nat, b: nat)
    ensures
        smooth_iter(s, a + b) == smooth_iter(smooth_iter(s, a), b),
    decreases b,
{
    if b > 0 {
        lemma_smooth_iter_adds(s, a, (b - 1) as nat);
    }
}

/// Every point's x lies in `[0, SCALE * w]` and y in `[0, SCALE * h]`: the
/// contour sits inside the fixed-point extent of a `w x h` field.
pub open spec fn coords_in_field(s: Seq<Point>, w: int, h: int) -> bool {
    forall|i: int|
        0 <= i < s.len() ==> 0 <= #[trigger] s[i].x <= SCALE * w && 0 <= s[i].y <= SCALE * h
}

/// A coordinate bound weakens to any larger bound.
pub proof fn lemma_coords_bounded_widen(s: Seq<Point>, a: int, b: int)
    requires
        coords_bounded(s, a),
        a <= b,
    ensures
        coords_bounded(s, b),
{
}

/// A contour inside a field's extent has all coordinates bounded by the
/// fixed-point extent of the larger dimension bound.
pub proof fn lemma_in_field_bounded(s: Seq<Point>, w: int, h: int, m: int)
    requires
        coords_in_field(s, w, h),
        0 <= w <= m,
        0 <= h <= m,
    ensures
        coords_bounded(s, SCALE * m),
{
    assert(SCALE * w <= SCALE * m && SCALE * h <= SCALE * m) by (nonlinear_arith)
        requires
            0 <= w <= m,
            0 <= h <= m,
            0 < SCALE,
    ;
}

/// Smoothing never changes the point count.
pub proof fn lemma_smooth_iter_len(s: Seq<Point>, k: nat)
    ensures
        smooth_iter(s, k).len() == s.len(),
    decreases k,
{
    if k > 0 {
        lemma_smooth_iter_len(s, (k - 1) as nat);
    }
}

proof fn lemma_smooth_once_in_field(s: Seq<Point>, w: int, h: int)
    requires
        coords_in_field(s, w, h),
        0 <= w,
        0 <= h,
        SCALE * w <= COORD_LIMIT,
        SCALE * h <= COORD_LIMIT,
    ensures
        coords_in_field(smooth_once(s), w, h),
{
    assert forall|i: int| 0 <= i < smooth_once(s).len() implies 0 <= #[trigger] smooth_once(
        s,
    )[i].x <= SCALE * w && 0 <= smooth_once(s)[i].y <= SCALE * h by {
        let n = s.len() as int;
        let p = cyc_prev(i, n);
        let q = cyc_next(i, n);
        lemma_avg3_bounded(s[p].x as int, s[i].x as int, s[q].x as int, SCALE * w);
        lemma_avg3_bounded(s[p].y as int, s[i].y as int, s[q].y as int, SCALE * h);
    }
}

/// Smoothing keeps the contour inside the field's fixed-point extent.
pub proof fn lemma_smooth_iter_in_field(s: Seq<Point>, k: nat, w: int, h: int)
    requires
        coords_in_field(s, w, h),
        0 <= w,
        0 <= h,
        SCALE * w <= COORD_LIMIT,
        SCALE * h <= COORD_LIMIT,
    ensures
        coords_in_field(smooth_iter(s, k), w, h),
    decreases k,
{
    if k > 0 {
        lemma_smooth_iter_in_field(s, (k - 1) as nat, w, h);
        lemma_smooth_once_in_field(smooth_iter(s, (k - 1) as nat), w, h);
    }
}

/// After scaling by the field dimensions, every coordinate lies in
/// `[0, SCALE]`: the unit square, in fixed-point form.
pub proof fn lemma_scale_unit_bounds(s: Seq<Point>, w: int, h: int)
    requires
        coords_in_field(s, w, h),
        1 <= w,
        1 <= h,
    ensures
        coords_bounded(scale_spec(s, w, h), SCALE as int),
{
    assert forall|i: int| 0 <= i < scale_spec(s, w, h).len() implies 0 <= #[trigger] scale_spec(
        s,
        w,
        h,
    )[i].x <= SCALE && 0 <= scale_spec(s, w, h)[i].y <= SCALE by {
        lemma_div_pos_is_pos(s[i].x as int, w);
        lemma_div_is_ordered(s[i].x as int, SCALE * w, w);
        lemma_div_multiples_vanish(SCALE as int, w);
        lemma_div_pos_is_pos(s[i].y as int, h);
        lemma_div_is_ordered(s[i].y as int, SCALE * h, h);
        lemma_div_multiples_vanish(SCALE as int, h);
    }
}

/// Scaling by the field dimensions maps a point at pixel `(w, h)` — the far
/// corner — exactly to `(1.0, 1.0)` in unit space.
pub proof fn lemma_scale_maps_far_corner(s: Seq<Point>, w: int, h: int, i: int)
    requires
        0 < w,
        0 < h,
        0 <= i < s.len(),
        s[i].x == w * SCALE,
        s[i].y == h * SCALE,
    ensures
        scale_spec(s, w, h)[i].x == SCALE,
        scale_spec(s, w, h)[i].y == SCALE,
{
    lemma_div_multiples_vanish(SCALE as int, w);
    lemma_div_multiples_vanish(SCALE as int, h);
}

impl Contour {
    pub fn new() -> (r: Contour)
        ensures
            r@ == Seq::<Point>::empty(),
    {
        Contour { points: Vec::new() }
    }

    pub fn len(&self) -> (r: usize)
        ensures
            r == self@.len(),
    {
        self.points.len()
    }

    pub fn push(&mut self, point: Point)
        ensures
            final(self)@ == old(self)@.push(point),
    {
        self.points.push(point);
    }

    /// The point at index `i`.
    pub fn point_at(&self, i: usize) -> (r: Point)
        requires
            i < self@.len(),
        ensures
            r == self@[i as int],
    {
        self.points[i]
    }

    /// Replaces each point by the unweighted average of itself and its two
    /// cyclic neighbours, `iterations` times sequentially.
    pub fn smooth(self, iterations: u32) -> (r: Contour)
        requires
            coords_bounded(self@, COORD_LIMIT as int),
        ensures
            r@ == smooth_iter(self@, iterations as nat),
            coords_bounded(r@, COORD_LIMIT as int),
    {
        let mut current = self;
        for it in 0..iterations
            invariant
                current@ == smooth_iter(self@, it as nat),
                coords_bounded(current@, COORD_LIMIT as int),
        {
            let n = current.points.len();
            let mut next = Contour::new();
            let mut i: usize = 0;
            while i < n
                invariant
                    n == current@.len(),
                    coords_bounded(current@, COORD_LIMIT as int),
                    i <= n,
                    next@.len() == i,
                    forall|j: int| 0 <= j < i ==> next@[j] == smooth_once(current@)[j],
                decreases n - i,
            {
                let prev_i = if i == 0 {
                    n - 1
                } else {
                    i - 1
                };
                let next_i = if i == n - 1 {
                    0
                } else {
                    i + 1
                };
                let a = current.points[prev_i];
                let b = current.points[i];
                let c = current.points[next_i];
                proof {
                    lemma_avg3_bounded(a.x as int, b.x as int, c.x as int, COORD_LIMIT as int);
                    lemma_avg3_bounded(a.y as int, b.y as int, c.y as int, COORD_LIMIT as int);
                }
                let sx = ((a.x + b.x + c.x) as u64 / 3) as i64;
                let sy = ((a.y + b.y + c.y) as u64 / 3) as i64;
                next.push(Point { x: sx, y: sy });
                i = i + 1;
            }
            proof {
                assert(next@ =~= smooth_once(current@));
                lemma_smooth_once_bounded(current@, COORD_LIMIT as int);
            }
            current = next;
        }
        current
    }

    /// Divides every point's coordinates by the field's width and height
    /// respectively, mapping pixel space into `[0, 1] x [0, 1]` unit space
    /// (`SCALE` units = 1.0). Sub-pixel points near the edges may fall
    /// slightly outside that range; nothing is clamped.
    pub fn scale(self, width: usize, height: usize) -> (r: Contour)
        requires
            1 <= width,
            1 <= height,
            coords_bounded(self@, COORD_LIMIT as int),
        ensures
            r@ == scale_spec(self@, width as int, height as int),
            coords_bounded(r@, COORD_LIMIT as int),
    {
        let n = self.points.len();
        let mut scaled = Contour::new();
        let mut i: usize = 0;
        while i < n
            invariant
                n == self@.len(),
                1 <= width,
                1 <= height,
                coords_bounded(self@, COORD_LIMIT as int),
                i <= n,
                scaled@.len() == i,
                forall|j: int|
                    0 <= j < i ==> scaled@[j] == scale_spec(
                        self@,
                        width as int,
                        height as int,
                    )[j],
                coords_bounded(scaled@, COORD_LIMIT as int),
            decreases n - i,
        {
            let p = self.points[i];
            proof {
                lemma_div_is_ordered(0, p.x as int, width as int);
                lemma_div_is_ordered(p.x as int, COORD_LIMIT as int, width as int);
                lemma_div_is_ordered(COORD_LIMIT as int, COORD_LIMIT as int, width as int);
                lemma_div_is_ordered(0, p.y as int, height as int);
                lemma_div_is_ordered(p.y as int, COORD_LIMIT as int, height as int);
                vstd::arithmetic::div_mod::lemma_div_nonincreasing(COORD_LIMIT as int, width as int);
                vstd::arithmetic::div_mod::lemma_div_nonincreasing(
                    COORD_LIMIT as int,
                    height as int,
                );
            }
            let qx = (p.x as u64 / width as u64) as i64;
            let qy = (p.y as u64 / height as u64) as i64;
            scaled.push(Point { x: qx, y: qy });
            i = i + 1;
        }
        proof {
            assert(scaled@ =~= scale_spec(self@, width as int, height as int));
        }
        scaled
    }
}

/// Tracing parameters: the field generator's border offset radius in pixels,
/// the smoothing iteration count, and the simplification tolerance as the
/// exact rational `simplify_cos_num / simplify_cos_den` standing for
/// `cos(pi - eps)` with `eps` the angle tolerance in radians.
pub struct Params {
    pub border_offset: u32,
    pub smooth_iterations: u32,
    pub simplify_cos_num: i64,
    pub simplify_cos_den: i64,
}

impl Params {
    /// The simplification tolerance is a valid cosine in `[-1, 1]` with a
    /// denominator the simplifier accepts.
    pub open spec fn wf(&self) -> bool {
        &&& 1 <= self.simplify_cos_den <= SIMPLIFY_DEN_LIMIT
        &&& -self.simplify_cos_den <= self.simplify_cos_num <= self.simplify_cos_den
    }
}

impl Default for Params {
    /// A border offset of 20 pixels, 10 smoothing iterations, and an angle
    /// tolerance of pi/30 radians: `cos(pi - pi/30)` is about -0.994522,
    /// written as -4074/4096.
    fn default() -> (r: Params)
        ensures
            r.wf(),
            r.border_offset == 20,
            r.smooth_iterations == 10,
            r.simplify_cos_num == -4074,
            r.simplify_cos_den == 4096,
    {
        Params {
            border_offset: 20,
            smooth_iterations: 10,
            simplify_cos_num: -4074,
            simplify_cos_den: 4096,
        }
    }
}

} // verus!
