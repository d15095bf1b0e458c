//! Contour simplification: removes points whose local turning angle is
//! within a tolerance of a straight line.
//!
//! The angle criterion is `|angle - pi| < eps`, where `angle` is the angle
//! at a point between the vector to the next point and the vector to the last
//! retained previous point. Because `acos` is strictly decreasing, that is
//! equivalent to `cos(angle) < cos(pi - eps)`, and `cos(angle)` is the dot
//! product of the two vectors over the product of their lengths. The library
//! therefore takes the tolerance as an exact rational `cos_num / cos_den`
//! standing for `cos(pi - eps)`, and decides deletion with pure integer
//! arithmetic: the comparison is squared, with signs handled separately, so
//! no square root or trigonometry is needed and the contract is exact.
//!
//! A point whose comparison vectors include a zero vector (duplicate
//! coordinates) is always kept: the angle is undefined there, and keeping the
//! point is the deterministic policy for that numeric degeneracy.

use vstd::prelude::*;
use vstd::arithmetic::mul::lemma_mul_inequality;
use crate::contour::Contour;
use crate::contour::Point;
use crate::contour::SCALE;
use crate::contour::SIMPLIFY_COORD_LIMIT;
use crate::contour::SIMPLIFY_DEN_LIMIT;
use crate::contour::coords_bounded;
use crate::contour::coords_in_field;
use crate::contour::cyc_next;

verus! {

/// Whether the point `cur` lies within the angle tolerance of a straight
/// line through its neighbours: with `v0 = next - cur`, `v1 = prev - cur`,
/// exactly when `v0 . v1 < (cos_num / cos_den) * |v0| * |v1|`, i.e. when
/// `cos(angle) < cos(pi - eps)`. A zero-length comparison vector never
/// deletes.
pub open spec fn should_delete(prev: Point, cur: Point, next: Point, num: int, den: int) -> bool {
    let ax = next.x - cur.x;
    let ay = next.y - cur.y;
    let bx = prev.x - cur.x;
    let by = prev.y - cur.y;
    let n0 = ax * ax + ay * ay;
    let n1 = bx * bx + by * by;
    let d = ax * bx + ay * by;
    if n0 == 0 || n1 == 0 {
        false
    } else if num >= 0 {
        d < 0 || d * d * den * den < num * num * n0 * n1
    } else {
        d < 0 && d * d * den * den > num * num * n0 * n1
    }
}

/// The deletion marks of one left-to-right pass with a running "last kept"
/// reference point `prev`: a deleted point leaves `prev` unchanged, a kept
/// point becomes the new reference.
pub open spec fn delete_marks(s: Seq<Point>, num: int, den: int, i: nat, prev: Point) -> Seq<bool>
    decreases s.len() - i,
{
    if i >= s.len() {
        Seq::empty()
    } else {
        let del = should_delete(prev, s[i as int], s[cyc_next(i as int, s.len() as int)], num, den);
        seq![del] + delete_marks(s, num, den, i + 1, if del {
            prev
        } else {
            s[i as int]
        })
    }
}

/// The points whose marks are `false`, in their original order.
pub open spec fn filter_kept(s: Seq<Point>, marks: Seq<bool>, i: nat) -> Seq<Point>
    decreases s.len() - i,
{
    if i >= s.len() {
        Seq::empty()
    } else if marks[i as int] {
        filter_kept(s, marks, i + 1)
    } else {
        seq![s[i as int]] + filter_kept(s, marks, i + 1)
    }
}

/// The simplified contour: one marking pass starting with the last point as
/// the reference, then the kept points in order.
pub open spec fn simplify_spec(s: Seq<Point>, num: int, den: int) -> Seq<Point> {
    filter_kept(s, delete_marks(s, num, den, 0, s[s.len() - 1]), 0)
}

proof fn lemma_abs_mul_le(a: int, b: int, aa: int, bb: int)
    by (nonlinear_arith)
    requires
        -aa <= a <= aa,
        -bb <= b <= bb,
        0 <= aa,
        0 <= bb,
    ensures
        -(aa * bb) <= a * b <= aa * bb,
{
}

/// The Cauchy-Schwarz inequality for integer 2D vectors, shown through the
/// Lagrange identity: the slack is the squared cross product.
proof fn lemma_cauchy_schwarz(ax: int, ay: int, bx: int, by: int)
    ensures
        (ax * bx + ay * by) * (ax * bx + ay * by) <= (ax * ax + ay * ay) * (bx * bx + by * by),
{
    assert((ax * bx) * (ay * by) == (ax * by) * (ay * bx)) by (nonlinear_arith);
    assert((ax * ax + ay * ay) * (bx * bx + by * by) == (ax * ax) * (bx * bx) + (ax * ax) * (by
        * by) + (ay * ay) * (bx * bx) + (ay * ay) * (by * by)) by (nonlinear_arith);
    assert((ax * ax) * (bx * bx) == (ax * bx) * (ax * bx)) by (nonlinear_arith);
    assert((ax * ax) * (by * by) == (ax * by) * (ax * by)) by (nonlinear_arith);
    assert((ay * ay) * (bx * bx) == (ay * bx) * (ay * bx)) by (nonlinear_arith);
    assert((ay * ay) * (by * by) == (ay * by) * (ay * by)) by (nonlinear_arith);
    assert((ax * ax + ay * ay) * (bx * bx + by * by) == (ax * bx) * (ax * bx) + (ax * by) * (ax
        * by) + (ay * bx) * (ay * bx) + (ay * by) * (ay * by));
    assert((ax * bx + ay * by) * (ax * bx + ay * by) == (ax * bx) * (ax * bx) + 2 * ((ax * bx) * (ay
        * by)) + (ay * by) * (ay * by)) by (nonlinear_arith);
    assert(((ax * by) - (ay * bx)) * ((ax * by) - (ay * bx)) == (ax * by) * (ax * by) - 2 * ((ax
        * by) * (ay * bx)) + (ay * bx) * (ay * bx)) by (nonlinear_arith);
    assert(((ax * by) - (ay * bx)) * ((ax * by) - (ay * bx)) >= 0) by (nonlinear_arith);
}

proof fn lemma_never_deleted_at_exact_tolerance(prev: Point, cur: Point, next: Point, den: int)
    requires
        1 <= den,
    ensures
        !should_delete(prev, cur, next, -den, den),
{
    let ax = next.x - cur.x;
    let ay = next.y - cur.y;
    let bx = prev.x - cur.x;
    let by = prev.y - cur.y;
    let n0 = ax * ax + ay * ay;
    let n1 = bx * bx + by * by;
    let d = ax * bx + ay * by;
    lemma_cauchy_schwarz(ax as int, ay as int, bx as int, by as int);
    assert(d * d * den * den <= n0 * n1 * (den * den)) by {
        assert(den * den >= 0) by (nonlinear_arith)
            requires
                1 <= den,
        ;
        lemma_mul_inequality(d * d, n0 * n1, den * den);
        assert(d * d * den * den == (d * d) * (den * den)) by (nonlinear_arith);
    }
    assert((-den) * (-den) * n0 * n1 == n0 * n1 * (den * den)) by (nonlinear_arith);
}

proof fn lemma_marks_all_false(s: Seq<Point>, den: int, i: nat, prev: Point)
    requires
        1 <= den,
        i <= s.len(),
    ensures
        delete_marks(s, -den, den, i, prev) =~= Seq::new((s.len() - i) as nat, |j: int| false),
    decreases s.len() - i,
{
    if i < s.len() {
        lemma_never_deleted_at_exact_tolerance(
            prev,
            s[i as int],
            s[cyc_next(i as int, s.len() as int)],
            den,
        );
        lemma_marks_all_false(s, den, i + 1, s[i as int]);
    }
}

proof fn lemma_filter_all_false(s: Seq<Point>, marks: Seq<bool>, i: nat)
    requires
        i <= s.len(),
        marks.len() == s.len(),
        forall|j: int| 0 <= j < marks.len() ==> !marks[j],
    ensures
        filter_kept(s, marks, i) =~= s.subrange(i as int, s.len() as int),
    decreases s.len() - i,
{
    if i < s.len() {
        lemma_filter_all_false(s, marks, i + 1);
    }
}

proof fn lemma_filter_kept_bounded(s: Seq<Point>, marks: Seq<bool>, i: nat, b: int)
    requires
        coords_bounded(s, b),
        i <= s.len(),
    ensures
        coords_bounded(filter_kept(s, marks, i), b),
    decreases s.len() - i,
{
    if i < s.len() {
        lemma_filter_kept_bounded(s, marks, i + 1, b);
        if !marks[i as int] {
            let r = filter_kept(s, marks, i);
            let t = filter_kept(s, marks, i + 1);
            assert forall|j: int| 0 <= j < r.len() implies 0 <= #[trigger] r[j].x <= b && 0
                <= r[j].y <= b by {
                if j == 0 {
                    assert(r[0] == s[i as int]);
                } else {
                    assert(r[j] == t[j - 1]);
                }
            }
        }
    }
}

proof fn lemma_filter_kept_len(s: Seq<Point>, marks: Seq<bool>, i: nat)
    requires
        i <= s.len(),
    ensures
        filter_kept(s, marks, i).len() <= s.len() - i,
    decreases s.len() - i,
{
    if i < s.len() {
        lemma_filter_kept_len(s, marks, i + 1);
    }
}

/// The simplifier never adds points.
pub proof fn lemma_simplify_spec_len(s: Seq<Point>, num: int, den: int)
    requires
        s.len() >= 1,
    ensures
        simplify_spec(s, num, den).len() <= s.len(),
{
    lemma_filter_kept_len(s, delete_marks(s, num, den, 0, s[s.len() - 1]), 0);
}

/// Every point kept by the simplifier is a point of the input, so any
/// coordinate bound on the input holds of the output.
pub proof fn lemma_simplify_spec_bounded(s: Seq<Point>, num: int, den: int, b: int)
    requires
        s.len() >= 1,
        coords_bounded(s, b),
    ensures
        coords_bounded(simplify_spec(s, num, den), b),
{
    lemma_filter_kept_bounded(s, delete_marks(s, num, den, 0, s[s.len() - 1]), 0, b);
}

proof fn lemma_filter_kept_in_field(s: Seq<Point>, marks: Seq<bool>, i: nat, w: int, h: int)
    requires
        coords_in_field(s, w, h),
        i <= s.len(),
    ensures
        coords_in_field(filter_kept(s, marks, i), w, h),
    decreases s.len() - i,
{
    if i < s.len() {
        lemma_filter_kept_in_field(s, marks, i + 1, w, h);
        if !marks[i as int] {
            let r = filter_kept(s, marks, i);
            let t = filter_kept(s, marks, i + 1);
            assert forall|j: int| 0 <= j < r.len() implies 0 <= #[trigger] r[j].x <= SCALE * w && 0
                <= r[j].y <= SCALE * h by {
                if j == 0 {
                    assert(r[0] == s[i as int]);
                } else {
                    assert(r[j] == t[j - 1]);
                }
            }
        }
    }
}

/// The simplifier's output stays inside the field extent of its input.
pub proof fn lemma_simplify_spec_in_field(s: Seq<Point>, num: int, den: int, w: int, h: int)
    requires
        s.len() >= 1,
        coords_in_field(s, w, h),
    ensures
        coords_in_field(simplify_spec(s, num, den), w, h),
{
    lemma_filter_kept_in_field(s, delete_marks(s, num, den, 0, s[s.len() - 1]), 0, w, h);
}

/// Simplifying with the tolerance `eps = 0` — that is, with
/// `cos(pi - eps) = -1`, written exactly as `-den / den` — removes no point:
/// the output is the input, so the point count never drops.
pub proof fn lemma_simplify_zero_tolerance_is_identity(s: Seq<Point>, den: int)
    requires
        s.len() >= 1,
        1 <= den,
    ensures
        simplify_spec(s, -den, den) == s,
{
    let marks = delete_marks(s, -den, den, 0, s[s.len() - 1]);
    lemma_marks_all_false(s, den, 0, s[s.len() - 1]);
    lemma_filter_all_false(s, marks, 0);
    assert(s.subrange(0, s.len() as int) =~= s);
}

impl Contour {
    /// Removes the points whose turning angle is within the tolerance of a
    /// straight line, comparing each point against its next point and the
    /// last retained previous point. The tolerance is the exact rational
    /// `cos_num / cos_den` standing for `cos(pi - eps)`.
    pub fn simplify(self, cos_num: i64, cos_den: i64) -> (r: Contour)
        requires
            self@.len() >= 1,
            1 <= cos_den <= SIMPLIFY_DEN_LIMIT,
            -cos_den <= cos_num <= cos_den,
            coords_bounded(self@, SIMPLIFY_COORD_LIMIT as int),
        ensures
            r@ == simplify_spec(self@, cos_num as int, cos_den as int),
    {
        let ghost num = cos_num as int;
        let ghost den = cos_den as int;
        let n = self.points.len();
        let ghost full_marks = delete_marks(self@, num, den, 0, self@[n - 1]);
        let mut marks: Vec<bool> = Vec::new();
        let mut prev_point = self.points[n - 1];
        let mut i: usize = 0;
        while i < n
            invariant
                n == self@.len(),
                1 <= n,
                1 <= cos_den <= SIMPLIFY_DEN_LIMIT,
                -cos_den <= cos_num <= cos_den,
                num == cos_num as int,
                den == cos_den as int,
                coords_bounded(self@, SIMPLIFY_COORD_LIMIT as int),
                i <= n,
                marks@.len() == i,
                full_marks == delete_marks(self@, num, den, 0, self@[n - 1]),
                full_marks =~= marks@ + delete_marks(self@, num, den, i as nat, prev_point),
                prev_point == self@[n - 1] || exists|j: int|
                    0 <= j < i && prev_point == self@[j],
            decreases n - i,
        {
            let cur = self.points[i];
            let next_i = if i == n - 1 {
                0
            } else {
                i + 1
            };
            let next = self.points[next_i];
            let del = decide_deletion(prev_point, cur, next, cos_num, cos_den);
            proof {
                assert(full_marks =~= (marks@ + seq![del]) + delete_marks(
                    self@,
                    num,
                    den,
                    (i + 1) as nat,
                    if del {
                        prev_point
                    } else {
                        self@[i as int]
                    },
                ));
            }
            marks.push(del);
            if !del {
                prev_point = cur;
            }
            i = i + 1;
        }
        proof {
            assert(marks@ =~= full_marks);
        }
        let mut kept = Contour::new();
        let mut j: usize = 0;
        while j < n
            invariant
                n == self@.len(),
                marks@ == full_marks,
                marks@.len() == n,
                j <= n,
                filter_kept(self@, full_marks, 0) =~= kept@ + filter_kept(
                    self@,
                    full_marks,
                    j as nat,
                ),
            decreases n - j,
        {
            if !marks[j] {
                kept.push(self.points[j]);
            }
            j = j + 1;
        }
        kept
    }
}

/// Evaluates the deletion criterion in exact integer arithmetic.
fn decide_deletion(prev: Point, cur: Point, next: Point, cos_num: i64, cos_den: i64) -> (r: bool)
    requires
        1 <= cos_den <= SIMPLIFY_DEN_LIMIT,
        -cos_den <= cos_num <= cos_den,
        0 <= prev.x <= SIMPLIFY_COORD_LIMIT,
        0 <= prev.y <= SIMPLIFY_COORD_LIMIT,
        0 <= cur.x <= SIMPLIFY_COORD_LIMIT,
        0 <= cur.y <= SIMPLIFY_COORD_LIMIT,
        0 <= next.x <= SIMPLIFY_COORD_LIMIT,
        0 <= next.y <= SIMPLIFY_COORD_LIMIT,
    ensures
        r == should_delete(prev, cur, next, cos_num as int, cos_den as int),
{
    let ax = next.x as i128 - cur.x as i128;
    let ay = next.y as i128 - cur.y as i128;
    let bx = prev.x as i128 - cur.x as i128;
    let by = prev.y as i128 - cur.y as i128;
    proof {
        assert(ax as int * ax as int >= 0) by (nonlinear_arith);
        assert(ay as int * ay as int >= 0) by (nonlinear_arith);
        assert(bx as int * bx as int >= 0) by (nonlinear_arith);
        assert(by as int * by as int >= 0) by (nonlinear_arith);
        lemma_abs_mul_le(ax as int, ax as int, 16_777_216, 16_777_216);
        lemma_abs_mul_le(ay as int, ay as int, 16_777_216, 16_777_216);
        lemma_abs_mul_le(bx as int, bx as int, 16_777_216, 16_777_216);
        lemma_abs_mul_le(by as int, by as int, 16_777_216, 16_777_216);
        lemma_abs_mul_le(ax as int, bx as int, 16_777_216, 16_777_216);
        lemma_abs_mul_le(ay as int, by as int, 16_777_216, 16_777_216);
    }
    let n0 = ax * ax + ay * ay;
    let n1 = bx * bx + by * by;
    let d = ax * bx + ay * by;
    let dd = cos_den as i128;
    let nn = cos_num as i128;
    if n0 == 0 || n1 == 0 {
        false
    } else {
        proof {
            assert(d as int * d as int >= 0) by (nonlinear_arith);
            lemma_abs_mul_le(d as int, d as int, 562_949_953_421_312, 562_949_953_421_312);
            lemma_abs_mul_le(
                d as int * d as int,
                dd as int,
                316_912_650_057_057_350_374_175_801_344,
                4096,
            );
            lemma_abs_mul_le(
                d as int * d as int * dd as int,
                dd as int,
                1_298_074_214_633_706_907_132_624_082_305_024,
                4096,
            );
            lemma_abs_mul_le(nn as int, nn as int, 4096, 4096);
            lemma_abs_mul_le(nn as int * nn as int, n0 as int, 16_777_216, 562_949_953_421_312);
            lemma_abs_mul_le(
                nn as int * nn as int * n0 as int,
                n1 as int,
                9_444_732_965_739_290_427_392,
                562_949_953_421_312,
            );
        }
        let lhs = d * d * dd * dd;
        let rhs = nn * nn * n0 * n1;
        if cos_num >= 0 {
            d < 0 || lhs < rhs
        } else {
            d < 0 && lhs > rhs
        }
    }
}

} // verus!
