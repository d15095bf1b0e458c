//! Polygon triangulation, delegated to an external ear-clipping
//! implementation working on exact integer coordinates.

use vstd::prelude::*;
use crate::contour::Point;

verus! {

/// What the external ear-clipping triangulation returns for a polygon's
/// point list: `None` when the polygon is rejected as degenerate, otherwise
/// the triangle index triples. The implementation draws ear candidates from
/// a fixed-seed generator, so the result is a function of the points alone.
pub uninterp spec fn earclip_triangulation(points: Seq<(i64, i64)>) -> Option<
    Seq<(usize, usize, usize)>,
>;

/// A contour's points as plain coordinate pairs.
pub open spec fn coord_pairs(s: Seq<Point>) -> Seq<(i64, i64)> {
    s.map_values(|p: Point| (p.x, p.y))
}

/// Relies on rgeometry's `Polygon::new` and `earclip`: `Polygon::new`
/// rejects polygons with fewer than three vertices, duplicate points, a
/// collinear ring or self-intersections; `earclip` then clips a validated
/// simple polygon into exactly `n - 2` triangles whose `PointId`s index the
/// point list given to `Polygon::new`, in its original order.
#[verifier::external_body]
fn earclip_polygon(points: &Vec<Point>) -> (r: Option<Vec<(usize, usize, usize)>>)
    ensures
        (match r {
            Some(tris) => Some(tris@),
            None => None,
        }) == earclip_triangulation(coord_pairs(points@)),
        points@.len() < 3 ==> r is None,
        (match r {
            Some(tris) => points@.len() >= 3 && tris@.len() == points@.len() - 2 && forall|j: int|
                0 <= j < tris@.len() ==> #[trigger] tris@[j].0 < points@.len() && tris@[j].1
                    < points@.len() && tris@[j].2 < points@.len(),
            None => true,
        }),
{
    let pts: Vec<rgeometry::data::Point<i64, 2>> = points.iter().map(
        |p| rgeometry::data::Point::new([p.x, p.y]),
    ).collect();
    match rgeometry::data::Polygon::new(pts) {
        Err(_) => None,
        Ok(poly) => Some(
            rgeometry::algorithms::triangulation::earclip::earclip(&poly).map(
                |(a, b, c)| (a.usize(), b.usize(), c.usize()),
            ).collect(),
        ),
    }
}

/// Triangulates the interior of a simple polygon given by its boundary
/// points, or returns `None` when the polygon is degenerate (fewer than
/// three vertices, duplicate points, collinear, or self-intersecting).
pub fn triangulate(points: &Vec<Point>) -> (r: Option<Vec<(usize, usize, usize)>>)
    ensures
        (match r {
            Some(tris) => Some(tris@),
            None => None,
        }) == earclip_triangulation(coord_pairs(points@)),
        points@.len() < 3 ==> r is None,
        (match r {
            Some(tris) => points@.len() >= 3 && tris@.len() == points@.len() - 2 && forall|j: int|
                0 <= j < tris@.len() ==> #[trigger] tris@[j].0 < points@.len() && tris@[j].1
                    < points@.len() && tris@[j].2 < points@.len(),
            None => true,
        }),
{
    earclip_polygon(points)
}

} // verus!
