//! Mesh extrusion: turns a simplified, unit-scaled contour and a
//! triangulation of its interior into a watertight solid — front cap at
//! `z = 0`, back cap at `z = thickness`, side walls joining the two rings —
//! with per-vertex normals and optional texture coordinates.
//!
//! All geometry is fixed-point: `SCALE` units are one unit of mesh space.
//! Cap vertices are positioned by the mirroring transform `0.5 - p` applied
//! identically to both rings; cap triangles reuse the external triangulation
//! with the front winding reversed so both faces look outward; each edge of
//! the contour contributes two consistently oriented side triangles.

use vstd::prelude::*;
use vstd::arithmetic::div_mod::lemma_div_is_ordered;
use vstd::arithmetic::div_mod::lemma_div_multiples_vanish;
use vstd::arithmetic::div_mod::lemma_div_pos_is_pos;
use vstd::arithmetic::mul::lemma_mul_inequality;
use crate::contour;
use crate::contour::Contour;
use crate::contour::Point;
use crate::contour::SCALE;
use crate::contour::coords_bounded;
use crate::contour::cyc_next;
use crate::contour::cyc_prev;
use crate::field::ScalarField;
use crate::isqrt::isqrt;
use crate::isqrt::sqrt_floor;
use crate::trace::ContourError;
use crate::trace::FIELD_THRESHOLD;
use crate::trace::contour_from_field;
use crate::trace::pipeline_outcome;
use crate::tri::coord_pairs;
use crate::tri::earclip_triangulation;
use crate::tri::triangulate;

verus! {

/// Half of `SCALE`: 0.5 in fixed-point form.
pub const HALF_SCALE: i64 = 500;

/// Largest contour the extruder accepts; keeps every vertex index far
/// inside the `usize` range.
pub const MESH_POINT_LIMIT: usize = 300_000_000;

/// A mesh vertex or normal vector, in fixed-point coordinates.
#[derive(Clone, Copy, PartialEq, Eq, Structural, Debug)]
pub struct Vertex {
    pub x: i64,
    pub y: i64,
    pub z: i64,
}

/// A texture coordinate, in fixed-point units (`SCALE` = 1.0).
#[derive(Clone, Copy, PartialEq, Eq, Structural, Debug)]
pub struct UvVertex {
    pub u: i64,
    pub v: i64,
    pub w: i64,
}

/// One triangle corner: indices into the vertex, texture and normal lists.
#[derive(Clone, Copy, PartialEq, Eq, Structural, Debug)]
pub struct VertexRef {
    pub vertex: usize,
    pub uv: usize,
    pub normal: usize,
}

/// A triangle of three corners.
#[derive(Clone, Copy, PartialEq, Eq, Structural, Debug)]
pub struct Triangle {
    pub a: VertexRef,
    pub b: VertexRef,
    pub c: VertexRef,
}

/// A 3D mesh: vertex positions, triangles, texture coordinates and normals.
pub struct Mesh {
    pub vertices: Vec<Vertex>,
    pub triangles: Vec<Triangle>,
    pub uv_vertices: Vec<UvVertex>,
    pub normals: Vec<Vertex>,
}

/// Why no mesh could be produced.
#[derive(Clone, Copy, PartialEq, Eq, Structural, Debug)]
pub enum MeshError {
    /// The contour stage failed; the payload says why.
    Contour(ContourError),
    /// The contour has fewer than three points, or the triangulator
    /// rejected the polygon as degenerate.
    DegenerateGeometry,
}

/// Mesh parameters: the contour pipeline's parameters, the extrusion
/// thickness in fixed-point units (`SCALE` = 1.0), and whether texture
/// coordinates are generated.
pub struct Params {
    pub contour_params: contour::Params,
    pub thickness: i64,
    pub include_uvs: bool,
}

impl Default for Params {
    /// Default contour parameters, a thickness of 0.05 (50 fixed-point
    /// units), and texture coordinates switched on.
    fn default() -> (r: Params)
        ensures
            r.contour_params.wf(),
            r.contour_params.border_offset == 20,
            r.contour_params.smooth_iterations == 10,
            r.contour_params.simplify_cos_num == -4074,
            r.contour_params.simplify_cos_den == 4096,
            r.thickness == 50,
            r.include_uvs == true,
    {
        Params { contour_params: contour::Params::default(), thickness: 50, include_uvs: true }
    }
}

/// The front-cap position of a contour point: mirrored about the image
/// centre, at depth zero.
pub open spec fn front_vertex(p: Point) -> Vertex {
    Vertex {
        x: (HALF_SCALE as int - p.x as int) as i64,
        y: (HALF_SCALE as int - p.y as int) as i64,
        z: 0,
    }
}

/// The back-cap position: the same mirrored point at depth `thickness`.
pub open spec fn back_vertex(p: Point, thickness: i64) -> Vertex {
    Vertex {
        x: (HALF_SCALE as int - p.x as int) as i64,
        y: (HALF_SCALE as int - p.y as int) as i64,
        z: thickness,
    }
}

/// The texture coordinate of a contour point: the normalized position with
/// the v axis flipped.
pub open spec fn uv_vertex(p: Point) -> UvVertex {
    UvVertex { u: p.x, v: (SCALE as int - p.y as int) as i64, w: 0 }
}

/// A cap corner: vertex, texture and normal all share one index.
pub open spec fn vref(i: int) -> VertexRef {
    VertexRef { vertex: i as usize, uv: i as usize, normal: i as usize }
}

/// A cap triangle of three shared-index corners.
pub open spec fn cap_triangle(a: int, b: int, c: int) -> Triangle {
    Triangle { a: vref(a), b: vref(b), c: vref(c) }
}

/// A side-wall corner: a cap vertex index paired with a side normal index.
pub open spec fn svref(v: int, m: int) -> VertexRef {
    VertexRef { vertex: v as usize, uv: v as usize, normal: m as usize }
}

/// The first side triangle of the edge `(i, nx)` in a contour of `n` points.
pub open spec fn side_triangle_a(i: int, nx: int, n: int) -> Triangle {
    Triangle {
        a: svref(i, i + 2 * n),
        b: svref(nx + n, nx + 2 * n),
        c: svref(i + n, i + 2 * n),
    }
}

/// The second side triangle of the edge `(i, nx)`.
pub open spec fn side_triangle_b(i: int, nx: int, n: int) -> Triangle {
    Triangle {
        a: svref(i, i + 2 * n),
        b: svref(nx, nx + 2 * n),
        c: svref(nx + n, nx + 2 * n),
    }
}

/// Division by two, rounding toward zero.
pub open spec fn half_toward_zero(v: int) -> int {
    if v >= 0 {
        v / 2
    } else {
        -((-v) / 2)
    }
}

/// `v * SCALE / len`, rounding toward zero.
pub open spec fn sdiv_scaled(v: int, len: int) -> int {
    if v >= 0 {
        (v * SCALE) / len
    } else {
        -(((-v) * SCALE) / len)
    }
}

/// The outward normal of the directed edge `a -> b`: the edge direction
/// rotated a quarter turn, at unit length in fixed-point form. A
/// zero-length edge has the zero normal — the deterministic policy for that
/// numeric degeneracy.
pub open spec fn edge_normal(a: Point, b: Point) -> (int, int) {
    let dx = b.x as int - a.x as int;
    let dy = b.y as int - a.y as int;
    let n2 = dx * dx + dy * dy;
    if n2 == 0 {
        (0, 0)
    } else {
        let len = sqrt_floor(n2);
        (sdiv_scaled(dy, len), sdiv_scaled(-dx, len))
    }
}

/// The side normal at a point: the average of the outward normals of its
/// incoming and outgoing edges, with zero depth component.
pub open spec fn side_normal(prev: Point, cur: Point, next: Point) -> Vertex {
    let n0 = edge_normal(prev, cur);
    let n1 = edge_normal(cur, next);
    Vertex {
        x: half_toward_zero(n0.0 + n1.0) as i64,
        y: half_toward_zero(n0.1 + n1.1) as i64,
        z: 0,
    }
}

/// The complete shape of an extruded mesh: front and back vertex rings, cap
/// triangles in both windings, two side triangles per contour edge, cap and
/// side normals, and optional texture coordinates.
pub open spec fn mesh_matches(
    m: Mesh,
    s: Seq<Point>,
    tris: Seq<(usize, usize, usize)>,
    thickness: i64,
    include_uvs: bool,
) -> bool {
    let n = s.len() as int;
    let t = tris.len() as int;
    &&& m.vertices@.len() == 2 * n
    &&& forall|i: int| 0 <= i < n ==> #[trigger] m.vertices@[i] == front_vertex(s[i])
    &&& forall|i: int| 0 <= i < n ==> #[trigger] m.vertices@[n + i] == back_vertex(s[i], thickness)
    &&& m.triangles@.len() == 2 * t + 2 * n
    &&& forall|j: int|
        0 <= j < t ==> #[trigger] m.triangles@[j] == cap_triangle(
            tris[j].0 as int,
            tris[j].2 as int,
            tris[j].1 as int,
        )
    &&& forall|j: int|
        0 <= j < t ==> #[trigger] m.triangles@[t + j] == cap_triangle(
            tris[j].0 + n,
            tris[j].1 + n,
            tris[j].2 + n,
        )
    &&& forall|i: int|
        0 <= i < n ==> #[trigger] m.triangles@[2 * t + 2 * i] == side_triangle_a(
            i,
            cyc_next(i, n),
            n,
        )
    &&& forall|i: int|
        0 <= i < n ==> #[trigger] m.triangles@[2 * t + 2 * i + 1] == side_triangle_b(
            i,
            cyc_next(i, n),
            n,
        )
    &&& m.normals@.len() == 3 * n
    &&& forall|i: int|
        0 <= i < n ==> #[trigger] m.normals@[i] == (Vertex {
            x: 0,
            y: 0,
            z: (-(SCALE as int)) as i64,
        })
    &&& forall|i: int| 0 <= i < n ==> #[trigger] m.normals@[n + i] == (Vertex { x: 0, y: 0, z: SCALE })
    &&& forall|i: int|
        0 <= i < n ==> #[trigger] m.normals@[2 * n + i] == side_normal(
            s[cyc_prev(i, n)],
            s[i],
            s[cyc_next(i, n)],
        )
    &&& m.uv_vertices@.len() == (if include_uvs {
        2 * n
    } else {
        0int
    })
    &&& include_uvs ==> forall|i: int|
        0 <= i < n ==> #[trigger] m.uv_vertices@[i] == uv_vertex(s[i]) && m.uv_vertices@[n + i]
            == uv_vertex(s[i])
}

/// Evaluates `sdiv_scaled` on bounded inputs.
fn sdiv_scaled_exec(v: i64, len: u64) -> (r: i64)
    requires
        1 <= len <= 3000,
        -3000 <= v <= 3000,
    ensures
        r as int == sdiv_scaled(v as int, len as int),
{
    if v >= 0 {
        (((v as u64) * 1000) / len) as i64
    } else {
        -(((((-v) as u64) * 1000) / len) as i64)
    }
}

/// Evaluates `edge_normal` and bounds its components by `SCALE`.
fn edge_normal_exec(a: Point, b: Point) -> (r: (i64, i64))
    requires
        0 <= a.x <= SCALE,
        0 <= a.y <= SCALE,
        0 <= b.x <= SCALE,
        0 <= b.y <= SCALE,
    ensures
        (r.0 as int, r.1 as int) == edge_normal(a, b),
        -SCALE <= r.0 <= SCALE,
        -SCALE <= r.1 <= SCALE,
{
    let dx = b.x - a.x;
    let dy = b.y - a.y;
    proof {
        assert(dx * dx <= 1_000_000 && dy * dy <= 1_000_000 && dx * dx >= 0 && dy * dy >= 0)
            by (nonlinear_arith)
            requires
                -1000 <= dx <= 1000,
                -1000 <= dy <= 1000,
        ;
    }
    let n2 = (dx * dx + dy * dy) as u64;
    if n2 == 0 {
        (0, 0)
    } else {
        let len = isqrt(n2);
        proof {
            assert(1 <= len && len <= 1500) by (nonlinear_arith)
                requires
                    len as int * len as int <= 2_000_000,
                    (n2 as int) < (len as int + 1) * (len as int + 1),
                    n2 >= 1,
                    len >= 0,
            ;
            lemma_edge_component_bound(dx as int, len as int, n2 as int);
            lemma_edge_component_bound(dy as int, len as int, n2 as int);
        }
        let nx = sdiv_scaled_exec(dy, len);
        let ny = sdiv_scaled_exec(-dx, len);
        proof {
            lemma_sdiv_scaled_bound(dy as int, len as int);
            lemma_sdiv_scaled_bound(-(dx as int), len as int);
        }
        (nx, ny)
    }
}

/// A coordinate whose square is at most `n2 < (len + 1)^2` is at most `len`
/// in magnitude.
proof fn lemma_edge_component_bound(d: int, len: int, n2: int)
    requires
        d * d <= n2,
        n2 < (len + 1) * (len + 1),
        len >= 0,
    ensures
        -len <= d <= len,
{
    assert(-len <= d <= len) by (nonlinear_arith)
        requires
            d * d <= n2,
            n2 < (len + 1) * (len + 1),
            len >= 0,
    ;
}

/// `sdiv_scaled` of a component no larger than the length stays within
/// `SCALE`.
proof fn lemma_sdiv_scaled_bound(v: int, len: int)
    requires
        1 <= len,
        -len <= v <= len,
    ensures
        -SCALE <= sdiv_scaled(v, len) <= SCALE,
{
    if v >= 0 {
        lemma_mul_inequality(v, len, SCALE as int);
        lemma_div_pos_is_pos(v * SCALE, len);
        lemma_div_is_ordered(v * SCALE, len * SCALE, len);
        lemma_div_multiples_vanish(SCALE as int, len);
        assert(len * SCALE == SCALE * len) by (nonlinear_arith);
    } else {
        lemma_mul_inequality(-v, len, SCALE as int);
        lemma_div_pos_is_pos((-v) * SCALE, len);
        lemma_div_is_ordered((-v) * SCALE, len * SCALE, len);
        lemma_div_multiples_vanish(SCALE as int, len);
        assert(len * SCALE == SCALE * len) by (nonlinear_arith);
    }
}

/// Evaluates `side_normal`.
fn side_normal_exec(prev: Point, cur: Point, next: Point) -> (r: Vertex)
    requires
        0 <= prev.x <= SCALE,
        0 <= prev.y <= SCALE,
        0 <= cur.x <= SCALE,
        0 <= cur.y <= SCALE,
        0 <= next.x <= SCALE,
        0 <= next.y <= SCALE,
    ensures
        r == side_normal(prev, cur, next),
{
    let n0 = edge_normal_exec(prev, cur);
    let n1 = edge_normal_exec(cur, next);
    let sx = n0.0 + n1.0;
    let sy = n0.1 + n1.1;
    let hx = if sx >= 0 {
        ((sx as u64) / 2) as i64
    } else {
        -((((-sx) as u64) / 2) as i64)
    };
    let hy = if sy >= 0 {
        ((sy as u64) / 2) as i64
    } else {
        -((((-sy) as u64) / 2) as i64)
    };
    Vertex { x: hx, y: hy, z: 0 }
}

/// Extrudes a simplified, unit-scaled contour into a solid, given a
/// triangulation of its interior as index triples into the contour. A
/// contour of fewer than three points is a construction failure.
#[verifier::rlimit(60)]
pub fn extrude_mesh(
    contour: &Contour,
    triangulation: &Vec<(usize, usize, usize)>,
    thickness: i64,
    include_uvs: bool,
) -> (r: Result<Mesh, MeshError>)
    requires
        coords_bounded(contour@, SCALE as int),
        contour@.len() <= MESH_POINT_LIMIT,
        triangulation@.len() <= MESH_POINT_LIMIT,
        forall|j: int|
            0 <= j < triangulation@.len() ==> #[trigger] triangulation@[j].0 < contour@.len()
                && triangulation@[j].1 < contour@.len() && triangulation@[j].2 < contour@.len(),
    ensures
        (match r {
            Result::Ok(m) => contour@.len() >= 3 && mesh_matches(
                m,
                contour@,
                triangulation@,
                thickness,
                include_uvs,
            ),
            Result::Err(e) => e == MeshError::DegenerateGeometry && contour@.len() < 3,
        }),
{
    let n = contour.len();
    if n < 3 {
        return Result::Err(MeshError::DegenerateGeometry);
    }
    let t = triangulation.len();
    let ghost s = contour@;
    let ghost tr = triangulation@;

    let mut vertices: Vec<Vertex> = Vec::new();
    let mut i: usize = 0;
    while i < n
        invariant
            s == contour@,
            n == s.len(),
            coords_bounded(s, SCALE as int),
            i <= n,
            vertices@.len() == i,
            forall|j: int| 0 <= j < i ==> #[trigger] vertices@[j] == front_vertex(s[j]),
        decreases n - i,
    {
        let p = contour.point_at(i);
        vertices.push(Vertex { x: HALF_SCALE - p.x, y: HALF_SCALE - p.y, z: 0 });
        i = i + 1;
    }
    let mut i: usize = 0;
    while i < n
        invariant
            s == contour@,
            n == s.len(),
            coords_bounded(s, SCALE as int),
            i <= n,
            vertices@.len() == n + i,
            forall|j: int| 0 <= j < n ==> #[trigger] vertices@[j] == front_vertex(s[j]),
            forall|j: int|
                0 <= j < i ==> #[trigger] vertices@[n + j] == back_vertex(s[j], thickness),
        decreases n - i,
    {
        let p = contour.point_at(i);
        vertices.push(Vertex { x: HALF_SCALE - p.x, y: HALF_SCALE - p.y, z: thickness });
        i = i + 1;
    }

    let mut triangles: Vec<Triangle> = Vec::new();
    let mut j: usize = 0;
    while j < t
        invariant
            tr == triangulation@,
            t == tr.len(),
            j <= t,
            triangles@.len() == j,
            forall|k: int|
                0 <= k < j ==> #[trigger] triangles@[k] == cap_triangle(
                    tr[k].0 as int,
                    tr[k].2 as int,
                    tr[k].1 as int,
                ),
        decreases t - j,
    {
        let tri = triangulation[j];
        triangles.push(
            Triangle {
                a: VertexRef { vertex: tri.0, uv: tri.0, normal: tri.0 },
                b: VertexRef { vertex: tri.2, uv: tri.2, normal: tri.2 },
                c: VertexRef { vertex: tri.1, uv: tri.1, normal: tri.1 },
            },
        );
        j = j + 1;
    }
    let mut j: usize = 0;
    while j < t
        invariant
            tr == triangulation@,
            t == tr.len(),
            s == contour@,
            n == s.len(),
            n <= MESH_POINT_LIMIT,
            t <= MESH_POINT_LIMIT,
            forall|k: int|
                0 <= k < t ==> #[trigger] tr[k].0 < n && tr[k].1 < n && tr[k].2 < n,
            j <= t,
            triangles@.len() == t + j,
            forall|k: int|
                0 <= k < t ==> #[trigger] triangles@[k] == cap_triangle(
                    tr[k].0 as int,
                    tr[k].2 as int,
                    tr[k].1 as int,
                ),
            forall|k: int|
                0 <= k < j ==> #[trigger] triangles@[t + k] == cap_triangle(
                    tr[k].0 + n as int,
                    tr[k].1 + n as int,
                    tr[k].2 + n as int,
                ),
        decreases t - j,
    {
        let tri = triangulation[j];
        triangles.push(
            Triangle {
                a: VertexRef { vertex: tri.0 + n, uv: tri.0 + n, normal: tri.0 + n },
                b: VertexRef { vertex: tri.1 + n, uv: tri.1 + n, normal: tri.1 + n },
                c: VertexRef { vertex: tri.2 + n, uv: tri.2 + n, normal: tri.2 + n },
            },
        );
        j = j + 1;
    }
    let mut i: usize = 0;
    while i < n
        invariant
            tr == triangulation@,
            t == tr.len(),
            s == contour@,
            n == s.len(),
            n <= MESH_POINT_LIMIT,
            t <= MESH_POINT_LIMIT,
            i <= n,
            triangles@.len() == 2 * t + 2 * i,
            forall|k: int|
                0 <= k < t ==> #[trigger] triangles@[k] == cap_triangle(
                    tr[k].0 as int,
                    tr[k].2 as int,
                    tr[k].1 as int,
                ),
            forall|k: int|
                0 <= k < t ==> #[trigger] triangles@[t + k] == cap_triangle(
                    tr[k].0 + n as int,
                    tr[k].1 + n as int,
                    tr[k].2 + n as int,
                ),
            forall|k: int|
                0 <= k < i ==> #[trigger] triangles@[2 * t + 2 * k] == side_triangle_a(
                    k,
                    cyc_next(k, n as int),
                    n as int,
                ),
            forall|k: int|
                0 <= k < i ==> #[trigger] triangles@[2 * t + 2 * k + 1] == side_triangle_b(
                    k,
                    cyc_next(k, n as int),
                    n as int,
                ),
        decreases n - i,
    {
        let next = if i == n - 1 {
            0
        } else {
            i + 1
        };
        triangles.push(
            Triangle {
                a: VertexRef { vertex: i, uv: i, normal: i + 2 * n },
                b: VertexRef { vertex: next + n, uv: next + n, normal: next + 2 * n },
                c: VertexRef { vertex: i + n, uv: i + n, normal: i + 2 * n },
            },
        );
        triangles.push(
            Triangle {
                a: VertexRef { vertex: i, uv: i, normal: i + 2 * n },
                b: VertexRef { vertex: next, uv: next, normal: next + 2 * n },
                c: VertexRef { vertex: next + n, uv: next + n, normal: next + 2 * n },
            },
        );
        i = i + 1;
    }

    let mut normals: Vec<Vertex> = Vec::new();
    let mut i: usize = 0;
    while i < n
        invariant
            s == contour@,
            n == s.len(),
            i <= n,
            normals@.len() == i,
            forall|j: int|
                0 <= j < i ==> #[trigger] normals@[j] == (Vertex {
                    x: 0,
                    y: 0,
                    z: (-(SCALE as int)) as i64,
                }),
        decreases n - i,
    {
        normals.push(Vertex { x: 0, y: 0, z: -SCALE });
        i = i + 1;
    }
    let mut i: usize = 0;
    while i < n
        invariant
            s == contour@,
            n == s.len(),
            i <= n,
            normals@.len() == n + i,
            forall|j: int|
                0 <= j < n ==> #[trigger] normals@[j] == (Vertex {
                    x: 0,
                    y: 0,
                    z: (-(SCALE as int)) as i64,
                }),
            forall|j: int| 0 <= j < i ==> #[trigger] normals@[n + j] == (Vertex {
                x: 0,
                y: 0,
                z: SCALE,
            }),
        decreases n - i,
    {
        normals.push(Vertex { x: 0, y: 0, z: SCALE });
        i = i + 1;
    }
    let mut i: usize = 0;
    while i < n
        invariant
            s == contour@,
            n == s.len(),
            3 <= n,
            n <= MESH_POINT_LIMIT,
            coords_bounded(s, SCALE as int),
            i <= n,
            normals@.len() == 2 * n + i,
            forall|j: int|
                0 <= j < n ==> #[trigger] normals@[j] == (Vertex {
                    x: 0,
                    y: 0,
                    z: (-(SCALE as int)) as i64,
                }),
            forall|j: int| 0 <= j < n ==> #[trigger] normals@[n + j] == (Vertex {
                x: 0,
                y: 0,
                z: SCALE,
            }),
            forall|j: int|
                0 <= j < i ==> #[trigger] normals@[2 * n + j] == side_normal(
                    s[cyc_prev(j, n as int)],
                    s[j],
                    s[cyc_next(j, n as int)],
                ),
        decreases n - i,
    {
        let prev = if i == 0 {
            n - 1
        } else {
            i - 1
        };
        let next = if i == n - 1 {
            0
        } else {
            i + 1
        };
        let nrm = side_normal_exec(contour.point_at(prev), contour.point_at(i), contour.point_at(next));
        normals.push(nrm);
        i = i + 1;
    }

    let mut uv_vertices: Vec<UvVertex> = Vec::new();
    if include_uvs {
        let mut i: usize = 0;
        while i < n
            invariant
                s == contour@,
                n == s.len(),
                coords_bounded(s, SCALE as int),
                i <= n,
                uv_vertices@.len() == i,
                forall|j: int| 0 <= j < i ==> #[trigger] uv_vertices@[j] == uv_vertex(s[j]),
            decreases n - i,
        {
            let p = contour.point_at(i);
            uv_vertices.push(UvVertex { u: p.x, v: SCALE - p.y, w: 0 });
            i = i + 1;
        }
        let mut i: usize = 0;
        while i < n
            invariant
                s == contour@,
                n == s.len(),
                coords_bounded(s, SCALE as int),
                i <= n,
                uv_vertices@.len() == n + i,
                forall|j: int| 0 <= j < n ==> #[trigger] uv_vertices@[j] == uv_vertex(s[j]),
                forall|j: int| 0 <= j < i ==> #[trigger] uv_vertices@[n + j] == uv_vertex(s[j]),
            decreases n - i,
        {
            let p = contour.point_at(i);
            uv_vertices.push(UvVertex { u: p.x, v: SCALE - p.y, w: 0 });
            i = i + 1;
        }
    }

    Result::Ok(Mesh { vertices, triangles, uv_vertices, normals })
}

/// Builds the mesh of a scalar field's silhouette: runs the contour
/// pipeline, triangulates the simplified contour's interior, and extrudes.
/// A contour failure carries its reason; a contour the triangulator rejects
/// is degenerate geometry.
pub fn create_mesh_from_field(field: &ScalarField, params: &Params) -> (r: Result<Mesh, MeshError>)
    requires
        field.wf(),
        field.traceable(FIELD_THRESHOLD),
        params.contour_params.wf(),
    ensures
        ({
            let po = pipeline_outcome(
                *field,
                FIELD_THRESHOLD,
                params.contour_params.smooth_iterations as nat,
                params.contour_params.simplify_cos_num as int,
                params.contour_params.simplify_cos_den as int,
            );
            match r {
                Result::Ok(m) => po is Ok && earclip_triangulation(coord_pairs(po->Ok_0)) is Some
                    && mesh_matches(
                    m,
                    po->Ok_0,
                    earclip_triangulation(coord_pairs(po->Ok_0))->Some_0,
                    params.thickness,
                    params.include_uvs,
                ),
                Result::Err(MeshError::Contour(e)) => po == Result::<Seq<Point>, ContourError>::Err(
                    e,
                ),
                Result::Err(MeshError::DegenerateGeometry) => po is Ok && earclip_triangulation(
                    coord_pairs(po->Ok_0),
                ) is None,
            }
        }),
{
    let c = match contour_from_field(field, &params.contour_params) {
        Result::Ok(c) => c,
        Result::Err(e) => {
            return Result::Err(MeshError::Contour(e));
        },
    };
    let tris = match triangulate(&c.points) {
        Some(tris) => tris,
        None => {
            return Result::Err(MeshError::DegenerateGeometry);
        },
    };
    proof {
        assert(field.width * field.height <= 16384 * 16384) by (nonlinear_arith)
            requires
                field.width <= 16384,
                field.height <= 16384,
        ;
        assert(c@.len() <= MESH_POINT_LIMIT);
        assert(tris@.len() <= MESH_POINT_LIMIT);
    }
    match extrude_mesh(&c, &tris, params.thickness, params.include_uvs) {
        Result::Ok(m) => Result::Ok(m),
        Result::Err(_) => Result::Err(MeshError::DegenerateGeometry),
    }
}

} // verus!
