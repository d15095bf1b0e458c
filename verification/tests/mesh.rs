use image_to_mesh::contour::{Contour, Point, SCALE};
use image_to_mesh::field::ScalarField;
use image_to_mesh::isqrt::isqrt;
use image_to_mesh::mesh::{create_mesh_from_field, extrude_mesh, MeshError, Params, Vertex};
use image_to_mesh::objtext::{attach_material_headers, mtl_contents};
use image_to_mesh::trace::ContourError;
use image_to_mesh::tri::triangulate;

fn unit_square() -> Contour {
    let mut c = Contour::new();
    for (x, y) in [(0, 0), (SCALE, 0), (SCALE, SCALE), (0, SCALE)] {
        c.push(Point { x, y });
    }
    c
}

#[test]
fn isqrt_exact_values() {
    assert_eq!(isqrt(0), 0);
    assert_eq!(isqrt(1), 1);
    assert_eq!(isqrt(2), 1);
    assert_eq!(isqrt(3), 1);
    assert_eq!(isqrt(4), 2);
    assert_eq!(isqrt(999_999), 999);
    assert_eq!(isqrt(1_000_000), 1000);
    assert_eq!(isqrt(2_000_000), 1414);
    assert_eq!(isqrt(u64::MAX), 4294967295);
}

#[test]
fn square_extrusion_counts() {
    // A 4-point contour with a 2-triangle cap triangulation: 8 vertices,
    // 4 cap triangles, 8 side triangles.
    let c = unit_square();
    let tris = vec![(0usize, 1usize, 2usize), (0usize, 2usize, 3usize)];
    let m = extrude_mesh(&c, &tris, 50, true).expect("mesh");
    assert_eq!(m.vertices.len(), 8);
    assert_eq!(m.triangles.len(), 12);
    assert_eq!(m.normals.len(), 12);
    assert_eq!(m.uv_vertices.len(), 8);
}

#[test]
fn extrusion_positions_and_caps() {
    let c = unit_square();
    let tris = vec![(0usize, 1usize, 2usize), (0usize, 2usize, 3usize)];
    let m = extrude_mesh(&c, &tris, 50, true).expect("mesh");
    // Front cap at z = 0, mirrored about the centre: 0.5 - p.
    assert_eq!(m.vertices[0], Vertex { x: 500, y: 500, z: 0 });
    assert_eq!(m.vertices[2], Vertex { x: -500, y: -500, z: 0 });
    // Back cap at z = thickness.
    assert_eq!(m.vertices[4], Vertex { x: 500, y: 500, z: 50 });
    // Front cap triangles have reversed winding relative to the input.
    let t0 = m.triangles[0];
    assert_eq!((t0.a.vertex, t0.b.vertex, t0.c.vertex), (0, 2, 1));
    // Back cap triangles keep the input winding, offset by the ring size.
    let t2 = m.triangles[2];
    assert_eq!((t2.a.vertex, t2.b.vertex, t2.c.vertex), (4, 5, 6));
    // Cap normals are constant along -z and +z.
    assert_eq!(m.normals[0], Vertex { x: 0, y: 0, z: -SCALE });
    assert_eq!(m.normals[4], Vertex { x: 0, y: 0, z: SCALE });
}

#[test]
fn extrusion_side_normals_average_edge_normals() {
    let c = unit_square();
    let tris = vec![(0usize, 1usize, 2usize), (0usize, 2usize, 3usize)];
    let m = extrude_mesh(&c, &tris, 50, true).expect("mesh");
    // Point 0 joins the edges (0,SCALE)->(0,0) and (0,0)->(SCALE,0); their
    // outward normals are (-SCALE, 0) and (0, -SCALE); the average is
    // (-SCALE/2, -SCALE/2).
    assert_eq!(m.normals[8], Vertex { x: -500, y: -500, z: 0 });
}

#[test]
fn extrusion_uvs_flip_v() {
    let c = unit_square();
    let tris = vec![(0usize, 1usize, 2usize), (0usize, 2usize, 3usize)];
    let m = extrude_mesh(&c, &tris, 50, true).expect("mesh");
    assert_eq!(m.uv_vertices[0].u, 0);
    assert_eq!(m.uv_vertices[0].v, SCALE);
    assert_eq!(m.uv_vertices[2].u, SCALE);
    assert_eq!(m.uv_vertices[2].v, 0);
    // Both caps share the same texture coordinates.
    assert_eq!(m.uv_vertices[4].u, m.uv_vertices[0].u);
    let no_uv = extrude_mesh(&c, &tris, 50, false).expect("mesh");
    assert_eq!(no_uv.uv_vertices.len(), 0);
}

#[test]
fn extrusion_rejects_degenerate_contour() {
    let mut c = Contour::new();
    c.push(Point { x: 0, y: 0 });
    c.push(Point { x: SCALE, y: 0 });
    let tris: Vec<(usize, usize, usize)> = Vec::new();
    assert!(matches!(
        extrude_mesh(&c, &tris, 50, true),
        Err(MeshError::DegenerateGeometry)
    ));
}

#[test]
fn triangulate_square() {
    let c = unit_square();
    let tris = triangulate(&c.points).expect("simple polygon");
    assert_eq!(tris.len(), 2);
    for (a, b, c_) in tris {
        assert!(a < 4 && b < 4 && c_ < 4);
    }
}

#[test]
fn triangulate_rejects_degenerate() {
    // Fewer than three points.
    let mut two = Contour::new();
    two.push(Point { x: 0, y: 0 });
    two.push(Point { x: SCALE, y: 0 });
    assert!(triangulate(&two.points).is_none());
    // Collinear ring.
    let mut line = Contour::new();
    for (x, y) in [(0, 0), (500, 0), (1000, 0)] {
        line.push(Point { x, y });
    }
    assert!(triangulate(&line.points).is_none());
    // Duplicate points.
    let mut dup = Contour::new();
    for (x, y) in [(0, 0), (0, 0), (1000, 0), (1000, 1000)] {
        dup.push(Point { x, y });
    }
    assert!(triangulate(&dup.points).is_none());
}

#[test]
fn mesh_from_field_end_to_end() {
    let mut data = vec![255u8; 20 * 20];
    for y in 5..14 {
        for x in 5..14 {
            data[y * 20 + x] = 0;
        }
    }
    let f = ScalarField::new(20, 20, data).unwrap();
    let params = Params::default();
    let m = create_mesh_from_field(&f, &params).expect("mesh");
    let n = m.vertices.len() / 2;
    assert!(n >= 3);
    assert_eq!(m.vertices.len(), 2 * n);
    assert_eq!(m.normals.len(), 3 * n);
    // 2 * (n - 2) cap triangles plus 2 * n side triangles.
    assert_eq!(m.triangles.len(), 2 * (n - 2) + 2 * n);
    assert_eq!(m.uv_vertices.len(), 2 * n);
}

#[test]
fn mesh_from_uniform_field_reports_no_boundary() {
    let f = ScalarField::new(8, 8, vec![255u8; 64]).unwrap();
    assert!(matches!(
        create_mesh_from_field(&f, &Params::default()),
        Err(MeshError::Contour(ContourError::NoBoundaryFound))
    ));
}

#[test]
fn mtl_contents_names_texture() {
    let out = mtl_contents(&b"shape.png".to_vec());
    assert_eq!(out, b"newmtl material\nmap_Kd shape.png\n".to_vec());
}

#[test]
fn material_headers_spliced_into_obj_text() {
    let obj = b"o shape\nv 1 2 3\nvt 0 0\nf 1 2 3\nf 2 3 4\n".to_vec();
    let out = attach_material_headers(&obj, &b"shape.mtl".to_vec());
    assert_eq!(
        out,
        b"mtllib shape.mtl\no shape\nv 1 2 3\nvt 0 0\nusemtl material\nf 1 2 3\nf 2 3 4\n".to_vec()
    );
}

#[test]
fn material_headers_without_face_lines() {
    let obj = b"o shape\nv 1 2 3\n".to_vec();
    let out = attach_material_headers(&obj, &b"a.mtl".to_vec());
    assert_eq!(out, b"mtllib a.mtl\no shape\nv 1 2 3\n".to_vec());
}

#[test]
fn default_mesh_params() {
    let p = Params::default();
    assert_eq!(p.thickness, 50);
    assert!(p.include_uvs);
    assert_eq!(p.contour_params.border_offset, 20);
    assert_eq!(p.contour_params.simplify_cos_num, -4074);
    assert_eq!(p.contour_params.simplify_cos_den, 4096);
}
