use image_to_mesh::contour::{Contour, Params, Point, SCALE};
use image_to_mesh::field::ScalarField;
use image_to_mesh::trace::{contour_from_field, find_contour_from_grayscale, ContourError};

/// Builds a field from ascii art: '#' cells are inside (0), '.' cells are
/// background (255).
fn field_from_art(rows: &[&str]) -> ScalarField {
    let height = rows.len();
    let width = rows[0].len();
    let mut data = Vec::new();
    for row in rows {
        assert_eq!(row.len(), width);
        for ch in row.bytes() {
            data.push(if ch == b'#' { 0u8 } else { 255u8 });
        }
    }
    ScalarField::new(width, height, data).expect("valid field")
}

/// A square field of the given total size with a filled square of side `s`
/// starting at cell (off, off).
fn square_field(size: usize, off: usize, s: usize) -> ScalarField {
    let mut data = vec![255u8; size * size];
    for y in off..off + s {
        for x in off..off + s {
            data[y * size + x] = 0;
        }
    }
    ScalarField::new(size, size, data).expect("valid field")
}

fn contour_of(field: &ScalarField) -> Contour {
    find_contour_from_grayscale(field, 128).expect("boundary expected")
}

fn points(c: &Contour) -> Vec<Point> {
    let mut v = Vec::new();
    for i in 0..c.len() {
        v.push(c.point_at(i));
    }
    v
}

#[test]
fn square_point_count_proportional_to_side() {
    // One emission per boundary move plus one per corner pivot, with the
    // final pivot absorbed by the closing test: 4*s - 1 points for a
    // filled square of side s.
    let c4 = contour_of(&square_field(16, 6, 4));
    let c8 = contour_of(&square_field(24, 6, 8));
    assert_eq!(c4.len(), 4 * 4 - 1);
    assert_eq!(c8.len(), 4 * 8 - 1);
}

#[test]
fn square_bounding_box_matches_square() {
    let s = 5;
    let off = 4;
    let c = contour_of(&square_field(16, off, s));
    let pts = points(&c);
    let (mut min_x, mut min_y, mut max_x, mut max_y) = (i64::MAX, i64::MAX, i64::MIN, i64::MIN);
    for p in &pts {
        min_x = min_x.min(p.x);
        min_y = min_y.min(p.y);
        max_x = max_x.max(p.x);
        max_y = max_y.max(p.y);
    }
    // Bounds in fixed-point units; the square occupies cells
    // [off, off+s-1] on both axes. Within one grid cell (SCALE units).
    let lo = (off as i64) * SCALE;
    let hi = ((off + s - 1) as i64) * SCALE;
    assert!((min_x - lo).abs() <= SCALE, "min_x {min_x} vs {lo}");
    assert!((min_y - lo).abs() <= SCALE, "min_y {min_y} vs {lo}");
    assert!((max_x - hi).abs() <= SCALE, "max_x {max_x} vs {hi}");
    assert!((max_y - hi).abs() <= SCALE, "max_y {max_y} vs {hi}");
}

#[test]
fn no_boundary_in_uniform_field() {
    let f = ScalarField::new(8, 8, vec![255u8; 64]).unwrap();
    assert!(matches!(
        find_contour_from_grayscale(&f, 128),
        Err(ContourError::NoBoundaryFound)
    ));
}

#[test]
fn subpixel_interpolation_is_exact() {
    // A single inside cell at (2, 2) of an intermediate value: the start
    // cell has value 100, threshold 128, outside 255.
    // outside_val = 100 - 128 = -28, inside_val = 255 - 128 = 127,
    // ratio = -28 / (-28 - 127) = 28/155; the first point interpolates
    // between (2,2) and (2,3): y = 2 + 127/155 in pixels.
    let mut data = vec![255u8; 36];
    data[2 * 6 + 2] = 100;
    let f = ScalarField::new(6, 6, data).unwrap();
    let c = find_contour_from_grayscale(&f, 128).unwrap();
    assert!(c.len() >= 1);
    let p = c.point_at(0);
    assert_eq!(p.x, 2000);
    // (1000 * (3*127 + 2*28)) / 155 = 437000/155 = 2819 (floor)
    assert_eq!(p.y, 2819);
}

#[test]
fn smoothing_zero_times_is_identity() {
    let mut c = Contour::new();
    for (x, y) in [(0, 0), (3000, 0), (3000, 3000), (0, 3000)] {
        c.push(Point { x, y });
    }
    let before = points(&c);
    let after = points(&c.clone().smooth(0));
    assert_eq!(before, after);
}

#[test]
fn smoothing_twice_equals_two_iterations() {
    let mut c = Contour::new();
    for (x, y) in [(0, 0), (3000, 100), (2900, 3000), (100, 2800), (50, 1400)] {
        c.push(Point { x, y });
    }
    let once_twice = points(&c.clone().smooth(1).smooth(1));
    let two = points(&c.smooth(2));
    assert_eq!(once_twice, two);
}

#[test]
fn smoothing_averages_neighbours() {
    let mut c = Contour::new();
    for (x, y) in [(0, 0), (3000, 0), (3000, 3000)] {
        c.push(Point { x, y });
    }
    let sm = points(&c.smooth(1));
    // Every point becomes the average of all three.
    assert_eq!(sm, vec![Point { x: 2000, y: 1000 }; 3]);
}

#[test]
fn simplify_zero_tolerance_keeps_every_point() {
    // cos(pi - 0) = -1 written as -den/den: nothing may be removed.
    let mut c = Contour::new();
    for (x, y) in [(0, 0), (500, 2), (1000, 0), (1000, 1000), (0, 1000)] {
        c.push(Point { x, y });
    }
    let before = points(&c);
    let after = points(&c.clone().simplify(-4096, 4096));
    assert_eq!(before, after);
}

#[test]
fn simplify_removes_collinear_point() {
    // The middle point of a straight edge is within any positive tolerance
    // of a straight line.
    let mut c = Contour::new();
    for (x, y) in [(0, 0), (500, 0), (1000, 0), (1000, 1000), (0, 1000)] {
        c.push(Point { x, y });
    }
    // cos(pi - eps) for a small eps: about -0.999; the collinear point's
    // angle is exactly pi, so its cosine -1 is below that and it is deleted.
    let after = points(&c.simplify(-4092, 4096));
    assert_eq!(
        after,
        vec![
            Point { x: 0, y: 0 },
            Point { x: 1000, y: 0 },
            Point { x: 1000, y: 1000 },
            Point { x: 0, y: 1000 },
        ]
    );
}

#[test]
fn simplify_near_pi_removes_square_corners() {
    // cos(pi - eps) near +1 deletes right-angle corners; only a point whose
    // comparison edges have become exactly parallel (angle 0, not within
    // eps of pi) survives the running-reference pass. The result has fewer
    // than 3 points, which the extruder rejects downstream.
    let mut c = Contour::new();
    for (x, y) in [(0, 0), (1000, 0), (1000, 1000), (0, 1000)] {
        c.push(Point { x, y });
    }
    let after = points(&c.simplify(4095, 4096));
    assert_eq!(after, vec![Point { x: 1000, y: 1000 }]);
    assert!(after.len() < 3);
}

#[test]
fn simplify_keeps_point_with_duplicate_neighbour() {
    // A zero-length comparison vector leaves the angle undefined; the point
    // is kept deterministically.
    let mut c = Contour::new();
    for (x, y) in [(0, 0), (0, 0), (1000, 0), (1000, 1000)] {
        c.push(Point { x, y });
    }
    let after = points(&c.simplify(-4092, 4096));
    assert!(after.contains(&Point { x: 0, y: 0 }));
}

#[test]
fn scale_maps_far_corner_to_unit() {
    let mut c = Contour::new();
    c.push(Point { x: 7 * SCALE, y: 9 * SCALE });
    let scaled = c.scale(7, 9);
    assert_eq!(scaled.point_at(0), Point { x: SCALE, y: SCALE });
}

#[test]
fn scale_divides_componentwise() {
    let mut c = Contour::new();
    c.push(Point { x: 3500, y: 1000 });
    let scaled = c.scale(7, 4);
    assert_eq!(scaled.point_at(0), Point { x: 500, y: 250 });
}

#[test]
fn round_trip_contour_lies_on_mask_boundary() {
    // Trace a binary mask, rasterize the contour back, and check every
    // point rounds to within one cell of a mask boundary cell.
    let f = field_from_art(&[
        "..........",
        "..######..",
        "..######..",
        "..######..",
        "..######..",
        "..######..",
        "..........",
        "..........",
    ]);
    let c = contour_of(&f);
    assert!(c.len() >= 4);
    for p in points(&c) {
        let px = ((p.x + SCALE / 2) / SCALE) as isize;
        let py = ((p.y + SCALE / 2) / SCALE) as isize;
        // A boundary cell: inside the mask with at least one outside
        // 4-neighbour.
        let mut near_boundary = false;
        for dy in -1isize..=1 {
            for dx in -1isize..=1 {
                let (cx, cy) = (px + dx, py + dy);
                if cx < 0 || cy < 0 || cx >= 10 || cy >= 8 {
                    continue;
                }
                let inside = |x: isize, y: isize| {
                    x >= 2 && x <= 7 && y >= 1 && y <= 5
                };
                if inside(cx, cy)
                    && (!inside(cx - 1, cy) || !inside(cx + 1, cy) || !inside(cx, cy - 1)
                        || !inside(cx, cy + 1))
                {
                    near_boundary = true;
                }
            }
        }
        assert!(near_boundary, "point {p:?} is not near the mask boundary");
    }
}

#[test]
fn two_shapes_trace_only_the_first() {
    // Two disjoint squares: the tracer follows the first crossing found in
    // row-major order and never merges the shapes.
    let f = field_from_art(&[
        "............",
        ".###........",
        ".###....##..",
        ".###....##..",
        "............",
    ]);
    let c = contour_of(&f);
    for p in points(&c) {
        // All points stay within the first square's cells [1,3]x[1,3],
        // far from the second square at columns 8 and 9.
        assert!(p.x <= 4 * SCALE, "point {p:?} escaped the first shape");
        assert!(p.y <= 4 * SCALE, "point {p:?} escaped the first shape");
    }
}

#[test]
fn pipeline_produces_scaled_simplified_contour() {
    let f = square_field(20, 5, 9);
    let params = Params {
        border_offset: 20,
        smooth_iterations: 2,
        simplify_cos_num: -4074,
        simplify_cos_den: 4096,
    };
    let c = contour_from_field(&f, &params).expect("pipeline succeeds");
    assert!(c.len() >= 3);
    for i in 0..c.len() {
        let p = c.point_at(i);
        // Scaled into the unit square (fixed-point).
        assert!(p.x >= 0 && p.x <= SCALE);
        assert!(p.y >= 0 && p.y <= SCALE);
    }
}

#[test]
fn default_params_match_documentation() {
    let p = Params::default();
    assert_eq!(p.border_offset, 20);
    assert_eq!(p.smooth_iterations, 10);
    assert_eq!(p.simplify_cos_num, -4074);
    assert_eq!(p.simplify_cos_den, 4096);
}

/// A field whose figure is above the threshold on a below-threshold
/// background (the square at least two cells from the border).
fn square_field_above(size: usize, off: usize, s: usize) -> ScalarField {
    let mut data = vec![0u8; size * size];
    for y in off..off + s {
        for x in off..off + s {
            data[y * size + x] = 255;
        }
    }
    ScalarField::new(size, size, data).expect("valid field")
}

#[test]
fn above_threshold_square_point_count_proportional_to_side() {
    // The walk hugs the square from its low side: one emission per move and
    // per corner pivot gives exactly 4*s points for a square of side s.
    let c4 = contour_of(&square_field_above(16, 6, 4));
    let c8 = contour_of(&square_field_above(24, 6, 8));
    assert_eq!(c4.len(), 4 * 4);
    assert_eq!(c8.len(), 4 * 8);
    assert_eq!(2 * c4.len(), c8.len());
}

#[test]
fn above_threshold_square_bounding_box_matches_square() {
    let s = 4;
    let off = 6;
    let c = contour_of(&square_field_above(16, off, s));
    let pts = points(&c);
    let (mut min_x, mut min_y, mut max_x, mut max_y) = (i64::MAX, i64::MAX, i64::MIN, i64::MIN);
    for p in &pts {
        min_x = min_x.min(p.x);
        min_y = min_y.min(p.y);
        max_x = max_x.max(p.x);
        max_y = max_y.max(p.y);
    }
    let lo = (off as i64) * SCALE;
    let hi = ((off + s - 1) as i64) * SCALE;
    assert!((min_x - lo).abs() <= SCALE, "min_x {min_x} vs {lo}");
    assert!((min_y - lo).abs() <= SCALE, "min_y {min_y} vs {lo}");
    assert!((max_x - hi).abs() <= SCALE, "max_x {max_x} vs {hi}");
    assert!((max_y - hi).abs() <= SCALE, "max_y {max_y} vs {hi}");
}

#[test]
fn above_threshold_two_shapes_trace_only_the_first() {
    // Two disjoint above-threshold shapes on a low background: the tracer
    // follows the row-major-first crossing (on the left shape) and never
    // merges the two.
    let mut data = vec![0u8; 12 * 7];
    for y in 2..5 {
        for x in 2..5 {
            data[y * 12 + x] = 255;
        }
    }
    for y in 2..4 {
        for x in 8..10 {
            data[y * 12 + x] = 255;
        }
    }
    let f = ScalarField::new(12, 7, data).expect("valid field");
    let c = contour_of(&f);
    assert_eq!(c.len(), 12);
    for p in points(&c) {
        // All points hug the left shape (cells [2,4] square), far from the
        // right shape at columns 8 and 9.
        assert!(p.x <= 5 * SCALE, "point {p:?} escaped the first shape");
        assert!(p.y <= 5 * SCALE, "point {p:?} escaped the first shape");
    }
}
