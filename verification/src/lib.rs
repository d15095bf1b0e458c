//! Converts a raster image's transparency silhouette into a closed planar
//! contour and extrudes that contour into a watertight triangulated solid.
//!
//! Geometry is held in fixed-point integer coordinates: one pixel is `SCALE`
//! coordinate units. That keeps every stage of the pipeline — tracing,
//! smoothing, simplification, scaling and extrusion — in exact integer
//! arithmetic with verified contracts.

pub mod contour;
pub mod field;
pub mod isqrt;
pub mod mesh;
pub mod objtext;
pub mod simplify;
pub mod trace;
pub mod tri;

pub use contour::Contour;
pub use contour::Point;
pub use mesh::Mesh;
pub use mesh::MeshError;
pub use mesh::Params;
pub use mesh::create_mesh_from_field;
pub use mesh::extrude_mesh;
pub use trace::find_contour_from_grayscale;
