//! A small software rasterizer: integer screen-space geometry, depth-buffered
//! triangle coverage with perspective-correct weights, frame buffers, texture
//! sampling, shadow-map lookup and the two-pass render protocol.

pub mod frame;
pub mod geometry;
pub mod segment;
pub mod mesh;
pub mod pipeline;
pub mod raster;
pub mod shading;

pub use frame::{Image, RGB};
pub use geometry::{barycenter, Barycentric, Vec2i};
pub use mesh::{faces_valid, parse_corner, Triangle};
pub use pipeline::{PassError, Renderer, Stage};
pub use raster::{draw_triangle, interpolate, rasterize_triangle, DepthBuffer, Fragment, ScreenTriangle, ScreenVertex};
pub use shading::{is_shadowed, shade, Texture};
