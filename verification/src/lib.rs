//! Verified core of a progressive path tracer's wireframe overlay: integer
//! line clipping, incremental-error rasterization, perspective-cull
//! decisions, framebuffer writes, and display color packing.
pub mod color;
pub mod geom;
pub mod clip;
pub mod project;
pub mod quad;
pub mod raster;
pub mod viewport;
