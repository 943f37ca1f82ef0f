//! Sky polarization simulation core: pixel enumeration, tracing of sky-model
//! observations into rays, collision-checked assembly of a ray image, a
//! deterministic colormap, and the raster and grid encoders.

pub mod colormap;
pub mod ray_image;
pub mod error;
pub mod encode;
pub mod cli;
