//! A software terrain renderer in the "voxel space" style: a pixel buffer,
//! height and colour fields, and a depth-marching rasterizer that paints a
//! first-person view of the terrain into the buffer.

pub mod codec;
pub mod heightmap;
pub mod image;
pub mod terrain;
