//! Assembly of a large RGBA raster from independently fetched rectangular
//! tiles, on a canvas that grows as tiles imply larger bounds.

pub mod buffer;
pub mod canvas;
pub mod decode;
pub mod errors;
pub mod geometry;
pub mod laws;
