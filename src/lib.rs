//! Escape-time fractal rasterizer: configuration checks, the pixel canvas and
//! the painting of pixel bands into it.
pub mod bands;
pub mod canvas;
pub mod config;
pub mod raster;
