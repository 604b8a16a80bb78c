//! Pixel-art canvas library: constrained MARD bead palettes, pixel stamps with
//! aligned brushes, rasterized shapes, flood fill, bead charts, and the
//! tool-level session of the drawing server.

pub mod text;
pub mod palette;
pub mod shapes;
pub mod canvas;
pub mod png;
pub mod pattern;
pub mod raster;
pub mod server;
pub mod session;
