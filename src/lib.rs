//! Exact, element-independent building blocks of a ray tracer: square
//! matrices as grids of entries, the pixel canvas and its plain-text image
//! encoding, the loop that renders a canvas pixel by pixel, and colour
//! patterns selected by stripe index.

pub mod canvas;
pub mod matrix;
pub mod pattern;
pub mod ppm;
pub mod render;
