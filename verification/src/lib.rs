//! Heatmap accumulation and rendering for geographic tracks.
//!
//! Tracks are projected onto a raster, every visit of a pixel is counted,
//! and the counts are coloured on a logarithmic heat scale. A driver takes
//! the activities point by point and says when a frame of the growing
//! heatmap is due, so that a run can be rendered as a video.
//!
//! Everything here is integer arithmetic. Coordinates are fixed-point
//! degrees, the colour gradient is a sampled ramp, logarithms come from a
//! table, and glyph coverage is a byte per pixel. Reading track files,
//! sampling the gradient, rasterising text and encoding images are left to
//! the caller.
//!
//! * [`geometry`]: coordinates, and the viewport with its projection.
//! * [`grid`]: the density grid, with increment and decay.
//! * [`color`]: the mapping from counts to colours.
//! * [`frame`]: rendered frames and the compositing of glyphs onto them.
//! * [`caption`]: the layout of the caption lines.
//! * [`activity`]: activities and their chronological order.
//! * [`heatmap`]: viewport and grid together, and their rendering.
//! * [`timeline`]: the driver that turns a stream of points into frames.
//! * [`config`]: settings and configuration errors.

pub mod config;
pub mod geometry;
pub mod grid;
pub mod color;
pub mod frame;
pub mod caption;
pub mod activity;
pub mod heatmap;
pub mod timeline;
