//! Configuration: what a run is set up from, and why a set-up is refused.

use vstd::prelude::*;

verus! {

/// What a heatmap is built from: the corners of the viewport in fixed-point
/// degrees, the raster width, an optional forced height, and which caption
/// lines are drawn on frames.
#[derive(Clone, Copy, Debug)]
pub struct Settings {
    pub top: i64,
    pub left: i64,
    pub bottom: i64,
    pub right: i64,
    pub width: u32,
    pub height: Option<u32>,
    pub render_date: bool,
    pub render_title: bool,
}

/// Why a run cannot be set up from its configuration.
#[derive(Clone, Copy, Debug, PartialEq, Eq, Structural)]
pub enum ConfigError {
    /// The right edge does not lie east of the left edge.
    EmptyLongitudeSpan,
    /// The top edge does not lie north of the bottom edge.
    EmptyLatitudeSpan,
    /// The raster has no columns.
    ZeroWidth,
    /// The raster has no rows.
    ZeroHeight,
    /// The raster cannot be held in memory on this machine.
    TooLarge,
    /// The colour gradient has no stops.
    EmptyGradient,
    /// The table of logarithms does not grow as logarithms do.
    BadLogTable,
    /// A frame would be due after every zero points.
    ZeroCadence,
}

} // verus!
