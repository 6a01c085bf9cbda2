//! Geographic coordinates and the viewport that maps them onto a raster.

use vstd::prelude::*;
use crate::config::ConfigError;

verus! {

/// A pixel position `(x, y)`: column from the left edge, row from the top.
pub type ScreenPoint = (u32, u32);

/// A geographic coordinate in fixed-point units of a degree. Latitude grows
/// northwards and longitude eastwards; the unit is the caller's choice, as
/// long as the viewport uses the same one.
#[derive(Clone, Copy, Debug, PartialEq, Eq, Structural)]
pub struct GeoPoint {
    pub lat: i64,
    pub lng: i64,
}

/// The mathematical content of a [`Viewport`].
pub struct ViewportModel {
    pub top: int,
    pub left: int,
    pub bottom: int,
    pub right: int,
    pub width: nat,
    pub height: nat,
}

impl ViewportModel {
    /// The geographic rectangle and the raster are both non-empty.
    pub open spec fn wf(self) -> bool {
        &&& self.left < self.right
        &&& self.bottom < self.top
        &&& 0 < self.width <= u32::MAX
        &&& 0 < self.height <= u32::MAX
    }

    /// Column of a longitude: the fraction of the way from the left edge to
    /// the right edge, scaled by the width and rounded down.
    pub open spec fn column(self, lng: int) -> int {
        (lng - self.left) * self.width / (self.right - self.left)
    }

    /// Row of a latitude: the fraction of the way from the top edge to the
    /// bottom edge, scaled by the height and rounded down.
    pub open spec fn row(self, lat: int) -> int {
        (self.top - lat) * self.height / (self.top - self.bottom)
    }

    /// Equirectangular projection. A point whose column or row falls outside
    /// the raster is off screen.
    pub open spec fn project(self, p: GeoPoint) -> Option<ScreenPoint> {
        let x = self.column(p.lng as int);
        let y = self.row(p.lat as int);
        if p.lng < self.left || p.lat > self.top || x >= self.width || y >= self.height {
            None
        } else {
            Some((x as u32, y as u32))
        }
    }

    /// The half-open rectangle of coordinates that land on the raster: the
    /// top and left edges belong to it, the bottom and right edges do not.
    pub open spec fn covers(self, p: GeoPoint) -> bool {
        &&& self.left <= p.lng < self.right
        &&& self.bottom < p.lat <= self.top
    }
}

/// The height that gives the raster the aspect ratio of the geographic
/// rectangle: `width * (top - bottom) / (right - left)`, rounded down.
pub open spec fn derived_height(top: int, left: int, bottom: int, right: int, width: nat) -> int {
    width * (top - bottom) / (right - left)
}

/// What `Viewport::new` returns for a configuration.
pub open spec fn checked_viewport(
    top: int,
    left: int,
    bottom: int,
    right: int,
    width: nat,
    forced_height: Option<nat>,
) -> Result<ViewportModel, ConfigError> {
    let height = match forced_height {
        Some(h) => h as int,
        None => derived_height(top, left, bottom, right, width),
    };
    if right <= left {
        Err(ConfigError::EmptyLongitudeSpan)
    } else if top <= bottom {
        Err(ConfigError::EmptyLatitudeSpan)
    } else if width == 0 {
        Err(ConfigError::ZeroWidth)
    } else if height == 0 {
        Err(ConfigError::ZeroHeight)
    } else if height > u32::MAX {
        Err(ConfigError::TooLarge)
    } else {
        Ok(ViewportModel { top, left, bottom, right, width, height: height as nat })
    }
}

proof fn lemma_scaled_fraction(offset: int, span: int, size: int)
    by (nonlinear_arith)
    requires
        0 <= offset,
        0 < span,
        0 < size,
    ensures
        0 <= offset * size / span,
        offset * size / span < size <==> offset < span,
{
    if offset < span {
        assert(offset * size < span * size);
        assert(offset * size / span < size);
    } else {
        assert(offset * size >= span * size);
        assert(offset * size / span >= size);
    }
}

proof fn lemma_product_bound(a: int, b: int)
    by (nonlinear_arith)
    requires
        0 <= a < 0x1_0000_0000_0000_0000,
        0 <= b < 0x1_0000_0000,
    ensures
        0 <= a * b < 0x1_0000_0000_0000_0000_0000_0000,
{
}

/// A point lands on the raster exactly when the viewport covers it, and
/// then its pixel lies within the raster. In particular every point
/// strictly inside the rectangle is on screen, and every point outside it,
/// or on its bottom or right edge, is off screen.
pub proof fn projection_matches_cover(v: ViewportModel, p: GeoPoint)
    requires
        v.wf(),
    ensures
        v.project(p).is_some() <==> v.covers(p),
        v.project(p) matches Some((x, y)) ==> x < v.width && y < v.height
            && x == v.column(p.lng as int) && y == v.row(p.lat as int),
        v.left < p.lng < v.right && v.bottom < p.lat < v.top ==> v.project(p).is_some(),
        p.lng < v.left || p.lng >= v.right || p.lat > v.top || p.lat <= v.bottom
            ==> v.project(p).is_none(),
{
    if p.lng >= v.left {
        lemma_scaled_fraction(p.lng - v.left, v.right - v.left, v.width as int);
    }
    if p.lat <= v.top {
        lemma_scaled_fraction(v.top - p.lat, v.top - v.bottom, v.height as int);
    }
}

/// The geographic rectangle shown, and the size of the raster it is shown on.
#[derive(Clone, Copy, Debug)]
pub struct Viewport {
    top: i64,
    left: i64,
    bottom: i64,
    right: i64,
    width: u32,
    height: u32,
}

impl View for Viewport {
    type V = ViewportModel;

    closed spec fn view(&self) -> ViewportModel {
        ViewportModel {
            top: self.top as int,
            left: self.left as int,
            bottom: self.bottom as int,
            right: self.right as int,
            width: self.width as nat,
            height: self.height as nat,
        }
    }
}

impl Viewport {
    /// Whether the value is well formed: its model is.
    pub open spec fn wf(&self) -> bool {
        self@.wf()
    }

    /// Builds a viewport from its corners and raster width. Without a forced
    /// height the height follows from the aspect ratio of the rectangle.
    pub fn new(
        top: i64,
        left: i64,
        bottom: i64,
        right: i64,
        width: u32,
        forced_height: Option<u32>,
    ) -> (made: Result<Viewport, ConfigError>)
        ensures
            match made {
                Ok(v) => v.wf() && checked_viewport(
                    top as int,
                    left as int,
                    bottom as int,
                    right as int,
                    width as nat,
                    match forced_height {
                        Some(h) => Some(h as nat),
                        None => None,
                    },
                ) == Ok::<ViewportModel, ConfigError>(v@),
                Err(e) => checked_viewport(
                    top as int,
                    left as int,
                    bottom as int,
                    right as int,
                    width as nat,
                    match forced_height {
                        Some(h) => Some(h as nat),
                        None => None,
                    },
                ) == Err::<ViewportModel, ConfigError>(e),
            },
    {
        if right <= left {
            return Err(ConfigError::EmptyLongitudeSpan);
        }
        if top <= bottom {
            return Err(ConfigError::EmptyLatitudeSpan);
        }
        if width == 0 {
            return Err(ConfigError::ZeroWidth);
        }
        let height: u32 = match forced_height {
            Some(h) => h,
            None => {
                let rise: u128 = (top as i128 - bottom as i128) as u128;
                let run: u128 = (right as i128 - left as i128) as u128;
                proof {
                    lemma_product_bound(rise as int, width as int);
                    assert(width as int * rise as int == rise as int * width as int)
                        by (nonlinear_arith);
                }
                let derived: u128 = (width as u128) * rise / run;
                if derived > u32::MAX as u128 {
                    return Err(ConfigError::TooLarge);
                }
                derived as u32
            },
        };
        if height == 0 {
            return Err(ConfigError::ZeroHeight);
        }
        Ok(Viewport { top, left, bottom, right, width, height })
    }

    /// The number of columns.
    pub fn width(&self) -> (w: u32)
        ensures
            w == self@.width,
    {
        self.width
    }

    /// The number of rows.
    pub fn height(&self) -> (h: u32)
        ensures
            h == self@.height,
    {
        self.height
    }

    /// Maps a coordinate to its pixel, or to `None` when it is off screen.
    pub fn project(&self, coord: &GeoPoint) -> (pixel: Option<ScreenPoint>)
        requires
            self.wf(),
        ensures
            pixel == self@.project(*coord),
            pixel.is_some() <==> self@.covers(*coord),
            pixel matches Some((x, y)) ==> x < self@.width && y < self@.height,
    {
        proof {
            projection_matches_cover(self@, *coord);
        }
        if coord.lng < self.left || coord.lat > self.top {
            return None;
        }
        let across: u128 = (coord.lng as i128 - self.left as i128) as u128;
        let down: u128 = (self.top as i128 - coord.lat as i128) as u128;
        let run: u128 = (self.right as i128 - self.left as i128) as u128;
        let rise: u128 = (self.top as i128 - self.bottom as i128) as u128;
        proof {
            lemma_product_bound(across as int, self.width as int);
            lemma_product_bound(down as int, self.height as int);
        }
        let x: u128 = across * (self.width as u128) / run;
        let y: u128 = down * (self.height as u128) / rise;
        if x >= self.width as u128 || y >= self.height as u128 {
            None
        } else {
            Some((x as u32, y as u32))
        }
    }
}

} // verus!
