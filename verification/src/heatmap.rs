//! The heatmap: a viewport, the density grid behind it, and its rendering.

use vstd::prelude::*;
use crate::activity::Activity;
use crate::caption::caption_layout;
use crate::caption::caption_lines;
use crate::caption::date_pattern;
use crate::caption::date_text;
use crate::caption::line_models;
use crate::caption::utc_text;
use crate::caption::CaptionLine;
use crate::config::ConfigError;
use crate::config::Settings;
use crate::color::ColorMapper;
use crate::color::ColorModel;
use crate::color::RenderError;
use crate::frame::glyph_models;
use crate::frame::overlay_keeps_shape;
use crate::frame::Frame;
use crate::frame::FrameModel;
use crate::frame::GlyphCoverage;
use crate::geometry::checked_viewport;
use crate::geometry::GeoPoint;
use crate::geometry::ScreenPoint;
use crate::geometry::Viewport;
use crate::geometry::ViewportModel;
use crate::grid::DensityGrid;
use crate::grid::GridModel;
use crate::grid::Renormalize;

verus! {

/// The mathematical content of a [`Heatmap`].
pub struct HeatmapModel {
    pub viewport: ViewportModel,
    pub grid: GridModel,
    pub render_date: bool,
    pub render_title: bool,
}

impl HeatmapModel {
    /// The grid has the size of the viewport's raster, and a frame of that
    /// size fits in memory.
    pub open spec fn wf(self) -> bool {
        &&& self.viewport.wf()
        &&& self.grid.wf()
        &&& self.grid.width == self.viewport.width
        &&& self.grid.height == self.viewport.height
        &&& 3 * (self.grid.width * self.grid.height) <= usize::MAX
    }

    /// The frame that shows the grid in the colours of `mapper`.
    pub open spec fn picture(self, mapper: ColorModel) -> FrameModel {
        FrameModel {
            width: self.grid.width,
            height: self.grid.height,
            pixels: mapper.colorize(self.grid.counters, self.grid.max_value),
        }
    }

    /// The text of the date line for an activity recorded at `timestamp`,
    /// if the date line is drawn.
    pub open spec fn date_line(self, timestamp: i64) -> Option<Seq<char>> {
        if self.render_date {
            utc_text(timestamp, date_pattern())
        } else {
            None
        }
    }

    /// The text of the title line for an activity of the given name, if the
    /// title line is drawn.
    pub open spec fn title_line(self, name: Seq<char>) -> Option<Seq<char>> {
        if self.render_title {
            Some(name)
        } else {
            None
        }
    }
}

/// The picture seen pixel by pixel: the colour of a pixel depends on its own
/// counter and on `max_value`, and on nothing else.
pub proof fn picture_by_pixel(h: HeatmapModel, mapper: ColorModel, p: ScreenPoint)
    requires
        h.wf(),
        h.grid.contains(p),
    ensures
        h.picture(mapper).wf(),
        h.picture(mapper).color_at(p.0 as int, p.1 as int) == mapper.shade(
            h.grid.count_at(p),
            h.grid.max_value,
        ),
{
    crate::grid::offsets_are_distinct(h.grid, p, p);
    let at = 3 * h.grid.offset(p);
    assert((at + 0) / 3 == h.grid.offset(p) && (at + 0) % 3 == 0);
    assert((at + 1) / 3 == h.grid.offset(p) && (at + 1) % 3 == 1);
    assert((at + 2) / 3 == h.grid.offset(p) && (at + 2) % 3 == 2);
}

/// The height asked for in `args`, as a natural number.
pub open spec fn forced_height(args: Settings) -> Option<nat> {
    match args.height {
        Some(h) => Some(h as nat),
        None => None,
    }
}

/// What `Heatmap::from` returns for `args`: the error of the first check
/// that fails, or an empty heatmap over the viewport.
pub open spec fn checked_heatmap(args: Settings) -> Result<HeatmapModel, ConfigError> {
    match checked_viewport(
        args.top as int,
        args.left as int,
        args.bottom as int,
        args.right as int,
        args.width as nat,
        forced_height(args),
    ) {
        Err(e) => Err(e),
        Ok(viewport) => if 3 * (viewport.width * viewport.height) > usize::MAX {
            Err(ConfigError::TooLarge)
        } else {
            Ok(
                HeatmapModel {
                    viewport,
                    grid: GridModel::blank(viewport.width, viewport.height),
                    render_date: args.render_date,
                    render_title: args.render_title,
                },
            )
        },
    }
}

/// `image::DynamicImage`, carried through as an opaque value.
#[verifier::external_type_specification]
#[verifier::external_body]
pub struct ExDynamicImage(image::DynamicImage);

/// The bytes of an image, as `image::DynamicImage::as_bytes` gives them.
pub uninterp spec fn image_bytes(img: image::DynamicImage) -> Seq<u8>;

/// The width and height of an image, as `image::DynamicImage::width` and
/// `image::DynamicImage::height` give them.
pub uninterp spec fn image_dimensions(img: image::DynamicImage) -> (u32, u32);

/// Whether an image is of the 8-bit RGB kind: whether
/// `image::DynamicImage::as_rgb8` gives its buffer.
pub uninterp spec fn image_is_rgb8(img: image::DynamicImage) -> bool;

/// Calls `image::ImageBuffer::from_raw` for an 8-bit RGB buffer and wraps
/// the buffer as `image::DynamicImage::ImageRgb8`. `from_raw` multiplies
/// three by the width and then by the height, in `usize` and with a check
/// at each step, and returns `None` when a product overflows or the last
/// one exceeds the length of `pixels`. Otherwise the image is of the 8-bit
/// RGB kind and takes `pixels` as its bytes, unchanged, with the given
/// width and height.
#[verifier::external_body]
fn rgb8_image(width: u32, height: u32, pixels: Vec<u8>) -> (img: Option<image::DynamicImage>)
    ensures
        img is Some <==> (3 * width <= usize::MAX && 3 * (width * height) <= pixels@.len()),
        img matches Some(i) ==> image_is_rgb8(i),
        img matches Some(i) ==> image_bytes(i) == pixels@ && image_dimensions(i) == (width, height),
{
    image::ImageBuffer::from_raw(width, height, pixels).map(image::DynamicImage::ImageRgb8)
}

/// A viewport with the density accumulated behind it.
#[derive(Debug)]
pub struct Heatmap {
    viewport: Viewport,
    grid: DensityGrid,
    render_date: bool,
    render_title: bool,
}

impl View for Heatmap {
    type V = HeatmapModel;

    closed spec fn view(&self) -> HeatmapModel {
        HeatmapModel {
            viewport: self.viewport@,
            grid: self.grid@,
            render_date: self.render_date,
            render_title: self.render_title,
        }
    }
}

impl Heatmap {
    /// Whether the value is well formed: its model is.
    pub open spec fn wf(&self) -> bool {
        self@.wf()
    }

    /// Builds an empty heatmap, or says why the settings describe none.
    pub fn from(args: &Settings) -> (made: Result<Heatmap, ConfigError>)
        ensures
            made matches Ok(h) ==> h.wf() && checked_heatmap(*args) == Ok::<
                HeatmapModel,
                ConfigError,
            >(h@),
            made matches Err(e) ==> checked_heatmap(*args) == Err::<HeatmapModel, ConfigError>(e),
            made matches Ok(h) ==> h@.grid.max_value == 0 && forall|q: ScreenPoint|
                h@.grid.contains(q) ==> #[trigger] h@.grid.count_at(q) == 0,
    {
        let viewport = match Viewport::new(
            args.top,
            args.left,
            args.bottom,
            args.right,
            args.width,
            args.height,
        ) {
            Ok(v) => v,
            Err(e) => {
                return Err(e);
            },
        };
        let width = viewport.width();
        let height = viewport.height();
        assert(width * height <= 0xffff_ffff * 0xffff_ffff) by (nonlinear_arith)
            requires
                width <= 0xffff_ffff,
                height <= 0xffff_ffff,
        ;
        let bytes: u128 = 3 * ((width as u128) * (height as u128));
        if bytes > usize::MAX as u128 {
            return Err(ConfigError::TooLarge);
        }
        match DensityGrid::new(width, height) {
            Ok(grid) => Ok(
                Heatmap {
                    viewport,
                    grid,
                    render_date: args.render_date,
                    render_title: args.render_title,
                },
            ),
            Err(e) => Err(e),
        }
    }

    /// Puts a heatmap together from a viewport and a grid of its size;
    /// `None` when the sizes differ or a frame of that size would not fit
    /// in memory.
    pub fn from_parts(
        viewport: Viewport,
        grid: DensityGrid,
        render_date: bool,
        render_title: bool,
    ) -> (made: Option<Heatmap>)
        requires
            viewport.wf(),
            grid.wf(),
        ensures
            made is Some <==> (HeatmapModel {
                viewport: viewport@,
                grid: grid@,
                render_date,
                render_title,
            }).wf(),
            made matches Some(h) ==> h.wf() && h@ == (HeatmapModel {
                viewport: viewport@,
                grid: grid@,
                render_date,
                render_title,
            }),
    {
        let width = viewport.width();
        let height = viewport.height();
        if grid.width() != width || grid.height() != height {
            return None;
        }
        assert(width * height <= 0xffff_ffff * 0xffff_ffff) by (nonlinear_arith)
            requires
                width <= 0xffff_ffff,
                height <= 0xffff_ffff,
        ;
        let bytes: u128 = 3 * ((width as u128) * (height as u128));
        if bytes > usize::MAX as u128 {
            return None;
        }
        Some(Heatmap { viewport, grid, render_date, render_title })
    }

    /// The number of columns.
    pub fn width(&self) -> (w: u32)
        ensures
            w == self@.viewport.width,
    {
        self.viewport.width()
    }

    /// The number of rows.
    pub fn height(&self) -> (h: u32)
        ensures
            h == self@.viewport.height,
    {
        self.viewport.height()
    }

    /// The largest count reached so far.
    pub fn max_value(&self) -> (m: u32)
        ensures
            m == self@.grid.max_value,
    {
        self.grid.max_value()
    }

    /// The density grid, for reading.
    pub fn grid(&self) -> (g: &DensityGrid)
        ensures
            g@ == self@.grid,
    {
        &self.grid
    }

    /// The number of visits recorded for `point`.
    pub fn count_at(&self, point: &ScreenPoint) -> (count: u32)
        requires
            self.wf(),
            self@.grid.contains(*point),
        ensures
            count == self@.grid.count_at(*point),
    {
        self.grid.count_at(point)
    }

    /// Maps a coordinate to its pixel by equirectangular projection, or to
    /// `None` when it is off screen. A pixel returned is a pixel of the grid.
    pub fn project_to_screen(&self, coord: &GeoPoint) -> (pixel: Option<ScreenPoint>)
        requires
            self.wf(),
        ensures
            pixel == self@.viewport.project(*coord),
            pixel is Some <==> self@.viewport.covers(*coord),
            pixel matches Some(p) ==> self@.grid.contains(p),
    {
        self.viewport.project(coord)
    }

    /// Records one visit of `point`.
    pub fn add_point(&mut self, point: &ScreenPoint)
        requires
            old(self).wf(),
            old(self)@.grid.contains(*point),
            old(self)@.grid.count_at(*point) < u32::MAX,
        ensures
            final(self).wf(),
            final(self)@ == (HeatmapModel { grid: old(self)@.grid.increment(*point), ..old(self)@ }),
            final(self)@.grid.count_at(*point) == old(self)@.grid.count_at(*point) + 1,
            forall|q: ScreenPoint|
                old(self)@.grid.contains(q) && q != *point
                    ==> #[trigger] final(self)@.grid.count_at(q) == old(self)@.grid.count_at(q),
            final(self)@.grid.max_value >= old(self)@.grid.max_value,
            forall|i: int|
                0 <= i < final(self)@.grid.counters.len() ==> #[trigger] final(self)@.grid.counters[i] <= final(self)@.grid.max_value,
    {
        self.grid.increment(point);
    }

    /// Fades the heatmap: every counter is lowered by `amount`, stopping at
    /// zero, and `max_value` is renormalised by `rule`.
    pub fn decay(&mut self, amount: u32, rule: Renormalize)
        requires
            old(self).wf(),
        ensures
            final(self).wf(),
            final(self)@ == (HeatmapModel {
                grid: old(self)@.grid.decay(amount as nat, rule),
                ..old(self)@
            }),
            forall|q: ScreenPoint|
                old(self)@.grid.contains(q) ==> #[trigger] final(self)@.grid.count_at(q)
                    == crate::grid::decayed(old(self)@.grid.count_at(q), amount as nat),
    {
        self.grid.decay(amount, rule);
    }

    /// Colours the grid. Fails exactly when the mapper's logarithm table
    /// is too short for the current `max_value`.
    pub fn render(&self, mapper: &ColorMapper) -> (painted: Result<Frame, RenderError>)
        requires
            self.wf(),
            mapper.wf(),
        ensures
            painted is Ok <==> mapper@.covers(self@.grid.max_value),
            painted matches Err(e) ==> e == RenderError::LogTableTooShort,
            painted matches Ok(frame) ==> frame.wf() && frame@ == self@.picture(mapper@),
    {
        let snapshot = self.grid.snapshot();
        assert(snapshot@.len() == self@.grid.counters.len());
        match mapper.colorize(snapshot, self.grid.max_value()) {
            Ok(pixels) => {
                let frame = Frame::from_pixels(self.grid.width(), self.grid.height(), pixels);
                Ok(frame.unwrap())
            },
            Err(e) => Err(e),
        }
    }

    /// The heatmap as an image.
    pub fn as_image(&self, mapper: &ColorMapper) -> (painted: Result<
        image::DynamicImage,
        RenderError,
    >)
        requires
            self.wf(),
            mapper.wf(),
        ensures
            painted is Ok <==> mapper@.covers(self@.grid.max_value),
            painted matches Err(e) ==> e == RenderError::LogTableTooShort,
            painted matches Ok(img) ==> image_is_rgb8(img) && image_bytes(img) == self@.picture(
                mapper@,
            ).pixels && image_dimensions(img) == (
                self@.grid.width as u32,
                self@.grid.height as u32,
            ),
    {
        match self.render(mapper) {
            Ok(frame) => {
                let width = frame.width();
                let height = frame.height();
                assert(3 * width <= 3 * (width * height)) by (nonlinear_arith)
                    requires
                        height >= 1,
                        width >= 0,
                ;
                let img = rgb8_image(width, height, frame.into_pixels());
                Ok(img.unwrap())
            },
            Err(e) => Err(e),
        }
    }

    /// The heatmap as an image with a caption drawn over it. `glyphs` is
    /// the rasterised caption; it is drawn in the mapper's ink, and what
    /// falls outside the image is clipped.
    pub fn as_image_with_overlay(&self, mapper: &ColorMapper, glyphs: &Vec<GlyphCoverage>) -> (painted:
        Result<image::DynamicImage, RenderError>)
        requires
            self.wf(),
            mapper.wf(),
            forall|k: int| 0 <= k < glyphs@.len() ==> glyphs@[k].wf(),
        ensures
            painted is Ok <==> mapper@.covers(self@.grid.max_value),
            painted matches Err(e) ==> e == RenderError::LogTableTooShort,
            painted matches Ok(img) ==> image_is_rgb8(img) && image_bytes(img) == self@.picture(
                mapper@,
            ).overlay(glyph_models(glyphs@), mapper@.ink).pixels && image_dimensions(img) == (
                self@.grid.width as u32,
                self@.grid.height as u32,
            ),
    {
        match self.render(mapper) {
            Ok(frame) => {
                let mut frame = frame;
                proof {
                    overlay_keeps_shape(frame@, glyph_models(glyphs@), mapper@.ink);
                }
                frame.overlay(glyphs, mapper.ink());
                let width = frame.width();
                let height = frame.height();
                assert(3 * width <= 3 * (width * height)) by (nonlinear_arith)
                    requires
                        height >= 1,
                        width >= 0,
                ;
                let img = rgb8_image(width, height, frame.into_pixels());
                Ok(img.unwrap())
            },
            Err(e) => Err(e),
        }
    }

    /// The caption lines of a frame that shows `activity`: its date where
    /// the date is drawn and can be written out, its name where the title
    /// is drawn.
    pub fn caption(&self, activity: &Activity) -> (lines: Vec<CaptionLine>)
        ensures
            line_models(lines@) == caption_layout(
                self@.viewport.height,
                self@.date_line(activity.timestamp),
                self@.title_line(activity.name@),
            ),
            lines@.len() == caption_layout(
                self@.viewport.height,
                self@.date_line(activity.timestamp),
                self@.title_line(activity.name@),
            ).len(),
    {
        let date = if self.render_date {
            date_text(activity.timestamp)
        } else {
            None
        };
        let title = if self.render_title {
            Some(activity.name.clone())
        } else {
            None
        };
        caption_lines(self.viewport.height(), date, title)
    }
}

} // verus!
