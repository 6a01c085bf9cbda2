//! Rendered frames, and the compositing of glyph coverage onto them.

use vstd::prelude::*;
use crate::color::channel;
use crate::color::Rgb;

verus! {

/// A channel value drawn over another with a coverage of `coverage / 255`:
/// `under * (1 - coverage) + over * coverage`, rounded down.
pub open spec fn blended(under: u8, over: u8, coverage: u8) -> u8 {
    ((under * (255 - coverage) + over * coverage) / 255) as u8
}

/// Blending moves a channel from `under` towards `over` and never past
/// either: no coverage keeps `under`, full coverage gives `over`.
pub proof fn blended_stays_between(under: u8, over: u8, coverage: u8)
    ensures
        blended(under, over, 0) == under,
        blended(under, over, 255) == over,
        under <= over ==> under <= blended(under, over, coverage) <= over,
        over <= under ==> over <= blended(under, over, coverage) <= under,
{
    let total = under * (255 - coverage) + over * coverage;
    assert(under * (255 - 0) + over * 0 == 255 * under) by (nonlinear_arith);
    assert(under * (255 - 255) + over * 255 == 255 * over) by (nonlinear_arith);
    assert(under <= over ==> 255 * under <= total <= 255 * over) by (nonlinear_arith)
        requires
            total == under * (255 - coverage) + over * coverage,
            0 <= coverage <= 255,
    ;
    assert(over <= under ==> 255 * over <= total <= 255 * under) by (nonlinear_arith)
        requires
            total == under * (255 - coverage) + over * coverage,
            0 <= coverage <= 255,
    ;
}

/// The mathematical content of a [`GlyphCoverage`]: a box of coverage
/// values placed at `(left, top)` on the frame, row-major.
pub struct GlyphModel {
    pub left: int,
    pub top: int,
    pub width: nat,
    pub height: nat,
    pub coverage: Seq<u8>,
}

impl GlyphModel {
    /// There is one coverage value per pixel of the box.
    pub open spec fn wf(self) -> bool {
        &&& self.width <= u32::MAX
        &&& self.height <= u32::MAX
        &&& self.coverage.len() == self.width * self.height
    }

    /// The coverage that the glyph lays over frame pixel `(x, y)`, if its
    /// box reaches that pixel.
    pub open spec fn coverage_at(self, x: int, y: int) -> Option<u8> {
        let gx = x - self.left;
        let gy = y - self.top;
        if 0 <= gx < self.width && 0 <= gy < self.height {
            Some(self.coverage[gx + gy * self.width])
        } else {
            None
        }
    }
}

/// The mathematical content of a [`Frame`]: an RGB raster, three bytes per
/// pixel in row-major order.
pub struct FrameModel {
    pub width: nat,
    pub height: nat,
    pub pixels: Seq<u8>,
}

impl FrameModel {
    /// There are three bytes per pixel.
    pub open spec fn wf(self) -> bool {
        &&& self.width <= u32::MAX
        &&& self.height <= u32::MAX
        &&& self.pixels.len() == 3 * (self.width * self.height)
    }

    /// The colour of pixel `(x, y)`.
    pub open spec fn color_at(self, x: int, y: int) -> Rgb {
        let at = 3 * (x + y * self.width);
        Rgb { r: self.pixels[at], g: self.pixels[at + 1], b: self.pixels[at + 2] }
    }

    /// Byte `i` of the frame after `glyph` was drawn in `ink`: blended
    /// where the glyph's box reaches the byte's pixel, unchanged elsewhere.
    pub open spec fn overlaid_byte(self, glyph: GlyphModel, ink: Rgb, i: int) -> u8 {
        match glyph.coverage_at((i / 3) % (self.width as int), (i / 3) / (self.width as int)) {
            Some(c) => blended(self.pixels[i], channel(ink, i % 3), c),
            None => self.pixels[i],
        }
    }

    /// The frame with one glyph drawn over it. Parts of the glyph that fall
    /// outside the frame are clipped.
    pub open spec fn overlay_glyph(self, glyph: GlyphModel, ink: Rgb) -> FrameModel {
        FrameModel {
            pixels: Seq::new(self.pixels.len(), |i: int| self.overlaid_byte(glyph, ink, i)),
            ..self
        }
    }

    /// The frame with a run of glyphs drawn over it, first to last.
    pub open spec fn overlay(self, glyphs: Seq<GlyphModel>, ink: Rgb) -> FrameModel
        decreases glyphs.len(),
    {
        if glyphs.len() == 0 {
            self
        } else {
            self.overlay(glyphs.drop_last(), ink).overlay_glyph(glyphs.last(), ink)
        }
    }

    /// Byte `i` while a glyph is being drawn: the rows above `rows` and
    /// the first `cols` pixels of row `rows` are done.
    spec fn partly_overlaid_byte(
        self,
        glyph: GlyphModel,
        ink: Rgb,
        rows: int,
        cols: int,
        i: int,
    ) -> u8 {
        let gx = (i / 3) % (self.width as int) - glyph.left;
        let gy = (i / 3) / (self.width as int) - glyph.top;
        if gy < rows || (gy == rows && gx < cols) {
            self.overlaid_byte(glyph, ink, i)
        } else {
            self.pixels[i]
        }
    }
}

/// Byte positions and pixel positions of a well-formed frame determine
/// each other.
proof fn lemma_byte_position(f: FrameModel, i: int)
    requires
        f.wf(),
        0 <= i < f.pixels.len(),
    ensures
        0 <= (i / 3) % (f.width as int) < f.width,
        0 <= (i / 3) / (f.width as int) < f.height,
        i / 3 == (i / 3) % (f.width as int) + ((i / 3) / (f.width as int)) * f.width,
{
    let w = f.width as int;
    let px = i / 3;
    assert(w > 0 && px < w * f.height) by (nonlinear_arith)
        requires
            0 <= px,
            3 * px <= i,
            i < 3 * (w * f.height),
            0 <= w,
    ;
    vstd::arithmetic::div_mod::lemma_fundamental_div_mod(px, w);
    let x = px % w;
    let y = px / w;
    assert(0 <= y < f.height && w * y == y * w) by (nonlinear_arith)
        requires
            0 <= px < w * f.height,
            0 < w,
            px == w * y + x,
            0 <= x < w,
    ;
}

proof fn lemma_pixel_position(f: FrameModel, x: int, y: int, k: int)
    requires
        f.wf(),
        0 <= x < f.width,
        0 <= y < f.height,
        0 <= k < 3,
    ensures
        0 <= 3 * (x + y * f.width) + k < f.pixels.len(),
        ((3 * (x + y * f.width) + k) / 3) % (f.width as int) == x,
        ((3 * (x + y * f.width) + k) / 3) / (f.width as int) == y,
        (3 * (x + y * f.width) + k) % 3 == k,
{
    let w = f.width as int;
    let px = x + y * w;
    assert(0 <= px < w * f.height && 0 <= y * w) by (nonlinear_arith)
        requires
            px == x + y * w,
            0 <= x < w,
            0 <= y < f.height,
    ;
    vstd::arithmetic::div_mod::lemma_fundamental_div_mod_converse(px, w, y, x);
}

proof fn lemma_glyph_position(g: GlyphModel, gx: int, gy: int)
    by (nonlinear_arith)
    requires
        g.wf(),
        0 <= gx < g.width,
        0 <= gy < g.height,
    ensures
        0 <= gy * g.width,
        0 <= gx + gy * g.width < g.coverage.len(),
{
    assert(gy * g.width + g.width <= g.height * g.width);
}

/// A colour drawn over another with the given coverage, channel by channel.
pub open spec fn blended_color(under: Rgb, over: Rgb, coverage: u8) -> Rgb {
    Rgb {
        r: blended(under.r, over.r, coverage),
        g: blended(under.g, over.g, coverage),
        b: blended(under.b, over.b, coverage),
    }
}

/// A glyph seen pixel by pixel: a pixel that the glyph's box reaches moves
/// towards the ink in proportion to its coverage, and every other pixel
/// keeps its colour. What the box holds outside the frame is never drawn.
pub proof fn overlay_by_pixel(f: FrameModel, glyph: GlyphModel, ink: Rgb, x: int, y: int)
    requires
        f.wf(),
        0 <= x < f.width,
        0 <= y < f.height,
    ensures
        f.overlay_glyph(glyph, ink).color_at(x, y) == (match glyph.coverage_at(x, y) {
            Some(c) => blended_color(f.color_at(x, y), ink, c),
            None => f.color_at(x, y),
        }),
{
    lemma_pixel_position(f, x, y, 0);
    lemma_pixel_position(f, x, y, 1);
    lemma_pixel_position(f, x, y, 2);
}

/// Drawing a glyph keeps the frame's size and shape.
pub proof fn overlay_keeps_shape(f: FrameModel, glyphs: Seq<GlyphModel>, ink: Rgb)
    requires
        f.wf(),
    ensures
        f.overlay(glyphs, ink).wf(),
        f.overlay(glyphs, ink).width == f.width,
        f.overlay(glyphs, ink).height == f.height,
    decreases glyphs.len(),
{
    if glyphs.len() > 0 {
        overlay_keeps_shape(f, glyphs.drop_last(), ink);
    }
}

/// The coverage of one glyph: a box of values from 0 (untouched) to 255
/// (fully covered), placed at `(left, top)` on the frame.
#[derive(Debug)]
pub struct GlyphCoverage {
    left: i32,
    top: i32,
    width: u32,
    height: u32,
    coverage: Vec<u8>,
}

impl View for GlyphCoverage {
    type V = GlyphModel;

    closed spec fn view(&self) -> GlyphModel {
        GlyphModel {
            left: self.left as int,
            top: self.top as int,
            width: self.width as nat,
            height: self.height as nat,
            coverage: self.coverage@,
        }
    }
}

impl GlyphCoverage {
    /// Whether the value is well formed: its model is.
    pub open spec fn wf(&self) -> bool {
        self@.wf()
    }

    /// A glyph box, or `None` when `coverage` does not hold exactly one
    /// value per pixel of the box.
    pub fn new(left: i32, top: i32, width: u32, height: u32, coverage: Vec<u8>) -> (made: Option<
        GlyphCoverage,
    >)
        ensures
            made is Some <==> coverage@.len() == width * height,
            made matches Some(g) ==> g.wf() && g@ == (GlyphModel {
                left: left as int,
                top: top as int,
                width: width as nat,
                height: height as nat,
                coverage: coverage@,
            }),
    {
        assert(width * height <= 0xffff_ffff * 0xffff_ffff) by (nonlinear_arith)
            requires
                width <= 0xffff_ffff,
                height <= 0xffff_ffff,
        ;
        let cells: u64 = (width as u64) * (height as u64);
        if coverage.len() as u64 != cells {
            return None;
        }
        Some(GlyphCoverage { left, top, width, height, coverage })
    }
}

/// An RGB raster of `width` by `height` pixels.
#[derive(Debug)]
pub struct Frame {
    width: u32,
    height: u32,
    pixels: Vec<u8>,
}

impl View for Frame {
    type V = FrameModel;

    closed spec fn view(&self) -> FrameModel {
        FrameModel {
            width: self.width as nat,
            height: self.height as nat,
            pixels: self.pixels@,
        }
    }
}

/// Mixes one channel; see [`blended`].
pub fn blend(under: u8, over: u8, coverage: u8) -> (mixed: u8)
    ensures
        mixed == blended(under, over, coverage),
{
    let keep: u32 = 255 - coverage as u32;
    assert(under * keep <= 255 * 255 && over * coverage <= 255 * 255) by (nonlinear_arith)
        requires
            under <= 255,
            keep <= 255,
            over <= 255,
            coverage <= 255,
    ;
    assert(under * keep + over * coverage <= 255 * 255) by (nonlinear_arith)
        requires
            under <= 255,
            over <= 255,
            keep + coverage == 255,
            0 <= keep,
            0 <= coverage,
    ;
    let total: u32 = (under as u32) * keep + (over as u32) * (coverage as u32);
    (total / 255) as u8
}

impl Frame {
    /// Whether the value is well formed: its model is.
    pub open spec fn wf(&self) -> bool {
        self@.wf()
    }

    /// A frame over the given bytes, or `None` when there are not exactly
    /// three bytes per pixel.
    pub fn from_pixels(width: u32, height: u32, pixels: Vec<u8>) -> (made: Option<Frame>)
        ensures
            made is Some <==> pixels@.len() == 3 * (width * height),
            made matches Some(f) ==> f.wf() && f@ == (FrameModel {
                width: width as nat,
                height: height as nat,
                pixels: pixels@,
            }),
    {
        assert(width * height <= 0xffff_ffff * 0xffff_ffff) by (nonlinear_arith)
            requires
                width <= 0xffff_ffff,
                height <= 0xffff_ffff,
        ;
        let bytes: u128 = 3 * ((width as u128) * (height as u128));
        if pixels.len() as u128 != bytes {
            return None;
        }
        Some(Frame { width, height, pixels })
    }

    /// The number of columns.
    pub fn width(&self) -> (w: u32)
        ensures
            w == self@.width,
    {
        self.width
    }

    /// The number of rows.
    pub fn height(&self) -> (h: u32)
        ensures
            h == self@.height,
    {
        self.height
    }

    /// The bytes of the frame: red, green and blue of each pixel, row-major.
    pub fn pixels(&self) -> (bytes: &Vec<u8>)
        ensures
            bytes@ == self@.pixels,
    {
        &self.pixels
    }

    /// Gives up the frame for its bytes.
    pub fn into_pixels(self) -> (bytes: Vec<u8>)
        ensures
            bytes@ == self@.pixels,
    {
        self.pixels
    }

    /// The colour of pixel `(x, y)`.
    pub fn color_at(&self, x: u32, y: u32) -> (c: Rgb)
        requires
            self.wf(),
            x < self@.width,
            y < self@.height,
        ensures
            c == self@.color_at(x as int, y as int),
    {
        proof {
            lemma_pixel_position(self@, x as int, y as int, 0);
            lemma_pixel_position(self@, x as int, y as int, 2);
            assert(self.pixels@.len() == self.pixels.len() <= usize::MAX);
            assert(0 <= y * self.width) by (nonlinear_arith);
        }
        let at: usize = 3 * ((x as usize) + (y as usize) * (self.width as usize));
        Rgb { r: self.pixels[at], g: self.pixels[at + 1], b: self.pixels[at + 2] }
    }

    /// Draws one glyph in `ink`: each covered pixel moves towards the ink
    /// in proportion to its coverage. What falls outside the frame is
    /// clipped.
    pub fn overlay_glyph(&mut self, glyph: &GlyphCoverage, ink: Rgb)
        requires
            old(self).wf(),
            glyph.wf(),
        ensures
            final(self).wf(),
            final(self)@ == old(self)@.overlay_glyph(glyph@, ink),
    {
        let ghost before = self@;
        let ghost shape = glyph@;
        let mut gy: u32 = 0;
        assert(self.pixels@ =~= Seq::new(
            before.pixels.len(),
            |i: int| before.partly_overlaid_byte(shape, ink, 0, 0, i),
        )) by {
            assert forall|i: int| 0 <= i < before.pixels.len() implies before.pixels[i]
                == before.partly_overlaid_byte(shape, ink, 0, 0, i) by {
                lemma_byte_position(before, i);
                if shape.coverage_at(
                    (i / 3) % (before.width as int),
                    (i / 3) / (before.width as int),
                ) is Some {
                }
            }
        }
        while gy < glyph.height
            invariant
                gy <= glyph.height,
                before.wf(),
                glyph.wf(),
                shape == glyph@,
                self.width == before.width,
                self.height == before.height,
                self.pixels@ == Seq::new(
                    before.pixels.len(),
                    |i: int| before.partly_overlaid_byte(shape, ink, gy as int, 0, i),
                ),
            decreases glyph.height - gy,
        {
            let mut gx: u32 = 0;
            while gx < glyph.width
                invariant
                    gy < glyph.height,
                    gx <= glyph.width,
                    before.wf(),
                    glyph.wf(),
                    shape == glyph@,
                    self.width == before.width,
                    self.height == before.height,
                    self.pixels@ == Seq::new(
                        before.pixels.len(),
                        |i: int| before.partly_overlaid_byte(shape, ink, gy as int, gx as int, i),
                    ),
                decreases glyph.width - gx,
            {
                let fx: i64 = glyph.left as i64 + gx as i64;
                let fy: i64 = glyph.top as i64 + gy as i64;
                let ghost prior = self.pixels@;
                if 0 <= fx && fx < self.width as i64 && 0 <= fy && fy < self.height as i64 {
                    proof {
                        lemma_glyph_position(shape, gx as int, gy as int);
                        lemma_pixel_position(before, fx as int, fy as int, 0);
                        lemma_pixel_position(before, fx as int, fy as int, 1);
                        lemma_pixel_position(before, fx as int, fy as int, 2);
                        assert(self.pixels@.len() == self.pixels.len() <= usize::MAX);
                        assert(glyph.coverage@.len() == glyph.coverage.len() <= usize::MAX);
                        assert(0 <= fy * self.width) by (nonlinear_arith)
                            requires
                                0 <= fy,
                        ;
                    }
                    let cover = glyph.coverage[(gx as usize) + (gy as usize) * (
                    glyph.width as usize)];
                    let at: usize = 3 * ((fx as usize) + (fy as usize) * (self.width as usize));
                    let red = blend(self.pixels[at], ink.r, cover);
                    let green = blend(self.pixels[at + 1], ink.g, cover);
                    let blue = blend(self.pixels[at + 2], ink.b, cover);
                    self.pixels.set(at, red);
                    self.pixels.set(at + 1, green);
                    self.pixels.set(at + 2, blue);
                    proof {
                        assert forall|i: int| 0 <= i < before.pixels.len() implies self.pixels@[i]
                            == before.partly_overlaid_byte(
                            shape,
                            ink,
                            gy as int,
                            gx as int + 1,
                            i,
                        ) by {
                            lemma_byte_position(before, i);
                            assert(prior[i] == before.partly_overlaid_byte(
                                shape,
                                ink,
                                gy as int,
                                gx as int,
                                i,
                            ));
                        }
                    }
                } else {
                    proof {
                        assert forall|i: int| 0 <= i < before.pixels.len() implies self.pixels@[i]
                            == before.partly_overlaid_byte(
                            shape,
                            ink,
                            gy as int,
                            gx as int + 1,
                            i,
                        ) by {
                            lemma_byte_position(before, i);
                            assert(prior[i] == before.partly_overlaid_byte(
                                shape,
                                ink,
                                gy as int,
                                gx as int,
                                i,
                            ));
                        }
                    }
                }
                gx += 1;
                assert(self.pixels@ =~= Seq::new(
                    before.pixels.len(),
                    |i: int| before.partly_overlaid_byte(shape, ink, gy as int, gx as int, i),
                ));
            }
            gy += 1;
            assert(self.pixels@ =~= Seq::new(
                before.pixels.len(),
                |i: int| before.partly_overlaid_byte(shape, ink, gy as int, 0, i),
            )) by {
                assert forall|i: int| 0 <= i < before.pixels.len() implies self.pixels@[i]
                    == before.partly_overlaid_byte(shape, ink, gy as int, 0, i) by {
                    assert(self.pixels@[i] == before.partly_overlaid_byte(
                        shape,
                        ink,
                        gy as int - 1,
                        shape.width as int,
                        i,
                    ));
                }
            }
        }
        assert(self@.pixels =~= before.overlay_glyph(shape, ink).pixels);
    }

    /// Draws a run of glyphs in `ink`, first to last.
    pub fn overlay(&mut self, glyphs: &Vec<GlyphCoverage>, ink: Rgb)
        requires
            old(self).wf(),
            forall|k: int| 0 <= k < glyphs@.len() ==> glyphs@[k].wf(),
        ensures
            final(self).wf(),
            final(self)@ == old(self)@.overlay(glyph_models(glyphs@), ink),
    {
        let ghost before = self@;
        let ghost shapes = glyph_models(glyphs@);
        let mut at: usize = 0;
        while at < glyphs.len()
            invariant
                at <= glyphs@.len(),
                self.wf(),
                before.wf(),
                shapes == glyph_models(glyphs@),
                forall|k: int| 0 <= k < glyphs@.len() ==> glyphs@[k].wf(),
                self@ == before.overlay(shapes.take(at as int), ink),
            decreases glyphs@.len() - at,
        {
            self.overlay_glyph(&glyphs[at], ink);
            proof {
                let done = shapes.take(at as int + 1);
                assert(done.drop_last() =~= shapes.take(at as int));
                assert(done.last() == glyphs@[at as int]@);
            }
            at += 1;
        }
        assert(shapes.take(at as int) =~= shapes);
    }
}

/// The models of a run of glyphs.
pub open spec fn glyph_models(glyphs: Seq<GlyphCoverage>) -> Seq<GlyphModel> {
    Seq::new(glyphs.len(), |k: int| glyphs[k]@)
}

} // verus!
