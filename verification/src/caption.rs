//! The caption of a frame: which lines of text are drawn, and where.

use std::fmt::Write;
use vstd::prelude::*;

verus! {

/// Distance of every caption line from the left edge of the frame, in pixels.
pub const CAPTION_MARGIN: u32 = 20;

/// A caption line is this fraction of the frame's height tall.
pub const LINES_PER_FRAME: u32 = 15;

/// One line of caption text, placed on the frame.
#[derive(Debug)]
pub struct CaptionLine {
    /// Column of the left end of the line.
    pub x: u32,
    /// Row of the top of the line.
    pub y: u32,
    /// Height of the glyphs, in pixels.
    pub scale: u32,
    pub text: String,
}

/// The mathematical content of a [`CaptionLine`].
pub struct CaptionLineModel {
    pub x: nat,
    pub y: nat,
    pub scale: nat,
    pub text: Seq<char>,
}

impl View for CaptionLine {
    type V = CaptionLineModel;

    open spec fn view(&self) -> CaptionLineModel {
        CaptionLineModel {
            x: self.x as nat,
            y: self.y as nat,
            scale: self.scale as nat,
            text: self.text@,
        }
    }
}

/// The models of a run of caption lines.
pub open spec fn line_models(lines: Seq<CaptionLine>) -> Seq<CaptionLineModel> {
    Seq::new(lines.len(), |k: int| lines[k]@)
}

/// The characters of a text that may be absent.
pub open spec fn text_of(text: Option<String>) -> Option<Seq<char>> {
    match text {
        Some(t) => Some(t@),
        None => None,
    }
}

/// The height of one caption line on a frame of the given height.
pub open spec fn line_height(height: nat) -> nat {
    height / (LINES_PER_FRAME as nat)
}

/// A caption line `below` whole lines above the lowest place: the lowest
/// line ends at the bottom edge of the frame, and every further line
/// stands one line height higher.
pub open spec fn line_in_slot(height: nat, below: nat, text: Seq<char>) -> CaptionLineModel {
    let step = line_height(height);
    CaptionLineModel {
        x: CAPTION_MARGIN as nat,
        y: if below == 0 {
            (height - step) as nat
        } else {
            (height - step - step) as nat
        },
        scale: step,
        text,
    }
}

/// The caption of a frame. The lines stack upwards from the bottom edge,
/// one line height apart: the date lowest, the title above it. A line
/// without text is left out, and the others close the gap.
pub open spec fn caption_layout(
    height: nat,
    date: Option<Seq<char>>,
    title: Option<Seq<char>>,
) -> Seq<CaptionLineModel> {
    match (date, title) {
        (Some(d), Some(t)) => seq![line_in_slot(height, 0, d), line_in_slot(height, 1, t)],
        (Some(d), None) => seq![line_in_slot(height, 0, d)],
        (None, Some(t)) => seq![line_in_slot(height, 0, t)],
        (None, None) => seq![],
    }
}

/// Caption lines lie inside the frame and do not overlap: each starts a
/// full line height above the one below it, and the lowest ends at the
/// bottom edge.
pub proof fn caption_lines_stack(height: nat, date: Option<Seq<char>>, title: Option<Seq<char>>)
    ensures
        forall|k: int|
            0 <= k < caption_layout(height, date, title).len() ==> {
                let line = #[trigger] caption_layout(height, date, title)[k];
                &&& line.y + line.scale <= height
                &&& line.y + (k + 1) * line.scale == height
            },
{
    let step = line_height(height);
    assert(2 * step <= height);
    assert(1 * step == step && 2 * step == step + step);
}

/// Lays out the caption of a frame of the given height.
pub fn caption_lines(height: u32, date: Option<String>, title: Option<String>) -> (lines: Vec<
    CaptionLine,
>)
    ensures
        line_models(lines@) == caption_layout(height as nat, text_of(date), text_of(title)),
        lines@.len() == caption_layout(height as nat, text_of(date), text_of(title)).len(),
        forall|k: int|
            0 <= k < lines@.len() ==> (#[trigger] lines@[k])@ == caption_layout(
                height as nat,
                text_of(date),
                text_of(title),
            )[k],
{
    let step: u32 = height / LINES_PER_FRAME;
    let mut lines: Vec<CaptionLine> = Vec::new();
    let mut y: u32 = height - step;
    let ghost wanted = caption_layout(height as nat, text_of(date), text_of(title));
    match date {
        Some(text) => {
            lines.push(CaptionLine { x: CAPTION_MARGIN, y, scale: step, text });
            y = y - step;
        },
        None => {},
    }
    match title {
        Some(text) => {
            lines.push(CaptionLine { x: CAPTION_MARGIN, y, scale: step, text });
        },
        None => {},
    }
    assert(line_models(lines@) =~= wanted);
    assert forall|k: int| 0 <= k < lines@.len() implies (#[trigger] lines@[k])@ == wanted[k] by {
        assert(line_models(lines@)[k] == lines@[k]@);
    }
    lines
}

/// The text that `chrono` writes for the moment `secs` seconds after the
/// Unix epoch, in UTC, under the strftime pattern `pattern`; `None` where
/// `chrono` cannot represent the moment or rejects the pattern.
pub uninterp spec fn utc_text(secs: i64, pattern: Seq<char>) -> Option<Seq<char>>;

/// The pattern of the date line: full month name, day of the month, year.
pub open spec fn date_pattern() -> Seq<char> {
    "%B %d, %Y"@
}

/// Calls `chrono::DateTime::from_timestamp` and `chrono::DateTime::format`:
/// the moment `secs` seconds after the Unix epoch is written out in UTC
/// under `pattern`. The result is `None` where `from_timestamp` returns
/// `None` (the moment lies outside the years `chrono` can represent) or
/// where writing fails (the pattern is not a valid strftime pattern).
/// Nothing is proved of the text itself: the contract only gives it the
/// name `utc_text`.
#[verifier::external_body]
fn format_utc(secs: i64, pattern: &str) -> (text: Option<String>)
    ensures
        text_of(text) == utc_text(secs, pattern@),
{
    let moment = chrono::DateTime::from_timestamp(secs, 0)?;
    let mut text = String::new();
    match write!(text, "{}", moment.format(pattern)) {
        Ok(()) => Some(text),
        Err(_) => None,
    }
}

/// The date line of an activity recorded at `timestamp`, in seconds since
/// the Unix epoch: for example "May 15, 2015".
pub fn date_text(timestamp: i64) -> (text: Option<String>)
    ensures
        text_of(text) == utc_text(timestamp, date_pattern()),
{
    format_utc(timestamp, "%B %d, %Y")
}

} // verus!
