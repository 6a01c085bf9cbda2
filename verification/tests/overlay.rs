use derivers::color::Rgb;
use derivers::frame::blend;
use derivers::frame::Frame;
use derivers::frame::GlyphCoverage;

const INK: Rgb = Rgb { r: 255, g: 255, b: 255 };

fn dark_frame(width: u32, height: u32) -> Frame {
    Frame::from_pixels(width, height, vec![0u8; (3 * width * height) as usize]).unwrap()
}

#[test]
fn blend_keeps_the_background_without_coverage() {
    assert_eq!(blend(17, 200, 0), 17);
    assert_eq!(blend(255, 0, 0), 255);
}

#[test]
fn blend_gives_the_ink_at_full_coverage() {
    assert_eq!(blend(17, 200, 255), 200);
    assert_eq!(blend(255, 0, 255), 0);
}

#[test]
fn blend_mixes_in_proportion_to_coverage() {
    // (100 * 204 + 200 * 51) / 255 = 120
    assert_eq!(blend(100, 200, 51), 120);
    // (0 * 127 + 255 * 128) / 255 = 128
    assert_eq!(blend(0, 255, 128), 128);
    // (10 * 155 + 20 * 100) / 255 = 13.9.., rounded down
    assert_eq!(blend(10, 20, 100), 13);
}

#[test]
fn blend_stays_between_background_and_ink() {
    for coverage in 0u16..=255 {
        let up = blend(40, 90, coverage as u8);
        assert!(40 <= up && up <= 90);
        let down = blend(90, 40, coverage as u8);
        assert!(40 <= down && down <= 90);
    }
}

#[test]
fn frame_needs_three_bytes_per_pixel() {
    assert!(Frame::from_pixels(2, 2, vec![0; 12]).is_some());
    assert!(Frame::from_pixels(2, 2, vec![0; 11]).is_none());
    assert!(Frame::from_pixels(2, 2, vec![0; 13]).is_none());
    assert!(Frame::from_pixels(0, 7, vec![]).is_some());
}

#[test]
fn frame_hands_out_its_pixels() {
    let bytes: Vec<u8> = (0u8..12).collect();
    let frame = Frame::from_pixels(2, 2, bytes.clone()).unwrap();
    assert_eq!(frame.width(), 2);
    assert_eq!(frame.height(), 2);
    assert_eq!(frame.pixels(), &bytes);
    assert_eq!(frame.color_at(0, 0), Rgb { r: 0, g: 1, b: 2 });
    assert_eq!(frame.color_at(1, 0), Rgb { r: 3, g: 4, b: 5 });
    assert_eq!(frame.color_at(0, 1), Rgb { r: 6, g: 7, b: 8 });
    assert_eq!(frame.color_at(1, 1), Rgb { r: 9, g: 10, b: 11 });
    assert_eq!(frame.into_pixels(), bytes);
}

#[test]
fn glyph_needs_one_value_per_pixel_of_its_box() {
    assert!(GlyphCoverage::new(0, 0, 2, 3, vec![0; 6]).is_some());
    assert!(GlyphCoverage::new(0, 0, 2, 3, vec![0; 5]).is_none());
    assert!(GlyphCoverage::new(-4, 9, 0, 0, vec![]).is_some());
}

#[test]
fn overlay_draws_the_glyph_where_it_is_placed() {
    let mut frame = dark_frame(4, 3);
    let glyph = GlyphCoverage::new(1, 1, 2, 2, vec![255, 128, 0, 51]).unwrap();
    frame.overlay_glyph(&glyph, INK);
    let black = Rgb { r: 0, g: 0, b: 0 };
    assert_eq!(frame.color_at(0, 0), black);
    assert_eq!(frame.color_at(1, 0), black);
    assert_eq!(frame.color_at(0, 1), black);
    assert_eq!(frame.color_at(1, 1), Rgb { r: 255, g: 255, b: 255 });
    assert_eq!(frame.color_at(2, 1), Rgb { r: 128, g: 128, b: 128 });
    assert_eq!(frame.color_at(3, 1), black);
    assert_eq!(frame.color_at(1, 2), black);
    assert_eq!(frame.color_at(2, 2), Rgb { r: 51, g: 51, b: 51 });
    assert_eq!(frame.color_at(3, 2), black);
}

#[test]
fn overlay_blends_each_channel_towards_the_ink() {
    let mut frame = Frame::from_pixels(1, 1, vec![100, 0, 250]).unwrap();
    let glyph = GlyphCoverage::new(0, 0, 1, 1, vec![51]).unwrap();
    frame.overlay_glyph(&glyph, Rgb { r: 200, g: 255, b: 0 });
    assert_eq!(frame.pixels(), &vec![120, 51, 200]);
}

#[test]
fn overlay_clips_what_runs_off_the_left_and_top() {
    let mut frame = dark_frame(2, 2);
    let glyph = GlyphCoverage::new(-1, -1, 2, 2, vec![10, 20, 30, 255]).unwrap();
    frame.overlay_glyph(&glyph, INK);
    assert_eq!(frame.pixels(), &vec![255, 255, 255, 0, 0, 0, 0, 0, 0, 0, 0, 0]);
}

#[test]
fn overlay_clips_what_runs_off_the_right_and_bottom() {
    let mut frame = dark_frame(2, 2);
    let glyph = GlyphCoverage::new(1, 1, 2, 2, vec![255, 20, 30, 40]).unwrap();
    frame.overlay_glyph(&glyph, INK);
    assert_eq!(frame.pixels(), &vec![0, 0, 0, 0, 0, 0, 0, 0, 0, 255, 255, 255]);
}

#[test]
fn overlay_of_a_glyph_outside_the_frame_changes_nothing() {
    let mut frame = dark_frame(2, 2);
    let far = GlyphCoverage::new(i32::MAX, i32::MIN, 2, 2, vec![255; 4]).unwrap();
    frame.overlay_glyph(&far, INK);
    let beside = GlyphCoverage::new(2, 0, 1, 2, vec![255; 2]).unwrap();
    frame.overlay_glyph(&beside, INK);
    assert_eq!(frame.pixels(), &vec![0u8; 12]);
}

#[test]
fn overlay_draws_glyphs_one_after_the_other() {
    let mut frame = dark_frame(3, 1);
    let glyphs = vec![
        GlyphCoverage::new(0, 0, 2, 1, vec![128, 128]).unwrap(),
        GlyphCoverage::new(1, 0, 2, 1, vec![128, 255]).unwrap(),
    ];
    frame.overlay(&glyphs, INK);
    // the middle pixel is covered twice: 128, then (128 * 127 + 255 * 128) / 255 = 191
    assert_eq!(frame.pixels(), &vec![128, 128, 128, 191, 191, 191, 255, 255, 255]);
}

#[test]
fn overlay_without_glyphs_changes_nothing() {
    let bytes: Vec<u8> = (0u8..27).collect();
    let mut frame = Frame::from_pixels(3, 3, bytes.clone()).unwrap();
    frame.overlay(&vec![], INK);
    assert_eq!(frame.into_pixels(), bytes);
}
