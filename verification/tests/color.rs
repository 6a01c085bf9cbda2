use derivers::color::check_log_table;
use derivers::color::ColorMapper;
use derivers::color::RenderError;
use derivers::color::Rgb;
use derivers::config::ConfigError;

const WHITE: Rgb = Rgb { r: 255, g: 255, b: 255 };
const BLACK: Rgb = Rgb { r: 0, g: 0, b: 0 };

fn grey(level: u8) -> Rgb {
    Rgb { r: level, g: level, b: level }
}

/// Five greys from cold to hot, and natural logarithms in thousandths.
fn mapper() -> ColorMapper {
    let ramp = vec![grey(10), grey(20), grey(30), grey(40), grey(50)];
    let logs = vec![0, 0, 693, 1099, 1386, 1609, 1792, 1946, 2079];
    ColorMapper::new(BLACK, WHITE, ramp, logs).unwrap()
}

#[test]
fn mapper_without_gradient_is_rejected() {
    let made = ColorMapper::new(BLACK, WHITE, vec![], vec![0, 0]);
    assert_eq!(made.err(), Some(ConfigError::EmptyGradient));
}

#[test]
fn mapper_keeps_its_colours() {
    let m = mapper();
    assert_eq!(m.background(), BLACK);
    assert_eq!(m.ink(), WHITE);
    assert_eq!(m.log_len(), 9);
}

#[test]
fn untouched_pixel_takes_the_background() {
    assert_eq!(mapper().shade(0, 8), BLACK);
    let light = ColorMapper::new(WHITE, BLACK, vec![grey(1)], vec![]).unwrap();
    assert_eq!(light.shade(0, 0), WHITE);
}

#[test]
fn gradient_runs_from_its_first_colour_to_its_last() {
    let m = mapper();
    assert_eq!(m.stop(0, 7), grey(10));
    assert_eq!(m.stop(7, 7), grey(50));
    // half way up a ramp of five
    assert_eq!(m.stop(1, 2), grey(30));
    // 2 / 3 of four steps is 2.66.., rounded down
    assert_eq!(m.stop(2, 3), grey(30));
    assert_eq!(m.stop(3, 4), grey(40));
}

#[test]
fn gradient_is_clamped_above_heat_one() {
    let m = mapper();
    assert_eq!(m.stop(9, 4), grey(50));
    assert_eq!(m.stop(u32::MAX, 1), grey(50));
    // a heat without denominator counts as one
    assert_eq!(m.stop(3, 0), grey(50));
    assert_eq!(m.stop(0, 0), grey(50));
}

#[test]
fn heat_is_the_quotient_of_logarithms() {
    let m = mapper();
    // ln 1 / ln 4 = 0
    assert_eq!(m.shade(1, 4), grey(10));
    // ln 2 / ln 4 = 0.5, of four steps: 693 * 4 / 1386 = 2
    assert_eq!(m.shade(2, 4), grey(30));
    // ln 3 / ln 4 = 0.79..: 1099 * 4 / 1386 = 3.17.., rounded down
    assert_eq!(m.shade(3, 4), grey(40));
    // ln 2 / ln 8 = 0.33..: 693 * 4 / 2079 = 1.33.., rounded down
    assert_eq!(m.shade(2, 8), grey(20));
}

#[test]
fn counter_at_the_maximum_takes_the_top_of_the_gradient() {
    let m = mapper();
    assert_eq!(m.shade(4, 4), grey(50));
    assert_eq!(m.shade(8, 8), grey(50));
    assert_eq!(m.shade(2, 2), grey(50));
}

#[test]
fn unit_maximum_maps_to_the_top_of_the_gradient() {
    let m = mapper();
    assert_eq!(m.shade(1, 1), grey(50));
    assert_eq!(m.colorize(&vec![0, 1, 1], 1), Ok(vec![0, 0, 0, 50, 50, 50, 50, 50, 50]));
}

#[test]
fn zero_maximum_still_colours_nonzero_counters() {
    assert_eq!(mapper().shade(3, 0), grey(50));
}

#[test]
fn table_that_does_not_grow_as_logarithms_is_rejected() {
    let ramp = || vec![grey(1), grey(2), grey(3)];
    // the logarithm of 1 is zero
    let made = ColorMapper::new(BLACK, WHITE, ramp(), vec![0, 5, 5]);
    assert_eq!(made.err(), Some(ConfigError::BadLogTable));
    // the logarithm of 2 is positive
    let made = ColorMapper::new(BLACK, WHITE, ramp(), vec![0, 0, 0, 0]);
    assert_eq!(made.err(), Some(ConfigError::BadLogTable));
    // a larger count has no smaller logarithm
    let made = ColorMapper::new(BLACK, WHITE, ramp(), vec![0, 0, 900, 300]);
    assert_eq!(made.err(), Some(ConfigError::BadLogTable));
    // an empty gradient is reported first
    let made = ColorMapper::new(BLACK, WHITE, vec![], vec![0, 5, 5]);
    assert_eq!(made.err(), Some(ConfigError::EmptyGradient));
}

#[test]
fn sound_tables_are_told_from_others() {
    assert!(check_log_table(&vec![]));
    assert!(check_log_table(&vec![42]));
    assert!(check_log_table(&vec![42, 0]));
    assert!(check_log_table(&vec![0, 0, 693, 1099, 1386]));
    assert!(check_log_table(&vec![0, 0, 1, 1, 1, 2]));
    assert!(!check_log_table(&vec![0, 1]));
    assert!(!check_log_table(&vec![0, 0, 0]));
    assert!(!check_log_table(&vec![0, 0, 693, 692]));
    assert!(!check_log_table(&vec![0, 0, 693, 1099, 0]));
}

#[test]
fn single_visit_takes_the_bottom_of_the_gradient() {
    let m = mapper();
    for max_value in 2..=8 {
        assert_eq!(m.shade(1, max_value), grey(10));
    }
}

#[test]
fn larger_count_is_never_colder() {
    let m = mapper();
    for max_value in 0..=8u32 {
        let mut last = 0;
        for count in 1..=8u32 {
            let level = m.shade(count, max_value).r;
            assert!(level >= last);
            last = level;
        }
    }
}

#[test]
fn heat_above_one_is_clamped() {
    // a counter above the maximum
    assert_eq!(mapper().shade(7, 4), grey(50));
}

#[test]
fn single_colour_gradient_colours_everything_alike() {
    let m = ColorMapper::new(BLACK, WHITE, vec![grey(77)], vec![0, 0, 693, 1099]).unwrap();
    assert_eq!(m.shade(1, 3), grey(77));
    assert_eq!(m.shade(2, 3), grey(77));
    assert_eq!(m.shade(3, 3), grey(77));
}

#[test]
fn colorize_writes_three_bytes_per_counter_in_order() {
    let ramp = vec![Rgb { r: 1, g: 2, b: 3 }, Rgb { r: 4, g: 5, b: 6 }, Rgb { r: 7, g: 8, b: 9 }];
    let m = ColorMapper::new(Rgb { r: 100, g: 101, b: 102 }, WHITE, ramp, vec![0, 0, 693, 1099, 1386])
        .unwrap();
    let painted = m.colorize(&vec![0, 1, 2, 4], 4).unwrap();
    assert_eq!(painted, vec![100, 101, 102, 1, 2, 3, 4, 5, 6, 7, 8, 9]);
}

#[test]
fn colorize_of_an_empty_snapshot_is_empty() {
    assert_eq!(mapper().colorize(&vec![], 0), Ok(vec![]));
}

#[test]
fn colorize_twice_gives_identical_bytes() {
    let m = mapper();
    let snapshot = vec![0, 3, 8, 1, 5, 0, 2];
    let first = m.colorize(&snapshot, 8);
    let second = m.colorize(&snapshot, 8);
    assert!(first.is_ok());
    assert_eq!(first, second);
}

#[test]
fn short_logarithm_table_is_reported() {
    let m = mapper();
    assert!(m.covers(8));
    assert!(!m.covers(9));
    assert_eq!(m.colorize(&vec![0, 1], 9), Err(RenderError::LogTableTooShort));
    // a maximum of at most one needs no table at all
    let bare = ColorMapper::new(BLACK, WHITE, vec![grey(1)], vec![]).unwrap();
    assert!(bare.covers(0));
    assert!(bare.covers(1));
    assert!(!bare.covers(2));
    assert_eq!(bare.colorize(&vec![1], 1), Ok(vec![1, 1, 1]));
}

#[test]
fn logarithm_table_can_be_extended() {
    let mut m = mapper();
    assert!(m.push_log(2197));
    assert_eq!(m.log_len(), 10);
    assert!(m.covers(9));
    // ln 3 / ln 9 = 0.5
    assert_eq!(m.shade(3, 9), grey(30));
}

#[test]
fn logarithm_table_refuses_a_value_that_does_not_fit() {
    let mut m = mapper();
    assert!(!m.push_log(2078));
    assert!(!m.push_log(0));
    assert_eq!(m.log_len(), 9);
    assert!(m.push_log(2079));
    let mut bare = ColorMapper::new(BLACK, WHITE, vec![grey(1)], vec![]).unwrap();
    assert!(bare.push_log(17));
    assert!(!bare.push_log(1));
    assert!(bare.push_log(0));
    assert!(!bare.push_log(0));
    assert!(bare.push_log(1));
    assert_eq!(bare.log_len(), 3);
}
