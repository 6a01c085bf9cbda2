use derivers::config::ConfigError;
use derivers::geometry::GeoPoint;
use derivers::geometry::Viewport;
use derivers::grid::DensityGrid;
use derivers::grid::Renormalize;
use derivers::heatmap::Heatmap;
use derivers::config::Settings;
use derivers::timeline::Action;
use derivers::timeline::Decay;
use derivers::timeline::DriverError;
use derivers::timeline::Event;
use derivers::timeline::Phase;
use derivers::timeline::TimelineDriver;

const UNIT: i64 = 10_000_000;

fn heatmap() -> Heatmap {
    Heatmap::from(&Settings {
        top: UNIT,
        left: 0,
        bottom: 0,
        right: UNIT,
        width: 100,
        height: None,
        render_date: false,
        render_title: false,
    })
    .unwrap()
}

fn driver(cadence: u32, decay: Option<Decay>) -> TimelineDriver {
    TimelineDriver::new(heatmap(), cadence, decay).unwrap()
}

fn centre() -> GeoPoint {
    GeoPoint { lat: UNIT / 2, lng: UNIT / 2 }
}

#[test]
fn driver_needs_a_cadence() {
    assert_eq!(TimelineDriver::new(heatmap(), 0, None).err(), Some(ConfigError::ZeroCadence));
}

#[test]
fn driver_starts_idle_and_empty() {
    let d = driver(10, None);
    assert_eq!(d.phase(), Phase::Idle);
    assert_eq!(d.pending(), 0);
    assert_eq!(d.heatmap().max_value(), 0);
}

#[test]
fn two_activities_on_one_pixel_count_two() {
    let mut d = driver(1500, None);
    assert_eq!(d.step(Event::Begin(1_000)), Ok(Action::Continue));
    assert_eq!(d.step(Event::Sample(centre())), Ok(Action::Continue));
    assert_eq!(d.step(Event::End), Ok(Action::Continue));
    assert_eq!(d.step(Event::Begin(2_000)), Ok(Action::Continue));
    assert_eq!(d.step(Event::Sample(centre())), Ok(Action::Continue));
    assert_eq!(d.step(Event::End), Ok(Action::Continue));
    assert_eq!(d.step(Event::Finish), Ok(Action::EmitFinal));
    let map = d.into_heatmap();
    assert_eq!(map.count_at(&(50, 50)), 2);
    assert_eq!(map.max_value(), 2);
    let mut expected = vec![0u32; 100 * 100];
    expected[50 + 50 * 100] = 2;
    assert_eq!(map.grid().snapshot(), &expected);
}

#[test]
fn order_of_points_within_an_activity_does_not_matter() {
    let a = GeoPoint { lat: UNIT / 4, lng: UNIT / 4 };
    let b = GeoPoint { lat: UNIT / 2, lng: 3 * UNIT / 4 };
    let mut one = driver(1500, None);
    one.step(Event::Begin(1)).unwrap();
    for p in [a, b, a, centre()] {
        one.step(Event::Sample(p)).unwrap();
    }
    let mut other = driver(1500, None);
    other.step(Event::Begin(1)).unwrap();
    for p in [centre(), a, a, b] {
        other.step(Event::Sample(p)).unwrap();
    }
    assert_eq!(one.heatmap().grid().snapshot(), other.heatmap().grid().snapshot());
    assert_eq!(one.heatmap().max_value(), other.heatmap().max_value());
    assert_eq!(one.heatmap().count_at(&(25, 75)), 2);
}

#[test]
fn twenty_five_points_at_cadence_ten_give_two_frames_and_the_final_one() {
    let mut d = driver(10, None);
    assert_eq!(d.step(Event::Begin(7)), Ok(Action::Continue));
    let mut frames_at = Vec::new();
    for n in 1..=25 {
        match d.step(Event::Sample(centre())) {
            Ok(Action::EmitFrame) => frames_at.push(n),
            Ok(Action::Continue) => {}
            other => panic!("unexpected reply {:?}", other),
        }
    }
    assert_eq!(frames_at, vec![10, 20]);
    assert_eq!(d.pending(), 5);
    assert_eq!(d.step(Event::End), Ok(Action::Continue));
    assert_eq!(d.step(Event::Finish), Ok(Action::EmitFinal));
    assert_eq!(d.phase(), Phase::Finished);
    assert_eq!(d.heatmap().count_at(&(50, 50)), 25);
}

#[test]
fn off_screen_points_do_not_count_towards_the_cadence() {
    let mut d = driver(2, None);
    d.step(Event::Begin(7)).unwrap();
    let outside = GeoPoint { lat: 2 * UNIT, lng: UNIT / 2 };
    assert_eq!(d.step(Event::Sample(centre())), Ok(Action::Continue));
    assert_eq!(d.step(Event::Sample(outside)), Ok(Action::Continue));
    assert_eq!(d.step(Event::Sample(outside)), Ok(Action::Continue));
    assert_eq!(d.pending(), 1);
    assert_eq!(d.step(Event::Sample(centre())), Ok(Action::EmitFrame));
    assert_eq!(d.pending(), 0);
    assert_eq!(d.heatmap().max_value(), 2);
}

#[test]
fn count_towards_the_next_frame_carries_over_activities() {
    let mut d = driver(3, None);
    d.step(Event::Begin(1)).unwrap();
    assert_eq!(d.step(Event::Sample(centre())), Ok(Action::Continue));
    assert_eq!(d.step(Event::Sample(centre())), Ok(Action::Continue));
    d.step(Event::End).unwrap();
    d.step(Event::Begin(2)).unwrap();
    assert_eq!(d.pending(), 2);
    assert_eq!(d.step(Event::Sample(centre())), Ok(Action::EmitFrame));
    assert_eq!(d.pending(), 0);
    assert_eq!(d.step(Event::Sample(centre())), Ok(Action::Continue));
    assert_eq!(d.step(Event::Sample(centre())), Ok(Action::Continue));
    assert_eq!(d.step(Event::Sample(centre())), Ok(Action::EmitFrame));
}

#[test]
fn two_activities_of_one_point_each_complete_a_cadence_of_two() {
    let mut d = driver(2, None);
    d.step(Event::Begin(1)).unwrap();
    assert_eq!(d.step(Event::Sample(centre())), Ok(Action::Continue));
    d.step(Event::End).unwrap();
    d.step(Event::Begin(2)).unwrap();
    assert_eq!(d.step(Event::Sample(centre())), Ok(Action::EmitFrame));
    d.step(Event::End).unwrap();
    assert_eq!(d.step(Event::Finish), Ok(Action::EmitFinal));
}

#[test]
fn frames_fall_on_every_multiple_of_the_cadence_over_the_run() {
    // activities of 4, 0, 7 and 3 on-screen points at cadence 5: 14 points, 2 frames
    let mut d = driver(5, None);
    let mut frames_at = Vec::new();
    let mut seen = 0;
    for (stamp, points) in [(1i64, 4), (2, 0), (3, 7), (4, 3)] {
        d.step(Event::Begin(stamp)).unwrap();
        for _ in 0..points {
            seen += 1;
            if d.step(Event::Sample(centre())) == Ok(Action::EmitFrame) {
                frames_at.push(seen);
            }
            assert!(d.pending() < 5);
        }
        d.step(Event::End).unwrap();
    }
    assert_eq!(frames_at, vec![5, 10]);
    assert_eq!(d.pending(), 4);
    assert_eq!(d.step(Event::Finish), Ok(Action::EmitFinal));
}

#[test]
fn cadence_of_one_gives_a_frame_for_every_point() {
    let mut d = driver(1, None);
    d.step(Event::Begin(1)).unwrap();
    assert_eq!(d.step(Event::Sample(centre())), Ok(Action::EmitFrame));
    assert_eq!(d.step(Event::Sample(centre())), Ok(Action::EmitFrame));
}

#[test]
fn final_frame_is_due_even_without_activities() {
    let mut d = driver(10, None);
    assert_eq!(d.step(Event::Finish), Ok(Action::EmitFinal));
    assert_eq!(d.phase(), Phase::Finished);
}

#[test]
fn decay_is_applied_at_the_end_of_each_activity() {
    let fade = Decay { amount: 1, rule: Renormalize::Step(1) };
    let mut d = driver(100, Some(fade));
    d.step(Event::Begin(1)).unwrap();
    for _ in 0..3 {
        d.step(Event::Sample(centre())).unwrap();
    }
    d.step(Event::Sample(GeoPoint { lat: UNIT, lng: 0 })).unwrap();
    // nothing fades while the activity lasts
    assert_eq!(d.heatmap().count_at(&(50, 50)), 3);
    assert_eq!(d.heatmap().count_at(&(0, 0)), 1);
    d.step(Event::End).unwrap();
    assert_eq!(d.heatmap().count_at(&(50, 50)), 2);
    assert_eq!(d.heatmap().count_at(&(0, 0)), 0);
    assert_eq!(d.heatmap().max_value(), 2);
    d.step(Event::Begin(2)).unwrap();
    d.step(Event::End).unwrap();
    assert_eq!(d.heatmap().count_at(&(50, 50)), 1);
    assert_eq!(d.heatmap().max_value(), 1);
}

#[test]
fn events_out_of_phase_are_refused_and_change_nothing() {
    let mut d = driver(10, None);
    assert_eq!(d.step(Event::Sample(centre())), Err(DriverError::OutOfPhase));
    assert_eq!(d.step(Event::End), Err(DriverError::OutOfPhase));
    assert_eq!(d.phase(), Phase::Idle);
    assert_eq!(d.heatmap().max_value(), 0);
    d.step(Event::Begin(1)).unwrap();
    assert_eq!(d.step(Event::Begin(2)), Err(DriverError::OutOfPhase));
    assert_eq!(d.step(Event::Finish), Err(DriverError::OutOfPhase));
    assert_eq!(d.phase(), Phase::Active);
    d.step(Event::End).unwrap();
    d.step(Event::Finish).unwrap();
    assert_eq!(d.step(Event::Begin(3)), Err(DriverError::OutOfPhase));
    assert_eq!(d.step(Event::Sample(centre())), Err(DriverError::OutOfPhase));
    assert_eq!(d.step(Event::End), Err(DriverError::OutOfPhase));
    assert_eq!(d.step(Event::Finish), Err(DriverError::OutOfPhase));
    assert_eq!(d.phase(), Phase::Finished);
}

#[test]
fn activities_out_of_order_are_refused() {
    let mut d = driver(10, None);
    d.step(Event::Begin(100)).unwrap();
    d.step(Event::End).unwrap();
    assert_eq!(d.step(Event::Begin(99)), Err(DriverError::OutOfOrder));
    assert_eq!(d.phase(), Phase::Idle);
    // the same moment is in order
    assert_eq!(d.step(Event::Begin(100)), Ok(Action::Continue));
}

#[test]
fn saturated_counter_refuses_further_points() {
    let viewport = Viewport::new(UNIT, 0, 0, UNIT, 1, None).unwrap();
    let grid = DensityGrid::from_counters(1, 1, vec![u32::MAX - 1]).unwrap();
    let map = Heatmap::from_parts(viewport, grid, false, false).unwrap();
    let mut d = TimelineDriver::new(map, 10, None).unwrap();
    d.step(Event::Begin(1)).unwrap();
    assert_eq!(d.step(Event::Sample(centre())), Ok(Action::Continue));
    assert_eq!(d.heatmap().max_value(), u32::MAX);
    assert_eq!(d.step(Event::Sample(centre())), Err(DriverError::CounterSaturated));
    assert_eq!(d.heatmap().count_at(&(0, 0)), u32::MAX);
    assert_eq!(d.pending(), 1);
}
