use derivers::grid::DensityGrid;
use derivers::grid::Renormalize;

#[test]
fn new_grid_is_all_zero() {
    let grid = DensityGrid::new(4, 3).unwrap();
    assert_eq!(grid.width(), 4);
    assert_eq!(grid.height(), 3);
    assert_eq!(grid.max_value(), 0);
    assert_eq!(grid.snapshot(), &vec![0u32; 12]);
}

#[test]
fn increment_counts_one_visit() {
    let mut grid = DensityGrid::new(4, 3).unwrap();
    grid.increment(&(1, 2));
    assert_eq!(grid.count_at(&(1, 2)), 1);
    assert_eq!(grid.max_value(), 1);
    // row-major: x + y * width
    let mut expected = vec![0u32; 12];
    expected[9] = 1;
    assert_eq!(grid.snapshot(), &expected);
}

#[test]
fn max_value_follows_the_hottest_pixel() {
    let mut grid = DensityGrid::new(2, 2).unwrap();
    grid.increment(&(0, 0));
    grid.increment(&(1, 1));
    grid.increment(&(1, 1));
    grid.increment(&(0, 1));
    assert_eq!(grid.max_value(), 2);
    assert_eq!(grid.snapshot(), &vec![1, 0, 1, 2]);
}

#[test]
fn increments_give_the_same_grid_in_any_order() {
    let visits = [(0u32, 0u32), (2, 1), (2, 1), (1, 0), (2, 1), (0, 0)];
    let mut forwards = DensityGrid::new(3, 2).unwrap();
    for p in visits.iter() {
        forwards.increment(p);
    }
    let mut backwards = DensityGrid::new(3, 2).unwrap();
    for p in visits.iter().rev() {
        backwards.increment(p);
    }
    assert_eq!(forwards.snapshot(), backwards.snapshot());
    assert_eq!(forwards.max_value(), backwards.max_value());
    assert_eq!(forwards.snapshot(), &vec![2, 1, 0, 0, 0, 3]);
    assert_eq!(forwards.max_value(), 3);
}

#[test]
fn contains_tells_pixels_of_the_grid_from_others() {
    let grid = DensityGrid::new(3, 2).unwrap();
    assert!(grid.contains(&(2, 1)));
    assert!(!grid.contains(&(3, 1)));
    assert!(!grid.contains(&(2, 2)));
}

#[test]
fn grid_from_counters_takes_the_largest_as_maximum() {
    let grid = DensityGrid::from_counters(2, 2, vec![3, 9, 0, 4]).unwrap();
    assert_eq!(grid.max_value(), 9);
    assert_eq!(grid.count_at(&(1, 0)), 9);
    assert_eq!(grid.count_at(&(0, 1)), 0);
    assert!(DensityGrid::from_counters(2, 2, vec![1, 2, 3]).is_none());
    assert!(DensityGrid::from_counters(0, 5, vec![]).is_some());
}

#[test]
fn decay_lowers_every_counter_and_stops_at_zero() {
    let mut grid = DensityGrid::from_counters(2, 2, vec![5, 2, 0, 3]).unwrap();
    grid.decay(3, Renormalize::Keep);
    assert_eq!(grid.snapshot(), &vec![2, 0, 0, 0]);
    assert_eq!(grid.max_value(), 5);
}

#[test]
fn decay_by_step_lowers_the_maximum_by_the_step() {
    let mut grid = DensityGrid::from_counters(2, 1, vec![7, 4]).unwrap();
    grid.decay(2, Renormalize::Step(1));
    assert_eq!(grid.snapshot(), &vec![5, 2]);
    assert_eq!(grid.max_value(), 6);
}

#[test]
fn decay_by_step_never_lowers_the_maximum_more_than_the_counters() {
    let mut grid = DensityGrid::from_counters(2, 1, vec![7, 4]).unwrap();
    grid.decay(2, Renormalize::Step(100));
    assert_eq!(grid.snapshot(), &vec![5, 2]);
    assert_eq!(grid.max_value(), 5);
    grid.decay(0, Renormalize::Step(1));
    assert_eq!(grid.snapshot(), &vec![5, 2]);
    assert_eq!(grid.max_value(), 5);
    grid.decay(9, Renormalize::Step(9));
    assert_eq!(grid.snapshot(), &vec![0, 0]);
    assert_eq!(grid.max_value(), 0);
}

#[test]
fn decay_with_rescan_takes_the_largest_counter_left() {
    let mut grid = DensityGrid::from_counters(3, 1, vec![1, 6, 4]).unwrap();
    grid.increment(&(0, 0));
    grid.decay(1, Renormalize::Keep);
    assert_eq!(grid.max_value(), 6);
    grid.decay(1, Renormalize::Rescan);
    assert_eq!(grid.snapshot(), &vec![0, 4, 2]);
    assert_eq!(grid.max_value(), 4);
}

#[test]
fn maximum_bounds_every_counter_before_and_after_decay() {
    let rules = [Renormalize::Keep, Renormalize::Step(1), Renormalize::Step(7), Renormalize::Rescan];
    for rule in rules.iter() {
        for amount in 0u32..6 {
            let mut grid = DensityGrid::new(3, 3).unwrap();
            for k in 0u32..20 {
                grid.increment(&((k * k) % 3, (k / 2) % 3));
            }
            assert!(grid.snapshot().iter().all(|c| *c <= grid.max_value()));
            grid.decay(amount, *rule);
            assert!(grid.snapshot().iter().all(|c| *c <= grid.max_value()));
            grid.increment(&(1, 1));
            assert!(grid.snapshot().iter().all(|c| *c <= grid.max_value()));
        }
    }
}
