use derivers::activity::chronological_order;
use derivers::activity::Activity;
use derivers::activity::Track;
use derivers::activity::TrackError;
use derivers::geometry::GeoPoint;

fn point(lat: i64, lng: i64) -> GeoPoint {
    GeoPoint { lat, lng }
}

fn recorded_at(timestamp: i64) -> Activity {
    Activity { name: "ride".to_string(), timestamp, points: vec![point(0, 0)] }
}

#[test]
fn file_without_tracks_yields_no_activity() {
    let made = Activity::from_tracks(&vec![], Some(5), 9);
    assert_eq!(made.err(), Some(TrackError::NoTracks));
}

#[test]
fn track_without_points_yields_no_activity() {
    let bare = Track { name: Some("empty".to_string()), segments: vec![] };
    assert_eq!(Activity::from_tracks(&vec![bare], None, 9).err(), Some(TrackError::NoTrackPoints));
    let hollow = Track { name: None, segments: vec![vec![], vec![]] };
    assert_eq!(Activity::from_tracks(&vec![hollow], None, 9).err(), Some(TrackError::NoTrackPoints));
}

#[test]
fn segments_are_joined_in_order() {
    let track = Track {
        name: Some("Evening Run".to_string()),
        segments: vec![vec![point(1, 2), point(3, 4)], vec![], vec![point(5, 6)]],
    };
    let activity = Activity::from_tracks(&vec![track], Some(1_431_648_000), 7).unwrap();
    assert_eq!(activity.name, "Evening Run");
    assert_eq!(activity.timestamp, 1_431_648_000);
    assert_eq!(activity.points, vec![point(1, 2), point(3, 4), point(5, 6)]);
}

#[test]
fn nameless_track_is_untitled() {
    let track = Track { name: None, segments: vec![vec![point(1, 2)]] };
    let activity = Activity::from_tracks(&vec![track], Some(3), 7).unwrap();
    assert_eq!(activity.name, "Untitled");
}

#[test]
fn undated_file_is_dated_now() {
    let track = Track { name: None, segments: vec![vec![point(1, 2)]] };
    let activity = Activity::from_tracks(&vec![track], None, 1_700_000_000).unwrap();
    assert_eq!(activity.timestamp, 1_700_000_000);
}

#[test]
fn only_the_first_track_is_taken() {
    let first = Track { name: Some("first".to_string()), segments: vec![vec![point(1, 1)]] };
    let second = Track { name: Some("second".to_string()), segments: vec![vec![point(2, 2)]] };
    let activity = Activity::from_tracks(&vec![first, second], Some(3), 7).unwrap();
    assert_eq!(activity.name, "first");
    assert_eq!(activity.points, vec![point(1, 1)]);
    let empty = Track { name: None, segments: vec![] };
    let full = Track { name: None, segments: vec![vec![point(2, 2)]] };
    assert_eq!(
        Activity::from_tracks(&vec![empty, full], Some(3), 7).err(),
        Some(TrackError::NoTrackPoints)
    );
}

#[test]
fn activities_are_ordered_by_timestamp() {
    let activities = vec![recorded_at(30), recorded_at(10), recorded_at(20), recorded_at(-5)];
    assert_eq!(chronological_order(&activities), vec![3, 1, 2, 0]);
}

#[test]
fn activities_of_the_same_moment_keep_their_order() {
    let activities =
        vec![recorded_at(7), recorded_at(3), recorded_at(7), recorded_at(3), recorded_at(7)];
    assert_eq!(chronological_order(&activities), vec![1, 3, 0, 2, 4]);
}

#[test]
fn ordered_activities_stay_as_they_are() {
    let activities = vec![recorded_at(1), recorded_at(2), recorded_at(3)];
    assert_eq!(chronological_order(&activities), vec![0, 1, 2]);
    let reversed = vec![recorded_at(3), recorded_at(2), recorded_at(1)];
    assert_eq!(chronological_order(&reversed), vec![2, 1, 0]);
}

#[test]
fn no_activities_need_no_order() {
    assert_eq!(chronological_order(&vec![]), Vec::<usize>::new());
    assert_eq!(chronological_order(&vec![recorded_at(i64::MIN)]), vec![0]);
}
