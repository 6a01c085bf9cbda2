//! Activities: tracks as the engine consumes them, and the order in which
//! it consumes them.

use vstd::prelude::*;
use crate::geometry::GeoPoint;

verus! {

/// One track of a track file: a name, if it has one, and its segments.
#[derive(Debug)]
pub struct Track {
    pub name: Option<String>,
    pub segments: Vec<Vec<GeoPoint>>,
}

/// A recorded activity: a display name, the time it was recorded at in
/// seconds since the Unix epoch, and its points in the order travelled.
#[derive(Debug)]
pub struct Activity {
    pub name: String,
    pub timestamp: i64,
    pub points: Vec<GeoPoint>,
}

/// Why a track file yields no activity. Such a file is skipped.
#[derive(Clone, Copy, Debug, PartialEq, Eq, Structural)]
pub enum TrackError {
    /// The file holds no track.
    NoTracks,
    /// The first track of the file holds no point.
    NoTrackPoints,
}

/// The points of a track: those of its segments, one segment after the other.
pub open spec fn joined(segments: Seq<Vec<GeoPoint>>) -> Seq<GeoPoint>
    decreases segments.len(),
{
    if segments.len() == 0 {
        Seq::empty()
    } else {
        joined(segments.drop_last()) + segments.last()@
    }
}

/// The name of an activity whose track has none.
pub open spec fn untitled() -> Seq<char> {
    "Untitled"@
}

/// The display name of a track.
pub open spec fn display_name(track: Track) -> Seq<char> {
    match track.name {
        Some(name) => name@,
        None => untitled(),
    }
}

/// The timestamps of a run of activities.
pub open spec fn timestamps_of(activities: Seq<Activity>) -> Seq<i64> {
    Seq::new(activities.len(), |k: int| activities[k].timestamp)
}

/// Whether activity `i` is processed before activity `j`: the earlier one
/// first, and of two recorded at the same time the one that came first.
pub open spec fn precedes(stamps: Seq<i64>, i: int, j: int) -> bool {
    stamps[i] < stamps[j] || (stamps[i] == stamps[j] && i < j)
}

/// Whether activity `i` has a place in `order`.
pub open spec fn scheduled(order: Seq<usize>, i: int) -> bool {
    exists|k: int| 0 <= k < order.len() && #[trigger] order[k] == i
}

/// `order` lists every activity once, in ascending order of timestamp, and
/// keeps activities with equal timestamps in the order they were given.
pub open spec fn is_chronological(stamps: Seq<i64>, order: Seq<usize>) -> bool {
    &&& order.len() == stamps.len()
    &&& forall|k: int| 0 <= k < order.len() ==> (#[trigger] order[k]) < stamps.len()
    &&& forall|a: int, b: int|
        0 <= a < b < order.len() ==> precedes(stamps, #[trigger] order[a] as int, #[trigger] order[b] as int)
    &&& forall|i: int| 0 <= i < stamps.len() ==> #[trigger] scheduled(order, i)
}

/// Two chronological orders of the same activities agree up to place `upto`.
proof fn lemma_orders_agree(stamps: Seq<i64>, one: Seq<usize>, other: Seq<usize>, upto: int)
    requires
        is_chronological(stamps, one),
        is_chronological(stamps, other),
        0 <= upto <= stamps.len(),
    ensures
        forall|k: int| 0 <= k < upto ==> one[k] == other[k],
    decreases upto,
{
    if upto > 0 {
        let k = upto - 1;
        lemma_orders_agree(stamps, one, other, k);
        if one[k] != other[k] {
            // whichever of the two comes first has no place left in the other order
            let (early, late) = if precedes(stamps, one[k] as int, other[k] as int) {
                (one, other)
            } else {
                (other, one)
            };
            assert(precedes(stamps, early[k] as int, late[k] as int));
            assert(scheduled(late, early[k] as int));
            let j = choose|j: int| 0 <= j < late.len() && late[j] == early[k];
            if j < k {
                assert(early[j] == late[j]);
                assert(precedes(stamps, early[j] as int, early[k] as int));
            } else {
                assert(precedes(stamps, late[k] as int, late[j] as int));
            }
        }
    }
}

/// There is only one chronological order: the contract of
/// [`chronological_order`] leaves no choice.
pub proof fn chronological_order_is_unique(stamps: Seq<i64>, one: Seq<usize>, other: Seq<usize>)
    requires
        is_chronological(stamps, one),
        is_chronological(stamps, other),
    ensures
        one == other,
{
    lemma_orders_agree(stamps, one, other, stamps.len() as int);
    assert(one =~= other);
}

impl Activity {
    /// Makes the activity of a parsed track file from its first track. The
    /// name defaults to "Untitled", and the timestamp to `now` where the
    /// file records none. Further tracks are ignored.
    pub fn from_tracks(tracks: &Vec<Track>, recorded: Option<i64>, now: i64) -> (made: Result<
        Activity,
        TrackError,
    >)
        ensures
            tracks@.len() == 0 ==> made == Err::<Activity, TrackError>(TrackError::NoTracks),
            tracks@.len() > 0 && joined(tracks@[0].segments@).len() == 0 ==> made == Err::<
                Activity,
                TrackError,
            >(TrackError::NoTrackPoints),
            tracks@.len() > 0 && joined(tracks@[0].segments@).len() > 0 ==> (made matches Ok(a)
                && a.name@ == display_name(tracks@[0]) && a.timestamp == (match recorded {
                Some(t) => t,
                None => now,
            }) && a.points@ == joined(tracks@[0].segments@)),
    {
        if tracks.len() == 0 {
            return Err(TrackError::NoTracks);
        }
        let track = &tracks[0];
        let name = match &track.name {
            Some(given) => given.clone(),
            None => "Untitled".to_owned(),
        };
        let timestamp = match recorded {
            Some(t) => t,
            None => now,
        };
        let mut points: Vec<GeoPoint> = Vec::new();
        let mut s: usize = 0;
        while s < track.segments.len()
            invariant
                s <= track.segments@.len(),
                points@ == joined(track.segments@.take(s as int)),
            decreases track.segments@.len() - s,
        {
            let segment = &track.segments[s];
            let ghost done = points@;
            let mut k: usize = 0;
            while k < segment.len()
                invariant
                    k <= segment@.len(),
                    points@ == done + segment@.take(k as int),
                decreases segment@.len() - k,
            {
                points.push(segment[k]);
                assert(segment@.take(k as int + 1) =~= segment@.take(k as int).push(
                    segment@[k as int],
                ));
                k += 1;
            }
            proof {
                let seen = track.segments@.take(s as int + 1);
                assert(seen.drop_last() =~= track.segments@.take(s as int));
                assert(seen.last() == track.segments@[s as int]);
                assert(segment@.take(k as int) =~= segment@);
            }
            s += 1;
        }
        assert(track.segments@.take(s as int) =~= track.segments@);
        if points.len() == 0 {
            return Err(TrackError::NoTrackPoints);
        }
        Ok(Activity { name, timestamp, points })
    }
}

/// The order in which activities are processed: ascending by timestamp,
/// so that later activities are layered over earlier ones. The result
/// holds indices into `activities`.
pub fn chronological_order(activities: &Vec<Activity>) -> (order: Vec<usize>)
    ensures
        is_chronological(timestamps_of(activities@), order@),
{
    let ghost stamps = timestamps_of(activities@);
    let mut order: Vec<usize> = Vec::new();
    let mut next: usize = 0;
    while next < activities.len()
        invariant
            next <= activities@.len(),
            stamps == timestamps_of(activities@),
            order@.len() == next,
            forall|k: int| 0 <= k < order@.len() ==> (#[trigger] order@[k]) < next,
            forall|a: int, b: int|
                0 <= a < b < order@.len() ==> precedes(
                    stamps,
                    #[trigger] order@[a] as int,
                    #[trigger] order@[b] as int,
                ),
            forall|i: int| 0 <= i < next ==> #[trigger] scheduled(order@, i),
        decreases activities@.len() - next,
    {
        let stamp = activities[next].timestamp;
        let mut slot: usize = order.len();
        while slot > 0 && activities[order[slot - 1]].timestamp > stamp
            invariant
                slot <= order@.len(),
                next < activities@.len(),
                order@.len() == next,
                stamps == timestamps_of(activities@),
                stamp == stamps[next as int],
                forall|k: int| 0 <= k < order@.len() ==> (#[trigger] order@[k]) < next,
                forall|k: int| slot <= k < order@.len() ==> stamps[(#[trigger] order@[k]) as int] > stamp,
            decreases slot,
        {
            slot -= 1;
        }
        let ghost before = order@;
        order.insert(slot, next);
        proof {
            let after = order@;
            assert forall|a: int, b: int| 0 <= a < b < after.len() implies precedes(
                stamps,
                #[trigger] after[a] as int,
                #[trigger] after[b] as int,
            ) by {
                if b < slot {
                    assert(after[a] == before[a] && after[b] == before[b]);
                } else if b == slot {
                    assert(after[a] == before[a]);
                    if slot > 0 {
                        assert(stamps[before[slot - 1] as int] <= stamp);
                        if a < slot - 1 {
                            assert(precedes(stamps, before[a] as int, before[slot - 1] as int));
                        }
                    }
                } else if a < slot {
                    assert(after[a] == before[a] && after[b] == before[b - 1]);
                } else if a == slot {
                    assert(after[b] == before[b - 1]);
                } else {
                    assert(after[a] == before[a - 1] && after[b] == before[b - 1]);
                }
            }
            assert forall|i: int| 0 <= i < next + 1 implies #[trigger] scheduled(after, i) by {
                if i == next {
                    assert(after[slot as int] == i);
                } else {
                    assert(scheduled(before, i));
                    let k = choose|k: int| 0 <= k < before.len() && before[k] == i;
                    if k < slot {
                        assert(after[k] == i);
                    } else {
                        assert(after[k + 1] == i);
                    }
                }
            }
            assert forall|k: int| 0 <= k < after.len() implies (#[trigger] after[k]) < next + 1 by {
                if k < slot {
                    assert(after[k] == before[k]);
                } else if k > slot {
                    assert(after[k] == before[k - 1]);
                }
            }
        }
        next += 1;
    }
    order
}

} // verus!
