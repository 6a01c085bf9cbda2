//! The timeline driver: the state machine that takes activities point by
//! point and says when a frame is due.

use vstd::prelude::*;
use crate::config::ConfigError;
use crate::geometry::GeoPoint;
use crate::geometry::ScreenPoint;
use crate::grid::Renormalize;
use crate::heatmap::Heatmap;
use crate::heatmap::HeatmapModel;

verus! {

/// Where the driver stands in a run.
#[derive(Clone, Copy, Debug, PartialEq, Eq, Structural)]
pub enum Phase {
    /// Between activities.
    Idle,
    /// Inside an activity.
    Active,
    /// After the final frame.
    Finished,
}

/// The fading applied at the end of every activity.
#[derive(Clone, Copy, Debug, PartialEq, Eq, Structural)]
pub struct Decay {
    pub amount: u32,
    pub rule: Renormalize,
}

/// What the caller reports to the driver.
#[derive(Clone, Copy, Debug, PartialEq, Eq, Structural)]
pub enum Event {
    /// An activity recorded at the given time begins.
    Begin(i64),
    /// The next point of the current activity.
    Sample(GeoPoint),
    /// The current activity has no more points.
    End,
    /// There are no more activities.
    Finish,
}

/// What the caller is to do after an event.
#[derive(Clone, Copy, Debug, PartialEq, Eq, Structural)]
pub enum Action {
    /// Nothing: report the next event.
    Continue,
    /// Render the heatmap as it stands, captioned for the current
    /// activity, and hand the frame to the encoder.
    EmitFrame,
    /// Render the cumulative heatmap and hand it to the encoder; the run
    /// is over.
    EmitFinal,
}

/// Why the driver refuses an event. A refused event changes nothing.
#[derive(Clone, Copy, Debug, PartialEq, Eq, Structural)]
pub enum DriverError {
    /// The event has no meaning in the current phase.
    OutOfPhase,
    /// The activity was recorded before one that was already processed.
    OutOfOrder,
    /// The counter of the point's pixel cannot count any higher.
    CounterSaturated,
}

/// The mathematical content of a [`TimelineDriver`].
pub struct DriverModel {
    pub heatmap: HeatmapModel,
    /// A frame is due after every `cadence` on-screen points of the run.
    pub cadence: nat,
    pub decay: Option<Decay>,
    /// On-screen points since the last frame, or since the start of the
    /// run where no frame was due yet. Only a frame starts the count afresh.
    pub pending: nat,
    pub phase: Phase,
    /// The timestamp of the latest activity begun.
    pub latest: Option<i64>,
}

impl DriverModel {
    /// The driver is set up over a well-formed heatmap, with a cadence of
    /// at least one point and fewer points pending than that.
    pub open spec fn wf(self) -> bool {
        &&& self.heatmap.wf()
        &&& 0 < self.cadence <= u32::MAX
        &&& self.pending < self.cadence
    }

    /// The driver before the first activity.
    pub open spec fn fresh(heatmap: HeatmapModel, cadence: nat, decay: Option<Decay>) -> DriverModel {
        DriverModel { heatmap, cadence, decay, pending: 0, phase: Phase::Idle, latest: None }
    }

    /// The heatmap after the fading that ends an activity.
    pub open spec fn faded(self) -> HeatmapModel {
        match self.decay {
            Some(d) => HeatmapModel {
                grid: self.heatmap.grid.decay(d.amount as nat, d.rule),
                ..self.heatmap
            },
            None => self.heatmap,
        }
    }

    /// A refused event: nothing changes.
    pub open spec fn refuse(self, why: DriverError) -> (DriverModel, Result<Action, DriverError>) {
        (self, Err(why))
    }

    /// An activity recorded at `at` begins. Activities begin between
    /// activities, and none begins that was recorded before the latest.
    /// The count of points towards the next frame carries over.
    pub open spec fn begin(self, at: i64) -> (DriverModel, Result<Action, DriverError>) {
        if self.phase != Phase::Idle {
            self.refuse(DriverError::OutOfPhase)
        } else if self.latest matches Some(seen) && at < seen {
            self.refuse(DriverError::OutOfOrder)
        } else {
            (
                DriverModel { phase: Phase::Active, latest: Some(at), ..self },
                Ok(Action::Continue),
            )
        }
    }

    /// One more visit of `pixel`. The visit that brings the pending count
    /// to the cadence is answered with `EmitFrame`, and the count starts
    /// afresh.
    pub open spec fn visit(self, pixel: ScreenPoint) -> (DriverModel, Result<Action, DriverError>) {
        if self.heatmap.grid.count_at(pixel) >= u32::MAX {
            self.refuse(DriverError::CounterSaturated)
        } else {
            let heatmap = HeatmapModel {
                grid: self.heatmap.grid.increment(pixel),
                ..self.heatmap
            };
            if self.pending + 1 == self.cadence {
                (DriverModel { heatmap, pending: 0, ..self }, Ok(Action::EmitFrame))
            } else {
                (DriverModel { heatmap, pending: self.pending + 1, ..self }, Ok(Action::Continue))
            }
        }
    }

    /// The next point of the current activity: projected, and counted if
    /// it is on screen. An off-screen point is dropped.
    pub open spec fn sample(self, point: GeoPoint) -> (DriverModel, Result<Action, DriverError>) {
        if self.phase != Phase::Active {
            self.refuse(DriverError::OutOfPhase)
        } else {
            match self.heatmap.viewport.project(point) {
                None => (self, Ok(Action::Continue)),
                Some(pixel) => self.visit(pixel),
            }
        }
    }

    /// The current activity ends, and the heatmap fades if decay is on.
    pub open spec fn end(self) -> (DriverModel, Result<Action, DriverError>) {
        if self.phase != Phase::Active {
            self.refuse(DriverError::OutOfPhase)
        } else {
            (
                DriverModel { heatmap: self.faded(), phase: Phase::Idle, ..self },
                Ok(Action::Continue),
            )
        }
    }

    /// The run ends: the final frame is due, whatever the cadence.
    pub open spec fn finish(self) -> (DriverModel, Result<Action, DriverError>) {
        if self.phase != Phase::Idle {
            self.refuse(DriverError::OutOfPhase)
        } else {
            (DriverModel { phase: Phase::Finished, ..self }, Ok(Action::EmitFinal))
        }
    }

    /// The transition function: the state after `event`, and the reply.
    pub open spec fn step(self, event: Event) -> (DriverModel, Result<Action, DriverError>) {
        match event {
            Event::Begin(at) => self.begin(at),
            Event::Sample(point) => self.sample(point),
            Event::End => self.end(),
            Event::Finish => self.finish(),
        }
    }

    /// The state after a run of events, first to last.
    pub open spec fn after_events(self, events: Seq<Event>) -> DriverModel
        decreases events.len(),
    {
        if events.len() == 0 {
            self
        } else {
            self.after_events(events.drop_last()).step(events.last()).0
        }
    }

    /// The reply to event number `k` of a run of events.
    pub open spec fn reply_to_event(self, events: Seq<Event>, k: int) -> Result<
        Action,
        DriverError,
    > {
        self.after_events(events.take(k)).step(events[k]).1
    }

    /// Whether every event of a run is accepted.
    pub open spec fn accepts(self, events: Seq<Event>) -> bool {
        forall|k: int| 0 <= k < events.len() ==> #[trigger] self.reply_to_event(events, k) is Ok
    }

}

/// How many frames are due in a run of `count` on-screen points that
/// starts with `pending` points already counted.
pub open spec fn frames_due(pending: nat, count: nat, cadence: nat) -> nat {
    (pending + count) / cadence
}

/// Whether an event is a point that the heatmap shows.
pub open spec fn is_visit(heatmap: HeatmapModel, event: Event) -> bool {
    event matches Event::Sample(point) && heatmap.viewport.covers(point)
}

/// The pixels visited in a run of events: those of its on-screen points,
/// in order. Off-screen points and the other events leave no trace.
pub open spec fn visited(heatmap: HeatmapModel, events: Seq<Event>) -> Seq<ScreenPoint>
    decreases events.len(),
{
    if events.len() == 0 {
        Seq::empty()
    } else if is_visit(heatmap, events.last()) {
        visited(heatmap, events.drop_last()).push(
            heatmap.viewport.project(events.last()->Sample_0)->Some_0,
        )
    } else {
        visited(heatmap, events.drop_last())
    }
}

/// How many of the first `upto` events are answered with `EmitFrame`.
pub open spec fn frames_in(m: DriverModel, events: Seq<Event>, upto: nat) -> nat
    decreases upto,
{
    if upto == 0 {
        0
    } else {
        let earlier = frames_in(m, events, (upto - 1) as nat);
        if m.reply_to_event(events, upto - 1) == Ok::<Action, DriverError>(Action::EmitFrame) {
            earlier + 1
        } else {
            earlier
        }
    }
}

proof fn lemma_count_on(a: int, c: int)
    requires
        0 <= a,
        0 < c,
    ensures
        0 <= a % c < c,
        (a + 1) % c == (if a % c + 1 == c {
            0
        } else {
            a % c + 1
        }),
        (a + 1) / c == a / c + (if a % c + 1 == c {
            1int
        } else {
            0int
        }),
{
    vstd::arithmetic::div_mod::lemma_fundamental_div_mod(a, c);
    vstd::arithmetic::div_mod::lemma_mod_pos_bound(a, c);
    let q = a / c;
    let r = a % c;
    assert(c * q == q * c) by (nonlinear_arith);
    if r + 1 == c {
        assert(a + 1 == (q + 1) * c + 0) by (nonlinear_arith)
            requires
                a == q * c + r,
                r + 1 == c,
        ;
        vstd::arithmetic::div_mod::lemma_fundamental_div_mod_converse(a + 1, c, q + 1, 0);
    } else {
        vstd::arithmetic::div_mod::lemma_fundamental_div_mod_converse(a + 1, c, q, r + 1);
    }
}

/// Every event leaves the driver well formed, and a refused event leaves
/// it as it was.
pub proof fn step_keeps_wf(m: DriverModel, event: Event)
    requires
        m.wf(),
    ensures
        m.step(event).0.wf(),
        m.step(event).1 is Err ==> m.step(event).0 == m,
        m.step(event).0.cadence == m.cadence,
        m.step(event).0.heatmap.viewport == m.heatmap.viewport,
{
    match event {
        Event::Sample(point) => {
            crate::geometry::projection_matches_cover(m.heatmap.viewport, point);
            match m.heatmap.viewport.project(point) {
                Some(pixel) => {
                    crate::grid::increment_keeps_bound(m.heatmap.grid, pixel);
                },
                None => {},
            }
        },
        Event::End => {
            match m.decay {
                Some(d) => {
                    crate::grid::decay_keeps_bound(m.heatmap.grid, d.amount as nat, d.rule);
                },
                None => {},
            }
        },
        _ => {},
    }
}

/// A point that the viewport does not cover changes nothing: neither the
/// grid nor the count towards the next frame.
pub proof fn off_screen_sample_changes_nothing(m: DriverModel, point: GeoPoint)
    requires
        m.wf(),
        !m.heatmap.viewport.covers(point),
    ensures
        m.step(Event::Sample(point)).0 == m,
        m.phase == Phase::Active ==> m.step(Event::Sample(point)).1 == Ok::<Action, DriverError>(
            Action::Continue,
        ),
{
    crate::geometry::projection_matches_cover(m.heatmap.viewport, point);
}

/// Counting frames among the first events of a run does not depend on the
/// events that follow.
proof fn lemma_frames_in_prefix(m: DriverModel, events: Seq<Event>, front: Seq<Event>, upto: nat)
    requires
        upto <= front.len() <= events.len(),
        front == events.take(front.len() as int),
    ensures
        frames_in(m, events, upto) == frames_in(m, front, upto),
    decreases upto,
{
    if upto > 0 {
        lemma_frames_in_prefix(m, events, front, (upto - 1) as nat);
        assert(events.take(upto - 1) =~= front.take(upto - 1));
        assert(events[upto - 1] == front[upto - 1]);
    }
}

/// Frames over a whole run. Whatever the events of an accepted run are
/// (activities beginning and ending, points on and off screen), the
/// on-screen points are counted through from the start of the run, and the
/// count starts afresh only when a frame is due. So with `N` on-screen
/// points after a fresh start there are `N / cadence` frames, the `j`-th
/// of them in reply to on-screen point number `j * cadence`; the count
/// towards the next frame stays below the cadence throughout; and without
/// decay every counter has grown by the number of visits of its pixel,
/// whichever activity they came from and in whatever order they stood.
pub proof fn frames_over_a_run(m: DriverModel, events: Seq<Event>)
    requires
        m.wf(),
        m.accepts(events),
    ensures
        m.after_events(events).wf(),
        m.after_events(events).cadence == m.cadence,
        m.after_events(events).decay == m.decay,
        m.after_events(events).heatmap.viewport == m.heatmap.viewport,
        m.after_events(events).pending == (m.pending + visited(m.heatmap, events).len())
            % m.cadence,
        forall|k: int|
            0 <= k < events.len() ==> ((#[trigger] m.reply_to_event(events, k)) == Ok::<
                Action,
                DriverError,
            >(Action::EmitFrame) <==> is_visit(m.heatmap, events[k]) && (m.pending + visited(
                m.heatmap,
                events.take(k + 1),
            ).len()) % m.cadence == 0),
        frames_in(m, events, events.len()) == frames_due(
            m.pending,
            visited(m.heatmap, events).len(),
            m.cadence,
        ),
        forall|j: int|
            0 <= j < visited(m.heatmap, events).len() ==> m.heatmap.grid.contains(
                #[trigger] visited(m.heatmap, events)[j],
            ),
        m.decay is None ==> m.after_events(events).heatmap.grid == m.heatmap.grid.increment_all(
            visited(m.heatmap, events),
        ),
        m.decay is None ==> forall|p: ScreenPoint|
            m.heatmap.grid.contains(p) ==> #[trigger] m.after_events(events).heatmap.grid.count_at(
                p,
            ) == m.heatmap.grid.count_at(p) + visited(m.heatmap, events).to_multiset().count(p),
        m.decay is None ==> crate::grid::total(m.after_events(events).heatmap.grid.counters)
            == crate::grid::total(m.heatmap.grid.counters) + visited(m.heatmap, events).len(),
    decreases events.len(),
{
    let c = m.cadence as int;
    vstd::arithmetic::div_mod::lemma_small_mod(m.pending, m.cadence);
    vstd::arithmetic::div_mod::lemma_basic_div(m.pending as int, c);
    if events.len() > 0 {
        let n = events.len() - 1;
        let front = events.drop_last();
        let last = events.last();
        assert(front =~= events.take(n));
        assert forall|k: int| 0 <= k < front.len() implies #[trigger] m.reply_to_event(front, k)
            == m.reply_to_event(events, k) by {
            assert(events.take(k) =~= front.take(k));
        }
        assert(m.accepts(front)) by {
            assert forall|k: int| 0 <= k < front.len() implies #[trigger] m.reply_to_event(
                front,
                k,
            ) is Ok by {
                assert(m.reply_to_event(events, k) is Ok);
            }
        }
        frames_over_a_run(m, front);
        let before = m.after_events(front);
        let seen = visited(m.heatmap, front);
        assert(m.reply_to_event(events, n) == before.step(last).1);
        assert(m.reply_to_event(events, n) is Ok);
        step_keeps_wf(before, last);
        lemma_count_on((m.pending + seen.len()) as int, c);
        assert(events.take(n + 1) =~= events);
        match last {
            Event::Sample(point) => {
                crate::geometry::projection_matches_cover(m.heatmap.viewport, point);
                match m.heatmap.viewport.project(point) {
                    Some(pixel) => {
                        let now = visited(m.heatmap, events);
                        assert(now == seen.push(pixel));
                        assert(now.drop_last() =~= seen);
                        assert(now.last() == pixel);
                    },
                    None => {},
                }
            },
            _ => {},
        }
        assert forall|k: int| 0 <= k < events.len() implies ((#[trigger] m.reply_to_event(
            events,
            k,
        )) == Ok::<Action, DriverError>(Action::EmitFrame) <==> is_visit(m.heatmap, events[k]) && (
        m.pending + visited(m.heatmap, events.take(k + 1)).len()) % m.cadence == 0) by {
            if k < n {
                assert(m.reply_to_event(front, k) == m.reply_to_event(events, k));
                assert(events.take(k + 1) =~= front.take(k + 1));
                assert(events[k] == front[k]);
            }
        }
        lemma_frames_in_prefix(m, events, front, n as nat);
        if m.decay is None {
            crate::grid::visits_add_up(m.heatmap.grid, visited(m.heatmap, events));
            crate::grid::visits_raise_the_total(m.heatmap.grid, visited(m.heatmap, events));
        }
    } else {
        assert(visited(m.heatmap, events) =~= Seq::empty());
        if m.decay is None {
            crate::grid::visits_add_up(m.heatmap.grid, visited(m.heatmap, events));
            crate::grid::visits_raise_the_total(m.heatmap.grid, visited(m.heatmap, events));
        }
    }
}

/// Points are accepted while the counters have room: within an activity,
/// a run of points is accepted whole if `max_value` can still rise by the
/// number of its on-screen points.
pub proof fn points_with_room_are_accepted(m: DriverModel, events: Seq<Event>)
    requires
        m.wf(),
        m.phase == Phase::Active,
        forall|k: int| 0 <= k < events.len() ==> #[trigger] events[k] is Sample,
        m.heatmap.grid.max_value + visited(m.heatmap, events).len() <= u32::MAX,
    ensures
        m.accepts(events),
        m.after_events(events).wf(),
        m.after_events(events).phase == Phase::Active,
        m.after_events(events).heatmap.viewport == m.heatmap.viewport,
        m.after_events(events).heatmap.grid.max_value <= m.heatmap.grid.max_value + visited(
            m.heatmap,
            events,
        ).len(),
    decreases events.len(),
{
    if events.len() > 0 {
        let n = events.len() - 1;
        let front = events.drop_last();
        let last = events.last();
        assert(front =~= events.take(n));
        assert forall|k: int| 0 <= k < front.len() implies #[trigger] front[k] is Sample by {
            assert(events[k] is Sample);
        }
        assert(last is Sample) by {
            assert(events[n] is Sample);
        }
        points_with_room_are_accepted(m, front);
        let before = m.after_events(front);
        step_keeps_wf(before, last);
        let point = last->Sample_0;
        crate::geometry::projection_matches_cover(m.heatmap.viewport, point);
        match m.heatmap.viewport.project(point) {
            Some(pixel) => {
                crate::grid::offsets_are_distinct(before.heatmap.grid, pixel, pixel);
            },
            None => {},
        }
        assert forall|k: int| 0 <= k < events.len() implies #[trigger] m.reply_to_event(
            events,
            k,
        ) is Ok by {
            if k < n {
                assert(events.take(k) =~= front.take(k));
                assert(m.reply_to_event(front, k) is Ok);
            }
        }
    }
}

/// The count towards the next frame stays below the cadence at every
/// moment of an accepted run.
pub proof fn count_stays_below_cadence(m: DriverModel, events: Seq<Event>, upto: int)
    requires
        m.wf(),
        m.accepts(events),
        0 <= upto <= events.len(),
    ensures
        m.after_events(events.take(upto)).pending < m.cadence,
{
    let front = events.take(upto);
    assert forall|k: int| 0 <= k < front.len() implies #[trigger] m.reply_to_event(front, k) is Ok by {
        assert(events.take(k) =~= front.take(k));
        assert(m.reply_to_event(events, k) is Ok);
    }
    frames_over_a_run(m, front);
}

/// After an accepted run the driver remembers a timestamp that is no
/// earlier than that of any activity begun in the run.
proof fn lemma_latest(m: DriverModel, events: Seq<Event>, i: int)
    requires
        m.accepts(events),
        0 <= i < events.len(),
        events[i] is Begin,
    ensures
        m.after_events(events).latest matches Some(seen) && seen >= events[i]->Begin_0,
    decreases events.len(),
{
    let n = events.len() - 1;
    let front = events.drop_last();
    assert(front =~= events.take(n));
    assert(m.reply_to_event(events, n) is Ok);
    if i < n {
        assert forall|k: int| 0 <= k < front.len() implies #[trigger] m.reply_to_event(
            front,
            k,
        ) is Ok by {
            assert(events.take(k) =~= front.take(k));
            assert(m.reply_to_event(events, k) is Ok);
        }
        lemma_latest(m, front, i);
    }
}

/// Activities are processed in ascending order of time: in an accepted
/// run no activity begins that was recorded before one begun earlier in
/// the run, so all the points of the earlier activity are counted before
/// any point of the later one.
pub proof fn accepted_runs_are_chronological(m: DriverModel, events: Seq<Event>, i: int, j: int)
    requires
        m.accepts(events),
        0 <= i < j < events.len(),
        events[i] is Begin,
        events[j] is Begin,
    ensures
        events[i]->Begin_0 <= events[j]->Begin_0,
{
    let front = events.take(j);
    assert forall|k: int| 0 <= k < front.len() implies #[trigger] m.reply_to_event(front, k) is Ok by {
        assert(events.take(k) =~= front.take(k));
        assert(m.reply_to_event(events, k) is Ok);
    }
    lemma_latest(m, front, i);
    assert(m.reply_to_event(events, j) is Ok);
}

/// Only the visits count, and not their order: two accepted runs from the
/// same state that visit the same pixels the same number of times leave
/// the same count towards the next frame and yield as many frames, and
/// without decay the same grid. Points off screen, and the way the
/// points are spread over activities, make no difference.
pub proof fn only_visits_count(m: DriverModel, one: Seq<Event>, other: Seq<Event>)
    requires
        m.wf(),
        m.accepts(one),
        m.accepts(other),
        visited(m.heatmap, one).to_multiset() == visited(m.heatmap, other).to_multiset(),
    ensures
        m.after_events(one).pending == m.after_events(other).pending,
        frames_in(m, one, one.len()) == frames_in(m, other, other.len()),
        m.decay is None ==> m.after_events(one).heatmap.grid == m.after_events(
            other,
        ).heatmap.grid,
{
    frames_over_a_run(m, one);
    frames_over_a_run(m, other);
    visited(m.heatmap, one).to_multiset_ensures();
    visited(m.heatmap, other).to_multiset_ensures();
    if m.decay is None {
        crate::grid::increments_commute(
            m.heatmap.grid,
            visited(m.heatmap, one),
            visited(m.heatmap, other),
        );
    }
}

/// The final frame comes once and last: in an accepted run the reply is
/// `EmitFinal` exactly to `Finish`, whatever the cadence and however many
/// points were counted, and no event follows it.
pub proof fn final_frame_comes_once_and_last(m: DriverModel, events: Seq<Event>, k: int)
    requires
        m.accepts(events),
        0 <= k < events.len(),
    ensures
        m.reply_to_event(events, k) == Ok::<Action, DriverError>(Action::EmitFinal)
            <==> events[k] is Finish,
        events[k] is Finish ==> k == events.len() - 1,
{
    assert(m.reply_to_event(events, k) is Ok);
    if events[k] is Finish && k < events.len() - 1 {
        let upto = events.take(k + 1);
        assert(upto.drop_last() =~= events.take(k));
        assert(upto.last() == events[k]);
        assert(m.after_events(upto).phase == Phase::Finished);
        assert(m.reply_to_event(events, k + 1) is Ok);
    }
}

/// Consumes activities in chronological order, feeds their points through
/// the projection into the density grid, and decides when a frame is due.
/// The caller renders and encodes; the driver never does.
#[derive(Debug)]
pub struct TimelineDriver {
    heatmap: Heatmap,
    cadence: u32,
    decay: Option<Decay>,
    pending: u32,
    phase: Phase,
    latest: Option<i64>,
}

impl View for TimelineDriver {
    type V = DriverModel;

    closed spec fn view(&self) -> DriverModel {
        DriverModel {
            heatmap: self.heatmap@,
            cadence: self.cadence as nat,
            decay: self.decay,
            pending: self.pending as nat,
            phase: self.phase,
            latest: self.latest,
        }
    }
}

impl TimelineDriver {
    /// Whether the value is well formed: its model is.
    pub open spec fn wf(&self) -> bool {
        self@.wf()
    }

    /// A driver at the start of a run. A frame is due after every
    /// `cadence` on-screen points, counted across activities; with
    /// `decay`, the heatmap fades at the end of every activity.
    pub fn new(heatmap: Heatmap, cadence: u32, decay: Option<Decay>) -> (made: Result<
        TimelineDriver,
        ConfigError,
    >)
        requires
            heatmap.wf(),
        ensures
            made is Err <==> cadence == 0,
            made matches Err(e) ==> e == ConfigError::ZeroCadence,
            made matches Ok(d) ==> d.wf() && d@ == DriverModel::fresh(
                heatmap@,
                cadence as nat,
                decay,
            ),
    {
        if cadence == 0 {
            return Err(ConfigError::ZeroCadence);
        }
        Ok(
            TimelineDriver {
                heatmap,
                cadence,
                decay,
                pending: 0,
                phase: Phase::Idle,
                latest: None,
            },
        )
    }

    /// The heatmap as accumulated so far, for rendering.
    pub fn heatmap(&self) -> (h: &Heatmap)
        ensures
            h@ == self@.heatmap,
    {
        &self.heatmap
    }

    /// Gives up the driver for its heatmap.
    pub fn into_heatmap(self) -> (h: Heatmap)
        ensures
            h@ == self@.heatmap,
    {
        self.heatmap
    }

    /// Where the driver stands in the run.
    pub fn phase(&self) -> (p: Phase)
        ensures
            p == self@.phase,
    {
        self.phase
    }

    /// On-screen points since the last frame.
    pub fn pending(&self) -> (n: u32)
        ensures
            n == self@.pending,
    {
        self.pending
    }

    /// Takes one event and says what the caller is to do. A refused event
    /// leaves the driver unchanged.
    pub fn step(&mut self, event: Event) -> (reply: Result<Action, DriverError>)
        requires
            old(self).wf(),
        ensures
            final(self).wf(),
            final(self)@ == old(self)@.step(event).0,
            reply == old(self)@.step(event).1,
            reply is Err ==> final(self)@ == old(self)@,
            event matches Event::Sample(point) ==> reply is Err || match old(self)@.heatmap.viewport.project(point) {
                Some(pixel) => {
                    &&& final(self)@.heatmap.grid.count_at(pixel) == old(self)@.heatmap.grid.count_at(
                        pixel,
                    ) + 1
                    &&& forall|q: ScreenPoint|
                        old(self)@.heatmap.grid.contains(q) && q != pixel
                            ==> #[trigger] final(self)@.heatmap.grid.count_at(q) == old(self)@.heatmap.grid.count_at(q)
                },
                None => final(self)@ == old(self)@,
            },
    {
        proof {
            step_keeps_wf(self@, event);
            match event {
                Event::Sample(point) => {
                    crate::geometry::projection_matches_cover(self@.heatmap.viewport, point);
                    match self@.heatmap.viewport.project(point) {
                        Some(pixel) => {
                            crate::grid::increment_by_pixel(self@.heatmap.grid, pixel);
                        },
                        None => {},
                    }
                },
                _ => {},
            }
        }
        match self.phase {
            Phase::Idle => match event {
                Event::Begin(at) => {
                    match self.latest {
                        Some(seen) => {
                            if at < seen {
                                return Err(DriverError::OutOfOrder);
                            }
                        },
                        None => {},
                    }
                    self.phase = Phase::Active;
                    self.latest = Some(at);
                    Ok(Action::Continue)
                },
                Event::Finish => {
                    self.phase = Phase::Finished;
                    Ok(Action::EmitFinal)
                },
                _ => Err(DriverError::OutOfPhase),
            },
            Phase::Active => match event {
                Event::Sample(point) => {
                    match self.heatmap.project_to_screen(&point) {
                        None => Ok(Action::Continue),
                        Some(pixel) => {
                            if self.heatmap.count_at(&pixel) == u32::MAX {
                                return Err(DriverError::CounterSaturated);
                            }
                            self.heatmap.add_point(&pixel);
                            if self.pending + 1 == self.cadence {
                                self.pending = 0;
                                Ok(Action::EmitFrame)
                            } else {
                                self.pending = self.pending + 1;
                                Ok(Action::Continue)
                            }
                        },
                    }
                },
                Event::End => {
                    match self.decay {
                        Some(d) => {
                            self.heatmap.decay(d.amount, d.rule);
                        },
                        None => {},
                    }
                    self.phase = Phase::Idle;
                    Ok(Action::Continue)
                },
                _ => Err(DriverError::OutOfPhase),
            },
            Phase::Finished => Err(DriverError::OutOfPhase),
        }
    }
}

} // verus!
