//! The density grid: one visit counter per pixel, and the largest count seen.

use vstd::prelude::*;
use crate::config::ConfigError;
use crate::geometry::ScreenPoint;

verus! {

/// How `max_value` follows a decay of the counters.
#[derive(Clone, Copy, Debug, PartialEq, Eq, Structural)]
pub enum Renormalize {
    /// `max_value` is left as it is.
    Keep,
    /// `max_value` is lowered by the given step, though by no more than
    /// the counters themselves were lowered.
    Step(u32),
    /// `max_value` becomes the largest counter left in the grid.
    Rescan,
}

/// The largest element of a sequence of counts, and 0 for an empty one.
pub open spec fn peak(s: Seq<nat>) -> nat
    decreases s.len(),
{
    if s.len() == 0 {
        0
    } else if peak(s.drop_last()) >= s.last() {
        peak(s.drop_last())
    } else {
        s.last()
    }
}

/// The sum of a sequence of counts: all the visits that a grid holds.
pub open spec fn total(s: Seq<nat>) -> nat
    decreases s.len(),
{
    if s.len() == 0 {
        0
    } else {
        total(s.drop_last()) + s.last()
    }
}

/// A counter after a decay: lowered by `amount`, but not below zero.
pub open spec fn decayed(count: nat, amount: nat) -> nat {
    if count > amount {
        (count - amount) as nat
    } else {
        0
    }
}

/// The counters of a grid as mathematical naturals.
pub open spec fn counts_of(raw: Seq<u32>) -> Seq<nat> {
    Seq::new(raw.len(), |i: int| raw[i] as nat)
}

/// The mathematical content of a [`DensityGrid`]: a row-major array of
/// counters and the running maximum used to normalise them.
pub struct GridModel {
    pub width: nat,
    pub height: nat,
    pub counters: Seq<nat>,
    pub max_value: nat,
}

impl GridModel {
    /// There is one counter per pixel, and none exceeds `max_value`.
    pub open spec fn wf(self) -> bool {
        &&& self.width <= u32::MAX
        &&& self.height <= u32::MAX
        &&& self.counters.len() == self.width * self.height
        &&& forall|i: int| 0 <= i < self.counters.len() ==> self.counters[i] <= self.max_value
    }

    /// Whether `p` names a pixel of the grid.
    pub open spec fn contains(self, p: ScreenPoint) -> bool {
        p.0 < self.width && p.1 < self.height
    }

    /// Position of a pixel's counter in the row-major array.
    pub open spec fn offset(self, p: ScreenPoint) -> int {
        p.0 + p.1 * self.width
    }

    /// The counter of pixel `p`.
    pub open spec fn count_at(self, p: ScreenPoint) -> nat {
        self.counters[self.offset(p)]
    }

    /// The grid before anything was accumulated.
    pub open spec fn blank(width: nat, height: nat) -> GridModel {
        GridModel {
            width,
            height,
            counters: Seq::new(width * height, |i: int| 0nat),
            max_value: 0,
        }
    }

    /// One more visit of pixel `p`.
    pub open spec fn increment(self, p: ScreenPoint) -> GridModel {
        let raised = self.count_at(p) + 1;
        GridModel {
            counters: self.counters.update(self.offset(p), raised),
            max_value: if raised > self.max_value {
                raised
            } else {
                self.max_value
            },
            ..self
        }
    }

    /// The visits of `pixels`, applied from first to last.
    pub open spec fn increment_all(self, pixels: Seq<ScreenPoint>) -> GridModel
        decreases pixels.len(),
    {
        if pixels.len() == 0 {
            self
        } else {
            self.increment_all(pixels.drop_last()).increment(pixels.last())
        }
    }

    /// Every counter lowered by `amount` and floored at zero, with
    /// `max_value` renormalised by `rule`.
    pub open spec fn decay(self, amount: nat, rule: Renormalize) -> GridModel {
        let faded = Seq::new(self.counters.len(), |i: int| decayed(self.counters[i], amount));
        GridModel {
            counters: faded,
            max_value: match rule {
                Renormalize::Keep => self.max_value,
                Renormalize::Step(step) => if step as nat <= amount {
                    decayed(self.max_value, step as nat)
                } else {
                    decayed(self.max_value, amount)
                },
                Renormalize::Rescan => peak(faded),
            },
            ..self
        }
    }
}

/// `peak` bounds every element, and is one of them unless it is zero.
pub proof fn peak_is_largest(s: Seq<nat>)
    ensures
        forall|i: int| 0 <= i < s.len() ==> s[i] <= peak(s),
        peak(s) == 0 || exists|i: int| 0 <= i < s.len() && s[i] == peak(s),
    decreases s.len(),
{
    if s.len() > 0 {
        let front = s.drop_last();
        peak_is_largest(front);
        assert forall|i: int| 0 <= i < s.len() implies s[i] <= peak(s) by {
            if i < front.len() {
                assert(front[i] == s[i]);
            }
        }
        if peak(s) != 0 {
            if peak(s) == s.last() {
                assert(s[s.len() - 1] == peak(s));
            } else {
                let i = choose|i: int| 0 <= i < front.len() && front[i] == peak(front);
                assert(s[i] == peak(s));
            }
        }
    }
}

/// Pixels of the grid have distinct offsets, all within the counter array.
pub proof fn offsets_are_distinct(g: GridModel, p: ScreenPoint, q: ScreenPoint)
    by (nonlinear_arith)
    requires
        g.contains(p),
        g.contains(q),
    ensures
        0 <= g.offset(p) < g.width * g.height,
        g.offset(p) == g.offset(q) ==> p == q,
{
    let w = g.width as int;
    assert(p.1 * w + w <= g.height * w);
    if p.1 < q.1 {
        assert(p.1 * w + w <= q.1 * w);
    }
    if q.1 < p.1 {
        assert(q.1 * w + w <= p.1 * w);
    }
}

/// A visit keeps the grid well formed, with `max_value` above every
/// counter, and lowers neither a counter nor `max_value`.
pub proof fn increment_keeps_bound(g: GridModel, p: ScreenPoint)
    requires
        g.wf(),
        g.contains(p),
    ensures
        g.increment(p).wf(),
        g.increment(p).max_value >= g.max_value,
        forall|i: int|
            0 <= i < g.counters.len() ==> #[trigger] g.increment(p).counters[i] >= g.counters[i],
{
    offsets_are_distinct(g, p, p);
}

/// A visit seen pixel by pixel: the visited pixel counts one more, and
/// every other pixel counts what it did.
pub proof fn increment_by_pixel(g: GridModel, p: ScreenPoint)
    requires
        g.wf(),
        g.contains(p),
    ensures
        g.increment(p).count_at(p) == g.count_at(p) + 1,
        forall|q: ScreenPoint|
            g.contains(q) && q != p ==> #[trigger] g.increment(p).count_at(q) == g.count_at(q),
{
    offsets_are_distinct(g, p, p);
    assert forall|q: ScreenPoint| g.contains(q) && q != p implies #[trigger] g.increment(
        p,
    ).count_at(q) == g.count_at(q) by {
        offsets_are_distinct(g, q, p);
    }
}

/// A decay seen pixel by pixel.
pub proof fn decay_by_pixel(g: GridModel, amount: nat, rule: Renormalize)
    requires
        g.wf(),
    ensures
        forall|q: ScreenPoint|
            g.contains(q) ==> #[trigger] g.decay(amount, rule).count_at(q) == decayed(
                g.count_at(q),
                amount,
            ),
{
    assert forall|q: ScreenPoint| g.contains(q) implies #[trigger] g.decay(amount, rule).count_at(
        q,
    ) == decayed(g.count_at(q), amount) by {
        offsets_are_distinct(g, q, q);
    }
}

/// A blank grid counts nothing anywhere.
pub proof fn blank_by_pixel(width: nat, height: nat)
    ensures
        forall|q: ScreenPoint|
            GridModel::blank(width, height).contains(q) ==> #[trigger] GridModel::blank(
                width,
                height,
            ).count_at(q) == 0,
{
    let g = GridModel::blank(width, height);
    assert forall|q: ScreenPoint| g.contains(q) implies #[trigger] g.count_at(q) == 0 by {
        offsets_are_distinct(g, q, q);
    }
}

/// A decay keeps the grid well formed under every renormalisation rule:
/// `max_value` stays at or above every counter that is left.
pub proof fn decay_keeps_bound(g: GridModel, amount: nat, rule: Renormalize)
    requires
        g.wf(),
    ensures
        g.decay(amount, rule).wf(),
        g.decay(amount, rule).max_value <= g.max_value,
{
    let after = g.decay(amount, rule);
    peak_is_largest(after.counters);
    assert forall|i: int| 0 <= i < after.counters.len() implies after.counters[i]
        <= after.max_value by {
        assert(g.counters[i] <= g.max_value);
    }
    if rule == Renormalize::Rescan && peak(after.counters) != 0 {
        let i = choose|i: int| 0 <= i < after.counters.len() && after.counters[i] == peak(
            after.counters,
        );
        assert(g.counters[i] <= g.max_value);
    }
}

/// What a run of visits leaves behind, without reference to their order:
/// each counter has grown by the number of visits of its pixel, and
/// `max_value` is the old maximum unless some counter has overtaken it,
/// in which case it is the largest counter.
pub proof fn visits_add_up(g: GridModel, pixels: Seq<ScreenPoint>)
    requires
        g.wf(),
        forall|k: int| 0 <= k < pixels.len() ==> g.contains(pixels[k]),
    ensures
        g.increment_all(pixels).wf(),
        g.increment_all(pixels).width == g.width,
        g.increment_all(pixels).height == g.height,
        forall|p: ScreenPoint|
            g.contains(p) ==> #[trigger] g.increment_all(pixels).count_at(p) == g.count_at(p)
                + pixels.to_multiset().count(p),
        g.increment_all(pixels).max_value >= g.max_value,
        g.increment_all(pixels).max_value == g.max_value || exists|i: int|
            0 <= i < g.counters.len() && g.increment_all(pixels).counters[i] == g.increment_all(
                pixels,
            ).max_value,
    decreases pixels.len(),
{
    let after = g.increment_all(pixels);
    if pixels.len() == 0 {
        assert(pixels.to_multiset() =~= vstd::multiset::Multiset::<ScreenPoint>::empty()) by {
            pixels.to_multiset_ensures();
            assert(pixels.to_multiset().len() == 0);
        }
    } else {
        let front = pixels.drop_last();
        let last = pixels.last();
        let before = g.increment_all(front);
        assert forall|k: int| 0 <= k < front.len() implies g.contains(front[k]) by {
            assert(front[k] == pixels[k]);
        }
        visits_add_up(g, front);
        assert(g.contains(last));
        increment_keeps_bound(before, last);
        assert(pixels == front.push(last));
        vstd::seq_lib::to_multiset_build(front, last);
        assert forall|p: ScreenPoint| g.contains(p) implies #[trigger] after.count_at(p)
            == g.count_at(p) + pixels.to_multiset().count(p) by {
            broadcast use vstd::multiset::group_multiset_axioms;

            offsets_are_distinct(before, p, last);
            offsets_are_distinct(before, last, last);
            assert(before.count_at(p) == g.count_at(p) + front.to_multiset().count(p));
            assert(pixels.to_multiset() == front.to_multiset().insert(last));
            if p == last {
                assert(after.count_at(p) == before.count_at(p) + 1);
            } else {
                assert(before.offset(p) != before.offset(last));
                assert(after.count_at(p) == before.count_at(p));
            }
        }
        offsets_are_distinct(before, last, last);
        if after.max_value != g.max_value {
            if after.max_value == before.max_value {
                let i = choose|i: int|
                    0 <= i < g.counters.len() && before.counters[i] == before.max_value;
                assert(after.counters[i] == after.max_value);
            } else {
                assert(after.counters[before.offset(last)] == after.max_value);
            }
        }
    }
}

/// The pixel whose counter sits at a given place of the counter array.
proof fn lemma_pixel_of_offset(g: GridModel, i: int) -> (p: ScreenPoint)
    requires
        g.wf(),
        0 <= i < g.counters.len(),
    ensures
        g.contains(p),
        g.offset(p) == i,
{
    let w = g.width as int;
    assert(w > 0) by (nonlinear_arith)
        requires
            0 <= i < w * g.height,
            0 <= w,
    ;
    let x = i % w;
    let y = i / w;
    vstd::arithmetic::div_mod::lemma_fundamental_div_mod(i, w);
    assert(0 <= y < g.height) by (nonlinear_arith)
        requires
            0 <= i < w * g.height,
            0 < w,
            i == w * y + x,
            0 <= x < w,
    ;
    assert(w * y == y * w) by (nonlinear_arith);
    (x as u32, y as u32)
}

/// Changing one count changes the sum by the difference.
proof fn lemma_total_update(s: Seq<nat>, i: int, v: nat)
    requires
        0 <= i < s.len(),
    ensures
        total(s.update(i, v)) + s[i] == total(s) + v,
    decreases s.len(),
{
    let changed = s.update(i, v);
    if i == s.len() - 1 {
        assert(changed.drop_last() =~= s.drop_last());
    } else {
        lemma_total_update(s.drop_last(), i, v);
        assert(changed.drop_last() =~= s.drop_last().update(i, v));
    }
}

/// Every visit is counted once: a run of visits raises the sum of all
/// counters by its length.
pub proof fn visits_raise_the_total(g: GridModel, pixels: Seq<ScreenPoint>)
    requires
        g.wf(),
        forall|k: int| 0 <= k < pixels.len() ==> g.contains(pixels[k]),
    ensures
        total(g.increment_all(pixels).counters) == total(g.counters) + pixels.len(),
    decreases pixels.len(),
{
    if pixels.len() > 0 {
        let front = pixels.drop_last();
        assert forall|k: int| 0 <= k < front.len() implies g.contains(front[k]) by {
            assert(front[k] == pixels[k]);
        }
        visits_raise_the_total(g, front);
        visits_add_up(g, front);
        let before = g.increment_all(front);
        offsets_are_distinct(before, pixels.last(), pixels.last());
        lemma_total_update(
            before.counters,
            before.offset(pixels.last()),
            before.count_at(pixels.last()) + 1,
        );
    }
}

/// Two visits commute: whichever of two pixels is visited first, the grid
/// is the same afterwards.
pub proof fn two_visits_commute(g: GridModel, p: ScreenPoint, q: ScreenPoint)
    requires
        g.wf(),
        g.contains(p),
        g.contains(q),
    ensures
        g.increment(p).increment(q) == g.increment(q).increment(p),
{
    offsets_are_distinct(g, p, q);
    offsets_are_distinct(g, q, p);
    let a = g.increment(p).increment(q);
    let b = g.increment(q).increment(p);
    assert(a.counters =~= b.counters);
}

/// Starting from a blank grid, every counter is the number of times its
/// pixel occurs among the visits, and `max_value` is the largest of
/// these numbers: it bounds them all, and it is one of them unless
/// nothing was visited. Both depend on the visits as a multiset only.
pub proof fn visits_from_blank(width: nat, height: nat, pixels: Seq<ScreenPoint>)
    requires
        GridModel::blank(width, height).wf(),
        forall|k: int| 0 <= k < pixels.len() ==> GridModel::blank(width, height).contains(pixels[k]),
    ensures
        forall|p: ScreenPoint|
            GridModel::blank(width, height).contains(p) ==> #[trigger] GridModel::blank(
                width,
                height,
            ).increment_all(pixels).count_at(p) == pixels.to_multiset().count(p),
        forall|p: ScreenPoint|
            GridModel::blank(width, height).contains(p) ==> pixels.to_multiset().count(p)
                <= GridModel::blank(width, height).increment_all(pixels).max_value,
        pixels.len() == 0 ==> GridModel::blank(width, height).increment_all(pixels).max_value == 0,
        pixels.len() > 0 ==> exists|p: ScreenPoint|
            GridModel::blank(width, height).contains(p) && #[trigger] pixels.to_multiset().count(p)
                == GridModel::blank(width, height).increment_all(pixels).max_value,
{
    let blank = GridModel::blank(width, height);
    let after = blank.increment_all(pixels);
    visits_add_up(blank, pixels);
    blank_by_pixel(width, height);
    assert forall|p: ScreenPoint| blank.contains(p) implies pixels.to_multiset().count(p)
        <= after.max_value by {
        assert(after.count_at(p) == blank.count_at(p) + pixels.to_multiset().count(p));
        offsets_are_distinct(after, p, p);
    }
    if pixels.len() > 0 {
        let first = pixels[0];
        pixels.to_multiset_ensures();
        assert(pixels.contains(first));
        assert(pixels.to_multiset().count(first) > 0);
        assert(after.count_at(first) == blank.count_at(first) + pixels.to_multiset().count(first));
        offsets_are_distinct(after, first, first);
        assert(after.max_value > 0);
        let i = choose|i: int| 0 <= i < blank.counters.len() && after.counters[i] == after.max_value;
        let p = lemma_pixel_of_offset(blank, i);
        assert(after.count_at(p) == blank.count_at(p) + pixels.to_multiset().count(p));
        assert(pixels.to_multiset().count(p) == after.max_value);
    }
}

/// Visits commute: two runs that visit the same pixels the same number of
/// times, in whatever order, leave the same counters and the same
/// `max_value`.
pub proof fn increments_commute(g: GridModel, first: Seq<ScreenPoint>, second: Seq<ScreenPoint>)
    requires
        g.wf(),
        forall|k: int| 0 <= k < first.len() ==> g.contains(first[k]),
        first.to_multiset() == second.to_multiset(),
    ensures
        g.increment_all(first) == g.increment_all(second),
{
    assert forall|k: int| 0 <= k < second.len() implies g.contains(second[k]) by {
        first.to_multiset_ensures();
        second.to_multiset_ensures();
        assert(second.contains(second[k]));
        assert(second.to_multiset().count(second[k]) > 0);
        assert(first.to_multiset().count(second[k]) > 0);
        assert(first.contains(second[k]));
        let j = choose|j: int| 0 <= j < first.len() && first[j] == second[k];
        assert(g.contains(first[j]));
    }
    visits_add_up(g, first);
    visits_add_up(g, second);
    let a = g.increment_all(first);
    let b = g.increment_all(second);
    assert forall|i: int| 0 <= i < a.counters.len() implies a.counters[i] == b.counters[i] by {
        let p = lemma_pixel_of_offset(g, i);
        assert(a.count_at(p) == g.count_at(p) + first.to_multiset().count(p));
        assert(b.count_at(p) == g.count_at(p) + second.to_multiset().count(p));
    }
    assert(a.counters =~= b.counters);
    if a.max_value != g.max_value {
        let i = choose|i: int| 0 <= i < g.counters.len() && a.counters[i] == a.max_value;
        assert(b.counters[i] <= b.max_value);
    }
    if b.max_value != g.max_value {
        let i = choose|i: int| 0 <= i < g.counters.len() && b.counters[i] == b.max_value;
        assert(a.counters[i] <= a.max_value);
    }
}

/// A raster of visit counters, one per pixel in row-major order, together
/// with the largest count ever reached.
#[derive(Debug)]
pub struct DensityGrid {
    width: u32,
    height: u32,
    counters: Vec<u32>,
    max_value: u32,
}

impl View for DensityGrid {
    type V = GridModel;

    closed spec fn view(&self) -> GridModel {
        GridModel {
            width: self.width as nat,
            height: self.height as nat,
            counters: counts_of(self.counters@),
            max_value: self.max_value as nat,
        }
    }
}

impl DensityGrid {
    /// Whether the value is well formed: its model is.
    pub open spec fn wf(&self) -> bool {
        self@.wf()
    }

    /// A grid of `width` by `height` counters, all zero.
    pub fn new(width: u32, height: u32) -> (made: Result<DensityGrid, ConfigError>)
        ensures
            made is Err <==> width * height > usize::MAX,
            made matches Err(e) ==> e == ConfigError::TooLarge,
            made matches Ok(g) ==> g.wf() && g@ == GridModel::blank(width as nat, height as nat),
            made matches Ok(g) ==> forall|q: ScreenPoint|
                g@.contains(q) ==> #[trigger] g@.count_at(q) == 0,
    {
        proof {
            blank_by_pixel(width as nat, height as nat);
        }
        assert(width * height <= 0xffff_ffff * 0xffff_ffff) by (nonlinear_arith)
            requires
                width <= 0xffff_ffff,
                height <= 0xffff_ffff,
        ;
        let cells: u64 = (width as u64) * (height as u64);
        if cells > usize::MAX as u64 {
            return Err(ConfigError::TooLarge);
        }
        let size: usize = cells as usize;
        let mut counters: Vec<u32> = Vec::with_capacity(size);
        let mut filled: usize = 0;
        while filled < size
            invariant
                filled <= size,
                counters@.len() == filled,
                forall|i: int| 0 <= i < filled ==> counters@[i] == 0,
            decreases size - filled,
        {
            counters.push(0);
            filled += 1;
        }
        let grid = DensityGrid { width, height, counters, max_value: 0 };
        assert(grid@.counters =~= GridModel::blank(width as nat, height as nat).counters);
        Ok(grid)
    }

    /// A grid over counters that are already known, row-major, with the
    /// largest of them as `max_value`; `None` when there is not exactly one
    /// counter per pixel.
    pub fn from_counters(width: u32, height: u32, counters: Vec<u32>) -> (made: Option<
        DensityGrid,
    >)
        ensures
            made is Some <==> counters@.len() == width * height,
            made matches Some(g) ==> g.wf() && g@ == (GridModel {
                width: width as nat,
                height: height as nat,
                counters: counts_of(counters@),
                max_value: peak(counts_of(counters@)),
            }),
            made matches Some(g) ==> (g@.max_value == 0 || exists|i: int|
                0 <= i < counters@.len() && #[trigger] counters@[i] == g@.max_value),
            made matches Some(g) ==> forall|i: int|
                0 <= i < counters@.len() ==> #[trigger] counters@[i] <= g@.max_value,
            made matches Some(g) ==> forall|q: ScreenPoint|
                g@.contains(q) ==> #[trigger] g@.count_at(q) == counters@[g@.offset(q)],
    {
        assert(width * height <= 0xffff_ffff * 0xffff_ffff) by (nonlinear_arith)
            requires
                width <= 0xffff_ffff,
                height <= 0xffff_ffff,
        ;
        let cells: u64 = (width as u64) * (height as u64);
        if counters.len() as u64 != cells {
            return None;
        }
        let mut highest: u32 = 0;
        let mut at: usize = 0;
        while at < counters.len()
            invariant
                at <= counters@.len(),
                highest as nat == peak(counts_of(counters@).take(at as int)),
            decreases counters@.len() - at,
        {
            proof {
                let now = counts_of(counters@).take(at as int + 1);
                assert(now.drop_last() =~= counts_of(counters@).take(at as int));
                assert(now.last() == counters@[at as int] as nat);
            }
            if counters[at] > highest {
                highest = counters[at];
            }
            at += 1;
        }
        proof {
            assert(counts_of(counters@).take(at as int) =~= counts_of(counters@));
            peak_is_largest(counts_of(counters@));
            if highest != 0 {
                let i = choose|i: int|
                    0 <= i < counts_of(counters@).len() && counts_of(counters@)[i] == peak(
                        counts_of(counters@),
                    );
                assert(counters@[i] == highest);
            }
            assert forall|i: int| 0 <= i < counters@.len() implies #[trigger] counters@[i]
                <= highest by {
                assert(counts_of(counters@)[i] <= peak(counts_of(counters@)));
            }
        }
        let ghost given = counters@;
        let grid = DensityGrid { width, height, counters, max_value: highest };
        proof {
            assert forall|q: ScreenPoint| grid@.contains(q) implies #[trigger] grid@.count_at(q)
                == given[grid@.offset(q)] by {
                offsets_are_distinct(grid@, q, q);
            }
        }
        Some(grid)
    }

    /// The number of columns.
    pub fn width(&self) -> (w: u32)
        ensures
            w == self@.width,
    {
        self.width
    }

    /// The number of rows.
    pub fn height(&self) -> (h: u32)
        ensures
            h == self@.height,
    {
        self.height
    }

    /// The largest count ever reached, lowered only by a decay.
    pub fn max_value(&self) -> (m: u32)
        ensures
            m == self@.max_value,
    {
        self.max_value
    }

    /// The counters in row-major order, for colouring.
    pub fn snapshot(&self) -> (counters: &Vec<u32>)
        ensures
            counts_of(counters@) == self@.counters,
            counters@.len() == self@.counters.len(),
            forall|i: int| 0 <= i < counters@.len() ==> counters@[i] == self@.counters[i],
    {
        &self.counters
    }

    /// Whether `point` names a pixel of this grid.
    pub fn contains(&self, point: &ScreenPoint) -> (inside: bool)
        ensures
            inside == self@.contains(*point),
    {
        point.0 < self.width && point.1 < self.height
    }

    fn offset(&self, point: &ScreenPoint) -> (at: usize)
        requires
            self.wf(),
            self@.contains(*point),
        ensures
            at == self@.offset(*point),
            at < self.counters@.len(),
    {
        proof {
            offsets_are_distinct(self@, *point, *point);
            assert(self@.counters.len() == self.counters@.len());
            assert(0 <= point.1 * self.width) by (nonlinear_arith);
            assert(self.counters@.len() == self.counters.len() <= usize::MAX);
        }
        (point.0 as usize) + (point.1 as usize) * (self.width as usize)
    }

    /// The number of visits recorded for `point`.
    pub fn count_at(&self, point: &ScreenPoint) -> (count: u32)
        requires
            self.wf(),
            self@.contains(*point),
        ensures
            count == self@.count_at(*point),
    {
        let at = self.offset(point);
        self.counters[at]
    }

    /// Records one more visit of `point`, and raises `max_value` to the
    /// new count if that is larger.
    pub fn increment(&mut self, point: &ScreenPoint)
        requires
            old(self).wf(),
            old(self)@.contains(*point),
            old(self)@.count_at(*point) < u32::MAX,
        ensures
            final(self).wf(),
            final(self)@ == old(self)@.increment(*point),
            final(self)@.count_at(*point) == old(self)@.count_at(*point) + 1,
            forall|q: ScreenPoint|
                old(self)@.contains(q) && q != *point
                    ==> #[trigger] final(self)@.count_at(q) == old(self)@.count_at(q),
            final(self)@.max_value >= old(self)@.max_value,
            forall|i: int|
                0 <= i < final(self)@.counters.len() ==> #[trigger] final(self)@.counters[i]
                    <= final(self)@.max_value,
    {
        proof {
            increment_by_pixel(self@, *point);
        }
        let at = self.offset(point);
        let raised: u32 = self.counters[at] + 1;
        self.counters.set(at, raised);
        if raised > self.max_value {
            self.max_value = raised;
        }
        proof {
            increment_keeps_bound(old(self)@, *point);
            assert(self@.counters =~= old(self)@.increment(*point).counters);
        }
    }

    /// Lowers every counter by `amount`, stopping at zero, and renormalises
    /// `max_value` by `rule`.
    pub fn decay(&mut self, amount: u32, rule: Renormalize)
        requires
            old(self).wf(),
        ensures
            final(self).wf(),
            final(self)@ == old(self)@.decay(amount as nat, rule),
            forall|q: ScreenPoint|
                old(self)@.contains(q) ==> #[trigger] final(self)@.count_at(q) == decayed(
                    old(self)@.count_at(q),
                    amount as nat,
                ),
            rule == Renormalize::Rescan ==> (final(self)@.max_value == 0 || exists|i: int|
                0 <= i < final(self)@.counters.len() && #[trigger] final(self)@.counters[i]
                    == final(self)@.max_value),
    {
        proof {
            decay_by_pixel(self@, amount as nat, rule);
        }
        let size = self.counters.len();
        let mut highest: u32 = 0;
        let mut at: usize = 0;
        while at < size
            invariant
                at <= size,
                size == old(self).counters@.len(),
                self.counters@.len() == size,
                self.width == old(self).width,
                self.height == old(self).height,
                self.max_value == old(self).max_value,
                forall|i: int|
                    0 <= i < at ==> self.counters@[i] as nat == decayed(
                        old(self).counters@[i] as nat,
                        amount as nat,
                    ),
                forall|i: int| at <= i < size ==> self.counters@[i] == old(self).counters@[i],
                highest as nat == peak(counts_of(self.counters@).take(at as int)),
            decreases size - at,
        {
            let count = self.counters[at];
            let faded: u32 = if count > amount {
                count - amount
            } else {
                0
            };
            let ghost seen = counts_of(self.counters@).take(at as int);
            self.counters.set(at, faded);
            proof {
                let now = counts_of(self.counters@).take(at as int + 1);
                assert(now.drop_last() =~= seen);
                assert(now.last() == faded as nat);
            }
            if faded > highest {
                highest = faded;
            }
            at += 1;
        }
        match rule {
            Renormalize::Keep => {},
            Renormalize::Step(step) => {
                let drop = if step <= amount {
                    step
                } else {
                    amount
                };
                self.max_value = if self.max_value > drop {
                    self.max_value - drop
                } else {
                    0
                };
            },
            Renormalize::Rescan => {
                self.max_value = highest;
            },
        }
        proof {
            let target = old(self)@.decay(amount as nat, rule);
            decay_keeps_bound(old(self)@, amount as nat, rule);
            assert(self@.counters =~= target.counters);
            assert(counts_of(self.counters@).take(size as int) =~= self@.counters);
            peak_is_largest(target.counters);
        }
    }
}

} // verus!
