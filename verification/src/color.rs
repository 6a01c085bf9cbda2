//! Colouring: from visit counts to RGB bytes, by a logarithmic heat scale.

use vstd::prelude::*;
use crate::config::ConfigError;
use crate::grid::counts_of;

verus! {

/// A colour of three 8-bit channels.
#[derive(Clone, Copy, Debug, PartialEq, Eq, Structural)]
pub struct Rgb {
    pub r: u8,
    pub g: u8,
    pub b: u8,
}

/// Why a grid cannot be coloured.
#[derive(Clone, Copy, Debug, PartialEq, Eq, Structural)]
pub enum RenderError {
    /// The logarithm table has no entry for `max_value`.
    LogTableTooShort,
}

/// Byte `k` of a colour as it is stored: red, green, blue.
pub open spec fn channel(c: Rgb, k: int) -> u8 {
    if k == 0 {
        c.r
    } else if k == 1 {
        c.g
    } else {
        c.b
    }
}

/// Whether a table can be one of logarithms of the counts 1, 2, 3 and so
/// on, in any base above 1 and at any scale: the logarithm of 1 is zero,
/// that of every larger count is positive, and a larger count never has a
/// smaller logarithm. The entry for the count 0 is never read and may hold
/// anything.
pub open spec fn is_log_table(logs: Seq<nat>) -> bool {
    &&& logs.len() > 1 ==> logs[1] == 0
    &&& forall|c: int| 2 <= c < logs.len() ==> #[trigger] logs[c] > 0
    &&& forall|a: int, b: int| 1 <= a <= b < logs.len() ==> #[trigger] logs[a] <= #[trigger] logs[b]
}

/// The mathematical content of a [`ColorMapper`].
///
/// `ramp` samples the gradient at evenly spaced heat values, from heat 0
/// at its first entry to heat 1 at its last. `logs[c]` is the logarithm of
/// the count `c` in fixed point; base and scale cancel in the quotient
/// that the heat is.
pub struct ColorModel {
    pub background: Rgb,
    pub ink: Rgb,
    pub ramp: Seq<Rgb>,
    pub logs: Seq<nat>,
}

impl ColorModel {
    /// The gradient has at least one colour, and the table grows as
    /// logarithms do.
    pub open spec fn wf(self) -> bool {
        &&& self.ramp.len() >= 1
        &&& is_log_table(self.logs)
    }

    /// Whether the logarithm table reaches far enough to normalise by
    /// `max_value`.
    pub open spec fn covers(self, max_value: nat) -> bool {
        max_value <= 1 || max_value < self.logs.len()
    }

    /// The top of the gradient: the colour of heat 1.
    pub open spec fn hottest(self) -> Rgb {
        self.ramp[self.ramp.len() - 1]
    }

    /// The place in `ramp` of the heat `num / den`: the heat scaled to the
    /// ramp and rounded down, and clamped to the top of the ramp for a
    /// heat above 1. A heat with a zero denominator counts as 1.
    pub open spec fn level(self, num: nat, den: nat) -> int {
        let top = self.ramp.len() - 1;
        if den == 0 || num * top / (den as int) > top {
            top
        } else {
            num * top / (den as int)
        }
    }

    /// The gradient at the heat `num / den`.
    pub open spec fn stop(self, num: nat, den: nat) -> Rgb {
        self.ramp[self.level(num, den)]
    }

    /// The heat of a nonzero count, as numerator and denominator:
    /// `log(count) / log(max_value)`. Where `max_value` is at most 1 its
    /// logarithm is zero, and the heat is 1. A count above `max_value`
    /// has the heat of `max_value`.
    pub open spec fn heat(self, count: nat, max_value: nat) -> (nat, nat) {
        if max_value <= 1 {
            (1, 1)
        } else if count > max_value {
            (self.logs[max_value as int], self.logs[max_value as int])
        } else {
            (self.logs[count as int], self.logs[max_value as int])
        }
    }

    /// The colour of a counter: the background where nothing was counted,
    /// otherwise the gradient at the counter's heat.
    pub open spec fn shade(self, count: nat, max_value: nat) -> Rgb {
        if count == 0 {
            self.background
        } else {
            self.stop(self.heat(count, max_value).0, self.heat(count, max_value).1)
        }
    }

    /// The pixel buffer of a grid: three bytes per counter, in the order of
    /// the counters.
    pub open spec fn colorize(self, counters: Seq<nat>, max_value: nat) -> Seq<u8> {
        Seq::new(
            3 * counters.len(),
            |i: int| channel(self.shade(counters[i / 3], max_value), i % 3),
        )
    }
}

/// Every heat names a colour of the ramp.
pub proof fn level_in_ramp(m: ColorModel, num: nat, den: nat)
    requires
        m.wf(),
    ensures
        0 <= m.level(num, den) < m.ramp.len(),
{
    let top = m.ramp.len() - 1;
    if den != 0 {
        assert(0 <= num * top / (den as int)) by (nonlinear_arith)
            requires
                0 <= num,
                0 <= top,
                0 < den,
        ;
    }
}

/// Heat 0 is the bottom of the gradient and heat 1 its top.
pub proof fn gradient_ends(m: ColorModel, den: nat)
    requires
        m.wf(),
        den > 0,
    ensures
        m.stop(0, den) == m.ramp[0],
        m.stop(den, den) == m.hottest(),
{
    let top = m.ramp.len() - 1;
    assert(0 * top / (den as int) == 0) by (nonlinear_arith)
        requires
            den > 0,
    ;
    assert(den * top / (den as int) == top) by (nonlinear_arith)
        requires
            den > 0,
            top >= 0,
    ;
}

/// The hottest pixel takes the top of the gradient: a nonzero counter that
/// has reached `max_value` is coloured as heat 1, and where `max_value` is
/// at most 1 so is every nonzero counter.
pub proof fn hottest_at_maximum(m: ColorModel, count: nat, max_value: nat)
    requires
        m.wf(),
        count >= 1,
        count >= max_value,
    ensures
        m.shade(count, max_value) == m.hottest(),
{
    let top = m.ramp.len() - 1;
    assert(1 * top / 1 == top);
    if max_value > 1 && m.logs[max_value as int] != 0 {
        gradient_ends(m, m.logs[max_value as int]);
    }
}

/// The heat of a nonzero count lies between 0 and 1: its numerator does
/// not exceed its denominator.
pub proof fn heat_is_a_fraction(m: ColorModel, count: nat, max_value: nat)
    requires
        m.wf(),
        m.covers(max_value),
        count >= 1,
    ensures
        m.heat(count, max_value).0 <= m.heat(count, max_value).1,
        m.heat(count, max_value).1 > 0,
{
    if max_value >= 2 {
        assert(m.logs[max_value as int] > 0);
        if count <= max_value {
            assert(m.logs[count as int] <= m.logs[max_value as int]);
        }
    }
}

/// A single visit is the coldest there is: where `max_value` is at least
/// 2, a counter of 1 has heat 0 and takes the bottom of the gradient.
pub proof fn coldest_at_one(m: ColorModel, max_value: nat)
    requires
        m.wf(),
        m.covers(max_value),
        max_value >= 2,
    ensures
        m.heat(1, max_value).0 == 0,
        m.shade(1, max_value) == m.ramp[0],
{
    assert(m.logs[max_value as int] > 0);
    gradient_ends(m, m.logs[max_value as int]);
}

/// A larger count is never colder: its place on the ramp is at or above
/// that of every smaller count.
pub proof fn heat_never_falls(m: ColorModel, fewer: nat, more: nat, max_value: nat)
    requires
        m.wf(),
        m.covers(max_value),
        1 <= fewer <= more,
    ensures
        m.level(m.heat(fewer, max_value).0, m.heat(fewer, max_value).1) <= m.level(
            m.heat(more, max_value).0,
            m.heat(more, max_value).1,
        ),
{
    let top = m.ramp.len() - 1;
    if max_value >= 2 {
        let den = m.logs[max_value as int] as int;
        assert(den > 0);
        let low = m.heat(fewer, max_value).0 as int;
        let high = m.heat(more, max_value).0 as int;
        assert(low <= high) by {
            if more <= max_value {
                assert(m.logs[fewer as int] <= m.logs[more as int]);
            } else if fewer <= max_value {
                assert(m.logs[fewer as int] <= m.logs[max_value as int]);
            }
        }
        assert(low * top / den <= high * top / den) by (nonlinear_arith)
            requires
                0 <= low <= high,
                0 <= top,
                0 < den,
        {
            assert(low * top <= high * top);
        }
    }
}

/// Tests whether a table grows as logarithms do; see [`is_log_table`].
pub fn check_log_table(logs: &Vec<u32>) -> (sound: bool)
    ensures
        sound == is_log_table(counts_of(logs@)),
{
    let ghost table = counts_of(logs@);
    let mut at: usize = 1;
    while at < logs.len()
        invariant
            1 <= at,
            logs@.len() >= 1 ==> at <= logs@.len(),
            table == counts_of(logs@),
            at <= logs@.len() ==> is_log_table(table.take(at as int)),
        decreases logs@.len() - at,
    {
        let ghost seen = table.take(at as int);
        if at == 1 {
            if logs[1] != 0 {
                assert(table[1] != 0);
                return false;
            }
        } else {
            if logs[at] == 0 {
                assert(!(table[at as int] > 0));
                return false;
            }
            if logs[at] < logs[at - 1] {
                assert(table[at - 1] > table[at as int]);
                return false;
            }
        }
        proof {
            let next = table.take(at as int + 1);
            assert forall|a: int, b: int| 1 <= a <= b < next.len() implies #[trigger] next[a]
                <= #[trigger] next[b] by {
                if b == at && a < at {
                    assert(seen[a] <= seen[at - 1]);
                }
            }
            assert forall|c: int| 2 <= c < next.len() implies #[trigger] next[c] > 0 by {
                if c < at {
                    assert(seen[c] > 0);
                }
            }
        }
        at += 1;
    }
    proof {
        if logs@.len() >= 1 {
            assert(table.take(at as int) =~= table);
        }
    }
    true
}

/// The colour configuration: background, overlay ink, the sampled gradient
/// and the table of logarithms.
#[derive(Debug)]
pub struct ColorMapper {
    background: Rgb,
    ink: Rgb,
    ramp: Vec<Rgb>,
    logs: Vec<u32>,
}

impl View for ColorMapper {
    type V = ColorModel;

    closed spec fn view(&self) -> ColorModel {
        ColorModel {
            background: self.background,
            ink: self.ink,
            ramp: self.ramp@,
            logs: counts_of(self.logs@),
        }
    }
}

impl ColorMapper {
    /// Whether the value is well formed: its model is.
    pub open spec fn wf(&self) -> bool {
        self@.wf()
    }

    /// Builds a mapper. `ramp` holds the gradient from cold to hot, and
    /// `logs[c]` the fixed-point logarithm of `c`.
    pub fn new(background: Rgb, ink: Rgb, ramp: Vec<Rgb>, logs: Vec<u32>) -> (made: Result<
        ColorMapper,
        ConfigError,
    >)
        ensures
            ramp@.len() == 0 ==> made == Err::<ColorMapper, ConfigError>(ConfigError::EmptyGradient),
            ramp@.len() > 0 && !is_log_table(counts_of(logs@)) ==> made == Err::<
                ColorMapper,
                ConfigError,
            >(ConfigError::BadLogTable),
            ramp@.len() > 0 && is_log_table(counts_of(logs@)) ==> made is Ok,
            made matches Ok(m) ==> m.wf() && m@ == (ColorModel {
                background,
                ink,
                ramp: ramp@,
                logs: counts_of(logs@),
            }),
    {
        if ramp.len() == 0 {
            return Err(ConfigError::EmptyGradient);
        }
        if !check_log_table(&logs) {
            return Err(ConfigError::BadLogTable);
        }
        Ok(ColorMapper { background, ink, ramp, logs })
    }

    /// The colour of pixels that were never visited.
    pub fn background(&self) -> (c: Rgb)
        ensures
            c == self@.background,
    {
        self.background
    }

    /// The colour that overlays are drawn in.
    pub fn ink(&self) -> (c: Rgb)
        ensures
            c == self@.ink,
    {
        self.ink
    }

    /// How many counts the logarithm table has an entry for.
    pub fn log_len(&self) -> (n: usize)
        ensures
            n == self@.logs.len(),
    {
        self.logs.len()
    }

    /// Appends the logarithm of the next count to the table, unless the
    /// table would then no longer grow as logarithms do. Says whether the
    /// value was taken.
    pub fn push_log(&mut self, value: u32) -> (taken: bool)
        requires
            old(self).wf(),
        ensures
            final(self).wf(),
            taken == is_log_table(old(self)@.logs.push(value as nat)),
            taken ==> final(self)@ == (ColorModel {
                logs: old(self)@.logs.push(value as nat),
                ..old(self)@
            }),
            !taken ==> final(self)@ == old(self)@,
    {
        let len = self.logs.len();
        let ghost grown = self@.logs.push(value as nat);
        let fits = if len == 0 {
            true
        } else if len == 1 {
            value == 0
        } else {
            value > 0 && value >= self.logs[len - 1]
        };
        proof {
            assert(self@.logs.len() == len);
            if fits {
                assert forall|a: int, b: int| 1 <= a <= b < grown.len() implies #[trigger] grown[a]
                    <= #[trigger] grown[b] by {
                    if b == len && a < len {
                        assert(self@.logs[a] <= self@.logs[len - 1]);
                    }
                }
                assert(is_log_table(grown));
            } else if len == 1 {
                assert(grown[1] != 0);
            } else if value == 0 {
                assert(!(grown[len as int] > 0));
            } else {
                assert(grown[len - 1] > grown[len as int]);
            }
        }
        if fits {
            self.logs.push(value);
            assert(self@.logs =~= grown);
        }
        fits
    }

    /// Whether a grid with this `max_value` can be coloured.
    pub fn covers(&self, max_value: u32) -> (enough: bool)
        ensures
            enough == self@.covers(max_value as nat),
    {
        max_value <= 1 || (max_value as usize) < self.logs.len()
    }

    /// The gradient at the heat `num / den`, clamped to the top for a heat
    /// above 1; a zero denominator counts as heat 1.
    pub fn stop(&self, num: u32, den: u32) -> (c: Rgb)
        requires
            self.wf(),
        ensures
            c == self@.stop(num as nat, den as nat),
    {
        proof {
            level_in_ramp(self@, num as nat, den as nat);
        }
        let top: usize = self.ramp.len() - 1;
        if den == 0 {
            return self.ramp[top];
        }
        assert(num * top <= 0xffff_ffff * 0xffff_ffff_ffff_ffff) by (nonlinear_arith)
            requires
                num <= 0xffff_ffff,
                top <= 0xffff_ffff_ffff_ffff,
        ;
        let level: u128 = (num as u128) * (top as u128) / (den as u128);
        if level > top as u128 {
            self.ramp[top]
        } else {
            self.ramp[level as usize]
        }
    }

    /// The colour of one counter.
    pub fn shade(&self, count: u32, max_value: u32) -> (c: Rgb)
        requires
            self.wf(),
            self@.covers(max_value as nat),
        ensures
            c == self@.shade(count as nat, max_value as nat),
    {
        if count == 0 {
            self.background
        } else if max_value <= 1 {
            self.stop(1, 1)
        } else if count > max_value {
            self.stop(self.logs[max_value as usize], self.logs[max_value as usize])
        } else {
            self.stop(self.logs[count as usize], self.logs[max_value as usize])
        }
    }

    /// Colours a snapshot of the grid: three bytes per counter, row-major.
    /// Fails exactly when the logarithm table is too short for `max_value`.
    pub fn colorize(&self, snapshot: &Vec<u32>, max_value: u32) -> (painted: Result<
        Vec<u8>,
        RenderError,
    >)
        requires
            self.wf(),
            3 * snapshot@.len() <= usize::MAX,
        ensures
            painted is Ok <==> self@.covers(max_value as nat),
            painted matches Err(e) ==> e == RenderError::LogTableTooShort,
            painted matches Ok(pixels) ==> pixels@ == self@.colorize(
                counts_of(snapshot@),
                max_value as nat,
            ),
    {
        if !self.covers(max_value) {
            return Err(RenderError::LogTableTooShort);
        }
        let size = snapshot.len();
        let mut pixels: Vec<u8> = Vec::with_capacity(3 * size);
        let ghost target = self@.colorize(counts_of(snapshot@), max_value as nat);
        let mut at: usize = 0;
        while at < size
            invariant
                at <= size,
                size == snapshot@.len(),
                3 * size <= usize::MAX,
                self.wf(),
                self@.covers(max_value as nat),
                target == self@.colorize(counts_of(snapshot@), max_value as nat),
                pixels@.len() == 3 * at,
                forall|i: int| 0 <= i < 3 * at ==> pixels@[i] == target[i],
            decreases size - at,
        {
            let c = self.shade(snapshot[at], max_value);
            proof {
                let i = 3 * at as int;
                assert(counts_of(snapshot@)[at as int] == snapshot@[at as int] as nat);
                assert(target[i] == c.r && target[i + 1] == c.g && target[i + 2] == c.b);
            }
            pixels.push(c.r);
            pixels.push(c.g);
            pixels.push(c.b);
            at += 1;
        }
        assert(pixels@ =~= target);
        Ok(pixels)
    }
}

/// Colouring is repeatable: two calls of `colorize` on the same mapper,
/// snapshot and `max_value` succeed or fail alike, and on success return
/// the same bytes.
pub proof fn colorize_is_repeatable(
    mapper: ColorMapper,
    snapshot: Vec<u32>,
    max_value: u32,
    first: Result<Vec<u8>, RenderError>,
    second: Result<Vec<u8>, RenderError>,
)
    requires
        call_ensures(ColorMapper::colorize, (&mapper, &snapshot, max_value), first),
        call_ensures(ColorMapper::colorize, (&mapper, &snapshot, max_value), second),
    ensures
        first is Ok <==> second is Ok,
        first matches Err(e) ==> second == Err::<Vec<u8>, RenderError>(e),
        first matches Ok(a) ==> second matches Ok(b) && a@ == b@,
{
}

} // verus!
