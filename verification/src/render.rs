//! The bars that show the spectrum, animated at the pace of the display.
//!
//! A new spectrum frame sets the target of every bar; each tick moves every
//! bar one tenth of the way that the last frame asked for. The left channel
//! fills the first half of the bars in reverse, the right channel the second
//! half in order, so that low frequencies meet in the middle.
//!
//! Amplitudes count millionths, as in [`crate::spectrum`].

use crate::handoff::latest;
use crate::spectrum::{Band, StereoFrame, UNIT};
use crossbeam::channel::Receiver;
use vstd::prelude::*;

verus! {

/// The pace of the render loop, in ticks per second.
pub const TICK_RATE: u32 = 144;

/// The number of ticks over which a bar approaches a new target.
pub const TICKS_TO_TARGET: i64 = 10;

/// The height in pixels of a bar at an amplitude of one or more.
pub const FULL_HEIGHT: i64 = 500;

/// A tenth of `d`, rounded towards zero.
pub open spec fn tenth(d: int) -> int {
    if d >= 0 {
        d / 10
    } else {
        -((-d) / 10)
    }
}

/// `x`, held at the ends of the 64-bit range.
pub open spec fn held(x: int) -> int {
    if x > i64::MAX {
        i64::MAX as int
    } else if x < i64::MIN {
        i64::MIN as int
    } else {
        x
    }
}

/// A bar's amplitude after one tick.
pub open spec fn stepped(current: int, old: int, target: int) -> int {
    held(current + tenth(target - old))
}

/// A bar's amplitude after `ticks` ticks without a new frame.
pub open spec fn stepped_by(current: int, old: int, target: int, ticks: nat) -> int
    decreases ticks,
{
    if ticks == 0 {
        current
    } else {
        stepped(stepped_by(current, old, target, (ticks - 1) as nat), old, target)
    }
}

/// The amplitudes of the display: for each bar where it stood when the last
/// frame came, where that frame wants it, and where it stands.
pub struct Bars {
    pub old: Seq<i64>,
    pub target: Seq<i64>,
    pub current: Seq<i64>,
}

impl Bars {
    /// The three rows have one entry for each bar.
    pub open spec fn wf(self) -> bool {
        self.old.len() == self.current.len() && self.target.len() == self.current.len()
    }

    /// The number of bars that one channel fills.
    pub open spec fn half(self) -> int {
        self.current.len() as int / 2
    }

    /// Whether a frame has enough bands for half the bars in each channel.
    pub open spec fn fits(self, left: Seq<Band>, right: Seq<Band>) -> bool {
        left.len() >= self.half() && right.len() >= self.half()
    }

    /// The bars after a frame that fits: they start again from where they
    /// stand, towards the left channel reversed and the right channel in
    /// order. With an odd number of bars the last keeps its target.
    pub open spec fn retargeted(self, left: Seq<Band>, right: Seq<Band>) -> Bars {
        Bars {
            old: self.current,
            target: Seq::new(
                self.target.len(),
                |i: int|
                    if i < self.half() {
                        left[self.half() - 1 - i].amplitude
                    } else if i < 2 * self.half() {
                        right[i - self.half()].amplitude
                    } else {
                        self.target[i]
                    },
            ),
            current: self.current,
        }
    }

    /// The bars after one tick.
    pub open spec fn advanced(self) -> Bars {
        Bars {
            old: self.old,
            target: self.target,
            current: Seq::new(
                self.current.len(),
                |i: int| stepped(self.current[i] as int, self.old[i] as int, self.target[i] as int) as i64,
            ),
        }
    }

    /// The bars after `ticks` ticks without a new frame.
    pub open spec fn advanced_by(self, ticks: nat) -> Bars
        decreases ticks,
    {
        if ticks == 0 {
            self
        } else {
            self.advanced_by((ticks - 1) as nat).advanced()
        }
    }

    /// The bars after one tick of the render loop, on which `frame` was the
    /// newest frame waiting, if any was. A frame that does not fit is passed
    /// over.
    pub open spec fn ticked(self, frame: Option<(Seq<Band>, Seq<Band>)>) -> Bars {
        match frame {
            Some((left, right)) => if self.fits(left, right) {
                self.retargeted(left, right).advanced()
            } else {
                self.advanced()
            },
            None => self.advanced(),
        }
    }
}

/// A value mapped from one range to another in a straight line, after it
/// has been held inside the first range. The result is rounded towards the
/// low end of the second range. Where the first range is given the wrong way
/// round, every value is held at its high end.
pub open spec fn ranged(value: int, from_min: int, from_max: int, to_min: int, to_max: int) -> int {
    if from_min > from_max {
        to_max
    } else {
        ranged_inside(value, from_min, from_max, to_min, to_max)
    }
}

/// `ranged` for a first range that is the right way round.
pub open spec fn ranged_inside(
    value: int,
    from_min: int,
    from_max: int,
    to_min: int,
    to_max: int,
) -> int {
    let inside = if value < from_min {
        from_min
    } else if value > from_max {
        from_max
    } else {
        value
    };
    if to_max >= to_min {
        to_min + ((inside - from_min) * (to_max - to_min)) / (from_max - from_min)
    } else {
        to_min - ((inside - from_min) * (to_min - to_max)) / (from_max - from_min)
    }
}

/// The mapped value lies in the second range, and the ends of the first
/// range go to the ends of the second.
pub proof fn lemma_ranged_bounds(value: int, from_min: int, from_max: int, to_min: int, to_max: int)
    requires
        from_min < from_max,
    ensures
        to_min <= to_max ==> to_min <= ranged(value, from_min, from_max, to_min, to_max) <= to_max,
        to_max <= to_min ==> to_max <= ranged(value, from_min, from_max, to_min, to_max) <= to_min,
        value <= from_min ==> ranged(value, from_min, from_max, to_min, to_max) == to_min,
        value >= from_max ==> ranged(value, from_min, from_max, to_min, to_max) == to_max,
{
    let inside = if value < from_min {
        from_min
    } else if value > from_max {
        from_max
    } else {
        value
    };
    let x = inside - from_min;
    let w = from_max - from_min;
    let h = if to_max >= to_min {
        to_max - to_min
    } else {
        to_min - to_max
    };
    assert(0 <= (x * h) / w <= h && (x == 0 ==> (x * h) / w == 0) && (x == w ==> (x * h) / w == h))
        by (nonlinear_arith)
        requires
            0 <= x <= w,
            0 < w,
            0 <= h,
    ;
}

/// Maps `value` from the range `from` to the range `to`; each range is given
/// as its low and its high end. The ends of the first range must differ.
pub fn map_range(value: i64, from: (i64, i64), to: (i64, i64)) -> (mapped: i64)
    requires
        from.0 != from.1,
    ensures
        mapped == ranged(value as int, from.0 as int, from.1 as int, to.0 as int, to.1 as int),
{
    if from.0 > from.1 {
        return to.1;
    }
    proof {
        lemma_ranged_bounds(value as int, from.0 as int, from.1 as int, to.0 as int, to.1 as int);
    }
    let inside: i64 = if value < from.0 {
        from.0
    } else if value > from.1 {
        from.1
    } else {
        value
    };
    let x: u128 = (inside as i128 - from.0 as i128) as u128;
    let w: u128 = (from.1 as i128 - from.0 as i128) as u128;
    if to.1 >= to.0 {
        let h: u128 = (to.1 as i128 - to.0 as i128) as u128;
        assert(x * h <= 0xffff_ffff_ffff_ffff * 0xffff_ffff_ffff_ffff && 0 <= (x * h) / (w as int) <= h)
            by (nonlinear_arith)
            requires
                0 <= x <= w,
                0 < w <= 0xffff_ffff_ffff_ffff,
                0 <= h <= 0xffff_ffff_ffff_ffff,
        ;
        let rise: u128 = (x * h) / w;
        (to.0 as i128 + rise as i128) as i64
    } else {
        let h: u128 = (to.0 as i128 - to.1 as i128) as u128;
        assert(x * h <= 0xffff_ffff_ffff_ffff * 0xffff_ffff_ffff_ffff && 0 <= (x * h) / (w as int) <= h)
            by (nonlinear_arith)
            requires
                0 <= x <= w,
                0 < w <= 0xffff_ffff_ffff_ffff,
                0 <= h <= 0xffff_ffff_ffff_ffff,
        ;
        let fall: u128 = (x * h) / w;
        (to.0 as i128 - fall as i128) as i64
    }
}

/// The height in pixels of a bar at `amplitude`: amplitudes from zero to one
/// map to heights from zero to `FULL_HEIGHT`.
pub fn bar_height(amplitude: i64) -> (height: u32)
    ensures
        height == ranged(amplitude as int, 0, UNIT as int, 0, FULL_HEIGHT as int),
        height <= FULL_HEIGHT,
{
    proof {
        lemma_ranged_bounds(amplitude as int, 0, UNIT as int, 0, FULL_HEIGHT as int);
    }
    map_range(amplitude, (0, UNIT), (0, FULL_HEIGHT)) as u32
}

/// The time that one tick may take at `rate` ticks per second, in
/// nanoseconds; none at a rate of zero.
pub fn tick_budget(rate: u32) -> (nanos: Option<u32>)
    ensures
        nanos is Some <==> rate > 0,
        nanos matches Some(n) ==> n == 1_000_000_000int / (rate as int),
{
    if rate == 0 {
        None
    } else {
        Some(1_000_000_000 / rate)
    }
}

/// The time to wait before the next tick, where `spent` nanoseconds of a
/// budget of `budget` have gone into this one: what is left of the budget.
pub fn left_of_budget(budget: u32, spent: u64) -> (nanos: u32)
    ensures
        spent >= budget ==> nanos == 0,
        spent < budget ==> nanos == budget - spent,
{
    if spent >= budget as u64 {
        0
    } else {
        budget - spent as u32
    }
}

/// One bar moved by one tick.
pub fn step(current: i64, old: i64, target: i64) -> (next: i64)
    ensures
        next == stepped(current as int, old as int, target as int),
{
    let d: i128 = target as i128 - old as i128;
    let move_by: i128 = d / 10;
    let next: i128 = current as i128 + move_by;
    if next > i64::MAX as i128 {
        i64::MAX
    } else if next < i64::MIN as i128 {
        i64::MIN
    } else {
        next as i64
    }
}

/// The state of the render loop: three rows of amplitudes, one entry for
/// each bar, whose length never changes.
pub struct DisplayState {
    old: Vec<i64>,
    target: Vec<i64>,
    current: Vec<i64>,
}

impl View for DisplayState {
    type V = Bars;

    closed spec fn view(&self) -> Bars {
        Bars { old: self.old@, target: self.target@, current: self.current@ }
    }
}

impl DisplayState {
    /// `bars` bars, all at rest at zero.
    pub fn new(bars: usize) -> (state: DisplayState)
        ensures
            state@.wf(),
            state@.current == Seq::new(bars as nat, |i: int| 0i64),
            state@.old == state@.current,
            state@.target == state@.current,
    {
        let mut old: Vec<i64> = Vec::new();
        let mut target: Vec<i64> = Vec::new();
        let mut current: Vec<i64> = Vec::new();
        let mut i: usize = 0;
        while i < bars
            invariant
                i <= bars,
                old@ == Seq::new(i as nat, |k: int| 0i64),
                target@ == old@,
                current@ == old@,
            decreases bars - i,
        {
            old.push(0);
            target.push(0);
            current.push(0);
            i += 1;
            assert(old@ =~= Seq::new(i as nat, |k: int| 0i64));
            assert(target@ =~= old@);
            assert(current@ =~= old@);
        }
        DisplayState { old, target, current }
    }

    /// The number of bars.
    pub fn bars(&self) -> (n: usize)
        ensures
            n == self@.current.len(),
    {
        self.current.len()
    }

    /// Where bar `i` stands, if there is such a bar.
    pub fn level(&self, i: usize) -> (amplitude: Option<i64>)
        ensures
            amplitude is Some <==> i < self@.current.len(),
            amplitude matches Some(a) ==> a == self@.current[i as int],
    {
        if i < self.current.len() {
            Some(self.current[i])
        } else {
            None
        }
    }

    /// Takes a new spectrum frame as the target, if it fits: each channel
    /// must have a band for half the bars. Returns whether it did; a frame
    /// that does not fit changes nothing.
    pub fn retarget(&mut self, left: &[Band], right: &[Band]) -> (taken: bool)
        requires
            old(self)@.wf(),
        ensures
            final(self)@.wf(),
            final(self)@.current.len() == old(self)@.current.len(),
            taken == old(self)@.fits(left@, right@),
            taken ==> final(self)@ == old(self)@.retargeted(left@, right@),
            !taken ==> final(self)@ == old(self)@,
    {
        let n: usize = self.current.len();
        let half: usize = n / 2;
        if left.len() < half || right.len() < half {
            return false;
        }
        let mut i: usize = 0;
        while i < n
            invariant
                i <= n,
                half == n / 2,
                n == self.current@.len(),
                self.old@.len() == n,
                self.target@.len() == n,
                self.current@ == old(self).current@,
                old(self).target@.len() == n,
                left@.len() >= half,
                right@.len() >= half,
                forall|k: int| 0 <= k < i ==> self.old@[k] == old(self).current@[k],
                forall|k: int|
                    0 <= k < i ==> self.target@[k] == old(self)@.retargeted(left@, right@).target[k],
                forall|k: int| i <= k < n ==> self.target@[k] == old(self).target@[k],
            decreases n - i,
        {
            let stands: i64 = self.current[i];
            self.old[i] = stands;
            if i < half {
                let wanted: i64 = left[half - 1 - i].amplitude;
                self.target[i] = wanted;
            } else if i < 2 * half {
                let wanted: i64 = right[i - half].amplitude;
                self.target[i] = wanted;
            }
            i += 1;
        }
        proof {
            assert(self.old@ =~= old(self).current@);
            assert(self.target@ =~= old(self)@.retargeted(left@, right@).target);
        }
        true
    }

    /// Moves every bar by one tick.
    pub fn advance(&mut self)
        requires
            old(self)@.wf(),
        ensures
            final(self)@.wf(),
            final(self)@.current.len() == old(self)@.current.len(),
            final(self)@ == old(self)@.advanced(),
    {
        let n: usize = self.current.len();
        let mut i: usize = 0;
        while i < n
            invariant
                i <= n,
                n == self.current@.len(),
                n == old(self).current@.len(),
                self.old@ == old(self).old@,
                self.target@ == old(self).target@,
                self.old@.len() == n,
                self.target@.len() == n,
                forall|k: int| 0 <= k < i ==> self.current@[k] == old(self)@.advanced().current[k],
                forall|k: int| i <= k < n ==> self.current@[k] == old(self).current@[k],
            decreases n - i,
        {
            let next: i64 = step(self.current[i], self.old[i], self.target[i]);
            self.current[i] = next;
            i += 1;
        }
        proof {
            assert(self.current@ =~= old(self)@.advanced().current);
        }
    }

    /// One tick of the render loop with the newest frame that was waiting,
    /// if any: the frame becomes the target where it fits, then every bar
    /// moves.
    pub fn tick(&mut self, frame: Option<&StereoFrame>)
        requires
            old(self)@.wf(),
        ensures
            final(self)@.wf(),
            final(self)@.current.len() == old(self)@.current.len(),
            final(self)@ == old(self)@.ticked(
                match frame {
                    Some(f) => Some((f.left@, f.right@)),
                    None => None,
                },
            ),
    {
        match frame {
            Some(f) => {
                let _ = self.retarget(f.left.as_slice(), f.right.as_slice());
            },
            None => {},
        }
        self.advance();
    }

    /// One tick of the render loop: looks for the newest frame on the
    /// channel without waiting, then ticks. Returns whether a frame was
    /// waiting.
    pub fn poll(&mut self, rx: &Receiver<StereoFrame>) -> (found: bool)
        requires
            old(self)@.wf(),
        ensures
            final(self)@.wf(),
            final(self)@.current.len() == old(self)@.current.len(),
            exists|frame: Option<(Seq<Band>, Seq<Band>)>|
                frame is Some == found && final(self)@ == #[trigger] old(self)@.ticked(frame),
    {
        let newest: Option<StereoFrame> = latest(rx);
        match &newest {
            Some(f) => {
                self.tick(Some(f));
                assert(final(self)@ == old(self)@.ticked(Some((f.left@, f.right@))));
                true
            },
            None => {
                self.tick(None);
                assert(final(self)@ == old(self)@.ticked(None));
                false
            },
        }
    }

    /// The height in pixels of every bar.
    pub fn heights(&self) -> (heights: Vec<u32>)
        requires
            self@.wf(),
        ensures
            heights@.len() == self@.current.len(),
            forall|i: int|
                0 <= i < heights@.len() ==> heights@[i] == ranged(
                    self@.current[i] as int,
                    0,
                    UNIT as int,
                    0,
                    FULL_HEIGHT as int,
                ),
    {
        let n: usize = self.current.len();
        let mut heights: Vec<u32> = Vec::new();
        let mut i: usize = 0;
        while i < n
            invariant
                i <= n,
                n == self.current@.len(),
                heights@.len() == i,
                forall|k: int|
                    0 <= k < i ==> heights@[k] == ranged(
                        self.current@[k] as int,
                        0,
                        UNIT as int,
                        0,
                        FULL_HEIGHT as int,
                    ),
            decreases n - i,
        {
            heights.push(bar_height(self.current[i]));
            i += 1;
        }
        heights
    }
}

/// A tenth, taken ten times, comes back to within nine of the whole, from
/// the side of zero.
proof fn lemma_tenth(d: int)
    ensures
        d >= 0 ==> 0 <= 10 * tenth(d) <= d < 10 * tenth(d) + 10,
        d <= 0 ==> d <= 10 * tenth(d) <= 0 && 10 * tenth(d) - 10 < d,
{
}

/// A bar that starts where it stood when the frame came moves in equal
/// steps.
proof fn lemma_equal_steps(start: i64, target: i64, ticks: nat)
    requires
        ticks <= 10,
    ensures
        stepped_by(start as int, start as int, target as int, ticks) == start + ticks * tenth(
            target - start,
        ),
    decreases ticks,
{
    let move_by = tenth(target - start);
    lemma_tenth(target - start);
    if ticks == 0 {
        assert(ticks * move_by == 0) by (nonlinear_arith)
            requires
                ticks == 0,
        ;
    } else {
        lemma_equal_steps(start, target, (ticks - 1) as nat);
        let before = start + (ticks - 1) * move_by;
        assert(ticks * move_by == (ticks - 1) * move_by + move_by) by (nonlinear_arith);
        if target >= start {
            assert(0 <= ticks * move_by <= 10 * move_by) by (nonlinear_arith)
                requires
                    0 <= ticks <= 10,
                    0 <= move_by,
            ;
        } else {
            assert(10 * move_by <= ticks * move_by <= 0) by (nonlinear_arith)
                requires
                    0 <= ticks <= 10,
                    move_by <= 0,
            ;
        }
        assert(stepped(before, start as int, target as int) == before + move_by);
    }
}

/// Ten ticks after a frame, with no frame since, a bar stands within nine
/// millionths of its target, on the side from which it came.
pub proof fn lemma_ten_ticks_reach_target(start: i64, target: i64)
    ensures
        -10 < target - stepped_by(start as int, start as int, target as int, 10) < 10,
        start <= target ==> start <= stepped_by(start as int, start as int, target as int, 10)
            <= target,
        target <= start ==> target <= stepped_by(start as int, start as int, target as int, 10)
            <= start,
{
    lemma_equal_steps(start, target, 10);
    lemma_tenth(target - start);
}

/// A bar whose target is where it stood when the frame came does not move,
/// however many ticks pass and wherever it stands.
pub proof fn lemma_settled_stays(current: i64, level: i64, ticks: nat)
    ensures
        stepped_by(current as int, level as int, level as int, ticks) == current,
    decreases ticks,
{
    if ticks > 0 {
        lemma_settled_stays(current, level, (ticks - 1) as nat);
    }
}

/// Ticks without a new frame move each bar on its own.
pub proof fn lemma_advanced_by(bars: Bars, ticks: nat)
    requires
        bars.wf(),
    ensures
        bars.advanced_by(ticks).wf(),
        bars.advanced_by(ticks).old == bars.old,
        bars.advanced_by(ticks).target == bars.target,
        bars.advanced_by(ticks).current.len() == bars.current.len(),
        forall|i: int|
            0 <= i < bars.current.len() ==> #[trigger] bars.advanced_by(ticks).current[i]
                == stepped_by(
                bars.current[i] as int,
                bars.old[i] as int,
                bars.target[i] as int,
                ticks,
            ),
    decreases ticks,
{
    if ticks > 0 {
        lemma_advanced_by(bars, (ticks - 1) as nat);
    }
}

/// Ten ticks after a frame, with no frame since, every bar stands within
/// nine millionths of its target.
pub proof fn lemma_display_converges(bars: Bars, left: Seq<Band>, right: Seq<Band>)
    requires
        bars.wf(),
        bars.fits(left, right),
    ensures
        forall|i: int|
            0 <= i < bars.current.len() ==> -10 < #[trigger] bars.retargeted(left, right).target[i]
                - bars.retargeted(left, right).advanced_by(10).current[i] < 10,
{
    let fresh = bars.retargeted(left, right);
    lemma_advanced_by(fresh, 10);
    assert forall|i: int| 0 <= i < bars.current.len() implies -10 < #[trigger] fresh.target[i]
        - fresh.advanced_by(10).current[i] < 10 by {
        lemma_ten_ticks_reach_target(fresh.current[i], fresh.target[i]);
    }
}

/// Where every target is where the bar stood when the frame came, the
/// display stays as it is, however many ticks pass.
pub proof fn lemma_display_rests(bars: Bars, ticks: nat)
    requires
        bars.wf(),
        bars.old == bars.target,
    ensures
        bars.advanced_by(ticks) == bars,
{
    lemma_advanced_by(bars, ticks);
    assert forall|i: int| 0 <= i < bars.current.len() implies bars.advanced_by(ticks).current[i]
        == bars.current[i] by {
        lemma_settled_stays(bars.current[i], bars.old[i], ticks);
    }
    assert(bars.advanced_by(ticks).current =~= bars.current);
}

} // verus!
