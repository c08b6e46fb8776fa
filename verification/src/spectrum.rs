//! From the magnitude spectrum of one window to the amplitudes that are
//! shown.
//!
//! The transform itself is computed elsewhere, in floating point. This module
//! fixes the length that a window is padded to before the transform, and
//! shapes the magnitudes that come out of it: bins below the frequency floor
//! are left out, each magnitude is scaled and weighted by its frequency, and
//! the result is smoothed.
//!
//! Numbers are fixed-point integers: a frequency counts millihertz, a
//! magnitude or an amplitude counts millionths.

use crate::capture::{deinterleave, even_samples, odd_samples};
use vstd::arithmetic::power2::{lemma_pow2_unfold, pow2};
use vstd::prelude::*;

verus! {

/// One, as a magnitude or an amplitude: a million millionths.
pub const UNIT: i64 = 1_000_000;

/// The frequency floor, 250 Hz, in millihertz. Bins below it are left out.
pub const FLOOR: u64 = 250_000;

/// The frequency from which the weight is one, 5000 Hz, in millihertz.
pub const FULL_WEIGHT: u64 = 5_000_000;

/// The factor by which every magnitude is scaled.
pub const SCALE: u64 = 50;

/// Why a window cannot be analysed.
#[derive(Clone, Copy, Debug, PartialEq, Eq, Structural)]
pub enum SpectrumError {
    /// The window holds no sample.
    EmptyWindow,
    /// No power of two that a `usize` can hold reaches the window's length.
    WindowTooLong,
}

/// One bin of the transform: its frequency in millihertz and its magnitude
/// in millionths.
#[derive(Clone, Copy, Debug, PartialEq, Eq, Structural)]
pub struct Bin {
    pub frequency: u64,
    pub magnitude: u32,
}

/// One entry of a spectrum frame: a frequency in millihertz and the
/// amplitude to show for it, in millionths.
#[derive(Clone, Copy, Debug, PartialEq, Eq, Structural)]
pub struct Band {
    pub frequency: u64,
    pub amplitude: i64,
}

/// The spectrum frames of both channels for one window.
pub struct StereoFrame {
    pub left: Vec<Band>,
    pub right: Vec<Band>,
}

/// The first of `p`, `2p`, `4p`, ... that reaches `n`.
pub open spec fn doubled_up_to(p: nat, n: nat) -> nat
    decreases 2 * n - p,
{
    if p >= n || p == 0 {
        p
    } else {
        doubled_up_to(2 * p, n)
    }
}

/// The smallest power of two that is at least `n`. For one sample it is one,
/// and a length that is a power of two already is kept.
pub open spec fn next_power_of_two(n: nat) -> nat {
    doubled_up_to(1, n)
}

/// `next_power_of_two` is what its name says: a power of two, at least `n`,
/// and no other power of two lies between `n` and it.
pub proof fn lemma_next_power_of_two(n: nat)
    requires
        n > 0,
    ensures
        exists|e: nat| next_power_of_two(n) == pow2(e),
        n <= next_power_of_two(n) < 2 * n,
        forall|e: nat| n <= pow2(e) ==> next_power_of_two(n) <= pow2(e),
{
    assert(pow2(0) == 1) by {
        vstd::arithmetic::power2::lemma2_to64();
    }
    lemma_doubling(1, 0, n);
}

/// The doubling from a power of two below `2n` ends on the smallest power
/// of two that reaches `n`.
proof fn lemma_doubling(p: nat, e: nat, n: nat)
    requires
        n > 0,
        p == pow2(e),
        p < 2 * n,
        forall|f: nat| n <= pow2(f) ==> p <= #[trigger] pow2(f),
    ensures
        exists|f: nat| doubled_up_to(p, n) == pow2(f),
        n <= doubled_up_to(p, n) < 2 * n,
        forall|f: nat| n <= pow2(f) ==> doubled_up_to(p, n) <= #[trigger] pow2(f),
    decreases 2 * n - p,
{
    vstd::arithmetic::power2::lemma_pow2_pos(e);
    if p >= n {
        assert(doubled_up_to(p, n) == pow2(e));
    } else {
        lemma_pow2_unfold(e + 1);
        assert forall|f: nat| n <= pow2(f) implies 2 * p <= #[trigger] pow2(f) by {
            if f <= e {
                if f < e {
                    vstd::arithmetic::power2::lemma_pow2_strictly_increases(f, e);
                }
                assert(pow2(f) <= p);
            } else {
                if e + 1 < f {
                    vstd::arithmetic::power2::lemma_pow2_strictly_increases(e + 1, f);
                }
            }
        }
        lemma_doubling(2 * p, e + 1, n);
    }
}

/// The length to pad a window of `n` samples to before the transform: the
/// smallest power of two that is at least `n`. An empty window is refused.
pub fn padded_len(n: usize) -> (padded: Result<usize, SpectrumError>)
    ensures
        padded is Ok <==> n > 0 && next_power_of_two(n as nat) <= usize::MAX,
        padded == Err::<usize, SpectrumError>(SpectrumError::EmptyWindow) <==> n == 0,
        padded == Err::<usize, SpectrumError>(SpectrumError::WindowTooLong) <==> n > 0
            && next_power_of_two(n as nat) > usize::MAX,
        padded matches Ok(p) ==> p == next_power_of_two(n as nat),
{
    if n == 0 {
        return Err(SpectrumError::EmptyWindow);
    }
    let mut p: usize = 1;
    while p < n
        invariant
            0 < p,
            0 < n,
            doubled_up_to(p as nat, n as nat) == next_power_of_two(n as nat),
        decreases 2 * n - p,
    {
        if p > usize::MAX / 2 {
            proof {
                assert(doubled_up_to((2 * p) as nat, n as nat) >= 2 * p) by {
                    lemma_doubling_grows((2 * p) as nat, n as nat);
                }
            }
            return Err(SpectrumError::WindowTooLong);
        }
        p = 2 * p;
    }
    Ok(p)
}

/// The doubling never falls below where it starts.
proof fn lemma_doubling_grows(p: nat, n: nat)
    ensures
        doubled_up_to(p, n) >= p,
    decreases 2 * n - p,
{
    if p >= n || p == 0 {
    } else {
        lemma_doubling_grows(2 * p, n);
    }
}

/// A window with `fill` behind it up to the padded length.
pub open spec fn padded<T>(samples: Seq<T>, fill: T) -> Seq<T> {
    samples + Seq::new((next_power_of_two(samples.len()) - samples.len()) as nat, |i: int| fill)
}

/// Pads a window with `fill`, which stands for silence, up to the length
/// that the transform wants. The window is left as it is where it is
/// refused.
pub fn pad_window<T: Copy>(samples: &mut Vec<T>, fill: T) -> (done: Result<(), SpectrumError>)
    ensures
        done is Ok <==> old(samples)@.len() > 0 && next_power_of_two(old(samples)@.len())
            <= usize::MAX,
        done == Err::<(), SpectrumError>(SpectrumError::EmptyWindow) <==> old(samples)@.len() == 0,
        done == Err::<(), SpectrumError>(SpectrumError::WindowTooLong) <==> old(samples)@.len() > 0
            && next_power_of_two(old(samples)@.len()) > usize::MAX,
        done is Ok ==> final(samples)@ == padded(old(samples)@, fill),
        done is Err ==> final(samples)@ == old(samples)@,
{
    let n: usize = samples.len();
    let target: usize = match padded_len(n) {
        Ok(target) => target,
        Err(e) => {
            return Err(e);
        },
    };
    proof {
        lemma_next_power_of_two(n as nat);
    }
    let mut i: usize = n;
    while i < target
        invariant
            n <= i <= target,
            samples@.len() == i,
            forall|k: int| 0 <= k < n ==> samples@[k] == old(samples)@[k],
            forall|k: int| n <= k < i ==> samples@[k] == fill,
        decreases target - i,
    {
        samples.push(fill);
        i += 1;
    }
    assert(samples@ =~= padded(old(samples)@, fill));
    Ok(())
}

/// The bins at or above the frequency floor, in order.
pub open spec fn above_floor(bins: Seq<Bin>) -> Seq<Bin>
    decreases bins.len(),
{
    if bins.len() == 0 {
        bins
    } else if bins.last().frequency >= FLOOR {
        above_floor(bins.drop_last()).push(bins.last())
    } else {
        above_floor(bins.drop_last())
    }
}

/// The weight of a frequency, in units of `1 / FULL_WEIGHT`: the frequency
/// itself, held between a twentieth of `FULL_WEIGHT` and `FULL_WEIGHT`.
pub open spec fn weight(frequency: int) -> int {
    if frequency < FULL_WEIGHT / 20 {
        FULL_WEIGHT as int / 20
    } else if frequency > FULL_WEIGHT {
        FULL_WEIGHT as int
    } else {
        frequency
    }
}

/// A magnitude scaled by `SCALE` and weighted by its frequency.
pub open spec fn weighted(bin: Bin) -> int {
    (bin.magnitude * SCALE * weight(bin.frequency as int)) / (FULL_WEIGHT as int)
}

/// The scaled and weighted amplitudes of the bins that are kept, before
/// smoothing.
pub open spec fn weighted_all(bins: Seq<Bin>) -> Seq<int> {
    Seq::new(above_floor(bins).len(), |i: int| weighted(above_floor(bins)[i]))
}

/// The amplitude at place `i` after smoothing. The first and the last place
/// keep their value. A place between them takes the mean of three values as
/// they were before smoothing: the one before it, its own and the one after
/// it.
pub open spec fn smoothed(raw: Seq<int>, i: int) -> int {
    if i <= 0 || i >= raw.len() - 1 {
        raw[i]
    } else {
        (raw[i - 1] + raw[i] + raw[i + 1]) / 3
    }
}

/// The spectrum frame for the bins of one transform.
pub open spec fn shaped(bins: Seq<Bin>) -> Seq<Band> {
    let kept = above_floor(bins);
    let raw = weighted_all(bins);
    Seq::new(
        kept.len(),
        |i: int| Band { frequency: kept[i].frequency, amplitude: smoothed(raw, i) as i64 },
    )
}

/// Scales and weighs one bin.
pub fn weigh(bin: Bin) -> (amplitude: i64)
    ensures
        amplitude == weighted(bin),
        0 <= amplitude <= SCALE * u32::MAX,
{
    let held: u64 = if bin.frequency < FULL_WEIGHT / 20 {
        FULL_WEIGHT / 20
    } else if bin.frequency > FULL_WEIGHT {
        FULL_WEIGHT
    } else {
        bin.frequency
    };
    let scaled: u64 = bin.magnitude as u64 * SCALE;
    assert(scaled * held <= (50 * 0xffff_ffff) * 5_000_000 && (scaled * held) / 5_000_000
        <= scaled) by (nonlinear_arith)
        requires
            0 <= scaled <= 50 * 0xffff_ffff,
            0 <= held <= 5_000_000,
    ;
    ((scaled * held) / FULL_WEIGHT) as i64
}

/// Smoothing keeps amplitudes within the bounds of what went in.
pub proof fn lemma_smoothed_bounds(raw: Seq<int>, i: int, low: int, high: int)
    requires
        0 <= i < raw.len(),
        forall|k: int| 0 <= k < raw.len() ==> low <= #[trigger] raw[k] <= high,
    ensures
        low <= smoothed(raw, i) <= high,
{
    if 0 < i < raw.len() - 1 {
        assert(low <= raw[i - 1] <= high);
        assert(low <= raw[i] <= high);
        assert(low <= raw[i + 1] <= high);
    }
}

/// Shapes the bins of one transform into a spectrum frame: one band for each
/// bin at or above the floor, in order, with its amplitude scaled, weighted
/// and smoothed.
pub fn shape(bins: &[Bin]) -> (frame: Vec<Band>)
    ensures
        frame@ == shaped(bins@),
{
    let n: usize = bins.len();
    let mut frame: Vec<Band> = Vec::new();
    let mut i: usize = 0;
    while i < n
        invariant
            i <= n,
            n == bins@.len(),
            frame@.len() == above_floor(bins@.subrange(0, i as int)).len(),
            forall|k: int|
                0 <= k < frame@.len() ==> (#[trigger] frame@[k]).frequency == above_floor(
                    bins@.subrange(0, i as int),
                )[k].frequency && frame@[k].amplitude == weighted(
                    above_floor(bins@.subrange(0, i as int))[k],
                ) && 0 <= frame@[k].amplitude <= SCALE * u32::MAX,
        decreases n - i,
    {
        let bin: Bin = bins[i];
        proof {
            assert(bins@.subrange(0, i + 1).drop_last() =~= bins@.subrange(0, i as int));
            assert(bins@.subrange(0, i + 1).last() == bin);
        }
        if bin.frequency >= FLOOR {
            let amplitude: i64 = weigh(bin);
            frame.push(Band { frequency: bin.frequency, amplitude });
        }
        i += 1;
    }
    proof {
        assert(bins@.subrange(0, n as int) =~= bins@);
    }
    let ghost kept = above_floor(bins@);
    let ghost raw = weighted_all(bins@);
    let m: usize = frame.len();
    assert forall|k: int| 0 <= k < m implies 0 <= #[trigger] raw[k] <= SCALE * u32::MAX by {
        assert(frame@[k].amplitude == raw[k]);
    }
    if m > 2 {
        let mut before: i64 = frame[0].amplitude;
        let mut j: usize = 1;
        while j < m - 1
            invariant
                1 <= j <= m - 1,
                m == frame@.len(),
                m == raw.len(),
                m == kept.len(),
                before == raw[j - 1],
                forall|k: int| 0 <= k < m ==> 0 <= #[trigger] raw[k] <= SCALE * u32::MAX,
                forall|k: int|
                    0 <= k < m ==> (#[trigger] frame@[k]).frequency == kept[k].frequency,
                forall|k: int| 0 <= k < j ==> (#[trigger] frame@[k]).amplitude == smoothed(raw, k),
                forall|k: int| j <= k < m ==> (#[trigger] frame@[k]).amplitude == raw[k],
            decreases m - j,
        {
            let here: i64 = frame[j].amplitude;
            let after: i64 = frame[j + 1].amplitude;
            proof {
                assert(0 <= raw[j - 1] <= SCALE * u32::MAX);
                assert(here == raw[j as int] && after == raw[j + 1]);
            }
            let mean: i64 = (before + here + after) / 3;
            let frequency: u64 = frame[j].frequency;
            frame[j] = Band { frequency, amplitude: mean };
            before = here;
            j += 1;
        }
    }
    proof {
        assert forall|k: int| 0 <= k < m implies frame@[k] == shaped(bins@)[k] by {
            lemma_smoothed_bounds(raw, k, 0, SCALE * u32::MAX);
        }
        assert(frame@ =~= shaped(bins@));
    }
    frame
}

/// Whether `frame` is a spectrum frame that `transform` can give for the
/// samples of one channel: the shaped form of bins that it may return for
/// the padded samples.
pub open spec fn frame_of<T, F: Fn(&[T]) -> Vec<Bin>>(
    transform: &F,
    samples: Seq<T>,
    fill: T,
    frame: Seq<Band>,
) -> bool {
    exists|input: &[T], bins: Vec<Bin>|
        input@ == padded(samples, fill) && #[trigger] call_ensures(*transform, (input,), bins)
            && frame == shaped(bins@)
}

/// The spectrum frame of one channel: the samples are padded with `fill`,
/// handed to `transform`, which windows and transforms them, and the bins
/// that it returns are shaped.
pub fn analyse_channel<T: Copy, F: Fn(&[T]) -> Vec<Bin>>(
    samples: Vec<T>,
    fill: T,
    transform: &F,
) -> (frame: Result<Vec<Band>, SpectrumError>)
    requires
        forall|input: &[T]|
            input@ == padded(samples@, fill) ==> call_requires(*transform, (input,)),
    ensures
        frame is Ok <==> samples@.len() > 0 && next_power_of_two(samples@.len()) <= usize::MAX,
        frame == Err::<Vec<Band>, SpectrumError>(SpectrumError::EmptyWindow) <==> samples@.len()
            == 0,
        frame == Err::<Vec<Band>, SpectrumError>(SpectrumError::WindowTooLong) <==> samples@.len()
            > 0 && next_power_of_two(samples@.len()) > usize::MAX,
        frame matches Ok(bands) ==> frame_of(transform, samples@, fill, bands@),
{
    let mut samples = samples;
    match pad_window(&mut samples, fill) {
        Ok(()) => {},
        Err(e) => {
            return Err(e);
        },
    }
    let input: &[T] = samples.as_slice();
    let bins: Vec<Bin> = transform(input);
    let bands: Vec<Band> = shape(bins.as_slice());
    proof {
        assert(call_ensures(*transform, (input,), bins));
    }
    Ok(bands)
}

/// The spectrum frames of one window of interleaved stereo samples: the
/// samples at even places are the left channel, those at odd places the
/// right one, and each channel is analysed on its own, the left one first.
pub fn analyse_window<T: Copy, F: Fn(&[T]) -> Vec<Bin>>(window: &[T], fill: T, transform: &F) -> (frame:
    Result<StereoFrame, SpectrumError>)
    requires
        forall|input: &[T]|
            input@ == padded(even_samples(window@), fill) || input@ == padded(
                odd_samples(window@),
                fill,
            ) ==> call_requires(*transform, (input,)),
    ensures
        frame is Ok <==> window@.len() >= 2 && next_power_of_two(even_samples(window@).len())
            <= usize::MAX,
        frame == Err::<StereoFrame, SpectrumError>(SpectrumError::EmptyWindow) <==> window@.len()
            < 2,
        frame == Err::<StereoFrame, SpectrumError>(SpectrumError::WindowTooLong) <==> window@.len()
            >= 2 && next_power_of_two(even_samples(window@).len()) > usize::MAX,
        frame matches Ok(f) ==> frame_of(transform, even_samples(window@), fill, f.left@)
            && frame_of(transform, odd_samples(window@), fill, f.right@),
{
    let (left, right) = deinterleave(window);
    proof {
        lemma_doubling_monotone(1, right@.len(), left@.len());
    }
    if right.len() == 0 {
        return Err(SpectrumError::EmptyWindow);
    }
    let left_frame: Vec<Band> = match analyse_channel(left, fill, transform) {
        Ok(bands) => bands,
        Err(e) => {
            return Err(e);
        },
    };
    let right_frame: Vec<Band> = match analyse_channel(right, fill, transform) {
        Ok(bands) => bands,
        Err(e) => {
            return Err(e);
        },
    };
    Ok(StereoFrame { left: left_frame, right: right_frame })
}

/// A longer window is never padded to less.
proof fn lemma_doubling_monotone(p: nat, a: nat, b: nat)
    requires
        a <= b,
    ensures
        doubled_up_to(p, a) <= doubled_up_to(p, b),
    decreases 2 * b - p,
{
    if p >= b || p == 0 {
    } else if p >= a {
        lemma_doubling_grows(2 * p, b);
    } else {
        lemma_doubling_monotone(2 * p, a, b);
    }
}

/// Silence stays silence: where every magnitude is zero, so is every
/// amplitude of the frame.
pub proof fn lemma_zero_in_zero_out(bins: Seq<Bin>)
    requires
        forall|i: int| 0 <= i < bins.len() ==> (#[trigger] bins[i]).magnitude == 0,
    ensures
        forall|k: int| 0 <= k < shaped(bins).len() ==> (#[trigger] shaped(bins)[k]).amplitude == 0,
{
    let kept = above_floor(bins);
    lemma_above_floor_keeps(bins, |b: Bin| b.magnitude == 0);
    let raw = weighted_all(bins);
    assert forall|k: int| 0 <= k < raw.len() implies 0 <= #[trigger] raw[k] <= 0 by {
        let f = weight(kept[k].frequency as int);
        assert((0 * SCALE * f) / (FULL_WEIGHT as int) == 0) by (nonlinear_arith);
    }
    assert forall|k: int| 0 <= k < shaped(bins).len() implies (#[trigger] shaped(
        bins,
    )[k]).amplitude == 0 by {
        lemma_smoothed_bounds(raw, k, 0, 0);
    }
}

/// The frame has one band for each bin at or above the floor, with that
/// bin's frequency, and none for a bin below it.
pub proof fn lemma_frame_follows_floor(bins: Seq<Bin>)
    ensures
        shaped(bins).len() == above_floor(bins).len(),
        shaped(bins).len() <= bins.len(),
        forall|k: int|
            0 <= k < shaped(bins).len() ==> (#[trigger] shaped(bins)[k]).frequency >= FLOOR
                && shaped(bins)[k].frequency == above_floor(bins)[k].frequency,
        (forall|i: int| 0 <= i < bins.len() ==> (#[trigger] bins[i]).frequency >= FLOOR)
            ==> above_floor(bins) == bins,
{
    lemma_above_floor_len(bins);
    assert forall|k: int| 0 <= k < shaped(bins).len() implies (#[trigger] shaped(
        bins,
    )[k]).frequency >= FLOOR by {
        lemma_above_floor_is_above(bins, k);
    }
    if forall|i: int| 0 <= i < bins.len() ==> (#[trigger] bins[i]).frequency >= FLOOR {
        lemma_above_floor_all(bins);
    }
}

/// What holds of every bin holds of every bin that is kept.
proof fn lemma_above_floor_keeps(bins: Seq<Bin>, p: spec_fn(Bin) -> bool)
    requires
        forall|i: int| 0 <= i < bins.len() ==> p(#[trigger] bins[i]),
    ensures
        forall|k: int| 0 <= k < above_floor(bins).len() ==> p(#[trigger] above_floor(bins)[k]),
    decreases bins.len(),
{
    if bins.len() > 0 {
        let front = bins.drop_last();
        assert forall|i: int| 0 <= i < front.len() implies p(#[trigger] front[i]) by {
            assert(front[i] == bins[i]);
        }
        lemma_above_floor_keeps(front, p);
        assert(p(bins[bins.len() - 1]));
        assert forall|k: int| 0 <= k < above_floor(bins).len() implies p(
            #[trigger] above_floor(bins)[k],
        ) by {
            if k < above_floor(front).len() {
                assert(above_floor(bins)[k] == above_floor(front)[k]);
            } else {
                assert(above_floor(bins)[k] == bins.last());
            }
        }
    }
}

proof fn lemma_above_floor_len(bins: Seq<Bin>)
    ensures
        above_floor(bins).len() <= bins.len(),
    decreases bins.len(),
{
    if bins.len() > 0 {
        lemma_above_floor_len(bins.drop_last());
    }
}

proof fn lemma_above_floor_is_above(bins: Seq<Bin>, k: int)
    requires
        0 <= k < above_floor(bins).len(),
    ensures
        above_floor(bins)[k].frequency >= FLOOR,
    decreases bins.len(),
{
    if bins.len() > 0 {
        if k < above_floor(bins.drop_last()).len() {
            lemma_above_floor_is_above(bins.drop_last(), k);
        }
    }
}

proof fn lemma_above_floor_all(bins: Seq<Bin>)
    requires
        forall|i: int| 0 <= i < bins.len() ==> (#[trigger] bins[i]).frequency >= FLOOR,
    ensures
        above_floor(bins) == bins,
    decreases bins.len(),
{
    if bins.len() > 0 {
        lemma_above_floor_all(bins.drop_last());
        assert(bins.drop_last().push(bins.last()) =~= bins);
    }
}

} // verus!
