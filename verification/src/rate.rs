//! Sample-rate conversion of interleaved 16-bit PCM.
//!
//! A frame holds one sample for each channel. Output frame `j` lies at the
//! position `j * source_rate / target_rate` of the input, between two input
//! frames, and is their linear interpolation, channel by channel. Past the
//! last input frame the last frame is held.

use vstd::prelude::*;
use vstd::slice::slice_to_vec;

verus! {

/// Why a conversion was refused.
#[derive(Clone, Copy, Debug, PartialEq, Eq, Structural)]
pub enum RateError {
    /// The source or the target rate is zero.
    InvalidRate,
    /// The channel count is zero.
    InvalidChannels,
    /// The output would hold more samples than a `usize` can count.
    OutputTooLarge,
}

/// The number of output frames for `frames` input frames: the ratio
/// `frames * to / from`, rounded up.
pub open spec fn output_frames(frames: int, from: int, to: int) -> int {
    (frames * to + from - 1) / from
}

/// The input frame at or just before output frame `j`.
pub open spec fn source_frame(j: int, from: int, to: int) -> int {
    (j * from) / to
}

/// How far output frame `j` lies past `source_frame`, in units of `1 / to`
/// of the distance to the next input frame.
pub open spec fn source_offset(j: int, from: int, to: int) -> int {
    (j * from) % to
}

/// The point `num / den` of the way from `a` to `b`, rounded towards `a`.
pub open spec fn interpolate(a: int, b: int, num: int, den: int) -> int {
    if b >= a {
        a + ((b - a) * num) / den
    } else {
        a - ((a - b) * num) / den
    }
}

/// Sample `k` of the output for `input` read as frames of `channels` samples.
pub open spec fn output_sample(input: Seq<i16>, channels: int, from: int, to: int, k: int) -> int {
    let j = k / channels;
    let c = k % channels;
    let frames = input.len() / (channels as nat);
    let p = source_frame(j, from, to);
    let q = if p + 1 < frames {
        p + 1
    } else {
        p
    };
    interpolate(
        input[p * channels + c] as int,
        input[q * channels + c] as int,
        source_offset(j, from, to),
        to,
    )
}

/// The number of samples in the output for an input of `len` samples.
pub open spec fn output_len(len: int, channels: int, from: int, to: int) -> int {
    output_frames(len / channels, from, to) * channels
}

/// The whole output for `input`, where the rates differ. Samples at the end
/// of `input` that do not fill a frame are left out.
pub open spec fn resampled(input: Seq<i16>, channels: int, from: int, to: int) -> Seq<i16> {
    Seq::new(
        output_len(input.len() as int, channels, from, to) as nat,
        |k: int| output_sample(input, channels, from, to, k) as i16,
    )
}

/// The interpolation never leaves the interval between its two ends.
pub proof fn lemma_interpolate_between(a: int, b: int, num: int, den: int)
    requires
        0 <= num < den,
    ensures
        a <= b ==> a <= interpolate(a, b, num, den) <= b,
        b <= a ==> b <= interpolate(a, b, num, den) <= a,
        num == 0 ==> interpolate(a, b, num, den) == a,
        a == b ==> interpolate(a, b, num, den) == a,
{
    if b >= a {
        let d = b - a;
        assert(0 <= (d * num) / den <= d) by (nonlinear_arith)
            requires
                0 <= num < den,
                0 <= d,
        ;
        assert(num == 0 ==> (d * num) / den == 0) by (nonlinear_arith)
            requires
                0 < den,
        ;
    } else {
        let d = a - b;
        assert(0 <= (d * num) / den <= d) by (nonlinear_arith)
            requires
                0 <= num < den,
                0 <= d,
        ;
        assert(num == 0 ==> (d * num) / den == 0) by (nonlinear_arith)
            requires
                0 < den,
        ;
    }
}

/// The output length follows the ratio of the rates: the number of output
/// frames is the exact ratio `frames * to / from` rounded up, so it differs
/// from the exact ratio by less than one frame.
pub proof fn lemma_output_frames_within_one(frames: int, from: int, to: int)
    requires
        0 <= frames,
        0 < from,
        0 < to,
    ensures
        0 <= output_frames(frames, from, to),
        frames * to <= output_frames(frames, from, to) * from < frames * to + from,
        frames == 0 ==> output_frames(frames, from, to) == 0,
        from == to ==> output_frames(frames, from, to) == frames,
{
    let x = frames * to;
    assert(0 <= x) by (nonlinear_arith)
        requires
            0 <= frames,
            0 < to,
            x == frames * to,
    ;
    let n = output_frames(frames, from, to);
    assert(n == (x + from - 1) / from);
    assert(x <= n * from < x + from && 0 <= n) by (nonlinear_arith)
        requires
            0 <= x,
            0 < from,
            n == (x + from - 1) / from,
    ;
    if frames == 0 {
        assert(x == 0);
        assert(n == 0) by (nonlinear_arith)
            requires
                0 <= n,
                n * from < from,
                0 < from,
        ;
    }
    if from == to {
        assert(n == frames) by (nonlinear_arith)
            requires
                frames * from <= n * from < frames * from + from,
                0 < from,
        ;
    }
}

/// Every output frame reads input frames that exist.
pub proof fn lemma_source_frame_in_range(j: int, frames: int, from: int, to: int)
    requires
        0 < from,
        0 < to,
        0 <= j < output_frames(frames, from, to),
        0 <= frames,
    ensures
        0 <= source_frame(j, from, to) < frames,
        0 <= source_offset(j, from, to) < to,
{
    lemma_output_frames_within_one(frames, from, to);
    let n = output_frames(frames, from, to);
    let x = j * from;
    assert(0 <= x && x < frames * to) by (nonlinear_arith)
        requires
            0 <= j < n,
            n * from < frames * to + from,
            0 < from,
            x == j * from,
    ;
    assert(0 <= x / to < frames && 0 <= x % to < to) by (nonlinear_arith)
        requires
            0 <= x < frames * to,
            0 < to,
    ;
}

/// What `convert` returns for a valid converter: the input itself where the
/// rates agree, else the interpolated output, if its length can be counted.
pub open spec fn conversion(input: Seq<i16>, channels: int, from: int, to: int) -> Result<
    Seq<i16>,
    RateError,
> {
    if from == to {
        Ok(input)
    } else if output_len(input.len() as int, channels, from, to) > usize::MAX {
        Err(RateError::OutputTooLarge)
    } else {
        Ok(resampled(input, channels, from, to))
    }
}

/// Between equal rates the conversion hands the input back unchanged,
/// whatever the input and the channel count.
pub proof fn lemma_equal_rates_identity(input: Seq<i16>, channels: int, rate: int)
    ensures
        conversion(input, channels, rate, rate) == Ok::<Seq<i16>, RateError>(input),
{
}

/// The output length scales with the ratio of the rates: counted in frames,
/// it is the input length times `to / from`, rounded up, and so less than
/// one frame away from the exact ratio. With one channel a frame is a sample.
pub proof fn lemma_length_follows_ratio(input: Seq<i16>, channels: int, from: int, to: int)
    requires
        0 < channels,
        0 < from,
        0 < to,
        conversion(input, channels, from, to) is Ok,
    ensures
        ({
            let output = conversion(input, channels, from, to)->Ok_0;
            let frames_in = input.len() as int / channels;
            let frames_out = output.len() as int / channels;
            &&& frames_in * to <= frames_out * from < frames_in * to + from
            &&& from != to ==> output.len() == frames_out * channels
        }),
{
    let output = conversion(input, channels, from, to)->Ok_0;
    let frames_in = input.len() as int / channels;
    assert(0 <= frames_in) by (nonlinear_arith)
        requires
            frames_in == input.len() as int / channels,
            0 < channels,
    ;
    lemma_output_frames_within_one(frames_in, from, to);
    if from != to {
        let n = output_frames(frames_in, from, to);
        assert(output.len() == n * channels);
        assert((n * channels) / channels == n) by (nonlinear_arith)
            requires
                0 < channels,
        ;
    }
}

/// A constant signal stays constant: where every input sample is `v`, so is
/// every output sample.
pub proof fn lemma_constant_signal(input: Seq<i16>, channels: int, from: int, to: int, v: i16)
    requires
        0 < channels,
        0 < from,
        0 < to,
        forall|i: int| 0 <= i < input.len() ==> input[i] == v,
        conversion(input, channels, from, to) is Ok,
    ensures
        forall|k: int|
            0 <= k < conversion(input, channels, from, to)->Ok_0.len() ==> conversion(
                input,
                channels,
                from,
                to,
            )->Ok_0[k] == v,
{
    if from != to {
        let output = resampled(input, channels, from, to);
        let frames = input.len() as int / channels;
        assert(0 <= frames && frames * channels <= input.len()) by (nonlinear_arith)
            requires
                frames == input.len() as int / channels,
                0 < channels,
        ;
        lemma_output_frames_within_one(frames, from, to);
        let n = output_frames(frames, from, to);
        assert forall|k: int| 0 <= k < output.len() implies output[k] == v by {
            let j = k / channels;
            let c = k % channels;
            assert(0 <= j < n && 0 <= c < channels) by (nonlinear_arith)
                requires
                    0 <= k < n * channels,
                    0 < channels,
                    j == k / channels,
                    c == k % channels,
            ;
            lemma_source_frame_in_range(j, frames, from, to);
            let p = source_frame(j, from, to);
            let q = if p + 1 < frames {
                p + 1
            } else {
                p
            };
            lemma_cell(p, c, frames, channels);
            lemma_cell(q, c, frames, channels);
            lemma_interpolate_between(v as int, v as int, source_offset(j, from, to), to);
            assert(output[k] == output_sample(input, channels, from, to, k) as i16);
        }
    }
}

/// A conversion from one sample rate to another for a fixed channel count.
pub struct RateConverter {
    source_rate: u32,
    target_rate: u32,
    channels: u16,
}

impl RateConverter {
    /// The rate of the input, in hertz.
    pub closed spec fn source(&self) -> int {
        self.source_rate as int
    }

    /// The rate of the output, in hertz.
    pub closed spec fn target(&self) -> int {
        self.target_rate as int
    }

    /// The number of samples in a frame.
    pub closed spec fn width(&self) -> int {
        self.channels as int
    }

    /// Both rates and the channel count are positive.
    pub open spec fn valid(&self) -> bool {
        &&& 0 < self.source() <= u32::MAX
        &&& 0 < self.target() <= u32::MAX
        &&& 0 < self.width() <= u16::MAX
    }

    #[verifier::type_invariant]
    spec fn inv(&self) -> bool {
        self.valid()
    }

    /// Checks the rates, then the channel count.
    pub fn new(source_rate: u32, target_rate: u32, channels: u16) -> (made: Result<Self, RateError>)
        ensures
            made is Ok <==> source_rate > 0 && target_rate > 0 && channels > 0,
            made == Err::<Self, RateError>(RateError::InvalidRate) <==> source_rate == 0
                || target_rate == 0,
            made == Err::<Self, RateError>(RateError::InvalidChannels) <==> source_rate > 0
                && target_rate > 0 && channels == 0,
            made matches Ok(c) ==> c.valid() && c.source() == source_rate && c.target()
                == target_rate && c.width() == channels,
    {
        if source_rate == 0 || target_rate == 0 {
            Err(RateError::InvalidRate)
        } else if channels == 0 {
            Err(RateError::InvalidChannels)
        } else {
            Ok(RateConverter { source_rate, target_rate, channels })
        }
    }

    /// The rate of the input, in hertz.
    pub fn source_rate(&self) -> (rate: u32)
        ensures
            rate == self.source(),
    {
        self.source_rate
    }

    /// The rate of the output, in hertz.
    pub fn target_rate(&self) -> (rate: u32)
        ensures
            rate == self.target(),
    {
        self.target_rate
    }

    /// The number of samples in a frame.
    pub fn channels(&self) -> (count: u16)
        ensures
            count == self.width(),
    {
        self.channels
    }

    /// Converts `input` from the source rate to the target rate.
    pub fn convert(&self, input: &[i16]) -> (converted: Result<Vec<i16>, RateError>)
        ensures
            self.valid(),
            self.source() == self.target() ==> (converted matches Ok(output) && output@ == input@),
            match converted {
                Ok(output) => conversion(input@, self.width(), self.source(), self.target()) == Ok::<
                    Seq<i16>,
                    RateError,
                >(output@),
                Err(e) => conversion(input@, self.width(), self.source(), self.target()) == Err::<
                    Seq<i16>,
                    RateError,
                >(e),
            },
    {
        proof {
            use_type_invariant(self);
        }
        if self.source_rate == self.target_rate {
            return Ok(slice_to_vec(input));
        }
        let ch: usize = self.channels as usize;
        let frames: usize = input.len() / ch;
        let from: u128 = self.source_rate as u128;
        let to: u128 = self.target_rate as u128;
        proof {
            lemma_output_frames_within_one(frames as int, from as int, to as int);
            assert(frames * to <= usize::MAX * u32::MAX) by (nonlinear_arith)
                requires
                    0 <= frames <= usize::MAX,
                    0 <= to <= u32::MAX,
            ;
            assert(frames * ch <= input.len()) by (nonlinear_arith)
                requires
                    frames == input.len() / ch,
                    ch > 0,
            ;
        }
        let wide_frames: u128 = (frames as u128 * to + from - 1) / from;
        assert(wide_frames == output_frames(frames as int, from as int, to as int));
        proof {
            assert(wide_frames <= frames * to + from) by (nonlinear_arith)
                requires
                    wide_frames * from < frames * to + from,
                    0 < from,
                    0 <= wide_frames,
                    0 <= frames * to,
            ;
            assert(wide_frames * ch <= (usize::MAX * u32::MAX + u32::MAX) * u16::MAX)
                by (nonlinear_arith)
                requires
                    0 <= wide_frames <= usize::MAX * u32::MAX + u32::MAX,
                    0 <= ch <= u16::MAX,
            ;
        }
        let wide_len: u128 = wide_frames * (ch as u128);
        if wide_len > usize::MAX as u128 {
            return Err(RateError::OutputTooLarge);
        }
        proof {
            assert(wide_frames <= wide_len) by (nonlinear_arith)
                requires
                    wide_len == wide_frames * ch,
                    ch >= 1,
                    wide_frames >= 0,
            ;
        }
        let out_frames: usize = wide_frames as usize;
        let ghost want = resampled(input@, ch as int, from as int, to as int);
        let mut output: Vec<i16> = Vec::new();
        let mut j: usize = 0;
        while j < out_frames
            invariant
                0 < ch,
                0 < from <= u32::MAX,
                0 < to <= u32::MAX,
                frames == input@.len() / (ch as nat),
                frames * ch <= input@.len() <= usize::MAX,
                out_frames == output_frames(frames as int, from as int, to as int),
                out_frames * ch <= usize::MAX,
                j <= out_frames,
                want == resampled(input@, ch as int, from as int, to as int),
                want.len() == out_frames * ch,
                output@.len() == j * ch,
                output@.len() <= want.len(),
                forall|k: int| 0 <= k < output@.len() ==> output@[k] == want[k],
            decreases out_frames - j,
        {
            proof {
                lemma_source_frame_in_range(j as int, frames as int, from as int, to as int);
                assert(j * from <= usize::MAX * u32::MAX) by (nonlinear_arith)
                    requires
                        0 <= j <= usize::MAX,
                        0 <= from <= u32::MAX,
                ;
            }
            let position: u128 = j as u128 * from;
            let p: usize = (position / to) as usize;
            let num: u64 = (position % to) as u64;
            let q: usize = if p + 1 < frames {
                p + 1
            } else {
                p
            };
            let mut c: usize = 0;
            while c < ch
                invariant
                    0 < ch,
                    c <= ch,
                    0 < to <= u32::MAX,
                    num < to,
                    p < frames,
                    q < frames,
                    q == if p + 1 < frames { p + 1 } else { p as int },
                    p == source_frame(j as int, from as int, to as int),
                    num == source_offset(j as int, from as int, to as int),
                    frames == input@.len() / (ch as nat),
                    frames * ch <= input@.len() <= usize::MAX,
                    j < out_frames,
                    out_frames * ch <= usize::MAX,
                    want == resampled(input@, ch as int, from as int, to as int),
                    want.len() == out_frames * ch,
                    output@.len() == j * ch + c,
                    output@.len() <= want.len(),
                    forall|k: int| 0 <= k < output@.len() ==> output@[k] == want[k],
                decreases ch - c,
            {
                proof {
                    lemma_cell(p as int, c as int, frames as int, ch as int);
                    lemma_cell(q as int, c as int, frames as int, ch as int);
                    lemma_cell(j as int, c as int, out_frames as int, ch as int);
                    assert(0 <= p * ch <= p * ch + c < frames * ch);
                    assert(0 <= q * ch <= q * ch + c < frames * ch);
                    assert(output@.len() < want.len());
                }
                let a: i16 = input[p * ch + c];
                let b: i16 = input[q * ch + c];
                let sample: i16 = lerp(a, b, num, to as u64);
                output.push(sample);
                c += 1;
            }
            j += 1;
            proof {
                assert(j * ch == (j - 1) * ch + ch) by (nonlinear_arith);
                assert(j * ch <= out_frames * ch) by (nonlinear_arith)
                    requires
                        j <= out_frames,
                        0 < ch,
                ;
            }
        }
        proof {
            assert(output@.len() == want.len());
            assert(output@ =~= want);
        }
        Ok(output)
    }
}

/// Sample `c` of frame `j` is sample `j * width + c` of the interleaved
/// sequence, and the other way round.
proof fn lemma_cell(j: int, c: int, frames: int, width: int)
    requires
        0 <= j < frames,
        0 <= c < width,
    ensures
        0 <= j * width <= j * width + c < frames * width,
        (j * width + c) / width == j,
        (j * width + c) % width == c,
{
    assert(0 <= j * width && j * width + width <= frames * width) by (nonlinear_arith)
        requires
            0 <= j < frames,
            0 < width,
    ;
    vstd::arithmetic::div_mod::lemma_fundamental_div_mod_converse(j * width + c, width, j, c);
}

/// Interpolates between two samples.
fn lerp(a: i16, b: i16, num: u64, den: u64) -> (r: i16)
    requires
        num < den <= u32::MAX,
    ensures
        r == interpolate(a as int, b as int, num as int, den as int),
{
    proof {
        lemma_interpolate_between(a as int, b as int, num as int, den as int);
    }
    if b >= a {
        let d: u64 = (b as i64 - a as i64) as u64;
        assert(d * num <= 0xffff * 0xffff_ffff) by (nonlinear_arith)
            requires
                0 <= d <= 0xffff,
                0 <= num <= 0xffff_ffff,
        ;
        let step: u64 = d * num / den;
        (a as i64 + step as i64) as i16
    } else {
        let d: u64 = (a as i64 - b as i64) as u64;
        assert(d * num <= 0xffff * 0xffff_ffff) by (nonlinear_arith)
            requires
                0 <= d <= 0xffff,
                0 <= num <= 0xffff_ffff,
        ;
        let step: u64 = d * num / den;
        (a as i64 - step as i64) as i16
    }
}

} // verus!
