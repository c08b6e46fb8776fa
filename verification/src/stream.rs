//! The producer side of playback: from a decoded frame to a block of PCM
//! at the device rate.
//!
//! Decoding itself happens elsewhere. This module chooses the stream to
//! play, says where the one seek before the first packet goes, and turns the
//! bytes of each decoded frame into a [`PcmBlock`]: little-endian bytes to
//! samples, gain, rate conversion.

use crate::rate::{conversion, RateConverter, RateError};
use vstd::prelude::*;

verus! {

/// Unit gain. A gain counts thousandths, so this one leaves a sample as it
/// is.
pub const GAIN_UNIT: u32 = 1000;

/// The gain that is used where none is asked for, one half.
pub const DEFAULT_GAIN: u32 = 500;

/// What a stream of the input carries.
#[derive(Clone, Copy, Debug, PartialEq, Eq, Structural)]
pub enum MediaKind {
    Audio,
    Video,
    Other,
}

/// Why the pipeline cannot go on.
#[derive(Clone, Copy, Debug, PartialEq, Eq, Structural)]
pub enum StreamError {
    /// The input holds no audio stream.
    StreamNotFound,
    /// A frame's bytes do not divide into 16-bit samples.
    TruncatedSample,
    /// The rates or the channel count of a frame cannot be converted.
    Rate(RateError),
}

/// A non-empty run of interleaved samples at the device rate.
pub struct PcmBlock {
    samples: Vec<i16>,
}

impl View for PcmBlock {
    type V = Seq<i16>;

    closed spec fn view(&self) -> Seq<i16> {
        self.samples@
    }
}

impl PcmBlock {
    #[verifier::type_invariant]
    spec fn inv(&self) -> bool {
        self.samples@.len() > 0
    }

    /// A block of `samples`, unless there are none.
    pub fn new(samples: Vec<i16>) -> (block: Option<PcmBlock>)
        ensures
            block is Some <==> samples@.len() > 0,
            block matches Some(b) ==> b@ == samples@,
    {
        if samples.len() == 0 {
            None
        } else {
            Some(PcmBlock { samples })
        }
    }

    /// The number of samples, which is never zero.
    pub fn len(&self) -> (n: usize)
        ensures
            n == self@.len(),
            n > 0,
    {
        proof {
            use_type_invariant(self);
        }
        self.samples.len()
    }

    /// The samples of the block.
    pub fn samples(&self) -> (samples: &Vec<i16>)
        ensures
            samples@ == self@,
            samples@.len() > 0,
    {
        proof {
            use_type_invariant(self);
        }
        &self.samples
    }

    /// Gives the samples up.
    pub fn into_samples(self) -> (samples: Vec<i16>)
        ensures
            samples@ == self@,
            samples@.len() > 0,
    {
        proof {
            use_type_invariant(&self);
        }
        self.samples
    }
}

/// Chooses the stream to play: the first audio stream of the input.
pub fn select_stream(kinds: &[MediaKind]) -> (chosen: Result<usize, StreamError>)
    ensures
        match chosen {
            Ok(i) => i < kinds@.len() && kinds@[i as int] == MediaKind::Audio && forall|j: int|
                0 <= j < i ==> kinds@[j] != MediaKind::Audio,
            Err(e) => e == StreamError::StreamNotFound && forall|j: int|
                0 <= j < kinds@.len() ==> kinds@[j] != MediaKind::Audio,
        },
{
    let mut i: usize = 0;
    while i < kinds.len()
        invariant
            i <= kinds@.len(),
            forall|j: int| 0 <= j < i ==> kinds@[j] != MediaKind::Audio,
        decreases kinds@.len() - i,
    {
        if kinds[i] == MediaKind::Audio {
            return Ok(i);
        }
        i += 1;
    }
    Err(StreamError::StreamNotFound)
}

/// The timestamp to seek to: seconds times the decoder's sample rate.
/// `None` where the product is beyond an `i64`.
pub fn seek_timestamp(seconds: u32, sample_rate: u32) -> (timestamp: Option<i64>)
    ensures
        timestamp is Some <==> seconds * sample_rate <= i64::MAX,
        timestamp matches Some(t) ==> t == seconds * sample_rate,
{
    assert(seconds * sample_rate <= 0xffff_ffff * 0xffff_ffff) by (nonlinear_arith)
        requires
            0 <= seconds <= 0xffff_ffff,
            0 <= sample_rate <= 0xffff_ffff,
    ;
    let product: u64 = seconds as u64 * sample_rate as u64;
    if product > i64::MAX as u64 {
        None
    } else {
        Some(product as i64)
    }
}

/// The 16-bit sample whose little-endian bytes are `low`, `high`.
pub open spec fn le_sample(low: u8, high: u8) -> int {
    let unsigned = low + 256 * high;
    if unsigned >= 32768 {
        unsigned - 65536
    } else {
        unsigned
    }
}

/// The samples that `bytes` hold, two bytes each, low byte first.
pub open spec fn le_samples(bytes: Seq<u8>) -> Seq<i16> {
    Seq::new(bytes.len() / 2, |i: int| le_sample(bytes[2 * i], bytes[2 * i + 1]) as i16)
}

/// Reads packed little-endian 16-bit samples. An odd number of bytes is
/// refused.
pub fn samples_from_le_bytes(bytes: &[u8]) -> (samples: Result<Vec<i16>, StreamError>)
    ensures
        samples is Ok <==> bytes@.len() % 2 == 0,
        samples matches Ok(v) ==> v@ == le_samples(bytes@),
        samples matches Err(e) ==> e == StreamError::TruncatedSample,
{
    let n: usize = bytes.len();
    if n % 2 != 0 {
        return Err(StreamError::TruncatedSample);
    }
    let count: usize = n / 2;
    let mut samples: Vec<i16> = Vec::new();
    let mut i: usize = 0;
    while i < count
        invariant
            i <= count,
            count == bytes@.len() / 2,
            bytes@.len() == 2 * count,
            bytes@.len() <= usize::MAX,
            samples@.len() == i,
            forall|k: int| 0 <= k < i ==> samples@[k] == le_samples(bytes@)[k],
        decreases count - i,
    {
        let low: u8 = bytes[2 * i];
        let high: u8 = bytes[2 * i + 1];
        let unsigned: i32 = low as i32 + 256 * (high as i32);
        let sample: i16 = if unsigned >= 32768 {
            (unsigned - 65536) as i16
        } else {
            unsigned as i16
        };
        samples.push(sample);
        i += 1;
    }
    assert(samples@ =~= le_samples(bytes@));
    Ok(samples)
}

/// A sample under a gain in thousandths: the product, rounded towards zero
/// and held at the ends of the 16-bit range, never wrapped.
pub open spec fn amplified(sample: int, gain: int) -> int {
    let scaled = if sample >= 0 {
        (sample * gain) / 1000
    } else {
        -(((-sample) * gain) / 1000)
    };
    if scaled > i16::MAX {
        i16::MAX as int
    } else if scaled < i16::MIN {
        i16::MIN as int
    } else {
        scaled
    }
}

/// Applies `gain`, in thousandths, to one sample.
pub fn amplify(sample: i16, gain: u32) -> (out: i16)
    ensures
        out == amplified(sample as int, gain as int),
{
    let wide: i64 = sample as i64;
    let factor: i64 = gain as i64;
    let scaled: i64 = if wide >= 0 {
        assert(wide * factor <= 32767 * 0xffff_ffff) by (nonlinear_arith)
            requires
                0 <= wide <= 32767,
                0 <= factor <= 0xffff_ffff,
        ;
        assert(0 <= wide * factor) by (nonlinear_arith)
            requires
                0 <= wide,
                0 <= factor,
        ;
        (wide * factor) / 1000
    } else {
        let positive: i64 = -wide;
        assert(positive * factor <= 32768 * 0xffff_ffff) by (nonlinear_arith)
            requires
                0 <= positive <= 32768,
                0 <= factor <= 0xffff_ffff,
        ;
        assert(0 <= positive * factor) by (nonlinear_arith)
            requires
                0 <= positive,
                0 <= factor,
        ;
        -((positive * factor) / 1000)
    };
    if scaled > i16::MAX as i64 {
        i16::MAX
    } else if scaled < i16::MIN as i64 {
        i16::MIN
    } else {
        scaled as i16
    }
}

/// Every sample of `samples` under `gain`.
pub open spec fn amplified_all(samples: Seq<i16>, gain: int) -> Seq<i16> {
    Seq::new(samples.len(), |i: int| amplified(samples[i] as int, gain) as i16)
}

/// Applies `gain`, in thousandths, to every sample in place.
pub fn apply_gain(samples: &mut Vec<i16>, gain: u32)
    ensures
        final(samples)@ == amplified_all(old(samples)@, gain as int),
{
    let n: usize = samples.len();
    let mut i: usize = 0;
    while i < n
        invariant
            i <= n,
            samples@.len() == n,
            n == old(samples)@.len(),
            forall|k: int| 0 <= k < i ==> samples@[k] == amplified_all(old(samples)@, gain as int)[k],
            forall|k: int| i <= k < n ==> samples@[k] == old(samples)@[k],
        decreases n - i,
    {
        let louder: i16 = amplify(samples[i], gain);
        samples[i] = louder;
        i += 1;
    }
    assert(samples@ =~= amplified_all(old(samples)@, gain as int));
}

/// What a frame becomes: its samples under the gain, converted to the
/// device rate.
pub open spec fn block_of(
    bytes: Seq<u8>,
    gain: int,
    channels: int,
    frame_rate: int,
    device_rate: int,
) -> Result<Seq<i16>, RateError> {
    conversion(amplified_all(le_samples(bytes), gain), channels, frame_rate, device_rate)
}

/// What is owed for one decoded frame: the samples of the block to send,
/// `None` where the frame yields no sample, or the reason why the frame is
/// refused. The bytes are checked first, then the rates, then the channel
/// count.
pub open spec fn frame_outcome(
    bytes: Seq<u8>,
    gain: int,
    channels: int,
    frame_rate: int,
    device_rate: int,
) -> Result<Option<Seq<i16>>, StreamError> {
    if bytes.len() % 2 != 0 {
        Err(StreamError::TruncatedSample)
    } else if frame_rate == 0 || device_rate == 0 {
        Err(StreamError::Rate(RateError::InvalidRate))
    } else if channels == 0 {
        Err(StreamError::Rate(RateError::InvalidChannels))
    } else {
        match block_of(bytes, gain, channels, frame_rate, device_rate) {
            Ok(samples) => if samples.len() == 0 {
                Ok(None)
            } else {
                Ok(Some(samples))
            },
            Err(e) => Err(StreamError::Rate(e)),
        }
    }
}

/// Whether `made` is the outcome `owed`, with the block's samples for the
/// block.
pub open spec fn made_as(
    made: Result<Option<PcmBlock>, StreamError>,
    owed: Result<Option<Seq<i16>>, StreamError>,
) -> bool {
    match (made, owed) {
        (Ok(None), Ok(None)) => true,
        (Ok(Some(block)), Ok(Some(samples))) => block@ == samples,
        (Err(e), Err(f)) => e == f,
        _ => false,
    }
}

/// Turns the packed bytes of one decoded frame into the block to hand to
/// playback. `Ok(None)` where the frame yields no sample: no empty block is
/// ever sent.
pub fn block_from_frame(
    bytes: &[u8],
    gain: u32,
    channels: u16,
    frame_rate: u32,
    device_rate: u32,
) -> (made: Result<Option<PcmBlock>, StreamError>)
    ensures
        made_as(
            made,
            frame_outcome(
                bytes@,
                gain as int,
                channels as int,
                frame_rate as int,
                device_rate as int,
            ),
        ),
{
    let mut samples: Vec<i16> = match samples_from_le_bytes(bytes) {
        Ok(samples) => samples,
        Err(e) => {
            return Err(e);
        },
    };
    let converter: RateConverter = match RateConverter::new(frame_rate, device_rate, channels) {
        Ok(converter) => converter,
        Err(e) => {
            return Err(StreamError::Rate(e));
        },
    };
    apply_gain(&mut samples, gain);
    match converter.convert(samples.as_slice()) {
        Ok(output) => Ok(PcmBlock::new(output)),
        Err(e) => Err(StreamError::Rate(e)),
    }
}

/// The decisions of the decoding thread: which stream it plays, where it
/// seeks before the first packet, and what it sends for each frame.
pub struct StreamPipeline {
    stream_index: usize,
    gain: u32,
    device_rate: u32,
    seek_seconds: Option<u32>,
}

impl StreamPipeline {
    /// The index of the stream that is played.
    pub closed spec fn stream(&self) -> int {
        self.stream_index as int
    }

    /// The gain, in thousandths.
    pub closed spec fn gain(&self) -> int {
        self.gain as int
    }

    /// The rate that the device plays at, in hertz.
    pub closed spec fn device_rate(&self) -> int {
        self.device_rate as int
    }

    /// The seek that is still to be made, in seconds.
    pub closed spec fn pending_seek(&self) -> Option<u32> {
        self.seek_seconds
    }

    /// Sets the pipeline up for an input whose streams carry `kinds`: it
    /// plays the first audio stream.
    pub fn open(kinds: &[MediaKind], gain: u32, device_rate: u32, seek_seconds: Option<u32>) -> (made:
        Result<Self, StreamError>)
        ensures
            match made {
                Ok(p) => 0 <= p.stream() < kinds@.len() && kinds@[p.stream()] == MediaKind::Audio
                    && (forall|j: int| 0 <= j < p.stream() ==> kinds@[j] != MediaKind::Audio)
                    && p.gain() == gain && p.device_rate() == device_rate && p.pending_seek()
                    == seek_seconds,
                Err(e) => e == StreamError::StreamNotFound && forall|j: int|
                    0 <= j < kinds@.len() ==> kinds@[j] != MediaKind::Audio,
            },
    {
        match select_stream(kinds) {
            Ok(stream_index) => Ok(StreamPipeline { stream_index, gain, device_rate, seek_seconds }),
            Err(e) => Err(e),
        }
    }

    /// The index of the stream that is played.
    pub fn stream_index(&self) -> (index: usize)
        ensures
            index == self.stream(),
    {
        self.stream_index
    }

    /// Whether a packet of stream `packet_stream` is decoded; the packets of
    /// every other stream are passed over.
    pub fn wants(&self, packet_stream: usize) -> (wanted: bool)
        ensures
            wanted == (packet_stream == self.stream()),
    {
        packet_stream == self.stream_index
    }

    /// The timestamp of the seek to make before the first packet, for a
    /// decoder at `decoder_rate`. It is handed out once: after this call no
    /// seek is pending. `None` where none was asked for, or where the
    /// timestamp is beyond an `i64`.
    pub fn take_seek(&mut self, decoder_rate: u32) -> (timestamp: Option<i64>)
        ensures
            final(self).pending_seek() is None,
            final(self).stream() == old(self).stream(),
            final(self).gain() == old(self).gain(),
            final(self).device_rate() == old(self).device_rate(),
            timestamp is Some <==> old(self).pending_seek() is Some && old(
                self,
            ).pending_seek()->Some_0 * decoder_rate <= i64::MAX,
            timestamp matches Some(t) ==> t == old(self).pending_seek()->Some_0 * decoder_rate,
    {
        let asked: Option<u32> = self.seek_seconds;
        self.seek_seconds = None;
        match asked {
            Some(seconds) => seek_timestamp(seconds, decoder_rate),
            None => None,
        }
    }

    /// The block to send for one decoded frame of the stream that is played.
    pub fn on_frame(&self, bytes: &[u8], channels: u16, frame_rate: u32) -> (made: Result<
        Option<PcmBlock>,
        StreamError,
    >)
        ensures
            made_as(
                made,
                frame_outcome(
                    bytes@,
                    self.gain(),
                    channels as int,
                    frame_rate as int,
                    self.device_rate(),
                ),
            ),
    {
        block_from_frame(bytes, self.gain, channels, frame_rate, self.device_rate)
    }
}

} // verus!
