//! The input side of the analysis: captured samples are cut into windows of
//! a fixed size, whatever the size of the chunks in which they arrive.
//!
//! The sample type is left open: nothing here computes with a sample.

use crate::handoff::try_offer;
use crossbeam::channel::Sender;
use vstd::arithmetic::div_mod::lemma_fundamental_div_mod_converse;
use vstd::prelude::*;

verus! {

/// The window size of the reference design: 960 stereo frames.
pub const WINDOW_SIZE: usize = 1920;

/// The complete windows of `size` samples in `samples`, in order.
pub open spec fn windows_of<T>(samples: Seq<T>, size: int) -> Seq<Seq<T>> {
    Seq::new(
        (samples.len() as int / size) as nat,
        |k: int| samples.subrange(k * size, (k + 1) * size),
    )
}

/// The samples behind the last complete window of `samples`.
pub open spec fn leftover<T>(samples: Seq<T>, size: int) -> Seq<T> {
    samples.subrange((samples.len() as int / size) * size, samples.len() as int)
}

/// The samples at even places, in order: the left channel.
pub open spec fn even_samples<T>(samples: Seq<T>) -> Seq<T> {
    Seq::new(((samples.len() + 1) / 2) as nat, |i: int| samples[2 * i])
}

/// The samples at odd places, in order: the right channel.
pub open spec fn odd_samples<T>(samples: Seq<T>) -> Seq<T> {
    Seq::new((samples.len() / 2) as nat, |i: int| samples[2 * i + 1])
}

/// Splits interleaved stereo samples into the left and the right channel.
pub fn deinterleave<T: Copy>(samples: &[T]) -> (channels: (Vec<T>, Vec<T>))
    ensures
        channels.0@ == even_samples(samples@),
        channels.1@ == odd_samples(samples@),
{
    let n: usize = samples.len();
    let mut left: Vec<T> = Vec::new();
    let mut right: Vec<T> = Vec::new();
    let mut i: usize = 0;
    while i < n
        invariant
            i <= n,
            n == samples@.len(),
            left@.len() == (i + 1) / 2,
            right@.len() == i / 2,
            forall|k: int| 0 <= k < left@.len() ==> left@[k] == samples@[2 * k],
            forall|k: int| 0 <= k < right@.len() ==> right@[k] == samples@[2 * k + 1],
        decreases n - i,
    {
        if i % 2 == 0 {
            left.push(samples[i]);
        } else {
            right.push(samples[i]);
        }
        i += 1;
    }
    assert(left@ =~= even_samples(samples@));
    assert(right@ =~= odd_samples(samples@));
    (left, right)
}

/// How many of the windows that one call completed reached the channel.
#[derive(Clone, Copy, Debug, PartialEq, Eq, Structural)]
pub struct Handoffs {
    /// Windows that the channel took.
    pub sent: usize,
    /// Windows that the channel refused, and that are lost.
    pub dropped: usize,
}

/// The accumulation buffer of the input callback.
pub struct CaptureWindow<T> {
    buffer: Vec<T>,
    size: usize,
}

impl<T: Copy> CaptureWindow<T> {
    /// The samples of the window that is being filled.
    pub closed spec fn pending(&self) -> Seq<T> {
        self.buffer@
    }

    /// The number of samples in a window.
    pub closed spec fn window_size(&self) -> int {
        self.size as int
    }

    /// The window that is being filled is never full.
    pub open spec fn wf(&self) -> bool {
        &&& 0 < self.window_size() <= usize::MAX
        &&& self.pending().len() < self.window_size()
    }

    /// An empty window of `size` samples; none for a size of zero.
    pub fn new(size: usize) -> (made: Option<Self>)
        ensures
            made is Some <==> size > 0,
            made matches Some(w) ==> w.wf() && w.window_size() == size && w.pending()
                == Seq::<T>::empty(),
    {
        if size == 0 {
            None
        } else {
            Some(CaptureWindow { buffer: Vec::new(), size })
        }
    }

    /// The number of samples in a window.
    pub fn size(&self) -> (size: usize)
        ensures
            size == self.window_size(),
    {
        self.size
    }

    /// The number of samples in the window that is being filled.
    pub fn filled(&self) -> (n: usize)
        ensures
            n == self.pending().len(),
    {
        self.buffer.len()
    }

    /// Takes a chunk of samples in. Returns the windows that it completed,
    /// oldest first: the samples held before and those of the chunk, cut
    /// every `window_size` samples. What is left behind the last cut is held
    /// for the next call.
    pub fn feed(&mut self, chunk: &[T]) -> (complete: Vec<Vec<T>>)
        requires
            old(self).wf(),
        ensures
            final(self).wf(),
            final(self).window_size() == old(self).window_size(),
            complete@.len() == windows_of(
                old(self).pending() + chunk@,
                old(self).window_size(),
            ).len(),
            forall|k: int|
                0 <= k < complete@.len() ==> (#[trigger] complete@[k])@ == windows_of(
                    old(self).pending() + chunk@,
                    old(self).window_size(),
                )[k],
            final(self).pending() == leftover(
                old(self).pending() + chunk@,
                old(self).window_size(),
            ),
    {
        let ghost all = old(self).pending() + chunk@;
        let ghost size = self.size as int;
        let ghost start = old(self).pending().len() as int;
        let n: usize = chunk.len();
        let mut complete: Vec<Vec<T>> = Vec::new();
        let mut i: usize = 0;
        proof {
            assert(complete@.len() * size == 0) by (nonlinear_arith)
                requires
                    complete@.len() == 0,
            ;
            assert(self.buffer@ =~= all.subrange(0, start));
        }
        while i < n
            invariant
                i <= n,
                n == chunk@.len(),
                self.size == size,
                0 < size,
                all == old(self).pending() + chunk@,
                start == old(self).pending().len(),
                complete@.len() * size + self.buffer@.len() == start + i,
                self.buffer@.len() < size,
                self.buffer@ == all.subrange(complete@.len() * size, start + i),
                forall|k: int|
                    0 <= k < complete@.len() ==> (#[trigger] complete@[k])@ == all.subrange(
                        k * size,
                        (k + 1) * size,
                    ),
            decreases n - i,
        {
            let ghost base = complete@.len() * size;
            self.buffer.push(chunk[i]);
            assert(self.buffer@ =~= all.subrange(base, start + i + 1));
            i += 1;
            if self.buffer.len() == self.size {
                let mut full: Vec<T> = Vec::new();
                std::mem::swap(&mut self.buffer, &mut full);
                let ghost before = complete@;
                complete.push(full);
                proof {
                    assert((before.len() + 1) * size == base + size) by (nonlinear_arith)
                        requires
                            base == before.len() * size,
                    ;
                    assert(self.buffer@ =~= all.subrange(complete@.len() * size, start + i));
                    assert forall|k: int| 0 <= k < complete@.len() implies (
                    #[trigger] complete@[k])@ == all.subrange(k * size, (k + 1) * size) by {
                        if k < before.len() {
                            assert(complete@[k] == before[k]);
                        }
                    }
                }
            }
        }
        proof {
            let count = complete@.len() as int;
            let held = self.buffer@.len() as int;
            assert(size * count + held == all.len()) by (nonlinear_arith)
                requires
                    count * size + held == all.len(),
            ;
            lemma_fundamental_div_mod_converse(all.len() as int, size, count, held);
            assert(count * size == (all.len() as int / size) * size);
            assert(self.buffer@ =~= leftover(all, size));
        }
        complete
    }

    /// One period of the input callback: takes the chunk in and offers each
    /// window that it completed to the channel, without waiting. A window
    /// that the channel refuses is dropped.
    pub fn capture(&mut self, chunk: &[T], tx: &Sender<Vec<T>>) -> (handoffs: Handoffs)
        requires
            old(self).wf(),
        ensures
            final(self).wf(),
            final(self).window_size() == old(self).window_size(),
            final(self).pending() == leftover(
                old(self).pending() + chunk@,
                old(self).window_size(),
            ),
            handoffs.sent + handoffs.dropped == windows_of(
                old(self).pending() + chunk@,
                old(self).window_size(),
            ).len(),
    {
        let mut complete: Vec<Vec<T>> = self.feed(chunk);
        let total: usize = complete.len();
        let mut sent: usize = 0;
        let mut dropped: usize = 0;
        while sent + dropped < total
            invariant
                sent + dropped <= total,
                complete@.len() + sent + dropped == total,
            decreases total - sent - dropped,
        {
            let window: Vec<T> = complete.remove(0);
            match try_offer(tx, window) {
                None => {
                    sent += 1;
                },
                Some(_) => {
                    dropped += 1;
                },
            }
        }
        Handoffs { sent, dropped }
    }
}

/// Cutting does not depend on the chunks: two chunks fed one after the other
/// complete the same windows, and leave the same samples behind, as both fed
/// at once.
pub proof fn lemma_chunking_is_immaterial<T>(held: Seq<T>, first: Seq<T>, second: Seq<T>, size: int)
    requires
        0 < size,
    ensures
        windows_of(held + first, size) + windows_of(leftover(held + first, size) + second, size)
            == windows_of(held + first + second, size),
        leftover(leftover(held + first, size) + second, size) == leftover(
            held + first + second,
            size,
        ),
{
    let a = held + first;
    let all = a + second;
    let q = a.len() as int / size;
    let r = a.len() as int % size;
    let rest = leftover(a, size) + second;
    assert(a.len() == size * q + r && 0 <= r < size && 0 <= q) by (nonlinear_arith)
        requires
            q == a.len() as int / size,
            r == a.len() as int % size,
            0 < size,
    ;
    assert(q * size == size * q) by (nonlinear_arith);
    assert(rest.len() == r + second.len());
    let q2 = rest.len() as int / size;
    let r2 = rest.len() as int % size;
    assert(rest.len() == size * q2 + r2 && 0 <= r2 < size && 0 <= q2) by (nonlinear_arith)
        requires
            q2 == rest.len() as int / size,
            r2 == rest.len() as int % size,
            0 < size,
    ;
    assert(all.len() == size * (q + q2) + r2) by (nonlinear_arith)
        requires
            all.len() == a.len() + second.len(),
            a.len() == size * q + r,
            r + second.len() == size * q2 + r2,
    ;
    lemma_fundamental_div_mod_converse(all.len() as int, size, q + q2, r2);
    assert(q2 * size == size * q2) by (nonlinear_arith);
    assert((q + q2) * size == q * size + q2 * size) by (nonlinear_arith);
    let joined = windows_of(a, size) + windows_of(rest, size);
    let whole = windows_of(all, size);
    assert(joined.len() == whole.len());
    assert forall|k: int| 0 <= k < whole.len() implies joined[k] == whole[k] by {
        if k < q {
            assert(0 <= k * size && (k + 1) * size <= q * size && (k + 1) * size == k * size
                + size) by (nonlinear_arith)
                requires
                    0 <= k < q,
                    0 < size,
            ;
            assert(a.subrange(k * size, (k + 1) * size) =~= all.subrange(
                k * size,
                (k + 1) * size,
            ));
        } else {
            let m = k - q;
            assert(0 <= m * size && (m + 1) * size <= q2 * size && k * size == q * size + m
                * size && (k + 1) * size == q * size + (m + 1) * size && (m + 1) * size == m
                * size + size) by (nonlinear_arith)
                requires
                    0 <= m < q2,
                    0 < size,
                    k == q + m,
            ;
            assert(rest.subrange(m * size, (m + 1) * size) =~= all.subrange(
                k * size,
                (k + 1) * size,
            ));
        }
    }
    assert(joined =~= whole);
    assert(leftover(rest, size) =~= leftover(all, size));
}

/// A window is handed on once for every `size` samples taken in: fed from
/// empty, `total` samples complete `total / size` windows, however they are
/// chunked.
pub proof fn lemma_one_window_per_size<T>(samples: Seq<T>, size: int)
    requires
        0 < size,
    ensures
        windows_of(samples, size).len() == samples.len() as int / size,
        leftover(samples, size).len() == samples.len() as int % size,
        forall|k: int|
            0 <= k < windows_of(samples, size).len() ==> (#[trigger] windows_of(
                samples,
                size,
            )[k]).len() == size,
{
    let q = samples.len() as int / size;
    assert(samples.len() == size * q + samples.len() as int % size && 0 <= q && q * size
        == size * q && 0 <= samples.len() as int % size < size) by (nonlinear_arith)
        requires
            q == samples.len() as int / size,
            0 < size,
    ;
    assert forall|k: int| 0 <= k < windows_of(samples, size).len() implies (#[trigger] windows_of(
        samples,
        size,
    )[k]).len() == size by {
        assert(0 <= k * size && (k + 1) * size <= q * size && (k + 1) * size == k * size + size)
            by (nonlinear_arith)
            requires
                0 <= k < q,
                0 < size,
        ;
    }
}

} // verus!
