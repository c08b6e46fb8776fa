//! The consumer side of playback, run inside the device's output callback.
//!
//! The callback owns a buffer of samples that no other thread touches. Once
//! per period it tops the buffer up from the channel, where the buffer alone
//! would not fill the device's request, and copies the front of the buffer
//! to the device. It never waits: what is not there is left out, and the rest
//! of the device's buffer keeps what it held.

use crate::handoff::{try_receive, waiting};
use crate::stream::PcmBlock;
use crossbeam::channel::Receiver;
use vstd::prelude::*;

verus! {

/// The samples of `blocks`, one block after the other.
pub open spec fn joined(blocks: Seq<Seq<i16>>) -> Seq<i16>
    decreases blocks.len(),
{
    if blocks.len() == 0 {
        Seq::empty()
    } else {
        joined(blocks.drop_last()) + blocks.last()
    }
}

/// Whether the buffer `after` is the buffer `before` with `count` blocks put
/// behind it in the order in which they came, none of them empty.
pub open spec fn topped_up(before: Seq<i16>, after: Seq<i16>, count: nat) -> bool {
    exists|blocks: Seq<Seq<i16>>|
        blocks.len() == count && (forall|k: int| 0 <= k < blocks.len() ==> blocks[k].len() > 0)
            && after == before + #[trigger] joined(blocks)
}

/// The buffer of the output callback, with a count of every sample that has
/// entered it and of every sample that has left it for the device.
pub struct PlaybackDrain {
    ring: Vec<i16>,
    received: Ghost<nat>,
    copied: Ghost<nat>,
}

impl PlaybackDrain {
    /// The samples that wait to be played, oldest first.
    pub closed spec fn pending(&self) -> Seq<i16> {
        self.ring@
    }

    /// How many samples have ever been taken over from a block.
    pub closed spec fn received(&self) -> nat {
        self.received@
    }

    /// How many samples have ever been copied to the device.
    pub closed spec fn copied(&self) -> nat {
        self.copied@
    }

    /// Every sample that came in has either gone out or is still waiting.
    pub closed spec fn wf(&self) -> bool {
        self.received@ == self.copied@ + self.ring@.len()
    }

    /// An empty buffer that has seen no sample yet.
    pub fn new() -> (drain: PlaybackDrain)
        ensures
            drain.wf(),
            drain.pending() == Seq::<i16>::empty(),
            drain.received() == 0,
            drain.copied() == 0,
    {
        PlaybackDrain { ring: Vec::new(), received: Ghost(0), copied: Ghost(0) }
    }

    /// The number of samples that wait to be played.
    pub fn buffered(&self) -> (n: usize)
        ensures
            n == self.pending().len(),
    {
        self.ring.len()
    }

    /// Puts the samples of `block` behind those that wait.
    pub fn accept(&mut self, block: PcmBlock)
        requires
            old(self).wf(),
        ensures
            final(self).wf(),
            final(self).pending() == old(self).pending() + block@,
            block@.len() > 0,
            final(self).received() == old(self).received() + block@.len(),
            final(self).copied() == old(self).copied(),
    {
        let mut samples: Vec<i16> = block.into_samples();
        let ghost count = samples@.len();
        self.ring.append(&mut samples);
        self.received = Ghost(self.received@ + count);
    }

    /// Tops the buffer up from the channel without waiting. Where fewer than
    /// `wanted` samples wait, every block that the channel holds at this
    /// moment is taken, in order; else the channel is left alone. Returns the
    /// number of blocks taken.
    pub fn refill(&mut self, rx: &Receiver<PcmBlock>, wanted: usize) -> (taken: usize)
        requires
            old(self).wf(),
        ensures
            final(self).wf(),
            old(self).pending().is_prefix_of(final(self).pending()),
            final(self).received() - old(self).received() == final(self).pending().len() - old(
                self,
            ).pending().len(),
            final(self).copied() == old(self).copied(),
            old(self).pending().len() >= wanted ==> taken == 0,
            taken == 0 ==> final(self).pending() == old(self).pending(),
            final(self).pending().len() >= old(self).pending().len() + taken,
            topped_up(old(self).pending(), final(self).pending(), taken as nat),
    {
        let mut taken: usize = 0;
        let ghost mut blocks: Seq<Seq<i16>> = Seq::empty();
        proof {
            assert(self.pending() =~= old(self).pending() + joined(blocks));
        }
        if self.ring.len() >= wanted {
            return taken;
        }
        let available: usize = waiting(rx);
        while taken < available
            invariant
                taken <= available,
                self.wf(),
                blocks.len() == taken,
                forall|k: int| 0 <= k < blocks.len() ==> blocks[k].len() > 0,
                self.pending() == old(self).pending() + joined(blocks),
                old(self).pending().is_prefix_of(self.pending()),
                self.received() - old(self).received() == self.pending().len() - old(
                    self,
                ).pending().len(),
                self.copied() == old(self).copied(),
                taken == 0 ==> self.pending() == old(self).pending(),
                self.pending().len() >= old(self).pending().len() + taken,
            decreases available - taken,
        {
            match try_receive(rx) {
                Some(block) => {
                    let ghost samples = block@;
                    let ghost before = blocks;
                    self.accept(block);
                    proof {
                        blocks = before.push(samples);
                        assert(blocks.drop_last() =~= before);
                        assert(self.pending() =~= old(self).pending() + joined(blocks));
                    }
                },
                None => {
                    break;
                },
            }
            taken += 1;
        }
        taken
    }

    /// Moves the front of the buffer into `out`: as many samples as both
    /// hold. The slots of `out` behind them keep what they held. Returns the
    /// number of samples moved.
    pub fn copy_out(&mut self, out: &mut [i16]) -> (moved: usize)
        requires
            old(self).wf(),
        ensures
            final(self).wf(),
            moved <= old(self).pending().len(),
            moved <= old(out)@.len(),
            moved == old(self).pending().len() || moved == old(out)@.len(),
            final(out)@ == old(self).pending().subrange(0, moved as int) + old(out)@.subrange(
                moved as int,
                old(out)@.len() as int,
            ),
            final(self).pending() == old(self).pending().subrange(
                moved as int,
                old(self).pending().len() as int,
            ),
            final(self).copied() == old(self).copied() + moved,
            final(self).received() == old(self).received(),
    {
        let held: usize = self.ring.len();
        let moved: usize = if held < out.len() {
            held
        } else {
            out.len()
        };
        let mut i: usize = 0;
        while i < moved
            invariant
                i <= moved,
                moved <= held,
                moved <= out@.len(),
                held == self.ring@.len(),
                self.ring@ == old(self).ring@,
                out@.len() == old(out)@.len(),
                forall|k: int| 0 <= k < i ==> out@[k] == self.ring@[k],
                forall|k: int| i <= k < out@.len() ==> out@[k] == old(out)@[k],
            decreases moved - i,
        {
            out[i] = self.ring[i];
            i += 1;
        }
        let rest: usize = held - moved;
        let mut j: usize = 0;
        while j < rest
            invariant
                j <= rest,
                rest == held - moved,
                held == self.ring@.len(),
                held == old(self).ring@.len(),
                forall|k: int| 0 <= k < j ==> self.ring@[k] == old(self).ring@[k + moved],
                forall|k: int| j <= k < held ==> self.ring@[k] == old(self).ring@[k],
                *self == (PlaybackDrain { ring: self.ring, ..*old(self) }),
            decreases rest - j,
        {
            let sample: i16 = self.ring[j + moved];
            self.ring[j] = sample;
            j += 1;
        }
        self.ring.truncate(rest);
        self.copied = Ghost(self.copied@ + moved as nat);
        proof {
            assert(final(out)@ =~= old(self).pending().subrange(0, moved as int) + old(
                out,
            )@.subrange(moved as int, old(out)@.len() as int));
            assert(self.ring@ =~= old(self).ring@.subrange(moved as int, held as int));
        }
        moved
    }

    /// One period of the output callback: tops the buffer up where it holds
    /// fewer samples than `out` asks for, then fills the front of `out`.
    /// Returns the number of samples written; the slots behind them are left
    /// as they were.
    pub fn callback(&mut self, rx: &Receiver<PcmBlock>, out: &mut [i16]) -> (written: usize)
        requires
            old(self).wf(),
        ensures
            final(self).wf(),
            written <= old(out)@.len(),
            final(out)@.len() == old(out)@.len(),
            final(out)@.subrange(written as int, old(out)@.len() as int) == old(out)@.subrange(
                written as int,
                old(out)@.len() as int,
            ),
            old(self).pending().is_prefix_of(
                final(out)@.subrange(0, written as int) + final(self).pending(),
            ),
            written == old(out)@.len() || final(self).pending().len() == 0,
            old(self).pending().len() >= old(out)@.len() ==> final(out)@.subrange(0, written as int)
                + final(self).pending() == old(self).pending(),
            final(self).copied() == old(self).copied() + written,
            final(self).received() + old(self).pending().len() == old(self).received() + written
                + final(self).pending().len(),
    {
        let wanted: usize = out.len();
        let _ = self.refill(rx, wanted);
        let ghost filled = self.pending();
        let written: usize = self.copy_out(out);
        proof {
            assert(final(out)@.subrange(written as int, old(out)@.len() as int) =~= old(
                out,
            )@.subrange(written as int, old(out)@.len() as int));
            assert(final(out)@.subrange(0, written as int) + final(self).pending() =~= filled);
        }
        written
    }
}

/// No sample is made up: at every moment the samples copied to the device
/// and those still waiting are together exactly those received, so the
/// device never gets more than was sent.
pub proof fn lemma_no_fabrication(drain: PlaybackDrain)
    requires
        drain.wf(),
    ensures
        drain.copied() + drain.pending().len() == drain.received(),
        drain.copied() <= drain.received(),
{
}

} // verus!
