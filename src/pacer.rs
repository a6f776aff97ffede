//! The per-frame session: what to do after each read from the decoder and
//! after each rasterization, and how long to wait before a frame is shown.
//!
//! The caller performs the work (reading, rasterizing, sleeping, writing) and
//! reports back; the session only decides.
use vstd::prelude::*;

verus! {

pub const NANOS_PER_SECOND: u64 = 1_000_000_000;

#[derive(Clone, Copy, Debug, PartialEq, Eq)]
pub enum Phase {
    /// Waiting for the next frame from the decoder.
    Idle,
    /// A full frame is in hand and being rasterized.
    Presenting,
    /// The decoder's stream has ended.
    Ended,
}

#[derive(Clone, Copy, Debug, PartialEq, Eq)]
pub enum Action {
    /// Rasterize the frame just read.
    Render,
    /// Wait `delay_nanos`, then write the frame.
    Emit { delay_nanos: u128 },
    /// Stop: the stream has ended.
    Finish,
}

/// The size of one raw RGB24 frame.
pub open spec fn frame_bytes(sd: (usize, usize)) -> nat {
    3 * (sd.0 as nat) * (sd.1 as nat)
}

/// How long to wait, `elapsed` nanoseconds after the start, before frame `k`
/// is due at `k * nanos_per_frame`; late frames wait not at all.
pub open spec fn sleep_for(k: nat, nanos_per_frame: nat, elapsed: nat) -> nat {
    if elapsed < k * nanos_per_frame {
        (k * nanos_per_frame - elapsed) as nat
    } else {
        0
    }
}

pub struct Session {
    /// Bytes in one full frame.
    pub frame_len: usize,
    pub nanos_per_frame: u64,
    /// Index of the next frame to be shown; also the number shown so far.
    pub frame_index: u64,
    /// Whether frames are held back to the frame clock.
    pub pace: bool,
    pub phase: Phase,
}

impl Session {
    /// A session for frames of `source_dims` pixels at `fps` frames per second.
    pub fn new(source_dims: &(usize, usize), fps: u64, pace: bool) -> (r: Session)
        requires
            fps > 0,
            frame_bytes(*source_dims) <= usize::MAX,
        ensures
            r.frame_len == frame_bytes(*source_dims),
            r.nanos_per_frame == NANOS_PER_SECOND / fps,
            r.frame_index == 0,
            r.pace == pace,
            r.phase == Phase::Idle,
    {
        let (w, h) = *source_dims;
        proof {
            assert(w * h <= 3 * w * h) by (nonlinear_arith);
            assert(3 * (w * h) == 3 * w * h) by (nonlinear_arith);
        }
        Session {
            frame_len: 3 * (w * h),
            nanos_per_frame: NANOS_PER_SECOND / fps,
            frame_index: 0,
            pace,
            phase: Phase::Idle,
        }
    }

    /// The decoder returned `len` bytes. Only a full frame, read while idle, is
    /// rendered; a short or empty read ends the stream for good.
    pub fn on_read(&mut self, len: usize) -> (r: Action)
        ensures
            final(self).frame_len == old(self).frame_len,
            final(self).nanos_per_frame == old(self).nanos_per_frame,
            final(self).frame_index == old(self).frame_index,
            final(self).pace == old(self).pace,
            (old(self).phase == Phase::Idle && len == old(self).frame_len) ==> (r == Action::Render
                && final(self).phase == Phase::Presenting),
            !(old(self).phase == Phase::Idle && len == old(self).frame_len) ==> (r == Action::Finish
                && final(self).phase == Phase::Ended),
    {
        if matches!(self.phase, Phase::Idle) && len == self.frame_len {
            self.phase = Phase::Presenting;
            Action::Render
        } else {
            self.phase = Phase::Ended;
            Action::Finish
        }
    }

    /// The frame in hand is rasterized, `elapsed_nanos` after the start. It is
    /// always emitted, after the wait that its due time asks for when pacing.
    pub fn on_rendered(&mut self, elapsed_nanos: u128) -> (r: Action)
        requires
            old(self).phase == Phase::Presenting,
            old(self).frame_index < u64::MAX,
        ensures
            r == (Action::Emit {
                delay_nanos: if old(self).pace {
                    sleep_for(
                        old(self).frame_index as nat,
                        old(self).nanos_per_frame as nat,
                        elapsed_nanos as nat,
                    ) as u128
                } else {
                    0
                },
            }),
            final(self).frame_index == old(self).frame_index + 1,
            final(self).phase == Phase::Idle,
            final(self).frame_len == old(self).frame_len,
            final(self).nanos_per_frame == old(self).nanos_per_frame,
            final(self).pace == old(self).pace,
    {
        let k = self.frame_index;
        let delay: u128 = if self.pace {
            proof {
                assert((k as nat) * (self.nanos_per_frame as nat) <= 0xffff_ffff_ffff_ffffnat
                    * 0xffff_ffff_ffff_ffffnat) by (nonlinear_arith);
            }
            let due = k as u128 * self.nanos_per_frame as u128;
            if elapsed_nanos < due {
                due - elapsed_nanos
            } else {
                0
            }
        } else {
            0
        };
        self.frame_index = k + 1;
        self.phase = Phase::Idle;
        Action::Emit { delay_nanos: delay }
    }
}

/// A paced frame is never shown before it is due, and a late one is shown at once.
pub proof fn lemma_frame_not_early(k: nat, nanos_per_frame: nat, elapsed: nat)
    ensures
        elapsed + sleep_for(k, nanos_per_frame, elapsed) >= k * nanos_per_frame,
        elapsed >= k * nanos_per_frame ==> sleep_for(k, nanos_per_frame, elapsed) == 0,
{
}

} // verus!
