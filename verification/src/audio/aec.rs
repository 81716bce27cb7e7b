//! Acoustic echo cancellation: when the canceller is made anew, with which
//! filter length, and what reference it is given.
//!
//! The canceller works on frames of a fixed size chosen when it is made, so it
//! is made lazily from the length of the first frame, and again if a later
//! frame has a different length.

use vstd::prelude::*;

verus! {

/// What has to be done before a frame goes through the canceller.
#[derive(Debug, Clone, Copy, PartialEq, Eq, Structural)]
pub enum AecStep {
    /// Nothing: the frame is empty and so is the result.
    Empty,
    /// Make a canceller for this frame size with this filter length, which
    /// resets the adapted echo filter.
    Create {
        /// The length of the echo tail in samples.
        filter_length: i32,
    },
    /// Use the one that is there.
    Reuse,
}

/// The filter length for an echo tail of `filter_samples`: rounded up to a
/// whole multiple of the frame size.
pub open spec fn filter_length_of(filter_samples: int, frame_size: int) -> int {
    (filter_samples + frame_size - 1) / frame_size * frame_size
}

/// The state of an echo canceller around the one that does the arithmetic.
#[derive(Debug, Clone, Copy, PartialEq, Eq, Structural)]
pub struct AecFilter {
    /// Sample rate in Hz shared by the mic and speaker streams.
    pub sample_rate: u32,
    /// The echo tail in samples.
    pub filter_samples: i32,
    /// Frame size, in samples, that the canceller was created with; `0` until
    /// the first frame sets it.
    pub frame_size: usize,
}

impl AecFilter {
    /// Creates an echo canceller for `sample_rate` Hz with an echo tail of
    /// `filter_samples` samples.
    pub fn new(sample_rate: u32, filter_samples: i32) -> (r: Self)
        requires
            sample_rate > 0,
            filter_samples > 0,
        ensures
            r == (AecFilter { sample_rate, filter_samples, frame_size: 0 }),
    {
        AecFilter { sample_rate, filter_samples, frame_size: 0 }
    }

    /// Configured sample rate in Hz.
    pub fn sample_rate(&self) -> (r: u32)
        ensures
            r == self.sample_rate,
    {
        self.sample_rate
    }

    /// Frame size, in samples, the canceller is configured for. Returns `0`
    /// until the first frame has been processed.
    pub fn frame_size(&self) -> (r: usize)
        ensures
            r == self.frame_size,
    {
        self.frame_size
    }

    /// What has to be done before a frame of `frame_size` samples goes through
    /// the canceller.
    pub fn process_frame(&mut self, frame_size: usize) -> (r: AecStep)
        requires
            old(self).filter_samples > 0,
            old(self).filter_samples + frame_size - 1 <= i32::MAX,
        ensures
            r == (if frame_size == 0 {
                AecStep::Empty
            } else if old(self).frame_size != frame_size {
                AecStep::Create {
                    filter_length: filter_length_of(
                        old(self).filter_samples as int,
                        frame_size as int,
                    ) as i32,
                }
            } else {
                AecStep::Reuse
            }),
            *final(self) == (AecFilter {
                frame_size: if frame_size == 0 {
                    old(self).frame_size
                } else {
                    frame_size
                },
                ..*old(self)
            }),
    {
        if frame_size == 0 {
            return AecStep::Empty;
        }
        if self.frame_size == frame_size {
            return AecStep::Reuse;
        }
        self.frame_size = frame_size;
        let size: i32 = frame_size as i32;
        let blocks: i32 = (self.filter_samples + (size - 1)) / size;
        proof {
            law_filters_cover_the_tail(self.filter_samples as int, size as int);
        }
        AecStep::Create { filter_length: blocks * size }
    }
}

/// The filter length is a whole multiple of the frame size and covers the echo
/// tail, with less than a frame to spare.
pub proof fn law_filters_cover_the_tail(filter_samples: int, frame_size: int)
    requires
        filter_samples > 0,
        frame_size > 0,
    ensures
        filter_length_of(filter_samples, frame_size) % frame_size == 0,
        filter_samples <= filter_length_of(filter_samples, frame_size) < filter_samples
            + frame_size,
{
    let n = filter_samples + frame_size - 1;
    vstd::arithmetic::div_mod::lemma_fundamental_div_mod(n, frame_size);
    vstd::arithmetic::div_mod::lemma_mod_bound(n, frame_size);
    vstd::arithmetic::div_mod::lemma_mod_multiples_basic(n / frame_size, frame_size);
    assert(frame_size * (n / frame_size) == n / frame_size * frame_size) by (nonlinear_arith);
}

/// The reference for a frame: zero-padded where it is shorter, cut where it is
/// longer.
pub fn reference_frame(speaker: &Vec<i16>, frame_size: usize) -> (r: Vec<i16>)
    ensures
        r@ == Seq::new(
            frame_size as nat,
            |i: int|
                if i < speaker@.len() {
                    speaker@[i]
                } else {
                    0i16
                },
        ),
{
    let mut out: Vec<i16> = Vec::new();
    let mut i: usize = 0;
    while i < frame_size
        invariant
            i <= frame_size,
            out@.len() == i,
            forall|k: int|
                0 <= k < i ==> out@[k] == (if k < speaker@.len() {
                    speaker@[k]
                } else {
                    0i16
                }),
        decreases frame_size - i,
    {
        let x: i16 = if i < speaker.len() {
            speaker[i]
        } else {
            0
        };
        out.push(x);
        i += 1;
    }
    out
}

} // verus!
