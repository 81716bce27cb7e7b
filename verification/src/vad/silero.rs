//! The state around the Silero VAD model: what goes into an inference and what
//! is carried to the next one. The inference itself is made where floats are.

use vstd::prelude::*;

use super::FRAME_LEN;
use crate::error::VadError;

verus! {

/// The number of elements of the model's recurrent state (`[2, 1, 128]`).
pub const STATE_LEN: usize = 256;

/// The sample rate that the model is told.
pub const MODEL_RATE: i64 = 16_000;

/// The state that is carried across frames, as float bits.
#[derive(Debug)]
pub struct SileroVad {
    /// The recurrent state, row by row.
    pub state: Vec<u32>,
}

/// The state of a model that has heard nothing.
pub open spec fn blank_state() -> Seq<u32> {
    Seq::new(STATE_LEN as nat, |i: int| 0u32)
}

fn blank() -> (r: Vec<u32>)
    ensures
        r@ == blank_state(),
{
    let mut v: Vec<u32> = Vec::new();
    let mut i: usize = 0;
    while i < STATE_LEN
        invariant
            i <= STATE_LEN,
            v@ =~= Seq::new(i as nat, |k: int| 0u32),
        decreases STATE_LEN - i,
    {
        v.push(0);
        i += 1;
    }
    v
}

impl SileroVad {
    /// The state of a model that has heard nothing.
    pub fn new() -> (r: Self)
        ensures
            r.state@ == blank_state(),
    {
        SileroVad { state: blank() }
    }

    /// Whether a frame of `len` samples can be put in:
    /// [`VadError::BadFrameLen`] unless it has [`FRAME_LEN`].
    pub fn process(&self, len: usize) -> (r: Result<(), VadError>)
        ensures
            r == (if len == FRAME_LEN {
                Ok::<(), VadError>(())
            } else {
                Err(VadError::BadFrameLen { expected: FRAME_LEN, actual: len })
            }),
    {
        if len == FRAME_LEN {
            Ok(())
        } else {
            Err(VadError::BadFrameLen { expected: FRAME_LEN, actual: len })
        }
    }

    /// Carries the state that an inference returned to the next one.
    pub fn carry(&mut self, returned: Vec<u32>)
        requires
            returned@.len() == STATE_LEN,
        ensures
            final(self).state == returned,
    {
        self.state = returned;
    }

    /// Resets the state; called after each emitted segment.
    pub fn reset_state(&mut self)
        ensures
            final(self).state@ == blank_state(),
    {
        self.state = blank();
    }
}

} // verus!
