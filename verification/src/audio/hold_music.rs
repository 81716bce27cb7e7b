//! Procedural hold music: a chord progression that fills the silence while
//! tools run. What sounds at each sample is decided here; the sines are
//! summed where floats are.

use vstd::prelude::*;

verus! {

/// Samples per chord (2.8 s at 24 kHz).
pub const CHORD_SAMPLES: u64 = 67_200;

/// Samples of fade at either end of a chord (0.15 s at 24 kHz).
pub const FADE_SAMPLES: u64 = 3_600;

/// Chords in the progression: C → Am → F → G.
pub const CHORDS: u64 = 4;

/// The most samples that one call generates.
pub const MAX_CHUNK: usize = 4_096;

/// What sounds at one sample.
#[derive(Debug, Clone, Copy, PartialEq, Eq, Structural)]
pub struct HoldStep {
    /// The sample's place in the stream.
    pub t: u64,
    /// The current chord, by its place in the progression.
    pub chord: usize,
    /// The chord before it.
    pub previous: usize,
    /// The share of the current chord, in parts of [`FADE_SAMPLES`]; the rest
    /// is the previous chord's.
    pub fade: u64,
    /// Whether anything sounds at all.
    pub active: bool,
}

/// What sounds at the sample `t`: the progression moves on every
/// [`CHORD_SAMPLES`], and each chord fades in and out over [`FADE_SAMPLES`].
/// Where the music is not `active` there is silence, and time goes on.
pub open spec fn step_at(t: u64, active: bool) -> HoldStep {
    let chord = (t / CHORD_SAMPLES) % CHORDS;
    let pos = t % CHORD_SAMPLES;
    HoldStep {
        t,
        chord: chord as usize,
        previous: if chord == 0 {
            3
        } else {
            (chord - 1) as usize
        },
        fade: if pos < FADE_SAMPLES {
            pos
        } else if pos >= CHORD_SAMPLES - FADE_SAMPLES {
            (CHORD_SAMPLES - pos) as u64
        } else {
            FADE_SAMPLES
        },
        active,
    }
}

/// Generates hold music, sample by sample, as one seamless stream over
/// successive calls.
pub struct HoldMusic {
    t: u64,
}

impl HoldMusic {
    /// How many samples have been generated.
    pub closed spec fn elapsed(&self) -> u64 {
        self.t
    }

    /// Creates a new generator.
    pub fn new() -> (r: Self)
        ensures
            r.elapsed() == 0,
    {
        HoldMusic { t: 0 }
    }

    /// Generates up to `max_samples` samples (at most [`MAX_CHUNK`]),
    /// advancing the internal counter: silence where the music is not
    /// `active`.
    pub fn generate(&mut self, max_samples: usize, active: bool) -> (r: Vec<HoldStep>)
        requires
            old(self).elapsed() <= u64::MAX - MAX_CHUNK,
        ensures
            r@.len() == if max_samples < MAX_CHUNK {
                max_samples
            } else {
                MAX_CHUNK
            },
            forall|i: int|
                0 <= i < r@.len() ==> #[trigger] r@[i] == step_at(
                    (old(self).elapsed() + i) as u64,
                    active,
                ),
            final(self).elapsed() == old(self).elapsed() + r@.len(),
    {
        let n: usize = if max_samples < MAX_CHUNK {
            max_samples
        } else {
            MAX_CHUNK
        };
        let mut out: Vec<HoldStep> = Vec::new();
        let mut i: usize = 0;
        while i < n
            invariant
                i <= n <= MAX_CHUNK,
                self.t == old(self).elapsed() <= u64::MAX - MAX_CHUNK,
                out@.len() == i,
                forall|k: int| 0 <= k < i ==> #[trigger] out@[k] == step_at(
                        (self.t + k) as u64,
                        active,
                    ),
            decreases n - i,
        {
            let t: u64 = self.t + i as u64;
            let chord: u64 = (t / CHORD_SAMPLES) % CHORDS;
            let pos: u64 = t % CHORD_SAMPLES;
            let previous: usize = if chord == 0 {
                3
            } else {
                (chord - 1) as usize
            };
            let fade: u64 = if pos < FADE_SAMPLES {
                pos
            } else if pos >= CHORD_SAMPLES - FADE_SAMPLES {
                CHORD_SAMPLES - pos
            } else {
                FADE_SAMPLES
            };
            out.push(HoldStep { t, chord: chord as usize, previous, fade, active });
            i += 1;
        }
        self.t += n as u64;
        out
    }

    /// Returns how many samples have been generated total.
    pub fn elapsed_samples(&self) -> (r: u64)
        ensures
            r == self.elapsed(),
    {
        self.t
    }

    /// Resets the generator to t=0.
    pub fn reset(&mut self)
        ensures
            final(self).elapsed() == 0,
    {
        self.t = 0;
    }
}

/// A chord's share is never more than the whole, and both chords that sound
/// are in the progression.
pub proof fn law_fades_stay_in_range(t: u64, active: bool)
    ensures
        step_at(t, active).fade <= FADE_SAMPLES,
        step_at(t, active).chord < CHORDS,
        step_at(t, active).previous < CHORDS,
        step_at(t, active).previous != step_at(t, active).chord,
{
}

/// The progression goes on: 67 200 samples later the next of the four chords
/// sounds, at the same point of its fade, and the chord before it is the one
/// that sounded.
pub proof fn law_chords_follow_each_other(t: u64, active: bool)
    requires
        t <= u64::MAX - 67_200,
    ensures
        ({
            let now = step_at(t, active);
            let later = step_at((t + 67_200) as u64, active);
            &&& later.chord == (now.chord + 1) % 4
            &&& later.previous == now.chord
            &&& later.fade == now.fade
            &&& step_at(0, active).chord == 0
        }),
{
    assert((t + 67_200) / 67_200 == t / 67_200 + 1) by (nonlinear_arith);
    assert((t + 67_200) % 67_200 == t % 67_200) by (nonlinear_arith);
}

/// A chord fades in over its first 3 600 samples and out over its last, a step
/// at a time, and is full in between.
pub proof fn law_chords_fade_in_and_out(t: u64, pos: int, active: bool)
    requires
        pos == t % 67_200,
    ensures
        pos <= 3_600 ==> step_at(t, active).fade == pos,
        3_600 <= pos < 63_600 ==> step_at(t, active).fade == 3_600,
        pos >= 63_600 ==> step_at(t, active).fade == 67_200 - pos,
        step_at(t, active).t == t,
        step_at(t, active).active == active,
{
}

} // verus!
