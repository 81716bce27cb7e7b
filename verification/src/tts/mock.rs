//! Sine-wave mock TTS: zero model downloads, deterministic durations — lets
//! the whole pipeline run (and be tested) with no Kokoro files. The shape of a
//! clip is decided here; its samples are a sine.

use vstd::prelude::*;

use vstd::string::StrSliceExecFns;

verus! {

/// Milliseconds of audio per input character before clamping.
pub const MS_PER_CHAR: usize = 55;

/// The shortest clip, in milliseconds.
pub const MIN_MS: usize = 250;

/// The longest clip, in milliseconds.
pub const MAX_MS: usize = 2_500;

/// Samples per millisecond.
pub const SAMPLES_PER_MS: usize = 24;

/// Raised-cosine edge length in samples (5 ms; click avoidance).
pub const EDGE_SAMPLES: usize = 120;

/// The duration of the clip for a text of `chars` characters.
pub open spec fn mock_ms(chars: nat) -> nat {
    if chars * MS_PER_CHAR < MIN_MS {
        MIN_MS as nat
    } else if chars * MS_PER_CHAR > MAX_MS {
        MAX_MS as nat
    } else {
        chars * MS_PER_CHAR as nat
    }
}

/// 220 Hz sine mock: duration `clamp(chars × 55 ms, 250 ms..2.5 s)`, 5 ms
/// raised-cosine edges to avoid clicks, peak 0.3 (no clipping).
#[derive(Debug, Clone, Copy, PartialEq, Eq, Structural)]
pub struct MockTts;

/// The shape of a mock clip.
#[derive(Debug, Clone, Copy, PartialEq, Eq, Structural)]
pub struct MockClip {
    /// How many samples it has.
    pub samples: usize,
    /// How many of them fade in, and how many fade out.
    pub edge: usize,
}

impl MockTts {
    /// Creates the mock engine.
    pub fn new() -> (r: Self)
        ensures
            r == MockTts,
    {
        MockTts
    }

    /// The shape of the clip for `text`.
    pub fn synthesize(&self, text: &str) -> (r: MockClip)
        ensures
            r.samples == SAMPLES_PER_MS * mock_ms(text@.len()),
            r.edge == EDGE_SAMPLES,
    {
        let chars: usize = text.unicode_len();
        let ms: usize = if chars <= MIN_MS / MS_PER_CHAR {
            MIN_MS
        } else if chars > MAX_MS / MS_PER_CHAR {
            MAX_MS
        } else {
            chars * MS_PER_CHAR
        };
        MockClip { samples: SAMPLES_PER_MS * ms, edge: EDGE_SAMPLES }
    }
}

impl Default for MockTts {
    fn default() -> (r: Self)
        ensures
            r == MockTts,
    {
        MockTts
    }
}

/// A longer text is never said in less time, and no text in less than a
/// quarter of a second or more than two and a half.
pub proof fn law_longer_texts_take_longer(a: nat, b: nat)
    requires
        a <= b,
    ensures
        mock_ms(a) <= mock_ms(b),
        250 <= mock_ms(a) <= 2_500,
{
}

} // verus!
