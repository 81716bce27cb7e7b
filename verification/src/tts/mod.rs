//! Text-to-speech: phonemes, voice banks, tone detection, and the choice of
//! engine.

use vstd::prelude::*;

use crate::config::{Config, FilesPresent};

pub mod emotion;
pub mod misaki_g2p;
pub mod mock;
pub mod onnx;
pub mod phonemes;

pub use misaki_g2p::MisakiG2p;
pub use mock::MockTts;

verus! {

/// Sample rate emitted by every TTS engine (Kokoro and the mock agree).
pub const TTS_SAMPLE_RATE: u32 = 24_000;

/// A synthesized audio clip.
#[derive(Debug, Clone)]
pub struct TtsClip {
    /// PCM samples, mono, as float bits.
    pub samples: Vec<u32>,
    /// Sample rate in Hz (24 000 for both Kokoro and the mock).
    pub sample_rate: u32,
}

/// The samples of all clips, one behind the other.
pub open spec fn all_samples(clips: Seq<TtsClip>) -> Seq<u32>
    decreases clips.len(),
{
    if clips.len() == 0 {
        Seq::empty()
    } else {
        all_samples(clips.drop_last()) + clips.last().samples@
    }
}

/// Concatenates clip samples into one buffer.
pub fn concat_clip_samples(clips: &Vec<TtsClip>) -> (r: Vec<u32>)
    ensures
        r@ == all_samples(clips@),
{
    let mut pcm: Vec<u32> = Vec::new();
    let mut i: usize = 0;
    while i < clips.len()
        invariant
            i <= clips@.len(),
            pcm@ == all_samples(clips@.take(i as int)),
        decreases clips@.len() - i,
    {
        assert(clips@.take(i + 1).drop_last() =~= clips@.take(i as int));
        let mut more = clips[i].samples.clone();
        pcm.append(&mut more);
        assert(pcm@ =~= all_samples(clips@.take(i + 1)));
        i += 1;
    }
    assert(clips@.take(clips@.len() as int) =~= clips@);
    pcm
}

/// A TTS engine.
#[derive(Debug, Clone, Copy, PartialEq, Eq, Structural)]
pub enum EngineKind {
    /// Kokoro, from its model and voices files.
    Kokoro,
    /// The sine-wave mock.
    Mock,
}

/// Whether a configuration asks for Kokoro, and its files are there.
pub open spec fn wants_kokoro(c: Config, files: FilesPresent) -> bool {
    !c.mock_tts && c.tts_model is Some && c.tts_voices is Some && files.tts_model
        && files.tts_voices
}

/// Which engine to load: Kokoro when `--mock-tts` is unset and the model and
/// voices files exist, otherwise the mock.
pub fn choose_engine(cfg: &Config, files: FilesPresent) -> (r: EngineKind)
    ensures
        r == (if wants_kokoro(*cfg, files) {
            EngineKind::Kokoro
        } else {
            EngineKind::Mock
        }),
{
    if !cfg.mock_tts && cfg.tts_model.is_some() && cfg.tts_voices.is_some() && files.tts_model
        && files.tts_voices {
        EngineKind::Kokoro
    } else {
        EngineKind::Mock
    }
}

/// The engine that speaks, and whether it is wrapped to detect tone: a Kokoro
/// load failure falls back to the mock, so the pipeline keeps running.
pub fn build_engine(cfg: &Config, files: FilesPresent, kokoro_loaded: bool) -> (r: (
    EngineKind,
    bool,
))
    ensures
        r.0 == (if wants_kokoro(*cfg, files) && kokoro_loaded {
            EngineKind::Kokoro
        } else {
            EngineKind::Mock
        }),
        r.1 == cfg.tts_emotion,
{
    let kind = match choose_engine(cfg, files) {
        EngineKind::Kokoro => {
            if kokoro_loaded {
                EngineKind::Kokoro
            } else {
                EngineKind::Mock
            }
        },
        EngineKind::Mock => EngineKind::Mock,
    };
    (kind, cfg.tts_emotion)
}

/// Clips are heard one behind the other, each whole.
pub proof fn law_clips_follow_each_other(a: Seq<TtsClip>, clip: TtsClip, b: Seq<TtsClip>)
    ensures
        all_samples(Seq::empty()) == Seq::<u32>::empty(),
        all_samples(a.push(clip) + b) == all_samples(a) + clip.samples@ + all_samples(b),
    decreases b.len(),
{
    let all = a.push(clip) + b;
    if b.len() == 0 {
        assert(all =~= a.push(clip));
        assert(all.drop_last() =~= a);
        assert(all_samples(all) =~= all_samples(a) + clip.samples@ + all_samples(b));
    } else {
        law_clips_follow_each_other(a, clip, b.drop_last());
        assert(all.drop_last() =~= a.push(clip) + b.drop_last());
        assert(all_samples(all) =~= all_samples(a) + clip.samples@ + all_samples(b));
    }
}

} // verus!
