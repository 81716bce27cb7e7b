//! Error types: one enum per pipeline stage plus the crate-wide umbrella
//! [`SkadooshError`] and the [`Result`] alias used throughout the crate.
//!
//! Every enum has a `message` method that writes the error out, and a spec
//! function `text` that says what that message is.

use vstd::prelude::*;
use vstd::std_specs::convert::FromSpecImpl;

use crate::text::decimal_string;

verus! {

/// Audio capture, playback, and resampling failures.
#[derive(Debug)]
pub enum AudioError {
    /// No input/output device matched the requested name (or no default device
    /// exists, e.g. on a headless machine).
    NoDevice,
    /// The device rejected or could not provide a usable stream configuration.
    StreamConfig(String),
    /// Building or starting the audio stream failed.
    StreamBuild(String),
    /// Resampler setup or processing failed.
    Resample(String),
}

impl AudioError {
    /// What [`message`](Self::message) writes.
    pub open spec fn text(self) -> Seq<char> {
        match self {
            AudioError::NoDevice => "no suitable audio device found"@,
            AudioError::StreamConfig(m) => "failed to negotiate audio stream config: "@ + m@,
            AudioError::StreamBuild(m) => "failed to build audio stream: "@ + m@,
            AudioError::Resample(m) => "resampling failed: "@ + m@,
        }
    }

    /// The error in words.
    pub fn message(&self) -> (r: String)
        ensures
            r@ == self.text(),
    {
        match self {
            AudioError::NoDevice => "no suitable audio device found".to_owned(),
            AudioError::StreamConfig(m) => "failed to negotiate audio stream config: ".to_owned().concat(m.as_str()),
            AudioError::StreamBuild(m) => "failed to build audio stream: ".to_owned().concat(m.as_str()),
            AudioError::Resample(m) => "resampling failed: ".to_owned().concat(m.as_str()),
        }
    }
}

/// VAD model loading and inference failures.
#[derive(Debug)]
pub enum VadError {
    /// The Silero ONNX model could not be loaded.
    ModelLoad(String),
    /// An inference call failed.
    Inference(String),
    /// A frame with a length other than `FRAME_LEN` (512) was submitted.
    BadFrameLen {
        /// Required frame length in samples.
        expected: usize,
        /// Frame length that was submitted.
        actual: usize,
    },
}

impl VadError {
    /// What [`message`](Self::message) writes.
    pub open spec fn text(self) -> Seq<char> {
        match self {
            VadError::ModelLoad(m) => "failed to load VAD model: "@ + m@,
            VadError::Inference(m) => "VAD inference failed: "@ + m@,
            VadError::BadFrameLen { expected, actual } => "VAD frames must be "@ + crate::text::decimal(expected as nat)
                + " samples, got "@ + crate::text::decimal(actual as nat),
        }
    }

    /// The error in words.
    pub fn message(&self) -> (r: String)
        ensures
            r@ == self.text(),
    {
        match self {
            VadError::ModelLoad(m) => "failed to load VAD model: ".to_owned().concat(m.as_str()),
            VadError::Inference(m) => "VAD inference failed: ".to_owned().concat(m.as_str()),
            VadError::BadFrameLen { expected, actual } => "VAD frames must be ".to_owned().concat(
                decimal_string(*expected as u64).as_str(),
            ).concat(" samples, got ").concat(decimal_string(*actual as u64).as_str()),
        }
    }
}

/// Speech-to-text failures.
#[derive(Debug)]
pub enum SttError {
    /// The whisper.cpp model could not be loaded.
    ModelLoad(String),
    /// A segment could not be transcribed.
    Transcribe(String),
    /// The dedicated STT worker thread exited or its channel closed. During
    /// shutdown drain this is benign and must not reach the fatal-error channel.
    WorkerGone,
}

impl SttError {
    /// What [`message`](Self::message) writes.
    pub open spec fn text(self) -> Seq<char> {
        match self {
            SttError::ModelLoad(m) => "failed to load STT model: "@ + m@,
            SttError::Transcribe(m) => "transcription failed: "@ + m@,
            SttError::WorkerGone => "STT worker thread is gone"@,
        }
    }

    /// The error in words.
    pub fn message(&self) -> (r: String)
        ensures
            r@ == self.text(),
    {
        match self {
            SttError::ModelLoad(m) => "failed to load STT model: ".to_owned().concat(m.as_str()),
            SttError::Transcribe(m) => "transcription failed: ".to_owned().concat(m.as_str()),
            SttError::WorkerGone => "STT worker thread is gone".to_owned(),
        }
    }
}

/// Streaming LLM client failures.
#[derive(Debug)]
pub enum LlmError {
    /// Transport-level HTTP failure (connect, read, TLS, ...).
    Http(String),
    /// SSE framing/buffering failure while reading the stream.
    Sse(String),
    /// The server answered with a non-success status code.
    Api {
        /// HTTP status code.
        status: u16,
        /// Response body (best effort, may be truncated).
        body: String,
    },
    /// The turn's cancellation token fired (barge-in or shutdown). The
    /// in-flight clause and the partial assistant reply are discarded.
    Cancelled,
}

impl LlmError {
    /// What [`message`](Self::message) writes.
    pub open spec fn text(self) -> Seq<char> {
        match self {
            LlmError::Http(m) => "LLM HTTP error: "@ + m@,
            LlmError::Sse(m) => "LLM SSE stream error: "@ + m@,
            LlmError::Api { status, body } => "LLM API returned status "@ + crate::text::decimal(status as nat)
                + ": "@ + body@,
            LlmError::Cancelled => "LLM request cancelled"@,
        }
    }

    /// The error in words.
    pub fn message(&self) -> (r: String)
        ensures
            r@ == self.text(),
    {
        match self {
            LlmError::Http(m) => "LLM HTTP error: ".to_owned().concat(m.as_str()),
            LlmError::Sse(m) => "LLM SSE stream error: ".to_owned().concat(m.as_str()),
            LlmError::Api { status, body } => "LLM API returned status ".to_owned().concat(
                decimal_string(*status as u64).as_str(),
            ).concat(": ").concat(body.as_str()),
            LlmError::Cancelled => "LLM request cancelled".to_owned(),
        }
    }
}

/// Text-to-speech failures.
#[derive(Debug)]
pub enum TtsError {
    /// The Kokoro ONNX model could not be loaded.
    ModelLoad(String),
    /// Phonemization failed or the phonemizer is missing.
    Phonemize(String),
    /// An inference call failed.
    Inference(String),
    /// The voices bank is missing or does not contain the requested voice.
    MissingVoices(String),
}

impl TtsError {
    /// What [`message`](Self::message) writes.
    pub open spec fn text(self) -> Seq<char> {
        match self {
            TtsError::ModelLoad(m) => "failed to load TTS model: "@ + m@,
            TtsError::Phonemize(m) => "phonemization failed: "@ + m@,
            TtsError::Inference(m) => "TTS inference failed: "@ + m@,
            TtsError::MissingVoices(m) => "TTS voices unavailable: "@ + m@,
        }
    }

    /// The error in words.
    pub fn message(&self) -> (r: String)
        ensures
            r@ == self.text(),
    {
        match self {
            TtsError::ModelLoad(m) => "failed to load TTS model: ".to_owned().concat(m.as_str()),
            TtsError::Phonemize(m) => "phonemization failed: ".to_owned().concat(m.as_str()),
            TtsError::Inference(m) => "TTS inference failed: ".to_owned().concat(m.as_str()),
            TtsError::MissingVoices(m) => "TTS voices unavailable: ".to_owned().concat(m.as_str()),
        }
    }
}

/// Crate-wide umbrella error; every stage error converts into it.
#[derive(Debug)]
pub enum SkadooshError {
    /// Audio stage failure.
    Audio(AudioError),
    /// VAD stage failure.
    Vad(VadError),
    /// STT stage failure.
    Stt(SttError),
    /// LLM stage failure.
    Llm(LlmError),
    /// TTS stage failure.
    Tts(TtsError),
    /// Escape hatch for errors at task boundaries (I/O, wav decoding, ...).
    Other(String),
}

impl SkadooshError {
    /// What [`message`](Self::message) writes: the stage's own message.
    pub open spec fn text(self) -> Seq<char> {
        match self {
            SkadooshError::Audio(e) => e.text(),
            SkadooshError::Vad(e) => e.text(),
            SkadooshError::Stt(e) => e.text(),
            SkadooshError::Llm(e) => e.text(),
            SkadooshError::Tts(e) => e.text(),
            SkadooshError::Other(m) => m@,
        }
    }

    /// The error in words.
    pub fn message(&self) -> (r: String)
        ensures
            r@ == self.text(),
    {
        match self {
            SkadooshError::Audio(e) => e.message(),
            SkadooshError::Vad(e) => e.message(),
            SkadooshError::Stt(e) => e.message(),
            SkadooshError::Llm(e) => e.message(),
            SkadooshError::Tts(e) => e.message(),
            SkadooshError::Other(m) => m.clone(),
        }
    }
}

impl From<AudioError> for SkadooshError {
    fn from(e: AudioError) -> (r: SkadooshError) {
        SkadooshError::Audio(e)
    }
}

impl FromSpecImpl<AudioError> for SkadooshError {
    open spec fn obeys_from_spec() -> bool {
        true
    }

    open spec fn from_spec(e: AudioError) -> SkadooshError {
        SkadooshError::Audio(e)
    }
}

impl From<VadError> for SkadooshError {
    fn from(e: VadError) -> (r: SkadooshError) {
        SkadooshError::Vad(e)
    }
}

impl FromSpecImpl<VadError> for SkadooshError {
    open spec fn obeys_from_spec() -> bool {
        true
    }

    open spec fn from_spec(e: VadError) -> SkadooshError {
        SkadooshError::Vad(e)
    }
}

impl From<SttError> for SkadooshError {
    fn from(e: SttError) -> (r: SkadooshError) {
        SkadooshError::Stt(e)
    }
}

impl FromSpecImpl<SttError> for SkadooshError {
    open spec fn obeys_from_spec() -> bool {
        true
    }

    open spec fn from_spec(e: SttError) -> SkadooshError {
        SkadooshError::Stt(e)
    }
}

impl From<LlmError> for SkadooshError {
    fn from(e: LlmError) -> (r: SkadooshError) {
        SkadooshError::Llm(e)
    }
}

impl FromSpecImpl<LlmError> for SkadooshError {
    open spec fn obeys_from_spec() -> bool {
        true
    }

    open spec fn from_spec(e: LlmError) -> SkadooshError {
        SkadooshError::Llm(e)
    }
}

impl From<TtsError> for SkadooshError {
    fn from(e: TtsError) -> (r: SkadooshError) {
        SkadooshError::Tts(e)
    }
}

impl FromSpecImpl<TtsError> for SkadooshError {
    open spec fn obeys_from_spec() -> bool {
        true
    }

    open spec fn from_spec(e: TtsError) -> SkadooshError {
        SkadooshError::Tts(e)
    }
}

/// Crate-wide result alias.
pub type Result<T> = std::result::Result<T, SkadooshError>;

/// What an error was told of its cause, where it was told anything.
pub open spec fn reason_of(e: SkadooshError) -> Option<Seq<char>> {
    match e {
        SkadooshError::Audio(AudioError::StreamConfig(m)) => Some(m@),
        SkadooshError::Audio(AudioError::StreamBuild(m)) => Some(m@),
        SkadooshError::Audio(AudioError::Resample(m)) => Some(m@),
        SkadooshError::Vad(VadError::ModelLoad(m)) => Some(m@),
        SkadooshError::Vad(VadError::Inference(m)) => Some(m@),
        SkadooshError::Stt(SttError::ModelLoad(m)) => Some(m@),
        SkadooshError::Stt(SttError::Transcribe(m)) => Some(m@),
        SkadooshError::Llm(LlmError::Http(m)) => Some(m@),
        SkadooshError::Llm(LlmError::Sse(m)) => Some(m@),
        SkadooshError::Llm(LlmError::Api { status: _, body }) => Some(body@),
        SkadooshError::Tts(TtsError::ModelLoad(m)) => Some(m@),
        SkadooshError::Tts(TtsError::Phonemize(m)) => Some(m@),
        SkadooshError::Tts(TtsError::Inference(m)) => Some(m@),
        SkadooshError::Tts(TtsError::MissingVoices(m)) => Some(m@),
        SkadooshError::Other(m) => Some(m@),
        _ => None,
    }
}

proof fn lemma_end_is_kept(front: Seq<char>, m: Seq<char>)
    ensures
        (front + m).len() >= m.len(),
        (front + m).skip((front + m).len() - m.len()) == m,
{
    assert((front + m).skip((front + m).len() - m.len()) =~= m);
}

/// An error in words ends with what it was told of its cause, all of it.
#[verifier::rlimit(30)]
pub proof fn law_errors_keep_their_reason(e: SkadooshError)
    requires
        reason_of(e) is Some,
    ensures
        e.text().len() >= (reason_of(e)->0).len(),
        e.text().skip(e.text().len() - (reason_of(e)->0).len()) == reason_of(e)->0,
{
    let m = reason_of(e)->0;
    match e {
        SkadooshError::Audio(AudioError::StreamConfig(_)) => lemma_end_is_kept(
            "failed to negotiate audio stream config: "@,
            m,
        ),
        SkadooshError::Audio(AudioError::StreamBuild(_)) => lemma_end_is_kept(
            "failed to build audio stream: "@,
            m,
        ),
        SkadooshError::Audio(AudioError::Resample(_)) => lemma_end_is_kept(
            "resampling failed: "@,
            m,
        ),
        SkadooshError::Vad(VadError::ModelLoad(_)) => lemma_end_is_kept(
            "failed to load VAD model: "@,
            m,
        ),
        SkadooshError::Vad(VadError::Inference(_)) => lemma_end_is_kept(
            "VAD inference failed: "@,
            m,
        ),
        SkadooshError::Stt(SttError::ModelLoad(_)) => lemma_end_is_kept(
            "failed to load STT model: "@,
            m,
        ),
        SkadooshError::Stt(SttError::Transcribe(_)) => lemma_end_is_kept(
            "transcription failed: "@,
            m,
        ),
        SkadooshError::Llm(LlmError::Http(_)) => lemma_end_is_kept("LLM HTTP error: "@, m),
        SkadooshError::Llm(LlmError::Sse(_)) => lemma_end_is_kept("LLM SSE stream error: "@, m),
        SkadooshError::Llm(LlmError::Api { status, body: _ }) => lemma_end_is_kept(
            "LLM API returned status "@ + crate::text::decimal(status as nat) + ": "@,
            m,
        ),
        SkadooshError::Tts(TtsError::ModelLoad(_)) => lemma_end_is_kept(
            "failed to load TTS model: "@,
            m,
        ),
        SkadooshError::Tts(TtsError::Phonemize(_)) => lemma_end_is_kept(
            "phonemization failed: "@,
            m,
        ),
        SkadooshError::Tts(TtsError::Inference(_)) => lemma_end_is_kept(
            "TTS inference failed: "@,
            m,
        ),
        SkadooshError::Tts(TtsError::MissingVoices(_)) => lemma_end_is_kept(
            "TTS voices unavailable: "@,
            m,
        ),
        _ => lemma_end_is_kept(Seq::empty(), m),
    }
    assert(Seq::<char>::empty() + m =~= m);
}

} // verus!
