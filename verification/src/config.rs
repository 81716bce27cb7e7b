//! Run configuration: the options of the command line, their defaults, and
//! the checks on how they combine.
//!
//! Paths are held as text. The two fractional options are held as the bits of
//! a 32-bit float.

use vstd::prelude::*;

use crate::float_bits::{in_unit_range, is_in_unit_range, HALF_BITS, ONE_BITS};
use crate::json::opt_str;

verus! {

/// Default system prompt seeded into the LLM conversation history.
pub const DEFAULT_SYSTEM_PROMPT: &'static str = "You are a voice assistant. Reply in short, spoken-style sentences. Keep answers under three sentences unless asked for detail.";

/// Output modality of the agent (`--output` / `SKADOOSH_OUTPUT`).
#[derive(Debug, Clone, Copy, PartialEq, Eq, Structural)]
pub enum OutputMode {
    /// Speak replies through the output device (TTS + playback).
    Audio,
    /// Print transcripts and streamed reply clauses on stdout instead of
    /// playing audio (voice-in → text-out). Needs no TTS model and no
    /// output device.
    Text,
}

impl Default for OutputMode {
    fn default() -> (r: Self)
        ensures
            r == OutputMode::Audio,
    {
        OutputMode::Audio
    }
}

/// Command-line configuration for `skadoosh`.
#[derive(Clone)]
pub struct Config {
    /// Image file paths to send with the next user turn.
    pub images: Vec<String>,
    /// Base URL of the OpenAI-compatible LLM API.
    pub llm_url: String,
    /// Model name passed to the chat-completions API.
    pub llm_model: String,
    /// API key for hosted OpenAI-compatible providers. Never logged.
    pub api_key: Option<String>,
    /// System prompt seeded into the LLM conversation history.
    pub system_prompt: String,
    /// Maximum number of trailing user/assistant turns kept in LLM history.
    pub max_history_turns: usize,
    /// Path to the whisper.cpp ggml model.
    pub whisper_model: String,
    /// Path to the Silero VAD ONNX model.
    pub vad_model: String,
    /// Path to the Kokoro TTS ONNX model.
    pub tts_model: Option<String>,
    /// Path to the Kokoro voices bank (`voices.bin`).
    pub tts_voices: Option<String>,
    /// Speech probability threshold for the VAD, in `[0, 1)`, as float bits.
    pub vad_threshold: u32,
    /// Trailing silence (milliseconds) that closes a speech segment.
    pub silence_ms: u32,
    /// Input (capture) device name.
    pub input_device: Option<String>,
    /// Output (playback) device name.
    pub output_device: Option<String>,
    /// List available audio input/output devices and exit.
    pub list_devices: bool,
    /// Force the sine-wave mock TTS engine even if Kokoro files are present.
    pub mock_tts: bool,
    /// Run the headless self-test from a wav file.
    pub selftest: Option<String>,
    /// Interactive text-in/text-out loop on stdin/stdout.
    pub repl: bool,
    /// One-shot text→speech.
    pub say: Option<String>,
    /// Output modality of the voice loop.
    pub output: OutputMode,
    /// With `--say`: write the synthesized speech to this wav file.
    pub out_wav: Option<String>,
    /// Path to a JSON file of tool/function definitions for tool calling.
    pub tools_file: Option<String>,
    /// Maximum tool-calling round-trips before forcing a text response.
    pub max_tool_rounds: usize,
    /// Kokoro TTS voice key.
    pub tts_voice: String,
    /// TTS playback speed multiplier, as float bits.
    pub tts_speed: u32,
    /// Wake word to trigger listening.
    pub wake_word: Option<String>,
    /// Push-to-talk mode.
    pub push_to_talk: bool,
    /// Emotion-aware speech speed.
    pub tts_emotion: bool,
    /// Play a chord progression while tools run.
    pub hold_music: bool,
    /// Endpoint that `forward_call` relays conversations to.
    pub forward_url: Option<String>,
    /// Files to watch for changes.
    pub watch_files: Vec<String>,
    /// Process IDs to watch for exit.
    pub watch_processes: Vec<u32>,
    /// Timer durations in seconds.
    pub watch_timers: Vec<u64>,
    /// Name the agent greets with.
    pub agent_name: Option<String>,
}

/// Whether `c` holds the defaults: bare `skadoosh` with no flags.
pub open spec fn is_default(c: Config) -> bool {
    &&& c.images@ == Seq::<String>::empty()
    &&& c.llm_url@ == "http://localhost:11434/v1"@
    &&& c.llm_model@ == "qwen2.5:0.5b"@
    &&& c.api_key is None
    &&& c.system_prompt@ == DEFAULT_SYSTEM_PROMPT@
    &&& c.max_history_turns == 8
    &&& c.whisper_model@ == "models/ggml-tiny.en.bin"@
    &&& c.vad_model@ == "models/silero_vad.onnx"@
    &&& c.tts_model is None
    &&& c.tts_voices is None
    &&& c.vad_threshold == HALF_BITS
    &&& c.silence_ms == 300
    &&& c.input_device is None
    &&& c.output_device is None
    &&& !c.list_devices
    &&& !c.mock_tts
    &&& c.selftest is None
    &&& !c.repl
    &&& c.say is None
    &&& c.output == OutputMode::Audio
    &&& c.out_wav is None
    &&& c.tools_file is None
    &&& c.max_tool_rounds == 5
    &&& c.tts_voice@ == "af"@
    &&& c.tts_speed == ONE_BITS
    &&& c.wake_word is None
    &&& !c.push_to_talk
    &&& !c.tts_emotion
    &&& !c.hold_music
    &&& c.forward_url is None
    &&& c.watch_files@ == Seq::<String>::empty()
    &&& c.watch_processes@ == Seq::<u32>::empty()
    &&& c.watch_timers@ == Seq::<u64>::empty()
    &&& c.agent_name is None
}

impl Default for Config {
    fn default() -> (r: Self)
        ensures
            is_default(r),
    {
        Config {
            images: Vec::new(),
            llm_url: "http://localhost:11434/v1".to_owned(),
            llm_model: "qwen2.5:0.5b".to_owned(),
            api_key: None,
            system_prompt: DEFAULT_SYSTEM_PROMPT.to_owned(),
            max_history_turns: 8,
            whisper_model: "models/ggml-tiny.en.bin".to_owned(),
            vad_model: "models/silero_vad.onnx".to_owned(),
            tts_model: None,
            tts_voices: None,
            vad_threshold: HALF_BITS,
            silence_ms: 300,
            input_device: None,
            output_device: None,
            list_devices: false,
            mock_tts: false,
            selftest: None,
            repl: false,
            say: None,
            output: OutputMode::Audio,
            out_wav: None,
            tools_file: None,
            max_tool_rounds: 5,
            tts_voice: "af".to_owned(),
            tts_speed: ONE_BITS,
            wake_word: None,
            push_to_talk: false,
            tts_emotion: false,
            hold_music: false,
            forward_url: None,
            watch_files: Vec::new(),
            watch_processes: Vec::new(),
            watch_timers: Vec::new(),
            agent_name: None,
        }
    }
}

/// A run mode that excludes the others.
#[derive(Debug, Clone, Copy, PartialEq, Eq, Structural)]
pub enum RunMode {
    /// `--repl`.
    Repl,
    /// `--say`.
    Say,
    /// `--selftest`.
    Selftest,
}

impl RunMode {
    /// The flag that selects the mode.
    pub open spec fn flag_text(self) -> Seq<char> {
        match self {
            RunMode::Repl => "--repl"@,
            RunMode::Say => "--say"@,
            RunMode::Selftest => "--selftest"@,
        }
    }

    /// The flag that selects the mode.
    pub fn flag(self) -> (r: &'static str)
        ensures
            r@ == self.flag_text(),
    {
        match self {
            RunMode::Repl => "--repl",
            RunMode::Say => "--say",
            RunMode::Selftest => "--selftest",
        }
    }
}

/// Which of the files that a configuration names exist.
#[derive(Debug, Clone, Copy, PartialEq, Eq, Structural)]
pub struct FilesPresent {
    /// The whisper model.
    pub whisper: bool,
    /// The VAD model.
    pub vad: bool,
    /// The self-test wav.
    pub selftest: bool,
    /// The TTS model.
    pub tts_model: bool,
    /// The TTS voices bank.
    pub tts_voices: bool,
}

/// Why a configuration is refused.
#[derive(Debug, Clone, Copy, PartialEq, Eq, Structural)]
pub enum ConfigFault {
    /// `--vad-threshold` lies outside `[0, 1)`.
    VadThreshold,
    /// Two run modes are asked for at once.
    Conflict(RunMode, RunMode),
    /// `--output text` together with `--say`.
    TextWithSay,
    /// `--out-wav` without `--say`.
    OutWavWithoutSay,
    /// The whisper model is missing.
    WhisperModel,
    /// The VAD model is missing.
    VadModel,
    /// The self-test wav is missing.
    SelftestWav,
}

/// An option that has no effect, or a fallback that will be taken.
#[derive(Debug, Clone, Copy, PartialEq, Eq, Structural)]
pub enum ConfigWarning {
    /// `--output audio` has no effect with `--repl`.
    ReplAudio,
    /// `--output text` has no effect with `--selftest`.
    SelftestText,
    /// `--input-device` has no effect with `--say`.
    SayInputDevice,
    /// `--vad-threshold` has no effect with `--say`.
    SayVadThreshold,
    /// `--silence-ms` has no effect with `--say`.
    SaySilence,
    /// No TTS model is configured; the sine-wave mock is used.
    NoTtsModel,
    /// The Kokoro files are absent or incomplete; the sine-wave mock is used.
    TtsFilesIncomplete,
}

/// The run modes that a configuration asks for, in flag order.
pub open spec fn active_modes(c: Config) -> Seq<RunMode> {
    (if c.repl {
        seq![RunMode::Repl]
    } else {
        Seq::empty()
    }) + (if c.say is Some {
        seq![RunMode::Say]
    } else {
        Seq::empty()
    }) + (if c.selftest is Some {
        seq![RunMode::Selftest]
    } else {
        Seq::empty()
    })
}

/// `w` alone where `on`, nothing otherwise.
pub open spec fn warn_if(on: bool, w: ConfigWarning) -> Seq<ConfigWarning> {
    if on {
        seq![w]
    } else {
        Seq::empty()
    }
}

/// Whether a run captures audio, and so needs the whisper and VAD models.
pub open spec fn needs_stt_vad(c: Config) -> bool {
    !c.repl && c.say is None
}

/// Whether a run speaks.
pub open spec fn needs_tts(c: Config) -> bool {
    c.say is Some || (!c.repl && c.output == OutputMode::Audio)
}

/// The fault of a configuration, if it has one: the first that applies.
pub open spec fn fault_of(c: Config, f: FilesPresent) -> Option<ConfigFault> {
    if c.list_devices {
        None
    } else if !in_unit_range(c.vad_threshold) {
        Some(ConfigFault::VadThreshold)
    } else if active_modes(c).len() >= 2 {
        Some(ConfigFault::Conflict(active_modes(c)[0], active_modes(c)[1]))
    } else if c.say is Some && c.output == OutputMode::Text {
        Some(ConfigFault::TextWithSay)
    } else if c.out_wav is Some && c.say is None {
        Some(ConfigFault::OutWavWithoutSay)
    } else if needs_stt_vad(c) && !f.whisper {
        Some(ConfigFault::WhisperModel)
    } else if needs_stt_vad(c) && !f.vad {
        Some(ConfigFault::VadModel)
    } else if c.selftest is Some && !f.selftest {
        Some(ConfigFault::SelftestWav)
    } else {
        None
    }
}

/// What is worth a warning in a configuration without a fault.
pub open spec fn warnings_of(c: Config, f: FilesPresent) -> Seq<ConfigWarning> {
    if c.list_devices {
        Seq::empty()
    } else {
        let speaks = needs_tts(c) && !c.mock_tts;
        let none = c.tts_model is None && c.tts_voices is None;
        let complete = c.tts_model is Some && c.tts_voices is Some && f.tts_model && f.tts_voices;
        warn_if(c.repl && c.output == OutputMode::Audio, ConfigWarning::ReplAudio) + warn_if(
            c.selftest is Some && c.output == OutputMode::Text,
            ConfigWarning::SelftestText,
        ) + warn_if(c.say is Some && c.input_device is Some, ConfigWarning::SayInputDevice)
            + warn_if(
            c.say is Some && c.vad_threshold != HALF_BITS,
            ConfigWarning::SayVadThreshold,
        ) + warn_if(c.say is Some && c.silence_ms != 300, ConfigWarning::SaySilence) + warn_if(
            speaks && none,
            ConfigWarning::NoTtsModel,
        ) + warn_if(speaks && !none && !complete, ConfigWarning::TtsFilesIncomplete)
    }
}

fn note(out: &mut Vec<ConfigWarning>, on: bool, w: ConfigWarning)
    ensures
        final(out)@ == old(out)@ + warn_if(on, w),
{
    if on {
        out.push(w);
    }
    assert(out@ =~= old(out)@ + warn_if(on, w));
}

impl Config {
    /// Validates the configuration:
    ///
    /// * `--vad-threshold` must lie in `[0, 1)`.
    /// * `--repl` conflicts with `--say` and `--selftest`; `--say` conflicts
    ///   with `--selftest` and `--output text`; `--out-wav` requires
    ///   `--say`.
    /// * Whisper/VAD model files must exist when the run uses them — i.e.
    ///   for the voice loop and `--selftest`, but not for `--repl`/`--say`
    ///   (except for `--list-devices`, which skips all checks).
    /// * The `--selftest` wav must exist when given.
    /// * Missing Kokoro files only produce a warning.
    pub fn validate(&self, files: FilesPresent) -> (r: Result<Vec<ConfigWarning>, ConfigFault>)
        ensures
            match r {
                Ok(w) => fault_of(*self, files) is None && w@ == warnings_of(*self, files),
                Err(e) => fault_of(*self, files) == Some(e),
            },
    {
        let mut warnings: Vec<ConfigWarning> = Vec::new();
        if self.list_devices {
            return Ok(warnings);
        }
        if !is_in_unit_range(self.vad_threshold) {
            return Err(ConfigFault::VadThreshold);
        }
        let mut active: Vec<RunMode> = Vec::new();
        if self.repl {
            active.push(RunMode::Repl);
        }
        if self.say.is_some() {
            active.push(RunMode::Say);
        }
        if self.selftest.is_some() {
            active.push(RunMode::Selftest);
        }
        assert(active@ =~= active_modes(*self));
        if active.len() >= 2 {
            return Err(ConfigFault::Conflict(active[0], active[1]));
        }
        if self.say.is_some() && self.output == OutputMode::Text {
            return Err(ConfigFault::TextWithSay);
        }
        if self.out_wav.is_some() && self.say.is_none() {
            return Err(ConfigFault::OutWavWithoutSay);
        }
        let say = self.say.is_some();
        note(
            &mut warnings,
            self.repl && self.output == OutputMode::Audio,
            ConfigWarning::ReplAudio,
        );
        note(
            &mut warnings,
            self.selftest.is_some() && self.output == OutputMode::Text,
            ConfigWarning::SelftestText,
        );
        note(&mut warnings, say && self.input_device.is_some(), ConfigWarning::SayInputDevice);
        note(
            &mut warnings,
            say && self.vad_threshold != HALF_BITS,
            ConfigWarning::SayVadThreshold,
        );
        note(&mut warnings, say && self.silence_ms != 300, ConfigWarning::SaySilence);
        let captures = !self.repl && !say;
        if captures && !files.whisper {
            return Err(ConfigFault::WhisperModel);
        }
        if captures && !files.vad {
            return Err(ConfigFault::VadModel);
        }
        if self.selftest.is_some() && !files.selftest {
            return Err(ConfigFault::SelftestWav);
        }
        let speaks = (say || (!self.repl && self.output == OutputMode::Audio)) && !self.mock_tts;
        let none = self.tts_model.is_none() && self.tts_voices.is_none();
        let complete = self.tts_model.is_some() && self.tts_voices.is_some() && files.tts_model
            && files.tts_voices;
        note(&mut warnings, speaks && none, ConfigWarning::NoTtsModel);
        note(&mut warnings, speaks && !none && !complete, ConfigWarning::TtsFilesIncomplete);
        assert(warnings@ =~= warnings_of(*self, files));
        Ok(warnings)
    }
}

impl ConfigFault {
    /// What [`message`](Self::message) writes.
    pub open spec fn text(self, c: Config, threshold: Seq<char>) -> Seq<char> {
        match self {
            ConfigFault::VadThreshold => "--vad-threshold must be in [0, 1), got "@ + threshold,
            ConfigFault::Conflict(first, second) => first.flag_text() + " and "@
                + second.flag_text() + " cannot be combined"@,
            ConfigFault::TextWithSay =>
            "--output text conflicts with --say (a spoken reply needs audio output)"@,
            ConfigFault::OutWavWithoutSay =>
            "--out-wav is only meaningful together with --say"@,
            ConfigFault::WhisperModel => "--whisper-model not found: "@ + c.whisper_model@
                + " (run scripts/download_models.sh)"@,
            ConfigFault::VadModel => "--vad-model not found: "@ + c.vad_model@
                + " (run scripts/download_models.sh)"@,
            ConfigFault::SelftestWav => "--selftest wav not found: "@ + (match c.selftest {
                Some(p) => p@,
                None => Seq::empty(),
            }),
        }
    }

    /// The fault in words; `threshold` is the threshold written as a number.
    pub fn message(self, config: &Config, threshold: &str) -> (r: String)
        ensures
            r@ == self.text(*config, threshold@),
    {
        match self {
            ConfigFault::VadThreshold => "--vad-threshold must be in [0, 1), got ".to_owned().concat(
                threshold,
            ),
            ConfigFault::Conflict(first, second) => first.flag().to_owned().concat(" and ").concat(
                second.flag(),
            ).concat(" cannot be combined"),
            ConfigFault::TextWithSay =>
            "--output text conflicts with --say (a spoken reply needs audio output)".to_owned(),
            ConfigFault::OutWavWithoutSay =>
            "--out-wav is only meaningful together with --say".to_owned(),
            ConfigFault::WhisperModel => "--whisper-model not found: ".to_owned().concat(
                config.whisper_model.as_str(),
            ).concat(" (run scripts/download_models.sh)"),
            ConfigFault::VadModel => "--vad-model not found: ".to_owned().concat(
                config.vad_model.as_str(),
            ).concat(" (run scripts/download_models.sh)"),
            ConfigFault::SelftestWav => {
                let path = match &config.selftest {
                    Some(p) => p.as_str(),
                    None => "",
                };
                proof {
                    reveal_strlit("");
                    assert(""@ =~= Seq::<char>::empty());
                }
                "--selftest wav not found: ".to_owned().concat(path)
            },
        }
    }
}

// ---------------------------------------------------------------------------
// What a configuration shows of itself
// ---------------------------------------------------------------------------

/// A field of a configuration, as it is shown in logs.
#[derive(Debug)]
pub enum FieldValue {
    /// A text.
    Text(String),
    /// An optional text.
    Optional(Option<String>),
    /// A list of texts.
    Texts(Vec<String>),
    /// A number.
    Count(u64),
    /// A list of numbers.
    Counts(Vec<u64>),
    /// The bits of a float.
    FloatBits(u32),
    /// A switch.
    Flag(bool),
    /// The output modality.
    Mode(OutputMode),
}

/// The view of a [`FieldValue`].
#[verifier::ext_equal]
pub enum FieldView {
    /// A text.
    Text(Seq<char>),
    /// An optional text.
    Optional(Option<Seq<char>>),
    /// A list of texts.
    Texts(Seq<Seq<char>>),
    /// A number.
    Count(nat),
    /// A list of numbers.
    Counts(Seq<nat>),
    /// The bits of a float.
    FloatBits(u32),
    /// A switch.
    Flag(bool),
    /// The output modality.
    Mode(OutputMode),
}

impl View for FieldValue {
    type V = FieldView;

    open spec fn view(&self) -> FieldView {
        match *self {
            FieldValue::Text(s) => FieldView::Text(s@),
            FieldValue::Optional(s) => FieldView::Optional(opt_str(s)),
            FieldValue::Texts(v) => FieldView::Texts(crate::text::strs(v@)),
            FieldValue::Count(n) => FieldView::Count(n as nat),
            FieldValue::Counts(v) => FieldView::Counts(v@.map_values(|n: u64| n as nat)),
            FieldValue::FloatBits(b) => FieldView::FloatBits(b),
            FieldValue::Flag(b) => FieldView::Flag(b),
            FieldValue::Mode(m) => FieldView::Mode(m),
        }
    }
}

/// The names and views of a list of fields.
pub open spec fn fields(v: Seq<(&'static str, FieldValue)>) -> Seq<(Seq<char>, FieldView)> {
    v.map_values(|f: (&'static str, FieldValue)| (f.0@, f.1@))
}

/// What stands for the API key: a fixed word where there is one.
pub open spec fn redacted(key: Option<String>) -> Option<Seq<char>> {
    match key {
        Some(_) => Some("<redacted>"@),
        None => None,
    }
}

/// Every field of `c` under its name, the API key redacted.
pub open spec fn shown_fields(c: Config) -> Seq<(Seq<char>, FieldView)> {
    seq![
        ("images"@, FieldView::Texts(crate::text::strs(c.images@))),
        ("llm_url"@, FieldView::Text(c.llm_url@)),
        ("llm_model"@, FieldView::Text(c.llm_model@)),
        ("api_key"@, FieldView::Optional(redacted(c.api_key))),
        ("system_prompt"@, FieldView::Text(c.system_prompt@)),
        ("max_history_turns"@, FieldView::Count(c.max_history_turns as nat)),
        ("whisper_model"@, FieldView::Text(c.whisper_model@)),
        ("vad_model"@, FieldView::Text(c.vad_model@)),
        ("tts_model"@, FieldView::Optional(opt_str(c.tts_model))),
        ("tts_voices"@, FieldView::Optional(opt_str(c.tts_voices))),
        ("vad_threshold"@, FieldView::FloatBits(c.vad_threshold)),
        ("silence_ms"@, FieldView::Count(c.silence_ms as nat)),
        ("input_device"@, FieldView::Optional(opt_str(c.input_device))),
        ("output_device"@, FieldView::Optional(opt_str(c.output_device))),
        ("list_devices"@, FieldView::Flag(c.list_devices)),
        ("mock_tts"@, FieldView::Flag(c.mock_tts)),
        ("selftest"@, FieldView::Optional(opt_str(c.selftest))),
        ("repl"@, FieldView::Flag(c.repl)),
        ("say"@, FieldView::Optional(opt_str(c.say))),
        ("output"@, FieldView::Mode(c.output)),
        ("out_wav"@, FieldView::Optional(opt_str(c.out_wav))),
        ("tools_file"@, FieldView::Optional(opt_str(c.tools_file))),
        ("max_tool_rounds"@, FieldView::Count(c.max_tool_rounds as nat)),
        ("tts_voice"@, FieldView::Text(c.tts_voice@)),
        ("tts_speed"@, FieldView::FloatBits(c.tts_speed)),
        ("wake_word"@, FieldView::Optional(opt_str(c.wake_word))),
        ("push_to_talk"@, FieldView::Flag(c.push_to_talk)),
        ("tts_emotion"@, FieldView::Flag(c.tts_emotion)),
        ("hold_music"@, FieldView::Flag(c.hold_music)),
        ("forward_url"@, FieldView::Optional(opt_str(c.forward_url))),
        ("watch_files"@, FieldView::Texts(crate::text::strs(c.watch_files@))),
        (
            "watch_processes"@,
            FieldView::Counts(c.watch_processes@.map_values(|p: u32| p as nat)),
        ),
        ("watch_timers"@, FieldView::Counts(c.watch_timers@.map_values(|t: u64| t as nat))),
        ("agent_name"@, FieldView::Optional(opt_str(c.agent_name))),
    ]
}

fn opt_field(s: &Option<String>) -> (r: FieldValue)
    ensures
        r@ == FieldView::Optional(opt_str(*s)),
{
    match s {
        Some(s) => FieldValue::Optional(Some(s.clone())),
        None => FieldValue::Optional(None),
    }
}

fn texts_field(v: &Vec<String>) -> (r: FieldValue)
    ensures
        r@ == FieldView::Texts(crate::text::strs(v@)),
{
    let copy = crate::text::clone_strings(v);
    FieldValue::Texts(copy)
}

fn counts_field(v: &Vec<u32>) -> (r: FieldValue)
    ensures
        r@ == FieldView::Counts(v@.map_values(|p: u32| p as nat)),
{
    let mut out: Vec<u64> = Vec::new();
    let mut i: usize = 0;
    while i < v.len()
        invariant
            i <= v@.len(),
            out@.len() == i,
            forall|k: int| 0 <= k < i ==> out@[k] == v@[k],
        decreases v@.len() - i,
    {
        out.push(v[i] as u64);
        i += 1;
    }
    assert(out@.map_values(|n: u64| n as nat) =~= v@.map_values(|p: u32| p as nat));
    FieldValue::Counts(out)
}

impl Config {
    /// Every field under its name, except `api_key`, which is redacted — the
    /// flag documents "never logged".
    #[verifier::rlimit(40)]
    pub fn fmt(&self) -> (r: Vec<(&'static str, FieldValue)>)
        ensures
            fields(r@) == shown_fields(*self),
    {
        let key = match &self.api_key {
            Some(_) => FieldValue::Optional(Some("<redacted>".to_owned())),
            None => FieldValue::Optional(None),
        };
        let timers = FieldValue::Counts(self.watch_timers.clone());
        assert(timers@ =~= FieldView::Counts(self.watch_timers@.map_values(|t: u64| t as nat)));
        let mut out: Vec<(&'static str, FieldValue)> = Vec::new();
        out.push(("images", texts_field(&self.images)));
        out.push(("llm_url", FieldValue::Text(self.llm_url.clone())));
        out.push(("llm_model", FieldValue::Text(self.llm_model.clone())));
        out.push(("api_key", key));
        out.push(("system_prompt", FieldValue::Text(self.system_prompt.clone())));
        out.push(("max_history_turns", FieldValue::Count(self.max_history_turns as u64)));
        out.push(("whisper_model", FieldValue::Text(self.whisper_model.clone())));
        out.push(("vad_model", FieldValue::Text(self.vad_model.clone())));
        out.push(("tts_model", opt_field(&self.tts_model)));
        out.push(("tts_voices", opt_field(&self.tts_voices)));
        out.push(("vad_threshold", FieldValue::FloatBits(self.vad_threshold)));
        out.push(("silence_ms", FieldValue::Count(self.silence_ms as u64)));
        out.push(("input_device", opt_field(&self.input_device)));
        out.push(("output_device", opt_field(&self.output_device)));
        out.push(("list_devices", FieldValue::Flag(self.list_devices)));
        out.push(("mock_tts", FieldValue::Flag(self.mock_tts)));
        out.push(("selftest", opt_field(&self.selftest)));
        out.push(("repl", FieldValue::Flag(self.repl)));
        out.push(("say", opt_field(&self.say)));
        out.push(("output", FieldValue::Mode(self.output)));
        out.push(("out_wav", opt_field(&self.out_wav)));
        out.push(("tools_file", opt_field(&self.tools_file)));
        out.push(("max_tool_rounds", FieldValue::Count(self.max_tool_rounds as u64)));
        out.push(("tts_voice", FieldValue::Text(self.tts_voice.clone())));
        out.push(("tts_speed", FieldValue::FloatBits(self.tts_speed)));
        out.push(("wake_word", opt_field(&self.wake_word)));
        out.push(("push_to_talk", FieldValue::Flag(self.push_to_talk)));
        out.push(("tts_emotion", FieldValue::Flag(self.tts_emotion)));
        out.push(("hold_music", FieldValue::Flag(self.hold_music)));
        out.push(("forward_url", opt_field(&self.forward_url)));
        out.push(("watch_files", texts_field(&self.watch_files)));
        out.push(("watch_processes", counts_field(&self.watch_processes)));
        out.push(("watch_timers", timers));
        out.push(("agent_name", opt_field(&self.agent_name)));
        assert(fields(out@) =~= shown_fields(*self));
        out
    }
}

/// No character of the API key is ever shown: whatever the key is, the shown
/// fields are the same.
pub proof fn law_key_is_never_shown(c: Config, key: String, other: String)
    ensures
        shown_fields(Config { api_key: Some(key), ..c }) == shown_fields(
            Config { api_key: Some(other), ..c },
        ),
{
}

/// Listing devices skips every check.
pub proof fn law_listing_devices_skips_checks(c: Config, f: FilesPresent)
    requires
        c.list_devices,
    ensures
        fault_of(c, f) is None,
{
}

/// A run that captures no audio (`--repl` or `--say`) needs no whisper or VAD
/// model file.
pub proof fn law_headless_modes_need_no_models(c: Config, f: FilesPresent)
    requires
        c.repl || c.say is Some,
    ensures
        fault_of(c, f) == fault_of(c, FilesPresent { whisper: true, vad: true, ..f }),
{
}

/// Which configurations are accepted: the threshold is a probability below one,
/// at most one of the three modes is asked for, speaking a text goes with audio
/// output and is what a file of speech needs, and the files that the run reads
/// are there. Every other one is refused, but for a listing of devices.
pub proof fn law_sound_configurations_are_accepted(c: Config, f: FilesPresent)
    requires
        !c.list_devices,
    ensures
        fault_of(c, f) is None <==> {
            &&& in_unit_range(c.vad_threshold)
            &&& !(c.repl && c.say is Some)
            &&& !(c.repl && c.selftest is Some)
            &&& !(c.say is Some && c.selftest is Some)
            &&& c.say is Some ==> c.output == OutputMode::Audio
            &&& c.out_wav is Some ==> c.say is Some
            &&& !c.repl && c.say is None ==> f.whisper && f.vad
            &&& c.selftest is Some ==> f.selftest
        },
{
}

/// A fault names what is wrong: two modes that are both asked for, a file that
/// is missing, an option that lacks its partner.
pub proof fn law_faults_are_real(c: Config, f: FilesPresent)
    ensures
        match fault_of(c, f) {
            Some(ConfigFault::VadThreshold) => !in_unit_range(c.vad_threshold),
            Some(ConfigFault::Conflict(first, second)) => first != second && {
                &&& first == RunMode::Repl || second == RunMode::Repl ==> c.repl
                &&& first == RunMode::Say || second == RunMode::Say ==> c.say is Some
                &&& first == RunMode::Selftest || second == RunMode::Selftest ==> c.selftest is Some
            },
            Some(ConfigFault::TextWithSay) => c.say is Some && c.output == OutputMode::Text,
            Some(ConfigFault::OutWavWithoutSay) => c.out_wav is Some && c.say is None,
            Some(ConfigFault::WhisperModel) => !f.whisper && !c.repl && c.say is None,
            Some(ConfigFault::VadModel) => !f.vad && !c.repl && c.say is None,
            Some(ConfigFault::SelftestWav) => !f.selftest && c.selftest is Some,
            None => true,
        },
{
}

/// A configuration that speaks without voice files is warned of, once, and one
/// that does not speak, or speaks with all of its files or with the mock, is
/// not.
pub proof fn law_missing_voices_are_warned_of(c: Config, f: FilesPresent)
    requires
        !c.list_devices,
    ensures
        ({
            let speaks = (c.say is Some || !c.repl && c.output == OutputMode::Audio) && !c.mock_tts;
            let w = warnings_of(c, f);
            let complete = c.tts_model is Some && c.tts_voices is Some && f.tts_model
                && f.tts_voices;
            &&& speaks && c.tts_model is None && c.tts_voices is None ==> w.len() > 0 && w.last()
                == ConfigWarning::NoTtsModel
            &&& speaks && !complete && (c.tts_model is Some || c.tts_voices is Some) ==> w.len() > 0
                && w.last() == ConfigWarning::TtsFilesIncomplete
            &&& !speaks || complete ==> w.len() == 0 || (w.last() != ConfigWarning::NoTtsModel
                && w.last() != ConfigWarning::TtsFilesIncomplete)
        }),
{
    let a = warn_if(c.repl && c.output == OutputMode::Audio, ConfigWarning::ReplAudio);
    let b = warn_if(
        c.selftest is Some && c.output == OutputMode::Text,
        ConfigWarning::SelftestText,
    );
    let d = warn_if(c.say is Some && c.input_device is Some, ConfigWarning::SayInputDevice);
    let e = warn_if(
        c.say is Some && c.vad_threshold != HALF_BITS,
        ConfigWarning::SayVadThreshold,
    );
    let g = warn_if(c.say is Some && c.silence_ms != 300, ConfigWarning::SaySilence);
    let all = a + b + d + e + g;
    let w = warnings_of(c, f);
    let speaks = needs_tts(c) && !c.mock_tts;
    let none = c.tts_model is None && c.tts_voices is None;
    let complete = c.tts_model is Some && c.tts_voices is Some && f.tts_model && f.tts_voices;
    assert(w == all + warn_if(speaks && none, ConfigWarning::NoTtsModel) + warn_if(
        speaks && !none && !complete,
        ConfigWarning::TtsFilesIncomplete,
    ));
    if !speaks || complete {
        assert(w =~= all);
    }
}

} // verus!
