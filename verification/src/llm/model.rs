//! Model registry — known models with their canonical names, system prompts,
//! and default parameters.
//!
//! The model's system prompt is auto-selected by
//! [`LlmClient::from_config`](crate::llm::LlmClient::from_config) when the
//! configured `--llm-model` matches a known model name (and the user hasn't
//! explicitly overridden `--system-prompt`). Unknown models fall back to the
//! generic [`DEFAULT_SYSTEM_PROMPT`](crate::config::DEFAULT_SYSTEM_PROMPT).

use vstd::prelude::*;

use crate::config::DEFAULT_SYSTEM_PROMPT;
use crate::text::str_eq;

verus! {

/// StealthyLM-Emotive — the default local voice-optimised model.
pub const STEALTHYLM: &'static str = "stealthylm";

/// Raw GGUF filename recognised as an alias for the StealthyLM model
/// (Ollama loads GGUF files by name when the file is in the models directory).
pub const STEALTHYLM_GGUF: &'static str = "StealthyLM_Q4KM.gguf";

/// System prompt tailored for StealthyLM-Emotive.
pub const STEALTHYLM_SYSTEM_PROMPT: &'static str = "You are Skadoosh, an expressive voice assistant. Speak in short, natural clauses — one to two sentences per thought. Vary your tone to match the context: warm and empathetic for personal topics, crisp and factual for information. Never use markdown, lists, or formatting — plain speech only. If you don't know something, say so honestly.";

/// Metadata for one known model.
#[derive(Debug, Clone, Copy)]
pub struct KnownModel {
    /// Canonical name passed to the chat-completions API (`--llm-model`).
    pub name: &'static str,
    /// System prompt seeded into the LLM conversation history for this model.
    /// When `None`, the generic default is used.
    pub system_prompt: Option<&'static str>,
    /// Maximum conversation context length in tokens (best-effort; the runtime
    /// may have its own tighter limit). When `None`, the caller's default
    /// applies.
    pub max_context_tokens: Option<usize>,
    /// Whether this model is optimised for emotion-aware TTS. When `true` the
    /// `--tts-emotion` flag is a natural pairing.
    pub emotion_aware: bool,
}

/// Whether `m` describes StealthyLM under the name `name`.
pub open spec fn is_stealthylm(m: KnownModel, name: Seq<char>) -> bool {
    &&& m.name@ == name
    &&& m.system_prompt matches Some(p) && p@ == STEALTHYLM_SYSTEM_PROMPT@
    &&& m.max_context_tokens == Some(32_768usize)
    &&& m.emotion_aware
}

/// Whether a name is one of the known models.
pub open spec fn is_known(name: Seq<char>) -> bool {
    name == STEALTHYLM@ || name == STEALTHYLM_GGUF@
}

fn stealthylm(name: &'static str) -> (r: KnownModel)
    ensures
        is_stealthylm(r, name@),
{
    KnownModel {
        name,
        system_prompt: Some(STEALTHYLM_SYSTEM_PROMPT),
        max_context_tokens: Some(32_768),
        emotion_aware: true,
    }
}

/// All known models.
pub fn known_models() -> (r: Vec<KnownModel>)
    ensures
        r@.len() == 2,
        is_stealthylm(r@[0], STEALTHYLM@),
        is_stealthylm(r@[1], STEALTHYLM_GGUF@),
{
    vec![stealthylm(STEALTHYLM), stealthylm(STEALTHYLM_GGUF)]
}

/// Looks up a known model by its canonical name (case-sensitive).
pub fn find_model(name: &str) -> (r: Option<KnownModel>)
    ensures
        match r {
            Some(m) => is_known(name@) && is_stealthylm(m, name@),
            None => !is_known(name@),
        },
{
    let all = known_models();
    let mut i: usize = 0;
    while i < all.len()
        invariant
            i <= all@.len() == 2,
            is_stealthylm(all@[0], STEALTHYLM@),
            is_stealthylm(all@[1], STEALTHYLM_GGUF@),
            forall|k: int| 0 <= k < i ==> (#[trigger] all@[k]).name@ != name@,
        decreases all@.len() - i,
    {
        if str_eq(all[i].name, name) {
            return Some(all[i]);
        }
        i += 1;
    }
    assert(all@[0].name@ != name@ && all@[1].name@ != name@);
    None
}

/// Returns `true` when the model is optimised for emotion-aware TTS
/// (pairs well with `--tts-emotion`).
pub fn is_emotion_aware(name: &str) -> (r: bool)
    ensures
        r == is_known(name@),
{
    match find_model(name) {
        Some(m) => m.emotion_aware,
        None => false,
    }
}

/// The system prompt of a run: that of a known model where the configured one
/// is the generic default, else the configured one.
pub open spec fn prompt_for(model: Seq<char>, configured: Seq<char>) -> Seq<char> {
    if is_known(model) && configured == DEFAULT_SYSTEM_PROMPT@ {
        STEALTHYLM_SYSTEM_PROMPT@
    } else {
        configured
    }
}

/// The system prompt of a run.
pub fn select_prompt(model: &str, configured: &str) -> (r: String)
    ensures
        r@ == prompt_for(model@, configured@),
{
    match find_model(model) {
        Some(m) => match m.system_prompt {
            Some(prompt) => {
                if str_eq(configured, DEFAULT_SYSTEM_PROMPT) {
                    prompt.to_owned()
                } else {
                    configured.to_owned()
                }
            },
            None => configured.to_owned(),
        },
        None => configured.to_owned(),
    }
}

} // verus!
