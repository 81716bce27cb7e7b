//! A local voice agent: speech in, a streamed language-model reply, speech
//! out, with barge-in.
//!
//! This library holds what the agent decides and computes: how sound is cut
//! into utterances, how a reply stream becomes clauses, when a turn is
//! cancelled, how tools are planned and answered, how files and messages are
//! read. Devices, sockets, processes, models and clocks stay outside: their
//! results come in as arguments, and what is to be done with them goes out as
//! values.
//!
//! Samples, probabilities and other floats are held as their bits; an instant
//! is a number of nanoseconds.

pub mod agent;
pub mod audio;
pub mod bytes;
pub mod config;
pub mod error;
pub mod float_bits;
pub mod forward;
pub mod gpu;
pub mod json;
pub mod llm;
pub mod memory;
pub mod mesh;
pub mod milkshake;
pub mod pipeline;
pub mod plugins;
pub mod rag;
pub mod sandbox;
pub mod sorted;
pub mod stt;
pub mod text;
pub mod tools;
pub mod tts;
pub mod vad;
pub mod watch;
pub mod wav;
