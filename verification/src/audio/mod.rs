//! Audio: capture, playback, echo cancellation and hold music.
//!
//! What happens to which samples is decided here; the arithmetic on them
//! (mixing, resampling, synthesis) is done where floats are.

pub mod aec;
pub mod device;
pub mod hold_music;
pub mod input;
pub mod output;
pub mod ring;

pub use aec::AecFilter;
pub use device::list_devices;
pub use hold_music::HoldMusic;
pub use input::{push_block_drop_count, AudioInputConfig, CAPTURE_RATE};
pub use output::{push_clip_blocking, AudioOutputConfig, OutputPump, CLIP_SAMPLE_RATE};
