//! Microphone capture: what the input callback does with a block of samples.
//!
//! The callback mixes to mono, resamples to 16 kHz and pushes into a ring of
//! 30 s. Overflow policy: drop the incoming block and count its samples.

use vstd::prelude::*;

use super::device::{negotiate_config, negotiated, ConfigRange, SupportedConfig};
use super::ring::{ready, room, sample_ring, sent, taken, RingConsumer, RingProducer};
use crate::error::AudioError;

verus! {

/// Internal capture rate: the ring, VAD, and STT all run at 16 kHz mono.
pub const CAPTURE_RATE: u32 = 16_000;

/// Mic ring capacity: 30 s at 16 kHz.
pub const MIC_RING_CAPACITY: usize = 480_000;

/// Bound on mono frames mixed per resampler call inside the callback. The
/// backend picks the period and could in principle deliver arbitrarily large
/// blocks; the callback therefore processes input in bounded sub-chunks and
/// the preallocated scratch can never grow on the real-time thread.
pub const CALLBACK_CHUNK_FRAMES: usize = 1024;

/// Configuration for microphone capture.
#[derive(Debug, Clone)]
pub struct AudioInputConfig {
    /// Input device name; `None` selects the default input device.
    pub device_name: Option<String>,
}

impl Default for AudioInputConfig {
    fn default() -> (r: Self)
        ensures
            r.device_name is None,
    {
        AudioInputConfig { device_name: None }
    }
}

/// Capacity for the resampler output scratch: the resampler reserves
/// `len * CAPTURE_RATE / device_rate + 2` per call, and calls never exceed
/// [`CALLBACK_CHUNK_FRAMES`] input samples.
pub fn out_scratch_capacity(device_rate: u32) -> (r: usize)
    ensures
        r == 16_384_000int / (if device_rate == 0 {
            1int
        } else {
            device_rate as int
        }) + 8,
{
    let rate: u32 = if device_rate == 0 {
        1
    } else {
        device_rate
    };
    assert(16_384_000int / rate as int <= 16_384_000) by (nonlinear_arith)
        requires
            rate >= 1,
    ;
    (16_384_000u32 / rate) as usize + 8
}

/// Makes the ring that the callback pushes into and the VAD drains.
pub fn mic_ring() -> (r: (RingProducer, RingConsumer))
    ensures
        sent(r.0) == Seq::<u32>::empty(),
        room(r.0) == MIC_RING_CAPACITY,
        taken(r.1) == Seq::<u32>::empty(),
        ready(r.1) == 0,
{
    sample_ring(MIC_RING_CAPACITY)
}

/// The configuration that capture opens a device in: the closest one to 16
/// kHz, f32 preferred, with any channel count.
pub fn capture_config(ranges: &Vec<ConfigRange>) -> (r: Result<SupportedConfig, AudioError>)
    ensures
        match negotiated(ranges@, CAPTURE_RATE) {
            Some(c) => r == Ok::<SupportedConfig, AudioError>(c),
            None => match r {
                Err(AudioError::StreamConfig(m)) => m@
                    == "device offers no f32/i16/u16 input configuration"@,
                _ => false,
            },
        },
{
    match negotiate_config(ranges, CAPTURE_RATE) {
        Some(c) => Ok(c),
        None => Err(
            AudioError::StreamConfig(
                "device offers no f32/i16/u16 input configuration".to_owned(),
            ),
        ),
    }
}

/// A part of a block that is mixed and resampled in one go.
#[derive(Debug, Clone, Copy, PartialEq, Eq, Structural)]
pub struct InputChunk {
    /// Where it begins, in samples.
    pub start: usize,
    /// Where it ends.
    pub end: usize,
    /// How many frames it holds: one sample of each channel.
    pub frames: usize,
}

/// The number of interleaved channels that a block is read with.
pub open spec fn channel_count(channels: u16) -> int {
    if channels == 0 {
        1
    } else {
        channels as int
    }
}

/// The part of a block of `len` samples that is processed next after `at`
/// samples: as many whole frames as the scratch holds, or what is left.
pub fn next_chunk(len: usize, at: usize, channels: u16) -> (r: Option<InputChunk>)
    ensures
        match r {
            None => at >= len,
            Some(c) => at < len && c.start == at && c.end == (if len - at < channel_count(channels)
                * 1024 {
                len as int
            } else {
                at + channel_count(channels) * 1024
            }) && c.frames == (c.end - c.start) / channel_count(channels) && c.frames
                <= CALLBACK_CHUNK_FRAMES,
        },
{
    if at >= len {
        return None;
    }
    let channels: usize = if channels == 0 {
        1
    } else {
        channels as usize
    };
    let most: usize = channels * CALLBACK_CHUNK_FRAMES;
    let end: usize = if len - at < most {
        len
    } else {
        at + most
    };
    let taken: usize = end - at;
    let frames: usize = taken / channels;
    assert(frames <= 1024) by (nonlinear_arith)
        requires
            frames == taken / channels,
            taken <= channels * 1024,
            channels > 0,
    ;
    Some(InputChunk { start: at, end, frames })
}

/// What becomes of a block of `len` samples where `vacant` places are free.
#[derive(Debug, Clone, Copy, PartialEq, Eq, Structural)]
pub enum BlockFate {
    /// There is nothing in it.
    Empty,
    /// It is dropped entirely.
    Dropped,
    /// It is pushed.
    Pushed,
}

/// What becomes of a block of `len` samples where `vacant` places are free.
pub fn block_fate(vacant: usize, len: usize) -> (r: BlockFate)
    ensures
        r == (if len == 0 {
            BlockFate::Empty
        } else if vacant < len {
            BlockFate::Dropped
        } else {
            BlockFate::Pushed
        }),
{
    if len == 0 {
        BlockFate::Empty
    } else if vacant < len {
        BlockFate::Dropped
    } else {
        BlockFate::Pushed
    }
}

/// Pushes a resampled block into the mic ring. When the ring lacks capacity
/// for the whole block, the block is dropped entirely and `dropped` goes up by
/// its length: no block is ever torn.
pub fn push_block_drop_count(prod: &mut RingProducer, block: &Vec<u32>, dropped: &mut u64)
    ensures
        block@.len() <= room(*old(prod)) ==> sent(*final(prod)) == sent(*old(prod)) + block@
            && *final(dropped) == *old(dropped),
        (sent(*final(prod)) == sent(*old(prod)) + block@ && *final(dropped) == *old(dropped)) || (
        block@.len() > 0 && sent(*final(prod)) == sent(*old(prod)) && *final(dropped) == (*old(dropped)).wrapping_add(block@.len() as u64)),
{
    let vacant: usize = prod.vacant();
    match block_fate(vacant, block.len()) {
        BlockFate::Empty => {
            assert(sent(*prod) + block@ =~= sent(*prod));
        },
        BlockFate::Dropped => {
            *dropped = (*dropped).wrapping_add(block.len() as u64);
        },
        BlockFate::Pushed => {
            let _pushed: usize = prod.push(block.as_slice());
            assert(_pushed == block@.len());
            assert(block@.take(block@.len() as int) =~= block@);
        },
    }
}

} // verus!
