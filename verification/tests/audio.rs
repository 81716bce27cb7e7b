//! Capture, playback, echo cancellation and hold music.

use skadoosh::audio::aec::{reference_frame, AecFilter, AecStep};
use skadoosh::audio::device::{
    config_ranges, device_name, negotiate_config, pick_device, BufferRange, ConfigRange,
    DevicePick, SampleFormat,
};
use skadoosh::audio::hold_music::{HoldMusic, CHORD_SAMPLES, FADE_SAMPLES, MAX_CHUNK};
use skadoosh::audio::input::{
    block_fate, capture_config, mic_ring, next_chunk, out_scratch_capacity, BlockFate,
    CALLBACK_CHUNK_FRAMES, CAPTURE_RATE, MIC_RING_CAPACITY,
};
use skadoosh::audio::output::{
    output_plan, playback_ring, playback_step, pull_count, scratch_capacities, ClipPush,
    PlaybackEvent, PlaybackStep, PumpStep, PushStep, PLAYBACK_RING_CAPACITY,
};
use skadoosh::audio::ring::{sample_ring, RingConsumer, RingProducer};
use skadoosh::audio::{
    list_devices, push_block_drop_count, push_clip_blocking, AudioInputConfig, AudioOutputConfig,
    OutputPump,
};
use skadoosh::error::AudioError;
use skadoosh::tts::TtsClip;

/// A linear resampler with a phase that carries over from block to block.
struct Resampler {
    src: u32,
    dst: u32,
    step: f64,
    phase: f64,
    last: f32,
}

impl Resampler {
    fn new(src: u32, dst: u32) -> Self {
        Resampler {
            src,
            dst,
            step: src as f64 / dst as f64,
            phase: 0.0,
            last: 0.0,
        }
    }

    fn process(&mut self, input: &[u32], out: &mut Vec<u32>) {
        out.clear();
        if self.src == self.dst {
            out.extend_from_slice(input);
            return;
        }
        out.reserve((input.len() as f64 / self.step) as usize + 2);
        let at = |i: isize, last: f32| {
            if i < 0 {
                last
            } else {
                f32::from_bits(input[i as usize])
            }
        };
        let mut pos = self.phase;
        while (pos.floor() as isize) < input.len() as isize - 1 {
            let i = pos.floor() as isize;
            let frac = (pos - i as f64) as f32;
            let a = at(i, self.last);
            let b = at(i + 1, self.last);
            out.push((a + frac * (b - a)).to_bits());
            pos += self.step;
        }
        self.phase = pos - input.len() as f64;
        if let Some(&last) = input.last() {
            self.last = f32::from_bits(last);
        }
    }
}

/// Renders one period; returns whether anything but silence was put out.
fn render(
    pump: &mut OutputPump,
    resampler: &mut Resampler,
    block: &mut Vec<u32>,
    epoch: u64,
    out: &mut Vec<u32>,
) -> bool {
    pump.begin(epoch, out);
    loop {
        match pump.render(out) {
            PumpStep::Done { playing } => return playing,
            PumpStep::Resample => {
                resampler.process(&pump.ring_scratch, block);
                pump.resampled(block, out);
            }
        }
    }
}

fn test_pump(device_rate: u32, max_period_frames: usize) -> (RingProducer, OutputPump) {
    let (prod, cons) = playback_ring();
    (prod, OutputPump::new(cons, device_rate, max_period_frames, 0))
}

/// What the input callback owns.
struct CallbackState {
    prod: RingProducer,
    cons: RingConsumer,
    resampler: Resampler,
    mono: Vec<u32>,
    out: Vec<u32>,
    channels: u16,
    dropped: u64,
}

fn test_state(device_rate: u32, channels: u16) -> CallbackState {
    let (prod, cons) = mic_ring();
    CallbackState {
        prod,
        cons,
        resampler: Resampler::new(device_rate, CAPTURE_RATE),
        mono: Vec::with_capacity(CALLBACK_CHUNK_FRAMES),
        out: Vec::with_capacity(out_scratch_capacity(device_rate)),
        channels,
        dropped: 0,
    }
}

/// One callback period: converts and mixes to mono, resamples to 16 kHz and
/// pushes into the ring, chunk by chunk.
fn process_input_block(state: &mut CallbackState, data: &[f32], convert: fn(f32) -> f32) {
    let channels = state.channels.max(1) as usize;
    let mut at = 0;
    while let Some(chunk) = next_chunk(data.len(), at, state.channels) {
        state.mono.clear();
        let samples = &data[chunk.start..chunk.end];
        if channels == 1 {
            state.mono.extend(samples.iter().map(|&s| convert(s).to_bits()));
        } else {
            state.mono.extend((0..chunk.frames).map(|frame| {
                let mut acc = 0.0f32;
                for &sample in &samples[frame * channels..(frame + 1) * channels] {
                    acc += convert(sample);
                }
                (acc / channels as f32).to_bits()
            }));
        }
        state.resampler.process(&state.mono, &mut state.out);
        push_block_drop_count(&mut state.prod, &state.out, &mut state.dropped);
        at = chunk.end;
    }
}

/// A callback block far larger than the scratch (50 000 stereo frames ≫
/// 8192) must not grow the preallocated scratch Vecs: the RT path is
/// allocation-free for any block size.
#[test]
fn huge_callback_block_does_not_grow_scratch() {
    let mut state = test_state(48_000, 2);
    let mono_cap = state.mono.capacity();
    let out_cap = state.out.capacity();
    let block = vec![0.1f32; 100_000]; // 50 000 stereo frames
    process_input_block(&mut state, &block, |s| s * 2.0);
    process_input_block(&mut state, &block, |s| s * 2.0);
    assert_eq!(state.mono.capacity(), mono_cap, "mono scratch grew");
    assert_eq!(state.out.capacity(), out_cap, "resampler scratch grew");
    // 100 000 stereo frames → 100 000 mono → 16 kHz ≈ 33 333 samples.
    let pushed = state.cons.occupied();
    assert!(
        (pushed as isize - 33_333).abs() <= 8,
        "expected ≈33 333 ringed samples, got {pushed}"
    );
    assert_eq!(state.dropped, 0);
}

/// Mono fast path: same guarantee, and the f32 conversion is applied.
#[test]
fn huge_mono_block_does_not_grow_scratch() {
    let mut state = test_state(16_000, 1);
    let mono_cap = state.mono.capacity();
    let out_cap = state.out.capacity();
    let block = vec![0.25f32; 100_001]; // odd length, identity ratio
    process_input_block(&mut state, &block, |s| s);
    assert_eq!(state.mono.capacity(), mono_cap);
    assert_eq!(state.out.capacity(), out_cap);
    assert_eq!(state.cons.occupied(), 100_001);
}

/// Renders at or below the negotiated period must never grow the preallocated
/// scratch (steady-state no-alloc on the RT thread).
#[test]
fn render_within_period_hint_does_not_grow_scratch() {
    let (mut prod, mut pump) = test_pump(48_000, 512);
    let mut resampler = Resampler::new(24_000, 48_000);
    let ring_cap = pump.ring_scratch.capacity();
    let (_, block_hint) = scratch_capacities(512, 48_000);
    let mut block: Vec<u32> = Vec::with_capacity(block_hint);
    let block_cap = block.capacity();
    let pending_cap = pump.pending.capacity();
    prod.push(&vec![0.5f32.to_bits(); PLAYBACK_RING_CAPACITY]);
    let mut period = vec![0u32; 512];
    for _ in 0..16 {
        render(&mut pump, &mut resampler, &mut block, 0, &mut period);
        assert_eq!(pump.ring_scratch.capacity(), ring_cap, "ring scratch grew");
        assert_eq!(block.capacity(), block_cap, "block scratch grew");
        assert_eq!(pump.pending.capacity(), pending_cap, "pending grew");
        assert!(period.iter().all(|&s| f32::from_bits(s) == 0.5));
    }
}

/// A heavy downsample ratio (24 kHz → 8 kHz) with a big period pops >8192
/// source samples per render. Sized from the negotiated buffer, the scratch
/// absorbs it without growing.
#[test]
fn heavy_downsample_big_period_does_not_grow_scratch() {
    let (mut prod, mut pump) = test_pump(8_000, 4096);
    let mut resampler = Resampler::new(24_000, 8_000);
    let ring_cap = pump.ring_scratch.capacity();
    assert!(ring_cap > 8192, "hint-based sizing must exceed 8192 here");
    let (_, block_hint) = scratch_capacities(4096, 8_000);
    let mut block: Vec<u32> = Vec::with_capacity(block_hint);
    let block_cap = block.capacity();
    prod.push(&vec![0.5f32.to_bits(); PLAYBACK_RING_CAPACITY]);
    let mut period = vec![1.0f32.to_bits(); 4096];
    render(&mut pump, &mut resampler, &mut block, 0, &mut period);
    render(&mut pump, &mut resampler, &mut block, 0, &mut period);
    assert_eq!(pump.ring_scratch.capacity(), ring_cap);
    assert_eq!(block.capacity(), block_cap);
    assert!(period.iter().all(|&s| f32::from_bits(s) == 0.5));
}

#[test]
fn flushes_land_within_a_period() {
    let (mut prod, mut pump) = test_pump(24_000, 64);
    let mut resampler = Resampler::new(24_000, 24_000);
    let mut block = Vec::new();
    prod.push(&vec![7u32; 200]);
    let mut period = vec![0u32; 64];
    assert!(render(&mut pump, &mut resampler, &mut block, 0, &mut period));
    assert!(period.iter().all(|&s| s == 7));
    // A bump of the epoch clears the ring and what waits.
    assert!(!render(&mut pump, &mut resampler, &mut block, 1, &mut period));
    assert!(period.iter().all(|&s| s == 0));
    prod.push(&[9, 9]);
    assert!(render(&mut pump, &mut resampler, &mut block, 1, &mut period));
    assert_eq!(period[..3], [9, 9, 0]);
}

#[test]
fn leftovers_wait_for_the_next_period() {
    let (mut prod, mut pump) = test_pump(24_000, 4);
    let mut resampler = Resampler::new(24_000, 24_000);
    let mut block = Vec::new();
    prod.push(&[1, 2, 3, 4, 5, 6, 7, 8]);
    let mut period = vec![0u32; 4];
    render(&mut pump, &mut resampler, &mut block, 0, &mut period);
    assert_eq!(period, [1, 2, 3, 4]);
    assert_eq!(pump.pending, [5, 6]);
    render(&mut pump, &mut resampler, &mut block, 0, &mut period);
    assert_eq!(period, [5, 6, 7, 8]);
}

#[test]
fn rings_hand_samples_over_in_order() {
    let (mut prod, mut cons) = sample_ring(4);
    assert_eq!(prod.vacant(), 4);
    assert_eq!(prod.push(&[1, 2, 3]), 3);
    assert_eq!(prod.push(&[4, 5]), 1);
    assert_eq!(prod.vacant(), 0);
    assert_eq!(cons.occupied(), 4);
    let mut buf = Vec::new();
    cons.pop(&mut buf, 2);
    assert_eq!(buf, [1, 2]);
    assert_eq!(prod.vacant(), 2);
    cons.pop(&mut buf, 9);
    assert_eq!(buf, [3, 4]);
    prod.push(&[6]);
    assert_eq!(cons.clear(), 1);
    assert_eq!(cons.occupied(), 0);
}

#[test]
fn full_rings_drop_whole_blocks() {
    let (mut prod, mut cons) = sample_ring(4);
    let mut dropped = 0u64;
    push_block_drop_count(&mut prod, &vec![1, 2, 3], &mut dropped);
    push_block_drop_count(&mut prod, &vec![4, 5], &mut dropped);
    push_block_drop_count(&mut prod, &Vec::new(), &mut dropped);
    assert_eq!(dropped, 2);
    let mut buf = Vec::new();
    cons.pop(&mut buf, 9);
    assert_eq!(buf, [1, 2, 3]);
    push_block_drop_count(&mut prod, &vec![6, 7], &mut dropped);
    assert_eq!(dropped, 2);
    assert_eq!(block_fate(3, 4), BlockFate::Dropped);
    assert_eq!(block_fate(4, 4), BlockFate::Pushed);
    assert_eq!(block_fate(4, 0), BlockFate::Empty);
}

#[test]
fn clips_are_pushed_piece_by_piece() {
    let (mut prod, mut cons) = sample_ring(3);
    let mut clip = ClipPush::new(vec![1, 2, 3, 4, 5]);
    let mut seen = 0u64;
    let mut got = Vec::new();
    let mut buf = Vec::new();
    assert_eq!(
        push_clip_blocking(&mut prod, &mut clip, 0, &mut seen, false),
        PushStep::Retry
    );
    cons.pop(&mut buf, 9);
    got.extend_from_slice(&buf);
    assert_eq!(
        push_clip_blocking(&mut prod, &mut clip, 0, &mut seen, false),
        PushStep::Pushed
    );
    cons.pop(&mut buf, 9);
    got.extend_from_slice(&buf);
    assert_eq!(got, [1, 2, 3, 4, 5]);
}

#[test]
fn flushed_and_stopped_clips_are_discarded() {
    let (mut prod, mut cons) = sample_ring(2);
    let mut seen = 0u64;
    let mut clip = ClipPush::new(vec![1, 2, 3]);
    push_clip_blocking(&mut prod, &mut clip, 0, &mut seen, false);
    assert_eq!(
        push_clip_blocking(&mut prod, &mut clip, 5, &mut seen, false),
        PushStep::Discarded
    );
    assert_eq!(seen, 5);
    assert_eq!(
        push_clip_blocking(&mut prod, &mut clip, 5, &mut seen, true),
        PushStep::Discarded
    );
    assert_eq!(cons.occupied(), 2);
}

fn clip(sample_rate: u32) -> TtsClip {
    TtsClip {
        samples: vec![1],
        sample_rate,
    }
}

#[test]
fn the_playback_thread_decides_by_event() {
    assert!(matches!(
        playback_step(PlaybackEvent::Clip(clip(24_000))),
        PlaybackStep::Push(_)
    ));
    assert!(matches!(
        playback_step(PlaybackEvent::Clip(clip(22_050))),
        PlaybackStep::Resample(_)
    ));
    assert!(matches!(
        playback_step(PlaybackEvent::Idle),
        PlaybackStep::Wait
    ));
    assert!(matches!(
        playback_step(PlaybackEvent::Stopped),
        PlaybackStep::Exit
    ));
    assert!(matches!(
        playback_step(PlaybackEvent::Disconnected),
        PlaybackStep::Exit
    ));
}

fn range(format: SampleFormat, min_rate: u32, max_rate: u32) -> ConfigRange {
    ConfigRange {
        format,
        channels: 2,
        min_rate,
        max_rate,
        buffer: Some(BufferRange { min: 64, max: 256 }),
    }
}

#[test]
fn configurations_are_negotiated() {
    let ranges = vec![
        range(SampleFormat::U16, 8_000, 48_000),
        range(SampleFormat::I16, 8_000, 48_000),
        range(SampleFormat::F32, 44_100, 48_000),
        range(SampleFormat::F32, 8_000, 16_000),
    ];
    let c = capture_config(&ranges).unwrap();
    assert_eq!((c.format, c.rate), (SampleFormat::F32, 16_000));
    let c = negotiate_config(&ranges, 96_000).unwrap();
    assert_eq!((c.format, c.rate), (SampleFormat::F32, 48_000));
    let c = negotiate_config(&ranges[..2].to_vec(), 16_000).unwrap();
    assert_eq!((c.format, c.rate), (SampleFormat::I16, 16_000));
    let odd = vec![range(SampleFormat::Other, 8_000, 48_000)];
    assert_eq!(
        capture_config(&odd).unwrap_err().message(),
        "failed to negotiate audio stream config: device offers no f32/i16/u16 input configuration"
    );
    let plan = output_plan(&ranges, Some(48_000)).unwrap();
    assert_eq!(plan.buffer_frames, Some(256));
    assert_eq!(plan.max_period_frames, 256);
    assert!(output_plan(&odd, None).is_err());
    assert!(matches!(config_ranges(None), Err(AudioError::NoDevice)));
}

#[test]
fn devices_are_picked_by_name() {
    let names = || Ok(vec![None, Some("a".to_string()), Some("b".to_string())]);
    assert_eq!(
        pick_device(Some("b"), names(), true).unwrap(),
        DevicePick::Listed(2)
    );
    assert_eq!(
        pick_device(None, names(), true).unwrap(),
        DevicePick::Default
    );
    assert!(matches!(
        pick_device(None, names(), false),
        Err(AudioError::NoDevice)
    ));
    assert!(matches!(
        pick_device(Some("z"), names(), true),
        Err(AudioError::NoDevice)
    ));
    assert!(matches!(
        pick_device(Some("z"), Err("gone".to_string()), true),
        Err(AudioError::StreamConfig(_))
    ));
    assert_eq!(
        list_devices(&vec![Some("mic".to_string())], &vec![None]),
        vec!["input: mic", "output: <unknown>"]
    );
    assert_eq!(device_name(None, String::new()), None);
    assert_eq!(
        device_name(None, "d".to_string()),
        Some("d".to_string())
    );
    assert!(AudioInputConfig::default().device_name.is_none());
    assert!(AudioOutputConfig::default().device_name.is_none());
}

#[test]
fn blocks_are_read_in_bounded_chunks() {
    let first = next_chunk(100_000, 0, 2).unwrap();
    assert_eq!((first.start, first.end, first.frames), (0, 2048, 1024));
    let last = next_chunk(100_001, 98_304, 2).unwrap();
    assert_eq!((last.end, last.frames), (100_001, 848));
    assert!(next_chunk(5, 5, 2).is_none());
    assert_eq!(out_scratch_capacity(48_000), 349);
    assert_eq!(out_scratch_capacity(0), 16_384_008);
    let (mut prod, _cons) = mic_ring();
    assert_eq!(prod.vacant(), MIC_RING_CAPACITY);
}

#[test]
fn pulls_follow_the_device_rate() {
    assert_eq!(pull_count(512, 48_000, 1000), 258);
    assert_eq!(pull_count(512, 48_000, 100), 100);
    assert_eq!(scratch_capacities(512, 48_000), (266, 526));
}

#[test]
fn cancellers_are_made_per_frame_size() {
    let mut filter = AecFilter::new(16_000, 1600);
    assert_eq!(filter.frame_size(), 0);
    assert_eq!(
        filter.process_frame(256),
        AecStep::Create {
            filter_length: 1792
        }
    );
    assert_eq!(filter.process_frame(256), AecStep::Reuse);
    assert_eq!(filter.process_frame(0), AecStep::Empty);
    assert_eq!(filter.frame_size(), 256);
    assert_eq!(filter.sample_rate(), 16_000);
    assert!(matches!(filter.process_frame(512), AecStep::Create { .. }));
    assert_eq!(reference_frame(&vec![1, 2], 4), [1, 2, 0, 0]);
    assert_eq!(reference_frame(&vec![1, 2, 3], 2), [1, 2]);
}

#[test]
fn hold_music_moves_through_its_chords() {
    let mut music = HoldMusic::new();
    let steps = music.generate(10, true);
    assert_eq!(steps.len(), 10);
    assert!(steps[0].active);
    assert_eq!((steps[0].chord, steps[0].previous, steps[0].fade), (0, 3, 0));
    assert_eq!(music.elapsed_samples(), 10);
    assert_eq!(music.generate(MAX_CHUNK + 1, false).len(), MAX_CHUNK);
    music.reset();
    assert_eq!(music.elapsed_samples(), 0);
    let mut last = music.generate(1, true)[0];
    while last.t + 1 < CHORD_SAMPLES + FADE_SAMPLES + 1 {
        last = *music.generate(MAX_CHUNK, true).last().unwrap();
    }
    assert_eq!(last.chord, 1);
    assert_eq!(last.previous, 0);
}
