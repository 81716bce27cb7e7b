//! Speaker playback: what the playback thread and the output callback do.
//!
//! The playback thread is the sole pusher into its ring of 2 s: it pushes
//! clips and retries the remaining slice every few milliseconds when the ring
//! is full. Each retry checks the flush epoch again, and discards the rest of
//! the clip after a bump, so a blocked push can never delay a flush. The
//! callback pulls from the ring, has the samples resampled to the device rate,
//! and puts out silence when the ring is empty.
//!
//! A flush only bumps an epoch; the callback compares epochs each period and
//! clears the ring itself.

use vstd::arithmetic::div_mod::lemma_div_is_ordered;
use vstd::prelude::*;

use super::device::{negotiate_config, negotiated, ConfigRange, SupportedConfig};
use super::ring::{ready, room, sample_ring, sent, taken, RingConsumer, RingProducer};
use crate::error::AudioError;
use crate::tts::{TtsClip, TTS_SAMPLE_RATE};

verus! {

/// Sample rate of [`TtsClip`] audio.
pub const CLIP_SAMPLE_RATE: u32 = TTS_SAMPLE_RATE;

/// Playback ring capacity: 2 s of 24 kHz audio.
pub const PLAYBACK_RING_CAPACITY: usize = 48_000;

/// How many clips may wait for playback.
pub const CLIPS_CHANNEL_CAPACITY: usize = 8;

/// Retry interval for a full playback ring and for an idle clips channel, in
/// milliseconds.
pub const RETRY_INTERVAL_MS: u64 = 5;

/// Output buffer target: ~2 typical device periods (~10 ms at 48 kHz).
pub const OUTPUT_BUFFER_FRAMES: u32 = 512;

/// Worst-case callback period assumed when the device doesn't advertise a
/// buffer range: scratch is sized for this many frames per period.
pub const FALLBACK_PERIOD_FRAMES: usize = 8192;

/// The sample rate preferred where a device has no default one.
pub const FALLBACK_OUTPUT_RATE: u32 = 48_000;

/// Configuration for speaker playback.
#[derive(Debug, Clone)]
pub struct AudioOutputConfig {
    /// Output device name; `None` selects the default output device.
    pub device_name: Option<String>,
}

impl Default for AudioOutputConfig {
    fn default() -> (r: Self)
        ensures
            r.device_name is None,
    {
        AudioOutputConfig { device_name: None }
    }
}

// ---------------------------------------------------------------------------
// Setup
// ---------------------------------------------------------------------------

/// Makes the ring between the playback thread and the callback.
pub fn playback_ring() -> (r: (RingProducer, RingConsumer))
    ensures
        sent(r.0) == Seq::<u32>::empty(),
        room(r.0) == PLAYBACK_RING_CAPACITY,
        taken(r.1) == Seq::<u32>::empty(),
        ready(r.1) == 0,
{
    sample_ring(PLAYBACK_RING_CAPACITY)
}

/// How playback opens a device.
#[derive(Debug, Clone, Copy, PartialEq, Eq, Structural)]
pub struct OutputPlan {
    /// The configuration.
    pub config: SupportedConfig,
    /// The buffer size in frames; `None` for the device's default.
    pub buffer_frames: Option<u32>,
    /// Worst-case frames per output callback, used to preallocate scratch:
    /// exact with a fixed buffer, an assumption otherwise.
    pub max_period_frames: usize,
}

/// The small output buffer that a device supports, so that a flush lands
/// within one callback period.
pub open spec fn small_buffer(config: SupportedConfig) -> Option<u32> {
    match config.buffer {
        Some(b) => Some(
            if OUTPUT_BUFFER_FRAMES < b.min {
                b.min
            } else if OUTPUT_BUFFER_FRAMES > b.max {
                b.max
            } else {
                OUTPUT_BUFFER_FRAMES
            },
        ),
        None => None,
    }
}

/// The worst-case period with a buffer.
pub open spec fn period_of(buffer: Option<u32>) -> int {
    match buffer {
        Some(n) => n as int,
        None => FALLBACK_PERIOD_FRAMES as int,
    }
}

/// How playback opens a device: at its default rate (most compatible) in an
/// f32 stream, or in integers when f32 is unavailable, with a small buffer.
pub fn output_plan(ranges: &Vec<ConfigRange>, default_rate: Option<u32>) -> (r: Result<
    OutputPlan,
    AudioError,
>)
    ensures
        match negotiated(
            ranges@,
            match default_rate {
                Some(rate) => rate,
                None => FALLBACK_OUTPUT_RATE,
            },
        ) {
            Some(c) => match r {
                Ok(p) => p.config == c && p.buffer_frames == small_buffer(c) && p.max_period_frames
                    == period_of(small_buffer(c)),
                Err(_) => false,
            },
            None => match r {
                Err(AudioError::StreamConfig(m)) => m@
                    == "device offers no f32/i16/u16 output configuration"@,
                _ => false,
            },
        },
{
    let preferred: u32 = match default_rate {
        Some(rate) => rate,
        None => FALLBACK_OUTPUT_RATE,
    };
    match negotiate_config(ranges, preferred) {
        None => Err(
            AudioError::StreamConfig(
                "device offers no f32/i16/u16 output configuration".to_owned(),
            ),
        ),
        Some(config) => match config.buffer {
            Some(b) => {
                let n: u32 = if OUTPUT_BUFFER_FRAMES < b.min {
                    b.min
                } else if OUTPUT_BUFFER_FRAMES > b.max {
                    b.max
                } else {
                    OUTPUT_BUFFER_FRAMES
                };
                Ok(OutputPlan { config, buffer_frames: Some(n), max_period_frames: n as usize })
            },
            None => Ok(
                OutputPlan {
                    config,
                    buffer_frames: None,
                    max_period_frames: FALLBACK_PERIOD_FRAMES,
                },
            ),
        },
    }
}

// ---------------------------------------------------------------------------
// The playback thread
// ---------------------------------------------------------------------------

/// What the playback thread found when it looked for work.
#[derive(Debug)]
pub enum PlaybackEvent {
    /// It was told to stop.
    Stopped,
    /// A clip.
    Clip(TtsClip),
    /// No clip is waiting.
    Idle,
    /// Every sender is gone: the pipeline is shutting down.
    Disconnected,
}

/// What the playback thread does next.
#[derive(Debug)]
pub enum PlaybackStep {
    /// Push these samples; where they are discarded, discard the waiting clips
    /// too, so that no stale audio can follow a flush.
    Push(Vec<u32>),
    /// Resample this clip to [`CLIP_SAMPLE_RATE`], then push it likewise.
    Resample(TtsClip),
    /// Look again after [`RETRY_INTERVAL_MS`].
    Wait,
    /// End.
    Exit,
}

/// What the playback thread does with what it found.
pub fn playback_step(event: PlaybackEvent) -> (r: PlaybackStep)
    ensures
        r == (match event {
            PlaybackEvent::Stopped => PlaybackStep::Exit,
            PlaybackEvent::Clip(clip) => if clip.sample_rate == CLIP_SAMPLE_RATE {
                PlaybackStep::Push(clip.samples)
            } else {
                PlaybackStep::Resample(clip)
            },
            PlaybackEvent::Idle => PlaybackStep::Wait,
            PlaybackEvent::Disconnected => PlaybackStep::Exit,
        }),
{
    match event {
        PlaybackEvent::Stopped => PlaybackStep::Exit,
        PlaybackEvent::Clip(clip) => {
            if clip.sample_rate == CLIP_SAMPLE_RATE {
                PlaybackStep::Push(clip.samples)
            } else {
                PlaybackStep::Resample(clip)
            }
        },
        PlaybackEvent::Idle => PlaybackStep::Wait,
        PlaybackEvent::Disconnected => PlaybackStep::Exit,
    }
}

/// Where the push of a clip stands.
#[derive(Debug, Clone, Copy, PartialEq, Eq, Structural)]
pub enum PushStep {
    /// The whole clip was pushed.
    Pushed,
    /// The rest was discarded, after a flush or a stop.
    Discarded,
    /// The ring is full: go on after [`RETRY_INTERVAL_MS`].
    Retry,
}

/// A clip on its way into the playback ring.
#[derive(Debug)]
pub struct ClipPush {
    /// The clip.
    pub samples: Vec<u32>,
    /// How many of its samples have been pushed.
    pub at: usize,
}

fn tail_of(samples: &Vec<u32>, at: usize) -> (r: &[u32])
    requires
        at <= samples@.len(),
    ensures
        r@ == samples@.skip(at as int),
{
    let r = vstd::slice::slice_subrange(samples.as_slice(), at, samples.len());
    assert(r@ =~= samples@.skip(at as int));
    r
}

impl ClipPush {
    /// No more was pushed than there is.
    pub open spec fn wf(&self) -> bool {
        self.at <= self.samples@.len()
    }

    /// Starts to push a clip.
    pub fn new(samples: Vec<u32>) -> (r: Self)
        ensures
            r.wf(),
            r.samples == samples,
            r.at == 0,
    {
        ClipPush { samples, at: 0 }
    }
}

/// Pushes as much of the rest of a clip as fits, unless the flush epoch has
/// been bumped since `seen_epoch` or `stop` is set: then nothing is pushed and
/// the rest is discarded, so a blocked push can never delay a flush.
pub fn push_clip_blocking(
    prod: &mut RingProducer,
    clip: &mut ClipPush,
    flush_epoch: u64,
    seen_epoch: &mut u64,
    stop: bool,
) -> (r: PushStep)
    requires
        old(clip).wf(),
    ensures
        final(clip).wf(),
        final(clip).samples == old(clip).samples,
        final(clip).at >= old(clip).at,
        sent(*final(prod)) == sent(*old(prod)) + old(clip).samples@.subrange(
            old(clip).at as int,
            final(clip).at as int,
        ),
        r == (if old(clip).at == old(clip).samples@.len() {
            PushStep::Pushed
        } else if flush_epoch != *old(seen_epoch) || stop {
            PushStep::Discarded
        } else if final(clip).at == old(clip).samples@.len() {
            PushStep::Pushed
        } else {
            PushStep::Retry
        }),
        r == PushStep::Discarded ==> final(clip).at == old(clip).at,
        r == PushStep::Retry ==> final(clip).at - old(clip).at >= room(*old(prod)),
        *final(seen_epoch) == (if old(clip).at < old(clip).samples@.len() {
            flush_epoch
        } else {
            *old(seen_epoch)
        }),
{
    let ghost base = sent(*prod);
    assert(clip.samples@.subrange(clip.at as int, clip.at as int) =~= Seq::<u32>::empty());
    assert(base + Seq::<u32>::empty() =~= base);
    if clip.at == clip.samples.len() {
        return PushStep::Pushed;
    }
    if flush_epoch != *seen_epoch {
        *seen_epoch = flush_epoch;
        return PushStep::Discarded;
    }
    if stop {
        return PushStep::Discarded;
    }
    let ghost was = clip.at;
    let pushed: usize = prod.push(tail_of(&clip.samples, clip.at));
    clip.at = clip.at + pushed;
    assert(clip.samples@.skip(was as int).take(pushed as int) =~= clip.samples@.subrange(
        was as int,
        clip.at as int,
    ));
    if clip.at == clip.samples.len() {
        PushStep::Pushed
    } else {
        PushStep::Retry
    }
}

/// A clip whose pushes went from its start to its end has gone through the
/// ring whole and in order, however often the ring was full in between: each
/// step adds what lies between two places, and these parts make up the clip.
pub proof fn law_clips_arrive_whole(
    clip: Seq<u32>,
    stops: Seq<int>,
    history: Seq<Seq<u32>>,
)
    requires
        stops.len() > 0,
        history.len() == stops.len(),
        stops[0] == 0,
        stops.last() == clip.len(),
        forall|i: int, j: int| 0 <= i <= j < stops.len() ==> stops[i] <= stops[j],
        forall|i: int|
            0 <= i < stops.len() - 1 ==> #[trigger] history[i + 1] == history[i] + clip.subrange(
                stops[i],
                stops[i + 1],
            ),
    ensures
        history.last() == history[0] + clip,
{
    lemma_pushed_prefix(clip, stops, history, stops.len() - 1);
    assert(clip.take(clip.len() as int) =~= clip);
}

proof fn lemma_pushed_prefix(clip: Seq<u32>, stops: Seq<int>, history: Seq<Seq<u32>>, n: int)
    requires
        0 <= n < stops.len(),
        history.len() == stops.len(),
        stops[0] == 0,
        stops.last() == clip.len(),
        forall|i: int, j: int| 0 <= i <= j < stops.len() ==> stops[i] <= stops[j],
        forall|i: int|
            0 <= i < stops.len() - 1 ==> #[trigger] history[i + 1] == history[i] + clip.subrange(
                stops[i],
                stops[i + 1],
            ),
    ensures
        history[n] == history[0] + clip.take(stops[n]),
    decreases n,
{
    if n == 0 {
        assert(clip.take(0) =~= Seq::<u32>::empty());
        assert(history[0] + Seq::<u32>::empty() =~= history[0]);
    } else {
        lemma_pushed_prefix(clip, stops, history, n - 1);
        assert(history[(n - 1) + 1] == history[n - 1] + clip.subrange(stops[n - 1], stops[n]));
        assert(stops[0] <= stops[n - 1] <= stops[n] <= stops.last());
        assert(clip.take(stops[n]) =~= clip.take(stops[n - 1]) + clip.subrange(
            stops[n - 1],
            stops[n],
        ));
        assert(history[n] =~= history[0] + clip.take(stops[n]));
    }
}

// ---------------------------------------------------------------------------
// The output callback
// ---------------------------------------------------------------------------

/// The 24 kHz samples that it takes to produce `remaining` samples at the
/// device rate.
pub open spec fn source_samples(remaining: int, device_rate: u32) -> int {
    remaining * CLIP_SAMPLE_RATE / device_rate as int + 2
}

/// How many samples to pull for `remaining` output samples where `occupied`
/// are in the ring.
pub fn pull_count(remaining: usize, device_rate: u32, occupied: usize) -> (r: usize)
    requires
        device_rate > 0,
        remaining * CLIP_SAMPLE_RATE + 2 <= usize::MAX,
    ensures
        r == (if source_samples(remaining as int, device_rate) < occupied {
            source_samples(remaining as int, device_rate)
        } else {
            occupied as int
        }),
{
    let scaled: usize = remaining * CLIP_SAMPLE_RATE as usize;
    assert(scaled as int / device_rate as int <= scaled) by (nonlinear_arith)
        requires
            device_rate > 0,
            scaled >= 0,
    ;
    let needed: usize = scaled / device_rate as usize + 2;
    if needed < occupied {
        needed
    } else {
        occupied
    }
}

/// The capacities of the scratch for periods of up to `frames`: of the samples
/// pulled, and of the samples resampled from them, each with headroom.
pub open spec fn scratch_of(frames: int, device_rate: u32) -> (int, int) {
    let pulled = source_samples(frames, device_rate);
    (pulled + 8, pulled * device_rate / CLIP_SAMPLE_RATE as int + 2 + 8)
}

/// Whether scratch for periods of up to `frames` can be sized and allocated.
pub open spec fn scratch_fits(frames: int, device_rate: u32) -> bool {
    &&& frames * CLIP_SAMPLE_RATE <= u64::MAX
    &&& source_samples(frames, device_rate) * device_rate <= u64::MAX
    &&& scratch_of(frames, device_rate).0 * 4 <= isize::MAX
    &&& scratch_of(frames, device_rate).1 * 4 <= isize::MAX
}

/// The capacities of the scratch for periods of up to `max_period_frames`.
pub fn scratch_capacities(max_period_frames: usize, device_rate: u32) -> (r: (usize, usize))
    requires
        device_rate > 0,
        scratch_fits(max_period_frames as int, device_rate),
    ensures
        (r.0 as int, r.1 as int) == scratch_of(max_period_frames as int, device_rate),
{
    let scaled: u64 = max_period_frames as u64 * CLIP_SAMPLE_RATE as u64;
    let pulled: u64 = scaled / device_rate as u64 + 2;
    let block: u64 = pulled * device_rate as u64 / CLIP_SAMPLE_RATE as u64 + 2;
    (pulled as usize + 8, block as usize + 8)
}

/// A period within the hint never pulls more samples than the scratch was
/// sized for.
pub proof fn law_scratch_holds_a_period(frames: int, max_period_frames: int, device_rate: u32)
    requires
        device_rate > 0,
        0 <= frames <= max_period_frames,
    ensures
        source_samples(frames, device_rate) <= scratch_of(max_period_frames, device_rate).0,
{
    assert(frames * CLIP_SAMPLE_RATE <= max_period_frames * CLIP_SAMPLE_RATE) by (nonlinear_arith)
        requires
            0 <= frames <= max_period_frames,
    ;
    lemma_div_is_ordered(
        frames * CLIP_SAMPLE_RATE,
        max_period_frames * CLIP_SAMPLE_RATE,
        device_rate as int,
    );
}

/// What the callback does next in a period.
#[derive(Debug, Clone, Copy, PartialEq, Eq, Structural)]
pub enum PumpStep {
    /// Resample the pulled samples ([`OutputPump::ring_scratch`]) and hand the
    /// block to [`OutputPump::resampled`].
    Resample,
    /// The period is full.
    Done {
        /// Whether anything but silence was put out.
        playing: bool,
    },
}

/// Core of the output callback: fills output periods of mono device-rate
/// samples from the ring, and with silence beyond what the ring provides. All
/// scratch is preallocated for `max_period_frames`, so periods at or below
/// that size need no heap allocation.
pub struct OutputPump {
    cons: RingConsumer,
    device_rate: u32,
    seen_epoch: u64,
    /// Resampled samples that did not fit into the period, carried into the
    /// next one.
    pub pending: Vec<u32>,
    /// Raw 24 kHz samples popped from the ring.
    pub ring_scratch: Vec<u32>,
    written: usize,
    dry: bool,
}

/// Puts `from[..n]` into `out` at `at`.
fn put(out: &mut Vec<u32>, at: usize, from: &Vec<u32>, n: usize)
    requires
        at + n <= old(out)@.len(),
        n <= from@.len(),
    ensures
        final(out)@ == old(out)@.take(at as int) + from@.take(n as int) + old(out)@.skip(at + n),
{
    let ghost start = out@;
    let len: usize = out.len();
    let mut i: usize = 0;
    assert(out@ =~= start.take(at as int) + from@.take(0) + start.skip(at + 0));
    while i < n
        invariant
            at + n <= len,
            out@.len() == len,
            start.len() == len,
            n <= from@.len(),
            i <= n,
            out@ == start.take(at as int) + from@.take(i as int) + start.skip(at + i),
        decreases n - i,
    {
        out.set(at + i, from[i]);
        i += 1;
        assert(out@ =~= start.take(at as int) + from@.take(i as int) + start.skip(at + i));
    }
}

/// Drops the first `n` samples of `v`.
fn drop_front(v: &mut Vec<u32>, n: usize)
    requires
        n <= old(v)@.len(),
    ensures
        final(v)@ == old(v)@.skip(n as int),
{
    let ghost start = v@;
    let len: usize = v.len();
    let mut i: usize = 0;
    while i < len - n
        invariant
            v@.len() == len,
            start.len() == len,
            n <= len,
            i <= len - n,
            forall|k: int| 0 <= k < i ==> v@[k] == start[k + n],
            forall|k: int| i <= k < len ==> v@[k] == start[k],
        decreases len - n - i,
    {
        let x: u32 = v[i + n];
        v.set(i, x);
        i += 1;
    }
    v.truncate(len - n);
    assert(v@ =~= start.skip(n as int));
}

/// Silence of a length.
pub open spec fn silence(n: int) -> Seq<u32> {
    Seq::new(n as nat, |i: int| 0u32)
}

impl OutputPump {
    /// The epoch of the last flush that was seen.
    pub closed spec fn epoch(&self) -> u64 {
        self.seen_epoch
    }

    /// The device rate.
    pub closed spec fn rate(&self) -> u32 {
        self.device_rate
    }

    /// How much of the current period is filled.
    pub closed spec fn filled(&self) -> int {
        self.written as int
    }

    /// Whether the last block that came back in this period was empty.
    pub closed spec fn starved(&self) -> bool {
        self.dry
    }

    /// Every sample that was taken from the ring.
    pub closed spec fn drained(&self) -> Seq<u32> {
        taken(self.cons)
    }

    /// The samples in the ring that are known of.
    pub closed spec fn known(&self) -> nat {
        ready(self.cons)
    }

    /// The samples that wait for the next period.
    pub closed spec fn waiting(&self) -> Seq<u32> {
        self.pending@
    }

    /// The samples that were pulled last.
    pub closed spec fn pulled(&self) -> Seq<u32> {
        self.ring_scratch@
    }

    /// The device has a rate, and no sample waits while the period `out` has
    /// places left.
    pub open spec fn fills(&self, out: Seq<u32>) -> bool {
        &&& self.rate() > 0
        &&& 0 <= self.filled() <= out.len()
        &&& self.filled() < out.len() ==> self.waiting().len() == 0
    }

    /// The samples put out in the current period, and those that wait for the
    /// next one.
    pub open spec fn stream(&self, out: Seq<u32>) -> Seq<u32> {
        out.take(self.filled()) + self.waiting()
    }

    /// Creates the pump draining `cons`, for a device at `device_rate`, at the
    /// flush epoch `flush_epoch`. `max_period_frames` is the worst-case frame
    /// count of one period.
    pub fn new(
        cons: RingConsumer,
        device_rate: u32,
        max_period_frames: usize,
        flush_epoch: u64,
    ) -> (r: Self)
        requires
            device_rate > 0,
            scratch_fits(max_period_frames as int, device_rate),
        ensures
            r.epoch() == flush_epoch,
            r.rate() == device_rate,
            r.waiting() == Seq::<u32>::empty(),
            r.drained() == taken(cons),
            r.known() == ready(cons),
    {
        let (ring_cap, block_cap) = scratch_capacities(max_period_frames, device_rate);
        OutputPump {
            cons,
            device_rate,
            seen_epoch: flush_epoch,
            pending: Vec::with_capacity(block_cap),
            ring_scratch: Vec::with_capacity(ring_cap),
            written: 0,
            dry: false,
        }
    }

    /// Starts a period: after a flush everything that waits is discarded, in
    /// the ring and here; then what waits is put out.
    pub fn begin(&mut self, flush_epoch: u64, out: &mut Vec<u32>)
        requires
            old(self).rate() > 0,
        ensures
            final(self).fills(final(out)@),
            final(self).rate() == old(self).rate(),
            final(self).epoch() == flush_epoch,
            final(self).pulled() == old(self).pulled(),
            !final(self).starved(),
            final(out)@.len() == old(out)@.len(),
            final(self).stream(final(out)@) == (if flush_epoch == old(self).epoch() {
                old(self).waiting()
            } else {
                Seq::<u32>::empty()
            }),
            final(self).filled() == (if flush_epoch != old(self).epoch() {
                0
            } else if old(self).waiting().len() < old(out)@.len() {
                old(self).waiting().len() as int
            } else {
                old(out)@.len() as int
            }),
            flush_epoch == old(self).epoch() ==> final(self).drained() == old(self).drained()
                && final(self).known() == old(self).known(),
            flush_epoch != old(self).epoch() ==> old(self).drained().is_prefix_of(
                final(self).drained(),
            ) && final(self).drained().len() >= old(self).drained().len() + old(self).known(),
    {
        if flush_epoch != self.seen_epoch {
            self.seen_epoch = flush_epoch;
            let _cleared: usize = self.cons.clear();
            self.pending.clear();
        }
        let frames: usize = out.len();
        let take: usize = if self.pending.len() < frames {
            self.pending.len()
        } else {
            frames
        };
        let ghost waiting = self.pending@;
        put(out, 0, &self.pending, take);
        drop_front(&mut self.pending, take);
        self.written = take;
        self.dry = false;
        assert(out@.take(take as int) =~= waiting.take(take as int));
        assert(self.stream(out@) =~= waiting);
    }

    /// Goes on with a period: pulls samples to resample, or fills the rest
    /// with silence where the ring has run dry.
    pub fn render(&mut self, out: &mut Vec<u32>) -> (r: PumpStep)
        requires
            old(self).fills(old(out)@),
            old(out)@.len() * CLIP_SAMPLE_RATE + 2 <= usize::MAX,
        ensures
            final(self).rate() == old(self).rate(),
            final(self).epoch() == old(self).epoch(),
            final(self).waiting() == old(self).waiting(),
            final(self).starved() == old(self).starved(),
            final(self).filled() == old(self).filled(),
            match r {
                PumpStep::Resample => {
                    &&& old(self).filled() < old(out)@.len()
                    &&& !old(self).starved()
                    &&& *final(out) == *old(out)
                    &&& final(self).fills(final(out)@)
                    &&& 0 < final(self).pulled().len() <= source_samples(
                        old(out)@.len() - old(self).filled(),
                        old(self).rate(),
                    )
                    &&& final(self).pulled().len() >= old(self).known() || final(self).pulled().len()
                        == source_samples(
                        old(out)@.len() - old(self).filled(),
                        old(self).rate(),
                    )
                    &&& final(self).drained() == old(self).drained() + final(self).pulled()
                },
                PumpStep::Done { playing } => {
                    &&& playing == (old(self).filled() > 0)
                    &&& final(self).drained() == old(self).drained()
                    &&& final(out)@ == old(out)@.take(old(self).filled()) + silence(
                        old(out)@.len() - old(self).filled(),
                    )
                    &&& old(self).filled() < old(out)@.len() && !old(self).starved() ==> old(self).known() == 0
                },
            },
    {
        let frames: usize = out.len();
        if self.written < frames && !self.dry {
            let occupied: usize = self.cons.occupied();
            assert((frames - self.written) * CLIP_SAMPLE_RATE <= frames * CLIP_SAMPLE_RATE)
                by (nonlinear_arith)
                requires
                    self.written <= frames,
            ;
            let want: usize = pull_count(frames - self.written, self.device_rate, occupied);
            assert(source_samples((frames - self.written) as int, self.device_rate) >= 2) by {
                assert(((frames - self.written) * CLIP_SAMPLE_RATE) / self.device_rate as int >= 0)
                    by (nonlinear_arith)
                    requires
                        self.written <= frames,
                        self.device_rate > 0,
                ;
            }
            if want > 0 {
                self.cons.pop(&mut self.ring_scratch, want);
                return PumpStep::Resample;
            }
        }
        let playing = self.written > 0;
        let mut i: usize = self.written;
        let ghost start = out@;
        while i < frames
            invariant
                frames == out@.len(),
                start.len() == frames,
                self.written <= i <= frames,
                forall|k: int| 0 <= k < self.written ==> out@[k] == start[k],
                forall|k: int| self.written <= k < i ==> out@[k] == 0,
            decreases frames - i,
        {
            out.set(i, 0);
            i += 1;
        }
        assert(out@ =~= start.take(self.written as int) + silence(frames - self.written));
        PumpStep::Done { playing }
    }

    /// Takes the block resampled from the pulled samples: what fits is put
    /// out, the rest waits. An empty block ends the period: it takes more
    /// source samples than the ring holds.
    pub fn resampled(&mut self, block: &Vec<u32>, out: &mut Vec<u32>)
        requires
            old(self).fills(old(out)@),
            old(self).filled() < old(out)@.len(),
        ensures
            final(self).fills(final(out)@),
            final(self).rate() == old(self).rate(),
            final(self).epoch() == old(self).epoch(),
            final(self).drained() == old(self).drained(),
            final(self).known() == old(self).known(),
            final(self).starved() == (block@.len() == 0),
            final(out)@.len() == old(out)@.len(),
            final(self).stream(final(out)@) == old(self).stream(old(out)@) + block@,
            final(self).filled() == (if old(self).filled() + block@.len() < old(out)@.len() {
                old(self).filled() + block@.len()
            } else {
                old(out)@.len() as int
            }),
    {
        let ghost before = self.stream(out@);
        let ghost start = out@;
        let frames: usize = out.len();
        self.dry = block.len() == 0;
        let take: usize = if block.len() < frames - self.written {
            block.len()
        } else {
            frames - self.written
        };
        put(out, self.written, block, take);
        let ghost was = self.written as int;
        self.written = self.written + take;
        let mut i: usize = take;
        assert(self.pending@ =~= block@.subrange(take as int, i as int));
        while i < block.len()
            invariant
                take <= i <= block@.len(),
                self.pending@ == block@.subrange(take as int, i as int),
                self.written == was + take,
                self.dry == (block@.len() == 0),
                self.device_rate == old(self).device_rate,
                self.seen_epoch == old(self).seen_epoch,
                self.cons == old(self).cons,
            decreases block@.len() - i,
        {
            self.pending.push(block[i]);
            i += 1;
            assert(self.pending@ =~= block@.subrange(take as int, i as int));
        }
        assert(block@ =~= block@.take(take as int) + block@.subrange(
            take as int,
            block@.len() as int,
        ));
        assert(before =~= start.take(was));
        assert(self.stream(out@) =~= before + block@);
    }
}

/// The buffer of a device is as near to 512 frames as the device allows.
pub proof fn law_buffers_are_small(config: SupportedConfig)
    requires
        config.buffer is Some,
        config.buffer->0.min <= config.buffer->0.max,
    ensures
        ({
            let b = config.buffer->0;
            let n = small_buffer(config)->0;
            &&& small_buffer(config) is Some
            &&& b.min <= n <= b.max
            &&& b.min <= 512 <= b.max ==> n == 512
            &&& b.max < 512 ==> n == b.max
            &&& b.min > 512 ==> n == b.min
        }),
{
}

/// Enough is pulled for a period: the samples at 24 kHz that are pulled for it
/// last at least as long as its frames, with no more than two to spare.
pub proof fn law_pulls_last_the_period(remaining: int, device_rate: u32)
    requires
        remaining >= 0,
        device_rate > 0,
    ensures
        source_samples(remaining, device_rate) * device_rate >= remaining * 24_000,
        (source_samples(remaining, device_rate) - 2) * device_rate <= remaining * 24_000,
{
    let rate = device_rate as int;
    let q = remaining * 24_000 / rate;
    assert(q * rate <= remaining * 24_000 < (q + 1) * rate) by (nonlinear_arith)
        requires
            q == remaining * 24_000 / rate,
            rate > 0,
    ;
    assert((q + 2) * rate >= (q + 1) * rate) by (nonlinear_arith)
        requires
            rate > 0,
    ;
}

} // verus!
