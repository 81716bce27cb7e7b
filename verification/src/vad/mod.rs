//! VAD segmentation: the pure [`VadSegmenter`] state machine. The speech
//! probability of each frame is injected.
//!
//! Samples, probabilities and the threshold are the bits of 32-bit floats.

pub mod silero;

use vstd::prelude::*;

use crate::float_bits::{at_least, float_ge};

verus! {

/// Samples per VAD frame: 32 ms at 16 kHz.
pub const FRAME_LEN: usize = 512;

/// Duration of one [`FRAME_LEN`] frame in milliseconds (512 / 16 000 = 32).
pub const FRAME_MS: u32 = 32;

/// Preroll ring depth: 8 frames = 256 ms, prepended so onsets aren't clipped.
pub const PREROLL_FRAMES: usize = 8;

/// Minimum active (non-preroll, non-trailing-silence) speech per segment.
/// Shorter bursts are rejected as clicks.
pub const MIN_SEGMENT_MS: u32 = 250;

/// Events emitted by [`VadSegmenter`].
#[derive(Debug, Clone)]
pub enum VadEvent {
    /// Speech onset: fired on the first speech frame while `Listening`.
    SpeechStart,
    /// A complete speech segment (8-frame preroll included), 16 kHz mono.
    Segment(Vec<u32>),
}

/// The view of a [`VadEvent`].
#[verifier::ext_equal]
pub enum VadEventView {
    /// Speech onset.
    SpeechStart,
    /// A complete speech segment.
    Segment(Seq<u32>),
}

impl View for VadEvent {
    type V = VadEventView;

    open spec fn view(&self) -> VadEventView {
        match *self {
            VadEvent::SpeechStart => VadEventView::SpeechStart,
            VadEvent::Segment(s) => VadEventView::Segment(s@),
        }
    }
}

/// The view of an optional event.
pub open spec fn opt_event(e: Option<VadEvent>) -> Option<VadEventView> {
    match e {
        Some(e) => Some(e@),
        None => None,
    }
}

/// The state of a segmenter.
#[verifier::ext_equal]
pub struct SegmenterView {
    /// The probability from which a frame is speech.
    pub threshold: u32,
    /// Trailing silence that closes a segment.
    pub silence_ms: nat,
    /// The current run of trailing frames without speech, while speaking.
    pub speaking: Option<nat>,
    /// The last frames seen, oldest first.
    pub preroll: Seq<Seq<u32>>,
    /// Samples of the segment being accumulated.
    pub segment: Seq<u32>,
    /// How many preroll frames were prepended at the onset.
    pub preroll_at_onset: nat,
}

/// A ring after one more frame: the last [`PREROLL_FRAMES`] frames.
pub open spec fn ring_with(ring: Seq<Seq<u32>>, frame: Seq<u32>) -> Seq<Seq<u32>> {
    if ring.len() < PREROLL_FRAMES {
        ring.push(frame)
    } else {
        ring.skip(1).push(frame)
    }
}

/// The frames of a ring, one behind the other.
pub open spec fn joined(frames: Seq<Seq<u32>>) -> Seq<u32>
    decreases frames.len(),
{
    if frames.len() == 0 {
        Seq::empty()
    } else {
        joined(frames.drop_last()) + frames.last()
    }
}

/// The active frames of a segment: without preroll and trailing silence.
pub open spec fn active_frames(samples: nat, preroll: nat, silent: nat) -> nat {
    if samples / FRAME_LEN as nat >= preroll + silent {
        (samples / FRAME_LEN as nat - preroll - silent) as nat
    } else {
        0
    }
}

/// What one frame does to a segmenter, and the event it fires.
pub open spec fn segment_step(s: SegmenterView, frame: Seq<u32>, is_speech: bool) -> (
    SegmenterView,
    Option<VadEventView>,
) {
    let ring = ring_with(s.preroll, frame);
    match s.speaking {
        None => if is_speech {
            (
                SegmenterView {
                    speaking: Some(0),
                    preroll: ring,
                    segment: joined(s.preroll) + frame,
                    preroll_at_onset: s.preroll.len(),
                    ..s
                },
                Some(VadEventView::SpeechStart),
            )
        } else {
            (SegmenterView { preroll: ring, ..s }, None)
        },
        Some(silent) => {
            let segment = s.segment + frame;
            if is_speech {
                (SegmenterView { speaking: Some(0), preroll: ring, segment, ..s }, None)
            } else if (silent + 1) * FRAME_MS > s.silence_ms {
                let closed = SegmenterView {
                    speaking: None,
                    preroll: ring,
                    segment: Seq::empty(),
                    ..s
                };
                if active_frames(segment.len(), s.preroll_at_onset, silent + 1) * FRAME_MS
                    >= MIN_SEGMENT_MS {
                    (closed, Some(VadEventView::Segment(segment)))
                } else {
                    (closed, None)
                }
            } else {
                (SegmenterView { speaking: Some(silent + 1), preroll: ring, segment, ..s }, None)
            }
        },
    }
}

/// Whether a segmenter state can occur: the ring holds at most
/// [`PREROLL_FRAMES`] whole frames, and a segment in progress holds whole
/// frames, its preroll and its trailing silence among them.
pub open spec fn is_state(s: SegmenterView) -> bool {
    &&& s.preroll.len() <= PREROLL_FRAMES
    &&& forall|i: int| 0 <= i < s.preroll.len() ==> (#[trigger] s.preroll[i]).len() == FRAME_LEN
    &&& s.preroll_at_onset <= PREROLL_FRAMES
    &&& s.speaking matches Some(silent) ==> silent * FRAME_MS <= s.silence_ms && s.segment.len()
        % FRAME_LEN as nat == 0 && s.segment.len() / FRAME_LEN as nat >= s.preroll_at_onset
        + silent + 1
}

proof fn lemma_joined_len(frames: Seq<Seq<u32>>)
    requires
        forall|i: int| 0 <= i < frames.len() ==> (#[trigger] frames[i]).len() == FRAME_LEN,
    ensures
        joined(frames).len() == frames.len() * FRAME_LEN,
    decreases frames.len(),
{
    if frames.len() > 0 {
        lemma_joined_len(frames.drop_last());
    }
}

/// Every frame leads from a possible state to a possible state.
pub proof fn law_states_are_kept(s: SegmenterView, frame: Seq<u32>, is_speech: bool)
    requires
        is_state(s),
        frame.len() == FRAME_LEN,
    ensures
        is_state(segment_step(s, frame, is_speech).0),
{
    lemma_joined_len(s.preroll);
    let next = segment_step(s, frame, is_speech).0;
    assert forall|i: int| 0 <= i < next.preroll.len() implies (#[trigger] next.preroll[i]).len()
        == FRAME_LEN by {
        if s.preroll.len() < PREROLL_FRAMES {
            if i < s.preroll.len() {
                assert(next.preroll[i] == s.preroll[i]);
            }
        } else if i < s.preroll.len() - 1 {
            assert(next.preroll[i] == s.preroll[i + 1]);
        }
    }
}

/// A segment is only ever closed while speaking, after more than the
/// configured silence and no frame earlier, with at least the minimum of
/// active speech in it; it carries at most [`PREROLL_FRAMES`] frames of
/// preroll, and afterwards the segmenter listens.
pub proof fn law_segments_are_speech(s: SegmenterView, frame: Seq<u32>, is_speech: bool)
    requires
        is_state(s),
        frame.len() == FRAME_LEN,
        segment_step(s, frame, is_speech).1 is Some,
        segment_step(s, frame, is_speech).1->0 is Segment,
    ensures
        ({
            let samples = segment_step(s, frame, is_speech).1->0->Segment_0;
            &&& !is_speech
            &&& s.speaking matches Some(silent) && silent * FRAME_MS <= s.silence_ms && (silent + 1)
                * FRAME_MS > s.silence_ms && samples.len() / FRAME_LEN as nat
                >= s.preroll_at_onset + silent + 1 + 8
            &&& samples.len() % FRAME_LEN as nat == 0
            &&& segment_step(s, frame, is_speech).0.speaking is None
        }),
{
}

/// Speech starts exactly when a listening segmenter meets a speech frame, and
/// the segment then begins with every frame of the ring.
pub proof fn law_onsets_keep_their_preroll(s: SegmenterView, frame: Seq<u32>, is_speech: bool)
    ensures
        (segment_step(s, frame, is_speech).1 == Some(VadEventView::SpeechStart)) == (s.speaking
            is None && is_speech),
        s.speaking is None && is_speech ==> segment_step(s, frame, is_speech).0.segment == joined(
            s.preroll,
        ) + frame,
{
}

/// A frame and its speech probability.
pub type Heard = (Seq<u32>, u32);

/// What a frame of a probability does to a segmenter, and the event it fires.
pub open spec fn heard_step(s: SegmenterView, h: Heard) -> (SegmenterView, Option<VadEventView>) {
    segment_step(s, h.0, float_ge(h.1, s.threshold))
}

/// A segmenter after a run of frames.
pub open spec fn after(s: SegmenterView, run: Seq<Heard>) -> SegmenterView
    decreases run.len(),
{
    if run.len() == 0 {
        s
    } else {
        heard_step(after(s, run.drop_last()), run.last()).0
    }
}

/// The event that a frame of a run fires.
pub open spec fn event_at(s: SegmenterView, run: Seq<Heard>, i: int) -> Option<VadEventView> {
    heard_step(after(s, run.take(i)), run[i]).1
}

/// The samples of each frame of a run.
pub open spec fn sounds(run: Seq<Heard>) -> Seq<Seq<u32>> {
    run.map_values(|h: Heard| h.0)
}

/// Whether every frame of a run is whole, and is speech or is not.
pub open spec fn is_all(run: Seq<Heard>, threshold: u32, is_speech: bool) -> bool {
    forall|i: int|
        0 <= i < run.len() ==> (#[trigger] run[i]).0.len() == FRAME_LEN && float_ge(
            run[i].1,
            threshold,
        ) == is_speech
}

/// The last [`PREROLL_FRAMES`] frames, or all where there are fewer.
pub open spec fn last_frames(frames: Seq<Seq<u32>>) -> Seq<Seq<u32>> {
    if frames.len() <= PREROLL_FRAMES {
        frames
    } else {
        frames.skip(frames.len() - PREROLL_FRAMES)
    }
}

/// How many frames of trailing silence close a segment.
pub open spec fn closing_frames(silence_ms: nat) -> nat {
    silence_ms / FRAME_MS as nat + 1
}

proof fn lemma_ring(frames: Seq<Seq<u32>>, frame: Seq<u32>)
    ensures
        ring_with(last_frames(frames), frame) == last_frames(frames.push(frame)),
{
    assert(ring_with(last_frames(frames), frame) =~= last_frames(frames.push(frame)));
}

proof fn lemma_joined_push(frames: Seq<Seq<u32>>, frame: Seq<u32>)
    ensures
        joined(frames.push(frame)) == joined(frames) + frame,
{
    assert(frames.push(frame).drop_last() =~= frames);
}

/// A listening segmenter after quiet frames.
proof fn lemma_quiet(s: SegmenterView, run: Seq<Heard>)
    requires
        s.speaking is None,
        is_all(run, s.threshold, false),
        s.preroll.len() <= PREROLL_FRAMES,
    ensures
        after(s, run) == (SegmenterView { preroll: last_frames(s.preroll + sounds(run)), ..s }),
    decreases run.len(),
{
    if run.len() == 0 {
        assert(s.preroll + sounds(run) =~= s.preroll);
    } else {
        let rest = run.drop_last();
        assert forall|i: int| 0 <= i < rest.len() implies (#[trigger] rest[i]).0.len() == FRAME_LEN
            && float_ge(rest[i].1, s.threshold) == false by {
            assert(rest[i] == run[i]);
        }
        lemma_quiet(s, rest);
        let h = run[run.len() - 1];
        assert(h.0.len() == FRAME_LEN);
        lemma_ring(s.preroll + sounds(rest), h.0);
        assert((s.preroll + sounds(rest)).push(h.0) =~= s.preroll + sounds(run));
    }
}

/// A segmenter that has met its first speech frames.
proof fn lemma_speech(s: SegmenterView, run: Seq<Heard>)
    requires
        s.speaking is None,
        is_all(run, s.threshold, true),
        s.preroll.len() <= PREROLL_FRAMES,
        run.len() > 0,
    ensures
        after(s, run) == (SegmenterView {
            speaking: Some(0),
            preroll: last_frames(s.preroll + sounds(run)),
            segment: joined(s.preroll) + joined(sounds(run)),
            preroll_at_onset: s.preroll.len(),
            ..s
        }),
    decreases run.len(),
{
    let rest = run.drop_last();
    let h = run[run.len() - 1];
    assert(h.0.len() == FRAME_LEN);
    assert forall|i: int| 0 <= i < rest.len() implies (#[trigger] rest[i]).0.len() == FRAME_LEN
        && float_ge(rest[i].1, s.threshold) == true by {
        assert(rest[i] == run[i]);
    }
    assert(sounds(run) =~= sounds(rest).push(h.0));
    lemma_joined_push(sounds(rest), h.0);
    lemma_ring(s.preroll + sounds(rest), h.0);
    assert((s.preroll + sounds(rest)).push(h.0) =~= s.preroll + sounds(run));
    if rest.len() == 0 {
        assert(s.preroll + sounds(rest) =~= s.preroll);
        assert(after(s, rest) == s);
        assert(joined(sounds(rest)) =~= Seq::empty());
        assert(joined(s.preroll) + h.0 =~= joined(s.preroll) + joined(sounds(run)));
    } else {
        lemma_speech(s, rest);
        assert(joined(s.preroll) + joined(sounds(rest)) + h.0 =~= joined(s.preroll) + joined(
            sounds(run),
        ));
    }
}

/// A speaking segmenter after trailing silence that does not close the segment
/// yet.
proof fn lemma_trailing(s: SegmenterView, run: Seq<Heard>)
    requires
        s.speaking == Some(0nat),
        is_all(run, s.threshold, false),
        s.preroll.len() <= PREROLL_FRAMES,
        run.len() < closing_frames(s.silence_ms),
    ensures
        after(s, run) == (SegmenterView {
            speaking: Some(run.len()),
            preroll: last_frames(s.preroll + sounds(run)),
            segment: s.segment + joined(sounds(run)),
            ..s
        }),
    decreases run.len(),
{
    if run.len() == 0 {
        assert(s.preroll + sounds(run) =~= s.preroll);
        assert(s.segment + joined(sounds(run)) =~= s.segment);
    } else {
        let rest = run.drop_last();
        let h = run[run.len() - 1];
        assert(h.0.len() == FRAME_LEN);
        assert forall|i: int| 0 <= i < rest.len() implies (#[trigger] rest[i]).0.len() == FRAME_LEN
            && float_ge(rest[i].1, s.threshold) == false by {
            assert(rest[i] == run[i]);
        }
        lemma_trailing(s, rest);
        assert(sounds(run) =~= sounds(rest).push(h.0));
        lemma_joined_push(sounds(rest), h.0);
        lemma_ring(s.preroll + sounds(rest), h.0);
        assert((s.preroll + sounds(rest)).push(h.0) =~= s.preroll + sounds(run));
        assert(s.segment + joined(sounds(rest)) + h.0 =~= s.segment + joined(sounds(run)));
    }
}

proof fn lemma_after_both(s: SegmenterView, first: Seq<Heard>, second: Seq<Heard>)
    ensures
        after(s, first + second) == after(after(s, first), second),
    decreases second.len(),
{
    if second.len() == 0 {
        assert(first + second =~= first);
    } else {
        lemma_after_both(s, first, second.drop_last());
        assert((first + second).drop_last() =~= first + second.drop_last());
    }
}

proof fn lemma_part(run: Seq<Heard>, threshold: u32, is_speech: bool, from: int, to: int)
    requires
        is_all(run, threshold, is_speech),
        0 <= from <= to <= run.len(),
    ensures
        is_all(run.subrange(from, to), threshold, is_speech),
{
    let part = run.subrange(from, to);
    assert forall|i: int| 0 <= i < part.len() implies (#[trigger] part[i]).0.len() == FRAME_LEN
        && float_ge(part[i].1, threshold) == is_speech by {
        assert(part[i] == run[from + i]);
    }
}

/// The event of a frame of a burst: quiet frames, speech, and quiet frames
/// again. Speech starts with the first speech frame. The quiet frame with
/// which the silence behind it is too long closes the segment: the last frames
/// that came before the speech, the speech, and the silence up to there. A
/// burst of less than eight frames is a click, of which nothing is heard.
pub open spec fn burst_event(
    s: SegmenterView,
    lead: Seq<Heard>,
    speech: Seq<Heard>,
    tail: Seq<Heard>,
    i: int,
) -> Option<VadEventView> {
    let closing = closing_frames(s.silence_ms);
    if i == lead.len() {
        Some(VadEventView::SpeechStart)
    } else if i == lead.len() + speech.len() + closing - 1 && speech.len() >= 8 {
        Some(
            VadEventView::Segment(
                joined(last_frames(s.preroll + sounds(lead))) + joined(sounds(speech)) + joined(
                    sounds(tail.take(closing as int)),
                ),
            ),
        )
    } else {
        None
    }
}

/// A burst of speech between silences starts once, and becomes one segment,
/// with its preroll and its trailing silence, if and only if it is long
/// enough; no other frame fires an event. This holds of every listening
/// segmenter, a fresh one among them.
pub proof fn law_bursts_become_segments(
    s: SegmenterView,
    lead: Seq<Heard>,
    speech: Seq<Heard>,
    tail: Seq<Heard>,
    i: int,
)
    requires
        is_state(s),
        s.speaking is None,
        is_all(lead, s.threshold, false),
        is_all(speech, s.threshold, true),
        is_all(tail, s.threshold, false),
        speech.len() > 0,
        0 <= i < lead.len() + speech.len() + tail.len(),
    ensures
        event_at(s, lead + speech + tail, i) == burst_event(s, lead, speech, tail, i),
{
    let run = lead + speech + tail;
    let before = run.take(i);
    let (p, a) = (lead.len() as int, speech.len() as int);
    let closing = closing_frames(s.silence_ms) as int;
    let ring = last_frames(s.preroll + sounds(lead));
    if i < p {
        assert(before =~= lead.subrange(0, i));
        lemma_part(lead, s.threshold, false, 0, i);
        lemma_quiet(s, before);
        assert(run[i] == lead[i]);
    } else {
        lemma_quiet(s, lead);
        let listening = after(s, lead);
        if i < p + a {
            let begun = speech.subrange(0, i - p);
            assert(before =~= lead + begun);
            lemma_after_both(s, lead, begun);
            lemma_part(speech, s.threshold, true, 0, i - p);
            assert(run[i] == speech[i - p]);
            if i > p {
                lemma_speech(listening, begun);
            } else {
                assert(after(listening, begun) == listening);
            }
        } else {
            lemma_speech(listening, speech);
            let speaking = after(listening, speech);
            let j = i - p - a;
            assert(run[i] == tail[j]);
            lemma_after_both(s, lead, speech);
            if j < closing {
                let trailing = tail.subrange(0, j);
                assert(before =~= lead + speech + trailing);
                lemma_after_both(s, lead + speech, trailing);
                lemma_part(tail, s.threshold, false, 0, j);
                lemma_trailing(speaking, trailing);
                if j == closing - 1 {
                    lemma_burst_len(s, lead, speech, tail, j);
                    assert(tail.take(closing) =~= trailing.push(tail[j]));
                    assert(sounds(tail.take(closing)) =~= sounds(trailing).push(tail[j].0));
                    lemma_joined_push(sounds(trailing), tail[j].0);
                    let base = joined(ring) + joined(sounds(speech));
                    assert(base + joined(sounds(trailing)) + tail[j].0 =~= base + joined(
                        sounds(tail.take(closing)),
                    ));
                }
            } else {
                lemma_closed(s, lead, speech, tail, j);
            }
        }
    }
}

proof fn lemma_whole(run: Seq<Heard>, threshold: u32, is_speech: bool)
    requires
        is_all(run, threshold, is_speech),
    ensures
        joined(sounds(run)).len() == run.len() * FRAME_LEN,
{
    let v = sounds(run);
    assert forall|i: int| 0 <= i < v.len() implies (#[trigger] v[i]).len() == FRAME_LEN by {
        assert(run[i].0.len() == FRAME_LEN);
    }
    lemma_joined_len(v);
}

/// How long the segment of a burst is, one frame in front of its end.
proof fn lemma_burst_len(
    s: SegmenterView,
    lead: Seq<Heard>,
    speech: Seq<Heard>,
    tail: Seq<Heard>,
    j: int,
)
    requires
        is_state(s),
        is_all(lead, s.threshold, false),
        is_all(speech, s.threshold, true),
        is_all(tail, s.threshold, false),
        0 <= j < tail.len(),
    ensures
        ({
            let ring = last_frames(s.preroll + sounds(lead));
            &&& joined(ring).len() == ring.len() * FRAME_LEN
            &&& joined(sounds(speech)).len() == speech.len() * FRAME_LEN
            &&& joined(sounds(tail.subrange(0, j))).len() == j * FRAME_LEN
            &&& tail[j].0.len() == FRAME_LEN
        }),
{
    let ring = last_frames(s.preroll + sounds(lead));
    assert forall|i: int| 0 <= i < ring.len() implies (#[trigger] ring[i]).len() == FRAME_LEN by {
        let all = s.preroll + sounds(lead);
        let at = i + all.len() - ring.len();
        assert(ring[i] == all[at]);
        if at < s.preroll.len() {
            assert(s.preroll[at].len() == FRAME_LEN);
        } else {
            assert(lead[at - s.preroll.len()].0.len() == FRAME_LEN);
        }
    }
    lemma_joined_len(ring);
    lemma_whole(speech, s.threshold, true);
    lemma_part(tail, s.threshold, false, 0, j);
    lemma_whole(tail.subrange(0, j), s.threshold, false);
}

/// Behind the end of its segment a burst fires no event.
proof fn lemma_closed(
    s: SegmenterView,
    lead: Seq<Heard>,
    speech: Seq<Heard>,
    tail: Seq<Heard>,
    j: int,
)
    requires
        is_state(s),
        s.speaking is None,
        is_all(lead, s.threshold, false),
        is_all(speech, s.threshold, true),
        is_all(tail, s.threshold, false),
        speech.len() > 0,
        closing_frames(s.silence_ms) <= j < tail.len(),
    ensures
        event_at(s, lead + speech + tail, lead.len() + speech.len() + j) is None,
{
    let run = lead + speech + tail;
    let i = lead.len() + speech.len() + j;
    let closing = closing_frames(s.silence_ms) as int;
    lemma_quiet(s, lead);
    let listening = after(s, lead);
    lemma_speech(listening, speech);
    let speaking = after(listening, speech);
    lemma_after_both(s, lead, speech);
    let trailing = tail.subrange(0, closing - 1);
    lemma_part(tail, s.threshold, false, 0, closing - 1);
    lemma_trailing(speaking, trailing);
    let end = tail.subrange(0, closing);
    assert(end.drop_last() =~= trailing);
    assert(end.last() == tail[closing - 1]);
    assert(tail[closing - 1].0.len() == FRAME_LEN);
    let closed = after(speaking, end);
    assert(closed.speaking is None);
    assert(closed.threshold == s.threshold);
    lemma_ring(speaking.preroll + sounds(trailing), end.last().0);
    assert(closed.preroll.len() <= PREROLL_FRAMES);
    let quiet = tail.subrange(closing, j);
    lemma_part(tail, s.threshold, false, closing, j);
    lemma_quiet(closed, quiet);
    assert(run.take(i) =~= lead + speech + end + quiet);
    lemma_after_both(s, lead + speech + end, quiet);
    lemma_after_both(s, lead + speech, end);
    assert(run[i] == tail[j]);
    assert(tail[j].0.len() == FRAME_LEN);
}

/// Whether the frames `from..to` of a run are all below the threshold.
pub open spec fn is_pause(run: Seq<Heard>, threshold: u32, from: int, to: int) -> bool {
    forall|k: int| from <= k < to ==> !float_ge((#[trigger] run[k]).1, threshold)
}

/// Whether no pause of a run is longer than `silence_ms`.
pub open spec fn pauses_are_short(run: Seq<Heard>, threshold: u32, silence_ms: nat) -> bool {
    forall|from: int, to: int|
        0 <= from <= to <= run.len() && #[trigger] is_pause(run, threshold, from, to) ==> (to
            - from) * 32 <= silence_ms
}

/// Whether every frame of a run is whole.
pub open spec fn is_whole(run: Seq<Heard>) -> bool {
    forall|k: int| 0 <= k < run.len() ==> (#[trigger] run[k]).0.len() == FRAME_LEN
}

/// How many frames below the threshold a run ends in.
spec fn trailing(run: Seq<Heard>, threshold: u32) -> nat
    decreases run.len(),
{
    if run.len() == 0 || float_ge(run.last().1, threshold) {
        0
    } else {
        trailing(run.drop_last(), threshold) + 1
    }
}

proof fn lemma_trailing_pause(run: Seq<Heard>, threshold: u32)
    ensures
        trailing(run, threshold) <= run.len(),
        is_pause(run, threshold, run.len() - trailing(run, threshold), run.len() as int),
        trailing(run, threshold) < run.len() ==> float_ge(
            run[run.len() - trailing(run, threshold) - 1].1,
            threshold,
        ),
    decreases run.len(),
{
    if run.len() > 0 && !float_ge(run.last().1, threshold) {
        let rest = run.drop_last();
        lemma_trailing_pause(rest, threshold);
        let from = run.len() - trailing(run, threshold);
        assert forall|k: int| from <= k < run.len() implies !float_ge(
            (#[trigger] run[k]).1,
            threshold,
        ) by {
            if k < run.len() - 1 {
                assert(rest[k] == run[k]);
            }
        }
        if trailing(run, threshold) < run.len() {
            assert(rest[rest.len() - trailing(rest, threshold) - 1] == run[from - 1]);
        }
    }
}

proof fn lemma_short_part(run: Seq<Heard>, threshold: u32, silence_ms: nat, n: int)
    requires
        pauses_are_short(run, threshold, silence_ms),
        is_whole(run),
        0 <= n <= run.len(),
    ensures
        pauses_are_short(run.take(n), threshold, silence_ms),
        is_whole(run.take(n)),
{
    let part = run.take(n);
    assert forall|from: int, to: int|
        0 <= from <= to <= part.len() && #[trigger] is_pause(part, threshold, from, to) implies (to
        - from) * 32 <= silence_ms by {
        assert forall|k: int| from <= k < to implies !float_ge(
            (#[trigger] run[k]).1,
            threshold,
        ) by {
            assert(part[k] == run[k]);
        }
        assert(is_pause(run, threshold, from, to));
    }
    assert forall|k: int| 0 <= k < part.len() implies (#[trigger] part[k]).0.len() == FRAME_LEN by {
        assert(part[k] == run[k]);
    }
}

/// A segmenter that has met speech with short pauses.
proof fn lemma_talk(s: SegmenterView, talk: Seq<Heard>)
    requires
        s.speaking is None,
        s.preroll.len() <= PREROLL_FRAMES,
        talk.len() > 0,
        float_ge(talk[0].1, s.threshold),
        is_whole(talk),
        pauses_are_short(talk, s.threshold, s.silence_ms),
    ensures
        after(s, talk) == (SegmenterView {
            speaking: Some(trailing(talk, s.threshold)),
            preroll: last_frames(s.preroll + sounds(talk)),
            segment: joined(s.preroll) + joined(sounds(talk)),
            preroll_at_onset: s.preroll.len(),
            ..s
        }),
    decreases talk.len(),
{
    let rest = talk.drop_last();
    let h = talk[talk.len() - 1];
    assert(rest =~= talk.take(talk.len() - 1));
    lemma_short_part(talk, s.threshold, s.silence_ms, talk.len() - 1);
    lemma_trailing_pause(talk, s.threshold);
    assert(sounds(talk) =~= sounds(rest).push(h.0));
    lemma_joined_push(sounds(rest), h.0);
    lemma_ring(s.preroll + sounds(rest), h.0);
    assert((s.preroll + sounds(rest)).push(h.0) =~= s.preroll + sounds(talk));
    if rest.len() == 0 {
        assert(s.preroll + sounds(rest) =~= s.preroll);
        assert(after(s, rest) == s);
        assert(joined(sounds(rest)) =~= Seq::empty());
        assert(joined(s.preroll) + h.0 =~= joined(s.preroll) + joined(sounds(talk)));
    } else {
        assert(rest[0] == talk[0]);
        lemma_talk(s, rest);
        assert(joined(s.preroll) + joined(sounds(rest)) + h.0 =~= joined(s.preroll) + joined(
            sounds(talk),
        ));
        if !float_ge(h.1, s.threshold) {
            let n = trailing(talk, s.threshold);
            assert(is_pause(talk, s.threshold, talk.len() - n, talk.len() as int));
            assert(n * 32 <= s.silence_ms);
        }
    }
}

/// A pause that is not too long does not cut speech. From its first frame on,
/// a run of frames in which no stretch below the threshold outlasts
/// `silence_ms` starts speech once and closes nothing, however many such
/// pauses it has; what is held of it is every frame, behind the preroll.
pub proof fn law_short_pauses_do_not_cut(s: SegmenterView, talk: Seq<Heard>, i: int)
    requires
        is_state(s),
        s.speaking is None,
        talk.len() > 0,
        float_ge(talk[0].1, s.threshold),
        is_whole(talk),
        pauses_are_short(talk, s.threshold, s.silence_ms),
        0 <= i < talk.len(),
    ensures
        event_at(s, talk, i) == (if i == 0 {
            Some(VadEventView::SpeechStart)
        } else {
            None
        }),
        after(s, talk).speaking is Some,
        after(s, talk).segment == joined(s.preroll) + joined(sounds(talk)),
{
    lemma_talk(s, talk);
    if i == 0 {
        assert(talk.take(0) =~= Seq::empty());
        assert(after(s, talk.take(0)) == s);
    } else {
        let begun = talk.take(i);
        lemma_short_part(talk, s.threshold, s.silence_ms, i);
        assert(begun[0] == talk[0]);
        lemma_talk(s, begun);
        let more = talk.take(i + 1);
        lemma_short_part(talk, s.threshold, s.silence_ms, i + 1);
        lemma_trailing_pause(more, s.threshold);
        assert(more.drop_last() =~= begun);
        assert(more.last() == talk[i]);
        if !float_ge(talk[i].1, s.threshold) {
            let n = trailing(more, s.threshold);
            assert(is_pause(more, s.threshold, more.len() - n, more.len() as int));
            assert(n * 32 <= s.silence_ms);
        }
    }
}

/// Speech with short pauses becomes one segment: it starts once, and closes
/// with the first frame at which the silence behind its last speech frame
/// outlasts `silence_ms`, and with no other. The segment is the ring, all that
/// was heard since the onset, and that silence. If less than eight frames lie
/// between the first speech frame and the last, there is none.
pub proof fn law_speech_with_pauses_is_one_segment(
    s: SegmenterView,
    talk: Seq<Heard>,
    tail: Seq<Heard>,
    i: int,
)
    requires
        is_state(s),
        s.speaking is None,
        talk.len() > 0,
        float_ge(talk[0].1, s.threshold),
        float_ge(talk.last().1, s.threshold),
        is_whole(talk),
        is_whole(tail),
        pauses_are_short(talk, s.threshold, s.silence_ms),
        is_pause(tail, s.threshold, 0, tail.len() as int),
        tail.len() > 0,
        tail.len() * 32 > s.silence_ms,
        (tail.len() - 1) * 32 <= s.silence_ms,
        0 <= i < talk.len() + tail.len(),
    ensures
        event_at(s, talk + tail, i) == (if i == 0 {
            Some(VadEventView::SpeechStart)
        } else if i == talk.len() + tail.len() - 1 && talk.len() >= 8 {
            Some(
                VadEventView::Segment(
                    joined(s.preroll) + joined(sounds(talk)) + joined(sounds(tail)),
                ),
            )
        } else {
            None
        }),
        after(s, talk + tail).speaking is None,
        after(s, talk + tail).segment == Seq::<u32>::empty(),
{
    let run = talk + tail;
    lemma_talk(s, talk);
    let speaking = after(s, talk);
    assert(trailing(talk, s.threshold) == 0);
    let j = i - talk.len();
    if j < 0 {
        law_short_pauses_do_not_cut(s, talk, i);
        assert(run.take(i) =~= talk.take(i));
        assert(run[i] == talk[i]);
    } else {
        lemma_quiet_part(tail, s.threshold, j);
        lemma_trailing(speaking, tail.take(j));
        assert(run.take(i) =~= talk + tail.take(j));
        lemma_after_both(s, talk, tail.take(j));
        assert(run[i] == tail[j]);
    }
    let last = tail.len() - 1;
    lemma_quiet_part(tail, s.threshold, last);
    lemma_trailing(speaking, tail.take(last));
    assert(tail.drop_last() =~= tail.take(last));
    lemma_after_both(s, talk, tail);
    assert(tail[last].0.len() == FRAME_LEN);
    assert(!float_ge(tail[last].1, s.threshold));
    assert(sounds(tail) =~= sounds(tail.take(last)).push(tail[last].0));
    lemma_joined_push(sounds(tail.take(last)), tail[last].0);
    let base = joined(s.preroll) + joined(sounds(talk));
    assert(base + joined(sounds(tail.take(last))) + tail[last].0 =~= base + joined(sounds(tail)));
    lemma_joined_len(s.preroll);
    lemma_sounds_len(talk);
    lemma_sounds_len(tail);
}

proof fn lemma_sounds_len(run: Seq<Heard>)
    requires
        is_whole(run),
    ensures
        joined(sounds(run)).len() == run.len() * FRAME_LEN,
{
    let v = sounds(run);
    assert forall|i: int| 0 <= i < v.len() implies (#[trigger] v[i]).len() == FRAME_LEN by {
        assert(run[i].0.len() == FRAME_LEN);
    }
    lemma_joined_len(v);
}

proof fn lemma_quiet_part(tail: Seq<Heard>, threshold: u32, n: int)
    requires
        is_whole(tail),
        is_pause(tail, threshold, 0, tail.len() as int),
        0 <= n <= tail.len(),
    ensures
        is_all(tail.take(n), threshold, false),
{
    let part = tail.take(n);
    assert forall|i: int| 0 <= i < part.len() implies (#[trigger] part[i]).0.len() == FRAME_LEN
        && float_ge(part[i].1, threshold) == false by {
        assert(part[i] == tail[i]);
    }
}

/// What a segmenter that speaks after a run has heard: an onset, and since then
/// no silence that outlasts `silence_ms`, but the frames that it counts.
proof fn lemma_onset(s: SegmenterView, run: Seq<Heard>) -> (o: int)
    requires
        is_state(s),
        s.speaking is None,
        is_whole(run),
        after(s, run).speaking is Some,
    ensures
        0 <= o < run.len(),
        float_ge(run[o].1, s.threshold),
        event_at(s, run, o) == Some(VadEventView::SpeechStart),
        pauses_are_short(run.skip(o), s.threshold, s.silence_ms),
        after(s, run.take(o)).speaking is None,
        after(s, run) == after(after(s, run.take(o)), run.skip(o)),
    decreases run.len(),
{
    let rest = run.drop_last();
    let h = run.last();
    assert(rest =~= run.take(run.len() - 1));
    assert(is_whole(rest)) by {
        assert forall|k: int| 0 <= k < rest.len() implies (#[trigger] rest[k]).0.len()
            == FRAME_LEN by {
            assert(rest[k] == run[k]);
        }
    }
    let before = after(s, rest);
    if before.speaking is None {
        let o = run.len() - 1;
        lemma_settings(s, rest);
        assert(event_at(s, run, o) == Some(VadEventView::SpeechStart));
        let one = run.skip(o);
        assert(one =~= seq![h]);
        assert(run =~= rest + one);
        lemma_after_both(s, rest, one);
        assert forall|from: int, to: int|
            0 <= from <= to <= one.len() && #[trigger] is_pause(one, s.threshold, from, to) implies (
        to - from) * 32 <= s.silence_ms by {
            if from < to {
                assert(float_ge(one[0].1, s.threshold));
            }
        }
        o
    } else {
        let o = lemma_onset(s, rest);
        lemma_settings(s, rest);
        assert(rest.take(o) =~= run.take(o));
        let part = rest.skip(o);
        let whole = run.skip(o);
        assert(whole.drop_last() =~= part);
        assert(whole.last() == h);
        assert(whole =~= part.push(h));
        assert(rest[o] == run[o]);
        let base = after(s, run.take(o));
        lemma_settings(s, run.take(o));
        assert(is_whole(part)) by {
            assert forall|k: int| 0 <= k < part.len() implies (#[trigger] part[k]).0.len()
                == FRAME_LEN by {
                assert(part[k] == run[o + k]);
            }
        }
        lemma_state_after(s, run.take(o));
        assert(part[0] == run[o]);
        lemma_talk(base, part);
        lemma_trailing_pause(whole, s.threshold);
        assert forall|from: int, to: int|
            0 <= from <= to <= whole.len() && #[trigger] is_pause(
                whole,
                s.threshold,
                from,
                to,
            ) implies (to - from) * 32 <= s.silence_ms by {
            if to < whole.len() {
                assert forall|k: int| from <= k < to implies !float_ge(
                    (#[trigger] part[k]).1,
                    s.threshold,
                ) by {
                    assert(part[k] == whole[k]);
                }
                assert(is_pause(part, s.threshold, from, to));
            } else if from < to {
                assert(!float_ge(whole[whole.len() - 1].1, s.threshold));
                let n = trailing(whole, s.threshold);
                if to - from > n {
                    assert(!float_ge(whole[whole.len() - n - 1].1, s.threshold));
                }
                assert(to - from <= n);
                assert(n == trailing(part, s.threshold) + 1);
            }
        }
        o
    }
}

proof fn lemma_settings(s: SegmenterView, run: Seq<Heard>)
    ensures
        after(s, run).threshold == s.threshold,
        after(s, run).silence_ms == s.silence_ms,
    decreases run.len(),
{
    if run.len() > 0 {
        lemma_settings(s, run.drop_last());
    }
}

proof fn lemma_state_after(s: SegmenterView, run: Seq<Heard>)
    requires
        is_state(s),
        is_whole(run),
    ensures
        is_state(after(s, run)),
    decreases run.len(),
{
    if run.len() > 0 {
        let rest = run.drop_last();
        assert forall|k: int| 0 <= k < rest.len() implies (#[trigger] rest[k]).0.len()
            == FRAME_LEN by {
            assert(rest[k] == run[k]);
        }
        lemma_state_after(s, rest);
        assert(run[run.len() - 1].0.len() == FRAME_LEN);
        law_states_are_kept(
            after(s, rest),
            run.last().0,
            float_ge(run.last().1, after(s, rest).threshold),
        );
    }
}

/// Frames that are put together keep their order, and every sample its place: a
/// frame's own samples stand behind those of the frames in front of it.
pub proof fn law_frames_keep_their_order(frames: Seq<Seq<u32>>, i: int, k: int)
    requires
        forall|j: int| 0 <= j < frames.len() ==> (#[trigger] frames[j]).len() == 512,
        0 <= i < frames.len(),
        0 <= k < 512,
    ensures
        joined(frames).len() == 512 * frames.len(),
        joined(frames)[512 * i + k] == frames[i][k],
    decreases frames.len(),
{
    lemma_joined_len(frames);
    let rest = frames.drop_last();
    assert forall|j: int| 0 <= j < rest.len() implies (#[trigger] rest[j]).len() == 512 by {
        assert(rest[j] == frames[j]);
    }
    lemma_joined_len(rest);
    if i < rest.len() {
        law_frames_keep_their_order(rest, i, k);
        assert(rest[i] == frames[i]);
    }
}

/// The ring always holds the last eight frames that were heard, or all of them
/// while there are fewer, whatever was speech: so no onset loses its lead-in.
pub proof fn law_ring_holds_the_last_frames(s: SegmenterView, run: Seq<Heard>)
    requires
        s.preroll.len() <= 8,
    ensures
        ({
            let heard = s.preroll + sounds(run);
            after(s, run).preroll == if heard.len() <= 8 {
                heard
            } else {
                heard.skip(heard.len() - 8)
            }
        }),
    decreases run.len(),
{
    if run.len() == 0 {
        assert(s.preroll + sounds(run) =~= s.preroll);
    } else {
        let rest = run.drop_last();
        law_ring_holds_the_last_frames(s, rest);
        lemma_ring(s.preroll + sounds(rest), run.last().0);
        assert((s.preroll + sounds(rest)).push(run.last().0) =~= s.preroll + sounds(run));
    }
}

/// A segment closes only in silence: at the frame of a run that fires one, the
/// last `silence_ms / 32 + 1` frames, itself among them, are below the
/// threshold, and the one in front of those is speech; since the onset no
/// silence before it was as long; and at least eight frames lie between the
/// onset and the silence. This holds of every run from a listening segmenter.
pub proof fn law_segments_close_in_silence(s: SegmenterView, run: Seq<Heard>, i: int) -> (o: int)
    requires
        is_state(s),
        s.speaking is None,
        is_whole(run),
        0 <= i < run.len(),
        event_at(s, run, i) is Some,
        event_at(s, run, i)->0 is Segment,
    ensures
        ({
            let n = s.silence_ms / 32 + 1;
            &&& 0 <= o
            &&& o + 8 + n <= i + 1
            &&& event_at(s, run, o) == Some(VadEventView::SpeechStart)
            &&& pauses_are_short(run.subrange(o, i), s.threshold, s.silence_ms)
            &&& is_pause(run, s.threshold, i + 1 - n, i + 1)
            &&& float_ge(run[i - n].1, s.threshold)
            &&& event_at(s, run, i)->0->Segment_0 == joined(after(s, run.take(o)).preroll) + joined(
                sounds(run.subrange(o, i + 1)),
            )
        }),
{
    let before = run.take(i);
    assert(is_whole(before)) by {
        assert forall|k: int| 0 <= k < before.len() implies (#[trigger] before[k]).0.len()
            == FRAME_LEN by {
            assert(before[k] == run[k]);
        }
    }
    let o = lemma_onset(s, before);
    assert(before.take(o) =~= run.take(o));
    assert(before[o] == run[o]);
    let talk = before.skip(o);
    assert(talk =~= run.subrange(o, i));
    assert(is_whole(talk)) by {
        assert forall|k: int| 0 <= k < talk.len() implies (#[trigger] talk[k]).0.len()
            == FRAME_LEN by {
            assert(talk[k] == run[o + k]);
        }
    }
    let base = after(s, run.take(o));
    lemma_settings(s, run.take(o));
    lemma_settings(s, before);
    assert(is_whole(run.take(o))) by {
        assert forall|k: int| 0 <= k < run.take(o).len() implies (#[trigger] run.take(o)[k]).0.len()
            == FRAME_LEN by {
            assert(run.take(o)[k] == run[k]);
        }
    }
    lemma_state_after(s, run.take(o));
    assert(talk[0] == run[o]);
    lemma_talk(base, talk);
    lemma_trailing_pause(talk, s.threshold);
    let m = trailing(talk, s.threshold) as int;
    assert(m < talk.len()) by {
        if m == talk.len() {
            assert(is_pause(talk, s.threshold, 0, talk.len() as int));
            assert(!float_ge(talk[0].1, s.threshold));
        }
    }
    assert(is_pause(talk, s.threshold, talk.len() - m, talk.len() as int));
    assert(m * 32 <= s.silence_ms);
    let n = s.silence_ms / 32 + 1;
    assert(n == m + 1);
    assert forall|k: int| i + 1 - n <= k < i + 1 implies !float_ge(
        (#[trigger] run[k]).1,
        s.threshold,
    ) by {
        if k < i {
            assert(talk[k - o] == run[k]);
        }
    }
    assert(talk[talk.len() - m - 1] == run[i - n]);
    lemma_joined_len(base.preroll);
    lemma_sounds_len(talk);
    assert(run[i].0.len() == FRAME_LEN);
    let heard = run.subrange(o, i + 1);
    assert(sounds(heard) =~= sounds(talk).push(run[i].0));
    lemma_joined_push(sounds(talk), run[i].0);
    assert(joined(base.preroll) + joined(sounds(talk)) + run[i].0 =~= joined(base.preroll)
        + joined(sounds(heard)));
    o
}

/// Pure VAD segmentation state machine.
///
/// A fixed preroll ring of 8 frames (256 ms) is prepended so onsets are not
/// clipped. `SpeechStart` fires on the first speech frame while listening;
/// `Segment` fires when trailing silence exceeds `silence_ms` (a ~250 ms
/// min-segment-length guard rejects clicks). The segmenter returns to
/// listening immediately — continuous listening, including during playback
/// (required for barge-in).
pub struct VadSegmenter {
    threshold: u32,
    silence_ms: u32,
    speaking: Option<u32>,
    preroll: Vec<Vec<u32>>,
    segment: Vec<u32>,
    preroll_at_onset: usize,
}

/// The samples of each frame.
pub open spec fn frames(v: Seq<Vec<u32>>) -> Seq<Seq<u32>> {
    v.map_values(|f: Vec<u32>| f@)
}

impl View for VadSegmenter {
    type V = SegmenterView;

    closed spec fn view(&self) -> SegmenterView {
        SegmenterView {
            threshold: self.threshold,
            silence_ms: self.silence_ms as nat,
            speaking: match self.speaking {
                Some(n) => Some(n as nat),
                None => None,
            },
            preroll: frames(self.preroll@),
            segment: self.segment@,
            preroll_at_onset: self.preroll_at_onset as nat,
        }
    }
}

impl VadSegmenter {
    /// The state can occur.
    pub open spec fn wf(&self) -> bool {
        is_state(self@)
    }

    /// Creates a segmenter closing segments after `silence_ms` of trailing
    /// sub-`threshold` frames.
    pub fn new(threshold: u32, silence_ms: u32) -> (r: Self)
        ensures
            r.wf(),
            r@ == (SegmenterView {
                threshold,
                silence_ms: silence_ms as nat,
                speaking: None,
                preroll: Seq::empty(),
                segment: Seq::empty(),
                preroll_at_onset: 0,
            }),
    {
        let r = VadSegmenter {
            threshold,
            silence_ms,
            speaking: None,
            preroll: Vec::new(),
            segment: Vec::new(),
            preroll_at_onset: 0,
        };
        assert(r@.preroll =~= Seq::empty());
        r
    }

    /// Whether a frame of this probability is speech.
    pub fn is_speech(&self, prob: u32) -> (r: bool)
        ensures
            r == float_ge(prob, self@.threshold),
    {
        at_least(prob, self.threshold)
    }

    /// Feeds one 512-sample frame and its speech probability; returns an
    /// event when a boundary fires.
    pub fn push(&mut self, frame: &Vec<u32>, prob: u32) -> (r: Option<VadEvent>)
        requires
            old(self).wf(),
            frame@.len() == FRAME_LEN,
        ensures
            final(self).wf(),
            (final(self)@, opt_event(r)) == segment_step(
                old(self)@,
                frame@,
                float_ge(prob, old(self)@.threshold),
            ),
    {
        let is_speech = self.is_speech(prob);
        proof {
            law_states_are_kept(self@, frame@, is_speech);
        }
        match self.speaking {
            None => {
                if is_speech {
                    self.segment.clear();
                    let ghost ring = frames(self.preroll@);
                    assert(joined(ring.take(0)) =~= Seq::empty());
                    let n: usize = self.preroll.len();
                    let mut i: usize = 0;
                    while i < n
                        invariant
                            i <= n == self.preroll@.len(),
                            ring == frames(self.preroll@),
                            self.segment@ == joined(ring.take(i as int)),
                            self.silence_ms == old(self)@.silence_ms,
                            self.threshold == old(self)@.threshold,
                            frames(self.preroll@) == old(self)@.preroll,
                        decreases n - i,
                    {
                        let ghost before = self.segment@;
                        let mut piece = self.preroll[i].clone();
                        self.segment.append(&mut piece);
                        assert(ring.take(i + 1).drop_last() =~= ring.take(i as int));
                        assert(ring.take(i + 1).last() == self.preroll@[i as int]@);
                        assert(self.segment@ =~= joined(ring.take(i + 1)));
                        i += 1;
                    }
                    assert(ring.take(n as int) =~= ring);
                    self.preroll_at_onset = n;
                    let mut onset = frame.clone();
                    self.segment.append(&mut onset);
                    self.ring_push(frame);
                    self.speaking = Some(0);
                    assert(self@ =~= segment_step(old(self)@, frame@, is_speech).0);
                    Some(VadEvent::SpeechStart)
                } else {
                    self.ring_push(frame);
                    assert(self@ =~= segment_step(old(self)@, frame@, is_speech).0);
                    None
                }
            },
            Some(silent) => {
                let mut more = frame.clone();
                self.segment.append(&mut more);
                self.ring_push(frame);
                if is_speech {
                    self.speaking = Some(0);
                    assert(self@ =~= segment_step(old(self)@, frame@, is_speech).0);
                    return None;
                }
                let silent_frames: u64 = silent as u64 + 1;
                if silent_frames * FRAME_MS as u64 > self.silence_ms as u64 {
                    self.speaking = None;
                    let total: usize = self.segment.len() / FRAME_LEN;
                    let active: usize = total - self.preroll_at_onset - silent_frames as usize;
                    let mut taken: Vec<u32> = Vec::new();
                    std::mem::swap(&mut taken, &mut self.segment);
                    assert(self@ =~= segment_step(old(self)@, frame@, is_speech).0);
                    if active as u64 >= 8 {
                        assert(active * FRAME_MS >= MIN_SEGMENT_MS);
                        Some(VadEvent::Segment(taken))
                    } else {
                        None
                    }
                } else {
                    self.speaking = Some(silent_frames as u32);
                    assert(self@ =~= segment_step(old(self)@, frame@, is_speech).0);
                    None
                }
            },
        }
    }

    /// Appends a frame to the fixed preroll ring.
    fn ring_push(&mut self, frame: &Vec<u32>)
        requires
            old(self)@.preroll.len() <= PREROLL_FRAMES,
        ensures
            final(self)@ == (SegmenterView {
                preroll: ring_with(old(self)@.preroll, frame@),
                ..old(self)@
            }),
    {
        let ghost before = self.preroll@;
        if self.preroll.len() >= PREROLL_FRAMES {
            self.preroll.remove(0);
        }
        let copy = frame.clone();
        assert(copy@ =~= frame@);
        self.preroll.push(copy);
        assert(frames(self.preroll@) =~= ring_with(frames(before), frame@));
    }
}

} // verus!
