//! The decisions of the stage tasks: VAD, STT bridge, LLM, TTS, and the
//! first-audible watcher.

use vstd::prelude::*;

use crate::agent::{AgentEvent, AgentEventView};
use crate::error::{LlmError, SkadooshError};
use crate::text::{contains_str, to_lowercase, trim};
use crate::vad::{segment_step, VadEvent, VadEventView, VadSegmenter, FRAME_LEN};

verus! {

/// Nanoseconds in a millisecond.
pub const NANOS_PER_MILLI: u64 = 1_000_000;

/// Give up waiting for first-audible after this long (stalled device), in
/// nanoseconds.
pub const AUDIBLE_TIMEOUT: u64 = 3_000_000_000;

/// The whole milliseconds of a duration in nanoseconds.
pub fn millis(nanos: u64) -> (r: u64)
    ensures
        r == nanos as int / 1_000_000,
{
    nanos / NANOS_PER_MILLI
}

/// The whole milliseconds from one instant to another; zero where the second
/// is not the later one.
pub open spec fn elapsed(from: u64, to: u64) -> nat {
    if to >= from {
        ((to - from) / 1_000_000) as nat
    } else {
        0
    }
}

pub(crate) fn elapsed_ms(from: u64, to: u64) -> (r: u64)
    ensures
        r == elapsed(from, to),
{
    if to >= from {
        millis(to - from)
    } else {
        0
    }
}

// ---------------------------------------------------------------------------
// VAD
// ---------------------------------------------------------------------------

/// Barge-in onset gate: a `SpeechStart` while playback is active is only
/// forwarded after a *second consecutive* speech frame (2 frames = 64 ms
/// hangover) to reject clicks. With no playback, onsets forward immediately.
#[derive(Debug, Clone, Copy, PartialEq, Eq, Structural)]
pub struct OnsetGate {
    /// A gated onset is awaiting its confirmation frame.
    pub pending: bool,
}

impl Default for OnsetGate {
    fn default() -> (r: Self)
        ensures
            !r.pending,
    {
        OnsetGate { pending: false }
    }
}

/// What a frame does to a pending onset, and whether an onset is forwarded for it.
pub open spec fn gate_step(pending: bool, is_start: bool, is_speech: bool, playing: bool) -> (
    bool,
    bool,
) {
    if pending {
        (false, is_speech)
    } else if is_start && playing {
        (true, false)
    } else {
        (false, is_start)
    }
}

impl OnsetGate {
    /// Called on every frame. `is_start`: the segmenter fired `SpeechStart`
    /// this frame; `is_speech`: this frame is at/above threshold; `playing`:
    /// playback audible. Returns `true` when a `SpeechStart` must be
    /// forwarded to the orchestrator for *this* frame.
    pub fn filter(&mut self, is_start: bool, is_speech: bool, playing: bool) -> (r: bool)
        ensures
            (final(self).pending, r) == gate_step(old(self).pending, is_start, is_speech, playing),
    {
        if self.pending {
            self.pending = false;
            return is_speech;
        }
        if is_start && playing {
            self.pending = true;
            return false;
        }
        is_start
    }
}

/// While playback is audible, an onset is forwarded exactly when the frame
/// behind it is speech too; a one-frame click never gets through.
pub proof fn law_clicks_are_rejected(second_is_speech: bool, playing_then: bool)
    ensures
        gate_step(false, true, true, true) == (true, false),
        gate_step(true, false, second_is_speech, playing_then) == (false, second_is_speech),
{
}

/// How long the VAD task sleeps when the ring holds too little for a frame:
/// the time to fill it, from 1 to 10 ms; `None` when a frame is there.
pub fn fill_wait_ms(occupied: usize) -> (r: Option<u64>)
    ensures
        match r {
            None => occupied >= FRAME_LEN,
            Some(ms) => occupied < FRAME_LEN && ms == ({
                let fill = (FRAME_LEN - occupied) / 16;
                if fill < 1 {
                    1
                } else if fill > 10 {
                    10
                } else {
                    fill
                }
            }),
        },
{
    if occupied >= FRAME_LEN {
        return None;
    }
    let fill: u64 = (FRAME_LEN - occupied) as u64 / 16;
    if fill < 1 {
        Some(1)
    } else if fill > 10 {
        Some(10)
    } else {
        Some(fill)
    }
}

/// A VAD event crossing from the VAD task to the orchestrator.
#[derive(Debug)]
pub enum VadEventMsg {
    /// Speech onset (past the 2-frame barge-in hangover).
    SpeechStart,
    /// A complete speech segment (16 kHz mono).
    Segment {
        /// Segment samples (preroll included), as float bits.
        samples: Vec<u32>,
        /// Segmenter close instant.
        t_speech_end: u64,
    },
}

/// What the VAD task does with a frame.
pub struct VadFrameOutcome {
    /// Broadcast [`AgentEvent::SpeechStart`].
    pub announce: bool,
    /// Reset the model's state.
    pub reset: bool,
    /// Send this to the orchestrator.
    pub message: Option<VadEventMsg>,
}

/// Runs the segmenter and the onset gate on one frame. A segment resets the
/// model and takes precedence over an onset that is forwarded for the same
/// frame.
pub fn vad_frame(
    segmenter: &mut VadSegmenter,
    gate: &mut OnsetGate,
    frame: &Vec<u32>,
    prob: u32,
    playing: bool,
    now: u64,
) -> (r: VadFrameOutcome)
    requires
        old(segmenter).wf(),
        frame@.len() == FRAME_LEN,
    ensures
        final(segmenter).wf(),
        ({
            let speech = crate::float_bits::float_ge(prob, old(segmenter)@.threshold);
            let (next, event) = segment_step(old(segmenter)@, frame@, speech);
            let (pending, start) = gate_step(
                old(gate).pending,
                event == Some(VadEventView::SpeechStart),
                speech,
                playing,
            );
            &&& final(segmenter)@ == next
            &&& final(gate).pending == pending
            &&& r.announce == start
            &&& r.reset == (event is Some && event->0 is Segment)
            &&& match event {
                Some(VadEventView::Segment(audio)) => r.message matches Some(
                    VadEventMsg::Segment { samples, t_speech_end },
                ) && samples@ == audio && t_speech_end == now,
                _ => if start {
                    r.message == Some(VadEventMsg::SpeechStart)
                } else {
                    r.message is None
                },
            }
        }),
{
    let is_speech = segmenter.is_speech(prob);
    let event = segmenter.push(frame, prob);
    let is_start = match &event {
        Some(VadEvent::SpeechStart) => true,
        _ => false,
    };
    let start = gate.filter(is_start, is_speech, playing);
    match event {
        Some(VadEvent::Segment(samples)) => VadFrameOutcome {
            announce: start,
            reset: true,
            message: Some(VadEventMsg::Segment { samples, t_speech_end: now }),
        },
        _ => VadFrameOutcome {
            announce: start,
            reset: false,
            message: if start {
                Some(VadEventMsg::SpeechStart)
            } else {
                None
            },
        },
    }
}

// ---------------------------------------------------------------------------
// Stages between channels
// ---------------------------------------------------------------------------

/// What a stage task does next.
#[derive(Debug)]
pub enum StageStep {
    /// Take the next message.
    Next,
    /// Go on with the message at hand.
    Proceed,
    /// Report a fatal error and end the task.
    Fatal(SkadooshError),
    /// End the task.
    Stop,
}

/// Whether a message belongs to no live turn: its token is cancelled, or a
/// later turn has begun.
pub open spec fn is_stale(cancelled: bool, turn_id: u64, current: u64) -> bool {
    cancelled || turn_id != current
}

/// Whether a message is still worth work, before anything is done with it.
pub fn check_turn(cancelled: bool, turn_id: u64, current: u64) -> (r: StageStep)
    ensures
        r == (if is_stale(cancelled, turn_id, current) {
            StageStep::Next
        } else {
            StageStep::Proceed
        }),
{
    if cancelled || turn_id != current {
        StageStep::Next
    } else {
        StageStep::Proceed
    }
}

/// What follows the handing over of a message: a closed channel ends the task,
/// as a fatal error unless shutdown was requested.
pub fn after_send(ok: bool, shutdown: bool, what: &str) -> (r: StageStep)
    ensures
        match r {
            StageStep::Proceed => ok,
            StageStep::Stop => !ok && shutdown,
            StageStep::Fatal(SkadooshError::Other(m)) => !ok && !shutdown && m@ == what@
                + " channel closed unexpectedly"@,
            _ => false,
        },
{
    if ok {
        StageStep::Proceed
    } else if shutdown {
        StageStep::Stop
    } else {
        StageStep::Fatal(
            SkadooshError::Other(what.to_owned().concat(" channel closed unexpectedly")),
        )
    }
}

/// What the STT bridge does with the outcome of a transcription. STT is never
/// cancelled; the outcome is dropped where the job was evicted or shutdown
/// began (benign), where the transcript is blank, or where the turn is stale
/// by now. Any other failure is fatal.
#[derive(Debug)]
pub enum SttStep {
    /// Take the next segment.
    Next,
    /// Hand this transcript on.
    Forward(String),
    /// Report a fatal error and end the task.
    Fatal(SkadooshError),
}

/// What the STT bridge does with the outcome of a transcription; the counts
/// are the engine's evicted jobs before and after.
pub fn after_transcription(
    result: Result<String, SkadooshError>,
    shutdown: bool,
    dropped_before: u64,
    dropped_after: u64,
    cancelled: bool,
    turn_id: u64,
    current: u64,
) -> (r: SttStep)
    ensures
        match result {
            Err(e) => if shutdown || dropped_after > dropped_before {
                r is Next
            } else {
                r == SttStep::Fatal(e)
            },
            Ok(text) => if crate::text::trimmed(text@).len() == 0 || is_stale(
                cancelled,
                turn_id,
                current,
            ) {
                r is Next
            } else {
                r == SttStep::Forward(text)
            },
        },
{
    match result {
        Err(e) => {
            if shutdown || dropped_after > dropped_before {
                SttStep::Next
            } else {
                SttStep::Fatal(e)
            }
        },
        Ok(text) => {
            if trim(text.as_str()).as_str().is_empty() || cancelled || turn_id != current {
                SttStep::Next
            } else {
                SttStep::Forward(text)
            }
        },
    }
}

/// Whether a transcript contains the wake word, letter case aside.
pub open spec fn wakes(transcript: Seq<char>, wake_word: Seq<char>) -> bool {
    crate::text::contains(crate::text::lowercase(transcript), crate::text::lowercase(wake_word))
}

/// Whether a transcript contains the wake word, letter case aside.
pub fn hears_wake_word(transcript: &str, wake_word: &str) -> (r: bool)
    ensures
        r == wakes(transcript@, wake_word@),
{
    contains_str(to_lowercase(transcript).as_str(), to_lowercase(wake_word).as_str())
}

/// What the LLM task does with a transcript: stale turns are dropped, and with
/// a wake word set, so are transcripts without it.
pub fn check_transcript(
    cancelled: bool,
    turn_id: u64,
    current: u64,
    text: &str,
    wake_word: Option<&str>,
) -> (r: StageStep)
    ensures
        r == (if is_stale(cancelled, turn_id, current) {
            StageStep::Next
        } else {
            match wake_word {
                Some(w) => if wakes(text@, w@) {
                    StageStep::Proceed
                } else {
                    StageStep::Next
                },
                None => StageStep::Proceed,
            }
        }),
{
    if cancelled || turn_id != current {
        return StageStep::Next;
    }
    match wake_word {
        Some(w) => {
            if hears_wake_word(text, w) {
                StageStep::Proceed
            } else {
                StageStep::Next
            }
        },
        None => StageStep::Proceed,
    }
}

/// What the LLM task does once a stream has ended: a cancelled stream is
/// benign, and so is any error during shutdown; every other error is fatal.
pub fn after_stream(result: Result<(), SkadooshError>, shutdown: bool) -> (r: StageStep)
    ensures
        match result {
            Ok(_) => r is Next,
            Err(e) => if e == SkadooshError::Llm(LlmError::Cancelled) || shutdown {
                r is Next
            } else {
                r == StageStep::Fatal(e)
            },
        },
{
    match result {
        Ok(_) => StageStep::Next,
        Err(SkadooshError::Llm(LlmError::Cancelled)) => StageStep::Next,
        Err(e) => {
            if shutdown {
                StageStep::Next
            } else {
                StageStep::Fatal(e)
            }
        },
    }
}

// ---------------------------------------------------------------------------
// TTS
// ---------------------------------------------------------------------------

/// One turn as the TTS task sees it: its latency stamps.
#[derive(Debug, Clone, Copy, PartialEq, Eq, Structural)]
pub struct TtsTurn {
    /// The turn.
    pub turn_id: u64,
    /// Whether clauses are synthesized (not so in text mode).
    pub speaks: bool,
    /// Speech end.
    pub t_speech_end: u64,
    /// Transcript.
    pub t_text: u64,
    /// First clause.
    pub t_first_clause: Option<u64>,
    /// First clip.
    pub t_first_clip: Option<u64>,
}

/// What the TTS task does next.
#[derive(Debug)]
pub enum TtsStep {
    /// Take the next clause.
    NextClause,
    /// Broadcast the clause, then take the next one (text mode).
    Show(String),
    /// Broadcast the clause, then synthesize it.
    Synthesize(String),
    /// Queue the clip at hand.
    Queue,
    /// Start the first-audible watcher, then take the next clause.
    Watch,
    /// End the turn.
    EndTurn,
    /// Report a fatal error and end the task.
    Fatal(SkadooshError),
    /// End the task.
    Stop,
}

/// The latency summary of a turn whose stages ended at these instants.
pub open spec fn latency(
    t_speech_end: u64,
    t_text: u64,
    t_clause: u64,
    tts_ms: nat,
    playback_ms: nat,
    t_end: u64,
) -> AgentEventView {
    AgentEventView::StageLatency(
        elapsed(t_speech_end, t_text),
        elapsed(t_text, t_clause),
        tts_ms,
        playback_ms,
        elapsed(t_speech_end, t_end),
    )
}

impl TtsTurn {
    /// A turn before its first clause.
    pub fn new(turn_id: u64, speaks: bool, t_speech_end: u64, t_text: u64) -> (r: Self)
        ensures
            r == (TtsTurn {
                turn_id,
                speaks,
                t_speech_end,
                t_text,
                t_first_clause: None,
                t_first_clip: None,
            }),
    {
        TtsTurn {
            turn_id,
            speaks,
            t_speech_end,
            t_text,
            t_first_clause: None,
            t_first_clip: None,
        }
    }

    /// A clause arrives at `now`: a stale one is dropped; any other is shown,
    /// and synthesized where the turn speaks. The first is stamped.
    pub fn on_clause(&mut self, clause: String, now: u64, cancelled: bool, current: u64) -> (r:
        TtsStep)
        ensures
            if is_stale(cancelled, old(self).turn_id, current) {
                r is NextClause && *final(self) == *old(self)
            } else {
                &&& *final(self) == TtsTurn {
                    t_first_clause: match old(self).t_first_clause {
                        Some(t) => Some(t),
                        None => Some(now),
                    },
                    ..*old(self)
                }
                &&& r == if old(self).speaks {
                    TtsStep::Synthesize(clause)
                } else {
                    TtsStep::Show(clause)
                }
            },
    {
        if cancelled || self.turn_id != current {
            return TtsStep::NextClause;
        }
        if self.t_first_clause.is_none() {
            self.t_first_clause = Some(now);
        }
        if self.speaks {
            TtsStep::Synthesize(clause)
        } else {
            TtsStep::Show(clause)
        }
    }

    /// The synthesis of a clause ended: an error is fatal unless the turn is
    /// being unwound, and a clip of a stale turn is discarded.
    pub fn on_clip(
        &self,
        result: Result<(), SkadooshError>,
        shutdown: bool,
        cancelled: bool,
        current: u64,
    ) -> (r: TtsStep)
        ensures
            match result {
                Err(e) => if shutdown || cancelled {
                    r is EndTurn
                } else {
                    r == TtsStep::Fatal(e)
                },
                Ok(_) => if is_stale(cancelled, self.turn_id, current) {
                    r is NextClause
                } else {
                    r is Queue
                },
            },
    {
        match result {
            Err(e) => {
                if shutdown || cancelled {
                    TtsStep::EndTurn
                } else {
                    TtsStep::Fatal(e)
                }
            },
            Ok(_) => {
                if cancelled || self.turn_id != current {
                    TtsStep::NextClause
                } else {
                    TtsStep::Queue
                }
            },
        }
    }

    /// A clip was queued at `now`, or queueing failed: the first clip is
    /// stamped and starts the first-audible watcher.
    pub fn on_queued(
        &mut self,
        result: Result<(), SkadooshError>,
        now: u64,
        shutdown: bool,
        cancelled: bool,
    ) -> (r: TtsStep)
        ensures
            match result {
                Err(e) => *final(self) == *old(self) && if shutdown || cancelled {
                    r is EndTurn
                } else {
                    r == TtsStep::Fatal(e)
                },
                Ok(_) => if old(self).t_first_clip is None {
                    r is Watch && *final(self) == TtsTurn {
                        t_first_clip: Some(now),
                        ..*old(self)
                    }
                } else {
                    r is NextClause && *final(self) == *old(self)
                },
            },
    {
        match result {
            Err(e) => {
                if shutdown || cancelled {
                    TtsStep::EndTurn
                } else {
                    TtsStep::Fatal(e)
                }
            },
            Ok(_) => {
                if self.t_first_clip.is_none() {
                    self.t_first_clip = Some(now);
                    TtsStep::Watch
                } else {
                    TtsStep::NextClause
                }
            },
        }
    }

    /// The events due when the turn ends at `now`: none for a cancelled turn
    /// or during shutdown. Otherwise, in text mode, the latency summary where
    /// there was a clause; then `ReplyDone`, then `Listening`.
    pub fn on_end(&self, now: u64, shutdown: bool, cancelled: bool) -> (r: Vec<AgentEvent>)
        ensures
            crate::agent::events(r@) == turn_end_events(*self, now, shutdown, cancelled),
    {
        let mut out: Vec<AgentEvent> = Vec::new();
        if !cancelled && !shutdown {
            if !self.speaks {
                match self.t_first_clause {
                    Some(t_clause) => {
                        out.push(
                            AgentEvent::StageLatency {
                                stt_ms: elapsed_ms(self.t_speech_end, self.t_text),
                                llm_ms: elapsed_ms(self.t_text, t_clause),
                                tts_ms: 0,
                                playback_ms: 0,
                                total_ms: elapsed_ms(self.t_speech_end, now),
                            },
                        );
                    },
                    None => {},
                }
            }
            out.push(AgentEvent::ReplyDone);
            out.push(AgentEvent::Listening);
        }
        assert(crate::agent::events(out@) =~= turn_end_events(*self, now, shutdown, cancelled));
        out
    }

    /// One look of the first-audible watcher, `waited` after it started:
    /// nothing more once the turn is cancelled; the latency summary once
    /// playback is audible; and it gives up after [`AUDIBLE_TIMEOUT`].
    pub fn look(&self, cancelled: bool, playing: bool, now: u64, waited: u64) -> (r: WatchStep)
        ensures
            match r {
                WatchStep::Report(e) => !cancelled && playing && self.t_first_clause is Some
                    && self.t_first_clip is Some && e@ == latency(
                    self.t_speech_end,
                    self.t_text,
                    self.t_first_clause->0,
                    elapsed(self.t_first_clause->0, self.t_first_clip->0),
                    elapsed(self.t_first_clip->0, now),
                    now,
                ),
                WatchStep::Quit => cancelled || (playing && (self.t_first_clause is None
                    || self.t_first_clip is None)) || (!playing && waited > AUDIBLE_TIMEOUT),
                WatchStep::Wait => !cancelled && !playing && waited <= AUDIBLE_TIMEOUT,
            },
    {
        if cancelled {
            return WatchStep::Quit;
        }
        if playing {
            match (self.t_first_clause, self.t_first_clip) {
                (Some(t_clause), Some(t_clip)) => WatchStep::Report(
                    AgentEvent::StageLatency {
                        stt_ms: elapsed_ms(self.t_speech_end, self.t_text),
                        llm_ms: elapsed_ms(self.t_text, t_clause),
                        tts_ms: elapsed_ms(t_clause, t_clip),
                        playback_ms: elapsed_ms(t_clip, now),
                        total_ms: elapsed_ms(self.t_speech_end, now),
                    },
                ),
                _ => WatchStep::Quit,
            }
        } else if waited > AUDIBLE_TIMEOUT {
            WatchStep::Quit
        } else {
            WatchStep::Wait
        }
    }
}

/// What the first-audible watcher does next.
#[derive(Debug)]
pub enum WatchStep {
    /// Broadcast this and end.
    Report(AgentEvent),
    /// Look again after the poll interval.
    Wait,
    /// End.
    Quit,
}

/// The events due when a turn ends.
pub open spec fn turn_end_events(t: TtsTurn, now: u64, shutdown: bool, cancelled: bool) -> Seq<
    AgentEventView,
> {
    if cancelled || shutdown {
        Seq::empty()
    } else {
        (match t.t_first_clause {
            Some(t_clause) if !t.speaks => seq![
                latency(t.t_speech_end, t.t_text, t_clause, 0, 0, now),
            ],
            _ => Seq::empty(),
        }) + seq![AgentEventView::ReplyDone, AgentEventView::Listening]
    }
}

/// A panic of the synthesis engine: always the end of the task, and a fatal
/// error unless shutdown was requested.
pub fn on_synthesis_panic(message: &str, shutdown: bool) -> (r: TtsStep)
    ensures
        if shutdown {
            r is Stop
        } else {
            r matches TtsStep::Fatal(SkadooshError::Other(m)) && m@ == "TTS synthesis panicked: "@
                + message@
        },
{
    if shutdown {
        TtsStep::Stop
    } else {
        TtsStep::Fatal(
            SkadooshError::Other("TTS synthesis panicked: ".to_owned().concat(message)),
        )
    }
}

/// A turn that is not cancelled ends with `ReplyDone` and, immediately behind
/// it, `Listening`; a cancelled turn, or one cut off by shutdown, ends with
/// neither.
pub proof fn law_listening_follows_reply_done(t: TtsTurn, now: u64, shutdown: bool, cancelled: bool)
    ensures
        ({
            let due = turn_end_events(t, now, shutdown, cancelled);
            if shutdown || cancelled {
                due.len() == 0
            } else {
                &&& due.len() >= 2
                &&& due[due.len() - 2] == AgentEventView::ReplyDone
                &&& due.last() == AgentEventView::Listening
                &&& forall|i: int|
                    0 <= i < due.len() - 1 ==> (#[trigger] due[i]) != AgentEventView::Listening
            }
        }),
{
}

// ---------------------------------------------------------------------------
// Push to talk
// ---------------------------------------------------------------------------

/// A key that push-to-talk knows.
#[derive(Debug, Clone, Copy, PartialEq, Eq, Structural)]
pub enum TalkKey {
    /// Enter or space: toggles recording.
    Toggle,
    /// Escape: stops recording and listening to keys.
    Escape,
    /// Any other key.
    Other,
}

/// What a key press does: whether recording goes on, and whether the keyboard
/// is still listened to.
pub fn on_key(recording: bool, key: TalkKey) -> (r: (bool, bool))
    ensures
        r == (match key {
            TalkKey::Toggle => (!recording, true),
            TalkKey::Escape => (false, false),
            TalkKey::Other => (recording, true),
        }),
{
    match key {
        TalkKey::Toggle => (!recording, true),
        TalkKey::Escape => (false, false),
        TalkKey::Other => (recording, true),
    }
}

/// Push-to-talk recording: what was captured, and whether the last look found
/// recording on.
pub struct PushToTalk {
    accumulating: Vec<u32>,
    was_recording: bool,
}

/// What push-to-talk does at a look.
pub struct TalkOutcome {
    /// Report a speech onset.
    pub start: bool,
    /// Send this segment.
    pub segment: Option<Vec<u32>>,
}

impl PushToTalk {
    /// What was captured so far.
    pub closed spec fn captured(&self) -> Seq<u32> {
        self.accumulating@
    }

    /// Whether the last look found recording on.
    pub closed spec fn recording(&self) -> bool {
        self.was_recording
    }

    /// Nothing captured, not recording.
    pub fn new() -> (r: Self)
        ensures
            r.captured() == Seq::<u32>::empty(),
            !r.recording(),
    {
        PushToTalk { accumulating: Vec::new(), was_recording: false }
    }

    /// One look: takes the new samples, starts afresh when recording has just
    /// been switched on, and sends what was captured when it has just been
    /// switched off (nothing, where nothing was captured).
    pub fn tick(&mut self, samples: &Vec<u32>, is_recording: bool) -> (r: TalkOutcome)
        ensures
            final(self).recording() == is_recording,
            r.start == (is_recording && !old(self).recording()),
            ({
                let all = old(self).captured() + samples@;
                if is_recording && !old(self).recording() {
                    final(self).captured() == Seq::<u32>::empty() && r.segment is None
                } else if !is_recording && old(self).recording() && all.len() > 0 {
                    final(self).captured() == Seq::<u32>::empty() && (r.segment matches Some(s)
                        && s@ == all)
                } else {
                    final(self).captured() == all && r.segment is None
                }
            }),
    {
        let mut more = samples.clone();
        self.accumulating.append(&mut more);
        assert(self.accumulating@ =~= old(self).captured() + samples@);
        let start = is_recording && !self.was_recording;
        let stop = !is_recording && self.was_recording;
        self.was_recording = is_recording;
        if start {
            self.accumulating.clear();
        }
        let mut segment: Option<Vec<u32>> = None;
        if stop && self.accumulating.len() > 0 {
            let mut taken: Vec<u32> = Vec::new();
            std::mem::swap(&mut taken, &mut self.accumulating);
            segment = Some(taken);
        }
        TalkOutcome { start, segment }
    }
}

/// Whether the hold-music feeder queues a chunk: tools are running, and
/// nothing else is audible.
pub fn feeds_hold_music(active: bool, playing: bool) -> (r: bool)
    ensures
        r == (active && !playing),
{
    active && !playing
}

/// Latencies are whole milliseconds: a span of nanoseconds holds that many
/// millions, and not one more; one that ends before it begins has none.
pub proof fn law_latencies_are_milliseconds(from: u64, to: u64)
    ensures
        from <= to ==> elapsed(from, to) * 1_000_000 <= to - from < (elapsed(from, to) + 1)
            * 1_000_000,
        to <= from ==> elapsed(from, to) == 0,
{
}

/// The stages of a turn make up the whole: where each stage began when the one
/// before it ended, their latencies add up to the total, but for what rounding
/// each of the four to whole milliseconds takes off.
pub proof fn law_stages_add_up(
    speech_end: u64,
    text: u64,
    clause: u64,
    clip: u64,
    audible: u64,
)
    requires
        speech_end <= text <= clause <= clip <= audible,
    ensures
        ({
            let event = latency(
                speech_end,
                text,
                clause,
                elapsed(clause, clip),
                elapsed(clip, audible),
                audible,
            );
            &&& event is StageLatency
            &&& event->StageLatency_0 + event->StageLatency_1 + event->StageLatency_2
                + event->StageLatency_3 <= event->StageLatency_4
            &&& event->StageLatency_4 <= event->StageLatency_0 + event->StageLatency_1
                + event->StageLatency_2 + event->StageLatency_3 + 3
            &&& event->StageLatency_0 == (text - speech_end) / 1_000_000
            &&& event->StageLatency_1 == (clause - text) / 1_000_000
            &&& event->StageLatency_2 == (clip - clause) / 1_000_000
        }),
{
}

/// Work goes on for the latest turn alone, and only while it is not cancelled.
pub proof fn law_only_the_latest_turn_is_worked_on(cancelled: bool, turn_id: u64, current: u64)
    ensures
        !is_stale(cancelled, turn_id, current) ==> turn_id == current && !cancelled,
        turn_id < current ==> is_stale(cancelled, turn_id, current),
        !is_stale(false, current, current),
{
}

} // verus!
