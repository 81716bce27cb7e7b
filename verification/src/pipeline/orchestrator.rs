//! The orchestrator core: turn minting, barge-in, superseding, watch events,
//! fatal errors, and unwinding.

use vstd::prelude::*;

use crate::agent::{AgentEvent, AgentEventView};
use crate::error::SkadooshError;
use crate::watch::WatchEvent;

verus! {

/// The in-flight turn. The entry survives the end of the LLM stream
/// (`llm_done`): the TTS task can still hold a buffered clause backlog plus
/// queued clips, so barge-in must keep its cancel capability until the turn is
/// barged in, superseded by the next segment, or shut down.
#[derive(Debug, Clone, Copy, PartialEq, Eq, Structural)]
pub struct ActiveTurn {
    /// The turn.
    pub turn_id: u64,
    /// The LLM stream ended; the TTS backlog may still be draining.
    pub llm_done: bool,
}

/// What the orchestrator waits for.
#[derive(Debug, Clone, Copy, PartialEq, Eq, Structural)]
pub enum OrchestratorPhase {
    /// The next event.
    Running,
    /// That a segment is handed to the STT bridge.
    SendingSegment,
    /// That a text is handed to the LLM task.
    SendingText,
    /// That the tasks end.
    Unwinding,
}

/// What the orchestrator meets.
pub enum OrchestratorEvent {
    /// Shutdown was requested.
    Shutdown,
    /// A task reported a fatal error.
    Fatal(SkadooshError),
    /// Every task has exited.
    FatalClosed,
    /// The LLM stream of a turn has ended.
    TurnDone(u64),
    /// The VAD event stream has closed; `shutdown` when one was requested.
    VadClosed {
        /// Whether shutdown was requested.
        shutdown: bool,
    },
    /// Speech onset; `playing` while playback is audible.
    SpeechStart {
        /// Whether playback is audible.
        playing: bool,
    },
    /// A complete speech segment.
    Segment,
    /// A proactive trigger fired.
    Watch(WatchEvent),
    /// Every watcher has finished.
    WatchClosed,
    /// The segment or text was handed over, or the channel is closed.
    Sent {
        /// Whether the receiver took it.
        ok: bool,
        /// Whether shutdown was requested.
        shutdown: bool,
    },
    /// A task ended by a panic, with this message.
    TaskPanicked(String),
}

/// What the orchestrator does.
pub enum OrchestratorAction {
    /// Drop all queued audio.
    FlushPlayback,
    /// Cancel the token of this turn.
    CancelTurn(u64),
    /// Broadcast an event.
    Emit(AgentEvent),
    /// Hand the segment at hand to the STT bridge, as this turn.
    ForwardSegment(u64),
    /// Hand a text to the LLM task, as this turn.
    ForwardText(u64, String),
    /// Cancel the shutdown token, close the channels and join the tasks.
    Unwind,
}

/// The view of an [`OrchestratorEvent`].
#[verifier::ext_equal]
pub enum OrchestratorEventView {
    /// Shutdown was requested.
    Shutdown,
    /// A task reported a fatal error.
    Fatal(SkadooshError),
    /// Every task has exited.
    FatalClosed,
    /// The LLM stream of a turn has ended.
    TurnDone(u64),
    /// The VAD event stream has closed.
    VadClosed(bool),
    /// Speech onset.
    SpeechStart(bool),
    /// A complete speech segment.
    Segment,
    /// A proactive trigger fired: its message.
    Watch(Seq<char>),
    /// Every watcher has finished.
    WatchClosed,
    /// The message was handed over; whether shutdown was requested.
    Sent(bool, bool),
    /// A task panicked.
    TaskPanicked(Seq<char>),
}

/// The view of an [`OrchestratorAction`].
#[verifier::ext_equal]
pub enum OrchestratorActionView {
    /// Drop all queued audio.
    FlushPlayback,
    /// Cancel the token of this turn.
    CancelTurn(u64),
    /// Broadcast an event.
    Emit(AgentEventView),
    /// Hand over the segment as this turn.
    ForwardSegment(u64),
    /// Hand over a text as this turn.
    ForwardText(u64, Seq<char>),
    /// Unwind.
    Unwind,
}

impl View for OrchestratorEvent {
    type V = OrchestratorEventView;

    open spec fn view(&self) -> OrchestratorEventView {
        match *self {
            OrchestratorEvent::Shutdown => OrchestratorEventView::Shutdown,
            OrchestratorEvent::Fatal(e) => OrchestratorEventView::Fatal(e),
            OrchestratorEvent::FatalClosed => OrchestratorEventView::FatalClosed,
            OrchestratorEvent::TurnDone(id) => OrchestratorEventView::TurnDone(id),
            OrchestratorEvent::VadClosed { shutdown } => OrchestratorEventView::VadClosed(shutdown),
            OrchestratorEvent::SpeechStart { playing } => OrchestratorEventView::SpeechStart(
                playing,
            ),
            OrchestratorEvent::Segment => OrchestratorEventView::Segment,
            OrchestratorEvent::Watch(w) => OrchestratorEventView::Watch(w.text()),
            OrchestratorEvent::WatchClosed => OrchestratorEventView::WatchClosed,
            OrchestratorEvent::Sent { ok, shutdown } => OrchestratorEventView::Sent(ok, shutdown),
            OrchestratorEvent::TaskPanicked(m) => OrchestratorEventView::TaskPanicked(m@),
        }
    }
}

impl View for OrchestratorAction {
    type V = OrchestratorActionView;

    open spec fn view(&self) -> OrchestratorActionView {
        match *self {
            OrchestratorAction::FlushPlayback => OrchestratorActionView::FlushPlayback,
            OrchestratorAction::CancelTurn(id) => OrchestratorActionView::CancelTurn(id),
            OrchestratorAction::Emit(e) => OrchestratorActionView::Emit(e@),
            OrchestratorAction::ForwardSegment(id) => OrchestratorActionView::ForwardSegment(id),
            OrchestratorAction::ForwardText(id, t) => OrchestratorActionView::ForwardText(id, t@),
            OrchestratorAction::Unwind => OrchestratorActionView::Unwind,
        }
    }
}

/// The views of a list of actions.
pub open spec fn actions(v: Seq<OrchestratorAction>) -> Seq<OrchestratorActionView> {
    v.map_values(|a: OrchestratorAction| a@)
}

/// Why a run ended.
#[verifier::ext_equal]
pub enum Ending {
    /// As it was asked to.
    Clean,
    /// By an error that a stage reported.
    Stage(SkadooshError),
    /// By an error of the pipeline itself, with this message.
    Internal(Seq<char>),
}

/// The view of an [`Orchestrator`].
#[verifier::ext_equal]
pub struct OrchestratorView {
    /// The latest turn.
    pub current_turn: u64,
    /// The turn in flight.
    pub active: Option<ActiveTurn>,
    /// What the orchestrator waits for.
    pub phase: OrchestratorPhase,
    /// How the run ends, as far as is known.
    pub ending: Ending,
    /// No more watch events come.
    pub watch_done: bool,
}

/// Whether the orchestrator can meet the event in its phase.
pub open spec fn orchestrator_expects(s: OrchestratorView, e: OrchestratorEventView) -> bool {
    match s.phase {
        OrchestratorPhase::Running => !(e is Sent) && !(e is TaskPanicked) && ((e is Segment
            || e is Watch) ==> s.current_turn < u64::MAX),
        OrchestratorPhase::SendingSegment => e is Sent || e is Shutdown,
        OrchestratorPhase::SendingText => e is Sent || e is Shutdown,
        OrchestratorPhase::Unwinding => e is TaskPanicked,
    }
}

/// The cancellation of the turn in flight, where there is one.
pub open spec fn cancel_active(s: OrchestratorView) -> Seq<OrchestratorActionView> {
    match s.active {
        Some(t) => seq![OrchestratorActionView::CancelTurn(t.turn_id)],
        None => Seq::empty(),
    }
}

/// The end of the run: the turn in flight is cancelled and everything unwinds.
pub open spec fn unwind(s: OrchestratorView, ending: Ending) -> (
    OrchestratorView,
    Seq<OrchestratorActionView>,
) {
    (
        OrchestratorView { phase: OrchestratorPhase::Unwinding, active: None, ending, ..s },
        seq![OrchestratorActionView::Unwind] + cancel_active(s),
    )
}

/// A fresh turn, which supersedes the one in flight.
pub open spec fn mint(s: OrchestratorView, phase: OrchestratorPhase) -> OrchestratorView {
    let id = (s.current_turn + 1) as u64;
    OrchestratorView {
        current_turn: id,
        active: Some(ActiveTurn { turn_id: id, llm_done: false }),
        phase,
        ..s
    }
}

/// What an event does to the orchestrator, and what the orchestrator does.
pub open spec fn orchestrator_step(s: OrchestratorView, e: OrchestratorEventView) -> (
    OrchestratorView,
    Seq<OrchestratorActionView>,
) {
    match e {
        OrchestratorEventView::Shutdown => unwind(s, s.ending),
        OrchestratorEventView::Fatal(err) => unwind(s, Ending::Stage(err)),
        OrchestratorEventView::FatalClosed => unwind(s, s.ending),
        OrchestratorEventView::TurnDone(id) => match s.active {
            Some(t) if t.turn_id == id => (
                OrchestratorView {
                    active: Some(ActiveTurn { turn_id: id, llm_done: true }),
                    ..s
                },
                Seq::empty(),
            ),
            _ => (s, Seq::empty()),
        },
        OrchestratorEventView::VadClosed(shutdown) => unwind(
            s,
            if shutdown {
                s.ending
            } else {
                Ending::Internal("VAD event stream closed unexpectedly"@)
            },
        ),
        OrchestratorEventView::SpeechStart(playing) => if playing {
            (
                OrchestratorView { active: None, ..s },
                seq![OrchestratorActionView::FlushPlayback] + cancel_active(s) + (match s.active {
                    Some(_) => seq![OrchestratorActionView::Emit(AgentEventView::TurnCancelled)],
                    None => Seq::empty(),
                }),
            )
        } else {
            (s, Seq::empty())
        },
        OrchestratorEventView::Segment => {
            let next = mint(s, OrchestratorPhase::SendingSegment);
            (
                next,
                cancel_active(s) + seq![OrchestratorActionView::ForwardSegment(next.current_turn)],
            )
        },
        OrchestratorEventView::Watch(message) => {
            let next = mint(s, OrchestratorPhase::SendingText);
            (
                next,
                cancel_active(s) + seq![
                    OrchestratorActionView::ForwardText(
                        next.current_turn,
                        "NOTIFICATION: "@ + message,
                    ),
                ],
            )
        },
        OrchestratorEventView::WatchClosed => (
            OrchestratorView { watch_done: true, ..s },
            Seq::empty(),
        ),
        OrchestratorEventView::Sent(ok, shutdown) => if ok {
            (OrchestratorView { phase: OrchestratorPhase::Running, ..s }, Seq::empty())
        } else {
            unwind(
                s,
                if shutdown {
                    s.ending
                } else if s.phase == OrchestratorPhase::SendingSegment {
                    Ending::Internal("STT bridge channel closed unexpectedly"@)
                } else {
                    Ending::Internal("LLM task channel closed unexpectedly"@)
                },
            )
        },
        OrchestratorEventView::TaskPanicked(m) => (
            OrchestratorView {
                ending: if s.ending is Clean {
                    Ending::Internal("pipeline task panicked: "@ + m)
                } else {
                    s.ending
                },
                ..s
            },
            Seq::empty(),
        ),
    }
}

/// The orchestrator core: dispatches VAD events (barge-in + turn minting),
/// marks finished streams, injects watch events as turns, and owns the fatal
/// outcome.
pub struct Orchestrator {
    current_turn: u64,
    active: Option<ActiveTurn>,
    phase: OrchestratorPhase,
    fatal: Option<SkadooshError>,
    internal: bool,
    watch_done: bool,
}

impl View for Orchestrator {
    type V = OrchestratorView;

    closed spec fn view(&self) -> OrchestratorView {
        OrchestratorView {
            current_turn: self.current_turn,
            active: self.active,
            phase: self.phase,
            ending: match self.fatal {
                None => Ending::Clean,
                Some(e) => if self.internal {
                    Ending::Internal(e.text())
                } else {
                    Ending::Stage(e)
                },
            },
            watch_done: self.watch_done,
        }
    }
}

impl Orchestrator {
    /// An error of the pipeline itself is a plain message.
    pub closed spec fn wf(&self) -> bool {
        self.internal ==> (self.fatal matches Some(e) && e is Other)
    }

    /// The topology is up; the agent is waiting for speech, and says so.
    pub fn start() -> (r: (Self, AgentEvent))
        ensures
            r.0.wf(),
            r.0@ == (OrchestratorView {
                current_turn: 0,
                active: None,
                phase: OrchestratorPhase::Running,
                ending: Ending::Clean,
                watch_done: false,
            }),
            r.1@ == AgentEventView::Listening,
    {
        (
            Orchestrator {
                current_turn: 0,
                active: None,
                phase: OrchestratorPhase::Running,
                fatal: None,
                internal: false,
                watch_done: false,
            },
            AgentEvent::Listening,
        )
    }

    /// The latest turn; stale-turn drops compare against it.
    pub fn current_turn(&self) -> (r: u64)
        ensures
            r == self@.current_turn,
    {
        self.current_turn
    }

    /// What the orchestrator waits for.
    pub fn phase(&self) -> (r: OrchestratorPhase)
        ensures
            r == self@.phase,
    {
        self.phase
    }

    /// Whether no more watch events come, so that none is waited for.
    pub fn watch_done(&self) -> (r: bool)
        ensures
            r == self@.watch_done,
    {
        self.watch_done
    }

    fn cancel_active(&mut self, out: &mut Vec<OrchestratorAction>)
        requires
            old(self).wf(),
        ensures
            final(self).wf(),
            final(self)@ == (OrchestratorView { active: None, ..old(self)@ }),
            actions(final(out)@) == actions(old(out)@) + cancel_active(old(self)@),
    {
        match self.active {
            Some(t) => {
                let a = OrchestratorAction::CancelTurn(t.turn_id);
                out.push(a);
                assert(actions(out@) =~= actions(old(out)@) + seq![a@]);
            },
            None => {
                assert(actions(out@) =~= actions(old(out)@) + Seq::empty());
            },
        }
        self.active = None;
    }

    fn unwind(&mut self) -> (out: Vec<OrchestratorAction>)
        requires
            old(self).wf(),
        ensures
            final(self).wf(),
            (final(self)@, actions(out@)) == unwind(old(self)@, old(self)@.ending),
    {
        let mut out: Vec<OrchestratorAction> = Vec::new();
        out.push(OrchestratorAction::Unwind);
        assert(actions(out@) =~= seq![OrchestratorActionView::Unwind]);
        self.cancel_active(&mut out);
        self.phase = OrchestratorPhase::Unwinding;
        out
    }

    fn fail(&mut self, message: &str) -> (out: Vec<OrchestratorAction>)
        requires
            old(self).wf(),
        ensures
            final(self).wf(),
            (final(self)@, actions(out@)) == unwind(old(self)@, Ending::Internal(message@)),
    {
        self.fatal = Some(SkadooshError::Other(message.to_owned()));
        self.internal = true;
        self.unwind()
    }

    fn mint(&mut self, phase: OrchestratorPhase, out: &mut Vec<OrchestratorAction>)
        requires
            old(self).wf(),
            old(self)@.current_turn < u64::MAX,
        ensures
            final(self).wf(),
            final(self)@ == mint(old(self)@, phase),
            actions(final(out)@) == actions(old(out)@) + cancel_active(old(self)@),
    {
        self.cancel_active(out);
        self.current_turn += 1;
        self.active = Some(ActiveTurn { turn_id: self.current_turn, llm_done: false });
        self.phase = phase;
    }

    /// Takes an event; says what to do, in order.
    pub fn step(&mut self, event: OrchestratorEvent) -> (out: Vec<OrchestratorAction>)
        requires
            old(self).wf(),
            orchestrator_expects(old(self)@, event@),
        ensures
            final(self).wf(),
            (final(self)@, actions(out@)) == orchestrator_step(old(self)@, event@),
    {
        let mut out: Vec<OrchestratorAction> = Vec::new();
        assert(actions(out@) =~= Seq::empty());
        match event {
            OrchestratorEvent::Shutdown => self.unwind(),
            OrchestratorEvent::Fatal(e) => {
                self.fatal = Some(e);
                self.internal = false;
                self.unwind()
            },
            OrchestratorEvent::FatalClosed => self.unwind(),
            OrchestratorEvent::TurnDone(id) => {
                match self.active {
                    Some(t) => {
                        if t.turn_id == id {
                            self.active = Some(ActiveTurn { turn_id: id, llm_done: true });
                        }
                    },
                    None => {},
                }
                out
            },
            OrchestratorEvent::VadClosed { shutdown } => {
                if shutdown {
                    self.unwind()
                } else {
                    self.fail("VAD event stream closed unexpectedly")
                }
            },
            OrchestratorEvent::SpeechStart { playing } => {
                if playing {
                    let had = self.active.is_some();
                    out.push(OrchestratorAction::FlushPlayback);
                    assert(actions(out@) =~= seq![OrchestratorActionView::FlushPlayback]);
                    self.cancel_active(&mut out);
                    if had {
                        let ghost before = out@;
                        let a = OrchestratorAction::Emit(AgentEvent::TurnCancelled);
                        out.push(a);
                        assert(actions(out@) =~= actions(before) + seq![a@]);
                    }
                    assert(actions(out@) =~= orchestrator_step(old(self)@, event@).1);
                }
                out
            },
            OrchestratorEvent::Segment => {
                self.mint(OrchestratorPhase::SendingSegment, &mut out);
                let ghost before = out@;
                let a = OrchestratorAction::ForwardSegment(self.current_turn);
                out.push(a);
                assert(actions(out@) =~= actions(before) + seq![a@]);
                assert(actions(out@) =~= orchestrator_step(old(self)@, event@).1);
                out
            },
            OrchestratorEvent::Watch(w) => {
                self.mint(OrchestratorPhase::SendingText, &mut out);
                let ghost before = out@;
                let text = "NOTIFICATION: ".to_owned().concat(w.message().as_str());
                let a = OrchestratorAction::ForwardText(self.current_turn, text);
                out.push(a);
                assert(actions(out@) =~= actions(before) + seq![a@]);
                assert(actions(out@) =~= orchestrator_step(old(self)@, event@).1);
                out
            },
            OrchestratorEvent::WatchClosed => {
                self.watch_done = true;
                out
            },
            OrchestratorEvent::Sent { ok, shutdown } => {
                if ok {
                    self.phase = OrchestratorPhase::Running;
                    out
                } else if shutdown {
                    self.unwind()
                } else if self.phase == OrchestratorPhase::SendingSegment {
                    self.fail("STT bridge channel closed unexpectedly")
                } else {
                    self.fail("LLM task channel closed unexpectedly")
                }
            },
            OrchestratorEvent::TaskPanicked(m) => {
                if self.fatal.is_none() {
                    let message = "pipeline task panicked: ".to_owned().concat(m.as_str());
                    self.fatal = Some(SkadooshError::Other(message));
                    self.internal = true;
                }
                out
            },
        }
    }

    /// The outcome of the run, once every task is joined: the first error
    /// that was met, or success where shutdown was asked for.
    pub fn finish(self) -> (r: Result<(), SkadooshError>)
        requires
            self.wf(),
        ensures
            match self@.ending {
                Ending::Clean => r is Ok,
                Ending::Stage(e) => r == Err::<(), SkadooshError>(e),
                Ending::Internal(m) => r matches Err(SkadooshError::Other(t)) && t@ == m,
            },
    {
        match self.fatal {
            Some(e) => Err(e),
            None => Ok(()),
        }
    }
}

/// Whether the turn in flight, if any, is the latest.
pub open spec fn is_orchestrator_state(s: OrchestratorView) -> bool {
    s.active matches Some(t) ==> t.turn_id == s.current_turn
}

/// The turn in flight is always the latest turn, and turn ids never repeat:
/// the latest only grows, by one with each segment or watch event.
pub proof fn law_turn_ids_grow(s: OrchestratorView, e: OrchestratorEventView)
    requires
        is_orchestrator_state(s),
        orchestrator_expects(s, e),
    ensures
        is_orchestrator_state(orchestrator_step(s, e).0),
        orchestrator_step(s, e).0.current_turn == if e is Segment || e is Watch {
            s.current_turn + 1
        } else {
            s.current_turn as int
        },
{
}

/// An onset in a silent gap changes nothing: it neither cancels the turn in
/// flight nor flushes playback.
pub proof fn law_silent_onsets_do_not_cancel(s: OrchestratorView)
    ensures
        orchestrator_step(s, OrchestratorEventView::SpeechStart(false)) == (s, Seq::<
            OrchestratorActionView,
        >::empty()),
{
}

/// A barge-in while playback is audible flushes it and cancels the turn in
/// flight, even one whose LLM stream has ended.
pub proof fn law_barge_in_cancels_the_backlog(s: OrchestratorView, t: ActiveTurn)
    requires
        s.active == Some(t),
    ensures
        ({
            let (next, done) = orchestrator_step(s, OrchestratorEventView::SpeechStart(true));
            &&& next.active is None
            &&& done =~= seq![
                OrchestratorActionView::FlushPlayback,
                OrchestratorActionView::CancelTurn(t.turn_id),
                OrchestratorActionView::Emit(AgentEventView::TurnCancelled),
            ]
        }),
{
}

/// The end of an LLM stream leaves the turn in flight: barge-in can still
/// cancel it.
pub proof fn law_finished_streams_stay_cancellable(s: OrchestratorView, id: u64)
    ensures
        orchestrator_step(s, OrchestratorEventView::TurnDone(id)).0.active is Some == s.active
            is Some,
        s.active matches Some(t) ==> orchestrator_step(
            s,
            OrchestratorEventView::TurnDone(id),
        ).0.active->0.turn_id == t.turn_id,
{
}

/// A fresh utterance supersedes the turn in flight: its token is cancelled
/// before the new turn is handed on.
pub proof fn law_segments_supersede(s: OrchestratorView, t: ActiveTurn)
    requires
        s.active == Some(t),
        s.current_turn < u64::MAX,
    ensures
        orchestrator_step(s, OrchestratorEventView::Segment).1 =~= seq![
            OrchestratorActionView::CancelTurn(t.turn_id),
            OrchestratorActionView::ForwardSegment((s.current_turn + 1) as u64),
        ],
{
}

/// Once the pipeline unwinds, an error it met is never replaced.
pub proof fn law_first_error_is_kept(s: OrchestratorView, m: Seq<char>)
    requires
        !(s.ending is Clean),
    ensures
        orchestrator_step(s, OrchestratorEventView::TaskPanicked(m)).0.ending == s.ending,
{
}

/// One turn at a time: a turn that is in flight stays so until it is cancelled,
/// no other turn is ever cancelled, and what is handed on is a fresh turn, which
/// is then the one in flight.
pub proof fn law_replaced_turns_are_cancelled(s: OrchestratorView, e: OrchestratorEventView, k: int)
    requires
        is_orchestrator_state(s),
        orchestrator_expects(s, e),
    ensures
        ({
            let (next, done) = orchestrator_step(s, e);
            &&& s.active is Some && (next.active is None || next.active->0.turn_id
                != s.active->0.turn_id) ==> done.contains(
                OrchestratorActionView::CancelTurn(s.active->0.turn_id),
            )
            &&& next.active is Some && (s.active is None || s.active->0.turn_id
                != next.active->0.turn_id) ==> e is Segment || e is Watch
            &&& 0 <= k < done.len() ==> match done[k] {
                OrchestratorActionView::CancelTurn(id) => s.active is Some && s.active->0.turn_id
                    == id,
                OrchestratorActionView::ForwardSegment(id) => e is Segment && id > s.current_turn
                    && next.active == Some(ActiveTurn { turn_id: id, llm_done: false }),
                OrchestratorActionView::ForwardText(id, text) => e is Watch && id > s.current_turn
                    && next.active == Some(ActiveTurn { turn_id: id, llm_done: false }),
                OrchestratorActionView::FlushPlayback => e == OrchestratorEventView::SpeechStart(
                    true,
                ),
                OrchestratorActionView::Unwind => next.phase == OrchestratorPhase::Unwinding,
                OrchestratorActionView::Emit(_) => s.active is Some && next.active is None,
            }
        }),
{
    let (next, done) = orchestrator_step(s, e);
    if let Some(t) = s.active {
        if next.active is None || next.active->0.turn_id != t.turn_id {
            let cancel = OrchestratorActionView::CancelTurn(t.turn_id);
            assert(cancel_active(s)[0] == cancel);
            if e is Segment || e is Watch {
                assert(done[0] == cancel);
            } else {
                assert(done[1] == cancel);
            }
        }
    }
}

/// A watch event becomes a turn of its own that says what happened, marked as a
/// notification, and takes the place of the turn in flight.
pub proof fn law_watch_events_are_told(s: OrchestratorView, message: Seq<char>)
    requires
        s.current_turn < u64::MAX,
    ensures
        ({
            let (next, done) = orchestrator_step(s, OrchestratorEventView::Watch(message));
            &&& done.len() > 0
            &&& done.last() is ForwardText
            &&& done.last()->ForwardText_0 == s.current_turn + 1
            &&& done.last()->ForwardText_1 == "NOTIFICATION: "@ + message
            &&& s.active is None ==> done.len() == 1
        }),
{
}

/// A run ends with the error that ended it: a stage's own where one reported
/// it, none where shutdown was asked for, and one of the pipeline where a
/// channel closed without that.
pub proof fn law_endings_say_why(s: OrchestratorView, err: SkadooshError, shutdown: bool)
    requires
        s.ending is Clean,
    ensures
        orchestrator_step(s, OrchestratorEventView::Fatal(err)).0.ending == Ending::Stage(err),
        orchestrator_step(s, OrchestratorEventView::Shutdown).0.ending == Ending::Clean,
        orchestrator_step(s, OrchestratorEventView::VadClosed(shutdown)).0.ending is Clean
            == shutdown,
        orchestrator_step(s, OrchestratorEventView::Sent(false, shutdown)).0.ending is Clean
            == shutdown,
        orchestrator_step(s, OrchestratorEventView::Fatal(err)).0.phase
            == OrchestratorPhase::Unwinding,
        orchestrator_step(s, OrchestratorEventView::Shutdown).0.phase
            == OrchestratorPhase::Unwinding,
        orchestrator_step(s, OrchestratorEventView::VadClosed(shutdown)).0.phase
            == OrchestratorPhase::Unwinding,
        orchestrator_step(s, OrchestratorEventView::Sent(false, shutdown)).0.phase
            == OrchestratorPhase::Unwinding,
        orchestrator_step(s, OrchestratorEventView::Sent(true, shutdown)).0 == (OrchestratorView {
            phase: OrchestratorPhase::Running,
            ..s
        }),
{
}

} // verus!
