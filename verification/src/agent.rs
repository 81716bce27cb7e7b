//! The agent facade's decisions: its events, the text turn, the interactive
//! loop, and what of a text is spoken.

use vstd::prelude::*;

use crate::error::SkadooshError;
use crate::llm::client::{CLAUSE_MAX_LEN, CLAUSE_MIN_LEN};
use crate::llm::splitter::{clauses_of, pieces, remainder, whole, ClauseSplitter};
use crate::text::{letters, str_eq, strs, trim};

verus! {

/// Capacity of the [`AgentEvent`] broadcast channel.
pub const EVENT_CAP: usize = 64;

/// Capacity of the per-turn clause channel of a text turn.
pub const TEXT_TURN_CLAUSE_CAP: usize = 16;

/// Events broadcast by a running agent.
#[derive(Debug, Clone)]
pub enum AgentEvent {
    /// The agent can accept the next utterance: emitted when the pipeline
    /// finishes starting, and again right after each completed turn's
    /// [`ReplyDone`](AgentEvent::ReplyDone) — never between a turn's
    /// [`Transcript`](AgentEvent::Transcript) and its `ReplyDone`.
    Listening,
    /// Speech onset detected by the VAD (past the 2-frame barge-in
    /// hangover).
    SpeechStart,
    /// A user utterance was transcribed (STT output, LLM input).
    Transcript(String),
    /// One reply clause completed out of the LLM stream.
    Clause(String),
    /// A tool/function call was requested by the model.
    ToolCall {
        /// Tool/function name.
        name: String,
        /// JSON arguments string.
        arguments: String,
    },
    /// The LLM reply stream for the current turn completed; every
    /// [`Clause`](AgentEvent::Clause) of the turn precedes it, and
    /// [`Listening`](AgentEvent::Listening) follows it immediately.
    ReplyDone,
    /// The in-flight turn was cancelled by a barge-in.
    TurnCancelled,
    /// Per-turn latency breakdown (milliseconds).
    StageLatency {
        /// Speech segment close → transcript.
        stt_ms: u64,
        /// Transcript → first reply clause.
        llm_ms: u64,
        /// First clause → first synthesized clip.
        tts_ms: u64,
        /// First clip queued → first audible sample.
        playback_ms: u64,
        /// Speech end → first audible sample (or stream end, in text mode).
        total_ms: u64,
    },
    /// A stage failed fatally.
    Error(String),
}

/// The view of an [`AgentEvent`].
#[verifier::ext_equal]
pub enum AgentEventView {
    /// The agent can accept the next utterance.
    Listening,
    /// Speech onset.
    SpeechStart,
    /// A transcript.
    Transcript(Seq<char>),
    /// A reply clause.
    Clause(Seq<char>),
    /// A tool call: its name and arguments.
    ToolCall(Seq<char>, Seq<char>),
    /// The reply is complete.
    ReplyDone,
    /// The turn was cancelled.
    TurnCancelled,
    /// Latencies: STT, LLM, TTS, playback, total.
    StageLatency(nat, nat, nat, nat, nat),
    /// A fatal failure.
    Error(Seq<char>),
}

impl View for AgentEvent {
    type V = AgentEventView;

    open spec fn view(&self) -> AgentEventView {
        match *self {
            AgentEvent::Listening => AgentEventView::Listening,
            AgentEvent::SpeechStart => AgentEventView::SpeechStart,
            AgentEvent::Transcript(t) => AgentEventView::Transcript(t@),
            AgentEvent::Clause(t) => AgentEventView::Clause(t@),
            AgentEvent::ToolCall { name, arguments } => AgentEventView::ToolCall(
                name@,
                arguments@,
            ),
            AgentEvent::ReplyDone => AgentEventView::ReplyDone,
            AgentEvent::TurnCancelled => AgentEventView::TurnCancelled,
            AgentEvent::StageLatency { stt_ms, llm_ms, tts_ms, playback_ms, total_ms } =>
            AgentEventView::StageLatency(
                stt_ms as nat,
                llm_ms as nat,
                tts_ms as nat,
                playback_ms as nat,
                total_ms as nat,
            ),
            AgentEvent::Error(m) => AgentEventView::Error(m@),
        }
    }
}

/// The views of a list of events.
pub open spec fn events(v: Seq<AgentEvent>) -> Seq<AgentEventView> {
    v.map_values(|e: AgentEvent| e@)
}

/// The greeting of an agent called `name`; empty where there is no name.
pub open spec fn greeting(name: Seq<char>) -> Seq<char> {
    let name = crate::text::trimmed(name);
    if name.len() == 0 {
        Seq::empty()
    } else {
        "Hi, I'm "@ + name + ". What's your name?"@
    }
}

/// The spoken greeting the agent uses at startup when it has a name:
/// `"Hi, I'm {name}. What's your name?"`. Returns an empty string when
/// `agent_name` is empty or whitespace (no name configured → no greeting),
/// so callers can gate on the result.
pub fn greeting_text(agent_name: &str) -> (r: String)
    ensures
        r@ == greeting(agent_name@),
{
    let name = trim(agent_name);
    if name.as_str().is_empty() {
        String::new()
    } else {
        "Hi, I'm ".to_owned().concat(name.as_str()).concat(". What's your name?")
    }
}

/// I/O failures inside the repl become plain errors.
pub fn repl_io_error(err: &str) -> (r: SkadooshError)
    ensures
        r matches SkadooshError::Other(m) && m@ == "repl I/O failed: "@ + err@,
{
    SkadooshError::Other("repl I/O failed: ".to_owned().concat(err))
}

/// What the interactive loop does with a line.
#[derive(Debug)]
pub enum ReplStep {
    /// End the loop.
    Quit,
    /// Read the next line.
    Skip,
    /// Take this text as a turn.
    Turn(String),
}

/// What the interactive loop does with a line: `/quit` ends it, blank lines
/// are skipped, anything else is a turn, without the surrounding white space.
pub fn repl_step(line: &str) -> (r: ReplStep)
    ensures
        ({
            let text = crate::text::trimmed(line@);
            if text == "/quit"@ {
                r is Quit
            } else if text.len() == 0 {
                r is Skip
            } else {
                r matches ReplStep::Turn(t) && t@ == text
            }
        }),
{
    let text = trim(line);
    if str_eq(text.as_str(), "/quit") {
        ReplStep::Quit
    } else if text.as_str().is_empty() {
        ReplStep::Skip
    } else {
        ReplStep::Turn(text)
    }
}

/// What the interactive loop prints of a clause: the clause without its
/// surrounding white space, a space in front of all but the first.
pub fn repl_clause(first: bool, clause: &str) -> (r: String)
    ensures
        r@ == (if first {
            crate::text::trimmed(clause@)
        } else {
            " "@ + crate::text::trimmed(clause@)
        }),
{
    let text = trim(clause);
    if first {
        text
    } else {
        " ".to_owned().concat(text.as_str())
    }
}

/// One text turn: the reply as far as it has streamed in.
pub struct TextTurn {
    reply: String,
}

impl TextTurn {
    /// The clauses so far, one behind the other.
    pub closed spec fn reply(&self) -> Seq<char> {
        self.reply@
    }

    /// A turn before its first clause.
    pub fn new() -> (r: Self)
        ensures
            r.reply() == Seq::<char>::empty(),
    {
        TextTurn { reply: String::new() }
    }

    /// Takes one clause; returns the event to broadcast.
    pub fn handle_clause(&mut self, clause: String) -> (r: AgentEvent)
        ensures
            final(self).reply() == old(self).reply() + clause@,
            r@ == AgentEventView::Clause(clause@),
    {
        self.reply.append(clause.as_str());
        AgentEvent::Clause(clause)
    }

    /// Ends the turn with the outcome of its stream: a completed stream gives
    /// the whole reply (and [`AgentEvent::ReplyDone`] is due), a failed one
    /// its error, and the partial reply is dropped.
    pub fn finish(self, stream: Result<(), SkadooshError>) -> (r: Result<String, SkadooshError>)
        ensures
            match stream {
                Ok(_) => r matches Ok(text) && text@ == self.reply(),
                Err(e) => r == Err::<String, SkadooshError>(e),
            },
    {
        match stream {
            Ok(_) => Ok(self.reply),
            Err(e) => Err(e),
        }
    }
}

/// What of a text is spoken: its clauses, and its remainder where that is more
/// than white space.
pub open spec fn spoken(text: Seq<char>) -> Seq<Seq<char>> {
    let rest = remainder(text, CLAUSE_MIN_LEN as nat, CLAUSE_MAX_LEN as nat);
    clauses_of(pieces(text, CLAUSE_MIN_LEN as nat, CLAUSE_MAX_LEN as nat)) + if crate::text::trimmed(
        rest,
    ).len() > 0 {
        seq![rest]
    } else {
        Seq::empty()
    }
}

/// Splits a text into the clauses that are synthesized one by one; a text
/// without any is refused (before an output device is opened).
pub fn speakable_clauses(text: &str) -> (r: Result<Vec<String>, SkadooshError>)
    ensures
        match r {
            Ok(v) => strs(v@) == spoken(text@) && v@.len() > 0,
            Err(SkadooshError::Other(m)) => spoken(text@).len() == 0 && m@
                == "the text produced no speakable clauses"@,
            Err(_) => false,
        },
{
    let mut splitter = ClauseSplitter::new(CLAUSE_MIN_LEN, CLAUSE_MAX_LEN);
    assert(splitter.pending() + text@ =~= text@);
    let mut clauses = splitter.push(text);
    let ghost before = clauses@;
    match splitter.flush() {
        Some(rest) => {
            clauses.push(rest);
            assert(strs(clauses@) =~= strs(before) + seq![rest@]);
        },
        None => {
            assert(strs(clauses@) =~= strs(before) + Seq::empty());
        },
    }
    assert(strs(clauses@) == spoken(text@));
    assert(strs(clauses@).len() == clauses@.len());
    if clauses.len() == 0 {
        Err(SkadooshError::Other("the text produced no speakable clauses".to_owned()))
    } else {
        Ok(clauses)
    }
}

/// All of a text is spoken: its clauses have the letters of the text, in
/// order, and a text of which nothing is spoken has none.
pub proof fn law_all_of_a_text_is_spoken(text: Seq<char>)
    ensures
        letters(whole(spoken(text))) == letters(text),
        spoken(text).len() == 0 ==> letters(text) == Seq::<char>::empty(),
{
    let done = clauses_of(pieces(text, CLAUSE_MIN_LEN as nat, CLAUSE_MAX_LEN as nat));
    let rest = remainder(text, CLAUSE_MIN_LEN as nat, CLAUSE_MAX_LEN as nat);
    crate::llm::splitter::law_push_keeps_the_letters(
        text,
        CLAUSE_MIN_LEN as nat,
        CLAUSE_MAX_LEN as nat,
    );
    let (from, to) = crate::text::law_trimming_takes_white_space(rest);
    if from < to {
        let one = seq![rest];
        crate::llm::splitter::lemma_whole_add(done, one);
        assert(one.drop_last() =~= Seq::empty());
        assert(whole(Seq::<Seq<char>>::empty()) =~= Seq::empty());
        assert(whole(one) =~= rest);
        crate::text::lemma_letters_add(whole(done), rest);
    } else {
        crate::text::lemma_letters_white(rest);
        assert(done + Seq::<Seq<char>>::empty() =~= done);
        assert(letters(whole(done)) + letters(rest) =~= letters(whole(done)));
    }
    if spoken(text).len() == 0 {
        assert(spoken(text) =~= Seq::empty());
    }
}

} // verus!
