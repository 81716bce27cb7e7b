//! Scripted backends: stand-ins for a model that speak queued replies, clause
//! by clause.

use vstd::prelude::*;

use crate::error::LlmError;
use crate::text::{clone_strings, strs};

verus! {

/// Queued replies by their texts.
pub open spec fn script_view(script: Seq<Vec<String>>) -> Seq<Seq<Seq<char>>> {
    script.map_values(|reply: Vec<String>| strs(reply@))
}

/// What is said where the script has run out.
pub open spec fn fallback_reply() -> Seq<Seq<char>> {
    seq!["(no scripted reply)"@]
}

/// The reply of the next turn.
pub open spec fn next_reply(script: Seq<Seq<Seq<char>>>) -> Seq<Seq<char>> {
    if script.len() == 0 {
        fallback_reply()
    } else {
        script[0]
    }
}

/// The script behind the next turn.
pub open spec fn after_reply(script: Seq<Seq<Seq<char>>>) -> Seq<Seq<Seq<char>>> {
    if script.len() == 0 {
        script
    } else {
        script.drop_first()
    }
}

fn pop_reply(script: &mut Vec<Vec<String>>) -> (r: Vec<String>)
    ensures
        strs(r@) == next_reply(script_view(old(script)@)),
        script_view(final(script)@) == after_reply(script_view(old(script)@)),
{
    if script.len() == 0 {
        let mut v: Vec<String> = Vec::new();
        v.push("(no scripted reply)".to_owned());
        assert(strs(v@) =~= fallback_reply());
        return v;
    }
    let ghost before = script@;
    let reply = script.remove(0);
    assert(script_view(script@) =~= script_view(before).drop_first());
    reply
}

/// A scripted LLM backend: one queued reply (a list of clauses) per turn.
#[derive(Debug)]
pub struct ScriptedLlm {
    script: Vec<Vec<String>>,
}

impl View for ScriptedLlm {
    type V = Seq<Seq<Seq<char>>>;

    closed spec fn view(&self) -> Seq<Seq<Seq<char>>> {
        script_view(self.script@)
    }
}

impl ScriptedLlm {
    /// An empty script.
    pub fn new() -> (r: Self)
        ensures
            r@ == Seq::<Seq<Seq<char>>>::empty(),
    {
        let r = ScriptedLlm { script: Vec::new() };
        assert(r@ =~= Seq::<Seq<Seq<char>>>::empty());
        r
    }

    /// The script with one more turn.
    pub fn turn(self, clauses: &Vec<String>) -> (r: Self)
        ensures
            r@ == self@.push(strs(clauses@)),
    {
        let mut script = self.script;
        let ghost before = script@;
        let copy = clone_strings(clauses);
        script.push(copy);
        assert(script_view(script@) =~= script_view(before).push(strs(clauses@)));
        ScriptedLlm { script }
    }

    /// The backend's name.
    pub fn name(&self) -> (r: &'static str)
        ensures
            r@ == "scripted-llm"@,
    {
        "scripted-llm"
    }

    /// The clauses of the next turn, whatever the user said.
    pub fn stream_reply(&mut self) -> (r: Vec<String>)
        ensures
            strs(r@) == next_reply(old(self)@),
            final(self)@ == after_reply(old(self)@),
    {
        pop_reply(&mut self.script)
    }

    /// Forgets the script.
    pub fn clear_history(&mut self)
        ensures
            final(self)@ == Seq::<Seq<Seq<char>>>::empty(),
    {
        self.script.clear();
        assert(self@ =~= Seq::<Seq<Seq<char>>>::empty());
    }
}

/// A scripted LLM backend whose clauses are handed over one at a time, and
/// which stops quietly where nobody listens any more.
#[derive(Debug)]
pub struct StreamingLlm {
    inner: ScriptedLlm,
}

impl View for StreamingLlm {
    type V = Seq<Seq<Seq<char>>>;

    closed spec fn view(&self) -> Seq<Seq<Seq<char>>> {
        self.inner@
    }
}

impl StreamingLlm {
    /// An empty script.
    pub fn new() -> (r: Self)
        ensures
            r@ == Seq::<Seq<Seq<char>>>::empty(),
    {
        StreamingLlm { inner: ScriptedLlm::new() }
    }

    /// The script with one more turn.
    pub fn turn(self, clauses: &Vec<String>) -> (r: Self)
        ensures
            r@ == self@.push(strs(clauses@)),
    {
        StreamingLlm { inner: self.inner.turn(clauses) }
    }

    /// The backend's name.
    pub fn name(&self) -> (r: &'static str)
        ensures
            r@ == "streaming-llm"@,
    {
        "streaming-llm"
    }

    /// The clauses of the next turn, whatever the user said.
    pub fn stream_reply(&mut self) -> (r: Vec<String>)
        ensures
            strs(r@) == next_reply(old(self)@),
            final(self)@ == after_reply(old(self)@),
    {
        self.inner.stream_reply()
    }

    /// Forgets the script.
    pub fn clear_history(&mut self)
        ensures
            final(self)@ == Seq::<Seq<Seq<char>>>::empty(),
    {
        self.inner.clear_history()
    }
}

/// What a slow backend does next.
#[derive(Debug)]
pub enum SlowStep {
    /// Wait for this many milliseconds or the cancel token, then go on.
    Wait(u64),
    /// Hand this clause over, then go on.
    Send(String),
    /// The reply is complete, or nobody listens any more.
    Done,
    /// The reply was cut short; what was said of it is discarded.
    Failed(LlmError),
}

/// What happened since the last step of a slow backend.
#[derive(Debug, Clone, Copy, PartialEq, Eq, Structural)]
pub enum SlowEvent {
    /// The turn began, or a clause was handed over.
    Ready,
    /// The wait is over.
    Waited,
    /// The cancel token fired.
    Cancelled,
    /// Nobody listens any more.
    Closed,
}

/// A slow scripted backend: streams one clause per `delay_ms`, and honors the
/// cancel token.
#[derive(Debug)]
pub struct SlowLlm {
    /// The clauses of every reply.
    pub clauses: Vec<String>,
    /// The wait in front of each.
    pub delay_ms: u64,
}

impl SlowLlm {
    /// The backend's name.
    pub fn name(&self) -> (r: &'static str)
        ensures
            r@ == "slow-llm"@,
    {
        "slow-llm"
    }

    /// What comes next in a reply of which `at` clauses have been handed over.
    pub fn stream_reply(&self, at: usize, event: SlowEvent) -> (r: SlowStep)
        ensures
            match r {
                SlowStep::Wait(ms) => event == SlowEvent::Ready && at < self.clauses@.len() && ms
                    == self.delay_ms,
                SlowStep::Send(clause) => event == SlowEvent::Waited && at < self.clauses@.len()
                    && clause@ == self.clauses@[at as int]@,
                SlowStep::Done => event == SlowEvent::Closed || (at >= self.clauses@.len() && event
                    != SlowEvent::Cancelled),
                SlowStep::Failed(e) => event == SlowEvent::Cancelled && e is Cancelled,
            },
    {
        match event {
            SlowEvent::Closed => SlowStep::Done,
            SlowEvent::Cancelled => SlowStep::Failed(LlmError::Cancelled),
            SlowEvent::Ready => {
                if at < self.clauses.len() {
                    SlowStep::Wait(self.delay_ms)
                } else {
                    SlowStep::Done
                }
            },
            SlowEvent::Waited => {
                if at < self.clauses.len() {
                    SlowStep::Send(self.clauses[at].clone())
                } else {
                    SlowStep::Done
                }
            },
        }
    }
}

/// Turns are spoken in the order in which they were queued.
pub proof fn law_turns_are_spoken_in_order(script: Seq<Seq<Seq<char>>>, reply: Seq<Seq<char>>)
    ensures
        next_reply(script.push(reply)) == (if script.len() == 0 {
            reply
        } else {
            next_reply(script)
        }),
        after_reply(script.push(reply)) == (if script.len() == 0 {
            script
        } else {
            after_reply(script).push(reply)
        }),
{
    if script.len() == 0 {
        assert(script.push(reply).drop_first() =~= script);
    } else {
        assert(script.push(reply).drop_first() =~= script.drop_first().push(reply));
    }
}

} // verus!
