//! Tool execution for LLM function calling.
//!
//! Subprocess-based execution spawns tool `name` as a subprocess with JSON
//! `arguments` on stdin; what its outcome means is decided here
//! ([`ShellExecutor`]).

use vstd::prelude::*;

use crate::error::{Result, SkadooshError};
use crate::sorted::{in_order, lookup, with, SortedMap};
use crate::text::{decode_lossy, trim, trimmed, utf8_lossy};

pub mod builtin;
pub mod calculator;
pub mod datetime;
pub mod formula;
pub mod written;

verus! {

/// Runs a tool call produced by the model.
pub trait ToolExecutor: Send + Sync {
    /// Whether this may be what comes of a call: a tool's name, its arguments
    /// and the outcome. An executor that says nothing of its answers may answer
    /// anything.
    open spec fn answers(
        &self,
        name: Seq<char>,
        arguments: Seq<char>,
        outcome: core::result::Result<Seq<char>, Seq<char>>,
    ) -> bool {
        true
    }

    /// Execute the tool named `name` with JSON `arguments`, returning the
    /// result.
    fn execute(&self, name: &str, arguments: &str) -> (r: Result<String>)
        ensures
            self.answers(name@, arguments@, outcome_view(r)),
    ;
}

/// What became of a tool's subprocess.
#[derive(Debug)]
pub enum ShellRun {
    /// It could not be started, for this reason.
    NotSpawned(String),
    /// Waiting for it failed, for this reason.
    NotAwaited(String),
    /// It ended.
    Exited {
        /// Whether its exit status says success.
        success: bool,
        /// Its exit status in words.
        status: String,
        /// What it wrote.
        stdout: Vec<u8>,
        /// What it complained about.
        stderr: Vec<u8>,
    },
}

/// The outcome of a subprocess whose lines, as far as they were read while it
/// ran, are `streamed`.
pub open spec fn shell_outcome(name: Seq<char>, run: ShellRun, streamed: Seq<char>) -> core::result::Result<
    Seq<char>,
    Seq<char>,
> {
    match run {
        ShellRun::NotSpawned(e) => Err("spawn '"@ + name + "': "@ + e@),
        ShellRun::NotAwaited(e) => Err("wait '"@ + name + "': "@ + e@),
        ShellRun::Exited { success, status, stdout, stderr } => if !success {
            Err("'"@ + name + "' exited "@ + status@ + ": "@ + trimmed(utf8_lossy(stderr@)))
        } else if streamed.len() == 0 {
            Ok(utf8_lossy(stdout@))
        } else {
            Ok(streamed)
        },
    }
}

/// An outcome by its texts.
pub open spec fn outcome_view(r: Result<String>) -> core::result::Result<Seq<char>, Seq<char>> {
    match r {
        Ok(s) => Ok(s@),
        Err(e) => Err(e.text()),
    }
}

/// Runs tool `name` as a subprocess; JSON `arguments` on stdin, returns
/// stdout.
#[derive(Debug, Clone, Copy, PartialEq, Eq, Structural)]
pub struct ShellExecutor;

impl ShellExecutor {
    /// Creates a new `ShellExecutor`.
    pub fn new() -> (r: Self)
        ensures
            r == ShellExecutor,
    {
        ShellExecutor
    }

    /// What a tool call gives, from what became of its subprocess.
    pub fn execute(name: &str, run: &ShellRun) -> (r: Result<String>)
        ensures
            outcome_view(r) == shell_outcome(name@, *run, Seq::empty()),
    {
        Self::execute_streaming(name, run, String::new())
    }

    /// What a tool call gives whose stdout lines were streamed while it ran:
    /// the full accumulated output, or stdout where nothing was streamed.
    pub fn execute_streaming(name: &str, run: &ShellRun, streamed: String) -> (r: Result<String>)
        ensures
            outcome_view(r) == shell_outcome(name@, *run, streamed@),
    {
        match run {
            ShellRun::NotSpawned(e) => Err(
                SkadooshError::Other(
                    "spawn '".to_owned().concat(name).concat("': ").concat(e.as_str()),
                ),
            ),
            ShellRun::NotAwaited(e) => Err(
                SkadooshError::Other(
                    "wait '".to_owned().concat(name).concat("': ").concat(e.as_str()),
                ),
            ),
            ShellRun::Exited { success, status, stdout, stderr } => {
                if !*success {
                    let complaint = decode_lossy(stderr.as_slice());
                    Err(
                        SkadooshError::Other(
                            "'".to_owned().concat(name).concat("' exited ").concat(
                                status.as_str(),
                            ).concat(": ").concat(trim(complaint.as_str()).as_str()),
                        ),
                    )
                } else if streamed.as_str().unicode_len() == 0 {
                    Ok(decode_lossy(stdout.as_slice()))
                } else {
                    Ok(streamed)
                }
            },
        }
    }
}

/// Adds a line that a tool wrote to what it wrote before.
pub fn stream_line(streamed: &mut String, line: &str)
    ensures
        final(streamed)@ == old(streamed)@ + line@ + "\n"@,
{
    streamed.append(line);
    streamed.append("\n");
}

/// Returns a placeholder message — tool execution not configured.
#[derive(Debug, Clone, Copy, PartialEq, Eq, Structural)]
pub struct NoopExecutor;

impl NoopExecutor {
    /// Creates a new `NoopExecutor`.
    pub fn new() -> (r: Self)
        ensures
            r == NoopExecutor,
    {
        NoopExecutor
    }
}

/// What stands for a result where tools are not run.
pub open spec fn noop_answer() -> Seq<char> {
    "{\"error\":\"tool execution not configured; respond with text\"}"@
}

impl ToolExecutor for NoopExecutor {
    /// The placeholder, whatever was called.
    open spec fn answers(
        &self,
        name: Seq<char>,
        arguments: Seq<char>,
        outcome: core::result::Result<Seq<char>, Seq<char>>,
    ) -> bool {
        outcome == Ok::<Seq<char>, Seq<char>>(noop_answer())
    }

    fn execute(&self, _name: &str, _arguments: &str) -> (r: Result<String>) {
        Ok("{\"error\":\"tool execution not configured; respond with text\"}".to_owned())
    }
}

/// The outcome of one of several tool calls: its id and its result, or `None`
/// where its task panicked.
pub type CallOutcome = Option<(String, Result<String>)>;

/// The results of several tool calls by their ids, of which the last one under
/// an id counts.
pub open spec fn gathered(outcomes: Seq<CallOutcome>) -> Seq<(Seq<char>, Result<String>)>
    decreases outcomes.len(),
{
    if outcomes.len() == 0 {
        Seq::empty()
    } else {
        match outcomes.last() {
            Some((id, result)) => with(gathered(outcomes.drop_last()), id@, result),
            None => gathered(outcomes.drop_last()),
        }
    }
}

/// The results of several tool calls that ran in parallel, keyed by tool call
/// id.
pub fn execute_parallel(outcomes: Vec<CallOutcome>) -> (r: SortedMap<Result<String>>)
    ensures
        r@ == gathered(outcomes@),
        in_order(r@),
{
    let mut results: SortedMap<Result<String>> = SortedMap::new();
    let mut rest = outcomes;
    let ghost all = outcomes@;
    let mut done: Ghost<int> = Ghost(0);
    assert(rest@ =~= all.skip(0));
    assert(all.take(0) =~= Seq::empty());
    while rest.len() > 0
        invariant
            0 <= done@ <= all.len(),
            rest@ == all.skip(done@),
            results@ == gathered(all.take(done@)),
            in_order(results@),
        decreases rest@.len(),
    {
        let ghost before = rest@;
        let outcome = rest.remove(0);
        proof {
            assert(outcome == all[done@]);
            assert(all.take(done@ + 1).drop_last() =~= all.take(done@));
            assert(rest@ =~= all.skip(done@ + 1));
            done@ = done@ + 1;
        }
        if let Some((id, result)) = outcome {
            results.insert(id, result);
        }
    }
    assert(all.take(all.len() as int) =~= all);
    assert(done@ == all.len());
    results
}

proof fn lemma_gathered_in_order(outcomes: Seq<CallOutcome>)
    ensures
        in_order(gathered(outcomes)),
    decreases outcomes.len(),
{
    if outcomes.len() > 0 {
        lemma_gathered_in_order(outcomes.drop_last());
        if let Some((id, result)) = outcomes.last() {
            crate::sorted::law_order_is_kept(gathered(outcomes.drop_last()), id@, result);
        }
    }
}

/// The result under an id is that of the last call with the id that came
/// back, whatever else ran beside it; an id under which none came back has no
/// result.
pub proof fn law_results_stand_under_their_ids(
    outcomes: Seq<CallOutcome>,
    id: String,
    result: Result<String>,
    k: int,
)
    requires
        k == -1 || 0 <= k < outcomes.len() && outcomes[k] == Some((id, result)),
        forall|j: int|
            k < j < outcomes.len() && (#[trigger] outcomes[j]) is Some ==> (outcomes[j]->0).0@
                != id@,
    ensures
        lookup(gathered(outcomes), id@) == (if k >= 0 {
            Some(result)
        } else {
            None
        }),
    decreases outcomes.len(),
{
    if outcomes.len() > 0 {
        let below = outcomes.drop_last();
        lemma_gathered_in_order(below);
        let last = outcomes.len() - 1;
        assert(outcomes[last] == outcomes.last());
        if let Some((other, r)) = outcomes.last() {
            crate::sorted::law_inserted_values_are_found(gathered(below), other@, r, id@);
        }
        if k < last {
            assert forall|j: int|
                k < j < below.len() && (#[trigger] below[j]) is Some implies (below[j]->0).0@
                != id@ by {
                assert(below[j] == outcomes[j]);
            }
            law_results_stand_under_their_ids(below, id, result, k);
        }
    }
}

/// A tool call succeeds exactly where its process ran and said so, and then
/// gives all that the process wrote: the lines that were streamed, or its
/// output where none was. A failure names the tool.
#[verifier::rlimit(30)]
pub proof fn law_outputs_come_back(name: Seq<char>, run: ShellRun, streamed: Seq<char>)
    ensures
        shell_outcome(name, run, streamed) is Ok <==> run is Exited && run->success,
        run is Exited && run->success && streamed.len() > 0 ==> shell_outcome(name, run, streamed)
            == Ok::<Seq<char>, Seq<char>>(streamed),
        run is Exited && run->success && streamed.len() == 0 ==> shell_outcome(name, run, streamed)
            == Ok::<Seq<char>, Seq<char>>(utf8_lossy(run->stdout@)),
        shell_outcome(name, run, streamed) is Err ==> crate::text::contains(
            shell_outcome(name, run, streamed)->Err_0,
            name,
        ),
{
    reveal_strlit("spawn '");
    reveal_strlit("wait '");
    reveal_strlit("'");
    if shell_outcome(name, run, streamed) is Err {
        let e = shell_outcome(name, run, streamed)->Err_0;
        let at = match run {
            ShellRun::NotSpawned(_) => 7int,
            ShellRun::NotAwaited(_) => 6int,
            _ => 1int,
        };
        assert(e.subrange(at, at + name.len()) =~= name);
        assert(crate::text::matches_at(e, name, at));
    }
}

} // verus!
