//! Proactive triggers (`--watch-*`): file, process and timer notifications
//! that enter the conversation as if the user had said them.

use vstd::prelude::*;

use crate::text::{decimal_string, str_eq};

verus! {

/// A proactive trigger event, surfaced to the pipeline as a user turn.
#[derive(Debug, Clone)]
pub enum WatchEvent {
    /// A watched file was modified (`--watch-file`). Carries the watched path.
    FileChanged(String),
    /// A watched process exited (`--watch-process`). Carries the PID.
    ProcessExited(u32),
    /// A timer elapsed (`--watch-timer`). Carries the original seconds.
    TimerElapsed(String),
}

impl WatchEvent {
    /// What [`message`](Self::message) writes.
    pub open spec fn text(self) -> Seq<char> {
        match self {
            WatchEvent::FileChanged(path) => "The file "@ + path@ + " has changed."@,
            WatchEvent::ProcessExited(pid) => "Process "@ + crate::text::decimal(pid as nat)
                + " has exited."@,
            WatchEvent::TimerElapsed(secs) => "Your "@ + secs@ + "-second timer is up."@,
        }
    }

    /// Renders the event as the user-facing notification text (without the
    /// `NOTIFICATION:` prefix the pipeline adds).
    pub fn message(&self) -> (r: String)
        ensures
            r@ == self.text(),
    {
        match self {
            WatchEvent::FileChanged(path) => "The file ".to_owned().concat(path.as_str()).concat(
                " has changed.",
            ),
            WatchEvent::ProcessExited(pid) => "Process ".to_owned().concat(
                decimal_string(*pid as u64).as_str(),
            ).concat(" has exited."),
            WatchEvent::TimerElapsed(secs) => "Your ".to_owned().concat(secs.as_str()).concat(
                "-second timer is up.",
            ),
        }
    }
}

/// Configuration for the proactive triggers, mirroring the `--watch-*` flags.
#[derive(Debug, Clone)]
pub struct WatchConfig {
    /// Files to watch for changes (`--watch-file` / `SKADOOSH_WATCH_FILE`).
    pub files: Vec<String>,
    /// Process IDs to watch for exit (`--watch-process` / `SKADOOSH_WATCH_PROCESS`).
    pub processes: Vec<u32>,
    /// Timer durations in seconds (`--watch-timer` / `SKADOOSH_WATCH_TIMER`).
    pub timers: Vec<u64>,
}

impl Default for WatchConfig {
    fn default() -> (r: Self)
        ensures
            r.files@.len() == 0 && r.processes@.len() == 0 && r.timers@.len() == 0,
    {
        WatchConfig { files: Vec::new(), processes: Vec::new(), timers: Vec::new() }
    }
}

impl WatchConfig {
    /// Whether no trigger is configured.
    pub fn is_empty(&self) -> (r: bool)
        ensures
            r == (self.files@.len() == 0 && self.processes@.len() == 0 && self.timers@.len() == 0),
    {
        self.files.len() == 0 && self.processes.len() == 0 && self.timers.len() == 0
    }
}

/// One background watcher.
#[derive(Debug, Clone)]
pub enum WatchTask {
    /// Watches a file.
    File(String),
    /// Watches a process.
    Process(u32),
    /// Sleeps for a number of seconds, then reports the label.
    Timer {
        /// How long to sleep.
        secs: u64,
        /// The seconds in words.
        label: String,
    },
}

/// The view of a [`WatchTask`].
#[verifier::ext_equal]
pub enum TaskView {
    /// Watches a file.
    File(Seq<char>),
    /// Watches a process.
    Process(u32),
    /// Sleeps, then reports the label.
    Timer(u64, Seq<char>),
}

impl View for WatchTask {
    type V = TaskView;

    open spec fn view(&self) -> TaskView {
        match *self {
            WatchTask::File(p) => TaskView::File(p@),
            WatchTask::Process(pid) => TaskView::Process(pid),
            WatchTask::Timer { secs, label } => TaskView::Timer(secs, label@),
        }
    }
}

/// The views of a list of tasks.
pub open spec fn tasks(v: Seq<WatchTask>) -> Seq<TaskView> {
    v.map_values(|t: WatchTask| t@)
}

/// One watcher for every configured trigger: files, then processes, then
/// timers.
pub open spec fn tasks_of(files: Seq<Seq<char>>, processes: Seq<u32>, timers: Seq<u64>) -> Seq<
    TaskView,
> {
    files.map_values(|p: Seq<char>| TaskView::File(p)) + processes.map_values(
        |pid: u32| TaskView::Process(pid),
    ) + timers.map_values(|s: u64| TaskView::Timer(s, crate::text::decimal(s as nat)))
}

/// The watchers that a configuration asks for.
pub fn plan_watchers(config: &WatchConfig) -> (r: Vec<WatchTask>)
    ensures
        tasks(r@) == tasks_of(
            crate::text::strs(config.files@),
            config.processes@,
            config.timers@,
        ),
{
    let ghost all = tasks_of(
        crate::text::strs(config.files@),
        config.processes@,
        config.timers@,
    );
    let nf: usize = config.files.len();
    let np: usize = config.processes.len();
    let nt: usize = config.timers.len();
    let mut out: Vec<WatchTask> = Vec::new();
    let mut i: usize = 0;
    while i < nf
        invariant
            i <= nf == config.files@.len(),
            all == tasks_of(crate::text::strs(config.files@), config.processes@, config.timers@),
            tasks(out@) =~= all.take(i as int),
        decreases nf - i,
    {
        let ghost before = out@;
        let task = WatchTask::File(config.files[i].clone());
        out.push(task);
        assert(tasks(out@) =~= tasks(before).push(task@));
        i += 1;
    }
    let mut j: usize = 0;
    while j < np
        invariant
            nf == config.files@.len(),
            j <= np == config.processes@.len(),
            all == tasks_of(crate::text::strs(config.files@), config.processes@, config.timers@),
            tasks(out@) =~= all.take(nf + j),
        decreases np - j,
    {
        let ghost before = out@;
        let task = WatchTask::Process(config.processes[j]);
        out.push(task);
        assert(tasks(out@) =~= tasks(before).push(task@));
        j += 1;
    }
    let mut k: usize = 0;
    while k < nt
        invariant
            nf == config.files@.len(),
            np == config.processes@.len(),
            k <= nt == config.timers@.len(),
            all == tasks_of(crate::text::strs(config.files@), config.processes@, config.timers@),
            tasks(out@) =~= all.take(nf + np + k),
        decreases nt - k,
    {
        let ghost before = out@;
        let secs: u64 = config.timers[k];
        let task = WatchTask::Timer { secs, label: decimal_string(secs) };
        out.push(task);
        assert(tasks(out@) =~= tasks(before).push(task@));
        k += 1;
    }
    assert(all.take(nf + np + nt) =~= all);
    out
}

/// What a file-system notification was about.
#[derive(Debug, Clone, Copy, PartialEq, Eq, Structural)]
pub enum FileEventKind {
    /// Contents or metadata were written.
    Modify,
    /// An entry was created.
    Create,
    /// An entry was removed.
    Remove,
    /// An entry was only read.
    Access,
    /// Anything else.
    Other,
}

/// Where a file watcher attaches: to the parent directory where the path has
/// one (`filter` is then set, since other files change there too), to the path
/// itself otherwise.
pub fn watch_target(path: &str, parent: Option<&str>) -> (r: (String, bool))
    ensures
        match parent {
            Some(p) if p@.len() > 0 => r.0@ == p@ && r.1,
            _ => r.0@ == path@ && !r.1,
        },
{
    match parent {
        Some(p) => {
            if p.is_empty() {
                (path.to_owned(), false)
            } else {
                (p.to_owned(), true)
            }
        },
        None => (path.to_owned(), false),
    }
}

/// Whether a file-system notification reports a change of `path`: it is a
/// write or a life-cycle event, and, where the parent directory is watched, it
/// names the path.
pub open spec fn reports_change(
    path: Seq<char>,
    filter: bool,
    kind: FileEventKind,
    paths: Seq<Seq<char>>,
) -> bool {
    &&& kind == FileEventKind::Modify || kind == FileEventKind::Create || kind
        == FileEventKind::Remove
    &&& filter ==> paths.contains(path)
}

/// The event that a file-system notification gives rise to.
pub fn file_event(path: &str, filter: bool, kind: FileEventKind, paths: &Vec<String>) -> (r: Option<
    WatchEvent,
>)
    ensures
        match r {
            Some(e) => e matches WatchEvent::FileChanged(p) && p@ == path@ && reports_change(
                path@,
                filter,
                kind,
                crate::text::strs(paths@),
            ),
            None => !reports_change(path@, filter, kind, crate::text::strs(paths@)),
        },
{
    match kind {
        FileEventKind::Modify | FileEventKind::Create | FileEventKind::Remove => {},
        _ => return None,
    }
    if filter {
        let ghost named = crate::text::strs(paths@);
        let mut i: usize = 0;
        let mut found = false;
        while i < paths.len() && !found
            invariant
                i <= paths@.len(),
                named == crate::text::strs(paths@),
                found ==> named.contains(path@),
                !found ==> forall|k: int| 0 <= k < i ==> named[k] != path@,
            decreases paths@.len() - i + (if found { 0int } else { 1int }),
        {
            if str_eq(paths[i].as_str(), path) {
                assert(named[i as int] == path@);
                found = true;
            } else {
                i += 1;
            }
        }
        if !found {
            return None;
        }
    }
    Some(WatchEvent::FileChanged(path.to_owned()))
}

/// What a process watcher does next.
#[derive(Debug, Clone, Copy, PartialEq, Eq, Structural)]
pub enum ProcessStep {
    /// The process was never there: nothing is watched or reported.
    GiveUp,
    /// Look again after the poll interval.
    Poll,
    /// Report the exit and stop.
    Report,
}

/// The next step of a process watcher: a process that is missing at the first
/// look is not watched; one that goes missing later has exited.
pub fn process_step(first_look: bool, present: bool) -> (r: ProcessStep)
    ensures
        present ==> r == ProcessStep::Poll,
        !present && first_look ==> r == ProcessStep::GiveUp,
        !present && !first_look ==> r == ProcessStep::Report,
{
    if present {
        ProcessStep::Poll
    } else if first_look {
        ProcessStep::GiveUp
    } else {
        ProcessStep::Report
    }
}

/// Every trigger has its watcher: the files first, then the processes, then
/// the timers, each in its order, and there are no others.
pub proof fn law_every_trigger_is_watched(
    files: Seq<Seq<char>>,
    processes: Seq<u32>,
    timers: Seq<u64>,
    i: int,
)
    ensures
        tasks_of(files, processes, timers).len() == files.len() + processes.len() + timers.len(),
        0 <= i < files.len() ==> tasks_of(files, processes, timers)[i] == TaskView::File(files[i]),
        0 <= i < processes.len() ==> tasks_of(files, processes, timers)[files.len() + i]
            == TaskView::Process(processes[i]),
        0 <= i < timers.len() ==> ({
            let task = tasks_of(files, processes, timers)[files.len() + processes.len() + i];
            task is Timer && task->Timer_0 == timers[i]
        }),
{
}

} // verus!
