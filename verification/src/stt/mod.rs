//! Speech-to-text: the scripted [`MockStt`] double, the decode settings, and
//! the bounded queue in front of the worker.

use vstd::prelude::*;

use crate::error::SttError;
use crate::text::{strs, trim, trimmed};

verus! {

/// Bounded job-queue capacity.
pub const JOB_QUEUE_CAPACITY: usize = 2;

/// whisper-rs decode settings.
#[derive(Debug, Clone)]
pub struct SttConfig {
    /// Language code passed to whisper (`"en"`).
    pub language: String,
    /// Decode threads; defaults to `min(4, available_parallelism)`.
    pub threads: u32,
    /// Greedy sampling (no beam search) — lowest latency.
    pub greedy: bool,
    /// Suppress blank outputs.
    pub suppress_blank: bool,
}

impl SttConfig {
    /// The defaults on a machine that runs `parallelism` threads at once, as
    /// far as that is known.
    pub fn with_parallelism(parallelism: Option<usize>) -> (r: Self)
        ensures
            r.language@ == "en"@,
            r.threads == (match parallelism {
                Some(n) => if n < 4 {
                    n as u32
                } else {
                    4
                },
                None => 1,
            }),
            r.greedy,
            r.suppress_blank,
    {
        let threads: u32 = match parallelism {
            Some(n) => if n < 4 {
                n as u32
            } else {
                4
            },
            None => 1,
        };
        SttConfig { language: "en".to_owned(), threads, greedy: true, suppress_blank: true }
    }
}

// ---------------------------------------------------------------------------
// The scripted engine
// ---------------------------------------------------------------------------

/// Replies by their texts.
pub open spec fn script(v: Seq<(u64, String)>) -> Seq<(u64, Seq<char>)> {
    v.map_values(|r: (u64, String)| (r.0, r.1@))
}

/// Replies without delay.
pub open spec fn immediate(texts: Seq<Seq<char>>) -> Seq<(u64, Seq<char>)> {
    texts.map_values(|t: Seq<char>| (0u64, t))
}

/// A scripted STT engine for tests and examples: pops canned transcripts
/// from a queue, in order.
///
/// Once the script is exhausted the mock answers with an empty transcript
/// (which the pipeline skips, like an empty whisper decode).
#[derive(Debug)]
pub struct MockStt {
    replies: Vec<(u64, String)>,
}

impl View for MockStt {
    type V = Seq<(u64, Seq<char>)>;

    closed spec fn view(&self) -> Seq<(u64, Seq<char>)> {
        script(self.replies@)
    }
}

impl MockStt {
    /// An empty-script mock (answers every segment with an empty
    /// transcript).
    pub fn new() -> (r: Self)
        ensures
            r@ == Seq::<(u64, Seq<char>)>::empty(),
    {
        let r = MockStt { replies: Vec::new() };
        assert(r@ =~= Seq::<(u64, Seq<char>)>::empty());
        r
    }

    /// A mock answering with `replies` in order, all without delay.
    pub fn from_replies(replies: &Vec<String>) -> (r: Self)
        ensures
            r@ == immediate(strs(replies@)),
    {
        let mut mock = MockStt::new();
        let ghost all = immediate(strs(replies@));
        let mut i: usize = 0;
        assert(mock@ =~= all.take(0));
        while i < replies.len()
            invariant
                all == immediate(strs(replies@)),
                i <= replies@.len(),
                mock@ == all.take(i as int),
            decreases replies@.len() - i,
        {
            mock.push_reply(replies[i].as_str());
            assert(all.take(i + 1) =~= all.take(i as int).push(all[i as int]));
            i += 1;
        }
        assert(all.take(all.len() as int) =~= all);
        mock
    }

    /// Appends a canned transcript to the script.
    pub fn push_reply(&mut self, text: &str)
        ensures
            final(self)@ == old(self)@.push((0u64, text@)),
    {
        self.push_delayed(0, text);
    }

    /// Appends a canned transcript delivered after `delay` nanoseconds
    /// (useful for stale-turn/barge-in tests).
    pub fn push_delayed(&mut self, delay: u64, text: &str)
        ensures
            final(self)@ == old(self)@.push((delay, text@)),
    {
        let ghost before = self@;
        self.replies.push((delay, text.to_owned()));
        assert(self@ =~= before.push((delay, text@)));
    }

    /// Engine name.
    pub fn name(&self) -> (r: &'static str)
        ensures
            r@ == "mock-stt"@,
    {
        "mock-stt"
    }

    /// The next reply and how long it is delayed.
    pub fn transcribe(&mut self) -> (r: (u64, String))
        ensures
            old(self)@.len() > 0 ==> (r.0, r.1@) == old(self)@[0] && final(self)@ == old(self)@.skip(1),
            old(self)@.len() == 0 ==> r.0 == 0 && r.1@ == Seq::<char>::empty() && final(self)@
                == old(self)@,
    {
        if self.replies.len() == 0 {
            return (0, String::new());
        }
        let ghost before = self@;
        let next = self.replies.remove(0);
        assert((next.0, next.1@) == before[0]);
        assert(self@ =~= before.skip(1));
        next
    }
}

// ---------------------------------------------------------------------------
// The worker's queue
// ---------------------------------------------------------------------------

/// Jobs that wait for the worker: at most [`JOB_QUEUE_CAPACITY`]. When full,
/// the oldest queued job is dropped (the freshest utterance wins), which caps
/// memory when speech arrives faster than it is transcribed.
#[derive(Debug)]
pub struct JobQueue<T> {
    jobs: Vec<T>,
    dropped: u64,
}

impl<T> JobQueue<T> {
    /// The jobs, oldest first.
    pub closed spec fn jobs(&self) -> Seq<T> {
        self.jobs@
    }

    /// How many jobs were dropped.
    pub closed spec fn dropped(&self) -> u64 {
        self.dropped
    }

    /// There are no more jobs than fit.
    pub open spec fn wf(&self) -> bool {
        self.jobs().len() <= JOB_QUEUE_CAPACITY
    }

    /// An empty queue.
    pub fn new() -> (r: Self)
        ensures
            r.wf(),
            r.jobs() == Seq::<T>::empty(),
            r.dropped() == 0,
    {
        JobQueue { jobs: Vec::new(), dropped: 0 }
    }

    /// Queues a job. Returns the job that was dropped for it.
    pub fn transcribe(&mut self, job: T) -> (r: Option<T>)
        requires
            old(self).wf(),
            old(self).dropped() < u64::MAX,
        ensures
            final(self).wf(),
            old(self).jobs().len() < JOB_QUEUE_CAPACITY ==> r is None && final(self).jobs() == old(self).jobs().push(job) && final(self).dropped() == old(self).dropped(),
            old(self).jobs().len() == JOB_QUEUE_CAPACITY ==> r == Some(old(self).jobs()[0])
                && final(self).jobs() == old(self).jobs().skip(1).push(job) && final(self).dropped() == old(self).dropped() + 1,
    {
        if self.jobs.len() < JOB_QUEUE_CAPACITY {
            self.jobs.push(job);
            None
        } else {
            let ghost before = self.jobs@;
            let oldest = self.jobs.remove(0);
            assert(self.jobs@ =~= before.skip(1));
            self.jobs.push(job);
            self.dropped = self.dropped + 1;
            Some(oldest)
        }
    }

    /// The oldest job, for the worker.
    pub fn take(&mut self) -> (r: Option<T>)
        requires
            old(self).wf(),
        ensures
            final(self).wf(),
            final(self).dropped() == old(self).dropped(),
            old(self).jobs().len() == 0 ==> r is None && final(self).jobs() == old(self).jobs(),
            old(self).jobs().len() > 0 ==> r == Some(old(self).jobs()[0]) && final(self).jobs()
                == old(self).jobs().skip(1),
    {
        if self.jobs.len() == 0 {
            None
        } else {
            let ghost before = self.jobs@;
            let job = self.jobs.remove(0);
            assert(self.jobs@ =~= before.skip(1));
            Some(job)
        }
    }

    /// Total jobs dropped because the queue was full.
    pub fn dropped_jobs(&self) -> (r: u64)
        ensures
            r == self.dropped(),
    {
        self.dropped
    }
}

/// How the worker's start went.
#[derive(Debug)]
pub enum WorkerStart {
    /// Its thread could not be started, for this reason.
    NotSpawned(String),
    /// The model is loaded.
    Ready,
    /// The model could not be loaded, for this reason.
    Failed(String),
    /// It went away without a word.
    Gone,
}

/// What starting the worker gives: it fails fast on a bad model path.
pub fn worker_started(start: &WorkerStart) -> (r: Result<(), SttError>)
    ensures
        match *start {
            WorkerStart::NotSpawned(e) => r matches Err(SttError::ModelLoad(m)) && m@
                == "failed to spawn skadoosh-stt thread: "@ + e@,
            WorkerStart::Ready => r is Ok,
            WorkerStart::Failed(e) => r matches Err(SttError::ModelLoad(m)) && m@ == e@,
            WorkerStart::Gone => r matches Err(SttError::WorkerGone),
        },
{
    match start {
        WorkerStart::NotSpawned(e) => Err(
            SttError::ModelLoad(
                "failed to spawn skadoosh-stt thread: ".to_owned().concat(e.as_str()),
            ),
        ),
        WorkerStart::Ready => Ok(()),
        WorkerStart::Failed(e) => Err(SttError::ModelLoad(e.clone())),
        WorkerStart::Gone => Err(SttError::WorkerGone),
    }
}

/// The texts of segments, one behind the other.
pub open spec fn joined_segments(v: Seq<Seq<char>>) -> Seq<char>
    decreases v.len(),
{
    if v.len() == 0 {
        Seq::empty()
    } else {
        joined_segments(v.drop_last()) + v.last()
    }
}

/// The transcript of a decode: the segment texts one behind the other, without
/// white space around them.
pub fn transcript_of(segments: &Vec<String>) -> (r: String)
    ensures
        r@ == trimmed(joined_segments(strs(segments@))),
{
    let ghost all = strs(segments@);
    let mut text = String::new();
    let mut i: usize = 0;
    assert(text@ =~= joined_segments(all.take(0)));
    while i < segments.len()
        invariant
            all == strs(segments@),
            i <= segments@.len(),
            text@ == joined_segments(all.take(i as int)),
        decreases segments@.len() - i,
    {
        assert(all.take(i + 1).drop_last() =~= all.take(i as int));
        text.append(segments[i].as_str());
        i += 1;
    }
    assert(all.take(all.len() as int) =~= all);
    trim(text.as_str())
}

/// A transcript has its segments in the order in which they were decoded: those
/// of two runs of segments stand one behind the other, and that of one segment is
/// its text.
pub proof fn law_segments_keep_their_order(
    first: Seq<Seq<char>>,
    second: Seq<Seq<char>>,
    one: Seq<char>,
)
    ensures
        joined_segments(first + second) == joined_segments(first) + joined_segments(second),
        joined_segments(seq![one]) == one,
    decreases second.len(),
{
    let none = Seq::<Seq<char>>::empty();
    assert(seq![one].drop_last() =~= none);
    assert(joined_segments(none) =~= Seq::<char>::empty());
    assert(joined_segments(seq![one]) =~= one);
    if second.len() == 0 {
        assert(first + second =~= first);
        assert(joined_segments(first) + joined_segments(second) =~= joined_segments(first));
    } else {
        assert((first + second).drop_last() =~= first + second.drop_last());
        law_segments_keep_their_order(first, second.drop_last(), one);
        assert(joined_segments(first + second) =~= joined_segments(first) + joined_segments(
            second,
        ));
    }
}

} // verus!
