//! The headless self-test: a recording is fed to the stages one after the
//! other, and the report says how long each took.

use vstd::prelude::*;

use crate::config::Config;
use crate::error::{LlmError, SkadooshError};
use crate::json::{json_quote, quote_json};
use crate::llm::client::{CLAUSE_MAX_LEN, CLAUSE_MIN_LEN};
use crate::llm::splitter::{clauses_of, pieces, remainder, whole, ClauseSplitter};
use crate::llm::sse::{line_delta, line_end, parse_sse_line, DeltaView, SseLineBuffer};
use crate::pipeline::stages::{elapsed, elapsed_ms};
use crate::text::{
    decimal, decimal_string, letters, string_of, strs, trim, trimmed, utf8_lossy,
};
use crate::vad::FRAME_LEN;

verus! {

// ---------------------------------------------------------------------------
// The request
// ---------------------------------------------------------------------------

/// The body of a streamed chat request with a system and a user message.
pub open spec fn request_text(model: Seq<char>, system: Seq<char>, user: Seq<char>) -> Seq<char> {
    "{\"messages\":[{\"content\":"@ + json_quote(system)
        + ",\"role\":\"system\"},{\"content\":"@ + json_quote(user)
        + ",\"role\":\"user\"}],\"model\":"@ + json_quote(model) + ",\"stream\":true}"@
}

/// The body of the request that puts the transcript of the recording to the
/// language model.
pub fn selftest_body(config: &Config, transcript: &str) -> (r: String)
    ensures
        r@ == request_text(config.llm_model@, config.system_prompt@, transcript@),
{
    let system = quote_json(config.system_prompt.as_str());
    let user = quote_json(transcript);
    let model = quote_json(config.llm_model.as_str());
    "{\"messages\":[{\"content\":".to_owned().concat(system.as_str()).concat(
        ",\"role\":\"system\"},{\"content\":",
    ).concat(user.as_str()).concat(",\"role\":\"user\"}],\"model\":").concat(
        model.as_str(),
    ).concat(",\"stream\":true}")
}

// ---------------------------------------------------------------------------
// Frames
// ---------------------------------------------------------------------------

/// Frames of trailing silence, which force the endpoint to close, like a live
/// stream would.
pub open spec fn silence_frames(silence_ms: u32) -> nat {
    (silence_ms / 32 + 2) as nat
}

/// The frames of a recording with its trailing silence; samples that fill no
/// frame are left out.
pub open spec fn frame_count(len: nat, silence_ms: u32) -> nat {
    (len + silence_frames(silence_ms) * 512) / 512
}

/// A frame: silence (zero bits) behind the end of the recording.
pub open spec fn frame_at(samples: Seq<u32>, k: nat) -> Seq<u32> {
    Seq::new(
        FRAME_LEN as nat,
        |j: int|
            if k * 512 + j < samples.len() {
                samples[k * 512 + j]
            } else {
                0
            },
    )
}

/// Hands the frames of a recording out.
#[derive(Debug)]
pub struct SelftestFeed {
    samples: Vec<u32>,
    silence_ms: u32,
    at: u64,
}

impl SelftestFeed {
    /// The recording.
    pub closed spec fn samples(&self) -> Seq<u32> {
        self.samples@
    }

    /// The silence that closes a segment.
    pub closed spec fn silence(&self) -> u32 {
        self.silence_ms
    }

    /// How many frames have been handed out.
    pub closed spec fn at(&self) -> nat {
        self.at as nat
    }

    /// The frames of a recording (16 kHz mono, float bits).
    pub fn new(samples: Vec<u32>, silence_ms: u32) -> (r: Self)
        ensures
            r.samples() == samples@,
            r.silence() == silence_ms,
            r.at() == 0,
    {
        SelftestFeed { samples, silence_ms, at: 0 }
    }

    /// The next frame, or `None` behind the last one.
    pub fn next_frame(&mut self) -> (r: Option<Vec<u32>>)
        ensures
            final(self).samples() == old(self).samples(),
            final(self).silence() == old(self).silence(),
            match r {
                Some(f) => old(self).at() < frame_count(
                    old(self).samples().len(),
                    old(self).silence(),
                ) && f@ == frame_at(old(self).samples(), old(self).at()) && final(self).at()
                    == old(self).at() + 1,
                None => old(self).at() >= frame_count(
                    old(self).samples().len(),
                    old(self).silence(),
                ) && final(self).at() == old(self).at(),
            },
    {
        let len: usize = self.samples.len();
        let whole: usize = len / 512;
        let silent: u64 = (self.silence_ms / 32) as u64 + 2;
        assert(frame_count(self.samples@.len(), self.silence_ms) == whole + silent);
        if self.at >= whole as u64 && self.at - whole as u64 >= silent {
            return None;
        }
        let mut frame: Vec<u32> = Vec::new();
        let ghost want = frame_at(self.samples@, self.at as nat);
        let mut j: usize = 0;
        assert(want.take(0) =~= Seq::empty());
        while j < FRAME_LEN
            invariant
                j <= FRAME_LEN,
                len == self.samples@.len(),
                whole == len / 512,
                want == frame_at(self.samples@, self.at as nat),
                frame@ == want.take(j as int),
            decreases FRAME_LEN - j,
        {
            let s: u32 = if self.at <= whole as u64 {
                assert(self.at * 512 <= whole * 512 <= len);
                let base: usize = self.at as usize * 512;
                if j < len - base {
                    self.samples[base + j]
                } else {
                    0
                }
            } else {
                0
            };
            assert(s == want[j as int]);
            frame.push(s);
            assert(frame@ =~= want.take(j + 1));
            j += 1;
        }
        assert(want.take(FRAME_LEN as int) =~= want);
        self.at = self.at + 1;
        Some(frame)
    }
}

/// The complaint about a recording without speech.
pub fn no_segment(wav: &str, silence_ms: u32) -> (r: SkadooshError)
    ensures
        r.text() == "no speech segment detected in "@ + wav@
            + " (needs audible speech followed by > "@ + decimal(silence_ms as nat)
            + " ms of silence)"@,
{
    SkadooshError::Other(
        "no speech segment detected in ".to_owned().concat(wav).concat(
            " (needs audible speech followed by > ",
        ).concat(decimal_string(silence_ms as u64).as_str()).concat(" ms of silence)"),
    )
}

/// Whether a transcript can be sent on.
pub fn check_selftest_transcript(transcript: &str) -> (r: Result<(), SkadooshError>)
    ensures
        match r {
            Ok(_) => trimmed(transcript@).len() > 0,
            Err(e) => trimmed(transcript@).len() == 0 && e.text()
                == "STT produced an empty transcript"@,
        },
{
    if trim(transcript).as_str().is_empty() {
        Err(SkadooshError::Other("STT produced an empty transcript".to_owned()))
    } else {
        Ok(())
    }
}

/// Whether a reply was spoken.
pub fn check_clips(clips: usize) -> (r: Result<(), SkadooshError>)
    ensures
        match r {
            Ok(_) => clips > 0,
            Err(e) => clips == 0 && e.text() == "LLM reply produced no clauses"@,
        },
{
    if clips == 0 {
        Err(SkadooshError::Other("LLM reply produced no clauses".to_owned()))
    } else {
        Ok(())
    }
}

// ---------------------------------------------------------------------------
// The reply stream
// ---------------------------------------------------------------------------

/// The state of a [`SelftestStream`].
#[verifier::ext_equal]
pub struct StreamView {
    /// The bytes that no line has taken yet.
    pub bytes: Seq<u8>,
    /// Whether the connection has closed.
    pub closed: bool,
    /// The text that no clause has taken yet.
    pub pending: Seq<char>,
    /// Whether the reply is complete.
    pub done: bool,
}

/// What a pass over the stream gives.
#[derive(Debug)]
pub enum StreamStep {
    /// Read more of the stream.
    Read,
    /// A line that carries no text.
    Nothing,
    /// A token, with the clauses that it completes.
    Token(Vec<String>),
    /// The reply is complete; this is the clause that was left.
    End(Option<String>),
}

/// A [`StreamStep`] by its texts.
#[verifier::ext_equal]
pub enum StepView {
    /// Read more of the stream.
    Read,
    /// A line that carries no text.
    Nothing,
    /// A token, with the clauses that it completes.
    Token(Seq<Seq<char>>),
    /// The reply is complete; this is the clause that was left.
    End(Option<Seq<char>>),
}

impl View for StreamStep {
    type V = StepView;

    open spec fn view(&self) -> StepView {
        match *self {
            StreamStep::Read => StepView::Read,
            StreamStep::Nothing => StepView::Nothing,
            StreamStep::Token(c) => StepView::Token(strs(c@)),
            StreamStep::End(c) => StepView::End(crate::json::opt_str(c)),
        }
    }
}

/// The next line of a stream and the bytes behind it: a complete line, or
/// after the close what is left.
pub open spec fn line_of(v: StreamView) -> Option<(Seq<u8>, Seq<u8>)> {
    match line_end(v.bytes, 0) {
        Some(end) => Some((v.bytes.take(end as int), v.bytes.skip(end as int))),
        None => if v.closed && v.bytes.len() > 0 {
            Some((v.bytes, Seq::empty()))
        } else {
            None
        },
    }
}

/// The end of a reply: the text that is left is its last clause, unless it is
/// blank.
pub open spec fn ended(v: StreamView) -> (StreamView, StepView) {
    (
        StreamView { pending: Seq::empty(), done: true, ..v },
        StepView::End(
            if trimmed(v.pending).len() > 0 {
                Some(v.pending)
            } else {
                None
            },
        ),
    )
}

/// One pass over the stream: a line, as the client parses it. Malformed data
/// lines are skipped; `[DONE]` and the close end the reply.
pub open spec fn stream_step(v: StreamView) -> (StreamView, StepView) {
    if v.done {
        ended(v)
    } else {
        match line_of(v) {
            None => if v.closed {
                ended(v)
            } else {
                (v, StepView::Read)
            },
            Some((line, rest)) => {
                let next = StreamView { bytes: rest, ..v };
                match line_delta(utf8_lossy(line)) {
                    Some(Ok(DeltaView::Text(token))) => {
                        let buf = v.pending + token;
                        (
                            StreamView {
                                pending: remainder(
                                    buf,
                                    CLAUSE_MIN_LEN as nat,
                                    CLAUSE_MAX_LEN as nat,
                                ),
                                ..next
                            },
                            StepView::Token(
                                clauses_of(
                                    pieces(buf, CLAUSE_MIN_LEN as nat, CLAUSE_MAX_LEN as nat),
                                ),
                            ),
                        )
                    },
                    Some(Ok(DeltaView::Done)) => ended(next),
                    _ => (next, StepView::Nothing),
                }
            },
        }
    }
}

/// The reply stream of the self-test, clause-split as it arrives.
pub struct SelftestStream {
    lines: SseLineBuffer,
    splitter: ClauseSplitter,
    done: bool,
}

impl View for SelftestStream {
    type V = StreamView;

    closed spec fn view(&self) -> StreamView {
        StreamView {
            bytes: self.lines.bytes(),
            closed: self.lines.closed(),
            pending: self.splitter.pending(),
            done: self.done,
        }
    }
}

impl SelftestStream {
    /// The splitter has the client's bounds.
    pub closed spec fn wf(&self) -> bool {
        self.splitter.min() == CLAUSE_MIN_LEN && self.splitter.max() == CLAUSE_MAX_LEN
    }

    /// A stream of which nothing has been read.
    pub fn new() -> (r: Self)
        ensures
            r.wf(),
            r@ == (StreamView {
                bytes: Seq::empty(),
                closed: false,
                pending: Seq::empty(),
                done: false,
            }),
    {
        SelftestStream {
            lines: SseLineBuffer::default(),
            splitter: ClauseSplitter::new(CLAUSE_MIN_LEN, CLAUSE_MAX_LEN),
            done: false,
        }
    }

    /// Takes a chunk that was read.
    pub fn feed(&mut self, chunk: &[u8]) -> (r: Result<(), LlmError>)
        requires
            old(self).wf(),
        ensures
            final(self).wf(),
            match r {
                Ok(_) => old(self)@.bytes.len() + chunk@.len()
                    <= crate::llm::sse::SSE_MAX_LINE_BYTES && final(self)@ == (StreamView {
                    bytes: old(self)@.bytes + chunk@,
                    ..old(self)@
                }),
                Err(LlmError::Sse(m)) => old(self)@.bytes.len() + chunk@.len()
                    > crate::llm::sse::SSE_MAX_LINE_BYTES && m@
                    == "SSE line exceeded maximum size"@ && final(self)@ == old(self)@,
                Err(_) => false,
            },
    {
        if self.lines.feed(chunk) {
            Ok(())
        } else {
            Err(LlmError::Sse("SSE line exceeded maximum size".to_owned()))
        }
    }

    /// The connection has closed.
    pub fn close(&mut self)
        requires
            old(self).wf(),
        ensures
            final(self).wf(),
            final(self)@ == (StreamView { closed: true, ..old(self)@ }),
    {
        self.lines.close();
    }

    /// One pass over what has been read.
    pub fn step(&mut self) -> (r: StreamStep)
        requires
            old(self).wf(),
        ensures
            final(self).wf(),
            (final(self)@, r@) == stream_step(old(self)@),
    {
        if self.done {
            return self.end();
        }
        let line = match self.lines.next_line() {
            Some(line) => line,
            None => {
                if self.lines.is_closed() {
                    return self.end();
                }
                return StreamStep::Read;
            },
        };
        match parse_sse_line(line.as_str()) {
            Some(Ok(Some(token))) => StreamStep::Token(self.splitter.push(token.as_str())),
            Some(Ok(None)) => self.end(),
            _ => StreamStep::Nothing,
        }
    }

    fn end(&mut self) -> (r: StreamStep)
        requires
            old(self).wf(),
        ensures
            final(self).wf(),
            (final(self)@, r@) == ended(old(self)@),
    {
        self.done = true;
        StreamStep::End(self.splitter.flush())
    }
}

// ---------------------------------------------------------------------------
// The report
// ---------------------------------------------------------------------------

/// Per-stage latencies of the self-test, in milliseconds.
#[derive(Debug, Clone)]
pub struct SelftestReport {
    /// VAD segment close latency (offline pass over the input wav).
    pub segment_ms: u64,
    /// STT transcription time.
    pub stt_ms: u64,
    /// LLM time to first token.
    pub llm_ttft_ms: u64,
    /// Time from the LLM request to the first completed clause.
    pub first_clause_ms: u64,
    /// TTS synthesis time (first clause).
    pub tts_ms: u64,
    /// End-to-end total (wav load → output wav written).
    pub total_ms: u64,
    /// Transcript of the input segment.
    pub transcript: String,
}

/// When each stage was reached, in nanoseconds on one clock.
#[derive(Debug, Clone, Copy, PartialEq, Eq, Structural)]
pub struct Stamps {
    /// The start.
    pub start: u64,
    /// The recording was loaded.
    pub loaded: u64,
    /// The segment closed.
    pub segment: u64,
    /// The transcript was there.
    pub text: u64,
    /// The LLM request was sent.
    pub request: u64,
    /// The first token came.
    pub first_token: Option<u64>,
    /// The first clause was complete.
    pub first_clause: Option<u64>,
    /// The first clip was synthesized.
    pub first_clip: Option<u64>,
    /// The reply was complete.
    pub reply_done: u64,
    /// The output was written.
    pub written: u64,
}

/// A stamp, or the end of the reply where there is none.
pub open spec fn or_done(stamp: Option<u64>, s: Stamps) -> u64 {
    match stamp {
        Some(t) => t,
        None => s.reply_done,
    }
}

fn stamp_or(stamp: Option<u64>, other: u64) -> (r: u64)
    ensures
        r == (match stamp {
            Some(t) => t,
            None => other,
        }),
{
    match stamp {
        Some(t) => t,
        None => other,
    }
}

/// What was written with `{:?}` of a string: in quotes, with escapes.
pub uninterp spec fn debug_text(s: Seq<char>) -> Seq<char>;

/// `format!` with `{:?}` of a `str`: the text is a function of the string
/// alone, which `debug_text` names.
#[verifier::external_body]
fn debug_string(s: &str) -> (r: String)
    ensures
        r@ == debug_text(s@),
{
    format!("{:?}", s)
}

/// `s` with spaces behind it up to `width` characters.
pub open spec fn pad_right(s: Seq<char>, width: nat) -> Seq<char> {
    s + spaces(
        if s.len() < width {
            (width - s.len()) as nat
        } else {
            0
        },
    )
}

/// `s` with spaces in front of it up to `width` characters.
pub open spec fn pad_left(s: Seq<char>, width: nat) -> Seq<char> {
    spaces(
        if s.len() < width {
            (width - s.len()) as nat
        } else {
            0
        },
    ) + s
}

/// `n` spaces.
pub open spec fn spaces(n: nat) -> Seq<char> {
    Seq::new(n, |i: int| ' ')
}

fn space_string(n: usize) -> (r: String)
    ensures
        r@ == spaces(n as nat),
{
    let mut v: Vec<char> = Vec::new();
    let mut i: usize = 0;
    while i < n
        invariant
            i <= n,
            v@ == spaces(i as nat),
        decreases n - i,
    {
        v.push(' ');
        i += 1;
        assert(v@ =~= spaces(i as nat));
    }
    assert(v@.subrange(0, v@.len() as int) =~= v@);
    string_of(&v, 0, v.len())
}

/// A row of the report.
pub open spec fn row(label: Seq<char>, ms: u64) -> Seq<char> {
    "  "@ + pad_right(label, 30) + " "@ + pad_left(decimal(ms as nat), 8) + " ms\n"@
}

fn missing(len: usize, width: usize) -> (r: usize)
    ensures
        r == if len < width {
            width - len
        } else {
            0
        },
{
    if len < width {
        width - len
    } else {
        0
    }
}

fn row_string(label: &str, ms: u64) -> (r: String)
    ensures
        r@ == row(label@, ms),
{
    let number = decimal_string(ms);
    let right = space_string(missing(label.unicode_len(), 30));
    let left = space_string(missing(number.as_str().unicode_len(), 8));
    let padded = label.to_owned().concat(right.as_str());
    let count = left.concat(number.as_str());
    "  ".to_owned().concat(padded.as_str()).concat(" ").concat(count.as_str()).concat(" ms\n")
}

impl SelftestReport {
    /// The report of a run.
    pub fn from_stamps(s: &Stamps, transcript: String) -> (r: Self)
        ensures
            r.segment_ms == elapsed(s.loaded, s.segment),
            r.stt_ms == elapsed(s.segment, s.text),
            r.llm_ttft_ms == elapsed(s.request, or_done(s.first_token, *s)),
            r.first_clause_ms == elapsed(s.request, or_done(s.first_clause, *s)),
            r.tts_ms == elapsed(or_done(s.first_clause, *s), or_done(s.first_clip, *s)),
            r.total_ms == elapsed(s.start, s.written),
            r.transcript == transcript,
    {
        let first_clause: u64 = stamp_or(s.first_clause, s.reply_done);
        SelftestReport {
            segment_ms: elapsed_ms(s.loaded, s.segment),
            stt_ms: elapsed_ms(s.segment, s.text),
            llm_ttft_ms: elapsed_ms(s.request, stamp_or(s.first_token, s.reply_done)),
            first_clause_ms: elapsed_ms(s.request, first_clause),
            tts_ms: elapsed_ms(first_clause, stamp_or(s.first_clip, s.reply_done)),
            total_ms: elapsed_ms(s.start, s.written),
            transcript,
        }
    }

    /// The latency table.
    pub open spec fn table(self) -> Seq<char> {
        "skadoosh selftest — latency report\n"@ + row("vad segmentation"@, self.segment_ms) + row(
            "stt (whisper)"@,
            self.stt_ms,
        ) + row("llm time-to-first-token"@, self.llm_ttft_ms) + row(
            "llm first clause"@,
            self.first_clause_ms,
        ) + row("tts first clip"@, self.tts_ms) + row("total"@, self.total_ms) + "  transcript: "@
            + debug_text(self.transcript@)
    }

    /// Renders the latency table printed by `skadoosh --selftest`.
    pub fn fmt(&self) -> (r: String)
        ensures
            r@ == self.table(),
    {
        "skadoosh selftest — latency report\n".to_owned().concat(
            row_string("vad segmentation", self.segment_ms).as_str(),
        ).concat(row_string("stt (whisper)", self.stt_ms).as_str()).concat(
            row_string("llm time-to-first-token", self.llm_ttft_ms).as_str(),
        ).concat(row_string("llm first clause", self.first_clause_ms).as_str()).concat(
            row_string("tts first clip", self.tts_ms).as_str(),
        ).concat(row_string("total", self.total_ms).as_str()).concat("  transcript: ").concat(
            debug_string(self.transcript.as_str()).as_str(),
        )
    }
}

/// The feed holds every sample at its place, behind the last one there is only
/// silence, and more than `silence_ms / 32` whole frames are silent, so that
/// speech which ends with the samples is closed.
pub proof fn law_feeds_end_in_silence(samples: Seq<u32>, silence_ms: u32, i: int, k: nat, j: int)
    ensures
        0 <= i < samples.len() ==> i / 512 < frame_count(samples.len(), silence_ms) && frame_at(
            samples,
            (i / 512) as nat,
        )[i % 512] == samples[i],
        frame_at(samples, k).len() == 512,
        0 <= j < 512 && k * 512 + j >= samples.len() ==> frame_at(samples, k)[j] == 0,
        (frame_count(samples.len(), silence_ms) - silence_ms as int / 32 - 1) * 512
            >= samples.len(),
{
    if 0 <= i < samples.len() {
        assert((i / 512) * 512 + i % 512 == i);
    }
}

/// What waits when the reply ends is said, unless it is blank, and waits no
/// longer; text that comes with a line becomes clauses, with what waited in
/// front of it, and loses nothing but white space.
pub proof fn law_streamed_text_is_spoken(
    v: StreamView,
    line: Seq<u8>,
    rest: Seq<u8>,
    token: Seq<char>,
)
    requires
        !v.done,
        line_of(v) == Some((line, rest)),
        line_delta(utf8_lossy(line)) == Some(
            Ok::<DeltaView, Seq<char>>(DeltaView::Text(token)),
        ),
    ensures
        ({
            let (after, step) = stream_step(v);
            &&& step is Token
            &&& letters(whole(step->Token_0)) + letters(after.pending) == letters(
                v.pending + token,
            )
            &&& after.bytes == rest
            &&& after.closed == v.closed
            &&& !after.done
        }),
        ({
            let (after, step) = ended(v);
            &&& after.pending.len() == 0
            &&& after.done
            &&& step is End
            &&& step->End_0 == (if letters(v.pending).len() > 0 {
                Some(v.pending)
            } else {
                None
            })
        }),
{
    crate::llm::splitter::law_push_keeps_the_letters(
        v.pending + token,
        CLAUSE_MIN_LEN as nat,
        CLAUSE_MAX_LEN as nat,
    );
    let (from, to) = crate::text::law_trimming_takes_white_space(v.pending);
    if from < to {
        let a = v.pending.take(from);
        let b = v.pending.skip(from + 1);
        let c = seq![v.pending[from]];
        assert(v.pending =~= a + c + b);
        crate::text::lemma_letters_add(a, c);
        crate::text::lemma_letters_add(a + c, b);
        assert(c.drop_last() =~= Seq::empty());
        assert(letters(c) =~= letters(c.drop_last()).push(v.pending[from]));
    } else {
        crate::text::lemma_letters_white(v.pending);
    }
}

} // verus!
