//! Server-sent events: byte buffering, line framing, and the deltas that an
//! OpenAI-compatible chat stream carries.

use vstd::prelude::*;

use crate::error::{LlmError, SkadooshError};
use crate::json::{parse_json, Json, JsonTree};
use crate::llm::message::{decode_call, decoded_call, CallView, ToolCall};
use crate::text::{chars_of, decode_lossy, is_at, str_eq, string_of, trim_bounds};

verus! {

/// Safety cap: a single SSE line must not exceed 1 MiB. Larger chunks from a
/// broken server are rejected to prevent unbounded memory growth.
pub const SSE_MAX_LINE_BYTES: usize = 1_048_576;

/// The number of bytes of `buf` up to and with its first newline at or behind
/// `from`.
pub open spec fn line_end(buf: Seq<u8>, from: nat) -> Option<nat>
    decreases buf.len() - from,
{
    if from >= buf.len() {
        None
    } else if buf[from as int] == 10 {
        Some(from + 1)
    } else {
        line_end(buf, from + 1)
    }
}

pub proof fn lemma_line_end(buf: Seq<u8>, from: nat)
    ensures
        match line_end(buf, from) {
            Some(end) => from < end <= buf.len() && buf[end - 1] == 10 && forall|i: int|
                from <= i < end - 1 ==> #[trigger] buf[i] != 10,
            None => forall|i: int| from <= i < buf.len() ==> #[trigger] buf[i] != 10,
        },
    decreases buf.len() - from,
{
    if from < buf.len() && buf[from as int] != 10 {
        lemma_line_end(buf, from + 1);
    }
}

/// The complete lines of `buf`, each with its newline.
pub open spec fn complete_lines(buf: Seq<u8>) -> Seq<Seq<u8>>
    decreases buf.len(),
    via complete_lines_decreases
{
    match line_end(buf, 0) {
        None => Seq::empty(),
        Some(end) => seq![buf.take(end as int)] + complete_lines(buf.skip(end as int)),
    }
}

#[via_fn]
proof fn complete_lines_decreases(buf: Seq<u8>) {
    lemma_line_end(buf, 0);
}

/// What follows the last newline of `buf`.
pub open spec fn open_line(buf: Seq<u8>) -> Seq<u8>
    decreases buf.len(),
    via open_line_decreases
{
    match line_end(buf, 0) {
        None => buf,
        Some(end) => open_line(buf.skip(end as int)),
    }
}

#[via_fn]
proof fn open_line_decreases(buf: Seq<u8>) {
    lemma_line_end(buf, 0);
}

/// Buffers raw SSE bytes and yields complete lines. A multi-byte UTF-8 char
/// split across stream chunks stays in the byte buffer until the
/// terminating `\n` arrives, so lines are always valid boundaries.
///
/// Call [`close`](Self::close) at end of stream: afterwards [`next_line`](Self::next_line)
/// yields the unterminated trailing bytes once as a final line (a server
/// that closes without a trailing `\n` loses no content), then `None`.
pub struct SseLineBuffer {
    buf: Vec<u8>,
    eof: bool,
}

impl Default for SseLineBuffer {
    fn default() -> (r: Self)
        ensures
            r.bytes() == Seq::<u8>::empty(),
            !r.closed(),
    {
        SseLineBuffer { buf: Vec::new(), eof: false }
    }
}

impl SseLineBuffer {
    /// The bytes that no line has taken yet.
    pub closed spec fn bytes(&self) -> Seq<u8> {
        self.buf@
    }

    /// Whether the stream has ended.
    pub closed spec fn closed(&self) -> bool {
        self.eof
    }

    /// Appends one stream chunk. Returns `false`, and appends nothing, when
    /// the buffered data would exceed [`SSE_MAX_LINE_BYTES`] — the caller
    /// should abort the stream.
    pub fn feed(&mut self, chunk: &[u8]) -> (r: bool)
        ensures
            final(self).closed() == old(self).closed(),
            r == (old(self).bytes().len() + chunk@.len() <= SSE_MAX_LINE_BYTES),
            r ==> final(self).bytes() == old(self).bytes() + chunk@,
            !r ==> final(self).bytes() == old(self).bytes(),
    {
        if self.buf.len() > SSE_MAX_LINE_BYTES || chunk.len() > SSE_MAX_LINE_BYTES - self.buf.len() {
            return false;
        }
        let ghost before = self.buf@;
        self.buf.extend_from_slice(chunk);
        assert(self.buf@ =~= before + chunk@);
        true
    }

    /// Marks end of stream; idempotent.
    pub fn close(&mut self)
        ensures
            final(self).closed(),
            final(self).bytes() == old(self).bytes(),
    {
        self.eof = true;
    }

    /// Whether the stream has ended.
    pub fn is_closed(&self) -> (r: bool)
        ensures
            r == self.closed(),
    {
        self.eof
    }

    /// Pops the next complete `\n`-terminated line (lossy UTF-8 decode).
    /// After [`close`](Self::close), also yields the unterminated remainder
    /// once, then returns `None`.
    pub fn next_line(&mut self) -> (r: Option<String>)
        ensures
            final(self).closed() == old(self).closed(),
            match line_end(old(self).bytes(), 0) {
                Some(end) => r matches Some(line) && line@ == crate::text::utf8_lossy(
                    old(self).bytes().take(end as int),
                ) && final(self).bytes() == old(self).bytes().skip(end as int),
                None => if old(self).closed() && old(self).bytes().len() > 0 {
                    r matches Some(line) && line@ == crate::text::utf8_lossy(old(self).bytes())
                        && final(self).bytes() == Seq::<u8>::empty()
                } else {
                    r is None && final(self).bytes() == old(self).bytes()
                },
            },
    {
        let n: usize = self.buf.len();
        let ghost before = self.buf@;
        let mut i: usize = 0;
        while i < n
            invariant
                before == self.buf@,
                before == old(self).bytes(),
                self.eof == old(self).closed(),
                i <= n == before.len(),
                line_end(before, 0) == line_end(before, i as nat),
            decreases n - i,
        {
            if self.buf[i] == 10 {
                let rest = self.buf.split_off(i + 1);
                let line = decode_lossy(self.buf.as_slice());
                self.buf = rest;
                assert(self.buf@ =~= before.skip(i + 1));
                return Some(line);
            }
            i += 1;
        }
        if self.eof && n > 0 {
            let mut rest: Vec<u8> = Vec::new();
            std::mem::swap(&mut rest, &mut self.buf);
            return Some(decode_lossy(rest.as_slice()));
        }
        None
    }
}

/// The lines of a byte stream and what follows the last newline give the
/// stream back, so no byte is lost or read twice.
pub proof fn law_lines_keep_every_byte(buf: Seq<u8>)
    ensures
        complete_lines(buf).flatten() + open_line(buf) == buf,
        line_end(open_line(buf), 0) is None,
    decreases buf.len(),
{
    lemma_line_end(buf, 0);
    match line_end(buf, 0) {
        None => {
            assert(complete_lines(buf).flatten() + buf =~= buf);
        },
        Some(end) => {
            let rest = buf.skip(end as int);
            law_lines_keep_every_byte(rest);
            let head = seq![buf.take(end as int)];
            assert(complete_lines(buf) =~= head + complete_lines(rest));
            assert(complete_lines(buf).drop_first() =~= complete_lines(rest));
            assert(complete_lines(buf).first() == buf.take(end as int));
            assert(complete_lines(buf).flatten() =~= buf.take(end as int) + complete_lines(
                rest,
            ).flatten());
            assert(complete_lines(buf).flatten() + open_line(rest) =~= buf.take(end as int) + (
            complete_lines(rest).flatten() + open_line(rest)));
        },
    }
}

/// Where the stream is cut into chunks makes no difference to its lines: the
/// lines of a first part, and then those of what it left open together with
/// the second part, are the lines of the whole.
pub proof fn law_lines_ignore_chunking(a: Seq<u8>, b: Seq<u8>)
    ensures
        complete_lines(a + b) == complete_lines(a) + complete_lines(open_line(a) + b),
        open_line(a + b) == open_line(open_line(a) + b),
    decreases a.len(),
{
    lemma_line_end(a, 0);
    lemma_line_end(a + b, 0);
    match line_end(a, 0) {
        None => {
            assert(complete_lines(a) + complete_lines(a + b) =~= complete_lines(a + b));
        },
        Some(end) => {
            assert((a + b)[end - 1] == a[end - 1]);
            let whole = line_end(a + b, 0).unwrap();
            if whole < end {
                assert((a + b)[whole - 1] == a[whole - 1]);
            }
            assert(whole == end);
            assert((a + b).take(end as int) =~= a.take(end as int));
            assert((a + b).skip(end as int) =~= a.skip(end as int) + b);
            law_lines_ignore_chunking(a.skip(end as int), b);
            assert(complete_lines(a + b) =~= complete_lines(a) + complete_lines(open_line(a) + b));
        },
    }
}

/// A delta from one SSE chunk: either a text token or a tool call fragment.
#[derive(Debug)]
pub enum SseDelta {
    /// A plain text content token.
    Text(String),
    /// A tool call fragment (accumulated across chunks by index).
    ToolCall(ToolCall),
    /// End of stream sentinel (`data: [DONE]`).
    Done,
}

/// The view of an [`SseDelta`].
#[verifier::ext_equal]
pub enum DeltaView {
    /// A plain text content token.
    Text(Seq<char>),
    /// A tool call fragment.
    ToolCall(CallView),
    /// End of stream sentinel.
    Done,
}

impl View for SseDelta {
    type V = DeltaView;

    open spec fn view(&self) -> DeltaView {
        match *self {
            SseDelta::Text(t) => DeltaView::Text(t@),
            SseDelta::ToolCall(c) => DeltaView::ToolCall(c@),
            SseDelta::Done => DeltaView::Done,
        }
    }
}

/// The payload of an SSE line: what follows `data:`, trimmed; `None` for blank
/// lines, comments, and other fields.
pub open spec fn sse_payload(line: Seq<char>) -> Option<Seq<char>> {
    let line = crate::text::trimmed(line);
    if line.len() == 0 || line[0] == ':' || !crate::text::starts_with(line, "data:"@) {
        None
    } else {
        Some(crate::text::trimmed(line.skip("data:"@.len() as int)))
    }
}

/// The delta that a parsed chunk carries: the first entry of the first
/// choice's `delta.tool_calls` where that is an array, else its non-empty
/// `delta.content`.
pub open spec fn chunk_delta(chunk: JsonTree) -> Option<DeltaView> {
    match chunk.member("choices"@) {
        Some(JsonTree::List(choices)) => if choices.len() == 0 {
            None
        } else {
            match choices[0].member("delta"@) {
                Some(delta) => match delta.member("tool_calls"@) {
                    Some(JsonTree::List(list)) => if list.len() == 0 {
                        None
                    } else {
                        match decoded_call(list[0]) {
                            Some(c) => Some(DeltaView::ToolCall(c)),
                            None => None,
                        }
                    },
                    _ => match delta.member_text("content"@) {
                        Some(token) => if token.len() == 0 {
                            None
                        } else {
                            Some(DeltaView::Text(token))
                        },
                        None => None,
                    },
                },
                None => None,
            }
        },
        _ => None,
    }
}

/// The view of an optional delta.
pub open spec fn opt_delta(d: Option<SseDelta>) -> Option<DeltaView> {
    match d {
        Some(d) => Some(d@),
        None => None,
    }
}

/// The delta that a parsed chunk carries.
pub fn delta_of_chunk(chunk: &Json) -> (r: Option<SseDelta>)
    ensures
        opt_delta(r) == chunk_delta(chunk@),
{
    let choices = match chunk.get("choices") {
        Some(Json::List(choices)) => choices,
        _ => return None,
    };
    if choices.len() == 0 {
        return None;
    }
    let delta = match choices[0].get("delta") {
        Some(delta) => delta,
        None => return None,
    };
    match delta.get("tool_calls") {
        Some(Json::List(list)) => {
            if list.len() == 0 {
                return None;
            }
            match decode_call(&list[0]) {
                Some(c) => Some(SseDelta::ToolCall(c)),
                None => None,
            }
        },
        _ => match delta.get_text("content") {
            Some(token) => {
                if token.as_str().is_empty() {
                    None
                } else {
                    Some(SseDelta::Text(token))
                }
            },
            None => None,
        },
    }
}

/// The payload of an SSE line.
pub fn payload_of_line(line: &str) -> (r: Option<String>)
    ensures
        crate::json::opt_str(r) == sse_payload(line@),
{
    let all = chars_of(line);
    let (a, b) = trim_bounds(&all);
    let trimmed = chars_of(string_of(&all, a, b).as_str());
    if trimmed.len() == 0 || trimmed[0] == ':' {
        return None;
    }
    let prefix = chars_of("data:");
    if !is_at(&trimmed, &prefix, 0) {
        return None;
    }
    let data = chars_of(string_of(&trimmed, prefix.len(), trimmed.len()).as_str());
    assert(data@ =~= trimmed@.skip(prefix@.len() as int));
    let (c, d) = trim_bounds(&data);
    Some(string_of(&data, c, d))
}

/// What an SSE line carries: a delta, or the message of an error; `None` for
/// blank lines, comments, other fields, and chunks without content.
pub open spec fn line_delta(line: Seq<char>) -> Option<Result<DeltaView, Seq<char>>> {
    match sse_payload(line) {
        None => None,
        Some(data) => if data == "[DONE]"@ {
            Some(Ok(DeltaView::Done))
        } else {
            match crate::json::parsed(data) {
                Err(e) => Some(Err("malformed SSE data: "@ + e)),
                Ok(chunk) => match chunk_delta(chunk) {
                    Some(delta) => Some(Ok(delta)),
                    None => None,
                },
            }
        },
    }
}

/// Whether `r` is the result `want`, its error an SSE error.
pub open spec fn is_line_delta(
    r: Option<std::result::Result<SseDelta, SkadooshError>>,
    want: Option<Result<DeltaView, Seq<char>>>,
) -> bool {
    match want {
        None => r is None,
        Some(Ok(delta)) => r matches Some(Ok(d)) && d@ == delta,
        Some(Err(e)) => r matches Some(Err(SkadooshError::Llm(LlmError::Sse(m)))) && m@ == e,
    }
}

/// Parses one SSE line into an [`SseDelta`] — text content token, tool
/// call fragment, or the `[DONE]` sentinel. Handles both text deltas
/// (`delta.content`) and tool-call deltas (`delta.tool_calls[]`).
///
/// * blank lines, comments (`: ...`), other fields, and data chunks without
///   content (role deltas, finish markers) → `None`;
/// * malformed JSON → `Some(Err(..))`; the caller skips the line.
pub fn parse_sse_delta(line: &str) -> (r: Option<std::result::Result<SseDelta, SkadooshError>>)
    ensures
        is_line_delta(r, line_delta(line@)),
{
    let data = match payload_of_line(line) {
        Some(data) => data,
        None => return None,
    };
    if str_eq(data.as_str(), "[DONE]") {
        return Some(Ok(SseDelta::Done));
    }
    match parse_json(data.as_str()) {
        Err(e) => Some(
            Err(
                SkadooshError::Llm(
                    LlmError::Sse("malformed SSE data: ".to_owned().concat(e.as_str())),
                ),
            ),
        ),
        Ok(chunk) => match delta_of_chunk(&chunk) {
            Some(delta) => Some(Ok(delta)),
            None => None,
        },
    }
}

/// Parses one SSE line, text content alone: `Some(Ok(Some(token)))` for a
/// token, `Some(Ok(None))` for the end sentinel, `Some(Err(..))` for malformed
/// JSON, `None` for anything else.
///
/// For tool-calling support, use [`parse_sse_delta`] instead.
pub fn parse_sse_line(line: &str) -> (r: Option<
    std::result::Result<Option<String>, SkadooshError>,
>)
    ensures
        match line_delta(line@) {
            Some(Ok(DeltaView::Text(t))) => r matches Some(Ok(Some(token))) && token@ == t,
            Some(Ok(DeltaView::Done)) => r matches Some(Ok(None)),
            Some(Ok(DeltaView::ToolCall(_))) => r is None,
            Some(Err(e)) => r matches Some(Err(SkadooshError::Llm(LlmError::Sse(m)))) && m@ == e,
            None => r is None,
        },
{
    match parse_sse_delta(line) {
        Some(Ok(SseDelta::Text(t))) => Some(Ok(Some(t))),
        Some(Ok(SseDelta::Done)) => Some(Ok(None)),
        Some(Ok(SseDelta::ToolCall(_))) => None,
        Some(Err(e)) => Some(Err(e)),
        None => None,
    }
}

// ---------------------------------------------------------------------------
// Laws
// ---------------------------------------------------------------------------

/// Trimming takes off the white space round a text that begins and ends with
/// something else.
proof fn lemma_trimmed_inside(a: Seq<char>, text: Seq<char>, b: Seq<char>)
    requires
        forall|i: int| 0 <= i < a.len() ==> crate::text::is_white(#[trigger] a[i]),
        forall|i: int| 0 <= i < b.len() ==> crate::text::is_white(#[trigger] b[i]),
        text.len() > 0,
        !crate::text::is_white(text[0]),
        !crate::text::is_white(text.last()),
    ensures
        crate::text::trimmed(a + text + b) == text,
    decreases a.len() + b.len(),
{
    let all = a + text + b;
    if a.len() > 0 {
        assert(crate::text::is_white(a[0]));
        assert(all[0] == a[0]);
        let rest = a.subrange(1, a.len() as int);
        assert forall|i: int| 0 <= i < rest.len() implies crate::text::is_white(
            #[trigger] rest[i],
        ) by {
            assert(rest[i] == a[i + 1]);
        }
        assert(all.subrange(1, all.len() as int) =~= rest + text + b);
        lemma_trimmed_inside(rest, text, b);
    } else if b.len() > 0 {
        assert(all =~= text + b);
        assert(all[0] == text[0]);
        let rest = b.drop_last();
        assert(crate::text::is_white(b[b.len() - 1]));
        assert forall|i: int| 0 <= i < rest.len() implies crate::text::is_white(
            #[trigger] rest[i],
        ) by {
            assert(rest[i] == b[i]);
        }
        assert(all.drop_last() =~= text + rest);
        assert((text + rest)[0] == text[0]);
        assert(a + text + rest =~= text + rest);
        lemma_trimmed_inside(a, text, rest);
    } else {
        assert(all =~= text);
    }
}

/// The data of a line is what stands behind `data:`, whatever white space is
/// round it: a line ending, an indentation, a space behind the colon or none.
pub proof fn law_data_lines_carry_their_payload(
    lead: Seq<char>,
    gap: Seq<char>,
    data: Seq<char>,
    end: Seq<char>,
)
    requires
        forall|i: int| 0 <= i < lead.len() ==> crate::text::is_white(#[trigger] lead[i]),
        forall|i: int| 0 <= i < gap.len() ==> crate::text::is_white(#[trigger] gap[i]),
        forall|i: int| 0 <= i < end.len() ==> crate::text::is_white(#[trigger] end[i]),
        data.len() > 0,
        !crate::text::is_white(data[0]),
        !crate::text::is_white(data.last()),
    ensures
        sse_payload(lead + (seq!['d', 'a', 't', 'a', ':'] + gap + data) + end) == Some(data),
{
    reveal_strlit("data:");
    let head = seq!['d', 'a', 't', 'a', ':'];
    assert("data:"@ =~= head);
    let line = head + gap + data;
    lemma_trimmed_inside(lead, line, end);
    assert(line.subrange(0, 5) =~= head);
    assert(line.skip(5) =~= gap + data);
    let none = Seq::<char>::empty();
    lemma_trimmed_inside(gap, data, none);
    assert(gap + data + none =~= gap + data);
}

/// Comments and the other fields of a stream carry nothing.
pub proof fn law_other_lines_carry_nothing(line: Seq<char>)
    requires
        line.len() == 0 || line[0] == ':' || (line[0] != 'd' && !crate::text::is_white(line[0])),
    ensures
        line_delta(line) is None,
{
    reveal_strlit("data:");
    if line.len() > 0 {
        crate::text::lemma_trim_end(line);
        let t = crate::text::trimmed(line);
        if t.len() > 0 {
            assert(t[0] == line[0]);
            if crate::text::starts_with(t, "data:"@) {
                assert(t.subrange(0, 5)[0] == "data:"@[0]);
            }
        }
    }
}

/// The text of a chunk is the content of its first choice, character for
/// character, and a chunk that calls a tool carries its first call instead.
pub proof fn law_chunks_carry_their_content(
    chunk: JsonTree,
    choices: Seq<JsonTree>,
    delta: JsonTree,
    text: Seq<char>,
    list: Seq<JsonTree>,
)
    requires
        chunk.member("choices"@) == Some(JsonTree::List(choices)),
        choices.len() > 0,
        choices[0].member("delta"@) == Some(delta),
    ensures
        delta.member("tool_calls"@) is None && text.len() > 0 && delta.member("content"@) == Some(
            JsonTree::Text(text),
        ) ==> chunk_delta(chunk) == Some(DeltaView::Text(text)),
        list.len() > 0 && delta.member("tool_calls"@) == Some(JsonTree::List(list))
            && decoded_call(list[0]) is Some ==> chunk_delta(chunk) == Some(
            DeltaView::ToolCall(decoded_call(list[0])->0),
        ),
{
}

} // verus!
