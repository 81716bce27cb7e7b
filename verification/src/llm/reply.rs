//! One streamed reply, step by step.
//!
//! [`ReplyTurn::step`] takes what came back from the network, the clause
//! receiver or the tools, and says what to do next. The conversation itself is
//! the [`LlmClient`]'s, which the step updates.

use vstd::prelude::*;

use crate::error::LlmError;
use crate::forward::{parse_forward_args, text_or_empty, FORWARD_TOOL_NAME};
use crate::json::quote_json;
use crate::llm::client::{
    last_user, last_user_text, truncated, ClientView, LlmClient, CLAUSE_MAX_LEN, CLAUSE_MIN_LEN,
};
use crate::llm::message::{
    calls, clone_calls, plain, tool_result, tools, CallView, ContentView, FunctionView,
    Message, MessageContent, MessageView, Tool, ToolCall, ToolCallFunction, ToolView,
};
use crate::llm::splitter::{
    clauses_of, law_push_keeps_the_letters, lemma_whole_add, pieces, remainder, whole, ClauseSplitter,
};
use crate::llm::sse::{
    line_delta, line_end, lemma_line_end, parse_sse_delta, DeltaView, SseDelta, SseLineBuffer,
    SSE_MAX_LINE_BYTES,
};
use crate::text::{lemma_letters_add, letters, str_eq, strs, take_chars};

verus! {

// ---------------------------------------------------------------------------
// Tool-call fragments
// ---------------------------------------------------------------------------

/// A call of which nothing is known yet.
pub open spec fn blank_call() -> CallView {
    CallView { index: None, id: None, call_type: None, function: None }
}

/// `new` where it is there, `old` otherwise.
pub open spec fn newer<T>(old: Option<T>, new: Option<T>) -> Option<T> {
    match new {
        Some(_) => new,
        None => old,
    }
}

/// A function completed by a fragment: a name replaces the one before,
/// arguments are appended.
pub open spec fn merged_function(entry: Option<FunctionView>, f: FunctionView) -> FunctionView {
    let base = match entry {
        Some(e) => e,
        None => FunctionView { name: None, arguments: None },
    };
    FunctionView {
        name: newer(base.name, f.name),
        arguments: match f.arguments {
            Some(more) => Some(
                (match base.arguments {
                    Some(a) => a,
                    None => Seq::empty(),
                }) + more,
            ),
            None => base.arguments,
        },
    }
}

/// A call completed by a fragment.
pub open spec fn merged_call(entry: CallView, tc: CallView) -> CallView {
    CallView {
        index: newer(entry.index, tc.index),
        id: newer(entry.id, tc.id),
        call_type: newer(entry.call_type, tc.call_type),
        function: match tc.function {
            Some(f) => Some(merged_function(entry.function, f)),
            None => entry.function,
        },
    }
}

/// The slot of a fragment: its index, the first slot where it has none.
pub open spec fn slot_of(tc: CallView) -> u64 {
    match tc.index {
        Some(i) => i,
        None => 0,
    }
}

/// The calls of a round, by slot, after one more fragment.
pub open spec fn with_fragment(list: Seq<(u64, CallView)>, tc: CallView) -> Seq<(u64, CallView)>
    decreases list.len(),
{
    let slot = slot_of(tc);
    if list.len() == 0 || slot < list[0].0 {
        seq![(slot, merged_call(blank_call(), tc))] + list
    } else if slot == list[0].0 {
        seq![(slot, merged_call(list[0].1, tc))] + list.subrange(1, list.len() as int)
    } else {
        seq![list[0]] + with_fragment(list.subrange(1, list.len() as int), tc)
    }
}

/// Whether the slots of a list ascend, so that none occurs twice.
pub open spec fn slots_ascend(list: Seq<(u64, CallView)>) -> bool {
    forall|i: int, j: int| 0 <= i < j < list.len() ==> (#[trigger] list[i]).0 < (#[trigger] list[j]).0
}

/// What a fragment does to the list, given the first place whose slot is not
/// smaller.
proof fn lemma_with_fragment(list: Seq<(u64, CallView)>, tc: CallView, p: int)
    requires
        0 <= p <= list.len(),
        forall|i: int| 0 <= i < p ==> (#[trigger] list[i]).0 < slot_of(tc),
        p < list.len() ==> list[p].0 >= slot_of(tc),
    ensures
        with_fragment(list, tc) == if p < list.len() && list[p].0 == slot_of(tc) {
            list.update(p, (slot_of(tc), merged_call(list[p].1, tc)))
        } else {
            list.insert(p, (slot_of(tc), merged_call(blank_call(), tc)))
        },
    decreases list.len(),
{
    let slot = slot_of(tc);
    if list.len() == 0 || slot < list[0].0 {
        assert(p == 0);
        assert(with_fragment(list, tc) =~= list.insert(0, (slot, merged_call(blank_call(), tc))));
    } else if slot == list[0].0 {
        assert(p == 0);
        assert(with_fragment(list, tc) =~= list.update(0, (slot, merged_call(list[0].1, tc))));
    } else {
        let rest = list.subrange(1, list.len() as int);
        assert(p > 0);
        assert forall|i: int| 0 <= i < p - 1 implies (#[trigger] rest[i]).0 < slot by {
            assert(rest[i] == list[i + 1]);
        }
        lemma_with_fragment(rest, tc, p - 1);
        if p < list.len() && list[p].0 == slot {
            assert(with_fragment(list, tc) =~= list.update(p, (slot, merged_call(list[p].1, tc))));
        } else {
            assert(with_fragment(list, tc) =~= list.insert(
                p,
                (slot, merged_call(blank_call(), tc)),
            ));
        }
    }
}

/// However fragments arrive, the calls of a round stay ordered by slot, and no
/// slot holds two.
pub proof fn law_calls_stay_ordered(list: Seq<(u64, CallView)>, tc: CallView)
    requires
        slots_ascend(list),
    ensures
        slots_ascend(with_fragment(list, tc)),
    decreases list.len(),
{
    let slot = slot_of(tc);
    if list.len() > 0 && slot > list[0].0 {
        let rest = list.subrange(1, list.len() as int);
        assert forall|i: int, j: int| 0 <= i < j < rest.len() implies (#[trigger] rest[i]).0 < (
        #[trigger] rest[j]).0 by {
            assert(rest[i] == list[i + 1] && rest[j] == list[j + 1]);
        }
        law_calls_stay_ordered(rest, tc);
        lemma_fragment_slots(rest, tc);
        let out = with_fragment(list, tc);
        let tail = with_fragment(rest, tc);
        assert forall|i: int, j: int| 0 <= i < j < out.len() implies (#[trigger] out[i]).0 < (
        #[trigger] out[j]).0 by {
            assert(out[j] == tail[j - 1]);
            if i > 0 {
                assert(out[i] == tail[i - 1]);
            } else {
                let s = tail[j - 1].0;
                if s != slot {
                    let k = choose|k: int| 0 <= k < rest.len() && (#[trigger] rest[k]).0 == s;
                    assert(rest[k] == list[k + 1]);
                }
            }
        }
    }
}

/// Every slot of the new list is the fragment's or one of the old.
proof fn lemma_fragment_slots(list: Seq<(u64, CallView)>, tc: CallView)
    ensures
        forall|i: int|
            0 <= i < with_fragment(list, tc).len() ==> (#[trigger] with_fragment(list, tc)[i]).0
                == slot_of(tc) || exists|k: int|
                0 <= k < list.len() && (#[trigger] list[k]).0 == with_fragment(list, tc)[i].0,
    decreases list.len(),
{
    let slot = slot_of(tc);
    let out = with_fragment(list, tc);
    if list.len() == 0 || slot < list[0].0 {
        assert forall|i: int| 0 <= i < out.len() implies (#[trigger] out[i]).0 == slot || exists|
            k: int,
        |
            0 <= k < list.len() && (#[trigger] list[k]).0 == out[i].0 by {
            if i > 0 {
                assert(list[i - 1].0 == out[i].0);
            }
        }
    } else if slot == list[0].0 {
        assert forall|i: int| 0 <= i < out.len() implies (#[trigger] out[i]).0 == slot || exists|
            k: int,
        |
            0 <= k < list.len() && (#[trigger] list[k]).0 == out[i].0 by {
            if i > 0 {
                assert(list[i].0 == out[i].0);
            }
        }
    } else {
        let rest = list.subrange(1, list.len() as int);
        lemma_fragment_slots(rest, tc);
        let tail = with_fragment(rest, tc);
        assert forall|i: int| 0 <= i < out.len() implies (#[trigger] out[i]).0 == slot || exists|
            k: int,
        |
            0 <= k < list.len() && (#[trigger] list[k]).0 == out[i].0 by {
            if i == 0 {
                assert(list[0].0 == out[0].0);
            } else {
                assert(out[i] == tail[i - 1]);
                if tail[i - 1].0 != slot {
                    let k = choose|k: int|
                        0 <= k < rest.len() && (#[trigger] rest[k]).0 == tail[i - 1].0;
                    assert(list[k + 1].0 == out[i].0);
                }
            }
        }
    }
}

/// The slots and views of a list of calls.
pub open spec fn slots(v: Seq<(u64, ToolCall)>) -> Seq<(u64, CallView)> {
    v.map_values(|c: (u64, ToolCall)| (c.0, c.1@))
}

/// Completes a call by a fragment.
fn merge_into(entry: ToolCall, tc: ToolCall) -> (r: ToolCall)
    ensures
        r@ == merged_call(entry@, tc@),
{
    let ToolCall { index, id, call_type, function } = entry;
    let function = match tc.function {
        Some(f) => {
            let (name, arguments) = match function {
                Some(e) => (e.name, e.arguments),
                None => (None, None),
            };
            let arguments = match f.arguments {
                Some(more) => {
                    let base = match arguments {
                        Some(a) => a,
                        None => String::new(),
                    };
                    Some(base.concat(more.as_str()))
                },
                None => arguments,
            };
            let name = match f.name {
                Some(n) => Some(n),
                None => name,
            };
            Some(ToolCallFunction { name, arguments })
        },
        None => function,
    };
    ToolCall {
        index: match tc.index {
            Some(i) => Some(i),
            None => index,
        },
        id: match tc.id {
            Some(i) => Some(i),
            None => id,
        },
        call_type: match tc.call_type {
            Some(t) => Some(t),
            None => call_type,
        },
        function,
    }
}

/// Adds a fragment to the calls of a round.
pub fn add_fragment(list: &mut Vec<(u64, ToolCall)>, tc: ToolCall)
    ensures
        slots(final(list)@) == with_fragment(slots(old(list)@), tc@),
{
    let slot: u64 = match tc.index {
        Some(i) => i,
        None => 0,
    };
    let ghost before = slots(list@);
    let ghost fragment = tc@;
    let mut p: usize = 0;
    while p < list.len() && list[p].0 < slot
        invariant
            p <= list@.len(),
            before == slots(list@),
            forall|i: int| 0 <= i < p ==> (#[trigger] before[i]).0 < slot,
        decreases list@.len() - p,
    {
        assert(before[p as int].0 == list@[p as int].0);
        p += 1;
    }
    proof {
        if p < list@.len() {
            assert(before[p as int].0 == list@[p as int].0);
        }
        lemma_with_fragment(before, fragment, p as int);
    }
    if p < list.len() && list[p].0 == slot {
        let (_, entry) = list.remove(p);
        let whole = merge_into(entry, tc);
        list.insert(p, (slot, whole));
        assert(slots(list@) =~= before.update(p as int, (slot, whole@)));
    } else {
        let whole = merge_into(
            ToolCall { index: None, id: None, call_type: None, function: None },
            tc,
        );
        list.insert(p, (slot, whole));
        assert(slots(list@) =~= before.insert(p as int, (slot, whole@)));
    }
}

// ---------------------------------------------------------------------------
// One round of streaming
// ---------------------------------------------------------------------------

/// The view of a [`ReplyRound`].
#[verifier::ext_equal]
pub struct RoundView {
    /// Bytes that make no line yet.
    pub bytes: Seq<u8>,
    /// Whether the server closed the stream.
    pub eof: bool,
    /// Whether the end sentinel has come.
    pub done: bool,
    /// Text that makes no clause yet.
    pub pending: Seq<char>,
    /// The text of this round.
    pub reply: Seq<char>,
    /// The tool calls of this round, by slot.
    pub calls: Seq<(u64, CallView)>,
}

/// A round before its first byte.
pub open spec fn fresh_round() -> RoundView {
    RoundView {
        bytes: Seq::empty(),
        eof: false,
        done: false,
        pending: Seq::empty(),
        reply: Seq::empty(),
        calls: Seq::empty(),
    }
}

/// A round after the line `line`, and the clauses that the line completed.
/// Malformed lines are skipped.
pub open spec fn after_line(s: RoundView, line: Seq<char>) -> (RoundView, Seq<Seq<char>>) {
    match line_delta(line) {
        Some(Ok(DeltaView::Done)) => (RoundView { done: true, ..s }, Seq::empty()),
        Some(Ok(DeltaView::Text(token))) => {
            let text = s.pending + token;
            (
                RoundView {
                    pending: remainder(text, CLAUSE_MIN_LEN as nat, CLAUSE_MAX_LEN as nat),
                    reply: s.reply + token,
                    ..s
                },
                clauses_of(pieces(text, CLAUSE_MIN_LEN as nat, CLAUSE_MAX_LEN as nat)),
            )
        },
        Some(Ok(DeltaView::ToolCall(tc))) => (
            RoundView { calls: with_fragment(s.calls, tc), ..s },
            Seq::empty(),
        ),
        _ => (s, Seq::empty()),
    }
}

/// The next line of a round, and what stays in the buffer: a complete line, or
/// all there is once the stream is closed.
pub open spec fn next_of(s: RoundView) -> Option<(Seq<char>, Seq<u8>)> {
    match line_end(s.bytes, 0) {
        Some(end) => Some(
            (crate::text::utf8_lossy(s.bytes.take(end as int)), s.bytes.skip(end as int)),
        ),
        None => if s.eof && s.bytes.len() > 0 {
            Some((crate::text::utf8_lossy(s.bytes), Seq::empty()))
        } else {
            None
        },
    }
}

/// A round once every line in its buffer is read, up to the end sentinel, with
/// the clauses that were completed.
pub open spec fn drained(s: RoundView) -> (RoundView, Seq<Seq<char>>)
    decreases s.bytes.len(),
    via drained_decreases
{
    if s.done {
        (s, Seq::empty())
    } else {
        match next_of(s) {
            None => (s, Seq::empty()),
            Some((line, rest)) => {
                let (next, first) = after_line(RoundView { bytes: rest, ..s }, line);
                let (last, more) = drained(next);
                (last, first + more)
            },
        }
    }
}

#[via_fn]
proof fn drained_decreases(s: RoundView) {
    lemma_line_end(s.bytes, 0);
}

/// One request of a turn while its answer streams in.
pub struct ReplyRound {
    lines: SseLineBuffer,
    splitter: ClauseSplitter,
    reply: String,
    calls: Vec<(u64, ToolCall)>,
    done: bool,
}

impl View for ReplyRound {
    type V = RoundView;

    closed spec fn view(&self) -> RoundView {
        RoundView {
            bytes: self.lines.bytes(),
            eof: self.lines.closed(),
            done: self.done,
            pending: self.splitter.pending(),
            reply: self.reply@,
            calls: slots(self.calls@),
        }
    }
}

impl ReplyRound {
    /// The splitter cuts clauses of the usual length.
    pub closed spec fn wf(&self) -> bool {
        self.splitter.min() == CLAUSE_MIN_LEN && self.splitter.max() == CLAUSE_MAX_LEN
    }

    /// A round before its first byte.
    pub fn new() -> (r: Self)
        ensures
            r.wf(),
            r@ == fresh_round(),
    {
        let r = ReplyRound {
            lines: SseLineBuffer::default(),
            splitter: ClauseSplitter::new(CLAUSE_MIN_LEN, CLAUSE_MAX_LEN),
            reply: String::new(),
            calls: Vec::new(),
            done: false,
        };
        assert(r@.calls =~= Seq::empty());
        r
    }

    /// Whether the end sentinel has come.
    pub fn is_done(&self) -> (r: bool)
        ensures
            r == self@.done,
    {
        self.done
    }

    /// Whether the server closed the stream.
    pub fn is_closed(&self) -> (r: bool)
        ensures
            r == self@.eof,
    {
        self.lines.is_closed()
    }

    /// The text of this round.
    pub fn reply_text(&self) -> (r: String)
        ensures
            r@ == self@.reply,
    {
        self.reply.clone()
    }

    /// Appends a chunk of the stream; `false` where the buffered data would
    /// exceed the cap, and then nothing changes.
    pub fn feed(&mut self, chunk: &[u8]) -> (r: bool)
        requires
            old(self).wf(),
        ensures
            final(self).wf(),
            r == (old(self)@.bytes.len() + chunk@.len() <= SSE_MAX_LINE_BYTES),
            final(self)@ == if r {
                RoundView { bytes: old(self)@.bytes + chunk@, ..old(self)@ }
            } else {
                old(self)@
            },
    {
        self.lines.feed(chunk)
    }

    /// Marks the end of the stream.
    pub fn close(&mut self)
        requires
            old(self).wf(),
        ensures
            final(self).wf(),
            final(self)@ == (RoundView { eof: true, ..old(self)@ }),
    {
        self.lines.close();
    }

    /// Reads every line in the buffer, up to the end sentinel; the text goes
    /// to `total` too. Returns the clauses that were completed.
    #[verifier::rlimit(40)]
    pub fn drain(&mut self, total: &mut String) -> (out: Vec<String>)
        requires
            old(self).wf(),
        ensures
            final(self).wf(),
            final(self)@ == drained(old(self)@).0,
            strs(out@) == drained(old(self)@).1,
            final(total)@ == old(total)@ + new_text(old(self)@),
    {
        let ghost start = self@;
        let ghost said = total@;
        let mut out: Vec<String> = Vec::new();
        assert(strs(out@) + drained(start).1 =~= drained(start).1);
        assert(said + new_text(start) =~= total@ + new_text(start));
        loop
            invariant
                self.wf(),
                drained(self@).0 == drained(start).0,
                strs(out@) + drained(self@).1 == drained(start).1,
                total@ + new_text(self@) == said + new_text(start),
            ensures
                self@.done || next_of(self@) is None,
            decreases self@.bytes.len(),
        {
            if self.done {
                break;
            }
            let ghost before = self@;
            proof {
                lemma_line_end(before.bytes, 0);
            }
            let line = match self.lines.next_line() {
                Some(line) => line,
                None => break,
            };
            let ghost cut = self@;
            assert(cut =~= RoundView { bytes: next_of(before).unwrap().1, ..before });
            let ghost taken = out@;
            let ghost had = total@;
            match parse_sse_delta(line.as_str()) {
                Some(Ok(SseDelta::Done)) => {
                    self.done = true;
                },
                Some(Ok(SseDelta::Text(token))) => {
                    total.append(token.as_str());
                    self.reply.append(token.as_str());
                    let mut more = self.splitter.push(token.as_str());
                    let ghost fresh = more@;
                    out.append(&mut more);
                    assert(strs(out@) =~= strs(taken) + strs(fresh));
                },
                Some(Ok(SseDelta::ToolCall(tc))) => {
                    add_fragment(&mut self.calls, tc);
                },
                Some(Err(_)) => {},
                None => {},
            }
            proof {
                let step = after_line(cut, line@);
                assert(self@ =~= step.0);
                assert(strs(out@) =~= strs(taken) + step.1);
                assert(drained(before).0 == drained(self@).0);
                assert(drained(before).1 =~= step.1 + drained(self@).1);
                assert(strs(out@) + drained(self@).1 =~= strs(taken) + drained(before).1);
                assert(new_text(before) =~= token_of(line@) + new_text(self@));
                assert(total@ =~= had + token_of(line@));
                assert(total@ + new_text(self@) =~= had + new_text(before));
            }
        }
        assert(strs(out@) + drained(self@).1 =~= strs(out@));
        assert(total@ + new_text(self@) =~= total@);
        out
    }

    /// Takes what is left of the text at the end of the round: `None` where
    /// nothing speakable is.
    pub fn flush(&mut self) -> (r: Option<String>)
        requires
            old(self).wf(),
        ensures
            final(self).wf(),
            final(self)@ == (RoundView { pending: Seq::empty(), ..old(self)@ }),
            match r {
                Some(rest) => rest@ == old(self)@.pending && crate::text::trimmed(
                    old(self)@.pending,
                ).len() > 0,
                None => crate::text::trimmed(old(self)@.pending).len() == 0,
            },
    {
        self.splitter.flush()
    }

    /// The calls of the round, in slot order.
    pub fn take_calls(&self) -> (r: Vec<ToolCall>)
        ensures
            calls(r@) == ordered_calls(self@),
    {
        let ghost all = ordered_calls(self@);
        let mut out: Vec<ToolCall> = Vec::new();
        let mut i: usize = 0;
        while i < self.calls.len()
            invariant
                i <= self.calls@.len() == all.len(),
                all == ordered_calls(self@),
                calls(out@) =~= all.take(i as int),
            decreases self.calls@.len() - i,
        {
            let ghost before = out@;
            let c = self.calls[i].1.clone();
            assert(c@ == all[i as int]);
            out.push(c);
            assert(calls(out@) =~= calls(before).push(c@));
            i += 1;
        }
        assert(all.take(all.len() as int) =~= all);
        out
    }
}

/// The calls of a round, in slot order.
pub open spec fn ordered_calls(s: RoundView) -> Seq<CallView> {
    s.calls.map_values(|c: (u64, CallView)| c.1)
}

/// The text that a line adds to the reply.
pub open spec fn token_of(line: Seq<char>) -> Seq<char> {
    match line_delta(line) {
        Some(Ok(DeltaView::Text(token))) => token,
        _ => Seq::empty(),
    }
}

/// The text that the lines in the buffer add to the reply.
pub open spec fn new_text(s: RoundView) -> Seq<char>
    decreases s.bytes.len(),
    via new_text_decreases
{
    if s.done {
        Seq::empty()
    } else {
        match next_of(s) {
            None => Seq::empty(),
            Some((line, rest)) => token_of(line) + new_text(
                after_line(RoundView { bytes: rest, ..s }, line).0,
            ),
        }
    }
}

#[via_fn]
proof fn new_text_decreases(s: RoundView) {
    lemma_line_end(s.bytes, 0);
}

// ---------------------------------------------------------------------------
// Tool runs
// ---------------------------------------------------------------------------

/// One tool call to run.
#[derive(Debug)]
pub struct ToolRun {
    /// The tool.
    pub name: String,
    /// Its JSON arguments.
    pub arguments: String,
    /// The call that the result answers.
    pub call_id: String,
}

/// One conversation to forward.
#[derive(Debug)]
pub struct ForwardRun {
    /// The call that the answer answers.
    pub call_id: String,
    /// Why the conversation is forwarded.
    pub reason: String,
    /// What to ask the service.
    pub summary: String,
    /// The current user query.
    pub query: String,
}

/// The view of a [`ToolRun`].
#[verifier::ext_equal]
pub struct RunView {
    /// The tool.
    pub name: Seq<char>,
    /// Its JSON arguments.
    pub arguments: Seq<char>,
    /// The call that the result answers.
    pub call_id: Seq<char>,
}

/// The view of a [`ForwardRun`].
#[verifier::ext_equal]
pub struct ForwardView {
    /// The call that the answer answers.
    pub call_id: Seq<char>,
    /// Why the conversation is forwarded.
    pub reason: Seq<char>,
    /// What to ask the service.
    pub summary: Seq<char>,
    /// The current user query.
    pub query: Seq<char>,
}

impl View for ToolRun {
    type V = RunView;

    open spec fn view(&self) -> RunView {
        RunView { name: self.name@, arguments: self.arguments@, call_id: self.call_id@ }
    }
}

impl View for ForwardRun {
    type V = ForwardView;

    open spec fn view(&self) -> ForwardView {
        ForwardView {
            call_id: self.call_id@,
            reason: self.reason@,
            summary: self.summary@,
            query: self.query@,
        }
    }
}

/// The views of a list of runs.
pub open spec fn runs(v: Seq<ToolRun>) -> Seq<RunView> {
    v.map_values(|r: ToolRun| r@)
}

/// The views of a list of forwards.
pub open spec fn forwards(v: Seq<ForwardRun>) -> Seq<ForwardView> {
    v.map_values(|r: ForwardRun| r@)
}

/// Whether a tool of that name was offered to the model.
pub open spec fn is_offered(list: Seq<ToolView>, name: Seq<char>) -> bool {
    exists|i: int| 0 <= i < list.len() && (#[trigger] list[i]).name == name
}

/// The calls that run as tools: those of an offered tool other than
/// `forward_call`.
pub open spec fn tool_runs(list: Seq<ToolView>, cs: Seq<CallView>) -> Seq<RunView>
    decreases cs.len(),
{
    if cs.len() == 0 {
        Seq::empty()
    } else {
        let rest = tool_runs(list, cs.drop_last());
        let c = cs.last();
        let name = c.name_or(Seq::empty());
        if name != FORWARD_TOOL_NAME@ && is_offered(list, name) {
            rest.push(RunView { name, arguments: c.args(), call_id: c.call_id() })
        } else {
            rest
        }
    }
}

/// The calls that are forwarded: those of `forward_call`, where it was
/// offered.
pub open spec fn forward_runs(list: Seq<ToolView>, query: Seq<char>, cs: Seq<CallView>) -> Seq<
    ForwardView,
>
    decreases cs.len(),
{
    if cs.len() == 0 {
        Seq::empty()
    } else {
        let rest = forward_runs(list, query, cs.drop_last());
        let c = cs.last();
        let name = c.name_or(Seq::empty());
        if name == FORWARD_TOOL_NAME@ && is_offered(list, name) {
            rest.push(
                ForwardView {
                    call_id: c.call_id(),
                    reason: text_or_empty(crate::json::parsed(c.args()), "reason"@),
                    summary: text_or_empty(crate::json::parsed(c.args()), "summary"@),
                    query,
                },
            )
        } else {
            rest
        }
    }
}

/// The marker that stands for a tool call in the clause stream.
pub open spec fn marker(c: CallView) -> Seq<char> {
    "\0TOOL:"@ + c.name_or("?"@) + ":"@ + c.args()
}

/// The view of a tool's outcome.
pub open spec fn outcome(r: Result<String, String>) -> Result<Seq<char>, Seq<char>> {
    match r {
        Ok(s) => Ok(s@),
        Err(e) => Err(e@),
    }
}

/// The views of a list of outcomes, each with the call it answers.
pub open spec fn outcomes(v: Seq<(String, Result<String, String>)>) -> Seq<
    (Seq<char>, Result<Seq<char>, Seq<char>>),
> {
    v.map_values(|r: (String, Result<String, String>)| (r.0@, outcome(r.1)))
}

/// The last outcome for `call_id`.
pub open spec fn outcome_for(
    results: Seq<(Seq<char>, Result<Seq<char>, Seq<char>>)>,
    call_id: Seq<char>,
) -> Option<Result<Seq<char>, Seq<char>>>
    decreases results.len(),
{
    if results.len() == 0 {
        None
    } else if results.last().0 == call_id {
        Some(results.last().1)
    } else {
        outcome_for(results.drop_last(), call_id)
    }
}

/// What the model is told of a call: the tool's output, its error as a JSON
/// object, or that there is no result.
pub open spec fn answer(
    executes: bool,
    results: Seq<(Seq<char>, Result<Seq<char>, Seq<char>>)>,
    c: CallView,
) -> MessageView {
    let text = if !executes {
        "{\"error\":\"tool execution not configured; respond with text\"}"@
    } else {
        match outcome_for(results, c.call_id()) {
            Some(Ok(out)) => out,
            Some(Err(e)) => "{\"error\":"@ + crate::json::json_quote(e) + "}"@,
            None => "{\"error\":\"tool execution result missing\"}"@,
        }
    };
    tool_result(c.call_id(), text)
}

/// The answers to a list of calls, in call order.
pub open spec fn answers(
    executes: bool,
    results: Seq<(Seq<char>, Result<Seq<char>, Seq<char>>)>,
    cs: Seq<CallView>,
) -> Seq<MessageView> {
    cs.map_values(|c: CallView| answer(executes, results, c))
}

/// Whether a tool of that name was offered to the model.
pub fn offers(list: &Vec<Tool>, name: &str) -> (r: bool)
    ensures
        r == is_offered(tools(list@), name@),
{
    let ghost all = tools(list@);
    let mut i: usize = 0;
    while i < list.len()
        invariant
            i <= list@.len(),
            all == tools(list@),
            forall|k: int| 0 <= k < i ==> (#[trigger] all[k]).name != name@,
        decreases list@.len() - i,
    {
        assert(all[i as int].name == list@[i as int].function.name@);
        if str_eq(list[i].function.name.as_str(), name) {
            return true;
        }
        i += 1;
    }
    false
}

/// The calls that run as tools.
pub fn plan_tools(list: &Vec<Tool>, cs: &Vec<ToolCall>) -> (r: Vec<ToolRun>)
    ensures
        runs(r@) == tool_runs(tools(list@), calls(cs@)),
{
    proof {
        reveal_strlit("");
        assert(""@ =~= Seq::<char>::empty());
    }
    let ghost all = calls(cs@);
    let mut out: Vec<ToolRun> = Vec::new();
    assert(runs(out@) =~= tool_runs(tools(list@), all.take(0)));
    let mut i: usize = 0;
    while i < cs.len()
        invariant
            ""@ == Seq::<char>::empty(),
            i <= cs@.len(),
            all == calls(cs@),
            runs(out@) == tool_runs(tools(list@), all.take(i as int)),
        decreases cs@.len() - i,
    {
        let ghost before = out@;
        let c = &cs[i];
        assert(all.take(i + 1).drop_last() =~= all.take(i as int));
        assert(all.take(i + 1).last() == c@);
        let name = c.name_or("");
        if !str_eq(name.as_str(), FORWARD_TOOL_NAME) && offers(list, name.as_str()) {
            let run = ToolRun { name, arguments: c.args(), call_id: c.call_id() };
            out.push(run);
            assert(runs(out@) =~= runs(before).push(run@));
        }
        i += 1;
    }
    assert(all.take(all.len() as int) =~= all);
    out
}

/// The calls that are forwarded.
pub fn plan_forwards(list: &Vec<Tool>, query: &str, cs: &Vec<ToolCall>) -> (r: Vec<ForwardRun>)
    ensures
        forwards(r@) == forward_runs(tools(list@), query@, calls(cs@)),
{
    proof {
        reveal_strlit("");
        assert(""@ =~= Seq::<char>::empty());
    }
    let ghost all = calls(cs@);
    let mut out: Vec<ForwardRun> = Vec::new();
    assert(forwards(out@) =~= forward_runs(tools(list@), query@, all.take(0)));
    let mut i: usize = 0;
    while i < cs.len()
        invariant
            ""@ == Seq::<char>::empty(),
            i <= cs@.len(),
            all == calls(cs@),
            forwards(out@) == forward_runs(tools(list@), query@, all.take(i as int)),
        decreases cs@.len() - i,
    {
        let ghost before = out@;
        let c = &cs[i];
        assert(all.take(i + 1).drop_last() =~= all.take(i as int));
        assert(all.take(i + 1).last() == c@);
        let name = c.name_or("");
        if str_eq(name.as_str(), FORWARD_TOOL_NAME) && offers(list, name.as_str()) {
            let (reason, summary) = parse_forward_args(c.args().as_str());
            let run = ForwardRun {
                call_id: c.call_id(),
                reason,
                summary,
                query: query.to_owned(),
            };
            out.push(run);
            assert(forwards(out@) =~= forwards(before).push(run@));
        }
        i += 1;
    }
    assert(all.take(all.len() as int) =~= all);
    out
}

/// The markers of a list of calls.
pub fn markers_of(cs: &Vec<ToolCall>) -> (r: Vec<String>)
    ensures
        strs(r@) == calls(cs@).map_values(|c: CallView| marker(c)),
{
    let ghost all = calls(cs@).map_values(|c: CallView| marker(c));
    let mut out: Vec<String> = Vec::new();
    let mut i: usize = 0;
    while i < cs.len()
        invariant
            i <= cs@.len() == all.len(),
            all == calls(cs@).map_values(|c: CallView| marker(c)),
            strs(out@) =~= all.take(i as int),
        decreases cs@.len() - i,
    {
        let ghost before = out@;
        let c = &cs[i];
        let m = "\0TOOL:".to_owned().concat(c.name_or("?").as_str()).concat(":").concat(
            c.args().as_str(),
        );
        assert(m@ == all[i as int]);
        out.push(m);
        assert(strs(out@) =~= strs(before).push(m@));
        i += 1;
    }
    assert(all.take(all.len() as int) =~= all);
    out
}

/// The answer to one call.
pub fn answer_call(
    executes: bool,
    results: &Vec<(String, Result<String, String>)>,
    c: &ToolCall,
) -> (r: Message)
    ensures
        r@ == answer(executes, outcomes(results@), c@),
{
    let call_id = c.call_id();
    if !executes {
        return Message::tool_result(
            call_id,
            "{\"error\":\"tool execution not configured; respond with text\"}".to_owned(),
        );
    }
    let ghost all = outcomes(results@);
    let mut i: usize = results.len();
    assert(all.take(all.len() as int) =~= all);
    while i > 0
        invariant
            i <= results@.len(),
            executes,
            all == outcomes(results@),
            call_id@ == c@.call_id(),
            outcome_for(all, call_id@) == outcome_for(all.take(i as int), call_id@),
        decreases i,
    {
        assert(all.take(i as int).last() == all[i - 1]);
        assert(all.take(i as int).drop_last() =~= all.take(i - 1));
        if str_eq(results[i - 1].0.as_str(), call_id.as_str()) {
            let text = match &results[i - 1].1 {
                Ok(out) => out.clone(),
                Err(e) => "{\"error\":".to_owned().concat(quote_json(e.as_str()).as_str()).concat("}"),
            };
            return Message::tool_result(call_id, text);
        }
        i -= 1;
    }
    Message::tool_result(call_id, "{\"error\":\"tool execution result missing\"}".to_owned())
}

// ---------------------------------------------------------------------------
// The turn
// ---------------------------------------------------------------------------

/// What a turn waits for.
#[derive(Debug, Clone, Copy, PartialEq, Eq, Structural)]
pub enum ReplyPhase {
    /// The answer to a request.
    Posting,
    /// The next chunk of the stream.
    Reading,
    /// That the clauses of a chunk are sent.
    Sending,
    /// That the last clause of a round is sent.
    Flushing,
    /// That the tools have run.
    Tools,
    /// Nothing: the turn is over.
    Over,
}

/// What came back.
pub enum ReplyEvent {
    /// The turn was cancelled (barge-in or shutdown).
    Cancelled,
    /// The request failed on the way.
    PostFailed(String),
    /// The server answered with a status that reports no success.
    Refused(u16, String),
    /// The server answered; the stream begins.
    Opened,
    /// A chunk of the stream.
    Chunk(Vec<u8>),
    /// Reading the stream failed.
    ReadFailed(String),
    /// The server closed the stream.
    Closed,
    /// The clauses were sent; `false` when the receiver is gone.
    Sent(bool),
    /// The tools ran: each outcome with the call it answers.
    ToolsRan(Vec<(String, Result<String, String>)>),
}

/// What to do next.
pub enum ReplyAction {
    /// Post the conversation, with the tool definitions or without.
    Post {
        /// Whether the tool definitions are sent along.
        send_tools: bool,
    },
    /// Read the next chunk.
    Read,
    /// Send these clauses.
    Send(Vec<String>),
    /// Send the markers, then forward and run these calls.
    RunTools {
        /// Markers for the clause stream.
        markers: Vec<String>,
        /// Conversations to forward, one after the other.
        forwards: Vec<ForwardRun>,
        /// Tools to run, in parallel.
        tools: Vec<ToolRun>,
    },
    /// The turn has ended.
    Finished,
    /// The turn has failed.
    Failed(LlmError),
}

/// The view of a [`ReplyEvent`].
#[verifier::ext_equal]
pub enum EventView {
    /// The turn was cancelled.
    Cancelled,
    /// The request failed on the way.
    PostFailed(Seq<char>),
    /// The server answered with a status that reports no success.
    Refused(u16, Seq<char>),
    /// The stream begins.
    Opened,
    /// A chunk of the stream.
    Chunk(Seq<u8>),
    /// Reading the stream failed.
    ReadFailed(Seq<char>),
    /// The server closed the stream.
    Closed,
    /// The clauses were sent.
    Sent(bool),
    /// The tools ran.
    ToolsRan(Seq<(Seq<char>, Result<Seq<char>, Seq<char>>)>),
}

/// The view of an [`LlmError`].
#[verifier::ext_equal]
pub enum LlmErrorView {
    /// Transport-level failure.
    Http(Seq<char>),
    /// Framing failure.
    Sse(Seq<char>),
    /// Non-success status.
    Api(u16, Seq<char>),
    /// Cancelled.
    Cancelled,
}

/// The view of a [`ReplyAction`].
#[verifier::ext_equal]
pub enum ActionView {
    /// Post the conversation.
    Post(bool),
    /// Read the next chunk.
    Read,
    /// Send these clauses.
    Send(Seq<Seq<char>>),
    /// Send the markers, then forward and run these calls.
    RunTools(Seq<Seq<char>>, Seq<ForwardView>, Seq<RunView>),
    /// The turn has ended.
    Finished,
    /// The turn has failed.
    Failed(LlmErrorView),
}

impl View for ReplyEvent {
    type V = EventView;

    open spec fn view(&self) -> EventView {
        match *self {
            ReplyEvent::Cancelled => EventView::Cancelled,
            ReplyEvent::PostFailed(m) => EventView::PostFailed(m@),
            ReplyEvent::Refused(s, b) => EventView::Refused(s, b@),
            ReplyEvent::Opened => EventView::Opened,
            ReplyEvent::Chunk(b) => EventView::Chunk(b@),
            ReplyEvent::ReadFailed(m) => EventView::ReadFailed(m@),
            ReplyEvent::Closed => EventView::Closed,
            ReplyEvent::Sent(open) => EventView::Sent(open),
            ReplyEvent::ToolsRan(r) => EventView::ToolsRan(outcomes(r@)),
        }
    }
}

/// The view of an error.
pub open spec fn error_view(e: LlmError) -> LlmErrorView {
    match e {
        LlmError::Http(m) => LlmErrorView::Http(m@),
        LlmError::Sse(m) => LlmErrorView::Sse(m@),
        LlmError::Api { status, body } => LlmErrorView::Api(status, body@),
        LlmError::Cancelled => LlmErrorView::Cancelled,
    }
}

impl View for ReplyAction {
    type V = ActionView;

    open spec fn view(&self) -> ActionView {
        match *self {
            ReplyAction::Post { send_tools } => ActionView::Post(send_tools),
            ReplyAction::Read => ActionView::Read,
            ReplyAction::Send(c) => ActionView::Send(strs(c@)),
            ReplyAction::RunTools { markers, forwards: f, tools: t } => ActionView::RunTools(
                strs(markers@),
                forwards(f@),
                runs(t@),
            ),
            ReplyAction::Finished => ActionView::Finished,
            ReplyAction::Failed(e) => ActionView::Failed(error_view(e)),
        }
    }
}

/// The view of a [`ReplyTurn`].
#[verifier::ext_equal]
pub struct TurnView {
    /// How many tool round-trips lie behind.
    pub round: nat,
    /// What the turn waits for.
    pub phase: ReplyPhase,
    /// The round that streams in.
    pub current: RoundView,
    /// The text of all rounds.
    pub total: Seq<char>,
}

/// Whether a turn can meet the event in its phase.
pub open spec fn expects(phase: ReplyPhase, e: EventView) -> bool {
    match e {
        EventView::Cancelled => phase == ReplyPhase::Posting || phase == ReplyPhase::Reading || phase
            == ReplyPhase::Sending || phase == ReplyPhase::Flushing,
        EventView::PostFailed(_) => phase == ReplyPhase::Posting,
        EventView::Refused(_, _) => phase == ReplyPhase::Posting,
        EventView::Opened => phase == ReplyPhase::Posting,
        EventView::Chunk(_) => phase == ReplyPhase::Reading,
        EventView::ReadFailed(_) => phase == ReplyPhase::Reading,
        EventView::Closed => phase == ReplyPhase::Reading,
        EventView::Sent(_) => phase == ReplyPhase::Sending || phase == ReplyPhase::Flushing,
        EventView::ToolsRan(_) => phase == ReplyPhase::Tools,
    }
}

/// Whether a request of this round offers tools: the last round forces text by
/// offering none.
pub open spec fn offers_tools(c: ClientView, round: nat) -> bool {
    round < c.max_tool_rounds && c.tools.len() > 0
}

/// Whether the calls of a client's turns are run at all.
pub open spec fn executes(c: ClientView) -> bool {
    c.tool_executor || c.forward is Some
}

/// A conversation that ends in the assistant's `text`, cut to its bound.
pub open spec fn answered(c: ClientView, text: Seq<char>) -> ClientView {
    ClientView {
        history: truncated(c.history.push(plain("assistant"@, text)), c.max_history_turns),
        ..c
    }
}

/// The hold-music flag set to `on`, where there is one.
pub open spec fn hold(c: ClientView, on: bool) -> Option<bool> {
    if c.hold_music is Some {
        Some(on)
    } else {
        None
    }
}

/// A turn that ends here.
pub open spec fn over(t: TurnView) -> TurnView {
    TurnView { phase: ReplyPhase::Over, ..t }
}

/// The lines of a chunk read, and its clauses to be sent.
pub open spec fn read_lines(c: ClientView, t: TurnView, s: RoundView) -> (
    ClientView,
    TurnView,
    ActionView,
) {
    (
        c,
        TurnView {
            phase: ReplyPhase::Sending,
            current: drained(s).0,
            total: t.total + new_text(s),
            ..t
        },
        ActionView::Send(drained(s).1),
    )
}

/// The end of a round's stream: the turn is complete, or its tools run.
pub open spec fn close_round(c: ClientView, t: TurnView) -> (ClientView, TurnView, ActionView) {
    let cs = ordered_calls(t.current);
    if cs.len() == 0 {
        (answered(c, t.current.reply), over(t), ActionView::Finished)
    } else {
        let asked = MessageView {
            role: "assistant"@,
            content: ContentView::Text(Seq::empty()),
            tool_call_id: None,
            tool_calls: Some(cs),
        };
        let next = ClientView {
            history: c.history.push(asked),
            hold_music: hold(c, true),
            ..c
        };
        (
            next,
            TurnView { phase: ReplyPhase::Tools, ..t },
            ActionView::RunTools(
                cs.map_values(|k: CallView| marker(k)),
                if c.forward is Some {
                    forward_runs(c.tools, last_user(next.history), cs)
                } else {
                    Seq::empty()
                },
                if c.tool_executor {
                    tool_runs(c.tools, cs)
                } else {
                    Seq::empty()
                },
            ),
        )
    }
}

/// The answers of a round's tools recorded, and the next round, or the end
/// where the rounds are used up.
pub open spec fn record_tools(
    c: ClientView,
    t: TurnView,
    results: Seq<(Seq<char>, Result<Seq<char>, Seq<char>>)>,
) -> (ClientView, TurnView, ActionView) {
    let next = ClientView {
        history: c.history + answers(executes(c), results, ordered_calls(t.current)),
        hold_music: hold(c, false),
        ..c
    };
    if t.round >= c.max_tool_rounds {
        (answered(next, t.total), over(t), ActionView::Finished)
    } else {
        (
            next,
            TurnView { round: t.round + 1, phase: ReplyPhase::Posting, ..t },
            ActionView::Post(offers_tools(next, t.round + 1)),
        )
    }
}

/// What an event does to the conversation and the turn, and what to do next.
pub open spec fn reply_step(c: ClientView, t: TurnView, e: EventView) -> (
    ClientView,
    TurnView,
    ActionView,
) {
    match e {
        EventView::Cancelled => (
            ClientView { history: truncated(c.history, c.max_history_turns), ..c },
            over(t),
            ActionView::Failed(LlmErrorView::Cancelled),
        ),
        EventView::PostFailed(m) => (c, over(t), ActionView::Failed(LlmErrorView::Http(m))),
        EventView::Refused(status, body) => (
            c,
            over(t),
            ActionView::Failed(LlmErrorView::Api(status, crate::text::prefix(body, 1024))),
        ),
        EventView::Opened => (
            c,
            TurnView { phase: ReplyPhase::Reading, current: fresh_round(), ..t },
            ActionView::Read,
        ),
        EventView::Chunk(b) => if t.current.bytes.len() + b.len() <= SSE_MAX_LINE_BYTES {
            read_lines(c, t, RoundView { bytes: t.current.bytes + b, ..t.current })
        } else {
            (
                c,
                over(t),
                ActionView::Failed(LlmErrorView::Sse("SSE line exceeded maximum size"@)),
            )
        },
        EventView::ReadFailed(m) => (c, over(t), ActionView::Failed(LlmErrorView::Http(m))),
        EventView::Closed => read_lines(c, t, RoundView { eof: true, ..t.current }),
        EventView::Sent(open) => if !open {
            (c, over(t), ActionView::Finished)
        } else if t.phase == ReplyPhase::Flushing {
            close_round(c, t)
        } else if t.current.done || t.current.eof {
            (
                c,
                TurnView {
                    phase: ReplyPhase::Flushing,
                    current: RoundView { pending: Seq::empty(), ..t.current },
                    ..t
                },
                ActionView::Send(
                    if crate::text::trimmed(t.current.pending).len() > 0 {
                        seq![t.current.pending]
                    } else {
                        Seq::empty()
                    },
                ),
            )
        } else {
            (c, TurnView { phase: ReplyPhase::Reading, ..t }, ActionView::Read)
        },
        EventView::ToolsRan(results) => record_tools(c, t, results),
    }
}

/// One turn of the conversation while its reply streams in.
pub struct ReplyTurn {
    round: usize,
    phase: ReplyPhase,
    current: ReplyRound,
    total: String,
}

impl View for ReplyTurn {
    type V = TurnView;

    closed spec fn view(&self) -> TurnView {
        TurnView {
            round: self.round as nat,
            phase: self.phase,
            current: self.current@,
            total: self.total@,
        }
    }
}

impl ReplyTurn {
    /// The turn's round is well-formed.
    pub closed spec fn wf(&self) -> bool {
        self.current.wf()
    }

    /// A turn whose user message is recorded, and its first request.
    pub fn start(client: &LlmClient) -> (r: (Self, ReplyAction))
        ensures
            r.0.wf(),
            r.0@ == (TurnView {
                round: 0,
                phase: ReplyPhase::Posting,
                current: fresh_round(),
                total: Seq::empty(),
            }),
            r.1@ == ActionView::Post(offers_tools(client@, 0)),
    {
        let turn = ReplyTurn {
            round: 0,
            phase: ReplyPhase::Posting,
            current: ReplyRound::new(),
            total: String::new(),
        };
        let send_tools = 0 < client.max_tool_rounds() && client.tool_definitions().len() > 0;
        (turn, ReplyAction::Post { send_tools })
    }

    /// What the turn waits for.
    pub fn phase(&self) -> (r: ReplyPhase)
        ensures
            r == self@.phase,
    {
        self.phase
    }

    /// Takes an event; says what to do next.
    pub fn step(&mut self, client: &mut LlmClient, event: ReplyEvent) -> (r: ReplyAction)
        requires
            old(self).wf(),
            old(client).wf(),
            expects(old(self)@.phase, event@),
        ensures
            final(self).wf(),
            final(client).wf(),
            (final(client)@, final(self)@, r@) == reply_step(old(client)@, old(self)@, event@),
    {
        match event {
            ReplyEvent::Cancelled => {
                client.truncate_history();
                self.phase = ReplyPhase::Over;
                ReplyAction::Failed(LlmError::Cancelled)
            },
            ReplyEvent::PostFailed(m) => {
                self.phase = ReplyPhase::Over;
                ReplyAction::Failed(LlmError::Http(m))
            },
            ReplyEvent::Refused(status, body) => {
                self.phase = ReplyPhase::Over;
                ReplyAction::Failed(
                    LlmError::Api { status, body: take_chars(body.as_str(), 1024) },
                )
            },
            ReplyEvent::Opened => {
                self.current = ReplyRound::new();
                self.phase = ReplyPhase::Reading;
                ReplyAction::Read
            },
            ReplyEvent::Chunk(bytes) => {
                if !self.current.feed(bytes.as_slice()) {
                    self.phase = ReplyPhase::Over;
                    return ReplyAction::Failed(
                        LlmError::Sse("SSE line exceeded maximum size".to_owned()),
                    );
                }
                self.read_lines()
            },
            ReplyEvent::ReadFailed(m) => {
                self.phase = ReplyPhase::Over;
                ReplyAction::Failed(LlmError::Http(m))
            },
            ReplyEvent::Closed => {
                self.current.close();
                self.read_lines()
            },
            ReplyEvent::Sent(open) => {
                if !open {
                    self.phase = ReplyPhase::Over;
                    return ReplyAction::Finished;
                }
                if self.phase == ReplyPhase::Flushing {
                    return self.close_round(client);
                }
                if self.current.is_done() || self.current.is_closed() {
                    self.phase = ReplyPhase::Flushing;
                    let mut last: Vec<String> = Vec::new();
                    match self.current.flush() {
                        Some(rest) => {
                            last.push(rest);
                            assert(strs(last@) =~= seq![rest@]);
                        },
                        None => {
                            assert(strs(last@) =~= Seq::empty());
                        },
                    }
                    return ReplyAction::Send(last);
                }
                self.phase = ReplyPhase::Reading;
                ReplyAction::Read
            },
            ReplyEvent::ToolsRan(results) => self.record_tools(client, &results),
        }
    }

    fn read_lines(&mut self) -> (r: ReplyAction)
        requires
            old(self).wf(),
        ensures
            final(self).wf(),
            final(self)@ == (TurnView {
                phase: ReplyPhase::Sending,
                current: drained(old(self)@.current).0,
                total: old(self)@.total + new_text(old(self)@.current),
                ..old(self)@
            }),
            r@ == ActionView::Send(drained(old(self)@.current).1),
    {
        let out = self.current.drain(&mut self.total);
        self.phase = ReplyPhase::Sending;
        ReplyAction::Send(out)
    }

    fn close_round(&mut self, client: &mut LlmClient) -> (r: ReplyAction)
        requires
            old(self).wf(),
            old(client).wf(),
        ensures
            final(self).wf(),
            final(client).wf(),
            (final(client)@, final(self)@, r@) == close_round(old(client)@, old(self)@),
    {
        let cs = self.current.take_calls();
        if cs.len() == 0 {
            client.record(Message::plain("assistant", self.current.reply_text()));
            client.truncate_history();
            self.phase = ReplyPhase::Over;
            return ReplyAction::Finished;
        }
        client.set_hold_music(true);
        let asked = Message {
            role: "assistant".to_owned(),
            content: MessageContent::Text(String::new()),
            tool_call_id: None,
            tool_calls: Some(clone_calls(&cs)),
        };
        client.record(asked);
        let markers = markers_of(&cs);
        let forwards = if client.forward_tool().is_some() {
            let query = last_user_text(client.history());
            plan_forwards(client.tool_definitions(), query.as_str(), &cs)
        } else {
            Vec::new()
        };
        let tools = if client.has_tool_executor() {
            plan_tools(client.tool_definitions(), &cs)
        } else {
            Vec::new()
        };
        self.phase = ReplyPhase::Tools;
        let r = ReplyAction::RunTools { markers, forwards, tools };
        proof {
            let want = close_round(old(client)@, old(self)@);
            assert(want.2 is RunTools);
            assert(r@->RunTools_1 =~= want.2->RunTools_1);
            assert(r@->RunTools_2 =~= want.2->RunTools_2);
            assert(client@.history =~= want.0.history);
        }
        r
    }

    fn record_tools(
        &mut self,
        client: &mut LlmClient,
        results: &Vec<(String, Result<String, String>)>,
    ) -> (r: ReplyAction)
        requires
            old(self).wf(),
            old(client).wf(),
        ensures
            final(self).wf(),
            final(client).wf(),
            (final(client)@, final(self)@, r@) == record_tools(
                old(client)@,
                old(self)@,
                outcomes(results@),
            ),
    {
        let runs_tools = client.has_tool_executor() || client.forward_tool().is_some();
        let cs = self.current.take_calls();
        let ghost before = client@;
        let ghost all = answers(executes(before), outcomes(results@), calls(cs@));
        assert(before.history + all.take(0) =~= before.history);
        let mut i: usize = 0;
        while i < cs.len()
            invariant
                i <= cs@.len(),
                runs_tools == executes(before),
                all == answers(executes(before), outcomes(results@), calls(cs@)),
                client.wf(),
                client@ == (ClientView {
                    history: before.history + all.take(i as int),
                    ..before
                }),
            decreases cs@.len() - i,
        {
            let m = answer_call(runs_tools, results, &cs[i]);
            assert(m@ == all[i as int]);
            let ghost had = client@.history;
            client.record(m);
            assert(had.push(m@) =~= before.history + all.take(i + 1));
            i += 1;
        }
        assert(all.take(all.len() as int) =~= all);
        client.set_hold_music(false);
        if self.round >= client.max_tool_rounds() {
            client.record(Message::plain("assistant", self.total.clone()));
            client.truncate_history();
            self.phase = ReplyPhase::Over;
            return ReplyAction::Finished;
        }
        self.round += 1;
        self.phase = ReplyPhase::Posting;
        let send_tools = self.round < client.max_tool_rounds() && client.tool_definitions().len()
            > 0;
        ReplyAction::Post { send_tools }
    }
}

// ---------------------------------------------------------------------------
// What holds of every turn
// ---------------------------------------------------------------------------

/// A turn makes at most `max_tool_rounds` tool round-trips, and the request
/// after the last of them offers no tools.
pub proof fn law_rounds_are_bounded(c: ClientView, t: TurnView, e: EventView)
    requires
        t.round <= c.max_tool_rounds,
        expects(t.phase, e),
    ensures
        reply_step(c, t, e).1.round <= reply_step(c, t, e).0.max_tool_rounds,
        reply_step(c, t, e).2 matches ActionView::Post(send) ==> (send ==> reply_step(c, t, e).1.round
            < c.max_tool_rounds),
{
}

/// A cancelled turn leaves no trace of the partial reply: the conversation
/// gains no message, and is cut to its bound.
pub proof fn law_cancelling_drops_the_partial_reply(c: ClientView, t: TurnView)
    requires
        c.history.len() > 0,
    ensures
        reply_step(c, t, EventView::Cancelled).0.history == truncated(
            c.history,
            c.max_history_turns,
        ),
        reply_step(c, t, EventView::Cancelled).0.history.len() <= 1 + 2 * c.max_history_turns,
        reply_step(c, t, EventView::Cancelled).2 == ActionView::Failed(LlmErrorView::Cancelled),
        reply_step(c, t, EventView::Cancelled).1.phase == ReplyPhase::Over,
{
}

/// A reply that is heard to its end leaves a conversation that is within its
/// bound and keeps its first message; one whose listener has gone leaves the
/// conversation as it was.
pub proof fn law_finished_turns_stay_within_the_bound(c: ClientView, t: TurnView, e: EventView)
    requires
        c.history.len() > 0,
        expects(t.phase, e),
        reply_step(c, t, e).2 == ActionView::Finished,
    ensures
        e == EventView::Sent(false) ==> reply_step(c, t, e).0 == c,
        e != EventView::Sent(false) ==> reply_step(c, t, e).0.history.len() <= 1 + 2
            * c.max_history_turns && reply_step(c, t, e).0.history[0] == c.history[0],
{
    if e == EventView::Sent(false) {
    } else if e is ToolsRan {
        let next = c.history + answers(
            executes(c),
            e->ToolsRan_0,
            ordered_calls(t.current),
        );
        assert(next.push(plain("assistant"@, t.total))[0] == c.history[0]);
    } else {
        assert(c.history.push(plain("assistant"@, t.current.reply))[0] == c.history[0]);
    }
}

/// Every tool call of a round is answered once, in call order, under its own
/// id, before the model is asked again.
pub proof fn law_every_call_is_answered(
    c: ClientView,
    t: TurnView,
    results: Seq<(Seq<char>, Result<Seq<char>, Seq<char>>)>,
)
    requires
        t.round < c.max_tool_rounds,
    ensures
        ({
            let next = reply_step(c, t, EventView::ToolsRan(results)).0.history;
            let cs = ordered_calls(t.current);
            &&& next.len() == c.history.len() + cs.len()
            &&& next.take(c.history.len() as int) == c.history
            &&& forall|i: int|
                0 <= i < cs.len() ==> (#[trigger] next[c.history.len() + i]).role == "tool"@
                    && next[c.history.len() + i].tool_call_id == Some(cs[i].call_id())
        }),
{
    let next = reply_step(c, t, EventView::ToolsRan(results)).0.history;
    assert(next.take(c.history.len() as int) =~= c.history);
}

proof fn lemma_last_outcome(
    results: Seq<(Seq<char>, Result<Seq<char>, Seq<char>>)>,
    id: Seq<char>,
    k: int,
)
    requires
        0 <= k < results.len(),
        results[k].0 == id,
        forall|j: int| k < j < results.len() ==> (#[trigger] results[j]).0 != id,
    ensures
        outcome_for(results, id) == Some(results[k].1),
    decreases results.len(),
{
    if k < results.len() - 1 {
        assert(results[results.len() - 1].0 != id);
        let rest = results.drop_last();
        assert(rest[k] == results[k]);
        assert forall|j: int| k < j < rest.len() implies (#[trigger] rest[j]).0 != id by {
            assert(rest[j] == results[j]);
        }
        lemma_last_outcome(rest, id, k);
    }
}

proof fn lemma_no_outcome(
    results: Seq<(Seq<char>, Result<Seq<char>, Seq<char>>)>,
    id: Seq<char>,
)
    requires
        forall|j: int| 0 <= j < results.len() ==> (#[trigger] results[j]).0 != id,
    ensures
        outcome_for(results, id) is None,
    decreases results.len(),
{
    if results.len() > 0 {
        assert(results[results.len() - 1].0 != id);
        let rest = results.drop_last();
        assert forall|j: int| 0 <= j < rest.len() implies (#[trigger] rest[j]).0 != id by {
            assert(rest[j] == results[j]);
        }
        lemma_no_outcome(rest, id);
    }
}

/// The error that the model reads in `content`: the string under the one
/// member, `error`, of a JSON object.
pub open spec fn told_error(content: ContentView) -> Option<Seq<char>> {
    match content {
        ContentView::Text(w) => if w.len() >= 10 && w.take(9) == seq![
            '{',
            '"',
            'e',
            'r',
            'r',
            'o',
            'r',
            '"',
            ':',
        ] && w.last() == '}' {
            crate::json::unquoted(w.subrange(9, w.len() - 1))
        } else {
            None
        },
        _ => None,
    }
}

proof fn lemma_error_is_told(e: Seq<char>)
    ensures
        told_error(
            ContentView::Text("{\"error\":"@ + crate::json::json_quote(e) + "}"@),
        ) == Some(e),
{
    reveal_strlit("{\"error\":");
    reveal_strlit("}");
    let head = "{\"error\":"@;
    let quoted = crate::json::json_quote(e);
    let w = head + quoted + "}"@;
    assert(w.take(9) =~= head);
    assert(head =~= seq!['{', '"', 'e', 'r', 'r', 'o', 'r', '"', ':']);
    assert(w.subrange(9, w.len() - 1) =~= quoted);
    crate::json::law_quoted_strings_are_read_back(e);
}

/// What a tool gave reaches the model: where a call's tool succeeded, the
/// message that answers the call holds the output, character for character;
/// where it failed, it holds a JSON object whose member `error` is the tool's
/// message. Of several outcomes under one id the last counts.
pub proof fn law_outcomes_reach_the_model(
    c: ClientView,
    t: TurnView,
    results: Seq<(Seq<char>, Result<Seq<char>, Seq<char>>)>,
    i: int,
    k: int,
)
    requires
        c.tool_executor || c.forward is Some,
        t.round < c.max_tool_rounds,
        0 <= i < t.current.calls.len(),
        0 <= k < results.len(),
        t.current.calls[i].1.id == Some(results[k].0),
        forall|j: int| k < j < results.len() ==> (#[trigger] results[j]).0 != results[k].0,
    ensures
        ({
            let told = reply_step(c, t, EventView::ToolsRan(results)).0.history[c.history.len()
                + i];
            &&& told.role == "tool"@
            &&& told.tool_call_id == Some(results[k].0)
            &&& results[k].1 matches Ok(out) ==> told.content == ContentView::Text(out)
            &&& results[k].1 matches Err(e) ==> told_error(told.content) == Some(e)
        }),
{
    lemma_last_outcome(results, results[k].0, k);
    let cs = ordered_calls(t.current);
    let next = reply_step(c, t, EventView::ToolsRan(results)).0.history;
    assert(cs[i] == t.current.calls[i].1);
    assert(next[c.history.len() + i] == answer(true, results, cs[i]));
    if let Err(e) = results[k].1 {
        lemma_error_is_told(e);
    }
}

/// Two runs of a round's tools in which a call came to different outputs, or
/// to different errors, are told apart by the message that answers the call.
pub proof fn law_different_outcomes_are_told_apart(
    c: ClientView,
    t: TurnView,
    first: Seq<(Seq<char>, Result<Seq<char>, Seq<char>>)>,
    second: Seq<(Seq<char>, Result<Seq<char>, Seq<char>>)>,
    i: int,
    k: int,
)
    requires
        c.tool_executor || c.forward is Some,
        t.round < c.max_tool_rounds,
        0 <= i < t.current.calls.len(),
        first.len() == second.len(),
        0 <= k < first.len(),
        t.current.calls[i].1.id == Some(first[k].0),
        first[k].0 == second[k].0,
        forall|j: int| k < j < first.len() ==> (#[trigger] first[j]).0 != first[k].0,
        forall|j: int| k < j < second.len() ==> (#[trigger] second[j]).0 != first[k].0,
        first[k].1 != second[k].1,
        first[k].1 is Ok == second[k].1 is Ok,
    ensures
        reply_step(c, t, EventView::ToolsRan(first)).0.history[c.history.len() + i].content
            != reply_step(c, t, EventView::ToolsRan(second)).0.history[c.history.len()
            + i].content,
{
    law_outcomes_reach_the_model(c, t, first, i, k);
    law_outcomes_reach_the_model(c, t, second, i, k);
}

/// A call that nothing ran is answered too: with an error, and with another one
/// where no tool runs at all.
pub proof fn law_calls_without_outcome_get_an_error(
    c: ClientView,
    t: TurnView,
    results: Seq<(Seq<char>, Result<Seq<char>, Seq<char>>)>,
    i: int,
)
    requires
        t.round < c.max_tool_rounds,
        0 <= i < t.current.calls.len(),
        forall|j: int|
            0 <= j < results.len() ==> t.current.calls[i].1.id != Some((#[trigger] results[j]).0),
        t.current.calls[i].1.id is Some,
    ensures
        ({
            let told = reply_step(c, t, EventView::ToolsRan(results)).0.history[c.history.len()
                + i];
            told_error(told.content) == Some(
                if c.tool_executor || c.forward is Some {
                    "tool execution result missing"@
                } else {
                    "tool execution not configured; respond with text"@
                },
            )
        }),
{
    let cs = ordered_calls(t.current);
    let id = cs[i].id->0;
    assert(cs[i] == t.current.calls[i].1);
    lemma_no_outcome(results, id);
    let next = reply_step(c, t, EventView::ToolsRan(results)).0.history;
    assert(next[c.history.len() + i] == answer(executes(c), results, cs[i]));
    reveal_strlit("{\"error\":");
    reveal_strlit("}");
    if executes(c) {
        let said = "tool execution result missing"@;
        reveal_strlit("tool execution result missing");
        reveal_strlit("{\"error\":\"tool execution result missing\"}");
        lemma_plain_is_escaped(said);
        lemma_error_is_told(said);
        assert("{\"error\":\"tool execution result missing\"}"@ =~= "{\"error\":"@
            + crate::json::json_quote(said) + "}"@);
    } else {
        let said = "tool execution not configured; respond with text"@;
        reveal_strlit("tool execution not configured; respond with text");
        reveal_strlit("{\"error\":\"tool execution not configured; respond with text\"}");
        lemma_plain_is_escaped(said);
        lemma_error_is_told(said);
        assert("{\"error\":\"tool execution not configured; respond with text\"}"@
            =~= "{\"error\":"@ + crate::json::json_quote(said) + "}"@);
    }
}

proof fn lemma_plain_is_escaped(s: Seq<char>)
    requires
        forall|i: int|
            0 <= i < s.len() ==> (#[trigger] s[i]) != '"' && s[i] != '\\' && s[i] as u32 >= 32,
    ensures
        crate::json::json_escaped(s) == s,
    decreases s.len(),
{
    if s.len() > 0 {
        let rest = s.drop_last();
        assert forall|i: int| 0 <= i < rest.len() implies (#[trigger] rest[i]) != '"' && rest[i]
            != '\\' && rest[i] as u32 >= 32 by {
            assert(rest[i] == s[i]);
        }
        lemma_plain_is_escaped(rest);
        assert(s.last() == s[s.len() - 1]);
        assert(crate::json::json_escape(s.last()) =~= seq![s.last()]);
        assert(rest + seq![s.last()] =~= s);
    }
}

/// Only tools that were offered run, and `forward_call` never runs as one.
pub proof fn law_only_offered_tools_run(list: Seq<ToolView>, cs: Seq<CallView>)
    ensures
        forall|i: int|
            0 <= i < tool_runs(list, cs).len() ==> is_offered(
                list,
                (#[trigger] tool_runs(list, cs)[i]).name,
            ) && tool_runs(list, cs)[i].name != FORWARD_TOOL_NAME@,
    decreases cs.len(),
{
    if cs.len() > 0 {
        law_only_offered_tools_run(list, cs.drop_last());
        let rest = tool_runs(list, cs.drop_last());
        let all = tool_runs(list, cs);
        assert forall|i: int| 0 <= i < all.len() implies is_offered(list, (#[trigger] all[i]).name)
            && all[i].name != FORWARD_TOOL_NAME@ by {
            if i < rest.len() {
                assert(all[i] == rest[i]);
            }
        }
    }
}

// ---------------------------------------------------------------------------
// What holds of the stream
// ---------------------------------------------------------------------------

/// The calls of a round after a run of fragments.
pub open spec fn assembled(fragments: Seq<CallView>) -> Seq<(u64, CallView)>
    decreases fragments.len(),
{
    if fragments.len() == 0 {
        Seq::empty()
    } else {
        with_fragment(assembled(fragments.drop_last()), fragments.last())
    }
}

/// Whether a fragment is part of the call with this index; one without an
/// index is part of the first.
pub open spec fn is_part_of(f: CallView, index: u64) -> bool {
    f.index == Some(index) || (f.index is None && index == 0)
}

/// The argument texts of the fragments of a call, one behind the other.
pub open spec fn argument_parts(fragments: Seq<CallView>, index: u64) -> Seq<char>
    decreases fragments.len(),
{
    if fragments.len() == 0 {
        Seq::empty()
    } else {
        let f = fragments.last();
        let before = argument_parts(fragments.drop_last(), index);
        if is_part_of(f, index) && f.function is Some && f.function->0.arguments is Some {
            before + f.function->0.arguments->0
        } else {
            before
        }
    }
}

/// Where a call stands in the list.
spec fn stands_at(list: Seq<(u64, CallView)>, index: u64, k: int) -> bool {
    0 <= k < list.len() && list[k].0 == index
}

/// What a fragment does to the call of any index.
proof fn lemma_fragment_at(list: Seq<(u64, CallView)>, tc: CallView, index: u64) -> (r: (int, int))
    requires
        slots_ascend(list),
    ensures
        index == slot_of(tc) ==> stands_at(with_fragment(list, tc), index, r.1),
        index == slot_of(tc) && stands_at(list, index, r.0) ==> with_fragment(list, tc)[r.1].1
            == merged_call(list[r.0].1, tc),
        index == slot_of(tc) && !stands_at(list, index, r.0) ==> with_fragment(list, tc)[r.1].1
            == merged_call(blank_call(), tc),
        index != slot_of(tc) ==> stands_at(with_fragment(list, tc), index, r.1) == stands_at(
            list,
            index,
            r.0,
        ),
        index != slot_of(tc) && stands_at(list, index, r.0) ==> with_fragment(list, tc)[r.1]
            == list[r.0],
        forall|k: int| #[trigger] stands_at(list, index, k) ==> k == r.0,
        forall|k: int| #[trigger] stands_at(with_fragment(list, tc), index, k) ==> k == r.1,
    decreases list.len(),
{
    let slot = slot_of(tc);
    let out = with_fragment(list, tc);
    law_calls_stay_ordered(list, tc);
    if list.len() == 0 || slot < list[0].0 {
        assert(forall|k: int| 0 < k < out.len() ==> out[k] == list[k - 1]);
        if index == slot {
            (-1, 0)
        } else if exists|k: int| stands_at(list, index, k) {
            let k = choose|k: int| stands_at(list, index, k);
            assert(stands_at(out, index, k + 1));
            (k, k + 1)
        } else {
            assert forall|k: int| !stands_at(out, index, k) by {
                if stands_at(out, index, k) {
                    assert(stands_at(list, index, k - 1));
                }
            }
            (-1, -1)
        }
    } else if slot == list[0].0 {
        assert(forall|k: int| 0 < k < out.len() ==> out[k] == list[k]);
        if index == slot {
            (0, 0)
        } else if exists|k: int| stands_at(list, index, k) {
            let k = choose|k: int| stands_at(list, index, k);
            assert(stands_at(out, index, k));
            (k, k)
        } else {
            assert forall|k: int| !stands_at(out, index, k) by {
                if stands_at(out, index, k) {
                    assert(stands_at(list, index, k));
                }
            }
            (-1, -1)
        }
    } else {
        let rest = list.subrange(1, list.len() as int);
        let tail = with_fragment(rest, tc);
        assert forall|i: int, j: int| 0 <= i < j < rest.len() implies (#[trigger] rest[i]).0 < (
        #[trigger] rest[j]).0 by {
            assert(rest[i] == list[i + 1] && rest[j] == list[j + 1]);
        }
        let (a, b) = lemma_fragment_at(rest, tc, index);
        assert(out =~= seq![list[0]] + tail);
        if index == list[0].0 {
            assert(stands_at(list, index, 0));
            assert(stands_at(out, index, 0));
            (0, 0)
        } else {
            let x = if stands_at(rest, index, a) {
                a + 1
            } else {
                -1
            };
            let y = if stands_at(tail, index, b) {
                b + 1
            } else {
                -1
            };
            assert forall|k: int| #[trigger] stands_at(list, index, k) implies k == x by {
                assert(rest[k - 1] == list[k]);
                assert(stands_at(rest, index, k - 1));
            }
            assert forall|k: int| #[trigger] stands_at(out, index, k) implies k == y by {
                assert(tail[k - 1] == out[k]);
                assert(stands_at(tail, index, k - 1));
            }
            assert(stands_at(rest, index, a) ==> list[a + 1] == rest[a]);
            assert(stands_at(tail, index, b) ==> out[b + 1] == tail[b]);
            (x, y)
        }
    }
}

proof fn lemma_assembled_ascend(fragments: Seq<CallView>)
    ensures
        slots_ascend(assembled(fragments)),
    decreases fragments.len(),
{
    if fragments.len() > 0 {
        lemma_assembled_ascend(fragments.drop_last());
        law_calls_stay_ordered(assembled(fragments.drop_last()), fragments.last());
    }
}

/// A call that streams in fragment by fragment is put together again: its
/// arguments are those of its fragments, one behind the other in the order in
/// which they came, whatever fragments of other calls came in between; its id
/// and its name are the last that a fragment of it gave.
pub proof fn law_fragments_make_up_their_call(fragments: Seq<CallView>, i: int, k: int)
    requires
        0 <= i < assembled(fragments).len(),
    ensures
        ({
            let (index, call) = assembled(fragments)[i];
            &&& call.function is Some && call.function->0.arguments is Some ==> call.function->0.arguments
                == Some(argument_parts(fragments, index))
            &&& call.function is None || call.function->0.arguments is None ==> argument_parts(
                fragments,
                index,
            ).len() == 0
            &&& 0 <= k < fragments.len() && is_part_of(fragments[k], index) && fragments[k].id
                is Some && (forall|j: int|
                k < j < fragments.len() ==> !is_part_of(#[trigger] fragments[j], index)
                    || fragments[j].id is None) ==> call.id == fragments[k].id
            &&& 0 <= k < fragments.len() && is_part_of(fragments[k], index)
                && fragments[k].function is Some && fragments[k].function->0.name is Some && (
            forall|j: int|
                k < j < fragments.len() ==> !is_part_of(#[trigger] fragments[j], index)
                    || fragments[j].function is None || fragments[j].function->0.name is None)
                ==> call.function is Some && call.function->0.name
                == fragments[k].function->0.name
        }),
    decreases fragments.len(),
{
    let (index, call) = assembled(fragments)[i];
    let n = fragments.len() - 1;
    let before = fragments.drop_last();
    let tc = fragments.last();
    lemma_assembled_ascend(before);
    let (a, b) = lemma_fragment_at(assembled(before), tc, index);
    assert(stands_at(assembled(fragments), index, i));
    assert(fragments[n] == tc);
    assert forall|j: int| 0 <= j < before.len() implies #[trigger] before[j] == fragments[j] by {}
    if stands_at(assembled(before), index, a) {
        law_fragments_make_up_their_call(before, a, k);
        if 0 <= k < n && forall|j: int|
            k < j < fragments.len() ==> !is_part_of(#[trigger] fragments[j], index)
                || fragments[j].id is None {
            assert forall|j: int| k < j < before.len() implies !is_part_of(
                #[trigger] before[j],
                index,
            ) || before[j].id is None by {
                assert(fragments[j] == before[j]);
            }
            assert(!is_part_of(fragments[n], index) || fragments[n].id is None);
        }
        if 0 <= k < n && forall|j: int|
            k < j < fragments.len() ==> !is_part_of(#[trigger] fragments[j], index)
                || fragments[j].function is None || fragments[j].function->0.name is None {
            assert forall|j: int| k < j < before.len() implies !is_part_of(
                #[trigger] before[j],
                index,
            ) || before[j].function is None || before[j].function->0.name is None by {
                assert(fragments[j] == before[j]);
            }
            assert(!is_part_of(fragments[n], index) || fragments[n].function is None
                || fragments[n].function->0.name is None);
        }
    } else {
        lemma_no_parts(before, index);
        assert(index == slot_of(tc));
        if tc.function is Some && tc.function->0.arguments is Some {
            assert(Seq::<char>::empty() + tc.function->0.arguments->0
                =~= tc.function->0.arguments->0);
        }
        if 0 <= k < n {
            assert(!is_part_of(before[k], index));
        }
    }
}

/// A call that is not in the list has had no fragment.
proof fn lemma_no_parts(fragments: Seq<CallView>, index: u64)
    requires
        forall|k: int| !#[trigger] stands_at(assembled(fragments), index, k),
    ensures
        argument_parts(fragments, index) == Seq::<char>::empty(),
        forall|j: int| 0 <= j < fragments.len() ==> !is_part_of(#[trigger] fragments[j], index),
    decreases fragments.len(),
{
    if fragments.len() > 0 {
        let before = fragments.drop_last();
        let tc = fragments.last();
        lemma_assembled_ascend(before);
        let (a, b) = lemma_fragment_at(assembled(before), tc, index);
        assert(!stands_at(assembled(fragments), index, b));
        assert forall|k: int| !#[trigger] stands_at(assembled(before), index, k) by {
            if stands_at(assembled(before), index, k) {
                assert(k == a);
            }
        }
        lemma_no_parts(before, index);
        assert forall|j: int| 0 <= j < fragments.len() implies !is_part_of(
            #[trigger] fragments[j],
            index,
        ) by {
            if j < before.len() {
                assert(before[j] == fragments[j]);
            }
        }
    }
}

/// Every call that a fragment was part of is in the list, once.
pub proof fn law_no_call_is_lost(fragments: Seq<CallView>, j: int, index: u64) -> (i: int)
    requires
        0 <= j < fragments.len(),
        is_part_of(fragments[j], index),
    ensures
        0 <= i < assembled(fragments).len(),
        assembled(fragments)[i].0 == index,
        forall|k: int|
            0 <= k < assembled(fragments).len() && k != i ==> (#[trigger] assembled(
                fragments,
            )[k]).0 != index,
{
    if forall|k: int| !#[trigger] stands_at(assembled(fragments), index, k) {
        lemma_no_parts(fragments, index);
    }
    let i = choose|k: int| #[trigger] stands_at(assembled(fragments), index, k);
    lemma_assembled_ascend(fragments);
    i
}

/// Whether the model named a tool that it was offered, and one that runs here.
pub open spec fn names_a_tool(list: Seq<ToolView>, c: CallView) -> bool {
    &&& c.function is Some
    &&& c.function->0.name is Some
    &&& c.function->0.name->0 != "forward_call"@
    &&& exists|i: int| 0 <= i < list.len() && (#[trigger] list[i]).name == c.function->0.name->0
}

/// What a tool is handed of a call: the name, the arguments and the id as the
/// model gave them; without arguments an empty object, and without an id a
/// fixed one.
pub open spec fn handed_to_tool(c: CallView) -> RunView {
    RunView {
        name: c.function->0.name->0,
        arguments: if c.function->0.arguments is Some {
            c.function->0.arguments->0
        } else {
            seq!['{', '}']
        },
        call_id: if c.id is Some {
            c.id->0
        } else {
            "call_unknown"@
        },
    }
}

/// Every call that names a tool runs, with what the model gave for it and in
/// call order, and no other call does, where no tool goes without a name.
pub proof fn law_calls_reach_their_tools(list: Seq<ToolView>, cs: Seq<CallView>)
    requires
        forall|i: int| 0 <= i < list.len() ==> (#[trigger] list[i]).name.len() > 0,
    ensures
        tool_runs(list, cs) == cs.filter(|c: CallView| names_a_tool(list, c)).map_values(
            |c: CallView| handed_to_tool(c),
        ),
    decreases cs.len(),
{
    reveal(Seq::filter);
    reveal_strlit("{}");
    assert("{}"@ =~= seq!['{', '}']);
    let kept = |c: CallView| names_a_tool(list, c);
    let run = |c: CallView| handed_to_tool(c);
    if cs.len() > 0 {
        let rest = cs.drop_last();
        let c = cs.last();
        law_calls_reach_their_tools(list, rest);
        assert(!is_offered(list, Seq::empty()));
        assert(rest.filter(kept).push(c).map_values(run) =~= rest.filter(kept).map_values(run).push(
            run(c),
        ));
    } else {
        assert(tool_runs(list, cs) =~= cs.filter(kept).map_values(run));
    }
}

/// Every call of `forward_call` is forwarded, where it was offered, and no
/// other call is: with the reason and the summary of its arguments, under its
/// own id, and with the user's current query.
pub proof fn law_forwards_carry_the_query(
    list: Seq<ToolView>,
    query: Seq<char>,
    cs: Seq<CallView>,
)
    requires
        exists|i: int| 0 <= i < list.len() && (#[trigger] list[i]).name == "forward_call"@,
    ensures
        forward_runs(list, query, cs) == cs.filter(
            |c: CallView|
                c.function is Some && c.function->0.name == Some("forward_call"@),
        ).map_values(
            |c: CallView|
                ForwardView {
                    call_id: c.call_id(),
                    reason: text_or_empty(crate::json::parsed(c.args()), "reason"@),
                    summary: text_or_empty(crate::json::parsed(c.args()), "summary"@),
                    query,
                },
        ),
    decreases cs.len(),
{
    reveal(Seq::filter);
    reveal_strlit("forward_call");
    let kept = |c: CallView| c.function is Some && c.function->0.name == Some("forward_call"@);
    let run = |c: CallView|
        ForwardView {
            call_id: c.call_id(),
            reason: text_or_empty(crate::json::parsed(c.args()), "reason"@),
            summary: text_or_empty(crate::json::parsed(c.args()), "summary"@),
            query,
        };
    if cs.len() > 0 {
        let rest = cs.drop_last();
        let c = cs.last();
        law_forwards_carry_the_query(list, query, rest);
        assert("forward_call"@.len() > 0);
        assert(is_offered(list, "forward_call"@));
        assert(rest.filter(kept).push(c).map_values(run) =~= rest.filter(kept).map_values(run).push(
            run(c),
        ));
    } else {
        assert(forward_runs(list, query, cs) =~= cs.filter(kept).map_values(run));
    }
}

/// Where the end of a round with calls leads: each call is announced by its
/// marker in call order, the tools run where there is an executor, the
/// forwards where there is an endpoint, with what the user asked last, and
/// hold music plays meanwhile; once the tools have run it stops.
pub proof fn law_rounds_with_calls_run_them(
    c: ClientView,
    t: TurnView,
    results: Seq<(Seq<char>, Result<Seq<char>, Seq<char>>)>,
    k: int,
)
    requires
        t.phase == ReplyPhase::Flushing,
        0 <= k < t.current.calls.len(),
    ensures
        ({
            let (next, turn, action) = reply_step(c, t, EventView::Sent(true));
            let call = t.current.calls[k].1;
            &&& turn.phase == ReplyPhase::Tools
            &&& next.hold_music == (if c.hold_music is Some {
                Some(true)
            } else {
                None
            })
            &&& next.history.len() == c.history.len() + 1
            &&& next.history.last().role == "assistant"@
            &&& next.history.last().tool_calls is Some
            &&& next.history.last().tool_calls->0.len() == t.current.calls.len()
            &&& next.history.last().tool_calls->0[k] == call
            &&& action is RunTools
            &&& action->RunTools_0.len() == t.current.calls.len()
            &&& call.function is Some && call.function->0.name is Some
                && call.function->0.arguments is Some ==> action->RunTools_0[k] == seq![
                '\0',
                'T',
                'O',
                'O',
                'L',
                ':',
            ] + call.function->0.name->0 + seq![':'] + call.function->0.arguments->0
            &&& !c.tool_executor ==> action->RunTools_2.len() == 0
            &&& c.forward is None ==> action->RunTools_1.len() == 0
            &&& reply_step(c, t, EventView::ToolsRan(results)).0.hold_music == (if c.hold_music
                is Some {
                Some(false)
            } else {
                None
            })
        }),
{
    reveal_strlit("\0TOOL:");
    reveal_strlit(":");
    assert("\0TOOL:"@ =~= seq!['\0', 'T', 'O', 'O', 'L', ':']);
    assert(":"@ =~= seq![':']);
    let cs = ordered_calls(t.current);
    assert(cs[k] == t.current.calls[k].1);
}

/// What is recorded is what was said. The lines of a stream add the same text
/// to the reply of the round and to that of the turn, and the clauses that are
/// spoken, with what still waits, have its letters: nothing is recorded that is
/// not spoken, and nothing spoken that is not recorded.
pub proof fn law_spoken_text_is_recorded(s: RoundView)
    ensures
        drained(s).0.reply == s.reply + new_text(s),
        letters(whole(drained(s).1)) + letters(drained(s).0.pending) == letters(s.pending)
            + letters(new_text(s)),
    decreases s.bytes.len(),
{
    let none = Seq::<Seq<char>>::empty();
    assert(whole(none) =~= Seq::<char>::empty());
    assert(letters(Seq::<char>::empty()) =~= Seq::<char>::empty());
    lemma_line_end(s.bytes, 0);
    if s.done || next_of(s) is None {
        assert(drained(s).0.reply =~= s.reply + new_text(s));
        assert(letters(whole(none)) + letters(s.pending) =~= letters(s.pending) + letters(
            Seq::<char>::empty(),
        ));
    } else {
        let (line, rest) = next_of(s)->0;
        let (next, first) = after_line(RoundView { bytes: rest, ..s }, line);
        law_spoken_text_is_recorded(next);
        let (last, more) = drained(next);
        let token = token_of(line);
        lemma_letters_add(token, new_text(next));
        lemma_whole_add(first, more);
        lemma_letters_add(whole(first), whole(more));
        assert(s.reply + token + new_text(next) =~= s.reply + (token + new_text(next)));
        assert(next.reply =~= s.reply + token);
        let text = s.pending + token;
        lemma_letters_add(s.pending, token);
        law_push_keeps_the_letters(text, CLAUSE_MIN_LEN as nat, CLAUSE_MAX_LEN as nat);
        assert(letters(whole(first)) + letters(next.pending) =~= letters(s.pending) + letters(
            token,
        ));
        assert(letters(whole(first)) + letters(whole(more)) + letters(last.pending) =~= letters(
            whole(first),
        ) + (letters(whole(more)) + letters(last.pending)));
        assert(letters(whole(first)) + (letters(next.pending) + letters(new_text(next)))
            =~= letters(s.pending) + letters(token) + letters(new_text(next)));
        assert(letters(s.pending) + letters(token) + letters(new_text(next)) =~= letters(s.pending)
            + (letters(token) + letters(new_text(next))));
    }
}

/// How the network cuts a stream into chunks makes no difference to a reply:
/// reading a first chunk and then a second gives the same round, and the same
/// clauses in the same order, as reading both at once.
pub proof fn law_replies_ignore_chunking(s: RoundView, more: Seq<u8>)
    requires
        !s.eof,
    ensures
        ({
            let (half, first) = drained(s);
            let (two, second) = drained(RoundView { bytes: half.bytes + more, ..half });
            let (one, all) = drained(RoundView { bytes: s.bytes + more, ..s });
            one == two && all == first + second
        }),
    decreases s.bytes.len(),
{
    let joint = RoundView { bytes: s.bytes + more, ..s };
    lemma_line_end(s.bytes, 0);
    lemma_line_end(joint.bytes, 0);
    let none = Seq::<Seq<char>>::empty();
    if s.done {
        assert(none + none =~= none);
    } else {
        match line_end(s.bytes, 0) {
            None => {
                assert(none + drained(joint).1 =~= drained(joint).1);
            },
            Some(end) => {
                let whole_end = line_end(joint.bytes, 0)->0;
                assert(joint.bytes[end - 1] == s.bytes[end - 1]);
                if whole_end < end {
                    assert(joint.bytes[whole_end - 1] == s.bytes[whole_end - 1]);
                }
                assert(whole_end == end);
                assert(joint.bytes.take(end as int) =~= s.bytes.take(end as int));
                assert(joint.bytes.skip(end as int) =~= s.bytes.skip(end as int) + more);
                let (line, rest) = next_of(s)->0;
                let (next, first) = after_line(RoundView { bytes: rest, ..s }, line);
                law_replies_ignore_chunking(next, more);
                let (after, begun) = after_line(RoundView { bytes: rest + more, ..s }, line);
                assert(after == RoundView { bytes: next.bytes + more, ..next });
                assert(begun == first);
                let (half, tail) = drained(next);
                let second = drained(RoundView { bytes: half.bytes + more, ..half }).1;
                assert(first + (tail + second) =~= first + tail + second);
            },
        }
    }
}

/// A turn that is heard to its end leaves what was said as the last message of
/// the conversation: the text of its last round where that called no tools, and
/// the text of all rounds where the tool rounds were used up.
pub proof fn law_replies_are_remembered(
    c: ClientView,
    t: TurnView,
    results: Seq<(Seq<char>, Result<Seq<char>, Seq<char>>)>,
)
    requires
        c.max_history_turns > 0,
    ensures
        t.phase == ReplyPhase::Flushing && t.current.calls.len() == 0 ==> {
            let (next, turn, action) = reply_step(c, t, EventView::Sent(true));
            action == ActionView::Finished && next.history.len() > 0 && next.history.last()
                == MessageView {
                role: "assistant"@,
                content: ContentView::Text(t.current.reply),
                tool_call_id: None,
                tool_calls: None,
            }
        },
        t.round >= c.max_tool_rounds ==> {
            let (next, turn, action) = reply_step(c, t, EventView::ToolsRan(results));
            action == ActionView::Finished && next.history.len() > 0 && next.history.last()
                == MessageView {
                role: "assistant"@,
                content: ContentView::Text(t.total),
                tool_call_id: None,
                tool_calls: None,
            }
        },
{
    let cs = ordered_calls(t.current);
    assert(cs.len() == t.current.calls.len());
}

/// Nothing is left unsaid: once the stream has ended, what still waits for the
/// end of its clause is sent, unless it is blank.
pub proof fn law_the_rest_is_said(c: ClientView, t: TurnView)
    requires
        t.phase == ReplyPhase::Sending,
        t.current.done || t.current.eof,
    ensures
        ({
            let (next, turn, action) = reply_step(c, t, EventView::Sent(true));
            &&& turn.phase == ReplyPhase::Flushing
            &&& action is Send
            &&& letters(whole(action->Send_0)) == letters(t.current.pending)
            &&& action->Send_0.len() > 0 ==> action->Send_0 == seq![t.current.pending]
        }),
{
    let p = t.current.pending;
    if crate::text::trimmed(p).len() > 0 {
        let none = Seq::<Seq<char>>::empty();
        let one = seq![p];
        assert(one.drop_last() =~= none);
        assert(whole(none) =~= Seq::empty());
        assert(whole(one) =~= p);
    } else {
        crate::text::lemma_trim_start(p);
        crate::text::lemma_trim_end(crate::text::trim_start(p));
        let s = crate::text::trim_start(p);
        assert forall|i: int| 0 <= i < p.len() implies crate::text::is_white(#[trigger] p[i]) by {
            let cut = p.len() - s.len();
            if i >= cut {
                assert(s[i - cut] == p[i]);
                assert(crate::text::is_white(s[i - cut]));
            }
        }
        crate::text::lemma_letters_white(p);
        assert(whole(Seq::<Seq<char>>::empty()) =~= Seq::<char>::empty());
        assert(letters(Seq::<char>::empty()) =~= Seq::<char>::empty());
    }
}

/// Whenever a reply is asked for, tools are offered where there are any and
/// their rounds are not used up, so that the last request of a turn can only
/// be answered with text.
pub proof fn law_the_last_round_forces_text(c: ClientView, t: TurnView, e: EventView)
    requires
        expects(t.phase, e),
    ensures
        ({
            let (next, after, action) = reply_step(c, t, e);
            action is Post ==> {
                &&& action->Post_0 == (next.tools.len() > 0 && after.round < next.max_tool_rounds)
                &&& after.round == t.round + 1
                &&& after.round <= next.max_tool_rounds
                &&& next.tools == c.tools
                &&& e is ToolsRan
            }
        }),
{
}

/// Music plays exactly while tools run, for those who asked for music: it
/// starts when the calls of a round are handed out, stops when their results
/// are in, and nothing else touches it.
#[verifier::rlimit(40)]
pub proof fn law_music_plays_while_tools_run(c: ClientView, t: TurnView, e: EventView)
    requires
        expects(t.phase, e),
    ensures
        ({
            let (next, after, action) = reply_step(c, t, e);
            &&& c.hold_music is None ==> next.hold_music is None
            &&& c.hold_music is Some ==> next.hold_music == (if after.phase == ReplyPhase::Tools {
                Some(true)
            } else if e is ToolsRan {
                Some(false)
            } else {
                c.hold_music
            })
            &&& action is RunTools <==> after.phase == ReplyPhase::Tools
        }),
{
}

/// Every call of a round is announced before it runs, in order, with its name
/// and its arguments.
#[verifier::rlimit(40)]
pub proof fn law_calls_are_announced(c: ClientView, t: TurnView, i: int)
    requires
        t.phase == ReplyPhase::Flushing,
        0 <= i < ordered_calls(t.current).len(),
    ensures
        ({
            let action = reply_step(c, t, EventView::Sent(true)).2;
            let call = ordered_calls(t.current)[i];
            &&& action is RunTools
            &&& action->RunTools_0.len() == ordered_calls(t.current).len()
            &&& call.function is Some && call.function->0.name is Some
                && call.function->0.arguments is Some ==> action->RunTools_0[i] == seq![
                '\0',
                'T',
                'O',
                'O',
                'L',
                ':',
            ] + call.function->0.name->0 + seq![':'] + call.function->0.arguments->0
        }),
{
    reveal_strlit("\0TOOL:");
    reveal_strlit(":");
    assert("\0TOOL:"@ =~= seq!['\0', 'T', 'O', 'O', 'L', ':']);
    assert(":"@ =~= seq![':']);
}

/// Nothing that comes behind the mark that ends a reply is read: no clause, no
/// text and no call comes of it.
pub proof fn law_nothing_is_read_behind_the_end(s: RoundView, more: Seq<u8>)
    requires
        s.done,
    ensures
        ({
            let late = RoundView { bytes: s.bytes + more, ..s };
            &&& drained(late).1.len() == 0
            &&& drained(late).0.reply == s.reply
            &&& drained(late).0.calls == s.calls
            &&& drained(late).0.pending == s.pending
            &&& new_text(late).len() == 0
        }),
{
}

/// A turn that fails says why: with the status and the words of the server,
/// which are cut at 1024 characters, with the fault of the connection, or as
/// cancelled; and it never adds to the conversation.
pub proof fn law_failures_say_why(c: ClientView, t: TurnView, status: u16, words: Seq<char>)
    ensures
        reply_step(c, t, EventView::Refused(status, words)).2 == ActionView::Failed(
            LlmErrorView::Api(
                status,
                if words.len() > 1024 {
                    words.take(1024)
                } else {
                    words
                },
            ),
        ),
        reply_step(c, t, EventView::PostFailed(words)).2 == ActionView::Failed(
            LlmErrorView::Http(words),
        ),
        reply_step(c, t, EventView::ReadFailed(words)).2 == ActionView::Failed(
            LlmErrorView::Http(words),
        ),
        reply_step(c, t, EventView::Refused(status, words)).0 == c,
        reply_step(c, t, EventView::PostFailed(words)).0 == c,
        reply_step(c, t, EventView::ReadFailed(words)).0 == c,
        reply_step(c, t, EventView::Cancelled).2 == ActionView::Failed(LlmErrorView::Cancelled),
        reply_step(c, t, EventView::Cancelled).0.history.len() <= c.history.len(),
{
}

} // verus!
