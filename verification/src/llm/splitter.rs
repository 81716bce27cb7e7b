//! Clause boundary detection for streaming TTS.

use vstd::prelude::*;

use crate::text::{
    chars_of, is_whitespace, lemma_letters_add, lemma_letters_white, letters, string_of, trim_bounds,
    trimmed,
};

verus! {

/// The characters that end a clause.
pub open spec fn is_boundary(c: char) -> bool {
    c == '.' || c == '?' || c == '!' || c == ','
}

/// The end of the first clause of `buf` that a boundary character closes with
/// at least `min_len` characters.
pub open spec fn boundary_end(buf: Seq<char>, min_len: nat, from: nat) -> Option<nat>
    decreases buf.len() - from,
{
    if from >= buf.len() {
        None
    } else if is_boundary(buf[from as int]) && from + 1 >= min_len {
        Some(from + 1)
    } else {
        boundary_end(buf, min_len, from + 1)
    }
}

/// The last white space among the first `upto` characters of `buf`.
pub open spec fn last_white(buf: Seq<char>, upto: nat) -> Option<nat>
    decreases upto,
{
    if upto == 0 || upto > buf.len() {
        None
    } else if crate::text::is_white(buf[upto - 1]) {
        Some((upto - 1) as nat)
    } else {
        last_white(buf, (upto - 1) as nat)
    }
}

/// The next cut of `buf`, as the length of the clause and the number of
/// characters that leave the buffer with it: at the first boundary character
/// that closes a clause of at least `min_len`; without one, and with more than
/// `max_len` characters, at the last white space among the first `max_len`
/// (which is dropped), or behind `max_len` characters where there is none.
pub open spec fn cut_of(buf: Seq<char>, min_len: nat, max_len: nat) -> Option<(nat, nat)> {
    match boundary_end(buf, min_len, 0) {
        Some(end) => Some((end, end)),
        None => if buf.len() > max_len {
            match last_white(buf, max_len) {
                Some(ws) => Some((ws, ws + 1)),
                None => Some((max_len, max_len)),
            }
        } else {
            None
        },
    }
}

/// Where `boundary_end` finds a boundary, and that it finds the first one.
pub proof fn lemma_boundary_end(buf: Seq<char>, min_len: nat, from: nat)
    ensures
        match boundary_end(buf, min_len, from) {
            Some(end) => from < end <= buf.len() && end >= min_len && is_boundary(buf[end - 1])
                && forall|i: int|
                from <= i < end - 1 ==> !(is_boundary(#[trigger] buf[i]) && i + 1 >= min_len),
            None => forall|i: int|
                from <= i < buf.len() ==> !(is_boundary(#[trigger] buf[i]) && i + 1 >= min_len),
        },
    decreases buf.len() - from,
{
    if from < buf.len() && !(is_boundary(buf[from as int]) && from + 1 >= min_len) {
        lemma_boundary_end(buf, min_len, from + 1);
    }
}

/// Where `last_white` finds white space, and that it finds the last.
pub proof fn lemma_last_white(buf: Seq<char>, upto: nat)
    requires
        upto <= buf.len(),
    ensures
        match last_white(buf, upto) {
            Some(ws) => ws < upto && crate::text::is_white(buf[ws as int]) && forall|i: int|
                ws < i < upto ==> !crate::text::is_white(#[trigger] buf[i]),
            None => forall|i: int| 0 <= i < upto ==> !crate::text::is_white(#[trigger] buf[i]),
        },
    decreases upto,
{
    if upto > 0 && !crate::text::is_white(buf[upto - 1]) {
        lemma_last_white(buf, (upto - 1) as nat);
    }
}

/// A cut never reaches past the buffer, never takes less than it emits, and
/// takes at least one character.
pub proof fn lemma_cut_bounds(buf: Seq<char>, min_len: nat, max_len: nat)
    requires
        max_len > 0,
    ensures
        cut_of(buf, min_len, max_len) matches Some((emit, consume)) ==> emit <= consume
            <= buf.len() && consume > 0 && consume - emit <= 1,
{
    lemma_boundary_end(buf, min_len, 0);
    if buf.len() > max_len {
        lemma_last_white(buf, max_len);
    }
}

/// One piece of a buffer: the clause, and what was dropped behind it.
pub open spec fn pieces(buf: Seq<char>, min_len: nat, max_len: nat) -> Seq<(Seq<char>, Seq<char>)>
    decreases buf.len(),
    when max_len > 0
    via pieces_decreases
{
    match cut_of(buf, min_len, max_len) {
        None => Seq::empty(),
        Some((emit, consume)) => seq![
            (buf.take(emit as int), buf.subrange(emit as int, consume as int)),
        ] + pieces(buf.skip(consume as int), min_len, max_len),
    }
}

#[via_fn]
proof fn pieces_decreases(buf: Seq<char>, min_len: nat, max_len: nat) {
    lemma_cut_bounds(buf, min_len, max_len);
}

/// What stays in the buffer once every cut is made.
pub open spec fn remainder(buf: Seq<char>, min_len: nat, max_len: nat) -> Seq<char>
    decreases buf.len(),
    when max_len > 0
    via remainder_decreases
{
    match cut_of(buf, min_len, max_len) {
        None => buf,
        Some((_, consume)) => remainder(buf.skip(consume as int), min_len, max_len),
    }
}

#[via_fn]
proof fn remainder_decreases(buf: Seq<char>, min_len: nat, max_len: nat) {
    lemma_cut_bounds(buf, min_len, max_len);
}

/// The clauses of a list of pieces: those that are not empty.
pub open spec fn clauses_of(p: Seq<(Seq<char>, Seq<char>)>) -> Seq<Seq<char>>
    decreases p.len(),
{
    if p.len() == 0 {
        Seq::empty()
    } else if p[0].0.len() == 0 {
        clauses_of(p.subrange(1, p.len() as int))
    } else {
        seq![p[0].0] + clauses_of(p.subrange(1, p.len() as int))
    }
}

/// Every piece with what was dropped behind it, one behind the other.
pub open spec fn glued(p: Seq<(Seq<char>, Seq<char>)>) -> Seq<char>
    decreases p.len(),
{
    if p.len() == 0 {
        Seq::empty()
    } else {
        p[0].0 + p[0].1 + glued(p.subrange(1, p.len() as int))
    }
}

/// Splits an LLM token stream into speakable clauses.
///
/// Emits a clause on `.` `?` `!` `,` once the buffer is at least `min_len`;
/// hard-flushes at `max_len` at the last whitespace (or a hard cut when none
/// exists). Lengths count characters.
pub struct ClauseSplitter {
    min_len: usize,
    max_len: usize,
    buf: Vec<char>,
}

impl ClauseSplitter {
    /// The fewest characters a clause that ends in a boundary has.
    pub closed spec fn min(&self) -> nat {
        self.min_len as nat
    }

    /// The most characters that wait for a boundary.
    pub closed spec fn max(&self) -> nat {
        self.max_len as nat
    }

    /// The text that no clause has taken yet.
    pub closed spec fn pending(&self) -> Seq<char> {
        self.buf@
    }

    /// Creates a splitter; typical values are `min_len ≈ 4`, `max_len ≈ 160`.
    pub fn new(min_len: usize, max_len: usize) -> (r: Self)
        ensures
            r.min() == min_len,
            r.max() == max_len,
            r.pending() == Seq::<char>::empty(),
    {
        ClauseSplitter { min_len, max_len, buf: Vec::new() }
    }

    /// Pushes a text chunk; returns any completed clauses, in order.
    ///
    /// Emitted clauses keep their original text verbatim (boundary
    /// punctuation included). A splitter with `max_len` zero has no clause to
    /// emit at a hard flush, so it takes no text.
    pub fn push(&mut self, text: &str) -> (out: Vec<String>)
        requires
            old(self).max() > 0,
        ensures
            final(self).min() == old(self).min(),
            final(self).max() == old(self).max(),
            crate::text::strs(out@) == clauses_of(
                pieces(old(self).pending() + text@, old(self).min(), old(self).max()),
            ),
            final(self).pending() == remainder(
                old(self).pending() + text@,
                old(self).min(),
                old(self).max(),
            ),
    {
        let mut more = chars_of(text);
        self.buf.append(&mut more);
        let ghost whole = self.buf@;
        let ghost lo = self.min_len as nat;
        let ghost hi = self.max_len as nat;
        let mut out: Vec<String> = Vec::new();
        assert(crate::text::strs(out@) + clauses_of(pieces(whole, lo, hi)) =~= clauses_of(
            pieces(whole, lo, hi),
        ));
        loop
            invariant
                self.min_len == lo,
                self.max_len == hi,
                hi > 0,
                crate::text::strs(out@) + clauses_of(pieces(self.buf@, lo, hi)) == clauses_of(
                    pieces(whole, lo, hi),
                ),
                remainder(self.buf@, lo, hi) == remainder(whole, lo, hi),
            ensures
                cut_of(self.buf@, lo, hi) is None,
            decreases self.buf@.len(),
        {
            let (emit_end, consume_end) = match self.next_cut() {
                Some(cut) => cut,
                None => break,
            };
            let ghost before = self.buf@;
            let ghost taken = out@;
            proof {
                lemma_cut_bounds(before, lo, hi);
            }
            let rest = self.buf.split_off(consume_end);
            let clause = string_of(&self.buf, 0, emit_end);
            self.buf = rest;
            proof {
                assert(self.buf@ =~= before.skip(consume_end as int));
                assert(clause@ =~= before.take(emit_end as int));
                let p = pieces(before, lo, hi);
                assert(p.subrange(1, p.len() as int) =~= pieces(self.buf@, lo, hi));
                assert(p[0].0 == clause@);
            }
            if emit_end > 0 {
                out.push(clause);
                assert(crate::text::strs(out@) =~= crate::text::strs(taken) + seq![clause@]);
                assert(crate::text::strs(out@) + clauses_of(pieces(self.buf@, lo, hi))
                    =~= crate::text::strs(taken) + clauses_of(pieces(before, lo, hi)));
            }
        }
        assert(crate::text::strs(out@) + clauses_of(pieces(self.buf@, lo, hi))
            =~= crate::text::strs(out@));
        out
    }

    /// Drains the remainder at stream end; `None` when the buffer is empty or
    /// holds only whitespace (a whitespace-only clause is not speakable).
    pub fn flush(&mut self) -> (r: Option<String>)
        ensures
            final(self).min() == old(self).min(),
            final(self).max() == old(self).max(),
            final(self).pending() == Seq::<char>::empty(),
            match r {
                Some(rest) => rest@ == old(self).pending() && crate::text::trimmed(
                    old(self).pending(),
                ).len() > 0,
                None => crate::text::trimmed(old(self).pending()).len() == 0,
            },
    {
        let (a, b) = trim_bounds(&self.buf);
        let mut taken: Vec<char> = Vec::new();
        std::mem::swap(&mut taken, &mut self.buf);
        if a == b {
            None
        } else {
            assert(taken@.subrange(0, taken@.len() as int) =~= taken@);
            Some(string_of(&taken, 0, taken.len()))
        }
    }

    /// Finds the next cut as `(emit_end, consume_end)` offsets into the
    /// buffer: the clause is `buf[..emit_end]` and `buf[..consume_end]` is
    /// removed from the buffer (they differ only for a `max_len` flush at
    /// whitespace, where the whitespace itself is dropped).
    fn next_cut(&self) -> (r: Option<(usize, usize)>)
        ensures
            match r {
                Some((e, c)) => cut_of(self.buf@, self.min_len as nat, self.max_len as nat) == Some(
                    (e as nat, c as nat),
                ),
                None => cut_of(self.buf@, self.min_len as nat, self.max_len as nat) is None,
            },
    {
        let n: usize = self.buf.len();
        let mut i: usize = 0;
        while i < n
            invariant
                i <= n == self.buf@.len(),
                boundary_end(self.buf@, self.min_len as nat, 0) == boundary_end(
                    self.buf@,
                    self.min_len as nat,
                    i as nat,
                ),
            decreases n - i,
        {
            let c = self.buf[i];
            if (c == '.' || c == '?' || c == '!' || c == ',') && i + 1 >= self.min_len {
                return Some((i + 1, i + 1));
            }
            i += 1;
        }
        if n > self.max_len {
            let mut upto: usize = self.max_len;
            while upto > 0
                invariant
                    upto <= self.max_len < n == self.buf@.len(),
                    last_white(self.buf@, self.max_len as nat) == last_white(
                        self.buf@,
                        upto as nat,
                    ),
                    boundary_end(self.buf@, self.min_len as nat, 0) is None,
                decreases upto,
            {
                if is_whitespace(self.buf[upto - 1]) {
                    return Some((upto - 1, upto));
                }
                upto -= 1;
            }
            return Some((self.max_len, self.max_len));
        }
        None
    }
}

/// Concatenating the pieces of a text, each with what was dropped behind it,
/// and what stays behind gives the text back; what is dropped is nothing, or
/// the single white space that a hard flush broke on, in which case the clause
/// in front of it is shorter than `max_len`.
pub proof fn law_clauses_reproduce_text(text: Seq<char>, min_len: nat, max_len: nat)
    requires
        max_len > 0,
    ensures
        glued(pieces(text, min_len, max_len)) + remainder(text, min_len, max_len) == text,
        forall|i: int|
            #![trigger pieces(text, min_len, max_len)[i]]
            0 <= i < pieces(text, min_len, max_len).len() ==> {
                let piece = pieces(text, min_len, max_len)[i];
                ||| piece.1.len() == 0
                ||| piece.1.len() == 1 && crate::text::is_white(piece.1[0]) && piece.0.len()
                    < max_len
            },
    decreases text.len(),
{
    lemma_cut_bounds(text, min_len, max_len);
    match cut_of(text, min_len, max_len) {
        None => {
            assert(glued(pieces(text, min_len, max_len)) + text =~= text);
        },
        Some((emit, consume)) => {
            let rest = text.skip(consume as int);
            law_clauses_reproduce_text(rest, min_len, max_len);
            let p = pieces(text, min_len, max_len);
            let q = pieces(rest, min_len, max_len);
            assert(p.subrange(1, p.len() as int) =~= q);
            assert(p[0].0 + p[0].1 + rest =~= text);
            assert(glued(p) + remainder(rest, min_len, max_len) =~= p[0].0 + p[0].1 + (glued(q)
                + remainder(rest, min_len, max_len)));
            lemma_boundary_end(text, min_len, 0);
            if text.len() > max_len {
                lemma_last_white(text, max_len);
            }
            assert forall|i: int| #![trigger p[i]] 0 <= i < p.len() implies {
                ||| p[i].1.len() == 0
                ||| p[i].1.len() == 1 && crate::text::is_white(p[i].1[0]) && p[i].0.len() < max_len
            } by {
                if i > 0 {
                    assert(p[i] == q[i - 1]);
                }
            }
        },
    }
}

/// After a push the buffer holds at most `max_len` characters, and no clause
/// in it is complete.
pub proof fn law_nothing_complete_waits(text: Seq<char>, min_len: nat, max_len: nat)
    requires
        max_len > 0,
    ensures
        remainder(text, min_len, max_len).len() <= max_len,
        forall|i: int|
            0 <= i < remainder(text, min_len, max_len).len() && i + 1 >= min_len ==> !is_boundary(
                #[trigger] remainder(text, min_len, max_len)[i],
            ),
    decreases text.len(),
{
    lemma_cut_bounds(text, min_len, max_len);
    match cut_of(text, min_len, max_len) {
        None => {
            lemma_boundary_end(text, min_len, 0);
        },
        Some((_, consume)) => {
            law_nothing_complete_waits(text.skip(consume as int), min_len, max_len);
        },
    }
}

/// Texts one behind the other.
pub open spec fn whole(parts: Seq<Seq<char>>) -> Seq<char>
    decreases parts.len(),
{
    if parts.len() == 0 {
        Seq::empty()
    } else {
        whole(parts.drop_last()) + parts.last()
    }
}

/// The clauses that a fresh splitter has returned after a run of pushes, and
/// the text that waits.
pub open spec fn after_pushes(chunks: Seq<Seq<char>>, min_len: nat, max_len: nat) -> (
    Seq<Seq<char>>,
    Seq<char>,
)
    decreases chunks.len(),
{
    if chunks.len() == 0 {
        (Seq::empty(), Seq::empty())
    } else {
        let (out, pending) = after_pushes(chunks.drop_last(), min_len, max_len);
        let buf = pending + chunks.last();
        (out + clauses_of(pieces(buf, min_len, max_len)), remainder(buf, min_len, max_len))
    }
}

/// What a flush adds to the clauses: the text that waits, unless it is blank.
pub open spec fn flushed(pending: Seq<char>) -> Seq<Seq<char>> {
    if trimmed(pending).len() == 0 {
        Seq::empty()
    } else {
        seq![pending]
    }
}

/// All clauses of a run of pushes and the flush behind it.
pub open spec fn all_clauses(chunks: Seq<Seq<char>>, min_len: nat, max_len: nat) -> Seq<Seq<char>> {
    let (out, pending) = after_pushes(chunks, min_len, max_len);
    out + flushed(pending)
}

/// Whether none of these clauses is empty.
pub open spec fn none_empty(clauses: Seq<Seq<char>>) -> bool {
    forall|i: int| 0 <= i < clauses.len() ==> (#[trigger] clauses[i]).len() > 0
}

/// Texts in two lists, one behind the other.
pub proof fn lemma_whole_add(a: Seq<Seq<char>>, b: Seq<Seq<char>>)
    ensures
        whole(a + b) == whole(a) + whole(b),
    decreases b.len(),
{
    if b.len() == 0 {
        assert(a + b =~= a);
        assert(whole(a) + whole(b) =~= whole(a));
    } else {
        assert((a + b).drop_last() =~= a + b.drop_last());
        lemma_whole_add(a, b.drop_last());
        assert(whole(a + b) =~= whole(a) + whole(b));
    }
}

proof fn lemma_whole_one(s: Seq<char>)
    ensures
        whole(seq![s]) == s,
{
    let one = seq![s];
    assert(one.drop_last() =~= Seq::<Seq<char>>::empty());
    assert(whole(one.drop_last()) =~= Seq::<char>::empty());
    assert(whole(one) =~= s);
}

/// Whether nothing but white space was dropped behind the pieces.
spec fn drops_white(p: Seq<(Seq<char>, Seq<char>)>) -> bool {
    forall|i: int, j: int|
        0 <= i < p.len() && 0 <= j < p[i].1.len() ==> crate::text::is_white(#[trigger] p[i].1[j])
}

proof fn lemma_clauses(p: Seq<(Seq<char>, Seq<char>)>)
    requires
        drops_white(p),
    ensures
        none_empty(clauses_of(p)),
        letters(whole(clauses_of(p))) == letters(glued(p)),
        (forall|i: int| 0 <= i < p.len() ==> (#[trigger] p[i]).1.len() == 0) ==> whole(
            clauses_of(p),
        ) == glued(p),
    decreases p.len(),
{
    if p.len() > 0 {
        let q = p.subrange(1, p.len() as int);
        assert forall|i: int, j: int| 0 <= i < q.len() && 0 <= j < q[i].1.len() implies
            crate::text::is_white(#[trigger] q[i].1[j]) by {
            assert(q[i] == p[i + 1]);
            assert(crate::text::is_white(p[i + 1].1[j]));
        }
        lemma_clauses(q);
        let (clause, gap) = p[0];
        let rest = clauses_of(q);
        assert forall|j: int| 0 <= j < gap.len() implies crate::text::is_white(
            #[trigger] gap[j],
        ) by {
            assert(crate::text::is_white(p[0].1[j]));
        }
        lemma_letters_add(clause + gap, glued(q));
        lemma_letters_add(clause, gap);
        lemma_letters_white(gap);
        assert(letters(clause) + Seq::<char>::empty() =~= letters(clause));
        if clause.len() == 0 {
            assert(clause =~= Seq::empty());
            assert(letters(clause) =~= Seq::empty());
            assert(letters(clause) + letters(glued(q)) =~= letters(glued(q)));
        } else {
            lemma_whole_add(seq![clause], rest);
            lemma_whole_one(clause);
            lemma_letters_add(clause, whole(rest));
            let all = seq![clause] + rest;
            assert forall|i: int| 0 <= i < all.len() implies (#[trigger] all[i]).len() > 0 by {
                if i > 0 {
                    assert(all[i] == rest[i - 1]);
                }
            }
        }
        if forall|i: int| 0 <= i < p.len() ==> (#[trigger] p[i]).1.len() == 0 {
            assert(gap.len() == 0) by {
                assert(p[0].1.len() == 0);
            }
            assert forall|i: int| 0 <= i < q.len() implies (#[trigger] q[i]).1.len() == 0 by {
                assert(q[i] == p[i + 1]);
            }
            assert(clause + gap + glued(q) =~= clause + glued(q));
        }
    }
}

proof fn lemma_pieces(buf: Seq<char>, min_len: nat, max_len: nat)
    requires
        max_len > 0,
    ensures
        drops_white(pieces(buf, min_len, max_len)),
        buf.len() <= max_len ==> forall|i: int|
            0 <= i < pieces(buf, min_len, max_len).len() ==> (#[trigger] pieces(
                buf,
                min_len,
                max_len,
            )[i]).1.len() == 0,
    decreases buf.len(),
{
    lemma_cut_bounds(buf, min_len, max_len);
    lemma_boundary_end(buf, min_len, 0);
    if buf.len() > max_len {
        lemma_last_white(buf, max_len);
    }
    if let Some((emit, consume)) = cut_of(buf, min_len, max_len) {
        let rest = buf.skip(consume as int);
        lemma_pieces(rest, min_len, max_len);
        let p = pieces(buf, min_len, max_len);
        let q = pieces(rest, min_len, max_len);
        assert(p =~= seq![(buf.take(emit as int), buf.subrange(emit as int, consume as int))] + q);
        assert forall|i: int, j: int| 0 <= i < p.len() && 0 <= j < p[i].1.len() implies
            crate::text::is_white(#[trigger] p[i].1[j]) by {
            if i > 0 {
                assert(p[i] == q[i - 1]);
                assert(crate::text::is_white(q[i - 1].1[j]));
            } else {
                assert(j == 0);
                assert(p[0].1[0] == buf[emit as int]);
            }
        }
        if buf.len() <= max_len {
            assert forall|i: int| 0 <= i < p.len() implies (#[trigger] p[i]).1.len() == 0 by {
                if i > 0 {
                    assert(p[i] == q[i - 1]);
                }
            }
        }
    }
}

/// Over any run of pushes to a fresh splitter no clause is empty, and nothing
/// but white space is lost, added or put elsewhere. Where the whole text has
/// no more than `max_len` characters, not even that: the clauses and what
/// waits make it up.
pub proof fn law_runs_reproduce_text(chunks: Seq<Seq<char>>, min_len: nat, max_len: nat)
    requires
        max_len > 0,
    ensures
        ({
            let (out, pending) = after_pushes(chunks, min_len, max_len);
            &&& none_empty(out)
            &&& letters(whole(out)) + letters(pending) == letters(whole(chunks))
            &&& whole(chunks).len() <= max_len ==> whole(out) + pending == whole(chunks)
        }),
    decreases chunks.len(),
{
    let text = whole(chunks);
    if chunks.len() == 0 {
        assert(letters(whole(chunks)) + letters(Seq::<char>::empty()) =~= letters(text));
        assert(whole(chunks) + Seq::<char>::empty() =~= text);
    } else {
        let (out, pending) = after_pushes(chunks.drop_last(), min_len, max_len);
        let before = whole(chunks.drop_last());
        let chunk = chunks.last();
        let buf = pending + chunk;
        let p = pieces(buf, min_len, max_len);
        let rest = remainder(buf, min_len, max_len);
        let more = clauses_of(p);
        law_runs_reproduce_text(chunks.drop_last(), min_len, max_len);
        law_clauses_reproduce_text(buf, min_len, max_len);
        lemma_pieces(buf, min_len, max_len);
        lemma_clauses(p);
        lemma_whole_add(out, more);
        assert forall|i: int| 0 <= i < (out + more).len() implies (#[trigger] (out + more)[i]).len()
            > 0 by {
            if i < out.len() {
                assert((out + more)[i] == out[i]);
            } else {
                assert((out + more)[i] == more[i - out.len()]);
            }
        }
        lemma_letters_add(whole(out), whole(more));
        lemma_letters_add(pending, chunk);
        lemma_letters_add(glued(p), rest);
        lemma_letters_add(before, chunk);
        assert(letters(whole(out)) + letters(whole(more)) + letters(rest) =~= letters(whole(out))
            + (letters(whole(more)) + letters(rest)));
        assert(letters(whole(out)) + (letters(pending) + letters(chunk)) =~= letters(whole(out))
            + letters(pending) + letters(chunk));
        if text.len() <= max_len {
            assert(whole(out) + pending == before);
            assert(buf.len() <= max_len);
            assert(whole(more) == glued(p));
            assert(whole(out) + whole(more) + rest =~= whole(out) + (glued(p) + rest));
            assert(whole(out) + (pending + chunk) =~= whole(out) + pending + chunk);
        }
    }
}

proof fn lemma_blank(s: Seq<char>)
    requires
        trimmed(s).len() == 0,
    ensures
        letters(s) == Seq::<char>::empty(),
{
    crate::text::lemma_trim_start(s);
    let rest = crate::text::trim_start(s);
    crate::text::lemma_trim_end(rest);
    if rest.len() > 0 {
        assert(crate::text::is_white(rest[0]));
    }
    lemma_letters_white(s);
}

/// The same with the flush at the end: no clause is empty, and all clauses
/// together are the text without its white space. Where the text has no more
/// than `max_len` characters they are the text itself, but for a rest that is
/// blank, which is dropped.
pub proof fn law_streams_reproduce_text(chunks: Seq<Seq<char>>, min_len: nat, max_len: nat)
    requires
        max_len > 0,
    ensures
        none_empty(all_clauses(chunks, min_len, max_len)),
        letters(whole(all_clauses(chunks, min_len, max_len))) == letters(whole(chunks)),
        whole(chunks).len() <= max_len ==> {
            let pending = after_pushes(chunks, min_len, max_len).1;
            whole(chunks) == whole(all_clauses(chunks, min_len, max_len)) + (if trimmed(
                pending,
            ).len() == 0 {
                pending
            } else {
                Seq::empty()
            })
        },
{
    law_runs_reproduce_text(chunks, min_len, max_len);
    let (out, pending) = after_pushes(chunks, min_len, max_len);
    lemma_whole_add(out, flushed(pending));
    lemma_letters_add(whole(out), whole(flushed(pending)));
    let all = all_clauses(chunks, min_len, max_len);
    if trimmed(pending).len() == 0 {
        lemma_blank(pending);
        assert(out + flushed(pending) =~= out);
        assert(letters(whole(out)) + letters(pending) =~= letters(whole(out)));
    } else {
        lemma_whole_one(pending);
        crate::text::lemma_trim_start(pending);
        crate::text::lemma_trim_end(crate::text::trim_start(pending));
        assert(pending.len() > 0);
        assert(whole(all) + Seq::<char>::empty() =~= whole(all));
    }
    assert forall|i: int| 0 <= i < all.len() implies (#[trigger] all[i]).len() > 0 by {
        if i < out.len() {
            assert(all[i] == out[i]);
        }
    }
}

/// Whether the character at `i` ends a clause: it is a full stop, a question
/// mark, an exclamation mark or a comma, and the clause has its least length.
pub open spec fn ends_clause(text: Seq<char>, min_len: nat, i: int) -> bool {
    (text[i] == '.' || text[i] == '?' || text[i] == '!' || text[i] == ',') && i + 1 >= min_len
}

/// A clause goes up to the first mark that ends one, and has that mark at its
/// end.
pub proof fn law_clauses_end_at_the_first_mark(text: Seq<char>, min_len: nat, max_len: nat, i: int)
    requires
        max_len > 0,
        0 <= i < text.len(),
        ends_clause(text, min_len, i),
        forall|j: int| 0 <= j < i ==> !#[trigger] ends_clause(text, min_len, j),
    ensures
        clauses_of(pieces(text, min_len, max_len)) == seq![text.take(i + 1)] + clauses_of(
            pieces(text.skip(i + 1), min_len, max_len),
        ),
        remainder(text, min_len, max_len) == remainder(text.skip(i + 1), min_len, max_len),
{
    lemma_boundary_end(text, min_len, 0);
    assert forall|j: int| 0 <= j < text.len() implies #[trigger] ends_clause(text, min_len, j) == (
    is_boundary(text[j]) && j + 1 >= min_len) by {}
    assert(is_boundary(text[i]));
    let end = boundary_end(text, min_len, 0)->0;
    assert(end == i + 1) by {
        if end < i + 1 {
            assert(!ends_clause(text, min_len, end - 1));
        }
    }
    let p = pieces(text, min_len, max_len);
    let q = pieces(text.skip(i + 1), min_len, max_len);
    assert(p.subrange(1, p.len() as int) =~= q);
    assert(p[0].0 == text.take(i + 1));
}

/// Text without such a mark waits while it is no longer than `max_len`. A longer
/// one is cut: at the last white space among its first `max_len` characters,
/// which is dropped, and behind those characters where they have none.
pub proof fn law_long_text_is_cut_at_a_space(text: Seq<char>, min_len: nat, max_len: nat, w: int)
    requires
        max_len > 0,
        forall|j: int| 0 <= j < text.len() ==> !#[trigger] ends_clause(text, min_len, j),
    ensures
        text.len() <= max_len ==> clauses_of(pieces(text, min_len, max_len)) == Seq::<
            Seq<char>,
        >::empty() && remainder(text, min_len, max_len) == text,
        text.len() > max_len && 0 < w < max_len && crate::text::is_white(text[w]) && (forall|j: int|
            w < j < max_len ==> !crate::text::is_white(#[trigger] text[j])) ==> clauses_of(
            pieces(text, min_len, max_len),
        ) == seq![text.take(w)] + clauses_of(pieces(text.skip(w + 1), min_len, max_len))
            && remainder(text, min_len, max_len) == remainder(
            text.skip(w + 1),
            min_len,
            max_len,
        ),
        text.len() > max_len && (forall|j: int|
            0 <= j < max_len ==> !crate::text::is_white(#[trigger] text[j])) ==> clauses_of(
            pieces(text, min_len, max_len),
        ) == seq![text.take(max_len as int)] + clauses_of(
            pieces(text.skip(max_len as int), min_len, max_len),
        ) && remainder(text, min_len, max_len) == remainder(
            text.skip(max_len as int),
            min_len,
            max_len,
        ),
{
    lemma_boundary_end(text, min_len, 0);
    assert(boundary_end(text, min_len, 0) is None) by {
        if let Some(end) = boundary_end(text, min_len, 0) {
            assert(!ends_clause(text, min_len, end - 1));
        }
    }
    let p = pieces(text, min_len, max_len);
    if text.len() > max_len {
        lemma_last_white(text, max_len);
        let (emit, consume) = cut_of(text, min_len, max_len)->0;
        lemma_cut_bounds(text, min_len, max_len);
        let q = pieces(text.skip(consume as int), min_len, max_len);
        assert(p.subrange(1, p.len() as int) =~= q);
        assert(p[0].0 == text.take(emit as int));
    } else {
        assert(clauses_of(p) =~= Seq::empty());
    }
}

/// A push loses nothing but white space: the clauses that it completes and what
/// waits have the letters of what waited and what was pushed, in order, and no
/// clause is empty.
pub proof fn law_push_keeps_the_letters(buf: Seq<char>, min_len: nat, max_len: nat)
    requires
        max_len > 0,
    ensures
        none_empty(clauses_of(pieces(buf, min_len, max_len))),
        letters(whole(clauses_of(pieces(buf, min_len, max_len)))) + letters(
            remainder(buf, min_len, max_len),
        ) == letters(buf),
{
    let p = pieces(buf, min_len, max_len);
    lemma_pieces(buf, min_len, max_len);
    lemma_clauses(p);
    law_clauses_reproduce_text(buf, min_len, max_len);
    lemma_letters_add(glued(p), remainder(buf, min_len, max_len));
}

} // verus!
