//! Documents in chunks: paragraphs, of which long ones are packed word by
//! word.

use vstd::prelude::*;

use crate::text::{
    ascii_lower, char_lists, chars_of, lemma_letters_add, lemma_letters_white, letters, lines,
    lines_of, split_words, str_eq, string_of, strs, to_ascii_lower, trim_bounds, trimmed, words,
};

verus! {

/// Maximum characters per chunk.
pub const MAX_CHUNK_CHARS: usize = 512;

// ---------------------------------------------------------------------------
// Paragraphs
// ---------------------------------------------------------------------------

/// The finished paragraphs of lines, and the one that is being read.
pub open spec fn reading(all: Seq<Seq<char>>) -> (Seq<Seq<char>>, Seq<char>)
    decreases all.len(),
{
    if all.len() == 0 {
        (Seq::empty(), Seq::empty())
    } else {
        let (out, cur) = reading(all.drop_last());
        let line = trimmed(all.last());
        if line.len() == 0 {
            if cur.len() > 0 {
                (out.push(cur), Seq::empty())
            } else {
                (out, cur)
            }
        } else if cur.len() > 0 {
            (out, cur + " "@ + line)
        } else {
            (out, line)
        }
    }
}

/// The paragraphs of a text: its lines between blank ones, joined with a
/// space.
pub open spec fn paragraphs(text: Seq<char>) -> Seq<Seq<char>> {
    let (out, cur) = reading(lines(text));
    if cur.len() > 0 {
        out.push(cur)
    } else {
        out
    }
}

fn trimmed_chars(v: &Vec<char>) -> (r: String)
    ensures
        r@ == trimmed(v@),
{
    let (a, b) = trim_bounds(v);
    string_of(v, a, b)
}

/// Splits on blank lines, joining wrapped lines within a paragraph with a
/// space. (`"a\nb\n\nc\nd"` → `["a b", "c d"]`.)
pub fn split_paragraphs(text: &str) -> (r: Vec<String>)
    ensures
        strs(r@) == paragraphs(text@),
{
    let all = lines_of(&chars_of(text));
    let ghost view = char_lists(all@);
    let mut out: Vec<String> = Vec::new();
    let mut cur: String = String::new();
    let mut i: usize = 0;
    proof {
        assert(strs(out@) =~= Seq::empty());
        assert(cur@ =~= Seq::empty());
        assert(view.take(0) =~= Seq::empty());
    }
    while i < all.len()
        invariant
            view == char_lists(all@),
            i <= all@.len(),
            (strs(out@), cur@) == reading(view.take(i as int)),
        decreases all@.len() - i,
    {
        proof {
            assert(view.take(i + 1).drop_last() =~= view.take(i as int));
            assert(view.take(i + 1).last() == all@[i as int]@);
        }
        let line = trimmed_chars(&all[i]);
        if line.as_str().unicode_len() == 0 {
            if cur.as_str().unicode_len() > 0 {
                let ghost before = out@;
                out.push(cur);
                assert(strs(out@) =~= strs(before).push(cur@));
                cur = String::new();
                assert(cur@ =~= Seq::empty());
            }
        } else {
            if cur.as_str().unicode_len() > 0 {
                cur.append(" ");
                cur.append(line.as_str());
            } else {
                cur = line;
            }
        }
        i += 1;
    }
    assert(view.take(view.len() as int) =~= view);
    if cur.as_str().unicode_len() > 0 {
        let ghost before = out@;
        out.push(cur);
        assert(strs(out@) =~= strs(before).push(cur@));
    }
    out
}

// ---------------------------------------------------------------------------
// Packing
// ---------------------------------------------------------------------------

/// A word hard-split at every `max` characters: the full pieces, and what is
/// left.
pub open spec fn hard_split(w: Seq<char>, max: nat) -> (Seq<Seq<char>>, Seq<char>)
    decreases w.len(),
{
    if max == 0 || w.len() < max {
        (Seq::empty(), w)
    } else {
        let (rest, left) = hard_split(w.skip(max as int), max);
        (seq![w.take(max as int)] + rest, left)
    }
}

/// The finished chunks of words, and the one that is being filled.
pub open spec fn packing(ws: Seq<Seq<char>>, max: nat) -> (Seq<Seq<char>>, Seq<char>)
    decreases ws.len(),
{
    if ws.len() == 0 {
        (Seq::empty(), Seq::empty())
    } else {
        let (chunks, cur) = packing(ws.drop_last(), max);
        let w = ws.last();
        if cur.len() == 0 && w.len() <= max {
            (chunks, w)
        } else if cur.len() > 0 && cur.len() + 1 + w.len() <= max {
            (chunks, cur + " "@ + w)
        } else {
            let closed = if cur.len() > 0 {
                chunks.push(cur)
            } else {
                chunks
            };
            if w.len() <= max {
                (closed, w)
            } else {
                let (full, left) = hard_split(w, max);
                (closed + full, left)
            }
        }
    }
}

/// The words of a text in chunks of at most `max` characters.
pub open spec fn packed(text: Seq<char>, max: nat) -> Seq<Seq<char>> {
    let (chunks, cur) = packing(words(text), max);
    if cur.len() > 0 {
        chunks.push(cur)
    } else {
        chunks
    }
}

/// Splits a word at every `max` characters; the full pieces go to `chunks`,
/// what is left is returned.
fn split_hard(w: &Vec<char>, max: usize, chunks: &mut Vec<String>) -> (r: String)
    requires
        max > 0,
    ensures
        strs(final(chunks)@) == strs(old(chunks)@) + hard_split(w@, max as nat).0,
        r@ == hard_split(w@, max as nat).1,
{
    let ghost start = strs(chunks@);
    let ghost whole = hard_split(w@, max as nat);
    let mut i: usize = 0;
    assert(w@.skip(0) =~= w@);
    while w.len() - i >= max
        invariant
            max > 0,
            i <= w@.len(),
            whole == hard_split(w@, max as nat),
            start + whole.0 == strs(chunks@) + hard_split(w@.skip(i as int), max as nat).0,
            whole.1 == hard_split(w@.skip(i as int), max as nat).1,
        decreases w@.len() - i,
    {
        let piece = string_of(w, i, i + max);
        let ghost rest = w@.skip(i as int);
        let ghost before = strs(chunks@);
        proof {
            assert(rest.take(max as int) =~= piece@);
            assert(rest.skip(max as int) =~= w@.skip(i + max));
        }
        chunks.push(piece);
        assert(strs(chunks@) =~= before.push(piece@));
        assert(before + hard_split(rest, max as nat).0 =~= strs(chunks@) + hard_split(
            w@.skip(i + max),
            max as nat,
        ).0);
        i += max;
    }
    proof {
        let rest = w@.skip(i as int);
        assert(strs(chunks@) + hard_split(rest, max as nat).0 =~= strs(chunks@));
        assert(w@.subrange(i as int, w@.len() as int) =~= rest);
    }
    string_of(w, i, w.len())
}

/// Packs whitespace-separated words into ≤ `max`-char chunks (by char count);
/// a single word longer than `max` is hard-split at `max` chars.
pub fn pack_words(text: &str, max: usize) -> (r: Vec<String>)
    requires
        max > 0,
    ensures
        strs(r@) == packed(text@, max as nat),
{
    let ws = split_words(&chars_of(text));
    let ghost view = char_lists(ws@);
    let mut chunks: Vec<String> = Vec::new();
    let mut cur: String = String::new();
    let mut i: usize = 0;
    proof {
        assert(strs(chunks@) =~= Seq::empty());
        assert(cur@ =~= Seq::empty());
        assert(view.take(0) =~= Seq::empty());
    }
    while i < ws.len()
        invariant
            max > 0,
            view == char_lists(ws@),
            i <= ws@.len(),
            (strs(chunks@), cur@) == packing(view.take(i as int), max as nat),
        decreases ws@.len() - i,
    {
        proof {
            assert(view.take(i + 1).drop_last() =~= view.take(i as int));
            assert(view.take(i + 1).last() == ws@[i as int]@);
        }
        let len: usize = ws[i].len();
        let used: usize = cur.as_str().unicode_len();
        if used == 0 && len <= max {
            cur = string_of(&ws[i], 0, len);
            assert(cur@ =~= ws@[i as int]@);
        } else if used > 0 && used < max && len <= max - used - 1 {
            let word = string_of(&ws[i], 0, len);
            assert(word@ =~= ws@[i as int]@);
            cur.append(" ");
            cur.append(word.as_str());
        } else {
            if used > 0 {
                let ghost before = chunks@;
                chunks.push(cur);
                assert(strs(chunks@) =~= strs(before).push(cur@));
            }
            if len <= max {
                cur = string_of(&ws[i], 0, len);
                assert(cur@ =~= ws@[i as int]@);
            } else {
                cur = split_hard(&ws[i], max, &mut chunks);
            }
        }
        i += 1;
    }
    assert(view.take(view.len() as int) =~= view);
    if cur.as_str().unicode_len() > 0 {
        let ghost before = chunks@;
        chunks.push(cur);
        assert(strs(chunks@) =~= strs(before).push(cur@));
    }
    chunks
}

// ---------------------------------------------------------------------------
// Chunks
// ---------------------------------------------------------------------------

/// The chunks of a paragraph.
pub open spec fn paragraph_chunks(para: Seq<char>) -> Seq<Seq<char>> {
    let p = trimmed(para);
    if p.len() == 0 {
        Seq::empty()
    } else if p.len() <= MAX_CHUNK_CHARS {
        seq![p]
    } else {
        packed(p, MAX_CHUNK_CHARS as nat)
    }
}

/// The chunks of paragraphs, one behind the other.
pub open spec fn all_chunks(paras: Seq<Seq<char>>) -> Seq<Seq<char>>
    decreases paras.len(),
{
    if paras.len() == 0 {
        Seq::empty()
    } else {
        all_chunks(paras.drop_last()) + paragraph_chunks(paras.last())
    }
}

/// The chunks of a text.
pub open spec fn chunks_of(text: Seq<char>) -> Seq<Seq<char>> {
    all_chunks(paragraphs(text))
}

fn push_all(out: &mut Vec<String>, more: Vec<String>)
    ensures
        strs(final(out)@) == strs(old(out)@) + strs(more@),
{
    let mut rest = more;
    let ghost before = out@;
    out.append(&mut rest);
    assert(strs(out@) =~= strs(before) + strs(more@));
}

/// Splits `text` into paragraph chunks, then packs long paragraphs into
/// ≤ [`MAX_CHUNK_CHARS`]-char pieces.
pub fn chunk_text(text: &str) -> (r: Vec<String>)
    ensures
        strs(r@) == chunks_of(text@),
{
    let paras = split_paragraphs(text);
    let ghost view = strs(paras@);
    let mut out: Vec<String> = Vec::new();
    let mut i: usize = 0;
    assert(strs(out@) =~= all_chunks(view.take(0)));
    while i < paras.len()
        invariant
            view == strs(paras@),
            i <= paras@.len(),
            strs(out@) == all_chunks(view.take(i as int)),
        decreases paras@.len() - i,
    {
        proof {
            assert(view.take(i + 1).drop_last() =~= view.take(i as int));
            assert(view.take(i + 1).last() == paras@[i as int]@);
        }
        let para = trimmed_chars(&chars_of(paras[i].as_str()));
        let n: usize = para.as_str().unicode_len();
        let ghost before = out@;
        if n == 0 {
            assert(strs(out@) + Seq::<Seq<char>>::empty() =~= strs(out@));
        } else if n <= MAX_CHUNK_CHARS {
            out.push(para);
            assert(strs(out@) =~= strs(before) + seq![para@]);
        } else {
            push_all(&mut out, pack_words(para.as_str(), MAX_CHUNK_CHARS));
        }
        i += 1;
    }
    assert(view.take(view.len() as int) =~= view);
    out
}

/// The chunks of documents, one behind the other; documents that could not be
/// read are skipped.
pub open spec fn document_chunks(docs: Seq<Option<String>>) -> Seq<Seq<char>>
    decreases docs.len(),
{
    if docs.len() == 0 {
        Seq::empty()
    } else {
        document_chunks(docs.drop_last()) + match docs.last() {
            Some(text) => chunks_of(text@),
            None => Seq::empty(),
        }
    }
}

/// The chunks of documents in the order of their paths. Unreadable documents
/// (`None`) are skipped.
pub fn load_documents(docs: &Vec<Option<String>>) -> (r: Vec<String>)
    ensures
        strs(r@) == document_chunks(docs@),
{
    let mut out: Vec<String> = Vec::new();
    let mut i: usize = 0;
    assert(strs(out@) =~= document_chunks(docs@.take(0)));
    while i < docs.len()
        invariant
            i <= docs@.len(),
            strs(out@) == document_chunks(docs@.take(i as int)),
        decreases docs@.len() - i,
    {
        assert(docs@.take(i + 1).drop_last() =~= docs@.take(i as int));
        match &docs[i] {
            Some(text) => push_all(&mut out, chunk_text(text.as_str())),
            None => {
                assert(strs(out@) + Seq::<Seq<char>>::empty() =~= strs(out@));
            },
        }
        i += 1;
    }
    assert(docs@.take(docs@.len() as int) =~= docs@);
    out
}

/// Whether a file extension is one of documents.
pub open spec fn is_doc_extension(extension: Option<Seq<char>>) -> bool {
    match extension {
        Some(e) => ascii_lower(e) == "txt"@ || ascii_lower(e) == "md"@,
        None => false,
    }
}

/// `true` for `.txt`/`.md` extensions (case-insensitive).
pub fn is_text_doc(extension: Option<&str>) -> (r: bool)
    ensures
        r == is_doc_extension(
            match extension {
                Some(e) => Some(e@),
                None => None,
            },
        ),
{
    match extension {
        Some(e) => {
            let v = chars_of(e);
            let lower = to_ascii_lower(&v, 0, v.len());
            assert(v@.subrange(0, v@.len() as int) =~= e@);
            str_eq(lower.as_str(), "txt") || str_eq(lower.as_str(), "md")
        },
        None => false,
    }
}

/// What to do with a directory entry.
#[derive(Debug, Clone, Copy, PartialEq, Eq, Structural)]
pub enum WalkStep {
    /// Walk into it.
    Descend,
    /// Take it as a document.
    Collect,
    /// Leave it out.
    Skip,
}

/// What a directory walk does with an entry. Symbolic links, which are neither
/// directories nor files, are not followed.
pub fn walk_step(is_dir: bool, is_file: bool, extension: Option<&str>) -> (r: WalkStep)
    ensures
        r == (if is_dir {
            WalkStep::Descend
        } else if is_file && is_doc_extension(
            match extension {
                Some(e) => Some(e@),
                None => None,
            },
        ) {
            WalkStep::Collect
        } else {
            WalkStep::Skip
        }),
{
    if is_dir {
        WalkStep::Descend
    } else if is_file && is_text_doc(extension) {
        WalkStep::Collect
    } else {
        WalkStep::Skip
    }
}

// ---------------------------------------------------------------------------
// Laws
// ---------------------------------------------------------------------------

/// The characters of all texts that are no white space, in order.
pub open spec fn all_letters(parts: Seq<Seq<char>>) -> Seq<char>
    decreases parts.len(),
{
    if parts.len() == 0 {
        Seq::empty()
    } else {
        all_letters(parts.drop_last()) + letters(parts.last())
    }
}

proof fn lemma_letters_word(s: Seq<char>)
    requires
        forall|i: int| 0 <= i < s.len() ==> !crate::text::is_white(#[trigger] s[i]),
    ensures
        letters(s) == s,
    decreases s.len(),
{
    if s.len() > 0 {
        assert(!crate::text::is_white(s[s.len() - 1]));
        assert forall|i: int| 0 <= i < s.drop_last().len() implies !crate::text::is_white(
            #[trigger] s.drop_last()[i],
        ) by {
            assert(s.drop_last()[i] == s[i]);
        }
        lemma_letters_word(s.drop_last());
        assert(letters(s) =~= s);
    } else {
        assert(letters(s) =~= s);
    }
}

proof fn lemma_all_letters_add(a: Seq<Seq<char>>, b: Seq<Seq<char>>)
    ensures
        all_letters(a + b) == all_letters(a) + all_letters(b),
    decreases b.len(),
{
    if b.len() == 0 {
        assert(a + b =~= a);
        assert(all_letters(a) + all_letters(b) =~= all_letters(a));
    } else {
        assert((a + b).drop_last() =~= a + b.drop_last());
        lemma_all_letters_add(a, b.drop_last());
        assert(all_letters(a + b) =~= all_letters(a) + all_letters(b));
    }
}

proof fn lemma_all_letters_one(s: Seq<char>)
    ensures
        all_letters(seq![s]) == letters(s),
{
    let none = Seq::<Seq<char>>::empty();
    assert(none.push(s) =~= seq![s]);
    lemma_all_letters_push(none, s);
    assert(all_letters(none) + letters(s) =~= letters(s));
}

proof fn lemma_all_letters_push(a: Seq<Seq<char>>, s: Seq<char>)
    ensures
        all_letters(a.push(s)) == all_letters(a) + letters(s),
{
    assert(a.push(s).drop_last() =~= a);
}

proof fn lemma_letters_trim_start(s: Seq<char>)
    ensures
        letters(crate::text::trim_start(s)) == letters(s),
    decreases s.len(),
{
    if s.len() > 0 && crate::text::is_white(s[0]) {
        let rest = s.subrange(1, s.len() as int);
        lemma_letters_trim_start(rest);
        assert(s =~= seq![s[0]] + rest);
        lemma_letters_add(seq![s[0]], rest);
        lemma_letters_white(seq![s[0]]);
        assert(Seq::<char>::empty() + letters(rest) =~= letters(rest));
    }
}

proof fn lemma_letters_trim_end(s: Seq<char>)
    ensures
        letters(crate::text::trim_end(s)) == letters(s),
    decreases s.len(),
{
    if s.len() > 0 && crate::text::is_white(s.last()) {
        lemma_letters_trim_end(s.drop_last());
    }
}

proof fn lemma_letters_trimmed(s: Seq<char>)
    ensures
        letters(trimmed(s)) == letters(s),
{
    lemma_letters_trim_start(s);
    lemma_letters_trim_end(crate::text::trim_start(s));
}

proof fn lemma_letters_words(s: Seq<char>)
    ensures
        all_letters(words(s)) == letters(s),
    decreases s.len(),
{
    if s.len() == 0 {
        assert(words(s) =~= Seq::empty());
    } else if crate::text::is_white(s[0]) {
        let rest = s.subrange(1, s.len() as int);
        lemma_letters_words(rest);
        assert(s =~= seq![s[0]] + rest);
        lemma_letters_add(seq![s[0]], rest);
        lemma_letters_white(seq![s[0]]);
        assert(Seq::<char>::empty() + letters(rest) =~= letters(rest));
    } else {
        crate::text::lemma_word_run(s);
        let n = crate::text::word_run(s) as int;
        lemma_letters_words(s.skip(n));
        assert(s =~= s.take(n) + s.skip(n));
        lemma_letters_add(s.take(n), s.skip(n));
        lemma_all_letters_add(seq![s.take(n)], words(s.skip(n)));
        lemma_all_letters_one(s.take(n));
    }
}

proof fn lemma_letters_split(s: Seq<char>)
    ensures
        all_letters(crate::text::split_on(s, '\n')) == letters(s),
    decreases s.len(),
{
    crate::text::lemma_until(s, '\n');
    let n = crate::text::until(s, '\n') as int;
    if n >= s.len() {
        lemma_all_letters_one(s);
    } else {
        let rest = s.skip(n + 1);
        lemma_letters_split(rest);
        lemma_all_letters_add(seq![s.take(n)], crate::text::split_on(rest, '\n'));
        lemma_all_letters_one(s.take(n));
        let feed = seq!['\n'];
        assert(s =~= s.take(n) + (feed + rest));
        lemma_letters_add(s.take(n), feed + rest);
        lemma_letters_add(feed, rest);
        lemma_letters_white(feed);
        assert(Seq::<char>::empty() + letters(rest) =~= letters(rest));
    }
}

proof fn lemma_letters_stripped(parts: Seq<Seq<char>>)
    ensures
        all_letters(parts.map_values(|p: Seq<char>| crate::text::strip_cr(p))) == all_letters(
            parts,
        ),
    decreases parts.len(),
{
    let t = parts.map_values(|p: Seq<char>| crate::text::strip_cr(p));
    if parts.len() > 0 {
        let below = parts.drop_last();
        lemma_letters_stripped(below);
        assert(t.drop_last() =~= below.map_values(|p: Seq<char>| crate::text::strip_cr(p)));
        assert(t.last() == crate::text::strip_cr(parts.last()));
        assert(letters(crate::text::strip_cr(parts.last())) == letters(parts.last()));
    }
}

proof fn lemma_letters_lines(s: Seq<char>)
    ensures
        all_letters(lines(s)) == letters(s),
{
    let parts = crate::text::split_on(s, '\n');
    lemma_letters_split(s);
    crate::text::lemma_until(s, '\n');
    assert(parts.len() > 0);
    let below = parts.drop_last();
    let ended = below.map_values(|p: Seq<char>| crate::text::strip_cr(p));
    lemma_letters_stripped(below);
    if parts.last().len() == 0 {
        assert(letters(parts.last()) =~= Seq::empty());
        assert(all_letters(below) + letters(parts.last()) =~= all_letters(below));
    } else {
        lemma_all_letters_push(ended, parts.last());
    }
}

proof fn lemma_letters_joined(cur: Seq<char>, more: Seq<char>)
    ensures
        letters(cur + " "@ + more) == letters(cur) + letters(more),
{
    reveal_strlit(" ");
    lemma_letters_add(cur + " "@, more);
    lemma_letters_add(cur, " "@);
    lemma_letters_white(" "@);
    assert(letters(cur) + Seq::<char>::empty() =~= letters(cur));
}

proof fn lemma_letters_reading(all: Seq<Seq<char>>)
    ensures
        all_letters(reading(all).0) + letters(reading(all).1) == all_letters(all),
    decreases all.len(),
{
    if all.len() == 0 {
        assert(all_letters(reading(all).0) + letters(reading(all).1) =~= Seq::empty());
    } else {
        lemma_letters_reading(all.drop_last());
        let (out, cur) = reading(all.drop_last());
        let line = trimmed(all.last());
        lemma_letters_trimmed(all.last());
        let none = Seq::<char>::empty();
        if line.len() == 0 {
            assert(letters(line) =~= none);
            lemma_all_letters_push(out, cur);
            assert(all_letters(all) =~= all_letters(all.drop_last()));
            assert(all_letters(out) + letters(cur) + letters(none) =~= all_letters(out) + letters(
                cur,
            ));
        } else if cur.len() > 0 {
            lemma_letters_joined(cur, line);
            assert(all_letters(out) + (letters(cur) + letters(line)) =~= all_letters(out)
                + letters(cur) + letters(line));
        } else {
            assert(letters(cur) =~= none);
            assert(all_letters(out) + letters(cur) =~= all_letters(out));
        }
    }
}

proof fn lemma_letters_paragraphs(text: Seq<char>)
    ensures
        all_letters(paragraphs(text)) == letters(text),
{
    lemma_letters_lines(text);
    lemma_letters_reading(lines(text));
    let (out, cur) = reading(lines(text));
    if cur.len() > 0 {
        lemma_all_letters_push(out, cur);
    } else {
        assert(letters(cur) =~= Seq::empty());
        assert(all_letters(out) + letters(cur) =~= all_letters(out));
    }
}

proof fn lemma_letters_hard_split(w: Seq<char>, max: nat)
    ensures
        all_letters(hard_split(w, max).0) + letters(hard_split(w, max).1) == letters(w),
    decreases w.len(),
{
    if max == 0 || w.len() < max {
        assert(Seq::<char>::empty() + letters(w) =~= letters(w));
    } else {
        let rest = w.skip(max as int);
        let first = w.take(max as int);
        lemma_letters_hard_split(rest, max);
        let (full, left) = hard_split(rest, max);
        lemma_all_letters_add(seq![first], full);
        lemma_all_letters_one(first);
        assert(w =~= first + rest);
        lemma_letters_add(first, rest);
        assert(letters(first) + all_letters(full) + letters(left) =~= letters(first) + (
        all_letters(full) + letters(left)));
    }
}

proof fn lemma_letters_packing(ws: Seq<Seq<char>>, max: nat)
    ensures
        all_letters(packing(ws, max).0) + letters(packing(ws, max).1) == all_letters(ws),
    decreases ws.len(),
{
    if ws.len() == 0 {
        assert(all_letters(packing(ws, max).0) + letters(packing(ws, max).1) =~= Seq::empty());
    } else {
        lemma_letters_packing(ws.drop_last(), max);
        let (chunks, cur) = packing(ws.drop_last(), max);
        let w = ws.last();
        let none = Seq::<char>::empty();
        if cur.len() == 0 {
            assert(letters(cur) =~= none);
            assert(all_letters(chunks) + letters(cur) =~= all_letters(chunks));
        }
        lemma_all_letters_push(chunks, cur);
        if cur.len() > 0 && cur.len() + 1 + w.len() <= max {
            lemma_letters_joined(cur, w);
            assert(all_letters(chunks) + (letters(cur) + letters(w)) =~= all_letters(chunks)
                + letters(cur) + letters(w));
        } else if w.len() > max {
            let closed = if cur.len() > 0 {
                chunks.push(cur)
            } else {
                chunks
            };
            let (full, left) = hard_split(w, max);
            lemma_letters_hard_split(w, max);
            lemma_all_letters_add(closed, full);
            assert(all_letters(closed) + all_letters(full) + letters(left) =~= all_letters(closed)
                + (all_letters(full) + letters(left)));
        }
    }
}

proof fn lemma_letters_packed(text: Seq<char>, max: nat)
    ensures
        all_letters(packed(text, max)) == letters(text),
{
    lemma_letters_words(text);
    lemma_letters_packing(words(text), max);
    let (chunks, cur) = packing(words(text), max);
    if cur.len() > 0 {
        lemma_all_letters_push(chunks, cur);
    } else {
        assert(letters(cur) =~= Seq::empty());
        assert(all_letters(chunks) + letters(cur) =~= all_letters(chunks));
    }
}

proof fn lemma_letters_chunks(paras: Seq<Seq<char>>)
    ensures
        all_letters(all_chunks(paras)) == all_letters(paras),
    decreases paras.len(),
{
    if paras.len() > 0 {
        lemma_letters_chunks(paras.drop_last());
        let p = trimmed(paras.last());
        lemma_letters_trimmed(paras.last());
        lemma_all_letters_add(all_chunks(paras.drop_last()), paragraph_chunks(paras.last()));
        if p.len() == 0 {
            assert(letters(p) =~= Seq::empty());
        } else if p.len() <= MAX_CHUNK_CHARS {
            lemma_all_letters_one(p);
        } else {
            lemma_letters_packed(p, MAX_CHUNK_CHARS as nat);
        }
    }
}

/// Chunking loses and adds nothing but white space: the other characters of
/// the chunks are those of the text, in order.
pub proof fn law_chunks_keep_the_text(text: Seq<char>)
    ensures
        all_letters(chunks_of(text)) == letters(text),
{
    lemma_letters_paragraphs(text);
    lemma_letters_chunks(paragraphs(text));
}

/// The words of all texts, in order.
pub open spec fn all_words(parts: Seq<Seq<char>>) -> Seq<Seq<char>>
    decreases parts.len(),
{
    if parts.len() == 0 {
        Seq::empty()
    } else {
        all_words(parts.drop_last()) + words(parts.last())
    }
}

/// Whether no word is longer than `max` characters.
pub open spec fn none_longer(ws: Seq<Seq<char>>, max: nat) -> bool {
    forall|i: int| 0 <= i < ws.len() ==> (#[trigger] ws[i]).len() <= max
}

proof fn lemma_run_stays(a: Seq<char>, more: Seq<char>)
    requires
        more.len() == 0 || crate::text::is_white(more[0]),
    ensures
        crate::text::word_run(a + more) == crate::text::word_run(a),
    decreases a.len(),
{
    let s = a + more;
    if a.len() == 0 {
        assert(s =~= more);
    } else {
        assert(s[0] == a[0]);
        let rest = a.subrange(1, a.len() as int);
        assert(s.subrange(1, s.len() as int) =~= rest + more);
        lemma_run_stays(rest, more);
    }
}

/// White space parts words.
proof fn lemma_words_parted(a: Seq<char>, gap: char, b: Seq<char>)
    requires
        crate::text::is_white(gap),
    ensures
        words(a + (seq![gap] + b)) == words(a) + words(b),
    decreases a.len(),
{
    let more = seq![gap] + b;
    let s = a + more;
    if a.len() == 0 {
        assert(s =~= more);
        assert(more.subrange(1, more.len() as int) =~= b);
        assert(words(a) + words(b) =~= words(b));
    } else if crate::text::is_white(a[0]) {
        let rest = a.subrange(1, a.len() as int);
        lemma_words_parted(rest, gap, b);
        assert(s[0] == a[0]);
        assert(s.subrange(1, s.len() as int) =~= rest + more);
    } else {
        assert(s[0] == a[0]);
        lemma_run_stays(a, more);
        crate::text::lemma_word_run(a);
        let n = crate::text::word_run(a) as int;
        let rest = a.skip(n);
        lemma_words_parted(rest, gap, b);
        assert(s.take(n) =~= a.take(n));
        assert(s.skip(n) =~= rest + more);
        assert(words(s) =~= words(a) + words(b));
    }
}

proof fn lemma_words_joined(cur: Seq<char>, more: Seq<char>)
    ensures
        words(cur + " "@ + more) == words(cur) + words(more),
{
    reveal_strlit(" ");
    lemma_words_parted(cur, ' ', more);
    assert(cur + " "@ + more =~= cur + (seq![' '] + more));
}

proof fn lemma_words_trim_start(s: Seq<char>)
    ensures
        words(crate::text::trim_start(s)) == words(s),
    decreases s.len(),
{
    if s.len() > 0 && crate::text::is_white(s[0]) {
        lemma_words_trim_start(s.subrange(1, s.len() as int));
    }
}

proof fn lemma_words_trim_end(s: Seq<char>)
    ensures
        words(crate::text::trim_end(s)) == words(s),
    decreases s.len(),
{
    if s.len() > 0 && crate::text::is_white(s.last()) {
        let rest = s.drop_last();
        lemma_words_trim_end(rest);
        lemma_words_parted(rest, s.last(), Seq::empty());
        assert(s =~= rest + (seq![s.last()] + Seq::<char>::empty()));
        assert(words(rest) + words(Seq::<char>::empty()) =~= words(rest));
    }
}

proof fn lemma_words_trimmed(s: Seq<char>)
    ensures
        words(trimmed(s)) == words(s),
{
    lemma_words_trim_start(s);
    lemma_words_trim_end(crate::text::trim_start(s));
}

proof fn lemma_all_words_add(a: Seq<Seq<char>>, b: Seq<Seq<char>>)
    ensures
        all_words(a + b) == all_words(a) + all_words(b),
    decreases b.len(),
{
    if b.len() == 0 {
        assert(a + b =~= a);
        assert(all_words(a) + all_words(b) =~= all_words(a));
    } else {
        assert((a + b).drop_last() =~= a + b.drop_last());
        lemma_all_words_add(a, b.drop_last());
        assert(all_words(a + b) =~= all_words(a) + all_words(b));
    }
}

proof fn lemma_all_words_push(a: Seq<Seq<char>>, s: Seq<char>)
    ensures
        all_words(a.push(s)) == all_words(a) + words(s),
{
    assert(a.push(s).drop_last() =~= a);
}

proof fn lemma_all_words_one(s: Seq<char>)
    ensures
        all_words(seq![s]) == words(s),
{
    let none = Seq::<Seq<char>>::empty();
    assert(none.push(s) =~= seq![s]);
    lemma_all_words_push(none, s);
    assert(all_words(none) + words(s) =~= words(s));
}

proof fn lemma_words_split(s: Seq<char>)
    ensures
        all_words(crate::text::split_on(s, '\n')) == words(s),
    decreases s.len(),
{
    crate::text::lemma_until(s, '\n');
    let n = crate::text::until(s, '\n') as int;
    if n >= s.len() {
        lemma_all_words_one(s);
    } else {
        let rest = s.skip(n + 1);
        lemma_words_split(rest);
        lemma_all_words_add(seq![s.take(n)], crate::text::split_on(rest, '\n'));
        lemma_all_words_one(s.take(n));
        assert(s =~= s.take(n) + (seq!['\n'] + rest));
        lemma_words_parted(s.take(n), '\n', rest);
    }
}

proof fn lemma_words_stripped(parts: Seq<Seq<char>>)
    ensures
        all_words(parts.map_values(|p: Seq<char>| crate::text::strip_cr(p))) == all_words(parts),
    decreases parts.len(),
{
    let t = parts.map_values(|p: Seq<char>| crate::text::strip_cr(p));
    if parts.len() > 0 {
        let below = parts.drop_last();
        lemma_words_stripped(below);
        assert(t.drop_last() =~= below.map_values(|p: Seq<char>| crate::text::strip_cr(p)));
        let last = parts.last();
        assert(t.last() == crate::text::strip_cr(last));
        if last.len() > 0 && last.last() == '\r' {
            let rest = last.drop_last();
            lemma_words_parted(rest, '\r', Seq::empty());
            assert(last =~= rest + (seq!['\r'] + Seq::<char>::empty()));
            assert(words(rest) + words(Seq::<char>::empty()) =~= words(rest));
        }
    }
}

proof fn lemma_words_lines(s: Seq<char>)
    ensures
        all_words(lines(s)) == words(s),
{
    let parts = crate::text::split_on(s, '\n');
    lemma_words_split(s);
    crate::text::lemma_until(s, '\n');
    assert(parts.len() > 0);
    let below = parts.drop_last();
    let ended = below.map_values(|p: Seq<char>| crate::text::strip_cr(p));
    lemma_words_stripped(below);
    if parts.last().len() == 0 {
        assert(all_words(below) + words(parts.last()) =~= all_words(below));
    } else {
        lemma_all_words_push(ended, parts.last());
    }
}

proof fn lemma_words_reading(all: Seq<Seq<char>>)
    ensures
        all_words(reading(all).0) + words(reading(all).1) == all_words(all),
    decreases all.len(),
{
    if all.len() == 0 {
        assert(all_words(reading(all).0) + words(reading(all).1) =~= Seq::empty());
    } else {
        lemma_words_reading(all.drop_last());
        let (out, cur) = reading(all.drop_last());
        let line = trimmed(all.last());
        lemma_words_trimmed(all.last());
        let none = Seq::<char>::empty();
        assert(words(none) =~= Seq::empty());
        if line.len() == 0 {
            assert(line =~= none);
            lemma_all_words_push(out, cur);
            assert(all_words(all) =~= all_words(all.drop_last()));
            assert(all_words(out) + words(cur) + words(none) =~= all_words(out) + words(cur));
        } else if cur.len() > 0 {
            lemma_words_joined(cur, line);
            assert(all_words(out) + (words(cur) + words(line)) =~= all_words(out) + words(cur)
                + words(line));
        } else {
            assert(cur =~= none);
            assert(all_words(out) + words(cur) =~= all_words(out));
        }
    }
}

proof fn lemma_words_paragraphs(text: Seq<char>)
    ensures
        all_words(paragraphs(text)) == words(text),
{
    lemma_words_lines(text);
    lemma_words_reading(lines(text));
    let (out, cur) = reading(lines(text));
    if cur.len() > 0 {
        lemma_all_words_push(out, cur);
    } else {
        assert(cur =~= Seq::empty());
        assert(all_words(out) + words(cur) =~= all_words(out));
    }
}

/// Whether each of these texts is one word.
spec fn are_words(ws: Seq<Seq<char>>) -> bool {
    forall|i: int| 0 <= i < ws.len() ==> words(#[trigger] ws[i]) == seq![ws[i]]
}

proof fn lemma_one_word(w: Seq<char>)
    requires
        w.len() > 0,
        forall|i: int| 0 <= i < w.len() ==> !crate::text::is_white(#[trigger] w[i]),
    ensures
        words(w) == seq![w],
{
    crate::text::lemma_word_run(w);
    let n = crate::text::word_run(w) as int;
    assert(n == w.len());
    assert(w.take(n) =~= w);
    assert(words(w.skip(n)) =~= Seq::empty());
    assert(words(w) =~= seq![w]);
}

proof fn lemma_words_are_words(s: Seq<char>)
    ensures
        are_words(words(s)),
    decreases s.len(),
{
    if s.len() > 0 {
        if crate::text::is_white(s[0]) {
            lemma_words_are_words(s.subrange(1, s.len() as int));
        } else {
            crate::text::lemma_word_run(s);
            let n = crate::text::word_run(s) as int;
            let first = s.take(n);
            let rest = words(s.skip(n));
            lemma_words_are_words(s.skip(n));
            assert forall|i: int| 0 <= i < first.len() implies !crate::text::is_white(
                #[trigger] first[i],
            ) by {
                assert(first[i] == s[i]);
            }
            lemma_one_word(first);
            assert forall|i: int| 0 <= i < words(s).len() implies words(#[trigger] words(s)[i])
                == seq![words(s)[i]] by {
                if i > 0 {
                    assert(words(s)[i] == rest[i - 1]);
                }
            }
        }
    }
}

proof fn lemma_words_packing(ws: Seq<Seq<char>>, max: nat)
    requires
        are_words(ws),
        none_longer(ws, max),
    ensures
        all_words(packing(ws, max).0) + words(packing(ws, max).1) == ws,
    decreases ws.len(),
{
    if ws.len() == 0 {
        assert(all_words(packing(ws, max).0) + words(packing(ws, max).1) =~= ws);
    } else {
        let below = ws.drop_last();
        let w = ws.last();
        assert(w == ws[ws.len() - 1]);
        assert(are_words(below)) by {
            assert forall|i: int| 0 <= i < below.len() implies words(#[trigger] below[i])
                == seq![below[i]] by {
                assert(below[i] == ws[i]);
            }
        }
        assert(none_longer(below, max)) by {
            assert forall|i: int| 0 <= i < below.len() implies (#[trigger] below[i]).len()
                <= max by {
                assert(below[i] == ws[i]);
            }
        }
        lemma_words_packing(below, max);
        let (chunks, cur) = packing(below, max);
        assert(below + seq![w] =~= ws);
        if cur.len() == 0 {
            assert(words(cur) =~= Seq::empty());
            assert(all_words(chunks) + words(cur) =~= all_words(chunks));
        }
        lemma_all_words_push(chunks, cur);
        if cur.len() > 0 && cur.len() + 1 + w.len() <= max {
            lemma_words_joined(cur, w);
            assert(all_words(chunks) + (words(cur) + words(w)) =~= all_words(chunks) + words(cur)
                + words(w));
        }
    }
}

proof fn lemma_words_packed(text: Seq<char>, max: nat)
    requires
        none_longer(words(text), max),
    ensures
        all_words(packed(text, max)) == words(text),
{
    lemma_words_are_words(text);
    lemma_words_packing(words(text), max);
    let (chunks, cur) = packing(words(text), max);
    if cur.len() > 0 {
        lemma_all_words_push(chunks, cur);
    } else {
        assert(cur =~= Seq::empty());
        assert(all_words(chunks) + words(cur) =~= all_words(chunks));
    }
}

proof fn lemma_words_chunks(paras: Seq<Seq<char>>)
    requires
        none_longer(all_words(paras), MAX_CHUNK_CHARS as nat),
    ensures
        all_words(all_chunks(paras)) == all_words(paras),
    decreases paras.len(),
{
    if paras.len() > 0 {
        let max = MAX_CHUNK_CHARS as nat;
        let below = paras.drop_last();
        let ws = words(paras.last());
        let all = all_words(paras);
        assert(none_longer(all_words(below), max)) by {
            assert forall|i: int| 0 <= i < all_words(below).len() implies (#[trigger] all_words(
                below,
            )[i]).len() <= max by {
                assert(all[i] == all_words(below)[i]);
            }
        }
        assert(none_longer(ws, max)) by {
            assert forall|i: int| 0 <= i < ws.len() implies (#[trigger] ws[i]).len() <= max by {
                assert(all[all_words(below).len() + i] == ws[i]);
            }
        }
        lemma_words_chunks(below);
        let p = trimmed(paras.last());
        lemma_words_trimmed(paras.last());
        lemma_all_words_add(all_chunks(below), paragraph_chunks(paras.last()));
        if p.len() == 0 {
            assert(words(p) =~= Seq::empty());
        } else if p.len() <= MAX_CHUNK_CHARS {
            lemma_all_words_one(p);
        } else {
            lemma_words_packed(p, max);
        }
    }
}

/// Words stay whole and in order: where none is longer than a chunk may be,
/// the words of the chunks are the words of the text.
pub proof fn law_chunks_keep_the_words(text: Seq<char>)
    requires
        none_longer(words(text), MAX_CHUNK_CHARS as nat),
    ensures
        all_words(chunks_of(text)) == words(text),
{
    lemma_words_paragraphs(text);
    lemma_words_chunks(paragraphs(text));
}

/// Whether all chunks are of one to `max` characters.
pub open spec fn all_fit(chunks: Seq<Seq<char>>, max: nat) -> bool {
    forall|i: int| 0 <= i < chunks.len() ==> 0 < (#[trigger] chunks[i]).len() <= max
}

proof fn lemma_fit_add(a: Seq<Seq<char>>, b: Seq<Seq<char>>, max: nat)
    requires
        all_fit(a, max),
        all_fit(b, max),
    ensures
        all_fit(a + b, max),
{
    assert forall|i: int| 0 <= i < (a + b).len() implies 0 < (#[trigger] (a + b)[i]).len()
        <= max by {
        if i < a.len() {
            assert((a + b)[i] == a[i]);
        } else {
            assert((a + b)[i] == b[i - a.len()]);
        }
    }
}

proof fn lemma_hard_split_fits(w: Seq<char>, max: nat)
    requires
        max > 0,
    ensures
        all_fit(hard_split(w, max).0, max),
        hard_split(w, max).1.len() < max,
    decreases w.len(),
{
    if w.len() >= max {
        lemma_hard_split_fits(w.skip(max as int), max);
        lemma_fit_add(seq![w.take(max as int)], hard_split(w.skip(max as int), max).0, max);
    }
}

proof fn lemma_packing_fits(ws: Seq<Seq<char>>, max: nat)
    requires
        max > 0,
    ensures
        all_fit(packing(ws, max).0, max),
        packing(ws, max).1.len() <= max,
    decreases ws.len(),
{
    if ws.len() > 0 {
        lemma_packing_fits(ws.drop_last(), max);
        let (chunks, cur) = packing(ws.drop_last(), max);
        let w = ws.last();
        reveal_strlit(" ");
        if cur.len() > 0 {
            lemma_fit_add(chunks, seq![cur], max);
            assert(chunks.push(cur) =~= chunks + seq![cur]);
        }
        if w.len() > max {
            lemma_hard_split_fits(w, max);
            let closed = if cur.len() > 0 {
                chunks.push(cur)
            } else {
                chunks
            };
            lemma_fit_add(closed, hard_split(w, max).0, max);
        }
    }
}

proof fn lemma_chunks_fit(paras: Seq<Seq<char>>)
    ensures
        all_fit(all_chunks(paras), MAX_CHUNK_CHARS as nat),
    decreases paras.len(),
{
    if paras.len() > 0 {
        lemma_chunks_fit(paras.drop_last());
        let p = trimmed(paras.last());
        if p.len() > MAX_CHUNK_CHARS {
            lemma_packing_fits(words(p), MAX_CHUNK_CHARS as nat);
            let (chunks, cur) = packing(words(p), MAX_CHUNK_CHARS as nat);
            if cur.len() > 0 {
                lemma_fit_add(chunks, seq![cur], MAX_CHUNK_CHARS as nat);
                assert(chunks.push(cur) =~= chunks + seq![cur]);
            }
        }
        lemma_fit_add(
            all_chunks(paras.drop_last()),
            paragraph_chunks(paras.last()),
            MAX_CHUNK_CHARS as nat,
        );
    }
}

/// No chunk is empty or over [`MAX_CHUNK_CHARS`] characters.
pub proof fn law_chunks_fit(text: Seq<char>)
    ensures
        all_fit(chunks_of(text), MAX_CHUNK_CHARS as nat),
{
    lemma_chunks_fit(paragraphs(text));
}

// ---------------------------------------------------------------------------
// How chunks are cut
// ---------------------------------------------------------------------------

/// The paragraphs of lines once the one that is being read is finished.
spec fn finished(r: (Seq<Seq<char>>, Seq<char>)) -> Seq<Seq<char>> {
    if r.1.len() > 0 {
        r.0.push(r.1)
    } else {
        r.0
    }
}

/// Lines that are the same but for white space round them are read the same.
proof fn lemma_reading_trimmed(a: Seq<Seq<char>>, b: Seq<Seq<char>>)
    requires
        a.len() == b.len(),
        forall|i: int| 0 <= i < a.len() ==> trimmed(#[trigger] a[i]) == trimmed(b[i]),
    ensures
        reading(a) == reading(b),
    decreases a.len(),
{
    if a.len() > 0 {
        let (x, y) = (a.drop_last(), b.drop_last());
        assert forall|i: int| 0 <= i < x.len() implies trimmed(#[trigger] x[i]) == trimmed(
            y[i],
        ) by {
            assert(x[i] == a[i] && y[i] == b[i]);
        }
        lemma_reading_trimmed(x, y);
        assert(trimmed(a[a.len() - 1]) == trimmed(b[a.len() - 1]));
    }
}

proof fn lemma_trimmed_cr(p: Seq<char>)
    ensures
        trimmed(crate::text::strip_cr(p)) == trimmed(p),
    decreases p.len(),
{
    if p.len() > 0 && p.last() == '\r' {
        let r = p.drop_last();
        lemma_trimmed_push(r, '\r');
        assert(r.push('\r') =~= p);
    }
}

proof fn lemma_trimmed_push(s: Seq<char>, c: char)
    requires
        crate::text::is_white(c),
    ensures
        trimmed(s.push(c)) == trimmed(s),
    decreases s.len(),
{
    let t = s.push(c);
    if s.len() > 0 && crate::text::is_white(s[0]) {
        let rest = s.subrange(1, s.len() as int);
        lemma_trimmed_push(rest, c);
        assert(t.subrange(1, t.len() as int) =~= rest.push(c));
    } else if s.len() == 0 {
        assert(t.subrange(1, 1) =~= Seq::empty());
        assert(s =~= Seq::empty());
    } else {
        assert(t[0] == s[0]);
        assert(t.drop_last() =~= s);
    }
}

/// The paragraphs of a text, from its parts between line feeds.
proof fn lemma_paragraphs_of_parts(text: Seq<char>)
    ensures
        paragraphs(text) == finished(reading(crate::text::split_on(text, '\n'))),
{
    let parts = crate::text::split_on(text, '\n');
    crate::text::lemma_until(text, '\n');
    let n = parts.len() - 1;
    let below = parts.drop_last();
    let ended = below.map_values(|p: Seq<char>| crate::text::strip_cr(p));
    assert forall|i: int| 0 <= i < ended.len() implies trimmed(#[trigger] ended[i]) == trimmed(
        below[i],
    ) by {
        lemma_trimmed_cr(below[i]);
    }
    lemma_reading_trimmed(ended, below);
    if parts.last().len() == 0 {
        assert(trimmed(parts.last()).len() == 0);
    } else {
        let all = ended.push(parts.last());
        assert(all.drop_last() =~= ended);
    }
}

proof fn lemma_split_joined(a: Seq<char>, b: Seq<char>)
    ensures
        crate::text::split_on(a + (seq!['\n'] + b), '\n') == crate::text::split_on(a, '\n')
            + crate::text::split_on(b, '\n'),
    decreases a.len(),
{
    let c = '\n';
    let s = a + (seq![c] + b);
    crate::text::lemma_until(a, c);
    crate::text::lemma_until(s, c);
    let n = crate::text::until(a, c) as int;
    let m = crate::text::until(s, c) as int;
    if n >= a.len() {
        assert(s[a.len() as int] == c);
        if m < a.len() {
            assert(s[m] == a[m]);
        }
        assert(m == a.len());
        assert(s.take(m) =~= a);
        assert(s.skip(m + 1) =~= b);
        assert(crate::text::split_on(s, c) =~= crate::text::split_on(a, c)
            + crate::text::split_on(b, c));
    } else {
        assert(s[n] == a[n]);
        if m < n {
            assert(s[m] == a[m]);
        }
        assert(m == n);
        assert(s.take(n) =~= a.take(n));
        assert(s.skip(n + 1) =~= a.skip(n + 1) + (seq![c] + b));
        lemma_split_joined(a.skip(n + 1), b);
        assert(crate::text::split_on(s, c) =~= crate::text::split_on(a, c)
            + crate::text::split_on(b, c));
    }
}

/// Lines behind a finished paragraph are read on their own.
proof fn lemma_reading_behind(a: Seq<Seq<char>>, b: Seq<Seq<char>>)
    requires
        reading(a).1.len() == 0,
    ensures
        reading(a + b).0 == reading(a).0 + reading(b).0,
        reading(a + b).1 == reading(b).1,
    decreases b.len(),
{
    if b.len() == 0 {
        assert(a + b =~= a);
        assert(reading(a).0 + reading(b).0 =~= reading(a).0);
        assert(reading(a).1 =~= reading(b).1);
    } else {
        let rest = b.drop_last();
        assert((a + b).drop_last() =~= a + rest);
        assert((a + b).last() == b.last());
        lemma_reading_behind(a, rest);
        let (out, cur) = reading(rest);
        assert((reading(a).0 + out).push(cur) =~= reading(a).0 + out.push(cur));
    }
}

/// A blank line parts chunks: what stands in front of one and what stands behind
/// it are cut into chunks as if each stood alone.
pub proof fn law_blank_lines_part_chunks(a: Seq<char>, b: Seq<char>)
    ensures
        paragraphs(a + (seq!['\n', '\n'] + b)) == paragraphs(a) + paragraphs(b),
        chunks_of(a + (seq!['\n', '\n'] + b)) == chunks_of(a) + chunks_of(b),
{
    let blank = Seq::<char>::empty();
    let tail = blank + (seq!['\n'] + b);
    let text = a + (seq!['\n', '\n'] + b);
    assert(text =~= a + (seq!['\n'] + tail));
    lemma_split_joined(a, tail);
    lemma_split_joined(blank, b);
    let (x, y) = (crate::text::split_on(a, '\n'), crate::text::split_on(b, '\n'));
    crate::text::lemma_until(blank, '\n');
    assert(crate::text::split_on(blank, '\n') =~= seq![blank]);
    let front = x.push(blank);
    assert(x + (seq![blank] + y) =~= front + y);
    assert(front.drop_last() =~= x);
    assert(front.last() =~= blank);
    assert(trimmed(blank).len() == 0);
    assert(reading(front).1.len() == 0);
    assert(reading(front).0 == finished(reading(x)));
    lemma_reading_behind(front, y);
    lemma_paragraphs_of_parts(a);
    lemma_paragraphs_of_parts(b);
    lemma_paragraphs_of_parts(text);
    let (out, cur) = reading(y);
    assert((finished(reading(x)) + out).push(cur) =~= finished(reading(x)) + out.push(cur));
    lemma_chunks_add(paragraphs(a), paragraphs(b));
}

proof fn lemma_chunks_add(a: Seq<Seq<char>>, b: Seq<Seq<char>>)
    ensures
        all_chunks(a + b) == all_chunks(a) + all_chunks(b),
    decreases b.len(),
{
    if b.len() == 0 {
        assert(a + b =~= a);
        assert(all_chunks(a) + all_chunks(b) =~= all_chunks(a));
    } else {
        assert((a + b).drop_last() =~= a + b.drop_last());
        lemma_chunks_add(a, b.drop_last());
        assert(all_chunks(a + b) =~= all_chunks(a) + all_chunks(b));
    }
}

/// Wrapped lines are one paragraph: a line that is not blank goes on with the
/// paragraph in front of it, one space between them, and without the white space
/// round either.
pub proof fn law_wrapped_lines_are_joined(a: Seq<char>, b: Seq<char>)
    requires
        trimmed(a).len() > 0,
        trimmed(b).len() > 0,
        forall|i: int| 0 <= i < a.len() ==> #[trigger] a[i] != '\n',
        forall|i: int| 0 <= i < b.len() ==> #[trigger] b[i] != '\n',
    ensures
        paragraphs(a) == seq![trimmed(a)],
        paragraphs(a + (seq!['\n'] + b)) == seq![trimmed(a) + seq![' '] + trimmed(b)],
{
    reveal_strlit(" ");
    assert(" "@ =~= seq![' ']);
    lemma_one_line(a);
    lemma_one_line(b);
    let one = seq![a];
    let two = seq![a, b];
    let none = Seq::<Seq<char>>::empty();
    assert(one.drop_last() =~= none);
    assert(reading(none) == (none, Seq::<char>::empty()));
    assert(reading(one) == (none, trimmed(a)));
    assert(two.drop_last() =~= one);
    assert(reading(two) == (none, trimmed(a) + " "@ + trimmed(b)));
    lemma_split_joined(a, b);
    assert(seq![a] + seq![b] =~= two);
    lemma_paragraphs_of_parts(a);
    lemma_paragraphs_of_parts(a + (seq!['\n'] + b));
    assert(paragraphs(a) =~= seq![trimmed(a)]);
    assert(paragraphs(a + (seq!['\n'] + b)) =~= seq![trimmed(a) + " "@ + trimmed(b)]);
}

proof fn lemma_one_line(a: Seq<char>)
    requires
        forall|i: int| 0 <= i < a.len() ==> #[trigger] a[i] != '\n',
    ensures
        crate::text::split_on(a, '\n') == seq![a],
{
    crate::text::lemma_until(a, '\n');
    let n = crate::text::until(a, '\n') as int;
    if n < a.len() {
        assert(a[n] == '\n');
    }
}

/// A paragraph that fits is one chunk.
pub proof fn law_short_paragraphs_stay_whole(paras: Seq<Seq<char>>)
    requires
        forall|i: int|
            0 <= i < paras.len() ==> 0 < (#[trigger] paras[i]).len() <= 512 && trimmed(paras[i])
                == paras[i],
    ensures
        all_chunks(paras) == paras,
    decreases paras.len(),
{
    if paras.len() > 0 {
        let below = paras.drop_last();
        assert forall|i: int| 0 <= i < below.len() implies 0 < (#[trigger] below[i]).len() <= 512
            && trimmed(below[i]) == below[i] by {
            assert(below[i] == paras[i]);
        }
        law_short_paragraphs_stay_whole(below);
        assert(paras[paras.len() - 1] == paras.last());
        assert(below + seq![paras.last()] =~= paras);
    } else {
        assert(all_chunks(paras) =~= paras);
    }
}

/// Whether no chunk could have taken the first word of the next one.
spec fn is_tight(chunks: Seq<Seq<char>>, max: nat) -> bool {
    forall|i: int|
        0 <= i && i + 1 < chunks.len() ==> words(chunks[i + 1]).len() > 0 && (
        #[trigger] chunks[i]).len() + 1 + words(chunks[i + 1])[0].len() > max
}

/// Whether a text is its words, with single spaces between them.
pub open spec fn is_spaced_once(s: Seq<char>) -> bool {
    s == crate::text::join(words(s), seq![' '])
}

proof fn lemma_packing_is_tight(ws: Seq<Seq<char>>, max: nat)
    requires
        are_words(ws),
        none_longer(ws, max),
    ensures
        ({
            let (chunks, cur) = packing(ws, max);
            &&& is_tight(chunks, max)
            &&& cur.len() > 0 ==> is_tight(chunks.push(cur), max) && words(cur).len() > 0
                && is_spaced_once(cur)
            &&& ws.len() > 0 ==> cur.len() > 0
            &&& forall|i: int| 0 <= i < chunks.len() ==> is_spaced_once(#[trigger] chunks[i])
        }),
    decreases ws.len(),
{
    if ws.len() > 0 {
        let below = ws.drop_last();
        let w = ws.last();
        assert(w == ws[ws.len() - 1]);
        assert(words(w) == seq![w]);
        assert(w.len() > 0) by {
            if w.len() == 0 {
                assert(w =~= Seq::empty());
                assert(words(w) =~= Seq::empty());
            }
        }
        assert(are_words(below)) by {
            assert forall|i: int| 0 <= i < below.len() implies words(#[trigger] below[i])
                == seq![below[i]] by {
                assert(below[i] == ws[i]);
            }
        }
        assert(none_longer(below, max)) by {
            assert forall|i: int| 0 <= i < below.len() implies (#[trigger] below[i]).len()
                <= max by {
                assert(below[i] == ws[i]);
            }
        }
        lemma_packing_is_tight(below, max);
        let (chunks, cur) = packing(below, max);
        let one = seq![w];
        assert(is_spaced_once(w)) by {
            assert(crate::text::join(one, seq![' ']) == w);
        }
        if cur.len() > 0 && cur.len() + 1 + w.len() <= max {
            lemma_words_joined(cur, w);
            reveal_strlit(" ");
            assert(" "@ =~= seq![' ']);
            let more = cur + " "@ + w;
            let all = words(more);
            assert(all == words(cur) + one);
            assert(all.drop_last() =~= words(cur));
            assert(all.last() == w);
            assert(all[0] == words(cur)[0]);
            let next = chunks.push(more);
            let before = chunks.push(cur);
            assert forall|i: int| 0 <= i && i + 1 < next.len() implies words(next[i + 1]).len() > 0
                && (#[trigger] next[i]).len() + 1 + words(next[i + 1])[0].len() > max by {
                assert(next[i] == before[i]);
                if i + 1 < chunks.len() {
                    assert(next[i + 1] == before[i + 1]);
                }
            }
        } else if cur.len() > 0 {
            let closed = chunks.push(cur);
            let next = closed.push(w);
            assert forall|i: int| 0 <= i && i + 1 < next.len() implies words(next[i + 1]).len() > 0
                && (#[trigger] next[i]).len() + 1 + words(next[i + 1])[0].len() > max by {
                assert(next[i] == closed[i]);
                if i + 1 < closed.len() {
                    assert(next[i + 1] == closed[i + 1]);
                }
            }
        } else {
            assert(below.len() == 0);
            assert(chunks =~= Seq::empty());
        }
    }
}

/// Words are packed tightly: in a text whose words all fit, a chunk ends only
/// where one space and the next word would make it too long, and has single
/// spaces between its words.
pub proof fn law_words_are_packed_tightly(text: Seq<char>, max: nat, i: int)
    requires
        none_longer(words(text), max),
        0 <= i < packed(text, max).len(),
    ensures
        is_spaced_once(packed(text, max)[i]),
        i + 1 < packed(text, max).len() ==> words(packed(text, max)[i + 1]).len() > 0 && packed(
            text,
            max,
        )[i].len() + 1 + words(packed(text, max)[i + 1])[0].len() > max,
{
    lemma_words_are_words(text);
    lemma_packing_is_tight(words(text), max);
}

/// A paragraph that is too long fills its chunks: each but the last of them ends
/// where one space and the next word would go past 512 characters.
pub proof fn law_long_paragraphs_fill_their_chunks(para: Seq<char>, i: int)
    requires
        trimmed(para).len() > 512,
        none_longer(words(trimmed(para)), 512),
        0 <= i,
        i + 1 < paragraph_chunks(para).len(),
    ensures
        words(paragraph_chunks(para)[i + 1]).len() > 0,
        paragraph_chunks(para)[i].len() + 1 + words(paragraph_chunks(para)[i + 1])[0].len() > 512,
{
    law_words_are_packed_tightly(trimmed(para), 512, i);
}

/// The chunks of a document stand together, in their order, behind those of
/// the documents in front of it; one that could not be read leaves no trace.
pub proof fn law_documents_keep_their_order(
    a: Seq<Option<String>>,
    doc: Option<String>,
    b: Seq<Option<String>>,
)
    ensures
        document_chunks(Seq::empty()) == Seq::<Seq<char>>::empty(),
        document_chunks(a.push(doc) + b) == document_chunks(a) + (match doc {
            Some(text) => chunks_of(text@),
            None => Seq::empty(),
        }) + document_chunks(b),
    decreases b.len(),
{
    let all = a.push(doc) + b;
    let own = match doc {
        Some(text) => chunks_of(text@),
        None => Seq::<Seq<char>>::empty(),
    };
    if b.len() == 0 {
        assert(all =~= a.push(doc));
        assert(all.drop_last() =~= a);
        assert(document_chunks(all) =~= document_chunks(a) + own + document_chunks(b));
    } else {
        law_documents_keep_their_order(a, doc, b.drop_last());
        assert(all.drop_last() =~= a.push(doc) + b.drop_last());
        assert(document_chunks(all) =~= document_chunks(a) + own + document_chunks(b));
    }
}

} // verus!
