//! BERT WordPiece tokenizer: lower-cases, splits on white space and ASCII
//! punctuation, and breaks words into the longest pieces of a vocabulary.
//! Accents are not stripped, so accented characters fall back to `[UNK]`
//! subwords.

use vstd::hash_map::StringHashMap;
use vstd::prelude::*;

use crate::bytes::decode_strict;
use crate::text::{
    char_lists, chars_of, lines, lines_of, lowercase, split_words, string_of, strs, to_lowercase,
    words,
};

verus! {

/// The id of `[PAD]`.
pub const PAD_ID: i64 = 0;

/// The id of `[UNK]`.
pub const UNK_ID: i64 = 100;

/// The id of `[CLS]`.
pub const CLS_ID: i64 = 101;

/// The id of `[SEP]`.
pub const SEP_ID: i64 = 102;

/// Maximum characters per word before WordPiece gives up and returns
/// `[UNK]`.
pub const MAX_INPUT_CHARS_PER_WORD: usize = 100;

// ---------------------------------------------------------------------------
// Vocabulary
// ---------------------------------------------------------------------------

/// A vocabulary: the ids of tokens.
pub struct Vocab {
    ids: StringHashMap<i64>,
}

impl View for Vocab {
    type V = Map<Seq<char>, i64>;

    closed spec fn view(&self) -> Map<Seq<char>, i64> {
        self.ids@
    }
}

impl Vocab {
    /// An empty vocabulary.
    pub fn new() -> (r: Self)
        ensures
            r@ == Map::<Seq<char>, i64>::empty(),
    {
        Vocab { ids: StringHashMap::new() }
    }

    /// Gives a token an id, in place of one that it had.
    pub fn insert(&mut self, token: &str, id: i64)
        ensures
            final(self)@ == old(self)@.insert(token@, id),
    {
        self.ids.insert(token.to_owned(), id);
    }

    /// The id of a token.
    pub fn get(&self, token: &str) -> (r: Option<i64>)
        ensures
            match r {
                Some(id) => self@.contains_key(token@) && id == self@[token@],
                None => !self@.contains_key(token@),
            },
    {
        match self.ids.get(token) {
            Some(id) => Some(*id),
            None => None,
        }
    }
}

/// The vocabulary of a list of tokens: the id of a token is its place, the
/// last one where it occurs twice.
pub open spec fn vocab_of(tokens: Seq<Seq<char>>) -> Map<Seq<char>, i64>
    decreases tokens.len(),
{
    if tokens.len() == 0 {
        Map::empty()
    } else {
        vocab_of(tokens.drop_last()).insert(tokens.last(), (tokens.len() - 1) as i64)
    }
}

/// Loads a BERT vocabulary (one token per line) into a `token -> id` map,
/// where `id` is the 0-based line index (`[PAD]`=0, `[UNK]`=100, ...). The
/// error says what is wrong with a file that is not UTF-8.
pub fn load_vocab(bytes: &[u8]) -> (r: Result<Vocab, String>)
    ensures
        match r {
            Ok(v) => vstd::utf8::valid_utf8(bytes@) && v@ == vocab_of(
                lines(vstd::utf8::decode_utf8(bytes@)),
            ),
            Err(e) => !vstd::utf8::valid_utf8(bytes@) && e@ == "vocab is not utf-8: "@
                + crate::bytes::utf8_fault(bytes@),
        },
{
    let text = match decode_strict(bytes) {
        Ok(s) => s,
        Err(e) => {
            return Err("vocab is not utf-8: ".to_owned().concat(e.as_str()));
        },
    };
    let tokens = lines_of(&chars_of(text.as_str()));
    let ghost all = char_lists(tokens@);
    let mut vocab = Vocab::new();
    let mut i: usize = 0;
    assert(all.take(0) =~= Seq::empty());
    while i < tokens.len()
        invariant
            all == char_lists(tokens@),
            i <= tokens@.len(),
            vocab@ == vocab_of(all.take(i as int)),
        decreases tokens@.len() - i,
    {
        let token = string_of(&tokens[i], 0, tokens[i].len());
        assert(token@ =~= all[i as int]);
        assert(all.take(i + 1).drop_last() =~= all.take(i as int));
        vocab.insert(token.as_str(), i as i64);
        i += 1;
    }
    assert(all.take(all.len() as int) =~= all);
    Ok(vocab)
}

// ---------------------------------------------------------------------------
// Words
// ---------------------------------------------------------------------------

/// Whether a character is dropped from a text: control characters but for
/// white space, and the replacement character.
pub open spec fn is_dropped(c: char) -> bool {
    c as u32 == 0 || c as u32 == 0xFFFD || (c != '\t' && c != '\n' && c != '\r'
        && crate::text::is_control_char(c))
}

/// A text without dropped characters, each run of white space a single space.
pub open spec fn cleaned(s: Seq<char>) -> Seq<char>
    decreases s.len(),
{
    if s.len() == 0 {
        Seq::empty()
    } else {
        let rest = cleaned(s.drop_last());
        if is_dropped(s.last()) {
            rest
        } else if !crate::text::is_white(s.last()) {
            rest.push(s.last())
        } else if rest.len() > 0 && rest.last() == ' ' {
            rest
        } else {
            rest.push(' ')
        }
    }
}

/// Removes control chars / the replacement char and maps all whitespace to a
/// single space.
pub fn clean_text(text: &str) -> (r: String)
    ensures
        r@ == cleaned(text@),
{
    let s = chars_of(text);
    let mut out: Vec<char> = Vec::new();
    let mut i: usize = 0;
    assert(out@ =~= cleaned(s@.take(0)));
    while i < s.len()
        invariant
            s@ == text@,
            i <= s@.len(),
            out@ == cleaned(s@.take(i as int)),
        decreases s@.len() - i,
    {
        let c: char = s[i];
        assert(s@.take(i + 1).drop_last() =~= s@.take(i as int));
        let code: u32 = c as u32;
        let dropped: bool = code == 0 || code == 0xFFFD || (c != '\t' && c != '\n' && c != '\r'
            && crate::text::is_control(c));
        if !dropped {
            if !crate::text::is_whitespace(c) {
                out.push(c);
            } else if out.len() == 0 || out[out.len() - 1] != ' ' {
                out.push(' ');
            }
        }
        i += 1;
    }
    assert(s@.take(s@.len() as int) =~= s@);
    assert(out@.subrange(0, out@.len() as int) =~= out@);
    string_of(&out, 0, out.len())
}

/// ASCII punctuation.
pub open spec fn is_punctuation_char(c: char) -> bool {
    33 <= c as u32 <= 47 || 58 <= c as u32 <= 64 || 91 <= c as u32 <= 96 || 123 <= c as u32 <= 126
}

/// ASCII punctuation. Non-ASCII punctuation is not split.
pub fn is_punctuation(c: char) -> (r: bool)
    ensures
        r == is_punctuation_char(c),
{
    let cp: u32 = c as u32;
    (33 <= cp && cp <= 47) || (58 <= cp && cp <= 64) || (91 <= cp && cp <= 96) || (123 <= cp && cp
        <= 126)
}

/// The end of the run without punctuation that starts at `i`.
pub open spec fn plain_end(w: Seq<char>, i: int) -> int
    decreases w.len() - i,
{
    if 0 <= i < w.len() && !is_punctuation_char(w[i]) {
        plain_end(w, i + 1)
    } else {
        i
    }
}

proof fn lemma_plain_end(w: Seq<char>, i: int)
    requires
        0 <= i <= w.len(),
    ensures
        i <= plain_end(w, i) <= w.len(),
        i < w.len() && !is_punctuation_char(w[i]) ==> i < plain_end(w, i),
    decreases w.len() - i,
{
    if i < w.len() && !is_punctuation_char(w[i]) {
        lemma_plain_end(w, i + 1);
    }
}

/// The tokens of a word from `i` on: each punctuation character is one, and
/// each run between them.
pub open spec fn word_tokens(w: Seq<char>, i: int) -> Seq<Seq<char>>
    decreases w.len() - i,
    via word_tokens_decreases
{
    if i < 0 || i >= w.len() {
        Seq::empty()
    } else if is_punctuation_char(w[i]) {
        seq![seq![w[i]]] + word_tokens(w, i + 1)
    } else {
        seq![w.subrange(i, plain_end(w, i))] + word_tokens(w, plain_end(w, i))
    }
}

#[via_fn]
proof fn word_tokens_decreases(w: Seq<char>, i: int) {
    if 0 <= i < w.len() {
        lemma_plain_end(w, i);
    }
}

/// The tokens of words, one behind the other.
pub open spec fn all_word_tokens(ws: Seq<Seq<char>>) -> Seq<Seq<char>>
    decreases ws.len(),
{
    if ws.len() == 0 {
        Seq::empty()
    } else {
        all_word_tokens(ws.drop_last()) + word_tokens(ws.last(), 0)
    }
}

/// The tokens of a text that is lower-case already.
pub open spec fn lower_tokens(lowered: Seq<char>) -> Seq<Seq<char>> {
    all_word_tokens(words(lowered))
}

fn push_word_tokens(w: &Vec<char>, out: &mut Vec<String>)
    ensures
        strs(final(out)@) == strs(old(out)@) + word_tokens(w@, 0),
{
    let ghost start = strs(out@);
    let mut i: usize = 0;
    assert(start + word_tokens(w@, 0) == strs(out@) + word_tokens(w@, 0));
    while i < w.len()
        invariant
            i <= w@.len(),
            start + word_tokens(w@, 0) == strs(out@) + word_tokens(w@, i as int),
        decreases w@.len() - i,
    {
        let ghost before = strs(out@);
        let ghost old_out = out@;
        proof {
            lemma_plain_end(w@, i as int);
        }
        let mut end: usize = i;
        if is_punctuation(w[i]) {
            end = i + 1;
        } else {
            while end < w.len() && !is_punctuation(w[end])
                invariant
                    i <= end <= w@.len(),
                    plain_end(w@, i as int) == plain_end(w@, end as int),
                decreases w@.len() - end,
            {
                end += 1;
            }
        }
        let token = string_of(w, i, end);
        assert(is_punctuation_char(w@[i as int]) ==> token@ =~= seq![w@[i as int]]);
        out.push(token);
        assert(strs(out@) =~= before.push(token@));
        assert(before + word_tokens(w@, i as int) =~= strs(out@) + word_tokens(w@, end as int));
        i = end;
    }
    assert(strs(out@) + word_tokens(w@, i as int) =~= strs(out@));
}

/// The tokens of a text that is lower-case already: white space split, then
/// split on punctuation.
pub fn tokens_of_lower(lowered: &str) -> (r: Vec<String>)
    ensures
        strs(r@) == lower_tokens(lowered@),
{
    let ws = split_words(&chars_of(lowered));
    let ghost all = char_lists(ws@);
    let mut out: Vec<String> = Vec::new();
    let mut i: usize = 0;
    assert(strs(out@) =~= all_word_tokens(all.take(0)));
    while i < ws.len()
        invariant
            all == char_lists(ws@),
            i <= ws@.len(),
            strs(out@) == all_word_tokens(all.take(i as int)),
        decreases ws@.len() - i,
    {
        assert(all.take(i + 1).drop_last() =~= all.take(i as int));
        push_word_tokens(&ws[i], &mut out);
        i += 1;
    }
    assert(all.take(all.len() as int) =~= all);
    out
}

/// Basic tokenization: clean → lowercase → whitespace split → split on
/// punctuation (each punctuation char becomes its own token).
pub fn basic_tokenize(text: &str) -> (r: Vec<String>)
    ensures
        strs(r@) == lower_tokens(lowercase(cleaned(text@))),
{
    tokens_of_lower(to_lowercase(clean_text(text).as_str()).as_str())
}

// ---------------------------------------------------------------------------
// WordPiece
// ---------------------------------------------------------------------------

/// The vocabulary's name for the characters `start..end` of a word: `##` in
/// front where they do not begin it.
pub open spec fn piece_key(word: Seq<char>, start: int, end: int) -> Seq<char> {
    if start == 0 {
        word.subrange(start, end)
    } else {
        "##"@ + word.subrange(start, end)
    }
}

/// The end of the longest piece of the vocabulary at `start` that ends at
/// `end` or before.
pub open spec fn longest(
    vocab: Map<Seq<char>, i64>,
    word: Seq<char>,
    start: int,
    end: int,
) -> Option<int>
    decreases end - start,
{
    if end <= start {
        None
    } else if vocab.contains_key(piece_key(word, start, end)) {
        Some(end)
    } else {
        longest(vocab, word, start, end - 1)
    }
}

proof fn lemma_longest(vocab: Map<Seq<char>, i64>, word: Seq<char>, start: int, end: int)
    ensures
        longest(vocab, word, start, end) matches Some(e) ==> start < e <= end
            && vocab.contains_key(piece_key(word, start, e)),
    decreases end - start,
{
    if end > start && !vocab.contains_key(piece_key(word, start, end)) {
        lemma_longest(vocab, word, start, end - 1);
    }
}

/// The pieces of a word from `start` on, behind `ids`; `None` where some part
/// has none.
pub open spec fn pieces(
    vocab: Map<Seq<char>, i64>,
    word: Seq<char>,
    start: int,
    ids: Seq<i64>,
) -> Option<Seq<i64>>
    decreases word.len() - start,
    via pieces_decreases
{
    if start >= word.len() {
        Some(ids)
    } else {
        match longest(vocab, word, start, word.len() as int) {
            Some(end) => pieces(
                vocab,
                word,
                end,
                ids.push(vocab[piece_key(word, start, end)]),
            ),
            None => None,
        }
    }
}

#[via_fn]
proof fn pieces_decreases(
    vocab: Map<Seq<char>, i64>,
    word: Seq<char>,
    start: int,
    ids: Seq<i64>,
) {
    lemma_longest(vocab, word, start, word.len() as int);
}

/// The ids of a word: those of its pieces, or `[UNK]` for a word that has none
/// or is too long.
pub open spec fn word_ids(vocab: Map<Seq<char>, i64>, word: Seq<char>) -> Seq<i64> {
    if word.len() > MAX_INPUT_CHARS_PER_WORD {
        seq![UNK_ID]
    } else {
        match pieces(vocab, word, 0, Seq::empty()) {
            Some(ids) => ids,
            None => seq![UNK_ID],
        }
    }
}

/// WordPiece greedy longest-match: the first subtoken has no prefix, later
/// ones get `##`; a char with no match yields `[UNK]` for the whole word.
pub fn wordpiece(token: &str, vocab: &Vocab) -> (r: Vec<i64>)
    ensures
        r@ == word_ids(vocab@, token@),
{
    let chars = chars_of(token);
    let unknown: Vec<i64> = vec![UNK_ID];
    assert(unknown@ =~= seq![UNK_ID]);
    if chars.len() > MAX_INPUT_CHARS_PER_WORD {
        return unknown;
    }
    let mut sub: Vec<i64> = Vec::new();
    let mut start: usize = 0;
    assert(sub@ =~= Seq::empty());
    while start < chars.len()
        invariant
            chars@ == token@,
            chars@.len() <= MAX_INPUT_CHARS_PER_WORD,
            start <= chars@.len(),
            unknown@ == seq![UNK_ID],
            pieces(vocab@, chars@, 0, Seq::empty()) == pieces(
                vocab@,
                chars@,
                start as int,
                sub@,
            ),
        decreases chars@.len() - start,
    {
        let mut end: usize = chars.len();
        let mut found: Option<i64> = None;
        while start < end
            invariant_except_break
                found is None,
                longest(vocab@, chars@, start as int, chars@.len() as int) == longest(
                    vocab@,
                    chars@,
                    start as int,
                    end as int,
                ),
            invariant
                start <= end <= chars@.len(),
            ensures
                match found {
                    Some(id) => longest(vocab@, chars@, start as int, chars@.len() as int) == Some(
                        end as int,
                    ) && start < end && id == vocab@[piece_key(
                        chars@,
                        start as int,
                        end as int,
                    )],
                    None => longest(vocab@, chars@, start as int, chars@.len() as int) is None,
                },
            decreases end,
        {
            let part = string_of(&chars, start, end);
            let key = if start == 0 {
                part
            } else {
                "##".to_owned().concat(part.as_str())
            };
            match vocab.get(key.as_str()) {
                Some(id) => {
                    found = Some(id);
                    break;
                },
                None => {},
            }
            end -= 1;
        }
        match found {
            Some(id) => {
                sub.push(id);
                start = end;
            },
            None => {
                return unknown;
            },
        }
    }
    sub
}

// ---------------------------------------------------------------------------
// Model input
// ---------------------------------------------------------------------------

/// The ids of all tokens, one behind the other.
pub open spec fn all_ids(vocab: Map<Seq<char>, i64>, tokens: Seq<Seq<char>>) -> Seq<i64>
    decreases tokens.len(),
{
    if tokens.len() == 0 {
        Seq::empty()
    } else {
        all_ids(vocab, tokens.drop_last()) + word_ids(vocab, tokens.last())
    }
}

/// The first `n` entries, or all where there are fewer.
pub open spec fn at_most(s: Seq<i64>, n: int) -> Seq<i64> {
    if s.len() > n {
        s.take(n)
    } else {
        s
    }
}

/// How many ids fit between `[CLS]`, `[SEP]` and at least one `[PAD]`.
pub open spec fn max_content(max_seq_len: nat) -> int {
    if max_seq_len < 3 {
        0
    } else {
        max_seq_len - 3
    }
}

/// `[CLS]`, as many ids as fit, `[SEP]`.
pub open spec fn framed(ids: Seq<i64>, max_seq_len: nat) -> Seq<i64> {
    seq![CLS_ID] + at_most(ids, max_content(max_seq_len)) + seq![SEP_ID]
}

/// The ids cut or padded to `max_seq_len`.
pub open spec fn input_ids(ids: Seq<i64>, max_seq_len: nat) -> Seq<i64> {
    let full = framed(ids, max_seq_len);
    Seq::new(
        max_seq_len,
        |i: int|
            if i < full.len() {
                full[i]
            } else {
                PAD_ID
            },
    )
}

/// One for each real token, zero for padding.
pub open spec fn attention_mask(ids: Seq<i64>, max_seq_len: nat) -> Seq<i64> {
    let full = framed(ids, max_seq_len);
    Seq::new(
        max_seq_len,
        |i: int|
            if i < full.len() {
                1
            } else {
                0
            },
    )
}

/// The ids of tokens, `max` at most.
fn content_ids(tokens: &Vec<String>, vocab: &Vocab, max: usize) -> (r: Vec<i64>)
    ensures
        r@ == at_most(all_ids(vocab@, strs(tokens@)), max as int),
{
    let ghost all = strs(tokens@);
    let mut ids: Vec<i64> = Vec::new();
    let mut i: usize = 0;
    assert(ids@ =~= at_most(all_ids(vocab@, all.take(0)), max as int));
    while i < tokens.len()
        invariant
            all == strs(tokens@),
            i <= tokens@.len(),
            ids@ == at_most(all_ids(vocab@, all.take(i as int)), max as int),
        decreases tokens@.len() - i,
    {
        let mut more = wordpiece(tokens[i].as_str(), vocab);
        proof {
            assert(all.take(i + 1).drop_last() =~= all.take(i as int));
            assert(all.take(i + 1).last() == tokens@[i as int]@);
        }
        let ghost before = all_ids(vocab@, all.take(i as int));
        ids.append(&mut more);
        ids.truncate(max);
        assert(ids@ =~= at_most(all_ids(vocab@, all.take(i + 1)), max as int));
        i += 1;
    }
    assert(all.take(all.len() as int) =~= all);
    ids
}

/// The model's input for tokens: `(input_ids, attention_mask)` padded to
/// `max_seq_len`.
pub fn model_input(tokens: &Vec<String>, vocab: &Vocab, max_seq_len: usize) -> (r: (
    Vec<i64>,
    Vec<i64>,
))
    ensures
        r.0@ == input_ids(all_ids(vocab@, strs(tokens@)), max_seq_len as nat),
        r.1@ == attention_mask(all_ids(vocab@, strs(tokens@)), max_seq_len as nat),
{
    let max: usize = if max_seq_len < 3 {
        0
    } else {
        max_seq_len - 3
    };
    let mut ids = content_ids(tokens, vocab, max);
    let ghost all = all_ids(vocab@, strs(tokens@));
    let mut full: Vec<i64> = vec![CLS_ID];
    full.append(&mut ids);
    full.push(SEP_ID);
    assert(full@ =~= framed(all, max_seq_len as nat));
    let mut padded: Vec<i64> = Vec::new();
    let mut mask: Vec<i64> = Vec::new();
    let mut i: usize = 0;
    while i < max_seq_len
        invariant
            i <= max_seq_len,
            full@ == framed(all, max_seq_len as nat),
            padded@ == input_ids(all, max_seq_len as nat).take(i as int),
            mask@ == attention_mask(all, max_seq_len as nat).take(i as int),
        decreases max_seq_len - i,
    {
        if i < full.len() {
            padded.push(full[i]);
            mask.push(1);
        } else {
            padded.push(PAD_ID);
            mask.push(0);
        }
        i += 1;
        assert(padded@ =~= input_ids(all, max_seq_len as nat).take(i as int));
        assert(mask@ =~= attention_mask(all, max_seq_len as nat).take(i as int));
    }
    assert(padded@ =~= input_ids(all, max_seq_len as nat));
    assert(mask@ =~= attention_mask(all, max_seq_len as nat));
    (padded, mask)
}

/// Tokenizes `text` into `(input_ids, attention_mask)` padded to
/// `max_seq_len`: `[CLS] <wordpieces> [SEP] [PAD]...`, mask `1` for real
/// tokens and `0` for padding.
pub fn tokenize(text: &str, vocab: &Vocab, max_seq_len: usize) -> (r: (Vec<i64>, Vec<i64>))
    ensures
        r.0@ == input_ids(
            all_ids(vocab@, lower_tokens(lowercase(cleaned(text@)))),
            max_seq_len as nat,
        ),
        r.1@ == attention_mask(
            all_ids(vocab@, lower_tokens(lowercase(cleaned(text@)))),
            max_seq_len as nat,
        ),
{
    model_input(&basic_tokenize(text), vocab, max_seq_len)
}

// ---------------------------------------------------------------------------
// Laws
// ---------------------------------------------------------------------------

/// A model's input is as long as asked for, and where there is room for it,
/// starts with `[CLS]`, has its `[SEP]` behind the last id and at least one
/// `[PAD]`.
pub proof fn law_input_is_framed(ids: Seq<i64>, max_seq_len: nat)
    requires
        max_seq_len >= 3,
    ensures
        ({
            let n = if ids.len() < max_seq_len - 3 {
                ids.len() as int
            } else {
                max_seq_len - 3
            };
            let input = input_ids(ids, max_seq_len);
            let mask = attention_mask(ids, max_seq_len);
            &&& input.len() == max_seq_len == mask.len()
            &&& input[0] == CLS_ID
            &&& input.subrange(1, n + 1) == ids.take(n)
            &&& input[n + 1] == SEP_ID
            &&& forall|i: int|
                0 <= i < max_seq_len ==> #[trigger] mask[i] == (if i < n + 2 {
                    1i64
                } else {
                    0i64
                })
            &&& forall|i: int| n + 2 <= i < max_seq_len ==> #[trigger] input[i] == PAD_ID
            &&& mask.last() == 0
        }),
{
    let n = if ids.len() < max_seq_len - 3 {
        ids.len() as int
    } else {
        max_seq_len - 3
    };
    let full = framed(ids, max_seq_len);
    assert(full.len() == n + 2);
    assert(input_ids(ids, max_seq_len).subrange(1, n + 1) =~= ids.take(n));
}

/// A cleaned text has no control characters, and no two spaces in a row.
pub proof fn law_cleaned_text_is_clean(s: Seq<char>)
    ensures
        forall|i: int|
            0 <= i < cleaned(s).len() ==> (#[trigger] cleaned(s)[i] == ' ' || !is_dropped(
                cleaned(s)[i],
            ) && !crate::text::is_white(cleaned(s)[i])),
        forall|i: int|
            0 < i < cleaned(s).len() ==> (#[trigger] cleaned(s)[i]) != ' ' || cleaned(s)[i - 1]
                != ' ',
    decreases s.len(),
{
    if s.len() > 0 {
        law_cleaned_text_is_clean(s.drop_last());
        let rest = cleaned(s.drop_last());
        let all = cleaned(s);
        assert forall|i: int| 0 < i < all.len() implies (#[trigger] all[i]) != ' ' || all[i - 1]
            != ' ' by {
            if i < rest.len() {
                assert(all[i] == rest[i]);
                assert(all[i - 1] == rest[i - 1]);
            }
        }
        assert forall|i: int| 0 <= i < all.len() implies (#[trigger] all[i] == ' ' || !is_dropped(
            all[i],
        ) && !crate::text::is_white(all[i])) by {
            if i < rest.len() {
                assert(all[i] == rest[i]);
            }
        }
    }
}

/// The tokens of a word, put together again, are the word.
pub proof fn law_tokens_cover_the_word(w: Seq<char>, i: int)
    requires
        0 <= i <= w.len(),
    ensures
        word_tokens(w, i).flatten() == w.skip(i),
        forall|k: int|
            0 <= k < word_tokens(w, i).len() ==> (#[trigger] word_tokens(w, i)[k]).len() > 0,
    decreases w.len() - i,
{
    let t = word_tokens(w, i);
    if i >= w.len() {
        assert(t =~= Seq::<Seq<char>>::empty());
        assert(t.flatten() =~= w.skip(i));
    } else {
        lemma_plain_end(w, i);
        let end = if is_punctuation_char(w[i]) {
            i + 1
        } else {
            plain_end(w, i)
        };
        let first = w.subrange(i, end);
        if is_punctuation_char(w[i]) {
            assert(first =~= seq![w[i]]);
        }
        law_tokens_cover_the_word(w, end);
        assert(t == seq![first] + word_tokens(w, end));
        assert(t.first() == first);
        assert(t.drop_first() =~= word_tokens(w, end));
        assert(t.flatten() == t.first() + t.drop_first().flatten());
        assert(first + w.skip(end) =~= w.skip(i));
        assert forall|k: int| 0 <= k < t.len() implies (#[trigger] t[k]).len() > 0 by {
            if k > 0 {
                assert(t[k] == word_tokens(w, end)[k - 1]);
            }
        }
    }
}

/// How the vocabulary spells the characters `from..to` of a word: as they are
/// where the word begins with them, behind two number signs elsewhere.
pub open spec fn spelled(word: Seq<char>, from: int, to: int) -> Seq<char> {
    if from == 0 {
        word.take(to)
    } else {
        seq!['#', '#'] + word.subrange(from, to)
    }
}

/// Whether the characters `from..to` of a word are a piece of the vocabulary,
/// and no more characters from there on are one.
pub open spec fn is_longest_piece(
    vocab: Map<Seq<char>, i64>,
    word: Seq<char>,
    from: int,
    to: int,
) -> bool {
    &&& 0 <= from < to <= word.len()
    &&& vocab.contains_key(spelled(word, from, to))
    &&& forall|longer: int|
        to < longer <= word.len() ==> !vocab.contains_key(#[trigger] spelled(word, from, longer))
}

/// Whether the `k`th cut of a word is in front of a longest piece, which the
/// next cut ends and whose id is the `k`th.
pub open spec fn has_piece(
    vocab: Map<Seq<char>, i64>,
    word: Seq<char>,
    cuts: Seq<int>,
    ids: Seq<i64>,
    k: int,
) -> bool {
    &&& is_longest_piece(vocab, word, cuts[k], cuts[k + 1])
    &&& ids[k] == vocab[spelled(word, cuts[k], cuts[k + 1])]
}

/// Whether `cuts` breaks the front of a word into longest pieces, whose ids are
/// `ids`.
pub open spec fn cuts_into(
    vocab: Map<Seq<char>, i64>,
    word: Seq<char>,
    cuts: Seq<int>,
    ids: Seq<i64>,
) -> bool {
    &&& cuts.len() == ids.len() + 1
    &&& cuts[0] == 0
    &&& forall|k: int| 0 <= k < ids.len() ==> #[trigger] has_piece(vocab, word, cuts, ids, k)
}

proof fn lemma_spelled(word: Seq<char>, from: int, to: int)
    requires
        0 <= from <= to <= word.len(),
    ensures
        piece_key(word, from, to) == spelled(word, from, to),
{
    reveal_strlit("##");
    assert(piece_key(word, from, to) =~= spelled(word, from, to));
}

proof fn lemma_nothing_longer(
    vocab: Map<Seq<char>, i64>,
    word: Seq<char>,
    start: int,
    end: int,
    longer: int,
)
    requires
        0 <= start < longer <= end <= word.len(),
        longest(vocab, word, start, end) matches Some(e) ==> e < longer,
    ensures
        !vocab.contains_key(spelled(word, start, longer)),
    decreases end - start,
{
    lemma_spelled(word, start, end);
    if !vocab.contains_key(piece_key(word, start, end)) && longer < end {
        lemma_nothing_longer(vocab, word, start, end - 1, longer);
    }
}

proof fn lemma_cuts_push(
    vocab: Map<Seq<char>, i64>,
    word: Seq<char>,
    cuts: Seq<int>,
    ids: Seq<i64>,
    end: int,
)
    requires
        cuts_into(vocab, word, cuts, ids),
        is_longest_piece(vocab, word, cuts.last(), end),
    ensures
        cuts_into(
            vocab,
            word,
            cuts.push(end),
            ids.push(vocab[spelled(word, cuts.last(), end)]),
        ),
{
    let c = cuts.push(end);
    let d = ids.push(vocab[spelled(word, cuts.last(), end)]);
    assert forall|k: int| 0 <= k < d.len() implies #[trigger] has_piece(vocab, word, c, d, k) by {
        if k < ids.len() {
            assert(has_piece(vocab, word, cuts, ids, k));
            assert(d[k] == ids[k]);
            assert(c[k] == cuts[k] && c[k + 1] == cuts[k + 1]);
        } else {
            assert(c[k] == cuts.last() && c[k + 1] == end);
        }
    }
    assert(c[0] == cuts[0]);
}

proof fn lemma_cuts(
    vocab: Map<Seq<char>, i64>,
    word: Seq<char>,
    cuts: Seq<int>,
    ids: Seq<i64>,
) -> (r: (Seq<int>, Seq<i64>))
    requires
        cuts_into(vocab, word, cuts, ids),
        0 <= cuts.last() <= word.len(),
    ensures
        cuts_into(vocab, word, r.0, r.1),
        0 <= r.0.last() <= word.len(),
        match pieces(vocab, word, cuts.last(), ids) {
            Some(all) => all == r.1 && r.0.last() == word.len(),
            None => r.0.last() < word.len() && forall|to: int|
                r.0.last() < to <= word.len() ==> !vocab.contains_key(
                    #[trigger] spelled(word, r.0.last(), to),
                ),
        },
    decreases word.len() - cuts.last(),
{
    let start = cuts.last();
    let n = word.len() as int;
    if start >= n {
        (cuts, ids)
    } else {
        lemma_longest(vocab, word, start, n);
        assert forall|longer: int|
            (longest(vocab, word, start, n) matches Some(e) ==> e < longer) && start < longer
                <= n implies !vocab.contains_key(#[trigger] spelled(word, start, longer)) by {
            lemma_nothing_longer(vocab, word, start, n, longer);
        }
        match longest(vocab, word, start, n) {
            None => (cuts, ids),
            Some(end) => {
                lemma_spelled(word, start, end);
                let id = vocab[piece_key(word, start, end)];
                lemma_cuts_push(vocab, word, cuts, ids, end);
                lemma_cuts(vocab, word, cuts.push(end), ids.push(id))
            },
        }
    }
}

/// Every piece of a word is the longest there is. A word of at most a hundred
/// characters is cut from its front on, each piece being one of the vocabulary
/// while nothing longer from the same place is; its ids are those of the
/// pieces, and they cover the word. Where a cut has no piece behind it at all,
/// the word is the one id of an unknown word, as is a longer word.
pub proof fn law_pieces_are_longest(vocab: Map<Seq<char>, i64>, word: Seq<char>) -> (r: (
    Seq<int>,
    Seq<i64>,
))
    ensures
        word.len() > 100 ==> word_ids(vocab, word) == seq![100i64],
        cuts_into(vocab, word, r.0, r.1),
        0 <= r.0.last() <= word.len(),
        word.len() <= 100 && r.0.last() == word.len() ==> word_ids(vocab, word) == r.1,
        word.len() <= 100 && r.0.last() < word.len() ==> word_ids(vocab, word) == seq![100i64],
        r.0.last() < word.len() ==> forall|to: int|
            r.0.last() < to <= word.len() ==> !vocab.contains_key(
                #[trigger] spelled(word, r.0.last(), to),
            ),
{
    let cuts: Seq<int> = seq![0];
    let none = Seq::<i64>::empty();
    assert(cuts.last() == 0);
    lemma_cuts(vocab, word, cuts, none)
}

/// A word of the vocabulary, of at most a hundred characters, has exactly its
/// own id, whatever pieces of it the vocabulary holds besides.
pub proof fn law_known_words_stay_whole(vocab: Map<Seq<char>, i64>, word: Seq<char>)
    requires
        0 < word.len() <= 100,
        vocab.contains_key(word),
    ensures
        word_ids(vocab, word) == seq![vocab[word]],
{
    let n = word.len() as int;
    assert(word.take(n) =~= word);
    lemma_spelled(word, 0, n);
    let first = Seq::<i64>::empty().push(vocab[word]);
    assert(pieces(vocab, word, n, first) == Some(first));
    assert(longest(vocab, word, 0, n) == Some(n));
    assert(first =~= seq![vocab[word]]);
}

/// The tokens of a word are its punctuation characters, each alone, and what
/// stands between them: a token of several characters has none, and two tokens
/// without any are never neighbours.
pub proof fn law_punctuation_stands_alone(w: Seq<char>, i: int, k: int)
    requires
        0 <= i <= w.len(),
        0 <= k < word_tokens(w, i).len(),
    ensures
        ({
            let t = word_tokens(w, i);
            &&& t[k].len() > 0
            &&& is_ascii_punctuation(t[k][0]) ==> t[k].len() == 1
            &&& forall|j: int|
                0 < j < t[k].len() ==> !is_ascii_punctuation(#[trigger] t[k][j])
            &&& k + 1 < t.len() ==> is_ascii_punctuation(t[k][0]) || is_ascii_punctuation(
                t[k + 1][0],
            )
        }),
    decreases w.len() - i,
{
    let t = word_tokens(w, i);
    if i < w.len() {
        lemma_plain_end(w, i);
        lemma_plain_run(w, i);
        let end = if is_punctuation_char(w[i]) {
            i + 1
        } else {
            plain_end(w, i)
        };
        let rest = word_tokens(w, end);
        let first = w.subrange(i, end);
        if is_punctuation_char(w[i]) {
            assert(first =~= seq![w[i]]);
        }
        assert(t == seq![first] + rest);
        if k > 0 {
            law_punctuation_stands_alone(w, end, k - 1);
            assert(t[k] == rest[k - 1]);
            if k + 1 < t.len() {
                assert(t[k + 1] == rest[k]);
            }
        } else {
            assert(t[0] == first);
            assert(first[0] == w[i]);
            lemma_punctuation(w[i]);
            assert forall|j: int| 0 < j < first.len() implies !is_ascii_punctuation(
                #[trigger] first[j],
            ) by {
                assert(first[j] == w[i + j]);
                lemma_punctuation(w[i + j]);
            }
            if t.len() > 1 {
                assert(t[1] == rest[0]);
                lemma_plain_end(w, end);
                assert(rest[0][0] == w[end]);
                lemma_punctuation(w[end]);
            }
        }
    }
}

proof fn lemma_punctuation(c: char)
    ensures
        is_punctuation_char(c) == is_ascii_punctuation(c),
{
}

/// `!` to `/`, `:` to `@`, `[` to the backquote, and `{` to `~`.
pub open spec fn is_ascii_punctuation(c: char) -> bool {
    '!' <= c <= '/' || ':' <= c <= '@' || '[' <= c <= '`' || '{' <= c <= '~'
}

proof fn lemma_plain_run(w: Seq<char>, i: int)
    requires
        0 <= i <= w.len(),
    ensures
        forall|k: int| i <= k < plain_end(w, i) ==> !is_punctuation_char(#[trigger] w[k]),
        plain_end(w, i) < w.len() ==> is_punctuation_char(w[plain_end(w, i)]),
    decreases w.len() - i,
{
    if i < w.len() && !is_punctuation_char(w[i]) {
        lemma_plain_run(w, i + 1);
    }
}

/// The id of a token is the number of its line, counted from zero; of a token
/// that stands on several lines, the last counts, and a vocabulary has no
/// tokens but those on its lines.
pub proof fn law_ids_are_line_numbers(tokens: Seq<Seq<char>>, token: Seq<char>, i: int)
    requires
        tokens.len() <= i64::MAX,
    ensures
        vocab_of(tokens).contains_key(token) == tokens.contains(token),
        0 <= i < tokens.len() && tokens[i] == token && (forall|j: int|
            i < j < tokens.len() ==> #[trigger] tokens[j] != token) ==> vocab_of(tokens)[token]
            == i,
    decreases tokens.len(),
{
    if tokens.len() > 0 {
        let rest = tokens.drop_last();
        law_ids_are_line_numbers(rest, token, i);
        if tokens.contains(token) && tokens.last() != token {
            let k = choose|k: int| 0 <= k < tokens.len() && tokens[k] == token;
            assert(rest[k] == token);
        }
        if rest.contains(token) {
            let k = choose|k: int| 0 <= k < rest.len() && rest[k] == token;
            assert(tokens[k] == token);
        }
        if tokens.last() == token {
            assert(tokens[tokens.len() - 1] == token);
        }
        if 0 <= i < rest.len() && tokens[i] == token && (forall|j: int|
            i < j < tokens.len() ==> #[trigger] tokens[j] != token) {
            assert(rest[i] == token);
            assert(tokens[tokens.len() - 1] != token);
            assert forall|j: int| i < j < rest.len() implies #[trigger] rest[j] != token by {
                assert(tokens[j] != token);
            }
        }
    }
}

/// Whether a text should hold a character: it is no null, no replacement
/// character, and no control character but the tabulator, the line feed and
/// the carriage return.
pub open spec fn is_text_char(c: char) -> bool {
    let n = c as u32;
    ||| n == 9
    ||| n == 10
    ||| n == 13
    ||| 32 <= n <= 126
    ||| 160 <= n && n != 0xfffd
}

/// Cleaning changes no word: a cleaned text has the words of the text without
/// the characters that it should not hold, letter for letter and in order.
pub proof fn law_cleaning_keeps_the_words(s: Seq<char>)
    ensures
        words(cleaned(s)) == words(s.filter(|c: char| is_text_char(c))),
    decreases s.len(),
{
    lemma_cleaned(s);
}

proof fn lemma_dropped(c: char)
    ensures
        is_dropped(c) == !is_text_char(c),
{
}

proof fn lemma_cleaned(s: Seq<char>)
    ensures
        ({
            let kept = s.filter(|c: char| is_text_char(c));
            &&& words(cleaned(s)) == words(kept)
            &&& cleaned(s).len() == 0 <==> kept.len() == 0
            &&& kept.len() > 0 ==> crate::text::is_white(kept.last()) == crate::text::is_white(
                cleaned(s).last(),
            )
            &&& kept.len() > 0 ==> crate::text::is_white(kept.last()) == (cleaned(s).last() == ' ')
        }),
    decreases s.len(),
{
    reveal(Seq::filter);
    if s.len() > 0 {
        let rest = s.drop_last();
        let c = s.last();
        lemma_cleaned(rest);
        lemma_dropped(c);
        crate::text::law_words_grow(cleaned(rest), c);
        crate::text::law_words_grow(cleaned(rest), ' ');
        crate::text::law_words_grow(rest.filter(|c: char| is_text_char(c)), c);
    }
}

/// The ids of tokens stand in the order of the tokens: those of two lists one
/// behind the other, and those of one token are its own.
pub proof fn law_ids_keep_their_order(
    vocab: Map<Seq<char>, i64>,
    first: Seq<Seq<char>>,
    second: Seq<Seq<char>>,
    one: Seq<char>,
)
    ensures
        all_ids(vocab, first + second) == all_ids(vocab, first) + all_ids(vocab, second),
        all_ids(vocab, seq![one]) == word_ids(vocab, one),
        all_word_tokens(first + second) == all_word_tokens(first) + all_word_tokens(second),
        all_word_tokens(seq![one]) == word_tokens(one, 0),
    decreases second.len(),
{
    let none = Seq::<Seq<char>>::empty();
    assert(seq![one].drop_last() =~= none);
    assert(all_ids(vocab, none) + word_ids(vocab, one) =~= word_ids(vocab, one));
    assert(all_word_tokens(none) + word_tokens(one, 0) =~= word_tokens(one, 0));
    if second.len() == 0 {
        assert(first + second =~= first);
        assert(all_ids(vocab, first) + all_ids(vocab, second) =~= all_ids(vocab, first));
        assert(all_word_tokens(first) + all_word_tokens(second) =~= all_word_tokens(first));
    } else {
        assert((first + second).drop_last() =~= first + second.drop_last());
        law_ids_keep_their_order(vocab, first, second.drop_last(), one);
        assert(all_ids(vocab, first + second) =~= all_ids(vocab, first) + all_ids(vocab, second));
        assert(all_word_tokens(first + second) =~= all_word_tokens(first) + all_word_tokens(
            second,
        ));
    }
}

/// Two words with white space between them are tokenized one after the other.
pub proof fn law_words_are_tokenized_in_order(a: Seq<char>, gap: char, b: Seq<char>)
    requires
        a.len() > 0,
        b.len() > 0,
        forall|i: int| 0 <= i < a.len() ==> !crate::text::is_white(#[trigger] a[i]),
        forall|i: int| 0 <= i < b.len() ==> !crate::text::is_white(#[trigger] b[i]),
        crate::text::is_white(gap),
    ensures
        lower_tokens(a + seq![gap] + b) == word_tokens(a, 0) + word_tokens(b, 0),
{
    lemma_word_by_word(Seq::empty(), a);
    let front = a.push(gap);
    crate::text::law_words_grow(a, gap);
    lemma_word_by_word(front, b);
    assert(Seq::<char>::empty() + a =~= a);
    assert(a + seq![gap] + b =~= front + b);
    crate::text::law_words_grow(Seq::empty(), gap);
    let none = Seq::<Seq<char>>::empty();
    let ws = none.push(a).push(b);
    assert(words(a + seq![gap] + b) == ws);
    let vocab = Map::<Seq<char>, i64>::empty();
    assert(ws =~= seq![a] + seq![b]);
    law_ids_keep_their_order(vocab, seq![a], seq![b], a);
    law_ids_keep_their_order(vocab, seq![a], seq![b], b);
}

proof fn lemma_word_by_word(front: Seq<char>, w: Seq<char>)
    requires
        front.len() == 0 || crate::text::is_white(front.last()),
        w.len() > 0,
        forall|i: int| 0 <= i < w.len() ==> !crate::text::is_white(#[trigger] w[i]),
    ensures
        words(front + w) == words(front).push(w),
    decreases w.len(),
{
    let rest = w.drop_last();
    let c = w[w.len() - 1];
    assert(!crate::text::is_white(c));
    assert((front + w) =~= (front + rest).push(c));
    crate::text::law_words_grow(front + rest, c);
    if rest.len() == 0 {
        assert(front + rest =~= front);
        assert(w =~= seq![c]);
    } else {
        assert forall|i: int| 0 <= i < rest.len() implies !crate::text::is_white(
            #[trigger] rest[i],
        ) by {
            assert(rest[i] == w[i]);
        }
        lemma_word_by_word(front, rest);
        assert((front + rest).last() == rest[rest.len() - 1]);
        assert(words(front).push(rest).drop_last() =~= words(front));
        assert(rest.push(c) =~= w);
    }
}

} // verus!
