//! Pure-Rust grapheme-to-phoneme conversion via [`misaki_rs`].
//!
//! [`MisakiG2p`] wraps `misaki_rs::G2P` and produces Kokoro-compatible IPA
//! phonemes directly, no external binary needed.

use vstd::prelude::*;

use crate::error::TtsError;
use crate::text::{chars_of, trim};

verus! {

/// The engine of `misaki_rs`.
#[verifier::external_type_specification]
#[verifier::external_body]
pub struct ExG2P(misaki_rs::G2P);

/// Whether an engine converts American English.
pub uninterp spec fn is_american(engine: misaki_rs::G2P) -> bool;

/// The phonemes of an American English text, or the message of the failure.
pub uninterp spec fn american_ipa(text: Seq<char>) -> Result<Seq<char>, Seq<char>>;

/// The longest run without a blank that the engine is given, in characters: in
/// a word of some hundred thousand letters its tokenizer would never come to an
/// end.
pub const MAX_ENGINE_RUN: usize = 50_000;

/// The first place at or behind `from` where `c` stands; the length of the
/// text where there is none.
pub open spec fn place_of(text: Seq<char>, c: char, from: int) -> int
    decreases text.len() - from,
{
    if from >= text.len() {
        text.len() as int
    } else if text[from] == c {
        from
    } else {
        place_of(text, c, from + 1)
    }
}

/// Where the two parts of a link marker, `[..](..)`, that begins at `at` are
/// closed. The first part is not empty.
pub open spec fn link_at(text: Seq<char>, at: int) -> Option<(int, int)> {
    let first = place_of(text, ']', at + 1);
    let second = place_of(text, ')', first + 2);
    if text[at] == '[' && first > at + 1 && first + 1 < text.len() && text[first + 1] == '('
        && second < text.len() {
        Some((first, second))
    } else {
        None
    }
}

/// What the engine reads from `from` on: of a link marker the first part alone.
pub open spec fn unlinked(text: Seq<char>, from: int) -> Seq<char>
    decreases text.len() - from,
    via unlinked_decreases
{
    if from >= text.len() {
        Seq::empty()
    } else {
        match link_at(text, from) {
            Some((first, second)) => text.subrange(from + 1, first) + unlinked(text, second + 1),
            None => seq![text[from]] + unlinked(text, from + 1),
        }
    }
}

#[via_fn]
proof fn unlinked_decreases(text: Seq<char>, from: int) {
    if from < text.len() {
        lemma_place_of(text, ']', from + 1);
        lemma_place_of(text, ')', place_of(text, ']', from + 1) + 2);
    }
}

proof fn lemma_place_of(text: Seq<char>, c: char, from: int)
    ensures
        place_of(text, c, from) <= text.len(),
        from <= text.len() ==> from <= place_of(text, c, from),
    decreases text.len() - from,
{
    if from < text.len() && text[from] != c {
        lemma_place_of(text, c, from + 1);
    }
}

/// Whether `c` parts two runs of characters.
pub open spec fn is_blank(c: char) -> bool {
    c == ' ' || c == '\t' || c == '\n' || c == '\u{c}' || c == '\r'
}

/// How many characters without a blank stand in front of `k`.
pub open spec fn run_before(text: Seq<char>, k: int) -> nat
    decreases k,
{
    if k <= 0 || is_blank(text[k - 1]) {
        0
    } else {
        run_before(text, k - 1) + 1
    }
}

/// Whether a word that ends in `ing`, in any case, may end with the one that
/// stands at `k`: no word ends in front of a lower-case letter.
pub open spec fn ing_at(text: Seq<char>, k: int) -> bool {
    &&& 0 <= k
    &&& k + 3 <= text.len()
    &&& text[k] == 'i' || text[k] == 'I'
    &&& text[k + 1] == 'n' || text[k + 1] == 'N'
    &&& text[k + 2] == 'g' || text[k + 2] == 'G'
    &&& k + 3 < text.len() ==> !('a' <= text[k + 3] <= 'z')
}

/// Whether `c` is an apostrophe, straight or curly.
pub open spec fn is_apostrophe(c: char) -> bool {
    c == '\'' || c == '\u{2018}' || c == '\u{2019}'
}

/// Whether such an ending is the next thing at `k`, an apostrophe aside.
pub open spec fn ing_follows(text: Seq<char>, k: int) -> bool {
    ing_at(text, k) || 0 <= k < text.len() && is_apostrophe(text[k]) && ing_at(text, k + 1)
}

/// Whether a character stands there that takes more than one byte, also after
/// apostrophes are made straight and the trade mark sign is spelled out.
pub open spec fn is_wide(text: Seq<char>, k: int) -> bool {
    &&& 0 <= k < text.len()
    &&& text[k] as u32 > 127
    &&& !is_apostrophe(text[k])
    &&& text[k] != '\u{2122}'
}

/// Whether the engine can be given a text. Once the link markers are resolved,
/// it cuts a word in `ing` that it does not know one byte before the ending,
/// where a character has to begin.
pub open spec fn is_readable(text: Seq<char>) -> bool {
    let read = unlinked(text, 0);
    &&& forall|k: int| 0 <= k <= read.len() ==> #[trigger] run_before(read, k) <= MAX_ENGINE_RUN
    &&& forall|k: int| #[trigger] is_wide(read, k) ==> !ing_follows(read, k + 1)
}

/// What the engine makes of a text; one that it may not be given is a failure.
pub open spec fn engine_says(text: Seq<char>) -> Result<Seq<char>, Seq<char>> {
    if is_readable(text) {
        american_ipa(text)
    } else {
        Err("the text cannot be read"@)
    }
}

/// `misaki_rs::G2P::new` with `Language::EnglishUS`: loads the engine for
/// American English.
#[verifier::external_body]
fn load_engine() -> (r: misaki_rs::G2P)
    ensures
        is_american(r),
{
    misaki_rs::G2P::new(misaki_rs::Language::EnglishUS)
}

/// `misaki_rs::G2P::g2p`, of which the phoneme string is kept and the tokens
/// are dropped: an engine for American English makes of a text what
/// `american_ipa` names; a failure is handed out as its `Display` text. The
/// call panics, or does not return, on texts of those that `is_readable`
/// leaves out: which ones is up to the words that the engine knows.
#[verifier::external_body]
fn run_engine(engine: &misaki_rs::G2P, text: &str) -> (r: Result<String, String>)
    requires
        is_american(*engine),
        is_readable(text@),
    ensures
        match r {
            Ok(ipa) => american_ipa(text@) == Ok::<Seq<char>, Seq<char>>(ipa@),
            Err(e) => american_ipa(text@) == Err::<Seq<char>, Seq<char>>(e@),
        },
{
    engine.g2p(text).map(|(ipa, _tokens)| ipa).map_err(|e| e.to_string())
}

/// For each place of a text, and the one behind its end, the next place of `c`.
fn places_of(chars: &Vec<char>, c: char) -> (r: Vec<usize>)
    ensures
        r@.len() == chars@.len() + 1,
        forall|i: int| 0 <= i <= chars@.len() ==> #[trigger] r@[i] == place_of(chars@, c, i),
{
    let n: usize = chars.len();
    let mut r: Vec<usize> = Vec::new();
    let mut k: usize = 0;
    while k < n
        invariant
            k <= n,
            r@.len() == k,
        decreases n - k,
    {
        r.push(n);
        k += 1;
    }
    r.push(n);
    let mut i: usize = n;
    while i > 0
        invariant
            i <= n == chars@.len(),
            r@.len() == n + 1,
            forall|j: int| i <= j <= n ==> #[trigger] r@[j] == place_of(chars@, c, j),
        decreases i,
    {
        i -= 1;
        let next: usize = if chars[i] == c {
            i
        } else {
            r[i + 1]
        };
        r.set(i, next);
    }
    r
}

/// What the engine reads of a text.
fn without_links(chars: &Vec<char>) -> (r: Vec<char>)
    ensures
        r@ == unlinked(chars@, 0),
{
    let n: usize = chars.len();
    let first_parts = places_of(chars, ']');
    let second_parts = places_of(chars, ')');
    let mut r: Vec<char> = Vec::new();
    let mut i: usize = 0;
    assert(r@ + unlinked(chars@, 0) =~= unlinked(chars@, 0));
    while i < n
        invariant
            i <= n == chars@.len(),
            first_parts@.len() == n + 1,
            second_parts@.len() == n + 1,
            forall|j: int|
                0 <= j <= n ==> #[trigger] first_parts@[j] == place_of(chars@, ']', j),
            forall|j: int|
                0 <= j <= n ==> #[trigger] second_parts@[j] == place_of(chars@, ')', j),
            r@ + unlinked(chars@, i as int) == unlinked(chars@, 0),
        decreases n - i,
    {
        let first: usize = first_parts[i + 1];
        proof {
            lemma_place_of(chars@, ']', i + 1);
        }
        let closed: bool = first > i + 1 && first < n && first + 1 < n && chars[first + 1] == '(';
        let second: usize = if closed {
            second_parts[first + 2]
        } else {
            n
        };
        proof {
            if closed {
                lemma_place_of(chars@, ')', first + 2);
            }
        }
        let ghost before = r@;
        if chars[i] == '[' && second < n {
            let mut k: usize = i + 1;
            while k < first
                invariant
                    i < k <= first < n == chars@.len(),
                    r@ == before + chars@.subrange(i + 1, k as int),
                decreases first - k,
            {
                r.push(chars[k]);
                k += 1;
                assert(r@ =~= before + chars@.subrange(i + 1, k as int));
            }
            assert(link_at(chars@, i as int) == Some((first as int, second as int)));
            assert(r@ + unlinked(chars@, second + 1) =~= before + unlinked(chars@, i as int));
            i = second + 1;
        } else {
            r.push(chars[i]);
            assert(link_at(chars@, i as int) is None);
            assert(r@ + unlinked(chars@, i + 1) =~= before + unlinked(chars@, i as int));
            i += 1;
        }
    }
    assert(r@ + unlinked(chars@, i as int) =~= r@);
    r
}

fn blank(c: char) -> (r: bool)
    ensures
        r == is_blank(c),
{
    c == ' ' || c == '\t' || c == '\n' || c == '\u{c}' || c == '\r'
}

fn apostrophe(c: char) -> (r: bool)
    ensures
        r == is_apostrophe(c),
{
    c == '\'' || c == '\u{2018}' || c == '\u{2019}'
}

/// Whether a word in `ing` may end with the one at `k` of `chars`.
fn has_ing_at(chars: &Vec<char>, k: usize) -> (r: bool)
    ensures
        r == ing_at(chars@, k as int),
{
    let n: usize = chars.len();
    if k >= n || n - k < 3 {
        return false;
    }
    let ends: bool = n - k == 3 || !('a' <= chars[k + 3] && chars[k + 3] <= 'z');
    ends && (chars[k] == 'i' || chars[k] == 'I') && (chars[k + 1] == 'n' || chars[k + 1] == 'N')
        && (chars[k + 2] == 'g' || chars[k + 2] == 'G')
}

/// Whether the engine can be given a text.
pub fn readable(text: &str) -> (r: bool)
    ensures
        r == is_readable(text@),
{
    let read = without_links(&chars_of(text));
    let mut run: usize = 0;
    let mut i: usize = 0;
    while i < read.len()
        invariant
            read@ == unlinked(text@, 0),
            i <= read@.len(),
            run == run_before(read@, i as int),
            run <= MAX_ENGINE_RUN,
            forall|k: int|
                0 <= k <= i ==> #[trigger] run_before(read@, k) <= MAX_ENGINE_RUN,
            forall|k: int| k < i && #[trigger] is_wide(read@, k) ==> !ing_follows(read@, k + 1),
        decreases read@.len() - i,
    {
        let c = read[i];
        if blank(c) {
            run = 0;
        } else {
            run += 1;
        }
        assert(run == run_before(read@, i + 1));
        if run > MAX_ENGINE_RUN {
            return false;
        }
        if c as u32 > 127 && !apostrophe(c) && c != '\u{2122}' {
            assert(is_wide(read@, i as int));
            if has_ing_at(&read, i + 1) {
                return false;
            }
            if i + 1 < read.len() && apostrophe(read[i + 1]) && has_ing_at(&read, i + 2) {
                return false;
            }
        }
        i += 1;
    }
    true
}

/// A lazily-initialised misaki G2P engine.
pub struct MisakiG2p {
    inner: Option<misaki_rs::G2P>,
}

/// What the engine makes of a text: nothing of a blank one, otherwise its
/// phonemes without surrounding white space, or the message of the failure.
pub open spec fn ipa_of(text: Seq<char>, engine: Result<Seq<char>, Seq<char>>) -> Result<
    Seq<char>,
    Seq<char>,
> {
    if crate::text::trimmed(text).len() == 0 {
        Ok(Seq::empty())
    } else {
        match engine {
            Ok(ipa) => Ok(crate::text::trimmed(ipa)),
            Err(e) => Err("misaki g2p: "@ + e),
        }
    }
}

/// Whether `r` is the result `want`, its error a phonemizer error.
pub open spec fn is_phonemes(r: Result<String, TtsError>, want: Result<Seq<char>, Seq<char>>) -> bool {
    match want {
        Ok(ipa) => r matches Ok(s) && s@ == ipa,
        Err(e) => r matches Err(TtsError::Phonemize(m)) && m@ == e,
    }
}

/// What becomes of a text, given what the engine made of it.
pub fn finish_ipa(text: &str, engine: Result<String, String>) -> (r: Result<String, TtsError>)
    ensures
        is_phonemes(
            r,
            ipa_of(
                text@,
                match engine {
                    Ok(s) => Ok(s@),
                    Err(e) => Err(e@),
                },
            ),
        ),
{
    if trim(text).as_str().is_empty() {
        return Ok(String::new());
    }
    match engine {
        Ok(ipa) => Ok(trim(ipa.as_str())),
        Err(e) => Err(TtsError::Phonemize("misaki g2p: ".to_owned().concat(e.as_str()))),
    }
}

impl MisakiG2p {
    /// An engine, once loaded, is one for American English.
    pub closed spec fn wf(&self) -> bool {
        self.inner matches Some(e) ==> is_american(e)
    }

    /// Create a new (uninitialised) engine. Construction is cheap; the model
    /// data is loaded on first use.
    pub fn new() -> (r: Self)
        ensures
            r.wf(),
    {
        MisakiG2p { inner: None }
    }

    /// Phonemize English text into Kokoro-compatible IPA. A text that the
    /// engine cannot be given is an error, as one that it fails on.
    pub fn phonemize(&mut self, text: &str) -> (r: Result<String, TtsError>)
        requires
            old(self).wf(),
        ensures
            final(self).wf(),
            is_phonemes(r, ipa_of(text@, engine_says(text@))),
    {
        if trim(text).as_str().is_empty() {
            return Ok(String::new());
        }
        if !readable(text) {
            return finish_ipa(text, Err("the text cannot be read".to_owned()));
        }
        let engine = match self.inner.take() {
            Some(engine) => engine,
            None => load_engine(),
        };
        let ipa = run_engine(&engine, text);
        self.inner = Some(engine);
        finish_ipa(text, ipa)
    }
}

impl Default for MisakiG2p {
    fn default() -> (r: Self)
        ensures
            r.wf(),
    {
        MisakiG2p::new()
    }
}

proof fn lemma_no_links(text: Seq<char>, from: int)
    requires
        0 <= from <= text.len(),
        !text.contains('['),
    ensures
        unlinked(text, from) == text.skip(from),
    decreases text.len() - from,
{
    if from < text.len() {
        lemma_no_links(text, from + 1);
        assert(text[from] != '[');
        assert(seq![text[from]] + text.skip(from + 1) =~= text.skip(from));
    } else {
        assert(text.skip(from) =~= Seq::empty());
    }
}

proof fn lemma_run_is_short(text: Seq<char>, k: int)
    requires
        0 <= k <= text.len(),
    ensures
        run_before(text, k) <= k,
    decreases k,
{
    if k > 0 {
        lemma_run_is_short(text, k - 1);
    }
}

/// Text without brackets is read as it is, and text of ASCII characters that
/// is not overlong is read at all.
pub proof fn law_plain_text_is_readable(text: Seq<char>)
    requires
        !text.contains('['),
    ensures
        unlinked(text, 0) == text,
        text.len() <= 50_000 && (forall|i: int|
            0 <= i < text.len() ==> (#[trigger] text[i]) as u32 <= 127) ==> is_readable(text),
{
    lemma_no_links(text, 0);
    assert(text.skip(0) =~= text);
    if text.len() <= 50_000 && (forall|i: int|
        0 <= i < text.len() ==> (#[trigger] text[i]) as u32 <= 127) {
        assert forall|k: int| 0 <= k <= text.len() implies #[trigger] run_before(text, k)
            <= MAX_ENGINE_RUN by {
            lemma_run_is_short(text, k);
        }
        assert forall|k: int| #[trigger] is_wide(text, k) implies !ing_follows(text, k + 1) by {
            assert(text[k] as u32 <= 127);
        }
    }
}

} // verus!
