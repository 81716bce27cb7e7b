//! Phonemes: clause-final punctuation, normalisation toward Kokoro's phoneme
//! inventory, and Kokoro's tokens.
//!
//! [`phonemize`] runs the pure-Rust engine; [`phonemize_with`] reads the output
//! of `espeak-ng -q --ipa=3 -v en-us`; [`normalize_ipa`] aligns either with
//! Kokoro's misaki-trained inventory; and [`tokenize`] maps chars to token ids
//! with BOS/EOS padding.

use vstd::prelude::*;

use crate::error::TtsError;
use crate::text::{
    chars_of, decode_lossy, is_at, join, join_strings, push_char, split_at_char, split_on,
    string_of, strs, trim, trim_bounds,
};
use crate::tts::misaki_g2p::{engine_says, ipa_of, is_phonemes, MisakiG2p};

verus! {

// ---------------------------------------------------------------------------
// Clause-final punctuation
// ---------------------------------------------------------------------------

/// Terminal punctuation that Kokoro was trained to hear at clause ends.
pub open spec fn is_terminal(c: char) -> bool {
    c == '.' || c == '!' || c == '?' || c == ',' || c == ';' || c == ':'
}

/// The phonemes `ipa` of `text`, with the text's terminal punctuation behind
/// them (and a space in between, where `spaced`) unless they end in it.
pub open spec fn punctuated(text: Seq<char>, ipa: Seq<char>, spaced: bool) -> Seq<char> {
    let text = crate::text::trim_end(text);
    if text.len() > 0 && is_terminal(text.last()) && !(ipa.len() > 0 && ipa.last() == text.last()) {
        if spaced {
            ipa.push(' ').push(text.last())
        } else {
            ipa.push(text.last())
        }
    } else {
        ipa
    }
}

/// Puts the text's terminal punctuation back behind its phonemes.
pub fn punctuate(text: &str, ipa: String, spaced: bool) -> (r: String)
    ensures
        r@ == punctuated(text@, ipa@, spaced),
{
    let chars = chars_of(text);
    let mut end: usize = chars.len();
    assert(chars@.take(chars@.len() as int) =~= chars@);
    while end > 0 && crate::text::is_whitespace(chars[end - 1])
        invariant
            end <= chars@.len(),
            crate::text::trim_end(chars@) == crate::text::trim_end(chars@.take(end as int)),
        decreases end,
    {
        assert(chars@.take(end as int).drop_last() =~= chars@.take(end - 1));
        end -= 1;
    }
    assert(crate::text::trim_end(chars@) == chars@.take(end as int));
    if end == 0 {
        return ipa;
    }
    let last = chars[end - 1];
    if !(last == '.' || last == '!' || last == '?' || last == ',' || last == ';' || last == ':') {
        return ipa;
    }
    let said = chars_of(ipa.as_str());
    if said.len() > 0 && said[said.len() - 1] == last {
        return ipa;
    }
    let mut out = ipa;
    if spaced {
        push_char(&mut out, ' ');
    }
    push_char(&mut out, last);
    out
}

/// Phonemizes English text with the pure-Rust engine. Terminal punctuation
/// (`. ! ? , ; :`) that the engine strips is re-appended afterwards so Kokoro
/// still sees clause-final markers. Where this fails, [`phonemize_with`] is the
/// fallback.
pub fn phonemize(engine: &mut MisakiG2p, text: &str) -> (r: Result<String, TtsError>)
    requires
        old(engine).wf(),
    ensures
        final(engine).wf(),
        is_phonemes(
            r,
            match ipa_of(text@, engine_says(text@)) {
                Ok(ipa) => Ok(punctuated(text@, ipa, true)),
                Err(e) => Err(e),
            },
        ),
{
    match engine.phonemize(text) {
        Ok(ipa) => Ok(punctuate(text, ipa, true)),
        Err(e) => Err(e),
    }
}

/// How a run of `espeak-ng` ended.
pub struct EspeakRun {
    /// Whether it exited with success.
    pub success: bool,
    /// How its exit status reads.
    pub status: String,
    /// What it wrote to its standard output.
    pub stdout: Vec<u8>,
    /// What it wrote to its standard error.
    pub stderr: Vec<u8>,
}

/// The non-blank parts, trimmed.
pub open spec fn nonblank(parts: Seq<Seq<char>>) -> Seq<Seq<char>>
    decreases parts.len(),
{
    if parts.len() == 0 {
        Seq::empty()
    } else {
        let rest = nonblank(parts.drop_last());
        let last = crate::text::trimmed(parts.last());
        if last.len() > 0 {
            rest.push(last)
        } else {
            rest
        }
    }
}

/// The non-blank lines of a text, trimmed and joined with single spaces.
pub open spec fn joined_lines(s: Seq<char>) -> Seq<char> {
    join(nonblank(split_on(s, '\n')), " "@)
}

fn join_lines(s: &str) -> (r: String)
    ensures
        r@ == joined_lines(s@),
{
    let parts = split_at_char(&chars_of(s), '\n');
    let ghost all = parts@.map_values(|w: Vec<char>| w@);
    let mut lines: Vec<String> = Vec::new();
    assert(strs(lines@) =~= nonblank(all.take(0)));
    let mut i: usize = 0;
    while i < parts.len()
        invariant
            i <= parts@.len(),
            all == parts@.map_values(|w: Vec<char>| w@),
            strs(lines@) == nonblank(all.take(i as int)),
        decreases parts@.len() - i,
    {
        let ghost before = lines@;
        let (a, b) = trim_bounds(&parts[i]);
        let line = string_of(&parts[i], a, b);
        assert(all.take(i + 1).drop_last() =~= all.take(i as int));
        assert(all.take(i + 1).last() == parts@[i as int]@);
        if a < b {
            lines.push(line);
            assert(strs(lines@) =~= strs(before).push(line@));
        }
        i += 1;
    }
    assert(all.take(all.len() as int) =~= all);
    join_strings(&lines, " ")
}

/// What a run of `espeak-ng` makes of a text: nothing of a blank one; the
/// non-blank lines of its output, joined, with the text's terminal punctuation
/// behind them; or an error that quotes its status and its trimmed error
/// output.
pub open spec fn espeak_ipa(
    binary: Seq<char>,
    text: Seq<char>,
    success: bool,
    status: Seq<char>,
    stdout: Seq<u8>,
    stderr: Seq<u8>,
) -> Result<Seq<char>, Seq<char>> {
    if crate::text::trimmed(text).len() == 0 {
        Ok(Seq::empty())
    } else if !success {
        Err(
            binary + " exited with "@ + status + ": "@ + crate::text::trimmed(
                crate::text::utf8_lossy(stderr),
            ),
        )
    } else {
        Ok(punctuated(text, joined_lines(crate::text::utf8_lossy(stdout)), false))
    }
}

/// Reads the phonemes out of a run of `espeak-ng`. A non-zero exit yields
/// [`TtsError::Phonemize`].
pub fn phonemize_with(binary: &str, text: &str, run: &EspeakRun) -> (r: Result<String, TtsError>)
    ensures
        is_phonemes(
            r,
            espeak_ipa(binary@, text@, run.success, run.status@, run.stdout@, run.stderr@),
        ),
{
    if trim(text).as_str().is_empty() {
        return Ok(String::new());
    }
    if !run.success {
        let said = trim(decode_lossy(run.stderr.as_slice()).as_str());
        return Err(
            TtsError::Phonemize(
                binary.to_owned().concat(" exited with ").concat(run.status.as_str()).concat(
                    ": ",
                ).concat(said.as_str()),
            ),
        );
    }
    let lines = join_lines(decode_lossy(run.stdout.as_slice()).as_str());
    Ok(punctuate(text, lines, false))
}

// ---------------------------------------------------------------------------
// Normalisation
// ---------------------------------------------------------------------------

/// `s` with every `from` (leftmost first, none overlapping) replaced by `to`.
pub open spec fn replaced(s: Seq<char>, from: Seq<char>, to: Seq<char>, at: nat) -> Seq<char>
    decreases s.len() - at,
{
    if at >= s.len() || from.len() == 0 {
        Seq::empty()
    } else if crate::text::matches_at(s, from, at as int) {
        to + replaced(s, from, to, at + from.len())
    } else {
        seq![s[at as int]] + replaced(s, from, to, at + 1)
    }
}

fn append_all(out: &mut Vec<char>, more: &Vec<char>)
    ensures
        final(out)@ == old(out)@ + more@,
{
    let mut i: usize = 0;
    assert(out@ =~= old(out)@ + more@.take(0));
    while i < more.len()
        invariant
            i <= more@.len(),
            out@ == old(out)@ + more@.take(i as int),
        decreases more@.len() - i,
    {
        out.push(more[i]);
        i += 1;
        assert(out@ =~= old(out)@ + more@.take(i as int));
    }
    assert(more@.take(more@.len() as int) =~= more@);
}

fn replace(s: &Vec<char>, from: &Vec<char>, to: &Vec<char>) -> (r: Vec<char>)
    requires
        from@.len() > 0,
    ensures
        r@ == replaced(s@, from@, to@, 0),
{
    let n: usize = s.len();
    let mut out: Vec<char> = Vec::new();
    let mut i: usize = 0;
    assert(out@ + replaced(s@, from@, to@, 0) =~= replaced(s@, from@, to@, 0));
    while i < n
        invariant
            i <= n == s@.len(),
            from@.len() > 0,
            out@ + replaced(s@, from@, to@, i as nat) == replaced(s@, from@, to@, 0),
        decreases n - i,
    {
        let ghost before = out@;
        if is_at(s, from, i) {
            append_all(&mut out, to);
            assert(out@ + replaced(s@, from@, to@, i as nat + from@.len()) =~= before + (to@
                + replaced(s@, from@, to@, i as nat + from@.len())));
            i += from.len();
        } else {
            out.push(s[i]);
            assert(out@ + replaced(s@, from@, to@, i as nat + 1) =~= before + (seq![s@[i as int]]
                + replaced(s@, from@, to@, i as nat + 1)));
            i += 1;
        }
    }
    assert(out@ + replaced(s@, from@, to@, n as nat) =~= out@);
    out
}

/// The misaki inventory's character for an espeak allophone.
pub open spec fn allophone(c: char) -> char {
    if c == '\u{02B2}' {
        'j'
    } else if c == 'r' {
        '\u{0279}'
    } else if c == 'x' {
        'k'
    } else if c == '\u{026C}' {
        'l'
    } else {
        c
    }
}

/// Whether `c` joins two characters (U+200D and the tie bar U+0361).
pub open spec fn is_joiner(c: char) -> bool {
    c == '\u{200D}' || c == '\u{0361}'
}

/// `s` with allophones replaced and joiners dropped.
pub open spec fn plain_phones(s: Seq<char>) -> Seq<char>
    decreases s.len(),
{
    if s.len() == 0 {
        Seq::empty()
    } else if is_joiner(s.last()) {
        plain_phones(s.drop_last())
    } else {
        plain_phones(s.drop_last()).push(allophone(s.last()))
    }
}

fn to_plain_phones(s: &Vec<char>) -> (r: Vec<char>)
    ensures
        r@ == plain_phones(s@),
{
    let mut out: Vec<char> = Vec::new();
    let mut i: usize = 0;
    while i < s.len()
        invariant
            i <= s@.len(),
            out@ == plain_phones(s@.take(i as int)),
        decreases s@.len() - i,
    {
        let c = s[i];
        assert(s@.take(i + 1).drop_last() =~= s@.take(i as int));
        assert(s@.take(i + 1).last() == c);
        if c == '\u{200D}' || c == '\u{0361}' {
        } else if c == '\u{02B2}' {
            out.push('j');
        } else if c == 'r' {
            out.push('\u{0279}');
        } else if c == 'x' {
            out.push('k');
        } else if c == '\u{026C}' {
            out.push('l');
        } else {
            out.push(c);
        }
        i += 1;
    }
    assert(s@.take(s@.len() as int) =~= s@);
    out
}

/// `hˈʌndɹɪd`.
pub open spec fn hundred() -> Seq<char> {
    seq!['h', '\u{02C8}', '\u{028C}', 'n', 'd', '\u{0279}', '\u{026A}', 'd']
}

/// Whether a space belongs between `c` and a following `hˈʌndɹɪd`.
pub open spec fn runs_on(c: char) -> bool {
    ('a' <= c <= 'z') || c == '\u{0279}' || c == '\u{02D0}'
}

/// `s` from `at` on, with the missing word boundary in front of every
/// `hˈʌndɹɪd` that runs on from the word before.
pub open spec fn with_hundreds(s: Seq<char>, at: nat) -> Seq<char>
    decreases s.len() - at,
{
    if at >= s.len() {
        Seq::empty()
    } else if at > 0 && crate::text::matches_at(s, hundred(), at as int) && runs_on(s[at - 1]) {
        seq![' ', s[at as int]] + with_hundreds(s, at + 1)
    } else {
        seq![s[at as int]] + with_hundreds(s, at + 1)
    }
}

/// misaki `(?<=[a-zɹː])(?=hˈʌndɹɪd)` → `" "`: espeak runs "two hundred"
/// together as `tˈuːhˈʌndɹɪd`; re-insert the missing word boundary.
pub fn hundred_rule(ps: &Vec<char>) -> (r: Vec<char>)
    ensures
        r@ == with_hundreds(ps@, 0),
{
    let needle: Vec<char> = vec![
        'h', '\u{02C8}', '\u{028C}', 'n', 'd', '\u{0279}', '\u{026A}', 'd',
    ];
    assert(needle@ =~= hundred());
    let n: usize = ps.len();
    let mut out: Vec<char> = Vec::new();
    let mut i: usize = 0;
    assert(out@ + with_hundreds(ps@, 0) =~= with_hundreds(ps@, 0));
    while i < n
        invariant
            i <= n == ps@.len(),
            needle@ == hundred(),
            out@ + with_hundreds(ps@, i as nat) == with_hundreds(ps@, 0),
        decreases n - i,
    {
        let ghost before = out@;
        let ghost rest = with_hundreds(ps@, i as nat + 1);
        if i > 0 && is_at(ps, &needle, i) {
            let c = ps[i - 1];
            if ('a' <= c && c <= 'z') || c == '\u{0279}' || c == '\u{02D0}' {
                out.push(' ');
            }
        }
        out.push(ps[i]);
        proof {
            if i > 0 && crate::text::matches_at(ps@, hundred(), i as int) && runs_on(ps@[i - 1]) {
                assert(out@ + rest =~= before + (seq![' ', ps@[i as int]] + rest));
            } else {
                assert(out@ + rest =~= before + (seq![ps@[i as int]] + rest));
            }
        }
        i += 1;
    }
    assert(out@ + with_hundreds(ps@, n as nat) =~= out@);
    out
}

/// What a detached word-final `z` may be followed by to be merged back.
pub open spec fn closes_word(c: char) -> bool {
    ||| c == ';'
    ||| c == ':'
    ||| c == ','
    ||| c == '.'
    ||| c == '!'
    ||| c == '?'
    ||| c == '\u{00A1}'
    ||| c == '\u{00BF}'
    ||| c == '\u{2014}'
    ||| c == '\u{2026}'
    ||| c == '"'
    ||| c == '\u{00AB}'
    ||| c == '\u{00BB}'
    ||| c == '\u{201C}'
    ||| c == '\u{201D}'
    ||| c == ' '
}

/// Whether a detached `z` stands at `at`: a space, then `z`, then the end or a
/// character that closes a word.
pub open spec fn detached_z(s: Seq<char>, at: int) -> bool {
    &&& 0 <= at
    &&& at + 1 < s.len()
    &&& s[at] == ' '
    &&& s[at + 1] == 'z'
    &&& at + 2 < s.len() ==> closes_word(s[at + 2])
}

/// `s` from `at` on, with every detached `z` merged back.
pub open spec fn with_z_merged(s: Seq<char>, at: nat) -> Seq<char>
    decreases s.len() - at,
{
    if at >= s.len() {
        Seq::empty()
    } else if detached_z(s, at as int) {
        seq!['z'] + with_z_merged(s, at + 2)
    } else {
        seq![s[at as int]] + with_z_merged(s, at + 1)
    }
}

fn is_word_close(c: char) -> (r: bool)
    ensures
        r == closes_word(c),
{
    c == ';' || c == ':' || c == ',' || c == '.' || c == '!' || c == '?' || c == '\u{00A1}' || c
        == '\u{00BF}' || c == '\u{2014}' || c == '\u{2026}' || c == '"' || c == '\u{00AB}' || c
        == '\u{00BB}' || c == '\u{201C}' || c == '\u{201D}' || c == ' '
}

/// misaki ` z(?=[;:,.!?¡¿—…"«»“” ]|$)` → `z`: espeak sometimes detaches a
/// word-final `z`; merge it back when punctuation/space/end follows.
pub fn z_merge_rule(ps: &Vec<char>) -> (r: Vec<char>)
    ensures
        r@ == with_z_merged(ps@, 0),
{
    let n: usize = ps.len();
    let mut out: Vec<char> = Vec::new();
    let mut i: usize = 0;
    assert(out@ + with_z_merged(ps@, 0) =~= with_z_merged(ps@, 0));
    while i < n
        invariant
            i <= n == ps@.len(),
            out@ + with_z_merged(ps@, i as nat) == with_z_merged(ps@, 0),
        decreases n - i,
    {
        let ghost before = out@;
        if ps[i] == ' ' && i + 1 < n && ps[i + 1] == 'z' && (i + 2 >= n || is_word_close(
            ps[i + 2],
        )) {
            out.push('z');
            assert(out@ + with_z_merged(ps@, i as nat + 2) =~= before + (seq!['z'] + with_z_merged(
                ps@,
                i as nat + 2,
            )));
            i += 2;
        } else {
            out.push(ps[i]);
            assert(out@ + with_z_merged(ps@, i as nat + 1) =~= before + (seq![ps@[i as int]]
                + with_z_merged(ps@, i as nat + 1)));
            i += 1;
        }
    }
    assert(out@ + with_z_merged(ps@, n as nat) =~= out@);
    out
}

/// `nˈaɪnti`.
pub open spec fn ninety() -> Seq<char> {
    seq!['n', '\u{02C8}', 'a', '\u{026A}', 'n', 't', 'i']
}

/// `nˈaɪndi`.
pub open spec fn flapped_ninety() -> Seq<char> {
    seq!['n', '\u{02C8}', 'a', '\u{026A}', 'n', 'd', 'i']
}

/// `s` from `at` on, with every `nˈaɪnti` that no `ː` follows flapped.
pub open spec fn with_flaps(s: Seq<char>, at: nat) -> Seq<char>
    decreases s.len() - at,
{
    if at >= s.len() {
        Seq::empty()
    } else if crate::text::matches_at(s, ninety(), at as int) && !(at + 7 < s.len() && s[at as int
        + 7] == '\u{02D0}') {
        flapped_ninety() + with_flaps(s, at + 7)
    } else {
        seq![s[at as int]] + with_flaps(s, at + 1)
    }
}

/// misaki en-US flap `(?<=nˈaɪn)ti(?!ː)` → `di` ("ninety" → `nˈaɪndi`).
pub fn ninety_flap_rule(ps: &Vec<char>) -> (r: Vec<char>)
    ensures
        r@ == with_flaps(ps@, 0),
{
    let needle: Vec<char> = vec!['n', '\u{02C8}', 'a', '\u{026A}', 'n', 't', 'i'];
    let flapped: Vec<char> = vec!['n', '\u{02C8}', 'a', '\u{026A}', 'n', 'd', 'i'];
    assert(needle@ =~= ninety());
    assert(flapped@ =~= flapped_ninety());
    let n: usize = ps.len();
    let mut out: Vec<char> = Vec::new();
    let mut i: usize = 0;
    assert(out@ + with_flaps(ps@, 0) =~= with_flaps(ps@, 0));
    while i < n
        invariant
            i <= n == ps@.len(),
            needle@ == ninety(),
            flapped@ == flapped_ninety(),
            out@ + with_flaps(ps@, i as nat) == with_flaps(ps@, 0),
        decreases n - i,
    {
        let ghost before = out@;
        if is_at(ps, &needle, i) && !(n - i > 7 && ps[i + 7] == '\u{02D0}') {
            append_all(&mut out, &flapped);
            assert(out@ + with_flaps(ps@, i as nat + 7) =~= before + (flapped_ninety() + with_flaps(
                ps@,
                i as nat + 7,
            )));
            i += 7;
        } else {
            out.push(ps[i]);
            assert(out@ + with_flaps(ps@, i as nat + 1) =~= before + (seq![ps@[i as int]]
                + with_flaps(ps@, i as nat + 1)));
            i += 1;
        }
    }
    assert(out@ + with_flaps(ps@, n as nat) =~= out@);
    out
}

/// The word "Kokoro" as espeak says it, in American and in British English.
pub open spec fn kokoro_raw(british: bool) -> Seq<char> {
    if british {
        seq!['k', '\u{0259}', 'k', '\u{02C8}', '\u{0254}', '\u{02D0}', '\u{0279}', '\u{0259}', '\u{028A}']
    } else {
        seq!['k', '\u{0259}', 'k', '\u{02C8}', 'o', '\u{02D0}', '\u{0279}', 'o', '\u{028A}']
    }
}

/// The word "Kokoro" as it should sound.
pub open spec fn kokoro_fixed(british: bool) -> Seq<char> {
    if british {
        seq!['k', '\u{02C8}', '\u{0259}', '\u{028A}', 'k', '\u{0259}', '\u{0279}', '\u{0259}', '\u{028A}']
    } else {
        seq!['k', '\u{02C8}', 'o', '\u{028A}', 'k', '\u{0259}', '\u{0279}', 'o', '\u{028A}']
    }
}

/// Raw phonemes aligned with Kokoro's inventory: the word-name fixes, then the
/// allophones and joiners, then the three word rules, trimmed.
pub open spec fn normalized(raw: Seq<char>) -> Seq<char> {
    let a = replaced(raw, kokoro_raw(false), kokoro_fixed(false), 0);
    let b = replaced(a, kokoro_raw(true), kokoro_fixed(true), 0);
    let c = plain_phones(b);
    crate::text::trimmed(with_flaps(with_z_merged(with_hundreds(c, 0), 0), 0))
}

/// Normalizes raw phonemes toward Kokoro's misaki-trained inventory:
///
/// * Kokoro word-name fixes (`kəkˈoːɹoʊ` → `kˈoʊkəɹoʊ`, British variant too);
/// * allophone char replacements `ʲ`→`j`, `r`→`ɹ`, `x`→`k`, `ɬ`→`l`;
/// * the joiners that espeak writes in affricates and diphthongs are stripped;
/// * misaki's `hundred` word-boundary fix, the word-final ` z` merge before
///   punctuation, and the en-US flap (`nˈaɪnti` → `nˈaɪndi`, unless followed
///   by `ː`).
pub fn normalize_ipa(raw: &str) -> (r: String)
    ensures
        r@ == normalized(raw@),
{
    let us_raw: Vec<char> = vec![
        'k', '\u{0259}', 'k', '\u{02C8}', 'o', '\u{02D0}', '\u{0279}', 'o', '\u{028A}',
    ];
    let us: Vec<char> = vec![
        'k', '\u{02C8}', 'o', '\u{028A}', 'k', '\u{0259}', '\u{0279}', 'o', '\u{028A}',
    ];
    let gb_raw: Vec<char> = vec![
        'k', '\u{0259}', 'k', '\u{02C8}', '\u{0254}', '\u{02D0}', '\u{0279}', '\u{0259}', '\u{028A}',
    ];
    let gb: Vec<char> = vec![
        'k', '\u{02C8}', '\u{0259}', '\u{028A}', 'k', '\u{0259}', '\u{0279}', '\u{0259}', '\u{028A}',
    ];
    assert(us_raw@ =~= kokoro_raw(false));
    assert(us@ =~= kokoro_fixed(false));
    assert(gb_raw@ =~= kokoro_raw(true));
    assert(gb@ =~= kokoro_fixed(true));
    let a = replace(&chars_of(raw), &us_raw, &us);
    let b = replace(&a, &gb_raw, &gb);
    let c = to_plain_phones(&b);
    let out = ninety_flap_rule(&z_merge_rule(&hundred_rule(&c)));
    let (from, to) = trim_bounds(&out);
    string_of(&out, from, to)
}

// ---------------------------------------------------------------------------
// Tokens
// ---------------------------------------------------------------------------

/// The id of a character in a vocabulary.
pub open spec fn token_id(vocab: Seq<(char, i64)>, c: char) -> Option<i64>
    decreases vocab.len(),
{
    if vocab.len() == 0 {
        None
    } else if vocab[0].0 == c {
        Some(vocab[0].1)
    } else {
        token_id(vocab.subrange(1, vocab.len() as int), c)
    }
}

/// Looks a character up in a vocabulary.
pub fn lookup(vocab: &Vec<(char, i64)>, c: char) -> (r: Option<i64>)
    ensures
        r == token_id(vocab@, c),
{
    let n: usize = vocab.len();
    let mut i: usize = 0;
    assert(vocab@.subrange(0, n as int) =~= vocab@);
    while i < n
        invariant
            i <= n == vocab@.len(),
            token_id(vocab@, c) == token_id(vocab@.subrange(i as int, n as int), c),
        decreases n - i,
    {
        assert(vocab@.subrange(i as int, n as int).subrange(1, n - i) =~= vocab@.subrange(
            i + 1,
            n as int,
        ));
        if vocab[i].0 == c {
            return Some(vocab[i].1);
        }
        i += 1;
    }
    None
}

/// The ids of the known characters of `s`, in order.
pub open spec fn known_ids(s: Seq<char>, vocab: Seq<(char, i64)>) -> Seq<i64>
    decreases s.len(),
{
    if s.len() == 0 {
        Seq::empty()
    } else {
        match token_id(vocab, s.last()) {
            Some(id) => known_ids(s.drop_last(), vocab).push(id),
            None => known_ids(s.drop_last(), vocab),
        }
    }
}

/// Maps phoneme chars to token ids with BOS/EOS padding (id `0` at both
/// ends); unknown chars are skipped. `vocab` is Kokoro's vocab — see
/// [`kokoro_vocab`].
pub fn tokenize(phonemes: &str, vocab: &Vec<(char, i64)>) -> (r: Vec<i64>)
    ensures
        r@ == seq![0i64] + known_ids(phonemes@, vocab@) + seq![0i64],
{
    let chars = chars_of(phonemes);
    let mut ids: Vec<i64> = Vec::new();
    ids.push(0);
    assert(ids@ =~= seq![0i64] + known_ids(chars@.take(0), vocab@));
    let mut i: usize = 0;
    while i < chars.len()
        invariant
            i <= chars@.len(),
            ids@ == seq![0i64] + known_ids(chars@.take(i as int), vocab@),
        decreases chars@.len() - i,
    {
        let ghost before = ids@;
        assert(chars@.take(i + 1).drop_last() =~= chars@.take(i as int));
        assert(chars@.take(i + 1).last() == chars@[i as int]);
        match lookup(vocab, chars[i]) {
            Some(id) => {
                ids.push(id);
                assert(ids@ =~= seq![0i64] + known_ids(chars@.take(i + 1), vocab@));
            },
            None => {},
        }
        i += 1;
    }
    assert(chars@.take(chars@.len() as int) =~= chars@);
    let ghost before = ids@;
    ids.push(0);
    assert(ids@ =~= before + seq![0i64]);
    ids
}

/// Kokoro-82M's character vocab (ids are non-contiguous, `0` is the BOS/EOS
/// pad).
pub open spec fn kokoro_table() -> Seq<(char, i64)> {
    seq![
        (';', 1i64), (':', 2), (',', 3), ('.', 4), ('!', 5), ('?', 6), ('\u{2014}', 9),
        ('\u{2026}', 10), ('"', 11), ('(', 12), (')', 13), ('\u{201C}', 14), ('\u{201D}', 15),
        (' ', 16), ('\u{303}', 17), ('\u{2A3}', 18), ('\u{2A5}', 19), ('\u{2A6}', 20),
        ('\u{2A8}', 21), ('\u{1D5D}', 22), ('\u{AB67}', 23), ('A', 24), ('I', 25), ('O', 31),
        ('Q', 33), ('S', 35), ('T', 36), ('W', 39), ('Y', 41), ('\u{1D4A}', 42), ('a', 43),
        ('b', 44), ('c', 45), ('d', 46), ('e', 47), ('f', 48), ('h', 50), ('i', 51), ('j', 52),
        ('k', 53), ('l', 54), ('m', 55), ('n', 56), ('o', 57), ('p', 58), ('q', 59), ('r', 60),
        ('s', 61), ('t', 62), ('u', 63), ('v', 64), ('w', 65), ('x', 66), ('y', 67), ('z', 68),
        ('\u{251}', 69), ('\u{250}', 70), ('\u{252}', 71), ('\u{E6}', 72), ('\u{3B2}', 75),
        ('\u{254}', 76), ('\u{255}', 77), ('\u{E7}', 78), ('\u{256}', 80), ('\u{F0}', 81),
        ('\u{2A4}', 82), ('\u{259}', 83), ('\u{25A}', 85), ('\u{25B}', 86), ('\u{25C}', 87),
        ('\u{25F}', 90), ('\u{261}', 92), ('\u{265}', 99), ('\u{268}', 101), ('\u{26A}', 102),
        ('\u{29D}', 103), ('\u{26F}', 110), ('\u{270}', 111), ('\u{14B}', 112), ('\u{273}', 113),
        ('\u{272}', 114), ('\u{274}', 115), ('\u{F8}', 116), ('\u{278}', 118), ('\u{3B8}', 119),
        ('\u{153}', 120), ('\u{279}', 123), ('\u{27E}', 125), ('\u{27B}', 126), ('\u{281}', 128),
        ('\u{27D}', 129), ('\u{282}', 130), ('\u{283}', 131), ('\u{288}', 132), ('\u{2A7}', 133),
        ('\u{28A}', 135), ('\u{28B}', 136), ('\u{28C}', 138), ('\u{263}', 139), ('\u{264}', 140),
        ('\u{3C7}', 142), ('\u{28E}', 143), ('\u{292}', 147), ('\u{294}', 148), ('\u{2C8}', 156),
        ('\u{2CC}', 157), ('\u{2D0}', 158), ('\u{2B0}', 162), ('\u{2B2}', 164),
        ('\u{2193}', 169), ('\u{2192}', 171), ('\u{2197}', 172), ('\u{2198}', 173),
        ('\u{1D7B}', 177),
    ]
}

/// Kokoro-82M's character vocab. The model version this crate targets is
/// pinned, so the vocab is a constant rather than a downloaded file.
pub fn kokoro_vocab() -> (r: Vec<(char, i64)>)
    ensures
        r@ == kokoro_table(),
{
    let v: Vec<(char, i64)> = vec![
        (';', 1), (':', 2), (',', 3), ('.', 4), ('!', 5), ('?', 6), ('\u{2014}', 9),
        ('\u{2026}', 10), ('"', 11), ('(', 12), (')', 13), ('\u{201C}', 14), ('\u{201D}', 15),
        (' ', 16), ('\u{303}', 17), ('\u{2A3}', 18), ('\u{2A5}', 19), ('\u{2A6}', 20),
        ('\u{2A8}', 21), ('\u{1D5D}', 22), ('\u{AB67}', 23), ('A', 24), ('I', 25), ('O', 31),
        ('Q', 33), ('S', 35), ('T', 36), ('W', 39), ('Y', 41), ('\u{1D4A}', 42), ('a', 43),
        ('b', 44), ('c', 45), ('d', 46), ('e', 47), ('f', 48), ('h', 50), ('i', 51), ('j', 52),
        ('k', 53), ('l', 54), ('m', 55), ('n', 56), ('o', 57), ('p', 58), ('q', 59), ('r', 60),
        ('s', 61), ('t', 62), ('u', 63), ('v', 64), ('w', 65), ('x', 66), ('y', 67), ('z', 68),
        ('\u{251}', 69), ('\u{250}', 70), ('\u{252}', 71), ('\u{E6}', 72), ('\u{3B2}', 75),
        ('\u{254}', 76), ('\u{255}', 77), ('\u{E7}', 78), ('\u{256}', 80), ('\u{F0}', 81),
        ('\u{2A4}', 82), ('\u{259}', 83), ('\u{25A}', 85), ('\u{25B}', 86), ('\u{25C}', 87),
        ('\u{25F}', 90), ('\u{261}', 92), ('\u{265}', 99), ('\u{268}', 101), ('\u{26A}', 102),
        ('\u{29D}', 103), ('\u{26F}', 110), ('\u{270}', 111), ('\u{14B}', 112), ('\u{273}', 113),
        ('\u{272}', 114), ('\u{274}', 115), ('\u{F8}', 116), ('\u{278}', 118), ('\u{3B8}', 119),
        ('\u{153}', 120), ('\u{279}', 123), ('\u{27E}', 125), ('\u{27B}', 126), ('\u{281}', 128),
        ('\u{27D}', 129), ('\u{282}', 130), ('\u{283}', 131), ('\u{288}', 132), ('\u{2A7}', 133),
        ('\u{28A}', 135), ('\u{28B}', 136), ('\u{28C}', 138), ('\u{263}', 139), ('\u{264}', 140),
        ('\u{3C7}', 142), ('\u{28E}', 143), ('\u{292}', 147), ('\u{294}', 148), ('\u{2C8}', 156),
        ('\u{2CC}', 157), ('\u{2D0}', 158), ('\u{2B0}', 162), ('\u{2B2}', 164),
        ('\u{2193}', 169), ('\u{2192}', 171), ('\u{2197}', 172), ('\u{2198}', 173),
        ('\u{1D7B}', 177),
    ];
    assert(v@ =~= kokoro_table());
    v
}

// ---------------------------------------------------------------------------
// Laws
// ---------------------------------------------------------------------------

/// How Kokoro's inventory writes a phoneme character.
pub open spec fn phone_of(c: char) -> char {
    if c == 'ʲ' {
        'j'
    } else if c == 'r' {
        'ɹ'
    } else if c == 'x' {
        'k'
    } else if c == 'ɬ' {
        'l'
    } else {
        c
    }
}

/// The character pass drops the zero-width joiner and the tie bar, and no other
/// character; the rest stand in their order, each as Kokoro's inventory writes
/// it.
pub proof fn law_characters_are_mapped(s: Seq<char>)
    ensures
        plain_phones(s) == s.filter(|c: char| c != '\u{200D}' && c != '\u{0361}').map_values(
            |c: char| phone_of(c),
        ),
    decreases s.len(),
{
    reveal(Seq::filter);
    let kept = s.filter(|c: char| c != '\u{200D}' && c != '\u{0361}');
    if s.len() == 0 {
        assert(plain_phones(s) =~= kept.map_values(|c: char| phone_of(c)));
    } else {
        law_characters_are_mapped(s.drop_last());
        let below = s.drop_last().filter(|c: char| c != '\u{200D}' && c != '\u{0361}');
        assert(below.push(s.last()).map_values(|c: char| phone_of(c)) =~= below.map_values(
            |c: char| phone_of(c),
        ).push(phone_of(s.last())));
    }
}

/// The American pronunciation of "Kokoro" as espeak writes it, the British one,
/// and how they should read.
pub open spec fn espeak_name(british: bool) -> Seq<char> {
    if british {
        "kəkˈɔːɹəʊ"@
    } else {
        "kəkˈoːɹoʊ"@
    }
}

/// How "Kokoro" should read.
pub open spec fn proper_name(british: bool) -> Seq<char> {
    if british {
        "kˈəʊkəɹəʊ"@
    } else {
        "kˈoʊkəɹoʊ"@
    }
}

/// Whether "hundred" stands at `at` with no space between it and the word in
/// front.
pub open spec fn hundred_runs_on(s: Seq<char>, at: int) -> bool {
    &&& at > 0
    &&& crate::text::matches_at(s, "hˈʌndɹɪd"@, at)
    &&& ('a' <= s[at - 1] <= 'z' || s[at - 1] == 'ɹ' || s[at - 1] == 'ː')
}

/// Whether a word that is a lone `z` stands behind the space at `at`.
pub open spec fn z_is_alone(s: Seq<char>, at: int) -> bool {
    &&& crate::text::matches_at(s, " z"@, at)
    &&& at + 2 == s.len() || ";:,.!?¡¿—…\"«»“” "@.contains(s[at + 2])
}

/// Whether "ninety" stands at `at` with a `t` that is to be flapped.
pub open spec fn ninety_has_t(s: Seq<char>, at: int) -> bool {
    &&& crate::text::matches_at(s, "nˈaɪnti"@, at)
    &&& at + 7 == s.len() || s[at + 7] != 'ː'
}

/// Whether every character of a text is one that Kokoro's inventory writes as
/// it is.
pub open spec fn all_plain(s: Seq<char>) -> bool {
    forall|i: int|
        0 <= i < s.len() ==> {
            let c = #[trigger] s[i];
            c != 'ʲ' && c != 'r' && c != 'x' && c != 'ɬ' && c != '\u{200D}' && c != '\u{0361}'
        }
}

proof fn lemma_literals()
    ensures
        kokoro_raw(false) == espeak_name(false),
        kokoro_raw(true) == espeak_name(true),
        kokoro_fixed(false) == proper_name(false),
        kokoro_fixed(true) == proper_name(true),
        hundred() == "hˈʌndɹɪd"@,
        ninety() == "nˈaɪnti"@,
        flapped_ninety() == "nˈaɪndi"@,
        hundred().len() == 8,
        ninety().len() == 7,
        flapped_ninety().len() == 7,
        kokoro_raw(false).len() == 9,
        kokoro_raw(true).len() == 9,
        " z"@ == seq![' ', 'z'],
{
    reveal_strlit("kəkˈɔːɹəʊ");
    reveal_strlit("kəkˈoːɹoʊ");
    reveal_strlit("kˈəʊkəɹəʊ");
    reveal_strlit("kˈoʊkəɹoʊ");
    reveal_strlit("hˈʌndɹɪd");
    reveal_strlit("nˈaɪnti");
    reveal_strlit("nˈaɪndi");
    reveal_strlit(" z");
    assert(kokoro_raw(false) =~= espeak_name(false));
    assert(kokoro_raw(true) =~= espeak_name(true));
    assert(kokoro_fixed(false) =~= proper_name(false));
    assert(kokoro_fixed(true) =~= proper_name(true));
    assert(hundred() =~= "hˈʌndɹɪd"@);
    assert(ninety() =~= "nˈaɪnti"@);
    assert(flapped_ninety() =~= "nˈaɪndi"@);
    assert(" z"@ =~= seq![' ', 'z']);
}

proof fn lemma_closers(c: char)
    ensures
        closes_word(c) == ";:,.!?¡¿—…\"«»“” "@.contains(c),
{
    reveal_strlit(";:,.!?¡¿—…\"«»“” ");
    let all = ";:,.!?¡¿—…\"«»“” "@;
    let list = seq![
        ';', ':', ',', '.', '!', '?', '\u{00A1}', '\u{00BF}', '\u{2014}', '\u{2026}', '"',
        '\u{00AB}', '\u{00BB}', '\u{201C}', '\u{201D}', ' ',
    ];
    assert(all =~= list);
    if closes_word(c) {
        let k: int = if c == ';' {
            0
        } else if c == ':' {
            1
        } else if c == ',' {
            2
        } else if c == '.' {
            3
        } else if c == '!' {
            4
        } else if c == '?' {
            5
        } else if c == '\u{00A1}' {
            6
        } else if c == '\u{00BF}' {
            7
        } else if c == '\u{2014}' {
            8
        } else if c == '\u{2026}' {
            9
        } else if c == '"' {
            10
        } else if c == '\u{00AB}' {
            11
        } else if c == '\u{00BB}' {
            12
        } else if c == '\u{201C}' {
            13
        } else if c == '\u{201D}' {
            14
        } else {
            15
        };
        assert(all[k] == c);
    }
}

proof fn lemma_z_is_alone(s: Seq<char>, at: int)
    ensures
        z_is_alone(s, at) == detached_z(s, at),
{
    lemma_literals();
    if 0 <= at && at + 2 <= s.len() {
        assert(s.subrange(at, at + 2)[0] == s[at]);
        assert(s.subrange(at, at + 2)[1] == s[at + 1]);
        assert(s[at] == ' ' && s[at + 1] == 'z' ==> s.subrange(at, at + 2) =~= seq![' ', 'z']);
        if at + 2 < s.len() {
            lemma_closers(s[at + 2]);
        }
    }
}

proof fn lemma_plain_stays(s: Seq<char>)
    requires
        all_plain(s),
    ensures
        plain_phones(s) == s,
    decreases s.len(),
{
    if s.len() > 0 {
        let rest = s.drop_last();
        let c = s[s.len() - 1];
        assert(c != 'ʲ');
        assert forall|i: int| 0 <= i < rest.len() implies {
            let c = #[trigger] rest[i];
            c != 'ʲ' && c != 'r' && c != 'x' && c != 'ɬ' && c != '\u{200D}' && c != '\u{0361}'
        } by {
            assert(rest[i] == s[i]);
        }
        lemma_plain_stays(rest);
        assert(rest.push(s.last()) =~= s);
    }
}

proof fn lemma_replaced_upto(s: Seq<char>, from: Seq<char>, to: Seq<char>, at: nat, p: nat)
    requires
        from.len() > 0,
        at <= p <= s.len(),
        forall|k: int| at <= k < p ==> !crate::text::matches_at(s, from, k),
    ensures
        replaced(s, from, to, at) == s.subrange(at as int, p as int) + replaced(s, from, to, p),
    decreases p - at,
{
    if at < p {
        assert(!crate::text::matches_at(s, from, at as int));
        lemma_replaced_upto(s, from, to, at + 1, p);
    }
    assert(replaced(s, from, to, at) =~= s.subrange(at as int, p as int) + replaced(
        s,
        from,
        to,
        p,
    ));
}

proof fn lemma_hundreds_upto(s: Seq<char>, at: nat, p: nat)
    requires
        at <= p <= s.len(),
        forall|k: int| at <= k < p ==> !hundred_runs_on(s, k),
    ensures
        with_hundreds(s, at) == s.subrange(at as int, p as int) + with_hundreds(s, p),
    decreases p - at,
{
    lemma_literals();
    if at < p {
        assert(!hundred_runs_on(s, at as int));
        lemma_hundreds_upto(s, at + 1, p);
    }
    assert(with_hundreds(s, at) =~= s.subrange(at as int, p as int) + with_hundreds(s, p));
}

proof fn lemma_z_upto(s: Seq<char>, at: nat, p: nat)
    requires
        at <= p <= s.len(),
        forall|k: int| at <= k < p ==> !z_is_alone(s, k),
    ensures
        with_z_merged(s, at) == s.subrange(at as int, p as int) + with_z_merged(s, p),
    decreases p - at,
{
    if at < p {
        assert(!z_is_alone(s, at as int));
        lemma_z_is_alone(s, at as int);
        lemma_z_upto(s, at + 1, p);
    }
    assert(with_z_merged(s, at) =~= s.subrange(at as int, p as int) + with_z_merged(s, p));
}

proof fn lemma_flaps_upto(s: Seq<char>, at: nat, p: nat)
    requires
        at <= p <= s.len(),
        forall|k: int| at <= k < p ==> !ninety_has_t(s, k),
    ensures
        with_flaps(s, at) == s.subrange(at as int, p as int) + with_flaps(s, p),
    decreases p - at,
{
    lemma_literals();
    if at < p {
        assert(!ninety_has_t(s, at as int));
        lemma_flaps_upto(s, at + 1, p);
    }
    assert(with_flaps(s, at) =~= s.subrange(at as int, p as int) + with_flaps(s, p));
}

/// A name that does not occur is not replaced.
proof fn lemma_not_named(s: Seq<char>, british: bool)
    requires
        !crate::text::contains(s, espeak_name(british)),
    ensures
        replaced(s, kokoro_raw(british), kokoro_fixed(british), 0) == s,
{
    lemma_literals();
    assert forall|k: int| 0 <= k < s.len() implies !crate::text::matches_at(
        s,
        kokoro_raw(british),
        k,
    ) by {
        assert(!crate::text::matches_at(s, espeak_name(british), k));
    }
    lemma_replaced_upto(s, kokoro_raw(british), kokoro_fixed(british), 0, s.len());
    assert(s.subrange(0, s.len() as int) + replaced(
        s,
        kokoro_raw(british),
        kokoro_fixed(british),
        s.len(),
    ) =~= s);
}

proof fn lemma_rest_is_kept(s: Seq<char>, at: nat)
    requires
        at <= s.len(),
    ensures
        (forall|k: int| at <= k < s.len() ==> !hundred_runs_on(s, k)) ==> with_hundreds(s, at)
            == s.skip(at as int),
        (forall|k: int| at <= k < s.len() ==> !z_is_alone(s, k)) ==> with_z_merged(s, at) == s.skip(
            at as int,
        ),
        (forall|k: int| at <= k < s.len() ==> !ninety_has_t(s, k)) ==> with_flaps(s, at) == s.skip(
            at as int,
        ),
{
    let n = s.len();
    let none = Seq::<char>::empty();
    assert(s.subrange(at as int, n as int) + none =~= s.skip(at as int));
    assert(with_hundreds(s, n) =~= none);
    assert(with_z_merged(s, n) =~= none);
    assert(with_flaps(s, n) =~= none);
    if forall|k: int| at <= k < s.len() ==> !hundred_runs_on(s, k) {
        lemma_hundreds_upto(s, at, n);
    }
    if forall|k: int| at <= k < s.len() ==> !z_is_alone(s, k) {
        lemma_z_upto(s, at, n);
    }
    if forall|k: int| at <= k < s.len() ==> !ninety_has_t(s, k) {
        lemma_flaps_upto(s, at, n);
    }
}

/// Whether nothing in a text is to be normalized.
pub open spec fn is_settled(s: Seq<char>) -> bool {
    &&& all_plain(s)
    &&& !crate::text::contains(s, espeak_name(false))
    &&& !crate::text::contains(s, espeak_name(true))
    &&& forall|k: int| 0 <= k < s.len() ==> !#[trigger] hundred_runs_on(s, k)
    &&& forall|k: int| 0 <= k < s.len() ==> !#[trigger] z_is_alone(s, k)
    &&& forall|k: int| 0 <= k < s.len() ==> !#[trigger] ninety_has_t(s, k)
}

/// Phonemes that have nothing to be normalized are kept, character for
/// character and space for space, but for white space at their ends.
pub proof fn law_settled_phonemes_are_kept(raw: Seq<char>)
    requires
        is_settled(raw),
    ensures
        normalized(raw) == crate::text::trimmed(raw),
{
    lemma_not_named(raw, false);
    lemma_not_named(raw, true);
    lemma_plain_stays(raw);
    lemma_rest_is_kept(raw, 0);
    assert(raw.skip(0) =~= raw);
}

/// A "Kokoro" as espeak says it is put right where it stands, and nothing round
/// it changes: `front` and `back` with the proper name between them are
/// otherwise settled.
pub proof fn law_name_is_put_right(front: Seq<char>, back: Seq<char>, british: bool)
    requires
        is_settled(front + proper_name(british) + back),
        british ==> !crate::text::contains(front + espeak_name(true) + back, espeak_name(false)),
        forall|at: int|
            crate::text::matches_at(front + espeak_name(british) + back, espeak_name(british), at)
                ==> at == front.len(),
    ensures
        normalized(front + espeak_name(british) + back) == crate::text::trimmed(
            front + proper_name(british) + back,
        ),
{
    lemma_literals();
    let name = kokoro_raw(british);
    let fixed = kokoro_fixed(british);
    let raw = front + name + back;
    let out = front + fixed + back;
    let p = front.len();
    let q = p + name.len();
    assert(raw.subrange(p as int, q as int) =~= name);
    assert(crate::text::matches_at(raw, name, p as int));
    assert forall|k: int| 0 <= k < p implies !crate::text::matches_at(raw, name, k) by {}
    lemma_replaced_upto(raw, name, fixed, 0, p);
    lemma_replaced_upto(raw, name, fixed, q, raw.len());
    let none = Seq::<char>::empty();
    assert(replaced(raw, name, fixed, raw.len()) =~= none);
    assert(replaced(raw, name, fixed, q) =~= back);
    assert(replaced(raw, name, fixed, 0) =~= out);
    if british {
        lemma_not_named(raw, false);
    }
    lemma_not_named(out, false);
    lemma_not_named(out, true);
    lemma_plain_stays(out);
    lemma_rest_is_kept(out, 0);
    assert(out.skip(0) =~= out);
}

/// A "hundred" that runs on from the word in front is parted from it by one
/// space, and nothing round it changes.
pub proof fn law_hundred_is_parted(front: Seq<char>, back: Seq<char>)
    requires
        front.len() > 0,
        'a' <= front.last() <= 'z' || front.last() == 'ɹ' || front.last() == 'ː',
        all_plain(front + "hˈʌndɹɪd"@ + back),
        !crate::text::contains(front + "hˈʌndɹɪd"@ + back, espeak_name(false)),
        !crate::text::contains(front + "hˈʌndɹɪd"@ + back, espeak_name(true)),
        is_settled(front + " "@ + "hˈʌndɹɪd"@ + back),
        forall|at: int|
            #[trigger] hundred_runs_on(front + "hˈʌndɹɪd"@ + back, at) ==> at == front.len(),
    ensures
        normalized(front + "hˈʌndɹɪd"@ + back) == crate::text::trimmed(
            front + " "@ + "hˈʌndɹɪd"@ + back,
        ),
{
    lemma_literals();
    reveal_strlit(" ");
    let word = "hˈʌndɹɪd"@;
    let raw = front + word + back;
    let out = front + " "@ + word + back;
    let p = front.len();
    lemma_not_named(raw, false);
    lemma_not_named(raw, true);
    lemma_plain_stays(raw);
    assert(raw.subrange(p as int, p as int + 8) =~= word);
    assert(raw[p - 1] == front.last());
    assert(crate::text::matches_at(raw, hundred(), p as int));
    lemma_hundreds_upto(raw, 0, p);
    lemma_rest_is_kept(raw, p + 1);
    assert(with_hundreds(raw, p) =~= seq![' ', raw[p as int]] + raw.skip(p as int + 1));
    assert(with_hundreds(raw, 0) =~= out);
    lemma_rest_is_kept(out, 0);
    assert(out.skip(0) =~= out);
}

/// A `z` that stands alone goes back to the word in front, and nothing round it
/// changes.
pub proof fn law_lone_z_is_merged(front: Seq<char>, back: Seq<char>)
    requires
        back.len() == 0 || ";:,.!?¡¿—…\"«»“” "@.contains(back[0]),
        all_plain(front + " z"@ + back),
        !crate::text::contains(front + " z"@ + back, espeak_name(false)),
        !crate::text::contains(front + " z"@ + back, espeak_name(true)),
        forall|at: int| 0 <= at ==> !#[trigger] hundred_runs_on(front + " z"@ + back, at),
        forall|at: int|
            #[trigger] z_is_alone(front + " z"@ + back, at) ==> at == front.len(),
        is_settled(front + "z"@ + back),
    ensures
        normalized(front + " z"@ + back) == crate::text::trimmed(front + "z"@ + back),
{
    let raw = front + " z"@ + back;
    let out = front + "z"@ + back;
    lemma_not_named(raw, false);
    lemma_not_named(raw, true);
    lemma_plain_stays(raw);
    assert(with_hundreds(raw, 0) == raw) by {
        lemma_rest_is_kept(raw, 0);
        assert(raw.skip(0) =~= raw);
    }
    assert(with_z_merged(raw, 0) == out) by {
        lemma_literals();
        reveal_strlit("z");
        let p = front.len();
        if back.len() > 0 {
            lemma_closers(back[0]);
            assert(raw[p as int + 2] == back[0]);
        }
        assert(raw[p as int] == ' ' && raw[p as int + 1] == 'z');
        assert(detached_z(raw, p as int));
        lemma_z_merged_at(raw, p);
        assert(raw.take(p as int) + seq!['z'] + raw.skip(p as int + 2) =~= out);
    }
    assert(with_flaps(out, 0) == out) by {
        lemma_rest_is_kept(out, 0);
        assert(out.skip(0) =~= out);
    }
}

proof fn lemma_z_merged_at(s: Seq<char>, p: nat)
    requires
        detached_z(s, p as int),
        forall|k: int| #[trigger] z_is_alone(s, k) ==> k == p,
    ensures
        with_z_merged(s, 0) == s.take(p as int) + seq!['z'] + s.skip(p as int + 2),
{
    lemma_z_upto(s, 0, p);
    lemma_rest_is_kept(s, p + 2);
    assert(with_z_merged(s, 0) =~= s.take(p as int) + seq!['z'] + s.skip(p as int + 2));
}

/// The `t` of a "ninety" becomes a `d`, unless its vowel is long, and nothing
/// round it changes.
pub proof fn law_ninety_is_flapped(front: Seq<char>, back: Seq<char>)
    requires
        back.len() == 0 || back[0] != 'ː',
        all_plain(front + "nˈaɪnti"@ + back),
        !crate::text::contains(front + "nˈaɪnti"@ + back, espeak_name(false)),
        !crate::text::contains(front + "nˈaɪnti"@ + back, espeak_name(true)),
        forall|at: int| 0 <= at ==> !#[trigger] hundred_runs_on(front + "nˈaɪnti"@ + back, at),
        forall|at: int| 0 <= at ==> !#[trigger] z_is_alone(front + "nˈaɪnti"@ + back, at),
        forall|at: int|
            #[trigger] ninety_has_t(front + "nˈaɪnti"@ + back, at) ==> at == front.len(),
    ensures
        normalized(front + "nˈaɪnti"@ + back) == crate::text::trimmed(
            front + "nˈaɪndi"@ + back,
        ),
{
    lemma_literals();
    let raw = front + "nˈaɪnti"@ + back;
    let out = front + "nˈaɪndi"@ + back;
    let p = front.len();
    lemma_not_named(raw, false);
    lemma_not_named(raw, true);
    lemma_plain_stays(raw);
    lemma_rest_is_kept(raw, 0);
    assert(raw.skip(0) =~= raw);
    assert(raw.subrange(p as int, p as int + 7) =~= ninety());
    if back.len() > 0 {
        assert(raw[p as int + 7] == back[0]);
    }
    assert(crate::text::matches_at(raw, ninety(), p as int));
    lemma_flaps_upto(raw, 0, p);
    lemma_rest_is_kept(raw, p + 7);
    assert(with_flaps(raw, p) =~= flapped_ninety() + raw.skip(p as int + 7));
    assert(with_flaps(raw, 0) =~= out);
}

/// The flap changes no character but a `t`, to a `d`.
proof fn lemma_flaps_change_t(s: Seq<char>, at: nat)
    requires
        at <= s.len(),
    ensures
        with_flaps(s, at).len() == s.len() - at,
        forall|i: int|
            0 <= i < s.len() - at ==> (#[trigger] with_flaps(s, at)[i]) == s[at + i] || (s[at + i]
                == 't' && with_flaps(s, at)[i] == 'd'),
    decreases s.len() - at,
{
    if at < s.len() {
        let r = with_flaps(s, at);
        if crate::text::matches_at(s, ninety(), at as int) && !(at + 7 < s.len() && s[at as int + 7]
            == '\u{02D0}') {
            lemma_flaps_change_t(s, at + 7);
            let rest = with_flaps(s, at + 7);
            assert forall|i: int| 0 <= i < s.len() - at implies (#[trigger] r[i]) == s[at + i] || (
            s[at + i] == 't' && r[i] == 'd') by {
                if i < 7 {
                    assert(s.subrange(at as int, at as int + 7)[i] == ninety()[i]);
                    assert(r[i] == flapped_ninety()[i]);
                } else {
                    assert(r[i] == rest[i - 7]);
                }
            }
        } else {
            lemma_flaps_change_t(s, at + 1);
            let rest = with_flaps(s, at + 1);
            assert forall|i: int| 0 <= i < s.len() - at implies (#[trigger] r[i]) == s[at + i] || (
            s[at + i] == 't' && r[i] == 'd') by {
                if i > 0 {
                    assert(r[i] == rest[i - 1]);
                }
            }
        }
    }
}

/// Whether two texts have white space in the same places.
pub open spec fn same_spaces(a: Seq<char>, b: Seq<char>) -> bool {
    &&& a.len() == b.len()
    &&& forall|i: int|
        0 <= i < a.len() ==> crate::text::is_white(#[trigger] a[i]) == crate::text::is_white(b[i])
}

proof fn lemma_same_words(a: Seq<char>, b: Seq<char>)
    requires
        same_spaces(a, b),
    ensures
        crate::text::words(a).len() == crate::text::words(b).len(),
    decreases a.len(),
{
    if a.len() > 0 {
        let (x, y) = (a.drop_last(), b.drop_last());
        let n = a.len() - 1;
        assert forall|i: int| 0 <= i < x.len() implies crate::text::is_white(#[trigger] x[i])
            == crate::text::is_white(y[i]) by {
            assert(x[i] == a[i] && y[i] == b[i]);
        }
        lemma_same_words(x, y);
        assert(x.push(a[n]) =~= a && y.push(b[n]) =~= b);
        crate::text::law_words_grow(x, a[n]);
        crate::text::law_words_grow(y, b[n]);
        if n > 0 {
            assert(x.last() == x[n - 1] && y.last() == y[n - 1]);
        }
    } else {
        assert(a =~= b);
    }
}

proof fn lemma_trimmed_words(s: Seq<char>)
    ensures
        crate::text::words(crate::text::trimmed(s)) == crate::text::words(s),
{
    let t = crate::text::trim_start(s);
    lemma_start_words(s);
    lemma_end_words(t);
}

proof fn lemma_start_words(s: Seq<char>)
    ensures
        crate::text::words(crate::text::trim_start(s)) == crate::text::words(s),
    decreases s.len(),
{
    if s.len() > 0 && crate::text::is_white(s[0]) {
        lemma_start_words(s.subrange(1, s.len() as int));
    }
}

proof fn lemma_end_words(s: Seq<char>)
    ensures
        crate::text::words(crate::text::trim_end(s)) == crate::text::words(s),
    decreases s.len(),
{
    if s.len() > 0 && crate::text::is_white(s.last()) {
        lemma_end_words(s.drop_last());
        crate::text::law_words_grow(s.drop_last(), s.last());
        assert(s.drop_last().push(s.last()) =~= s);
    }
}

proof fn lemma_mapped_is_pointwise(s: Seq<char>)
    requires
        forall|i: int|
            0 <= i < s.len() ==> (#[trigger] s[i]) != '\u{200D}' && s[i] != '\u{0361}',
    ensures
        plain_phones(s).len() == s.len(),
        forall|i: int| 0 <= i < s.len() ==> #[trigger] plain_phones(s)[i] == phone_of(s[i]),
    decreases s.len(),
{
    if s.len() > 0 {
        let rest = s.drop_last();
        assert forall|i: int| 0 <= i < rest.len() implies (#[trigger] rest[i]) != '\u{200D}'
            && rest[i] != '\u{0361}' by {
            assert(rest[i] == s[i]);
        }
        lemma_mapped_is_pointwise(rest);
        assert(s[s.len() - 1] != '\u{200D}');
        assert forall|i: int| 0 <= i < s.len() implies #[trigger] plain_phones(s)[i] == phone_of(
            s[i],
        ) by {
            if i < rest.len() {
                assert(plain_phones(s)[i] == plain_phones(rest)[i]);
                assert(rest[i] == s[i]);
            }
        }
    }
}

/// Normalizing keeps the words apart: phonemes without a joiner, in which
/// neither "Kokoro" nor a "hundred" nor a lone `z` stands, come out as the same
/// number of words, whatever allophones they have.
pub proof fn law_words_are_kept(raw: Seq<char>)
    requires
        forall|i: int|
            0 <= i < raw.len() ==> (#[trigger] raw[i]) != '\u{200D}' && raw[i] != '\u{0361}',
        !crate::text::contains(raw, espeak_name(false)),
        !crate::text::contains(raw, espeak_name(true)),
        !crate::text::contains(raw, "hˈʌnd"@),
        forall|k: int| 0 <= k < raw.len() ==> !#[trigger] z_is_alone(raw, k),
    ensures
        crate::text::words(normalized(raw)).len() == crate::text::words(raw).len(),
{
    lemma_literals();
    reveal_strlit("hˈʌnd");
    lemma_not_named(raw, false);
    lemma_not_named(raw, true);
    lemma_mapped_is_pointwise(raw);
    let c = plain_phones(raw);
    assert forall|k: int| 0 <= k < c.len() implies !#[trigger] hundred_runs_on(c, k) by {
        if crate::text::matches_at(c, hundred(), k) {
            let part = raw.subrange(k, k + 5);
            let full = c.subrange(k, k + 8);
            assert forall|i: int| 0 <= i < 5 implies part[i] == "hˈʌnd"@[i] by {
                assert(full[i] == c[k + i]);
                assert(c[k + i] == phone_of(raw[k + i]));
            }
            assert(part =~= "hˈʌnd"@);
            assert(crate::text::matches_at(raw, "hˈʌnd"@, k));
        }
    }
    assert forall|k: int| 0 <= k < c.len() implies !#[trigger] z_is_alone(c, k) by {
        lemma_z_is_alone(c, k);
        lemma_z_is_alone(raw, k);
        assert(c[k] == phone_of(raw[k]));
        if k + 1 < c.len() {
            assert(c[k + 1] == phone_of(raw[k + 1]));
        }
        if k + 2 < c.len() {
            assert(c[k + 2] == phone_of(raw[k + 2]));
        }
        assert(!z_is_alone(raw, k));
    }
    lemma_rest_is_kept(c, 0);
    assert(c.skip(0) =~= c);
    let out = with_flaps(c, 0);
    lemma_flaps_change_t(c, 0);
    assert forall|i: int| 0 <= i < out.len() implies crate::text::is_white(#[trigger] out[i])
        == crate::text::is_white(raw[i]) by {
        assert(c[i] == phone_of(raw[i]));
    }
    lemma_same_words(out, raw);
    lemma_trimmed_words(out);
}

/// The tokens of phonemes are found one by one: those of two texts one behind
/// the other are the tokens of the first and then those of the second.
pub proof fn law_tokens_are_found_one_by_one(
    first: Seq<char>,
    second: Seq<char>,
    vocab: Seq<(char, i64)>,
)
    ensures
        known_ids(first + second, vocab) == known_ids(first, vocab) + known_ids(second, vocab),
    decreases second.len(),
{
    if second.len() == 0 {
        assert(first + second =~= first);
        assert(known_ids(first, vocab) + known_ids(second, vocab) =~= known_ids(first, vocab));
    } else {
        assert((first + second).drop_last() =~= first + second.drop_last());
        law_tokens_are_found_one_by_one(first, second.drop_last(), vocab);
        assert(known_ids(first + second, vocab) =~= known_ids(first, vocab) + known_ids(
            second,
            vocab,
        ));
    }
}

/// A character has the id of its first entry, and none where it has no entry.
pub proof fn law_characters_have_their_ids(vocab: Seq<(char, i64)>, c: char, k: int)
    ensures
        0 <= k < vocab.len() && vocab[k].0 == c && (forall|j: int|
            0 <= j < k ==> (#[trigger] vocab[j]).0 != c) ==> known_ids(seq![c], vocab) == seq![
            vocab[k].1,
        ],
        (forall|j: int| 0 <= j < vocab.len() ==> (#[trigger] vocab[j]).0 != c) ==> known_ids(
            seq![c],
            vocab,
        ) == Seq::<i64>::empty(),
{
    lemma_token_id(vocab, c, k);
    assert(seq![c].drop_last() =~= Seq::<char>::empty());
    assert(known_ids(Seq::<char>::empty(), vocab) =~= Seq::<i64>::empty());
    match token_id(vocab, c) {
        Some(id) => {
            assert(known_ids(seq![c], vocab) =~= seq![id]);
        },
        None => {},
    }
}

proof fn lemma_token_id(vocab: Seq<(char, i64)>, c: char, k: int)
    ensures
        0 <= k < vocab.len() && vocab[k].0 == c && (forall|j: int|
            0 <= j < k ==> (#[trigger] vocab[j]).0 != c) ==> token_id(vocab, c) == Some(vocab[k].1),
        (forall|j: int| 0 <= j < vocab.len() ==> (#[trigger] vocab[j]).0 != c) ==> token_id(
            vocab,
            c,
        ) is None,
    decreases vocab.len(),
{
    if vocab.len() > 0 && vocab[0].0 != c {
        let rest = vocab.subrange(1, vocab.len() as int);
        lemma_token_id(rest, c, k - 1);
        assert(forall|j: int| 0 <= j < rest.len() ==> rest[j] == #[trigger] vocab[j + 1]);
        assert forall|j: int| 0 <= j < rest.len() implies #[trigger] rest[j] == vocab[j + 1] by {}
        if 0 <= k < vocab.len() && vocab[k].0 == c && (forall|j: int|
            0 <= j < k ==> (#[trigger] vocab[j]).0 != c) {
            assert(k > 0);
            assert(rest[k - 1] == vocab[k]);
            assert forall|j: int| 0 <= j < k - 1 implies (#[trigger] rest[j]).0 != c by {
                assert(vocab[j + 1].0 != c);
            }
        }
        if forall|j: int| 0 <= j < vocab.len() ==> (#[trigger] vocab[j]).0 != c {
            assert forall|j: int| 0 <= j < rest.len() implies (#[trigger] rest[j]).0 != c by {
                assert(vocab[j + 1].0 != c);
            }
        }
    } else if vocab.len() > 0 {
        assert(vocab[0].0 == c);
    }
}

/// A clause ends with the text's own last mark: where the text ends, but for
/// white space, in one of `. ! ? , ; :`, so do its phonemes, with that mark once
/// and nothing but, maybe, a space put in front of it; where it ends in anything
/// else, the phonemes stay as they are.
pub proof fn law_clauses_keep_their_mark(
    text: Seq<char>,
    blank: Seq<char>,
    ipa: Seq<char>,
    spaced: bool,
)
    requires
        text.len() > 0,
        !crate::text::is_white(text.last()),
        forall|i: int| 0 <= i < blank.len() ==> crate::text::is_white(#[trigger] blank[i]),
    ensures
        ({
            let out = punctuated(text + blank, ipa, spaced);
            let mark = text.last();
            if ".!?,;:"@.contains(mark) {
                &&& out.len() > 0
                &&& out.last() == mark
                &&& ipa.len() > 0 && ipa.last() == mark ==> out == ipa
                &&& ipa.len() == 0 || ipa.last() != mark ==> out == ipa + (if spaced {
                    seq![' ', mark]
                } else {
                    seq![mark]
                })
            } else {
                out == ipa
            }
        }),
    decreases blank.len(),
{
    if blank.len() > 0 {
        let all = text + blank;
        assert(all.drop_last() =~= text + blank.drop_last());
        assert(crate::text::is_white(blank[blank.len() - 1]));
        assert forall|i: int| 0 <= i < blank.drop_last().len() implies crate::text::is_white(
            #[trigger] blank.drop_last()[i],
        ) by {
            assert(blank.drop_last()[i] == blank[i]);
        }
        law_clauses_keep_their_mark(text, blank.drop_last(), ipa, spaced);
    } else {
        assert(text + blank =~= text);
        let mark = text.last();
        reveal_strlit(".!?,;:");
        let marks = ".!?,;:"@;
        assert(marks =~= seq!['.', '!', '?', ',', ';', ':']);
        assert(marks[0] == '.' && marks[1] == '!' && marks[2] == '?' && marks[3] == ',' && marks[4]
            == ';' && marks[5] == ':');
        assert(marks.contains(mark) == is_terminal(mark));
        if spaced {
            assert(ipa.push(' ').push(mark) =~= ipa + seq![' ', mark]);
        } else {
            assert(ipa.push(mark) =~= ipa + seq![mark]);
        }
    }
}

proof fn lemma_nonblank(parts: Seq<Seq<char>>)
    requires
        forall|i: int|
            0 <= i < parts.len() ==> crate::text::trimmed(#[trigger] parts[i]) == parts[i]
                && parts[i].len() > 0,
    ensures
        nonblank(parts) == parts,
    decreases parts.len(),
{
    if parts.len() > 0 {
        let less = parts.drop_last();
        assert forall|i: int| 0 <= i < less.len() implies crate::text::trimmed(#[trigger] less[i])
            == less[i] && less[i].len() > 0 by {
            assert(less[i] == parts[i]);
        }
        lemma_nonblank(less);
        let n = parts.len() - 1;
        assert(crate::text::trimmed(parts[n]) == parts[n] && parts[n].len() > 0);
        assert(nonblank(parts) =~= parts);
    } else {
        assert(nonblank(parts) =~= parts);
    }
}

/// The lines of an output are read one behind the other, with a space between
/// them, each as it is.
pub proof fn law_lines_are_read_in_order(parts: Seq<Seq<char>>)
    requires
        parts.len() > 0,
        forall|i: int| 0 <= i < parts.len() ==> !(#[trigger] parts[i]).contains('\n'),
        forall|i: int|
            0 <= i < parts.len() ==> crate::text::trimmed(#[trigger] parts[i]) == parts[i]
                && parts[i].len() > 0,
    ensures
        joined_lines(join(parts, seq!['\n'])) == join(parts, seq![' ']),
{
    reveal_strlit(" ");
    assert(" "@ =~= seq![' ']);
    crate::text::law_joined_texts_come_apart(parts, '\n');
    lemma_nonblank(parts);
}

} // verus!
