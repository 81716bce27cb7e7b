//! Character-level text helpers shared by every module.
//!
//! A string is modelled by its view, a `Seq<char>`. The executable helpers
//! work on `Vec<char>` (one entry per `char`, so no index ever falls inside a
//! UTF-8 sequence) and are stated against the spec functions of this file.

use vstd::prelude::*;

verus! {

// ---------------------------------------------------------------------------
// Character classes
// ---------------------------------------------------------------------------

/// The characters with the Unicode `White_Space` property.
pub open spec fn is_white(c: char) -> bool {
    let n = c as u32;
    ||| 0x09 <= n <= 0x0d
    ||| n == 0x20
    ||| n == 0x85
    ||| n == 0xa0
    ||| n == 0x1680
    ||| 0x2000 <= n <= 0x200a
    ||| n == 0x2028
    ||| n == 0x2029
    ||| n == 0x202f
    ||| n == 0x205f
    ||| n == 0x3000
}

/// Whether `c` has the Unicode `White_Space` property.
pub fn is_whitespace(c: char) -> (r: bool)
    ensures
        r == is_white(c),
{
    let n: u32 = c as u32;
    (0x09 <= n && n <= 0x0d) || n == 0x20 || n == 0x85 || n == 0xa0 || n == 0x1680 || (0x2000 <= n
        && n <= 0x200a) || n == 0x2028 || n == 0x2029 || n == 0x202f || n == 0x205f || n == 0x3000
}

/// The characters of the Unicode general category `Cc`.
pub open spec fn is_control_char(c: char) -> bool {
    c as u32 <= 0x1f || 0x7f <= c as u32 <= 0x9f
}

/// Whether `c` is a control character (`Cc`).
pub fn is_control(c: char) -> (r: bool)
    ensures
        r == is_control_char(c),
{
    let n: u32 = c as u32;
    n <= 0x1f || (0x7f <= n && n <= 0x9f)
}

/// The ASCII decimal digits.
pub open spec fn is_digit_char(c: char) -> bool {
    '0' <= c <= '9'
}

/// Whether `c` is an ASCII decimal digit.
pub fn is_digit(c: char) -> (r: bool)
    ensures
        r == is_digit_char(c),
{
    '0' <= c && c <= '9'
}

/// The lowercase equivalent of a string.
pub uninterp spec fn lowercase(s: Seq<char>) -> Seq<char>;

/// `str::to_lowercase` of std: the result is a function of the text alone
/// (the Unicode `Lowercase` mapping, applied to the whole string), which
/// `lowercase` names. The empty text has no character to map.
#[verifier::external_body]
pub(crate) fn to_lowercase(s: &str) -> (r: String)
    ensures
        r@ == lowercase(s@),
        s@.len() == 0 ==> r@.len() == 0,
{
    s.to_lowercase()
}

// ---------------------------------------------------------------------------
// Conversions
// ---------------------------------------------------------------------------

/// `String::push` of std: appends one character.
#[verifier::external_body]
pub(crate) fn push_char(s: &mut String, c: char)
    ensures
        final(s)@ == old(s)@.push(c),
{
    s.push(c);
}

/// The text of a byte string, its malformed parts replaced.
pub uninterp spec fn utf8_lossy(bytes: Seq<u8>) -> Seq<char>;

/// `String::from_utf8_lossy` of std: the result is a function of the bytes
/// alone, which `utf8_lossy` names; bytes that are valid UTF-8 decode to the
/// text they encode.
#[verifier::external_body]
pub(crate) fn decode_lossy(bytes: &[u8]) -> (r: String)
    ensures
        r@ == utf8_lossy(bytes@),
        vstd::utf8::valid_utf8(bytes@) ==> r@ == vstd::utf8::decode_utf8(bytes@),
{
    String::from_utf8_lossy(bytes).into_owned()
}

/// The characters of `s`, in order.
pub fn chars_of(s: &str) -> (v: Vec<char>)
    ensures
        v@ == s@,
{
    let mut v: Vec<char> = Vec::new();
    for c in it: s.chars()
        invariant
            v@ =~= it.seq().take(it.index()),
            it.seq() == s@,
    {
        v.push(c);
    }
    v
}

/// The string made of `v[from..to]`.
pub fn string_of(v: &Vec<char>, from: usize, to: usize) -> (s: String)
    requires
        from <= to <= v@.len(),
    ensures
        s@ == v@.subrange(from as int, to as int),
{
    let mut s = String::new();
    let mut i: usize = from;
    while i < to
        invariant
            from <= i <= to <= v@.len(),
            s@ =~= v@.subrange(from as int, i as int),
        decreases to - i,
    {
        push_char(&mut s, v[i]);
        i += 1;
    }
    s
}

/// Whether two strings hold the same characters.
pub fn str_eq(a: &str, b: &str) -> (r: bool)
    ensures
        r == (a@ == b@),
{
    let x = chars_of(a);
    let y = chars_of(b);
    chars_eq(&x, &y)
}

/// Whether two character vectors are equal.
pub fn chars_eq(x: &Vec<char>, y: &Vec<char>) -> (r: bool)
    ensures
        r == (x@ == y@),
{
    if x.len() != y.len() {
        return false;
    }
    let mut i: usize = 0;
    while i < x.len()
        invariant
            x@.len() == y@.len(),
            i <= x@.len(),
            forall|k: int| 0 <= k < i ==> x@[k] == y@[k],
        decreases x@.len() - i,
    {
        if x[i] != y[i] {
            assert(x@[i as int] != y@[i as int]);
            return false;
        }
        i += 1;
    }
    assert(x@ =~= y@);
    true
}

/// The characters of each string of a sequence.
pub open spec fn strs(v: Seq<String>) -> Seq<Seq<char>> {
    v.map_values(|s: String| s@)
}

/// A copy of a list of strings.
pub fn clone_strings(v: &Vec<String>) -> (r: Vec<String>)
    ensures
        strs(r@) == strs(v@),
{
    let mut out: Vec<String> = Vec::new();
    let mut i: usize = 0;
    while i < v.len()
        invariant
            i <= v@.len(),
            strs(out@) =~= strs(v@).take(i as int),
        decreases v@.len() - i,
    {
        let ghost before = out@;
        let s = v[i].clone();
        out.push(s);
        assert(strs(out@) =~= strs(before).push(s@));
        i += 1;
    }
    assert(strs(out@) =~= strs(v@));
    out
}

/// The first `n` characters of `s`, or all of it where it has fewer.
pub open spec fn prefix(s: Seq<char>, n: nat) -> Seq<char> {
    if n < s.len() {
        s.take(n as int)
    } else {
        s
    }
}

/// The first `n` characters of `s`, or all of it where it has fewer.
pub fn take_chars(s: &str, n: usize) -> (r: String)
    ensures
        r@ == prefix(s@, n as nat),
{
    let v = chars_of(s);
    let end: usize = if n < v.len() {
        n
    } else {
        v.len()
    };
    let r = string_of(&v, 0, end);
    assert(r@ =~= prefix(s@, n as nat));
    r
}

/// An ASCII letter in lower case; other characters as they are.
pub open spec fn ascii_lower_char(c: char) -> char {
    if 'A' <= c <= 'Z' {
        ((c as u8 + 32) as u8) as char
    } else {
        c
    }
}

/// A text with its ASCII letters in lower case.
pub open spec fn ascii_lower(s: Seq<char>) -> Seq<char> {
    s.map_values(|c: char| ascii_lower_char(c))
}

/// The characters `from..to` with the ASCII letters in lower case.
pub fn to_ascii_lower(s: &Vec<char>, from: usize, to: usize) -> (r: String)
    requires
        from <= to <= s@.len(),
    ensures
        r@ == ascii_lower(s@.subrange(from as int, to as int)),
{
    let ghost part = s@.subrange(from as int, to as int);
    let mut out: Vec<char> = Vec::new();
    let mut k: usize = from;
    while k < to
        invariant
            from <= k <= to <= s@.len(),
            part == s@.subrange(from as int, to as int),
            out@ == ascii_lower(part).take(k - from),
        decreases to - k,
    {
        let c: char = s[k];
        assert(part[k - from] == c);
        let l: char = if 'A' <= c && c <= 'Z' {
            (c as u8 + 32) as char
        } else {
            c
        };
        out.push(l);
        assert(out@ =~= ascii_lower(part).take(k - from + 1));
        k += 1;
    }
    assert(ascii_lower(part).take(part.len() as int) =~= ascii_lower(part));
    assert(out@.subrange(0, out@.len() as int) =~= out@);
    string_of(&out, 0, out.len())
}

// ---------------------------------------------------------------------------
// Trimming
// ---------------------------------------------------------------------------

/// `s` without its leading white space.
pub open spec fn trim_start(s: Seq<char>) -> Seq<char>
    decreases s.len(),
{
    if s.len() > 0 && is_white(s[0]) {
        trim_start(s.subrange(1, s.len() as int))
    } else {
        s
    }
}

/// `s` without its trailing white space.
pub open spec fn trim_end(s: Seq<char>) -> Seq<char>
    decreases s.len(),
{
    if s.len() > 0 && is_white(s.last()) {
        trim_end(s.drop_last())
    } else {
        s
    }
}

/// `s` without its leading and trailing white space.
pub open spec fn trimmed(s: Seq<char>) -> Seq<char> {
    trim_end(trim_start(s))
}

/// The bounds of `v` without its leading and trailing white space.
pub fn trim_bounds(v: &Vec<char>) -> (r: (usize, usize))
    ensures
        r.0 <= r.1 <= v@.len(),
        v@.subrange(r.0 as int, r.1 as int) == trimmed(v@),
{
    let n: usize = v.len();
    let mut a: usize = 0;
    assert(v@.subrange(0, n as int) =~= v@);
    while a < n && is_whitespace(v[a])
        invariant
            a <= n == v@.len(),
            trim_start(v@) == trim_start(v@.subrange(a as int, n as int)),
        decreases n - a,
    {
        assert(v@.subrange(a as int, n as int).subrange(1, n - a) =~= v@.subrange(
            a + 1,
            n as int,
        ));
        a += 1;
    }
    assert(trim_start(v@) == v@.subrange(a as int, n as int));
    let mut b: usize = n;
    while b > a && is_whitespace(v[b - 1])
        invariant
            a <= b <= n == v@.len(),
            trim_start(v@) == v@.subrange(a as int, n as int),
            trim_end(v@.subrange(a as int, n as int)) == trim_end(
                v@.subrange(a as int, b as int),
            ),
        decreases b,
    {
        assert(v@.subrange(a as int, b as int).drop_last() =~= v@.subrange(a as int, b - 1));
        b -= 1;
    }
    (a, b)
}

/// `s` without its leading and trailing white space.
pub fn trim(s: &str) -> (r: String)
    ensures
        r@ == trimmed(s@),
{
    let v = chars_of(s);
    let (a, b) = trim_bounds(&v);
    string_of(&v, a, b)
}

/// What `trim_start` takes off is white space, and what it leaves starts with
/// none.
pub proof fn lemma_trim_start(s: Seq<char>)
    ensures
        trim_start(s).len() <= s.len(),
        trim_start(s) == s.subrange(s.len() - trim_start(s).len(), s.len() as int),
        trim_start(s).len() > 0 ==> !is_white(trim_start(s)[0]),
        forall|i: int| 0 <= i < s.len() - trim_start(s).len() ==> is_white(#[trigger] s[i]),
    decreases s.len(),
{
    if s.len() > 0 && is_white(s[0]) {
        let r = s.subrange(1, s.len() as int);
        lemma_trim_start(r);
        assert(trim_start(s) =~= s.subrange(s.len() - trim_start(s).len(), s.len() as int));
        assert forall|i: int| 0 <= i < s.len() - trim_start(s).len() implies is_white(
            #[trigger] s[i],
        ) by {
            if i > 0 {
                assert(r[i - 1] == s[i]);
            }
        }
    } else {
        assert(trim_start(s) =~= s.subrange(0, s.len() as int));
    }
}

/// What `trim_end` takes off is white space, and what it leaves ends with
/// none.
pub proof fn lemma_trim_end(s: Seq<char>)
    ensures
        trim_end(s).len() <= s.len(),
        trim_end(s) == s.take(trim_end(s).len() as int),
        trim_end(s).len() > 0 ==> !is_white(trim_end(s).last()),
        forall|i: int| trim_end(s).len() <= i < s.len() ==> is_white(#[trigger] s[i]),
    decreases s.len(),
{
    if s.len() > 0 && is_white(s.last()) {
        let r = s.drop_last();
        lemma_trim_end(r);
        assert(trim_end(s) =~= s.take(trim_end(s).len() as int));
        assert forall|i: int| trim_end(s).len() <= i < s.len() implies is_white(
            #[trigger] s[i],
        ) by {
            if i < s.len() - 1 {
                assert(r[i] == s[i]);
            }
        }
    } else {
        assert(s =~= s.take(s.len() as int));
    }
}

// ---------------------------------------------------------------------------
// Words
// ---------------------------------------------------------------------------

/// The length of the leading run of `s` without white space.
pub open spec fn word_run(s: Seq<char>) -> nat
    decreases s.len(),
{
    if s.len() == 0 || is_white(s[0]) {
        0
    } else {
        1 + word_run(s.subrange(1, s.len() as int))
    }
}

pub proof fn lemma_word_run(s: Seq<char>)
    ensures
        word_run(s) <= s.len(),
        forall|i: int| 0 <= i < word_run(s) ==> !is_white(#[trigger] s[i]),
        word_run(s) < s.len() ==> is_white(s[word_run(s) as int]),
        s.len() > 0 && !is_white(s[0]) ==> word_run(s) > 0,
    decreases s.len(),
{
    if s.len() > 0 && !is_white(s[0]) {
        let r = s.subrange(1, s.len() as int);
        lemma_word_run(r);
        assert forall|i: int| 0 <= i < word_run(s) implies !is_white(#[trigger] s[i]) by {
            if i > 0 {
                assert(r[i - 1] == s[i]);
            }
        }
        if word_run(s) < s.len() {
            assert(r[word_run(r) as int] == s[word_run(s) as int]);
        }
    }
}

/// The words of `s`: its maximal runs without white space, in order.
pub open spec fn words(s: Seq<char>) -> Seq<Seq<char>>
    decreases s.len(),
    via words_decreases
{
    if s.len() == 0 {
        Seq::empty()
    } else if is_white(s[0]) {
        words(s.subrange(1, s.len() as int))
    } else {
        seq![s.take(word_run(s) as int)] + words(s.skip(word_run(s) as int))
    }
}

#[via_fn]
proof fn words_decreases(s: Seq<char>) {
    lemma_word_run(s);
}

/// Splits `v` into its words.
pub fn split_words(v: &Vec<char>) -> (r: Vec<Vec<char>>)
    ensures
        r@.map_values(|w: Vec<char>| w@) == words(v@),
{
    let n: usize = v.len();
    let mut out: Vec<Vec<char>> = Vec::new();
    let mut i: usize = 0;
    assert(v@.subrange(0, n as int) =~= v@);
    assert(out@.map_values(|w: Vec<char>| w@) + words(v@) =~= words(v@));
    while i < n
        invariant
            i <= n == v@.len(),
            out@.map_values(|w: Vec<char>| w@) + words(v@.subrange(i as int, n as int)) == words(
                v@,
            ),
        decreases n - i,
    {
        let ghost rest = v@.subrange(i as int, n as int);
        if is_whitespace(v[i]) {
            assert(rest.subrange(1, rest.len() as int) =~= v@.subrange(i + 1, n as int));
            i += 1;
        } else {
            let start: usize = i;
            let mut word: Vec<char> = Vec::new();
            while i < n && !is_whitespace(v[i])
                invariant
                    start <= i <= n == v@.len(),
                    word@ =~= v@.subrange(start as int, i as int),
                    word_run(v@.subrange(start as int, n as int)) == (i - start) + word_run(
                        v@.subrange(i as int, n as int),
                    ),
                decreases n - i,
            {
                assert(v@.subrange(i as int, n as int).subrange(1, n - i) =~= v@.subrange(
                    i + 1,
                    n as int,
                ));
                word.push(v[i]);
                i += 1;
            }
            let ghost before = out@;
            proof {
                assert(word_run(rest) == i - start);
                lemma_word_run(rest);
                assert(rest.take(word_run(rest) as int) =~= word@);
                assert(rest.skip(word_run(rest) as int) =~= v@.subrange(i as int, n as int));
                assert(words(rest) == seq![word@] + words(v@.subrange(i as int, n as int)));
            }
            out.push(word);
            proof {
                let f = |w: Vec<char>| w@;
                assert(out@.map_values(f) =~= before.map_values(f) + seq![word@]);
                assert(out@.map_values(f) + words(v@.subrange(i as int, n as int))
                    =~= before.map_values(f) + (seq![word@] + words(
                    v@.subrange(i as int, n as int),
                )));
            }
        }
    }
    assert(out@.map_values(|w: Vec<char>| w@) + words(v@.subrange(n as int, n as int))
        =~= out@.map_values(|w: Vec<char>| w@));
    out
}

/// One more character at the end of a text: white space adds no word, and any
/// other character goes on with the last word, or begins a new one where the
/// text is empty or ends in white space.
pub proof fn law_words_grow(s: Seq<char>, c: char)
    ensures
        words(Seq::<char>::empty()) == Seq::<Seq<char>>::empty(),
        is_white(c) ==> words(s.push(c)) == words(s),
        !is_white(c) && (s.len() == 0 || is_white(s.last())) ==> words(s.push(c)) == words(s).push(
            seq![c],
        ),
        s.len() > 0 && !is_white(s.last()) ==> words(s).len() > 0,
        !is_white(c) && s.len() > 0 && !is_white(s.last()) ==> words(s.push(c)) == words(
            s,
        ).drop_last().push(words(s).last().push(c)),
    decreases s.len(),
{
    let t = s.push(c);
    if s.len() == 0 {
        assert(t.subrange(1, 1) =~= Seq::empty());
        assert(s =~= Seq::empty());
        if !is_white(c) {
            assert(word_run(t) == 1);
            assert(t.take(1) =~= seq![c]);
            assert(t.skip(1) =~= Seq::empty());
            assert(words(t) =~= words(s).push(seq![c]));
        }
    } else if is_white(s[0]) {
        let rest = s.subrange(1, s.len() as int);
        law_words_grow(rest, c);
        assert(t.subrange(1, t.len() as int) =~= rest.push(c));
        assert(rest.len() > 0 ==> rest.last() == s.last());
    } else {
        lemma_word_run(s);
        lemma_word_run(t);
        let n = word_run(s) as int;
        let rest = s.skip(n);
        if n < s.len() {
            assert(t[n] == s[n]);
            if word_run(t) < n {
                assert(t[word_run(t) as int] == s[word_run(t) as int]);
            }
            assert(word_run(t) == n);
            law_words_grow(rest, c);
            assert(t.take(n) =~= s.take(n));
            assert(t.skip(n) =~= rest.push(c));
            assert(rest.last() == s.last());
            let first = seq![s.take(n)];
            if is_white(c) {
            } else if is_white(s.last()) {
                assert(words(t) =~= words(s).push(seq![c]));
            } else {
                assert(words(t) =~= words(s).drop_last().push(words(s).last().push(c)));
            }
        } else {
            assert(s.take(n) =~= s);
            assert(rest =~= Seq::empty());
            assert(words(s) =~= seq![s]);
            assert(s[s.len() - 1] == s.last());
            if word_run(t) < n {
                assert(t[word_run(t) as int] == s[word_run(t) as int]);
            }
            if is_white(c) {
                assert(t[n] == c);
                assert(word_run(t) == n);
                assert(t.take(n) =~= s);
                assert(t.skip(n) =~= seq![c]);
                assert(seq![c].subrange(1, 1) =~= Seq::empty());
                assert(words(seq![c]) == words(seq![c].subrange(1, 1)));
                assert(words(t) =~= words(s));
            } else {
                if word_run(t) == n {
                    assert(t[n] == c);
                }
                assert(word_run(t) == n + 1);
                assert(t.take(n + 1) =~= t);
                assert(t.skip(n + 1) =~= Seq::empty());
                assert(words(t) =~= seq![t]);
                assert(words(t) =~= words(s).drop_last().push(words(s).last().push(c)));
            }
        }
    }
}

/// The characters of a text that are no white space.
pub open spec fn letters(s: Seq<char>) -> Seq<char>
    decreases s.len(),
{
    if s.len() == 0 {
        Seq::empty()
    } else if is_white(s.last()) {
        letters(s.drop_last())
    } else {
        letters(s.drop_last()).push(s.last())
    }
}

pub proof fn lemma_letters_add(a: Seq<char>, b: Seq<char>)
    ensures
        letters(a + b) == letters(a) + letters(b),
    decreases b.len(),
{
    if b.len() == 0 {
        assert(a + b =~= a);
        assert(letters(a) + letters(b) =~= letters(a));
    } else {
        assert((a + b).drop_last() =~= a + b.drop_last());
        lemma_letters_add(a, b.drop_last());
        assert(letters(a + b) =~= letters(a) + letters(b));
    }
}

pub proof fn lemma_letters_white(s: Seq<char>)
    requires
        forall|i: int| 0 <= i < s.len() ==> is_white(#[trigger] s[i]),
    ensures
        letters(s) == Seq::<char>::empty(),
    decreases s.len(),
{
    if s.len() > 0 {
        assert(is_white(s[s.len() - 1]));
        assert forall|i: int| 0 <= i < s.drop_last().len() implies is_white(
            #[trigger] s.drop_last()[i],
        ) by {
            assert(s.drop_last()[i] == s[i]);
        }
        lemma_letters_white(s.drop_last());
    }
}

// ---------------------------------------------------------------------------
// Searching
// ---------------------------------------------------------------------------

/// Whether `needle` stands in `hay` at `at`.
pub open spec fn matches_at(hay: Seq<char>, needle: Seq<char>, at: int) -> bool {
    &&& 0 <= at
    &&& at + needle.len() <= hay.len()
    &&& hay.subrange(at, at + needle.len()) == needle
}

/// Whether `needle` stands anywhere in `hay`.
pub open spec fn contains(hay: Seq<char>, needle: Seq<char>) -> bool {
    exists|at: int| matches_at(hay, needle, at)
}

/// Whether `hay` begins with `needle`.
pub open spec fn starts_with(hay: Seq<char>, needle: Seq<char>) -> bool {
    matches_at(hay, needle, 0)
}

/// Whether `needle` stands in `hay` at `at`.
pub fn is_at(hay: &Vec<char>, needle: &Vec<char>, at: usize) -> (r: bool)
    ensures
        r == matches_at(hay@, needle@, at as int),
{
    if at > hay.len() || needle.len() > hay.len() - at {
        return false;
    }
    let len: usize = hay.len();
    let mut i: usize = 0;
    while i < needle.len()
        invariant
            i <= needle@.len(),
            at + needle@.len() <= hay@.len() == len,
            forall|k: int| 0 <= k < i ==> hay@[at + k] == needle@[k],
        decreases needle@.len() - i,
    {
        if hay[at + i] != needle[i] {
            assert(hay@.subrange(at as int, at + needle@.len())[i as int] == hay@[at + i]);
            return false;
        }
        i += 1;
    }
    assert(hay@.subrange(at as int, at + needle@.len()) =~= needle@);
    true
}

/// The first place at or behind `from` where `needle` stands in `hay`.
pub fn find_from(hay: &Vec<char>, needle: &Vec<char>, from: usize) -> (r: Option<usize>)
    ensures
        match r {
            Some(at) => from <= at && matches_at(hay@, needle@, at as int) && forall|k: int|
                from <= k < at ==> !matches_at(hay@, needle@, k),
            None => forall|k: int| from <= k ==> !matches_at(hay@, needle@, k),
        },
{
    let mut i: usize = from;
    while i <= hay.len()
        invariant
            from <= i,
            i <= hay@.len() + 1 || i == from,
            forall|k: int| from <= k < i ==> !matches_at(hay@, needle@, k),
        decreases hay@.len() + 1 - i,
    {
        if is_at(hay, needle, i) {
            return Some(i);
        }
        if i == hay.len() {
            assert forall|k: int| from <= k implies !matches_at(hay@, needle@, k) by {
                if k > i {
                    assert(k + needle@.len() > hay@.len());
                }
            }
            return None;
        }
        i += 1;
    }
    None
}

/// Whether `needle` stands anywhere in `hay`.
pub fn contains_chars(hay: &Vec<char>, needle: &Vec<char>) -> (r: bool)
    ensures
        r == contains(hay@, needle@),
{
    match find_from(hay, needle, 0) {
        Some(at) => {
            assert(matches_at(hay@, needle@, at as int));
            true
        },
        None => {
            assert forall|at: int| !matches_at(hay@, needle@, at) by {
                if at < 0 {
                }
            }
            false
        },
    }
}

/// Whether `needle` stands anywhere in `hay`.
pub fn contains_str(hay: &str, needle: &str) -> (r: bool)
    ensures
        r == contains(hay@, needle@),
{
    contains_chars(&chars_of(hay), &chars_of(needle))
}

// ---------------------------------------------------------------------------
// Decimal numbers
// ---------------------------------------------------------------------------

/// The digit character of `d`.
pub open spec fn digit_char(d: nat) -> char {
    (48 + d) as u8 as char
}

/// `n` written in decimal, without leading zeros.
pub open spec fn decimal(n: nat) -> Seq<char>
    decreases n,
{
    if n < 10 {
        seq![digit_char(n)]
    } else {
        decimal(n / 10).push(digit_char(n % 10))
    }
}

/// `n` written in decimal.
pub fn decimal_string(n: u64) -> (s: String)
    ensures
        s@ == decimal(n as nat),
    decreases n,
{
    let mut s = if n < 10 {
        String::new()
    } else {
        decimal_string(n / 10)
    };
    let d: u8 = (n % 10) as u8;
    push_char(&mut s, (48 + d) as char);
    proof {
        if n < 10 {
            assert(s@ =~= decimal(n as nat));
        }
    }
    s
}

/// A whole number in decimal, with a minus sign where it is negative.
pub open spec fn signed_decimal(n: int) -> Seq<char> {
    if n < 0 {
        "-"@ + decimal((-n) as nat)
    } else {
        decimal(n as nat)
    }
}

/// A whole number in decimal.
pub fn signed_string(n: i64) -> (s: String)
    ensures
        s@ == signed_decimal(n as int),
{
    if n < 0 {
        let magnitude: u64 = (-(n + 1)) as u64 + 1;
        "-".to_owned().concat(decimal_string(magnitude).as_str())
    } else {
        decimal_string(n as u64)
    }
}

// ---------------------------------------------------------------------------
// Joining
// ---------------------------------------------------------------------------

/// The parts of `parts` one behind the other, `sep` between any two.
pub open spec fn join(parts: Seq<Seq<char>>, sep: Seq<char>) -> Seq<char>
    decreases parts.len(),
{
    if parts.len() == 0 {
        Seq::empty()
    } else if parts.len() == 1 {
        parts[0]
    } else {
        join(parts.drop_last(), sep) + sep + parts.last()
    }
}

/// Joins `parts` with `sep` between any two.
pub fn join_strings(parts: &Vec<String>, sep: &str) -> (s: String)
    ensures
        s@ == join(strs(parts@), sep@),
{
    let mut s = String::new();
    let mut i: usize = 0;
    while i < parts.len()
        invariant
            i <= parts@.len(),
            s@ == join(strs(parts@.take(i as int)), sep@),
        decreases parts@.len() - i,
    {
        if i > 0 {
            s.append(sep);
        }
        s.append(parts[i].as_str());
        proof {
            let now = strs(parts@.take(i + 1));
            assert(now.drop_last() =~= strs(parts@.take(i as int)));
            assert(now.last() == parts@[i as int]@);
            if i == 0 {
                assert(s@ =~= now[0]);
            }
        }
        i += 1;
    }
    assert(parts@.take(parts@.len() as int) =~= parts@);
    s
}

// ---------------------------------------------------------------------------
// Splitting and reading numbers
// ---------------------------------------------------------------------------

/// The length of the part of `s` in front of the first `c`, or of all of it.
pub open spec fn until(s: Seq<char>, c: char) -> nat
    decreases s.len(),
{
    if s.len() == 0 || s[0] == c {
        0
    } else {
        1 + until(s.subrange(1, s.len() as int), c)
    }
}

pub proof fn lemma_until(s: Seq<char>, c: char)
    ensures
        until(s, c) <= s.len(),
        until(s, c) < s.len() ==> s[until(s, c) as int] == c,
        forall|i: int| 0 <= i < until(s, c) ==> #[trigger] s[i] != c,
    decreases s.len(),
{
    if s.len() > 0 && s[0] != c {
        let r = s.subrange(1, s.len() as int);
        lemma_until(r, c);
        if until(s, c) < s.len() {
            assert(r[until(r, c) as int] == s[until(s, c) as int]);
        }
        assert forall|i: int| 0 <= i < until(s, c) implies #[trigger] s[i] != c by {
            if i > 0 {
                assert(r[i - 1] == s[i]);
            }
        }
    }
}

/// The parts of `s` between the characters `c`; one more part than there are
/// such characters.
pub open spec fn split_on(s: Seq<char>, c: char) -> Seq<Seq<char>>
    decreases s.len(),
    via split_on_decreases
{
    let n = until(s, c);
    if n >= s.len() {
        seq![s]
    } else {
        seq![s.take(n as int)] + split_on(s.skip(n as int + 1), c)
    }
}

#[via_fn]
proof fn split_on_decreases(s: Seq<char>, c: char) {
    lemma_until(s, c);
}

/// The place of the first `c` at or behind `from`, or the length of `v`.
pub fn find_char(v: &Vec<char>, c: char, from: usize) -> (r: usize)
    requires
        from <= v@.len(),
    ensures
        from <= r <= v@.len(),
        r == from + until(v@.skip(from as int), c),
        r < v@.len() ==> v@[r as int] == c,
        forall|i: int| from <= i < r ==> #[trigger] v@[i] != c,
{
    let mut i: usize = from;
    while i < v.len() && v[i] != c
        invariant
            from <= i <= v@.len(),
            until(v@.skip(from as int), c) == (i - from) + until(v@.skip(i as int), c),
            forall|k: int| from <= k < i ==> #[trigger] v@[k] != c,
        decreases v@.len() - i,
    {
        assert(v@.skip(i as int).subrange(1, v@.len() - i) =~= v@.skip(i + 1));
        i += 1;
    }
    i
}

/// Splits `v` at every `c`.
pub fn split_at_char(v: &Vec<char>, c: char) -> (r: Vec<Vec<char>>)
    ensures
        r@.map_values(|w: Vec<char>| w@) == split_on(v@, c),
{
    let f = Ghost(|w: Vec<char>| w@);
    let mut out: Vec<Vec<char>> = Vec::new();
    let mut from: usize = 0;
    assert(v@.skip(0) =~= v@);
    assert(out@.map_values(f@) + split_on(v@, c) =~= split_on(v@, c));
    loop
        invariant
            f@ == (|w: Vec<char>| w@),
            from <= v@.len(),
            out@.map_values(f@) + split_on(v@.skip(from as int), c) == split_on(v@, c),
        decreases v@.len() - from,
    {
        let at = find_char(v, c, from);
        let part = chars_of(string_of(v, from, at).as_str());
        let ghost rest = v@.skip(from as int);
        assert(part@ =~= rest.take(at - from));
        let ghost before = out@;
        out.push(part);
        assert(out@.map_values(f@) =~= before.map_values(f@) + seq![part@]);
        if at >= v.len() {
            assert(part@ =~= rest);
            return out;
        }
        assert(rest.skip(at - from + 1) =~= v@.skip(at + 1));
        assert(out@.map_values(f@) + split_on(v@.skip(at + 1), c) =~= before.map_values(f@) + (
        seq![part@] + split_on(v@.skip(at + 1), c)));
        from = at + 1;
    }
}

/// A line without the carriage return at its end.
pub open spec fn strip_cr(s: Seq<char>) -> Seq<char> {
    if s.len() > 0 && s.last() == '\r' {
        s.drop_last()
    } else {
        s
    }
}

/// The lines of a text: what stands in front of each line feed, without a
/// carriage return there, and what stands behind the last one.
pub open spec fn lines(s: Seq<char>) -> Seq<Seq<char>> {
    let parts = split_on(s, '\n');
    let ended = parts.drop_last().map_values(|p: Seq<char>| strip_cr(p));
    if parts.last().len() == 0 {
        ended
    } else {
        ended.push(parts.last())
    }
}

/// Texts by their characters.
pub open spec fn char_lists(v: Seq<Vec<char>>) -> Seq<Seq<char>> {
    v.map_values(|w: Vec<char>| w@)
}

/// The lines of a text.
pub fn lines_of(s: &Vec<char>) -> (r: Vec<Vec<char>>)
    ensures
        char_lists(r@) == lines(s@),
{
    let parts = split_at_char(s, '\n');
    let ghost all = split_on(s@, '\n');
    let ghost ended = all.drop_last().map_values(|p: Seq<char>| strip_cr(p));
    let n: usize = parts.len();
    proof {
        assert(all.len() > 0);
        assert(n == all.len());
    }
    let mut out: Vec<Vec<char>> = Vec::new();
    let mut i: usize = 0;
    assert(char_lists(out@) =~= ended.take(0));
    while i < n - 1
        invariant
            n == parts@.len() == all.len(),
            n > 0,
            i <= n - 1,
            all == char_lists(parts@),
            ended == all.drop_last().map_values(|p: Seq<char>| strip_cr(p)),
            char_lists(out@) == ended.take(i as int),
        decreases n - i,
    {
        let part = &parts[i];
        assert(all[i as int] == part@);
        let to: usize = if part.len() > 0 && part[part.len() - 1] == '\r' {
            part.len() - 1
        } else {
            part.len()
        };
        let line = chars_of(string_of(part, 0, to).as_str());
        assert(line@ =~= strip_cr(part@));
        let ghost before = out@;
        out.push(line);
        assert(char_lists(out@) =~= char_lists(before).push(line@));
        assert(ended.take(i + 1) =~= ended.take(i as int).push(ended[i as int]));
        i += 1;
    }
    assert(ended.take(n - 1) =~= ended);
    let last = &parts[n - 1];
    assert(all.last() == last@);
    if last.len() > 0 {
        let ghost before = out@;
        let line = chars_of(string_of(last, 0, last.len()).as_str());
        assert(line@ =~= last@);
        out.push(line);
        assert(char_lists(out@) =~= char_lists(before).push(line@));
    }
    out
}

/// Whether `s` is decimal digits alone.
pub open spec fn all_digits(s: Seq<char>) -> bool {
    forall|i: int| 0 <= i < s.len() ==> is_digit_char(#[trigger] s[i])
}

/// The number that decimal digits write.
pub open spec fn digits_value(s: Seq<char>) -> nat
    decreases s.len(),
{
    if s.len() == 0 {
        0
    } else {
        digits_value(s.drop_last()) * 10 + (s.last() as u32 - 48) as nat
    }
}

/// The unsigned number up to `max` that `s` writes: decimal digits, at least
/// one, with or without a plus sign in front.
pub open spec fn unsigned(s: Seq<char>, max: nat) -> Option<nat> {
    let digits = if s.len() > 0 && s[0] == '+' {
        s.skip(1)
    } else {
        s
    };
    if digits.len() > 0 && all_digits(digits) && digits_value(digits) <= max {
        Some(digits_value(digits))
    } else {
        None
    }
}

proof fn lemma_digits_grow(s: Seq<char>, n: int)
    requires
        0 <= n <= s.len(),
        all_digits(s),
    ensures
        digits_value(s) >= digits_value(s.take(n)),
    decreases s.len() - n,
{
    if n < s.len() {
        assert(s.take(n + 1).drop_last() =~= s.take(n));
        assert(is_digit_char(s[n]));
        lemma_digits_grow(s, n + 1);
    } else {
        assert(s.take(n) =~= s);
    }
}

/// Reads an unsigned number up to `max`.
pub fn parse_unsigned(v: &Vec<char>, max: u64) -> (r: Option<u64>)
    ensures
        match r {
            Some(n) => unsigned(v@, max as nat) == Some(n as nat),
            None => unsigned(v@, max as nat) is None,
        },
{
    let start: usize = if v.len() > 0 && v[0] == '+' {
        1
    } else {
        0
    };
    let ghost digits = v@.skip(start as int);
    assert(start == 0 ==> digits =~= v@);
    if start == v.len() {
        return None;
    }
    let mut n: u64 = 0;
    let mut i: usize = start;
    while i < v.len()
        invariant
            start <= i <= v@.len(),
            digits == v@.skip(start as int),
            unsigned(v@, max as nat) == (if digits.len() > 0 && all_digits(digits) && digits_value(
                digits,
            ) <= max {
                Some(digits_value(digits))
            } else {
                None
            }),
            n == digits_value(digits.take(i - start)),
            n <= max,
            forall|k: int| 0 <= k < i - start ==> is_digit_char(#[trigger] digits[k]),
        decreases v@.len() - i,
    {
        assert(digits[i - start] == v@[i as int]);
        if !is_digit(v[i]) {
            return None;
        }
        let d: u64 = (v[i] as u32 - 48) as u64;
        assert(digits.take(i - start + 1).drop_last() =~= digits.take(i - start));
        assert(digits.take(i - start + 1).last() == v@[i as int]);
        assert(digits_value(digits.take(i - start + 1)) == n * 10 + d);
        if n > (u64::MAX - d) / 10 || n * 10 + d > max {
            proof {
                if all_digits(digits) {
                    lemma_digits_grow(digits, i - start + 1);
                }
                assert(n * 10 + d > max);
            }
            return None;
        }
        n = n * 10 + d;
        i += 1;
    }
    assert(digits.take(digits.len() as int) =~= digits);
    Some(n)
}

/// Writing a number in decimal and reading it back gives the number.
pub proof fn law_decimal_round_trip(n: nat, max: nat)
    requires
        n <= max,
    ensures
        unsigned(decimal(n), max) == Some(n),
{
    lemma_decimal_digits(n);
    assert(decimal(n)[0] != '+') by {
        assert(is_digit_char(decimal(n)[0]));
    }
}

pub proof fn lemma_decimal_digits(n: nat)
    ensures
        decimal(n).len() > 0,
        all_digits(decimal(n)),
        digits_value(decimal(n)) == n,
    decreases n,
{
    if n < 10 {
        assert(decimal(n).drop_last() =~= Seq::empty());
        assert(decimal(n).last() as u32 == 48 + n);
        assert(digits_value(Seq::<char>::empty()) == 0);
    } else {
        lemma_decimal_digits(n / 10);
        assert(decimal(n).drop_last() =~= decimal(n / 10));
        let d = n % 10;
        assert(decimal(n).last() as u32 == 48 + d);
        assert forall|i: int| 0 <= i < decimal(n).len() implies is_digit_char(
            #[trigger] decimal(n)[i],
        ) by {
            if i < decimal(n / 10).len() {
                assert(decimal(n)[i] == decimal(n / 10)[i]);
            }
        }
    }
}

/// Trimming takes off white space, all of it at both ends, and nothing else.
/// The result is where the rest begins and where it ends.
pub proof fn law_trimming_takes_white_space(s: Seq<char>) -> (r: (int, int))
    ensures
        0 <= r.0 <= r.1 <= s.len(),
        trimmed(s) == s.subrange(r.0, r.1),
        forall|i: int| 0 <= i < r.0 || r.1 <= i < s.len() ==> is_white(#[trigger] s[i]),
        r.0 < r.1 ==> !is_white(s[r.0]) && !is_white(s[r.1 - 1]),
{
    let front = trim_start(s);
    let from = s.len() - front.len();
    lemma_trim_start(s);
    lemma_trim_end(front);
    let to = from + trim_end(front).len();
    assert(trimmed(s) =~= s.subrange(from, to));
    assert forall|i: int| 0 <= i < from || to <= i < s.len() implies is_white(#[trigger] s[i]) by {
        if i >= from {
            assert(front[i - from] == s[i]);
        }
    }
    if from < to {
        assert(front[0] == s[from]);
        assert(trim_end(front).last() == s[to - 1]);
    }
    (from, to)
}

/// A text that white space neither begins nor ends is trimmed to itself, also
/// out of the white space around it.
pub proof fn law_trimming_finds_the_text(a: Seq<char>, text: Seq<char>, b: Seq<char>)
    requires
        forall|i: int| 0 <= i < a.len() ==> is_white(#[trigger] a[i]),
        forall|i: int| 0 <= i < b.len() ==> is_white(#[trigger] b[i]),
        text.len() > 0,
        !is_white(text[0]),
        !is_white(text.last()),
    ensures
        trimmed(a + text + b) == text,
{
    let s = a + text + b;
    let (from, to) = law_trimming_takes_white_space(s);
    let n = a.len() as int;
    let m = n + text.len();
    assert(s[n] == text[0]);
    assert(s[m - 1] == text.last());
    assert(from <= n && m <= to) by {
        if from > n {
            assert(is_white(s[n]));
        }
        if m > to {
            if to <= n {
                assert(is_white(s[n]));
            }
            assert(is_white(s[m - 1]));
        }
    }
    if from < n {
        assert(s[from] == a[from]);
    }
    if m < to {
        assert(s[to - 1] == b[to - 1 - m]);
    }
    assert(s.subrange(n, m) =~= text);
}

proof fn lemma_until_here(a: Seq<char>, c: char, rest: Seq<char>)
    requires
        !a.contains(c),
        rest.len() == 0 || rest[0] == c,
    ensures
        until(a + rest, c) == a.len(),
{
    let s = a + rest;
    lemma_until(s, c);
    let n = until(s, c) as int;
    if n < a.len() {
        assert(a[n] == c);
    }
    if n > a.len() {
        assert(s[a.len() as int] == rest[0]);
    }
}

/// Splitting at a character parts a text where it stands, and nowhere else.
pub proof fn law_splitting_parts_at_the_character(a: Seq<char>, c: char, b: Seq<char>)
    requires
        !a.contains(c),
    ensures
        split_on(a, c) == seq![a],
        split_on(a.push(c) + b, c) == seq![a] + split_on(b, c),
{
    lemma_until_here(a, c, Seq::empty());
    assert(a + Seq::<char>::empty() =~= a);
    let s = a.push(c) + b;
    lemma_until_here(a, c, seq![c] + b);
    assert(s =~= a + (seq![c] + b));
    assert(s.take(a.len() as int) =~= a);
    assert(s.skip(a.len() as int + 1) =~= b);
}

proof fn lemma_parts(s: Seq<char>, c: char)
    ensures
        split_on(s, c).len() > 0,
    decreases s.len(),
{
    lemma_until(s, c);
    let n = until(s, c) as int;
    if n < s.len() {
        lemma_parts(s.skip(n + 1), c);
    }
}

/// A line ends at a newline, with a carriage return in front of it or without,
/// and the rest of a text without one is a line unless it is empty.
pub proof fn law_lines_end_at_newlines(a: Seq<char>, b: Seq<char>)
    requires
        !a.contains('\n'),
    ensures
        lines(a) == (if a.len() > 0 {
            seq![a]
        } else {
            Seq::empty()
        }),
        lines(a.push('\n') + b) == seq![
            if a.len() > 0 && a.last() == '\r' {
                a.drop_last()
            } else {
                a
            },
        ] + lines(b),
{
    law_splitting_parts_at_the_character(a, '\n', b);
    let one = split_on(a, '\n');
    assert(one.drop_last().map_values(|p: Seq<char>| strip_cr(p)) =~= Seq::empty());
    assert(lines(a) =~= (if a.len() > 0 {
        seq![a]
    } else {
        Seq::empty()
    }));
    let rest = split_on(b, '\n');
    let all = split_on(a.push('\n') + b, '\n');
    lemma_parts(b, '\n');
    assert(all.last() == rest.last());
    assert(all.drop_last() =~= seq![a] + rest.drop_last());
    assert(all.drop_last().map_values(|p: Seq<char>| strip_cr(p)) =~= seq![strip_cr(a)]
        + rest.drop_last().map_values(|p: Seq<char>| strip_cr(p)));
    assert(lines(a.push('\n') + b) =~= seq![strip_cr(a)] + lines(b));
}

/// Texts that are joined by a character come apart again at it.
pub proof fn law_joined_texts_come_apart(parts: Seq<Seq<char>>, c: char)
    requires
        parts.len() > 0,
        forall|i: int| 0 <= i < parts.len() ==> !(#[trigger] parts[i]).contains(c),
    ensures
        split_on(join(parts, seq![c]), c) == parts,
    decreases parts.len(),
{
    if parts.len() == 1 {
        law_splitting_parts_at_the_character(parts[0], c, Seq::empty());
        assert(parts =~= seq![parts[0]]);
    } else {
        let less = parts.drop_last();
        assert forall|i: int| 0 <= i < less.len() implies !(#[trigger] less[i]).contains(c) by {
            assert(less[i] == parts[i]);
        }
        law_joined_texts_come_apart(less, c);
        assert(!parts[parts.len() - 1].contains(c));
        lemma_split_behind(join(less, seq![c]), c, parts.last());
        assert(join(parts, seq![c]) =~= join(less, seq![c]) + seq![c] + parts.last());
        assert(parts =~= less.push(parts.last()));
    }
}

proof fn lemma_split_behind(s: Seq<char>, c: char, last: Seq<char>)
    requires
        !last.contains(c),
    ensures
        split_on(s + seq![c] + last, c) == split_on(s, c).push(last),
    decreases s.len(),
{
    lemma_until(s, c);
    let n = until(s, c) as int;
    let t = s + seq![c] + last;
    let a = s.take(n);
    assert(!a.contains(c)) by {
        if a.contains(c) {
            let i = choose|i: int| 0 <= i < a.len() && a[i] == c;
            assert(s[i] == c);
        }
    }
    law_splitting_parts_at_the_character(last, c, Seq::empty());
    if n >= s.len() {
        assert(a =~= s);
        law_splitting_parts_at_the_character(s, c, last);
        assert(t =~= s.push(c) + last);
        assert(split_on(t, c) =~= split_on(s, c).push(last));
    } else {
        let b = s.skip(n + 1);
        lemma_split_behind(b, c, last);
        law_splitting_parts_at_the_character(a, c, b);
        law_splitting_parts_at_the_character(a, c, b + seq![c] + last);
        assert(s =~= a.push(c) + b);
        assert(t =~= a.push(c) + (b + seq![c] + last));
        assert(split_on(t, c) =~= split_on(s, c).push(last));
    }
}

} // verus!
