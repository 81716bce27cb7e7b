//! Kokoro-82M voice banks and chunking.
//!
//! Style row selection matches the reference Kokoro ONNX implementations:
//! `style = voices[voice][min(n_tokens, 510)]` — the bank is indexed by
//! phoneme-token count. Hard cap: clauses over 510 tokens (512 context − 2
//! BOS/EOS pads) are split at the last whitespace/punctuation before the cap.

use vstd::prelude::*;

use crate::bytes::{
    begins_with, bytes_at, capacity, copy_range, decode_strict, law_bytes_round_trip, le, le_at,
    to_le, u16_le, u32_le, u64_le,
};
use crate::error::TtsError;
use crate::llm::splitter::{lemma_whole_add, whole};
use crate::text::{
    chars_of, contains_chars, decimal_string, find_char, find_from, is_whitespace, join,
    join_strings, lemma_letters_add, lemma_letters_white, letters, parse_unsigned, split_at_char,
    split_on, str_eq, string_of, strs, trim_bounds, unsigned,
};
use crate::tts::phonemes::{known_ids, lookup, token_id};

verus! {

/// Style bank width (Kokoro `style_dim`).
pub const STYLE_DIM: usize = 256;

/// Maximum phoneme tokens per inference (512 context − 2 BOS/EOS pads).
pub const MAX_PHONEME_TOKENS: usize = 510;

// ---------------------------------------------------------------------------
// npy
// ---------------------------------------------------------------------------

/// `[a, b, c]`.
pub open spec fn list_text(dims: Seq<nat>) -> Seq<char> {
    "["@ + join(dims.map_values(|d: nat| crate::text::decimal(d)), ", "@) + "]"@
}

/// The numbers of a list.
pub open spec fn nats(v: Seq<usize>) -> Seq<nat> {
    v.map_values(|d: usize| d as nat)
}

fn show_list(dims: &Vec<usize>) -> (r: String)
    ensures
        r@ == list_text(nats(dims@)),
{
    let ghost all = nats(dims@).map_values(|d: nat| crate::text::decimal(d));
    let mut parts: Vec<String> = Vec::new();
    let mut i: usize = 0;
    while i < dims.len()
        invariant
            i <= dims@.len() == all.len(),
            all == nats(dims@).map_values(|d: nat| crate::text::decimal(d)),
            strs(parts@) =~= all.take(i as int),
        decreases dims@.len() - i,
    {
        let ghost before = parts@;
        let s = decimal_string(dims[i] as u64);
        assert(s@ == all[i as int]);
        parts.push(s);
        assert(strs(parts@) =~= strs(before).push(s@));
        i += 1;
    }
    assert(all.take(all.len() as int) =~= all);
    "[".to_owned().concat(join_strings(&parts, ", ").as_str()).concat("]")
}

/// The numbers that the parts of a shape tuple write, blank parts skipped, or
/// the part that writes none.
pub open spec fn dims_of(parts: Seq<Seq<char>>) -> Result<Seq<nat>, Seq<char>>
    decreases parts.len(),
{
    if parts.len() == 0 {
        Ok(Seq::empty())
    } else {
        match dims_of(parts.drop_last()) {
            Err(e) => Err(e),
            Ok(dims) => {
                let part = crate::text::trimmed(parts.last());
                if part.len() == 0 {
                    Ok(dims)
                } else {
                    match unsigned(part, usize::MAX as nat) {
                        Some(d) => Ok(dims.push(d)),
                        None => Err("bad npy shape dim '"@ + part + "'"@),
                    }
                }
            },
        }
    }
}

/// The shape that stands between the first parentheses of `s`.
pub open spec fn shape_of(s: Seq<char>) -> Result<Seq<nat>, Seq<char>> {
    let open = crate::text::until(s, '(');
    if open >= s.len() {
        Err("malformed npy shape"@)
    } else {
        let rest = s.skip(open as int);
        let close = crate::text::until(rest, ')');
        if close >= rest.len() {
            Err("malformed npy shape"@)
        } else {
            dims_of(split_on(rest.subrange(1, close as int), ','))
        }
    }
}

/// Whether `r` is the result `want`, its error a missing-voices error.
pub open spec fn is_shape(r: Result<Vec<usize>, TtsError>, want: Result<Seq<nat>, Seq<char>>) -> bool {
    match want {
        Ok(dims) => r matches Ok(v) && nats(v@) == dims,
        Err(e) => r matches Err(TtsError::MissingVoices(m)) && m@ == e,
    }
}

/// Once a part writes no number, the parts behind it make no difference.
proof fn lemma_dims_error(parts: Seq<Seq<char>>, n: int)
    requires
        0 <= n <= parts.len(),
        dims_of(parts.take(n)) is Err,
    ensures
        dims_of(parts) == dims_of(parts.take(n)),
    decreases parts.len(),
{
    if n == parts.len() {
        assert(parts.take(n) =~= parts);
    } else {
        assert(parts.drop_last().take(n) =~= parts.take(n));
        lemma_dims_error(parts.drop_last(), n);
    }
}

/// Parses the ints of an npy shape tuple, starting at `'shape': ...`.
pub fn parse_npy_shape(header: &Vec<char>) -> (r: Result<Vec<usize>, TtsError>)
    ensures
        is_shape(r, shape_of(header@)),
{
    assert(header@.skip(0) =~= header@);
    let open = find_char(header, '(', 0);
    if open >= header.len() {
        return Err(TtsError::MissingVoices("malformed npy shape".to_owned()));
    }
    let close = find_char(header, ')', open);
    if close >= header.len() {
        return Err(TtsError::MissingVoices("malformed npy shape".to_owned()));
    }
    assert(header@[open as int] == '(');
    assert(open < close);
    let inner = chars_of(string_of(header, open + 1, close).as_str());
    assert(inner@ =~= header@.skip(open as int).subrange(1, close - open));
    let parts = split_at_char(&inner, ',');
    let ghost all = parts@.map_values(|w: Vec<char>| w@);
    assert(shape_of(header@) == dims_of(all));
    let mut dims: Vec<usize> = Vec::new();
    assert(nats(dims@) =~= Seq::empty());
    let mut i: usize = 0;
    while i < parts.len()
        invariant
            i <= parts@.len(),
            all == parts@.map_values(|w: Vec<char>| w@),
            shape_of(header@) == dims_of(all),
            dims_of(all.take(i as int)) == Ok::<Seq<nat>, Seq<char>>(nats(dims@)),
        decreases parts@.len() - i,
    {
        let ghost before = dims@;
        assert(all.take(i + 1).drop_last() =~= all.take(i as int));
        assert(all.take(i + 1).last() == parts@[i as int]@);
        let (a, b) = trim_bounds(&parts[i]);
        if a < b {
            let part = string_of(&parts[i], a, b);
            match parse_unsigned(&chars_of(part.as_str()), usize::MAX as u64) {
                Some(d) => {
                    dims.push(d as usize);
                    assert(nats(dims@) =~= nats(before).push(d as nat));
                },
                None => {
                    proof {
                        lemma_dims_error(all, i + 1);
                    }
                    return Err(
                        TtsError::MissingVoices(
                            "bad npy shape dim '".to_owned().concat(part.as_str()).concat("'"),
                        ),
                    );
                },
            }
        }
        i += 1;
    }
    assert(all.take(all.len() as int) =~= all);
    Ok(dims)
}

/// The six bytes that every npy file begins with.
pub open spec fn npy_magic() -> Seq<u8> {
    seq![0x93u8, 0x4e, 0x55, 0x4d, 0x50, 0x59]
}

/// Where the header of an npy file begins and how long it is.
pub open spec fn npy_header(buf: Seq<u8>) -> Result<(nat, nat), Seq<char>> {
    if !begins_with(buf, npy_magic()) {
        Err("bad npy magic"@)
    } else if buf.len() <= 6 {
        Err("truncated npy magic"@)
    } else if buf[6] == 1 {
        match le_at(buf, 8, 2) {
            Some(n) => Ok((10, n)),
            None => Err("truncated npy v1 header"@),
        }
    } else if buf[6] == 2 || buf[6] == 3 {
        match le_at(buf, 8, 4) {
            Some(n) => Ok((12, n)),
            None => Err("truncated npy v2/v3 header"@),
        }
    } else {
        Err("unsupported npy version "@ + crate::text::decimal(buf[6] as nat))
    }
}

/// The style rows of a bank of this shape: `[256]`, `[rows, 256]`, or
/// `[rows, 1, 256]`.
pub open spec fn rows_of(dims: Seq<nat>) -> Option<nat> {
    if dims.len() == 1 && dims[0] == STYLE_DIM {
        Some(1)
    } else if dims.len() == 2 && dims[1] == STYLE_DIM {
        Some(dims[0])
    } else if dims.len() == 3 && dims[1] == 1 && dims[2] == STYLE_DIM {
        Some(dims[0])
    } else {
        None
    }
}

/// The rows that the header of an npy file declares.
pub open spec fn header_rows(header: Seq<char>) -> Result<nat, Seq<char>> {
    if !crate::text::contains(header, "'descr': '<f4'"@) {
        Err("expected npy descr '<f4', got: "@ + crate::text::trimmed(header))
    } else if crate::text::contains(header, "'fortran_order': True"@) {
        Err("fortran-order npy arrays are unsupported"@)
    } else if !crate::text::contains(header, "'shape':"@) {
        Err("npy header has no shape"@)
    } else {
        let at = first_match(header, "'shape':"@);
        match shape_of(header.skip(at)) {
            Err(e) => Err(e),
            Ok(dims) => match rows_of(dims) {
                None => Err("unexpected voice bank shape "@ + list_text(dims)),
                Some(rows) => if rows == 0 {
                    Err("voice bank has 0 style rows"@)
                } else if rows * STYLE_DIM * 4 > usize::MAX {
                    Err("voice bank shape "@ + list_text(dims) + " overflows usize"@)
                } else {
                    Ok(rows)
                },
            },
        }
    }
}

/// The first place where `needle` stands in `hay`.
pub open spec fn first_match(hay: Seq<char>, needle: Seq<char>) -> int {
    choose|at: int|
        #[trigger] crate::text::matches_at(hay, needle, at) && forall|k: int|
            0 <= k < at ==> !crate::text::matches_at(hay, needle, k)
}

/// The floats in `data`, four bytes each, as bits.
pub open spec fn float_bits(data: Seq<u8>, n: nat) -> Seq<u32> {
    Seq::new(n, |i: int| le(data.subrange(4 * i, 4 * i + 4)) as u32)
}

/// The bank in an npy file: its rows, and its floats as bits.
pub open spec fn npy_bank(buf: Seq<u8>) -> Result<(nat, Seq<u32>), Seq<char>> {
    match npy_header(buf) {
        Err(e) => Err(e),
        Ok((start, len)) => if start + len > buf.len() || !vstd::utf8::valid_utf8(
            buf.subrange(start as int, (start + len) as int),
        ) {
            Err("truncated npy header"@)
        } else {
            let header = vstd::utf8::decode_utf8(buf.subrange(start as int, (start + len) as int));
            match header_rows(header) {
                Err(e) => Err(e),
                Ok(rows) => {
                    let data = buf.skip((start + len) as int);
                    let need = rows * STYLE_DIM as nat * 4;
                    if data.len() < need {
                        Err(
                            "npy data truncated: need "@ + crate::text::decimal(need)
                                + " bytes, have "@ + crate::text::decimal(data.len()),
                        )
                    } else {
                        Ok((rows, float_bits(data, rows * STYLE_DIM as nat)))
                    }
                },
            }
        },
    }
}

/// A decoded per-voice style bank: `rows` rows of [`STYLE_DIM`] floats, as
/// bits.
#[derive(Debug)]
pub struct VoiceBank {
    /// The floats, row by row.
    pub data: Vec<u32>,
    /// How many rows there are.
    pub rows: usize,
}

/// Whether `r` is the result `want`, its error a missing-voices error.
pub open spec fn is_bank(
    r: Result<VoiceBank, TtsError>,
    want: Result<(nat, Seq<u32>), Seq<char>>,
) -> bool {
    match want {
        Ok((rows, data)) => r matches Ok(b) && b.rows == rows && b.data@ == data,
        Err(e) => r matches Err(TtsError::MissingVoices(m)) && m@ == e,
    }
}

fn missing(message: &str) -> (r: TtsError)
    ensures
        r matches TtsError::MissingVoices(m) && m@ == message@,
{
    TtsError::MissingVoices(message.to_owned())
}

proof fn lemma_first_match(hay: Seq<char>, needle: Seq<char>, at: int)
    requires
        crate::text::matches_at(hay, needle, at),
        forall|k: int| 0 <= k < at ==> !crate::text::matches_at(hay, needle, k),
    ensures
        first_match(hay, needle) == at,
{
    let got = first_match(hay, needle);
    assert(crate::text::matches_at(hay, needle, got));
    if got < at {
        assert(!crate::text::matches_at(hay, needle, got));
    } else if at < got {
        assert(!crate::text::matches_at(hay, needle, at));
    }
}

fn read_rows(header: &Vec<char>) -> (r: Result<usize, TtsError>)
    ensures
        match header_rows(header@) {
            Ok(rows) => r matches Ok(n) && n == rows,
            Err(e) => r matches Err(TtsError::MissingVoices(m)) && m@ == e,
        },
{
    if !contains_chars(header, &chars_of("'descr': '<f4'")) {
        let (a, b) = trim_bounds(header);
        return Err(
            TtsError::MissingVoices(
                "expected npy descr '<f4', got: ".to_owned().concat(
                    string_of(header, a, b).as_str(),
                ),
            ),
        );
    }
    if contains_chars(header, &chars_of("'fortran_order': True")) {
        return Err(missing("fortran-order npy arrays are unsupported"));
    }
    let key = chars_of("'shape':");
    let at = match find_from(header, &key, 0) {
        Some(at) => at,
        None => {
            assert forall|k: int| !crate::text::matches_at(header@, key@, k) by {
                if k < 0 {
                }
            }
            return Err(missing("npy header has no shape"));
        },
    };
    proof {
        assert(crate::text::matches_at(header@, key@, at as int));
        lemma_first_match(header@, key@, at as int);
    }
    let tail = chars_of(string_of(header, at, header.len()).as_str());
    assert(tail@ =~= header@.skip(at as int));
    let dims = match parse_npy_shape(&tail) {
        Ok(dims) => dims,
        Err(e) => return Err(e),
    };
    assert(nats(dims@).len() == dims@.len());
    let rows: usize = if dims.len() == 1 && dims[0] == STYLE_DIM {
        1
    } else if dims.len() == 2 && dims[1] == STYLE_DIM {
        dims[0]
    } else if dims.len() == 3 && dims[1] == 1 && dims[2] == STYLE_DIM {
        dims[0]
    } else {
        return Err(
            TtsError::MissingVoices(
                "unexpected voice bank shape ".to_owned().concat(show_list(&dims).as_str()),
            ),
        );
    };
    if rows == 0 {
        return Err(missing("voice bank has 0 style rows"));
    }
    if rows > usize::MAX / 1024 {
        assert(rows * STYLE_DIM * 4 > usize::MAX);
        return Err(
            TtsError::MissingVoices(
                "voice bank shape ".to_owned().concat(show_list(&dims).as_str()).concat(
                    " overflows usize",
                ),
            ),
        );
    }
    assert(rows * STYLE_DIM * 4 <= usize::MAX);
    Ok(rows)
}

fn locate_header(buf: &[u8]) -> (r: Result<(usize, usize), TtsError>)
    ensures
        match npy_header(buf@) {
            Ok((start, len)) => r matches Ok(at) && at.0 == start && at.1 == len,
            Err(e) => r matches Err(TtsError::MissingVoices(m)) && m@ == e,
        },
{
    let magic: Vec<u8> = vec![0x93, 0x4e, 0x55, 0x4d, 0x50, 0x59];
    assert(magic@ =~= npy_magic());
    assert(buf@.len() >= 6 ==> buf@.subrange(0, 6) =~= buf@.take(6));
    if !bytes_at(buf, 0, &magic) {
        return Err(missing("bad npy magic"));
    }
    if buf.len() <= 6 {
        return Err(missing("truncated npy magic"));
    }
    let major: u8 = buf[6];
    if major == 1 {
        match u16_le(buf, 8) {
            Some(n) => Ok((10, n as usize)),
            None => Err(missing("truncated npy v1 header")),
        }
    } else if major == 2 || major == 3 {
        match u32_le(buf, 8) {
            Some(n) => Ok((12, n as usize)),
            None => Err(missing("truncated npy v2/v3 header")),
        }
    } else {
        Err(
            TtsError::MissingVoices(
                "unsupported npy version ".to_owned().concat(
                    decimal_string(major as u64).as_str(),
                ),
            ),
        )
    }
}

fn read_floats(buf: &[u8], from: usize, total: usize) -> (r: Vec<u32>)
    requires
        from <= buf@.len(),
        4 * total <= buf@.len() - from,
    ensures
        r@ == float_bits(buf@.skip(from as int), total as nat),
{
    let ghost data = buf@.skip(from as int);
    let len: usize = buf.len();
    let mut floats: Vec<u32> = Vec::new();
    let mut i: usize = 0;
    while i < total
        invariant
            i <= total,
            4 * total <= len - from,
            from <= buf@.len() == len,
            data == buf@.skip(from as int),
            floats@.len() == i,
            forall|k: int|
                0 <= k < i ==> #[trigger] floats@[k] == le(data.subrange(4 * k, 4 * k + 4)) as u32,
        decreases total - i,
    {
        let at: usize = from + 4 * i;
        let bits = u32_le(buf, at).unwrap();
        assert(data.subrange(4 * i, 4 * i + 4) =~= buf@.subrange(at as int, at + 4));
        floats.push(bits);
        i += 1;
    }
    assert(floats@ =~= float_bits(data, total as nat));
    floats
}

/// Parses a `.npy` v1/v2/v3 file holding little-endian f32 data, returning
/// the flattened samples plus the row count of a `[rows, 256]`,
/// `[rows, 1, 256]`, or bare `[256]` bank. Malformed or truncated input
/// (short header reads, absurd shapes, overflowing sizes) is always a clean
/// [`TtsError::MissingVoices`] — never a panic.
pub fn parse_npy_f32(buf: &[u8]) -> (r: Result<VoiceBank, TtsError>)
    ensures
        is_bank(r, npy_bank(buf@)),
{
    let (start, len) = match locate_header(buf) {
        Ok(at) => at,
        Err(e) => return Err(e),
    };
    if start > buf.len() || buf.len() - start < len {
        return Err(missing("truncated npy header"));
    }
    let end: usize = start + len;
    let header = match decode_strict(copy_range(buf, start, end).as_slice()).ok() {
        Some(h) => chars_of(h.as_str()),
        None => return Err(missing("truncated npy header")),
    };
    let rows = match read_rows(&header) {
        Ok(rows) => rows,
        Err(e) => return Err(e),
    };
    let have: usize = buf.len() - end;
    let total: usize = rows * STYLE_DIM;
    let need: usize = total * 4;
    if have < need {
        return Err(
            TtsError::MissingVoices(
                "npy data truncated: need ".to_owned().concat(
                    decimal_string(need as u64).as_str(),
                ).concat(" bytes, have ").concat(decimal_string(have as u64).as_str()),
            ),
        );
    }
    Ok(VoiceBank { data: read_floats(buf, end, total), rows })
}

/// A parsed bank has at least one row, and exactly the floats of its rows.
pub proof fn law_banks_are_whole(buf: Seq<u8>)
    ensures
        npy_bank(buf) matches Ok((rows, data)) ==> rows > 0 && data.len() == rows * STYLE_DIM
            && buf.len() >= 4 * data.len(),
{
}

/// A bank cut short anywhere is refused: no proper prefix of the bytes that a
/// bank needs reads as a bank.
pub proof fn law_truncated_banks_are_refused(buf: Seq<u8>, cut: int)
    requires
        npy_bank(buf) is Ok,
        0 <= cut < npy_header(buf)->Ok_0.0 + npy_header(buf)->Ok_0.1 + 4 * npy_bank(buf)->Ok_0.1.len(),
        cut <= buf.len(),
    ensures
        npy_bank(buf.take(cut)) is Err,
{
    let short = buf.take(cut);
    let (start, len) = npy_header(buf)->Ok_0;
    if begins_with(short, npy_magic()) && cut > 6 {
        assert(short[6] == buf[6]);
        if cut >= start {
            let n = (start - 8) as int;
            assert(short.subrange(8, 8 + n) =~= buf.subrange(8, 8 + n));
            assert(npy_header(short) == npy_header(buf));
            if cut >= start + len {
                assert(short.subrange(start as int, (start + len) as int) =~= buf.subrange(
                    start as int,
                    (start + len) as int,
                ));
            }
        } else {
            assert(npy_header(short) is Err);
        }
    }
}

// ---------------------------------------------------------------------------
// npz
// ---------------------------------------------------------------------------

/// The signature of a local file header, `PK\x03\x04`.
pub const LOCAL_HEADER_SIG: u32 = 0x0403_4B50;

/// The tag of the ZIP64 extra field.
pub const ZIP64_EXTRA_TAG: u16 = 0x0001;

/// The integer in the `n` bytes at `at`.
pub open spec fn field(s: Seq<u8>, at: int, n: int) -> nat {
    le(s.subrange(at, at + n))
}

/// The compressed size of a member, as its ZIP64 extra fields from `e` on give
/// it: a u64 uncompressed size, then a u64 compressed size, each present only
/// when its 32-bit field is `0xFFFFFFFF`.
pub open spec fn zip64_size(extra: Seq<u8>, e: nat, wide_usize: bool, wide_csize: bool, csize: nat) -> nat
    decreases extra.len() - e,
{
    if e + 4 > extra.len() {
        csize
    } else {
        let tag = field(extra, e + 0int, 2);
        let end = e + 4 + field(extra, e + 2int, 2);
        if end > extra.len() {
            csize
        } else {
            let body = extra.subrange(e + 4int, end as int);
            let off: int = if wide_usize && body.len() >= 8 {
                8
            } else {
                0
            };
            let next = if tag == ZIP64_EXTRA_TAG && wide_csize && body.len() >= off + 8 {
                le(body.subrange(off, off + 8))
            } else {
                csize
            };
            zip64_size(extra, end, wide_usize, wide_csize, next)
        }
    }
}

/// A member of an archive: its name's bytes, its compression method, and where
/// its data stands.
pub struct MemberView {
    /// The bytes of its name.
    pub name: Seq<u8>,
    /// Its compression method.
    pub method: nat,
    /// Where its data begins.
    pub start: nat,
    /// Where its data ends.
    pub end: nat,
}

/// The member whose local header stands at `pos`.
pub open spec fn member_at(zip: Seq<u8>, pos: nat) -> Option<MemberView> {
    if pos + 30 > zip.len() || field(zip, pos + 0int, 4) != LOCAL_HEADER_SIG {
        None
    } else {
        let csize32 = field(zip, pos + 18int, 4);
        let usize32 = field(zip, pos + 22int, 4);
        let extra_start = pos + 30 + field(zip, pos + 26int, 2);
        let start = extra_start + field(zip, pos + 28int, 2);
        if start > zip.len() {
            None
        } else {
            let extra = zip.subrange(extra_start as int, start as int);
            let csize = if csize32 == u32::MAX || usize32 == u32::MAX {
                zip64_size(extra, 0, usize32 == u32::MAX, csize32 == u32::MAX, csize32)
            } else {
                csize32
            };
            if start + csize > zip.len() {
                None
            } else {
                Some(
                    MemberView {
                        name: zip.subrange(pos + 30int, extra_start as int),
                        method: field(zip, pos + 8int, 2),
                        start,
                        end: start + csize,
                    },
                )
            }
        }
    }
}

/// The members of an archive from `pos` on whose names are valid UTF-8, up to
/// the first place without a local header.
pub open spec fn members_from(zip: Seq<u8>, pos: nat) -> Seq<MemberView>
    decreases zip.len() - pos,
{
    match member_at(zip, pos) {
        None => Seq::empty(),
        Some(m) => (if vstd::utf8::valid_utf8(m.name) {
            seq![m]
        } else {
            Seq::empty()
        }) + (if m.end > pos {
            members_from(zip, m.end)
        } else {
            Seq::empty()
        }),
    }
}

/// A member of an archive.
#[derive(Debug)]
pub struct ZipEntry {
    /// Its name.
    pub name: String,
    /// Its compression method (0 is stored).
    pub method: u16,
    /// Where its data begins.
    pub start: usize,
    /// Where its data ends.
    pub end: usize,
}

/// Whether an entry is that member.
pub open spec fn is_member(e: ZipEntry, m: MemberView) -> bool {
    &&& e.name@ == vstd::utf8::decode_utf8(m.name)
    &&& e.method == m.method
    &&& e.start == m.start
    &&& e.end == m.end
}

/// Whether the entries are those members, one by one.
pub open spec fn are_members(v: Seq<ZipEntry>, ms: Seq<MemberView>) -> bool {
    v.len() == ms.len() && forall|i: int| 0 <= i < v.len() ==> is_member(#[trigger] v[i], ms[i])
}

fn read_zip64(extra: &[u8], wide_usize: bool, wide_csize: bool, csize32: u32) -> (r: u64)
    ensures
        r == zip64_size(extra@, 0, wide_usize, wide_csize, csize32 as nat),
{
    let n: usize = extra.len();
    let mut csize: u64 = csize32 as u64;
    let mut e: usize = 0;
    while n >= 4 && e <= n - 4
        invariant
            e <= n == extra@.len(),
            zip64_size(extra@, e as nat, wide_usize, wide_csize, csize as nat) == zip64_size(
                extra@,
                0,
                wide_usize,
                wide_csize,
                csize32 as nat,
            ),
        decreases n - e,
    {
        let tag = u16_le(extra, e).unwrap();
        let size = u16_le(extra, e + 2).unwrap();
        let from: usize = e + 4;
        if n - from < size as usize {
            return csize;
        }
        let to: usize = from + size as usize;
        let ghost body = extra@.subrange(from as int, to as int);
        let mut off: usize = 0;
        if wide_usize && to - from >= 8 {
            off = 8;
        }
        if tag == ZIP64_EXTRA_TAG && wide_csize && to - from >= off + 8 {
            csize = u64_le(extra, from + off).unwrap();
            assert(body.subrange(off as int, off + 8) =~= extra@.subrange(
                from + off,
                from + off + 8,
            ));
        }
        e = to;
    }
    csize
}

/// The member whose local header stands at `pos`, and its name where that is
/// valid UTF-8.
fn read_member(zip: &[u8], pos: usize) -> (r: Option<(Option<String>, u16, usize, usize)>)
    ensures
        match member_at(zip@, pos as nat) {
            None => r is None,
            Some(m) => {
                &&& r matches Some((name, method, start, end))
                &&& method == m.method && start == m.start && end == m.end && pos < end
                    <= zip@.len()
                &&& match name {
                    Some(s) => vstd::utf8::valid_utf8(m.name) && s@ == vstd::utf8::decode_utf8(
                        m.name,
                    ),
                    None => !vstd::utf8::valid_utf8(m.name),
                }
            },
        },
{
    let n: usize = zip.len();
    if n < 30 || pos > n - 30 {
        return None;
    }
    if u32_le(zip, pos).unwrap() != LOCAL_HEADER_SIG {
        return None;
    }
    let method = u16_le(zip, pos + 8).unwrap();
    let csize32 = u32_le(zip, pos + 18).unwrap();
    let usize32 = u32_le(zip, pos + 22).unwrap();
    let name_len = u16_le(zip, pos + 26).unwrap() as usize;
    let extra_len = u16_le(zip, pos + 28).unwrap() as usize;
    let name_start: usize = pos + 30;
    if n - name_start < name_len {
        return None;
    }
    let extra_start: usize = name_start + name_len;
    if n - extra_start < extra_len {
        return None;
    }
    let start: usize = extra_start + extra_len;
    let csize: u64 = if csize32 == u32::MAX || usize32 == u32::MAX {
        let extra = copy_range(zip, extra_start, start);
        read_zip64(extra.as_slice(), usize32 == u32::MAX, csize32 == u32::MAX, csize32)
    } else {
        csize32 as u64
    };
    if csize > (n - start) as u64 {
        return None;
    }
    let end: usize = start + csize as usize;
    let name = decode_strict(copy_range(zip, name_start, extra_start).as_slice()).ok();
    Some((name, method, start, end))
}

/// Walks a ZIP archive's local file headers, returning name, compression
/// method and data range per member. Only local headers are parsed —
/// sufficient for npz bundles, whose members are stored sequentially ahead
/// of the central directory. ZIP64 size extra fields are honored; members with
/// data descriptors are not expected in npz files.
pub fn walk_stored_zip_entries(zip: &[u8]) -> (r: Vec<ZipEntry>)
    ensures
        are_members(r@, members_from(zip@, 0)),
        forall|i: int| 0 <= i < r@.len() ==> (#[trigger] r@[i]).start <= r@[i].end <= zip@.len(),
{
    let mut entries: Vec<ZipEntry> = Vec::new();
    let ghost all = members_from(zip@, 0);
    let mut pos: usize = 0;
    let ghost mut taken = Seq::<MemberView>::empty();
    assert(taken + members_from(zip@, 0) =~= all);
    loop
        invariant
            pos <= zip@.len(),
            taken + members_from(zip@, pos as nat) == all,
            all == members_from(zip@, 0),
            are_members(entries@, taken),
            forall|i: int|
                0 <= i < entries@.len() ==> (#[trigger] entries@[i]).start <= entries@[i].end
                    <= zip@.len(),
        decreases zip@.len() - pos,
    {
        match read_member(zip, pos) {
            None => {
                assert(members_from(zip@, pos as nat) =~= Seq::empty());
                assert(taken =~= all);
                return entries;
            },
            Some((name, method, start, end)) => {
                let ghost m = member_at(zip@, pos as nat)->0;
                let ghost rest = members_from(zip@, end as nat);
                match name {
                    Some(name) => {
                        let ghost before = taken;
                        proof {
                            taken = taken.push(m);
                            assert(before + (seq![m] + rest) =~= taken + rest);
                        }
                        entries.push(ZipEntry { name, method, start, end });
                    },
                    None => {
                        assert(taken + (Seq::<MemberView>::empty() + rest) =~= taken + rest);
                    },
                }
                pos = end;
            },
        }
    }
}

// ---------------------------------------------------------------------------
// Loading
// ---------------------------------------------------------------------------

/// The first member of that name.
pub open spec fn member_named(ms: Seq<MemberView>, name: Seq<char>) -> Option<MemberView>
    decreases ms.len(),
{
    if ms.len() == 0 {
        None
    } else if vstd::utf8::decode_utf8(ms[0].name) == name {
        Some(ms[0])
    } else {
        member_named(ms.subrange(1, ms.len() as int), name)
    }
}

/// The names of the members.
pub open spec fn member_names(ms: Seq<MemberView>) -> Seq<Seq<char>> {
    ms.map_values(|m: MemberView| vstd::utf8::decode_utf8(m.name))
}

/// A bank whose error names the file.
pub open spec fn in_file(
    path: Seq<char>,
    bank: Result<(nat, Seq<u32>), Seq<char>>,
) -> Result<(nat, Seq<u32>), Seq<char>> {
    match bank {
        Ok(b) => Ok(b),
        Err(e) => Err(path + ": "@ + e),
    }
}

/// The bank of `voice` in the file `bytes`: the stored member `voice.npy` of
/// an npz bundle, or a plain npy file.
pub open spec fn voice_bank(path: Seq<char>, bytes: Seq<u8>, voice: Seq<char>) -> Result<
    (nat, Seq<u32>),
    Seq<char>,
> {
    if le_at(bytes, 0, 4) == Some(LOCAL_HEADER_SIG as nat) {
        let ms = members_from(bytes, 0);
        match member_named(ms, voice + ".npy"@) {
            None => Err(
                "voice '"@ + voice + "' not in "@ + path + "; available: "@ + join(
                    member_names(ms),
                    ", "@,
                ),
            ),
            Some(m) => if m.method != 0 {
                Err(
                    voice + ".npy"@ + " in "@ + path
                        + " is deflate-compressed; only stored (uncompressed) npz members are supported"@,
                )
            } else {
                in_file(path, npy_bank(bytes.subrange(m.start as int, m.end as int)))
            },
        }
    } else if begins_with(bytes, npy_magic()) {
        in_file(path, npy_bank(bytes))
    } else {
        Err(path + " is neither an npz bundle (zip) nor an npy file"@)
    }
}

fn find_entry(entries: &Vec<ZipEntry>, name: &str, Ghost(ms): Ghost<Seq<MemberView>>) -> (r: Option<
    usize,
>)
    requires
        are_members(entries@, ms),
    ensures
        match r {
            Some(i) => i < entries@.len() && member_named(ms, name@) == Some(ms[i as int]),
            None => member_named(ms, name@) is None,
        },
{
    let n: usize = entries.len();
    let mut i: usize = 0;
    assert(ms.subrange(0, n as int) =~= ms);
    while i < n
        invariant
            i <= n == entries@.len() == ms.len(),
            are_members(entries@, ms),
            member_named(ms, name@) == member_named(ms.subrange(i as int, n as int), name@),
        decreases n - i,
    {
        let ghost rest = ms.subrange(i as int, n as int);
        assert(rest[0] == ms[i as int]);
        assert(rest.subrange(1, rest.len() as int) =~= ms.subrange(i + 1, n as int));
        assert(is_member(entries@[i as int], ms[i as int]));
        if str_eq(entries[i].name.as_str(), name) {
            return Some(i);
        }
        i += 1;
    }
    None
}

fn with_path(path: &str, r: Result<VoiceBank, TtsError>) -> (out: Result<VoiceBank, TtsError>)
    ensures
        forall|want: Result<(nat, Seq<u32>), Seq<char>>|
            is_bank(r, want) ==> #[trigger] is_bank(out, in_file(path@, want)),
{
    match r {
        Err(TtsError::MissingVoices(m)) => Err(
            TtsError::MissingVoices(path.to_owned().concat(": ").concat(m.as_str())),
        ),
        other => other,
    }
}

/// Loads one voice's style bank from the bytes of an npz bundle
/// (stored/uncompressed zip, the `voices.bin` format) or of a plain npy file;
/// `path` names the file in errors.
pub fn load_voice_bank(path: &str, bytes: &[u8], voice: &str) -> (r: Result<VoiceBank, TtsError>)
    ensures
        is_bank(r, voice_bank(path@, bytes@, voice@)),
{
    let sig = match u32_le(bytes, 0) {
        Some(sig) => sig == LOCAL_HEADER_SIG,
        None => false,
    };
    if sig {
        let entries = walk_stored_zip_entries(bytes);
        let ghost ms = members_from(bytes@, 0);
        let wanted = voice.to_owned().concat(".npy");
        match find_entry(&entries, wanted.as_str(), Ghost(ms)) {
            None => {
                let mut names: Vec<String> = Vec::new();
                let ghost all = member_names(ms);
                let mut i: usize = 0;
                while i < entries.len()
                    invariant
                        i <= entries@.len(),
                        are_members(entries@, ms),
                        all == member_names(ms),
                        strs(names@) =~= all.take(i as int),
                    decreases entries@.len() - i,
                {
                    let ghost before = names@;
                    let name = entries[i].name.clone();
                    assert(is_member(entries@[i as int], ms[i as int]));
                    assert(name@ == all[i as int]);
                    names.push(name);
                    assert(strs(names@) =~= strs(before).push(name@));
                    i += 1;
                }
                assert(all.take(all.len() as int) =~= all);
                Err(
                    TtsError::MissingVoices(
                        "voice '".to_owned().concat(voice).concat("' not in ").concat(path).concat(
                            "; available: ",
                        ).concat(join_strings(&names, ", ").as_str()),
                    ),
                )
            },
            Some(i) => {
                assert(is_member(entries@[i as int], ms[i as int]));
                if entries[i].method != 0 {
                    return Err(
                        TtsError::MissingVoices(
                            wanted.concat(" in ").concat(path).concat(
                                " is deflate-compressed; only stored (uncompressed) npz members are supported",
                            ),
                        ),
                    );
                }
                let entry = copy_range(bytes, entries[i].start, entries[i].end);
                with_path(path, parse_npy_f32(entry.as_slice()))
            },
        }
    } else {
        let magic: Vec<u8> = vec![0x93, 0x4e, 0x55, 0x4d, 0x50, 0x59];
        assert(magic@ =~= npy_magic());
        assert(bytes@.len() >= 6 ==> bytes@.subrange(0, 6) =~= bytes@.take(6));
        if bytes_at(bytes, 0, &magic) {
            with_path(path, parse_npy_f32(bytes))
        } else {
            Err(
                TtsError::MissingVoices(
                    path.to_owned().concat(" is neither an npz bundle (zip) nor an npy file"),
                ),
            )
        }
    }
}

// ---------------------------------------------------------------------------
// Chunking
// ---------------------------------------------------------------------------

/// The place of the character behind `at` that would be one token too many,
/// `count` tokens lying in front.
pub open spec fn cap_from(s: Seq<char>, vocab: Seq<(char, i64)>, at: nat, count: nat) -> Option<nat>
    decreases s.len() - at,
{
    if at >= s.len() {
        None
    } else if token_id(vocab, s[at as int]) is None {
        cap_from(s, vocab, at + 1, count)
    } else if count >= MAX_PHONEME_TOKENS {
        Some(at)
    } else {
        cap_from(s, vocab, at + 1, count + 1)
    }
}

/// Whether a chunk may end behind `c`.
pub open spec fn ends_chunk(c: char) -> bool {
    ||| crate::text::is_white(c)
    ||| c == ','
    ||| c == '.'
    ||| c == '!'
    ||| c == '?'
    ||| c == ';'
    ||| c == ':'
    ||| c == '\u{2014}'
    ||| c == '\u{2026}'
}

/// The end of the longest part of the first `upto` characters that a chunk may
/// end behind.
pub open spec fn last_break(s: Seq<char>, upto: nat) -> Option<nat>
    decreases upto,
{
    if upto == 0 || upto > s.len() {
        None
    } else if ends_chunk(s[upto - 1]) {
        Some(upto)
    } else {
        last_break(s, (upto - 1) as nat)
    }
}

/// Where a phoneme string is cut: nowhere (at its end) where it fits the cap;
/// otherwise behind the last white space or punctuation before the cap, or at
/// the cap where there is none or only white space lies in front.
pub open spec fn cut_at(s: Seq<char>, vocab: Seq<(char, i64)>) -> nat {
    match cap_from(s, vocab, 0, 0) {
        None => s.len(),
        Some(cap) => match last_break(s, cap) {
            Some(b) if crate::text::trimmed(s.take(b as int)).len() > 0 => b,
            _ => cap,
        },
    }
}

fn is_chunk_end(c: char) -> (r: bool)
    ensures
        r == ends_chunk(c),
{
    is_whitespace(c) || c == ',' || c == '.' || c == '!' || c == '?' || c == ';' || c == ':' || c
        == '\u{2014}' || c == '\u{2026}'
}

/// Splits a phoneme string into `(head, tail)` where `head` tokenizes to at
/// most [`MAX_PHONEME_TOKENS`] ids. When the whole string fits, `tail` is
/// empty. Otherwise the cut lands just after the last whitespace or
/// punctuation char before the cap (falling back to a hard cut at the cap
/// char when there is none).
pub fn split_at_token_cap(phonemes: &Vec<char>, vocab: &Vec<(char, i64)>) -> (r: (
    Vec<char>,
    Vec<char>,
))
    ensures
        r.0@ == phonemes@.take(cut_at(phonemes@, vocab@) as int),
        r.1@ == phonemes@.skip(cut_at(phonemes@, vocab@) as int),
{
    let at = find_cut(phonemes, vocab);
    let head = chars_of(string_of(phonemes, 0, at).as_str());
    let tail = chars_of(string_of(phonemes, at, phonemes.len()).as_str());
    assert(head@ =~= phonemes@.take(at as int));
    assert(tail@ =~= phonemes@.skip(at as int));
    (head, tail)
}

fn find_cut(s: &Vec<char>, vocab: &Vec<(char, i64)>) -> (r: usize)
    ensures
        r == cut_at(s@, vocab@),
        r <= s@.len(),
        s@.len() > 0 ==> r > 0,
{
    let n: usize = s.len();
    let mut count: usize = 0;
    let mut i: usize = 0;
    while i < n
        invariant_except_break
            cap_from(s@, vocab@, 0, 0) == cap_from(s@, vocab@, i as nat, count as nat),
        invariant
            count <= i <= n == s@.len(),
            count <= MAX_PHONEME_TOKENS,
        ensures
            i < n ==> cap_from(s@, vocab@, 0, 0) == Some(i as nat) && i >= MAX_PHONEME_TOKENS,
            i == n ==> cap_from(s@, vocab@, 0, 0) is None,
        decreases n - i,
    {
        if lookup(vocab, s[i]).is_some() {
            if count == MAX_PHONEME_TOKENS {
                break;
            }
            count += 1;
        }
        i += 1;
    }
    if i == n {
        return n;
    }
    let cap: usize = i;
    let mut upto: usize = cap;
    while upto > 0 && !is_chunk_end(s[upto - 1])
        invariant
            upto <= cap < n == s@.len(),
            last_break(s@, cap as nat) == last_break(s@, upto as nat),
        decreases upto,
    {
        upto -= 1;
    }
    if upto > 0 {
        let head = chars_of(string_of(s, 0, upto).as_str());
        assert(head@ =~= s@.take(upto as int));
        let (a, b) = trim_bounds(&head);
        if a < b {
            return upto;
        }
    }
    cap
}

proof fn lemma_cap(s: Seq<char>, vocab: Seq<(char, i64)>, at: nat, count: nat)
    requires
        at <= s.len(),
        count == known_ids(s.take(at as int), vocab).len(),
        count <= MAX_PHONEME_TOKENS,
    ensures
        match cap_from(s, vocab, at, count) {
            Some(cap) => at <= cap < s.len() && known_ids(s.take(cap as int), vocab).len()
                == MAX_PHONEME_TOKENS,
            None => known_ids(s, vocab).len() <= MAX_PHONEME_TOKENS,
        },
    decreases s.len() - at,
{
    if at < s.len() {
        assert(s.take(at + 1int).drop_last() =~= s.take(at as int));
        if token_id(vocab, s[at as int]) is None {
            lemma_cap(s, vocab, at + 1, count);
        } else if count < MAX_PHONEME_TOKENS {
            lemma_cap(s, vocab, at + 1, count + 1);
        }
    } else {
        assert(s.take(at as int) =~= s);
    }
}

proof fn lemma_ids_grow(s: Seq<char>, vocab: Seq<(char, i64)>, n: int)
    requires
        0 <= n <= s.len(),
    ensures
        known_ids(s.take(n), vocab).len() <= known_ids(s, vocab).len(),
    decreases s.len() - n,
{
    if n < s.len() {
        assert(s.take(n + 1).drop_last() =~= s.take(n));
        lemma_ids_grow(s, vocab, n + 1);
    } else {
        assert(s.take(n) =~= s);
    }
}

proof fn lemma_last_break(s: Seq<char>, upto: nat)
    requires
        upto <= s.len(),
    ensures
        last_break(s, upto) matches Some(b) ==> 0 < b <= upto,
    decreases upto,
{
    if upto > 0 && !ends_chunk(s[upto - 1]) {
        lemma_last_break(s, (upto - 1) as nat);
    }
}

/// Splitting loses nothing, takes something of every non-empty string, and
/// leaves a head that fits the model's context.
pub proof fn law_chunks_fit(s: Seq<char>, vocab: Seq<(char, i64)>)
    ensures
        cut_at(s, vocab) <= s.len(),
        s.len() > 0 ==> cut_at(s, vocab) > 0,
        s.take(cut_at(s, vocab) as int) + s.skip(cut_at(s, vocab) as int) == s,
        known_ids(s.take(cut_at(s, vocab) as int), vocab).len() <= MAX_PHONEME_TOKENS,
{
    assert(known_ids(s.take(0), vocab) =~= Seq::empty());
    lemma_cap(s, vocab, 0, 0);
    match cap_from(s, vocab, 0, 0) {
        None => {
            assert(s.take(s.len() as int) =~= s);
        },
        Some(cap) => {
            lemma_last_break(s, cap);
            if cap == 0 {
                assert(s.take(0) =~= Seq::empty());
            }
            let at = cut_at(s, vocab);
            lemma_ids_grow(s.take(cap as int), vocab, at as int);
            assert(s.take(cap as int).take(at as int) =~= s.take(at as int));
        },
    }
    let at = cut_at(s, vocab) as int;
    assert(s.take(at) + s.skip(at) =~= s);
}

/// The chunks of a phoneme string, each within the cap; blank ones are
/// dropped, and so is white space in front of each but the first.
pub open spec fn chunks(s: Seq<char>, vocab: Seq<(char, i64)>) -> Seq<Seq<char>>
    decreases s.len(),
    via chunks_decreases
{
    if s.len() == 0 {
        Seq::empty()
    } else {
        let at = cut_at(s, vocab) as int;
        (if crate::text::trimmed(s.take(at)).len() > 0 {
            seq![s.take(at)]
        } else {
            Seq::empty()
        }) + chunks(crate::text::trim_start(s.skip(at)), vocab)
    }
}

#[via_fn]
proof fn chunks_decreases(s: Seq<char>, vocab: Seq<(char, i64)>) {
    law_chunks_fit(s, vocab);
    crate::text::lemma_trim_start(s.skip(cut_at(s, vocab) as int));
}

/// Cuts normalized phonemes into chunks that each fit the model's context.
pub fn chunk_phonemes(phonemes: &str, vocab: &Vec<(char, i64)>) -> (r: Vec<String>)
    ensures
        strs(r@) == chunks(crate::text::trimmed(phonemes@), vocab@),
{
    let all = chars_of(phonemes);
    let (a, b) = trim_bounds(&all);
    let mut rest = chars_of(string_of(&all, a, b).as_str());
    let ghost whole = rest@;
    let mut out: Vec<String> = Vec::new();
    assert(strs(out@) + chunks(whole, vocab@) =~= chunks(whole, vocab@));
    while rest.len() > 0
        invariant
            strs(out@) + chunks(rest@, vocab@) == chunks(whole, vocab@),
        decreases rest@.len(),
    {
        proof {
            law_chunks_fit(rest@, vocab@);
            crate::text::lemma_trim_start(rest@.skip(cut_at(rest@, vocab@) as int));
        }
        let ghost before = rest@;
        let ghost had = out@;
        let (head, tail) = split_at_token_cap(&rest, vocab);
        let (x, y) = trim_bounds(&head);
        let from = skip_white(&tail);
        rest = chars_of(string_of(&tail, from, tail.len()).as_str());
        if x < y {
            let chunk = string_of(&head, 0, head.len());
            assert(chunk@ =~= head@);
            out.push(chunk);
            assert(strs(out@) =~= strs(had) + seq![chunk@]);
            assert(strs(out@) + chunks(rest@, vocab@) =~= strs(had) + (seq![chunk@] + chunks(
                rest@,
                vocab@,
            )));
        } else {
            assert(Seq::<Seq<char>>::empty() + chunks(rest@, vocab@) =~= chunks(rest@, vocab@));
        }
    }
    assert(strs(out@) + chunks(rest@, vocab@) =~= strs(out@));
    out
}

fn skip_white(v: &Vec<char>) -> (r: usize)
    ensures
        r <= v@.len(),
        v@.subrange(r as int, v@.len() as int) == crate::text::trim_start(v@),
{
    let n: usize = v.len();
    let mut a: usize = 0;
    assert(v@.subrange(0, n as int) =~= v@);
    while a < n && is_whitespace(v[a])
        invariant
            a <= n == v@.len(),
            crate::text::trim_start(v@) == crate::text::trim_start(
                v@.subrange(a as int, n as int),
            ),
        decreases n - a,
    {
        assert(v@.subrange(a as int, n as int).subrange(1, n - a) =~= v@.subrange(
            a + 1,
            n as int,
        ));
        a += 1;
    }
    a
}

/// The style row for a chunk of `tokens` phoneme tokens in a bank of `rows`:
/// the token count, at most [`MAX_PHONEME_TOKENS`] and at most the last row.
pub open spec fn style_row_of(tokens: nat, rows: nat) -> nat {
    let cap = if tokens < MAX_PHONEME_TOKENS {
        tokens
    } else {
        MAX_PHONEME_TOKENS as nat
    };
    if cap < rows {
        cap
    } else if rows > 0 {
        (rows - 1) as nat
    } else {
        0
    }
}

/// The style row for a chunk of `tokens` phoneme tokens in a bank of `rows`.
pub fn style_row(tokens: usize, rows: usize) -> (r: usize)
    ensures
        r == style_row_of(tokens as nat, rows as nat),
{
    let capped: usize = if tokens < MAX_PHONEME_TOKENS {
        tokens
    } else {
        MAX_PHONEME_TOKENS
    };
    let last: usize = if rows > 0 {
        rows - 1
    } else {
        0
    };
    if capped < last {
        capped
    } else {
        last
    }
}

/// The style of a chunk: one row of the bank.
pub fn style_of(bank: &VoiceBank, tokens: usize) -> (r: Vec<u32>)
    requires
        bank.rows > 0,
        bank.data@.len() == bank.rows * STYLE_DIM,
    ensures
        ({
            let row = style_row_of(tokens as nat, bank.rows as nat);
            r@ == bank.data@.subrange(row * STYLE_DIM, (row + 1) * STYLE_DIM)
        }),
{
    let row = style_row(tokens, bank.rows);
    let ghost first = row * STYLE_DIM;
    let mut out: Vec<u32> = Vec::new();
    let mut i: usize = 0;
    let n: usize = bank.data.len();
    assert(first + STYLE_DIM <= n);
    let from: usize = row * STYLE_DIM;
    while i < STYLE_DIM
        invariant
            i <= STYLE_DIM,
            from + STYLE_DIM <= n == bank.data@.len(),
            out@ =~= bank.data@.subrange(from as int, from + i),
        decreases STYLE_DIM - i,
    {
        out.push(bank.data[from + i]);
        i += 1;
    }
    out
}

// ---------------------------------------------------------------------------
// Where phonemes are cut
// ---------------------------------------------------------------------------

/// Whether speech may pause behind a character: it is white space, or one of
/// the marks that close a clause.
pub open spec fn may_pause(c: char) -> bool {
    crate::text::is_white(c) || ",.!?;:—…"@.contains(c)
}

proof fn lemma_may_pause(c: char)
    ensures
        may_pause(c) == ends_chunk(c),
{
    reveal_strlit(",.!?;:—…");
    let all = ",.!?;:—…"@;
    assert(all =~= seq![',', '.', '!', '?', ';', ':', '\u{2014}', '\u{2026}']);
    assert(all[0] == ',' && all[1] == '.' && all[2] == '!' && all[3] == '?' && all[4] == ';'
        && all[5] == ':' && all[6] == '\u{2014}' && all[7] == '\u{2026}');
}

proof fn lemma_cap_is_token(s: Seq<char>, vocab: Seq<(char, i64)>, at: nat, count: nat)
    ensures
        cap_from(s, vocab, at, count) matches Some(cap) ==> at <= cap < s.len() && token_id(
            vocab,
            s[cap as int],
        ) is Some,
    decreases s.len() - at,
{
    if at < s.len() {
        if token_id(vocab, s[at as int]) is None {
            lemma_cap_is_token(s, vocab, at + 1, count);
        } else if count < MAX_PHONEME_TOKENS {
            lemma_cap_is_token(s, vocab, at + 1, count + 1);
        }
    }
}

proof fn lemma_last_break_is_last(s: Seq<char>, upto: nat)
    requires
        upto <= s.len(),
    ensures
        match last_break(s, upto) {
            Some(b) => 0 < b <= upto && ends_chunk(s[b - 1]) && forall|k: int|
                b <= k < upto ==> !ends_chunk(#[trigger] s[k]),
            None => forall|k: int| 0 <= k < upto ==> !ends_chunk(#[trigger] s[k]),
        },
    decreases upto,
{
    if upto > 0 && !ends_chunk(s[upto - 1]) {
        lemma_last_break_is_last(s, (upto - 1) as nat);
    }
}

/// A text is blank where it is white space alone.
proof fn lemma_blank(s: Seq<char>)
    ensures
        crate::text::trimmed(s).len() == 0 <==> forall|i: int|
            0 <= i < s.len() ==> crate::text::is_white(#[trigger] s[i]),
{
    let t = crate::text::trim_start(s);
    crate::text::lemma_trim_start(s);
    crate::text::lemma_trim_end(t);
    let cut = s.len() - t.len();
    if crate::text::trimmed(s).len() == 0 {
        assert forall|i: int| 0 <= i < s.len() implies crate::text::is_white(#[trigger] s[i]) by {
            if i >= cut {
                assert(t[i - cut] == s[i]);
                assert(crate::text::is_white(t[i - cut]));
            }
        }
    } else {
        assert(t[0] == s[cut]);
    }
}

proof fn lemma_ids_one_more(s: Seq<char>, vocab: Seq<(char, i64)>, n: int)
    requires
        0 <= n < s.len(),
    ensures
        known_ids(s.take(n + 1), vocab).len() == known_ids(s.take(n), vocab).len() + (if token_id(
            vocab,
            s[n],
        ) is Some {
            1int
        } else {
            0
        }),
{
    assert(s.take(n + 1).drop_last() =~= s.take(n));
    assert(s.take(n + 1).last() == s[n]);
}

/// Phonemes are cut as late as the model allows, and where speech may pause.
/// What fits in 510 tokens is not cut. Otherwise the cut falls behind a pause,
/// and no pause behind it would leave a head that fits; where no pause in reach
/// has anything but white space in front, the head has 510 tokens, and one more
/// character would be one token too many.
pub proof fn law_cuts_fall_behind_a_pause(s: Seq<char>, vocab: Seq<(char, i64)>, b: int)
    ensures
        known_ids(s, vocab).len() <= 510 ==> cut_at(s, vocab) == s.len(),
        known_ids(s, vocab).len() > 510 ==> 0 < cut_at(s, vocab) < s.len(),
        known_ids(s, vocab).len() > 510 && 0 < b <= s.len() && known_ids(s.take(b), vocab).len()
            <= 510 && may_pause(s[b - 1]) && crate::text::trimmed(s.take(b)).len() > 0 ==> cut_at(
            s,
            vocab,
        ) >= b && may_pause(s[cut_at(s, vocab) - 1]),
        known_ids(s, vocab).len() > 510 && !may_pause(s[cut_at(s, vocab) - 1]) ==> known_ids(
            s.take(cut_at(s, vocab) as int),
            vocab,
        ).len() == 510 && known_ids(s.take(cut_at(s, vocab) as int + 1), vocab).len() == 511,
{
    assert(known_ids(s.take(0), vocab) =~= Seq::empty());
    lemma_cap(s, vocab, 0, 0);
    lemma_cap_is_token(s, vocab, 0, 0);
    law_chunks_fit(s, vocab);
    if let Some(cap) = cap_from(s, vocab, 0, 0) {
        let c = cap as int;
        lemma_ids_one_more(s, vocab, c);
        lemma_ids_grow(s, vocab, c + 1);
        lemma_last_break_is_last(s, cap);
        let at = cut_at(s, vocab) as int;
        lemma_may_pause(s[at - 1]);
        if at < s.len() {
            lemma_may_pause(s[at]);
        }
        if 0 < b <= s.len() && known_ids(s.take(b), vocab).len() <= 510 && may_pause(s[b - 1])
            && crate::text::trimmed(s.take(b)).len() > 0 {
            lemma_may_pause(s[b - 1]);
            if b > c {
                lemma_ids_grow(s.take(b), vocab, c + 1);
                assert(s.take(b).take(c + 1) =~= s.take(c + 1));
            }
            assert(b <= c);
            let last = last_break(s, cap)->0 as int;
            assert(last_break(s, cap) is Some);
            assert(last >= b);
            lemma_blank(s.take(b));
            lemma_blank(s.take(last));
            let i = choose|i: int|
                0 <= i < s.take(b).len() && !crate::text::is_white(#[trigger] s.take(b)[i]);
            assert(s.take(last)[i] == s.take(b)[i]);
        }
    }
}

proof fn lemma_letters_of_start(s: Seq<char>)
    ensures
        letters(crate::text::trim_start(s)) == letters(s),
{
    let t = crate::text::trim_start(s);
    crate::text::lemma_trim_start(s);
    let lead = s.take(s.len() - t.len());
    assert(s =~= lead + t);
    assert forall|i: int| 0 <= i < lead.len() implies crate::text::is_white(#[trigger] lead[i]) by {
        assert(lead[i] == s[i]);
    }
    lemma_letters_white(lead);
    lemma_letters_add(lead, t);
    assert(Seq::<char>::empty() + letters(t) =~= letters(t));
}

/// Nothing of a text goes unspoken: the chunks of its phonemes have all of them
/// but white space, in order; none is blank, and each fits the model.
pub proof fn law_chunks_keep_the_phonemes(s: Seq<char>, vocab: Seq<(char, i64)>)
    ensures
        letters(whole(chunks(s, vocab))) == letters(s),
        forall|i: int|
            0 <= i < chunks(s, vocab).len() ==> crate::text::trimmed(
                #[trigger] chunks(s, vocab)[i],
            ).len() > 0 && known_ids(chunks(s, vocab)[i], vocab).len() <= 510,
    decreases s.len(),
{
    let none = Seq::<Seq<char>>::empty();
    assert(whole(none) =~= Seq::<char>::empty());
    if s.len() == 0 {
        assert(s =~= Seq::empty());
    } else {
        law_chunks_fit(s, vocab);
        let at = cut_at(s, vocab) as int;
        let head = s.take(at);
        let tail = s.skip(at);
        let rest = crate::text::trim_start(tail);
        crate::text::lemma_trim_start(tail);
        law_chunks_keep_the_phonemes(rest, vocab);
        lemma_letters_of_start(tail);
        lemma_letters_add(head, tail);
        assert(s =~= head + tail);
        let more = chunks(rest, vocab);
        if crate::text::trimmed(head).len() > 0 {
            let one = seq![head];
            lemma_whole_add(one, more);
            assert(one.drop_last() =~= none);
            assert(whole(one) =~= head);
            lemma_letters_add(head, whole(more));
            assert forall|i: int| 0 <= i < chunks(s, vocab).len() implies crate::text::trimmed(
                #[trigger] chunks(s, vocab)[i],
            ).len() > 0 && known_ids(chunks(s, vocab)[i], vocab).len() <= 510 by {
                if i > 0 {
                    assert(chunks(s, vocab)[i] == more[i - 1]);
                }
            }
        } else {
            lemma_blank(head);
            lemma_letters_white(head);
            assert(none + more =~= more);
            assert(letters(head) + letters(tail) =~= letters(tail));
        }
    }
}

/// A chunk's style is the row of its number of tokens: the one of its own number
/// where the bank has it, else the last; a chunk never has more than 510.
pub proof fn law_styles_follow_the_length(tokens: nat, rows: nat)
    requires
        rows > 0,
    ensures
        style_row_of(tokens, rows) < rows,
        tokens <= 510 && tokens < rows ==> style_row_of(tokens, rows) == tokens,
        tokens >= rows && rows <= 510 ==> style_row_of(tokens, rows) == rows - 1,
        tokens >= 510 && rows > 510 ==> style_row_of(tokens, rows) == 510,
{
}

/// Floats as they stand in a bank: four bytes each, the low one first.
pub open spec fn bank_bytes(values: Seq<u32>) -> Seq<u8>
    decreases values.len(),
{
    if values.len() == 0 {
        Seq::empty()
    } else {
        bank_bytes(values.drop_last()) + to_le(values.last() as nat, 4)
    }
}

proof fn lemma_bank_bytes(values: Seq<u32>, i: int)
    ensures
        bank_bytes(values).len() == 4 * values.len(),
        0 <= i < values.len() ==> bank_bytes(values).subrange(4 * i, 4 * i + 4) == to_le(
            values[i] as nat,
            4,
        ),
    decreases values.len(),
{
    if values.len() > 0 {
        let rest = values.drop_last();
        lemma_bank_bytes(rest, i);
        lemma_four_bytes(values.last());
        if 0 <= i < values.len() {
            lemma_four_bytes(values[i]);
            let all = bank_bytes(values);
            if i < rest.len() {
                assert(all.subrange(4 * i, 4 * i + 4) =~= bank_bytes(rest).subrange(
                    4 * i,
                    4 * i + 4,
                ));
                assert(rest[i] == values[i]);
            } else {
                assert(all.subrange(4 * i, 4 * i + 4) =~= to_le(values[i] as nat, 4));
            }
        }
    }
}

proof fn lemma_four_bytes(v: u32)
    ensures
        to_le(v as nat, 4).len() == 4,
        le(to_le(v as nat, 4)) == v,
{
    lemma_capacities();
    law_bytes_round_trip(v as nat, 4);
}

proof fn lemma_capacities()
    ensures
        capacity(2) == 0x1_0000,
        capacity(4) == 0x1_0000_0000,
{
    reveal_with_fuel(capacity, 5);
}

/// The floats of a bank are read back as they were written, in order.
pub proof fn law_floats_are_read_back(values: Seq<u32>, behind: Seq<u8>)
    ensures
        float_bits(bank_bytes(values) + behind, values.len()) == values,
{
    let all = bank_bytes(values) + behind;
    lemma_bank_bytes(values, 0);
    assert forall|i: int| 0 <= i < values.len() implies float_bits(all, values.len())[i]
        == values[i] by {
        lemma_bank_bytes(values, i);
        lemma_four_bytes(values[i]);
        assert(all.subrange(4 * i, 4 * i + 4) =~= bank_bytes(values).subrange(4 * i, 4 * i + 4));
    }
    assert(float_bits(all, values.len()) =~= values);
}

/// A stored member as an archive holds it: the local header with its signature,
/// four bytes of version and flags, the method, eight bytes of date and
/// checksum, the two sizes, the length of the name and no extra field; then the
/// name, and the data as it is.
pub open spec fn stored_member(
    name: Seq<u8>,
    data: Seq<u8>,
    version: Seq<u8>,
    stamp: Seq<u8>,
) -> Seq<u8> {
    seq![0x50u8, 0x4b, 0x03, 0x04] + version + to_le(0, 2) + stamp + to_le(data.len(), 4) + to_le(
        data.len(),
        4,
    ) + to_le(name.len(), 2) + to_le(0, 2) + name + data
}

/// Stored members, one behind the other.
pub open spec fn stored_members(
    ms: Seq<(Seq<u8>, Seq<u8>)>,
    version: Seq<u8>,
    stamp: Seq<u8>,
) -> Seq<u8>
    decreases ms.len(),
{
    if ms.len() == 0 {
        Seq::empty()
    } else {
        stored_member(ms[0].0, ms[0].1, version, stamp) + stored_members(
            ms.subrange(1, ms.len() as int),
            version,
            stamp,
        )
    }
}

/// A member's own bytes.
proof fn lemma_stored_member(
    front: Seq<u8>,
    name: Seq<u8>,
    data: Seq<u8>,
    version: Seq<u8>,
    stamp: Seq<u8>,
    behind: Seq<u8>,
)
    requires
        version.len() == 4,
        stamp.len() == 8,
        name.len() < 0x1_0000,
        data.len() < 0xffff_ffff,
    ensures
        stored_member(name, data, version, stamp).len() == 30 + name.len() + data.len(),
        ({
            let zip = front + stored_member(name, data, version, stamp) + behind;
            let start = front.len() + 30 + name.len();
            member_at(zip, front.len()) == Some(
                MemberView { name, method: 0, start, end: start + data.len() },
            ) && zip.subrange(start as int, (start + data.len()) as int) == data
        }),
{
    lemma_capacities();
    law_bytes_round_trip(0, 2);
    law_bytes_round_trip(data.len(), 4);
    law_bytes_round_trip(name.len(), 2);
    let p = front.len() as int;
    let sig = seq![0x50u8, 0x4b, 0x03, 0x04];
    let m = stored_member(name, data, version, stamp);
    let zip = front + m + behind;
    assert(m.len() == 30 + name.len() + data.len());
    assert(zip.subrange(p, p + 4) =~= sig);
    assert(zip.subrange(p + 8, p + 10) =~= to_le(0, 2));
    assert(zip.subrange(p + 18, p + 22) =~= to_le(data.len(), 4));
    assert(zip.subrange(p + 22, p + 26) =~= to_le(data.len(), 4));
    assert(zip.subrange(p + 26, p + 28) =~= to_le(name.len(), 2));
    assert(zip.subrange(p + 28, p + 30) =~= to_le(0, 2));
    assert(zip.subrange(p + 30, p + 30 + name.len()) =~= name);
    let start = p + 30 + name.len();
    assert(zip.subrange(start, start + data.len()) =~= data);
    assert(le(sig) == 0x0403_4b50) by {
        reveal_with_fuel(le, 5);
        assert(sig.subrange(1, 4) =~= seq![0x4bu8, 0x03, 0x04]);
        assert(seq![0x4bu8, 0x03, 0x04].subrange(1, 3) =~= seq![0x03u8, 0x04]);
        assert(seq![0x03u8, 0x04].subrange(1, 2) =~= seq![0x04u8]);
        assert(seq![0x04u8].subrange(1, 1) =~= Seq::<u8>::empty());
    }
}

/// Every member of an archive is found: stored members, one behind the other,
/// are walked in order, each with its own name and with exactly its own data,
/// up to the first bytes that are no local header.
pub proof fn law_stored_members_are_found(
    front: Seq<u8>,
    ms: Seq<(Seq<u8>, Seq<u8>)>,
    version: Seq<u8>,
    stamp: Seq<u8>,
    behind: Seq<u8>,
    i: int,
)
    requires
        version.len() == 4,
        stamp.len() == 8,
        forall|k: int|
            0 <= k < ms.len() ==> (#[trigger] ms[k]).0.len() < 0x1_0000 && ms[k].1.len()
                < 0xffff_ffff && vstd::utf8::valid_utf8(ms[k].0),
        behind.len() < 30 || behind.take(4) != seq![0x50u8, 0x4b, 0x03, 0x04],
    ensures
        ({
            let zip = front + stored_members(ms, version, stamp) + behind;
            let found = members_from(zip, front.len());
            &&& found.len() == ms.len()
            &&& 0 <= i < ms.len() ==> found[i].name == ms[i].0 && found[i].method == 0
                && found[i].end <= zip.len() && found[i].start <= found[i].end && zip.subrange(
                found[i].start as int,
                found[i].end as int,
            ) == ms[i].1
        }),
    decreases ms.len(),
{
    let zip = front + stored_members(ms, version, stamp) + behind;
    let p = front.len() as int;
    if ms.len() == 0 {
        assert(zip =~= front + behind);
        assert(member_at(zip, front.len()) is None) by {
            if behind.len() >= 30 {
                let four = behind.take(4);
                assert(zip.subrange(p, p + 4) =~= four);
                lemma_signature(four);
            }
        }
    } else {
        let (name, data) = ms[0];
        let rest = ms.subrange(1, ms.len() as int);
        let first = stored_member(name, data, version, stamp);
        let tail = stored_members(rest, version, stamp);
        assert(ms[0].0.len() < 0x1_0000);
        lemma_stored_member(front, name, data, version, stamp, tail + behind);
        assert(zip =~= front + first + (tail + behind));
        assert(zip =~= (front + first) + tail + behind);
        assert forall|k: int| 0 <= k < rest.len() implies (#[trigger] rest[k]).0.len() < 0x1_0000
            && rest[k].1.len() < 0xffff_ffff && vstd::utf8::valid_utf8(rest[k].0) by {
            assert(rest[k] == ms[k + 1]);
        }
        law_stored_members_are_found(front + first, rest, version, stamp, behind, i - 1);
        let m = member_at(zip, front.len())->0;
        assert(m.end == (front + first).len());
        let found = members_from(zip, front.len());
        let more = members_from(zip, m.end);
        assert(found =~= seq![m] + more);
        if 0 < i < ms.len() {
            assert(found[i] == more[i - 1]);
            assert(rest[i - 1] == ms[i]);
        }
    }
}

/// Four bytes that are read as the signature are the signature.
proof fn lemma_signature(four: Seq<u8>)
    requires
        four.len() == 4,
        four != seq![0x50u8, 0x4b, 0x03, 0x04],
    ensures
        le(four) != 0x0403_4b50,
{
    reveal_with_fuel(le, 5);
    let three = four.subrange(1, 4);
    let two = three.subrange(1, 3);
    let one = two.subrange(1, 2);
    assert(one.subrange(1, 1) =~= Seq::<u8>::empty());
    assert(three[0] == four[1] && two[0] == four[2] && one[0] == four[3]);
    assert(le(four) == four[0] + 256 * (four[1] + 256 * (four[2] + 256 * four[3])));
    if le(four) == 0x0403_4b50 {
        assert(four =~= seq![0x50u8, 0x4b, 0x03, 0x04]);
    }
}

/// The parts of a shape tuple as they stand between its commas.
spec fn shape_parts(dims: Seq<nat>) -> Seq<Seq<char>> {
    Seq::new(
        dims.len(),
        |i: int|
            if i == 0 {
                crate::text::decimal(dims[i])
            } else {
                seq![' '] + crate::text::decimal(dims[i])
            },
    )
}

#[verifier::rlimit(30)]
proof fn lemma_shape_text(dims: Seq<nat>)
    requires
        dims.len() > 0,
    ensures
        join(dims.map_values(|d: nat| crate::text::decimal(d)), ", "@) == join(
            shape_parts(dims),
            seq![','],
        ),
    decreases dims.len(),
{
    reveal_strlit(", ");
    let written = dims.map_values(|d: nat| crate::text::decimal(d));
    let parts = shape_parts(dims);
    if dims.len() > 1 {
        let less = dims.drop_last();
        lemma_shape_text(less);
        assert(written.drop_last() =~= less.map_values(|d: nat| crate::text::decimal(d)));
        assert(parts.drop_last() =~= shape_parts(less));
        let last = crate::text::decimal(dims.last());
        assert(written.last() == last);
        assert(parts.last() == seq![' '] + last);
        let front = join(shape_parts(less), seq![',']);
        assert(", "@ =~= seq![','] + seq![' ']);
        assert(front + ", "@ + last =~= front + seq![','] + (seq![' '] + last));
    }
}

proof fn lemma_shape_part(d: nat)
    requires
        d <= usize::MAX,
    ensures
        crate::text::trimmed(crate::text::decimal(d)) == crate::text::decimal(d),
        crate::text::trimmed(seq![' '] + crate::text::decimal(d)) == crate::text::decimal(d),
        crate::text::decimal(d).len() > 0,
        unsigned(crate::text::decimal(d), usize::MAX as nat) == Some(d),
        forall|i: int|
            0 <= i < crate::text::decimal(d).len() ==> '0' <= #[trigger] crate::text::decimal(
                d,
            )[i] <= '9',
{
    let text = crate::text::decimal(d);
    let none = Seq::<char>::empty();
    crate::text::lemma_decimal_digits(d);
    crate::text::law_decimal_round_trip(d, usize::MAX as nat);
    assert forall|i: int| 0 <= i < text.len() implies '0' <= #[trigger] text[i] <= '9' by {
        assert(crate::text::is_digit_char(text[i]));
    }
    assert(!crate::text::is_white(text[0]));
    assert(!crate::text::is_white(text[text.len() - 1]));
    assert(crate::text::is_white(' '));
    crate::text::law_trimming_finds_the_text(none, text, none);
    assert(none + text + none =~= text);
    crate::text::law_trimming_finds_the_text(seq![' '], text, none);
    assert(seq![' '] + text + none =~= seq![' '] + text);
}

proof fn lemma_shape_dims(dims: Seq<nat>)
    requires
        forall|i: int| 0 <= i < dims.len() ==> (#[trigger] dims[i]) <= usize::MAX,
    ensures
        dims_of(shape_parts(dims)) == Ok::<Seq<nat>, Seq<char>>(dims),
    decreases dims.len(),
{
    let parts = shape_parts(dims);
    if dims.len() > 0 {
        let less = dims.drop_last();
        assert forall|i: int| 0 <= i < less.len() implies (#[trigger] less[i]) <= usize::MAX by {
            assert(less[i] == dims[i]);
        }
        lemma_shape_dims(less);
        assert(parts.drop_last() =~= shape_parts(less));
        assert(dims[dims.len() - 1] <= usize::MAX);
        lemma_shape_part(dims.last());
        assert(less.push(dims.last()) =~= dims);
    } else {
        assert(dims =~= Seq::empty());
    }
}

/// A shape is read as it is written, in Python's way: its numbers between
/// parentheses, commas between them, with a comma behind the last one or
/// without. What stands around the parentheses makes no difference.
#[verifier::rlimit(40)]
pub proof fn law_written_shapes_are_read(
    before: Seq<char>,
    dims: Seq<nat>,
    comma: bool,
    behind: Seq<char>,
)
    requires
        !before.contains('('),
        dims.len() > 0,
        forall|i: int| 0 <= i < dims.len() ==> (#[trigger] dims[i]) <= usize::MAX,
    ensures
        shape_of(
            before + seq!['('] + join(
                dims.map_values(|d: nat| crate::text::decimal(d)),
                ", "@,
            ) + (if comma {
                seq![',']
            } else {
                Seq::empty()
            }) + seq![')'] + behind,
        ) == Ok::<Seq<nat>, Seq<char>>(dims),
{
    let parts = shape_parts(dims);
    let end = if comma {
        seq![',']
    } else {
        Seq::<char>::empty()
    };
    let inner = join(dims.map_values(|d: nat| crate::text::decimal(d)), ", "@) + end;
    lemma_shape_text(dims);
    lemma_shape_dims(dims);
    let all = if comma {
        parts.push(Seq::empty())
    } else {
        parts
    };
    assert(inner =~= join(all, seq![','])) by {
        if comma {
            assert(all.drop_last() =~= parts);
            assert(join(all, seq![',']) =~= join(parts, seq![',']) + seq![','] + Seq::<
                char,
            >::empty());
        }
    }
    assert forall|i: int| 0 <= i < all.len() implies !(#[trigger] all[i]).contains(',')
        && !all[i].contains(')') by {
        if i < parts.len() {
            assert(dims[i] <= usize::MAX);
            lemma_shape_part(dims[i]);
            let d = crate::text::decimal(dims[i]);
            if all[i].contains(',') || all[i].contains(')') {
                let c = if all[i].contains(',') {
                    ','
                } else {
                    ')'
                };
                let k = choose|k: int| 0 <= k < all[i].len() && all[i][k] == c;
                let j = if i == 0 {
                    k
                } else {
                    k - 1
                };
                assert(j == -1 || d[j] == c);
            }
        }
    }
    crate::text::law_joined_texts_come_apart(all, ',');
    lemma_no_closing(all);
    assert(dims_of(all) == Ok::<Seq<nat>, Seq<char>>(dims)) by {
        if comma {
            assert(all.drop_last() =~= parts);
            let none = Seq::<char>::empty();
            let (from, to) = crate::text::law_trimming_takes_white_space(none);
            assert(crate::text::trimmed(none).len() == 0);
        }
    }
    let s = before + seq!['('] + inner + seq![')'] + behind;
    assert(before + seq!['('] + join(
        dims.map_values(|d: nat| crate::text::decimal(d)),
        ", "@,
    ) + end + seq![')'] + behind =~= s);
    crate::text::lemma_until(s, '(');
    let open = crate::text::until(s, '(') as int;
    assert(s[before.len() as int] == '(');
    assert(open == before.len()) by {
        if open < before.len() {
            assert(before[open] == '(');
        }
    }
    let rest = s.skip(open);
    crate::text::lemma_until(rest, ')');
    let close = crate::text::until(rest, ')') as int;
    let n = inner.len() as int;
    assert(rest[n + 1] == ')');
    assert(close == n + 1) by {
        if close < n + 1 {
            assert(rest[close] == ')');
            assert(close > 0);
            assert(inner[close - 1] == ')');
        }
    }
    assert(rest.subrange(1, close) =~= inner);
}

proof fn lemma_no_closing(parts: Seq<Seq<char>>)
    requires
        forall|i: int| 0 <= i < parts.len() ==> !(#[trigger] parts[i]).contains(')'),
    ensures
        !join(parts, seq![',']).contains(')'),
    decreases parts.len(),
{
    let all = join(parts, seq![',']);
    if parts.len() > 0 {
        assert(!parts[parts.len() - 1].contains(')'));
        if parts.len() > 1 {
            let less = parts.drop_last();
            assert forall|i: int| 0 <= i < less.len() implies !(#[trigger] less[i]).contains(
                ')',
            ) by {
                assert(less[i] == parts[i]);
            }
            lemma_no_closing(less);
            let front = join(less, seq![',']);
            if all.contains(')') {
                let k = choose|k: int| 0 <= k < all.len() && all[k] == ')';
                if k < front.len() {
                    assert(front[k] == ')');
                } else if k > front.len() {
                    assert(parts.last()[k - front.len() - 1] == ')');
                }
            }
        }
    }
}

} // verus!
