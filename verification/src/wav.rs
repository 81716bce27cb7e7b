//! WAV files: a 16-bit PCM mono writer, and a reader of PCM and float files
//! with any number of channels.

use vstd::prelude::*;

use crate::bytes::{bytes_at, le, push_le, to_le, u16_le, u32_le};
use crate::error::SkadooshError;
use crate::text::decimal_string;

verus! {

// ---------------------------------------------------------------------------
// Writing
// ---------------------------------------------------------------------------

/// The two bytes of a sample.
pub open spec fn sample_bytes(s: i16) -> Seq<u8> {
    to_le(
        if s < 0 {
            (s + 65_536) as nat
        } else {
            s as nat
        },
        2,
    )
}

/// The bytes of samples, one behind the other.
pub open spec fn all_sample_bytes(samples: Seq<i16>) -> Seq<u8>
    decreases samples.len(),
{
    if samples.len() == 0 {
        Seq::empty()
    } else {
        all_sample_bytes(samples.drop_last()) + sample_bytes(samples.last())
    }
}

/// `RIFF`
pub open spec fn riff() -> Seq<u8> {
    seq![82, 73, 70, 70]
}

/// `WAVE`
pub open spec fn wave() -> Seq<u8> {
    seq![87, 65, 86, 69]
}

/// `fmt `
pub open spec fn fmt_id() -> Seq<u8> {
    seq![102, 109, 116, 32]
}

/// `data`
pub open spec fn data_id() -> Seq<u8> {
    seq![100, 97, 116, 97]
}

/// The header of a 16-bit PCM mono file with `n` samples.
pub open spec fn header(n: nat, rate: u32) -> Seq<u8> {
    riff() + to_le(36 + 2 * n, 4) + wave() + fmt_id() + to_le(16, 4) + to_le(1, 2) + to_le(1, 2)
        + to_le(rate as nat, 4) + to_le(2 * (rate as nat), 4) + to_le(2, 2) + to_le(16, 2)
        + data_id() + to_le(2 * n, 4)
}

/// A 16-bit PCM mono file.
pub open spec fn wav_file(samples: Seq<i16>, rate: u32) -> Seq<u8> {
    header(samples.len(), rate) + all_sample_bytes(samples)
}

fn push_tag(out: &mut Vec<u8>, a: u8, b: u8, c: u8, d: u8)
    ensures
        final(out)@ == old(out)@ + seq![a, b, c, d],
{
    let ghost before = out@;
    out.push(a);
    out.push(b);
    out.push(c);
    out.push(d);
    assert(out@ =~= before + seq![a, b, c, d]);
}

/// A canonical 44-byte-header 16-bit PCM mono wav.
pub fn write_wav16(samples: &Vec<i16>, rate: u32) -> (r: Vec<u8>)
    requires
        36 + 2 * samples@.len() <= u32::MAX,
        2 * rate <= u32::MAX,
    ensures
        r@ == wav_file(samples@, rate),
{
    let data_len: u64 = samples.len() as u64 * 2;
    let mut out: Vec<u8> = Vec::new();
    push_tag(&mut out, 82, 73, 70, 70);
    push_le(&mut out, 36 + data_len, 4);
    push_tag(&mut out, 87, 65, 86, 69);
    push_tag(&mut out, 102, 109, 116, 32);
    push_le(&mut out, 16, 4);
    push_le(&mut out, 1, 2);
    push_le(&mut out, 1, 2);
    push_le(&mut out, rate as u64, 4);
    push_le(&mut out, rate as u64 * 2, 4);
    push_le(&mut out, 2, 2);
    push_le(&mut out, 16, 2);
    push_tag(&mut out, 100, 97, 116, 97);
    push_le(&mut out, data_len, 4);
    let ghost head = header(samples@.len(), rate);
    assert(out@ =~= head);
    let mut i: usize = 0;
    assert(out@ =~= head + all_sample_bytes(samples@.take(0)));
    while i < samples.len()
        invariant
            i <= samples@.len(),
            out@ == head + all_sample_bytes(samples@.take(i as int)),
        decreases samples@.len() - i,
    {
        let s: i16 = samples[i];
        let v: u64 = if s < 0 {
            (s as i64 + 65_536) as u64
        } else {
            s as u64
        };
        let ghost before = out@;
        push_le(&mut out, v, 2);
        assert(samples@.take(i + 1).drop_last() =~= samples@.take(i as int));
        assert(out@ =~= head + all_sample_bytes(samples@.take(i + 1)));
        i += 1;
    }
    assert(samples@.take(samples@.len() as int) =~= samples@);
    out
}

// ---------------------------------------------------------------------------
// Reading
// ---------------------------------------------------------------------------

/// What the `fmt ` chunk says.
#[derive(Debug, Clone, Copy, PartialEq, Eq, Structural)]
pub struct WavFormat {
    /// The format code: 1 is PCM, 3 is float.
    pub format: u16,
    /// The number of channels.
    pub channels: u16,
    /// Frames per second.
    pub rate: u32,
    /// Bits per sample.
    pub bits: u16,
}

/// The format in the body of a `fmt ` chunk.
pub open spec fn format_in(body: Seq<u8>) -> WavFormat {
    WavFormat {
        format: le(body.subrange(0, 2)) as u16,
        channels: le(body.subrange(2, 4)) as u16,
        rate: le(body.subrange(4, 8)) as u32,
        bits: le(body.subrange(14, 16)) as u16,
    }
}

/// What the chunks of a file hold: the last format and the last data.
pub struct Chunks {
    /// The format.
    pub fmt: Option<WavFormat>,
    /// Where the samples begin and end.
    pub data: Option<(int, int)>,
}

/// Where the body of a chunk at `pos` ends, cut at the end of the file.
pub open spec fn body_end(bytes: Seq<u8>, pos: int) -> int {
    let end = pos + 8 + le(bytes.subrange(pos + 4, pos + 8));
    if end < bytes.len() {
        end
    } else {
        bytes.len() as int
    }
}

/// Where the chunk behind the one at `pos` begins: chunks are padded to even
/// sizes.
pub open spec fn next_chunk(bytes: Seq<u8>, pos: int) -> int {
    let size = le(bytes.subrange(pos + 4, pos + 8));
    pos + 8 + size + size % 2
}

/// What the chunks from `pos` on hold, where `found` is what those in front
/// hold. A `fmt ` chunk that is cut short is passed over.
pub open spec fn chunks_from(bytes: Seq<u8>, pos: int, found: Chunks) -> Chunks
    decreases bytes.len() - pos,
{
    if pos < 0 || pos + 8 > bytes.len() {
        found
    } else {
        let id = bytes.subrange(pos, pos + 4);
        let end = body_end(bytes, pos);
        let now = if id == fmt_id() && end - (pos + 8) >= 16 {
            Chunks { fmt: Some(format_in(bytes.subrange(pos + 8, end))), ..found }
        } else if id == data_id() {
            Chunks { data: Some((pos + 8, end)), ..found }
        } else {
            found
        };
        if next_chunk(bytes, pos) < bytes.len() {
            chunks_from(bytes, next_chunk(bytes, pos), now)
        } else {
            now
        }
    }
}

/// Whether samples of a format can be read.
pub open spec fn is_supported(f: WavFormat) -> bool {
    (f.format == 1 && (f.bits == 8 || f.bits == 16 || f.bits == 24 || f.bits == 32)) || (f.format
        == 3 && f.bits == 32)
}

/// A little-endian two's complement number.
pub open spec fn signed_le(b: Seq<u8>) -> int {
    let half = crate::bytes::capacity(b.len()) as int / 2;
    if le(b) >= half {
        le(b) - 2 * half
    } else {
        le(b) as int
    }
}

/// A sample: a whole number for PCM, which is centred on zero, and the bits
/// of a float for float.
pub open spec fn sample_value(f: WavFormat, b: Seq<u8>) -> int {
    if f.format == 3 {
        le(b) as int
    } else if f.bits == 8 {
        le(b) - 128
    } else {
        signed_le(b)
    }
}

/// The samples of all whole frames, channel by channel within a frame.
pub open spec fn sample_values(f: WavFormat, data: Seq<u8>, n: nat) -> Seq<int> {
    let width = f.bits as int / 8;
    Seq::new(n, |i: int| sample_value(f, data.subrange(i * width, i * width + width)))
}

/// The number of samples in all whole frames.
pub open spec fn sample_count(f: WavFormat, len: nat) -> nat {
    let width = f.bits as int / 8;
    let frame = width * f.channels;
    ((len as int / frame) * f.channels) as nat
}

/// A file that has been read.
#[derive(Debug)]
pub struct Wav {
    /// Its format.
    pub format: WavFormat,
    /// The samples of all whole frames, channel by channel within a frame:
    /// whole numbers for PCM, float bits for float.
    pub samples: Vec<i64>,
}

/// Numbers as integers.
pub open spec fn ints(v: Seq<i64>) -> Seq<int> {
    v.map_values(|x: i64| x as int)
}

/// What reading a file gives: its format and samples, or what is wrong with
/// it.
pub open spec fn wav_in(name: Seq<char>, bytes: Seq<u8>) -> Result<
    (WavFormat, Seq<int>),
    Seq<char>,
> {
    if bytes.len() < 12 || bytes.subrange(0, 4) != riff() || bytes.subrange(8, 12) != wave() {
        Err(name + " is not a RIFF/WAVE file"@)
    } else {
        let found = chunks_from(bytes, 12, Chunks { fmt: None, data: None });
        match found.fmt {
            None => Err(name + ": missing fmt chunk"@),
            Some(f) => match found.data {
                None => Err(name + ": missing data chunk"@),
                Some((from, to)) => if f.channels == 0 || f.rate == 0 || f.bits < 8 {
                    Err(name + ": bad fmt chunk"@)
                } else {
                    let n = sample_count(f, (to - from) as nat);
                    if n > 0 && !is_supported(f) {
                        Err(unsupported(name, f))
                    } else {
                        Ok((f, sample_values(f, bytes.subrange(from, to), n)))
                    }
                },
            },
        }
    }
}

/// The complaint about a format that cannot be read.
pub open spec fn unsupported(name: Seq<char>, f: WavFormat) -> Seq<char> {
    name + ": unsupported wav format (format "@ + crate::text::decimal(f.format as nat) + ", "@
        + crate::text::decimal(f.bits as nat)
        + " bits); supported: PCM 8/16/24/32-bit and 32-bit float"@
}

fn complaint(name: &str, what: &str) -> (r: SkadooshError)
    ensures
        r.text() == name@ + what@,
{
    SkadooshError::Other(name.to_owned().concat(what))
}

proof fn lemma_next_chunk(bytes: Seq<u8>, pos: int)
    requires
        0 <= pos,
        pos + 8 <= bytes.len(),
    ensures
        next_chunk(bytes, pos) >= pos + 8,
{
}

fn read_format(bytes: &Vec<u8>, at: usize, end: usize) -> (r: WavFormat)
    requires
        at + 16 <= end <= bytes@.len(),
    ensures
        r == format_in(bytes@.subrange(at as int, end as int)),
{
    let ghost body = bytes@.subrange(at as int, end as int);
    assert(body.subrange(0, 2) =~= bytes@.subrange(at as int, at + 2));
    assert(body.subrange(2, 4) =~= bytes@.subrange(at + 2, at + 4));
    assert(body.subrange(4, 8) =~= bytes@.subrange(at + 4, at + 8));
    assert(body.subrange(14, 16) =~= bytes@.subrange(at + 14, at + 16));
    let format: u16 = match u16_le(bytes.as_slice(), at) {
        Some(v) => v,
        None => 0,
    };
    let channels: u16 = match u16_le(bytes.as_slice(), at + 2) {
        Some(v) => v,
        None => 0,
    };
    let rate: u32 = match u32_le(bytes.as_slice(), at + 4) {
        Some(v) => v,
        None => 0,
    };
    let bits: u16 = match u16_le(bytes.as_slice(), at + 14) {
        Some(v) => v,
        None => 0,
    };
    WavFormat { format, channels, rate, bits }
}

/// The last format and the last data of the chunks of a file.
fn find_chunks(bytes: &Vec<u8>) -> (r: (Option<WavFormat>, Option<(usize, usize)>))
    requires
        bytes@.len() >= 12,
    ensures
        ({
            let found = chunks_from(bytes@, 12, Chunks { fmt: None, data: None });
            &&& r.0 == found.fmt
            &&& match r.1 {
                Some((a, b)) => found.data == Some((a as int, b as int)) && a <= b <= bytes@.len(),
                None => found.data is None,
            }
        }),
{
    let fmt_tag: Vec<u8> = vec![102, 109, 116, 32];
    let data_tag: Vec<u8> = vec![100, 97, 116, 97];
    assert(fmt_tag@ =~= fmt_id());
    assert(data_tag@ =~= data_id());
    let mut fmt: Option<WavFormat> = None;
    let mut data: Option<(usize, usize)> = None;
    let mut pos: usize = 12;
    let n: usize = bytes.len();
    let ghost start = Chunks { fmt: None, data: None };
    while pos <= n && n - pos >= 8
        invariant
            n == bytes@.len(),
            fmt_tag@ == fmt_id(),
            data_tag@ == data_id(),
            start == (Chunks { fmt: None, data: None }),
            data matches Some((a, b)) ==> a <= b <= n,
            chunks_from(bytes@, 12, start) == chunks_from(
                bytes@,
                pos as int,
                Chunks {
                    fmt,
                    data: match data {
                        Some((a, b)) => Some((a as int, b as int)),
                        None => None,
                    },
                },
            ),
        decreases n - pos,
    {
        let size: usize = match u32_le(bytes.as_slice(), pos + 4) {
            Some(v) => v as usize,
            None => 0,
        };
        let body: usize = pos + 8;
        let left: usize = n - body;
        let end: usize = if size < left {
            body + size
        } else {
            n
        };
        proof {
            lemma_next_chunk(bytes@, pos as int);
            assert(size == le(bytes@.subrange(pos + 4, pos + 8)));
            assert(end == body_end(bytes@, pos as int));
        }
        if bytes_at(bytes.as_slice(), pos, &fmt_tag) {
            assert(bytes@.subrange(pos as int, pos + 4) == fmt_id());
            if end - body >= 16 {
                fmt = Some(read_format(bytes, body, end));
            } else {
                assert(fmt_id()[0] != data_id()[0]);
            }
        } else if bytes_at(bytes.as_slice(), pos, &data_tag) {
            data = Some((body, end));
        }
        let odd: usize = size % 2;
        if size >= left || odd >= left - size {
            // The next chunk would begin at or behind the end of the file.
            assert(next_chunk(bytes@, pos as int) >= n);
            pos = n;
        } else {
            pos = body + size + odd;
        }
    }
    (fmt, data)
}

fn read_le(bytes: &Vec<u8>, at: usize, n: usize) -> (r: u64)
    requires
        n <= 4,
        at + n <= bytes@.len(),
    ensures
        r == le(bytes@.subrange(at as int, at + n)),
        n == 1 ==> r < 256,
        n == 2 ==> r < 65_536,
        n == 3 ==> r < 16_777_216,
        n == 4 ==> r < 4_294_967_296,
{
    let mut v: u64 = 0;
    let mut k: usize = n;
    let len: usize = bytes.len();
    let ghost b = bytes@.subrange(at as int, at + n);
    proof {
        assert(b.subrange(n as int, n as int) =~= Seq::empty());
        assert(le(Seq::<u8>::empty()) == 0);
    }
    while k > 0
        invariant
            k <= n <= 4,
            at + n <= bytes@.len() == len,
            b == bytes@.subrange(at as int, at + n),
            v == le(b.subrange(k as int, n as int)),
            n - k == 0 ==> v < 1,
            n - k == 1 ==> v < 256,
            n - k == 2 ==> v < 65_536,
            n - k == 3 ==> v < 16_777_216,
            n - k == 4 ==> v < 4_294_967_296,
        decreases k,
    {
        let ghost tail = b.subrange(k as int, n as int);
        let ghost now = b.subrange(k - 1, n as int);
        assert(now.subrange(1, now.len() as int) =~= tail);
        assert(now.drop_first() =~= tail);
        assert(now[0] == bytes@[at + k - 1]);
        v = v * 256 + bytes[at + (k - 1)] as u64;
        assert(v == le(now));
        k -= 1;
    }
    assert(b.subrange(0, n as int) =~= b);
    v
}

fn read_sample(f: &WavFormat, bytes: &Vec<u8>, at: usize) -> (r: i64)
    requires
        is_supported(*f),
        at + f.bits as int / 8 <= bytes@.len(),
    ensures
        r == sample_value(*f, bytes@.subrange(at as int, at + f.bits as int / 8)),
{
    let width: usize = (f.bits / 8) as usize;
    let v: u64 = read_le(bytes, at, width);
    reveal_with_fuel(crate::bytes::capacity, 5);
    if f.format == 3 {
        v as i64
    } else if f.bits == 8 {
        v as i64 - 128
    } else if f.bits == 16 {
        if v >= 32_768 {
            v as i64 - 65_536
        } else {
            v as i64
        }
    } else if f.bits == 24 {
        if v >= 8_388_608 {
            v as i64 - 16_777_216
        } else {
            v as i64
        }
    } else {
        if v >= 2_147_483_648 {
            v as i64 - 4_294_967_296
        } else {
            v as i64
        }
    }
}

/// The samples of all whole frames.
fn read_samples(f: &WavFormat, bytes: &Vec<u8>, from: usize, to: usize, n: usize) -> (r: Vec<i64>)
    requires
        is_supported(*f),
        from <= to <= bytes@.len(),
        n * (f.bits as int / 8) <= to - from,
    ensures
        ints(r@) == sample_values(*f, bytes@.subrange(from as int, to as int), n as nat),
{
    let width: usize = (f.bits / 8) as usize;
    let ghost data = bytes@.subrange(from as int, to as int);
    let ghost want = sample_values(*f, data, n as nat);
    let mut out: Vec<i64> = Vec::new();
    let mut i: usize = 0;
    let mut at: usize = from;
    assert(ints(out@) =~= want.take(0));
    while i < n
        invariant
            is_supported(*f),
            width == f.bits as int / 8,
            from <= to <= bytes@.len(),
            data == bytes@.subrange(from as int, to as int),
            want == sample_values(*f, data, n as nat),
            n * width <= to - from,
            i <= n,
            at == from + i * width,
            ints(out@) == want.take(i as int),
        decreases n - i,
    {
        assert((i + 1) * width <= n * width) by (nonlinear_arith)
            requires
                i + 1 <= n,
                0 <= width,
        ;
        assert((i + 1) * width == i * width + width) by (nonlinear_arith);
        let ghost before = out@;
        let s = read_sample(f, bytes, at);
        proof {
            assert(data.subrange(i * width, i * width + width) =~= bytes@.subrange(
                at as int,
                at + width,
            ));
            assert(want[i as int] == s);
        }
        out.push(s);
        assert(ints(out@) =~= ints(before).push(s as int));
        assert(want.take(i + 1) =~= want.take(i as int).push(want[i as int]));
        at += width;
        i += 1;
    }
    assert(want.take(n as int) =~= want);
    out
}

/// How many samples the whole frames of `len` bytes hold.
fn count_samples(f: &WavFormat, len: usize) -> (r: usize)
    requires
        f.channels > 0,
        f.bits >= 8,
    ensures
        r == sample_count(*f, len as nat),
        r * (f.bits as int / 8) <= len,
{
    let width: usize = (f.bits / 8) as usize;
    let channels: usize = f.channels as usize;
    assert(1 <= width <= 8191);
    assert(width * channels <= 8191 * 65_535) by (nonlinear_arith)
        requires
            width <= 8191,
            channels <= 65_535,
    ;
    assert(width * channels >= 1) by (nonlinear_arith)
        requires
            width >= 1,
            channels >= 1,
    ;
    let frame: usize = width * channels;
    let frames: usize = len / frame;
    assert(frames * frame <= len) by (nonlinear_arith)
        requires
            frames == len / frame,
            frame > 0,
    ;
    assert(frames * channels * width == frames * frame) by (nonlinear_arith)
        requires
            frame == width * channels,
    ;
    assert(frames * channels <= frames * channels * width) by (nonlinear_arith)
        requires
            width >= 1,
            0 <= frames * channels,
    ;
    frames * channels
}

/// Reads a file: PCM 8/16/24/32-bit int and 32-bit float, any channel count.
/// `name` is how errors call it.
pub fn read_wav(name: &str, bytes: &Vec<u8>) -> (r: Result<Wav, SkadooshError>)
    ensures
        match wav_in(name@, bytes@) {
            Ok((format, samples)) => r matches Ok(w) && w.format == format && ints(w.samples@)
                == samples,
            Err(m) => r matches Err(e) && e.text() == m,
        },
{
    let riff_tag: Vec<u8> = vec![82, 73, 70, 70];
    let wave_tag: Vec<u8> = vec![87, 65, 86, 69];
    assert(riff_tag@ =~= riff());
    assert(wave_tag@ =~= wave());
    if bytes.len() < 12 || !bytes_at(bytes.as_slice(), 0, &riff_tag) || !bytes_at(
        bytes.as_slice(),
        8,
        &wave_tag,
    ) {
        return Err(complaint(name, " is not a RIFF/WAVE file"));
    }
    let (fmt, data) = find_chunks(bytes);
    let format = match fmt {
        Some(f) => f,
        None => {
            return Err(complaint(name, ": missing fmt chunk"));
        },
    };
    let (from, to) = match data {
        Some(d) => d,
        None => {
            return Err(complaint(name, ": missing data chunk"));
        },
    };
    if format.channels == 0 || format.rate == 0 || format.bits < 8 {
        return Err(complaint(name, ": bad fmt chunk"));
    }
    let n = count_samples(&format, to - from);
    if n == 0 {
        let samples: Vec<i64> = Vec::new();
        assert(ints(samples@) =~= sample_values(
            format,
            bytes@.subrange(from as int, to as int),
            0,
        ));
        return Ok(Wav { format, samples });
    }
    let supported = (format.format == 1 && (format.bits == 8 || format.bits == 16 || format.bits
        == 24 || format.bits == 32)) || (format.format == 3 && format.bits == 32);
    if !supported {
        let text = name.to_owned().concat(": unsupported wav format (format ").concat(
            decimal_string(format.format as u64).as_str(),
        ).concat(", ").concat(decimal_string(format.bits as u64).as_str()).concat(
            " bits); supported: PCM 8/16/24/32-bit and 32-bit float",
        );
        return Err(SkadooshError::Other(text));
    }
    Ok(Wav { format, samples: read_samples(&format, bytes, from, to, n) })
}

// ---------------------------------------------------------------------------
// Laws
// ---------------------------------------------------------------------------

proof fn lemma_sample_bytes(s: i16)
    ensures
        sample_bytes(s).len() == 2,
        signed_le(sample_bytes(s)) == s,
{
    reveal_with_fuel(crate::bytes::capacity, 3);
    let v: nat = if s < 0 {
        (s + 65_536) as nat
    } else {
        s as nat
    };
    crate::bytes::law_bytes_round_trip(v, 2);
}

proof fn lemma_all_sample_bytes(samples: Seq<i16>, i: int)
    requires
        0 <= i < samples.len(),
    ensures
        all_sample_bytes(samples).len() == 2 * samples.len(),
        all_sample_bytes(samples).subrange(2 * i, 2 * i + 2) == sample_bytes(samples[i]),
    decreases samples.len(),
{
    let below = samples.drop_last();
    lemma_sample_bytes(samples.last());
    if below.len() == 0 {
        assert(all_sample_bytes(below) =~= Seq::empty());
        assert(all_sample_bytes(samples).subrange(0, 2) =~= sample_bytes(samples[0]));
    } else if i < below.len() {
        lemma_all_sample_bytes(below, i);
        assert(all_sample_bytes(samples).subrange(2 * i, 2 * i + 2) =~= all_sample_bytes(
            below,
        ).subrange(2 * i, 2 * i + 2));
    } else {
        lemma_all_sample_bytes(below, 0);
        assert(all_sample_bytes(samples).subrange(2 * i, 2 * i + 2) =~= sample_bytes(
            samples.last(),
        ));
    }
}

proof fn lemma_header(n: nat, rate: u32)
    requires
        36 + 2 * n <= u32::MAX,
        2 * rate <= u32::MAX,
    ensures
        ({
            let h = header(n, rate);
            &&& h.len() == 44
            &&& h.subrange(0, 4) == riff()
            &&& h.subrange(8, 12) == wave()
            &&& h.subrange(12, 16) == fmt_id()
            &&& le(h.subrange(16, 20)) == 16
            &&& le(h.subrange(20, 22)) == 1
            &&& le(h.subrange(22, 24)) == 1
            &&& le(h.subrange(24, 28)) == rate
            &&& le(h.subrange(34, 36)) == 16
            &&& h.subrange(36, 40) == data_id()
            &&& le(h.subrange(40, 44)) == 2 * n
        }),
{
    reveal_with_fuel(crate::bytes::capacity, 5);
    crate::bytes::law_bytes_round_trip(36 + 2 * n, 4);
    crate::bytes::law_bytes_round_trip(16, 4);
    crate::bytes::law_bytes_round_trip(1, 2);
    crate::bytes::law_bytes_round_trip(rate as nat, 4);
    crate::bytes::law_bytes_round_trip(2 * (rate as nat), 4);
    crate::bytes::law_bytes_round_trip(2, 2);
    crate::bytes::law_bytes_round_trip(16, 2);
    crate::bytes::law_bytes_round_trip(2 * n, 4);
    let h = header(n, rate);
    assert(h.subrange(0, 4) =~= riff());
    assert(h.subrange(8, 12) =~= wave());
    assert(h.subrange(12, 16) =~= fmt_id());
    assert(h.subrange(16, 20) =~= to_le(16, 4));
    assert(h.subrange(20, 22) =~= to_le(1, 2));
    assert(h.subrange(22, 24) =~= to_le(1, 2));
    assert(h.subrange(24, 28) =~= to_le(rate as nat, 4));
    assert(h.subrange(34, 36) =~= to_le(16, 2));
    assert(h.subrange(36, 40) =~= data_id());
    assert(h.subrange(40, 44) =~= to_le(2 * n, 4));
}

proof fn lemma_two_chunks(f: Seq<u8>, n: nat, rate: u32)
    requires
        f.len() == 44 + 2 * n,
        f.subrange(12, 16) == fmt_id(),
        le(f.subrange(16, 20)) == 16,
        le(f.subrange(20, 22)) == 1,
        le(f.subrange(22, 24)) == 1,
        le(f.subrange(24, 28)) == rate,
        le(f.subrange(34, 36)) == 16,
        f.subrange(36, 40) == data_id(),
        le(f.subrange(40, 44)) == 2 * n,
    ensures
        chunks_from(f, 12, Chunks { fmt: None, data: None }) == (Chunks {
            fmt: Some(WavFormat { format: 1, channels: 1, rate, bits: 16 }),
            data: Some((44int, f.len() as int)),
        }),
{
    let none = Chunks { fmt: None, data: None };
    let body = f.subrange(20, 36);
    assert(body.subrange(0, 2) =~= f.subrange(20, 22));
    assert(body.subrange(2, 4) =~= f.subrange(22, 24));
    assert(body.subrange(4, 8) =~= f.subrange(24, 28));
    assert(body.subrange(14, 16) =~= f.subrange(34, 36));
    let format = WavFormat { format: 1, channels: 1, rate, bits: 16 };
    assert(format_in(body) == format);
    let first = Chunks { fmt: Some(format), data: None };
    assert(next_chunk(f, 12) == 36);
    assert(body_end(f, 12) == 36);
    assert(chunks_from(f, 12, none) == chunks_from(f, 36, first));
    assert(next_chunk(f, 36) == f.len());
    assert(body_end(f, 36) == f.len());
    assert(data_id()[0] != fmt_id()[0]);
}

proof fn lemma_read_samples(samples: Seq<i16>, format: WavFormat)
    requires
        format.format == 1,
        format.bits == 16,
        format.channels == 1,
    ensures
        all_sample_bytes(samples).len() == 2 * samples.len(),
        sample_count(format, 2 * samples.len()) == samples.len(),
        sample_values(format, all_sample_bytes(samples), samples.len()) == samples.map_values(
            |s: i16| s as int,
        ),
{
    let n = samples.len();
    let data = all_sample_bytes(samples);
    if n > 0 {
        lemma_all_sample_bytes(samples, 0);
    }
    assert((2 * n) as int / 2 == n);
    let read = sample_values(format, data, n);
    assert forall|i: int| 0 <= i < n implies #[trigger] read[i] == samples[i] as int by {
        lemma_all_sample_bytes(samples, i);
        lemma_sample_bytes(samples[i]);
        assert(data.subrange(i * 2, i * 2 + 2) == sample_bytes(samples[i]));
    }
    assert(read =~= samples.map_values(|s: i16| s as int));
}

proof fn lemma_header_of_file(h: Seq<u8>, data: Seq<u8>)
    requires
        h.len() == 44,
    ensures
        ({
            let f = h + data;
            &&& f.subrange(0, 4) == h.subrange(0, 4)
            &&& f.subrange(8, 12) == h.subrange(8, 12)
            &&& f.subrange(12, 16) == h.subrange(12, 16)
            &&& f.subrange(16, 20) == h.subrange(16, 20)
            &&& f.subrange(20, 22) == h.subrange(20, 22)
            &&& f.subrange(22, 24) == h.subrange(22, 24)
            &&& f.subrange(24, 28) == h.subrange(24, 28)
            &&& f.subrange(34, 36) == h.subrange(34, 36)
            &&& f.subrange(36, 40) == h.subrange(36, 40)
            &&& f.subrange(40, 44) == h.subrange(40, 44)
            &&& f.subrange(44, f.len() as int) == data
        }),
{
    let f = h + data;
    assert(f.subrange(0, 4) =~= h.subrange(0, 4));
    assert(f.subrange(8, 12) =~= h.subrange(8, 12));
    assert(f.subrange(12, 16) =~= h.subrange(12, 16));
    assert(f.subrange(16, 20) =~= h.subrange(16, 20));
    assert(f.subrange(20, 22) =~= h.subrange(20, 22));
    assert(f.subrange(22, 24) =~= h.subrange(22, 24));
    assert(f.subrange(24, 28) =~= h.subrange(24, 28));
    assert(f.subrange(34, 36) =~= h.subrange(34, 36));
    assert(f.subrange(36, 40) =~= h.subrange(36, 40));
    assert(f.subrange(40, 44) =~= h.subrange(40, 44));
    assert(f.subrange(44, f.len() as int) =~= data);
}

/// What was written is read back: the same rate, and the same samples.
pub proof fn law_written_samples_are_read_back(name: Seq<char>, samples: Seq<i16>, rate: u32)
    requires
        36 + 2 * samples.len() <= u32::MAX,
        2 * rate <= u32::MAX,
        rate > 0,
    ensures
        wav_in(name, wav_file(samples, rate)) == Ok::<(WavFormat, Seq<int>), Seq<char>>(
            (
                WavFormat { format: 1, channels: 1, rate, bits: 16 },
                samples.map_values(|s: i16| s as int),
            ),
        ),
{
    let n = samples.len();
    let h = header(n, rate);
    let data = all_sample_bytes(samples);
    let f = h + data;
    let format = WavFormat { format: 1, channels: 1, rate, bits: 16 };
    lemma_header(n, rate);
    lemma_header_of_file(h, data);
    lemma_read_samples(samples, format);
    lemma_two_chunks(f, n, rate);
}

proof fn lemma_le(b: Seq<u8>)
    ensures
        b.len() == 1 ==> le(b) == b[0],
        b.len() == 2 ==> le(b) == b[0] + 256 * b[1],
        b.len() == 3 ==> le(b) == b[0] + 256 * b[1] + 65_536 * b[2],
        b.len() == 4 ==> le(b) == b[0] + 256 * b[1] + 65_536 * b[2] + 16_777_216 * b[3],
{
    reveal_with_fuel(le, 5);
}

/// What the bytes of a sample stand for: whole numbers in two's complement,
/// low byte first, at 16, 24 and 32 bits; at 8 bits numbers around 128; and
/// for floats their bits.
pub proof fn law_samples_of_every_width(f: WavFormat, b: Seq<u8>)
    requires
        is_supported(f),
        b.len() == f.bits as int / 8,
    ensures
        f.bits == 8 ==> sample_value(f, b) == b[0] - 128,
        f.bits == 16 ==> sample_value(f, b) == b[0] + 256 * b[1] - (if b[1] >= 128 {
            65_536int
        } else {
            0
        }),
        f.bits == 24 ==> sample_value(f, b) == b[0] + 256 * b[1] + 65_536 * b[2] - (if b[2]
            >= 128 {
            16_777_216int
        } else {
            0
        }),
        f.bits == 32 && f.format == 1 ==> sample_value(f, b) == b[0] + 256 * b[1] + 65_536 * b[2]
            + 16_777_216 * b[3] - (if b[3] >= 128 {
            4_294_967_296int
        } else {
            0
        }),
        f.format == 3 ==> sample_value(f, b) == b[0] + 256 * b[1] + 65_536 * b[2] + 16_777_216
            * b[3],
{
    lemma_le(b);
    reveal_with_fuel(crate::bytes::capacity, 5);
}

/// A chunk that is neither `fmt ` nor `data` is passed over, with the byte that
/// pads an odd size.
pub proof fn law_other_chunks_are_passed_over(bytes: Seq<u8>, pos: int, found: Chunks, size: int)
    requires
        0 <= pos,
        pos + 8 <= bytes.len(),
        !(bytes[pos] == 102 && bytes[pos + 1] == 109 && bytes[pos + 2] == 116 && bytes[pos + 3]
            == 32),
        !(bytes[pos] == 100 && bytes[pos + 1] == 97 && bytes[pos + 2] == 116 && bytes[pos + 3]
            == 97),
        size == bytes[pos + 4] + 256 * bytes[pos + 5] + 65_536 * bytes[pos + 6] + 16_777_216
            * bytes[pos + 7],
    ensures
        chunks_from(bytes, pos, found) == chunks_from(
            bytes,
            pos + 8 + (if size % 2 == 0 {
                size
            } else {
                size + 1
            }),
            found,
        ),
{
    let id = bytes.subrange(pos, pos + 4);
    let count = bytes.subrange(pos + 4, pos + 8);
    lemma_le(count);
    assert(id[0] == bytes[pos] && id[1] == bytes[pos + 1] && id[2] == bytes[pos + 2] && id[3]
        == bytes[pos + 3]);
    assert(count[0] == bytes[pos + 4] && count[1] == bytes[pos + 5] && count[2] == bytes[pos + 6]
        && count[3] == bytes[pos + 7]);
    assert(fmt_id()[0] == 102 && fmt_id()[1] == 109 && fmt_id()[2] == 116 && fmt_id()[3] == 32);
    assert(data_id()[0] == 100 && data_id()[1] == 97 && data_id()[2] == 116 && data_id()[3] == 97);
    assert(next_chunk(bytes, pos) == pos + 8 + size + size % 2);
}

/// All whole frames are read, and nothing of a frame that is cut short.
pub proof fn law_whole_frames_are_read(f: WavFormat, len: nat)
    requires
        f.channels > 0,
        f.bits >= 8,
    ensures
        exists|frames: int|
            frames >= 0 && sample_count(f, len) == #[trigger] (frames * f.channels) && frames * (
            f.channels * (f.bits as int / 8)) <= len < (frames + 1) * (f.channels * (f.bits as int
                / 8)),
{
    let width = f.bits as int / 8;
    let frame = width * f.channels;
    assert(frame > 0) by (nonlinear_arith)
        requires
            width > 0,
            f.channels > 0,
            frame == width * f.channels,
    ;
    let frames = len as int / frame;
    assert(f.channels * width == frame) by (nonlinear_arith)
        requires
            frame == width * f.channels,
    ;
    vstd::arithmetic::div_mod::lemma_fundamental_div_mod(len as int, frame);
    vstd::arithmetic::div_mod::lemma_mod_bound(len as int, frame);
    vstd::arithmetic::div_mod::lemma_div_pos_is_pos(len as int, frame);
    assert(frames * frame <= len < (frames + 1) * frame) by (nonlinear_arith)
        requires
            len == frame * frames + len as int % frame,
            0 <= len as int % frame < frame,
    ;
    assert(frames * f.channels >= 0) by (nonlinear_arith)
        requires
            frames >= 0,
    ;
    assert(sample_count(f, len) == frames * f.channels);
}

} // verus!
