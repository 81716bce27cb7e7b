//! Little-endian integers in byte strings, and UTF-8 decoding.

use vstd::prelude::*;

verus! {

/// The integer that `s` holds, least significant byte first.
pub open spec fn le(s: Seq<u8>) -> nat
    decreases s.len(),
{
    if s.len() == 0 {
        0
    } else {
        s[0] as nat + 256 * le(s.subrange(1, s.len() as int))
    }
}

/// The integer in the `n` bytes at `at`; `None` where they reach past the end.
pub open spec fn le_at(s: Seq<u8>, at: int, n: int) -> Option<nat> {
    if 0 <= at && at + n <= s.len() {
        Some(le(s.subrange(at, at + n)))
    } else {
        None
    }
}

/// The `n` low bytes of `v`, least significant first.
pub open spec fn to_le(v: nat, n: nat) -> Seq<u8>
    decreases n,
{
    if n == 0 {
        Seq::empty()
    } else {
        seq![(v % 256) as u8] + to_le(v / 256, (n - 1) as nat)
    }
}

/// How many integers `n` bytes can hold.
pub open spec fn capacity(n: nat) -> nat
    decreases n,
{
    if n == 0 {
        1
    } else {
        256 * capacity((n - 1) as nat)
    }
}

/// Reading back the bytes of an integer that fits gives the integer.
pub proof fn law_bytes_round_trip(v: nat, n: nat)
    requires
        v < capacity(n),
    ensures
        to_le(v, n).len() == n,
        le(to_le(v, n)) == v,
    decreases n,
{
    if n > 0 {
        law_bytes_round_trip(v / 256, (n - 1) as nat);
        let rest = to_le(v / 256, (n - 1) as nat);
        assert(to_le(v, n).subrange(1, n as int) =~= rest);
    }
}

proof fn lemma_le_2(s: Seq<u8>)
    requires
        s.len() == 2,
    ensures
        le(s) == s[0] + 256 * s[1],
{
    reveal_with_fuel(le, 3);
    assert(s.subrange(1, 2)[0] == s[1]);
}

proof fn lemma_le_4(s: Seq<u8>)
    requires
        s.len() == 4,
    ensures
        le(s) == le(s.subrange(0, 2)) + 65536 * le(s.subrange(2, 4)),
{
    reveal_with_fuel(le, 3);
    let a = s.subrange(1, 4);
    let b = a.subrange(1, 3);
    assert(b =~= s.subrange(2, 4));
    assert(s.subrange(0, 2).subrange(1, 2)[0] == s[1]);
    assert(a[0] == s[1]);
}

proof fn lemma_le_8(s: Seq<u8>)
    requires
        s.len() == 8,
    ensures
        le(s) == le(s.subrange(0, 4)) + 0x1_0000_0000 * le(s.subrange(4, 8)),
{
    reveal_with_fuel(le, 5);
    let t = s.subrange(0, 4);
    let a = s.subrange(1, 8);
    let b = a.subrange(1, 7);
    let c = b.subrange(1, 6);
    let d = c.subrange(1, 5);
    assert(d =~= s.subrange(4, 8));
    let t1 = t.subrange(1, 4);
    let t2 = t1.subrange(1, 3);
    let t3 = t2.subrange(1, 2);
    assert(a[0] == s[1] && b[0] == s[2] && c[0] == s[3]);
    assert(t1[0] == s[1] && t2[0] == s[2] && t3[0] == s[3]);
}

/// The 16-bit integer at `at`.
pub fn u16_le(buf: &[u8], at: usize) -> (r: Option<u16>)
    ensures
        match r {
            Some(v) => le_at(buf@, at as int, 2) == Some(v as nat),
            None => le_at(buf@, at as int, 2) is None,
        },
{
    if at > buf.len() || buf.len() - at < 2 {
        return None;
    }
    proof {
        lemma_le_2(buf@.subrange(at as int, at + 2));
    }
    Some(buf[at] as u16 + 256 * (buf[at + 1] as u16))
}

/// The 32-bit integer at `at`.
pub fn u32_le(buf: &[u8], at: usize) -> (r: Option<u32>)
    ensures
        match r {
            Some(v) => le_at(buf@, at as int, 4) == Some(v as nat),
            None => le_at(buf@, at as int, 4) is None,
        },
{
    if at > buf.len() || buf.len() - at < 4 {
        return None;
    }
    let low = u16_le(buf, at).unwrap();
    let high = u16_le(buf, at + 2).unwrap();
    proof {
        let s = buf@.subrange(at as int, at + 4);
        lemma_le_4(s);
        assert(s.subrange(0, 2) =~= buf@.subrange(at as int, at + 2));
        assert(s.subrange(2, 4) =~= buf@.subrange(at + 2, at + 4));
    }
    Some(low as u32 + 65536 * (high as u32))
}

/// The 64-bit integer at `at`.
pub fn u64_le(buf: &[u8], at: usize) -> (r: Option<u64>)
    ensures
        match r {
            Some(v) => le_at(buf@, at as int, 8) == Some(v as nat),
            None => le_at(buf@, at as int, 8) is None,
        },
{
    if at > buf.len() || buf.len() - at < 8 {
        return None;
    }
    let low = u32_le(buf, at).unwrap();
    let high = u32_le(buf, at + 4).unwrap();
    proof {
        let s = buf@.subrange(at as int, at + 8);
        lemma_le_8(s);
        assert(s.subrange(0, 4) =~= buf@.subrange(at as int, at + 4));
        assert(s.subrange(4, 8) =~= buf@.subrange(at + 4, at + 8));
    }
    Some(low as u64 + 0x1_0000_0000 * (high as u64))
}

/// Appends the `n` low bytes of `v`, least significant first.
pub fn push_le(out: &mut Vec<u8>, v: u64, n: usize)
    ensures
        final(out)@ == old(out)@ + to_le(v as nat, n as nat),
    decreases n,
{
    if n == 0 {
        assert(out@ =~= old(out)@ + to_le(v as nat, 0));
    } else {
        out.push((v % 256) as u8);
        push_le(out, v / 256, n - 1);
        assert(out@ =~= old(out)@ + to_le(v as nat, n as nat));
    }
}

/// Whether `buf` begins with `prefix`.
pub open spec fn begins_with(buf: Seq<u8>, prefix: Seq<u8>) -> bool {
    prefix.len() <= buf.len() && buf.take(prefix.len() as int) == prefix
}

/// Whether the bytes of `buf` at `at` are `want`.
pub fn bytes_at(buf: &[u8], at: usize, want: &Vec<u8>) -> (r: bool)
    ensures
        r == (at + want@.len() <= buf@.len() && buf@.subrange(at as int, at + want@.len())
            == want@),
{
    if at > buf.len() || buf.len() - at < want.len() {
        return false;
    }
    let len: usize = buf.len();
    let mut i: usize = 0;
    while i < want.len()
        invariant
            i <= want@.len(),
            at + want@.len() <= buf@.len() == len,
            forall|k: int| 0 <= k < i ==> buf@[at + k] == want@[k],
        decreases want@.len() - i,
    {
        if buf[at + i] != want[i] {
            assert(buf@.subrange(at as int, at + want@.len())[i as int] != want@[i as int]);
            return false;
        }
        i += 1;
    }
    assert(buf@.subrange(at as int, at + want@.len()) =~= want@);
    true
}

/// What is wrong with a byte string that is not UTF-8, in words.
pub uninterp spec fn utf8_fault(bytes: Seq<u8>) -> Seq<char>;

/// `std::str::from_utf8`: the text of a byte string that is valid UTF-8, an
/// error for any other. The words of the error are a function of the bytes
/// alone, which `utf8_fault` names.
#[verifier::external_body]
pub(crate) fn decode_strict(bytes: &[u8]) -> (r: Result<String, String>)
    ensures
        match r {
            Ok(s) => vstd::utf8::valid_utf8(bytes@) && s@ == vstd::utf8::decode_utf8(bytes@),
            Err(e) => !vstd::utf8::valid_utf8(bytes@) && e@ == utf8_fault(bytes@),
        },
{
    std::str::from_utf8(bytes).map(|s| s.to_string()).map_err(|e| e.to_string())
}

/// A copy of `buf[from..to]`.
pub fn copy_range(buf: &[u8], from: usize, to: usize) -> (r: Vec<u8>)
    requires
        from <= to <= buf@.len(),
    ensures
        r@ == buf@.subrange(from as int, to as int),
{
    let mut out: Vec<u8> = Vec::new();
    let mut i: usize = from;
    while i < to
        invariant
            from <= i <= to <= buf@.len(),
            out@ =~= buf@.subrange(from as int, i as int),
        decreases to - i,
    {
        out.push(buf[i]);
        i += 1;
    }
    out
}

/// The low byte stands first: taken away, what is left is the rest of the
/// number, 256 times smaller.
pub proof fn law_low_byte_stands_first(s: Seq<u8>)
    requires
        s.len() > 0,
    ensures
        le(s) % 256 == s[0],
        le(s) / 256 == le(s.subrange(1, s.len() as int)),
{
}

} // verus!
