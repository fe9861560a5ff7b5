//! Byte encodings of integers and texts.

use crate::runtime::math;
use vstd::prelude::*;
use vstd::utf8::{decode_utf8, encode_utf8, valid_utf8};

verus! {

// ---------------------------------------------------------------------------
// Division with a remainder that is never negative
// ---------------------------------------------------------------------------

fn low_digit(v: i64, base: u64) -> (r: (u64, i64))
    requires
        base == 128 || base == 256,
    ensures
        r.0 == v as int % base as int,
        r.1 == v as int / base as int,
        0 <= r.0 < base,
{
    if v >= 0 {
        let m = v as u64;
        ((m % base), (m / base) as i64)
    } else {
        let m = (-(v + 1)) as u64;
        let low = base - 1 - m % base;
        let rest = -((m / base) as i64) - 1;
        proof {
            let b = base as int;
            let q = m as int / b;
            let k = m as int % b;
            if base == 128 {
                assert(v as int == 128 * (-q - 1) + (127 - k));
            } else {
                assert(v as int == 256 * (-q - 1) + (255 - k));
            }
        }
        (low, rest)
    }
}

// ---------------------------------------------------------------------------
// Little-endian
// ---------------------------------------------------------------------------

/// The `n` lowest bytes of an integer, the lowest first. A negative integer is taken in two's
/// complement.
pub open spec fn le_bytes(v: int, n: nat) -> Seq<u8>
    decreases n,
{
    if n == 0 {
        Seq::empty()
    } else {
        seq![(v % 256) as u8] + le_bytes(v / 256, (n - 1) as nat)
    }
}

/// Appends the `n` lowest bytes of an integer.
pub fn push_le_bytes(buf: &mut Vec<u8>, v: i64, n: usize)
    ensures
        final(buf)@ == old(buf)@ + le_bytes(v as int, n as nat),
{
    let mut rest = v;
    let mut i: usize = 0;
    while i < n
        invariant
            i <= n,
            buf@ + le_bytes(rest as int, (n - i) as nat) == old(buf)@ + le_bytes(
                v as int,
                n as nat,
            ),
        decreases n - i,
    {
        let ghost before = buf@;
        let ghost rv = rest as int;
        let (low, next) = low_digit(rest, 256);
        buf.push(low as u8);
        rest = next;
        i = i + 1;
        assert(buf@ + le_bytes(rest as int, (n - i) as nat) =~= before + (seq![(rv % 256) as u8]
            + le_bytes(rv / 256, (n - i) as nat)));
    }
    assert(buf@ + Seq::<u8>::empty() =~= buf@);
}

/// The number that bytes write, the lowest first.
pub open spec fn le_value(bytes: Seq<u8>) -> int
    decreases bytes.len(),
{
    if bytes.len() == 0 {
        0
    } else {
        bytes[0] + 256 * le_value(bytes.skip(1))
    }
}

/// How many numbers so many bytes can write.
pub open spec fn byte_range(n: nat) -> int
    decreases n,
{
    if n == 0 {
        1
    } else {
        256 * byte_range((n - 1) as nat)
    }
}

proof fn lemma_byte_range_positive(n: nat)
    ensures
        byte_range(n) > 0,
    decreases n,
{
    if n > 0 {
        lemma_byte_range_positive((n - 1) as nat);
    }
}

/// The bytes of an integer read back as that integer, up to a multiple of the range of so many
/// bytes.
pub proof fn law_le_bytes_read_back(v: int, n: nat)
    ensures
        le_bytes(v, n).len() == n,
        le_value(le_bytes(v, n)) == v % byte_range(n),
    decreases n,
{
    if n > 0 {
        let k = (n - 1) as nat;
        law_le_bytes_read_back(v / 256, k);
        lemma_byte_range_positive(k);
        let all = le_bytes(v, n);
        assert(all.skip(1) =~= le_bytes(v / 256, k));
        assert(all[0] == v % 256);
        let d = byte_range(k);
        let q = v / 256;
        let e = q / d;
        let r = v % 256 + 256 * (q % d);
        assert(q == d * e + q % d && 0 <= q % d < d) by (nonlinear_arith)
            requires
                d > 0,
                e == q / d,
        ;
        assert(v == (256 * d) * e + r) by (nonlinear_arith)
            requires
                v == 256 * q + v % 256,
                q == d * e + q % d,
                r == v % 256 + 256 * (q % d),
        ;
        assert(0 <= r < 256 * d);
        vstd::arithmetic::div_mod::lemma_fundamental_div_mod_converse(v, 256 * d, e, r);
    } else {
        assert(v % 1 == 0);
    }
}

// ---------------------------------------------------------------------------
// LEB128
// ---------------------------------------------------------------------------

/// A natural number in groups of seven bits, the lowest first; all bytes but the last have their
/// highest bit set.
pub open spec fn leb128_u(v: nat) -> Seq<u8>
    decreases v,
{
    if v < 128 {
        seq![v as u8]
    } else {
        seq![(v % 128 + 128) as u8] + leb128_u(v / 128)
    }
}

/// An integer in groups of seven bits of its two's complement, the lowest first; all bytes but
/// the last have their highest bit set, and the sign is the second highest bit of the last.
pub open spec fn leb128_s(v: int) -> Seq<u8>
    decreases math::magnitude(v),
{
    if -64 <= v < 64 {
        seq![(v % 128) as u8]
    } else {
        seq![(v % 128 + 128) as u8] + leb128_s(v / 128)
    }
}

/// Appends a natural number as LEB128.
pub fn push_leb128_u(buf: &mut Vec<u8>, val: u64)
    ensures
        final(buf)@ == old(buf)@ + leb128_u(val as nat),
{
    let mut v = val;
    loop
        invariant
            buf@ + leb128_u(v as nat) == old(buf)@ + leb128_u(val as nat),
        decreases v,
    {
        let ghost before = buf@;
        let low = (v % 128) as u8;
        let rest = v / 128;
        if rest == 0 {
            buf.push(low);
            assert(buf@ =~= before + seq![low]);
            return;
        }
        buf.push(low + 128);
        assert(buf@ + leb128_u(rest as nat) =~= before + (seq![(low + 128) as u8] + leb128_u(
            rest as nat,
        )));
        v = rest;
    }
}

/// Appends an integer as LEB128.
pub fn push_leb128_s(buf: &mut Vec<u8>, val: i64)
    ensures
        final(buf)@ == old(buf)@ + leb128_s(val as int),
{
    let mut v = val;
    loop
        invariant
            buf@ + leb128_s(v as int) == old(buf)@ + leb128_s(val as int),
        decreases math::magnitude(v as int),
    {
        let ghost before = buf@;
        let (digit, rest) = low_digit(v, 128);
        let low = digit as u8;
        let done = (rest == 0 && low < 64) || (rest == -1 && low >= 64);
        assert(done == (-64 <= v < 64));
        if done {
            buf.push(low);
            assert(buf@ =~= before + seq![low]);
            return;
        }
        buf.push(low + 128);
        assert(buf@ + leb128_s(rest as int) =~= before + (seq![(low + 128) as u8] + leb128_s(
            rest as int,
        )));
        v = rest;
    }
}

/// The natural number at the beginning of bytes in LEB128, and how many bytes it takes.
pub open spec fn leb128_u_read(bytes: Seq<u8>) -> (int, nat)
    decreases bytes.len(),
{
    if bytes.len() == 0 {
        (0, 0)
    } else if bytes[0] < 128 {
        (bytes[0] as int, 1)
    } else {
        let (v, n) = leb128_u_read(bytes.skip(1));
        (bytes[0] - 128 + 128 * v, n + 1)
    }
}

/// The integer at the beginning of bytes in LEB128, and how many bytes it takes.
pub open spec fn leb128_s_read(bytes: Seq<u8>) -> (int, nat)
    decreases bytes.len(),
{
    if bytes.len() == 0 {
        (0, 0)
    } else if bytes[0] < 64 {
        (bytes[0] as int, 1)
    } else if bytes[0] < 128 {
        (bytes[0] - 128, 1)
    } else {
        let (v, n) = leb128_s_read(bytes.skip(1));
        (bytes[0] - 128 + 128 * v, n + 1)
    }
}

/// A natural number in LEB128 reads back, whatever stands behind it.
pub proof fn law_leb128_u_reads_back(v: nat, tail: Seq<u8>)
    ensures
        leb128_u_read(leb128_u(v) + tail) == (v as int, leb128_u(v).len()),
    decreases v,
{
    let all = leb128_u(v) + tail;
    if v >= 128 {
        law_leb128_u_reads_back(v / 128, tail);
        assert(all.skip(1) =~= leb128_u(v / 128) + tail);
        assert(all[0] == v % 128 + 128);
    } else {
        assert(all[0] == v);
    }
}

/// An integer in LEB128 reads back, whatever stands behind it.
pub proof fn law_leb128_s_reads_back(v: int, tail: Seq<u8>)
    ensures
        leb128_s_read(leb128_s(v) + tail) == (v, leb128_s(v).len()),
    decreases math::magnitude(v),
{
    let all = leb128_s(v) + tail;
    if -64 <= v < 64 {
        assert(all[0] == v % 128);
    } else {
        law_leb128_s_reads_back(v / 128, tail);
        assert(all.skip(1) =~= leb128_s(v / 128) + tail);
        assert(all[0] == v % 128 + 128);
    }
}

// ---------------------------------------------------------------------------
// Texts
// ---------------------------------------------------------------------------

/// What `String::from_utf8_lossy` makes of bytes.
pub uninterp spec fn lossy_text(bytes: Seq<u8>) -> Seq<char>;

/// `String::from_utf8_lossy`: bytes that are UTF-8 are decoded. How other bytes are replaced
/// depends on the bytes alone and is not restated.
#[verifier::external_body]
pub(crate) fn text_of_bytes(bytes: &[u8]) -> (r: String)
    ensures
        r@ == lossy_text(bytes@),
        valid_utf8(bytes@) ==> r@ == decode_utf8(bytes@),
{
    String::from_utf8_lossy(bytes).into_owned()
}

/// The text of bytes that a program hands over; bytes that are not UTF-8 are replaced.
pub fn bytes_to_string(bytes: &[u8]) -> (r: String)
    ensures
        r@ == lossy_text(bytes@),
        valid_utf8(bytes@) ==> r@ == decode_utf8(bytes@),
{
    text_of_bytes(bytes)
}

/// The number of bytes of a text.
pub fn byte_len(s: &str) -> (r: usize)
    ensures
        r == encode_utf8(s@).len(),
{
    s.as_bytes().len()
}

/// Appends the bytes of a text.
pub fn push_text_bytes(buf: &mut Vec<u8>, s: &str)
    ensures
        final(buf)@ == old(buf)@ + encode_utf8(s@),
{
    let bytes = s.as_bytes();
    let mut i: usize = 0;
    assert(buf@ + bytes@.take(0) =~= buf@);
    while i < bytes.len()
        invariant
            i <= bytes.len(),
            buf@ == old(buf)@ + bytes@.take(i as int),
        decreases bytes.len() - i,
    {
        buf.push(bytes[i]);
        i = i + 1;
        assert(bytes@.take(i as int) =~= bytes@.take(i - 1).push(bytes@[i - 1]));
        assert(buf@ =~= old(buf)@ + bytes@.take(i as int));
    }
    assert(bytes@.take(i as int) =~= bytes@);
}

} // verus!
