//! Unsigned varint codec used by the index persistence format.
//!
//! A value is stored little-endian in base 128, seven bits per byte; the
//! high bit of a byte says whether another byte follows.  Encoding is
//! canonical (no redundant trailing groups).  Decoding reads at most eight
//! bytes and treats the eighth byte as final even if its continuation bit
//! is set, so only values below `2^56` round-trip; the index codec states
//! that bound where it matters.

use vstd::prelude::*;


verus! {

/// Number of bytes the varint encoding of `x` occupies: one base-128 digit
/// per byte, at least one byte.
pub open spec fn spec_vlen(x: u64) -> int
    decreases x,
{
    if x < 128 {
        1
    } else {
        1 + spec_vlen(x / 128)
    }
}

/// The bytes of the varint encoding of `x`.
pub open spec fn spec_venc(x: u64) -> Seq<u8>
    decreases x,
{
    if x < 128 {
        seq![x as u8]
    } else {
        seq![(x % 128 + 128) as u8] + spec_venc(x / 128)
    }
}

/// One decoding step chain: reads base-128 digits at `pos`, scaled by `m`,
/// accumulating onto `acc`, for at most `rem` further bytes.  Mirrors the
/// bounded loop of the decoder: when `rem` runs out the value read so far
/// is returned even if the last byte asked for a continuation.
pub open spec fn spec_vdec_from(data: Seq<u8>, pos: int, rem: nat, acc: int, m: int) -> Option<
    (int, int),
>
    decreases rem,
{
    if rem == 0 {
        Some((acc, pos))
    } else if pos < 0 || pos >= data.len() {
        None
    } else {
        let b = data[pos];
        let acc2 = acc + m * ((b % 128) as int);
        if b < 128 {
            Some((acc2, pos + 1))
        } else {
            spec_vdec_from(data, pos + 1, (rem - 1) as nat, acc2, m * 128)
        }
    }
}

/// Decoding a varint at `pos`: the value and the position just past it, or
/// `None` if the bytes run out within the eight-byte window.
pub open spec fn spec_vdec(data: Seq<u8>, pos: int) -> Option<(int, int)> {
    spec_vdec_from(data, pos, 8, 0, 1)
}

/// Relies on desert::varint::length: the byte count of the canonical
/// base-128 encoding of `x`.
#[verifier::external_body]
pub fn varint_length(x: u64) -> (n: usize)
    ensures
        n as int == spec_vlen(x),
{
    desert::varint::length(x)
}

/// Relies on desert::varint::encode: writes the canonical base-128
/// encoding of `x` into the buffer starting at `pos`, leaving all other
/// bytes unchanged, and returns the number of bytes written.
#[verifier::external_body]
pub fn varint_encode(x: u64, buf: &mut Vec<u8>, pos: usize) -> (n: usize)
    requires
        pos + spec_vlen(x) <= old(buf)@.len(),
    ensures
        n as int == spec_vlen(x),
        final(buf)@.len() == old(buf)@.len(),
        final(buf)@ == old(buf)@.subrange(0, pos as int) + spec_venc(x) + old(buf)@.subrange(
            pos + spec_vlen(x),
            old(buf)@.len() as int,
        ),
{
    match desert::varint::encode(x, &mut buf[pos..]) {
        Ok(n) => n,
        Err(_) => 0,
    }
}

/// Relies on desert::varint::decode: reads a base-128 value at `pos`,
/// consuming at most eight bytes, and reports the value and the count of
/// bytes consumed; fails only when the buffer ends inside the window.
#[verifier::external_body]
pub fn varint_decode(buf: &[u8], pos: usize) -> (r: Option<(u64, usize)>)
    requires
        pos <= buf@.len(),
    ensures
        match spec_vdec(buf@, pos as int) {
            Some(vn) => r matches Some(p) && p.0 as int == vn.0 && pos + p.1 == vn.1,
            None => r is None,
        },
{
    match desert::varint::decode(&buf[pos..]) {
        Ok((n, v)) => Some((v, n)),
        Err(_) => None,
    }
}

/// The encoded length grows with the value only through its digit count;
/// it never exceeds ten bytes, and stays within eight for values below
/// `2^56`.
pub proof fn lemma_vlen_bounds(x: u64)
    ensures
        1 <= spec_vlen(x) <= 10,
        x < 0x100_0000_0000_0000 ==> spec_vlen(x) <= 8,
        spec_venc(x).len() == spec_vlen(x),
{
    lemma_venc_len(x);
    lemma_pow128_bounds();
    lemma_vlen_pow(x, 10);
    if x < 0x100_0000_0000_0000 {
        lemma_vlen_pow(x, 8);
    }
}

proof fn lemma_venc_len(x: u64)
    ensures
        spec_venc(x).len() == spec_vlen(x),
        1 <= spec_vlen(x),
    decreases x,
{
    if x >= 128 {
        lemma_venc_len(x / 128);
    }
}

proof fn lemma_vlen_pow(x: u64, n: nat)
    requires
        n >= 1,
        (x as int) < pow128(n),
    ensures
        spec_vlen(x) <= n,
    decreases n,
{
    if x >= 128 {
        assert((x as int) == 128 * ((x as int) / 128) + ((x as int) % 128)) by {
            vstd::arithmetic::div_mod::lemma_fundamental_div_mod(x as int, 128);
        }
        assert((x as int) / 128 < pow128((n - 1) as nat)) by (nonlinear_arith)
            requires
                (x as int) < 128 * pow128((n - 1) as nat),
                (x as int) == 128 * ((x as int) / 128) + ((x as int) % 128),
                0 <= (x as int) % 128 < 128,
        ;
        lemma_vlen_pow(x / 128, (n - 1) as nat);
    }
}

proof fn lemma_vdec_of_venc_from(data: Seq<u8>, pos: int, x: u64, rem: nat, acc: int, m: int)
    requires
        0 <= pos,
        pos + spec_vlen(x) <= data.len(),
        data.subrange(pos, pos + spec_vlen(x)) == spec_venc(x),
        spec_vlen(x) <= rem,
        m >= 1,
    ensures
        spec_vdec_from(data, pos, rem, acc, m) == Some((acc + m * x, pos + spec_vlen(x))),
    decreases x,
{
    lemma_vlen_bounds(x);
    assert(data[pos] == spec_venc(x)[0]);
    if x < 128 {
        assert(data[pos] == x as u8);
        assert(acc + m * ((x as u8 % 128) as int) == acc + m * x);
    } else {
        let b: u8 = (x % 128 + 128) as u8;
        assert(data[pos] == b);
        let tail = x / 128;
        lemma_vlen_bounds(tail);
        assert(data.subrange(pos + 1, pos + 1 + spec_vlen(tail)) == spec_venc(tail)) by {
            assert forall|i: int| 0 <= i < spec_vlen(tail) implies data.subrange(
                pos + 1,
                pos + 1 + spec_vlen(tail),
            )[i] == spec_venc(tail)[i] by {
                assert(data.subrange(pos, pos + spec_vlen(x))[i + 1] == spec_venc(x)[i + 1]);
            }
            assert(data.subrange(pos + 1, pos + 1 + spec_vlen(tail)) =~= spec_venc(tail));
        }
        lemma_vdec_of_venc_from(data, pos + 1, tail, (rem - 1) as nat, acc + m * ((b % 128) as int), m * 128);
        assert((b % 128) as int == x % 128);
        assert(x as int == 128 * ((x / 128) as int) + ((x % 128) as int)) by {
            vstd::arithmetic::div_mod::lemma_fundamental_div_mod(x as int, 128);
        }
        assert(acc + m * ((x % 128) as int) + (m * 128) * ((x / 128) as int) == acc + m * x) by (nonlinear_arith)
            requires
                x as int == 128 * ((x / 128) as int) + ((x % 128) as int),
        ;
    }
}

/// Round trip: decoding the canonical encoding of a value below `2^56`,
/// wherever it stands in a larger buffer, yields that value back and stops
/// exactly past it.
pub proof fn lemma_vdec_of_venc(data: Seq<u8>, pos: int, x: u64)
    requires
        0 <= pos,
        pos + spec_vlen(x) <= data.len(),
        data.subrange(pos, pos + spec_vlen(x)) == spec_venc(x),
        spec_vlen(x) <= 8,
    ensures
        spec_vdec(data, pos) == Some((x as int, pos + spec_vlen(x))),
{
    lemma_vdec_of_venc_from(data, pos, x, 8, 0, 1);
}

/// A decoded value always fits in 56 bits and consumes between one and
/// eight bytes, never reading past the end of the buffer.
pub proof fn lemma_vdec_range(data: Seq<u8>, pos: int)
    requires
        0 <= pos <= data.len(),
    ensures
        match spec_vdec(data, pos) {
            Some(vn) => 0 <= vn.0 < 0x100_0000_0000_0000 && pos < vn.1 <= data.len(),
            None => true,
        },
{
    lemma_vdec_from_range(data, pos, 8, 0, 1);
}

proof fn lemma_vdec_from_range(data: Seq<u8>, pos: int, rem: nat, acc: int, m: int)
    requires
        0 <= pos <= data.len(),
        rem <= 8,
        m == pow128((8 - rem) as nat),
        0 <= acc < m,
    ensures
        match spec_vdec_from(data, pos, rem, acc, m) {
            Some(vn) => 0 <= vn.0 < 0x100_0000_0000_0000 && pos <= vn.1 <= data.len() && (rem > 0
                ==> pos < vn.1),
            None => true,
        },
    decreases rem,
{
    lemma_pow128_bounds();
    lemma_pow128_monotone((8 - rem) as nat);
    if rem == 0 {
        assert(acc < 0x100_0000_0000_0000);
    } else if pos < data.len() {
        let b = data[pos];
        let d = (b % 128) as int;
        let acc2 = acc + m * d;
        assert(0 <= acc2 < m * 128) by (nonlinear_arith)
            requires
                acc2 == acc + m * d,
                0 <= d <= 127,
                0 <= acc < m,
        ;
        if b < 128 {
            assert(m * 128 <= pow128(8)) by {
                lemma_pow128_le(((8 - rem) + 1) as nat, 8);
            }
            assert(acc2 < 0x100_0000_0000_0000);
        } else {
            assert(pow128((8 - (rem - 1)) as nat) == m * 128);
            lemma_vdec_from_range(data, pos + 1, (rem - 1) as nat, acc2, m * 128);
        }
    }
}

proof fn lemma_pow128_monotone(n: nat)
    ensures
        pow128(n) >= 1,
    decreases n,
{
    if n > 0 {
        lemma_pow128_monotone((n - 1) as nat);
    }
}

proof fn lemma_pow128_le(a: nat, b: nat)
    requires
        a <= b,
    ensures
        pow128(a) <= pow128(b),
    decreases b,
{
    lemma_pow128_monotone(a);
    if a < b {
        lemma_pow128_le(a, (b - 1) as nat);
        assert(pow128(b) == 128 * pow128((b - 1) as nat));
    }
}

/// `128^n`, used only to bound decoded varint values.
pub open spec fn pow128(n: nat) -> int
    decreases n,
{
    if n == 0 {
        1
    } else {
        128 * pow128((n - 1) as nat)
    }
}

proof fn lemma_pow128_bounds()
    ensures
        pow128(0) == 1,
        pow128(1) == 128,
        pow128(2) == 0x4000,
        pow128(3) == 0x20_0000,
        pow128(4) == 0x1000_0000,
        pow128(5) == 0x8_0000_0000,
        pow128(6) == 0x400_0000_0000,
        pow128(7) == 0x2_0000_0000_0000,
        pow128(8) == 0x100_0000_0000_0000,
        pow128(9) == 0x80_0000_0000_0000_00,
        pow128(10) == 0x4000_0000_0000_0000_00,
{
}

/// Appends the canonical encoding of `x` to `out`.
pub fn varint_append(x: u64, out: &mut Vec<u8>) -> (n: usize)
    requires
        old(out)@.len() + spec_vlen(x) <= usize::MAX,
    ensures
        n as int == spec_vlen(x),
        final(out)@ == old(out)@ + spec_venc(x),
{
    let start = out.len();
    let n = varint_length(x);
    proof {
        lemma_vlen_bounds(x);
    }
    let mut i: usize = 0;
    while i < n
        invariant
            out@ == old(out)@ + Seq::new(i as nat, |j: int| 0u8),
            i <= n,
            n as int == spec_vlen(x),
            old(out)@.len() + spec_vlen(x) <= usize::MAX,
        decreases n - i,
    {
        out.push(0u8);
        proof {
            assert(out@ =~= old(out)@ + Seq::new((i + 1) as nat, |j: int| 0u8));
        }
        i = i + 1;
    }
    let written = varint_encode(x, out, start);
    proof {
        assert(out@ =~= old(out)@ + spec_venc(x));
    }
    written
}

} // verus!
