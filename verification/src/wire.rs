//! Little-endian integers, padding and truncation as the X11 wire uses them.

use vstd::prelude::*;

verus! {

/// The two bytes of `v`, the low one first.
pub open spec fn le16(v: int) -> Seq<u8> {
    seq![(v % 256) as u8, (v / 256 % 256) as u8]
}

/// The four bytes of `v`, the low one first.
pub open spec fn le32(v: int) -> Seq<u8> {
    seq![
        (v % 256) as u8,
        (v / 256 % 256) as u8,
        (v / 65536 % 256) as u8,
        (v / 16777216 % 256) as u8,
    ]
}

/// `x` modulo 2^16, as a signed value.
pub open spec fn wrapped_i16(x: int) -> int {
    (x + 32768) % 65536 - 32768
}

/// `x` modulo 2^16, as an unsigned value.
pub open spec fn wrapped_u16(x: int) -> int {
    x % 65536
}

/// The unsigned integer in the two bytes of `s` at `i`.
pub open spec fn u16_at(s: Seq<u8>, i: int) -> int {
    s[i] + 256 * s[i + 1]
}

/// The signed integer in the two bytes of `s` at `i`.
pub open spec fn i16_at(s: Seq<u8>, i: int) -> int {
    wrapped_i16(u16_at(s, i))
}

/// The unsigned integer in the four bytes of `s` at `i`.
pub open spec fn u32_at(s: Seq<u8>, i: int) -> int {
    s[i] + 256 * s[i + 1] + 65536 * s[i + 2] + 16777216 * s[i + 3]
}

/// `len` rounded up to a multiple of four.
pub open spec fn padded(len: int) -> int {
    (len + 3) / 4 * 4
}

/// Truncates to 16 bits, keeping the sign bit.
pub fn wrap_i16(x: i64) -> (r: i16)
    requires
        -0x1_0000_0000_0000 <= x <= 0x1_0000_0000_0000,
    ensures
        r == wrapped_i16(x as int),
{
    let shifted: i64 = x + 32768;
    proof {
        vstd::arithmetic::div_mod::lemma_mod_multiples_vanish(
            0x2_0000_0000,
            shifted as int,
            65536,
        );
    }
    let y: i64 = (65536 * 0x2_0000_0000 + shifted) % 65536;
    (y - 32768) as i16
}

/// Truncates to 16 bits.
pub fn wrap_u16(x: i64) -> (r: u16)
    requires
        -0x1_0000_0000_0000 <= x <= 0x1_0000_0000_0000,
    ensures
        r == wrapped_u16(x as int),
{
    proof {
        vstd::arithmetic::div_mod::lemma_mod_multiples_vanish(0x2_0000_0000, x as int, 65536);
    }
    let y: i64 = (65536 * 0x2_0000_0000 + x) % 65536;
    y as u16
}

pub fn read_u16(bytes: &[u8], at: usize) -> (r: u16)
    requires
        at + 2 <= bytes@.len(),
    ensures
        r == u16_at(bytes@, at as int),
{
    bytes[at] as u16 + 256 * (bytes[at + 1] as u16)
}

pub fn read_i16(bytes: &[u8], at: usize) -> (r: i16)
    requires
        at + 2 <= bytes@.len(),
    ensures
        r == i16_at(bytes@, at as int),
{
    let v: u16 = read_u16(bytes, at);
    wrap_i16(v as i64)
}

pub fn read_u32(bytes: &[u8], at: usize) -> (r: u32)
    requires
        at + 4 <= bytes@.len(),
    ensures
        r == u32_at(bytes@, at as int),
{
    bytes[at] as u32 + 256 * (bytes[at + 1] as u32) + 65536 * (bytes[at + 2] as u32) + 16777216 * (
    bytes[at + 3] as u32)
}

pub fn write_u16(out: &mut Vec<u8>, value: u16)
    ensures
        final(out)@ == old(out)@ + le16(value as int),
{
    out.push((value % 256) as u8);
    out.push((value / 256) as u8);
    assert(out@ =~= old(out)@ + le16(value as int));
}

pub fn write_i16(out: &mut Vec<u8>, value: i16)
    ensures
        final(out)@ == old(out)@ + le16(wrapped_u16(value as int)),
{
    let bits: u16 = wrap_u16(value as i64);
    write_u16(out, bits);
}

pub fn write_u32(out: &mut Vec<u8>, value: u32)
    ensures
        final(out)@ == old(out)@ + le32(value as int),
{
    out.push((value % 256) as u8);
    out.push((value / 256 % 256) as u8);
    out.push((value / 65536 % 256) as u8);
    out.push((value / 16777216) as u8);
    assert(out@ =~= old(out)@ + le32(value as int));
}

/// `len` rounded up to a multiple of four.
pub fn padded_len(len: usize) -> (r: usize)
    requires
        len <= usize::MAX - 3,
    ensures
        r == padded(len as int),
        len <= r <= len + 3,
{
    (len + 3) / 4 * 4
}

/// `n` zero bytes.
pub open spec fn zeros(n: nat) -> Seq<u8> {
    Seq::new(n, |i: int| 0u8)
}

/// Appends zero bytes up to a multiple of four.
pub fn pad4(out: &mut Vec<u8>)
    requires
        old(out)@.len() <= usize::MAX - 3,
    ensures
        final(out)@ == old(out)@ + zeros(
            (padded(old(out)@.len() as int) - old(out)@.len()) as nat,
        ),
{
    let target: usize = padded_len(out.len());
    assert(out@ =~= old(out)@ + zeros(0));
    while out.len() < target
        invariant
            old(out)@.len() <= out@.len() <= target,
            target == padded(old(out)@.len() as int),
            out@ == old(out)@ + zeros((out@.len() - old(out)@.len()) as nat),
        decreases target - out@.len(),
    {
        let ghost before = out@;
        out.push(0);
        assert(out@ =~= old(out)@ + zeros((out@.len() - old(out)@.len()) as nat));
    }
}

/// Integers read back as written.
pub proof fn lemma_wire_round_trip(a: u16, b: i16, c: u32, before: Seq<u8>, after: Seq<u8>)
    ensures
        u16_at(before + le16(a as int) + after, before.len() as int) == a,
        i16_at(before + le16(wrapped_u16(b as int)) + after, before.len() as int) == b,
        u32_at(before + le32(c as int) + after, before.len() as int) == c,
{
    let n = before.len() as int;
    let s = before + le16(a as int) + after;
    assert(s[n] == le16(a as int)[0] && s[n + 1] == le16(a as int)[1]);
    let w = wrapped_u16(b as int);
    let t = before + le16(w) + after;
    assert(t[n] == le16(w)[0] && t[n + 1] == le16(w)[1]);
    let u = before + le32(c as int) + after;
    assert(u[n] == le32(c as int)[0] && u[n + 1] == le32(c as int)[1] && u[n + 2] == le32(
        c as int,
    )[2] && u[n + 3] == le32(c as int)[3]);
}

/// Padding is to the next multiple of four and nothing more.
pub proof fn lemma_padding_is_least(len: int)
    requires
        len >= 0,
    ensures
        padded(len) % 4 == 0,
        len <= padded(len) < len + 4,
        padded(padded(len)) == padded(len),
{
}

/// Wrapping to 16 bits keeps values that fit and changes others by whole turns.
pub proof fn lemma_wrapping_keeps_16_bits(x: int)
    ensures
        -32768 <= wrapped_i16(x) <= 32767,
        (x - wrapped_i16(x)) % 65536 == 0,
        -32768 <= x <= 32767 ==> wrapped_i16(x) == x,
        0 <= wrapped_u16(x) <= 65535,
        (x - wrapped_u16(x)) % 65536 == 0,
        0 <= x <= 65535 ==> wrapped_u16(x) == x,
{
}

/// Integers stand with their low bytes first.
pub proof fn lemma_low_bytes_come_first(s: Seq<u8>, i: int)
    ensures
        u16_at(s, i) == s[i] + 0x100 * s[i + 1],
        u32_at(s, i) == s[i] + 0x100 * s[i + 1] + 0x1_0000 * s[i + 2] + 0x100_0000 * s[i + 3],
        s[i + 1] < 0x80 ==> i16_at(s, i) == s[i] + 0x100 * s[i + 1],
        s[i + 1] >= 0x80 ==> i16_at(s, i) == s[i] + 0x100 * s[i + 1] - 0x1_0000,
{
}

} // verus!
