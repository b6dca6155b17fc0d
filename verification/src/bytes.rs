//! Little-endian encoding of the integer fields of on-disk structures.
//!
//! A multi-byte field is stored least significant byte first. `u16_byte`,
//! `u32_byte` and `u64_byte` name byte `k` of a value's encoding, and `le_u16`,
//! `le_u32`, `le_u64` read a value back from a byte sequence at an offset.
use vstd::prelude::*;

verus! {

/// Byte `k` (0 or 1) of the little-endian encoding of `x`.
pub open spec fn u16_byte(x: u16, k: int) -> u8 {
    if k == 0 {
        (x & 0xff) as u8
    } else {
        ((x >> 8u16) & 0xff) as u8
    }
}

/// Byte `k` (0 to 3) of the little-endian encoding of `x`.
pub open spec fn u32_byte(x: u32, k: int) -> u8 {
    if k == 0 {
        (x & 0xff) as u8
    } else if k == 1 {
        ((x >> 8u32) & 0xff) as u8
    } else if k == 2 {
        ((x >> 16u32) & 0xff) as u8
    } else {
        ((x >> 24u32) & 0xff) as u8
    }
}

/// Byte `k` (0 to 7) of the little-endian encoding of `x`.
pub open spec fn u64_byte(x: u64, k: int) -> u8 {
    if k == 0 {
        (x & 0xff) as u8
    } else if k == 1 {
        ((x >> 8u64) & 0xff) as u8
    } else if k == 2 {
        ((x >> 16u64) & 0xff) as u8
    } else if k == 3 {
        ((x >> 24u64) & 0xff) as u8
    } else if k == 4 {
        ((x >> 32u64) & 0xff) as u8
    } else if k == 5 {
        ((x >> 40u64) & 0xff) as u8
    } else if k == 6 {
        ((x >> 48u64) & 0xff) as u8
    } else {
        ((x >> 56u64) & 0xff) as u8
    }
}

/// The `u16` stored little-endian in `s` at `off`.
pub open spec fn le_u16(s: Seq<u8>, off: int) -> u16 {
    (s[off] as u16) | ((s[off + 1] as u16) << 8u16)
}

/// The `u32` stored little-endian in `s` at `off`.
pub open spec fn le_u32(s: Seq<u8>, off: int) -> u32 {
    (s[off] as u32) | ((s[off + 1] as u32) << 8u32) | ((s[off + 2] as u32) << 16u32) | ((s[off
        + 3] as u32) << 24u32)
}

/// The `u64` stored little-endian in `s` at `off`.
pub open spec fn le_u64(s: Seq<u8>, off: int) -> u64 {
    (s[off] as u64) | ((s[off + 1] as u64) << 8u64) | ((s[off + 2] as u64) << 16u64) | ((s[off
        + 3] as u64) << 24u64) | ((s[off + 4] as u64) << 32u64) | ((s[off + 5] as u64) << 40u64)
        | ((s[off + 6] as u64) << 48u64) | ((s[off + 7] as u64) << 56u64)
}

/// The little-endian encoding of `x`.
pub open spec fn u32_le_seq(x: u32) -> Seq<u8> {
    seq![u32_byte(x, 0), u32_byte(x, 1), u32_byte(x, 2), u32_byte(x, 3)]
}

pub fn u16_byte_at(x: u16, k: usize) -> (b: u8)
    requires
        k < 2,
    ensures
        b == u16_byte(x, k as int),
{
    if k == 0 {
        (x & 0xff) as u8
    } else {
        ((x >> 8u16) & 0xff) as u8
    }
}

pub fn u32_byte_at(x: u32, k: usize) -> (b: u8)
    requires
        k < 4,
    ensures
        b == u32_byte(x, k as int),
{
    if k == 0 {
        (x & 0xff) as u8
    } else if k == 1 {
        ((x >> 8u32) & 0xff) as u8
    } else if k == 2 {
        ((x >> 16u32) & 0xff) as u8
    } else {
        ((x >> 24u32) & 0xff) as u8
    }
}

pub fn u64_byte_at(x: u64, k: usize) -> (b: u8)
    requires
        k < 8,
    ensures
        b == u64_byte(x, k as int),
{
    if k == 0 {
        (x & 0xff) as u8
    } else if k == 1 {
        ((x >> 8u64) & 0xff) as u8
    } else if k == 2 {
        ((x >> 16u64) & 0xff) as u8
    } else if k == 3 {
        ((x >> 24u64) & 0xff) as u8
    } else if k == 4 {
        ((x >> 32u64) & 0xff) as u8
    } else if k == 5 {
        ((x >> 40u64) & 0xff) as u8
    } else if k == 6 {
        ((x >> 48u64) & 0xff) as u8
    } else {
        ((x >> 56u64) & 0xff) as u8
    }
}

pub fn read_u16(s: &[u8], off: usize) -> (x: u16)
    requires
        off + 2 <= s@.len(),
    ensures
        x == le_u16(s@, off as int),
{
    (s[off] as u16) | ((s[off + 1] as u16) << 8u16)
}

pub fn read_u32(s: &[u8], off: usize) -> (x: u32)
    requires
        off + 4 <= s@.len(),
    ensures
        x == le_u32(s@, off as int),
{
    (s[off] as u32) | ((s[off + 1] as u32) << 8u32) | ((s[off + 2] as u32) << 16u32) | ((s[off
        + 3] as u32) << 24u32)
}

pub fn read_u64(s: &[u8], off: usize) -> (x: u64)
    requires
        off + 8 <= s@.len(),
    ensures
        x == le_u64(s@, off as int),
{
    (s[off] as u64) | ((s[off + 1] as u64) << 8u64) | ((s[off + 2] as u64) << 16u64) | ((s[off
        + 3] as u64) << 24u64) | ((s[off + 4] as u64) << 32u64) | ((s[off + 5] as u64) << 40u64)
        | ((s[off + 6] as u64) << 48u64) | ((s[off + 7] as u64) << 56u64)
}

/// The encoding of `x`, pushed onto the end of `v`.
pub fn push_u32_le(v: &mut Vec<u8>, x: u32)
    ensures
        final(v)@ == old(v)@ + u32_le_seq(x),
{
    v.push(u32_byte_at(x, 0));
    v.push(u32_byte_at(x, 1));
    v.push(u32_byte_at(x, 2));
    v.push(u32_byte_at(x, 3));
    assert(v@ =~= old(v)@ + u32_le_seq(x));
}

/// Reading a `u16` back from its bytes gives each byte in place.
pub proof fn lemma_le_u16_bytes(s: Seq<u8>, off: int)
    requires
        0 <= off,
        off + 2 <= s.len(),
    ensures
        forall|k: int| 0 <= k < 2 ==> #[trigger] u16_byte(le_u16(s, off), k) == s[off + k],
{
    let b0 = s[off];
    let b1 = s[off + 1];
    let x = le_u16(s, off);
    assert((x & 0xff) as u8 == b0 && ((x >> 8u16) & 0xff) as u8 == b1) by (bit_vector)
        requires
            x == (b0 as u16) | ((b1 as u16) << 8u16),
    ;
}

/// Reading a `u32` back from its bytes gives each byte in place.
pub proof fn lemma_le_u32_bytes(s: Seq<u8>, off: int)
    requires
        0 <= off,
        off + 4 <= s.len(),
    ensures
        forall|k: int| 0 <= k < 4 ==> #[trigger] u32_byte(le_u32(s, off), k) == s[off + k],
{
    let b0 = s[off];
    let b1 = s[off + 1];
    let b2 = s[off + 2];
    let b3 = s[off + 3];
    let x = le_u32(s, off);
    assert((x & 0xff) as u8 == b0 && ((x >> 8u32) & 0xff) as u8 == b1 && ((x >> 16u32) & 0xff) as u8
        == b2 && ((x >> 24u32) & 0xff) as u8 == b3) by (bit_vector)
        requires
            x == (b0 as u32) | ((b1 as u32) << 8u32) | ((b2 as u32) << 16u32) | ((b3 as u32)
                << 24u32),
    ;
}

/// Reading a `u64` back from its bytes gives each byte in place.
pub proof fn lemma_le_u64_bytes(s: Seq<u8>, off: int)
    requires
        0 <= off,
        off + 8 <= s.len(),
    ensures
        forall|k: int| 0 <= k < 8 ==> #[trigger] u64_byte(le_u64(s, off), k) == s[off + k],
{
    let b0 = s[off];
    let b1 = s[off + 1];
    let b2 = s[off + 2];
    let b3 = s[off + 3];
    let b4 = s[off + 4];
    let b5 = s[off + 5];
    let b6 = s[off + 6];
    let b7 = s[off + 7];
    let x = le_u64(s, off);
    assert((x & 0xff) as u8 == b0 && ((x >> 8u64) & 0xff) as u8 == b1 && ((x >> 16u64) & 0xff) as u8
        == b2 && ((x >> 24u64) & 0xff) as u8 == b3 && ((x >> 32u64) & 0xff) as u8 == b4 && ((x
        >> 40u64) & 0xff) as u8 == b5 && ((x >> 48u64) & 0xff) as u8 == b6 && ((x >> 56u64)
        & 0xff) as u8 == b7) by (bit_vector)
        requires
            x == (b0 as u64) | ((b1 as u64) << 8u64) | ((b2 as u64) << 16u64) | ((b3 as u64)
                << 24u64) | ((b4 as u64) << 32u64) | ((b5 as u64) << 40u64) | ((b6 as u64)
                << 48u64) | ((b7 as u64) << 56u64),
    ;
}

/// Two `u16` values with the same bytes are equal.
pub proof fn lemma_u16_bytes_injective(x: u16, y: u16)
    requires
        forall|k: int| 0 <= k < 2 ==> #[trigger] u16_byte(x, k) == u16_byte(y, k),
    ensures
        x == y,
{
    assert(u16_byte(x, 0) == u16_byte(y, 0));
    assert(u16_byte(x, 1) == u16_byte(y, 1));
    assert((x & 0xff) as u8 == (y & 0xff) as u8 && ((x >> 8u16) & 0xff) as u8 == ((y >> 8u16)
        & 0xff) as u8 ==> x == y) by (bit_vector);
}

/// Two `u32` values with the same bytes are equal.
pub proof fn lemma_u32_bytes_injective(x: u32, y: u32)
    requires
        forall|k: int| 0 <= k < 4 ==> #[trigger] u32_byte(x, k) == u32_byte(y, k),
    ensures
        x == y,
{
    assert(u32_byte(x, 0) == u32_byte(y, 0));
    assert(u32_byte(x, 1) == u32_byte(y, 1));
    assert(u32_byte(x, 2) == u32_byte(y, 2));
    assert(u32_byte(x, 3) == u32_byte(y, 3));
    assert((x & 0xff) as u8 == (y & 0xff) as u8 && ((x >> 8u32) & 0xff) as u8 == ((y >> 8u32)
        & 0xff) as u8 && ((x >> 16u32) & 0xff) as u8 == ((y >> 16u32) & 0xff) as u8 && ((x
        >> 24u32) & 0xff) as u8 == ((y >> 24u32) & 0xff) as u8 ==> x == y) by (bit_vector);
}

/// Two `u64` values with the same bytes are equal.
pub proof fn lemma_u64_bytes_injective(x: u64, y: u64)
    requires
        forall|k: int| 0 <= k < 8 ==> #[trigger] u64_byte(x, k) == u64_byte(y, k),
    ensures
        x == y,
{
    assert(u64_byte(x, 0) == u64_byte(y, 0));
    assert(u64_byte(x, 1) == u64_byte(y, 1));
    assert(u64_byte(x, 2) == u64_byte(y, 2));
    assert(u64_byte(x, 3) == u64_byte(y, 3));
    assert(u64_byte(x, 4) == u64_byte(y, 4));
    assert(u64_byte(x, 5) == u64_byte(y, 5));
    assert(u64_byte(x, 6) == u64_byte(y, 6));
    assert(u64_byte(x, 7) == u64_byte(y, 7));
    assert((x & 0xff) as u8 == (y & 0xff) as u8 && ((x >> 8u64) & 0xff) as u8 == ((y >> 8u64)
        & 0xff) as u8 && ((x >> 16u64) & 0xff) as u8 == ((y >> 16u64) & 0xff) as u8 && ((x
        >> 24u64) & 0xff) as u8 == ((y >> 24u64) & 0xff) as u8 && ((x >> 32u64) & 0xff) as u8
        == ((y >> 32u64) & 0xff) as u8 && ((x >> 40u64) & 0xff) as u8 == ((y >> 40u64) & 0xff)
        as u8 && ((x >> 48u64) & 0xff) as u8 == ((y >> 48u64) & 0xff) as u8 && ((x >> 56u64)
        & 0xff) as u8 == ((y >> 56u64) & 0xff) as u8 ==> x == y) by (bit_vector);
}

/// A `u16` is read back from the bytes of its encoding.
pub proof fn lemma_le_u16_of_bytes(s: Seq<u8>, off: int, x: u16)
    requires
        0 <= off,
        off + 2 <= s.len(),
        forall|k: int| 0 <= k < 2 ==> s[off + k] == #[trigger] u16_byte(x, k),
    ensures
        le_u16(s, off) == x,
{
    let b0 = s[off + 0];
    let b1 = s[off + 1];
    assert(b0 == u16_byte(x, 0));
    assert(b1 == u16_byte(x, 1));
    assert(b0 == (x & 0xff) as u8 && b1 == ((x >> 8u16) & 0xff) as u8 ==> (b0 as u16) | ((b1
        as u16) << 8u16) == x) by (bit_vector);
}

/// A `u32` is read back from the bytes of its encoding.
pub proof fn lemma_le_u32_of_bytes(s: Seq<u8>, off: int, x: u32)
    requires
        0 <= off,
        off + 4 <= s.len(),
        forall|k: int| 0 <= k < 4 ==> s[off + k] == #[trigger] u32_byte(x, k),
    ensures
        le_u32(s, off) == x,
{
    let b0 = s[off + 0];
    let b1 = s[off + 1];
    let b2 = s[off + 2];
    let b3 = s[off + 3];
    assert(b0 == u32_byte(x, 0));
    assert(b1 == u32_byte(x, 1));
    assert(b2 == u32_byte(x, 2));
    assert(b3 == u32_byte(x, 3));
    assert(b0 == (x & 0xff) as u8 && b1 == ((x >> 8u32) & 0xff) as u8 && b2 == ((x >> 16u32)
        & 0xff) as u8 && b3 == ((x >> 24u32) & 0xff) as u8 ==> (b0 as u32) | ((b1 as u32)
        << 8u32) | ((b2 as u32) << 16u32) | ((b3 as u32) << 24u32) == x) by (bit_vector);
}

/// Fills `a` with the `N` bytes at `off` in `s`.
pub fn read_u8_array<const N: usize>(a: &mut [u8; N], s: &[u8], off: usize)
    requires
        off + N <= s@.len(),
    ensures
        forall|k: int| 0 <= k < N ==> final(a)[k] == s@[off + k],
{
    let len: usize = s.len();
    let mut j: usize = 0;
    while j < N
        invariant
            j <= N,
            off + N <= len,
            len == s@.len(),
            forall|k: int| 0 <= k < j ==> a[k] == s@[off + k],
        decreases N - j,
    {
        a[j] = s[off + j];
        j = j + 1;
    }
}

/// Fills `a` with the `N` little-endian `u32` values at `off` in `s`.
pub fn read_u32_array<const N: usize>(a: &mut [u32; N], s: &[u8], off: usize)
    requires
        off + 4 * N <= s@.len(),
    ensures
        forall|k: int| 0 <= k < N ==> final(a)[k] == le_u32(s@, off + 4 * k),
{
    let len: usize = s.len();
    let mut j: usize = 0;
    while j < N
        invariant
            j <= N,
            off + 4 * N <= len,
            len == s@.len(),
            forall|k: int| 0 <= k < j ==> a[k] == le_u32(s@, off + 4 * k),
        decreases N - j,
    {
        a[j] = read_u32(s, off + 4 * j);
        j = j + 1;
    }
}

/// The encoding of `x` is four bytes from which `x` reads back.
pub proof fn lemma_u32_le_seq(x: u32)
    ensures
        u32_le_seq(x).len() == 4,
        le_u32(u32_le_seq(x), 0) == x,
{
    let s = u32_le_seq(x);
    assert forall|k: int| 0 <= k < 4 implies s[0 + k] == #[trigger] u32_byte(x, k) by {}
    lemma_le_u32_of_bytes(s, 0, x);
}

} // verus!
