//! CRC-32C (Castagnoli), the checksum ext4 stores in its metadata.
//!
//! The register is updated least significant bit first with the reflected
//! polynomial `0x82F63B78`. Ext4 seeds the register with `EXT4_CRC32_INIT`
//! and stores the register as it stands after the last byte, with no final
//! inversion; `crc32c` is exactly that register value.
use vstd::prelude::*;

verus! {

/// The value ext4 seeds the CRC-32C register with.
pub const EXT4_CRC32_INIT: u32 = 0xFFFF_FFFF;

/// The reflected CRC-32C polynomial.
pub const CRC32C_POLY: u32 = 0x82F6_3B78;

/// One bit step of the register.
pub open spec fn crc32c_shift(c: u32) -> u32 {
    if c & 1 == 1 {
        (c >> 1u32) ^ CRC32C_POLY
    } else {
        c >> 1u32
    }
}

/// The register after taking in byte `b`.
pub open spec fn crc32c_byte(c: u32, b: u8) -> u32 {
    let x = c ^ (b as u32);
    crc32c_shift(
        crc32c_shift(
            crc32c_shift(crc32c_shift(crc32c_shift(crc32c_shift(crc32c_shift(crc32c_shift(x)))))),
        ),
    )
}

/// The register, started at `c`, after taking in the bytes of `s` in order.
pub open spec fn crc32c(c: u32, s: Seq<u8>) -> u32
    decreases s.len(),
{
    if s.len() == 0 {
        c
    } else {
        crc32c_byte(crc32c(c, s.drop_last()), s.last())
    }
}

fn shift(c: u32) -> (r: u32)
    ensures
        r == crc32c_shift(c),
{
    if c & 1 == 1 {
        (c >> 1u32) ^ CRC32C_POLY
    } else {
        c >> 1u32
    }
}

fn update_byte(c: u32, b: u8) -> (r: u32)
    ensures
        r == crc32c_byte(c, b),
{
    let x = c ^ (b as u32);
    shift(shift(shift(shift(shift(shift(shift(shift(x))))))))
}

/// Runs the CRC-32C register, started at `crc`, over the first `size` bytes
/// of `buf`, and returns the register.
pub fn ext4_crc32c(crc: u32, buf: &[u8], size: u32) -> (r: u32)
    requires
        size <= buf@.len(),
    ensures
        r == crc32c(crc, buf@.take(size as int)),
{
    let n = size as usize;
    let mut c = crc;
    let mut i: usize = 0;
    while i < n
        invariant
            n == size,
            n <= buf@.len(),
            i <= n,
            c == crc32c(crc, buf@.take(i as int)),
        decreases n - i,
    {
        proof {
            assert(buf@.take(i + 1).drop_last() =~= buf@.take(i as int));
            assert(buf@.take(i + 1).last() == buf@[i as int]);
        }
        c = update_byte(c, buf[i]);
        i = i + 1;
    }
    c
}

/// Running the register over `a` and then over `b` is running it over `a`
/// followed by `b`.
pub proof fn lemma_crc32c_append(c: u32, a: Seq<u8>, b: Seq<u8>)
    ensures
        crc32c(crc32c(c, a), b) == crc32c(c, a + b),
    decreases b.len(),
{
    if b.len() == 0 {
        assert(a + b =~= a);
    } else {
        lemma_crc32c_append(c, a, b.drop_last());
        assert((a + b).drop_last() =~= a + b.drop_last());
        assert((a + b).last() == b.last());
    }
}

/// The byte step in closed form: with `x` the register after the byte is
/// xored into its low 8 bits, the register shifts right by 8 bits and each
/// of the 8 bits shifted out adds its entry of the standard CRC-32C table
/// (the entries at 1, 2, 4, ..., 128).
pub open spec fn crc32c_table_form(x: u32) -> u32 {
    (x >> 8u32) ^ (if x & 0x01 != 0 {
        0xF26B_8303u32
    } else {
        0
    }) ^ (if x & 0x02 != 0 {
        0xE13B_70F7u32
    } else {
        0
    }) ^ (if x & 0x04 != 0 {
        0xC79A_971Fu32
    } else {
        0
    }) ^ (if x & 0x08 != 0 {
        0x8AD9_58CFu32
    } else {
        0
    }) ^ (if x & 0x10 != 0 {
        0x105E_C76Fu32
    } else {
        0
    }) ^ (if x & 0x20 != 0 {
        0x20BD_8EDEu32
    } else {
        0
    }) ^ (if x & 0x40 != 0 {
        0x417B_1DBCu32
    } else {
        0
    }) ^ (if x & 0x80 != 0 {
        0x82F6_3B78u32
    } else {
        0
    })
}

/// Every byte, zero included, moves the register: taking in byte `b` is
/// the table form of the register xored with `b`, for every register value
/// and every byte.
pub proof fn lemma_crc32c_byte_table(c: u32, b: u8)
    ensures
        crc32c_byte(c, b) == crc32c_table_form(c ^ (b as u32)),
{
    let x = c ^ (b as u32);
    assert(crc32c_shift(
        crc32c_shift(
            crc32c_shift(crc32c_shift(crc32c_shift(crc32c_shift(crc32c_shift(crc32c_shift(x)))))),
        ),
    ) == crc32c_table_form(x)) by (bit_vector);
}

/// The register over no bytes is the seed, and over one byte is one byte
/// step; with `lemma_crc32c_append` this fixes the register over any bytes.
pub proof fn lemma_crc32c_short(c: u32, b: u8)
    ensures
        crc32c(c, Seq::<u8>::empty()) == c,
        crc32c(c, seq![b]) == crc32c_byte(c, b),
{
    assert(seq![b].drop_last() =~= Seq::<u8>::empty());
}

} // verus!
