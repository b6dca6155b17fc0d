use lib::{ext4_crc32c, EXT4_CRC32_INIT};

#[test]
fn crc32c_check_value() {
    // CRC-32C of "123456789" is 0xE3069283 after the final inversion that
    // ext4 does not apply.
    let data = b"123456789";
    let r = ext4_crc32c(EXT4_CRC32_INIT, data, 9);
    assert_eq!(r, !0xE306_9283u32);
    assert_eq!(r, 0x1CF9_6D7C);
}

#[test]
fn crc32c_empty_is_seed() {
    assert_eq!(ext4_crc32c(0x1234_5678, &[], 0), 0x1234_5678);
    assert_eq!(ext4_crc32c(0x1234_5678, &[1, 2, 3], 0), 0x1234_5678);
}

#[test]
fn crc32c_only_first_size_bytes() {
    let data = [9u8, 8, 7, 6, 5, 4];
    assert_eq!(ext4_crc32c(EXT4_CRC32_INIT, &data, 3), ext4_crc32c(EXT4_CRC32_INIT, &data[..3], 3));
}

#[test]
fn crc32c_chaining_is_concatenation() {
    let a = b"ext4 ";
    let b = b"metadata";
    let mut ab = Vec::new();
    ab.extend_from_slice(a);
    ab.extend_from_slice(b);
    let step = ext4_crc32c(ext4_crc32c(EXT4_CRC32_INIT, a, 5), b, 8);
    assert_eq!(step, ext4_crc32c(EXT4_CRC32_INIT, &ab, 13));
}
