use mass_raytrace::endian::{u16_at, u32_at, u64_at};

const BYTES: [u8; 10] = [0x01, 0x23, 0x45, 0x67, 0x89, 0xab, 0xcd, 0xef, 0x10, 0x32];

#[test]
fn numbers_are_read_lowest_byte_first() {
    assert_eq!(u16_at(false, &BYTES, 0), 0x2301);
    assert_eq!(u16_at(false, &BYTES, 8), 0x3210);
    assert_eq!(u32_at(false, &BYTES, 0), 0x6745_2301);
    assert_eq!(u32_at(false, &BYTES, 6), 0x3210_efcd);
    assert_eq!(u64_at(false, &BYTES, 0), 0xefcd_ab89_6745_2301);
    assert_eq!(u64_at(false, &BYTES, 2), 0x3210_efcd_ab89_6745);
}

#[test]
fn numbers_are_read_highest_byte_first() {
    assert_eq!(u16_at(true, &BYTES, 0), 0x0123);
    assert_eq!(u16_at(true, &BYTES, 8), 0x1032);
    assert_eq!(u32_at(true, &BYTES, 0), 0x0123_4567);
    assert_eq!(u32_at(true, &BYTES, 6), 0xcdef_1032);
    assert_eq!(u64_at(true, &BYTES, 0), 0x0123_4567_89ab_cdef);
    assert_eq!(u64_at(true, &BYTES, 2), 0x4567_89ab_cdef_1032);
}

#[test]
fn numbers_agree_with_the_standard_library() {
    for pos in 0..=2 {
        let mut eight = [0u8; 8];
        eight.copy_from_slice(&BYTES[pos..pos + 8]);
        assert_eq!(u64_at(false, &BYTES, pos), u64::from_le_bytes(eight));
        assert_eq!(u64_at(true, &BYTES, pos), u64::from_be_bytes(eight));
    }
    for pos in 0..=6 {
        let mut four = [0u8; 4];
        four.copy_from_slice(&BYTES[pos..pos + 4]);
        assert_eq!(u32_at(false, &BYTES, pos), u32::from_le_bytes(four));
        assert_eq!(u32_at(true, &BYTES, pos), u32::from_be_bytes(four));
    }
}
