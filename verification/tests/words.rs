use roper::words::{
    pack_word, pack_word32le, pack_word32le_vec, pack_word64le, pack_word64le_vec, reversed, Endian,
};

#[test]
fn word32_is_laid_out_least_significant_first() {
    assert_eq!(pack_word32le(0x1122_3344), vec![0x44, 0x33, 0x22, 0x11]);
    assert_eq!(pack_word32le(0), vec![0, 0, 0, 0]);
    assert_eq!(pack_word32le(u32::MAX), vec![0xFF, 0xFF, 0xFF, 0xFF]);
}

#[test]
fn word64_is_low_half_then_high_half() {
    assert_eq!(
        pack_word64le(0x0102_0304_0506_0708),
        vec![0x08, 0x07, 0x06, 0x05, 0x04, 0x03, 0x02, 0x01]
    );
    assert_eq!(pack_word64le(1), vec![1, 0, 0, 0, 0, 0, 0, 0]);
}

#[test]
fn word_vectors_are_laid_end_to_end() {
    assert_eq!(
        pack_word32le_vec(&[1, 0x0100]),
        vec![1, 0, 0, 0, 0, 1, 0, 0]
    );
    assert_eq!(pack_word32le_vec(&[]), Vec::<u8>::new());
    assert_eq!(
        pack_word64le_vec(&[2, 0x0300_0000_0000_0000]),
        vec![2, 0, 0, 0, 0, 0, 0, 0, 0, 0, 0, 0, 0, 0, 0, 3]
    );
}

#[test]
fn pack_word_follows_size_and_byte_order() {
    assert_eq!(
        pack_word(0xAABB_CCDD_1122_3344, 4, Endian::Little),
        vec![0x44, 0x33, 0x22, 0x11]
    );
    assert_eq!(
        pack_word(0xAABB_CCDD_1122_3344, 4, Endian::Big),
        vec![0x11, 0x22, 0x33, 0x44]
    );
    assert_eq!(
        pack_word(0xAABB_CCDD_1122_3344, 8, Endian::Little),
        vec![0x44, 0x33, 0x22, 0x11, 0xDD, 0xCC, 0xBB, 0xAA]
    );
    assert_eq!(
        pack_word(0xAABB_CCDD_1122_3344, 8, Endian::Big),
        vec![0xAA, 0xBB, 0xCC, 0xDD, 0x11, 0x22, 0x33, 0x44]
    );
}

#[test]
fn reversed_turns_bytes_round() {
    assert_eq!(reversed(&vec![1, 2, 3]), vec![3, 2, 1]);
    assert_eq!(reversed(&vec![]), Vec::<u8>::new());
}
