use orc::pointer::{construct_pointer, deconstruct_pointer, ADDRESS_LIMIT};
use orc::{two_two_the, MAX_WEIGHT, MAX_WEIGHT_EXP};

#[test]
fn test_two_two_the() {
    assert_eq!(two_two_the(0), 1);
    assert_eq!(two_two_the(1), 2);
    assert_eq!(two_two_the(8), 256);
}

#[test]
fn largest_exponent_gives_total_weight() {
    assert_eq!(MAX_WEIGHT_EXP, 63);
    assert_eq!(two_two_the(MAX_WEIGHT_EXP), MAX_WEIGHT);
    assert_eq!(MAX_WEIGHT, 9_223_372_036_854_775_808);
}

#[test]
fn halves_add_up_to_the_whole() {
    for exp in 1..=MAX_WEIGHT_EXP {
        assert_eq!(two_two_the(exp - 1) + two_two_the(exp - 1), two_two_the(exp));
    }
}

#[test]
fn deconstruct_gives_little_endian_bytes() {
    let (bytes, high) = deconstruct_pointer(0x0102_0304_0506_0708);
    assert_eq!(bytes, [0x08, 0x07, 0x06, 0x05, 0x04, 0x03, 0x02]);
    assert_eq!(high, 0x01);
}

#[test]
fn deconstruct_small_address_leaves_high_byte_free() {
    let (bytes, high) = deconstruct_pointer(999);
    assert_eq!(bytes, [0xe7, 0x03, 0, 0, 0, 0, 0]);
    assert_eq!(high, 0);
    let (bytes, high) = deconstruct_pointer(ADDRESS_LIMIT - 1);
    assert_eq!(bytes, [0xff; 7]);
    assert_eq!(high, 0);
    let (bytes, high) = deconstruct_pointer(ADDRESS_LIMIT);
    assert_eq!(bytes, [0; 7]);
    assert_eq!(high, 1);
}

#[test]
fn construct_reads_little_endian_bytes() {
    assert_eq!(construct_pointer([0x08, 0x07, 0x06, 0x05, 0x04, 0x03, 0x02], 0x01), 0x0102_0304_0506_0708);
    assert_eq!(construct_pointer([0xe7, 0x03, 0, 0, 0, 0, 0], 0), 999);
    assert_eq!(construct_pointer([0; 7], 0xff), 0xff00_0000_0000_0000);
}

#[test]
fn construct_undoes_deconstruct() {
    let samples: [u64; 7] = [0, 1, 255, 256, 0x00ff_ffff_ffff_ffff, 0x8000_0000_0000_0001, u64::MAX];
    for address in samples {
        let (bytes, high) = deconstruct_pointer(address);
        assert_eq!(construct_pointer(bytes, high), address);
    }
}
