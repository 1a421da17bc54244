use superblock::endian::{word_from_bytes, word_to_bytes, word_with_byte, WORD_SIZE};
use superblock::ByteOrder;

const SAMPLES: [u64; 9] = [
    0,
    1,
    255,
    256,
    0x0102_0304_0506_0708,
    0x8000_0000_0000_0000,
    0x00ff_00ff_00ff_00ff,
    u64::MAX - 1,
    u64::MAX,
];

#[test]
fn words_take_eight_bytes() {
    assert_eq!(WORD_SIZE, 8);
    assert_eq!(word_to_bytes(ByteOrder::Little, 0).len(), 8);
}

#[test]
fn little_endian_words() {
    assert_eq!(word_to_bytes(ByteOrder::Little, 0), [0; 8]);
    assert_eq!(word_to_bytes(ByteOrder::Little, 1), [1, 0, 0, 0, 0, 0, 0, 0]);
    assert_eq!(word_to_bytes(ByteOrder::Little, 256), [0, 1, 0, 0, 0, 0, 0, 0]);
    assert_eq!(word_to_bytes(ByteOrder::Little, 1024), [0, 4, 0, 0, 0, 0, 0, 0]);
    assert_eq!(
        word_to_bytes(ByteOrder::Little, 0x0102_0304_0506_0708),
        [8, 7, 6, 5, 4, 3, 2, 1]
    );
    assert_eq!(word_to_bytes(ByteOrder::Little, u64::MAX), [255; 8]);
    assert_eq!(word_from_bytes(ByteOrder::Little, &[8, 7, 6, 5, 4, 3, 2, 1]), 0x0102_0304_0506_0708);
    assert_eq!(word_from_bytes(ByteOrder::Little, &[0, 0, 0, 0, 0, 0, 0, 0x80]), 1 << 63);
    assert_eq!(word_from_bytes(ByteOrder::Little, &[255; 8]), u64::MAX);
}

#[test]
fn big_endian_words() {
    assert_eq!(word_to_bytes(ByteOrder::Big, 0), [0; 8]);
    assert_eq!(word_to_bytes(ByteOrder::Big, 1), [0, 0, 0, 0, 0, 0, 0, 1]);
    assert_eq!(word_to_bytes(ByteOrder::Big, 256), [0, 0, 0, 0, 0, 0, 1, 0]);
    assert_eq!(word_to_bytes(ByteOrder::Big, 0x0102_0304_0506_0708), [1, 2, 3, 4, 5, 6, 7, 8]);
    assert_eq!(word_to_bytes(ByteOrder::Big, u64::MAX), [255; 8]);
    assert_eq!(word_from_bytes(ByteOrder::Big, &[1, 2, 3, 4, 5, 6, 7, 8]), 0x0102_0304_0506_0708);
    assert_eq!(word_from_bytes(ByteOrder::Big, &[0x80, 0, 0, 0, 0, 0, 0, 0]), 1 << 63);
    assert_eq!(word_from_bytes(ByteOrder::Big, &[255; 8]), u64::MAX);
}

#[test]
fn words_agree_with_std() {
    for x in SAMPLES {
        assert_eq!(word_to_bytes(ByteOrder::Little, x), x.to_le_bytes());
        assert_eq!(word_to_bytes(ByteOrder::Big, x), x.to_be_bytes());
        assert_eq!(word_to_bytes(ByteOrder::native(), x), x.to_ne_bytes());
        assert_eq!(word_from_bytes(ByteOrder::Little, &x.to_le_bytes()), x);
        assert_eq!(word_from_bytes(ByteOrder::Big, &x.to_be_bytes()), x);
        assert_eq!(word_from_bytes(ByteOrder::native(), &x.to_ne_bytes()), x);
    }
}

#[test]
fn words_round_trip() {
    for order in [ByteOrder::Little, ByteOrder::Big] {
        for x in SAMPLES {
            assert_eq!(word_from_bytes(order, &word_to_bytes(order, x)), x);
        }
        for bytes in [[0u8; 8], [1, 2, 3, 4, 5, 6, 7, 8], [255, 0, 255, 0, 255, 0, 255, 0]] {
            assert_eq!(word_to_bytes(order, word_from_bytes(order, &bytes)), bytes);
        }
    }
}

#[test]
fn word_with_byte_replaces_one_byte() {
    assert_eq!(
        word_with_byte(ByteOrder::Little, 0x0102_0304_0506_0708, 0, 0xff),
        0x0102_0304_0506_07ff
    );
    assert_eq!(
        word_with_byte(ByteOrder::Little, 0x0102_0304_0506_0708, 7, 0xff),
        0xff02_0304_0506_0708
    );
    assert_eq!(
        word_with_byte(ByteOrder::Big, 0x0102_0304_0506_0708, 0, 0xff),
        0xff02_0304_0506_0708
    );
    assert_eq!(
        word_with_byte(ByteOrder::Big, 0x0102_0304_0506_0708, 5, 0),
        0x0102_0304_0500_0708
    );
    for order in [ByteOrder::Little, ByteOrder::Big] {
        for x in SAMPLES {
            for index in 0..8 {
                let mut bytes = word_to_bytes(order, x);
                bytes[index] = 0x3c;
                assert_eq!(word_to_bytes(order, word_with_byte(order, x, index, 0x3c)), bytes);
            }
        }
    }
}

#[test]
fn native_order_is_that_of_the_machine() {
    let little = u16::from_ne_bytes([1, 0]) == 1;
    let expected = if little { ByteOrder::Little } else { ByteOrder::Big };
    assert_eq!(ByteOrder::native(), expected);
    assert_eq!(ByteOrder::native(), ByteOrder::native());
}

#[test]
fn order_of_a_probe() {
    assert_eq!(ByteOrder::of_probe([1, 0]), ByteOrder::Little);
    assert_eq!(ByteOrder::of_probe([0, 1]), ByteOrder::Big);
    assert_eq!(ByteOrder::of_probe(1u16.to_le_bytes()), ByteOrder::Little);
    assert_eq!(ByteOrder::of_probe(1u16.to_be_bytes()), ByteOrder::Big);
}
