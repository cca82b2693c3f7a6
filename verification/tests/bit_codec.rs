use shh::bits::{decode_byte, encode_byte_in_bytes};

#[test]
fn encode_byte_all_zeros() {
    let target: [u8; 8] = [
        0b1010_0000,
        0b1001_0110,
        0b0100_0100,
        0b0010_1000,
        0b1000_1100,
        0b0010_1110,
        0b0100_1100,
        0b1000_1000,
    ];
    let payload: u8 = 0b1110_1010;

    let encoded: [u8; 8] = [
        0b1010_0000,
        0b1001_0111,
        0b0100_0100,
        0b0010_1001,
        0b1000_1100,
        0b0010_1111,
        0b0100_1101,
        0b1000_1001,
    ];

    assert_eq!(encoded, encode_byte_in_bytes(&target, &payload));
    assert_eq!(decode_byte(&encoded), payload);
}

#[test]
fn encode_byte_all_ones() {
    let target: [u8; 8] = [
        0b0110_0001,
        0b0111_0111,
        0b0000_0101,
        0b0010_1001,
        0b1000_0011,
        0b0010_1111,
        0b0100_1101,
        0b1110_1001,
    ];
    let payload: u8 = 0b0110_1000;

    let encoded: [u8; 8] = [
        0b0110_0000,
        0b0111_0110,
        0b0000_0100,
        0b0010_1001,
        0b1000_0010,
        0b0010_1111,
        0b0100_1101,
        0b1110_1000,
    ];

    assert_eq!(encoded, encode_byte_in_bytes(&target, &payload));
    assert_eq!(decode_byte(&encoded), payload);
}

#[test]
fn encode_byte_random() {
    let target: [u8; 8] = [
        0b0010_0000,
        0b0001_0111,
        0b0000_0101,
        0b0010_1001,
        0b1000_0000,
        0b0010_1111,
        0b0100_1101,
        0b1000_1000,
    ];
    let payload: u8 = 0b1100_1010;

    let encoded: [u8; 8] = [
        0b0010_0000,
        0b0001_0111,
        0b0000_0100,
        0b0010_1001,
        0b1000_0000,
        0b0010_1110,
        0b0100_1101,
        0b1000_1001,
    ];

    assert_eq!(encoded, encode_byte_in_bytes(&target, &payload));
    assert_eq!(decode_byte(&encoded), payload);
}

#[test]
fn encode_byte_payload_all_zeros() {
    let target: [u8; 8] = [0b0101_0101; 8];
    let payload: u8 = 0b0000_0000;
    let encoded = encode_byte_in_bytes(&target, &payload);
    assert_eq!(encoded, [0b0101_0100; 8]);
    assert_eq!(decode_byte(&encoded), payload);
}

#[test]
fn encode_byte_payload_all_ones() {
    let target: [u8; 8] = [0b0101_0100; 8];
    let payload: u8 = 0b1111_1111;
    let encoded = encode_byte_in_bytes(&target, &payload);
    assert_eq!(encoded, [0b0101_0101; 8]);
    assert_eq!(decode_byte(&encoded), payload);
}

#[test]
fn encode_byte_payload_mixed() {
    let target: [u8; 8] = [0b0101_0100; 8];
    let payload: u8 = 0b1010_1010;
    let encoded = encode_byte_in_bytes(&target, &payload);
    assert_eq!(
        encoded,
        [
            0b0101_0100,
            0b0101_0101,
            0b0101_0100,
            0b0101_0101,
            0b0101_0100,
            0b0101_0101,
            0b0101_0100,
            0b0101_0101
        ]
    );
    assert_eq!(decode_byte(&encoded), payload);
}

#[test]
fn decode_byte_all_zeros() {
    let encoded: [u8; 8] = [0, 0, 0, 0, 0, 0, 0, 0];
    assert_eq!(decode_byte(&encoded), 0);
}

#[test]
fn decode_byte_all_ones() {
    let encoded: [u8; 8] = [11, 19, 101, 17, 25, 1, 13, 1];
    assert_eq!(decode_byte(&encoded), 0b1111_1111);
}

#[test]
fn decode_byte_mixed() {
    let encoded: [u8; 8] = [8, 1, 12, 13, 78, 236, 116, 11];
    assert_eq!(decode_byte(&encoded), 0b1000_1010);
}

fn sample_windows() -> Vec<[u8; 8]> {
    vec![
        [0x00; 8],
        [0xff; 8],
        [0x01, 0x02, 0x04, 0x08, 0x10, 0x20, 0x40, 0x80],
        [0xfe, 0x01, 0xfe, 0x01, 0xaa, 0x55, 0x7f, 0x80],
        [11, 19, 101, 17, 25, 1, 13, 1],
    ]
}

#[test]
fn every_byte_round_trips_through_every_sample_window() {
    for window in sample_windows() {
        for value in 0..=255u8 {
            let encoded = encode_byte_in_bytes(&window, &value);
            assert_eq!(decode_byte(&encoded), value);
        }
    }
}

#[test]
fn encoding_changes_only_the_lowest_bit() {
    for window in sample_windows() {
        for value in 0..=255u8 {
            let encoded = encode_byte_in_bytes(&window, &value);
            for i in 0..8 {
                assert_eq!(encoded[i] & 0xfe, window[i] & 0xfe);
                assert_eq!(encoded[i] & 1, (value >> i) & 1);
            }
        }
    }
}

#[test]
fn decoding_ignores_the_upper_bits() {
    let low: [u8; 8] = [1, 0, 1, 1, 0, 0, 1, 0];
    let mut noisy = low;
    for i in 0..8 {
        noisy[i] |= 0xfe;
    }
    assert_eq!(decode_byte(&low), 0b0100_1101);
    assert_eq!(decode_byte(&noisy), 0b0100_1101);
}

#[test]
fn bit_zero_goes_to_the_first_byte() {
    assert_eq!(encode_byte_in_bytes(&[0; 8], &1), [1, 0, 0, 0, 0, 0, 0, 0]);
    assert_eq!(encode_byte_in_bytes(&[0; 8], &0x80), [0, 0, 0, 0, 0, 0, 0, 1]);
    assert_eq!(decode_byte(&[1, 0, 0, 0, 0, 0, 0, 0]), 1);
    assert_eq!(decode_byte(&[0, 0, 0, 0, 0, 0, 0, 1]), 0x80);
}
