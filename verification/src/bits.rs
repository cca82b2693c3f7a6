//! One payload byte in the lowest bits of eight carrier bytes.

use vstd::prelude::*;

verus! {

/// Whether bit `i` of `value` is set; bit 0 is the least significant one.
pub open spec fn bit(value: u8, i: int) -> bool {
    (value >> (i as u8)) & 1 == 1
}

/// Whether the lowest bit of `byte` is set.
pub open spec fn low_bit(byte: u8) -> bool {
    byte & 1 == 1
}

/// `byte` with its lowest bit set or cleared, and its seven upper bits kept.
pub open spec fn with_low_bit(byte: u8, on: bool) -> u8 {
    if on {
        byte | 1
    } else {
        byte & 0xfe
    }
}

/// The window that carries `value`: byte `i` of `window` takes bit `i` of
/// `value` as its lowest bit.
pub open spec fn encode_window(window: Seq<u8>, value: u8) -> Seq<u8>
    recommends
        window.len() == 8,
{
    Seq::new(8, |i: int| with_low_bit(window[i], bit(value, i)))
}

/// The contribution of carrier byte `byte` at place `i` of a window: its
/// lowest bit moved to bit `i`.
pub open spec fn placed_bit(byte: u8, i: int) -> u8 {
    (byte & 1) << (i as u8)
}

/// The byte that a window carries: bit `i` is the lowest bit of byte `i`.
pub open spec fn decode_window(window: Seq<u8>) -> u8
    recommends
        window.len() == 8,
{
    placed_bit(window[0], 0) | placed_bit(window[1], 1) | placed_bit(window[2], 2) | placed_bit(
        window[3],
        3,
    ) | placed_bit(window[4], 4) | placed_bit(window[5], 5) | placed_bit(window[6], 6)
        | placed_bit(window[7], 7)
}

/// Hides `payload` in the lowest bits of the eight bytes of `target`.
pub fn encode_byte_in_bytes(target: &[u8; 8], payload: &u8) -> (result: [u8; 8])
    ensures
        result@ == encode_window(target@, *payload),
        forall|i: int| 0 <= i < 8 ==> result@[i] & 0xfe == #[trigger] target@[i] & 0xfe,
{
    let mut mask: u8 = 0b0000_0001;
    let mut result: [u8; 8] = [0;8];
    let value: u8 = *payload;
    assert(1u8 << 0u8 == 1) by (bit_vector);

    for i in 0..8usize
        invariant
            i < 8 ==> mask == 1u8 << (i as u8),
            forall|k: int| 0 <= k < i ==> result@[k] == with_low_bit(target@[k], bit(value, k)),
    {
        let current_bit: u8 = value & mask;
        let carrier: u8 = target[i];

        let encoded: u8 = if current_bit != 0 {
            carrier | 0b0000_0001
        } else {
            carrier & 0b1111_1110
        };
        proof {
            let place: u8 = i as u8;
            assert(place < 8 ==> ((value & (1u8 << place)) != 0 <==> (value >> place) & 1 == 1))
                by (bit_vector);
        }

        result[i] = encoded;
        if i < 7 {
            proof {
                let place: u8 = i as u8;
                assert(place < 7 ==> (1u8 << place) << 1u8 == 1u8 << ((place + 1) as u8))
                    by (bit_vector);
                assert(place < 7 ==> (1u8 << place) < 128) by (bit_vector);
            }
            mask = mask << 1;
        }
    }
    proof {
        assert(result@ =~= encode_window(target@, value));
        assert forall|i: int| 0 <= i < 8 implies result@[i] & 0xfe == #[trigger] target@[i]
            & 0xfe by {
            lemma_with_low_bit(target@[i], bit(value, i));
        }
    }

    result
}

/// Reads back the byte hidden in the lowest bits of the eight bytes of
/// `encoded`. The seven upper bits of each byte play no part.
pub fn decode_byte(encoded: &[u8; 8]) -> (decoded: u8)
    ensures
        decoded == decode_window(encoded@),
{
    let mask: u8 = 0b0000_0001;
    let b0: u8 = mask & encoded[0];
    let b1: u8 = mask & encoded[1];
    let b2: u8 = mask & encoded[2];
    let b3: u8 = mask & encoded[3];
    let b4: u8 = mask & encoded[4];
    let b5: u8 = mask & encoded[5];
    let b6: u8 = mask & encoded[6];
    let b7: u8 = mask & encoded[7];
    proof {
        lemma_placed_bit_mask(encoded[0]);
        lemma_placed_bit_mask(encoded[1]);
        lemma_placed_bit_mask(encoded[2]);
        lemma_placed_bit_mask(encoded[3]);
        lemma_placed_bit_mask(encoded[4]);
        lemma_placed_bit_mask(encoded[5]);
        lemma_placed_bit_mask(encoded[6]);
        lemma_placed_bit_mask(encoded[7]);
    }
    b0 | (b1 << 1) | (b2 << 2) | (b3 << 3) | (b4 << 4) | (b5 << 5) | (b6 << 6) | (b7 << 7)
}

/// Setting or clearing the lowest bit gives that bit the wanted value and
/// leaves the seven upper bits as they were.
pub proof fn lemma_with_low_bit(byte: u8, on: bool)
    ensures
        low_bit(with_low_bit(byte, on)) == on,
        with_low_bit(byte, on) & 0xfe == byte & 0xfe,
{
    assert((byte | 1) & 1 == 1) by (bit_vector);
    assert((byte & 0xfe) & 1 == 0) by (bit_vector);
    assert((byte | 1) & 0xfe == byte & 0xfe) by (bit_vector);
    assert((byte & 0xfe) & 0xfe == byte & 0xfe) by (bit_vector);
}

/// A byte written into a window is the byte read back from it, whatever the
/// window held before.
pub proof fn lemma_decode_encode_window(window: Seq<u8>, value: u8)
    requires
        window.len() == 8,
    ensures
        decode_window(encode_window(window, value)) == value,
{
    let hidden = encode_window(window, value);
    assert forall|i: int| 0 <= i < 8 implies #[trigger] placed_bit(hidden[i], i) == value & (1u8
        << (i as u8)) by {
        lemma_placed_bit_of_encoded(window[i], value, i as u8);
    }
    let v = value;
    assert((v & (1u8 << 0u8)) | (v & (1u8 << 1u8)) | (v & (1u8 << 2u8)) | (v & (1u8 << 3u8)) | (v
        & (1u8 << 4u8)) | (v & (1u8 << 5u8)) | (v & (1u8 << 6u8)) | (v & (1u8 << 7u8)) == v)
        by (bit_vector);
}

/// Every byte of an encoded window differs from the byte it replaces in the
/// lowest bit at most.
pub proof fn lemma_encode_window_keeps_upper_bits(window: Seq<u8>, value: u8, i: int)
    requires
        window.len() == 8,
        0 <= i < 8,
    ensures
        encode_window(window, value)[i] & 0xfe == window[i] & 0xfe,
        low_bit(encode_window(window, value)[i]) == bit(value, i),
{
    lemma_with_low_bit(window[i], bit(value, i));
}

/// The byte read from a window depends on the lowest bits of its bytes alone.
pub proof fn lemma_decode_window_reads_low_bits(first: Seq<u8>, second: Seq<u8>)
    requires
        first.len() == 8,
        second.len() == 8,
        forall|i: int| 0 <= i < 8 ==> low_bit(#[trigger] first[i]) == low_bit(second[i]),
    ensures
        decode_window(first) == decode_window(second),
{
    assert forall|i: int| 0 <= i < 8 implies #[trigger] placed_bit(first[i], i) == placed_bit(
        second[i],
        i,
    ) by {
        let a = first[i];
        let b = second[i];
        assert(low_bit(a) == low_bit(b));
        assert(((a & 1 == 1) == (b & 1 == 1)) ==> a & 1 == b & 1) by (bit_vector);
    }
}

proof fn lemma_placed_bit_of_encoded(carrier: u8, value: u8, place: u8)
    requires
        place < 8,
    ensures
        placed_bit(with_low_bit(carrier, bit(value, place as int)), place as int) == value & (1u8
            << place),
{
    assert(place < 8 ==> ((if (value >> place) & 1 == 1 {
        carrier | 1
    } else {
        carrier & 0xfe
    }) & 1) << place == value & (1u8 << place)) by (bit_vector);
}

proof fn lemma_placed_bit_mask(byte: u8)
    ensures
        1u8 & byte == byte & 1,
        (byte & 1) << 0u8 == byte & 1,
{
    assert(1u8 & byte == byte & 1) by (bit_vector);
    assert((byte & 1) << 0u8 == byte & 1) by (bit_vector);
}

} // verus!
