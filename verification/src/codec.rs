//! Hiding a frame in a carrier, and reading one back.

use vstd::prelude::*;
use vstd::utf8::{decode_utf8, encode_utf8_valid_utf8};
use crate::bits::{
    bit, encode_byte_in_bytes, encode_window, lemma_decode_encode_window, lemma_with_low_bit,
    with_low_bit,
};
use crate::capacity::payload_fits;
use crate::chunks::{
    create_byte_chunks, decode_chunks, hidden_stream, window_at, window_count, ByteChunks,
};
use crate::error::{CodecError, FrameField};
use crate::frame::{
    ends_inside_frame, declares_oversized_payload, frame_bytes_read, has_invalid_name,
    lemma_parse_frame_of_cut_frame, lemma_short_stream_ends_inside_frame, lemma_truncated_frame,
    parse_frame, u16_from_le_bytes, u64_from_le_bytes, u64_to_usize, MAX_NAME_LEN,
};
use crate::names::name_from_bytes;
use crate::payload::{lemma_parse_frame_of_payload, NamedContent, Payload};

verus! {

/// The carrier with `frame` hidden in it: carrier byte `j` of the first
/// `8 * frame.len()` takes bit `j % 8` of frame byte `j / 8` as its lowest
/// bit, and every later byte stays as it is.
pub open spec fn embed(carrier: Seq<u8>, frame: Seq<u8>) -> Seq<u8>
    recommends
        8 * frame.len() <= carrier.len(),
{
    Seq::new(
        carrier.len(),
        |j: int|
            if j < 8 * frame.len() {
                with_low_bit(carrier[j], bit(frame[j / 8], j % 8))
            } else {
                carrier[j]
            },
    )
}

/// What hiding `payload` in `carrier` gives: the carrier with the frame in
/// it, or the reason why the frame cannot be hidden. A frame that does not
/// fit is reported before a name that is too long.
pub open spec fn encoded(carrier: Seq<u8>, payload: NamedContent) -> Result<Seq<u8>, CodecError> {
    if payload.frame_len() * 8 > carrier.len() {
        Err(CodecError::PayloadTooLarge)
    } else if payload.name_bytes().len() > MAX_NAME_LEN {
        Err(CodecError::NameTooLong)
    } else {
        Ok(embed(carrier, payload.frame()))
    }
}

/// What `carrier` hides: the name and the content of the frame that its
/// windows spell out, or the reason why they spell out none.
pub open spec fn decoded(carrier: Seq<u8>) -> Result<NamedContent, CodecError> {
    match parse_frame(hidden_stream(carrier)) {
        Ok((name, content)) => Ok(NamedContent { name: decode_utf8(name), content }),
        Err(error) => Err(error),
    }
}

/// Whether `frame` is the name and the payload that `carrier` hides, or the
/// reason why it hides none.
pub open spec fn is_decoded(
    carrier: Seq<u8>,
    frame: Result<(String, Vec<u8>), CodecError>,
) -> bool {
    match decoded(carrier) {
        Ok(content) => frame is Ok && frame->Ok_0.0@ == content.name && frame->Ok_0.1@
            == content.content,
        Err(error) => frame == Err::<(String, Vec<u8>), CodecError>(error),
    }
}

/// Hides `payload` in a copy of `carrier`. The copy is as long as the
/// carrier, and differs from it in the lowest bits of the bytes that carry
/// the frame at most.
#[verifier::spinoff_prover]
pub fn encode_bytes(carrier: &[u8], payload: Payload) -> (output: Result<Vec<u8>, CodecError>)
    ensures
        match encoded(carrier@, payload@) {
            Ok(bytes) => output is Ok && output->Ok_0@ == bytes,
            Err(error) => output == Err::<Vec<u8>, CodecError>(error),
        },
        output is Ok ==> output->Ok_0@.len() == carrier@.len(),
        output is Ok ==> forall|j: int|
            8 * payload@.frame_len() <= j < carrier@.len() ==> #[trigger] output->Ok_0@[j]
                == carrier@[j],
        output is Ok ==> forall|j: int|
            0 <= j < carrier@.len() ==> #[trigger] output->Ok_0@[j] & 0xfe == carrier@[j] & 0xfe,
{
    let capacity: usize = carrier.len();
    let fits = match payload.size() {
        Some(payload_size) => payload_fits(payload_size, capacity),
        None => false,
    };
    if !fits {
        return Err(CodecError::PayloadTooLarge);
    }
    let frame: Vec<u8> = match payload.into_bytes() {
        Ok(frame) => frame,
        Err(error) => {
            return Err(error);
        },
    };
    let mut chunks = create_byte_chunks(carrier);
    let mut output: Vec<u8> = Vec::new();

    // One window for each byte of the frame
    let mut written: usize = 0;
    while written < frame.len()
        invariant
            written <= frame@.len(),
            8 * frame@.len() <= carrier@.len(),
            chunks.carrier() == carrier@,
            chunks.position() == written,
            output@.len() == 8 * written,
            forall|j: int|
                0 <= j < 8 * written ==> #[trigger] output@[j] == with_low_bit(
                    carrier@[j],
                    bit(frame@[j / 8], j % 8),
                ),
        ensures
            written == frame@.len(),
        decreases frame@.len() - written,
    {
        match chunks.next() {
            Some(window) => {
                let hidden: [u8; 8] = encode_byte_in_bytes(&window, &frame[written]);
                let ghost before = output@;
                output.extend_from_slice(&hidden);
                assert forall|j: int| 0 <= j < 8 * (written + 1) implies #[trigger] output@[j]
                    == with_low_bit(carrier@[j], bit(frame@[j / 8], j % 8)) by {
                    if j < 8 * written {
                        assert(output@[j] == before[j]);
                    } else {
                        assert(j / 8 == written && j % 8 == j - 8 * written);
                        assert(output@[j] == hidden@[j - 8 * written]);
                        assert(window@[j - 8 * written] == carrier@[j]);
                    }
                }
                written = written + 1;
            },
            None => {
                break ;
            },
        }
    }

    output.reserve(carrier.len() - output.len());

    // The rest of the carrier is copied as it is
    let mut at: usize = output.len();
    while at < carrier.len()
        invariant
            8 * frame@.len() <= at <= carrier@.len(),
            output@.len() == at,
            forall|j: int|
                0 <= j < 8 * frame@.len() ==> #[trigger] output@[j] == with_low_bit(
                    carrier@[j],
                    bit(frame@[j / 8], j % 8),
                ),
            forall|j: int| 8 * frame@.len() <= j < at ==> #[trigger] output@[j] == carrier@[j],
        decreases carrier@.len() - at,
    {
        output.push(carrier[at]);
        at = at + 1;
    }
    proof {
        assert(output@ =~= embed(carrier@, frame@));
        assert forall|j: int| 0 <= j < carrier@.len() implies #[trigger] output@[j] & 0xfe
            == carrier@[j] & 0xfe by {
            if j < 8 * frame@.len() {
                lemma_with_low_bit(carrier@[j], bit(frame@[j / 8], j % 8));
            }
        }
    }
    Ok(output)
}

/// Reads a frame from the windows that `chunks` has not handed out yet:
/// the length of the name, the name, the length of the payload, the
/// payload, each checked as soon as it is read.
#[verifier::spinoff_prover]
pub fn read_frame(chunks: &mut ByteChunks) -> (frame: Result<(String, Vec<u8>), CodecError>)
    ensures
        final(chunks).carrier() == old(chunks).carrier(),
        final(chunks).position() == old(chunks).position() + frame_bytes_read(
            hidden_stream(old(chunks).carrier()).skip(old(chunks).position() as int),
        ),
        match parse_frame(
            hidden_stream(old(chunks).carrier()).skip(old(chunks).position() as int),
        ) {
            Ok((name, content)) => frame is Ok && frame->Ok_0.0@ == decode_utf8(name)
                && frame->Ok_0.1@ == content,
            Err(error) => frame == Err::<(String, Vec<u8>), CodecError>(error),
        },
{
    let ghost start = chunks.position() as int;
    let ghost stream = hidden_stream(chunks.carrier());
    proof {
        chunks.lemma_position_in_carrier();
    }

    let name_len_bytes: Vec<u8> = decode_chunks(chunks, 2);
    if name_len_bytes.len() < 2 {
        return Err(CodecError::TruncatedFrame { field: FrameField::NameLength });
    }
    let file_name_size: u16 = u16_from_le_bytes(two_bytes(&name_len_bytes));
    proof {
        lemma_subrange_of_skip(stream, start, 0, 2);
    }

    let name_bytes: Vec<u8> = decode_chunks(chunks, file_name_size as usize);
    if name_bytes.len() < file_name_size as usize {
        return Err(CodecError::TruncatedFrame { field: FrameField::Name });
    }
    proof {
        lemma_subrange_of_skip(stream, start, 2, 2 + file_name_size);
    }
    let file_name: String = match name_from_bytes(name_bytes) {
        Ok(file_name) => file_name,
        Err(error) => {
            return Err(error);
        },
    };

    let payload_len_bytes: Vec<u8> = decode_chunks(chunks, 8);
    if payload_len_bytes.len() < 8 {
        return Err(CodecError::TruncatedFrame { field: FrameField::PayloadLength });
    }
    let declared: u64 = u64_from_le_bytes(eight_bytes(&payload_len_bytes));
    proof {
        lemma_subrange_of_skip(stream, start, 2 + file_name_size, 2 + file_name_size + 8);
    }

    let payload_size: usize = match u64_to_usize(declared) {
        Ok(payload_size) => payload_size,
        Err(error) => {
            return Err(error);
        },
    };
    let payload: Vec<u8> = decode_chunks(chunks, payload_size);

    if payload.len() < payload_size {
        return Err(CodecError::TruncatedFrame { field: FrameField::Payload });
    }
    proof {
        lemma_subrange_of_skip(
            stream,
            start,
            2 + file_name_size + 8,
            2 + file_name_size + 8 + payload_size,
        );
    }

    Ok((file_name, payload))
}

/// The two bytes of a length field as an array.
fn two_bytes(bytes: &Vec<u8>) -> (field: [u8; 2])
    requires
        bytes@.len() == 2,
    ensures
        field@ == bytes@,
{
    let field: [u8; 2] = [bytes[0], bytes[1]];
    assert(field@ =~= bytes@);
    field
}

/// The eight bytes of a length field as an array.
fn eight_bytes(bytes: &Vec<u8>) -> (field: [u8; 8])
    requires
        bytes@.len() == 8,
    ensures
        field@ == bytes@,
{
    let field: [u8; 8] = [
        bytes[0],
        bytes[1],
        bytes[2],
        bytes[3],
        bytes[4],
        bytes[5],
        bytes[6],
        bytes[7],
    ];
    assert(field@ =~= bytes@);
    field
}

proof fn lemma_subrange_of_skip(stream: Seq<u8>, start: int, from: int, to: int)
    requires
        0 <= start,
        0 <= from <= to,
        start + to <= stream.len(),
    ensures
        stream.skip(start).subrange(from, to) == stream.subrange(start + from, start + to),
{
    assert(stream.skip(start).subrange(from, to) =~= stream.subrange(start + from, start + to));
}

/// Recovers the file name and the payload that `carrier` hides.
pub fn decode_bytes(carrier: &[u8]) -> (frame: Result<(String, Vec<u8>), CodecError>)
    ensures
        is_decoded(carrier@, frame),
{
    let mut chunks = create_byte_chunks(carrier);
    assert(hidden_stream(carrier@).skip(0) =~= hidden_stream(carrier@));
    read_frame(&mut chunks)
}

/// Hiding a frame changes no carrier byte beyond the windows of the frame,
/// changes the lowest bit only of the bytes within them, and keeps the
/// length of the carrier.
pub proof fn lemma_embed_keeps_carrier(carrier: Seq<u8>, frame: Seq<u8>)
    requires
        8 * frame.len() <= carrier.len(),
    ensures
        embed(carrier, frame).len() == carrier.len(),
        forall|j: int|
            8 * frame.len() <= j < carrier.len() ==> #[trigger] embed(carrier, frame)[j]
                == carrier[j],
        forall|j: int|
            0 <= j < carrier.len() ==> #[trigger] embed(carrier, frame)[j] & 0xfe == carrier[j]
                & 0xfe,
{
    assert forall|j: int| 0 <= j < carrier.len() implies #[trigger] embed(carrier, frame)[j]
        & 0xfe == carrier[j] & 0xfe by {
        if j < 8 * frame.len() {
            lemma_with_low_bit(carrier[j], bit(frame[j / 8], j % 8));
        }
    }
}

/// The windows of a carrier with a frame hidden in it spell out the frame,
/// byte by byte.
#[verifier::spinoff_prover]
pub proof fn lemma_hidden_stream_of_embed(carrier: Seq<u8>, frame: Seq<u8>)
    requires
        8 * frame.len() <= carrier.len(),
    ensures
        hidden_stream(embed(carrier, frame)).len() == window_count(carrier.len()),
        frame.len() <= window_count(carrier.len()),
        hidden_stream(embed(carrier, frame)).subrange(0, frame.len() as int) == frame,
        forall|i: int|
            frame.len() <= i < window_count(carrier.len()) ==> #[trigger] hidden_stream(
                embed(carrier, frame),
            )[i] == hidden_stream(carrier)[i],
{
    let output = embed(carrier, frame);
    let stream = hidden_stream(output);
    assert forall|i: int| 0 <= i < frame.len() implies #[trigger] stream[i] == frame[i] by {
        let before = window_at(carrier, i);
        assert forall|k: int| 0 <= k < 8 implies #[trigger] window_at(output, i)[k]
            == encode_window(before, frame[i])[k] by {
            let j = 8 * i + k;
            assert(j / 8 == i && j % 8 == k);
            assert(window_at(output, i)[k] == output[j]);
            assert(before[k] == carrier[j]);
        }
        assert(window_at(output, i) =~= encode_window(before, frame[i]));
        lemma_decode_encode_window(before, frame[i]);
    }
    assert(stream.subrange(0, frame.len() as int) =~= frame);
    assert forall|i: int|
        frame.len() <= i < window_count(carrier.len()) implies #[trigger] stream[i]
        == hidden_stream(carrier)[i] by {
        assert(window_at(output, i) =~= window_at(carrier, i));
    }
}

/// The windows of an encoded carrier start with the frame of the payload.
#[verifier::spinoff_prover]
pub proof fn lemma_hidden_stream_of_encoded(carrier: Seq<u8>, payload: NamedContent)
    requires
        encoded(carrier, payload) is Ok,
    ensures
        payload.frame().len() == payload.frame_len(),
        payload.name_bytes().len() <= MAX_NAME_LEN,
        8 * payload.frame_len() <= carrier.len(),
        encoded(carrier, payload)->Ok_0 == embed(carrier, payload.frame()),
        hidden_stream(encoded(carrier, payload)->Ok_0).len() >= payload.frame_len(),
        hidden_stream(encoded(carrier, payload)->Ok_0).subrange(0, payload.frame_len() as int)
            == payload.frame(),
{
    lemma_hidden_stream_of_embed(carrier, payload.frame());
}

/// What was hidden in a carrier is what is read back from it: the same
/// name and the same content, whatever the carrier held before.
#[verifier::spinoff_prover]
pub proof fn lemma_decode_encoded(carrier: Seq<u8>, payload: NamedContent)
    requires
        carrier.len() <= usize::MAX,
        encoded(carrier, payload) is Ok,
    ensures
        decoded(encoded(carrier, payload)->Ok_0) == Ok::<NamedContent, CodecError>(payload),
{
    let stream = hidden_stream(encoded(carrier, payload)->Ok_0);
    lemma_hidden_stream_of_encoded(carrier, payload);
    lemma_parse_frame_of_payload(stream, payload);
}

/// An encoded carrier that is cut off before the last window of its frame
/// is reported as truncated.
#[verifier::spinoff_prover]
pub proof fn lemma_cropped_carrier_is_truncated(carrier: Seq<u8>, payload: NamedContent, kept: int)
    requires
        carrier.len() <= usize::MAX,
        encoded(carrier, payload) is Ok,
        0 <= kept < 8 * payload.frame_len(),
    ensures
        decoded(encoded(carrier, payload)->Ok_0.subrange(0, kept)) is Err,
        decoded(encoded(carrier, payload)->Ok_0.subrange(0, kept))->Err_0.is_truncated(),
{
    let output = encoded(carrier, payload)->Ok_0;
    let stream = hidden_stream(output.subrange(0, kept));
    lemma_hidden_stream_of_encoded(carrier, payload);
    lemma_hidden_stream_of_cut_carrier(output, kept);
    assert(stream =~= payload.frame().subrange(0, stream.len() as int));
    encode_utf8_valid_utf8(payload.name);
    lemma_parse_frame_of_cut_frame(stream, payload.name_bytes(), payload.content);
}

/// The windows of the start of a carrier spell out the start of what the
/// windows of the whole carrier spell out.
pub proof fn lemma_hidden_stream_of_cut_carrier(carrier: Seq<u8>, kept: int)
    requires
        0 <= kept <= carrier.len(),
    ensures
        hidden_stream(carrier.subrange(0, kept)).len() == kept / 8,
        hidden_stream(carrier.subrange(0, kept)) == hidden_stream(carrier).subrange(0, kept / 8),
{
    let cut = carrier.subrange(0, kept);
    assert forall|i: int| 0 <= i < kept / 8 implies #[trigger] hidden_stream(cut)[i]
        == hidden_stream(carrier)[i] by {
        assert(window_at(cut, i) =~= window_at(carrier, i));
    }
    assert(hidden_stream(cut) =~= hidden_stream(carrier).subrange(0, kept / 8));
}

/// A carrier whose windows end inside the frame that they declare is
/// reported as truncated, unless they hold a whole name field that is not
/// UTF-8, or declare a payload too long for this platform: those are
/// reported as what they are.
pub proof fn lemma_truncated_carrier(carrier: Seq<u8>)
    requires
        ends_inside_frame(hidden_stream(carrier)),
        !has_invalid_name(hidden_stream(carrier)),
        !declares_oversized_payload(hidden_stream(carrier)),
    ensures
        decoded(carrier) is Err,
        decoded(carrier)->Err_0.is_truncated(),
{
    lemma_truncated_frame(hidden_stream(carrier));
}

/// A carrier of fewer than ten windows hides nothing: reading it fails.
pub proof fn lemma_short_carrier_hides_nothing(carrier: Seq<u8>)
    requires
        carrier.len() < 80,
    ensures
        decoded(carrier) is Err,
        ends_inside_frame(hidden_stream(carrier)),
        !declares_oversized_payload(hidden_stream(carrier)),
{
    lemma_short_stream_ends_inside_frame(hidden_stream(carrier));
}

/// A carrier of fewer than ten windows is reported as truncated, unless its
/// windows hold a whole name field that is not UTF-8.
pub proof fn lemma_short_carrier_is_truncated(carrier: Seq<u8>)
    requires
        carrier.len() < 80,
        !has_invalid_name(hidden_stream(carrier)),
    ensures
        decoded(carrier) is Err,
        decoded(carrier)->Err_0.is_truncated(),
{
    lemma_short_carrier_hides_nothing(carrier);
    lemma_truncated_carrier(carrier);
}

} // verus!
