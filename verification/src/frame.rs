//! The layout of a frame: the length of the file name in two bytes, the
//! file name, the length of the payload in eight bytes, the payload. Both
//! lengths are written with the least significant byte first.

use vstd::prelude::*;
use vstd::utf8::{decode_utf8, valid_utf8};
use crate::error::{CodecError, FrameField};

verus! {

/// The longest file name, in bytes, that a frame can declare.
pub const MAX_NAME_LEN: usize = 65535;

/// The two bytes of `value`, least significant first.
pub open spec fn u16_le(value: u16) -> Seq<u8> {
    seq![(value % 0x100) as u8, (value / 0x100) as u8]
}

/// The eight bytes of `value`, least significant first.
pub open spec fn u64_le(value: u64) -> Seq<u8> {
    seq![
        (value % 0x100) as u8,
        (value / 0x100 % 0x100) as u8,
        (value / 0x1_0000 % 0x100) as u8,
        (value / 0x100_0000 % 0x100) as u8,
        (value / 0x1_0000_0000 % 0x100) as u8,
        (value / 0x100_0000_0000 % 0x100) as u8,
        (value / 0x1_0000_0000_0000 % 0x100) as u8,
        (value / 0x100_0000_0000_0000 % 0x100) as u8,
    ]
}

/// The number that two bytes give, least significant first.
pub open spec fn u16_from_le(bytes: Seq<u8>) -> u16 {
    (bytes[0] + 0x100 * bytes[1]) as u16
}

/// The number that eight bytes give, least significant first.
pub open spec fn u64_from_le(bytes: Seq<u8>) -> u64 {
    (bytes[0] + 0x100 * bytes[1] + 0x1_0000 * bytes[2] + 0x100_0000 * bytes[3] + 0x1_0000_0000
        * bytes[4] + 0x100_0000_0000 * bytes[5] + 0x1_0000_0000_0000 * bytes[6]
        + 0x100_0000_0000_0000 * bytes[7]) as u64
}

/// The length of the frame of a name of `name_len` bytes and a payload of
/// `content_len` bytes.
pub open spec fn frame_len(name_len: nat, content_len: nat) -> nat {
    2 + name_len + 8 + content_len
}

/// The frame of a file name and a payload, both given as bytes.
pub open spec fn frame_bytes(name: Seq<u8>, content: Seq<u8>) -> Seq<u8>
    recommends
        name.len() <= MAX_NAME_LEN,
        content.len() <= u64::MAX,
{
    u16_le(name.len() as u16) + name + u64_le(content.len() as u64) + content
}

/// What a stream of bytes holds when read as a frame: the bytes of the file
/// name and the payload, or the first reason why there is no frame. Bytes
/// that follow the frame are not looked at.
pub open spec fn parse_frame(stream: Seq<u8>) -> Result<(Seq<u8>, Seq<u8>), CodecError> {
    if stream.len() < 2 {
        Err(CodecError::TruncatedFrame { field: FrameField::NameLength })
    } else {
        let name_len = u16_from_le(stream.subrange(0, 2)) as int;
        let name = stream.subrange(2, 2 + name_len);
        if stream.len() < 2 + name_len {
            Err(CodecError::TruncatedFrame { field: FrameField::Name })
        } else if !valid_utf8(name) {
            Err(CodecError::InvalidName)
        } else if stream.len() < 2 + name_len + 8 {
            Err(CodecError::TruncatedFrame { field: FrameField::PayloadLength })
        } else {
            let declared = u64_from_le(stream.subrange(2 + name_len, 2 + name_len + 8));
            if declared > usize::MAX {
                Err(CodecError::SizeOverflow { declared })
            } else if stream.len() < 2 + name_len + 8 + declared {
                Err(CodecError::TruncatedFrame { field: FrameField::Payload })
            } else {
                Ok((name, stream.subrange(2 + name_len + 8, 2 + name_len + 8 + declared)))
            }
        }
    }
}

/// The number of bytes of `stream` that are read in search of a frame:
/// the frame where there is one, the fields up to the one that is refused
/// where one is, and all of the stream where it ends inside the frame.
pub open spec fn frame_bytes_read(stream: Seq<u8>) -> nat {
    match parse_frame(stream) {
        Ok((name, content)) => frame_len(name.len(), content.len()),
        Err(CodecError::InvalidName) => (2 + u16_from_le(stream.subrange(0, 2))) as nat,
        Err(CodecError::SizeOverflow { .. }) => (2 + u16_from_le(stream.subrange(0, 2))
            + 8) as nat,
        Err(_) => stream.len(),
    }
}

/// Whether `stream` ends before the end of the frame that its own length
/// fields declare, as far as they can be read.
pub open spec fn ends_inside_frame(stream: Seq<u8>) -> bool {
    if stream.len() < 2 {
        true
    } else {
        let name_len = u16_from_le(stream.subrange(0, 2)) as int;
        if stream.len() < 2 + name_len + 8 {
            true
        } else {
            let declared = u64_from_le(stream.subrange(2 + name_len, 2 + name_len + 8));
            stream.len() < 2 + name_len + 8 + declared
        }
    }
}

/// Whether `stream` holds every byte of a name field, and those bytes are
/// not UTF-8.
pub open spec fn has_invalid_name(stream: Seq<u8>) -> bool {
    stream.len() >= 2 && {
        let name_len = u16_from_le(stream.subrange(0, 2)) as int;
        stream.len() >= 2 + name_len && !valid_utf8(stream.subrange(2, 2 + name_len))
    }
}

/// Whether `stream` holds both length fields, and the second declares more
/// bytes than a byte sequence can hold on this platform.
pub open spec fn declares_oversized_payload(stream: Seq<u8>) -> bool {
    stream.len() >= 2 && {
        let name_len = u16_from_le(stream.subrange(0, 2)) as int;
        stream.len() >= 2 + name_len + 8 && u64_from_le(
            stream.subrange(2 + name_len, 2 + name_len + 8),
        ) > usize::MAX
    }
}

/// The two bytes of `value`, least significant first.
pub fn u16_to_le_bytes(value: u16) -> (bytes: [u8; 2])
    ensures
        bytes@ == u16_le(value),
{
    let bytes: [u8; 2] = [(value % 0x100) as u8, (value / 0x100) as u8];
    assert(bytes@ =~= u16_le(value));
    bytes
}

/// The eight bytes of `value`, least significant first.
pub fn u64_to_le_bytes(value: u64) -> (bytes: [u8; 8])
    ensures
        bytes@ == u64_le(value),
{
    let bytes: [u8; 8] = [
        (value % 0x100) as u8,
        (value / 0x100 % 0x100) as u8,
        (value / 0x1_0000 % 0x100) as u8,
        (value / 0x100_0000 % 0x100) as u8,
        (value / 0x1_0000_0000 % 0x100) as u8,
        (value / 0x100_0000_0000 % 0x100) as u8,
        (value / 0x1_0000_0000_0000 % 0x100) as u8,
        (value / 0x100_0000_0000_0000 % 0x100) as u8,
    ];
    assert(bytes@ =~= u64_le(value));
    bytes
}

/// The number that the two bytes of `bytes` give, least significant first.
pub fn u16_from_le_bytes(bytes: [u8; 2]) -> (value: u16)
    ensures
        value == u16_from_le(bytes@),
{
    let low: u16 = bytes[0] as u16;
    let high: u16 = bytes[1] as u16;
    low + 0x100 * high
}

/// The number that the eight bytes of `bytes` give, least significant first.
pub fn u64_from_le_bytes(bytes: [u8; 8]) -> (value: u64)
    ensures
        value == u64_from_le(bytes@),
{
    let mut value: u64 = 0;
    value = value + bytes[0] as u64;
    value = value + 0x100 * (bytes[1] as u64);
    value = value + 0x1_0000 * (bytes[2] as u64);
    value = value + 0x100_0000 * (bytes[3] as u64);
    value = value + 0x1_0000_0000 * (bytes[4] as u64);
    value = value + 0x100_0000_0000 * (bytes[5] as u64);
    value = value + 0x1_0000_0000_0000 * (bytes[6] as u64);
    value = value + 0x100_0000_0000_0000 * (bytes[7] as u64);
    value
}

/// A declared payload length as a length on this platform.
pub fn u64_to_usize(value: u64) -> (converted: Result<usize, CodecError>)
    ensures
        value <= usize::MAX ==> converted == Ok::<usize, CodecError>(value as usize),
        value > usize::MAX ==> converted == Err::<usize, CodecError>(
            CodecError::SizeOverflow { declared: value },
        ),
{
    if value <= usize::MAX as u64 {
        Ok(value as usize)
    } else {
        Err(CodecError::SizeOverflow { declared: value })
    }
}

/// A number written in two bytes is the number read from them.
pub proof fn lemma_u16_le_round_trip(value: u16)
    ensures
        u16_le(value).len() == 2,
        u16_from_le(u16_le(value)) == value,
{
}

/// Two bytes are the two bytes of the number read from them.
pub proof fn lemma_u16_from_le_round_trip(bytes: Seq<u8>)
    requires
        bytes.len() == 2,
    ensures
        u16_le(u16_from_le(bytes)) == bytes,
{
    assert(u16_le(u16_from_le(bytes)) =~= bytes);
}

/// A number written in eight bytes is the number read from them.
pub proof fn lemma_u64_le_round_trip(value: u64)
    ensures
        u64_le(value).len() == 8,
        u64_from_le(u64_le(value)) == value,
{
    let v = value;
    assert(v % 0x100 + 0x100 * (v / 0x100 % 0x100) + 0x1_0000 * (v / 0x1_0000 % 0x100) + 0x100_0000
        * (v / 0x100_0000 % 0x100) + 0x1_0000_0000 * (v / 0x1_0000_0000 % 0x100) + 0x100_0000_0000
        * (v / 0x100_0000_0000 % 0x100) + 0x1_0000_0000_0000 * (v / 0x1_0000_0000_0000 % 0x100)
        + 0x100_0000_0000_0000 * (v / 0x100_0000_0000_0000 % 0x100) == v) by (bit_vector);
}

/// Eight bytes are the eight bytes of the number read from them.
pub proof fn lemma_u64_from_le_round_trip(bytes: Seq<u8>)
    requires
        bytes.len() == 8,
    ensures
        u64_le(u64_from_le(bytes)) == bytes,
{
    let value = u64_from_le(bytes);
    let (b0, b1, b2, b3) = (bytes[0] as u64, bytes[1] as u64, bytes[2] as u64, bytes[3] as u64);
    let (b4, b5, b6, b7) = (bytes[4] as u64, bytes[5] as u64, bytes[6] as u64, bytes[7] as u64);
    assert(b0 < 0x100 && b1 < 0x100 && b2 < 0x100 && b3 < 0x100 && b4 < 0x100 && b5 < 0x100 && b6
        < 0x100 && b7 < 0x100 && value == b0 + 0x100 * b1 + 0x1_0000 * b2 + 0x100_0000 * b3
        + 0x1_0000_0000 * b4 + 0x100_0000_0000 * b5 + 0x1_0000_0000_0000 * b6
        + 0x100_0000_0000_0000 * b7 ==> value % 0x100 == b0 && value / 0x100 % 0x100 == b1 && value
        / 0x1_0000 % 0x100 == b2 && value / 0x100_0000 % 0x100 == b3 && value / 0x1_0000_0000
        % 0x100 == b4 && value / 0x100_0000_0000 % 0x100 == b5 && value / 0x1_0000_0000_0000
        % 0x100 == b6 && value / 0x100_0000_0000_0000 % 0x100 == b7) by (bit_vector);
    assert(u64_le(value) =~= bytes);
}

/// A stream that starts with a frame is read as that frame, whatever
/// follows it.
#[verifier::spinoff_prover]
pub proof fn lemma_parse_frame_of_frame(stream: Seq<u8>, name: Seq<u8>, content: Seq<u8>)
    requires
        name.len() <= MAX_NAME_LEN,
        content.len() <= usize::MAX,
        valid_utf8(name),
        stream.len() >= frame_len(name.len(), content.len()),
        stream.subrange(0, frame_len(name.len(), content.len()) as int) == frame_bytes(
            name,
            content,
        ),
    ensures
        parse_frame(stream) == Ok::<(Seq<u8>, Seq<u8>), CodecError>((name, content)),
{
    let total = frame_len(name.len(), content.len()) as int;
    let frame = frame_bytes(name, content);
    let name_len = name.len() as int;
    let content_len = content.len() as int;
    lemma_u16_le_round_trip(name_len as u16);
    lemma_u64_le_round_trip(content_len as u64);
    assert forall|i: int| 0 <= i < total implies stream[i] == frame[i] by {
        assert(stream.subrange(0, total)[i] == stream[i]);
    }
    assert(stream.subrange(0, 2) =~= u16_le(name_len as u16));
    assert(stream.subrange(2, 2 + name_len) =~= name);
    assert(stream.subrange(2 + name_len, 2 + name_len + 8) =~= u64_le(content_len as u64));
    assert(stream.subrange(2 + name_len + 8, 2 + name_len + 8 + content_len) =~= content);
}

/// A frame that is cut off before its end is reported as truncated.
#[verifier::spinoff_prover]
pub proof fn lemma_parse_frame_of_cut_frame(stream: Seq<u8>, name: Seq<u8>, content: Seq<u8>)
    requires
        name.len() <= MAX_NAME_LEN,
        content.len() <= usize::MAX,
        valid_utf8(name),
        stream.len() < frame_len(name.len(), content.len()),
        stream == frame_bytes(name, content).subrange(0, stream.len() as int),
    ensures
        parse_frame(stream) is Err,
        parse_frame(stream)->Err_0.is_truncated(),
{
    let frame = frame_bytes(name, content);
    let name_len = name.len() as int;
    let content_len = content.len() as int;
    lemma_u16_le_round_trip(name_len as u16);
    lemma_u64_le_round_trip(content_len as u64);
    assert(frame.len() == frame_len(name.len(), content.len()));
    assert forall|i: int| 0 <= i < stream.len() implies stream[i] == frame[i] by {
        assert(frame.subrange(0, stream.len() as int)[i] == frame[i]);
    }
    if stream.len() >= 2 {
        assert(stream.subrange(0, 2) =~= u16_le(name_len as u16));
        if stream.len() >= 2 + name_len {
            assert(stream.subrange(2, 2 + name_len) =~= name);
            if stream.len() >= 2 + name_len + 8 {
                assert(stream.subrange(2 + name_len, 2 + name_len + 8) =~= u64_le(
                    content_len as u64,
                ));
            }
        }
    }
}

/// What is read from a stream is a whole frame at its start: no name and
/// no payload is ever made up from a stream that ends too early.
#[verifier::spinoff_prover]
pub proof fn lemma_parsed_frame_is_whole(stream: Seq<u8>)
    requires
        parse_frame(stream) is Ok,
    ensures
        ({
            let (name, content) = parse_frame(stream)->Ok_0;
            &&& name.len() <= MAX_NAME_LEN
            &&& content.len() <= usize::MAX
            &&& valid_utf8(name)
            &&& frame_len(name.len(), content.len()) <= stream.len()
            &&& stream.subrange(0, frame_len(name.len(), content.len()) as int) == frame_bytes(
                name,
                content,
            )
        }),
        !ends_inside_frame(stream),
{
    let (name, content) = parse_frame(stream)->Ok_0;
    let name_len = u16_from_le(stream.subrange(0, 2)) as int;
    let declared = u64_from_le(stream.subrange(2 + name_len, 2 + name_len + 8));
    lemma_u16_from_le_round_trip(stream.subrange(0, 2));
    lemma_u64_from_le_round_trip(stream.subrange(2 + name_len, 2 + name_len + 8));
    assert(stream.subrange(0, frame_len(name.len(), content.len()) as int) =~= frame_bytes(
        name,
        content,
    ));
}

/// A stream that ends inside the frame it declares is reported as
/// truncated, unless the name field came whole and is not UTF-8, or the
/// declared payload is too long for this platform: those are reported as
/// what they are.
#[verifier::spinoff_prover]
pub proof fn lemma_truncated_frame(stream: Seq<u8>)
    requires
        ends_inside_frame(stream),
        !has_invalid_name(stream),
        !declares_oversized_payload(stream),
    ensures
        parse_frame(stream) is Err,
        parse_frame(stream)->Err_0.is_truncated(),
{
}

/// A stream of fewer than ten bytes ends inside any frame.
#[verifier::spinoff_prover]
pub proof fn lemma_short_stream_ends_inside_frame(stream: Seq<u8>)
    requires
        stream.len() < 10,
    ensures
        ends_inside_frame(stream),
        !declares_oversized_payload(stream),
        parse_frame(stream) is Err,
        has_invalid_name(stream) ==> parse_frame(stream) == Err::<(Seq<u8>, Seq<u8>), CodecError>(
            CodecError::InvalidName,
        ),
        !has_invalid_name(stream) ==> parse_frame(stream)->Err_0.is_truncated(),
{
}

} // verus!
