//! What is hidden: the content of a file under its name, or a text under a
//! fixed name.

use vstd::prelude::*;
use vstd::string::StringSliceAdditionalSpecFns;
use vstd::utf8::{decode_utf8, encode_utf8, encode_utf8_decode_utf8, encode_utf8_valid_utf8};
use crate::error::CodecError;
use crate::frame::{
    frame_bytes, frame_len, lemma_parse_frame_of_frame, parse_frame, u16_to_le_bytes,
    u64_to_le_bytes, MAX_NAME_LEN,
};

verus! {

/// The data to hide in a carrier.
#[derive(Debug)]
pub enum Payload {
    /// The content of a file, and the name it is restored under.
    File { file_name: String, bytes: Vec<u8> },
    /// A text. It is restored as a file named `output.txt`.
    Literal(String),
}

/// What a frame says of a payload: a file name and the bytes of the file.
pub struct NamedContent {
    pub name: Seq<char>,
    pub content: Seq<u8>,
}

/// The name under which a text is restored.
pub open spec fn literal_name() -> Seq<char> {
    "output.txt"@
}

impl View for Payload {
    type V = NamedContent;

    /// A text is the file `output.txt` whose content is the text in UTF-8.
    open spec fn view(&self) -> NamedContent {
        match *self {
            Payload::File { file_name, bytes } => NamedContent {
                name: file_name@,
                content: bytes@,
            },
            Payload::Literal(text) => NamedContent {
                name: literal_name(),
                content: encode_utf8(text@),
            },
        }
    }
}

impl NamedContent {
    /// The file name in UTF-8.
    pub open spec fn name_bytes(self) -> Seq<u8> {
        encode_utf8(self.name)
    }

    /// The length of the frame.
    pub open spec fn frame_len(self) -> nat {
        frame_len(self.name_bytes().len(), self.content.len())
    }

    /// The frame: both lengths and both byte sequences, as laid out on the
    /// carrier.
    pub open spec fn frame(self) -> Seq<u8> {
        frame_bytes(self.name_bytes(), self.content)
    }
}

/// The name of a text payload is ten ASCII characters long.
pub proof fn lemma_literal_name()
    ensures
        literal_name().len() == 10,
        encode_utf8(literal_name()).len() == 10,
        encode_utf8(literal_name()) == seq![
            0x6fu8,
            0x75u8,
            0x74u8,
            0x70u8,
            0x75u8,
            0x74u8,
            0x2eu8,
            0x74u8,
            0x78u8,
            0x74u8,
        ],
{
    reveal_strlit("output.txt");
    let name = "output.txt";
    vstd::string::is_ascii_spec_bytes(name);
    assert(vstd::string::is_ascii(name));
    assert(name.spec_bytes() =~= seq![
        0x6fu8,
        0x75u8,
        0x74u8,
        0x70u8,
        0x75u8,
        0x74u8,
        0x2eu8,
        0x74u8,
        0x78u8,
        0x74u8,
    ]);
}

/// A stream that starts with the frame of a payload is read as the name
/// and the content of that payload.
#[verifier::spinoff_prover]
pub proof fn lemma_parse_frame_of_payload(stream: Seq<u8>, payload: NamedContent)
    requires
        payload.name_bytes().len() <= MAX_NAME_LEN,
        payload.content.len() <= usize::MAX,
        stream.len() >= payload.frame_len(),
        stream.subrange(0, payload.frame_len() as int) == payload.frame(),
    ensures
        parse_frame(stream) == Ok::<(Seq<u8>, Seq<u8>), CodecError>(
            (payload.name_bytes(), payload.content),
        ),
        decode_utf8(payload.name_bytes()) == payload.name,
{
    encode_utf8_valid_utf8(payload.name);
    encode_utf8_decode_utf8(payload.name);
    lemma_parse_frame_of_frame(stream, payload.name_bytes(), payload.content);
}

impl Payload {
    /// The length of the frame of the payload: two bytes for the length of
    /// the name, the name, eight bytes for the length of the content, the
    /// content. `None` where that length is more than a `usize` can hold.
    pub fn size(&self) -> (size: Option<usize>)
        ensures
            self@.frame_len() <= usize::MAX ==> size == Some(self@.frame_len() as usize),
            self@.frame_len() > usize::MAX ==> size is None,
    {
        let (name_len, content_len): (usize, usize) = match self {
            Payload::File { bytes, file_name } => (
                file_name.as_str().as_bytes().len(),
                bytes.len(),
            ),
            Payload::Literal(string) => (
                "output.txt".as_bytes().len(),
                string.as_str().as_bytes().len(),
            ),
        };
        proof {
            lemma_literal_name();
        }
        match name_len.checked_add(10) {
            Some(header_and_name) => header_and_name.checked_add(content_len),
            None => None,
        }
    }

    /// The frame of the payload. A file name of more than 65535 bytes has no
    /// frame: its length does not fit the two bytes that declare it.
    pub fn into_bytes(self) -> (frame: Result<Vec<u8>, CodecError>)
        ensures
            self@.name_bytes().len() <= MAX_NAME_LEN ==> frame is Ok && frame->Ok_0@
                == self@.frame(),
            self@.name_bytes().len() > MAX_NAME_LEN ==> frame == Err::<Vec<u8>, CodecError>(
                CodecError::NameTooLong,
            ),
    {
        let ghost content = self@;
        let (bytes, file_name): (Vec<u8>, String) = match self {
            Payload::File { bytes, file_name } => (bytes, file_name),
            Payload::Literal(string) => (
                vstd::slice::slice_to_vec(string.as_str().as_bytes()),
                "output.txt".to_owned(),
            ),
        };
        let name: &[u8] = file_name.as_str().as_bytes();
        assert(name@ == content.name_bytes());
        assert(bytes@ == content.content);
        if name.len() > MAX_NAME_LEN {
            return Err(CodecError::NameTooLong);
        }
        let name_len: [u8; 2] = u16_to_le_bytes(name.len() as u16);
        let bytes_len: [u8; 8] = u64_to_le_bytes(bytes.len() as u64);

        let mut frame: Vec<u8> = Vec::new();
        frame.extend_from_slice(&name_len);
        frame.extend_from_slice(name);
        frame.extend_from_slice(&bytes_len);
        frame.extend_from_slice(bytes.as_slice());
        assert(frame@ =~= content.frame());
        Ok(frame)
    }
}

} // verus!
