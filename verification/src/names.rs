//! File names as text: the bytes of a frame's name field are UTF-8.

use vstd::prelude::*;
use vstd::utf8::{decode_utf8, encode_utf8, encode_utf8_decode_utf8, valid_utf8};
use crate::error::CodecError;

verus! {

/// The error of `String::from_utf8`. Nothing is read from it.
#[verifier::external_type_specification]
#[verifier::external_body]
pub struct ExFromUtf8Error(std::string::FromUtf8Error);

/// `String::from_utf8` accepts exactly the byte sequences that are valid
/// UTF-8, and the bytes of the text it returns are the bytes it was given.
pub assume_specification[ String::from_utf8 ](vec: Vec<u8>) -> (text: Result<
    String,
    std::string::FromUtf8Error,
>)
    ensures
        text is Ok <==> valid_utf8(vec@),
        text is Ok ==> encode_utf8(text->Ok_0@) == vec@,
;

/// The file name that the bytes of a name field spell out.
pub fn name_from_bytes(bytes: Vec<u8>) -> (name: Result<String, CodecError>)
    ensures
        valid_utf8(bytes@) ==> name is Ok && name->Ok_0@ == decode_utf8(bytes@),
        !valid_utf8(bytes@) ==> name == Err::<String, CodecError>(CodecError::InvalidName),
{
    match String::from_utf8(bytes) {
        Ok(name) => {
            proof {
                encode_utf8_decode_utf8(name@);
            }
            Ok(name)
        },
        Err(_) => Err(CodecError::InvalidName),
    }
}

} // verus!
