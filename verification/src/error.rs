//! The ways in which hiding or recovering a payload can fail.

use vstd::prelude::*;

verus! {

/// A part of the frame, in the order in which the parts are laid out.
#[derive(Clone, Copy, Debug, PartialEq, Eq, Structural)]
pub enum FrameField {
    /// The two bytes that give the length of the file name.
    NameLength,
    /// The bytes of the file name.
    Name,
    /// The eight bytes that give the length of the payload.
    PayloadLength,
    /// The bytes of the payload.
    Payload,
}

/// Why a payload could not be hidden in a carrier, or recovered from one.
#[derive(Clone, Copy, Debug, PartialEq, Eq, Structural)]
pub enum CodecError {
    /// The frame needs more windows than the carrier has.
    PayloadTooLarge,
    /// The file name is longer than the 65535 bytes its length field can
    /// express.
    NameTooLong,
    /// The carrier declares a payload of `declared` bytes, more than a byte
    /// sequence can hold on this platform.
    SizeOverflow { declared: u64 },
    /// The carrier ran out of windows inside `field`.
    TruncatedFrame { field: FrameField },
    /// The bytes of the file name are not valid UTF-8.
    InvalidName,
}

impl CodecError {
    /// Whether the error reports a carrier that ended inside the frame.
    pub open spec fn is_truncated(self) -> bool {
        self is TruncatedFrame
    }
}

} // verus!
