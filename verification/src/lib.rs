//! Least-significant-bit steganography: a payload and its file name are
//! framed into a byte sequence and hidden, one bit per carrier byte, in the
//! pixel bytes of an image.
//!
//! - [`bits`]: one byte in the lowest bits of a window of eight bytes.
//! - [`chunks`]: a carrier as a run of windows.
//! - [`payload`] and [`frame`]: what is hidden, and its layout in bytes.
//! - [`capacity`]: whether a frame fits a carrier.
//! - [`codec`]: hiding a frame in a carrier of bytes, and reading it back.
//! - [`encode_decode`]: the same on images.
//! - [`names`]: file names as UTF-8.
//! - [`cli`]: the commands, and where their output goes.
//! - [`error`]: what can go wrong.

pub mod bits;
pub mod capacity;
pub mod chunks;
pub mod cli;
pub mod codec;
pub mod encode_decode;
pub mod error;
pub mod frame;
pub mod names;
pub mod payload;

pub use cli::{Cli, Commands};
pub use error::{CodecError, FrameField};
pub use payload::Payload;
