//! Whether a frame fits a carrier: each byte of the frame takes one window
//! of eight carrier bytes.

use vstd::prelude::*;

verus! {

/// Whether a frame of `payload_size` bytes fits a carrier of
/// `image_rgb_size` bytes. A frame whose eightfold length is more than a
/// `usize` can hold fits no carrier.
pub fn payload_fits(payload_size: usize, image_rgb_size: usize) -> (fits: bool)
    ensures
        fits == (payload_size * 8 <= image_rgb_size),
{
    match payload_size.checked_mul(8) {
        Some(needed) => needed <= image_rgb_size,
        None => false,
    }
}

} // verus!
