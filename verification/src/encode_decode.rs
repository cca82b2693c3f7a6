//! Hiding a payload in an image, and recovering it. The carrier is the
//! image as rows of pixels of three bytes each: red, green, blue.

use vstd::prelude::*;
use image::{DynamicImage, GenericImageView, ImageBuffer};
use crate::codec::{
    decode_bytes, decoded, encode_bytes, encoded, is_decoded, lemma_decode_encoded,
};
use crate::error::CodecError;
use crate::payload::{NamedContent, Payload};

verus! {

/// An image of the `image` crate, in any of its pixel formats. Nothing is
/// read from it but through the functions below.
#[verifier::external_type_specification]
#[verifier::external_body]
pub struct ExDynamicImage(DynamicImage);

/// The pixels of an image as 8-bit RGB, row by row, three bytes a pixel:
/// what `DynamicImage::to_rgb8` followed by `ImageBuffer::into_raw` gives.
pub uninterp spec fn image_rgb(image: DynamicImage) -> Seq<u8>;

/// The width and the height of an image in pixels: what
/// `DynamicImage::dimensions` gives.
pub uninterp spec fn image_dimensions(image: DynamicImage) -> (u32, u32);

/// Whether the samples of an image are floating-point numbers: whether the
/// image is one of the variants `ImageRgb32F` and `ImageRgba32F` of
/// `DynamicImage`.
pub uninterp spec fn image_has_float_samples(image: DynamicImage) -> bool;

/// The number of bytes of an RGB image of `width` by `height` pixels.
pub open spec fn rgb_len(width: u32, height: u32) -> nat {
    (3 * width * height) as nat
}

/// The number of bytes of `image` as RGB.
pub open spec fn image_rgb_len(image: DynamicImage) -> nat {
    rgb_len(image_dimensions(image).0, image_dimensions(image).1)
}

/// Whether the length of an RGB buffer of `width` by `height` pixels can
/// be computed, as three times the width and then that times the height,
/// without leaving the range of `usize`.
pub open spec fn rgb_len_fits(width: u32, height: u32) -> bool {
    3 * width <= usize::MAX && rgb_len(width, height) <= usize::MAX
}

/// Whether an RGB buffer of `width` by `height` pixels can be allocated:
/// its length can be computed, and is no more than the `isize::MAX` bytes
/// that one allocation can have.
pub open spec fn rgb_buffer_fits(width: u32, height: u32) -> bool {
    rgb_len_fits(width, height) && rgb_len(width, height) <= isize::MAX
}

/// Whether `image` can serve as a carrier: its samples are integers, and
/// a buffer for its pixels as RGB can be allocated.
pub open spec fn can_carry(image: DynamicImage) -> bool {
    &&& !image_has_float_samples(image)
    &&& rgb_buffer_fits(image_dimensions(image).0, image_dimensions(image).1)
}

/// `DynamicImage::dimensions`: the width and the height that the image
/// was made with.
#[verifier::external_body]
fn dimensions(image: &DynamicImage) -> (size: (u32, u32))
    ensures
        size == image_dimensions(*image),
{
    image.dimensions()
}

/// Tells the two variants of `DynamicImage` whose samples are `f32` from
/// the eight whose samples are integers.
#[verifier::external_body]
fn has_float_samples(image: &DynamicImage) -> (float: bool)
    ensures
        float == image_has_float_samples(*image),
{
    matches!(image, DynamicImage::ImageRgb32F(_) | DynamicImage::ImageRgba32F(_))
}

/// `DynamicImage::to_rgb8` and `ImageBuffer::into_raw`: a new buffer of
/// three bytes for each pixel of the image, filled with the pixels
/// converted to RGB.
///
/// `requires` leaves out the images on which the conversion panics:
/// - those whose buffer length, computed as three times the width and then
///   that times the height, leaves the range of `usize`;
/// - those whose buffer would be longer than the `isize::MAX` bytes of one
///   allocation;
/// - those with float samples, since a sample that is not a number has no
///   8-bit value. All float images are left out, with or without such a
///   sample.
///
/// As with every allocation, nothing is said of a machine that has no
/// memory left for the buffer.
#[verifier::external_body]
fn rgb_bytes(image: &DynamicImage) -> (bytes: Vec<u8>)
    requires
        can_carry(*image),
    ensures
        bytes@ == image_rgb(*image),
        bytes@.len() == image_rgb_len(*image),
{
    image.to_rgb8().into_raw()
}

/// `ImageBuffer::from_raw` and `DynamicImage::ImageRgb8`: an RGB image over
/// `bytes`, where the length of a buffer for `width` by `height` pixels
/// can be computed and `bytes` has at least that length, and `None`
/// otherwise. The image has those dimensions and integer samples, and its
/// pixels are the first `rgb_len(width, height)` of the bytes.
#[verifier::external_body]
fn image_from_rgb(width: u32, height: u32, bytes: Vec<u8>) -> (image: Option<DynamicImage>)
    ensures
        image is Some <==> (3 * width <= usize::MAX && rgb_len(width, height) <= bytes@.len()),
        image is Some ==> image_dimensions(image->0) == (width, height),
        image is Some ==> !image_has_float_samples(image->0),
        image is Some ==> image_rgb(image->0) == bytes@.subrange(
            0,
            rgb_len(width, height) as int,
        ),
{
    ImageBuffer::from_raw(width, height, bytes).map(DynamicImage::ImageRgb8)
}

/// The number of bytes of `image` as RGB, computed as three times the
/// width and then that times the height, or `None` where either product
/// is more than a `usize` can hold.
pub fn image_rgb_bytes_size(image: &DynamicImage) -> (size: Option<usize>)
    ensures
        rgb_len_fits(image_dimensions(*image).0, image_dimensions(*image).1) ==> size == Some(
            image_rgb_len(*image) as usize,
        ),
        !rgb_len_fits(image_dimensions(*image).0, image_dimensions(*image).1) ==> size is None,
{
    let (width, height) = dimensions(image);
    match 3usize.checked_mul(width as usize) {
        Some(row) => row.checked_mul(height as usize),
        None => None,
    }
}

/// Whether `image` can serve as a carrier: whether its samples are
/// integers and a buffer for its pixels as RGB can be allocated.
pub fn image_can_carry(image: &DynamicImage) -> (usable: bool)
    ensures
        usable == can_carry(*image),
{
    if has_float_samples(image) {
        return false;
    }
    match image_rgb_bytes_size(image) {
        Some(size) => size <= isize::MAX as usize,
        None => false,
    }
}

/// Whether `output` is what hiding `payload` in `input` gives: an image of
/// integer samples and of the same dimensions, whose RGB bytes are those
/// of `input` with the frame of the payload in their lowest bits, or the
/// reason why the frame cannot be hidden.
pub open spec fn is_encoded_image(
    input: DynamicImage,
    payload: NamedContent,
    output: Result<DynamicImage, CodecError>,
) -> bool {
    match encoded(image_rgb(input), payload) {
        Ok(bytes) => {
            &&& output is Ok
            &&& image_rgb(output->Ok_0) == bytes
            &&& image_dimensions(output->Ok_0) == image_dimensions(input)
            &&& !image_has_float_samples(output->Ok_0)
        },
        Err(error) => output is Err && output->Err_0 == error,
    }
}

/// Hides `payload` in a copy of `input_image`. The copy is an RGB image of
/// the same dimensions, whose bytes are those of `input_image` with the
/// frame of the payload in their lowest bits; it can serve as a carrier
/// in its turn.
///
/// The image must be able to serve as a carrier; [`image_can_carry`] tells
/// whether it is, and [`checked_encode_image`] asks first.
pub fn encode_image(input_image: &DynamicImage, payload: Payload) -> (output: Result<
    DynamicImage,
    CodecError,
>)
    requires
        can_carry(*input_image),
    ensures
        image_rgb(*input_image).len() == image_rgb_len(*input_image),
        is_encoded_image(*input_image, payload@, output),
        output is Ok ==> can_carry(output->Ok_0),
{
    let (width, height) = dimensions(input_image);
    let image_bytes: Vec<u8> = rgb_bytes(input_image);

    let output: Vec<u8> = match encode_bytes(image_bytes.as_slice(), payload) {
        Ok(output) => output,
        Err(error) => {
            return Err(error);
        },
    };
    assert(output@.subrange(0, output@.len() as int) =~= output@);

    let image: DynamicImage = image_from_rgb(width, height, output).unwrap();

    Ok(image)
}

/// Recovers the file name and the payload hidden in `image`.
///
/// The image must be able to serve as a carrier; [`image_can_carry`] tells
/// whether it is, and [`checked_decode_image`] asks first.
pub fn decode_image(image: &DynamicImage) -> (frame: Result<(String, Vec<u8>), CodecError>)
    requires
        can_carry(*image),
    ensures
        image_rgb(*image).len() == image_rgb_len(*image),
        is_decoded(image_rgb(*image), frame),
{
    let image_bytes: Vec<u8> = rgb_bytes(image);
    decode_bytes(image_bytes.as_slice())
}

/// Hides `payload` in a copy of `input_image`, as [`encode_image`] does,
/// where the image can serve as a carrier; `None` where it cannot.
pub fn checked_encode_image(input_image: &DynamicImage, payload: Payload) -> (output: Option<
    Result<DynamicImage, CodecError>,
>)
    ensures
        !can_carry(*input_image) ==> output is None,
        can_carry(*input_image) ==> output is Some && is_encoded_image(
            *input_image,
            payload@,
            output->0,
        ),
{
    if image_can_carry(input_image) {
        Some(encode_image(input_image, payload))
    } else {
        None
    }
}

/// Recovers the file name and the payload hidden in `image`, as
/// [`decode_image`] does, where the image can serve as a carrier; `None`
/// where it cannot.
pub fn checked_decode_image(image: &DynamicImage) -> (frame: Option<
    Result<(String, Vec<u8>), CodecError>,
>)
    ensures
        !can_carry(*image) ==> frame is None,
        can_carry(*image) ==> frame is Some && is_decoded(image_rgb(*image), frame->0),
{
    if image_can_carry(image) {
        Some(decode_image(image))
    } else {
        None
    }
}

/// What was hidden in an image is what is read back from the encoded
/// image: the same name and the same content.
pub proof fn lemma_decode_encoded_image(
    input: DynamicImage,
    payload: NamedContent,
    output: DynamicImage,
)
    requires
        image_rgb(input).len() <= usize::MAX,
        is_encoded_image(input, payload, Ok(output)),
    ensures
        decoded(image_rgb(output)) == Ok::<NamedContent, CodecError>(payload),
{
    lemma_decode_encoded(image_rgb(input), payload);
}

} // verus!
