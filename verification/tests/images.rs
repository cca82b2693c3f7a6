use image::{
    DynamicImage, GenericImageView, GrayImage, ImageBuffer, Luma, LumaA, Rgb, Rgb32FImage,
    Rgba, Rgba32FImage, RgbImage, RgbaImage,
};
use shh::codec::{decode_bytes, encode_bytes};
use shh::encode_decode::{
    checked_decode_image, checked_encode_image, decode_image, encode_image, image_can_carry,
    image_rgb_bytes_size,
};
use shh::{CodecError, FrameField, Payload};

fn rgb_image(width: u32, height: u32) -> DynamicImage {
    let len = (width * height * 3) as usize;
    let bytes: Vec<u8> = (0..len).map(|i| (i * 13 + 5) as u8).collect();
    DynamicImage::ImageRgb8(RgbImage::from_raw(width, height, bytes).unwrap())
}

#[test]
fn carrier_size_is_three_bytes_a_pixel() {
    assert_eq!(image_rgb_bytes_size(&rgb_image(4, 5)), Some(60));
    assert_eq!(image_rgb_bytes_size(&rgb_image(0, 9)), Some(0));
    let gray = DynamicImage::ImageLuma8(GrayImage::from_raw(7, 3, vec![0; 21]).unwrap());
    assert_eq!(image_rgb_bytes_size(&gray), Some(63));
    let rgba = DynamicImage::ImageRgba8(RgbaImage::from_raw(2, 2, vec![0; 16]).unwrap());
    assert_eq!(image_rgb_bytes_size(&rgba), Some(12));
}

#[test]
fn image_round_trip() {
    let image = rgb_image(20, 20);
    let payload = Payload::File { file_name: "secret.bin".to_string(), bytes: vec![1, 2, 3, 4] };
    let encoded = encode_image(&image, payload).unwrap();
    assert_eq!(decode_image(&encoded), Ok(("secret.bin".to_string(), vec![1, 2, 3, 4])));
}

#[test]
fn image_round_trip_of_a_text() {
    let image = rgb_image(8, 7);
    assert_eq!(image_rgb_bytes_size(&image), Some(168));
    let encoded = encode_image(&image, Payload::Literal("A".to_string())).unwrap();
    assert_eq!(decode_image(&encoded), Ok(("output.txt".to_string(), vec![0x41])));
}

#[test]
fn encoded_image_keeps_the_dimensions() {
    let image = rgb_image(31, 9);
    let encoded = encode_image(&image, Payload::Literal("dims".to_string())).unwrap();
    assert_eq!(encoded.dimensions(), (31, 9));
    assert_eq!(image_rgb_bytes_size(&encoded), image_rgb_bytes_size(&image));
}

#[test]
fn encoded_image_is_an_rgb_image_of_the_encoded_bytes() {
    let image = rgb_image(16, 16);
    let carrier = image.to_rgb8().into_raw();
    let payload = Payload::File { file_name: "p".to_string(), bytes: vec![0xaa; 20] };
    let same = Payload::File { file_name: "p".to_string(), bytes: vec![0xaa; 20] };
    let encoded = encode_image(&image, payload).unwrap();
    match &encoded {
        DynamicImage::ImageRgb8(buffer) => {
            assert_eq!(buffer.as_raw(), &encode_bytes(&carrier, same).unwrap());
        },
        _ => panic!("not an RGB image"),
    }
    assert_ne!(encoded.to_rgb8().into_raw(), carrier);
}

#[test]
fn gray_image_carries_as_rgb() {
    let gray: Vec<u8> = (0..400u32).map(|i| (i % 256) as u8).collect();
    let image = DynamicImage::ImageLuma8(GrayImage::from_raw(20, 20, gray.clone()).unwrap());
    let payload = Payload::File { file_name: "g".to_string(), bytes: vec![0xff; 9] };
    let encoded = encode_image(&image, payload).unwrap();
    assert_eq!(encoded.dimensions(), (20, 20));
    let bytes = encoded.to_rgb8().into_raw();
    assert_eq!(bytes.len(), 1200);
    for (i, byte) in bytes.iter().enumerate() {
        assert_eq!(byte & 0xfe, gray[i / 3] & 0xfe);
    }
    assert_eq!(decode_image(&encoded), Ok(("g".to_string(), vec![0xff; 9])));
}

#[test]
fn alpha_is_dropped_from_the_carrier() {
    let rgba: Vec<u8> = (0..1600u32).map(|i| (i % 256) as u8).collect();
    let image = DynamicImage::ImageRgba8(RgbaImage::from_raw(20, 20, rgba).unwrap());
    let carrier = image.to_rgb8().into_raw();
    assert_eq!(decode_image(&image), decode_bytes(&carrier));
    let encoded = encode_image(&image, Payload::Literal("alpha".to_string())).unwrap();
    assert_eq!(
        encoded.to_rgb8().into_raw(),
        encode_bytes(&carrier, Payload::Literal("alpha".to_string())).unwrap()
    );
}

#[test]
fn payload_too_large_for_the_image() {
    let image = rgb_image(5, 5);
    match encode_image(&image, Payload::Literal(String::new())) {
        Err(error) => assert_eq!(error, CodecError::PayloadTooLarge),
        Ok(_) => panic!("75 bytes cannot carry 20"),
    }
}

#[test]
fn image_that_fits_exactly() {
    let image = rgb_image(8, 5);
    let payload = Payload::File { file_name: "abcde".to_string(), bytes: Vec::new() };
    let encoded = encode_image(&image, payload).unwrap();
    assert_eq!(decode_image(&encoded), Ok(("abcde".to_string(), Vec::new())));
}

#[test]
fn image_too_small_to_hide_anything() {
    let image = DynamicImage::ImageRgb8(RgbImage::from_raw(5, 5, vec![0; 75]).unwrap());
    assert_eq!(
        decode_image(&image),
        Err(CodecError::TruncatedFrame { field: FrameField::PayloadLength })
    );
    let empty = DynamicImage::ImageRgb8(RgbImage::from_raw(0, 0, Vec::new()).unwrap());
    assert_eq!(
        decode_image(&empty),
        Err(CodecError::TruncatedFrame { field: FrameField::NameLength })
    );
}

#[test]
fn image_that_was_never_encoded() {
    let image = DynamicImage::ImageRgb8(RgbImage::from_raw(10, 10, vec![0xff; 300]).unwrap());
    assert_eq!(
        decode_image(&image),
        Err(CodecError::TruncatedFrame { field: FrameField::Name })
    );
}

#[test]
fn image_buffer_longer_than_its_pixels() {
    let mut bytes = vec![0u8; 300];
    bytes.extend_from_slice(&[0xff; 40]);
    let image = DynamicImage::ImageRgb8(RgbImage::from_raw(10, 10, bytes).unwrap());
    assert_eq!(image_rgb_bytes_size(&image), Some(300));
    let encoded = encode_image(&image, Payload::Literal("x".to_string())).unwrap();
    assert_eq!(encoded.to_rgb8().into_raw().len(), 300);
    assert_eq!(decode_image(&encoded), Ok(("output.txt".to_string(), vec![b'x'])));
}

#[test]
fn checked_round_trip() {
    let image = rgb_image(20, 20);
    let payload = Payload::File { file_name: "c.bin".to_string(), bytes: vec![9, 8, 7] };
    let encoded = checked_encode_image(&image, payload).unwrap().unwrap();
    assert_eq!(encoded.dimensions(), (20, 20));
    assert_eq!(checked_decode_image(&encoded), Some(Ok(("c.bin".to_string(), vec![9, 8, 7]))));
    assert_eq!(decode_image(&encoded), Ok(("c.bin".to_string(), vec![9, 8, 7])));
}

#[test]
fn checked_functions_report_the_errors_of_the_codec() {
    let image = rgb_image(5, 5);
    match checked_encode_image(&image, Payload::Literal(String::new())) {
        Some(Err(error)) => assert_eq!(error, CodecError::PayloadTooLarge),
        _ => panic!("75 bytes cannot carry 20"),
    }
    let blank = DynamicImage::ImageRgb8(RgbImage::from_raw(5, 5, vec![0; 75]).unwrap());
    assert_eq!(
        checked_decode_image(&blank),
        Some(Err(CodecError::TruncatedFrame { field: FrameField::PayloadLength }))
    );
}

#[test]
fn integer_images_can_carry() {
    assert!(image_can_carry(&rgb_image(4, 5)));
    assert!(image_can_carry(&rgb_image(0, 0)));
    let gray = DynamicImage::ImageLuma8(GrayImage::from_raw(2, 2, vec![0; 4]).unwrap());
    assert!(image_can_carry(&gray));
    let gray_alpha = DynamicImage::ImageLumaA8(
        ImageBuffer::<LumaA<u8>, Vec<u8>>::from_raw(2, 2, vec![0; 8]).unwrap(),
    );
    assert!(image_can_carry(&gray_alpha));
    let rgba = DynamicImage::ImageRgba8(RgbaImage::from_raw(2, 2, vec![0; 16]).unwrap());
    assert!(image_can_carry(&rgba));
    let gray16 = DynamicImage::ImageLuma16(
        ImageBuffer::<Luma<u16>, Vec<u16>>::from_raw(2, 2, vec![0; 4]).unwrap(),
    );
    assert!(image_can_carry(&gray16));
    let gray_alpha16 = DynamicImage::ImageLumaA16(
        ImageBuffer::<LumaA<u16>, Vec<u16>>::from_raw(2, 2, vec![0; 8]).unwrap(),
    );
    assert!(image_can_carry(&gray_alpha16));
    let rgb16 = DynamicImage::ImageRgb16(
        ImageBuffer::<Rgb<u16>, Vec<u16>>::from_raw(2, 2, vec![0; 12]).unwrap(),
    );
    assert!(image_can_carry(&rgb16));
    let rgba16 = DynamicImage::ImageRgba16(
        ImageBuffer::<Rgba<u16>, Vec<u16>>::from_raw(2, 2, vec![0; 16]).unwrap(),
    );
    assert!(image_can_carry(&rgba16));
}

#[test]
fn float_images_cannot_carry() {
    let rgb = DynamicImage::ImageRgb32F(Rgb32FImage::from_raw(1, 1, vec![0.5; 3]).unwrap());
    assert!(!image_can_carry(&rgb));
    let rgba = DynamicImage::ImageRgba32F(Rgba32FImage::from_raw(1, 1, vec![0.5; 4]).unwrap());
    assert!(!image_can_carry(&rgba));
    assert_eq!(image_rgb_bytes_size(&rgb), Some(3));
}

#[test]
fn float_images_are_turned_down() {
    let samples = vec![0.25f32; 30 * 30 * 3];
    let image = DynamicImage::ImageRgb32F(Rgb32FImage::from_raw(30, 30, samples).unwrap());
    assert!(checked_encode_image(&image, Payload::Literal("f".to_string())).is_none());
    assert_eq!(checked_decode_image(&image), None);
}

#[test]
fn float_image_with_a_sample_that_is_no_number_is_turned_down() {
    let samples = vec![f32::NAN, 0.0, 1.0];
    let image = DynamicImage::ImageRgb32F(Rgb32FImage::from_raw(1, 1, samples).unwrap());
    assert!(!image_can_carry(&image));
    assert!(checked_encode_image(&image, Payload::Literal(String::new())).is_none());
    assert_eq!(checked_decode_image(&image), None);
}

#[test]
fn sixteen_bit_image_carries_as_rgb() {
    let samples: Vec<u16> = (0..1200u32).map(|i| (i * 50) as u16).collect();
    let image = DynamicImage::ImageRgb16(
        ImageBuffer::<Rgb<u16>, Vec<u16>>::from_raw(20, 20, samples).unwrap(),
    );
    let carrier = image.to_rgb8().into_raw();
    let encoded = checked_encode_image(&image, Payload::Literal("16".to_string()))
        .unwrap()
        .unwrap();
    assert_eq!(
        encoded.to_rgb8().into_raw(),
        encode_bytes(&carrier, Payload::Literal("16".to_string())).unwrap()
    );
    assert_eq!(decode_image(&encoded), Ok(("output.txt".to_string(), b"16".to_vec())));
}

#[test]
fn encoded_image_can_carry_in_its_turn() {
    let image = rgb_image(30, 30);
    let first = encode_image(&image, Payload::Literal("one".to_string())).unwrap();
    assert!(image_can_carry(&first));
    let second = encode_image(&first, Payload::Literal("two".to_string())).unwrap();
    assert_eq!(decode_image(&second), Ok(("output.txt".to_string(), b"two".to_vec())));
}

#[test]
fn wide_image_of_no_rows() {
    let image = DynamicImage::ImageLuma8(GrayImage::from_raw(1431655766, 0, Vec::new()).unwrap());
    if (usize::MAX as u128) < 3 * 1431655766u128 {
        assert_eq!(image_rgb_bytes_size(&image), None);
        assert!(!image_can_carry(&image));
        assert!(checked_encode_image(&image, Payload::Literal(String::new())).is_none());
        assert_eq!(checked_decode_image(&image), None);
    } else {
        assert_eq!(image_rgb_bytes_size(&image), Some(0));
        assert!(image_can_carry(&image));
        assert_eq!(
            checked_decode_image(&image),
            Some(Err(CodecError::TruncatedFrame { field: FrameField::NameLength }))
        );
    }
}
