//! The perceptual-hash engine and the record codec.

use repost_store::errors::EngineError;
use repost_store::hashing::{process_image, similar_enough, ImageHash};
use repost_store::record::{decode_record, encode_record, RecordView, SeenImage};

#[test]
fn hash_needs_exactly_eight_bytes() {
    assert!(ImageHash::from_bytes(&[1, 2, 3]).is_none());
    assert!(ImageHash::from_bytes(&[0; 9]).is_none());
    let h = ImageHash::from_bytes(&[1, 2, 3, 4, 5, 6, 7, 8]).unwrap();
    assert_eq!(h.as_bytes(), &[1, 2, 3, 4, 5, 6, 7, 8]);
}

#[test]
fn distance_threshold_is_eight_bits() {
    let zero = ImageHash::from_bytes(&[0; 8]).unwrap();
    // Zero bits apart: the same image.
    assert!(similar_enough(&zero, &[0; 8]));
    // Exactly eight bits apart: still within the threshold.
    assert!(similar_enough(&zero, &[0x0F, 0x0F, 0, 0, 0, 0, 0, 0]));
    // Nine bits apart: a different image.
    assert!(!similar_enough(&zero, &[0x0F, 0x0F, 0x01, 0, 0, 0, 0, 0]));
    // A key of the wrong length is never similar.
    assert!(!similar_enough(&zero, &[0; 7]));
    assert!(!similar_enough(&zero, &[0; 9]));
}

#[test]
fn distance_is_symmetric() {
    let a = ImageHash::from_bytes(&[0b1010_1010, 0, 0, 0, 0, 0, 0, 0]).unwrap();
    let b = ImageHash::from_bytes(&[0b0101_0101, 0, 0, 0, 0, 0, 0, 0]).unwrap();
    assert_eq!(
        similar_enough(&a, b.as_bytes()),
        similar_enough(&b, a.as_bytes())
    );
}

fn png_bytes() -> Vec<u8> {
    let img = image::RgbImage::from_fn(16, 16, |x, y| {
        image::Rgb([(x * 15) as u8, (y * 15) as u8, 128])
    });
    let mut bytes: Vec<u8> = Vec::new();
    image::DynamicImage::ImageRgb8(img)
        .write_to(&mut bytes, image::ImageOutputFormat::Png)
        .unwrap();
    bytes
}

#[test]
fn processing_an_image_yields_a_fixed_length_hash() {
    let bytes = png_bytes();
    let h1 = process_image(bytes.clone()).unwrap();
    assert_eq!(h1.as_bytes().len(), 8);
    // Deterministic: the same bytes hash the same way.
    let h2 = process_image(bytes).unwrap();
    assert_eq!(h1.as_bytes(), h2.as_bytes());
}

#[test]
fn undecodable_bytes_are_rejected() {
    let result = process_image(b"certainly not an image".to_vec());
    assert!(matches!(result, Err(EngineError::UnsupportedImageFormat(_))));
}

#[test]
fn record_codec_round_trip() {
    let record = SeenImage::new("some author".to_string(), 12345, 67890, 13579);
    let bytes = encode_record(&record);
    let decoded = decode_record(&bytes).unwrap();
    assert_eq!(decoded, record);
}

#[test]
fn record_codec_rejects_noise() {
    assert!(decode_record(&[]).is_none());
    assert!(decode_record(&[0; 10]).is_none());
    // A flag byte that is neither zero nor one.
    let mut bytes = encode_record(&SeenImage::new("a".to_string(), 1, 2, 3));
    bytes[0] = 7;
    assert!(decode_record(&bytes).is_none());
    // A length that does not add up.
    let bytes = encode_record(&SeenImage::new("a".to_string(), 1, 2, 3));
    assert!(decode_record(&bytes[..bytes.len() - 1]).is_none());
}

#[test]
fn record_view_flips_only_the_flag() {
    let record = SeenImage::new("author name".to_string(), 111, 222, 333);
    let bytes = encode_record(&record);
    let mut view = RecordView::from_bytes(bytes).unwrap();
    assert!(!view.ignored());
    view.set_ignored(true);
    assert!(view.ignored());
    assert_eq!(view.sent(), 111);
    assert_eq!(view.original_message_id(), 222);
    assert_eq!(view.channel_id(), 333);
    assert_eq!(view.author(), "author name".to_string());
    let back = decode_record(&view.into_bytes()).unwrap();
    assert!(back.ignored);
    assert_eq!(back.author, "author name".to_string());
    assert_eq!(back.sent, 111);
}
