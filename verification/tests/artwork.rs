use auralis::artwork::PictureRole::{CoverFront, Elsewhere, Other};
use auralis::artwork::{
    best_picture, cached_art_file_name, compute_artwork_hash, detect_image_extension, ImageMime,
    PictureRole,
};

#[test]
fn test_compute_artwork_hash() {
    let data1 = b"image_data_123456789";
    let data2 = b"image_data_123456789";
    let data3 = b"different_image_data";

    let hash1 = compute_artwork_hash(data1);
    let hash2 = compute_artwork_hash(data2);
    let hash3 = compute_artwork_hash(data3);

    assert_eq!(hash1, hash2, "Identical content must produce identical hash");
    assert_ne!(hash1, hash3, "Different content must produce different hash");
    assert_eq!(hash1.len(), 32, "Hash must be 32 hex chars");
}

#[test]
fn the_hash_of_nothing_is_the_two_offset_bases() {
    assert_eq!(compute_artwork_hash(&[]), "cbf29ce48422232500000100000001b3");
    // One byte: FNV-1a of 0x61 and the additive variant.
    let h = compute_artwork_hash(b"a");
    let h1 = (0xcbf29ce484222325u64 ^ 0x61).wrapping_mul(0x100000001b3);
    let h2 = (0x100000001b3u64.wrapping_add(0x61)).wrapping_mul(0xcbf29ce484222325);
    assert_eq!(h, format!("{:016x}{:016x}", h1, h2));
}

#[test]
fn test_detect_image_extension() {
    let jpeg_data = [0xFF, 0xD8, 0xFF, 0xE0, 0x00, 0x10];
    assert_eq!(detect_image_extension(&jpeg_data, None), "jpg");

    let png_data = [0x89, b'P', b'N', b'G', 0x0D, 0x0A, 0x1A, 0x0A, 0x00];
    assert_eq!(detect_image_extension(&png_data, None), "png");

    let webp_data = b"RIFF\x00\x00\x00\x00WEBPVP8 ";
    assert_eq!(detect_image_extension(webp_data, None), "webp");

    let gif_data = b"GIF89a\x01\x00\x01\x00";
    assert_eq!(detect_image_extension(gif_data, None), "gif");
}

#[test]
fn the_mime_type_decides_when_the_bytes_do_not() {
    let unknown = [0u8, 1, 2, 3];
    assert_eq!(detect_image_extension(b"BM\x00\x00", None), "bmp");
    assert_eq!(detect_image_extension(&unknown, Some(&ImageMime::Tiff)), "tiff");
    assert_eq!(detect_image_extension(&unknown, Some(&ImageMime::Png)), "png");
    assert_eq!(
        detect_image_extension(&unknown, Some(&ImageMime::Unknown("image/WebP".to_string()))),
        "webp"
    );
    assert_eq!(
        detect_image_extension(&unknown, Some(&ImageMime::Unknown("image/x-icon".to_string()))),
        "jpg"
    );
    assert_eq!(detect_image_extension(&unknown, None), "jpg");
    // Magic bytes win over a contradicting MIME type.
    assert_eq!(detect_image_extension(b"GIF87a", Some(&ImageMime::Png)), "gif");
}

#[test]
fn test_find_best_picture_priority() {
    assert_eq!(best_picture(&[Elsewhere, Other, CoverFront]), Some(2));
    assert_eq!(best_picture(&[Elsewhere, Other, Other]), Some(1));
    assert_eq!(best_picture(&[Elsewhere, Elsewhere]), Some(0));
    assert_eq!(best_picture(&[]), None);
}

#[test]
fn cached_art_is_named_by_content() {
    assert_eq!(cached_art_file_name(&[], None), None);
    let jpeg = [0xFF, 0xD8, 0xFF, 0x01];
    let name = cached_art_file_name(&jpeg, None).unwrap();
    assert_eq!(name, format!("{}.jpg", compute_artwork_hash(&jpeg)));
}
