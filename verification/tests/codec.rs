use stegano::bits::{u32_from_be_bytes, u32_to_be_bytes};
use stegano::content::audio::AudioContent;
use stegano::content::image::ImageContent;
use stegano::errors::StegError;
use stegano::frame::{frame, unframe};
use stegano::load::resized_dimensions;
use stegano::reconstruct::{reconstruct_hidden_content, HiddenContent};
use stegano::traits::{ContentType, Decodable, Encodable};

#[test]
fn be32_round_trip() {
    let bytes = u32_to_be_bytes(0x01020304);
    assert_eq!(bytes, vec![1u8, 2, 3, 4]);
    assert_eq!(u32_from_be_bytes(1, 2, 3, 4), 0x01020304);
    assert_eq!(u32_from_be_bytes(0xFF, 0, 0, 0xFF), 0xFF0000FF);
}

#[test]
fn tag_byte_table() {
    assert_eq!(ContentType::Image.to_u8(), 0);
    assert_eq!(ContentType::Audio.to_u8(), 1);
    assert_eq!(ContentType::from_u8(0), Some(ContentType::Image));
    assert_eq!(ContentType::from_u8(1), Some(ContentType::Audio));
    assert_eq!(ContentType::from_u8(2), None);
    assert_eq!(ContentType::from_u8(255), None);
}

#[test]
fn tag_names_and_extensions() {
    assert_eq!(ContentType::Image.to_string(), "image");
    assert_eq!(ContentType::Audio.to_string(), "audio");
    assert_eq!(ContentType::Image.file_extension(), "png");
    assert_eq!(ContentType::Audio.file_extension(), "mp3");
}

#[test]
fn content_type_from_path() {
    assert_eq!(ContentType::from_path("photo.jpg"), Some(ContentType::Image));
    assert_eq!(ContentType::from_path("photo.JPG"), Some(ContentType::Image));
    assert_eq!(ContentType::from_path("pic.jpeg"), Some(ContentType::Image));
    assert_eq!(ContentType::from_path("art.png"), Some(ContentType::Image));
    assert_eq!(ContentType::from_path("clip.wav"), Some(ContentType::Audio));
    assert_eq!(ContentType::from_path("song.mp3"), Some(ContentType::Audio));
    assert_eq!(ContentType::from_path("track.FLAC"), Some(ContentType::Audio));
    assert_eq!(ContentType::from_path("loop.ogg"), Some(ContentType::Audio));
    assert_eq!(ContentType::from_path("notes.txt"), None);
    assert_eq!(ContentType::from_path("png"), None);
    assert_eq!(ContentType::from_path(""), None);
}

#[test]
fn frame_layout_exact() {
    let payload = vec![0xAAu8, 0xBB];
    let framed = frame(ContentType::Audio, &payload);
    assert_eq!(framed, vec![1u8, 0, 0, 0, 2, 0xAA, 0xBB]);
}

#[test]
fn frame_unframe_round_trip() {
    let payload = vec![9u8, 8, 7, 6, 5];
    let framed = frame(ContentType::Image, &payload);
    let (tag, recovered) = unframe(&framed).unwrap();
    assert_eq!(tag, ContentType::Image);
    assert_eq!(recovered, payload);
}

#[test]
fn unframe_ignores_trailing_bytes() {
    let mut framed = frame(ContentType::Audio, &vec![0x11u8]);
    framed.push(0xDE);
    framed.push(0xAD);
    let (tag, recovered) = unframe(&framed).unwrap();
    assert_eq!(tag, ContentType::Audio);
    assert_eq!(recovered, vec![0x11u8]);
}

#[test]
fn unframe_truncated_header() {
    assert_eq!(unframe(&[1u8, 0, 0, 0]), Err(StegError::TruncatedHeader));
    assert_eq!(unframe(&[]), Err(StegError::TruncatedHeader));
}

#[test]
fn unframe_unknown_tag() {
    assert_eq!(
        unframe(&[9u8, 0, 0, 0, 0]),
        Err(StegError::UnknownContentType(9))
    );
}

#[test]
fn unframe_truncated_payload() {
    assert_eq!(
        unframe(&[0u8, 0, 0, 0, 5, 1, 2]),
        Err(StegError::TruncatedPayload)
    );
}

#[test]
fn metadata_is_the_tag_byte() {
    let img = ImageContent::new(1, 1, vec![0u8, 0, 0]).unwrap();
    assert_eq!(img.content_type(), ContentType::Image);
    assert_eq!(img.metadata(), vec![0u8]);
    let aud = AudioContent {
        compressed_audio_bytes: Vec::new(),
        target_extension: String::from("mp3"),
    };
    assert_eq!(aud.content_type(), ContentType::Audio);
    assert_eq!(aud.metadata(), vec![1u8]);
}

#[test]
fn image_payload_round_trip() {
    let pixels: Vec<u8> = (0u8..12).collect();
    let content = ImageContent::new(2, 2, pixels.clone()).unwrap();
    let bytes = content.to_bytes();
    assert_eq!(&bytes[0..8], &[0u8, 0, 0, 2, 0, 0, 0, 2]);
    assert_eq!(&bytes[8..], &pixels[..]);
    let decoded = ImageContent::from_bytes(&bytes).unwrap();
    assert_eq!(decoded.width, 2);
    assert_eq!(decoded.height, 2);
    assert_eq!(decoded.pixels, pixels);
}

#[test]
fn image_payload_wrong_pixel_count() {
    let pixels: Vec<u8> = (0u8..11).collect();
    assert!(matches!(
        ImageContent::new(2, 2, pixels.clone()),
        Err(StegError::MalformedPayload)
    ));
    let mut data = vec![0u8, 0, 0, 2, 0, 0, 0, 2];
    data.extend_from_slice(&pixels);
    assert!(matches!(
        ImageContent::from_bytes(&data),
        Err(StegError::MalformedPayload)
    ));
}

#[test]
fn image_payload_short_buffer() {
    assert!(matches!(
        ImageContent::from_bytes(&[0u8, 0, 0]),
        Err(StegError::MalformedPayload)
    ));
}

#[test]
fn audio_payload_round_trip() {
    let content = AudioContent {
        compressed_audio_bytes: vec![0xAAu8, 0xBB, 0xCC],
        target_extension: String::from("mp3"),
    };
    let bytes = content.to_bytes();
    assert_eq!(
        bytes,
        vec![0u8, 0, 0, 3, b'm', b'p', b'3', 0xAA, 0xBB, 0xCC]
    );
    let decoded = AudioContent::from_bytes(&bytes).unwrap();
    assert_eq!(decoded.target_extension, "mp3");
    assert_eq!(decoded.compressed_audio_bytes, vec![0xAAu8, 0xBB, 0xCC]);
}

#[test]
fn audio_payload_truncated_header() {
    let content = AudioContent {
        compressed_audio_bytes: vec![0xAAu8, 0xBB, 0xCC],
        target_extension: String::from("mp3"),
    };
    let bytes = content.to_bytes();
    assert_eq!(
        AudioContent::from_bytes(&bytes[0..3]),
        Err(StegError::TruncatedHeader)
    );
}

#[test]
fn audio_payload_extension_longer_than_buffer() {
    // declares a 9-byte extension but only 2 bytes follow
    assert_eq!(
        AudioContent::from_bytes(&[0u8, 0, 0, 9, b'm', b'p']),
        Err(StegError::TruncatedHeader)
    );
}

#[test]
fn audio_payload_invalid_extension_encoding() {
    assert_eq!(
        AudioContent::from_bytes(&[0u8, 0, 0, 1, 0xFF, 0x01]),
        Err(StegError::InvalidEncoding)
    );
}

#[test]
fn audio_payload_empty_blob() {
    let decoded = AudioContent::from_bytes(&[0u8, 0, 0, 3, b'o', b'g', b'g']).unwrap();
    assert_eq!(decoded.target_extension, "ogg");
    assert_eq!(decoded.compressed_audio_bytes, Vec::<u8>::new());
}

#[test]
fn reconstruct_image_appends_png() {
    let mut data = vec![0u8, 0, 0, 1, 0, 0, 0, 1];
    data.extend_from_slice(&[10, 20, 30]);
    let (content, path) =
        reconstruct_hidden_content(&data, ContentType::Image, "out").unwrap();
    assert_eq!(path, "out.png");
    match content {
        HiddenContent::Image(v) => {
            assert_eq!(v.width, 1);
            assert_eq!(v.height, 1);
            assert_eq!(v.pixels, vec![10u8, 20, 30]);
        }
        _ => panic!("expected an image payload"),
    }
}

#[test]
fn reconstruct_image_keeps_existing_png_suffix() {
    let mut data = vec![0u8, 0, 0, 1, 0, 0, 0, 1];
    data.extend_from_slice(&[1, 2, 3]);
    let (_, path) =
        reconstruct_hidden_content(&data, ContentType::Image, "picture.png").unwrap();
    assert_eq!(path, "picture.png");
}

#[test]
fn reconstruct_audio_uses_stored_extension() {
    let data = vec![0u8, 0, 0, 3, b'm', b'p', b'3', 0xEE];
    let (content, path) =
        reconstruct_hidden_content(&data, ContentType::Audio, "hidden").unwrap();
    assert_eq!(path, "hidden.mp3");
    match content {
        HiddenContent::Audio(v) => {
            assert_eq!(v.target_extension, "mp3");
            assert_eq!(v.compressed_audio_bytes, vec![0xEEu8]);
        }
        _ => panic!("expected an audio payload"),
    }
}

#[test]
fn reconstruct_rejects_malformed_image() {
    let data = vec![0u8, 0, 0, 2, 0, 0, 0, 2, 1, 2, 3];
    assert!(matches!(
        reconstruct_hidden_content(&data, ContentType::Image, "out"),
        Err(StegError::MalformedPayload)
    ));
}

#[test]
fn resized_dimensions_scales_tall_images() {
    assert_eq!(resized_dimensions(1000, 1440), (500, 720));
    assert_eq!(resized_dimensions(640, 480), (640, 480));
    assert_eq!(resized_dimensions(1280, 720), (1280, 720));
    assert_eq!(resized_dimensions(100, 721), (99, 720));
}
