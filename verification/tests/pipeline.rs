use stegano::channel::{AudioChannel, Channel, ImageChannel};
use stegano::content::audio::AudioContent;
use stegano::content::image::ImageContent;
use stegano::engine::{embed, extract};
use stegano::errors::StegError;
use stegano::frame::frame;
use stegano::lsb::{
    decode_lsb, decode_lsb_from_audio, encode_lsb, encode_lsb_to_audio, extract_from_image,
};
use stegano::traits::{ContentType, Decodable};

#[test]
fn embed_writes_bits_most_significant_first() {
    // frame of an empty Audio payload: bytes [1, 0, 0, 0, 0] -> 40 bits,
    // only bit 7 (the tag byte's least-significant bit) is one
    let framed = frame(ContentType::Audio, &Vec::new());
    let mut channel = ImageChannel { bytes: vec![0xFFu8; 48] };
    embed(&mut channel, &framed).unwrap();
    for i in 0..40 {
        let expected = if i == 7 { 0xFFu8 } else { 0xFEu8 };
        assert_eq!(channel.bytes[i], expected, "unit {}", i);
    }
    for i in 40..48 {
        assert_eq!(channel.bytes[i], 0xFF);
    }
}

#[test]
fn embed_succeeds_at_exact_capacity() {
    let framed = frame(ContentType::Image, &vec![0x55u8]);
    // 6 frame bytes need 48 bits: a 48-unit channel is exactly enough
    let mut channel = ImageChannel { bytes: vec![0u8; 48] };
    assert_eq!(embed(&mut channel, &framed), Ok(()));
}

#[test]
fn embed_fails_one_unit_short() {
    let framed = frame(ContentType::Image, &vec![0x55u8]);
    let mut channel = ImageChannel { bytes: vec![7u8; 47] };
    assert_eq!(
        embed(&mut channel, &framed),
        Err(StegError::InsufficientCapacity { needed: 48, available: 47 })
    );
    // all-or-nothing: nothing was written
    assert_eq!(channel.bytes, vec![7u8; 47]);
}

#[test]
fn embed_leaves_tail_units_untouched() {
    let original: Vec<u8> = (0u8..=99).collect();
    let framed = frame(ContentType::Image, &vec![0x5Au8]);
    let mut channel = ImageChannel { bytes: original.clone() };
    embed(&mut channel, &framed).unwrap();
    for i in 48..100 {
        assert_eq!(channel.bytes[i], original[i], "tail unit {}", i);
    }
    for i in 0..48 {
        assert_eq!(channel.bytes[i] & 0xFE, original[i] & 0xFE, "high bits of unit {}", i);
    }
}

#[test]
fn extract_round_trips_what_embed_wrote() {
    let payload = vec![0xDEu8, 0xAD, 0xBE, 0xEF];
    let framed = frame(ContentType::Image, &payload);
    let mut channel = ImageChannel { bytes: vec![0xA5u8; 128] };
    embed(&mut channel, &framed).unwrap();
    let (tag, recovered) = extract(&channel).unwrap();
    assert_eq!(tag, ContentType::Image);
    assert_eq!(recovered, payload);
}

#[test]
fn extract_rejects_tiny_carrier() {
    let channel = ImageChannel { bytes: vec![0u8; 39] };
    assert!(matches!(extract(&channel), Err(StegError::CarrierTooSmall)));
}

#[test]
fn extract_rejects_unknown_tag() {
    // first eight low bits spell 0b00000111 = 7, outside the tag table
    let mut bytes = vec![0u8; 40];
    bytes[5] = 1;
    bytes[6] = 1;
    bytes[7] = 1;
    let channel = ImageChannel { bytes };
    assert_eq!(extract(&channel), Err(StegError::UnknownContentType(7)));
}

#[test]
fn extract_rejects_corrupted_length() {
    // tag byte 0 (image), then a length whose high byte is 0xFF:
    // 0xFF000000 bytes can never fit in a 40-unit channel
    let mut bytes = vec![0u8; 40];
    for i in 8..16 {
        bytes[i] = 1;
    }
    let channel = ImageChannel { bytes };
    assert_eq!(
        extract(&channel),
        Err(StegError::CorruptedLength { length: 0xFF000000, available: 40 })
    );
}

#[test]
fn image_content_hides_in_image_carrier() {
    let pixels: Vec<u8> = (0u8..12).collect();
    let content = ImageContent::new(2, 2, pixels.clone()).unwrap();
    let mut channel = ImageChannel { bytes: vec![0x80u8; 512] };
    encode_lsb(&content, &mut channel).unwrap();
    let (data, tag) = decode_lsb(&channel).unwrap();
    assert_eq!(tag, ContentType::Image);
    let recovered = ImageContent::from_bytes(&data).unwrap();
    assert_eq!(recovered.width, 2);
    assert_eq!(recovered.height, 2);
    assert_eq!(recovered.pixels, pixels);
}

#[test]
fn image_content_hides_in_audio_carrier() {
    let pixels: Vec<u8> = (0u8..12).collect();
    let content = ImageContent::new(2, 2, pixels.clone()).unwrap();
    let mut channel = AudioChannel { samples: vec![-20000i16; 512] };
    encode_lsb_to_audio(&content, &mut channel).unwrap();
    let (data, tag) = decode_lsb_from_audio(&channel).unwrap();
    assert_eq!(tag, ContentType::Image);
    let recovered = ImageContent::from_bytes(&data).unwrap();
    assert_eq!(recovered.pixels, pixels);
}

#[test]
fn audio_content_hides_in_audio_carrier() {
    let content = AudioContent {
        compressed_audio_bytes: vec![0xAAu8, 0xBB, 0xCC],
        target_extension: String::from("mp3"),
    };
    let original_samples = vec![-12345i16; 256];
    let mut channel = AudioChannel { samples: original_samples.clone() };
    encode_lsb_to_audio(&content, &mut channel).unwrap();
    // every sample kept its fifteen high bits
    for i in 0..256 {
        assert_eq!(
            (channel.samples[i] as u16) & 0xFFFE,
            (original_samples[i] as u16) & 0xFFFE,
            "sample {}",
            i
        );
    }
    let (data, tag) = decode_lsb_from_audio(&channel).unwrap();
    assert_eq!(tag, ContentType::Audio);
    let recovered = AudioContent::from_bytes(&data).unwrap();
    assert_eq!(recovered.target_extension, "mp3");
    assert_eq!(recovered.compressed_audio_bytes, vec![0xAAu8, 0xBB, 0xCC]);
}

#[test]
fn audio_content_hides_in_image_carrier() {
    let content = AudioContent {
        compressed_audio_bytes: vec![1u8, 2, 3, 4],
        target_extension: String::from("ogg"),
    };
    let mut channel = ImageChannel { bytes: vec![0x3Cu8; 256] };
    encode_lsb(&content, &mut channel).unwrap();
    let (data, tag) = decode_lsb(&channel).unwrap();
    assert_eq!(tag, ContentType::Audio);
    let recovered = AudioContent::from_bytes(&data).unwrap();
    assert_eq!(recovered.target_extension, "ogg");
    assert_eq!(recovered.compressed_audio_bytes, vec![1u8, 2, 3, 4]);
}

#[test]
fn encode_lsb_rejects_small_carrier() {
    let pixels: Vec<u8> = (0u8..12).collect();
    let content = ImageContent::new(2, 2, pixels).unwrap();
    // encoded payload is 20 bytes, the frame 25, so 200 bits are needed
    let mut channel = ImageChannel { bytes: vec![0u8; 199] };
    assert_eq!(
        encode_lsb(&content, &mut channel),
        Err(StegError::InsufficientCapacity { needed: 200, available: 199 })
    );
}

#[test]
fn extract_from_image_serializes_header_and_pixels() {
    let pixels: Vec<u8> = vec![9u8, 8, 7];
    let content = ImageContent::new(1, 1, pixels).unwrap();
    let data = extract_from_image(&content);
    assert_eq!(data, vec![0u8, 0, 0, 1, 0, 0, 0, 1, 9, 8, 7]);
}

#[test]
fn empty_payload_round_trips() {
    let framed = frame(ContentType::Image, &Vec::new());
    let mut channel = ImageChannel { bytes: vec![0x42u8; 40] };
    embed(&mut channel, &framed).unwrap();
    let (tag, recovered) = extract(&channel).unwrap();
    assert_eq!(tag, ContentType::Image);
    assert_eq!(recovered, Vec::<u8>::new());
}

#[test]
fn multi_byte_length_round_trips() {
    // 300 payload bytes: the length's big-endian bytes are [0, 0, 1, 44]
    let payload: Vec<u8> = (0..300u32).map(|i| (i % 251) as u8).collect();
    let framed = frame(ContentType::Audio, &payload);
    assert_eq!(&framed[1..5], &[0u8, 0, 1, 44]);
    let mut channel = ImageChannel { bytes: vec![0x99u8; 2500] };
    embed(&mut channel, &framed).unwrap();
    let (tag, recovered) = extract(&channel).unwrap();
    assert_eq!(tag, ContentType::Audio);
    assert_eq!(recovered, payload);
}

#[test]
fn audio_carrier_too_small() {
    let channel = AudioChannel { samples: vec![0i16; 39] };
    assert!(matches!(
        decode_lsb_from_audio(&channel),
        Err(StegError::CarrierTooSmall)
    ));
}

#[test]
fn channel_bit_access() {
    let mut channel = ImageChannel { bytes: vec![0b1010_1010u8, 0b0000_0001] };
    assert_eq!(channel.unit_count(), 2);
    assert_eq!(channel.read_bit(0), 0);
    assert_eq!(channel.read_bit(1), 1);
    channel.write_bit(0, 1);
    assert_eq!(channel.bytes[0], 0b1010_1011);
    channel.write_bit(1, 0);
    assert_eq!(channel.bytes[1], 0b0000_0000);
}

#[test]
fn audio_channel_preserves_sample_sign_bits() {
    let mut channel = AudioChannel { samples: vec![-2i16, -1, 0, 1] };
    assert_eq!(channel.unit_count(), 4);
    assert_eq!(channel.read_bit(0), 0);
    assert_eq!(channel.read_bit(1), 1);
    channel.write_bit(0, 1);
    assert_eq!(channel.samples[0], -1);
    channel.write_bit(1, 0);
    assert_eq!(channel.samples[1], -2);
}
