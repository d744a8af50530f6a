//! Reconstruction of hidden content: the extracted payload bytes are handed
//! to the codec the content type tag names, and the output path the caller
//! gave is completed with the right file extension.

use vstd::prelude::*;
use crate::content::audio::AudioContent;
use crate::content::image::ImageContent;
use crate::errors::StegError;
use crate::traits::{ends_with, has_suffix, make_suffix4, ContentType, Decodable};
use vstd::string::StringExecFns;
use vstd::utf8::encode_utf8;

verus! {

/// A reconstructed payload, ready to be written out by the caller.
pub enum HiddenContent {
    Image(ImageContent),
    Audio(AudioContent),
}

/// The UTF-8 bytes of the `.png` suffix.
pub open spec fn png_suffix() -> Seq<u8> {
    seq!['.' as u8, 'p' as u8, 'n' as u8, 'g' as u8]
}

/// The path an extracted image is written to: the caller's base, with a
/// `.png` suffix appended unless the base already carries one.
pub open spec fn spec_image_output_path(base: Seq<char>) -> Seq<char> {
    if has_suffix(encode_utf8(base), png_suffix()) {
        base
    } else {
        base + ".png"@
    }
}

/// The path an extracted audio blob is written to: the caller's base with
/// the payload's stored extension appended after a dot.
pub open spec fn spec_audio_output_path(base: Seq<char>, extension: Seq<char>) -> Seq<char> {
    base + "."@ + extension
}

/// Decodes the extracted payload bytes with the codec the tag names and
/// gives the path the reconstructed file should be written to: for an
/// image, the base completed with `.png`; for audio, the base completed
/// with the extension stored inside the payload itself.
pub fn reconstruct_hidden_content(
    data: &[u8],
    content_type: ContentType,
    output_file_base: &str,
) -> (r: Result<(HiddenContent, String), StegError>)
    ensures
        content_type is Image ==> match r {
            Ok(p) => ImageContent::decode_ok(data@) && (p.0 matches HiddenContent::Image(v)
                && ImageContent::decodes_to(data@, v)) && p.1@ == spec_image_output_path(
                output_file_base@,
            ),
            Err(e) => !ImageContent::decode_ok(data@) && e == ImageContent::decode_err(data@),
        },
        content_type is Audio ==> match r {
            Ok(p) => AudioContent::decode_ok(data@) && (p.0 matches HiddenContent::Audio(v)
                && AudioContent::decodes_to(data@, v) && p.1@ == spec_audio_output_path(
                output_file_base@,
                v.target_extension@,
            )),
            Err(e) => !AudioContent::decode_ok(data@) && e == AudioContent::decode_err(data@),
        },
{
    match content_type {
        ContentType::Image => {
            let v = match ImageContent::from_bytes(data) {
                Ok(v) => v,
                Err(e) => {
                    return Err(e);
                },
            };
            let png = make_suffix4('.', 'p', 'n', 'g');
            let mut path = output_file_base.to_owned();
            if !ends_with(output_file_base.as_bytes(), png.as_slice()) {
                path.append(".png");
            }
            Ok((HiddenContent::Image(v), path))
        },
        ContentType::Audio => {
            let v = match AudioContent::from_bytes(data) {
                Ok(v) => v,
                Err(e) => {
                    return Err(e);
                },
            };
            let mut path = output_file_base.to_owned();
            path.append(".");
            path.append(v.target_extension.as_str());
            Ok((HiddenContent::Audio(v), path))
        },
    }
}

} // verus!
