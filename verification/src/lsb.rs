//! The encode and decode pipelines over concrete carriers: a payload is
//! serialized, framed, and embedded into an image's pixel bytes or an audio
//! stream's samples; extraction reads the frame back and hands out the
//! payload bytes with their content type.

use vstd::prelude::*;
use crate::channel::{AudioChannel, Channel, ImageChannel};
use crate::engine::{embed, embedded, extract, low_bits, spec_extract};
use crate::errors::StegError;
use crate::frame::{frame, spec_frame};
use crate::traits::{ContentType, Encodable};
use crate::content::image::ImageContent;

verus! {

/// True when a carrier with `available` units can hold the frame of a
/// payload of `len` encoded bytes: tag, length and payload bits all fit.
pub open spec fn fits(len: nat, available: nat) -> bool {
    (5 + len) * 8 <= available
}

/// Frames the content (tag, length, payload bytes) and embeds the frame
/// into an image carrier's pixel bytes, least-significant bits only, after
/// validating capacity in full: on failure the carrier is untouched.
pub fn encode_lsb<T: Encodable>(hide_content: &T, channel: &mut ImageChannel) -> (r: Result<
    (),
    StegError,
>)
    requires
        hide_content.wf(),
        hide_content.encoded().len() <= u32::MAX,
        (5 + hide_content.encoded().len()) * 8 <= usize::MAX,
    ensures
        r is Ok <==> fits(hide_content.encoded().len(), old(channel).units().len()),
        r is Ok ==> embedded(
            old(channel).units(),
            final(channel).units(),
            spec_frame(hide_content.ctype(), hide_content.encoded()),
        ),
        r is Err ==> final(channel).units() == old(channel).units() && r == Err::<
            (),
            StegError,
        >(
            StegError::InsufficientCapacity {
                needed: ((5 + hide_content.encoded().len()) * 8) as usize,
                available: old(channel).units().len() as usize,
            },
        ),
{
    let tag = hide_content.content_type();
    let hide_data = hide_content.to_bytes();
    let frame_bytes = frame(tag, &hide_data);
    embed(channel, &frame_bytes)
}

/// Frames the content and embeds the frame into an audio carrier's 16-bit
/// samples, least-significant bits only, after validating capacity in full:
/// on failure the carrier is untouched.
pub fn encode_lsb_to_audio<T: Encodable>(hide_content: &T, channel: &mut AudioChannel) -> (r:
    Result<(), StegError>)
    requires
        hide_content.wf(),
        hide_content.encoded().len() <= u32::MAX,
        (5 + hide_content.encoded().len()) * 8 <= usize::MAX,
    ensures
        r is Ok <==> fits(hide_content.encoded().len(), old(channel).units().len()),
        r is Ok ==> embedded(
            old(channel).units(),
            final(channel).units(),
            spec_frame(hide_content.ctype(), hide_content.encoded()),
        ),
        r is Err ==> final(channel).units() == old(channel).units() && r == Err::<
            (),
            StegError,
        >(
            StegError::InsufficientCapacity {
                needed: ((5 + hide_content.encoded().len()) * 8) as usize,
                available: old(channel).units().len() as usize,
            },
        ),
{
    let tag = hide_content.content_type();
    let hide_data = hide_content.to_bytes();
    let frame_bytes = frame(tag, &hide_data);
    embed(channel, &frame_bytes)
}

/// Reads the hidden frame out of an image carrier's pixel bytes: the
/// payload bytes it carries and their declared content type.
pub fn decode_lsb(channel: &ImageChannel) -> (r: Result<(Vec<u8>, ContentType), StegError>)
    ensures
        match r {
            Ok(p) => spec_extract(low_bits(channel.units())) == Ok::<
                (ContentType, Seq<u8>),
                StegError,
            >((p.1, p.0@)),
            Err(e) => spec_extract(low_bits(channel.units())) == Err::<
                (ContentType, Seq<u8>),
                StegError,
            >(e),
        },
{
    match extract(channel) {
        Ok((tag, data)) => Ok((data, tag)),
        Err(e) => Err(e),
    }
}

/// Reads the hidden frame out of an audio carrier's samples: the payload
/// bytes it carries and their declared content type.
pub fn decode_lsb_from_audio(channel: &AudioChannel) -> (r: Result<
    (Vec<u8>, ContentType),
    StegError,
>)
    ensures
        match r {
            Ok(p) => spec_extract(low_bits(channel.units())) == Ok::<
                (ContentType, Seq<u8>),
                StegError,
            >((p.1, p.0@)),
            Err(e) => spec_extract(low_bits(channel.units())) == Err::<
                (ContentType, Seq<u8>),
                StegError,
            >(e),
        },
{
    match extract(channel) {
        Ok((tag, data)) => Ok((data, tag)),
        Err(e) => Err(e),
    }
}

/// Serializes an image payload into the flat byte buffer that will be
/// hidden: width, height, then the raw pixel bytes.
pub fn extract_from_image(hide_content: &ImageContent) -> (r: Vec<u8>)
    requires
        hide_content.wf(),
    ensures
        r@ == hide_content.encoded(),
{
    hide_content.to_bytes()
}

} // verus!
