//! The image payload codec: width and height as big-endian words, then the
//! raw row-major RGB bytes, three per pixel.

use vstd::prelude::*;
use crate::bits::{be32, be32_bytes, lemma_be32_roundtrip, u32_from_be_bytes, u32_to_be_bytes};
use crate::errors::StegError;
use crate::traits::{ContentType, Decodable, Encodable};
use vstd::slice::{slice_subrange, slice_to_vec};

verus! {

/// A decoded RGB image: its dimensions and its flat pixel buffer, row-major
/// and channel-interleaved. The structural invariant ties the buffer to the
/// dimensions: exactly three bytes per pixel.
#[derive(Debug, PartialEq, Eq)]
pub struct ImageContent {
    /// Width in pixels.
    pub width: u32,
    /// Height in pixels.
    pub height: u32,
    /// The raw pixel bytes, `width * height * 3` of them.
    pub pixels: Vec<u8>,
}

/// The byte count of a pixel grid is bounded by the largest dimensions.
proof fn lemma_pixel_count_bound(w: u32, h: u32)
    by (nonlinear_arith)
    ensures
        0 <= (w as int) * (h as int) * 3 <= 0xffff_ffff * 0xffff_ffff * 3,
{
}

impl ImageContent {
    /// The structural invariant: three bytes per pixel.
    pub open spec fn wf_image(&self) -> bool {
        self.pixels@.len() == self.width * self.height * 3
    }

    /// Builds an image payload after checking the structural invariant;
    /// rejects a pixel buffer whose size does not match the dimensions.
    pub fn new(width: u32, height: u32, pixels: Vec<u8>) -> (r: Result<Self, StegError>)
        ensures
            pixels@.len() == width * height * 3 ==> (r matches Ok(v) && v.width == width
                && v.height == height && v.pixels@ == pixels@),
            pixels@.len() != width * height * 3 ==> r == Err::<Self, StegError>(
                StegError::MalformedPayload,
            ),
    {
        proof {
            lemma_pixel_count_bound(width, height);
        }
        let expected: u128 = (width as u128) * (height as u128) * 3;
        if (pixels.len() as u128) != expected {
            return Err(StegError::MalformedPayload);
        }
        Ok(ImageContent { width, height, pixels })
    }
}

impl Encodable for ImageContent {
    open spec fn wf(&self) -> bool {
        self.wf_image()
    }

    open spec fn encoded(&self) -> Seq<u8> {
        be32_bytes(self.width) + be32_bytes(self.height) + self.pixels@
    }

    open spec fn ctype(&self) -> ContentType {
        ContentType::Image
    }

    fn to_bytes(&self) -> (r: Vec<u8>)
        ensures
            r@ == self.encoded(),
    {
        let mut r = u32_to_be_bytes(self.width);
        let mut height_bytes = u32_to_be_bytes(self.height);
        r.append(&mut height_bytes);
        let mut body = slice_to_vec(self.pixels.as_slice());
        r.append(&mut body);
        proof {
            assert(r@ =~= self.encoded());
        }
        r
    }

    fn content_type(&self) -> (r: ContentType)
        ensures
            r == self.ctype(),
    {
        ContentType::Image
    }

    fn metadata(&self) -> (r: Vec<u8>)
        ensures
            r@ == seq![self.ctype().spec_to_u8()],
    {
        let mut r: Vec<u8> = Vec::new();
        r.push(0);
        proof {
            assert(r@ =~= seq![self.ctype().spec_to_u8()]);
        }
        r
    }
}

impl Decodable for ImageContent {
    open spec fn decode_ok(data: Seq<u8>) -> bool {
        &&& data.len() >= 8
    &&& data.len() - 8 == be32(data[0], data[1], data[2], data[3]) * be32(
            data[4],
            data[5],
            data[6],
            data[7],
        ) * 3
    }

    open spec fn decode_err(data: Seq<u8>) -> StegError {
        StegError::MalformedPayload
    }

    open spec fn decodes_to(data: Seq<u8>, v: Self) -> bool {
        &&& v.width == be32(data[0], data[1], data[2], data[3])
        &&& v.height == be32(data[4], data[5], data[6], data[7])
        &&& v.pixels@ == data.skip(8)
    }

    /// Reads width and height from the first eight bytes and takes every
    /// remaining byte as pixel data; rejects, strictly, any buffer whose
    /// remainder is not exactly `width * height * 3` bytes.
    fn from_bytes(data: &[u8]) -> (r: Result<Self, StegError>)
        ensures
            r is Ok <==> Self::decode_ok(data@),
            r matches Ok(v) ==> Self::decodes_to(data@, v),
            r matches Err(e) ==> e == Self::decode_err(data@),
    {
        if data.len() < 8 {
            return Err(StegError::MalformedPayload);
        }
        let width = u32_from_be_bytes(
            *vstd::slice::slice_index_get(data, 0),
            *vstd::slice::slice_index_get(data, 1),
            *vstd::slice::slice_index_get(data, 2),
            *vstd::slice::slice_index_get(data, 3),
        );
        let height = u32_from_be_bytes(
            *vstd::slice::slice_index_get(data, 4),
            *vstd::slice::slice_index_get(data, 5),
            *vstd::slice::slice_index_get(data, 6),
            *vstd::slice::slice_index_get(data, 7),
        );
        proof {
            lemma_pixel_count_bound(width, height);
        }
        let expected: u128 = (width as u128) * (height as u128) * 3;
        if ((data.len() - 8) as u128) != expected {
            return Err(StegError::MalformedPayload);
        }
        let pixels = slice_to_vec(slice_subrange(data, 8, data.len()));
        proof {
            assert(pixels@ =~= data@.skip(8));
        }
        Ok(ImageContent { width, height, pixels })
    }
}

/// Round-trip law of the image codec: the encoding of any well-formed image
/// payload decodes, and everything it decodes to carries the original
/// dimensions and pixel bytes.
pub proof fn lemma_image_codec_round_trip(v: ImageContent)
    requires
        v.wf(),
    ensures
        ImageContent::decode_ok(v.encoded()),
        forall|w: ImageContent|
            ImageContent::decodes_to(v.encoded(), w) ==> w.width == v.width && w.height == v.height
                && w.pixels@ == v.pixels@,
{
    let data = v.encoded();
    assert(data[0] == be32_bytes(v.width)[0] && data[1] == be32_bytes(v.width)[1] && data[2]
        == be32_bytes(v.width)[2] && data[3] == be32_bytes(v.width)[3]);
    assert(data[4] == be32_bytes(v.height)[0] && data[5] == be32_bytes(v.height)[1] && data[6]
        == be32_bytes(v.height)[2] && data[7] == be32_bytes(v.height)[3]);
    lemma_be32_roundtrip(v.width);
    lemma_be32_roundtrip(v.height);
    assert(data.skip(8) =~= v.pixels@);
}

} // verus!
