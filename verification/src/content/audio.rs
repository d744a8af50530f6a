//! The audio payload codec: the target file extension's length as a
//! big-endian word, the extension's UTF-8 bytes, then the already-compressed
//! audio blob verbatim. The blob is opaque to this layer.

use vstd::prelude::*;
use crate::bits::{be32, be32_bytes, lemma_be32_roundtrip, u32_from_be_bytes, u32_to_be_bytes};
use crate::errors::StegError;
use crate::traits::{ContentType, Decodable, Encodable};
use vstd::slice::{slice_subrange, slice_to_vec};
use vstd::string::StrSliceExecFns;
use vstd::utf8::{decode_utf8, encode_utf8, valid_utf8};

verus! {

/// A compressed audio clip ready for embedding: the opaque blob an external
/// transcoder produced and the file extension the reconstructed output
/// should carry.
#[derive(Debug, PartialEq, Eq)]
pub struct AudioContent {
    /// The compressed audio bytes, opaque to this layer.
    pub compressed_audio_bytes: Vec<u8>,
    /// The output file suffix needed to reconstruct a playable file.
    pub target_extension: String,
}

/// Relies on `String::from_utf8`: it succeeds exactly on valid UTF-8 input,
/// and the returned string's characters are the UTF-8 decoding of the bytes.
#[verifier::external_body]
fn bytes_to_string(bytes: Vec<u8>) -> (r: Option<String>)
    ensures
        r is Some <==> valid_utf8(bytes@),
        r matches Some(s) ==> s@ == decode_utf8(bytes@),
{
    String::from_utf8(bytes).ok()
}

impl Encodable for AudioContent {
    open spec fn wf(&self) -> bool {
        encode_utf8(self.target_extension@).len() <= u32::MAX
    }

    open spec fn encoded(&self) -> Seq<u8> {
        be32_bytes(encode_utf8(self.target_extension@).len() as u32) + encode_utf8(
            self.target_extension@,
        ) + self.compressed_audio_bytes@
    }

    open spec fn ctype(&self) -> ContentType {
        ContentType::Audio
    }

    fn to_bytes(&self) -> (r: Vec<u8>)
        ensures
            r@ == self.encoded(),
    {
        let mut ext_bytes = self.target_extension.as_str().as_bytes_vec();
        let mut r = u32_to_be_bytes(ext_bytes.len() as u32);
        r.append(&mut ext_bytes);
        let mut body = slice_to_vec(self.compressed_audio_bytes.as_slice());
        r.append(&mut body);
        proof {
            assert(r@ =~= self.encoded());
        }
        r
    }

    fn content_type(&self) -> (r: ContentType)
        ensures
            r == self.ctype(),
    {
        ContentType::Audio
    }

    fn metadata(&self) -> (r: Vec<u8>)
        ensures
            r@ == seq![self.ctype().spec_to_u8()],
    {
        let mut r: Vec<u8> = Vec::new();
        r.push(1);
        proof {
            assert(r@ =~= seq![self.ctype().spec_to_u8()]);
        }
        r
    }
}

/// The extension length the first four bytes declare.
pub open spec fn spec_ext_len(data: Seq<u8>) -> int
    recommends
        data.len() >= 4,
{
    be32(data[0], data[1], data[2], data[3]) as int
}

impl Decodable for AudioContent {
    open spec fn decode_ok(data: Seq<u8>) -> bool {
        &&& data.len() >= 4
        &&& 4 + spec_ext_len(data) <= data.len()
        &&& valid_utf8(data.subrange(4, 4 + spec_ext_len(data)))
    }

    open spec fn decode_err(data: Seq<u8>) -> StegError {
        if data.len() < 4 || 4 + spec_ext_len(data) > data.len() {
            StegError::TruncatedHeader
        } else {
            StegError::InvalidEncoding
        }
    }

    open spec fn decodes_to(data: Seq<u8>, v: Self) -> bool {
        &&& v.target_extension@ == decode_utf8(data.subrange(4, 4 + spec_ext_len(data)))
        &&& v.compressed_audio_bytes@ == data.skip(4 + spec_ext_len(data))
    }

    /// Reads the extension length, bounds-checks it against the buffer,
    /// decodes the extension as UTF-8, and takes every remaining byte as
    /// the blob. Fails with `TruncatedHeader` when the buffer cannot hold
    /// the declared extension, and with `InvalidEncoding` when the
    /// extension bytes are not UTF-8.
    fn from_bytes(data: &[u8]) -> (r: Result<Self, StegError>)
        ensures
            r is Ok <==> Self::decode_ok(data@),
            r matches Ok(v) ==> Self::decodes_to(data@, v),
            r matches Err(e) ==> e == Self::decode_err(data@),
    {
        if data.len() < 4 {
            return Err(StegError::TruncatedHeader);
        }
        let ext_len = u32_from_be_bytes(
            *vstd::slice::slice_index_get(data, 0),
            *vstd::slice::slice_index_get(data, 1),
            *vstd::slice::slice_index_get(data, 2),
            *vstd::slice::slice_index_get(data, 3),
        ) as usize;
        if data.len() - 4 < ext_len {
            return Err(StegError::TruncatedHeader);
        }
        let ext_bytes = slice_to_vec(slice_subrange(data, 4, 4 + ext_len));
        let target_extension = match bytes_to_string(ext_bytes) {
            Some(s) => s,
            None => {
                return Err(StegError::InvalidEncoding);
            },
        };
        let compressed_audio_bytes = slice_to_vec(
            slice_subrange(data, 4 + ext_len, data.len()),
        );
        proof {
            assert(compressed_audio_bytes@ =~= data@.skip(4 + spec_ext_len(data@)));
        }
        Ok(AudioContent { compressed_audio_bytes, target_extension })
    }
}

/// Round-trip law of the audio codec: the encoding of any well-formed audio
/// payload decodes, and everything it decodes to carries the original
/// extension string and blob bytes.
pub proof fn lemma_audio_codec_round_trip(v: AudioContent)
    requires
        v.wf(),
    ensures
        AudioContent::decode_ok(v.encoded()),
        forall|w: AudioContent|
            AudioContent::decodes_to(v.encoded(), w) ==> w.target_extension@
                == v.target_extension@ && w.compressed_audio_bytes@ == v.compressed_audio_bytes@,
{
    broadcast use vstd::utf8::encode_utf8_valid_utf8, vstd::utf8::encode_utf8_decode_utf8;

    let ext = encode_utf8(v.target_extension@);
    let n = ext.len() as u32;
    let data = v.encoded();
    assert(data[0] == be32_bytes(n)[0] && data[1] == be32_bytes(n)[1] && data[2] == be32_bytes(
        n,
    )[2] && data[3] == be32_bytes(n)[3]);
    lemma_be32_roundtrip(n);
    assert(spec_ext_len(data) == ext.len());
    assert(data.subrange(4, 4 + ext.len() as int) =~= ext);
    assert(data.skip(4 + ext.len() as int) =~= v.compressed_audio_bytes@);
}

} // verus!
