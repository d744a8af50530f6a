//! The frame protocol: a payload's bytes wrapped with a one-byte content
//! type tag and a four-byte big-endian length into one self-describing
//! frame, and the inverse that recovers tag and payload from such a buffer.

use vstd::prelude::*;
use crate::bits::{be32, be32_bytes, lemma_be32_roundtrip, u32_from_be_bytes, u32_to_be_bytes};
use crate::errors::StegError;
use crate::traits::ContentType;
use vstd::slice::{slice_subrange, slice_to_vec};

verus! {

/// The serialized frame: `[tag : 1][length : 4, big-endian][payload]`.
pub open spec fn spec_frame(tag: ContentType, payload: Seq<u8>) -> Seq<u8>
    recommends
        payload.len() <= u32::MAX,
{
    seq![tag.spec_to_u8()] + be32_bytes(payload.len() as u32) + payload
}

/// What unwrapping a byte buffer yields: the tag and the payload bytes, or
/// the exact reason the buffer is no frame. Bytes beyond the declared
/// payload are ignored.
pub open spec fn spec_unframe(data: Seq<u8>) -> Result<(ContentType, Seq<u8>), StegError> {
    if data.len() < 5 {
        Err(StegError::TruncatedHeader)
    } else {
        match ContentType::spec_from_u8(data[0]) {
            None => Err(StegError::UnknownContentType(data[0])),
            Some(tag) => {
                let length = be32(data[1], data[2], data[3], data[4]) as int;
                if data.len() - 5 < length {
                    Err(StegError::TruncatedPayload)
                } else {
                    Ok((tag, data.subrange(5, 5 + length)))
                }
            },
        }
    }
}

/// Wraps payload bytes into a frame: tag byte, then the payload length as
/// four big-endian bytes, then the payload verbatim.
pub fn frame(tag: ContentType, payload: &Vec<u8>) -> (r: Vec<u8>)
    requires
        payload@.len() <= u32::MAX,
    ensures
        r@ == spec_frame(tag, payload@),
        r@.len() == 5 + payload@.len(),
{
    let mut r: Vec<u8> = Vec::new();
    r.push(tag.to_u8());
    let mut length_bytes = u32_to_be_bytes(payload.len() as u32);
    r.append(&mut length_bytes);
    let mut body = slice_to_vec(payload.as_slice());
    r.append(&mut body);
    proof {
        assert(r@ =~= spec_frame(tag, payload@));
    }
    r
}

/// Unwraps a frame: reads the tag byte, the four-byte big-endian payload
/// length, and exactly that many payload bytes. Fails with
/// `TruncatedHeader` when fewer than five bytes are available, with
/// `UnknownContentType` when the tag byte maps to no known tag, and with
/// `TruncatedPayload` when fewer bytes than the declared length remain.
pub fn unframe(data: &[u8]) -> (r: Result<(ContentType, Vec<u8>), StegError>)
    ensures
        match r {
            Ok(p) => spec_unframe(data@) == Ok::<(ContentType, Seq<u8>), StegError>((p.0, p.1@)),
            Err(e) => spec_unframe(data@) == Err::<(ContentType, Seq<u8>), StegError>(e),
        },
{
    if data.len() < 5 {
        return Err(StegError::TruncatedHeader);
    }
    let tag_byte = *vstd::slice::slice_index_get(data, 0);
    let tag = match ContentType::from_u8(tag_byte) {
        Some(t) => t,
        None => {
            return Err(StegError::UnknownContentType(tag_byte));
        },
    };
    let length = u32_from_be_bytes(
        *vstd::slice::slice_index_get(data, 1),
        *vstd::slice::slice_index_get(data, 2),
        *vstd::slice::slice_index_get(data, 3),
        *vstd::slice::slice_index_get(data, 4),
    );
    if data.len() - 5 < length as usize {
        return Err(StegError::TruncatedPayload);
    }
    let payload = slice_to_vec(slice_subrange(data, 5, 5 + length as usize));
    Ok((tag, payload))
}

/// Round-trip law of the frame protocol: unwrapping a frame, padded with
/// any trailing bytes, yields exactly the tag and payload that were framed.
pub proof fn lemma_frame_unframe_roundtrip(tag: ContentType, payload: Seq<u8>, extra: Seq<u8>)
    requires
        payload.len() <= u32::MAX,
    ensures
        spec_unframe(spec_frame(tag, payload) + extra) == Ok::<(ContentType, Seq<u8>), StegError>(
            (tag, payload),
        ),
{
    let data = spec_frame(tag, payload) + extra;
    let n = payload.len() as u32;
    assert(data[0] == tag.spec_to_u8());
    assert(ContentType::spec_from_u8(tag.spec_to_u8()) == Some(tag));
    assert(data[1] == be32_bytes(n)[0] && data[2] == be32_bytes(n)[1] && data[3] == be32_bytes(
        n,
    )[2] && data[4] == be32_bytes(n)[3]);
    lemma_be32_roundtrip(n);
    assert(data.subrange(5, 5 + n as int) =~= payload);
}

} // verus!
