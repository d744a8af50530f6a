//! Error values of the codec. All of them are terminal: each reports either
//! a caller mistake or an unrecoverable data-integrity problem.

use vstd::prelude::*;

verus! {

/// Everything that can go wrong while framing, embedding, extracting or
/// decoding a payload.
#[derive(Debug, Clone, Copy, PartialEq, Eq, Structural)]
pub enum StegError {
    /// The carrier holds fewer embeddable units than the frame needs bits.
    /// Reported before any unit is written: embedding is all-or-nothing.
    InsufficientCapacity { needed: usize, available: usize },
    /// The carrier holds fewer units than the fixed tag-plus-length header
    /// needs, so extraction cannot even start.
    CarrierTooSmall,
    /// The tag byte read during extraction maps to no known content type:
    /// the carrier is foreign or carries nothing.
    UnknownContentType(u8),
    /// The length read during extraction claims more payload bits than the
    /// carrier holds: the carrier is corrupted or truncated.
    CorruptedLength { length: usize, available: usize },
    /// A byte buffer ends before the header a codec expects is complete.
    TruncatedHeader,
    /// A frame's declared payload length exceeds the bytes that follow its
    /// header.
    TruncatedPayload,
    /// A content codec's structural invariant failed, such as a pixel buffer
    /// whose size does not match the declared dimensions.
    MalformedPayload,
    /// A stored string field is not valid UTF-8.
    InvalidEncoding,
    /// The carrier is not of a kind the bit channel can address.
    CarrierFormatUnsupported,
}

} // verus!
