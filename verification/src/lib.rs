//! LSB steganography: hide a typed binary payload (an image's pixels or a
//! compressed audio blob) in the least-significant bits of a carrier, and
//! recover it exactly.
//!
//! The crate is organised as the codec's layers, leaves first: the shared
//! bit-addressing model (`bits`), the error values (`errors`), content type
//! tags and the encode/decode capabilities (`traits`), the per-content-type
//! payload codecs (`content`), the framing protocol that wraps payload
//! bytes with a tag and a length (`frame`), the bit-addressed view of a
//! carrier (`channel`), the engine that writes a frame's bits into a
//! channel and reads them back (`engine`), the encode/decode pipelines over
//! concrete carriers (`lsb`), the dispatch that rebuilds extracted content
//! and its output path (`reconstruct`), and the viewport rule for loaded
//! carriers (`load`).

pub mod bits;
pub mod channel;
pub mod content;
pub mod engine;
pub mod errors;
pub mod frame;
pub mod load;
pub mod lsb;
pub mod reconstruct;
pub mod traits;
