//! The per-content-type payload codecs: each turns a typed value into the
//! flat byte buffer a frame carries, and reconstructs it exactly.

pub mod audio;
pub mod image;
