//! The viewport rule the carrier loader follows: an image taller than the
//! maximum height is scaled down proportionally before it is used. Loading
//! and resampling themselves are the caller's concern; this module fixes
//! the target dimensions exactly.

use vstd::prelude::*;

verus! {

/// The tallest carrier image kept unscaled.
pub const MAX_HEIGHT: u32 = 720;

/// The dimensions an image is loaded at: unchanged while its height is
/// within the viewport, else scaled down proportionally to `MAX_HEIGHT`.
pub open spec fn spec_resized_dimensions(width: u32, height: u32) -> (u32, u32) {
    if height > MAX_HEIGHT {
        (((MAX_HEIGHT * width as int) / height as int) as u32, MAX_HEIGHT)
    } else {
        (width, height)
    }
}

/// The dimensions to load a carrier image at.
pub fn resized_dimensions(width: u32, height: u32) -> (r: (u32, u32))
    ensures
        r == spec_resized_dimensions(width, height),
{
    if height > MAX_HEIGHT {
        proof {
            assert((MAX_HEIGHT as int) * (width as int) <= 720 * 0xffff_ffff)
                by (nonlinear_arith)
                requires
                    width as int <= 0xffff_ffff,
            ;
        }
        let scaled = (MAX_HEIGHT as u64) * (width as u64) / (height as u64);
        proof {
            assert((MAX_HEIGHT * width as int) / height as int <= width as int)
                by (nonlinear_arith)
                requires
                    height as int > MAX_HEIGHT as int,
                    width as int >= 0,
            ;
        }
        (scaled as u32, MAX_HEIGHT)
    } else {
        (width, height)
    }
}

} // verus!
