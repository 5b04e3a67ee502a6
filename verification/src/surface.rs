//! Decisions about the surface that a scene is drawn on.

use vstd::prelude::*;

verus! {

/// Which of the formats that a surface offers to use: the first sRGB one, or
/// else the first.
pub fn pick_format(is_srgb: &[bool]) -> (r: usize)
    requires
        is_srgb@.len() > 0,
    ensures
        r < is_srgb@.len(),
        is_srgb@[r as int] || (r == 0 && forall|i: int| 0 <= i < is_srgb@.len() ==> !is_srgb@[i]),
        forall|i: int| 0 <= i < r ==> !is_srgb@[i],
{
    let mut i: usize = 0;
    while i < is_srgb.len()
        invariant
            is_srgb@.len() > 0,
            i <= is_srgb@.len(),
            forall|j: int| 0 <= j < i ==> !is_srgb@[j],
        decreases is_srgb@.len() - i,
    {
        if is_srgb[i] {
            return i;
        }
        i = i + 1;
    }
    0
}

/// An extent that a surface can have: at least one pixel.
pub fn surface_extent(pixels: u32) -> (r: u32)
    ensures
        r == if pixels == 0 {
            1
        } else {
            pixels
        },
{
    if pixels == 0 {
        1
    } else {
        pixels
    }
}

/// How a request for the next texture of a surface ended.
#[derive(Debug, Clone, Copy, PartialEq, Eq, Structural)]
pub enum TextureStatus {
    /// There is a texture to draw on.
    Ready,
    /// The surface no longer fits or is lost.
    Stale,
    /// Anything else.
    Failed,
}

/// What to do about it.
#[derive(Debug, Clone, Copy, PartialEq, Eq, Structural)]
pub enum FrameStep {
    /// Draw and present.
    Draw,
    /// Configure the surface again and ask for another frame.
    Reconfigure,
    /// Report it and ask for another frame.
    Retry,
}

/// What to do about the outcome of a request for a texture.
pub fn frame_step(status: TextureStatus) -> (r: FrameStep)
    ensures
        (r is Draw) == (status is Ready),
        (r is Reconfigure) == (status is Stale),
        (r is Retry) == (status is Failed),
{
    match status {
        TextureStatus::Ready => FrameStep::Draw,
        TextureStatus::Stale => FrameStep::Reconfigure,
        TextureStatus::Failed => FrameStep::Retry,
    }
}

} // verus!
