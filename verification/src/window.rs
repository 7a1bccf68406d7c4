//! The windows that thumbnails mirror.
use crate::geometry::{CornerRadius, PixelSize};
use vstd::prelude::*;

verus! {

/// Identifies a mapped window.
pub type MappedId = u64;

/// What there is to know of a mapped window.
#[derive(Clone, Copy, Debug)]
pub struct Mapped {
    /// Identifier.
    pub id: MappedId,
    /// Size in logical pixels.
    pub size: PixelSize,
    /// The window is neither maximized nor fullscreen.
    pub is_normal: bool,
    /// The corner radius from the window rules.
    pub geometry_corner_radius: Option<CornerRadius>,
}

} // verus!
