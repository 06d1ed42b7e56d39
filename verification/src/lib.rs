//! Landmark-based localization within a large 2D coordinate space.
//!
//! The library matches small sparse pixel templates ("landmarks") against
//! captured frames and maintains a position estimate for the viewport:
//! an observer's offset into a larger virtual space, recovered purely from
//! pixel data.

pub mod config;
pub mod landmark;
pub mod localizer;
pub mod map;
pub mod util;

pub use landmark::Landmark;
pub use localizer::Localizer;
pub use map::LandmarkMap;
pub use util::Coordinate;
pub use util::Rect;

use vstd::prelude::*;

verus! {

/// A default region of interest covering the reference viewport.
pub fn test_roi() -> (r: Rect)
    ensures
        r == (Rect { x: 0, y: 0, w: 640, h: 408 }),
{
    Rect { x: 0, y: 0, w: 640, h: 408 }
}

} // verus!
