//! The display palette: the fixed ordered colors that winner indices
//! map to.
//!
//! The palette bounds how many candidates one map can show.  An index
//! beyond the palette (including the undecided sentinel) maps to a
//! defined fallback color, white, rather than failing: white is also
//! what an untouched image buffer holds.

use vstd::prelude::*;

verus! {

/// An RGB display color.
#[derive(Clone, Copy, Debug, PartialEq, Eq, Structural)]
pub struct Color {
    pub r: u8,
    pub g: u8,
    pub b: u8,
}

/// The color assigned to candidate index `i`: the fixed ordered
/// palette, with white as the fallback for indices beyond it.
pub open spec fn palette_spec(i: int) -> Color {
    if i == 0 {
        Color { r: 255, g: 0, b: 0 }
    } else if i == 1 {
        Color { r: 0, g: 255, b: 0 }
    } else if i == 2 {
        Color { r: 0, g: 0, b: 255 }
    } else if i == 3 {
        Color { r: 255, g: 255, b: 0 }
    } else if i == 4 {
        Color { r: 255, g: 20, b: 147 }
    } else {
        Color { r: 255, g: 255, b: 255 }
    }
}

/// How many candidates the display palette can tell apart.
pub fn max_candidates() -> (n: usize)
    ensures
        n == crate::MAX_CANDIDATES,
{
    5
}

/// The display color of candidate `i`; indices beyond the palette get
/// the fallback color.
pub fn candidate_color(i: usize) -> (c: Color)
    ensures
        c == palette_spec(i as int),
{
    if i == 0 {
        Color { r: 255, g: 0, b: 0 }
    } else if i == 1 {
        Color { r: 0, g: 255, b: 0 }
    } else if i == 2 {
        Color { r: 0, g: 0, b: 255 }
    } else if i == 3 {
        Color { r: 255, g: 255, b: 0 }
    } else if i == 4 {
        Color { r: 255, g: 20, b: 147 }
    } else {
        Color { r: 255, g: 255, b: 255 }
    }
}

} // verus!
