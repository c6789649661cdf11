//! The color names of the species catalog and of the map background.
//!
//! Only the symbolic tone lives here; turning a tone into device color
//! values is the renderer's business.

use vstd::prelude::*;

verus! {

/// A symbolic color, looked up by the renderer.
#[derive(Clone, Copy, Debug, PartialEq, Eq, Structural)]
pub enum ColorTone {
    Brown,
    Black,
    White,
    DarkGreen,
    Red,
    LimeGreen,
}

} // verus!
