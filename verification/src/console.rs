//! What the library shares with the console front end: the target of the
//! console's handle, and where on the screen a tile stands.

use vstd::prelude::*;
use crate::grid::MAX_SIDE;

verus! {

/// What a console handle points to. The library never makes or reads such
/// a value: the front end only holds pointers to it, which the platform
/// hands out.
#[allow(non_camel_case_types)]
pub enum c_void {
    Opaque,
}

/// Where the cursor stands on the screen when it is on the tile in column
/// `x` of row `y`: column, then line. The frame is drawn from the top left
/// corner of the screen, so this is the place of the tile's glyph.
pub fn screen_position(x: usize, y: usize) -> (at: (i16, i16))
    requires
        x <= MAX_SIDE,
        y <= MAX_SIDE,
    ensures
        at.0 == 2 * x + 2,
        at.1 == y,
{
    ((2 * x + 2) as i16, y as i16)
}

} // verus!
