//! Pixel geometry of the unfolded net.

use vstd::prelude::*;

verus! {

/// Width of one deltille, in grid pixels.
pub const DELTILLE_GRID_WIDTH: usize = 16;

/// Height of one deltille, in grid pixels: the height of an equilateral
/// triangle of width `DELTILLE_GRID_WIDTH`, rounded up to whole pixels.
pub const DELTILLE_GRID_HEIGHT: usize = 14;

/// Half the width of a deltille.
pub const DELTILLE_GRID_WIDTH_HALF: usize = DELTILLE_GRID_WIDTH / 2;

/// Half the height of a deltille.
pub const DELTILLE_GRID_HEIGHT_HALF: usize = DELTILLE_GRID_HEIGHT / 2;

/// Number of deltilles along one edge of an icoface, where nothing else is asked for.
pub const ICOFACE_DELTILLE_WIDTH: usize = 4;

/// Number of deltilles in an icoface of the default width.
pub const ICOFACE_DELTILLE_COUNT: usize = ICOFACE_DELTILLE_WIDTH * ICOFACE_DELTILLE_WIDTH;

/// Number of deltilles on an icosahedron of the default width.
pub const ICOSAHEDRON_DELTILLE_COUNT: usize = ICOFACE_DELTILLE_COUNT * 20;

/// Width of an icoface of the default width, in grid pixels.
pub const ICOFACE_GRID_WIDTH: usize = ICOFACE_DELTILLE_WIDTH * DELTILLE_GRID_WIDTH;

/// Half the width of an icoface of the default width.
pub const ICOFACE_GRID_WIDTH_HALF: usize = ICOFACE_GRID_WIDTH / 2;

/// Height of an icoface of the default width, in grid pixels.
pub const ICOFACE_GRID_HEIGHT: usize = DELTILLE_GRID_HEIGHT * ICOFACE_DELTILLE_WIDTH;

/// Width of the whole net of the default width: five faces and the half face
/// by which the lower rows are shifted.
pub const WINDOW_GRID_WIDTH: usize = 5 * ICOFACE_GRID_WIDTH + ICOFACE_GRID_WIDTH_HALF;

/// Height of the whole net of the default width.
pub const WINDOW_GRID_HEIGHT: usize = 3 * ICOFACE_GRID_HEIGHT;

} // verus!
