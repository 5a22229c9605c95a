//! The net of the icosahedron: twenty faces in four rows of five, and which
//! face lies across each side of each face.
//!
//! ```text
//! face  0 ..  4   /\  /\  /\  /\  /\      top cap
//! face  5 ..  9   \/  \/  \/  \/  \/      band
//! face 10 .. 14     /\  /\  /\  /\  /\    band
//! face 15 .. 19     \/  \/  \/  \/  \/    bottom cap
//! ```

use vstd::prelude::*;
use crate::config_constants::{DELTILLE_GRID_HEIGHT, DELTILLE_GRID_WIDTH};
use crate::layout::{owner_of, socket_of};
use crate::sockets::{DeltilleFaceSocket, VerticalOrientation};

verus! {

/// Number of faces of an icosahedron.
pub const ICOFACE_COUNT: usize = 20;

/// What lies across one side of a face: a face, and the socket of that face
/// which touches the side.
pub struct FaceLink {
    pub face: int,
    pub socket: DeltilleFaceSocket,
}

/// The first and third row of the net point up, the second and fourth down.
pub open spec fn face_orientation(face: int) -> VerticalOrientation {
    if (face / 5) % 2 == 0 {
        VerticalOrientation::Up
    } else {
        VerticalOrientation::Down
    }
}

/// What lies across the given side of a face, on the sphere.
pub open spec fn face_link(face: int, side: int) -> FaceLink {
    let column = face % 5;
    let right = (column + 1) % 5;
    let left = (column + 4) % 5;
    if face / 5 == 0 {
        // top cap: the faces around the upper pole, above the band
        if side == 0 {
            FaceLink { face: right, socket: DeltilleFaceSocket::NW }
        } else if side == 1 {
            FaceLink { face: face + 5, socket: DeltilleFaceSocket::N }
        } else {
            FaceLink { face: left, socket: DeltilleFaceSocket::NE }
        }
    } else if face / 5 == 1 {
        // band, pointing down: below the top cap, between two upward faces of the band
        if side == 0 {
            FaceLink { face: face - 5, socket: DeltilleFaceSocket::S }
        } else if side == 1 {
            FaceLink { face: 10 + column, socket: DeltilleFaceSocket::NW }
        } else {
            FaceLink { face: 10 + left, socket: DeltilleFaceSocket::NE }
        }
    } else if face / 5 == 2 {
        // band, pointing up: above the bottom cap, between two downward faces of the band
        if side == 0 {
            FaceLink { face: 5 + right, socket: DeltilleFaceSocket::SW }
        } else if side == 1 {
            FaceLink { face: face + 5, socket: DeltilleFaceSocket::N }
        } else {
            FaceLink { face: 5 + column, socket: DeltilleFaceSocket::SE }
        }
    } else {
        // bottom cap: the faces around the lower pole
        if side == 0 {
            FaceLink { face: face - 5, socket: DeltilleFaceSocket::S }
        } else if side == 1 {
            FaceLink { face: 15 + right, socket: DeltilleFaceSocket::SW }
        } else {
            FaceLink { face: 15 + left, socket: DeltilleFaceSocket::SE }
        }
    }
}

/// The three links of a face, in the order of its sides.
pub open spec fn face_links(face: int) -> Seq<FaceLink> {
    Seq::new(3, |side: int| face_link(face, side))
}

/// Horizontal centre of a face in the net, in grid pixels: the two lower
/// rows are shifted right by half a face.
pub open spec fn face_x(width: int, face: int) -> int {
    let face_width = width * DELTILLE_GRID_WIDTH;
    let shift = if face / 5 < 2 {
        face_width / 2
    } else {
        face_width
    };
    shift + (face % 5) * face_width
}

/// Vertical centre of a face in the net, in grid pixels. The two rows of the
/// band interlock, so they share their height.
pub open spec fn face_y(width: int, face: int) -> int {
    let face_height = width * DELTILLE_GRID_HEIGHT;
    if face / 5 == 0 {
        5 * face_height / 2
    } else if face / 5 == 3 {
        face_height / 2
    } else {
        3 * face_height / 2
    }
}

/// The faces' links are symmetric: the face across a side of a face has, on
/// the socket that touches that side, a link back to the face and to the
/// socket of that side.
pub proof fn lemma_face_links_symmetric(face: int, side: int)
    requires
        0 <= face < ICOFACE_COUNT,
        0 <= side < 3,
    ensures
        0 <= face_link(face, side).face < ICOFACE_COUNT,
        owner_of(face_link(face, side).socket) == face_orientation(face_link(face, side).face),
        face_link(face_link(face, side).face, face_link(face, side).socket.spec_index())
            == (FaceLink { face, socket: socket_of(face_orientation(face), side) }),
{
}

} // verus!
