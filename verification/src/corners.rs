//! Walking around the corners of the deltilles: the grid closes around
//! every corner, as the surface of a sphere does.

use vstd::prelude::*;
use crate::adjacency::geodesic_grid;
use crate::icosahedron::{deltille_link, IcoFaceView};
use crate::layout::{
    edge_place,
    edge_position,
    facing_side,
    interior_neighbour,
    is_exposed,
    lemma_exposed_index_place,
    lemma_exposed_place_on_edge,
    lemma_index_of_place,
    lemma_interior_neighbour_symmetric,
    lemma_place_of_index,
    place_at,
    valid_place,
    DeltillePlace,
};
use crate::net::{
    face_link,
    face_links,
    face_orientation,
    lemma_face_links_symmetric,
    FaceLink,
    ICOFACE_COUNT,
};
use crate::sockets::{DeltilleFaceSocket, VerticalOrientation};

verus! {

/// A side of a deltille, seen from inside it. The face of the deltille is
/// named by its row and its column in the net.
pub struct Dart {
    pub band: int,
    pub column: int,
    pub place: DeltillePlace,
    pub side: int,
}

/// The column to the right, around the sphere.
pub open spec fn right_of(column: int) -> int {
    if column == 4 {
        0
    } else {
        column + 1
    }
}

/// The column to the left, around the sphere.
pub open spec fn left_of(column: int) -> int {
    if column == 0 {
        4
    } else {
        column - 1
    }
}

/// The orientation of the faces of a row of the net.
pub open spec fn pointing(band: int) -> VerticalOrientation {
    if band == 0 || band == 2 {
        VerticalOrientation::Up
    } else {
        VerticalOrientation::Down
    }
}

/// What lies across a side of a face: the row and the column of a face, and
/// the socket of that face which touches the side.
pub open spec fn across(band: int, column: int, side: int) -> (int, int, DeltilleFaceSocket) {
    if band == 0 {
        if side == 0 {
            (0, right_of(column), DeltilleFaceSocket::NW)
        } else if side == 1 {
            (1, column, DeltilleFaceSocket::N)
        } else {
            (0, left_of(column), DeltilleFaceSocket::NE)
        }
    } else if band == 1 {
        if side == 0 {
            (0, column, DeltilleFaceSocket::S)
        } else if side == 1 {
            (2, column, DeltilleFaceSocket::NW)
        } else {
            (2, left_of(column), DeltilleFaceSocket::NE)
        }
    } else if band == 2 {
        if side == 0 {
            (1, right_of(column), DeltilleFaceSocket::SW)
        } else if side == 1 {
            (3, column, DeltilleFaceSocket::N)
        } else {
            (1, column, DeltilleFaceSocket::SE)
        }
    } else {
        if side == 0 {
            (2, column, DeltilleFaceSocket::S)
        } else if side == 1 {
            (3, right_of(column), DeltilleFaceSocket::SW)
        } else {
            (3, left_of(column), DeltilleFaceSocket::SE)
        }
    }
}

/// The face in a row and a column of the net has the links that the net
/// gives to the face with its number.
pub proof fn lemma_across_is_face_link(band: int, column: int, side: int)
    requires
        0 <= band < 4,
        0 <= column < 5,
        0 <= side < 3,
    ensures
        face_link(5 * band + column, side) == (FaceLink {
            face: 5 * across(band, column, side).0 + across(band, column, side).1,
            socket: across(band, column, side).2,
        }),
        0 <= across(band, column, side).0 < 4,
        0 <= across(band, column, side).1 < 5,
{
}

/// Whether a dart names a side of a deltille of the grid.
pub open spec fn valid_dart(width: int, dart: Dart) -> bool {
    &&& 0 <= dart.band < 4
    &&& 0 <= dart.column < 5
    &&& valid_place(pointing(dart.band), width, dart.place)
    &&& 0 <= dart.side < 3
}

/// Whether the side of a dart lies on the edge of its face.
pub open spec fn exposed(width: int, dart: Dart) -> bool {
    is_exposed(pointing(dart.band), width, dart.place, dart.side)
}

/// Across the side, and on to the next side clockwise of the deltille
/// there: a turn around the corner between the two sides.
pub open spec fn turn(width: int, dart: Dart) -> Dart {
    if exposed(width, dart) {
        let (band, column, socket) = across(dart.band, dart.column, dart.side);
        Dart {
            band,
            column,
            place: edge_place(
                width,
                edge_position(pointing(dart.band), dart.place, dart.side),
                socket,
            ),
            side: (socket.spec_index() + 1) % 3,
        }
    } else {
        Dart {
            band: dart.band,
            column: dart.column,
            place: interior_neighbour(pointing(dart.band), dart.place, dart.side),
            side: (facing_side(dart.place.orientation, dart.side) + 1) % 3,
        }
    }
}

/// A turn leads to a side of a deltille of the grid.
pub proof fn lemma_turn_valid(width: int, dart: Dart)
    requires
        valid_dart(width, dart),
    ensures
        valid_dart(width, turn(width, dart)),
{
}

/// Whether five or six turns lead from a dart back to it, and no fewer.
pub open spec fn closes(width: int, dart: Dart) -> bool {
    let first = turn(width, dart);
    let second = turn(width, first);
    let third = turn(width, second);
    let fourth = turn(width, third);
    let fifth = turn(width, fourth);
    &&& first != dart
    &&& second != dart
    &&& third != dart
    &&& fourth != dart
    &&& fifth == dart || turn(width, fifth) == dart
}

/// The grid closes around the corner above an upward deltille.
proof fn lemma_closes_above_upward(width: int, dart: Dart)
    requires
        valid_dart(width, dart),
        dart.place.orientation == VerticalOrientation::Up,
        dart.side == 0,
    ensures
        closes(width, dart),
{
    let first = turn(width, dart);
    lemma_turn_valid(width, dart);
    let second = turn(width, first);
    lemma_turn_valid(width, first);
    let third = turn(width, second);
    lemma_turn_valid(width, second);
    let fourth = turn(width, third);
    lemma_turn_valid(width, third);
    let fifth = turn(width, fourth);
    lemma_turn_valid(width, fourth);
    lemma_turn_valid(width, fifth);
}

/// The grid closes around the lower right corner of an upward deltille.
proof fn lemma_closes_right_of_upward(width: int, dart: Dart)
    requires
        valid_dart(width, dart),
        dart.place.orientation == VerticalOrientation::Up,
        dart.side == 1,
    ensures
        closes(width, dart),
{
    let first = turn(width, dart);
    lemma_turn_valid(width, dart);
    let second = turn(width, first);
    lemma_turn_valid(width, first);
    let third = turn(width, second);
    lemma_turn_valid(width, second);
    let fourth = turn(width, third);
    lemma_turn_valid(width, third);
    let fifth = turn(width, fourth);
    lemma_turn_valid(width, fourth);
    lemma_turn_valid(width, fifth);
}

/// The grid closes around the lower left corner of an upward deltille.
proof fn lemma_closes_left_of_upward(width: int, dart: Dart)
    requires
        valid_dart(width, dart),
        dart.place.orientation == VerticalOrientation::Up,
        dart.side == 2,
    ensures
        closes(width, dart),
{
    let first = turn(width, dart);
    lemma_turn_valid(width, dart);
    let second = turn(width, first);
    lemma_turn_valid(width, first);
    let third = turn(width, second);
    lemma_turn_valid(width, second);
    let fourth = turn(width, third);
    lemma_turn_valid(width, third);
    let fifth = turn(width, fourth);
    lemma_turn_valid(width, fourth);
    lemma_turn_valid(width, fifth);
}

/// The grid closes around the upper left corner of a downward deltille.
proof fn lemma_closes_left_of_downward(width: int, dart: Dart)
    requires
        valid_dart(width, dart),
        dart.place.orientation == VerticalOrientation::Down,
        dart.side == 0,
    ensures
        closes(width, dart),
{
    let first = turn(width, dart);
    lemma_turn_valid(width, dart);
    let second = turn(width, first);
    lemma_turn_valid(width, first);
    let third = turn(width, second);
    lemma_turn_valid(width, second);
    let fourth = turn(width, third);
    lemma_turn_valid(width, third);
    let fifth = turn(width, fourth);
    lemma_turn_valid(width, fourth);
    lemma_turn_valid(width, fifth);
}

/// The grid closes around the upper right corner of a downward deltille.
proof fn lemma_closes_right_of_downward(width: int, dart: Dart)
    requires
        valid_dart(width, dart),
        dart.place.orientation == VerticalOrientation::Down,
        dart.side == 1,
    ensures
        closes(width, dart),
{
    let first = turn(width, dart);
    lemma_turn_valid(width, dart);
    let second = turn(width, first);
    lemma_turn_valid(width, first);
    let third = turn(width, second);
    lemma_turn_valid(width, second);
    let fourth = turn(width, third);
    lemma_turn_valid(width, third);
    let fifth = turn(width, fourth);
    lemma_turn_valid(width, fourth);
    lemma_turn_valid(width, fifth);
}

/// The grid closes around the corner below a downward deltille.
proof fn lemma_closes_below_downward(width: int, dart: Dart)
    requires
        valid_dart(width, dart),
        dart.place.orientation == VerticalOrientation::Down,
        dart.side == 2,
    ensures
        closes(width, dart),
{
    let first = turn(width, dart);
    lemma_turn_valid(width, dart);
    let second = turn(width, first);
    lemma_turn_valid(width, first);
    let third = turn(width, second);
    lemma_turn_valid(width, second);
    let fourth = turn(width, third);
    lemma_turn_valid(width, third);
    let fifth = turn(width, fourth);
    lemma_turn_valid(width, fourth);
    lemma_turn_valid(width, fifth);
}

/// Five or six turns around a corner lead back to where they began, and
/// no fewer: five around the corners of the icosahedron, six around every
/// other corner.
pub proof fn lemma_corner_closes(width: int, dart: Dart)
    requires
        valid_dart(width, dart),
    ensures
        closes(width, dart),
{
    match dart.place.orientation {
        VerticalOrientation::Up => {
            if dart.side == 0 {
                lemma_closes_above_upward(width, dart);
            } else if dart.side == 1 {
                lemma_closes_right_of_upward(width, dart);
            } else {
                lemma_closes_left_of_upward(width, dart);
            }
        },
        VerticalOrientation::Down => {
            if dart.side == 0 {
                lemma_closes_left_of_downward(width, dart);
            } else if dart.side == 1 {
                lemma_closes_right_of_downward(width, dart);
            } else {
                lemma_closes_below_downward(width, dart);
            }
        },
    }
}

/// A side of a slot of a grid.
pub struct SlotSide {
    pub face: int,
    pub deltille: int,
    pub side: int,
}

/// Whether a grid of the given width has the side.
pub open spec fn valid_side(width: int, at: SlotSide) -> bool {
    &&& 0 <= at.face < ICOFACE_COUNT
    &&& 0 <= at.deltille < width * width
    &&& 0 <= at.side < 3
}

/// Across the side by the link of the slot, and on to the next side
/// clockwise of the slot there.
pub open spec fn follow(grid: Seq<IcoFaceView>, at: SlotSide) -> SlotSide {
    let link = grid[at.face].slots[at.deltille].links[at.side];
    SlotSide {
        face: link.face,
        deltille: link.deltille,
        side: (link.socket.spec_index() + 1) % 3,
    }
}

/// The dart of a side of a slot.
pub open spec fn dart_of(width: int, at: SlotSide) -> Dart {
    Dart {
        band: at.face / 5,
        column: at.face % 5,
        place: place_at(face_orientation(at.face), width, at.deltille),
        side: at.side,
    }
}

/// Following a link of the grid is a turn of the dart.
pub proof fn lemma_follow_is_turn(width: int, options: Seq<Set<usize>>, at: SlotSide)
    requires
        0 <= width,
        valid_side(width, at),
    ensures
        valid_side(width, follow(geodesic_grid(width, options), at)),
        valid_dart(width, dart_of(width, at)),
        dart_of(width, follow(geodesic_grid(width, options), at)) == turn(
            width,
            dart_of(width, at),
        ),
{
    let grid = geodesic_grid(width, options);
    let facing = face_orientation(at.face);
    let place = place_at(facing, width, at.deltille);
    let dart = dart_of(width, at);
    lemma_index_of_place(facing, width, at.deltille);
    assert(pointing(dart.band) == facing);
    let link = grid[at.face].slots[at.deltille].links[at.side];
    assert(link == deltille_link(width, facing, face_links(at.face), at.face, place, at.side));
    if is_exposed(facing, width, place, at.side) {
        lemma_follow_across(width, at.face, place, at.side);
    } else {
        lemma_interior_neighbour_symmetric(facing, width, place, at.side);
        lemma_place_of_index(facing, width, interior_neighbour(facing, place, at.side));
    }
}

/// Across an edge, the link of a slot leads to the deltille that a turn of
/// the dart leads to.
proof fn lemma_follow_across(width: int, face: int, place: DeltillePlace, side: int)
    requires
        0 <= face < ICOFACE_COUNT,
        0 <= side < 3,
        valid_place(face_orientation(face), width, place),
        is_exposed(face_orientation(face), width, place, side),
    ensures
        ({
            let facing = face_orientation(face);
            let link = deltille_link(width, facing, face_links(face), face, place, side);
            let (band, column, socket) = across(face / 5, face % 5, side);
            &&& link.face == 5 * band + column
            &&& 0 <= band < 4
            &&& 0 <= column < 5
            &&& link.socket == socket
            &&& 0 <= link.deltille < width * width
            &&& pointing(band) == face_orientation(link.face)
            &&& place_at(face_orientation(link.face), width, link.deltille) == edge_place(
                width,
                edge_position(facing, place, side),
                socket,
            )
        }),
{
    let facing = face_orientation(face);
    let position = edge_position(facing, place, side);
    let link = deltille_link(width, facing, face_links(face), face, place, side);
    lemma_across_is_face_link(face / 5, face % 5, side);
    lemma_face_links_symmetric(face, side);
    lemma_exposed_place_on_edge(facing, width, place, side);
    lemma_exposed_index_place(width, position, link.socket);
}

/// Two sides with the same dart are the same side.
pub proof fn lemma_dart_of_one(width: int, first: SlotSide, second: SlotSide)
    requires
        0 <= width,
        valid_side(width, first),
        valid_side(width, second),
        dart_of(width, first) == dart_of(width, second),
    ensures
        first == second,
{
    lemma_index_of_place(face_orientation(first.face), width, first.deltille);
    lemma_index_of_place(face_orientation(second.face), width, second.deltille);
}

/// The grid closes around every corner: following the links around a
/// corner of a slot, from side to side clockwise, leads back to the slot
/// after five or after six slots, and not before.
pub proof fn lemma_grid_closes(width: int, options: Seq<Set<usize>>, at: SlotSide)
    requires
        0 <= width,
        valid_side(width, at),
    ensures
        ({
            let grid = geodesic_grid(width, options);
            let first = follow(grid, at);
            let second = follow(grid, first);
            let third = follow(grid, second);
            let fourth = follow(grid, third);
            let fifth = follow(grid, fourth);
            &&& first != at
            &&& second != at
            &&& third != at
            &&& fourth != at
            &&& fifth == at || follow(grid, fifth) == at
        }),
{
    let grid = geodesic_grid(width, options);
    let first = follow(grid, at);
    lemma_follow_is_turn(width, options, at);
    let second = follow(grid, first);
    lemma_follow_is_turn(width, options, first);
    let third = follow(grid, second);
    lemma_follow_is_turn(width, options, second);
    let fourth = follow(grid, third);
    lemma_follow_is_turn(width, options, third);
    let fifth = follow(grid, fourth);
    lemma_follow_is_turn(width, options, fourth);
    let sixth = follow(grid, fifth);
    lemma_follow_is_turn(width, options, fifth);
    lemma_corner_closes(width, dart_of(width, at));
    if dart_of(width, fifth) == dart_of(width, at) {
        lemma_dart_of_one(width, fifth, at);
    } else {
        lemma_dart_of_one(width, sixth, at);
    }
}

} // verus!
