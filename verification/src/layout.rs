//! Where each deltille of an icoface lies: the arithmetic between a deltille's
//! index in its face and its row and column in the triangular grid.
//!
//! An upward face of width `w` holds rows `0..w` from its tip down. Row `r`
//! holds `r` downward deltilles followed by `r + 1` upward ones, so it starts
//! at index `r * r`. A downward face is the same grid turned upside down: row
//! `r` holds `w - r` downward deltilles followed by `w - r - 1` upward ones.

use vstd::prelude::*;
use crate::sockets::{DeltilleFaceSocket, VerticalOrientation};

verus! {

/// The largest `r` with `r * r <= index`: the row of an upward face that
/// holds the deltille with that index.
pub open spec fn row_of(index: nat) -> nat
    decreases index,
{
    if index == 0 {
        0
    } else {
        let below = row_of((index - 1) as nat);
        if (below + 1) * (below + 1) <= index {
            below + 1
        } else {
            below
        }
    }
}

/// `row_of(index)` squares to at most `index`, and the next row starts beyond it.
pub proof fn lemma_row_of_bounds(index: nat)
    ensures
        row_of(index) * row_of(index) <= index,
        index < (row_of(index) + 1) * (row_of(index) + 1),
    decreases index,
{
    let row = row_of(index);
    if index == 0 {
        assert(index < (row + 1) * (row + 1)) by (nonlinear_arith)
            requires
                row == 0,
                index == 0,
        ;
    } else {
        lemma_row_of_bounds((index - 1) as nat);
        let below = row_of((index - 1) as nat);
        if (below + 1) * (below + 1) <= index {
            assert(row == below + 1);
            assert(index < (row + 1) * (row + 1)) by (nonlinear_arith)
                requires
                    index - 1 < (below + 1) * (below + 1),
                    row == below + 1,
            ;
        } else {
            assert(row == below);
            assert(index < (row + 1) * (row + 1));
        }
    }
}

/// Any row whose span holds `index` is `row_of(index)`.
pub proof fn lemma_row_of_unique(index: nat, row: nat)
    requires
        row * row <= index,
        index < (row + 1) * (row + 1),
    ensures
        row_of(index) == row,
{
    lemma_row_of_bounds(index);
    let found = row_of(index);
    if found < row {
        assert((found + 1) * (found + 1) <= row * row) by (nonlinear_arith)
            requires
                found + 1 <= row,
        ;
    }
    if row < found {
        assert((row + 1) * (row + 1) <= found * found) by (nonlinear_arith)
            requires
                row + 1 <= found,
        ;
    }
}

/// Squares grow with their root.
pub proof fn lemma_square_monotonic(a: int, b: int)
    requires
        0 <= a <= b,
    ensures
        a * a <= b * b,
{
    assert(a * a <= b * b) by (nonlinear_arith)
        requires
            0 <= a <= b,
    ;
}

/// The square of a successor.
pub proof fn lemma_square_successor(a: int)
    ensures
        (a + 1) * (a + 1) == a * a + 2 * a + 1,
{
    assert((a + 1) * (a + 1) == a * a + 2 * a + 1) by (nonlinear_arith);
}

/// A deltille's place in the grid of its face: its row from the top, and its
/// column among the deltilles of its own orientation in that row, from the left.
pub struct DeltillePlace {
    pub row: int,
    pub column: int,
    pub orientation: VerticalOrientation,
}

/// The number of downward deltilles in a row of a downward face.
pub open spec fn down_row_size(width: int, row: int) -> int {
    width - row
}

/// Whether a place exists in a face of the given orientation and width.
pub open spec fn valid_place(face: VerticalOrientation, width: int, place: DeltillePlace) -> bool {
    &&& 0 <= place.row < width
    &&& 0 <= place.column
    &&& match (face, place.orientation) {
        (VerticalOrientation::Up, VerticalOrientation::Down) => place.column < place.row,
        (VerticalOrientation::Up, VerticalOrientation::Up) => place.column <= place.row,
        (VerticalOrientation::Down, VerticalOrientation::Down) => place.column < down_row_size(
            width,
            place.row,
        ),
        (VerticalOrientation::Down, VerticalOrientation::Up) => place.column < down_row_size(
            width,
            place.row,
        ) - 1,
    }
}

/// The index of the first deltille of a row.
pub open spec fn row_start(face: VerticalOrientation, width: int, row: int) -> int {
    match face {
        VerticalOrientation::Up => row * row,
        VerticalOrientation::Down => width * width - (width - row) * (width - row),
    }
}

/// The index in its face of the deltille at a place.
pub open spec fn index_of(face: VerticalOrientation, width: int, place: DeltillePlace) -> int {
    row_start(face, width, place.row) + match (face, place.orientation) {
        (VerticalOrientation::Up, VerticalOrientation::Down) => place.column,
        (VerticalOrientation::Up, VerticalOrientation::Up) => place.row + place.column,
        (VerticalOrientation::Down, VerticalOrientation::Down) => place.column,
        (VerticalOrientation::Down, VerticalOrientation::Up) => down_row_size(width, place.row)
            + place.column,
    }
}

/// The row that holds the deltille with the given index.
pub open spec fn row_at(face: VerticalOrientation, width: int, index: int) -> int {
    match face {
        VerticalOrientation::Up => row_of(index as nat) as int,
        VerticalOrientation::Down => width - 1 - row_of((width * width - 1 - index) as nat),
    }
}

/// The place of the deltille with the given index.
pub open spec fn place_at(face: VerticalOrientation, width: int, index: int) -> DeltillePlace {
    let row = row_at(face, width, index);
    let offset = index - row_start(face, width, row);
    match face {
        VerticalOrientation::Up => if offset < row {
            DeltillePlace { row, column: offset, orientation: VerticalOrientation::Down }
        } else {
            DeltillePlace { row, column: offset - row, orientation: VerticalOrientation::Up }
        },
        VerticalOrientation::Down => if offset < down_row_size(width, row) {
            DeltillePlace { row, column: offset, orientation: VerticalOrientation::Down }
        } else {
            DeltillePlace {
                row,
                column: offset - down_row_size(width, row),
                orientation: VerticalOrientation::Up,
            }
        },
    }
}

/// Every place of a face has an index below the face's deltille count, and
/// that index lies at the place.
pub proof fn lemma_place_of_index(face: VerticalOrientation, width: int, place: DeltillePlace)
    requires
        valid_place(face, width, place),
    ensures
        0 <= index_of(face, width, place) < width * width,
        place_at(face, width, index_of(face, width, place)) == place,
{
    let index = index_of(face, width, place);
    let row = place.row;
    match face {
        VerticalOrientation::Up => {
            lemma_square_successor(row);
            lemma_square_monotonic(row + 1, width);
            lemma_square_monotonic(0, row);
            lemma_row_of_unique(index as nat, row as nat);
        },
        VerticalOrientation::Down => {
            let size = width - row;
            lemma_square_successor(size - 1);
            lemma_square_monotonic(size, width);
            lemma_square_monotonic(0, size - 1);
            lemma_row_of_unique((width * width - 1 - index) as nat, (size - 1) as nat);
        },
    }
}

/// Every index below the face's deltille count lies at a place of the face,
/// and that place has this index.
pub proof fn lemma_index_of_place(face: VerticalOrientation, width: int, index: int)
    requires
        0 <= index < width * width,
        0 <= width,
    ensures
        valid_place(face, width, place_at(face, width, index)),
        index_of(face, width, place_at(face, width, index)) == index,
{
    match face {
        VerticalOrientation::Up => {
            lemma_row_of_bounds(index as nat);
            let row = row_of(index as nat) as int;
            lemma_square_successor(row);
            if row >= width {
                lemma_square_monotonic(width, row);
            }
        },
        VerticalOrientation::Down => {
            let mirrored = (width * width - 1 - index) as nat;
            lemma_row_of_bounds(mirrored);
            let below = row_of(mirrored) as int;
            lemma_square_successor(below);
            if below >= width {
                lemma_square_monotonic(width, below);
            }
        },
    }
}

/// The socket on each side of a triangle, clockwise from the top.
pub open spec fn socket_of(orientation: VerticalOrientation, side: int) -> DeltilleFaceSocket {
    match orientation {
        VerticalOrientation::Up => if side == 0 {
            DeltilleFaceSocket::NE
        } else if side == 1 {
            DeltilleFaceSocket::S
        } else {
            DeltilleFaceSocket::NW
        },
        VerticalOrientation::Down => if side == 0 {
            DeltilleFaceSocket::N
        } else if side == 1 {
            DeltilleFaceSocket::SE
        } else {
            DeltilleFaceSocket::SW
        },
    }
}

/// The orientation of the triangles that have the given socket.
pub open spec fn owner_of(socket: DeltilleFaceSocket) -> VerticalOrientation {
    match socket {
        DeltilleFaceSocket::NE | DeltilleFaceSocket::S | DeltilleFaceSocket::NW => {
            VerticalOrientation::Up
        },
        DeltilleFaceSocket::N | DeltilleFaceSocket::SE | DeltilleFaceSocket::SW => {
            VerticalOrientation::Down
        },
    }
}

/// The socket on a side of a triangle.
pub fn socket_on_side(orientation: VerticalOrientation, side: usize) -> (socket: DeltilleFaceSocket)
    requires
        side < 3,
    ensures
        socket == socket_of(orientation, side as int),
{
    match orientation {
        VerticalOrientation::Up => if side == 0 {
            DeltilleFaceSocket::NE
        } else if side == 1 {
            DeltilleFaceSocket::S
        } else {
            DeltilleFaceSocket::NW
        },
        VerticalOrientation::Down => if side == 0 {
            DeltilleFaceSocket::N
        } else if side == 1 {
            DeltilleFaceSocket::SE
        } else {
            DeltilleFaceSocket::SW
        },
    }
}

/// The orientation of the triangles that have a socket.
pub fn socket_owner(socket: DeltilleFaceSocket) -> (orientation: VerticalOrientation)
    ensures
        orientation == owner_of(socket),
{
    match socket {
        DeltilleFaceSocket::NE | DeltilleFaceSocket::S | DeltilleFaceSocket::NW => {
            VerticalOrientation::Up
        },
        DeltilleFaceSocket::N | DeltilleFaceSocket::SE | DeltilleFaceSocket::SW => {
            VerticalOrientation::Down
        },
    }
}

/// The socket that a socket touches where two triangles of one plane share a side.
pub open spec fn facing(socket: DeltilleFaceSocket) -> DeltilleFaceSocket {
    match socket {
        DeltilleFaceSocket::N => DeltilleFaceSocket::S,
        DeltilleFaceSocket::NE => DeltilleFaceSocket::SW,
        DeltilleFaceSocket::SE => DeltilleFaceSocket::NW,
        DeltilleFaceSocket::S => DeltilleFaceSocket::N,
        DeltilleFaceSocket::SW => DeltilleFaceSocket::NE,
        DeltilleFaceSocket::NW => DeltilleFaceSocket::SE,
    }
}

/// Whether the given side of the deltille at a place lies on the edge of its face.
pub open spec fn is_exposed(
    face: VerticalOrientation,
    width: int,
    place: DeltillePlace,
    side: int,
) -> bool {
    place.orientation == face && match face {
        VerticalOrientation::Up => if side == 0 {
            place.column == place.row
        } else if side == 1 {
            place.row == width - 1
        } else {
            place.column == 0
        },
        VerticalOrientation::Down => if side == 0 {
            place.row == 0
        } else if side == 1 {
            place.column == down_row_size(width, place.row) - 1
        } else {
            place.column == 0
        },
    }
}

/// How far along its edge an exposed deltille lies, top to bottom and left to right.
pub open spec fn edge_position(face: VerticalOrientation, place: DeltillePlace, side: int) -> int {
    match face {
        VerticalOrientation::Up => if side == 1 {
            place.column
        } else {
            place.row
        },
        VerticalOrientation::Down => if side == 0 {
            place.column
        } else {
            place.row
        },
    }
}

/// The place of the deltille that lies at a position along the edge of a
/// face with the given socket.
pub open spec fn edge_place(width: int, position: int, socket: DeltilleFaceSocket) -> DeltillePlace {
    match socket {
        DeltilleFaceSocket::N => DeltillePlace {
            row: 0,
            column: position,
            orientation: VerticalOrientation::Down,
        },
        DeltilleFaceSocket::NE => DeltillePlace {
            row: position,
            column: position,
            orientation: VerticalOrientation::Up,
        },
        DeltilleFaceSocket::SE => DeltillePlace {
            row: position,
            column: width - position - 1,
            orientation: VerticalOrientation::Down,
        },
        DeltilleFaceSocket::S => DeltillePlace {
            row: width - 1,
            column: position,
            orientation: VerticalOrientation::Up,
        },
        DeltilleFaceSocket::SW => DeltillePlace {
            row: position,
            column: 0,
            orientation: VerticalOrientation::Down,
        },
        DeltilleFaceSocket::NW => DeltillePlace {
            row: position,
            column: 0,
            orientation: VerticalOrientation::Up,
        },
    }
}

/// The index, in a face that has the given socket, of the deltille at a
/// position along the edge with that socket.
pub open spec fn exposed_index(width: int, position: int, socket: DeltilleFaceSocket) -> int {
    match socket {
        DeltilleFaceSocket::N => position,
        DeltilleFaceSocket::NE => (position + 1) * (position + 1) - 1,
        DeltilleFaceSocket::SE => width * width - 1 - (width - position - 1) * (width - position),
        DeltilleFaceSocket::S => width * width - (width - position),
        DeltilleFaceSocket::SW => width * width - (width - position) * (width - position),
        DeltilleFaceSocket::NW => position * (position + 1),
    }
}

/// The deltille across the given side of a deltille, where that side lies
/// inside the face.
pub open spec fn interior_neighbour(
    face: VerticalOrientation,
    place: DeltillePlace,
    side: int,
) -> DeltillePlace {
    let turned = match place.orientation {
        VerticalOrientation::Up => VerticalOrientation::Down,
        VerticalOrientation::Down => VerticalOrientation::Up,
    };
    // In a row, deltilles alternate, starting with one that points as the
    // face does. So a deltille that points as the face does has, to its
    // right, the turned one of its own column, and to its left the one of the
    // column before. A turned deltille lies between the deltille of its own
    // column and that of the next.
    let with_face = place.orientation == face;
    let (row, column) = match place.orientation {
        VerticalOrientation::Up => if side == 0 {
            // NE
            (place.row, if with_face { place.column } else { place.column + 1 })
        } else if side == 1 {
            // S
            (place.row + 1, place.column)
        } else {
            // NW
            (place.row, if with_face { place.column - 1 } else { place.column })
        },
        VerticalOrientation::Down => if side == 0 {
            // N
            (place.row - 1, place.column)
        } else if side == 1 {
            // SE
            (place.row, if with_face { place.column } else { place.column + 1 })
        } else {
            // SW
            (place.row, if with_face { place.column - 1 } else { place.column })
        },
    };
    DeltillePlace { row, column, orientation: turned }
}

/// The side of the neighbour that touches the given side of a deltille inside a face.
pub open spec fn facing_side(orientation: VerticalOrientation, side: int) -> int {
    facing(socket_of(orientation, side)).spec_index()
}

/// A socket stands on the side of its owner that its index names.
pub proof fn lemma_socket_of_index(socket: DeltilleFaceSocket)
    ensures
        0 <= socket.spec_index() < 3,
        socket_of(owner_of(socket), socket.spec_index()) == socket,
{
}

/// The side with a given index carries a socket of that index.
pub proof fn lemma_index_of_socket(orientation: VerticalOrientation, side: int)
    requires
        0 <= side < 3,
    ensures
        socket_of(orientation, side).spec_index() == side,
        owner_of(socket_of(orientation, side)) == orientation,
{
}

/// An index along an edge names the deltille of the face that lies at that
/// position of the edge, and that deltille is exposed there.
pub proof fn lemma_exposed_index_place(width: int, position: int, socket: DeltilleFaceSocket)
    requires
        0 <= position < width,
    ensures
        valid_place(owner_of(socket), width, edge_place(width, position, socket)),
        exposed_index(width, position, socket) == index_of(
            owner_of(socket),
            width,
            edge_place(width, position, socket),
        ),
        0 <= exposed_index(width, position, socket) < width * width,
        place_at(owner_of(socket), width, exposed_index(width, position, socket)) == edge_place(
            width,
            position,
            socket,
        ),
        is_exposed(
            owner_of(socket),
            width,
            edge_place(width, position, socket),
            socket.spec_index(),
        ),
        edge_position(owner_of(socket), edge_place(width, position, socket), socket.spec_index())
            == position,
{
    let place = edge_place(width, position, socket);
    match socket {
        DeltilleFaceSocket::N => {
            assert(width * width - (width - 0) * (width - 0) == 0) by (nonlinear_arith);
        },
        DeltilleFaceSocket::NE => {
            lemma_square_successor(position);
        },
        DeltilleFaceSocket::SE => {
            assert((width - position - 1) * (width - position) == (width - position) * (width
                - position) - (width - position)) by (nonlinear_arith);
        },
        DeltilleFaceSocket::S => {
            lemma_square_successor(width - 1);
        },
        DeltilleFaceSocket::SW => {},
        DeltilleFaceSocket::NW => {
            assert(position * (position + 1) == position * position + position)
                by (nonlinear_arith);
        },
    }
    lemma_place_of_index(owner_of(socket), width, place);
}

/// A deltille that is exposed on a side lies on the edge with that side's
/// socket, at its edge position.
pub proof fn lemma_exposed_place_on_edge(
    face: VerticalOrientation,
    width: int,
    place: DeltillePlace,
    side: int,
)
    requires
        valid_place(face, width, place),
        0 <= side < 3,
        is_exposed(face, width, place, side),
    ensures
        0 <= edge_position(face, place, side) < width,
        place == edge_place(width, edge_position(face, place, side), socket_of(face, side)),
{
}

/// Along each of the six edges, a later position has a larger index: no two
/// positions of an edge share a deltille, and the deltilles of an edge come
/// in the order of their positions.
pub proof fn lemma_exposed_index_increasing(
    width: int,
    first: int,
    second: int,
    socket: DeltilleFaceSocket,
)
    requires
        0 <= first < second < width,
    ensures
        exposed_index(width, first, socket) < exposed_index(width, second, socket),
{
    match socket {
        DeltilleFaceSocket::N => {},
        DeltilleFaceSocket::NE => {
            assert((first + 1) * (first + 1) < (second + 1) * (second + 1)) by (nonlinear_arith)
                requires
                    0 <= first < second,
            ;
        },
        DeltilleFaceSocket::SE => {
            assert((width - second - 1) * (width - second) < (width - first - 1) * (width - first))
                by (nonlinear_arith)
                requires
                    0 <= first < second < width,
            ;
        },
        DeltilleFaceSocket::S => {},
        DeltilleFaceSocket::SW => {
            assert((width - second) * (width - second) < (width - first) * (width - first))
                by (nonlinear_arith)
                requires
                    0 <= first < second < width,
            ;
        },
        DeltilleFaceSocket::NW => {
            assert(first * (first + 1) < second * (second + 1)) by (nonlinear_arith)
                requires
                    0 <= first < second,
            ;
        },
    }
}

/// The deltilles that the positions `0..width` of an edge name are exactly
/// the deltilles of the face that are exposed on that edge: each position
/// names one, and each exposed deltille is named by its edge position.
pub proof fn lemma_exposed_index_covers_edge(width: int, index: int, socket: DeltilleFaceSocket)
    requires
        0 <= index < width * width,
        0 <= width,
    ensures
        is_exposed(
            owner_of(socket),
            width,
            place_at(owner_of(socket), width, index),
            socket.spec_index(),
        ) <==> exists|position: int|
            0 <= position < width && index == #[trigger] exposed_index(width, position, socket),
{
    let face = owner_of(socket);
    let side = socket.spec_index();
    let place = place_at(face, width, index);
    lemma_index_of_place(face, width, index);
    lemma_socket_of_index(socket);
    if is_exposed(face, width, place, side) {
        lemma_exposed_place_on_edge(face, width, place, side);
        let position = edge_position(face, place, side);
        lemma_exposed_index_place(width, position, socket);
        assert(index == exposed_index(width, position, socket));
    }
    if exists|position: int|
        0 <= position < width && index == #[trigger] exposed_index(width, position, socket) {
        let position = choose|position: int|
            0 <= position < width && index == #[trigger] exposed_index(width, position, socket);
        lemma_exposed_index_place(width, position, socket);
    }
}

/// Inside a face the neighbour relation is symmetric: across a side that is
/// not exposed lies a deltille of the face, whose facing side is not exposed
/// either and leads back.
pub proof fn lemma_interior_neighbour_symmetric(
    face: VerticalOrientation,
    width: int,
    place: DeltillePlace,
    side: int,
)
    requires
        valid_place(face, width, place),
        0 <= side < 3,
        !is_exposed(face, width, place, side),
    ensures
        valid_place(face, width, interior_neighbour(face, place, side)),
        0 <= facing_side(place.orientation, side) < 3,
        !is_exposed(
            face,
            width,
            interior_neighbour(face, place, side),
            facing_side(place.orientation, side),
        ),
        interior_neighbour(
            face,
            interior_neighbour(face, place, side),
            facing_side(place.orientation, side),
        ) == place,
        facing_side(
            interior_neighbour(face, place, side).orientation,
            facing_side(place.orientation, side),
        ) == side,
        owner_of(facing(socket_of(place.orientation, side))) == interior_neighbour(
            face,
            place,
            side,
        ).orientation,
        facing(
            socket_of(
                interior_neighbour(face, place, side).orientation,
                facing_side(place.orientation, side),
            ),
        ) == socket_of(place.orientation, side),
{
}

} // verus!
