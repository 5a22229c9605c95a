//! The whole grid as plain values, and what makes its links sound: every
//! link names a slot that exists and that names the first slot back.

use vstd::prelude::*;
use crate::icosahedron::{face_slots, DeltilleLink, IcoFaceView};
use crate::layout::{
    edge_position,
    facing_side,
    interior_neighbour,
    is_exposed,
    lemma_exposed_index_place,
    lemma_exposed_place_on_edge,
    lemma_index_of_place,
    lemma_index_of_socket,
    lemma_interior_neighbour_symmetric,
    lemma_place_of_index,
    lemma_socket_of_index,
    owner_of,
    place_at,
    socket_of,
};
use crate::net::{
    face_links,
    face_orientation,
    face_x,
    face_y,
    lemma_face_links_symmetric,
    FaceLink,
    ICOFACE_COUNT,
};

verus! {

/// The face with the given number, of a grid whose faces are `width`
/// deltilles wide and whose slots start with the given options.
pub open spec fn geodesic_face(width: int, options: Seq<Set<usize>>, face: int) -> IcoFaceView {
    IcoFaceView {
        orientation: face_orientation(face),
        x: face_x(width, face),
        y: face_y(width, face),
        slots: face_slots(
            width,
            face_orientation(face),
            face_x(width, face),
            face_y(width, face),
            options,
            face_links(face),
            face,
        ),
        links: face_links(face),
    }
}

/// The grid whose faces are `width` deltilles wide and whose slots start
/// with the given options, one list for each orientation.
pub open spec fn geodesic_grid(width: int, options: Seq<Set<usize>>) -> Seq<IcoFaceView> {
    Seq::new(ICOFACE_COUNT as nat, |face: int| geodesic_face(width, options, face))
}

/// Whether the link of a face across one of its sides names a face of the
/// grid whose link, on the socket named, leads back to this side.
pub open spec fn face_link_resolves(grid: Seq<IcoFaceView>, face: int, side: int) -> bool {
    let link = grid[face].links[side];
    &&& 0 <= link.face < grid.len()
    &&& owner_of(link.socket) == grid[link.face].orientation
    &&& grid[link.face].links[link.socket.spec_index()] == (FaceLink {
        face,
        socket: socket_of(grid[face].orientation, side),
    })
}

/// Whether the link of a slot across one of its sides names a slot of the
/// grid whose link, on the socket named, leads back to this side.
pub open spec fn link_resolves(grid: Seq<IcoFaceView>, face: int, deltille: int, side: int) -> bool {
    let slot = grid[face].slots[deltille];
    let link = slot.links[side];
    &&& 0 <= link.face < grid.len()
    &&& 0 <= link.deltille < grid[link.face].slots.len()
    &&& owner_of(link.socket) == grid[link.face].slots[link.deltille].orientation
    &&& grid[link.face].slots[link.deltille].links[link.socket.spec_index()] == (DeltilleLink {
        face,
        deltille,
        socket: socket_of(slot.orientation, side),
    })
}

/// A grid is well formed if it has twenty faces of one size, each face and
/// each slot has three links, and every link resolves.
pub open spec fn well_formed(grid: Seq<IcoFaceView>) -> bool {
    &&& grid.len() == ICOFACE_COUNT
    &&& forall|face: int|
        0 <= face < grid.len() ==> {
            &&& (#[trigger] grid[face]).links.len() == 3
            &&& grid[face].slots.len() == grid[0].slots.len()
        }
    &&& forall|face: int, side: int|
        0 <= face < grid.len() && 0 <= side < 3 ==> #[trigger] face_link_resolves(grid, face, side)
    &&& forall|face: int, deltille: int|
        0 <= face < grid.len() && 0 <= deltille < grid[face].slots.len() ==> (
        #[trigger] grid[face].slots[deltille]).links.len() == 3
    &&& forall|face: int, deltille: int, side: int|
        0 <= face < grid.len() && 0 <= deltille < grid[face].slots.len() && 0 <= side < 3
            ==> #[trigger] link_resolves(grid, face, deltille, side)
}

/// In the grid of any width, the link across any side of any slot names a
/// slot of the grid, and following that slot's link on the socket named
/// leads back to the slot and to the side the link left from.
pub proof fn lemma_link_resolves(
    width: int,
    options: Seq<Set<usize>>,
    face: int,
    deltille: int,
    side: int,
)
    requires
        0 <= face < ICOFACE_COUNT,
        0 <= width,
        0 <= deltille < width * width,
        0 <= side < 3,
    ensures
        link_resolves(geodesic_grid(width, options), face, deltille, side),
{
    let grid = geodesic_grid(width, options);
    let pointing = face_orientation(face);
    let place = place_at(pointing, width, deltille);
    lemma_index_of_place(pointing, width, deltille);
    lemma_index_of_socket(place.orientation, side);
    let link = grid[face].slots[deltille].links[side];
    if is_exposed(pointing, width, place, side) {
        let across = face_links(face)[side];
        let position = edge_position(pointing, place, side);
        lemma_face_links_symmetric(face, side);
        lemma_exposed_place_on_edge(pointing, width, place, side);
        lemma_exposed_index_place(width, position, across.socket);
        lemma_socket_of_index(across.socket);
        lemma_index_of_socket(pointing, side);
        lemma_exposed_index_place(width, position, socket_of(pointing, side));
        assert(link.face == across.face);
        assert(grid[link.face].slots.len() == width * width);
        let back = grid[link.face].slots[link.deltille].links[link.socket.spec_index()];
        assert(back.face == face);
        assert(back.deltille == deltille);
        assert(back.socket == socket_of(place.orientation, side));
    } else {
        let neighbour = interior_neighbour(pointing, place, side);
        lemma_interior_neighbour_symmetric(pointing, width, place, side);
        lemma_place_of_index(pointing, width, neighbour);
        assert(link.face == face);
        assert(grid[link.face].slots.len() == width * width);
        lemma_socket_of_index(link.socket);
        let back = grid[link.face].slots[link.deltille].links[link.socket.spec_index()];
        assert(link.socket.spec_index() == facing_side(place.orientation, side));
        assert(back.face == face);
        assert(back.deltille == deltille);
        assert(back.socket == socket_of(place.orientation, side));
    }
}

/// The grid of any width is well formed.
pub proof fn lemma_geodesic_grid_well_formed(width: int, options: Seq<Set<usize>>)
    requires
        0 <= width,
    ensures
        well_formed(geodesic_grid(width, options)),
{
    let grid = geodesic_grid(width, options);
    assert forall|face: int, side: int|
        0 <= face < grid.len() && 0 <= side < 3 implies #[trigger] face_link_resolves(
        grid,
        face,
        side,
    ) by {
        lemma_face_links_symmetric(face, side);
    }
    assert forall|face: int, deltille: int, side: int|
        0 <= face < grid.len() && 0 <= deltille < grid[face].slots.len() && 0 <= side < 3
            implies #[trigger] link_resolves(grid, face, deltille, side) by {
        lemma_link_resolves(width, options, face, deltille, side);
    }
}

} // verus!
