//! The geodesic grid: twenty icofaces, each subdivided into deltille slots,
//! with every slot's three neighbours resolved, inside its face or across
//! the edge into the neighbouring face.

use vstd::prelude::*;
use vstd::std_specs::iter::IteratorSpec;
use std::collections::HashSet;
use crate::config_constants::{
    DELTILLE_GRID_HEIGHT,
    DELTILLE_GRID_HEIGHT_HALF,
    DELTILLE_GRID_WIDTH,
    DELTILLE_GRID_WIDTH_HALF,
};
use crate::layout::{
    edge_position,
    exposed_index,
    facing,
    index_of,
    interior_neighbour,
    is_exposed,
    lemma_exposed_index_place,
    lemma_interior_neighbour_symmetric,
    lemma_place_of_index,
    lemma_square_monotonic,
    lemma_square_successor,
    place_at,
    socket_of,
    socket_on_side,
    socket_owner,
    valid_place,
    DeltillePlace,
};
use crate::adjacency::{
    face_link_resolves,
    geodesic_face,
    geodesic_grid,
    lemma_geodesic_grid_well_formed,
    link_resolves,
    well_formed,
};
use crate::net::{face_links, FaceLink, ICOFACE_COUNT};
use crate::sockets::{
    DeltilleFaceSocket,
    VerticalOrientation,
    SOCKET_COUNT,
    VERTICAL_ORIENTATION_COUNT,
};

verus! {

broadcast use vstd::std_specs::hash::group_hash_axioms;

/// A point of the flat net, in grid pixels.
#[derive(Debug, Clone, Copy, PartialEq, Eq, Structural)]
pub struct GridPosition {
    pub x: i64,
    pub y: i64,
}

/// Positions no further than this from the origin leave room for a whole
/// face around them.
pub const GRID_POSITION_LIMIT: i64 = 0x1000_0000_0000_0000;

impl GridPosition {
    /// Whether a face may be centred here.
    pub open spec fn in_reach(self) -> bool {
        &&& -GRID_POSITION_LIMIT <= self.x <= GRID_POSITION_LIMIT
        &&& -GRID_POSITION_LIMIT <= self.y <= GRID_POSITION_LIMIT
    }
}

/// Why a grid could not be built.
#[derive(Debug, Clone, Copy, PartialEq, Eq, Structural)]
pub enum ConstructionError {
    /// A face cannot be subdivided into zero deltilles.
    InvalidSubdivisionWidth,
    /// Some slot names a neighbour that does not exist or does not name it back.
    MalformedAdjacency,
}

/// What lies across one side of an icoface.
#[derive(Debug, Copy, Clone)]
pub struct IcoFaceConnection {
    pub target_socket: DeltilleFaceSocket,
    pub target_icoface_id: usize,
}

impl View for IcoFaceConnection {
    type V = FaceLink;

    open spec fn view(&self) -> FaceLink {
        FaceLink { face: self.target_icoface_id as int, socket: self.target_socket }
    }
}

/// Names a deltille slot: its face, and its index in that face.
#[derive(Clone, Copy, Debug, PartialEq, Eq, Structural)]
pub struct DeltilleSlotId {
    pub icoface_id: usize,
    pub deltille_id: usize,
}

/// What lies across one side of a deltille slot, as plain values: a slot,
/// and the socket of that slot which touches the side.
pub struct DeltilleLink {
    pub face: int,
    pub deltille: int,
    pub socket: DeltilleFaceSocket,
}

/// What lies across one side of a deltille slot.
#[derive(Debug, Copy, Clone)]
pub struct DeltilleConnection {
    pub target_socket: DeltilleFaceSocket,
    pub target_deltille_coordinates: DeltilleSlotId,
}

impl View for DeltilleConnection {
    type V = DeltilleLink;

    open spec fn view(&self) -> DeltilleLink {
        DeltilleLink {
            face: self.target_deltille_coordinates.icoface_id as int,
            deltille: self.target_deltille_coordinates.deltille_id as int,
            socket: self.target_socket,
        }
    }
}

/// What a deltille slot holds, as plain values.
pub struct DeltilleSlotView {
    pub options: Set<usize>,
    pub x: int,
    pub y: int,
    pub orientation: VerticalOrientation,
    pub links: Seq<DeltilleLink>,
}

/// One cell of the grid: where it lies, which way it points, the tiles it
/// may take at the start, and its neighbour across each of its three sides.
#[derive(Debug)]
pub struct DeltilleSlot {
    pub deltille_option_ids: HashSet<usize>,
    pub position: GridPosition,
    pub orientation: VerticalOrientation,
    pub connections: [DeltilleConnection; SOCKET_COUNT],
}

impl View for DeltilleSlot {
    type V = DeltilleSlotView;

    open spec fn view(&self) -> DeltilleSlotView {
        DeltilleSlotView {
            options: self.deltille_option_ids@,
            x: self.position.x as int,
            y: self.position.y as int,
            orientation: self.orientation,
            links: Seq::new(3, |side: int| self.connections[side]@),
        }
    }
}

impl Clone for DeltilleSlot {
    fn clone(&self) -> (copy: Self)
        ensures
            copy@ == self@,
    {
        let copy = DeltilleSlot {
            deltille_option_ids: copy_option_ids(&self.deltille_option_ids),
            position: self.position,
            orientation: self.orientation,
            connections: self.connections,
        };
        assert(copy@.links =~= self@.links);
        copy
    }
}

/// What an icoface holds, as plain values.
pub struct IcoFaceView {
    pub orientation: VerticalOrientation,
    pub x: int,
    pub y: int,
    pub slots: Seq<DeltilleSlotView>,
    pub links: Seq<FaceLink>,
}

/// One of the twenty faces, with its deltille slots.
#[derive(Clone, Debug)]
pub struct IcoFace {
    pub orientation: VerticalOrientation,
    pub position: GridPosition,
    pub deltille_slots: Vec<DeltilleSlot>,
    pub icoface_connections: [IcoFaceConnection; SOCKET_COUNT],
}

impl View for IcoFace {
    type V = IcoFaceView;

    open spec fn view(&self) -> IcoFaceView {
        IcoFaceView {
            orientation: self.orientation,
            x: self.position.x as int,
            y: self.position.y as int,
            slots: Seq::new(self.deltille_slots@.len(), |index: int| self.deltille_slots@[index]@),
            links: Seq::new(3, |side: int| self.icoface_connections[side]@),
        }
    }
}

/// A copy of a set of options.
pub fn copy_option_ids(option_ids: &HashSet<usize>) -> (copy: HashSet<usize>)
    ensures
        copy@ == option_ids@,
{
    let mut copy: HashSet<usize> = HashSet::new();
    let ghost listed = option_ids.iter().remaining().unref();
    for id in ids: option_ids.iter()
        invariant
            ids.seq().unref() == listed,
            listed.to_set() == option_ids@,
            forall|other: usize|
                copy@.contains(other) <==> exists|at: int|
                    0 <= at < ids.index() && listed[at] == other,
    {
        assert(listed[ids.index() as int] == *id);
        copy.insert(*id);
    }
    assert forall|other: usize| copy@.contains(other) <==> option_ids@.contains(other) by {
        if option_ids@.contains(other) {
            assert(listed.contains(other));
        }
    }
    assert(copy@ =~= option_ids@);
    copy
}

/// How many deltilles of a place's own orientation its row holds.
pub open spec fn count_in_row(face: VerticalOrientation, width: int, place: DeltillePlace) -> int {
    match (face, place.orientation) {
        (VerticalOrientation::Up, VerticalOrientation::Down) => place.row,
        (VerticalOrientation::Up, VerticalOrientation::Up) => place.row + 1,
        (VerticalOrientation::Down, VerticalOrientation::Down) => width - place.row,
        (VerticalOrientation::Down, VerticalOrientation::Up) => width - place.row - 1,
    }
}

/// Horizontal centre of the first of `row_size` deltilles that lie side by
/// side, centred as a group on `origin_x`.
pub open spec fn row_reset_x(origin_x: int, row_size: int) -> int {
    origin_x + DELTILLE_GRID_WIDTH_HALF - DELTILLE_GRID_WIDTH_HALF * row_size
}

/// Horizontal centre of the deltille at a place of a face centred on `origin_x`.
pub open spec fn deltille_x(
    face: VerticalOrientation,
    width: int,
    origin_x: int,
    place: DeltillePlace,
) -> int {
    row_reset_x(origin_x, count_in_row(face, width, place)) + DELTILLE_GRID_WIDTH * place.column
}

/// Vertical centre of the deltilles of a row of a face centred on `origin_y`.
pub open spec fn deltille_y(width: int, origin_y: int, row: int) -> int {
    origin_y + width * DELTILLE_GRID_HEIGHT_HALF - DELTILLE_GRID_HEIGHT_HALF - DELTILLE_GRID_HEIGHT
        * row
}

/// What lies across the given side of the deltille at a place. Inside the
/// face it is the neighbour in the grid. On the edge of the face it is the
/// deltille at the same position along the edge of the face across, which
/// the face's own link for that side names.
pub open spec fn deltille_link(
    width: int,
    face: VerticalOrientation,
    links: Seq<FaceLink>,
    this_face: int,
    place: DeltillePlace,
    side: int,
) -> DeltilleLink {
    if is_exposed(face, width, place, side) {
        DeltilleLink {
            face: links[side].face,
            deltille: exposed_index(width, edge_position(face, place, side), links[side].socket),
            socket: links[side].socket,
        }
    } else {
        DeltilleLink {
            face: this_face,
            deltille: index_of(face, width, interior_neighbour(face, place, side)),
            socket: facing(socket_of(place.orientation, side)),
        }
    }
}

/// The slot with the given index in a face.
pub open spec fn deltille_slot(
    width: int,
    face: VerticalOrientation,
    origin_x: int,
    origin_y: int,
    options: Seq<Set<usize>>,
    links: Seq<FaceLink>,
    this_face: int,
    index: int,
) -> DeltilleSlotView {
    let place = place_at(face, width, index);
    DeltilleSlotView {
        options: options[place.orientation.spec_index()],
        x: deltille_x(face, width, origin_x, place),
        y: deltille_y(width, origin_y, place.row),
        orientation: place.orientation,
        links: Seq::new(3, |side: int| deltille_link(width, face, links, this_face, place, side)),
    }
}

/// The slots of a face, in the order of their indices.
pub open spec fn face_slots(
    width: int,
    face: VerticalOrientation,
    origin_x: int,
    origin_y: int,
    options: Seq<Set<usize>>,
    links: Seq<FaceLink>,
    this_face: int,
) -> Seq<DeltilleSlotView> {
    Seq::new(
        (width * width) as nat,
        |index: int| deltille_slot(width, face, origin_x, origin_y, options, links, this_face, index),
    )
}

/// The two sets of starting options, one per orientation, as plain values.
pub open spec fn options_view(options: &[HashSet<usize>; VERTICAL_ORIENTATION_COUNT]) -> Seq<
    Set<usize>,
> {
    Seq::new(2, |orientation: int| options[orientation]@)
}

/// The three links of a face, as plain values.
pub open spec fn connections_view(connections: [IcoFaceConnection; SOCKET_COUNT]) -> Seq<FaceLink> {
    Seq::new(3, |side: int| connections[side]@)
}

/// A width whose square is a count of deltilles is small enough for every
/// pixel distance inside a face.
pub proof fn lemma_width_in_reach(width: int)
    requires
        0 <= width,
        width * width <= usize::MAX,
    ensures
        width <= 0xFFFF_FFFF,
{
    if width > 0xFFFF_FFFF {
        lemma_square_monotonic(0x1_0000_0000, width);
        assert(0x1_0000_0000int * 0x1_0000_0000int > usize::MAX) by (nonlinear_arith);
    }
}

/// How far the index of the neighbour inside the face is from a deltille's own.
pub open spec fn interior_offset(
    face: VerticalOrientation,
    width: int,
    place: DeltillePlace,
    side: int,
) -> int {
    let size = match face {
        VerticalOrientation::Up => place.row,
        VerticalOrientation::Down => width - place.row,
    };
    match (face, place.orientation) {
        (VerticalOrientation::Up, VerticalOrientation::Down) => if side == 0 {
            -size
        } else if side == 1 {
            size + 1
        } else {
            size
        },
        (VerticalOrientation::Up, VerticalOrientation::Up) => if side == 0 {
            -size
        } else if side == 1 {
            size + 1
        } else {
            -size - 1
        },
        (VerticalOrientation::Down, VerticalOrientation::Down) => if side == 0 {
            -size
        } else if side == 1 {
            size
        } else {
            size - 1
        },
        (VerticalOrientation::Down, VerticalOrientation::Up) => if side == 0 {
            1 - size
        } else if side == 1 {
            size - 1
        } else {
            -size
        },
    }
}

/// The neighbour inside the face lies `interior_offset` from the deltille.
pub proof fn lemma_interior_offset(
    face: VerticalOrientation,
    width: int,
    place: DeltillePlace,
    side: int,
)
    requires
        valid_place(face, width, place),
        0 <= side < 3,
        !is_exposed(face, width, place, side),
    ensures
        index_of(face, width, interior_neighbour(face, place, side)) == index_of(face, width, place)
            + interior_offset(face, width, place, side),
        0 <= index_of(face, width, place) + interior_offset(face, width, place, side) < width
            * width,
{
    lemma_interior_neighbour_symmetric(face, width, place, side);
    lemma_place_of_index(face, width, interior_neighbour(face, place, side));
    let size = width - place.row;
    lemma_square_successor(place.row);
    lemma_square_successor(place.row - 1);
    lemma_square_successor(size);
    lemma_square_successor(size - 1);
}

impl IcoFace {
    /// Builds a face with its slots. `this_icoface_index` is the face's own
    /// place among the faces, which its slots name in their links to each other.
    pub fn new(
        width: usize,
        vertical_orientation: VerticalOrientation,
        position: GridPosition,
        options: &[HashSet<usize>; VERTICAL_ORIENTATION_COUNT],
        icoface_connections: [IcoFaceConnection; SOCKET_COUNT],
        this_icoface_index: usize,
    ) -> (icoface: IcoFace)
        requires
            width * width <= usize::MAX,
            position.in_reach(),
        ensures
            icoface@ == (IcoFaceView {
                orientation: vertical_orientation,
                x: position.x as int,
                y: position.y as int,
                slots: face_slots(
                    width as int,
                    vertical_orientation,
                    position.x as int,
                    position.y as int,
                    options_view(options),
                    connections_view(icoface_connections),
                    this_icoface_index as int,
                ),
                links: connections_view(icoface_connections),
            }),
    {
        let deltille_slots = Self::generate_deltille_slots(
            width,
            position,
            vertical_orientation,
            options,
            icoface_connections,
            this_icoface_index,
        );
        let icoface = IcoFace {
            orientation: vertical_orientation,
            position,
            deltille_slots,
            icoface_connections,
        };
        assert(icoface@.slots =~= face_slots(
            width as int,
            vertical_orientation,
            position.x as int,
            position.y as int,
            options_view(options),
            connections_view(icoface_connections),
            this_icoface_index as int,
        ));
        assert(icoface@.links =~= connections_view(icoface_connections));
        icoface
    }

    /// Builds the slots of a face row by row, from the top. An upward face
    /// grows from its tip: each row holds the downward deltilles between the
    /// upward ones, then the upward ones. A downward face shrinks towards
    /// its tip: each row holds its downward deltilles, then the upward ones
    /// between them.
    pub fn generate_deltille_slots(
        width: usize,
        icoface_position: GridPosition,
        vertical_orientation: VerticalOrientation,
        options: &[HashSet<usize>; VERTICAL_ORIENTATION_COUNT],
        icoface_connections: [IcoFaceConnection; SOCKET_COUNT],
        this_icoface_index: usize,
    ) -> (slots: Vec<DeltilleSlot>)
        requires
            width * width <= usize::MAX,
            icoface_position.in_reach(),
        ensures
            slots@.len() == width * width,
            forall|index: int|
                0 <= index < width * width ==> (#[trigger] slots@[index])@ == deltille_slot(
                    width as int,
                    vertical_orientation,
                    icoface_position.x as int,
                    icoface_position.y as int,
                    options_view(options),
                    connections_view(icoface_connections),
                    this_icoface_index as int,
                    index,
                ),
    {
        let mut slots: Vec<DeltilleSlot> = Vec::new();
        let mut row: usize = 0;
        let mut deltille_index: usize = 0;
        let mut row_size: usize;

        match vertical_orientation {
            // build deltilles for "up" icoface
            VerticalOrientation::Up => {
                row_size = 0;
                while row < width
                    invariant
                        width * width <= usize::MAX,
                        icoface_position.in_reach(),
                        vertical_orientation == VerticalOrientation::Up,
                        row <= width,
                        row_size == row,
                        deltille_index == row * row,
                        slots@.len() == deltille_index,
                        forall|index: int|
                            0 <= index < deltille_index ==> (#[trigger] slots@[index])@
                                == deltille_slot(
                                width as int,
                                vertical_orientation,
                                icoface_position.x as int,
                                icoface_position.y as int,
                                options_view(options),
                                connections_view(icoface_connections),
                                this_icoface_index as int,
                                index,
                            ),
                    decreases width - row,
                {
                    // build inside "down" deltille slots
                    let mut column: usize = 0;
                    while column < row_size
                        invariant
                            width * width <= usize::MAX,
                            icoface_position.in_reach(),
                            vertical_orientation == VerticalOrientation::Up,
                            row < width,
                            row_size == row,
                            column <= row_size,
                            deltille_index == row * row + column,
                            slots@.len() == deltille_index,
                            forall|index: int|
                                0 <= index < deltille_index ==> (#[trigger] slots@[index])@
                                    == deltille_slot(
                                    width as int,
                                    vertical_orientation,
                                    icoface_position.x as int,
                                    icoface_position.y as int,
                                    options_view(options),
                                    connections_view(icoface_connections),
                                    this_icoface_index as int,
                                    index,
                                ),
                        decreases row_size - column,
                    {
                        let slot = Self::deltille_slot_at(
                            width,
                            icoface_position,
                            vertical_orientation,
                            options,
                            icoface_connections,
                            this_icoface_index,
                            row,
                            column,
                            VerticalOrientation::Down,
                            deltille_index,
                        );
                        slots.push(slot);
                        column += 1;
                        deltille_index += 1;
                    }

                    row_size += 1;

                    // build outside "up" deltille slots
                    column = 0;
                    while column < row_size
                        invariant
                            width * width <= usize::MAX,
                            icoface_position.in_reach(),
                            vertical_orientation == VerticalOrientation::Up,
                            row < width,
                            row_size == row + 1,
                            column <= row_size,
                            deltille_index == row * row + row + column,
                            slots@.len() == deltille_index,
                            forall|index: int|
                                0 <= index < deltille_index ==> (#[trigger] slots@[index])@
                                    == deltille_slot(
                                    width as int,
                                    vertical_orientation,
                                    icoface_position.x as int,
                                    icoface_position.y as int,
                                    options_view(options),
                                    connections_view(icoface_connections),
                                    this_icoface_index as int,
                                    index,
                                ),
                        decreases row_size - column,
                    {
                        let slot = Self::deltille_slot_at(
                            width,
                            icoface_position,
                            vertical_orientation,
                            options,
                            icoface_connections,
                            this_icoface_index,
                            row,
                            column,
                            VerticalOrientation::Up,
                            deltille_index,
                        );
                        slots.push(slot);
                        column += 1;
                        deltille_index += 1;
                    }

                    proof {
                        lemma_square_successor(row as int);
                    }
                    row += 1;
                }
            },
            // build deltilles for "down" icoface
            VerticalOrientation::Down => {
                row_size = width;
                proof {
                    assert(width * width - (width - 0) * (width - 0) == 0) by (nonlinear_arith);
                }
                while row < width
                    invariant
                        width * width <= usize::MAX,
                        icoface_position.in_reach(),
                        vertical_orientation == VerticalOrientation::Down,
                        row <= width,
                        row_size == width - row,
                        deltille_index == width * width - row_size * row_size,
                        slots@.len() == deltille_index,
                        forall|index: int|
                            0 <= index < deltille_index ==> (#[trigger] slots@[index])@
                                == deltille_slot(
                                width as int,
                                vertical_orientation,
                                icoface_position.x as int,
                                icoface_position.y as int,
                                options_view(options),
                                connections_view(icoface_connections),
                                this_icoface_index as int,
                                index,
                            ),
                    decreases width - row,
                {
                    // build outside "down" deltille slots
                    let mut column: usize = 0;
                    while column < row_size
                        invariant
                            width * width <= usize::MAX,
                            icoface_position.in_reach(),
                            vertical_orientation == VerticalOrientation::Down,
                            row < width,
                            row_size == width - row,
                            column <= row_size,
                            deltille_index == width * width - row_size * row_size + column,
                            slots@.len() == deltille_index,
                            forall|index: int|
                                0 <= index < deltille_index ==> (#[trigger] slots@[index])@
                                    == deltille_slot(
                                    width as int,
                                    vertical_orientation,
                                    icoface_position.x as int,
                                    icoface_position.y as int,
                                    options_view(options),
                                    connections_view(icoface_connections),
                                    this_icoface_index as int,
                                    index,
                                ),
                        decreases row_size - column,
                    {
                        let slot = Self::deltille_slot_at(
                            width,
                            icoface_position,
                            vertical_orientation,
                            options,
                            icoface_connections,
                            this_icoface_index,
                            row,
                            column,
                            VerticalOrientation::Down,
                            deltille_index,
                        );
                        slots.push(slot);
                        column += 1;
                        deltille_index += 1;
                    }

                    row_size -= 1;

                    // build inside "up" deltille slots
                    column = 0;
                    while column < row_size
                        invariant
                            width * width <= usize::MAX,
                            icoface_position.in_reach(),
                            vertical_orientation == VerticalOrientation::Down,
                            row < width,
                            row_size == width - row - 1,
                            column <= row_size,
                            deltille_index == width * width - (row_size + 1) * (row_size + 1)
                                + row_size + 1 + column,
                            slots@.len() == deltille_index,
                            forall|index: int|
                                0 <= index < deltille_index ==> (#[trigger] slots@[index])@
                                    == deltille_slot(
                                    width as int,
                                    vertical_orientation,
                                    icoface_position.x as int,
                                    icoface_position.y as int,
                                    options_view(options),
                                    connections_view(icoface_connections),
                                    this_icoface_index as int,
                                    index,
                                ),
                        decreases row_size - column,
                    {
                        let slot = Self::deltille_slot_at(
                            width,
                            icoface_position,
                            vertical_orientation,
                            options,
                            icoface_connections,
                            this_icoface_index,
                            row,
                            column,
                            VerticalOrientation::Up,
                            deltille_index,
                        );
                        slots.push(slot);
                        column += 1;
                        deltille_index += 1;
                    }

                    proof {
                        lemma_square_successor(row_size as int);
                    }
                    row += 1;
                }
                proof {
                    assert(row_size * row_size == 0) by (nonlinear_arith)
                        requires
                            row_size == 0,
                    ;
                }
            },
        };
        slots
    }

    /// Builds the slot at one place of a face.
    fn deltille_slot_at(
        width: usize,
        icoface_position: GridPosition,
        vertical_orientation: VerticalOrientation,
        options: &[HashSet<usize>; VERTICAL_ORIENTATION_COUNT],
        icoface_connections: [IcoFaceConnection; SOCKET_COUNT],
        this_icoface_index: usize,
        row: usize,
        column: usize,
        orientation: VerticalOrientation,
        deltille_index: usize,
    ) -> (slot: DeltilleSlot)
        requires
            width * width <= usize::MAX,
            icoface_position.in_reach(),
            valid_place(
                vertical_orientation,
                width as int,
                DeltillePlace { row: row as int, column: column as int, orientation },
            ),
            deltille_index == index_of(
                vertical_orientation,
                width as int,
                DeltillePlace { row: row as int, column: column as int, orientation },
            ),
        ensures
            slot@ == deltille_slot(
                width as int,
                vertical_orientation,
                icoface_position.x as int,
                icoface_position.y as int,
                options_view(options),
                connections_view(icoface_connections),
                this_icoface_index as int,
                deltille_index as int,
            ),
            deltille_index < width * width,
    {
        let ghost place = DeltillePlace { row: row as int, column: column as int, orientation };
        let ghost links = connections_view(icoface_connections);
        proof {
            lemma_place_of_index(vertical_orientation, width as int, place);
            lemma_width_in_reach(width as int);
        }
        let deltille_option_ids = copy_option_ids(&options[orientation.index()]);

        let first = Self::connection_at(
            width,
            vertical_orientation,
            icoface_connections,
            this_icoface_index,
            row,
            column,
            orientation,
            deltille_index,
            0,
        );
        let second = Self::connection_at(
            width,
            vertical_orientation,
            icoface_connections,
            this_icoface_index,
            row,
            column,
            orientation,
            deltille_index,
            1,
        );
        let third = Self::connection_at(
            width,
            vertical_orientation,
            icoface_connections,
            this_icoface_index,
            row,
            column,
            orientation,
            deltille_index,
            2,
        );
        let row_size = match (vertical_orientation, orientation) {
            (VerticalOrientation::Up, VerticalOrientation::Down) => row,
            (VerticalOrientation::Up, VerticalOrientation::Up) => row + 1,
            (VerticalOrientation::Down, VerticalOrientation::Down) => width - row,
            (VerticalOrientation::Down, VerticalOrientation::Up) => width - row - 1,
        };
        assert(DELTILLE_GRID_WIDTH == 16 && DELTILLE_GRID_HEIGHT == 14 && DELTILLE_GRID_HEIGHT_HALF
            == 7);
        let deltille_grid_width = DELTILLE_GRID_WIDTH as i64;
        let deltille_grid_height = DELTILLE_GRID_HEIGHT as i64;
        let deltille_grid_height_half = DELTILLE_GRID_HEIGHT_HALF as i64;
        let x = Self::row_reset_position_x(icoface_position.x, row_size) + deltille_grid_width * (
        column as i64);
        let y = icoface_position.y + (width as i64) * deltille_grid_height_half
            - deltille_grid_height_half - deltille_grid_height * (row as i64);
        let slot = DeltilleSlot {
            deltille_option_ids,
            position: GridPosition { x, y },
            orientation,
            connections: [first, second, third],
        };
        assert(slot@.links =~= Seq::new(
            3,
            |side: int|
                deltille_link(
                    width as int,
                    vertical_orientation,
                    links,
                    this_icoface_index as int,
                    place,
                    side,
                ),
        ));
        slot
    }

    /// The link across one side of the deltille at a place of a face.
    fn connection_at(
        width: usize,
        vertical_orientation: VerticalOrientation,
        icoface_connections: [IcoFaceConnection; SOCKET_COUNT],
        this_icoface_index: usize,
        row: usize,
        column: usize,
        orientation: VerticalOrientation,
        deltille_index: usize,
        side: usize,
    ) -> (connection: DeltilleConnection)
        requires
            width * width <= usize::MAX,
            side < 3,
            valid_place(
                vertical_orientation,
                width as int,
                DeltillePlace { row: row as int, column: column as int, orientation },
            ),
            deltille_index == index_of(
                vertical_orientation,
                width as int,
                DeltillePlace { row: row as int, column: column as int, orientation },
            ),
        ensures
            connection@ == deltille_link(
                width as int,
                vertical_orientation,
                connections_view(icoface_connections),
                this_icoface_index as int,
                DeltillePlace { row: row as int, column: column as int, orientation },
                side as int,
            ),
    {
        let ghost place = DeltillePlace { row: row as int, column: column as int, orientation };
        // a deltille can only lie on the edge of its icoface if it points as the icoface does
        let exposed = orientation == vertical_orientation && match vertical_orientation {
            VerticalOrientation::Up => if side == 0 {
                column == row
            } else if side == 1 {
                row == width - 1
            } else {
                column == 0
            },
            VerticalOrientation::Down => if side == 0 {
                row == 0
            } else if side == 1 {
                column == width - row - 1
            } else {
                column == 0
            },
        };
        assert(exposed == is_exposed(vertical_orientation, width as int, place, side as int));
        if exposed {
            // if exposed to icoface edge, connect to adjacent icoface
            let position = match vertical_orientation {
                VerticalOrientation::Up => if side == 1 {
                    column
                } else {
                    row
                },
                VerticalOrientation::Down => if side == 0 {
                    column
                } else {
                    row
                },
            };
            Self::exposed_connection(width, icoface_connections[side], position)
        } else {
            // connect to a deltille in the same icoface
            proof {
                lemma_interior_offset(vertical_orientation, width as int, place, side as int);
                lemma_place_of_index(vertical_orientation, width as int, place);
            }
            let row_size = match vertical_orientation {
                VerticalOrientation::Up => row,
                VerticalOrientation::Down => width - row,
            };
            let target_deltille_id = match (vertical_orientation, orientation) {
                (VerticalOrientation::Up, VerticalOrientation::Down) => if side == 0 {
                    deltille_index - row_size
                } else if side == 1 {
                    deltille_index + row_size + 1
                } else {
                    deltille_index + row_size
                },
                (VerticalOrientation::Up, VerticalOrientation::Up) => if side == 0 {
                    deltille_index - row_size
                } else if side == 1 {
                    deltille_index + row_size + 1
                } else {
                    deltille_index - row_size - 1
                },
                (VerticalOrientation::Down, VerticalOrientation::Down) => if side == 0 {
                    deltille_index - row_size
                } else if side == 1 {
                    deltille_index + row_size
                } else {
                    deltille_index + row_size - 1
                },
                (VerticalOrientation::Down, VerticalOrientation::Up) => if side == 0 {
                    deltille_index + 1 - row_size
                } else if side == 1 {
                    deltille_index + row_size - 1
                } else {
                    deltille_index - row_size
                },
            };
            let target_socket = match orientation {
                VerticalOrientation::Up => if side == 0 {
                    DeltilleFaceSocket::SW
                } else if side == 1 {
                    DeltilleFaceSocket::N
                } else {
                    DeltilleFaceSocket::SE
                },
                VerticalOrientation::Down => if side == 0 {
                    DeltilleFaceSocket::S
                } else if side == 1 {
                    DeltilleFaceSocket::NW
                } else {
                    DeltilleFaceSocket::NE
                },
            };
            Self::interior_connection(target_socket, this_icoface_index, target_deltille_id)
        }
    }

    /// A link to a deltille of the same icoface.
    fn interior_connection(
        target_socket: DeltilleFaceSocket,
        icoface_id: usize,
        deltille_id: usize,
    ) -> (connection: DeltilleConnection)
        ensures
            connection@ == (DeltilleLink {
                face: icoface_id as int,
                deltille: deltille_id as int,
                socket: target_socket,
            }),
    {
        DeltilleConnection {
            target_socket,
            target_deltille_coordinates: DeltilleSlotId { icoface_id, deltille_id },
        }
    }

    /// A link across the edge of the icoface, to the deltille at the same
    /// position along the edge of the adjacent icoface.
    fn exposed_connection(
        width: usize,
        icoface_connection: IcoFaceConnection,
        position: usize,
    ) -> (connection: DeltilleConnection)
        requires
            width * width <= usize::MAX,
            position < width,
        ensures
            connection@ == (DeltilleLink {
                face: icoface_connection.target_icoface_id as int,
                deltille: exposed_index(
                    width as int,
                    position as int,
                    icoface_connection.target_socket,
                ),
                socket: icoface_connection.target_socket,
            }),
    {
        let target_socket = icoface_connection.target_socket;
        let target_icoface_id = icoface_connection.target_icoface_id;
        let target_deltille_id = Self::exposed_deltille_id(width, position, target_socket);
        DeltilleConnection {
            target_socket,
            target_deltille_coordinates: DeltilleSlotId {
                icoface_id: target_icoface_id,
                deltille_id: target_deltille_id,
            },
        }
    }

    /// Horizontal centre of the first of `row_size` deltilles that lie side
    /// by side, centred as a group on `icoface_origin_x`.
    pub fn row_reset_position_x(icoface_origin_x: i64, row_size: usize) -> (x: i64)
        requires
            -GRID_POSITION_LIMIT <= icoface_origin_x <= GRID_POSITION_LIMIT,
            row_size <= 0x1_0000_0000,
        ensures
            x == row_reset_x(icoface_origin_x as int, row_size as int),
    {
        assert(DELTILLE_GRID_WIDTH_HALF == 8);
        let deltille_grid_width_half = DELTILLE_GRID_WIDTH_HALF as i64;
        icoface_origin_x + deltille_grid_width_half - deltille_grid_width_half * (row_size as i64)
    }

    /// Returns the index, within an icoface of the given width, of the
    /// deltille that is exposed on one of its edges.
    ///
    /// # Arguments
    ///
    /// * `position` - the 0-based index of the deltille with respect to its icoface edge,
    /// top to bottom and left to right
    ///
    /// * `orientation` - the orientation of the icoface edge
    pub fn exposed_deltille_id(width: usize, position: usize, orientation: DeltilleFaceSocket) -> (id:
        usize)
        requires
            width * width <= usize::MAX,
            position < width,
        ensures
            id == exposed_index(width as int, position as int, orientation),
            id < width * width,
    {
        proof {
            lemma_exposed_index_place(width as int, position as int, orientation);
            lemma_square_monotonic(position as int + 1, width as int);
            lemma_square_monotonic(width as int - position as int, width as int);
            assert(0 <= (width - position - 1) * (width - position) <= (width - position) * (width
                - position)) by (nonlinear_arith)
                requires
                    0 <= position < width,
            ;
            assert(0 <= position * (position + 1) <= (position + 1) * (position + 1))
                by (nonlinear_arith)
                requires
                    0 <= position,
            ;
        }
        let count = width * width;
        match orientation {
            DeltilleFaceSocket::N => position,
            DeltilleFaceSocket::NE => (position + 1) * (position + 1) - 1,
            DeltilleFaceSocket::SE => count - 1 - (width - position - 1) * (width - position),
            DeltilleFaceSocket::S => count - (width - position),
            DeltilleFaceSocket::SW => count - (width - position) * (width - position),
            DeltilleFaceSocket::NW => position * (position + 1),
        }
    }
}

/// How far right of the first face of its row a face lies.
pub open spec fn face_offset(column: int, face_width: int) -> int {
    column * face_width
}

/// Each face lies one face width right of the face before it.
pub proof fn lemma_face_step(column: int, face_width: int)
    requires
        0 <= column < 5,
        0 <= face_width,
    ensures
        face_offset(0, face_width) == 0,
        face_offset(column + 1, face_width) == face_offset(column, face_width) + face_width,
        0 <= face_offset(column, face_width) <= 4 * face_width,
{
    assert(0 * face_width == 0);
    assert((column + 1) * face_width == column * face_width + face_width) by (nonlinear_arith);
    assert(0 <= column * face_width <= 4 * face_width) by (nonlinear_arith)
        requires
            0 <= column < 5,
            0 <= face_width,
    ;
}

/// The geodesic grid: the twenty faces of the icosahedron, in the order of the net.
///
/// ```text
/// /\  /\  /\  /\  /\
/// \/  \/  \/  \/  \/
///   /\  /\  /\  /\  /\
///   \/  \/  \/  \/  \/
/// ```
#[derive(Clone, Debug)]
pub struct Icosahedron {
    pub icofaces: [IcoFace; ICOFACE_COUNT],
}

impl View for Icosahedron {
    type V = Seq<IcoFaceView>;

    open spec fn view(&self) -> Seq<IcoFaceView> {
        Seq::new(self.icofaces@.len(), |face: int| self.icofaces@[face]@)
    }
}

impl Icosahedron {
    /// Whether every link of the grid names a slot that exists and that
    /// names the first slot back.
    pub open spec fn wf(&self) -> bool {
        well_formed(self@)
    }

    /// Builds the grid whose faces are `width` deltilles wide. Every slot
    /// lists the options given for its orientation: `options[0]` for upward
    /// slots, `options[1]` for downward ones.
    pub fn new(width: usize, options: &[HashSet<usize>; VERTICAL_ORIENTATION_COUNT]) -> (result: Result<
        Icosahedron,
        ConstructionError,
    >)
        requires
            width * width <= usize::MAX,
        ensures
            width == 0 ==> result == Err::<Icosahedron, ConstructionError>(
                ConstructionError::InvalidSubdivisionWidth,
            ),
            width > 0 ==> result is Ok,
            result is Ok ==> result->Ok_0@ == geodesic_grid(width as int, options_view(options)),
            result is Ok ==> result->Ok_0.wf(),
    {
        if width == 0 {
            return Err(ConstructionError::InvalidSubdivisionWidth);
        }
        proof {
            lemma_width_in_reach(width as int);
        }
        assert(DELTILLE_GRID_WIDTH == 16 && DELTILLE_GRID_HEIGHT == 14);
        let icoface_grid_width: i64 = (DELTILLE_GRID_WIDTH as i64) * (width as i64);
        let icoface_grid_height: i64 = (DELTILLE_GRID_HEIGHT as i64) * (width as i64);
        let mut icofaces: Vec<IcoFace> = Vec::new();
        let mut icoface_index: usize = 0;

        proof {
            lemma_face_step(0, icoface_grid_width as int);
        }
        // top row
        let mut position = GridPosition { x: icoface_grid_width / 2, y: 5 * icoface_grid_height / 2 };
        while icoface_index < 5
            invariant
                0 < width <= 0xFFFF_FFFF,
                width * width <= usize::MAX,
                icoface_grid_width == 16 * width,
                icoface_grid_height == 14 * width,
                icoface_index <= 5,
                icofaces@.len() == icoface_index,
                position.x == icoface_grid_width / 2 + face_offset(
                    icoface_index as int,
                    icoface_grid_width as int,
                ),
                position.y == 5 * icoface_grid_height / 2,
                forall|face: int|
                    0 <= face < icoface_index ==> (#[trigger] icofaces@[face])@ == geodesic_face(
                        width as int,
                        options_view(options),
                        face,
                    ),
            decreases 5 - icoface_index,
        {
            proof {
                lemma_face_step(icoface_index as int % 5, icoface_grid_width as int);
            }
            let icoface_connections = [
                // NE
                IcoFaceConnection {
                    target_socket: DeltilleFaceSocket::NW,
                    target_icoface_id: (icoface_index + 1) % 5,
                },
                // S
                IcoFaceConnection {
                    target_socket: DeltilleFaceSocket::N,
                    target_icoface_id: icoface_index + 5,
                },
                // NW
                IcoFaceConnection {
                    target_socket: DeltilleFaceSocket::NE,
                    // +4 is like -1 but avoids a subtract overflow in the usize
                    target_icoface_id: (icoface_index + 4) % 5,
                },
            ];
            assert(connections_view(icoface_connections) =~= face_links(icoface_index as int));
            icofaces.push(
                IcoFace::new(
                    width,
                    VerticalOrientation::Up,
                    position,
                    options,
                    icoface_connections,
                    icoface_index,
                ),
            );
            icoface_index += 1;
            position.x += icoface_grid_width;
        }

        // second row "down" icofaces
        position.x = icoface_grid_width / 2;
        position.y = 3 * icoface_grid_height / 2;
        while icoface_index < 10
            invariant
                0 < width <= 0xFFFF_FFFF,
                width * width <= usize::MAX,
                icoface_grid_width == 16 * width,
                icoface_grid_height == 14 * width,
                5 <= icoface_index <= 10,
                icofaces@.len() == icoface_index,
                position.x == icoface_grid_width / 2 + face_offset(
                    icoface_index - 5,
                    icoface_grid_width as int,
                ),
                position.y == 3 * icoface_grid_height / 2,
                forall|face: int|
                    0 <= face < icoface_index ==> (#[trigger] icofaces@[face])@ == geodesic_face(
                        width as int,
                        options_view(options),
                        face,
                    ),
            decreases 10 - icoface_index,
        {
            proof {
                lemma_face_step(icoface_index as int % 5, icoface_grid_width as int);
            }
            let icoface_connections = [
                // N
                IcoFaceConnection {
                    target_socket: DeltilleFaceSocket::S,
                    target_icoface_id: icoface_index - 5,
                },
                // SE
                IcoFaceConnection {
                    target_socket: DeltilleFaceSocket::NW,
                    target_icoface_id: 10 + (icoface_index % 5),
                },
                // SW
                IcoFaceConnection {
                    target_socket: DeltilleFaceSocket::NE,
                    target_icoface_id: 10 + ((icoface_index - 1) % 5),
                },
            ];
            assert(connections_view(icoface_connections) =~= face_links(icoface_index as int));
            icofaces.push(
                IcoFace::new(
                    width,
                    VerticalOrientation::Down,
                    position,
                    options,
                    icoface_connections,
                    icoface_index,
                ),
            );
            icoface_index += 1;
            position.x += icoface_grid_width;
        }

        // second row "up" icofaces
        position.x = icoface_grid_width;
        while icoface_index < 15
            invariant
                0 < width <= 0xFFFF_FFFF,
                width * width <= usize::MAX,
                icoface_grid_width == 16 * width,
                icoface_grid_height == 14 * width,
                10 <= icoface_index <= 15,
                icofaces@.len() == icoface_index,
                position.x == icoface_grid_width + face_offset(
                    icoface_index - 10,
                    icoface_grid_width as int,
                ),
                position.y == 3 * icoface_grid_height / 2,
                forall|face: int|
                    0 <= face < icoface_index ==> (#[trigger] icofaces@[face])@ == geodesic_face(
                        width as int,
                        options_view(options),
                        face,
                    ),
            decreases 15 - icoface_index,
        {
            proof {
                lemma_face_step(icoface_index as int % 5, icoface_grid_width as int);
            }
            let icoface_connections = [
                // NE
                IcoFaceConnection {
                    target_socket: DeltilleFaceSocket::SW,
                    target_icoface_id: 5 + ((icoface_index + 1) % 5),
                },
                // S
                IcoFaceConnection {
                    target_socket: DeltilleFaceSocket::N,
                    target_icoface_id: icoface_index + 5,
                },
                // NW
                IcoFaceConnection {
                    target_socket: DeltilleFaceSocket::SE,
                    target_icoface_id: 5 + (icoface_index % 5),
                },
            ];
            assert(connections_view(icoface_connections) =~= face_links(icoface_index as int));
            icofaces.push(
                IcoFace::new(
                    width,
                    VerticalOrientation::Up,
                    position,
                    options,
                    icoface_connections,
                    icoface_index,
                ),
            );
            icoface_index += 1;
            position.x += icoface_grid_width;
        }

        // bottom row "down" icofaces
        position.x = icoface_grid_width;
        position.y = icoface_grid_height / 2;
        while icoface_index < 20
            invariant
                0 < width <= 0xFFFF_FFFF,
                width * width <= usize::MAX,
                icoface_grid_width == 16 * width,
                icoface_grid_height == 14 * width,
                15 <= icoface_index <= 20,
                icofaces@.len() == icoface_index,
                position.x == icoface_grid_width + face_offset(
                    icoface_index - 15,
                    icoface_grid_width as int,
                ),
                position.y == icoface_grid_height / 2,
                forall|face: int|
                    0 <= face < icoface_index ==> (#[trigger] icofaces@[face])@ == geodesic_face(
                        width as int,
                        options_view(options),
                        face,
                    ),
            decreases 20 - icoface_index,
        {
            proof {
                lemma_face_step(icoface_index as int % 5, icoface_grid_width as int);
            }
            let icoface_connections = [
                // N
                IcoFaceConnection {
                    target_socket: DeltilleFaceSocket::S,
                    target_icoface_id: icoface_index - 5,
                },
                // SE
                IcoFaceConnection {
                    target_socket: DeltilleFaceSocket::SW,
                    target_icoface_id: 15 + ((icoface_index + 1) % 5),
                },
                // SW
                IcoFaceConnection {
                    target_socket: DeltilleFaceSocket::SE,
                    target_icoface_id: 15 + ((icoface_index - 1) % 5),
                },
            ];
            assert(connections_view(icoface_connections) =~= face_links(icoface_index as int));
            icofaces.push(
                IcoFace::new(
                    width,
                    VerticalOrientation::Down,
                    position,
                    options,
                    icoface_connections,
                    icoface_index,
                ),
            );
            icoface_index += 1;
            position.x += icoface_grid_width;
        }

        let ghost built = icofaces@;
        let icosahedron = Icosahedron {
            icofaces: [
                icofaces.remove(0),
                icofaces.remove(0),
                icofaces.remove(0),
                icofaces.remove(0),
                icofaces.remove(0),
                icofaces.remove(0),
                icofaces.remove(0),
                icofaces.remove(0),
                icofaces.remove(0),
                icofaces.remove(0),
                icofaces.remove(0),
                icofaces.remove(0),
                icofaces.remove(0),
                icofaces.remove(0),
                icofaces.remove(0),
                icofaces.remove(0),
                icofaces.remove(0),
                icofaces.remove(0),
                icofaces.remove(0),
                icofaces.remove(0),
            ],
        };
        assert(icosahedron.icofaces@ =~= built);
        proof {
            assert(icosahedron@ =~= geodesic_grid(width as int, options_view(options)));
            lemma_geodesic_grid_well_formed(width as int, options_view(options));
        }
        Ok(icosahedron)
    }
}

impl Icosahedron {
    /// Whether the link of a face across one of its sides resolves.
    fn face_link_checks(&self, icoface_id: usize, side: usize) -> (resolves: bool)
        requires
            icoface_id < self.icofaces@.len(),
            side < 3,
        ensures
            resolves == face_link_resolves(self@, icoface_id as int, side as int),
    {
        let icoface = &self.icofaces[icoface_id];
        let connection = icoface.icoface_connections[side];
        if connection.target_icoface_id >= ICOFACE_COUNT {
            return false;
        }
        let target = &self.icofaces[connection.target_icoface_id];
        let back = target.icoface_connections[connection.target_socket.index()];
        socket_owner(connection.target_socket) == target.orientation && back.target_icoface_id
            == icoface_id && back.target_socket == socket_on_side(icoface.orientation, side)
    }

    /// Whether the link of a slot across one of its sides resolves.
    fn link_checks(&self, icoface_id: usize, deltille_id: usize, side: usize) -> (resolves: bool)
        requires
            icoface_id < self.icofaces@.len(),
            deltille_id < self.icofaces@[icoface_id as int].deltille_slots@.len(),
            side < 3,
        ensures
            resolves == link_resolves(self@, icoface_id as int, deltille_id as int, side as int),
    {
        let slot = &self.icofaces[icoface_id].deltille_slots[deltille_id];
        let connection = slot.connections[side];
        let coordinates = connection.target_deltille_coordinates;
        if coordinates.icoface_id >= ICOFACE_COUNT {
            return false;
        }
        let target_icoface = &self.icofaces[coordinates.icoface_id];
        if coordinates.deltille_id >= target_icoface.deltille_slots.len() {
            return false;
        }
        let target = &target_icoface.deltille_slots[coordinates.deltille_id];
        let back = target.connections[connection.target_socket.index()];
        socket_owner(connection.target_socket) == target.orientation
            && back.target_deltille_coordinates.icoface_id == icoface_id
            && back.target_deltille_coordinates.deltille_id == deltille_id && back.target_socket
            == socket_on_side(slot.orientation, side)
    }

    /// Checks that every link of the grid names a face or a slot that exists
    /// and that names the first one back.
    pub fn check_adjacency(&self) -> (result: Result<(), ConstructionError>)
        ensures
            result is Ok <==> self.wf(),
            result is Err ==> result == Err::<(), ConstructionError>(
                ConstructionError::MalformedAdjacency,
            ),
    {
        let ghost grid = self@;
        let count = self.icofaces[0].deltille_slots.len();
        let mut icoface_id: usize = 0;
        while icoface_id < 20
            invariant
                grid == self@,
                grid.len() == 20,
                icoface_id <= 20,
                count == grid[0].slots.len(),
                forall|face: int|
                    0 <= face < icoface_id ==> (#[trigger] grid[face]).slots.len() == count,
                forall|face: int, side: int|
                    0 <= face < icoface_id && 0 <= side < 3 ==> #[trigger] face_link_resolves(
                        grid,
                        face,
                        side,
                    ),
                forall|face: int, deltille: int, side: int|
                    0 <= face < icoface_id && 0 <= deltille < grid[face].slots.len() && 0 <= side
                        < 3 ==> #[trigger] link_resolves(grid, face, deltille, side),
            decreases 20 - icoface_id,
        {
            if self.icofaces[icoface_id].deltille_slots.len() != count {
                assert(grid[icoface_id as int].slots.len() != grid[0].slots.len());
                return Err(ConstructionError::MalformedAdjacency);
            }
            let mut side: usize = 0;
            while side < 3
                invariant
                    grid == self@,
                    grid.len() == 20,
                    icoface_id < 20,
                    side <= 3,
                    forall|done: int|
                        0 <= done < side ==> #[trigger] face_link_resolves(
                            grid,
                            icoface_id as int,
                            done,
                        ),
                decreases 3 - side,
            {
                if !self.face_link_checks(icoface_id, side) {
                    assert(!face_link_resolves(grid, icoface_id as int, side as int));
                    return Err(ConstructionError::MalformedAdjacency);
                }
                side += 1;
            }
            let mut deltille_id: usize = 0;
            while deltille_id < count
                invariant
                    grid == self@,
                    grid.len() == 20,
                    icoface_id < 20,
                    deltille_id <= count,
                    count == grid[icoface_id as int].slots.len(),
                    forall|deltille: int, side: int|
                        0 <= deltille < deltille_id && 0 <= side < 3 ==> #[trigger] link_resolves(
                            grid,
                            icoface_id as int,
                            deltille,
                            side,
                        ),
                decreases count - deltille_id,
            {
                let mut side: usize = 0;
                while side < 3
                    invariant
                        grid == self@,
                        grid.len() == 20,
                        icoface_id < 20,
                        deltille_id < count,
                        count == grid[icoface_id as int].slots.len(),
                        side <= 3,
                        forall|done: int|
                            0 <= done < side ==> #[trigger] link_resolves(
                                grid,
                                icoface_id as int,
                                deltille_id as int,
                                done,
                            ),
                    decreases 3 - side,
                {
                    if !self.link_checks(icoface_id, deltille_id, side) {
                        assert(!link_resolves(
                            grid,
                            icoface_id as int,
                            deltille_id as int,
                            side as int,
                        ));
                        return Err(ConstructionError::MalformedAdjacency);
                    }
                    side += 1;
                }
                deltille_id += 1;
            }
            icoface_id += 1;
        }
        Ok(())
    }
}

} // verus!
