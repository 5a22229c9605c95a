use std::array::from_fn;
use std::collections::HashSet;

use icosphere_wfc::config_constants::{ICOFACE_DELTILLE_COUNT, ICOFACE_DELTILLE_WIDTH};
use icosphere_wfc::icosahedron::{
    ConstructionError, DeltilleSlotId, GridPosition, IcoFace, IcoFaceConnection, Icosahedron,
};
use icosphere_wfc::sockets::{DeltilleFaceSocket, VerticalOrientation};

fn no_options() -> [HashSet<usize>; 2] {
    from_fn(|_| HashSet::new())
}

fn build(width: usize) -> Icosahedron {
    Icosahedron::new(width, &no_options()).unwrap()
}

/// The socket on each side of a triangle, clockwise from the top.
fn socket_on(orientation: VerticalOrientation, side: usize) -> DeltilleFaceSocket {
    match orientation {
        VerticalOrientation::Up => {
            [DeltilleFaceSocket::NE, DeltilleFaceSocket::S, DeltilleFaceSocket::NW][side]
        }
        VerticalOrientation::Down => {
            [DeltilleFaceSocket::N, DeltilleFaceSocket::SE, DeltilleFaceSocket::SW][side]
        }
    }
}

#[test]
fn generate_deltille_slots_works() {
    let position = GridPosition { x: 0, y: 0 };
    let result_up = IcoFace::generate_deltille_slots(
        ICOFACE_DELTILLE_WIDTH,
        position,
        VerticalOrientation::Up,
        &from_fn(|_| HashSet::new()),
        [
            IcoFaceConnection {
                target_socket: DeltilleFaceSocket::N,
                target_icoface_id: 0,
            },
            IcoFaceConnection {
                target_socket: DeltilleFaceSocket::N,
                target_icoface_id: 0,
            },
            IcoFaceConnection {
                target_socket: DeltilleFaceSocket::N,
                target_icoface_id: 0,
            },
        ],
        0,
    );
    assert_eq!(result_up.len(), ICOFACE_DELTILLE_COUNT);

    let result_down = IcoFace::generate_deltille_slots(
        ICOFACE_DELTILLE_WIDTH,
        position,
        VerticalOrientation::Down,
        &from_fn(|_| HashSet::new()),
        [
            IcoFaceConnection {
                target_socket: DeltilleFaceSocket::N,
                target_icoface_id: 0,
            },
            IcoFaceConnection {
                target_socket: DeltilleFaceSocket::N,
                target_icoface_id: 0,
            },
            IcoFaceConnection {
                target_socket: DeltilleFaceSocket::N,
                target_icoface_id: 0,
            },
        ],
        0,
    );
    assert_eq!(result_down.len(), ICOFACE_DELTILLE_COUNT);
}

#[test]
fn exposed_deltille_index_n() {
    let width = ICOFACE_DELTILLE_WIDTH;
    assert_eq!(IcoFace::exposed_deltille_id(width, 0, DeltilleFaceSocket::N), 0);
    if ICOFACE_DELTILLE_WIDTH >= 2 {
        assert_eq!(IcoFace::exposed_deltille_id(width, 1, DeltilleFaceSocket::N), 1);
    }
    if ICOFACE_DELTILLE_WIDTH >= 3 {
        assert_eq!(IcoFace::exposed_deltille_id(width, 2, DeltilleFaceSocket::N), 2);
    }
    if ICOFACE_DELTILLE_WIDTH >= 4 {
        assert_eq!(IcoFace::exposed_deltille_id(width, 3, DeltilleFaceSocket::N), 3);
    }
}

#[test]
fn exposed_deltille_index_ne() {
    let width = ICOFACE_DELTILLE_WIDTH;
    assert_eq!(IcoFace::exposed_deltille_id(width, 0, DeltilleFaceSocket::NE), 0);
    if ICOFACE_DELTILLE_WIDTH >= 2 {
        assert_eq!(IcoFace::exposed_deltille_id(width, 1, DeltilleFaceSocket::NE), 3);
    }
    if ICOFACE_DELTILLE_WIDTH >= 3 {
        assert_eq!(IcoFace::exposed_deltille_id(width, 2, DeltilleFaceSocket::NE), 8);
    }
    if ICOFACE_DELTILLE_WIDTH >= 4 {
        assert_eq!(IcoFace::exposed_deltille_id(width, 3, DeltilleFaceSocket::NE), 15);
    }
}

#[test]
fn exposed_deltille_index_se() {
    let width = ICOFACE_DELTILLE_WIDTH;
    assert_eq!(IcoFace::exposed_deltille_id(width, 0, DeltilleFaceSocket::SE), 3);
    if ICOFACE_DELTILLE_WIDTH >= 2 {
        assert_eq!(IcoFace::exposed_deltille_id(width, 1, DeltilleFaceSocket::SE), 9);
    }
    if ICOFACE_DELTILLE_WIDTH >= 3 {
        assert_eq!(IcoFace::exposed_deltille_id(width, 2, DeltilleFaceSocket::SE), 13);
    }
    if ICOFACE_DELTILLE_WIDTH >= 4 {
        assert_eq!(IcoFace::exposed_deltille_id(width, 3, DeltilleFaceSocket::SE), 15);
    }
}

#[test]
fn exposed_deltille_index_s() {
    let width = ICOFACE_DELTILLE_WIDTH;
    assert_eq!(IcoFace::exposed_deltille_id(width, 0, DeltilleFaceSocket::S), 12);
    if ICOFACE_DELTILLE_WIDTH >= 2 {
        assert_eq!(IcoFace::exposed_deltille_id(width, 1, DeltilleFaceSocket::S), 13);
    }
    if ICOFACE_DELTILLE_WIDTH >= 3 {
        assert_eq!(IcoFace::exposed_deltille_id(width, 2, DeltilleFaceSocket::S), 14);
    }
    if ICOFACE_DELTILLE_WIDTH >= 4 {
        assert_eq!(IcoFace::exposed_deltille_id(width, 3, DeltilleFaceSocket::S), 15);
    }
}

#[test]
fn exposed_deltille_index_sw() {
    let width = ICOFACE_DELTILLE_WIDTH;
    assert_eq!(IcoFace::exposed_deltille_id(width, 0, DeltilleFaceSocket::SW), 0);
    if ICOFACE_DELTILLE_WIDTH >= 2 {
        assert_eq!(IcoFace::exposed_deltille_id(width, 1, DeltilleFaceSocket::SW), 7);
    }
    if ICOFACE_DELTILLE_WIDTH >= 3 {
        assert_eq!(IcoFace::exposed_deltille_id(width, 2, DeltilleFaceSocket::SW), 12);
    }
    if ICOFACE_DELTILLE_WIDTH >= 4 {
        assert_eq!(IcoFace::exposed_deltille_id(width, 3, DeltilleFaceSocket::SW), 15);
    }
}

#[test]
fn exposed_deltille_index_nw() {
    let width = ICOFACE_DELTILLE_WIDTH;
    assert_eq!(IcoFace::exposed_deltille_id(width, 0, DeltilleFaceSocket::NW), 0);
    if ICOFACE_DELTILLE_WIDTH >= 2 {
        assert_eq!(IcoFace::exposed_deltille_id(width, 1, DeltilleFaceSocket::NW), 2);
    }
    if ICOFACE_DELTILLE_WIDTH >= 3 {
        assert_eq!(IcoFace::exposed_deltille_id(width, 2, DeltilleFaceSocket::NW), 6);
    }
    if ICOFACE_DELTILLE_WIDTH >= 4 {
        assert_eq!(IcoFace::exposed_deltille_id(width, 3, DeltilleFaceSocket::NW), 12);
    }
}

#[test]
fn new_icosahedron_works() {
    let icosahedron = Icosahedron::new(ICOFACE_DELTILLE_WIDTH, &from_fn(|_| HashSet::new())).unwrap();
    assert_eq!(icosahedron.icofaces.len(), 20);
}

#[test]
fn width_zero_is_refused() {
    let result = Icosahedron::new(0, &no_options());
    assert!(matches!(result, Err(ConstructionError::InvalidSubdivisionWidth)));
}

#[test]
fn every_face_has_width_squared_slots() {
    for width in 1..=6 {
        let icosahedron = build(width);
        assert_eq!(icosahedron.icofaces.len(), 20);
        for icoface in icosahedron.icofaces.iter() {
            assert_eq!(icoface.deltille_slots.len(), width * width);
        }
    }
}

#[test]
fn faces_alternate_by_row() {
    let icosahedron = build(2);
    for (index, icoface) in icosahedron.icofaces.iter().enumerate() {
        let expected = if (index / 5) % 2 == 0 {
            VerticalOrientation::Up
        } else {
            VerticalOrientation::Down
        };
        assert_eq!(icoface.orientation, expected);
    }
}

#[test]
fn face_connections_are_symmetric() {
    let icosahedron = build(3);
    for (index, icoface) in icosahedron.icofaces.iter().enumerate() {
        for side in 0..3 {
            let connection = icoface.icoface_connections[side];
            assert!(connection.target_icoface_id < 20);
            let target = &icosahedron.icofaces[connection.target_icoface_id];
            let back = target.icoface_connections[connection.target_socket.index()];
            assert_eq!(back.target_icoface_id, index);
            assert_eq!(back.target_socket, socket_on(icoface.orientation, side));
        }
    }
}

#[test]
fn face_connections_of_the_first_face_of_each_row() {
    let icosahedron = build(1);
    let links = |face: usize| -> Vec<(usize, DeltilleFaceSocket)> {
        icosahedron.icofaces[face]
            .icoface_connections
            .iter()
            .map(|connection| (connection.target_icoface_id, connection.target_socket))
            .collect()
    };
    assert_eq!(
        links(0),
        vec![
            (1, DeltilleFaceSocket::NW),
            (5, DeltilleFaceSocket::N),
            (4, DeltilleFaceSocket::NE)
        ]
    );
    assert_eq!(
        links(5),
        vec![
            (0, DeltilleFaceSocket::S),
            (10, DeltilleFaceSocket::NW),
            (14, DeltilleFaceSocket::NE)
        ]
    );
    assert_eq!(
        links(10),
        vec![
            (6, DeltilleFaceSocket::SW),
            (15, DeltilleFaceSocket::N),
            (5, DeltilleFaceSocket::SE)
        ]
    );
    assert_eq!(
        links(15),
        vec![
            (10, DeltilleFaceSocket::S),
            (16, DeltilleFaceSocket::SW),
            (19, DeltilleFaceSocket::SE)
        ]
    );
}

#[test]
fn every_connection_leads_back() {
    for width in 1..=5 {
        let icosahedron = build(width);
        for (face, icoface) in icosahedron.icofaces.iter().enumerate() {
            for (deltille, slot) in icoface.deltille_slots.iter().enumerate() {
                for side in 0..3 {
                    let connection = slot.connections[side];
                    let target = connection.target_deltille_coordinates;
                    assert!(target.icoface_id < 20);
                    assert!(target.deltille_id < width * width);
                    let neighbour =
                        &icosahedron.icofaces[target.icoface_id].deltille_slots[target.deltille_id];
                    let back = neighbour.connections[connection.target_socket.index()];
                    assert_eq!(
                        back.target_deltille_coordinates,
                        DeltilleSlotId {
                            icoface_id: face,
                            deltille_id: deltille
                        }
                    );
                    assert_eq!(back.target_socket, socket_on(slot.orientation, side));
                }
            }
        }
    }
}

#[test]
fn the_mesh_closes_around_every_corner() {
    // Entering a deltille across one side and leaving it across the next side,
    // clockwise, turns around the corner between the two sides. On a sphere
    // without seams the walk comes back after six deltilles, or after five at
    // each of the twelve corners of the icosahedron.
    for width in 1..=5 {
        let icosahedron = build(width);
        let count = width * width;
        let mut seen = vec![false; 20 * count * 3];
        let mut corners_of_five = 0;
        let mut corners_of_six = 0;
        for start_face in 0..20 {
            for start_deltille in 0..count {
                for start_side in 0..3 {
                    if seen[(start_face * count + start_deltille) * 3 + start_side] {
                        continue;
                    }
                    let (mut face, mut deltille, mut side) = (start_face, start_deltille, start_side);
                    let mut hops = 0;
                    loop {
                        seen[(face * count + deltille) * 3 + side] = true;
                        let connection =
                            icosahedron.icofaces[face].deltille_slots[deltille].connections[side];
                        face = connection.target_deltille_coordinates.icoface_id;
                        deltille = connection.target_deltille_coordinates.deltille_id;
                        side = (connection.target_socket.index() + 1) % 3;
                        hops += 1;
                        assert!(hops <= 6);
                        if (face, deltille, side) == (start_face, start_deltille, start_side) {
                            break;
                        }
                    }
                    match hops {
                        5 => corners_of_five += 1,
                        6 => corners_of_six += 1,
                        _ => panic!("a corner with {} deltilles around it", hops),
                    }
                }
            }
        }
        assert_eq!(corners_of_five, 12);
        // a sphere of t triangles has t / 2 + 2 corners
        assert_eq!(corners_of_five + corners_of_six, 20 * count / 2 + 2);
    }
}

#[test]
fn check_adjacency_accepts_what_is_built() {
    for width in 1..=4 {
        assert_eq!(build(width).check_adjacency(), Ok(()));
    }
}

#[test]
fn check_adjacency_refuses_a_broken_link() {
    let mut icosahedron = build(2);
    icosahedron.icofaces[3].deltille_slots[1].connections[0]
        .target_deltille_coordinates
        .deltille_id = 2;
    assert_eq!(
        icosahedron.check_adjacency(),
        Err(ConstructionError::MalformedAdjacency)
    );

    let mut missing_slot = build(2);
    missing_slot.icofaces[19].deltille_slots.pop();
    assert_eq!(
        missing_slot.check_adjacency(),
        Err(ConstructionError::MalformedAdjacency)
    );

    let mut wrong_face = build(2);
    wrong_face.icofaces[7].icoface_connections[1].target_icoface_id = 11;
    assert_eq!(
        wrong_face.check_adjacency(),
        Err(ConstructionError::MalformedAdjacency)
    );
}

#[test]
fn connections_inside_an_up_face() {
    // width 2, face 0:    0
    //                   2 1 3      (1 points down)
    let icosahedron = build(2);
    let slots = &icosahedron.icofaces[0].deltille_slots;
    assert_eq!(slots[0].orientation, VerticalOrientation::Up);
    assert_eq!(slots[1].orientation, VerticalOrientation::Down);
    assert_eq!(slots[2].orientation, VerticalOrientation::Up);
    assert_eq!(slots[3].orientation, VerticalOrientation::Up);
    let target = |deltille: usize, side: usize| {
        let connection = slots[deltille].connections[side];
        (
            connection.target_deltille_coordinates.icoface_id,
            connection.target_deltille_coordinates.deltille_id,
            connection.target_socket,
        )
    };
    // the down deltille touches all three up deltilles of its face
    assert_eq!(target(1, 0), (0, 0, DeltilleFaceSocket::S));
    assert_eq!(target(1, 1), (0, 3, DeltilleFaceSocket::NW));
    assert_eq!(target(1, 2), (0, 2, DeltilleFaceSocket::NE));
    // the tip: across NE lies face 1, across NW face 4, below it the down deltille
    assert_eq!(target(0, 0), (1, 0, DeltilleFaceSocket::NW));
    assert_eq!(target(0, 1), (0, 1, DeltilleFaceSocket::N));
    assert_eq!(target(0, 2), (4, 0, DeltilleFaceSocket::NE));
    // the left corner: across S lies face 5, across NW face 4
    assert_eq!(target(2, 0), (0, 1, DeltilleFaceSocket::SW));
    assert_eq!(target(2, 1), (5, 0, DeltilleFaceSocket::N));
    assert_eq!(target(2, 2), (4, 3, DeltilleFaceSocket::NE));
    // the right corner
    assert_eq!(target(3, 0), (1, 2, DeltilleFaceSocket::NW));
    assert_eq!(target(3, 1), (5, 1, DeltilleFaceSocket::N));
    assert_eq!(target(3, 2), (0, 1, DeltilleFaceSocket::SE));
}

#[test]
fn connections_inside_a_down_face() {
    // width 2, face 5:  0 2 1      (2 points up)
    //                     3
    let icosahedron = build(2);
    let slots = &icosahedron.icofaces[5].deltille_slots;
    assert_eq!(slots[0].orientation, VerticalOrientation::Down);
    assert_eq!(slots[1].orientation, VerticalOrientation::Down);
    assert_eq!(slots[2].orientation, VerticalOrientation::Up);
    assert_eq!(slots[3].orientation, VerticalOrientation::Down);
    let target = |deltille: usize, side: usize| {
        let connection = slots[deltille].connections[side];
        (
            connection.target_deltille_coordinates.icoface_id,
            connection.target_deltille_coordinates.deltille_id,
            connection.target_socket,
        )
    };
    assert_eq!(target(2, 0), (5, 1, DeltilleFaceSocket::SW));
    assert_eq!(target(2, 1), (5, 3, DeltilleFaceSocket::N));
    assert_eq!(target(2, 2), (5, 0, DeltilleFaceSocket::SE));
    assert_eq!(target(0, 0), (0, 2, DeltilleFaceSocket::S));
    assert_eq!(target(0, 1), (5, 2, DeltilleFaceSocket::NW));
    assert_eq!(target(0, 2), (14, 0, DeltilleFaceSocket::NE));
    assert_eq!(target(1, 0), (0, 3, DeltilleFaceSocket::S));
    assert_eq!(target(1, 1), (10, 0, DeltilleFaceSocket::NW));
    assert_eq!(target(1, 2), (5, 2, DeltilleFaceSocket::NE));
    assert_eq!(target(3, 0), (5, 2, DeltilleFaceSocket::S));
    assert_eq!(target(3, 1), (10, 2, DeltilleFaceSocket::NW));
    assert_eq!(target(3, 2), (14, 3, DeltilleFaceSocket::NE));
}

#[test]
fn exposed_indices_walk_each_edge_once() {
    for width in 1..=6 {
        let icosahedron = build(width);
        let sockets = [
            (DeltilleFaceSocket::N, 5, 0),
            (DeltilleFaceSocket::NE, 0, 0),
            (DeltilleFaceSocket::SE, 5, 1),
            (DeltilleFaceSocket::S, 0, 1),
            (DeltilleFaceSocket::SW, 5, 2),
            (DeltilleFaceSocket::NW, 0, 2),
        ];
        for (socket, face, side) in sockets {
            let indices: Vec<usize> = (0..width)
                .map(|position| IcoFace::exposed_deltille_id(width, position, socket))
                .collect();
            // later positions have larger indices, so no two positions share a deltille
            for pair in indices.windows(2) {
                assert!(pair[0] < pair[1]);
            }
            // the deltilles named are those of the face whose link on that side leaves the face
            let slots = &icosahedron.icofaces[face].deltille_slots;
            let on_edge: Vec<usize> = (0..width * width)
                .filter(|&deltille| {
                    slots[deltille].orientation == icosahedron.icofaces[face].orientation
                        && slots[deltille].connections[side]
                            .target_deltille_coordinates
                            .icoface_id
                            != face
                })
                .collect();
            assert_eq!(indices, on_edge);
        }
    }
}

#[test]
fn exposed_index_of_width_one_is_the_only_deltille() {
    let sockets = [
        DeltilleFaceSocket::N,
        DeltilleFaceSocket::NE,
        DeltilleFaceSocket::SE,
        DeltilleFaceSocket::S,
        DeltilleFaceSocket::SW,
        DeltilleFaceSocket::NW,
    ];
    for socket in sockets {
        assert_eq!(IcoFace::exposed_deltille_id(1, 0, socket), 0);
    }
}

#[test]
fn face_positions_follow_the_net() {
    let icosahedron = build(4);
    let position = |face: usize| icosahedron.icofaces[face].position;
    assert_eq!(position(0), GridPosition { x: 32, y: 140 });
    assert_eq!(position(4), GridPosition { x: 288, y: 140 });
    assert_eq!(position(5), GridPosition { x: 32, y: 84 });
    assert_eq!(position(10), GridPosition { x: 64, y: 84 });
    assert_eq!(position(15), GridPosition { x: 64, y: 28 });
    assert_eq!(position(19), GridPosition { x: 320, y: 28 });
}

#[test]
fn deltille_positions_follow_the_rows() {
    let icosahedron = build(4);
    let up = &icosahedron.icofaces[0].deltille_slots;
    // the tip of the face
    assert_eq!(up[0].position, GridPosition { x: 32, y: 161 });
    // second row: one down deltille between two up deltilles
    assert_eq!(up[1].position, GridPosition { x: 32, y: 147 });
    assert_eq!(up[2].position, GridPosition { x: 24, y: 147 });
    assert_eq!(up[3].position, GridPosition { x: 40, y: 147 });
    // last row: three down deltilles, then four up deltilles
    assert_eq!(up[9].position, GridPosition { x: 16, y: 119 });
    assert_eq!(up[12].position, GridPosition { x: 8, y: 119 });
    assert_eq!(up[15].position, GridPosition { x: 56, y: 119 });

    let down = &icosahedron.icofaces[5].deltille_slots;
    // first row: four down deltilles, then three up deltilles
    assert_eq!(down[0].position, GridPosition { x: 8, y: 105 });
    assert_eq!(down[3].position, GridPosition { x: 56, y: 105 });
    assert_eq!(down[4].position, GridPosition { x: 16, y: 105 });
    // the tip of the face
    assert_eq!(down[15].position, GridPosition { x: 32, y: 63 });
}

#[test]
fn row_reset_position_x_centres_the_row() {
    assert_eq!(IcoFace::row_reset_position_x(32, 1), 32);
    assert_eq!(IcoFace::row_reset_position_x(32, 2), 24);
    assert_eq!(IcoFace::row_reset_position_x(32, 4), 8);
    assert_eq!(IcoFace::row_reset_position_x(32, 0), 40);
    assert_eq!(IcoFace::row_reset_position_x(-5, 3), -21);
}

#[test]
fn slots_start_with_the_options_of_their_orientation() {
    let options = [HashSet::from([0, 1, 2]), HashSet::from([7])];
    let icosahedron = Icosahedron::new(3, &options).unwrap();
    for icoface in icosahedron.icofaces.iter() {
        for slot in icoface.deltille_slots.iter() {
            match slot.orientation {
                VerticalOrientation::Up => assert_eq!(slot.deltille_option_ids, options[0]),
                VerticalOrientation::Down => assert_eq!(slot.deltille_option_ids, options[1]),
            }
        }
    }
    let copy = icosahedron.icofaces[0].deltille_slots[1].clone();
    assert_eq!(copy.deltille_option_ids, options[1]);
    assert_eq!(copy.position, icosahedron.icofaces[0].deltille_slots[1].position);
    assert_eq!(copy.orientation, VerticalOrientation::Down);
}

#[test]
fn icoface_new_keeps_what_it_is_given() {
    let connections = [
        IcoFaceConnection {
            target_socket: DeltilleFaceSocket::NW,
            target_icoface_id: 1,
        },
        IcoFaceConnection {
            target_socket: DeltilleFaceSocket::N,
            target_icoface_id: 5,
        },
        IcoFaceConnection {
            target_socket: DeltilleFaceSocket::NE,
            target_icoface_id: 4,
        },
    ];
    let icoface = IcoFace::new(
        3,
        VerticalOrientation::Up,
        GridPosition { x: 100, y: 200 },
        &no_options(),
        connections,
        7,
    );
    assert_eq!(icoface.orientation, VerticalOrientation::Up);
    assert_eq!(icoface.position, GridPosition { x: 100, y: 200 });
    assert_eq!(icoface.deltille_slots.len(), 9);
    assert_eq!(icoface.icoface_connections[1].target_icoface_id, 5);
    // links inside the face name the face's own index
    let inner = icoface.deltille_slots[1].connections[0];
    assert_eq!(
        inner.target_deltille_coordinates,
        DeltilleSlotId {
            icoface_id: 7,
            deltille_id: 0
        }
    );
    // links across an edge name the face across, and the deltille at the same position of its edge
    let across = icoface.deltille_slots[8].connections[0];
    assert_eq!(
        across.target_deltille_coordinates,
        DeltilleSlotId {
            icoface_id: 1,
            deltille_id: 6
        }
    );
    assert_eq!(across.target_socket, DeltilleFaceSocket::NW);
}

#[test]
fn zero_width_face_has_no_slots() {
    let slots = IcoFace::generate_deltille_slots(
        0,
        GridPosition { x: 0, y: 0 },
        VerticalOrientation::Down,
        &no_options(),
        [IcoFaceConnection {
            target_socket: DeltilleFaceSocket::S,
            target_icoface_id: 0,
        }; 3],
        0,
    );
    assert!(slots.is_empty());
}
