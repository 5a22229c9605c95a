use icosphere_wfc::constraints::{has_empty_slot, supported_options};
use icosphere_wfc::icosahedron::Icosahedron;
use icosphere_wfc::layout::{socket_on_side, socket_owner};
use icosphere_wfc::seeding::{all_options, seed_options};
use icosphere_wfc::sockets::{
    down_options_from, up_options_from, Deltille, DeltilleFaceSocket, VerticalOrientation,
};

fn labelled(labels: [&str; 3]) -> Deltille {
    Deltille {
        image_path: String::new(),
        flip_x: false,
        flip_y: false,
        sockets: [
            labels[0].to_string(),
            labels[1].to_string(),
            labels[2].to_string(),
        ],
    }
}

#[test]
fn sockets_stand_on_the_sides_of_their_owner() {
    let up = [
        DeltilleFaceSocket::NE,
        DeltilleFaceSocket::S,
        DeltilleFaceSocket::NW,
    ];
    let down = [
        DeltilleFaceSocket::N,
        DeltilleFaceSocket::SE,
        DeltilleFaceSocket::SW,
    ];
    for side in 0..3 {
        assert_eq!(socket_on_side(VerticalOrientation::Up, side), up[side]);
        assert_eq!(socket_on_side(VerticalOrientation::Down, side), down[side]);
        assert_eq!(socket_owner(up[side]), VerticalOrientation::Up);
        assert_eq!(socket_owner(down[side]), VerticalOrientation::Down);
        assert_eq!(up[side].index(), side);
        assert_eq!(down[side].index(), side);
    }
}

#[test]
fn has_empty_slot_finds_a_slot_without_options() {
    assert!(!has_empty_slot(&Vec::new()));
    assert!(!has_empty_slot(&vec![vec![], vec![vec![1], vec![0, 2]]]));
    assert!(has_empty_slot(&vec![vec![vec![1]], vec![vec![0, 2], vec![]]]));
}

#[test]
fn supported_options_are_those_that_a_neighbour_fits() {
    // on a grid of width one, the first face touches the second with its first
    // side, against the third side of the second
    let catalog = vec![
        labelled(["a", "x", "b"]),
        labelled(["b", "x", "c"]),
        labelled(["d", "x", "d"]),
    ];
    let up = up_options_from(&catalog);
    let down = down_options_from(&catalog);
    let icosahedron = Icosahedron::new(1, &[all_options(6), all_options(6)]).unwrap();
    let mut options = seed_options(&icosahedron, &up, &down);
    // labels a, b and d on the first side; b, c and d on the third side of the neighbour
    assert_eq!(
        supported_options(&icosahedron, &up, &down, &options, 0, 0, 0),
        vec![2, 3, 4, 5]
    );
    // with the last tile taken from the neighbour, only label b is left to fit
    options[1][0] = vec![0, 1, 2, 3];
    assert_eq!(
        supported_options(&icosahedron, &up, &down, &options, 0, 0, 0),
        vec![2, 3]
    );
    // nothing of the neighbour fits when it has nothing
    options[1][0] = Vec::new();
    assert_eq!(
        supported_options(&icosahedron, &up, &down, &options, 0, 0, 0),
        Vec::<usize>::new()
    );
    // the second side touches the face below, whose first side carries a, b or d
    assert_eq!(
        supported_options(&icosahedron, &up, &down, &options, 0, 0, 1),
        Vec::<usize>::new()
    );
}
