use icosphere_wfc::sockets::{
    default_flip, down_options_from, sockets_match, up_options_from, Deltille, DeltilleFaceSocket,
    VerticalOrientation,
};

fn record(image_path: &str, flip_x: bool, flip_y: bool, labels: [&str; 3]) -> Deltille {
    Deltille {
        image_path: image_path.to_string(),
        flip_x,
        flip_y,
        sockets: [
            labels[0].to_string(),
            labels[1].to_string(),
            labels[2].to_string(),
        ],
    }
}

fn summary(deltille: &Deltille) -> (String, bool, bool, [String; 3]) {
    (
        deltille.image_path.clone(),
        deltille.flip_x,
        deltille.flip_y,
        deltille.sockets.clone(),
    )
}

#[test]
fn orientation_indices() {
    assert_eq!(VerticalOrientation::Up.index(), 0);
    assert_eq!(VerticalOrientation::Down.index(), 1);
}

#[test]
fn socket_indices() {
    assert_eq!(DeltilleFaceSocket::N.index(), 0);
    assert_eq!(DeltilleFaceSocket::NE.index(), 0);
    assert_eq!(DeltilleFaceSocket::SE.index(), 1);
    assert_eq!(DeltilleFaceSocket::S.index(), 1);
    assert_eq!(DeltilleFaceSocket::SW.index(), 2);
    assert_eq!(DeltilleFaceSocket::NW.index(), 2);
}

#[test]
fn default_flip_is_off() {
    assert!(!default_flip());
}

#[test]
fn up_options_hold_each_tile_and_its_horizontal_mirror() {
    let inputs = vec![
        record("grass.png", false, false, ["a", "b", "c"]),
        record("rock.png", false, false, ["d", "d", "e"]),
    ];
    let options = up_options_from(&inputs);
    assert_eq!(options.len(), 4);
    assert_eq!(summary(&options[0]), summary(&record("grass.png", false, false, ["a", "b", "c"])));
    assert_eq!(summary(&options[1]), summary(&record("grass.png", true, false, ["a", "b", "c"])));
    assert_eq!(summary(&options[2]), summary(&record("rock.png", false, false, ["d", "d", "e"])));
    assert_eq!(summary(&options[3]), summary(&record("rock.png", true, false, ["d", "d", "e"])));
}

#[test]
fn down_options_hold_the_vertical_mirror_and_the_mirror_in_both() {
    let inputs = vec![
        record("grass.png", false, false, ["a", "b", "c"]),
        record("rock.png", false, false, ["d", "d", "e"]),
    ];
    let options = down_options_from(&inputs);
    assert_eq!(options.len(), 4);
    assert_eq!(summary(&options[0]), summary(&record("grass.png", false, true, ["a", "b", "c"])));
    assert_eq!(summary(&options[1]), summary(&record("grass.png", true, true, ["a", "b", "c"])));
    assert_eq!(summary(&options[2]), summary(&record("rock.png", false, true, ["d", "d", "e"])));
    assert_eq!(summary(&options[3]), summary(&record("rock.png", true, true, ["d", "d", "e"])));
}

#[test]
fn mirrors_toggle_the_flags_of_a_mirrored_record() {
    let inputs = vec![record("sand.png", true, true, ["x", "y", "z"])];
    let up = up_options_from(&inputs);
    assert_eq!(summary(&up[0]), summary(&record("sand.png", true, true, ["x", "y", "z"])));
    assert_eq!(summary(&up[1]), summary(&record("sand.png", false, true, ["x", "y", "z"])));
    let down = down_options_from(&inputs);
    assert_eq!(summary(&down[0]), summary(&record("sand.png", true, false, ["x", "y", "z"])));
    assert_eq!(summary(&down[1]), summary(&record("sand.png", false, false, ["x", "y", "z"])));
}

#[test]
fn an_empty_catalog_has_no_options() {
    let inputs: Vec<Deltille> = Vec::new();
    assert!(up_options_from(&inputs).is_empty());
    assert!(down_options_from(&inputs).is_empty());
}

#[test]
fn mirrored_replaces_the_flags_only() {
    let authored = record("moss.png", false, true, ["p", "q", "r"]);
    let copy = authored.mirrored(true, false);
    assert_eq!(summary(&copy), summary(&record("moss.png", true, false, ["p", "q", "r"])));
    assert_eq!(summary(&authored), summary(&record("moss.png", false, true, ["p", "q", "r"])));
}

#[test]
fn sockets_match_on_equal_labels_only() {
    let first = record("a.png", false, false, ["sea", "shore", "land"]);
    let second = record("b.png", true, false, ["land", "sea", "sea"]);
    assert!(sockets_match(&first, 0, &second, 1));
    assert!(sockets_match(&first, 0, &second, 2));
    assert!(sockets_match(&first, 2, &second, 0));
    assert!(!sockets_match(&first, 0, &second, 0));
    assert!(!sockets_match(&first, 1, &second, 1));
    assert!(sockets_match(&second, 1, &first, 0));
    assert!(sockets_match(&first, 1, &first, 1));
}
