use icosphere_wfc::icosahedron::{ConstructionError, DeltilleSlotId, Icosahedron};
use icosphere_wfc::sockets::{down_options_from, sockets_match, up_options_from, Deltille};
use std::collections::HashSet;

use icosphere_wfc::seeding::{all_options, known_options, seed_options};
use icosphere_wfc::wave_function_collapse::{
    attempt, backtrack, coordinates_with_fewest_possibilities, copy_options, iterate_wfc,
    not_yet_complete, propogate_constraints, run_to_completion, select, solve, try_collapse,
    Selection, Step, StepOutcome, WfcState,
};

fn tile(labels: [&str; 3]) -> Deltille {
    Deltille {
        image_path: format!("{}{}{}.png", labels[0], labels[1], labels[2]),
        flip_x: false,
        flip_y: false,
        sockets: [
            labels[0].to_string(),
            labels[1].to_string(),
            labels[2].to_string(),
        ],
    }
}

/// A grid of the given width whose slots list every tile of the two catalogs.
fn grid_for(width: usize, up: &Vec<Deltille>, down: &Vec<Deltille>) -> Icosahedron {
    let options = [all_options(up.len()), all_options(down.len())];
    Icosahedron::new(width, &options).unwrap()
}

fn state_for(width: usize, catalog: &Vec<Deltille>, seed: u64) -> WfcState {
    let up = up_options_from(catalog);
    let down = down_options_from(catalog);
    let icosahedron = grid_for(width, &up, &down);
    WfcState::new(icosahedron, up, down, seed).unwrap()
}

fn catalog_of(state: &WfcState, face: usize, deltille: usize) -> &Vec<Deltille> {
    match state.icosahedron.icofaces[face].deltille_slots[deltille]
        .orientation
        .index()
    {
        0 => &state.up_options,
        _ => &state.down_options,
    }
}

/// Whether the tiles assigned fit across every side of every slot.
fn is_tiling(state: &WfcState, assignment: &Vec<Vec<usize>>) -> bool {
    for (face, icoface) in state.icosahedron.icofaces.iter().enumerate() {
        for (deltille, slot) in icoface.deltille_slots.iter().enumerate() {
            for side in 0..3 {
                let connection = slot.connections[side];
                let target = connection.target_deltille_coordinates;
                let own = &catalog_of(state, face, deltille)[assignment[face][deltille]];
                let other = &catalog_of(state, target.icoface_id, target.deltille_id)
                    [assignment[target.icoface_id][target.deltille_id]];
                if !sockets_match(own, side, other, connection.target_socket.index()) {
                    return false;
                }
            }
        }
    }
    true
}

fn count_options(step: &Step) -> usize {
    step.options
        .iter()
        .map(|face| face.iter().map(|list| list.len()).sum::<usize>())
        .sum()
}

/// A catalog that has tilings, but in which the faces around the upper
/// pole can take two kinds of tile that no tiling uses: around the pole those
/// two would have to alternate, and five faces cannot alternate.
fn catalog_with_dead_ends() -> Vec<Deltille> {
    vec![
        tile(["a", "m", "b"]),
        tile(["b", "m", "a"]),
        tile(["c", "m", "c"]),
        tile(["m", "z", "z"]),
        tile(["z", "y", "z"]),
        tile(["y", "w", "w"]),
    ]
}

#[test]
fn known_options_keeps_the_tiles_below_the_limit_in_order() {
    assert_eq!(known_options(&HashSet::from([5, 1, 3, 9]), 6), vec![1, 3, 5]);
    assert_eq!(known_options(&HashSet::from([5, 1, 3]), 0), Vec::<usize>::new());
    assert_eq!(known_options(&HashSet::new(), 4), Vec::<usize>::new());
    assert_eq!(known_options(&HashSet::from([2, 0, 1]), 3), vec![0, 1, 2]);
}

#[test]
fn all_options_lists_every_tile_once() {
    assert_eq!(all_options(0), HashSet::new());
    assert_eq!(all_options(1), HashSet::from([0]));
    assert_eq!(all_options(5), HashSet::from([0, 1, 2, 3, 4]));
    assert_eq!(known_options(&all_options(4), 4), vec![0, 1, 2, 3]);
}

#[test]
fn seed_options_follow_the_orientation_of_each_slot() {
    let catalog = vec![tile(["a", "a", "a"])];
    let up = up_options_from(&catalog);
    let down = Vec::new();
    let icosahedron =
        Icosahedron::new(2, &[HashSet::from([1, 0, 7]), HashSet::from([0, 1])]).unwrap();
    let options = seed_options(&icosahedron, &up, &down);
    assert_eq!(options.len(), 20);
    for (face, icoface) in icosahedron.icofaces.iter().enumerate() {
        assert_eq!(options[face].len(), 4);
        for (deltille, slot) in icoface.deltille_slots.iter().enumerate() {
            if slot.orientation.index() == 0 {
                assert_eq!(options[face][deltille], vec![0, 1]);
            } else {
                assert_eq!(options[face][deltille], Vec::<usize>::new());
            }
        }
    }
}

#[test]
fn copy_options_copies_every_list() {
    let options = vec![vec![vec![1, 2], vec![]], vec![vec![3]]];
    let mut copy = copy_options(&options);
    assert_eq!(copy, options);
    copy[0][0].push(9);
    assert_eq!(options[0][0], vec![1, 2]);
}

#[test]
fn option_count_adds_up_every_list() {
    let step = Step {
        options: vec![
            vec![vec![0], vec![0, 1, 2], vec![1, 2]],
            vec![vec![], vec![0, 3], vec![0, 1, 2, 3]],
            vec![],
        ],
        chosen: None,
    };
    assert_eq!(step.option_count(), 12);
    let empty = Step {
        options: Vec::new(),
        chosen: None,
    };
    assert_eq!(empty.option_count(), 0);
}

#[test]
fn fewest_possibilities_leave_out_settled_and_empty_slots() {
    let step = Step {
        options: vec![
            vec![vec![0], vec![0, 1, 2], vec![1, 2]],
            vec![vec![], vec![0, 3], vec![0, 1, 2, 3]],
        ],
        chosen: None,
    };
    assert_eq!(
        coordinates_with_fewest_possibilities(&step),
        vec![
            DeltilleSlotId {
                icoface_id: 0,
                deltille_id: 2
            },
            DeltilleSlotId {
                icoface_id: 1,
                deltille_id: 1
            },
        ]
    );
}

#[test]
fn fewest_possibilities_of_a_settled_step_are_none() {
    let step = Step {
        options: vec![vec![vec![0], vec![4]], vec![vec![2]]],
        chosen: None,
    };
    assert!(coordinates_with_fewest_possibilities(&step).is_empty());
}

#[test]
fn a_malformed_grid_is_refused() {
    let catalog = vec![tile(["a", "a", "a"])];
    let up = up_options_from(&catalog);
    let down = down_options_from(&catalog);
    let mut icosahedron = grid_for(2, &up, &down);
    icosahedron.icofaces[0].deltille_slots[0].connections[1]
        .target_deltille_coordinates
        .icoface_id = 20;
    let result = WfcState::new(icosahedron, up, down, 1);
    assert!(matches!(result, Err(ConstructionError::MalformedAdjacency)));
}

#[test]
fn a_new_solve_starts_with_one_step() {
    let state = state_for(2, &vec![tile(["a", "a", "a"]), tile(["b", "b", "b"])], 3);
    assert!(not_yet_complete(&state));
    assert!(!state.complete);
    assert_eq!(state.steps.len(), 1);
    assert_eq!(state.steps[0].chosen, None);
    assert_eq!(count_options(&state.steps[0]), 20 * 4 * 4);
    assert_eq!(state.read_assignment(), None);
}

#[test]
fn an_empty_catalog_is_a_contradiction_at_the_first_step() {
    for width in 1..=3 {
        let mut state = state_for(width, &Vec::new(), 11);
        assert!(not_yet_complete(&state));
        assert_eq!(iterate_wfc(&mut state), StepOutcome::Contradiction);
        assert!(state.steps.is_empty());
        assert!(!not_yet_complete(&state));
        assert_eq!(state.read_assignment(), None);
        // an ended solve stays as it is
        assert_eq!(iterate_wfc(&mut state), StepOutcome::Contradiction);
        assert!(state.steps.is_empty());
    }
}

#[test]
fn a_single_tile_on_width_one_is_solved_without_backtracking() {
    let catalog = vec![tile(["a", "a", "a"])];
    let mut state = state_for(1, &catalog, 42);
    let mut depth = state.steps.len();
    let mut outcome = StepOutcome::Progressed;
    let mut steps = 0;
    while outcome == StepOutcome::Progressed {
        outcome = iterate_wfc(&mut state);
        steps += 1;
        if outcome == StepOutcome::Progressed {
            // every trial is kept: the stack grows by one step each time
            assert_eq!(state.steps.len(), depth + 1);
            depth += 1;
        }
        assert!(steps <= 21);
    }
    assert_eq!(outcome, StepOutcome::Solved);
    assert_eq!(steps, 21);
    let assignment = state.read_assignment().unwrap();
    assert_eq!(assignment.len(), 20);
    for face in 0..20 {
        assert_eq!(assignment[face].len(), 1);
        // both mirrors of the one tile stand at places 0 and 1 of their catalog
        assert_eq!(assignment[face][0] / 2, 0);
        let chosen = &catalog_of(&state, face, 0)[assignment[face][0]];
        assert_eq!(chosen.image_path, "aaa.png");
    }
    assert!(is_tiling(&state, &assignment));
}

#[test]
fn two_tiles_that_fit_nothing_are_a_contradiction() {
    let catalog = vec![tile(["a", "b", "c"]), tile(["d", "e", "f"])];
    for seed in 0..5 {
        let mut state = state_for(1, &catalog, seed);
        let outcome = solve(&mut state, 1000);
        assert_eq!(outcome, StepOutcome::Contradiction);
        assert_eq!(state.steps.len(), 0);
        assert!(state.complete);
        assert_eq!(state.read_assignment(), None);
    }
}

#[test]
fn self_compatible_tiles_are_solved_for_any_seed() {
    let catalog = vec![
        tile(["a", "a", "a"]),
        tile(["b", "b", "b"]),
        tile(["c", "c", "c"]),
    ];
    for seed in 0..8 {
        let mut state = state_for(2, &catalog, seed);
        // as many steps as the first step holds options, and one, are always enough
        let budget = state.steps[0].option_count() + 1;
        assert_eq!(budget, count_options(&state.steps[0]) + 1);
        let outcome = solve(&mut state, budget);
        assert_eq!(outcome, StepOutcome::Solved);
        let assignment = state.read_assignment().unwrap();
        assert!(is_tiling(&state, &assignment));
        // all slots carry the tile drawn for the first slot
        let first = assignment[0][0] / 2;
        for face in 0..20 {
            for deltille in 0..4 {
                assert_eq!(assignment[face][deltille] / 2, first);
            }
        }
    }
}

#[test]
fn the_same_seed_gives_the_same_solve() {
    let catalog = vec![tile(["a", "a", "a"]), tile(["b", "b", "b"])];
    let run = |seed: u64| {
        let mut state = state_for(2, &catalog, seed);
        let mut trace = Vec::new();
        loop {
            let outcome = iterate_wfc(&mut state);
            trace.push((outcome, state.steps.len(), state.steps.last().map(count_options)));
            if outcome != StepOutcome::Progressed {
                break;
            }
        }
        (trace, state.read_assignment())
    };
    assert_eq!(run(7), run(7));
    assert_eq!(run(123456), run(123456));
}

#[test]
fn stepwise_and_run_to_completion_agree() {
    let catalog = vec![tile(["a", "a", "a"]), tile(["b", "b", "b"])];
    let mut stepwise = state_for(2, &catalog, 99);
    while iterate_wfc(&mut stepwise) == StepOutcome::Progressed {}
    let mut at_once = state_for(2, &catalog, 99);
    assert_eq!(solve(&mut at_once, usize::MAX), StepOutcome::Solved);
    assert_eq!(stepwise.read_assignment(), at_once.read_assignment());
}

#[test]
fn solve_stops_when_its_steps_are_used_up() {
    let catalog = vec![tile(["a", "a", "a"]), tile(["b", "b", "b"])];
    let mut state = state_for(2, &catalog, 5);
    assert_eq!(solve(&mut state, 0), StepOutcome::Progressed);
    assert_eq!(state.steps.len(), 1);
    assert_eq!(solve(&mut state, 1), StepOutcome::Progressed);
    assert_eq!(state.steps.len(), 2);
    assert!(not_yet_complete(&state));
    assert_eq!(solve(&mut state, 1000), StepOutcome::Solved);
    // an ended solve stays as it is
    let depth = state.steps.len();
    assert_eq!(solve(&mut state, 10), StepOutcome::Solved);
    assert_eq!(iterate_wfc(&mut state), StepOutcome::Solved);
    assert_eq!(state.steps.len(), depth);
}

#[test]
fn propagation_only_takes_options_away() {
    let catalog = catalog_with_dead_ends();
    let up = up_options_from(&catalog);
    let down = down_options_from(&catalog);
    let icosahedron = grid_for(1, &up, &down);
    let mut step = Step {
        options: seed_options(&icosahedron, &up, &down),
        chosen: None,
    };
    let before = copy_options(&step.options);
    let result = propogate_constraints(&icosahedron, &up, &down, &mut step);
    assert_eq!(result, Ok(()));
    let mut taken = 0;
    for face in 0..20 {
        for deltille in 0..1 {
            let after = &step.options[face][deltille];
            assert!(after.len() <= before[face][deltille].len());
            assert!(after.iter().all(|id| before[face][deltille].contains(id)));
            assert!(after.windows(2).all(|pair| pair[0] < pair[1]));
            taken += before[face][deltille].len() - after.len();
        }
    }
    assert!(taken > 0);
    // what is left is consistent: propagating again changes nothing
    let settled = copy_options(&step.options);
    assert_eq!(propogate_constraints(&icosahedron, &up, &down, &mut step), Ok(()));
    assert_eq!(step.options, settled);
}

#[test]
fn propagation_reports_a_slot_left_without_options() {
    let catalog = vec![tile(["a", "b", "c"])];
    let up = up_options_from(&catalog);
    let down = down_options_from(&catalog);
    let icosahedron = grid_for(1, &up, &down);
    let mut step = Step {
        options: seed_options(&icosahedron, &up, &down),
        chosen: None,
    };
    assert_eq!(
        propogate_constraints(&icosahedron, &up, &down, &mut step),
        Err(())
    );
    assert!(step.options.iter().flatten().any(|list| list.is_empty()));
}

#[test]
fn a_tile_that_fits_is_pushed_as_a_new_step() {
    let catalog = vec![tile(["a", "a", "a"]), tile(["b", "b", "b"])];
    let mut state = state_for(1, &catalog, 0);
    let slot = DeltilleSlotId {
        icoface_id: 3,
        deltille_id: 0,
    };
    assert_eq!(state.steps[0].options[3][0], vec![0, 1, 2, 3]);
    assert!(try_collapse(&mut state, slot, 2));
    assert_eq!(state.steps.len(), 2);
    // the step tried from is as it was
    assert_eq!(state.steps[0].options[3][0], vec![0, 1, 2, 3]);
    // the slot holds the tile alone, and every other slot the tiles with its label
    assert_eq!(state.steps[1].options[3][0], vec![2]);
    assert_eq!(state.steps[1].chosen, None);
    for face in 0..20 {
        if face != 3 {
            assert_eq!(state.steps[1].options[face][0], vec![2, 3]);
        }
    }
}

#[test]
fn a_tile_that_leads_to_a_dead_end_is_struck() {
    let mut state = state_for(1, &catalog_with_dead_ends(), 0);
    let all: Vec<usize> = (0..12).collect();
    let slot = DeltilleSlotId {
        icoface_id: 0,
        deltille_id: 0,
    };
    let before = copy_options(&state.steps[0].options);
    // the first tile cannot go all around the pole
    assert!(!try_collapse(&mut state, slot, 1));
    assert_eq!(state.steps.len(), 1);
    let without_1: Vec<usize> = all.iter().copied().filter(|id| *id != 1).collect();
    assert_eq!(state.steps[0].options[0][0], without_1);
    for face in 1..20 {
        assert_eq!(state.steps[0].options[face][0], before[face][0]);
    }
    // the fourth tile fits nothing at the pole
    assert!(!try_collapse(&mut state, slot, 6));
    let without_1_6: Vec<usize> = all.iter().copied().filter(|id| *id != 1 && *id != 6).collect();
    assert_eq!(state.steps[0].options[0][0], without_1_6);
    // the third tile goes all around the pole
    assert!(try_collapse(&mut state, slot, 4));
    assert_eq!(state.steps.len(), 2);
    assert_eq!(state.steps[0].options[0][0], without_1_6);
    assert_eq!(state.steps[1].options[0][0], vec![4]);
    for face in 1..5 {
        assert_eq!(state.steps[1].options[face][0], vec![4, 5]);
    }
}

#[test]
fn the_first_step_holds_what_the_grid_lists_until_the_solve_works_on_it() {
    // a catalog whose tiles do not all fit somewhere
    let catalog = catalog_with_dead_ends();
    let mut state = state_for(1, &catalog, 0);
    assert_eq!(state.steps.len(), 1);
    assert_eq!(state.steps[0].chosen, None);
    let all: Vec<usize> = (0..12).collect();
    for face in 0..20 {
        assert_eq!(state.steps[0].options[face].len(), 1);
        assert_eq!(state.steps[0].options[face][0], all);
    }
    // the first thing the solve does is to narrow the step until it is consistent
    let slot = match select(&mut state) {
        Selection::Slot(slot) => slot,
        Selection::Ended(_) => panic!("the solve has only begun"),
    };
    assert_eq!(state.steps.len(), 1);
    assert_eq!(state.steps[0].chosen, Some(slot));
    for face in 0..5 {
        // around the upper pole: the three tiles that carry m below
        assert_eq!(state.steps[0].options[face][0], vec![0, 1, 2, 3, 4, 5]);
    }
    for face in 5..10 {
        assert_eq!(state.steps[0].options[face][0], vec![6, 7]);
    }
    for face in 10..15 {
        assert_eq!(state.steps[0].options[face][0], vec![8, 9]);
    }
    for face in 15..20 {
        assert_eq!(state.steps[0].options[face][0], vec![10, 11]);
    }
    // the slot drawn is one of those with two options
    assert!(slot.icoface_id >= 5);
}

#[test]
fn tiles_that_fit_nothing_are_listed_until_the_first_step() {
    let catalog = vec![tile(["a", "b", "c"]), tile(["d", "e", "f"])];
    let mut state = state_for(4, &catalog, 0);
    assert_eq!(state.steps.len(), 1);
    for face in 0..20 {
        assert_eq!(state.steps[0].options[face].len(), 16);
        for deltille in 0..16 {
            assert_eq!(state.steps[0].options[face][deltille], vec![0, 1, 2, 3]);
        }
    }
    assert_eq!(state.steps[0].option_count(), 20 * 16 * 4);
    assert_eq!(iterate_wfc(&mut state), StepOutcome::Contradiction);
    assert!(state.steps.is_empty());
}

#[test]
fn backtracking_strikes_the_tile_that_led_to_the_step() {
    // without the third tile, every step ends in a dead end sooner or later
    let mut catalog = catalog_with_dead_ends();
    catalog.remove(2);
    let mut state = state_for(1, &catalog, 0);
    let mut backtracked = 0;
    while backtracked < 3 {
        let slot = match select(&mut state) {
            Selection::Slot(slot) => slot,
            Selection::Ended(_) => panic!("the solve ended before it went back three times"),
        };
        let top = state.steps.len() - 1;
        assert_eq!(state.steps[top].chosen, Some(slot));
        if !state.steps[top].options[slot.icoface_id][slot.deltille_id].is_empty() {
            assert_eq!(attempt(&mut state, slot), StepOutcome::Progressed);
            continue;
        }
        // the slot drawn has no tile left: the step is a dead end
        assert!(top > 0);
        let below = state.steps[top - 1].chosen.unwrap();
        let led_here = state.steps[top].options[below.icoface_id][below.deltille_id].clone();
        assert_eq!(led_here.len(), 1);
        let before = copy_options(&state.steps[top - 1].options);
        assert!(before[below.icoface_id][below.deltille_id].contains(&led_here[0]));
        assert_eq!(backtrack(&mut state), StepOutcome::Progressed);
        assert_eq!(state.steps.len(), top);
        // the tile that led to the dead end is struck from the step below, and nothing else
        let left: Vec<usize> = before[below.icoface_id][below.deltille_id]
            .iter()
            .copied()
            .filter(|id| *id != led_here[0])
            .collect();
        for face in 0..20 {
            if face == below.icoface_id {
                assert_eq!(state.steps[top - 1].options[face][0], left);
            } else {
                assert_eq!(state.steps[top - 1].options[face][0], before[face][0]);
            }
        }
        // the slot drawn there stays drawn: the next step tries another of its tiles
        assert_eq!(state.steps[top - 1].chosen, Some(below));
        assert_eq!(select(&mut state), Selection::Slot(below));
        backtracked += 1;
    }
}

#[test]
fn discarding_the_only_step_ends_the_solve() {
    let catalog = vec![tile(["a", "b", "c"]), tile(["c", "a", "b"])];
    // each tile fits the other one side on, so the options survive the first narrowing
    let mut state = state_for(1, &catalog, 4);
    let mut outcome = StepOutcome::Progressed;
    let mut steps = 0;
    while outcome == StepOutcome::Progressed {
        outcome = iterate_wfc(&mut state);
        steps += 1;
        assert!(steps < 100_000);
    }
    if outcome == StepOutcome::Contradiction {
        assert!(state.steps.is_empty());
        assert!(state.complete);
    } else {
        let assignment = state.read_assignment().unwrap();
        assert!(is_tiling(&state, &assignment));
    }
}

#[test]
fn dead_ends_are_left_behind() {
    let catalog = catalog_with_dead_ends();
    let mut struck = 0;
    for seed in 0..6 {
        let mut state = state_for(1, &catalog, seed);
        let mut outcome = StepOutcome::Progressed;
        let mut steps = 0;
        while outcome == StepOutcome::Progressed {
            let depth = state.steps.len();
            let options = count_options(state.steps.last().unwrap());
            outcome = iterate_wfc(&mut state);
            steps += 1;
            assert!(steps < 10_000);
            if outcome == StepOutcome::Progressed && state.steps.len() == depth {
                // the tile tried led to a dead end, and is struck from the step worked on
                assert_eq!(count_options(state.steps.last().unwrap()), options - 1);
                struck += 1;
            }
        }
        assert_eq!(outcome, StepOutcome::Solved);
        let assignment = state.read_assignment().unwrap();
        assert!(is_tiling(&state, &assignment));
        // no tiling puts one of the two alternating tiles at the upper pole
        for face in 0..5 {
            assert_eq!(assignment[face][0] / 2, 2);
        }
    }
    // two of three tiles of the first face drawn at the pole lead to a dead end
    assert!(struck > 0);
}

#[test]
fn a_catalog_that_only_alternates_is_a_contradiction_in_the_end() {
    // without the third tile, the faces around the upper pole cannot be tiled
    let mut catalog = catalog_with_dead_ends();
    catalog.remove(2);
    for seed in 0..4 {
        let mut state = state_for(1, &catalog, seed);
        assert_eq!(state.steps.len(), 1);
        assert!(state.steps[0].options.iter().flatten().all(|list| !list.is_empty()));
        let outcome = solve(&mut state, 1_000_000);
        assert_eq!(outcome, StepOutcome::Contradiction);
        assert!(state.steps.is_empty());
        assert!(state.complete);
    }
}

#[test]
fn running_to_completion_decides_every_catalog() {
    let solvable = catalog_with_dead_ends();
    let mut unsolvable = catalog_with_dead_ends();
    unsolvable.remove(2);
    for seed in 0..4 {
        let mut state = state_for(1, &solvable, seed);
        assert_eq!(run_to_completion(&mut state), StepOutcome::Solved);
        assert!(state.complete);
        let assignment = state.read_assignment().unwrap();
        assert!(is_tiling(&state, &assignment));
        // an ended solve stays as it is
        assert_eq!(run_to_completion(&mut state), StepOutcome::Solved);
        assert_eq!(state.read_assignment(), Some(assignment));

        let mut state = state_for(1, &unsolvable, seed);
        assert_eq!(run_to_completion(&mut state), StepOutcome::Contradiction);
        assert!(state.complete);
        assert!(state.steps.is_empty());
    }
    let mut state = state_for(2, &Vec::new(), 0);
    assert_eq!(run_to_completion(&mut state), StepOutcome::Contradiction);
}

#[test]
fn running_to_completion_follows_the_steps() {
    let catalog = catalog_with_dead_ends();
    let mut stepwise = state_for(1, &catalog, 21);
    while iterate_wfc(&mut stepwise) == StepOutcome::Progressed {}
    let mut at_once = state_for(1, &catalog, 21);
    run_to_completion(&mut at_once);
    assert_eq!(stepwise.read_assignment(), at_once.read_assignment());
    assert_eq!(stepwise.steps.len(), at_once.steps.len());
}

#[test]
fn steps_only_shrink_while_they_live() {
    let catalog = catalog_with_dead_ends();
    let mut state = state_for(1, &catalog, 17);
    loop {
        let before: Vec<Vec<Vec<Vec<usize>>>> = state
            .steps
            .iter()
            .map(|step| copy_options(&step.options))
            .collect();
        let outcome = iterate_wfc(&mut state);
        for (index, step) in state.steps.iter().enumerate() {
            if index < before.len() {
                for face in 0..20 {
                    let now = &step.options[face][0];
                    assert!(now.len() <= before[index][face][0].len());
                    assert!(now.iter().all(|id| before[index][face][0].contains(id)));
                }
            }
        }
        if outcome != StepOutcome::Progressed {
            break;
        }
    }
}

#[test]
fn the_slot_tried_is_one_with_the_fewest_options() {
    let catalog = catalog_with_dead_ends();
    let mut state = state_for(1, &catalog, 8);
    for _ in 0..5 {
        let ties = coordinates_with_fewest_possibilities(state.steps.last().unwrap());
        let already = state.steps.last().unwrap().chosen;
        match select(&mut state) {
            Selection::Slot(slot) => {
                match already {
                    Some(drawn) => assert_eq!(slot, drawn),
                    None => assert!(ties.contains(&slot)),
                }
                let options = copy_options(&state.steps.last().unwrap().options);
                let depth = state.steps.len();
                assert_eq!(attempt(&mut state, slot), StepOutcome::Progressed);
                if state.steps.len() == depth + 1 {
                    // the tile tried is one of the slot's own
                    let tile = state.steps[depth].options[slot.icoface_id][slot.deltille_id][0];
                    assert!(options[slot.icoface_id][slot.deltille_id].contains(&tile));
                }
            }
            Selection::Ended(_) => break,
        }
    }
}
