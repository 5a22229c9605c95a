//! The options that a solve starts from: for each slot, the tiles of its
//! catalog that the grid lists for it.

use vstd::prelude::*;
use std::collections::HashSet;
use crate::constraints::{grid_options, puzzle_of, strictly_increasing, within, Options, Puzzle};
use crate::icosahedron::Icosahedron;
use crate::net::ICOFACE_COUNT;
use crate::sockets::{Deltille, VerticalOrientation};

verus! {

broadcast use vstd::std_specs::hash::group_hash_axioms;

impl Puzzle {
    /// Whether options are what a solve starts from: each slot holds, in
    /// growing order, the tiles of its catalog that the grid lists for it.
    pub open spec fn seeded(self, options: Options) -> bool {
        &&& self.valid(options)
        &&& forall|face: int, deltille: int, tile: usize|
            self.has_slot(face, deltille) ==> (#[trigger] options[face][deltille].contains(tile)
                <==> tile < self.slot_catalog(face, deltille).len()
                && self.grid[face].slots[deltille].options.contains(tile))
    }
}

/// The tiles below `limit` that a set names, in growing order.
pub fn known_options(listed: &HashSet<usize>, limit: usize) -> (known: Vec<usize>)
    ensures
        strictly_increasing(known@),
        forall|tile: usize| known@.contains(tile) <==> tile < limit && listed@.contains(tile),
{
    let mut known: Vec<usize> = Vec::new();
    let mut tile: usize = 0;
    while tile < limit
        invariant
            tile <= limit,
            strictly_increasing(known@),
            forall|k: int| 0 <= k < known@.len() ==> (#[trigger] known@[k]) < tile,
            forall|other: usize|
                known@.contains(other) <==> other < tile && listed@.contains(other),
        decreases limit - tile,
    {
        if listed.contains(&tile) {
            let ghost before = known@;
            known.push(tile);
            proof {
                assert forall|other: usize|
                    known@.contains(other) <==> other < tile + 1 && listed@.contains(other) by {
                    if known@.contains(other) {
                        let at = choose|at: int| 0 <= at < known@.len() && known@[at] == other;
                        if at < before.len() {
                            assert(before.contains(before[at]));
                        }
                    }
                    if other < tile && listed@.contains(other) {
                        let at = choose|at: int| 0 <= at < before.len() && before[at] == other;
                        assert(known@[at] == other);
                    }
                    if other == tile {
                        assert(known@[before.len() as int] == other);
                    }
                }
            }
        }
        tile += 1;
    }
    known
}

/// The set of the numbers of all tiles of a catalog of the given size: what
/// a grid lists for its slots if they are to start with every tile.
pub fn all_options(count: usize) -> (options: HashSet<usize>)
    ensures
        forall|tile: usize| options@.contains(tile) <==> tile < count,
{
    let mut options: HashSet<usize> = HashSet::new();
    let mut tile: usize = 0;
    while tile < count
        invariant
            tile <= count,
            forall|other: usize| options@.contains(other) <==> other < tile,
        decreases count - tile,
    {
        options.insert(tile);
        tile += 1;
    }
    options
}

/// The options that a solve starts from.
pub fn seed_options(
    icosahedron: &Icosahedron,
    up_options: &Vec<Deltille>,
    down_options: &Vec<Deltille>,
) -> (options: Vec<Vec<Vec<usize>>>)
    ensures
        puzzle_of(*icosahedron, *up_options, *down_options).seeded(grid_options(options)),
{
    let ghost puzzle = puzzle_of(*icosahedron, *up_options, *down_options);
    let mut options: Vec<Vec<Vec<usize>>> = Vec::new();
    let mut icoface_id: usize = 0;
    while icoface_id < ICOFACE_COUNT
        invariant
            icoface_id <= icosahedron.icofaces@.len(),
            puzzle == puzzle_of(*icosahedron, *up_options, *down_options),
            options@.len() == icoface_id,
            forall|face: int|
                0 <= face < icoface_id ==> (#[trigger] options@[face])@.len()
                    == puzzle.grid[face].slots.len(),
            forall|face: int, deltille: int|
                0 <= face < icoface_id && 0 <= deltille < puzzle.grid[face].slots.len()
                    ==> strictly_increasing((#[trigger] options@[face]@[deltille])@),
            forall|face: int, deltille: int, tile: usize|
                0 <= face < icoface_id && 0 <= deltille < puzzle.grid[face].slots.len() ==> (
                #[trigger] options@[face]@[deltille]@.contains(tile) <==> tile < puzzle.slot_catalog(
                    face,
                    deltille,
                ).len() && puzzle.grid[face].slots[deltille].options.contains(tile)),
        decreases icosahedron.icofaces@.len() - icoface_id,
    {
        let icoface = &icosahedron.icofaces[icoface_id];
        let mut lists: Vec<Vec<usize>> = Vec::new();
        let mut deltille_id: usize = 0;
        while deltille_id < icoface.deltille_slots.len()
            invariant
                icoface_id < icosahedron.icofaces@.len(),
                icoface == icosahedron.icofaces@[icoface_id as int],
                puzzle == puzzle_of(*icosahedron, *up_options, *down_options),
                deltille_id <= icoface.deltille_slots@.len(),
                lists@.len() == deltille_id,
                forall|deltille: int|
                    0 <= deltille < deltille_id ==> strictly_increasing(
                        (#[trigger] lists@[deltille])@,
                    ),
                forall|deltille: int, tile: usize|
                    0 <= deltille < deltille_id ==> (#[trigger] lists@[deltille]@.contains(tile)
                        <==> tile < puzzle.slot_catalog(icoface_id as int, deltille).len()
                        && puzzle.grid[icoface_id as int].slots[deltille].options.contains(tile)),
            decreases icoface.deltille_slots@.len() - deltille_id,
        {
            let slot = &icoface.deltille_slots[deltille_id];
            let limit = match slot.orientation {
                VerticalOrientation::Up => up_options.len(),
                VerticalOrientation::Down => down_options.len(),
            };
            lists.push(known_options(&slot.deltille_option_ids, limit));
            deltille_id += 1;
        }
        options.push(lists);
        icoface_id += 1;
    }
    options
}

/// Whether two sets of options allow each slot the same tiles.
pub open spec fn same_tiles(first: Options, second: Options) -> bool {
    within(first, second) && within(second, first)
}

/// Any two sets of options that a solve can start from allow the same tiles.
pub proof fn lemma_seeded_same(puzzle: Puzzle, first: Options, second: Options)
    requires
        puzzle.seeded(first),
        puzzle.seeded(second),
    ensures
        same_tiles(first, second),
{
    assert forall|face: int| 0 <= face < first.len() implies (#[trigger] first[face]).len()
        == second[face].len() by {
        assert(second[face].len() == puzzle.grid[face].slots.len());
    }
    assert forall|face: int| 0 <= face < second.len() implies (#[trigger] second[face]).len()
        == first[face].len() by {
        assert(first[face].len() == puzzle.grid[face].slots.len());
    }
}

impl Puzzle {
    /// Whether no tiling lies within the options that a solve starts from.
    pub open spec fn has_no_tiling(self) -> bool {
        forall|seeds: Options| #[trigger] self.seeded(seeds) ==> self.untileable(seeds)
    }

    /// Whether options are a tiling that gives every slot a tile that the
    /// solve started with for it.
    pub open spec fn solution(self, options: Options) -> bool {
        self.tiling(options) && forall|seeds: Options| #[trigger]
            self.seeded(seeds) ==> within(options, seeds)
    }
}

} // verus!
