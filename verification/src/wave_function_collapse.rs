//! The solver: it keeps, for every slot of the grid, the tiles the slot may
//! still take, and narrows them step by step until every slot has one tile
//! left or no tiling exists.
//!
//! A new solve has one step, which holds for every slot the tiles that the
//! grid lists for it. The first thing the solve does is to narrow that step
//! until it is consistent.
//!
//! The solve works on the top of a stack of steps. At a step it draws, among
//! the slots with the fewest options (but more than one), a slot at random.
//! Then it tries the tiles of that slot, one per call and in random order: the
//! slot is given the tile alone in a copy of the step, and the copy is
//! narrowed until it is consistent. If every slot keeps an option, the copy is
//! pushed as the new step to work on. If not, the tile is struck from the
//! slot. When the slot has no tile left, the step is a dead end: it is
//! discarded, the tile that led to it is struck from the step below, and the
//! solve goes on there. The solve fails when the stack is empty.
//!
//! A solve that ends with a step left has found a tiling, and a solve that
//! fails has shown that there is none. Every solve ends.

use vstd::prelude::*;
use rand::rngs::StdRng;
use crate::constraints::{
    face_total,
    grid_options,
    has_empty,
    has_empty_slot,
    lemma_empty_untileable,
    lemma_face_total_grows,
    lemma_face_total_step,
    lemma_narrowed_transitive,
    lemma_slot_options,
    lemma_total_grows,
    lemma_total_step,
    lemma_valid_within_no_longer,
    lemma_within_reflexive,
    lemma_within_transitive,
    narrow_all,
    puzzle_of,
    settled,
    strictly_increasing,
    total,
    with_slot,
    within,
    Options,
    Puzzle,
};
use crate::icosahedron::{ConstructionError, DeltilleSlotId, Icosahedron};
use crate::progress::{
    effort,
    lemma_effort_back,
    lemma_effort_draw,
    lemma_effort_fresh,
    lemma_effort_push,
    lemma_effort_strike,
};
use crate::random::{choose_from, seeded_rng};
use crate::seeding::{lemma_seeded_same, seed_options};
use crate::selection::{is_fewest, is_open, lemma_none_open_settled, precedes, walked};
use crate::sockets::Deltille;
use crate::stack::{
    attempted,
    backtracked,
    iterated,
    lemma_alone,
    lemma_dead_end_untileable,
    lemma_nested_push,
    lemma_nested_replace,
    lemma_ran_one_more,
    lemma_root_untileable,
    lemma_sound_back,
    lemma_sound_draw,
    lemma_sound_narrow,
    lemma_sound_push,
    lemma_sound_strike,
    lemma_struck,
    lemma_top_within_seeds,
    lemma_within_empty,
    lemma_without,
    moved,
    nested,
    prepared,
    ran,
    sound,
    stepped,
    struck,
    tried,
    without,
    Standing,
};

verus! {

/// One point of the solve: the options of every slot (for each icoface, for
/// each deltille slot, the numbers of the tiles it may still take, in
/// growing order), and the slot that the solve has drawn to go on from here.
pub struct Step {
    pub options: Vec<Vec<Vec<usize>>>,
    /// The slot of this step whose tiles are being tried, once it is drawn.
    pub chosen: Option<DeltilleSlotId>,
}

impl View for Step {
    type V = Options;

    open spec fn view(&self) -> Options {
        grid_options(self.options)
    }
}

impl Step {
    /// How many options the slots of the step hold together, or the
    /// largest number there is if they hold more than that.
    pub fn option_count(&self) -> (count: usize)
        ensures
            count == total(self@) || (count == usize::MAX && total(self@) > usize::MAX),
    {
        let ghost all = self@;
        let mut count: usize = 0;
        let mut icoface_id: usize = 0;
        proof {
            assert(all.subrange(0, 0) =~= Seq::<Seq<Seq<usize>>>::empty());
        }
        while icoface_id < self.options.len()
            invariant
                all == self@,
                icoface_id <= self.options@.len(),
                count == total(all.subrange(0, icoface_id as int)),
            decreases self.options@.len() - icoface_id,
        {
            let ghost lists = all[icoface_id as int];
            let ghost before = count;
            let mut deltille_id: usize = 0;
            proof {
                assert(lists.subrange(0, 0) =~= Seq::<Seq<usize>>::empty());
                lemma_total_step(all, icoface_id as int);
                lemma_total_grows(all, icoface_id + 1);
            }
            while deltille_id < self.options[icoface_id].len()
                invariant
                    all == self@,
                    icoface_id < self.options@.len(),
                    lists == all[icoface_id as int],
                    deltille_id <= self.options@[icoface_id as int]@.len(),
                    count == before + face_total(lists.subrange(0, deltille_id as int)),
                    before + face_total(lists) <= total(all),
                decreases self.options@[icoface_id as int]@.len() - deltille_id,
            {
                proof {
                    lemma_face_total_step(lists, deltille_id as int);
                    lemma_face_total_grows(lists, deltille_id + 1);
                }
                let len = self.options[icoface_id][deltille_id].len();
                if len > usize::MAX - count {
                    return usize::MAX;
                }
                count += len;
                deltille_id += 1;
            }
            proof {
                assert(lists.subrange(0, lists.len() as int) =~= lists);
            }
            icoface_id += 1;
        }
        proof {
            assert(all.subrange(0, all.len() as int) =~= all);
        }
        count
    }
}

/// How a step of the solve ended.
#[derive(Debug, Clone, Copy, PartialEq, Eq, Structural)]
pub enum StepOutcome {
    /// The solve goes on.
    Progressed,
    /// Every slot has exactly one tile left, and the tiles fit.
    Solved,
    /// No step is left to go back to: no tiling exists.
    Contradiction,
}

/// A copy of the options.
pub fn copy_options(options: &Vec<Vec<Vec<usize>>>) -> (copy: Vec<Vec<Vec<usize>>>)
    ensures
        grid_options(copy) == grid_options(*options),
{
    let mut copy: Vec<Vec<Vec<usize>>> = Vec::new();
    let mut icoface_id: usize = 0;
    while icoface_id < options.len()
        invariant
            icoface_id <= options@.len(),
            copy@.len() == icoface_id,
            forall|face: int|
                0 <= face < icoface_id ==> (#[trigger] copy@[face])@.len() == options@[face]@.len(),
            forall|face: int, deltille: int|
                0 <= face < icoface_id && 0 <= deltille < options@[face]@.len() ==> (
                #[trigger] copy@[face]@[deltille])@ == options@[face]@[deltille]@,
        decreases options@.len() - icoface_id,
    {
        let mut lists: Vec<Vec<usize>> = Vec::new();
        let mut deltille_id: usize = 0;
        while deltille_id < options[icoface_id].len()
            invariant
                icoface_id < options@.len(),
                deltille_id <= options@[icoface_id as int]@.len(),
                lists@.len() == deltille_id,
                forall|deltille: int|
                    0 <= deltille < deltille_id ==> (#[trigger] lists@[deltille])@
                        == options@[icoface_id as int]@[deltille]@,
            decreases options@[icoface_id as int]@.len() - deltille_id,
        {
            lists.push(options[icoface_id][deltille_id].clone());
            deltille_id += 1;
        }
        copy.push(lists);
        icoface_id += 1;
    }
    assert(grid_options(copy) =~~= grid_options(*options));
    copy
}

/// Narrows the options of a step until they are consistent: takes away,
/// again and again, every option that no option of a neighbour fits, until
/// none is left to take away. Fails if a slot is left without options.
pub fn propogate_constraints(
    icosahedron: &Icosahedron,
    up_options: &Vec<Deltille>,
    down_options: &Vec<Deltille>,
    step: &mut Step,
) -> (result: Result<(), ()>)
    requires
        icosahedron.wf(),
        puzzle_of(*icosahedron, *up_options, *down_options).valid(old(step)@),
    ensures
        puzzle_of(*icosahedron, *up_options, *down_options).valid(final(step)@),
        puzzle_of(*icosahedron, *up_options, *down_options).narrowed(old(step)@, final(step)@),
        puzzle_of(*icosahedron, *up_options, *down_options).consistent(final(step)@),
        puzzle_of(*icosahedron, *up_options, *down_options).no_longer(old(step)@, final(step)@),
        total(final(step)@) <= total(old(step)@),
        final(step).chosen == old(step).chosen,
        result is Err <==> has_empty(final(step)@),
{
    let ghost puzzle = puzzle_of(*icosahedron, *up_options, *down_options);
    let ghost start = step@;
    proof {
        lemma_within_reflexive(start);
    }
    let mut changed = true;
    while changed
        invariant
            icosahedron.wf(),
            puzzle == puzzle_of(*icosahedron, *up_options, *down_options),
            puzzle.valid(step@),
            puzzle.narrowed(start, step@),
            total(step@) <= total(start),
            step.chosen == old(step).chosen,
            !changed ==> puzzle.consistent(step@),
        decreases total(step@), if changed { 1int } else { 0int },
    {
        let ghost before = step@;
        changed = narrow_all(icosahedron, up_options, down_options, &mut step.options);
        proof {
            lemma_narrowed_transitive(puzzle, start, before, step@);
        }
    }
    proof {
        lemma_valid_within_no_longer(puzzle, step@, start);
    }
    if has_empty_slot(&step.options) {
        Err(())
    } else {
        Ok(())
    }
}

/// The state of a solve: the stack of steps, whose top is the step that
/// the solve works on, with what the solve is about and what it draws from.
pub struct WfcState {
    pub steps: Vec<Step>,
    pub complete: bool,
    pub icosahedron: Icosahedron,
    pub up_options: Vec<Deltille>,
    pub down_options: Vec<Deltille>,
    pub rng: StdRng,
}

impl WfcState {
    /// What the solve is about.
    pub open spec fn puzzle(&self) -> Puzzle {
        puzzle_of(self.icosahedron, self.up_options, self.down_options)
    }

    /// The options of each step, from the first step to the one worked on.
    pub open spec fn stack(&self) -> Seq<Options> {
        Seq::new(self.steps@.len(), |step: int| self.steps@[step]@)
    }

    /// What `try_collapse` needs of the stack: the grid is well formed,
    /// every step holds valid options, and each step lies within the one
    /// below it.
    pub open spec fn stacked(&self) -> bool {
        self.icosahedron.wf() && nested(self.puzzle(), self.stack())
    }

    /// The slot drawn at each step, from the first step to the one worked on.
    pub open spec fn choices(&self) -> Seq<Option<DeltilleSlotId>> {
        Seq::new(self.steps@.len(), |step: int| self.steps@[step].chosen)
    }

    /// Where the solve stands.
    pub open spec fn standing(&self) -> Standing {
        Standing { stack: self.stack(), choices: self.choices(), complete: self.complete }
    }

    /// Whether the top step is ready to have a slot drawn at it: if none is
    /// drawn yet, its options are consistent.
    pub open spec fn ready(&self) -> bool {
        self.stack().len() > 0 && self.choices().last() is None ==> self.puzzle().consistent(
            self.stack().last(),
        )
    }

    /// What holds of the state between steps: the grid is well formed; the
    /// stack is sound; while the solve goes on there is a step to work on; a
    /// step pushed on another is ready; and a solve that ended with a step
    /// left is settled and ready. The first step of a solve need not be
    /// ready while it is the only one: it holds what the solve was started
    /// with, until the solve first works on it.
    pub open spec fn wf(&self) -> bool {
        &&& self.icosahedron.wf()
        &&& sound(self.puzzle(), self.stack(), self.choices())
        &&& !self.complete ==> self.stack().len() > 0
        &&& self.stack().len() > 1 || self.complete ==> self.ready()
        &&& self.complete && self.stack().len() > 0 ==> settled(self.stack().last())
            && self.choices().last() is None
    }

    /// Starts a solve on a grid, with the catalogs for upward and for
    /// downward slots, and with the seed of its random choices. The one
    /// step of the new solve holds for each slot the tiles of its catalog
    /// that the grid lists for it, in growing order, and nothing is drawn at
    /// it. A grid that is not well formed is refused.
    pub fn new(
        icosahedron: Icosahedron,
        up_options: Vec<Deltille>,
        down_options: Vec<Deltille>,
        seed: u64,
    ) -> (result: Result<WfcState, ConstructionError>)
        ensures
            result is Ok <==> icosahedron.wf(),
            result is Err ==> result->Err_0 == ConstructionError::MalformedAdjacency,
            result is Ok ==> {
                let state = result->Ok_0;
                &&& state.wf()
                &&& state.icosahedron == icosahedron
                &&& state.up_options == up_options
                &&& state.down_options == down_options
                &&& !state.complete
                &&& state.stack().len() == 1
                &&& state.choices()[0] is None
                &&& state.puzzle().seeded(state.stack()[0])
            },
    {
        match icosahedron.check_adjacency() {
            Err(error) => {
                return Err(error);
            },
            Ok(()) => {},
        }
        let ghost puzzle = puzzle_of(icosahedron, up_options, down_options);
        let step = Step {
            options: seed_options(&icosahedron, &up_options, &down_options),
            chosen: None,
        };
        let ghost first = step@;
        let mut steps: Vec<Step> = Vec::new();
        steps.push(step);
        let state = WfcState {
            steps,
            complete: false,
            icosahedron,
            up_options,
            down_options,
            rng: seeded_rng(seed),
        };
        proof {
            assert(state.stack()[0] == first);
            assert forall|seeds: Options| #[trigger] puzzle.seeded(seeds) implies within(
                first,
                seeds,
            ) && puzzle.keeps_tilings(seeds, first) by {
                lemma_seeded_same(puzzle, first, seeds);
            }
        }
        Ok(state)
    }
}

/// The slots to choose the next collapse among: the open slots with the
/// fewest options, each once, in the order of the grid. Slots with one
/// option are settled, and are left out.
pub fn coordinates_with_fewest_possibilities(step: &Step) -> (coordinates: Vec<DeltilleSlotId>)
    ensures
        forall|id: DeltilleSlotId|
            coordinates@.contains(id) <==> is_fewest(
                step@,
                id.icoface_id as int,
                id.deltille_id as int,
            ),
        forall|first: int, second: int|
            0 <= first < second < coordinates@.len() ==> precedes(
                coordinates@[first],
                coordinates@[second],
            ),
{
    let ghost all = step@;
    let mut fewest_possibilities_so_far = usize::MAX;
    let mut fewest_possibilities_coordinates: Vec<DeltilleSlotId> = Vec::new();
    let mut icoface_id: usize = 0;
    while icoface_id < step.options.len()
        invariant
            all == step@,
            icoface_id <= step.options@.len(),
            forall|face: int, deltille: int|
                walked(face, deltille, icoface_id as int, 0) && #[trigger] is_open(
                    all,
                    face,
                    deltille,
                ) ==> fewest_possibilities_so_far <= all[face][deltille].len(),
            forall|face: int, deltille: int|
                walked(face, deltille, icoface_id as int, 0) && #[trigger] is_open(
                    all,
                    face,
                    deltille,
                ) && all[face][deltille].len() == fewest_possibilities_so_far
                    ==> fewest_possibilities_coordinates@.contains(
                    DeltilleSlotId { icoface_id: face as usize, deltille_id: deltille as usize },
                ),
            forall|at: int|
                0 <= at < fewest_possibilities_coordinates@.len() ==> {
                    let id = #[trigger] fewest_possibilities_coordinates@[at];
                    &&& walked(id.icoface_id as int, id.deltille_id as int, icoface_id as int, 0)
                    &&& is_open(all, id.icoface_id as int, id.deltille_id as int)
                    &&& all[id.icoface_id as int][id.deltille_id as int].len()
                        == fewest_possibilities_so_far
                },
            forall|first: int, second: int|
                0 <= first < second < fewest_possibilities_coordinates@.len() ==> precedes(
                    fewest_possibilities_coordinates@[first],
                    fewest_possibilities_coordinates@[second],
                ),
            fewest_possibilities_so_far < usize::MAX ==> fewest_possibilities_coordinates@.len() > 0,
        decreases step.options@.len() - icoface_id,
    {
        let mut deltille_id: usize = 0;
        while deltille_id < step.options[icoface_id].len()
            invariant
                fewest_possibilities_so_far < usize::MAX ==> fewest_possibilities_coordinates@.len()
                    > 0,
                all == step@,
                icoface_id < step.options@.len(),
                deltille_id <= step.options@[icoface_id as int]@.len(),
                forall|face: int, deltille: int|
                    walked(face, deltille, icoface_id as int, deltille_id as int)
                        && #[trigger] is_open(all, face, deltille) ==> fewest_possibilities_so_far
                        <= all[face][deltille].len(),
                forall|face: int, deltille: int|
                    walked(face, deltille, icoface_id as int, deltille_id as int)
                        && #[trigger] is_open(all, face, deltille) && all[face][deltille].len()
                        == fewest_possibilities_so_far
                        ==> fewest_possibilities_coordinates@.contains(
                        DeltilleSlotId { icoface_id: face as usize, deltille_id: deltille as usize },
                    ),
                forall|at: int|
                    0 <= at < fewest_possibilities_coordinates@.len() ==> {
                        let id = #[trigger] fewest_possibilities_coordinates@[at];
                        &&& walked(
                            id.icoface_id as int,
                            id.deltille_id as int,
                            icoface_id as int,
                            deltille_id as int,
                        )
                        &&& is_open(all, id.icoface_id as int, id.deltille_id as int)
                        &&& all[id.icoface_id as int][id.deltille_id as int].len()
                            == fewest_possibilities_so_far
                    },
                forall|first: int, second: int|
                    0 <= first < second < fewest_possibilities_coordinates@.len() ==> precedes(
                        fewest_possibilities_coordinates@[first],
                        fewest_possibilities_coordinates@[second],
                    ),
            decreases step.options@[icoface_id as int]@.len() - deltille_id,
        {
            let full_coordinates = DeltilleSlotId { icoface_id, deltille_id };
            let len = step.options[icoface_id][deltille_id].len();
            assert(len == all[icoface_id as int][deltille_id as int].len());
            let ghost before = fewest_possibilities_coordinates@;
            if len > 1 && len < fewest_possibilities_so_far {
                fewest_possibilities_so_far = len;
                fewest_possibilities_coordinates.clear();
                fewest_possibilities_coordinates.push(full_coordinates);
                assert(fewest_possibilities_coordinates@[0] == full_coordinates);
            } else if len > 1 && len == fewest_possibilities_so_far {
                fewest_possibilities_coordinates.push(full_coordinates);
                proof {
                    assert(fewest_possibilities_coordinates@[before.len() as int]
                        == full_coordinates);
                    assert forall|face: int, deltille: int|
                        walked(face, deltille, icoface_id as int, deltille_id + 1)
                            && #[trigger] is_open(all, face, deltille) && all[face][deltille].len()
                            == fewest_possibilities_so_far implies fewest_possibilities_coordinates@.contains(
                        DeltilleSlotId { icoface_id: face as usize, deltille_id: deltille as usize },
                    ) by {
                        let id = DeltilleSlotId {
                            icoface_id: face as usize,
                            deltille_id: deltille as usize,
                        };
                        if walked(face, deltille, icoface_id as int, deltille_id as int) {
                            let at = choose|at: int| 0 <= at < before.len() && before[at] == id;
                            assert(fewest_possibilities_coordinates@[at] == id);
                        }
                    }
                }
            }
            deltille_id += 1;
        }
        icoface_id += 1;
    }
    proof {
        assert forall|id: DeltilleSlotId|
            fewest_possibilities_coordinates@.contains(id) implies is_fewest(
            all,
            id.icoface_id as int,
            id.deltille_id as int,
        ) by {
            let at = choose|at: int|
                0 <= at < fewest_possibilities_coordinates@.len()
                    && fewest_possibilities_coordinates@[at] == id;
            assert(walked(id.icoface_id as int, id.deltille_id as int, icoface_id as int, 0));
        }
        assert forall|id: DeltilleSlotId|
            is_fewest(
                all,
                id.icoface_id as int,
                id.deltille_id as int,
            ) implies fewest_possibilities_coordinates@.contains(id) by {
            let face = id.icoface_id as int;
            let deltille = id.deltille_id as int;
            assert(is_open(all, face, deltille));
            assert(walked(face, deltille, icoface_id as int, 0));
            assert(fewest_possibilities_so_far <= all[face][deltille].len());
            if fewest_possibilities_coordinates@.len() > 0 {
                let best = fewest_possibilities_coordinates@[0];
                assert(is_open(all, best.icoface_id as int, best.deltille_id as int));
                assert(all[face][deltille].len() <= fewest_possibilities_so_far);
            }
            assert(all[face][deltille].len() == step.options@[face]@[deltille].len());
            assert(all[face][deltille].len() == fewest_possibilities_so_far);
            assert(fewest_possibilities_coordinates@.contains(
                DeltilleSlotId { icoface_id: face as usize, deltille_id: deltille as usize },
            ));
            assert(id == DeltilleSlotId { icoface_id: face as usize, deltille_id: deltille as usize });
        }
    }
    fewest_possibilities_coordinates
}

/// A copy of a step in which one slot is given one tile alone.
fn step_with_tile_alone(step: &Step, slot: DeltilleSlotId, tile: usize) -> (trial: Step)
    requires
        0 <= slot.icoface_id < step@.len(),
        0 <= slot.deltille_id < step@[slot.icoface_id as int].len(),
    ensures
        trial@ == with_slot(step@, slot.icoface_id as int, slot.deltille_id as int, seq![tile]),
        trial.chosen is None,
{
    let mut trial = Step { options: copy_options(&step.options), chosen: None };
    let mut single: Vec<usize> = Vec::new();
    single.push(tile);
    assert(single@ =~= seq![tile]);
    trial.options[slot.icoface_id][slot.deltille_id] = single;
    assert(trial@ =~~= with_slot(
        step@,
        slot.icoface_id as int,
        slot.deltille_id as int,
        seq![tile],
    ));
    trial
}

/// Strikes a tile from the options of a slot.
fn strike_option(step: &mut Step, slot: DeltilleSlotId, tile: usize)
    requires
        0 <= slot.icoface_id < old(step)@.len(),
        0 <= slot.deltille_id < old(step)@[slot.icoface_id as int].len(),
        strictly_increasing(old(step)@[slot.icoface_id as int][slot.deltille_id as int]),
        old(step)@[slot.icoface_id as int][slot.deltille_id as int].contains(tile),
    ensures
        final(step)@ == struck(old(step)@, slot, tile),
        final(step).chosen == old(step).chosen,
{
    let ghost before = step@;
    let ghost list = step@[slot.icoface_id as int][slot.deltille_id as int];
    let ghost place = list.index_of(tile);
    assert(list.len() == step.options@[slot.icoface_id as int]@[slot.deltille_id as int].len());
    let mut index: usize = 0;
    while step.options[slot.icoface_id][slot.deltille_id][index] != tile
        invariant
            step@ == before,
            step.chosen == old(step).chosen,
            0 <= slot.icoface_id < step.options@.len(),
            0 <= slot.deltille_id < step.options@[slot.icoface_id as int]@.len(),
            step.options@[slot.icoface_id as int]@[slot.deltille_id as int]@ == list,
            0 <= place < list.len() <= usize::MAX,
            list[place] == tile,
            index <= place,
        decreases place - index,
    {
        index += 1;
    }
    proof {
        lemma_without(list, index as int);
    }
    let _ = step.options[slot.icoface_id][slot.deltille_id].remove(index);
    assert(step@ =~~= struck(before, slot, tile));
}

/// Tries a tile in a slot of the step worked on. The slot is given the tile
/// alone in a copy of the step, and the copy is narrowed until it is
/// consistent. If every slot keeps an option, the copy is pushed as the new
/// step to work on. If not, the tile can be part of no tiling, and is struck
/// from the slot.
pub fn try_collapse(state: &mut WfcState, slot: DeltilleSlotId, tile: usize) -> (pushed: bool)
    requires
        old(state).stacked(),
        old(state).stack().len() > 0,
        old(state).puzzle().has_slot(slot.icoface_id as int, slot.deltille_id as int),
        old(state).stack().last()[slot.icoface_id as int][slot.deltille_id as int].contains(tile),
    ensures
        final(state).stacked(),
        final(state).icosahedron == old(state).icosahedron,
        final(state).up_options == old(state).up_options,
        final(state).down_options == old(state).down_options,
        final(state).complete == old(state).complete,
        final(state).rng == old(state).rng,
        pushed ==> final(state).stack().len() == old(state).stack().len() + 1,
        pushed ==> final(state).stack().drop_last() == old(state).stack(),
        pushed ==> final(state).choices() == old(state).choices().push(None),
        !pushed ==> final(state).choices() == old(state).choices(),
        pushed ==> old(state).puzzle().collapsed_to(
            old(state).stack().last(),
            slot.icoface_id as int,
            slot.deltille_id as int,
            tile,
            final(state).stack().last(),
        ),
        !pushed ==> final(state).stack() == old(state).stack().update(
            old(state).stack().len() - 1,
            struck(old(state).stack().last(), slot, tile),
        ),
        !pushed ==> old(state).puzzle().dead_end(
            with_slot(
                old(state).stack().last(),
                slot.icoface_id as int,
                slot.deltille_id as int,
                seq![tile],
            ),
        ),
{
    let ghost puzzle = state.puzzle();
    let ghost stack = state.stack();
    let ghost top = stack.last();
    let ghost face = slot.icoface_id as int;
    let ghost deltille = slot.deltille_id as int;
    let ghost alone = with_slot(top, face, deltille, seq![tile]);
    let top_index = state.steps.len() - 1;
    proof {
        assert(stack[top_index as int] == top);
        assert(puzzle.valid(top));
        assert(top[face].len() == puzzle.grid[face].slots.len());
        lemma_alone(puzzle, top, face, deltille, tile);
    }
    let mut trial = step_with_tile_alone(&state.steps[top_index], slot, tile);
    let result = propogate_constraints(
        &state.icosahedron,
        &state.up_options,
        &state.down_options,
        &mut trial,
    );
    match result {
        Ok(()) => {
            let ghost next = trial@;
            state.steps.push(trial);
            proof {
                assert(state.stack() =~= stack.push(next));
                assert(state.stack().drop_last() =~= stack);
                assert(state.choices() =~= old(state).choices().push(None));
                lemma_nested_push(puzzle, stack, next);
            }
            true
        },
        Err(()) => {
            proof {
                assert forall|other: Options| #[trigger]
                    within(other, alone) && puzzle.consistent(other) implies has_empty(other) by {
                    lemma_within_empty(other, trial@);
                }
            }
            strike_option(&mut state.steps[top_index], slot, tile);
            proof {
                let list = top[face][deltille];
                let less = struck(top, slot, tile);
                let index = choose|index: int| 0 <= index < list.len() && list[index] == tile;
                lemma_without(list, index);
                lemma_struck(puzzle, top, face, deltille, index);
                assert(state.stack() =~= stack.update(stack.len() - 1, less));
                assert(state.choices() =~= old(state).choices());
                lemma_nested_replace(puzzle, stack, less);
            }
            false
        },
    }
}

/// Discards the step worked on, which has a slot without options and so
/// has proved a dead end. The tile that led to it is struck from the slot
/// drawn at the step below, so that the solve cannot take the same step
/// again. If no step is left, the solve has ended: no tiling exists.
pub fn backtrack(state: &mut WfcState) -> (outcome: StepOutcome)
    requires
        old(state).wf(),
        !old(state).complete,
        has_empty(old(state).stack().last()),
    ensures
        final(state).wf(),
        final(state).icosahedron == old(state).icosahedron,
        final(state).up_options == old(state).up_options,
        final(state).down_options == old(state).down_options,
        final(state).rng == old(state).rng,
        final(state).stack() == backtracked(old(state).stack(), old(state).choices()),
        final(state).choices() == old(state).choices().drop_last(),
        forall|step: int|
            0 <= step < old(state).stack().len() && step < final(state).stack().len() ==> within(
                #[trigger] final(state).stack()[step],
                old(state).stack()[step],
            ),
        outcome == StepOutcome::Progressed <==> !final(state).complete,
        outcome == StepOutcome::Contradiction <==> final(state).complete && final(state).stack().len()
            == 0,
        outcome != StepOutcome::Solved,
        outcome == StepOutcome::Contradiction ==> old(state).puzzle().has_no_tiling(),
        outcome == StepOutcome::Progressed ==> effort(
            old(state).puzzle(),
            final(state).stack(),
            final(state).choices(),
        ) < effort(old(state).puzzle(), old(state).stack(), old(state).choices()),
{
    let ghost puzzle = state.puzzle();
    let ghost stack = state.stack();
    let ghost choices = state.choices();
    proof {
        lemma_empty_untileable(puzzle, stack.last());
    }
    let discarded = state.steps.pop();
    proof {
        assert(state.stack() =~= stack.drop_last());
        assert(state.choices() =~= choices.drop_last());
    }
    if state.steps.len() == 0 {
        state.complete = true;
        proof {
            assert(state.stack() =~= backtracked(stack, choices));
            lemma_root_untileable(puzzle, stack);
        }
        return StepOutcome::Contradiction;
    }
    let below_index = state.steps.len() - 1;
    proof {
        lemma_sound_back(puzzle, stack, choices);
        lemma_effort_back(puzzle, stack, choices);
        assert(state.stack()[below_index as int] == stack[below_index as int]);
        assert(choices[below_index as int] == state.steps@[below_index as int].chosen);
    }
    match (discarded, state.steps[below_index].chosen) {
        (Some(dead), Some(slot)) => {
            proof {
                assert(dead@ == stack.last());
                lemma_slot_options(
                    puzzle,
                    dead.options,
                    slot.icoface_id as int,
                    slot.deltille_id as int,
                );
            }
            let tile = dead.options[slot.icoface_id][slot.deltille_id][0];
            strike_option(&mut state.steps[below_index], slot, tile);
            proof {
                assert(state.stack() =~= backtracked(stack, choices));
                assert(state.choices() =~= choices.drop_last());
            }
            StepOutcome::Progressed
        },
        _ => {
            proof {
                assert(false);
            }
            StepOutcome::Progressed
        },
    }
}

/// Whether the solve has not ended yet.
pub fn not_yet_complete(state: &WfcState) -> (going: bool)
    ensures
        going == !state.complete,
{
    !state.complete
}

/// What is left to do at a step, once it is known where the solve stands.
#[derive(Debug, Clone, Copy, PartialEq, Eq, Structural)]
pub enum Selection {
    /// The tiles of this slot are to be tried.
    Slot(DeltilleSlotId),
    /// The solve has ended.
    Ended(StepOutcome),
}

/// Finds where a solve stands whose top step is ready. At a step at which
/// a slot is drawn already, the solve goes on with that slot. Else a step
/// with a slot that has no option left is a dead end by itself, and the
/// solve is given up; a step whose slots all have one option is the
/// solution; and otherwise one of the open slots with the fewest options is
/// drawn.
#[verifier::rlimit(30)]
fn select_ready(state: &mut WfcState) -> (selection: Selection)
    requires
        old(state).wf(),
        old(state).ready(),
        !old(state).complete,
    ensures
        final(state).wf(),
        final(state).icosahedron == old(state).icosahedron,
        final(state).up_options == old(state).up_options,
        final(state).down_options == old(state).down_options,
        forall|step: int|
            0 <= step < old(state).stack().len() && step < final(state).stack().len() ==> within(
                #[trigger] final(state).stack()[step],
                old(state).stack()[step],
            ),
        selection matches Selection::Slot(slot) ==> {
            &&& effort(old(state).puzzle(), final(state).stack(), final(state).choices())
                <= effort(old(state).puzzle(), old(state).stack(), old(state).choices())
            &&& !final(state).complete
            &&& final(state).stack() == old(state).stack()
            &&& final(state).choices() == old(state).choices().update(
                old(state).stack().len() - 1,
                Some(slot),
            )
            &&& old(state).choices().last() is Some ==> old(state).choices().last() == Some(slot)
            &&& old(state).choices().last() is None ==> !has_empty(old(state).stack().last())
                && is_fewest(
                old(state).stack().last(),
                slot.icoface_id as int,
                slot.deltille_id as int,
            )
        },
        selection matches Selection::Ended(outcome) ==> {
            &&& final(state).complete
            &&& old(state).choices().last() is None
            &&& outcome != StepOutcome::Progressed
            &&& outcome == StepOutcome::Contradiction <==> has_empty(old(state).stack().last())
            &&& outcome == StepOutcome::Contradiction ==> final(state).stack().len() == 0
                && old(state).puzzle().has_no_tiling()
            &&& outcome == StepOutcome::Solved ==> {
                &&& settled(old(state).stack().last())
                &&& final(state).stack() == old(state).stack()
                &&& final(state).choices() == old(state).choices()
            }
        },
{
    let ghost puzzle = state.puzzle();
    let ghost stack = state.stack();
    let ghost choices = state.choices();
    let top_index = state.steps.len() - 1;
    let ghost top = stack.last();
    assert(stack[top_index as int] == top);
    assert(choices[top_index as int] == choices.last());
    proof {
        assert forall|step: int| 0 <= step < stack.len() implies within(
            #[trigger] stack[step],
            stack[step],
        ) by {
            lemma_within_reflexive(stack[step]);
        }
    }
    match state.steps[top_index].chosen {
        Some(chosen_deltille) => {
            assert(choices =~= choices.update(top_index as int, Some(chosen_deltille)));
            Selection::Slot(chosen_deltille)
        },
        None => {
            if has_empty_slot(&state.steps[top_index].options) {
                proof {
                    lemma_empty_untileable(puzzle, top);
                    lemma_root_untileable(puzzle, stack);
                }
                state.steps.clear();
                state.complete = true;
                proof {
                    assert(state.stack() =~= Seq::<Options>::empty());
                    assert(state.choices() =~= Seq::<Option<DeltilleSlotId>>::empty());
                }
                return Selection::Ended(StepOutcome::Contradiction);
            }
            let deltille_coordinate_options = coordinates_with_fewest_possibilities(
                &state.steps[top_index],
            );
            let deltille_coordinate_choice = choose_from(
                &mut state.rng,
                &deltille_coordinate_options,
            );
            match deltille_coordinate_choice {
                Some(chosen_deltille) => {
                    state.steps[top_index].chosen = Some(chosen_deltille);
                    proof {
                        let face = chosen_deltille.icoface_id as int;
                        let deltille = chosen_deltille.deltille_id as int;
                        assert(is_fewest(top, face, deltille));
                        assert(state.stack() =~= stack);
                        assert(state.choices() =~= choices.update(
                            top_index as int,
                            Some(chosen_deltille),
                        ));
                        assert(puzzle.valid(top));
                        assert(top[face].len() == puzzle.grid[face].slots.len());
                        lemma_sound_draw(puzzle, stack, choices, chosen_deltille);
                        lemma_effort_draw(puzzle, stack, choices, chosen_deltille);
                    }
                    Selection::Slot(chosen_deltille)
                },
                None => {
                    proof {
                        assert forall|face: int, deltille: int| !is_fewest(top, face, deltille) by {
                            if is_fewest(top, face, deltille) {
                                let id = DeltilleSlotId {
                                    icoface_id: face as usize,
                                    deltille_id: deltille as usize,
                                };
                                assert(top.len() == state.steps@[top_index as int].options@.len());
                                assert(top[face].len()
                                    == state.steps@[top_index as int].options@[face].len());
                                assert(top[face][deltille].len()
                                    == state.steps@[top_index as int].options@[face]@[deltille].len());
                                assert(deltille_coordinate_options@.contains(id));
                            }
                        }
                        lemma_none_open_settled(top);
                    }
                    state.complete = true;
                    proof {
                        assert(state.stack() =~= stack);
                        assert(state.choices() =~= choices);
                    }
                    Selection::Ended(StepOutcome::Solved)
                },
            }
        },
    }
}

/// Narrows the first step of a solve until it is consistent, before the
/// solve first works on it.
fn narrow_first_step(state: &mut WfcState)
    requires
        old(state).wf(),
        !old(state).complete,
        old(state).stack().len() == 1,
        old(state).choices().last() is None,
    ensures
        final(state).wf(),
        final(state).ready(),
        final(state).icosahedron == old(state).icosahedron,
        final(state).up_options == old(state).up_options,
        final(state).down_options == old(state).down_options,
        final(state).rng == old(state).rng,
        !final(state).complete,
        final(state).choices() == old(state).choices(),
        prepared(old(state).puzzle(), old(state).stack(), old(state).choices(), final(state).stack()),
        within(final(state).stack()[0], old(state).stack()[0]),
        total(final(state).stack()[0]) <= total(old(state).stack()[0]),
        effort(old(state).puzzle(), final(state).stack(), final(state).choices()) == effort(
            old(state).puzzle(),
            old(state).stack(),
            old(state).choices(),
        ),
{
    let ghost puzzle = state.puzzle();
    let ghost stack = state.stack();
    let ghost choices = state.choices();
    proof {
        assert(puzzle.valid(stack[0]));
    }
    let _ = propogate_constraints(
        &state.icosahedron,
        &state.up_options,
        &state.down_options,
        &mut state.steps[0],
    );
    proof {
        let first = state.stack()[0];
        assert(state.stack() =~= stack.update(0, first));
        assert(state.choices() =~= choices);
        lemma_sound_narrow(puzzle, stack, choices, first);
        lemma_effort_fresh(puzzle, stack, state.stack(), choices);
    }
}

/// Finds where the solve stands. The first time the solve works on its
/// first step, it narrows the step until it is consistent. At a step at
/// which a slot is drawn already, the solve goes on with that slot. Else a
/// step with a slot that has no option left is a dead end by itself, and the
/// solve is given up; a step whose slots all have one option is the
/// solution; and otherwise one of the open slots with the fewest options is
/// drawn.
pub fn select(state: &mut WfcState) -> (selection: Selection)
    requires
        old(state).wf(),
        !old(state).complete,
    ensures
        final(state).wf(),
        final(state).icosahedron == old(state).icosahedron,
        final(state).up_options == old(state).up_options,
        final(state).down_options == old(state).down_options,
        forall|step: int|
            0 <= step < old(state).stack().len() && step < final(state).stack().len() ==> within(
                #[trigger] final(state).stack()[step],
                old(state).stack()[step],
            ),
        selection matches Selection::Slot(slot) ==> {
            &&& effort(old(state).puzzle(), final(state).stack(), final(state).choices())
                <= effort(old(state).puzzle(), old(state).stack(), old(state).choices())
            &&& !final(state).complete
            &&& prepared(
                old(state).puzzle(),
                old(state).stack(),
                old(state).choices(),
                final(state).stack(),
            )
            &&& final(state).choices() == old(state).choices().update(
                old(state).stack().len() - 1,
                Some(slot),
            )
            &&& old(state).choices().last() is Some ==> old(state).choices().last() == Some(slot)
            &&& old(state).choices().last() is None ==> {
                &&& !has_empty(final(state).stack().last())
                &&& is_fewest(
                    final(state).stack().last(),
                    slot.icoface_id as int,
                    slot.deltille_id as int,
                )
                &&& final(state).puzzle().consistent(final(state).stack().last())
                &&& total(final(state).stack().last()) <= total(old(state).stack().last())
            }
        },
        selection matches Selection::Ended(outcome) ==> {
            &&& final(state).complete
            &&& old(state).choices().last() is None
            &&& outcome != StepOutcome::Progressed
            &&& stepped(
                old(state).puzzle(),
                old(state).stack(),
                old(state).choices(),
                final(state).stack(),
                final(state).choices(),
                outcome,
            )
            &&& outcome == StepOutcome::Contradiction ==> final(state).stack().len() == 0
                && old(state).puzzle().has_no_tiling()
            &&& outcome == StepOutcome::Solved ==> {
                &&& prepared(
                    old(state).puzzle(),
                    old(state).stack(),
                    old(state).choices(),
                    final(state).stack(),
                )
                &&& settled(final(state).stack().last())
                &&& final(state).choices() == old(state).choices()
            }
        },
        old(state).choices().last() is None && old(state).puzzle().carefree(
            old(state).stack().last(),
        ) ==> {
            &&& selection != Selection::Ended(StepOutcome::Contradiction)
            &&& final(state).puzzle().carefree(final(state).stack().last())
        },
{
    let ghost puzzle = state.puzzle();
    let ghost stack = state.stack();
    let ghost choices = state.choices();
    proof {
        assert(choices[stack.len() - 1] == state.steps@[stack.len() - 1].chosen);
        assert forall|step: int| 0 <= step < stack.len() implies within(
            #[trigger] stack[step],
            stack[step],
        ) by {
            lemma_within_reflexive(stack[step]);
        }
    }
    let first_time = state.steps.len() == 1 && match state.steps[0].chosen {
        Some(_) => false,
        None => true,
    };
    if first_time {
        narrow_first_step(state);
    }
    let ghost ready = state.stack();
    proof {
        assert(prepared(puzzle, stack, choices, ready));
        assert(state.choices() == choices);
        if choices.last() is None && puzzle.carefree(stack.last()) && first_time {
            crate::uniform::lemma_narrowed_carefree(puzzle, stack[0], ready[0]);
        }
    }
    let selection = select_ready(state);
    proof {
        match selection {
            Selection::Slot(slot) => {},
            Selection::Ended(outcome) => {
                assert(moved(puzzle, ready, choices, state.stack(), state.choices(), outcome));
            },
        }
    }
    selection
}

/// Tries one of the tiles of the slot drawn at the step worked on. If the
/// slot has none left, the step is discarded.
pub fn attempt(state: &mut WfcState, slot: DeltilleSlotId) -> (outcome: StepOutcome)
    requires
        old(state).wf(),
        !old(state).complete,
        old(state).choices().last() == Some(slot),
    ensures
        final(state).wf(),
        final(state).icosahedron == old(state).icosahedron,
        final(state).up_options == old(state).up_options,
        final(state).down_options == old(state).down_options,
        outcome == StepOutcome::Progressed <==> !final(state).complete,
        outcome == StepOutcome::Contradiction <==> final(state).complete && final(state).stack().len()
            == 0,
        outcome != StepOutcome::Solved,
        outcome == StepOutcome::Contradiction ==> old(state).puzzle().has_no_tiling(),
        outcome == StepOutcome::Progressed ==> effort(
            old(state).puzzle(),
            final(state).stack(),
            final(state).choices(),
        ) < effort(old(state).puzzle(), old(state).stack(), old(state).choices()),
        attempted(
            old(state).puzzle(),
            old(state).stack(),
            old(state).choices(),
            slot,
            final(state).stack(),
            final(state).choices(),
            outcome,
        ),
        forall|step: int|
            0 <= step < old(state).stack().len() && step < final(state).stack().len() ==> within(
                #[trigger] final(state).stack()[step],
                old(state).stack()[step],
            ),
        old(state).puzzle().carefree(old(state).stack().last()) && is_open(
            old(state).stack().last(),
            slot.icoface_id as int,
            slot.deltille_id as int,
        ) ==> {
            &&& outcome == StepOutcome::Progressed
            &&& final(state).stack().len() == old(state).stack().len() + 1
            &&& final(state).choices().last() is None
            &&& final(state).puzzle().carefree(final(state).stack().last())
            &&& total(final(state).stack().last()) < total(old(state).stack().last())
        },
{
    let ghost puzzle = state.puzzle();
    let ghost stack = state.stack();
    let ghost choices = state.choices();
    let top_index = state.steps.len() - 1;
    let ghost top = stack.last();
    let ghost face = slot.icoface_id as int;
    let ghost deltille = slot.deltille_id as int;
    proof {
        assert(stack[top_index as int] == top);
        assert(choices[top_index as int] == choices.last());
        assert(puzzle.has_slot(face, deltille));
        assert(puzzle.valid(top));
        lemma_slot_options(puzzle, state.steps@[top_index as int].options, face, deltille);
    }
    let tile_choice = choose_from(
        &mut state.rng,
        &state.steps[top_index].options[slot.icoface_id][slot.deltille_id],
    );
    match tile_choice {
        Some(tile) => {
            let pushed = try_collapse(state, slot, tile);
            proof {
                if pushed {
                    let next = state.stack().last();
                    assert(state.stack() =~= stack.push(next));
                    lemma_sound_push(puzzle, stack, choices, slot, tile, next);
                    lemma_effort_push(puzzle, stack, choices, slot, tile, next);
                    assert forall|step: int|
                        0 <= step < stack.len() && step < state.stack().len() implies within(
                        #[trigger] state.stack()[step],
                        stack[step],
                    ) by {
                        lemma_within_reflexive(stack[step]);
                    }
                } else {
                    lemma_dead_end_untileable(
                        puzzle,
                        with_slot(top, face, deltille, seq![tile]),
                    );
                    lemma_sound_strike(puzzle, stack, choices, slot, tile);
                    lemma_effort_strike(puzzle, stack, choices, slot, tile);
                    assert forall|step: int|
                        0 <= step < stack.len() && step < state.stack().len() implies within(
                        #[trigger] state.stack()[step],
                        stack[step],
                    ) by {
                        if step < stack.len() - 1 {
                            lemma_within_reflexive(stack[step]);
                        }
                    }
                    if puzzle.carefree(top) {
                        crate::uniform::lemma_left_after_consistent(
                            puzzle,
                            top,
                            face,
                            deltille,
                            tile,
                        );
                        let left = puzzle.left_after(top, face, deltille, tile);
                        assert(within(left, with_slot(top, face, deltille, seq![tile])));
                        assert(false);
                    }
                }
            }
            StepOutcome::Progressed
        },
        None => {
            proof {
                assert(top[face].len() == puzzle.grid[face].slots.len());
                assert(top[face][deltille].len() == 0);
            }
            backtrack(state)
        },
    }
}

/// One step of the solve.
///
/// A solve that has ended stays as it is. Otherwise the step finds where
/// the solve stands (narrowing the first step of the solve, the first time
/// it works on it), and unless the solve has ended there, tries one tile of
/// the slot drawn.
pub fn iterate_wfc(state: &mut WfcState) -> (outcome: StepOutcome)
    requires
        old(state).wf(),
    ensures
        final(state).wf(),
        final(state).icosahedron == old(state).icosahedron,
        final(state).up_options == old(state).up_options,
        final(state).down_options == old(state).down_options,
        outcome == StepOutcome::Progressed <==> !final(state).complete,
        outcome == StepOutcome::Contradiction <==> final(state).complete && final(state).stack().len()
            == 0,
        outcome == StepOutcome::Solved ==> final(state).stack().len() > 0
            && final(state).puzzle().solution(final(state).stack().last()),
        outcome == StepOutcome::Contradiction && !old(state).complete
            ==> old(state).puzzle().has_no_tiling(),
        old(state).complete ==> final(state).stack() == old(state).stack() && final(state).choices()
            == old(state).choices(),
        iterated(old(state).puzzle(), old(state).standing(), final(state).standing(), outcome),
        outcome == StepOutcome::Progressed ==> effort(
            old(state).puzzle(),
            final(state).stack(),
            final(state).choices(),
        ) < effort(old(state).puzzle(), old(state).stack(), old(state).choices()),
        forall|step: int|
            0 <= step < old(state).stack().len() && step < final(state).stack().len() ==> within(
                #[trigger] final(state).stack()[step],
                old(state).stack()[step],
            ),
        !old(state).complete && old(state).choices().last() is None && old(state).puzzle().carefree(
            old(state).stack().last(),
        ) ==> {
            &&& outcome != StepOutcome::Contradiction
            &&& final(state).choices().last() is None
            &&& final(state).puzzle().carefree(final(state).stack().last())
            &&& outcome == StepOutcome::Progressed ==> {
                &&& final(state).stack().len() == old(state).stack().len() + 1
                &&& total(final(state).stack().last()) < total(old(state).stack().last())
            }
        },
{
    proof {
        assert forall|step: int| 0 <= step < old(state).stack().len() implies within(
            #[trigger] old(state).stack()[step],
            old(state).stack()[step],
        ) by {
            lemma_within_reflexive(old(state).stack()[step]);
        }
    }
    proof {
        if state.stack().len() > 0 {
            assert forall|seeds: Options| #[trigger] state.puzzle().seeded(seeds) implies within(
                state.stack().last(),
                seeds,
            ) by {
                lemma_top_within_seeds(state.puzzle(), state.stack(), seeds);
            }
        }
    }
    if state.complete {
        return if state.steps.len() > 0 {
            StepOutcome::Solved
        } else {
            StepOutcome::Contradiction
        };
    }
    let ghost puzzle = state.puzzle();
    let ghost stack = state.stack();
    let ghost choices = state.choices();
    match select(state) {
        Selection::Ended(outcome) => outcome,
        Selection::Slot(chosen_deltille) => {
            let ghost marked = state.choices();
            let ghost between = state.stack();
            let outcome = attempt(state, chosen_deltille);
            proof {
                assert forall|step: int|
                    0 <= step < stack.len() && step < state.stack().len() implies within(
                    #[trigger] state.stack()[step],
                    stack[step],
                ) by {
                    assert(within(state.stack()[step], between[step]));
                    assert(within(between[step], stack[step]));
                    lemma_within_transitive(state.stack()[step], between[step], stack[step]);
                }
                assert(backtracked(between, marked) == backtracked(between, choices));
                assert(tried(
                    puzzle,
                    between,
                    choices,
                    chosen_deltille,
                    state.stack(),
                    state.choices(),
                    outcome,
                ));
                assert(prepared(puzzle, stack, choices, between) && moved(
                    puzzle,
                    between,
                    choices,
                    state.stack(),
                    state.choices(),
                    outcome,
                ));
            }
            outcome
        },
    }
}

/// Runs the solve until it ends, or until `max_steps` steps were taken.
///
/// With tiles of one label each, a solve whose step is consistent and
/// leaves every slot an option cannot fail, whatever is drawn: it is solved
/// after at most as many steps as the step holds options.
pub fn solve(state: &mut WfcState, max_steps: usize) -> (outcome: StepOutcome)
    requires
        old(state).wf(),
    ensures
        final(state).wf(),
        final(state).icosahedron == old(state).icosahedron,
        final(state).up_options == old(state).up_options,
        final(state).down_options == old(state).down_options,
        outcome == StepOutcome::Progressed <==> !final(state).complete,
        outcome == StepOutcome::Contradiction <==> final(state).complete && final(state).stack().len()
            == 0,
        outcome == StepOutcome::Solved ==> final(state).stack().len() > 0
            && final(state).puzzle().solution(final(state).stack().last()),
        outcome == StepOutcome::Contradiction && !old(state).complete
            ==> old(state).puzzle().has_no_tiling(),
        exists|steps: nat|
            steps <= max_steps && (steps == max_steps || final(state).complete) && #[trigger] ran(
                old(state).puzzle(),
                old(state).standing(),
                steps,
                final(state).standing(),
            ),
        !old(state).complete && old(state).choices().last() is None && old(state).puzzle().carefree(
            old(state).stack().last(),
        ) && max_steps > total(old(state).stack().last()) ==> outcome == StepOutcome::Solved,
{
    let ghost puzzle = state.puzzle();
    let ghost stack = state.stack();
    let ghost carefree = !state.complete && state.choices().last() is None && puzzle.carefree(
        stack.last(),
    ) && max_steps > total(stack.last());
    proof {
        if state.stack().len() > 0 {
            assert forall|seeds: Options| #[trigger] puzzle.seeded(seeds) implies within(
                stack.last(),
                seeds,
            ) by {
                lemma_top_within_seeds(puzzle, stack, seeds);
            }
        }
    }
    let mut outcome = if !state.complete {
        StepOutcome::Progressed
    } else if state.steps.len() > 0 {
        StepOutcome::Solved
    } else {
        StepOutcome::Contradiction
    };
    let mut steps_left = max_steps;
    let ghost start = state.standing();
    let ghost taken: nat = 0;
    while steps_left > 0 && outcome == StepOutcome::Progressed
        invariant
            taken + steps_left == max_steps,
            start == old(state).standing(),
            ran(puzzle, start, taken, state.standing()),
            state.wf(),
            state.puzzle() == puzzle,
            state.icosahedron == old(state).icosahedron,
            state.up_options == old(state).up_options,
            state.down_options == old(state).down_options,
            outcome == StepOutcome::Progressed <==> !state.complete,
            outcome == StepOutcome::Contradiction <==> state.complete && state.stack().len() == 0,
            outcome == StepOutcome::Solved ==> state.stack().len() > 0 && puzzle.solution(
                state.stack().last(),
            ),
            outcome == StepOutcome::Contradiction && !old(state).complete
                ==> puzzle.has_no_tiling(),
            carefree ==> outcome == StepOutcome::Solved || (outcome == StepOutcome::Progressed
                && state.choices().last() is None && puzzle.carefree(state.stack().last())
                && steps_left > total(state.stack().last())),
        decreases steps_left,
    {
        let ghost before = state.standing();
        outcome = iterate_wfc(state);
        steps_left -= 1;
        proof {
            lemma_ran_one_more(puzzle, start, taken, before, state.standing(), outcome);
            taken = taken + 1;
        }
    }
    outcome
}

/// Runs the solve until it ends. It does end: every step leaves less to try.
pub fn run_to_completion(state: &mut WfcState) -> (outcome: StepOutcome)
    requires
        old(state).wf(),
    ensures
        final(state).wf(),
        final(state).icosahedron == old(state).icosahedron,
        final(state).up_options == old(state).up_options,
        final(state).down_options == old(state).down_options,
        final(state).complete,
        outcome != StepOutcome::Progressed,
        outcome == StepOutcome::Contradiction <==> final(state).stack().len() == 0,
        outcome == StepOutcome::Solved ==> final(state).puzzle().solution(
            final(state).stack().last(),
        ),
        outcome == StepOutcome::Contradiction && !old(state).complete
            ==> old(state).puzzle().has_no_tiling(),
        exists|steps: nat| #[trigger]
            ran(old(state).puzzle(), old(state).standing(), steps, final(state).standing()),
{
    let ghost puzzle = state.puzzle();
    let ghost start = state.standing();
    let ghost taken: nat = 0;
    proof {
        if state.stack().len() > 0 {
            assert forall|seeds: Options| #[trigger] puzzle.seeded(seeds) implies within(
                state.stack().last(),
                seeds,
            ) by {
                lemma_top_within_seeds(puzzle, state.stack(), seeds);
            }
        }
    }
    let mut outcome = if !state.complete {
        StepOutcome::Progressed
    } else if state.steps.len() > 0 {
        StepOutcome::Solved
    } else {
        StepOutcome::Contradiction
    };
    while outcome == StepOutcome::Progressed
        invariant
            start == old(state).standing(),
            ran(puzzle, start, taken, state.standing()),
            state.wf(),
            state.puzzle() == puzzle,
            state.icosahedron == old(state).icosahedron,
            state.up_options == old(state).up_options,
            state.down_options == old(state).down_options,
            outcome == StepOutcome::Progressed <==> !state.complete,
            outcome == StepOutcome::Contradiction <==> state.complete && state.stack().len() == 0,
            outcome == StepOutcome::Solved ==> state.stack().len() > 0 && puzzle.solution(
                state.stack().last(),
            ),
            outcome == StepOutcome::Contradiction && !old(state).complete
                ==> puzzle.has_no_tiling(),
        decreases
                if outcome == StepOutcome::Progressed {
                    effort(puzzle, state.stack(), state.choices()) + 1
                } else {
                    0
                },
    {
        let ghost before = state.standing();
        outcome = iterate_wfc(state);
        proof {
            lemma_ran_one_more(puzzle, start, taken, before, state.standing(), outcome);
            taken = taken + 1;
        }
    }
    outcome
}

impl WfcState {
    /// The tile of each slot, once the solve has ended with a tiling: for
    /// each icoface, for each deltille slot, the number of its tile in the
    /// catalog of the slot's orientation.
    pub fn read_assignment(&self) -> (assignment: Option<Vec<Vec<usize>>>)
        requires
            self.wf(),
        ensures
            assignment is Some <==> self.complete && self.stack().len() > 0,
            assignment is Some ==> is_assignment(self.stack().last(), assignment->Some_0),
    {
        if !self.complete || self.steps.len() == 0 {
            return None;
        }
        let top_index = self.steps.len() - 1;
        let step = &self.steps[top_index];
        let ghost top = self.stack().last();
        assert(self.stack()[top_index as int] == top);
        let mut assignment: Vec<Vec<usize>> = Vec::new();
        let mut icoface_id: usize = 0;
        while icoface_id < step.options.len()
            invariant
                step@ == top,
                settled(top),
                icoface_id <= step.options@.len(),
                assignment@.len() == icoface_id,
                forall|face: int|
                    0 <= face < icoface_id ==> (#[trigger] assignment@[face])@.len() == top[face].len(),
                forall|face: int, deltille: int|
                    0 <= face < icoface_id && 0 <= deltille < top[face].len() ==> (
                    #[trigger] assignment@[face]@[deltille]) == top[face][deltille][0],
            decreases step.options@.len() - icoface_id,
        {
            let mut tiles: Vec<usize> = Vec::new();
            let mut deltille_id: usize = 0;
            while deltille_id < step.options[icoface_id].len()
                invariant
                    step@ == top,
                    settled(top),
                    icoface_id < step.options@.len(),
                    deltille_id <= step.options@[icoface_id as int]@.len(),
                    tiles@.len() == deltille_id,
                    forall|deltille: int|
                        0 <= deltille < deltille_id ==> (#[trigger] tiles@[deltille])
                            == top[icoface_id as int][deltille][0],
                decreases step.options@[icoface_id as int]@.len() - deltille_id,
            {
                assert(top[icoface_id as int][deltille_id as int].len() == 1);
                tiles.push(step.options[icoface_id][deltille_id][0]);
                deltille_id += 1;
            }
            assignment.push(tiles);
            icoface_id += 1;
        }
        Some(assignment)
    }
}

/// Whether an assignment names, for every slot, the first option of the slot.
pub open spec fn is_assignment(options: Options, assignment: Vec<Vec<usize>>) -> bool {
    &&& assignment@.len() == options.len()
    &&& forall|face: int|
        0 <= face < options.len() ==> (#[trigger] assignment@[face])@.len() == options[face].len()
    &&& forall|face: int, deltille: int|
        0 <= face < options.len() && 0 <= deltille < options[face].len() ==> (
        #[trigger] assignment@[face]@[deltille]) == options[face][deltille][0]
}

/// Settled consistent options are a tiling: across every side of every
/// slot, the one tile of the slot and the one tile of its neighbour fit.
pub proof fn lemma_settled_is_tiling(
    puzzle: Puzzle,
    options: Options,
    face: int,
    deltille: int,
    side: int,
)
    requires
        crate::adjacency::well_formed(puzzle.grid),
        puzzle.valid(options),
        settled(options),
        puzzle.consistent(options),
        puzzle.has_slot(face, deltille),
        0 <= side < 3,
    ensures
        puzzle.fits(
            face,
            deltille,
            side,
            options[face][deltille][0],
            options[puzzle.link(face, deltille, side).face][puzzle.link(
                face,
                deltille,
                side,
            ).deltille][0],
        ),
{
    let link = puzzle.link(face, deltille, side);
    let tile = options[face][deltille][0];
    assert(options[face].len() == puzzle.grid[face].slots.len());
    assert(options[face][deltille].len() == 1);
    assert(options[face][deltille].contains(tile));
    assert(crate::adjacency::link_resolves(puzzle.grid, face, deltille, side));
    assert(options[link.face].len() == puzzle.grid[link.face].slots.len());
    assert(options[link.face][link.deltille].len() == 1);
    assert(puzzle.slot_consistent(options, face, deltille));
    assert(puzzle.side_consistent(options, face, deltille, side));
    assert(puzzle.supported(options, face, deltille, side, tile));
    let other = choose|other: usize| #[trigger]
        options[link.face][link.deltille].contains(other) && puzzle.fits(
            face,
            deltille,
            side,
            tile,
            other,
        );
    let at = choose|at: int|
        0 <= at < options[link.face][link.deltille].len() && options[link.face][link.deltille][at]
            == other;
}

/// With empty catalogs no slot can have an option. So the first step of a
/// solve over empty catalogs, on a grid that has a slot, ends the solve in a
/// contradiction, and leaves no step behind.
pub proof fn lemma_empty_catalog_contradiction(
    puzzle: Puzzle,
    stack: Seq<Options>,
    choices: Seq<Option<DeltilleSlotId>>,
    after: Seq<Options>,
    drawn: Seq<Option<DeltilleSlotId>>,
    outcome: StepOutcome,
)
    requires
        puzzle.up.len() == 0,
        puzzle.down.len() == 0,
        puzzle.has_slot(0, 0),
        stack.len() == 1,
        puzzle.valid(stack[0]),
        choices.last() is None,
        stepped(puzzle, stack, choices, after, drawn, outcome),
    ensures
        has_empty(stack[0]),
        outcome == StepOutcome::Contradiction,
        after.len() == 0,
{
    lemma_empty_catalog_has_empty(puzzle, stack[0]);
    let ready = choose|ready: Seq<Options>| #[trigger]
        prepared(puzzle, stack, choices, ready) && moved(
            puzzle,
            ready,
            choices,
            after,
            drawn,
            outcome,
        );
    lemma_empty_catalog_has_empty(puzzle, ready[0]);
}

/// With empty catalogs, valid options leave the first slot of the first
/// face no option.
proof fn lemma_empty_catalog_has_empty(puzzle: Puzzle, options: Options)
    requires
        puzzle.up.len() == 0,
        puzzle.down.len() == 0,
        puzzle.has_slot(0, 0),
        puzzle.valid(options),
    ensures
        has_empty(options),
{
    assert(options[0].len() == puzzle.grid[0].slots.len());
    if options[0][0].len() > 0 {
        assert(options[0][0].contains(options[0][0][0]));
    }
}

} // verus!
