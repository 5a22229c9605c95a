//! The stack of steps of a solve, as plain values: what holds of it at every
//! moment, and what each move of the solve does to it.
//!
//! Each step but the first was made from the step below it, by giving one
//! slot of that step one of its tiles alone and narrowing. A step that has
//! proved a dead end is discarded, and the tile that led to it is struck from
//! the step below. No move loses a tiling, so a solve that runs out of steps
//! has shown that there is none.

use vstd::prelude::*;
use crate::constraints::{
    has_empty,
    lemma_keeps_tilings_transitive,
    lemma_narrowed_keeps_tilings,
    lemma_total_update,
    lemma_untileable_source,
    lemma_within_no_longer,
    lemma_within_reflexive,
    lemma_within_transitive,
    settled,
    strictly_increasing,
    total,
    with_slot,
    within,
    Options,
    Puzzle,
};
use crate::icosahedron::DeltilleSlotId;
use crate::selection::is_fewest;
use crate::wave_function_collapse::StepOutcome;

verus! {

/// A list without the given tile.
pub open spec fn without(list: Seq<usize>, tile: usize) -> Seq<usize> {
    list.remove(list.index_of(tile))
}

impl Puzzle {
    /// Whether `after` is what `before` becomes when a slot is given one
    /// tile alone and the options are narrowed until they are consistent,
    /// with an option left for every slot.
    pub open spec fn collapsed_to(
        self,
        before: Options,
        face: int,
        deltille: int,
        tile: usize,
        after: Options,
    ) -> bool {
        &&& self.valid(after)
        &&& self.narrowed(with_slot(before, face, deltille, seq![tile]), after)
        &&& self.consistent(after)
        &&& !has_empty(after)
        &&& total(after) <= total(before) - before[face][deltille].len() + 1
    }

    /// Whether no consistent options that leave every slot an option lie
    /// within the given ones: whether no tiling can come of them.
    pub open spec fn dead_end(self, options: Options) -> bool {
        forall|other: Options| #[trigger]
            within(other, options) && self.consistent(other) ==> has_empty(other)
    }
}

/// Removing an entry from a growing list leaves a growing list that holds
/// the other entries.
pub proof fn lemma_without(list: Seq<usize>, index: int)
    requires
        strictly_increasing(list),
        0 <= index < list.len(),
    ensures
        without(list, list[index]) == list.remove(index),
        strictly_increasing(list.remove(index)),
        list.remove(index).len() == list.len() - 1,
        forall|tile: usize|
            list.remove(index).contains(tile) <==> list.contains(tile) && tile != list[index],
{
    let found = list.index_of(list[index]);
    assert(0 <= found < list.len() && list[found] == list[index]);
    assert(found == index) by {
        if found < index {
            assert(list[found] < list[index]);
        }
        if index < found {
            assert(list[index] < list[found]);
        }
    }
    let rest = list.remove(index);
    list.remove_ensures(index);
    assert forall|tile: usize| rest.contains(tile) implies list.contains(tile) && tile
        != list[index] by {
        let at = choose|at: int| 0 <= at < rest.len() && rest[at] == tile;
        if at < index {
            assert(list[at] == tile);
            assert(list[at] < list[index]);
        } else {
            assert(list[at + 1] == tile);
            assert(list[index] < list[at + 1]);
        }
    }
    assert forall|tile: usize| list.contains(tile) && tile != list[index] implies rest.contains(
        tile,
    ) by {
        let at = choose|at: int| 0 <= at < list.len() && list[at] == tile;
        if at < index {
            assert(rest[at] == tile);
        } else {
            assert(rest[at - 1] == tile);
        }
    }
}

/// Options within options that hold an empty slot hold an empty slot.
pub proof fn lemma_within_empty(inner: Options, outer: Options)
    requires
        within(inner, outer),
        has_empty(outer),
    ensures
        has_empty(inner),
{
    let (face, deltille) = choose|face: int, deltille: int|
        0 <= face < outer.len() && 0 <= deltille < outer[face].len() && (
        #[trigger] outer[face][deltille]).len() == 0;
    assert(inner[face].len() == outer[face].len());
    if inner[face][deltille].len() > 0 {
        assert(inner[face][deltille].contains(inner[face][deltille][0]));
    }
}

/// Giving a slot one of its options alone leaves valid options within the
/// ones before.
pub proof fn lemma_alone(puzzle: Puzzle, options: Options, face: int, deltille: int, tile: usize)
    requires
        puzzle.valid(options),
        puzzle.has_slot(face, deltille),
        options[face][deltille].contains(tile),
    ensures
        puzzle.valid(with_slot(options, face, deltille, seq![tile])),
        within(with_slot(options, face, deltille, seq![tile]), options),
        total(with_slot(options, face, deltille, seq![tile])) == total(options)
            - options[face][deltille].len() + 1,
{
    let alone = with_slot(options, face, deltille, seq![tile]);
    assert(options[face].len() == puzzle.grid[face].slots.len());
    lemma_total_update(options, face, deltille, seq![tile]);
    assert forall|at: int, other: int, any: usize|
        0 <= at < alone.len() && 0 <= other < alone[at].len()
            && #[trigger] alone[at][other].contains(any) implies options[at][other].contains(
        any,
    ) by {
        if at == face && other == deltille {
            let index = choose|index: int| 0 <= index < 1 && seq![tile][index] == any;
            assert(any == tile);
        }
    }
    assert forall|at: int| 0 <= at < alone.len() implies (#[trigger] alone[at]).len()
        == puzzle.grid[at].slots.len() by {
        assert(options[at].len() == puzzle.grid[at].slots.len());
    }
    assert forall|at: int, other: int| puzzle.has_slot(at, other) implies strictly_increasing(
        #[trigger] alone[at][other],
    ) by {
        assert(options[at].len() == puzzle.grid[at].slots.len());
        if !(at == face && other == deltille) {
            assert(alone[at][other] == options[at][other]);
        }
    }
    assert forall|at: int, other: int, any: usize|
        puzzle.has_slot(at, other) && #[trigger] alone[at][other].contains(any) implies any
        < puzzle.slot_catalog(at, other).len() by {
        assert(options[at].len() == puzzle.grid[at].slots.len());
        assert(options[at][other].contains(any));
    }
}

/// Striking one option of a slot leaves valid options within the ones before.
pub proof fn lemma_struck(puzzle: Puzzle, options: Options, face: int, deltille: int, index: int)
    requires
        puzzle.valid(options),
        puzzle.has_slot(face, deltille),
        0 <= index < options[face][deltille].len(),
    ensures
        puzzle.valid(with_slot(options, face, deltille, options[face][deltille].remove(index))),
        within(
            with_slot(options, face, deltille, options[face][deltille].remove(index)),
            options,
        ),
{
    let list = options[face][deltille];
    let struck = with_slot(options, face, deltille, list.remove(index));
    assert(options[face].len() == puzzle.grid[face].slots.len());
    lemma_without(list, index);
    assert forall|at: int| 0 <= at < struck.len() implies (#[trigger] struck[at]).len()
        == puzzle.grid[at].slots.len() by {
        assert(options[at].len() == puzzle.grid[at].slots.len());
    }
    assert forall|at: int, other: int| puzzle.has_slot(at, other) implies strictly_increasing(
        #[trigger] struck[at][other],
    ) by {
        assert(options[at].len() == puzzle.grid[at].slots.len());
        if !(at == face && other == deltille) {
            assert(struck[at][other] == options[at][other]);
        }
    }
    assert forall|at: int, other: int, any: usize|
        0 <= at < struck.len() && 0 <= other < struck[at].len()
            && #[trigger] struck[at][other].contains(any) implies options[at][other].contains(
        any,
    ) by {
        if !(at == face && other == deltille) {
            assert(struck[at][other] == options[at][other]);
        }
    }
    assert forall|at: int, other: int, any: usize|
        puzzle.has_slot(at, other) && #[trigger] struck[at][other].contains(any) implies any
        < puzzle.slot_catalog(at, other).len() by {
        assert(options[at].len() == puzzle.grid[at].slots.len());
        assert(options[at][other].contains(any));
    }
}

/// Options that were collapsed to a tile in a slot hold that tile alone there.
pub proof fn lemma_collapsed_alone(
    puzzle: Puzzle,
    before: Options,
    face: int,
    deltille: int,
    tile: usize,
    after: Options,
)
    requires
        puzzle.has_slot(face, deltille),
        puzzle.shaped(before),
        puzzle.collapsed_to(before, face, deltille, tile, after),
    ensures
        after[face][deltille].len() == 1,
        after[face][deltille][0] == tile,
{
    let list = after[face][deltille];
    let alone = with_slot(before, face, deltille, seq![tile]);
    assert(before[face].len() == puzzle.grid[face].slots.len());
    assert(after[face].len() == alone[face].len());
    assert(list.len() != 0);
    assert forall|index: int| 0 <= index < list.len() implies list[index] == tile by {
        assert(list.contains(list[index]));
        assert(alone[face][deltille].contains(list[index]));
        let at = choose|at: int| 0 <= at < 1 && seq![tile][at] == list[index];
    }
    if list.len() > 1 {
        assert(list[0] < list[1]);
    }
}

/// Whether every step of a stack holds valid options, and each step lies
/// within the one below it.
pub open spec fn nested(puzzle: Puzzle, stack: Seq<Options>) -> bool {
    &&& forall|step: int| 0 <= step < stack.len() ==> puzzle.valid(#[trigger] stack[step])
    &&& forall|step: int|
        0 < step < stack.len() ==> within(#[trigger] stack[step], stack[step - 1])
}

/// A step within the top of a nested stack can be pushed on it.
pub proof fn lemma_nested_push(puzzle: Puzzle, stack: Seq<Options>, next: Options)
    requires
        nested(puzzle, stack),
        puzzle.valid(next),
        stack.len() > 0 ==> within(next, stack.last()),
    ensures
        nested(puzzle, stack.push(next)),
{
    let pushed = stack.push(next);
    assert forall|step: int| 0 <= step < pushed.len() implies puzzle.valid(
        #[trigger] pushed[step],
    ) by {
        if step < stack.len() {
            assert(pushed[step] == stack[step]);
        }
    }
    assert forall|step: int| 0 < step < pushed.len() implies within(
        #[trigger] pushed[step],
        pushed[step - 1],
    ) by {
        assert(pushed[step - 1] == stack[step - 1]);
        if step < stack.len() {
            assert(pushed[step] == stack[step]);
        }
    }
}

/// A step within the top of a nested stack can take the top's place.
pub proof fn lemma_nested_replace(puzzle: Puzzle, stack: Seq<Options>, next: Options)
    requires
        nested(puzzle, stack),
        stack.len() > 0,
        puzzle.valid(next),
        within(next, stack.last()),
    ensures
        nested(puzzle, stack.update(stack.len() - 1, next)),
{
    let replaced = stack.update(stack.len() - 1, next);
    assert forall|step: int| 0 <= step < replaced.len() implies puzzle.valid(
        #[trigger] replaced[step],
    ) by {
        if step < stack.len() - 1 {
            assert(replaced[step] == stack[step]);
        }
    }
    assert forall|step: int| 0 < step < replaced.len() implies within(
        #[trigger] replaced[step],
        replaced[step - 1],
    ) by {
        assert(replaced[step - 1] == stack[step - 1]);
        assert(within(stack[step], stack[step - 1]));
        if step < stack.len() - 1 {
            assert(replaced[step] == stack[step]);
        }
    }
}

/// A nested stack without its top is nested.
pub proof fn lemma_nested_drop(puzzle: Puzzle, stack: Seq<Options>)
    requires
        nested(puzzle, stack),
        stack.len() > 0,
    ensures
        nested(puzzle, stack.drop_last()),
{
    let dropped = stack.drop_last();
    assert forall|step: int| 0 <= step < dropped.len() implies puzzle.valid(
        #[trigger] dropped[step],
    ) by {
        assert(dropped[step] == stack[step]);
    }
    assert forall|step: int| 0 < step < dropped.len() implies within(
        #[trigger] dropped[step],
        dropped[step - 1],
    ) by {
        assert(dropped[step] == stack[step]);
        assert(dropped[step - 1] == stack[step - 1]);
    }
}

/// Whether a step at which a slot was drawn led to the step above it: the
/// step above holds for the slot one tile alone, which the step itself lists
/// for it; the step above holds every tiling that gives the slot this tile;
/// and the slot drawn at the step above is another.
pub open spec fn leads_to(
    puzzle: Puzzle,
    chosen: Option<DeltilleSlotId>,
    below: Options,
    above: Options,
    chosen_above: Option<DeltilleSlotId>,
) -> bool {
    &&& chosen is Some
    &&& chosen_above != chosen
    &&& {
        let face = chosen->Some_0.icoface_id as int;
        let deltille = chosen->Some_0.deltille_id as int;
        &&& above[face][deltille].len() == 1
        &&& below[face][deltille].contains(above[face][deltille][0])
        &&& puzzle.keeps_tilings(
            with_slot(below, face, deltille, seq![above[face][deltille][0]]),
            above,
        )
    }
}

/// Whether every slot drawn exists, and every step but the top led to the
/// step above it.
pub open spec fn linked(
    puzzle: Puzzle,
    stack: Seq<Options>,
    choices: Seq<Option<DeltilleSlotId>>,
) -> bool {
    &&& choices.len() == stack.len()
    &&& forall|step: int|
        0 <= step < stack.len() && (#[trigger] choices[step]) is Some ==> puzzle.has_slot(
            choices[step]->Some_0.icoface_id as int,
            choices[step]->Some_0.deltille_id as int,
        )
    &&& forall|step: int|
        0 <= step < stack.len() - 1 ==> leads_to(
            puzzle,
            #[trigger] choices[step],
            stack[step],
            stack[step + 1],
            choices[step + 1],
        )
}

/// Whether the first step of a stack lies within the options that the
/// solve started from, and holds every tiling that lies within those.
pub open spec fn rooted(puzzle: Puzzle, stack: Seq<Options>) -> bool {
    stack.len() > 0 ==> forall|seeds: Options| #[trigger]
        puzzle.seeded(seeds) ==> within(stack[0], seeds) && puzzle.keeps_tilings(seeds, stack[0])
}

/// What the stack is after the top step is discarded, and the tile that led
/// to it is struck from the step below.
pub open spec fn backtracked(
    stack: Seq<Options>,
    choices: Seq<Option<DeltilleSlotId>>,
) -> Seq<Options> {
    if stack.len() <= 1 {
        Seq::empty()
    } else {
        let below = stack[stack.len() - 2];
        let slot = choices[stack.len() - 2]->Some_0;
        let tile = stack.last()[slot.icoface_id as int][slot.deltille_id as int][0];
        stack.drop_last().update(stack.len() - 2, struck(below, slot, tile))
    }
}

/// Whether no slot is drawn at two steps.
pub open spec fn distinct(choices: Seq<Option<DeltilleSlotId>>) -> bool {
    forall|lower: int, upper: int|
        #![trigger choices[lower], choices[upper]]
        0 <= lower < upper < choices.len() && choices[lower] is Some && choices[upper] is Some
            ==> choices[lower] != choices[upper]
}

/// What holds of the stack and of the slots drawn at every moment between
/// two moves: every step holds valid options within those of the step
/// below; every step but the top led to the one above; no slot is drawn at
/// two steps; the first step holds every tiling there is; and a step pushed
/// on another leaves every slot an option until a slot is drawn at it.
pub open spec fn sound(
    puzzle: Puzzle,
    stack: Seq<Options>,
    choices: Seq<Option<DeltilleSlotId>>,
) -> bool {
    &&& nested(puzzle, stack)
    &&& linked(puzzle, stack, choices)
    &&& distinct(choices)
    &&& rooted(puzzle, stack)
    &&& stack.len() > 1 && choices.last() is None ==> !has_empty(stack.last())
}

/// Options that are a dead end hold no tiling.
pub proof fn lemma_dead_end_untileable(puzzle: Puzzle, options: Options)
    requires
        puzzle.dead_end(options),
    ensures
        puzzle.untileable(options),
{
    assert forall|tiling: Options| #[trigger] within(tiling, options) implies !puzzle.tiling(
        tiling,
    ) by {
        if puzzle.tiling(tiling) {
            assert(has_empty(tiling));
            let (face, deltille) = choose|face: int, deltille: int|
                0 <= face < tiling.len() && 0 <= deltille < tiling[face].len() && (
                #[trigger] tiling[face][deltille]).len() == 0;
        }
    }
}

/// Striking from a slot a tile that no tiling gives it keeps every tiling.
pub proof fn lemma_strike_keeps_tilings(
    puzzle: Puzzle,
    options: Options,
    face: int,
    deltille: int,
    index: int,
)
    requires
        puzzle.shaped(options),
        puzzle.has_slot(face, deltille),
        strictly_increasing(options[face][deltille]),
        0 <= index < options[face][deltille].len(),
        puzzle.untileable(
            with_slot(options, face, deltille, seq![options[face][deltille][index]]),
        ),
    ensures
        puzzle.keeps_tilings(
            options,
            with_slot(options, face, deltille, options[face][deltille].remove(index)),
        ),
{
    let list = options[face][deltille];
    let tile = list[index];
    let alone = with_slot(options, face, deltille, seq![tile]);
    let struck = with_slot(options, face, deltille, list.remove(index));
    assert(options[face].len() == puzzle.grid[face].slots.len());
    lemma_without(list, index);
    assert forall|tiling: Options| #[trigger]
        within(tiling, options) && puzzle.tiling(tiling) implies within(tiling, struck) by {
        assert(tiling[face].len() == options[face].len());
        let only = tiling[face][deltille][0];
        assert(tiling[face][deltille].len() == 1);
        assert(tiling[face][deltille].contains(only));
        if only == tile {
            assert forall|at: int, slot: int, any: usize|
                0 <= at < tiling.len() && 0 <= slot < tiling[at].len()
                    && #[trigger] tiling[at][slot].contains(any) implies alone[at][slot].contains(
                any,
            ) by {
                if at == face && slot == deltille {
                    let place = choose|place: int|
                        0 <= place < tiling[at][slot].len() && tiling[at][slot][place] == any;
                    assert(seq![tile][0] == tile);
                }
            }
            assert(within(tiling, alone));
        }
        assert forall|at: int, slot: int, any: usize|
            0 <= at < tiling.len() && 0 <= slot < tiling[at].len()
                && #[trigger] tiling[at][slot].contains(any) implies struck[at][slot].contains(
            any,
        ) by {
            assert(options[at][slot].contains(any));
            if at == face && slot == deltille {
                let place = choose|place: int|
                    0 <= place < tiling[at][slot].len() && tiling[at][slot][place] == any;
                assert(any == only);
            }
        }
    }
}

/// Every step of a nested stack lies within every step below it.
pub proof fn lemma_nested_within(puzzle: Puzzle, stack: Seq<Options>, lower: int, upper: int)
    requires
        nested(puzzle, stack),
        0 <= lower <= upper < stack.len(),
    ensures
        within(stack[upper], stack[lower]),
    decreases upper - lower,
{
    if lower == upper {
        lemma_within_reflexive(stack[lower]);
    } else {
        lemma_nested_within(puzzle, stack, lower, upper - 1);
        lemma_within_transitive(stack[upper], stack[upper - 1], stack[lower]);
    }
}

/// The top step of a sound stack lies within the options that the solve
/// started from.
pub proof fn lemma_top_within_seeds(puzzle: Puzzle, stack: Seq<Options>, seeds: Options)
    requires
        nested(puzzle, stack),
        rooted(puzzle, stack),
        stack.len() > 0,
        puzzle.seeded(seeds),
    ensures
        within(stack.last(), seeds),
{
    lemma_nested_within(puzzle, stack, 0, stack.len() - 1);
    lemma_within_transitive(stack.last(), stack[0], seeds);
}

/// If the only step of a stack holds no tiling, there is none.
pub proof fn lemma_root_untileable(puzzle: Puzzle, stack: Seq<Options>)
    requires
        rooted(puzzle, stack),
        stack.len() == 1,
        puzzle.untileable(stack[0]),
    ensures
        puzzle.has_no_tiling(),
{
    assert forall|seeds: Options| #[trigger] puzzle.seeded(seeds) implies puzzle.untileable(
        seeds,
    ) by {
        lemma_untileable_source(puzzle, seeds, stack[0]);
    }
}

/// Drawing, at the top step, a slot that has more than one option there
/// leaves the stack sound.
pub proof fn lemma_sound_draw(
    puzzle: Puzzle,
    stack: Seq<Options>,
    choices: Seq<Option<DeltilleSlotId>>,
    slot: DeltilleSlotId,
)
    requires
        sound(puzzle, stack, choices),
        stack.len() > 0,
        puzzle.has_slot(slot.icoface_id as int, slot.deltille_id as int),
        stack.last()[slot.icoface_id as int][slot.deltille_id as int].len() > 1,
    ensures
        sound(puzzle, stack, choices.update(stack.len() - 1, Some(slot))),
{
    let drawn = choices.update(stack.len() - 1, Some(slot));
    let top = stack.last();
    assert forall|step: int| 0 <= step < stack.len() - 1 implies (#[trigger] choices[step])
        != Some(slot) by {
        // the slot drawn at a step below has one option in the step above it,
        // and so at most one at the top
        assert(leads_to(puzzle, choices[step], stack[step], stack[step + 1], choices[step + 1]));
        let below = choices[step]->Some_0;
        let face = below.icoface_id as int;
        let deltille = below.deltille_id as int;
        let above = stack[step + 1];
        lemma_nested_within(puzzle, stack, step + 1, stack.len() - 1);
        assert(puzzle.has_slot(face, deltille));
        assert(puzzle.valid(top));
        assert(puzzle.valid(above));
        assert(top[face].len() == puzzle.grid[face].slots.len());
        lemma_within_no_longer(top[face][deltille], above[face][deltille]);
    }
    assert forall|step: int| 0 <= step < stack.len() - 1 implies leads_to(
        puzzle,
        #[trigger] drawn[step],
        stack[step],
        stack[step + 1],
        drawn[step + 1],
    ) by {
        assert(leads_to(puzzle, choices[step], stack[step], stack[step + 1], choices[step + 1]));
    }
    assert forall|step: int|
        0 <= step < stack.len() && (#[trigger] drawn[step]) is Some implies puzzle.has_slot(
        drawn[step]->Some_0.icoface_id as int,
        drawn[step]->Some_0.deltille_id as int,
    ) by {
        if step < stack.len() - 1 {
            assert(choices[step] is Some);
        }
    }
    assert forall|lower: int, upper: int|
        #![trigger drawn[lower], drawn[upper]]
        0 <= lower < upper < drawn.len() && drawn[lower] is Some && drawn[upper]
            is Some implies drawn[lower] != drawn[upper] by {
        if upper < stack.len() - 1 {
            assert(choices[lower] != choices[upper]);
        } else {
            assert(choices[lower] != Some(slot));
        }
    }
}

/// Pushing the options collapsed to a tile of the slot drawn at the top
/// step leaves the stack sound.
pub proof fn lemma_sound_push(
    puzzle: Puzzle,
    stack: Seq<Options>,
    choices: Seq<Option<DeltilleSlotId>>,
    slot: DeltilleSlotId,
    tile: usize,
    next: Options,
)
    requires
        sound(puzzle, stack, choices),
        stack.len() > 0,
        choices.last() == Some(slot),
        stack.last()[slot.icoface_id as int][slot.deltille_id as int].contains(tile),
        puzzle.collapsed_to(
            stack.last(),
            slot.icoface_id as int,
            slot.deltille_id as int,
            tile,
            next,
        ),
    ensures
        sound(puzzle, stack.push(next), choices.push(None)),
{
    let top = stack.last();
    let face = slot.icoface_id as int;
    let deltille = slot.deltille_id as int;
    let pushed = stack.push(next);
    let drawn = choices.push(None);
    assert(choices[stack.len() - 1] is Some);
    assert(puzzle.has_slot(face, deltille));
    assert(puzzle.valid(top));
    lemma_alone(puzzle, top, face, deltille, tile);
    lemma_collapsed_alone(puzzle, top, face, deltille, tile, next);
    lemma_within_transitive(next, with_slot(top, face, deltille, seq![tile]), top);
    lemma_nested_push(puzzle, stack, next);
    lemma_narrowed_keeps_tilings(puzzle, with_slot(top, face, deltille, seq![tile]), next);
    assert forall|step: int| 0 <= step < pushed.len() - 1 implies leads_to(
        puzzle,
        #[trigger] drawn[step],
        pushed[step],
        pushed[step + 1],
        drawn[step + 1],
    ) by {
        if step < stack.len() - 1 {
            assert(leads_to(
                puzzle,
                choices[step],
                stack[step],
                stack[step + 1],
                choices[step + 1],
            ));
        } else {
            assert(drawn[step] == choices.last());
        }
    }
    assert forall|step: int|
        0 <= step < pushed.len() && (#[trigger] drawn[step]) is Some implies puzzle.has_slot(
        drawn[step]->Some_0.icoface_id as int,
        drawn[step]->Some_0.deltille_id as int,
    ) by {
        assert(choices[step] is Some);
    }
    assert(pushed[0] == stack[0]);
}

/// What the options are after a tile is struck from a slot.
pub open spec fn struck(options: Options, slot: DeltilleSlotId, tile: usize) -> Options {
    with_slot(
        options,
        slot.icoface_id as int,
        slot.deltille_id as int,
        without(options[slot.icoface_id as int][slot.deltille_id as int], tile),
    )
}

/// Striking, from the slot drawn at the top step, a tile that no tiling
/// gives it leaves the stack sound, and the top step within what it was.
pub proof fn lemma_sound_strike(
    puzzle: Puzzle,
    stack: Seq<Options>,
    choices: Seq<Option<DeltilleSlotId>>,
    slot: DeltilleSlotId,
    tile: usize,
)
    requires
        sound(puzzle, stack, choices),
        stack.len() > 0,
        choices.last() == Some(slot),
        stack.last()[slot.icoface_id as int][slot.deltille_id as int].contains(tile),
        puzzle.untileable(
            with_slot(stack.last(), slot.icoface_id as int, slot.deltille_id as int, seq![tile]),
        ),
    ensures
        sound(puzzle, stack.update(stack.len() - 1, struck(stack.last(), slot, tile)), choices),
        within(struck(stack.last(), slot, tile), stack.last()),
{
    let top = stack.last();
    let face = slot.icoface_id as int;
    let deltille = slot.deltille_id as int;
    let list = top[face][deltille];
    let less = struck(top, slot, tile);
    let after = stack.update(stack.len() - 1, less);
    assert(choices[stack.len() - 1] is Some);
    assert(puzzle.has_slot(face, deltille));
    assert(puzzle.valid(top));
    assert(top[face].len() == puzzle.grid[face].slots.len());
    let index = choose|index: int| 0 <= index < list.len() && list[index] == tile;
    lemma_without(list, index);
    lemma_struck(puzzle, top, face, deltille, index);
    lemma_strike_keeps_tilings(puzzle, top, face, deltille, index);
    lemma_nested_replace(puzzle, stack, less);
    assert forall|step: int| 0 <= step < after.len() - 1 implies leads_to(
        puzzle,
        #[trigger] choices[step],
        after[step],
        after[step + 1],
        choices[step + 1],
    ) by {
        assert(leads_to(puzzle, choices[step], stack[step], stack[step + 1], choices[step + 1]));
        if step == after.len() - 2 {
            let drawn = choices[step]->Some_0;
            assert(choices[step + 1] == choices.last());
            assert(drawn != slot);
            assert(puzzle.has_slot(drawn.icoface_id as int, drawn.deltille_id as int));
            assert(top[drawn.icoface_id as int].len()
                == puzzle.grid[drawn.icoface_id as int].slots.len());
            assert(less[drawn.icoface_id as int][drawn.deltille_id as int]
                == top[drawn.icoface_id as int][drawn.deltille_id as int]);
            lemma_keeps_tilings_transitive(
                puzzle,
                with_slot(
                    stack[step],
                    drawn.icoface_id as int,
                    drawn.deltille_id as int,
                    seq![top[drawn.icoface_id as int][drawn.deltille_id as int][0]],
                ),
                top,
                less,
            );
        }
    }
    if stack.len() == 1 {
        assert forall|seeds: Options| #[trigger] puzzle.seeded(seeds) implies within(
            after[0],
            seeds,
        ) && puzzle.keeps_tilings(seeds, after[0]) by {
            lemma_within_transitive(less, top, seeds);
            lemma_keeps_tilings_transitive(puzzle, seeds, top, less);
        }
    } else {
        assert(after[0] == stack[0]);
    }
}

/// Narrowing the first step, while it is the only one and no slot is drawn
/// at it, leaves the stack sound.
pub proof fn lemma_sound_narrow(
    puzzle: Puzzle,
    stack: Seq<Options>,
    choices: Seq<Option<DeltilleSlotId>>,
    first: Options,
)
    requires
        sound(puzzle, stack, choices),
        stack.len() == 1,
        choices.last() is None,
        puzzle.valid(first),
        puzzle.narrowed(stack[0], first),
    ensures
        sound(puzzle, stack.update(0, first), choices),
{
    let after = stack.update(0, first);
    lemma_narrowed_keeps_tilings(puzzle, stack[0], first);
    assert forall|seeds: Options| #[trigger] puzzle.seeded(seeds) implies within(after[0], seeds)
        && puzzle.keeps_tilings(seeds, after[0]) by {
        lemma_within_transitive(first, stack[0], seeds);
        lemma_keeps_tilings_transitive(puzzle, seeds, stack[0], first);
    }
}

/// A sound stack without its top step is sound.
pub proof fn lemma_sound_drop(
    puzzle: Puzzle,
    stack: Seq<Options>,
    choices: Seq<Option<DeltilleSlotId>>,
)
    requires
        sound(puzzle, stack, choices),
        stack.len() > 0,
    ensures
        sound(puzzle, stack.drop_last(), choices.drop_last()),
{
    lemma_nested_drop(puzzle, stack);
    assert forall|step: int| 0 <= step < stack.len() - 2 implies leads_to(
        puzzle,
        #[trigger] choices.drop_last()[step],
        stack.drop_last()[step],
        stack.drop_last()[step + 1],
        choices.drop_last()[step + 1],
    ) by {
        assert(leads_to(puzzle, choices[step], stack[step], stack[step + 1], choices[step + 1]));
    }
    assert forall|step: int|
        0 <= step < stack.len() - 1 && (#[trigger] choices.drop_last()[step])
            is Some implies puzzle.has_slot(
        choices.drop_last()[step]->Some_0.icoface_id as int,
        choices.drop_last()[step]->Some_0.deltille_id as int,
    ) by {
        assert(choices[step] is Some);
    }
    if stack.len() > 1 {
        assert(stack.drop_last()[0] == stack[0]);
        assert(leads_to(
            puzzle,
            choices[stack.len() - 2],
            stack[stack.len() - 2],
            stack[stack.len() - 2 + 1],
            choices[stack.len() - 2 + 1],
        ));
        assert(choices.drop_last().last() == choices[stack.len() - 2]);
    }
}

/// Whether the step below the top has a slot drawn, for which the top holds
/// one tile alone that the step below lists for it.
pub open spec fn led_from(
    puzzle: Puzzle,
    stack: Seq<Options>,
    choices: Seq<Option<DeltilleSlotId>>,
) -> bool {
    let below = stack[stack.len() - 2];
    let slot = choices[stack.len() - 2]->Some_0;
    let face = slot.icoface_id as int;
    let deltille = slot.deltille_id as int;
    &&& choices[stack.len() - 2] is Some
    &&& puzzle.has_slot(face, deltille)
    &&& puzzle.valid(below)
    &&& puzzle.valid(stack.last())
    &&& stack.last()[face][deltille].len() == 1
    &&& below[face][deltille].contains(stack.last()[face][deltille][0])
}

/// Discarding a top step that holds no tiling, and striking the tile that
/// led to it from the step below, leaves the stack sound, and every step
/// that stays within what it was.
pub proof fn lemma_sound_back(
    puzzle: Puzzle,
    stack: Seq<Options>,
    choices: Seq<Option<DeltilleSlotId>>,
)
    requires
        sound(puzzle, stack, choices),
        stack.len() > 1,
        puzzle.untileable(stack.last()),
    ensures
        led_from(puzzle, stack, choices),
        sound(puzzle, backtracked(stack, choices), choices.drop_last()),
        forall|step: int|
            0 <= step < stack.len() - 1 ==> within(
                #[trigger] backtracked(stack, choices)[step],
                stack[step],
            ),
{
    let below = stack[stack.len() - 2];
    let above = stack.last();
    let slot = choices[stack.len() - 2]->Some_0;
    let face = slot.icoface_id as int;
    let deltille = slot.deltille_id as int;
    assert(leads_to(
        puzzle,
        choices[stack.len() - 2],
        below,
        above,
        choices[stack.len() - 2 + 1],
    ));
    assert(puzzle.valid(below));
    assert(puzzle.valid(above));
    let tile = above[face][deltille][0];
    lemma_untileable_source(puzzle, with_slot(below, face, deltille, seq![tile]), above);
    let dropped = stack.drop_last();
    lemma_sound_drop(puzzle, stack, choices);
    assert(dropped.last() == below);
    assert(choices.drop_last().last() == choices[stack.len() - 2]);
    lemma_sound_strike(puzzle, dropped, choices.drop_last(), slot, tile);
    assert(backtracked(stack, choices) == dropped.update(
        dropped.len() - 1,
        struck(below, slot, tile),
    ));
    assert forall|step: int| 0 <= step < stack.len() - 1 implies within(
        #[trigger] backtracked(stack, choices)[step],
        stack[step],
    ) by {
        if step < stack.len() - 2 {
            lemma_within_reflexive(stack[step]);
        }
    }
}

/// Whether `ready` is the stack made ready for a step. The first step of a
/// solve holds what the solve was started with, until the solve first works
/// on it: then it is narrowed until it is consistent. Every other stack is
/// ready as it is.
pub open spec fn prepared(
    puzzle: Puzzle,
    stack: Seq<Options>,
    choices: Seq<Option<DeltilleSlotId>>,
    ready: Seq<Options>,
) -> bool {
    if stack.len() == 1 && choices.last() is None {
        &&& ready.len() == 1
        &&& puzzle.valid(ready[0])
        &&& puzzle.narrowed(stack[0], ready[0])
        &&& puzzle.consistent(ready[0])
    } else {
        ready == stack
    }
}

/// What one step does to a solve that has not ended, whatever is drawn: the
/// stack is made ready, and then worked on.
pub open spec fn stepped(
    puzzle: Puzzle,
    stack: Seq<Options>,
    choices: Seq<Option<DeltilleSlotId>>,
    after: Seq<Options>,
    drawn: Seq<Option<DeltilleSlotId>>,
    outcome: StepOutcome,
) -> bool {
    exists|ready: Seq<Options>| #[trigger]
        prepared(puzzle, stack, choices, ready) && moved(
            puzzle,
            ready,
            choices,
            after,
            drawn,
            outcome,
        )
}

/// What one step does to a solve whose stack is ready, whatever is drawn.
pub open spec fn moved(
    puzzle: Puzzle,
    stack: Seq<Options>,
    choices: Seq<Option<DeltilleSlotId>>,
    after: Seq<Options>,
    drawn: Seq<Option<DeltilleSlotId>>,
    outcome: StepOutcome,
) -> bool {
    let top = stack.last();
    if choices.last() is None && has_empty(top) {
        // a dead end from the start
        outcome == StepOutcome::Contradiction && after.len() == 0
    } else if choices.last() is None && settled(top) {
        // the solution
        outcome == StepOutcome::Solved && after == stack && drawn == choices
    } else {
        exists|slot: DeltilleSlotId| #[trigger]
            tried(puzzle, stack, choices, slot, after, drawn, outcome)
    }
}

/// What a step does to a solve at which the tiles of a slot are to be
/// tried. The slot is the one drawn at the top step, or one of the open
/// slots with the fewest options if none was drawn yet.
pub open spec fn tried(
    puzzle: Puzzle,
    stack: Seq<Options>,
    choices: Seq<Option<DeltilleSlotId>>,
    slot: DeltilleSlotId,
    after: Seq<Options>,
    drawn: Seq<Option<DeltilleSlotId>>,
    outcome: StepOutcome,
) -> bool {
    &&& choices.last() is Some ==> choices.last() == Some(slot)
    &&& choices.last() is None ==> is_fewest(
        stack.last(),
        slot.icoface_id as int,
        slot.deltille_id as int,
    )
    &&& attempted(
        puzzle,
        stack,
        choices.update(stack.len() - 1, Some(slot)),
        slot,
        after,
        drawn,
        outcome,
    )
}

/// What trying one of the tiles of the slot drawn does to a solve,
/// whatever is drawn. If the slot has no tile left, the top step is
/// discarded. Otherwise one of its tiles is tried: either the options
/// collapsed to it become the new top step, or the tile leads to a dead end
/// and is struck from the slot.
pub open spec fn attempted(
    puzzle: Puzzle,
    stack: Seq<Options>,
    choices: Seq<Option<DeltilleSlotId>>,
    slot: DeltilleSlotId,
    after: Seq<Options>,
    drawn: Seq<Option<DeltilleSlotId>>,
    outcome: StepOutcome,
) -> bool {
    let top = stack.last();
    let face = slot.icoface_id as int;
    let deltille = slot.deltille_id as int;
    if top[face][deltille].len() == 0 {
        &&& after == backtracked(stack, choices)
        &&& drawn == choices.drop_last()
        &&& outcome == if after.len() == 0 {
            StepOutcome::Contradiction
        } else {
            StepOutcome::Progressed
        }
    } else {
        &&& outcome == StepOutcome::Progressed
        &&& exists|tile: usize| #[trigger]
            top[face][deltille].contains(tile) && ({
                ||| {
                    &&& after.len() == stack.len() + 1
                    &&& after.drop_last() == stack
                    &&& drawn == choices.push(None)
                    &&& puzzle.collapsed_to(top, face, deltille, tile, after.last())
                }
                ||| {
                    &&& after == stack.update(stack.len() - 1, struck(top, slot, tile))
                    &&& drawn == choices
                    &&& puzzle.dead_end(with_slot(top, face, deltille, seq![tile]))
                }
            })
    }
}

/// Where a solve stands: its stack, the slots drawn, and whether it has ended.
pub struct Standing {
    pub stack: Seq<Options>,
    pub choices: Seq<Option<DeltilleSlotId>>,
    pub complete: bool,
}

/// What a step reports of a solve that stands as given after it.
pub open spec fn outcome_of(standing: Standing) -> StepOutcome {
    if !standing.complete {
        StepOutcome::Progressed
    } else if standing.stack.len() > 0 {
        StepOutcome::Solved
    } else {
        StepOutcome::Contradiction
    }
}

/// What one step does to a solve, whatever is drawn: a solve that has ended
/// stays as it stands.
pub open spec fn iterated(
    puzzle: Puzzle,
    before: Standing,
    after: Standing,
    outcome: StepOutcome,
) -> bool {
    &&& outcome == outcome_of(after)
    &&& if before.complete {
        after == before
    } else {
        stepped(puzzle, before.stack, before.choices, after.stack, after.choices, outcome)
    }
}

/// Whether a solve can get from one standing to another in the given number
/// of steps, none of them taken after it has ended.
pub open spec fn ran(puzzle: Puzzle, before: Standing, steps: nat, after: Standing) -> bool
    decreases steps,
{
    if steps == 0 {
        after == before
    } else {
        !before.complete && exists|between: Standing, outcome: StepOutcome| #[trigger]
            iterated(puzzle, before, between, outcome) && ran(
                puzzle,
                between,
                (steps - 1) as nat,
                after,
            )
    }
}

/// A run of steps and one more step are a run of one more step.
pub proof fn lemma_ran_one_more(
    puzzle: Puzzle,
    first: Standing,
    steps: nat,
    last: Standing,
    next: Standing,
    outcome: StepOutcome,
)
    requires
        ran(puzzle, first, steps, last),
        !last.complete,
        iterated(puzzle, last, next, outcome),
    ensures
        ran(puzzle, first, steps + 1, next),
    decreases steps,
{
    if steps == 0 {
        assert(ran(puzzle, next, 0, next));
        assert(iterated(puzzle, first, next, outcome) && ran(puzzle, next, 0, next));
    } else {
        let (between, reported) = choose|between: Standing, reported: StepOutcome| #[trigger]
            iterated(puzzle, first, between, reported) && ran(
                puzzle,
                between,
                (steps - 1) as nat,
                last,
            );
        lemma_ran_one_more(puzzle, between, (steps - 1) as nat, last, next, outcome);
        assert(iterated(puzzle, first, between, reported) && ran(
            puzzle,
            between,
            steps as nat,
            next,
        ));
    }
}

} // verus!
