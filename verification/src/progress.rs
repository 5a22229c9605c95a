//! Why a solve ends: a number that every step of a solve makes smaller.
//!
//! The number is written with one digit for each level that the stack can
//! have, the first step first. The digit of a step is the number of options
//! left to the slot drawn at it; while no slot is drawn it is larger than any
//! such number, and for a level above the top it is larger still. Trying a
//! tile takes an option from the slot drawn, or puts a step on a level that
//! had none; going back takes an option from the slot drawn a level below.
//! Each makes a digit smaller and leaves the digits before it as they are.

use vstd::prelude::*;
use crate::adjacency::well_formed;
use crate::constraints::{strictly_increasing, with_slot, Options, Puzzle};
use crate::icosahedron::DeltilleSlotId;
use crate::stack::{
    backtracked,
    distinct,
    leads_to,
    led_from,
    lemma_sound_back,
    lemma_sound_draw,
    lemma_sound_push,
    lemma_sound_strike,
    lemma_without,
    linked,
    nested,
    sound,
    struck,
};

verus! {

/// The number that digits spell in a base, the first digit counting most.
pub open spec fn number(digits: Seq<nat>, base: nat) -> nat
    decreases digits.len(),
{
    if digits.len() == 0 {
        0
    } else {
        number(digits.drop_last(), base) * base + digits.last()
    }
}

/// Of two numbers with equally many digits, the one with the smaller digit
/// at the first place where they differ is the smaller.
pub proof fn lemma_number_smaller(lower: Seq<nat>, higher: Seq<nat>, base: nat, place: int)
    requires
        lower.len() == higher.len(),
        0 <= place < lower.len(),
        forall|at: int| 0 <= at < lower.len() ==> lower[at] < base && higher[at] < base,
        forall|at: int| 0 <= at < place ==> lower[at] == higher[at],
        lower[place] < higher[place],
    ensures
        number(lower, base) < number(higher, base),
    decreases lower.len(),
{
    let front_lower = number(lower.drop_last(), base);
    let front_higher = number(higher.drop_last(), base);
    if place == lower.len() - 1 {
        assert(lower.drop_last() =~= higher.drop_last());
    } else {
        lemma_number_smaller(lower.drop_last(), higher.drop_last(), base, place);
        assert(front_lower * base + lower.last() < front_higher * base) by (nonlinear_arith)
            requires
                front_lower < front_higher,
                lower.last() < base,
        ;
    }
}

/// A growing list of numbers below a limit has at most that many entries.
pub proof fn lemma_increasing_bounded(list: Seq<usize>, limit: nat)
    requires
        strictly_increasing(list),
        forall|at: int| 0 <= at < list.len() ==> list[at] < limit,
    ensures
        list.len() <= limit,
{
    if list.len() > 0 {
        lemma_increasing_at_least(list, list.len() - 1);
    }
}

/// Each entry of a growing list of numbers is at least its place.
proof fn lemma_increasing_at_least(list: Seq<usize>, at: int)
    requires
        strictly_increasing(list),
        0 <= at < list.len(),
    ensures
        list[at] >= at,
    decreases at,
{
    if at > 0 {
        lemma_increasing_at_least(list, at - 1);
        assert(list[at - 1] < list[at]);
    }
}

impl Puzzle {
    /// A number larger than the number of options that any slot can have.
    pub open spec fn option_limit(self) -> nat {
        if self.up.len() >= self.down.len() {
            self.up.len() + 1
        } else {
            self.down.len() + 1
        }
    }

    /// The number of slots of a grid whose faces have equally many.
    pub open spec fn slot_count(self) -> nat {
        (self.grid.len() * self.grid[0].slots.len()) as nat
    }

    /// The number of a slot among all slots of the grid, face after face.
    pub open spec fn slot_number(self, slot: DeltilleSlotId) -> int {
        slot.icoface_id * self.grid[0].slots.len() + slot.deltille_id
    }
}

/// The slots of a well-formed grid are numbered below the number of slots,
/// each with a number of its own.
pub proof fn lemma_slot_number(puzzle: Puzzle, first: DeltilleSlotId, second: DeltilleSlotId)
    requires
        well_formed(puzzle.grid),
        puzzle.has_slot(first.icoface_id as int, first.deltille_id as int),
        puzzle.has_slot(second.icoface_id as int, second.deltille_id as int),
    ensures
        0 <= puzzle.slot_number(first) < puzzle.slot_count(),
        first != second ==> puzzle.slot_number(first) != puzzle.slot_number(second),
{
    let size = puzzle.grid[0].slots.len() as int;
    let faces = puzzle.grid.len() as int;
    assert(puzzle.grid[first.icoface_id as int].slots.len() == size);
    assert(puzzle.grid[second.icoface_id as int].slots.len() == size);
    assert(first.icoface_id * size + first.deltille_id < faces * size) by (nonlinear_arith)
        requires
            0 <= first.icoface_id < faces,
            0 <= first.deltille_id < size,
    ;
    assert(0 <= first.icoface_id * size) by (nonlinear_arith)
        requires
            0 <= first.icoface_id,
            0 <= size,
    ;
    if first.icoface_id != second.icoface_id {
        assert(first.icoface_id * size + first.deltille_id != second.icoface_id * size
            + second.deltille_id) by (nonlinear_arith)
            requires
                first.icoface_id != second.icoface_id,
                0 <= first.deltille_id < size,
                0 <= second.deltille_id < size,
        ;
    }
}

/// A stack has at most one step more than the grid has slots: every step
/// but the top has a slot drawn, and no slot is drawn twice.
pub proof fn lemma_depth(
    puzzle: Puzzle,
    stack: Seq<Options>,
    choices: Seq<Option<DeltilleSlotId>>,
)
    requires
        well_formed(puzzle.grid),
        linked(puzzle, stack, choices),
        distinct(choices),
    ensures
        stack.len() <= puzzle.slot_count() + 1,
{
    if stack.len() > 0 {
        let below = (stack.len() - 1) as nat;
        let numbers = Seq::new(below, |step: int| puzzle.slot_number(choices[step]->Some_0));
        assert forall|step: int| 0 <= step < below implies (#[trigger] choices[step]) is Some
            && puzzle.has_slot(
            choices[step]->Some_0.icoface_id as int,
            choices[step]->Some_0.deltille_id as int,
        ) by {
            assert(leads_to(puzzle, choices[step], stack[step], stack[step + 1], choices[step + 1]));
        }
        assert forall|first: int, second: int|
            0 <= first < numbers.len() && 0 <= second < numbers.len() && first
                != second implies numbers[first] != numbers[second] by {
            assert(choices[first] is Some && choices[second] is Some);
            if first < second {
                assert(choices[first] != choices[second]);
            } else {
                assert(choices[second] != choices[first]);
            }
            lemma_slot_number(puzzle, choices[first]->Some_0, choices[second]->Some_0);
        }
        assert(numbers.no_duplicates());
        numbers.unique_seq_to_set();
        let all = vstd::set_lib::set_int_range(0, puzzle.slot_count() as int);
        vstd::set_lib::lemma_int_range(0, puzzle.slot_count() as int);
        assert(numbers.to_set().subset_of(all)) by {
            assert forall|number: int| numbers.to_set().contains(number) implies all.contains(
                number,
            ) by {
                let step = choose|step: int| 0 <= step < numbers.len() && numbers[step] == number;
                lemma_slot_number(puzzle, choices[step]->Some_0, choices[step]->Some_0);
            }
        }
        vstd::set_lib::lemma_len_subset(numbers.to_set(), all);
    }
}

/// The digit of a level: for a step at which a slot is drawn, the number of
/// options left to that slot; for a step at which none is drawn yet, more
/// than any such number; and for a level above the top, more than that.
pub open spec fn digit(
    puzzle: Puzzle,
    stack: Seq<Options>,
    choices: Seq<Option<DeltilleSlotId>>,
    level: int,
) -> nat {
    if level >= stack.len() {
        puzzle.option_limit() + 1
    } else if choices[level] is Some {
        let slot = choices[level]->Some_0;
        stack[level][slot.icoface_id as int][slot.deltille_id as int].len()
    } else {
        puzzle.option_limit()
    }
}

/// The digits of all levels that a stack can have, the first step first.
pub open spec fn digits(
    puzzle: Puzzle,
    stack: Seq<Options>,
    choices: Seq<Option<DeltilleSlotId>>,
) -> Seq<nat> {
    Seq::new(puzzle.slot_count() + 1, |level: int| digit(puzzle, stack, choices, level))
}

/// How much is left to try: the number that the digits spell.
pub open spec fn effort(
    puzzle: Puzzle,
    stack: Seq<Options>,
    choices: Seq<Option<DeltilleSlotId>>,
) -> nat {
    number(digits(puzzle, stack, choices), puzzle.option_limit() + 2)
}

/// Every digit is a digit of the base.
pub proof fn lemma_digit_bounded(
    puzzle: Puzzle,
    stack: Seq<Options>,
    choices: Seq<Option<DeltilleSlotId>>,
    level: int,
)
    requires
        nested(puzzle, stack),
        linked(puzzle, stack, choices),
        0 <= level,
    ensures
        digit(puzzle, stack, choices, level) < puzzle.option_limit() + 2,
{
    if level < stack.len() && choices[level] is Some {
        let slot = choices[level]->Some_0;
        let face = slot.icoface_id as int;
        let deltille = slot.deltille_id as int;
        let list = stack[level][face][deltille];
        let limit = puzzle.slot_catalog(face, deltille).len();
        assert(puzzle.has_slot(face, deltille));
        assert(puzzle.valid(stack[level]));
        assert forall|at: int| 0 <= at < list.len() implies list[at] < limit by {
            assert(list.contains(list[at]));
        }
        lemma_increasing_bounded(list, limit);
    }
}

/// A move that makes the digit of a level smaller, and leaves the digits of
/// the levels below as they are, leaves less to try.
pub proof fn lemma_effort_smaller(
    puzzle: Puzzle,
    stack: Seq<Options>,
    choices: Seq<Option<DeltilleSlotId>>,
    after: Seq<Options>,
    drawn: Seq<Option<DeltilleSlotId>>,
    level: int,
)
    requires
        nested(puzzle, stack),
        linked(puzzle, stack, choices),
        nested(puzzle, after),
        linked(puzzle, after, drawn),
        0 <= level <= puzzle.slot_count(),
        forall|below: int|
            0 <= below < level ==> digit(puzzle, after, drawn, below) == digit(
                puzzle,
                stack,
                choices,
                below,
            ),
        digit(puzzle, after, drawn, level) < digit(puzzle, stack, choices, level),
    ensures
        effort(puzzle, after, drawn) < effort(puzzle, stack, choices),
{
    let lower = digits(puzzle, after, drawn);
    let higher = digits(puzzle, stack, choices);
    let base = puzzle.option_limit() + 2;
    assert forall|at: int| 0 <= at < lower.len() implies lower[at] < base && higher[at]
        < base by {
        lemma_digit_bounded(puzzle, after, drawn, at);
        lemma_digit_bounded(puzzle, stack, choices, at);
    }
    lemma_number_smaller(lower, higher, base, level);
}

/// While the first step is the only one and no slot is drawn at it, what
/// is left to try does not depend on what it holds.
pub proof fn lemma_effort_fresh(
    puzzle: Puzzle,
    stack: Seq<Options>,
    other: Seq<Options>,
    choices: Seq<Option<DeltilleSlotId>>,
)
    requires
        stack.len() == 1,
        other.len() == 1,
        choices.len() == 1,
        choices[0] is None,
    ensures
        effort(puzzle, other, choices) == effort(puzzle, stack, choices),
{
    assert(digits(puzzle, other, choices) =~= digits(puzzle, stack, choices));
}

/// Drawing a slot at the top step leaves less to try.
pub proof fn lemma_effort_draw(
    puzzle: Puzzle,
    stack: Seq<Options>,
    choices: Seq<Option<DeltilleSlotId>>,
    slot: DeltilleSlotId,
)
    requires
        well_formed(puzzle.grid),
        sound(puzzle, stack, choices),
        stack.len() > 0,
        choices.last() is None,
        puzzle.has_slot(slot.icoface_id as int, slot.deltille_id as int),
        stack.last()[slot.icoface_id as int][slot.deltille_id as int].len() > 1,
    ensures
        effort(puzzle, stack, choices.update(stack.len() - 1, Some(slot))) < effort(
            puzzle,
            stack,
            choices,
        ),
{
    let drawn = choices.update(stack.len() - 1, Some(slot));
    let top = stack.len() - 1;
    lemma_sound_draw(puzzle, stack, choices, slot);
    lemma_depth(puzzle, stack, choices);
    lemma_digit_bounded(puzzle, stack, drawn, top);
    assert(digit(puzzle, stack, drawn, top) < puzzle.option_limit()) by {
        let list = stack[top][slot.icoface_id as int][slot.deltille_id as int];
        let limit = puzzle.slot_catalog(slot.icoface_id as int, slot.deltille_id as int).len();
        assert(puzzle.valid(stack[top]));
        assert forall|at: int| 0 <= at < list.len() implies list[at] < limit by {
            assert(list.contains(list[at]));
        }
        lemma_increasing_bounded(list, limit);
    }
    lemma_effort_smaller(puzzle, stack, choices, stack, drawn, top);
}

/// Pushing the options collapsed to a tile of the slot drawn at the top
/// step leaves less to try.
pub proof fn lemma_effort_push(
    puzzle: Puzzle,
    stack: Seq<Options>,
    choices: Seq<Option<DeltilleSlotId>>,
    slot: DeltilleSlotId,
    tile: usize,
    next: Options,
)
    requires
        well_formed(puzzle.grid),
        sound(puzzle, stack, choices),
        stack.len() > 0,
        choices.last() == Some(slot),
        stack.last()[slot.icoface_id as int][slot.deltille_id as int].contains(tile),
        puzzle.collapsed_to(
            stack.last(),
            slot.icoface_id as int,
            slot.deltille_id as int,
            tile,
            next,
        ),
    ensures
        effort(puzzle, stack.push(next), choices.push(None)) < effort(puzzle, stack, choices),
{
    let after = stack.push(next);
    let drawn = choices.push(None);
    lemma_sound_push(puzzle, stack, choices, slot, tile, next);
    lemma_depth(puzzle, after, drawn);
    assert forall|below: int| 0 <= below < stack.len() implies digit(puzzle, after, drawn, below)
        == digit(puzzle, stack, choices, below) by {
        assert(after[below] == stack[below]);
        assert(drawn[below] == choices[below]);
    }
    lemma_effort_smaller(puzzle, stack, choices, after, drawn, stack.len() as int);
}

/// Striking a tile from the slot drawn at the top step leaves less to try.
pub proof fn lemma_effort_strike(
    puzzle: Puzzle,
    stack: Seq<Options>,
    choices: Seq<Option<DeltilleSlotId>>,
    slot: DeltilleSlotId,
    tile: usize,
)
    requires
        well_formed(puzzle.grid),
        sound(puzzle, stack, choices),
        stack.len() > 0,
        choices.last() == Some(slot),
        stack.last()[slot.icoface_id as int][slot.deltille_id as int].contains(tile),
        puzzle.untileable(
            with_slot(stack.last(), slot.icoface_id as int, slot.deltille_id as int, seq![tile]),
        ),
    ensures
        effort(puzzle, stack.update(stack.len() - 1, struck(stack.last(), slot, tile)), choices)
            < effort(puzzle, stack, choices),
{
    let top = stack.len() - 1;
    let face = slot.icoface_id as int;
    let deltille = slot.deltille_id as int;
    let list = stack[top][face][deltille];
    let after = stack.update(top, struck(stack.last(), slot, tile));
    lemma_sound_strike(puzzle, stack, choices, slot, tile);
    lemma_depth(puzzle, stack, choices);
    assert(puzzle.has_slot(face, deltille));
    assert(puzzle.valid(stack[top]));
    assert(stack[top][face].len() == puzzle.grid[face].slots.len());
    let index = choose|index: int| 0 <= index < list.len() && list[index] == tile;
    lemma_without(list, index);
    assert(after[top][face][deltille] == list.remove(index));
    lemma_effort_smaller(puzzle, stack, choices, after, choices, top);
}

/// Discarding the top step, and striking the tile that led to it from the
/// step below, leaves less to try.
pub proof fn lemma_effort_back(
    puzzle: Puzzle,
    stack: Seq<Options>,
    choices: Seq<Option<DeltilleSlotId>>,
)
    requires
        well_formed(puzzle.grid),
        sound(puzzle, stack, choices),
        stack.len() > 1,
        puzzle.untileable(stack.last()),
    ensures
        effort(puzzle, backtracked(stack, choices), choices.drop_last()) < effort(
            puzzle,
            stack,
            choices,
        ),
{
    let below = stack.len() - 2;
    let slot = choices[below]->Some_0;
    let face = slot.icoface_id as int;
    let deltille = slot.deltille_id as int;
    let list = stack[below][face][deltille];
    let tile = stack.last()[face][deltille][0];
    let after = backtracked(stack, choices);
    let drawn = choices.drop_last();
    lemma_sound_back(puzzle, stack, choices);
    lemma_depth(puzzle, stack, choices);
    assert(led_from(puzzle, stack, choices));
    assert(stack[below][face].len() == puzzle.grid[face].slots.len());
    let index = choose|index: int| 0 <= index < list.len() && list[index] == tile;
    lemma_without(list, index);
    assert(after[below][face][deltille] == list.remove(index));
    assert forall|level: int| 0 <= level < below implies digit(puzzle, after, drawn, level)
        == digit(puzzle, stack, choices, level) by {
        assert(after[level] == stack[level]);
        assert(drawn[level] == choices[level]);
    }
    lemma_effort_smaller(puzzle, stack, choices, after, drawn, below);
}

} // verus!
