//! Which slot the solve collapses next: one of the open slots with the
//! fewest options.

use vstd::prelude::*;
use crate::constraints::{has_empty, settled, Options};
use crate::icosahedron::DeltilleSlotId;

verus! {

/// Whether the first slot comes before the second, in the order of the
/// faces and, within a face, of the slots.
pub open spec fn precedes(first: DeltilleSlotId, second: DeltilleSlotId) -> bool {
    first.icoface_id < second.icoface_id || (first.icoface_id == second.icoface_id
        && first.deltille_id < second.deltille_id)
}

/// Whether a slot is open: it exists and has more than one option left.
pub open spec fn is_open(options: Options, face: int, deltille: int) -> bool {
    &&& 0 <= face < options.len()
    &&& 0 <= deltille < options[face].len()
    &&& options[face][deltille].len() > 1
}

/// Whether a slot is open and no open slot has fewer options.
pub open spec fn is_fewest(options: Options, face: int, deltille: int) -> bool {
    &&& is_open(options, face, deltille)
    &&& forall|other_face: int, other: int| #[trigger]
        is_open(options, other_face, other) ==> options[face][deltille].len()
            <= options[other_face][other].len()
}

/// Whether a slot comes before the place that a walk over the grid has reached.
pub open spec fn walked(face: int, deltille: int, reached_face: int, reached: int) -> bool {
    0 <= face < reached_face || (face == reached_face && 0 <= deltille < reached)
}

/// Options in which no slot is empty and none is open are settled.
pub proof fn lemma_none_open_settled(options: Options)
    requires
        !has_empty(options),
        forall|face: int, deltille: int| !is_fewest(options, face, deltille),
    ensures
        settled(options),
{
    if exists|face: int, deltille: int| is_open(options, face, deltille) {
        lemma_fewest_exists(options);
    }
    assert forall|face: int, deltille: int|
        0 <= face < options.len() && 0 <= deltille < options[face].len() implies (
    #[trigger] options[face][deltille]).len() == 1 by {
        assert(!is_open(options, face, deltille));
    }
}

/// Where a slot is open, some open slot has the fewest options.
pub proof fn lemma_fewest_exists(options: Options)
    requires
        exists|face: int, deltille: int| is_open(options, face, deltille),
    ensures
        exists|face: int, deltille: int| is_fewest(options, face, deltille),
{
    let (face, deltille) = choose|face: int, deltille: int| is_open(options, face, deltille);
    lemma_fewest_below(options, face, deltille, options[face][deltille].len());
}

/// Among the open slots with at most a given number of options, one has
/// the fewest of all.
proof fn lemma_fewest_below(options: Options, face: int, deltille: int, bound: nat)
    requires
        is_open(options, face, deltille),
        options[face][deltille].len() <= bound,
    ensures
        exists|best_face: int, best: int| is_fewest(options, best_face, best),
    decreases bound,
{
    if !is_fewest(options, face, deltille) {
        let (other_face, other) = choose|other_face: int, other: int| #[trigger]
            is_open(options, other_face, other) && options[face][deltille].len()
                > options[other_face][other].len();
        lemma_fewest_below(options, other_face, other, (bound - 1) as nat);
    }
}

} // verus!
