//! The edge-matching rule, and the narrowing of the slots' options to those
//! that the rule still allows.
//!
//! Two tiles fit across a shared side if their labels on that side are
//! equal. An option of a slot is supported across a side if some option of
//! the neighbour there fits it. Options are consistent if each is supported
//! across all three sides.

use vstd::prelude::*;
use crate::adjacency::{link_resolves, well_formed};
use crate::icosahedron::{DeltilleLink, IcoFaceView, Icosahedron};
use crate::net::ICOFACE_COUNT;
use crate::sockets::{Deltille, VerticalOrientation};

verus! {

/// The options of every slot of a grid: for each face, for each slot, the
/// numbers of the tiles the slot may still take.
pub type Options = Seq<Seq<Seq<usize>>>;

/// Whether a list grows from each entry to the next.
pub open spec fn strictly_increasing(list: Seq<usize>) -> bool {
    forall|first: int, second: int| 0 <= first < second < list.len() ==> list[first] < list[second]
}

/// Whether `inner` has the shape of `outer` and allows each slot only what
/// `outer` allows it.
pub open spec fn within(inner: Options, outer: Options) -> bool {
    &&& inner.len() == outer.len()
    &&& forall|face: int|
        0 <= face < inner.len() ==> (#[trigger] inner[face]).len() == outer[face].len()
    &&& forall|face: int, deltille: int, tile: usize|
        0 <= face < inner.len() && 0 <= deltille < inner[face].len()
            && #[trigger] inner[face][deltille].contains(tile) ==> outer[face][deltille].contains(
            tile,
        )
}

/// Whether some slot has no option left.
pub open spec fn has_empty(options: Options) -> bool {
    exists|face: int, deltille: int|
        0 <= face < options.len() && 0 <= deltille < options[face].len() && (
        #[trigger] options[face][deltille]).len() == 0
}

/// Whether every slot has exactly one option left.
pub open spec fn settled(options: Options) -> bool {
    forall|face: int, deltille: int|
        0 <= face < options.len() && 0 <= deltille < options[face].len() ==> (
        #[trigger] options[face][deltille]).len() == 1
}

/// The options with those of one slot replaced.
pub open spec fn with_slot(options: Options, face: int, deltille: int, list: Seq<usize>) -> Options {
    options.update(face, options[face].update(deltille, list))
}

/// What is to be tiled: a grid, and the tiles that its upward and its
/// downward slots can take.
pub struct Puzzle {
    pub grid: Seq<IcoFaceView>,
    pub up: Seq<Deltille>,
    pub down: Seq<Deltille>,
}

impl Puzzle {
    /// The tiles for slots of an orientation.
    pub open spec fn catalog(self, orientation: VerticalOrientation) -> Seq<Deltille> {
        match orientation {
            VerticalOrientation::Up => self.up,
            VerticalOrientation::Down => self.down,
        }
    }

    /// Whether the grid has the slot.
    pub open spec fn has_slot(self, face: int, deltille: int) -> bool {
        0 <= face < self.grid.len() && 0 <= deltille < self.grid[face].slots.len()
    }

    /// The tiles for a slot.
    pub open spec fn slot_catalog(self, face: int, deltille: int) -> Seq<Deltille> {
        self.catalog(self.grid[face].slots[deltille].orientation)
    }

    /// What lies across a side of a slot.
    pub open spec fn link(self, face: int, deltille: int, side: int) -> DeltilleLink {
        self.grid[face].slots[deltille].links[side]
    }

    /// Whether options hold one list for each slot of the grid.
    pub open spec fn shaped(self, options: Options) -> bool {
        &&& options.len() == self.grid.len()
        &&& forall|face: int|
            0 <= face < options.len() ==> (#[trigger] options[face]).len()
                == self.grid[face].slots.len()
    }

    /// Whether options are shaped as the grid, and each slot's list grows
    /// and names only tiles of the slot's catalog.
    pub open spec fn valid(self, options: Options) -> bool {
        &&& self.shaped(options)
        &&& forall|face: int, deltille: int|
            self.has_slot(face, deltille) ==> strictly_increasing(
                #[trigger] options[face][deltille],
            )
        &&& forall|face: int, deltille: int, tile: usize|
            self.has_slot(face, deltille) && #[trigger] options[face][deltille].contains(tile)
                ==> tile < self.slot_catalog(face, deltille).len()
    }

    /// Whether a tile in a slot and another in the neighbour across a side
    /// show the same label where they touch.
    pub open spec fn fits(self, face: int, deltille: int, side: int, tile: usize, other: usize) -> bool {
        let link = self.link(face, deltille, side);
        self.slot_catalog(face, deltille)[tile as int].label(side) == self.slot_catalog(
            link.face,
            link.deltille,
        )[other as int].label(link.socket.spec_index())
    }

    /// Whether the neighbour across a side of a slot still has an option
    /// that fits the tile.
    pub open spec fn supported(
        self,
        options: Options,
        face: int,
        deltille: int,
        side: int,
        tile: usize,
    ) -> bool {
        let link = self.link(face, deltille, side);
        exists|other: usize| #[trigger]
            options[link.face][link.deltille].contains(other) && self.fits(
                face,
                deltille,
                side,
                tile,
                other,
            )
    }

    /// Whether every option of a slot is supported across the given side.
    pub open spec fn side_consistent(self, options: Options, face: int, deltille: int, side: int) -> bool {
        forall|tile: usize| #[trigger]
            options[face][deltille].contains(tile) ==> self.supported(
                options,
                face,
                deltille,
                side,
                tile,
            )
    }

    /// Whether every option of a slot is supported across every side.
    pub open spec fn slot_consistent(self, options: Options, face: int, deltille: int) -> bool {
        forall|side: int|
            0 <= side < 3 ==> #[trigger] self.side_consistent(options, face, deltille, side)
    }

    /// Whether every option of every slot is supported across every side.
    pub open spec fn consistent(self, options: Options) -> bool {
        forall|face: int, deltille: int|
            self.has_slot(face, deltille) ==> #[trigger] self.slot_consistent(
                options,
                face,
                deltille,
            )
    }

    /// Whether `after` is `before` with nothing taken away that consistent
    /// options could hold: it lies within `before`, and whatever consistent
    /// options lie within `before` lie within `after` too.
    pub open spec fn narrowed(self, before: Options, after: Options) -> bool {
        &&& within(after, before)
        &&& forall|other: Options| #[trigger]
            within(other, before) && self.consistent(other) ==> within(other, after)
    }
}

impl Puzzle {
    /// Whether options are a tiling: every slot has exactly one tile, and
    /// the tiles fit.
    pub open spec fn tiling(self, options: Options) -> bool {
        settled(options) && self.consistent(options)
    }

    /// Whether every tiling within `before` lies within `after`.
    pub open spec fn keeps_tilings(self, before: Options, after: Options) -> bool {
        forall|tiling: Options| #[trigger]
            within(tiling, before) && self.tiling(tiling) ==> within(tiling, after)
    }

    /// Whether no tiling lies within the options.
    pub open spec fn untileable(self, options: Options) -> bool {
        forall|tiling: Options| #[trigger] within(tiling, options) ==> !self.tiling(tiling)
    }
}

/// Narrowing keeps every tiling.
pub proof fn lemma_narrowed_keeps_tilings(puzzle: Puzzle, before: Options, after: Options)
    requires
        puzzle.narrowed(before, after),
    ensures
        puzzle.keeps_tilings(before, after),
{
}

/// What keeps every tiling of what kept every tiling keeps every tiling.
pub proof fn lemma_keeps_tilings_transitive(
    puzzle: Puzzle,
    before: Options,
    between: Options,
    after: Options,
)
    requires
        puzzle.keeps_tilings(before, between),
        puzzle.keeps_tilings(between, after),
    ensures
        puzzle.keeps_tilings(before, after),
{
}

/// Options with an empty slot hold no tiling.
pub proof fn lemma_empty_untileable(puzzle: Puzzle, options: Options)
    requires
        has_empty(options),
    ensures
        puzzle.untileable(options),
{
    let (face, deltille) = choose|face: int, deltille: int|
        0 <= face < options.len() && 0 <= deltille < options[face].len() && (
        #[trigger] options[face][deltille]).len() == 0;
    assert forall|tiling: Options| #[trigger] within(tiling, options) implies !puzzle.tiling(
        tiling,
    ) by {
        assert(tiling[face].len() == options[face].len());
        if tiling[face][deltille].len() == 1 {
            assert(tiling[face][deltille].contains(tiling[face][deltille][0]));
        }
    }
}

/// What keeps every tiling of options that hold none holds none.
pub proof fn lemma_untileable_source(puzzle: Puzzle, before: Options, after: Options)
    requires
        puzzle.keeps_tilings(before, after),
        puzzle.untileable(after),
    ensures
        puzzle.untileable(before),
{
}

/// A growing list whose entries all stand in another growing list is no
/// longer than that list: options that lie within others leave no slot more
/// options than those do.
pub proof fn lemma_within_no_longer(inner: Seq<usize>, outer: Seq<usize>)
    requires
        strictly_increasing(inner),
        strictly_increasing(outer),
        forall|tile: usize| inner.contains(tile) ==> outer.contains(tile),
    ensures
        inner.len() <= outer.len(),
{
    assert(inner.no_duplicates());
    assert(outer.no_duplicates());
    inner.unique_seq_to_set();
    outer.unique_seq_to_set();
    assert(inner.to_set().subset_of(outer.to_set())) by {
        assert forall|tile: usize| inner.to_set().contains(tile) implies outer.to_set().contains(
            tile,
        ) by {
            assert(inner.contains(tile));
        }
    }
    vstd::seq_lib::seq_to_set_is_finite(outer);
    vstd::set_lib::lemma_len_subset(inner.to_set(), outer.to_set());
}

impl Puzzle {
    /// Whether `after` leaves no slot more options than `before` does.
    pub open spec fn no_longer(self, before: Options, after: Options) -> bool {
        forall|face: int, deltille: int|
            self.has_slot(face, deltille) ==> (#[trigger] after[face][deltille]).len()
                <= before[face][deltille].len()
    }
}

/// Valid options within valid options leave no slot more options than those do.
pub proof fn lemma_valid_within_no_longer(puzzle: Puzzle, inner: Options, outer: Options)
    requires
        puzzle.valid(inner),
        puzzle.valid(outer),
        within(inner, outer),
    ensures
        puzzle.no_longer(outer, inner),
{
    assert forall|face: int, deltille: int| puzzle.has_slot(face, deltille) implies (
    #[trigger] inner[face][deltille]).len() <= outer[face][deltille].len() by {
        assert(inner[face].len() == puzzle.grid[face].slots.len());
        lemma_within_no_longer(inner[face][deltille], outer[face][deltille]);
    }
}

/// A slot's options lie within themselves.
pub proof fn lemma_within_reflexive(options: Options)
    ensures
        within(options, options),
{
}

/// What lies within options that lie within others lies within those.
pub proof fn lemma_within_transitive(inner: Options, middle: Options, outer: Options)
    requires
        within(inner, middle),
        within(middle, outer),
    ensures
        within(inner, outer),
{
}

/// Narrowing what was narrowed is narrowing.
pub proof fn lemma_narrowed_transitive(
    puzzle: Puzzle,
    before: Options,
    between: Options,
    after: Options,
)
    requires
        puzzle.narrowed(before, between),
        puzzle.narrowed(between, after),
    ensures
        puzzle.narrowed(before, after),
{
    lemma_within_transitive(after, between, before);
}

/// The options that a grid of lists holds, as plain values.
pub open spec fn grid_options(options: Vec<Vec<Vec<usize>>>) -> Options {
    Seq::new(
        options@.len(),
        |face: int| Seq::new(options@[face]@.len(), |deltille: int| options@[face]@[deltille]@),
    )
}

/// The puzzle that a grid and two catalogs pose.
pub open spec fn puzzle_of(
    icosahedron: Icosahedron,
    up_options: Vec<Deltille>,
    down_options: Vec<Deltille>,
) -> Puzzle {
    Puzzle { grid: icosahedron@, up: up_options@, down: down_options@ }
}

/// Valid options hold, for each slot of the grid, the list that the grid of
/// lists holds there.
pub proof fn lemma_slot_options(
    puzzle: Puzzle,
    options: Vec<Vec<Vec<usize>>>,
    face: int,
    deltille: int,
)
    requires
        puzzle.shaped(grid_options(options)),
        puzzle.has_slot(face, deltille),
    ensures
        0 <= face < options@.len(),
        0 <= deltille < options@[face]@.len(),
        grid_options(options)[face][deltille] == options@[face]@[deltille]@,
{
    assert(grid_options(options)[face].len() == puzzle.grid[face].slots.len());
}

/// The options of a slot that are supported across one of its sides, in
/// their order.
pub fn supported_options(
    icosahedron: &Icosahedron,
    up_options: &Vec<Deltille>,
    down_options: &Vec<Deltille>,
    options: &Vec<Vec<Vec<usize>>>,
    icoface_id: usize,
    deltille_id: usize,
    side: usize,
) -> (kept: Vec<usize>)
    requires
        icosahedron.wf(),
        puzzle_of(*icosahedron, *up_options, *down_options).valid(grid_options(*options)),
        puzzle_of(*icosahedron, *up_options, *down_options).has_slot(
            icoface_id as int,
            deltille_id as int,
        ),
        side < 3,
    ensures
        strictly_increasing(kept@),
        forall|tile: usize|
            kept@.contains(tile) <==> grid_options(*options)[icoface_id as int][deltille_id as int].contains(
                tile,
            ) && puzzle_of(*icosahedron, *up_options, *down_options).supported(
                grid_options(*options),
                icoface_id as int,
                deltille_id as int,
                side as int,
                tile,
            ),
        kept@.len() <= grid_options(*options)[icoface_id as int][deltille_id as int].len(),
        kept@.len() == grid_options(*options)[icoface_id as int][deltille_id as int].len() ==> kept@
            == grid_options(*options)[icoface_id as int][deltille_id as int],
{
    let ghost puzzle = puzzle_of(*icosahedron, *up_options, *down_options);
    let ghost all = grid_options(*options);
    let ghost face = icoface_id as int;
    let ghost deltille = deltille_id as int;
    proof {
        assert(link_resolves(icosahedron@, face, deltille, side as int));
        let link = puzzle.link(face, deltille, side as int);
        lemma_slot_options(puzzle, *options, face, deltille);
        lemma_slot_options(puzzle, *options, link.face, link.deltille);
    }
    let slot = &icosahedron.icofaces[icoface_id].deltille_slots[deltille_id];
    let connection = slot.connections[side];
    let target = connection.target_deltille_coordinates;
    let target_side = connection.target_socket.index();
    let target_slot = &icosahedron.icofaces[target.icoface_id].deltille_slots[target.deltille_id];
    let catalog = match slot.orientation {
        VerticalOrientation::Up => up_options,
        VerticalOrientation::Down => down_options,
    };
    let target_catalog = match target_slot.orientation {
        VerticalOrientation::Up => up_options,
        VerticalOrientation::Down => down_options,
    };
    let own = &options[icoface_id][deltille_id];
    let others = &options[target.icoface_id][target.deltille_id];
    assert(own@ == all[face][deltille]);
    assert(others@ == all[target.icoface_id as int][target.deltille_id as int]);
    assert(puzzle.link(face, deltille, side as int) == connection@);
    assert(catalog@ == puzzle.slot_catalog(face, deltille));
    assert(target_catalog@ == puzzle.slot_catalog(
        target.icoface_id as int,
        target.deltille_id as int,
    ));
    assert(puzzle.has_slot(target.icoface_id as int, target.deltille_id as int));

    proof {
        assert forall|k: int| 0 <= k < own@.len() implies (#[trigger] own@[k]) < catalog@.len() by {
            assert(all[face][deltille].contains(own@[k]));
        }
        assert forall|k: int| 0 <= k < others@.len() implies (#[trigger] others@[k])
            < target_catalog@.len() by {
            assert(all[connection@.face][connection@.deltille].contains(others@[k]));
        }
    }
    let mut kept: Vec<usize> = Vec::new();
    let mut index: usize = 0;
    while index < own.len()
        invariant
            puzzle.shaped(all),
            puzzle.has_slot(face, deltille),
            puzzle.has_slot(connection@.face, connection@.deltille),
            index <= own@.len(),
            side < 3,
            target_side < 3,
            target_side == connection@.socket.spec_index(),
            own@ == all[face][deltille],
            others@ == all[connection@.face][connection@.deltille],
            puzzle.link(face, deltille, side as int) == connection@,
            catalog@ == puzzle.slot_catalog(face, deltille),
            target_catalog@ == puzzle.slot_catalog(connection@.face, connection@.deltille),
            strictly_increasing(own@),
            forall|k: int| 0 <= k < own@.len() ==> (#[trigger] own@[k]) < catalog@.len(),
            forall|k: int| 0 <= k < others@.len() ==> (#[trigger] others@[k]) < target_catalog@.len(),
            strictly_increasing(kept@),
            kept@.len() <= index,
            kept@.len() == index ==> kept@ == own@.subrange(0, index as int),
            forall|k: int, later: int|
                0 <= k < kept@.len() && index <= later < own@.len() ==> kept@[k] < own@[later],
            forall|k: int|
                0 <= k < kept@.len() ==> own@.contains(#[trigger] kept@[k]) && puzzle.supported(
                    all,
                    face,
                    deltille,
                    side as int,
                    kept@[k],
                ),
            forall|k: int|
                0 <= k < index && puzzle.supported(all, face, deltille, side as int, #[trigger] own@[k])
                    ==> kept@.contains(own@[k]),
        decreases own@.len() - index,
    {
        let tile = own[index];
        let mut found = false;
        let mut other_index: usize = 0;
        while other_index < others.len() && !found
            invariant
                puzzle.shaped(all),
                puzzle.has_slot(face, deltille),
                puzzle.has_slot(connection@.face, connection@.deltille),
                other_index <= others@.len(),
                side < 3,
                target_side < 3,
                target_side == connection@.socket.spec_index(),
                tile < catalog@.len(),
                others@ == all[connection@.face][connection@.deltille],
                puzzle.link(face, deltille, side as int) == connection@,
                catalog@ == puzzle.slot_catalog(face, deltille),
                target_catalog@ == puzzle.slot_catalog(connection@.face, connection@.deltille),
                forall|k: int|
                    0 <= k < others@.len() ==> (#[trigger] others@[k]) < target_catalog@.len(),
                found ==> puzzle.supported(all, face, deltille, side as int, tile),
                !found ==> forall|k: int|
                    0 <= k < other_index ==> !puzzle.fits(
                        face,
                        deltille,
                        side as int,
                        tile,
                        #[trigger] others@[k],
                    ),
            decreases others@.len() - other_index + if found { 0int } else { 1int },
        {
            let other = others[other_index];
            if crate::sockets::sockets_match(
                &catalog[tile],
                side,
                &target_catalog[other],
                target_side,
            ) {
                assert(others@.contains(other));
                assert(puzzle.fits(face, deltille, side as int, tile, other));
                found = true;
            } else {
                other_index += 1;
            }
        }
        if found {
            let ghost before = kept@;
            kept.push(tile);
            proof {
                assert(own@.contains(tile));
                assert(kept@.len() == index + 1 ==> kept@ =~= own@.subrange(0, index + 1));
                assert forall|k: int|
                    0 <= k < index + 1 && puzzle.supported(
                        all,
                        face,
                        deltille,
                        side as int,
                        #[trigger] own@[k],
                    ) implies kept@.contains(own@[k]) by {
                    if k < index {
                        let at = choose|at: int| 0 <= at < before.len() && before[at] == own@[k];
                        assert(kept@[at] == own@[k]);
                    } else {
                        assert(kept@[before.len() as int] == own@[k]);
                    }
                }
            }
        } else {
            assert(!puzzle.supported(all, face, deltille, side as int, tile));
        }
        index += 1;
    }
    proof {
        assert(own@.subrange(0, own@.len() as int) =~= own@);
        assert forall|tile: usize|
            all[face][deltille].contains(tile) && puzzle.supported(
                all,
                face,
                deltille,
                side as int,
                tile,
            ) implies kept@.contains(tile) by {
            let k = choose|k: int| 0 <= k < own@.len() && own@[k] == tile;
            assert(kept@.contains(own@[k]));
        }
    }
    kept
}

/// How many options the slots of one face hold together.
pub open spec fn face_total(lists: Seq<Seq<usize>>) -> nat
    decreases lists.len(),
{
    if lists.len() == 0 {
        0
    } else {
        face_total(lists.drop_last()) + lists.last().len()
    }
}

/// How many options all slots hold together.
pub open spec fn total(options: Options) -> nat
    decreases options.len(),
{
    if options.len() == 0 {
        0
    } else {
        total(options.drop_last()) + face_total(options.last())
    }
}

/// The total of the first lists of a face and the next one is the total of
/// the first lists, and the length of the next.
pub proof fn lemma_face_total_step(lists: Seq<Seq<usize>>, count: int)
    requires
        0 <= count < lists.len(),
    ensures
        face_total(lists.subrange(0, count + 1)) == face_total(lists.subrange(0, count))
            + lists[count].len(),
{
    assert(lists.subrange(0, count + 1).drop_last() =~= lists.subrange(0, count));
}

/// The total of the first faces and the next one is the total of the first
/// faces, and the total of the next.
pub proof fn lemma_total_step(options: Options, count: int)
    requires
        0 <= count < options.len(),
    ensures
        total(options.subrange(0, count + 1)) == total(options.subrange(0, count)) + face_total(
            options[count],
        ),
{
    assert(options.subrange(0, count + 1).drop_last() =~= options.subrange(0, count));
}

/// The first lists of a face hold no more than all its lists.
pub proof fn lemma_face_total_grows(lists: Seq<Seq<usize>>, count: int)
    requires
        0 <= count <= lists.len(),
    ensures
        face_total(lists.subrange(0, count)) <= face_total(lists),
    decreases lists.len() - count,
{
    if count < lists.len() {
        lemma_face_total_step(lists, count);
        lemma_face_total_grows(lists, count + 1);
    } else {
        assert(lists.subrange(0, count) =~= lists);
    }
}

/// The first faces hold no more than all faces.
pub proof fn lemma_total_grows(options: Options, count: int)
    requires
        0 <= count <= options.len(),
    ensures
        total(options.subrange(0, count)) <= total(options),
    decreases options.len() - count,
{
    if count < options.len() {
        lemma_total_step(options, count);
        lemma_total_grows(options, count + 1);
    } else {
        assert(options.subrange(0, count) =~= options);
    }
}

/// Replacing one slot's list changes a face's total by the difference of
/// the lists' lengths.
pub proof fn lemma_face_total_update(lists: Seq<Seq<usize>>, deltille: int, list: Seq<usize>)
    requires
        0 <= deltille < lists.len(),
    ensures
        face_total(lists.update(deltille, list)) == face_total(lists) - lists[deltille].len()
            + list.len(),
    decreases lists.len(),
{
    let updated = lists.update(deltille, list);
    if deltille == lists.len() - 1 {
        assert(updated.drop_last() =~= lists.drop_last());
    } else {
        assert(updated.drop_last() =~= lists.drop_last().update(deltille, list));
        lemma_face_total_update(lists.drop_last(), deltille, list);
    }
}

/// Replacing one slot's list changes the total by the difference of the
/// lists' lengths.
pub proof fn lemma_total_update(options: Options, face: int, deltille: int, list: Seq<usize>)
    requires
        0 <= face < options.len(),
        0 <= deltille < options[face].len(),
    ensures
        total(with_slot(options, face, deltille, list)) == total(options)
            - options[face][deltille].len() + list.len(),
    decreases options.len(),
{
    let updated = with_slot(options, face, deltille, list);
    if face == options.len() - 1 {
        assert(updated.drop_last() =~= options.drop_last());
        lemma_face_total_update(options[face], deltille, list);
    } else {
        assert(updated.drop_last() =~= with_slot(options.drop_last(), face, deltille, list));
        lemma_total_update(options.drop_last(), face, deltille, list);
    }
}

/// Keeping, of one slot's options, exactly those that are supported across
/// one side narrows the options, and leaves them valid.
pub proof fn lemma_revise_narrows(
    puzzle: Puzzle,
    before: Options,
    face: int,
    deltille: int,
    side: int,
    kept: Seq<usize>,
)
    requires
        well_formed(puzzle.grid),
        puzzle.valid(before),
        puzzle.has_slot(face, deltille),
        0 <= side < 3,
        strictly_increasing(kept),
        forall|tile: usize|
            kept.contains(tile) <==> before[face][deltille].contains(tile) && puzzle.supported(
                before,
                face,
                deltille,
                side,
                tile,
            ),
    ensures
        puzzle.valid(with_slot(before, face, deltille, kept)),
        puzzle.narrowed(before, with_slot(before, face, deltille, kept)),
{
    let after = with_slot(before, face, deltille, kept);
    assert(before[face].len() == puzzle.grid[face].slots.len());
    assert(link_resolves(puzzle.grid, face, deltille, side));
    let link = puzzle.link(face, deltille, side);
    assert forall|other: Options| #[trigger]
        within(other, before) && puzzle.consistent(other) implies within(other, after) by {
        assert forall|at: int, slot: int, tile: usize|
            0 <= at < other.len() && 0 <= slot < other[at].len()
                && #[trigger] other[at][slot].contains(tile) implies after[at][slot].contains(
            tile,
        ) by {
            assert(before[at][slot].contains(tile));
            if at == face && slot == deltille {
                assert(puzzle.slot_consistent(other, face, deltille));
                assert(puzzle.side_consistent(other, face, deltille, side));
                assert(puzzle.supported(other, face, deltille, side, tile));
                let fitting = choose|fitting: usize| #[trigger]
                    other[link.face][link.deltille].contains(fitting) && puzzle.fits(
                        face,
                        deltille,
                        side,
                        tile,
                        fitting,
                    );
                assert(other[link.face].len() == before[link.face].len());
                assert(before[link.face].len() == puzzle.grid[link.face].slots.len());
                assert(before[link.face][link.deltille].contains(fitting));
            }
        }
    }
}

/// Narrows the options of one slot to those that are supported across all
/// three of its sides. Returns whether any option was taken away.
pub(crate) fn narrow_slot(
    icosahedron: &Icosahedron,
    up_options: &Vec<Deltille>,
    down_options: &Vec<Deltille>,
    options: &mut Vec<Vec<Vec<usize>>>,
    icoface_id: usize,
    deltille_id: usize,
) -> (changed: bool)
    requires
        icosahedron.wf(),
        puzzle_of(*icosahedron, *up_options, *down_options).valid(grid_options(*old(options))),
        puzzle_of(*icosahedron, *up_options, *down_options).has_slot(
            icoface_id as int,
            deltille_id as int,
        ),
    ensures
        puzzle_of(*icosahedron, *up_options, *down_options).valid(grid_options(*final(options))),
        puzzle_of(*icosahedron, *up_options, *down_options).narrowed(
            grid_options(*old(options)),
            grid_options(*final(options)),
        ),
        changed ==> total(grid_options(*final(options))) < total(grid_options(*old(options))),
        !changed ==> grid_options(*final(options)) == grid_options(*old(options)),
        !changed ==> puzzle_of(*icosahedron, *up_options, *down_options).slot_consistent(
            grid_options(*final(options)),
            icoface_id as int,
            deltille_id as int,
        ),
{
    let ghost puzzle = puzzle_of(*icosahedron, *up_options, *down_options);
    let ghost start = grid_options(*options);
    let ghost face = icoface_id as int;
    let ghost deltille = deltille_id as int;
    let mut changed = false;
    let mut side: usize = 0;
    proof {
        lemma_within_reflexive(start);
    }
    while side < 3
        invariant
            side <= 3,
            icosahedron.wf(),
            puzzle == puzzle_of(*icosahedron, *up_options, *down_options),
            puzzle.has_slot(face, deltille),
            face == icoface_id,
            deltille == deltille_id,
            puzzle.valid(grid_options(*options)),
            puzzle.narrowed(start, grid_options(*options)),
            changed ==> total(grid_options(*options)) < total(start),
            !changed ==> grid_options(*options) == start,
            !changed ==> forall|done: int|
                0 <= done < side ==> #[trigger] puzzle.side_consistent(
                    grid_options(*options),
                    face,
                    deltille,
                    done,
                ),
        decreases 3 - side,
    {
        let ghost before = grid_options(*options);
        let kept = supported_options(
            icosahedron,
            up_options,
            down_options,
            options,
            icoface_id,
            deltille_id,
            side,
        );
        proof {
            lemma_slot_options(puzzle, *options, face, deltille);
        }
        if kept.len() < options[icoface_id][deltille_id].len() {
            proof {
                lemma_revise_narrows(puzzle, before, face, deltille, side as int, kept@);
                lemma_total_update(before, face, deltille, kept@);
                lemma_narrowed_transitive(
                    puzzle,
                    start,
                    before,
                    with_slot(before, face, deltille, kept@),
                );
            }
            options[icoface_id][deltille_id] = kept;
            changed = true;
            assert(grid_options(*options) =~~= with_slot(before, face, deltille, kept@));
        }
        side += 1;
    }
    changed
}

/// Narrows the options of every slot of one face, each once, in order.
/// Returns whether any option was taken away.
pub(crate) fn narrow_face(
    icosahedron: &Icosahedron,
    up_options: &Vec<Deltille>,
    down_options: &Vec<Deltille>,
    options: &mut Vec<Vec<Vec<usize>>>,
    icoface_id: usize,
) -> (changed: bool)
    requires
        icosahedron.wf(),
        puzzle_of(*icosahedron, *up_options, *down_options).valid(grid_options(*old(options))),
        icoface_id < icosahedron@.len(),
    ensures
        puzzle_of(*icosahedron, *up_options, *down_options).valid(grid_options(*final(options))),
        puzzle_of(*icosahedron, *up_options, *down_options).narrowed(
            grid_options(*old(options)),
            grid_options(*final(options)),
        ),
        changed ==> total(grid_options(*final(options))) < total(grid_options(*old(options))),
        !changed ==> grid_options(*final(options)) == grid_options(*old(options)),
        !changed ==> forall|deltille: int|
            puzzle_of(*icosahedron, *up_options, *down_options).has_slot(
                icoface_id as int,
                deltille,
            ) ==> #[trigger] puzzle_of(*icosahedron, *up_options, *down_options).slot_consistent(
                grid_options(*final(options)),
                icoface_id as int,
                deltille,
            ),
{
    let ghost puzzle = puzzle_of(*icosahedron, *up_options, *down_options);
    let ghost start = grid_options(*options);
    let ghost face = icoface_id as int;
    let count = icosahedron.icofaces[icoface_id].deltille_slots.len();
    let mut changed = false;
    let mut deltille_id: usize = 0;
    proof {
        lemma_within_reflexive(start);
    }
    while deltille_id < count
        invariant
            deltille_id <= count,
            count == puzzle.grid[face].slots.len(),
            icosahedron.wf(),
            puzzle == puzzle_of(*icosahedron, *up_options, *down_options),
            face == icoface_id,
            0 <= face < puzzle.grid.len(),
            puzzle.valid(grid_options(*options)),
            puzzle.narrowed(start, grid_options(*options)),
            changed ==> total(grid_options(*options)) < total(start),
            !changed ==> grid_options(*options) == start,
            !changed ==> forall|done: int|
                0 <= done < deltille_id ==> #[trigger] puzzle.slot_consistent(
                    grid_options(*options),
                    face,
                    done,
                ),
        decreases count - deltille_id,
    {
        let ghost before = grid_options(*options);
        let narrowed = narrow_slot(
            icosahedron,
            up_options,
            down_options,
            options,
            icoface_id,
            deltille_id,
        );
        proof {
            lemma_narrowed_transitive(puzzle, start, before, grid_options(*options));
        }
        if narrowed {
            changed = true;
        }
        deltille_id += 1;
    }
    changed
}

/// Narrows the options of every slot of the grid, each once, in order.
/// Returns whether any option was taken away; if none was, the options are
/// consistent.
pub(crate) fn narrow_all(
    icosahedron: &Icosahedron,
    up_options: &Vec<Deltille>,
    down_options: &Vec<Deltille>,
    options: &mut Vec<Vec<Vec<usize>>>,
) -> (changed: bool)
    requires
        icosahedron.wf(),
        puzzle_of(*icosahedron, *up_options, *down_options).valid(grid_options(*old(options))),
    ensures
        puzzle_of(*icosahedron, *up_options, *down_options).valid(grid_options(*final(options))),
        puzzle_of(*icosahedron, *up_options, *down_options).narrowed(
            grid_options(*old(options)),
            grid_options(*final(options)),
        ),
        changed ==> total(grid_options(*final(options))) < total(grid_options(*old(options))),
        !changed ==> grid_options(*final(options)) == grid_options(*old(options)),
        !changed ==> puzzle_of(*icosahedron, *up_options, *down_options).consistent(
            grid_options(*final(options)),
        ),
{
    let ghost puzzle = puzzle_of(*icosahedron, *up_options, *down_options);
    let ghost start = grid_options(*options);
    let count = ICOFACE_COUNT;
    let mut changed = false;
    let mut icoface_id: usize = 0;
    proof {
        lemma_within_reflexive(start);
    }
    while icoface_id < count
        invariant
            icoface_id <= count,
            count == puzzle.grid.len(),
            icosahedron.wf(),
            puzzle == puzzle_of(*icosahedron, *up_options, *down_options),
            puzzle.valid(grid_options(*options)),
            puzzle.narrowed(start, grid_options(*options)),
            changed ==> total(grid_options(*options)) < total(start),
            !changed ==> grid_options(*options) == start,
            !changed ==> forall|done: int, deltille: int|
                0 <= done < icoface_id && puzzle.has_slot(done, deltille)
                    ==> #[trigger] puzzle.slot_consistent(grid_options(*options), done, deltille),
        decreases count - icoface_id,
    {
        let ghost before = grid_options(*options);
        let narrowed = narrow_face(icosahedron, up_options, down_options, options, icoface_id);
        proof {
            lemma_narrowed_transitive(puzzle, start, before, grid_options(*options));
        }
        if narrowed {
            changed = true;
        }
        icoface_id += 1;
    }
    changed
}

/// Whether some slot has no option left.
pub fn has_empty_slot(options: &Vec<Vec<Vec<usize>>>) -> (found: bool)
    ensures
        found == has_empty(grid_options(*options)),
{
    let ghost all = grid_options(*options);
    let mut icoface_id: usize = 0;
    while icoface_id < options.len()
        invariant
            icoface_id <= options@.len(),
            all == grid_options(*options),
            forall|face: int, deltille: int|
                0 <= face < icoface_id && 0 <= deltille < all[face].len() ==> (
                #[trigger] all[face][deltille]).len() != 0,
        decreases options@.len() - icoface_id,
    {
        let mut deltille_id: usize = 0;
        while deltille_id < options[icoface_id].len()
            invariant
                icoface_id < options@.len(),
                deltille_id <= options@[icoface_id as int]@.len(),
                all == grid_options(*options),
                forall|face: int, deltille: int|
                    0 <= face < icoface_id && 0 <= deltille < all[face].len() ==> (
                    #[trigger] all[face][deltille]).len() != 0,
                forall|deltille: int|
                    0 <= deltille < deltille_id ==> (#[trigger] all[icoface_id as int][deltille]).len()
                        != 0,
            decreases options@[icoface_id as int]@.len() - deltille_id,
        {
            if options[icoface_id][deltille_id].len() == 0 {
                assert(all[icoface_id as int][deltille_id as int].len() == 0);
                return true;
            }
            deltille_id += 1;
        }
        icoface_id += 1;
    }
    false
}

} // verus!
