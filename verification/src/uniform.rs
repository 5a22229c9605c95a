//! Catalogs whose tiles carry one label on all three sides. A tiling with
//! such tiles can never run into a dead end: whichever tile a slot is given,
//! every other slot keeps a tile with the same label.

use vstd::prelude::*;
use crate::adjacency::{link_resolves, well_formed};
use crate::constraints::{has_empty, with_slot, within, Options, Puzzle};
use crate::sockets::{down_options, up_options, Deltille};

verus! {

/// Whether every tile of a catalog carries the same label on its three sides.
pub open spec fn self_compatible(catalog: Seq<Deltille>) -> bool {
    forall|tile: int|
        0 <= tile < catalog.len() ==> (#[trigger] catalog[tile]).label(0) == catalog[tile].label(1)
            && catalog[tile].label(1) == catalog[tile].label(2)
}

impl Puzzle {
    /// Whether every tile of both catalogs carries the same label on its
    /// three sides.
    pub open spec fn uniform(self) -> bool {
        self_compatible(self.up) && self_compatible(self.down)
    }

    /// Whether options can never lead to a dead end: the tiles carry one
    /// label each, the options are consistent, and every slot has one.
    pub open spec fn carefree(self, options: Options) -> bool {
        self.uniform() && self.consistent(options) && !has_empty(options)
    }

    /// The label of a tile of a slot's catalog, where the tile has but one.
    pub open spec fn tile_label(self, face: int, deltille: int, tile: usize) -> Seq<char> {
        self.slot_catalog(face, deltille)[tile as int].label(0)
    }

    /// Whether a slot has an option with the given label.
    pub open spec fn has_label(self, options: Options, face: int, deltille: int, label: Seq<char>) -> bool {
        exists|tile: usize| #[trigger]
            options[face][deltille].contains(tile) && self.tile_label(face, deltille, tile) == label
    }

    /// An option of a slot with the given label, if it has one.
    pub open spec fn labelled(self, options: Options, face: int, deltille: int, label: Seq<char>) -> usize {
        choose|tile: usize| #[trigger]
            options[face][deltille].contains(tile) && self.tile_label(face, deltille, tile) == label
    }

    /// What is left to a slot once another slot has been given a tile: the
    /// slot that was given the tile holds it alone, a slot with an option of
    /// the tile's label holds one such option, and a slot with none keeps
    /// what it has.
    pub open spec fn left_to(
        self,
        options: Options,
        face: int,
        deltille: int,
        tile: usize,
        at: int,
        slot: int,
    ) -> Seq<usize> {
        let label = self.tile_label(face, deltille, tile);
        if at == face && slot == deltille {
            seq![tile]
        } else if self.has_label(options, at, slot, label) {
            seq![self.labelled(options, at, slot, label)]
        } else {
            options[at][slot]
        }
    }

    /// What is left to every slot once a slot has been given a tile.
    pub open spec fn left_after(self, options: Options, face: int, deltille: int, tile: usize) -> Options {
        Seq::new(
            options.len(),
            |at: int|
                Seq::new(
                    options[at].len(),
                    |slot: int| self.left_to(options, face, deltille, tile, at, slot),
                ),
        )
    }
}

/// With tiles of one label each, two tiles fit exactly if their labels are equal.
pub proof fn lemma_fits_by_label(
    puzzle: Puzzle,
    face: int,
    deltille: int,
    side: int,
    tile: usize,
    other: usize,
)
    requires
        well_formed(puzzle.grid),
        puzzle.uniform(),
        puzzle.has_slot(face, deltille),
        0 <= side < 3,
        tile < puzzle.slot_catalog(face, deltille).len(),
        other < puzzle.slot_catalog(
            puzzle.link(face, deltille, side).face,
            puzzle.link(face, deltille, side).deltille,
        ).len(),
    ensures
        puzzle.fits(face, deltille, side, tile, other) <==> puzzle.tile_label(face, deltille, tile)
            == puzzle.tile_label(
            puzzle.link(face, deltille, side).face,
            puzzle.link(face, deltille, side).deltille,
            other,
        ),
{
    let link = puzzle.link(face, deltille, side);
    let own = puzzle.slot_catalog(face, deltille)[tile as int];
    let across = puzzle.slot_catalog(link.face, link.deltille)[other as int];
    assert(own.label(0) == own.label(1) && own.label(1) == own.label(2));
    assert(across.label(0) == across.label(1) && across.label(1) == across.label(2));
}

/// In consistent options of tiles of one label each, the neighbour across
/// any side of a slot has an option with the label of any option of the slot.
pub proof fn lemma_label_across(
    puzzle: Puzzle,
    options: Options,
    face: int,
    deltille: int,
    side: int,
    tile: usize,
)
    requires
        well_formed(puzzle.grid),
        puzzle.uniform(),
        puzzle.valid(options),
        puzzle.consistent(options),
        puzzle.has_slot(face, deltille),
        0 <= side < 3,
        options[face][deltille].contains(tile),
    ensures
        puzzle.has_label(
            options,
            puzzle.link(face, deltille, side).face,
            puzzle.link(face, deltille, side).deltille,
            puzzle.tile_label(face, deltille, tile),
        ),
{
    let link = puzzle.link(face, deltille, side);
    assert(link_resolves(puzzle.grid, face, deltille, side));
    assert(puzzle.slot_consistent(options, face, deltille));
    assert(puzzle.side_consistent(options, face, deltille, side));
    assert(puzzle.supported(options, face, deltille, side, tile));
    let other = choose|other: usize| #[trigger]
        options[link.face][link.deltille].contains(other) && puzzle.fits(
            face,
            deltille,
            side,
            tile,
            other,
        );
    assert(puzzle.has_slot(link.face, link.deltille));
    lemma_fits_by_label(puzzle, face, deltille, side, tile, other);
}

/// With tiles of one label each, giving a slot any one of its options
/// leaves consistent options in which every slot has an option, if the
/// options were so before.
pub proof fn lemma_left_after_consistent(
    puzzle: Puzzle,
    options: Options,
    face: int,
    deltille: int,
    tile: usize,
)
    requires
        well_formed(puzzle.grid),
        puzzle.uniform(),
        puzzle.valid(options),
        puzzle.consistent(options),
        !has_empty(options),
        puzzle.has_slot(face, deltille),
        options[face][deltille].contains(tile),
    ensures
        within(
            puzzle.left_after(options, face, deltille, tile),
            with_slot(options, face, deltille, seq![tile]),
        ),
        puzzle.consistent(puzzle.left_after(options, face, deltille, tile)),
        !has_empty(puzzle.left_after(options, face, deltille, tile)),
{
    let left = puzzle.left_after(options, face, deltille, tile);
    let alone = with_slot(options, face, deltille, seq![tile]);
    let label = puzzle.tile_label(face, deltille, tile);
    assert(seq![tile][0] == tile);
    assert(options[face].len() == puzzle.grid[face].slots.len());

    assert forall|at: int, slot: int, any: usize|
        0 <= at < left.len() && 0 <= slot < left[at].len() && #[trigger] left[at][slot].contains(
            any,
        ) implies alone[at][slot].contains(any) by {
        if !(at == face && slot == deltille) && puzzle.has_label(options, at, slot, label) {
            let only = puzzle.labelled(options, at, slot, label);
            let index = choose|index: int| 0 <= index < 1 && seq![only][index] == any;
            assert(options[at][slot].contains(any));
        }
    }

    assert forall|at: int, slot: int|
        0 <= at < left.len() && 0 <= slot < left[at].len() implies (#[trigger] left[at][slot]).len()
        != 0 by {
        assert(options[at][slot].len() != 0);
    }

    assert forall|at: int, slot: int| puzzle.has_slot(at, slot) implies #[trigger] puzzle.slot_consistent(
    left, at, slot) by {
        assert(options[at].len() == puzzle.grid[at].slots.len());
        assert forall|side: int| 0 <= side < 3 implies #[trigger] puzzle.side_consistent(
            left,
            at,
            slot,
            side,
        ) by {
            assert forall|any: usize| #[trigger] left[at][slot].contains(any) implies puzzle.supported(
            left, at, slot, side, any) by {
                lemma_left_supported(puzzle, options, face, deltille, tile, at, slot, side, any);
            }
        }
    }
}

/// One case of `lemma_left_after_consistent`: an option left to a slot is
/// supported across a side by what is left to the neighbour.
proof fn lemma_left_supported(
    puzzle: Puzzle,
    options: Options,
    face: int,
    deltille: int,
    tile: usize,
    at: int,
    slot: int,
    side: int,
    any: usize,
)
    requires
        well_formed(puzzle.grid),
        puzzle.uniform(),
        puzzle.valid(options),
        puzzle.consistent(options),
        puzzle.has_slot(face, deltille),
        options[face][deltille].contains(tile),
        puzzle.has_slot(at, slot),
        0 <= side < 3,
        puzzle.left_after(options, face, deltille, tile)[at][slot].contains(any),
    ensures
        puzzle.supported(puzzle.left_after(options, face, deltille, tile), at, slot, side, any),
{
    let left = puzzle.left_after(options, face, deltille, tile);
    let label = puzzle.tile_label(face, deltille, tile);
    let link = puzzle.link(at, slot, side);
    let back = link.socket.spec_index();
    assert(seq![tile][0] == tile);
    assert(options[at].len() == puzzle.grid[at].slots.len());
    assert(options[face].len() == puzzle.grid[face].slots.len());
    assert(link_resolves(puzzle.grid, at, slot, side));
    assert(options[link.face].len() == puzzle.grid[link.face].slots.len());
    assert(puzzle.has_slot(link.face, link.deltille));
    assert(puzzle.link(link.face, link.deltille, back).face == at);
    assert(puzzle.link(link.face, link.deltille, back).deltille == slot);

    // the option is one of the slot's own
    assert(options[at][slot].contains(any)) by {
        if at == face && slot == deltille {
            let index = choose|index: int| 0 <= index < 1 && seq![tile][index] == any;
        } else if puzzle.has_label(options, at, slot, label) {
            let only = puzzle.labelled(options, at, slot, label);
            let index = choose|index: int| 0 <= index < 1 && seq![only][index] == any;
        }
    }
    let own_label = puzzle.tile_label(at, slot, any);
    lemma_label_across(puzzle, options, at, slot, side, any);
    // across the side, in the options before, lies an option with the same label
    let other = puzzle.labelled(options, link.face, link.deltille, own_label);
    assert(options[link.face][link.deltille].contains(other));
    lemma_fits_by_label(puzzle, at, slot, side, any, other);

    if own_label == label {
        // every slot with an option of this label is left with one
        if link.face == face && link.deltille == deltille {
            lemma_fits_by_label(puzzle, at, slot, side, any, tile);
            assert(left[link.face][link.deltille].contains(tile));
        } else {
            let only = puzzle.labelled(options, link.face, link.deltille, label);
            assert(seq![only][0] == only);
            lemma_fits_by_label(puzzle, at, slot, side, any, only);
            assert(left[link.face][link.deltille].contains(only));
        }
    } else {
        // the slot kept all its options, so it had none of the tile's label;
        // then the neighbour had none either, and kept all its own
        assert(!(at == face && slot == deltille));
        assert(!puzzle.has_label(options, at, slot, label)) by {
            if puzzle.has_label(options, at, slot, label) {
                let only = puzzle.labelled(options, at, slot, label);
                let index = choose|index: int| 0 <= index < 1 && seq![only][index] == any;
            }
        }
        if link.face == face && link.deltille == deltille {
            lemma_label_across(puzzle, options, link.face, link.deltille, back, tile);
            assert(false);
        }
        if puzzle.has_label(options, link.face, link.deltille, label) {
            let only = puzzle.labelled(options, link.face, link.deltille, label);
            lemma_label_across(puzzle, options, link.face, link.deltille, back, only);
            assert(false);
        }
        assert(left[link.face][link.deltille] == options[link.face][link.deltille]);
        assert(left[link.face][link.deltille].contains(other));
    }
}

/// Narrowing options that can never lead to a dead end changes nothing of
/// that: the narrowed options are consistent and leave every slot an option.
pub proof fn lemma_narrowed_carefree(puzzle: Puzzle, seeds: Options, first: Options)
    requires
        puzzle.narrowed(seeds, first),
        puzzle.consistent(first),
        puzzle.carefree(seeds),
    ensures
        puzzle.carefree(first),
{
    crate::constraints::lemma_within_reflexive(seeds);
    assert(within(seeds, first));
    if has_empty(first) {
        crate::stack::lemma_within_empty(seeds, first);
    }
}

/// A solve over the two catalogs derived from one catalog of tiles with one
/// label each, on a grid whose slots list every tile, starts from options
/// that can never lead to a dead end.
pub proof fn lemma_seeded_carefree(puzzle: Puzzle, catalog: Seq<Deltille>, seeds: Options)
    requires
        well_formed(puzzle.grid),
        catalog.len() > 0,
        self_compatible(catalog),
        puzzle.up == up_options(catalog),
        puzzle.down == down_options(catalog),
        puzzle.seeded(seeds),
        forall|face: int, deltille: int, tile: usize|
            puzzle.has_slot(face, deltille) && tile < 2 * catalog.len()
                ==> #[trigger] puzzle.grid[face].slots[deltille].options.contains(tile),
    ensures
        puzzle.carefree(seeds),
{
    assert forall|tile: int| 0 <= tile < puzzle.up.len() implies (#[trigger] puzzle.up[tile]).label(
        0,
    ) == puzzle.up[tile].label(1) && puzzle.up[tile].label(1) == puzzle.up[tile].label(2) by {
        let source = catalog[tile / 2];
        assert(source.label(0) == source.label(1) && source.label(1) == source.label(2));
    }
    assert forall|tile: int| 0 <= tile < puzzle.down.len() implies (
    #[trigger] puzzle.down[tile]).label(0) == puzzle.down[tile].label(1)
        && puzzle.down[tile].label(1) == puzzle.down[tile].label(2) by {
        let source = catalog[tile / 2];
        assert(source.label(0) == source.label(1) && source.label(1) == source.label(2));
    }
    assert forall|face: int, deltille: int| puzzle.has_slot(face, deltille) implies (
    #[trigger] seeds[face][deltille]).len() != 0 by {
        assert(puzzle.grid[face].slots[deltille].options.contains(0usize));
        assert(seeds[face][deltille].contains(0usize));
    }
    assert(!has_empty(seeds)) by {
        if has_empty(seeds) {
            let (face, deltille) = choose|face: int, deltille: int|
                0 <= face < seeds.len() && 0 <= deltille < seeds[face].len() && (
                #[trigger] seeds[face][deltille]).len() == 0;
            assert(seeds[face].len() == puzzle.grid[face].slots.len());
        }
    }
    assert forall|face: int, deltille: int| puzzle.has_slot(face, deltille) implies #[trigger] puzzle.slot_consistent(
    seeds, face, deltille) by {
        assert forall|side: int| 0 <= side < 3 implies #[trigger] puzzle.side_consistent(
            seeds,
            face,
            deltille,
            side,
        ) by {
            let link = puzzle.link(face, deltille, side);
            assert(link_resolves(puzzle.grid, face, deltille, side));
            assert(puzzle.has_slot(link.face, link.deltille));
            assert forall|tile: usize| #[trigger]
                seeds[face][deltille].contains(tile) implies puzzle.supported(
                seeds,
                face,
                deltille,
                side,
                tile,
            ) by {
                assert(tile < 2 * catalog.len());
                assert(puzzle.grid[link.face].slots[link.deltille].options.contains(tile));
                assert(seeds[link.face][link.deltille].contains(tile));
                let source = catalog[tile as int / 2];
                assert(source.label(0) == source.label(1) && source.label(1) == source.label(2));
                assert(puzzle.fits(face, deltille, side, tile, tile));
            }
        }
    }
}

} // verus!
