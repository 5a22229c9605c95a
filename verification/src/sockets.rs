//! Orientations, sockets and the tile catalog.

use vstd::prelude::*;

verus! {

/// Number of orientations a triangle can have.
pub const VERTICAL_ORIENTATION_COUNT: usize = 2;

/// Number of sides, and so of sockets, of a triangle.
pub const SOCKET_COUNT: usize = 3;

/// ```text
/// Up | Down
/// /\ |  \/
/// ```
#[derive(Debug, Clone, Copy, PartialEq, Eq, Structural)]
pub enum VerticalOrientation {
    Up,
    Down,
}

impl VerticalOrientation {
    /// Place of this orientation in a list with one entry per orientation.
    pub open spec fn spec_index(&self) -> int {
        match self {
            VerticalOrientation::Up => 0,
            VerticalOrientation::Down => 1,
        }
    }

    /// Place of this orientation in an array with one entry per orientation.
    pub fn index(&self) -> (i: usize)
        ensures
            i == self.spec_index(),
            i < VERTICAL_ORIENTATION_COUNT,
    {
        match self {
            VerticalOrientation::Up => 0,
            VerticalOrientation::Down => 1,
        }
    }
}

/// ```text
/// NW   NE |    N
///    /\   |    \/
///    S    | SW   SE
/// ```
#[derive(Debug, Copy, Clone, PartialEq, Eq, Hash, Structural)]
pub enum DeltilleFaceSocket {
    N,
    NE,
    SE,
    S,
    SW,
    NW,
}

impl DeltilleFaceSocket {
    /// Place of this socket among the three sides of the triangle it belongs
    /// to, clockwise from the top.
    pub open spec fn spec_index(&self) -> int {
        match self {
            DeltilleFaceSocket::N => 0,
            DeltilleFaceSocket::NE => 0,
            DeltilleFaceSocket::SE => 1,
            DeltilleFaceSocket::S => 1,
            DeltilleFaceSocket::SW => 2,
            DeltilleFaceSocket::NW => 2,
        }
    }

    /// Place of this socket among the three sides of the triangle it belongs
    /// to, clockwise from the top.
    pub fn index(&self) -> (i: usize)
        ensures
            i == self.spec_index(),
            i < SOCKET_COUNT,
    {
        match self {
            DeltilleFaceSocket::N => 0,
            DeltilleFaceSocket::NE => 0,
            DeltilleFaceSocket::SE => 1,
            DeltilleFaceSocket::S => 1,
            DeltilleFaceSocket::SW => 2,
            DeltilleFaceSocket::NW => 2,
        }
    }
}

/// The flag a tile has for a mirror that its record does not mention.
pub fn default_flip() -> (flip: bool)
    ensures
        !flip,
{
    false
}

/// One entry of the tile catalog: the image to draw, whether to draw it
/// mirrored, and the label on each of its three sides, in the order of the
/// sockets of the triangle it is placed on.
#[derive(Clone, Debug)]
pub struct Deltille {
    pub image_path: String,
    pub flip_x: bool,
    pub flip_y: bool,
    pub sockets: [String; SOCKET_COUNT],
}

impl Deltille {
    /// This tile with its mirror flags replaced and everything else kept.
    pub open spec fn with_flips(self, flip_x: bool, flip_y: bool) -> Deltille {
        Deltille { image_path: self.image_path, flip_x, flip_y, sockets: self.sockets }
    }

    /// The label on the side with the given index.
    pub open spec fn label(self, side: int) -> Seq<char> {
        self.sockets[side]@
    }

    /// A copy of this tile with the given mirror flags. The labels are kept
    /// as authored: a mirror changes how the image is drawn, not what the
    /// record says of its sides.
    pub fn mirrored(&self, flip_x: bool, flip_y: bool) -> (copy: Deltille)
        ensures
            copy == self.with_flips(flip_x, flip_y),
    {
        let sockets = [self.sockets[0].clone(), self.sockets[1].clone(), self.sockets[2].clone()];
        assert(sockets =~= self.sockets);
        Deltille { image_path: self.image_path.clone(), flip_x, flip_y, sockets }
    }
}

/// Whether two tiles may touch, the first with the given side against the
/// given side of the other: they may if the two sides carry the same label.
pub fn sockets_match(tile: &Deltille, side: usize, other: &Deltille, other_side: usize) -> (matching:
    bool)
    requires
        side < SOCKET_COUNT,
        other_side < SOCKET_COUNT,
    ensures
        matching == (tile.label(side as int) == other.label(other_side as int)),
{
    tile.sockets[side] == other.sockets[other_side]
}

/// The tiles an upward triangle can take: each record as authored, followed
/// by its horizontal mirror.
pub open spec fn up_options(inputs: Seq<Deltille>) -> Seq<Deltille> {
    Seq::new(
        2 * inputs.len(),
        |i: int|
            if i % 2 == 0 {
                inputs[i / 2]
            } else {
                inputs[i / 2].with_flips(!inputs[i / 2].flip_x, inputs[i / 2].flip_y)
            },
    )
}

/// The tiles a downward triangle can take: the vertical mirror of each
/// record, followed by the mirror in both directions.
pub open spec fn down_options(inputs: Seq<Deltille>) -> Seq<Deltille> {
    Seq::new(
        2 * inputs.len(),
        |i: int|
            if i % 2 == 0 {
                inputs[i / 2].with_flips(inputs[i / 2].flip_x, !inputs[i / 2].flip_y)
            } else {
                inputs[i / 2].with_flips(!inputs[i / 2].flip_x, !inputs[i / 2].flip_y)
            },
    )
}

/// Derives the catalog for upward triangles.
pub fn up_options_from(deltille_inputs: &Vec<Deltille>) -> (deltilles: Vec<Deltille>)
    ensures
        deltilles@ == up_options(deltille_inputs@),
{
    let mut deltilles: Vec<Deltille> = Vec::new();
    let mut i: usize = 0;
    while i < deltille_inputs.len()
        invariant
            i <= deltille_inputs.len(),
            deltilles@.len() == 2 * i,
            forall|k: int| 0 <= k < 2 * i ==> deltilles@[k] == up_options(deltille_inputs@)[k],
        decreases deltille_inputs.len() - i,
    {
        let deltille = &deltille_inputs[i];
        deltilles.push(deltille.mirrored(deltille.flip_x, deltille.flip_y));
        deltilles.push(deltille.mirrored(!deltille.flip_x, deltille.flip_y));
        i += 1;
    }
    assert(deltilles@ =~= up_options(deltille_inputs@));
    deltilles
}

/// Derives the catalog for downward triangles.
pub fn down_options_from(deltille_inputs: &Vec<Deltille>) -> (deltilles: Vec<Deltille>)
    ensures
        deltilles@ == down_options(deltille_inputs@),
{
    let mut deltilles: Vec<Deltille> = Vec::new();
    let mut i: usize = 0;
    while i < deltille_inputs.len()
        invariant
            i <= deltille_inputs.len(),
            deltilles@.len() == 2 * i,
            forall|k: int| 0 <= k < 2 * i ==> deltilles@[k] == down_options(deltille_inputs@)[k],
        decreases deltille_inputs.len() - i,
    {
        let deltille = &deltille_inputs[i];
        deltilles.push(deltille.mirrored(deltille.flip_x, !deltille.flip_y));
        deltilles.push(deltille.mirrored(!deltille.flip_x, !deltille.flip_y));
        i += 1;
    }
    assert(deltilles@ =~= down_options(deltille_inputs@));
    deltilles
}

} // verus!
