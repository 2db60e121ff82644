//! Tiles, the labels on their sides, and the rule by which two sides match.

use vstd::prelude::*;

verus! {

/// Which half of an insect a side shows.
#[derive(Debug, Clone, Copy, PartialEq, Eq, Structural)]
pub enum InsectPart {
    Bottom,
    Upper,
}

/// The insect drawn across a side.
#[derive(Debug, Clone, Copy, PartialEq, Eq, Structural)]
pub enum Insect {
    Spider,
    Ladybug,
    Bee,
    Cricket,
}

/// Two sides may touch when they show the same insect and opposite halves.
pub open spec fn compatible(a: (Insect, InsectPart), b: (Insect, InsectPart)) -> bool {
    a.0 == b.0 && a.1 != b.1
}

/// A square tile with one label on each side.
#[derive(Debug, Clone, Copy, PartialEq, Eq)]
pub struct Tile {
    pub north: (Insect, InsectPart),
    pub east: (Insect, InsectPart),
    pub south: (Insect, InsectPart),
    pub west: (Insect, InsectPart),
}

impl Tile {
    /// The tile after a quarter turn clockwise: every label moves on to the
    /// next side.
    pub open spec fn rotated(self) -> Tile {
        Tile { north: self.west, east: self.north, south: self.east, west: self.south }
    }

    /// The tile after `k` quarter turns.
    pub open spec fn turned(self, k: nat) -> Tile
        decreases k,
    {
        if k == 0 {
            self
        } else {
            self.turned((k - 1) as nat).rotated()
        }
    }

    /// A tile with the given labels on its four sides.
    pub fn new(
        north: (Insect, InsectPart),
        east: (Insect, InsectPart),
        south: (Insect, InsectPart),
        west: (Insect, InsectPart),
    ) -> (tile: Self)
        ensures
            tile == (Tile { north, east, south, west }),
    {
        Tile { north, east, south, west }
    }

    /// Turns the tile a quarter turn clockwise, in place.
    pub fn rotate(&mut self)
        ensures
            *final(self) == old(self).rotated(),
    {
        let north = self.north;
        self.north = self.west;
        self.west = self.south;
        self.south = self.east;
        self.east = north;
    }
}

/// Four quarter turns bring every tile back to where it started.
pub proof fn lemma_four_rotations_restore(t: Tile)
    ensures
        t.rotated().rotated().rotated().rotated() == t,
        t.turned(4) == t,
{
    reveal_with_fuel(Tile::turned, 5);
}

/// Turning `j` times and then `k` times is turning `j + k` times.
pub proof fn lemma_turns_add(t: Tile, j: nat, k: nat)
    ensures
        t.turned(j).turned(k) == t.turned(j + k),
    decreases k,
{
    if k > 0 {
        lemma_turns_add(t, j, (k - 1) as nat);
    }
}

/// Only the number of quarter turns modulo four matters.
pub proof fn lemma_turns_cycle(t: Tile, k: nat)
    ensures
        t.turned(k) == t.turned(k % 4),
    decreases k,
{
    if k >= 4 {
        lemma_turns_cycle(t, (k - 4) as nat);
        lemma_turns_add(t, (k - 4) as nat, 4);
        lemma_four_rotations_restore(t.turned((k - 4) as nat));
    }
}

/// The matching rule does not depend on which of the two sides is asked.
pub proof fn lemma_compatible_symmetric(a: (Insect, InsectPart), b: (Insect, InsectPart))
    ensures
        compatible(a, b) == compatible(b, a),
{
}

} // verus!
