//! A single synthesized tree: species, height and position, all fixed-point.

use vstd::prelude::*;

verus! {

/// One synthesized tree.  `mean_height` and the position coordinates carry
/// three decimal places (`math::MILLI` per unit); the third position
/// component is always zero.
#[derive(Default, Debug, Clone, Copy, PartialEq)]
pub struct Tree {
    pub species: u8,
    pub mean_height: i64,
    pub position: (i64, i64, i64),
}

impl Tree {
    pub fn new(species: u8, mean_height: i64, position: (i64, i64, i64)) -> (t: Tree)
        ensures
            t.species == species,
            t.mean_height == mean_height,
            t.position == position,
    {
        Tree { species, mean_height, position }
    }

    pub fn species(&self) -> (s: u8)
        ensures
            s == self.species,
    {
        self.species
    }

    pub fn position(&self) -> (p: (i64, i64, i64))
        ensures
            p == self.position,
    {
        self.position
    }
}

} // verus!
