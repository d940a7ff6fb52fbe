//! A stand's synthesized trees together with its delivered geometry.

use vstd::prelude::*;
use crate::compartment::{filter_in_box, tree_in_box};
use crate::schema::Polygon;
use crate::tree::Tree;

verus! {

/// Trees synthesized for one stand, with the stand's geometry as
/// delivered.
#[derive(Debug, Clone, PartialEq)]
pub struct StandTrees {
    pub trees: Vec<Tree>,
    pub polygon: Polygon,
}

impl StandTrees {
    pub fn new(trees: Vec<Tree>, polygon: Polygon) -> (s: StandTrees)
        ensures
            s.trees == trees,
            s.polygon == polygon,
    {
        StandTrees { trees, polygon }
    }

    pub fn trees(&self) -> (r: &Vec<Tree>)
        ensures
            r == &self.trees,
    {
        &self.trees
    }

    pub fn polygon(&self) -> (r: &Polygon)
        ensures
            r == &self.polygon,
    {
        &self.polygon
    }

    /// The trees inside the given bounds.
    pub fn trees_in_bounding_box(&self, min_x: i64, max_x: i64, min_y: i64, max_y: i64) -> (r:
        Vec<Tree>)
        ensures
            r@ == filter_in_box(self.trees@, min_x, max_x, min_y, max_y),
    {
        let n = self.trees.len();
        let mut out: Vec<Tree> = Vec::new();
        let mut i: usize = 0;
        while i < n
            invariant
                n == self.trees@.len(),
                0 <= i <= n,
                out@ == filter_in_box(self.trees@.take(i as int), min_x, max_x, min_y, max_y),
            decreases n - i,
        {
            let t = self.trees[i];
            proof {
                assert(self.trees@.take(i + 1).drop_last() =~= self.trees@.take(i as int));
                assert(self.trees@.take(i + 1).last() == t);
                assert(tree_in_box(t, min_x, max_x, min_y, max_y) == (min_x <= t.position.0
                    <= max_x && min_y <= t.position.1 <= max_y));
            }
            if t.position.0 >= min_x && t.position.0 <= max_x && t.position.1 >= min_y
                && t.position.1 <= max_y {
                out.push(t);
            }
            i = i + 1;
        }
        proof {
            assert(self.trees@.take(n as int) =~= self.trees@);
        }
        out
    }
}

} // verus!
