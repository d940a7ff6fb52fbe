//! A tree population paired with the geometry it was generated for, kept
//! in the delivered (schema) form for export.

use vstd::prelude::*;
use crate::schema::Polygon;
use crate::tree::Tree;

verus! {

/// Trees with the delivered geometry they belong to.
#[derive(Debug, Clone, PartialEq)]
pub struct GeoTree {
    pub trees: Vec<Tree>,
    pub polygon: Polygon,
}

impl GeoTree {
    pub fn new(trees: Vec<Tree>, polygon: Polygon) -> (g: GeoTree)
        ensures
            g.trees == trees,
            g.polygon == polygon,
    {
        GeoTree { trees, polygon }
    }

    pub fn trees(&self) -> (r: &Vec<Tree>)
        ensures
            r == &self.trees,
    {
        &self.trees
    }

    pub fn polygon(&self) -> (r: &Polygon)
        ensures
            r == &self.polygon,
    {
        &self.polygon
    }
}

} // verus!
