//! Per-stand survey data: species strata and the stand-level summary.
//!
//! Statistical values (basal area, heights, diameters) carry three decimal
//! places (`math::MILLI` per unit).

use vstd::prelude::*;

verus! {

/// One species layer of a stand: the statistical summary that drives tree
/// synthesis for that species.
#[derive(Default, Debug, Clone, Copy, PartialEq, Eq, Structural)]
pub struct TreeStratum {
    pub id: u32,
    pub stratum_number: u32,
    pub tree_species: u8,
    pub storey: u8,
    pub age: u8,
    pub stem_count: u32,
    pub mean_diameter: i64,
    pub mean_height: i64,
    pub data_source: u32,
    pub basal_area: i64,
}

/// The strata of one survey snapshot.
#[derive(Default, Debug, Clone, PartialEq)]
pub struct TreeStrata {
    pub tree_stratum: Vec<TreeStratum>,
}

impl TreeStrata {
    pub fn new(tree_stratum: Vec<TreeStratum>) -> (s: TreeStrata)
        ensures
            s.tree_stratum == tree_stratum,
    {
        TreeStrata { tree_stratum }
    }
}

/// Stand-level totals of one survey snapshot.
#[derive(Default, Debug, Clone, Copy, PartialEq, Eq, Structural)]
pub struct TreeStandSummary {
    pub id: u32,
    pub mean_age: i64,
    pub basal_area: i64,
    pub stem_count: u32,
    pub mean_diameter: i64,
    pub mean_height: i64,
    pub volume: i64,
}

/// One dated survey snapshot of a stand.
#[derive(Default, Debug, Clone, PartialEq)]
pub struct TreeStandDataDate {
    pub date: String,
    pub tree_stand_data_date_type: u8,
    pub tree_strata: TreeStrata,
    pub tree_stand_summary: Option<TreeStandSummary>,
}

/// All survey snapshots of a stand, oldest first; synthesis always reads the
/// last one.
#[derive(Default, Debug, Clone, PartialEq)]
pub struct TreeStandData {
    pub tree_stand_data_date: Vec<TreeStandDataDate>,
}

} // verus!
