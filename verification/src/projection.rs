//! Coordinate reference systems the pipeline works with.  The actual
//! projection arithmetic is an external concern; the library only carries
//! the systems' proj definition strings.

use vstd::prelude::*;

verus! {

/// The two coordinate reference systems of the data source: the national
/// metric grid and geographic coordinates.
#[derive(Debug, Clone, Copy, PartialEq, Eq, Structural)]
pub enum CRS {
    Epsg3067,
    Epsg4326,
}

impl CRS {
    /// The proj definition string of this reference system.
    pub fn proj_str(&self) -> (s: &'static str)
        ensures
            self is Epsg3067 ==> s@
                == "+proj=utm +zone=35 +ellps=GRS80 +towgs84=0,0,0,0,0,0,0 +units=m +no_defs +type=crs"@,
            self is Epsg4326 ==> s@ == "+proj=longlat +datum=WGS84 +no_defs +type=crs"@,
    {
        match self {
            CRS::Epsg3067 => "+proj=utm +zone=35 +ellps=GRS80 +towgs84=0,0,0,0,0,0,0 +units=m +no_defs +type=crs",
            CRS::Epsg4326 => "+proj=longlat +datum=WGS84 +no_defs +type=crs",
        }
    }
}

} // verus!
