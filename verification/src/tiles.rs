//! Names of the background map-tile layers offered by the national map
//! service.

use vstd::prelude::*;

verus! {

/// A background tile layer.
#[derive(Debug, Clone, Copy, PartialEq, Eq, Structural)]
pub enum MmlTile {
    Water,
    Roads,
}

impl MmlTile {
    /// The layer's name in the tile service's interface.
    pub fn as_str(&self) -> (s: &'static str)
        ensures
            self is Water ==> s@ == "vesi"@,
            self is Roads ==> s@ == "tieviiva"@,
    {
        match self {
            MmlTile::Water => "vesi",
            MmlTile::Roads => "tieviiva",
        }
    }
}

} // verus!
