//! The shape of forest-inventory stand records as delivered by the data
//! source: geometry carried as coordinate strings, plus identifiers and
//! management metadata.  The caller parses its transport format into these
//! structures; the library turns the coordinate strings into fixed-point
//! geometry.

use vstd::prelude::*;

verus! {

#[derive(Debug, Default, Clone, PartialEq)]
pub struct PolygonGeometry {
    pub point_property: PointProperty,
    pub polygon_property: PolygonProperty,
}

#[derive(Debug, Default, Clone, PartialEq)]
pub struct PointProperty {
    pub point: Point,
}

#[derive(Debug, Default, Clone, PartialEq)]
pub struct Point {
    pub srs_name: String,
    pub coordinates: String,
}

#[derive(Debug, Default, Clone, PartialEq)]
pub struct PolygonProperty {
    pub polygon: Polygon,
}

/// A polygon as delivered: one exterior ring and any number of interior
/// rings, each a coordinate string.
#[derive(Debug, Default, Clone, PartialEq)]
pub struct Polygon {
    pub srs_name: String,
    pub interior: Vec<Interior>,
    pub exterior: Exterior,
}

#[derive(Debug, Default, Clone, PartialEq)]
pub struct Interior {
    pub linear_ring: LinearRing,
}

#[derive(Debug, Default, Clone, PartialEq)]
pub struct Exterior {
    pub linear_ring: LinearRing,
}

#[derive(Debug, Default, Clone, PartialEq)]
pub struct LinearRing {
    pub coordinates: String,
}

#[derive(Debug, Default, Clone, PartialEq)]
pub struct Identifiers {
    pub identifier: Identifier,
}

#[derive(Debug, Default, Clone, PartialEq)]
pub struct Identifier {
    pub identifier_type: String,
    pub identifier_value: String,
}

#[derive(Debug, Default, Clone, PartialEq)]
pub struct SpecialFeatures {
    pub special_feature: Vec<SpecialFeature>,
}

#[derive(Debug, Default, Clone, PartialEq)]
pub struct SpecialFeature {
    pub id: u32,
    pub feature_additional_code: Option<String>,
    pub feature_code: String,
}

#[derive(Debug, Default, Clone, PartialEq)]
pub struct CompletionData {
    pub completion_date: String,
}

#[derive(Debug, Default, Clone, PartialEq)]
pub struct Specifications {
    pub specification: Vec<Specification>,
}

#[derive(Debug, Default, Clone, Copy, PartialEq, Eq, Structural)]
pub struct Specification {
    pub id: u32,
    pub specification_code: u32,
}

#[derive(Debug, Default, Clone, Copy, PartialEq, Eq, Structural)]
pub struct Silviculture {
}

#[derive(Debug, Default, Clone, Copy, PartialEq, Eq, Structural)]
pub struct ProposalData {
    pub proposal_type: u32,
    pub proposal_year: u32,
}

/// Default used for counts that the data source may omit.
pub fn default_zero_u32() -> (r: u32)
    ensures
        r == 0,
{
    0
}

} // verus!
