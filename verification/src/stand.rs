//! Stands: inventory polygons with their survey snapshots.
//!
//! A stand arrives with its geometry as coordinate strings; `create_polygon`
//! turns them into a well-formed fixed-point polygon (repairing an unclosed
//! ring, skipping malformed vertices, and falling back to a degenerate
//! zero-area ring when no usable exterior remains).  Synthesis always reads
//! the latest survey snapshot.

use vstd::prelude::*;
use crate::coords::{
    Coord, GeoPolygon, CLIP_VERTEX_LIMIT, HOLES_LIMIT, coord_ok, polygon_ok, ring_ok,
};
use crate::clip::polygon_compact;
use crate::parse::{parse_coordinates, spec_parse_coords};
use crate::schema::{
    Exterior, Identifier, Identifiers, Interior, LinearRing, Point, PointProperty, Polygon,
    PolygonGeometry, PolygonProperty, SpecialFeature, SpecialFeatures,
};
use crate::tree_stand_data::{TreeStandData, TreeStandDataDate, TreeStrata, TreeStratum};

verus! {

/// The stand-level attributes delivered with each stand; `area` carries
/// three decimal places.
#[derive(Debug, Default, Clone, PartialEq)]
pub struct StandBasicData {
    pub identifiers: Option<Identifiers>,
    pub cutting_restriction: u8,
    pub change_time: String,
    pub complete_state: u8,
    pub stand_number: u16,
    pub stand_number_extension: String,
    pub main_group: u8,
    pub stand_basic_data_date: String,
    pub area: i64,
    pub polygon_geometry: PolygonGeometry,
    pub main_tree_species: Option<u8>,
}

#[derive(Debug, Default, Clone, PartialEq)]
pub struct Stand {
    pub id: String,
    pub stand_basic_data: StandBasicData,
    pub special_features: Option<SpecialFeatures>,
    pub tree_stand_data: Option<TreeStandData>,
    pub computed_polygon: Option<GeoPolygon>,
}

#[derive(Debug, Default, Clone, PartialEq)]
pub struct Stands {
    pub stand: Vec<Stand>,
}

/// Coordinates parsed from one coordinate string, before repair.
pub open spec fn parsed_ring(sc: Seq<char>) -> Seq<Coord> {
    spec_parse_coords(vstd::utf8::encode_utf8(sc), 0, 0)
}

/// Ring repair: a parsed vertex list becomes a ring by closing it if
/// needed; lists too short (or far too long) are rejected.
pub open spec fn spec_sanitize_ring(s: Seq<Coord>) -> Option<Seq<Coord>> {
    if s.len() < 3 || s.len() > CLIP_VERTEX_LIMIT - 1 {
        Option::None
    } else {
        let closed = if s[0] == s[s.len() - 1] {
            s
        } else {
            s.push(s[0])
        };
        if closed.len() >= 4 {
            Option::Some(closed)
        } else {
            Option::None
        }
    }
}

/// The zero-area ring used when a stand has no usable exterior.
pub open spec fn degenerate_ring() -> Seq<Coord> {
    seq![
        Coord { x: 0, y: 0 },
        Coord { x: 0, y: 0 },
        Coord { x: 0, y: 0 },
        Coord { x: 0, y: 0 },
    ]
}

/// The exterior ring a stand's coordinate string yields: the repaired
/// parse, or the degenerate ring.
pub open spec fn spec_exterior_of(sc: Seq<char>) -> Seq<Coord> {
    match spec_sanitize_ring(parsed_ring(sc)) {
        Option::Some(v) => v,
        Option::None => degenerate_ring(),
    }
}

/// The holes the interior strings yield, in order, unusable ones skipped,
/// capped at `HOLES_LIMIT`.
pub open spec fn spec_holes_of(ints: Seq<Interior>, n: int) -> Seq<Seq<Coord>>
    decreases n,
{
    if n <= 0 {
        Seq::empty()
    } else {
        let pre = spec_holes_of(ints, n - 1);
        if pre.len() >= HOLES_LIMIT {
            pre
        } else {
            match spec_sanitize_ring(parsed_ring(ints[n - 1].linear_ring.coordinates@)) {
                Option::Some(v) => pre.push(v),
                Option::None => pre,
            }
        }
    }
}

/// Repairs one parsed vertex list into a closed ring.
fn sanitize_ring(ring: Vec<Coord>) -> (out: Option<Vec<Coord>>)
    requires
        forall|i: int| 0 <= i < ring@.len() ==> coord_ok(#[trigger] ring@[i]),
    ensures
        out matches Some(v) ==> Some(v@) == spec_sanitize_ring(ring@) && ring_ok(v@) && v@.len()
            <= CLIP_VERTEX_LIMIT,
        out is None ==> spec_sanitize_ring(ring@) is None,
{
    let n = ring.len();
    if n < 3 || n > CLIP_VERTEX_LIMIT - 1 {
        return None;
    }
    let first = ring[0];
    let last = ring[n - 1];
    let mut out = ring;
    if !(first.x == last.x && first.y == last.y) {
        out.push(first);
    }
    if out.len() >= 4 {
        Some(out)
    } else {
        None
    }
}

/// A polygon carried by a stand: well formed and small enough to clip.
pub open spec fn stand_polygon_ok(p: GeoPolygon) -> bool {
    polygon_ok(p@) && polygon_compact(p@)
}

impl Stand {
    /// Parses one coordinate string of this stand's geometry.
    pub fn parse_geometry(&self, coord_string: &str) -> (out: Vec<Coord>)
        ensures
            out@ == parsed_ring(coord_string@),
            forall|k: int| 0 <= k < out@.len() ==> coord_ok(#[trigger] out@[k]),
    {
        parse_coordinates(coord_string)
    }

    /// Parses the exterior and interior rings of this stand, unrepaired.
    pub fn get_geometries(&self) -> (out: (Vec<Coord>, Vec<Vec<Coord>>))
        ensures
            out.0@ == parsed_ring(
                self.stand_basic_data.polygon_geometry.polygon_property.polygon.exterior.linear_ring.coordinates@,
            ),
            out.1@.len()
                == self.stand_basic_data.polygon_geometry.polygon_property.polygon.interior@.len(),
            forall|k: int|
                0 <= k < out.1@.len() ==> (#[trigger] out.1@[k])@ == parsed_ring(
                    self.stand_basic_data.polygon_geometry.polygon_property.polygon.interior@[k].linear_ring.coordinates@,
                ),
            forall|i: int| 0 <= i < out.0@.len() ==> coord_ok(#[trigger] out.0@[i]),
            forall|k: int, i: int|
                0 <= k < out.1@.len() && 0 <= i < out.1@[k]@.len() ==> coord_ok(
                    #[trigger] out.1@[k]@[i],
                ),
    {
        let polygon = &self.stand_basic_data.polygon_geometry.polygon_property.polygon;
        let exterior = self.parse_geometry(polygon.exterior.linear_ring.coordinates.as_str());
        let m = polygon.interior.len();
        let mut interiors: Vec<Vec<Coord>> = Vec::new();
        let mut k: usize = 0;
        while k < m
            invariant
                m == self.stand_basic_data.polygon_geometry.polygon_property.polygon.interior@.len(),
                0 <= k <= m,
                interiors@.len() == k,
                forall|h: int|
                    0 <= h < k ==> (#[trigger] interiors@[h])@ == parsed_ring(
                        self.stand_basic_data.polygon_geometry.polygon_property.polygon.interior@[h].linear_ring.coordinates@,
                    ),
                forall|h: int, i: int|
                    0 <= h < k && 0 <= i < interiors@[h]@.len() ==> coord_ok(
                        #[trigger] interiors@[h]@[i],
                    ),
            decreases m - k,
        {
            let ring = self.parse_geometry(
                self.stand_basic_data.polygon_geometry.polygon_property.polygon.interior[
                    k
                ].linear_ring.coordinates.as_str(),
            );
            interiors.push(ring);
            k = k + 1;
        }
        (exterior, interiors)
    }

    /// Builds this stand's polygon from its coordinate strings: the
    /// repaired exterior (or the degenerate zero-area ring) plus the usable
    /// holes.
    pub fn create_polygon(&self) -> (p: GeoPolygon)
        ensures
            stand_polygon_ok(p),
            p@.exterior == spec_exterior_of(
                self.stand_basic_data.polygon_geometry.polygon_property.polygon.exterior.linear_ring.coordinates@,
            ),
            p@.interiors == spec_holes_of(
                self.stand_basic_data.polygon_geometry.polygon_property.polygon.interior@,
                self.stand_basic_data.polygon_geometry.polygon_property.polygon.interior@.len() as int,
            ),
    {
        let (raw_exterior, raw_interiors) = self.get_geometries();
        let ghost ext_sc =
            self.stand_basic_data.polygon_geometry.polygon_property.polygon.exterior.linear_ring.coordinates@;
        let exterior: Vec<Coord> = match sanitize_ring(raw_exterior) {
            Some(v) => v,
            None => {
                let o = Coord { x: 0, y: 0 };
                let mut d: Vec<Coord> = Vec::new();
                d.push(o);
                d.push(o);
                d.push(o);
                d.push(o);
                proof {
                    assert(d@ =~= degenerate_ring());
                }
                d
            },
        };
        let m = raw_interiors.len();
        let ghost ints =
            self.stand_basic_data.polygon_geometry.polygon_property.polygon.interior@;
        let mut holes: Vec<Vec<Coord>> = Vec::new();
        let mut k: usize = 0;
        let mut raw_iter = raw_interiors;
        // consume the parsed interior rings front to back
        let mut idx: usize = 0;
        while idx < m
            invariant
                m == ints.len(),
                raw_iter@.len() == m,
                forall|h: int|
                    0 <= h < m ==> (#[trigger] raw_iter@[h])@ == parsed_ring(
                        ints[h].linear_ring.coordinates@,
                    ) && (forall|i: int|
                        0 <= i < raw_iter@[h]@.len() ==> coord_ok(#[trigger] raw_iter@[h]@[i])),
                0 <= idx <= m,
                holes@.map_values(|v: Vec<Coord>| v@) == spec_holes_of(ints, idx as int),
                holes@.len() <= HOLES_LIMIT,
                forall|h: int|
                    0 <= h < holes@.len() ==> ring_ok((#[trigger] holes@[h])@) && holes@[h]@.len()
                        <= CLIP_VERTEX_LIMIT,
            decreases m - idx,
        {
            if holes.len() < HOLES_LIMIT {
                let ring = raw_iter[idx].clone();
                proof {
                    assert forall|i: int| 0 <= i < ring@.len() implies ring@[i]
                        == raw_iter@[idx as int]@[i] by {
                        assert(vstd::pervasive::cloned(raw_iter@[idx as int]@[i], ring@[i]));
                    }
                    assert(ring@ =~= raw_iter@[idx as int]@);
                }
                match sanitize_ring(ring) {
                    Some(v) => {
                        holes.push(v);
                    },
                    None => {},
                }
            }
            proof {
                assert(holes@.map_values(|v: Vec<Coord>| v@) =~= spec_holes_of(ints, idx + 1));
            }
            idx = idx + 1;
        }
        let p = GeoPolygon { exterior, interiors: holes };
        proof {
            assert(p@.interiors =~~= spec_holes_of(ints, ints.len() as int));
            assert forall|kk: int| 0 <= kk < p@.interiors.len() implies ring_ok(
                #[trigger] p@.interiors[kk],
            ) && p@.interiors[kk].len() <= CLIP_VERTEX_LIMIT by {
                assert(p@.interiors[kk] == holes@[kk]@);
            }
        }
        p
    }

    /// Computes and stores this stand's polygon.
    pub fn compute_polygon(&mut self) -> (r: &Self)
        ensures
            final(self).computed_polygon matches Some(q) && stand_polygon_ok(q) && q@.exterior
                == spec_exterior_of(
                old(self).stand_basic_data.polygon_geometry.polygon_property.polygon.exterior.linear_ring.coordinates@,
            ) && q@.interiors == spec_holes_of(
                old(self).stand_basic_data.polygon_geometry.polygon_property.polygon.interior@,
                old(self).stand_basic_data.polygon_geometry.polygon_property.polygon.interior@.len() as int,
            ),
            final(self).id == old(self).id,
            final(self).stand_basic_data == old(self).stand_basic_data,
            final(self).special_features == old(self).special_features,
            final(self).tree_stand_data == old(self).tree_stand_data,
    {
        let p = self.create_polygon();
        self.computed_polygon = Some(p);
        self
    }

    /// The latest survey snapshot, if the stand carries any.
    pub fn get_last_tree_stand_data_date(&self) -> (r: Option<&TreeStandDataDate>)
        ensures
            r is Some <==> (self.tree_stand_data matches Some(td)
                && td.tree_stand_data_date@.len() > 0),
            r matches Some(d) ==> (self.tree_stand_data matches Some(td) && *d
                == td.tree_stand_data_date@.last()),
    {
        match &self.tree_stand_data {
            Some(td) => {
                let n = td.tree_stand_data_date.len();
                if n == 0 {
                    None
                } else {
                    Some(&td.tree_stand_data_date[n - 1])
                }
            },
            None => None,
        }
    }

    /// The stem count of the latest snapshot's stand-level summary.
    pub fn summary_stem_count(&self) -> (r: Option<u32>)
        ensures
            r matches Some(v) ==> ({
                &&& self.tree_stand_data matches Some(td)
                &&& td.tree_stand_data_date@.len() > 0
                &&& td.tree_stand_data_date@.last().tree_stand_summary matches Some(s)
                &&& v == s.stem_count
            }),
            r is None ==> !(self.tree_stand_data matches Some(td)
                && td.tree_stand_data_date@.len() > 0
                && td.tree_stand_data_date@.last().tree_stand_summary is Some),
    {
        let last_data_date = match self.get_last_tree_stand_data_date() {
            Some(data) => data,
            None => { return None },
        };
        match &last_data_date.tree_stand_summary {
            Some(summary) => Some(summary.stem_count),
            None => None,
        }
    }

    /// Whether the stand carries per-stratum survey data at all.
    pub fn stem_count_in_stratum(&self) -> (r: bool)
        ensures
            r <==> (self.tree_stand_data matches Some(td) && td.tree_stand_data_date@.len() > 0),
    {
        match self.get_last_tree_stand_data_date() {
            Some(_) => true,
            None => false,
        }
    }

    /// The strata of the latest snapshot, as a plain vector.
    pub fn get_stratums(&self) -> (r: Option<Vec<TreeStratum>>)
        ensures
            r is Some <==> (self.tree_stand_data matches Some(td)
                && td.tree_stand_data_date@.len() > 0),
            r matches Some(v) ==> (self.tree_stand_data matches Some(td)
                && td.tree_stand_data_date@.len() > 0 && v@
                == td.tree_stand_data_date@.last().tree_strata.tree_stratum@),
    {
        let last_data_date = match self.get_last_tree_stand_data_date() {
            Some(data) => data,
            None => { return None },
        };
        let v = last_data_date.tree_strata.tree_stratum.clone();
        proof {
            assert forall|i: int| 0 <= i < v@.len() implies v@[i]
                == last_data_date.tree_strata.tree_stratum@[i] by {
                assert(vstd::pervasive::cloned(last_data_date.tree_strata.tree_stratum@[i], v@[i]));
            }
            assert(v@ =~= last_data_date.tree_strata.tree_stratum@);
        }
        Some(v)
    }

    /// The strata of the latest snapshot.
    pub fn get_strata(&self) -> (r: Option<TreeStrata>)
        ensures
            r is Some <==> (self.tree_stand_data matches Some(td)
                && td.tree_stand_data_date@.len() > 0),
            r matches Some(s) ==> (self.tree_stand_data matches Some(td)
                && td.tree_stand_data_date@.len() > 0 && s.tree_stratum@
                == td.tree_stand_data_date@.last().tree_strata.tree_stratum@),
    {
        match self.get_stratums() {
            Some(v) => Some(TreeStrata::new(v)),
            None => None,
        }
    }
}

/// One land parcel: a group of stands.
#[derive(Debug, Default, Clone, PartialEq)]
pub struct Parcel {
    pub id: u32,
    pub parcel_number: i64,
    pub stands: Stands,
}

#[derive(Debug, Default, Clone, PartialEq)]
pub struct Parcels {
    pub parcel: Vec<Parcel>,
}

/// One real estate: parcels with their stands.
#[derive(Debug, Default, Clone, PartialEq)]
pub struct RealEstate {
    pub id: u32,
    pub municipality_number: u16,
    pub area_number: u16,
    pub group_number: u16,
    pub unit_number: u16,
    pub real_estate_name: String,
    pub parcels: Parcels,
}

/// Number of stands across the first `n` parcels.
pub open spec fn stands_total(parcels: Seq<Parcel>, n: int) -> int
    decreases n,
{
    if n <= 0 {
        0
    } else {
        stands_total(parcels, n - 1) + parcels[n - 1].stands.stand.len()
    }
}

/// The stands of the first `n` parcels, in parcel order.
pub open spec fn flat_stands(parcels: Seq<Parcel>, n: int) -> Seq<Stand>
    decreases n,
{
    if n <= 0 {
        Seq::empty()
    } else {
        flat_stands(parcels, n - 1) + parcels[n - 1].stands.stand@
    }
}

/// The flattening has one entry per stand.
pub proof fn lemma_flat_stands_len(parcels: Seq<Parcel>, n: int)
    ensures
        flat_stands(parcels, n).len() == stands_total(parcels, n),
    decreases n,
{
    if n > 0 {
        lemma_flat_stands_len(parcels, n - 1);
    }
}

/// Two snapshots carry the same survey content (the strata compared by
/// value, the rest field by field).
pub open spec fn same_snapshot(a: TreeStandDataDate, b: TreeStandDataDate) -> bool {
    &&& a.date == b.date
    &&& a.tree_stand_data_date_type == b.tree_stand_data_date_type
    &&& a.tree_strata.tree_stratum@ == b.tree_strata.tree_stratum@
    &&& a.tree_stand_summary == b.tree_stand_summary
}

/// Two stands carry the same delivered data: identifier, attributes,
/// geometry strings and survey snapshots (sequences compared by value).
pub open spec fn same_stand_data(d: Stand, s: Stand) -> bool {
    &&& d.id == s.id
    &&& d.stand_basic_data.identifiers == s.stand_basic_data.identifiers
    &&& d.stand_basic_data.cutting_restriction == s.stand_basic_data.cutting_restriction
    &&& d.stand_basic_data.change_time == s.stand_basic_data.change_time
    &&& d.stand_basic_data.complete_state == s.stand_basic_data.complete_state
    &&& d.stand_basic_data.stand_number == s.stand_basic_data.stand_number
    &&& d.stand_basic_data.stand_number_extension == s.stand_basic_data.stand_number_extension
    &&& d.stand_basic_data.main_group == s.stand_basic_data.main_group
    &&& d.stand_basic_data.stand_basic_data_date == s.stand_basic_data.stand_basic_data_date
    &&& d.stand_basic_data.area == s.stand_basic_data.area
    &&& d.stand_basic_data.main_tree_species == s.stand_basic_data.main_tree_species
    &&& d.stand_basic_data.polygon_geometry.point_property
        == s.stand_basic_data.polygon_geometry.point_property
    &&& d.stand_basic_data.polygon_geometry.polygon_property.polygon.srs_name
        == s.stand_basic_data.polygon_geometry.polygon_property.polygon.srs_name
    &&& d.stand_basic_data.polygon_geometry.polygon_property.polygon.exterior
        == s.stand_basic_data.polygon_geometry.polygon_property.polygon.exterior
    &&& d.stand_basic_data.polygon_geometry.polygon_property.polygon.interior@
        == s.stand_basic_data.polygon_geometry.polygon_property.polygon.interior@
    &&& (d.special_features is Some <==> s.special_features is Some)
    &&& (d.special_features matches Some(df) ==> (s.special_features matches Some(sf)
        && df.special_feature@ == sf.special_feature@))
    &&& (d.tree_stand_data is Some <==> s.tree_stand_data is Some)
    &&& (d.tree_stand_data matches Some(dt) ==> (s.tree_stand_data matches Some(st)
        && dt.tree_stand_data_date@.len() == st.tree_stand_data_date@.len() && (forall|k: int|
        0 <= k < dt.tree_stand_data_date@.len() ==> same_snapshot(
            #[trigger] dt.tree_stand_data_date@[k],
            st.tree_stand_data_date@[k],
        ))))
}

/// Copies the interior-ring strings of a delivered polygon.
fn clone_interior_rings(v: &Vec<Interior>) -> (out: Vec<Interior>)
    ensures
        out@ == v@,
{
    let n = v.len();
    let mut out: Vec<Interior> = Vec::new();
    let mut k: usize = 0;
    while k < n
        invariant
            n == v@.len(),
            0 <= k <= n,
            out@.len() == k,
            forall|h: int| 0 <= h < k ==> out@[h] == #[trigger] v@[h],
        decreases n - k,
    {
        out.push(
            Interior {
                linear_ring: LinearRing { coordinates: v[k].linear_ring.coordinates.clone() },
            },
        );
        k = k + 1;
    }
    proof {
        assert(out@ =~= v@);
    }
    out
}

/// Copies the special-feature records of a stand.
fn clone_special_features(v: &Vec<SpecialFeature>) -> (out: Vec<SpecialFeature>)
    ensures
        out@ == v@,
{
    let n = v.len();
    let mut out: Vec<SpecialFeature> = Vec::new();
    let mut k: usize = 0;
    while k < n
        invariant
            n == v@.len(),
            0 <= k <= n,
            out@.len() == k,
            forall|h: int| 0 <= h < k ==> out@[h] == #[trigger] v@[h],
        decreases n - k,
    {
        let f = &v[k];
        let code = match &f.feature_additional_code {
            Some(c) => Some(c.clone()),
            None => None,
        };
        out.push(
            SpecialFeature {
                id: f.id,
                feature_additional_code: code,
                feature_code: f.feature_code.clone(),
            },
        );
        k = k + 1;
    }
    proof {
        assert(out@ =~= v@);
    }
    out
}

/// Copies the survey snapshots of a stand, content for content.
fn clone_snapshots(v: &Vec<TreeStandDataDate>) -> (out: Vec<TreeStandDataDate>)
    ensures
        out@.len() == v@.len(),
        forall|k: int| 0 <= k < out@.len() ==> same_snapshot(#[trigger] out@[k], v@[k]),
{
    let n = v.len();
    let mut out: Vec<TreeStandDataDate> = Vec::new();
    let mut k: usize = 0;
    while k < n
        invariant
            n == v@.len(),
            0 <= k <= n,
            out@.len() == k,
            forall|h: int| 0 <= h < k ==> same_snapshot(#[trigger] out@[h], v@[h]),
        decreases n - k,
    {
        let d = &v[k];
        let strata = d.tree_strata.tree_stratum.clone();
        proof {
            assert forall|i: int| 0 <= i < strata@.len() implies strata@[i]
                == d.tree_strata.tree_stratum@[i] by {
                assert(vstd::pervasive::cloned(d.tree_strata.tree_stratum@[i], strata@[i]));
            }
            assert(strata@ =~= d.tree_strata.tree_stratum@);
        }
        out.push(
            TreeStandDataDate {
                date: d.date.clone(),
                tree_stand_data_date_type: d.tree_stand_data_date_type,
                tree_strata: TreeStrata { tree_stratum: strata },
                tree_stand_summary: d.tree_stand_summary,
            },
        );
        k = k + 1;
    }
    out
}

/// Copies one delivered stand, content for content, with no polygon
/// computed yet.
fn duplicate_stand(s: &Stand) -> (d: Stand)
    ensures
        same_stand_data(d, *s),
        d.computed_polygon is None,
{
    let identifiers = match &s.stand_basic_data.identifiers {
        Some(ids) => Some(
            Identifiers {
                identifier: Identifier {
                    identifier_type: ids.identifier.identifier_type.clone(),
                    identifier_value: ids.identifier.identifier_value.clone(),
                },
            },
        ),
        None => None,
    };
    let special_features = match &s.special_features {
        Some(sf) => Some(SpecialFeatures { special_feature: clone_special_features(&sf.special_feature) }),
        None => None,
    };
    let tree_stand_data = match &s.tree_stand_data {
        Some(td) => Some(
            TreeStandData { tree_stand_data_date: clone_snapshots(&td.tree_stand_data_date) },
        ),
        None => None,
    };
    let src_poly = &s.stand_basic_data.polygon_geometry.polygon_property.polygon;
    Stand {
        id: s.id.clone(),
        stand_basic_data: StandBasicData {
            identifiers,
            cutting_restriction: s.stand_basic_data.cutting_restriction,
            change_time: s.stand_basic_data.change_time.clone(),
            complete_state: s.stand_basic_data.complete_state,
            stand_number: s.stand_basic_data.stand_number,
            stand_number_extension: s.stand_basic_data.stand_number_extension.clone(),
            main_group: s.stand_basic_data.main_group,
            stand_basic_data_date: s.stand_basic_data.stand_basic_data_date.clone(),
            area: s.stand_basic_data.area,
            polygon_geometry: PolygonGeometry {
                point_property: PointProperty {
                    point: Point {
                        srs_name: s.stand_basic_data.polygon_geometry.point_property.point.srs_name.clone(),
                        coordinates: s.stand_basic_data.polygon_geometry.point_property.point.coordinates.clone(),
                    },
                },
                polygon_property: PolygonProperty {
                    polygon: Polygon {
                        srs_name: src_poly.srs_name.clone(),
                        interior: clone_interior_rings(&src_poly.interior),
                        exterior: Exterior {
                            linear_ring: LinearRing {
                                coordinates: src_poly.exterior.linear_ring.coordinates.clone(),
                            },
                        },
                    },
                },
            },
            main_tree_species: s.stand_basic_data.main_tree_species,
        },
        special_features,
        tree_stand_data,
        computed_polygon: None,
    }
}

impl RealEstate {
    /// All stands of the estate, in parcel order: each output carries the
    /// corresponding parcel stand's data with only its polygon computed,
    /// from that stand's own coordinate strings.
    pub fn get_stands(&self) -> (r: Vec<Stand>)
        ensures
            r@.len() == stands_total(self.parcels.parcel@, self.parcels.parcel@.len() as int),
            forall|i: int|
                0 <= i < r@.len() ==> ({
                    let src = flat_stands(
                        self.parcels.parcel@,
                        self.parcels.parcel@.len() as int,
                    )[i];
                    &&& same_stand_data(#[trigger] r@[i], src)
                    &&& r@[i].computed_polygon matches Some(q)
                    &&& stand_polygon_ok(q)
                    &&& q@.exterior == spec_exterior_of(
                        src.stand_basic_data.polygon_geometry.polygon_property.polygon.exterior.linear_ring.coordinates@,
                    )
                    &&& q@.interiors == spec_holes_of(
                        src.stand_basic_data.polygon_geometry.polygon_property.polygon.interior@,
                        src.stand_basic_data.polygon_geometry.polygon_property.polygon.interior@.len() as int,
                    )
                }),
    {
        let np = self.parcels.parcel.len();
        let mut out: Vec<Stand> = Vec::new();
        let mut p: usize = 0;
        while p < np
            invariant
                np == self.parcels.parcel@.len(),
                0 <= p <= np,
                out@.len() == stands_total(self.parcels.parcel@, p as int),
                out@.len() == flat_stands(self.parcels.parcel@, p as int).len(),
                forall|i: int|
                    0 <= i < out@.len() ==> ({
                        let src = flat_stands(self.parcels.parcel@, p as int)[i];
                        &&& same_stand_data(#[trigger] out@[i], src)
                        &&& out@[i].computed_polygon matches Some(q)
                        &&& stand_polygon_ok(q)
                        &&& q@.exterior == spec_exterior_of(
                            src.stand_basic_data.polygon_geometry.polygon_property.polygon.exterior.linear_ring.coordinates@,
                        )
                        &&& q@.interiors == spec_holes_of(
                            src.stand_basic_data.polygon_geometry.polygon_property.polygon.interior@,
                            src.stand_basic_data.polygon_geometry.polygon_property.polygon.interior@.len() as int,
                        )
                    }),
            decreases np - p,
        {
            let ns = self.parcels.parcel[p].stands.stand.len();
            let ghost flat_prev = flat_stands(self.parcels.parcel@, p as int);
            let mut s: usize = 0;
            while s < ns
                invariant
                    np == self.parcels.parcel@.len(),
                    0 <= p < np,
                    ns == self.parcels.parcel@[p as int].stands.stand@.len(),
                    0 <= s <= ns,
                    flat_prev == flat_stands(self.parcels.parcel@, p as int),
                    out@.len() == stands_total(self.parcels.parcel@, p as int) + s,
                    out@.len() == flat_prev.len() + s,
                    forall|i: int|
                        0 <= i < out@.len() ==> ({
                            let src = (flat_prev
                                + self.parcels.parcel@[p as int].stands.stand@.take(s as int))[i];
                            &&& same_stand_data(#[trigger] out@[i], src)
                            &&& out@[i].computed_polygon matches Some(q)
                            &&& stand_polygon_ok(q)
                            &&& q@.exterior == spec_exterior_of(
                                src.stand_basic_data.polygon_geometry.polygon_property.polygon.exterior.linear_ring.coordinates@,
                            )
                            &&& q@.interiors == spec_holes_of(
                                src.stand_basic_data.polygon_geometry.polygon_property.polygon.interior@,
                                src.stand_basic_data.polygon_geometry.polygon_property.polygon.interior@.len() as int,
                            )
                        }),
                decreases ns - s,
            {
                let ghost src = self.parcels.parcel@[p as int].stands.stand@[s as int];
                let mut stand = duplicate_stand(&self.parcels.parcel[p].stands.stand[s]);
                stand.compute_polygon();
                proof {
                    // the duplicate carries the source's coordinate strings,
                    // so the computed rings are the source's rings
                    assert(same_stand_data(stand, src));
                }
                out.push(stand);
                proof {
                    assert((flat_prev + self.parcels.parcel@[p as int].stands.stand@.take(s + 1))
                        =~= (flat_prev + self.parcels.parcel@[p as int].stands.stand@.take(
                        s as int,
                    )).push(src));
                }
                s = s + 1;
            }
            proof {
                assert(self.parcels.parcel@[p as int].stands.stand@.take(ns as int)
                    =~= self.parcels.parcel@[p as int].stands.stand@);
                assert(flat_stands(self.parcels.parcel@, p + 1) == flat_prev
                    + self.parcels.parcel@[p as int].stands.stand@);
            }
            p = p + 1;
        }
        proof {
            lemma_flat_stands_len(self.parcels.parcel@, np as int);
        }
        out
    }
}

} // verus!
