use geo_points::compartment::AreaRatio;
use geo_points::coords::{Coord, GeoPolygon};
use geo_points::decimal::u64_to_decimal;
use geo_points::errors::CoreError;
use geo_points::parse::parse_coordinates;
use geo_points::projection::CRS;
use geo_points::schema::default_zero_u32;
use geo_points::shared_buffer::{
    generate_random_trees_into_buffer, get_compartment_areas_in_bounding_box, SharedBuffer,
};
use geo_points::stand::{RealEstate, Parcel, Parcels, Stand, StandBasicData, Stands};
use geo_points::schema::{Exterior, LinearRing, PolygonGeometry, PolygonProperty};
use geo_points::tiles::MmlTile;
use geo_points::tree_stand_data::{
    TreeStandData, TreeStandDataDate, TreeStandSummary, TreeStrata, TreeStratum,
};

fn survey_stand(number: u16, coords: &str, stems: u32) -> Stand {
    let mut stand = Stand {
        id: format!("s-{}", number),
        stand_basic_data: StandBasicData {
            stand_number: number,
            polygon_geometry: PolygonGeometry {
                polygon_property: PolygonProperty {
                    polygon: geo_points::schema::Polygon {
                        srs_name: String::new(),
                        interior: vec![],
                        exterior: Exterior {
                            linear_ring: LinearRing { coordinates: coords.to_string() },
                        },
                    },
                },
                ..Default::default()
            },
            ..Default::default()
        },
        special_features: None,
        tree_stand_data: Some(TreeStandData {
            tree_stand_data_date: vec![
                TreeStandDataDate {
                    date: String::from("2010-01-01"),
                    tree_strata: TreeStrata::new(vec![]),
                    ..Default::default()
                },
                TreeStandDataDate {
                    date: String::from("2023-05-05"),
                    tree_strata: TreeStrata::new(vec![TreeStratum {
                        tree_species: 2,
                        stem_count: stems,
                        basal_area: 18_000,
                        mean_height: 14_000,
                        ..Default::default()
                    }]),
                    tree_stand_summary: Some(TreeStandSummary {
                        stem_count: stems,
                        ..Default::default()
                    }),
                    ..Default::default()
                },
            ],
        }),
        computed_polygon: None,
    };
    stand.compute_polygon();
    stand
}

#[test]
fn coordinates_parse_to_fixed_point() {
    let out = parse_coordinates("427997.035,7369564.333 428000.5,7369570");
    assert_eq!(
        out,
        vec![
            Coord { x: 427_997_035, y: 7_369_564_333 },
            Coord { x: 428_000_500, y: 7_369_570_000 },
        ]
    );
}

#[test]
fn malformed_tokens_are_skipped() {
    // a malformed vertex is dropped, the rest of the ring survives
    let out = parse_coordinates("abc,1.0 2.0,3.0  4,x 5.25,-6.125");
    assert_eq!(
        out,
        vec![Coord { x: 2_000, y: 3_000 }, Coord { x: 5_250, y: -6_125 }]
    );
    // a token without a comma, an empty string, out-of-range numbers
    assert_eq!(parse_coordinates("12345"), vec![]);
    assert_eq!(parse_coordinates(""), vec![]);
    assert_eq!(parse_coordinates("99999999999999,1"), vec![]);
}

#[test]
fn fraction_digits_beyond_the_scale_are_truncated() {
    let out = parse_coordinates("1.23456,0.0009");
    assert_eq!(out, vec![Coord { x: 1_234, y: 0 }]);
}

#[test]
fn stand_survey_getters_read_latest_snapshot() {
    let stand = survey_stand(3, "0,0 100,0 100,100 0,100 0,0", 75);
    let last = stand.get_last_tree_stand_data_date().unwrap();
    assert_eq!(last.date, "2023-05-05");
    assert_eq!(stand.summary_stem_count(), Some(75));
    assert!(stand.stem_count_in_stratum());
    let strata = stand.get_strata().unwrap();
    assert_eq!(strata.tree_stratum.len(), 1);
    assert_eq!(strata.tree_stratum[0].stem_count, 75);
    let stratums = stand.get_stratums().unwrap();
    assert_eq!(stratums[0].tree_species, 2);
    // a stand without survey data recovers as "no strata", not an error
    let bare = Stand::default();
    assert_eq!(bare.summary_stem_count(), None);
    assert!(!bare.stem_count_in_stratum());
    assert!(bare.get_strata().is_none());
}

#[test]
fn stand_polygon_is_repaired_and_well_formed() {
    // an unclosed ring is closed during polygon construction
    let stand = survey_stand(4, "0,0 100,0 100,100 0,100", 10);
    let p = stand.computed_polygon.as_ref().unwrap();
    assert_eq!(p.exterior.first(), p.exterior.last());
    assert_eq!(p.exterior.len(), 5);
}

#[test]
fn real_estate_collects_stands_with_polygons() {
    let s1 = survey_stand(5, "0,0 100,0 100,100 0,100 0,0", 10);
    let s2 = survey_stand(6, "200,200 300,200 300,300 200,300 200,200", 10);
    let estate = RealEstate {
        id: 1,
        real_estate_name: String::from("Kotimetsa"),
        parcels: Parcels {
            parcel: vec![Parcel {
                id: 1,
                parcel_number: 77,
                stands: Stands { stand: vec![s1, s2] },
            }],
        },
        ..Default::default()
    };
    let stands = estate.get_stands();
    assert_eq!(stands.len(), 2);
    for s in &stands {
        assert!(s.computed_polygon.is_some());
    }
}

#[test]
fn shared_buffer_checks_bounds() {
    let mut b = SharedBuffer::new(2);
    assert_eq!(b.len(), 6);
    assert!(b.fill_tree(0, 11, 22, 3).is_ok());
    assert!(b.fill_tree(1, 44, 55, 6).is_ok());
    assert_eq!(b.fill_tree(2, 7, 8, 9), Err(CoreError::BufferOverflow));
    assert_eq!(b.values(), &vec![11, 22, 3, 44, 55, 6]);
    // species zero marks "no tree" and writes nothing
    let mut b2 = SharedBuffer::new(1);
    assert!(b2.fill_tree(0, 9, 9, 0).is_ok());
    assert_eq!(b2.values(), &vec![0, 0, 0]);
}

#[test]
fn buffer_receives_generated_trees() {
    let polygon = GeoPolygon {
        exterior: vec![
            Coord { x: 0, y: 0 },
            Coord { x: 100_000, y: 0 },
            Coord { x: 100_000, y: 100_000 },
            Coord { x: 0, y: 100_000 },
            Coord { x: 0, y: 0 },
        ],
        interiors: vec![],
    };
    let strata = TreeStrata::new(vec![TreeStratum {
        tree_species: 1,
        stem_count: 20,
        basal_area: 20_000,
        mean_height: 18_000,
        ..Default::default()
    }]);
    let mut buffer = SharedBuffer::new(20);
    let ratio = AreaRatio { num: 1, den: 1 };
    let count = generate_random_trees_into_buffer(&polygon, &strata, ratio, &mut buffer, 0);
    assert!(count <= 20);
    assert!(count > 0);
    let values = buffer.values();
    for j in 0..count {
        // each written slot carries the species in its third cell
        assert_eq!(values[3 * j + 2], 1);
    }
}

#[test]
fn compartment_areas_with_buffer() {
    let stand = survey_stand(12, "0,0 100,0 100,100 0,100 0,0", 30);
    let roi = geo_points::coords::Rect {
        min_x: -10_000,
        min_y: -10_000,
        max_x: 150_000,
        max_y: 150_000,
    };
    let mut buffer = SharedBuffer::new(30);
    let (areas, max_count, total) =
        get_compartment_areas_in_bounding_box(vec![stand], &roi, &mut buffer);
    assert_eq!(areas.len(), 1);
    assert_eq!(areas[0].stand_number, "12");
    assert_eq!(max_count, 30);
    assert!(3 * total <= buffer.len());
}

#[test]
fn tree_holders_keep_their_contents() {
    let trees = vec![
        geo_points::tree::Tree::new(1, 10_000, (1_000, 1_000, 0)),
        geo_points::tree::Tree::new(2, 12_000, (90_000, 90_000, 0)),
    ];
    let polygon = geo_points::schema::Polygon::default();
    let st = geo_points::stand_trees::StandTrees::new(trees.clone(), polygon.clone());
    assert_eq!(st.trees().len(), 2);
    assert_eq!(st.polygon(), &polygon);
    let kept = st.trees_in_bounding_box(0, 10_000, 0, 10_000);
    assert_eq!(kept.len(), 1);
    assert_eq!(kept[0].species, 1);
    let gt = geo_points::geo_tree::GeoTree::new(trees, polygon.clone());
    assert_eq!(gt.trees().len(), 2);
    assert_eq!(gt.polygon(), &polygon);
}

#[test]
fn decimal_rendering() {
    assert_eq!(u64_to_decimal(0), "0");
    assert_eq!(u64_to_decimal(42), "42");
    assert_eq!(u64_to_decimal(65_535), "65535");
    assert_eq!(u64_to_decimal(1_000), "1000");
}

#[test]
fn error_kinds_have_messages() {
    assert_eq!(CoreError::FormatError.message(), "malformed coordinate");
    assert_eq!(CoreError::EmptyGeometry.message(), "empty geometry");
    assert_eq!(CoreError::ZeroDensity.message(), "zero density");
    assert_eq!(CoreError::MissingStrata.message(), "missing strata");
    assert_eq!(CoreError::BufferOverflow.message(), "buffer overflow");
}

#[test]
fn reference_system_strings() {
    assert_eq!(
        CRS::Epsg3067.proj_str(),
        "+proj=utm +zone=35 +ellps=GRS80 +towgs84=0,0,0,0,0,0,0 +units=m +no_defs +type=crs"
    );
    assert_eq!(CRS::Epsg4326.proj_str(), "+proj=longlat +datum=WGS84 +no_defs +type=crs");
    assert_eq!(MmlTile::Water.as_str(), "vesi");
    assert_eq!(MmlTile::Roads.as_str(), "tieviiva");
    assert_eq!(default_zero_u32(), 0);
}
