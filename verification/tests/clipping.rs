use geo_points::compartment::{
    build_compartment, find_stands_in_bounding_box, get_compartments_in_bounding_box,
    select_stands_in_bounding_box, Compartment, SelectionMode,
};
use geo_points::coords::{
    compute_polygon_area2, compute_ring_area2, get_min_max_coordinates, Coord, GeoPolygon, Rect,
};
use geo_points::clip::{clip_polygon_to_rect, clip_ring_to_rect};
use geo_points::math::scale_by_ratio;
use geo_points::schema::{Exterior, LinearRing, PolygonGeometry, PolygonProperty};
use geo_points::stand::{Stand, StandBasicData};
use geo_points::tree::Tree;
use geo_points::tree_stand_data::{
    TreeStandData, TreeStandDataDate, TreeStrata, TreeStratum,
};

fn rect_ring(min_x: i64, min_y: i64, max_x: i64, max_y: i64) -> Vec<Coord> {
    vec![
        Coord { x: min_x, y: min_y },
        Coord { x: max_x, y: min_y },
        Coord { x: max_x, y: max_y },
        Coord { x: min_x, y: max_y },
        Coord { x: min_x, y: min_y },
    ]
}

fn stand_with_rect(number: u16, min_x: i64, min_y: i64, max_x: i64, max_y: i64, stems: u32) -> Stand {
    // coordinate strings carry plain units; the parser scales by 1000
    let coords = format!(
        "{},{} {},{} {},{} {},{} {},{}",
        min_x / 1000,
        min_y / 1000,
        max_x / 1000,
        min_y / 1000,
        max_x / 1000,
        max_y / 1000,
        min_x / 1000,
        max_y / 1000,
        min_x / 1000,
        min_y / 1000,
    );
    let mut stand = Stand {
        id: format!("stand-{}", number),
        stand_basic_data: StandBasicData {
            stand_number: number,
            polygon_geometry: PolygonGeometry {
                polygon_property: PolygonProperty {
                    polygon: geo_points::schema::Polygon {
                        srs_name: String::new(),
                        interior: vec![],
                        exterior: Exterior {
                            linear_ring: LinearRing { coordinates: coords },
                        },
                    },
                },
                ..Default::default()
            },
            ..Default::default()
        },
        special_features: None,
        tree_stand_data: Some(TreeStandData {
            tree_stand_data_date: vec![TreeStandDataDate {
                tree_strata: TreeStrata::new(vec![TreeStratum {
                    tree_species: 1,
                    stem_count: stems,
                    basal_area: 20_000,
                    mean_height: 18_000,
                    ..Default::default()
                }]),
                ..Default::default()
            }],
        }),
        computed_polygon: None,
    };
    stand.compute_polygon();
    stand
}

#[test]
fn clip_contained_ring_is_unchanged() {
    let ring = rect_ring(10_000, 10_000, 50_000, 50_000);
    let roi = Rect { min_x: 0, min_y: 0, max_x: 100_000, max_y: 100_000 };
    let clipped = clip_ring_to_rect(&ring, roi);
    assert_eq!(clipped, ring);
}

#[test]
fn clip_separated_ring_is_empty() {
    let ring = rect_ring(200_000, 200_000, 300_000, 300_000);
    let roi = Rect { min_x: 0, min_y: 0, max_x: 100_000, max_y: 100_000 };
    let clipped = clip_ring_to_rect(&ring, roi);
    assert!(clipped.is_empty());
}

#[test]
fn clip_halves_a_rectangle_exactly() {
    let p = GeoPolygon { exterior: rect_ring(0, 0, 200_000, 100_000), interiors: vec![] };
    let roi = Rect { min_x: 0, min_y: 0, max_x: 100_000, max_y: 100_000 };
    let clipped = clip_polygon_to_rect(&p, roi).expect("half of the rectangle remains");
    let orig_area2 = compute_polygon_area2(&p);
    let clip_area2 = compute_polygon_area2(&clipped);
    assert_eq!(orig_area2, 2 * clip_area2);
}

#[test]
fn clip_contained_polygon_keeps_holes() {
    let p = GeoPolygon {
        exterior: rect_ring(0, 0, 100_000, 100_000),
        interiors: vec![rect_ring(20_000, 20_000, 40_000, 40_000)],
    };
    let roi = Rect { min_x: -5_000, min_y: -5_000, max_x: 200_000, max_y: 200_000 };
    let clipped = clip_polygon_to_rect(&p, roi).expect("contained polygon survives");
    assert_eq!(clipped, p);
    // a hole outside the rectangle disappears with the clipped region
    let roi_right = Rect { min_x: 50_000, min_y: 0, max_x: 100_000, max_y: 100_000 };
    let right = clip_polygon_to_rect(&p, roi_right).expect("right half remains");
    assert!(right.interiors.is_empty());
}

#[test]
fn doubled_area_of_square() {
    let ring = rect_ring(0, 0, 1_000, 1_000);
    assert_eq!(compute_ring_area2(&ring), 2_000_000);
}

#[test]
fn bounding_box_of_polygon() {
    let p = GeoPolygon { exterior: rect_ring(-5_000, 2_000, 7_000, 9_000), interiors: vec![] };
    assert_eq!(get_min_max_coordinates(&p), (-5_000, 7_000, 2_000, 9_000));
}

#[test]
fn contained_stand_keeps_polygon_and_full_ratio() {
    // a stand wholly inside the query keeps its polygon and gets ratio one
    let stand = stand_with_rect(7, 10_000_000, 10_000_000, 10_100_000, 10_100_000, 100);
    let roi = Rect {
        min_x: 9_000_000,
        min_y: 9_000_000,
        max_x: 11_000_000,
        max_y: 11_000_000,
    };
    let c = build_compartment(&stand, &roi).expect("contained stand yields a compartment");
    assert_eq!(&c.polygon, stand.computed_polygon.as_ref().unwrap());
    assert_eq!(c.area_ratio.num, c.area_ratio.den);
    assert_eq!(c.stand_number, "7");
}

#[test]
fn disjoint_stand_yields_no_compartment() {
    let stand = stand_with_rect(8, 0, 0, 100_000, 100_000, 100);
    let roi = Rect {
        min_x: 5_000_000,
        min_y: 5_000_000,
        max_x: 6_000_000,
        max_y: 6_000_000,
    };
    assert!(build_compartment(&stand, &roi).is_none());
}

#[test]
fn degenerate_inputs_never_panic() {
    // zero-width query rectangle: empty intersection, no panic
    let stand = stand_with_rect(9, 0, 0, 100_000, 100_000, 100);
    let roi = Rect { min_x: 50_000, min_y: 0, max_x: 50_000, max_y: 100_000 };
    assert!(build_compartment(&stand, &roi).is_none());
    // a stand whose geometry fails to parse gets the degenerate ring and
    // yields nothing
    let mut broken = stand_with_rect(10, 0, 0, 100_000, 100_000, 100);
    broken
        .stand_basic_data
        .polygon_geometry
        .polygon_property
        .polygon
        .exterior
        .linear_ring
        .coordinates = String::from("not a ring at all");
    broken.compute_polygon();
    let wide = Rect { min_x: -1_000, min_y: -1_000, max_x: 1_000, max_y: 1_000 };
    assert!(build_compartment(&broken, &wide).is_none());
}

#[test]
fn half_clip_halves_the_target() {
    // a 200 m x 100 m stand clipped to its left half: ratio is exactly one
    // half and the population drops to round(stems / 2) at most
    let stand = stand_with_rect(11, 0, 0, 200_000, 100_000, 100);
    let roi = Rect { min_x: 0, min_y: 0, max_x: 100_000, max_y: 100_000 };
    let c = build_compartment(&stand, &roi).expect("half of the stand remains");
    assert_eq!(2 * c.area_ratio.num, c.area_ratio.den);
    assert!(c.trees.len() <= 50);
    // the rounded scaling itself, on odd counts: round(51 * 0.5) = 26
    assert_eq!(scale_by_ratio(51, 1, 2), 26);
    assert_eq!(scale_by_ratio(100, 1, 2), 50);
    assert_eq!(scale_by_ratio(7, 25, 100), 2);
    assert_eq!(scale_by_ratio(123, 1, 1), 123);
}

#[test]
fn test_find_stands_in_bounding_box() {
    let mut stands = Vec::new();
    stands.push(stand_with_rect(1, 427_000_000, 7_370_000_000, 428_000_000, 7_371_000_000, 50));
    stands.push(stand_with_rect(2, 500_000_000, 7_500_000_000, 501_000_000, 7_501_000_000, 50));
    stands.push(stand_with_rect(3, 425_000_000, 7_368_000_000, 426_000_000, 7_369_500_000, 50));
    println!("\nTotal stands: {:?}", stands.len());
    let min_x: i64 = 425_400_000;
    let max_x: i64 = min_x + 6_000_000;
    let min_y: i64 = 7_369_000_000;
    let max_y: i64 = min_y + 6_000_000;
    let bbox = Rect { min_x, min_y, max_x, max_y };
    let found = find_stands_in_bounding_box(&stands, &bbox);
    assert!(found.is_some());
    let found = found.unwrap();
    println!("Stands in bounding box: {:?}", found.len());
    for stand in &found {
        println!("Stand number {:?}", stand.stand_basic_data.stand_number);
    }
    let numbers: Vec<u16> = found.iter().map(|s| s.stand_basic_data.stand_number).collect();
    assert!(numbers.contains(&1));
    assert!(numbers.contains(&3));
    assert!(!numbers.contains(&2));
}

#[test]
fn selection_modes_differ_on_partial_overlap() {
    // a stand that only partly overlaps the window: boundary intersection
    // keeps it, centroid containment drops it
    let stands = vec![stand_with_rect(15, 0, 0, 200_000, 100_000, 10)];
    let window = Rect { min_x: 150_000, min_y: 0, max_x: 300_000, max_y: 100_000 };
    let by_boundary = select_stands_in_bounding_box(&stands, &window, SelectionMode::Intersects);
    assert!(by_boundary.is_some());
    let by_centroid =
        select_stands_in_bounding_box(&stands, &window, SelectionMode::CentroidWithin);
    assert!(by_centroid.is_none());
    // a window around the centroid (100, 50): both modes keep the stand
    let around = Rect { min_x: 50_000, min_y: 0, max_x: 150_000, max_y: 100_000 };
    assert!(select_stands_in_bounding_box(&stands, &around, SelectionMode::CentroidWithin)
        .is_some());
}

#[test]
fn compartments_in_bounding_box() {
    let stands = vec![
        stand_with_rect(21, 0, 0, 100_000, 100_000, 40),
        stand_with_rect(22, 5_000_000, 5_000_000, 5_100_000, 5_100_000, 40),
    ];
    let roi = Rect { min_x: -10_000, min_y: -10_000, max_x: 150_000, max_y: 150_000 };
    let compartments = get_compartments_in_bounding_box(stands, &roi);
    assert_eq!(compartments.len(), 1);
    assert_eq!(compartments[0].stand_number, "21");
    assert!(compartments[0].trees.len() <= 40);
}

#[test]
fn trees_filtered_by_bounding_box() {
    let trees = vec![
        Tree::new(1, 10_000, (5_000, 5_000, 0)),
        Tree::new(1, 10_000, (50_000, 5_000, 0)),
        Tree::new(2, 10_000, (5_000, 50_000, 0)),
    ];
    let polygon = GeoPolygon { exterior: rect_ring(0, 0, 100_000, 100_000), interiors: vec![] };
    let c = Compartment::new(String::from("z"), trees, polygon);
    let kept = c.trees_in_bounding_box(0, 10_000, 0, 10_000);
    assert_eq!(kept.len(), 1);
    assert_eq!(kept[0].position, (5_000, 5_000, 0));
    assert_eq!(c.stand_number(), "z");
    assert_eq!(c.trees().len(), 3);
    // clipping the compartment once more against a contained window
    let window = Rect { min_x: -1_000, min_y: -1_000, max_x: 200_000, max_y: 200_000 };
    let again = c.clip_polygon_to_bounding_box(&window).unwrap();
    assert_eq!(&again, c.polygon());
}
