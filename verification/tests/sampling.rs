use geo_points::coords::{Coord, GeoPolygon};
use geo_points::errors::CoreError;
use geo_points::geometry_utils::{
    flatten_populations, generate_radius, generate_random_trees, generate_stratum_trees,
    generate_trees_by_stratum,
};
use geo_points::jittered_hexagonal_sampling::{GridOptions, JitteredHexagonalGridSampling};
use geo_points::tree_stand_data::{TreeStrata, TreeStratum};

fn one_hectare_square() -> GeoPolygon {
    GeoPolygon {
        exterior: vec![
            Coord { x: 0, y: 0 },
            Coord { x: 100_000, y: 0 },
            Coord { x: 100_000, y: 100_000 },
            Coord { x: 0, y: 100_000 },
            Coord { x: 0, y: 0 },
        ],
        interiors: vec![],
    }
}

fn stratum(species: u8, stem_count: u32, basal_area: i64, mean_height: i64) -> TreeStratum {
    TreeStratum {
        tree_species: species,
        stem_count,
        basal_area,
        mean_height,
        ..Default::default()
    }
}

#[test]
fn single_stratum_square_scenario() {
    // one stratum, one hectare: at most 100 trees, all species 1, all
    // inside the square
    let p = one_hectare_square();
    let strata = TreeStrata::new(vec![stratum(1, 100, 20_000, 18_000)]);
    let trees = generate_random_trees(&p, &strata);
    assert!(trees.len() <= 100);
    assert!(!trees.is_empty());
    for t in &trees {
        assert_eq!(t.species, 1);
        let (x, y, z) = t.position;
        assert!(0 <= x && x <= 100_000);
        assert!(0 <= y && y <= 100_000);
        assert_eq!(z, 0);
        // height stays within two units of the stratum mean
        assert!(16_000 <= t.mean_height && t.mean_height <= 20_000);
    }
}

#[test]
fn two_strata_square_scenario() {
    // two strata over the same polygon: per-species caps hold, and no
    // third species ever appears
    let p = one_hectare_square();
    let strata = TreeStrata::new(vec![
        stratum(1, 50, 20_000, 18_000),
        stratum(2, 30, 15_000, 12_000),
    ]);
    let trees = generate_random_trees(&p, &strata);
    let species1 = trees.iter().filter(|t| t.species == 1).count();
    let species2 = trees.iter().filter(|t| t.species == 2).count();
    let species3 = trees.iter().filter(|t| t.species == 3).count();
    assert!(species1 <= 50);
    assert!(species2 <= 30);
    assert_eq!(species3, 0);
    assert_eq!(species1 + species2, trees.len());
}

#[test]
fn strata_contribute_independently() {
    // the flattened population is exactly the per-stratum groups end to
    // end: its total is the sum of the group sizes
    let p = one_hectare_square();
    let strata = TreeStrata::new(vec![
        stratum(1, 40, 20_000, 18_000),
        stratum(2, 25, 15_000, 12_000),
        stratum(3, 0, 10_000, 8_000),
    ]);
    let groups = generate_trees_by_stratum(&p, &strata);
    assert_eq!(groups.len(), 3);
    assert!(groups[0].len() <= 40);
    assert!(groups[1].len() <= 25);
    assert_eq!(groups[2].len(), 0);
    let group_sizes: usize = groups.iter().map(|g| g.len()).sum();
    let flat = flatten_populations(groups);
    assert_eq!(flat.len(), group_sizes);
}

#[test]
fn zero_stem_count_yields_no_trees() {
    let p = one_hectare_square();
    let strata = TreeStrata::new(vec![stratum(1, 0, 20_000, 18_000)]);
    let trees = generate_random_trees(&p, &strata);
    assert_eq!(trees.len(), 0);
}

#[test]
fn unusable_stratum_yields_no_trees_and_no_error() {
    // zero basal area cannot drive a density: empty contribution, no panic
    let p = one_hectare_square();
    let trees = generate_stratum_trees(&p, 100, &stratum(1, 100, 0, 18_000));
    assert_eq!(trees.len(), 0);
}

#[test]
fn radius_from_density_matches_formula() {
    // stem count 100, basal area 20.0: reproduce the fixed-point formula
    let total: u128 = 100;
    let area: u128 = 20_000;
    let t = total * area / 10_000;
    let ratio = if t < 250_000 { t * 600 / 250_000 + 1300 } else { 1300 };
    let arg = area * ratio * 1_000_000_000_000 / (t * 1273 * 3_141_593);
    let expected = (arg as f64).sqrt() as u64;
    let r = generate_radius(100, 20_000).unwrap();
    // the integer square root may differ from the float estimate by one
    assert!(r == expected || r == expected + 1 || r + 1 == expected);
    assert!(5_000 <= r && r <= 6_500);
}

#[test]
fn radius_stays_positive_at_high_density() {
    // a very dense unit still gets a strictly positive spacing
    let r = generate_radius(20_000_000, 20_000).unwrap();
    assert_eq!(r, 12);
    // density beyond the fixed-point resolution floors at one unit
    let r2 = generate_radius(4_000_000_000, 20_000).unwrap();
    assert_eq!(r2, 1);
}

#[test]
fn radius_zero_density_is_reported() {
    assert_eq!(generate_radius(0, 20_000), Err(CoreError::ZeroDensity));
    assert_eq!(generate_radius(100, 0), Err(CoreError::ZeroDensity));
}

#[test]
fn sampler_respects_point_limit() {
    let rng = rand::thread_rng();
    let options = GridOptions {
        polygon: one_hectare_square(),
        radius: 2_000,
        jitter: Some(666_600),
        point_limit: Some(10),
        tree_species: 4,
        mean_height: 15_000,
    };
    let mut grid = JitteredHexagonalGridSampling::new(rng, options);
    let points = grid.fill();
    assert!(points.len() <= 10);
    assert!(!points.is_empty());
    for t in &points {
        assert_eq!(t.species, 4);
    }
    let stored = grid.get_all_points();
    assert_eq!(stored.len(), points.len());
}

#[test]
fn sampler_degenerate_radius_yields_empty() {
    let rng = rand::thread_rng();
    let options = GridOptions {
        polygon: one_hectare_square(),
        radius: 0,
        jitter: None,
        point_limit: None,
        tree_species: 1,
        mean_height: 15_000,
    };
    let mut grid = JitteredHexagonalGridSampling::new(rng, options);
    let points = grid.generate_trees();
    assert!(points.is_empty());
}

#[test]
fn sampler_zero_area_polygon_yields_empty() {
    // a degenerate zero-area ring: candidates can never be interior
    let degenerate = GeoPolygon {
        exterior: vec![
            Coord { x: 0, y: 0 },
            Coord { x: 0, y: 0 },
            Coord { x: 0, y: 0 },
            Coord { x: 0, y: 0 },
        ],
        interiors: vec![],
    };
    let rng = rand::thread_rng();
    let options = GridOptions {
        polygon: degenerate,
        radius: 1_000,
        jitter: None,
        point_limit: Some(5),
        tree_species: 1,
        mean_height: 15_000,
    };
    let mut grid = JitteredHexagonalGridSampling::new(rng, options);
    let points = grid.fill();
    assert!(points.is_empty());
}

#[test]
fn polygon_hole_excludes_trees() {
    // a hole in the middle of the square: no tree may fall inside it
    let p = GeoPolygon {
        exterior: vec![
            Coord { x: 0, y: 0 },
            Coord { x: 100_000, y: 0 },
            Coord { x: 100_000, y: 100_000 },
            Coord { x: 0, y: 100_000 },
            Coord { x: 0, y: 0 },
        ],
        interiors: vec![vec![
            Coord { x: 40_000, y: 40_000 },
            Coord { x: 60_000, y: 40_000 },
            Coord { x: 60_000, y: 60_000 },
            Coord { x: 40_000, y: 60_000 },
            Coord { x: 40_000, y: 40_000 },
        ]],
    };
    let strata = TreeStrata::new(vec![stratum(1, 200, 20_000, 18_000)]);
    let trees = generate_random_trees(&p, &strata);
    for t in &trees {
        let (x, y, _) = t.position;
        let inside_hole = 40_000 < x && x < 60_000 && 40_000 < y && y < 60_000;
        assert!(!inside_hole, "tree at {},{} lies inside the hole", x, y);
    }
}
