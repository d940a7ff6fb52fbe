//! Jittered hexagonal lattice sampling of tree positions inside a polygon.
//!
//! Candidate points sit on a hexagonal grid spanned over the polygon's
//! bounding rectangle; each is displaced into a random triangular sub-cell
//! of its hexagon, kept only if it falls inside the polygon (and outside all
//! holes), and the surviving points are cut down to the configured limit by
//! a random shuffle.  Every returned point is proven polygon-interior and
//! the result never exceeds the point limit.

use vstd::prelude::*;
use crate::coords::{
    Coord, GeoPolygon, PolygonModel, COORD_LIMIT, coord_ok, get_min_max_coordinates,
    polygon_contains, polygon_contains_point, polygon_ok,
};
use crate::math::{HEX_SIDE_MICRO, MICRO};
use crate::rng::{rand_below, shuffle_u64};
use crate::tree::Tree;

verus! {

/// Cap used when the caller does not supply a point limit.
pub const DEFAULT_POINT_LIMIT: usize = 1_000_000;

/// Jitter factor used when the caller does not supply one (`MICRO` scale,
/// about two thirds of the radius).
pub const DEFAULT_JITTER_MICRO: i64 = 666_600;

/// Largest mean height (fixed-point) a sampling run accepts.
pub const HEIGHT_LIMIT: i64 = 1_000_000_000_000;

/// Tree heights are drawn from a band around the stratum mean: two units
/// below up to just under two units above (the jitter never reaches the
/// top), floored at zero for very short stands.
pub open spec fn height_in_band(h: i64, mean: i64) -> bool {
    if mean >= 2000 {
        mean - 2000 <= h <= mean + 1999
    } else {
        0 <= h <= mean + 1999
    }
}

/// What holds of every tree a sampling run returns.
pub open spec fn sampled_tree_ok(t: Tree, poly: PolygonModel, species: u8, mean: i64) -> bool {
    &&& polygon_contains(poly, Coord { x: t.position.0, y: t.position.1 })
    &&& coord_ok(Coord { x: t.position.0, y: t.position.1 })
    &&& t.position.2 == 0
    &&& t.species == species
    &&& height_in_band(t.mean_height, mean)
}

/// What holds of a whole sample: bounded by the point limit, and every tree
/// polygon-interior with the configured species and height band.
pub open spec fn sample_ok(
    s: Seq<Tree>,
    poly: PolygonModel,
    species: u8,
    mean: i64,
    limit: usize,
) -> bool {
    &&& s.len() <= limit
    &&& forall|i: int| 0 <= i < s.len() ==> sampled_tree_ok(#[trigger] s[i], poly, species, mean)
}

/// The x coordinate of the hexagonal lattice centre in column `col` of row
/// `row` (odd-indexed rows are offset by half a column).
pub open spec fn lattice_cx(min_x: int, r: int, row: int, col: int) -> int {
    min_x + (2 * col + if row % 2 == 0 {
        1int
    } else {
        0int
    }) * r * (HEX_SIDE_MICRO as int) / (MICRO as int)
}

/// The y coordinate of the hexagonal lattice centre in row `row` (rows are
/// one and a half radii apart).
pub open spec fn lattice_cy(min_y: int, r: int, row: int) -> int {
    min_y + row * r * 3 / 2
}

/// The position lies within the jitter reach of some hexagonal lattice
/// centre.
pub open spec fn on_jittered_lattice(
    x: int,
    y: int,
    min_x: int,
    min_y: int,
    r: int,
    jr: int,
) -> bool {
    exists|row: int, col: int| #![trigger lattice_cx(min_x, r, row, col)]
        0 <= row && 0 <= col && lattice_cx(min_x, r, row, col) - 3 * jr <= x <= lattice_cx(
            min_x,
            r,
            row,
            col,
        ) + 3 * jr && lattice_cy(min_y, r, row) - 3 * jr <= y <= lattice_cy(min_y, r, row) + 3 * jr
}

/// Every tree of the sample sits within the jitter reach of a lattice
/// centre of the sampler's grid.
pub open spec fn sample_on_lattice(s: Seq<Tree>, smp: JitteredHexagonalGridSampling) -> bool {
    forall|i: int|
        0 <= i < s.len() ==> on_jittered_lattice(
            (#[trigger] s[i]).position.0 as int,
            s[i].position.1 as int,
            smp.min_x as int,
            smp.min_y as int,
            smp.r as int,
            smp.jitter_radius as int,
        )
}

/// Configuration of one sampling run.
pub struct GridOptions {
    pub polygon: GeoPolygon,
    /// Sampling radius (fixed-point units); zero or negative samples nothing.
    pub radius: i64,
    /// Jitter factor at `MICRO` scale; values are clamped into `[0, MICRO]`.
    pub jitter: Option<i64>,
    pub point_limit: Option<usize>,
    pub tree_species: u8,
    /// Mean tree height (fixed-point units).
    pub mean_height: i64,
}

pub struct JitteredHexagonalGridSampling {
    pub polygon: GeoPolygon,
    pub r: i64,
    pub jitter: i64,
    pub jitter_radius: i64,
    pub rng: rand::rngs::ThreadRng,
    pub max_y: i64,
    pub max_x: i64,
    pub min_x: i64,
    pub min_y: i64,
    pub sample_points: Vec<Tree>,
    pub point_limit: usize,
    pub tree_species: u8,
    pub mean_height: i64,
}

/// The sampler's invariant: a well-formed polygon, its bounding rectangle,
/// a clamped jitter, and a stored sample that satisfies the sample contract.
pub open spec fn sampler_wf(s: JitteredHexagonalGridSampling) -> bool {
    &&& polygon_ok(s.polygon@)
    &&& -COORD_LIMIT <= s.min_x <= s.max_x <= COORD_LIMIT
    &&& -COORD_LIMIT <= s.min_y <= s.max_y <= COORD_LIMIT
    &&& 0 <= s.jitter <= MICRO
    &&& 0 <= s.jitter_radius
    &&& 0 <= s.mean_height <= HEIGHT_LIMIT
    &&& sample_ok(s.sample_points@, s.polygon@, s.tree_species, s.mean_height, s.point_limit)
}

/// The configuration fields two sampler states share (everything except the
/// generator state and the stored sample).
pub open spec fn same_config(a: JitteredHexagonalGridSampling, b: JitteredHexagonalGridSampling) -> bool {
    &&& a.polygon == b.polygon
    &&& a.r == b.r
    &&& a.jitter == b.jitter
    &&& a.jitter_radius == b.jitter_radius
    &&& a.min_x == b.min_x
    &&& a.min_y == b.min_y
    &&& a.max_x == b.max_x
    &&& a.max_y == b.max_y
    &&& a.point_limit == b.point_limit
    &&& a.tree_species == b.tree_species
    &&& a.mean_height == b.mean_height
}

/// One corner of the unit hexagon, at `MICRO` scale.
fn hex_vertex(i: u64) -> (v: (i64, i64))
    requires
        i < 6,
    ensures
        -MICRO <= v.0 <= MICRO,
        -MICRO <= v.1 <= MICRO,
{
    match i {
        0 => (0, -MICRO),
        1 => (HEX_SIDE_MICRO, -500_000),
        2 => (HEX_SIDE_MICRO, 500_000),
        3 => (0, MICRO),
        4 => (-HEX_SIDE_MICRO, 500_000),
        _ => (-HEX_SIDE_MICRO, -500_000),
    }
}

/// Shuffles the candidates and keeps at most `limit` of them; a sample that
/// already fits is returned whole.
fn apply_point_limit(rng: &mut rand::rngs::ThreadRng, cands: Vec<Tree>, limit: usize) -> (out: Vec<
    Tree,
>)
    ensures
        out@.len() == if cands@.len() <= limit {
            cands@.len() as int
        } else {
            limit as int
        },
        cands@.len() <= limit ==> out@ == cands@,
        forall|i: int| 0 <= i < out@.len() ==> cands@.contains(#[trigger] out@[i]),
{
    let n = cands.len();
    if n <= limit {
        proof {
            assert forall|i: int| 0 <= i < cands@.len() implies cands@.contains(
                #[trigger] cands@[i],
            ) by {}
        }
        return cands;
    }
    let mut idx: Vec<u64> = Vec::new();
    let mut i: usize = 0;
    while i < n
        invariant
            n == cands@.len(),
            n <= u64::MAX,
            0 <= i <= n,
            idx@.len() == i,
            forall|k: int| 0 <= k < i ==> idx@[k] == k,
        decreases n - i,
    {
        idx.push(i as u64);
        i = i + 1;
    }
    let ghost orig_idx = idx@;
    shuffle_u64(rng, &mut idx);
    proof {
        broadcast use vstd::seq_lib::group_to_multiset_ensures;

        assert(idx@.to_multiset().len() == orig_idx.to_multiset().len());
        assert(idx@.len() == orig_idx.len());
    }
    let mut out: Vec<Tree> = Vec::new();
    let mut k: usize = 0;
    while k < limit
        invariant
            n == cands@.len(),
            limit < n,
            idx@.len() == n,
            orig_idx.len() == n,
            forall|m: int| 0 <= m < n ==> orig_idx[m] == m,
            idx@.to_multiset() == orig_idx.to_multiset(),
            0 <= k <= limit,
            out@.len() == k,
            forall|i2: int| 0 <= i2 < out@.len() ==> cands@.contains(#[trigger] out@[i2]),
        decreases limit - k,
    {
        let j = idx[k];
        proof {
            broadcast use vstd::seq_lib::group_to_multiset_ensures;

            assert(idx@.contains(idx@[k as int]));
            assert(idx@.to_multiset().count(idx@[k as int]) > 0);
            assert(orig_idx.to_multiset().count(idx@[k as int]) > 0);
            assert(orig_idx.contains(idx@[k as int]));
            let m = choose|m: int| 0 <= m < orig_idx.len() && orig_idx[m] == idx@[k as int];
            assert(j < n);
        }
        let t = cands[j as usize];
        proof {
            assert(cands@.contains(cands@[j as int]));
        }
        out.push(t);
        k = k + 1;
    }
    out
}

/// The jitter factor a sampler adopts: the caller's value (or the
/// default), clamped into `[0, MICRO]`.
pub open spec fn spec_clamped_jitter(j: Option<i64>) -> int {
    let raw = match j {
        Option::Some(v) => v as int,
        Option::None => DEFAULT_JITTER_MICRO as int,
    };
    if raw < 0 {
        0
    } else if raw > MICRO as int {
        MICRO as int
    } else {
        raw
    }
}

impl JitteredHexagonalGridSampling {
    pub fn new(rng: rand::rngs::ThreadRng, options: GridOptions) -> (s: Self)
        requires
            polygon_ok(options.polygon@),
            0 <= options.mean_height <= HEIGHT_LIMIT,
        ensures
            sampler_wf(s),
            s.polygon == options.polygon,
            s.r == options.radius,
            s.tree_species == options.tree_species,
            s.mean_height == options.mean_height,
            s.point_limit == (match options.point_limit {
                Option::Some(l) => l,
                Option::None => DEFAULT_POINT_LIMIT,
            }),
            s.jitter == spec_clamped_jitter(options.jitter),
            s.jitter_radius == (if options.radius <= 0 {
                0int
            } else {
                options.radius as int * spec_clamped_jitter(options.jitter) / (MICRO as int)
            }),
            s.sample_points@.len() == 0,
    {
        let r = options.radius;
        let jitter_raw = match options.jitter {
            Option::Some(j) => j,
            Option::None => DEFAULT_JITTER_MICRO,
        };
        let jitter = if jitter_raw < 0 {
            0
        } else if jitter_raw > MICRO {
            MICRO
        } else {
            jitter_raw
        };
        let jitter_radius = if r <= 0 {
            0
        } else {
            proof {
                crate::math::lemma_scale_le(r as int, jitter as int, MICRO as int);
            }
            ((r as i128 * jitter as i128) / MICRO as i128) as i64
        };
        let (min_x, max_x, min_y, max_y) = get_min_max_coordinates(&options.polygon);
        JitteredHexagonalGridSampling {
            polygon: options.polygon,
            r,
            jitter,
            jitter_radius,
            rng,
            max_y,
            max_x,
            min_x,
            min_y,
            sample_points: Vec::new(),
            point_limit: match options.point_limit {
                Option::Some(l) => l,
                Option::None => DEFAULT_POINT_LIMIT,
            },
            tree_species: options.tree_species,
            mean_height: options.mean_height,
        }
    }

    /// Consumes the sampler and hands out the stored sample.
    pub fn get_all_points(self) -> (out: Vec<Tree>)
        ensures
            out == self.sample_points,
    {
        self.sample_points
    }

    /// One full lattice walk: generates candidates, filters them by
    /// containment, and applies the point limit.  Internal workhorse.
    fn sample_batch(&mut self) -> (out: Vec<Tree>)
        requires
            sampler_wf(*old(self)),
        ensures
            sampler_wf(*final(self)),
            same_config(*old(self), *final(self)),
            final(self).sample_points == old(self).sample_points,
            sample_ok(
                out@,
                old(self).polygon@,
                old(self).tree_species,
                old(self).mean_height,
                old(self).point_limit,
            ),
            old(self).r <= 0 ==> out@.len() == 0,
            sample_on_lattice(out@, *old(self)),
    {
        let r = self.r;
        if r <= 0 {
            return Vec::new();
        }
        let ru: u128 = r as u128;
        let height: u64 = (self.max_y - self.min_y) as u64;
        let width: u64 = (self.max_x - self.min_x) as u64;
        proof {
            crate::math::lemma_div_le(height as int, r as int);
            crate::math::lemma_div_le(width as int, r as int);
        }
        let rows: u64 = height / (r as u64) + 1;
        let step_x: u128 = 2 * ru * HEX_SIDE_MICRO as u128 / MICRO as u128;
        proof {
            crate::math::lemma_mul_bounds2(2 * r as int, HEX_SIDE_MICRO as int, i64::MAX as int * 2, MICRO as int);
            crate::math::lemma_mul_le(1, r as int, 2 * HEX_SIDE_MICRO as int);
            vstd::arithmetic::div_mod::lemma_div_is_ordered(
                2 * HEX_SIDE_MICRO as int,
                2 * r as int * HEX_SIDE_MICRO as int,
                MICRO as int,
            );
        }
        let cols: u64 = {
            proof {
                crate::math::lemma_div_le(width as int, step_x as int);
            }
            (width as u128 / step_x) as u64 + 1
        };
        assert(rows <= 20_000_000_001 && cols <= 20_000_000_001);
        let mut cands: Vec<Tree> = Vec::new();
        let mut iy: u64 = 0;
        while iy < rows
            invariant
                sampler_wf(*old(self)),
                same_config(*old(self), *self),
                self.sample_points == old(self).sample_points,
                1 <= r == self.r,
                ru == r as u128,
                0 <= iy <= rows <= 20_000_000_001,
                cols <= 20_000_000_001,
                forall|i: int|
                    0 <= i < cands@.len() ==> sampled_tree_ok(
                        #[trigger] cands@[i],
                        old(self).polygon@,
                        old(self).tree_species,
                        old(self).mean_height,
                    ),
                sample_on_lattice(cands@, *old(self)),
            decreases rows - iy,
        {
            proof {
                crate::math::lemma_mul_bounds2(
                    iy as int,
                    r as int,
                    20_000_000_001int,
                    i64::MAX as int,
                );
            }
            let row_off: u128 = iy as u128 * ru * 3 / 2;
            let cy: i128 = self.min_y as i128 + row_off as i128;
            proof {
                assert(cy as int == lattice_cy(old(self).min_y as int, r as int, iy as int));
            }
            let y_odd: bool = iy % 2 == 0;
            let mut ix: u64 = 0;
            while ix < cols
                invariant
                    sampler_wf(*old(self)),
                    same_config(*old(self), *self),
                    self.sample_points == old(self).sample_points,
                    1 <= r == self.r,
                    ru == r as u128,
                    0 <= ix <= cols <= 20_000_000_001,
                    -400_000_000_000_000_000_000_000_000_000 <= cy
                        <= 400_000_000_000_000_000_000_000_000_000,
                    y_odd == (iy % 2 == 0),
                    cy as int == lattice_cy(old(self).min_y as int, r as int, iy as int),
                    forall|i: int|
                        0 <= i < cands@.len() ==> sampled_tree_ok(
                            #[trigger] cands@[i],
                            old(self).polygon@,
                            old(self).tree_species,
                            old(self).mean_height,
                        ),
                    sample_on_lattice(cands@, *old(self)),
                decreases cols - ix,
            {
                let mult: u128 = 2 * ix as u128 + if y_odd {
                    1
                } else {
                    0
                };
                proof {
                    crate::math::lemma_mul_bounds2(
                        mult as int,
                        r as int,
                        40_000_000_003int,
                        i64::MAX as int,
                    );
                    crate::math::lemma_mul_bounds2(
                        mult as int * r as int,
                        HEX_SIDE_MICRO as int,
                        40_000_000_003int * i64::MAX as int,
                        MICRO as int,
                    );
                }
                let col_off: u128 = mult * ru * HEX_SIDE_MICRO as u128 / MICRO as u128;
                proof {
                    crate::math::lemma_div_le(
                        (mult * ru * HEX_SIDE_MICRO as u128) as int,
                        MICRO as int,
                    );
                }
                let cx: i128 = self.min_x as i128 + col_off as i128;
                let p = rand_below(&mut self.rng, 6_000_000);
                let q = rand_below(&mut self.rng, 1_000_000);
                let tri: u64 = p / 1_000_000;
                let mut p0: u64 = p % 1_000_000;
                let mut q0: u64 = q;
                if p0 + q0 > 1_000_000 {
                    // the reflected offsets stay strictly inside the cell
                    proof {
                        assert(p0 >= 2);
                    }
                    p0 = 1_000_000 - p0;
                    q0 = 1_000_000 - q0;
                }
                proof {
                    assert(p0 <= 999_999);
                }
                let v0 = hex_vertex(tri);
                let v1 = hex_vertex(if tri == 5 {
                    0
                } else {
                    tri + 1
                });
                proof {
                    crate::math::lemma_mul_bounds2(v0.0 as int, p0 as int, MICRO as int, 1_000_000int);
                    crate::math::lemma_mul_bounds2(v1.0 as int, q0 as int, MICRO as int, 1_000_000int);
                    crate::math::lemma_mul_bounds2(v0.1 as int, p0 as int, MICRO as int, 1_000_000int);
                    crate::math::lemma_mul_bounds2(v1.1 as int, q0 as int, MICRO as int, 1_000_000int);
                }
                let sum_x: i128 = v0.0 as i128 * p0 as i128 + v1.0 as i128 * q0 as i128;
                let sum_y: i128 = v0.1 as i128 * p0 as i128 + v1.1 as i128 * q0 as i128;
                let jr = self.jitter_radius;
                let dx: i128 = jitter_offset(sum_x, jr);
                let dy: i128 = jitter_offset(sum_y, jr);
                let px: i128 = cx + dx;
                let py: i128 = cy + dy;
                if -(COORD_LIMIT as i128) <= px && px <= COORD_LIMIT as i128 && -(COORD_LIMIT
                    as i128) <= py && py <= COORD_LIMIT as i128 {
                    let cpt = Coord { x: px as i64, y: py as i64 };
                    if polygon_contains_point(&self.polygon, cpt) {
                        let delta: i64 = (4000 * p0 as i64) / 1_000_000;
                        proof {
                            assert(delta <= 3999);
                        }
                        let hraw: i64 = self.mean_height - 2000 + delta;
                        let h: i64 = if hraw < 0 {
                            0
                        } else {
                            hraw
                        };
                        let t = Tree {
                            species: self.tree_species,
                            mean_height: h,
                            position: (px as i64, py as i64, 0),
                        };
                        proof {
                            assert(cx as int == lattice_cx(
                                old(self).min_x as int,
                                r as int,
                                iy as int,
                                ix as int,
                            ));
                            assert(on_jittered_lattice(
                                t.position.0 as int,
                                t.position.1 as int,
                                old(self).min_x as int,
                                old(self).min_y as int,
                                old(self).r as int,
                                old(self).jitter_radius as int,
                            ));
                        }
                        cands.push(t);
                    }
                }
                ix = ix + 1;
            }
            iy = iy + 1;
        }
        let limit = self.point_limit;
        let out = apply_point_limit(&mut self.rng, cands, limit);
        proof {
            assert forall|i: int| 0 <= i < out@.len() implies sampled_tree_ok(
                out@[i],
                old(self).polygon@,
                old(self).tree_species,
                old(self).mean_height,
            ) by {}
            assert forall|i: int| 0 <= i < out@.len() implies on_jittered_lattice(
                out@[i].position.0 as int,
                out@[i].position.1 as int,
                old(self).min_x as int,
                old(self).min_y as int,
                old(self).r as int,
                old(self).jitter_radius as int,
            ) by {}
        }
        out
    }

    /// Generates a fresh sample and stores it in the sampler.
    pub fn generate_all_points(&mut self)
        requires
            sampler_wf(*old(self)),
        ensures
            sampler_wf(*final(self)),
            same_config(*old(self), *final(self)),
            sample_ok(
                final(self).sample_points@,
                old(self).polygon@,
                old(self).tree_species,
                old(self).mean_height,
                old(self).point_limit,
            ),
            old(self).r <= 0 ==> final(self).sample_points@.len() == 0,
            sample_on_lattice(final(self).sample_points@, *old(self)),
    {
        let out = self.sample_batch();
        self.sample_points = out;
    }

    /// Generates and returns a fresh sample without storing it.
    pub fn generate_trees(&mut self) -> (out: Vec<Tree>)
        requires
            sampler_wf(*old(self)),
        ensures
            sampler_wf(*final(self)),
            same_config(*old(self), *final(self)),
            final(self).sample_points == old(self).sample_points,
            sample_ok(
                out@,
                old(self).polygon@,
                old(self).tree_species,
                old(self).mean_height,
                old(self).point_limit,
            ),
            old(self).r <= 0 ==> out@.len() == 0,
            sample_on_lattice(out@, *old(self)),
    {
        self.sample_batch()
    }

    /// Generates a fresh sample, stores it, and returns a copy.
    pub fn fill(&mut self) -> (out: Vec<Tree>)
        requires
            sampler_wf(*old(self)),
        ensures
            sampler_wf(*final(self)),
            same_config(*old(self), *final(self)),
            out@ == final(self).sample_points@,
            sample_ok(
                out@,
                old(self).polygon@,
                old(self).tree_species,
                old(self).mean_height,
                old(self).point_limit,
            ),
            old(self).r <= 0 ==> out@.len() == 0,
            sample_on_lattice(out@, *old(self)),
    {
        self.generate_all_points();
        let out = self.sample_points.clone();
        proof {
            assert forall|i: int| 0 <= i < out@.len() implies out@[i]
                == self.sample_points@[i] by {
                assert(vstd::pervasive::cloned(self.sample_points@[i], out@[i]));
            }
            assert(out@ =~= self.sample_points@);
        }
        out
    }
}

/// Scales one jitter component (at `MICRO * MICRO` scale) by the jitter
/// radius, keeping the sign.
fn jitter_offset(sum: i128, jr: i64) -> (d: i128)
    requires
        -3_000_000_000_000 <= sum <= 3_000_000_000_000,
        0 <= jr,
    ensures
        -(jr as int) * 3 <= d <= (jr as int) * 3,
{
    let mag_in: u128 = if sum >= 0 {
        sum as u128
    } else {
        (-sum) as u128
    };
    proof {
        crate::math::lemma_mul_bounds2(
            mag_in as int,
            jr as int,
            3_000_000_000_000int,
            i64::MAX as int,
        );
        crate::math::lemma_scale_le_k(jr as int, mag_in as int, 1_000_000_000_000int, 3);
    }
    let mag: u128 = mag_in * jr as u128 / 1_000_000_000_000;
    if sum >= 0 {
        mag as i128
    } else {
        -(mag as i128)
    }
}

} // verus!
