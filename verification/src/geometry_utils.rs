//! Density-driven radius estimation and per-stratum tree generation.
//!
//! `generate_radius` turns a target stem count and an area/density proxy
//! into a sampling spacing.  `generate_trees_by_stratum` runs one jittered
//! lattice sample per stratum — the strata are independent, so the runs are
//! fanned out over a thread pool — and `generate_random_trees` flattens the
//! groups into one population.

use vstd::prelude::*;
use rayon::iter::{IntoParallelRefIterator, ParallelIterator};
use crate::coords::{clone_polygon, GeoPolygon, PolygonModel, COORD_LIMIT, polygon_ok};
use crate::errors::CoreError;
use crate::jittered_hexagonal_sampling::{
    GridOptions, JitteredHexagonalGridSampling, HEIGHT_LIMIT, sampled_tree_ok,
};
use crate::math::{is_sqrt, PI_MICRO};
use crate::rng::fresh_rng;
use crate::tree::Tree;
use crate::tree_stand_data::{TreeStrata, TreeStratum};

verus! {

/// Largest area/density proxy (fixed-point) the radius estimator accepts.
pub const AREA_PROXY_LIMIT: u64 = 1_000_000_000_000;

/// The sampling unit's tree total at fixed-point scale:
/// `stem_count * area / 10000`.
pub open spec fn spec_total_trees_milli(total_stem_count: u32, area: u64) -> int {
    total_stem_count as int * area as int / 10000
}

/// The sparse-stand packing correction (fixed-point): interpolated below a
/// knee of 250 trees, constant above it.
pub open spec fn spec_ratio_fix_milli(total_trees_milli: int) -> int {
    if total_trees_milli < 250_000 {
        total_trees_milli * 600 / 250_000 + 1300
    } else {
        1300
    }
}

/// The value whose integer square root is the radius: the per-tree area,
/// corrected for packing, divided by pi, at squared fixed-point scale.
/// The scaling factor is folded into the numerator before the one
/// division, so the quotient never collapses to zero while the true
/// radius is a fixed-point unit or more.
pub open spec fn spec_radius_isqrt_arg(total_stem_count: u32, area: u64) -> int {
    let t = spec_total_trees_milli(total_stem_count, area);
    let ratio = spec_ratio_fix_milli(t);
    area as int * ratio * 1_000_000_000_000 / (t * 1273 * PI_MICRO as int)
}

/// Derives the sampling radius (fixed-point) from the unit's total stem
/// count and its area/density proxy.  A unit whose tree total resolves to
/// zero has no density to work with and is reported as `ZeroDensity`;
/// otherwise the radius is strictly positive — a density beyond the
/// fixed-point resolution still yields the smallest representable spacing.
pub fn generate_radius(total_stem_count: u32, area: u64) -> (res: Result<u64, CoreError>)
    requires
        area <= AREA_PROXY_LIMIT,
    ensures
        res is Err <==> spec_total_trees_milli(total_stem_count, area) == 0,
        res matches Err(e) ==> e == CoreError::ZeroDensity,
        res matches Ok(r) ==> 1 <= r,
        res matches Ok(r) ==> (spec_radius_isqrt_arg(total_stem_count, area) >= 1 ==> is_sqrt(
            r as nat,
            spec_radius_isqrt_arg(total_stem_count, area) as nat,
        )),
        res matches Ok(r) ==> (spec_radius_isqrt_arg(total_stem_count, area) == 0 ==> r == 1),
{
    proof {
        crate::math::lemma_mul_bounds2(
            total_stem_count as int,
            area as int,
            u32::MAX as int,
            AREA_PROXY_LIMIT as int,
        );
    }
    let t128: u128 = total_stem_count as u128 * area as u128 / 10000;
    if t128 == 0 {
        return Err(CoreError::ZeroDensity);
    }
    let ratio: u128 = if t128 < 250_000 {
        t128 * 600 / 250_000 + 1300
    } else {
        1300
    };
    assert(1300 <= ratio <= 1899);
    proof {
        crate::math::lemma_mul_bounds2(area as int, ratio as int, AREA_PROXY_LIMIT as int, 1899);
        crate::math::lemma_mul_bounds2(
            area as int * ratio as int,
            1_000_000_000_000int,
            1_899_000_000_000_000_000int,
            1_000_000_000_000int,
        );
        crate::math::lemma_div_le(total_stem_count as int * area as int, 10000);
        crate::math::lemma_mul_bounds2(
            t128 as int,
            1273,
            500_000_000_000_000_000int,
            1273,
        );
        crate::math::lemma_mul_bounds2(
            t128 as int * 1273,
            PI_MICRO as int,
            700_000_000_000_000_000_000int,
            PI_MICRO as int,
        );
    }
    proof {
        crate::math::lemma_mul_le(1, t128 as int, 1273);
        crate::math::lemma_mul_le(1273, t128 as int * 1273, PI_MICRO as int);
    }
    let num: u128 = area as u128 * ratio * 1_000_000_000_000;
    let den: u128 = t128 * 1273 * PI_MICRO as u128;
    let arg: u128 = num / den;
    proof {
        crate::math::lemma_div_le(num as int, den as int);
        assert(arg as int == spec_radius_isqrt_arg(total_stem_count, area));
    }
    let s = crate::math::isqrt_u128(arg);
    proof {
        assert(s <= 2_000_000_000_000_000) by (nonlinear_arith)
            requires
                s as int * s as int <= arg as int,
                arg <= 2_000_000_000_000_000_000_000_000_000_000int,
        ;
    }
    let r: u128 = if s == 0 {
        1
    } else {
        s
    };
    proof {
        if s == 0 {
            assert((s as int + 1) * (s as int + 1) == 1) by (nonlinear_arith)
                requires s == 0
            ;
            assert(arg == 0);
        } else {
            assert(r == s);
            assert(s as int * s as int >= 1) by (nonlinear_arith)
                requires s >= 1
            ;
        }
    }
    Ok(r as u64)
}

/// A stratum whose statistics the synthesis can use: a positive density
/// proxy and a mean height inside the fixed-point range.
pub open spec fn spec_usable_stratum(s: TreeStratum) -> bool {
    &&& 1 <= s.basal_area <= AREA_PROXY_LIMIT
    &&& 0 <= s.mean_height <= HEIGHT_LIMIT
}

/// What one stratum's generated sub-population satisfies: no more trees than
/// the stratum's target, every tree polygon-interior with the stratum's
/// species and height band, and nothing at all for unusable statistics.
pub open spec fn stratum_population_basic(out: Seq<Tree>, s: TreeStratum, poly: PolygonModel) -> bool {
    &&& out.len() <= s.stem_count
    &&& forall|i: int|
        0 <= i < out.len() ==> sampled_tree_ok(#[trigger] out[i], poly, s.tree_species, s.mean_height)
    &&& !spec_usable_stratum(s) ==> out.len() == 0
}

/// The full per-stratum contract: the basic one, plus nothing at all when
/// the sampling unit's tree total resolves to zero.
pub open spec fn stratum_population_ok(
    out: Seq<Tree>,
    s: TreeStratum,
    poly: PolygonModel,
    total_stems: u32,
) -> bool {
    &&& stratum_population_basic(out, s, poly)
    &&& (spec_usable_stratum(s) && spec_total_trees_milli(total_stems, s.basal_area as u64) == 0)
        ==> out.len() == 0
}

/// Generates the sub-population of one stratum: estimates the radius from
/// the stand-wide stem total and the stratum's basal area, then samples the
/// polygon with the stratum's own stem count as the point limit.  A stratum
/// without usable statistics contributes nothing, and never an error.
pub fn generate_stratum_trees(p: &GeoPolygon, total_stems: u32, stratum: &TreeStratum) -> (out:
    Vec<Tree>)
    requires
        polygon_ok(p@),
    ensures
        stratum_population_ok(out@, *stratum, p@, total_stems),
{
    if !(stratum.basal_area >= 1 && stratum.basal_area <= AREA_PROXY_LIMIT as i64
        && stratum.mean_height >= 0 && stratum.mean_height <= HEIGHT_LIMIT) {
        return Vec::new();
    }
    match generate_radius(total_stems, stratum.basal_area as u64) {
        Result::Err(_) => Vec::new(),
        Result::Ok(radius) => {
            let r: i64 = if radius > COORD_LIMIT as u64 {
                COORD_LIMIT
            } else {
                radius as i64
            };
            let rng = fresh_rng();
            let options = GridOptions {
                polygon: clone_polygon(p),
                radius: r,
                jitter: Some(666_600),
                point_limit: Some(stratum.stem_count as usize),
                tree_species: stratum.tree_species,
                mean_height: stratum.mean_height,
            };
            let mut grid = JitteredHexagonalGridSampling::new(rng, options);
            let pts = grid.fill();
            proof {
                assert(grid.polygon@.exterior == p@.exterior);
                assert(grid.polygon@.interiors == p@.interiors);
                assert(grid.polygon@ =~~= p@);
            }
            pts
        },
    }
}

/// Relies on rayon's `par_iter().map(..).collect::<Vec<_>>()`: the collected
/// vector has one entry per stratum, in the strata's order, and each entry
/// is the value returned by one call of `generate_stratum_trees` on that
/// stratum, so each entry satisfies that function's postcondition.
#[verifier::external_body]
fn par_stratum_populations(p: &GeoPolygon, total_stems: u32, strata: &Vec<TreeStratum>) -> (groups:
    Vec<Vec<Tree>>)
    requires
        polygon_ok(p@),
    ensures
        groups@.len() == strata@.len(),
        forall|k: int|
            0 <= k < groups@.len() ==> stratum_population_ok(
                (#[trigger] groups@[k])@,
                strata@[k],
                p@,
                total_stems,
            ),
{
    strata.par_iter().map(|s| generate_stratum_trees(p, total_stems, s)).collect()
}

/// Sum of the strata's stem-count targets.
pub open spec fn stems_sum(s: Seq<TreeStratum>, n: int) -> int
    decreases n,
{
    if n <= 0 {
        0
    } else {
        stems_sum(s, n - 1) + s[n - 1].stem_count
    }
}

/// A stem-count sum is never negative.
pub proof fn lemma_stems_sum_nonneg(s: Seq<TreeStratum>, n: int)
    ensures
        0 <= stems_sum(s, n),
    decreases n,
{
    if n > 0 {
        lemma_stems_sum_nonneg(s, n - 1);
    }
}

/// Sum of the stem-count targets of the strata of one species.
pub open spec fn species_quota(s: Seq<TreeStratum>, n: int, sp: u8) -> int
    decreases n,
{
    if n <= 0 {
        0
    } else {
        species_quota(s, n - 1, sp) + if s[n - 1].tree_species == sp {
            s[n - 1].stem_count as int
        } else {
            0
        }
    }
}

/// Number of trees of one species in a population.
pub open spec fn count_species(s: Seq<Tree>, sp: u8) -> int
    decreases s.len(),
{
    if s.len() == 0 {
        0
    } else {
        count_species(s.drop_last(), sp) + if s.last().species == sp {
            1int
        } else {
            0
        }
    }
}

/// Counting one species never exceeds the population size, and counts add
/// over concatenation.
pub proof fn lemma_count_species_concat(a: Seq<Tree>, b: Seq<Tree>, sp: u8)
    ensures
        count_species(a + b, sp) == count_species(a, sp) + count_species(b, sp),
    decreases b.len(),
{
    if b.len() == 0 {
        assert(a + b =~= a);
    } else {
        lemma_count_species_concat(a, b.drop_last(), sp);
        assert((a + b).drop_last() =~= a + b.drop_last());
        assert((a + b).last() == b.last());
    }
}

/// A population whose trees all carry one species counts as its whole length
/// for that species and as zero for every other.
pub proof fn lemma_count_species_uniform(s: Seq<Tree>, sp0: u8, sp: u8)
    requires
        forall|i: int| 0 <= i < s.len() ==> (#[trigger] s[i]).species == sp0,
    ensures
        sp == sp0 ==> count_species(s, sp) == s.len(),
        sp != sp0 ==> count_species(s, sp) == 0,
    decreases s.len(),
{
    if s.len() > 0 {
        lemma_count_species_uniform(s.drop_last(), sp0, sp);
    }
}

/// Total size of a sequence of groups.
pub open spec fn groups_len(gs: Seq<Seq<Tree>>, n: int) -> int
    decreases n,
{
    if n <= 0 {
        0
    } else {
        groups_len(gs, n - 1) + gs[n - 1].len()
    }
}

pub open spec fn groups_view(gs: Seq<Vec<Tree>>) -> Seq<Seq<Tree>> {
    gs.map_values(|g: Vec<Tree>| g@)
}

/// Per-species count summed over the first `n` groups.
pub open spec fn flat_species_count(gs: Seq<Seq<Tree>>, n: int, sp: u8) -> int
    decreases n,
{
    if n <= 0 {
        0
    } else {
        flat_species_count(gs, n - 1, sp) + count_species(gs[n - 1], sp)
    }
}

/// Concatenation of the first `n` groups.
pub open spec fn groups_concat(gs: Seq<Seq<Tree>>, n: int) -> Seq<Tree>
    decreases n,
{
    if n <= 0 {
        Seq::empty()
    } else {
        groups_concat(gs, n - 1) + gs[n - 1]
    }
}

/// The concatenation's length is the sum of the group lengths.
pub proof fn lemma_concat_len(gs: Seq<Seq<Tree>>, n: int)
    ensures
        groups_concat(gs, n).len() == groups_len(gs, n),
    decreases n,
{
    if n > 0 {
        lemma_concat_len(gs, n - 1);
    }
}

/// The concatenation's per-species count is the sum over the groups.
pub proof fn lemma_concat_species(gs: Seq<Seq<Tree>>, n: int, sp: u8)
    ensures
        count_species(groups_concat(gs, n), sp) == flat_species_count(gs, n, sp),
    decreases n,
{
    if n > 0 {
        lemma_concat_species(gs, n - 1, sp);
        lemma_count_species_concat(groups_concat(gs, n - 1), gs[n - 1], sp);
    } else {
        assert(groups_concat(gs, 0) =~= Seq::<Tree>::empty());
    }
}

/// The element at position `i` of the concatenation comes from one of the
/// groups.
pub proof fn lemma_concat_membership(gs: Seq<Seq<Tree>>, n: int, i: int)
    requires
        0 <= i < groups_concat(gs, n).len(),
    ensures
        exists|g: int, j: int| #![trigger gs[g][j]]
            0 <= g < n && 0 <= j < gs[g].len() && groups_concat(gs, n)[i] == gs[g][j],
    decreases n,
{
    if n > 0 {
        if i < groups_concat(gs, n - 1).len() {
            lemma_concat_membership(gs, n - 1, i);
            assert(groups_concat(gs, n)[i] == groups_concat(gs, n - 1)[i]);
            let (g0, j0): (int, int) = choose|g: int, j: int| #![trigger gs[g][j]]
                0 <= g < n - 1 && 0 <= j < gs[g].len() && groups_concat(gs, n - 1)[i] == gs[g][j];
            assert(0 <= g0 < n && 0 <= j0 < gs[g0].len() && groups_concat(gs, n)[i] == gs[g0][j0]);
        } else {
            let j0 = i - groups_concat(gs, n - 1).len();
            assert(0 <= j0 < gs[n - 1].len() && groups_concat(gs, n)[i] == gs[n - 1][j0]);
        }
    }
}

/// Flattens per-stratum groups into one population: exactly their
/// concatenation, in group order.
pub fn flatten_populations(groups: Vec<Vec<Tree>>) -> (out: Vec<Tree>)
    ensures
        out@ == groups_concat(groups_view(groups@), groups@.len() as int),
        out@.len() == groups_len(groups_view(groups@), groups@.len() as int),
        forall|sp: u8|
            count_species(out@, sp) == flat_species_count(
                groups_view(groups@),
                groups@.len() as int,
                sp,
            ),
{
    let n = groups.len();
    let mut out: Vec<Tree> = Vec::new();
    let mut k: usize = 0;
    while k < n
        invariant
            n == groups@.len(),
            0 <= k <= n,
            out@ == groups_concat(groups_view(groups@), k as int),
        decreases n - k,
    {
        let ghost prev = out@;
        let group = &groups[k];
        let m = group.len();
        let mut j: usize = 0;
        while j < m
            invariant
                n == groups@.len(),
                0 <= k < n,
                m == groups@[k as int]@.len(),
                group == groups@[k as int],
                0 <= j <= m,
                out@ == prev + groups@[k as int]@.subrange(0, j as int),
            decreases m - j,
        {
            out.push(group[j]);
            proof {
                assert(out@ =~= prev + groups@[k as int]@.subrange(0, j + 1));
            }
            j = j + 1;
        }
        proof {
            assert(groups@[k as int]@.subrange(0, m as int) =~= groups@[k as int]@);
            assert(groups_view(groups@)[k as int] == groups@[k as int]@);
            assert(out@ == groups_concat(groups_view(groups@), k + 1));
        }
        k = k + 1;
    }
    proof {
        lemma_concat_len(groups_view(groups@), n as int);
        assert forall|sp: u8|
            count_species(out@, sp) == flat_species_count(
                groups_view(groups@),
                groups@.len() as int,
                sp,
            ) by {
            lemma_concat_species(groups_view(groups@), n as int, sp);
        }
    }
    out
}

/// A per-species count is never negative and never exceeds the population.
pub proof fn lemma_count_species_bounds(s: Seq<Tree>, sp: u8)
    ensures
        0 <= count_species(s, sp) <= s.len(),
    decreases s.len(),
{
    if s.len() > 0 {
        lemma_count_species_bounds(s.drop_last(), sp);
    }
}

/// If every group respects its stratum's target, the concatenated total
/// respects the summed targets.
pub proof fn lemma_groups_len_bound(
    gs: Seq<Seq<Tree>>,
    strata: Seq<TreeStratum>,
    poly: PolygonModel,
    n: int,
)
    requires
        n <= gs.len(),
        n <= strata.len(),
        forall|k: int| 0 <= k < n ==> stratum_population_basic(#[trigger] gs[k], strata[k], poly),
    ensures
        groups_len(gs, n) <= stems_sum(strata, n),
    decreases n,
{
    if n > 0 {
        lemma_groups_len_bound(gs, strata, poly, n - 1);
    }
}

/// If every group carries only its stratum's species, the per-species total
/// respects that species' summed targets.
pub proof fn lemma_species_count_bound(
    gs: Seq<Seq<Tree>>,
    strata: Seq<TreeStratum>,
    poly: PolygonModel,
    n: int,
    sp: u8,
)
    requires
        n <= gs.len(),
        n <= strata.len(),
        forall|k: int| 0 <= k < n ==> stratum_population_basic(#[trigger] gs[k], strata[k], poly),
    ensures
        flat_species_count(gs, n, sp) <= species_quota(strata, n, sp),
        0 <= flat_species_count(gs, n, sp),
    decreases n,
{
    if n > 0 {
        lemma_species_count_bound(gs, strata, poly, n - 1, sp);
        lemma_count_species_uniform(gs[n - 1], strata[n - 1].tree_species, sp);
        lemma_count_species_bounds(gs[n - 1], sp);
    }
}

/// What the whole-population generator promises of its output: bounded by
/// the summed targets, per-species counts within the species' quotas, and
/// every tree from one of the strata, inside the polygon.
pub open spec fn population_from(out: Seq<Tree>, strata: Seq<TreeStratum>, poly: PolygonModel) -> bool {
    &&& out.len() <= stems_sum(strata, strata.len() as int)
    &&& (forall|sp: u8|
        0 <= #[trigger] count_species(out, sp) <= species_quota(strata, strata.len() as int, sp))
    &&& (forall|i: int| 0 <= i < out.len() ==> tree_from_strata(#[trigger] out[i], strata, poly))
}

/// The tree belongs to one of the strata: its species, height band and
/// containment are those of some stratum's sample.
pub open spec fn tree_from_strata(t: Tree, strata: Seq<TreeStratum>, poly: PolygonModel) -> bool {
    exists|k: int|
        0 <= k < strata.len() && sampled_tree_ok(
            t,
            poly,
            (#[trigger] strata[k]).tree_species,
            strata[k].mean_height,
        )
}

/// Runs one independent lattice sample per stratum, fanned out over a
/// thread pool: one group per stratum, in the strata's order, each group
/// bounded by its own stratum's target and carrying only that stratum's
/// species.
pub fn generate_trees_by_stratum(p: &GeoPolygon, strata: &TreeStrata) -> (groups: Vec<Vec<Tree>>)
    requires
        polygon_ok(p@),
    ensures
        groups@.len() == strata.tree_stratum@.len(),
        forall|k: int|
            0 <= k < groups@.len() ==> stratum_population_basic(
                (#[trigger] groups@[k])@,
                strata.tree_stratum@[k],
                p@,
            ),
{
    let n = strata.tree_stratum.len();
    let mut total64: u64 = 0;
    let mut k: usize = 0;
    while k < n
        invariant
            n == strata.tree_stratum@.len(),
            0 <= k <= n,
            total64 <= 2 * (u32::MAX as u64),
        decreases n - k,
    {
        if total64 <= u32::MAX as u64 {
            total64 = total64 + strata.tree_stratum[k].stem_count as u64;
        }
        k = k + 1;
    }
    let total: u32 = if total64 > u32::MAX as u64 {
        u32::MAX
    } else {
        total64 as u32
    };
    par_stratum_populations(p, total, &strata.tree_stratum)
}

/// Generates the whole population of a sampling unit: the per-stratum
/// groups, flattened.  The population never exceeds the summed stem-count
/// targets, each species' share never exceeds that species' summed
/// targets, and every tree carries the species and height band of one of
/// the strata and lies inside the polygon.
pub fn generate_random_trees(p: &GeoPolygon, strata: &TreeStrata) -> (out: Vec<Tree>)
    requires
        polygon_ok(p@),
    ensures
        out@.len() <= stems_sum(strata.tree_stratum@, strata.tree_stratum@.len() as int),
        forall|sp: u8|
            0 <= #[trigger] count_species(out@, sp) <= species_quota(
                strata.tree_stratum@,
                strata.tree_stratum@.len() as int,
                sp,
            ),
        forall|i: int|
            0 <= i < out@.len() ==> tree_from_strata(#[trigger] out@[i], strata.tree_stratum@, p@),
        population_from(out@, strata.tree_stratum@, p@),
{
    let groups = generate_trees_by_stratum(p, strata);
    let out = flatten_populations(groups);
    proof {
        let gs = groups_view(groups@);
        let sn = strata.tree_stratum@.len() as int;
        assert(gs.len() == sn);
        assert forall|kk: int| 0 <= kk < sn implies stratum_population_basic(
            #[trigger] gs[kk],
            strata.tree_stratum@[kk],
            p@,
        ) by {
            assert(gs[kk] == groups@[kk]@);
        }
        lemma_groups_len_bound(gs, strata.tree_stratum@, p@, sn);
        assert forall|sp: u8|
            0 <= #[trigger] count_species(out@, sp) <= species_quota(
                strata.tree_stratum@,
                strata.tree_stratum@.len() as int,
                sp,
            ) by {
            lemma_species_count_bound(gs, strata.tree_stratum@, p@, sn, sp);
        }
        assert forall|i: int| 0 <= i < out@.len() implies tree_from_strata(
            #[trigger] out@[i],
            strata.tree_stratum@,
            p@,
        ) by {
            lemma_concat_membership(gs, sn, i);
            let (g0, j0): (int, int) = choose|g: int, j: int| #![trigger gs[g][j]]
                0 <= g < sn && 0 <= j < gs[g].len() && groups_concat(gs, sn)[i] == gs[g][j];
            assert(stratum_population_basic(gs[g0], strata.tree_stratum@[g0], p@));
            assert(sampled_tree_ok(
                gs[g0][j0],
                p@,
                strata.tree_stratum@[g0].tree_species,
                strata.tree_stratum@[g0].mean_height,
            ));
        }
    }
    out
}

} // verus!
