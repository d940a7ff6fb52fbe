//! Compartments: stands clipped to a query rectangle, with their synthesized
//! trees.
//!
//! The builder clips the stand's polygon, derives the retained-area ratio as
//! an exact rational of doubled areas, scales each stratum's stem-count
//! target by that ratio (density preservation), and hands the clipped
//! polygon to the tree generator.  A stand whose intersection with the
//! rectangle is empty yields no compartment; a stand without survey data
//! yields a compartment without trees.

use vstd::prelude::*;
use rayon::iter::{IntoParallelRefIterator, ParallelIterator};
use crate::clip::{clip_polygon_to_rect, exterior_separated_from_rect, polygon_compact};
use crate::coords::{
    centroid_in_rect, compute_polygon_area2, GeoPolygon, Rect, polygon_area2, polygon_in_rect,
    polygon_ok, rect_ok, ring_centroid_in_rect, ring_intersects_rect, ring_meets_rect,
};
use crate::decimal::{spec_decimal, u64_to_decimal};
use crate::geometry_utils::{
    count_species, generate_random_trees, species_quota, stems_sum, tree_from_strata,
};
use crate::math::{AREA2_LIMIT, scale_by_ratio, spec_round_div};
use crate::stand::{Stand, stand_polygon_ok};
use crate::tree::Tree;
use crate::tree_stand_data::{TreeStrata, TreeStratum};

verus! {

/// The retained-area fraction of a clipped stand, as an exact rational of
/// doubled areas.
#[derive(Debug, Clone, Copy, PartialEq, Eq, Structural)]
pub struct AreaRatio {
    pub num: u128,
    pub den: u128,
}

pub open spec fn ratio_ok(r: AreaRatio) -> bool {
    0 < r.den <= AREA2_LIMIT && r.num <= r.den
}

/// A stand clipped to the query rectangle, with its synthesized trees.
#[derive(Debug, Clone, PartialEq)]
pub struct Compartment {
    pub stand_number: String,
    pub trees: Vec<Tree>,
    pub polygon: GeoPolygon,
    pub area_ratio: AreaRatio,
}

/// A clipped stand boundary without trees.
#[derive(Debug, Clone, PartialEq)]
pub struct CompartmentArea {
    pub stand_number: String,
    pub polygon: GeoPolygon,
}

/// A stratum with its stem-count target scaled by the retained-area ratio,
/// rounded to the nearest integer: the density-preservation step.
pub open spec fn spec_scaled_stratum(s: TreeStratum, ratio: AreaRatio) -> TreeStratum {
    TreeStratum {
        stem_count: spec_round_div(s.stem_count as int * ratio.num as int, ratio.den as int) as u32,
        ..s
    }
}

pub open spec fn spec_scaled_strata(strata: Seq<TreeStratum>, ratio: AreaRatio) -> Seq<TreeStratum> {
    strata.map_values(|s: TreeStratum| spec_scaled_stratum(s, ratio))
}

/// Clipping to half the area halves the target: with `den == 2 * num` the
/// scaled stem count is `round(stem_count / 2)`.
pub proof fn lemma_density_preserved_at_half(s: TreeStratum, ratio: AreaRatio)
    requires
        ratio_ok(ratio),
        ratio.den == 2 * ratio.num,
    ensures
        spec_scaled_stratum(s, ratio).stem_count == spec_round_div(s.stem_count as int, 2),
{
    let n = s.stem_count as int;
    let m = ratio.num as int;
    assert((2 * (n * m) + 2 * m) / (2 * (2 * m)) == (2 * n + 2) / 4int) by (nonlinear_arith)
        requires m > 0
    ;
}

/// A full-area ratio leaves every stem-count target unchanged.
pub proof fn lemma_density_preserved_at_full(s: TreeStratum, ratio: AreaRatio)
    requires
        ratio_ok(ratio),
        ratio.num == ratio.den,
    ensures
        spec_scaled_stratum(s, ratio).stem_count == s.stem_count,
{
    let n = s.stem_count as int;
    let m = ratio.den as int;
    assert((2 * (n * m) + m) / (2 * m) == n) by (nonlinear_arith)
        requires m > 0
    ;
}

/// Scales every stratum's stem-count target by the ratio.
pub fn scale_strata(strata: &Vec<TreeStratum>, ratio: AreaRatio) -> (out: Vec<TreeStratum>)
    requires
        ratio_ok(ratio),
    ensures
        out@ == spec_scaled_strata(strata@, ratio),
{
    let n = strata.len();
    let mut out: Vec<TreeStratum> = Vec::new();
    let mut i: usize = 0;
    while i < n
        invariant
            n == strata@.len(),
            ratio_ok(ratio),
            0 <= i <= n,
            out@.len() == i,
            forall|k: int| 0 <= k < i ==> out@[k] == spec_scaled_stratum(#[trigger] strata@[k], ratio),
        decreases n - i,
    {
        let s = strata[i];
        let scaled = scale_by_ratio(s.stem_count, ratio.num, ratio.den);
        let mut t = s;
        t.stem_count = scaled;
        out.push(t);
        i = i + 1;
    }
    proof {
        assert(out@ =~= spec_scaled_strata(strata@, ratio));
    }
    out
}

/// The strata of the stand's latest survey snapshot, or empty.
pub open spec fn spec_stand_strata(stand: Stand) -> Seq<TreeStratum> {
    match stand.tree_stand_data {
        Option::Some(td) => if td.tree_stand_data_date@.len() > 0 {
            td.tree_stand_data_date@.last().tree_strata.tree_stratum@
        } else {
            Seq::empty()
        },
        Option::None => Seq::empty(),
    }
}

/// Everything `build_compartment` promises of its result for one stand.
pub open spec fn compartment_built_ok(stand: Stand, bbox: Rect, r: Option<Compartment>) -> bool {
    &&& (r matches Some(c) ==> {
        &&& stand.computed_polygon matches Some(p)
        &&& polygon_ok(c.polygon@)
        &&& polygon_in_rect(c.polygon@, bbox)
        &&& ratio_ok(c.area_ratio)
        &&& c.area_ratio.den == polygon_area2(p@)
        &&& c.area_ratio.num == (if polygon_area2(c.polygon@) <= polygon_area2(p@) {
            polygon_area2(c.polygon@)
        } else {
            polygon_area2(p@)
        })
        &&& c.stand_number@ == spec_decimal(stand.stand_basic_data.stand_number as nat)
        &&& c.trees@.len() <= stems_sum(
            spec_scaled_strata(spec_stand_strata(stand), c.area_ratio),
            spec_stand_strata(stand).len() as int,
        )
        &&& (forall|sp: u8|
            0 <= #[trigger] count_species(c.trees@, sp) <= species_quota(
                spec_scaled_strata(spec_stand_strata(stand), c.area_ratio),
                spec_stand_strata(stand).len() as int,
                sp,
            ))
        &&& (forall|i: int|
            0 <= i < c.trees@.len() ==> tree_from_strata(
                #[trigger] c.trees@[i],
                spec_scaled_strata(spec_stand_strata(stand), c.area_ratio),
                c.polygon@,
            ))
        &&& (spec_stand_strata(stand).len() == 0 ==> c.trees@.len() == 0)
    })
    &&& (stand.computed_polygon is None ==> r is None)
    &&& (stand.computed_polygon matches Some(p) ==> ((polygon_in_rect(p@, bbox)
        && polygon_compact(p@) && polygon_area2(p@) > 0) ==> (r matches Some(c)
        && c.polygon@.exterior == p@.exterior && c.polygon@.interiors == p@.interiors
        && c.area_ratio.num == c.area_ratio.den)))
    &&& (stand.computed_polygon matches Some(p) ==> (exterior_separated_from_rect(p@, bbox) ==> r
        is None))
}

/// Scaling by a ratio of at most one never raises the summed stem-count
/// targets.
pub proof fn lemma_scaled_stems_le(strata: Seq<TreeStratum>, ratio: AreaRatio, n: int)
    requires
        ratio_ok(ratio),
        n <= strata.len(),
    ensures
        stems_sum(spec_scaled_strata(strata, ratio), n) <= stems_sum(strata, n),
    decreases n,
{
    if n > 0 {
        lemma_scaled_stems_le(strata, ratio, n - 1);
        let k = strata[n - 1].stem_count as int;
        assert(0 <= spec_round_div(k * ratio.num as int, ratio.den as int) <= k)
            by (nonlinear_arith)
            requires
                0 <= k,
                0 < ratio.den,
                ratio.num <= ratio.den,
        ;
        assert(spec_scaled_strata(strata, ratio)[n - 1] == spec_scaled_stratum(
            strata[n - 1],
            ratio,
        ));
    }
}

/// The summed stem-count targets of one stand's latest snapshot.
pub open spec fn stand_stems(s: Stand) -> int {
    stems_sum(spec_stand_strata(s), spec_stand_strata(s).len() as int)
}

/// The summed stem-count targets over the first `n` stands.
pub open spec fn stands_stems_total(stands: Seq<Stand>, n: int) -> int
    decreases n,
{
    if n <= 0 {
        0
    } else {
        stands_stems_total(stands, n - 1) + stand_stems(stands[n - 1])
    }
}

/// A summed stem-count total is never negative.
pub proof fn lemma_stands_stems_nonneg(stands: Seq<Stand>, n: int)
    ensures
        0 <= stands_stems_total(stands, n),
    decreases n,
{
    if n > 0 {
        lemma_stands_stems_nonneg(stands, n - 1);
        crate::geometry_utils::lemma_stems_sum_nonneg(
            spec_stand_strata(stands[n - 1]),
            spec_stand_strata(stands[n - 1]).len() as int,
        );
    }
}

/// The compartments of a sequence of per-stand build results, in order:
/// one for each successful build.
pub open spec fn built_compartments(results: Seq<Option<Compartment>>) -> Seq<Compartment>
    decreases results.len(),
{
    if results.len() == 0 {
        Seq::empty()
    } else {
        built_compartments(results.drop_last()) + (match results.last() {
            Option::Some(c) => seq![c],
            Option::None => Seq::empty(),
        })
    }
}

/// Every successful build appears among the compacted compartments; with
/// `compartment_built_ok` this gives one compartment per selected stand
/// whose polygon is wholly inside the rectangle with positive area.
pub proof fn lemma_built_compartments_contains(results: Seq<Option<Compartment>>, i: int)
    requires
        0 <= i < results.len(),
    ensures
        results[i] matches Some(c) ==> built_compartments(results).contains(c),
    decreases results.len(),
{
    if results.len() > 0 && results[i] is Some {
        let c = choose|c: Compartment| results[i] == Some(c);
        if i == results.len() - 1 {
            let whole = built_compartments(results);
            assert(whole[whole.len() - 1] == c);
        } else {
            lemma_built_compartments_contains(results.drop_last(), i);
            assert(results.drop_last()[i] == results[i]);
            let prefix = built_compartments(results.drop_last());
            let j = choose|j: int| 0 <= j < prefix.len() && prefix[j] == c;
            assert(built_compartments(results)[j] == c);
        }
    }
}

/// The clipped boundaries of a sequence of per-stand build results, in
/// order: one for each successful build.
pub open spec fn built_areas(results: Seq<Option<Compartment>>) -> Seq<CompartmentArea>
    decreases results.len(),
{
    if results.len() == 0 {
        Seq::empty()
    } else {
        built_areas(results.drop_last()) + (match results.last() {
            Option::Some(c) => seq![
                CompartmentArea { stand_number: c.stand_number, polygon: c.polygon },
            ],
            Option::None => Seq::empty(),
        })
    }
}

/// Builds one compartment: clips the stand to the rectangle, computes the
/// retained-area ratio, scales the strata targets and synthesizes the
/// trees.  An empty or degenerate intersection gives `None`.
pub fn build_compartment(stand: &Stand, bbox: &Rect) -> (r: Option<Compartment>)
    requires
        rect_ok(*bbox),
        stand.computed_polygon matches Some(p) ==> stand_polygon_ok(p),
    ensures
        compartment_built_ok(*stand, *bbox, r),
{
    let p = match &stand.computed_polygon {
        Some(p) => p,
        None => { return None },
    };
    let clipped = match clip_polygon_to_rect(p, *bbox) {
        Some(c) => c,
        None => { return None },
    };
    let orig_area2 = compute_polygon_area2(p);
    if orig_area2 == 0 {
        return None;
    }
    let clip_area2 = compute_polygon_area2(&clipped);
    if clip_area2 == 0 {
        // the intersection is degenerate: no compartment
        proof {
            if polygon_in_rect(p@, *bbox) && polygon_compact(p@) && polygon_area2(p@) > 0 {
                assert(clipped@ == p@);
                assert(false);
            }
        }
        return None;
    }
    let num = if clip_area2 <= orig_area2 {
        clip_area2
    } else {
        orig_area2
    };
    let ratio = AreaRatio { num, den: orig_area2 };
    let trees: Vec<Tree> = match stand.get_stratums() {
        Some(stratums) => {
            let scaled = scale_strata(&stratums, ratio);
            let strata = TreeStrata::new(scaled);
            generate_random_trees(&clipped, &strata)
        },
        None => Vec::new(),
    };
    let number = u64_to_decimal(stand.stand_basic_data.stand_number as u64);
    let c = Compartment { stand_number: number, trees, polygon: clipped, area_ratio: ratio };
    proof {
        if spec_stand_strata(*stand).len() == 0 {
            assert(stems_sum(spec_scaled_strata(spec_stand_strata(*stand), ratio), 0) == 0);
        }
        assert(spec_scaled_strata(spec_stand_strata(*stand), ratio).len() == spec_stand_strata(
            *stand,
        ).len());
    }
    Some(c)
}

impl Compartment {
    pub fn new(stand_number: String, trees: Vec<Tree>, polygon: GeoPolygon) -> (c: Compartment)
        ensures
            c.stand_number == stand_number,
            c.trees == trees,
            c.polygon == polygon,
            c.area_ratio == (AreaRatio { num: 1, den: 1 }),
    {
        Compartment { stand_number, trees, polygon, area_ratio: AreaRatio { num: 1, den: 1 } }
    }

    pub fn stand_number(&self) -> (r: &String)
        ensures
            r == &self.stand_number,
    {
        &self.stand_number
    }

    pub fn trees(&self) -> (r: &Vec<Tree>)
        ensures
            r == &self.trees,
    {
        &self.trees
    }

    pub fn polygon(&self) -> (r: &GeoPolygon)
        ensures
            r == &self.polygon,
    {
        &self.polygon
    }

    /// Clips this compartment's polygon once more, against another
    /// rectangle.
    pub fn clip_polygon_to_bounding_box(&self, bbox: &Rect) -> (r: Option<GeoPolygon>)
        requires
            polygon_ok(self.polygon@),
            rect_ok(*bbox),
        ensures
            r matches Some(q) ==> polygon_ok(q@) && polygon_in_rect(q@, *bbox),
            polygon_in_rect(self.polygon@, *bbox) && polygon_compact(self.polygon@) ==> (
            r matches Some(q) && q@.exterior == self.polygon@.exterior && q@.interiors
                == self.polygon@.interiors),
            exterior_separated_from_rect(self.polygon@, *bbox) ==> r is None,
    {
        clip_polygon_to_rect(&self.polygon, *bbox)
    }

    /// The trees of this compartment inside the given bounds.
    pub fn trees_in_bounding_box(&self, min_x: i64, max_x: i64, min_y: i64, max_y: i64) -> (r: Vec<
        Tree,
    >)
        ensures
            r@ == filter_in_box(self.trees@, min_x, max_x, min_y, max_y),
    {
        let n = self.trees.len();
        let mut out: Vec<Tree> = Vec::new();
        let mut i: usize = 0;
        while i < n
            invariant
                n == self.trees@.len(),
                0 <= i <= n,
                out@ == filter_in_box(self.trees@.take(i as int), min_x, max_x, min_y, max_y),
            decreases n - i,
        {
            let t = self.trees[i];
            proof {
                assert(self.trees@.take(i + 1).drop_last() =~= self.trees@.take(i as int));
                assert(self.trees@.take(i + 1).last() == t);
            }
            if t.position.0 >= min_x && t.position.0 <= max_x && t.position.1 >= min_y
                && t.position.1 <= max_y {
                out.push(t);
            }
            i = i + 1;
        }
        proof {
            assert(self.trees@.take(n as int) =~= self.trees@);
        }
        out
    }
}

/// Whether a tree's position lies inside the given bounds.
pub open spec fn tree_in_box(t: Tree, min_x: i64, max_x: i64, min_y: i64, max_y: i64) -> bool {
    min_x <= t.position.0 <= max_x && min_y <= t.position.1 <= max_y
}

/// The trees of a population inside the given bounds, in order.
pub open spec fn filter_in_box(
    s: Seq<Tree>,
    min_x: i64,
    max_x: i64,
    min_y: i64,
    max_y: i64,
) -> Seq<Tree>
    decreases s.len(),
{
    if s.len() == 0 {
        s
    } else {
        let rest = filter_in_box(s.drop_last(), min_x, max_x, min_y, max_y);
        if tree_in_box(s.last(), min_x, max_x, min_y, max_y) {
            rest.push(s.last())
        } else {
            rest
        }
    }
}

/// The selection predicate: the stand's computed exterior ring meets the
/// rectangle.  Boundary intersection is the canonical choice — it keeps
/// partially overlapping stands, which a centroid-containment test would
/// silently drop.
pub open spec fn stand_selected(s: Stand, r: Rect) -> bool {
    s.computed_polygon matches Some(p) && ring_intersects_rect(p@.exterior, r)
}

/// The stands whose boundary meets the rectangle, in order.
pub open spec fn spec_selected_stands(s: Seq<Stand>, r: Rect) -> Seq<Stand>
    decreases s.len(),
{
    if s.len() == 0 {
        s
    } else {
        let rest = spec_selected_stands(s.drop_last(), r);
        if stand_selected(s.last(), r) {
            rest.push(s.last())
        } else {
            rest
        }
    }
}

/// Selection never invents stands.
pub proof fn lemma_selected_len(s: Seq<Stand>, r: Rect)
    ensures
        spec_selected_stands(s, r).len() <= s.len(),
    decreases s.len(),
{
    if s.len() > 0 {
        lemma_selected_len(s.drop_last(), r);
    }
}

/// How stands are chosen for a query: by boundary intersection (the
/// canonical predicate — it keeps partially overlapping stands) or by
/// centroid containment (the documented alternative, which drops them).
#[derive(Debug, Clone, Copy, PartialEq, Eq, Structural)]
pub enum SelectionMode {
    Intersects,
    CentroidWithin,
}

/// The selection predicate of the given mode.
pub open spec fn stand_selected_by(mode: SelectionMode, s: Stand, r: Rect) -> bool {
    match mode {
        SelectionMode::Intersects => stand_selected(s, r),
        SelectionMode::CentroidWithin => s.computed_polygon matches Some(p) && centroid_in_rect(
            p@.exterior,
            r,
        ),
    }
}

/// The stands the given mode keeps, in order.
pub open spec fn spec_selected_stands_by(mode: SelectionMode, s: Seq<Stand>, r: Rect) -> Seq<Stand>
    decreases s.len(),
{
    if s.len() == 0 {
        s
    } else {
        let rest = spec_selected_stands_by(mode, s.drop_last(), r);
        if stand_selected_by(mode, s.last(), r) {
            rest.push(s.last())
        } else {
            rest
        }
    }
}

/// Keeps the stands the given mode selects, in their original order;
/// `None` when no stand qualifies.
pub fn select_stands_in_bounding_box<'a>(
    stands: &'a Vec<Stand>,
    bbox: &Rect,
    mode: SelectionMode,
) -> (r: Option<Vec<&'a Stand>>)
    requires
        rect_ok(*bbox),
        forall|i: int|
            0 <= i < stands@.len() ==> ((#[trigger] stands@[i]).computed_polygon matches Some(p)
                ==> stand_polygon_ok(p)),
    ensures
        r matches Some(v) ==> v@.map_values(|s: &Stand| *s) == spec_selected_stands_by(
            mode,
            stands@,
            *bbox,
        ) && v@.len() > 0,
        r is None ==> spec_selected_stands_by(mode, stands@, *bbox).len() == 0,
{
    let n = stands.len();
    let mut sel: Vec<&Stand> = Vec::new();
    let mut i: usize = 0;
    while i < n
        invariant
            n == stands@.len(),
            rect_ok(*bbox),
            forall|k: int|
                0 <= k < stands@.len() ==> ((#[trigger] stands@[k]).computed_polygon matches Some(
                    p,
                ) ==> stand_polygon_ok(p)),
            0 <= i <= n,
            sel@.map_values(|s: &Stand| *s) == spec_selected_stands_by(
                mode,
                stands@.take(i as int),
                *bbox,
            ),
        decreases n - i,
    {
        let stand = &stands[i];
        let keep = match &stand.computed_polygon {
            Some(p) => match mode {
                SelectionMode::Intersects => ring_meets_rect(&p.exterior, *bbox),
                SelectionMode::CentroidWithin => ring_centroid_in_rect(&p.exterior, *bbox),
            },
            None => false,
        };
        proof {
            assert(stands@.take(i + 1).drop_last() =~= stands@.take(i as int));
            assert(stands@.take(i + 1).last() == stands@[i as int]);
        }
        if keep {
            sel.push(stand);
            proof {
                assert(sel@.map_values(|s: &Stand| *s) =~= spec_selected_stands_by(
                    mode,
                    stands@.take(i + 1),
                    *bbox,
                ));
            }
        }
        i = i + 1;
    }
    proof {
        assert(stands@.take(n as int) =~= stands@);
    }
    if sel.len() == 0 {
        None
    } else {
        Some(sel)
    }
}

/// Each selected stand is one of the originals, and meets the rectangle.
pub proof fn lemma_selected_element(s: Seq<Stand>, r: Rect, k: int)
    requires
        0 <= k < spec_selected_stands(s, r).len(),
    ensures
        s.contains(spec_selected_stands(s, r)[k]),
        stand_selected(spec_selected_stands(s, r)[k], r),
    decreases s.len(),
{
    if s.len() > 0 {
        let rest = spec_selected_stands(s.drop_last(), r);
        if k < rest.len() {
            lemma_selected_element(s.drop_last(), r, k);
            assert(s.drop_last().contains(rest[k]));
            let j = choose|j: int| 0 <= j < s.drop_last().len() && s.drop_last()[j] == rest[k];
            assert(s[j] == rest[k]);
        } else {
            assert(spec_selected_stands(s, r)[k] == s.last());
            assert(s[s.len() - 1] == s.last());
        }
    }
}

/// Keeps the stands whose boundary meets the rectangle, in their original
/// order; `None` when no stand qualifies.
pub fn find_stands_in_bounding_box<'a>(stands: &'a Vec<Stand>, bbox: &Rect) -> (r: Option<
    Vec<&'a Stand>,
>)
    requires
        rect_ok(*bbox),
        forall|i: int|
            0 <= i < stands@.len() ==> ((#[trigger] stands@[i]).computed_polygon matches Some(p)
                ==> stand_polygon_ok(p)),
    ensures
        r matches Some(v) ==> v@.map_values(|s: &Stand| *s) == spec_selected_stands(
            stands@,
            *bbox,
        ) && v@.len() > 0,
        r matches Some(v) ==> forall|k: int|
            0 <= k < v@.len() ==> ((#[trigger] v@[k]).computed_polygon matches Some(p)
                ==> stand_polygon_ok(p)),
        r is None ==> spec_selected_stands(stands@, *bbox).len() == 0,
{
    let n = stands.len();
    let mut sel: Vec<&Stand> = Vec::new();
    let mut i: usize = 0;
    while i < n
        invariant
            n == stands@.len(),
            rect_ok(*bbox),
            forall|k: int|
                0 <= k < stands@.len() ==> ((#[trigger] stands@[k]).computed_polygon matches Some(
                    p,
                ) ==> stand_polygon_ok(p)),
            0 <= i <= n,
            sel@.map_values(|s: &Stand| *s) == spec_selected_stands(
                stands@.take(i as int),
                *bbox,
            ),
            forall|k: int|
                0 <= k < sel@.len() ==> ((#[trigger] sel@[k]).computed_polygon matches Some(p)
                    ==> stand_polygon_ok(p)),
        decreases n - i,
    {
        let stand = &stands[i];
        let keep = match &stand.computed_polygon {
            Some(p) => ring_meets_rect(&p.exterior, *bbox),
            None => false,
        };
        proof {
            assert(stands@.take(i + 1).drop_last() =~= stands@.take(i as int));
            assert(stands@.take(i + 1).last() == stands@[i as int]);
        }
        if keep {
            sel.push(stand);
            proof {
                assert(sel@.map_values(|s: &Stand| *s) =~= spec_selected_stands(
                    stands@.take(i + 1),
                    *bbox,
                ));
            }
        }
        i = i + 1;
    }
    proof {
        assert(stands@.take(n as int) =~= stands@);
    }
    if sel.len() == 0 {
        None
    } else {
        Some(sel)
    }
}

/// Relies on rayon's `par_iter().map(..).collect::<Vec<_>>()`: one entry per
/// selected stand, in order, each the value of one `build_compartment` call
/// on that stand, so each entry satisfies that function's postcondition.
#[verifier::external_body]
fn par_build_compartments(stands: &Vec<&Stand>, bbox: &Rect) -> (out: Vec<Option<Compartment>>)
    requires
        rect_ok(*bbox),
        forall|i: int|
            0 <= i < stands@.len() ==> ((#[trigger] stands@[i]).computed_polygon matches Some(p)
                ==> stand_polygon_ok(p)),
    ensures
        out@.len() == stands@.len(),
        forall|i: int|
            0 <= i < out@.len() ==> compartment_built_ok(*stands@[i], *bbox, #[trigger] out@[i]),
{
    stands.par_iter().map(|s| build_compartment(s, bbox)).collect()
}

/// Builds a compartment for every stand that meets the rectangle; stands
/// whose intersection is empty or degenerate are skipped.
pub fn get_compartments_in_bounding_box(all_stands: Vec<Stand>, bbox: &Rect) -> (out: Vec<
    Compartment,
>)
    requires
        rect_ok(*bbox),
        forall|i: int|
            0 <= i < all_stands@.len() ==> ((#[trigger] all_stands@[i]).computed_polygon matches Some(
                p,
            ) ==> stand_polygon_ok(p)),
    ensures
        forall|k: int|
            0 <= k < out@.len() ==> polygon_ok((#[trigger] out@[k]).polygon@) && polygon_in_rect(
                out@[k].polygon@,
                *bbox,
            ) && ratio_ok(out@[k].area_ratio),
        out@.len() <= all_stands@.len(),
        exists|results: Seq<Option<Compartment>>|
            #![trigger built_compartments(results)]
            results.len() == spec_selected_stands(all_stands@, *bbox).len() && (forall|i: int|
                0 <= i < results.len() ==> compartment_built_ok(
                    spec_selected_stands(all_stands@, *bbox)[i],
                    *bbox,
                    #[trigger] results[i],
                )) && out@ == built_compartments(results),
{
    let stands = find_stands_in_bounding_box(&all_stands, bbox);
    let sel = match stands {
        Some(sel) => sel,
        None => {
            proof {
                let results = Seq::<Option<Compartment>>::empty();
                assert(built_compartments(results) =~= Seq::<Compartment>::empty());
            }
            return Vec::new()
        },
    };
    let mut built = par_build_compartments(&sel, bbox);
    proof {
        lemma_selected_len(all_stands@, *bbox);
    }
    let ghost orig_built = built@;
    let n = built.len();
    let mut out: Vec<Compartment> = Vec::new();
    let mut k: usize = 0;
    while k < n
        invariant
            n == orig_built.len(),
            n == sel@.len(),
            sel@.map_values(|s: &Stand| *s) == spec_selected_stands(all_stands@, *bbox),
            forall|i: int|
                0 <= i < orig_built.len() ==> compartment_built_ok(
                    *sel@[i],
                    *bbox,
                    #[trigger] orig_built[i],
                ),
            0 <= k <= n,
            built@ == orig_built.subrange(k as int, n as int),
            forall|j: int|
                0 <= j < out@.len() ==> polygon_ok((#[trigger] out@[j]).polygon@)
                    && polygon_in_rect(out@[j].polygon@, *bbox) && ratio_ok(out@[j].area_ratio),
            out@.len() <= k,
            n <= all_stands@.len(),
            out@ == built_compartments(orig_built.subrange(0, k as int)),
        decreases n - k,
    {
        let item = built.remove(0);
        proof {
            assert(orig_built.subrange(k as int, n as int)[0] == orig_built[k as int]);
            assert(built@ =~= orig_built.subrange(k + 1, n as int));
            assert(orig_built.subrange(0, k + 1).drop_last() =~= orig_built.subrange(0, k as int));
            assert(orig_built.subrange(0, k + 1).last() == orig_built[k as int]);
        }
        match item {
            Some(c) => {
                out.push(c);
                proof {
                    assert(out@ =~= built_compartments(orig_built.subrange(0, k + 1)));
                }
            },
            None => {
                proof {
                    assert(out@ =~= built_compartments(orig_built.subrange(0, k + 1)));
                }
            },
        }
        k = k + 1;
    }
    proof {
        assert(orig_built.subrange(0, n as int) =~= orig_built);
        assert(out@ == built_compartments(orig_built));
        assert forall|i: int| 0 <= i < orig_built.len() implies compartment_built_ok(
            spec_selected_stands(all_stands@, *bbox)[i],
            *bbox,
            #[trigger] orig_built[i],
        ) by {
            assert(spec_selected_stands(all_stands@, *bbox)[i] == *sel@[i]);
        }
    }
    out
}

} // verus!
