//! A caller-sized flat output buffer of (x, y, species) triples, for hosts
//! that consume plain numbers instead of structured trees.
//!
//! The caller sizes the buffer to the largest possible tree count; the
//! library fills only the slots it produces and reports how many it wrote.
//! Every write is bounds-checked — an index beyond the buffer is refused as
//! `BufferOverflow`, never written.

use vstd::prelude::*;
use crate::compartment::{
    AreaRatio, CompartmentArea, build_compartment, built_areas, compartment_built_ok,
    find_stands_in_bounding_box, lemma_scaled_stems_le, lemma_stands_stems_nonneg, ratio_ok,
    spec_scaled_strata, spec_selected_stands, spec_stand_strata, stand_stems, stands_stems_total,
};
use crate::clip::spec_min;
use crate::coords::{GeoPolygon, Rect, polygon_in_rect, polygon_ok, rect_ok};
use crate::geometry_utils::{lemma_stems_sum_nonneg, stems_sum};
use crate::errors::CoreError;
use crate::geometry_utils::tree_from_strata;
use crate::stand::{Stand, stand_polygon_ok};
use crate::tree::Tree;
use crate::tree_stand_data::TreeStrata;

verus! {

/// The flat output buffer: three slots per tree.
#[derive(Debug, Clone)]
pub struct SharedBuffer {
    data: Vec<i64>,
}

impl View for SharedBuffer {
    type V = Seq<i64>;

    closed spec fn view(&self) -> Seq<i64> {
        self.data@
    }
}

impl SharedBuffer {
    /// A zeroed buffer with room for `num_trees` trees.
    pub fn new(num_trees: usize) -> (b: SharedBuffer)
        requires
            num_trees <= 0x4000_0000,
        ensures
            b@.len() == 3 * num_trees,
            forall|i: int| 0 <= i < b@.len() ==> #[trigger] b@[i] == 0,
    {
        let size = num_trees * 3;
        let mut data: Vec<i64> = Vec::new();
        let mut i: usize = 0;
        while i < size
            invariant
                0 <= i <= size,
                data@.len() == i,
                forall|k: int| 0 <= k < i ==> #[trigger] data@[k] == 0,
            decreases size - i,
        {
            data.push(0);
            i = i + 1;
        }
        SharedBuffer { data }
    }

    pub fn len(&self) -> (n: usize)
        ensures
            n == self@.len(),
    {
        self.data.len()
    }

    /// The buffer's contents.
    pub fn values(&self) -> (v: &Vec<i64>)
        ensures
            v@ == self@,
    {
        &self.data
    }

    /// Writes one tree's x, y and species into slot `index`.  An index
    /// beyond the buffer is refused; a zero species marks "no tree" and is
    /// never written.
    pub fn fill_tree(&mut self, index: usize, x: i64, y: i64, species: u8) -> (r: Result<
        (),
        CoreError,
    >)
        ensures
            r is Ok <==> 3 * index + 2 < old(self)@.len(),
            r matches Err(e) ==> e == CoreError::BufferOverflow && *final(self) == *old(self),
            r is Ok && species != 0 ==> final(self)@ == old(self)@.update(
                3 * index as int,
                x,
            ).update(3 * index + 1, y).update(3 * index + 2, species as i64),
            r is Ok && species == 0 ==> *final(self) == *old(self),
            final(self)@.len() == old(self)@.len(),
    {
        let len = self.data.len();
        if !(index as u128 * 3 + 2 < len as u128) {
            return Err(CoreError::BufferOverflow);
        }
        let base = index * 3;
        if species != 0 {
            self.data.set(base, x);
            self.data.set(base + 1, y);
            self.data.set(base + 2, species as i64);
        }
        Ok(())
    }
}

/// The slots `3*(start+j) .. 3*(start+j)+2` hold a tree drawn from the
/// scaled strata inside the polygon.
pub open spec fn buffer_slot_holds_tree(
    buf: Seq<i64>,
    slot: int,
    strata: Seq<crate::tree_stand_data::TreeStratum>,
    poly: crate::coords::PolygonModel,
) -> bool {
    exists|t: Tree|
        #![trigger tree_from_strata(t, strata, poly)]
        tree_from_strata(t, strata, poly) && buf[3 * slot] == t.position.0 && buf[3 * slot + 1]
            == t.position.1 && buf[3 * slot + 2] == t.species as i64
}

/// How many trees one sequential flush writes: species zero is skipped,
/// and the first tree that does not fit the buffer stops the flush.
pub open spec fn spec_flush_count(cap: int, start: int, trees: Seq<Tree>) -> int
    decreases trees.len(),
{
    if trees.len() == 0 {
        0
    } else if trees[0].species == 0 {
        spec_flush_count(cap, start, trees.drop_first())
    } else if 3 * start + 2 < cap {
        1 + spec_flush_count(cap, start + 1, trees.drop_first())
    } else {
        0
    }
}

/// The buffer after one sequential flush of the trees from slot `start`
/// on: each written tree fills its slot's three cells, species zero is
/// skipped, and the first tree that does not fit stops the flush.
pub open spec fn spec_flush_buf(buf: Seq<i64>, start: int, trees: Seq<Tree>) -> Seq<i64>
    decreases trees.len(),
{
    if trees.len() == 0 {
        buf
    } else if trees[0].species == 0 {
        spec_flush_buf(buf, start, trees.drop_first())
    } else if 3 * start + 2 < buf.len() {
        spec_flush_buf(
            buf.update(3 * start, trees[0].position.0).update(
                3 * start + 1,
                trees[0].position.1,
            ).update(3 * start + 2, trees[0].species as i64),
            start + 1,
            trees.drop_first(),
        )
    } else {
        buf
    }
}

/// Generates the population of one sampling unit and writes it into the
/// pre-sized buffer from slot `start_index` on, strictly sequentially.
/// Returns the number of trees written; slots outside the written window
/// keep their old values, and the buffer never grows or shrinks.
pub fn generate_random_trees_into_buffer(
    p: &GeoPolygon,
    strata: &TreeStrata,
    area_ratio: AreaRatio,
    buffer: &mut SharedBuffer,
    start_index: usize,
) -> (count: usize)
    requires
        polygon_ok(p@),
        ratio_ok(area_ratio),
    ensures
        final(buffer)@.len() == old(buffer)@.len(),
        count == 0 || 3 * (start_index + count) <= old(buffer)@.len(),
        forall|i: int|
            0 <= i < 3 * start_index && i < old(buffer)@.len() ==> #[trigger] final(buffer)@[i]
                == old(buffer)@[i],
        forall|i: int|
            3 * (start_index + count) <= i < old(buffer)@.len() ==> #[trigger] final(buffer)@[i]
                == old(buffer)@[i],
        forall|j: int|
            start_index <= j < start_index + count ==> buffer_slot_holds_tree(
                final(buffer)@,
                j,
                spec_scaled_strata(strata.tree_stratum@, area_ratio),
                p@,
            ),
        exists|ts: Seq<Tree>|
            #![trigger spec_flush_buf(old(buffer)@, start_index as int, ts)]
            crate::geometry_utils::population_from(
                ts,
                spec_scaled_strata(strata.tree_stratum@, area_ratio),
                p@,
            ) && count == spec_flush_count(old(buffer)@.len() as int, start_index as int, ts)
                && final(buffer)@ == spec_flush_buf(old(buffer)@, start_index as int, ts),
{
    let scaled = crate::compartment::scale_strata(&strata.tree_stratum, area_ratio);
    let strata2 = TreeStrata::new(scaled);
    let trees = crate::geometry_utils::generate_random_trees(p, &strata2);
    let cap = buffer.len();
    let n = trees.len();
    proof {
        assert(trees@.skip(0) =~= trees@);
    }
    let mut count: usize = 0;
    let mut i: usize = 0;
    while i < n
        invariant
            n == trees@.len(),
            polygon_ok(p@),
            strata2.tree_stratum@ == spec_scaled_strata(strata.tree_stratum@, area_ratio),
            forall|k: int|
                0 <= k < trees@.len() ==> tree_from_strata(
                    #[trigger] trees@[k],
                    strata2.tree_stratum@,
                    p@,
                ),
            0 <= count <= i <= n,
            start_index + count <= usize::MAX,
            cap == old(buffer)@.len(),
            buffer@.len() == old(buffer)@.len(),
            count == 0 || 3 * (start_index + count) <= old(buffer)@.len(),
            crate::geometry_utils::population_from(trees@, strata2.tree_stratum@, p@),
            spec_flush_count(cap as int, start_index as int, trees@) == count
                + spec_flush_count(cap as int, start_index as int + count, trees@.skip(i as int)),
            spec_flush_buf(old(buffer)@, start_index as int, trees@) == spec_flush_buf(
                buffer@,
                start_index as int + count,
                trees@.skip(i as int),
            ),
            forall|k: int|
                0 <= k < 3 * start_index && k < old(buffer)@.len() ==> #[trigger] buffer@[k]
                    == old(buffer)@[k],
            forall|k: int|
                3 * (start_index + count) <= k < old(buffer)@.len() ==> #[trigger] buffer@[k]
                    == old(buffer)@[k],
            forall|j: int|
                start_index <= j < start_index + count ==> buffer_slot_holds_tree(
                    buffer@,
                    j,
                    strata2.tree_stratum@,
                    p@,
                ),
        decreases n - i,
    {
        let t = trees[i];
        proof {
            assert(trees@.skip(i as int)[0] == trees@[i as int]);
            assert(trees@.skip(i as int).drop_first() =~= trees@.skip(i + 1));
        }
        if t.species != 0 {
            let slot = start_index + count;
            let (x, y, _z) = t.position;
            let ghost before = buffer@;
            match buffer.fill_tree(slot, x, y, t.species) {
                Ok(_) => {
                    proof {
                        assert(tree_from_strata(trees@[i as int], strata2.tree_stratum@, p@));
                        assert(buffer_slot_holds_tree(
                            buffer@,
                            slot as int,
                            strata2.tree_stratum@,
                            p@,
                        ));
                        assert forall|j: int|
                            start_index <= j < start_index + count + 1 implies buffer_slot_holds_tree(
                            buffer@,
                            j,
                            strata2.tree_stratum@,
                            p@,
                        ) by {
                            if j < start_index + count {
                                assert(buffer_slot_holds_tree(before, j, strata2.tree_stratum@, p@));
                                let t0 = choose|t0: Tree|
                                    #![trigger tree_from_strata(t0, strata2.tree_stratum@, p@)]
                                    tree_from_strata(t0, strata2.tree_stratum@, p@) && before[3 * j]
                                        == t0.position.0 && before[3 * j + 1] == t0.position.1
                                        && before[3 * j + 2] == t0.species as i64;
                                assert(buffer@[3 * j] == t0.position.0 && buffer@[3 * j + 1]
                                    == t0.position.1 && buffer@[3 * j + 2] == t0.species as i64);
                            }
                        }
                    }
                    count = count + 1;
                },
                Err(_) => {
                    // the buffer is full: stop, never write out of bounds
                    proof {
                        assert(trees@.skip(i as int).len() > 0);
                        assert(spec_flush_count(
                            cap as int,
                            start_index as int + count,
                            trees@.skip(i as int),
                        ) == 0);
                        assert(spec_flush_buf(
                            buffer@,
                            start_index as int + count,
                            trees@.skip(i as int),
                        ) =~= buffer@);
                        assert(crate::geometry_utils::population_from(
                            trees@,
                            spec_scaled_strata(strata.tree_stratum@, area_ratio),
                            p@,
                        ));
                    }
                    return count;
                },
            }
        }
        i = i + 1;
    }
    proof {
        assert(trees@.skip(n as int) =~= Seq::<Tree>::empty());
        assert(spec_flush_buf(buffer@, start_index as int + count, trees@.skip(n as int))
            =~= buffer@);
        assert(crate::geometry_utils::population_from(
            trees@,
            spec_scaled_strata(strata.tree_stratum@, area_ratio),
            p@,
        ));
    }
    count
}

/// Writes the trees into the buffer from slot `start` on, in order,
/// skipping species zero and stopping at the buffer's end: exactly the
/// sequential flush the specification describes.
fn flush_trees(buffer: &mut SharedBuffer, start: usize, trees: &Vec<Tree>) -> (w: usize)
    ensures
        final(buffer)@.len() == old(buffer)@.len(),
        final(buffer)@ == spec_flush_buf(old(buffer)@, start as int, trees@),
        w == spec_flush_count(old(buffer)@.len() as int, start as int, trees@),
        w <= trees@.len(),
        start + w <= usize::MAX,
        w == 0 || 3 * (start + w) <= old(buffer)@.len(),
{
    let cap = buffer.len();
    let n = trees.len();
    proof {
        assert(trees@.skip(0) =~= trees@);
    }
    let mut w: usize = 0;
    let mut i: usize = 0;
    while i < n
        invariant
            n == trees@.len(),
            0 <= w <= i <= n,
            start + w <= usize::MAX,
            cap == old(buffer)@.len(),
            buffer@.len() == old(buffer)@.len(),
            w == 0 || 3 * (start + w) <= old(buffer)@.len(),
            spec_flush_count(cap as int, start as int, trees@) == w + spec_flush_count(
                cap as int,
                start as int + w,
                trees@.skip(i as int),
            ),
            spec_flush_buf(old(buffer)@, start as int, trees@) == spec_flush_buf(
                buffer@,
                start as int + w,
                trees@.skip(i as int),
            ),
        decreases n - i,
    {
        let t = trees[i];
        proof {
            assert(trees@.skip(i as int)[0] == trees@[i as int]);
            assert(trees@.skip(i as int).drop_first() =~= trees@.skip(i + 1));
        }
        if t.species != 0 {
            let slot = start + w;
            let (x, y, _z) = t.position;
            match buffer.fill_tree(slot, x, y, t.species) {
                Ok(_) => {
                    w = w + 1;
                },
                Err(_) => {
                    proof {
                        assert(spec_flush_count(
                            cap as int,
                            start as int + w,
                            trees@.skip(i as int),
                        ) == 0);
                        assert(spec_flush_buf(buffer@, start as int + w, trees@.skip(i as int))
                            =~= buffer@);
                    }
                    return w;
                },
            }
        }
        i = i + 1;
    }
    proof {
        assert(trees@.skip(n as int) =~= Seq::<Tree>::empty());
        assert(spec_flush_buf(buffer@, start as int + w, trees@.skip(n as int)) =~= buffer@);
    }
    w
}

/// Selects the stands meeting the rectangle, builds each compartment, and
/// flushes its trees into the caller-owned, pre-sized buffer, strictly
/// sequentially.  Returns the clipped boundaries (one per successful
/// build, in order), the summed stem-count targets of the selected stands
/// saturated at the capacity cap (what the caller should have sized the
/// buffer for), and the number of trees written.
pub fn get_compartment_areas_in_bounding_box(
    all_stands: Vec<Stand>,
    bbox: &Rect,
    buffer: &mut SharedBuffer,
) -> (out: (Vec<CompartmentArea>, usize, usize))
    requires
        rect_ok(*bbox),
        forall|i: int|
            0 <= i < all_stands@.len() ==> ((#[trigger] all_stands@[i]).computed_polygon matches Some(
                p,
            ) ==> stand_polygon_ok(p)),
    ensures
        final(buffer)@.len() == old(buffer)@.len(),
        3 * out.2 <= old(buffer)@.len() || out.2 == 0,
        forall|k: int|
            0 <= k < out.0@.len() ==> polygon_ok((#[trigger] out.0@[k]).polygon@)
                && polygon_in_rect(out.0@[k].polygon@, *bbox),
        out.1 == spec_min(
            stands_stems_total(
                spec_selected_stands(all_stands@, *bbox),
                spec_selected_stands(all_stands@, *bbox).len() as int,
            ),
            0x4000_0000,
        ),
        out.2 <= out.1 || out.1 == 0x4000_0000,
        exists|results: Seq<Option<crate::compartment::Compartment>>|
            #![trigger built_areas(results)]
            results.len() == spec_selected_stands(all_stands@, *bbox).len() && (forall|i: int|
                0 <= i < results.len() ==> compartment_built_ok(
                    spec_selected_stands(all_stands@, *bbox)[i],
                    *bbox,
                    #[trigger] results[i],
                )) && out.0@ == built_areas(results),
{
    let ghost selseq = spec_selected_stands(all_stands@, *bbox);
    let stands = match find_stands_in_bounding_box(&all_stands, bbox) {
        Some(s) => s,
        None => {
            proof {
                let results = Seq::<Option<crate::compartment::Compartment>>::empty();
                assert(built_areas(results) =~= Seq::<CompartmentArea>::empty());
            }
            return (Vec::new(), 0, 0)
        },
    };
    proof {
        assert(stands@.map_values(|st: &Stand| *st) == selseq);
    }
    // report the summed stem-count targets of the selected stands,
    // saturated at the capacity cap
    let mut max_tree_count: usize = 0;
    let ns = stands.len();
    let mut i: usize = 0;
    while i < ns
        invariant
            ns == stands@.len(),
            stands@.map_values(|st: &Stand| *st) == selseq,
            max_tree_count <= 0x4000_0000,
            0 <= i <= ns,
            max_tree_count == spec_min(stands_stems_total(selseq, i as int), 0x4000_0000),
        decreases ns - i,
    {
        proof {
            lemma_stands_stems_nonneg(selseq, i as int);
            assert(selseq[i as int] == *stands@[i as int]);
        }
        match stands[i].get_stratums() {
            Some(stratums) => {
                proof {
                    assert(stratums@ == spec_stand_strata(selseq[i as int]));
                }
                let m = stratums.len();
                let mut k: usize = 0;
                while k < m
                    invariant
                        m == stratums@.len(),
                        stratums@ == spec_stand_strata(selseq[i as int]),
                        0 <= i < ns,
                        max_tree_count <= 0x4000_0000,
                        0 <= k <= m,
                        stands_stems_total(selseq, i as int) >= 0,
                        max_tree_count == spec_min(
                            stands_stems_total(selseq, i as int) + stems_sum(stratums@, k as int),
                            0x4000_0000,
                        ),
                    decreases m - k,
                {
                    proof {
                        lemma_stems_sum_nonneg(stratums@, k as int);
                    }
                    let add = stratums[k].stem_count;
                    // saturate the reported capacity instead of overflowing
                    if add <= 0x4000_0000 {
                        let sum = max_tree_count + add as usize;
                        max_tree_count = if sum > 0x4000_0000 {
                            0x4000_0000
                        } else {
                            sum
                        };
                    } else {
                        max_tree_count = 0x4000_0000;
                    }
                    k = k + 1;
                }
                proof {
                    assert(stems_sum(stratums@, m as int) == stand_stems(selseq[i as int]));
                }
            },
            None => {
                proof {
                    assert(spec_stand_strata(selseq[i as int]) =~= Seq::<
                        crate::tree_stand_data::TreeStratum,
                    >::empty());
                    assert(stand_stems(selseq[i as int]) == 0);
                }
            },
        }
        i = i + 1;
    }
    let mut compartment_areas: Vec<CompartmentArea> = Vec::new();
    let mut total_tree_count: usize = 0;
    let mut buffer_index: usize = 0;
    let ghost mut results: Seq<Option<crate::compartment::Compartment>> = Seq::empty();
    let mut s: usize = 0;
    while s < ns
        invariant
            ns == stands@.len(),
            stands@.map_values(|st: &Stand| *st) == selseq,
            rect_ok(*bbox),
            forall|k: int|
                0 <= k < stands@.len() ==> ((#[trigger] stands@[k]).computed_polygon matches Some(
                    p,
                ) ==> stand_polygon_ok(p)),
            0 <= s <= ns,
            total_tree_count <= buffer_index,
            3 * buffer_index <= old(buffer)@.len() || buffer_index == 0,
            buffer@.len() == old(buffer)@.len(),
            forall|k: int|
                0 <= k < compartment_areas@.len() ==> polygon_ok(
                    (#[trigger] compartment_areas@[k]).polygon@,
                ) && polygon_in_rect(compartment_areas@[k].polygon@, *bbox),
            results.len() == s,
            forall|k: int|
                0 <= k < results.len() ==> compartment_built_ok(
                    selseq[k],
                    *bbox,
                    #[trigger] results[k],
                ),
            compartment_areas@ == built_areas(results),
            total_tree_count <= stands_stems_total(selseq, s as int),
        decreases ns - s,
    {
        let ghost prev_results = results;
        proof {
            assert(selseq[s as int] == *stands@[s as int]);
        }
        match build_compartment(stands[s], bbox) {
            Some(c) => {
                let ghost c_g = c;
                let w = flush_trees(buffer, buffer_index, &c.trees);
                proof {
                    // one stand's flushed trees stay within its scaled,
                    // hence its plain, stem-count targets
                    let strata = spec_stand_strata(selseq[s as int]);
                    lemma_scaled_stems_le(strata, c_g.area_ratio, strata.len() as int);
                    lemma_stems_sum_nonneg(strata, strata.len() as int);
                    results = prev_results.push(Some(c_g));
                }
                buffer_index = buffer_index + w;
                total_tree_count = total_tree_count + w;
                compartment_areas.push(
                    CompartmentArea { stand_number: c.stand_number, polygon: c.polygon },
                );
                proof {
                    assert(results.drop_last() =~= prev_results);
                    assert(compartment_areas@ =~= built_areas(results));
                }
            },
            None => {
                proof {
                    lemma_stems_sum_nonneg(
                        spec_stand_strata(selseq[s as int]),
                        spec_stand_strata(selseq[s as int]).len() as int,
                    );
                    results = prev_results.push(None);
                    assert(results.drop_last() =~= prev_results);
                    assert(compartment_areas@ =~= built_areas(results));
                }
            },
        }
        s = s + 1;
    }
    proof {
        assert(compartment_areas@ == built_areas(results));
    }
    (compartment_areas, max_tree_count, total_tree_count)
}

} // verus!
