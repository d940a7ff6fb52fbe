//! Clipping of stand polygons against an axis-aligned query rectangle.
//!
//! Each ring is cut against the four half-planes of the rectangle in turn
//! (Sutherland–Hodgman).  Crossing points are computed with integer division,
//! so a final clamp pass pins every vertex inside the rectangle.  The clipped
//! boundary is returned as a single ring; where a concave stand is split by
//! the rectangle the components stay connected through degenerate joins along
//! the rectangle's edge, which contribute nothing to the area.
//!
//! Two facts are part of the contract: a ring whose vertices all lie in the
//! rectangle comes back unchanged, and a ring wholly beyond one side of the
//! rectangle comes back empty.

use vstd::prelude::*;
use crate::coords::{
    Coord, GeoPolygon, PolygonModel, Rect, COORD_LIMIT, CLIP_VERTEX_LIMIT, RING_LEN_LIMIT,
    coord_ok, polygon_in_rect, polygon_ok, pt_in_rect, rect_ok, ring_in_rect, ring_ok,
};

verus! {

/// One of the four half-planes bounding the rectangle.
#[derive(Clone, Copy, PartialEq, Eq, Structural, Debug)]
pub(crate) enum ClipSide {
    XGe,
    XLe,
    YGe,
    YLe,
}

pub(crate) open spec fn side_bound(s: ClipSide, r: Rect) -> int {
    match s {
        ClipSide::XGe => r.min_x as int,
        ClipSide::XLe => r.max_x as int,
        ClipSide::YGe => r.min_y as int,
        ClipSide::YLe => r.max_y as int,
    }
}

pub(crate) open spec fn side_inside(s: ClipSide, r: Rect, p: Coord) -> bool {
    match s {
        ClipSide::XGe => p.x >= r.min_x,
        ClipSide::XLe => p.x <= r.max_x,
        ClipSide::YGe => p.y >= r.min_y,
        ClipSide::YLe => p.y <= r.max_y,
    }
}

pub open spec fn all_x_below(s: Seq<Coord>, c: int) -> bool {
    forall|j: int| 0 <= j < s.len() ==> (#[trigger] s[j]).x < c
}

pub open spec fn all_x_above(s: Seq<Coord>, c: int) -> bool {
    forall|j: int| 0 <= j < s.len() ==> (#[trigger] s[j]).x > c
}

pub open spec fn all_y_below(s: Seq<Coord>, c: int) -> bool {
    forall|j: int| 0 <= j < s.len() ==> (#[trigger] s[j]).y < c
}

pub open spec fn all_y_above(s: Seq<Coord>, c: int) -> bool {
    forall|j: int| 0 <= j < s.len() ==> (#[trigger] s[j]).y > c
}

pub(crate) open spec fn all_inside(s: Seq<Coord>, side: ClipSide, r: Rect) -> bool {
    forall|j: int| 0 <= j < s.len() ==> side_inside(side, r, #[trigger] s[j])
}

pub open spec fn spec_min(a: int, b: int) -> int {
    if a < b { a } else { b }
}

pub open spec fn spec_max(a: int, b: int) -> int {
    if a > b { a } else { b }
}

/// The point where the edge from `a` to `b` meets the clip line.  The
/// interpolated coordinate is rounded by integer division and then clamped
/// into the edge's own range.
fn crossing_point(side: ClipSide, r: Rect, a: Coord, b: Coord) -> (c: Coord)
    requires
        coord_ok(a),
        coord_ok(b),
        rect_ok(r),
        side_inside(side, r, a) != side_inside(side, r, b),
    ensures
        coord_ok(c),
        side_inside(side, r, c),
        spec_min(a.x as int, b.x as int) <= c.x <= spec_max(a.x as int, b.x as int) || c.x
            == side_bound(side, r),
        spec_min(a.y as int, b.y as int) <= c.y <= spec_max(a.y as int, b.y as int) || c.y
            == side_bound(side, r),
        (side == ClipSide::XGe || side == ClipSide::XLe) ==> c.x == side_bound(side, r)
            && spec_min(a.y as int, b.y as int) <= c.y <= spec_max(a.y as int, b.y as int),
        (side == ClipSide::YGe || side == ClipSide::YLe) ==> c.y == side_bound(side, r)
            && spec_min(a.x as int, b.x as int) <= c.x <= spec_max(a.x as int, b.x as int),
{
    match side {
        ClipSide::XGe | ClipSide::XLe => {
            let bound: i64 = if matches!(side, ClipSide::XGe) {
                r.min_x
            } else {
                r.max_x
            };
            let m: u128 = if b.y >= a.y {
                (b.y - a.y) as u128
            } else {
                (a.y - b.y) as u128
            };
            let un: u128 = if bound >= a.x {
                (bound - a.x) as u128
            } else {
                (a.x - bound) as u128
            };
            let ud: u128 = if b.x >= a.x {
                (b.x - a.x) as u128
            } else {
                (a.x - b.x) as u128
            };
            assert(a.x != b.x);
            proof {
                crate::math::lemma_mul_bounds(un as int, m as int, 2 * COORD_LIMIT as int);
                crate::math::lemma_div_le(un as int * m as int, ud as int);
            }
            let frac: u128 = un * m / ud;
            let raw: i128 = if b.y >= a.y {
                a.y as i128 + frac as i128
            } else {
                a.y as i128 - frac as i128
            };
            let lo = if a.y < b.y { a.y } else { b.y };
            let hi = if a.y > b.y { a.y } else { b.y };
            let y = if raw < lo as i128 {
                lo
            } else if raw > hi as i128 {
                hi
            } else {
                raw as i64
            };
            Coord { x: bound, y }
        },
        ClipSide::YGe | ClipSide::YLe => {
            let bound: i64 = if matches!(side, ClipSide::YGe) {
                r.min_y
            } else {
                r.max_y
            };
            let m: u128 = if b.x >= a.x {
                (b.x - a.x) as u128
            } else {
                (a.x - b.x) as u128
            };
            let un: u128 = if bound >= a.y {
                (bound - a.y) as u128
            } else {
                (a.y - bound) as u128
            };
            let ud: u128 = if b.y >= a.y {
                (b.y - a.y) as u128
            } else {
                (a.y - b.y) as u128
            };
            assert(a.y != b.y);
            proof {
                crate::math::lemma_mul_bounds(un as int, m as int, 2 * COORD_LIMIT as int);
                crate::math::lemma_div_le(un as int * m as int, ud as int);
            }
            let frac: u128 = un * m / ud;
            let raw: i128 = if b.x >= a.x {
                a.x as i128 + frac as i128
            } else {
                a.x as i128 - frac as i128
            };
            let lo = if a.x < b.x { a.x } else { b.x };
            let hi = if a.x > b.x { a.x } else { b.x };
            let x = if raw < lo as i128 {
                lo
            } else if raw > hi as i128 {
                hi
            } else {
                raw as i64
            };
            Coord { x, y: bound }
        },
    }
}

/// One Sutherland–Hodgman pass: keep the part of the ring inside one
/// half-plane of the rectangle.
fn clip_side_pass(ring: &Vec<Coord>, side: ClipSide, r: Rect) -> (out: Vec<Coord>)
    requires
        ring_ok(ring@),
        ring@.len() <= 49_999_999,
        rect_ok(r),
    ensures
        out@.len() <= 2 * ring@.len() + 1,
        out@.len() == 0 || ring_ok(out@),
        forall|k: int| 0 <= k < out@.len() ==> side_inside(side, r, #[trigger] out@[k]),
        all_inside(ring@, side, r) ==> out@ == ring@,
        (forall|j: int| 0 <= j < ring@.len() ==> !side_inside(side, r, #[trigger] ring@[j]))
            ==> out@.len() == 0,
        all_y_above(ring@, r.max_y as int) ==> all_y_above(out@, r.max_y as int),
        all_y_below(ring@, r.min_y as int) ==> all_y_below(out@, r.min_y as int),
        all_x_above(ring@, r.max_x as int) ==> all_x_above(out@, r.max_x as int),
        all_x_below(ring@, r.min_x as int) ==> all_x_below(out@, r.min_x as int),
{
    let n = ring.len();
    let mut out: Vec<Coord> = Vec::new();
    let mut i: usize = 0;
    while i + 1 < n
        invariant
            ring_ok(ring@),
            rect_ok(r),
            n == ring@.len(),
            n <= 49_999_999,
            0 <= i < n,
            out@.len() <= 2 * i,
            forall|k: int|
                0 <= k < out@.len() ==> coord_ok(#[trigger] out@[k]) && side_inside(
                    side,
                    r,
                    out@[k],
                ),
            all_inside(ring@, side, r) ==> out@ == ring@.subrange(0, i as int),
            (forall|j: int| 0 <= j < ring@.len() ==> !side_inside(side, r, #[trigger] ring@[j]))
                ==> out@.len() == 0,
            all_y_above(ring@, r.max_y as int) ==> all_y_above(out@, r.max_y as int),
            all_y_below(ring@, r.min_y as int) ==> all_y_below(out@, r.min_y as int),
            all_x_above(ring@, r.max_x as int) ==> all_x_above(out@, r.max_x as int),
            all_x_below(ring@, r.min_x as int) ==> all_x_below(out@, r.min_x as int),
        decreases n - i,
    {
        let a = ring[i];
        let b = ring[i + 1];
        let ia = match side {
            ClipSide::XGe => a.x >= r.min_x,
            ClipSide::XLe => a.x <= r.max_x,
            ClipSide::YGe => a.y >= r.min_y,
            ClipSide::YLe => a.y <= r.max_y,
        };
        let ib = match side {
            ClipSide::XGe => b.x >= r.min_x,
            ClipSide::XLe => b.x <= r.max_x,
            ClipSide::YGe => b.y >= r.min_y,
            ClipSide::YLe => b.y <= r.max_y,
        };
        if ia {
            out.push(a);
        }
        if ia != ib {
            let c = crossing_point(side, r, a, b);
            out.push(c);
        }
        proof {
            if all_inside(ring@, side, r) {
                assert(out@ =~= ring@.subrange(0, i + 1));
            }
        }
        i = i + 1;
    }
    if out.len() > 0 {
        let f = out[0];
        out.push(f);
        proof {
            if all_inside(ring@, side, r) {
                assert(ring@[n - 1] == ring@[0]);
                assert(out@ =~= ring@);
            }
        }
    }
    if out.len() < 4 {
        proof {
            if all_inside(ring@, side, r) {
                assert(out@ == ring@);
                assert(false);
            }
        }
        Vec::new()
    } else {
        out
    }
}

/// Clamps every vertex into the rectangle; vertices already inside are left
/// untouched.
fn clamp_ring_to_rect(ring: &Vec<Coord>, r: Rect) -> (out: Vec<Coord>)
    requires
        ring_ok(ring@),
        rect_ok(r),
    ensures
        out@.len() == ring@.len(),
        ring_ok(out@),
        forall|k: int| 0 <= k < out@.len() ==> pt_in_rect(#[trigger] out@[k], r),
        (forall|j: int| 0 <= j < ring@.len() ==> pt_in_rect(#[trigger] ring@[j], r)) ==> out@
            == ring@,
{
    let n = ring.len();
    let mut out: Vec<Coord> = Vec::new();
    let mut i: usize = 0;
    while i < n
        invariant
            ring_ok(ring@),
            rect_ok(r),
            n == ring@.len(),
            0 <= i <= n,
            out@.len() == i,
            forall|k: int|
                0 <= k < i ==> #[trigger] out@[k] == clamp_pt(ring@[k], r) && pt_in_rect(
                    out@[k],
                    r,
                ) && coord_ok(out@[k]),
        decreases n - i,
    {
        let c = ring[i];
        let x = if c.x < r.min_x {
            r.min_x
        } else if c.x > r.max_x {
            r.max_x
        } else {
            c.x
        };
        let y = if c.y < r.min_y {
            r.min_y
        } else if c.y > r.max_y {
            r.max_y
        } else {
            c.y
        };
        out.push(Coord { x, y });
        i = i + 1;
    }
    proof {
        assert(out@[0] == clamp_pt(ring@[0], r));
        assert(out@[n - 1] == clamp_pt(ring@[n - 1], r));
        if forall|j: int| 0 <= j < ring@.len() ==> pt_in_rect(#[trigger] ring@[j], r) {
            assert(out@ =~= ring@);
        }
    }
    out
}

/// Pointwise clamp of a coordinate into the rectangle.
pub open spec fn clamp_pt(c: Coord, r: Rect) -> Coord {
    Coord {
        x: if c.x < r.min_x {
            r.min_x
        } else if c.x > r.max_x {
            r.max_x
        } else {
            c.x
        },
        y: if c.y < r.min_y {
            r.min_y
        } else if c.y > r.max_y {
            r.max_y
        } else {
            c.y
        },
    }
}

/// Clips one closed ring to the rectangle.  An empty result means the ring
/// lies outside the rectangle (or was reduced to nothing).
pub fn clip_ring_to_rect(ring: &Vec<Coord>, r: Rect) -> (out: Vec<Coord>)
    requires
        ring_ok(ring@),
        ring@.len() <= CLIP_VERTEX_LIMIT,
        rect_ok(r),
    ensures
        out@.len() == 0 || (ring_ok(out@) && forall|k: int|
            0 <= k < out@.len() ==> pt_in_rect(#[trigger] out@[k], r)),
        (forall|j: int| 0 <= j < ring@.len() ==> pt_in_rect(#[trigger] ring@[j], r)) ==> out@
            == ring@,
        all_x_below(ring@, r.min_x as int) ==> out@.len() == 0,
        all_x_above(ring@, r.max_x as int) ==> out@.len() == 0,
        all_y_below(ring@, r.min_y as int) ==> out@.len() == 0,
        all_y_above(ring@, r.max_y as int) ==> out@.len() == 0,
{
    let c1 = clip_side_pass(ring, ClipSide::XGe, r);
    if c1.len() == 0 {
        return c1;
    }
    let c2 = clip_side_pass(&c1, ClipSide::XLe, r);
    if c2.len() == 0 {
        return c2;
    }
    let c3 = clip_side_pass(&c2, ClipSide::YGe, r);
    if c3.len() == 0 {
        return c3;
    }
    let c4 = clip_side_pass(&c3, ClipSide::YLe, r);
    if c4.len() == 0 {
        return c4;
    }
    clamp_ring_to_rect(&c4, r)
}

/// Every ring of the polygon is small enough to be clipped.
pub open spec fn polygon_compact(p: PolygonModel) -> bool {
    &&& p.exterior.len() <= CLIP_VERTEX_LIMIT
    &&& forall|k: int| 0 <= k < p.interiors.len() ==> (#[trigger] p.interiors[k]).len() <= CLIP_VERTEX_LIMIT
}

/// The polygon's exterior lies wholly beyond one side of the rectangle, so
/// the two cannot meet.
pub open spec fn exterior_separated_from_rect(p: PolygonModel, r: Rect) -> bool {
    ||| all_x_below(p.exterior, r.min_x as int)
    ||| all_x_above(p.exterior, r.max_x as int)
    ||| all_y_below(p.exterior, r.min_y as int)
    ||| all_y_above(p.exterior, r.max_y as int)
}

/// Clips a polygon (exterior and holes) to the rectangle.  `None` stands for
/// an empty intersection; holes that fall outside the rectangle are dropped.
/// Rings larger than `CLIP_VERTEX_LIMIT` are treated as empty (the exterior)
/// or dropped (a hole).
pub fn clip_polygon_to_rect(poly: &GeoPolygon, r: Rect) -> (res: Option<GeoPolygon>)
    requires
        polygon_ok(poly@),
        rect_ok(r),
    ensures
        res matches Some(q) ==> polygon_ok(q@) && polygon_in_rect(q@, r),
        polygon_in_rect(poly@, r) && polygon_compact(poly@) ==> (res matches Some(q)
            && q@.exterior == poly@.exterior && q@.interiors == poly@.interiors),
        exterior_separated_from_rect(poly@, r) ==> res is None,
{
    if poly.exterior.len() > CLIP_VERTEX_LIMIT {
        return None;
    }
    let ext = clip_ring_to_rect(&poly.exterior, r);
    if ext.len() == 0 {
        return None;
    }
    let m = poly.interiors.len();
    let mut holes: Vec<Vec<Coord>> = Vec::new();
    let mut k: usize = 0;
    while k < m
        invariant
            polygon_ok(poly@),
            rect_ok(r),
            m == poly@.interiors.len(),
            0 <= k <= m,
            holes@.len() <= k,
            forall|h: int|
                0 <= h < holes@.len() ==> ring_ok((#[trigger] holes@[h])@) && ring_in_rect(
                    holes@[h]@,
                    r,
                ),
            polygon_in_rect(poly@, r) && polygon_compact(poly@)
                ==> holes@.map_values(|v: Vec<Coord>| v@) == poly@.interiors.subrange(0, k as int),
        decreases m - k,
    {
        assert(poly@.interiors[k as int] == poly.interiors@[k as int]@);
        let hole = &poly.interiors[k];
        if hole.len() <= CLIP_VERTEX_LIMIT {
            let h = clip_ring_to_rect(hole, r);
            if h.len() > 0 {
                holes.push(h);
            }
        }
        proof {
            if polygon_in_rect(poly@, r) && polygon_compact(poly@) {
                assert(ring_in_rect(poly@.interiors[k as int], r));
                assert(holes@.map_values(|v: Vec<Coord>| v@) =~= poly@.interiors.subrange(
                    0,
                    k + 1,
                ));
            }
        }
        k = k + 1;
    }
    let out = GeoPolygon { exterior: ext, interiors: holes };
    proof {
        if polygon_in_rect(poly@, r) && polygon_compact(poly@) {
            assert(ring_in_rect(poly@.exterior, r));
            assert(out@.interiors =~~= poly@.interiors);
        }
        assert forall|kk: int, i: int|
            0 <= kk < out@.interiors.len() && 0 <= i < out@.interiors[kk].len() implies pt_in_rect(
            out@.interiors[kk][i],
            r,
        ) by {
            assert(ring_in_rect(holes@[kk]@, r));
        }
    }
    Some(out)
}

} // verus!
