//! Integer geometry model: fixed-point coordinates, rings, polygons with
//! holes, and the exact point-in-polygon test used to filter sample points.
//!
//! Coordinates carry three decimal places (`math::MILLI` per unit), so all
//! geometric predicates are computed exactly in integer arithmetic.

use vstd::prelude::*;

verus! {

/// Largest coordinate magnitude the crate accepts, at fixed-point scale.
pub const COORD_LIMIT: i64 = 10_000_000_000;

/// Largest vertex count of any well-formed ring.
pub const RING_LEN_LIMIT: usize = 100_000_000;

/// Largest vertex count a ring may have before it is clipped; clipping can
/// grow a ring, and this bound keeps the result under `RING_LEN_LIMIT`.
pub const CLIP_VERTEX_LIMIT: usize = 6_000_000;

/// Largest number of interior rings (holes) of a well-formed polygon.
pub const HOLES_LIMIT: usize = 10_000;

/// A fixed-point planar coordinate.
#[derive(Clone, Copy, PartialEq, Eq, Structural, Debug)]
pub struct Coord {
    pub x: i64,
    pub y: i64,
}

/// An axis-aligned query rectangle (region of interest).
#[derive(Clone, Copy, PartialEq, Eq, Structural, Debug)]
pub struct Rect {
    pub min_x: i64,
    pub min_y: i64,
    pub max_x: i64,
    pub max_y: i64,
}

pub open spec fn coord_ok(c: Coord) -> bool {
    &&& -COORD_LIMIT <= c.x <= COORD_LIMIT
    &&& -COORD_LIMIT <= c.y <= COORD_LIMIT
}

/// A well-formed ring: closed, at least a triangle, all vertices in range.
pub open spec fn ring_ok(r: Seq<Coord>) -> bool {
    &&& 4 <= r.len() <= RING_LEN_LIMIT
    &&& r[0] == r[r.len() - 1]
    &&& forall|i: int| 0 <= i < r.len() ==> coord_ok(#[trigger] r[i])
}

pub open spec fn rect_ok(r: Rect) -> bool {
    &&& -COORD_LIMIT <= r.min_x <= r.max_x <= COORD_LIMIT
    &&& -COORD_LIMIT <= r.min_y <= r.max_y <= COORD_LIMIT
}

pub open spec fn pt_in_rect(p: Coord, r: Rect) -> bool {
    &&& r.min_x <= p.x <= r.max_x
    &&& r.min_y <= p.y <= r.max_y
}

/// A polygon: one exterior ring plus zero or more holes.
#[derive(Clone, Debug, PartialEq)]
pub struct GeoPolygon {
    pub exterior: Vec<Coord>,
    pub interiors: Vec<Vec<Coord>>,
}

/// The mathematical model of a polygon.
pub struct PolygonModel {
    pub exterior: Seq<Coord>,
    pub interiors: Seq<Seq<Coord>>,
}

impl View for GeoPolygon {
    type V = PolygonModel;

    open spec fn view(&self) -> PolygonModel {
        PolygonModel {
            exterior: self.exterior@,
            interiors: self.interiors@.map_values(|r: Vec<Coord>| r@),
        }
    }
}

pub open spec fn polygon_ok(p: PolygonModel) -> bool {
    &&& ring_ok(p.exterior)
    &&& p.interiors.len() <= HOLES_LIMIT
    &&& forall|k: int| 0 <= k < p.interiors.len() ==> ring_ok(#[trigger] p.interiors[k])
}

/// Every vertex of the ring lies inside the rectangle.
pub open spec fn ring_in_rect(s: Seq<Coord>, r: Rect) -> bool {
    forall|i: int| 0 <= i < s.len() ==> pt_in_rect(#[trigger] s[i], r)
}

/// Every vertex of the polygon lies inside the rectangle.
pub open spec fn polygon_in_rect(p: PolygonModel, r: Rect) -> bool {
    &&& forall|i: int| 0 <= i < p.exterior.len() ==> pt_in_rect(#[trigger] p.exterior[i], r)
    &&& forall|k: int, i: int|
        0 <= k < p.interiors.len() && 0 <= i < p.interiors[k].len() ==> pt_in_rect(
            #[trigger] p.interiors[k][i],
            r,
        )
}

/// The ray-crossing condition: a horizontal ray from `p` toward positive x
/// crosses the edge from `a` to `b`.  The half-open vertex rule (strict
/// comparison on the upper endpoint) counts each crossing exactly once.
pub open spec fn edge_crosses(a: Coord, b: Coord, p: Coord) -> bool {
    ((a.y > p.y) != (b.y > p.y)) && {
        let det = (b.x - a.x) * (p.y - a.y) - (b.y - a.y) * (p.x - a.x);
        if b.y > a.y {
            det > 0
        } else {
            det < 0
        }
    }
}

/// Number of edges among the first `n` edges of `ring` that the ray from `p`
/// crosses.
pub open spec fn crossings(ring: Seq<Coord>, p: Coord, n: int) -> nat
    decreases n,
{
    if n <= 0 {
        0
    } else {
        crossings(ring, p, n - 1) + if edge_crosses(ring[n - 1], ring[n], p) {
            1nat
        } else {
            0nat
        }
    }
}

/// Even-odd containment of a point in a closed ring.
pub open spec fn point_in_ring(ring: Seq<Coord>, p: Coord) -> bool {
    crossings(ring, p, ring.len() - 1) % 2 == 1
}

/// Containment in the polygon: inside the exterior ring and outside every
/// hole.
pub open spec fn polygon_contains(poly: PolygonModel, p: Coord) -> bool {
    &&& point_in_ring(poly.exterior, p)
    &&& forall|k: int| 0 <= k < poly.interiors.len() ==> !point_in_ring(#[trigger] poly.interiors[k], p)
}

/// Exact even-odd test of a point against one ring.
pub fn ring_contains_point(ring: &Vec<Coord>, p: Coord) -> (r: bool)
    requires
        ring_ok(ring@),
        coord_ok(p),
    ensures
        r == point_in_ring(ring@, p),
{
    let n = ring.len();
    let mut odd: bool = false;
    let mut i: usize = 0;
    while i + 1 < n
        invariant
            ring_ok(ring@),
            coord_ok(p),
            n == ring@.len(),
            0 <= i < n,
            odd == (crossings(ring@, p, i as int) % 2 == 1),
        decreases n - i,
    {
        let a = ring[i];
        let b = ring[i + 1];
        if (a.y > p.y) != (b.y > p.y) {
            let dx: i128 = b.x as i128 - a.x as i128;
            let ry: i128 = p.y as i128 - a.y as i128;
            let dy: i128 = b.y as i128 - a.y as i128;
            let rx: i128 = p.x as i128 - a.x as i128;
            proof {
                crate::math::lemma_mul_bounds(dx as int, ry as int, 2 * COORD_LIMIT as int);
                crate::math::lemma_mul_bounds(dy as int, rx as int, 2 * COORD_LIMIT as int);
            }
            let det: i128 = dx * ry - dy * rx;
            let crossed = if b.y > a.y {
                det > 0
            } else {
                det < 0
            };
            if crossed {
                odd = !odd;
            }
        }
        i = i + 1;
    }
    odd
}

/// One term of the shoelace sum.
pub open spec fn cross_term(a: Coord, b: Coord) -> int {
    a.x * b.y - b.x * a.y
}

/// Shoelace sum over the first `n` edges of the ring.
pub open spec fn shoelace(ring: Seq<Coord>, n: int) -> int
    decreases n,
{
    if n <= 0 {
        0
    } else {
        shoelace(ring, n - 1) + cross_term(ring[n - 1], ring[n])
    }
}

/// Twice the enclosed area of a ring (unsigned).
pub open spec fn ring_area2(ring: Seq<Coord>) -> int {
    let s = shoelace(ring, ring.len() - 1);
    if s >= 0 {
        s
    } else {
        -s
    }
}

/// Twice the area of a polygon: the exterior area less the holes, floored at
/// zero.
pub open spec fn holes_area2(interiors: Seq<Seq<Coord>>, n: int) -> int
    decreases n,
{
    if n <= 0 {
        0
    } else {
        holes_area2(interiors, n - 1) + ring_area2(interiors[n - 1])
    }
}

pub open spec fn polygon_area2(p: PolygonModel) -> int {
    let net = ring_area2(p.exterior) - holes_area2(p.interiors, p.interiors.len() as int);
    if net >= 0 {
        net
    } else {
        0
    }
}

/// The shoelace sum over `n` in-range edges stays within `n` times the
/// largest possible term.
pub proof fn lemma_shoelace_bound(ring: Seq<Coord>, n: int)
    requires
        0 <= n < ring.len(),
        forall|i: int| 0 <= i < ring.len() ==> coord_ok(#[trigger] ring[i]),
    ensures
        -n * (2 * COORD_LIMIT as int * COORD_LIMIT as int) <= shoelace(ring, n) <= n * (2
            * COORD_LIMIT as int * COORD_LIMIT as int),
    decreases n,
{
    let t = 2 * COORD_LIMIT as int * COORD_LIMIT as int;
    if n > 0 {
        lemma_shoelace_bound(ring, n - 1);
        let a = ring[n - 1];
        let b = ring[n];
        crate::math::lemma_mul_bounds(a.x as int, b.y as int, COORD_LIMIT as int);
        crate::math::lemma_mul_bounds(b.x as int, a.y as int, COORD_LIMIT as int);
        assert((n - 1) * t + t == n * t) by (nonlinear_arith);
        assert(-(n - 1) * t - t == -n * t) by (nonlinear_arith);
    }
}

/// A well-formed ring's doubled area is below `math::AREA2_LIMIT`.
pub proof fn lemma_ring_area2_bound(ring: Seq<Coord>)
    requires
        ring_ok(ring),
    ensures
        0 <= ring_area2(ring) <= crate::math::AREA2_LIMIT,
{
    lemma_shoelace_bound(ring, ring.len() - 1);
    let t = 2 * COORD_LIMIT as int * COORD_LIMIT as int;
    crate::math::lemma_mul_le(ring.len() - 1, RING_LEN_LIMIT as int, t);
    crate::math::lemma_mul_le(-(RING_LEN_LIMIT as int), -(ring.len() - 1), t);
    assert(RING_LEN_LIMIT as int * (2 * COORD_LIMIT as int * COORD_LIMIT as int)
        == crate::math::AREA2_LIMIT as int) by (nonlinear_arith)
        requires
            RING_LEN_LIMIT == 100_000_000int,
            COORD_LIMIT == 10_000_000_000int,
            crate::math::AREA2_LIMIT == 20_000_000_000_000_000_000_000_000_000int,
    ;
}

/// Twice the enclosed area of one ring, computed exactly.
pub fn compute_ring_area2(ring: &Vec<Coord>) -> (r: u128)
    requires
        ring_ok(ring@),
    ensures
        r == ring_area2(ring@),
        r <= crate::math::AREA2_LIMIT,
{
    let n = ring.len();
    let ghost t: int = 2 * COORD_LIMIT as int * COORD_LIMIT as int;
    let mut acc: i128 = 0;
    let mut i: usize = 0;
    while i + 1 < n
        invariant
            ring_ok(ring@),
            n == ring@.len(),
            0 <= i < n,
            t == 2 * COORD_LIMIT as int * COORD_LIMIT as int,
            acc == shoelace(ring@, i as int),
            -(i as int) * t <= acc <= (i as int) * t,
        decreases n - i,
    {
        let a = ring[i];
        let b = ring[i + 1];
        proof {
            crate::math::lemma_mul_bounds(a.x as int, b.y as int, COORD_LIMIT as int);
            crate::math::lemma_mul_bounds(b.x as int, a.y as int, COORD_LIMIT as int);
            assert((i as int) * t + t == (i + 1) as int * t) by (nonlinear_arith);
            assert(-(i as int) * t - t == -((i + 1) as int) * t) by (nonlinear_arith);
            crate::math::lemma_mul_le(i + 1, RING_LEN_LIMIT as int, t);
            crate::math::lemma_mul_le(-(RING_LEN_LIMIT as int), -(i + 1), t);
        }
        acc = acc + (a.x as i128 * b.y as i128 - b.x as i128 * a.y as i128);
        i = i + 1;
    }
    proof {
        lemma_ring_area2_bound(ring@);
    }
    if acc >= 0 {
        acc as u128
    } else {
        (-acc) as u128
    }
}

/// Twice the area of the polygon: exterior less holes, floored at zero.
pub fn compute_polygon_area2(poly: &GeoPolygon) -> (r: u128)
    requires
        polygon_ok(poly@),
    ensures
        r == polygon_area2(poly@),
        r <= crate::math::AREA2_LIMIT,
{
    let ext = compute_ring_area2(&poly.exterior);
    let m = poly.interiors.len();
    let mut holes: u128 = 0;
    let mut k: usize = 0;
    while k < m
        invariant
            polygon_ok(poly@),
            m == poly@.interiors.len(),
            0 <= k <= m,
            holes == holes_area2(poly@.interiors, k as int),
            holes <= (k as int) * crate::math::AREA2_LIMIT,
        decreases m - k,
    {
        assert(poly@.interiors[k as int] == poly.interiors@[k as int]@);
        let h = compute_ring_area2(&poly.interiors[k]);
        proof {
            assert((k as int) * crate::math::AREA2_LIMIT + crate::math::AREA2_LIMIT == ((k
                + 1) as int) * crate::math::AREA2_LIMIT) by (nonlinear_arith);
            assert(((k + 1) as int) * crate::math::AREA2_LIMIT <= HOLES_LIMIT as int
                * crate::math::AREA2_LIMIT) by (nonlinear_arith)
                requires k + 1 <= HOLES_LIMIT as int
            ;
        }
        holes = holes + h;
        k = k + 1;
    }
    if ext >= holes {
        ext - holes
    } else {
        0
    }
}

/// Exact containment test: inside the exterior, outside all holes.
pub fn polygon_contains_point(poly: &GeoPolygon, p: Coord) -> (r: bool)
    requires
        polygon_ok(poly@),
        coord_ok(p),
    ensures
        r == polygon_contains(poly@, p),
{
    if !ring_contains_point(&poly.exterior, p) {
        return false;
    }
    let m = poly.interiors.len();
    let mut k: usize = 0;
    while k < m
        invariant
            polygon_ok(poly@),
            coord_ok(p),
            m == poly@.interiors.len(),
            0 <= k <= m,
            point_in_ring(poly@.exterior, p),
            forall|j: int| 0 <= j < k ==> !point_in_ring(#[trigger] poly@.interiors[j], p),
        decreases m - k,
    {
        assert(poly@.interiors[k as int] == poly.interiors@[k as int]@);
        if ring_contains_point(&poly.interiors[k], p) {
            return false;
        }
        k = k + 1;
    }
    true
}

/// An exact copy of a polygon, with the copy's model proven equal.
pub fn clone_polygon(p: &GeoPolygon) -> (q: GeoPolygon)
    ensures
        q@.exterior == p@.exterior,
        q@.interiors == p@.interiors,
{
    let exterior = p.exterior.clone();
    proof {
        assert forall|i: int| 0 <= i < exterior@.len() implies exterior@[i]
            == p.exterior@[i] by {
            assert(vstd::pervasive::cloned(p.exterior@[i], exterior@[i]));
        }
        assert(exterior@ =~= p.exterior@);
    }
    let m = p.interiors.len();
    let mut interiors: Vec<Vec<Coord>> = Vec::new();
    let mut k: usize = 0;
    while k < m
        invariant
            m == p.interiors@.len(),
            0 <= k <= m,
            interiors@.len() == k,
            forall|h: int| 0 <= h < k ==> (#[trigger] interiors@[h])@ == p.interiors@[h]@,
        decreases m - k,
    {
        let hole = p.interiors[k].clone();
        proof {
            assert forall|i: int| 0 <= i < hole@.len() implies hole@[i]
                == p.interiors@[k as int]@[i] by {
                assert(vstd::pervasive::cloned(p.interiors@[k as int]@[i], hole@[i]));
            }
            assert(hole@ =~= p.interiors@[k as int]@);
        }
        interiors.push(hole);
        k = k + 1;
    }
    let q = GeoPolygon { exterior, interiors };
    proof {
        assert(q@.interiors =~~= p@.interiors);
    }
    q
}

/// Minimum and maximum x and y over the polygon's exterior ring, returned as
/// `(min_x, max_x, min_y, max_y)`.
pub fn get_min_max_coordinates(p: &GeoPolygon) -> (mm: (i64, i64, i64, i64))
    requires
        polygon_ok(p@),
    ensures
        forall|i: int|
            0 <= i < p@.exterior.len() ==> mm.0 <= #[trigger] p@.exterior[i].x <= mm.1 && mm.2
                <= p@.exterior[i].y <= mm.3,
        exists|i: int| 0 <= i < p@.exterior.len() && #[trigger] p@.exterior[i].x == mm.0,
        exists|i: int| 0 <= i < p@.exterior.len() && #[trigger] p@.exterior[i].x == mm.1,
        exists|i: int| 0 <= i < p@.exterior.len() && #[trigger] p@.exterior[i].y == mm.2,
        exists|i: int| 0 <= i < p@.exterior.len() && #[trigger] p@.exterior[i].y == mm.3,
        -COORD_LIMIT <= mm.0 <= mm.1 <= COORD_LIMIT,
        -COORD_LIMIT <= mm.2 <= mm.3 <= COORD_LIMIT,
{
    let n = p.exterior.len();
    let first = p.exterior[0];
    let mut min_x = first.x;
    let mut max_x = first.x;
    let mut min_y = first.y;
    let mut max_y = first.y;
    let mut i: usize = 1;
    while i < n
        invariant
            polygon_ok(p@),
            n == p@.exterior.len(),
            1 <= i <= n,
            forall|j: int|
                0 <= j < i ==> min_x <= #[trigger] p@.exterior[j].x <= max_x && min_y
                    <= p@.exterior[j].y <= max_y,
            exists|j: int| 0 <= j < i && #[trigger] p@.exterior[j].x == min_x,
            exists|j: int| 0 <= j < i && #[trigger] p@.exterior[j].x == max_x,
            exists|j: int| 0 <= j < i && #[trigger] p@.exterior[j].y == min_y,
            exists|j: int| 0 <= j < i && #[trigger] p@.exterior[j].y == max_y,
        decreases n - i,
    {
        let c = p.exterior[i];
        if c.x < min_x {
            min_x = c.x;
        }
        if c.x > max_x {
            max_x = c.x;
        }
        if c.y < min_y {
            min_y = c.y;
        }
        if c.y > max_y {
            max_y = c.y;
        }
        i = i + 1;
    }
    (min_x, max_x, min_y, max_y)
}

/// Signed orientation of `c` relative to the directed line from `a` to `b`.
pub open spec fn orient(a: Coord, b: Coord, c: Coord) -> int {
    (b.x - a.x) * (c.y - a.y) - (b.y - a.y) * (c.x - a.x)
}

/// The closed segment from `a` to `b` meets the closed rectangle: the
/// extents overlap on both axes and the rectangle's corners do not all lie
/// strictly on one side of the segment's supporting line (separating-axis
/// criterion).
pub open spec fn seg_rect_intersects(a: Coord, b: Coord, r: Rect) -> bool {
    let c1 = Coord { x: r.min_x, y: r.min_y };
    let c2 = Coord { x: r.max_x, y: r.min_y };
    let c3 = Coord { x: r.max_x, y: r.max_y };
    let c4 = Coord { x: r.min_x, y: r.max_y };
    &&& (if a.x > b.x { a.x } else { b.x }) >= r.min_x
    &&& (if a.x < b.x { a.x } else { b.x }) <= r.max_x
    &&& (if a.y > b.y { a.y } else { b.y }) >= r.min_y
    &&& (if a.y < b.y { a.y } else { b.y }) <= r.max_y
    &&& !(orient(a, b, c1) > 0 && orient(a, b, c2) > 0 && orient(a, b, c3) > 0 && orient(a, b, c4)
        > 0)
    &&& !(orient(a, b, c1) < 0 && orient(a, b, c2) < 0 && orient(a, b, c3) < 0 && orient(a, b, c4)
        < 0)
}

/// Some edge of the ring meets the rectangle.
pub open spec fn ring_intersects_rect(ring: Seq<Coord>, r: Rect) -> bool {
    exists|i: int| 0 <= i < ring.len() - 1 && seg_rect_intersects(#[trigger] ring[i], ring[i + 1], r)
}

/// Sum whose quotient by three times the signed area is the centroid's x
/// coordinate, over the first `n` edges.
pub open spec fn centroid_sum_x(ring: Seq<Coord>, n: int) -> int
    decreases n,
{
    if n <= 0 {
        0
    } else {
        centroid_sum_x(ring, n - 1) + (ring[n - 1].x + ring[n].x) * cross_term(ring[n - 1], ring[n])
    }
}

/// The y counterpart of `centroid_sum_x`.
pub open spec fn centroid_sum_y(ring: Seq<Coord>, n: int) -> int
    decreases n,
{
    if n <= 0 {
        0
    } else {
        centroid_sum_y(ring, n - 1) + (ring[n - 1].y + ring[n].y) * cross_term(ring[n - 1], ring[n])
    }
}

/// The ring's area centroid lies inside the rectangle: the centroid is
/// `(sx, sy) / (3 * signed_area2)`, and the comparison is cross-multiplied
/// with the sign of the area taken into account.  A zero-area ring has no
/// centroid and never qualifies.
pub open spec fn centroid_in_rect(ring: Seq<Coord>, r: Rect) -> bool {
    let a2 = shoelace(ring, ring.len() - 1);
    let sx = centroid_sum_x(ring, ring.len() - 1);
    let sy = centroid_sum_y(ring, ring.len() - 1);
    if a2 > 0 {
        3 * a2 * r.min_x <= sx <= 3 * a2 * r.max_x && 3 * a2 * r.min_y <= sy <= 3 * a2 * r.max_y
    } else if a2 < 0 {
        3 * a2 * r.max_x <= sx <= 3 * a2 * r.min_x && 3 * a2 * r.max_y <= sy <= 3 * a2 * r.min_y
    } else {
        false
    }
}

/// The centroid sums over `n` in-range edges stay within `n` times the
/// largest possible term.
pub proof fn lemma_centroid_sums_bound(ring: Seq<Coord>, n: int)
    requires
        0 <= n < ring.len(),
        forall|i: int| 0 <= i < ring.len() ==> coord_ok(#[trigger] ring[i]),
    ensures
        -n * (8 * COORD_LIMIT as int * COORD_LIMIT as int * COORD_LIMIT as int) <= centroid_sum_x(
            ring,
            n,
        ) <= n * (8 * COORD_LIMIT as int * COORD_LIMIT as int * COORD_LIMIT as int),
        -n * (8 * COORD_LIMIT as int * COORD_LIMIT as int * COORD_LIMIT as int) <= centroid_sum_y(
            ring,
            n,
        ) <= n * (8 * COORD_LIMIT as int * COORD_LIMIT as int * COORD_LIMIT as int),
    decreases n,
{
    let t = 8 * COORD_LIMIT as int * COORD_LIMIT as int * COORD_LIMIT as int;
    if n > 0 {
        lemma_centroid_sums_bound(ring, n - 1);
        let a = ring[n - 1];
        let b = ring[n];
        crate::math::lemma_mul_bounds(a.x as int, b.y as int, COORD_LIMIT as int);
        crate::math::lemma_mul_bounds(b.x as int, a.y as int, COORD_LIMIT as int);
        crate::math::lemma_mul_bounds2(
            a.x as int + b.x as int,
            cross_term(a, b),
            2 * COORD_LIMIT as int,
            2 * COORD_LIMIT as int * COORD_LIMIT as int,
        );
        crate::math::lemma_mul_bounds2(
            a.y as int + b.y as int,
            cross_term(a, b),
            2 * COORD_LIMIT as int,
            2 * COORD_LIMIT as int * COORD_LIMIT as int,
        );
        assert((n - 1) * t + t == n * t) by (nonlinear_arith);
        assert(-(n - 1) * t - t == -n * t) by (nonlinear_arith);
        assert(2 * COORD_LIMIT as int * (2 * COORD_LIMIT as int * COORD_LIMIT as int) == 4
            * COORD_LIMIT as int * COORD_LIMIT as int * COORD_LIMIT as int) by (nonlinear_arith);
    }
}

/// Exact test whether the ring's area centroid lies inside the rectangle.
pub fn ring_centroid_in_rect(ring: &Vec<Coord>, r: Rect) -> (res: bool)
    requires
        ring_ok(ring@),
        ring@.len() <= CLIP_VERTEX_LIMIT,
        rect_ok(r),
    ensures
        res == centroid_in_rect(ring@, r),
{
    let n = ring.len();
    let ghost ta: int = 2 * COORD_LIMIT as int * COORD_LIMIT as int;
    let ghost tc: int = 8 * COORD_LIMIT as int * COORD_LIMIT as int * COORD_LIMIT as int;
    let mut a2: i128 = 0;
    let mut sx: i128 = 0;
    let mut sy: i128 = 0;
    let mut i: usize = 0;
    while i + 1 < n
        invariant
            ring_ok(ring@),
            n == ring@.len(),
            n <= CLIP_VERTEX_LIMIT,
            0 <= i < n,
            ta == 2 * COORD_LIMIT as int * COORD_LIMIT as int,
            tc == 8 * COORD_LIMIT as int * COORD_LIMIT as int * COORD_LIMIT as int,
            a2 == shoelace(ring@, i as int),
            sx == centroid_sum_x(ring@, i as int),
            sy == centroid_sum_y(ring@, i as int),
            -(i as int) * ta <= a2 <= (i as int) * ta,
            -(i as int) * tc <= sx <= (i as int) * tc,
            -(i as int) * tc <= sy <= (i as int) * tc,
        decreases n - i,
    {
        let a = ring[i];
        let b = ring[i + 1];
        proof {
            crate::math::lemma_mul_bounds(a.x as int, b.y as int, COORD_LIMIT as int);
            crate::math::lemma_mul_bounds(b.x as int, a.y as int, COORD_LIMIT as int);
            crate::math::lemma_mul_bounds2(
                a.x as int + b.x as int,
                cross_term(a, b),
                2 * COORD_LIMIT as int,
                2 * COORD_LIMIT as int * COORD_LIMIT as int,
            );
            crate::math::lemma_mul_bounds2(
                a.y as int + b.y as int,
                cross_term(a, b),
                2 * COORD_LIMIT as int,
                2 * COORD_LIMIT as int * COORD_LIMIT as int,
            );
            assert(2 * COORD_LIMIT as int * (2 * COORD_LIMIT as int * COORD_LIMIT as int) == 4
                * COORD_LIMIT as int * COORD_LIMIT as int * COORD_LIMIT as int)
                by (nonlinear_arith);
            assert((i as int) * ta + ta == (i + 1) as int * ta) by (nonlinear_arith);
            assert(-(i as int) * ta - ta == -((i + 1) as int) * ta) by (nonlinear_arith);
            assert((i as int) * tc + tc == (i + 1) as int * tc) by (nonlinear_arith);
            assert(-(i as int) * tc - tc == -((i + 1) as int) * tc) by (nonlinear_arith);
            crate::math::lemma_mul_le(i + 1, CLIP_VERTEX_LIMIT as int, ta);
            crate::math::lemma_mul_le(-(CLIP_VERTEX_LIMIT as int), -(i + 1), ta);
            crate::math::lemma_mul_le(i + 1, CLIP_VERTEX_LIMIT as int, tc);
            crate::math::lemma_mul_le(-(CLIP_VERTEX_LIMIT as int), -(i + 1), tc);
        }
        let cross: i128 = a.x as i128 * b.y as i128 - b.x as i128 * a.y as i128;
        a2 = a2 + cross;
        sx = sx + (a.x as i128 + b.x as i128) * cross;
        sy = sy + (a.y as i128 + b.y as i128) * cross;
        i = i + 1;
    }
    proof {
        lemma_shoelace_bound(ring@, n - 1);
        lemma_centroid_sums_bound(ring@, n - 1);
        crate::math::lemma_mul_le(n - 1, CLIP_VERTEX_LIMIT as int, ta);
        crate::math::lemma_mul_le(-(CLIP_VERTEX_LIMIT as int), -(n - 1), ta);
    }
    if a2 == 0 {
        return false;
    }
    proof {
        assert(-(CLIP_VERTEX_LIMIT as int) * ta <= a2 <= CLIP_VERTEX_LIMIT as int * ta);
        assert(3 * CLIP_VERTEX_LIMIT as int * (2 * COORD_LIMIT as int * COORD_LIMIT as int) == 3
            * (CLIP_VERTEX_LIMIT as int * ta)) by (nonlinear_arith)
            requires ta == 2 * COORD_LIMIT as int * COORD_LIMIT as int
        ;
        crate::math::lemma_mul_bounds2(
            3 * a2 as int,
            r.min_x as int,
            3 * CLIP_VERTEX_LIMIT as int * (2 * COORD_LIMIT as int * COORD_LIMIT as int),
            COORD_LIMIT as int,
        );
        crate::math::lemma_mul_bounds2(
            3 * a2 as int,
            r.max_x as int,
            3 * CLIP_VERTEX_LIMIT as int * (2 * COORD_LIMIT as int * COORD_LIMIT as int),
            COORD_LIMIT as int,
        );
        crate::math::lemma_mul_bounds2(
            3 * a2 as int,
            r.min_y as int,
            3 * CLIP_VERTEX_LIMIT as int * (2 * COORD_LIMIT as int * COORD_LIMIT as int),
            COORD_LIMIT as int,
        );
        crate::math::lemma_mul_bounds2(
            3 * a2 as int,
            r.max_y as int,
            3 * CLIP_VERTEX_LIMIT as int * (2 * COORD_LIMIT as int * COORD_LIMIT as int),
            COORD_LIMIT as int,
        );
        crate::math::lemma_mul_le(-(CLIP_VERTEX_LIMIT as int), -(n - 1), tc);
        crate::math::lemma_mul_le(n - 1, CLIP_VERTEX_LIMIT as int, tc);
    }
    if a2 > 0 {
        3 * a2 * r.min_x as i128 <= sx && sx <= 3 * a2 * r.max_x as i128 && 3 * a2
            * r.min_y as i128 <= sy && sy <= 3 * a2 * r.max_y as i128
    } else {
        3 * a2 * r.max_x as i128 <= sx && sx <= 3 * a2 * r.min_x as i128 && 3 * a2
            * r.max_y as i128 <= sy && sy <= 3 * a2 * r.min_y as i128
    }
}

/// Exact signed orientation, computed in 128-bit arithmetic.
fn orient_exec(a: Coord, b: Coord, c: Coord) -> (o: i128)
    requires
        coord_ok(a),
        coord_ok(b),
        coord_ok(c),
    ensures
        o == orient(a, b, c),
{
    let ux: i128 = b.x as i128 - a.x as i128;
    let vy: i128 = c.y as i128 - a.y as i128;
    let uy: i128 = b.y as i128 - a.y as i128;
    let vx: i128 = c.x as i128 - a.x as i128;
    proof {
        crate::math::lemma_mul_bounds(ux as int, vy as int, 2 * COORD_LIMIT as int);
        crate::math::lemma_mul_bounds(uy as int, vx as int, 2 * COORD_LIMIT as int);
    }
    ux * vy - uy * vx
}

/// Exact test of one closed segment against the rectangle.
fn seg_rect_intersects_exec(a: Coord, b: Coord, r: Rect) -> (res: bool)
    requires
        coord_ok(a),
        coord_ok(b),
        rect_ok(r),
    ensures
        res == seg_rect_intersects(a, b, r),
{
    let hx = if a.x > b.x { a.x } else { b.x };
    let lx = if a.x < b.x { a.x } else { b.x };
    let hy = if a.y > b.y { a.y } else { b.y };
    let ly = if a.y < b.y { a.y } else { b.y };
    if hx < r.min_x || lx > r.max_x || hy < r.min_y || ly > r.max_y {
        return false;
    }
    let o1 = orient_exec(a, b, Coord { x: r.min_x, y: r.min_y });
    let o2 = orient_exec(a, b, Coord { x: r.max_x, y: r.min_y });
    let o3 = orient_exec(a, b, Coord { x: r.max_x, y: r.max_y });
    let o4 = orient_exec(a, b, Coord { x: r.min_x, y: r.max_y });
    if o1 > 0 && o2 > 0 && o3 > 0 && o4 > 0 {
        return false;
    }
    if o1 < 0 && o2 < 0 && o3 < 0 && o4 < 0 {
        return false;
    }
    true
}

/// Exact test whether the ring (as a closed curve) meets the rectangle.
pub fn ring_meets_rect(ring: &Vec<Coord>, r: Rect) -> (res: bool)
    requires
        ring_ok(ring@),
        rect_ok(r),
    ensures
        res == ring_intersects_rect(ring@, r),
{
    let n = ring.len();
    let mut i: usize = 0;
    while i + 1 < n
        invariant
            ring_ok(ring@),
            rect_ok(r),
            n == ring@.len(),
            0 <= i < n,
            forall|j: int| 0 <= j < i ==> !seg_rect_intersects(ring@[j], #[trigger] ring@[j + 1], r),
        decreases n - i,
    {
        if seg_rect_intersects_exec(ring[i], ring[i + 1], r) {
            return true;
        }
        i = i + 1;
    }
    false
}

} // verus!
