//! Exact integer plane geometry: the point type and the orientation,
//! segment-intersection, point-in-polygon and point-in-triangle predicates
//! that drive winding classification, hole bridging and ear clipping.

use vstd::prelude::*;

verus! {

/// Largest admissible coordinate magnitude. With every coordinate bounded by
/// this value the barycentric point-in-triangle test (products of two dot
/// products) stays within `i128`.
pub const MAX_COORD: i32 = 0x2000_0000;

/// A point on the integer design-unit grid.
#[derive(Clone, Copy, Debug, PartialEq, Eq, Structural)]
pub struct Point {
    pub x: i32,
    pub y: i32,
}

/// The coordinates are small enough for exact predicate arithmetic.
pub open spec fn wf_point(p: Point) -> bool {
    &&& -(MAX_COORD as int) <= p.x as int <= MAX_COORD as int
    &&& -(MAX_COORD as int) <= p.y as int <= MAX_COORD as int
}

/// Every point of the sequence is well formed.
pub open spec fn wf_points(s: Seq<Point>) -> bool {
    forall|i: int| 0 <= i < s.len() ==> wf_point(s[i])
}

/// Index of the vertex preceding `i` on a polygon of `n` vertices (wrapping).
pub open spec fn prev_idx(i: int, n: int) -> int {
    if i == 0 {
        n - 1
    } else {
        i - 1
    }
}

/// Strict clockwise orientation of the triple `(a, b, c)`: the cross
/// product of `b - a` and `c - a` is negative. This is the side test of the
/// segment-intersection predicate; collinear triples are on neither side.
pub open spec fn spec_strict_cw(a: Point, b: Point, c: Point) -> bool {
    (b.x - a.x) * (c.y - a.y) < (b.y - a.y) * (c.x - a.x)
}

/// Non-strict clockwise orientation of the triple `(a, b, c)`; ties
/// (collinear triples) count as clockwise.
pub open spec fn spec_is_cw(a: Point, b: Point, c: Point) -> bool {
    (b.x - a.x) * (c.y - a.y) <= (b.y - a.y) * (c.x - a.x)
}

/// Proper crossing of segments `a-b` and `c-d`: the endpoints of each segment
/// lie strictly on opposite sides of the other segment's supporting line.
pub open spec fn spec_lines_intersect(a: Point, b: Point, c: Point, d: Point) -> bool {
    spec_strict_cw(a, c, d) != spec_strict_cw(b, c, d) && spec_strict_cw(a, b, c)
        != spec_strict_cw(a, b, d)
}

/// The edge from `a` to `b` crosses the rightward horizontal ray from `p`
/// (the even-odd ray-casting rule, stated with exact cross-multiplied
/// comparisons instead of a division).
pub open spec fn spec_edge_crosses(p: Point, a: Point, b: Point) -> bool {
    &&& (b.y > p.y) != (a.y > p.y)
    &&& if b.y > a.y {
        (p.x - a.x) * (b.y - a.y) < (b.x - a.x) * (p.y - a.y)
    } else {
        (p.x - a.x) * (b.y - a.y) > (b.x - a.x) * (p.y - a.y)
    }
}

/// Parity of ray crossings over the first `k` polygon edges, each edge running
/// from the predecessor vertex to vertex `j`.
pub open spec fn spec_crossing_parity(p: Point, poly: Seq<Point>, k: int) -> bool
    decreases k,
{
    if k <= 0 {
        false
    } else {
        spec_crossing_parity(p, poly, k - 1) != spec_edge_crosses(
            p,
            poly[prev_idx(k - 1, poly.len() as int)],
            poly[k - 1],
        )
    }
}

/// Even-odd point-in-polygon test: `p` is inside iff the rightward ray from
/// `p` crosses an odd number of polygon edges.
pub open spec fn spec_point_in_polygon(p: Point, poly: Seq<Point>) -> bool {
    spec_crossing_parity(p, poly, poly.len() as int)
}

/// The segment `a-b` properly crosses some edge of the polygon.
pub open spec fn spec_line_intersects_polygon(a: Point, b: Point, poly: Seq<Point>) -> bool {
    exists|j: int|
        0 <= j < poly.len() && spec_lines_intersect(
            a,
            b,
            poly[prev_idx(j, poly.len() as int)],
            poly[j],
        )
}

/// Every vertex of `a` lies inside the polygon `b`.
pub open spec fn spec_polygon_inside(a: Seq<Point>, b: Seq<Point>) -> bool {
    forall|i: int| 0 <= i < a.len() ==> spec_point_in_polygon(a[i], b)
}

/// Squared Euclidean distance between `a` and `b`.
pub open spec fn spec_dist2(a: Point, b: Point) -> int {
    (a.x - b.x) * (a.x - b.x) + (a.y - b.y) * (a.y - b.y)
}

/// Barycentric point-in-triangle test. A point coincident with a triangle
/// vertex is excluded; a degenerate (collinear) triangle contains nothing.
pub open spec fn spec_point_in_triangle(p: Point, a: Point, b: Point, c: Point) -> bool {
    if p == a || p == b || p == c {
        false
    } else {
        let dot00 = (c.x - a.x) * (c.x - a.x) + (c.y - a.y) * (c.y - a.y);
        let dot01 = (c.x - a.x) * (b.x - a.x) + (c.y - a.y) * (b.y - a.y);
        let dot02 = (c.x - a.x) * (p.x - a.x) + (c.y - a.y) * (p.y - a.y);
        let dot11 = (b.x - a.x) * (b.x - a.x) + (b.y - a.y) * (b.y - a.y);
        let dot12 = (b.x - a.x) * (p.x - a.x) + (b.y - a.y) * (p.y - a.y);
        let denom = dot00 * dot11 - dot01 * dot01;
        let u_num = dot11 * dot02 - dot01 * dot12;
        let v_num = dot00 * dot12 - dot01 * dot02;
        denom > 0 && u_num >= 0 && v_num >= 0 && u_num + v_num < denom
    }
}

/// The product of two values is bounded by the product of their bounds.
pub proof fn lemma_mul_bound(x: int, y: int, bx: int, by: int)
    by (nonlinear_arith)
    requires
        -bx <= x <= bx,
        -by <= y <= by,
        0 <= bx,
        0 <= by,
    ensures
        -(bx * by) <= x * y <= bx * by,
{
}

/// Strict clockwise orientation of `(a, b, c)`.
fn strict_cw(a: Point, b: Point, c: Point) -> (r: bool)
    requires
        wf_point(a),
        wf_point(b),
        wf_point(c),
    ensures
        r == spec_strict_cw(a, b, c),
{
    let abx = b.x as i64 - a.x as i64;
    let aby = b.y as i64 - a.y as i64;
    let acx = c.x as i64 - a.x as i64;
    let acy = c.y as i64 - a.y as i64;
    proof {
        lemma_mul_bound(abx as int, acy as int, 0x4000_0000, 0x4000_0000);
        lemma_mul_bound(aby as int, acx as int, 0x4000_0000, 0x4000_0000);
    }
    abx * acy < aby * acx
}

/// Non-strict clockwise orientation of `(a, b, c)`.
pub fn is_cw(a: Point, b: Point, c: Point) -> (r: bool)
    requires
        wf_point(a),
        wf_point(b),
        wf_point(c),
    ensures
        r == spec_is_cw(a, b, c),
{
    let abx = b.x as i64 - a.x as i64;
    let aby = b.y as i64 - a.y as i64;
    let acx = c.x as i64 - a.x as i64;
    let acy = c.y as i64 - a.y as i64;
    proof {
        lemma_mul_bound(abx as int, acy as int, 0x4000_0000, 0x4000_0000);
        lemma_mul_bound(aby as int, acx as int, 0x4000_0000, 0x4000_0000);
    }
    abx * acy <= aby * acx
}

/// Proper crossing of segments `a-b` and `c-d`.
pub fn lines_intersect(a: Point, b: Point, c: Point, d: Point) -> (r: bool)
    requires
        wf_point(a),
        wf_point(b),
        wf_point(c),
        wf_point(d),
    ensures
        r == spec_lines_intersect(a, b, c, d),
{
    strict_cw(a, c, d) != strict_cw(b, c, d) && strict_cw(a, b, c) != strict_cw(a, b, d)
}

/// Does the segment `a-b` properly cross any edge of `polygon`?
pub fn line_intersects_polygon(a: Point, b: Point, polygon: &Vec<Point>) -> (r: bool)
    requires
        wf_point(a),
        wf_point(b),
        wf_points(polygon@),
        polygon@.len() >= 1,
    ensures
        r == spec_line_intersects_polygon(a, b, polygon@),
{
    let ghost n = polygon@.len() as int;
    let mut i: usize = polygon.len() - 1;
    let mut j: usize = 0;
    while j < polygon.len()
        invariant
            wf_point(a),
            wf_point(b),
            wf_points(polygon@),
            polygon@.len() >= 1,
            n == polygon@.len() as int,
            0 <= j <= n,
            i as int == prev_idx(j as int, n),
            forall|jj: int|
                0 <= jj < j ==> !spec_lines_intersect(a, b, polygon@[prev_idx(jj, n)], polygon@[jj]),
        decreases n - j,
    {
        if lines_intersect(a, b, polygon[i], polygon[j]) {
            return true;
        }
        i = j;
        j = j + 1;
    }
    false
}

/// Even-odd point-in-polygon test for `point` against `polygon`.
pub fn point_in_polygon(point: Point, polygon: &Vec<Point>) -> (r: bool)
    requires
        wf_point(point),
        wf_points(polygon@),
        polygon@.len() >= 1,
    ensures
        r == spec_point_in_polygon(point, polygon@),
{
    let ghost n = polygon@.len() as int;
    let mut c = false;
    let mut j: usize = polygon.len() - 1;
    let mut i: usize = 0;
    while i < polygon.len()
        invariant
            wf_point(point),
            wf_points(polygon@),
            polygon@.len() >= 1,
            n == polygon@.len() as int,
            0 <= i <= n,
            j as int == prev_idx(i as int, n),
            c == spec_crossing_parity(point, polygon@, i as int),
        decreases n - i,
    {
        let a = polygon[j];
        let b = polygon[i];
        if (b.y > point.y) != (a.y > point.y) {
            let pax = point.x as i64 - a.x as i64;
            let pay = point.y as i64 - a.y as i64;
            let bax = b.x as i64 - a.x as i64;
            let bay = b.y as i64 - a.y as i64;
            proof {
                lemma_mul_bound(pax as int, bay as int, 0x4000_0000, 0x4000_0000);
                lemma_mul_bound(bax as int, pay as int, 0x4000_0000, 0x4000_0000);
            }
            let crosses = if bay > 0 {
                pax * bay < bax * pay
            } else {
                pax * bay > bax * pay
            };
            if crosses {
                c = !c;
            }
        }
        j = i;
        i = i + 1;
    }
    c
}

/// Does every vertex of `a` lie inside the polygon `b`?
pub fn polygon_inside(a: &Vec<Point>, b: &Vec<Point>) -> (r: bool)
    requires
        wf_points(a@),
        wf_points(b@),
        a@.len() > 0 ==> b@.len() >= 1,
    ensures
        r == spec_polygon_inside(a@, b@),
{
    let mut i: usize = 0;
    while i < a.len()
        invariant
            wf_points(a@),
            wf_points(b@),
            a@.len() > 0 ==> b@.len() >= 1,
            0 <= i <= a@.len(),
            forall|k: int| 0 <= k < i ==> spec_point_in_polygon(a@[k], b@),
        decreases a@.len() - i,
    {
        if !point_in_polygon(a[i], b) {
            return false;
        }
        i = i + 1;
    }
    true
}

/// Squared Euclidean distance between `a` and `b`.
pub fn dist2(a: Point, b: Point) -> (r: i64)
    requires
        wf_point(a),
        wf_point(b),
    ensures
        r as int == spec_dist2(a, b),
        0 <= r,
{
    let dx = a.x as i64 - b.x as i64;
    let dy = a.y as i64 - b.y as i64;
    proof {
        lemma_mul_bound(dx as int, dx as int, 0x4000_0000, 0x4000_0000);
        lemma_mul_bound(dy as int, dy as int, 0x4000_0000, 0x4000_0000);
        lemma_square_nonneg(dx as int);
        lemma_square_nonneg(dy as int);
    }
    dx * dx + dy * dy
}

/// A square is never negative.
pub proof fn lemma_square_nonneg(x: int)
    by (nonlinear_arith)
    ensures
        0 <= x * x,
{
}

/// Barycentric point-in-triangle test; points coincident with a triangle
/// vertex are excluded from being inside.
pub fn point_in_triangle(point: Point, a: Point, b: Point, c: Point) -> (r: bool)
    requires
        wf_point(point),
        wf_point(a),
        wf_point(b),
        wf_point(c),
    ensures
        r == spec_point_in_triangle(point, a, b, c),
{
    if point == a || point == b || point == c {
        return false;
    }
    let v0x = c.x as i64 - a.x as i64;
    let v0y = c.y as i64 - a.y as i64;
    let v1x = b.x as i64 - a.x as i64;
    let v1y = b.y as i64 - a.y as i64;
    let v2x = point.x as i64 - a.x as i64;
    let v2y = point.y as i64 - a.y as i64;
    proof {
        lemma_mul_bound(v0x as int, v0x as int, 0x4000_0000, 0x4000_0000);
        lemma_mul_bound(v0y as int, v0y as int, 0x4000_0000, 0x4000_0000);
        lemma_mul_bound(v0x as int, v1x as int, 0x4000_0000, 0x4000_0000);
        lemma_mul_bound(v0y as int, v1y as int, 0x4000_0000, 0x4000_0000);
        lemma_mul_bound(v0x as int, v2x as int, 0x4000_0000, 0x4000_0000);
        lemma_mul_bound(v0y as int, v2y as int, 0x4000_0000, 0x4000_0000);
        lemma_mul_bound(v1x as int, v1x as int, 0x4000_0000, 0x4000_0000);
        lemma_mul_bound(v1y as int, v1y as int, 0x4000_0000, 0x4000_0000);
        lemma_mul_bound(v1x as int, v2x as int, 0x4000_0000, 0x4000_0000);
        lemma_mul_bound(v1y as int, v2y as int, 0x4000_0000, 0x4000_0000);
    }
    let dot00: i128 = (v0x * v0x + v0y * v0y) as i128;
    let dot01: i128 = (v0x * v1x + v0y * v1y) as i128;
    let dot02: i128 = (v0x * v2x + v0y * v2y) as i128;
    let dot11: i128 = (v1x * v1x + v1y * v1y) as i128;
    let dot12: i128 = (v1x * v2x + v1y * v2y) as i128;
    proof {
        lemma_mul_bound(dot00 as int, dot11 as int, 0x4000_0000_0000_0000, 0x4000_0000_0000_0000);
        lemma_mul_bound(dot01 as int, dot01 as int, 0x4000_0000_0000_0000, 0x4000_0000_0000_0000);
        lemma_mul_bound(dot11 as int, dot02 as int, 0x4000_0000_0000_0000, 0x4000_0000_0000_0000);
        lemma_mul_bound(dot01 as int, dot12 as int, 0x4000_0000_0000_0000, 0x4000_0000_0000_0000);
        lemma_mul_bound(dot00 as int, dot12 as int, 0x4000_0000_0000_0000, 0x4000_0000_0000_0000);
        lemma_mul_bound(dot01 as int, dot02 as int, 0x4000_0000_0000_0000, 0x4000_0000_0000_0000);
    }
    let denom = dot00 * dot11 - dot01 * dot01;
    let u_num = dot11 * dot02 - dot01 * dot12;
    let v_num = dot00 * dot12 - dot01 * dot02;
    denom > 0 && u_num >= 0 && v_num >= 0 && u_num + v_num < denom
}

} // verus!
