//! The outline-to-mesh pipeline. A [`Triangulator`] is driven through
//! move/line/quad/close events, assembling closed polygons; the shoelace sum
//! classifies each as an outer contour or a hole; each hole is bridged into
//! the first containing contour along the shortest non-crossing segment; and
//! ear clipping reduces every resulting simple polygon to triangles over one
//! shared, deduplicated vertex buffer.

use vstd::prelude::*;
use vstd::seq_lib::*;

verus! {

use crate::{Glyph, GlyphMesh, Rect, TriangulateError};
use crate::geometry::{
    Point, MAX_COORD, prev_idx, spec_dist2, spec_line_intersects_polygon, spec_polygon_inside,
    wf_point, wf_points, dist2, line_intersects_polygon, polygon_inside, lemma_mul_bound,
};
use crate::interner::Interner;
use crate::outliner::{quad, quad_rem};
use crate::polygon::{
    Polygon, clip_run, covers, in_bounds, intern_tris, lemma_intern_tris_snoc,
    triangulate as clip_polygon,
};

/// One term of the shoelace sum: the edge from the predecessor vertex `a` to
/// vertex `b` contributes `(a.x - b.x) * (a.y + b.y)`, so the full cycle sums
/// to the standard signed double area.
pub open spec fn shoelace_term(p: Seq<Point>, j: int) -> int {
    let a = p[prev_idx(j, p.len() as int)];
    let b = p[j];
    (a.x - b.x) * (a.y + b.y)
}

/// The shoelace sum over the first `k` edges.
pub open spec fn shoelace_upto(p: Seq<Point>, k: int) -> int
    decreases k,
{
    if k <= 0 {
        0
    } else {
        shoelace_upto(p, k - 1) + shoelace_term(p, k - 1)
    }
}

/// The signed double area of the polygon by the shoelace formula.
pub open spec fn shoelace(p: Seq<Point>) -> int {
    shoelace_upto(p, p.len() as int)
}

/// A polygon is an outer fill contour exactly when its signed double area is
/// strictly positive (counter-clockwise winding); otherwise (zero included)
/// it is a hole.
pub open spec fn is_outer(p: Seq<Point>) -> bool {
    shoelace(p) > 0
}

/// Negation moves through a product.
proof fn lemma_neg_mul(x: int, y: int)
    by (nonlinear_arith)
    ensures
        (-x) * y == -(x * y),
{
}

/// Appending whole triples keeps a length divisible by three.
proof fn lemma_mod3(x: int, k: int)
    by (nonlinear_arith)
    requires
        x % 3 == 0,
        k >= 0,
        x >= 0,
    ensures
        (x + 3 * k) % 3 == 0,
{
}

/// The shoelace sum of the first `k` edges of the reversed polygon, written
/// in terms of the original polygon's sums.
proof fn lemma_shoelace_rev_upto(p: Seq<Point>, k: int)
    requires
        p.len() >= 1,
        1 <= k <= p.len(),
    ensures
        shoelace_upto(p.reverse(), k) == -shoelace_term(p, 0) - (shoelace(p) - shoelace_upto(
            p,
            p.len() - k + 1,
        )),
    decreases k,
{
    let r = p.reverse();
    let n = p.len() as int;
    assert(r.len() == n);
    if k == 1 {
        let ux = p[n - 1].x - p[0].x;
        let vy = p[n - 1].y + p[0].y;
        assert(r[0] == p[n - 1]);
        assert(r[n - 1] == p[0]);
        assert(shoelace_term(p, 0) == ux * vy);
        assert(shoelace_term(r, 0) == (-ux) * vy);
        lemma_neg_mul(ux, vy);
        assert(shoelace_upto(r, 0) == 0);
        assert(shoelace_upto(r, 1) == shoelace_upto(r, 0) + shoelace_term(r, 0));
    } else {
        lemma_shoelace_rev_upto(p, k - 1);
        let j = n - k + 1;
        assert(1 <= j <= n - 1);
        assert(r[k - 1] == p[n - k]);
        assert(r[k - 2] == p[n - k + 1]);
        let ux = p[j - 1].x - p[j].x;
        let vy = p[j - 1].y + p[j].y;
        assert(prev_idx(j, n) == j - 1);
        assert(shoelace_term(p, j) == ux * vy);
        assert(shoelace_term(r, k - 1) == (-ux) * vy);
        lemma_neg_mul(ux, vy);
        assert(shoelace_upto(r, k) == shoelace_upto(r, k - 1) + shoelace_term(r, k - 1));
        assert(shoelace_upto(p, j + 1) == shoelace_upto(p, j) + shoelace_term(p, j));
    }
}

/// Reversing a polygon's vertex order negates its shoelace sum.
pub proof fn lemma_shoelace_reverse(p: Seq<Point>)
    ensures
        shoelace(p.reverse()) == -shoelace(p),
{
    if p.len() == 0 {
        assert(p.reverse().len() == 0);
    } else {
        let n = p.len() as int;
        lemma_shoelace_rev_upto(p, n);
        assert(shoelace_upto(p, 0) == 0);
        assert(shoelace_upto(p, 1) == shoelace_upto(p, 0) + shoelace_term(p, 0));
    }
}

/// For any polygon of strictly nonzero signed area, reversing the vertex
/// order flips its winding classification between outer contour and hole.
pub proof fn lemma_winding_reversal(p: Seq<Point>)
    requires
        shoelace(p) != 0,
    ensures
        is_outer(p) <==> !is_outer(p.reverse()),
{
    lemma_shoelace_reverse(p);
}

/// Vertex indices `ai` of the hole and `bi` of the fill contour make a valid
/// bridge: the connecting segment crosses no edge of either polygon.
pub open spec fn bridge_cand(hole: Seq<Point>, fill: Seq<Point>, ai: int, bi: int) -> bool {
    &&& 0 <= ai < hole.len()
    &&& 0 <= bi < fill.len()
    &&& !spec_line_intersects_polygon(hole[ai], fill[bi], hole)
    &&& !spec_line_intersects_polygon(hole[ai], fill[bi], fill)
}

/// The merged polygon: the fill rotated to start just after its bridge
/// vertex, then the hole rotated to start at its bridge vertex, then the two
/// bridge vertices again, closing a zero-area slit.
pub open spec fn spec_splice(fill: Seq<Point>, hole: Seq<Point>, ai: int, bi: int) -> Seq<Point> {
    fill.subrange(bi + 1, fill.len() as int) + fill.subrange(0, bi + 1) + hole.subrange(
        ai,
        hole.len() as int,
    ) + hole.subrange(0, ai) + seq![hole[ai], fill[bi]]
}

/// `(i, j)` comes before `(ai, bi)` in hole-major scan order.
pub open spec fn pair_before(i: int, j: int, ai: int, bi: int) -> bool {
    i < ai || (i == ai && j < bi)
}

/// `(ai, bi)` is the bridge the merger picks: a valid bridge of globally
/// minimal squared length, strictly shorter than every valid bridge that the
/// scan meets earlier.
pub open spec fn bridge_best(hole: Seq<Point>, fill: Seq<Point>, ai: int, bi: int) -> bool {
    &&& bridge_cand(hole, fill, ai, bi)
    &&& forall|i: int, j: int|
        #[trigger] bridge_cand(hole, fill, i, j) ==> spec_dist2(hole[ai], fill[bi]) <= spec_dist2(
            hole[i],
            fill[j],
        )
    &&& forall|i: int, j: int|
        #[trigger] bridge_cand(hole, fill, i, j) && pair_before(i, j, ai, bi) ==> spec_dist2(
            hole[i],
            fill[j],
        ) > spec_dist2(hole[ai], fill[bi])
}

/// At most one pair can be the picked bridge.
pub proof fn lemma_bridge_best_unique(
    hole: Seq<Point>,
    fill: Seq<Point>,
    ai: int,
    bi: int,
    ci: int,
    di: int,
)
    requires
        bridge_best(hole, fill, ai, bi),
        bridge_best(hole, fill, ci, di),
    ensures
        ai == ci && bi == di,
{
    if (ai, bi) != (ci, di) {
        if pair_before(ai, bi, ci, di) {
            assert(spec_dist2(hole[ai], fill[bi]) > spec_dist2(hole[ci], fill[di]));
            assert(spec_dist2(hole[ci], fill[di]) >= spec_dist2(hole[ai], fill[bi]));
        } else {
            assert(pair_before(ci, di, ai, bi));
            assert(spec_dist2(hole[ci], fill[di]) > spec_dist2(hole[ai], fill[bi]));
            assert(spec_dist2(hole[ai], fill[bi]) >= spec_dist2(hole[ci], fill[di]));
        }
    }
}

/// The bridge the merger picks for this hole and fill contour, if any pair
/// qualifies at all.
pub open spec fn spec_find_bridge(hole: Seq<Point>, fill: Seq<Point>) -> Option<(int, int)> {
    if exists|ai: int, bi: int| #[trigger] bridge_best(hole, fill, ai, bi) {
        Some(choose|ai: int, bi: int| #[trigger] bridge_best(hole, fill, ai, bi))
    } else {
        None
    }
}

/// A bridge that the spec picks satisfies [`bridge_best`].
pub proof fn lemma_find_bridge_some(hole: Seq<Point>, fill: Seq<Point>, ai: int, bi: int)
    requires
        spec_find_bridge(hole, fill) == Some((ai, bi)),
    ensures
        bridge_best(hole, fill, ai, bi),
{
    assert(exists|a: int, b: int| #[trigger] bridge_best(hole, fill, a, b));
    let (ca, cb) = choose|a: int, b: int| #[trigger] bridge_best(hole, fill, a, b);
    assert(bridge_best(hole, fill, ca, cb));
    assert((ca, cb) == (ai, bi));
}

/// The first fill contour, from index `fi` on, that geometrically contains
/// every vertex of the hole.
pub open spec fn first_container(polys: Seq<Seq<Point>>, hole: Seq<Point>, fi: int) -> Option<int>
    decreases polys.len() - fi,
{
    if fi < 0 || fi >= polys.len() {
        None
    } else if spec_polygon_inside(hole, polys[fi]) {
        Some(fi)
    } else {
        first_container(polys, hole, fi + 1)
    }
}

/// Merging one hole: it is spliced into the first containing fill contour
/// along the picked bridge, and dropped when no contour contains it or no
/// valid bridge exists.
pub open spec fn merge_one(polys: Seq<Seq<Point>>, hole: Seq<Point>) -> Seq<Seq<Point>> {
    match first_container(polys, hole, 0) {
        None => polys,
        Some(fi) => match spec_find_bridge(hole, polys[fi]) {
            None => polys,
            Some(b) => polys.update(fi, spec_splice(polys[fi], hole, b.0, b.1)),
        },
    }
}

/// Merging every hole, in discovery order.
pub open spec fn merge_all(polys: Seq<Seq<Point>>, holes: Seq<Seq<Point>>) -> Seq<Seq<Point>>
    decreases holes.len(),
{
    if holes.len() == 0 {
        polys
    } else {
        merge_all(merge_one(polys, holes[0]), holes.subrange(1, holes.len() as int))
    }
}

/// The mesh the ear-clipping phase builds over `polys`, starting from the
/// vertex buffer `verts`: each polygon's clipped triangles are interned in
/// order into one shared buffer, and the flat index list concatenates every
/// corner's assigned index.
pub open spec fn clip_mesh_from(verts: Seq<Point>, polys: Seq<Seq<Point>>) -> (
    Seq<Point>,
    Seq<int>,
)
    decreases polys.len(),
{
    if polys.len() == 0 {
        (verts, Seq::empty())
    } else {
        let first = intern_tris(verts, clip_run(polys[0], 0).0);
        let rest = clip_mesh_from(first.0, polys.subrange(1, polys.len() as int));
        (rest.0, first.1 + rest.1)
    }
}

/// The mesh the ear-clipping phase builds over `polys` from an empty vertex
/// buffer.
pub open spec fn clip_mesh(polys: Seq<Seq<Point>>) -> (Seq<Point>, Seq<int>) {
    clip_mesh_from(Seq::empty(), polys)
}

/// Clipping one more polygon at the end extends the mesh by its interned
/// triangles.
proof fn lemma_clip_mesh_snoc(verts: Seq<Point>, polys: Seq<Seq<Point>>, q: Seq<Point>)
    ensures
        clip_mesh_from(verts, polys.push(q)).0 == intern_tris(
            clip_mesh_from(verts, polys).0,
            clip_run(q, 0).0,
        ).0,
        clip_mesh_from(verts, polys.push(q)).1 == clip_mesh_from(verts, polys).1 + intern_tris(
            clip_mesh_from(verts, polys).0,
            clip_run(q, 0).0,
        ).1,
    decreases polys.len(),
{
    let snoc = polys.push(q);
    if polys.len() == 0 {
        assert(snoc.len() == 1);
        assert(snoc[0] == q);
        let first = intern_tris(verts, clip_run(q, 0).0);
        assert(snoc.subrange(1, 1) =~= Seq::<Seq<Point>>::empty());
        assert(clip_mesh_from(first.0, snoc.subrange(1, 1)) == (first.0, Seq::<int>::empty()));
        assert(clip_mesh_from(verts, snoc) == (first.0, first.1 + Seq::<int>::empty()));
        assert(clip_mesh_from(verts, polys) == (verts, Seq::<int>::empty()));
        assert(first.1 + Seq::<int>::empty() =~= first.1);
        assert(Seq::<int>::empty() + first.1 =~= first.1);
    } else {
        assert(snoc[0] == polys[0]);
        let first = intern_tris(verts, clip_run(polys[0], 0).0);
        let tail = polys.subrange(1, polys.len() as int);
        assert(snoc.subrange(1, snoc.len() as int) =~= tail.push(q));
        assert(clip_mesh_from(verts, snoc) == (
            clip_mesh_from(first.0, tail.push(q)).0,
            first.1 + clip_mesh_from(first.0, tail.push(q)).1,
        ));
        assert(clip_mesh_from(verts, polys) == (
            clip_mesh_from(first.0, tail).0,
            first.1 + clip_mesh_from(first.0, tail).1,
        ));
        lemma_clip_mesh_snoc(first.0, tail, q);
        let mid = clip_mesh_from(first.0, tail);
        let last = intern_tris(mid.0, clip_run(q, 0).0);
        assert(first.1 + (mid.1 + last.1) =~= (first.1 + mid.1) + last.1);
    }
}

/// The first polygon of the run on which ear clipping gets stuck, if any.
pub open spec fn first_fail(polys: Seq<Seq<Point>>, i: int) -> Option<int>
    decreases polys.len() - i,
{
    if i < 0 || i >= polys.len() {
        None
    } else if clip_run(polys[i], 0).1 is Some {
        Some(i)
    } else {
        first_fail(polys, i + 1)
    }
}

/// When everything before `k` clips and `k` does not, `k` is the first
/// failure.
proof fn lemma_first_fail_at(polys: Seq<Seq<Point>>, i: int, k: int)
    requires
        0 <= i <= k < polys.len(),
        forall|j: int| i <= j < k ==> (#[trigger] clip_run(polys[j], 0).1) is None,
        clip_run(polys[k], 0).1 is Some,
    ensures
        first_fail(polys, i) == Some(k),
    decreases k - i,
{
    if i < k {
        lemma_first_fail_at(polys, i + 1, k);
    }
}

/// Finds the globally closest (hole vertex, fill vertex) pair whose
/// connecting segment crosses neither polygon; the first pair reaching the
/// minimum (scanning hole-major) wins ties.
fn find_bridge(hole: &Vec<Point>, fill: &Vec<Point>) -> (r: Option<(usize, usize)>)
    requires
        wf_points(hole@),
        wf_points(fill@),
        hole@.len() >= 1,
        fill@.len() >= 1,
    ensures
        match r {
            None => spec_find_bridge(hole@, fill@) is None,
            Some((ai, bi)) => spec_find_bridge(hole@, fill@) == Some((ai as int, bi as int)),
        },
{
    let mut found = false;
    let mut best_a: usize = 0;
    let mut best_b: usize = 0;
    let mut best_d: i64 = 0;
    let mut h: usize = 0;
    while h < hole.len()
        invariant
            wf_points(hole@),
            wf_points(fill@),
            hole@.len() >= 1,
            fill@.len() >= 1,
            0 <= h <= hole@.len(),
            !found ==> forall|i: int, j: int|
                i < h && #[trigger] bridge_cand(hole@, fill@, i, j) ==> false,
            found ==> {
                &&& bridge_cand(hole@, fill@, best_a as int, best_b as int)
                &&& best_d as int == spec_dist2(hole@[best_a as int], fill@[best_b as int])
                &&& best_a < h
                &&& forall|i: int, j: int|
                    i < h && #[trigger] bridge_cand(hole@, fill@, i, j) ==> spec_dist2(
                        hole@[i],
                        fill@[j],
                    ) >= best_d as int
                &&& forall|i: int, j: int|
                    i < h && #[trigger] bridge_cand(hole@, fill@, i, j) && (i < best_a || (i
                        == best_a && j < best_b)) ==> spec_dist2(hole@[i], fill@[j]) > best_d as int
            },
        decreases hole@.len() - h,
    {
        let a = hole[h];
        let mut w: usize = 0;
        while w < fill.len()
            invariant
                wf_points(hole@),
                wf_points(fill@),
                hole@.len() >= 1,
                fill@.len() >= 1,
                h < hole@.len(),
                a == hole@[h as int],
                0 <= w <= fill@.len(),
                !found ==> forall|i: int, j: int|
                    (i < h || (i == h && j < w)) && #[trigger] bridge_cand(hole@, fill@, i, j)
                        ==> false,
                found ==> {
                    &&& bridge_cand(hole@, fill@, best_a as int, best_b as int)
                    &&& best_d as int == spec_dist2(hole@[best_a as int], fill@[best_b as int])
                    &&& best_a < h || (best_a == h && best_b < w)
                    &&& forall|i: int, j: int|
                        (i < h || (i == h && j < w)) && #[trigger] bridge_cand(hole@, fill@, i, j)
                            ==> spec_dist2(hole@[i], fill@[j]) >= best_d as int
                    &&& forall|i: int, j: int|
                        (i < h || (i == h && j < w)) && #[trigger] bridge_cand(hole@, fill@, i, j)
                            && (i < best_a || (i == best_a && j < best_b)) ==> spec_dist2(
                            hole@[i],
                            fill@[j],
                        ) > best_d as int
                },
            decreases fill@.len() - w,
        {
            let b = fill[w];
            let d = dist2(a, b);
            if !found || d < best_d {
                if !line_intersects_polygon(a, b, hole) && !line_intersects_polygon(a, b, fill) {
                    found = true;
                    best_a = h;
                    best_b = w;
                    best_d = d;
                }
            }
            w = w + 1;
        }
        h = h + 1;
    }
    if found {
        proof {
            assert(bridge_best(hole@, fill@, best_a as int, best_b as int));
            let (ca, cb) = choose|ai: int, bi: int| #[trigger] bridge_best(hole@, fill@, ai, bi);
            lemma_bridge_best_unique(hole@, fill@, ca, cb, best_a as int, best_b as int);
        }
        Some((best_a, best_b))
    } else {
        proof {
            if exists|ai: int, bi: int| #[trigger] bridge_best(hole@, fill@, ai, bi) {
                let (ca, cb) = choose|ai: int, bi: int|
                    #[trigger] bridge_best(hole@, fill@, ai, bi);
                assert(bridge_cand(hole@, fill@, ca, cb));
            }
        }
        None
    }
}

/// Splices a hole into a fill contour at the bridge `(ai, bi)`, producing
/// the single merged polygon that replaces the fill.
fn splice(fill: Vec<Point>, hole: Vec<Point>, ai: usize, bi: usize) -> (r: Vec<Point>)
    requires
        wf_points(fill@),
        wf_points(hole@),
        ai < hole@.len(),
        bi < fill@.len(),
    ensures
        r@ == spec_splice(fill@, hole@, ai as int, bi as int),
        wf_points(r@),
        r@.len() == fill@.len() + hole@.len() + 2,
{
    let n = fill.len();
    let mut out: Vec<Point> = Vec::new();
    let mut i: usize = bi + 1;
    while i < n
        invariant
            wf_points(fill@),
            fill@.len() == n,
            bi < n,
            bi + 1 <= i <= n,
            out@ == fill@.subrange(bi + 1, i as int),
        decreases n - i,
    {
        out.push(fill[i]);
        proof {
            assert(out@ =~= fill@.subrange(bi + 1, i + 1));
        }
        i = i + 1;
    }
    let mut i: usize = 0;
    while i < bi
        invariant
            wf_points(fill@),
            bi < fill@.len(),
            0 <= i <= bi,
            out@ == fill@.subrange(bi + 1, fill@.len() as int) + fill@.subrange(0, i as int),
        decreases bi - i,
    {
        out.push(fill[i]);
        proof {
            assert(out@ =~= fill@.subrange(bi + 1, fill@.len() as int) + fill@.subrange(
                0,
                i + 1,
            ));
        }
        i = i + 1;
    }
    out.push(fill[bi]);
    let ghost fill_rot = fill@.subrange(bi + 1, fill@.len() as int) + fill@.subrange(0, bi + 1);
    proof {
        assert(out@ =~= fill_rot);
    }
    let mut i: usize = ai;
    while i < hole.len()
        invariant
            wf_points(hole@),
            ai < hole@.len(),
            ai <= i <= hole@.len(),
            out@ == fill_rot + hole@.subrange(ai as int, i as int),
        decreases hole@.len() - i,
    {
        out.push(hole[i]);
        proof {
            assert(out@ =~= fill_rot + hole@.subrange(ai as int, i + 1));
        }
        i = i + 1;
    }
    let mut i: usize = 0;
    while i < ai
        invariant
            wf_points(hole@),
            ai < hole@.len(),
            0 <= i <= ai,
            out@ == fill_rot + hole@.subrange(ai as int, hole@.len() as int) + hole@.subrange(
                0,
                i as int,
            ),
        decreases ai - i,
    {
        out.push(hole[i]);
        proof {
            assert(out@ =~= fill_rot + hole@.subrange(ai as int, hole@.len() as int)
                + hole@.subrange(0, i + 1));
        }
        i = i + 1;
    }
    out.push(hole[ai]);
    out.push(fill[bi]);
    proof {
        assert(out@ =~= spec_splice(fill@, hole@, ai as int, bi as int));
    }
    out
}

/// The outline collector and downstream pipeline state: the current pen
/// position, the open path, and the closed polygons classified so far.
pub struct Triangulator {
    pos: Point,
    start: Option<Point>,
    path: Vec<Point>,
    polygons: Vec<Polygon>,
    holes: Vec<Polygon>,
    cubic: bool,
}

/// The open path with a pending contour start point, if any, committed to
/// it.
pub open spec fn committed(path: Seq<Point>, start: Option<Point>) -> Seq<Point> {
    match start {
        Some(q) => path.push(q),
        None => path,
    }
}

impl Triangulator {
    /// The current pen position.
    pub closed spec fn spec_pos(self) -> Point {
        self.pos
    }

    /// The open, not yet closed path.
    pub closed spec fn spec_path(self) -> Seq<Point> {
        self.path@
    }

    /// The pending contour start point: recorded by `move_to`, committed to
    /// the path by the next segment, discarded by `close`.
    pub closed spec fn spec_start(self) -> Option<Point> {
        self.start
    }

    /// The closed polygons classified as outer fill contours, in discovery
    /// order.
    pub closed spec fn spec_polygons(self) -> Seq<Seq<Point>> {
        self.polygons@.map_values(|p: Polygon| p@)
    }

    /// The closed polygons classified as holes, in discovery order.
    pub closed spec fn spec_holes(self) -> Seq<Seq<Point>> {
        self.holes@.map_values(|p: Polygon| p@)
    }

    /// Whether an unsupported cubic curve event was seen.
    pub closed spec fn spec_cubic(self) -> bool {
        self.cubic
    }

    /// All stored coordinates are in range and every closed polygon is
    /// nonempty.
    pub closed spec fn wf(self) -> bool {
        &&& wf_point(self.pos)
        &&& match self.start {
            Some(q) => wf_point(q),
            None => true,
        }
        &&& wf_points(self.path@)
        &&& forall|i: int|
            0 <= i < self.polygons@.len() ==> wf_points((#[trigger] self.polygons@[i])@)
                && self.polygons@[i]@.len() >= 1
        &&& forall|i: int|
            0 <= i < self.holes@.len() ==> wf_points((#[trigger] self.holes@[i])@)
                && self.holes@[i]@.len() >= 1
    }

    /// A fresh collector: pen at the origin, nothing accumulated.
    pub fn new() -> (r: Triangulator)
        ensures
            r.wf(),
            r.spec_pos() == (Point { x: 0, y: 0 }),
            r.spec_start() is None,
            r.spec_path().len() == 0,
            r.spec_polygons().len() == 0,
            r.spec_holes().len() == 0,
            !r.spec_cubic(),
    {
        Triangulator {
            pos: Point { x: 0, y: 0 },
            start: None,
            path: Vec::new(),
            polygons: Vec::new(),
            holes: Vec::new(),
            cubic: false,
        }
    }

    /// Moves the pen and records the point as the contour's pending start:
    /// it joins the path once a segment follows, and contributes nothing
    /// when nothing does.
    pub fn move_to(&mut self, x: i32, y: i32)
        requires
            old(self).wf(),
            -MAX_COORD <= x <= MAX_COORD,
            -MAX_COORD <= y <= MAX_COORD,
        ensures
            final(self).wf(),
            final(self).spec_pos() == (Point { x, y }),
            final(self).spec_start() == Some((Point { x, y })),
            final(self).spec_path() == old(self).spec_path(),
            final(self).spec_polygons() == old(self).spec_polygons(),
            final(self).spec_holes() == old(self).spec_holes(),
            final(self).spec_cubic() == old(self).spec_cubic(),
    {
        let p = Point { x, y };
        self.pos = p;
        self.start = Some(p);
    }

    /// Appends a straight segment to the open path (committing a pending
    /// contour start first) and advances the pen.
    pub fn line_to(&mut self, x: i32, y: i32)
        requires
            old(self).wf(),
            -MAX_COORD <= x <= MAX_COORD,
            -MAX_COORD <= y <= MAX_COORD,
        ensures
            final(self).wf(),
            final(self).spec_pos() == (Point { x, y }),
            final(self).spec_start() is None,
            final(self).spec_path() == committed(
                old(self).spec_path(),
                old(self).spec_start(),
            ).push((Point { x, y })),
            final(self).spec_polygons() == old(self).spec_polygons(),
            final(self).spec_holes() == old(self).spec_holes(),
            final(self).spec_cubic() == old(self).spec_cubic(),
    {
        match self.start {
            Some(q) => {
                self.path.push(q);
                self.start = None;
            },
            None => {},
        }
        let p = Point { x, y };
        self.pos = p;
        self.path.push(p);
    }

    /// Flattens the quadratic segment from the pen position over control
    /// point `(x1, y1)` to `(x2, y2)`, appends every emitted sample and then
    /// the endpoint itself (committing a pending contour start first), and
    /// advances the pen to the endpoint.
    pub fn quad_to(&mut self, x1: i32, y1: i32, x2: i32, y2: i32)
        requires
            old(self).wf(),
            -MAX_COORD <= x1 <= MAX_COORD,
            -MAX_COORD <= y1 <= MAX_COORD,
            -MAX_COORD <= x2 <= MAX_COORD,
            -MAX_COORD <= y2 <= MAX_COORD,
        ensures
            final(self).wf(),
            final(self).spec_pos() == (Point { x: x2, y: y2 }),
            final(self).spec_start() is None,
            final(self).spec_path() == committed(old(self).spec_path(), old(self).spec_start())
                + quad_rem(
                old(self).spec_pos(),
                (Point { x: x1, y: y1 }),
                (Point { x: x2, y: y2 }),
                0,
                old(self).spec_pos().x * 10000,
                old(self).spec_pos().y * 10000,
            ).push((Point { x: x2, y: y2 })),
            final(self).spec_polygons() == old(self).spec_polygons(),
            final(self).spec_holes() == old(self).spec_holes(),
            final(self).spec_cubic() == old(self).spec_cubic(),
    {
        match self.start {
            Some(q) => {
                self.path.push(q);
                self.start = None;
            },
            None => {},
        }
        let ghost base = self.path@;
        let b = Point { x: x1, y: y1 };
        let c = Point { x: x2, y: y2 };
        let mut it = quad(self.pos, b, c);
        let ghost full = it.remaining();
        loop
            invariant
                it.wf(),
                wf_points(self.path@),
                base == committed(old(self).spec_path(), old(self).spec_start()),
                base + full == self.path@ + it.remaining(),
                self.start is None,
                self.pos == old(self).pos,
                self.polygons@ == old(self).polygons@,
                self.holes@ == old(self).holes@,
                self.cubic == old(self).cubic,
                old(self).wf(),
            ensures
                wf_points(self.path@),
                base == committed(old(self).spec_path(), old(self).spec_start()),
                self.path@ == base + full,
                self.start is None,
                self.pos == old(self).pos,
                self.polygons@ == old(self).polygons@,
                self.holes@ == old(self).holes@,
                self.cubic == old(self).cubic,
            decreases it.remaining().len(),
        {
            match it.next() {
                Some(p) => {
                    self.path.push(p);
                    proof {
                        assert(base + full =~= self.path@ + it.remaining());
                    }
                },
                None => {
                    proof {
                        assert(base + full =~= self.path@);
                    }
                    break ;
                },
            }
        }
        self.pos = c;
        self.path.push(c);
        proof {
            assert(self.path@ =~= (base + full).push(c));
        }
    }

    /// Records that the outline contains a cubic segment, which this
    /// pipeline does not flatten; the whole glyph will be refused.
    pub fn curve_to(&mut self)
        requires
            old(self).wf(),
        ensures
            final(self).wf(),
            final(self).spec_cubic(),
            final(self).spec_pos() == old(self).spec_pos(),
            final(self).spec_start() == old(self).spec_start(),
            final(self).spec_path() == old(self).spec_path(),
            final(self).spec_polygons() == old(self).spec_polygons(),
            final(self).spec_holes() == old(self).spec_holes(),
    {
        self.cubic = true;
    }

    /// Classifies a finished polygon by the sign of its shoelace sum:
    /// strictly positive joins the outer fill contours, anything else the
    /// holes.
    pub fn insert_path(&mut self, path: Vec<Point>)
        requires
            old(self).wf(),
            wf_points(path@),
            path@.len() >= 1,
        ensures
            final(self).wf(),
            final(self).spec_pos() == old(self).spec_pos(),
            final(self).spec_start() == old(self).spec_start(),
            final(self).spec_path() == old(self).spec_path(),
            final(self).spec_cubic() == old(self).spec_cubic(),
            if is_outer(path@) {
                final(self).spec_polygons() == old(self).spec_polygons().push(path@)
                    && final(self).spec_holes() == old(self).spec_holes()
            } else {
                final(self).spec_holes() == old(self).spec_holes().push(path@)
                    && final(self).spec_polygons() == old(self).spec_polygons()
            },
    {
        let ghost n = path@.len() as int;
        let mut sum: i128 = 0;
        let mut ai = path.len() - 1;
        let mut bi: usize = 0;
        while bi < path.len()
            invariant
                wf_points(path@),
                path@.len() >= 1,
                n == path@.len() as int,
                0 <= bi <= n,
                ai as int == prev_idx(bi as int, n),
                sum as int == shoelace_upto(path@, bi as int),
                -(bi as int) * 0x2000_0000_0000_0000 <= sum as int <= (bi as int)
                    * 0x2000_0000_0000_0000,
            decreases n - bi,
        {
            let a = path[ai];
            let b = path[bi];
            let dx = a.x as i128 - b.x as i128;
            let sy = a.y as i128 + b.y as i128;
            proof {
                lemma_mul_bound(dx as int, sy as int, 0x4000_0000, 0x4000_0000);
            }
            sum = sum + dx * sy;
            ai = bi;
            bi = bi + 1;
        }
        if sum <= 0 {
            self.holes.push(path);
            proof {
                assert(self.holes@.map_values(|p: Polygon| p@) =~= old(self).spec_holes().push(
                    path@,
                ));
            }
        } else {
            self.polygons.push(path);
            proof {
                assert(self.polygons@.map_values(|p: Polygon| p@)
                    =~= old(self).spec_polygons().push(path@));
            }
        }
    }

    /// Finalizes the open path as one closed polygon and hands it to the
    /// winding classifier; an empty path closes to nothing, and a pending
    /// contour start that no segment ever continued is discarded.
    pub fn close(&mut self)
        requires
            old(self).wf(),
        ensures
            final(self).wf(),
            final(self).spec_pos() == old(self).spec_pos(),
            final(self).spec_start() is None,
            final(self).spec_path().len() == 0,
            final(self).spec_cubic() == old(self).spec_cubic(),
            if old(self).spec_path().len() == 0 {
                final(self).spec_polygons() == old(self).spec_polygons() && final(self).spec_holes()
                    == old(self).spec_holes()
            } else if is_outer(old(self).spec_path()) {
                final(self).spec_polygons() == old(self).spec_polygons().push(
                    old(self).spec_path(),
                ) && final(self).spec_holes() == old(self).spec_holes()
            } else {
                final(self).spec_holes() == old(self).spec_holes().push(old(self).spec_path())
                    && final(self).spec_polygons() == old(self).spec_polygons()
            },
    {
        self.start = None;
        if self.path.is_empty() {
            return ;
        }
        let mut path: Vec<Point> = Vec::new();
        core::mem::swap(&mut self.path, &mut path);
        self.insert_path(path);
    }

    /// Runs the rest of the pipeline on everything collected: bridges each
    /// hole into the first containing fill contour (dropping holes with no
    /// container or no valid bridge), ear-clips every resulting polygon, and
    /// returns the deduplicated vertex buffer with the flat triangle index
    /// list — exactly the mesh that [`clip_mesh`] assigns to the merged
    /// polygon set, so equal collected contents give equal meshes.
    pub fn triangulate(self) -> (r: Result<(Vec<Point>, Vec<usize>), TriangulateError>)
        requires
            self.wf(),
        ensures
            self.spec_cubic() ==> r == Err::<(Vec<Point>, Vec<usize>), TriangulateError>(
                TriangulateError::UnsupportedCurve,
            ),
            match r {
                Ok(m) => {
                    &&& !self.spec_cubic()
                    &&& m.0@ == clip_mesh(merge_all(self.spec_polygons(), self.spec_holes())).0
                    &&& m.1@.map_values(|u: usize| u as int) == clip_mesh(
                        merge_all(self.spec_polygons(), self.spec_holes()),
                    ).1
                    &&& m.1@.len() % 3 == 0
                    &&& in_bounds(m.1@, m.0@.len() as int)
                    &&& covers(m.1@, m.0@.len() as int)
                    &&& forall|i: int, j: int|
                        0 <= i < m.0@.len() && 0 <= j < m.0@.len() && i != j ==> m.0@[i] != m.0@[j]
                },
                Err(e) => if self.spec_cubic() {
                    e == TriangulateError::UnsupportedCurve
                } else {
                    &&& first_fail(merge_all(self.spec_polygons(), self.spec_holes()), 0) matches
                        Some(fi) && clip_run(
                        merge_all(self.spec_polygons(), self.spec_holes())[fi],
                        0,
                    ).1 matches Some(rem) && e == (TriangulateError::Triangulation {
                        remaining: rem as usize,
                    })
                    &&& e matches TriangulateError::Triangulation { remaining } && remaining >= 3
                },
            },
            !self.spec_cubic() ==> ((r is Ok) <==> (forall|i: int|
                0 <= i < merge_all(self.spec_polygons(), self.spec_holes()).len() ==> (#[trigger] clip_run(
                    merge_all(self.spec_polygons(), self.spec_holes())[i],
                    0,
                ).1) is None)),
    {
        if self.cubic {
            return Err(TriangulateError::UnsupportedCurve);
        }
        let Triangulator {
            pos: _,
            start: _,
            path: _,
            polygons: mut polys,
            holes: mut holes,
            cubic: _,
        } =
            self;
        let ghost polys0 = polys@.map_values(|p: Polygon| p@);
        let ghost holes0 = holes@.map_values(|p: Polygon| p@);
        let ghost target = merge_all(polys0, holes0);
        while holes.len() > 0
            invariant
                forall|i: int|
                    0 <= i < polys@.len() ==> wf_points((#[trigger] polys@[i])@)
                        && polys@[i]@.len() >= 1,
                forall|i: int|
                    0 <= i < holes@.len() ==> wf_points((#[trigger] holes@[i])@)
                        && holes@[i]@.len() >= 1,
                merge_all(
                    polys@.map_values(|p: Polygon| p@),
                    holes@.map_values(|p: Polygon| p@),
                ) == target,
                target == merge_all(self.spec_polygons(), self.spec_holes()),
                !self.spec_cubic(),
            decreases holes@.len(),
        {
            let ghost entry = polys@.map_values(|p: Polygon| p@);
            let ghost holes_entry = holes@.map_values(|p: Polygon| p@);
            let ghost hvec = holes@;
            let hole = holes.remove(0);
            proof {
                assert(hole@ == holes_entry[0]);
                assert(holes@.map_values(|p: Polygon| p@) =~= holes_entry.subrange(
                    1,
                    holes_entry.len() as int,
                )) by {
                    hvec.remove_ensures(0);
                    assert forall|qi: int|
                        0 <= qi < holes@.len() implies (#[trigger] holes@[qi])@ == holes_entry[qi
                        + 1] by {
                        assert(holes@[qi] == hvec[qi + 1]);
                    }
                }
            }
            let mut fi: usize = 0;
            while fi < polys.len()
                invariant_except_break
                    polys@.map_values(|p: Polygon| p@) == entry,
                    0 <= fi <= polys@.len(),
                    first_container(entry, hole@, 0) == first_container(entry, hole@, fi as int),
                    forall|i: int|
                        0 <= i < polys@.len() ==> wf_points((#[trigger] polys@[i])@)
                            && polys@[i]@.len() >= 1,
                    wf_points(hole@),
                    hole@.len() >= 1,
                ensures
                    polys@.map_values(|p: Polygon| p@) == merge_one(entry, hole@),
                    forall|i: int|
                        0 <= i < polys@.len() ==> wf_points((#[trigger] polys@[i])@)
                            && polys@[i]@.len() >= 1,
                decreases polys@.len() - fi,
            {
                let ghost fview = polys@[fi as int]@;
                proof {
                    assert(fview == entry[fi as int]);
                }
                if polygon_inside(&hole, &polys[fi]) {
                    proof {
                        assert(first_container(entry, hole@, fi as int) == Some(fi as int));
                    }
                    match find_bridge(&hole, &polys[fi]) {
                        Some((ai, bi)) => {
                            proof {
                                lemma_find_bridge_some(hole@, entry[fi as int], ai as int, bi as int);
                            }
                            let ghost pre_vec = polys@;
                            let fill = polys.remove(fi);
                            let ghost mid_vec = polys@;
                            let merged = splice(fill, hole, ai, bi);
                            polys.insert(fi, merged);
                            proof {
                                assert(merged@ == spec_splice(
                                    entry[fi as int],
                                    hole@,
                                    ai as int,
                                    bi as int,
                                ));
                                assert(polys@.map_values(|p: Polygon| p@) =~= entry.update(
                                    fi as int,
                                    merged@,
                                )) by {
                                    pre_vec.remove_ensures(fi as int);
                                    assert(polys@ == mid_vec.insert(fi as int, merged));
                                    assert forall|k: int|
                                        0 <= k < polys@.len() implies (#[trigger] polys@[k])@
                                        == entry.update(fi as int, merged@)[k] by {
                                        if k < fi {
                                            assert(polys@[k] == mid_vec[k]);
                                            assert(mid_vec[k] == pre_vec[k]);
                                        } else if k == fi {
                                            assert(polys@[k] == merged);
                                        } else {
                                            assert(polys@[k] == mid_vec[k - 1]);
                                            assert(mid_vec[k - 1] == pre_vec[k]);
                                        }
                                    }
                                }
                                assert(merge_one(entry, hole@) == entry.update(
                                    fi as int,
                                    merged@,
                                ));
                            }
                        },
                        None => {
                            proof {
                                assert(merge_one(entry, hole@) == entry);
                            }
                        },
                    }
                    break ;
                }
                proof {
                    assert(!spec_polygon_inside(hole@, entry[fi as int]));
                }
                fi = fi + 1;
            }
            proof {
                assert(merge_all(entry, holes_entry) == merge_all(
                    merge_one(entry, hole@),
                    holes_entry.subrange(1, holes_entry.len() as int),
                ));
            }
        }
        proof {
            assert(holes@.map_values(|p: Polygon| p@).len() == 0);
            assert(merge_all(
                polys@.map_values(|p: Polygon| p@),
                holes@.map_values(|p: Polygon| p@),
            ) == polys@.map_values(|p: Polygon| p@));
        }
        let mut points = Interner::new();
        let mut triangles: Vec<usize> = Vec::new();
        let ghost merged0 = polys@.map_values(|p: Polygon| p@);
        let ghost mut done: int = 0;
        proof {
            assert(merged0.subrange(0, 0) =~= Seq::<Seq<Point>>::empty());
            assert(clip_mesh_from(Seq::empty(), merged0.subrange(0, 0)) == (
                Seq::<Point>::empty(),
                Seq::<int>::empty(),
            ));
            assert(triangles@.map_values(|u: usize| u as int) =~= Seq::<int>::empty());
        }
        while polys.len() > 0
            invariant
                forall|i: int|
                    0 <= i < polys@.len() ==> wf_points((#[trigger] polys@[i])@),
                points.wf(),
                in_bounds(triangles@, points.verts().len() as int),
                covers(triangles@, points.verts().len() as int),
                triangles@.len() % 3 == 0,
                0 <= done <= merged0.len(),
                merged0 == merge_all(self.spec_polygons(), self.spec_holes()),
                !self.spec_cubic(),
                polys@.map_values(|p: Polygon| p@) == merged0.subrange(done, merged0.len() as int),
                forall|k: int| 0 <= k < done ==> (#[trigger] clip_run(merged0[k], 0).1) is None,
                points.verts() == clip_mesh_from(Seq::empty(), merged0.subrange(0, done)).0,
                triangles@.map_values(|u: usize| u as int) == clip_mesh_from(
                    Seq::empty(),
                    merged0.subrange(0, done),
                ).1,
            decreases polys@.len(),
        {
            let ghost pre = polys@.map_values(|p: Polygon| p@);
            let ghost prev_vec = polys@;
            let ghost pre_tlen = triangles@.len() as int;
            let p = polys.remove(0);
            proof {
                assert(pre.len() == merged0.len() - done);
                assert(pre[0] == prev_vec[0]@);
                assert(merged0.subrange(done, merged0.len() as int)[0] == merged0[done]);
                assert(p@ == merged0[done]);
                assert(polys@.map_values(|q: Polygon| q@) =~= pre.subrange(
                    1,
                    pre.len() as int,
                )) by {
                    assert(polys@ == prev_vec.remove(0));
                    prev_vec.remove_ensures(0);
                    assert forall|qi: int|
                        0 <= qi < polys@.len() implies (#[trigger] polys@[qi])@ == pre[qi
                        + 1] by {
                        assert(polys@[qi] == prev_vec[qi + 1]);
                    }
                }
                assert(pre.subrange(1, pre.len() as int) =~= merged0.subrange(
                    done + 1,
                    merged0.len() as int,
                ));
            }
            let plen = p.len();
            match clip_polygon(p, &mut points, &mut triangles) {
                Ok(()) => {
                    proof {
                        lemma_mod3(pre_tlen, clip_run(p@, 0).0.len() as int);
                        lemma_clip_mesh_snoc(Seq::empty(), merged0.subrange(0, done), p@);
                        assert(merged0.subrange(0, done).push(p@) =~= merged0.subrange(
                            0,
                            done + 1,
                        ));
                        done = done + 1;
                    }
                },
                Err(e) => {
                    proof {
                        crate::polygon::lemma_clip_fail_min(p@, 0);
                        assert(p@.len() == plen);
                        assert(clip_run(
                            merge_all(self.spec_polygons(), self.spec_holes())[done],
                            0,
                        ).1 is Some);
                        lemma_first_fail_at(merged0, 0, done);
                    }
                    return Err(e);
                },
            }
        }
        proof {
            let merged = merge_all(self.spec_polygons(), self.spec_holes());
            assert forall|i: int| 0 <= i < merged.len() implies (#[trigger] clip_run(
                merged[i],
                0,
            ).1) is None by {
                assert(clip_run(merged0[i], 0).1 is None);
            }
            assert forall|i: int, j: int|
                0 <= i < points.verts().len() && 0 <= j < points.verts().len() && i != j implies
                points.verts()[i] != points.verts()[j] by {
                points.lemma_distinct(i, j);
            }
        }
        proof {
            assert(merged0.subrange(0, done) =~= merged0);
        }
        let verts = points.into_vertices();
        Ok((verts, triangles))
    }
}

/// Assembles a whole glyph: no outline means no mesh (the advance is kept);
/// an outline is triangulated into a mesh carrying the outline's bounding
/// rectangle.
pub fn glyph(outline: Option<(Rect, Triangulator)>, hor_advance: u16) -> (r: Result<
    Glyph,
    TriangulateError,
>)
    requires
        match outline {
            Some(o) => o.1.wf(),
            None => true,
        },
    ensures
        match outline {
            None => r matches Ok(g) && g.hor_advance == hor_advance && g.mesh is None,
            Some(o) => {
                &&& o.1.spec_cubic() ==> r == Err::<Glyph, TriangulateError>(
                    TriangulateError::UnsupportedCurve,
                )
                &&& !o.1.spec_cubic() ==> ((r is Ok) <==> (forall|i: int|
                    0 <= i < merge_all(o.1.spec_polygons(), o.1.spec_holes()).len() ==> (
                    #[trigger] clip_run(
                        merge_all(o.1.spec_polygons(), o.1.spec_holes())[i],
                        0,
                    ).1) is None))
                &&& match r {
                    Ok(g) => {
                        &&& g.hor_advance == hor_advance
                        &&& g.mesh matches Some(m) && m.rect == o.0 && m.vertices@ == clip_mesh(
                            merge_all(o.1.spec_polygons(), o.1.spec_holes()),
                        ).0 && m.indices@.map_values(|u: usize| u as int) == clip_mesh(
                            merge_all(o.1.spec_polygons(), o.1.spec_holes()),
                        ).1 && m.indices@.len() % 3 == 0 && in_bounds(
                            m.indices@,
                            m.vertices@.len() as int,
                        ) && covers(m.indices@, m.vertices@.len() as int) && (forall|i: int, j: int|
                            0 <= i < m.vertices@.len() && 0 <= j < m.vertices@.len() && i != j
                                ==> m.vertices@[i] != m.vertices@[j])
                    },
                    Err(e) => if o.1.spec_cubic() {
                        e == TriangulateError::UnsupportedCurve
                    } else {
                        &&& first_fail(merge_all(o.1.spec_polygons(), o.1.spec_holes()), 0) matches
                            Some(fi) && clip_run(
                            merge_all(o.1.spec_polygons(), o.1.spec_holes())[fi],
                            0,
                        ).1 matches Some(rem) && e == (TriangulateError::Triangulation {
                            remaining: rem as usize,
                        })
                        &&& e matches TriangulateError::Triangulation { remaining } && remaining
                            >= 3
                    },
                }
            },
        },
{
    match outline {
        None => Ok(Glyph { hor_advance, mesh: None }),
        Some((rect, t)) => {
            match t.triangulate() {
                Ok((vertices, indices)) => Ok(
                    Glyph { hor_advance, mesh: Some(GlyphMesh { rect, vertices, indices }) },
                ),
                Err(e) => Err(e),
            }
        },
    }
}

} // verus!
