//! Ear-clipping triangulation of one simple polygon. Consecutive vertex
//! triples are scanned circularly; a triple is a valid ear when it carries
//! the outer contours' counter-clockwise handedness (non-strictly) and no
//! polygon vertex lies strictly inside its triangle. Each clipped ear's corners are interned into the
//! shared vertex buffer and appended to the flat index list; scanning resumes
//! at the position of the removed vertex.

use vstd::prelude::*;

verus! {

use crate::TriangulateError;
use crate::geometry::{
    Point, prev_idx, spec_is_cw, spec_point_in_triangle, wf_points, is_cw, point_in_triangle,
};
use crate::interner::{Interner, intern_spec};

/// An ordered vertex sequence, implicitly closed.
pub type Polygon = Vec<Point>;

/// The index `off` steps after `s` on a cycle of length `n`.
pub open spec fn wrap_idx(s: int, off: int, n: int) -> int {
    if s + off < n {
        s + off
    } else {
        s + off - n
    }
}

/// The triple ending at vertex `ci` is a valid ear: it is oriented with the
/// outer handedness (counter-clockwise, ties included) and no vertex of the
/// polygon lies strictly inside its triangle.
pub open spec fn spec_ear_at(p: Seq<Point>, ci: int) -> bool {
    let n = p.len() as int;
    let bi = prev_idx(ci, n);
    let ai = prev_idx(bi, n);
    &&& spec_is_cw(p[ci], p[bi], p[ai])
    &&& forall|t: int| 0 <= t < n ==> !spec_point_in_triangle(p[t], p[ai], p[bi], p[ci])
}

/// First valid ear in circular scan order starting `off` steps after `s`.
pub open spec fn find_ear_from(p: Seq<Point>, s: int, off: int) -> Option<int>
    decreases p.len() - off,
{
    if off < 0 || off >= p.len() {
        None
    } else {
        let ci = wrap_idx(s, off, p.len() as int);
        if spec_ear_at(p, ci) {
            Some(ci)
        } else {
            find_ear_from(p, s, off + 1)
        }
    }
}

/// A found ear index is always in range when the scan start is.
pub proof fn lemma_find_ear_in_range(p: Seq<Point>, s: int, off: int)
    requires
        0 <= s <= p.len(),
        0 <= off,
    ensures
        find_ear_from(p, s, off) matches Some(ci) ==> 0 <= ci < p.len(),
    decreases p.len() - off,
{
    if off < p.len() {
        lemma_find_ear_in_range(p, s, off + 1);
    }
}

/// The complete run of the ear-clipping loop on `p`, scanning from `s`: the
/// triangles clipped in order, and the number of vertices left when the scan
/// found no ear (or nothing, when clipping consumed the polygon).
pub open spec fn clip_run(p: Seq<Point>, s: int) -> (Seq<(Point, Point, Point)>, Option<int>)
    decreases p.len(),
{
    if p.len() < 3 {
        (Seq::empty(), None::<int>)
    } else {
        match find_ear_from(p, s, 0) {
            None => (Seq::empty(), Some(p.len() as int)),
            Some(ci) => {
                if 0 <= ci < p.len() {
                    let n = p.len() as int;
                    let bi = prev_idx(ci, n);
                    let ai = prev_idx(bi, n);
                    let tri = (p[ai], p[bi], p[ci]);
                    let p2 = p.remove(bi);
                    let s2 = if bi < p2.len() {
                        bi
                    } else {
                        0
                    };
                    let rest = clip_run(p2, s2);
                    (seq![tri] + rest.0, rest.1)
                } else {
                    (Seq::empty(), Some(p.len() as int))
                }
            },
        }
    }
}

/// On success the loop clips exactly two triangles fewer than it had
/// vertices (and none at all below three vertices).
pub proof fn lemma_clip_run_count(p: Seq<Point>, s: int)
    requires
        0 <= s <= p.len(),
        clip_run(p, s).1 is None,
    ensures
        clip_run(p, s).0.len() == if p.len() >= 3 {
            p.len() - 2
        } else {
            0
        },
    decreases p.len(),
{
    if p.len() >= 3 {
        match find_ear_from(p, s, 0) {
            None => {},
            Some(ci) => {
                lemma_find_ear_in_range(p, s, 0);
                let n = p.len() as int;
                let bi = prev_idx(ci, n);
                let p2 = p.remove(bi);
                let s2 = if bi < p2.len() {
                    bi
                } else {
                    0
                };
                lemma_clip_run_count(p2, s2);
            },
        }
    }
}

/// A failed run always reports at least three remaining vertices.
pub proof fn lemma_clip_fail_min(p: Seq<Point>, s: int)
    requires
        0 <= s <= p.len(),
        clip_run(p, s).1 is Some,
    ensures
        clip_run(p, s).1 matches Some(rem) && 3 <= rem <= p.len(),
    decreases p.len(),
{
    if p.len() >= 3 {
        match find_ear_from(p, s, 0) {
            None => {},
            Some(ci) => {
                lemma_find_ear_in_range(p, s, 0);
                let n = p.len() as int;
                let bi = prev_idx(ci, n);
                let p2 = p.remove(bi);
                let s2 = if bi < p2.len() {
                    bi
                } else {
                    0
                };
                lemma_clip_fail_min(p2, s2);
            },
        }
    }
}

/// Interning the three corners of one triangle, left to right: the evolved
/// vertex buffer and the three assigned indices.
pub open spec fn intern_tri3(verts: Seq<Point>, t: (Point, Point, Point)) -> (
    Seq<Point>,
    Seq<int>,
) {
    let first = intern_spec(verts, t.0);
    let second = intern_spec(first.0, t.1);
    let third = intern_spec(second.0, t.2);
    (third.0, seq![first.1, second.1, third.1])
}

/// Interning a whole run of triangles into the vertex buffer: the evolved
/// buffer and the flat index list of all their corners.
pub open spec fn intern_tris(verts: Seq<Point>, ts: Seq<(Point, Point, Point)>) -> (
    Seq<Point>,
    Seq<int>,
)
    decreases ts.len(),
{
    if ts.len() == 0 {
        (verts, Seq::empty())
    } else {
        let first = intern_tri3(verts, ts[0]);
        let rest = intern_tris(first.0, ts.subrange(1, ts.len() as int));
        (rest.0, first.1 + rest.1)
    }
}

/// Interning one more triangle at the end extends the run's result by that
/// triangle's three indices.
pub proof fn lemma_intern_tris_snoc(
    verts: Seq<Point>,
    ts: Seq<(Point, Point, Point)>,
    t: (Point, Point, Point),
)
    ensures
        intern_tris(verts, ts.push(t)).0 == intern_tri3(intern_tris(verts, ts).0, t).0,
        intern_tris(verts, ts.push(t)).1 == intern_tris(verts, ts).1 + intern_tri3(
            intern_tris(verts, ts).0,
            t,
        ).1,
    decreases ts.len(),
{
    let snoc = ts.push(t);
    if ts.len() == 0 {
        assert(snoc.len() == 1);
        assert(snoc[0] == t);
        let first = intern_tri3(verts, t);
        assert(snoc.subrange(1, 1) =~= Seq::<(Point, Point, Point)>::empty());
        assert(intern_tris(first.0, snoc.subrange(1, 1)) == (first.0, Seq::<int>::empty()));
        assert(intern_tris(verts, snoc) == (first.0, first.1 + Seq::<int>::empty()));
        assert(intern_tris(verts, ts) == (verts, Seq::<int>::empty()));
        assert(first.1 + Seq::<int>::empty() =~= first.1);
        assert(Seq::<int>::empty() + first.1 =~= first.1);
    } else {
        assert(snoc[0] == ts[0]);
        let first = intern_tri3(verts, ts[0]);
        let tail = ts.subrange(1, ts.len() as int);
        assert(snoc.subrange(1, snoc.len() as int) =~= tail.push(t));
        assert(intern_tris(verts, snoc) == (
            intern_tris(first.0, tail.push(t)).0,
            first.1 + intern_tris(first.0, tail.push(t)).1,
        ));
        assert(intern_tris(verts, ts) == (
            intern_tris(first.0, tail).0,
            first.1 + intern_tris(first.0, tail).1,
        ));
        lemma_intern_tris_snoc(first.0, tail, t);
        let mid = intern_tris(first.0, tail);
        let last = intern_tri3(mid.0, t);
        assert(first.1 + (mid.1 + last.1) =~= (first.1 + mid.1) + last.1);
    }
}

/// `b` begins with all of `a`.
pub open spec fn extends<T>(b: Seq<T>, a: Seq<T>) -> bool {
    a.len() <= b.len() && forall|i: int| 0 <= i < a.len() ==> b[i] == a[i]
}

/// Index `i` appears somewhere in `tris`.
pub open spec fn appears(tris: Seq<usize>, i: int) -> bool {
    exists|t: int| 0 <= t < tris.len() && (#[trigger] tris[t]) as int == i
}

/// Every index below `n` appears somewhere in `tris`.
pub open spec fn covers(tris: Seq<usize>, n: int) -> bool {
    forall|i: int| 0 <= i < n ==> #[trigger] appears(tris, i)
}

/// Every index in `tris` is below `n`.
pub open spec fn in_bounds(tris: Seq<usize>, n: int) -> bool {
    forall|t: int| 0 <= t < tris.len() ==> tris[t] < n
}

/// Is the triple ending at `ci` a valid ear of `poly`?
fn ear_at(poly: &Vec<Point>, ci: usize) -> (r: bool)
    requires
        wf_points(poly@),
        poly@.len() >= 1,
        ci < poly@.len(),
    ensures
        r == spec_ear_at(poly@, ci as int),
{
    let n = poly.len();
    let bi = if ci == 0 {
        n - 1
    } else {
        ci - 1
    };
    let ai = if bi == 0 {
        n - 1
    } else {
        bi - 1
    };
    let a = poly[ai];
    let b = poly[bi];
    let c = poly[ci];
    if !is_cw(c, b, a) {
        return false;
    }
    let mut t: usize = 0;
    while t < n
        invariant
            wf_points(poly@),
            poly@.len() == n,
            ai < n,
            bi < n,
            ci < n,
            bi as int == prev_idx(ci as int, n as int),
            ai as int == prev_idx(bi as int, n as int),
            a == poly@[ai as int],
            b == poly@[bi as int],
            c == poly@[ci as int],
            0 <= t <= n,
            forall|u: int| 0 <= u < t ==> !spec_point_in_triangle(poly@[u], a, b, c),
        decreases n - t,
    {
        if point_in_triangle(poly[t], a, b, c) {
            proof {
                assert(spec_point_in_triangle(poly@[t as int], a, b, c));
            }
            return false;
        }
        t = t + 1;
    }
    true
}

/// First valid ear of `poly` in circular scan order starting at `s`.
fn find_ear(poly: &Vec<Point>, s: usize) -> (r: Option<usize>)
    requires
        wf_points(poly@),
        poly@.len() >= 1,
        s < poly@.len(),
    ensures
        match r {
            Some(ci) => ci < poly@.len() && find_ear_from(poly@, s as int, 0) == Some(ci as int),
            None => find_ear_from(poly@, s as int, 0) is None,
        },
{
    let n = poly.len();
    let mut off: usize = 0;
    while off < n
        invariant
            wf_points(poly@),
            poly@.len() == n,
            n >= 1,
            s < n,
            0 <= off <= n,
            find_ear_from(poly@, s as int, 0) == find_ear_from(poly@, s as int, off as int),
        decreases n - off,
    {
        let ci = if off < n - s {
            s + off
        } else {
            off - (n - s)
        };
        proof {
            assert(ci as int == wrap_idx(s as int, off as int, n as int));
        }
        if ear_at(poly, ci) {
            return Some(ci);
        }
        off = off + 1;
    }
    None
}

/// Triangulates one simple polygon by ear clipping, interning each clipped
/// corner into the shared vertex buffer and appending index triples to the
/// shared triangle list. Fails, reporting the remaining vertex count, when a
/// full circular scan finds no ear while at least three vertices remain.
#[verifier::rlimit(50)]
pub fn triangulate(
    polygon: Polygon,
    points: &mut Interner,
    triangles: &mut Vec<usize>,
) -> (r: Result<(), TriangulateError>)
    requires
        wf_points(polygon@),
        old(points).wf(),
        in_bounds(old(triangles)@, old(points).verts().len() as int),
        covers(old(triangles)@, old(points).verts().len() as int),
    ensures
        final(points).wf(),
        extends(final(points).verts(), old(points).verts()),
        extends(final(triangles)@, old(triangles)@),
        in_bounds(final(triangles)@, final(points).verts().len() as int),
        covers(final(triangles)@, final(points).verts().len() as int),
        final(triangles)@.len() == old(triangles)@.len() + 3 * clip_run(polygon@, 0).0.len(),
        final(points).verts() == intern_tris(old(points).verts(), clip_run(polygon@, 0).0).0,
        final(triangles)@.map_values(|u: usize| u as int) == old(triangles)@.map_values(
            |u: usize| u as int,
        ) + intern_tris(old(points).verts(), clip_run(polygon@, 0).0).1,
        forall|j: int|
            0 <= j < clip_run(polygon@, 0).0.len() ==> {
                let tri = #[trigger] clip_run(polygon@, 0).0[j];
                let base = old(triangles)@.len() + 3 * j;
                &&& final(points).verts()[final(triangles)@[base] as int] == tri.0
                &&& final(points).verts()[final(triangles)@[base + 1] as int] == tri.1
                &&& final(points).verts()[final(triangles)@[base + 2] as int] == tri.2
            },
        r == (match clip_run(polygon@, 0).1 {
            None => Ok::<(), TriangulateError>(()),
            Some(rem) => Err::<(), TriangulateError>(
                (TriangulateError::Triangulation { remaining: rem as usize }),
            ),
        }),
{
    let ghost orig = polygon@;
    let ghost tris0 = old(triangles)@;
    let ghost verts0 = old(points).verts();
    let ghost mut emitted: Seq<(Point, Point, Point)> = Seq::empty();
    let mut poly = polygon;
    let mut s: usize = 0;
    proof {
        assert(intern_tris(verts0, emitted) == (verts0, Seq::<int>::empty()));
        assert(tris0.map_values(|u: usize| u as int) + Seq::<int>::empty() =~= tris0.map_values(
            |u: usize| u as int,
        ));
    }
    while poly.len() >= 3
        invariant
            orig == polygon@,
            verts0 == old(points).verts(),
            tris0 == old(triangles)@,
            wf_points(poly@),
            points.wf(),
            poly@.len() >= 3 ==> s < poly@.len(),
            extends(points.verts(), verts0),
            extends(triangles@, tris0),
            in_bounds(triangles@, points.verts().len() as int),
            covers(triangles@, points.verts().len() as int),
            triangles@.len() == tris0.len() + 3 * emitted.len(),
            points.verts() == intern_tris(verts0, emitted).0,
            triangles@.map_values(|u: usize| u as int) == tris0.map_values(|u: usize| u as int)
                + intern_tris(verts0, emitted).1,
            clip_run(orig, 0).0 == emitted + clip_run(poly@, s as int).0,
            clip_run(orig, 0).1 == clip_run(poly@, s as int).1,
            forall|j: int|
                0 <= j < emitted.len() ==> {
                    let etri = #[trigger] emitted[j];
                    let base = tris0.len() + 3 * j;
                    &&& points.verts()[triangles@[base] as int] == etri.0
                    &&& points.verts()[triangles@[base + 1] as int] == etri.1
                    &&& points.verts()[triangles@[base + 2] as int] == etri.2
                },
        decreases poly@.len(),
    {
        let ghost poly_pre = poly@;
        let ghost s_pre = s as int;
        match find_ear(&poly, s) {
            None => {
                proof {
                    assert(clip_run(poly_pre, s_pre).1 == Some(poly_pre.len() as int));
                    assert(clip_run(poly_pre, s_pre).0 == Seq::<(Point, Point, Point)>::empty());
                    assert(emitted + clip_run(poly_pre, s_pre).0 =~= emitted);
                    let cr = clip_run(orig, 0).0;
                    assert(cr == emitted);
                    assert forall|j: int| 0 <= j < cr.len() implies {
                        let tri = #[trigger] cr[j];
                        let base = tris0.len() + 3 * j;
                        &&& points.verts()[triangles@[base] as int] == tri.0
                        &&& points.verts()[triangles@[base + 1] as int] == tri.1
                        &&& points.verts()[triangles@[base + 2] as int] == tri.2
                    } by {
                        assert(cr[j] == emitted[j]);
                    }
                    assert(extends(points.verts(), verts0));
                    assert(extends(triangles@, tris0));
                }
                return Err(TriangulateError::Triangulation { remaining: poly.len() });
            },
            Some(ci) => {
                let n = poly.len();
                let bi = if ci == 0 {
                    n - 1
                } else {
                    ci - 1
                };
                let ai = if bi == 0 {
                    n - 1
                } else {
                    bi - 1
                };
                let a = poly[ai];
                let b = poly[bi];
                let c = poly[ci];
                let ghost verts_pre = points.verts();
                let ghost tris_pre = triangles@;
                let ia = points.intern(a);
                triangles.push(ia);
                let ib = points.intern(b);
                triangles.push(ib);
                let ic = points.intern(c);
                triangles.push(ic);
                poly.remove(bi);
                s = if bi < poly.len() {
                    bi
                } else {
                    0
                };
                proof {
                    let tri = (a, b, c);
                    let rest = clip_run(poly@, s as int);
                    assert(poly@ =~= poly_pre.remove(bi as int));
                    assert(clip_run(poly_pre, s_pre).0 == seq![tri] + rest.0);
                    assert(clip_run(poly_pre, s_pre).1 == rest.1);
                    assert(emitted + (seq![tri] + rest.0) =~= emitted.push(tri) + rest.0);
                    let emitted_pre = emitted;
                    emitted = emitted.push(tri);
                    assert(triangles@ =~= tris_pre + seq![ia, ib, ic]);
                    assert(points.verts()[ia as int] == a);
                    assert(points.verts()[ib as int] == b);
                    assert(points.verts()[ic as int] == c);
                    lemma_intern_tris_snoc(verts0, emitted_pre, tri);
                    assert(verts_pre == intern_tris(verts0, emitted_pre).0);
                    assert(points.verts() == intern_tri3(verts_pre, tri).0);
                    assert(intern_tri3(verts_pre, tri).1 =~= seq![ia as int, ib as int, ic as int]);
                    assert(points.verts() == intern_tris(verts0, emitted).0);
                    assert(triangles@.map_values(|u: usize| u as int) =~= tris_pre.map_values(
                        |u: usize| u as int,
                    ) + seq![ia as int, ib as int, ic as int]);
                    assert(tris0.map_values(|u: usize| u as int) + (intern_tris(
                        verts0,
                        emitted_pre,
                    ).1 + intern_tri3(verts_pre, tri).1) =~= (tris0.map_values(|u: usize| u as int)
                        + intern_tris(verts0, emitted_pre).1) + intern_tri3(verts_pre, tri).1);
                    assert(tris0.map_values(|u: usize| u as int) + intern_tris(verts0, emitted).1
                        == triangles@.map_values(|u: usize| u as int));
                    assert forall|j: int| 0 <= j < emitted.len() implies {
                        let etri = #[trigger] emitted[j];
                        let base = tris0.len() + 3 * j;
                        &&& points.verts()[triangles@[base] as int] == etri.0
                        &&& points.verts()[triangles@[base + 1] as int] == etri.1
                        &&& points.verts()[triangles@[base + 2] as int] == etri.2
                    } by {
                        if j < emitted.len() - 1 {
                            assert(tris_pre[tris0.len() + 3 * j] == triangles@[tris0.len() + 3
                                * j]);
                            assert(tris_pre[tris0.len() + 3 * j + 1] == triangles@[tris0.len() + 3
                                * j + 1]);
                            assert(tris_pre[tris0.len() + 3 * j + 2] == triangles@[tris0.len() + 3
                                * j + 2]);
                        } else {
                            assert(triangles@[tris0.len() + 3 * j] == ia);
                            assert(triangles@[tris0.len() + 3 * j + 1] == ib);
                            assert(triangles@[tris0.len() + 3 * j + 2] == ic);
                        }
                    }
                    assert(covers(triangles@, points.verts().len() as int)) by {
                        lemma_cover_step(
                            tris_pre,
                            triangles@,
                            verts_pre,
                            points.verts(),
                            ia,
                            ib,
                            ic,
                        );
                    }
                }
            },
        }
    }
    proof {
        assert(clip_run(poly@, s as int).0 == Seq::<(Point, Point, Point)>::empty());
        assert(emitted + clip_run(poly@, s as int).0 =~= emitted);
        let cr = clip_run(orig, 0).0;
        assert(cr == emitted);
        assert forall|j: int| 0 <= j < cr.len() implies {
            let tri = #[trigger] cr[j];
            let base = tris0.len() + 3 * j;
            &&& points.verts()[triangles@[base] as int] == tri.0
            &&& points.verts()[triangles@[base + 1] as int] == tri.1
            &&& points.verts()[triangles@[base + 2] as int] == tri.2
        } by {
            assert(cr[j] == emitted[j]);
        }
    }
    Ok(())
}

/// Pushing the indices of up to three freshly interned corners keeps every
/// vertex referenced by some triangle.
proof fn lemma_cover_step(
    tris_pre: Seq<usize>,
    tris_post: Seq<usize>,
    verts_pre: Seq<Point>,
    verts_post: Seq<Point>,
    ia: usize,
    ib: usize,
    ic: usize,
)
    requires
        covers(tris_pre, verts_pre.len() as int),
        tris_post == tris_pre + seq![ia, ib, ic],
        verts_pre.len() <= verts_post.len() <= verts_pre.len() + 3,
        verts_post.len() > verts_pre.len() ==> ia as int == verts_pre.len() || ib as int
            == verts_pre.len() || ic as int == verts_pre.len(),
        verts_post.len() > verts_pre.len() + 1 ==> ib as int == verts_pre.len() + 1 || ic as int
            == verts_pre.len() + 1,
        verts_post.len() > verts_pre.len() + 2 ==> ic as int == verts_pre.len() + 2,
    ensures
        covers(tris_post, verts_post.len() as int),
{
    assert forall|i: int| 0 <= i < verts_post.len() implies appears(tris_post, i) by {
        if i < verts_pre.len() {
            assert(appears(tris_pre, i));
            let t = choose|t: int| 0 <= t < tris_pre.len() && (#[trigger] tris_pre[t]) as int == i;
            assert(tris_post[t] as int == i);
        } else {
            if ia as int == i {
                assert(tris_post[tris_pre.len() as int] as int == i);
            } else if ib as int == i {
                assert(tris_post[tris_pre.len() as int + 1] as int == i);
            } else {
                assert(tris_post[tris_pre.len() as int + 2] as int == i);
            }
        }
    }
}

} // verus!
