//! Quadratic-curve flattening: a non-restartable iterator that samples the
//! curve parameter in one-hundredth increments, computes each De Casteljau
//! point exactly (as a numerator over a fixed denominator of ten thousand),
//! and emits a grid-floored point only when it is far enough from the last
//! emitted point and from the curve's endpoint.

use vstd::prelude::*;

verus! {

use crate::geometry::{Point, MAX_COORD, wf_point, lemma_mul_bound};

/// Largest magnitude a sample numerator can take: `MAX_COORD` times the
/// common denominator of ten thousand.
pub const SAMPLE_MAX: i64 = 5_368_709_120_000;

/// Squared-distance floor (in numerator units) between two emitted samples:
/// a spacing of 64 design units, squared and scaled by the squared
/// denominator.
pub const MIN_SPACING2: i128 = 409_600_000_000;

/// Squared-distance floor (in numerator units) between an emitted sample and
/// the curve endpoint: a clearance of 32 design units, squared and scaled by
/// the squared denominator.
pub const END_CLEARANCE2: i128 = 102_400_000_000;

/// Numerator (over the common denominator of ten thousand) of one coordinate
/// of the De Casteljau point of the quadratic with control values `a`, `b`,
/// `c` at parameter `k / 100`.
pub open spec fn decas_num(a: int, b: int, c: int, k: int) -> int {
    a * ((100 - k) * (100 - k)) + 2 * b * (k * (100 - k)) + c * (k * k)
}

/// `-b <= x <= b` and `0 <= y` bound the product by `b * y`.
pub proof fn lemma_mul_le(x: int, y: int, b: int)
    by (nonlinear_arith)
    requires
        -b <= x <= b,
        0 <= y,
    ensures
        -(b * y) <= x * y <= b * y,
{
}

/// The De Casteljau numerator stays within the convex hull of its three
/// control values, scaled by the denominator.
pub proof fn lemma_decas_bounds(a: int, b: int, c: int, k: int)
    requires
        -(MAX_COORD as int) <= a <= MAX_COORD as int,
        -(MAX_COORD as int) <= b <= MAX_COORD as int,
        -(MAX_COORD as int) <= c <= MAX_COORD as int,
        0 <= k <= 100,
    ensures
        -(SAMPLE_MAX as int) <= decas_num(a, b, c, k) <= SAMPLE_MAX as int,
{
    let u = 100 - k;
    let w1 = u * u;
    let w2 = k * u;
    let w3 = k * k;
    assert(w1 >= 0 && w2 >= 0 && w3 >= 0 && w1 + 2 * w2 + w3 == 10000) by (nonlinear_arith)
        requires
            0 <= k <= 100,
            u == 100 - k,
            w1 == u * u,
            w2 == k * u,
            w3 == k * k,
    ;
    lemma_mul_le(a, w1, MAX_COORD as int);
    lemma_mul_le(2 * b, w2, 2 * (MAX_COORD as int));
    lemma_mul_le(c, w3, MAX_COORD as int);
    assert(decas_num(a, b, c, k) == a * w1 + (2 * b) * w2 + c * w3);
}

/// Whether the sample at step `k` qualifies for emission, given the (exact,
/// unfloored) numerator `(cx, cy)` of the last emitted point.
pub open spec fn spec_emits(a: Point, b: Point, c: Point, k: int, cx: int, cy: int) -> bool {
    let sx = decas_num(a.x as int, b.x as int, c.x as int, k);
    let sy = decas_num(a.y as int, b.y as int, c.y as int, k);
    let dx = sx - cx;
    let dy = sy - cy;
    let ex = sx - c.x * 10000;
    let ey = sy - c.y * 10000;
    dx * dx + dy * dy >= MIN_SPACING2 as int && ex * ex + ey * ey >= END_CLEARANCE2 as int
}

/// The sample at step `k`, floored onto the integer grid.
pub open spec fn spec_sample(a: Point, b: Point, c: Point, k: int) -> Point {
    Point {
        x: (decas_num(a.x as int, b.x as int, c.x as int, k) / 10000) as i32,
        y: (decas_num(a.y as int, b.y as int, c.y as int, k) / 10000) as i32,
    }
}

/// The points still to be emitted from step `k` on, given the numerator
/// `(cx, cy)` of the last emitted point.
pub open spec fn quad_rem(a: Point, b: Point, c: Point, k: int, cx: int, cy: int) -> Seq<Point>
    decreases 100 - k,
{
    if k < 0 || k >= 100 {
        Seq::empty()
    } else if spec_emits(a, b, c, k, cx, cy) {
        seq![spec_sample(a, b, c, k)] + quad_rem(
            a,
            b,
            c,
            k + 1,
            decas_num(a.x as int, b.x as int, c.x as int, k),
            decas_num(a.y as int, b.y as int, c.y as int, k),
        )
    } else {
        quad_rem(a, b, c, k + 1, cx, cy)
    }
}

/// Computes one coordinate's sample numerator at step `k`.
fn sample_num(a: i32, b: i32, c: i32, k: u32) -> (r: i64)
    requires
        -MAX_COORD <= a <= MAX_COORD,
        -MAX_COORD <= b <= MAX_COORD,
        -MAX_COORD <= c <= MAX_COORD,
        k < 100,
    ensures
        r as int == decas_num(a as int, b as int, c as int, k as int),
        -SAMPLE_MAX <= r <= SAMPLE_MAX,
{
    let kk = k as i64;
    let u = 100 - kk;
    proof {
        lemma_mul_bound(u as int, u as int, 100, 100);
        lemma_mul_bound(kk as int, u as int, 100, 100);
        lemma_mul_bound(kk as int, kk as int, 100, 100);
    }
    let w1 = u * u;
    let w2 = kk * u;
    let w3 = kk * kk;
    let tb = 2 * (b as i64);
    proof {
        lemma_mul_le(a as int, w1 as int, MAX_COORD as int);
        lemma_mul_le(tb as int, w2 as int, 2 * (MAX_COORD as int));
        lemma_mul_le(c as int, w3 as int, MAX_COORD as int);
        lemma_decas_bounds(a as int, b as int, c as int, k as int);
        assert(decas_num(a as int, b as int, c as int, k as int) == (a as int) * (w1 as int) + (2
            * (b as int)) * (w2 as int) + (c as int) * (w3 as int));
    }
    a as i64 * w1 + tb * w2 + c as i64 * w3
}

/// Floor division of a sample numerator by the common denominator.
fn floor_div_denom(n: i64) -> (r: i64)
    requires
        -SAMPLE_MAX <= n <= SAMPLE_MAX,
    ensures
        r as int == n as int / 10000,
        -MAX_COORD <= r <= MAX_COORD,
{
    if n >= 0 {
        n / 10000
    } else {
        -((-n + 9999) / 10000)
    }
}

/// A finite, non-restartable source of the line-approximation points of one
/// quadratic segment from `a` to `c` with control point `b`; the endpoint `c`
/// itself is never emitted.
pub struct QuadIterator {
    k: u32,
    cx: i64,
    cy: i64,
    a: Point,
    b: Point,
    c: Point,
}

impl QuadIterator {
    /// Control points are well formed, the step index is in range, and the
    /// last emitted numerator is in sample range.
    pub closed spec fn wf(self) -> bool {
        &&& wf_point(self.a)
        &&& wf_point(self.b)
        &&& wf_point(self.c)
        &&& 0 <= self.k <= 100
        &&& -SAMPLE_MAX <= self.cx <= SAMPLE_MAX
        &&& -SAMPLE_MAX <= self.cy <= SAMPLE_MAX
    }

    /// The start point of the segment being flattened.
    pub closed spec fn start(self) -> Point {
        self.a
    }

    /// The control point of the segment being flattened.
    pub closed spec fn control(self) -> Point {
        self.b
    }

    /// The endpoint of the segment being flattened.
    pub closed spec fn end(self) -> Point {
        self.c
    }

    /// The points this iterator has yet to emit.
    pub closed spec fn remaining(self) -> Seq<Point> {
        quad_rem(self.a, self.b, self.c, self.k as int, self.cx as int, self.cy as int)
    }

    /// Emits the next qualifying sample, or nothing when the curve is
    /// exhausted.
    pub fn next(&mut self) -> (r: Option<Point>)
        requires
            old(self).wf(),
        ensures
            final(self).wf(),
            final(self).start() == old(self).start(),
            final(self).control() == old(self).control(),
            final(self).end() == old(self).end(),
            match r {
                Some(p) => old(self).remaining().len() > 0 && p == old(self).remaining()[0]
                    && wf_point(p) && final(self).remaining() == old(self).remaining().subrange(
                    1,
                    old(self).remaining().len() as int,
                ),
                None => old(self).remaining().len() == 0 && final(self).remaining()
                    == old(self).remaining(),
            },
    {
        while self.k < 100
            invariant
                self.wf(),
                self.a == old(self).a,
                self.b == old(self).b,
                self.c == old(self).c,
                self.remaining() == old(self).remaining(),
            decreases 100 - self.k,
        {
            let sx = sample_num(self.a.x, self.b.x, self.c.x, self.k);
            let sy = sample_num(self.a.y, self.b.y, self.c.y, self.k);
            let dx = (sx - self.cx) as i128;
            let dy = (sy - self.cy) as i128;
            let ex = (sx - self.c.x as i64 * 10000) as i128;
            let ey = (sy - self.c.y as i64 * 10000) as i128;
            proof {
                lemma_mul_bound(dx as int, dx as int, 0x100_0000_0000_000, 0x100_0000_0000_000);
                lemma_mul_bound(dy as int, dy as int, 0x100_0000_0000_000, 0x100_0000_0000_000);
                lemma_mul_bound(ex as int, ex as int, 0x100_0000_0000_000, 0x100_0000_0000_000);
                lemma_mul_bound(ey as int, ey as int, 0x100_0000_0000_000, 0x100_0000_0000_000);
            }
            let d2 = dx * dx + dy * dy;
            let e2 = ex * ex + ey * ey;
            if d2 >= MIN_SPACING2 && e2 >= END_CLEARANCE2 {
                let px = floor_div_denom(sx);
                let py = floor_div_denom(sy);
                let p = Point { x: px as i32, y: py as i32 };
                proof {
                    assert(spec_emits(self.a, self.b, self.c, self.k as int, self.cx as int, self.cy as int));
                    assert(p == spec_sample(self.a, self.b, self.c, self.k as int));
                }
                self.cx = sx;
                self.cy = sy;
                self.k = self.k + 1;
                proof {
                    assert(old(self).remaining() == seq![p] + self.remaining());
                    assert(self.remaining() == old(self).remaining().subrange(
                        1,
                        old(self).remaining().len() as int,
                    ));
                }
                return Some(p);
            }
            proof {
                assert(!spec_emits(self.a, self.b, self.c, self.k as int, self.cx as int, self.cy as int));
            }
            self.k = self.k + 1;
        }
        None
    }
}

/// Starts flattening the quadratic segment from `a` to `c` with control
/// point `b`.
pub fn quad(a: Point, b: Point, c: Point) -> (r: QuadIterator)
    requires
        wf_point(a),
        wf_point(b),
        wf_point(c),
    ensures
        r.wf(),
        r.start() == a,
        r.control() == b,
        r.end() == c,
        r.remaining() == quad_rem(a, b, c, 0, a.x * 10000, a.y * 10000),
{
    QuadIterator { k: 0, cx: a.x as i64 * 10000, cy: a.y as i64 * 10000, a, b, c }
}

} // verus!
