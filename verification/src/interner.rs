//! Vertex interning: deduplicates coincident points into stable, dense,
//! first-seen-order indices. Point identity is exact coordinate equality,
//! realised by packing both coordinates into one unsigned integer key that a
//! hash table maps to the assigned index.

use vstd::prelude::*;

verus! {

use crate::geometry::Point;

/// The packed key of a point: both coordinates, offset into unsigned range,
/// side by side in one integer.
pub open spec fn key_of(p: Point) -> int {
    (p.x + 0x8000_0000) * 0x1_0000_0000 + (p.y + 0x8000_0000)
}

/// The packed key as the unsigned word the table is keyed by.
pub open spec fn key64(p: Point) -> u64 {
    key_of(p) as u64
}

/// The packed key always fits the unsigned word.
pub proof fn lemma_key_in_range(p: Point)
    ensures
        0 <= key_of(p) < 0x1_0000_0000_0000_0000,
        key64(p) as int == key_of(p),
{
}

/// Packing both coordinates into one key loses nothing.
pub proof fn lemma_key_injective(p: Point, q: Point)
    requires
        key_of(p) == key_of(q),
    ensures
        p == q,
{
}

/// Hash table from packed point key to assigned vertex index, kept behind a
/// sealed wall: the verifier sees it only through [`table_map`] and the
/// contracts below.
#[verifier::external_body]
pub struct PointTable {
    map: hashbrown::HashMap<u64, usize, fhash::RandomState>,
}

/// The contents of a [`PointTable`] as a mathematical map.
pub uninterp spec fn table_map(t: PointTable) -> Map<u64, usize>;

impl PointTable {
    /// Relies on `hashbrown::HashMap::default`: a fresh map is empty.
    #[verifier::external_body]
    pub fn new() -> (r: PointTable)
        ensures
            table_map(r).dom() == Set::<u64>::empty(),
    {
        PointTable { map: hashbrown::HashMap::default() }
    }

    /// Relies on `hashbrown::HashMap::get`: returns the value stored under
    /// the key, or nothing when the key is absent.
    #[verifier::external_body]
    pub fn get(&self, k: u64) -> (r: Option<usize>)
        ensures
            r == if table_map(*self).dom().contains(k) {
                Some(table_map(*self)[k])
            } else {
                None::<usize>
            },
    {
        match self.map.get(&k) {
            Some(v) => Some(*v),
            None => None,
        }
    }

    /// Relies on `hashbrown::HashMap::insert`: stores the value under the
    /// key, replacing any previous entry.
    #[verifier::external_body]
    pub fn insert(&mut self, k: u64, v: usize)
        ensures
            table_map(*final(self)) == table_map(*old(self)).insert(k, v),
    {
        self.map.insert(k, v);
    }
}

/// Computes the packed key of a point.
pub fn point_key(p: Point) -> (r: u64)
    ensures
        r == key64(p),
{
    proof {
        lemma_key_in_range(p);
    }
    let x = (p.x as i64 + 0x8000_0000) as u64;
    let y = (p.y as i64 + 0x8000_0000) as u64;
    x * 0x1_0000_0000 + y
}

/// Index of the first occurrence of `p` in `verts` at or after `i`, or the
/// length when `p` does not occur.
pub open spec fn first_index_of(verts: Seq<Point>, p: Point, i: int) -> int
    decreases verts.len() - i,
{
    if i < 0 || i >= verts.len() {
        verts.len() as int
    } else if verts[i] == p {
        i
    } else {
        first_index_of(verts, p, i + 1)
    }
}

/// Interning one point: an already-seen point keeps the buffer and yields
/// its first-occurrence index; a new point is appended and yields the next
/// dense index.
pub open spec fn intern_spec(verts: Seq<Point>, p: Point) -> (Seq<Point>, int) {
    let i = first_index_of(verts, p, 0);
    if i < verts.len() {
        (verts, i)
    } else {
        (verts.push(p), i)
    }
}

/// `first_index_of` finds `r` when `p` sits at `r` and nowhere earlier.
proof fn lemma_first_index_found(verts: Seq<Point>, p: Point, i: int, r: int)
    requires
        0 <= i <= r < verts.len(),
        verts[r] == p,
        forall|j: int| i <= j < r ==> verts[j] != p,
    ensures
        first_index_of(verts, p, i) == r,
    decreases r - i,
{
    if i < r {
        lemma_first_index_found(verts, p, i + 1, r);
    }
}

/// `first_index_of` reports the length when `p` occurs nowhere from `i` on.
proof fn lemma_first_index_missing(verts: Seq<Point>, p: Point, i: int)
    requires
        0 <= i,
        forall|j: int| i <= j < verts.len() ==> verts[j] != p,
    ensures
        first_index_of(verts, p, i) == verts.len(),
    decreases verts.len() - i,
{
    if i < verts.len() {
        lemma_first_index_missing(verts, p, i + 1);
    }
}

/// Assigns each distinct point a dense index in first-seen order.
pub struct Interner {
    table: PointTable,
    vertices: Vec<Point>,
}

impl Interner {
    /// The vertex buffer in assignment order.
    pub closed spec fn verts(self) -> Seq<Point> {
        self.vertices@
    }

    /// The table mirrors the vertex buffer exactly: each vertex's key maps to
    /// its index, and nothing else is stored.
    pub closed spec fn wf(self) -> bool {
        &&& forall|i: int|
            0 <= i < self.vertices@.len() ==> table_map(self.table).dom().contains(
                key64(#[trigger] self.vertices@[i]),
            ) && table_map(self.table)[key64(self.vertices@[i])] == i
        &&& forall|k: u64|
            #[trigger] table_map(self.table).dom().contains(k) ==> exists|i: int|
                0 <= i < self.vertices@.len() && k == key64(self.vertices@[i])
    }

    /// No two distinct indices hold the same point.
    pub proof fn lemma_distinct(self, i: int, j: int)
        requires
            self.wf(),
            0 <= i < self.verts().len(),
            0 <= j < self.verts().len(),
            i != j,
        ensures
            self.verts()[i] != self.verts()[j],
    {
        if self.verts()[i] == self.verts()[j] {
            assert(table_map(self.table)[key64(self.vertices@[i])] == i);
            assert(table_map(self.table)[key64(self.vertices@[j])] == j);
        }
    }

    /// An empty interner.
    pub fn new() -> (r: Interner)
        ensures
            r.wf(),
            r.verts() == Seq::<Point>::empty(),
    {
        let r = Interner { table: PointTable::new(), vertices: Vec::new() };
        proof {
            assert(r.vertices@.len() == 0);
        }
        r
    }

    /// Returns the index of `p`, assigning the next dense index when `p` has
    /// not been seen before.
    pub fn intern(&mut self, p: Point) -> (r: usize)
        requires
            old(self).wf(),
        ensures
            final(self).wf(),
            r < final(self).verts().len(),
            final(self).verts()[r as int] == p,
            final(self).verts() == intern_spec(old(self).verts(), p).0,
            r as int == intern_spec(old(self).verts(), p).1,
            if old(self).verts().contains(p) {
                final(self).verts() == old(self).verts() && old(self).verts()[r as int] == p
            } else {
                r == old(self).verts().len() && final(self).verts() == old(self).verts().push(p)
            },
    {
        let k = point_key(p);
        match self.table.get(k) {
            Some(i) => {
                proof {
                    let tm = table_map(self.table);
                    let vs = self.vertices@;
                    let wit = choose|w: int| 0 <= w < vs.len() && k == key64(vs[w]);
                    assert(0 <= wit < vs.len() && k == key64(vs[wit]));
                    lemma_key_in_range(vs[wit]);
                    lemma_key_in_range(p);
                    lemma_key_injective(vs[wit], p);
                    assert(tm[key64(vs[wit])] == wit);
                    assert(i == wit);
                    assert(self.verts().contains(p)) by {
                        assert(vs[wit] == p);
                    }
                    assert forall|j: int| 0 <= j < wit implies vs[j] != p by {
                        if vs[j] == p {
                            self.lemma_distinct(j, wit);
                        }
                    }
                    lemma_first_index_found(vs, p, 0, wit);
                }
                i
            },
            None => {
                let i = self.vertices.len();
                proof {
                    if self.verts().contains(p) {
                        let vs = self.vertices@;
                        let wit = choose|w: int| 0 <= w < vs.len() && vs[w] == p;
                        assert(table_map(self.table).dom().contains(key64(vs[wit])));
                        lemma_key_in_range(p);
                        assert(key64(vs[wit]) == k);
                        assert(false);
                    }
                    assert forall|j: int| 0 <= j < self.vertices@.len() implies self.vertices@[j]
                        != p by {
                        if self.vertices@[j] == p {
                            assert(self.verts().contains(p));
                        }
                    }
                    lemma_first_index_missing(self.vertices@, p, 0);
                }
                self.table.insert(k, i);
                self.vertices.push(p);
                proof {
                    let tm = table_map(self.table);
                    let vs = self.vertices@;
                    let old_tm = table_map(old(self).table);
                    let old_vs = old(self).vertices@;
                    assert forall|j: int| 0 <= j < vs.len() implies tm.dom().contains(
                        key64(#[trigger] vs[j]),
                    ) && tm[key64(vs[j])] == j by {
                        if j < vs.len() - 1 {
                            assert(vs[j] == old_vs[j]);
                            assert(old_tm.dom().contains(key64(old_vs[j])));
                            assert(key64(vs[j]) != k);
                        } else {
                            assert(vs[j] == p);
                            lemma_key_in_range(p);
                        }
                    }
                    assert forall|kk: u64| #[trigger] tm.dom().contains(kk) implies exists|j: int|
                        0 <= j < vs.len() && kk == key64(vs[j]) by {
                        if kk == k {
                            lemma_key_in_range(p);
                            assert(vs[vs.len() - 1] == p);
                            assert(kk == key64(vs[vs.len() - 1]));
                        } else {
                            assert(old_tm.dom().contains(kk));
                            let w = choose|w: int|
                                0 <= w < old_vs.len() && kk == key64(old_vs[w]);
                            assert(vs[w] == old_vs[w]);
                            assert(kk == key64(vs[w]));
                        }
                    }
                }
                i
            },
        }
    }

    /// Hands the vertex buffer out, consuming the interner.
    pub fn into_vertices(self) -> (r: Vec<Point>)
        ensures
            r@ == self.verts(),
    {
        self.vertices
    }
}

} // verus!
