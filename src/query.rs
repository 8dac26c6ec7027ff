use vstd::prelude::*;

use crate::mesh::{corner_next, Mesh, MeshView};
use crate::soup::lemma_halfedge_split;

verus! {

impl<P> MeshView<P> {
    /// `h` after following `next` `k` times.
    pub open spec fn next_pow(self, h: int, k: nat) -> int
        decreases k,
    {
        if k == 0 {
            h
        } else {
            self.next(self.next_pow(h, (k - 1) as nat)) as int
        }
    }

    /// Following `next` from the anchor of face `f` first comes back to it
    /// after `d` steps.
    pub open spec fn face_loop(self, f: int, d: nat) -> bool {
        let h0 = self.faces[f].halfedge as int;
        &&& d >= 1
        &&& self.next_pow(h0, d) == h0
        &&& forall|j: nat| 0 < j < d ==> #[trigger] self.next_pow(h0, j) != h0
    }
}

/// In a well-formed mesh `next` stays in range, is one-to-one, and goes
/// round each triangle in three steps.
pub proof fn lemma_next<P>(m: MeshView<P>, h: int)
    requires
        m.wf(),
        m.is_halfedge(h),
    ensures
        m.is_halfedge(m.next(h) as int),
        m.next(h) != h,
        m.next(m.next(h) as int) != h,
        m.next(m.next(m.next(h) as int) as int) == h,
        m.next(h) / 3 == h / 3,
{
    lemma_halfedge_split(h);
    let a = corner_next(h);
    lemma_halfedge_split(a);
    let b = corner_next(a);
    lemma_halfedge_split(b);
    assert(m.halfedges[h].next == a);
    assert(m.halfedges[a].next == b);
    assert(m.halfedges[b].next == corner_next(b));
}

/// `next` is one-to-one.
pub proof fn lemma_next_injective<P>(m: MeshView<P>, a: int, b: int)
    requires
        m.wf(),
        m.is_halfedge(a),
        m.is_halfedge(b),
        m.next(a) == m.next(b),
    ensures
        a == b,
{
    lemma_next(m, a);
    lemma_next(m, b);
}

impl<P> Mesh<P> {
    /// The vertex that halfedge `h` points to.
    pub fn dest(&self, h: usize) -> (r: usize)
        requires
            self@.wf(),
            h < self@.halfedges.len(),
        ensures
            r == self@.dest(h as int),
    {
        proof {
            lemma_next(self@, h as int);
        }
        let n = self.halfedge(h).next;
        self.halfedge(n).origin
    }

    /// The number of sides of face `f`: how many `next` steps take its
    /// anchor back to itself.
    pub fn face_degree(&self, f: usize) -> (r: usize)
        requires
            self@.wf(),
            f < self@.faces.len(),
        ensures
            self@.face_loop(f as int, r as nat),
    {
        let h0 = self.face(f).halfedge;
        proof {
            assert(self@.faces[f as int].halfedge == 3 * f);
            lemma_next(self@, h0 as int);
        }
        let mut h = self.halfedge(h0).next;
        let mut d: usize = 1;
        assert(self@.next_pow(h0 as int, 0) == h0);
        while h != h0
            invariant
                self@.wf(),
                f < self@.faces.len(),
                h0 == self@.faces[f as int].halfedge,
                self@.is_halfedge(h0 as int),
                1 <= d <= 3,
                h == self@.next_pow(h0 as int, d as nat),
                d == 3 ==> h == h0,
                forall|j: nat| 0 < j < d ==> #[trigger] self@.next_pow(h0 as int, j) != h0,
            decreases 3 - d,
        {
            proof {
                lemma_next(self@, h0 as int);
                assert(self@.next_pow(h0 as int, 0) == h0);
                assert(self@.next_pow(h0 as int, 1) == self@.next(h0 as int));
                assert(self@.next_pow(h0 as int, 2) == self@.next(self@.next(h0 as int) as int));
            }
            h = self.halfedge(h).next;
            d = d + 1;
        }
        d
    }

    /// The vertices of face `f` in loop order, starting at its anchor.
    pub fn face_vertices(&self, f: usize) -> (r: Vec<usize>)
        requires
            self@.wf(),
            f < self@.faces.len(),
        ensures
            self@.face_loop(f as int, r@.len()),
            forall|j: int|
                0 <= j < r@.len() ==> #[trigger] r@[j] == self@.origin(
                    self@.next_pow(self@.faces[f as int].halfedge as int, j as nat),
                ),
    {
        let d = self.face_degree(f);
        let h0 = self.face(f).halfedge;
        proof {
            assert(self@.faces[f as int].halfedge == 3 * f);
        }
        let mut r: Vec<usize> = Vec::new();
        let mut h = h0;
        let mut j: usize = 0;
        while j < d
            invariant
                self@.wf(),
                f < self@.faces.len(),
                h0 == self@.faces[f as int].halfedge,
                self@.is_halfedge(h0 as int),
                self@.face_loop(f as int, d as nat),
                j <= d,
                r@.len() == j,
                h == self@.next_pow(h0 as int, j as nat),
                self@.is_halfedge(h as int),
                forall|i: int|
                    0 <= i < j ==> #[trigger] r@[i] == self@.origin(
                        self@.next_pow(h0 as int, i as nat),
                    ),
            decreases d - j,
        {
            r.push(self.halfedge(h).origin);
            proof {
                lemma_next(self@, h as int);
            }
            h = self.halfedge(h).next;
            j = j + 1;
        }
        r
    }
}

} // verus!
