use vstd::prelude::*;
use vstd::set_lib::{lemma_int_range, lemma_len_subset, set_int_range};

use crate::mesh::{Mesh, MeshView};
use crate::query::{lemma_next, lemma_next_injective};

verus! {

impl<P> MeshView<P> {
    /// The next halfedge out of the same vertex, turning across the twin of
    /// `h`; `None` where `h` has no twin.
    pub open spec fn rot(self, h: int) -> Option<int> {
        match self.twin(h) {
            Some(t) => Some(self.next(t as int) as int),
            None => None,
        }
    }

    /// The previous halfedge out of the same vertex, turning across the twin
    /// of the halfedge that comes into it; `None` where that one has no twin.
    pub open spec fn rot_back(self, h: int) -> Option<int> {
        match self.twin(self.prev(h) as int) {
            Some(t) => Some(t as int),
            None => None,
        }
    }

    /// `h` after `k` turns of `rot`.
    pub open spec fn rot_pow(self, h: int, k: nat) -> Option<int>
        decreases k,
    {
        if k == 0 {
            Some(h)
        } else {
            match self.rot_pow(h, (k - 1) as nat) {
                Some(x) => self.rot(x),
                None => None,
            }
        }
    }

    /// `h` after `k` turns of `rot_back`.
    pub open spec fn back_pow(self, h: int, k: nat) -> Option<int>
        decreases k,
    {
        if k == 0 {
            Some(h)
        } else {
            match self.back_pow(h, (k - 1) as nat) {
                Some(x) => self.rot_back(x),
                None => None,
            }
        }
    }

    /// Turning forward from `h0` reaches, after `k` turns and before coming
    /// back to `h0`, a halfedge without twin.
    pub open spec fn forward_stops(self, h0: int, k: nat) -> bool {
        &&& self.rot_pow(h0, k) is Some
        &&& self.twin(self.rot_pow(h0, k)->Some_0) is None
        &&& forall|j: nat| 0 < j <= k ==> #[trigger] self.rot_pow(h0, j) != Some(h0)
    }

    /// Turning forward from `h0` first comes back to it after `k` turns.
    pub open spec fn forward_closes(self, h0: int, k: nat) -> bool {
        &&& k >= 1
        &&& self.rot_pow(h0, k) == Some(h0)
        &&& forall|j: nat| 0 < j < k ==> #[trigger] self.rot_pow(h0, j) != Some(h0)
    }

    /// Turning backward from `h0` reaches, after `k` turns, a halfedge whose
    /// incoming neighbour has no twin.
    pub open spec fn backward_stops(self, h0: int, k: nat) -> bool {
        &&& self.back_pow(h0, k) is Some
        &&& self.twin(self.prev(self.back_pow(h0, k)->Some_0) as int) is None
    }

    /// The fan round `h0` is cut by the mesh boundary.
    pub open spec fn fan_is_open(self, h0: int) -> bool {
        exists|k: nat| self.forward_stops(h0, k)
    }

    /// The halfedges out of the origin of `h0` that the walks from `h0`
    /// reach: forward until the walk closes or stops, then, if it stopped,
    /// backward from `h0` until that walk stops.
    pub open spec fn fan(self, h0: int) -> Seq<int> {
        if self.fan_is_open(h0) {
            let kf = choose|k: nat| self.forward_stops(h0, k);
            let kb = choose|k: nat| self.backward_stops(h0, k);
            Seq::new(kf + 1, |j: int| self.rot_pow(h0, j as nat)->Some_0) + Seq::new(
                kb,
                |i: int| self.back_pow(h0, (i + 1) as nat)->Some_0,
            )
        } else {
            let kc = choose|k: nat| self.forward_closes(h0, k);
            Seq::new(kc, |j: int| self.rot_pow(h0, j as nat)->Some_0)
        }
    }

    /// The boundary halfedge that comes into the origin of `h0` where the
    /// backward walk stops.
    pub open spec fn fan_entry(self, h0: int) -> int {
        let kb = choose|k: nat| self.backward_stops(h0, k);
        self.prev(self.back_pow(h0, kb)->Some_0) as int
    }

    /// The fan of vertex `v`, walked from its anchor.
    pub open spec fn vertex_fan(self, v: int) -> Seq<int> {
        match self.vertices[v].halfedge {
            Some(h0) => self.fan(h0 as int),
            None => Seq::empty(),
        }
    }

    /// The walk round `v` from its anchor meets the mesh boundary.
    pub open spec fn vertex_on_boundary(self, v: int) -> bool {
        match self.vertices[v].halfedge {
            Some(h0) => self.fan_is_open(h0 as int),
            None => false,
        }
    }

    /// The number of edges at `v` that the walk reaches: one per halfedge of
    /// the fan, and one more for the boundary edge that closes an open fan.
    pub open spec fn vertex_degree(self, v: int) -> nat {
        self.vertex_fan(v).len() + if self.vertex_on_boundary(v) {
            1nat
        } else {
            0nat
        }
    }

    /// The vertices joined to `v` by the edges that `vertex_degree` counts.
    pub open spec fn vertex_neighbors(self, v: int) -> Seq<int> {
        let ends = self.vertex_fan(v).map_values(|h: int| self.dest(h) as int);
        if self.vertex_on_boundary(v) {
            let entry = self.fan_entry(self.vertices[v].halfedge->Some_0 as int);
            ends.push(self.origin(entry) as int)
        } else {
            ends
        }
    }

    /// The faces of the halfedges of the fan of `v`.
    pub open spec fn vertex_faces(self, v: int) -> Seq<int> {
        self.vertex_fan(v).map_values(|h: int| self.halfedges[h].face as int)
    }
}

/// Distinct indices below `n` number at most `n`.
proof fn lemma_distinct_bound(s: Seq<usize>, n: int)
    requires
        s.no_duplicates(),
        forall|i: int| 0 <= i < s.len() ==> #[trigger] s[i] < n,
        0 <= n,
    ensures
        s.len() <= n,
{
    let t = s.map_values(|x: usize| x as int);
    assert(t.no_duplicates()) by {
        assert forall|i: int, j: int| 0 <= i < t.len() && 0 <= j < t.len() && i != j implies t[i]
            != t[j] by {
            assert(s[i] != s[j]);
        }
    }
    t.unique_seq_to_set();
    lemma_int_range(0, n);
    assert(t.to_set().subset_of(set_int_range(0, n))) by {
        assert forall|x: int| t.to_set().contains(x) implies set_int_range(0, n).contains(x) by {
            let i = choose|i: int| 0 <= i < t.len() && t[i] == x;
            assert(s[i] < n);
        }
    }
    lemma_len_subset(t.to_set(), set_int_range(0, n));
}

/// `rot` stays in range and is one-to-one, and `rot_back` undoes it.
proof fn lemma_rot<P>(m: MeshView<P>, x: int)
    requires
        m.wf(),
        m.is_halfedge(x),
    ensures
        m.rot(x) is Some ==> m.is_halfedge(m.rot(x)->Some_0),
        m.rot_back(x) is Some ==> {
            &&& m.is_halfedge(m.rot_back(x)->Some_0)
            &&& m.rot(m.rot_back(x)->Some_0) == Some(x)
        },
        m.is_halfedge(m.prev(x) as int),
{
    lemma_next(m, x);
    lemma_next(m, m.next(x) as int);
    if m.twin(x) is Some {
        lemma_next(m, m.twin(x)->Some_0 as int);
    }
    let p = m.prev(x) as int;
    if m.twin(p) is Some {
        let t = m.twin(p)->Some_0 as int;
        assert(m.twin(t) == Some(p as usize));
    }
}

proof fn lemma_rot_injective<P>(m: MeshView<P>, x: int, y: int)
    requires
        m.wf(),
        m.is_halfedge(x),
        m.is_halfedge(y),
        m.rot(x) is Some,
        m.rot(x) == m.rot(y),
    ensures
        x == y,
{
    let tx = m.twin(x)->Some_0 as int;
    let ty = m.twin(y)->Some_0 as int;
    lemma_next_injective(m, tx, ty);
}

/// Once a walk has stopped it stays stopped.
proof fn lemma_rot_pow_none<P>(m: MeshView<P>, h: int, k: nat, k2: nat)
    requires
        m.rot_pow(h, k) is None,
        k <= k2,
    ensures
        m.rot_pow(h, k2) is None,
    decreases k2,
{
    if k < k2 {
        lemma_rot_pow_none(m, h, k, (k2 - 1) as nat);
    }
}

proof fn lemma_back_pow_none<P>(m: MeshView<P>, h: int, k: nat, k2: nat)
    requires
        m.back_pow(h, k) is None,
        k <= k2,
    ensures
        m.back_pow(h, k2) is None,
    decreases k2,
{
    if k < k2 {
        lemma_back_pow_none(m, h, k, (k2 - 1) as nat);
    }
}

/// A forward walk stops at one step at most, closes at one step at most, and
/// never does both.
proof fn lemma_forward_unique<P>(m: MeshView<P>, h0: int, k1: nat, k2: nat)
    ensures
        m.forward_stops(h0, k1) && m.forward_stops(h0, k2) ==> k1 == k2,
        m.forward_closes(h0, k1) && m.forward_closes(h0, k2) ==> k1 == k2,
        !(m.forward_stops(h0, k1) && m.forward_closes(h0, k2)),
{
    if m.forward_stops(h0, k1) && m.forward_stops(h0, k2) && k1 != k2 {
        let lo = if k1 < k2 {
            k1
        } else {
            k2
        };
        let hi = if k1 < k2 {
            k2
        } else {
            k1
        };
        assert(m.rot_pow(h0, lo + 1) is None);
        lemma_rot_pow_none(m, h0, lo + 1, hi);
    }
    if m.forward_closes(h0, k1) && m.forward_closes(h0, k2) && k1 != k2 {
        if k1 < k2 {
            assert(m.rot_pow(h0, k1) == Some(h0));
        } else {
            assert(m.rot_pow(h0, k2) == Some(h0));
        }
    }
    if m.forward_stops(h0, k1) && m.forward_closes(h0, k2) {
        if k2 <= k1 {
            assert(m.rot_pow(h0, k2) == Some(h0));
        } else {
            assert(m.rot_pow(h0, k1 + 1) is None);
            lemma_rot_pow_none(m, h0, k1 + 1, k2);
        }
    }
}

proof fn lemma_backward_unique<P>(m: MeshView<P>, h0: int, k1: nat, k2: nat)
    requires
        m.backward_stops(h0, k1),
        m.backward_stops(h0, k2),
    ensures
        k1 == k2,
{
    if k1 < k2 {
        assert(m.back_pow(h0, k1 + 1) is None);
        lemma_back_pow_none(m, h0, k1 + 1, k2);
    } else if k2 < k1 {
        assert(m.back_pow(h0, k2 + 1) is None);
        lemma_back_pow_none(m, h0, k2 + 1, k1);
    }
}

/// What an open walk found is the fan that the spec functions describe.
proof fn lemma_open_fan<P>(m: MeshView<P>, h: int, f: Seq<usize>, b: Seq<usize>)
    requires
        m.wf(),
        m.is_halfedge(h),
        f.len() >= 1,
        forall|j: int| 0 <= j < f.len() ==> m.rot_pow(h, j as nat) == Some(#[trigger] f[j] as int),
        forall|i: int|
            0 <= i < b.len() ==> m.back_pow(h, (i + 1) as nat) == Some(#[trigger] b[i] as int),
        m.forward_stops(h, (f.len() - 1) as nat),
        m.backward_stops(h, b.len()),
        forall|i: int| 0 <= i < b.len() ==> #[trigger] b[i] < m.halfedges.len(),
    ensures
        m.fan_is_open(h),
        m.fan(h) == (f + b).map_values(|x: usize| x as int),
        ({
            let last = if b.len() == 0 {
                h
            } else {
                b[b.len() - 1] as int
            };
            &&& m.is_halfedge(last)
            &&& m.is_halfedge(m.next(last) as int)
            &&& m.is_halfedge(m.prev(last) as int)
            &&& m.fan_entry(h) == m.prev(last)
        }),
{
    let kf = (f.len() - 1) as nat;
    let kb = b.len();
    assert(m.fan_is_open(h));
    lemma_forward_unique(m, h, kf, choose|k: nat| m.forward_stops(h, k));
    lemma_backward_unique(m, h, kb, choose|k: nat| m.backward_stops(h, k));
    assert(m.fan(h) =~= (f + b).map_values(|x: usize| x as int));
    let last = if b.len() == 0 {
        h
    } else {
        b[b.len() - 1] as int
    };
    assert(m.back_pow(h, kb) == Some(last));
    lemma_next(m, last);
    lemma_next(m, m.next(last) as int);
}

/// What a closed walk found is the fan that the spec functions describe.
proof fn lemma_closed_fan<P>(m: MeshView<P>, h: int, f: Seq<usize>)
    requires
        forall|j: int| 0 <= j < f.len() ==> m.rot_pow(h, j as nat) == Some(#[trigger] f[j] as int),
        m.forward_closes(h, f.len()),
    ensures
        !m.fan_is_open(h),
        m.fan(h) == f.map_values(|x: usize| x as int),
{
    let kc = f.len();
    assert forall|k: nat| !m.forward_stops(h, k) by {
        lemma_forward_unique(m, h, k, kc);
    }
    lemma_forward_unique(m, h, kc, choose|k: nat| m.forward_closes(h, k));
    assert(m.fan(h) =~= f.map_values(|x: usize| x as int));
}

impl<P> Mesh<P> {
    /// Walks the fan round the origin of `h0`: the halfedges reached turning
    /// forward, those reached turning backward, and whether the fan is open.
    fn walk_fan(&self, h0: usize) -> (r: (Vec<usize>, Vec<usize>, bool))
        requires
            self@.wf(),
            h0 < self@.halfedges.len(),
        ensures
            r.0@.len() >= 1,
            forall|j: int| 0 <= j < r.0@.len() ==>
                self@.rot_pow(h0 as int, j as nat) == Some(#[trigger] r.0@[j] as int),
            forall|i: int| 0 <= i < r.1@.len() ==>
                self@.back_pow(h0 as int, (i + 1) as nat) == Some(#[trigger] r.1@[i] as int),
            r.2 ==> self@.forward_stops(h0 as int, (r.0@.len() - 1) as nat),
            r.2 ==> self@.backward_stops(h0 as int, r.1@.len()),
            !r.2 ==> self@.forward_closes(h0 as int, r.0@.len()),
            !r.2 ==> r.1@.len() == 0,
            r.0@.len() + r.1@.len() <= self@.halfedges.len(),
            forall|j: int| 0 <= j < r.0@.len() ==> #[trigger] r.0@[j] < self@.halfedges.len(),
            forall|i: int| 0 <= i < r.1@.len() ==> #[trigger] r.1@[i] < self@.halfedges.len(),
    {
        let ghost m = self@;
        let ghost nh = m.halfedges.len() as int;
        let mut fwd: Vec<usize> = Vec::new();
        fwd.push(h0);
        let mut h = h0;
        let mut open = false;
        assert(m.rot_pow(h0 as int, 0) == Some(h0 as int));
        loop
            invariant_except_break
                m == self@,
                m.wf(),
                h0 < nh,
                nh == m.halfedges.len(),
                1 <= fwd@.len() <= nh,
                fwd@[0] == h0,
                h == fwd@.last(),
                !open,
                fwd@.no_duplicates(),
                forall|j: int| 0 <= j < fwd@.len() ==> #[trigger] fwd@[j] < nh,
                forall|j: int|
                    0 <= j < fwd@.len() ==> m.rot_pow(h0 as int, j as nat) == Some(
                        #[trigger] fwd@[j] as int,
                    ),
            ensures
                m == self@,
                m.wf(),
                h0 < nh,
                nh == m.halfedges.len(),
                1 <= fwd@.len() <= nh,
                fwd@[0] == h0,
                fwd@.no_duplicates(),
                forall|j: int| 0 <= j < fwd@.len() ==> #[trigger] fwd@[j] < nh,
                forall|j: int|
                    0 <= j < fwd@.len() ==> m.rot_pow(h0 as int, j as nat) == Some(
                        #[trigger] fwd@[j] as int,
                    ),
                open ==> m.forward_stops(h0 as int, (fwd@.len() - 1) as nat),
                !open ==> m.forward_closes(h0 as int, fwd@.len()),
            decreases nh - fwd@.len(),
        {
            let len = fwd.len();
            proof {
                assert(fwd@[len - 1] == h);
                lemma_rot(m, h as int);
            }
            match self.halfedge(h).twin {
                None => {
                    open = true;
                    proof {
                        assert forall|j: nat| 0 < j <= len - 1 implies #[trigger] m.rot_pow(
                            h0 as int,
                            j,
                        ) != Some(h0 as int) by {
                            assert(m.rot_pow(h0 as int, j) == Some(fwd@[j as int] as int));
                        }
                    }
                    break ;
                },
                Some(t) => {
                    proof {
                        lemma_next(m, t as int);
                    }
                    let nx = self.halfedge(t).next;
                    proof {
                        assert(m.rot_pow(h0 as int, len as nat) == Some(nx as int));
                    }
                    if nx == h0 {
                        proof {
                            assert forall|j: nat| 0 < j < len implies #[trigger] m.rot_pow(
                                h0 as int,
                                j,
                            ) != Some(h0 as int) by {
                                assert(m.rot_pow(h0 as int, j) == Some(fwd@[j as int] as int));
                            }
                        }
                        break ;
                    }
                    proof {
                        assert forall|j: int| 0 <= j < len implies fwd@[j] != nx by {
                            if j > 0 && fwd@[j] == nx {
                                let pj = fwd@[j - 1] as int;
                                assert(m.rot_pow(h0 as int, (j - 1) as nat) == Some(pj));
                                assert(m.rot_pow(h0 as int, j as nat) == Some(fwd@[j] as int));
                                lemma_rot(m, pj);
                                lemma_rot_injective(m, pj, h as int);
                            }
                        }
                        lemma_distinct_bound(fwd@.push(nx), nh);
                    }
                    fwd.push(nx);
                    h = nx;
                },
            }
        }
        let mut bwd: Vec<usize> = Vec::new();
        assert(fwd@ + bwd@ == fwd@);
        if !open {
            return (fwd, bwd, false);
        }
        let mut g = h0;
        assert(m.back_pow(h0 as int, 0) == Some(h0 as int));
        loop
            invariant_except_break
                m == self@,
                m.wf(),
                h0 < nh,
                nh == m.halfedges.len(),
                1 <= fwd@.len(),
                fwd@.len() + bwd@.len() <= nh,
                fwd@[0] == h0,
                (fwd@ + bwd@).no_duplicates(),
                forall|j: int| 0 <= j < fwd@.len() ==> #[trigger] fwd@[j] < nh,
                forall|i: int| 0 <= i < bwd@.len() ==> #[trigger] bwd@[i] < nh,
                forall|j: int|
                    0 <= j < fwd@.len() ==> m.rot_pow(h0 as int, j as nat) == Some(
                        #[trigger] fwd@[j] as int,
                    ),
                forall|i: int|
                    0 <= i < bwd@.len() ==> m.back_pow(h0 as int, (i + 1) as nat) == Some(
                        #[trigger] bwd@[i] as int,
                    ),
                m.forward_stops(h0 as int, (fwd@.len() - 1) as nat),
                m.back_pow(h0 as int, bwd@.len()) == Some(g as int),
                g < nh,
                bwd@.len() == 0 ==> g == h0,
                bwd@.len() > 0 ==> g == bwd@.last(),
            ensures
                forall|i: int|
                    0 <= i < bwd@.len() ==> m.back_pow(h0 as int, (i + 1) as nat) == Some(
                        #[trigger] bwd@[i] as int,
                    ),
                m.backward_stops(h0 as int, bwd@.len()),
                fwd@.len() + bwd@.len() <= nh,
                forall|i: int| 0 <= i < bwd@.len() ==> #[trigger] bwd@[i] < nh,
            decreases nh - fwd@.len() - bwd@.len(),
        {
            proof {
                lemma_rot(m, g as int);
                lemma_next(m, g as int);
            }
            let p = self.halfedge(self.halfedge(g).next).next;
            match self.halfedge(p).twin {
                None => {
                    break ;
                },
                Some(x) => {
                    let ghost lf = fwd@.len() - 1;
                    let ghost bl = bwd@.len() as int;
                    let ghost all = fwd@ + bwd@;
                    proof {
                        assert(m.rot_back(g as int) == Some(x as int));
                        assert(m.rot(x as int) == Some(g as int));
                        assert forall|j: int| 0 <= j < all.len() implies all[j] != x by {
                            if j <= lf && fwd@[j] == x {
                                assert(m.rot_pow(h0 as int, j as nat) == Some(x as int));
                                if j == lf {
                                    assert(m.twin(x as int) is None);
                                } else {
                                    assert(m.rot_pow(h0 as int, (j + 1) as nat) == Some(
                                        fwd@[j + 1] as int,
                                    ));
                                    assert(g == fwd@[j + 1]);
                                    if bl == 0 {
                                        assert(all[0] == all[j + 1]);
                                    } else {
                                        assert(all[lf + bl] == all[j + 1]);
                                    }
                                }
                            } else if j > lf && all[j] == x {
                                let i = j - lf - 1;
                                assert(bwd@[i] == x);
                                assert(m.back_pow(h0 as int, (i + 1) as nat) == Some(x as int));
                                let before = m.back_pow(h0 as int, i as nat)->Some_0;
                                assert(m.rot_back(before) == Some(x as int));
                                if i == 0 {
                                    lemma_rot(m, h0 as int);
                                    assert(g == h0);
                                    assert(all[lf + bl] == all[0]);
                                } else {
                                    assert(before == bwd@[i - 1]);
                                    lemma_rot(m, before);
                                    assert(g == bwd@[i - 1]);
                                    assert(all[lf + bl] == all[lf + i]);
                                }
                            }
                        }
                        assert((fwd@ + bwd@.push(x)) == all.push(x));
                        lemma_rot(m, g as int);
                        lemma_distinct_bound(all.push(x), nh);
                    }
                    bwd.push(x);
                    g = x;
                },
            }
        }
        (fwd, bwd, true)
    }

    /// The fan of `v` as the walks from its anchor find it, and for an open
    /// fan the boundary halfedge that comes into `v`.
    fn fan_of(&self, v: usize) -> (r: (Vec<usize>, Option<usize>))
        requires
            self@.wf(),
            v < self@.vertices.len(),
        ensures
            r.0@.len() == self@.vertex_fan(v as int).len(),
            forall|i: int| 0 <= i < r.0@.len() ==>
                #[trigger] r.0@[i] == self@.vertex_fan(v as int)[i],
            forall|i: int| 0 <= i < r.0@.len() ==> #[trigger] r.0@[i] < self@.halfedges.len(),
            r.0@.len() <= self@.halfedges.len(),
            r.1 is Some == self@.vertex_on_boundary(v as int),
            r.1 is Some ==>
                r.1->Some_0 == self@.fan_entry(self@.vertices[v as int].halfedge->Some_0 as int),
            r.1 is Some ==> r.1->Some_0 < self@.halfedges.len(),
    {
        match self.vertex(v).halfedge {
            None => (Vec::new(), None),
            Some(h0) => {
                let (mut fwd, mut bwd, open) = self.walk_fan(h0);
                let ghost f = fwd@;
                let ghost b = bwd@;
                let entry = if open {
                    let last = if bwd.len() == 0 {
                        h0
                    } else {
                        bwd[bwd.len() - 1]
                    };
                    proof {
                        lemma_open_fan(self@, h0 as int, f, b);
                    }
                    Some(self.halfedge(self.halfedge(last).next).next)
                } else {
                    proof {
                        lemma_closed_fan(self@, h0 as int, f);
                    }
                    None
                };
                fwd.append(&mut bwd);
                proof {
                    assert forall|i: int| 0 <= i < fwd@.len() implies #[trigger] fwd@[i]
                        < self@.halfedges.len() by {
                        if i >= f.len() {
                            assert(fwd@[i] == b[i - f.len()]);
                        } else {
                            assert(fwd@[i] == f[i]);
                        }
                    }
                }
                (fwd, entry)
            },
        }
    }

    /// The halfedges out of `v` that the walks from its anchor reach, in
    /// the order `vertex_fan` gives them.
    pub fn outgoing(&self, v: usize) -> (r: Vec<usize>)
        requires
            self@.wf(),
            v < self@.vertices.len(),
        ensures
            r@.len() == self@.vertex_fan(v as int).len(),
            forall|i: int| 0 <= i < r@.len() ==> #[trigger] r@[i] == self@.vertex_fan(v as int)[i],
    {
        self.fan_of(v).0
    }

    /// Whether the walk round `v` from its anchor meets the mesh boundary.
    pub fn on_boundary(&self, v: usize) -> (r: bool)
        requires
            self@.wf(),
            v < self@.vertices.len(),
        ensures
            r == self@.vertex_on_boundary(v as int),
    {
        self.fan_of(v).1.is_some()
    }

    /// The number of edges at `v`: the halfedges of its fan, and the
    /// boundary edge that closes an open fan.
    pub fn degree(&self, v: usize) -> (r: usize)
        requires
            self@.wf(),
            v < self@.vertices.len(),
        ensures
            r == self@.vertex_degree(v as int),
    {
        let (fan, entry) = self.fan_of(v);
        if entry.is_some() {
            fan.len() + 1
        } else {
            fan.len()
        }
    }

    /// The vertices one edge away from `v`, one per edge that `degree` counts.
    pub fn neighbors(&self, v: usize) -> (r: Vec<usize>)
        requires
            self@.wf(),
            v < self@.vertices.len(),
        ensures
            r@.len() == self@.vertex_neighbors(v as int).len(),
            forall|i: int| 0 <= i < r@.len() ==>
                #[trigger] r@[i] == self@.vertex_neighbors(v as int)[i],
    {
        let (fan, entry) = self.fan_of(v);
        let mut r: Vec<usize> = Vec::new();
        let mut i: usize = 0;
        while i < fan.len()
            invariant
                self@.wf(),
                i <= fan@.len(),
                r@.len() == i,
                forall|j: int| 0 <= j < fan@.len() ==> #[trigger] fan@[j] < self@.halfedges.len(),
                forall|j: int| 0 <= j < i ==> #[trigger] r@[j] == self@.dest(fan@[j] as int),
            decreases fan@.len() - i,
        {
            r.push(self.dest(fan[i]));
            i = i + 1;
        }
        if let Some(p) = entry {
            r.push(self.halfedge(p).origin);
        }
        proof {
            let ends = self@.vertex_fan(v as int).map_values(|h: int| self@.dest(h) as int);
            assert forall|j: int| 0 <= j < fan@.len() implies #[trigger] r@[j] == ends[j] by {
                assert(fan@[j] == self@.vertex_fan(v as int)[j]);
            }
        }
        r
    }

    /// The faces round `v`, one per halfedge of its fan.
    pub fn vertex_faces(&self, v: usize) -> (r: Vec<usize>)
        requires
            self@.wf(),
            v < self@.vertices.len(),
        ensures
            r@.len() == self@.vertex_faces(v as int).len(),
            forall|i: int| 0 <= i < r@.len() ==>
                #[trigger] r@[i] == self@.vertex_faces(v as int)[i],
    {
        let (fan, _) = self.fan_of(v);
        let mut r: Vec<usize> = Vec::new();
        let mut i: usize = 0;
        while i < fan.len()
            invariant
                self@.wf(),
                i <= fan@.len(),
                r@.len() == i,
                forall|j: int| 0 <= j < fan@.len() ==> #[trigger] fan@[j] < self@.halfedges.len(),
                forall|j: int| 0 <= j < i ==>
                    #[trigger] r@[j] == self@.halfedges[fan@[j] as int].face,
            decreases fan@.len() - i,
        {
            r.push(self.halfedge(fan[i]).face);
            i = i + 1;
        }
        proof {
            assert forall|j: int| 0 <= j < fan@.len()
                implies #[trigger] r@[j] == self@.vertex_faces(v as int)[j] by {
                assert(fan@[j] == self@.vertex_fan(v as int)[j]);
            }
        }
        r
    }
}

} // verus!
