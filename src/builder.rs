use vstd::prelude::*;

use crate::laws::built_mesh_is_well_formed;
use crate::mesh::{corner_next, Edge, Face, Halfedge, Mesh, MeshView, Vertex};
use crate::soup::{
    built_from, build_error, corner, corner_dest, error_upto, has_directed, lemma_error_persists,
    lemma_sound_prefix, triangle_error, BuildError,
};

verus! {

/// The arenas while triangles are being added. `outgoing[a]` lists, for each
/// halfedge out of `a`, the halfedge and the point it runs to; `slot` records
/// where in that list each halfedge stands.
struct Builder {
    vertices: Vec<Vertex>,
    edges: Vec<Edge>,
    halfedges: Vec<Halfedge>,
    outgoing: Vec<Vec<(usize, usize)>>,
    slot: Ghost<Seq<int>>,
}

impl Builder {
    spec fn count(self) -> int {
        self.halfedges@.len() as int
    }

    spec fn twin(self, h: int) -> Option<usize> {
        self.halfedges@[h].twin
    }

    spec fn representative(self, h: int) -> int {
        match self.twin(h) {
            Some(g) => if g < h {
                g as int
            } else {
                h
            },
            None => h,
        }
    }

    /// The halfedges made so far are the first `count` of the triangle list.
    spec fn inv_records(self, n: int, tris: Seq<[usize; 3]>) -> bool {
        &&& self.vertices@.len() == n
        &&& self.outgoing@.len() == n
        &&& self.count() <= 3 * tris.len() < usize::MAX
        &&& forall|h: int|
            0 <= h < self.count() ==> {
                &&& #[trigger] self.halfedges@[h].origin == corner(tris, h)
                &&& self.halfedges@[h].next == corner_next(h)
                &&& self.halfedges@[h].face == h / 3
                &&& corner(tris, h) < n
                &&& corner_dest(tris, h) < n
            }
        &&& forall|h: int, g: int|
            0 <= h < self.count() && 0 <= g < self.count() && #[trigger] corner(tris, h)
                == #[trigger] corner(tris, g) && corner_dest(tris, h) == corner_dest(tris, g)
                ==> h == g
    }

    spec fn inv_twins(self, tris: Seq<[usize; 3]>) -> bool {
        &&& forall|h: int|
            #![trigger self.twin(h)]
            0 <= h < self.count() && self.twin(h) is Some ==> {
                let g = self.twin(h)->Some_0 as int;
                &&& 0 <= g < self.count()
                &&& corner(tris, g) == corner_dest(tris, h)
                &&& corner_dest(tris, g) == corner(tris, h)
            }
        &&& forall|h: int, g: int|
            #![trigger self.twin(h), corner(tris, g)]
            0 <= h < self.count() && self.twin(h) is None && 0 <= g < self.count() ==> !(corner(
                tris,
                g,
            ) == corner_dest(tris, h) && corner_dest(tris, g) == corner(tris, h))
    }

    spec fn inv_anchors(self, tris: Seq<[usize; 3]>) -> bool {
        forall|v: int|
            0 <= v < self.vertices@.len() ==> {
                let a = #[trigger] self.vertices@[v].halfedge;
                &&& a is Some ==> {
                    &&& 0 <= a->Some_0 < self.count()
                    &&& corner(tris, a->Some_0 as int) == v
                    &&& forall|g: int| 0 <= g < a->Some_0 ==> #[trigger] corner(tris, g) != v
                }
                &&& a is None ==> forall|h: int|
                    0 <= h < self.count() ==> #[trigger] corner(tris, h) != v
            }
    }

    spec fn inv_edges(self) -> bool {
        &&& self.edges@.len() <= self.count()
        &&& forall|e: int|
            0 <= e < self.edges@.len() ==> {
                &&& 0 <= #[trigger] self.edges@[e].halfedge < self.count()
                &&& self.halfedges@[self.edges@[e].halfedge as int].edge == e
            }
        &&& forall|e1: int, e2: int|
            0 <= e1 < e2 < self.edges@.len() ==> #[trigger] self.edges@[e1].halfedge
                < #[trigger] self.edges@[e2].halfedge
        &&& forall|h: int|
            0 <= h < self.count() ==> {
                &&& #[trigger] self.halfedges@[h].edge < self.edges@.len()
                &&& self.edges@[self.halfedges@[h].edge as int].halfedge == self.representative(h)
            }
    }

    spec fn inv_outgoing(self, tris: Seq<[usize; 3]>) -> bool {
        &&& forall|a: int, i: int|
            0 <= a < self.outgoing@.len() && 0 <= i < self.outgoing@[a]@.len() ==> {
                let (g, b) = #[trigger] self.outgoing@[a]@[i];
                &&& 0 <= g < self.count()
                &&& corner(tris, g as int) == a
                &&& corner_dest(tris, g as int) == b
            }
        &&& self.slot@.len() == self.count()
        &&& forall|g: int|
            0 <= g < self.count() ==> {
                let a = corner(tris, g) as int;
                &&& 0 <= #[trigger] self.slot@[g] < self.outgoing@[a]@.len()
                &&& self.outgoing@[a]@[self.slot@[g]].0 == g
            }
    }

    spec fn inv(self, n: int, tris: Seq<[usize; 3]>) -> bool {
        &&& self.inv_records(n, tris)
        &&& self.inv_twins(tris)
        &&& self.inv_anchors(tris)
        &&& self.inv_edges()
        &&& self.inv_outgoing(tris)
    }

    /// The halfedge made so far that runs from `a` to `b`, if there is one.
    fn find(
        &self,
        Ghost(n): Ghost<int>,
        Ghost(tris): Ghost<Seq<[usize; 3]>>,
        a: usize,
        b: usize,
    ) -> (r:
        Option<usize>)
        requires
            self.inv(n, tris),
            a < n,
        ensures
            r is Some ==> {
                let g = r->Some_0 as int;
                &&& 0 <= g < self.count()
                &&& corner(tris, g) == a
                &&& corner_dest(tris, g) == b
            },
            r is None ==> forall|g: int|
                0 <= g < self.count() ==> !(#[trigger] corner(tris, g) == a && corner_dest(tris, g)
                    == b),
    {
        let list = &self.outgoing[a];
        let mut i: usize = 0;
        while i < list.len()
            invariant
                self.inv(n, tris),
                a < n,
                list@ == self.outgoing@[a as int]@,
                i <= list@.len(),
                forall|j: int| 0 <= j < i ==> (#[trigger] list@[j]).1 != b,
            decreases list@.len() - i,
        {
            if list[i].1 == b {
                return Some(list[i].0);
            }
            i = i + 1;
        }
        proof {
            assert forall|g: int|
                0 <= g < self.count() implies !(#[trigger] corner(tris, g) == a && corner_dest(
                    tris,
                    g,
                ) == b) by {
                if corner(tris, g) == a {
                    let j = self.slot@[g];
                    assert(list@[j].0 == g);
                }
            }
        }
        None
    }

    /// `new` is `self` with halfedge `h = self.count()` added, from `a` to `b`,
    /// paired with `rev` when that is its reverse.
    spec fn added(
        self,
        new: Builder,
        tris: Seq<[usize; 3]>,
        a: usize,
        b: usize,
        rev: Option<usize>,
    ) -> bool {
        let h = self.count();
        let edge = match rev {
            Some(g) => self.halfedges@[g as int].edge,
            None => self.edges@.len() as usize,
        };
        let linked = match rev {
            Some(g) => self.halfedges@.update(
                g as int,
                Halfedge { twin: Some(h as usize), ..self.halfedges@[g as int] },
            ),
            None => self.halfedges@,
        };
        &&& new.halfedges@ == linked.push(
            Halfedge {
                twin: rev,
                next: corner_next(h) as usize,
                origin: a,
                edge,
                face: (h / 3) as usize,
            },
        )
        &&& new.edges@ == match rev {
            Some(_) => self.edges@,
            None => self.edges@.push(Edge { halfedge: h as usize }),
        }
        &&& new.vertices@ == if self.vertices@[a as int].halfedge is None {
            self.vertices@.update(a as int, Vertex { halfedge: Some(h as usize) })
        } else {
            self.vertices@
        }
        &&& new.outgoing@.len() == self.outgoing@.len()
        &&& forall|c: int| 0 <= c < self.outgoing@.len() && c != a ==>
            #[trigger] new.outgoing@[c] == self.outgoing@[c]
        &&& new.outgoing@[a as int]@ == self.outgoing@[a as int]@.push((h as usize, b))
        &&& new.slot@ == self.slot@.push(self.outgoing@[a as int]@.len() as int)
    }

    /// What adding a halfedge requires: it is the next one of the list, runs
    /// between two distinct points, and duplicates none made so far; `rev` is
    /// its reverse among them, if there is one.
    spec fn can_add(
        self,
        n: int,
        tris: Seq<[usize; 3]>,
        a: usize,
        b: usize,
        rev: Option<usize>,
    ) -> bool {
        &&& self.inv(n, tris)
        &&& self.count() < 3 * tris.len()
        &&& a == corner(tris, self.count())
        &&& b == corner_dest(tris, self.count())
        &&& a < n
        &&& b < n
        &&& a != b
        &&& forall|g: int|
            0 <= g < self.count() ==>
                !(#[trigger] corner(tris, g) == a && corner_dest(tris, g) == b)
        &&& rev is Some ==> {
            let g = rev->Some_0 as int;
            &&& 0 <= g < self.count()
            &&& corner(tris, g) == b
            &&& corner_dest(tris, g) == a
        }
        &&& rev is None ==> forall|g: int|
            0 <= g < self.count() ==>
                !(#[trigger] corner(tris, g) == b && corner_dest(tris, g) == a)
    }

    proof fn lemma_added_records(
        self,
        new: Builder,
        n: int,
        tris: Seq<[usize; 3]>,
        a: usize,
        b: usize,
        rev: Option<usize>,
    )
        requires
            self.can_add(n, tris, a, b, rev),
            self.added(new, tris, a, b, rev),
        ensures
            new.inv_records(n, tris),
    {
        let h = self.count();
        assert forall|x: int| 0 <= x < new.count() implies {
            &&& #[trigger] new.halfedges@[x].origin == corner(tris, x)
            &&& new.halfedges@[x].next == corner_next(x)
            &&& new.halfedges@[x].face == x / 3
            &&& corner(tris, x) < n
            &&& corner_dest(tris, x) < n
        } by {
            if x < h {
                assert(self.halfedges@[x].origin == corner(tris, x));
            }
        }
    }

    proof fn lemma_added_twins(
        self,
        new: Builder,
        n: int,
        tris: Seq<[usize; 3]>,
        a: usize,
        b: usize,
        rev: Option<usize>,
    )
        requires
            self.can_add(n, tris, a, b, rev),
            self.added(new, tris, a, b, rev),
        ensures
            new.inv_twins(tris),
    {
        let h = self.count();
        if rev is Some {
            let g = rev->Some_0 as int;
            if self.twin(g) is Some {
                let x = self.twin(g)->Some_0 as int;
                assert(corner(tris, x) == a && corner_dest(tris, x) == b);
            }
        }
        assert forall|x: int|
            #![trigger new.twin(x)]
            0 <= x < new.count() && new.twin(x) is Some implies {
                let y = new.twin(x)->Some_0 as int;
                &&& 0 <= y < new.count()
                &&& corner(tris, y) == corner_dest(tris, x)
                &&& corner_dest(tris, y) == corner(tris, x)
            } by {
            if x < h && (rev is None || x != rev->Some_0) {
                assert(new.twin(x) == self.twin(x));
            }
        }
        assert forall|x: int, y: int|
            #![trigger new.twin(x), corner(tris, y)]
            0 <= x < new.count() && new.twin(x) is None && 0 <= y < new.count() implies !(
            corner(tris, y) == corner_dest(tris, x) && corner_dest(tris, y) == corner(tris, x)) by {
            if x < h {
                if rev is Some {
                    assert(x != rev->Some_0);
                }
                assert(new.twin(x) == self.twin(x));
                if y == h && corner(tris, y) == corner_dest(tris, x) && corner_dest(tris, y)
                    == corner(tris, x) {
                    assert(corner(tris, x) == b && corner_dest(tris, x) == a);
                    if rev is Some {
                        let g = rev->Some_0 as int;
                        assert(corner(tris, g) == b && corner_dest(tris, g) == a);
                        assert(x == g);
                    }
                }
            }
        }
    }

    proof fn lemma_added_anchors(
        self,
        new: Builder,
        n: int,
        tris: Seq<[usize; 3]>,
        a: usize,
        b: usize,
        rev: Option<usize>,
    )
        requires
            self.can_add(n, tris, a, b, rev),
            self.added(new, tris, a, b, rev),
        ensures
            new.inv_anchors(tris),
    {
        let h = self.count();
        assert forall|v: int| 0 <= v < new.vertices@.len() implies {
            let an = #[trigger] new.vertices@[v].halfedge;
            &&& an is Some ==> {
                &&& 0 <= an->Some_0 < new.count()
                &&& corner(tris, an->Some_0 as int) == v
                &&& forall|g: int| 0 <= g < an->Some_0 ==> #[trigger] corner(tris, g) != v
            }
            &&& an is None ==>
                forall|x: int| 0 <= x < new.count() ==> #[trigger] corner(tris, x) != v
        } by {
            let old_an = self.vertices@[v].halfedge;
            if v != a || old_an is Some {
                assert(new.vertices@[v] == self.vertices@[v]);
            }
        }
    }

    proof fn lemma_added_edges(
        self,
        new: Builder,
        n: int,
        tris: Seq<[usize; 3]>,
        a: usize,
        b: usize,
        rev: Option<usize>,
    )
        requires
            self.can_add(n, tris, a, b, rev),
            self.added(new, tris, a, b, rev),
        ensures
            new.inv_edges(),
    {
        let h = self.count();
        if rev is Some {
            let g = rev->Some_0 as int;
            if self.twin(g) is Some {
                let x = self.twin(g)->Some_0 as int;
                assert(corner(tris, x) == a && corner_dest(tris, x) == b);
            }
            assert(self.representative(g) == g);
        }
        assert forall|e: int| 0 <= e < new.edges@.len() implies {
            &&& 0 <= #[trigger] new.edges@[e].halfedge < new.count()
            &&& new.halfedges@[new.edges@[e].halfedge as int].edge == e
        } by {
            if e < self.edges@.len() {
                assert(new.edges@[e] == self.edges@[e]);
                let r = self.edges@[e].halfedge as int;
                assert(self.halfedges@[r].edge == e);
                assert(new.halfedges@[r].edge == self.halfedges@[r].edge);
            } else {
                assert(new.edges@[e].halfedge == h);
                assert(new.halfedges@[h].edge == e);
            }
        }
        assert forall|x: int| 0 <= x < new.count() implies {
            &&& #[trigger] new.halfedges@[x].edge < new.edges@.len()
            &&& new.edges@[new.halfedges@[x].edge as int].halfedge == new.representative(x)
        } by {
            if x < h {
                assert(self.halfedges@[x].edge < self.edges@.len());
                assert(new.halfedges@[x].edge == self.halfedges@[x].edge);
                if rev is Some && x == rev->Some_0 {
                    assert(new.representative(x) == x);
                } else {
                    assert(new.representative(x) == self.representative(x));
                }
                assert(new.edges@[new.halfedges@[x].edge as int]
                    == self.edges@[self.halfedges@[x].edge as int]);
            } else if rev is Some {
                let g = rev->Some_0 as int;
                assert(self.halfedges@[g].edge < self.edges@.len());
                assert(new.representative(x) == g);
                assert(new.edges@[new.halfedges@[x].edge as int]
                    == self.edges@[self.halfedges@[g].edge as int]);
            }
        }
    }

    proof fn lemma_added_outgoing(
        self,
        new: Builder,
        n: int,
        tris: Seq<[usize; 3]>,
        a: usize,
        b: usize,
        rev: Option<usize>,
    )
        requires
            self.can_add(n, tris, a, b, rev),
            self.added(new, tris, a, b, rev),
        ensures
            new.inv_outgoing(tris),
    {
        let h = self.count();
        let slot_h = self.outgoing@[a as int]@.len() as int;
        assert forall|c: int, i: int|
            0 <= c < new.outgoing@.len() && 0 <= i < new.outgoing@[c]@.len() implies {
                let (g, d) = #[trigger] new.outgoing@[c]@[i];
                &&& 0 <= g < new.count()
                &&& corner(tris, g as int) == c
                &&& corner_dest(tris, g as int) == d
            } by {
            if c != a || i < slot_h {
                assert(new.outgoing@[c]@[i] == self.outgoing@[c]@[i]);
            }
        }
        assert forall|g: int|
            0 <= g < new.count() implies {
                let c = corner(tris, g) as int;
                &&& 0 <= #[trigger] new.slot@[g] < new.outgoing@[c]@.len()
                &&& new.outgoing@[c]@[new.slot@[g]].0 == g
            } by {
            let c = corner(tris, g) as int;
            if g < h {
                assert(self.halfedges@[g].origin == corner(tris, g));
                assert(new.slot@[g] == self.slot@[g]);
                if c != a {
                    assert(new.outgoing@[c] == self.outgoing@[c]);
                }
                assert(self.outgoing@[c]@[self.slot@[g]].0 == g);
                assert(new.outgoing@[c]@[new.slot@[g]] == self.outgoing@[c]@[self.slot@[g]]);
            } else {
                assert(new.slot@[g] == slot_h);
                assert(new.outgoing@[c]@[slot_h] == (h as usize, b));
            }
        }
    }

    /// Adds the next halfedge of the triangle list, which runs from `a` to `b`
    /// and which no halfedge made so far duplicates.
    fn add_halfedge(
        &mut self,
        Ghost(n): Ghost<int>,
        Ghost(tris): Ghost<Seq<[usize; 3]>>,
        a: usize,
        b: usize,
    )
        requires
            old(self).inv(n, tris),
            old(self).count() < 3 * tris.len(),
            a == corner(tris, old(self).count()),
            b == corner_dest(tris, old(self).count()),
            a < n,
            b < n,
            a != b,
            forall|g: int|
                0 <= g < old(self).count() ==> !(#[trigger] corner(tris, g) == a && corner_dest(
                    tris,
                    g,
                ) == b),
        ensures
            final(self).inv(n, tris),
            final(self).count() == old(self).count() + 1,
    {
        let h = self.halfedges.len();
        let ghost old_self = *self;
        let rev = self.find(Ghost(n), Ghost(tris), b, a);
        let edge: usize;
        match rev {
            Some(g) => {
                edge = self.halfedges[g].edge;
                self.halfedges[g].twin = Some(h);
            },
            None => {
                edge = self.edges.len();
                self.edges.push(Edge { halfedge: h });
            },
        }
        let next = if h % 3 == 2 {
            h - 2
        } else {
            h + 1
        };
        self.halfedges.push(Halfedge { twin: rev, next, origin: a, edge, face: h / 3 });
        if self.vertices[a].halfedge.is_none() {
            self.vertices[a].halfedge = Some(h);
        }
        let ghost slot_h = self.outgoing@[a as int]@.len() as int;
        self.outgoing[a].push((h, b));
        self.slot = Ghost(self.slot@.push(slot_h));
        proof {
            let new = *self;
            assert(old_self.can_add(n, tris, a, b, rev));
            assert(old_self.added(new, tris, a, b, rev));
            old_self.lemma_added_records(new, n, tris, a, b, rev);
            old_self.lemma_added_twins(new, n, tris, a, b, rev);
            old_self.lemma_added_anchors(new, n, tris, a, b, rev);
            old_self.lemma_added_edges(new, n, tris, a, b, rev);
            old_self.lemma_added_outgoing(new, n, tris, a, b, rev);
        }
    }
}

/// The arenas of a builder that has taken every triangle form the mesh built
/// from them.
proof fn lemma_finished<P>(
    b: Builder,
    n: int,
    tris: Seq<[usize; 3]>,
    positions: Seq<P>,
    faces: Seq<Face>,
    m: MeshView<P>,
)
    requires
        b.inv(n, tris),
        b.count() == 3 * tris.len(),
        n == positions.len(),
        faces.len() == tris.len(),
        forall|f: int|
            0 <= f < tris.len() ==> #[trigger] faces[f] == (Face {
                halfedge: (3 * f) as usize,
                boundary: false,
            }),
        m == (MeshView {
            positions,
            vertices: b.vertices@,
            edges: b.edges@,
            faces,
            halfedges: b.halfedges@,
        }),
    ensures
        built_from(m, positions, tris),
{
    assert forall|h: int|
        #![trigger m.twin(h)]
        m.is_halfedge(h) && m.twin(h) is None implies !has_directed(
            tris,
            corner_dest(tris, h),
            corner(tris, h),
        ) by {
        assert(b.twin(h) is None);
        if has_directed(tris, corner_dest(tris, h), corner(tris, h)) {
            let g = choose|g: int|
                0 <= g < 3 * tris.len() && #[trigger] corner(tris, g) == corner_dest(tris, h)
                    && corner_dest(tris, g) == corner(tris, h);
            assert(!(corner(tris, g) == corner_dest(tris, h) && corner_dest(tris, g) == corner(
                tris,
                h,
            )));
        }
    }
    assert(forall|h: int|
        m.is_halfedge(h) ==> {
            &&& #[trigger] m.halfedges[h].origin == corner(tris, h)
            &&& m.halfedges[h].next == corner_next(h)
            &&& m.halfedges[h].face == h / 3
        });
    assert forall|h: int|
        #![trigger m.twin(h)]
        m.is_halfedge(h) && m.twin(h) is Some implies {
            let g = m.twin(h)->Some_0 as int;
            &&& m.is_halfedge(g)
            &&& corner(tris, g) == corner_dest(tris, h)
            &&& corner_dest(tris, g) == corner(tris, h)
        } by {
        assert(b.twin(h) == m.twin(h));
    }
    assert(forall|v: int|
        0 <= v < m.vertices.len() ==> {
            let a = #[trigger] m.vertices[v].halfedge;
            &&& a is Some ==> {
                &&& m.is_halfedge(a->Some_0 as int)
                &&& corner(tris, a->Some_0 as int) == v
                &&& forall|g: int| 0 <= g < a->Some_0 ==> #[trigger] corner(tris, g) != v
            }
            &&& a is None ==> forall|h: int| m.is_halfedge(h) ==> #[trigger] corner(tris, h) != v
        });
    assert(forall|e: int|
        0 <= e < m.edges.len() ==> {
            &&& m.is_halfedge(#[trigger] m.edges[e].halfedge as int)
            &&& m.halfedges[m.edges[e].halfedge as int].edge == e
        });
    assert(forall|e1: int, e2: int|
        0 <= e1 < e2 < m.edges.len() ==> #[trigger] m.edges[e1].halfedge
            < #[trigger] m.edges[e2].halfedge);
    assert forall|h: int| m.is_halfedge(h) implies {
        &&& #[trigger] m.halfedges[h].edge < m.edges.len()
        &&& m.edges[m.halfedges[h].edge as int].halfedge == m.representative(h)
    } by {
        assert(b.halfedges@[h].edge < b.edges@.len());
        assert(m.representative(h) == b.representative(h));
    }
}

impl<P> Mesh<P> {
    /// Builds the half-edge mesh of a triangle list over `positions`, taking
    /// the triangles in order, or reports the first unsound triangle's error.
    pub fn build(positions: Vec<P>, triangles: &[[usize; 3]]) -> (r: Result<Mesh<P>, BuildError>)
        requires
            3 * triangles@.len() < usize::MAX,
        ensures
            match r {
                Ok(m) => {
                    &&& build_error(positions@.len() as int, triangles@) is None
                    &&& built_from(m@, positions@, triangles@)
                    &&& m@.wf()
                },
                Err(e) => build_error(positions@.len() as int, triangles@) == Some(e),
            },
    {
        let n = positions.len();
        let ghost tris = triangles@;
        let mut vertices: Vec<Vertex> = Vec::new();
        let mut outgoing: Vec<Vec<(usize, usize)>> = Vec::new();
        let mut v: usize = 0;
        while v < n
            invariant
                v <= n,
                vertices@.len() == v,
                outgoing@.len() == v,
                forall|i: int| 0 <= i < v ==> (#[trigger] vertices@[i]).halfedge is None,
                forall|i: int| 0 <= i < v ==> (#[trigger] outgoing@[i])@.len() == 0,
            decreases n - v,
        {
            vertices.push(Vertex { halfedge: None });
            outgoing.push(Vec::new());
            v = v + 1;
        }
        let mut b = Builder {
            vertices,
            edges: Vec::new(),
            halfedges: Vec::new(),
            outgoing,
            slot: Ghost(Seq::empty()),
        };
        let mut faces: Vec<Face> = Vec::new();
        let mut t: usize = 0;
        while t < triangles.len()
            invariant
                n == positions@.len(),
                tris == triangles@,
                t <= tris.len(),
                3 * tris.len() < usize::MAX,
                b.inv(n as int, tris),
                b.count() == 3 * t,
                error_upto(n as int, tris, t as nat) is None,
                faces@.len() == t,
                forall|f: int|
                    0 <= f < t ==> #[trigger] faces@[f] == (Face {
                        halfedge: (3 * f) as usize,
                        boundary: false,
                    }),
            decreases tris.len() - t,
        {
            let tri = triangles[t];
            let x = tri[0];
            let y = tri[1];
            let z = tri[2];
            proof {
                assert(corner(tris, 3 * t) == x);
                assert(corner(tris, 3 * t + 1) == y);
                assert(corner(tris, 3 * t + 2) == z);
                assert(corner_dest(tris, 3 * t) == y);
                assert(corner_dest(tris, 3 * t + 1) == z);
                assert(corner_dest(tris, 3 * t + 2) == x);
            }
            if x >= n || y >= n || z >= n {
                proof {
                    lemma_error_persists(n as int, tris, (t + 1) as nat, tris.len());
                }
                return Err(BuildError::InvalidIndex);
            }
            if x == y || y == z || z == x {
                proof {
                    lemma_error_persists(n as int, tris, (t + 1) as nat, tris.len());
                }
                return Err(BuildError::DegenerateTriangle);
            }
            let d0 = b.find(Ghost(n as int), Ghost(tris), x, y);
            let d1 = b.find(Ghost(n as int), Ghost(tris), y, z);
            let d2 = b.find(Ghost(n as int), Ghost(tris), z, x);
            if d0.is_some() || d1.is_some() || d2.is_some() {
                proof {
                    lemma_error_persists(n as int, tris, (t + 1) as nat, tris.len());
                }
                return Err(BuildError::NonManifoldEdge);
            }
            proof {
                assert(triangle_error(n as int, tris, t as int) is None);
            }
            b.add_halfedge(Ghost(n as int), Ghost(tris), x, y);
            b.add_halfedge(Ghost(n as int), Ghost(tris), y, z);
            b.add_halfedge(Ghost(n as int), Ghost(tris), z, x);
            faces.push(Face { halfedge: 3 * t, boundary: false });
            t = t + 1;
        }
        let Builder { vertices, edges, halfedges, .. } = b;
        let m = Mesh::from_parts(positions, vertices, edges, faces, halfedges);
        proof {
            lemma_finished(b, n as int, tris, positions@, faces@, m@);
            built_mesh_is_well_formed(m@, positions@, tris);
        }
        Ok(m)
    }
}

} // verus!
