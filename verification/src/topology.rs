//! Simplicial building blocks for topological learning: simplices with
//! sorted vertex lists, their faces, and the signed boundary operator.

use vstd::prelude::*;

verus! {

use vstd::multiset::Multiset;

/// Nondecreasing vertex order.
pub open spec fn verts_sorted(s: Seq<usize>) -> bool {
    forall|i: int, j: int| 0 <= i < j < s.len() ==> s[i] <= s[j]
}

/// One simplex: a sorted vertex list and its dimension, one less than the
/// vertex count.
#[derive(Debug, Clone)]
pub struct Simplex {
    vertices: Vec<usize>,
    dimension: usize,
}

impl Simplex {
    /// The sorted vertex list.
    pub closed spec fn verts(&self) -> Seq<usize> {
        self.vertices@
    }

    /// The dimension.
    pub closed spec fn dim(&self) -> nat {
        self.dimension as nat
    }

    /// Vertex count is one more than the dimension, and the list is sorted.
    pub open spec fn wf(&self) -> bool {
        &&& self.verts().len() >= 1
        &&& self.dim() == self.verts().len() - 1
        &&& verts_sorted(self.verts())
    }

    /// Builds the simplex over the given vertices, sorting them.
    pub fn new(vertices: Vec<usize>) -> (s: Simplex)
        requires
            vertices@.len() >= 1,
        ensures
            s.wf(),
            s.verts().to_multiset() == vertices@.to_multiset(),
            s.verts().len() == vertices@.len(),
    {
        let sorted = sort_vertices(&vertices);
        let dimension = sorted.len() - 1;
        Simplex { vertices: sorted, dimension }
    }

    /// Number of vertices.
    pub fn vertex_count(&self) -> (n: usize)
        ensures
            n == self.verts().len(),
    {
        self.vertices.len()
    }

    /// The vertex at one position.
    pub fn vertex_at(&self, i: usize) -> (v: usize)
        requires
            (i as int) < self.verts().len(),
        ensures
            v == self.verts()[i as int],
    {
        self.vertices[i]
    }

    /// The dimension of the simplex.
    pub fn dimension(&self) -> (d: usize)
        ensures
            d == self.dim(),
    {
        self.dimension
    }

    /// The faces: one simplex per dropped vertex, in drop order; a vertex
    /// (dimension zero) has no faces.
    pub fn faces(&self) -> (r: Vec<Simplex>)
        requires
            self.wf(),
        ensures
            self.dim() == 0 ==> r@.len() == 0,
            self.dim() > 0 ==> r@.len() == self.verts().len(),
            forall|k: int|
                0 <= k < r@.len() ==> (#[trigger] r@[k]).wf() && r@[k].verts()
                    == self.verts().remove(k),
    {
        if self.dimension == 0 {
            return Vec::new();
        }
        let n = self.vertices.len();
        let mut out: Vec<Simplex> = Vec::new();
        let mut i: usize = 0;
        while i < n
            invariant
                i <= n,
                n == self.verts().len(),
                n >= 2,
                self.wf(),
                out@.len() == i,
                forall|k: int|
                    0 <= k < i ==> (#[trigger] out@[k]).wf() && out@[k].verts()
                        == self.verts().remove(k),
            decreases n - i,
        {
            let mut face_vertices: Vec<usize> = Vec::new();
            let mut j: usize = 0;
            while j < n
                invariant
                    j <= n,
                    i < n,
                    n == self.verts().len(),
                    self.wf(),
                    face_vertices@.len() == (if j <= i {
                        j as int
                    } else {
                        j - 1
                    }),
                    forall|t: int|
                        0 <= t < face_vertices@.len() ==> #[trigger] face_vertices@[t]
                            == self.verts().remove(i as int)[t],
                decreases n - j,
            {
                if j != i {
                    proof {
                        if j < i {
                            assert(self.verts().remove(i as int)[j as int] == self.verts()[
                                j as int]);
                        } else {
                            assert(self.verts().remove(i as int)[j - 1] == self.verts()[j as int]);
                        }
                    }
                    face_vertices.push(self.vertices[j]);
                }
                j = j + 1;
            }
            proof {
                assert(face_vertices@ =~= self.verts().remove(i as int));
                assert(verts_sorted(self.verts().remove(i as int))) by {
                    assert forall|x: int, y: int|
                        0 <= x < y < self.verts().remove(i as int).len() implies self.verts().remove(
                        i as int,
                    )[x] <= self.verts().remove(i as int)[y] by {
                        let vx: int = if x < i as int {
                            x
                        } else {
                            x + 1
                        };
                        let vy: int = if y < i as int {
                            y
                        } else {
                            y + 1
                        };
                        assert(self.verts().remove(i as int)[x] == self.verts()[vx]);
                        assert(self.verts().remove(i as int)[y] == self.verts()[vy]);
                    }
                }
            }
            let face = Simplex { vertices: face_vertices, dimension: self.dimension - 1 };
            out.push(face);
            i = i + 1;
        }
        out
    }

    /// The boundary: each face paired with its alternating sign.
    pub fn boundary_operator(&self) -> (r: Vec<(Simplex, i32)>)
        requires
            self.wf(),
        ensures
            self.dim() == 0 ==> r@.len() == 0,
            self.dim() > 0 ==> r@.len() == self.verts().len(),
            forall|k: int|
                0 <= k < r@.len() ==> {
                    &&& (#[trigger] r@[k]).0.wf()
                    &&& r@[k].0.verts() == self.verts().remove(k)
                    &&& r@[k].1 == (if k % 2 == 0 {
                        1int
                    } else {
                        -1int
                    })
                },
    {
        let faces = self.faces();
        let mut out: Vec<(Simplex, i32)> = Vec::new();
        let n = faces.len();
        let mut k: usize = 0;
        while k < n
            invariant
                k <= n,
                n == faces@.len(),
                out@.len() == k,
                forall|t: int|
                    0 <= t < n ==> (#[trigger] faces@[t]).wf() && faces@[t].verts()
                        == self.verts().remove(t),
                forall|t: int|
                    0 <= t < k ==> {
                        &&& (#[trigger] out@[t]).0.wf()
                        &&& out@[t].0.verts() == self.verts().remove(t)
                        &&& out@[t].1 == (if t % 2 == 0 {
                            1int
                        } else {
                            -1int
                        })
                    },
            decreases n - k,
        {
            let sign: i32 = if k % 2 == 0 {
                1
            } else {
                -1
            };
            let face = Simplex {
                vertices: clone_usizes(&faces[k].vertices),
                dimension: faces[k].dimension,
            };
            proof {
                assert(face.verts() == faces@[k as int].verts());
            }
            out.push((face, sign));
            k = k + 1;
        }
        out
    }
}

/// Persistence-image shape parameters for homology features.
pub struct PersistentHomologyVectorizer {
    max_dimension: usize,
    resolution: usize,
}

impl PersistentHomologyVectorizer {
    /// Largest homology dimension examined.
    pub closed spec fn max_dim(&self) -> nat {
        self.max_dimension as nat
    }

    /// Output values per dimension.
    pub closed spec fn res(&self) -> nat {
        self.resolution as nat
    }

    pub fn new(max_dimension: usize, resolution: usize) -> (v: PersistentHomologyVectorizer)
        ensures
            v.max_dim() == max_dimension as nat,
            v.res() == resolution as nat,
    {
        PersistentHomologyVectorizer { max_dimension, resolution }
    }
}

/// Insertion sort into nondecreasing order; keeps the multiset.
fn sort_vertices(v: &Vec<usize>) -> (r: Vec<usize>)
    ensures
        verts_sorted(r@),
        r@.to_multiset() == v@.to_multiset(),
        r@.len() == v@.len(),
{
    let mut out: Vec<usize> = Vec::new();
    let n = v.len();
    let mut i: usize = 0;
    proof {
        broadcast use vstd::seq_lib::group_to_multiset_ensures;

        assert(v@.subrange(0, 0) =~= Seq::<usize>::empty());
    }
    while i < n
        invariant
            i <= n,
            n == v@.len(),
            verts_sorted(out@),
            out@.len() == i,
            out@.to_multiset() == v@.subrange(0, i as int).to_multiset(),
        decreases n - i,
    {
        let x = v[i];
        let m = out.len();
        let mut pos: usize = 0;
        while pos < m && out[pos] <= x
            invariant
                pos <= m,
                m == out@.len(),
                forall|t: int| 0 <= t < pos ==> #[trigger] out@[t] <= x,
            decreases m - pos,
        {
            pos = pos + 1;
        }
        let ghost before = out@;
        out.insert(pos, x);
        proof {
            broadcast use vstd::seq_lib::group_to_multiset_ensures;

            assert(verts_sorted(out@)) by {
                assert forall|a: int, b: int| 0 <= a < b < out@.len() implies out@[a] <= out@[b] by {
                    if a < pos as int && b < pos as int {
                        assert(out@[a] == before[a] && out@[b] == before[b]);
                    } else if a < pos as int && b == pos as int {
                        assert(out@[a] == before[a] && out@[b] == x);
                    } else if a < pos as int && b > pos as int {
                        assert(out@[a] == before[a] && out@[b] == before[b - 1]);
                    } else if a == pos as int {
                        assert(out@[a] == x && out@[b] == before[b - 1]);
                        assert(!(before[b - 1] <= x) ==> x <= before[b - 1]);
                        if b - 1 < pos as int {
                        } else {
                            if pos < m {
                                assert(x < before[pos as int]);
                                assert(before[pos as int] <= before[b - 1]);
                            }
                        }
                    } else {
                        assert(out@[a] == before[a - 1] && out@[b] == before[b - 1]);
                    }
                }
            }
            assert(out@.remove(pos as int) =~= before);
            assert(out@.remove(pos as int).to_multiset() =~= out@.to_multiset().remove(x));
            lemma_multiset_reinsert(out@.to_multiset(), before.to_multiset(), x);
            assert(v@.subrange(0, i + 1).drop_last() =~= v@.subrange(0, i as int));
            assert(v@.subrange(0, i + 1) =~= v@.subrange(0, i as int).push(x));
        }
        i = i + 1;
    }
    proof {
        assert(v@.subrange(0, n as int) =~= v@);
    }
    out
}

/// If removing one copy of `x` from `m1` gives `m2`, and `m1` holds `x`,
/// then `m1` is `m2` with `x` put back.
proof fn lemma_multiset_reinsert(m1: Multiset<usize>, m2: Multiset<usize>, x: usize)
    requires
        m1.count(x) >= 1,
        m1.remove(x) == m2,
    ensures
        m1 == m2.insert(x),
{
    assert(m1 =~= m2.insert(x));
}

/// A fresh copy of a vertex vector.
fn clone_usizes(v: &Vec<usize>) -> (r: Vec<usize>)
    ensures
        r@ == v@,
{
    let mut out: Vec<usize> = Vec::new();
    let n = v.len();
    let mut i: usize = 0;
    while i < n
        invariant
            i <= n,
            n == v@.len(),
            out@ == v@.subrange(0, i as int),
        decreases n - i,
    {
        out.push(v[i]);
        proof {
            assert(out@ =~= v@.subrange(0, i + 1));
        }
        i = i + 1;
    }
    proof {
        assert(v@.subrange(0, n as int) =~= v@);
    }
    out
}

} // verus!
