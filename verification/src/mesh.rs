//! The mathematical model of an icosphere mesh.
//!
//! A mesh is a sequence of vertices and a sequence of triangular faces over them.
//! Vertices are symbolic: a vertex is either one of the fixed corners of the
//! icosahedron or the midpoint of two earlier vertices. Every vertex stands for the
//! point it names projected onto the unit sphere, so the whole mesh is determined
//! by integers alone and the host is left with nothing but arithmetic on
//! coordinates.

use vstd::prelude::*;

verus! {

/// The largest number of vertices a mesh may hold: every vertex index fits in 32 bits.
pub const INDEX_LIMIT: usize = 0xFFFF_FFFF;

/// One coordinate of a corner of the icosahedron, in units in which the short side
/// of its golden rectangles is 2. `Phi` is the golden ratio, about 1.618033988749895.
#[derive(Clone, Copy, Debug, PartialEq, Eq, Hash, Structural)]
pub enum Coord {
    Zero,
    One,
    MinusOne,
    Phi,
    MinusPhi,
}

/// A point of the unit sphere, named by how it is constructed.
#[derive(Clone, Copy, Debug, PartialEq, Eq, Hash, Structural)]
pub enum Vertex {
    /// The point with the given coordinates, projected onto the unit sphere.
    Corner { x: Coord, y: Coord, z: Coord },
    /// The arithmetic midpoint of the vertices with indices `low` and `high`,
    /// projected onto the unit sphere.
    Midpoint { low: usize, high: usize },
}

impl Vertex {
    /// The vertex names the origin, which has no projection onto the sphere.
    pub open spec fn is_origin(self) -> bool {
        self == (Vertex::Corner { x: Coord::Zero, y: Coord::Zero, z: Coord::Zero })
    }
}

/// A triangle, as the indices of its three vertices in winding order.
#[derive(Clone, Copy, Debug, PartialEq, Eq, Hash, Structural)]
pub struct Face {
    pub x: usize,
    pub y: usize,
    pub z: usize,
}

/// A mesh: vertices, and faces that index into them.
pub struct Mesh {
    pub vertices: Seq<Vertex>,
    pub faces: Seq<Face>,
}

/// The undirected edge between `p` and `q`: the smaller index comes first.
pub open spec fn edge(p: usize, q: usize) -> (usize, usize) {
    if p < q {
        (p, q)
    } else {
        (q, p)
    }
}

/// The vertex that splits the edge `e`.
pub open spec fn midpoint(e: (usize, usize)) -> Vertex {
    Vertex::Midpoint { low: e.0, high: e.1 }
}

/// The `k`-th edge of `f`: from `x` to `y`, from `y` to `z`, from `z` to `x`.
pub open spec fn face_edge(f: Face, k: int) -> (usize, usize) {
    if k == 0 {
        edge(f.x, f.y)
    } else if k == 1 {
        edge(f.y, f.z)
    } else {
        edge(f.z, f.x)
    }
}

/// The edges of all faces in the order in which a subdivision round visits them.
pub open spec fn edge_walk(faces: Seq<Face>) -> Seq<(usize, usize)> {
    Seq::new(3 * faces.len(), |i: int| face_edge(faces[i / 3], i % 3))
}

/// `vertices`, with the midpoint of `e` appended unless it is already among them.
pub open spec fn with_midpoint(vertices: Seq<Vertex>, e: (usize, usize)) -> Seq<Vertex> {
    if vertices.contains(midpoint(e)) {
        vertices
    } else {
        vertices.push(midpoint(e))
    }
}

/// `vertices`, extended by the midpoints of the edges of `walk` in order of first
/// appearance; an edge whose midpoint is already present adds nothing.
pub open spec fn with_midpoints(vertices: Seq<Vertex>, walk: Seq<(usize, usize)>) -> Seq<Vertex>
    decreases walk.len(),
{
    if walk.len() == 0 {
        vertices
    } else {
        with_midpoint(with_midpoints(vertices, walk.drop_last()), walk.last())
    }
}

/// The index in `vertices` of the midpoint of the edge between `p` and `q`.
pub open spec fn midpoint_index(vertices: Seq<Vertex>, p: usize, q: usize) -> int {
    vertices.index_of(midpoint(edge(p, q)))
}

/// The `k`-th of the four faces that replace `f` when `a`, `b` and `c` split its
/// edges from `x` to `y`, from `y` to `z` and from `z` to `x`: the three corner
/// faces in the order of the corners, then the centre.
pub open spec fn child_of(f: Face, a: usize, b: usize, c: usize, k: int) -> Face {
    if k == 0 {
        Face { x: f.x, y: a, z: c }
    } else if k == 1 {
        Face { x: f.y, y: b, z: a }
    } else if k == 2 {
        Face { x: f.z, y: c, z: b }
    } else {
        Face { x: a, y: b, z: c }
    }
}

/// The `k`-th of the four faces that replace `f`, with the midpoints looked up in
/// `vertices`.
pub open spec fn child_face(vertices: Seq<Vertex>, f: Face, k: int) -> Face {
    child_of(
        f,
        midpoint_index(vertices, f.x, f.y) as usize,
        midpoint_index(vertices, f.y, f.z) as usize,
        midpoint_index(vertices, f.z, f.x) as usize,
        k,
    )
}

/// Every face of `faces` replaced by its four children, in order.
pub open spec fn refine_faces(vertices: Seq<Vertex>, faces: Seq<Face>) -> Seq<Face> {
    Seq::new(4 * faces.len(), |i: int| child_face(vertices, faces[i / 4], i % 4))
}

/// No midpoint occurs twice among `vertices`.
pub open spec fn midpoints_unique(vertices: Seq<Vertex>) -> bool {
    forall|i: int, j: int|
        0 <= i < j < vertices.len() && vertices[i] is Midpoint ==> #[trigger] vertices[i]
            != #[trigger] vertices[j]
}

/// The midpoints of the three edges of `f` are among `vertices`.
pub open spec fn has_midpoints(vertices: Seq<Vertex>, f: Face) -> bool {
    &&& vertices.contains(midpoint(face_edge(f, 0)))
    &&& vertices.contains(midpoint(face_edge(f, 1)))
    &&& vertices.contains(midpoint(face_edge(f, 2)))
}

/// Every face of `faces` refers to vertices below `count`.
pub open spec fn faces_within(faces: Seq<Face>, count: nat) -> bool {
    forall|k: int|
        0 <= k < faces.len() ==> {
            let f = #[trigger] faces[k];
            f.x < count && f.y < count && f.z < count
        }
}

impl Mesh {
    /// Midpoints split edges between earlier vertices, no midpoint occurs twice,
    /// faces refer to vertices of the mesh, and indices stay within `INDEX_LIMIT`.
    pub open spec fn valid(self) -> bool {
        &&& self.vertices.len() <= INDEX_LIMIT
        &&& forall|i: int|
            0 <= i < self.vertices.len() ==> (#[trigger] self.vertices[i] matches Vertex::Midpoint {
                low,
                high,
            } ==> low <= high < i)
        &&& midpoints_unique(self.vertices)
        &&& faces_within(self.faces, self.vertices.len())
    }

    /// One round of subdivision: every edge gets its midpoint, once, and every face
    /// is replaced by four.
    pub open spec fn refine(self) -> Mesh {
        let vertices = with_midpoints(self.vertices, edge_walk(self.faces));
        Mesh { vertices, faces: refine_faces(vertices, self.faces) }
    }
}

/// An edge is split by the same vertex in whichever direction it is named, and
/// asking for its midpoint again adds nothing.
pub proof fn lemma_midpoint_symmetric(vertices: Seq<Vertex>, p: usize, q: usize)
    ensures
        with_midpoint(vertices, edge(p, q)) == with_midpoint(vertices, edge(q, p)),
        midpoint_index(with_midpoint(vertices, edge(p, q)), p, q) == midpoint_index(
            with_midpoint(vertices, edge(q, p)),
            q,
            p,
        ),
        with_midpoint(with_midpoint(vertices, edge(p, q)), edge(q, p)) == with_midpoint(
            vertices,
            edge(p, q),
        ),
{
    assert(edge(p, q) == edge(q, p));
    let v = midpoint(edge(p, q));
    if !vertices.contains(v) {
        assert(vertices.push(v)[vertices.len() as int] == v);
    }
}

} // verus!
