//! The icosahedron and the icospheres that subdivision makes of it.

use vstd::prelude::*;
use crate::census::{lemma_refine_vertex_count, lemma_refine_watertight, watertight};
use crate::mesh::{edge_walk, midpoint, Coord, Face, Mesh, Vertex};
use crate::surface::{closed_surface, dart, has_dart, proper, reversed, same_corners};
use crate::tile::{tiles_of, Tile};

verus! {

/// The deepest subdivision that is built. At this level a mesh has 1 342 177 280
/// faces, and every count and index still fits in 32 bits.
pub const MAX_RECURSION_LEVEL: i32 = 13;

/// The twelve corners of the icosahedron: the corners of three golden rectangles,
/// one in each coordinate plane.
pub open spec fn base_vertices() -> Seq<Vertex> {
    seq![
        Vertex::Corner { x: Coord::MinusOne, y: Coord::Phi, z: Coord::Zero },
        Vertex::Corner { x: Coord::One, y: Coord::Phi, z: Coord::Zero },
        Vertex::Corner { x: Coord::MinusOne, y: Coord::MinusPhi, z: Coord::Zero },
        Vertex::Corner { x: Coord::One, y: Coord::MinusPhi, z: Coord::Zero },
        Vertex::Corner { x: Coord::Zero, y: Coord::MinusOne, z: Coord::Phi },
        Vertex::Corner { x: Coord::Zero, y: Coord::One, z: Coord::Phi },
        Vertex::Corner { x: Coord::Zero, y: Coord::MinusOne, z: Coord::MinusPhi },
        Vertex::Corner { x: Coord::Zero, y: Coord::One, z: Coord::MinusPhi },
        Vertex::Corner { x: Coord::Phi, y: Coord::Zero, z: Coord::MinusOne },
        Vertex::Corner { x: Coord::Phi, y: Coord::Zero, z: Coord::One },
        Vertex::Corner { x: Coord::MinusPhi, y: Coord::Zero, z: Coord::MinusOne },
        Vertex::Corner { x: Coord::MinusPhi, y: Coord::Zero, z: Coord::One },
    ]
}

/// The twenty faces of the icosahedron, wound so that they face outwards: five
/// around corner 0, the five next to those, five around corner 3, and the five
/// next to those.
pub open spec fn base_faces() -> Seq<Face> {
    seq![
        Face { x: 0, y: 11, z: 5 },
        Face { x: 0, y: 5, z: 1 },
        Face { x: 0, y: 1, z: 7 },
        Face { x: 0, y: 7, z: 10 },
        Face { x: 0, y: 10, z: 11 },
        Face { x: 1, y: 5, z: 9 },
        Face { x: 5, y: 11, z: 4 },
        Face { x: 11, y: 10, z: 2 },
        Face { x: 10, y: 7, z: 6 },
        Face { x: 7, y: 1, z: 8 },
        Face { x: 3, y: 9, z: 4 },
        Face { x: 3, y: 4, z: 2 },
        Face { x: 3, y: 2, z: 6 },
        Face { x: 3, y: 6, z: 8 },
        Face { x: 3, y: 8, z: 9 },
        Face { x: 4, y: 9, z: 5 },
        Face { x: 2, y: 4, z: 11 },
        Face { x: 6, y: 2, z: 10 },
        Face { x: 8, y: 6, z: 7 },
        Face { x: 9, y: 8, z: 1 },
    ]
}

/// The icosahedron is a valid mesh.
pub proof fn lemma_base_valid()
    ensures
        (Mesh { vertices: base_vertices(), faces: base_faces() }).valid(),
{
}

/// For every face of the icosahedron, the faces on the other side of its edges from
/// `x` to `y`, from `y` to `z` and from `z` to `x`.
pub open spec fn base_neighbours() -> Seq<(int, int, int)> {
    seq![
        (4, 6, 1),
        (0, 5, 2),
        (1, 9, 3),
        (2, 8, 4),
        (3, 7, 0),
        (1, 15, 19),
        (0, 16, 15),
        (4, 17, 16),
        (3, 18, 17),
        (2, 19, 18),
        (14, 15, 11),
        (10, 16, 12),
        (11, 17, 13),
        (12, 18, 14),
        (13, 19, 10),
        (10, 5, 6),
        (11, 6, 7),
        (12, 7, 8),
        (13, 8, 9),
        (14, 9, 5),
    ]
}

/// The neighbour of a face of the icosahedron across an edge runs through that
/// edge in the other direction.
proof fn lemma_base_neighbour(i: int, k: int)
    requires
        0 <= i < 20,
        0 <= k < 3,
    ensures
        has_dart(base_faces(), reversed(dart(base_faces()[i], k))),
{
    let faces = base_faces();
    let n = base_neighbours()[i];
    let j = if k == 0 {
        n.0
    } else if k == 1 {
        n.1
    } else {
        n.2
    };
    let d = reversed(dart(faces[i], k));
    assert(0 <= j < 20);
    assert(dart(faces[j], 0) == d || dart(faces[j], 1) == d || dart(faces[j], 2) == d);
}

/// The faces of the icosahedron form a closed surface.
pub proof fn lemma_base_closed()
    ensures
        closed_surface(base_faces()),
{
    let faces = base_faces();
    assert forall|i: int| 0 <= i < faces.len() implies proper(#[trigger] faces[i]) by {}
    assert forall|i: int, k: int, j: int, l: int|
        0 <= i < faces.len() && 0 <= j < faces.len() && 0 <= k < 3 && 0 <= l < 3
            && #[trigger] dart(faces[i], k) == #[trigger] dart(faces[j], l) implies i == j && k
        == l by {}
    assert forall|i: int, k: int| 0 <= i < faces.len() && 0 <= k < 3 implies has_dart(
        faces,
        reversed(#[trigger] dart(faces[i], k)),
    ) by {
        lemma_base_neighbour(i, k);
    }
    assert forall|i: int, j: int|
        0 <= i < faces.len() && 0 <= j < faces.len() && i != j implies !same_corners(
        #[trigger] faces[i],
        #[trigger] faces[j],
    ) by {}
}

/// The icosahedron subdivided `level` times.
pub open spec fn icosphere(level: nat) -> Mesh
    decreases level,
{
    if level == 0 {
        Mesh { vertices: base_vertices(), faces: base_faces() }
    } else {
        icosphere((level - 1) as nat).refine()
    }
}

/// Four to the power `n`.
pub open spec fn four_pow(n: nat) -> nat
    decreases n,
{
    if n == 0 {
        1
    } else {
        4 * four_pow((n - 1) as nat)
    }
}

/// Powers of four grow with the exponent.
pub proof fn lemma_four_pow_monotonic(m: nat, n: nat)
    requires
        m <= n,
    ensures
        four_pow(m) <= four_pow(n),
    decreases n,
{
    if m < n {
        lemma_four_pow_monotonic(m, (n - 1) as nat);
    }
}

/// Below the deepest level a power of four is at most 16 777 216.
pub proof fn lemma_four_pow_bound(n: nat)
    requires
        n < MAX_RECURSION_LEVEL,
    ensures
        four_pow(n) <= 16_777_216,
{
    lemma_four_pow_monotonic(n, 12);
    assert(four_pow(12) == 16_777_216) by {
        reveal_with_fuel(four_pow, 13);
    }
}

/// Every round of subdivision replaces each face by four: an icosphere of level
/// `n` has `20 * 4^n` faces.
pub proof fn lemma_icosphere_face_count(n: nat)
    ensures
        icosphere(n).faces.len() == 20 * four_pow(n),
    decreases n,
{
    if n > 0 {
        lemma_icosphere_face_count((n - 1) as nat);
    }
}

/// Up to the deepest level, an icosphere of level `n` is watertight and has
/// `10 * 4^n + 2` vertices: every edge was split once, whichever of its two faces
/// the round came to first.
pub proof fn lemma_icosphere_vertex_count(n: nat)
    requires
        n <= MAX_RECURSION_LEVEL,
    ensures
        watertight(icosphere(n)),
        icosphere(n).vertices.len() == 10 * four_pow(n) + 2,
    decreases n,
{
    if n == 0 {
        lemma_base_valid();
        lemma_base_closed();
        assert forall|i: int| 0 <= i < edge_walk(base_faces()).len() implies !base_vertices().contains(
            midpoint(#[trigger] edge_walk(base_faces())[i]),
        ) by {
            let v = midpoint(edge_walk(base_faces())[i]);
            if base_vertices().contains(v) {
                let j = base_vertices().index_of(v);
                assert(base_vertices()[j] is Corner);
            }
        }
    } else {
        let before = icosphere((n - 1) as nat);
        lemma_icosphere_vertex_count((n - 1) as nat);
        lemma_icosphere_face_count((n - 1) as nat);
        lemma_refine_vertex_count(before);
        lemma_four_pow_bound((n - 1) as nat);
        lemma_refine_watertight(before);
    }
}

/// Two meshes built for the same level are the same: the same vertices in the same
/// order, and the same tiles in the same order.
pub proof fn lemma_generation_deterministic(
    level: nat,
    vertices1: Seq<Vertex>,
    tiles1: Seq<Tile>,
    vertices2: Seq<Vertex>,
    tiles2: Seq<Tile>,
)
    requires
        vertices1 == icosphere(level).vertices,
        tiles_of(tiles1, icosphere(level).faces),
        vertices2 == icosphere(level).vertices,
        tiles_of(tiles2, icosphere(level).faces),
    ensures
        vertices1 == vertices2,
        tiles1 == tiles2,
{
    assert forall|i: int| 0 <= i < tiles1.len() implies tiles1[i] == tiles2[i] by {
        assert(tiles1[i].mesh_vertices =~= tiles2[i].mesh_vertices);
    }
    assert(tiles1 =~= tiles2);
}

} // verus!
