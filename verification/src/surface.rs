//! Closed surfaces: meshes in which every edge lies between exactly two faces.
//!
//! A face contributes three darts, its edges with the direction in which the face
//! runs through them. On a closed, consistently wound surface every dart occurs
//! once, and so does its reverse, in the face on the other side of the edge.

use vstd::prelude::*;
use crate::mesh::{
    child_of, face_edge, faces_within, midpoint, midpoint_index, refine_faces, Face, Vertex,
};

verus! {

/// The `k`-th dart of `f`: from `x` to `y`, from `y` to `z`, from `z` to `x`.
pub open spec fn dart(f: Face, k: int) -> (usize, usize) {
    if k == 0 {
        (f.x, f.y)
    } else if k == 1 {
        (f.y, f.z)
    } else {
        (f.z, f.x)
    }
}

/// The dart `d` run through backwards.
pub open spec fn reversed(d: (usize, usize)) -> (usize, usize) {
    (d.1, d.0)
}

/// The three corners of `f` differ.
pub open spec fn proper(f: Face) -> bool {
    f.x != f.y && f.y != f.z && f.z != f.x
}

/// Every corner of `f` is a corner of `g`.
pub open spec fn same_corners(f: Face, g: Face) -> bool {
    &&& f.x == g.x || f.x == g.y || f.x == g.z
    &&& f.y == g.x || f.y == g.y || f.y == g.z
    &&& f.z == g.x || f.z == g.y || f.z == g.z
}

/// The corners of `f` lie below `count`, and `a`, `b`, `c` at or above it.
pub open spec fn split_by(f: Face, a: usize, b: usize, c: usize, count: nat) -> bool {
    &&& f.x < count && f.y < count && f.z < count
    &&& count <= a && count <= b && count <= c
}

/// The vertex that splits the `k`-th edge of a face whose edges `a`, `b`, `c` split.
pub open spec fn split_of(a: usize, b: usize, c: usize, k: int) -> usize {
    if k == 0 {
        a
    } else if k == 1 {
        b
    } else {
        c
    }
}

/// The vertices that split the edges of `f` and of `g` are the same exactly where
/// the edges are.
pub open spec fn agree(
    f: Face,
    a: usize,
    b: usize,
    c: usize,
    g: Face,
    a2: usize,
    b2: usize,
    c2: usize,
) -> bool {
    forall|i: int, j: int|
        0 <= i < 3 && 0 <= j < 3 ==> ((#[trigger] split_of(a, b, c, i) == #[trigger] split_of(
            a2,
            b2,
            c2,
            j,
        )) <==> face_edge(f, i) == face_edge(g, j))
}

/// Two children with a dart in common stem from faces with a dart in common, or
/// from faces with the same corners; children of one face are the same child and
/// the dart is the same dart of it.
pub proof fn lemma_children_share_dart(
    f: Face,
    a: usize,
    b: usize,
    c: usize,
    g: Face,
    a2: usize,
    b2: usize,
    c2: usize,
    count: nat,
    k: int,
    k2: int,
    r: int,
    s: int,
)
    requires
        proper(f),
        proper(g),
        split_by(f, a, b, c, count),
        split_by(g, a2, b2, c2, count),
        agree(f, a, b, c, g, a2, b2, c2),
        agree(f, a, b, c, f, a, b, c),
        0 <= k < 4,
        0 <= k2 < 4,
        0 <= r < 3,
        0 <= s < 3,
        dart(child_of(f, a, b, c, k), r) == dart(child_of(g, a2, b2, c2, k2), s),
    ensures
        ({
            ||| r == 0 && s == 0 && k < 3 && k2 < 3 && dart(f, k) == dart(g, k2)
            ||| r == 2 && s == 2 && k < 3 && k2 < 3 && dart(f, (k + 2) % 3) == dart(
                g,
                (k2 + 2) % 3,
            )
            ||| same_corners(f, g) && (f == g ==> k == k2 && r == s)
        }),
{
    assert(split_of(a, b, c, 0) == a && split_of(a, b, c, 1) == b && split_of(a, b, c, 2) == c);
    assert(split_of(a2, b2, c2, 0) == a2 && split_of(a2, b2, c2, 1) == b2 && split_of(
        a2,
        b2,
        c2,
        2,
    ) == c2);
}

/// Two children with the same corners stem from faces with the same corners, and
/// children of one face are the same child.
pub proof fn lemma_children_same_corners(
    f: Face,
    a: usize,
    b: usize,
    c: usize,
    g: Face,
    a2: usize,
    b2: usize,
    c2: usize,
    count: nat,
    k: int,
    k2: int,
)
    requires
        proper(f),
        proper(g),
        split_by(f, a, b, c, count),
        split_by(g, a2, b2, c2, count),
        agree(f, a, b, c, g, a2, b2, c2),
        agree(f, a, b, c, f, a, b, c),
        0 <= k < 4,
        0 <= k2 < 4,
        same_corners(child_of(f, a, b, c, k), child_of(g, a2, b2, c2, k2)),
    ensures
        same_corners(f, g),
        f == g ==> k == k2,
{
    assert(split_of(a, b, c, 0) == a && split_of(a, b, c, 1) == b && split_of(a, b, c, 2) == c);
    assert(split_of(a2, b2, c2, 0) == a2 && split_of(a2, b2, c2, 1) == b2 && split_of(
        a2,
        b2,
        c2,
        2,
    ) == c2);
}

/// The children of a proper face are proper.
pub proof fn lemma_children_proper(f: Face, a: usize, b: usize, c: usize, count: nat, k: int)
    requires
        proper(f),
        split_by(f, a, b, c, count),
        agree(f, a, b, c, f, a, b, c),
    ensures
        proper(child_of(f, a, b, c, k)),
{
    assert(split_of(a, b, c, 0) == a && split_of(a, b, c, 1) == b && split_of(a, b, c, 2) == c);
}

/// Where `g` runs backwards through the `k`-th dart of `f`, the children of `g`
/// run backwards through both halves of it.
pub proof fn lemma_outer_darts_reversed(
    f: Face,
    a: usize,
    b: usize,
    c: usize,
    g: Face,
    a2: usize,
    b2: usize,
    c2: usize,
    k: int,
    k2: int,
)
    requires
        agree(f, a, b, c, g, a2, b2, c2),
        0 <= k < 3,
        0 <= k2 < 3,
        dart(g, k2) == reversed(dart(f, k)),
    ensures
        dart(child_of(g, a2, b2, c2, (k2 + 1) % 3), 2) == reversed(
            dart(child_of(f, a, b, c, k), 0),
        ),
        dart(child_of(g, a2, b2, c2, k2), 0) == reversed(
            dart(child_of(f, a, b, c, (k + 1) % 3), 2),
        ),
{
    assert(split_of(a, b, c, 0) == a && split_of(a, b, c, 1) == b && split_of(a, b, c, 2) == c);
    assert(split_of(a2, b2, c2, 0) == a2 && split_of(a2, b2, c2, 1) == b2 && split_of(
        a2,
        b2,
        c2,
        2,
    ) == c2);
}

/// The darts between the midpoints of a face pair off: the inner dart of each
/// corner child is the reverse of a dart of the centre child.
pub proof fn lemma_inner_darts_reversed(f: Face, a: usize, b: usize, c: usize, k: int)
    requires
        0 <= k < 3,
    ensures
        dart(child_of(f, a, b, c, 3), (k + 2) % 3) == reversed(dart(child_of(f, a, b, c, k), 1)),
        dart(child_of(f, a, b, c, (k + 1) % 3), 1) == reversed(dart(child_of(f, a, b, c, 3), k)),
{
}

/// Some face of `faces` runs through the dart `d`.
pub open spec fn has_dart(faces: Seq<Face>, d: (usize, usize)) -> bool {
    exists|i: int, k: int| 0 <= i < faces.len() && 0 <= k < 3 && #[trigger] dart(faces[i], k) == d
}

/// `faces` form a closed surface: every face is proper, no dart occurs twice, the
/// reverse of every dart occurs, and no two faces have the same corners.
pub open spec fn closed_surface(faces: Seq<Face>) -> bool {
    &&& forall|i: int| 0 <= i < faces.len() ==> proper(#[trigger] faces[i])
    &&& forall|i: int, k: int, j: int, l: int|
        0 <= i < faces.len() && 0 <= j < faces.len() && 0 <= k < 3 && 0 <= l < 3
            && #[trigger] dart(faces[i], k) == #[trigger] dart(faces[j], l) ==> i == j && k == l
    &&& forall|i: int, k: int|
        0 <= i < faces.len() && 0 <= k < 3 ==> has_dart(
            faces,
            reversed(#[trigger] dart(faces[i], k)),
        )
    &&& forall|i: int, j: int|
        0 <= i < faces.len() && 0 <= j < faces.len() && i != j ==> !same_corners(
            #[trigger] faces[i],
            #[trigger] faces[j],
        )
}

/// The index in `vertices` of the vertex that splits the `k`-th edge of `f`.
pub open spec fn split_index(vertices: Seq<Vertex>, f: Face, k: int) -> int {
    vertices.index_of(midpoint(face_edge(f, k)))
}

/// `vertices` hold the midpoints of the three edges of `f`, at or above `count`.
pub open spec fn splits(vertices: Seq<Vertex>, count: nat, f: Face) -> bool {
    forall|k: int|
        0 <= k < 3 ==> {
            let i = #[trigger] split_index(vertices, f, k);
            count <= i < vertices.len() && vertices[i] == midpoint(face_edge(f, k))
        }
}

/// `vertices` hold the midpoints of all edges of `faces`, at or above `count`, and
/// the corners of `faces` lie below `count`.
pub open spec fn splits_all(vertices: Seq<Vertex>, count: nat, faces: Seq<Face>) -> bool {
    &&& vertices.len() <= usize::MAX
    &&& faces_within(faces, count)
    &&& forall|i: int| 0 <= i < faces.len() ==> splits(vertices, count, #[trigger] faces[i])
}

/// The vertices that split two faces agree with their edges.
pub proof fn lemma_splits_agree(vertices: Seq<Vertex>, count: nat, f: Face, g: Face)
    requires
        vertices.len() <= usize::MAX,
        splits(vertices, count, f),
        splits(vertices, count, g),
    ensures
        agree(
            f,
            midpoint_index(vertices, f.x, f.y) as usize,
            midpoint_index(vertices, f.y, f.z) as usize,
            midpoint_index(vertices, f.z, f.x) as usize,
            g,
            midpoint_index(vertices, g.x, g.y) as usize,
            midpoint_index(vertices, g.y, g.z) as usize,
            midpoint_index(vertices, g.z, g.x) as usize,
        ),
        count <= midpoint_index(vertices, f.x, f.y) as usize,
        count <= midpoint_index(vertices, f.y, f.z) as usize,
        count <= midpoint_index(vertices, f.z, f.x) as usize,
{
    assert(split_index(vertices, f, 0) == midpoint_index(vertices, f.x, f.y));
    assert(split_index(vertices, f, 1) == midpoint_index(vertices, f.y, f.z));
    assert(split_index(vertices, f, 2) == midpoint_index(vertices, f.z, f.x));
    assert(split_index(vertices, g, 0) == midpoint_index(vertices, g.x, g.y));
    assert(split_index(vertices, g, 1) == midpoint_index(vertices, g.y, g.z));
    assert(split_index(vertices, g, 2) == midpoint_index(vertices, g.z, g.x));
}

/// The children of the faces of a closed surface are proper.
pub proof fn lemma_refine_proper(vertices: Seq<Vertex>, count: nat, faces: Seq<Face>, i: int)
    requires
        closed_surface(faces),
        splits_all(vertices, count, faces),
        0 <= i < 4 * faces.len(),
    ensures
        proper(refine_faces(vertices, faces)[i]),
{
    let f = faces[i / 4];
    lemma_splits_agree(vertices, count, f, f);
    lemma_children_proper(
        f,
        midpoint_index(vertices, f.x, f.y) as usize,
        midpoint_index(vertices, f.y, f.z) as usize,
        midpoint_index(vertices, f.z, f.x) as usize,
        count,
        i % 4,
    );
}

/// No dart occurs twice among the children of the faces of a closed surface.
pub proof fn lemma_refine_darts_differ(
    vertices: Seq<Vertex>,
    count: nat,
    faces: Seq<Face>,
    i: int,
    r: int,
    j: int,
    s: int,
)
    requires
        closed_surface(faces),
        splits_all(vertices, count, faces),
        0 <= i < 4 * faces.len(),
        0 <= j < 4 * faces.len(),
        0 <= r < 3,
        0 <= s < 3,
        dart(refine_faces(vertices, faces)[i], r) == dart(refine_faces(vertices, faces)[j], s),
    ensures
        i == j,
        r == s,
{
    let f = faces[i / 4];
    let g = faces[j / 4];
    lemma_splits_agree(vertices, count, f, g);
    lemma_splits_agree(vertices, count, f, f);
    lemma_splits_agree(vertices, count, g, g);
    lemma_children_share_dart(
        f,
        midpoint_index(vertices, f.x, f.y) as usize,
        midpoint_index(vertices, f.y, f.z) as usize,
        midpoint_index(vertices, f.z, f.x) as usize,
        g,
        midpoint_index(vertices, g.x, g.y) as usize,
        midpoint_index(vertices, g.y, g.z) as usize,
        midpoint_index(vertices, g.z, g.x) as usize,
        count,
        i % 4,
        j % 4,
        r,
        s,
    );
    if r == 0 && s == 0 && i % 4 < 3 && j % 4 < 3 && dart(f, i % 4) == dart(g, j % 4) {
    } else if r == 2 && s == 2 && i % 4 < 3 && j % 4 < 3 && dart(f, (i % 4 + 2) % 3) == dart(
        g,
        (j % 4 + 2) % 3,
    ) {
    } else {
        assert(same_corners(f, g));
        assert(i / 4 == j / 4);
    }
}

/// No two children of the faces of a closed surface have the same corners.
pub proof fn lemma_refine_corners_differ(
    vertices: Seq<Vertex>,
    count: nat,
    faces: Seq<Face>,
    i: int,
    j: int,
)
    requires
        closed_surface(faces),
        splits_all(vertices, count, faces),
        0 <= i < 4 * faces.len(),
        0 <= j < 4 * faces.len(),
        same_corners(refine_faces(vertices, faces)[i], refine_faces(vertices, faces)[j]),
    ensures
        i == j,
{
    let f = faces[i / 4];
    let g = faces[j / 4];
    lemma_splits_agree(vertices, count, f, g);
    lemma_splits_agree(vertices, count, f, f);
    lemma_splits_agree(vertices, count, g, g);
    lemma_children_same_corners(
        f,
        midpoint_index(vertices, f.x, f.y) as usize,
        midpoint_index(vertices, f.y, f.z) as usize,
        midpoint_index(vertices, f.z, f.x) as usize,
        g,
        midpoint_index(vertices, g.x, g.y) as usize,
        midpoint_index(vertices, g.y, g.z) as usize,
        midpoint_index(vertices, g.z, g.x) as usize,
        count,
        i % 4,
        j % 4,
    );
    assert(i / 4 == j / 4);
}

/// The reverse of every dart of a child of a face of a closed surface is a dart
/// of a child.
pub proof fn lemma_refine_dart_reversed(
    vertices: Seq<Vertex>,
    count: nat,
    faces: Seq<Face>,
    i: int,
    r: int,
)
    requires
        closed_surface(faces),
        splits_all(vertices, count, faces),
        0 <= i < 4 * faces.len(),
        0 <= r < 3,
    ensures
        has_dart(refine_faces(vertices, faces), reversed(dart(refine_faces(vertices, faces)[i], r))),
{
    let children = refine_faces(vertices, faces);
    let f = faces[i / 4];
    let k = i % 4;
    let a = midpoint_index(vertices, f.x, f.y) as usize;
    let b = midpoint_index(vertices, f.y, f.z) as usize;
    let c = midpoint_index(vertices, f.z, f.x) as usize;
    let wanted = reversed(dart(children[i], r));
    if k < 3 && r != 1 {
        // Half of an edge of `f`: the other side is a child of the face across it.
        let k0 = if r == 0 {
            k
        } else {
            (k + 2) % 3
        };
        assert(has_dart(faces, reversed(dart(faces[i / 4], k0))));
        let (j, l): (int, int) = choose|j: int, l: int|
            0 <= j < faces.len() && 0 <= l < 3 && #[trigger] dart(faces[j], l) == reversed(
                dart(f, k0),
            );
        let g = faces[j];
        lemma_splits_agree(vertices, count, f, g);
        lemma_outer_darts_reversed(
            f,
            a,
            b,
            c,
            g,
            midpoint_index(vertices, g.x, g.y) as usize,
            midpoint_index(vertices, g.y, g.z) as usize,
            midpoint_index(vertices, g.z, g.x) as usize,
            k0,
            l,
        );
        if r == 0 {
            let t = 4 * j + (l + 1) % 3;
            assert(t / 4 == j && t % 4 == (l + 1) % 3);
            assert(dart(children[t], 2) == wanted);
        } else {
            let t = 4 * j + l;
            assert(t / 4 == j && t % 4 == l);
            assert(dart(children[t], 0) == wanted);
        }
    } else {
        // A dart between two midpoints of `f`: the other side is a child of `f`.
        if k < 3 {
            lemma_inner_darts_reversed(f, a, b, c, k);
            let t = 4 * (i / 4) + 3;
            assert(t / 4 == i / 4 && t % 4 == 3);
            assert(dart(children[t], (k + 2) % 3) == wanted);
        } else {
            lemma_inner_darts_reversed(f, a, b, c, r);
            let t = 4 * (i / 4) + (r + 1) % 3;
            assert(t / 4 == i / 4 && t % 4 == (r + 1) % 3);
            assert(dart(children[t], 1) == wanted);
        }
    }
}

/// Subdividing a closed surface gives a closed surface.
pub proof fn lemma_refine_closed(vertices: Seq<Vertex>, count: nat, faces: Seq<Face>)
    requires
        closed_surface(faces),
        splits_all(vertices, count, faces),
    ensures
        closed_surface(refine_faces(vertices, faces)),
{
    let children = refine_faces(vertices, faces);
    assert forall|i: int| 0 <= i < children.len() implies proper(#[trigger] children[i]) by {
        lemma_refine_proper(vertices, count, faces, i);
    }
    assert forall|i: int, k: int, j: int, l: int|
        0 <= i < children.len() && 0 <= j < children.len() && 0 <= k < 3 && 0 <= l < 3
            && #[trigger] dart(children[i], k) == #[trigger] dart(children[j], l) implies i == j
        && k == l by {
        lemma_refine_darts_differ(vertices, count, faces, i, k, j, l);
    }
    assert forall|i: int, k: int| 0 <= i < children.len() && 0 <= k < 3 implies has_dart(
        children,
        reversed(#[trigger] dart(children[i], k)),
    ) by {
        lemma_refine_dart_reversed(vertices, count, faces, i, k);
    }
    assert forall|i: int, j: int|
        0 <= i < children.len() && 0 <= j < children.len() && i != j implies !same_corners(
        #[trigger] children[i],
        #[trigger] children[j],
    ) by {
        if same_corners(children[i], children[j]) {
            lemma_refine_corners_differ(vertices, count, faces, i, j);
        }
    }
}

} // verus!
