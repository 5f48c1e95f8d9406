//! How a subdivision round proceeds: what walking the edges does to the vertices,
//! and why the faces built along the way are the faces of the refined mesh.

use vstd::prelude::*;
use crate::mesh::{
    child_face, edge_walk, face_edge, faces_within, has_midpoints, midpoint, midpoints_unique,
    with_midpoint, with_midpoints, Face, Vertex,
};

verus! {

/// Extending a walk by one edge extends the vertices by at most its midpoint.
pub proof fn lemma_with_midpoints_next(vertices: Seq<Vertex>, walk: Seq<(usize, usize)>, k: int)
    requires
        0 <= k < walk.len(),
    ensures
        with_midpoints(vertices, walk.take(k + 1)) == with_midpoint(
            with_midpoints(vertices, walk.take(k)),
            walk[k],
        ),
{
    assert(walk.take(k + 1).drop_last() =~= walk.take(k));
}

/// Walking the three edges of face `i` after the edges of the faces before it is
/// walking the edges of the first `i + 1` faces.
pub proof fn lemma_walk_step(vertices: Seq<Vertex>, faces: Seq<Face>, i: int)
    requires
        0 <= i < faces.len(),
    ensures
        with_midpoints(vertices, edge_walk(faces).take(3 * (i + 1))) == with_midpoint(
            with_midpoint(
                with_midpoint(
                    with_midpoints(vertices, edge_walk(faces).take(3 * i)),
                    face_edge(faces[i], 0),
                ),
                face_edge(faces[i], 1),
            ),
            face_edge(faces[i], 2),
        ),
{
    let walk = edge_walk(faces);
    assert(walk[3 * i] == face_edge(faces[i], 0));
    assert(walk[3 * i + 1] == face_edge(faces[i], 1));
    assert(walk[3 * i + 2] == face_edge(faces[i], 2));
    lemma_with_midpoints_next(vertices, walk, 3 * i);
    lemma_with_midpoints_next(vertices, walk, 3 * i + 1);
    lemma_with_midpoints_next(vertices, walk, 3 * i + 2);
}

/// A longer walk leaves at least as many vertices.
pub proof fn lemma_with_midpoints_monotonic(
    vertices: Seq<Vertex>,
    walk: Seq<(usize, usize)>,
    k: int,
)
    requires
        0 <= k <= walk.len(),
    ensures
        with_midpoints(vertices, walk.take(k)).len() <= with_midpoints(vertices, walk).len(),
    decreases walk.len() - k,
{
    if k < walk.len() {
        lemma_with_midpoints_monotonic(vertices, walk, k + 1);
        lemma_with_midpoints_next(vertices, walk, k);
    } else {
        assert(walk.take(k) =~= walk);
    }
}

/// What a walk does to the vertices: it keeps those that were there, holds the
/// midpoint of every edge it visits, appends nothing but such midpoints, and
/// appends none twice.
pub proof fn lemma_with_midpoints_grows(vertices: Seq<Vertex>, walk: Seq<(usize, usize)>)
    ensures
        vertices.is_prefix_of(with_midpoints(vertices, walk)),
        forall|i: int|
            0 <= i < walk.len() ==> with_midpoints(vertices, walk).contains(
                midpoint(#[trigger] walk[i]),
            ),
        forall|j: int|
            vertices.len() <= j < with_midpoints(vertices, walk).len() ==> exists|i: int|
                0 <= i < walk.len() && #[trigger] with_midpoints(vertices, walk)[j] == midpoint(
                    #[trigger] walk[i],
                ),
        midpoints_unique(vertices) ==> midpoints_unique(with_midpoints(vertices, walk)),
    decreases walk.len(),
{
    if walk.len() > 0 {
        let shorter = walk.drop_last();
        let before = with_midpoints(vertices, shorter);
        let after = with_midpoints(vertices, walk);
        let v = midpoint(walk.last());
        lemma_with_midpoints_grows(vertices, shorter);
        assert(before.is_prefix_of(after));
        assert(after.contains(v)) by {
            if before.contains(v) {
                assert(after[before.index_of(v)] == v);
            } else {
                assert(after[before.len() as int] == v);
            }
        }
        assert forall|i: int| 0 <= i < walk.len() implies after.contains(
            midpoint(#[trigger] walk[i]),
        ) by {
            if i < shorter.len() {
                let w = midpoint(shorter[i]);
                assert(before.contains(w));
                assert(after[before.index_of(w)] == w);
            }
        }
        assert forall|j: int| vertices.len() <= j < after.len() implies exists|i: int|
            0 <= i < walk.len() && #[trigger] after[j] == midpoint(#[trigger] walk[i]) by {
            if j < before.len() {
                let i = choose|i: int|
                    0 <= i < shorter.len() && #[trigger] before[j] == midpoint(
                        #[trigger] shorter[i],
                    );
                assert(after[j] == midpoint(walk[i]));
            } else {
                assert(after[j] == midpoint(walk[walk.len() - 1]));
            }
        }
        if midpoints_unique(vertices) {
            assert forall|i: int, j: int|
                0 <= i < j < after.len() && after[i] is Midpoint implies #[trigger] after[i]
                != #[trigger] after[j] by {
                assert(after[i] == before[i]);
                if j < before.len() {
                    assert(after[j] == before[j]);
                } else {
                    assert(before.contains(before[i]));
                }
            }
        }
    }
}

/// A midpoint keeps its index when vertices are appended.
pub proof fn lemma_index_stable(shorter: Seq<Vertex>, longer: Seq<Vertex>, v: Vertex)
    requires
        shorter.is_prefix_of(longer),
        midpoints_unique(longer),
        shorter.contains(v),
        v is Midpoint,
    ensures
        longer.index_of(v) == shorter.index_of(v),
        0 <= shorter.index_of(v) < shorter.len(),
        shorter[shorter.index_of(v)] == v,
{
    let i = shorter.index_of(v);
    assert(0 <= i < shorter.len() && shorter[i] == v);
    assert(longer[i] == v);
    let j = longer.index_of(v);
    assert(0 <= j < longer.len() && longer[j] == v);
    if i < j {
        assert(longer[i] != longer[j]);
    } else if j < i {
        assert(longer[j] != longer[i]);
    }
}

/// Midpoints that are present stay present when vertices are appended.
pub proof fn lemma_has_midpoints_stable(shorter: Seq<Vertex>, longer: Seq<Vertex>, f: Face)
    requires
        shorter.is_prefix_of(longer),
        has_midpoints(shorter, f),
    ensures
        has_midpoints(longer, f),
{
    assert(longer[shorter.index_of(midpoint(face_edge(f, 0)))] == midpoint(face_edge(f, 0)));
    assert(longer[shorter.index_of(midpoint(face_edge(f, 1)))] == midpoint(face_edge(f, 1)));
    assert(longer[shorter.index_of(midpoint(face_edge(f, 2)))] == midpoint(face_edge(f, 2)));
}

/// The children of a face whose midpoints are present do not change when vertices
/// are appended.
pub proof fn lemma_child_face_stable(shorter: Seq<Vertex>, longer: Seq<Vertex>, f: Face, k: int)
    requires
        shorter.is_prefix_of(longer),
        midpoints_unique(longer),
        has_midpoints(shorter, f),
    ensures
        child_face(longer, f, k) == child_face(shorter, f, k),
{
    lemma_index_stable(shorter, longer, midpoint(face_edge(f, 0)));
    lemma_index_stable(shorter, longer, midpoint(face_edge(f, 1)));
    lemma_index_stable(shorter, longer, midpoint(face_edge(f, 2)));
}

/// The children of a face lie within the vertices that hold its midpoints.
pub proof fn lemma_child_face_within(vertices: Seq<Vertex>, f: Face, k: int)
    requires
        has_midpoints(vertices, f),
        f.x < vertices.len() && f.y < vertices.len() && f.z < vertices.len(),
    ensures
        child_face(vertices, f, k).x < vertices.len(),
        child_face(vertices, f, k).y < vertices.len(),
        child_face(vertices, f, k).z < vertices.len(),
{
}

/// One step of a subdivision round. Before it, the first `i` faces have been
/// replaced and `before` holds the midpoints of their edges; the step splits the
/// edges of face `i` and appends its four children.
pub proof fn lemma_refine_step(
    vertices: Seq<Vertex>,
    faces: Seq<Face>,
    i: int,
    before: Seq<Vertex>,
    after: Seq<Vertex>,
    earlier: Seq<Face>,
    later: Seq<Face>,
)
    requires
        0 <= i < faces.len(),
        before == with_midpoints(vertices, edge_walk(faces).take(3 * i)),
        after == with_midpoint(
            with_midpoint(with_midpoint(before, face_edge(faces[i], 0)), face_edge(faces[i], 1)),
            face_edge(faces[i], 2),
        ),
        before.is_prefix_of(after),
        midpoints_unique(after),
        has_midpoints(after, faces[i]),
        faces[i].x < after.len() && faces[i].y < after.len() && faces[i].z < after.len(),
        forall|j: int| 0 <= j < i ==> has_midpoints(before, #[trigger] faces[j]),
        earlier.len() == 4 * i,
        forall|j: int|
            0 <= j < 4 * i ==> #[trigger] earlier[j] == child_face(before, faces[j / 4], j % 4),
        faces_within(earlier, before.len()),
        later == earlier.push(child_face(after, faces[i], 0)).push(
            child_face(after, faces[i], 1),
        ).push(child_face(after, faces[i], 2)).push(child_face(after, faces[i], 3)),
    ensures
        after == with_midpoints(vertices, edge_walk(faces).take(3 * (i + 1))),
        forall|j: int| 0 <= j < i + 1 ==> has_midpoints(after, #[trigger] faces[j]),
        later.len() == 4 * (i + 1),
        forall|j: int|
            0 <= j < 4 * (i + 1) ==> #[trigger] later[j] == child_face(
                after,
                faces[j / 4],
                j % 4,
            ),
        faces_within(later, after.len()),
{
    lemma_walk_step(vertices, faces, i);
    assert forall|j: int| 0 <= j < i + 1 implies has_midpoints(after, #[trigger] faces[j]) by {
        if j < i {
            lemma_has_midpoints_stable(before, after, faces[j]);
        }
    }
    assert forall|j: int| 0 <= j < 4 * (i + 1) implies #[trigger] later[j] == child_face(
        after,
        faces[j / 4],
        j % 4,
    ) by {
        if j < 4 * i {
            lemma_child_face_stable(before, after, faces[j / 4], j % 4);
        }
    }
    assert forall|j: int| 0 <= j < later.len() implies ({
        let f = #[trigger] later[j];
        f.x < after.len() && f.y < after.len() && f.z < after.len()
    }) by {
        if j < 4 * i {
            assert(later[j] == earlier[j]);
        } else {
            lemma_child_face_within(after, faces[i], j - 4 * i);
        }
    }
}

} // verus!
