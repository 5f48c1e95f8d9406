//! Counting: how many edges a closed surface has, and how many vertices a round of
//! subdivision adds.

use vstd::prelude::*;
use vstd::relations::injective_on;
use vstd::set_lib::{lemma_map_size, lemma_set_disjoint_lens};
use crate::mesh::{
    child_face, edge_walk, face_edge, has_midpoints, midpoint, with_midpoints, Face, Mesh,
    Vertex, INDEX_LIMIT,
};
use crate::refinement::{lemma_child_face_within, lemma_with_midpoints_grows};
use crate::surface::{
    closed_surface, dart, has_dart, lemma_refine_closed, lemma_splits_agree, proper, reversed,
    split_index, splits, splits_all,
};

verus! {

/// None of the edges of `walk` has its midpoint among `vertices`.
pub open spec fn unsplit(vertices: Seq<Vertex>, walk: Seq<(usize, usize)>) -> bool {
    forall|i: int| 0 <= i < walk.len() ==> !vertices.contains(midpoint(#[trigger] walk[i]))
}

/// A walk over edges that are not split yet adds one vertex for each edge,
/// however often it visits the edge.
pub proof fn lemma_with_midpoints_count(vertices: Seq<Vertex>, walk: Seq<(usize, usize)>)
    requires
        unsplit(vertices, walk),
    ensures
        with_midpoints(vertices, walk).len() == vertices.len() + walk.to_set().len(),
    decreases walk.len(),
{
    broadcast use vstd::seq_lib::group_seq_properties;
    broadcast use vstd::set::group_set_axioms;

    if walk.len() == 0 {
        assert(walk.to_set() =~= Set::empty());
    } else {
        let shorter = walk.drop_last();
        let last = walk.last();
        let before = with_midpoints(vertices, shorter);
        assert forall|i: int| 0 <= i < shorter.len() implies !vertices.contains(
            midpoint(#[trigger] shorter[i]),
        ) by {
            assert(shorter[i] == walk[i]);
        }
        lemma_with_midpoints_count(vertices, shorter);
        lemma_with_midpoints_grows(vertices, shorter);
        assert(walk =~= shorter.push(last));
        assert(walk.to_set() =~= shorter.to_set().insert(last));
        if before.contains(midpoint(last)) {
            let j = before.index_of(midpoint(last));
            assert(before[j] == midpoint(last));
            if j < vertices.len() {
                assert(vertices[j] == midpoint(last));
                assert(walk[walk.len() - 1] == last);
                assert(false);
            }
            let i = choose|i: int|
                0 <= i < shorter.len() && #[trigger] before[j] == midpoint(#[trigger] shorter[i]);
            assert(shorter[i] == last);
            assert(shorter.to_set().contains(last));
        } else {
            if shorter.to_set().contains(last) {
                let i = choose|i: int| 0 <= i < shorter.len() && shorter[i] == last;
                assert(before.contains(midpoint(shorter[i])));
                assert(false);
            }
        }
    }
}

/// The darts of all faces, in the order of the faces.
pub open spec fn dart_walk(faces: Seq<Face>) -> Seq<(usize, usize)> {
    Seq::new(3 * faces.len(), |i: int| dart(faces[i / 3], i % 3))
}

/// A closed surface has three edges for every two faces.
pub proof fn lemma_closed_surface_edges(faces: Seq<Face>)
    requires
        closed_surface(faces),
    ensures
        2 * edge_walk(faces).to_set().len() == 3 * faces.len(),
{
    broadcast use vstd::seq_lib::group_seq_properties;
    broadcast use vstd::set::group_set_axioms;

    let darts = dart_walk(faces);
    let walk = edge_walk(faces);
    assert(darts.no_duplicates()) by {
        assert forall|i: int, j: int|
            0 <= i < darts.len() && 0 <= j < darts.len() && i != j implies darts[i]
            != darts[j] by {
            if darts[i] == darts[j] {
                assert(dart(faces[i / 3], i % 3) == dart(faces[j / 3], j % 3));
                assert(i / 3 == j / 3 && i % 3 == j % 3);
            }
        }
    }
    darts.unique_seq_to_set();
    let all = darts.to_set();
    let rising = all.filter(|d: (usize, usize)| d.0 < d.1);
    let falling = all.filter(|d: (usize, usize)| d.0 > d.1);
    assert forall|d: (usize, usize)| all.contains(d) implies d.0 != d.1 && all.contains(
        reversed(d),
    ) by {
        let i = choose|i: int| 0 <= i < darts.len() && darts[i] == d;
        assert(proper(faces[i / 3]));
        assert(d == dart(faces[i / 3], i % 3));
        assert(has_dart(faces, reversed(dart(faces[i / 3], i % 3))));
        let (j, l): (int, int) = choose|j: int, l: int|
            0 <= j < faces.len() && 0 <= l < 3 && #[trigger] dart(faces[j], l) == reversed(d);
        let t = 3 * j + l;
        assert(t / 3 == j && t % 3 == l);
        assert(darts[t] == reversed(d));
    }
    assert(all =~= rising + falling);
    assert(rising.disjoint(falling));
    all.lemma_len_filter(|d: (usize, usize)| d.0 < d.1);
    all.lemma_len_filter(|d: (usize, usize)| d.0 > d.1);
    lemma_set_disjoint_lens(rising, falling);
    let turn = |d: (usize, usize)| reversed(d);
    assert(rising.map(turn) =~= falling) by {
        assert forall|d: (usize, usize)| falling.contains(d) implies rising.map(turn).contains(
            d,
        ) by {
            assert(rising.contains(reversed(d)));
            assert(turn(reversed(d)) == d);
        }
    }
    assert(injective_on(turn, rising)) by {
        assert forall|d1: (usize, usize), d2: (usize, usize)|
            rising.contains(d1) && rising.contains(d2) && #[trigger] turn(d1) == #[trigger] turn(
                d2,
            ) implies d1 == d2 by {
            assert(reversed(d1) == reversed(d2));
        }
    }
    lemma_map_size(rising, falling, turn);
    assert(walk.to_set() =~= rising) by {
        assert forall|e: (usize, usize)| walk.to_set().contains(e) implies rising.contains(e) by {
            let i = choose|i: int| 0 <= i < walk.len() && walk[i] == e;
            let d = darts[i];
            assert(all.contains(d));
            assert(e == face_edge(faces[i / 3], i % 3));
            assert(d == dart(faces[i / 3], i % 3));
            assert(e == d || e == reversed(d));
        }
        assert forall|e: (usize, usize)| rising.contains(e) implies walk.to_set().contains(e) by {
            let i = choose|i: int| 0 <= i < darts.len() && darts[i] == e;
            assert(walk[i] == e);
        }
    }
}

/// A mesh is watertight if it is valid, its faces form a closed surface, and none
/// of its edges is split yet.
pub open spec fn watertight(m: Mesh) -> bool {
    &&& m.valid()
    &&& closed_surface(m.faces)
    &&& unsplit(m.vertices, edge_walk(m.faces))
}

/// After a round on a watertight mesh the vertices hold the midpoints of all edges
/// of the faces, behind the vertices that were there before.
pub proof fn lemma_refine_splits_all(m: Mesh)
    requires
        watertight(m),
        m.refine().vertices.len() <= INDEX_LIMIT,
    ensures
        splits_all(m.refine().vertices, m.vertices.len(), m.faces),
{
    let walk = edge_walk(m.faces);
    let after = m.refine().vertices;
    lemma_with_midpoints_grows(m.vertices, walk);
    assert forall|i: int| 0 <= i < m.faces.len() implies splits(
        after,
        m.vertices.len(),
        #[trigger] m.faces[i],
    ) by {
        let f = m.faces[i];
        assert forall|k: int| 0 <= k < 3 implies ({
            let j = #[trigger] split_index(after, f, k);
            m.vertices.len() <= j < after.len() && after[j] == midpoint(face_edge(f, k))
        }) by {
            let t = 3 * i + k;
            assert(t / 3 == i && t % 3 == k);
            assert(walk[t] == face_edge(f, k));
            assert(after.contains(midpoint(walk[t])));
            let j = split_index(after, f, k);
            if j < m.vertices.len() {
                assert(m.vertices[j] == midpoint(walk[t]));
                assert(m.vertices.contains(midpoint(walk[t])));
            }
        }
    }
}

/// After a round on a valid mesh every midpoint lies between vertices that were
/// there before the round.
pub proof fn lemma_refine_midpoints_old(m: Mesh, j: int)
    requires
        m.valid(),
        0 <= j < m.refine().vertices.len(),
    ensures
        m.refine().vertices[j] matches Vertex::Midpoint { low, high } ==> low <= high < j && high
            < m.vertices.len(),
{
    let walk = edge_walk(m.faces);
    let after = m.refine().vertices;
    lemma_with_midpoints_grows(m.vertices, walk);
    if j < m.vertices.len() {
        assert(after[j] == m.vertices[j]);
    } else {
        let i = choose|i: int|
            0 <= i < walk.len() && #[trigger] after[j] == midpoint(#[trigger] walk[i]);
        assert(walk[i] == face_edge(m.faces[i / 3], i % 3));
        let f = m.faces[i / 3];
        assert(f.x < m.vertices.len() && f.y < m.vertices.len() && f.z < m.vertices.len());
    }
}

/// A round of subdivision keeps a mesh watertight, as long as the indices stay
/// within `INDEX_LIMIT`.
pub proof fn lemma_refine_watertight(m: Mesh)
    requires
        watertight(m),
        m.refine().vertices.len() <= INDEX_LIMIT,
    ensures
        watertight(m.refine()),
{
    let walk = edge_walk(m.faces);
    let count = m.vertices.len();
    let after = m.refine().vertices;
    let children = m.refine().faces;
    lemma_with_midpoints_grows(m.vertices, walk);
    lemma_refine_splits_all(m);
    lemma_refine_closed(after, count, m.faces);
    assert forall|j: int| 0 <= j < after.len() implies (#[trigger] after[j] matches Vertex::Midpoint {
        low,
        high,
    } ==> low <= high < j) by {
        lemma_refine_midpoints_old(m, j);
    }
    assert forall|i: int| 0 <= i < children.len() implies ({
        let f = #[trigger] children[i];
        f.x < after.len() && f.y < after.len() && f.z < after.len()
    }) by {
        let f = m.faces[i / 4];
        assert(splits(after, count, f));
        assert(split_index(after, f, 0) >= count && split_index(after, f, 1) >= count
            && split_index(after, f, 2) >= count);
        assert(has_midpoints(after, f));
        lemma_child_face_within(after, f, i % 4);
    }
    assert(m.refine().valid());
    assert forall|t: int| 0 <= t < 3 * children.len() implies !after.contains(
        midpoint(#[trigger] edge_walk(children)[t]),
    ) by {
        let e = edge_walk(children)[t];
        let f = m.faces[(t / 3) / 4];
        assert(children[t / 3] == child_face(after, f, (t / 3) % 4));
        assert(e == face_edge(children[t / 3], t % 3));
        lemma_splits_agree(after, count, f, f);
        assert(e.1 >= count);
        if after.contains(midpoint(e)) {
            let j = after.index_of(midpoint(e));
            assert(after[j] == midpoint(e));
            lemma_refine_midpoints_old(m, j);
        }
    }
}

/// A round of subdivision on a watertight mesh adds three vertices for every two
/// faces.
pub proof fn lemma_refine_vertex_count(m: Mesh)
    requires
        watertight(m),
    ensures
        2 * m.refine().vertices.len() == 2 * m.vertices.len() + 3 * m.faces.len(),
{
    lemma_with_midpoints_count(m.vertices, edge_walk(m.faces));
    lemma_closed_surface_edges(m.faces);
}

} // verus!
