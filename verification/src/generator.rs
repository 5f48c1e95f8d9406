//! The generator: builds the icosahedron and subdivides it, splitting every edge once.

use std::collections::HashMap;
use vstd::prelude::*;
use crate::census::watertight;
use crate::error::MeshError;
use crate::icosphere::{
    base_faces, base_vertices, four_pow, icosphere, lemma_base_valid, lemma_four_pow_bound,
    lemma_icosphere_face_count, lemma_icosphere_vertex_count, MAX_RECURSION_LEVEL,
};
use crate::mesh::{
    child_face, edge, edge_walk, face_edge, faces_within, has_midpoints, midpoint,
    midpoint_index, refine_faces, with_midpoint, with_midpoints, Coord, Face, Mesh, Vertex,
    INDEX_LIMIT,
};
use crate::refinement::{
    lemma_index_stable, lemma_refine_step, lemma_walk_step, lemma_with_midpoints_grows,
    lemma_with_midpoints_monotonic,
};
use crate::tile::{tile_of, tiles_of, Biome, Tile};

verus! {

broadcast use vstd::std_specs::hash::group_hash_axioms;

/// The cache key of the edge `e`: the smaller index in the upper 32 bits, the
/// larger in the lower 32.
pub open spec fn edge_key(e: (usize, usize)) -> u64 {
    (e.0 * 0x1_0000_0000 + e.1) as u64
}

/// The edge that the cache key `k` stands for.
pub open spec fn key_edge(k: u64) -> (usize, usize) {
    ((k / 0x1_0000_0000) as usize, (k % 0x1_0000_0000) as usize)
}

/// The cache holds exactly the midpoints among `vertices`, each under the key of
/// its edge and with its index.
pub open spec fn cache_matches(cache: Map<u64, usize>, vertices: Seq<Vertex>) -> bool {
    &&& forall|k: u64| #[trigger]
        cache.contains_key(k) ==> cache[k] < vertices.len() && vertices[cache[k] as int]
            == midpoint(key_edge(k)) && edge_key(key_edge(k)) == k
    &&& forall|i: int|
        0 <= i < vertices.len() ==> (#[trigger] vertices[i] matches Vertex::Midpoint {
            low,
            high,
        } ==> cache.contains_key(edge_key((low, high))) && cache[edge_key((low, high))] == i)
}

/// Keys tell edges apart as long as the indices fit in 32 bits.
pub proof fn lemma_edge_key_injective(e: (usize, usize))
    requires
        e.0 <= INDEX_LIMIT,
        e.1 <= INDEX_LIMIT,
    ensures
        key_edge(edge_key(e)) == e,
{
}

/// A mesh under construction, with the cache that maps each split edge to the
/// index of its midpoint.
pub struct PlanetGenerator {
    vertices: Vec<Vertex>,
    faces: Vec<Face>,
    mid_point_index_cache: HashMap<u64, usize>,
}

impl PlanetGenerator {
    /// The mesh built so far.
    pub closed spec fn mesh(&self) -> Mesh {
        Mesh { vertices: self.vertices@, faces: self.faces@ }
    }

    /// The cache: for every edge that was split, under the key of the edge, the
    /// index of its midpoint.
    pub closed spec fn cache(&self) -> Map<u64, usize> {
        self.mid_point_index_cache@
    }

    /// The mesh is valid and the cache agrees with it.
    pub open spec fn wf(&self) -> bool {
        &&& self.mesh().valid()
        &&& cache_matches(self.cache(), self.mesh().vertices)
    }

    /// A generator that holds nothing yet.
    pub fn new() -> (generator: PlanetGenerator)
        ensures
            generator.wf(),
            generator.mesh().vertices.len() == 0,
            generator.mesh().faces.len() == 0,
    {
        PlanetGenerator {
            vertices: Vec::new(),
            faces: Vec::new(),
            mid_point_index_cache: HashMap::new(),
        }
    }

    /// The vertices built so far.
    pub fn vertices(&self) -> (vertices: &Vec<Vertex>)
        ensures
            vertices@ == self.mesh().vertices,
    {
        &self.vertices
    }

    /// The faces built so far.
    pub fn faces(&self) -> (faces: &Vec<Face>)
        ensures
            faces@ == self.mesh().faces,
    {
        &self.faces
    }

    /// Appends `v`, which must not be the origin, and returns its index.
    fn add_vertex(&mut self, v: Vertex) -> (index: usize)
        requires
            !v.is_origin(),
        ensures
            index == old(self).vertices@.len(),
            final(self).vertices@ == old(self).vertices@.push(v),
            final(self).faces == old(self).faces,
            final(self).mid_point_index_cache == old(self).mid_point_index_cache,
    {
        self.vertices.push(v);
        self.vertices.len() - 1
    }

    /// The index of the vertex that splits the edge between `p` and `q`, in either
    /// order. The first request for an edge appends the midpoint; every later one
    /// finds it again and changes nothing.
    pub fn get_mid_point(&mut self, p: usize, q: usize) -> (index: usize)
        requires
            old(self).wf(),
            p < old(self).mesh().vertices.len(),
            q < old(self).mesh().vertices.len(),
            with_midpoint(old(self).mesh().vertices, edge(p, q)).len() <= INDEX_LIMIT,
        ensures
            final(self).wf(),
            final(self).mesh().faces == old(self).mesh().faces,
            final(self).mesh().vertices == with_midpoint(old(self).mesh().vertices, edge(p, q)),
            old(self).mesh().vertices.is_prefix_of(final(self).mesh().vertices),
            index == midpoint_index(final(self).mesh().vertices, p, q),
            index < final(self).mesh().vertices.len(),
            final(self).mesh().vertices[index as int] == midpoint(edge(p, q)),
            !old(self).mesh().vertices.contains(midpoint(edge(p, q))) ==> index == old(
                self,
            ).mesh().vertices.len(),
    {
        let (small_ind, big_ind) = if p < q {
            (p, q)
        } else {
            (q, p)
        };
        let key: u64 = (small_ind as u64) * 0x1_0000_0000 + (big_ind as u64);
        proof {
            lemma_edge_key_injective((small_ind, big_ind));
        }
        match self.mid_point_index_cache.get(&key) {
            Some(found) => {
                return *found;
            },
            None => {},
        }
        let i = self.add_vertex(Vertex::Midpoint { low: small_ind, high: big_ind });
        self.mid_point_index_cache.insert(key, i);
        proof {
            let before = old(self).vertices@;
            let after = self.vertices@;
            assert forall|j: int| 0 <= j < after.len() implies (#[trigger] after[j] matches Vertex::Midpoint {
                low,
                high,
            } ==> self.mid_point_index_cache@.contains_key(edge_key((low, high)))
                && self.mid_point_index_cache@[edge_key((low, high))] == j) by {
                if j < before.len() {
                    if let Vertex::Midpoint { low, high } = before[j] {
                        lemma_edge_key_injective((low, high));
                    }
                }
            }
            assert forall|k: u64| #[trigger]
                self.mid_point_index_cache@.contains_key(k) implies self.mid_point_index_cache@[k]
                < after.len() && after[self.mid_point_index_cache@[k] as int] == midpoint(
                key_edge(k),
            ) && edge_key(key_edge(k)) == k by {
                if k != key {
                    assert(after[old(self).mid_point_index_cache@[k] as int]
                        == before[old(self).mid_point_index_cache@[k] as int]);
                }
            }
        }
        i
    }

    /// Splits the three edges of `tri` and returns the indices of their midpoints, in
    /// the order of the edges.
    fn split_edges(&mut self, tri: Face) -> (mids: (usize, usize, usize))
        requires
            old(self).wf(),
            tri.x < old(self).vertices@.len(),
            tri.y < old(self).vertices@.len(),
            tri.z < old(self).vertices@.len(),
            with_midpoint(
                with_midpoint(
                    with_midpoint(old(self).vertices@, face_edge(tri, 0)),
                    face_edge(tri, 1),
                ),
                face_edge(tri, 2),
            ).len() <= INDEX_LIMIT,
        ensures
            final(self).wf(),
            final(self).faces@ == old(self).faces@,
            final(self).vertices@ == with_midpoint(
                with_midpoint(
                    with_midpoint(old(self).vertices@, face_edge(tri, 0)),
                    face_edge(tri, 1),
                ),
                face_edge(tri, 2),
            ),
            old(self).vertices@.is_prefix_of(final(self).vertices@),
            has_midpoints(final(self).vertices@, tri),
            mids.0 == midpoint_index(final(self).vertices@, tri.x, tri.y),
            mids.1 == midpoint_index(final(self).vertices@, tri.y, tri.z),
            mids.2 == midpoint_index(final(self).vertices@, tri.z, tri.x),
            mids.0 < final(self).vertices@.len(),
            mids.1 < final(self).vertices@.len(),
            mids.2 < final(self).vertices@.len(),
    {
        let a = self.get_mid_point(tri.x, tri.y);
        let ghost v1 = self.vertices@;
        let b = self.get_mid_point(tri.y, tri.z);
        let ghost v2 = self.vertices@;
        let c = self.get_mid_point(tri.z, tri.x);
        proof {
            let v3 = self.vertices@;
            let m0 = midpoint(face_edge(tri, 0));
            let m1 = midpoint(face_edge(tri, 1));
            let m2 = midpoint(face_edge(tri, 2));
            assert(v1.contains(m0) && v2.contains(m1) && v3.contains(m2));
            lemma_index_stable(v1, v3, m0);
            lemma_index_stable(v2, v3, m1);
        }
        (a, b, c)
    }

    /// One round of subdivision: every face is replaced by its four children, and
    /// every edge is split by one vertex, shared by the faces on both sides of it.
    pub fn subdivide(&mut self)
        requires
            old(self).wf(),
            old(self).mesh().refine().vertices.len() <= INDEX_LIMIT,
        ensures
            final(self).wf(),
            final(self).mesh() == old(self).mesh().refine(),
            old(self).mesh().vertices.is_prefix_of(final(self).mesh().vertices),
    {
        let ghost start = self.mesh();
        let ghost walk = edge_walk(start.faces);
        let mut faces2: Vec<Face> = Vec::new();
        let n = self.faces.len();
        let mut i: usize = 0;
        while i < n
            invariant
                self.wf(),
                i <= n,
                n == start.faces.len(),
                self.faces@ == start.faces,
                walk == edge_walk(start.faces),
                with_midpoints(start.vertices, walk).len() <= INDEX_LIMIT,
                self.vertices@ == with_midpoints(start.vertices, walk.take(3 * i)),
                faces2@.len() == 4 * i,
                forall|j: int|
                    0 <= j < i ==> has_midpoints(self.vertices@, #[trigger] start.faces[j]),
                forall|j: int|
                    0 <= j < 4 * i ==> #[trigger] faces2@[j] == child_face(
                        self.vertices@,
                        start.faces[j / 4],
                        j % 4,
                    ),
                faces_within(faces2@, self.vertices@.len()),
            decreases n - i,
        {
            let ghost v0 = self.vertices@;
            let tri = self.faces[i];
            proof {
                lemma_walk_step(start.vertices, start.faces, i as int);
                lemma_with_midpoints_monotonic(start.vertices, walk, 3 * (i + 1));
            }
            let (a, b, c) = self.split_edges(tri);
            let ghost earlier = faces2@;
            faces2.push(Face { x: tri.x, y: a, z: c });
            faces2.push(Face { x: tri.y, y: b, z: a });
            faces2.push(Face { x: tri.z, y: c, z: b });
            faces2.push(Face { x: a, y: b, z: c });
            proof {
                lemma_refine_step(
                    start.vertices,
                    start.faces,
                    i as int,
                    v0,
                    self.vertices@,
                    earlier,
                    faces2@,
                );
            }
            i += 1;
        }
        self.faces = faces2;
        proof {
            lemma_with_midpoints_grows(start.vertices, walk);
            assert(walk.take(3 * n) =~= walk);
            assert(self.faces@ =~= refine_faces(self.vertices@, start.faces));
        }
    }

    /// Replaces whatever the generator holds by the icosahedron.
    fn base_shape(&mut self)
        ensures
            final(self).wf(),
            final(self).vertices@ == base_vertices(),
            final(self).faces@ == base_faces(),
    {
        self.vertices = Vec::new();
        self.faces = Vec::new();
        self.mid_point_index_cache = HashMap::new();
        self.add_vertex(Vertex::Corner { x: Coord::MinusOne, y: Coord::Phi, z: Coord::Zero });
        self.add_vertex(Vertex::Corner { x: Coord::One, y: Coord::Phi, z: Coord::Zero });
        self.add_vertex(Vertex::Corner { x: Coord::MinusOne, y: Coord::MinusPhi, z: Coord::Zero });
        self.add_vertex(Vertex::Corner { x: Coord::One, y: Coord::MinusPhi, z: Coord::Zero });

        self.add_vertex(Vertex::Corner { x: Coord::Zero, y: Coord::MinusOne, z: Coord::Phi });
        self.add_vertex(Vertex::Corner { x: Coord::Zero, y: Coord::One, z: Coord::Phi });
        self.add_vertex(Vertex::Corner { x: Coord::Zero, y: Coord::MinusOne, z: Coord::MinusPhi });
        self.add_vertex(Vertex::Corner { x: Coord::Zero, y: Coord::One, z: Coord::MinusPhi });

        self.add_vertex(Vertex::Corner { x: Coord::Phi, y: Coord::Zero, z: Coord::MinusOne });
        self.add_vertex(Vertex::Corner { x: Coord::Phi, y: Coord::Zero, z: Coord::One });
        self.add_vertex(Vertex::Corner { x: Coord::MinusPhi, y: Coord::Zero, z: Coord::MinusOne });
        self.add_vertex(Vertex::Corner { x: Coord::MinusPhi, y: Coord::Zero, z: Coord::One });

        self.faces = vec![
            Face { x: 0, y: 11, z: 5 },
            Face { x: 0, y: 5, z: 1 },
            Face { x: 0, y: 1, z: 7 },
            Face { x: 0, y: 7, z: 10 },
            Face { x: 0, y: 10, z: 11 },
            Face { x: 1, y: 5, z: 9 },
            Face { x: 5, y: 11, z: 4 },
            Face { x: 11, y: 10, z: 2 },
            Face { x: 10, y: 7, z: 6 },
            Face { x: 7, y: 1, z: 8 },
            Face { x: 3, y: 9, z: 4 },
            Face { x: 3, y: 4, z: 2 },
            Face { x: 3, y: 2, z: 6 },
            Face { x: 3, y: 6, z: 8 },
            Face { x: 3, y: 8, z: 9 },
            Face { x: 4, y: 9, z: 5 },
            Face { x: 2, y: 4, z: 11 },
            Face { x: 6, y: 2, z: 10 },
            Face { x: 8, y: 6, z: 7 },
            Face { x: 9, y: 8, z: 1 },
        ];
        proof {
            lemma_base_valid();
        }
    }

    /// Builds the icosphere of the given level in place of whatever the generator
    /// holds. A level that is negative or above `MAX_RECURSION_LEVEL` is refused,
    /// and the generator is left as it was.
    pub fn generate_icosphere(&mut self, recursion_level: i32) -> (result: Result<(), MeshError>)
        ensures
            match result {
                Ok(()) => {
                    &&& 0 <= recursion_level <= MAX_RECURSION_LEVEL
                    &&& final(self).wf()
                    &&& final(self).mesh() == icosphere(recursion_level as nat)
                    &&& watertight(final(self).mesh())
                    &&& final(self).mesh().vertices.len() == 10 * four_pow(recursion_level as nat) + 2
                    &&& final(self).mesh().faces.len() == 20 * four_pow(recursion_level as nat)
                },
                Err(e) => {
                    &&& e == MeshError::InvalidInput
                    &&& recursion_level < 0 || recursion_level > MAX_RECURSION_LEVEL
                    &&& *final(self) == *old(self)
                },
            },
    {
        if recursion_level < 0 || recursion_level > MAX_RECURSION_LEVEL {
            return Err(MeshError::InvalidInput);
        }
        self.base_shape();
        let mut round: i32 = 0;
        while round < recursion_level
            invariant
                0 <= round <= recursion_level <= MAX_RECURSION_LEVEL,
                self.wf(),
                self.mesh() == icosphere(round as nat),
            decreases recursion_level - round,
        {
            proof {
                lemma_four_pow_bound(round as nat);
                lemma_icosphere_vertex_count((round + 1) as nat);
            }
            self.subdivide();
            round += 1;
        }
        proof {
            lemma_icosphere_face_count(recursion_level as nat);
            lemma_icosphere_vertex_count(recursion_level as nat);
        }
        Ok(())
    }

    /// The tiles of the mesh: every face, in order, with its biome.
    pub fn assign_biomes(&self) -> (tiles: Vec<Tile>)
        ensures
            tiles_of(tiles@, self.mesh().faces),
    {
        let mut out: Vec<Tile> = Vec::new();
        let mut i: usize = 0;
        while i < self.faces.len()
            invariant
                i <= self.faces.len(),
                out@.len() == i,
                forall|j: int| 0 <= j < i ==> tile_of(#[trigger] out@[j], self.faces@[j]),
            decreases self.faces.len() - i,
        {
            let face = self.faces[i];
            let tile = Tile { mesh_vertices: [face.x, face.y, face.z], biome: Biome::Plains };
            out.push(tile);
            i += 1;
        }
        out
    }

    /// The vertices and the tiles of the icosphere of level `iter`. A level that is
    /// negative or above `MAX_RECURSION_LEVEL` is refused.
    pub fn generate_planet_mesh(iter: i32) -> (result: Result<(Vec<Vertex>, Vec<Tile>), MeshError>)
        ensures
            match result {
                Ok((vertices, tiles)) => {
                    &&& 0 <= iter <= MAX_RECURSION_LEVEL
                    &&& vertices@ == icosphere(iter as nat).vertices
                    &&& tiles_of(tiles@, icosphere(iter as nat).faces)
                    &&& vertices@.len() == 10 * four_pow(iter as nat) + 2
                    &&& tiles@.len() == 20 * four_pow(iter as nat)
                },
                Err(e) => e == MeshError::InvalidInput && (iter < 0 || iter > MAX_RECURSION_LEVEL),
            },
    {
        let mut pl_gen = PlanetGenerator::new();
        match pl_gen.generate_icosphere(iter) {
            Ok(()) => {},
            Err(e) => {
                return Err(e);
            },
        }
        let tiles = pl_gen.assign_biomes();
        Ok((pl_gen.vertices, tiles))
    }
}

} // verus!
