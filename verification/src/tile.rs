//! Tiles: mesh faces tagged with a biome.

use vstd::prelude::*;
use crate::mesh::Face;

verus! {

/// The classification of a tile.
#[derive(Clone, Copy, Debug, PartialEq, Eq, Structural)]
pub enum Biome {
    Plains,
}

/// One face of the planet mesh together with its biome.
#[derive(Clone, Copy, Debug, PartialEq, Eq)]
pub struct Tile {
    pub mesh_vertices: [usize; 3],
    pub biome: Biome,
}

/// `tile` is `face` with a biome: it holds the three vertex indices of `face`, in
/// winding order, and the plains biome.
pub open spec fn tile_of(tile: Tile, face: Face) -> bool {
    &&& tile.mesh_vertices@ == seq![face.x, face.y, face.z]
    &&& tile.biome == Biome::Plains
}

/// `tiles` are `faces` with their biomes, one tile for each face and in the same
/// order.
pub open spec fn tiles_of(tiles: Seq<Tile>, faces: Seq<Face>) -> bool {
    &&& tiles.len() == faces.len()
    &&& forall|i: int| 0 <= i < faces.len() ==> tile_of(#[trigger] tiles[i], faces[i])
}

impl Tile {
    /// A tile over the given vertex indices with the given biome.
    pub fn new(vertices: [usize; 3], biome: Biome) -> (tile: Tile)
        ensures
            tile.mesh_vertices == vertices,
            tile.biome == biome,
    {
        Tile { mesh_vertices: vertices, biome }
    }
}

impl Default for Tile {
    /// The tile over vertex 0 three times, with the plains biome.
    fn default() -> (tile: Tile)
        ensures
            tile.mesh_vertices@ == seq![0usize, 0usize, 0usize],
            tile.biome == Biome::Plains,
    {
        Tile { mesh_vertices: [0usize, 0, 0], biome: Biome::Plains }
    }
}

/// The name under which a biome is reported.
pub open spec fn biome_name(biome: Biome) -> Seq<char> {
    match biome {
        Biome::Plains => "Plains"@,
    }
}

impl Biome {
    /// The name of the biome.
    pub fn name(&self) -> (name: &'static str)
        ensures
            name@ == biome_name(*self),
    {
        match self {
            Biome::Plains => "Plains",
        }
    }
}

/// The system that reports the biome of every tile of the map.
pub struct MapSystem;

impl MapSystem {
    /// One pass over the map: the names of the biomes of the tiles, in the order of
    /// the tiles.
    pub fn run(&mut self, tile_map: &Vec<Tile>) -> (report: Vec<&'static str>)
        ensures
            report@.len() == tile_map@.len(),
            forall|i: int|
                0 <= i < tile_map@.len() ==> (#[trigger] report@[i])@ == biome_name(
                    tile_map@[i].biome,
                ),
    {
        let mut report: Vec<&'static str> = Vec::new();
        let mut i: usize = 0;
        while i < tile_map.len()
            invariant
                i <= tile_map@.len(),
                report@.len() == i,
                forall|j: int|
                    0 <= j < i ==> (#[trigger] report@[j])@ == biome_name(tile_map@[j].biome),
            decreases tile_map@.len() - i,
        {
            report.push(tile_map[i].biome.name());
            i += 1;
        }
        report
    }
}

} // verus!
