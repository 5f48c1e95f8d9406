//! Icosphere planet meshes, built by subdividing an icosahedron, and their tiles.
//!
//! The library holds the whole combinatorial side of a planet: which vertices
//! exist, which faces join them, and which tile belongs to which face. A vertex is
//! named by its construction, as a corner of the icosahedron or as the midpoint of
//! two earlier vertices, and stands for that point projected onto the sphere.
//! Giving the names coordinates is left to the host.

pub mod census;
pub mod error;
pub mod generator;
pub mod icosphere;
pub mod mesh;
pub mod refinement;
pub mod surface;
pub mod tile;

pub use error::MeshError;
pub use generator::PlanetGenerator;
pub use icosphere::MAX_RECURSION_LEVEL;
pub use mesh::{Coord, Face, Vertex, INDEX_LIMIT};
pub use tile::{Biome, MapSystem, Tile};
