use planet_mesh::{Biome, MapSystem, PlanetGenerator, Tile};

#[test]
fn new_tile_holds_what_it_was_given() {
    let tile = Tile::new([4, 9, 5], Biome::Plains);
    assert_eq!(tile.mesh_vertices, [4, 9, 5]);
    assert!(tile.biome == Biome::Plains);
}

#[test]
fn default_tile_is_plains_over_vertex_zero() {
    let tile = Tile::default();
    assert_eq!(tile.mesh_vertices, [0, 0, 0]);
    assert!(tile.biome == Biome::Plains);
    assert!(tile == Tile::new([0, 0, 0], Biome::Plains));
}

#[test]
fn plains_is_named_plains() {
    assert_eq!(Biome::Plains.name(), "Plains");
}

#[test]
fn every_face_becomes_one_tile_in_order() {
    let mut generator = PlanetGenerator::new();
    assert_eq!(generator.generate_icosphere(2), Ok(()));
    let tiles = generator.assign_biomes();
    assert_eq!(tiles.len(), generator.faces().len());
    for (tile, face) in tiles.iter().zip(generator.faces().iter()) {
        assert_eq!(tile.mesh_vertices, [face.x, face.y, face.z]);
        assert!(tile.biome == Biome::Plains);
    }
}

#[test]
fn no_faces_no_tiles() {
    assert!(PlanetGenerator::new().assign_biomes().is_empty());
}

#[test]
fn planet_mesh_of_level_one() {
    let (vertices, tiles) = match PlanetGenerator::generate_planet_mesh(1) {
        Ok(mesh) => mesh,
        Err(_) => panic!("level 1 is a valid level"),
    };
    assert_eq!(vertices.len(), 42);
    assert_eq!(tiles.len(), 80);
    assert_eq!(tiles[0].mesh_vertices, [0, 12, 14]);
    assert_eq!(tiles[3].mesh_vertices, [12, 13, 14]);
    let mut generator = PlanetGenerator::new();
    assert_eq!(generator.generate_icosphere(1), Ok(()));
    assert_eq!(&vertices, generator.vertices());
    assert!(tiles == generator.assign_biomes());
}

#[test]
fn planet_mesh_of_level_zero() {
    let (vertices, tiles) = match PlanetGenerator::generate_planet_mesh(0) {
        Ok(mesh) => mesh,
        Err(_) => panic!("level 0 is a valid level"),
    };
    assert_eq!(vertices.len(), 12);
    assert_eq!(tiles.len(), 20);
    assert_eq!(tiles[0].mesh_vertices, [0, 11, 5]);
    assert_eq!(tiles[19].mesh_vertices, [9, 8, 1]);
}

#[test]
fn map_system_reports_every_tile() {
    let tiles = vec![Tile::default(), Tile::new([1, 2, 3], Biome::Plains)];
    let mut system = MapSystem;
    assert_eq!(system.run(&tiles), vec!["Plains", "Plains"]);
    assert!(system.run(&Vec::new()).is_empty());
}
