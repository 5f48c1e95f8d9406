use std::collections::{HashMap, HashSet};

use planet_mesh::{
    Coord, Face, MeshError, PlanetGenerator, Vertex, INDEX_LIMIT, MAX_RECURSION_LEVEL,
};

fn built(level: i32) -> PlanetGenerator {
    let mut generator = PlanetGenerator::new();
    assert_eq!(generator.generate_icosphere(level), Ok(()));
    generator
}

fn corner(x: Coord, y: Coord, z: Coord) -> Vertex {
    Vertex::Corner { x, y, z }
}

fn face(x: usize, y: usize, z: usize) -> Face {
    Face { x, y, z }
}

#[test]
fn new_generator_is_empty() {
    let generator = PlanetGenerator::new();
    assert!(generator.vertices().is_empty());
    assert!(generator.faces().is_empty());
}

#[test]
fn level_zero_has_12_vertices_and_20_faces() {
    let generator = built(0);
    assert_eq!(generator.vertices().len(), 12);
    assert_eq!(generator.faces().len(), 20);
}

#[test]
fn level_zero_vertices_are_the_corners_of_the_golden_rectangles() {
    let generator = built(0);
    let expected = vec![
        corner(Coord::MinusOne, Coord::Phi, Coord::Zero),
        corner(Coord::One, Coord::Phi, Coord::Zero),
        corner(Coord::MinusOne, Coord::MinusPhi, Coord::Zero),
        corner(Coord::One, Coord::MinusPhi, Coord::Zero),
        corner(Coord::Zero, Coord::MinusOne, Coord::Phi),
        corner(Coord::Zero, Coord::One, Coord::Phi),
        corner(Coord::Zero, Coord::MinusOne, Coord::MinusPhi),
        corner(Coord::Zero, Coord::One, Coord::MinusPhi),
        corner(Coord::Phi, Coord::Zero, Coord::MinusOne),
        corner(Coord::Phi, Coord::Zero, Coord::One),
        corner(Coord::MinusPhi, Coord::Zero, Coord::MinusOne),
        corner(Coord::MinusPhi, Coord::Zero, Coord::One),
    ];
    assert_eq!(generator.vertices(), &expected);
}

#[test]
fn level_zero_faces_are_the_base_triangulation() {
    let generator = built(0);
    let expected = vec![
        face(0, 11, 5),
        face(0, 5, 1),
        face(0, 1, 7),
        face(0, 7, 10),
        face(0, 10, 11),
        face(1, 5, 9),
        face(5, 11, 4),
        face(11, 10, 2),
        face(10, 7, 6),
        face(7, 1, 8),
        face(3, 9, 4),
        face(3, 4, 2),
        face(3, 2, 6),
        face(3, 6, 8),
        face(3, 8, 9),
        face(4, 9, 5),
        face(2, 4, 11),
        face(6, 2, 10),
        face(8, 6, 7),
        face(9, 8, 1),
    ];
    assert_eq!(generator.faces(), &expected);
}

#[test]
fn face_count_is_20_times_4_to_the_level() {
    assert_eq!(built(0).faces().len(), 20);
    assert_eq!(built(1).faces().len(), 80);
    assert_eq!(built(2).faces().len(), 320);
    assert_eq!(built(3).faces().len(), 1280);
}

#[test]
fn vertex_count_is_10_times_4_to_the_level_plus_2() {
    assert_eq!(built(1).vertices().len(), 42);
    assert_eq!(built(2).vertices().len(), 162);
    assert_eq!(built(3).vertices().len(), 642);
    assert_eq!(built(4).vertices().len(), 2562);
}

#[test]
fn level_two_has_162_vertices_and_320_faces() {
    let generator = built(2);
    assert_eq!(generator.vertices().len(), 162);
    assert_eq!(generator.faces().len(), 320);
}

#[test]
fn no_vertex_occurs_twice() {
    let generator = built(3);
    let distinct: HashSet<Vertex> = generator.vertices().iter().copied().collect();
    assert_eq!(distinct.len(), generator.vertices().len());
}

#[test]
fn first_round_splits_the_first_face() {
    let generator = built(1);
    let vertices = generator.vertices();
    assert_eq!(vertices[12], Vertex::Midpoint { low: 0, high: 11 });
    assert_eq!(vertices[13], Vertex::Midpoint { low: 5, high: 11 });
    assert_eq!(vertices[14], Vertex::Midpoint { low: 0, high: 5 });
    let faces = generator.faces();
    assert_eq!(faces[0], face(0, 12, 14));
    assert_eq!(faces[1], face(11, 13, 12));
    assert_eq!(faces[2], face(5, 14, 13));
    assert_eq!(faces[3], face(12, 13, 14));
}

#[test]
fn second_face_finds_the_shared_midpoint_again() {
    let generator = built(1);
    let vertices = generator.vertices();
    assert_eq!(vertices[15], Vertex::Midpoint { low: 1, high: 5 });
    assert_eq!(vertices[16], Vertex::Midpoint { low: 0, high: 1 });
    let faces = generator.faces();
    assert_eq!(faces[4], face(0, 14, 16));
    assert_eq!(faces[5], face(5, 15, 14));
    assert_eq!(faces[6], face(1, 16, 15));
    assert_eq!(faces[7], face(14, 15, 16));
}

#[test]
fn base_vertices_stay_in_front() {
    let base = built(0);
    let refined = built(3);
    assert_eq!(&refined.vertices()[..12], &base.vertices()[..]);
}

#[test]
fn midpoints_lie_between_earlier_vertices() {
    let generator = built(3);
    for (index, vertex) in generator.vertices().iter().enumerate() {
        match *vertex {
            Vertex::Corner { .. } => assert!(index < 12),
            Vertex::Midpoint { low, high } => {
                assert!(index >= 12);
                assert!(low < high);
                assert!(high < index);
            }
        }
    }
}

#[test]
fn faces_refer_to_vertices_of_the_mesh() {
    let generator = built(3);
    let count = generator.vertices().len();
    for f in generator.faces() {
        assert!(f.x < count && f.y < count && f.z < count);
        assert!(f.x != f.y && f.y != f.z && f.z != f.x);
    }
}

#[test]
fn every_edge_lies_between_two_faces_wound_the_same_way() {
    let generator = built(2);
    let mut darts: HashMap<(usize, usize), usize> = HashMap::new();
    for f in generator.faces() {
        for dart in [(f.x, f.y), (f.y, f.z), (f.z, f.x)] {
            *darts.entry(dart).or_insert(0) += 1;
        }
    }
    assert_eq!(darts.len(), 3 * generator.faces().len());
    for (&(from, to), &times) in &darts {
        assert_eq!(times, 1);
        assert_eq!(darts.get(&(to, from)), Some(&1));
    }
}

#[test]
fn midpoint_is_the_same_in_both_directions() {
    let mut generator = built(0);
    let forward = generator.get_mid_point(0, 11);
    let backward = generator.get_mid_point(11, 0);
    assert_eq!(forward, 12);
    assert_eq!(backward, 12);
    assert_eq!(generator.vertices().len(), 13);
    assert_eq!(generator.vertices()[12], Vertex::Midpoint { low: 0, high: 11 });
}

#[test]
fn midpoint_of_a_new_edge_is_appended() {
    let mut generator = built(0);
    assert_eq!(generator.get_mid_point(5, 0), 12);
    assert_eq!(generator.get_mid_point(0, 1), 13);
    assert_eq!(generator.get_mid_point(0, 5), 12);
    assert_eq!(generator.vertices().len(), 14);
    assert_eq!(generator.vertices()[12], Vertex::Midpoint { low: 0, high: 5 });
    assert_eq!(generator.vertices()[13], Vertex::Midpoint { low: 0, high: 1 });
    assert_eq!(generator.faces().len(), 20);
}

#[test]
fn midpoints_of_large_indices_do_not_collide() {
    // 0 and 257 against 1 and 1: a key of eight bits to the index would mix them up.
    let mut generator = built(3);
    let first = generator.get_mid_point(0, 257);
    let second = generator.get_mid_point(1, 1);
    assert_ne!(first, second);
    assert_eq!(generator.vertices()[first], Vertex::Midpoint { low: 0, high: 257 });
    assert_eq!(generator.vertices()[second], Vertex::Midpoint { low: 1, high: 1 });
}

#[test]
fn subdivide_is_one_round() {
    let mut generator = built(1);
    generator.subdivide();
    let expected = built(2);
    assert_eq!(generator.vertices(), expected.vertices());
    assert_eq!(generator.faces(), expected.faces());
}

#[test]
fn subdividing_nothing_gives_nothing() {
    let mut generator = PlanetGenerator::new();
    generator.subdivide();
    assert!(generator.vertices().is_empty());
    assert!(generator.faces().is_empty());
}

#[test]
fn two_builds_are_identical() {
    let first = built(3);
    let second = built(3);
    assert_eq!(first.vertices(), second.vertices());
    assert_eq!(first.faces(), second.faces());
}

#[test]
fn building_again_starts_afresh() {
    let mut generator = built(2);
    assert_eq!(generator.generate_icosphere(1), Ok(()));
    let expected = built(1);
    assert_eq!(generator.vertices(), expected.vertices());
    assert_eq!(generator.faces(), expected.faces());
}

#[test]
fn negative_level_is_invalid_input() {
    let mut generator = PlanetGenerator::new();
    assert_eq!(generator.generate_icosphere(-1), Err(MeshError::InvalidInput));
    assert!(generator.vertices().is_empty());
    assert!(generator.faces().is_empty());
    assert!(matches!(PlanetGenerator::generate_planet_mesh(-1), Err(MeshError::InvalidInput)));
}

#[test]
fn level_above_the_ceiling_is_invalid_input() {
    assert_eq!(MAX_RECURSION_LEVEL, 13);
    let mut generator = PlanetGenerator::new();
    assert_eq!(generator.generate_icosphere(14), Err(MeshError::InvalidInput));
    assert_eq!(generator.generate_icosphere(i32::MAX), Err(MeshError::InvalidInput));
    assert!(matches!(PlanetGenerator::generate_planet_mesh(14), Err(MeshError::InvalidInput)));
}

#[test]
fn refused_level_leaves_the_generator_as_it_was() {
    let mut generator = built(1);
    assert_eq!(generator.generate_icosphere(-3), Err(MeshError::InvalidInput));
    assert_eq!(generator.vertices().len(), 42);
    assert_eq!(generator.faces().len(), 80);
}

#[test]
fn index_limit_is_32_bits() {
    assert_eq!(INDEX_LIMIT as u64, u32::MAX as u64);
}
