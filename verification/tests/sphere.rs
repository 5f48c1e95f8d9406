use planet_mesh::{Coord, PlanetGenerator, Vertex};

const PHI: f64 = 1.618033988749895;

fn length(coord: Coord) -> f64 {
    match coord {
        Coord::Zero => 0.0,
        Coord::One => 1.0,
        Coord::MinusOne => -1.0,
        Coord::Phi => PHI,
        Coord::MinusPhi => -PHI,
    }
}

fn norm(p: [f64; 3]) -> f64 {
    (p[0] * p[0] + p[1] * p[1] + p[2] * p[2]).sqrt()
}

/// The points that the vertices name, on the sphere of the given radius.
fn positions(vertices: &[Vertex], radius: f64) -> Vec<[f64; 3]> {
    let mut points: Vec<[f64; 3]> = Vec::new();
    for vertex in vertices {
        let p = match *vertex {
            Vertex::Corner { x, y, z } => [length(x), length(y), length(z)],
            Vertex::Midpoint { low, high } => {
                let (a, b) = (points[low], points[high]);
                [(a[0] + b[0]) / 2.0, (a[1] + b[1]) / 2.0, (a[2] + b[2]) / 2.0]
            }
        };
        let len = norm(p);
        assert!(len > 0.0);
        points.push([p[0] / len, p[1] / len, p[2] / len]);
    }
    points.iter().map(|p| [p[0] * radius, p[1] * radius, p[2] * radius]).collect()
}

fn sphere(level: i32, radius: f64) -> (Vec<[f64; 3]>, PlanetGenerator) {
    let mut generator = PlanetGenerator::new();
    assert_eq!(generator.generate_icosphere(level), Ok(()));
    (positions(generator.vertices(), radius), generator)
}

#[test]
fn unit_icosahedron_has_unit_vertices() {
    let (points, _) = sphere(0, 1.0);
    assert_eq!(points.len(), 12);
    for p in &points {
        assert!((norm(*p) - 1.0).abs() < 1e-4);
    }
    let scale = (1.0 + PHI * PHI).sqrt();
    assert!((points[0][0] + 1.0 / scale).abs() < 1e-9);
    assert!((points[0][1] - PHI / scale).abs() < 1e-9);
    assert!(points[0][2].abs() < 1e-9);
    assert!((points[9][0] - PHI / scale).abs() < 1e-9);
    assert!((points[9][2] - 1.0 / scale).abs() < 1e-9);
}

#[test]
fn every_vertex_lies_on_the_sphere() {
    for level in 0..4 {
        for radius in [1.0, 2.5, 5.0] {
            let (points, _) = sphere(level, radius);
            for p in &points {
                assert!((norm(*p) - radius).abs() <= 1e-4 * radius);
            }
        }
    }
}

#[test]
fn radius_five_level_two() {
    let (points, generator) = sphere(2, 5.0);
    assert_eq!(points.len(), 162);
    assert_eq!(generator.faces().len(), 320);
    for p in &points {
        assert!((norm(*p) - 5.0).abs() <= 1e-4 * 5.0);
    }
}

#[test]
fn no_two_vertices_coincide() {
    let (points, _) = sphere(2, 1.0);
    for i in 0..points.len() {
        for j in 0..i {
            let d = [
                points[i][0] - points[j][0],
                points[i][1] - points[j][1],
                points[i][2] - points[j][2],
            ];
            assert!(norm(d) > 1e-3);
        }
    }
}

#[test]
fn faces_are_wound_outwards() {
    let (points, generator) = sphere(2, 1.0);
    for f in generator.faces() {
        let (a, b, c) = (points[f.x], points[f.y], points[f.z]);
        let u = [b[0] - a[0], b[1] - a[1], b[2] - a[2]];
        let v = [c[0] - a[0], c[1] - a[1], c[2] - a[2]];
        let normal = [
            u[1] * v[2] - u[2] * v[1],
            u[2] * v[0] - u[0] * v[2],
            u[0] * v[1] - u[1] * v[0],
        ];
        let outwards = normal[0] * a[0] + normal[1] * a[1] + normal[2] * a[2];
        assert!(outwards > 0.0);
    }
}
