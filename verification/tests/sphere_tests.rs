//! End-to-end tests of the sphere mesh generator, working on the decoded
//! floating-point values that the `u32` bit patterns carry.

use uv_sphere::sphere::{generate_indices, generate_sphere, SphereError};

/// Decoded vertex buffer of a successful run.
fn vertices_f32(sectors: u32, stacks: u32, radius: f32, normalized: bool) -> Vec<f32> {
    let (vertices, _) = generate_sphere(sectors, stacks, radius.to_bits(), normalized).unwrap();
    vertices.into_iter().map(f32::from_bits).collect()
}

fn mesh(sectors: u32, stacks: u32, radius: f32, normalized: bool) -> (Vec<u32>, Vec<u32>) {
    generate_sphere(sectors, stacks, radius.to_bits(), normalized).unwrap()
}

#[test]
fn counts_for_four_sectors_two_stacks() {
    let (vertices, indices) = mesh(4, 2, 1.0, false);
    assert_eq!(vertices.len(), 90);
    assert_eq!(indices.len(), 24);
}

#[test]
fn buffer_lengths_match_grid() {
    for &(sectors, stacks) in &[(1u32, 1u32), (3, 2), (4, 1), (1, 5), (8, 6), (33, 17)] {
        let (vertices, indices) = mesh(sectors, stacks, 2.5, false);
        let verts = ((stacks + 1) * (sectors + 1)) as usize;
        assert_eq!(vertices.len(), 6 * verts);
        assert_eq!(indices.len(), (3 * (2 * stacks * sectors - 2 * sectors)) as usize);
    }
}

#[test]
fn indices_stay_in_range() {
    for &(sectors, stacks) in &[(1u32, 1u32), (4, 2), (5, 3), (16, 12)] {
        let (vertices, indices) = mesh(sectors, stacks, 1.0, false);
        let verts = (vertices.len() / 6) as u32;
        for &ix in &indices {
            assert!(ix < verts);
        }
    }
}

#[test]
fn index_values_for_two_sectors_two_stacks() {
    let indices = generate_indices(2, 2);
    assert_eq!(indices, vec![1, 3, 4, 2, 4, 5, 3, 6, 4, 4, 7, 5]);
}

#[test]
fn no_indices_for_single_stack() {
    assert_eq!(generate_indices(4, 1), Vec::<u32>::new());
}

#[test]
fn normals_have_unit_magnitude() {
    for &(sectors, stacks, radius) in &[(4u32, 2u32, 1.0f32), (16, 12, 2.5), (5, 3, 0.75)] {
        let vertices = vertices_f32(sectors, stacks, radius, false);
        for vertex in vertices.chunks(6) {
            let magnitude = (vertex[3] * vertex[3] + vertex[4] * vertex[4] + vertex[5] * vertex[5])
                .sqrt();
            assert!((magnitude - 1.0).abs() <= 1e-5, "normal magnitude {}", magnitude);
        }
    }
}

#[test]
fn positions_lie_on_the_sphere() {
    for &(sectors, stacks, radius) in &[(4u32, 2u32, 1.0f32), (16, 12, 2.5), (7, 5, 0.03)] {
        let vertices = vertices_f32(sectors, stacks, radius, false);
        for vertex in vertices.chunks(6) {
            let distance = (vertex[0] * vertex[0] + vertex[1] * vertex[1] + vertex[2] * vertex[2])
                .sqrt();
            assert!((distance - radius).abs() <= 1e-4 * radius.max(1.0), "distance {}", distance);
        }
    }
}

#[test]
fn normalized_positions_lie_on_the_unit_sphere() {
    let vertices = vertices_f32(9, 4, 17.5, true);
    for vertex in vertices.chunks(6) {
        let distance = (vertex[0] * vertex[0] + vertex[1] * vertex[1] + vertex[2] * vertex[2])
            .sqrt();
        assert!((distance - 1.0).abs() <= 1e-5);
        assert_eq!(&vertex[0..3], &vertex[3..6]);
    }
}

#[test]
fn pole_rows_hold_the_pole_height() {
    let (sectors, stacks, radius) = (6u32, 4u32, 2.0f32);
    let vertices = vertices_f32(sectors, stacks, radius, false);
    let row = 6 * (sectors as usize + 1);
    for j in 0..=sectors as usize {
        let north = &vertices[6 * j..6 * j + 6];
        assert!((north[1] - radius).abs() <= 1e-5 * radius, "north y {}", north[1]);
        let south = &vertices[stacks as usize * row + 6 * j..stacks as usize * row + 6 * j + 6];
        assert!((south[1] + radius).abs() <= 1e-5 * radius, "south y {}", south[1]);
    }
}

#[test]
fn middle_vertex_matches_the_formula() {
    let (sectors, stacks, radius) = (8u32, 6u32, 1.5f32);
    let vertices = vertices_f32(sectors, stacks, radius, false);
    let (i, j) = (2u32, 3u32);
    let stack_angle = std::f32::consts::PI / 2.0
        - i as f32 * (std::f32::consts::PI / stacks as f32);
    let xz = radius * stack_angle.cos();
    let y = radius * stack_angle.sin();
    let sector_angle = j as f32 * (std::f32::consts::TAU / sectors as f32);
    let x = xz * sector_angle.sin();
    let z = xz * sector_angle.cos();
    let at = 6 * (i as usize * (sectors as usize + 1) + j as usize);
    assert!((vertices[at] - x).abs() <= 1e-5);
    assert!((vertices[at + 1] - y).abs() <= 1e-5);
    assert!((vertices[at + 2] - z).abs() <= 1e-5);
    assert!((vertices[at + 3] - x / radius).abs() <= 1e-5);
    assert!((vertices[at + 4] - y / radius).abs() <= 1e-5);
    assert!((vertices[at + 5] - z / radius).abs() <= 1e-5);
}

#[test]
fn zero_sectors_is_invalid() {
    assert_eq!(
        generate_sphere(0, 2, 1.0f32.to_bits(), false),
        Err(SphereError::InvalidArgument)
    );
}

#[test]
fn zero_stacks_is_invalid() {
    assert_eq!(
        generate_sphere(4, 0, 1.0f32.to_bits(), false),
        Err(SphereError::InvalidArgument)
    );
}

#[test]
fn nonpositive_radius_is_invalid() {
    for &radius in &[0.0f32, -0.0, -1.0, f32::NEG_INFINITY, f32::NAN] {
        assert_eq!(
            generate_sphere(4, 2, radius.to_bits(), false),
            Err(SphereError::InvalidArgument)
        );
    }
}

#[test]
fn positive_radii_are_accepted() {
    for &radius in &[f32::from_bits(1), f32::MIN_POSITIVE, 1.0, f32::MAX, f32::INFINITY] {
        assert!(generate_sphere(4, 2, radius.to_bits(), false).is_ok());
    }
}

#[test]
fn repeated_runs_are_bit_identical() {
    let first = mesh(12, 9, 3.25, false);
    let second = mesh(12, 9, 3.25, false);
    assert_eq!(first, second);
    let third = mesh(5, 4, 0.5, true);
    let fourth = mesh(5, 4, 0.5, true);
    assert_eq!(third, fourth);
}

#[test]
fn height_is_constant_along_a_row() {
    let (sectors, stacks) = (6u32, 3u32);
    let (vertices, _) = mesh(sectors, stacks, 1.25, false);
    let row = 6 * (sectors as usize + 1);
    for i in 0..=stacks as usize {
        for j in 1..=sectors as usize {
            // the y entry depends only on the stack row, so it repeats bit for bit
            assert_eq!(vertices[i * row + 1], vertices[i * row + 6 * j + 1]);
        }
    }
}
