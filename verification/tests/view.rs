//! Tests for ray casting, the ray fan, and the projection into screen
//! columns, including the end-to-end scenarios.

use raycast::fan::{cast_fan, ray_angles};
use raycast::grid::{Grid, Tile};
use raycast::project::{project, render_columns, Column, Shade};
use raycast::ray::{cast, Orientation, Ray};
use raycast::SCALE;

fn tiles_from(rows: usize, cols: usize, flags: &[u8]) -> Vec<Tile> {
    assert_eq!(flags.len(), rows * cols);
    flags
        .iter()
        .map(|&f| if f == 1 { Tile::Wall } else { Tile::Empty })
        .collect()
}

fn small_room() -> Grid {
    let flags = [1, 1, 1, 1, 0, 1, 1, 1, 1];
    Grid::new(3, 3, 32, tiles_from(3, 3, &flags))
}

/// Direction components for an angle in radians, at unit scale.
fn dir_of(angle: f32) -> (i64, i64) {
    (
        (angle.cos() * SCALE as f32) as i64,
        (angle.sin() * SCALE as f32) as i64,
    )
}

#[test]
fn cast_east_hits_wall_at_half_a_cell() {
    let g = small_room();
    // player at the centre of the interior cell, facing east
    let r = cast(&g, 48 * SCALE, 48 * SCALE, SCALE, 0);
    let half_cell = 16 * SCALE;
    assert!((r.dist as i64 - half_cell).abs() <= 2);
    assert_eq!(r.orient, Orientation::VerticalLine);
}

#[test]
fn cast_south_reports_horizontal_orientation() {
    let g = small_room();
    let r = cast(&g, 48 * SCALE, 48 * SCALE, 0, SCALE);
    let half_cell = 16 * SCALE;
    assert!((r.dist as i64 - half_cell).abs() <= 2);
    assert_eq!(r.orient, Orientation::HorizontalLine);
}

#[test]
fn cast_west_and_north_also_hit_at_half_a_cell() {
    let g = small_room();
    let w = cast(&g, 48 * SCALE, 48 * SCALE, -SCALE, 0);
    let n = cast(&g, 48 * SCALE, 48 * SCALE, 0, -SCALE);
    let half_cell = 16 * SCALE;
    assert!((w.dist as i64 - half_cell).abs() <= 2);
    assert!((n.dist as i64 - half_cell).abs() <= 2);
    assert_eq!(w.orient, Orientation::VerticalLine);
    assert_eq!(n.orient, Orientation::HorizontalLine);
}

#[test]
fn every_cast_from_an_open_cell_has_positive_distance() {
    let g = small_room();
    let dirs = [
        (SCALE, 0),
        (-SCALE, 0),
        (0, SCALE),
        (0, -SCALE),
        (SCALE, SCALE),
        (-SCALE, SCALE),
        (40000, -30000),
        (1, 65536),
        (65536, 1),
        (-1, -1),
    ];
    for &(dx, dy) in dirs.iter() {
        let r = cast(&g, 48 * SCALE, 48 * SCALE, dx, dy);
        assert!(r.dist >= 1);
    }
}

#[test]
fn diagonal_cast_matches_exact_geometry() {
    let g = small_room();
    // north-east at 45 degrees from the centre: the corner of the interior
    // cell is 16 * sqrt(2) pixels away
    let r = cast(&g, 48 * SCALE, 48 * SCALE, SCALE, -SCALE);
    let expect = ((16.0 * std::f32::consts::SQRT_2) * SCALE as f32) as i64;
    assert!((r.dist as i64 - expect).abs() <= 16);
}

#[test]
fn fan_angles_are_evenly_spaced() {
    let a = ray_angles(1000, 999, 4);
    assert_eq!(a, vec![501, 834, 1167, 1500]);
    let b = ray_angles(0, 68629, 5);
    assert_eq!(b.len(), 5);
    let gap = 68629 / 4;
    for i in 0..5 {
        assert_eq!(b[i], -34314 + (i as i64) * gap);
    }
}

#[test]
fn fan_results_match_individual_casts() {
    let g = small_room();
    let dirs = vec![(SCALE, 0), (SCALE, SCALE / 2), (0, -SCALE), (-3 * SCALE / 4, SCALE)];
    let rays = cast_fan(&g, 48 * SCALE, 48 * SCALE, &dirs);
    assert_eq!(rays.len(), dirs.len());
    for (i, &(dx, dy)) in dirs.iter().enumerate() {
        let single = cast(&g, 48 * SCALE, 48 * SCALE, dx, dy);
        assert_eq!(rays[i], single);
    }
}

#[test]
fn fan_is_symmetric_about_the_central_ray() {
    // the player stands at the centre of the one open cell, equidistant
    // from the walls on both sides of the view axis
    let g = small_room();
    let fov = 60.0_f32.to_radians();
    let n = 9;
    let mut dirs: Vec<(i64, i64)> = Vec::new();
    for i in 0..n {
        let angle = (i as f32 - (n as f32 - 1.0) / 2.0) * (fov / (n as f32 - 1.0));
        dirs.push(dir_of(angle));
    }
    let rays = cast_fan(&g, 48 * SCALE, 48 * SCALE, &dirs);
    for i in 0..n {
        let a = rays[i].dist as i64;
        let b = rays[n - 1 - i].dist as i64;
        assert!((a - b).abs() <= 2, "asymmetric pair {}: {} vs {}", i, a, b);
    }
}

#[test]
fn projection_computes_the_exact_column() {
    let r = Ray { dist: 500, orient: Orientation::VerticalLine };
    let c = project(r, 64, 1000000, 960);
    assert_eq!(c.height, 64 * 960 / 500);
    assert_eq!(c.top, 1000000 / 2 - c.height / 2);
    assert_eq!(c.shade, Shade::Light);
    let r2 = Ray { dist: 500, orient: Orientation::HorizontalLine };
    let c2 = project(r2, 64, 1000000, 960);
    assert_eq!(c2.shade, Shade::Dark);
    assert_eq!(c2.height, c.height);
}

#[test]
fn closer_rays_render_taller_columns() {
    let wall_h = 96 * SCALE;
    let proj = 870 * SCALE;
    let vh = 960 * SCALE;
    let near = project(Ray { dist: 10 * SCALE as u64, orient: Orientation::VerticalLine }, wall_h, vh, proj);
    let far = project(Ray { dist: 40 * SCALE as u64, orient: Orientation::VerticalLine }, wall_h, vh, proj);
    assert!(near.height > far.height);
    let d1 = project(Ray { dist: 1234567, orient: Orientation::VerticalLine }, wall_h, vh, proj);
    let d2 = project(Ray { dist: 1234568, orient: Orientation::VerticalLine }, wall_h, vh, proj);
    assert!(d1.height >= d2.height);
}

#[test]
fn render_columns_projects_each_ray_in_order() {
    let rays = vec![
        Ray { dist: 1048577, orient: Orientation::VerticalLine },
        Ray { dist: 2097154, orient: Orientation::HorizontalLine },
        Ray { dist: 700000, orient: Orientation::VerticalLine },
    ];
    let cols: Vec<Column> = render_columns(&rays, 96 * SCALE, 640 * SCALE, 870 * SCALE);
    assert_eq!(cols.len(), rays.len());
    for i in 0..rays.len() {
        let single = project(rays[i], 96 * SCALE, 640 * SCALE, 870 * SCALE);
        assert_eq!(cols[i], single);
    }
}

#[test]
fn full_map_frame_renders_every_column() {
    let flags = [
        1, 1, 1, 1, 1, 1, 1, 1, 1, 1, 1, 1, 1, 1, 1,
        1, 0, 0, 1, 0, 0, 0, 0, 0, 0, 0, 1, 0, 0, 1,
        1, 0, 0, 1, 0, 0, 0, 1, 1, 1, 0, 1, 0, 0, 1,
        1, 0, 0, 0, 0, 0, 0, 0, 0, 0, 0, 0, 0, 0, 1,
        1, 1, 1, 1, 0, 0, 0, 0, 0, 0, 1, 1, 1, 1, 1,
        1, 0, 0, 0, 0, 1, 0, 0, 0, 0, 0, 0, 0, 0, 1,
        1, 0, 0, 0, 0, 1, 0, 0, 0, 0, 0, 1, 0, 0, 1,
        1, 0, 0, 0, 0, 1, 0, 0, 0, 0, 0, 0, 0, 0, 1,
        1, 0, 0, 0, 0, 1, 0, 0, 0, 0, 0, 0, 0, 0, 1,
        1, 1, 1, 1, 1, 1, 1, 1, 1, 1, 1, 1, 1, 1, 1,
    ];
    let g = Grid::new(10, 15, 96, tiles_from(10, 15, &flags));
    let px = (15 * 96 / 2) * SCALE;
    let py = (10 * 96 / 2) * SCALE;
    let fov = 60.0_f32.to_radians();
    let n = 360;
    let mut dirs: Vec<(i64, i64)> = Vec::new();
    for i in 0..n {
        let angle = (i as f32 - (n as f32 - 1.0) / 2.0) * (fov / (n as f32 - 1.0));
        dirs.push(dir_of(angle));
    }
    let rays = cast_fan(&g, px, py, &dirs);
    let cols = render_columns(&rays, 96 * SCALE, 960 * SCALE, 870 * SCALE);
    assert_eq!(cols.len(), n);
    for c in cols.iter() {
        assert!(c.height >= 1);
    }
}
