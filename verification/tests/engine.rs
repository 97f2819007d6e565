//! Tests for the grid, the player, and the exact geometry helpers.

use raycast::geom::dist_fp;
use raycast::grid::{Grid, Tile};
use raycast::player::Player;
use raycast::SCALE;

fn tiles_from(rows: usize, cols: usize, flags: &[u8]) -> Vec<Tile> {
    assert_eq!(flags.len(), rows * cols);
    flags
        .iter()
        .map(|&f| if f == 1 { Tile::Wall } else { Tile::Empty })
        .collect()
}

/// A 3x3 map whose border is all wall and whose single interior cell is
/// empty, with 32-pixel cells.
fn small_room() -> Grid {
    let flags = [1, 1, 1, 1, 0, 1, 1, 1, 1];
    Grid::new(3, 3, 32, tiles_from(3, 3, &flags))
}

/// The game's 10x15 map with 96-pixel cells.
fn game_map() -> Grid {
    let flags = [
        1, 1, 1, 1, 1, 1, 1, 1, 1, 1, 1, 1, 1, 1, 1,
        1, 0, 0, 1, 0, 0, 0, 0, 0, 0, 0, 1, 0, 0, 1,
        1, 0, 0, 1, 0, 0, 0, 1, 1, 1, 0, 1, 0, 0, 1,
        1, 0, 0, 0, 0, 0, 0, 0, 0, 0, 0, 0, 0, 0, 1,
        1, 1, 1, 1, 0, 0, 0, 0, 0, 0, 1, 1, 1, 1, 1,
        1, 0, 0, 0, 0, 1, 0, 0, 0, 0, 0, 0, 0, 0, 1,
        1, 0, 0, 0, 0, 1, 0, 0, 0, 0, 0, 1, 0, 0, 1,
        1, 0, 0, 0, 0, 1, 0, 0, 0, 0, 0, 0, 0, 0, 1,
        1, 0, 0, 0, 0, 1, 0, 0, 0, 0, 0, 0, 0, 0, 1,
        1, 1, 1, 1, 1, 1, 1, 1, 1, 1, 1, 1, 1, 1, 1,
    ];
    Grid::new(10, 15, 96, tiles_from(10, 15, &flags))
}

#[test]
fn outside_points_are_walls() {
    let g = small_room();
    let w = 3 * 32 * SCALE;
    assert!(g.wall_at(-1, 0));
    assert!(g.wall_at(0, -1));
    assert!(g.wall_at(w, 0));
    assert!(g.wall_at(0, w));
    assert!(g.wall_at(-1000000000, 50 * SCALE));
    assert!(g.wall_at(50 * SCALE, w + 123456));
}

#[test]
fn border_cells_are_walls_and_interior_is_open() {
    let g = small_room();
    // centre of the interior cell
    assert!(!g.wall_at(48 * SCALE, 48 * SCALE));
    // centres of border cells
    assert!(g.wall_at(16 * SCALE, 16 * SCALE));
    assert!(g.wall_at(80 * SCALE, 48 * SCALE));
    assert!(g.wall_at(48 * SCALE, 80 * SCALE));
}

#[test]
fn game_map_cells_match_layout() {
    let g = game_map();
    let c = 96 * SCALE;
    let mid = c / 2;
    // row 1, col 1 is empty; row 2, col 7 is a wall; row 0 anywhere is wall
    assert!(!g.wall_at(1 * c + mid, 1 * c + mid));
    assert!(g.wall_at(7 * c + mid, 2 * c + mid));
    assert!(g.wall_at(5 * c + mid, 0 * c + mid));
    // row 6, col 11 is the lone interior wall of the lower half
    assert!(g.wall_at(11 * c + mid, 6 * c + mid));
    assert!(!g.wall_at(12 * c + mid, 6 * c + mid));
}

#[test]
fn blocked_move_changes_nothing_even_when_repeated() {
    let g = small_room();
    let mut p = Player { x: 48 * SCALE, y: 48 * SCALE, angle: 0 };
    // a 20-pixel step east lands in the border wall
    let step = 20 * SCALE;
    for _ in 0..3 {
        let moved = p.try_move(&g, step, 0);
        assert!(!moved);
        assert_eq!(p.x, 48 * SCALE);
        assert_eq!(p.y, 48 * SCALE);
        assert_eq!(p.angle, 0);
    }
}

#[test]
fn open_move_translates_the_player() {
    let g = small_room();
    let mut p = Player { x: 48 * SCALE, y: 48 * SCALE, angle: 7 };
    let moved = p.try_move(&g, 5 * SCALE, -3 * SCALE);
    assert!(moved);
    assert_eq!(p.x, 53 * SCALE);
    assert_eq!(p.y, 45 * SCALE);
    assert_eq!(p.angle, 7);
}

#[test]
fn rotation_is_always_legal_and_wraps() {
    let g = small_room();
    let mut p = Player { x: 48 * SCALE, y: 48 * SCALE, angle: 0 };
    // facing a wall does not matter: rotation has no collision test
    assert!(!p.try_move(&g, 20 * SCALE, 0));
    p.rotate(100);
    assert_eq!(p.angle, 100);
    p.rotate(-250);
    assert_eq!(p.angle, -150);
    let before = p.angle;
    p.rotate(i64::MAX);
    p.rotate(i64::MAX);
    assert_eq!(p.angle, before.wrapping_add(i64::MAX).wrapping_add(i64::MAX));
    assert_eq!(p.x, 48 * SCALE);
    assert_eq!(p.y, 48 * SCALE);
}

#[test]
fn distances_are_exact_square_roots() {
    assert_eq!(dist_fp(0, 0, 3, 4), 5);
    assert_eq!(dist_fp(0, 0, 300000, 400000), 500000);
    assert_eq!(dist_fp(10, 20, 10, 20), 0);
    assert_eq!(dist_fp(-3, 0, 0, 4), 5);
    // floor behaviour: sqrt(2) rounds down to 1
    assert_eq!(dist_fp(0, 0, 1, 1), 1);
}
