//! Tests of the uniform-grid spatial index: cell-key clamping, exact
//! insert/remove/relocate behavior, and the error taxonomy.

use boids::errors::{ConfigurationError, SpatialIndexError};
use boids::grid::{CellKey, SpatialGrid};
use boids::vec3::Vec3;

const SCALE: i64 = 1_000_000;

fn ten_cube() -> SpatialGrid {
    SpatialGrid::init(
        Vec3::new(-10 * SCALE, -10 * SCALE, -10 * SCALE),
        Vec3::new(10 * SCALE, 10 * SCALE, 10 * SCALE),
        2,
        2,
        2,
    )
    .unwrap()
}

#[test]
fn init_rejects_invalid_bounds() {
    let r = SpatialGrid::init(
        Vec3::new(0, 0, 0),
        Vec3::new(10 * SCALE, 0, 10 * SCALE),
        2,
        2,
        2,
    );
    assert_eq!(r.err(), Some(ConfigurationError::InvalidBounds));
}

#[test]
fn init_rejects_invalid_dimensions() {
    let r = SpatialGrid::init(
        Vec3::new(-SCALE, -SCALE, -SCALE),
        Vec3::new(SCALE, SCALE, SCALE),
        2,
        0,
        2,
    );
    assert_eq!(r.err(), Some(ConfigurationError::InvalidDimensions));
    let r2 = SpatialGrid::init(
        Vec3::new(-SCALE, -SCALE, -SCALE),
        Vec3::new(SCALE, SCALE, SCALE),
        -3,
        2,
        2,
    );
    assert_eq!(r2.err(), Some(ConfigurationError::InvalidDimensions));
}

#[test]
fn cell_key_is_total_and_clamps() {
    let g = ten_cube();
    // far outside on every axis: clamps to the boundary cells
    let low = g.cell_key_of(&Vec3::new(-1_000_000_000_000, -10 * SCALE, -999 * SCALE));
    assert_eq!(low, CellKey { x: 0, y: 0, z: 0 });
    let high = g.cell_key_of(&Vec3::new(1_000_000_000_000, 10 * SCALE, 999 * SCALE));
    assert_eq!(high, CellKey { x: 1, y: 1, z: 1 });
    // interior positions floor into their cell
    let mid = g.cell_key_of(&Vec3::new(-SCALE, SCALE, -10 * SCALE + 1));
    assert_eq!(mid, CellKey { x: 0, y: 1, z: 0 });
}

#[test]
fn cell_key_clamps_on_wide_axis() {
    let g = SpatialGrid::init(
        Vec3::new(0, 0, 0),
        Vec3::new(1024 * SCALE, SCALE, SCALE),
        1024,
        1,
        1,
    )
    .unwrap();
    assert_eq!(
        g.cell_key_of(&Vec3::new(5_000_000_000_000, 0, 0)),
        CellKey { x: 1023, y: 0, z: 0 }
    );
    assert_eq!(
        g.cell_key_of(&Vec3::new(512 * SCALE, 0, 0)),
        CellKey { x: 512, y: 0, z: 0 }
    );
}

#[test]
fn insert_rejects_unknown_cell() {
    let mut g = ten_cube();
    let bad = CellKey { x: 2, y: 0, z: 0 };
    let r = g.insert(bad, 7);
    assert_eq!(r.err(), Some(SpatialIndexError::UnknownCell { key: bad }));
}

#[test]
fn remove_reports_missing_agent() {
    let mut g = ten_cube();
    let key = CellKey { x: 0, y: 0, z: 0 };
    g.insert(key, 3).unwrap();
    let r = g.remove(key, 4);
    assert_eq!(
        r.err(),
        Some(SpatialIndexError::AgentNotInCell { key, id: 4 })
    );
    // the failed removal left the cell untouched
    assert_eq!(g.members(key).unwrap(), vec![3]);
}

#[test]
fn remove_takes_first_occurrence() {
    let mut g = ten_cube();
    let key = CellKey { x: 1, y: 0, z: 1 };
    g.insert(key, 7).unwrap();
    g.insert(key, 9).unwrap();
    g.insert(key, 7).unwrap();
    g.remove(key, 7).unwrap();
    assert_eq!(g.members(key).unwrap(), vec![9, 7]);
}

#[test]
fn relocate_moves_between_cells() {
    let mut g = ten_cube();
    let a = CellKey { x: 0, y: 0, z: 0 };
    let b = CellKey { x: 1, y: 1, z: 1 };
    g.insert(a, 42).unwrap();
    g.relocate(a, b, 42).unwrap();
    assert_eq!(g.members(a).unwrap(), Vec::<usize>::new());
    assert_eq!(g.members(b).unwrap(), vec![42]);
}

#[test]
fn relocate_same_key_is_noop() {
    let mut g = ten_cube();
    let a = CellKey { x: 0, y: 1, z: 0 };
    g.insert(a, 5).unwrap();
    g.relocate(a, a, 5).unwrap();
    assert_eq!(g.members(a).unwrap(), vec![5]);
    // even an absent id relocates "successfully" between equal keys
    g.relocate(a, a, 99).unwrap();
    assert_eq!(g.members(a).unwrap(), vec![5]);
}

#[test]
fn relocate_failure_leaves_grid_unchanged() {
    let mut g = ten_cube();
    let a = CellKey { x: 0, y: 0, z: 0 };
    let b = CellKey { x: 1, y: 0, z: 0 };
    g.insert(a, 1).unwrap();
    let r = g.relocate(a, b, 2);
    assert_eq!(r.err(), Some(SpatialIndexError::AgentNotInCell { key: a, id: 2 }));
    assert_eq!(g.members(a).unwrap(), vec![1]);
    assert_eq!(g.members(b).unwrap(), Vec::<usize>::new());
}

#[test]
fn members_rejects_unknown_cell() {
    let g = ten_cube();
    let bad = CellKey { x: 0, y: 5, z: 0 };
    assert_eq!(
        g.members(bad).err(),
        Some(SpatialIndexError::UnknownCell { key: bad })
    );
}

#[test]
fn neighbors_query_returns_same_cell_only() {
    let mut g = ten_cube();
    let a = CellKey { x: 0, y: 0, z: 0 };
    let b = CellKey { x: 1, y: 0, z: 0 };
    g.insert(a, 1).unwrap();
    g.insert(b, 2).unwrap();
    // a position just left of the x boundary sees only cell a's agent,
    // even though agent 2 may be geometrically close in the next cell
    let nearby = g.neighbors_of(&Vec3::new(-1, -5 * SCALE, -5 * SCALE));
    assert_eq!(nearby, vec![1]);
}
