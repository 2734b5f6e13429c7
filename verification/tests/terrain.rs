//! Terrain generation and the shared movement geometry.

use noise::{NoiseFn, Perlin};
use rabbit_sim::movement::{legal_moves, step_toward};
use rabbit_sim::world::{Loc, VoxelType, WorldMap};

/// The classification the driver applies to a noise value: low is water, the
/// middle band is sand, the rest grass.
fn classify_noise(v: f64) -> VoxelType {
    if v < -0.15 {
        VoxelType::WaterVoxel
    } else if v < 0.05 {
        VoxelType::SandVoxel
    } else {
        VoxelType::GrassVoxel
    }
}

fn noise_columns(seed: u32, width: usize, height: usize) -> Vec<Vec<VoxelType>> {
    let perlin = Perlin::new(seed);
    let mut columns = Vec::new();
    for x in 0..width {
        let mut col = Vec::new();
        for z in 0..height {
            let v = perlin.get([(x as f64) / 10.0, (z as f64) / 10.0]);
            col.push(classify_noise(v));
        }
        columns.push(col);
    }
    columns
}

fn grass_grid(width: usize, height: usize) -> WorldMap {
    let columns = vec![vec![VoxelType::GrassVoxel; height]; width];
    WorldMap::spawn_world(width, height, columns)
}

#[test]
fn world_classification_reproducible() {
    let a = noise_columns(5593487, 60, 60);
    let b = noise_columns(5593487, 60, 60);
    assert_eq!(a, b);
    let grid_a = WorldMap::spawn_world(60, 60, a.clone());
    let grid_b = WorldMap::spawn_world(60, 60, b);
    for x in 0..60 {
        for z in 0..60 {
            assert_eq!(grid_a.classify(x, z), grid_b.classify(x, z));
            assert_eq!(grid_a.classify(x, z), a[x][z]);
        }
    }
}

#[test]
fn spawn_world_stores_classification() {
    let mut columns = vec![vec![VoxelType::GrassVoxel; 4]; 3];
    columns[1][2] = VoxelType::WaterVoxel;
    columns[2][0] = VoxelType::SandVoxel;
    let grid = WorldMap::spawn_world(3, 4, columns);
    assert_eq!(grid.width(), 3);
    assert_eq!(grid.height(), 4);
    assert_eq!(grid.classify(1, 2), VoxelType::WaterVoxel);
    assert_eq!(grid.classify(2, 0), VoxelType::SandVoxel);
    assert_eq!(grid.classify(0, 0), VoxelType::GrassVoxel);
}

#[test]
fn voxel_at_carries_its_coordinates() {
    let mut columns = vec![vec![VoxelType::GrassVoxel; 4]; 4];
    columns[2][3] = VoxelType::SandVoxel;
    let grid = WorldMap::spawn_world(4, 4, columns);
    let v = grid.voxel_at(2, 3);
    assert_eq!(v.voxel_type, VoxelType::SandVoxel);
    assert_eq!(v.location, Loc { x: 2, z: 3 });
}

#[test]
fn step_toward_breaks_axis_ties_along_z() {
    let grid = grass_grid(20, 20);
    let dest = step_toward(&grid, Loc { x: 5, z: 5 }, Loc { x: 8, z: 8 });
    assert_eq!(dest, Loc { x: 5, z: 6 });
}

#[test]
fn step_toward_prefers_larger_axis() {
    let grid = grass_grid(20, 20);
    let dest = step_toward(&grid, Loc { x: 5, z: 5 }, Loc { x: 9, z: 6 });
    assert_eq!(dest, Loc { x: 6, z: 5 });
    let dest = step_toward(&grid, Loc { x: 5, z: 5 }, Loc { x: 4, z: 1 });
    assert_eq!(dest, Loc { x: 5, z: 4 });
}

#[test]
fn step_toward_refuses_water() {
    let mut columns = vec![vec![VoxelType::GrassVoxel; 10]; 10];
    columns[5][6] = VoxelType::WaterVoxel;
    let grid = WorldMap::spawn_world(10, 10, columns);
    // the tie-break would step to (5, 6), but that cell is water
    let dest = step_toward(&grid, Loc { x: 5, z: 5 }, Loc { x: 8, z: 8 });
    assert_eq!(dest, Loc { x: 5, z: 5 });
}

#[test]
fn legal_moves_excludes_center_water_and_off_grid() {
    let mut columns = vec![vec![VoxelType::GrassVoxel; 10]; 10];
    columns[4][4] = VoxelType::WaterVoxel;
    let grid = WorldMap::spawn_world(10, 10, columns);
    let moves = legal_moves(&grid, Loc { x: 5, z: 5 });
    assert_eq!(moves.len(), 7);
    assert!(!moves.contains(&Loc { x: 5, z: 5 }));
    assert!(!moves.contains(&Loc { x: 4, z: 4 }));
    assert!(moves.contains(&Loc { x: 6, z: 6 }));

    let corner = legal_moves(&grid, Loc { x: 0, z: 0 });
    assert_eq!(corner.len(), 3);
    assert!(corner.contains(&Loc { x: 0, z: 1 }));
    assert!(corner.contains(&Loc { x: 1, z: 0 }));
    assert!(corner.contains(&Loc { x: 1, z: 1 }));
}
