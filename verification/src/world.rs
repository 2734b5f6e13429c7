//! Terrain: voxel classification and the world map.
//!
//! The map is a fixed-size grid of voxel classifications, generated once and
//! read-only afterwards. Classifying a coordinate from a noise value happens
//! in the driver (the noise function is floating-point); this module stores
//! the resulting classification and answers bounds-checked queries about it.

use vstd::prelude::*;

verus! {

/// Classification of one terrain cell: water, sand or grass.
#[derive(Clone, Copy, PartialEq, Eq, Structural, Debug)]
pub enum VoxelType {
    WaterVoxel,
    SandVoxel,
    GrassVoxel,
}

/// A grid coordinate: column `x`, row `z`.
#[derive(Clone, Copy, PartialEq, Eq, Structural, Debug)]
pub struct Loc {
    pub x: usize,
    pub z: usize,
}

/// One terrain cell: its classification and its grid coordinates.
#[derive(Clone, Copy, PartialEq, Eq, Structural, Debug)]
pub struct Voxel {
    pub voxel_type: VoxelType,
    pub location: Loc,
}

/// The immutable terrain grid: `width` columns of `height` cells each,
/// indexed by `(x, z)`.
pub struct WorldMap {
    map: Vec<Vec<VoxelType>>,
    width: usize,
    height: usize,
}

impl WorldMap {
    /// The map holds exactly `width` columns of exactly `height` cells.
    pub closed spec fn wf(&self) -> bool {
        &&& self.map@.len() == self.width
        &&& forall|x: int| 0 <= x < self.width ==> self.map@[x]@.len() == self.height
    }

    pub closed spec fn spec_width(&self) -> usize {
        self.width
    }

    pub closed spec fn spec_height(&self) -> usize {
        self.height
    }

    /// The classification stored at column `x`, row `z`.
    pub closed spec fn cell(&self, x: int, z: int) -> VoxelType {
        self.map@[x]@[z]
    }

    pub open spec fn spec_in_bounds(&self, x: int, z: int) -> bool {
        0 <= x < self.spec_width() && 0 <= z < self.spec_height()
    }

    /// A cell an agent may stand on: anything but water.
    pub open spec fn is_land(&self, x: int, z: int) -> bool {
        self.cell(x, z) != VoxelType::WaterVoxel
    }

    /// Builds the map from per-column classification vectors, `columns[x][z]`
    /// being the classification of the cell at `(x, z)`.
    pub fn spawn_world(width: usize, height: usize, columns: Vec<Vec<VoxelType>>) -> (grid: WorldMap)
        requires
            columns@.len() == width,
            forall|x: int| 0 <= x < width ==> columns@[x]@.len() == height,
        ensures
            grid.wf(),
            grid.spec_width() == width,
            grid.spec_height() == height,
            forall|x: int, z: int|
                0 <= x < width && 0 <= z < height ==> grid.cell(x, z) == columns@[x]@[z],
    {
        WorldMap { map: columns, width, height }
    }

    pub fn width(&self) -> (w: usize)
        ensures
            w == self.spec_width(),
    {
        self.width
    }

    pub fn height(&self) -> (h: usize)
        ensures
            h == self.spec_height(),
    {
        self.height
    }

    /// Bounds-checked classification lookup.
    pub fn classify(&self, x: usize, z: usize) -> (v: VoxelType)
        requires
            self.wf(),
            self.spec_in_bounds(x as int, z as int),
        ensures
            v == self.cell(x as int, z as int),
    {
        self.map[x][z]
    }

    /// The voxel at `(x, z)`: its classification together with its coordinates.
    pub fn voxel_at(&self, x: usize, z: usize) -> (v: Voxel)
        requires
            self.wf(),
            self.spec_in_bounds(x as int, z as int),
        ensures
            v.voxel_type == self.cell(x as int, z as int),
            v.location == (Loc { x, z }),
    {
        Voxel { voxel_type: self.map[x][z], location: Loc { x, z } }
    }
}

} // verus!
