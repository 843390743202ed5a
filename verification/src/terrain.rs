use vstd::prelude::*;
use crate::grid::{Coord, Grid, Grid2D};

verus! {

/// The coarse kind of ground that a raw terrain index shows.
#[derive(Clone, Copy, Debug, PartialEq, Eq, Structural)]
pub enum TerrainType {
    Grass,
    Sand,
    Water,
    Resource,
}

impl TerrainType {
    /// The kind of ground of a raw terrain index.
    pub open spec fn of(index: u8) -> TerrainType {
        if index <= 7 {
            TerrainType::Water
        } else if index <= 103 {
            TerrainType::Sand
        } else if index <= 107 {
            TerrainType::Grass
        } else if index <= 123 {
            TerrainType::Sand
        } else {
            TerrainType::Resource
        }
    }

    /// The kind of ground of a raw terrain index.
    pub fn classify(index: u8) -> (kind: TerrainType)
        ensures
            kind == Self::of(index),
    {
        match index {
            0..=7 => TerrainType::Water,
            8..=103 => TerrainType::Sand,
            104..=107 => TerrainType::Grass,
            108..=123 => TerrainType::Sand,
            124.. => TerrainType::Resource,
        }
    }
}

/// The terrain of a map: 1024 by 1024 raw terrain indices, fixed once loaded.
#[derive(Clone, Debug)]
pub struct TerrainMap(pub Grid<u8>);

impl TerrainMap {
    /// Number of columns.
    pub const W: usize = 1024;

    /// Number of rows.
    pub const H: usize = 1024;

    /// The terrain has its full size.
    pub open spec fn wf(&self) -> bool {
        &&& self.0.wf()
        &&& self.0.cols() == 1024
        &&& self.0.rows() == 1024
    }

    /// The kind of ground at column `x`, row `y`.
    pub open spec fn kind_at(&self, x: int, y: int) -> TerrainType {
        TerrainType::of(self.0.cell(x, y))
    }

    /// Whether a unit can stand on the cell at column `x`, row `y`.
    pub open spec fn passable_at(&self, x: int, y: int) -> bool {
        self.kind_at(x, y) != TerrainType::Resource
    }

    /// Whether `position` names a cell of the terrain.
    pub fn is_in_bounds(position: Coord) -> (r: bool)
        ensures
            r == position.within(1024, 1024),
    {
        position.x >= 0 && position.x < 1024 && position.y >= 0 && position.y < 1024
    }

    /// The kind of ground at `position`.
    pub fn get(&self, position: Coord) -> (kind: TerrainType)
        requires
            self.wf(),
            position.within(1024, 1024),
        ensures
            kind == self.kind_at(position.x as int, position.y as int),
    {
        TerrainType::classify(self.0.get(position))
    }

    /// Whether a unit can stand at `position`: on anything but a resource.
    pub fn passable(&self, position: Coord) -> (r: bool)
        requires
            self.wf(),
            position.within(1024, 1024),
        ensures
            r == self.passable_at(position.x as int, position.y as int),
    {
        match self.get(position) {
            TerrainType::Resource => false,
            _ => true,
        }
    }
}

} // verus!
