use vstd::prelude::*;
use vstd::std_specs::cmp::PartialEqSpec;
use vstd::std_specs::cmp::PartialEqSpecImpl;
use crate::grid::{Coord, Grid, Grid2D};

verus! {

/// The handle of a unit or a building. The maps store and compare handles and
/// never look behind them.
#[derive(Debug, Clone, Copy, PartialEq, Eq, Structural)]
pub struct EntityId(pub u64);

/// What stands on a cell.
#[derive(Debug, Clone, Copy)]
pub enum OverMapTile {
    Empty,
    Unit(EntityId),
    Building(EntityId),
}

impl PartialEq for OverMapTile {
    fn eq(&self, other: &Self) -> (r: bool) {
        match (*self, *other) {
            (OverMapTile::Empty, OverMapTile::Empty) => true,
            (OverMapTile::Unit(a), OverMapTile::Unit(b)) => a == b,
            (OverMapTile::Building(a), OverMapTile::Building(b)) => a == b,
            _ => false,
        }
    }
}

impl Eq for OverMapTile {}

impl PartialEqSpecImpl for OverMapTile {
    open spec fn obeys_eq_spec() -> bool {
        true
    }

    open spec fn eq_spec(&self, other: &Self) -> bool {
        *self == *other
    }
}

impl Default for OverMapTile {
    fn default() -> (tile: Self)
        ensures
            tile == OverMapTile::Empty,
    {
        OverMapTile::Empty
    }
}

/// Which unit or building stands on each cell of the 1024 by 1024 map.
#[derive(Clone, Debug)]
pub struct OverMap(pub Grid<OverMapTile>);

impl Default for OverMap {
    /// The map on which nothing stands.
    fn default() -> (map: Self)
        ensures
            map.wf(),
            forall|x: int, y: int|
                0 <= x < 1024 && 0 <= y < 1024 ==> #[trigger] map.cell(x, y) == OverMapTile::Empty,
    {
        OverMap(Grid::new(1024, 1024, OverMapTile::Empty))
    }
}

impl Grid2D<OverMapTile> for OverMap {
    open spec fn cols(&self) -> int {
        self.0.cols()
    }

    open spec fn rows(&self) -> int {
        self.0.rows()
    }

    open spec fn cell(&self, x: int, y: int) -> OverMapTile {
        self.0.cell(x, y)
    }

    open spec fn wf(&self) -> bool {
        &&& self.0.wf()
        &&& self.0.cols() == 1024
        &&& self.0.rows() == 1024
    }

    proof fn dims_fit(&self) {
    }

    fn width(&self) -> (w: i16) {
        self.0.width()
    }

    fn height(&self) -> (h: i16) {
        self.0.height()
    }

    fn get(&self, position: Coord) -> (value: OverMapTile) {
        self.0.get(position)
    }

    fn set(&mut self, position: Coord, value: OverMapTile) {
        self.0.set(position, value)
    }
}

/// The executable `==` on tiles decides equality of tiles.
pub proof fn lemma_tiles_compare()
    ensures
        crate::grid::plain_eq::<OverMapTile>(),
{
}

} // verus!
