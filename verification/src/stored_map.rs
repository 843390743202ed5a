use vstd::prelude::*;
use rand::rngs::StdRng;
use crate::grid::{Coord, Grid2D};
use crate::map::{decode_terrain, range_at, terrain_layout, LoadError, TileRange};
use crate::terrain::TerrainMap;

verus! {

/// A map as it is stored: the terrain, where the players' queens start, and
/// the cell that the view opens on.
#[derive(Clone, Debug)]
pub struct StoredMap {
    pub terrain: TerrainMap,
    pub queen_positions: Vec<Coord>,
    pub view_position: Coord,
}

/// The range of terrain indices of a tile class.
pub type TerrainTileRange = TileRange;

/// Number of start-position slots that follow the terrain.
pub const QUEEN_SLOTS: usize = 8;

/// The big-endian 16-bit word at `pos`.
pub open spec fn word_at(bytes: Seq<u8>, pos: int) -> u16 {
    (bytes[pos] * 256 + bytes[pos + 1]) as u16
}

/// The coordinate stored in the four bytes at `pos`: two words, column first.
/// A slot with `0xFFFF` in either word holds none.
pub open spec fn coord_at(bytes: Seq<u8>, pos: int) -> Option<Coord> {
    let x = word_at(bytes, pos);
    let y = word_at(bytes, pos + 2);
    if x != 0xFFFF && y != 0xFFFF {
        Some(Coord { x: x as i16, y: y as i16 })
    } else {
        None
    }
}

/// The coordinates held by the first `slots` four-byte slots from `pos` on, in
/// the order of the slots.
pub open spec fn coords_in(bytes: Seq<u8>, pos: int, slots: nat) -> Seq<Coord>
    decreases slots,
{
    if slots == 0 {
        Seq::empty()
    } else {
        let before = coords_in(bytes, pos, (slots - 1) as nat);
        match coord_at(bytes, pos + 4 * (slots - 1)) {
            Some(c) => before.push(c),
            None => before,
        }
    }
}

/// What a stream says of a map.
pub struct MapLayout {
    /// The range of each cell of each tile, tiles in the order of the stream.
    pub tiles: Seq<Seq<TileRange>>,
    /// The start positions that are in use.
    pub queens: Seq<Coord>,
    /// The view position.
    pub view: Coord,
}

/// Reads a whole stream: the tile blocks, eight start-position slots and the
/// view position, which must be there.
pub open spec fn map_layout(bytes: Seq<u8>) -> Result<MapLayout, LoadError> {
    match terrain_layout(bytes) {
        Err(e) => Err(e),
        Ok((tiles, end)) => if end + 36 > bytes.len() {
            Err(LoadError::UnexpectedEof)
        } else {
            match coord_at(bytes, end + 32) {
                None => Err(LoadError::InvalidData),
                Some(view) => Ok(MapLayout { tiles, queens: coords_in(bytes, end, 8), view }),
            }
        },
    }
}

proof fn lemma_word(high: u8, low: u8)
    ensures
        (high as u16) << 8 | (low as u16) == (high * 256 + low) as u16,
{
    assert((high as u16) << 8 | (low as u16) == (high as u16) * 256 + (low as u16)) by (bit_vector);
}

/// Reads the coordinate slot at `pos`.
fn read_coord(input: &[u8], pos: usize) -> (r: Option<Coord>)
    requires
        pos + 4 <= input.len(),
    ensures
        r == coord_at(input@, pos as int),
{
    let x: u16 = (input[pos] as u16) << 8 | (input[pos + 1] as u16);
    let y: u16 = (input[pos + 2] as u16) << 8 | (input[pos + 3] as u16);
    proof {
        lemma_word(input[pos as int], input[pos + 1]);
        lemma_word(input[pos + 2], input[pos + 3]);
    }
    if x != u16::MAX && y != u16::MAX {
        Some(Coord { x: x as i16, y: y as i16 })
    } else {
        None
    }
}

/// Decodes a stored map.
///
/// Fails with [`LoadError::UnexpectedEof`] where the stream ends before the
/// view position is complete, and with [`LoadError::InvalidData`] at a mode
/// byte other than 1 to 5, at a class byte that names no class, or where the
/// view position is left unused; succeeds on every other stream. Cells of a
/// class get an index of that class drawn from `rng`, each cell on its own.
pub fn load(input: &[u8], rng: &mut StdRng) -> (r: Result<StoredMap, LoadError>)
    ensures
        match map_layout(input@) {
            Err(e) => r matches Err(f) && f == e,
            Ok(layout) => {
                &&& r matches Ok(map)
                &&& map.terrain.wf()
                &&& forall|x: int, y: int|
                    0 <= x < 1024 && 0 <= y < 1024 ==> range_at(layout.tiles, x, y).admits(
                        #[trigger] map.terrain.0.cell(x, y),
                    )
                &&& map.queen_positions@ == layout.queens
                &&& map.view_position == layout.view
            },
        },
{
    let (grid, end) = match decode_terrain(input, rng) {
        Ok(decoded) => decoded,
        Err(e) => {
            return Err(e);
        },
    };
    if input.len() - end < 36 {
        return Err(LoadError::UnexpectedEof);
    }
    let mut queen_positions: Vec<Coord> = Vec::new();
    let mut slot: usize = 0;
    while slot < QUEEN_SLOTS
        invariant
            slot <= 8,
            end + 36 <= input.len(),
            queen_positions@ == coords_in(input@, end as int, slot as nat),
        decreases 8 - slot,
    {
        match read_coord(input, end + 4 * slot) {
            Some(coord) => {
                queen_positions.push(coord);
            },
            None => {},
        }
        slot = slot + 1;
    }
    match read_coord(input, end + 32) {
        Some(view_position) => Ok(
            StoredMap { terrain: TerrainMap(grid), queen_positions, view_position },
        ),
        None => Err(LoadError::InvalidData),
    }
}

} // verus!
