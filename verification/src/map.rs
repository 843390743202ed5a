use vstd::prelude::*;
use rand::rngs::StdRng;
use crate::grid::{Coord, Grid, Grid2D};
use crate::random::draw_below;

verus! {

/// The raw terrain: one tile index per cell.
pub type TerrainGrid = Grid<u8>;

/// Why a stream could not be decoded.
#[derive(Clone, Copy, Debug, PartialEq, Eq, Structural)]
pub enum LoadError {
    /// The stream ended where a byte was expected.
    UnexpectedEof,
    /// The stream holds a byte that the format does not allow at its place.
    InvalidData,
}

/// When a tile is compressed, only its class (say, pure water) is stored.
/// A class stands for `span` consecutive terrain indices from `base` on, and a
/// cell of that class may show any one of them.
#[derive(Clone, Copy, Debug, PartialEq, Eq, Structural)]
pub struct TileRange {
    pub base: u8,
    pub span: u8,
}

impl TileRange {
    /// The encoded bytes that name a class whose indices all fit a byte.
    pub open spec fn is_class(encoded: u8) -> bool {
        encoded <= 43
    }

    /// The range that an encoded class byte names.
    pub open spec fn class_range(encoded: u8) -> TileRange {
        if encoded < 31 {
            TileRange { base: (encoded * 4) as u8, span: 4 }
        } else {
            TileRange { base: (4 + 10 * (encoded - 19)) as u8, span: 10 }
        }
    }

    /// The range that holds `value` alone.
    pub open spec fn exactly(value: u8) -> TileRange {
        TileRange { base: value, span: 1 }
    }

    /// The range is not empty and ends within the terrain indices.
    pub open spec fn wf(self) -> bool {
        self.span > 0 && self.base + self.span <= 256
    }

    /// Whether a cell of this range may show `value`.
    pub open spec fn admits(self, value: u8) -> bool {
        self.base <= value < self.base + self.span
    }

    /// Whether `encoded` names a class.
    pub fn is_valid_class(encoded: u8) -> (r: bool)
        ensures
            r == Self::is_class(encoded),
    {
        encoded <= 43
    }

    /// The range of terrain indices that the class byte `encoded` stands for.
    pub fn decode(encoded: u8) -> (range: Self)
        requires
            Self::is_class(encoded),
        ensures
            range == Self::class_range(encoded),
            range.base == if encoded < 31 {
                encoded * 4
            } else {
                4 + 10 * (encoded - 19)
            },
            range.span == 4 || range.span == 10,
            range.base + range.span <= 256,
            range.wf(),
    {
        if encoded < 31 {
            TileRange { base: encoded * 4, span: 4 }
        } else {
            TileRange { base: 4 + (10 * (encoded - 19)), span: 10 }
        }
    }

    /// The terrain index at distance `draw` from the start of the range.
    pub fn nth(&self, draw: u8) -> (value: u8)
        requires
            self.wf(),
            draw < self.span,
        ensures
            value == self.base + draw,
            self.admits(value),
    {
        self.base + draw
    }

    /// One terrain index of the range, drawn from `rng`.
    pub fn sample_tile(&self, rng: &mut StdRng) -> (value: u8)
        requires
            self.wf(),
        ensures
            self.admits(value),
    {
        let draw: u8 = draw_below(rng, self.span);
        self.nth(draw)
    }
}

/// The byte at `pos`, or the end-of-data error where the stream is shorter.
pub open spec fn byte_at(bytes: Seq<u8>, pos: int) -> Result<u8, LoadError> {
    if 0 <= pos < bytes.len() {
        Ok(bytes[pos])
    } else {
        Err(LoadError::UnexpectedEof)
    }
}

/// The class range named by the byte at `pos`.
pub open spec fn class_at(bytes: Seq<u8>, pos: int) -> Result<TileRange, LoadError> {
    match byte_at(bytes, pos) {
        Err(e) => Err(e),
        Ok(encoded) => if TileRange::is_class(encoded) {
            Ok(TileRange::class_range(encoded))
        } else {
            Err(LoadError::InvalidData)
        },
    }
}

/// A tile in which every cell has the same range.
pub open spec fn uniform_plan(range: TileRange) -> Seq<TileRange> {
    Seq::new(256, |i: int| range)
}

/// A run of `count` cells of one range.
pub open spec fn run_of(range: TileRange, count: int) -> Seq<TileRange> {
    Seq::new(count as nat, |i: int| range)
}

/// The cells that a run of `count` may still fill when `filled` cells of the
/// tile are taken: a run ends with the tile.
pub open spec fn run_length(count: u8, filled: int) -> int {
    if count <= 256 - filled {
        count as int
    } else {
        256 - filled
    }
}

/// Reads (class, length) pairs from `pos` on until the tile's 256 cells are
/// covered; `filled` holds the ranges of the cells covered so far, in the
/// order of filling. Gives the ranges of all 256 cells and the position after
/// the last pair.
pub open spec fn parse_runs(bytes: Seq<u8>, pos: int, filled: Seq<TileRange>) -> Result<
    (Seq<TileRange>, int),
    LoadError,
>
    decreases bytes.len() - pos,
{
    if filled.len() >= 256 {
        Ok((filled, pos))
    } else {
        match class_at(bytes, pos) {
            Err(e) => Err(e),
            Ok(range) => match byte_at(bytes, pos + 1) {
                Err(e) => Err(e),
                Ok(count) => parse_runs(
                    bytes,
                    pos + 2,
                    filled + run_of(range, run_length(count, filled.len() as int)),
                ),
            },
        }
    }
}

/// What one tile's block of the stream says.
pub struct TileStep {
    /// The range of each cell; the cell at offset `(dx, dy)` stands at `dx * 16 + dy`.
    pub plan: Seq<TileRange>,
    /// Where the next block starts.
    pub next: int,
    /// The class that the following `carry_left` tiles repeat.
    pub carry_class: u8,
    /// How many tiles after this one take their class from this block.
    pub carry_left: int,
}

/// Reads the block of one tile at `pos`: a mode byte and what the mode asks for.
pub open spec fn parse_tile(bytes: Seq<u8>, pos: int) -> Result<TileStep, LoadError> {
    match byte_at(bytes, pos) {
        Err(e) => Err(e),
        Ok(mode) => if mode == 1 {
            if pos + 257 <= bytes.len() {
                Ok(
                    TileStep {
                        plan: Seq::new(256, |i: int| TileRange::exactly(bytes[pos + 1 + i])),
                        next: pos + 257,
                        carry_class: 0,
                        carry_left: 0,
                    },
                )
            } else {
                Err(LoadError::UnexpectedEof)
            }
        } else if mode == 2 {
            match class_at(bytes, pos + 1) {
                Err(e) => Err(e),
                Ok(range) => Ok(
                    TileStep {
                        plan: uniform_plan(range),
                        next: pos + 2,
                        carry_class: 0,
                        carry_left: 0,
                    },
                ),
            }
        } else if mode == 3 {
            match parse_runs(bytes, pos + 1, Seq::empty()) {
                Err(e) => Err(e),
                Ok((runs, end)) => Ok(
                    TileStep { plan: runs, next: end, carry_class: 0, carry_left: 0 },
                ),
            }
        } else if mode == 4 {
            match parse_runs(bytes, pos + 1, Seq::empty()) {
                Err(e) => Err(e),
                Ok((runs, end)) => Ok(
                    TileStep {
                        plan: Seq::new(256, |i: int| runs[(i % 16) * 16 + i / 16]),
                        next: end,
                        carry_class: 0,
                        carry_left: 0,
                    },
                ),
            }
        } else if mode == 5 {
            if pos + 3 <= bytes.len() {
                match class_at(bytes, pos + 1) {
                    Err(e) => Err(e),
                    Ok(range) => Ok(
                        TileStep {
                            plan: uniform_plan(range),
                            next: pos + 3,
                            carry_class: bytes[pos + 1],
                            carry_left: if bytes[pos + 2] > 1 {
                                bytes[pos + 2] - 1
                            } else {
                                0
                            },
                        },
                    ),
                }
            } else {
                Err(LoadError::UnexpectedEof)
            }
        } else {
            Err(LoadError::InvalidData)
        },
    }
}

/// Reads the blocks of tiles `tile` to 4095 from `pos` on. `done` holds the
/// plans of the tiles before `tile`; a positive `carry_left` says that this
/// many tiles, from `tile` on, repeat class `carry_class` and have no block of
/// their own. Gives the plans of all 4096 tiles, in the order of the stream,
/// and the position after the last block.
pub open spec fn parse_tiles(
    bytes: Seq<u8>,
    tile: int,
    pos: int,
    carry_class: u8,
    carry_left: int,
    done: Seq<Seq<TileRange>>,
) -> Result<(Seq<Seq<TileRange>>, int), LoadError>
    decreases 4096 - tile,
{
    if tile >= 4096 {
        Ok((done, pos))
    } else if carry_left > 0 {
        parse_tiles(
            bytes,
            tile + 1,
            pos,
            carry_class,
            carry_left - 1,
            done.push(uniform_plan(TileRange::class_range(carry_class))),
        )
    } else {
        match parse_tile(bytes, pos) {
            Err(e) => Err(e),
            Ok(step) => parse_tiles(
                bytes,
                tile + 1,
                step.next,
                step.carry_class,
                step.carry_left,
                done.push(step.plan),
            ),
        }
    }
}

/// The plans of the 4096 tiles that a stream describes, and where its tile
/// blocks end.
pub open spec fn terrain_layout(bytes: Seq<u8>) -> Result<(Seq<Seq<TileRange>>, int), LoadError> {
    parse_tiles(bytes, 0, 0, 0, 0, Seq::empty())
}

/// The range of cell `(x, y)` under the plans `tiles`. The stream visits tile
/// columns one after the other and, in each, the tiles from top to bottom.
pub open spec fn range_at(tiles: Seq<Seq<TileRange>>, x: int, y: int) -> TileRange {
    tiles[(x / 16) * 64 + y / 16][(x % 16) * 16 + y % 16]
}

/// Whether `(x, y)` is a cell of the tile whose first cell is `(base_x, base_y)`.
pub open spec fn in_tile(x: int, y: int, base_x: int, base_y: int) -> bool {
    base_x <= x < base_x + 16 && base_y <= y < base_y + 16
}

/// A terrain-sized surface whose cells outside one tile are those of `before`.
pub open spec fn changed_in_tile(
    after: &Grid<u8>,
    before: &Grid<u8>,
    base_x: int,
    base_y: int,
) -> bool {
    &&& after.wf()
    &&& after.cols() == before.cols()
    &&& after.rows() == before.rows()
    &&& forall|x: int, y: int|
        !in_tile(x, y, base_x, base_y) ==> #[trigger] after.cell(x, y) == before.cell(x, y)
}

/// A surface on which tiles can be placed at `(base_x, base_y)`.
pub open spec fn tile_on(grid: &Grid<u8>, base_x: int, base_y: int) -> bool {
    &&& grid.wf()
    &&& grid.cols() == 1024
    &&& grid.rows() == 1024
    &&& 0 <= base_x <= 1008
    &&& 0 <= base_y <= 1008
}

fn read_byte(input: &[u8], pos: usize) -> (r: Result<u8, LoadError>)
    ensures
        r == byte_at(input@, pos as int),
{
    if pos < input.len() {
        Ok(input[pos])
    } else {
        Err(LoadError::UnexpectedEof)
    }
}

fn read_class(input: &[u8], pos: usize) -> (r: Result<TileRange, LoadError>)
    ensures
        r == class_at(input@, pos as int),
        r matches Ok(range) ==> range.wf(),
{
    match read_byte(input, pos) {
        Err(e) => Err(e),
        Ok(encoded) => if TileRange::is_valid_class(encoded) {
            Ok(TileRange::decode(encoded))
        } else {
            Err(LoadError::InvalidData)
        },
    }
}

/// Gives every cell of one tile a terrain index drawn from `range`.
fn fill_tile(grid: &mut Grid<u8>, base_x: i16, base_y: i16, range: TileRange, rng: &mut StdRng)
    requires
        tile_on(old(grid), base_x as int, base_y as int),
        range.wf(),
    ensures
        changed_in_tile(final(grid), old(grid), base_x as int, base_y as int),
        forall|x: int, y: int|
            in_tile(x, y, base_x as int, base_y as int) ==> range.admits(
                #[trigger] final(grid).cell(x, y),
            ),
{
    let mut dx: i16 = 0;
    while dx < 16
        invariant
            0 <= dx <= 16,
            tile_on(grid, base_x as int, base_y as int),
            range.wf(),
            changed_in_tile(grid, old(grid), base_x as int, base_y as int),
            forall|x: int, y: int|
                in_tile(x, y, base_x as int, base_y as int) && x < base_x + dx ==> range.admits(
                    #[trigger] grid.cell(x, y),
                ),
        decreases 16 - dx,
    {
        let mut dy: i16 = 0;
        while dy < 16
            invariant
                0 <= dx < 16,
                0 <= dy <= 16,
                tile_on(grid, base_x as int, base_y as int),
                range.wf(),
                changed_in_tile(grid, old(grid), base_x as int, base_y as int),
                forall|x: int, y: int|
                    in_tile(x, y, base_x as int, base_y as int) && (x < base_x + dx || (x
                        == base_x + dx && y < base_y + dy)) ==> range.admits(
                        #[trigger] grid.cell(x, y),
                    ),
            decreases 16 - dy,
        {
            let value: u8 = range.sample_tile(rng);
            grid.set(Coord { x: base_x + dx, y: base_y + dy }, value);
            dy = dy + 1;
        }
        dx = dx + 1;
    }
}

/// Copies 256 literal bytes from `pos` on into one tile, column by column.
fn fill_raw(input: &[u8], pos: usize, grid: &mut Grid<u8>, base_x: i16, base_y: i16) -> (r: Result<
    usize,
    LoadError,
>)
    requires
        tile_on(old(grid), base_x as int, base_y as int),
    ensures
        changed_in_tile(final(grid), old(grid), base_x as int, base_y as int),
        pos + 256 <= input.len() ==> (r matches Ok(next) && next == pos + 256),
        pos + 256 > input.len() ==> (r matches Err(e) && e == LoadError::UnexpectedEof),
        r is Ok ==> forall|x: int, y: int|
            in_tile(x, y, base_x as int, base_y as int) ==> #[trigger] final(grid).cell(x, y)
                == input[pos + (x - base_x) * 16 + (y - base_y)],
{
    if input.len() < 256 || pos > input.len() - 256 {
        return Err(LoadError::UnexpectedEof);
    }
    let mut dx: i16 = 0;
    while dx < 16
        invariant
            0 <= dx <= 16,
            pos + 256 <= input.len(),
            tile_on(grid, base_x as int, base_y as int),
            changed_in_tile(grid, old(grid), base_x as int, base_y as int),
            forall|x: int, y: int|
                in_tile(x, y, base_x as int, base_y as int) && x < base_x + dx
                    ==> #[trigger] grid.cell(x, y) == input[pos + (x - base_x) * 16 + (y
                    - base_y)],
        decreases 16 - dx,
    {
        let mut dy: i16 = 0;
        while dy < 16
            invariant
                0 <= dx < 16,
                0 <= dy <= 16,
                pos + 256 <= input.len(),
                tile_on(grid, base_x as int, base_y as int),
                changed_in_tile(grid, old(grid), base_x as int, base_y as int),
                forall|x: int, y: int|
                    in_tile(x, y, base_x as int, base_y as int) && (x < base_x + dx || (x
                        == base_x + dx && y < base_y + dy)) ==> #[trigger] grid.cell(x, y)
                        == input[pos + (x - base_x) * 16 + (y - base_y)],
            decreases 16 - dy,
        {
            let value: u8 = input[pos + (dx as usize) * 16 + dy as usize];
            grid.set(Coord { x: base_x + dx, y: base_y + dy }, value);
            dy = dy + 1;
        }
        dx = dx + 1;
    }
    Ok(pos + 256)
}

/// Column offset of the cell that a run-length block fills at step `cursor`.
pub open spec fn cursor_dx(cursor: int, by_rows: bool) -> int {
    if by_rows {
        cursor % 16
    } else {
        cursor / 16
    }
}

/// Row offset of the cell that a run-length block fills at step `cursor`.
pub open spec fn cursor_dy(cursor: int, by_rows: bool) -> int {
    if by_rows {
        cursor / 16
    } else {
        cursor % 16
    }
}

/// Reads the runs of one tile from `pos` on and fills the tile with them. The
/// fill cursor moves down a column and then to the next column, or, with
/// `by_rows`, along a row and then to the next row.
fn fill_runs(
    input: &[u8],
    pos: usize,
    grid: &mut Grid<u8>,
    base_x: i16,
    base_y: i16,
    by_rows: bool,
    rng: &mut StdRng,
) -> (r: Result<usize, LoadError>)
    requires
        tile_on(old(grid), base_x as int, base_y as int),
    ensures
        changed_in_tile(final(grid), old(grid), base_x as int, base_y as int),
        match parse_runs(input@, pos as int, Seq::empty()) {
            Err(e) => r matches Err(f) && f == e,
            Ok((runs, end)) => {
                &&& r matches Ok(next)
                &&& next == end
                &&& end <= input.len()
                &&& runs.len() == 256
                &&& forall|c: int|
                    0 <= c < 256 ==> (#[trigger] runs[c]).admits(
                        final(grid).cell(
                            base_x + cursor_dx(c, by_rows),
                            base_y + cursor_dy(c, by_rows),
                        ),
                    )
            },
        },
{
    let mut at: usize = pos;
    let mut filled: u16 = 0;
    let ghost mut ranges: Seq<TileRange> = Seq::empty();
    while filled < 256
        invariant
            filled <= 256,
            ranges.len() == filled,
            at == pos || at <= input.len(),
            tile_on(grid, base_x as int, base_y as int),
            changed_in_tile(grid, old(grid), base_x as int, base_y as int),
            parse_runs(input@, pos as int, Seq::empty()) == parse_runs(input@, at as int, ranges),
            forall|c: int|
                0 <= c < filled ==> (#[trigger] ranges[c]).admits(
                    grid.cell(base_x + cursor_dx(c, by_rows), base_y + cursor_dy(c, by_rows)),
                ),
        decreases input.len() - at, 256 - filled,
    {
        let range = match read_class(input, at) {
            Ok(range) => range,
            Err(e) => {
                return Err(e);
            },
        };
        if at + 1 >= input.len() {
            return Err(LoadError::UnexpectedEof);
        }
        let count: u8 = input[at + 1];
        let length: u16 = if count as u16 <= 256 - filled {
            count as u16
        } else {
            256 - filled
        };
        let ghost before: Seq<TileRange> = ranges;
        let mut k: u16 = 0;
        while k < length
            invariant
                k <= length,
                filled + length <= 256,
                range.wf(),
                ranges == before + run_of(range, k as int),
                before.len() == filled,
                tile_on(grid, base_x as int, base_y as int),
                changed_in_tile(grid, old(grid), base_x as int, base_y as int),
                forall|c: int|
                    0 <= c < filled + k ==> (#[trigger] ranges[c]).admits(
                        grid.cell(base_x + cursor_dx(c, by_rows), base_y + cursor_dy(c, by_rows)),
                    ),
            decreases length - k,
        {
            let cursor: u16 = filled + k;
            let dx: i16 = if by_rows {
                (cursor % 16) as i16
            } else {
                (cursor / 16) as i16
            };
            let dy: i16 = if by_rows {
                (cursor / 16) as i16
            } else {
                (cursor % 16) as i16
            };
            let value: u8 = range.sample_tile(rng);
            let ghost earlier = *grid;
            grid.set(Coord { x: base_x + dx, y: base_y + dy }, value);
            proof {
                let grown = before + run_of(range, k as int + 1);
                assert(grown =~= ranges.push(range));
                assert forall|c: int| 0 <= c < filled + k + 1 implies (#[trigger] grown[c]).admits(
                    grid.cell(base_x + cursor_dx(c, by_rows), base_y + cursor_dy(c, by_rows)),
                ) by {
                    if c < filled + k {
                        assert(grown[c] == ranges[c]);
                        assert(cursor_dx(c, by_rows) != dx || cursor_dy(c, by_rows) != dy);
                        assert(grid.cell(
                            base_x + cursor_dx(c, by_rows),
                            base_y + cursor_dy(c, by_rows),
                        ) == earlier.cell(
                            base_x + cursor_dx(c, by_rows),
                            base_y + cursor_dy(c, by_rows),
                        ));
                    }
                }
                ranges = grown;
            }
            k = k + 1;
        }
        assert(ranges == before + run_of(range, run_length(count, filled as int)));
        filled = filled + length;
        at = at + 2;
    }
    Ok(at)
}

/// Every cell of the tile at `(base_x, base_y)` shows an index that `plan` admits.
pub open spec fn tile_follows(grid: &Grid<u8>, base_x: int, base_y: int, plan: Seq<TileRange>) -> bool {
    forall|x: int, y: int|
        in_tile(x, y, base_x, base_y) ==> plan[(x - base_x) * 16 + (y - base_y)].admits(
            #[trigger] grid.cell(x, y),
        )
}

proof fn lemma_uniform_tile(grid: &Grid<u8>, base_x: int, base_y: int, range: TileRange)
    requires
        forall|x: int, y: int|
            in_tile(x, y, base_x, base_y) ==> range.admits(#[trigger] grid.cell(x, y)),
    ensures
        tile_follows(grid, base_x, base_y, uniform_plan(range)),
        uniform_plan(range).len() == 256,
{
    assert forall|x: int, y: int| in_tile(x, y, base_x, base_y) implies uniform_plan(
        range,
    )[(x - base_x) * 16 + (y - base_y)].admits(#[trigger] grid.cell(x, y)) by {
        let i = (x - base_x) * 16 + (y - base_y);
        assert(0 <= i < 256);
        assert(uniform_plan(range)[i] == range);
    }
}

spec fn tile_decoded(
    bytes: Seq<u8>,
    pos: int,
    r: Result<(usize, Carry), LoadError>,
    grid: &Grid<u8>,
    base_x: int,
    base_y: int,
) -> bool {
    match parse_tile(bytes, pos) {
        Err(e) => r matches Err(f) && f == e,
        Ok(step) => {
            &&& r matches Ok((next, carry))
            &&& next == step.next
            &&& next <= bytes.len()
            &&& carry.class == step.carry_class
            &&& carry.left == step.carry_left
            &&& step.plan.len() == 256
            &&& tile_follows(grid, base_x, base_y, step.plan)
        },
    }
}

/// The carry that a block leaves for the tiles after it.
struct Carry {
    class: u8,
    left: u8,
}

/// Reads the block at `pos` and fills the tile at `(base_x, base_y)` from it.
fn decode_tile(
    input: &[u8],
    pos: usize,
    grid: &mut Grid<u8>,
    base_x: i16,
    base_y: i16,
    rng: &mut StdRng,
) -> (r: Result<(usize, Carry), LoadError>)
    requires
        tile_on(old(grid), base_x as int, base_y as int),
    ensures
        changed_in_tile(final(grid), old(grid), base_x as int, base_y as int),
        tile_decoded(input@, pos as int, r, final(grid), base_x as int, base_y as int),
{
    if pos >= input.len() {
        return Err(LoadError::UnexpectedEof);
    }
    let mode: u8 = input[pos];
    let none = Carry { class: 0, left: 0 };
    if mode == 1 {
        match fill_raw(input, pos + 1, grid, base_x, base_y) {
            Ok(next) => {
                proof {
                    let plan = parse_tile(input@, pos as int)->Ok_0.plan;
                    assert forall|x: int, y: int|
                        in_tile(x, y, base_x as int, base_y as int) implies plan[(x - base_x)
                        * 16 + (y - base_y)].admits(#[trigger] grid.cell(x, y)) by {
                        let i = (x - base_x) * 16 + (y - base_y);
                        assert(plan[i] == TileRange::exactly(input[pos + 1 + i]));
                    }
                }
                Ok((next, none))
            },
            Err(e) => Err(e),
        }
    } else if mode == 2 {
        match read_class(input, pos + 1) {
            Ok(range) => {
                fill_tile(grid, base_x, base_y, range, rng);
                proof {
                    lemma_uniform_tile(grid, base_x as int, base_y as int, range);
                }
                Ok((pos + 2, none))
            },
            Err(e) => Err(e),
        }
    } else if mode == 3 {
        match fill_runs(input, pos + 1, grid, base_x, base_y, false, rng) {
            Ok(next) => {
                proof {
                    let runs = parse_runs(input@, pos + 1, Seq::empty())->Ok_0.0;
                    assert forall|x: int, y: int|
                        in_tile(x, y, base_x as int, base_y as int) implies runs[(x - base_x)
                        * 16 + (y - base_y)].admits(#[trigger] grid.cell(x, y)) by {
                        let c = (x - base_x) * 16 + (y - base_y);
                        assert(cursor_dx(c, false) == x - base_x);
                        assert(cursor_dy(c, false) == y - base_y);
                        assert(runs[c].admits(
                            grid.cell(base_x + cursor_dx(c, false), base_y + cursor_dy(c, false)),
                        ));
                    }
                }
                Ok((next, none))
            },
            Err(e) => Err(e),
        }
    } else if mode == 4 {
        match fill_runs(input, pos + 1, grid, base_x, base_y, true, rng) {
            Ok(next) => {
                proof {
                    let runs = parse_runs(input@, pos + 1, Seq::empty())->Ok_0.0;
                    let plan = Seq::new(256, |i: int| runs[(i % 16) * 16 + i / 16]);
                    assert forall|x: int, y: int|
                        in_tile(x, y, base_x as int, base_y as int) implies plan[(x - base_x)
                        * 16 + (y - base_y)].admits(#[trigger] grid.cell(x, y)) by {
                        let c = (y - base_y) * 16 + (x - base_x);
                        let i = (x - base_x) * 16 + (y - base_y);
                        assert(i % 16 == y - base_y && i / 16 == x - base_x);
                        assert(plan[i] == runs[c]);
                        assert(cursor_dx(c, true) == x - base_x);
                        assert(cursor_dy(c, true) == y - base_y);
                        assert(runs[c].admits(
                            grid.cell(base_x + cursor_dx(c, true), base_y + cursor_dy(c, true)),
                        ));
                    }
                }
                Ok((next, none))
            },
            Err(e) => Err(e),
        }
    } else if mode == 5 {
        if input.len() < 3 || pos > input.len() - 3 {
            return Err(LoadError::UnexpectedEof);
        }
        match read_class(input, pos + 1) {
            Ok(range) => {
                let count: u8 = input[pos + 2];
                fill_tile(grid, base_x, base_y, range, rng);
                proof {
                    lemma_uniform_tile(grid, base_x as int, base_y as int, range);
                }
                let left: u8 = if count > 1 {
                    count - 1
                } else {
                    0
                };
                Ok((pos + 3, Carry { class: input[pos + 1], left }))
            },
            Err(e) => Err(e),
        }
    } else {
        Err(LoadError::InvalidData)
    }
}

/// Decodes the tile blocks at the start of `input` into a terrain of 1024 by
/// 1024 cells and says where the blocks end. Cells of a class get an index of
/// that class drawn from `rng`, each cell on its own.
pub fn decode_terrain(input: &[u8], rng: &mut StdRng) -> (r: Result<(TerrainGrid, usize), LoadError>)
    ensures
        match terrain_layout(input@) {
            Err(e) => r matches Err(f) && f == e,
            Ok((tiles, end)) => {
                &&& r matches Ok((grid, next))
                &&& next == end
                &&& next <= input.len()
                &&& grid.wf()
                &&& grid.cols() == 1024
                &&& grid.rows() == 1024
                &&& forall|x: int, y: int|
                    0 <= x < 1024 && 0 <= y < 1024 ==> range_at(tiles, x, y).admits(
                        #[trigger] grid.cell(x, y),
                    )
            },
        },
{
    let mut grid: Grid<u8> = Grid::new(1024, 1024, 0);
    let mut pos: usize = 0;
    let mut carry = Carry { class: 0, left: 0 };
    let ghost mut done: Seq<Seq<TileRange>> = Seq::empty();
    let mut tile_x: i16 = 0;
    while tile_x < 64
        invariant
            0 <= tile_x <= 64,
            pos <= input.len(),
            grid.wf(),
            grid.cols() == 1024,
            grid.rows() == 1024,
            done.len() == tile_x * 64,
            carry.left > 0 ==> TileRange::is_class(carry.class),
            terrain_layout(input@) == parse_tiles(
                input@,
                tile_x * 64,
                pos as int,
                carry.class,
                carry.left as int,
                done,
            ),
            forall|x: int, y: int|
                0 <= x < tile_x * 16 && 0 <= y < 1024 ==> range_at(done, x, y).admits(
                    #[trigger] grid.cell(x, y),
                ),
        decreases 64 - tile_x,
    {
        let base_x: i16 = tile_x * 16;
        let mut tile_y: i16 = 0;
        while tile_y < 64
            invariant
                0 <= tile_x < 64,
                0 <= tile_y <= 64,
                base_x == tile_x * 16,
                pos <= input.len(),
                grid.wf(),
                grid.cols() == 1024,
                grid.rows() == 1024,
                done.len() == tile_x * 64 + tile_y,
                carry.left > 0 ==> TileRange::is_class(carry.class),
                terrain_layout(input@) == parse_tiles(
                    input@,
                    tile_x * 64 + tile_y,
                    pos as int,
                    carry.class,
                    carry.left as int,
                    done,
                ),
                forall|x: int, y: int|
                    0 <= x < 1024 && 0 <= y < 1024 && (x < base_x || (x < base_x + 16 && y
                        < tile_y * 16)) ==> range_at(done, x, y).admits(
                        #[trigger] grid.cell(x, y),
                    ),
            decreases 64 - tile_y,
        {
            let base_y: i16 = tile_y * 16;
            let ghost before = grid;
            let ghost start = pos;
            let ghost plan: Seq<TileRange>;
            if carry.left > 0 {
                let range = TileRange::decode(carry.class);
                fill_tile(&mut grid, base_x, base_y, range, rng);
                carry.left = carry.left - 1;
                proof {
                    plan = uniform_plan(range);
                    lemma_uniform_tile(&grid, base_x as int, base_y as int, range);
                }
            } else {
                match decode_tile(input, pos, &mut grid, base_x, base_y, rng) {
                    Ok((next, left)) => {
                        pos = next;
                        carry = left;
                        proof {
                            plan = parse_tile(input@, start as int)->Ok_0.plan;
                        }
                    },
                    Err(e) => {
                        return Err(e);
                    },
                }
            }
            proof {
                let grown = done.push(plan);
                assert forall|x: int, y: int|
                    0 <= x < 1024 && 0 <= y < 1024 && (x < base_x || (x < base_x + 16 && y
                        < tile_y * 16 + 16)) implies range_at(grown, x, y).admits(
                    #[trigger] grid.cell(x, y),
                ) by {
                    if in_tile(x, y, base_x as int, base_y as int) {
                        assert((x / 16) * 64 + y / 16 == tile_x * 64 + tile_y);
                        assert(x % 16 == x - base_x && y % 16 == y - base_y);
                    } else {
                        assert((x / 16) * 64 + y / 16 < tile_x * 64 + tile_y);
                        assert(grid.cell(x, y) == before.cell(x, y));
                        assert(range_at(grown, x, y) == range_at(done, x, y));
                    }
                }
                done = grown;
            }
            tile_y = tile_y + 1;
        }
        tile_x = tile_x + 1;
    }
    Ok((grid, pos))
}

/// Decodes the terrain at the start of `input`.
///
/// Fails with [`LoadError::UnexpectedEof`] where the stream ends inside a tile
/// block, and with [`LoadError::InvalidData`] at a mode byte other than 1 to 5
/// or a class byte that names no class; succeeds on every other stream.
pub fn load(input: &[u8], rng: &mut StdRng) -> (r: Result<TerrainGrid, LoadError>)
    ensures
        match terrain_layout(input@) {
            Err(e) => r matches Err(f) && f == e,
            Ok((tiles, end)) => {
                &&& r matches Ok(grid)
                &&& grid.wf()
                &&& grid.cols() == 1024
                &&& grid.rows() == 1024
                &&& forall|x: int, y: int|
                    0 <= x < 1024 && 0 <= y < 1024 ==> range_at(tiles, x, y).admits(
                        #[trigger] grid.cell(x, y),
                    )
            },
        },
{
    match decode_terrain(input, rng) {
        Ok((grid, _)) => Ok(grid),
        Err(e) => Err(e),
    }
}

/// The stream that stores a terrain with every tile in raw mode: for each
/// tile in the order of the stream a byte 1 and then the tile's 256 cells,
/// column by column.
pub open spec fn raw_encoding(cells: spec_fn(int, int) -> u8) -> Seq<u8> {
    Seq::new(
        4096 * 257,
        |i: int|
            if i % 257 == 0 {
                1u8
            } else {
                cells(
                    (i / 257 / 64) * 16 + (i % 257 - 1) / 16,
                    (i / 257 % 64) * 16 + (i % 257 - 1) % 16,
                )
            },
    )
}

/// The plan of tile number `tile` of a terrain stored raw: every cell may
/// show its own index and no other.
pub open spec fn raw_plan(cells: spec_fn(int, int) -> u8, tile: int) -> Seq<TileRange> {
    Seq::new(
        256,
        |i: int| TileRange::exactly(cells((tile / 64) * 16 + i / 16, (tile % 64) * 16 + i % 16)),
    )
}

proof fn lemma_raw_tiles(
    bytes: Seq<u8>,
    cells: spec_fn(int, int) -> u8,
    tile: int,
    done: Seq<Seq<TileRange>>,
)
    requires
        0 <= tile <= 4096,
        done.len() == tile,
        bytes.len() >= 4096 * 257,
        forall|i: int| 0 <= i < 4096 * 257 ==> bytes[i] == raw_encoding(cells)[i],
        forall|k: int| 0 <= k < tile ==> done[k] == raw_plan(cells, k),
    ensures
        parse_tiles(bytes, tile, tile * 257, 0, 0, done) matches Ok((tiles, end)) && end == 4096
            * 257 && tiles.len() == 4096 && forall|k: int|
            0 <= k < 4096 ==> tiles[k] == raw_plan(cells, k),
    decreases 4096 - tile,
{
    if tile < 4096 {
        let pos = tile * 257;
        vstd::arithmetic::div_mod::lemma_fundamental_div_mod_converse(pos, 257, tile, 0);
        assert(bytes[pos] == raw_encoding(cells)[pos]);
        assert(bytes[pos] == 1);
        let step = parse_tile(bytes, pos)->Ok_0;
        assert(parse_tile(bytes, pos) is Ok);
        assert(step.plan =~= raw_plan(cells, tile)) by {
            assert forall|i: int| 0 <= i < 256 implies step.plan[i] == raw_plan(cells, tile)[i] by {
                let j = pos + 1 + i;
                vstd::arithmetic::div_mod::lemma_fundamental_div_mod_converse(j, 257, tile, 1 + i);
                assert(bytes[j] == raw_encoding(cells)[j]);
            }
        }
        let grown = done.push(step.plan);
        assert(step.next == (tile + 1) * 257);
        lemma_raw_tiles(bytes, cells, tile + 1, grown);
    }
}

/// A terrain stored with every tile in raw mode is read back cell for cell,
/// whatever follows the tiles in the stream: the stream is accepted, its tile
/// blocks end after 4096 times 257 bytes, and each cell may show the stored
/// index and no other.
pub proof fn lemma_raw_round_trip(cells: spec_fn(int, int) -> u8, rest: Seq<u8>)
    ensures
        terrain_layout(raw_encoding(cells) + rest) matches Ok((tiles, end)) && end == 4096 * 257
            && forall|x: int, y: int|
            0 <= x < 1024 && 0 <= y < 1024 ==> #[trigger] range_at(tiles, x, y)
                == TileRange::exactly(cells(x, y)),
        forall|x: int, y: int, value: u8|
            0 <= x < 1024 && 0 <= y < 1024 && #[trigger] range_at(
                terrain_layout(raw_encoding(cells) + rest)->Ok_0.0,
                x,
                y,
            ).admits(value) ==> value == cells(x, y),
{
    let bytes = raw_encoding(cells) + rest;
    lemma_raw_tiles(bytes, cells, 0, Seq::empty());
    let tiles = terrain_layout(bytes)->Ok_0.0;
    assert forall|x: int, y: int| 0 <= x < 1024 && 0 <= y < 1024 implies #[trigger] range_at(
        tiles,
        x,
        y,
    ) == TileRange::exactly(cells(x, y)) by {
        let k = (x / 16) * 64 + y / 16;
        let i = (x % 16) * 16 + y % 16;
        vstd::arithmetic::div_mod::lemma_fundamental_div_mod_converse(k, 64, x / 16, y / 16);
        vstd::arithmetic::div_mod::lemma_fundamental_div_mod_converse(i, 16, x % 16, y % 16);
        assert(tiles[k] == raw_plan(cells, k));
        assert(raw_plan(cells, k)[i] == TileRange::exactly(
            cells((k / 64) * 16 + i / 16, (k % 64) * 16 + i % 16),
        ));
    }
}

} // verus!
