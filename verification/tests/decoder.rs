use glob1rs::grid::{Coord, Grid2D};
use glob1rs::map::{LoadError, TileRange};
use glob1rs::stored_map::TerrainTileRange;
use rand::rngs::StdRng;
use rand::SeedableRng;

fn rng(seed: u64) -> StdRng {
    StdRng::seed_from_u64(seed)
}

fn known_cell(x: usize, y: usize) -> u8 {
    ((x * 7 + y * 13 + (x / 16) * 31 + (y / 16) * 5) % 256) as u8
}

/// Every tile in raw mode, tile columns one after the other.
fn encode_raw(cell: fn(usize, usize) -> u8) -> Vec<u8> {
    let mut bytes = Vec::new();
    for tile_x in 0..64 {
        for tile_y in 0..64 {
            bytes.push(1);
            for dx in 0..16 {
                for dy in 0..16 {
                    bytes.push(cell(tile_x * 16 + dx, tile_y * 16 + dy));
                }
            }
        }
    }
    bytes
}

/// Every tile of one class.
fn encode_constant(class: u8) -> Vec<u8> {
    let mut bytes = Vec::new();
    for _ in 0..4096 {
        bytes.push(2);
        bytes.push(class);
    }
    bytes
}

fn word(bytes: &mut Vec<u8>, value: u16) {
    bytes.push((value >> 8) as u8);
    bytes.push((value & 0xff) as u8);
}

fn trailer(queens: [(u16, u16); 8], view: (u16, u16)) -> Vec<u8> {
    let mut bytes = Vec::new();
    for (x, y) in queens {
        word(&mut bytes, x);
        word(&mut bytes, y);
    }
    word(&mut bytes, view.0);
    word(&mut bytes, view.1);
    bytes
}

const UNUSED: (u16, u16) = (0xffff, 0xffff);

fn plain_trailer() -> Vec<u8> {
    trailer([UNUSED; 8], (512, 512))
}

#[test]
fn raw_terrain_round_trips() {
    let bytes = encode_raw(known_cell);
    assert_eq!(bytes.len(), 4096 * 257);
    let grid = glob1rs::map::load(&bytes, &mut rng(1)).unwrap();
    assert_eq!(grid.width(), 1024);
    assert_eq!(grid.height(), 1024);
    for x in 0..1024usize {
        for y in 0..1024usize {
            assert_eq!(grid.get(Coord::new(x as i16, y as i16)), known_cell(x, y));
        }
    }
}

#[test]
fn raw_stored_map_round_trips() {
    let mut bytes = encode_raw(known_cell);
    let mut queens = [UNUSED; 8];
    queens[0] = (3, 4);
    queens[5] = (1000, 20);
    bytes.extend(trailer(queens, (100, 200)));
    let stored = glob1rs::stored_map::load(&bytes, &mut rng(2)).unwrap();
    for x in (0..1024usize).step_by(3) {
        for y in (0..1024usize).step_by(5) {
            assert_eq!(stored.terrain.0.get(Coord::new(x as i16, y as i16)), known_cell(x, y));
        }
    }
    assert_eq!(stored.queen_positions, vec![Coord::new(3, 4), Coord::new(1000, 20)]);
    assert_eq!(stored.view_position, Coord::new(100, 200));
}

#[test]
fn bytes_after_the_trailer_are_ignored() {
    let mut bytes = encode_constant(0);
    bytes.extend(plain_trailer());
    bytes.extend([9, 9, 9]);
    let stored = glob1rs::stored_map::load(&bytes, &mut rng(3)).unwrap();
    assert!(stored.queen_positions.is_empty());
    assert_eq!(stored.view_position, Coord::new(512, 512));
}

#[test]
fn tile_classes_decode_to_their_ranges() {
    let first = TileRange::decode(0);
    assert_eq!((first.base, first.span), (0, 4));
    let last_small = TileRange::decode(30);
    assert_eq!((last_small.base, last_small.span), (120, 4));
    let first_large = TileRange::decode(31);
    assert_eq!((first_large.base, first_large.span), (124, 10));
    let last = TerrainTileRange::decode(43);
    assert_eq!((last.base, last.span), (244, 10));
    for encoded in 0..=43u8 {
        assert!(TileRange::is_valid_class(encoded));
        let range = TileRange::decode(encoded);
        assert!(range.base as u32 + range.span as u32 <= 256);
        assert!(range.span == 4 || range.span == 10);
    }
    for encoded in 44..=255u8 {
        assert!(!TileRange::is_valid_class(encoded));
    }
}

#[test]
fn samples_stay_in_their_range() {
    let range = TileRange::decode(31);
    let mut generator = rng(4);
    let mut seen = [false; 10];
    for _ in 0..1000 {
        let value = range.sample_tile(&mut generator);
        assert!((124..134).contains(&value));
        seen[(value - 124) as usize] = true;
    }
    assert!(seen.iter().all(|&s| s));
    assert_eq!(range.nth(0), 124);
    assert_eq!(range.nth(9), 133);
}

#[test]
fn constant_tiles_sample_each_cell_on_its_own() {
    let bytes = encode_constant(5);
    let grid = glob1rs::map::load(&bytes, &mut rng(5)).unwrap();
    let mut seen = [false; 4];
    for x in 0..1024 {
        for y in 0..1024 {
            let value = grid.get(Coord::new(x, y));
            assert!((20..24).contains(&value));
            seen[(value - 20) as usize] = true;
        }
    }
    assert!(seen.iter().all(|&s| s));
    let mut first_tile = Vec::new();
    for x in 0..16 {
        for y in 0..16 {
            first_tile.push(grid.get(Coord::new(x, y)));
        }
    }
    assert!(first_tile.iter().any(|&v| v != first_tile[0]));
}

#[test]
fn decoding_is_fixed_by_the_seed() {
    let bytes = encode_constant(40);
    let one = glob1rs::map::load(&bytes, &mut rng(6)).unwrap();
    let two = glob1rs::map::load(&bytes, &mut rng(6)).unwrap();
    let other = glob1rs::map::load(&bytes, &mut rng(7)).unwrap();
    let mut differs = false;
    for x in 0..1024 {
        for y in 0..1024 {
            let position = Coord::new(x, y);
            assert_eq!(one.get(position), two.get(position));
            differs = differs || one.get(position) != other.get(position);
        }
    }
    assert!(differs);
}

/// The stream with one special first block and raw zero tiles after it.
fn with_first_block(block: &[u8], covered: usize) -> Vec<u8> {
    let mut bytes = block.to_vec();
    for _ in covered..4096 {
        bytes.push(1);
        bytes.extend([0u8; 256]);
    }
    bytes
}

#[test]
fn runs_fill_down_the_columns_in_mode_three() {
    // 20 cells of class 0, then 236 cells of class 31
    let bytes = with_first_block(&[3, 0, 20, 31, 236], 1);
    let grid = glob1rs::map::load(&bytes, &mut rng(8)).unwrap();
    for i in 0..256i16 {
        let value = grid.get(Coord::new(i / 16, i % 16));
        if i < 20 {
            assert!(value < 4, "cell {i} holds {value}");
        } else {
            assert!((124..134).contains(&value), "cell {i} holds {value}");
        }
    }
    assert_eq!(grid.get(Coord::new(0, 16)), 0);
    assert_eq!(grid.get(Coord::new(16, 0)), 0);
}

#[test]
fn runs_fill_along_the_rows_in_mode_four() {
    let bytes = with_first_block(&[4, 0, 20, 31, 236], 1);
    let grid = glob1rs::map::load(&bytes, &mut rng(9)).unwrap();
    for i in 0..256i16 {
        let value = grid.get(Coord::new(i % 16, i / 16));
        if i < 20 {
            assert!(value < 4, "cell {i} holds {value}");
        } else {
            assert!((124..134).contains(&value), "cell {i} holds {value}");
        }
    }
    assert_eq!(grid.get(Coord::new(0, 16)), 0);
    assert_eq!(grid.get(Coord::new(16, 0)), 0);
}

#[test]
fn runs_may_be_empty_and_end_with_the_tile() {
    // an empty run, a run of 255, and a run of 255 of which one cell is left
    let bytes = with_first_block(&[3, 7, 0, 1, 255, 43, 255], 1);
    let grid = glob1rs::map::load(&bytes, &mut rng(10)).unwrap();
    for i in 0..255i16 {
        assert!((4..8).contains(&grid.get(Coord::new(i / 16, i % 16))));
    }
    assert!(grid.get(Coord::new(15, 15)) >= 244);
    // the next tile of the stream is untouched by the long run
    assert_eq!(grid.get(Coord::new(0, 16)), 0);
    assert_eq!(grid.get(Coord::new(16, 0)), 0);
}

#[test]
fn multi_tile_blocks_cover_the_following_tiles() {
    // three tiles of class 10 (indices 40 to 43): tiles (0,0), (0,1), (0,2)
    let bytes = with_first_block(&[5, 10, 3], 3);
    let grid = glob1rs::map::load(&bytes, &mut rng(11)).unwrap();
    for x in 0..16 {
        for y in 0..48 {
            assert!((40..44).contains(&grid.get(Coord::new(x, y))));
        }
        assert_eq!(grid.get(Coord::new(x, 48)), 0);
    }
    assert_eq!(grid.get(Coord::new(16, 0)), 0);
    // counts 0 and 1 cover the tile of the block alone
    for count in [0u8, 1] {
        let bytes = with_first_block(&[5, 10, count], 1);
        let grid = glob1rs::map::load(&bytes, &mut rng(12)).unwrap();
        assert!((40..44).contains(&grid.get(Coord::new(15, 15))));
        assert_eq!(grid.get(Coord::new(0, 16)), 0);
    }
}

#[test]
fn multi_tile_blocks_run_on_into_the_next_tile_column() {
    // 66 tiles: the whole first tile column and two tiles of the second
    let bytes = with_first_block(&[5, 10, 66], 66);
    let grid = glob1rs::map::load(&bytes, &mut rng(13)).unwrap();
    assert!((40..44).contains(&grid.get(Coord::new(0, 1023))));
    assert!((40..44).contains(&grid.get(Coord::new(16, 0))));
    assert!((40..44).contains(&grid.get(Coord::new(31, 31))));
    assert_eq!(grid.get(Coord::new(16, 32)), 0);
    assert_eq!(grid.get(Coord::new(32, 0)), 0);
}

#[test]
fn a_multi_tile_block_may_outlast_the_map() {
    let mut bytes = Vec::new();
    for _ in 0..4095 {
        bytes.push(2);
        bytes.push(0);
    }
    bytes.extend([5, 10, 200]);
    bytes.extend(plain_trailer());
    let stored = glob1rs::stored_map::load(&bytes, &mut rng(14)).unwrap();
    assert!((40..44).contains(&stored.terrain.0.get(Coord::new(1023, 1023))));
    assert_eq!(stored.view_position, Coord::new(512, 512));
}

#[test]
fn truncated_streams_fail_with_end_of_data() {
    assert_eq!(glob1rs::map::load(&[], &mut rng(15)).unwrap_err(), LoadError::UnexpectedEof);
    assert_eq!(glob1rs::map::load(&[1, 2, 3], &mut rng(15)).unwrap_err(), LoadError::UnexpectedEof);
    assert_eq!(glob1rs::map::load(&[2], &mut rng(15)).unwrap_err(), LoadError::UnexpectedEof);
    assert_eq!(glob1rs::map::load(&[3, 0], &mut rng(15)).unwrap_err(), LoadError::UnexpectedEof);
    assert_eq!(glob1rs::map::load(&[3, 0, 255], &mut rng(15)).unwrap_err(), LoadError::UnexpectedEof);
    assert_eq!(glob1rs::map::load(&[4, 0, 255, 0], &mut rng(15)).unwrap_err(), LoadError::UnexpectedEof);
    assert_eq!(glob1rs::map::load(&[5, 0], &mut rng(15)).unwrap_err(), LoadError::UnexpectedEof);
    assert_eq!(glob1rs::map::load(&[5, 99], &mut rng(15)).unwrap_err(), LoadError::UnexpectedEof);
    assert_eq!(glob1rs::map::load(&[5, 0, 4], &mut rng(15)).unwrap_err(), LoadError::UnexpectedEof);
    let mut bytes = encode_constant(0);
    bytes.pop();
    assert_eq!(glob1rs::map::load(&bytes, &mut rng(15)).unwrap_err(), LoadError::UnexpectedEof);
    let mut bytes = encode_constant(0);
    assert_eq!(glob1rs::stored_map::load(&bytes, &mut rng(15)).unwrap_err(), LoadError::UnexpectedEof);
    bytes.extend(plain_trailer());
    bytes.pop();
    assert_eq!(glob1rs::stored_map::load(&bytes, &mut rng(15)).unwrap_err(), LoadError::UnexpectedEof);
}

#[test]
fn unknown_modes_and_classes_fail_with_invalid_data() {
    assert_eq!(glob1rs::map::load(&[0], &mut rng(16)).unwrap_err(), LoadError::InvalidData);
    assert_eq!(glob1rs::map::load(&[6, 0, 0], &mut rng(16)).unwrap_err(), LoadError::InvalidData);
    assert_eq!(glob1rs::map::load(&[255], &mut rng(16)).unwrap_err(), LoadError::InvalidData);
    assert_eq!(glob1rs::map::load(&[2, 44], &mut rng(16)).unwrap_err(), LoadError::InvalidData);
    assert_eq!(glob1rs::map::load(&[3, 200, 1], &mut rng(16)).unwrap_err(), LoadError::InvalidData);
    assert_eq!(glob1rs::map::load(&[4, 44], &mut rng(16)).unwrap_err(), LoadError::InvalidData);
    assert_eq!(glob1rs::map::load(&[5, 44, 1], &mut rng(16)).unwrap_err(), LoadError::InvalidData);
    let mut bytes = with_first_block(&[2, 0], 1);
    let last = bytes.len() - 257;
    bytes[last] = 9;
    assert_eq!(glob1rs::map::load(&bytes, &mut rng(16)).unwrap_err(), LoadError::InvalidData);
}

#[test]
fn unused_start_positions_are_dropped() {
    let mut bytes = encode_constant(0);
    let queens = [
        UNUSED,
        (1, 2),
        (0xffff, 5),
        (5, 0xffff),
        (0, 0),
        UNUSED,
        (1023, 1023),
        (0xfffe, 0x8000),
    ];
    bytes.extend(trailer(queens, (7, 8)));
    let stored = glob1rs::stored_map::load(&bytes, &mut rng(17)).unwrap();
    assert_eq!(
        stored.queen_positions,
        vec![
            Coord::new(1, 2),
            Coord::new(0, 0),
            Coord::new(1023, 1023),
            Coord::new(-2, i16::MIN),
        ]
    );
    assert_eq!(stored.view_position, Coord::new(7, 8));
}

#[test]
fn the_view_position_must_be_there() {
    let mut bytes = encode_constant(0);
    bytes.extend(trailer([UNUSED; 8], UNUSED));
    assert_eq!(glob1rs::stored_map::load(&bytes, &mut rng(18)).unwrap_err(), LoadError::InvalidData);
    let mut bytes = encode_constant(0);
    bytes.extend(trailer([UNUSED; 8], (3, 0xffff)));
    assert_eq!(glob1rs::stored_map::load(&bytes, &mut rng(18)).unwrap_err(), LoadError::InvalidData);
}

#[test]
fn coordinates_are_big_endian() {
    let mut bytes = encode_constant(0);
    let mut tail = vec![0xffu8; 32];
    tail.extend([0x01, 0x02, 0x03, 0x04]);
    bytes.extend(tail);
    let stored = glob1rs::stored_map::load(&bytes, &mut rng(19)).unwrap();
    assert_eq!(stored.view_position, Coord::new(0x0102, 0x0304));
}
