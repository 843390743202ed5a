use glob1rs::grid::{Coord, Grid, Grid2D};
use glob1rs::pheromone::{DiffusionProportion, Dispersion, PheromoneMap, ResourceType};

fn grid(rows: Vec<Vec<u16>>) -> Grid<u16> {
    Grid::from_rows(&rows).unwrap()
}

fn cell(map: &Grid<u16>, x: i16, y: i16) -> u16 {
    map.get(Coord::new(x, y))
}

fn row(map: &Grid<u16>, y: i16) -> Vec<u16> {
    (0..map.width()).map(|x| cell(map, x, y)).collect()
}

fn column(map: &Grid<u16>, x: i16) -> Vec<u16> {
    (0..map.height()).map(|y| cell(map, x, y)).collect()
}

fn spread(values: &[u16]) -> u16 {
    values.iter().max().unwrap() - values.iter().min().unwrap()
}

#[test]
fn diffuse_x() {
    // normal
    let mut map = grid(vec![vec![4, 8, 0]]);
    map.diffuse_x(512, |_| true);
    assert_eq!(row(&map, 0), [6, 2, 4]);
    map.diffuse_x(256, |_| true);
    assert_eq!(row(&map, 0), [5, 3, 4]);
    // with blocking on the side
    let mut map = grid(vec![vec![4, 4, 8, 0, 8]]);
    let passable = |coord: Coord| coord.x > 0 && coord.x < 4;
    map.diffuse_x(512, passable);
    assert_eq!(row(&map, 0), [4, 6, 2, 4, 8]);
    map.diffuse_x(256, passable);
    assert_eq!(row(&map, 0), [4, 5, 3, 4, 8]);
    // with blocking in the middle
    let mut map = grid(vec![vec![4, 8, 8, 0, 8]]);
    let passable = |coord: Coord| coord.x != 2;
    map.diffuse_x(512, passable);
    assert_eq!(row(&map, 0), [6, 6, 8, 4, 4]);
    map.diffuse_x(256, passable);
    assert_eq!(row(&map, 0), [6, 6, 8, 4, 4]);
}

#[test]
fn diffuse_y() {
    // normal
    let mut map = grid(vec![vec![4], vec![8], vec![0]]);
    map.diffuse_y(512, |_| true);
    assert_eq!(cell(&map, 0, 0), 6);
    assert_eq!(cell(&map, 0, 1), 2);
    assert_eq!(cell(&map, 0, 2), 4);
    map.diffuse_y(256, |_| true);
    assert_eq!(cell(&map, 0, 0), 5);
    assert_eq!(cell(&map, 0, 1), 3);
    assert_eq!(cell(&map, 0, 2), 4);
    // with blocking on the side
    let mut map = grid(vec![vec![4], vec![4], vec![8], vec![0], vec![8]]);
    let passable = |coord: Coord| coord.y > 0 && coord.y < 4;
    map.diffuse_y(512, passable);
    assert_eq!(cell(&map, 0, 0), 4);
    assert_eq!(cell(&map, 0, 1), 6);
    assert_eq!(cell(&map, 0, 2), 2);
    assert_eq!(cell(&map, 0, 3), 4);
    assert_eq!(cell(&map, 0, 4), 8);
    map.diffuse_y(256, passable);
    assert_eq!(cell(&map, 0, 0), 4);
    assert_eq!(cell(&map, 0, 1), 5);
    assert_eq!(cell(&map, 0, 2), 3);
    assert_eq!(cell(&map, 0, 3), 4);
    assert_eq!(cell(&map, 0, 4), 8);
    // with blocking in the middle
    let mut map = grid(vec![vec![4], vec![8], vec![8], vec![0], vec![8]]);
    let passable = |coord: Coord| coord.y != 2;
    map.diffuse_y(512, passable);
    assert_eq!(cell(&map, 0, 0), 6);
    assert_eq!(cell(&map, 0, 1), 6);
    assert_eq!(cell(&map, 0, 2), 8);
    assert_eq!(cell(&map, 0, 3), 4);
    assert_eq!(cell(&map, 0, 4), 4);
    map.diffuse_y(256, passable);
    assert_eq!(cell(&map, 0, 0), 6);
    assert_eq!(cell(&map, 0, 1), 6);
    assert_eq!(cell(&map, 0, 2), 8);
    assert_eq!(cell(&map, 0, 3), 4);
    assert_eq!(cell(&map, 0, 4), 4);
}

#[test]
fn diffusion_keeps_the_sum_and_narrows_the_spread() {
    let mut map = grid(vec![vec![4, 8, 0]]);
    let before = row(&map, 0);
    map.diffuse_x(512, |_| true);
    let first = row(&map, 0);
    assert_eq!(first, [6, 2, 4]);
    assert_eq!(first.iter().sum::<u16>(), before.iter().sum::<u16>());
    assert!(spread(&first) < spread(&before));
    map.diffuse_x(256, |_| true);
    let second = row(&map, 0);
    assert_eq!(second, [5, 3, 4]);
    assert_eq!(second.iter().sum::<u16>(), 12);
    assert!(spread(&second) < spread(&first));
}

#[test]
fn full_proportion_takes_the_whole_difference_from_both_sides() {
    // The middle cell gives 4 to the left and 8 to the right, which is more
    // than it holds: the result is cut to 16 bits.
    let mut map = grid(vec![vec![4, 8, 0]]);
    map.diffuse_x(1024, |_| true);
    assert_eq!(row(&map, 0), [8, 65532, 8]);
    // Two cells swap at full proportion.
    let mut map = grid(vec![vec![10, 2]]);
    map.diffuse_x(1024, |_| true);
    assert_eq!(row(&map, 0), [2, 10]);
}

#[test]
fn zero_proportion_changes_nothing() {
    let mut map = grid(vec![vec![4, 8, 0], vec![1, 2, 3]]);
    map.diffuse(0, |_| true);
    assert_eq!(row(&map, 0), [4, 8, 0]);
    assert_eq!(row(&map, 1), [1, 2, 3]);
}

#[test]
fn rows_diffuse_independently() {
    let mut map = grid(vec![vec![4, 8, 0], vec![100, 0, 0], vec![7, 7, 7]]);
    map.diffuse_x(512, |_| true);
    assert_eq!(row(&map, 0), [6, 2, 4]);
    assert_eq!(row(&map, 1), [50, 50, 0]);
    assert_eq!(row(&map, 2), [7, 7, 7]);
}

#[test]
fn negative_shares_round_down() {
    // (0 - 3) * 256 / 1024 is -0.75 and counts as -1.
    let mut map = grid(vec![vec![3, 0]]);
    map.diffuse_x(256, |_| true);
    assert_eq!(row(&map, 0), [2, 1]);
    // (3 - 0) * 256 / 1024 is 0.75 and counts as 0.
    let mut map = grid(vec![vec![0, 3]]);
    map.diffuse_x(256, |_| true);
    assert_eq!(row(&map, 0), [0, 3]);
}

#[test]
fn diffuse_y_mirrors_diffuse_x() {
    let rows = vec![vec![4u16, 8, 0, 300, 12], vec![9, 9, 1, 0, 65535], vec![0, 0, 0, 7, 7]];
    let mut transposed_rows = vec![vec![0u16; 3]; 5];
    for y in 0..3 {
        for x in 0..5 {
            transposed_rows[x][y] = rows[y][x];
        }
    }
    let passable = |coord: Coord| !(coord.x == 3 && coord.y == 1);
    let mirrored = |coord: Coord| !(coord.y == 3 && coord.x == 1);
    for proportion in [0u16, 100, 256, 512, 700, 1024] {
        let mut along_x = grid(rows.clone());
        let mut along_y = grid(transposed_rows.clone());
        along_x.diffuse_x(proportion, passable);
        along_y.diffuse_y(proportion, mirrored);
        for y in 0..3 {
            for x in 0..5 {
                assert_eq!(cell(&along_x, x, y), cell(&along_y, y, x));
            }
        }
    }
    let mut map = grid(vec![vec![4], vec![8], vec![0]]);
    map.diffuse_y(512, |_| true);
    assert_eq!(column(&map, 0), [6, 2, 4]);
}

#[test]
fn diffuse_runs_along_rows_and_then_along_columns() {
    let mut map = grid(vec![vec![8, 0], vec![0, 0]]);
    map.diffuse(512, |_| true);
    // rows first: [4, 4], [0, 0]; then columns: [2, 2], [2, 2]
    assert_eq!(row(&map, 0), [2, 2]);
    assert_eq!(row(&map, 1), [2, 2]);
    let mut one = grid(vec![vec![9, 1, 0], vec![0, 5, 0]]);
    let mut two = grid(vec![vec![9, 1, 0], vec![0, 5, 0]]);
    one.diffuse(300, |_| true);
    two.diffuse_x(300, |_| true);
    two.diffuse_y(300, |_| true);
    assert_eq!(row(&one, 0), row(&two, 0));
    assert_eq!(row(&one, 1), row(&two, 1));
}

#[test]
fn evaporate_stops_at_zero() {
    let mut map = grid(vec![vec![0, 0], vec![0, 0]]);
    map.evaporate();
    assert_eq!(row(&map, 0), [0, 0]);
    assert_eq!(row(&map, 1), [0, 0]);
    let mut map = grid(vec![vec![7, 7, 7], vec![7, 7, 7]]);
    map.evaporate();
    assert_eq!(row(&map, 0), [6, 6, 6]);
    assert_eq!(row(&map, 1), [6, 6, 6]);
    let mut map = grid(vec![vec![0, 1, 2, 65535]]);
    map.evaporate();
    assert_eq!(row(&map, 0), [0, 0, 1, 65534]);
}

#[test]
fn pheromone_map_starts_without_trail() {
    let mut map = PheromoneMap::default();
    assert_eq!(map.width(), 1024);
    assert_eq!(map.height(), 1024);
    assert_eq!(map.get(Coord::new(0, 0)), 0);
    assert_eq!(map.get(Coord::new(1023, 1023)), 0);
    map.set(Coord::new(3, 4), 9);
    assert_eq!(map.get(Coord::new(3, 4)), 9);
    assert_eq!(map.get(Coord::new(4, 3)), 0);
    assert!(map.is_in_bounds(Coord::new(1023, 0)));
    assert!(!map.is_in_bounds(Coord::new(1024, 0)));
}

#[test]
fn proportion_from_percent() {
    assert_eq!(DiffusionProportion::from_percent(0).value(), 0);
    assert_eq!(DiffusionProportion::from_percent(33).value(), 337);
    assert_eq!(DiffusionProportion::from_percent(50).value(), 512);
    assert_eq!(DiffusionProportion::from_percent(100).value(), 1024);
}

#[test]
fn resource_numbers() {
    assert_eq!(ResourceType::Wheat.index(), 0);
    assert_eq!(ResourceType::Algae.index(), 3);
    assert_eq!(ResourceType::from_index(2), Some(ResourceType::Stone));
    assert_eq!(ResourceType::from_index(4), None);
}

#[test]
fn proportions_beyond_the_whole_overshoot() {
    let mut map = grid(vec![vec![0, 4]]);
    map.diffuse_x(2048, |_| true);
    assert_eq!(row(&map, 0), [8, 65532]);
    let mut map = grid(vec![vec![0, 65535]]);
    map.diffuse_x(32768, |_| true);
    assert_eq!(row(&map, 0), [65504, 31]);
    let mut map = grid(vec![vec![65535], vec![0]]);
    map.diffuse_y(32768, |_| true);
    assert_eq!(column(&map, 0), [31, 65504]);
}
