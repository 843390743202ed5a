use glob1rs::grid::{Coord, Grid, Grid2D, Rect};

fn rect(x: i16, y: i16, w: i16, h: i16) -> Rect {
    Rect::new(Coord::new(x, y), Coord::new(w, h))
}

#[test]
fn new_grid_holds_fill() {
    let grid: Grid<u8> = Grid::new(5, 3, 9);
    assert_eq!(grid.width(), 5);
    assert_eq!(grid.height(), 3);
    for y in 0..3 {
        for x in 0..5 {
            assert_eq!(grid.get(Coord::new(x, y)), 9);
        }
    }
}

#[test]
fn set_changes_one_cell() {
    let mut grid: Grid<u8> = Grid::new(4, 4, 0);
    grid.set(Coord::new(1, 2), 7);
    for y in 0..4 {
        for x in 0..4 {
            let expected = if x == 1 && y == 2 { 7 } else { 0 };
            assert_eq!(grid.get(Coord::new(x, y)), expected);
        }
    }
}

#[test]
fn bounds_are_checked() {
    let grid: Grid<u8> = Grid::new(4, 2, 0);
    assert!(grid.is_in_bounds(Coord::new(0, 0)));
    assert!(grid.is_in_bounds(Coord::new(3, 1)));
    assert!(!grid.is_in_bounds(Coord::new(4, 1)));
    assert!(!grid.is_in_bounds(Coord::new(3, 2)));
    assert!(!grid.is_in_bounds(Coord::new(-1, 0)));
    assert!(!grid.is_in_bounds(Coord::new(0, -1)));
}

#[test]
fn from_rows_keeps_rows_and_refuses_ragged_input() {
    let grid = Grid::from_rows(&vec![vec![1u8, 2, 3], vec![4, 5, 6]]).unwrap();
    assert_eq!(grid.width(), 3);
    assert_eq!(grid.height(), 2);
    assert_eq!(grid.get(Coord::new(2, 0)), 3);
    assert_eq!(grid.get(Coord::new(0, 1)), 4);
    assert!(Grid::from_rows(&vec![vec![1u8, 2], vec![3]]).is_none());
    let empty = Grid::<u8>::from_rows(&vec![]).unwrap();
    assert_eq!(empty.width(), 0);
    assert_eq!(empty.height(), 0);
}

#[test]
fn for_each_visits_every_cell_with_its_coordinate() {
    let mut grid: Grid<u16> = Grid::new(3, 2, 1);
    grid.for_each(|value, coord| value + 10 * coord.x as u16 + 100 * coord.y as u16);
    assert_eq!(grid.get(Coord::new(0, 0)), 1);
    assert_eq!(grid.get(Coord::new(2, 0)), 21);
    assert_eq!(grid.get(Coord::new(0, 1)), 101);
    assert_eq!(grid.get(Coord::new(2, 1)), 121);
}

#[test]
fn rect_round_trip() {
    let mut grid: Grid<u8> = Grid::new(8, 8, 0);
    let outer = rect(2, 1, 4, 5);
    assert!(grid.set_rect_value(outer, 3));
    for y in 0..8i16 {
        for x in 0..8i16 {
            let inside = (2..6).contains(&x) && (1..6).contains(&y);
            assert_eq!(grid.get(Coord::new(x, y)), if inside { 3 } else { 0 });
        }
    }
    assert!(grid.rect_has_value(outer, 3));
    for y in 1..6i16 {
        for x in 2..6i16 {
            for h in 0..=(6 - y) {
                for w in 0..=(6 - x) {
                    assert!(grid.rect_has_value(rect(x, y, w, h), 3));
                }
            }
        }
    }
    assert!(!grid.rect_has_value(rect(1, 1, 2, 1), 3));
    assert!(!grid.rect_has_value(rect(2, 1, 4, 6), 3));
    assert!(!grid.rect_has_value(outer, 0));
}

#[test]
fn empty_rect_always_passes_and_writes_nothing() {
    let mut grid: Grid<u8> = Grid::new(4, 4, 1);
    assert!(grid.rect_has_value(rect(1, 1, 0, 3), 9));
    assert!(grid.rect_has_value(rect(1, 1, 3, 0), 9));
    assert!(grid.rect_has_value(rect(100, 100, 0, 0), 9));
    assert!(grid.rect_has_value(rect(1, 1, -2, 2), 9));
    assert!(grid.set_rect_value(rect(1, 1, 0, 3), 9));
    assert!(grid.set_rect_value(rect(1, 1, -1, -1), 9));
    assert!(grid.rect_has_value(rect(0, 0, 4, 4), 1));
}

#[test]
fn coord_offsets() {
    assert_eq!(Coord::new(3, 4).offset(Coord::new(-1, 1)), Coord::new(2, 5));
    assert_eq!(Coord::new(0, 0).checked_offset(Coord::new(-1, -1)), Some(Coord::new(-1, -1)));
    assert_eq!(Coord::new(i16::MAX, 0).checked_offset(Coord::new(1, 0)), None);
    assert_eq!(Coord::new(0, i16::MIN).checked_offset(Coord::new(0, -1)), None);
}
