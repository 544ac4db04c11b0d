use sim::{Grid, TilePos};

fn pos(x: i32, y: i32) -> TilePos {
    TilePos::new(x, y)
}

#[test]
fn a_new_grid_is_filled_with_the_given_value() {
    let grid = Grid::new(4, 3, 7u8);
    assert_eq!(grid.width(), 4);
    assert_eq!(grid.height(), 3);
    for y in 0..3 {
        for x in 0..4 {
            assert_eq!(grid.get(pos(x, y)), Some(&7));
        }
    }
}

#[test]
fn a_value_written_to_a_tile_can_be_read_back() {
    let mut grid = Grid::new(4, 3, 0u8);
    grid.set(pos(2, 1), 9);
    assert_eq!(grid.get(pos(2, 1)), Some(&9));
}

#[test]
fn writing_one_tile_leaves_every_other_tile_untouched() {
    // A width/height swap in the index calculation passes on square grids and
    // aliases on rectangular ones, so this grid is deliberately not square.
    let mut grid = Grid::new(5, 2, 0u8);
    grid.set(pos(1, 0), 1);
    grid.set(pos(0, 1), 2);
    assert_eq!(grid.get(pos(1, 0)), Some(&1));
    assert_eq!(grid.get(pos(0, 1)), Some(&2));

    let written = [pos(1, 0), pos(0, 1)];
    for y in 0..2 {
        for x in 0..5 {
            if !written.contains(&pos(x, y)) {
                assert_eq!(grid.get(pos(x, y)), Some(&0), "at {x},{y}");
            }
        }
    }
}

#[test]
fn positions_outside_the_grid_read_as_none() {
    let grid = Grid::new(4, 3, 0u8);
    assert_eq!(grid.get(pos(4, 0)), None);
    assert_eq!(grid.get(pos(0, 3)), None);
    assert_eq!(grid.get(pos(-1, 0)), None);
    assert_eq!(grid.get(pos(0, -1)), None);
    assert_eq!(grid.get(pos(i32::MAX, i32::MAX)), None);
}

#[test]
fn in_bounds_agrees_with_get() {
    let grid = Grid::new(4, 3, 0u8);
    for y in -2..6 {
        for x in -2..7 {
            assert_eq!(
                grid.in_bounds(pos(x, y)),
                grid.get(pos(x, y)).is_some(),
                "disagreed at {x},{y}"
            );
        }
    }
}

#[test]
fn tile_positions_keep_their_coordinates() {
    let p = TilePos::new(-3, 8);
    assert_eq!(p.x, -3);
    assert_eq!(p.y, 8);
    assert_eq!(p, TilePos { x: -3, y: 8 });
}

#[test]
fn the_corners_of_a_tall_grid_are_distinct_cells() {
    let mut grid = Grid::new(2, 5, 0u32);
    grid.set(pos(0, 0), 1);
    grid.set(pos(1, 0), 2);
    grid.set(pos(0, 4), 3);
    grid.set(pos(1, 4), 4);
    assert_eq!(grid.get(pos(0, 0)), Some(&1));
    assert_eq!(grid.get(pos(1, 0)), Some(&2));
    assert_eq!(grid.get(pos(0, 4)), Some(&3));
    assert_eq!(grid.get(pos(1, 4)), Some(&4));
    assert_eq!(grid.get(pos(0, 1)), Some(&0));
    assert_eq!(grid.get(pos(2, 0)), None);
}

#[test]
fn overwriting_a_cell_keeps_the_last_value() {
    let mut grid = Grid::new(1, 1, 0i8);
    grid.set(pos(0, 0), 5);
    grid.set(pos(0, 0), -5);
    assert_eq!(grid.get(pos(0, 0)), Some(&-5));
    assert_eq!(grid.width(), 1);
    assert_eq!(grid.height(), 1);
}

#[test]
fn a_grid_of_cloned_values_holds_equal_copies() {
    let grid = Grid::new(3, 2, String::from("grass"));
    assert_eq!(grid.get(pos(2, 1)).map(|s| s.as_str()), Some("grass"));
}

#[derive(Debug, PartialEq)]
struct Tagged {
    copied: bool,
}

impl Clone for Tagged {
    fn clone(&self) -> Tagged {
        Tagged { copied: true }
    }
}

#[test]
fn a_new_grid_moves_the_fill_into_its_last_cell() {
    let grid = Grid::new(3, 2, Tagged { copied: false });
    assert_eq!(grid.get(pos(2, 1)), Some(&Tagged { copied: false }));
    assert_eq!(grid.get(pos(0, 0)), Some(&Tagged { copied: true }));
    assert_eq!(grid.get(pos(1, 1)), Some(&Tagged { copied: true }));
}

#[test]
fn a_cloned_grid_is_independent_of_its_source() {
    let mut grid = Grid::new(3, 2, 4u16);
    grid.set(pos(1, 1), 9);
    let mut copy = grid.clone();
    assert_eq!(copy, grid);
    copy.set(pos(0, 0), 5);
    assert_eq!(grid.get(pos(0, 0)), Some(&4));
    assert_eq!(copy.get(pos(0, 0)), Some(&5));
    assert_eq!(copy.get(pos(1, 1)), Some(&9));
    assert_eq!(copy.width(), 3);
    assert_eq!(copy.height(), 2);
}

#[test]
fn tile_positions_order_by_x_then_y() {
    assert!(pos(0, 5) < pos(1, 0));
    assert!(pos(1, 0) < pos(1, 2));
    assert_eq!(pos(2, 3).cmp(&pos(2, 3)), std::cmp::Ordering::Equal);
}
