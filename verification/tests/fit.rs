use cursive::style::{BaseColor, ColorStyle};
use tetris_grid::block::{Block, BlockWithPos, Pos};
use tetris_grid::color_grid::ColorGrid;

fn blue() -> ColorStyle {
    ColorStyle::front(BaseColor::Blue.dark())
}

fn block_of(cells: Vec<(i32, i32)>) -> Block {
    Block::new(vec![cells], blue()).unwrap()
}

fn square() -> Block {
    block_of(vec![(0, 0), (1, 0), (0, 1), (1, 1)])
}

fn all_on_field(piece: &BlockWithPos, width: usize, height: usize) -> bool {
    piece
        .cells()
        .iter()
        .all(|c| 0 <= c.0 && c.0 < width as i128 && 0 <= c.1 && c.1 < height as i128)
}

#[test]
fn a_piece_on_the_field_stays_where_it_is() {
    let fit = ColorGrid::fit(square(), Pos::new(3, 4), 10, 20).unwrap();
    assert_eq!(fit.pos, Pos::new(3, 4));
    assert_eq!(fit.block, square());
}

#[test]
fn a_piece_past_the_left_edge_is_nudged_right() {
    let fit = ColorGrid::fit(square(), Pos::new(-2, 4), 10, 20).unwrap();
    assert_eq!(fit.pos, Pos::new(0, 4));
}

#[test]
fn a_piece_past_the_right_edge_is_nudged_left() {
    let fit = ColorGrid::fit(square(), Pos::new(10, 4), 10, 20).unwrap();
    assert_eq!(fit.pos, Pos::new(8, 4));
}

#[test]
fn a_piece_above_the_field_is_nudged_down() {
    let fit = ColorGrid::fit(square(), Pos::new(3, -3), 10, 20).unwrap();
    assert_eq!(fit.pos, Pos::new(3, 0));
}

#[test]
fn a_piece_below_the_field_is_nudged_up() {
    let fit = ColorGrid::fit(square(), Pos::new(3, 21), 10, 20).unwrap();
    assert_eq!(fit.pos, Pos::new(3, 18));
}

#[test]
fn a_piece_off_a_corner_is_nudged_along_both_axes() {
    let fit = ColorGrid::fit(square(), Pos::new(-2, -2), 10, 20).unwrap();
    assert_eq!(fit.pos, Pos::new(0, 0));
    let fit = ColorGrid::fit(square(), Pos::new(10, 20), 10, 20).unwrap();
    assert_eq!(fit.pos, Pos::new(8, 18));
}

#[test]
fn five_nudges_are_in_time_and_six_are_not() {
    let cell = block_of(vec![(0, 0)]);
    let fit = ColorGrid::fit(cell.clone(), Pos::new(-5, 0), 10, 10).unwrap();
    assert_eq!(fit.pos, Pos::new(0, 0));
    assert!(ColorGrid::fit(cell.clone(), Pos::new(-6, 0), 10, 10).is_none());
    let fit = ColorGrid::fit(cell.clone(), Pos::new(14, 0), 10, 10).unwrap();
    assert_eq!(fit.pos, Pos::new(9, 0));
    assert!(ColorGrid::fit(cell.clone(), Pos::new(15, 0), 10, 10).is_none());
    let fit = ColorGrid::fit(cell.clone(), Pos::new(-3, -2), 10, 10).unwrap();
    assert_eq!(fit.pos, Pos::new(0, 0));
    assert!(ColorGrid::fit(cell, Pos::new(-3, -3), 10, 10).is_none());
}

#[test]
fn fit_gives_up_on_a_field_smaller_than_the_piece() {
    assert!(ColorGrid::fit(square(), Pos::new(0, 0), 1, 1).is_none());
    assert!(ColorGrid::fit(square(), Pos::new(0, 0), 2, 1).is_none());
    assert!(ColorGrid::fit(square(), Pos::new(0, 0), 1, 2).is_none());
    assert!(ColorGrid::fit(square(), Pos::new(0, 0), 0, 0).is_none());
}

#[test]
fn fit_finds_the_only_place_on_a_field_as_large_as_the_piece() {
    let fit = ColorGrid::fit(square(), Pos::new(1, 1), 2, 2).unwrap();
    assert_eq!(fit.pos, Pos::new(0, 0));
}

#[test]
fn the_first_cell_off_the_field_decides_the_nudge() {
    // The first cell lies too far right, the second too far left, so the
    // anchor swings back and forth and finds no place.
    let torn = block_of(vec![(3, 0), (-3, 0)]);
    assert!(ColorGrid::fit(torn, Pos::new(0, 0), 4, 4).is_none());
    // The left edge is looked at before the top edge.
    let cell = block_of(vec![(0, 0)]);
    let fit = ColorGrid::fit(cell.clone(), Pos::new(-1, -4), 10, 10).unwrap();
    assert_eq!(fit.pos, Pos::new(0, 0));
    assert!(ColorGrid::fit(cell, Pos::new(-1, -5), 10, 10).is_none());
}

#[test]
fn an_anchor_may_come_to_lie_off_the_field() {
    let shifted = block_of(vec![(1, 0)]);
    let fit = ColorGrid::fit(shifted, Pos::new(0, 0), 1, 1).unwrap();
    assert_eq!(fit.pos, Pos::new(-1, 0));
    assert_eq!(fit.cells(), vec![(0, 0)]);
}

#[test]
fn fit_never_looks_at_locked_blocks() {
    let red = ColorStyle::front(BaseColor::Red.dark());
    let white = ColorStyle::front(BaseColor::White.dark());
    let black = ColorStyle::front(BaseColor::Black.dark());
    let mut grid = ColorGrid::new((white, black), red, 4, 4);
    grid.insert(square());
    assert!(grid.on_down(true).1);
    assert!(grid.is_occupied(2, 3));
    let fit = ColorGrid::fit(square(), Pos::new(2, 2), 4, 4).unwrap();
    assert_eq!(fit.pos, Pos::new(2, 2));
}

#[test]
fn whatever_fit_returns_lies_on_the_field() {
    let shapes: Vec<Vec<(i32, i32)>> = vec![
        vec![(0, 0)],
        vec![(0, 0), (1, 0), (0, 1), (1, 1)],
        vec![(-1, 0), (0, 0), (1, 0), (0, -1)],
        vec![(0, -1), (0, 0), (0, 1), (0, 2)],
        vec![(2, 2), (-2, -2)],
    ];
    let mut found = 0;
    for cells in shapes {
        for (width, height) in [(1usize, 1usize), (2, 2), (3, 5), (5, 3), (10, 20)] {
            for x in -8..18 {
                for y in -8..28 {
                    let block = block_of(cells.clone());
                    if let Some(piece) = ColorGrid::fit(block, Pos::new(x, y), width, height) {
                        assert!(all_on_field(&piece, width, height));
                        assert_eq!(piece.block.cells(), &cells);
                        found += 1;
                    }
                }
            }
        }
    }
    assert!(found > 0);
}
