use cursive::style::{BaseColor, Color, ColorStyle};
use tetris_grid::block::{Block, BlockWithPos, Pos};
use tetris_grid::color_grid::ColorGrid;
use tetris_grid::lrd::{LR, LRD};

fn white() -> ColorStyle {
    ColorStyle::back(BaseColor::White.dark())
}

fn black() -> ColorStyle {
    ColorStyle::back(BaseColor::Black.dark())
}

fn warning() -> ColorStyle {
    ColorStyle::back(BaseColor::Red.light())
}

fn green() -> ColorStyle {
    ColorStyle::back(BaseColor::Green.dark())
}

fn yellow() -> ColorStyle {
    ColorStyle::back(BaseColor::Yellow.dark())
}

fn grid(width: usize, height: usize) -> ColorGrid {
    ColorGrid::new((white(), black()), warning(), width, height)
}

fn checker(x: usize, y: usize) -> ColorStyle {
    if (x + y) % 2 == 0 {
        white()
    } else {
        black()
    }
}

fn bar(length: i32, color: ColorStyle) -> Block {
    Block::new(vec![(0..length).map(|x| (x, 0)).collect()], color).unwrap()
}

fn cell(color: ColorStyle) -> Block {
    bar(1, color)
}

fn rows(grid: &ColorGrid) -> Vec<Vec<ColorStyle>> {
    (0..grid.height()).map(|y| grid[y].clone()).collect()
}

fn occupied_cells(grid: &ColorGrid) -> usize {
    let mut count = 0;
    for y in 0..grid.height() {
        for x in 0..grid.width() {
            if grid.is_occupied(x, y) {
                count += 1;
            }
        }
    }
    count
}

/// Puts a bar of `length` cells into row `y`, from column `x` on.
fn lock_bar(grid: &mut ColorGrid, x: usize, y: usize, length: i32, color: ColorStyle) -> usize {
    grid.insert(bar(length, color));
    let mut at = grid.block().pos;
    while at.x > x as i64 {
        grid.handle_lr(LR::Left);
        at = grid.block().pos;
    }
    while at.x < x as i64 {
        grid.handle_lr(LR::Right);
        at = grid.block().pos;
    }
    while grid.block().pos.y < y as i64 {
        let (over, landed, score) = grid.on_down(false);
        assert!(!over);
        if landed {
            assert_eq!(grid.block().pos.y, y as i64);
            return score;
        }
    }
    grid.merge_block()
}

#[test]
fn a_new_grid_is_a_checkerboard() {
    let grid = grid(10, 20);
    assert_eq!(grid.width(), 10);
    assert_eq!(grid.height(), 20);
    for y in 0..20 {
        assert_eq!(grid[y].len(), 10);
        for x in 0..10 {
            assert_eq!(grid[y][x], checker(x, y));
            assert!(!grid.is_occupied(x, y));
        }
    }
    assert_eq!(grid[0][0], white());
    assert_eq!(grid[0][1], black());
    assert_eq!(grid[1][0], black());
    assert_eq!(grid[19][9], white());
    assert_eq!(grid.warning_color(), warning());
}

#[test]
fn a_new_grid_keeps_width_and_height_apart() {
    let grid = grid(7, 3);
    assert_eq!(grid.width(), 7);
    assert_eq!(grid.height(), 3);
    assert_eq!(rows(&grid).len(), 3);
}

#[test]
fn the_default_block_enters_near_the_middle_of_the_top_row() {
    let grid = grid(10, 20);
    assert_eq!(grid.block().pos, Pos::new(5, 1));
    assert_eq!(grid.block().block, Block::default());
    assert_eq!(grid.block().cells(), vec![(4, 1), (5, 1), (6, 1), (5, 0)]);
}

#[test]
fn the_default_block_needs_three_columns_and_two_rows() {
    assert!(ColorGrid::can_enter(&Block::default(), 3, 2));
    assert!(ColorGrid::can_enter(&Block::default(), 10, 20));
    assert!(!ColorGrid::can_enter(&Block::default(), 2, 2));
    assert!(!ColorGrid::can_enter(&Block::default(), 3, 1));
    assert!(!ColorGrid::can_enter(&Block::default(), 0, 0));
    let small = grid(3, 2);
    assert_eq!(small.block().pos, Pos::new(1, 1));
    assert_eq!(small.block().cells(), vec![(0, 1), (1, 1), (2, 1), (1, 0)]);
}

#[test]
fn can_enter_says_whether_insert_finds_a_place() {
    assert!(ColorGrid::can_enter(&bar(4, green()), 4, 1));
    assert!(!ColorGrid::can_enter(&bar(5, green()), 4, 1));
    let far = Block::new(vec![vec![(0, 7)]], green()).unwrap();
    assert!(!ColorGrid::can_enter(&far, 4, 1));
    let near = Block::new(vec![vec![(0, 5)]], green()).unwrap();
    assert!(ColorGrid::can_enter(&near, 4, 1));
    let mut grid = grid(4, 3);
    grid.insert(near);
    assert_eq!(grid.block().pos, Pos::new(2, -3));
    assert_eq!(grid.block().cells(), vec![(2, 2)]);
}

#[test]
fn insert_puts_the_block_in_the_middle_of_the_top_row() {
    let mut grid = grid(10, 20);
    grid.insert(bar(2, green()));
    assert_eq!(grid.block().pos, Pos::new(5, 0));
    assert_eq!(grid.block().block, bar(2, green()));
    grid.insert(bar(7, green()));
    assert_eq!(grid.block().pos, Pos::new(3, 0));
    let mut narrow = self::grid(5, 4);
    narrow.insert(cell(green()));
    assert_eq!(narrow.block().pos, Pos::new(2, 0));
}

#[test]
fn insert_leaves_the_field_alone() {
    let mut grid = grid(6, 6);
    lock_bar(&mut grid, 0, 5, 3, green());
    let before = rows(&grid);
    grid.insert(cell(yellow()));
    assert_eq!(rows(&grid), before);
}

#[test]
fn occupied_means_neither_background_nor_warning() {
    let mut grid = grid(4, 4);
    lock_bar(&mut grid, 0, 3, 1, green());
    lock_bar(&mut grid, 1, 3, 1, warning());
    lock_bar(&mut grid, 2, 3, 1, white());
    lock_bar(&mut grid, 3, 3, 1, black());
    assert_eq!(grid[3], vec![green(), warning(), white(), black()]);
    assert!(grid.is_occupied(0, 3));
    assert!(!grid.is_occupied(1, 3));
    assert!(!grid.is_occupied(2, 3));
    assert!(!grid.is_occupied(3, 3));
    assert!(!grid.is_occupied(0, 2));
}

#[test]
fn a_row_with_a_warning_mark_is_not_full() {
    let mut grid = grid(3, 3);
    assert_eq!(lock_bar(&mut grid, 0, 2, 1, green()), 0);
    assert_eq!(lock_bar(&mut grid, 1, 2, 1, warning()), 0);
    assert_eq!(lock_bar(&mut grid, 2, 2, 1, green()), 0);
    assert_eq!(grid[2], vec![green(), warning(), green()]);
}

#[test]
fn a_piece_moves_sideways_until_it_meets_the_wall() {
    let mut grid = grid(10, 20);
    grid.insert(bar(2, green()));
    grid.handle_lr(LR::Left);
    assert_eq!(grid.block().pos, Pos::new(4, 0));
    for _ in 0..10 {
        grid.handle_lr(LR::Left);
    }
    assert_eq!(grid.block().pos, Pos::new(0, 0));
    for _ in 0..20 {
        grid.handle_lr(LR::Right);
    }
    assert_eq!(grid.block().pos, Pos::new(8, 0));
}

#[test]
fn a_piece_does_not_move_into_a_locked_block() {
    let mut grid = grid(5, 2);
    lock_bar(&mut grid, 0, 1, 2, green());
    grid.insert(cell(yellow()));
    assert_eq!(grid.on_down(false), (false, true, 0));
    // The piece is locked at column 2 of the bottom row; the next one is
    // brought down beside the bar.
    grid.insert(cell(yellow()));
    grid.handle_lr(LR::Right);
    assert_eq!(grid.on_down(false), (false, true, 0));
    grid.insert(cell(yellow()));
    let before = grid.block().clone();
    let (moved, _) = grid.move_block_lrd(&before, LRD::Down);
    assert!(moved.is_none());
}

#[test]
fn move_block_lrd_reports_the_new_place_and_whether_the_piece_rests() {
    let mut grid = grid(4, 4);
    lock_bar(&mut grid, 0, 3, 1, green());
    let piece = BlockWithPos::new(bar(2, yellow()), Pos::new(1, 0));
    let (moved, rests) = grid.move_block_lrd(&piece, LRD::Down);
    assert_eq!(moved.unwrap().pos, Pos::new(1, 1));
    assert!(!rests);
    let (moved, rests) = grid.move_block_lrd(&piece, LRD::Left);
    assert_eq!(moved.unwrap().pos, Pos::new(0, 0));
    assert!(!rests);
    let (moved, rests) = grid.move_block_lrd(&piece, LRD::Right);
    assert_eq!(moved.unwrap().pos, Pos::new(2, 0));
    assert!(!rests);
    // One row above the floor the piece rests after the step.
    let low = BlockWithPos::new(bar(2, yellow()), Pos::new(1, 2));
    let (moved, rests) = grid.move_block_lrd(&low, LRD::Down);
    assert_eq!(moved.unwrap().pos, Pos::new(1, 3));
    assert!(rests);
    // Above a locked block it rests as well.
    let above = BlockWithPos::new(bar(2, yellow()), Pos::new(0, 1));
    let (moved, rests) = grid.move_block_lrd(&above, LRD::Down);
    assert_eq!(moved.unwrap().pos, Pos::new(0, 2));
    assert!(rests);
    // A step sideways along the floor leaves the piece resting.
    let floor = BlockWithPos::new(bar(2, yellow()), Pos::new(1, 3));
    let (moved, rests) = grid.move_block_lrd(&floor, LRD::Right);
    assert_eq!(moved.unwrap().pos, Pos::new(2, 3));
    assert!(rests);
    // Into the locked block, off the field: no step, and no rest reported.
    assert_eq!(grid.move_block_lrd(&floor, LRD::Left), (None, false));
    assert_eq!(grid.move_block_lrd(&floor, LRD::Down), (None, false));
    let edge = BlockWithPos::new(bar(2, yellow()), Pos::new(2, 3));
    assert_eq!(grid.move_block_lrd(&edge, LRD::Right), (None, false));
}

#[test]
fn a_move_is_all_or_nothing() {
    let mut grid = grid(4, 3);
    lock_bar(&mut grid, 3, 2, 1, green());
    // Only the last cell of the bar would come to lie on the locked block.
    let piece = BlockWithPos::new(bar(3, yellow()), Pos::new(1, 1));
    assert_eq!(grid.move_block_lrd(&piece, LRD::Down), (None, false));
    assert_eq!(piece.pos, Pos::new(1, 1));
}

#[test]
fn rotate_takes_the_next_orientation_and_nudges_it_onto_the_field() {
    let mut grid = grid(10, 20);
    let flat = vec![(0, 0), (1, 0), (2, 0), (3, 0)];
    let upright = vec![(0, -1), (0, 0), (0, 1), (0, 2)];
    grid.insert(Block::new(vec![flat.clone(), upright.clone()], green()).unwrap());
    assert_eq!(grid.block().pos, Pos::new(5, 0));
    grid.rotate();
    assert_eq!(grid.block().block.cells(), &upright);
    assert_eq!(grid.block().pos, Pos::new(5, 1));
    for _ in 0..10 {
        grid.handle_lr(LR::Right);
    }
    assert_eq!(grid.block().pos, Pos::new(9, 1));
    grid.rotate();
    assert_eq!(grid.block().block.cells(), &flat);
    assert_eq!(grid.block().pos, Pos::new(6, 1));
}

#[test]
fn a_rotation_that_finds_no_place_is_dropped() {
    let mut grid = grid(3, 3);
    let small = vec![(0, 0)];
    let wide = vec![(0, 0), (1, 0), (2, 0), (3, 0)];
    grid.insert(Block::new(vec![small.clone(), wide], green()).unwrap());
    let before = grid.block().clone();
    grid.rotate();
    assert_eq!(grid.block(), &before);
    assert_eq!(grid.block().block.cells(), &small);
}

#[test]
fn rotate_leaves_the_field_alone() {
    let mut grid = grid(6, 6);
    lock_bar(&mut grid, 0, 5, 3, green());
    let before = rows(&grid);
    grid.rotate();
    grid.handle_lr(LR::Left);
    assert_eq!(rows(&grid), before);
}

#[test]
fn hint_is_where_a_drop_ends() {
    let mut grid = grid(10, 20);
    lock_bar(&mut grid, 3, 19, 4, green());
    grid.insert(bar(2, yellow()));
    let hint = grid.hint();
    assert_eq!(hint.pos, Pos::new(5, 18));
    assert_eq!(hint.block, bar(2, yellow()));
    assert_eq!(grid.on_down(true), (false, true, 0));
    assert_eq!(grid.block(), &hint);
}

#[test]
fn hint_changes_nothing() {
    let mut grid = grid(10, 20);
    lock_bar(&mut grid, 0, 19, 4, green());
    grid.insert(bar(3, yellow()));
    let field = rows(&grid);
    let piece = grid.block().clone();
    let first = grid.hint();
    let second = grid.hint();
    assert_eq!(first, second);
    assert_eq!(first.pos, Pos::new(5, 19));
    assert_eq!(rows(&grid), field);
    assert_eq!(grid.block(), &piece);
}

#[test]
fn the_hint_of_a_piece_that_cannot_fall_is_the_piece() {
    let grid = grid(3, 2);
    assert_eq!(grid.block().pos, Pos::new(1, 1));
    assert_eq!(&grid.hint(), grid.block());
}

#[test]
fn one_row_down_at_a_time_until_the_piece_lands() {
    let mut grid = grid(10, 20);
    assert_eq!(grid.block().pos, Pos::new(5, 1));
    for row in 2..19 {
        assert_eq!(grid.on_down(false), (false, false, 0));
        assert_eq!(grid.block().pos, Pos::new(5, row));
        assert_eq!(occupied_cells(&grid), 0);
    }
    assert_eq!(grid.on_down(false), (false, true, 0));
    assert_eq!(grid.block().pos, Pos::new(5, 19));
    assert_eq!(occupied_cells(&grid), 4);
    let violet = ColorStyle::new(Color::Rgb(0, 0, 0), Color::Rgb(160, 0, 240));
    assert_eq!(grid[19][4], violet);
    assert_eq!(grid[19][5], violet);
    assert_eq!(grid[19][6], violet);
    assert_eq!(grid[18][5], violet);
    assert_eq!(grid[18][4], checker(4, 18));
}

#[test]
fn a_piece_that_completes_the_bottom_row_clears_it() {
    let mut grid = grid(10, 20);
    assert_eq!(lock_bar(&mut grid, 0, 19, 5, green()), 0);
    assert_eq!(lock_bar(&mut grid, 2, 18, 3, yellow()), 0);
    grid.insert(bar(5, green()));
    let mut report = grid.on_down(false);
    let mut steps = 1;
    while !report.1 {
        assert_eq!(report, (false, false, 0));
        report = grid.on_down(false);
        steps += 1;
    }
    assert_eq!(steps, 19);
    assert_eq!(report, (false, true, 1));
    // The row above has come down, and the bottom row holds what it held.
    for x in 0..10 {
        let expected = if (2..5).contains(&x) { yellow() } else { checker(x, 19) };
        assert_eq!(grid[19][x], expected);
        assert_eq!(grid[18][x], checker(x, 18));
        assert_eq!(grid[0][x], checker(x, 0));
    }
    assert_eq!(occupied_cells(&grid), 3);
}

#[test]
fn a_drop_lands_and_locks_at_once() {
    let mut grid = grid(10, 20);
    assert_eq!(grid.on_down(true), (false, true, 0));
    assert_eq!(grid.block().pos, Pos::new(5, 19));
    assert_eq!(occupied_cells(&grid), 4);
    assert!(grid.is_occupied(5, 18));
}

#[test]
fn a_piece_that_cannot_go_down_ends_the_game() {
    let mut grid = grid(3, 2);
    // The default block stands on the floor as it enters.
    assert_eq!(grid.block().pos, Pos::new(1, 1));
    let field = rows(&grid);
    let piece = grid.block().clone();
    assert_eq!(grid.on_down(false), (true, true, 0));
    assert_eq!(grid.on_down(true), (true, true, 0));
    assert_eq!(rows(&grid), field);
    assert_eq!(grid.block(), &piece);
}

#[test]
fn a_piece_that_enters_on_locked_blocks_ends_the_game() {
    let mut grid = grid(4, 4);
    for _ in 0..3 {
        grid.insert(cell(green()));
        assert_eq!(grid.on_down(true), (false, true, 0));
    }
    grid.insert(cell(green()));
    assert_eq!(grid.block().pos, Pos::new(2, 0));
    assert!(grid.is_occupied(2, 1));
    assert_eq!(grid.on_down(false), (true, true, 0));
    assert!(!grid.is_occupied(2, 0));
}

#[test]
fn merge_without_a_full_row_adds_the_cells_of_the_piece() {
    let mut grid = grid(10, 20);
    lock_bar(&mut grid, 0, 19, 4, green());
    let before = rows(&grid);
    let count = occupied_cells(&grid);
    grid.insert(Block::default());
    for _ in 0..5 {
        grid.on_down(false);
    }
    let cells = grid.block().cells();
    assert_eq!(grid.merge_block(), 0);
    assert_eq!(occupied_cells(&grid), count + 4);
    let after = rows(&grid);
    for y in 0..20 {
        for x in 0..10 {
            if cells.contains(&(x as i128, y as i128)) {
                assert_eq!(after[y][x], Block::default().color());
            } else {
                assert_eq!(after[y][x], before[y][x]);
            }
        }
    }
}

#[test]
fn merge_counts_a_cell_that_a_piece_names_twice_once() {
    let mut grid = grid(4, 4);
    grid.insert(Block::new(vec![vec![(0, 0), (0, 0), (1, 0)]], green()).unwrap());
    assert_eq!(grid.merge_block(), 0);
    assert_eq!(occupied_cells(&grid), 2);
}

#[test]
fn two_full_rows_with_a_row_between_them_are_cleared_together() {
    let mut grid = grid(4, 6);
    // From the bottom: a full row, a row with one block, a full row, a row
    // with two blocks.
    assert_eq!(lock_bar(&mut grid, 0, 5, 3, green()), 0);
    assert_eq!(lock_bar(&mut grid, 0, 4, 1, yellow()), 0);
    assert_eq!(lock_bar(&mut grid, 0, 3, 3, green()), 0);
    assert_eq!(lock_bar(&mut grid, 1, 2, 2, yellow()), 0);
    // An upright bar in the last column completes rows 3 and 5.
    let upright = Block::new(vec![vec![(0, 0), (0, 1), (0, 2)]], green()).unwrap();
    grid.insert(upright);
    grid.handle_lr(LR::Right);
    assert_eq!(grid.block().pos, Pos::new(3, 0));
    assert_eq!(grid.on_down(true), (false, true, 2));
    assert_eq!(grid.block().pos, Pos::new(3, 3));
    assert_eq!(grid.height(), 6);
    let expected = vec![
        vec![checker(0, 0), checker(1, 0), checker(2, 0), checker(3, 0)],
        vec![checker(0, 1), checker(1, 1), checker(2, 1), checker(3, 1)],
        vec![checker(0, 2), checker(1, 2), checker(2, 2), checker(3, 2)],
        vec![checker(0, 3), checker(1, 3), checker(2, 3), checker(3, 3)],
        vec![checker(0, 4), yellow(), yellow(), checker(3, 4)],
        vec![yellow(), checker(1, 5), checker(2, 5), green()],
    ];
    assert_eq!(rows(&grid), expected);
}

#[test]
fn rows_below_the_lowest_full_row_stay_as_they_are() {
    let mut grid = grid(3, 4);
    assert_eq!(lock_bar(&mut grid, 0, 3, 1, warning()), 0);
    assert_eq!(lock_bar(&mut grid, 1, 3, 1, green()), 0);
    assert_eq!(lock_bar(&mut grid, 1, 2, 2, green()), 0);
    assert_eq!(lock_bar(&mut grid, 1, 1, 1, warning()), 0);
    assert_eq!(lock_bar(&mut grid, 2, 1, 1, yellow()), 0);
    assert_eq!(lock_bar(&mut grid, 0, 2, 1, green()), 1);
    // The bottom row did not move and keeps its warning mark; the row that
    // slid down lost its mark to the background.
    let expected = vec![
        vec![checker(0, 0), checker(1, 0), checker(2, 0)],
        vec![checker(0, 1), checker(1, 1), checker(2, 1)],
        vec![checker(0, 2), checker(1, 2), yellow()],
        vec![warning(), green(), checker(2, 3)],
    ];
    assert_eq!(rows(&grid), expected);
}

#[test]
fn a_full_top_row_is_cleared_like_any_other() {
    let mut grid = grid(3, 3);
    assert_eq!(lock_bar(&mut grid, 0, 2, 1, green()), 0);
    grid.insert(bar(3, yellow()));
    assert_eq!(grid.block().pos, Pos::new(0, 0));
    assert_eq!(grid.merge_block(), 1);
    let expected = vec![
        vec![checker(0, 0), checker(1, 0), checker(2, 0)],
        vec![checker(0, 1), checker(1, 1), checker(2, 1)],
        vec![green(), checker(1, 2), checker(2, 2)],
    ];
    assert_eq!(rows(&grid), expected);
}

#[test]
fn the_top_row_slides_down_with_the_others() {
    let mut grid = grid(3, 3);
    assert_eq!(lock_bar(&mut grid, 0, 2, 1, green()), 0);
    assert_eq!(lock_bar(&mut grid, 1, 1, 2, yellow()), 0);
    assert_eq!(lock_bar(&mut grid, 2, 0, 1, green()), 0);
    let before = vec![
        vec![checker(0, 0), checker(1, 0), green()],
        vec![checker(0, 1), yellow(), yellow()],
        vec![green(), checker(1, 2), checker(2, 2)],
    ];
    assert_eq!(rows(&grid), before);
    assert_eq!(lock_bar(&mut grid, 0, 1, 1, green()), 1);
    let after = vec![
        vec![checker(0, 0), checker(1, 0), checker(2, 0)],
        vec![checker(0, 1), checker(1, 1), green()],
        vec![green(), checker(1, 2), checker(2, 2)],
    ];
    assert_eq!(rows(&grid), after);
}

#[test]
fn a_block_in_a_background_colour_leaves_the_cell_empty() {
    let mut grid = grid(3, 2);
    assert_eq!(lock_bar(&mut grid, 0, 1, 2, green()), 0);
    assert_eq!(lock_bar(&mut grid, 2, 1, 1, white()), 0);
    assert_eq!(grid[1], vec![green(), green(), white()]);
    assert_eq!(occupied_cells(&grid), 2);
}

#[test]
fn every_row_full_leaves_a_checkerboard() {
    let mut grid = grid(3, 2);
    assert_eq!(lock_bar(&mut grid, 0, 1, 2, green()), 0);
    assert_eq!(lock_bar(&mut grid, 0, 0, 2, yellow()), 0);
    assert_eq!(occupied_cells(&grid), 4);
    let upright = Block::new(vec![vec![(0, 0), (0, 1)]], green()).unwrap();
    grid.insert(upright);
    grid.handle_lr(LR::Right);
    assert_eq!(grid.block().pos, Pos::new(2, 0));
    assert_eq!(grid.merge_block(), 2);
    let expected = vec![
        vec![checker(0, 0), checker(1, 0), checker(2, 0)],
        vec![checker(0, 1), checker(1, 1), checker(2, 1)],
    ];
    assert_eq!(rows(&grid), expected);
}

#[test]
fn renew_gives_a_new_game_whatever_was_on_the_field() {
    let mut played = grid(6, 8);
    lock_bar(&mut played, 0, 7, 4, green());
    lock_bar(&mut played, 2, 6, 3, warning());
    played.insert(bar(2, yellow()));
    played.handle_lr(LR::Left);
    played.renew();
    let fresh = grid(6, 8);
    assert_eq!(rows(&played), rows(&fresh));
    assert_eq!(played.block(), fresh.block());
    assert_eq!(played.block().pos, Pos::new(3, 1));
    assert_eq!(played.warning_color(), warning());
    assert_eq!(occupied_cells(&played), 0);
}

#[test]
fn renew_twice_is_renew_once() {
    let mut grid = grid(6, 8);
    lock_bar(&mut grid, 0, 7, 4, green());
    grid.renew();
    let field = rows(&grid);
    let piece = grid.block().clone();
    grid.renew();
    assert_eq!(rows(&grid), field);
    assert_eq!(grid.block(), &piece);
}
