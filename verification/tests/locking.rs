use tetris::block::{Block, Shape};
use tetris::board::{Board, LINE_COUNT_MAX};
use tetris::cell::Cell;
use tetris::coord::Coord;

const WIDTH: u32 = 10;
const HEIGHT: u32 = 20;

fn cell_index(x: u32, y: u32) -> usize {
    ((y - 1) * WIDTH + (x - 1)) as usize
}

fn empty_grid() -> Vec<Cell> {
    vec![Cell::Off; (WIDTH * HEIGHT) as usize]
}

fn fill_row(cells: &mut Vec<Cell>, y: u32, value: Cell) {
    for x in 1..=WIDTH {
        cells[cell_index(x, y)] = value;
    }
}

fn set_row(cells: &mut Vec<Cell>, y: u32, row: [Cell; 10]) {
    for x in 1..=WIDTH {
        cells[cell_index(x, y)] = row[(x - 1) as usize];
    }
}

fn row_of(cells: &[Cell], y: u32) -> Vec<Cell> {
    cells[cell_index(1, y)..=cell_index(WIDTH, y)].to_vec()
}

fn parked(y: i64) -> Block {
    let coords = [
        Coord { x: 1, y },
        Coord { x: 2, y },
        Coord { x: 3, y },
        Coord { x: 4, y },
    ];
    Block { coords, prev_coords: coords, color: Cell::Color2 }
}

fn board_with(cells: Vec<Cell>, count: u32) -> Board {
    Board::with_cells(WIDTH, HEIGHT, cells, parked(10), count).unwrap()
}

const O: Cell = Cell::Off;
const A: Cell = Cell::Color1;
const B: Cell = Cell::Color2;
const C: Cell = Cell::Color3;

#[test]
fn single_full_row_at_the_bottom_is_cleared() {
    let mut cells = empty_grid();
    fill_row(&mut cells, 20, A);
    let mut board = board_with(cells, 0);
    board.on_stick(Shape::T);
    assert_eq!(board.cells(), &empty_grid()[..]);
    assert_eq!(board.line_count(), 1);
    assert!(!board.is_game_over());
    assert_eq!(board.block(), Block::new(Shape::T));
}

#[test]
fn single_full_row_in_the_middle_is_cleared() {
    for r in [1, 2, 7, 13, 19] {
        let mut cells = empty_grid();
        fill_row(&mut cells, r, C);
        let mut board = board_with(cells, 5);
        board.on_stick(Shape::O);
        assert_eq!(board.cells(), &empty_grid()[..]);
        assert_eq!(board.line_count(), 6);
        assert!(!board.is_game_over());
    }
}

#[test]
fn single_full_row_leaves_rows_below_and_shifts_rows_above() {
    let above = [O, A, O, B, O, C, O, A, O, B];
    let higher = [C, C, O, O, O, O, O, O, O, A];
    let below = [A, A, A, A, O, B, B, B, B, B];
    let lowest = [O, O, O, O, O, O, O, O, O, C];
    let mut cells = empty_grid();
    set_row(&mut cells, 11, higher);
    set_row(&mut cells, 12, above);
    fill_row(&mut cells, 13, B);
    set_row(&mut cells, 14, below);
    set_row(&mut cells, 20, lowest);
    let mut board = board_with(cells, 0);
    board.on_stick(Shape::T);
    let mut expected = empty_grid();
    set_row(&mut expected, 12, higher);
    set_row(&mut expected, 13, above);
    set_row(&mut expected, 14, below);
    set_row(&mut expected, 20, lowest);
    assert_eq!(board.cells(), &expected[..]);
    assert_eq!(board.line_count(), 1);
}

#[test]
fn two_adjacent_full_rows_are_cleared() {
    let above = [O, A, O, B, O, C, O, A, O, B];
    let below = [A, A, A, A, O, B, B, B, B, B];
    let mut cells = empty_grid();
    set_row(&mut cells, 14, above);
    fill_row(&mut cells, 15, A);
    fill_row(&mut cells, 16, C);
    set_row(&mut cells, 17, below);
    let mut board = board_with(cells, 3);
    board.on_stick(Shape::J);
    let mut expected = empty_grid();
    set_row(&mut expected, 16, above);
    set_row(&mut expected, 17, below);
    assert_eq!(board.cells(), &expected[..]);
    assert_eq!(row_of(board.cells(), 16), above.to_vec());
    assert_eq!(row_of(board.cells(), 17), below.to_vec());
    assert_eq!(row_of(board.cells(), 1), vec![O; 10]);
    assert_eq!(row_of(board.cells(), 2), vec![O; 10]);
    assert_eq!(board.line_count(), 5);
    assert!(!board.is_game_over());
}

#[test]
fn two_separate_full_rows_are_cleared() {
    let first = [A, O, O, O, O, O, O, O, O, O];
    let second = [O, B, O, O, O, O, O, O, O, O];
    let third = [O, O, C, O, O, O, O, O, O, O];
    let mut cells = empty_grid();
    set_row(&mut cells, 15, first);
    fill_row(&mut cells, 16, A);
    set_row(&mut cells, 17, second);
    fill_row(&mut cells, 18, B);
    set_row(&mut cells, 19, third);
    let mut board = board_with(cells, 0);
    board.on_stick(Shape::S);
    let mut expected = empty_grid();
    set_row(&mut expected, 17, first);
    set_row(&mut expected, 18, second);
    set_row(&mut expected, 19, third);
    assert_eq!(board.cells(), &expected[..]);
    assert_eq!(board.line_count(), 2);
}

#[test]
fn four_stacked_full_rows_are_cleared() {
    let above = [O, O, O, O, A, A, O, O, O, O];
    let mut cells = empty_grid();
    set_row(&mut cells, 16, above);
    for y in 17..=20 {
        fill_row(&mut cells, y, B);
    }
    let mut board = board_with(cells, 10);
    board.on_stick(Shape::L);
    let mut expected = empty_grid();
    set_row(&mut expected, 20, above);
    assert_eq!(board.cells(), &expected[..]);
    assert_eq!(board.line_count(), 14);
}

#[test]
fn every_row_full_clears_the_whole_grid() {
    let mut board = board_with(vec![C; 200], 0);
    board.on_stick(Shape::I);
    assert_eq!(board.cells(), &empty_grid()[..]);
    assert_eq!(board.line_count(), 20);
    assert!(!board.is_game_over());
}

#[test]
fn row_with_one_gap_is_kept() {
    let mut cells = empty_grid();
    fill_row(&mut cells, 20, A);
    cells[cell_index(10, 20)] = O;
    fill_row(&mut cells, 19, B);
    cells[cell_index(1, 19)] = O;
    let mut board = board_with(cells.clone(), 9);
    board.on_stick(Shape::T);
    assert_eq!(board.cells(), &cells[..]);
    assert_eq!(board.line_count(), 9);
    assert_eq!(board.block(), Block::new(Shape::T));
}

#[test]
fn lock_lets_the_next_piece_in_unpainted() {
    let mut board = board_with(empty_grid(), 0);
    board.on_stick(Shape::Z);
    assert_eq!(board.block(), Block::new(Shape::Z));
    assert_eq!(board.cells(), &empty_grid()[..]);
    assert!(!board.is_game_over());
}

#[test]
fn no_full_row_remains_after_a_lock() {
    let patterns: [[Cell; 10]; 4] = [
        [A, A, A, A, A, A, A, A, A, A],
        [A, A, A, A, A, O, A, A, A, A],
        [B, C, B, C, B, C, B, C, B, C],
        [O, O, O, O, O, O, O, O, O, O],
    ];
    for seed in 0..64u32 {
        let mut cells = empty_grid();
        let mut full = 0;
        let mut kept: Vec<[Cell; 10]> = Vec::new();
        for y in 3..=HEIGHT {
            let pick = ((seed * 31 + y * 17 + (seed + y) / 3) % 4) as usize;
            set_row(&mut cells, y, patterns[pick]);
            if pick == 0 || pick == 2 {
                full += 1;
            } else {
                kept.push(patterns[pick]);
            }
        }
        let mut board = board_with(cells, 0);
        board.on_stick(Shape::T);
        assert_eq!(board.line_count(), full);
        for y in 1..=HEIGHT {
            assert!(row_of(board.cells(), y).iter().any(|c| *c == O));
        }
        // What was kept sits at the bottom, in the order it had.
        let first_kept = HEIGHT as usize - kept.len();
        for (i, row) in kept.iter().enumerate() {
            assert_eq!(row_of(board.cells(), (first_kept + i + 1) as u32), row.to_vec());
        }
        for y in 1..=first_kept {
            assert_eq!(row_of(board.cells(), y as u32), vec![O; 10]);
        }
    }
}

#[test]
fn count_stops_at_its_largest_value() {
    assert_eq!(LINE_COUNT_MAX, u32::MAX);
    let mut cells = empty_grid();
    fill_row(&mut cells, 20, A);
    let mut board = board_with(cells.clone(), u32::MAX);
    board.on_stick(Shape::T);
    assert_eq!(board.line_count(), u32::MAX);
    assert_eq!(board.cells(), &empty_grid()[..]);

    fill_row(&mut cells, 19, A);
    fill_row(&mut cells, 18, A);
    let mut board = board_with(cells.clone(), u32::MAX - 2);
    board.on_stick(Shape::T);
    assert_eq!(board.line_count(), u32::MAX);

    let mut board = board_with(cells, u32::MAX - 3);
    board.on_stick(Shape::T);
    assert_eq!(board.line_count(), u32::MAX);

    let mut cells = empty_grid();
    fill_row(&mut cells, 20, A);
    let mut board = board_with(cells, u32::MAX - 2);
    board.on_stick(Shape::T);
    assert_eq!(board.line_count(), u32::MAX - 1);
}

#[test]
fn occupied_top_row_ends_the_game() {
    let mut cells = empty_grid();
    fill_row(&mut cells, 1, B);
    for shape in [Shape::T, Shape::J, Shape::Z, Shape::O, Shape::S, Shape::L, Shape::I] {
        let mut board = board_with(cells.clone(), 7);
        let block = board.block();
        board.check_for_game_over(shape);
        assert!(board.is_game_over());
        assert_eq!(board.cells(), &cells[..]);
        assert_eq!(board.line_count(), 7);
        assert_eq!(board.block(), block);

        let frozen = board.clone();
        board.tick(Shape::O);
        assert_eq!(board, frozen);
        board.tick(Shape::I);
        assert_eq!(board, frozen);
        assert_eq!(board.cells(), &cells[..]);
        assert_eq!(board.line_count(), 7);
        assert!(board.is_game_over());
    }
}

#[test]
fn free_starting_cells_keep_the_game_running() {
    let mut cells = empty_grid();
    // Everything but the T piece's starting cells.
    fill_row(&mut cells, 1, B);
    fill_row(&mut cells, 2, B);
    for (x, y) in [(5, 2), (4, 2), (5, 1), (6, 2)] {
        cells[cell_index(x, y)] = O;
    }
    let mut board = board_with(cells.clone(), 0);
    let before = board.clone();
    board.check_for_game_over(Shape::T);
    assert!(!board.is_game_over());
    assert_eq!(board, before);
    board.check_for_game_over(Shape::J);
    assert!(board.is_game_over());
    assert_eq!(board.cells(), &cells[..]);
}

#[test]
fn one_painted_starting_cell_ends_the_game() {
    for (x, y) in [(5, 2), (4, 2), (5, 1), (6, 2)] {
        let mut cells = empty_grid();
        cells[cell_index(x, y)] = C;
        let mut board = board_with(cells, 0);
        board.check_for_game_over(Shape::T);
        assert!(board.is_game_over());
    }
    let mut cells = empty_grid();
    cells[cell_index(4, 1)] = C;
    cells[cell_index(6, 1)] = C;
    let mut board = board_with(cells, 0);
    board.check_for_game_over(Shape::T);
    assert!(!board.is_game_over());
}

#[test]
fn game_over_stays_over() {
    let mut cells = empty_grid();
    cells[cell_index(5, 1)] = A;
    let mut board = board_with(cells, 0);
    board.check_for_game_over(Shape::I);
    assert!(board.is_game_over());
    // A shape that would fit does not bring the game back.
    board.check_for_game_over(Shape::J);
    assert!(board.is_game_over());
}

#[test]
fn lock_with_blocked_start_ends_the_game() {
    let top = [O, O, O, A, A, A, A, O, O, O];
    let mut cells = empty_grid();
    set_row(&mut cells, 1, top);
    fill_row(&mut cells, 20, B);
    // The full row goes first: row 1 moves down to row 2, into the way of
    // the T piece and out of the way of the I piece.
    let mut expected = empty_grid();
    set_row(&mut expected, 2, top);

    let mut board = board_with(cells.clone(), 2);
    let block = board.block();
    board.on_stick(Shape::T);
    assert!(board.is_game_over());
    assert_eq!(board.cells(), &expected[..]);
    assert_eq!(board.line_count(), 3);
    assert_eq!(board.block(), block);

    let mut board = board_with(cells, 2);
    board.on_stick(Shape::I);
    assert!(!board.is_game_over());
    assert_eq!(board.cells(), &expected[..]);
    assert_eq!(board.line_count(), 3);
    assert_eq!(board.block(), Block::new(Shape::I));
}

#[test]
fn lock_without_a_full_row_and_blocked_start_ends_the_game() {
    let top = [O, O, O, A, A, A, A, O, O, O];
    let mut cells = empty_grid();
    set_row(&mut cells, 1, top);
    let mut board = board_with(cells.clone(), 2);
    let block = board.block();
    board.on_stick(Shape::I);
    assert!(board.is_game_over());
    assert_eq!(board.cells(), &cells[..]);
    assert_eq!(board.line_count(), 2);
    assert_eq!(board.block(), block);
}

#[test]
fn lock_judges_the_grid_after_the_rows_are_cleared() {
    // The top row is full: it is cleared, and the next piece has room.
    let mut cells = empty_grid();
    fill_row(&mut cells, 1, A);
    let mut board = board_with(cells, 0);
    board.on_stick(Shape::T);
    assert!(!board.is_game_over());
    assert_eq!(board.line_count(), 1);
    assert_eq!(board.cells(), &empty_grid()[..]);
    assert_eq!(board.block(), Block::new(Shape::T));
}

#[test]
fn finished_game_refuses_every_request() {
    let mut cells = empty_grid();
    fill_row(&mut cells, 1, B);
    fill_row(&mut cells, 20, B);
    let mut board = board_with(cells, 4);
    board.check_for_game_over(Shape::T);
    assert!(board.is_game_over());
    let frozen = board.clone();
    assert!(!board.attempt_move_block_down());
    assert!(!board.attempt_move_block_left());
    assert!(!board.attempt_move_block_right());
    assert!(!board.attempt_rotate_clockwise());
    assert!(!board.attempt_rotate_counterclockwise());
    board.update_cells();
    board.on_stick(Shape::O);
    board.tick(Shape::O);
    assert_eq!(board, frozen);
    assert_eq!(board.line_count(), 4);
}
