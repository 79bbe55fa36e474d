use vstd::prelude::*;
use crate::block::{rotated, spawn_points, spawned, translated, BlockView, Shape};
use crate::block::{lemma_rotated_distinct, lemma_spawn_points_distinct};
use crate::block::lemma_translated_distinct;
use crate::board::{BoardState, LINE_COUNT_MAX};
use crate::cell::Cell;
use crate::coord::{Direction, Point};
use crate::grid::{all_in_bounds, blank, collapse, full, full_rows, hit, in_bounds, index_of};
use crate::grid::{row, vacant};
use crate::grid::{lemma_collapse_leaves_no_full_row, lemma_collapse_len};
use crate::grid::{lemma_collapse_one_full_row, lemma_collapse_two_full_rows};
use crate::grid::{lemma_collapse_without_full_rows};
use crate::grid::{lemma_index_in_range, lemma_index_injective};

verus! {

/// A granted move puts the piece on the grid: every one of its cells has a
/// column from 1 to the width and a row from 1 to the height.
pub proof fn lemma_granted_move_stays_on_grid(board: BoardState, candidate: Seq<Point>)
    requires
        board.grants(candidate),
    ensures
        board.attempted(candidate).block.coords == candidate,
        all_in_bounds(board.width, board.height, board.attempted(candidate).block.coords),
{
}

/// A move onto cells that the piece covers already is allowed, whatever the
/// grid holds.
pub proof fn lemma_own_cells_are_allowed(board: BoardState, candidate: Seq<Point>)
    requires
        board.wf(),
        !board.is_game_over,
        forall|i: int| 0 <= i < candidate.len() ==> board.block.coords.contains(candidate[i]),
    ensures
        board.allows(candidate),
{
    assert forall|i: int| 0 <= i < candidate.len() implies board.admits(
        #[trigger] candidate[i],
    ) by {
        let p = candidate[i];
        assert(board.block.coords.contains(p));
        let j = choose|j: int| 0 <= j < board.block.coords.len() && board.block.coords[j] == p;
        assert(in_bounds(board.width, board.height, board.block.coords[j]));
    }
}

/// Whether two boards differ in their grids at most.
pub open spec fn same_but_cells(a: BoardState, b: BoardState) -> bool {
    b == (BoardState { cells: b.cells, ..a })
}

/// Whether a move onto the piece's own cells is allowed does not depend on
/// what the grid holds.
pub proof fn lemma_own_cells_ignore_grid(a: BoardState, b: BoardState, candidate: Seq<Point>)
    requires
        a.wf(),
        b.wf(),
        !a.is_game_over,
        same_but_cells(a, b),
        forall|i: int| 0 <= i < candidate.len() ==> a.block.coords.contains(candidate[i]),
    ensures
        a.allows(candidate),
        b.allows(candidate),
{
    lemma_own_cells_are_allowed(a, candidate);
    lemma_own_cells_are_allowed(b, candidate);
}

/// Drawing the piece anew leaves it drawn, and changes no cell but those it
/// covers or covered.
pub proof fn lemma_redrawn_is_drawn(board: BoardState)
    requires
        board.wf(),
        !board.is_game_over,
    ensures
        board.redrawn().drawn(),
        board.redrawn().wf(),
        forall|p: Point|
            in_bounds(board.width, board.height, p) && !board.block.coords.contains(p)
                && !board.block.prev_coords.contains(p) ==> #[trigger] board.redrawn().cell_at(p)
                == board.cell_at(p),
{
    let width = board.width;
    let height = board.height;
    let now = board.block.coords;
    let before = board.block.prev_coords;
    let after = board.redrawn();
    assert forall|i: int| 0 <= i < now.len() implies after.cell_at(#[trigger] now[i])
        == board.block.color by {
        lemma_index_in_range(width, height, now[i]);
        assert(hit(width, now, index_of(width, now[i])));
    }
    assert forall|i: int| 0 <= i < before.len() && !now.contains(before[i]) implies after.cell_at(
        #[trigger] before[i],
    ) == Cell::Off by {
        let p = before[i];
        let k = index_of(width, p);
        lemma_index_in_range(width, height, p);
        assert(hit(width, before, k));
        if hit(width, now, k) {
            let j = choose|j: int| 0 <= j < now.len() && #[trigger] index_of(width, now[j]) == k;
            lemma_index_injective(width, height, now[j], p);
            assert(now.contains(p));
        }
    }
    assert forall|p: Point|
        in_bounds(width, height, p) && !now.contains(p) && !before.contains(
            p,
        ) implies #[trigger] after.cell_at(p) == board.cell_at(p) by {
        let k = index_of(width, p);
        lemma_index_in_range(width, height, p);
        if hit(width, now, k) {
            let j = choose|j: int| 0 <= j < now.len() && #[trigger] index_of(width, now[j]) == k;
            lemma_index_injective(width, height, now[j], p);
            assert(now.contains(p));
        }
        if hit(width, before, k) {
            let j = choose|j: int|
                0 <= j < before.len() && #[trigger] index_of(width, before[j]) == k;
            lemma_index_injective(width, height, before[j], p);
            assert(before.contains(p));
        }
    }
}

/// After a granted move the piece is drawn where it went: the cells it
/// left and does not cover any more are empty, the cells it covers hold
/// its color, and no other cell has changed.
pub proof fn lemma_granted_move_is_drawn(board: BoardState, candidate: Seq<Point>)
    requires
        board.wf(),
        candidate.len() == 4,
        candidate.no_duplicates(),
        board.grants(candidate),
    ensures
        board.attempted(candidate).wf(),
        board.attempted(candidate).drawn(),
        forall|p: Point|
            in_bounds(board.width, board.height, p) && !candidate.contains(p)
                && !board.block.coords.contains(p) ==> #[trigger] board.attempted(
                candidate,
            ).cell_at(p) == board.cell_at(p),
{
    let placed = BoardState {
        block: BlockView {
            coords: candidate,
            prev_coords: board.block.coords,
            color: board.block.color,
        },
        ..board
    };
    assert(all_in_bounds(board.width, board.height, candidate)) by {
        assert forall|i: int| 0 <= i < candidate.len() implies in_bounds(
            board.width,
            board.height,
            #[trigger] candidate[i],
        ) by {
            assert(board.admits(candidate[i]));
        }
    }
    lemma_redrawn_is_drawn(placed);
    assert forall|p: Point|
        in_bounds(board.width, board.height, p) && !candidate.contains(p)
            && !board.block.coords.contains(p) implies #[trigger] board.attempted(
        candidate,
    ).cell_at(p) == board.cell_at(p) by {
        assert(placed.redrawn().cell_at(p) == placed.cell_at(p));
    }
}

/// A refused move changes nothing: the grid, the piece, the count and the
/// flags are what they were.
pub proof fn lemma_refused_move_changes_nothing(board: BoardState, candidate: Seq<Point>)
    requires
        !board.grants(candidate),
    ensures
        board.attempted(candidate) == board,
{
}

/// Once the game is over, no tick, no move and no lock changes the board.
pub proof fn lemma_game_over_is_final(board: BoardState, next: Shape, candidate: Seq<Point>)
    requires
        board.is_game_over,
    ensures
        board.ticked(next) == board,
        board.attempted(candidate) == board,
        board.locked(next) == board,
        board.judged(next) == board,
{
}

/// A tick never ends a finished game's being over, and never lowers the
/// count of cleared rows.
pub proof fn lemma_tick_is_monotonic(board: BoardState, next: Shape)
    requires
        board.wf(),
    ensures
        board.is_game_over ==> board.ticked(next).is_game_over,
        board.ticked(next).line_count >= board.line_count,
        board.ticked(next).line_count <= LINE_COUNT_MAX,
        board.ticked(next).line_count <= board.line_count + board.height,
        board.ticked(next).width == board.width,
        board.ticked(next).height == board.height,
{
    lemma_collapse_len(board.cells, board.width, board.height, board.height);
    assert(full_rows(board.cells, board.width, board.height) <= board.height);
}

/// A lock clears every full row: on a board with at least one column, no
/// row of the grid is full afterwards.
pub proof fn lemma_lock_leaves_no_full_row(board: BoardState, next: Shape, y: int)
    requires
        board.wf(),
        !board.is_game_over,
        board.width > 0,
        1 <= y <= board.height,
    ensures
        !full(row(board.locked(next).cells, board.width, y)),
{
    lemma_collapse_leaves_no_full_row(board.cells, board.width, board.height, board.height, y);
}

/// A lock lets the next piece in exactly when all its starting cells are
/// on the grid and empty once the full rows are gone; otherwise the game
/// is over and the piece that locked stays the board's piece.
pub proof fn lemma_lock_spawns_or_ends(board: BoardState, next: Shape)
    requires
        board.wf(),
        !board.is_game_over,
    ensures
        board.locked(next).is_game_over <==> !vacant(
            collapse(board.cells, board.width, board.height),
            board.width,
            board.height,
            spawn_points(next),
        ),
        board.locked(next).is_game_over ==> board.locked(next).block == board.block,
        !board.locked(next).is_game_over ==> board.locked(next).block == spawned(next),
        board.locked(next).cells == collapse(board.cells, board.width, board.height),
{
}

/// A lock on a board whose only full row is row `r` clears that row and
/// counts one: the top row is empty afterwards, the rows above `r` are one
/// row further down, and the rows below `r` are as they were.
pub proof fn lemma_lock_clears_one_full_row(board: BoardState, next: Shape, r: nat)
    requires
        board.wf(),
        !board.is_game_over,
        board.line_count < LINE_COUNT_MAX,
        1 <= r <= board.height,
        full(row(board.cells, board.width, r as int)),
        forall|y: int|
            1 <= y <= board.height && y != r ==> !full(#[trigger] row(board.cells, board.width, y)),
    ensures
        board.locked(next).line_count == board.line_count + 1,
        row(board.locked(next).cells, board.width, 1) == blank(board.width),
        forall|y: int|
            1 < y <= r ==> #[trigger] row(board.locked(next).cells, board.width, y) == row(
                board.cells,
                board.width,
                y - 1,
            ),
        forall|y: int|
            r < y <= board.height ==> #[trigger] row(board.locked(next).cells, board.width, y)
                == row(board.cells, board.width, y),
{
    lemma_collapse_one_full_row(board.cells, board.width, board.height, r);
}

/// A lock on a board whose only full rows are rows `r` and `r + 1` clears
/// both and counts two: the two top rows are empty afterwards, the rows
/// above `r` are two rows further down, and the rows below `r + 1` are as
/// they were.
pub proof fn lemma_lock_clears_two_full_rows(board: BoardState, next: Shape, r: nat)
    requires
        board.wf(),
        !board.is_game_over,
        board.line_count + 1 < LINE_COUNT_MAX,
        1 <= r < board.height,
        full(row(board.cells, board.width, r as int)),
        full(row(board.cells, board.width, r as int + 1)),
        forall|y: int|
            1 <= y <= board.height && y != r && y != r + 1 ==> !full(
                #[trigger] row(board.cells, board.width, y),
            ),
    ensures
        board.locked(next).line_count == board.line_count + 2,
        row(board.locked(next).cells, board.width, 1) == blank(board.width),
        row(board.locked(next).cells, board.width, 2) == blank(board.width),
        forall|y: int|
            2 < y <= r + 1 ==> #[trigger] row(board.locked(next).cells, board.width, y) == row(
                board.cells,
                board.width,
                y - 2,
            ),
        forall|y: int|
            r + 1 < y <= board.height ==> #[trigger] row(
                board.locked(next).cells,
                board.width,
                y,
            ) == row(board.cells, board.width, y),
{
    lemma_collapse_two_full_rows(board.cells, board.width, board.height, r);
}

/// A lock on a board without a full row leaves the grid and the count as
/// they were.
pub proof fn lemma_lock_without_full_rows(board: BoardState, next: Shape)
    requires
        board.wf(),
        !board.is_game_over,
        forall|y: int|
            1 <= y <= board.height ==> !full(#[trigger] row(board.cells, board.width, y)),
    ensures
        board.locked(next).cells == board.cells,
        board.locked(next).line_count == board.line_count,
{
    lemma_collapse_without_full_rows(board.cells, board.width, board.height);
}

/// Every tick keeps a board's lasting properties: the grid keeps its size,
/// the count stays in its range, and the piece covers four different
/// cells that lie on the grid unless the game is over.
pub proof fn lemma_tick_preserves_wf(board: BoardState, next: Shape)
    requires
        board.wf(),
    ensures
        board.ticked(next).wf(),
{
    let down = translated(board.block.coords, Direction::Down);
    if board.is_game_over {
    } else if board.is_stuck {
        lemma_redrawn_is_drawn(BoardState { is_stuck: false, ..board });
    } else if board.allows(down) {
        lemma_translated_distinct(board.block.coords, Direction::Down);
        lemma_granted_move_is_drawn(board, down);
    } else {
        lemma_collapse_len(board.cells, board.width, board.height, board.height);
        lemma_spawn_points_distinct(next);
        assert(board.height * board.width == board.width * board.height) by (nonlinear_arith);
    }
}

/// Every push and every quarter turn that is asked of a board keeps its
/// lasting properties, whether the move is granted or not.
pub proof fn lemma_moves_preserve_wf(board: BoardState, d: Direction, clockwise: bool)
    requires
        board.wf(),
    ensures
        board.attempted(translated(board.block.coords, d)).wf(),
        board.attempted(rotated(board.block.coords, clockwise)).wf(),
{
    let pushed = translated(board.block.coords, d);
    let turned = rotated(board.block.coords, clockwise);
    lemma_translated_distinct(board.block.coords, d);
    lemma_rotated_distinct(board.block.coords, clockwise);
    if board.grants(pushed) {
        lemma_granted_move_is_drawn(board, pushed);
    }
    if board.grants(turned) {
        lemma_granted_move_is_drawn(board, turned);
    }
}

} // verus!
