use vstd::prelude::*;
use crate::block::{all_representable, points, rotated, spawn_points, spawned, translated};
use crate::block::{Block, BlockView, Shape};
use crate::block::{lemma_rotated_distinct, lemma_spawn_points_distinct};
use crate::block::lemma_translated_distinct;
use crate::cell::Cell;
use crate::coord::{representable, Coord, Direction, Point};
use crate::grid::{all_in_bounds, blank, collapse, full, full_rows, hit, in_bounds, index_of};
use crate::grid::{painted, row, vacant};
use crate::grid::{lemma_collapse_len, lemma_index_in_range, lemma_row_span};
use crate::laws::lemma_redrawn_is_drawn;

verus! {

/// The largest value the count of cleared rows can take; it stays there.
pub const LINE_COUNT_MAX: u32 = 0xffff_ffff;

/// The playing field: the grid, the falling piece, the count of cleared
/// rows, and the two flags of the tick cycle.
#[derive(Clone, Debug, PartialEq, Eq)]
pub struct Board {
    line_count: u32,
    width: u32,
    height: u32,
    cells: Vec<Cell>,
    block: Block,
    is_stuck: bool,
    is_game_over: bool,
}

/// A board as mathematics sees it.
pub struct BoardState {
    pub width: nat,
    pub height: nat,
    /// The grid, row by row from the top; `width * height` cells.
    pub cells: Seq<Cell>,
    pub block: BlockView,
    pub line_count: nat,
    /// Set on the tick that locks a piece, cleared by the tick after it.
    pub is_stuck: bool,
    pub is_game_over: bool,
}

impl BoardState {
    /// A board's lasting properties: the grid has one cell for each
    /// position; the count is within its range; the piece covers four
    /// different cells; and while the game runs, those cells and the ones
    /// it covered before lie on the grid.
    pub open spec fn wf(self) -> bool {
        &&& self.cells.len() == self.width * self.height
        &&& self.line_count <= LINE_COUNT_MAX
        &&& self.block.coords.len() == 4
        &&& self.block.prev_coords.len() == 4
        &&& self.block.coords.no_duplicates()
        &&& !self.is_game_over ==> {
            &&& all_in_bounds(self.width, self.height, self.block.coords)
            &&& all_in_bounds(self.width, self.height, self.block.prev_coords)
        }
    }

    /// The cell at position `p`.
    pub open spec fn cell_at(self, p: Point) -> Cell {
        self.cells[index_of(self.width, p)]
    }

    /// Whether the piece may cover `p`: the position lies on the grid, and
    /// its cell is empty or one that the piece covers now.
    pub open spec fn admits(self, p: Point) -> bool {
        &&& in_bounds(self.width, self.height, p)
        &&& (self.block.coords.contains(p) || self.cell_at(p) == Cell::Off)
    }

    /// Whether the piece may move to `candidate`: every position of it is
    /// admitted.
    pub open spec fn allows(self, candidate: Seq<Point>) -> bool {
        forall|i: int| 0 <= i < candidate.len() ==> self.admits(#[trigger] candidate[i])
    }

    /// Whether the piece is drawn: every cell it covers holds its color,
    /// and every cell it covered before and covers no more is empty.
    pub open spec fn drawn(self) -> bool {
        &&& forall|i: int|
            0 <= i < self.block.coords.len() ==> self.cell_at(#[trigger] self.block.coords[i])
                == self.block.color
        &&& forall|i: int|
            0 <= i < self.block.prev_coords.len() && !self.block.coords.contains(
                self.block.prev_coords[i],
            ) ==> self.cell_at(#[trigger] self.block.prev_coords[i]) == Cell::Off
    }

    /// The board after the piece has been drawn anew: the cells it covered
    /// before are emptied, then the cells it covers now take its color.
    pub open spec fn redrawn(self) -> BoardState {
        BoardState {
            cells: painted(
                painted(self.cells, self.width, self.block.prev_coords, Cell::Off),
                self.width,
                self.block.coords,
                self.block.color,
            ),
            ..self
        }
    }

    /// The board after the piece has moved to `candidate`.
    pub open spec fn moved(self, candidate: Seq<Point>) -> BoardState {
        BoardState {
            block: BlockView {
                coords: candidate,
                prev_coords: self.block.coords,
                color: self.block.color,
            },
            ..self
        }.redrawn()
    }

    /// The board after a request to move the piece to `candidate`: the move
    /// is made if the game runs and the board allows it, and nothing
    /// changes otherwise.
    pub open spec fn attempted(self, candidate: Seq<Point>) -> BoardState {
        if !self.is_game_over && self.allows(candidate) {
            self.moved(candidate)
        } else {
            self
        }
    }

    /// Whether a request to move the piece to `candidate` is granted.
    pub open spec fn grants(self, candidate: Seq<Point>) -> bool {
        !self.is_game_over && self.allows(candidate)
    }

    /// The board after its full rows have been cleared and counted. The
    /// count stops at `LINE_COUNT_MAX`.
    pub open spec fn settled(self) -> BoardState {
        let total = self.line_count + full_rows(self.cells, self.width, self.height);
        BoardState {
            cells: collapse(self.cells, self.width, self.height),
            line_count: if total > LINE_COUNT_MAX {
                LINE_COUNT_MAX as nat
            } else {
                total
            },
            ..self
        }
    }

    /// The board after it has been judged for a piece of shape `next`: the
    /// game is over if some starting cell of that piece is off the grid or
    /// painted.
    pub open spec fn judged(self, next: Shape) -> BoardState {
        BoardState {
            is_game_over: self.is_game_over || !vacant(
                self.cells,
                self.width,
                self.height,
                spawn_points(next),
            ),
            ..self
        }
    }

    /// The board after the piece has locked: full rows are cleared and
    /// counted, and a piece of shape `next` enters unless the game is over.
    pub open spec fn locked(self, next: Shape) -> BoardState {
        if self.is_game_over {
            self
        } else {
            let judged = self.settled().judged(next);
            if judged.is_game_over {
                judged
            } else {
                BoardState { block: spawned(next), ..judged }
            }
        }
    }

    /// The board one tick later. A finished game stays as it is. The tick
    /// after a lock only redraws. Any other tick moves the piece one row
    /// down, or locks it where it cannot fall.
    pub open spec fn ticked(self, next: Shape) -> BoardState {
        let down = translated(self.block.coords, Direction::Down);
        if self.is_game_over {
            self
        } else if self.is_stuck {
            BoardState { is_stuck: false, ..self }.redrawn()
        } else if self.allows(down) {
            self.moved(down)
        } else {
            BoardState { is_stuck: true, ..self }.locked(next)
        }
    }

    /// A board with the given grid, piece and count, the piece falling.
    pub open spec fn arranged(
        width: nat,
        height: nat,
        cells: Seq<Cell>,
        block: BlockView,
        line_count: nat,
    ) -> BoardState {
        BoardState {
            width,
            height,
            cells,
            block,
            line_count,
            is_stuck: false,
            is_game_over: false,
        }
    }

    /// A fresh board for a first piece of shape `first`: every cell empty,
    /// nothing counted, the piece falling. On a grid too small to hold the
    /// piece the game is over from the start.
    pub open spec fn fresh(width: nat, height: nat, first: Shape) -> BoardState {
        BoardState {
            width,
            height,
            cells: blank(width * height),
            block: spawned(first),
            line_count: 0,
            is_stuck: false,
            is_game_over: !all_in_bounds(width, height, spawn_points(first)),
        }
    }
}

/// On a grid whose sides fit in 32 bits, every push and every quarter turn
/// of a piece that lies on the grid gives coordinates that can be stored.
proof fn lemma_candidates_representable(width: nat, height: nat, s: Seq<Point>)
    requires
        width <= u32::MAX,
        height <= u32::MAX,
        s.len() > 0,
        all_in_bounds(width, height, s),
    ensures
        forall|d: Direction| all_representable(#[trigger] translated(s, d)),
        forall|clockwise: bool| all_representable(#[trigger] rotated(s, clockwise)),
{
    assert forall|d: Direction| all_representable(#[trigger] translated(s, d)) by {
        assert forall|i: int| 0 <= i < s.len() implies representable(
            #[trigger] translated(s, d)[i],
        ) by {
            assert(in_bounds(width, height, s[i]));
        }
    }
    assert forall|clockwise: bool| all_representable(#[trigger] rotated(s, clockwise)) by {
        assert forall|i: int| 0 <= i < s.len() implies representable(
            #[trigger] rotated(s, clockwise)[i],
        ) by {
            assert(in_bounds(width, height, s[0]));
            assert(in_bounds(width, height, s[i]));
        }
    }
}

impl View for Board {
    type V = BoardState;

    closed spec fn view(&self) -> BoardState {
        BoardState {
            width: self.width as nat,
            height: self.height as nat,
            cells: self.cells@,
            block: self.block@,
            line_count: self.line_count as nat,
            is_stuck: self.is_stuck,
            is_game_over: self.is_game_over,
        }
    }
}

impl Board {
    /// The board's lasting properties hold.
    pub open spec fn wf(&self) -> bool {
        self@.wf()
    }

    /// Where the cell at `coord` is stored.
    fn get_index(&self, coord: Coord) -> (index: usize)
        requires
            self.cells@.len() == self.width * self.height,
            in_bounds(self.width as nat, self.height as nat, coord@),
        ensures
            index == index_of(self.width as nat, coord@),
            index < self.cells@.len(),
    {
        let len = self.cells.len();
        let row: usize = (coord.y - 1) as usize;
        let column: usize = (coord.x - 1) as usize;
        let width: usize = self.width as usize;
        proof {
            lemma_index_in_range(self.width as nat, self.height as nat, coord@);
            assert(row * width == (coord@.1 - 1) * (self.width as nat));
        }
        row * width + column
    }

    /// Whether `coord` lies on the grid.
    fn contains(&self, coord: Coord) -> (b: bool)
        ensures
            b == in_bounds(self.width as nat, self.height as nat, coord@),
    {
        1 <= coord.x && coord.x <= self.width as i64 && 1 <= coord.y && coord.y
            <= self.height as i64
    }

    /// Sets the cell at each coordinate of `footprint` to `value`.
    fn paint(&mut self, footprint: &[Coord; 4], value: Cell)
        requires
            old(self).cells@.len() == old(self).width * old(self).height,
            all_in_bounds(old(self).width as nat, old(self).height as nat, points(*footprint)),
        ensures
            final(self).cells@ == painted(
                old(self).cells@,
                old(self).width as nat,
                points(*footprint),
                value,
            ),
            *final(self) == (Board { cells: final(self).cells, ..*old(self) }),
    {
        let ghost s = points(*footprint);
        let ghost width = self.width as nat;
        let ghost before = self.cells@;
        assert(s[0] == footprint[0]@ && s[1] == footprint[1]@ && s[2] == footprint[2]@ && s[3]
            == footprint[3]@);
        let i0 = self.get_index(footprint[0]);
        self.cells.set(i0, value);
        let i1 = self.get_index(footprint[1]);
        self.cells.set(i1, value);
        let i2 = self.get_index(footprint[2]);
        self.cells.set(i2, value);
        let i3 = self.get_index(footprint[3]);
        self.cells.set(i3, value);
        proof {
            assert(index_of(width, s[0]) == i0 && index_of(width, s[1]) == i1 && index_of(
                width,
                s[2],
            ) == i2 && index_of(width, s[3]) == i3);
            assert forall|k: int| 0 <= k < before.len() implies #[trigger] self.cells@[k]
                == painted(before, width, s, value)[k] by {
                if k == i0 || k == i1 || k == i2 || k == i3 {
                    assert(hit(width, s, k));
                } else {
                    assert(!hit(width, s, k));
                }
            }
            assert(self.cells@ =~= painted(before, width, s, value));
        }
    }

    /// Draws the piece anew: empties the cells it covered before its last
    /// move, then paints the cells it covers now. A finished game is left
    /// as it is.
    pub fn update_cells(&mut self)
        requires
            old(self).wf(),
        ensures
            final(self).wf(),
            final(self)@ == if old(self)@.is_game_over {
                old(self)@
            } else {
                old(self)@.redrawn()
            },
            !old(self)@.is_game_over ==> final(self)@.drawn(),
    {
        if self.is_game_over {
            return ;
        }
        proof {
            lemma_redrawn_is_drawn(self@);
        }
        let previous = self.block.prev_coords;
        let current = self.block.coords;
        let color = self.block.color;
        self.paint(&previous, Cell::Off);
        self.paint(&current, color);
    }

    /// Whether the piece may cover `coord`.
    fn admits(&self, coord: Coord) -> (b: bool)
        requires
            self.cells@.len() == self.width * self.height,
        ensures
            b == self@.admits(coord@),
    {
        if !self.contains(coord) {
            return false;
        }
        let own = coord == self.block.coords[0] || coord == self.block.coords[1] || coord
            == self.block.coords[2] || coord == self.block.coords[3];
        proof {
            let s = self@.block.coords;
            assert(s[0] == self.block.coords[0]@ && s[1] == self.block.coords[1]@ && s[2]
                == self.block.coords[2]@ && s[3] == self.block.coords[3]@);
            assert(own == s.contains(coord@));
        }
        if own {
            return true;
        }
        let index = self.get_index(coord);
        self.cells[index] == Cell::Off
    }

    /// Whether the piece may move to `new_position`: every coordinate lies
    /// on the grid, on a cell that is empty or covered by the piece itself.
    /// Nothing is changed.
    pub fn is_position_allowed(&self, new_position: [Coord; 4]) -> (allowed: bool)
        requires
            self.wf(),
        ensures
            allowed == self@.allows(points(new_position)),
    {
        let ghost s = points(new_position);
        assert(s[0] == new_position[0]@ && s[1] == new_position[1]@ && s[2] == new_position[2]@
            && s[3] == new_position[3]@);
        self.admits(new_position[0]) && self.admits(new_position[1]) && self.admits(
            new_position[2],
        ) && self.admits(new_position[3])
    }

    /// Moves the piece to `new_position` if the game runs and the board
    /// allows it, and draws it there. Says whether it did; if not, nothing
    /// has changed.
    fn attempt_move(&mut self, new_position: [Coord; 4]) -> (moved: bool)
        requires
            old(self).wf(),
            points(new_position).no_duplicates(),
        ensures
            final(self).wf(),
            moved == old(self)@.grants(points(new_position)),
            final(self)@ == old(self)@.attempted(points(new_position)),
            !moved ==> final(self)@ == old(self)@,
            moved ==> final(self)@.drawn(),
    {
        if self.is_game_over {
            return false;
        }
        if !self.is_position_allowed(new_position) {
            return false;
        }
        self.block.prev_coords = self.block.coords;
        self.block.coords = new_position;
        self.update_cells();
        true
    }

    /// Asks to move the piece one row down.
    /// Says whether the piece moved; if not, nothing has changed.
    pub fn attempt_move_block_down(&mut self) -> (moved: bool)
        requires
            old(self).wf(),
        ensures
            final(self).wf(),
            moved == old(self)@.grants(
                translated(old(self)@.block.coords, Direction::Down),
            ),
            final(self)@ == old(self)@.attempted(
                translated(old(self)@.block.coords, Direction::Down),
            ),
            !moved ==> final(self)@ == old(self)@,
            moved ==> final(self)@.block.coords == translated(
                old(self)@.block.coords,
                Direction::Down,
            ),
            moved ==> all_in_bounds(
                final(self)@.width,
                final(self)@.height,
                final(self)@.block.coords,
            ),
            moved ==> final(self)@.drawn(),
    {
        if self.is_game_over {
            return false;
        }
        proof {
            lemma_candidates_representable(self@.width, self@.height, self@.block.coords);
            lemma_translated_distinct(self@.block.coords, Direction::Down);
        }
        let candidate = self.block.down_translation();
        self.attempt_move(candidate)
    }

    /// Asks to move the piece one column to the left.
    /// Says whether the piece moved; if not, nothing has changed.
    pub fn attempt_move_block_left(&mut self) -> (moved: bool)
        requires
            old(self).wf(),
        ensures
            final(self).wf(),
            moved == old(self)@.grants(
                translated(old(self)@.block.coords, Direction::Left),
            ),
            final(self)@ == old(self)@.attempted(
                translated(old(self)@.block.coords, Direction::Left),
            ),
            !moved ==> final(self)@ == old(self)@,
            moved ==> final(self)@.block.coords == translated(
                old(self)@.block.coords,
                Direction::Left,
            ),
            moved ==> all_in_bounds(
                final(self)@.width,
                final(self)@.height,
                final(self)@.block.coords,
            ),
            moved ==> final(self)@.drawn(),
    {
        if self.is_game_over {
            return false;
        }
        proof {
            lemma_candidates_representable(self@.width, self@.height, self@.block.coords);
            lemma_translated_distinct(self@.block.coords, Direction::Left);
        }
        let candidate = self.block.left_translation();
        self.attempt_move(candidate)
    }

    /// Asks to move the piece one column to the right.
    /// Says whether the piece moved; if not, nothing has changed.
    pub fn attempt_move_block_right(&mut self) -> (moved: bool)
        requires
            old(self).wf(),
        ensures
            final(self).wf(),
            moved == old(self)@.grants(
                translated(old(self)@.block.coords, Direction::Right),
            ),
            final(self)@ == old(self)@.attempted(
                translated(old(self)@.block.coords, Direction::Right),
            ),
            !moved ==> final(self)@ == old(self)@,
            moved ==> final(self)@.block.coords == translated(
                old(self)@.block.coords,
                Direction::Right,
            ),
            moved ==> all_in_bounds(
                final(self)@.width,
                final(self)@.height,
                final(self)@.block.coords,
            ),
            moved ==> final(self)@.drawn(),
    {
        if self.is_game_over {
            return false;
        }
        proof {
            lemma_candidates_representable(self@.width, self@.height, self@.block.coords);
            lemma_translated_distinct(self@.block.coords, Direction::Right);
        }
        let candidate = self.block.right_translation();
        self.attempt_move(candidate)
    }

    /// Asks to turn the piece a quarter turn clockwise around its first cell.
    /// Says whether the piece moved; if not, nothing has changed.
    pub fn attempt_rotate_clockwise(&mut self) -> (moved: bool)
        requires
            old(self).wf(),
        ensures
            final(self).wf(),
            moved == old(self)@.grants(
                rotated(old(self)@.block.coords, true),
            ),
            final(self)@ == old(self)@.attempted(
                rotated(old(self)@.block.coords, true),
            ),
            !moved ==> final(self)@ == old(self)@,
            moved ==> final(self)@.block.coords == rotated(old(self)@.block.coords, true),
            moved ==> all_in_bounds(
                final(self)@.width,
                final(self)@.height,
                final(self)@.block.coords,
            ),
            moved ==> final(self)@.drawn(),
    {
        if self.is_game_over {
            return false;
        }
        proof {
            lemma_candidates_representable(self@.width, self@.height, self@.block.coords);
            lemma_rotated_distinct(self@.block.coords, true);
        }
        let candidate = self.block.clockwise_rotation();
        self.attempt_move(candidate)
    }

    /// Asks to turn the piece a quarter turn counterclockwise around its first cell.
    /// Says whether the piece moved; if not, nothing has changed.
    pub fn attempt_rotate_counterclockwise(&mut self) -> (moved: bool)
        requires
            old(self).wf(),
        ensures
            final(self).wf(),
            moved == old(self)@.grants(
                rotated(old(self)@.block.coords, false),
            ),
            final(self)@ == old(self)@.attempted(
                rotated(old(self)@.block.coords, false),
            ),
            !moved ==> final(self)@ == old(self)@,
            moved ==> final(self)@.block.coords == rotated(old(self)@.block.coords, false),
            moved ==> all_in_bounds(
                final(self)@.width,
                final(self)@.height,
                final(self)@.block.coords,
            ),
            moved ==> final(self)@.drawn(),
    {
        if self.is_game_over {
            return false;
        }
        proof {
            lemma_candidates_representable(self@.width, self@.height, self@.block.coords);
            lemma_rotated_distinct(self@.block.coords, false);
        }
        let candidate = self.block.counterclockwise_rotation();
        self.attempt_move(candidate)
    }

    /// Whether every cell of row `y` is painted.
    fn row_is_complete(&self, y: u32) -> (complete: bool)
        requires
            self.cells@.len() == self.width * self.height,
            1 <= y <= self.height,
        ensures
            complete == full(row(self.cells@, self.width as nat, y as int)),
    {
        let len = self.cells.len();
        let width: usize = self.width as usize;
        let above: usize = (y - 1) as usize;
        let ghost cells = row(self.cells@, self.width as nat, y as int);
        proof {
            lemma_row_span(self.width as nat, self.height as nat, y as int);
            assert(above * width == (y - 1) * (self.width as nat));
        }
        let start: usize = above * width;
        let mut complete = true;
        let mut column: usize = 0;
        while column < width
            invariant
                column <= width,
                start + width <= len,
                len == self.cells@.len(),
                cells == self.cells@.subrange(start as int, start + width),
                complete == forall|j: int| 0 <= j < column ==> (#[trigger] cells[j]).occupied(),
            decreases width - column,
        {
            assert(cells[column as int] == self.cells@[start + column]);
            if self.cells[start + column] == Cell::Off {
                complete = false;
            }
            column += 1;
        }
        complete
    }

    /// Takes row `y` out of the grid: every row above it moves one row
    /// down, and the top row becomes empty.
    fn remove_row(&mut self, y: u32)
        requires
            old(self).cells@.len() == old(self).width * old(self).height,
            1 <= y <= old(self).height,
        ensures
            final(self).cells@ == blank(old(self).width as nat) + old(self).cells@.subrange(
                0,
                (y - 1) * old(self).width,
            ) + old(self).cells@.subrange(y * old(self).width, old(self).cells@.len() as int),
            *final(self) == (Board { cells: final(self).cells, ..*old(self) }),
    {
        let len = self.cells.len();
        let width: usize = self.width as usize;
        let rows: usize = y as usize;
        let ghost before = self.cells@;
        proof {
            lemma_row_span(self.width as nat, self.height as nat, y as int);
            assert(rows * width == y * (self.width as nat));
        }
        let end: usize = rows * width;
        let mut k: usize = end;
        while k > width
            invariant
                width <= k <= end <= len,
                len == before.len(),
                self.cells@.len() == len,
                *self == (Board { cells: self.cells, ..*old(self) }),
                forall|j: int| 0 <= j < k ==> #[trigger] self.cells@[j] == before[j],
                forall|j: int| k <= j < end ==> #[trigger] self.cells@[j] == before[j - width],
                forall|j: int| end <= j < len ==> #[trigger] self.cells@[j] == before[j],
            decreases k,
        {
            k -= 1;
            let value = self.cells[k - width];
            self.cells.set(k, value);
        }
        let mut column: usize = 0;
        while column < width
            invariant
                column <= width <= end <= len,
                len == before.len(),
                self.cells@.len() == len,
                *self == (Board { cells: self.cells, ..*old(self) }),
                forall|j: int| 0 <= j < column ==> #[trigger] self.cells@[j] == Cell::Off,
                forall|j: int| column <= j < width ==> #[trigger] self.cells@[j] == before[j],
                forall|j: int| width <= j < end ==> #[trigger] self.cells@[j] == before[j - width],
                forall|j: int| end <= j < len ==> #[trigger] self.cells@[j] == before[j],
            decreases width - column,
        {
            self.cells.set(column, Cell::Off);
            column += 1;
        }
        assert(self.cells@ =~= blank(self.width as nat) + before.subrange(0, end - width)
            + before.subrange(end as int, len as int));
    }

    /// Whether every coordinate of `footprint` lies on the grid, on an
    /// empty cell.
    fn is_vacant(&self, footprint: &[Coord; 4]) -> (free: bool)
        requires
            self.cells@.len() == self.width * self.height,
        ensures
            free == vacant(
                self.cells@,
                self.width as nat,
                self.height as nat,
                points(*footprint),
            ),
    {
        let ghost s = points(*footprint);
        assert(s[0] == footprint[0]@ && s[1] == footprint[1]@ && s[2] == footprint[2]@ && s[3]
            == footprint[3]@);
        let mut free = true;
        let mut i: usize = 0;
        while i < 4
            invariant
                i <= 4,
                self.cells@.len() == self.width * self.height,
                s == points(*footprint),
                free == vacant(
                    self.cells@,
                    self.width as nat,
                    self.height as nat,
                    s.take(i as int),
                ),
            decreases 4 - i,
        {
            let coord = footprint[i];
            assert(s[i as int] == coord@);
            let ghost shorter = s.take(i as int);
            let ghost longer = s.take(i + 1);
            assert(forall|j: int| 0 <= j < i ==> longer[j] == shorter[j]);
            assert(longer[i as int] == coord@);
            if !self.contains(coord) {
                free = false;
            } else {
                let index = self.get_index(coord);
                if self.cells[index] != Cell::Off {
                    free = false;
                }
            }
            i += 1;
        }
        assert(s.take(4) =~= s);
        free
    }

    /// Ends the game if a piece of shape `next` cannot enter: if one of its
    /// starting cells is off the grid or painted. Nothing else changes.
    pub fn check_for_game_over(&mut self, next: Shape)
        requires
            old(self).wf(),
        ensures
            final(self).wf(),
            final(self)@ == old(self)@.judged(next),
    {
        let fresh = Block::new(next);
        if !self.is_vacant(&fresh.coords) {
            self.is_game_over = true;
        }
    }

    /// Locks the piece: clears every full row, moving the rows above it
    /// down, counts the rows cleared, and lets a piece of shape `next`
    /// enter unless the game ends. A finished game is left as it is.
    pub fn on_stick(&mut self, next: Shape)
        requires
            old(self).wf(),
        ensures
            final(self).wf(),
            final(self)@ == old(self)@.locked(next),
            old(self)@.is_game_over ==> final(self)@ == old(self)@,
            final(self)@.line_count >= old(self)@.line_count,
    {
        if self.is_game_over {
            return ;
        }
        let ghost before = self.cells@;
        let ghost width = self.width as nat;
        let ghost height = self.height as nat;
        let mut cleared: u32 = 0;
        let mut y: u32 = 0;
        assert(self.cells@ =~= collapse(before, width, 0) + before.subrange(
            0,
            before.len() as int,
        ));
        proof {
            assert(0 * width == 0) by (nonlinear_arith);
            assert(height * width == width * height) by (nonlinear_arith);
        }
        while y < self.height
            invariant
                y <= self.height,
                width == self.width,
                height == self.height,
                before.len() == width * height,
                height * width == width * height,
                *self == (Board { cells: self.cells, ..*old(self) }),
                self.cells@.len() == before.len(),
                self.cells@ == collapse(before, width, y as nat) + before.subrange(
                    y * width,
                    (height * width) as int,
                ),
                cleared == full_rows(before, width, y as nat),
                cleared <= y,
            decreases self.height - y,
        {
            let ghost current = self.cells@;
            y += 1;
            proof {
                lemma_row_span(width, height, y as int);
                lemma_collapse_len(before, width, height, (y - 1) as nat);
                assert(row(current, width, y as int) =~= row(before, width, y as int));
            }
            if self.row_is_complete(y) {
                self.remove_row(y);
                cleared += 1;
                assert(self.cells@ =~= collapse(before, width, y as nat) + before.subrange(
                    y * width,
                    (height * width) as int,
                ));
            } else {
                assert(self.cells@ =~= collapse(before, width, y as nat) + before.subrange(
                    y * width,
                    (height * width) as int,
                ));
            }
        }
        assert(self.cells@ =~= collapse(before, width, height));
        self.line_count = self.line_count.saturating_add(cleared);
        assert(self@ == old(self)@.settled());
        self.check_for_game_over(next);
        if !self.is_game_over {
            proof {
                lemma_spawn_points_distinct(next);
            }
            self.block = Block::new(next);
        }
    }

    /// Advances the game by one step. A finished game stays as it is. The
    /// tick after a lock only draws the piece that entered. Any other tick
    /// moves the piece one row down or, where it cannot fall, locks it;
    /// `next` is the shape of the piece that enters then.
    pub fn tick(&mut self, next: Shape)
        requires
            old(self).wf(),
        ensures
            final(self).wf(),
            final(self)@ == old(self)@.ticked(next),
            old(self)@.is_game_over ==> final(self)@ == old(self)@,
            final(self)@.line_count >= old(self)@.line_count,
    {
        if self.is_game_over {
            return ;
        }
        if self.is_stuck {
            self.is_stuck = false;
            self.update_cells();
            return ;
        }
        self.is_stuck = !self.attempt_move_block_down();
        if self.is_stuck {
            self.on_stick(next);
        }
    }

    /// A fresh board of the given size whose first piece has shape `first`:
    /// every cell empty, nothing counted, the piece falling. On a grid too
    /// small to hold the piece the game is over from the start.
    pub fn new(width: u32, height: u32, first: Shape) -> (board: Board)
        requires
            width * height <= usize::MAX,
        ensures
            board.wf(),
            board@ == BoardState::fresh(width as nat, height as nat, first),
    {
        let count: usize = (width as usize) * (height as usize);
        let mut cells: Vec<Cell> = Vec::new();
        let mut i: usize = 0;
        while i < count
            invariant
                i <= count,
                cells@ == blank(i as nat),
            decreases count - i,
        {
            cells.push(Cell::Off);
            assert(cells@ =~= blank((i + 1) as nat));
            i += 1;
        }
        let block = Block::new(first);
        let mut board = Board {
            line_count: 0,
            width,
            height,
            cells,
            block,
            is_stuck: false,
            is_game_over: false,
        };
        let ghost s = points(block.coords);
        assert(s[0] == block.coords[0]@ && s[1] == block.coords[1]@ && s[2] == block.coords[2]@
            && s[3] == block.coords[3]@);
        let fits = board.contains(block.coords[0]) && board.contains(block.coords[1])
            && board.contains(block.coords[2]) && board.contains(block.coords[3]);
        board.is_game_over = !fits;
        proof {
            lemma_spawn_points_distinct(first);
        }
        board
    }

    /// A board with the given grid, piece and count of cleared rows, the
    /// piece falling. There is one if and only if the grid has
    /// `width * height` cells and the piece lies on it, as do the cells it
    /// covered before, and covers four different cells.
    pub fn with_cells(
        width: u32,
        height: u32,
        cells: Vec<Cell>,
        block: Block,
        line_count: u32,
    ) -> (board: Option<Board>)
        ensures
            board is Some <==> BoardState::arranged(
                width as nat,
                height as nat,
                cells@,
                block@,
                line_count as nat,
            ).wf(),
            board matches Some(b) ==> b.wf() && b@ == BoardState::arranged(
                width as nat,
                height as nat,
                cells@,
                block@,
                line_count as nat,
            ),
    {
        assert(width * height <= 0xffff_ffff * 0xffff_ffff) by (nonlinear_arith)
            requires
                width <= 0xffff_ffff,
                height <= 0xffff_ffff,
        ;
        let count: u64 = (width as u64) * (height as u64);
        if cells.len() as u64 != count {
            return None;
        }
        let board = Board {
            line_count,
            width,
            height,
            cells,
            block,
            is_stuck: false,
            is_game_over: false,
        };
        let ghost s = points(block.coords);
        let ghost t = points(block.prev_coords);
        assert(s[0] == block.coords[0]@ && s[1] == block.coords[1]@ && s[2] == block.coords[2]@
            && s[3] == block.coords[3]@);
        assert(t[0] == block.prev_coords[0]@ && t[1] == block.prev_coords[1]@ && t[2]
            == block.prev_coords[2]@ && t[3] == block.prev_coords[3]@);
        let on_grid = board.contains(block.coords[0]) && board.contains(block.coords[1])
            && board.contains(block.coords[2]) && board.contains(block.coords[3])
            && board.contains(block.prev_coords[0]) && board.contains(block.prev_coords[1])
            && board.contains(block.prev_coords[2]) && board.contains(block.prev_coords[3]);
        let distinct = block.coords[0] != block.coords[1] && block.coords[0] != block.coords[2]
            && block.coords[0] != block.coords[3] && block.coords[1] != block.coords[2]
            && block.coords[1] != block.coords[3] && block.coords[2] != block.coords[3];
        if on_grid && distinct {
            Some(board)
        } else {
            None
        }
    }

    /// The number of columns.
    pub fn width(&self) -> (width: u32)
        ensures
            width == self@.width,
    {
        self.width
    }

    /// The number of rows.
    pub fn height(&self) -> (height: u32)
        ensures
            height == self@.height,
    {
        self.height
    }

    /// The grid, row by row from the top.
    pub fn cells(&self) -> (cells: &[Cell])
        ensures
            cells@ == self@.cells,
    {
        self.cells.as_slice()
    }

    /// How many rows have been cleared.
    pub fn line_count(&self) -> (count: u32)
        ensures
            count == self@.line_count,
    {
        self.line_count
    }

    /// Whether the game has ended.
    pub fn is_game_over(&self) -> (over: bool)
        ensures
            over == self@.is_game_over,
    {
        self.is_game_over
    }

    /// The falling piece.
    pub fn block(&self) -> (block: Block)
        ensures
            block@ == self@.block,
    {
        self.block
    }
}

} // verus!
