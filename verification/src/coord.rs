use vstd::prelude::*;

verus! {

/// A grid position as a pair of mathematical integers: column first, row second.
/// Columns count from 1 at the left edge, rows from 1 at the top.
pub type Point = (int, int);

/// A grid position, counted from 1 along both axes.
#[derive(Clone, Copy, Debug, PartialEq, Eq, Structural)]
pub struct Coord {
    pub x: i64,
    pub y: i64,
}

/// The three ways a piece can be pushed.
#[derive(Clone, Copy, Debug, PartialEq, Eq, Structural)]
pub enum Direction {
    Left,
    Right,
    Down,
}

impl View for Coord {
    type V = Point;

    open spec fn view(&self) -> Point {
        (self.x as int, self.y as int)
    }
}

/// Whether both components of `p` can be stored in a `Coord`.
pub open spec fn representable(p: Point) -> bool {
    &&& i64::MIN <= p.0 <= i64::MAX
    &&& i64::MIN <= p.1 <= i64::MAX
}

/// The position one step from `p` in direction `d`: left lowers the column,
/// right raises it, down raises the row.
pub open spec fn shifted(p: Point, d: Direction) -> Point {
    match d {
        Direction::Left => (p.0 - 1, p.1),
        Direction::Right => (p.0 + 1, p.1),
        Direction::Down => (p.0, p.1 + 1),
    }
}

/// The position of `p` after a quarter turn around `pivot`.
///
/// With `dx = p.0 - pivot.0` and `dy = p.1 - pivot.1`, a clockwise turn gives
/// `(pivot.0 - dy, pivot.1 + dx)` and a counterclockwise turn gives
/// `(pivot.0 + dy, pivot.1 - dx)`.
pub open spec fn turned(pivot: Point, p: Point, clockwise: bool) -> Point {
    let dx = p.0 - pivot.0;
    let dy = p.1 - pivot.1;
    if clockwise {
        (pivot.0 - dy, pivot.1 + dx)
    } else {
        (pivot.0 + dy, pivot.1 - dx)
    }
}

/// The offset of `p` from `pivot`.
pub open spec fn offset(pivot: Point, p: Point) -> Point {
    (p.0 - pivot.0, p.1 - pivot.1)
}

impl Coord {
    /// The coordinate one step away in direction `d`.
    pub fn shift(self, d: Direction) -> (c: Coord)
        requires
            representable(shifted(self@, d)),
        ensures
            c@ == shifted(self@, d),
    {
        match d {
            Direction::Left => Coord { x: self.x - 1, y: self.y },
            Direction::Right => Coord { x: self.x + 1, y: self.y },
            Direction::Down => Coord { x: self.x, y: self.y + 1 },
        }
    }

    /// The coordinate after a quarter turn around `pivot`.
    pub fn turn(self, pivot: Coord, clockwise: bool) -> (c: Coord)
        requires
            representable(turned(pivot@, self@, clockwise)),
        ensures
            c@ == turned(pivot@, self@, clockwise),
    {
        let px: i128 = pivot.x as i128;
        let py: i128 = pivot.y as i128;
        let dx: i128 = self.x as i128 - px;
        let dy: i128 = self.y as i128 - py;
        if clockwise {
            Coord { x: (px - dy) as i64, y: (py + dx) as i64 }
        } else {
            Coord { x: (px + dy) as i64, y: (py - dx) as i64 }
        }
    }
}

/// A quarter turn leaves the pivot where it is.
pub proof fn lemma_turn_fixes_pivot(pivot: Point, clockwise: bool)
    ensures
        turned(pivot, pivot, clockwise) == pivot,
{
}

/// Four quarter turns in the same direction bring every position back to
/// where it started, and with it its offset from the pivot.
pub proof fn lemma_four_turns_are_identity(pivot: Point, p: Point, clockwise: bool)
    ensures
        ({
            let once = turned(pivot, p, clockwise);
            let twice = turned(pivot, once, clockwise);
            let thrice = turned(pivot, twice, clockwise);
            let back = turned(pivot, thrice, clockwise);
            back == p && offset(pivot, back) == offset(pivot, p)
        }),
{
}

/// A quarter turn followed by a quarter turn the other way is no turn at all.
pub proof fn lemma_opposite_turns_cancel(pivot: Point, p: Point, clockwise: bool)
    ensures
        turned(pivot, turned(pivot, p, clockwise), !clockwise) == p,
{
}

/// A step keeps distinct positions distinct.
pub proof fn lemma_shift_is_injective(p: Point, q: Point, d: Direction)
    ensures
        shifted(p, d) == shifted(q, d) <==> p == q,
{
}

/// A quarter turn keeps distinct positions distinct.
pub proof fn lemma_turn_is_injective(pivot: Point, p: Point, q: Point, clockwise: bool)
    ensures
        turned(pivot, p, clockwise) == turned(pivot, q, clockwise) <==> p == q,
{
}

} // verus!
