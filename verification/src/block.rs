use vstd::prelude::*;
use crate::cell::Cell;
use crate::coord::{representable, shifted, turned, Coord, Direction, Point};
use crate::coord::{lemma_shift_is_injective, lemma_turn_is_injective};

verus! {

/// The seven piece shapes.
#[derive(Clone, Copy, Debug, PartialEq, Eq, Structural)]
pub enum Shape {
    T,
    J,
    Z,
    O,
    S,
    L,
    I,
}

/// How many shapes there are.
pub const SHAPE_COUNT: usize = 7;

/// A shape's starting cells and its color.
#[derive(Clone, Copy, Debug, PartialEq, Eq)]
pub struct BlockTemplate {
    starting_coords: [Coord; 4],
    color: Cell,
}

/// The falling piece: the four cells it covers, the four it covered before
/// its last accepted move, and its color.
#[derive(Clone, Copy, Debug, PartialEq, Eq)]
pub struct Block {
    pub coords: [Coord; 4],
    pub prev_coords: [Coord; 4],
    pub color: Cell,
}

/// A piece as mathematics sees it.
pub struct BlockView {
    pub coords: Seq<Point>,
    pub prev_coords: Seq<Point>,
    pub color: Cell,
}

/// The four positions held by an array of coordinates, in order.
pub open spec fn points(a: [Coord; 4]) -> Seq<Point> {
    Seq::new(4, |i: int| a[i]@)
}

/// Every position of `s`, one step further in direction `d`.
pub open spec fn translated(s: Seq<Point>, d: Direction) -> Seq<Point> {
    Seq::new(s.len(), |i: int| shifted(s[i], d))
}

/// Every position of `s` after a quarter turn around the first one.
pub open spec fn rotated(s: Seq<Point>, clockwise: bool) -> Seq<Point> {
    Seq::new(s.len(), |i: int| turned(s[0], s[i], clockwise))
}

/// Whether every position of `s` can be stored in a `Coord`.
pub open spec fn all_representable(s: Seq<Point>) -> bool {
    forall|i: int| 0 <= i < s.len() ==> representable(#[trigger] s[i])
}

/// Where a piece of the given shape starts: near the top, centered on a
/// board ten columns wide. The first position is the pivot of its turns.
pub open spec fn spawn_points(shape: Shape) -> Seq<Point> {
    match shape {
        Shape::T => seq![(5int, 2int), (4int, 2int), (5int, 1int), (6int, 2int)],
        Shape::J => seq![(5int, 2int), (4int, 1int), (4int, 2int), (6int, 2int)],
        Shape::Z => seq![(5int, 2int), (4int, 1int), (5int, 1int), (6int, 2int)],
        Shape::O => seq![(5int, 1int), (6int, 1int), (5int, 2int), (6int, 2int)],
        Shape::S => seq![(5int, 2int), (4int, 2int), (5int, 1int), (6int, 1int)],
        Shape::L => seq![(5int, 2int), (4int, 2int), (6int, 2int), (6int, 1int)],
        Shape::I => seq![(5int, 1int), (4int, 1int), (6int, 1int), (7int, 1int)],
    }
}

/// The color of a piece of the given shape.
pub open spec fn spawn_color(shape: Shape) -> Cell {
    match shape {
        Shape::T => Cell::Color1,
        Shape::J => Cell::Color2,
        Shape::Z => Cell::Color3,
        Shape::O => Cell::Color1,
        Shape::S => Cell::Color2,
        Shape::L => Cell::Color3,
        Shape::I => Cell::Color1,
    }
}

/// A piece of the given shape as it enters the board: its previous cells
/// are its starting cells.
pub open spec fn spawned(shape: Shape) -> BlockView {
    BlockView {
        coords: spawn_points(shape),
        prev_coords: spawn_points(shape),
        color: spawn_color(shape),
    }
}

impl Shape {
    /// The shape's place in the catalog, counted from 0.
    pub open spec fn ordinal(self) -> int {
        match self {
            Shape::T => 0,
            Shape::J => 1,
            Shape::Z => 2,
            Shape::O => 3,
            Shape::S => 4,
            Shape::L => 5,
            Shape::I => 6,
        }
    }

    /// The shape at place `index` of the catalog, if there is one. A caller
    /// that draws `index` uniformly below `SHAPE_COUNT` draws a shape
    /// uniformly.
    pub fn from_index(index: usize) -> (shape: Option<Shape>)
        ensures
            shape is Some <==> index < SHAPE_COUNT,
            shape matches Some(s) ==> s.ordinal() == index,
    {
        if index == 0 {
            Some(Shape::T)
        } else if index == 1 {
            Some(Shape::J)
        } else if index == 2 {
            Some(Shape::Z)
        } else if index == 3 {
            Some(Shape::O)
        } else if index == 4 {
            Some(Shape::S)
        } else if index == 5 {
            Some(Shape::L)
        } else if index == 6 {
            Some(Shape::I)
        } else {
            None
        }
    }
}

impl View for BlockTemplate {
    type V = (Seq<Point>, Cell);

    closed spec fn view(&self) -> (Seq<Point>, Cell) {
        (points(self.starting_coords), self.color)
    }
}

impl BlockTemplate {
    /// The catalog entry for `shape`.
    pub fn of(shape: Shape) -> (template: BlockTemplate)
        ensures
            template@ == (spawn_points(shape), spawn_color(shape)),
    {
        let template = match shape {
            Shape::T => BlockTemplate {
                starting_coords: [
                    Coord { x: 5, y: 2 },
                    Coord { x: 4, y: 2 },
                    Coord { x: 5, y: 1 },
                    Coord { x: 6, y: 2 },
                ],
                color: Cell::Color1,
            },
            Shape::J => BlockTemplate {
                starting_coords: [
                    Coord { x: 5, y: 2 },
                    Coord { x: 4, y: 1 },
                    Coord { x: 4, y: 2 },
                    Coord { x: 6, y: 2 },
                ],
                color: Cell::Color2,
            },
            Shape::Z => BlockTemplate {
                starting_coords: [
                    Coord { x: 5, y: 2 },
                    Coord { x: 4, y: 1 },
                    Coord { x: 5, y: 1 },
                    Coord { x: 6, y: 2 },
                ],
                color: Cell::Color3,
            },
            Shape::O => BlockTemplate {
                starting_coords: [
                    Coord { x: 5, y: 1 },
                    Coord { x: 6, y: 1 },
                    Coord { x: 5, y: 2 },
                    Coord { x: 6, y: 2 },
                ],
                color: Cell::Color1,
            },
            Shape::S => BlockTemplate {
                starting_coords: [
                    Coord { x: 5, y: 2 },
                    Coord { x: 4, y: 2 },
                    Coord { x: 5, y: 1 },
                    Coord { x: 6, y: 1 },
                ],
                color: Cell::Color2,
            },
            Shape::L => BlockTemplate {
                starting_coords: [
                    Coord { x: 5, y: 2 },
                    Coord { x: 4, y: 2 },
                    Coord { x: 6, y: 2 },
                    Coord { x: 6, y: 1 },
                ],
                color: Cell::Color3,
            },
            Shape::I => BlockTemplate {
                starting_coords: [
                    Coord { x: 5, y: 1 },
                    Coord { x: 4, y: 1 },
                    Coord { x: 6, y: 1 },
                    Coord { x: 7, y: 1 },
                ],
                color: Cell::Color1,
            },
        };
        assert(points(template.starting_coords) =~= spawn_points(shape));
        template
    }
}

impl View for Block {
    type V = BlockView;

    open spec fn view(&self) -> BlockView {
        BlockView {
            coords: points(self.coords),
            prev_coords: points(self.prev_coords),
            color: self.color,
        }
    }
}

impl Block {
    /// The piece's cells pushed one step in direction `d`. The piece itself
    /// stays as it is.
    pub fn translation(&self, d: Direction) -> (candidate: [Coord; 4])
        requires
            all_representable(translated(self@.coords, d)),
        ensures
            points(candidate) == translated(self@.coords, d),
    {
        proof {
            let t = translated(self@.coords, d);
            assert(representable(t[0]) && representable(t[1]) && representable(t[2])
                && representable(t[3]));
        }
        let candidate = [
            self.coords[0].shift(d),
            self.coords[1].shift(d),
            self.coords[2].shift(d),
            self.coords[3].shift(d),
        ];
        assert(points(candidate) =~= translated(self@.coords, d));
        candidate
    }

    /// The piece's cells one row further down.
    pub fn down_translation(&self) -> (candidate: [Coord; 4])
        requires
            all_representable(translated(self@.coords, Direction::Down)),
        ensures
            points(candidate) == translated(self@.coords, Direction::Down),
    {
        self.translation(Direction::Down)
    }

    /// The piece's cells one column further right.
    pub fn right_translation(&self) -> (candidate: [Coord; 4])
        requires
            all_representable(translated(self@.coords, Direction::Right)),
        ensures
            points(candidate) == translated(self@.coords, Direction::Right),
    {
        self.translation(Direction::Right)
    }

    /// The piece's cells one column further left.
    pub fn left_translation(&self) -> (candidate: [Coord; 4])
        requires
            all_representable(translated(self@.coords, Direction::Left)),
        ensures
            points(candidate) == translated(self@.coords, Direction::Left),
    {
        self.translation(Direction::Left)
    }

    /// The piece's cells after a quarter turn around its first cell. The
    /// piece itself stays as it is.
    pub fn rotation(&self, clockwise: bool) -> (candidate: [Coord; 4])
        requires
            all_representable(rotated(self@.coords, clockwise)),
        ensures
            points(candidate) == rotated(self@.coords, clockwise),
    {
        proof {
            let t = rotated(self@.coords, clockwise);
            assert(representable(t[0]) && representable(t[1]) && representable(t[2])
                && representable(t[3]));
        }
        let pivot = self.coords[0];
        let candidate = [
            self.coords[0].turn(pivot, clockwise),
            self.coords[1].turn(pivot, clockwise),
            self.coords[2].turn(pivot, clockwise),
            self.coords[3].turn(pivot, clockwise),
        ];
        assert(points(candidate) =~= rotated(self@.coords, clockwise));
        candidate
    }

    /// The piece's cells after a clockwise quarter turn.
    pub fn clockwise_rotation(&self) -> (candidate: [Coord; 4])
        requires
            all_representable(rotated(self@.coords, true)),
        ensures
            points(candidate) == rotated(self@.coords, true),
    {
        self.rotation(true)
    }

    /// The piece's cells after a counterclockwise quarter turn.
    pub fn counterclockwise_rotation(&self) -> (candidate: [Coord; 4])
        requires
            all_representable(rotated(self@.coords, false)),
        ensures
            points(candidate) == rotated(self@.coords, false),
    {
        self.rotation(false)
    }

    /// A fresh piece of the given shape at its starting cells.
    pub fn new(shape: Shape) -> (block: Block)
        ensures
            block@ == spawned(shape),
    {
        let template = BlockTemplate::of(shape);
        Block {
            coords: template.starting_coords,
            prev_coords: template.starting_coords,
            color: template.color,
        }
    }
}

/// Two arrays that hold the same positions are the same array.
pub proof fn lemma_points_determine_array(a: [Coord; 4], b: [Coord; 4])
    requires
        points(a) == points(b),
    ensures
        a == b,
{
    assert forall|i: int| 0 <= i < 4 implies a[i] == b[i] by {
        assert(points(a)[i] == points(b)[i]);
    }
    assert(a =~= b);
}

/// Every shape starts on four different cells.
pub proof fn lemma_spawn_points_distinct(shape: Shape)
    ensures
        spawn_points(shape).len() == 4,
        spawn_points(shape).no_duplicates(),
{
}

/// A push keeps the cells of a piece different from one another.
pub proof fn lemma_translated_distinct(s: Seq<Point>, d: Direction)
    requires
        s.no_duplicates(),
    ensures
        translated(s, d).no_duplicates(),
{
    let t = translated(s, d);
    assert forall|i: int, j: int| 0 <= i < t.len() && 0 <= j < t.len() && i != j implies t[i]
        != t[j] by {
        lemma_shift_is_injective(s[i], s[j], d);
    }
}

/// A quarter turn keeps the cells of a piece different from one another.
pub proof fn lemma_rotated_distinct(s: Seq<Point>, clockwise: bool)
    requires
        s.no_duplicates(),
    ensures
        rotated(s, clockwise).no_duplicates(),
{
    let t = rotated(s, clockwise);
    assert forall|i: int, j: int| 0 <= i < t.len() && 0 <= j < t.len() && i != j implies t[i]
        != t[j] by {
        lemma_turn_is_injective(s[0], s[i], s[j], clockwise);
    }
}

/// Four quarter turns in the same direction bring a piece back to the cells
/// it started from, so every cell's offset from the pivot is what it was.
pub proof fn lemma_four_rotations_restore(s: Seq<Point>, clockwise: bool)
    ensures
        rotated(rotated(rotated(rotated(s, clockwise), clockwise), clockwise), clockwise) == s,
{
    let r1 = rotated(s, clockwise);
    let r2 = rotated(r1, clockwise);
    let r3 = rotated(r2, clockwise);
    let r4 = rotated(r3, clockwise);
    assert(r4.len() == s.len());
    assert forall|i: int| 0 <= i < s.len() implies r4[i] == s[i] by {
        assert(r1[0] == s[0]);
        assert(r2[0] == s[0]);
        assert(r3[0] == s[0]);
        assert(r1[i] == turned(s[0], s[i], clockwise));
        assert(r2[i] == turned(s[0], r1[i], clockwise));
        assert(r3[i] == turned(s[0], r2[i], clockwise));
        assert(r4[i] == turned(s[0], r3[i], clockwise));
    }
    assert(r4 =~= s);
}

/// A quarter turn followed by a quarter turn the other way restores the piece.
pub proof fn lemma_opposite_rotations_restore(s: Seq<Point>, clockwise: bool)
    ensures
        rotated(rotated(s, clockwise), !clockwise) == s,
{
    let r1 = rotated(s, clockwise);
    let r2 = rotated(r1, !clockwise);
    assert forall|i: int| 0 <= i < s.len() implies r2[i] == s[i] by {
        assert(r1[0] == s[0]);
        assert(r1[i] == turned(s[0], s[i], clockwise));
    }
    assert(r2 =~= s);
}

} // verus!
