use tetris::block::{Block, BlockTemplate, Shape, SHAPE_COUNT};
use tetris::cell::Cell;
use tetris::coord::{Coord, Direction};

fn at(x: i64, y: i64) -> Coord {
    Coord { x, y }
}

fn four(a: (i64, i64), b: (i64, i64), c: (i64, i64), d: (i64, i64)) -> [Coord; 4] {
    [at(a.0, a.1), at(b.0, b.1), at(c.0, c.1), at(d.0, d.1)]
}

fn all_shapes() -> [Shape; 7] {
    [Shape::T, Shape::J, Shape::Z, Shape::O, Shape::S, Shape::L, Shape::I]
}

fn placed(coords: [Coord; 4], color: Cell) -> Block {
    Block { coords, prev_coords: coords, color }
}

#[test]
fn shift_moves_one_step() {
    assert_eq!(at(5, 2).shift(Direction::Left), at(4, 2));
    assert_eq!(at(5, 2).shift(Direction::Right), at(6, 2));
    assert_eq!(at(5, 2).shift(Direction::Down), at(5, 3));
}

#[test]
fn shift_left_of_first_column_gives_column_zero() {
    assert_eq!(at(1, 1).shift(Direction::Left), at(0, 1));
    assert_eq!(at(0, 1).shift(Direction::Left), at(-1, 1));
}

#[test]
fn turn_clockwise_uses_the_delta_formula() {
    // dx = -1, dy = 0: (px - dy, py + dx) = (5, 1)
    assert_eq!(at(4, 2).turn(at(5, 2), true), at(5, 1));
    // dx = 0, dy = -1: (px - dy, py + dx) = (6, 2)
    assert_eq!(at(5, 1).turn(at(5, 2), true), at(6, 2));
    // dx = 2, dy = 3: (px - dy, py + dx) = (7, 22)
    assert_eq!(at(12, 23).turn(at(10, 20), true), at(7, 22));
}

#[test]
fn turn_counterclockwise_uses_the_delta_formula() {
    // dx = -1, dy = 0: (px + dy, py - dx) = (5, 3)
    assert_eq!(at(4, 2).turn(at(5, 2), false), at(5, 3));
    // dx = 0, dy = -1: (px + dy, py - dx) = (4, 2)
    assert_eq!(at(5, 1).turn(at(5, 2), false), at(4, 2));
    // dx = 2, dy = 3: (px + dy, py - dx) = (13, 18)
    assert_eq!(at(12, 23).turn(at(10, 20), false), at(13, 18));
}

#[test]
fn turn_keeps_the_pivot() {
    assert_eq!(at(5, 2).turn(at(5, 2), true), at(5, 2));
    assert_eq!(at(5, 2).turn(at(5, 2), false), at(5, 2));
}

#[test]
fn turn_may_leave_the_grid() {
    assert_eq!(at(1, 3).turn(at(1, 1), true), at(-1, 1));
    assert_eq!(at(3, 1).turn(at(1, 1), false), at(1, -1));
}

#[test]
fn four_turns_of_a_coordinate_restore_it() {
    for clockwise in [true, false] {
        let pivot = at(5, 2);
        let start = at(7, -3);
        let mut c = start;
        for _ in 0..4 {
            c = c.turn(pivot, clockwise);
            assert_eq!(c.turn(pivot, !clockwise).turn(pivot, clockwise), c);
        }
        assert_eq!(c, start);
    }
}

#[test]
fn catalog_has_seven_shapes_in_order() {
    assert_eq!(SHAPE_COUNT, 7);
    assert_eq!(Shape::from_index(0), Some(Shape::T));
    assert_eq!(Shape::from_index(1), Some(Shape::J));
    assert_eq!(Shape::from_index(2), Some(Shape::Z));
    assert_eq!(Shape::from_index(3), Some(Shape::O));
    assert_eq!(Shape::from_index(4), Some(Shape::S));
    assert_eq!(Shape::from_index(5), Some(Shape::L));
    assert_eq!(Shape::from_index(6), Some(Shape::I));
}

#[test]
fn catalog_has_nothing_past_the_seventh_shape() {
    assert_eq!(Shape::from_index(7), None);
    assert_eq!(Shape::from_index(8), None);
    assert_eq!(Shape::from_index(usize::MAX), None);
}

#[test]
fn new_block_starts_at_its_template() {
    let expected = [
        (Shape::T, four((5, 2), (4, 2), (5, 1), (6, 2)), Cell::Color1),
        (Shape::J, four((5, 2), (4, 1), (4, 2), (6, 2)), Cell::Color2),
        (Shape::Z, four((5, 2), (4, 1), (5, 1), (6, 2)), Cell::Color3),
        (Shape::O, four((5, 1), (6, 1), (5, 2), (6, 2)), Cell::Color1),
        (Shape::S, four((5, 2), (4, 2), (5, 1), (6, 1)), Cell::Color2),
        (Shape::L, four((5, 2), (4, 2), (6, 2), (6, 1)), Cell::Color3),
        (Shape::I, four((5, 1), (4, 1), (6, 1), (7, 1)), Cell::Color1),
    ];
    for (shape, coords, color) in expected {
        let block = Block::new(shape);
        assert_eq!(block.coords, coords);
        assert_eq!(block.prev_coords, coords);
        assert_eq!(block.color, color);
    }
}

#[test]
fn new_block_covers_four_different_cells() {
    for shape in all_shapes() {
        let block = Block::new(shape);
        for i in 0..4 {
            for j in 0..4 {
                if i != j {
                    assert_ne!(block.coords[i], block.coords[j]);
                }
            }
        }
    }
}

#[test]
fn templates_are_the_same_each_time() {
    for shape in all_shapes() {
        assert_eq!(BlockTemplate::of(shape), BlockTemplate::of(shape));
    }
    assert_ne!(BlockTemplate::of(Shape::T), BlockTemplate::of(Shape::S));
}

#[test]
fn translations_of_the_t_piece() {
    let block = Block::new(Shape::T);
    assert_eq!(block.down_translation(), four((5, 3), (4, 3), (5, 2), (6, 3)));
    assert_eq!(block.left_translation(), four((4, 2), (3, 2), (4, 1), (5, 2)));
    assert_eq!(block.right_translation(), four((6, 2), (5, 2), (6, 1), (7, 2)));
}

#[test]
fn translation_by_direction_matches_the_named_ones() {
    for shape in all_shapes() {
        let block = Block::new(shape);
        assert_eq!(block.translation(Direction::Down), block.down_translation());
        assert_eq!(block.translation(Direction::Left), block.left_translation());
        assert_eq!(block.translation(Direction::Right), block.right_translation());
    }
}

#[test]
fn rotations_of_the_t_piece() {
    let block = Block::new(Shape::T);
    assert_eq!(block.clockwise_rotation(), four((5, 2), (5, 1), (6, 2), (5, 3)));
    assert_eq!(block.counterclockwise_rotation(), four((5, 2), (5, 3), (4, 2), (5, 1)));
    assert_eq!(block.rotation(true), block.clockwise_rotation());
    assert_eq!(block.rotation(false), block.counterclockwise_rotation());
}

#[test]
fn rotation_of_the_i_piece_leaves_the_top() {
    let block = Block::new(Shape::I);
    assert_eq!(block.clockwise_rotation(), four((5, 1), (5, 0), (5, 2), (5, 3)));
    assert_eq!(block.counterclockwise_rotation(), four((5, 1), (5, 2), (5, 0), (5, -1)));
}

#[test]
fn transforms_leave_the_block_alone() {
    let block = Block::new(Shape::L);
    let before = block;
    let _ = block.down_translation();
    let _ = block.left_translation();
    let _ = block.right_translation();
    let _ = block.clockwise_rotation();
    let _ = block.counterclockwise_rotation();
    assert_eq!(block, before);
}

#[test]
fn four_rotations_restore_every_shape() {
    for shape in all_shapes() {
        for clockwise in [true, false] {
            let start = Block::new(shape);
            let mut block = start;
            for _ in 0..4 {
                block = placed(block.rotation(clockwise), block.color);
                assert_eq!(block.coords[0], start.coords[0]);
            }
            assert_eq!(block.coords, start.coords);
        }
    }
}

#[test]
fn opposite_rotations_cancel() {
    for shape in all_shapes() {
        let start = Block::new(shape);
        let turned = placed(start.clockwise_rotation(), start.color);
        assert_eq!(turned.counterclockwise_rotation(), start.coords);
        let back = placed(start.counterclockwise_rotation(), start.color);
        assert_eq!(back.clockwise_rotation(), start.coords);
    }
}

#[test]
fn transforms_keep_cells_different() {
    for shape in all_shapes() {
        let block = Block::new(shape);
        let candidates = [
            block.down_translation(),
            block.left_translation(),
            block.right_translation(),
            block.clockwise_rotation(),
            block.counterclockwise_rotation(),
        ];
        for candidate in candidates {
            for i in 0..4 {
                for j in (i + 1)..4 {
                    assert_ne!(candidate[i], candidate[j]);
                }
            }
        }
    }
}
