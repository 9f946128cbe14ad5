use tetris_core::gravity;
use tetris_core::shapes::shape_from_index;
use tetris_core::text::cast_with_capacity;
use tetris_core::tetromino::Tetromino;
use tetris_core::Rotation;
use tetris_core::Shape;

#[test]
fn matrix_default_states() {
    assert_eq!(Shape::I.matrix(), [4, 5, 6, 7]);
    assert_eq!(Shape::J.matrix(), [0, 4, 5, 6]);
    assert_eq!(Shape::L.matrix(), [3, 5, 6, 7]);
    assert_eq!(Shape::O.matrix(), [2, 3, 6, 7]);
    assert_eq!(Shape::S.matrix(), [2, 3, 5, 6]);
    assert_eq!(Shape::Z.matrix(), [0, 1, 5, 6]);
    assert_eq!(Shape::T.matrix(), [1, 4, 5, 6]);
}

#[test]
fn texture_offsets_per_shape() {
    assert_eq!(Shape::I.texture_offset(), 90);
    assert_eq!(Shape::J.texture_offset(), 0);
    assert_eq!(Shape::L.texture_offset(), 108);
    assert_eq!(Shape::O.texture_offset(), 72);
    assert_eq!(Shape::S.texture_offset(), 54);
    assert_eq!(Shape::Z.texture_offset(), 36);
    assert_eq!(Shape::T.texture_offset(), 18);
}

#[test]
fn rotation_tables() {
    assert_eq!(Shape::I.rotation_cells(0), [4, 5, 6, 7]);
    assert_eq!(Shape::I.rotation_cells(1), [2, 6, 10, 14]);
    assert_eq!(Shape::I.rotation_cells(2), [8, 9, 10, 11]);
    assert_eq!(Shape::I.rotation_cells(3), [1, 5, 9, 13]);
    for a in 0..4u8 {
        assert_eq!(Shape::O.rotation_cells(a), [2, 3, 6, 7]);
    }
    assert_eq!(Shape::T.rotation_cells(1), [1, 5, 6, 9]);
    assert_eq!(Shape::Z.rotation_cells(3), [1, 4, 5, 8]);
}

#[test]
fn shape_index_covers_all_seven() {
    assert_eq!(shape_from_index(0), Shape::I);
    assert_eq!(shape_from_index(1), Shape::T);
    assert_eq!(shape_from_index(2), Shape::L);
    assert_eq!(shape_from_index(3), Shape::J);
    assert_eq!(shape_from_index(4), Shape::S);
    assert_eq!(shape_from_index(5), Shape::Z);
    assert_eq!(shape_from_index(6), Shape::O);
}

#[test]
fn rotate_four_times_restores_piece() {
    for shape in [Shape::I, Shape::T, Shape::L, Shape::J, Shape::S, Shape::Z, Shape::O] {
        let original = Tetromino::new(shape);
        let mut t = original;
        for _ in 0..4 {
            t.rotate(Rotation::Right);
        }
        assert_eq!(t, original);
        assert_eq!(t.get_real_coord(), original.get_real_coord());
        for _ in 0..4 {
            t.rotate(Rotation::Left);
        }
        assert_eq!(t, original);
    }
}

#[test]
fn rotate_left_then_right_cancels() {
    let original = Tetromino::new(Shape::J);
    let mut t = original;
    t.rotate(Rotation::Left);
    assert_eq!(t.r_angle, 3);
    t.rotate(Rotation::Right);
    assert_eq!(t, original);
}

#[test]
fn make_move_translates_one_cell() {
    let mut t = Tetromino::new(Shape::S);
    let (x0, y0) = (t.pos_x, t.pos_y);
    t.make_move(1, 0);
    assert_eq!((t.pos_x, t.pos_y), (x0 + 1, y0));
    t.make_move(-1, 0);
    t.make_move(1, 1);
    assert_eq!((t.pos_x, t.pos_y), (x0, y0 + 1));
}

#[test]
fn real_coords_are_position_plus_offsets() {
    let t = Tetromino::new(Shape::I);
    // Positions 4,5,6,7 of the 4x4 box: row 1, columns 0..4.
    assert_eq!(t.get_real_coord(), vec![(4, 1), (5, 1), (6, 1), (7, 1)]);
    let mut o = Tetromino::new(Shape::O);
    o.make_move(1, 1);
    assert_eq!(o.get_real_coord(), vec![(6, 1), (7, 1), (6, 2), (7, 2)]);
}

#[test]
fn collides_with_borders_and_pieces() {
    let t = Tetromino::new(Shape::I);
    assert!(!t.collides_with(None, 10, 20));
    let mut left = Tetromino::new(Shape::I);
    for _ in 0..5 {
        left.make_move(-1, 0);
    }
    assert!(left.collides_with(None, 10, 20));
    let mut deep = Tetromino::new(Shape::I);
    for _ in 0..19 {
        deep.make_move(1, 1);
    }
    assert!(deep.collides_with(None, 10, 20));
    let other = Tetromino::new(Shape::T);
    assert!(t.collides_with(Some(&other), 10, 20));
    let mut far = Tetromino::new(Shape::T);
    for _ in 0..10 {
        far.make_move(1, 1);
    }
    assert!(!t.collides_with(Some(&far), 10, 20));
}

#[test]
fn deactivate_stops_falling() {
    let mut t = Tetromino::new(Shape::L);
    assert!(t.is_active());
    assert!(!t.stops_falling());
    t.deactivate();
    assert!(!t.is_active());
    assert!(t.stops_falling());
}

#[test]
fn canonical_positions() {
    let mut t = Tetromino::new(Shape::T);
    t.rotate(Rotation::Right);
    t.make_move(1, 0);
    t.set_default_pos();
    assert_eq!((t.pos_x, t.pos_y, t.r_angle), (4, 0, 0));
    t.set_for_next();
    assert_eq!((t.pos_x, t.pos_y, t.r_angle), (12, 0, 0));
    t.set_to_pocket();
    assert_eq!((t.pos_x, t.pos_y, t.r_angle), (14, 24, 0));
    assert_eq!(*t.id(), Shape::T);
}

#[test]
fn amplifier_table() {
    assert_eq!(gravity::amplifier(1), 10);
    assert_eq!(gravity::amplifier(2), 9);
    assert_eq!(gravity::amplifier(5), 6);
    assert_eq!(gravity::amplifier(9), 2);
    assert_eq!(gravity::amplifier(10), 1);
    assert_eq!(gravity::amplifier(200), 1);
}

#[test]
fn amplifier_level_nine_beats_level_one() {
    // Level 9 falls faster: smaller amplifier, strictly smaller threshold.
    assert!(gravity::amplifier(9) < gravity::amplifier(1));
    assert!(
        gravity::tick_threshold(9, false, false) < gravity::tick_threshold(1, false, false)
    );
}

#[test]
fn thresholds_per_modifier() {
    assert_eq!(gravity::tick_threshold(1, false, false), 50);
    assert_eq!(gravity::tick_threshold(9, false, false), 10);
    assert_eq!(gravity::tick_threshold(10, false, false), 5);
    assert_eq!(gravity::tick_threshold(1, true, false), 5);
    assert_eq!(gravity::tick_threshold(1, false, true), 0);
    assert_eq!(gravity::tick_threshold(9, true, true), 0);
}

#[test]
fn cast_pads_with_leading_zeros() {
    assert_eq!(cast_with_capacity(123, 6), "000123");
    assert_eq!(cast_with_capacity(0, 3), "000");
    assert_eq!(cast_with_capacity(7, 1), "7");
    assert_eq!(cast_with_capacity(65535, 2), "65535");
    assert_eq!(cast_with_capacity(80, 6), "000080");
}
