use tetris_core::field::Field;
use tetris_core::tetromino::Tetromino;
use tetris_core::Rotation;
use tetris_core::Shape;

fn cells_in_row(f: &Field, y: usize) -> usize {
    f.locked_cells().iter().filter(|e| e.1 == y).count()
}

#[test]
fn new_board_state() {
    let f = Field::new(10, 20);
    assert_eq!(f.width, 10);
    assert_eq!(f.height, 20);
    assert_eq!(f.score, 0);
    assert_eq!(f.level, 1);
    assert_eq!(f.lines, 0);
    assert!(!f.game_over());
    assert!(!f.pocketed);
    assert!(f.pocket_piece().is_none());
    assert_eq!(f.locked_count(), 0);
    assert!(f.locked_cells().is_empty());
    assert_eq!((f.current_piece().pos_x, f.current_piece().pos_y), (4, 0));
    assert_eq!((f.preview_piece().pos_x, f.preview_piece().pos_y), (12, 0));
    assert_eq!(f.elapsed_time(), 0);
}

#[test]
fn move_into_wall_is_rejected() {
    let mut f = Field::new(10, 20);
    f.current = Tetromino::new(Shape::I);
    // The I piece spans columns 4..=7; four moves left put it against
    // the wall, the fifth must leave it unchanged.
    for _ in 0..4 {
        f.attempt_move(-1, 0);
    }
    assert_eq!(f.current.pos_x, 0);
    let before = f.current;
    f.attempt_move(-1, 0);
    assert_eq!(f.current, before);
    // Against the right wall likewise.
    for _ in 0..12 {
        f.attempt_move(1, 0);
    }
    assert_eq!(f.current.pos_x, 6);
    let before = f.current;
    f.attempt_move(1, 0);
    assert_eq!(f.current, before);
}

#[test]
fn move_onto_locked_cell_is_rejected() {
    let mut f = Field::new(10, 20);
    f.current = Tetromino::new(Shape::I);
    f.insert_locked(3, 1, 7);
    let before = f.current;
    f.attempt_move(-1, 0);
    assert_eq!(f.current, before);
    assert_eq!(f.locked_count(), 1);
}

#[test]
fn rotation_against_floor_is_reverted() {
    let mut f = Field::new(10, 20);
    f.current = Tetromino::new(Shape::I);
    // Drop the horizontal I to the bottom row.
    for _ in 0..18 {
        f.attempt_move(1, 1);
    }
    assert_eq!(f.current.pos_y, 18);
    let before = f.current;
    // Turning it upright would reach below the floor: silent no-op.
    f.rotate(Rotation::Right);
    assert_eq!(f.current, before);
    assert_eq!(f.current.r_angle, 0);
}

#[test]
fn rotation_in_free_space_commits() {
    let mut f = Field::new(10, 20);
    f.current = Tetromino::new(Shape::T);
    f.attempt_move(1, 1);
    f.rotate(Rotation::Right);
    assert_eq!(f.current.r_angle, 1);
    f.rotate(Rotation::Left);
    assert_eq!(f.current.r_angle, 0);
}

#[test]
fn hold_twice_second_call_has_no_effect() {
    let mut f = Field::new(10, 20);
    f.pocket();
    assert!(f.pocketed);
    let current = f.current;
    let next = f.next;
    let held = *f.pocket_piece();
    let score = f.score;
    f.pocket();
    assert_eq!(f.current, current);
    assert_eq!(f.next, next);
    assert_eq!(*f.pocket_piece(), held);
    assert_eq!(f.score, score);
    assert!(f.pocketed);
}

#[test]
fn hold_moves_current_to_pocket_and_spawns_preview() {
    let mut f = Field::new(10, 20);
    f.current = Tetromino::new(Shape::Z);
    let preview_shape = f.next.shape;
    f.pocket();
    let held = f.pocket_piece().unwrap();
    assert_eq!(held.shape, Shape::Z);
    assert_eq!((held.pos_x, held.pos_y, held.r_angle), (14, 24, 0));
    assert_eq!(f.current.shape, preview_shape);
    assert_eq!((f.current.pos_x, f.current.pos_y), (4, 0));
    assert_eq!((f.next.pos_x, f.next.pos_y), (12, 0));
}

#[test]
fn hold_swaps_with_occupied_pocket() {
    let mut f = Field::new(10, 20);
    f.current = Tetromino::new(Shape::Z);
    f.pocket();
    // A lock re-arms the hold; fake the end of the drop cycle.
    f.pocketed = false;
    f.current = Tetromino::new(Shape::L);
    f.pocket();
    assert_eq!(f.current.shape, Shape::Z);
    assert_eq!((f.current.pos_x, f.current.pos_y, f.current.r_angle), (4, 0, 0));
    assert_eq!(f.pocket_piece().unwrap().shape, Shape::L);
}

#[test]
fn drop_piece_locks_at_bottom() {
    let mut f = Field::new(10, 20);
    f.current = Tetromino::new(Shape::I);
    // 18 accepted downward moves reach the bottom row; the next one is
    // rejected and locks the piece.
    for _ in 0..19 {
        f.attempt_move(1, 1);
    }
    assert_eq!(f.locked_count(), 4);
    let cells = f.locked_cells();
    let mut cols: Vec<usize> = cells.iter().map(|e| e.0).collect();
    cols.sort();
    assert_eq!(cols, vec![4, 5, 6, 7]);
    assert!(cells.iter().all(|e| e.1 == 19));
    // The I color id accompanies each cell.
    assert!(cells.iter().all(|e| e.2 == 90));
    // A fresh piece is in play and the hold is re-armed.
    assert_eq!((f.current.pos_x, f.current.pos_y), (4, 0));
    assert!(!f.pocketed);
    assert!(!f.game_over());
}

#[test]
fn full_bottom_row_clears_and_scores() {
    let mut f = Field::new(10, 20);
    f.current = Tetromino::new(Shape::I);
    for _ in 0..19 {
        f.attempt_move(1, 1);
    }
    assert_eq!(cells_in_row(&f, 19), 4);
    // Fill the remaining six columns of the bottom row directly.
    for x in [0usize, 1, 2, 3, 8, 9] {
        f.insert_locked(x, 19, 1);
    }
    assert_eq!(f.locked_count(), 10);
    // Lock one more piece, above the full row and below the exclusion
    // zone: the row must clear.
    f.current = Tetromino::new(Shape::O);
    for _ in 0..4 {
        f.attempt_move(1, 1);
    }
    f.next_piece();
    assert_eq!(f.score, 80);
    assert_eq!(f.lines, 1);
    // Ten cells left the board with the row, four arrived with the O.
    assert_eq!(f.locked_count(), 4);
    assert_eq!(cells_in_row(&f, 19), 0);
    // The O's cells moved one row down with the shift.
    assert_eq!(f.locked_cells(), vec![(6, 5, 72), (7, 5, 72), (6, 6, 72), (7, 6, 72)]);
    assert!(!f.game_over());
}

#[test]
fn two_rows_clear_together() {
    let mut f = Field::new(10, 20);
    for x in 0..10 {
        f.insert_locked(x, 18, 2);
        f.insert_locked(x, 19, 3);
    }
    f.insert_locked(0, 17, 4);
    let cleared = f.check_lines();
    assert_eq!(cleared, 2);
    assert_eq!(f.locked_count(), 1);
    // The surviving cell dropped by two rows.
    assert_eq!(f.locked_cells(), vec![(0, 19, 4)]);
}

#[test]
fn score_is_set_per_event_not_accumulated() {
    let mut f = Field::new(10, 20);
    f.inc_score(1);
    assert_eq!(f.score, 80);
    f.inc_score(2);
    assert_eq!(f.score, 200);
    f.inc_score(1);
    assert_eq!(f.score, 80);
    f.inc_score(3);
    assert_eq!(f.score, 600);
    f.inc_score(4);
    assert_eq!(f.score, 2400);
    f.inc_score(9);
    assert_eq!(f.score, 2400);
}

#[test]
fn scoring_scales_with_level() {
    let mut f = Field::new(10, 20);
    f.level = 9;
    f.inc_score(1);
    assert_eq!(f.score, 400);
    f.inc_score(4);
    assert_eq!(f.score, 12000);
}

#[test]
fn next_lvl_advances_and_returns_amplifier() {
    let mut f = Field::new(10, 20);
    assert_eq!(f.get_amplifier(), 10);
    let amp = f.next_lvl();
    assert_eq!(f.level, 2);
    assert_eq!(amp, 9);
}

#[test]
fn gravity_moves_piece_after_threshold() {
    let mut f = Field::new(10, 20);
    f.current = Tetromino::new(Shape::T);
    let y0 = f.current.pos_y;
    // Threshold 50 at level 1: the fall comes on the 51st tick.
    for _ in 0..50 {
        f.tick();
    }
    assert_eq!(f.current.pos_y, y0);
    f.tick();
    assert_eq!(f.current.pos_y, y0 + 1);
    assert_eq!(f.elapsed_time(), 51);
}

#[test]
fn higher_level_falls_strictly_faster() {
    let mut slow = Field::new(10, 20);
    let mut fast = Field::new(10, 20);
    slow.current = Tetromino::new(Shape::T);
    fast.current = Tetromino::new(Shape::T);
    fast.level = 9;
    for _ in 0..51 {
        slow.tick();
        fast.tick();
    }
    // Level 1 managed one fall; level 9, with threshold 10, four.
    assert_eq!(slow.current.pos_y, 1);
    assert_eq!(fast.current.pos_y, 4);
    assert!(fast.current.pos_y > slow.current.pos_y);
}

#[test]
fn soft_drop_divides_the_delay() {
    let mut f = Field::new(10, 20);
    f.current = Tetromino::new(Shape::T);
    f.set_accelerated(true);
    // Threshold 5 at level 1 with soft drop: a fall every 6 ticks.
    for _ in 0..6 {
        f.tick();
    }
    assert_eq!(f.current.pos_y, 1);
    f.set_accelerated(false);
    for _ in 0..6 {
        f.tick();
    }
    assert_eq!(f.current.pos_y, 1);
}

#[test]
fn hard_drop_forces_a_fall_each_tick() {
    let mut f = Field::new(10, 20);
    f.current = Tetromino::new(Shape::T);
    f.set_hard_drop();
    for _ in 0..5 {
        f.tick();
    }
    assert_eq!(f.current.pos_y, 5);
    // The modifier resets when the piece locks.
    for _ in 0..20 {
        f.tick();
    }
    assert!(!f.hard_drop);
    assert_eq!(f.locked_count(), 4);
}

#[test]
fn lock_in_exclusion_zone_ends_game() {
    let mut f = Field::new(10, 20);
    f.current = Tetromino::new(Shape::O);
    // A column reaching the top: the O lands at once and locks in the
    // exclusion zone.
    for y in 2..20 {
        f.insert_locked(6, y, 5);
        f.insert_locked(7, y, 5);
    }
    f.attempt_move(1, 1);
    assert!(f.game_over());
}

#[test]
fn spawn_into_locked_cells_ends_game_and_freezes_board() {
    let mut f = Field::new(10, 20);
    f.current = Tetromino::new(Shape::O);
    // A locked cell inside the spawn area.
    f.insert_locked(5, 1, 9);
    // Walk the piece away and lock it below the exclusion zone.
    for _ in 0..3 {
        f.attempt_move(1, 1);
    }
    f.next_piece();
    assert!(f.game_over());
    // Every operation is a silent no-op from here on.
    let current = f.current;
    let score = f.score;
    let count = f.locked_count();
    let pocketed = f.pocketed;
    f.attempt_move(-1, 0);
    f.attempt_move(1, 1);
    f.rotate(Rotation::Right);
    f.pocket();
    f.tick();
    f.next_piece();
    assert_eq!(f.current, current);
    assert_eq!(f.score, score);
    assert_eq!(f.locked_count(), count);
    assert_eq!(f.pocketed, pocketed);
    assert!(f.game_over());
}

#[test]
fn level_follows_cleared_lines() {
    let mut f = Field::new(10, 20);
    f.lines = 9;
    // One more cleared row reaches ten lines: level 2.
    for x in 0..10 {
        f.insert_locked(x, 19, 2);
    }
    f.current = Tetromino::new(Shape::O);
    for _ in 0..4 {
        f.attempt_move(1, 1);
    }
    f.next_piece();
    assert_eq!(f.lines, 10);
    assert_eq!(f.level, 2);
}

#[test]
fn spawned_shapes_vary() {
    // 64 fresh boards draw 128 random pieces; a draw stuck on one shape
    // would leave them all equal.
    let mut shapes: Vec<Shape> = Vec::new();
    for _ in 0..64 {
        let f = Field::new(10, 20);
        shapes.push(f.current.shape);
        shapes.push(f.next.shape);
    }
    let first = shapes[0];
    assert!(shapes.iter().any(|s| *s != first));
}

#[test]
fn locked_cells_come_in_row_major_order() {
    let mut f = Field::new(10, 20);
    f.insert_locked(9, 12, 1);
    f.insert_locked(0, 12, 2);
    f.insert_locked(5, 3, 3);
    let cells = f.locked_cells();
    assert_eq!(cells, vec![(5, 3, 3), (0, 12, 2), (9, 12, 1)]);
    assert_eq!(f.locked_count(), 3);
}
