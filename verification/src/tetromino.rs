//! A single falling or reserved piece: shape, grid position, rotation
//! state and active flag.
//!
//! A piece is a value holder plus geometry lookup.  It knows nothing about
//! the board: movement and rotation here are unconditional, and the board
//! validates a candidate before committing it.  Positions are in grid
//! cells; `pos_y` grows downward.

use vstd::prelude::*;

use crate::shapes::Rotation;
use crate::shapes::Shape;

verus! {

/// Spawn position of the piece that is in play.
pub const SPAWN_X: i32 = 4;

pub const SPAWN_Y: i32 = 0;

/// Display position of the piece previewed as next; outside the board.
pub const NEXT_X: i32 = 12;

pub const NEXT_Y: i32 = 0;

/// Display position of the held piece; outside the board.
pub const POCKET_X: i32 = 14;

pub const POCKET_Y: i32 = 24;

/// A position bound far beyond any board, under which the cell
/// coordinates of a piece cannot overflow `i32`.
pub const POS_LIMIT: i32 = 0x10000;

#[derive(Debug, Copy, Clone, PartialEq, Eq, Structural)]
pub struct Tetromino {
    pub shape: Shape,
    pub pos_x: i32,
    pub pos_y: i32,
    pub r_angle: u8,
    pub active: bool,
}

impl Tetromino {
    /// The rotation index is one of the four table states.
    pub open spec fn wf(self) -> bool {
        self.r_angle < 4
    }

    /// The position is far from the `i32` boundary, so cell coordinates
    /// can be computed without overflow.
    pub open spec fn pos_bounded(self) -> bool {
        &&& -POS_LIMIT <= self.pos_x <= POS_LIMIT
        &&& -POS_LIMIT <= self.pos_y <= POS_LIMIT
    }

    /// The four absolute grid cells the piece occupies: its position plus
    /// the catalog offsets of its current rotation state.
    pub open spec fn spec_cells(self) -> Seq<(int, int)> {
        crate::shapes::spec_cells(self.shape, self.r_angle as int).map_values(
            |p: int| (self.pos_x + p % 4, self.pos_y + p / 4),
        )
    }

    /// The piece moved one unit along `axis` (0 = horizontal,
    /// 1 = vertical) in `direction` (+1 or -1).
    pub open spec fn spec_translated(self, direction: int, axis: int) -> Tetromino {
        if axis == 0 {
            Tetromino { pos_x: (self.pos_x + direction) as i32, ..self }
        } else {
            Tetromino { pos_y: (self.pos_y + direction) as i32, ..self }
        }
    }

    /// The piece with its rotation index advanced (right) or retreated
    /// (left), modulo 4.
    pub open spec fn spec_rotated(self, r: Rotation) -> Tetromino {
        match r {
            Rotation::Right => Tetromino {
                r_angle: if self.r_angle < 3 {
                    (self.r_angle + 1) as u8
                } else {
                    0
                },
                ..self
            },
            Rotation::Left => Tetromino {
                r_angle: if self.r_angle > 0 {
                    (self.r_angle - 1) as u8
                } else {
                    3
                },
                ..self
            },
        }
    }

    /// Some cell of the piece lies outside `[0, width) x [0, height)`.
    pub open spec fn spec_out_of_bounds(self, width: int, height: int) -> bool {
        exists|i: int| 0 <= i < 4 && !cell_in_rect(#[trigger] self.spec_cells()[i], width, height)
    }

    /// Some cell of the piece coincides with a cell of `other`.
    pub open spec fn spec_overlaps(self, other: Tetromino) -> bool {
        exists|i: int, j: int|
            0 <= i < 4 && 0 <= j < 4 && #[trigger] self.spec_cells()[i]
                == #[trigger] other.spec_cells()[j]
    }
}

/// The cell lies inside `[0, width) x [0, height)`.
pub open spec fn cell_in_rect(c: (int, int), width: int, height: int) -> bool {
    0 <= c.0 < width && 0 <= c.1 < height
}

/// A freshly spawned piece: at the spawn position, in the default
/// rotation state, active.
pub open spec fn spec_spawned(shape: Shape) -> Tetromino {
    Tetromino { shape, pos_x: SPAWN_X, pos_y: SPAWN_Y, r_angle: 0, active: true }
}

impl Tetromino {
    /// Creates a piece of the given shape at the spawn position.
    pub fn new(shape: Shape) -> (r: Tetromino)
        ensures
            r == spec_spawned(shape),
    {
        Tetromino { shape, pos_x: SPAWN_X, pos_y: SPAWN_Y, r_angle: 0, active: true }
    }

    /// The shape of this piece.
    pub fn id(&self) -> (r: &Shape)
        ensures
            *r == self.shape,
    {
        &self.shape
    }

    /// True once the piece has landed and no longer falls.
    pub fn stops_falling(&self) -> (r: bool)
        ensures
            r == !self.active,
    {
        !self.active
    }

    /// True while the piece is falling.
    pub fn is_active(&self) -> (r: bool)
        ensures
            r == self.active,
    {
        self.active
    }

    /// Marks the piece as landed; irreversible until the next spawn.
    pub fn deactivate(&mut self)
        ensures
            *final(self) == (Tetromino { active: false, ..*old(self) }),
    {
        self.active = false;
    }

    /// Advances or retreats the rotation state by one table index,
    /// modulo 4.  Pure index arithmetic: the caller validates the
    /// resulting cells before committing.
    pub fn rotate(&mut self, r: Rotation)
        requires
            old(self).wf(),
        ensures
            *final(self) == old(self).spec_rotated(r),
            final(self).wf(),
    {
        match r {
            Rotation::Right => {
                if self.r_angle < 3 {
                    self.r_angle = self.r_angle + 1;
                } else {
                    self.r_angle = 0;
                }
            },
            Rotation::Left => {
                if self.r_angle > 0 {
                    self.r_angle = self.r_angle - 1;
                } else {
                    self.r_angle = 3;
                }
            },
        }
    }

    /// Resets the piece to the spawn position and default rotation.
    pub fn set_default_pos(&mut self)
        ensures
            *final(self) == (Tetromino { pos_x: SPAWN_X, pos_y: SPAWN_Y, r_angle: 0, ..*old(self) }),
    {
        self.pos_x = SPAWN_X;
        self.pos_y = SPAWN_Y;
        self.r_angle = 0;
    }

    /// Places the piece at the preview position reserved for the next
    /// piece.
    pub fn set_for_next(&mut self)
        ensures
            *final(self) == (Tetromino { pos_x: NEXT_X, pos_y: NEXT_Y, r_angle: 0, ..*old(self) }),
    {
        self.pos_x = NEXT_X;
        self.pos_y = NEXT_Y;
        self.r_angle = 0;
    }

    /// Places the piece at the display position reserved for the hold
    /// slot.
    pub fn set_to_pocket(&mut self)
        ensures
            *final(self) == (Tetromino { pos_x: POCKET_X, pos_y: POCKET_Y, r_angle: 0, ..*old(self) }),
    {
        self.pos_x = POCKET_X;
        self.pos_y = POCKET_Y;
        self.r_angle = 0;
    }

    /// Moves the piece one unit along `axis` (0 = horizontal,
    /// 1 = vertical) in `direction` (+1 or -1), unconditionally.
    /// The board validates before committing a move.
    pub fn make_move(&mut self, direction: i8, axis: u8)
        requires
            direction == 1 || direction == -1,
            axis <= 1,
            old(self).pos_bounded(),
        ensures
            *final(self) == old(self).spec_translated(direction as int, axis as int),
    {
        if axis == 0 {
            self.pos_x = self.pos_x + direction as i32;
        } else {
            self.pos_y = self.pos_y + direction as i32;
        }
    }

    /// The four absolute grid cells the piece occupies.
    pub fn get_real_coord(&self) -> (r: Vec<(i32, i32)>)
        requires
            self.wf(),
            self.pos_bounded(),
        ensures
            r@.len() == 4,
            forall|i: int|
                0 <= i < 4 ==> (#[trigger] r@[i].0 as int, r@[i].1 as int) == self.spec_cells()[i],
    {
        proof {
            crate::shapes::lemma_cells_in_box(self.shape, self.r_angle as int);
        }
        let m = self.shape.rotation_cells(self.r_angle);
        let mut r: Vec<(i32, i32)> = Vec::new();
        let mut k: usize = 0;
        while k < 4
            invariant
                self.wf(),
                self.pos_bounded(),
                k <= 4,
                r@.len() == k,
                forall|i: int| 0 <= i < 4 ==> m[i] as int == crate::shapes::spec_cells(
                    self.shape,
                    self.r_angle as int,
                )[i],
                forall|i: int| 0 <= i < 4 ==> 0 <= #[trigger] crate::shapes::spec_cells(
                    self.shape,
                    self.r_angle as int,
                )[i] < 16,
                forall|i: int|
                    0 <= i < k ==> (#[trigger] r@[i].0 as int, r@[i].1 as int)
                        == self.spec_cells()[i],
            decreases 4 - k,
        {
            let p = m[k];
            let x = self.pos_x + (p % 4) as i32;
            let y = self.pos_y + (p / 4) as i32;
            r.push((x, y));
            k = k + 1;
        }
        r
    }

    /// True if the piece sticks out of `[0, width) x [0, height)` or, when
    /// another piece is given, shares a cell with it.
    pub fn collides_with(&self, other: Option<&Tetromino>, width: u32, height: u32) -> (r: bool)
        requires
            self.wf(),
            self.pos_bounded(),
            width <= 0x7FFF,
            height <= 0x7FFF,
            other is Some ==> other->0.wf() && other->0.pos_bounded(),
        ensures
            r == (self.spec_out_of_bounds(width as int, height as int) || (match other {
                Option::Some(o) => self.spec_overlaps(*o),
                Option::None => false,
            })),
    {
        let own = self.get_real_coord();
        let mut i: usize = 0;
        let mut hit: bool = false;
        while i < 4
            invariant
                own@.len() == 4,
                i <= 4,
                forall|k: int|
                    0 <= k < 4 ==> (#[trigger] own@[k].0 as int, own@[k].1 as int)
                        == self.spec_cells()[k],
                width <= 0x7FFF,
                height <= 0x7FFF,
                hit == exists|k: int|
                    0 <= k < i && !cell_in_rect(
                        #[trigger] self.spec_cells()[k],
                        width as int,
                        height as int,
                    ),
            decreases 4 - i,
        {
            let (cx, cy) = own[i];
            if cx < 0 || cx >= width as i32 || cy < 0 || cy >= height as i32 {
                proof {
                    assert(!cell_in_rect(self.spec_cells()[i as int], width as int, height as int));
                }
                hit = true;
            } else {
                proof {
                    assert(cell_in_rect(self.spec_cells()[i as int], width as int, height as int));
                }
            }
            i = i + 1;
        }
        if hit {
            return true;
        }
        match other {
            Option::Some(o) => {
                let theirs = o.get_real_coord();
                let mut i: usize = 0;
                let mut shared: bool = false;
                while i < 4
                    invariant
                        own@.len() == 4,
                        theirs@.len() == 4,
                        i <= 4,
                        forall|k: int|
                            0 <= k < 4 ==> (#[trigger] own@[k].0 as int, own@[k].1 as int)
                                == self.spec_cells()[k],
                        forall|k: int|
                            0 <= k < 4 ==> (#[trigger] theirs@[k].0 as int, theirs@[k].1 as int)
                                == o.spec_cells()[k],
                        shared == exists|a: int, b: int|
                            0 <= a < i && 0 <= b < 4 && #[trigger] self.spec_cells()[a]
                                == #[trigger] o.spec_cells()[b],
                    decreases 4 - i,
                {
                    let mut j: usize = 0;
                    while j < 4
                        invariant
                            own@.len() == 4,
                            theirs@.len() == 4,
                            i < 4,
                            j <= 4,
                            forall|k: int|
                                0 <= k < 4 ==> (#[trigger] own@[k].0 as int, own@[k].1 as int)
                                    == self.spec_cells()[k],
                            forall|k: int|
                                0 <= k < 4 ==> (#[trigger] theirs@[k].0 as int, theirs@[
                                    k
                                ].1 as int) == o.spec_cells()[k],
                            shared == ((exists|a: int, b: int|
                                0 <= a < i && 0 <= b < 4 && #[trigger] self.spec_cells()[a]
                                    == #[trigger] o.spec_cells()[b]) || (exists|b: int|
                                0 <= b < j && self.spec_cells()[i as int]
                                    == #[trigger] o.spec_cells()[b])),
                        decreases 4 - j,
                    {
                        if own[i].0 == theirs[j].0 && own[i].1 == theirs[j].1 {
                            proof {
                                assert(self.spec_cells()[i as int] == o.spec_cells()[j as int]);
                            }
                            shared = true;
                        } else {
                            proof {
                                assert(self.spec_cells()[i as int] != o.spec_cells()[j as int]);
                            }
                        }
                        j = j + 1;
                    }
                    proof {
                        if shared {
                            if exists|a: int, b: int|
                                0 <= a < i && 0 <= b < 4 && #[trigger] self.spec_cells()[a]
                                    == #[trigger] o.spec_cells()[b] {
                                let (a0, b0) = choose|a: int, b: int|
                                    0 <= a < i && 0 <= b < 4 && #[trigger] self.spec_cells()[a]
                                        == #[trigger] o.spec_cells()[b];
                                assert(0 <= a0 < i + 1 && 0 <= b0 < 4 && self.spec_cells()[a0]
                                    == o.spec_cells()[b0]);
                            } else {
                                let b0 = choose|b: int|
                                    0 <= b < 4 && self.spec_cells()[i as int]
                                        == #[trigger] o.spec_cells()[b];
                                assert(0 <= (i as int) < i + 1 && 0 <= b0 < 4 && self.spec_cells()[
                                    i as int
                                ] == o.spec_cells()[b0]);
                            }
                        } else {
                            assert forall|a: int, b: int|
                                0 <= a < i + 1 && 0 <= b < 4 implies #[trigger] self.spec_cells()[a]
                                != #[trigger] o.spec_cells()[b] by {
                                if a < i {
                                    assert(!(0 <= a < i && 0 <= b < 4 && self.spec_cells()[a]
                                        == o.spec_cells()[b]));
                                } else {
                                    assert(!(0 <= b < 4 && self.spec_cells()[i as int]
                                        == o.spec_cells()[b]));
                                }
                            }
                        }
                    }
                    i = i + 1;
                }
                shared
            },
            Option::None => false,
        }
    }
}

/// The four cells of a piece are pairwise distinct.
pub proof fn lemma_piece_cells_distinct(t: Tetromino)
    requires
        t.wf(),
    ensures
        forall|i: int, j: int|
            0 <= i < 4 && 0 <= j < 4 && i != j ==> #[trigger] t.spec_cells()[i]
                != #[trigger] t.spec_cells()[j],
{
    crate::shapes::lemma_cells_in_box(t.shape, t.r_angle as int);
    crate::shapes::lemma_cells_distinct(t.shape, t.r_angle as int);
    assert forall|i: int, j: int|
        0 <= i < 4 && 0 <= j < 4 && i != j implies #[trigger] t.spec_cells()[i]
        != #[trigger] t.spec_cells()[j] by {
        let a = crate::shapes::spec_cells(t.shape, t.r_angle as int)[i];
        let b = crate::shapes::spec_cells(t.shape, t.r_angle as int)[j];
        assert(a != b);
        assert(0 <= a < 16 && 0 <= b < 16);
        assert(a == 4 * (a / 4) + a % 4);
        assert(b == 4 * (b / 4) + b % 4);
        assert(t.spec_cells()[i] == (t.pos_x + a % 4, t.pos_y + a / 4));
        assert(t.spec_cells()[j] == (t.pos_x + b % 4, t.pos_y + b / 4));
    }
}

/// Rotating four times in the same direction returns a piece to its
/// original rotation state, and so to its original cells.
pub proof fn lemma_rotate_four(t: Tetromino, r: Rotation)
    requires
        t.wf(),
    ensures
        t.spec_rotated(r).spec_rotated(r).spec_rotated(r).spec_rotated(r) == t,
{
}

} // verus!
