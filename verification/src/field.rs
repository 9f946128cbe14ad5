//! The board: the locked-cell grid, the active, next and held pieces,
//! score, level and the gravity tick state.
//!
//! The board is the sole mutator of grid and piece state.  Every public
//! operation validates a candidate before committing it and leaves the
//! board fully consistent: a rejected move or rotation is a silent no-op,
//! a rejected downward move locks the piece, merges its cells, clears
//! full rows, scores, and spawns the next piece, all in one step.

use vstd::prelude::*;

use crate::gravity;
use crate::rng::random_shape;
use crate::rows;
use crate::shapes::Rotation;
use crate::tetromino::cell_in_rect;
use crate::tetromino::Tetromino;
use crate::tetromino::NEXT_X;
use crate::tetromino::NEXT_Y;
use crate::tetromino::POCKET_X;
use crate::tetromino::POCKET_Y;
use crate::tetromino::SPAWN_X;
use crate::tetromino::SPAWN_Y;

verus! {

/// Rows `0..EXCLUSION_ROWS` are the spawn exclusion zone: a locked cell
/// there ends the game.
pub const EXCLUSION_ROWS: usize = 2;

/// Every `LINES_PER_LEVEL` cleared rows advance the level by one.
pub const LINES_PER_LEVEL: u32 = 10;

pub struct Field {
    /// The locked cells: `tiles[y][x]` is the color id of the locked cell
    /// at column `x` of row `y`, or `None` where the cell is free.
    pub tiles: Vec<Vec<Option<u32>>>,
    /// The held piece, if any.
    pub pocket: Option<Tetromino>,
    /// The piece in play.
    pub current: Tetromino,
    /// The piece previewed as next.
    pub next: Tetromino,
    pub width: usize,
    pub height: usize,
    /// True once `pocket()` has been used in the current drop cycle.
    pub pocketed: bool,
    pub level: u8,
    pub score: u32,
    /// Total rows cleared; drives the level.
    pub lines: u32,
    /// The gravity tick accumulator.
    pub ticks: u32,
    /// Total ticks seen; the elapsed-time counter.
    pub elapsed: u64,
    /// True while the soft-drop input is held.
    pub accelerated: bool,
    /// True after a hard drop, until the piece locks.
    pub hard_drop: bool,
    /// True once the game has ended; all operations are then no-ops.
    pub over: bool,
}

/// The grid has `height` rows of `width` cells each.
pub open spec fn grid_wf(g: Seq<Seq<Option<u32>>>, width: int, height: int) -> bool {
    &&& g.len() == height
    &&& forall|y: int| 0 <= y < height ==> (#[trigger] g[y]).len() == width
}

/// Every cell of the piece lies on the board.
pub open spec fn piece_in_bounds(t: Tetromino, width: int, height: int) -> bool {
    forall|i: int| 0 <= i < 4 ==> cell_in_rect(#[trigger] t.spec_cells()[i], width, height)
}

/// The piece previewed as next sits at the preview position, unrotated
/// and active.
pub open spec fn is_preview(t: Tetromino) -> bool {
    &&& t.pos_x == NEXT_X
    &&& t.pos_y == NEXT_Y
    &&& t.r_angle == 0
    &&& t.active
}

/// A piece at the spawn position, unrotated and active.
pub open spec fn is_spawn(t: Tetromino) -> bool {
    &&& t.pos_x == SPAWN_X
    &&& t.pos_y == SPAWN_Y
    &&& t.r_angle == 0
    &&& t.active
}

/// The base score for `n` cleared rows, times `level + 1`.
pub open spec fn spec_score_value(n: int, level: u8) -> int {
    (if n == 1 {
        40int
    } else if n == 2 {
        100int
    } else if n == 3 {
        300int
    } else {
        1200int
    }) * (level + 1)
}

/// The level after `lines` total cleared rows: it grows by one for every
/// `LINES_PER_LEVEL` rows, never falls, and stops at the top of `u8`.
pub open spec fn spec_level_after(level: u8, lines: u32) -> u8 {
    let t = 1 + lines / LINES_PER_LEVEL as u32;
    if t > 255 {
        255u8
    } else if t > level {
        t as u8
    } else {
        level
    }
}

impl Field {
    /// The locked-cell grid as a sequence of rows.
    pub open spec fn spec_grid(self) -> Seq<Seq<Option<u32>>> {
        self.tiles@.map_values(|row: Vec<Option<u32>>| row@)
    }

    /// The locked cell at column `x` of row `y`.
    pub open spec fn spec_cell(self, x: int, y: int) -> Option<u32> {
        self.spec_grid()[y][x]
    }

    /// There is a locked cell at column `x` of row `y`.
    pub open spec fn spec_occupied(self, x: int, y: int) -> bool {
        &&& 0 <= x < self.width
        &&& 0 <= y < self.height
        &&& self.spec_cell(x, y) is Some
    }

    /// Every cell of the piece lies on the board and on no locked cell:
    /// the piece may be committed here.
    pub open spec fn spec_fits(self, t: Tetromino) -> bool {
        forall|i: int|
            0 <= i < 4 ==> {
                let c = #[trigger] t.spec_cells()[i];
                cell_in_rect(c, self.width as int, self.height as int) && self.spec_grid()[c.1][c.0]
                    is None
            }
    }

    /// Some cell of the piece lies on a locked cell.
    pub open spec fn spec_hits_locked(self, t: Tetromino) -> bool {
        exists|i: int|
            0 <= i < 4 && {
                let c = #[trigger] t.spec_cells()[i];
                self.spec_occupied(c.0, c.1)
            }
    }

    /// Well-formedness: the grid has the board's dimensions, the pieces
    /// have valid rotation states and positions, and the piece in play
    /// lies on the board.
    pub open spec fn wf(self) -> bool {
        &&& 8 <= self.width <= 0x7FFF
        &&& 4 <= self.height <= 0x7FFF
        &&& grid_wf(self.spec_grid(), self.width as int, self.height as int)
        &&& self.current.wf()
        &&& piece_in_bounds(self.current, self.width as int, self.height as int)
        &&& self.next.wf()
        &&& self.next.pos_bounded()
        &&& (self.pocket matches Some(p) ==> p.wf() && p.pos_bounded())
        &&& 1 <= self.level
    }

    /// All fields but the locked-cell grid agree.
    pub open spec fn same_except_tiles(pre: Field, post: Field) -> bool {
        &&& post.pocket == pre.pocket
        &&& post.current == pre.current
        &&& post.next == pre.next
        &&& Field::same_scalars(pre, post)
    }

    /// All fields but the grid and the three piece slots agree.
    pub open spec fn same_scalars(pre: Field, post: Field) -> bool {
        &&& post.width == pre.width
        &&& post.height == pre.height
        &&& post.pocketed == pre.pocketed
        &&& post.level == pre.level
        &&& post.score == pre.score
        &&& post.lines == pre.lines
        &&& post.ticks == pre.ticks
        &&& post.elapsed == pre.elapsed
        &&& post.accelerated == pre.accelerated
        &&& post.hard_drop == pre.hard_drop
        &&& post.over == pre.over
    }

    /// All fields but the piece in play agree, the grid included.
    pub open spec fn same_except_current(pre: Field, post: Field) -> bool {
        &&& post.spec_grid() == pre.spec_grid()
        &&& post.pocket == pre.pocket
        &&& post.next == pre.next
        &&& Field::same_scalars(pre, post)
    }
}

/// The grid after the piece in play locks: its four cells merged into
/// the locked cells, with its shape's color id.
pub open spec fn spec_merged(pre: Field) -> Seq<Seq<Option<u32>>> {
    rows::spec_merge_cells(
        pre.spec_grid(),
        pre.current.spec_cells(),
        pre.current.shape.spec_texture_offset() as u32,
    )
}

/// Some locked cell sits in the spawn exclusion zone.
pub open spec fn spec_exclusion_hit(g: Seq<Seq<Option<u32>>>, width: int) -> bool {
    exists|x: int, y: int|
        0 <= y < EXCLUSION_ROWS as int && 0 <= x < width && #[trigger] g[y][x] is Some
}

/// The total-lines counter after `n` more cleared rows, stopping at the
/// top of `u32`.
pub open spec fn spec_lines_after(lines: u32, n: int) -> int {
    if lines + n <= u32::MAX {
        lines + n
    } else {
        u32::MAX as int
    }
}

/// The lock transition: the landed piece's cells are merged into the
/// locked grid.  If a merged cell then sits in the spawn exclusion zone
/// the game ends there.  Otherwise every full row is cleared, the score
/// is set for the clearing event, the level follows the lines counter,
/// the hold becomes available again, the preview piece spawns into play
/// and a fresh preview is drawn; the game ends instead if the spawned
/// piece lies on a locked cell.
pub open spec fn spec_lock_step(pre: Field, post: Field) -> bool {
    let merged = spec_merged(pre);
    if spec_exclusion_hit(merged, pre.width as int) {
        &&& post.spec_grid() == merged
        &&& post.over
        &&& post.current == pre.current
        &&& post.next == pre.next
        &&& post.pocket == pre.pocket
        &&& post.width == pre.width
        &&& post.height == pre.height
        &&& post.pocketed == pre.pocketed
        &&& post.level == pre.level
        &&& post.score == pre.score
        &&& post.lines == pre.lines
        &&& post.ticks == pre.ticks
        &&& post.elapsed == pre.elapsed
        &&& post.accelerated == pre.accelerated
        &&& post.hard_drop == pre.hard_drop
    } else {
        let n = pre.height - rows::spec_kept(merged, pre.width as int).len();
        &&& post.spec_grid() == rows::spec_cleared(merged, pre.width as int)
        &&& n > 0 ==> post.score == spec_score_value(n, pre.level) && post.lines
            == spec_lines_after(pre.lines, n) && post.level == spec_level_after(
            pre.level,
            post.lines,
        )
        &&& n == 0 ==> post.score == pre.score && post.lines == pre.lines && post.level
            == pre.level
        &&& !post.pocketed
        &&& post.current == (Tetromino { pos_x: SPAWN_X, pos_y: SPAWN_Y, r_angle: 0, ..pre.next })
        &&& is_preview(post.next)
        &&& post.over == post.spec_hits_locked(post.current)
        &&& post.pocket == pre.pocket
        &&& post.width == pre.width
        &&& post.height == pre.height
        &&& post.ticks == pre.ticks
        &&& post.elapsed == pre.elapsed
        &&& post.accelerated == pre.accelerated
        &&& !post.hard_drop
    }
}

/// How many rows a lock event clears: none when the merged grid ends
/// the game in the exclusion zone, else the full rows of the merged
/// grid.
pub open spec fn spec_rows_cleared(pre: Field) -> int {
    let merged = spec_merged(pre);
    if spec_exclusion_hit(merged, pre.width as int) {
        0
    } else {
        pre.height - rows::spec_kept(merged, pre.width as int).len()
    }
}

/// A lock from a position on free cells grows the locked-cell count by
/// the piece's four cells, less `width` cells for every row cleared in
/// the event.
pub proof fn lemma_lock_count(pre: Field, post: Field)
    requires
        pre.wf(),
        spec_lock_step(pre, post),
        !pre.spec_hits_locked(pre.current),
    ensures
        rows::spec_grid_count(post.spec_grid()) + pre.width * spec_rows_cleared(pre)
            == rows::spec_grid_count(pre.spec_grid()) + 4,
{
    let w = pre.width as int;
    let h = pre.height as int;
    let g = pre.spec_grid();
    let cells = pre.current.spec_cells();
    let color = pre.current.shape.spec_texture_offset() as u32;
    crate::shapes::lemma_cells_in_box(pre.current.shape, pre.current.r_angle as int);
    assert(cells.len() == 4);
    assert forall|k: int|
        0 <= k < cells.len() implies 0 <= (#[trigger] cells[k]).0 < w && 0 <= cells[k].1 < h by {
        assert(cell_in_rect(cells[k], w, h));
    }
    crate::tetromino::lemma_piece_cells_distinct(pre.current);
    assert forall|k: int| 0 <= k < cells.len() implies g[(#[trigger] cells[k]).1][cells[k].0]
        is None by {
        let c = cells[k];
        assert(!pre.spec_occupied(c.0, c.1));
    }
    rows::lemma_merge_count(g, cells, color, w, h);
    let merged = spec_merged(pre);
    assert(rows::spec_grid_count(merged) == rows::spec_grid_count(g) + 4);
    if spec_exclusion_hit(merged, w) {
        assert(post.spec_grid() == merged);
        assert(pre.width * 0 == 0);
    } else {
        rows::lemma_merge_pointwise(g, cells, color, w, h);
        rows::lemma_kept_count(merged, w);
        let kept = rows::spec_kept(merged, w);
        let n = h - kept.len();
        assert(post.spec_grid() == rows::spec_cleared(merged, w));
        rows::lemma_grid_count_concat(Seq::new(n as nat, |i: int| rows::spec_empty_row(w)), kept);
        rows::lemma_empty_rows_count(n as nat, w);
        assert(rows::spec_grid_count(post.spec_grid()) == rows::spec_grid_count(kept));
        assert(rows::spec_grid_count(kept) + w * n == rows::spec_grid_count(merged));
    }
}

/// A lock that does not end the game leaves no fully occupied row:
/// clearing is synchronous with locking.
pub proof fn lemma_lock_leaves_no_full_row(pre: Field, post: Field)
    requires
        pre.wf(),
        spec_lock_step(pre, post),
        !spec_exclusion_hit(spec_merged(pre), pre.width as int),
    ensures
        forall|y: int|
            0 <= y < post.spec_grid().len() ==> !rows::spec_row_full(
                #[trigger] post.spec_grid()[y],
                pre.width as int,
            ),
{
    let w = pre.width as int;
    let h = pre.height as int;
    let g = pre.spec_grid();
    let cells = pre.current.spec_cells();
    let color = pre.current.shape.spec_texture_offset() as u32;
    crate::shapes::lemma_cells_in_box(pre.current.shape, pre.current.r_angle as int);
    assert forall|k: int|
        0 <= k < cells.len() implies 0 <= (#[trigger] cells[k]).0 < w && 0 <= cells[k].1 < h by {
        assert(cell_in_rect(cells[k], w, h));
    }
    let merged = spec_merged(pre);
    rows::lemma_merge_pointwise(g, cells, color, w, h);
    rows::lemma_kept_rows_not_full(merged, w);
    rows::lemma_kept_len(merged, w);
    let kept = rows::spec_kept(merged, w);
    let n = h - kept.len();
    assert(post.spec_grid() == rows::spec_cleared(merged, w));
    assert forall|y: int| 0 <= y < post.spec_grid().len() implies !rows::spec_row_full(
        #[trigger] post.spec_grid()[y],
        w,
    ) by {
        if y < n {
            assert(post.spec_grid()[y] == rows::spec_empty_row(w));
            assert(rows::spec_empty_row(w)[0] is None);
        } else {
            assert(post.spec_grid()[y] == kept[y - n]);
        }
    }
}

/// Entry `a` comes before entry `b` in row-major order: a lower row, or
/// the same row and a lower column.
pub open spec fn entry_before(a: (usize, usize, u32), b: (usize, usize, u32)) -> bool {
    a.1 < b.1 || (a.1 == b.1 && a.0 < b.0)
}

/// A piece whose cells all lie on a board of these dimensions sits far
/// from the `i32` boundary.
pub proof fn lemma_in_bounds_pos(t: Tetromino, width: int, height: int)
    requires
        t.wf(),
        piece_in_bounds(t, width, height),
        width <= 0x7FFF,
        height <= 0x7FFF,
    ensures
        t.pos_bounded(),
        -3 <= t.pos_x < width,
        -3 <= t.pos_y < height,
{
    crate::shapes::lemma_cells_in_box(t.shape, t.r_angle as int);
    let p = crate::shapes::spec_cells(t.shape, t.r_angle as int)[0];
    let c = t.spec_cells()[0];
    assert(cell_in_rect(c, width, height));
    assert(c == (t.pos_x + p % 4, t.pos_y + p / 4));
    assert(0 <= p < 16);
    assert(0 <= p % 4 < 4 && 0 <= p / 4 < 4);
}

/// A piece at the spawn position lies on any board at least 8 wide and
/// 4 tall, whatever its shape.
pub proof fn lemma_spawn_in_bounds(t: Tetromino, width: int, height: int)
    requires
        t.pos_x == SPAWN_X,
        t.pos_y == SPAWN_Y,
        t.r_angle == 0,
        width >= 8,
        height >= 4,
    ensures
        piece_in_bounds(t, width, height),
{
    crate::shapes::lemma_cells_in_box(t.shape, 0);
    assert forall|i: int| 0 <= i < 4 implies cell_in_rect(
        #[trigger] t.spec_cells()[i],
        width,
        height,
    ) by {
        let p = crate::shapes::spec_cells(t.shape, 0)[i];
        assert(0 <= p < 16);
        assert(t.spec_cells()[i] == (t.pos_x + p % 4, t.pos_y + p / 4));
        assert(0 <= p % 4 < 4 && 0 <= p / 4 < 4);
    }
}

impl Field {
    /// Creates a board of the given dimensions: an empty grid, a fresh
    /// piece in play and a fresh preview piece, score 0, level 1.
    pub fn new(width: usize, height: usize) -> (r: Field)
        requires
            8 <= width <= 0x7FFF,
            4 <= height <= 0x7FFF,
        ensures
            r.wf(),
            r.width == width,
            r.height == height,
            forall|x: int, y: int| !r.spec_occupied(x, y),
            is_spawn(r.current),
            is_preview(r.next),
            r.pocket is None,
            !r.pocketed,
            r.level == 1,
            r.score == 0,
            r.lines == 0,
            r.ticks == 0,
            r.elapsed == 0,
            !r.accelerated,
            !r.hard_drop,
            !r.over,
    {
        let mut tiles: Vec<Vec<Option<u32>>> = Vec::new();
        let mut y: usize = 0;
        while y < height
            invariant
                y <= height,
                tiles@.len() == y,
                forall|j: int|
                    0 <= j < y ==> (#[trigger] tiles@[j])@.len() == width && forall|x: int|
                        0 <= x < width ==> tiles@[j]@[x] is None,
            decreases height - y,
        {
            let mut row: Vec<Option<u32>> = Vec::new();
            let mut x: usize = 0;
            while x < width
                invariant
                    x <= width,
                    row@.len() == x,
                    forall|k: int| 0 <= k < x ==> row@[k] is None,
                decreases width - x,
            {
                row.push(None);
                x = x + 1;
            }
            tiles.push(row);
            y = y + 1;
        }
        let mut current = Tetromino::new(random_shape());
        let mut next = Tetromino::new(random_shape());
        current.set_default_pos();
        next.set_for_next();
        let r = Field {
            tiles,
            pocket: None,
            current,
            next,
            width,
            height,
            pocketed: false,
            level: 1,
            score: 0,
            lines: 0,
            ticks: 0,
            elapsed: 0,
            accelerated: false,
            hard_drop: false,
            over: false,
        };
        proof {
            lemma_spawn_in_bounds(r.current, width as int, height as int);
            assert(grid_wf(r.spec_grid(), width as int, height as int));
            assert forall|x: int, y0: int| !r.spec_occupied(x, y0) by {
                if 0 <= x < width && 0 <= y0 < height {
                    assert(r.spec_grid()[y0][x] is None);
                }
            }
        }
        r
    }

    /// True once the game has ended; checked after every lock and spawn.
    pub fn game_over(&self) -> (r: bool)
        ensures
            r == self.over,
    {
        self.over
    }

    /// The current level's fall-speed amplifier, in tenths.
    pub fn get_amplifier(&self) -> (r: u32)
        ensures
            r == gravity::spec_amplifier(self.level),
    {
        gravity::amplifier(self.level)
    }

    /// Advances the level by one and returns the new amplifier.
    pub fn next_lvl(&mut self) -> (r: u32)
        requires
            old(self).level < 255,
        ensures
            final (self).level == old(self).level + 1,
            r == gravity::spec_amplifier(final (self).level),
            final (self).spec_grid() == old(self).spec_grid(),
            final (self).pocket == old(self).pocket,
            final (self).current == old(self).current,
            final (self).next == old(self).next,
            final (self).width == old(self).width,
            final (self).height == old(self).height,
            final (self).pocketed == old(self).pocketed,
            final (self).score == old(self).score,
            final (self).lines == old(self).lines,
            final (self).ticks == old(self).ticks,
            final (self).elapsed == old(self).elapsed,
            final (self).accelerated == old(self).accelerated,
            final (self).hard_drop == old(self).hard_drop,
            final (self).over == old(self).over,
    {
        self.level = self.level + 1;
        gravity::amplifier(self.level)
    }

    /// Sets the score for a clearing event: the base value for `n`
    /// cleared rows, times `level + 1`.  The score is set, not
    /// accumulated, for each event.
    pub fn inc_score(&mut self, n: u16)
        ensures
            final (self).score == spec_score_value(n as int, old(self).level),
            final (self).spec_grid() == old(self).spec_grid(),
            final (self).pocket == old(self).pocket,
            final (self).current == old(self).current,
            final (self).next == old(self).next,
            final (self).width == old(self).width,
            final (self).height == old(self).height,
            final (self).pocketed == old(self).pocketed,
            final (self).level == old(self).level,
            final (self).lines == old(self).lines,
            final (self).ticks == old(self).ticks,
            final (self).elapsed == old(self).elapsed,
            final (self).accelerated == old(self).accelerated,
            final (self).hard_drop == old(self).hard_drop,
            final (self).over == old(self).over,
    {
        let base: u32 = match n {
            1 => 40,
            2 => 100,
            3 => 300,
            _ => 1200,
        };
        self.score = base * (self.level as u32 + 1);
    }

    /// Inserts a locked cell directly; board setup for scenarios.
    pub fn insert_locked(&mut self, x: usize, y: usize, color: u32)
        requires
            old(self).wf(),
            x < old(self).width,
            y < old(self).height,
        ensures
            final (self).wf(),
            final (self).spec_grid() == old(self).spec_grid().update(
                y as int,
                old(self).spec_grid()[y as int].update(x as int, Some(color)),
            ),
            final (self).pocket == old(self).pocket,
            final (self).current == old(self).current,
            final (self).next == old(self).next,
            Field::same_scalars(*old(self), *final (self)),
    {
        proof {
            assert(self.spec_grid().len() == self.tiles@.len());
            assert(self.spec_grid()[y as int] == self.tiles@[y as int]@);
        }
        self.tiles[y].set(x, Some(color));
        proof {
            assert(self.spec_grid() =~~= old(self).spec_grid().update(
                y as int,
                old(self).spec_grid()[y as int].update(x as int, Some(color)),
            ));
        }
    }

    /// True if the piece in play lies on some locked cell.
    pub fn has_collision(&self) -> (r: bool)
        requires
            self.wf(),
        ensures
            r == self.spec_hits_locked(self.current),
    {
        proof {
            lemma_in_bounds_pos(self.current, self.width as int, self.height as int);
        }
        let coords = self.current.get_real_coord();
        let mut i: usize = 0;
        let mut found: bool = false;
        while i < 4
            invariant
                self.wf(),
                coords@.len() == 4,
                i <= 4,
                forall|k: int|
                    0 <= k < 4 ==> (#[trigger] coords@[k].0 as int, coords@[k].1 as int)
                        == self.current.spec_cells()[k],
                found == exists|k: int|
                    0 <= k < i && {
                        let c = #[trigger] self.current.spec_cells()[k];
                        self.spec_occupied(c.0, c.1)
                    },
            decreases 4 - i,
        {
            let (cx, cy) = coords[i];
            proof {
                assert(cell_in_rect(
                    self.current.spec_cells()[i as int],
                    self.width as int,
                    self.height as int,
                ));
                assert(self.spec_grid().len() == self.tiles@.len());
                assert(self.spec_grid()[cy as int] == self.tiles@[cy as int]@);
            }
            if self.tiles[cy as usize][cx as usize].is_some() {
                proof {
                    let c = self.current.spec_cells()[i as int];
                    assert(self.spec_occupied(c.0, c.1));
                }
                found = true;
            } else {
                proof {
                    let c = self.current.spec_cells()[i as int];
                    assert(!self.spec_occupied(c.0, c.1));
                }
            }
            i = i + 1;
        }
        found
    }

    /// True if every cell of `t` lies on the board and on no locked cell.
    fn fits(&self, t: &Tetromino) -> (r: bool)
        requires
            self.wf(),
            t.wf(),
            t.pos_bounded(),
        ensures
            r == self.spec_fits(*t),
    {
        let coords = t.get_real_coord();
        let mut i: usize = 0;
        let mut ok: bool = true;
        while i < 4
            invariant
                self.wf(),
                t.wf(),
                coords@.len() == 4,
                i <= 4,
                forall|k: int|
                    0 <= k < 4 ==> (#[trigger] coords@[k].0 as int, coords@[k].1 as int)
                        == t.spec_cells()[k],
                ok == forall|k: int|
                    0 <= k < i ==> {
                        let c = #[trigger] t.spec_cells()[k];
                        cell_in_rect(c, self.width as int, self.height as int)
                            && self.spec_grid()[c.1][c.0] is None
                    },
            decreases 4 - i,
        {
            let (cx, cy) = coords[i];
            let good: bool = if cx < 0 || cx >= self.width as i32 || cy < 0 || cy
                >= self.height as i32 {
                false
            } else {
                proof {
                    assert(self.spec_grid().len() == self.tiles@.len());
                    assert(self.spec_grid()[cy as int] == self.tiles@[cy as int]@);
                }
                self.tiles[cy as usize][cx as usize].is_none()
            };
            proof {
                let c = t.spec_cells()[i as int];
                if good {
                    assert(cell_in_rect(c, self.width as int, self.height as int)
                        && self.spec_grid()[c.1][c.0] is None);
                } else {
                    assert(!(cell_in_rect(c, self.width as int, self.height as int)
                        && self.spec_grid()[c.1][c.0] is None));
                }
            }
            if !good {
                ok = false;
            }
            i = i + 1;
        }
        ok
    }

    /// Merges the four cells of the piece in play into the locked grid,
    /// with its shape's color id.
    fn merge_current(&mut self)
        requires
            old(self).wf(),
        ensures
            final (self).wf(),
            final (self).spec_grid() == spec_merged(*old(self)),
            Field::same_except_tiles(*old(self), *final (self)),
    {
        proof {
            lemma_in_bounds_pos(self.current, self.width as int, self.height as int);
        }
        let color = self.current.shape.texture_offset() as u32;
        let coords = self.current.get_real_coord();
        let ghost cells = self.current.spec_cells();
        let ghost g0 = self.spec_grid();
        let mut i: usize = 0;
        while i < 4
            invariant
                i <= 4,
                coords@.len() == 4,
                forall|k: int|
                    0 <= k < 4 ==> (#[trigger] coords@[k].0 as int, coords@[k].1 as int)
                        == cells[k],
                cells == old(self).current.spec_cells(),
                color == old(self).current.shape.spec_texture_offset() as u32,
                g0 == old(self).spec_grid(),
                old(self).wf(),
                piece_in_bounds(
                    old(self).current,
                    old(self).width as int,
                    old(self).height as int,
                ),
                Field::same_except_tiles(*old(self), *self),
                grid_wf(self.spec_grid(), self.width as int, self.height as int),
                self.spec_grid() == rows::spec_merge_cells(g0, cells.take(i as int), color),
            decreases 4 - i,
        {
            let (cx, cy) = coords[i];
            proof {
                assert(cell_in_rect(cells[i as int], self.width as int, self.height as int));
                assert(self.spec_grid().len() == self.tiles@.len());
                assert(self.spec_grid()[cy as int] == self.tiles@[cy as int]@);
            }
            let ghost g_before = self.spec_grid();
            self.tiles[cy as usize].set(cx as usize, Some(color));
            proof {
                assert(self.spec_grid() =~~= g_before.update(
                    cy as int,
                    g_before[cy as int].update(cx as int, Some(color)),
                ));
                assert(cells.take(i as int + 1).drop_last() =~= cells.take(i as int));
                assert(cells.take(i as int + 1).last() == cells[i as int]);
                assert(self.spec_grid() == rows::spec_merge_cells(
                    g0,
                    cells.take(i as int + 1),
                    color,
                ));
            }
            i = i + 1;
        }
        proof {
            assert(cells.take(4) =~= cells);
        }
    }

    /// True if every column of row `y` holds a locked cell.
    fn row_is_full(&self, y: usize) -> (r: bool)
        requires
            self.wf(),
            y < self.height,
        ensures
            r == rows::spec_row_full(self.spec_grid()[y as int], self.width as int),
    {
        proof {
            assert(self.spec_grid().len() == self.tiles@.len());
            assert(self.spec_grid()[y as int] == self.tiles@[y as int]@);
        }
        let mut x: usize = 0;
        let mut full: bool = true;
        while x < self.width
            invariant
                self.wf(),
                y < self.height,
                x <= self.width,
                self.spec_grid()[y as int] == self.tiles@[y as int]@,
                full == forall|k: int|
                    0 <= k < x ==> (#[trigger] self.spec_grid()[y as int][k]) is Some,
            decreases self.width - x,
        {
            if self.tiles[y][x].is_none() {
                full = false;
            }
            x = x + 1;
        }
        full
    }

    /// True if some locked cell sits in the spawn exclusion zone.
    fn exclusion_hit(&self) -> (r: bool)
        requires
            self.wf(),
        ensures
            r == spec_exclusion_hit(self.spec_grid(), self.width as int),
    {
        let mut y: usize = 0;
        let mut found: bool = false;
        while y < EXCLUSION_ROWS
            invariant
                self.wf(),
                y <= EXCLUSION_ROWS,
                found == exists|a: int, b: int|
                    0 <= b < y && 0 <= a < self.width && (#[trigger] self.spec_grid()[b][a])
                        is Some,
            decreases EXCLUSION_ROWS - y,
        {
            proof {
                assert(self.spec_grid().len() == self.tiles@.len());
                assert(self.spec_grid()[y as int] == self.tiles@[y as int]@);
            }
            let mut x: usize = 0;
            while x < self.width
                invariant
                    self.wf(),
                    y < EXCLUSION_ROWS,
                    x <= self.width,
                    self.spec_grid()[y as int] == self.tiles@[y as int]@,
                    found == ((exists|a: int, b: int|
                        0 <= b < y && 0 <= a < self.width && (#[trigger] self.spec_grid()[b][a])
                            is Some) || (exists|a: int|
                        0 <= a < x && (#[trigger] self.spec_grid()[y as int][a]) is Some)),
                decreases self.width - x,
            {
                if self.tiles[y][x].is_some() {
                    proof {
                        assert(self.spec_grid()[y as int][x as int] is Some);
                    }
                    found = true;
                }
                x = x + 1;
            }
            proof {
                if found {
                    if exists|a: int, b: int|
                        0 <= b < y && 0 <= a < self.width && (#[trigger] self.spec_grid()[b][a])
                            is Some {
                        let (a0, b0) = choose|a: int, b: int|
                            0 <= b < y && 0 <= a < self.width && (#[trigger] self.spec_grid()[b][a])
                                is Some;
                        assert(0 <= b0 < y + 1 && 0 <= a0 < self.width && self.spec_grid()[b0][a0]
                            is Some);
                    } else {
                        let a0 = choose|a: int|
                            0 <= a < self.width && (#[trigger] self.spec_grid()[y as int][a])
                                is Some;
                        assert(0 <= (y as int) < y + 1 && 0 <= a0 < self.width && self.spec_grid()[
                            y as int
                        ][a0] is Some);
                    }
                } else {
                    assert forall|a: int, b: int|
                        0 <= b < y + 1 && 0 <= a < self.width implies !((
                        #[trigger] self.spec_grid()[b][a]) is Some) by {
                        if b < y {
                            assert(!(0 <= b < y && 0 <= a < self.width && self.spec_grid()[b][a]
                                is Some));
                        } else {
                            assert(!(0 <= a < x && self.spec_grid()[y as int][a] is Some));
                        }
                    }
                }
            }
            y = y + 1;
        }
        proof {
            assert(EXCLUSION_ROWS as int == 2);
        }
        found
    }

    /// Clears every full row: the rows that are not full keep their
    /// order and fall to the bottom, and fresh empty rows take the top.
    /// Returns how many rows were cleared.  Afterwards no row is full.
    pub fn check_lines(&mut self) -> (cleared: usize)
        requires
            old(self).wf(),
        ensures
            final (self).wf(),
            Field::same_except_tiles(*old(self), *final (self)),
            final (self).spec_grid() == rows::spec_cleared(
                old(self).spec_grid(),
                old(self).width as int,
            ),
            cleared as int == old(self).height - rows::spec_kept(
                old(self).spec_grid(),
                old(self).width as int,
            ).len(),
            forall|y: int|
                0 <= y < final (self).height ==> !rows::spec_row_full(
                    #[trigger] final (self).spec_grid()[y],
                    final (self).width as int,
                ),
    {
        let ghost g0 = self.spec_grid();
        let ghost w = self.width as int;
        let mut kept: Vec<Vec<Option<u32>>> = Vec::new();
        let mut y: usize = 0;
        proof {
            assert(g0.take(0) =~= Seq::<Seq<Option<u32>>>::empty());
        }
        while y < self.height
            invariant
                self.wf(),
                *self == *old(self),
                g0 == self.spec_grid(),
                w == self.width as int,
                y <= self.height,
                kept@.map_values(|row: Vec<Option<u32>>| row@) == rows::spec_kept(
                    g0.take(y as int),
                    w,
                ),
            decreases self.height - y,
        {
            let full = self.row_is_full(y);
            if !full {
                proof {
                    assert(self.spec_grid()[y as int] == self.tiles@[y as int]@);
                }
                let mut row: Vec<Option<u32>> = Vec::new();
                let mut x: usize = 0;
                while x < self.width
                    invariant
                        self.wf(),
                        y < self.height,
                        x <= self.width,
                        self.spec_grid()[y as int] == self.tiles@[y as int]@,
                        row@.len() == x,
                        forall|k: int| 0 <= k < x ==> row@[k] == self.spec_grid()[y as int][k],
                    decreases self.width - x,
                {
                    let c = self.tiles[y][x];
                    row.push(c);
                    x = x + 1;
                }
                proof {
                    assert(row@ =~= g0[y as int]);
                }
                kept.push(row);
            }
            proof {
                assert(g0.take(y as int + 1) =~= g0.take(y as int).push(g0[y as int]));
                rows::lemma_kept_push(g0.take(y as int), g0[y as int], w);
                if full {
                    assert(kept@.map_values(|row: Vec<Option<u32>>| row@) == rows::spec_kept(
                        g0.take(y as int + 1),
                        w,
                    ));
                } else {
                    assert(kept@.map_values(|row: Vec<Option<u32>>| row@) =~= rows::spec_kept(
                        g0.take(y as int + 1),
                        w,
                    ));
                }
            }
            y = y + 1;
        }
        proof {
            assert(g0.take(self.height as int) =~= g0);
            rows::lemma_kept_len(g0, w);
            assert(kept@.len() == rows::spec_kept(g0, w).len());
        }
        let kept_len = kept.len();
        let cleared = self.height - kept_len;
        let ghost kept_view = kept@.map_values(|row: Vec<Option<u32>>| row@);
        let mut fresh: Vec<Vec<Option<u32>>> = Vec::new();
        let mut k: usize = 0;
        while k < cleared
            invariant
                self.wf(),
                *self == *old(self),
                k <= cleared,
                fresh@.len() == k,
                forall|j: int|
                    0 <= j < k ==> (#[trigger] fresh@[j])@ == rows::spec_empty_row(
                        self.width as int,
                    ),
            decreases cleared - k,
        {
            let mut row: Vec<Option<u32>> = Vec::new();
            let mut x: usize = 0;
            while x < self.width
                invariant
                    self.wf(),
                    x <= self.width,
                    row@.len() == x,
                    forall|j: int| 0 <= j < x ==> row@[j] is None,
                decreases self.width - x,
            {
                row.push(None);
                x = x + 1;
            }
            proof {
                assert(row@ =~= rows::spec_empty_row(self.width as int));
            }
            fresh.push(row);
            k = k + 1;
        }
        fresh.append(&mut kept);
        let ghost pre = *self;
        self.tiles = fresh;
        proof {
            rows::lemma_kept_rows_not_full(g0, w);
            assert(self.spec_grid() =~~= rows::spec_cleared(g0, w));
            assert(grid_wf(self.spec_grid(), w, self.height as int));
            assert forall|yy: int| 0 <= yy < self.height implies !rows::spec_row_full(
                #[trigger] self.spec_grid()[yy],
                w,
            ) by {
                if yy < cleared {
                    assert(self.spec_grid()[yy] == rows::spec_empty_row(w));
                    assert(rows::spec_empty_row(w)[0] is None);
                } else {
                    assert(self.spec_grid()[yy] == rows::spec_kept(g0, w)[yy - cleared]);
                }
            }
        }
        cleared
    }

    /// Commits a landed piece: merges its cells, ends the game if a
    /// merged cell sits in the spawn exclusion zone, otherwise clears
    /// full rows, scores the event, advances the level with the lines
    /// counter, re-arms the hold, spawns the preview piece into play and
    /// draws a fresh preview; the game ends instead if the spawned piece
    /// lies on a locked cell.  A no-op once the game is over.
    pub fn next_piece(&mut self)
        requires
            old(self).wf(),
        ensures
            final (self).wf(),
            old(self).over ==> *final (self) == *old(self),
            !old(self).over ==> spec_lock_step(*old(self), *final (self)),
    {
        if self.over {
            return ;
        }
        self.merge_current();
        if self.exclusion_hit() {
            self.over = true;
            return ;
        }
        let cleared = self.check_lines();
        if cleared > 0 {
            proof {
                rows::lemma_kept_len(spec_merged(*old(self)), self.width as int);
            }
            self.inc_score(cleared as u16);
            let more = cleared as u32;
            if self.lines <= u32::MAX - more {
                self.lines = self.lines + more;
            } else {
                self.lines = u32::MAX;
            }
            let t: u32 = 1 + self.lines / LINES_PER_LEVEL;
            if t > self.level as u32 {
                self.level = if t > 255 {
                    255
                } else {
                    t as u8
                };
            }
        }
        self.pocketed = false;
        self.hard_drop = false;
        self.current = self.next;
        self.current.set_default_pos();
        self.next = Tetromino::new(random_shape());
        self.next.set_for_next();
        proof {
            lemma_spawn_in_bounds(self.current, self.width as int, self.height as int);
        }
        if self.has_collision() {
            self.over = true;
        }
    }

    /// How many locked cells the board holds.
    pub fn locked_count(&self) -> (n: usize)
        requires
            self.wf(),
        ensures
            n as nat == rows::spec_grid_count(self.spec_grid()),
    {
        let ghost g = self.spec_grid();
        let mut total: usize = 0;
        let mut y: usize = 0;
        proof {
            assert(g.take(0) =~= Seq::<Seq<Option<u32>>>::empty());
        }
        while y < self.height
            invariant
                self.wf(),
                g == self.spec_grid(),
                y <= self.height,
                total as nat == rows::spec_grid_count(g.take(y as int)),
                total as int <= (y as int) * (self.width as int),
            decreases self.height - y,
        {
            proof {
                assert(g.len() == self.tiles@.len());
                assert(g[y as int] == self.tiles@[y as int]@);
            }
            let ghost row = g[y as int];
            let mut rowc: usize = 0;
            let mut x: usize = 0;
            proof {
                assert(row.take(0) =~= Seq::<Option<u32>>::empty());
            }
            while x < self.width
                invariant
                    self.wf(),
                    y < self.height,
                    g == self.spec_grid(),
                    row == g[y as int],
                    g[y as int] == self.tiles@[y as int]@,
                    x <= self.width,
                    rowc as nat == rows::spec_row_count(row.take(x as int)),
                    rowc <= x,
                decreases self.width - x,
            {
                let some = self.tiles[y][x].is_some();
                proof {
                    assert(row.take(x as int + 1).drop_last() =~= row.take(x as int));
                    assert(row.take(x as int + 1).last() == row[x as int]);
                }
                if some {
                    rowc = rowc + 1;
                }
                x = x + 1;
            }
            proof {
                assert(row.take(self.width as int) =~= row);
                assert(g.take(y as int + 1).drop_last() =~= g.take(y as int));
                assert(g.take(y as int + 1).last() == row);
                assert((y as int + 1) * (self.width as int) == (y as int) * (self.width as int) + (
                self.width as int)) by (nonlinear_arith);
                assert((y as int + 1) * (self.width as int) <= 0x7FFF * 0x7FFF) by (nonlinear_arith)
                    requires
                        0 <= y as int + 1 <= 0x7FFF,
                        0 <= self.width as int <= 0x7FFF,
                ;
            }
            total = total + rowc;
            y = y + 1;
        }
        proof {
            assert(g.take(self.height as int) =~= g);
        }
        total
    }

    /// Every locked cell as `(column, row, color id)`, in row-major
    /// order: each listed entry is a locked cell, every locked cell is
    /// listed, and the entries come strictly ordered.
    pub fn locked_cells(&self) -> (r: Vec<(usize, usize, u32)>)
        requires
            self.wf(),
        ensures
            forall|i: int|
                0 <= i < r@.len() ==> self.spec_occupied(
                    (#[trigger] r@[i]).0 as int,
                    r@[i].1 as int,
                ) && self.spec_cell(r@[i].0 as int, r@[i].1 as int) == Some(r@[i].2),
            forall|x: int, y: int|
                self.spec_occupied(x, y) ==> exists|i: int|
                    0 <= i < r@.len() && (#[trigger] r@[i]).0 == x && r@[i].1 == y,
            forall|i: int, j: int| 0 <= i < j < r@.len() ==> entry_before(r@[i], r@[j]),
    {
        let mut r: Vec<(usize, usize, u32)> = Vec::new();
        let mut y: usize = 0;
        while y < self.height
            invariant
                self.wf(),
                y <= self.height,
                forall|i: int|
                    0 <= i < r@.len() ==> self.spec_occupied(
                        (#[trigger] r@[i]).0 as int,
                        r@[i].1 as int,
                    ) && self.spec_cell(r@[i].0 as int, r@[i].1 as int) == Some(r@[i].2),
                forall|i: int| 0 <= i < r@.len() ==> (#[trigger] r@[i]).1 < y,
                forall|a: int, b: int|
                    self.spec_occupied(a, b) && b < y ==> exists|i: int|
                        0 <= i < r@.len() && (#[trigger] r@[i]).0 == a && r@[i].1 == b,
                forall|i: int, j: int| 0 <= i < j < r@.len() ==> entry_before(r@[i], r@[j]),
            decreases self.height - y,
        {
            proof {
                assert(self.spec_grid().len() == self.tiles@.len());
                assert(self.spec_grid()[y as int] == self.tiles@[y as int]@);
            }
            let mut x: usize = 0;
            while x < self.width
                invariant
                    self.wf(),
                    y < self.height,
                    x <= self.width,
                    self.spec_grid()[y as int] == self.tiles@[y as int]@,
                    forall|i: int|
                        0 <= i < r@.len() ==> self.spec_occupied(
                            (#[trigger] r@[i]).0 as int,
                            r@[i].1 as int,
                        ) && self.spec_cell(r@[i].0 as int, r@[i].1 as int) == Some(r@[i].2),
                    forall|i: int|
                        0 <= i < r@.len() ==> (#[trigger] r@[i]).1 < y || (r@[i].1 == y && r@[i].0
                            < x),
                    forall|a: int, b: int|
                        self.spec_occupied(a, b) && (b < y || (b == y && a < x)) ==> exists|i: int|
                            0 <= i < r@.len() && (#[trigger] r@[i]).0 == a && r@[i].1 == b,
                    forall|i: int, j: int| 0 <= i < j < r@.len() ==> entry_before(r@[i], r@[j]),
                decreases self.width - x,
            {
                let cell = self.tiles[y][x];
                match cell {
                    Some(c) => {
                        let ghost r0 = r@;
                        r.push((x, y, c));
                        proof {
                            assert(r@ == r0.push((x, y, c)));
                            assert(self.spec_cell(x as int, y as int) == Some(c));
                            assert forall|a: int, b: int|
                                self.spec_occupied(a, b) && (b < y || (b == y && a < x
                                    + 1)) implies exists|i: int|
                                0 <= i < r@.len() && (#[trigger] r@[i]).0 == a && r@[i].1
                                    == b by {
                                if b < y || (b == y && a < x) {
                                    let i0 = choose|i: int|
                                        0 <= i < r0.len() && (#[trigger] r0[i]).0 == a && r0[i].1
                                            == b;
                                    assert(r@[i0] == r0[i0]);
                                } else {
                                    assert(r@[r@.len() - 1] == (x, y, c));
                                }
                            }
                        }
                    },
                    None => {
                        proof {
                            assert(!self.spec_occupied(x as int, y as int));
                            assert forall|a: int, b: int|
                                self.spec_occupied(a, b) && (b < y || (b == y && a < x
                                    + 1)) implies exists|i: int|
                                0 <= i < r@.len() && (#[trigger] r@[i]).0 == a && r@[i].1
                                    == b by {
                                assert(b < y || (b == y && a < x));
                            }
                        }
                    },
                }
                x = x + 1;
            }
            proof {
                assert forall|i: int| 0 <= i < r@.len() implies (#[trigger] r@[i]).1 < y + 1 by {
                    assert(r@[i].1 < y || (r@[i].1 == y && r@[i].0 < x));
                }
                assert forall|a: int, b: int|
                    self.spec_occupied(a, b) && b < y + 1 implies exists|i: int|
                    0 <= i < r@.len() && (#[trigger] r@[i]).0 == a && r@[i].1 == b by {
                    assert(b < y || (b == y && a < self.width));
                }
            }
            y = y + 1;
        }
        r
    }

    /// Attempts to move the piece in play one unit along `axis`
    /// (0 = horizontal, 1 = vertical) in `direction` (+1 or -1).  If any
    /// candidate cell would leave the board or lie on a locked cell the
    /// move is rejected: a rejected downward move lands the piece, which
    /// locks at once; any other rejection is a silent no-op.  A no-op
    /// once the game is over.
    pub fn attempt_move(&mut self, direction: i8, axis: u8)
        requires
            old(self).wf(),
            direction == 1 || direction == -1,
            axis <= 1,
        ensures
            final (self).wf(),
            old(self).over ==> *final (self) == *old(self),
            !old(self).over ==> ({
                let cand = old(self).current.spec_translated(direction as int, axis as int);
                if old(self).spec_fits(cand) {
                    final (self).current == cand && Field::same_except_current(
                        *old(self),
                        *final (self),
                    )
                } else if axis == 1 && direction == 1 {
                    spec_lock_step(
                        (Field {
                            current: (Tetromino { active: false, ..old(self).current }),
                            ..*old(self)
                        }),
                        *final (self),
                    )
                } else {
                    *final (self) == *old(self)
                }
            }),
    {
        if self.over {
            return ;
        }
        proof {
            lemma_in_bounds_pos(self.current, self.width as int, self.height as int);
        }
        let mut cand = self.current;
        cand.make_move(direction, axis);
        if self.fits(&cand) {
            self.current = cand;
            proof {
                assert forall|i: int| 0 <= i < 4 implies cell_in_rect(
                    #[trigger] self.current.spec_cells()[i],
                    self.width as int,
                    self.height as int,
                ) by {
                    assert(old(self).spec_fits(cand));
                }
            }
        } else if axis == 1 && direction == 1 {
            self.current.deactivate();
            proof {
                assert(self.current.spec_cells() =~= old(self).current.spec_cells());
                assert(piece_in_bounds(
                    self.current,
                    self.width as int,
                    self.height as int,
                )) by {
                    assert forall|i: int| 0 <= i < 4 implies cell_in_rect(
                        #[trigger] self.current.spec_cells()[i],
                        self.width as int,
                        self.height as int,
                    ) by {
                        assert(self.current.spec_cells()[i] == old(self).current.spec_cells()[i]);
                    }
                }
            }
            self.next_piece();
        }
    }

    /// Advances the clock by one tick.  When the accumulator reaches the
    /// gravity threshold for the current level and modifiers it resets
    /// and a downward move is attempted, which locks the piece if it has
    /// landed.  A no-op once the game is over.
    pub fn tick(&mut self)
        requires
            old(self).wf(),
        ensures
            final (self).wf(),
            old(self).over ==> *final (self) == *old(self),
            !old(self).over ==> ({
                let thr = gravity::spec_threshold(
                    old(self).level,
                    old(self).accelerated,
                    old(self).hard_drop,
                );
                let e2: u64 = if old(self).elapsed < u64::MAX {
                    (old(self).elapsed + 1) as u64
                } else {
                    u64::MAX
                };
                if old(self).ticks < thr {
                    &&& final (self).ticks == old(self).ticks + 1
                    &&& final (self).elapsed == e2
                    &&& final (self).spec_grid() == old(self).spec_grid()
                    &&& final (self).current == old(self).current
                    &&& final (self).next == old(self).next
                    &&& final (self).pocket == old(self).pocket
                    &&& final (self).width == old(self).width
                    &&& final (self).height == old(self).height
                    &&& final (self).pocketed == old(self).pocketed
                    &&& final (self).level == old(self).level
                    &&& final (self).score == old(self).score
                    &&& final (self).lines == old(self).lines
                    &&& final (self).accelerated == old(self).accelerated
                    &&& final (self).hard_drop == old(self).hard_drop
                    &&& final (self).over == old(self).over
                } else {
                    ({
                        let mid = Field { ticks: 0u32, elapsed: e2, ..*old(self) };
                        let cand = mid.current.spec_translated(1, 1);
                        if mid.spec_fits(cand) {
                            final (self).current == cand && Field::same_except_current(
                                mid,
                                *final (self),
                            )
                        } else {
                            spec_lock_step(
                                (Field {
                                    current: (Tetromino { active: false, ..mid.current }),
                                    ..mid
                                }),
                                *final (self),
                            )
                        }
                    })
                }
            }),
    {
        if self.over {
            return ;
        }
        let thr = gravity::tick_threshold(self.level, self.accelerated, self.hard_drop);
        if self.elapsed < u64::MAX {
            self.elapsed = self.elapsed + 1;
        }
        if self.ticks >= thr {
            self.ticks = 0;
            self.attempt_move(1, 1);
        } else {
            self.ticks = self.ticks + 1;
        }
    }

    /// Reserves the piece in play.  With the hold slot empty, the piece
    /// in play moves there and the preview piece spawns into play; with
    /// the slot taken, the two pieces swap, each at its canonical
    /// position.  Usable once per drop cycle: a no-op while the hold has
    /// been used since the last lock, or once the game is over.
    pub fn pocket(&mut self)
        requires
            old(self).wf(),
        ensures
            final (self).wf(),
            old(self).over || old(self).pocketed ==> *final (self) == *old(self),
            !old(self).over && !old(self).pocketed ==> ({
                &&& final (self).pocketed
                &&& final (self).spec_grid() == old(self).spec_grid()
                &&& final (self).pocket == Some(
                    (Tetromino {
                        pos_x: POCKET_X,
                        pos_y: POCKET_Y,
                        r_angle: 0,
                        ..old(self).current
                    }),
                )
                &&& match old(self).pocket {
                    Some(p) => final (self).current == (Tetromino {
                        pos_x: SPAWN_X,
                        pos_y: SPAWN_Y,
                        r_angle: 0,
                        ..p
                    }) && final (self).next == old(self).next,
                    None => final (self).current == (Tetromino {
                        pos_x: SPAWN_X,
                        pos_y: SPAWN_Y,
                        r_angle: 0,
                        ..old(self).next
                    }) && is_preview(final (self).next),
                }
                &&& final (self).width == old(self).width
                &&& final (self).height == old(self).height
                &&& final (self).level == old(self).level
                &&& final (self).score == old(self).score
                &&& final (self).lines == old(self).lines
                &&& final (self).ticks == old(self).ticks
                &&& final (self).elapsed == old(self).elapsed
                &&& final (self).accelerated == old(self).accelerated
                &&& final (self).hard_drop == old(self).hard_drop
                &&& final (self).over == old(self).over
            }),
    {
        if self.over || self.pocketed {
            return ;
        }
        if self.pocket.is_some() {
            let mut pk = self.pocket.unwrap();
            pk.set_default_pos();
            self.current.set_to_pocket();
            self.pocket = Some(self.current);
            self.current = pk;
        } else {
            self.current.set_to_pocket();
            self.pocket = Some(self.current);
            self.current = self.next;
            self.current.set_default_pos();
            self.next = Tetromino::new(random_shape());
            self.next.set_for_next();
        }
        self.pocketed = true;
        proof {
            lemma_spawn_in_bounds(self.current, self.width as int, self.height as int);
        }
    }

    /// The piece in play.
    pub fn current_piece(&self) -> (r: &Tetromino)
        ensures
            *r == self.current,
    {
        &self.current
    }

    /// The piece previewed as next.
    pub fn preview_piece(&self) -> (r: &Tetromino)
        ensures
            *r == self.next,
    {
        &self.next
    }

    /// The held piece, if any.
    pub fn pocket_piece(&self) -> (r: &Option<Tetromino>)
        ensures
            *r == self.pocket,
    {
        &self.pocket
    }

    /// The elapsed-time counter: how many ticks the board has seen.
    pub fn elapsed_time(&self) -> (r: u64)
        ensures
            r == self.elapsed,
    {
        self.elapsed
    }

    /// Engages or releases the soft-drop modifier.
    pub fn set_accelerated(&mut self, on: bool)
        ensures
            final (self).accelerated == on,
            final (self).spec_grid() == old(self).spec_grid(),
            final (self).pocket == old(self).pocket,
            final (self).current == old(self).current,
            final (self).next == old(self).next,
            final (self).width == old(self).width,
            final (self).height == old(self).height,
            final (self).pocketed == old(self).pocketed,
            final (self).level == old(self).level,
            final (self).score == old(self).score,
            final (self).lines == old(self).lines,
            final (self).ticks == old(self).ticks,
            final (self).elapsed == old(self).elapsed,
            final (self).hard_drop == old(self).hard_drop,
            final (self).over == old(self).over,
    {
        self.accelerated = on;
    }

    /// Engages the hard-drop modifier: the next tick's threshold check
    /// passes immediately.  It resets when the piece locks.
    pub fn set_hard_drop(&mut self)
        ensures
            final (self).hard_drop,
            final (self).spec_grid() == old(self).spec_grid(),
            final (self).pocket == old(self).pocket,
            final (self).current == old(self).current,
            final (self).next == old(self).next,
            final (self).width == old(self).width,
            final (self).height == old(self).height,
            final (self).pocketed == old(self).pocketed,
            final (self).level == old(self).level,
            final (self).score == old(self).score,
            final (self).lines == old(self).lines,
            final (self).ticks == old(self).ticks,
            final (self).elapsed == old(self).elapsed,
            final (self).accelerated == old(self).accelerated,
            final (self).over == old(self).over,
    {
        self.hard_drop = true;
    }

    /// Attempts to rotate the piece in play.  The candidate cells come
    /// from the rotated table state; if any would leave the board or lie
    /// on a locked cell the rotation is rejected and the board is left
    /// unchanged, with no wall-kick retry.  A no-op once the game is
    /// over.
    pub fn rotate(&mut self, direction: Rotation)
        requires
            old(self).wf(),
        ensures
            final (self).wf(),
            old(self).over ==> *final (self) == *old(self),
            !old(self).over ==> {
                let cand = old(self).current.spec_rotated(direction);
                if old(self).spec_fits(cand) {
                    final (self).current == cand && Field::same_except_current(
                        *old(self),
                        *final (self),
                    )
                } else {
                    *final (self) == *old(self)
                }
            },
    {
        if self.over {
            return ;
        }
        let mut cand = self.current;
        cand.rotate(direction);
        proof {
            lemma_in_bounds_pos(self.current, self.width as int, self.height as int);
        }
        if self.fits(&cand) {
            self.current = cand;
            proof {
                assert(piece_in_bounds(
                    self.current,
                    self.width as int,
                    self.height as int,
                )) by {
                    assert forall|i: int| 0 <= i < 4 implies cell_in_rect(
                        #[trigger] self.current.spec_cells()[i],
                        self.width as int,
                        self.height as int,
                    ) by {
                        assert(old(self).spec_fits(cand));
                    }
                }
            }
        }
    }
}

} // verus!
