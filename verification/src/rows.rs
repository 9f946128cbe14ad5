//! Pure functions and lemmas on grids of locked cells: occupancy
//! counting, full rows, merging a piece's cells, and the row-clearing
//! transformation.
//!
//! A grid is a sequence of rows, each a sequence of optional color ids;
//! row 0 is the top.  Clearing keeps the rows that are not full, in
//! order, and stacks fresh empty rows on top, so every surviving row
//! moves down by one row per cleared row below it.

use vstd::prelude::*;

verus! {

/// How many cells of the row are occupied.
pub open spec fn spec_row_count(row: Seq<Option<u32>>) -> nat
    decreases row.len(),
{
    if row.len() == 0 {
        0
    } else {
        spec_row_count(row.drop_last()) + (if row.last() is Some {
            1nat
        } else {
            0nat
        })
    }
}

/// How many cells of the whole grid are occupied.
pub open spec fn spec_grid_count(g: Seq<Seq<Option<u32>>>) -> nat
    decreases g.len(),
{
    if g.len() == 0 {
        0
    } else {
        spec_grid_count(g.drop_last()) + spec_row_count(g.last())
    }
}

/// Every column in `[0, width)` is occupied in the row.
pub open spec fn spec_row_full(row: Seq<Option<u32>>, width: int) -> bool {
    forall|x: int| 0 <= x < width ==> row[x] is Some
}

/// A row of `width` free cells.
pub open spec fn spec_empty_row(width: int) -> Seq<Option<u32>> {
    Seq::new(width as nat, |x: int| Option::<u32>::None)
}

/// The rows of `g` that are not full, in order.
pub open spec fn spec_kept(g: Seq<Seq<Option<u32>>>, width: int) -> Seq<Seq<Option<u32>>>
    decreases g.len(),
{
    if g.len() == 0 {
        Seq::empty()
    } else if spec_row_full(g.first(), width) {
        spec_kept(g.drop_first(), width)
    } else {
        seq![g.first()] + spec_kept(g.drop_first(), width)
    }
}

/// The grid after clearing: fresh empty rows on top, then every row that
/// was not full, in order.
pub open spec fn spec_cleared(g: Seq<Seq<Option<u32>>>, width: int) -> Seq<Seq<Option<u32>>> {
    let kept = spec_kept(g, width);
    Seq::new((g.len() - kept.len()) as nat, |i: int| spec_empty_row(width)) + kept
}

/// The grid with each of `cells` set to `color`, one cell at a time.
pub open spec fn spec_merge_cells(
    g: Seq<Seq<Option<u32>>>,
    cells: Seq<(int, int)>,
    color: u32,
) -> Seq<Seq<Option<u32>>>
    decreases cells.len(),
{
    if cells.len() == 0 {
        g
    } else {
        let g2 = spec_merge_cells(g, cells.drop_last(), color);
        let c = cells.last();
        g2.update(c.1, g2[c.1].update(c.0, Some(color)))
    }
}

/// A row whose cells are all occupied counts its full length.
pub proof fn lemma_row_all_some_count(row: Seq<Option<u32>>)
    requires
        forall|x: int| 0 <= x < row.len() ==> row[x] is Some,
    ensures
        spec_row_count(row) == row.len(),
    decreases row.len(),
{
    if row.len() > 0 {
        assert forall|x: int| 0 <= x < row.drop_last().len() implies row.drop_last()[x]
            is Some by {
            assert(row.drop_last()[x] == row[x]);
        }
        lemma_row_all_some_count(row.drop_last());
        assert(row.last() == row[row.len() - 1]);
    }
}

/// A row whose cells are all free counts zero.
pub proof fn lemma_row_all_none_count(row: Seq<Option<u32>>)
    requires
        forall|x: int| 0 <= x < row.len() ==> row[x] is None,
    ensures
        spec_row_count(row) == 0,
    decreases row.len(),
{
    if row.len() > 0 {
        assert forall|x: int| 0 <= x < row.drop_last().len() implies row.drop_last()[x]
            is None by {
            assert(row.drop_last()[x] == row[x]);
        }
        lemma_row_all_none_count(row.drop_last());
        assert(row.last() == row[row.len() - 1]);
    }
}

/// Writing one cell changes the row's count by the difference between
/// the new and the old cell.
pub proof fn lemma_row_count_update(row: Seq<Option<u32>>, x: int, v: Option<u32>)
    requires
        0 <= x < row.len(),
    ensures
        spec_row_count(row.update(x, v)) + (if row[x] is Some {
            1nat
        } else {
            0nat
        }) == spec_row_count(row) + (if v is Some {
            1nat
        } else {
            0nat
        }),
    decreases row.len(),
{
    let r2 = row.update(x, v);
    if x == row.len() - 1 {
        assert(r2.drop_last() =~= row.drop_last());
        assert(r2.last() == v);
    } else {
        assert(r2.drop_last() =~= row.drop_last().update(x, v));
        lemma_row_count_update(row.drop_last(), x, v);
        assert(r2.last() == row.last());
    }
}

/// Replacing one row changes the grid's count by the difference between
/// the new and the old row.
pub proof fn lemma_grid_count_update(g: Seq<Seq<Option<u32>>>, y: int, row: Seq<Option<u32>>)
    requires
        0 <= y < g.len(),
    ensures
        spec_grid_count(g.update(y, row)) + spec_row_count(g[y]) == spec_grid_count(g)
            + spec_row_count(row),
    decreases g.len(),
{
    let g2 = g.update(y, row);
    if y == g.len() - 1 {
        assert(g2.drop_last() =~= g.drop_last());
        assert(g2.last() == row);
    } else {
        assert(g2.drop_last() =~= g.drop_last().update(y, row));
        lemma_grid_count_update(g.drop_last(), y, row);
        assert(g2.last() == g.last());
    }
}

/// Counting distributes over concatenation of grids.
pub proof fn lemma_grid_count_concat(a: Seq<Seq<Option<u32>>>, b: Seq<Seq<Option<u32>>>)
    ensures
        spec_grid_count(a + b) == spec_grid_count(a) + spec_grid_count(b),
    decreases b.len(),
{
    if b.len() == 0 {
        assert(a + b =~= a);
    } else {
        assert((a + b).drop_last() =~= a + b.drop_last());
        assert((a + b).last() == b.last());
        lemma_grid_count_concat(a, b.drop_last());
    }
}

/// A one-row grid counts that row.
pub proof fn lemma_grid_count_single(r: Seq<Option<u32>>)
    ensures
        spec_grid_count(seq![r]) == spec_row_count(r),
{
    assert(seq![r].drop_last() =~= Seq::<Seq<Option<u32>>>::empty());
    assert(spec_grid_count(Seq::<Seq<Option<u32>>>::empty()) == 0);
    assert(seq![r].last() == r);
}

/// The count of a grid is its first row's count plus the rest's.
pub proof fn lemma_grid_count_first(g: Seq<Seq<Option<u32>>>)
    requires
        g.len() > 0,
    ensures
        spec_grid_count(g) == spec_row_count(g.first()) + spec_grid_count(g.drop_first()),
{
    assert(g =~= seq![g.first()] + g.drop_first());
    lemma_grid_count_concat(seq![g.first()], g.drop_first());
    lemma_grid_count_single(g.first());
}

/// A stack of empty rows counts zero.
pub proof fn lemma_empty_rows_count(n: nat, width: int)
    ensures
        spec_grid_count(Seq::new(n, |i: int| spec_empty_row(width))) == 0,
    decreases n,
{
    let s = Seq::new(n, |i: int| spec_empty_row(width));
    if n > 0 {
        assert(s.drop_last() =~= Seq::new((n - 1) as nat, |i: int| spec_empty_row(width)));
        lemma_empty_rows_count((n - 1) as nat, width);
        lemma_row_all_none_count(spec_empty_row(width));
        assert(s.last() == spec_empty_row(width));
    }
}

/// The kept rows are no more numerous than the grid's rows.
pub proof fn lemma_kept_len(g: Seq<Seq<Option<u32>>>, width: int)
    ensures
        spec_kept(g, width).len() <= g.len(),
    decreases g.len(),
{
    if g.len() > 0 {
        lemma_kept_len(g.drop_first(), width);
    }
}

/// Each kept row keeps its width and is not full.
pub proof fn lemma_kept_rows_not_full(g: Seq<Seq<Option<u32>>>, width: int)
    requires
        forall|y: int| 0 <= y < g.len() ==> (#[trigger] g[y]).len() == width,
    ensures
        forall|i: int|
            0 <= i < spec_kept(g, width).len() ==> (#[trigger] spec_kept(g, width)[i]).len()
                == width && !spec_row_full(spec_kept(g, width)[i], width),
    decreases g.len(),
{
    if g.len() > 0 {
        let rest = g.drop_first();
        assert forall|y: int| 0 <= y < rest.len() implies (#[trigger] rest[y]).len() == width by {
            assert(rest[y] == g[y + 1]);
        }
        lemma_kept_rows_not_full(rest, width);
        assert forall|i: int| 0 <= i < spec_kept(g, width).len() implies (#[trigger] spec_kept(
            g,
            width,
        )[i]).len() == width && !spec_row_full(spec_kept(g, width)[i], width) by {
            if spec_row_full(g.first(), width) {
                assert(spec_kept(g, width)[i] == spec_kept(rest, width)[i]);
            } else if i == 0 {
                assert(spec_kept(g, width)[0] == g.first());
                assert(g.first() == g[0]);
            } else {
                assert(spec_kept(g, width)[i] == spec_kept(rest, width)[i - 1]);
            }
        }
    }
}

/// Clearing removes exactly `width` occupied cells per dropped row: the
/// kept rows' count plus the cleared rows' cells equals the grid's count.
pub proof fn lemma_kept_count(g: Seq<Seq<Option<u32>>>, width: int)
    requires
        width >= 0,
        forall|y: int| 0 <= y < g.len() ==> (#[trigger] g[y]).len() == width,
    ensures
        spec_kept(g, width).len() <= g.len(),
        spec_grid_count(spec_kept(g, width)) + width * (g.len() - spec_kept(g, width).len())
            == spec_grid_count(g),
    decreases g.len(),
{
    lemma_kept_len(g, width);
    if g.len() == 0 {
        assert(spec_kept(g, width) == Seq::<Seq<Option<u32>>>::empty());
        assert(spec_grid_count(Seq::<Seq<Option<u32>>>::empty()) == 0);
    } else {
        let rest = g.drop_first();
        assert forall|y: int| 0 <= y < rest.len() implies (#[trigger] rest[y]).len() == width by {
            assert(rest[y] == g[y + 1]);
        }
        lemma_kept_count(rest, width);
        lemma_grid_count_first(g);
        assert(g.first() == g[0]);
        let kr = spec_kept(rest, width);
        if spec_row_full(g.first(), width) {
            lemma_row_all_some_count(g.first());
            assert(spec_kept(g, width) == kr);
            let d = rest.len() - kr.len();
            assert(width * (d + 1) == width * d + width) by (nonlinear_arith);
        } else {
            assert(spec_kept(g, width) == seq![g.first()] + kr);
            lemma_grid_count_concat(seq![g.first()], kr);
            lemma_grid_count_single(g.first());
        }
    }
}

/// Appending a row to a grid keeps it among the kept rows exactly when
/// it is not full.
pub proof fn lemma_kept_push(g: Seq<Seq<Option<u32>>>, r: Seq<Option<u32>>, width: int)
    ensures
        spec_kept(g.push(r), width) == (if spec_row_full(r, width) {
            spec_kept(g, width)
        } else {
            spec_kept(g, width).push(r)
        }),
    decreases g.len(),
{
    let gp = g.push(r);
    assert(spec_kept(Seq::<Seq<Option<u32>>>::empty(), width) == Seq::<Seq<Option<u32>>>::empty());
    if g.len() == 0 {
        assert(gp.first() == r);
        assert(gp.drop_first() =~= Seq::<Seq<Option<u32>>>::empty());
        assert(g =~= Seq::<Seq<Option<u32>>>::empty());
        if !spec_row_full(r, width) {
            assert(spec_kept(gp, width) =~= spec_kept(g, width).push(r));
        }
    } else {
        assert(gp.first() == g.first());
        assert(gp.drop_first() =~= g.drop_first().push(r));
        lemma_kept_push(g.drop_first(), r, width);
        if spec_row_full(g.first(), width) {
        } else {
            if spec_row_full(r, width) {
                assert(spec_kept(gp, width) =~= spec_kept(g, width));
            } else {
                assert(spec_kept(gp, width) =~= spec_kept(g, width).push(r));
            }
        }
    }
}

/// A grid with no full row keeps all of its rows.
pub proof fn lemma_kept_all(g: Seq<Seq<Option<u32>>>, width: int)
    requires
        forall|y: int| 0 <= y < g.len() ==> !spec_row_full(#[trigger] g[y], width),
    ensures
        spec_kept(g, width) == g,
    decreases g.len(),
{
    if g.len() == 0 {
        assert(spec_kept(g, width) =~= g);
    } else {
        let rest = g.drop_first();
        assert forall|y: int| 0 <= y < rest.len() implies !spec_row_full(
            #[trigger] rest[y],
            width,
        ) by {
            assert(rest[y] == g[y + 1]);
        }
        lemma_kept_all(rest, width);
        assert(g.first() == g[0]);
        assert(spec_kept(g, width) =~= g);
    }
}

/// With exactly one full row, the kept rows are the grid without it.
pub proof fn lemma_kept_single(g: Seq<Seq<Option<u32>>>, width: int, y0: int)
    requires
        0 <= y0 < g.len(),
        spec_row_full(g[y0], width),
        forall|y: int| 0 <= y < g.len() && y != y0 ==> !spec_row_full(#[trigger] g[y], width),
    ensures
        spec_kept(g, width) == g.subrange(0, y0) + g.subrange(y0 + 1, g.len() as int),
    decreases g.len(),
{
    let rest = g.drop_first();
    if y0 == 0 {
        assert(g.first() == g[0]);
        assert forall|y: int| 0 <= y < rest.len() implies !spec_row_full(
            #[trigger] rest[y],
            width,
        ) by {
            assert(rest[y] == g[y + 1]);
        }
        lemma_kept_all(rest, width);
        assert(spec_kept(g, width) == rest);
        assert(g.subrange(0, 0) =~= Seq::<Seq<Option<u32>>>::empty());
        assert(rest =~= g.subrange(1, g.len() as int));
        assert(spec_kept(g, width) =~= g.subrange(0, y0) + g.subrange(y0 + 1, g.len() as int));
    } else {
        assert(g.first() == g[0]);
        assert(!spec_row_full(g.first(), width));
        assert(rest[y0 - 1] == g[y0]);
        assert forall|y: int| 0 <= y < rest.len() && y != y0 - 1 implies !spec_row_full(
            #[trigger] rest[y],
            width,
        ) by {
            assert(rest[y] == g[y + 1]);
        }
        lemma_kept_single(rest, width, y0 - 1);
        assert(spec_kept(g, width) == seq![g.first()] + (rest.subrange(0, y0 - 1) + rest.subrange(
            y0,
            rest.len() as int,
        )));
        assert forall|k: int| 0 <= k < rest.len() implies #[trigger] rest[k] == g[k + 1] by {}
        assert(spec_kept(g, width) =~= g.subrange(0, y0) + g.subrange(y0 + 1, g.len() as int));
    }
}

/// Clearing a single full row: the top row becomes empty, every row
/// above the cleared one reappears one row lower, and every row below it
/// stays in place.
pub proof fn lemma_clear_single_row(g: Seq<Seq<Option<u32>>>, width: int, y0: int)
    requires
        0 <= y0 < g.len(),
        spec_row_full(g[y0], width),
        forall|y: int| 0 <= y < g.len() && y != y0 ==> !spec_row_full(#[trigger] g[y], width),
    ensures
        spec_cleared(g, width).len() == g.len(),
        spec_cleared(g, width)[0] == spec_empty_row(width),
        forall|y: int| 0 < y <= y0 ==> #[trigger] spec_cleared(g, width)[y] == g[y - 1],
        forall|y: int| y0 < y < g.len() ==> #[trigger] spec_cleared(g, width)[y] == g[y],
{
    lemma_kept_single(g, width, y0);
    let kept = spec_kept(g, width);
    assert(kept.len() == g.len() - 1);
    let cleared = spec_cleared(g, width);
    assert(cleared =~= Seq::new(1, |i: int| spec_empty_row(width)) + kept);
    assert forall|y: int| 0 < y <= y0 implies #[trigger] cleared[y] == g[y - 1] by {
        assert(cleared[y] == kept[y - 1]);
        assert(kept[y - 1] == g.subrange(0, y0)[y - 1]);
    }
    assert forall|y: int| y0 < y < g.len() implies #[trigger] cleared[y] == g[y] by {
        assert(cleared[y] == kept[y - 1]);
        assert(kept[y - 1] == g.subrange(y0 + 1, g.len() as int)[y - 1 - y0]);
    }
}

/// What each cell of a merged grid holds: `color` on the merged cells,
/// the original value elsewhere; the dimensions do not change.
pub proof fn lemma_merge_pointwise(
    g: Seq<Seq<Option<u32>>>,
    cells: Seq<(int, int)>,
    color: u32,
    width: int,
    height: int,
)
    requires
        g.len() == height,
        forall|y: int| 0 <= y < height ==> (#[trigger] g[y]).len() == width,
        forall|k: int|
            0 <= k < cells.len() ==> 0 <= (#[trigger] cells[k]).0 < width && 0 <= cells[k].1
                < height,
    ensures
        spec_merge_cells(g, cells, color).len() == height,
        forall|y: int|
            0 <= y < height ==> (#[trigger] spec_merge_cells(g, cells, color)[y]).len() == width,
        forall|x: int, y: int|
            0 <= x < width && 0 <= y < height ==> #[trigger] spec_merge_cells(g, cells, color)[y][x]
                == (if exists|k: int| 0 <= k < cells.len() && #[trigger] cells[k] == (x, y) {
                Some(color)
            } else {
                g[y][x]
            }),
    decreases cells.len(),
{
    if cells.len() > 0 {
        let init = cells.drop_last();
        let c = cells.last();
        assert forall|k: int|
            0 <= k < init.len() implies 0 <= (#[trigger] init[k]).0 < width && 0 <= init[k].1
            < height by {
            assert(init[k] == cells[k]);
        }
        lemma_merge_pointwise(g, init, color, width, height);
        let g2 = spec_merge_cells(g, init, color);
        let m = spec_merge_cells(g, cells, color);
        assert(m == g2.update(c.1, g2[c.1].update(c.0, Some(color))));
        assert forall|x: int, y: int| 0 <= x < width && 0 <= y < height implies #[trigger] m[y][x]
            == (if exists|k: int| 0 <= k < cells.len() && #[trigger] cells[k] == (x, y) {
            Some(color)
        } else {
            g[y][x]
        }) by {
            if x == c.0 && y == c.1 {
                assert(cells[cells.len() - 1] == (x, y));
            } else {
                if y == c.1 {
                    assert(m[y][x] == g2[y][x]);
                } else {
                    assert(m[y] == g2[y]);
                }
                if exists|k: int| 0 <= k < cells.len() && #[trigger] cells[k] == (x, y) {
                    let k0 = choose|k: int| 0 <= k < cells.len() && #[trigger] cells[k] == (x, y);
                    assert(k0 < cells.len() - 1);
                    assert(init[k0] == (x, y));
                } else {
                    assert forall|k: int| 0 <= k < init.len() implies #[trigger] init[k] != (
                        x,
                        y,
                    ) by {
                        assert(cells[k] == init[k]);
                    }
                }
            }
        }
    }
}

/// Merging pairwise-distinct cells that were all free adds exactly one
/// occupied cell per merged cell.
pub proof fn lemma_merge_count(
    g: Seq<Seq<Option<u32>>>,
    cells: Seq<(int, int)>,
    color: u32,
    width: int,
    height: int,
)
    requires
        g.len() == height,
        forall|y: int| 0 <= y < height ==> (#[trigger] g[y]).len() == width,
        forall|k: int|
            0 <= k < cells.len() ==> 0 <= (#[trigger] cells[k]).0 < width && 0 <= cells[k].1
                < height,
        forall|i: int, j: int|
            0 <= i < cells.len() && 0 <= j < cells.len() && i != j ==> #[trigger] cells[i]
                != #[trigger] cells[j],
        forall|k: int|
            0 <= k < cells.len() ==> g[(#[trigger] cells[k]).1][cells[k].0] is None,
    ensures
        spec_grid_count(spec_merge_cells(g, cells, color)) == spec_grid_count(g) + cells.len(),
    decreases cells.len(),
{
    if cells.len() > 0 {
        let init = cells.drop_last();
        let c = cells.last();
        assert forall|k: int|
            0 <= k < init.len() implies 0 <= (#[trigger] init[k]).0 < width && 0 <= init[k].1
            < height by {
            assert(init[k] == cells[k]);
        }
        assert forall|i: int, j: int|
            0 <= i < init.len() && 0 <= j < init.len() && i != j implies #[trigger] init[i]
            != #[trigger] init[j] by {
            assert(init[i] == cells[i] && init[j] == cells[j]);
        }
        assert forall|k: int|
            0 <= k < init.len() implies g[(#[trigger] init[k]).1][init[k].0] is None by {
            assert(init[k] == cells[k]);
        }
        lemma_merge_count(g, init, color, width, height);
        lemma_merge_pointwise(g, init, color, width, height);
        let g2 = spec_merge_cells(g, init, color);
        // The last cell is distinct from every earlier one, so it is
        // still free in the partially merged grid.
        assert(c == cells[cells.len() - 1]);
        assert forall|k: int| 0 <= k < init.len() implies #[trigger] init[k] != (c.0, c.1) by {
            assert(init[k] == cells[k]);
            assert(cells[k] != cells[cells.len() - 1]);
        }
        assert(g2[c.1][c.0] == g[c.1][c.0]);
        assert(g[c.1][c.0] is None);
        lemma_row_count_update(g2[c.1], c.0, Some(color));
        lemma_grid_count_update(g2, c.1, g2[c.1].update(c.0, Some(color)));
    }
}

} // verus!
