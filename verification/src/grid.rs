//! Grids of cells: their shape, how cells are counted, and how one grid is
//! reconciled with another.

use crate::cell::Cell;
use vstd::prelude::*;

verus! {

pub const MAP_WIDTH: usize = 20;

pub const MAP_HEIGHT: usize = 20;

/// The rows of a grid as plain sequences: row `y` holds the cells `(0, y)`,
/// `(1, y)`, and so on.
pub open spec fn rows(g: &Vec<Vec<Cell>>) -> Seq<Seq<Cell>> {
    Seq::new(g@.len(), |y: int| g@[y]@)
}

pub open spec fn in_bounds(x: int, y: int) -> bool {
    0 <= x < MAP_WIDTH && 0 <= y < MAP_HEIGHT
}

/// A grid has `MAP_HEIGHT` rows of `MAP_WIDTH` cells each.
pub open spec fn shaped(m: Seq<Seq<Cell>>) -> bool {
    &&& m.len() == MAP_HEIGHT
    &&& forall|y: int| 0 <= y < MAP_HEIGHT ==> (#[trigger] m[y]).len() == MAP_WIDTH
}

/// The cell in column `x` of row `y`.
pub open spec fn cell_at(m: Seq<Seq<Cell>>, x: int, y: int) -> Cell {
    m[y][x]
}

/// The grid `m` with the cell at `(x, y)` replaced by `c`.
pub open spec fn with_cell(m: Seq<Seq<Cell>>, x: int, y: int, c: Cell) -> Seq<Seq<Cell>> {
    m.update(y, m[y].update(x, c))
}

/// The grid whose every cell is `c`.
pub open spec fn uniform(c: Cell) -> Seq<Seq<Cell>> {
    Seq::new(MAP_HEIGHT as nat, |y: int| Seq::new(MAP_WIDTH as nat, |x: int| c))
}

/// Cell by cell, what a view `local` holds after it is reconciled with `peer`.
pub open spec fn merged_grid(local: Seq<Seq<Cell>>, peer: Seq<Seq<Cell>>) -> Seq<Seq<Cell>> {
    Seq::new(
        MAP_HEIGHT as nat,
        |y: int| Seq::new(MAP_WIDTH as nat, |x: int| local[y][x].merged(peer[y][x])),
    )
}

/// How many cells of a row equal `c`.
pub open spec fn row_count(r: Seq<Cell>, c: Cell) -> nat
    decreases r.len(),
{
    if r.len() == 0 {
        0
    } else {
        row_count(r.drop_last(), c) + if r.last() == c {
            1nat
        } else {
            0nat
        }
    }
}

/// How many cells of a grid equal `c`.
pub open spec fn count(m: Seq<Seq<Cell>>, c: Cell) -> nat
    decreases m.len(),
{
    if m.len() == 0 {
        0
    } else {
        count(m.drop_last(), c) + row_count(m.last(), c)
    }
}

/// Replacing one cell of a row moves one unit of count from the old value to
/// the new one.
pub proof fn lemma_row_count_update(r: Seq<Cell>, x: int, v: Cell, c: Cell)
    requires
        0 <= x < r.len(),
    ensures
        row_count(r.update(x, v), c) + (if r[x] == c { 1nat } else { 0nat })
            == row_count(r, c) + (if v == c { 1nat } else { 0nat }),
    decreases r.len(),
{
    let u = r.update(x, v);
    if x == r.len() - 1 {
        assert(u.drop_last() =~= r.drop_last());
    } else {
        assert(u.drop_last() =~= r.drop_last().update(x, v));
        lemma_row_count_update(r.drop_last(), x, v, c);
    }
}

/// Replacing one cell of a grid moves one unit of count from the old value to
/// the new one.
pub proof fn lemma_count_update(m: Seq<Seq<Cell>>, x: int, y: int, v: Cell, c: Cell)
    requires
        0 <= y < m.len(),
        0 <= x < m[y].len(),
    ensures
        count(with_cell(m, x, y, v), c) + (if m[y][x] == c { 1nat } else { 0nat })
            == count(m, c) + (if v == c { 1nat } else { 0nat }),
    decreases m.len(),
{
    let u = with_cell(m, x, y, v);
    if y == m.len() - 1 {
        assert(u.drop_last() =~= m.drop_last());
        lemma_row_count_update(m[y], x, v, c);
    } else {
        assert(u.drop_last() =~= with_cell(m.drop_last(), x, y, v));
        lemma_count_update(m.drop_last(), x, y, v, c);
    }
}

/// A row holds `c` at some place exactly when its count of `c` is not zero,
/// and never more often than it has cells.
pub proof fn lemma_row_count_positive(r: Seq<Cell>, c: Cell)
    ensures
        row_count(r, c) <= r.len(),
        row_count(r, c) > 0 <==> exists|x: int| 0 <= x < r.len() && r[x] == c,
    decreases r.len(),
{
    if r.len() > 0 {
        let p = r.drop_last();
        lemma_row_count_positive(p, c);
        if exists|x: int| 0 <= x < r.len() && r[x] == c {
            let x = choose|x: int| 0 <= x < r.len() && r[x] == c;
            if x < r.len() - 1 {
                assert(p[x] == c);
            }
        }
    }
}

/// A grid holds `c` at some place exactly when its count of `c` is not zero.
pub proof fn lemma_count_positive(m: Seq<Seq<Cell>>, c: Cell)
    ensures
        count(m, c) > 0 <==> exists|x: int, y: int|
            0 <= y < m.len() && 0 <= x < m[y].len() && #[trigger] cell_at(m, x, y) == c,
    decreases m.len(),
{
    if m.len() > 0 {
        let p = m.drop_last();
        let last = m.len() - 1;
        lemma_count_positive(p, c);
        lemma_row_count_positive(m.last(), c);
        if count(m, c) > 0 {
            if row_count(m.last(), c) > 0 {
                let x = choose|x: int| 0 <= x < m.last().len() && m.last()[x] == c;
                assert(cell_at(m, x, last) == c);
            } else {
                let (x, y) = choose|x: int, y: int|
                    0 <= y < p.len() && 0 <= x < p[y].len() && #[trigger] cell_at(p, x, y) == c;
                assert(cell_at(m, x, y) == c);
            }
        }
        if exists|x: int, y: int|
            0 <= y < m.len() && 0 <= x < m[y].len() && #[trigger] cell_at(m, x, y) == c {
            let (x, y) = choose|x: int, y: int|
                0 <= y < m.len() && 0 <= x < m[y].len() && #[trigger] cell_at(m, x, y) == c;
            if y < last {
                assert(cell_at(p, x, y) == c);
            }
        }
    }
}

/// A value that a grid is counted to hold once is held by one cell only.
pub proof fn lemma_counted_once_is_unique(
    m: Seq<Seq<Cell>>,
    c: Cell,
    x1: int,
    y1: int,
    x2: int,
    y2: int,
)
    requires
        count(m, c) == 1,
        0 <= y1 < m.len() && 0 <= x1 < m[y1].len() && cell_at(m, x1, y1) == c,
        0 <= y2 < m.len() && 0 <= x2 < m[y2].len() && cell_at(m, x2, y2) == c,
    ensures
        x1 == x2 && y1 == y2,
{
    if x1 != x2 || y1 != y2 {
        let other = if c == Cell::Empty {
            Cell::Unknown
        } else {
            Cell::Empty
        };
        let without = with_cell(m, x1, y1, other);
        lemma_count_update(m, x1, y1, other, c);
        assert(cell_at(without, x2, y2) == c);
        lemma_count_positive(without, c);
    }
}

/// Reconciling a view with a peer never loses what the view knew: a cell
/// that was not `Unknown` keeps its value unless it was `Empty` and the peer
/// reports something more specific, and no cell becomes `Unknown`, whatever
/// the peer holds.
pub proof fn lemma_merge_keeps_knowledge(
    local: Seq<Seq<Cell>>,
    peer: Seq<Seq<Cell>>,
    x: int,
    y: int,
)
    requires
        in_bounds(x, y),
    ensures
        cell_at(local, x, y) != Cell::Unknown && !(cell_at(local, x, y) == Cell::Empty && cell_at(
            peer,
            x,
            y,
        ).is_specific()) ==> cell_at(merged_grid(local, peer), x, y) == cell_at(local, x, y),
        cell_at(local, x, y) != Cell::Unknown ==> cell_at(merged_grid(local, peer), x, y)
            != Cell::Unknown,
        cell_at(local, x, y) == Cell::Unknown ==> cell_at(merged_grid(local, peer), x, y)
            == cell_at(peer, x, y),
{
}

/// A grid of the given cell in every place.
pub fn filled(c: Cell) -> (g: Vec<Vec<Cell>>)
    ensures
        rows(&g) == uniform(c),
{
    let mut g: Vec<Vec<Cell>> = Vec::new();
    let mut y: usize = 0;
    while y < MAP_HEIGHT
        invariant
            y <= MAP_HEIGHT,
            g@.len() == y,
            forall|j: int|
                0 <= j < y ==> (#[trigger] g@[j])@ == Seq::new(MAP_WIDTH as nat, |x: int| c),
        decreases MAP_HEIGHT - y,
    {
        let mut row: Vec<Cell> = Vec::new();
        let mut x: usize = 0;
        while x < MAP_WIDTH
            invariant
                x <= MAP_WIDTH,
                row@.len() == x,
                forall|i: int| 0 <= i < x ==> row@[i] == c,
            decreases MAP_WIDTH - x,
        {
            row.push(c);
            x += 1;
        }
        g.push(row);
        y += 1;
    }
    g
}

/// A copy of a grid.
pub fn copy_grid(g: &Vec<Vec<Cell>>) -> (copy: Vec<Vec<Cell>>)
    ensures
        rows(&copy) == rows(g),
{
    let mut copy: Vec<Vec<Cell>> = Vec::new();
    let mut y: usize = 0;
    while y < g.len()
        invariant
            y <= g@.len(),
            copy@.len() == y,
            forall|j: int| 0 <= j < y ==> (#[trigger] copy@[j])@ == g@[j]@,
        decreases g@.len() - y,
    {
        let mut row: Vec<Cell> = Vec::new();
        let mut x: usize = 0;
        while x < g[y].len()
            invariant
                y < g@.len(),
                x <= g@[y as int]@.len(),
                row@.len() == x,
                forall|i: int| 0 <= i < x ==> row@[i] == g@[y as int]@[i],
            decreases g@[y as int]@.len() - x,
        {
            row.push(g[y][x]);
            x += 1;
        }
        copy.push(row);
        y += 1;
    }
    copy
}

/// Writes `c` into the cell at `(x, y)`.
pub fn set_cell(g: &mut Vec<Vec<Cell>>, x: usize, y: usize, c: Cell)
    requires
        shaped(rows(old(g))),
        in_bounds(x as int, y as int),
    ensures
        rows(final(g)) == with_cell(rows(old(g)), x as int, y as int, c),
        shaped(rows(final(g))),
{
    assert(rows(g)[y as int].len() == MAP_WIDTH);
    g[y][x] = c;
    assert(shaped(rows(g))) by {
        assert forall|j: int| 0 <= j < MAP_HEIGHT implies (#[trigger] rows(g)[j]).len()
            == MAP_WIDTH by {
            assert(rows(old(g))[j].len() == MAP_WIDTH);
        }
    }
}

/// Reads the cell at `(x, y)`.
pub fn cell_of(g: &Vec<Vec<Cell>>, x: usize, y: usize) -> (c: Cell)
    requires
        shaped(rows(g)),
        in_bounds(x as int, y as int),
    ensures
        c == cell_at(rows(g), x as int, y as int),
{
    g[y][x]
}

/// Reconciles `local` with `peer`, cell by cell: a cell of `local` takes the
/// peer's value exactly when the peer's report says more than its own.
pub fn merge_grid(local: &mut Vec<Vec<Cell>>, peer: &Vec<Vec<Cell>>)
    requires
        shaped(rows(old(local))),
        shaped(rows(peer)),
    ensures
        rows(final(local)) == merged_grid(rows(old(local)), rows(peer)),
        shaped(rows(final(local))),
{
    let ghost before = rows(local);
    let ghost other = rows(peer);
    let mut y: usize = 0;
    while y < MAP_HEIGHT
        invariant
            y <= MAP_HEIGHT,
            shaped(rows(local)),
            shaped(other),
            shaped(before),
            other == rows(peer),
            forall|i: int, j: int|
                0 <= j < y && 0 <= i < MAP_WIDTH ==> #[trigger] cell_at(rows(local), i, j)
                    == before[j][i].merged(other[j][i]),
            forall|i: int, j: int|
                y <= j < MAP_HEIGHT && 0 <= i < MAP_WIDTH ==> #[trigger] cell_at(rows(local), i, j)
                    == before[j][i],
        decreases MAP_HEIGHT - y,
    {
        let mut x: usize = 0;
        while x < MAP_WIDTH
            invariant
                x <= MAP_WIDTH,
                y < MAP_HEIGHT,
                shaped(rows(local)),
                shaped(other),
                shaped(before),
                other == rows(peer),
                forall|i: int, j: int|
                    0 <= i < MAP_WIDTH && (0 <= j < y || (j == y && i < x)) ==> #[trigger] cell_at(
                        rows(local),
                        i,
                        j,
                    ) == before[j][i].merged(other[j][i]),
                forall|i: int, j: int|
                    0 <= i < MAP_WIDTH && (y < j < MAP_HEIGHT || (j == y && i >= x))
                        ==> #[trigger] cell_at(rows(local), i, j) == before[j][i],
            decreases MAP_WIDTH - x,
        {
            let ghost prev = rows(local);
            let mine = cell_of(local, x, y);
            let theirs = cell_of(peer, x, y);
            set_cell(local, x, y, mine.merge(theirs));
            assert forall|i: int, j: int|
                0 <= i < MAP_WIDTH && (0 <= j < y || (j == y && i < x + 1))
                    implies #[trigger] cell_at(rows(local), i, j) == before[j][i].merged(
                other[j][i],
            ) by {
                if !(j == y && i == x) {
                    assert(cell_at(prev, i, j) == before[j][i].merged(other[j][i]));
                }
            }
            assert forall|i: int, j: int|
                0 <= i < MAP_WIDTH && (y < j < MAP_HEIGHT || (j == y && i >= x + 1))
                    implies #[trigger] cell_at(rows(local), i, j) == before[j][i] by {
                assert(cell_at(prev, i, j) == before[j][i]);
            }
            x += 1;
        }
        y += 1;
    }
    assert(rows(local) =~= merged_grid(before, other)) by {
        assert forall|j: int| 0 <= j < MAP_HEIGHT implies #[trigger] rows(local)[j]
            =~= merged_grid(before, other)[j] by {
            assert forall|i: int| 0 <= i < MAP_WIDTH implies rows(local)[j][i] == merged_grid(
                before,
                other,
            )[j][i] by {
                assert(cell_at(rows(local), i, j) == before[j][i].merged(other[j][i]));
            }
        }
    }
}

} // verus!
