//! The world: the ground-truth grid, how it is generated, and the operations
//! through which agents read and change it.

use crate::cell::Cell;
use crate::grid::{
    cell_at, cell_of, copy_grid, count, filled, in_bounds, lemma_count_positive,
    lemma_count_update, lemma_counted_once_is_unique, rows, set_cell, shaped, with_cell,
    MAP_HEIGHT, MAP_WIDTH,
};
use crate::random::draw_in_range;
use crate::text::{frame, frame_text};
use std::collections::HashMap;
use vstd::prelude::*;
use vstd::std_specs::hash::spec_hash_map_iter;
use vstd::std_specs::iter::IteratorSpec;

verus! {

broadcast use vstd::std_specs::hash::group_hash_axioms;

pub const NUM_MINERALS: usize = 5;

pub const NUM_ENERGY: usize = 5;

pub const NUM_SCIENCE_POI: usize = 3;

/// How many random draws one round of placement spends before it turns to
/// the first free cells.
pub const MAX_PLACEMENT_DRAWS: usize = 1000000;

/// The ground-truth grid and the table of where each agent stands.
pub struct WorldMap {
    pub grid: Vec<Vec<Cell>>,
    pub robots: HashMap<usize, (usize, usize)>,
}

/// Whether `(x, y)` lies on the outer ring of the grid.
pub open spec fn on_border(x: int, y: int) -> bool {
    x == 0 || y == 0 || x == MAP_WIDTH - 1 || y == MAP_HEIGHT - 1
}

/// Whether the obstacle mask marks `(x, y)`; a place the mask does not cover
/// is not marked.
pub open spec fn is_blocked(mask: &Vec<Vec<bool>>, x: int, y: int) -> bool {
    0 <= y < mask@.len() && 0 <= x < mask@[y]@.len() && mask@[y]@[x]
}

/// The ground before anything is placed on it: `Obstacle` on the border and
/// wherever the mask says so, `Empty` elsewhere.
pub open spec fn terrain(mask: &Vec<Vec<bool>>, x: int, y: int) -> Cell {
    if on_border(x, y) || is_blocked(mask, x, y) {
        Cell::Obstacle
    } else {
        Cell::Empty
    }
}

/// The whole ground as a grid.
pub open spec fn ground(mask: &Vec<Vec<bool>>) -> Seq<Seq<Cell>> {
    Seq::new(MAP_HEIGHT as nat, |y: int| Seq::new(MAP_WIDTH as nat, |x: int| terrain(mask, x, y)))
}

/// How many cells the ground leaves free.
pub open spec fn free_ground(mask: &Vec<Vec<bool>>) -> nat {
    count(ground(mask), Cell::Empty)
}

/// Whether some cell off the border is `Empty`.
pub open spec fn has_room(m: Seq<Seq<Cell>>) -> bool {
    exists|x: int, y: int|
        in_bounds(x, y) && !on_border(x, y) && #[trigger] cell_at(m, x, y) == Cell::Empty
}

/// Whether `(x, y)` is the first cell off the border, read row by row, that
/// is `Empty`.
pub open spec fn is_first_room(m: Seq<Seq<Cell>>, x: int, y: int) -> bool {
    &&& in_bounds(x, y)
    &&& !on_border(x, y)
    &&& cell_at(m, x, y) == Cell::Empty
    &&& forall|i: int, j: int|
        in_bounds(i, j) && !on_border(i, j) && reads_before(i, j, x, y) ==> #[trigger] cell_at(
            m,
            i,
            j,
        ) != Cell::Empty
}

/// Whether the whole border is `Obstacle`.
pub open spec fn walled(m: Seq<Seq<Cell>>) -> bool {
    forall|x: int, y: int|
        in_bounds(x, y) && on_border(x, y) ==> #[trigger] cell_at(m, x, y) == Cell::Obstacle
}

/// What may stand where the terrain is free.
pub open spec fn is_placeable(c: Cell) -> bool {
    c == Cell::Empty || c == Cell::Base || c.is_resource()
}

/// What holds of every generated world: obstacles exactly where the terrain
/// has them (so on the whole border), one base, and the configured number of
/// each resource, all on ground that the terrain left free.
pub open spec fn generated(m: Seq<Seq<Cell>>, mask: &Vec<Vec<bool>>) -> bool {
    &&& shaped(m)
    &&& forall|x: int, y: int|
        in_bounds(x, y) ==> (#[trigger] cell_at(m, x, y) == Cell::Obstacle <==> terrain(mask, x, y)
            == Cell::Obstacle)
    &&& walled(m)
    &&& forall|x: int, y: int|
        in_bounds(x, y) && terrain(mask, x, y) == Cell::Empty ==> is_placeable(
            #[trigger] cell_at(m, x, y),
        )
    &&& count(m, Cell::Base) == 1
    &&& count(m, Cell::Mineral) == NUM_MINERALS
    &&& count(m, Cell::Energy) == NUM_ENERGY
    &&& count(m, Cell::SciencePOI) == NUM_SCIENCE_POI
}

/// How a round of placement relates the grid after it to the grid before:
/// a cell either kept its value, or was `Empty`, lies off the border and now
/// holds `item`.
pub open spec fn scattered(before: Seq<Seq<Cell>>, after: Seq<Seq<Cell>>, item: Cell) -> bool {
    forall|x: int, y: int|
        in_bounds(x, y) ==> #[trigger] cell_at(after, x, y) == cell_at(before, x, y) || (cell_at(
            before,
            x,
            y,
        ) == Cell::Empty && cell_at(after, x, y) == item && !on_border(x, y))
}

/// What a pickup at `(x, y)` hands out: the resource there, if there is one.
pub open spec fn picked(m: Seq<Seq<Cell>>, x: int, y: int) -> Option<Cell> {
    if cell_at(m, x, y).is_resource() {
        Some(cell_at(m, x, y))
    } else {
        None
    }
}

/// The grid after a pickup at `(x, y)`: a resource there has given way to
/// `Empty`; nothing else has changed.
pub open spec fn after_pickup(m: Seq<Seq<Cell>>, x: int, y: int) -> Seq<Seq<Cell>> {
    if cell_at(m, x, y).is_resource() {
        with_cell(m, x, y, Cell::Empty)
    } else {
        m
    }
}

/// Whether the position table has agent `id` at `(x, y)`.
pub open spec fn stands_at(table: Map<usize, (usize, usize)>, id: usize, x: int, y: int) -> bool {
    table.contains_key(id) && table[id].0 == x && table[id].1 == y
}

/// Whether `shown` is the world with its agents drawn over it: a cell on
/// which no agent stands shows what the world holds there, and a cell on
/// which agents stand shows one of them. An entry of the table that lies
/// off the grid marks no cell.
pub open spec fn overlaid(
    world: Seq<Seq<Cell>>,
    table: Map<usize, (usize, usize)>,
    shown: Seq<Seq<Cell>>,
) -> bool {
    &&& shaped(shown)
    &&& forall|x: int, y: int|
        in_bounds(x, y) ==> (#[trigger] cell_at(shown, x, y) == cell_at(world, x, y) && forall|
            id: usize,
        |
            !stands_at(table, id, x, y)) || exists|id: usize|
            stands_at(table, id, x, y) && cell_at(shown, x, y) == Cell::Robot(id)
}

/// Whether the `k`-th entry of a walk through the position table lies at
/// `(x, y)`.
pub open spec fn entry_at(walk: Seq<(&usize, &(usize, usize))>, k: int, x: int, y: int) -> bool {
    walk[k].1.0 == x && walk[k].1.1 == y
}

/// Whether `(x, y)` comes before `(bx, by)` when the grid is read row by row.
pub open spec fn reads_before(x: int, y: int, bx: int, by: int) -> bool {
    y < by || (y == by && x < bx)
}

/// Whether `(x, y)` is the first cell, read row by row, that holds the base.
pub open spec fn is_first_base(m: Seq<Seq<Cell>>, x: int, y: int) -> bool {
    &&& in_bounds(x, y)
    &&& cell_at(m, x, y) == Cell::Base
    &&& forall|i: int, j: int|
        in_bounds(i, j) && reads_before(i, j, x, y) ==> #[trigger] cell_at(m, i, j) != Cell::Base
}

/// The first pickup at a cell that holds a resource hands that resource out
/// and leaves the cell `Empty`; a second pickup at the same cell hands out
/// nothing and leaves the grid as the first one left it.
pub proof fn lemma_pickup_twice(m: Seq<Seq<Cell>>, x: int, y: int)
    requires
        shaped(m),
        in_bounds(x, y),
    ensures
        cell_at(m, x, y).is_resource() ==> picked(m, x, y) == Some(cell_at(m, x, y)) && cell_at(
            after_pickup(m, x, y),
            x,
            y,
        ) == Cell::Empty,
        picked(after_pickup(m, x, y), x, y) is None,
        after_pickup(after_pickup(m, x, y), x, y) == after_pickup(m, x, y),
{
}

/// In a generated world the base and every resource lie off the border, on
/// ground that the mask left free; the whole border is `Obstacle`; and no
/// cell is `Unknown` or shows an agent.
pub proof fn lemma_generated_placement(m: Seq<Seq<Cell>>, mask: &Vec<Vec<bool>>, x: int, y: int)
    requires
        generated(m, mask),
        in_bounds(x, y),
    ensures
        cell_at(m, x, y) == Cell::Base || cell_at(m, x, y).is_resource() ==> !on_border(x, y)
            && !is_blocked(mask, x, y),
        on_border(x, y) ==> cell_at(m, x, y) == Cell::Obstacle,
        cell_at(m, x, y) != Cell::Unknown,
        !(cell_at(m, x, y) is Robot),
{
}

/// A generated world has a base, and only one: any two cells that hold the
/// base are the same cell.
pub proof fn lemma_generated_base(m: Seq<Seq<Cell>>, mask: &Vec<Vec<bool>>)
    requires
        generated(m, mask),
    ensures
        exists|x: int, y: int| in_bounds(x, y) && #[trigger] cell_at(m, x, y) == Cell::Base,
        forall|x1: int, y1: int, x2: int, y2: int|
            in_bounds(x1, y1) && in_bounds(x2, y2) && #[trigger] cell_at(m, x1, y1) == Cell::Base
                && #[trigger] cell_at(m, x2, y2) == Cell::Base ==> x1 == x2 && y1 == y2,
{
    lemma_count_positive(m, Cell::Base);
    assert forall|x1: int, y1: int, x2: int, y2: int|
        in_bounds(x1, y1) && in_bounds(x2, y2) && #[trigger] cell_at(m, x1, y1) == Cell::Base
            && #[trigger] cell_at(m, x2, y2) == Cell::Base implies x1 == x2 && y1 == y2 by {
        lemma_counted_once_is_unique(m, Cell::Base, x1, y1, x2, y2);
    }
}

/// A pickup changes no count but that of the resource taken, which falls by
/// one, and that of `Empty`: no resource ever appears, and the base stays.
pub proof fn lemma_pickup_counts(m: Seq<Seq<Cell>>, x: int, y: int, c: Cell)
    requires
        shaped(m),
        in_bounds(x, y),
        c != Cell::Empty,
    ensures
        count(after_pickup(m, x, y), c) + (if picked(m, x, y) == Some(c) {
            1nat
        } else {
            0nat
        }) == count(m, c),
{
    if cell_at(m, x, y).is_resource() {
        lemma_count_update(m, x, y, Cell::Empty, c);
    }
}

/// Lays out the ground: border and masked cells become `Obstacle`, the rest
/// stays `Empty`.
pub fn lay_terrain(mask: &Vec<Vec<bool>>) -> (g: Vec<Vec<Cell>>)
    ensures
        rows(&g) == ground(mask),
{
    let mut g = filled(Cell::Empty);
    let mut y: usize = 0;
    while y < MAP_HEIGHT
        invariant
            y <= MAP_HEIGHT,
            shaped(rows(&g)),
            forall|i: int, j: int|
                in_bounds(i, j) && j < y ==> #[trigger] cell_at(rows(&g), i, j) == terrain(
                    mask,
                    i,
                    j,
                ),
            forall|i: int, j: int|
                in_bounds(i, j) && j >= y ==> #[trigger] cell_at(rows(&g), i, j) == Cell::Empty,
        decreases MAP_HEIGHT - y,
    {
        let mut x: usize = 0;
        while x < MAP_WIDTH
            invariant
                x <= MAP_WIDTH,
                y < MAP_HEIGHT,
                shaped(rows(&g)),
                forall|i: int, j: int|
                    in_bounds(i, j) && reads_before(i, j, x as int, y as int)
                        ==> #[trigger] cell_at(rows(&g), i, j) == terrain(mask, i, j),
                forall|i: int, j: int|
                    in_bounds(i, j) && !reads_before(i, j, x as int, y as int)
                        ==> #[trigger] cell_at(rows(&g), i, j) == Cell::Empty,
            decreases MAP_WIDTH - x,
        {
            let ghost prev = rows(&g);
            let wall = if x == 0 || y == 0 || x == MAP_WIDTH - 1 || y == MAP_HEIGHT - 1 {
                true
            } else {
                y < mask.len() && x < mask[y].len() && mask[y][x]
            };
            if wall {
                set_cell(&mut g, x, y, Cell::Obstacle);
            }
            assert forall|i: int, j: int|
                in_bounds(i, j) && reads_before(i, j, x + 1, y as int) implies #[trigger] cell_at(
                rows(&g),
                i,
                j,
            ) == terrain(mask, i, j) by {
                if !reads_before(i, j, x as int, y as int) {
                    assert(cell_at(prev, i, j) == Cell::Empty);
                }
            }
            assert forall|i: int, j: int|
                in_bounds(i, j) && !reads_before(i, j, x + 1, y as int) implies #[trigger] cell_at(
                rows(&g),
                i,
                j,
            ) == Cell::Empty by {
                assert(cell_at(prev, i, j) == Cell::Empty);
            }
            x += 1;
        }
        y += 1;
    }
    assert(rows(&g) =~= ground(mask)) by {
        assert forall|j: int| 0 <= j < MAP_HEIGHT implies #[trigger] rows(&g)[j] =~= ground(
            mask,
        )[j] by {
            assert forall|i: int| 0 <= i < MAP_WIDTH implies rows(&g)[j][i] == ground(mask)[j][i] by {
                assert(cell_at(rows(&g), i, j) == terrain(mask, i, j));
            }
        }
    }
    g
}

/// The first cell off the border, read row by row, that is `Empty`; `None`
/// when there is none.
pub fn find_room(grid: &Vec<Vec<Cell>>) -> (found: Option<(usize, usize)>)
    requires
        shaped(rows(grid)),
    ensures
        found is Some <==> has_room(rows(grid)),
        found matches Some(p) ==> is_first_room(rows(grid), p.0 as int, p.1 as int),
{
    let mut y: usize = 1;
    while y < MAP_HEIGHT - 1
        invariant
            1 <= y <= MAP_HEIGHT - 1,
            shaped(rows(grid)),
            forall|i: int, j: int|
                in_bounds(i, j) && !on_border(i, j) && j < y ==> #[trigger] cell_at(
                    rows(grid),
                    i,
                    j,
                ) != Cell::Empty,
        decreases MAP_HEIGHT - y,
    {
        let mut x: usize = 1;
        while x < MAP_WIDTH - 1
            invariant
                1 <= x <= MAP_WIDTH - 1,
                1 <= y < MAP_HEIGHT - 1,
                shaped(rows(grid)),
                forall|i: int, j: int|
                    in_bounds(i, j) && !on_border(i, j) && reads_before(i, j, x as int, y as int)
                        ==> #[trigger] cell_at(rows(grid), i, j) != Cell::Empty,
            decreases MAP_WIDTH - x,
        {
            if cell_of(grid, x, y) == Cell::Empty {
                return Some((x, y));
            }
            x += 1;
        }
        y += 1;
    }
    None
}

/// Where the border holds no `Empty` cell and no cell off the border is
/// `Empty`, no cell is.
proof fn lemma_no_room_no_empty(m: Seq<Seq<Cell>>)
    requires
        shaped(m),
        walled(m),
        !has_room(m),
    ensures
        count(m, Cell::Empty) == 0,
{
    lemma_count_positive(m, Cell::Empty);
    if count(m, Cell::Empty) > 0 {
        let (x, y) = choose|x: int, y: int|
            0 <= y < m.len() && 0 <= x < m[y].len() && #[trigger] cell_at(m, x, y) == Cell::Empty;
        assert(in_bounds(x, y));
        assert(!on_border(x, y));
    }
}

/// Puts `item` on the cell at `(x, y)` if that cell is `Empty`, and says
/// whether it did.
pub fn place_if_empty(grid: &mut Vec<Vec<Cell>>, x: usize, y: usize, item: Cell) -> (placed: bool)
    requires
        shaped(rows(old(grid))),
        in_bounds(x as int, y as int),
    ensures
        placed == (cell_at(rows(old(grid)), x as int, y as int) == Cell::Empty),
        placed ==> rows(final(grid)) == with_cell(rows(old(grid)), x as int, y as int, item),
        !placed ==> rows(final(grid)) == rows(old(grid)),
        shaped(rows(final(grid))),
{
    if cell_of(grid, x, y) == Cell::Empty {
        set_cell(grid, x, y, item);
        true
    } else {
        false
    }
}

/// Whether `now` is `before` with `placed` copies of `item` put on cells of
/// their own that were `Empty` and lie off the border: no other cell has
/// changed, and the counts have moved accordingly.
pub open spec fn placement(
    before: Seq<Seq<Cell>>,
    now: Seq<Seq<Cell>>,
    item: Cell,
    placed: nat,
) -> bool {
    &&& shaped(before)
    &&& shaped(now)
    &&& scattered(before, now, item)
    &&& item != Cell::Empty ==> count(now, item) == count(before, item) + placed
    &&& item != Cell::Empty ==> count(now, Cell::Empty) + placed == count(before, Cell::Empty)
    &&& forall|c: Cell|
        c != Cell::Empty && c != item ==> #[trigger] count(now, c) == count(before, c)
}

/// One more copy of `item`, put on an `Empty` cell off the border, carries a
/// round of placement one step on.
proof fn lemma_placed_one_more(
    before: Seq<Seq<Cell>>,
    prev: Seq<Seq<Cell>>,
    item: Cell,
    placed: nat,
    x: int,
    y: int,
)
    requires
        placement(before, prev, item, placed),
        in_bounds(x, y),
        !on_border(x, y),
        cell_at(prev, x, y) == Cell::Empty,
    ensures
        placement(before, with_cell(prev, x, y, item), item, placed + 1),
{
    let now = with_cell(prev, x, y, item);
    assert(prev[y].len() == MAP_WIDTH);
    assert forall|c: Cell| true implies #[trigger] count(now, c) + (if c == Cell::Empty {
        1nat
    } else {
        0nat
    }) == count(prev, c) + (if c == item {
        1nat
    } else {
        0nat
    }) by {
        lemma_count_update(prev, x, y, item, c);
    }
    assert(count(now, Cell::Empty) + (if Cell::Empty == Cell::Empty { 1nat } else { 0nat })
        == count(prev, Cell::Empty) + (if Cell::Empty == item { 1nat } else { 0nat }));
    assert(shaped(now)) by {
        assert forall|j: int| 0 <= j < MAP_HEIGHT implies (#[trigger] now[j]).len()
            == MAP_WIDTH by {
            assert(prev[j].len() == MAP_WIDTH);
        }
    }
    assert forall|i: int, j: int| in_bounds(i, j) implies #[trigger] cell_at(now, i, j)
        == cell_at(before, i, j) || (cell_at(before, i, j) == Cell::Empty && cell_at(now, i, j)
        == item && !on_border(i, j)) by {
        assert(prev[j].len() == MAP_WIDTH);
        assert(cell_at(prev, i, j) == cell_at(before, i, j) || cell_at(prev, i, j) == item);
    }
}

/// A round of placement on a walled grid leaves it walled, and if it fell
/// short, it has used up every free cell.
proof fn lemma_round(
    before: Seq<Seq<Cell>>,
    after: Seq<Seq<Cell>>,
    item: Cell,
    placed: nat,
    n: nat,
)
    requires
        placement(before, after, item, placed),
        walled(before),
        item != Cell::Empty,
        placed < n ==> !has_room(after),
    ensures
        walled(after),
        placed < n ==> count(before, Cell::Empty) == placed,
{
    assert forall|x: int, y: int| in_bounds(x, y) && on_border(x, y) implies #[trigger] cell_at(
        after,
        x,
        y,
    ) == Cell::Obstacle by {
        assert(cell_at(before, x, y) == Cell::Obstacle);
    }
    if placed < n {
        lemma_no_room_no_empty(after);
    }
}

/// Scatters `n` copies of `item` over cells that are `Empty` and off the
/// border, each on a cell of its own unless `item` is itself `Empty`, and
/// says how many it placed: all of them, unless the room ran out. A cell is
/// chosen by drawing a column and a row at random and is taken if it is
/// `Empty`; otherwise the draw is repeated. Should `MAX_PLACEMENT_DRAWS`
/// draws not suffice, what is left goes to the first free cells, read row
/// by row.
pub fn place_resources(grid: &mut Vec<Vec<Cell>>, item: Cell, n: usize) -> (placed: usize)
    requires
        shaped(rows(old(grid))),
    ensures
        placed <= n,
        placed < n ==> !has_room(rows(final(grid))),
        placement(rows(old(grid)), rows(final(grid)), item, placed as nat),
{
    let ghost before = rows(grid);
    let mut rng = rand::thread_rng();
    let mut placed: usize = 0;
    let mut draws: usize = 0;
    while placed < n && draws < MAX_PLACEMENT_DRAWS
        invariant
            placed <= n,
            draws <= MAX_PLACEMENT_DRAWS,
            placement(before, rows(grid), item, placed as nat),
        decreases MAX_PLACEMENT_DRAWS - draws,
    {
        let ghost prev = rows(grid);
        let x = draw_in_range(&mut rng, 1, MAP_WIDTH - 1);
        let y = draw_in_range(&mut rng, 1, MAP_HEIGHT - 1);
        if place_if_empty(grid, x, y, item) {
            proof {
                lemma_placed_one_more(before, prev, item, placed as nat, x as int, y as int);
            }
            placed += 1;
        }
        draws += 1;
    }
    let mut room = true;
    while placed < n && room
        invariant
            placed <= n,
            placement(before, rows(grid), item, placed as nat),
            !room ==> !has_room(rows(grid)),
        decreases n - placed + (if room { 1int } else { 0int }),
    {
        let ghost prev = rows(grid);
        match find_room(grid) {
            Some((x, y)) => {
                set_cell(grid, x, y, item);
                proof {
                    lemma_placed_one_more(before, prev, item, placed as nat, x as int, y as int);
                }
                placed += 1;
            },
            None => {
                room = false;
            },
        }
    }
    placed
}

impl WorldMap {
    /// The grid has the fixed shape.
    pub open spec fn wf(&self) -> bool {
        shaped(rows(&self.grid))
    }

    /// Generates a world over the given obstacle mask (`mask[y][x]` marks the
    /// cell in column `x` of row `y`): the terrain, then the base, then the
    /// resources, each on a cell of its own among those still `Empty`. Gives
    /// `None` exactly when the ground has fewer free cells than there are
    /// things to place.
    pub fn new(mask: &Vec<Vec<bool>>) -> (world: Option<WorldMap>)
        ensures
            world is Some <==> free_ground(mask) >= 1 + NUM_MINERALS + NUM_ENERGY
                + NUM_SCIENCE_POI,
            world matches Some(w) ==> w.wf() && generated(rows(&w.grid), mask) && w.robots@
                == Map::<usize, (usize, usize)>::empty(),
    {
        let mut grid = lay_terrain(mask);
        let ghost ground = rows(&grid);
        proof {
            lemma_count_positive(ground, Cell::Base);
            lemma_count_positive(ground, Cell::Mineral);
            lemma_count_positive(ground, Cell::Energy);
            lemma_count_positive(ground, Cell::SciencePOI);
        }
        let bases = place_resources(&mut grid, Cell::Base, 1);
        let ghost based = rows(&grid);
        proof {
            lemma_round(ground, based, Cell::Base, bases as nat, 1);
        }
        if bases < 1 {
            return None;
        }
        let minerals = place_resources(&mut grid, Cell::Mineral, NUM_MINERALS);
        let ghost mined = rows(&grid);
        proof {
            lemma_round(based, mined, Cell::Mineral, minerals as nat, NUM_MINERALS as nat);
        }
        if minerals < NUM_MINERALS {
            return None;
        }
        let energy = place_resources(&mut grid, Cell::Energy, NUM_ENERGY);
        let ghost powered = rows(&grid);
        proof {
            lemma_round(mined, powered, Cell::Energy, energy as nat, NUM_ENERGY as nat);
        }
        if energy < NUM_ENERGY {
            return None;
        }
        let science = place_resources(&mut grid, Cell::SciencePOI, NUM_SCIENCE_POI);
        proof {
            let m = rows(&grid);
            lemma_round(powered, m, Cell::SciencePOI, science as nat, NUM_SCIENCE_POI as nat);
        }
        if science < NUM_SCIENCE_POI {
            return None;
        }
        proof {
            let m = rows(&grid);
            assert forall|x: int, y: int| in_bounds(x, y) implies (#[trigger] cell_at(m, x, y)
                == Cell::Obstacle <==> terrain(mask, x, y) == Cell::Obstacle) && (terrain(
                mask,
                x,
                y,
            ) == Cell::Empty ==> is_placeable(cell_at(m, x, y))) by {
                assert(cell_at(ground, x, y) == terrain(mask, x, y));
                assert(cell_at(based, x, y) == cell_at(ground, x, y) || cell_at(based, x, y)
                    == Cell::Base);
                assert(cell_at(mined, x, y) == cell_at(based, x, y) || cell_at(mined, x, y)
                    == Cell::Mineral);
                assert(cell_at(powered, x, y) == cell_at(mined, x, y) || cell_at(powered, x, y)
                    == Cell::Energy);
            }
        }
        Some(WorldMap { grid, robots: HashMap::new() })
    }

    /// The world with its agents drawn over it.
    pub fn overlay(&self) -> (shown: Vec<Vec<Cell>>)
        requires
            self.wf(),
        ensures
            overlaid(rows(&self.grid), self.robots@, rows(&shown)),
    {
        let mut shown = copy_grid(&self.grid);
        let ghost world = rows(&self.grid);
        let ghost walk = spec_hash_map_iter(&self.robots).remaining();
        let ghost seen: int = 0;
        for entry in it: self.robots.iter()
            invariant
                world == rows(&self.grid),
                walk == it.seq(),
                seen == it.index(),
                shaped(world),
                shaped(rows(&shown)),
                forall|x: int, y: int|
                    in_bounds(x, y) ==> (#[trigger] cell_at(rows(&shown), x, y) == cell_at(
                        world,
                        x,
                        y,
                    ) && forall|k: int| 0 <= k < seen ==> !entry_at(walk, k, x, y)) || exists|
                        k: int,
                    |
                        0 <= k < seen && entry_at(walk, k, x, y) && cell_at(rows(&shown), x, y)
                            == Cell::Robot(*walk[k].0),
        {
            let (id, pos) = entry;
            let ghost prev = rows(&shown);
            if pos.0 < MAP_WIDTH && pos.1 < MAP_HEIGHT {
                set_cell(&mut shown, pos.0, pos.1, Cell::Robot(*id));
            }
            proof {
                assert forall|x: int, y: int| in_bounds(x, y) implies (#[trigger] cell_at(
                    rows(&shown),
                    x,
                    y,
                ) == cell_at(world, x, y) && forall|k: int|
                    0 <= k < seen + 1 ==> !entry_at(walk, k, x, y)) || exists|k: int|
                    0 <= k < seen + 1 && entry_at(walk, k, x, y) && cell_at(rows(&shown), x, y)
                        == Cell::Robot(*walk[k].0) by {
                    if entry_at(walk, seen, x, y) {
                        assert(cell_at(rows(&shown), x, y) == Cell::Robot(*walk[seen].0));
                    } else {
                        assert(cell_at(rows(&shown), x, y) == cell_at(prev, x, y));
                        if cell_at(prev, x, y) == cell_at(world, x, y) && forall|k: int|
                            0 <= k < seen ==> !entry_at(walk, k, x, y) {
                        } else {
                            let k = choose|k: int|
                                0 <= k < seen && entry_at(walk, k, x, y) && cell_at(prev, x, y)
                                    == Cell::Robot(*walk[k].0);
                            assert(0 <= k < seen + 1 && entry_at(walk, k, x, y));
                        }
                    }
                }
                seen = seen + 1;
            }
        }
        proof {
            assert forall|x: int, y: int| in_bounds(x, y) implies (#[trigger] cell_at(
                rows(&shown),
                x,
                y,
            ) == cell_at(world, x, y) && forall|id: usize| !stands_at(self.robots@, id, x, y))
                || exists|id: usize|
                stands_at(self.robots@, id, x, y) && cell_at(rows(&shown), x, y) == Cell::Robot(
                    id,
                ) by {
                if exists|k: int|
                    0 <= k < walk.len() && entry_at(walk, k, x, y) && cell_at(rows(&shown), x, y)
                        == Cell::Robot(*walk[k].0) {
                    let k = choose|k: int|
                        0 <= k < walk.len() && entry_at(walk, k, x, y) && cell_at(
                            rows(&shown),
                            x,
                            y,
                        ) == Cell::Robot(*walk[k].0);
                    assert(self.robots@.contains_key(*walk[k].0));
                    assert(stands_at(self.robots@, *walk[k].0, x, y));
                } else {
                    assert forall|id: usize| !stands_at(self.robots@, id, x, y) by {
                        if stands_at(self.robots@, id, x, y) {
                            assert(walk.contains((&id, &self.robots@[id])));
                            let k = choose|k: int|
                                0 <= k < walk.len() && walk[k] == (&id, &self.robots@[id]);
                            assert(entry_at(walk, k, x, y));
                        }
                    }
                }
            }
        }
        shown
    }

    /// The world as text, with its agents drawn over it: one line for each
    /// row, each cell as its glyph and a space.
    pub fn display(&self) -> (text: String)
        requires
            self.wf(),
        ensures
            exists|shown: Seq<Seq<Cell>>|
                overlaid(rows(&self.grid), self.robots@, shown) && text@ == frame_text(shown),
    {
        let shown = self.overlay();
        frame(&shown)
    }

    /// Records that agent `id` now stands at `new_pos`, whether or not the
    /// table had an entry for it.
    pub fn update_position(&mut self, id: usize, new_pos: (usize, usize))
        ensures
            final(self).robots@ == old(self).robots@.insert(id, new_pos),
            final(self).grid == old(self).grid,
    {
        self.robots.insert(id, new_pos);
    }

    /// Whether an agent may step onto the cell at `pos`: anything but an
    /// obstacle can be walked on.
    pub fn is_empty_or_walkable(&self, pos: (usize, usize)) -> (free: bool)
        requires
            self.wf(),
            in_bounds(pos.0 as int, pos.1 as int),
        ensures
            free == (cell_at(rows(&self.grid), pos.0 as int, pos.1 as int) != Cell::Obstacle),
    {
        cell_of(&self.grid, pos.0, pos.1) != Cell::Obstacle
    }

    /// Where the base is: the first `Base` cell when the grid is read row by
    /// row, as `(column, row)`; `None` when the grid holds no base.
    pub fn find_base_position(&self) -> (found: Option<(usize, usize)>)
        requires
            self.wf(),
        ensures
            found is Some <==> count(rows(&self.grid), Cell::Base) > 0,
            found is None ==> forall|x: int, y: int|
                in_bounds(x, y) ==> #[trigger] cell_at(rows(&self.grid), x, y) != Cell::Base,
            found matches Some(p) ==> is_first_base(rows(&self.grid), p.0 as int, p.1 as int),
    {
        proof {
            lemma_count_positive(rows(&self.grid), Cell::Base);
        }
        let mut y: usize = 0;
        while y < MAP_HEIGHT
            invariant
                y <= MAP_HEIGHT,
                self.wf(),
                forall|i: int, j: int|
                    in_bounds(i, j) && j < y ==> #[trigger] cell_at(rows(&self.grid), i, j)
                        != Cell::Base,
                count(rows(&self.grid), Cell::Base) > 0 <==> exists|i: int, j: int|
                    0 <= j < rows(&self.grid).len() && 0 <= i < rows(&self.grid)[j].len()
                        && #[trigger] cell_at(rows(&self.grid), i, j) == Cell::Base,
            decreases MAP_HEIGHT - y,
        {
            let mut x: usize = 0;
            while x < MAP_WIDTH
                invariant
                    x <= MAP_WIDTH,
                    y < MAP_HEIGHT,
                    self.wf(),
                    forall|i: int, j: int|
                        in_bounds(i, j) && reads_before(i, j, x as int, y as int)
                            ==> #[trigger] cell_at(rows(&self.grid), i, j) != Cell::Base,
                    count(rows(&self.grid), Cell::Base) > 0 <==> exists|i: int, j: int|
                        0 <= j < rows(&self.grid).len() && 0 <= i < rows(&self.grid)[j].len()
                            && #[trigger] cell_at(rows(&self.grid), i, j) == Cell::Base,
                decreases MAP_WIDTH - x,
            {
                if cell_of(&self.grid, x, y) == Cell::Base {
                    return Some((x, y));
                }
                x += 1;
            }
            y += 1;
        }
        None
    }

    /// The cell at `pos`.
    pub fn get_cell(&self, pos: (usize, usize)) -> (c: Cell)
        requires
            self.wf(),
            in_bounds(pos.0 as int, pos.1 as int),
        ensures
            c == cell_at(rows(&self.grid), pos.0 as int, pos.1 as int),
    {
        cell_of(&self.grid, pos.0, pos.1)
    }

    /// Takes the resource at `pos`, if there is one: the cell becomes `Empty`
    /// and the resource is handed out. On any other cell nothing changes and
    /// nothing is handed out. No count of any cell but `Empty` ever grows.
    pub fn pick_up_resource(&mut self, pos: (usize, usize)) -> (taken: Option<Cell>)
        requires
            old(self).wf(),
            in_bounds(pos.0 as int, pos.1 as int),
        ensures
            final(self).wf(),
            taken == picked(rows(&old(self).grid), pos.0 as int, pos.1 as int),
            rows(&final(self).grid) == after_pickup(
                rows(&old(self).grid),
                pos.0 as int,
                pos.1 as int,
            ),
            final(self).robots == old(self).robots,
            forall|c: Cell|
                c != Cell::Empty ==> #[trigger] count(rows(&final(self).grid), c) + (if taken
                    == Some(c) {
                    1nat
                } else {
                    0nat
                }) == count(rows(&old(self).grid), c),
    {
        let ghost before = rows(&self.grid);
        let here = cell_of(&self.grid, pos.0, pos.1);
        if here.is_collectable() {
            set_cell(&mut self.grid, pos.0, pos.1, Cell::Empty);
            proof {
                assert forall|c: Cell| c != Cell::Empty implies #[trigger] count(
                    rows(&self.grid),
                    c,
                ) + (if here == c {
                    1nat
                } else {
                    0nat
                }) == count(before, c) by {
                    lemma_count_update(before, pos.0 as int, pos.1 as int, Cell::Empty, c);
                }
            }
            Some(here)
        } else {
            None
        }
    }
}

} // verus!
