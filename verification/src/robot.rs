//! One agent: where it stands, what it knows, what it carries, and what one
//! tick of its control loop does to it and to the world.

use crate::base::{report_text, tally, Base};
use crate::cell::Cell;
use crate::grid::{
    cell_at, count, filled, in_bounds, lemma_merge_keeps_knowledge, merge_grid, merged_grid,
    rows, set_cell, shaped, uniform, with_cell, MAP_HEIGHT, MAP_WIDTH,
};
use crate::map::{after_pickup, is_first_base, lemma_pickup_counts, picked, WorldMap};
use crate::random::draw_in_range;
use crate::text::{frame, frame_text};
use vstd::prelude::*;
use vstd::string::StringExecFns;

verus! {

/// The four ways an agent can step. Rows are numbered from the top, so
/// `South` leads to the next row.
#[derive(Clone, Copy, PartialEq, Eq, Structural, Debug)]
pub enum Direction {
    South,
    North,
    East,
    West,
}

impl Direction {
    /// The change of column that a step makes.
    pub open spec fn dx(self) -> int {
        match self {
            Direction::East => 1,
            Direction::West => -1,
            _ => 0,
        }
    }

    /// The change of row that a step makes.
    pub open spec fn dy(self) -> int {
        match self {
            Direction::South => 1,
            Direction::North => -1,
            _ => 0,
        }
    }

    /// The direction that a draw stands for: 0 is south, 1 north, 2 east,
    /// and anything else west.
    pub open spec fn of_draw(n: int) -> Direction {
        if n == 0 {
            Direction::South
        } else if n == 1 {
            Direction::North
        } else if n == 2 {
            Direction::East
        } else {
            Direction::West
        }
    }

    /// The direction that the draw `n` stands for.
    pub fn from_draw(n: usize) -> (d: Direction)
        ensures
            d == Direction::of_draw(n as int),
    {
        match n {
            0 => Direction::South,
            1 => Direction::North,
            2 => Direction::East,
            _ => Direction::West,
        }
    }
}

/// The cell that a step from `pos` leads to. The grid wraps around: a step
/// over an edge arrives at the opposite edge.
pub open spec fn destination(pos: (usize, usize), dir: Direction) -> (int, int) {
    ((pos.0 + dir.dx()) % (MAP_WIDTH as int), (pos.1 + dir.dy()) % (MAP_HEIGHT as int))
}

/// Whether the step is taken: the agent stays where it is when an obstacle
/// is in the way.
pub open spec fn step_moves(world: Seq<Seq<Cell>>, x: int, y: int) -> bool {
    cell_at(world, x, y) != Cell::Obstacle
}

/// Whether the agent tries a pickup at its destination: it must get there
/// and have its hands free.
pub open spec fn step_reaches_for(
    world: Seq<Seq<Cell>>,
    x: int,
    y: int,
    carrying: Option<Cell>,
) -> bool {
    step_moves(world, x, y) && carrying is None
}

/// The world grid after the move and the pickup.
pub open spec fn world_after(world: Seq<Seq<Cell>>, x: int, y: int, carrying: Option<Cell>) -> Seq<
    Seq<Cell>,
> {
    if step_reaches_for(world, x, y, carrying) {
        after_pickup(world, x, y)
    } else {
        world
    }
}

/// What the agent holds after the move and the pickup.
pub open spec fn held_after_move(
    world: Seq<Seq<Cell>>,
    x: int,
    y: int,
    carrying: Option<Cell>,
) -> Option<Cell> {
    if step_reaches_for(world, x, y, carrying) {
        picked(world, x, y)
    } else {
        carrying
    }
}

/// Where the agent stands after the move.
pub open spec fn place_after(world: Seq<Seq<Cell>>, pos: (usize, usize), x: int, y: int) -> (
    int,
    int,
) {
    if step_moves(world, x, y) {
        (x, y)
    } else {
        (pos.0 as int, pos.1 as int)
    }
}

/// The agent's view after it has looked at the cell `(x, y)` of the world.
pub open spec fn view_after_look(
    view: Seq<Seq<Cell>>,
    world: Seq<Seq<Cell>>,
    x: int,
    y: int,
) -> Seq<Seq<Cell>> {
    with_cell(view, x, y, cell_at(world, x, y))
}

/// Whether an agent at `(x, y)` is at the base.
pub open spec fn at_base(world: Seq<Seq<Cell>>, x: int, y: int) -> bool {
    cell_at(world, x, y) == Cell::Base
}

/// The shared map at the end of a tick: on a visit to the base the agent's
/// view is merged into it; otherwise it is left alone.
pub open spec fn shared_after(shared: Seq<Seq<Cell>>, view: Seq<Seq<Cell>>, visit: bool) -> Seq<
    Seq<Cell>,
> {
    if visit {
        merged_grid(shared, view)
    } else {
        shared
    }
}

/// The agent's view at the end of a tick: on a visit to the base the shared
/// map, as it is after the agent has contributed to it, is merged back into
/// the view.
pub open spec fn view_after(shared: Seq<Seq<Cell>>, view: Seq<Seq<Cell>>, visit: bool) -> Seq<
    Seq<Cell>,
> {
    if visit {
        merged_grid(view, shared_after(shared, view, visit))
    } else {
        view
    }
}

/// The ledger at the end of a tick: on a visit to the base, what the agent
/// holds is entered.
pub open spec fn ledger_after(ledger: Seq<Cell>, held: Option<Cell>, visit: bool) -> Seq<Cell> {
    if visit && held is Some {
        ledger.push(held->0)
    } else {
        ledger
    }
}

/// What the agent holds at the end of a tick: nothing after a visit to the
/// base.
pub open spec fn held_after(held: Option<Cell>, visit: bool) -> Option<Cell> {
    if visit {
        None
    } else {
        held
    }
}

/// What an agent holds changes in two ways only. With free hands it comes to
/// hold the resource that lay at its destination, which is `Empty` from then
/// on. And it gives up what it holds only on a visit to the base, where just
/// that resource is entered in the ledger. In every other tick it holds what
/// it held, and the ledger changes in no other way.
pub proof fn lemma_carry_lifecycle(
    world: Seq<Seq<Cell>>,
    ledger: Seq<Cell>,
    pos: (usize, usize),
    x: int,
    y: int,
    carrying: Option<Cell>,
)
    requires
        shaped(world),
        in_bounds(x, y),
        in_bounds(pos.0 as int, pos.1 as int),
    ensures
        ({
            let world2 = world_after(world, x, y, carrying);
            let held2 = held_after_move(world, x, y, carrying);
            let (nx, ny) = place_after(world, pos, x, y);
            let visit = at_base(world2, nx, ny);
            let after = held_after(held2, visit);
            let ledger2 = ledger_after(ledger, held2, visit);
            &&& visit == at_base(world, nx, ny)
            &&& carrying is Some && after is Some ==> after == carrying
            &&& carrying is None && after is Some ==> cell_at(world, x, y).is_resource() && after
                == Some(cell_at(world, x, y)) && cell_at(world2, x, y) == Cell::Empty
            &&& carrying is Some && after is None ==> visit && ledger2 == ledger.push(carrying->0)
            &&& carrying is None && after is None ==> ledger2 == ledger && world2 == world
            &&& after is Some ==> ledger2 == ledger
            &&& carrying is Some ==> world2 == world
        }),
{
}

/// A visit to the base leaves the agent and the swarm knowing the same
/// amount about every cell, and neither knowing less than before: each of
/// the two maps then says as much of a cell as the better informed of them
/// said, and a map that said as much as the other keeps its own value.
pub proof fn lemma_visit_shares_knowledge(
    shared: Seq<Seq<Cell>>,
    view: Seq<Seq<Cell>>,
    x: int,
    y: int,
)
    requires
        in_bounds(x, y),
    ensures
        ({
            let mine = cell_at(view, x, y);
            let theirs = cell_at(shared, x, y);
            let mine2 = cell_at(view_after(shared, view, true), x, y);
            let theirs2 = cell_at(shared_after(shared, view, true), x, y);
            &&& mine2.rank() == theirs2.rank()
            &&& mine2.rank() >= mine.rank() && mine2.rank() >= theirs.rank()
            &&& mine.rank() >= theirs.rank() ==> mine2 == mine
            &&& theirs.rank() >= mine.rank() ==> theirs2 == theirs
            &&& mine.rank() != theirs.rank() ==> mine2 == theirs2
        }),
{
    lemma_merge_keeps_knowledge(shared, view, x, y);
    lemma_merge_keeps_knowledge(view, shared_after(shared, view, true), x, y);
}

/// A tick changes no cell of the world but one that holds a resource: the
/// base, the obstacles and the free ground stay where they are.
pub proof fn lemma_step_touches_resources_only(
    world: Seq<Seq<Cell>>,
    x: int,
    y: int,
    carrying: Option<Cell>,
    i: int,
    j: int,
)
    requires
        shaped(world),
        in_bounds(x, y),
        in_bounds(i, j),
    ensures
        !cell_at(world, i, j).is_resource() ==> cell_at(world_after(world, x, y, carrying), i, j)
            == cell_at(world, i, j),
        cell_at(world_after(world, x, y, carrying), i, j) == cell_at(world, i, j) || cell_at(
            world_after(world, x, y, carrying),
            i,
            j,
        ) == Cell::Empty,
{
}

/// A tick takes at most one resource out of the world and puts none in: no
/// count but that of `Empty` grows, and the count of anything that is not a
/// resource, the base among them, stays as it is.
pub proof fn lemma_step_counts(
    world: Seq<Seq<Cell>>,
    x: int,
    y: int,
    carrying: Option<Cell>,
    c: Cell,
)
    requires
        shaped(world),
        in_bounds(x, y),
        c != Cell::Empty,
    ensures
        count(world_after(world, x, y, carrying), c) <= count(world, c),
        !c.is_resource() ==> count(world_after(world, x, y, carrying), c) == count(world, c),
{
    if step_reaches_for(world, x, y, carrying) {
        lemma_pickup_counts(world, x, y, c);
    }
}

/// An exploring agent.
pub struct Robot {
    pub id: usize,
    /// Where the agent stands, as `(column, row)`.
    pub position: (usize, usize),
    /// What the agent knows of the world.
    pub personal_map: Vec<Vec<Cell>>,
    /// The resource the agent holds, if any.
    pub carrying: Option<Cell>,
}

/// How one tick in direction `dir` relates the agent, the world and the base
/// after it to what they were before.
pub open spec fn stepped(
    robot: Robot,
    map: WorldMap,
    base: Base,
    dir: Direction,
    robot2: Robot,
    map2: WorldMap,
    base2: Base,
) -> bool {
    let (x, y) = destination(robot.position, dir);
    let world = rows(&map.grid);
    let world2 = world_after(world, x, y, robot.carrying);
    let held2 = held_after_move(world, x, y, robot.carrying);
    let (nx, ny) = place_after(world, robot.position, x, y);
    let looked = view_after_look(rows(&robot.personal_map), world2, x, y);
    let visit = at_base(world2, nx, ny);
    &&& in_bounds(x, y)
    &&& robot2.id == robot.id
    &&& robot2.position.0 == nx
    &&& robot2.position.1 == ny
    &&& map2.robots@ == if step_moves(world, x, y) {
        map.robots@.insert(robot.id, robot2.position)
    } else {
        map.robots@
    }
    &&& rows(&map2.grid) == world2
    &&& rows(&robot2.personal_map) == view_after(rows(&base.map), looked, visit)
    &&& rows(&base2.map) == shared_after(rows(&base.map), looked, visit)
    &&& base2.collected_resources@ == ledger_after(base.collected_resources@, held2, visit)
    &&& robot2.carrying == held_after(held2, visit)
    &&& base2.position == base.position
}

/// Where a step from `pos` leads.
pub fn step_target(pos: (usize, usize), dir: Direction) -> (to: (usize, usize))
    ensures
        (to.0 as int, to.1 as int) == destination(pos, dir),
        in_bounds(to.0 as int, to.1 as int),
{
    let x = pos.0 % MAP_WIDTH;
    let y = pos.1 % MAP_HEIGHT;
    match dir {
        Direction::South => (x, (y + 1) % MAP_HEIGHT),
        Direction::North => (x, (y + MAP_HEIGHT - 1) % MAP_HEIGHT),
        Direction::East => ((x + 1) % MAP_WIDTH, y),
        Direction::West => ((x + MAP_WIDTH - 1) % MAP_WIDTH, y),
    }
}

impl Robot {
    /// The view has the fixed shape, the agent stands on the grid, and what
    /// it holds is a resource.
    pub open spec fn wf(&self) -> bool {
        &&& shaped(rows(&self.personal_map))
        &&& in_bounds(self.position.0 as int, self.position.1 as int)
        &&& self.carrying matches Some(c) ==> c.is_resource()
    }

    /// An agent at the base of `map`, registered in its position table. It
    /// knows one thing of the world: that it stands on the base.
    pub fn new(id: usize, map: &mut WorldMap) -> (robot: Robot)
        requires
            old(map).wf(),
            count(rows(&old(map).grid), Cell::Base) > 0,
        ensures
            robot.wf(),
            robot.id == id,
            is_first_base(rows(&old(map).grid), robot.position.0 as int, robot.position.1 as int),
            rows(&robot.personal_map) == with_cell(
                uniform(Cell::Unknown),
                robot.position.0 as int,
                robot.position.1 as int,
                Cell::Base,
            ),
            robot.carrying is None,
            final(map).grid == old(map).grid,
            final(map).robots@ == old(map).robots@.insert(id, robot.position),
    {
        let position = map.find_base_position().unwrap();
        map.update_position(id, position);
        let mut personal_map = filled(Cell::Unknown);
        set_cell(&mut personal_map, position.0, position.1, Cell::Base);
        Robot { id, position, personal_map, carrying: None }
    }

    /// Writes what the world holds at `pos` into the agent's view.
    pub fn update_personal_map(&mut self, pos: (usize, usize), map: &WorldMap)
        requires
            old(self).wf(),
            map.wf(),
            in_bounds(pos.0 as int, pos.1 as int),
        ensures
            final(self).wf(),
            rows(&final(self).personal_map) == with_cell(
                rows(&old(self).personal_map),
                pos.0 as int,
                pos.1 as int,
                cell_at(rows(&map.grid), pos.0 as int, pos.1 as int),
            ),
            final(self).id == old(self).id,
            final(self).position == old(self).position,
            final(self).carrying == old(self).carrying,
    {
        let cell = map.get_cell(pos);
        set_cell(&mut self.personal_map, pos.0, pos.1, cell);
    }

    /// Takes over from the shared map what it knows better: an `Unknown`
    /// cell of the view gives way to anything the shared map reports, an
    /// `Empty` one to anything more specific. Every other cell is kept.
    pub fn merge_maps(&mut self, base: &Base)
        requires
            old(self).wf(),
            base.wf(),
        ensures
            final(self).wf(),
            rows(&final(self).personal_map) == merged_grid(
                rows(&old(self).personal_map),
                rows(&base.map),
            ),
            forall|x: int, y: int|
                in_bounds(x, y) && cell_at(rows(&old(self).personal_map), x, y) != Cell::Unknown
                    && !(cell_at(rows(&old(self).personal_map), x, y) == Cell::Empty && cell_at(
                    rows(&base.map),
                    x,
                    y,
                ).is_specific()) ==> #[trigger] cell_at(rows(&final(self).personal_map), x, y)
                    == cell_at(rows(&old(self).personal_map), x, y),
            final(self).id == old(self).id,
            final(self).position == old(self).position,
            final(self).carrying == old(self).carrying,
    {
        merge_grid(&mut self.personal_map, &base.map);
    }

    /// Contributes the agent's view to the shared map, by the same rule with
    /// the roles exchanged: the shared map gives way where the view knows
    /// better.
    pub fn update_base_map(&self, base: &mut Base)
        requires
            self.wf(),
            old(base).wf(),
        ensures
            final(base).wf(),
            rows(&final(base).map) == merged_grid(rows(&old(base).map), rows(&self.personal_map)),
            final(base).position == old(base).position,
            final(base).collected_resources == old(base).collected_resources,
    {
        merge_grid(&mut base.map, &self.personal_map);
    }

    /// One tick with the direction given: the agent steps if no obstacle is
    /// in the way, picks up a resource at its new place if its hands are
    /// free, and looks at the destination, reached or not. If it then stands
    /// on the base, it contributes its view to the shared map, takes the
    /// shared map's knowledge back, and hands over what it holds.
    pub fn step(&mut self, dir: Direction, map: &mut WorldMap, base: &mut Base)
        requires
            old(self).wf(),
            old(map).wf(),
            old(base).wf(),
        ensures
            final(self).wf(),
            final(map).wf(),
            final(base).wf(),
            stepped(
                *old(self),
                *old(map),
                *old(base),
                dir,
                *final(self),
                *final(map),
                *final(base),
            ),
    {
        let to = step_target(self.position, dir);
        if map.is_empty_or_walkable(to) {
            map.update_position(self.id, to);
            self.position = to;
            if self.carrying.is_none() {
                if let Some(resource) = map.pick_up_resource(to) {
                    self.carrying = Some(resource);
                }
            }
        }
        self.update_personal_map(to, map);
        if map.get_cell(self.position) == Cell::Base {
            self.update_base_map(base);
            self.merge_maps(base);
            if let Some(resource) = self.carrying.take() {
                base.add_resource(resource);
            }
        }
    }

    /// One tick of the control loop: a direction is drawn at random, each of
    /// the four being possible, and the step is made. The direction drawn is
    /// handed back.
    pub fn tick(&mut self, map: &mut WorldMap, base: &mut Base) -> (dir: Direction)
        requires
            old(self).wf(),
            old(map).wf(),
            old(base).wf(),
        ensures
            final(self).wf(),
            final(map).wf(),
            final(base).wf(),
            stepped(
                *old(self),
                *old(map),
                *old(base),
                dir,
                *final(self),
                *final(map),
                *final(base),
            ),
    {
        let mut rng = rand::thread_rng();
        let dir = Direction::from_draw(draw_in_range(&mut rng, 0, 4));
        self.step(dir, map, base);
        dir
    }

    /// The shared map as text, one line for each row, then an empty line and
    /// the report of what the base has collected.
    pub fn display_base_map(&self, base: &Base) -> (text: String)
        ensures
            text@ == frame_text(rows(&base.map)).push('\n') + report_text(
                base.position,
                tally(base.collected_resources@, Cell::Mineral),
                tally(base.collected_resources@, Cell::Energy),
                tally(base.collected_resources@, Cell::SciencePOI),
            ),
    {
        let mut text = frame(&base.map);
        text.push('\n');
        let report = base.display_resources();
        text.append(report.as_str());
        text
    }
}

} // verus!
