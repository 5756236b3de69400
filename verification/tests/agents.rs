use starbot::grid::{copy_grid, filled};
use starbot::map::lay_terrain;
use starbot::renderer::{Renderer, TerminalRenderer};
use starbot::robot::step_target;
use starbot::text::{frame, push_decimal};
use starbot::{Base, Cell, Direction, Robot, WorldMap, MAP_HEIGHT, MAP_WIDTH};
use std::collections::HashMap;

/// A world without obstacles inside the border, with a base at (10, 10),
/// and the base that goes with it.
fn setting() -> (WorldMap, Base) {
    let mut grid = lay_terrain(&vec![vec![false; MAP_WIDTH]; MAP_HEIGHT]);
    grid[10][10] = Cell::Base;
    let mut shared = filled(Cell::Unknown);
    shared[10][10] = Cell::Base;
    (WorldMap { grid, robots: HashMap::new() }, Base::new((10, 10), shared))
}

#[test]
fn ledger_accounting() {
    let (_, mut base) = setting();
    base.add_resource(Cell::Mineral);
    base.add_resource(Cell::Energy);
    base.add_resource(Cell::Mineral);
    assert_eq!(base.collected_resources.len(), 3);
    assert_eq!(base.resource_counts(), (2, 1, 0));
    assert_eq!(base.collected_resources, vec![Cell::Mineral, Cell::Energy, Cell::Mineral]);
    assert_eq!(base.position, (10, 10));
}

#[test]
fn ledger_report() {
    let (_, mut base) = setting();
    assert_eq!(
        base.display_resources(),
        "Base at position (10, 10) has collected the following resources:\n\
         Minerals: 0\nEnergy: 0\nScientific Points of Interest: 0\n"
    );
    for _ in 0..12 {
        base.add_resource(Cell::SciencePOI);
    }
    base.add_resource(Cell::Energy);
    base.add_resource(Cell::Empty);
    assert_eq!(base.resource_counts(), (0, 1, 12));
    assert_eq!(
        base.display_resources(),
        "Base at position (10, 10) has collected the following resources:\n\
         Minerals: 0\nEnergy: 1\nScientific Points of Interest: 12\n"
    );
}

#[test]
fn numbers_in_decimal() {
    for n in [0usize, 7, 10, 99, 100, 1234567890, usize::MAX] {
        let mut s = String::from("n=");
        push_decimal(&mut s, n);
        assert_eq!(s, format!("n={}", n));
    }
}

#[test]
fn grid_as_text() {
    let grid = vec![
        vec![Cell::Unknown, Cell::Empty, Cell::Base],
        vec![],
        vec![Cell::Obstacle, Cell::Mineral, Cell::Energy, Cell::SciencePOI, Cell::Robot(4)],
    ];
    assert_eq!(frame(&grid), "? . B \n\n# M E S 4 \n");
    assert_eq!(frame(&Vec::new()), "");
}

#[test]
fn terminal_frames() {
    let renderer = TerminalRenderer;
    let map = vec![vec!['#', '.', 'B'], vec![], vec!['1', 'X']];
    assert_eq!(renderer.draw_map(&map), "#.B\n\n1X\n");
    assert_eq!(renderer.draw_map(&Vec::new()), "");
    assert_eq!(renderer.clean(), "\u{1b}[2J\u{1b}[H");
}

#[test]
fn directions_of_draws() {
    assert_eq!(Direction::from_draw(0), Direction::South);
    assert_eq!(Direction::from_draw(1), Direction::North);
    assert_eq!(Direction::from_draw(2), Direction::East);
    assert_eq!(Direction::from_draw(3), Direction::West);
    assert_eq!(Direction::from_draw(4), Direction::West);
}

#[test]
fn steps_wrap_around() {
    assert_eq!(step_target((10, 10), Direction::South), (10, 11));
    assert_eq!(step_target((10, 10), Direction::North), (10, 9));
    assert_eq!(step_target((10, 10), Direction::East), (11, 10));
    assert_eq!(step_target((10, 10), Direction::West), (9, 10));
    assert_eq!(step_target((0, 0), Direction::West), (19, 0));
    assert_eq!(step_target((0, 0), Direction::North), (0, 19));
    assert_eq!(step_target((19, 19), Direction::East), (0, 19));
    assert_eq!(step_target((19, 19), Direction::South), (19, 0));
}

#[test]
fn new_agent_stands_at_the_base() {
    let (mut world, _) = setting();
    let robot = Robot::new(7, &mut world);
    assert_eq!(robot.id, 7);
    assert_eq!(robot.position, (10, 10));
    assert_eq!(robot.carrying, None);
    assert_eq!(world.robots.get(&7), Some(&(10, 10)));
    for y in 0..MAP_HEIGHT {
        for x in 0..MAP_WIDTH {
            let expected = if (x, y) == (10, 10) { Cell::Base } else { Cell::Unknown };
            assert_eq!(robot.personal_map[y][x], expected);
        }
    }
}

#[test]
fn observation_overwrites_one_cell() {
    let (mut world, _) = setting();
    world.grid[4][6] = Cell::Energy;
    let mut robot = Robot::new(1, &mut world);
    robot.update_personal_map((6, 4), &world);
    assert_eq!(robot.personal_map[4][6], Cell::Energy);
    world.grid[4][6] = Cell::Empty;
    robot.update_personal_map((6, 4), &world);
    assert_eq!(robot.personal_map[4][6], Cell::Empty);
    robot.update_personal_map((0, 0), &world);
    assert_eq!(robot.personal_map[0][0], Cell::Obstacle);
    assert_eq!(robot.personal_map[10][10], Cell::Base);
    assert_eq!(robot.personal_map[4][7], Cell::Unknown);
}

#[test]
fn pull_keeps_what_the_agent_knows() {
    let (mut world, mut base) = setting();
    let mut robot = Robot::new(1, &mut world);
    robot.personal_map[2][2] = Cell::Mineral;
    robot.personal_map[2][3] = Cell::Empty;
    robot.personal_map[2][4] = Cell::Empty;
    robot.personal_map[2][5] = Cell::Obstacle;
    base.map[2][2] = Cell::Empty;
    base.map[2][3] = Cell::Energy;
    base.map[2][6] = Cell::SciencePOI;
    let before = copy_grid(&robot.personal_map);
    robot.merge_maps(&base);
    assert_eq!(robot.personal_map[2][2], Cell::Mineral);
    assert_eq!(robot.personal_map[2][3], Cell::Energy);
    assert_eq!(robot.personal_map[2][4], Cell::Empty);
    assert_eq!(robot.personal_map[2][5], Cell::Obstacle);
    assert_eq!(robot.personal_map[2][6], Cell::SciencePOI);
    for y in 0..MAP_HEIGHT {
        for x in 0..MAP_WIDTH {
            let was = before[y][x];
            let peer = base.map[y][x];
            let overridden = was == Cell::Empty && peer != Cell::Empty && peer != Cell::Unknown;
            if was != Cell::Unknown && !overridden {
                assert_eq!(robot.personal_map[y][x], was);
            }
        }
    }
}

#[test]
fn push_contributes_to_the_shared_map() {
    let (mut world, mut base) = setting();
    let mut robot = Robot::new(1, &mut world);
    robot.personal_map[2][2] = Cell::Mineral;
    robot.personal_map[2][3] = Cell::Empty;
    base.map[2][3] = Cell::Energy;
    base.map[2][4] = Cell::Empty;
    robot.update_base_map(&mut base);
    assert_eq!(base.map[2][2], Cell::Mineral);
    assert_eq!(base.map[2][3], Cell::Energy);
    assert_eq!(base.map[2][4], Cell::Empty);
    assert_eq!(base.map[10][10], Cell::Base);
    assert_eq!(base.map[2][5], Cell::Unknown);
    assert_eq!(robot.personal_map[2][3], Cell::Empty);
}

#[test]
fn fetch_and_deliver() {
    let (mut world, mut base) = setting();
    world.grid[12][11] = Cell::Mineral;
    let mut robot = Robot::new(1, &mut world);
    robot.step(Direction::South, &mut world, &mut base);
    assert_eq!(robot.position, (10, 11));
    assert_eq!(robot.carrying, None);
    robot.step(Direction::South, &mut world, &mut base);
    assert_eq!(robot.position, (10, 12));
    assert_eq!(robot.carrying, None);
    robot.step(Direction::East, &mut world, &mut base);
    assert_eq!(robot.position, (11, 12));
    assert_eq!(robot.carrying, Some(Cell::Mineral));
    assert_eq!(world.grid[12][11], Cell::Empty);
    assert_eq!(robot.personal_map[12][11], Cell::Empty);
    assert_eq!(world.robots.get(&1), Some(&(11, 12)));
    assert_eq!(base.collected_resources.len(), 0);
    assert_eq!(base.map[12][11], Cell::Unknown);

    robot.step(Direction::West, &mut world, &mut base);
    robot.step(Direction::North, &mut world, &mut base);
    assert_eq!(robot.carrying, Some(Cell::Mineral));
    assert_eq!(base.collected_resources.len(), 0);
    robot.step(Direction::North, &mut world, &mut base);
    assert_eq!(robot.position, (10, 10));
    assert_eq!(robot.carrying, None);
    assert_eq!(base.collected_resources.len(), 1);
    assert_eq!(base.collected_resources[0], Cell::Mineral);
    assert_eq!(base.map[12][11], Cell::Empty);
    assert_eq!(base.map[11][10], Cell::Empty);
    assert_eq!(base.map[10][10], Cell::Base);
    assert_eq!(robot.personal_map, base.map);
}

#[test]
fn a_loaded_agent_leaves_resources_where_they_are() {
    let (mut world, mut base) = setting();
    world.grid[11][10] = Cell::Energy;
    world.grid[12][10] = Cell::Mineral;
    let mut robot = Robot::new(1, &mut world);
    robot.step(Direction::South, &mut world, &mut base);
    assert_eq!(robot.carrying, Some(Cell::Energy));
    robot.step(Direction::South, &mut world, &mut base);
    assert_eq!(robot.position, (10, 12));
    assert_eq!(robot.carrying, Some(Cell::Energy));
    assert_eq!(world.grid[12][10], Cell::Mineral);
    assert_eq!(robot.personal_map[12][10], Cell::Mineral);
}

#[test]
fn an_obstacle_stops_the_step() {
    let (mut world, mut base) = setting();
    world.grid[11][11] = Cell::Obstacle;
    let mut robot = Robot::new(1, &mut world);
    robot.step(Direction::South, &mut world, &mut base);
    assert_eq!(robot.position, (10, 11));
    robot.step(Direction::East, &mut world, &mut base);
    assert_eq!(robot.position, (10, 11));
    assert_eq!(world.robots.get(&1), Some(&(10, 11)));
    assert_eq!(robot.personal_map[11][11], Cell::Obstacle);
    assert_eq!(base.map[11][11], Cell::Unknown);
    assert_eq!(base.map[11][10], Cell::Unknown);
    assert_eq!(base.collected_resources.len(), 0);
}

#[test]
fn an_agent_held_up_at_the_base_still_reports() {
    let (mut world, mut base) = setting();
    world.grid[10][11] = Cell::Obstacle;
    let mut robot = Robot::new(1, &mut world);
    robot.step(Direction::East, &mut world, &mut base);
    assert_eq!(robot.position, (10, 10));
    assert_eq!(world.robots.get(&1), Some(&(10, 10)));
    assert_eq!(robot.personal_map[10][11], Cell::Obstacle);
    assert_eq!(base.map[10][11], Cell::Obstacle);
    assert_eq!(base.collected_resources.len(), 0);
}

#[test]
fn an_agent_learns_from_its_peers_at_the_base() {
    let (mut world, mut base) = setting();
    world.grid[9][10] = Cell::SciencePOI;
    let mut first = Robot::new(1, &mut world);
    let mut second = Robot::new(2, &mut world);
    first.step(Direction::North, &mut world, &mut base);
    first.step(Direction::South, &mut world, &mut base);
    assert_eq!(base.collected_resources, vec![Cell::SciencePOI]);
    assert_eq!(base.map[9][10], Cell::Empty);
    second.step(Direction::East, &mut world, &mut base);
    assert_eq!(second.personal_map[9][10], Cell::Unknown);
    second.step(Direction::West, &mut world, &mut base);
    assert_eq!(second.personal_map[9][10], Cell::Empty);
    assert_eq!(base.map[10][11], Cell::Empty);
    assert_eq!(first.personal_map[10][11], Cell::Unknown);
}

#[test]
fn a_stale_report_of_a_resource_outlives_the_pickup() {
    let (mut world, mut base) = setting();
    world.grid[11][10] = Cell::Mineral;
    base.map[11][10] = Cell::Mineral;
    let mut robot = Robot::new(1, &mut world);
    robot.step(Direction::South, &mut world, &mut base);
    assert_eq!(robot.carrying, Some(Cell::Mineral));
    assert_eq!(world.grid[11][10], Cell::Empty);
    assert_eq!(robot.personal_map[11][10], Cell::Empty);
    robot.step(Direction::North, &mut world, &mut base);
    assert_eq!(robot.carrying, None);
    assert_eq!(base.collected_resources, vec![Cell::Mineral]);
    assert_eq!(base.map[11][10], Cell::Mineral);
    assert_eq!(robot.personal_map[11][10], Cell::Mineral);
    assert_eq!(world.grid[11][10], Cell::Empty);
}

#[test]
fn ticks_draw_every_direction() {
    let (mut world, mut base) = setting();
    let mut robot = Robot::new(1, &mut world);
    let mut seen = [false; 4];
    for _ in 0..400 {
        let before = robot.position;
        let dir = robot.tick(&mut world, &mut base);
        let to = step_target(before, dir);
        if world.grid[to.1][to.0] == Cell::Obstacle {
            assert_eq!(robot.position, before);
        } else {
            assert_eq!(robot.position, to);
        }
        assert_eq!(world.robots.get(&1), Some(&robot.position));
        match dir {
            Direction::South => seen[0] = true,
            Direction::North => seen[1] = true,
            Direction::East => seen[2] = true,
            Direction::West => seen[3] = true,
        }
    }
    assert_eq!(seen, [true; 4]);
}

#[test]
fn shared_map_as_text() {
    let (mut world, mut base) = setting();
    let robot = Robot::new(1, &mut world);
    base.add_resource(Cell::Energy);
    let text = robot.display_base_map(&base);
    let lines: Vec<&str> = text.split('\n').collect();
    assert_eq!(lines.len(), 26);
    assert_eq!(lines[0], "? ? ? ? ? ? ? ? ? ? ? ? ? ? ? ? ? ? ? ? ");
    assert_eq!(lines[10], "? ? ? ? ? ? ? ? ? ? B ? ? ? ? ? ? ? ? ? ");
    assert_eq!(lines[20], "");
    assert_eq!(lines[21], "Base at position (10, 10) has collected the following resources:");
    assert_eq!(lines[22], "Minerals: 0");
    assert_eq!(lines[23], "Energy: 1");
    assert_eq!(lines[24], "Scientific Points of Interest: 0");
    assert_eq!(lines[25], "");
}
