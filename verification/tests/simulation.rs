use growth_simulation::bounds::NoBounds;
use growth_simulation::config::{BoundsType, InitializationType, RecordingConfig};
use growth_simulation::draw::segments;
use growth_simulation::node::Node;
use growth_simulation::path::Path;
use growth_simulation::simulation::GrowthSimulation;
use growth_simulation::spatial_index::{NoIndex, SpatialIndexType};
use rand::rngs::StdRng;
use rand::SeedableRng;

#[derive(Clone, Copy, Debug, Default, PartialEq)]
struct Vec2 {
    x: f64,
    y: f64,
}

fn v(x: f64, y: f64) -> Vec2 {
    Vec2 { x, y }
}

fn plus(a: Vec2, b: Vec2) -> Vec2 {
    v(a.x + b.x, a.y + b.y)
}

fn minus(a: Vec2, b: Vec2) -> Vec2 {
    v(a.x - b.x, a.y - b.y)
}

fn times(a: Vec2, s: f64) -> Vec2 {
    v(a.x * s, a.y * s)
}

fn length(a: Vec2) -> f64 {
    (a.x * a.x + a.y * a.y).sqrt()
}

fn normalize(a: Vec2) -> Vec2 {
    let l = length(a);
    if l != 0.0 {
        times(a, 1.0 / l)
    } else {
        a
    }
}

fn limit(a: Vec2, mag: f64) -> Vec2 {
    let l = length(a);
    if l > mag {
        times(a, mag / l)
    } else {
        a
    }
}

fn distance(a: Vec2, b: Vec2) -> f64 {
    length(minus(a, b))
}

fn midpoint(a: Vec2, b: Vec2) -> Vec2 {
    times(plus(a, b), 0.5)
}

const MAX_SPEED: f64 = 1.0;
const MAX_FORCE: f64 = 0.6;

fn align(mut node: Node<Vec2>, prev: Node<Vec2>, next: Node<Vec2>) -> Node<Vec2> {
    let target = midpoint(prev.position, next.position);
    let desired = times(normalize(minus(target, node.position)), MAX_SPEED);
    let steer = times(limit(minus(desired, node.velocity), MAX_FORCE), 1.5);
    node.acceleration = plus(node.acceleration, steer);
    node
}

fn avoid(mut node: Node<Vec2>, index: &NoIndex<Vec2>) -> Node<Vec2> {
    let radius = 50.0;
    let mut total = v(0.0, 0.0);
    let mut near = 0;
    for other in index.get_neighbors(&node.position, radius) {
        let d = distance(node.position, *other);
        if d > 0.0 && d < radius {
            total = plus(total, times(normalize(minus(node.position, *other)), 1.0 / d));
            near += 1;
        }
    }
    if near > 0 {
        total = times(total, 1.0 / near as f64);
    }
    if length(total) > 0.0 {
        let steer = limit(minus(times(normalize(total), MAX_SPEED), node.velocity), MAX_FORCE);
        node.acceleration = plus(node.acceleration, times(steer, 1.01));
    }
    node
}

fn integrate(mut node: Node<Vec2>) -> Node<Vec2> {
    node.velocity = limit(plus(node.velocity, node.acceleration), MAX_SPEED);
    node.position = plus(node.position, node.velocity);
    node.acceleration = v(0.0, 0.0);
    node
}

fn build(points: Vec<Vec2>) -> NoIndex<Vec2> {
    let mut index = NoIndex::new();
    index.index(points);
    index
}

fn polygon(sides: u32, radius: f64, center: Vec2) -> Vec<Vec2> {
    (0..sides)
        .map(|i| {
            let angle = (i as f64 / sides as f64) * std::f64::consts::PI * 2.0;
            plus(center, v(angle.cos() * radius, angle.sin() * radius))
        })
        .collect()
}

#[test]
fn polygon_simulation_ticks_end_to_end() {
    let exceeds = |a: Vec2, b: Vec2| distance(a, b) > 5.0;
    let too_short = |a: Vec2, b: Vec2| distance(a, b) < 1.0;
    let unbounded = NoBounds {};
    let contains = |p: Vec2| unbounded.contains(p);
    let chance = |_ticket: u64| true;

    let initial = Path::from_recipe(InitializationType::Polygon, polygon(3, 100.0, v(50.0, 50.0)));
    let mut simulation = GrowthSimulation::new(StdRng::seed_from_u64(1));
    simulation.setup(initial, &exceeds, &midpoint);
    simulation.update(&build, &align, &avoid, &integrate, &contains, &exceeds, &too_short, &midpoint, &chance);

    let state = simulation.get_state();
    assert_eq!(state.len(), 1);
    assert!(state[0].cyclic);
    assert!(state[0].positions.len() >= 3);
}

#[test]
fn setup_grows_the_initial_path_to_a_fixed_point() {
    let exceeds = |a: Vec2, b: Vec2| distance(a, b) > 1.0;
    let mut simulation = GrowthSimulation::new(StdRng::seed_from_u64(1));
    simulation.add_path(Path::from_positions(vec![v(9.0, 9.0)], false));
    simulation.add_path(Path::from_positions(vec![v(7.0, 7.0)], false));
    simulation.setup(Path::from_positions(vec![v(0.0, 0.0), v(4.0, 0.0)], false), &exceeds, &midpoint);
    let state = simulation.get_state();
    assert_eq!(state.len(), 1);
    assert!(!state[0].cyclic);
    assert_eq!(state[0].positions, vec![v(0.0, 0.0), v(1.0, 0.0), v(2.0, 0.0), v(3.0, 0.0), v(4.0, 0.0)]);
}

#[test]
fn reset_discards_all_paths() {
    let mut simulation: GrowthSimulation<Vec2> = GrowthSimulation::new(StdRng::seed_from_u64(1));
    assert_eq!(simulation.len(), 0);
    simulation.add_path(Path::from_positions(vec![v(1.0, 1.0)], false));
    simulation.add_path(Path::from_positions(vec![v(2.0, 2.0)], true));
    assert_eq!(simulation.len(), 2);
    simulation.reset();
    assert_eq!(simulation.len(), 0);
    assert!(simulation.get_state().is_empty());
    assert!(simulation.all_points().is_empty());
}

#[test]
fn points_come_path_after_path() {
    let mut simulation = GrowthSimulation::new(StdRng::seed_from_u64(1));
    simulation.add_path(Path::from_positions(vec![v(1.0, 1.0), v(2.0, 2.0)], false));
    simulation.add_path(Path::from_positions(vec![], true));
    simulation.add_path(Path::from_positions(vec![v(3.0, 3.0)], true));
    assert_eq!(simulation.all_points(), vec![v(1.0, 1.0), v(2.0, 2.0), v(3.0, 3.0)]);
    assert_eq!(simulation.path_points(), vec![vec![v(1.0, 1.0), v(2.0, 2.0)], vec![], vec![v(3.0, 3.0)]]);
    let state = simulation.get_state();
    assert_eq!(state.len(), 3);
    assert_eq!(state[0].positions, vec![v(1.0, 1.0), v(2.0, 2.0)]);
    assert!(!state[0].cyclic);
    assert!(state[1].cyclic);
    assert_eq!(state[2].positions, vec![v(3.0, 3.0)]);
}

#[test]
fn every_path_sees_the_positions_from_before_the_tick() {
    let seen = std::cell::RefCell::new(Vec::new());
    let build = |points: Vec<Vec2>| {
        seen.borrow_mut().push(points.clone());
        points
    };
    let align = |node: Node<Vec2>, _p: Node<Vec2>, _q: Node<Vec2>| node;
    let avoid = |mut node: Node<Vec2>, index: &Vec<Vec2>| {
        node.acceleration = v(index.len() as f64, index[0].x);
        node
    };
    let integrate = |mut node: Node<Vec2>| {
        node.position = plus(node.position, v(10.0, 0.0));
        node
    };
    let contains = |_p: Vec2| true;
    let never = |_a: Vec2, _b: Vec2| false;
    let chance = |_ticket: u64| false;

    let mut simulation = GrowthSimulation::new(StdRng::seed_from_u64(1));
    simulation.add_path(Path::from_positions(vec![v(1.0, 0.0), v(2.0, 0.0)], false));
    simulation.add_path(Path::from_positions(vec![v(3.0, 0.0)], false));
    simulation.update(&build, &align, &avoid, &integrate, &contains, &never, &never, &midpoint, &chance);

    assert_eq!(*seen.borrow(), vec![vec![v(1.0, 0.0), v(2.0, 0.0), v(3.0, 0.0)]]);
    assert_eq!(simulation.all_points(), vec![v(11.0, 0.0), v(12.0, 0.0), v(13.0, 0.0)]);
    let state = simulation.get_state();
    assert_eq!(state.len(), 2);
    assert!(!state[0].cyclic);
}

#[test]
fn unbounded_region_contains_every_point() {
    let unbounded = NoBounds {};
    assert!(unbounded.contains(v(50.0, 50.0)));
    assert!(unbounded.contains(v(0.0, 50.0)));
    assert!(unbounded.contains(v(-1.0e300, 1.0e300)));
}

#[test]
fn linear_index_returns_every_point_whatever_the_radius() {
    let mut index: NoIndex<[f64; 2]> = NoIndex::new();
    assert!(index.get_neighbors(&v(0.0, 0.0), 1.0).is_empty());
    index.index(vec![[1.0, 0.0], [0.0, 0.0], [0.0, 1.0], [1.0, 1.0]]);
    let near = index.get_neighbors(&v(0.0, 0.0), 0.0);
    assert_eq!(near, vec![&[1.0, 0.0], &[0.0, 0.0], &[0.0, 1.0], &[1.0, 1.0]]);
    let far = index.get_neighbors(&v(1000.0, 1000.0), 1.0);
    assert_eq!(far.len(), 4);
    index.index(vec![[5.0, 5.0]]);
    assert_eq!(index.get_neighbors(&v(0.0, 0.0), 1.0), vec![&[5.0, 5.0]]);
}

#[test]
fn segments_join_consecutive_nodes_and_close_cycles() {
    assert_eq!(segments(4, false), vec![(0, 1), (1, 2), (2, 3)]);
    assert_eq!(segments(4, true), vec![(3, 0), (0, 1), (1, 2), (2, 3)]);
    assert_eq!(segments(2, true), vec![(1, 0), (0, 1)]);
    assert_eq!(segments(1, true), vec![]);
    assert_eq!(segments(1, false), vec![]);
    assert_eq!(segments(0, true), vec![]);
}

#[test]
fn only_a_polygon_starts_as_a_cycle() {
    let points = vec![v(0.0, 0.0), v(1.0, 0.0), v(0.0, 1.0)];
    assert!(Path::from_recipe(InitializationType::Polygon, points.clone()).is_cyclic());
    assert!(!Path::from_recipe(InitializationType::HorizontalLine, points.clone()).is_cyclic());
    let line = Path::from_recipe(InitializationType::VerticalLine, points.clone());
    assert!(!line.is_cyclic());
    assert_eq!(line.node_positions(), points);
    assert_eq!(line.node(1), Node::new_with_position(v(1.0, 0.0)));
}

#[test]
fn only_polygons_are_cyclic() {
    assert!(InitializationType::Polygon.is_cyclic());
    assert!(!InitializationType::HorizontalLine.is_cyclic());
    assert!(!InitializationType::VerticalLine.is_cyclic());
}

#[test]
fn configuration_defaults() {
    assert!(!RecordingConfig::new().recording);
    assert_eq!(RecordingConfig::default(), RecordingConfig::new());
    assert_ne!(BoundsType::Unbounded, BoundsType::View);
    assert_ne!(SpatialIndexType::Linear, SpatialIndexType::RTree);
}
