use growth_simulation::node::Node;
use growth_simulation::path::Path;
use rand::rngs::StdRng;
use rand::SeedableRng;

#[derive(Clone, Copy, Debug, Default, PartialEq)]
struct Vec2 {
    x: f64,
    y: f64,
}

fn v(x: f64, y: f64) -> Vec2 {
    Vec2 { x, y }
}

fn plus(a: Vec2, b: Vec2) -> Vec2 {
    v(a.x + b.x, a.y + b.y)
}

fn midpoint(a: Vec2, b: Vec2) -> Vec2 {
    v((a.x + b.x) / 2.0, (a.y + b.y) / 2.0)
}

/// Alignment that pulls a node all the way to the middle of its neighbours.
fn align(mut node: Node<Vec2>, prev: Node<Vec2>, next: Node<Vec2>) -> Node<Vec2> {
    let target = midpoint(prev.position, next.position);
    node.acceleration = plus(node.acceleration, v(target.x - node.position.x, target.y - node.position.y));
    node
}

/// A push upwards by the number of points in the index.
fn avoid(mut node: Node<Vec2>, index: &usize) -> Node<Vec2> {
    node.acceleration = plus(node.acceleration, v(0.0, *index as f64));
    node
}

fn integrate(mut node: Node<Vec2>) -> Node<Vec2> {
    node.velocity = plus(node.velocity, node.acceleration);
    node.position = plus(node.position, node.velocity);
    node.acceleration = v(0.0, 0.0);
    node
}

fn inside(p: Vec2) -> bool {
    p.x > 0.0 && p.x < 100.0 && p.y > 0.0 && p.y < 100.0
}

#[test]
fn integration_adds_forces_then_moves_then_clears() {
    let mut node = Node::new_with_position_and_velocity(v(10.0, 20.0), v(1.0, -1.0));
    node.acceleration = v(3.0, 1.0);
    let out = node.advance(None, None, &0usize, &align, &avoid, &integrate, &inside);
    assert_eq!(out.velocity, v(4.0, 0.0));
    assert_eq!(out.position, v(14.0, 20.0));
    assert_eq!(out.acceleration, v(0.0, 0.0));
    assert!(!out.fixed);
}

#[test]
fn alignment_needs_both_neighbours() {
    let node = Node::new_with_position(v(10.0, 10.0));
    let prev = Node::new_with_position(v(20.0, 10.0));
    let next = Node::new_with_position(v(20.0, 30.0));
    let index = 0usize;

    let alone = node.advance(None, None, &index, &align, &avoid, &integrate, &inside);
    assert_eq!(alone.position, v(10.0, 10.0));
    let only_prev = node.advance(Some(prev), None, &index, &align, &avoid, &integrate, &inside);
    assert_eq!(only_prev.position, v(10.0, 10.0));
    let only_next = node.advance(None, Some(next), &index, &align, &avoid, &integrate, &inside);
    assert_eq!(only_next.position, v(10.0, 10.0));
    let both = node.advance(Some(prev), Some(next), &index, &align, &avoid, &integrate, &inside);
    assert_eq!(both.position, v(20.0, 20.0));
}

#[test]
fn avoidance_reads_the_index_and_follows_alignment() {
    let node = Node::new_with_position(v(10.0, 10.0));
    let prev = Node::new_with_position(v(20.0, 10.0));
    let next = Node::new_with_position(v(20.0, 30.0));
    let out = node.advance(Some(prev), Some(next), &7usize, &align, &avoid, &integrate, &inside);
    assert_eq!(out.position, v(20.0, 27.0));
    assert_eq!(out.velocity, v(10.0, 17.0));
}

#[test]
fn node_that_leaves_the_bounds_freezes_where_it_landed() {
    let node = Node::new_with_position_and_velocity(v(99.0, 50.0), v(2.0, 0.0));
    let out = node.advance(None, None, &0usize, &align, &avoid, &integrate, &inside);
    assert!(out.fixed);
    assert_eq!(out.position, v(101.0, 50.0));
    assert_eq!(out.velocity, v(2.0, 0.0));

    let on_edge = Node::new_with_position_and_velocity(v(1.0, 50.0), v(-1.0, 0.0));
    let out = on_edge.advance(None, None, &0usize, &align, &avoid, &integrate, &inside);
    assert!(out.fixed);
    assert_eq!(out.position, v(0.0, 50.0));
}

#[test]
fn frozen_node_is_skipped_entirely() {
    let mut node = Node::new_with_position_and_velocity(v(50.0, 50.0), v(1.0, 1.0));
    node.acceleration = v(2.0, 2.0);
    node.fixed = true;
    let prev = Node::new_with_position(v(20.0, 10.0));
    let next = Node::new_with_position(v(20.0, 30.0));
    let out = node.advance(Some(prev), Some(next), &3usize, &align, &avoid, &integrate, &inside);
    assert_eq!(out, node);
}

#[test]
fn round_spares_frozen_nodes_and_keeps_the_count() {
    let mut frozen = Node::new_with_position_and_velocity(v(50.0, 50.0), v(1.0, 1.0));
    frozen.fixed = true;
    let nodes = vec![
        Node::new_with_position(v(10.0, 10.0)),
        frozen,
        Node::new_with_position(v(30.0, 10.0)),
    ];
    let mut path = Path::new(nodes, true);
    path.move_nodes(&1usize, &align, &avoid, &integrate, &inside);
    assert_eq!(path.len(), 3);
    assert_eq!(path.node(1), frozen);
    assert_ne!(path.node(0).position, v(10.0, 10.0));
}

#[test]
fn a_node_sees_its_predecessor_moved_and_its_successor_unmoved() {
    let still = |node: Node<Vec2>, _index: &usize| node;
    let nodes = vec![
        Node::new_with_position(v(10.0, 10.0)),
        Node::new_with_position(v(20.0, 10.0)),
        Node::new_with_position(v(30.0, 10.0)),
        Node::new_with_position(v(40.0, 20.0)),
    ];
    let mut path = Path::new(nodes, false);
    path.move_nodes(&0usize, &align, &still, &integrate, &inside);
    let points = path.node_positions();
    // The ends have one neighbour only and stay. Node 1 sits in the middle of
    // its neighbours already. Node 2 moves to the middle of node 1 and node 3.
    assert_eq!(points, vec![v(10.0, 10.0), v(20.0, 10.0), v(30.0, 15.0), v(40.0, 20.0)]);

    let nodes = vec![
        Node::new_with_position(v(10.0, 10.0)),
        Node::new_with_position(v(20.0, 20.0)),
        Node::new_with_position(v(30.0, 10.0)),
        Node::new_with_position(v(40.0, 10.0)),
    ];
    let mut path = Path::new(nodes, false);
    path.move_nodes(&0usize, &align, &still, &integrate, &inside);
    let points = path.node_positions();
    // Node 1 moves to (20, 10) first; node 2 then lies between (20, 10) and
    // (40, 10) and stays. Had it seen node 1 unmoved it would have gone up.
    assert_eq!(points, vec![v(10.0, 10.0), v(20.0, 10.0), v(30.0, 10.0), v(40.0, 10.0)]);
}

#[test]
fn first_node_of_a_cycle_sees_the_last_node_unmoved() {
    let still = |node: Node<Vec2>, _index: &usize| node;
    let nodes = vec![
        Node::new_with_position(v(10.0, 10.0)),
        Node::new_with_position(v(20.0, 10.0)),
        Node::new_with_position(v(10.0, 30.0)),
    ];
    let mut path = Path::new(nodes, true);
    path.move_nodes(&0usize, &align, &still, &integrate, &inside);
    let points = path.node_positions();
    assert_eq!(points[0], v(15.0, 20.0));
    assert_eq!(points[1], v(12.5, 25.0));
    assert_eq!(points[2], v(13.75, 22.5));
}

#[test]
fn update_moves_then_grows_then_prunes_then_injects() {
    let still = |node: Node<Vec2>, _index: &usize| node;
    let keep = |node: Node<Vec2>, _p: Node<Vec2>, _q: Node<Vec2>| node;
    let step_right = |mut node: Node<Vec2>| {
        if node.position.x >= 10.0 {
            node.position.x += 10.0;
        }
        node
    };
    let exceeds = |a: Vec2, b: Vec2| (a.x - b.x).abs() > 10.0;
    let too_short = |a: Vec2, b: Vec2| (a.x - b.x).abs() < 8.0;
    let chance = |_ticket: u64| false;
    let mut rng = StdRng::seed_from_u64(1);
    let nodes = vec![
        Node::new_with_position(v(1.0, 1.0)),
        Node::new_with_position(v(10.0, 1.0)),
        Node::new_with_position(v(12.0, 1.0)),
    ];
    let mut path = Path::new(nodes, false);
    path.update(&0usize, &mut rng, &keep, &still, &step_right, &inside, &exceeds, &too_short, &midpoint, &chance);
    // Moved: 1, 20, 22. Grown: 1, 10.5, 20, 22. Pruned: 22 is too close to 20.
    let xs: Vec<f64> = path.node_positions().iter().map(|p| p.x).collect();
    assert_eq!(xs, vec![1.0, 10.5, 20.0]);
}

#[test]
fn a_step_clamps_the_velocity_before_it_moves_the_node() {
    let clamped = |mut node: Node<Vec2>| {
        node.velocity = plus(node.velocity, node.acceleration);
        let speed = (node.velocity.x * node.velocity.x + node.velocity.y * node.velocity.y).sqrt();
        if speed > 1.0 {
            node.velocity = v(node.velocity.x / speed, node.velocity.y / speed);
        }
        node.position = plus(node.position, node.velocity);
        node.acceleration = v(0.0, 0.0);
        node
    };
    let still = |node: Node<Vec2>, _index: &usize| node;
    let anywhere = |_p: Vec2| true;
    let mut node = Node::new_with_position_and_velocity(v(-2.0, 2.0), v(1.0, -1.0));
    node.acceleration = v(3.0, 1.0);
    let out = node.advance(None, None, &0usize, &align, &still, &clamped, &anywhere);
    assert_eq!(out.position, v(-1.0, 2.0));
    assert_eq!(out.velocity, v(1.0, 0.0));
    assert_eq!(out.acceleration, v(0.0, 0.0));
    assert!(!out.fixed);
}

#[test]
fn a_tick_keeps_the_length_of_a_path_within_bounds() {
    let still = |node: Node<Vec2>, _index: &usize| node;
    let keep = |node: Node<Vec2>, _p: Node<Vec2>, _q: Node<Vec2>| node;
    let rest = |node: Node<Vec2>| node;
    let yes = |_ticket: u64| true;
    let mut rng = StdRng::seed_from_u64(9);
    for n in 0..8usize {
        for cyclic in [false, true] {
            for (long, short) in [(true, true), (true, false), (false, true), (false, false)] {
                let exceeds = &|_a: Vec2, _b: Vec2| long;
                let too_short = &|_a: Vec2, _b: Vec2| short;
                let nodes: Vec<Node<Vec2>> = (0..n).map(|i| Node::new_with_position(v(i as f64, 1.0))).collect();
                let mut path = Path::new(nodes, cyclic);
                path.update(&0usize, &mut rng, &keep, &still, &rest, &inside, exceeds, too_short, &midpoint, &yes);
                let after = path.len();
                assert!(after <= 2 * n + 1);
                assert!(n <= 2 * after + 1);
                assert_eq!(after == 0, n == 0);
                assert_eq!(path.is_cyclic(), cyclic);
            }
        }
    }
}
