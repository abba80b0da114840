use growth_simulation::node::Node;
use growth_simulation::path::Path;
use growth_simulation::random::{random_inner_index, random_ticket};
use rand::rngs::StdRng;
use rand::SeedableRng;

#[derive(Clone, Copy, Debug, Default, PartialEq)]
struct Vec2 {
    x: f64,
    y: f64,
}

fn v(x: f64, y: f64) -> Vec2 {
    Vec2 { x, y }
}

fn midpoint(a: Vec2, b: Vec2) -> Vec2 {
    v((a.x + b.x) / 2.0, (a.y + b.y) / 2.0)
}

fn line(n: usize) -> Vec<Node<Vec2>> {
    (0..n).map(|i| Node::new_with_position(v(2.0 * i as f64, 0.0))).collect()
}

fn xs(path: &Path<Vec2>) -> Vec<f64> {
    path.node_positions().iter().map(|p| p.x).collect()
}

#[test]
fn random_inner_index_never_picks_an_end() {
    let mut rng = StdRng::seed_from_u64(1);
    for len in 3..12usize {
        for _ in 0..200 {
            let index = random_inner_index(&mut rng, len);
            assert!(index >= 1 && index <= len - 2);
        }
    }
}

#[test]
fn random_inner_index_reaches_every_inner_node() {
    let mut rng = StdRng::seed_from_u64(2);
    let mut hit = [false; 6];
    for _ in 0..2000 {
        hit[random_inner_index(&mut rng, 6)] = true;
    }
    assert_eq!(hit, [false, true, true, true, true, false]);
}

#[test]
fn random_inner_index_of_three_nodes_is_the_middle() {
    let mut rng = StdRng::seed_from_u64(3);
    for _ in 0..50 {
        assert_eq!(random_inner_index(&mut rng, 3), 1);
    }
}

#[test]
fn inject_at_puts_the_midpoint_before_the_node() {
    let mut path = Path::new(line(4), false);
    path.inject_at(2, &midpoint);
    assert_eq!(xs(&path), vec![0.0, 2.0, 3.0, 4.0, 6.0]);
    let added = path.node(2);
    assert_eq!(added, Node::new_with_position(v(3.0, 0.0)));
}

#[test]
fn inject_at_the_first_node_appends_on_a_cycle_and_does_nothing_on_an_open_path() {
    let mut open = Path::new(line(4), false);
    open.inject_at(0, &midpoint);
    assert_eq!(xs(&open), vec![0.0, 2.0, 4.0, 6.0]);

    let mut closed = Path::new(line(4), true);
    closed.inject_at(0, &midpoint);
    assert_eq!(xs(&closed), vec![0.0, 2.0, 4.0, 6.0, 3.0]);
}

#[test]
fn injection_is_skipped_on_short_paths() {
    let asked = std::cell::Cell::new(0);
    let chance = |_ticket: u64| {
        asked.set(asked.get() + 1);
        true
    };
    let mut rng = StdRng::seed_from_u64(4);
    for n in 0..3usize {
        for cyclic in [false, true] {
            let mut path = Path::new(line(n), cyclic);
            path.inject_random_nodes(&mut rng, &chance, &midpoint);
            assert_eq!(path, Path::new(line(n), cyclic));
        }
    }
    assert_eq!(asked.get(), 0);
    assert_eq!(rng, StdRng::seed_from_u64(4));
}

#[test]
fn injection_does_nothing_where_chance_says_no() {
    let chance = |_ticket: u64| false;
    let mut rng = StdRng::seed_from_u64(5);
    let mut path = Path::new(line(6), true);
    path.inject_random_nodes(&mut rng, &chance, &midpoint);
    assert_eq!(path, Path::new(line(6), true));
}

#[test]
fn injection_into_three_nodes_splits_the_first_edge() {
    let chance = |_ticket: u64| true;
    let mut rng = StdRng::seed_from_u64(6);
    let mut path = Path::new(line(3), false);
    path.inject_random_nodes(&mut rng, &chance, &midpoint);
    assert_eq!(xs(&path), vec![0.0, 1.0, 2.0, 4.0]);
}

#[test]
fn injection_adds_one_node_and_spares_the_ends() {
    let chance = |_ticket: u64| true;
    let mut rng = StdRng::seed_from_u64(7);
    for _ in 0..200 {
        let mut path = Path::new(line(5), true);
        path.inject_random_nodes(&mut rng, &chance, &midpoint);
        let got = xs(&path);
        assert_eq!(got.len(), 6);
        assert_eq!(got[0], 0.0);
        assert_eq!(got[5], 8.0);
        // The new node lies on the edge that ends in node 1, 2 or 3.
        let expected = [
            vec![0.0, 1.0, 2.0, 4.0, 6.0, 8.0],
            vec![0.0, 2.0, 3.0, 4.0, 6.0, 8.0],
            vec![0.0, 2.0, 4.0, 5.0, 6.0, 8.0],
        ];
        assert!(expected.contains(&got));
    }
}

#[test]
fn injection_repeats_from_the_same_seed() {
    let chance = |ticket: u64| ticket % 2 == 0;
    let run = |seed: u64| {
        let mut rng = StdRng::seed_from_u64(seed);
        let mut path = Path::new(line(8), false);
        for _ in 0..20 {
            path.inject_random_nodes(&mut rng, &chance, &midpoint);
        }
        path
    };
    assert_eq!(run(11), run(11));
    assert!(run(11).len() > 8);
    assert!(run(11).len() <= 28);
}

#[test]
fn injection_shows_the_ticket_to_the_lottery() {
    let mut rng = StdRng::seed_from_u64(12);
    let expected = random_ticket(&mut StdRng::seed_from_u64(12));
    let seen = std::cell::Cell::new(None);
    let chance = |ticket: u64| {
        seen.set(Some(ticket));
        false
    };
    let mut path = Path::new(line(4), false);
    path.inject_random_nodes(&mut rng, &chance, &midpoint);
    assert_eq!(seen.get(), Some(expected));
}

#[test]
fn tickets_vary() {
    let mut rng = StdRng::seed_from_u64(13);
    let first = random_ticket(&mut rng);
    let differs = (0..64).any(|_| random_ticket(&mut rng) != first);
    assert!(differs);
}
