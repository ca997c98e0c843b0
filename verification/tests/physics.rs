use clothsim::nac::{InterConnector, Mesh, Node, SelfConnector};
use clothsim::num::{COORD_LIMIT, SCALE};
use clothsim::verlet::{
    force_constraint, gravity_constraint, ground_bound_gravity_constraint,
    ground_boundary_constraint, internode_constraint, wind_constraint, wind_step, InterRule,
    SelfRule, Verlet,
};
use rand::rngs::StdRng;
use rand::SeedableRng;

fn separation(m: &Mesh, a: usize, b: usize) -> f64 {
    let pa = m.node_position(a);
    let pb = m.node_position(b);
    let dx = (pa.x - pb.x) as f64;
    let dy = (pa.y - pb.y) as f64;
    (dx * dx + dy * dy).sqrt()
}

#[test]
fn gravity_step_exact() {
    // accel = 1200 * 1000^2 / 2_000_000 = 600 coordinate units per step
    let n = Node::new(Verlet::new(5_000_000, 2_000_000));
    let r1 = gravity_constraint(&n, 1000, 1200);
    assert_eq!(r1.data.position.x, 5_000_000);
    assert_eq!(r1.data.position.y, 2_000_600);
    assert_eq!(r1.data.delta_position.x, 5_000_000);
    assert_eq!(r1.data.delta_position.y, 2_000_000);
    assert!(!r1.data.pinned);
    // the second step also carries last step's displacement
    let r2 = gravity_constraint(&r1, 1000, 1200);
    assert_eq!(r2.data.position.y, 2_001_800);
}

#[test]
fn gravity_monotone_many_steps() {
    let mut n = Node::new(Verlet::new(0, 0));
    let mut last_y = n.data.position.y;
    for _ in 0..50 {
        n = gravity_constraint(&n, 1000, 900);
        assert!(n.data.position.y > last_y);
        last_y = n.data.position.y;
    }
}

#[test]
fn impulse_step_exact() {
    // displacement = f * dt^2 / 1_000_000 with dt in microseconds
    let n = Node::new(Verlet::new(100, 200));
    let r = force_constraint(&n, 1000, 3_000_000, -4_000_000);
    assert_eq!(r.data.position.x, 100 + 3_000_000);
    assert_eq!(r.data.position.y, 200 - 4_000_000);
    assert_eq!(r.data.delta_position.x, 100);
    assert_eq!(r.data.delta_position.y, 200);
}

#[test]
fn wind_term_kept_and_discarded() {
    let n = Node::new(Verlet::new(0, 0));
    // sample 400_000 of 1_000_000: contribution 400_000, below half strength
    let r = wind_step(&n, 1_000_000, 0, 400_000, 0);
    assert_eq!(r.data.position.x, 400_000);
    assert_eq!(r.data.position.y, 0);
    // sample 600_000: contribution 600_000, at least half strength, dropped
    let r = wind_step(&n, 1_000_000, 0, 600_000, 0);
    assert_eq!(r.data.position.x, 0);
    // negative strength: magnitudes are compared
    let r = wind_step(&n, -1_000_000, 0, 400_000, 0);
    assert_eq!(r.data.position.x, -400_000);
    let r = wind_step(&n, -1_000_000, 0, 600_000, 0);
    assert_eq!(r.data.position.x, 0);
}

#[test]
fn wind_constraint_bounded() {
    let mut rng = StdRng::seed_from_u64(7);
    let n = Node::new(Verlet::new(0, 0));
    for _ in 0..100 {
        let r = wind_constraint(&n, 1_000_000, -2_000_000, &mut rng);
        let dx = r.data.position.x;
        let dy = r.data.position.y;
        assert!(2 * dx.abs() < 1_000_000 || dx == 0);
        assert!(2 * dy.abs() < 2_000_000 || dy == 0);
        assert!(dx >= 0);
        assert!(dy <= 0);
    }
}

#[test]
fn ground_clamp_snaps_below() {
    let n = Node::new(Verlet::new(300, -500));
    let r = ground_boundary_constraint(&n, 0);
    assert_eq!(r.data.position.x, 300);
    assert_eq!(r.data.position.y, 0);
}

#[test]
fn ground_clamp_ignores_above() {
    let n = Node::new(Verlet::new(300, 500));
    let r = ground_boundary_constraint(&n, 0);
    assert_eq!(r.data, n.data);
}

#[test]
fn ground_gravity_clamps_or_falls() {
    let below = Node::new(Verlet::new(0, -123));
    let r = ground_bound_gravity_constraint(&below, 1000, 1200, 0);
    assert_eq!(r.data.position.y, 0);
    assert_eq!(r.data.position.x, 0);
    let above = Node::new(Verlet::new(0, 77));
    let r = ground_bound_gravity_constraint(&above, 1000, 1200, 0);
    assert_eq!(r.data.position.y, 77 + 600);
}

#[test]
fn distance_constraint_exact_full_stiffness() {
    // separation 3_000_000, rest length 1_000_000, stiffness 1:
    // each end moves by half the gap, meeting the rest length exactly
    let a = Node::new(Verlet::new(0, 0));
    let b = Node::new(Verlet::new(3_000_000, 0));
    let (a2, b2) = internode_constraint(&a, &b, 1_000_000, 1000);
    assert_eq!(a2.data.position.x, 1_000_000);
    assert_eq!(b2.data.position.x, 2_000_000);
    assert_eq!(a2.data.position.y, 0);
    assert_eq!(b2.data.position.y, 0);
    // the pre-correction positions feed the next integration step
    assert_eq!(a2.data.delta_position.x, 0);
    assert_eq!(b2.data.delta_position.x, 3_000_000);
}

#[test]
fn distance_constraint_pinned_end_stays() {
    let a = Node::new(Verlet::new_pinned(0, 0));
    let b = Node::new(Verlet::new(3_000_000, 0));
    let (a2, b2) = internode_constraint(&a, &b, 1_000_000, 1000);
    assert_eq!(a2.data, a.data);
    assert_eq!(b2.data.position.x, 2_000_000);
}

#[test]
fn zero_distance_guard() {
    let a = Node::new(Verlet::new(42, 42));
    let b = Node::new(Verlet::new(42, 42));
    let (a2, b2) = internode_constraint(&a, &b, 1_000_000, 500);
    assert_eq!(a2.data.position, a.data.position);
    assert_eq!(b2.data.position, b.data.position);
}

#[test]
fn distance_convergence_under_repeated_resolution() {
    // two free nodes under a single distance constraint converge to the
    // rest length as the iteration count grows
    let mut m = Mesh::empty_cloth();
    m.add_node(Verlet::new(0, 0));
    m.add_node(Verlet::new(9_000_000, 500_000));
    let mut secs = Vec::new();
    secs.push(1);
    m.add_inter_connector(InterConnector::new(
        0,
        Some(secs),
        InterRule::Distance { spacing: 2_000_000, spring_milli: 300 },
    ));
    let mut rng = StdRng::seed_from_u64(1);
    m.update(60, &mut rng);
    let sep = separation(&m, 0, 1);
    assert!((sep - 2_000_000.0).abs() < 50.0, "separation {sep}");
}

#[test]
fn distance_convergence_expanding() {
    // starting closer than the rest length, the nodes are pushed apart
    let mut m = Mesh::empty_cloth();
    m.add_node(Verlet::new(0, 0));
    m.add_node(Verlet::new(0, 300_000));
    let mut secs = Vec::new();
    secs.push(1);
    m.add_inter_connector(InterConnector::new(
        0,
        Some(secs),
        InterRule::Distance { spacing: 4_000_000, spring_milli: 500 },
    ));
    let mut rng = StdRng::seed_from_u64(2);
    m.update(80, &mut rng);
    let sep = separation(&m, 0, 1);
    assert!((sep - 4_000_000.0).abs() < 50.0, "separation {sep}");
}

#[test]
fn pinned_nodes_never_move() {
    let mut m = Mesh::new_cloth(4, 4, 10, 1200, 250_000, 500);
    let before: Vec<(i64, i64)> = (0..m.node_count())
        .map(|i| {
            let p = m.node_position(i);
            (p.x, p.y)
        })
        .collect();
    let mut rng = StdRng::seed_from_u64(3);
    for _ in 0..10 {
        m.update(4, &mut rng);
    }
    for i in 0..m.node_count() {
        if m.nodes[i].data.pinned {
            let p = m.node_position(i);
            assert_eq!((p.x, p.y), before[i]);
        }
    }
    // row zero of the grid is pinned
    for i in 0..4 {
        assert!(m.nodes[i].data.pinned);
    }
}

#[test]
fn clamp_keeps_coordinates_in_range() {
    let n = Node::new(Verlet::new(COORD_LIMIT, COORD_LIMIT));
    let r = force_constraint(&n, 60_000, i64::MAX, i64::MAX);
    assert_eq!(r.data.position.x, COORD_LIMIT);
    assert_eq!(r.data.position.y, COORD_LIMIT);
    let r = force_constraint(&n, 60_000, i64::MIN, i64::MIN);
    assert_eq!(r.data.position.x, -COORD_LIMIT);
    assert_eq!(r.data.position.y, -COORD_LIMIT);
}

#[test]
fn scale_is_one_world_unit() {
    assert_eq!(SCALE, 1_000_000);
    let v = Verlet::new(3 * SCALE, 0);
    assert_eq!(v.position.x, 3_000_000);
}

#[test]
fn update_runs_unary_rules_once_per_step() {
    // a single node under gravity alone: iterations only affect the
    // pairwise sweeps, gravity fires once per update call
    let mut m = Mesh::empty_cloth();
    m.add_node(Verlet::new(0, 0));
    m.add_self_connector(SelfConnector::new(
        "gravity",
        0,
        SelfRule::Gravity { dt_micros: 1000, gravity: 1200 },
    ));
    let mut rng = StdRng::seed_from_u64(4);
    m.update(8, &mut rng);
    assert_eq!(m.node_position(0).y, 600);
    m.update(8, &mut rng);
    assert_eq!(m.node_position(0).y, 1800);
}
