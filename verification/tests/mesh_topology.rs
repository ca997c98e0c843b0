use clothsim::nac::{InterConnector, Mesh, SelfConnector};
use clothsim::verlet::{InterRule, SelfRule, Verlet};
use rand::rngs::StdRng;
use rand::SeedableRng;

#[test]
fn grid_three_by_three_wiring() {
    let m = Mesh::new_cloth(3, 3, 10, 1200, 0, 500);
    assert_eq!(m.node_count(), 9);
    // row zero is pinned, every other node is free
    for i in 0..9 {
        assert_eq!(m.nodes[i].data.pinned, i < 3);
    }
    // lattice positions, row-major insertion order
    for y in 0..3usize {
        for x in 0..3usize {
            let p = m.node_position(y * 3 + x);
            assert_eq!(p.x, (x as i64) * 10_000_000);
            assert_eq!(p.y, (y as i64) * 10_000_000);
        }
    }
    // no unary constraint targets row zero; two per free node
    assert_eq!(m.selfconnectors.len(), 12);
    for c in m.selfconnectors.iter() {
        assert!(c.node >= 3);
    }
    // left and up links only: 6 horizontal + 6 vertical, no diagonals
    assert_eq!(m.interconnector_count(), 12);
    for idx in 0..12 {
        assert_eq!(m.interconnector_constraint_count(idx), 1);
        let (p, q) = m.interconnector_constraint(idx, 0).unwrap();
        let dx = (p.x - q.x).abs();
        let dy = (p.y - q.y).abs();
        assert!(
            (dx == 10_000_000 && dy == 0) || (dx == 0 && dy == 10_000_000),
            "diagonal or misplaced link"
        );
    }
}

#[test]
fn grid_gravity_and_wind_alternate() {
    let m = Mesh::new_cloth(2, 2, 5, 900, 123, 400);
    assert_eq!(m.selfconnectors.len(), 4);
    assert_eq!(m.selfconnectors[0].name, "gravity");
    assert_eq!(m.selfconnectors[1].name, "wind");
    assert_eq!(m.selfconnectors[0].node, 2);
    assert_eq!(m.selfconnectors[1].node, 2);
    assert_eq!(m.selfconnectors[2].node, 3);
    assert_eq!(
        m.selfconnectors[0].relation,
        SelfRule::Gravity { dt_micros: 1000, gravity: 900 }
    );
    assert_eq!(m.selfconnectors[1].relation, SelfRule::Wind { horz: 123, vert: 0 });
}

#[test]
fn empty_cloth_has_nothing() {
    let m = Mesh::empty_cloth();
    assert_eq!(m.node_count(), 0);
    assert_eq!(m.interconnector_count(), 0);
    assert_eq!(m.selfconnectors.len(), 0);
}

#[test]
fn boundaries_counts_and_corners() {
    let m = Mesh::cloth_boundaries(3, 4, 10);
    let wp = 3usize; // width - 1
    let hp = 2usize; // height - 1
    let base = 2 * wp + 2 * hp;
    assert_eq!(m.node_count(), base + 4);
    assert_eq!(m.interconnector_count(), base + 4);
    assert_eq!(m.selfconnectors.len(), 3 * wp + 2 * hp + 4);
    // corners: top left and top right pinned, bottom corners free
    assert!(m.nodes[base].data.pinned);
    assert!(!m.nodes[base + 1].data.pinned);
    assert!(m.nodes[base + 2].data.pinned);
    assert!(!m.nodes[base + 3].data.pinned);
    let tl = m.node_position(base);
    let br = m.node_position(base + 1);
    let tr = m.node_position(base + 2);
    let bl = m.node_position(base + 3);
    assert_eq!((tl.x, tl.y), (0, 0));
    assert_eq!((br.x, br.y), (40_000_000, 30_000_000));
    assert_eq!((tr.x, tr.y), (40_000_000, 0));
    assert_eq!((bl.x, bl.y), (0, 30_000_000));
    // no unary constraint targets a pinned node
    for c in m.selfconnectors.iter() {
        assert!(!m.nodes[c.node].data.pinned);
    }
    // wind blows on the bottom edge and the bottom right corner only
    for c in m.selfconnectors.iter() {
        if c.name == "wind" {
            let p = m.node_position(c.node);
            assert_eq!(p.y, 30_000_000);
        }
    }
}

#[test]
fn interweave_counts_and_long_links() {
    let m = Mesh::cloth_interweave(3, 3, 10, 1200, 500);
    let wp = 2usize;
    let hp = 2usize;
    let base = 2 * wp + 2 * hp;
    assert_eq!(m.node_count(), base + 4);
    assert_eq!(m.interconnector_count(), 3 * wp + 3 * hp + 4);
    assert_eq!(m.selfconnectors.len(), 3 * wp + 2 * hp + 3);
    // each column's third link spans the full height
    for t in 0..wp {
        let (p, q) = m.interconnector_constraint(3 * t + 2, 0).unwrap();
        assert_eq!((p.y - q.y).abs(), 30_000_000);
        assert_eq!(p.x, q.x);
    }
    // each row's third link spans the full width
    for t in 0..hp {
        let (p, q) = m.interconnector_constraint(3 * wp + 2 + 3 * t + 2, 0).unwrap();
        assert_eq!((p.x - q.x).abs(), 30_000_000);
        assert_eq!(p.y, q.y);
    }
    // the top corners are pinned and unconstrained
    assert!(m.nodes[base].data.pinned);
    assert!(m.nodes[base + 2].data.pinned);
    for c in m.selfconnectors.iter() {
        assert!(c.node != base && c.node != base + 2);
    }
}

#[test]
fn name_based_removal_removes_all_matches() {
    let mut m = Mesh::empty_cloth();
    for i in 0..3 {
        m.add_node(Verlet::new(i * 1_000_000, 0));
    }
    let wind = SelfRule::Wind { horz: 500_000, vert: 0 };
    let grav = SelfRule::Gravity { dt_micros: 1000, gravity: 1200 };
    m.add_self_connector(SelfConnector::new("wind", 0, wind));
    m.add_self_connector(SelfConnector::new("anchor", 1, grav));
    m.add_self_connector(SelfConnector::new("wind", 1, wind));
    m.add_self_connector(SelfConnector::new("wind", 2, wind));
    m.add_self_connector(SelfConnector::new("breeze", 2, wind));
    m.remove_constraint_by_id("wind");
    assert_eq!(m.selfconnectors.len(), 2);
    assert_eq!(m.selfconnectors[0].name, "anchor");
    assert_eq!(m.selfconnectors[0].node, 1);
    assert_eq!(m.selfconnectors[1].name, "breeze");
    assert_eq!(m.selfconnectors[1].node, 2);
}

#[test]
fn removal_of_absent_name_is_noop() {
    let mut m = Mesh::empty_cloth();
    m.add_node(Verlet::new(0, 0));
    m.add_self_connector(SelfConnector::new(
        "gravity",
        0,
        SelfRule::Gravity { dt_micros: 1000, gravity: 1 },
    ));
    m.remove_constraint_by_id("wind");
    assert_eq!(m.selfconnectors.len(), 1);
}

#[test]
fn read_all_positions_keeps_insertion_order() {
    let mut m = Mesh::empty_cloth();
    let coords = [(5, 7), (-3, 2), (9, -4), (0, 0), (11, 11)];
    for (x, y) in coords.iter() {
        m.add_node(Verlet::new(*x, *y));
    }
    // connectors referencing nodes out of order do not disturb it
    let mut secs = Vec::new();
    secs.push(0);
    m.add_inter_connector(InterConnector::new(
        4,
        Some(secs),
        InterRule::Distance { spacing: 1, spring_milli: 1 },
    ));
    let ps = m.read_all_positions();
    assert_eq!(ps.len(), coords.len());
    for (i, (x, y)) in coords.iter().enumerate() {
        assert_eq!(ps[i].x, *x);
        assert_eq!(ps[i].y, *y);
    }
    // the order survives a simulation step
    let mut rng = StdRng::seed_from_u64(9);
    m.update(2, &mut rng);
    let ps = m.read_all_positions();
    assert_eq!(ps.len(), coords.len());
}

#[test]
fn add_node_returns_index() {
    let mut m = Mesh::empty_cloth();
    assert_eq!(m.add_node(Verlet::new(1, 1)), 0);
    assert_eq!(m.add_node(Verlet::new_pinned(2, 2)), 1);
    assert_eq!(m.node_count(), 2);
    assert!(m.nodes[1].data.pinned);
}

#[test]
fn grid_hangs_under_gravity() {
    // a small cloth pinned along row zero sags but stays attached
    let mut m = Mesh::new_cloth(3, 3, 10, 1200, 0, 500);
    let mut rng = StdRng::seed_from_u64(11);
    // the first step starts from rest: the pairwise sweeps are exact
    // no-ops and gravity moves every free node down by exactly 600
    m.update(3, &mut rng);
    for i in 3..9 {
        let p0 = if i < 6 { 10_000_000 } else { 20_000_000 };
        let p = m.node_position(i);
        assert_eq!(p.y, p0 + 600);
    }
    for _ in 0..49 {
        m.update(3, &mut rng);
    }
    // pinned row intact, free rows still hanging below it
    for i in 0..3 {
        assert_eq!(m.node_position(i).y, 0);
    }
    for i in 3..9 {
        assert!(m.node_position(i).y > 0);
    }
}

#[test]
fn well_formedness_check_reflects_the_mesh() {
    let mut m = Mesh::empty_cloth();
    assert!(m.is_wf());
    m.add_node(Verlet::new(0, 0));
    m.add_self_connector(SelfConnector::new(
        "gravity",
        0,
        SelfRule::Gravity { dt_micros: 1000, gravity: 10 },
    ));
    assert!(m.is_wf());
    // a unary constraint pointing outside the arena breaks the invariant
    m.add_self_connector(SelfConnector::new(
        "gravity",
        7,
        SelfRule::Gravity { dt_micros: 1000, gravity: 10 },
    ));
    assert!(!m.is_wf());
}

#[test]
fn constraint_lookup_out_of_range_is_none() {
    let m = Mesh::new_cloth(2, 2, 10, 1200, 0, 500);
    assert!(m.interconnector_constraint(0, 0).is_some());
    assert!(m.interconnector_constraint(0, 1).is_none());
    assert!(m.interconnector_constraint(99, 0).is_none());
}
