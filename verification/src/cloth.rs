//! Topology builders: pure functions that assemble a fully wired cloth
//! mesh for a given shape and parameter set.
//!
//! Node insertion order is part of each builder's contract: pairwise
//! constraints reference earlier nodes by their position in the node
//! list, so reordering the nodes would break the topology.

use vstd::prelude::*;

verus! {

use crate::nac::{InterConnector, Mesh, Node, SelfConnector, selfs_pin_safe};
use crate::num::{COORD_LIMIT, SCALE};
use crate::verlet::{InterRule, Point2, SelfRule, Verlet};

/// Is `c` a distance link from node `prim` to the single secondary
/// `sec`, with the given rest length and stiffness?
pub open spec fn single_link(
    c: InterConnector,
    prim: int,
    sec: int,
    spacing: i64,
    spring_milli: u16,
) -> bool {
    &&& c.node == prim
    &&& c.relation == (InterRule::Distance { spacing, spring_milli })
    &&& c.constraints matches Some(v) && v@.len() == 1 && v@[0] == sec
}

/// How many distance links the grid builder creates when it creates
/// node `k`: one to the left neighbor unless the node starts a row,
/// and one to the node directly above unless it is in row zero.
pub open spec fn grid_node_links(k: int, width: int) -> int {
    (if k % width != 0 {
        1int
    } else {
        0int
    }) + (if k >= width {
        1int
    } else {
        0int
    })
}

/// How many distance links the grid builder has created before it
/// creates node `k`.
pub open spec fn grid_links_before(k: int, width: int) -> int
    decreases k,
{
    if k <= 0 {
        0
    } else {
        grid_links_before(k - 1, width) + grid_node_links(k - 1, width)
    }
}

/// The state of grid node `k` (row `k / width`, column `k % width`):
/// its lattice position, row zero pinned and at rest, every other node
/// free with its previous position equal to its position.
pub open spec fn grid_node_ok(n: Node<Verlet>, k: int, width: int, spacing: int) -> bool {
    &&& n.data.position.x == (k % width) * spacing * (SCALE as int)
    &&& n.data.position.y == (k / width) * spacing * (SCALE as int)
    &&& n.data.pinned == (k / width == 0)
    &&& n.data.delta_position == (if k / width == 0 {
        Point2 { x: 0, y: 0 }
    } else {
        n.data.position
    })
}

/// The complete description of a (possibly partially built) grid cloth:
/// node `k` sits at its lattice point; every node outside row zero
/// carries a gravity and a wind constraint, in insertion order; node
/// `k` is linked to its left neighbor and to the node above it.
pub open spec fn grid_mesh_ok(
    nodes: Seq<Node<Verlet>>,
    ics: Seq<InterConnector>,
    scs: Seq<SelfConnector>,
    width: int,
    spacing: int,
    gravity: i16,
    wind: i64,
    spring_milli: u16,
) -> bool {
    &&& scs.len() == (if nodes.len() <= width {
        0int
    } else {
        2 * (nodes.len() - width)
    })
    &&& ics.len() == grid_links_before(nodes.len() as int, width)
    &&& (forall|k: int|
        0 <= k < nodes.len() ==> grid_node_ok(#[trigger] nodes[k], k, width, spacing))
    &&& (forall|k: int|
        0 <= k < scs.len() ==> {
            &&& (#[trigger] scs[k]).node == width + k / 2
            &&& scs[k].name@ == (if k % 2 == 0 {
                "gravity"@
            } else {
                "wind"@
            })
            &&& scs[k].relation == (if k % 2 == 0 {
                SelfRule::Gravity { dt_micros: 1000, gravity }
            } else {
                SelfRule::Wind { horz: wind, vert: 0 }
            })
        })
    &&& (forall|k: int|
        0 <= k < nodes.len() && k % width != 0 ==> single_link(
            #[trigger] ics[grid_links_before(k, width)],
            k,
            k - 1,
            (spacing * (SCALE as int)) as i64,
            spring_milli,
        ))
    &&& (forall|k: int|
        0 <= k < nodes.len() && k >= width ==> single_link(
            #[trigger] ics[grid_links_before(k, width) + grid_node_links(k, width) - 1],
            k,
            k - width,
            (spacing * (SCALE as int)) as i64,
            spring_milli,
        ))
}


/// Link counts grow with the node index: the links of node `q` sit
/// strictly before the links created for any later node.
pub proof fn lemma_grid_links_mono(q: int, k: int, width: int)
    requires
        0 <= q < k,
    ensures
        grid_links_before(q, width) >= 0,
        grid_links_before(q, width) + grid_node_links(q, width) <= grid_links_before(k, width),
    decreases k,
{
    if q + 1 == k {
        lemma_grid_links_nonneg(q, width);
    } else {
        lemma_grid_links_mono(q, k - 1, width);
    }
}

/// Link counts are never negative.
pub proof fn lemma_grid_links_nonneg(k: int, width: int)
    ensures
        grid_links_before(k, width) >= 0,
    decreases k,
{
    if k > 0 {
        lemma_grid_links_nonneg(k - 1, width);
    }
}

impl Mesh {
    /// An empty mesh: no nodes and no constraints.
    pub fn empty_cloth() -> (m: Mesh)
        ensures
            m.nodes@ == Seq::<Node<Verlet>>::empty(),
            m.interconnectors@ == Seq::<InterConnector>::empty(),
            m.selfconnectors@ == Seq::<SelfConnector>::empty(),
            m.wf(),
            m.pin_safe(),
    {
        Mesh::new(Vec::new(), Vec::new(), Vec::new())
    }

    /// A dense `height x width` grid cloth. Row zero is pinned with no
    /// unary constraints; every other node gets gravity and wind; each
    /// node is linked to its left neighbor and to the node directly
    /// above it, with rest length equal to the lattice spacing. No
    /// unary constraint ever targets a pinned node.
    pub fn new_cloth(
        height: u8,
        width: u8,
        spacing: u8,
        gravity: i16,
        wind: i64,
        spring_milli: u16,
    ) -> (m: Mesh)
        requires
            0 < spring_milli <= 1000,
        ensures
            m.nodes@.len() == (height as int) * (width as int),
            grid_mesh_ok(
                m.nodes@,
                m.interconnectors@,
                m.selfconnectors@,
                width as int,
                spacing as int,
                gravity,
                wind,
                spring_milli,
            ),
            m.wf(),
            m.pin_safe(),
    {
        let mut nodes: Vec<Node<Verlet>> = Vec::new();
        let mut interconnectors: Vec<InterConnector> = Vec::new();
        let mut selfconnectors: Vec<SelfConnector> = Vec::new();
        let rest: i64 = (spacing as i64) * SCALE;
        let w = width as usize;
        let gravity_rule = SelfRule::Gravity { dt_micros: 1000, gravity };
        let wind_rule = SelfRule::Wind { horz: wind, vert: 0 };
        let pair_rule = InterRule::Distance { spacing: rest, spring_milli };
        proof {
            assert(rest == (spacing as int) * (SCALE as int)) by (nonlinear_arith)
                requires
                    rest == (spacing as i64) * SCALE,
                    SCALE == 1_000_000i64,
                    spacing <= 255,
            ;
        }
        let mut y: u8 = 0;
        while y < height
            invariant
                y <= height,
                w == width as int,
                rest == (spacing as int) * (SCALE as int),
                0 <= rest,
                0 < spring_milli <= 1000,
                gravity_rule == (SelfRule::Gravity { dt_micros: 1000, gravity }),
                wind_rule == (SelfRule::Wind { horz: wind, vert: 0 }),
                pair_rule == (InterRule::Distance { spacing: rest, spring_milli }),
                nodes@.len() == (y as int) * (width as int),
                nodes@.len() <= 0x10000,
                crate::nac::nodes_valid(nodes@),
                crate::nac::inters_wf(interconnectors@, nodes@.len() as int),
                crate::nac::selfs_wf(selfconnectors@, nodes@.len() as int),
                selfs_pin_safe(nodes@, selfconnectors@),
                grid_mesh_ok(
                    nodes@,
                    interconnectors@,
                    selfconnectors@,
                    width as int,
                    spacing as int,
                    gravity,
                    wind,
                    spring_milli,
                ),
            decreases height as int - y as int,
        {
            let mut x: u8 = 0;
            proof {
                assert((y as int) * (width as int) + (width as int) == ((y as int) + 1) * (
                width as int)) by (nonlinear_arith);
                assert((y as int) * (width as int) <= 255 * 255) by (nonlinear_arith)
                    requires
                        y <= 255,
                        width <= 255,
                ;
            }
            while x < width
                invariant
                    x <= width,
                    y < height,
                    w == width as int,
                    rest == (spacing as int) * (SCALE as int),
                    0 <= rest,
                    0 < spring_milli <= 1000,
                    gravity_rule == (SelfRule::Gravity { dt_micros: 1000, gravity }),
                    wind_rule == (SelfRule::Wind { horz: wind, vert: 0 }),
                    pair_rule == (InterRule::Distance { spacing: rest, spring_milli }),
                    nodes@.len() == (y as int) * (width as int) + (x as int),
                    (y as int) * (width as int) + (width as int) == ((y as int) + 1) * (
                    width as int),
                    (y as int) * (width as int) <= 255 * 255,
                    crate::nac::nodes_valid(nodes@),
                    crate::nac::inters_wf(interconnectors@, nodes@.len() as int),
                    crate::nac::selfs_wf(selfconnectors@, nodes@.len() as int),
                    selfs_pin_safe(nodes@, selfconnectors@),
                    grid_mesh_ok(
                        nodes@,
                        interconnectors@,
                        selfconnectors@,
                        width as int,
                        spacing as int,
                        gravity,
                        wind,
                        spring_milli,
                    ),
                decreases width as int - x as int,
            {
                let ghost k = nodes@.len() as int;
                let ghost ics0 = interconnectors@;
                let ghost scs0 = selfconnectors@;
                proof {
                    assert(0 <= (x as int) * (spacing as int) <= 255 * 255) by (nonlinear_arith)
                        requires
                            x <= 255,
                            spacing <= 255,
                    ;
                    assert(0 <= (y as int) * (spacing as int) <= 255 * 255) by (nonlinear_arith)
                        requires
                            y <= 255,
                            spacing <= 255,
                    ;
                }
                let xs: i64 = (x as i64) * (spacing as i64);
                let ys: i64 = (y as i64) * (spacing as i64);
                let px: i64 = xs * SCALE;
                let py: i64 = ys * SCALE;
                proof {
                    assert(px == (x as int) * (spacing as int) * (SCALE as int) && py == (
                    y as int) * (spacing as int) * (SCALE as int)) by (nonlinear_arith)
                        requires
                            xs == (x as int) * (spacing as int),
                            ys == (y as int) * (spacing as int),
                            px == xs * (SCALE as int),
                            py == ys * (SCALE as int),
                    ;
                    // the new node's row and column
                    vstd::arithmetic::div_mod::lemma_fundamental_div_mod_converse(
                        k,
                        width as int,
                        y as int,
                        x as int,
                    );
                }
                let p: Node<Verlet>;
                if y == 0 {
                    p = Node::new(Verlet::new_pinned(px, py));
                } else {
                    p = Node::new(Verlet::new(px, py));
                    let sc = SelfConnector::new("gravity", nodes.len(), gravity_rule);
                    selfconnectors.push(sc);
                    let sc = SelfConnector::new("wind", nodes.len(), wind_rule);
                    selfconnectors.push(sc);
                    proof {
                        assert((k - width as int) >= 0) by (nonlinear_arith)
                            requires
                                k == (y as int) * (width as int) + (x as int),
                                y >= 1,
                                x >= 0,
                        ;
                        assert(selfconnectors@.len() == 2 * (k + 1 - width as int));
                        assert((width as int) + (2 * (k - width as int)) / 2 == k);
                        assert((width as int) + (2 * (k - width as int) + 1) / 2 == k);
                    }
                }
                proof {
                    assert(grid_links_before(k + 1, width as int) == grid_links_before(
                        k,
                        width as int,
                    ) + grid_node_links(k, width as int));
                }
                if x != 0 {
                    let mut secs: Vec<usize> = Vec::new();
                    secs.push(nodes.len() - 1);
                    let ic = InterConnector::new(nodes.len(), Some(secs), pair_rule);
                    interconnectors.push(ic);
                    proof {
                        assert(k % (width as int) == x as int);
                    }
                }
                if y != 0 {
                    let mut secs: Vec<usize> = Vec::new();
                    proof {
                        assert(k >= width as int) by (nonlinear_arith)
                            requires
                                k == (y as int) * (width as int) + (x as int),
                                y >= 1,
                                x >= 0,
                        ;
                    }
                    secs.push(nodes.len() - w);
                    let ic = InterConnector::new(nodes.len(), Some(secs), pair_rule);
                    interconnectors.push(ic);
                }
                nodes.push(p);
                proof {
                    assert forall|i: int|
                        0 <= i < interconnectors@.len() implies (#[trigger] interconnectors@[i]).wf(
                        nodes@.len() as int,
                    ) by {
                        if i < ics0.len() {
                            assert(interconnectors@[i] == ics0[i]);
                            assert(ics0[i].wf(k));
                            crate::nac::lemma_inter_wf_mono(&ics0[i], k, nodes@.len() as int);
                        }
                    }
                    assert forall|i: int|
                        0 <= i < selfconnectors@.len() implies (#[trigger] selfconnectors@[i]).wf(
                        nodes@.len() as int,
                    ) by {
                        if i < scs0.len() {
                            assert(selfconnectors@[i] == scs0[i]);
                            assert(scs0[i].wf(k));
                        }
                    }
                }
                proof {
                    let wi = width as int;
                    let sp = spacing as int;
                    assert(selfconnectors@.len() == (if nodes@.len() <= wi {
                        0int
                    } else {
                        2 * (nodes@.len() - wi)
                    }));
                    assert(interconnectors@.len() == grid_links_before(nodes@.len() as int, wi));
                    assert(forall|q: int|
                        0 <= q < nodes@.len() ==> grid_node_ok(#[trigger] nodes@[q], q, wi, sp));
                    assert(forall|q: int|
                        0 <= q < selfconnectors@.len() ==> (#[trigger] selfconnectors@[q]).node
                            == wi + q / 2);
                    assert(forall|q: int|
                        0 <= q < selfconnectors@.len() ==> (#[trigger] selfconnectors@[q]).name@
                            == (if q % 2 == 0 {
                            "gravity"@
                        } else {
                            "wind"@
                        }));
                    assert forall|q: int|
                        0 <= q < nodes@.len() && q % wi != 0 implies single_link(
                        #[trigger] interconnectors@[grid_links_before(q, wi)],
                        q,
                        q - 1,
                        (sp * (SCALE as int)) as i64,
                        spring_milli,
                    ) by {
                        if q < k {
                            lemma_grid_links_mono(q, k, wi);
                            assert(interconnectors@[grid_links_before(q, wi)] == ics0[
                            grid_links_before(q, wi)]);
                            assert(single_link(
                                ics0[grid_links_before(q, wi)],
                                q,
                                q - 1,
                                (sp * (SCALE as int)) as i64,
                                spring_milli,
                            ));
                        } else {
                            lemma_grid_links_nonneg(k, wi);
                        }
                    }
                    assert forall|q: int|
                        0 <= q < nodes@.len() && q >= wi implies single_link(
                        #[trigger] interconnectors@[grid_links_before(q, wi) + grid_node_links(
                            q,
                            wi,
                        ) - 1],
                        q,
                        q - wi,
                        (sp * (SCALE as int)) as i64,
                        spring_milli,
                    ) by {
                        if q < k {
                            lemma_grid_links_mono(q, k, wi);
                            assert(interconnectors@[grid_links_before(q, wi) + grid_node_links(
                                q,
                                wi,
                            ) - 1] == ics0[grid_links_before(q, wi) + grid_node_links(q, wi) - 1]);
                            assert(single_link(
                                ics0[grid_links_before(q, wi) + grid_node_links(q, wi) - 1],
                                q,
                                q - wi,
                                (sp * (SCALE as int)) as i64,
                                spring_milli,
                            ));
                        } else {
                            lemma_grid_links_nonneg(k, wi);
                        }
                    }
                }
                x = x + 1;
            }
            y = y + 1;
        }
        proof {
            assert(nodes@.len() == (height as int) * (width as int));
        }
        Mesh::new(nodes, interconnectors, selfconnectors)
    }
}


/// A free node resting at `(x, y)`.
pub open spec fn free_node_at(x: int, y: int) -> Node<Verlet> {
    Node {
        data: Verlet {
            position: Point2 { x: x as i64, y: y as i64 },
            delta_position: Point2 { x: x as i64, y: y as i64 },
            pinned: false,
        },
    }
}

/// A pinned node at `(x, y)`.
pub open spec fn pinned_node_at(x: int, y: int) -> Node<Verlet> {
    Node {
        data: Verlet {
            position: Point2 { x: x as i64, y: y as i64 },
            delta_position: Point2 { x: 0, y: 0 },
            pinned: true,
        },
    }
}

/// Is `c` a unary constraint with the given name, node and rule?
pub open spec fn named_self_ok(c: SelfConnector, nm: Seq<char>, node: int, rule: SelfRule) -> bool {
    c.name@ == nm && c.node == node && c.relation == rule
}

/// A vector holding one node index.
fn single_index(i: usize) -> (v: Vec<usize>)
    ensures
        v@.len() == 1,
        v@[0] == i,
{
    let mut v: Vec<usize> = Vec::new();
    v.push(i);
    v
}

/// The free nodes of one edge of the perimeter: node `t` sits at
/// coordinate `(t + 1) * spacing` along the edge and at `fixed` across
/// it; a `limit` of `w` yields `w - 1` nodes.
fn edge_nodes(limit: u8, spacing: u8, horizontal: bool, fixed: i64) -> (v: Vec<Node<Verlet>>)
    requires
        -COORD_LIMIT <= fixed <= COORD_LIMIT,
    ensures
        v@.len() == (if limit == 0 {
            0int
        } else {
            limit - 1
        }),
        forall|t: int|
            0 <= t < v@.len() ==> (#[trigger] v@[t]) == (if horizontal {
                free_node_at((t + 1) * (spacing as int) * (SCALE as int), fixed as int)
            } else {
                free_node_at(fixed as int, (t + 1) * (spacing as int) * (SCALE as int))
            }),
        crate::nac::nodes_valid(v@),
{
    let mut v: Vec<Node<Verlet>> = Vec::new();
    let mut x: u8 = 1;
    while x < limit
        invariant
            1 <= x <= 255,
            limit > 0 ==> x <= limit,
            limit == 0 ==> x == 1,
            -COORD_LIMIT <= fixed <= COORD_LIMIT,
            v@.len() == x - 1,
            forall|t: int|
                0 <= t < v@.len() ==> (#[trigger] v@[t]) == (if horizontal {
                    free_node_at((t + 1) * (spacing as int) * (SCALE as int), fixed as int)
                } else {
                    free_node_at(fixed as int, (t + 1) * (spacing as int) * (SCALE as int))
                }),
            crate::nac::nodes_valid(v@),
        decreases limit as int - x as int,
    {
        proof {
            assert(0 <= (x as int) * (spacing as int) <= 255 * 255) by (nonlinear_arith)
                requires
                    x <= 255,
                    spacing <= 255,
            ;
        }
        let along: i64 = ((x as i64) * (spacing as i64)) * SCALE;
        let n = if horizontal {
            Node::new(Verlet::new(along, fixed))
        } else {
            Node::new(Verlet::new(fixed, along))
        };
        v.push(n);
        x = x + 1;
    }
    v
}

/// A chain of distance links along one edge: link `t` binds node
/// `start + t` to its predecessor, the first one to `first_sec`
/// (a corner); a `limit` of `w` yields `w - 1` links.
fn chain_links(
    limit: u8,
    start: usize,
    first_sec: usize,
    spacing: i64,
    spring_milli: u16,
    arena: usize,
) -> (v: Vec<InterConnector>)
    requires
        0 <= spacing,
        0 < spring_milli <= 1000,
        first_sec < arena,
        start + (limit as int) <= arena + 1,
    ensures
        v@.len() == (if limit == 0 {
            0int
        } else {
            limit - 1
        }),
        forall|t: int|
            0 <= t < v@.len() ==> single_link(
                #[trigger] v@[t],
                start + t,
                if t == 0 {
                    first_sec as int
                } else {
                    start + t - 1
                },
                spacing,
                spring_milli,
            ),
        crate::nac::inters_wf(v@, arena as int),
{
    let rule = InterRule::Distance { spacing, spring_milli };
    let mut v: Vec<InterConnector> = Vec::new();
    let mut x: u8 = 1;
    while x < limit
        invariant
            1 <= x <= 255,
            limit > 0 ==> x <= limit,
            limit == 0 ==> x == 1,
            first_sec < arena,
            start + (limit as int) <= arena + 1,
            rule == (InterRule::Distance { spacing, spring_milli }),
            0 <= spacing,
            0 < spring_milli <= 1000,
            v@.len() == x - 1,
            forall|t: int|
                0 <= t < v@.len() ==> single_link(
                    #[trigger] v@[t],
                    start + t,
                    if t == 0 {
                        first_sec as int
                    } else {
                        start + t - 1
                    },
                    spacing,
                    spring_milli,
                ),
            crate::nac::inters_wf(v@, arena as int),
        decreases limit as int - x as int,
    {
        let sec: usize = if x == 1 {
            first_sec
        } else {
            start + (x as usize) - 2
        };
        let c = InterConnector::new(start + (x as usize) - 1, Some(single_index(sec)), rule);
        v.push(c);
        x = x + 1;
    }
    v
}

/// A run of identically named unary constraints on consecutive nodes:
/// constraint `t` targets node `start + t`; a `limit` of `w` yields
/// `w - 1` constraints.
fn named_selfs(limit: u8, start: usize, name: &str, rule: SelfRule, arena: usize) -> (v: Vec<
    SelfConnector,
>)
    requires
        start + (limit as int) <= arena + 1,
        crate::verlet::self_rule_wf(rule),
    ensures
        v@.len() == (if limit == 0 {
            0int
        } else {
            limit - 1
        }),
        forall|t: int|
            0 <= t < v@.len() ==> named_self_ok(#[trigger] v@[t], name@, start + t, rule),
        crate::nac::selfs_wf(v@, arena as int),
{
    let mut v: Vec<SelfConnector> = Vec::new();
    let mut x: u8 = 1;
    while x < limit
        invariant
            1 <= x <= 255,
            limit > 0 ==> x <= limit,
            limit == 0 ==> x == 1,
            start + (limit as int) <= arena + 1,
            crate::verlet::self_rule_wf(rule),
            v@.len() == x - 1,
            forall|t: int|
                0 <= t < v@.len() ==> named_self_ok(#[trigger] v@[t], name@, start + t, rule),
            crate::nac::selfs_wf(v@, arena as int),
        decreases limit as int - x as int,
    {
        let c = SelfConnector::new(name, start + (x as usize) - 1, rule);
        v.push(c);
        x = x + 1;
    }
    v
}

/// A run of gravity-and-wind pairs on consecutive nodes: constraints
/// `2t` and `2t + 1` target node `start + t`; a `limit` of `w` yields
/// `2 * (w - 1)` constraints.
fn grav_wind_selfs(limit: u8, start: usize, g_rule: SelfRule, w_rule: SelfRule, arena: usize) -> (v:
    Vec<SelfConnector>)
    requires
        start + (limit as int) <= arena + 1,
        crate::verlet::self_rule_wf(g_rule),
        crate::verlet::self_rule_wf(w_rule),
    ensures
        v@.len() == (if limit == 0 {
            0int
        } else {
            2 * ((limit as int) - 1)
        }),
        forall|q: int|
            0 <= q < v@.len() ==> named_self_ok(
                #[trigger] v@[q],
                if q % 2 == 0 {
                    "gravity"@
                } else {
                    "wind"@
                },
                start + q / 2,
                if q % 2 == 0 {
                    g_rule
                } else {
                    w_rule
                },
            ),
        crate::nac::selfs_wf(v@, arena as int),
{
    let mut v: Vec<SelfConnector> = Vec::new();
    let mut x: u8 = 1;
    while x < limit
        invariant
            1 <= x <= 255,
            limit > 0 ==> x <= limit,
            limit == 0 ==> x == 1,
            start + (limit as int) <= arena + 1,
            crate::verlet::self_rule_wf(g_rule),
            crate::verlet::self_rule_wf(w_rule),
            v@.len() == 2 * ((x as int) - 1),
            forall|q: int|
                0 <= q < v@.len() ==> named_self_ok(
                    #[trigger] v@[q],
                    if q % 2 == 0 {
                        "gravity"@
                    } else {
                        "wind"@
                    },
                    start + q / 2,
                    if q % 2 == 0 {
                        g_rule
                    } else {
                        w_rule
                    },
                ),
            crate::nac::selfs_wf(v@, arena as int),
        decreases limit as int - x as int,
    {
        let node = start + (x as usize) - 1;
        let c = SelfConnector::new("gravity", node, g_rule);
        v.push(c);
        let c = SelfConnector::new("wind", node, w_rule);
        v.push(c);
        proof {
            let n = v@.len();
            assert((start as int) + (n - 2) / 2 == node);
            assert((start as int) + (n - 1) / 2 == node);
        }
        x = x + 1;
    }
    v
}


/// The gravity rule the boundary-frame builder attaches.
pub open spec fn frame_gravity() -> SelfRule {
    SelfRule::Gravity { dt_micros: 1600, gravity: 1200 }
}

/// The wind rule the boundary-frame builder attaches: a horizontal
/// gust of three world units, pointing left.
pub open spec fn frame_wind() -> SelfRule {
    SelfRule::Wind { horz: -3_000_000i64, vert: 0 }
}

/// The nodes of the boundary frame, in insertion order: the interior
/// top edge, the interior bottom edge, the interior left edge, the
/// interior right edge, then the four corners (top left and top right
/// pinned, the bottom corners free).
pub open spec fn frame_nodes_ok(
    nodes: Seq<Node<Verlet>>,
    width: int,
    height: int,
    spacing: int,
) -> bool {
    let wp = width - 1;
    let hp = height - 1;
    let base = 2 * wp + 2 * hp;
    let u = SCALE as int;
    &&& nodes.len() == base + 4
    &&& (forall|q: int|
        0 <= q < wp ==> (#[trigger] nodes[q]) == free_node_at((q + 1) * spacing * u, 0))
    &&& (forall|q: int|
        wp <= q < 2 * wp ==> (#[trigger] nodes[q]) == free_node_at(
            (q - wp + 1) * spacing * u,
            height * spacing * u,
        ))
    &&& (forall|q: int|
        2 * wp <= q < 2 * wp + hp ==> (#[trigger] nodes[q]) == free_node_at(
            0,
            (q - 2 * wp + 1) * spacing * u,
        ))
    &&& (forall|q: int|
        2 * wp + hp <= q < base ==> (#[trigger] nodes[q]) == free_node_at(
            width * spacing * u,
            (q - 2 * wp - hp + 1) * spacing * u,
        ))
    &&& nodes[base] == pinned_node_at(0, 0)
    &&& nodes[base + 1] == free_node_at(width * spacing * u, height * spacing * u)
    &&& nodes[base + 2] == pinned_node_at(width * spacing * u, 0)
    &&& nodes[base + 3] == free_node_at(0, height * spacing * u)
}

/// The distance links of the boundary frame, in insertion order: each
/// edge chained inward from its first corner, then the edge's second
/// corner linked to the edge's last interior node.
pub open spec fn frame_links_ok(
    ics: Seq<InterConnector>,
    width: int,
    height: int,
    spacing: int,
) -> bool {
    let wp = width - 1;
    let hp = height - 1;
    let base = 2 * wp + 2 * hp;
    let rest = (spacing * (SCALE as int)) as i64;
    &&& ics.len() == base + 4
    &&& (forall|q: int|
        0 <= q < wp ==> single_link(
            #[trigger] ics[q],
            q,
            if q == 0 {
                base
            } else {
                q - 1
            },
            rest,
            500,
        ))
    &&& single_link(ics[wp], base + 2, wp - 1, rest, 500)
    &&& (forall|q: int|
        wp + 1 <= q < 2 * wp + 1 ==> single_link(
            #[trigger] ics[q],
            q - 1,
            if q == wp + 1 {
                base + 3
            } else {
                q - 2
            },
            rest,
            500,
        ))
    &&& single_link(ics[2 * wp + 1], base + 1, 2 * wp - 1, rest, 500)
    &&& (forall|q: int|
        2 * wp + 2 <= q < 2 * wp + 2 + hp ==> single_link(
            #[trigger] ics[q],
            q - 2,
            if q == 2 * wp + 2 {
                base
            } else {
                q - 3
            },
            rest,
            500,
        ))
    &&& single_link(ics[2 * wp + 2 + hp], base + 3, 2 * wp + hp - 1, rest, 500)
    &&& (forall|q: int|
        2 * wp + 3 + hp <= q < 2 * wp + 3 + 2 * hp ==> single_link(
            #[trigger] ics[q],
            q - 3,
            if q == 2 * wp + 3 + hp {
                base + 2
            } else {
                q - 4
            },
            rest,
            500,
        ))
    &&& single_link(ics[2 * wp + 3 + 2 * hp], base + 1, base - 1, rest, 500)
}

/// The unary constraints of the boundary frame, in insertion order:
/// gravity along the top edge; gravity and wind along the bottom edge
/// and on the bottom right corner; gravity along the left edge, the
/// bottom left corner, the right edge, and once more on the bottom
/// right corner. The two pinned top corners carry no constraint.
pub open spec fn frame_selfs_ok(scs: Seq<SelfConnector>, width: int, height: int) -> bool {
    let wp = width - 1;
    let hp = height - 1;
    let base = 2 * wp + 2 * hp;
    &&& scs.len() == 3 * wp + 2 * hp + 4
    &&& (forall|q: int|
        0 <= q < wp ==> named_self_ok(#[trigger] scs[q], "gravity"@, q, frame_gravity()))
    &&& (forall|q: int|
        wp <= q < 3 * wp ==> named_self_ok(
            #[trigger] scs[q],
            if (q - wp) % 2 == 0 {
                "gravity"@
            } else {
                "wind"@
            },
            wp + (q - wp) / 2,
            if (q - wp) % 2 == 0 {
                frame_gravity()
            } else {
                frame_wind()
            },
        ))
    &&& named_self_ok(scs[3 * wp], "gravity"@, base + 1, frame_gravity())
    &&& named_self_ok(scs[3 * wp + 1], "wind"@, base + 1, frame_wind())
    &&& (forall|q: int|
        3 * wp + 2 <= q < 3 * wp + 2 + hp ==> named_self_ok(
            #[trigger] scs[q],
            "gravity"@,
            2 * wp + q - (3 * wp + 2),
            frame_gravity(),
        ))
    &&& named_self_ok(scs[3 * wp + 2 + hp], "gravity"@, base + 3, frame_gravity())
    &&& (forall|q: int|
        3 * wp + 3 + hp <= q < 3 * wp + 3 + 2 * hp ==> named_self_ok(
            #[trigger] scs[q],
            "gravity"@,
            2 * wp + hp + q - (3 * wp + 3 + hp),
            frame_gravity(),
        ))
    &&& named_self_ok(scs[3 * wp + 3 + 2 * hp], "gravity"@, base + 1, frame_gravity())
}

impl Mesh {
    /// The boundary frame: only the perimeter of the rectangle is
    /// populated. The two top corners are pinned; every other node
    /// carries gravity, the bottom edge and the bottom right corner
    /// also wind; each edge is chained to its corners by distance
    /// links with rest length equal to the spacing.
    #[verifier::rlimit(100)]
    #[verifier::spinoff_prover]
    pub fn cloth_boundaries(height: u8, width: u8, spacing: u8) -> (m: Mesh)
        requires
            width >= 2,
            height >= 2,
        ensures
            frame_nodes_ok(m.nodes@, width as int, height as int, spacing as int),
            frame_links_ok(m.interconnectors@, width as int, height as int, spacing as int),
            frame_selfs_ok(m.selfconnectors@, width as int, height as int),
            m.wf(),
            m.pin_safe(),
    {
        let u: i64 = (spacing as i64) * SCALE;
        let wp: usize = (width - 1) as usize;
        let hp: usize = (height - 1) as usize;
        let base: usize = 2 * wp + 2 * hp;
        let arena: usize = base + 4;
        proof {
            assert(u == (spacing as int) * (SCALE as int) && 0 <= u <= 255 * 1_000_000) by (
            nonlinear_arith)
                requires
                    u == (spacing as i64) * SCALE,
                    SCALE == 1_000_000i64,
                    spacing <= 255,
            ;
            assert((width as int) * ((spacing as int) * (SCALE as int)) == (width as int) * (
            spacing as int) * (SCALE as int) && 0 <= (width as int) * (spacing as int) * (
            SCALE as int) <= 255 * 255 * 1_000_000) by (nonlinear_arith)
                requires
                    width <= 255,
                    spacing <= 255,
            ;
            assert((height as int) * ((spacing as int) * (SCALE as int)) == (height as int) * (
            spacing as int) * (SCALE as int) && 0 <= (height as int) * (spacing as int) * (
            SCALE as int) <= 255 * 255 * 1_000_000) by (nonlinear_arith)
                requires
                    height <= 255,
                    spacing <= 255,
            ;
        }
        let wx: i64 = (width as i64) * u;
        let hy: i64 = (height as i64) * u;
        let g_rule = SelfRule::Gravity { dt_micros: 1600, gravity: 1200 };
        let w_rule = SelfRule::Wind { horz: -3_000_000, vert: 0 };
        let pair_rule = InterRule::Distance { spacing: u, spring_milli: 500 };

        let mut nodes = edge_nodes(width, spacing, true, 0);
        let ghost topv = nodes@;
        let mut seg_n = edge_nodes(width, spacing, true, hy);
        let ghost botv = seg_n@;
        nodes.append(&mut seg_n);
        let mut seg_n = edge_nodes(height, spacing, false, 0);
        let ghost leftv = seg_n@;
        nodes.append(&mut seg_n);
        let mut seg_n = edge_nodes(height, spacing, false, wx);
        let ghost rightv = seg_n@;
        nodes.append(&mut seg_n);
        nodes.push(Node::new(Verlet::new_pinned(0, 0)));
        nodes.push(Node::new(Verlet::new(wx, hy)));
        nodes.push(Node::new(Verlet::new_pinned(wx, 0)));
        nodes.push(Node::new(Verlet::new(0, hy)));

        let mut ics = chain_links(width, 0, base, u, 500, arena);
        let ghost c1 = ics@;
        ics.push(InterConnector::new(base + 2, Some(single_index(wp - 1)), pair_rule));
        let mut seg_i = chain_links(width, wp, base + 3, u, 500, arena);
        let ghost c2 = seg_i@;
        ics.append(&mut seg_i);
        ics.push(InterConnector::new(base + 1, Some(single_index(2 * wp - 1)), pair_rule));
        let mut seg_i = chain_links(height, 2 * wp, base, u, 500, arena);
        let ghost c3 = seg_i@;
        ics.append(&mut seg_i);
        ics.push(InterConnector::new(base + 3, Some(single_index(2 * wp + hp - 1)), pair_rule));
        let mut seg_i = chain_links(height, 2 * wp + hp, base + 2, u, 500, arena);
        let ghost c4 = seg_i@;
        ics.append(&mut seg_i);
        ics.push(InterConnector::new(base + 1, Some(single_index(base - 1)), pair_rule));

        let mut scs = named_selfs(width, 0, "gravity", g_rule, arena);
        let ghost s1 = scs@;
        let mut seg_s = grav_wind_selfs(width, wp, g_rule, w_rule, arena);
        let ghost s2 = seg_s@;
        scs.append(&mut seg_s);
        scs.push(SelfConnector::new("gravity", base + 1, g_rule));
        scs.push(SelfConnector::new("wind", base + 1, w_rule));
        let mut seg_s = named_selfs(height, 2 * wp, "gravity", g_rule, arena);
        let ghost s3 = seg_s@;
        scs.append(&mut seg_s);
        scs.push(SelfConnector::new("gravity", base + 3, g_rule));
        let mut seg_s = named_selfs(height, 2 * wp + hp, "gravity", g_rule, arena);
        let ghost s4 = seg_s@;
        scs.append(&mut seg_s);
        scs.push(SelfConnector::new("gravity", base + 1, g_rule));

        proof {
            let wi = width as int;
            let hi = height as int;
            let sp = spacing as int;
            let sc = SCALE as int;
            let wpi = wi - 1;
            let hpi = hi - 1;
            let basei = 2 * wpi + 2 * hpi;
            assert(nodes@.len() == basei + 4);
            assert(ics@.len() == basei + 4);
            assert(scs@.len() == 3 * wpi + 2 * hpi + 4);

            // nodes, segment by segment
            assert forall|q: int| 0 <= q < wpi implies (#[trigger] nodes@[q]) == free_node_at(
                (q + 1) * sp * sc,
                0,
            ) by {
                assert(nodes@[q] == topv[q]);
            }
            assert forall|q: int| wpi <= q < 2 * wpi implies (#[trigger] nodes@[q])
                == free_node_at((q - wpi + 1) * sp * sc, hi * sp * sc) by {
                assert(nodes@[q] == botv[q - wpi]);
            }
            assert forall|q: int| 2 * wpi <= q < 2 * wpi + hpi implies (#[trigger] nodes@[q])
                == free_node_at(0, (q - 2 * wpi + 1) * sp * sc) by {
                assert(nodes@[q] == leftv[q - 2 * wpi]);
            }
            assert forall|q: int| 2 * wpi + hpi <= q < basei implies (#[trigger] nodes@[q])
                == free_node_at(wi * sp * sc, (q - 2 * wpi - hpi + 1) * sp * sc) by {
                assert(nodes@[q] == rightv[q - 2 * wpi - hpi]);
            }
            assert(nodes@[basei] == pinned_node_at(0, 0));
            assert(nodes@[basei + 1] == free_node_at(wi * sp * sc, hi * sp * sc));
            assert(nodes@[basei + 2] == pinned_node_at(wi * sp * sc, 0));
            assert(nodes@[basei + 3] == free_node_at(0, hi * sp * sc));

            // links, segment by segment
            let rest = (sp * sc) as i64;
            assert(rest == u);
            assert forall|q: int| 0 <= q < wpi implies single_link(
                #[trigger] ics@[q],
                q,
                if q == 0 {
                    basei
                } else {
                    q - 1
                },
                rest,
                500,
            ) by {
                assert(ics@[q] == c1[q]);
            }
            assert(single_link(ics@[wpi], basei + 2, wpi - 1, rest, 500));
            assert forall|q: int| wpi + 1 <= q < 2 * wpi + 1 implies single_link(
                #[trigger] ics@[q],
                q - 1,
                if q == wpi + 1 {
                    basei + 3
                } else {
                    q - 2
                },
                rest,
                500,
            ) by {
                assert(ics@[q] == c2[q - wpi - 1]);
            }
            assert(single_link(ics@[2 * wpi + 1], basei + 1, 2 * wpi - 1, rest, 500));
            assert forall|q: int| 2 * wpi + 2 <= q < 2 * wpi + 2 + hpi implies single_link(
                #[trigger] ics@[q],
                q - 2,
                if q == 2 * wpi + 2 {
                    basei
                } else {
                    q - 3
                },
                rest,
                500,
            ) by {
                assert(ics@[q] == c3[q - 2 * wpi - 2]);
            }
            assert(single_link(ics@[2 * wpi + 2 + hpi], basei + 3, 2 * wpi + hpi - 1, rest, 500));
            assert forall|q: int| 2 * wpi + 3 + hpi <= q < 2 * wpi + 3 + 2 * hpi implies
                single_link(
                #[trigger] ics@[q],
                q - 3,
                if q == 2 * wpi + 3 + hpi {
                    basei + 2
                } else {
                    q - 4
                },
                rest,
                500,
            ) by {
                assert(ics@[q] == c4[q - 2 * wpi - 3 - hpi]);
            }
            assert(single_link(ics@[2 * wpi + 3 + 2 * hpi], basei + 1, basei - 1, rest, 500));

            // unary constraints, segment by segment
            assert forall|q: int| 0 <= q < wpi implies named_self_ok(
                #[trigger] scs@[q],
                "gravity"@,
                q,
                frame_gravity(),
            ) by {
                assert(scs@[q] == s1[q]);
            }
            assert forall|q: int| wpi <= q < 3 * wpi implies named_self_ok(
                #[trigger] scs@[q],
                if (q - wpi) % 2 == 0 {
                    "gravity"@
                } else {
                    "wind"@
                },
                wpi + (q - wpi) / 2,
                if (q - wpi) % 2 == 0 {
                    frame_gravity()
                } else {
                    frame_wind()
                },
            ) by {
                assert(scs@[q] == s2[q - wpi]);
            }
            assert(named_self_ok(scs@[3 * wpi], "gravity"@, basei + 1, frame_gravity()));
            assert(named_self_ok(scs@[3 * wpi + 1], "wind"@, basei + 1, frame_wind()));
            assert forall|q: int| 3 * wpi + 2 <= q < 3 * wpi + 2 + hpi implies named_self_ok(
                #[trigger] scs@[q],
                "gravity"@,
                2 * wpi + q - (3 * wpi + 2),
                frame_gravity(),
            ) by {
                assert(scs@[q] == s3[q - 3 * wpi - 2]);
            }
            assert(named_self_ok(scs@[3 * wpi + 2 + hpi], "gravity"@, basei + 3, frame_gravity()));
            assert forall|q: int| 3 * wpi + 3 + hpi <= q < 3 * wpi + 3 + 2 * hpi implies
                named_self_ok(
                #[trigger] scs@[q],
                "gravity"@,
                2 * wpi + hpi + q - (3 * wpi + 3 + hpi),
                frame_gravity(),
            ) by {
                assert(scs@[q] == s4[q - 3 * wpi - 3 - hpi]);
            }
            assert(named_self_ok(
                scs@[3 * wpi + 3 + 2 * hpi],
                "gravity"@,
                basei + 1,
                frame_gravity(),
            ));

            // well-formedness of the assembled mesh
            assert forall|q: int| 0 <= q < nodes@.len() implies (#[trigger] nodes@[q]).data.valid()
                by {
                if q < basei {
                } else {
                }
            }
            assert forall|q: int| 0 <= q < ics@.len() implies (#[trigger] ics@[q]).wf(
                nodes@.len() as int,
            ) by {
                if q < wpi {
                    assert(ics@[q] == c1[q]);
                    assert(c1[q].wf(arena as int));
                } else if q == wpi {
                } else if q < 2 * wpi + 1 {
                    assert(ics@[q] == c2[q - wpi - 1]);
                    assert(c2[q - wpi - 1].wf(arena as int));
                } else if q == 2 * wpi + 1 {
                } else if q < 2 * wpi + 2 + hpi {
                    assert(ics@[q] == c3[q - 2 * wpi - 2]);
                    assert(c3[q - 2 * wpi - 2].wf(arena as int));
                } else if q == 2 * wpi + 2 + hpi {
                } else if q < 2 * wpi + 3 + 2 * hpi {
                    assert(ics@[q] == c4[q - 2 * wpi - 3 - hpi]);
                    assert(c4[q - 2 * wpi - 3 - hpi].wf(arena as int));
                } else {
                }
            }
            assert forall|q: int| 0 <= q < scs@.len() implies (#[trigger] scs@[q]).wf(
                nodes@.len() as int,
            ) by {
                if q < wpi {
                    assert(scs@[q] == s1[q]);
                    assert(s1[q].wf(arena as int));
                } else if q < 3 * wpi {
                    assert(scs@[q] == s2[q - wpi]);
                    assert(s2[q - wpi].wf(arena as int));
                } else if q < 3 * wpi + 2 {
                } else if q < 3 * wpi + 2 + hpi {
                    assert(scs@[q] == s3[q - 3 * wpi - 2]);
                    assert(s3[q - 3 * wpi - 2].wf(arena as int));
                } else if q == 3 * wpi + 2 + hpi {
                } else if q < 3 * wpi + 3 + 2 * hpi {
                    assert(scs@[q] == s4[q - 3 * wpi - 3 - hpi]);
                    assert(s4[q - 3 * wpi - 3 - hpi].wf(arena as int));
                } else {
                }
            }
            // no unary constraint targets a pinned node
            assert forall|q: int| 0 <= q < scs@.len() implies !nodes@[(#[trigger] scs@[q]).node
                as int].data.pinned by {
                let nd = scs@[q].node as int;
                if q < wpi {
                    assert(named_self_ok(scs@[q], "gravity"@, q, frame_gravity()));
                    assert(nodes@[nd] == free_node_at((nd + 1) * sp * sc, 0));
                } else if q < 3 * wpi {
                    assert(wpi <= nd < 2 * wpi);
                } else if q < 3 * wpi + 2 {
                    assert(nd == basei + 1);
                } else if q < 3 * wpi + 2 + hpi {
                    assert(2 * wpi <= nd < 2 * wpi + hpi);
                } else if q == 3 * wpi + 2 + hpi {
                    assert(nd == basei + 3);
                } else if q < 3 * wpi + 3 + 2 * hpi {
                    assert(2 * wpi + hpi <= nd < basei);
                } else {
                    assert(nd == basei + 1);
                }
            }
        }
        Mesh::new(nodes, ics, scs)
    }
}


/// The nodes of the interwoven lattice, in insertion order: paired
/// top/bottom nodes per column, then paired left/right nodes per row,
/// then the four corners (the top two pinned).
pub open spec fn weave_nodes_ok(
    nodes: Seq<Node<Verlet>>,
    width: int,
    height: int,
    spacing: int,
) -> bool {
    let wp = width - 1;
    let hp = height - 1;
    let base = 2 * wp + 2 * hp;
    let u = SCALE as int;
    &&& nodes.len() == base + 4
    &&& (forall|q: int|
        0 <= q < 2 * wp ==> (#[trigger] nodes[q]) == free_node_at(
            (q / 2 + 1) * spacing * u,
            if q % 2 == 0 {
                0
            } else {
                height * spacing * u
            },
        ))
    &&& (forall|q: int|
        2 * wp <= q < base ==> (#[trigger] nodes[q]) == free_node_at(
            if (q - 2 * wp) % 2 == 0 {
                0
            } else {
                width * spacing * u
            },
            ((q - 2 * wp) / 2 + 1) * spacing * u,
        ))
    &&& nodes[base] == pinned_node_at(0, 0)
    &&& nodes[base + 1] == free_node_at(width * spacing * u, height * spacing * u)
    &&& nodes[base + 2] == pinned_node_at(width * spacing * u, 0)
    &&& nodes[base + 3] == free_node_at(0, height * spacing * u)
}

/// The distance links of the interwoven lattice, in insertion order:
/// per column a top chain link, a bottom chain link and a full-height
/// cross link; the bottom right and top right corners tied to the last
/// column; per row a left chain link, a right chain link and a
/// full-width cross link; the bottom corners tied to the last row.
pub open spec fn weave_links_ok(
    ics: Seq<InterConnector>,
    width: int,
    height: int,
    spacing: int,
    spring_milli: u16,
) -> bool {
    let wp = width - 1;
    let hp = height - 1;
    let base = 2 * wp + 2 * hp;
    let rest = (spacing * (SCALE as int)) as i64;
    let hrest = (height * spacing * (SCALE as int)) as i64;
    let wrest = (width * spacing * (SCALE as int)) as i64;
    &&& ics.len() == 3 * wp + 3 * hp + 4
    &&& (forall|q: int|
        0 <= q < 3 * wp ==> single_link(
            #[trigger] ics[q],
            if q % 3 == 0 {
                2 * (q / 3)
            } else {
                2 * (q / 3) + 1
            },
            if q % 3 == 0 {
                if q / 3 == 0 {
                    base
                } else {
                    2 * (q / 3) - 2
                }
            } else if q % 3 == 1 {
                if q / 3 == 0 {
                    base + 3
                } else {
                    2 * (q / 3) - 1
                }
            } else {
                2 * (q / 3)
            },
            if q % 3 == 2 {
                hrest
            } else {
                rest
            },
            spring_milli,
        ))
    &&& single_link(ics[3 * wp], base + 1, 2 * wp - 1, rest, spring_milli)
    &&& single_link(ics[3 * wp + 1], base + 2, 2 * wp - 2, rest, spring_milli)
    &&& (forall|q: int|
        3 * wp + 2 <= q < 3 * wp + 2 + 3 * hp ==> single_link(
            #[trigger] ics[q],
            if (q - 3 * wp - 2) % 3 == 1 {
                2 * wp + 2 * ((q - 3 * wp - 2) / 3) + 1
            } else {
                2 * wp + 2 * ((q - 3 * wp - 2) / 3)
            },
            if (q - 3 * wp - 2) % 3 == 0 {
                if (q - 3 * wp - 2) / 3 == 0 {
                    base
                } else {
                    2 * wp + 2 * ((q - 3 * wp - 2) / 3) - 2
                }
            } else if (q - 3 * wp - 2) % 3 == 1 {
                if (q - 3 * wp - 2) / 3 == 0 {
                    base + 2
                } else {
                    2 * wp + 2 * ((q - 3 * wp - 2) / 3) - 1
                }
            } else {
                2 * wp + 2 * ((q - 3 * wp - 2) / 3) + 1
            },
            if (q - 3 * wp - 2) % 3 == 2 {
                wrest
            } else {
                rest
            },
            spring_milli,
        ))
    &&& single_link(ics[3 * wp + 2 + 3 * hp], base + 1, base - 1, rest, spring_milli)
    &&& single_link(ics[3 * wp + 3 + 3 * hp], base + 3, base - 2, rest, spring_milli)
}

/// The unary constraints of the interwoven lattice, in insertion
/// order: per column gravity on the top node, gravity and wind on the
/// bottom node; gravity and wind on the bottom right corner; per row
/// gravity on the left and on the right node; gravity on the bottom
/// left corner. The two pinned top corners carry no constraint.
pub open spec fn weave_selfs_ok(
    scs: Seq<SelfConnector>,
    width: int,
    height: int,
    gravity: i16,
) -> bool {
    let wp = width - 1;
    let hp = height - 1;
    let base = 2 * wp + 2 * hp;
    let g = SelfRule::Gravity { dt_micros: 1000, gravity };
    &&& scs.len() == 3 * wp + 2 * hp + 3
    &&& (forall|q: int|
        0 <= q < 3 * wp ==> named_self_ok(
            #[trigger] scs[q],
            if q % 3 == 2 {
                "wind"@
            } else {
                "gravity"@
            },
            if q % 3 == 0 {
                2 * (q / 3)
            } else {
                2 * (q / 3) + 1
            },
            if q % 3 == 2 {
                frame_wind()
            } else {
                g
            },
        ))
    &&& named_self_ok(scs[3 * wp], "gravity"@, base + 1, g)
    &&& named_self_ok(scs[3 * wp + 1], "wind"@, base + 1, frame_wind())
    &&& (forall|q: int|
        3 * wp + 2 <= q < 3 * wp + 2 + 2 * hp ==> named_self_ok(
            #[trigger] scs[q],
            "gravity"@,
            2 * wp + (q - 3 * wp - 2),
            g,
        ))
    &&& named_self_ok(scs[3 * wp + 2 + 2 * hp], "gravity"@, base + 3, g)
}

impl Mesh {
    /// The interwoven lattice: top and bottom edges built as paired
    /// node sequences per column and left/right edges per row, each
    /// pair cross-linked both to its neighbors and by a long-range
    /// constraint spanning the full height or width.
    #[verifier::rlimit(100)]
    #[verifier::spinoff_prover]
    pub fn cloth_interweave(
        height: u8,
        width: u8,
        spacing: u8,
        gravity: i16,
        spring_milli: u16,
    ) -> (m: Mesh)
        requires
            width >= 2,
            height >= 2,
            0 < spring_milli <= 1000,
        ensures
            weave_nodes_ok(m.nodes@, width as int, height as int, spacing as int),
            weave_links_ok(
                m.interconnectors@,
                width as int,
                height as int,
                spacing as int,
                spring_milli,
            ),
            weave_selfs_ok(m.selfconnectors@, width as int, height as int, gravity),
            m.wf(),
            m.pin_safe(),
    {
        let u: i64 = (spacing as i64) * SCALE;
        let wp: usize = (width - 1) as usize;
        let hp: usize = (height - 1) as usize;
        let base: usize = 2 * wp + 2 * hp;
        let arena: usize = base + 4;
        proof {
            assert(u == (spacing as int) * (SCALE as int) && 0 <= u <= 255 * 1_000_000) by (
            nonlinear_arith)
                requires
                    u == (spacing as i64) * SCALE,
                    SCALE == 1_000_000i64,
                    spacing <= 255,
            ;
            assert((width as int) * ((spacing as int) * (SCALE as int)) == (width as int) * (
            spacing as int) * (SCALE as int) && 0 <= (width as int) * (spacing as int) * (
            SCALE as int) <= 255 * 255 * 1_000_000) by (nonlinear_arith)
                requires
                    width <= 255,
                    spacing <= 255,
            ;
            assert((height as int) * ((spacing as int) * (SCALE as int)) == (height as int) * (
            spacing as int) * (SCALE as int) && 0 <= (height as int) * (spacing as int) * (
            SCALE as int) <= 255 * 255 * 1_000_000) by (nonlinear_arith)
                requires
                    height <= 255,
                    spacing <= 255,
            ;
        }
        let wx: i64 = (width as i64) * u;
        let hy: i64 = (height as i64) * u;
        let g_rule = SelfRule::Gravity { dt_micros: 1000, gravity };
        let w_rule = SelfRule::Wind { horz: -3_000_000, vert: 0 };
        let edge_rule = InterRule::Distance { spacing: u, spring_milli };
        let tall_rule = InterRule::Distance { spacing: hy, spring_milli };
        let wide_rule = InterRule::Distance { spacing: wx, spring_milli };

        let mut nodes: Vec<Node<Verlet>> = Vec::new();
        let mut ics: Vec<InterConnector> = Vec::new();
        let mut scs: Vec<SelfConnector> = Vec::new();

        let mut x: u8 = 1;
        while x < width
            invariant
                1 <= x <= width,
                width >= 2,
                height >= 2,
                0 < spring_milli <= 1000,
                wp == width - 1,
                hp == height - 1,
                base == 2 * wp + 2 * hp,
                arena == base + 4,
                u == (spacing as int) * (SCALE as int),
                0 <= u,
                wx as int == (width as int) * (spacing as int) * (SCALE as int),
                hy as int == (height as int) * (spacing as int) * (SCALE as int),
                0 <= wx <= COORD_LIMIT,
                0 <= hy <= COORD_LIMIT,
                g_rule == (SelfRule::Gravity { dt_micros: 1000, gravity }),
                w_rule == (SelfRule::Wind { horz: -3_000_000i64, vert: 0 }),
                edge_rule == (InterRule::Distance { spacing: u, spring_milli }),
                tall_rule == (InterRule::Distance { spacing: hy, spring_milli }),
                wide_rule == (InterRule::Distance { spacing: wx, spring_milli }),
                nodes@.len() == 2 * ((x as int) - 1),
                ics@.len() == 3 * ((x as int) - 1),
                scs@.len() == 3 * ((x as int) - 1),
                crate::nac::nodes_valid(nodes@),
                crate::nac::inters_wf(ics@, arena as int),
                crate::nac::selfs_wf(scs@, arena as int),
                forall|q: int|
                    0 <= q < nodes@.len() ==> (#[trigger] nodes@[q]) == free_node_at(
                        (q / 2 + 1) * (spacing as int) * (SCALE as int),
                        if q % 2 == 0 {
                            0
                        } else {
                            (height as int) * (spacing as int) * (SCALE as int)
                        },
                    ),
                forall|q: int|
                    0 <= q < ics@.len() ==> single_link(
                        #[trigger] ics@[q],
                        if q % 3 == 0 {
                            2 * (q / 3)
                        } else {
                            2 * (q / 3) + 1
                        },
                        if q % 3 == 0 {
                            if q / 3 == 0 {
                                base as int
                            } else {
                                2 * (q / 3) - 2
                            }
                        } else if q % 3 == 1 {
                            if q / 3 == 0 {
                                base as int + 3
                            } else {
                                2 * (q / 3) - 1
                            }
                        } else {
                            2 * (q / 3)
                        },
                        if q % 3 == 2 {
                            hy
                        } else {
                            u
                        },
                        spring_milli,
                    ),
                forall|q: int|
                    0 <= q < scs@.len() ==> named_self_ok(
                        #[trigger] scs@[q],
                        if q % 3 == 2 {
                            "wind"@
                        } else {
                            "gravity"@
                        },
                        if q % 3 == 0 {
                            2 * (q / 3)
                        } else {
                            2 * (q / 3) + 1
                        },
                        if q % 3 == 2 {
                            frame_wind()
                        } else {
                            SelfRule::Gravity { dt_micros: 1000, gravity }
                        },
                    ),
            decreases width as int - x as int,
        {
            let ghost t = (x as int) - 1;
            proof {
                assert(0 <= (x as int) * (spacing as int) <= 255 * 255) by (nonlinear_arith)
                    requires
                        x <= 255,
                        spacing <= 255,
                ;
                assert((x as int) * ((spacing as int) * (SCALE as int)) == (x as int) * (
                spacing as int) * (SCALE as int)) by (nonlinear_arith);
                vstd::arithmetic::div_mod::lemma_fundamental_div_mod_converse(2 * t, 2, t, 0);
                vstd::arithmetic::div_mod::lemma_fundamental_div_mod_converse(2 * t + 1, 2, t, 1);
                vstd::arithmetic::div_mod::lemma_fundamental_div_mod_converse(3 * t, 3, t, 0);
                vstd::arithmetic::div_mod::lemma_fundamental_div_mod_converse(3 * t + 1, 3, t, 1);
                vstd::arithmetic::div_mod::lemma_fundamental_div_mod_converse(3 * t + 2, 3, t, 2);
            }
            let along: i64 = ((x as i64) * (spacing as i64)) * SCALE;
            let up_index = nodes.len();
            let up_sec: usize = if x == 1 {
                base
            } else {
                up_index - 2
            };
            ics.push(InterConnector::new(up_index, Some(single_index(up_sec)), edge_rule));
            scs.push(SelfConnector::new("gravity", up_index, g_rule));
            let down_index = up_index + 1;
            let down_sec: usize = if x == 1 {
                base + 3
            } else {
                down_index - 2
            };
            ics.push(InterConnector::new(down_index, Some(single_index(down_sec)), edge_rule));
            scs.push(SelfConnector::new("gravity", down_index, g_rule));
            scs.push(SelfConnector::new("wind", down_index, w_rule));
            ics.push(InterConnector::new(down_index, Some(single_index(up_index)), tall_rule));
            nodes.push(Node::new(Verlet::new(along, 0)));
            nodes.push(Node::new(Verlet::new(along, hy)));
            x = x + 1;
        }
        let ghost phase_a_nodes = nodes@;
        let ghost phase_a_ics = ics@;
        let ghost phase_a_scs = scs@;
        ics.push(InterConnector::new(base + 1, Some(single_index(2 * wp - 1)), edge_rule));
        ics.push(InterConnector::new(base + 2, Some(single_index(2 * wp - 2)), edge_rule));
        scs.push(SelfConnector::new("gravity", base + 1, g_rule));
        scs.push(SelfConnector::new("wind", base + 1, w_rule));

        let mut y: u8 = 1;
        while y < height
            invariant
                1 <= y <= height,
                width >= 2,
                height >= 2,
                0 < spring_milli <= 1000,
                wp == width - 1,
                hp == height - 1,
                base == 2 * wp + 2 * hp,
                arena == base + 4,
                u == (spacing as int) * (SCALE as int),
                0 <= u,
                wx as int == (width as int) * (spacing as int) * (SCALE as int),
                hy as int == (height as int) * (spacing as int) * (SCALE as int),
                0 <= wx <= COORD_LIMIT,
                0 <= hy <= COORD_LIMIT,
                g_rule == (SelfRule::Gravity { dt_micros: 1000, gravity }),
                w_rule == (SelfRule::Wind { horz: -3_000_000i64, vert: 0 }),
                edge_rule == (InterRule::Distance { spacing: u, spring_milli }),
                wide_rule == (InterRule::Distance { spacing: wx, spring_milli }),
                phase_a_nodes.len() == 2 * (wp as int),
                phase_a_ics.len() == 3 * (wp as int),
                phase_a_scs.len() == 3 * (wp as int),
                nodes@.len() == 2 * (wp as int) + 2 * ((y as int) - 1),
                ics@.len() == 3 * (wp as int) + 2 + 3 * ((y as int) - 1),
                scs@.len() == 3 * (wp as int) + 2 + 2 * ((y as int) - 1),
                nodes@.take(2 * (wp as int)) == phase_a_nodes,
                ics@.take(3 * (wp as int)) == phase_a_ics,
                scs@.take(3 * (wp as int)) == phase_a_scs,
                single_link(
                    ics@[3 * (wp as int)],
                    base as int + 1,
                    2 * (wp as int) - 1,
                    u,
                    spring_milli,
                ),
                single_link(
                    ics@[3 * (wp as int) + 1],
                    base as int + 2,
                    2 * (wp as int) - 2,
                    u,
                    spring_milli,
                ),
                named_self_ok(
                    scs@[3 * (wp as int)],
                    "gravity"@,
                    base as int + 1,
                    SelfRule::Gravity { dt_micros: 1000, gravity },
                ),
                named_self_ok(scs@[3 * (wp as int) + 1], "wind"@, base as int + 1, frame_wind()),
                crate::nac::nodes_valid(nodes@),
                crate::nac::inters_wf(ics@, arena as int),
                crate::nac::selfs_wf(scs@, arena as int),
                forall|q: int|
                    2 * (wp as int) <= q < nodes@.len() ==> (#[trigger] nodes@[q]) == free_node_at(
                        if (q - 2 * (wp as int)) % 2 == 0 {
                            0
                        } else {
                            (width as int) * (spacing as int) * (SCALE as int)
                        },
                        ((q - 2 * (wp as int)) / 2 + 1) * (spacing as int) * (SCALE as int),
                    ),
                forall|q: int|
                    3 * (wp as int) + 2 <= q < ics@.len() ==> single_link(
                        #[trigger] ics@[q],
                        if (q - 3 * (wp as int) - 2) % 3 == 1 {
                            2 * (wp as int) + 2 * ((q - 3 * (wp as int) - 2) / 3) + 1
                        } else {
                            2 * (wp as int) + 2 * ((q - 3 * (wp as int) - 2) / 3)
                        },
                        if (q - 3 * (wp as int) - 2) % 3 == 0 {
                            if (q - 3 * (wp as int) - 2) / 3 == 0 {
                                base as int
                            } else {
                                2 * (wp as int) + 2 * ((q - 3 * (wp as int) - 2) / 3) - 2
                            }
                        } else if (q - 3 * (wp as int) - 2) % 3 == 1 {
                            if (q - 3 * (wp as int) - 2) / 3 == 0 {
                                base as int + 2
                            } else {
                                2 * (wp as int) + 2 * ((q - 3 * (wp as int) - 2) / 3) - 1
                            }
                        } else {
                            2 * (wp as int) + 2 * ((q - 3 * (wp as int) - 2) / 3) + 1
                        },
                        if (q - 3 * (wp as int) - 2) % 3 == 2 {
                            wx
                        } else {
                            u
                        },
                        spring_milli,
                    ),
                forall|q: int|
                    3 * (wp as int) + 2 <= q < scs@.len() ==> named_self_ok(
                        #[trigger] scs@[q],
                        "gravity"@,
                        2 * (wp as int) + (q - 3 * (wp as int) - 2),
                        SelfRule::Gravity { dt_micros: 1000, gravity },
                    ),
            decreases height as int - y as int,
        {
            let ghost t = (y as int) - 1;
            proof {
                assert(0 <= (y as int) * (spacing as int) <= 255 * 255) by (nonlinear_arith)
                    requires
                        y <= 255,
                        spacing <= 255,
                ;
                assert((y as int) * ((spacing as int) * (SCALE as int)) == (y as int) * (
                spacing as int) * (SCALE as int)) by (nonlinear_arith);
                vstd::arithmetic::div_mod::lemma_fundamental_div_mod_converse(2 * t, 2, t, 0);
                vstd::arithmetic::div_mod::lemma_fundamental_div_mod_converse(2 * t + 1, 2, t, 1);
                vstd::arithmetic::div_mod::lemma_fundamental_div_mod_converse(3 * t, 3, t, 0);
                vstd::arithmetic::div_mod::lemma_fundamental_div_mod_converse(3 * t + 1, 3, t, 1);
                vstd::arithmetic::div_mod::lemma_fundamental_div_mod_converse(3 * t + 2, 3, t, 2);
            }
            let along: i64 = ((y as i64) * (spacing as i64)) * SCALE;
            let left_index = nodes.len();
            let left_sec: usize = if y == 1 {
                base
            } else {
                left_index - 2
            };
            ics.push(InterConnector::new(left_index, Some(single_index(left_sec)), edge_rule));
            scs.push(SelfConnector::new("gravity", left_index, g_rule));
            let right_index = left_index + 1;
            let right_sec: usize = if y == 1 {
                base + 2
            } else {
                right_index - 2
            };
            ics.push(InterConnector::new(right_index, Some(single_index(right_sec)), edge_rule));
            scs.push(SelfConnector::new("gravity", right_index, g_rule));
            ics.push(InterConnector::new(left_index, Some(single_index(right_index)), wide_rule));
            nodes.push(Node::new(Verlet::new(0, along)));
            nodes.push(Node::new(Verlet::new(wx, along)));
            y = y + 1;
        }
        let ghost nodes_b = nodes@;
        let ghost ics_b = ics@;
        let ghost scs_b = scs@;
        ics.push(InterConnector::new(base + 1, Some(single_index(base - 1)), edge_rule));
        ics.push(InterConnector::new(base + 3, Some(single_index(base - 2)), edge_rule));
        scs.push(SelfConnector::new("gravity", base + 3, g_rule));
        nodes.push(Node::new(Verlet::new_pinned(0, 0)));
        nodes.push(Node::new(Verlet::new(wx, hy)));
        nodes.push(Node::new(Verlet::new_pinned(wx, 0)));
        nodes.push(Node::new(Verlet::new(0, hy)));

        proof {
            let wi = width as int;
            let hi = height as int;
            let sp = spacing as int;
            let sc = SCALE as int;
            let wpi = wi - 1;
            let hpi = hi - 1;
            let basei = 2 * wpi + 2 * hpi;
            let g = SelfRule::Gravity { dt_micros: 1000, gravity };
            assert(nodes@.len() == basei + 4);
            assert(ics@.len() == 3 * wpi + 3 * hpi + 4);
            assert(scs@.len() == 3 * wpi + 2 * hpi + 3);

            // nodes
            assert forall|q: int| 0 <= q < 2 * wpi implies (#[trigger] nodes@[q]) == free_node_at(
                (q / 2 + 1) * sp * sc,
                if q % 2 == 0 {
                    0
                } else {
                    hi * sp * sc
                },
            ) by {
                assert(nodes@[q] == nodes_b[q]);
                assert(nodes_b[q] == phase_a_nodes[q]);
            }
            assert forall|q: int| 2 * wpi <= q < basei implies (#[trigger] nodes@[q])
                == free_node_at(
                if (q - 2 * wpi) % 2 == 0 {
                    0
                } else {
                    wi * sp * sc
                },
                ((q - 2 * wpi) / 2 + 1) * sp * sc,
            ) by {
                assert(nodes@[q] == nodes_b[q]);
            }
            assert(nodes@[basei] == pinned_node_at(0, 0));
            assert(nodes@[basei + 1] == free_node_at(wi * sp * sc, hi * sp * sc));
            assert(nodes@[basei + 2] == pinned_node_at(wi * sp * sc, 0));
            assert(nodes@[basei + 3] == free_node_at(0, hi * sp * sc));

            // links
            let rest = (sp * sc) as i64;
            let hrest = (hi * sp * sc) as i64;
            let wrest = (wi * sp * sc) as i64;
            assert(rest == u && hrest == hy && wrest == wx);
            assert forall|q: int| 0 <= q < 3 * wpi implies single_link(
                #[trigger] ics@[q],
                if q % 3 == 0 {
                    2 * (q / 3)
                } else {
                    2 * (q / 3) + 1
                },
                if q % 3 == 0 {
                    if q / 3 == 0 {
                        basei
                    } else {
                        2 * (q / 3) - 2
                    }
                } else if q % 3 == 1 {
                    if q / 3 == 0 {
                        basei + 3
                    } else {
                        2 * (q / 3) - 1
                    }
                } else {
                    2 * (q / 3)
                },
                if q % 3 == 2 {
                    hrest
                } else {
                    rest
                },
                spring_milli,
            ) by {
                assert(ics@[q] == ics_b[q]);
                assert(ics_b[q] == phase_a_ics[q]);
            }
            assert(single_link(ics@[3 * wpi], basei + 1, 2 * wpi - 1, rest, spring_milli));
            assert(single_link(ics@[3 * wpi + 1], basei + 2, 2 * wpi - 2, rest, spring_milli));
            assert forall|q: int| 3 * wpi + 2 <= q < 3 * wpi + 2 + 3 * hpi implies single_link(
                #[trigger] ics@[q],
                if (q - 3 * wpi - 2) % 3 == 1 {
                    2 * wpi + 2 * ((q - 3 * wpi - 2) / 3) + 1
                } else {
                    2 * wpi + 2 * ((q - 3 * wpi - 2) / 3)
                },
                if (q - 3 * wpi - 2) % 3 == 0 {
                    if (q - 3 * wpi - 2) / 3 == 0 {
                        basei
                    } else {
                        2 * wpi + 2 * ((q - 3 * wpi - 2) / 3) - 2
                    }
                } else if (q - 3 * wpi - 2) % 3 == 1 {
                    if (q - 3 * wpi - 2) / 3 == 0 {
                        basei + 2
                    } else {
                        2 * wpi + 2 * ((q - 3 * wpi - 2) / 3) - 1
                    }
                } else {
                    2 * wpi + 2 * ((q - 3 * wpi - 2) / 3) + 1
                },
                if (q - 3 * wpi - 2) % 3 == 2 {
                    wrest
                } else {
                    rest
                },
                spring_milli,
            ) by {
                assert(ics@[q] == ics_b[q]);
            }
            assert(single_link(ics@[3 * wpi + 2 + 3 * hpi], basei + 1, basei - 1, rest,
                spring_milli));
            assert(single_link(ics@[3 * wpi + 3 + 3 * hpi], basei + 3, basei - 2, rest,
                spring_milli));

            // unary constraints
            assert forall|q: int| 0 <= q < 3 * wpi implies named_self_ok(
                #[trigger] scs@[q],
                if q % 3 == 2 {
                    "wind"@
                } else {
                    "gravity"@
                },
                if q % 3 == 0 {
                    2 * (q / 3)
                } else {
                    2 * (q / 3) + 1
                },
                if q % 3 == 2 {
                    frame_wind()
                } else {
                    g
                },
            ) by {
                assert(scs@[q] == scs_b[q]);
                assert(scs_b[q] == phase_a_scs[q]);
            }
            assert(named_self_ok(scs@[3 * wpi], "gravity"@, basei + 1, g));
            assert(named_self_ok(scs@[3 * wpi + 1], "wind"@, basei + 1, frame_wind()));
            assert forall|q: int| 3 * wpi + 2 <= q < 3 * wpi + 2 + 2 * hpi implies named_self_ok(
                #[trigger] scs@[q],
                "gravity"@,
                2 * wpi + (q - 3 * wpi - 2),
                g,
            ) by {
                assert(scs@[q] == scs_b[q]);
            }
            assert(named_self_ok(scs@[3 * wpi + 2 + 2 * hpi], "gravity"@, basei + 3, g));

            // well-formedness
            assert forall|q: int| 0 <= q < nodes@.len() implies (#[trigger] nodes@[q]).data.valid()
                by {
                if q < basei {
                    assert(nodes@[q] == nodes_b[q]);
                } else {
                }
            }
            assert forall|q: int| 0 <= q < ics@.len() implies (#[trigger] ics@[q]).wf(
                nodes@.len() as int,
            ) by {
                if q < ics_b.len() {
                    assert(ics@[q] == ics_b[q]);
                    assert(ics_b[q].wf(arena as int));
                } else {
                }
            }
            assert forall|q: int| 0 <= q < scs@.len() implies (#[trigger] scs@[q]).wf(
                nodes@.len() as int,
            ) by {
                if q < scs_b.len() {
                    assert(scs@[q] == scs_b[q]);
                    assert(scs_b[q].wf(arena as int));
                } else {
                }
            }
            // no unary constraint targets a pinned node
            assert forall|q: int| 0 <= q < scs@.len() implies !nodes@[(#[trigger] scs@[q]).node
                as int].data.pinned by {
                let nd = scs@[q].node as int;
                if q < 3 * wpi {
                    assert(0 <= nd < 2 * wpi);
                } else if q < 3 * wpi + 2 {
                    assert(nd == basei + 1);
                } else if q < 3 * wpi + 2 + 2 * hpi {
                    assert(2 * wpi <= nd < basei);
                } else {
                    assert(nd == basei + 3);
                }
            }
        }
        Mesh::new(nodes, ics, scs)
    }
}

} // verus!
