//! The node-and-connector graph framework: an arena of nodes, unary and
//! pairwise constraints that reference nodes by index, and the mesh that
//! owns all three and advances the simulation.

use vstd::prelude::*;

verus! {

use crate::num::{COORD_LIMIT, UNIT_DENOM};
use crate::verlet::{
    InterRule, Point2, SelfRule, Verlet, apply_inter_rule, apply_self_rule, inter_rule_wf,
    lemma_inter_rule_frame, lemma_self_rule_frame, self_rule_wf,
};
use vstd::string::StringExecFns;

/// A generic container for one node's payload.
#[derive(Clone, Copy, PartialEq, Eq, Structural, Debug)]
pub struct Node<T> {
    pub data: T,
}

impl<T> Node<T> {
    pub fn new(data: T) -> (n: Node<T>)
        ensures
            n.data == data,
    {
        Node { data }
    }
}

/// A rule that rewrites one node's state: forces, integration and
/// boundary clamps. `spec_resolve` is the rule's mathematical meaning;
/// `resolve` computes exactly it. The two uniform samples feed the wind
/// rule; deterministic rules ignore them.
pub trait SelfResolve: Sized {
    spec fn rule_wf(&self) -> bool;

    spec fn spec_resolve(&self, s: Verlet, ux: int, uy: int) -> Verlet;

    fn resolve(&self, node: &Node<Verlet>, ux: u64, uy: u64) -> (r: Node<Verlet>)
        requires
            self.rule_wf(),
            node.data.valid(),
            ux < UNIT_DENOM,
            uy < UNIT_DENOM,
        ensures
            r.data == self.spec_resolve(node.data, ux as int, uy as int),
            r.data.valid(),
            r.data.pinned == node.data.pinned,
    ;
}

/// A rule that rewrites a pair of node states (structural springs).
/// `spec_resolve` is the rule's mathematical meaning; `resolve`
/// computes exactly it, and never moves a pinned endpoint.
pub trait InterResolve: Sized {
    spec fn rule_wf(&self) -> bool;

    spec fn spec_resolve(&self, primary: Verlet, secondary: Verlet) -> (Verlet, Verlet);

    fn resolve(&self, primary: &Node<Verlet>, secondary: &Node<Verlet>) -> (pair: (
        Node<Verlet>,
        Node<Verlet>,
    ))
        requires
            self.rule_wf(),
            primary.data.valid(),
            secondary.data.valid(),
        ensures
            (pair.0.data, pair.1.data) == self.spec_resolve(primary.data, secondary.data),
            pair.0.data.valid(),
            pair.1.data.valid(),
            pair.0.data.pinned == primary.data.pinned,
            pair.1.data.pinned == secondary.data.pinned,
            primary.data.pinned ==> pair.0.data == primary.data,
            secondary.data.pinned ==> pair.1.data == secondary.data,
    ;
}


/// A named unary constraint bound to one node of the arena.
#[derive(Debug)]
pub struct SelfConnector {
    pub name: String,
    pub node: usize,
    pub relation: SelfRule,
}

/// A pairwise constraint bound to a primary node and an optional ordered
/// list of secondary nodes.
#[derive(Debug)]
pub struct InterConnector {
    pub node: usize,
    pub constraints: Option<Vec<usize>>,
    pub relation: InterRule,
}

impl SelfConnector {
    /// The connector's node index lies in an arena of `n_nodes` nodes
    /// and its rule parameters are representable.
    pub open spec fn wf(&self, n_nodes: int) -> bool {
        (self.node as int) < n_nodes && self_rule_wf(self.relation)
    }

    pub fn new(name: &str, node: usize, relation: SelfRule) -> (c: SelfConnector)
        ensures
            c.name@ == name@,
            c.node == node,
            c.relation == relation,
    {
        SelfConnector { name: String::from_str(name), node, relation }
    }

    /// Apply the rule to the node and write the result back.
    pub fn resolve(&self, nodes: &mut Vec<Node<Verlet>>, ux: u64, uy: u64)
        requires
            self.wf(old(nodes)@.len() as int),
            old(nodes)@[self.node as int].data.valid(),
            ux < UNIT_DENOM,
            uy < UNIT_DENOM,
        ensures
            final(nodes)@ == self_step(old(nodes)@, *self, ux as int, uy as int),
    {
        let n: Node<Verlet> = nodes[self.node];
        let r = self.relation.resolve(&n, ux, uy);
        nodes[self.node] = r;
    }
}

impl InterConnector {
    /// Every index the connector holds lies in an arena of `n_nodes`
    /// nodes and its rule parameters are representable.
    pub open spec fn wf(&self, n_nodes: int) -> bool {
        &&& (self.node as int) < n_nodes
        &&& inter_rule_wf(self.relation)
        &&& match self.constraints {
            Some(v) => forall|j: int| 0 <= j < v@.len() ==> (#[trigger] v@[j]) < n_nodes,
            None => true,
        }
    }

    pub fn new(node: usize, constraints: Option<Vec<usize>>, relation: InterRule) -> (c:
        InterConnector)
        ensures
            c.node == node,
            c.constraints == constraints,
            c.relation == relation,
    {
        InterConnector { node, constraints, relation }
    }

    /// Apply the rule once between the primary and each secondary, in
    /// list order, writing both nodes back after each application.
    pub fn resolve(&self, nodes: &mut Vec<Node<Verlet>>)
        requires
            self.wf(old(nodes)@.len() as int),
            nodes_valid(old(nodes)@),
        ensures
            final(nodes)@ == inter_step(old(nodes)@, self),
            nodes_valid(final(nodes)@),
    {
        proof {
            lemma_inter_step_frame(old(nodes)@, self);
        }
        match &self.constraints {
            Some(v) => {
                let ghost orig = nodes@;
                let m = v.len();
                for j in 0..m
                    invariant
                        m == v@.len(),
                        self.constraints matches Some(w) && w@ == v@,
                        self.wf(orig.len() as int),
                        nodes_valid(nodes@),
                        nodes@.len() == orig.len(),
                        nodes@ == inter_fold(orig, self.relation, self.node as int, v@.take(
                            j as int,
                        )),
                {
                    let sec: usize = v[j];
                    proof {
                        assert(self.constraints matches Some(w) && w@ == v@);
                        assert((v@[j as int] as int) < orig.len());
                        assert(nodes@[sec as int].data.valid());
                    }
                    let primary: Node<Verlet> = nodes[self.node];
                    let secondary: Node<Verlet> = nodes[sec];
                    let pair = self.relation.resolve(&primary, &secondary);
                    nodes[self.node] = pair.0;
                    nodes[sec] = pair.1;
                    proof {
                        let secs = v@.take(j + 1);
                        assert(secs.drop_last() =~= v@.take(j as int));
                        assert(secs.last() == v@[j as int]);
                        lemma_pair_step_frame(
                            inter_fold(orig, self.relation, self.node as int, v@.take(j as int)),
                            self.relation,
                            self.node as int,
                            v@[j as int] as int,
                        );
                    }
                }
                proof {
                    assert(v@.take(m as int) =~= v@);
                }
            },
            None => {
            },
        }
    }
}

/// Do all states in the arena lie in the coordinate range?
pub open spec fn nodes_valid(nodes: Seq<Node<Verlet>>) -> bool {
    forall|i: int| 0 <= i < nodes.len() ==> (#[trigger] nodes[i]).data.valid()
}

/// The arena after one unary constraint has fired with the given
/// samples.
pub open spec fn self_step(nodes: Seq<Node<Verlet>>, c: SelfConnector, ux: int, uy: int) -> Seq<
    Node<Verlet>,
> {
    nodes.update(
        c.node as int,
        Node { data: apply_self_rule(c.relation, nodes[c.node as int].data, ux, uy) },
    )
}

/// The arena after one pairwise rule application between `prim` and
/// `sec`: the primary is written back first, then the secondary.
pub open spec fn pair_step(nodes: Seq<Node<Verlet>>, rule: InterRule, prim: int, sec: int) -> Seq<
    Node<Verlet>,
> {
    let r = apply_inter_rule(rule, nodes[prim].data, nodes[sec].data);
    nodes.update(prim, Node { data: r.0 }).update(sec, Node { data: r.1 })
}

/// The arena after the primary has been paired with each secondary in
/// list order.
pub open spec fn inter_fold(
    nodes: Seq<Node<Verlet>>,
    rule: InterRule,
    prim: int,
    secs: Seq<usize>,
) -> Seq<Node<Verlet>>
    decreases secs.len(),
{
    if secs.len() == 0 {
        nodes
    } else {
        pair_step(inter_fold(nodes, rule, prim, secs.drop_last()), rule, prim, secs.last() as int)
    }
}

/// The arena after one pairwise connector has resolved; a connector
/// without secondaries is a no-op.
pub open spec fn inter_step(nodes: Seq<Node<Verlet>>, c: &InterConnector) -> Seq<Node<Verlet>> {
    match c.constraints {
        Some(v) => inter_fold(nodes, c.relation, c.node as int, v@),
        None => nodes,
    }
}

/// The arena after every pairwise connector has resolved once, in list
/// order.
pub open spec fn inters_fold(nodes: Seq<Node<Verlet>>, cs: Seq<InterConnector>) -> Seq<
    Node<Verlet>,
>
    decreases cs.len(),
{
    if cs.len() == 0 {
        nodes
    } else {
        inter_step(inters_fold(nodes, cs.drop_last()), &cs.last())
    }
}

/// The arena after `k` full relaxation sweeps of the pairwise
/// connectors.
pub open spec fn inters_rounds(nodes: Seq<Node<Verlet>>, cs: Seq<InterConnector>, k: nat) -> Seq<
    Node<Verlet>,
>
    decreases k,
{
    if k == 0 {
        nodes
    } else {
        inters_fold(inters_rounds(nodes, cs, (k - 1) as nat), cs)
    }
}

/// The arena after every unary connector has resolved once, in list
/// order, consuming one sample pair each.
pub open spec fn selfs_fold(
    nodes: Seq<Node<Verlet>>,
    cs: Seq<SelfConnector>,
    draws: Seq<(u64, u64)>,
) -> Seq<Node<Verlet>>
    decreases cs.len(),
{
    if cs.len() == 0 {
        nodes
    } else {
        self_step(
            selfs_fold(nodes, cs.drop_last(), draws.drop_last()),
            cs.last(),
            draws.last().0 as int,
            draws.last().1 as int,
        )
    }
}

/// One whole simulation step: `k` relaxation sweeps of the pairwise
/// constraints, then one pass of the unary constraints.
pub open spec fn mesh_step(
    nodes: Seq<Node<Verlet>>,
    inters: Seq<InterConnector>,
    selfs: Seq<SelfConnector>,
    k: nat,
    draws: Seq<(u64, u64)>,
) -> Seq<Node<Verlet>> {
    selfs_fold(inters_rounds(nodes, inters, k), selfs, draws)
}

/// One sample pair per unary connector, each component in range.
pub open spec fn draws_ok(draws: Seq<(u64, u64)>, n: int) -> bool {
    draws.len() == n && forall|i: int|
        0 <= i < n ==> (#[trigger] draws[i]).0 < UNIT_DENOM && draws[i].1 < UNIT_DENOM
}

/// Are all pairwise connectors well-formed for an arena of `n` nodes?
pub open spec fn inters_wf(cs: Seq<InterConnector>, n: int) -> bool {
    forall|i: int| 0 <= i < cs.len() ==> (#[trigger] cs[i]).wf(n)
}

/// Are all unary connectors well-formed for an arena of `n` nodes?
pub open spec fn selfs_wf(cs: Seq<SelfConnector>, n: int) -> bool {
    forall|i: int| 0 <= i < cs.len() ==> (#[trigger] cs[i]).wf(n)
}

/// Does no unary connector target a pinned node? Unary rules do not
/// test the pinned flag, so pinned invariance rests on this property
/// of the mesh, which the builders establish.
pub open spec fn selfs_pin_safe(nodes: Seq<Node<Verlet>>, cs: Seq<SelfConnector>) -> bool {
    forall|i: int|
        0 <= i < cs.len() ==> !nodes[(#[trigger] cs[i]).node as int].data.pinned
}

/// One pairwise application preserves the arena's length, validity and
/// pinned flags, and every pinned node's whole state.
pub proof fn lemma_pair_step_frame(nodes: Seq<Node<Verlet>>, rule: InterRule, prim: int, sec: int)
    requires
        nodes_valid(nodes),
        inter_rule_wf(rule),
        0 <= prim < nodes.len(),
        0 <= sec < nodes.len(),
    ensures
        pair_step(nodes, rule, prim, sec).len() == nodes.len(),
        nodes_valid(pair_step(nodes, rule, prim, sec)),
        forall|i: int|
            0 <= i < nodes.len() ==> (#[trigger] pair_step(nodes, rule, prim, sec)[i]).data.pinned
                == nodes[i].data.pinned,
        forall|i: int|
            0 <= i < nodes.len() && nodes[i].data.pinned ==> (#[trigger] pair_step(
                nodes,
                rule,
                prim,
                sec,
            )[i]).data == nodes[i].data,
{
    lemma_inter_rule_frame(rule, nodes[prim].data, nodes[sec].data);
}

/// `lemma_pair_step_frame`, folded over a connector's secondary list.
pub proof fn lemma_inter_fold_frame(
    nodes: Seq<Node<Verlet>>,
    rule: InterRule,
    prim: int,
    secs: Seq<usize>,
)
    requires
        nodes_valid(nodes),
        inter_rule_wf(rule),
        0 <= prim < nodes.len(),
        forall|j: int| 0 <= j < secs.len() ==> (#[trigger] secs[j]) < nodes.len(),
    ensures
        inter_fold(nodes, rule, prim, secs).len() == nodes.len(),
        nodes_valid(inter_fold(nodes, rule, prim, secs)),
        forall|i: int|
            0 <= i < nodes.len() ==> (#[trigger] inter_fold(nodes, rule, prim, secs)[i]).data.pinned
                == nodes[i].data.pinned,
        forall|i: int|
            0 <= i < nodes.len() && nodes[i].data.pinned ==> (#[trigger] inter_fold(
                nodes,
                rule,
                prim,
                secs,
            )[i]).data == nodes[i].data,
    decreases secs.len(),
{
    if secs.len() > 0 {
        lemma_inter_fold_frame(nodes, rule, prim, secs.drop_last());
        lemma_pair_step_frame(
            inter_fold(nodes, rule, prim, secs.drop_last()),
            rule,
            prim,
            secs.last() as int,
        );
    }
}

/// `lemma_inter_fold_frame`, for one whole connector.
pub proof fn lemma_inter_step_frame(nodes: Seq<Node<Verlet>>, c: &InterConnector)
    requires
        nodes_valid(nodes),
        c.wf(nodes.len() as int),
    ensures
        inter_step(nodes, c).len() == nodes.len(),
        nodes_valid(inter_step(nodes, c)),
        forall|i: int|
            0 <= i < nodes.len() ==> (#[trigger] inter_step(nodes, c)[i]).data.pinned
                == nodes[i].data.pinned,
        forall|i: int|
            0 <= i < nodes.len() && nodes[i].data.pinned ==> (#[trigger] inter_step(
                nodes,
                c,
            )[i]).data == nodes[i].data,
{
    match c.constraints {
        Some(v) => {
            lemma_inter_fold_frame(nodes, c.relation, c.node as int, v@);
        },
        None => {
        },
    }
}

/// `lemma_inter_step_frame`, folded over the connector list.
pub proof fn lemma_inters_fold_frame(nodes: Seq<Node<Verlet>>, cs: Seq<InterConnector>)
    requires
        nodes_valid(nodes),
        inters_wf(cs, nodes.len() as int),
    ensures
        inters_fold(nodes, cs).len() == nodes.len(),
        nodes_valid(inters_fold(nodes, cs)),
        forall|i: int|
            0 <= i < nodes.len() ==> (#[trigger] inters_fold(nodes, cs)[i]).data.pinned
                == nodes[i].data.pinned,
        forall|i: int|
            0 <= i < nodes.len() && nodes[i].data.pinned ==> (#[trigger] inters_fold(
                nodes,
                cs,
            )[i]).data == nodes[i].data,
    decreases cs.len(),
{
    if cs.len() > 0 {
        assert(inters_wf(cs.drop_last(), nodes.len() as int));
        lemma_inters_fold_frame(nodes, cs.drop_last());
        assert(cs.last().wf(nodes.len() as int));
        lemma_inter_step_frame(inters_fold(nodes, cs.drop_last()), &cs.last());
    }
}

/// `lemma_inters_fold_frame`, iterated over `k` sweeps.
pub proof fn lemma_inters_rounds_frame(nodes: Seq<Node<Verlet>>, cs: Seq<InterConnector>, k: nat)
    requires
        nodes_valid(nodes),
        inters_wf(cs, nodes.len() as int),
    ensures
        inters_rounds(nodes, cs, k).len() == nodes.len(),
        nodes_valid(inters_rounds(nodes, cs, k)),
        forall|i: int|
            0 <= i < nodes.len() ==> (#[trigger] inters_rounds(nodes, cs, k)[i]).data.pinned
                == nodes[i].data.pinned,
        forall|i: int|
            0 <= i < nodes.len() && nodes[i].data.pinned ==> (#[trigger] inters_rounds(
                nodes,
                cs,
                k,
            )[i]).data == nodes[i].data,
    decreases k,
{
    if k > 0 {
        lemma_inters_rounds_frame(nodes, cs, (k - 1) as nat);
        lemma_inters_fold_frame(inters_rounds(nodes, cs, (k - 1) as nat), cs);
    }
}

/// One unary application preserves the arena's length, validity and
/// pinned flags; it preserves a pinned node's state when it does not
/// target it.
pub proof fn lemma_self_step_frame(nodes: Seq<Node<Verlet>>, c: SelfConnector, ux: int, uy: int)
    requires
        nodes_valid(nodes),
        c.wf(nodes.len() as int),
    ensures
        self_step(nodes, c, ux, uy).len() == nodes.len(),
        nodes_valid(self_step(nodes, c, ux, uy)),
        forall|i: int|
            0 <= i < nodes.len() ==> (#[trigger] self_step(nodes, c, ux, uy)[i]).data.pinned
                == nodes[i].data.pinned,
        !nodes[c.node as int].data.pinned ==> forall|i: int|
            0 <= i < nodes.len() && nodes[i].data.pinned ==> (#[trigger] self_step(
                nodes,
                c,
                ux,
                uy,
            )[i]).data == nodes[i].data,
{
    lemma_self_rule_frame(c.relation, nodes[c.node as int].data, ux, uy);
}

/// `lemma_self_step_frame`, folded over the unary connector list. The
/// pinned-state clause is pinned invariance: it holds when no unary
/// connector targets a pinned node.
pub proof fn lemma_selfs_fold_frame(
    nodes: Seq<Node<Verlet>>,
    cs: Seq<SelfConnector>,
    draws: Seq<(u64, u64)>,
)
    requires
        nodes_valid(nodes),
        selfs_wf(cs, nodes.len() as int),
        draws.len() == cs.len(),
    ensures
        selfs_fold(nodes, cs, draws).len() == nodes.len(),
        nodes_valid(selfs_fold(nodes, cs, draws)),
        forall|i: int|
            0 <= i < nodes.len() ==> (#[trigger] selfs_fold(nodes, cs, draws)[i]).data.pinned
                == nodes[i].data.pinned,
        selfs_pin_safe(nodes, cs) ==> forall|i: int|
            0 <= i < nodes.len() && nodes[i].data.pinned ==> (#[trigger] selfs_fold(
                nodes,
                cs,
                draws,
            )[i]).data == nodes[i].data,
    decreases cs.len(),
{
    if cs.len() > 0 {
        assert(selfs_wf(cs.drop_last(), nodes.len() as int));
        assert(selfs_pin_safe(nodes, cs) ==> selfs_pin_safe(nodes, cs.drop_last()));
        lemma_selfs_fold_frame(nodes, cs.drop_last(), draws.drop_last());
        let mid = selfs_fold(nodes, cs.drop_last(), draws.drop_last());
        assert(cs.last().wf(nodes.len() as int));
        lemma_self_step_frame(mid, cs.last(), draws.last().0 as int, draws.last().1 as int);
    }
}

/// Pinned invariance: one whole simulation step of a well-formed mesh
/// whose unary constraints all target free nodes keeps every pinned
/// node's state exactly, and every pinned flag, whatever the samples.
pub proof fn lemma_mesh_step_pinned(
    nodes: Seq<Node<Verlet>>,
    inters: Seq<InterConnector>,
    selfs: Seq<SelfConnector>,
    k: nat,
    draws: Seq<(u64, u64)>,
)
    requires
        nodes_valid(nodes),
        inters_wf(inters, nodes.len() as int),
        selfs_wf(selfs, nodes.len() as int),
        draws.len() == selfs.len(),
        selfs_pin_safe(nodes, selfs),
    ensures
        mesh_step(nodes, inters, selfs, k, draws).len() == nodes.len(),
        nodes_valid(mesh_step(nodes, inters, selfs, k, draws)),
        forall|i: int|
            0 <= i < nodes.len() ==> (#[trigger] mesh_step(nodes, inters, selfs, k, draws)[i])
                .data.pinned == nodes[i].data.pinned,
        forall|i: int|
            0 <= i < nodes.len() && nodes[i].data.pinned ==> (#[trigger] mesh_step(
                nodes,
                inters,
                selfs,
                k,
                draws,
            )[i]).data == nodes[i].data,
{
    lemma_inters_rounds_frame(nodes, inters, k);
    let mid = inters_rounds(nodes, inters, k);
    assert(selfs_pin_safe(mid, selfs));
    lemma_selfs_fold_frame(mid, selfs, draws);
}


/// Resolve every pairwise connector once, in list order.
fn resolve_inters(nodes: &mut Vec<Node<Verlet>>, cs: &Vec<InterConnector>)
    requires
        nodes_valid(old(nodes)@),
        inters_wf(cs@, old(nodes)@.len() as int),
    ensures
        final(nodes)@ == inters_fold(old(nodes)@, cs@),
        nodes_valid(final(nodes)@),
        final(nodes)@.len() == old(nodes)@.len(),
{
    let ghost orig = nodes@;
    let n = cs.len();
    for i in 0..n
        invariant
            n == cs@.len(),
            inters_wf(cs@, orig.len() as int),
            nodes_valid(nodes@),
            nodes@.len() == orig.len(),
            nodes@ == inters_fold(orig, cs@.take(i as int)),
    {
        proof {
            assert(cs@[i as int].wf(orig.len() as int));
        }
        cs[i].resolve(nodes);
        proof {
            let pre = inters_fold(orig, cs@.take(i as int));
            lemma_inter_step_frame(pre, &cs@[i as int]);
            assert(cs@.take(i + 1).drop_last() =~= cs@.take(i as int));
            assert(cs@.take(i + 1).last() == cs@[i as int]);
        }
    }
    proof {
        assert(cs@.take(n as int) =~= cs@);
    }
}

/// Resolve every unary connector once, in list order, drawing one
/// sample pair per connector; returns the drawn samples.
fn resolve_selfs(
    nodes: &mut Vec<Node<Verlet>>,
    cs: &Vec<SelfConnector>,
    rng: &mut rand::rngs::StdRng,
) -> (draws: Ghost<Seq<(u64, u64)>>)
    requires
        nodes_valid(old(nodes)@),
        selfs_wf(cs@, old(nodes)@.len() as int),
    ensures
        draws_ok(draws@, cs@.len() as int),
        final(nodes)@ == selfs_fold(old(nodes)@, cs@, draws@),
        nodes_valid(final(nodes)@),
        final(nodes)@.len() == old(nodes)@.len(),
{
    let ghost orig = nodes@;
    let ghost mut ds: Seq<(u64, u64)> = Seq::empty();
    let n = cs.len();
    for i in 0..n
        invariant
            n == cs@.len(),
            selfs_wf(cs@, orig.len() as int),
            nodes_valid(nodes@),
            nodes@.len() == orig.len(),
            ds.len() == i,
            draws_ok(ds, i as int),
            nodes@ == selfs_fold(orig, cs@.take(i as int), ds),
    {
        let ux = crate::rng::draw_unit(rng);
        let uy = crate::rng::draw_unit(rng);
        proof {
            assert(cs@[i as int].wf(orig.len() as int));
            assert(nodes@[cs@[i as int].node as int].data.valid());
        }
        cs[i].resolve(nodes, ux, uy);
        proof {
            let pre = selfs_fold(orig, cs@.take(i as int), ds);
            lemma_self_step_frame(pre, cs@[i as int], ux as int, uy as int);
            let ds2 = ds.push((ux, uy));
            assert(cs@.take(i + 1).drop_last() =~= cs@.take(i as int));
            assert(cs@.take(i + 1).last() == cs@[i as int]);
            assert(ds2.drop_last() =~= ds);
            assert(ds2.last() == (ux, uy));
            ds = ds2;
        }
    }
    proof {
        assert(cs@.take(n as int) =~= cs@);
    }
    Ghost(ds)
}

/// The mesh: the node arena and its two constraint collections.
#[derive(Debug)]
pub struct Mesh {
    pub nodes: Vec<Node<Verlet>>,
    pub interconnectors: Vec<InterConnector>,
    pub selfconnectors: Vec<SelfConnector>,
}

impl Mesh {
    /// Every node state is representable and every connector points
    /// into the arena with representable rule parameters.
    pub open spec fn wf(&self) -> bool {
        &&& nodes_valid(self.nodes@)
        &&& inters_wf(self.interconnectors@, self.nodes@.len() as int)
        &&& selfs_wf(self.selfconnectors@, self.nodes@.len() as int)
    }

    /// No unary constraint targets a pinned node.
    pub open spec fn pin_safe(&self) -> bool {
        selfs_pin_safe(self.nodes@, self.selfconnectors@)
    }

    pub fn new(
        nodes: Vec<Node<Verlet>>,
        interconnectors: Vec<InterConnector>,
        selfconnectors: Vec<SelfConnector>,
    ) -> (m: Mesh)
        ensures
            m.nodes == nodes,
            m.interconnectors == interconnectors,
            m.selfconnectors == selfconnectors,
    {
        Mesh { nodes, interconnectors, selfconnectors }
    }

    /// Advance the simulation one frame: `physics_accuracy` relaxation
    /// sweeps of the pairwise constraints, then one pass of the unary
    /// constraints, drawing wind samples from `rng`. The result is
    /// `mesh_step` of the old arena for some in-range samples; pinned
    /// flags are preserved, and if no unary constraint targets a pinned
    /// node, every pinned node's state is preserved exactly.
    pub fn update(&mut self, physics_accuracy: u8, rng: &mut rand::rngs::StdRng)
        requires
            old(self).wf(),
        ensures
            final(self).wf(),
            final(self).interconnectors@ == old(self).interconnectors@,
            final(self).selfconnectors@ == old(self).selfconnectors@,
            final(self).nodes@.len() == old(self).nodes@.len(),
            forall|i: int|
                0 <= i < old(self).nodes@.len() ==> (#[trigger] final(self).nodes@[i]).data.pinned
                    == old(self).nodes@[i].data.pinned,
            old(self).pin_safe() ==> final(self).pin_safe(),
            old(self).pin_safe() ==> forall|i: int|
                0 <= i < old(self).nodes@.len() && (#[trigger] old(self).nodes@[i]).data.pinned
                    ==> final(self).nodes@[i].data == old(self).nodes@[i].data,
            exists|draws: Seq<(u64, u64)>|
                #[trigger] draws_ok(draws, old(self).selfconnectors@.len() as int)
                    && final(self).nodes@ == mesh_step(
                    old(self).nodes@,
                    old(self).interconnectors@,
                    old(self).selfconnectors@,
                    physics_accuracy as nat,
                    draws,
                ),
    {
        let ghost orig = self.nodes@;
        let ghost inters = self.interconnectors@;
        let ghost selfs = self.selfconnectors@;
        let mut round: u8 = 0;
        while round < physics_accuracy
            invariant
                round <= physics_accuracy,
                orig == old(self).nodes@,
                inters == old(self).interconnectors@,
                selfs == old(self).selfconnectors@,
                self.interconnectors@ == inters,
                self.selfconnectors@ == selfs,
                nodes_valid(orig),
                inters_wf(inters, orig.len() as int),
                selfs_wf(selfs, orig.len() as int),
                nodes_valid(self.nodes@),
                self.nodes@.len() == orig.len(),
                self.nodes@ == inters_rounds(orig, inters, round as nat),
            decreases physics_accuracy as int - round as int,
        {
            resolve_inters(&mut self.nodes, &self.interconnectors);
            proof {
                assert(inters_rounds(orig, inters, (round + 1) as nat) == inters_fold(
                    inters_rounds(orig, inters, round as nat),
                    inters,
                ));
            }
            round = round + 1;
        }
        let draws = resolve_selfs(&mut self.nodes, &self.selfconnectors, rng);
        proof {
            let k = physics_accuracy as nat;
            let mid = inters_rounds(orig, inters, k);
            assert(self.nodes@ == mesh_step(orig, inters, selfs, k, draws@));
            assert(draws_ok(draws@, selfs.len() as int));
            lemma_inters_rounds_frame(orig, inters, k);
            lemma_selfs_fold_frame(mid, selfs, draws@);
            if selfs_pin_safe(orig, selfs) {
                lemma_mesh_step_pinned(orig, inters, selfs, k, draws@);
            }
        }
    }

    /// How many nodes the mesh holds.
    pub fn node_count(&self) -> (n: usize)
        ensures
            n == self.nodes@.len(),
    {
        self.nodes.len()
    }

    /// The position of one node.
    pub fn node_position(&self, idx: usize) -> (p: Point2)
        requires
            idx < self.nodes@.len(),
        ensures
            p == self.nodes@[idx as int].data.position,
    {
        self.nodes[idx].data.position
    }

    /// All node positions, in node-insertion order.
    pub fn read_all_positions(&self) -> (ps: Vec<Point2>)
        ensures
            ps@.len() == self.nodes@.len(),
            forall|i: int|
                0 <= i < self.nodes@.len() ==> (#[trigger] ps@[i]) == self.nodes@[i].data.position,
    {
        let mut ps: Vec<Point2> = Vec::new();
        let n = self.nodes.len();
        for i in 0..n
            invariant
                n == self.nodes@.len(),
                ps@.len() == i,
                forall|k: int|
                    0 <= k < i ==> (#[trigger] ps@[k]) == self.nodes@[k].data.position,
        {
            ps.push(self.nodes[i].data.position);
        }
        ps
    }

    /// How many pairwise connectors the mesh holds.
    pub fn interconnector_count(&self) -> (n: usize)
        ensures
            n == self.interconnectors@.len(),
    {
        self.interconnectors.len()
    }

    /// How many secondaries one pairwise connector holds.
    pub fn interconnector_constraint_count(&self, index: usize) -> (n: usize)
        requires
            index < self.interconnectors@.len(),
        ensures
            n as int == sec_count(self.interconnectors@[index as int]),
    {
        match &self.interconnectors[index].constraints {
            Some(v) => v.len(),
            None => 0,
        }
    }

    /// The positions of a pairwise connector's primary node and of one
    /// of its secondaries; `None` exactly when either index is out of
    /// range or the connector points outside the arena.
    pub fn interconnector_constraint(&self, inter_index: usize, index: usize) -> (pq: Option<
        (Point2, Point2),
    >)
        ensures
            pq matches Some(pair) <==> {
                &&& inter_index < self.interconnectors@.len()
                &&& index < sec_count(self.interconnectors@[inter_index as int])
                &&& (self.interconnectors@[inter_index as int].node as int)
                    < self.nodes@.len()
                &&& (self.interconnectors@[inter_index as int].constraints matches Some(v)
                    && (v@[index as int] as int) < self.nodes@.len())
            },
            pq matches Some(pair) ==> {
                &&& pair.0 == self.nodes@[self.interconnectors@[inter_index as int].node as int]
                    .data.position
                &&& (self.interconnectors@[inter_index as int].constraints matches Some(v)
                    && pair.1 == self.nodes@[v@[index as int] as int].data.position)
            },
    {
        if inter_index >= self.interconnectors.len() {
            return None;
        }
        let c = &self.interconnectors[inter_index];
        if c.node >= self.nodes.len() {
            return None;
        }
        let p = self.nodes[c.node].data.position;
        match &c.constraints {
            Some(v) => {
                if index >= v.len() {
                    return None;
                }
                let sec = v[index];
                if sec >= self.nodes.len() {
                    return None;
                }
                let q = self.nodes[sec].data.position;
                Some((p, q))
            },
            None => None,
        }
    }

    /// Does the mesh satisfy its well-formedness invariant? `update`
    /// asks for it; this check lets an unverified caller establish it
    /// at run time.
    pub fn is_wf(&self) -> (r: bool)
        ensures
            r == self.wf(),
    {
        let n = self.nodes.len();
        let mut i: usize = 0;
        while i < self.nodes.len()
            invariant
                i <= self.nodes@.len(),
                n == self.nodes@.len(),
                forall|k: int| 0 <= k < i ==> (#[trigger] self.nodes@[k]).data.valid(),
            decreases self.nodes@.len() - i,
        {
            let d = self.nodes[i].data;
            if d.position.x < -COORD_LIMIT || d.position.x > COORD_LIMIT || d.position.y
                < -COORD_LIMIT || d.position.y > COORD_LIMIT || d.delta_position.x < -COORD_LIMIT
                || d.delta_position.x > COORD_LIMIT || d.delta_position.y < -COORD_LIMIT
                || d.delta_position.y > COORD_LIMIT {
                proof {
                    assert(!self.nodes@[i as int].data.valid());
                    assert(!self.wf());
                }
                return false;
            }
            i = i + 1;
        }
        let mut i: usize = 0;
        while i < self.interconnectors.len()
            invariant
                i <= self.interconnectors@.len(),
                n == self.nodes@.len(),
                forall|k: int|
                    0 <= k < i ==> (#[trigger] self.interconnectors@[k]).wf(n as int),
            decreases self.interconnectors@.len() - i,
        {
            let c = &self.interconnectors[i];
            if c.node >= n {
                proof {
                    assert(!self.interconnectors@[i as int].wf(n as int));
                    assert(!self.wf());
                }
                return false;
            }
            match c.relation {
                InterRule::Distance { spacing, spring_milli } => {
                    if spacing < 0 || spring_milli == 0 || spring_milli > 1000 {
                        proof {
                            assert(!self.interconnectors@[i as int].wf(n as int));
                            assert(!self.wf());
                        }
                        return false;
                    }
                },
            }
            match &c.constraints {
                Some(v) => {
                    let mut j: usize = 0;
                    while j < v.len()
                        invariant
                            j <= v@.len(),
                            n == self.nodes@.len(),
                            self.interconnectors@[i as int].constraints matches Some(w) && w@
                                == v@,
                            i < self.interconnectors@.len(),
                            forall|k: int| 0 <= k < j ==> (#[trigger] v@[k]) < n,
                        decreases v@.len() - j,
                    {
                        if v[j] >= n {
                            proof {
                                assert(!self.interconnectors@[i as int].wf(n as int));
                                assert(!self.wf());
                            }
                            return false;
                        }
                        j = j + 1;
                    }
                },
                None => {},
            }
            i = i + 1;
        }
        let mut i: usize = 0;
        while i < self.selfconnectors.len()
            invariant
                i <= self.selfconnectors@.len(),
                n == self.nodes@.len(),
                forall|k: int|
                    0 <= k < i ==> (#[trigger] self.selfconnectors@[k]).wf(n as int),
            decreases self.selfconnectors@.len() - i,
        {
            let c = &self.selfconnectors[i];
            if c.node >= n {
                proof {
                    assert(!self.selfconnectors@[i as int].wf(n as int));
                    assert(!self.wf());
                }
                return false;
            }
            match c.relation {
                SelfRule::GroundClamp { boundary } => {
                    if boundary < -COORD_LIMIT || boundary > COORD_LIMIT {
                        proof {
                            assert(!self.selfconnectors@[i as int].wf(n as int));
                            assert(!self.wf());
                        }
                        return false;
                    }
                },
                SelfRule::BoundGravity { dt_micros, gravity, boundary } => {
                    if boundary < -COORD_LIMIT || boundary > COORD_LIMIT {
                        proof {
                            assert(!self.selfconnectors@[i as int].wf(n as int));
                            assert(!self.wf());
                        }
                        return false;
                    }
                },
                _ => {},
            }
            i = i + 1;
        }
        true
    }

    /// Append a node to the arena and hand back its index.
    pub fn add_node(&mut self, data: Verlet) -> (idx: usize)
        ensures
            final(self).nodes@ == old(self).nodes@.push(Node { data }),
            idx == old(self).nodes@.len(),
            final(self).interconnectors@ == old(self).interconnectors@,
            final(self).selfconnectors@ == old(self).selfconnectors@,
            old(self).wf() && data.valid() ==> final(self).wf(),
    {
        let idx = self.nodes.len();
        self.nodes.push(Node::new(data));
        proof {
            if old(self).wf() && data.valid() {
                assert forall|i: int|
                    0 <= i < self.interconnectors@.len() implies (#[trigger] self
                    .interconnectors@[i]).wf(self.nodes@.len() as int) by {
                    assert(self.interconnectors@[i].wf(old(self).nodes@.len() as int));
                }
                assert forall|i: int|
                    0 <= i < self.selfconnectors@.len() implies (#[trigger] self
                    .selfconnectors@[i]).wf(self.nodes@.len() as int) by {
                    assert(self.selfconnectors@[i].wf(old(self).nodes@.len() as int));
                }
            }
        }
        idx
    }

    /// Append a unary constraint.
    pub fn add_self_connector(&mut self, c: SelfConnector)
        ensures
            final(self).selfconnectors@ == old(self).selfconnectors@.push(c),
            final(self).nodes@ == old(self).nodes@,
            final(self).interconnectors@ == old(self).interconnectors@,
            old(self).wf() && c.wf(old(self).nodes@.len() as int) ==> final(self).wf(),
    {
        self.selfconnectors.push(c);
    }

    /// Append a pairwise constraint.
    pub fn add_inter_connector(&mut self, c: InterConnector)
        ensures
            final(self).interconnectors@ == old(self).interconnectors@.push(c),
            final(self).nodes@ == old(self).nodes@,
            final(self).selfconnectors@ == old(self).selfconnectors@,
            old(self).wf() && c.wf(old(self).nodes@.len() as int) ==> final(self).wf(),
    {
        self.interconnectors.push(c);
    }

    /// Remove every unary constraint whose name equals `id`, keeping
    /// the others in order. Matching is by name, which need not be
    /// unique.
    pub fn remove_constraint_by_id(&mut self, id: &str)
        ensures
            final(self).selfconnectors@ == old(self).selfconnectors@.filter(
                |c: SelfConnector| c.name@ != id@,
            ),
            final(self).nodes@ == old(self).nodes@,
            final(self).interconnectors@ == old(self).interconnectors@,
    {
        let key = String::from_str(id);
        let ghost orig = self.selfconnectors@;
        let ghost pred = |c: SelfConnector| c.name@ != id@;
        let mut i: usize = 0;
        let ghost mut j: int = 0;
        proof {
            assert(orig.take(0).filter(pred) =~= Seq::<SelfConnector>::empty()) by {
                assert(orig.take(0) =~= Seq::<SelfConnector>::empty());
                reveal(Seq::filter);
            }
            assert(orig.skip(0) =~= orig);
        }
        while i < self.selfconnectors.len()
            invariant
                0 <= j <= orig.len(),
                self.nodes@ == old(self).nodes@,
                self.interconnectors@ == old(self).interconnectors@,
                self.selfconnectors@ == orig.take(j).filter(pred) + orig.skip(j),
                i as int == orig.take(j).filter(pred).len(),
                forall|c: SelfConnector| #[trigger] pred(c) == (c.name@ != id@),
                key@ == id@,
            decreases orig.len() - j,
        {
            proof {
                assert(orig.skip(j).len() > 0);
                assert(self.selfconnectors@[i as int] == orig.skip(j)[0]);
                assert(orig.skip(j)[0] == orig[j]);
            }
            let matches_name = self.selfconnectors[i].name == key;
            proof {
                assert(pred(orig[j]) == (orig[j].name@ != id@));
                let taken = orig.take(j + 1);
                assert(taken.drop_last() =~= orig.take(j));
                assert(taken.last() == orig[j]);
                assert(taken.filter(pred) == if pred(orig[j]) {
                    orig.take(j).filter(pred).push(orig[j])
                } else {
                    orig.take(j).filter(pred)
                }) by {
                    reveal(Seq::filter);
                }
            }
            if matches_name {
                let _ = self.selfconnectors.remove(i);
                proof {
                    assert(!pred(orig[j]));
                    assert(self.selfconnectors@ =~= orig.take(j + 1).filter(pred) + orig.skip(
                        j + 1,
                    ));
                }
            } else {
                i = i + 1;
                proof {
                    assert(pred(orig[j]));
                    assert(self.selfconnectors@ =~= orig.take(j + 1).filter(pred) + orig.skip(
                        j + 1,
                    ));
                }
            }
            proof {
                j = j + 1;
            }
        }
        proof {
            assert(orig.skip(j).len() == 0);
            assert(j == orig.len());
            assert(orig.take(j) =~= orig);
            assert(self.selfconnectors@ =~= orig.filter(pred));
        }
    }
}

/// How many secondaries a pairwise connector holds.
pub open spec fn sec_count(c: InterConnector) -> int {
    match c.constraints {
        Some(v) => v@.len() as int,
        None => 0,
    }
}


/// A connector well-formed for a small arena is well-formed for a
/// larger one.
pub proof fn lemma_inter_wf_mono(c: &InterConnector, n1: int, n2: int)
    requires
        c.wf(n1),
        n1 <= n2,
    ensures
        c.wf(n2),
{
    match c.constraints {
        Some(v) => {
            assert forall|j: int| 0 <= j < v@.len() implies (#[trigger] v@[j]) < n2 by {
                assert(v@[j] < n1);
            }
        },
        None => {
        },
    }
}

} // verus!
