//! The engine's guarantees, stated and proved over the specifications
//! that the executable functions' contracts use: closure exactness,
//! exactly-once execution, dependency-respecting order, observers after
//! derived nodes, and determinism of construction and update.

use vstd::prelude::*;
use crate::node::{Node, NodeKind, node_ok, strictly_sorted};
use crate::closure::{affected, root_set};
use crate::graph::Graph;
use crate::group::{UpdateOp, op_ok};
use crate::instance::{
    Step, Instance, recompute_steps, invoke_steps, update_steps, update_values, construct_values,
    construct_trace, trace_of,
};

verus! {

/// The node a step is about.
pub open spec fn step_node(s: Step) -> int {
    match s {
        Step::Recomputed { node, value } => node,
        Step::Invoked { node, args } => node,
    }
}

/// How many steps of the trace are about node `j`.
pub open spec fn count_node(steps: Seq<Step>, j: int) -> int
    decreases steps.len(),
{
    if steps.len() == 0 {
        0
    } else {
        count_node(steps.drop_last(), j) + if step_node(steps.last()) == j {
            1int
        } else {
            0int
        }
    }
}

/// How many entries of an index list equal `j`.
pub open spec fn count_idx(order: Seq<usize>, j: usize) -> int
    decreases order.len(),
{
    if order.len() == 0 {
        0
    } else {
        count_idx(order.drop_last(), j) + if order.last() == j {
            1int
        } else {
            0int
        }
    }
}

/// Step counts add up over concatenation.
pub proof fn lemma_count_node_concat(a: Seq<Step>, b: Seq<Step>, j: int)
    ensures
        count_node(a + b, j) == count_node(a, j) + count_node(b, j),
    decreases b.len(),
{
    if b.len() == 0 {
        assert(a + b =~= a);
    } else {
        assert((a + b).drop_last() =~= a + b.drop_last());
        assert((a + b).last() == b.last());
        lemma_count_node_concat(a, b.drop_last(), j);
    }
}

/// Every step of a recomputation segment is a recomputation, one per
/// entry of the order list, about exactly that entry.
pub proof fn lemma_recompute_steps_shape(
    nodes: Seq<Node>,
    state: Seq<i64>,
    ephs: Seq<usize>,
    evals: Seq<i64>,
    order: Seq<usize>,
)
    ensures
        recompute_steps(nodes, state, ephs, evals, order).len() == order.len(),
        forall|k: int|
            0 <= k < order.len() ==> (#[trigger] recompute_steps(
                nodes,
                state,
                ephs,
                evals,
                order,
            )[k] is Recomputed) && step_node(
                recompute_steps(nodes, state, ephs, evals, order)[k],
            ) == order[k] as int,
    decreases order.len(),
{
    if order.len() > 0 {
        lemma_recompute_steps_shape(nodes, state, ephs, evals, order.drop_last());
    }
}

/// A recomputation segment mentions each node as often as the order list
/// does.
pub proof fn lemma_recompute_steps_count(
    nodes: Seq<Node>,
    state: Seq<i64>,
    ephs: Seq<usize>,
    evals: Seq<i64>,
    order: Seq<usize>,
    j: int,
)
    requires
        0 <= j,
        j <= usize::MAX,
    ensures
        count_node(recompute_steps(nodes, state, ephs, evals, order), j) == count_idx(
            order,
            j as usize,
        ),
    decreases order.len(),
{
    if order.len() > 0 {
        let steps = recompute_steps(nodes, state, ephs, evals, order);
        let prev = recompute_steps(nodes, state, ephs, evals, order.drop_last());
        assert(steps.drop_last() =~= prev);
        assert(step_node(steps.last()) == order.last() as int);
        lemma_recompute_steps_count(nodes, state, ephs, evals, order.drop_last(), j);
    }
}

/// An invocation segment mentions each node as often as the order list
/// does, and every one of its steps is an invocation.
pub proof fn lemma_invoke_steps_count(
    nodes: Seq<Node>,
    state: Seq<i64>,
    ephs: Seq<usize>,
    evals: Seq<i64>,
    order: Seq<usize>,
    j: int,
)
    requires
        0 <= j,
        j <= usize::MAX,
    ensures
        count_node(invoke_steps(nodes, state, ephs, evals, order), j) == count_idx(
            order,
            j as usize,
        ),
    decreases order.len(),
{
    if order.len() > 0 {
        assert(invoke_steps(nodes, state, ephs, evals, order).drop_last() =~= invoke_steps(
            nodes,
            state,
            ephs,
            evals,
            order.drop_last(),
        ));
        lemma_invoke_steps_count(nodes, state, ephs, evals, order.drop_last(), j);
    }
}

/// A strictly ascending list holds a value once or not at all.
pub proof fn lemma_count_idx_sorted(order: Seq<usize>, j: usize)
    requires
        strictly_sorted(order),
    ensures
        count_idx(order, j) == if order.contains(j) {
            1int
        } else {
            0int
        },
    decreases order.len(),
{
    if order.len() > 0 {
        let prefix = order.drop_last();
        assert(strictly_sorted(prefix)) by {
            assert forall|a: int, b: int| 0 <= a < b < prefix.len() implies prefix[a]
                < prefix[b] by {
                assert(order[a] < order[b]);
            };
        };
        lemma_count_idx_sorted(prefix, j);
        if order.last() == j {
            if prefix.contains(j) {
                let t = choose|t: int| 0 <= t < prefix.len() && prefix[t] == j;
                assert(order[t] < order.last());
                assert(false);
            }
            assert(order.contains(j)) by {
                assert(order[order.len() - 1] == j);
            };
        } else {
            if order.contains(j) {
                let t = choose|t: int| 0 <= t < order.len() && order[t] == j;
                assert(t < order.len() - 1);
                assert(prefix[t] == j);
                assert(prefix.contains(j));
            }
            if prefix.contains(j) {
                let t = choose|t: int| 0 <= t < prefix.len() && prefix[t] == j;
                assert(order[t] == j);
                assert(order.contains(j));
            }
        }
    }
}

/// Closure minimality: a compiled operation's recompute and notify lists
/// hold a node exactly when the node is reachable from the group's roots
/// over the dependency edges — no node is missed, and none is included
/// without a path from a changed input.
pub proof fn lemma_closure_exact(g: Graph, oi: int, j: int)
    requires
        g.wf(),
        0 <= oi < g.ops@.len(),
        0 <= j < g.nodes@.len(),
    ensures
        g.ops@[oi].recompute@.contains(j as usize) <==> (affected(
            g.nodes@,
            root_set(g.ops@[oi].inputs@),
            j,
        ) && g.nodes@[j].kind == NodeKind::Derived),
        g.ops@[oi].notify@.contains(j as usize) <==> (affected(
            g.nodes@,
            root_set(g.ops@[oi].inputs@),
            j,
        ) && g.nodes@[j].kind == NodeKind::Observer),
{
    assert(op_ok(g.nodes@, g.ops@[oi]));
}

/// One step along a reverse dependency edge stays inside the closure:
/// every dependent of a changed root, and every dependent of a node being
/// recomputed, must itself be recomputed or invoked.
pub proof fn lemma_dependents_edge(g: Graph, roots: Set<int>, i: int, j: int)
    requires
        g.wf(),
        0 <= i < g.nodes@.len(),
        0 <= j < g.nodes@.len(),
        g.nodes@[i].dependents@.contains(j as usize),
        roots.contains(i) || (g.nodes@[i].kind == NodeKind::Derived && affected(
            g.nodes@,
            roots,
            i,
        )),
    ensures
        affected(g.nodes@, roots, j),
{
    let nodes = g.nodes@;
    vstd::std_specs::vec::axiom_spec_len(&g.nodes);
    assert(i <= usize::MAX);
    assert(nodes[j].params@.contains(i as usize));
    let k = choose|k: int| 0 <= k < nodes[j].params@.len() && nodes[j].params@[k] == (i as usize);
    assert(node_ok(nodes, j));
    assert(nodes[j].params@[k] < j);
    assert(nodes[j].params@[k] as int == i);
    assert(nodes[j].params@.len() > 0);
    assert(nodes[j].kind == NodeKind::Derived || nodes[j].kind == NodeKind::Observer);
    let p = nodes[j].params@[k] as int;
    assert(roots.contains(p) || (0 <= p && p < j && nodes[p].kind == NodeKind::Derived
        && affected(nodes, roots, p)));
}

/// Exactly-once: in the trace one update call records, a node reachable
/// from the roots appears exactly once — however many paths lead to it —
/// and an unreachable node does not appear at all.
pub proof fn lemma_exactly_once(
    g: Graph,
    oi: int,
    state: Seq<i64>,
    nivals: Seq<i64>,
    evals: Seq<i64>,
    j: int,
)
    requires
        g.wf(),
        0 <= oi < g.ops@.len(),
        0 <= j < g.nodes@.len(),
    ensures
        count_node(update_steps(g.nodes@, g.ops@[oi], state, nivals, evals), j) == if affected(
            g.nodes@,
            root_set(g.ops@[oi].inputs@),
            j,
        ) {
            1int
        } else {
            0int
        },
{
    let op = g.ops@[oi];
    assert(op_ok(g.nodes@, op));
    vstd::std_specs::vec::axiom_spec_len(&g.nodes);
    assert(j <= usize::MAX);
    let nodes = g.nodes@;
    let written = crate::instance::write_inputs(state, op.inputs@, nivals);
    let settled = update_values(nodes, op, state, nivals, evals);
    let rsteps = recompute_steps(nodes, written, op.ephemerals@, evals, op.recompute@);
    let isteps = invoke_steps(nodes, settled, op.ephemerals@, evals, op.notify@);
    lemma_count_node_concat(rsteps, isteps, j);
    lemma_recompute_steps_count(nodes, written, op.ephemerals@, evals, op.recompute@, j);
    lemma_invoke_steps_count(nodes, settled, op.ephemerals@, evals, op.notify@, j);
    lemma_count_idx_sorted(op.recompute@, j as usize);
    lemma_count_idx_sorted(op.notify@, j as usize);
    lemma_closure_exact(g, oi, j);
}

/// Order respects dependency: when one entry of an operation's recompute
/// list is a parameter of another, it stands strictly earlier in the
/// list, so it is recomputed strictly before its reader.
pub proof fn lemma_order_respects_dependency(g: Graph, oi: int, ka: int, kb: int)
    requires
        g.wf(),
        0 <= oi < g.ops@.len(),
        0 <= ka < g.ops@[oi].recompute@.len(),
        0 <= kb < g.ops@[oi].recompute@.len(),
        g.nodes@[g.ops@[oi].recompute@[kb] as int].params@.contains(g.ops@[oi].recompute@[ka]),
    ensures
        ka < kb,
{
    let op = g.ops@[oi];
    assert(op_ok(g.nodes@, op));
    let a = op.recompute@[ka];
    let b = op.recompute@[kb];
    assert(node_ok(g.nodes@, b as int));
    let t = choose|t: int|
        0 <= t < g.nodes@[b as int].params@.len() && g.nodes@[b as int].params@[t] == a;
    assert(g.nodes@[b as int].params@[t] < b);
    assert(a < b);
    if kb < ka {
        assert(op.recompute@[kb] < op.recompute@[ka]);
        assert(false);
    }
    if kb == ka {
        assert(false);
    }
}

/// Observer after derived: in the trace one update call records, every
/// observer invocation stands after every derived recomputation.
pub proof fn lemma_observer_after_derived(
    nodes: Seq<Node>,
    op: UpdateOp,
    state: Seq<i64>,
    nivals: Seq<i64>,
    evals: Seq<i64>,
    x: int,
    y: int,
)
    requires
        0 <= x < update_steps(nodes, op, state, nivals, evals).len(),
        0 <= y < update_steps(nodes, op, state, nivals, evals).len(),
        update_steps(nodes, op, state, nivals, evals)[x] is Invoked,
        update_steps(nodes, op, state, nivals, evals)[y] is Recomputed,
    ensures
        y < x,
{
    let written = crate::instance::write_inputs(state, op.inputs@, nivals);
    let settled = update_values(nodes, op, state, nivals, evals);
    let rsteps = recompute_steps(nodes, written, op.ephemerals@, evals, op.recompute@);
    let isteps = invoke_steps(nodes, settled, op.ephemerals@, evals, op.notify@);
    lemma_recompute_steps_shape(nodes, written, op.ephemerals@, evals, op.recompute@);
    let steps = update_steps(nodes, op, state, nivals, evals);
    assert(steps == rsteps + isteps);
    if x < rsteps.len() {
        assert(steps[x] == rsteps[x]);
        assert(steps[x] is Recomputed);
        assert(false);
    }
    if y >= rsteps.len() {
        assert(steps[y] == isteps[y - rsteps.len()]);
        assert(steps[y] is Invoked);
        assert(false);
    }
}

/// Observer after derived, at construction: in the trace the initial
/// full evaluation records, every observer invocation stands after every
/// derived recomputation.
pub proof fn lemma_observer_after_derived_at_construction(
    nodes: Seq<Node>,
    ivals: Seq<i64>,
    evals: Seq<i64>,
    x: int,
    y: int,
)
    requires
        0 <= x < construct_trace(nodes, ivals, evals).len(),
        0 <= y < construct_trace(nodes, ivals, evals).len(),
        construct_trace(nodes, ivals, evals)[x] is Invoked,
        construct_trace(nodes, ivals, evals)[y] is Recomputed,
    ensures
        y < x,
{
    let state0 = crate::instance::init_state(nodes, ivals);
    let ephs = crate::instance::all_ephemerals(nodes);
    let rsteps = recompute_steps(nodes, state0, ephs, evals, crate::instance::all_derived(nodes));
    let isteps = invoke_steps(
        nodes,
        construct_values(nodes, ivals, evals),
        ephs,
        evals,
        crate::instance::all_observers(nodes),
    );
    lemma_recompute_steps_shape(nodes, state0, ephs, evals, crate::instance::all_derived(nodes));
    let steps = construct_trace(nodes, ivals, evals);
    assert(steps == rsteps + isteps);
    if x < rsteps.len() {
        assert(steps[x] == rsteps[x]);
        assert(steps[x] is Recomputed);
        assert(false);
    }
    if y >= rsteps.len() {
        assert(steps[y] == isteps[y - rsteps.len()]);
        assert(steps[y] is Invoked);
        assert(false);
    }
}

/// Idempotent construction: two instances constructed from identical
/// input and ephemeral values hold identical derived values and record
/// identical traces — the same recomputed values and the same observer
/// invocation argument sequences, in the same order.
pub proof fn lemma_idempotent_construction(
    g: Graph,
    ivals: Seq<i64>,
    evals: Seq<i64>,
    a: Instance,
    b: Instance,
)
    requires
        a.values@ == construct_values(g.nodes@, ivals, evals),
        trace_of(a.events@) == construct_trace(g.nodes@, ivals, evals),
        b.values@ == construct_values(g.nodes@, ivals, evals),
        trace_of(b.events@) == construct_trace(g.nodes@, ivals, evals),
    ensures
        a.values@ == b.values@,
        trace_of(a.events@) == trace_of(b.events@),
{
}

/// Update-group determinism: applying the same operation with the same
/// arguments to the same starting state settles on the same stored values
/// and records the same trace, both times.
pub proof fn lemma_update_deterministic(
    g: Graph,
    oi: int,
    state: Seq<i64>,
    nivals: Seq<i64>,
    evals: Seq<i64>,
    a: Instance,
    b: Instance,
)
    requires
        0 <= oi < g.ops@.len(),
        a.values@ == update_values(g.nodes@, g.ops@[oi], state, nivals, evals),
        b.values@ == update_values(g.nodes@, g.ops@[oi], state, nivals, evals),
        trace_of(a.events@) == update_steps(g.nodes@, g.ops@[oi], state, nivals, evals),
        trace_of(b.events@) == update_steps(g.nodes@, g.ops@[oi], state, nivals, evals),
    ensures
        a.values@ == b.values@,
        trace_of(a.events@) == trace_of(b.events@),
{
}

} // verus!
