//! A graph instance: the stored input and derived values, the full
//! construction-time evaluation, and the execution of compiled update
//! operations. Every recomputation and observer invocation is recorded in
//! an event trace, which is the instance's observable behaviour.

use vstd::prelude::*;
use crate::node::{
    Node, NodeKind, node_ok, nodes_ok, kind_list, count_kind, eval_expr, eval,
};
use crate::group::UpdateOp;
use crate::graph::Graph;

verus! {

/// One recorded step of execution: a derived node recomputed to a value,
/// or an observer invoked with its argument values.
#[derive(Debug, PartialEq)]
pub enum Event {
    Recompute { node: usize, value: i64 },
    Invoke { node: usize, args: Vec<i64> },
}

/// The mathematical shape of an event.
pub enum Step {
    Recomputed { node: int, value: i64 },
    Invoked { node: int, args: Seq<i64> },
}

/// The step an event records.
pub open spec fn step_of(e: Event) -> Step {
    match e {
        Event::Recompute { node, value } => Step::Recomputed { node: node as int, value },
        Event::Invoke { node, args } => Step::Invoked { node: node as int, args: args@ },
    }
}

/// The recorded trace, as steps.
pub open spec fn trace_of(tr: Seq<Event>) -> Seq<Step> {
    tr.map_values(|e: Event| step_of(e))
}

/// The position of the first occurrence of `x`.
pub open spec fn pos_of(s: Seq<usize>, x: usize) -> int
    decreases s.len(),
{
    if s.len() == 0 {
        0
    } else if s[0] == x {
        0
    } else {
        1 + pos_of(s.drop_first(), x)
    }
}

/// `pos_of` finds exactly the first occurrence.
pub proof fn lemma_pos_of_first(s: Seq<usize>, x: usize, k: int)
    requires
        0 <= k < s.len(),
        s[k] == x,
        forall|t: int| 0 <= t < k ==> s[t] != x,
    ensures
        pos_of(s, x) == k,
    decreases k,
{
    if k > 0 {
        assert(s[0] != x);
        assert forall|t: int| 0 <= t < k - 1 implies s.drop_first()[t] != x by {
            assert(s.drop_first()[t] == s[t + 1]);
        };
        lemma_pos_of_first(s.drop_first(), x, k - 1);
    }
}

/// The value node `p` shows during execution: an ephemeral parameter reads
/// the value supplied for it in this call, every other node reads its
/// stored value.
pub open spec fn param_val(
    nodes: Seq<Node>,
    state: Seq<i64>,
    ephs: Seq<usize>,
    evals: Seq<i64>,
    p: int,
) -> i64 {
    if nodes[p].kind == NodeKind::Ephemeral {
        if ephs.contains(p as usize) {
            evals[pos_of(ephs, p as usize)]
        } else {
            0
        }
    } else {
        state[p]
    }
}

/// The argument values node `i` is computed or invoked with.
pub open spec fn args_of(
    nodes: Seq<Node>,
    state: Seq<i64>,
    ephs: Seq<usize>,
    evals: Seq<i64>,
    i: int,
) -> Seq<i64> {
    Seq::new(
        nodes[i].params@.len(),
        |k: int| param_val(nodes, state, ephs, evals, nodes[i].params@[k] as int),
    )
}

/// The stored state after recomputing the listed nodes in order, each one
/// reading the values settled by the recomputations before it.
pub open spec fn run_recompute(
    nodes: Seq<Node>,
    state: Seq<i64>,
    ephs: Seq<usize>,
    evals: Seq<i64>,
    order: Seq<usize>,
) -> Seq<i64>
    decreases order.len(),
{
    if order.len() == 0 {
        state
    } else {
        let prev = run_recompute(nodes, state, ephs, evals, order.drop_last());
        let i = order.last() as int;
        prev.update(i, eval_expr(nodes[i].expr, args_of(nodes, prev, ephs, evals, i)))
    }
}

/// The steps recorded while recomputing the listed nodes in order.
pub open spec fn recompute_steps(
    nodes: Seq<Node>,
    state: Seq<i64>,
    ephs: Seq<usize>,
    evals: Seq<i64>,
    order: Seq<usize>,
) -> Seq<Step>
    decreases order.len(),
{
    if order.len() == 0 {
        Seq::empty()
    } else {
        let prev = run_recompute(nodes, state, ephs, evals, order.drop_last());
        let i = order.last() as int;
        recompute_steps(nodes, state, ephs, evals, order.drop_last()).push(
            (Step::Recomputed {
                node: i,
                value: eval_expr(nodes[i].expr, args_of(nodes, prev, ephs, evals, i)),
            }),
        )
    }
}

/// The steps recorded while invoking the listed observers in order, each
/// reading the fully settled state.
pub open spec fn invoke_steps(
    nodes: Seq<Node>,
    state: Seq<i64>,
    ephs: Seq<usize>,
    evals: Seq<i64>,
    order: Seq<usize>,
) -> Seq<Step> {
    Seq::new(
        order.len(),
        |k: int| (Step::Invoked {
            node: order[k] as int,
            args: args_of(nodes, state, ephs, evals, order[k] as int),
        }),
    )
}

/// Looks up the value supplied for ephemeral node `p` in this call.
fn lookup_eph(ephs: &Vec<usize>, evals: &Vec<i64>, p: usize) -> (v: i64)
    requires
        evals@.len() == ephs@.len(),
    ensures
        v == (if ephs@.contains(p) {
            evals@[pos_of(ephs@, p)]
        } else {
            0
        }),
{
    let mut k: usize = 0;
    while k < ephs.len()
        invariant
            evals@.len() == ephs@.len(),
            k <= ephs@.len(),
            forall|t: int| 0 <= t < k ==> ephs@[t] != p,
        decreases ephs@.len() - k,
    {
        if ephs[k] == p {
            proof {
                lemma_pos_of_first(ephs@, p, k as int);
                assert(ephs@.contains(p));
            }
            return evals[k];
        }
        k += 1;
    }
    proof {
        if ephs@.contains(p) {
            let t = choose|t: int| 0 <= t < ephs@.len() && ephs@[t] == p;
            assert(false);
        }
    }
    0
}

/// Builds the argument list node `j` is computed or invoked with: stored
/// values for input and derived parameters, call-supplied values for
/// ephemeral parameters.
fn assemble_args(
    nodes: &Vec<Node>,
    values: &Vec<i64>,
    ephs: &Vec<usize>,
    evals: &Vec<i64>,
    j: usize,
) -> (args: Vec<i64>)
    requires
        nodes_ok(nodes@),
        j < nodes@.len(),
        values@.len() == nodes@.len(),
        evals@.len() == ephs@.len(),
    ensures
        args@ == args_of(nodes@, values@, ephs@, evals@, j as int),
{
    let mut args: Vec<i64> = Vec::new();
    let plen = nodes[j].params.len();
    let mut t: usize = 0;
    while t < plen
        invariant
            nodes_ok(nodes@),
            j < nodes@.len(),
            values@.len() == nodes@.len(),
            evals@.len() == ephs@.len(),
            t <= plen,
            plen == nodes@[j as int].params@.len(),
            args@.len() == t,
            forall|u: int|
                0 <= u < t ==> #[trigger] args@[u] == param_val(
                    nodes@,
                    values@,
                    ephs@,
                    evals@,
                    nodes@[j as int].params@[u] as int,
                ),
        decreases plen - t,
    {
        let p = nodes[j].params[t];
        proof {
            assert(node_ok(nodes@, j as int));
            assert(nodes@[j as int].params@[t as int] < j);
        }
        if nodes[p].kind == NodeKind::Ephemeral {
            let v = lookup_eph(ephs, evals, p);
            args.push(v);
        } else {
            args.push(values[p]);
        }
        t += 1;
    }
    proof {
        assert(args@ =~= args_of(nodes@, values@, ephs@, evals@, j as int));
    }
    args
}

/// Collects the indices of all nodes of one kind, ascending.
fn kind_indices(nodes: &Vec<Node>, kind: NodeKind) -> (r: Vec<usize>)
    ensures
        r@ == kind_list(nodes@, kind, nodes@.len() as int),
{
    let n = nodes.len();
    let mut r: Vec<usize> = Vec::new();
    let mut i: usize = 0;
    while i < n
        invariant
            n == nodes@.len(),
            i <= n,
            r@ == kind_list(nodes@, kind, i as int),
        decreases n - i,
    {
        if nodes[i].kind == kind {
            r.push(i);
        }
        proof {
            assert(r@ == kind_list(nodes@, kind, i as int + 1));
        }
        i += 1;
    }
    r
}

/// Recomputes the listed nodes in order against the stored values,
/// recording one event for each.
fn run_recompute_exec(
    nodes: &Vec<Node>,
    values: &mut Vec<i64>,
    events: &mut Vec<Event>,
    ephs: &Vec<usize>,
    evals: &Vec<i64>,
    order: &Vec<usize>,
)
    requires
        nodes_ok(nodes@),
        old(values)@.len() == nodes@.len(),
        evals@.len() == ephs@.len(),
        forall|t: int| 0 <= t < order@.len() ==> #[trigger] order@[t] < nodes@.len(),
    ensures
        final(values)@ == run_recompute(nodes@, old(values)@, ephs@, evals@, order@),
        final(values)@.len() == nodes@.len(),
        trace_of(final(events)@) == trace_of(old(events)@) + recompute_steps(
            nodes@,
            old(values)@,
            ephs@,
            evals@,
            order@,
        ),
{
    let mut k: usize = 0;
    while k < order.len()
        invariant
            nodes_ok(nodes@),
            evals@.len() == ephs@.len(),
            forall|t: int| 0 <= t < order@.len() ==> #[trigger] order@[t] < nodes@.len(),
            k <= order@.len(),
            values@.len() == nodes@.len(),
            values@ == run_recompute(nodes@, old(values)@, ephs@, evals@, order@.take(k as int)),
            trace_of(events@) == trace_of(old(events)@) + recompute_steps(
                nodes@,
                old(values)@,
                ephs@,
                evals@,
                order@.take(k as int),
            ),
        decreases order@.len() - k,
    {
        let ghost pre_vals = values@;
        let ghost pre_events = events@;
        let i = order[k];
        let args = assemble_args(nodes, values, ephs, evals, i);
        let v = eval(&nodes[i].expr, &args);
        values[i] = v;
        events.push(Event::Recompute { node: i, value: v });
        proof {
            order@.lemma_take_succ_push(k as int);
            assert(order@.take(k as int + 1).drop_last() =~= order@.take(k as int));
            assert(order@.take(k as int + 1).last() == order@[k as int]);
            assert(values@ == run_recompute(
                nodes@,
                old(values)@,
                ephs@,
                evals@,
                order@.take(k as int + 1),
            ));
            assert(trace_of(events@) =~= trace_of(pre_events).push(
                step_of(Event::Recompute { node: i, value: v }),
            ));
            assert(trace_of(events@) =~= trace_of(old(events)@) + recompute_steps(
                nodes@,
                old(values)@,
                ephs@,
                evals@,
                order@.take(k as int + 1),
            ));
        }
        k += 1;
    }
    proof {
        assert(order@.take(order@.len() as int) =~= order@);
    }
}

/// Invokes the listed observers in order against the settled values,
/// recording one event, with the argument values handed over, for each.
fn run_notify_exec(
    nodes: &Vec<Node>,
    values: &Vec<i64>,
    events: &mut Vec<Event>,
    ephs: &Vec<usize>,
    evals: &Vec<i64>,
    order: &Vec<usize>,
)
    requires
        nodes_ok(nodes@),
        values@.len() == nodes@.len(),
        evals@.len() == ephs@.len(),
        forall|t: int| 0 <= t < order@.len() ==> #[trigger] order@[t] < nodes@.len(),
    ensures
        trace_of(final(events)@) == trace_of(old(events)@) + invoke_steps(
            nodes@,
            values@,
            ephs@,
            evals@,
            order@,
        ),
{
    let mut k: usize = 0;
    while k < order.len()
        invariant
            nodes_ok(nodes@),
            values@.len() == nodes@.len(),
            evals@.len() == ephs@.len(),
            forall|t: int| 0 <= t < order@.len() ==> #[trigger] order@[t] < nodes@.len(),
            k <= order@.len(),
            trace_of(events@) == trace_of(old(events)@) + invoke_steps(
                nodes@,
                values@,
                ephs@,
                evals@,
                order@,
            ).take(k as int),
        decreases order@.len() - k,
    {
        let ghost pre_events = events@;
        let i = order[k];
        let args = assemble_args(nodes, values, ephs, evals, i);
        events.push(Event::Invoke { node: i, args });
        proof {
            assert(trace_of(events@) =~= trace_of(pre_events).push(
                (Step::Invoked {
                    node: i as int,
                    args: args_of(nodes@, values@, ephs@, evals@, i as int),
                }),
            ));
            assert(invoke_steps(nodes@, values@, ephs@, evals@, order@).take(k as int + 1)
                =~= invoke_steps(nodes@, values@, ephs@, evals@, order@).take(k as int).push(
                (Step::Invoked {
                    node: order@[k as int] as int,
                    args: args_of(nodes@, values@, ephs@, evals@, order@[k as int] as int),
                }),
            ));
            assert(trace_of(events@) =~= trace_of(old(events)@) + invoke_steps(
                nodes@,
                values@,
                ephs@,
                evals@,
                order@,
            ).take(k as int + 1));
        }
        k += 1;
    }
    proof {
        assert(invoke_steps(nodes@, values@, ephs@, evals@, order@).take(order@.len() as int)
            =~= invoke_steps(nodes@, values@, ephs@, evals@, order@));
    }
}

/// The stored state before the first evaluation: each input holds the
/// value supplied for it (in declaration order of the inputs), every other
/// slot holds zero until it is computed.
pub open spec fn init_state(nodes: Seq<Node>, ivals: Seq<i64>) -> Seq<i64> {
    Seq::new(
        nodes.len(),
        |i: int| if nodes[i].kind == NodeKind::Input {
            ivals[count_kind(nodes, NodeKind::Input, i)]
        } else {
            0
        },
    )
}

/// Counting over a longer prefix never counts fewer nodes.
pub proof fn lemma_count_kind_mono(nodes: Seq<Node>, kind: NodeKind, a: int, b: int)
    requires
        a <= b,
    ensures
        count_kind(nodes, kind, a) <= count_kind(nodes, kind, b),
    decreases b - a,
{
    if a < b {
        lemma_count_kind_mono(nodes, kind, a, b - 1);
    }
}

/// All ephemeral nodes, ascending; the values handed to construction are
/// listed in this order.
pub open spec fn all_ephemerals(nodes: Seq<Node>) -> Seq<usize> {
    kind_list(nodes, NodeKind::Ephemeral, nodes.len() as int)
}

/// All derived nodes, ascending: the construction-time recomputation
/// order.
pub open spec fn all_derived(nodes: Seq<Node>) -> Seq<usize> {
    kind_list(nodes, NodeKind::Derived, nodes.len() as int)
}

/// All observers, ascending: the construction-time invocation order.
pub open spec fn all_observers(nodes: Seq<Node>) -> Seq<usize> {
    kind_list(nodes, NodeKind::Observer, nodes.len() as int)
}

/// The stored values after construction: every derived node computed once
/// in ascending order over the supplied input and ephemeral values.
pub open spec fn construct_values(nodes: Seq<Node>, ivals: Seq<i64>, evals: Seq<i64>) -> Seq<
    i64,
> {
    run_recompute(nodes, init_state(nodes, ivals), all_ephemerals(nodes), evals, all_derived(nodes))
}

/// The trace construction records: every derived node recomputed, in
/// ascending order, then every observer invoked, in ascending order.
pub open spec fn construct_trace(nodes: Seq<Node>, ivals: Seq<i64>, evals: Seq<i64>) -> Seq<
    Step,
> {
    recompute_steps(
        nodes,
        init_state(nodes, ivals),
        all_ephemerals(nodes),
        evals,
        all_derived(nodes),
    ) + invoke_steps(
        nodes,
        construct_values(nodes, ivals, evals),
        all_ephemerals(nodes),
        evals,
        all_observers(nodes),
    )
}

/// The stored state after writing the new input values of one update
/// call, before any recomputation.
pub open spec fn write_inputs(state: Seq<i64>, idxs: Seq<usize>, vals: Seq<i64>) -> Seq<i64>
    decreases idxs.len(),
{
    if idxs.len() == 0 {
        state
    } else {
        write_inputs(state, idxs.drop_last(), vals.drop_last()).update(
            idxs.last() as int,
            vals.last(),
        )
    }
}

/// The stored values after one update call: the new input values written,
/// then the operation's recompute list applied in order.
pub open spec fn update_values(
    nodes: Seq<Node>,
    op: UpdateOp,
    state: Seq<i64>,
    nivals: Seq<i64>,
    evals: Seq<i64>,
) -> Seq<i64> {
    run_recompute(
        nodes,
        write_inputs(state, op.inputs@, nivals),
        op.ephemerals@,
        evals,
        op.recompute@,
    )
}

/// The trace one update call records: the operation's recompute list
/// applied in order, then its notify list invoked in order against the
/// settled state.
pub open spec fn update_steps(
    nodes: Seq<Node>,
    op: UpdateOp,
    state: Seq<i64>,
    nivals: Seq<i64>,
    evals: Seq<i64>,
) -> Seq<Step> {
    recompute_steps(
        nodes,
        write_inputs(state, op.inputs@, nivals),
        op.ephemerals@,
        evals,
        op.recompute@,
    ) + invoke_steps(
        nodes,
        update_values(nodes, op, state, nivals, evals),
        op.ephemerals@,
        evals,
        op.notify@,
    )
}

/// A live graph instance: the stored value of every input and derived
/// node (one slot per declaration index; ephemeral and observer slots are
/// unused and stay zero), and the trace of every recomputation and
/// observer invocation so far.
#[derive(Debug)]
pub struct Instance {
    pub values: Vec<i64>,
    pub events: Vec<Event>,
}

impl Instance {
    /// Builds an instance by one full forward evaluation: the inputs take
    /// the supplied values (in declaration order of the inputs), every
    /// derived node is computed once in ascending order reading the
    /// supplied ephemeral values (in declaration order of the ephemerals),
    /// and every observer is invoked once in ascending order against the
    /// settled state.
    pub fn construct(g: &Graph, ivals: &Vec<i64>, evals: &Vec<i64>) -> (inst: Instance)
        requires
            g.wf(),
            ivals@.len() == count_kind(g.nodes@, NodeKind::Input, g.nodes@.len() as int),
            evals@.len() == count_kind(g.nodes@, NodeKind::Ephemeral, g.nodes@.len() as int),
        ensures
            inst.values@.len() == g.nodes@.len(),
            inst.values@ == construct_values(g.nodes@, ivals@, evals@),
            trace_of(inst.events@) == construct_trace(g.nodes@, ivals@, evals@),
    {
        let n = g.nodes.len();
        let ilen = ivals.len();
        let mut values: Vec<i64> = Vec::new();
        let mut cnt: usize = 0;
        let mut i: usize = 0;
        while i < n
            invariant
                g.wf(),
                n == g.nodes@.len(),
                ivals@.len() == ilen,
                ivals@.len() == count_kind(g.nodes@, NodeKind::Input, n as int),
                i <= n,
                cnt == count_kind(g.nodes@, NodeKind::Input, i as int),
                values@.len() == i,
                forall|u: int|
                    0 <= u < i ==> #[trigger] values@[u] == init_state(g.nodes@, ivals@)[u],
            decreases n - i,
        {
            if g.nodes[i].kind == NodeKind::Input {
                proof {
                    lemma_count_kind_mono(g.nodes@, NodeKind::Input, i as int + 1, n as int);
                    assert(count_kind(g.nodes@, NodeKind::Input, i as int + 1) == cnt + 1);
                }
                values.push(ivals[cnt]);
                cnt += 1;
            } else {
                values.push(0);
                proof {
                    assert(count_kind(g.nodes@, NodeKind::Input, i as int + 1) == cnt as int);
                }
            }
            i += 1;
        }
        proof {
            assert(values@ =~= init_state(g.nodes@, ivals@));
        }
        let ephs = kind_indices(&g.nodes, NodeKind::Ephemeral);
        let derived = kind_indices(&g.nodes, NodeKind::Derived);
        let observers = kind_indices(&g.nodes, NodeKind::Observer);
        proof {
            lemma_kind_list_in_range(g.nodes@, NodeKind::Ephemeral, n as int);
            lemma_kind_list_in_range(g.nodes@, NodeKind::Derived, n as int);
            lemma_kind_list_in_range(g.nodes@, NodeKind::Observer, n as int);
        }
        let mut events: Vec<Event> = Vec::new();
        proof {
            assert(trace_of(events@) =~= Seq::<Step>::empty());
        }
        run_recompute_exec(&g.nodes, &mut values, &mut events, &ephs, evals, &derived);
        run_notify_exec(&g.nodes, &values, &mut events, &ephs, evals, &observers);
        proof {
            assert(trace_of(events@) =~= construct_trace(g.nodes@, ivals@, evals@));
        }
        Instance { values, events }
    }

    /// Applies one compiled update operation: writes the new input values
    /// (listed in the order of the operation's root list), recomputes
    /// exactly the operation's recompute list in ascending order, then
    /// invokes exactly its notify list in ascending order, reading
    /// ephemeral parameters from the call's own arguments (listed in the
    /// order of the operation's ephemeral list).
    pub fn apply(
        &mut self,
        g: &Graph,
        op_index: usize,
        nivals: &Vec<i64>,
        evals: &Vec<i64>,
    )
        requires
            g.wf(),
            op_index < g.ops@.len(),
            old(self).values@.len() == g.nodes@.len(),
            nivals@.len() == g.ops@[op_index as int].inputs@.len(),
            evals@.len() == g.ops@[op_index as int].ephemerals@.len(),
        ensures
            final(self).values@.len() == g.nodes@.len(),
            final(self).values@ == update_values(
                g.nodes@,
                g.ops@[op_index as int],
                old(self).values@,
                nivals@,
                evals@,
            ),
            trace_of(final(self).events@) == trace_of(old(self).events@) + update_steps(
                g.nodes@,
                g.ops@[op_index as int],
                old(self).values@,
                nivals@,
                evals@,
            ),
    {
        let ghost op = g.ops@[op_index as int];
        proof {
            assert(crate::group::op_ok(g.nodes@, op));
        }
        let ilen = g.ops[op_index].inputs.len();
        let mut k: usize = 0;
        while k < ilen
            invariant
                g.wf(),
                op_index < g.ops@.len(),
                op == g.ops@[op_index as int],
                crate::group::op_ok(g.nodes@, op),
                nivals@.len() == op.inputs@.len(),
                ilen == op.inputs@.len(),
                k <= ilen,
                self.values@.len() == g.nodes@.len(),
                self.events@ == old(self).events@,
                self.values@ == write_inputs(
                    old(self).values@,
                    op.inputs@.take(k as int),
                    nivals@.take(k as int),
                ),
            decreases ilen - k,
        {
            let idx = g.ops[op_index].inputs[k];
            let v = nivals[k];
            self.values[idx] = v;
            proof {
                op.inputs@.lemma_take_succ_push(k as int);
                nivals@.lemma_take_succ_push(k as int);
                assert(op.inputs@.take(k as int + 1).drop_last() =~= op.inputs@.take(k as int));
                assert(nivals@.take(k as int + 1).drop_last() =~= nivals@.take(k as int));
                assert(self.values@ == write_inputs(
                    old(self).values@,
                    op.inputs@.take(k as int + 1),
                    nivals@.take(k as int + 1),
                ));
            }
            k += 1;
        }
        proof {
            assert(op.inputs@.take(op.inputs@.len() as int) =~= op.inputs@);
            assert(nivals@.take(nivals@.len() as int) =~= nivals@);
            assert(self.values@ == write_inputs(old(self).values@, op.inputs@, nivals@));
        }
        let ghost written = self.values@;
        let ghost base_trace = trace_of(self.events@);
        run_recompute_exec(
            &g.nodes,
            &mut self.values,
            &mut self.events,
            &g.ops[op_index].ephemerals,
            evals,
            &g.ops[op_index].recompute,
        );
        run_notify_exec(
            &g.nodes,
            &self.values,
            &mut self.events,
            &g.ops[op_index].ephemerals,
            evals,
            &g.ops[op_index].notify,
        );
        proof {
            assert(trace_of(self.events@) =~= trace_of(old(self).events@) + update_steps(
                g.nodes@,
                op,
                old(self).values@,
                nivals@,
                evals@,
            ));
        }
    }

    /// The current stored value of an input or derived node. Ephemeral
    /// and observer nodes hold no persistent value, so no accessor exists
    /// for them.
    pub fn get(&self, g: &Graph, idx: usize) -> (v: i64)
        requires
            idx < g.nodes@.len(),
            self.values@.len() == g.nodes@.len(),
            g.nodes@[idx as int].kind == NodeKind::Input || g.nodes@[idx as int].kind
                == NodeKind::Derived,
        ensures
            v == self.values@[idx as int],
    {
        self.values[idx]
    }
}

/// Every index a kind list collects lies below its bound.
pub proof fn lemma_kind_list_in_range(nodes: Seq<Node>, kind: NodeKind, end: int)
    requires
        end <= usize::MAX,
    ensures
        forall|t: int|
            0 <= t < kind_list(nodes, kind, end).len() ==> #[trigger] kind_list(
                nodes,
                kind,
                end,
            )[t] < end,
    decreases end,
{
    if end > 0 {
        lemma_kind_list_in_range(nodes, kind, end - 1);
        let prev = kind_list(nodes, kind, end - 1);
        let cur = kind_list(nodes, kind, end);
        assert forall|t: int| 0 <= t < cur.len() implies cur[t] < end by {
            if nodes[end - 1].kind == kind {
                assert(cur == prev.push((end - 1) as usize));
                if t < prev.len() {
                    assert(prev[t] < end - 1);
                } else {
                    assert(cur[t] == (end - 1) as usize);
                }
            } else {
                assert(cur == prev);
            }
        };
    }
}

} // verus!
