//! The graph under construction: the node table, the name registry, and
//! the compiled update operations. Declarations are the only mutation path
//! for the topology; all node declarations precede all update-group
//! declarations, so every compiled operation stays exact for the table.

use vstd::prelude::*;
use crate::node::{
    Node, NodeKind, Expr, ParamRef, nodes_ok, node_ok, deps_ok, name_exists, strictly_sorted,
    same_except_dependents, named_non_observer, named_observer,
};
use crate::registry::{registry_entries, registry_new, registry_insert, registry_get};
use crate::group::{UpdateOp, ops_ok};
use crate::GraphError;

verus! {

/// The registry agrees with the node table: every declared name is
/// registered under its declaration index, and nothing else is registered.
pub open spec fn registry_ok(
    m: indexmap::IndexMap<String, usize>,
    nodes: Seq<Node>,
) -> bool {
    &&& forall|i: int|
        0 <= i < nodes.len() ==> registry_entries(m).dom().contains(#[trigger] nodes[i].name@)
            && registry_entries(m)[nodes[i].name@] == i as usize
    &&& forall|s: Seq<char>| #[trigger] registry_entries(m).dom().contains(s) ==> name_exists(
        nodes,
        s,
    )
}

/// A dependency graph being built: its nodes in declaration order, the
/// name registry, and the update operations compiled so far.
pub struct Graph {
    pub nodes: Vec<Node>,
    pub registry: indexmap::IndexMap<String, usize>,
    pub ops: Vec<UpdateOp>,
}

impl Graph {
    /// The graph invariant: a well-formed node table, a registry that
    /// matches it exactly, and exact compiled operations.
    pub open spec fn wf(self) -> bool {
        &&& nodes_ok(self.nodes@)
        &&& registry_ok(self.registry, self.nodes@)
        &&& ops_ok(self.nodes@, self.ops@)
    }

    /// An empty graph.
    pub fn new() -> (g: Graph)
        ensures
            g.wf(),
            g.nodes@.len() == 0,
            g.ops@.len() == 0,
    {
        let g = Graph { nodes: Vec::new(), registry: registry_new(), ops: Vec::new() };
        proof {
            assert(g.nodes@.len() == 0);
        }
        g
    }

    /// How many nodes the graph holds.
    pub fn node_count(&self) -> (n: usize)
        ensures
            n == self.nodes@.len(),
    {
        self.nodes.len()
    }

    /// The kind of node `i`.
    pub fn node_kind(&self, i: usize) -> (k: NodeKind)
        requires
            i < self.nodes@.len(),
        ensures
            k == self.nodes@[i as int].kind,
    {
        self.nodes[i].kind
    }

    /// The name of node `i`.
    pub fn node_name(&self, i: usize) -> (s: &String)
        requires
            i < self.nodes@.len(),
        ensures
            s@ == self.nodes@[i as int].name@,
    {
        &self.nodes[i].name
    }

    /// The value-type descriptor of node `i`. The engine carries it
    /// through for the back end; it takes no part in evaluation.
    pub fn node_ty(&self, i: usize) -> (s: &String)
        requires
            i < self.nodes@.len(),
        ensures
            s@ == self.nodes@[i as int].ty@,
    {
        &self.nodes[i].ty
    }

    /// The parameter indices of node `i`, in declared order.
    pub fn node_params(&self, i: usize) -> (p: &Vec<usize>)
        requires
            i < self.nodes@.len(),
        ensures
            p@ == self.nodes@[i as int].params@,
    {
        &self.nodes[i].params
    }

    /// The dependents of node `i`: every node that lists it as a
    /// parameter, ascending.
    pub fn node_dependents(&self, i: usize) -> (d: &Vec<usize>)
        requires
            i < self.nodes@.len(),
        ensures
            d@ == self.nodes@[i as int].dependents@,
    {
        &self.nodes[i].dependents
    }

    /// How many update operations have been compiled.
    pub fn op_count(&self) -> (n: usize)
        ensures
            n == self.ops@.len(),
    {
        self.ops.len()
    }

    /// The derived name of operation `a`.
    pub fn op_name(&self, a: usize) -> (s: &String)
        requires
            a < self.ops@.len(),
        ensures
            s@ == self.ops@[a as int].name@,
    {
        &self.ops[a].name
    }

    /// The root inputs of operation `a`, ascending.
    pub fn op_inputs(&self, a: usize) -> (v: &Vec<usize>)
        requires
            a < self.ops@.len(),
        ensures
            v@ == self.ops@[a as int].inputs@,
    {
        &self.ops[a].inputs
    }

    /// The ephemerals whose values a call of operation `a` must supply,
    /// ascending, each exactly once.
    pub fn op_ephemerals(&self, a: usize) -> (v: &Vec<usize>)
        requires
            a < self.ops@.len(),
        ensures
            v@ == self.ops@[a as int].ephemerals@,
    {
        &self.ops[a].ephemerals
    }

    /// The derived nodes operation `a` recomputes, in execution order.
    pub fn op_recompute(&self, a: usize) -> (v: &Vec<usize>)
        requires
            a < self.ops@.len(),
        ensures
            v@ == self.ops@[a as int].recompute@,
    {
        &self.ops[a].recompute
    }

    /// The observers operation `a` invokes, in execution order.
    pub fn op_notify(&self, a: usize) -> (v: &Vec<usize>)
        requires
            a < self.ops@.len(),
        ensures
            v@ == self.ops@[a as int].notify@,
    {
        &self.ops[a].notify
    }

    /// How many nodes of one kind the graph holds; construction takes one
    /// value per input and one per ephemeral, in declaration order.
    pub fn count_of_kind(&self, kind: NodeKind) -> (c: usize)
        ensures
            c == crate::node::count_kind(self.nodes@, kind, self.nodes@.len() as int),
    {
        let n = self.nodes.len();
        let mut cnt: usize = 0;
        let mut i: usize = 0;
        while i < n
            invariant
                n == self.nodes@.len(),
                i <= n,
                cnt <= i,
                cnt == crate::node::count_kind(self.nodes@, kind, i as int),
            decreases n - i,
        {
            if self.nodes[i].kind == kind {
                cnt += 1;
            }
            proof {
                assert(crate::node::count_kind(self.nodes@, kind, i as int + 1) == cnt as int);
            }
            i += 1;
        }
        cnt
    }

    /// Looks a name up in the registry. Returns the declaration index of
    /// the node carrying the name, or `None` when no node does.
    pub fn resolve(&self, name: &String) -> (r: Option<usize>)
        requires
            self.wf(),
        ensures
            match r {
                Some(i) => i < self.nodes@.len() && self.nodes@[i as int].name@ == name@,
                None => !name_exists(self.nodes@, name@),
            },
    {
        let n = self.nodes.len();
        let r = registry_get(&self.registry, name);
        proof {
            match r {
                Some(i) => {
                    assert(name_exists(self.nodes@, name@));
                    let j = choose|j: int|
                        0 <= j < self.nodes@.len() && self.nodes@[j].name@ == name@;
                    assert(registry_entries(self.registry)[self.nodes@[j].name@] == j as usize);
                    assert(0 <= j < n);
                    assert(i == j as usize);
                    assert(i as int == j);
                },
                None => {
                    if name_exists(self.nodes@, name@) {
                        let j = choose|j: int|
                            0 <= j < self.nodes@.len() && self.nodes@[j].name@ == name@;
                        assert(registry_entries(self.registry).dom().contains(
                            self.nodes@[j].name@,
                        ));
                    }
                },
            }
        }
        r
    }

    /// Registers a node that carries no parameters: an input or an
    /// ephemeral.
    fn declare_plain(&mut self, name: String, ty: String, kind: NodeKind) -> (r: Result<
        usize,
        GraphError,
    >)
        requires
            old(self).wf(),
            old(self).ops@.len() == 0,
            kind == NodeKind::Input || kind == NodeKind::Ephemeral,
        ensures
            final(self).wf(),
            final(self).ops@.len() == 0,
            match r {
                Ok(i) => {
                    &&& !name_exists(old(self).nodes@, name@)
                    &&& i == old(self).nodes@.len()
                    &&& final(self).nodes@.len() == old(self).nodes@.len() + 1
                    &&& (forall|j: int|
                        0 <= j < old(self).nodes@.len() ==> #[trigger] final(self).nodes@[j]
                            == old(self).nodes@[j])
                    &&& final(self).nodes@[i as int].name@ == name@
                    &&& final(self).nodes@[i as int].ty@ == ty@
                    &&& final(self).nodes@[i as int].kind == kind
                    &&& final(self).nodes@[i as int].params@.len() == 0
                    &&& final(self).nodes@[i as int].dependents@.len() == 0
                },
                Err(e) => {
                    &&& e == GraphError::DuplicateName
                    &&& name_exists(old(self).nodes@, name@)
                    &&& *final(self) == *old(self)
                },
            },
    {
        match registry_get(&self.registry, &name) {
            Some(_) => {
                proof {
                    assert(name_exists(self.nodes@, name@));
                }
                Err(GraphError::DuplicateName)
            },
            None => {
                proof {
                    assert forall|j: int|
                        0 <= j < self.nodes@.len() implies #[trigger] self.nodes@[j].name@
                        != name@ by {
                        assert(registry_entries(self.registry).dom().contains(
                            self.nodes@[j].name@,
                        ));
                    };
                }
                let idx = self.nodes.len();
                registry_insert(&mut self.registry, name.clone(), idx);
                let node = Node {
                    name,
                    ty,
                    kind,
                    params: Vec::new(),
                    by_ref: Vec::new(),
                    expr: Expr::Const(0),
                    dependents: Vec::new(),
                };
                proof {
                    assert(node.params@.len() == 0);
                    assert(node.dependents@.len() == 0);
                }
                self.nodes.push(node);
                proof {
                    let n0 = old(self).nodes@;
                    let n1 = self.nodes@;
                    assert(n1.len() == n0.len() + 1);
                    assert forall|j: int| 0 <= j < n1.len() implies node_ok(n1, j) by {
                        if j < n0.len() {
                            assert(node_ok(n0, j));
                            assert(n1[j] == n0[j]);
                            assert forall|k: int|
                                0 <= k < n1[j].params@.len() implies #[trigger] n1[j].params@[k]
                                < j && n1[n1[j].params@[k] as int].kind
                                != NodeKind::Observer by {
                                assert(n0[j].params@[k] < j);
                                assert(n1[n0[j].params@[k] as int] == n0[n0[j].params@[k] as int]);
                            };
                        }
                    };
                    assert(deps_ok(n1)) by {
                        assert forall|i: int, j: int|
                            0 <= i < n1.len() && 0 <= j < n1.len() implies (#[trigger] n1[
                            i
                        ].dependents@.contains(j as usize) <==> #[trigger] n1[
                            j
                        ].params@.contains(i as usize)) by {
                            if i < n0.len() && j < n0.len() {
                                assert(n0[i].dependents@.contains(j as usize) <==> n0[
                                    j
                                ].params@.contains(i as usize));
                            } else if i == n0.len() {
                                assert(n1[i].dependents@.len() == 0);
                                if n1[j].params@.contains(i as usize) {
                                    let k = choose|k: int|
                                        0 <= k < n1[j].params@.len() && n1[j].params@[k] == (
                                        i as usize);
                                    if j < n0.len() {
                                        assert(node_ok(n1, j));
                                        assert(n1[j].params@[k] < j);
                                    }
                                    assert(false);
                                }
                            } else {
                                assert(j == n0.len());
                                assert(n1[j].params@.len() == 0);
                                if n1[i].dependents@.contains(j as usize) {
                                    let k = choose|k: int|
                                        0 <= k < n1[i].dependents@.len() && n1[i].dependents@[k]
                                            == (j as usize);
                                    assert(n0[i].dependents@[k] < n0.len());
                                    assert(false);
                                }
                            }
                        };
                    };
                    assert(registry_ok(self.registry, n1)) by {
                        assert(registry_entries(self.registry) == registry_entries(
                            old(self).registry,
                        ).insert(name@, idx));
                        assert forall|s: Seq<char>|
                            #[trigger] registry_entries(self.registry).dom().contains(
                                s,
                            ) implies name_exists(n1, s) by {
                            if s == name@ {
                                assert(n1[idx as int].name@ == s);
                            } else {
                                assert(registry_entries(old(self).registry).dom().contains(s));
                                let j = choose|j: int|
                                    0 <= j < n0.len() && n0[j].name@ == s;
                                assert(n1[j].name@ == s);
                            }
                        };
                    };
                }
                Ok(idx)
            },
        }
    }

    /// Registers a node that carries parameters — a derived node or an
    /// observer — and inserts its index into the reverse index of every
    /// parameter node, each exactly once even when a parameter repeats.
    fn commit_node(
        &mut self,
        name: String,
        ty: String,
        kind: NodeKind,
        params: Vec<usize>,
        by_ref: Vec<bool>,
        expr: Expr,
    ) -> (idx: usize)
        requires
            old(self).wf(),
            old(self).ops@.len() == 0,
            kind == NodeKind::Derived || kind == NodeKind::Observer,
            !name_exists(old(self).nodes@, name@),
            by_ref@.len() == params@.len(),
            forall|k: int|
                0 <= k < params@.len() ==> #[trigger] params@[k] < old(self).nodes@.len()
                    && old(self).nodes@[params@[k] as int].kind != NodeKind::Observer,
        ensures
            final(self).wf(),
            final(self).ops@.len() == 0,
            idx == old(self).nodes@.len(),
            final(self).nodes@.len() == old(self).nodes@.len() + 1,
            forall|j: int|
                0 <= j < old(self).nodes@.len() ==> same_except_dependents(
                    #[trigger] final(self).nodes@[j],
                    old(self).nodes@[j],
                ),
            final(self).nodes@[idx as int].name@ == name@,
            final(self).nodes@[idx as int].ty@ == ty@,
            final(self).nodes@[idx as int].kind == kind,
            final(self).nodes@[idx as int].params@ == params@,
            final(self).nodes@[idx as int].by_ref@ == by_ref@,
            final(self).nodes@[idx as int].expr == expr,
    {
        broadcast use vstd::seq_lib::lemma_seq_contains_after_push;

        let idx = self.nodes.len();
        registry_insert(&mut self.registry, name.clone(), idx);
        let node = Node { name, ty, kind, params, by_ref, expr, dependents: Vec::new() };
        self.nodes.push(node);
        let ghost old_n = old(self).nodes@;
        let ghost mid = self.nodes@;
        let ghost reg1 = self.registry;
        let pcount = self.nodes[idx].params.len();
        let mut k: usize = 0;
        while k < pcount
            invariant
                idx == old_n.len(),
                mid.len() == old_n.len() + 1,
                self.nodes@.len() == mid.len(),
                k <= pcount,
                pcount == mid[idx as int].params@.len(),
                self.nodes@[idx as int] == mid[idx as int],
                self.registry == reg1,
                self.ops@ == old(self).ops@,
                nodes_ok(old_n),
                forall|j: int| 0 <= j < old_n.len() ==> #[trigger] mid[j] == old_n[j],
                forall|t: int| 0 <= t < pcount ==> #[trigger] mid[idx as int].params@[t] < idx,
                forall|j: int|
                    0 <= j < mid.len() ==> same_except_dependents(
                        #[trigger] self.nodes@[j],
                        mid[j],
                    ),
                self.nodes@[idx as int].dependents@ == mid[idx as int].dependents@,
                forall|i: int|
                    0 <= i < idx && mid[idx as int].params@.take(k as int).contains(i as usize)
                        ==> #[trigger] self.nodes@[i].dependents@ == mid[
                        i
                    ].dependents@.push(idx),
                forall|i: int|
                    0 <= i < idx && !mid[idx as int].params@.take(k as int).contains(i as usize)
                        ==> #[trigger] self.nodes@[i].dependents@ == mid[i].dependents@,
            decreases pcount - k,
        {
            let ghost pre = self.nodes@;
            let p = self.nodes[idx].params[k];
            proof {
                assert(p == mid[idx as int].params@[k as int]);
                assert(p < idx);
                assert(mid[p as int] == old_n[p as int]);
                assert(deps_ok(old_n));
                assert(forall|t: int|
                    0 <= t < old_n[p as int].dependents@.len() ==> #[trigger] old_n[
                        p as int
                    ].dependents@[t] < idx);
            }
            let dlen = self.nodes[p].dependents.len();
            let mut already = false;
            if dlen > 0 {
                if self.nodes[p].dependents[dlen - 1] == idx {
                    already = true;
                }
            }
            proof {
                assert(already == mid[idx as int].params@.take(k as int).contains(p)) by {
                    if mid[idx as int].params@.take(k as int).contains(p) {
                        assert(self.nodes@[p as int].dependents@ == mid[
                            p as int
                        ].dependents@.push(idx));
                    } else {
                        assert(self.nodes@[p as int].dependents@ == mid[p as int].dependents@);
                    }
                };
            }
            if !already {
                let nref = &mut self.nodes[p];
                nref.dependents.push(idx);
            }
            proof {
                mid[idx as int].params@.lemma_take_succ_push(k as int);
                assert(mid[idx as int].params@.take(k as int + 1) == mid[
                    idx as int
                ].params@.take(k as int).push(p));
                assert forall|i: int|
                    0 <= i < idx && mid[idx as int].params@.take(k as int + 1).contains(
                        i as usize,
                    ) implies #[trigger] self.nodes@[i].dependents@ == mid[
                    i
                ].dependents@.push(idx) by {
                    vstd::seq_lib::lemma_seq_contains_after_push(
                        mid[idx as int].params@.take(k as int),
                        p,
                        i as usize,
                    );
                    if i == p as int && !mid[idx as int].params@.take(k as int).contains(
                        i as usize,
                    ) {
                        assert(pre[i].dependents@ == mid[i].dependents@);
                        assert(self.nodes@[i].dependents@ == pre[i].dependents@.push(idx));
                    }
                };
                assert forall|i: int|
                    0 <= i < idx && !mid[idx as int].params@.take(k as int + 1).contains(
                        i as usize,
                    ) implies #[trigger] self.nodes@[i].dependents@ == mid[
                    i
                ].dependents@ by {
                    vstd::seq_lib::lemma_seq_contains_after_push(
                        mid[idx as int].params@.take(k as int),
                        p,
                        i as usize,
                    );
                    assert(i != p as int);
                    assert(self.nodes@[i] == pre[i]);
                };
            }
            k += 1;
        }
        proof {
            let n1 = self.nodes@;
            assert(mid[idx as int].params@.take(pcount as int) =~= mid[idx as int].params@);
            let ps = mid[idx as int].params@;
            assert forall|j: int| 0 <= j < n1.len() implies node_ok(n1, j) by {
                if j < idx {
                    assert(node_ok(old_n, j));
                    assert(same_except_dependents(n1[j], mid[j]));
                    assert(mid[j] == old_n[j]);
                    assert forall|t: int|
                        0 <= t < n1[j].params@.len() implies #[trigger] n1[j].params@[t] < j
                        && n1[n1[j].params@[t] as int].kind != NodeKind::Observer by {
                        assert(old_n[j].params@[t] < j);
                        let q = n1[j].params@[t] as int;
                        assert(same_except_dependents(n1[q], mid[q]));
                        assert(mid[q] == old_n[q]);
                    };
                } else {
                    assert(j == idx);
                    assert(same_except_dependents(n1[idx as int], mid[idx as int]));
                    assert forall|t: int|
                        0 <= t < n1[idx as int].params@.len() implies #[trigger] n1[
                        idx as int
                    ].params@[t] < idx && n1[n1[idx as int].params@[t] as int].kind
                        != NodeKind::Observer by {
                        let q = n1[idx as int].params@[t] as int;
                        assert(ps[t] < idx);
                        assert(same_except_dependents(n1[q], mid[q]));
                        assert(mid[q] == old_n[q]);
                        assert(old_n[q].kind != NodeKind::Observer);
                    };
                }
            };
            assert forall|i: int, j: int|
                0 <= i < j < n1.len() implies #[trigger] n1[i].name@ != #[trigger] n1[
                j
            ].name@ by {
                assert(same_except_dependents(n1[i], mid[i]));
                assert(same_except_dependents(n1[j], mid[j]));
                if j < idx {
                    assert(old_n[i].name@ != old_n[j].name@);
                } else {
                    assert(n1[i].name@ == old_n[i].name@);
                    if n1[i].name@ == n1[j].name@ {
                        assert(name_exists(old_n, mid[idx as int].name@));
                    }
                }
            };
            assert(deps_ok(n1)) by {
                assert forall|i: int|
                    0 <= i < n1.len() implies strictly_sorted(
                    #[trigger] n1[i].dependents@,
                ) by {
                    if i < idx {
                        assert(strictly_sorted(old_n[i].dependents@));
                        assert(forall|t: int|
                            0 <= t < old_n[i].dependents@.len() ==> #[trigger] old_n[
                                i
                            ].dependents@[t] < idx);
                        if ps.contains(i as usize) {
                            assert(n1[i].dependents@ == old_n[i].dependents@.push(idx));
                        } else {
                            assert(n1[i].dependents@ == old_n[i].dependents@);
                        }
                    } else {
                        assert(n1[i].dependents@.len() == 0);
                    }
                };
                assert forall|i: int, t: int|
                    0 <= i < n1.len() && 0 <= t < n1[i].dependents@.len() implies #[trigger] n1[
                    i
                ].dependents@[t] < n1.len() by {
                    if i < idx {
                        if ps.contains(i as usize) {
                            assert(n1[i].dependents@ == old_n[i].dependents@.push(idx));
                        } else {
                            assert(n1[i].dependents@ == old_n[i].dependents@);
                        }
                    }
                };
                assert forall|i: int, j: int|
                    0 <= i < n1.len() && 0 <= j < n1.len() implies (#[trigger] n1[
                    i
                ].dependents@.contains(j as usize) <==> #[trigger] n1[j].params@.contains(
                    i as usize,
                )) by {
                    if i < idx {
                        if ps.contains(i as usize) {
                            assert(n1[i].dependents@ == old_n[i].dependents@.push(idx));
                        } else {
                            assert(n1[i].dependents@ == old_n[i].dependents@);
                        }
                        if j < idx {
                            assert(n1[j].params@ == old_n[j].params@);
                            assert(old_n[i].dependents@.contains(j as usize) <==> old_n[
                                j
                            ].params@.contains(i as usize));
                            assert(forall|t: int|
                                0 <= t < old_n[i].dependents@.len() ==> #[trigger] old_n[
                                    i
                                ].dependents@[t] < idx);
                            if ps.contains(i as usize) {
                                assert(n1[i].dependents@.contains(j as usize) <==> (old_n[
                                    i
                                ].dependents@.contains(j as usize) || j == idx));
                            }
                        } else {
                            assert(j == idx);
                            assert(n1[j].params@ == ps);
                            if ps.contains(i as usize) {
                                assert(n1[i].dependents@.contains(idx as usize));
                            } else {
                                assert(forall|t: int|
                                    0 <= t < old_n[i].dependents@.len() ==> #[trigger] old_n[
                                        i
                                    ].dependents@[t] < idx);
                                assert(!n1[i].dependents@.contains(j as usize));
                            }
                        }
                    } else {
                        assert(i == idx);
                        assert(n1[i].dependents@.len() == 0);
                        assert(!n1[i].dependents@.contains(j as usize));
                        if j < idx {
                            assert(n1[j].params@ == old_n[j].params@);
                            if n1[j].params@.contains(i as usize) {
                                let t = choose|t: int|
                                    0 <= t < old_n[j].params@.len() && old_n[j].params@[t] == (
                                    i as usize);
                                assert(node_ok(old_n, j));
                                assert(old_n[j].params@[t] < j);
                                assert(false);
                            }
                        } else {
                            if n1[j].params@.contains(i as usize) {
                                let t = choose|t: int|
                                    0 <= t < ps.len() && ps[t] == (i as usize);
                                assert(ps[t] < idx);
                                assert(false);
                            }
                        }
                    }
                };
            };
            assert(registry_ok(self.registry, n1)) by {
                assert(registry_entries(self.registry) == registry_entries(
                    old(self).registry,
                ).insert(mid[idx as int].name@, idx));
                assert forall|i: int|
                    0 <= i < n1.len() implies registry_entries(self.registry).dom().contains(
                    #[trigger] n1[i].name@,
                ) && registry_entries(self.registry)[n1[i].name@] == i as usize by {
                    assert(same_except_dependents(n1[i], mid[i]));
                    if i < idx {
                        assert(n1[i].name@ == old_n[i].name@);
                        if n1[i].name@ == mid[idx as int].name@ {
                            assert(name_exists(old_n, mid[idx as int].name@));
                        }
                    }
                };
                assert forall|s: Seq<char>|
                    #[trigger] registry_entries(self.registry).dom().contains(
                        s,
                    ) implies name_exists(n1, s) by {
                    if s == mid[idx as int].name@ {
                        assert(n1[idx as int].name@ == s);
                    } else {
                        assert(registry_entries(old(self).registry).dom().contains(s));
                        let j = choose|j: int| 0 <= j < old_n.len() && old_n[j].name@ == s;
                        assert(same_except_dependents(n1[j], mid[j]));
                        assert(n1[j].name@ == s);
                    }
                };
            };
            assert forall|j: int|
                0 <= j < old_n.len() implies same_except_dependents(
                #[trigger] n1[j],
                old_n[j],
            ) by {
                assert(same_except_dependents(n1[j], mid[j]));
                assert(mid[j] == old_n[j]);
            };
        }
        idx
    }

    /// Declares an input node: a stored value, mutable only through an
    /// update operation that names it. Fails with `DuplicateName` exactly
    /// when the name is already declared.
    pub fn declare_input(&mut self, name: String, ty: String) -> (r: Result<usize, GraphError>)
        requires
            old(self).wf(),
            old(self).ops@.len() == 0,
        ensures
            final(self).wf(),
            final(self).ops@.len() == 0,
            match r {
                Ok(i) => {
                    &&& !name_exists(old(self).nodes@, name@)
                    &&& i == old(self).nodes@.len()
                    &&& final(self).nodes@.len() == old(self).nodes@.len() + 1
                    &&& (forall|j: int|
                        0 <= j < old(self).nodes@.len() ==> #[trigger] final(self).nodes@[j]
                            == old(self).nodes@[j])
                    &&& final(self).nodes@[i as int].name@ == name@
                    &&& final(self).nodes@[i as int].ty@ == ty@
                    &&& final(self).nodes@[i as int].kind == NodeKind::Input
                    &&& final(self).nodes@[i as int].params@.len() == 0
                    &&& final(self).nodes@[i as int].dependents@.len() == 0
                },
                Err(e) => {
                    &&& e == GraphError::DuplicateName
                    &&& name_exists(old(self).nodes@, name@)
                    &&& *final(self) == *old(self)
                },
            },
    {
        self.declare_plain(name, ty, NodeKind::Input)
    }

    /// Declares an ephemeral node: a value supplied fresh on every call
    /// that needs it, never stored. Fails with `DuplicateName` exactly
    /// when the name is already declared.
    pub fn declare_ephemeral(&mut self, name: String, ty: String) -> (r: Result<
        usize,
        GraphError,
    >)
        requires
            old(self).wf(),
            old(self).ops@.len() == 0,
        ensures
            final(self).wf(),
            final(self).ops@.len() == 0,
            match r {
                Ok(i) => {
                    &&& !name_exists(old(self).nodes@, name@)
                    &&& i == old(self).nodes@.len()
                    &&& final(self).nodes@.len() == old(self).nodes@.len() + 1
                    &&& (forall|j: int|
                        0 <= j < old(self).nodes@.len() ==> #[trigger] final(self).nodes@[j]
                            == old(self).nodes@[j])
                    &&& final(self).nodes@[i as int].name@ == name@
                    &&& final(self).nodes@[i as int].ty@ == ty@
                    &&& final(self).nodes@[i as int].kind == NodeKind::Ephemeral
                    &&& final(self).nodes@[i as int].params@.len() == 0
                    &&& final(self).nodes@[i as int].dependents@.len() == 0
                },
                Err(e) => {
                    &&& e == GraphError::DuplicateName
                    &&& name_exists(old(self).nodes@, name@)
                    &&& *final(self) == *old(self)
                },
            },
    {
        self.declare_plain(name, ty, NodeKind::Ephemeral)
    }

    /// Declares a derived node: a memoized value recomputed from the named
    /// parameters by the given expression. Fails with `DuplicateName` when
    /// the node's own name is taken; otherwise the parameters are examined
    /// in order and the first offending one decides: `UnknownReference`
    /// when no node carries the name, `InvalidDependency` when the named
    /// node is an observer. On failure the graph is unchanged.
    pub fn declare_derived(
        &mut self,
        name: String,
        ty: String,
        param_names: &Vec<String>,
        expr: Expr,
    ) -> (r: Result<usize, GraphError>)
        requires
            old(self).wf(),
            old(self).ops@.len() == 0,
        ensures
            final(self).wf(),
            final(self).ops@.len() == 0,
            match r {
                Ok(i) => {
                    &&& !name_exists(old(self).nodes@, name@)
                    &&& forall|t: int|
                        0 <= t < param_names@.len() ==> named_non_observer(
                            old(self).nodes@,
                            #[trigger] param_names@[t]@,
                        )
                    &&& i == old(self).nodes@.len()
                    &&& final(self).nodes@.len() == old(self).nodes@.len() + 1
                    &&& (forall|j: int|
                        0 <= j < old(self).nodes@.len() ==> same_except_dependents(
                            #[trigger] final(self).nodes@[j],
                            old(self).nodes@[j],
                        ))
                    &&& final(self).nodes@[i as int].name@ == name@
                    &&& final(self).nodes@[i as int].ty@ == ty@
                    &&& final(self).nodes@[i as int].kind == NodeKind::Derived
                    &&& final(self).nodes@[i as int].expr == expr
                    &&& final(self).nodes@[i as int].params@.len() == param_names@.len()
                    &&& (forall|t: int|
                        0 <= t < param_names@.len() ==> #[trigger] final(self).nodes@[
                            i as int
                        ].params@[t] < i && old(self).nodes@[
                            final(self).nodes@[i as int].params@[t] as int
                        ].name@ == param_names@[t]@)
                },
                Err(e) => {
                    &&& *final(self) == *old(self)
                    &&& (e == GraphError::DuplicateName <==> name_exists(
                        old(self).nodes@,
                        name@,
                    ))
                    &&& (e == GraphError::UnknownReference ==> exists|k: int|
                        0 <= k < param_names@.len() && !name_exists(
                            old(self).nodes@,
                            #[trigger] param_names@[k]@,
                        ) && (forall|t: int|
                            0 <= t < k ==> named_non_observer(
                                old(self).nodes@,
                                #[trigger] param_names@[t]@,
                            )))
                    &&& (e == GraphError::InvalidDependency ==> exists|k: int|
                        0 <= k < param_names@.len() && named_observer(
                            old(self).nodes@,
                            #[trigger] param_names@[k]@,
                        ) && (forall|t: int|
                            0 <= t < k ==> named_non_observer(
                                old(self).nodes@,
                                #[trigger] param_names@[t]@,
                            )))
                    &&& (e == GraphError::DuplicateName || e == GraphError::UnknownReference
                        || e == GraphError::InvalidDependency)
                },
            },
    {
        match registry_get(&self.registry, &name) {
            Some(_) => {
                proof {
                    assert(name_exists(self.nodes@, name@));
                }
                return Err(GraphError::DuplicateName);
            },
            None => {
                proof {
                    assert forall|j: int|
                        0 <= j < self.nodes@.len() implies #[trigger] self.nodes@[j].name@
                        != name@ by {
                        assert(registry_entries(self.registry).dom().contains(
                            self.nodes@[j].name@,
                        ));
                    };
                }
            },
        }
        let mut resolved: Vec<usize> = Vec::new();
        let mut bref: Vec<bool> = Vec::new();
        let mut k: usize = 0;
        while k < param_names.len()
            invariant
                self.wf(),
                self == old(self),
                self.ops@.len() == 0,
                !name_exists(self.nodes@, name@),
                k <= param_names@.len(),
                resolved@.len() == k,
                bref@.len() == k,
                forall|t: int|
                    0 <= t < k ==> named_non_observer(self.nodes@, #[trigger] param_names@[t]@),
                forall|t: int|
                    0 <= t < k ==> #[trigger] resolved@[t] < self.nodes@.len() && self.nodes@[
                        resolved@[t] as int
                    ].name@ == param_names@[t]@ && self.nodes@[resolved@[t] as int].kind
                        != NodeKind::Observer,
            decreases param_names@.len() - k,
        {
            match self.resolve(&param_names[k]) {
                None => {
                    return Err(GraphError::UnknownReference);
                },
                Some(p) => {
                    if self.nodes[p].kind == NodeKind::Observer {
                        proof {
                            assert(named_observer(self.nodes@, param_names@[k as int]@));
                        }
                        return Err(GraphError::InvalidDependency);
                    }
                    proof {
                        assert(named_non_observer(self.nodes@, param_names@[k as int]@));
                    }
                    resolved.push(p);
                    bref.push(false);
                },
            }
            k += 1;
        }
        let idx = self.commit_node(name, ty, NodeKind::Derived, resolved, bref, expr);
        Ok(idx)
    }

    /// Declares an observer node: a side-effecting sink invoked with the
    /// named parameters, by value or by reference as each is marked, that
    /// no other node may depend on. The failure cases are those of
    /// `declare_derived`, with the parameter names taken from the list.
    pub fn declare_observer(&mut self, name: String, params: &Vec<ParamRef>) -> (r: Result<
        usize,
        GraphError,
    >)
        requires
            old(self).wf(),
            old(self).ops@.len() == 0,
        ensures
            final(self).wf(),
            final(self).ops@.len() == 0,
            match r {
                Ok(i) => {
                    &&& !name_exists(old(self).nodes@, name@)
                    &&& forall|t: int|
                        0 <= t < params@.len() ==> named_non_observer(
                            old(self).nodes@,
                            #[trigger] params@[t].name@,
                        )
                    &&& i == old(self).nodes@.len()
                    &&& final(self).nodes@.len() == old(self).nodes@.len() + 1
                    &&& (forall|j: int|
                        0 <= j < old(self).nodes@.len() ==> same_except_dependents(
                            #[trigger] final(self).nodes@[j],
                            old(self).nodes@[j],
                        ))
                    &&& final(self).nodes@[i as int].name@ == name@
                    &&& final(self).nodes@[i as int].kind == NodeKind::Observer
                    &&& final(self).nodes@[i as int].params@.len() == params@.len()
                    &&& final(self).nodes@[i as int].by_ref@.len() == params@.len()
                    &&& (forall|t: int|
                        0 <= t < params@.len() ==> #[trigger] final(self).nodes@[
                            i as int
                        ].params@[t] < i && old(self).nodes@[
                            final(self).nodes@[i as int].params@[t] as int
                        ].name@ == params@[t].name@ && final(self).nodes@[i as int].by_ref@[t]
                            == params@[t].by_reference)
                },
                Err(e) => {
                    &&& *final(self) == *old(self)
                    &&& (e == GraphError::DuplicateName <==> name_exists(
                        old(self).nodes@,
                        name@,
                    ))
                    &&& (e == GraphError::UnknownReference ==> exists|k: int|
                        0 <= k < params@.len() && !name_exists(
                            old(self).nodes@,
                            #[trigger] params@[k].name@,
                        ) && (forall|t: int|
                            0 <= t < k ==> named_non_observer(
                                old(self).nodes@,
                                #[trigger] params@[t].name@,
                            )))
                    &&& (e == GraphError::InvalidDependency ==> exists|k: int|
                        0 <= k < params@.len() && named_observer(
                            old(self).nodes@,
                            #[trigger] params@[k].name@,
                        ) && (forall|t: int|
                            0 <= t < k ==> named_non_observer(
                                old(self).nodes@,
                                #[trigger] params@[t].name@,
                            )))
                    &&& (e == GraphError::DuplicateName || e == GraphError::UnknownReference
                        || e == GraphError::InvalidDependency)
                },
            },
    {
        match registry_get(&self.registry, &name) {
            Some(_) => {
                proof {
                    assert(name_exists(self.nodes@, name@));
                }
                return Err(GraphError::DuplicateName);
            },
            None => {
                proof {
                    assert forall|j: int|
                        0 <= j < self.nodes@.len() implies #[trigger] self.nodes@[j].name@
                        != name@ by {
                        assert(registry_entries(self.registry).dom().contains(
                            self.nodes@[j].name@,
                        ));
                    };
                }
            },
        }
        let mut resolved: Vec<usize> = Vec::new();
        let mut bref: Vec<bool> = Vec::new();
        let mut k: usize = 0;
        while k < params.len()
            invariant
                self.wf(),
                self == old(self),
                self.ops@.len() == 0,
                !name_exists(self.nodes@, name@),
                k <= params@.len(),
                resolved@.len() == k,
                bref@.len() == k,
                forall|t: int|
                    0 <= t < k ==> named_non_observer(self.nodes@, #[trigger] params@[t].name@),
                forall|t: int|
                    0 <= t < k ==> #[trigger] resolved@[t] < self.nodes@.len() && self.nodes@[
                        resolved@[t] as int
                    ].name@ == params@[t].name@ && self.nodes@[resolved@[t] as int].kind
                        != NodeKind::Observer,
                forall|t: int| 0 <= t < k ==> #[trigger] bref@[t] == params@[t].by_reference,
            decreases params@.len() - k,
        {
            match self.resolve(&params[k].name) {
                None => {
                    return Err(GraphError::UnknownReference);
                },
                Some(p) => {
                    if self.nodes[p].kind == NodeKind::Observer {
                        proof {
                            assert(named_observer(self.nodes@, params@[k as int].name@));
                        }
                        return Err(GraphError::InvalidDependency);
                    }
                    proof {
                        assert(named_non_observer(self.nodes@, params@[k as int].name@));
                    }
                    resolved.push(p);
                    bref.push(params[k].by_reference);
                },
            }
            k += 1;
        }
        let idx = self.commit_node(
            name,
            String::new(),
            NodeKind::Observer,
            resolved,
            bref,
            Expr::Const(0),
        );
        Ok(idx)
    }
}

} // verus!
