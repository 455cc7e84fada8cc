//! Update operations: the compiled form of an update group. An operation
//! names the inputs that change together, the ephemeral values the call
//! must supply, and the exact ordered recomputation and notification
//! sequences for that root set.

use vstd::prelude::*;
use vstd::string::StringExecFns;
use crate::node::{
    Node, NodeKind, strictly_sorted, name_exists, named_input, named_non_input, asc_filter,
};
use crate::closure::{
    affected, eph_needed, eph_used_by, root_set, closure_of, collect_ephemerals,
};
use crate::graph::Graph;
use crate::GraphError;

verus! {

/// One compiled update operation.
///
/// `inputs` is the group's root set, ascending and without repetition;
/// `ephemerals` lists, ascending and each exactly once, every ephemeral
/// node read by an affected node; `recompute` and `notify` are the affected
/// derived and observer nodes, each in ascending declaration order, which
/// is the execution order.
#[derive(Debug)]
pub struct UpdateOp {
    pub name: String,
    pub inputs: Vec<usize>,
    pub ephemerals: Vec<usize>,
    pub recompute: Vec<usize>,
    pub notify: Vec<usize>,
}

/// The operation name derived from the group: `set` followed by `_` and
/// the input's name, for each input in declaration order.
pub open spec fn op_name_spec(nodes: Seq<Node>, inputs: Seq<usize>) -> Seq<char>
    decreases inputs.len(),
{
    if inputs.len() == 0 {
        "set"@
    } else {
        op_name_spec(nodes, inputs.drop_last()) + "_"@ + nodes[inputs.last() as int].name@
    }
}

/// The compiled operation is exact for the node table: its roots are
/// inputs, its recompute and notify lists hold precisely the affected
/// derived and observer nodes in ascending order, its ephemeral list holds
/// precisely the ephemerals those nodes read, and its name is the derived
/// operation name.
pub open spec fn op_ok(nodes: Seq<Node>, op: UpdateOp) -> bool {
    let roots = root_set(op.inputs@);
    &&& op.inputs@.len() > 0
    &&& strictly_sorted(op.inputs@)
    &&& forall|k: int|
        0 <= k < op.inputs@.len() ==> #[trigger] op.inputs@[k] < nodes.len()
            && nodes[op.inputs@[k] as int].kind == NodeKind::Input
    &&& strictly_sorted(op.recompute@)
    &&& forall|k: int| 0 <= k < op.recompute@.len() ==> #[trigger] op.recompute@[k] < nodes.len()
    &&& forall|j: int|
        0 <= j < nodes.len() ==> (#[trigger] op.recompute@.contains(j as usize) <==> affected(
            nodes,
            roots,
            j,
        ) && nodes[j].kind == NodeKind::Derived)
    &&& strictly_sorted(op.notify@)
    &&& forall|k: int| 0 <= k < op.notify@.len() ==> #[trigger] op.notify@[k] < nodes.len()
    &&& forall|j: int|
        0 <= j < nodes.len() ==> (#[trigger] op.notify@.contains(j as usize) <==> affected(
            nodes,
            roots,
            j,
        ) && nodes[j].kind == NodeKind::Observer)
    &&& strictly_sorted(op.ephemerals@)
    &&& forall|k: int| 0 <= k < op.ephemerals@.len() ==> #[trigger] op.ephemerals@[k] < nodes.len()
    &&& forall|e: int|
        0 <= e < nodes.len() ==> (#[trigger] op.ephemerals@.contains(e as usize) <==> eph_needed(
            nodes,
            roots,
            e,
        ))
    &&& op.name@ == op_name_spec(nodes, op.inputs@)
}

/// Every compiled operation is exact, and no two share a name.
pub open spec fn ops_ok(nodes: Seq<Node>, ops: Seq<UpdateOp>) -> bool {
    &&& forall|a: int| 0 <= a < ops.len() ==> op_ok(nodes, #[trigger] ops[a])
    &&& forall|a: int, b: int|
        #![trigger ops[a], ops[b]]
        0 <= a < b < ops.len() ==> ops[a].name@ != ops[b].name@
}

/// Node `j` is named by the group's member list.
pub open spec fn group_member(nodes: Seq<Node>, names: Seq<String>, j: int) -> bool {
    exists|t: int| 0 <= t < names.len() && nodes[j].name@ == #[trigger] names[t]@
}

/// The indices below `end` that the member list names, ascending.
pub open spec fn group_prefix(nodes: Seq<Node>, names: Seq<String>, end: int) -> Seq<usize> {
    asc_filter(|j: int| group_member(nodes, names, j), end)
}

/// The group's root set: the indices its member list names, ascending and
/// each exactly once, however often and in whatever order the list names
/// them.
pub open spec fn group_indices(nodes: Seq<Node>, names: Seq<String>) -> Seq<usize> {
    group_prefix(nodes, names, nodes.len() as int)
}

/// The index list a group resolves to is strictly ascending, stays below
/// `end`, and holds exactly the named indices.
pub proof fn lemma_group_prefix_props(nodes: Seq<Node>, names: Seq<String>, end: int)
    requires
        end <= usize::MAX,
    ensures
        strictly_sorted(group_prefix(nodes, names, end)),
        forall|t: int|
            0 <= t < group_prefix(nodes, names, end).len() ==> #[trigger] group_prefix(
                nodes,
                names,
                end,
            )[t] < end,
        forall|j: int|
            0 <= j < end ==> (#[trigger] group_prefix(nodes, names, end).contains(j as usize)
                <==> group_member(nodes, names, j)),
    decreases end,
{
    if end > 0 {
        lemma_group_prefix_props(nodes, names, end - 1);
        let prev = group_prefix(nodes, names, end - 1);
        let cur = group_prefix(nodes, names, end);
        if group_member(nodes, names, end - 1) {
            assert(cur == prev.push((end - 1) as usize));
            crate::node::lemma_sorted_push(prev, (end - 1) as usize);
            assert forall|j: int| 0 <= j < end implies (#[trigger] cur.contains(j as usize)
                <==> group_member(nodes, names, j)) by {
                vstd::seq_lib::lemma_seq_contains_after_push(prev, (end - 1) as usize, j as usize);
            };
        } else {
            assert(cur == prev);
            assert forall|j: int| 0 <= j < end implies (#[trigger] cur.contains(j as usize)
                <==> group_member(nodes, names, j)) by {
                if j == end - 1 && cur.contains(j as usize) {
                    let t = choose|t: int| 0 <= t < prev.len() && prev[t] == (j as usize);
                    assert(prev[t] < end - 1);
                    assert(false);
                }
            };
        }
    }
}

/// Derives an update operation's name from its root list: `set`, then `_`
/// and the input's name for each root in declaration order.
pub fn derive_op_name(nodes: &Vec<Node>, inputs: &Vec<usize>) -> (s: String)
    requires
        forall|t: int| 0 <= t < inputs@.len() ==> #[trigger] inputs@[t] < nodes@.len(),
    ensures
        s@ == op_name_spec(nodes@, inputs@),
{
    let mut s: String = "set".to_owned();
    let mut k: usize = 0;
    while k < inputs.len()
        invariant
            forall|t: int| 0 <= t < inputs@.len() ==> #[trigger] inputs@[t] < nodes@.len(),
            k <= inputs@.len(),
            s@ == op_name_spec(nodes@, inputs@.take(k as int)),
        decreases inputs@.len() - k,
    {
        s.append("_");
        let m = inputs[k];
        s.append(nodes[m].name.as_str());
        proof {
            inputs@.lemma_take_succ_push(k as int);
            assert(inputs@.take(k as int + 1).drop_last() =~= inputs@.take(k as int));
            assert(inputs@.take(k as int + 1).last() == inputs@[k as int]);
        }
        k += 1;
    }
    proof {
        assert(inputs@.take(inputs@.len() as int) =~= inputs@);
    }
    s
}

impl Graph {
    /// Declares an update group over the named inputs and compiles it into
    /// an update operation, stored under the returned operation index.
    ///
    /// Failure cases, in the order they are detected: `EmptyUpdateGroup`
    /// when the list is empty; then, scanning the members in order,
    /// `UnknownReference` when a name was never declared and
    /// `InvalidUpdateGroupMember` when it names a node that is not an
    /// input; last, `DuplicateUpdateGroup` when the derived operation name
    /// is already taken. On failure the graph is unchanged.
    pub fn declare_group(&mut self, member_names: &Vec<String>) -> (r: Result<usize, GraphError>)
        requires
            old(self).wf(),
        ensures
            final(self).wf(),
            final(self).nodes@ == old(self).nodes@,
            match r {
                Ok(oi) => {
                    &&& member_names@.len() > 0
                    &&& forall|t: int|
                        0 <= t < member_names@.len() ==> named_input(
                            old(self).nodes@,
                            #[trigger] member_names@[t]@,
                        )
                    &&& oi == old(self).ops@.len()
                    &&& final(self).ops@.len() == old(self).ops@.len() + 1
                    &&& (forall|a: int|
                        0 <= a < old(self).ops@.len() ==> #[trigger] final(self).ops@[a]
                            == old(self).ops@[a])
                    &&& final(self).ops@[oi as int].inputs@ == group_indices(
                        old(self).nodes@,
                        member_names@,
                    )
                    &&& op_ok(old(self).nodes@, final(self).ops@[oi as int])
                },
                Err(e) => {
                    &&& *final(self) == *old(self)
                    &&& (e == GraphError::EmptyUpdateGroup <==> member_names@.len() == 0)
                    &&& (e == GraphError::UnknownReference ==> exists|k: int|
                        0 <= k < member_names@.len() && !name_exists(
                            old(self).nodes@,
                            #[trigger] member_names@[k]@,
                        ) && (forall|t: int|
                            0 <= t < k ==> named_input(
                                old(self).nodes@,
                                #[trigger] member_names@[t]@,
                            )))
                    &&& (e == GraphError::InvalidUpdateGroupMember ==> exists|k: int|
                        0 <= k < member_names@.len() && named_non_input(
                            old(self).nodes@,
                            #[trigger] member_names@[k]@,
                        ) && (forall|t: int|
                            0 <= t < k ==> named_input(
                                old(self).nodes@,
                                #[trigger] member_names@[t]@,
                            )))
                    &&& (e == GraphError::DuplicateUpdateGroup ==> (forall|t: int|
                        0 <= t < member_names@.len() ==> named_input(
                            old(self).nodes@,
                            #[trigger] member_names@[t]@,
                        )) && exists|a: int|
                        0 <= a < old(self).ops@.len() && #[trigger] old(self).ops@[a].name@
                            == op_name_spec(
                            old(self).nodes@,
                            group_indices(old(self).nodes@, member_names@),
                        ))
                    &&& (e == GraphError::EmptyUpdateGroup || e == GraphError::UnknownReference
                        || e == GraphError::InvalidUpdateGroupMember
                        || e == GraphError::DuplicateUpdateGroup)
                },
            },
    {
        broadcast use vstd::seq_lib::lemma_seq_contains_after_push;

        if member_names.len() == 0 {
            return Err(GraphError::EmptyUpdateGroup);
        }
        let n = self.nodes.len();
        let mut mark: Vec<bool> = Vec::new();
        let mut i: usize = 0;
        while i < n
            invariant
                mark@.len() == i,
                i <= n,
                forall|j: int| 0 <= j < i ==> #[trigger] mark@[j] == false,
            decreases n - i,
        {
            mark.push(false);
            i += 1;
        }
        let mut t: usize = 0;
        while t < member_names.len()
            invariant
                self == old(self),
                self.wf(),
                n == self.nodes@.len(),
                mark@.len() == n,
                member_names@.len() > 0,
                t <= member_names@.len(),
                forall|u: int|
                    0 <= u < t ==> named_input(self.nodes@, #[trigger] member_names@[u]@),
                forall|j: int|
                    0 <= j < n ==> #[trigger] mark@[j] == group_member(
                        self.nodes@,
                        member_names@.take(t as int),
                        j,
                    ),
            decreases member_names@.len() - t,
        {
            let ghost pre = mark@;
            match self.resolve(&member_names[t]) {
                None => {
                    return Err(GraphError::UnknownReference);
                },
                Some(p) => {
                    if !(self.nodes[p].kind == NodeKind::Input) {
                        proof {
                            assert(named_non_input(self.nodes@, member_names@[t as int]@));
                        }
                        return Err(GraphError::InvalidUpdateGroupMember);
                    }
                    proof {
                        assert(named_input(self.nodes@, member_names@[t as int]@));
                    }
                    mark[p] = true;
                    proof {
                        assert forall|j: int| 0 <= j < n implies #[trigger] mark@[j]
                            == group_member(
                            self.nodes@,
                            member_names@.take(t as int + 1),
                            j,
                        ) by {
                            if group_member(self.nodes@, member_names@.take(t as int + 1), j) {
                                let u = choose|u: int|
                                    0 <= u < t as int + 1 && self.nodes@[j].name@
                                        == #[trigger] member_names@.take(t as int + 1)[u]@;
                                if u < t as int {
                                    assert(member_names@.take(t as int)[u]
                                        == member_names@.take(t as int + 1)[u]);
                                    assert(group_member(
                                        self.nodes@,
                                        member_names@.take(t as int),
                                        j,
                                    ));
                                    assert(pre[j]);
                                } else {
                                    assert(self.nodes@[j].name@ == member_names@[t as int]@);
                                    assert(self.nodes@[p as int].name@
                                        == member_names@[t as int]@);
                                    assert(j == p as int);
                                }
                            }
                            if j == p as int {
                                assert(member_names@.take(t as int + 1)[t as int]
                                    == member_names@[t as int]);
                                assert(group_member(
                                    self.nodes@,
                                    member_names@.take(t as int + 1),
                                    j,
                                ));
                            } else {
                                assert(mark@[j] == pre[j]);
                                if pre[j] {
                                    let u = choose|u: int|
                                        0 <= u < t as int && self.nodes@[j].name@
                                            == #[trigger] member_names@.take(t as int)[u]@;
                                    assert(member_names@.take(t as int + 1)[u]
                                        == member_names@[u]);
                                    assert(group_member(
                                        self.nodes@,
                                        member_names@.take(t as int + 1),
                                        j,
                                    ));
                                }
                            }
                        };
                    }
                },
            }
            t += 1;
        }
        proof {
            assert(member_names@.take(member_names@.len() as int) =~= member_names@);
            assert forall|j: int| 0 <= j < n implies #[trigger] mark@[j] == group_member(
                self.nodes@,
                member_names@,
                j,
            ) by {
                assert(group_member(self.nodes@, member_names@.take(member_names@.len() as int), j)
                    == group_member(self.nodes@, member_names@, j));
            };
        }
        let mut inputs: Vec<usize> = Vec::new();
        let mut i: usize = 0;
        while i < n
            invariant
                self == old(self),
                self.wf(),
                n == self.nodes@.len(),
                mark@.len() == n,
                i <= n,
                forall|j: int|
                    0 <= j < n ==> #[trigger] mark@[j] == group_member(
                        self.nodes@,
                        member_names@,
                        j,
                    ),
                inputs@ == group_prefix(self.nodes@, member_names@, i as int),
            decreases n - i,
        {
            if mark[i] {
                inputs.push(i);
            }
            i += 1;
        }
        proof {
            assert(inputs@ == group_indices(self.nodes@, member_names@));
            lemma_group_prefix_props(self.nodes@, member_names@, n as int);
            let gp = group_prefix(self.nodes@, member_names@, n as int);
            assert(inputs@ == gp);
            assert forall|k: int| 0 <= k < inputs@.len() implies #[trigger] inputs@[k] < n
                && self.nodes@[inputs@[k] as int].kind == NodeKind::Input by {
                assert(gp[k] < n);
                let j = inputs@[k] as int;
                assert(inputs@.contains(inputs@[k]));
                assert(inputs@[k] == (j as usize));
                assert(gp.contains(j as usize));
                assert(group_member(self.nodes@, member_names@, j));
                let u = choose|u: int|
                    0 <= u < member_names@.len() && self.nodes@[j].name@
                        == #[trigger] member_names@[u]@;
                assert(named_input(self.nodes@, member_names@[u]@));
                let j2 = choose|j2: int|
                    0 <= j2 < self.nodes@.len() && #[trigger] self.nodes@[j2].name@
                        == member_names@[u]@ && self.nodes@[j2].kind == NodeKind::Input;
                assert(j == j2);
            };
            assert(inputs@.len() > 0) by {
                assert(named_input(self.nodes@, member_names@[0]@));
                let j = choose|j: int|
                    0 <= j < self.nodes@.len() && #[trigger] self.nodes@[j].name@
                        == member_names@[0]@ && self.nodes@[j].kind == NodeKind::Input;
                assert(group_member(self.nodes@, member_names@, j));
                assert(gp.contains(j as usize));
                assert(inputs@.contains(j as usize));
            };
        }
        let name_s = derive_op_name(&self.nodes, &inputs);
        let mut a: usize = 0;
        while a < self.ops.len()
            invariant
                self == old(self),
                self.wf(),
                a <= self.ops@.len(),
                member_names@.len() > 0,
                forall|t: int|
                    0 <= t < member_names@.len() ==> named_input(
                        self.nodes@,
                        #[trigger] member_names@[t]@,
                    ),
                name_s@ == op_name_spec(self.nodes@, inputs@),
                inputs@ == group_indices(self.nodes@, member_names@),
                forall|b: int| 0 <= b < a ==> #[trigger] self.ops@[b].name@ != name_s@,
            decreases self.ops@.len() - a,
        {
            if self.ops[a].name == name_s {
                proof {
                    assert(member_names@.len() > 0);
                    assert(forall|t: int|
                        0 <= t < member_names@.len() ==> named_input(
                            old(self).nodes@,
                            #[trigger] member_names@[t]@,
                        ));
                    assert(old(self).ops@[a as int].name@ == op_name_spec(
                        old(self).nodes@,
                        group_indices(old(self).nodes@, member_names@),
                    ));
                }
                return Err(GraphError::DuplicateUpdateGroup);
            }
            a += 1;
        }
        let (rec, obs) = closure_of(&self.nodes, &inputs);
        let ephs = collect_ephemerals(&self.nodes, &rec, &obs);
        proof {
            let nodes = self.nodes@;
            let roots = root_set(inputs@);
            assert forall|e: int| 0 <= e < n implies (#[trigger] ephs@.contains(e as usize)
                <==> eph_needed(nodes, roots, e)) by {
                if ephs@.contains(e as usize) {
                    if eph_used_by(nodes, rec@, e) {
                        let u = choose|u: int|
                            0 <= u < rec@.len() && nodes[#[trigger] rec@[u] as int].params@.contains(
                                e as usize,
                            );
                        let j = rec@[u] as int;
                        assert(rec@.contains(rec@[u]));
                        assert(rec@[u] == (j as usize));
                        assert(rec@.contains(j as usize));
                        assert(affected(nodes, roots, j));
                        assert(nodes[j].params@.contains(e as usize));
                    } else {
                        let u = choose|u: int|
                            0 <= u < obs@.len() && nodes[#[trigger] obs@[u] as int].params@.contains(
                                e as usize,
                            );
                        let j = obs@[u] as int;
                        assert(obs@.contains(obs@[u]));
                        assert(obs@[u] == (j as usize));
                        assert(obs@.contains(j as usize));
                        assert(affected(nodes, roots, j));
                        assert(nodes[j].params@.contains(e as usize));
                    }
                }
                if eph_needed(nodes, roots, e) {
                    let j = choose|j: int|
                        #[trigger] affected(nodes, roots, j) && nodes[j].params@.contains(
                            e as usize,
                        );
                    if nodes[j].kind == NodeKind::Derived {
                        assert(rec@.contains(j as usize));
                        let u = choose|u: int| 0 <= u < rec@.len() && rec@[u] == (j as usize);
                        assert(nodes[rec@[u] as int].params@.contains(e as usize));
                        assert(eph_used_by(nodes, rec@, e));
                    } else {
                        assert(obs@.contains(j as usize));
                        let u = choose|u: int| 0 <= u < obs@.len() && obs@[u] == (j as usize);
                        assert(nodes[obs@[u] as int].params@.contains(e as usize));
                        assert(eph_used_by(nodes, obs@, e));
                    }
                }
            };
        }
        let oi = self.ops.len();
        let op = UpdateOp { name: name_s, inputs, ephemerals: ephs, recompute: rec, notify: obs };
        proof {
            assert(op_ok(self.nodes@, op));
        }
        self.ops.push(op);
        proof {
            assert forall|x: int, b: int|
                #![trigger self.ops@[x], self.ops@[b]]
                0 <= x < b < self.ops@.len() implies self.ops@[x].name@ != self.ops@[b].name@ by {
                if b < oi as int {
                    assert(old(self).ops@[x].name@ != old(self).ops@[b].name@);
                }
            };
        }
        Ok(oi)
    }
}

} // verus!
