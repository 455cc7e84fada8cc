//! Reachability over the dependency edges: which derived and observer
//! nodes are affected when a given set of root inputs changes, and which
//! ephemeral values the affected nodes read.

use vstd::prelude::*;
use crate::node::{Node, NodeKind, node_ok, nodes_ok, strictly_sorted, lemma_sorted_push};

verus! {

/// The set of declaration indices named by a root list.
pub open spec fn root_set(inputs: Seq<usize>) -> Set<int> {
    Set::new(|p: int| exists|k: int| 0 <= k < inputs.len() && #[trigger] inputs[k] as int == p)
}

/// Membership in the root set is membership in the root list.
pub proof fn lemma_root_set(inputs: Seq<usize>, j: usize)
    ensures
        root_set(inputs).contains(j as int) <==> inputs.contains(j),
{
    if inputs.contains(j) {
        let k = choose|k: int| 0 <= k < inputs.len() && inputs[k] == j;
        assert(inputs[k] as int == j as int);
    }
    if root_set(inputs).contains(j as int) {
        let k = choose|k: int| 0 <= k < inputs.len() && #[trigger] inputs[k] as int == j as int;
        assert(inputs[k] == j);
    }
}

/// Node `i` must be recomputed (derived) or invoked (observer) when the
/// roots change: some parameter of `i` is itself a root, or is a derived
/// node that must itself be recomputed. Parameters always carry smaller
/// indices, so the recursion is over a finite acyclic graph.
pub open spec fn affected(nodes: Seq<Node>, roots: Set<int>, i: int) -> bool
    decreases i,
{
    &&& 0 <= i < nodes.len()
    &&& (nodes[i].kind == NodeKind::Derived || nodes[i].kind == NodeKind::Observer)
    &&& exists|k: int|
        #![trigger nodes[i].params@[k]]
        0 <= k < nodes[i].params@.len() && ({
            let p = nodes[i].params@[k] as int;
            roots.contains(p) || (0 <= p && p < i && nodes[p].kind == NodeKind::Derived
                && affected(nodes, roots, p))
        })
}

/// One parameter settles that its reader is affected: the parameter is a
/// root, or a derived node that must itself be recomputed.
pub open spec fn contributes(nodes: Seq<Node>, roots: Set<int>, i: int, p: int) -> bool {
    roots.contains(p) || (0 <= p && p < i && nodes[p].kind == NodeKind::Derived && affected(
        nodes,
        roots,
        p,
    ))
}

/// Ephemeral node `e` is read by some affected node, so an update over
/// these roots must be handed a value for it.
pub open spec fn eph_needed(nodes: Seq<Node>, roots: Set<int>, e: int) -> bool {
    &&& 0 <= e < nodes.len()
    &&& nodes[e].kind == NodeKind::Ephemeral
    &&& exists|j: int| #[trigger] affected(nodes, roots, j) && nodes[j].params@.contains(e as usize)
}

/// Computes the closure of the given roots: the affected derived nodes and
/// the affected observers, each list in ascending declaration order. One
/// ascending pass reaches the least fixed point, because every dependency
/// edge leads from a smaller to a larger index.
pub fn closure_of(nodes: &Vec<Node>, roots: &Vec<usize>) -> (r: (Vec<usize>, Vec<usize>))
    requires
        nodes_ok(nodes@),
        forall|k: int| 0 <= k < roots@.len() ==> #[trigger] roots@[k] < nodes@.len(),
    ensures
        strictly_sorted(r.0@),
        strictly_sorted(r.1@),
        forall|t: int| 0 <= t < r.0@.len() ==> #[trigger] r.0@[t] < nodes@.len(),
        forall|t: int| 0 <= t < r.1@.len() ==> #[trigger] r.1@[t] < nodes@.len(),
        forall|j: int|
            0 <= j < nodes@.len() ==> (#[trigger] r.0@.contains(j as usize) <==> affected(
                nodes@,
                root_set(roots@),
                j,
            ) && nodes@[j].kind == NodeKind::Derived),
        forall|j: int|
            0 <= j < nodes@.len() ==> (#[trigger] r.1@.contains(j as usize) <==> affected(
                nodes@,
                root_set(roots@),
                j,
            ) && nodes@[j].kind == NodeKind::Observer),
{
    broadcast use vstd::seq_lib::lemma_seq_contains_after_push;

    let ghost rs = root_set(roots@);
    let n = nodes.len();
    let mut root_mark: Vec<bool> = Vec::new();
    let mut i: usize = 0;
    while i < n
        invariant
            root_mark@.len() == i,
            i <= n,
            forall|j: int| 0 <= j < i ==> #[trigger] root_mark@[j] == false,
        decreases n - i,
    {
        root_mark.push(false);
        i += 1;
    }
    let mut k: usize = 0;
    while k < roots.len()
        invariant
            n == nodes@.len(),
            root_mark@.len() == n,
            k <= roots@.len(),
            forall|t: int| 0 <= t < roots@.len() ==> #[trigger] roots@[t] < n,
            forall|j: int|
                0 <= j < n ==> #[trigger] root_mark@[j] == roots@.take(k as int).contains(
                    j as usize,
                ),
        decreases roots@.len() - k,
    {
        let ghost pre = root_mark@;
        let p = roots[k];
        root_mark[p] = true;
        proof {
            roots@.lemma_take_succ_push(k as int);
            assert(roots@.take(k as int + 1) == roots@.take(k as int).push(p));
            assert forall|j: int| 0 <= j < n implies #[trigger] root_mark@[j] == roots@.take(
                k as int + 1,
            ).contains(j as usize) by {
                vstd::seq_lib::lemma_seq_contains_after_push(
                    roots@.take(k as int),
                    p,
                    j as usize,
                );
                if j != p as int {
                    assert(root_mark@[j] == pre[j]);
                }
            };
        }
        k += 1;
    }
    proof {
        assert(roots@.take(roots@.len() as int) =~= roots@);
        assert forall|j: int| 0 <= j < n implies #[trigger] root_mark@[j] == rs.contains(j) by {
            lemma_root_set(roots@, j as usize);
        };
    }
    let mut hit: Vec<bool> = Vec::new();
    let mut rec: Vec<usize> = Vec::new();
    let mut obs: Vec<usize> = Vec::new();
    let mut i: usize = 0;
    while i < n
        invariant
            n == nodes@.len(),
            nodes_ok(nodes@),
            root_mark@.len() == n,
            forall|j: int| 0 <= j < n ==> #[trigger] root_mark@[j] == rs.contains(j),
            hit@.len() == i,
            i <= n,
            forall|j: int| 0 <= j < i ==> #[trigger] hit@[j] == affected(nodes@, rs, j),
            strictly_sorted(rec@),
            strictly_sorted(obs@),
            forall|t: int| 0 <= t < rec@.len() ==> #[trigger] rec@[t] < i,
            forall|t: int| 0 <= t < obs@.len() ==> #[trigger] obs@[t] < i,
            forall|j: int|
                0 <= j < i ==> (#[trigger] rec@.contains(j as usize) <==> affected(nodes@, rs, j)
                    && nodes@[j].kind == NodeKind::Derived),
            forall|j: int|
                0 <= j < i ==> (#[trigger] obs@.contains(j as usize) <==> affected(nodes@, rs, j)
                    && nodes@[j].kind == NodeKind::Observer),
        decreases n - i,
    {
        let is_dep = nodes[i].kind == NodeKind::Derived || nodes[i].kind == NodeKind::Observer;
        let mut found = false;
        if is_dep {
            let plen = nodes[i].params.len();
            let mut t: usize = 0;
            while t < plen
                invariant
                    n == nodes@.len(),
                    nodes_ok(nodes@),
                    i < n,
                    root_mark@.len() == n,
                    forall|j: int| 0 <= j < n ==> #[trigger] root_mark@[j] == rs.contains(j),
                    hit@.len() == i,
                    forall|j: int| 0 <= j < i ==> #[trigger] hit@[j] == affected(nodes@, rs, j),
                    t <= plen,
                    plen == nodes@[i as int].params@.len(),
                    found == exists|u: int|
                        #![trigger nodes@[i as int].params@[u]]
                        0 <= u < t && contributes(
                            nodes@,
                            rs,
                            i as int,
                            nodes@[i as int].params@[u] as int,
                        ),
                decreases plen - t,
            {
                let p = nodes[i].params[t];
                proof {
                    assert(node_ok(nodes@, i as int));
                    assert(nodes@[i as int].params@[t as int] < i);
                }
                let mut c = false;
                if root_mark[p] {
                    c = true;
                } else if hit[p] {
                    if nodes[p].kind == NodeKind::Derived {
                        c = true;
                    }
                }
                proof {
                    assert(c == contributes(nodes@, rs, i as int, p as int));
                }
                if c {
                    found = true;
                }
                proof {
                    if c {
                        assert(contributes(
                            nodes@,
                            rs,
                            i as int,
                            nodes@[i as int].params@[t as int] as int,
                        ));
                    }
                }
                t += 1;
            }
            proof {
                assert(found == affected(nodes@, rs, i as int)) by {
                    if found {
                        let u = choose|u: int|
                            0 <= u < plen && contributes(
                                nodes@,
                                rs,
                                i as int,
                                #[trigger] nodes@[i as int].params@[u] as int,
                            );
                        assert(affected(nodes@, rs, i as int));
                    }
                    if affected(nodes@, rs, i as int) {
                        let u = choose|u: int|
                            0 <= u < nodes@[i as int].params@.len() && ({
                                let p = #[trigger] nodes@[i as int].params@[u] as int;
                                rs.contains(p) || (0 <= p && p < i as int && nodes@[p].kind
                                    == NodeKind::Derived && affected(nodes@, rs, p))
                            });
                        assert(contributes(
                            nodes@,
                            rs,
                            i as int,
                            nodes@[i as int].params@[u] as int,
                        ));
                    }
                };
            }
        } else {
            proof {
                assert(!affected(nodes@, rs, i as int));
            }
        }
        let ghost pre_rec = rec@;
        let ghost pre_obs = obs@;
        if found {
            if nodes[i].kind == NodeKind::Derived {
                proof {
                    lemma_sorted_push(rec@, i);
                }
                rec.push(i);
            } else {
                proof {
                    lemma_sorted_push(obs@, i);
                }
                obs.push(i);
            }
        }
        proof {
            assert forall|j: int| 0 <= j < i as int + 1 implies (#[trigger] rec@.contains(
                j as usize,
            ) <==> affected(nodes@, rs, j) && nodes@[j].kind == NodeKind::Derived) by {
                vstd::seq_lib::lemma_seq_contains_after_push(pre_rec, i, j as usize);
                if !pre_rec.contains(j as usize) && rec@ == pre_rec && rec@.contains(
                    j as usize,
                ) {
                    assert(false);
                }
                if j == i as int && rec@ == pre_rec && rec@.contains(j as usize) {
                    let t = choose|t: int| 0 <= t < pre_rec.len() && pre_rec[t] == (j as usize);
                    assert(pre_rec[t] < i);
                    assert(false);
                }
            };
            assert forall|j: int| 0 <= j < i as int + 1 implies (#[trigger] obs@.contains(
                j as usize,
            ) <==> affected(nodes@, rs, j) && nodes@[j].kind == NodeKind::Observer) by {
                vstd::seq_lib::lemma_seq_contains_after_push(pre_obs, i, j as usize);
                if j == i as int && obs@ == pre_obs && obs@.contains(j as usize) {
                    let t = choose|t: int| 0 <= t < pre_obs.len() && pre_obs[t] == (j as usize);
                    assert(pre_obs[t] < i);
                    assert(false);
                }
            };
        }
        hit.push(found);
        i += 1;
    }
    (rec, obs)
}

/// Ephemeral node `e` is read by one of the listed nodes.
pub open spec fn eph_used_by(nodes: Seq<Node>, members: Seq<usize>, e: int) -> bool {
    exists|u: int|
        0 <= u < members.len() && nodes[#[trigger] members[u] as int].params@.contains(e as usize)
}

/// Extending the member list by one member adds exactly that member's
/// parameter reads.
proof fn lemma_eph_used_step(nodes: Seq<Node>, members: Seq<usize>, k: int, e: int)
    requires
        0 <= k < members.len(),
    ensures
        eph_used_by(nodes, members.take(k + 1), e) <==> (eph_used_by(nodes, members.take(k), e)
            || nodes[members[k] as int].params@.contains(e as usize)),
{
    if eph_used_by(nodes, members.take(k + 1), e) {
        let u = choose|u: int|
            0 <= u < members.take(k + 1).len() && nodes[
                #[trigger] members.take(k + 1)[u] as int
            ].params@.contains(e as usize);
        if u < k {
            assert(members.take(k)[u] == members[u]);
            assert(eph_used_by(nodes, members.take(k), e));
        } else {
            assert(members.take(k + 1)[u] == members[k]);
        }
    }
    if eph_used_by(nodes, members.take(k), e) {
        let u = choose|u: int|
            0 <= u < members.take(k).len() && nodes[
                #[trigger] members.take(k)[u] as int
            ].params@.contains(e as usize);
        assert(members.take(k + 1)[u] == members[u]);
        assert(eph_used_by(nodes, members.take(k + 1), e));
    }
    if nodes[members[k] as int].params@.contains(e as usize) {
        assert(members.take(k + 1)[k] == members[k]);
        assert(eph_used_by(nodes, members.take(k + 1), e));
    }
}

/// Marks, for every member node, the ephemeral parameters it reads.
fn mark_used_ephemerals(nodes: &Vec<Node>, members: &Vec<usize>, mark: &mut Vec<bool>)
    requires
        nodes_ok(nodes@),
        forall|t: int| 0 <= t < members@.len() ==> #[trigger] members@[t] < nodes@.len(),
        old(mark)@.len() == nodes@.len(),
    ensures
        final(mark)@.len() == nodes@.len(),
        forall|e: int|
            0 <= e < nodes@.len() ==> #[trigger] final(mark)@[e] == (old(mark)@[e] || (
            nodes@[e].kind == NodeKind::Ephemeral && eph_used_by(nodes@, members@, e))),
{
    let n = nodes.len();
    let mut k: usize = 0;
    while k < members.len()
        invariant
            n == nodes@.len(),
            nodes_ok(nodes@),
            forall|t: int| 0 <= t < members@.len() ==> #[trigger] members@[t] < n,
            mark@.len() == n,
            k <= members@.len(),
            forall|e: int|
                0 <= e < n ==> #[trigger] mark@[e] == (old(mark)@[e] || (nodes@[e].kind
                    == NodeKind::Ephemeral && eph_used_by(nodes@, members@.take(k as int), e))),
        decreases members@.len() - k,
    {
        let ghost mk = mark@;
        let m = members[k];
        let plen = nodes[m].params.len();
        let mut t: usize = 0;
        while t < plen
            invariant
                n == nodes@.len(),
                nodes_ok(nodes@),
                m < n,
                mark@.len() == n,
                t <= plen,
                plen == nodes@[m as int].params@.len(),
                forall|e: int|
                    0 <= e < n ==> #[trigger] mark@[e] == (mk[e] || (nodes@[e].kind
                        == NodeKind::Ephemeral && nodes@[m as int].params@.take(
                        t as int,
                    ).contains(e as usize))),
            decreases plen - t,
        {
            broadcast use vstd::seq_lib::lemma_seq_contains_after_push;

            let ghost pre = mark@;
            let e = nodes[m].params[t];
            proof {
                assert(node_ok(nodes@, m as int));
                assert(nodes@[m as int].params@[t as int] < m);
            }
            if nodes[e].kind == NodeKind::Ephemeral {
                mark[e] = true;
            }
            proof {
                nodes@[m as int].params@.lemma_take_succ_push(t as int);
                assert(nodes@[m as int].params@.take(t as int + 1) == nodes@[
                    m as int
                ].params@.take(t as int).push(e));
                assert forall|x: int| 0 <= x < n implies #[trigger] mark@[x] == (mk[x] || (
                nodes@[x].kind == NodeKind::Ephemeral && nodes@[m as int].params@.take(
                    t as int + 1,
                ).contains(x as usize))) by {
                    vstd::seq_lib::lemma_seq_contains_after_push(
                        nodes@[m as int].params@.take(t as int),
                        e,
                        x as usize,
                    );
                    if x != e as int {
                        assert(mark@[x] == pre[x]);
                    }
                };
            }
            t += 1;
        }
        proof {
            assert(nodes@[m as int].params@.take(plen as int) =~= nodes@[m as int].params@);
            assert forall|e: int| 0 <= e < n implies #[trigger] mark@[e] == (old(mark)@[e] || (
            nodes@[e].kind == NodeKind::Ephemeral && eph_used_by(
                nodes@,
                members@.take(k as int + 1),
                e,
            ))) by {
                lemma_eph_used_step(nodes@, members@, k as int, e);
            };
        }
        k += 1;
    }
    proof {
        assert(members@.take(members@.len() as int) =~= members@);
    }
}

/// Collects, in ascending order and each exactly once, every ephemeral
/// node read by a member of the two lists.
pub fn collect_ephemerals(nodes: &Vec<Node>, rec: &Vec<usize>, obs: &Vec<usize>) -> (r: Vec<
    usize,
>)
    requires
        nodes_ok(nodes@),
        forall|t: int| 0 <= t < rec@.len() ==> #[trigger] rec@[t] < nodes@.len(),
        forall|t: int| 0 <= t < obs@.len() ==> #[trigger] obs@[t] < nodes@.len(),
    ensures
        strictly_sorted(r@),
        forall|t: int| 0 <= t < r@.len() ==> #[trigger] r@[t] < nodes@.len(),
        forall|e: int|
            0 <= e < nodes@.len() ==> (#[trigger] r@.contains(e as usize) <==> nodes@[e].kind
                == NodeKind::Ephemeral && (eph_used_by(nodes@, rec@, e) || eph_used_by(
                nodes@,
                obs@,
                e,
            ))),
{
    broadcast use vstd::seq_lib::lemma_seq_contains_after_push;

    let n = nodes.len();
    let mut mark: Vec<bool> = Vec::new();
    let mut i: usize = 0;
    while i < n
        invariant
            mark@.len() == i,
            i <= n,
            forall|j: int| 0 <= j < i ==> #[trigger] mark@[j] == false,
        decreases n - i,
    {
        mark.push(false);
        i += 1;
    }
    mark_used_ephemerals(nodes, rec, &mut mark);
    mark_used_ephemerals(nodes, obs, &mut mark);
    let mut out: Vec<usize> = Vec::new();
    let mut i: usize = 0;
    while i < n
        invariant
            n == nodes@.len(),
            mark@.len() == n,
            i <= n,
            forall|e: int|
                0 <= e < n ==> #[trigger] mark@[e] == (nodes@[e].kind == NodeKind::Ephemeral && (
                eph_used_by(nodes@, rec@, e) || eph_used_by(nodes@, obs@, e))),
            strictly_sorted(out@),
            forall|t: int| 0 <= t < out@.len() ==> #[trigger] out@[t] < i,
            forall|e: int| 0 <= e < i ==> (#[trigger] out@.contains(e as usize) <==> mark@[e]),
        decreases n - i,
    {
        let ghost pre_out = out@;
        if mark[i] {
            proof {
                lemma_sorted_push(out@, i);
            }
            out.push(i);
        }
        proof {
            assert forall|e: int| 0 <= e < i as int + 1 implies (#[trigger] out@.contains(
                e as usize,
            ) <==> mark@[e]) by {
                vstd::seq_lib::lemma_seq_contains_after_push(pre_out, i, e as usize);
                if e == i as int && out@ == pre_out && out@.contains(e as usize) {
                    let t = choose|t: int| 0 <= t < pre_out.len() && pre_out[t] == (e as usize);
                    assert(pre_out[t] < i);
                    assert(false);
                }
            };
        }
        i += 1;
    }
    out
}

} // verus!
