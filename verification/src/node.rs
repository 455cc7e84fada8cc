//! The node kinds, the compute-expression language of derived nodes, and
//! the node record together with its well-formedness conditions.

use vstd::prelude::*;

verus! {

/// The four node kinds of a graph.
///
/// An input owns a stored, mutable value; a derived node owns a memoized
/// value recomputed from its parameters; an ephemeral node carries no
/// storage and is supplied a value on every call that needs one; an
/// observer is a side-effecting sink that no other node may depend on.
#[derive(Clone, Copy, Debug, PartialEq, Eq, Structural)]
pub enum NodeKind {
    Input,
    Derived,
    Ephemeral,
    Observer,
}

/// The compute function of a derived node: an arithmetic expression over
/// the node's parameters. `Param(k)` names the `k`-th entry of the node's
/// parameter list; arithmetic wraps around on overflow.
#[derive(Debug)]
pub enum Expr {
    Const(i64),
    Param(usize),
    Add(Box<Expr>, Box<Expr>),
    Sub(Box<Expr>, Box<Expr>),
    Mul(Box<Expr>, Box<Expr>),
}

/// The value of an expression under an argument list. A parameter position
/// outside the argument list reads as zero, which keeps evaluation total.
pub open spec fn eval_expr(e: Expr, args: Seq<i64>) -> i64
    decreases e,
{
    match e {
        Expr::Const(c) => c,
        Expr::Param(k) => if k < args.len() {
            args[k as int]
        } else {
            0
        },
        Expr::Add(a, b) => vstd::wrapping::i64_specs::wrapping_add(
            eval_expr(*a, args),
            eval_expr(*b, args),
        ),
        Expr::Sub(a, b) => vstd::wrapping::i64_specs::wrapping_sub(
            eval_expr(*a, args),
            eval_expr(*b, args),
        ),
        Expr::Mul(a, b) => vstd::wrapping::i64_specs::wrapping_mul(
            eval_expr(*a, args),
            eval_expr(*b, args),
        ),
    }
}

/// Evaluates an expression over the given argument values.
pub fn eval(e: &Expr, args: &Vec<i64>) -> (r: i64)
    ensures
        r == eval_expr(*e, args@),
    decreases *e,
{
    match e {
        Expr::Const(c) => *c,
        Expr::Param(k) => if *k < args.len() {
            args[*k]
        } else {
            0
        },
        Expr::Add(a, b) => eval(a, args).wrapping_add(eval(b, args)),
        Expr::Sub(a, b) => eval(a, args).wrapping_sub(eval(b, args)),
        Expr::Mul(a, b) => eval(a, args).wrapping_mul(eval(b, args)),
    }
}

/// One parameter of an observer: the name of the node it reads and whether
/// the observer takes it by reference.
#[derive(Debug)]
pub struct ParamRef {
    pub name: String,
    pub by_reference: bool,
}

/// One node record. Indices are 0-based and assigned in declaration order,
/// globally unique across all kinds; the declaration index is also the
/// topological rank.
///
/// `params` lists the declaration indices the node reads, in the declared
/// order; `by_ref` is parallel to `params` and records, for observers, which
/// parameters are taken by reference. `expr` is meaningful for derived nodes
/// only. `dependents` is the exact reverse index: the nodes that list this
/// one among their parameters, in ascending order.
#[derive(Debug)]
pub struct Node {
    pub name: String,
    pub ty: String,
    pub kind: NodeKind,
    pub params: Vec<usize>,
    pub by_ref: Vec<bool>,
    pub expr: Expr,
    pub dependents: Vec<usize>,
}

/// A sequence of indices in strictly ascending order (hence without
/// repetition).
pub open spec fn strictly_sorted(s: Seq<usize>) -> bool {
    forall|a: int, b: int| 0 <= a < b < s.len() ==> s[a] < s[b]
}

/// Some declared node carries this name.
pub open spec fn name_exists(nodes: Seq<Node>, name: Seq<char>) -> bool {
    exists|i: int| 0 <= i < nodes.len() && nodes[i].name@ == name
}

/// Well-formedness of one node record relative to its position: every
/// parameter references a strictly earlier node, never an observer; inputs
/// and ephemerals have no parameters; the by-reference markers are parallel
/// to the parameter list.
pub open spec fn node_ok(nodes: Seq<Node>, i: int) -> bool {
    &&& nodes[i].by_ref@.len() == nodes[i].params@.len()
    &&& forall|k: int|
        0 <= k < nodes[i].params@.len() ==> #[trigger] nodes[i].params@[k] < i
            && nodes[nodes[i].params@[k] as int].kind != NodeKind::Observer
    &&& (nodes[i].kind == NodeKind::Input || nodes[i].kind == NodeKind::Ephemeral)
        ==> nodes[i].params@.len() == 0
}

/// The reverse index is exact: `j` stands among the dependents of `i`
/// precisely when `i` stands among the parameters of `j`; and each
/// dependents list is strictly ascending.
pub open spec fn deps_ok(nodes: Seq<Node>) -> bool {
    &&& forall|i: int| 0 <= i < nodes.len() ==> strictly_sorted(#[trigger] nodes[i].dependents@)
    &&& forall|i: int, k: int|
        0 <= i < nodes.len() && 0 <= k < nodes[i].dependents@.len() ==> #[trigger] nodes[
            i
        ].dependents@[k] < nodes.len()
    &&& forall|i: int, j: int|
        0 <= i < nodes.len() && 0 <= j < nodes.len() ==> (
        #[trigger] nodes[i].dependents@.contains(j as usize) <==> #[trigger] nodes[
            j
        ].params@.contains(i as usize))
}

/// Well-formedness of a whole node table: each record well formed in place,
/// names unique, and the reverse index exact.
pub open spec fn nodes_ok(nodes: Seq<Node>) -> bool {
    &&& forall|i: int| 0 <= i < nodes.len() ==> #[trigger] node_ok(nodes, i)
    &&& forall|i: int, j: int|
        0 <= i < j < nodes.len() ==> #[trigger] nodes[i].name@ != #[trigger] nodes[j].name@
    &&& deps_ok(nodes)
}

/// The two records agree on everything but their reverse index: declaring
/// a dependent touches nothing else of an earlier node.
pub open spec fn same_except_dependents(a: Node, b: Node) -> bool {
    &&& a.name == b.name
    &&& a.ty == b.ty
    &&& a.kind == b.kind
    &&& a.params == b.params
    &&& a.by_ref == b.by_ref
    &&& a.expr == b.expr
}

/// Some declared node carries this name and may be depended upon (it is
/// not an observer).
pub open spec fn named_non_observer(nodes: Seq<Node>, pname: Seq<char>) -> bool {
    exists|j: int|
        0 <= j < nodes.len() && #[trigger] nodes[j].name@ == pname && nodes[j].kind
            != NodeKind::Observer
}

/// Some declared node carries this name and is an observer, which nothing
/// may depend on.
pub open spec fn named_observer(nodes: Seq<Node>, pname: Seq<char>) -> bool {
    exists|j: int|
        0 <= j < nodes.len() && #[trigger] nodes[j].name@ == pname && nodes[j].kind
            == NodeKind::Observer
}

/// Appending an element larger than all entries keeps a sequence strictly
/// ascending.
pub proof fn lemma_sorted_push(s: Seq<usize>, x: usize)
    requires
        strictly_sorted(s),
        forall|t: int| 0 <= t < s.len() ==> s[t] < x,
    ensures
        strictly_sorted(s.push(x)),
{
    assert forall|a: int, b: int| 0 <= a < b < s.push(x).len() implies s.push(x)[a] < s.push(
        x,
    )[b] by {
        if b < s.len() {
            assert(s[a] < s[b]);
        } else {
            assert(s[a] < x);
        }
    };
}

/// Some declared node carries this name and is an input.
pub open spec fn named_input(nodes: Seq<Node>, pname: Seq<char>) -> bool {
    exists|j: int|
        0 <= j < nodes.len() && #[trigger] nodes[j].name@ == pname && nodes[j].kind
            == NodeKind::Input
}

/// Some declared node carries this name and is not an input.
pub open spec fn named_non_input(nodes: Seq<Node>, pname: Seq<char>) -> bool {
    exists|j: int|
        0 <= j < nodes.len() && #[trigger] nodes[j].name@ == pname && nodes[j].kind
            != NodeKind::Input
}

/// The indices below `end` that satisfy the condition, ascending.
pub open spec fn asc_filter(cond: spec_fn(int) -> bool, end: int) -> Seq<usize>
    decreases end,
{
    if end <= 0 {
        Seq::empty()
    } else if cond(end - 1) {
        asc_filter(cond, end - 1).push((end - 1) as usize)
    } else {
        asc_filter(cond, end - 1)
    }
}

/// The indices below `end` whose node has the given kind, ascending.
pub open spec fn kind_list(nodes: Seq<Node>, kind: NodeKind, end: int) -> Seq<usize>
    decreases end,
{
    if end <= 0 {
        Seq::empty()
    } else if nodes[end - 1].kind == kind {
        kind_list(nodes, kind, end - 1).push((end - 1) as usize)
    } else {
        kind_list(nodes, kind, end - 1)
    }
}

/// How many nodes below `end` have the given kind; the declaration rank of
/// a node among its kind.
pub open spec fn count_kind(nodes: Seq<Node>, kind: NodeKind, end: int) -> int {
    kind_list(nodes, kind, end).len() as int
}

} // verus!
