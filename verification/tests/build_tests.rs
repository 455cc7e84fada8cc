use constrained::graph::Graph;
use constrained::node::{Expr, NodeKind, ParamRef};
use constrained::GraphError;

fn s(x: &str) -> String {
    x.to_string()
}

fn names(xs: &[&str]) -> Vec<String> {
    xs.iter().map(|x| x.to_string()).collect()
}

/// The example graph: inputs x, y; derived xy = x*y, xy_x = xy*x,
/// x2 = x*2, xy_x2 = xy_x*2, y2 = y*2.
fn example() -> Graph {
    let mut g = Graph::new();
    assert_eq!(g.declare_input(s("x"), s("i64")), Ok(0));
    assert_eq!(g.declare_input(s("y"), s("i64")), Ok(1));
    let mul = |a: Expr, b: Expr| Expr::Mul(Box::new(a), Box::new(b));
    assert_eq!(
        g.declare_derived(s("xy"), s("i64"), &names(&["x", "y"]), mul(Expr::Param(0), Expr::Param(1))),
        Ok(2)
    );
    assert_eq!(
        g.declare_derived(s("xy_x"), s("i64"), &names(&["xy", "x"]), mul(Expr::Param(0), Expr::Param(1))),
        Ok(3)
    );
    assert_eq!(
        g.declare_derived(s("x2"), s("i64"), &names(&["x"]), mul(Expr::Param(0), Expr::Const(2))),
        Ok(4)
    );
    assert_eq!(
        g.declare_derived(s("xy_x2"), s("i64"), &names(&["xy_x"]), mul(Expr::Param(0), Expr::Const(2))),
        Ok(5)
    );
    assert_eq!(
        g.declare_derived(s("y2"), s("i64"), &names(&["y"]), mul(Expr::Param(0), Expr::Const(2))),
        Ok(6)
    );
    g
}

#[test]
fn declares_assign_sequential_indices() {
    let g = example();
    assert_eq!(g.node_count(), 7);
    assert_eq!(g.node_kind(0), NodeKind::Input);
    assert_eq!(g.node_kind(2), NodeKind::Derived);
    assert_eq!(g.node_name(2), "xy");
    assert_eq!(g.node_ty(2), "i64");
    assert_eq!(g.node_params(3), &vec![2, 0]);
}

#[test]
fn resolve_finds_each_declared_name() {
    let g = example();
    assert_eq!(g.resolve(&s("x")), Some(0));
    assert_eq!(g.resolve(&s("y")), Some(1));
    assert_eq!(g.resolve(&s("xy_x2")), Some(5));
    assert_eq!(g.resolve(&s("zz")), None);
}

#[test]
fn dependents_track_parameters_exactly() {
    let g = example();
    // x is read by xy (2), xy_x (3) and x2 (4).
    assert_eq!(g.node_dependents(0), &vec![2, 3, 4]);
    // y is read by xy (2) and y2 (6).
    assert_eq!(g.node_dependents(1), &vec![2, 6]);
    // xy_x is read by xy_x2 only.
    assert_eq!(g.node_dependents(3), &vec![5]);
    assert_eq!(g.node_dependents(5), &Vec::new());
}

#[test]
fn duplicate_name_is_rejected() {
    let mut g = example();
    assert_eq!(g.declare_input(s("x"), s("i64")), Err(GraphError::DuplicateName));
    assert_eq!(g.declare_ephemeral(s("xy"), s("i64")), Err(GraphError::DuplicateName));
    // The graph is unchanged.
    assert_eq!(g.node_count(), 7);
}

#[test]
fn unknown_reference_is_rejected() {
    let mut g = example();
    // Scenario: a parameter list referencing a name declared later (or
    // never) fails; forward references are structurally impossible.
    let r = g.declare_derived(s("bad"), s("i64"), &names(&["later"]), Expr::Param(0));
    assert_eq!(r, Err(GraphError::UnknownReference));
    assert_eq!(g.node_count(), 7);
    assert_eq!(g.resolve(&s("bad")), None);
}

#[test]
fn observer_cannot_be_depended_upon() {
    let mut g = example();
    let obs = vec![ParamRef { name: s("x"), by_reference: false }];
    assert_eq!(g.declare_observer(s("watch"), &obs), Ok(7));
    let r = g.declare_derived(s("bad"), s("i64"), &names(&["watch"]), Expr::Param(0));
    assert_eq!(r, Err(GraphError::InvalidDependency));
    let obs2 = vec![ParamRef { name: s("watch"), by_reference: false }];
    assert_eq!(g.declare_observer(s("watch2"), &obs2), Err(GraphError::InvalidDependency));
}

#[test]
fn empty_update_group_is_rejected() {
    let mut g = example();
    assert_eq!(g.declare_group(&Vec::new()), Err(GraphError::EmptyUpdateGroup));
}

#[test]
fn non_input_group_member_is_rejected() {
    let mut g = example();
    assert_eq!(
        g.declare_group(&names(&["x", "xy"])),
        Err(GraphError::InvalidUpdateGroupMember)
    );
    assert_eq!(g.declare_group(&names(&["nope"])), Err(GraphError::UnknownReference));
    assert_eq!(g.op_count(), 0);
}

#[test]
fn duplicate_update_group_is_rejected() {
    let mut g = example();
    assert_eq!(g.declare_group(&names(&["x", "y"])), Ok(0));
    // The same input set in another order resolves to the same name.
    assert_eq!(g.declare_group(&names(&["y", "x"])), Err(GraphError::DuplicateUpdateGroup));
    assert_eq!(g.op_count(), 1);
}

#[test]
fn op_name_concatenates_inputs_in_declaration_order() {
    let mut g = example();
    assert_eq!(g.declare_group(&names(&["y", "x"])), Ok(0));
    assert_eq!(g.op_name(0), "set_x_y");
    assert_eq!(g.op_inputs(0), &vec![0, 1]);
}

#[test]
fn closure_holds_exactly_the_reachable_nodes() {
    let mut g = example();
    // Changing x reaches xy, xy_x, x2 and xy_x2, but not y2.
    assert_eq!(g.declare_group(&names(&["x"])), Ok(0));
    assert_eq!(g.op_recompute(0), &vec![2, 3, 4, 5]);
    assert_eq!(g.op_notify(0), &Vec::new());
    assert_eq!(g.op_ephemerals(0), &Vec::new());
    // Changing y reaches xy, xy_x (through xy), xy_x2 and y2, but not x2.
    assert_eq!(g.declare_group(&names(&["y"])), Ok(1));
    assert_eq!(g.op_recompute(1), &vec![2, 3, 5, 6]);
}

#[test]
fn counts_by_kind() {
    let mut g = example();
    assert_eq!(g.count_of_kind(NodeKind::Input), 2);
    assert_eq!(g.count_of_kind(NodeKind::Derived), 5);
    assert_eq!(g.count_of_kind(NodeKind::Ephemeral), 0);
    assert_eq!(g.declare_ephemeral(s("ex"), s("i64")), Ok(7));
    assert_eq!(g.count_of_kind(NodeKind::Ephemeral), 1);
}
