use constrained::graph::Graph;
use constrained::instance::{Event, Instance};
use constrained::node::{Expr, ParamRef};

fn s(x: &str) -> String {
    x.to_string()
}

fn names(xs: &[&str]) -> Vec<String> {
    xs.iter().map(|x| x.to_string()).collect()
}

fn mul(a: Expr, b: Expr) -> Expr {
    Expr::Mul(Box::new(a), Box::new(b))
}

/// Inputs x (0), y (1); derived xy = x*y (2), xy_x = xy*x (3),
/// x2 = x*2 (4), xy_x2 = xy_x*2 (5), y2 = y*2 (6); groups
/// set_x_y (0), set_x (1), set_y (2).
fn example() -> Graph {
    let mut g = Graph::new();
    g.declare_input(s("x"), s("i64")).unwrap();
    g.declare_input(s("y"), s("i64")).unwrap();
    g.declare_derived(s("xy"), s("i64"), &names(&["x", "y"]), mul(Expr::Param(0), Expr::Param(1)))
        .unwrap();
    g.declare_derived(s("xy_x"), s("i64"), &names(&["xy", "x"]), mul(Expr::Param(0), Expr::Param(1)))
        .unwrap();
    g.declare_derived(s("x2"), s("i64"), &names(&["x"]), mul(Expr::Param(0), Expr::Const(2)))
        .unwrap();
    g.declare_derived(s("xy_x2"), s("i64"), &names(&["xy_x"]), mul(Expr::Param(0), Expr::Const(2)))
        .unwrap();
    g.declare_derived(s("y2"), s("i64"), &names(&["y"]), mul(Expr::Param(0), Expr::Const(2)))
        .unwrap();
    g.declare_group(&names(&["x", "y"])).unwrap();
    g.declare_group(&names(&["x"])).unwrap();
    g.declare_group(&names(&["y"])).unwrap();
    g
}

#[test]
fn construct_evaluates_every_derived_once_in_order() {
    let g = example();
    let inst = Instance::construct(&g, &vec![3, 2], &Vec::new());
    assert_eq!(inst.get(&g, 2), 6); // xy = 3*2
    assert_eq!(inst.get(&g, 3), 18); // xy_x = 6*3
    assert_eq!(inst.get(&g, 4), 6); // x2 = 3*2
    assert_eq!(inst.get(&g, 5), 36); // xy_x2 = 18*2
    assert_eq!(inst.get(&g, 6), 4); // y2 = 2*2
    let expected = vec![
        Event::Recompute { node: 2, value: 6 },
        Event::Recompute { node: 3, value: 18 },
        Event::Recompute { node: 4, value: 6 },
        Event::Recompute { node: 5, value: 36 },
        Event::Recompute { node: 6, value: 4 },
    ];
    assert_eq!(inst.events, expected);
}

#[test]
fn group_update_recomputes_the_closure() {
    let g = example();
    let mut inst = Instance::construct(&g, &vec![3, 2], &Vec::new());
    // Apply set_x_y with (2, 4).
    inst.apply(&g, 0, &vec![2, 4], &Vec::new());
    assert_eq!(inst.get(&g, 0), 2);
    assert_eq!(inst.get(&g, 1), 4);
    assert_eq!(inst.get(&g, 2), 8); // xy = 2*4
    assert_eq!(inst.get(&g, 3), 16); // xy_x = 8*2
    assert_eq!(inst.get(&g, 4), 4); // x2 = 2*2
    assert_eq!(inst.get(&g, 5), 32); // xy_x2 = 16*2
    assert_eq!(inst.get(&g, 6), 8); // y2 = 4*2
}

#[test]
fn single_input_update_retains_the_other_values() {
    let g = example();
    let mut inst = Instance::construct(&g, &vec![3, 2], &Vec::new());
    let events_before = inst.events.len();
    // Apply set_x with 9: xy recomputes with the retained y = 2.
    inst.apply(&g, 1, &vec![9], &Vec::new());
    assert_eq!(inst.get(&g, 0), 9);
    assert_eq!(inst.get(&g, 1), 2);
    assert_eq!(inst.get(&g, 2), 18); // xy = 9*2
    assert_eq!(inst.get(&g, 3), 162); // xy_x = 18*9
    assert_eq!(inst.get(&g, 4), 18); // x2 = 9*2
    assert_eq!(inst.get(&g, 5), 324); // xy_x2 = 162*2
    // y2 depends only on y and must not recompute.
    assert_eq!(inst.get(&g, 6), 4);
    for e in &inst.events[events_before..] {
        match e {
            Event::Recompute { node, .. } => assert_ne!(*node, 6),
            Event::Invoke { .. } => panic!("no observer in this graph"),
        }
    }
}

#[test]
fn each_closure_member_recomputes_exactly_once() {
    // A diamond: both xy and x2 feed d, which must still recompute once.
    let mut g = Graph::new();
    g.declare_input(s("x"), s("i64")).unwrap();
    g.declare_derived(s("a"), s("i64"), &names(&["x"]), mul(Expr::Param(0), Expr::Const(3)))
        .unwrap();
    g.declare_derived(s("b"), s("i64"), &names(&["x"]), mul(Expr::Param(0), Expr::Const(5)))
        .unwrap();
    g.declare_derived(
        s("d"),
        s("i64"),
        &names(&["a", "b"]),
        Expr::Add(Box::new(Expr::Param(0)), Box::new(Expr::Param(1))),
    )
    .unwrap();
    g.declare_group(&names(&["x"])).unwrap();
    let mut inst = Instance::construct(&g, &vec![1], &Vec::new());
    assert_eq!(inst.get(&g, 3), 8); // 3 + 5
    let base = inst.events.len();
    inst.apply(&g, 0, &vec![2], &Vec::new());
    assert_eq!(inst.get(&g, 3), 16); // 6 + 10
    let mut d_recomputes: usize = 0;
    for e in &inst.events[base..] {
        if let Event::Recompute { node: 3, .. } = e {
            d_recomputes += 1;
        }
    }
    assert_eq!(d_recomputes, 1);
}

#[test]
fn observer_reads_ephemeral_from_the_call_and_fires_once() {
    // Scenario: an observer over an input and an ephemeral; the update
    // takes the ephemeral value as an argument, uses it once, and stores
    // nothing for it.
    let mut g = Graph::new();
    g.declare_input(s("z"), s("i64")).unwrap();
    g.declare_ephemeral(s("ex"), s("i64")).unwrap();
    let obs = vec![
        ParamRef { name: s("z"), by_reference: false },
        ParamRef { name: s("ex"), by_reference: true },
    ];
    g.declare_observer(s("z_reporter"), &obs).unwrap();
    g.declare_group(&names(&["z"])).unwrap();
    assert_eq!(g.op_ephemerals(0), &vec![1]);
    let mut inst = Instance::construct(&g, &vec![7], &vec![5]);
    // Construction fires the observer once with (7, 5).
    assert_eq!(inst.events, vec![Event::Invoke { node: 2, args: vec![7, 5] }]);
    let base = inst.events.len();
    inst.apply(&g, 0, &vec![11], &vec![99]);
    let fired: Vec<&Event> = inst.events[base..].iter().collect();
    assert_eq!(fired, vec![&Event::Invoke { node: 2, args: vec![11, 99] }]);
    // The ephemeral slot stores nothing.
    assert_eq!(inst.values[1], 0);
}

#[test]
fn observers_fire_after_all_recomputations() {
    let mut g = Graph::new();
    g.declare_input(s("x"), s("i64")).unwrap();
    g.declare_observer(s("early"), &vec![ParamRef { name: s("x"), by_reference: false }])
        .unwrap();
    g.declare_derived(s("x2"), s("i64"), &names(&["x"]), mul(Expr::Param(0), Expr::Const(2)))
        .unwrap();
    g.declare_observer(s("late"), &vec![ParamRef { name: s("x2"), by_reference: false }])
        .unwrap();
    g.declare_group(&names(&["x"])).unwrap();
    let mut inst = Instance::construct(&g, &vec![1], &Vec::new());
    let base = inst.events.len();
    inst.apply(&g, 0, &vec![4], &Vec::new());
    // Even though the observer "early" was declared before the derived
    // node, every invocation comes after every recomputation, and the
    // observer reads the settled value.
    let tail: Vec<&Event> = inst.events[base..].iter().collect();
    assert_eq!(
        tail,
        vec![
            &Event::Recompute { node: 2, value: 8 },
            &Event::Invoke { node: 1, args: vec![4] },
            &Event::Invoke { node: 3, args: vec![8] },
        ]
    );
}

#[test]
fn chained_updates_settle_correctly() {
    let g = example();
    let mut inst = Instance::construct(&g, &vec![3, 2], &Vec::new());
    inst.apply(&g, 0, &vec![2, 4], &Vec::new()); // set_x_y(2, 4)
    inst.apply(&g, 1, &vec![9], &Vec::new()); // set_x(9)
    inst.apply(&g, 2, &vec![6], &Vec::new()); // set_y(6)
    assert_eq!(inst.get(&g, 0), 9);
    assert_eq!(inst.get(&g, 1), 6);
    assert_eq!(inst.get(&g, 2), 54); // xy = 9*6
    assert_eq!(inst.get(&g, 3), 486); // xy_x = 54*9
    assert_eq!(inst.get(&g, 4), 18); // x2 = 9*2, from set_x(9)
    assert_eq!(inst.get(&g, 5), 972); // xy_x2 = 486*2
    assert_eq!(inst.get(&g, 6), 12); // y2 = 6*2
}

#[test]
fn construction_is_idempotent() {
    let g = example();
    let a = Instance::construct(&g, &vec![3, 2], &Vec::new());
    let b = Instance::construct(&g, &vec![3, 2], &Vec::new());
    assert_eq!(a.values, b.values);
    assert_eq!(a.events, b.events);
}

#[test]
fn update_is_deterministic() {
    let g = example();
    let mut a = Instance::construct(&g, &vec![3, 2], &Vec::new());
    let mut b = Instance::construct(&g, &vec![3, 2], &Vec::new());
    a.apply(&g, 2, &vec![6], &Vec::new());
    b.apply(&g, 2, &vec![6], &Vec::new());
    assert_eq!(a.values, b.values);
    assert_eq!(a.events, b.events);
}

#[test]
fn derived_node_reads_ephemeral_from_the_call() {
    let mut g = Graph::new();
    g.declare_input(s("y"), s("i64")).unwrap();
    g.declare_ephemeral(s("ex"), s("i64")).unwrap();
    g.declare_derived(s("y_ex"), s("i64"), &names(&["y", "ex"]), mul(Expr::Param(0), Expr::Param(1)))
        .unwrap();
    g.declare_group(&names(&["y"])).unwrap();
    // The closure of (y) reads ex, so the operation takes it as an argument.
    assert_eq!(g.op_recompute(0), &vec![2]);
    assert_eq!(g.op_ephemerals(0), &vec![1]);
    let mut inst = Instance::construct(&g, &vec![2], &vec![10]);
    assert_eq!(inst.get(&g, 2), 20);
    inst.apply(&g, 0, &vec![3], &vec![100]);
    assert_eq!(inst.get(&g, 2), 300);
    // The value supplied for the ephemeral is used, never stored.
    assert_eq!(inst.values[1], 0);
}

#[test]
fn arithmetic_wraps_on_overflow() {
    let mut g = Graph::new();
    g.declare_input(s("x"), s("i64")).unwrap();
    g.declare_derived(s("x2"), s("i64"), &names(&["x"]), mul(Expr::Param(0), Expr::Const(2)))
        .unwrap();
    let inst = Instance::construct(&g, &vec![i64::MAX], &Vec::new());
    assert_eq!(inst.get(&g, 1), i64::MAX.wrapping_mul(2));
}

#[test]
fn subtraction_and_nesting_evaluate() {
    let mut g = Graph::new();
    g.declare_input(s("x"), s("i64")).unwrap();
    g.declare_input(s("y"), s("i64")).unwrap();
    // d = (x - y) * (x + y)
    let expr = mul(
        Expr::Sub(Box::new(Expr::Param(0)), Box::new(Expr::Param(1))),
        Expr::Add(Box::new(Expr::Param(0)), Box::new(Expr::Param(1))),
    );
    g.declare_derived(s("d"), s("i64"), &names(&["x", "y"]), expr).unwrap();
    let inst = Instance::construct(&g, &vec![10, 4], &Vec::new());
    assert_eq!(inst.get(&g, 2), 84);
}
