use expr_node::ast::Expr;
use expr_node::error::{ParseError, ParseErrorKind};
use expr_node::node::{ExprNode, ReconcileResult};
use expr_node::reconcile::{carry_values, reconcile, Migration, Rewiring, SourceId};

fn list(names: &[&str]) -> Vec<String> {
    names.iter().map(|name| name.to_string()).collect()
}

fn bits(values: &[f64]) -> Vec<u64> {
    values.iter().map(|value| value.to_bits()).collect()
}

fn source(node: usize) -> SourceId {
    SourceId { node, output: 0 }
}

fn committed(result: ReconcileResult) -> Rewiring {
    match result {
        ReconcileResult::Committed(rewiring) => rewiring,
        ReconcileResult::Unchanged(fault) => panic!("not committed: {:?}", fault),
    }
}

#[test]
fn new_node_holds_zero() {
    let node = ExprNode::new();
    assert_eq!(node.text(), "0");
    assert_eq!(node.expr(), &Expr::Val("0".to_string()));
    assert_eq!(node.bindings(), &list(&[]));
    assert_eq!(node.values(), &bits(&[]));
    assert_eq!(node.slot_count(), 1);
}

#[test]
fn reconciliation_drop() {
    let mut node = ExprNode::new();
    committed(node.commit_text("a+b", &vec![vec![]]));
    assert_eq!(node.bindings(), &list(&["a", "b"]));
    node.set_value(1, 1.5f64.to_bits());
    node.set_value(2, 2.5f64.to_bits());
    let s1 = source(11);
    let s2 = source(12);
    let connections = vec![vec![], vec![s1], vec![s2]];

    let rewiring = committed(node.commit_text("b+c", &connections));

    assert_eq!(node.text(), "b+c");
    assert_eq!(node.bindings(), &list(&["b", "c"]));
    assert_eq!(node.values(), &bits(&[2.5, 0.0]));
    assert_eq!(rewiring.drops, vec![1]);
    assert_eq!(rewiring.migrations, vec![Migration { from: 2, to: 1 }]);
    assert_eq!(rewiring.slot_count, 3);
    assert_eq!(rewiring.connections, vec![vec![], vec![s2], vec![]]);
}

#[test]
fn parse_failure_leaves_state_untouched() {
    let mut node = ExprNode::new();
    committed(node.commit_text("a", &vec![]));
    node.set_value(1, 4.0f64.to_bits());
    let before = node.clone();

    let result = node.commit_text("a+", &vec![vec![], vec![source(3)]]);

    assert_eq!(
        result,
        ReconcileResult::Unchanged(ParseError { kind: ParseErrorKind::UnexpectedEnd, position: 2 })
    );
    assert_eq!(node.text(), "a");
    assert_eq!(node.bindings(), &list(&["a"]));
    assert_eq!(node.values(), &bits(&[4.0]));
    assert_eq!(node.expr(), &Expr::Var("a".to_string()));
    assert_eq!(node, before);
}

#[test]
fn every_kind_of_fault_leaves_state_untouched() {
    let mut node = ExprNode::new();
    committed(node.commit_text("x*y", &vec![]));
    node.set_value(2, 9.0f64.to_bits());
    let before = node.clone();
    for text in ["", "x y", "(x", "x)", "x # y", "x +"] {
        match node.commit_text(text, &vec![vec![], vec![source(1)], vec![source(2)]]) {
            ReconcileResult::Unchanged(_) => {}
            ReconcileResult::Committed(_) => panic!("committed {:?}", text),
        }
        assert_eq!(node, before);
    }
}

#[test]
fn kept_names_keep_values_and_slots() {
    let mut node = ExprNode::new();
    committed(node.commit_text("a*b", &vec![]));
    node.set_value(1, 3.0f64.to_bits());
    node.set_value(2, 4.0f64.to_bits());
    let connections = vec![vec![source(9)], vec![source(1)], vec![source(2)]];

    let rewiring = committed(node.commit_text("(a - b) / a + c", &connections));

    assert_eq!(node.bindings(), &list(&["a", "b", "c"]));
    assert_eq!(node.values(), &bits(&[3.0, 4.0, 0.0]));
    assert_eq!(rewiring.drops, Vec::<usize>::new());
    assert_eq!(rewiring.migrations, Vec::<Migration>::new());
    assert_eq!(rewiring.slot_count, 4);
    assert_eq!(
        rewiring.connections,
        vec![vec![source(9)], vec![source(1)], vec![source(2)], vec![]]
    );
}

#[test]
fn swapped_names_swap_slots() {
    let mut node = ExprNode::new();
    committed(node.commit_text("a+b+c", &vec![]));
    node.set_value(1, 1.0f64.to_bits());
    node.set_value(2, 2.0f64.to_bits());
    node.set_value(3, 3.0f64.to_bits());
    let connections = vec![vec![], vec![source(1)], vec![source(2)], vec![source(3)]];

    let rewiring = committed(node.commit_text("c+a", &connections));

    assert_eq!(node.bindings(), &list(&["c", "a"]));
    assert_eq!(node.values(), &bits(&[3.0, 1.0]));
    assert_eq!(rewiring.drops, vec![2]);
    assert_eq!(
        rewiring.migrations,
        vec![Migration { from: 1, to: 2 }, Migration { from: 3, to: 1 }]
    );
    assert_eq!(rewiring.slot_count, 3);
    assert_eq!(rewiring.connections, vec![vec![], vec![source(3)], vec![source(1)]]);
}

#[test]
fn all_names_can_go() {
    let mut node = ExprNode::new();
    committed(node.commit_text("a+b", &vec![]));
    let connections = vec![vec![source(7)], vec![source(1)], vec![source(2)]];

    let rewiring = committed(node.commit_text("1+2", &connections));

    assert_eq!(node.bindings(), &list(&[]));
    assert_eq!(node.values(), &bits(&[]));
    assert_eq!(rewiring.drops, vec![1, 2]);
    assert_eq!(rewiring.migrations, Vec::<Migration>::new());
    assert_eq!(rewiring.slot_count, 1);
    assert_eq!(rewiring.connections, vec![vec![source(7)]]);
}

#[test]
fn unconnected_slots_have_no_sources() {
    let mut node = ExprNode::new();
    committed(node.commit_text("a+b", &vec![]));

    let rewiring = committed(node.commit_text("b", &vec![vec![], vec![source(4)]]));

    assert_eq!(rewiring.drops, vec![1]);
    assert_eq!(rewiring.migrations, vec![Migration { from: 2, to: 1 }]);
    assert_eq!(rewiring.connections, vec![vec![], vec![]]);
}

#[test]
fn reconcile_follows_names() {
    let old = list(&["a", "b", "c", "d"]);
    let new = list(&["d", "b", "e", "a"]);
    let connections = vec![
        vec![source(0)],
        vec![source(1), source(10)],
        vec![source(2)],
        vec![source(3)],
        vec![source(4)],
        vec![source(5)],
    ];

    let rewiring = reconcile(&old, &new, &connections);

    assert_eq!(rewiring.drops, vec![3]);
    assert_eq!(
        rewiring.migrations,
        vec![Migration { from: 1, to: 4 }, Migration { from: 4, to: 1 }]
    );
    assert_eq!(rewiring.slot_count, 5);
    assert_eq!(
        rewiring.connections,
        vec![
            vec![source(0)],
            vec![source(4)],
            vec![source(2)],
            vec![],
            vec![source(1), source(10)],
        ]
    );
}

#[test]
fn carry_values_defaults_to_zero() {
    let old = list(&["a", "b"]);
    let new = list(&["c", "b", "a", "d"]);
    let values = carry_values(&old, &bits(&[1.0, -2.0]), &new);
    assert_eq!(values, bits(&[0.0, -2.0, 1.0, 0.0]));
    assert_eq!(values[0], 0);
}

#[test]
fn carry_values_without_a_value_is_zero() {
    let old = list(&["a", "b"]);
    let new = list(&["b", "a"]);
    assert_eq!(carry_values(&old, &bits(&[1.0]), &new), bits(&[0.0, 1.0]));
}

#[test]
fn slots_and_labels() {
    let mut node = ExprNode::new();
    committed(node.commit_text("rate * time", &vec![]));
    assert_eq!(node.slot_count(), 3);
    assert_eq!(node.label(1), "rate");
    assert_eq!(node.label(2), "time");
    node.set_value(2, 60.0f64.to_bits());
    assert_eq!(node.value(1), 0);
    assert_eq!(node.value(2), 60.0f64.to_bits());
    assert_eq!(node.values(), &bits(&[0.0, 60.0]));
}

#[test]
fn commit_of_same_text_changes_nothing() {
    let mut node = ExprNode::new();
    committed(node.commit_text("a+b", &vec![]));
    node.set_value(1, 1.0f64.to_bits());
    let before = node.clone();
    let connections = vec![vec![], vec![source(1)], vec![source(2)]];

    let rewiring = committed(node.commit_text("a+b", &connections));

    assert_eq!(node, before);
    assert_eq!(rewiring.drops, Vec::<usize>::new());
    assert_eq!(rewiring.migrations, Vec::<Migration>::new());
    assert_eq!(rewiring.connections, connections);
}
