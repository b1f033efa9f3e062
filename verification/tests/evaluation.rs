use expr_node::ast::BinOp;
use expr_node::bindings::position;
use expr_node::node::ExprNode;
use expr_node::parser::parse;
use expr_node::program::Step;

fn run(steps: &[Step], values: &[f64]) -> f64 {
    let mut stack: Vec<f64> = Vec::new();
    for step in steps {
        match step {
            Step::Load(index) => stack.push(values[*index]),
            Step::Push(numeral) => stack.push(numeral.parse::<f64>().unwrap()),
            Step::Negate => {
                let a = stack.pop().unwrap();
                stack.push(-a);
            }
            Step::Apply(op) => {
                let b = stack.pop().unwrap();
                let a = stack.pop().unwrap();
                stack.push(match op {
                    BinOp::Add => a + b,
                    BinOp::Sub => a - b,
                    BinOp::Mul => a * b,
                    BinOp::Div => a / b,
                });
            }
        }
    }
    assert_eq!(stack.len(), 1);
    stack[0]
}

fn parse_eval(text: &str, bound: &[(&str, f64)]) -> f64 {
    let expr = parse(text).unwrap();
    let bindings = expr.extract_bindings();
    let values: Vec<f64> = bindings
        .iter()
        .map(|name| bound.iter().find(|(n, _)| *n == name.as_str()).unwrap().1)
        .collect();
    run(&expr.lower(&bindings), &values)
}

#[test]
fn precedence() {
    assert_eq!(parse_eval("1+2*3", &[]), 7.0);
    assert_eq!(parse_eval("(1+2)*3", &[]), 9.0);
}

#[test]
fn left_associativity() {
    assert_eq!(parse_eval("8-3-2", &[]), 3.0);
    assert_eq!(parse_eval("8/4/2", &[]), 1.0);
    assert_eq!(parse_eval("1-2*3-4", &[]), -9.0);
}

#[test]
fn unary_minus() {
    assert_eq!(parse_eval("-x", &[("x", 5.0)]), -5.0);
    assert_eq!(parse_eval("+x", &[("x", 5.0)]), 5.0);
    assert_eq!(parse_eval("3 - -x", &[("x", 5.0)]), 8.0);
    assert_eq!(parse_eval("-(x+1)*2", &[("x", 5.0)]), -12.0);
}

#[test]
fn decimal_literals() {
    assert_eq!(parse_eval("0.5+0.25", &[]), 0.75);
    assert_eq!(parse_eval("10/4", &[]), 2.5);
}

#[test]
fn division_by_zero_is_no_error() {
    assert_eq!(parse_eval("1/0", &[]), f64::INFINITY);
    assert_eq!(parse_eval("-1/0", &[]), f64::NEG_INFINITY);
    assert!(parse_eval("0/0", &[]).is_nan());
}

#[test]
fn variables_are_looked_up_by_name() {
    assert_eq!(parse_eval("a*b+a", &[("b", 3.0), ("a", 2.0)]), 8.0);
    assert_eq!(parse_eval("b-a", &[("a", 2.0), ("b", 3.0)]), 1.0);
}

#[test]
fn program_is_postfix() {
    let expr = parse("a+b*-2").unwrap();
    let bindings = vec!["b".to_string(), "a".to_string()];
    let expected = vec![
        Step::Load(1),
        Step::Load(0),
        Step::Push("2".to_string()),
        Step::Negate,
        Step::Apply(BinOp::Mul),
        Step::Apply(BinOp::Add),
    ];
    assert_eq!(expr.lower(&bindings), expected);
}

#[test]
fn program_resolves_to_first_index() {
    let expr = parse("+a").unwrap();
    let bindings = vec!["x".to_string(), "a".to_string(), "a".to_string()];
    assert_eq!(expr.lower(&bindings), vec![Step::Load(1)]);
}

#[test]
fn lower_into_appends() {
    let expr = parse("x").unwrap();
    let bindings = vec!["x".to_string()];
    let mut steps = vec![Step::Negate];
    expr.lower_into(&bindings, &mut steps);
    assert_eq!(steps, vec![Step::Negate, Step::Load(0)]);
}

#[test]
fn evaluation_is_deterministic() {
    let mut node = ExprNode::new();
    node.commit_text("a/b - 0.1*a", &Vec::new());
    node.set_value(1, 1.0f64.to_bits());
    node.set_value(2, 3.0f64.to_bits());
    let values: Vec<f64> = node.values().iter().map(|bits| f64::from_bits(*bits)).collect();
    let first = run(&node.program(), &values);
    let second = run(&node.program(), &values);
    assert_eq!(first.to_bits(), second.to_bits());
    assert_eq!(node.program(), node.program());
    assert_eq!(first, 1.0 / 3.0 - 0.1 * 1.0);
}

#[test]
fn new_node_evaluates_to_zero() {
    let node = ExprNode::new();
    assert_eq!(node.program(), vec![Step::Push("0".to_string())]);
    assert_eq!(run(&node.program(), &[]), 0.0);
}

#[test]
fn position_finds_first_entry() {
    let list = vec!["a".to_string(), "b".to_string(), "a".to_string()];
    assert_eq!(position(&list, &"a".to_string()), Some(0));
    assert_eq!(position(&list, &"b".to_string()), Some(1));
    assert_eq!(position(&list, &"c".to_string()), None);
    assert_eq!(position(&Vec::new(), &"a".to_string()), None);
}
