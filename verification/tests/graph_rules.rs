use expr_node::node::ExprNode;
use expr_node::nodes::{pin_in_compat, pin_out_compat, NodeViewer, Nodes, PinCompat};

fn expr(text: &str) -> Nodes {
    let mut node = ExprNode::new();
    node.commit_text(text, &Vec::new());
    Nodes::ExprNode(node)
}

fn all() -> Vec<Nodes> {
    vec![
        Nodes::Sink,
        Nodes::Number(2.0f64.to_bits()),
        Nodes::String("s".to_string()),
        Nodes::ShowImage("file://x.png".to_string()),
        expr("a+b"),
    ]
}

#[test]
fn titles() {
    let viewer = NodeViewer;
    let titles: Vec<String> = all().iter().map(|node| viewer.title(node)).collect();
    assert_eq!(titles, vec!["Sink", "Number", "String", "Show Image", "Expr"]);
}

#[test]
fn pin_counts() {
    let viewer = NodeViewer;
    let inputs: Vec<usize> = all().iter().map(|node| viewer.inputs(node)).collect();
    let outputs: Vec<usize> = all().iter().map(|node| viewer.outputs(node)).collect();
    assert_eq!(inputs, vec![1, 0, 0, 1, 3]);
    assert_eq!(outputs, vec![0, 1, 1, 1, 1]);
    assert_eq!(viewer.inputs(&Nodes::ExprNode(ExprNode::new())), 1);
}

#[test]
fn sink_takes_every_output() {
    let viewer = NodeViewer;
    for from in all().iter().skip(1) {
        assert!(viewer.connect(from, &Nodes::Sink, 0));
    }
}

#[test]
fn show_image_takes_strings_only() {
    let viewer = NodeViewer;
    let to = Nodes::ShowImage(String::new());
    assert!(!viewer.connect(&Nodes::Number(0), &to, 0));
    assert!(viewer.connect(&Nodes::String(String::new()), &to, 0));
    assert!(!viewer.connect(&Nodes::ShowImage(String::new()), &to, 0));
    assert!(!viewer.connect(&expr("1"), &to, 0));
}

#[test]
fn expression_takes_text_then_numbers() {
    let viewer = NodeViewer;
    let to = expr("a+b");
    assert!(viewer.connect(&Nodes::String(String::new()), &to, 0));
    assert!(!viewer.connect(&Nodes::Number(0), &to, 0));
    assert!(!viewer.connect(&expr("1"), &to, 0));
    assert!(!viewer.connect(&Nodes::ShowImage(String::new()), &to, 0));
    for input in 1..3 {
        assert!(!viewer.connect(&Nodes::String(String::new()), &to, input));
        assert!(viewer.connect(&Nodes::Number(0), &to, input));
        assert!(viewer.connect(&expr("1"), &to, input));
        assert!(!viewer.connect(&Nodes::ShowImage(String::new()), &to, input));
    }
}

#[test]
fn compatibility_of_pins() {
    let none = PinCompat { number: false, string: false, image: false };
    let number = PinCompat { number: true, string: false, image: false };
    let string = PinCompat { number: false, string: true, image: false };
    let image = PinCompat { number: false, string: false, image: true };
    let any = PinCompat { number: true, string: true, image: true };
    let outs: Vec<PinCompat> = all().iter().map(pin_out_compat).collect();
    assert_eq!(outs, vec![none, number, string, image, number]);
    let ins: Vec<PinCompat> = all().iter().map(|node| pin_in_compat(node, 0)).collect();
    assert_eq!(ins, vec![any, none, none, string, string]);
    assert_eq!(pin_in_compat(&expr("a"), 1), number);
    assert!(any.overlaps(image));
    assert!(!number.overlaps(string));
    assert!(!none.overlaps(any));
}

#[test]
fn labels_and_strings() {
    let node = expr("width*height");
    assert_eq!(node.label_in(1), "width");
    assert_eq!(node.label_in(2), "height");
    assert_eq!(node.string_in(), "width*height");
    assert_eq!(node.expr_node().slot_count(), 3);
    let image = Nodes::ShowImage("file://x.png".to_string());
    assert_eq!(image.label_in(0), "URL");
    assert_eq!(image.string_in(), "file://x.png");
    assert_eq!(Nodes::String("hello".to_string()).string_out(), "hello");
}
