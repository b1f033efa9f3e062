//! The nodes of the graph and the rules by which they connect.

use vstd::prelude::*;
use crate::node::ExprNode;

verus! {

/// A node of the graph.
#[derive(Clone, Debug, PartialEq, Eq)]
pub enum Nodes {
    /// A node with a single input, which displays what the input gets.
    Sink,
    /// A number with a single output, held as the bit pattern of an
    /// IEEE-754 double.
    Number(u64),
    /// A string with a single output.
    String(String),
    /// A node that shows the image at the URI that its input gets.
    ShowImage(String),
    /// An expression with a single output, one input for its text and one
    /// for each of its variables.
    ExprNode(ExprNode),
}

/// The kinds of value that a pin gives or takes.
#[derive(Clone, Copy, Debug, PartialEq, Eq, Structural)]
pub struct PinCompat {
    pub number: bool,
    pub string: bool,
    pub image: bool,
}

impl PinCompat {
    /// Whether the two have a kind in common.
    pub open spec fn spec_overlaps(self, other: PinCompat) -> bool {
        (self.number && other.number) || (self.string && other.string) || (self.image
            && other.image)
    }

    /// Whether the two have a kind in common.
    #[verifier::when_used_as_spec(spec_overlaps)]
    pub fn overlaps(self, other: PinCompat) -> (out: bool)
        ensures
            out == self.spec_overlaps(other),
    {
        (self.number && other.number) || (self.string && other.string) || (self.image
            && other.image)
    }
}

/// What the output of a node gives: a sink has no output, a string gives a
/// string, a shown image an image, and a number and an expression a number.
pub open spec fn output_kinds(node: Nodes) -> PinCompat {
    PinCompat {
        number: node is Number || node is ExprNode,
        string: node is String,
        image: node is ShowImage,
    }
}

/// What input `pin` of a node takes: a sink takes anything, a number and a
/// string have no input, a shown image takes a string, and an expression a
/// string for its text and numbers for its variables.
pub open spec fn input_kinds(node: Nodes, pin: usize) -> PinCompat {
    PinCompat {
        number: node is Sink || (node is ExprNode && pin != 0),
        string: node is Sink || node is ShowImage || (node is ExprNode && pin == 0),
        image: node is Sink,
    }
}

/// What the output of `node` gives.
pub fn pin_out_compat(node: &Nodes) -> (out: PinCompat)
    ensures
        out == output_kinds(*node),
{
    match node {
        Nodes::Sink => PinCompat { number: false, string: false, image: false },
        Nodes::String(_) => PinCompat { number: false, string: true, image: false },
        Nodes::ShowImage(_) => PinCompat { number: false, string: false, image: true },
        Nodes::Number(_) | Nodes::ExprNode(_) => PinCompat {
            number: true,
            string: false,
            image: false,
        },
    }
}

/// What input `pin` of `node` takes.
pub fn pin_in_compat(node: &Nodes, pin: usize) -> (out: PinCompat)
    ensures
        out == input_kinds(*node, pin),
{
    match node {
        Nodes::Sink => PinCompat { number: true, string: true, image: true },
        Nodes::Number(_) | Nodes::String(_) => PinCompat {
            number: false,
            string: false,
            image: false,
        },
        Nodes::ShowImage(_) => PinCompat { number: false, string: true, image: false },
        Nodes::ExprNode(_) => {
            if pin == 0 {
                PinCompat { number: false, string: true, image: false }
            } else {
                PinCompat { number: true, string: false, image: false }
            }
        },
    }
}

impl Nodes {
    /// The label of input `idx`.
    pub fn label_in(&self, idx: usize) -> (out: &str)
        requires
            match *self {
                Nodes::ShowImage(_) => idx == 0,
                Nodes::ExprNode(node) => 1 <= idx < node@.slot_count(),
                _ => false,
            },
        ensures
            out@ == match *self {
                Nodes::ExprNode(node) => node@.bindings[idx - 1],
                _ => "URL"@,
            },
    {
        match self {
            Nodes::ExprNode(node) => node.label(idx).as_str(),
            _ => "URL",
        }
    }

    /// The string that the output of a string node gives.
    pub fn string_out(&self) -> (out: &str)
        requires
            self is String,
        ensures
            out@ == self->String_0@,
    {
        match self {
            Nodes::String(value) => value.as_str(),
            _ => "",
        }
    }

    /// The string that input 0 of the node holds: the URI of a shown image,
    /// the text of an expression.
    pub fn string_in(&self) -> (out: &str)
        requires
            self is ShowImage || self is ExprNode,
        ensures
            out@ == match *self {
                Nodes::ExprNode(node) => node@.text,
                Nodes::ShowImage(uri) => uri@,
                _ => Seq::empty(),
            },
    {
        match self {
            Nodes::ExprNode(node) => node.text().as_str(),
            Nodes::ShowImage(uri) => uri.as_str(),
            _ => "",
        }
    }

    /// The expression node that this node is.
    pub fn expr_node(&self) -> (out: &ExprNode)
        requires
            self is ExprNode,
        ensures
            *out == self->ExprNode_0,
    {
        match self {
            Nodes::ExprNode(node) => node,
            _ => unreached(),
        }
    }
}

/// The rules of the graph: what its nodes are called, how many pins they
/// have and which wires they take.
#[derive(Clone, Copy, Debug)]
pub struct NodeViewer;

impl NodeViewer {
    /// The title of a node.
    pub fn title(&self, node: &Nodes) -> (out: String)
        ensures
            out@ == match *node {
                Nodes::Sink => "Sink"@,
                Nodes::Number(_) => "Number"@,
                Nodes::String(_) => "String"@,
                Nodes::ShowImage(_) => "Show Image"@,
                Nodes::ExprNode(_) => "Expr"@,
            },
    {
        match node {
            Nodes::Sink => "Sink".to_owned(),
            Nodes::Number(_) => "Number".to_owned(),
            Nodes::String(_) => "String".to_owned(),
            Nodes::ShowImage(_) => "Show Image".to_owned(),
            Nodes::ExprNode(_) => "Expr".to_owned(),
        }
    }

    /// The number of inputs of a node.
    pub fn inputs(&self, node: &Nodes) -> (out: usize)
        ensures
            out == match *node {
                Nodes::Sink | Nodes::ShowImage(_) => 1,
                Nodes::Number(_) | Nodes::String(_) => 0,
                Nodes::ExprNode(inner) => inner@.slot_count(),
            },
    {
        match node {
            Nodes::Sink | Nodes::ShowImage(_) => 1,
            Nodes::Number(_) | Nodes::String(_) => 0,
            Nodes::ExprNode(inner) => inner.slot_count(),
        }
    }

    /// The number of outputs of a node.
    pub fn outputs(&self, node: &Nodes) -> (out: usize)
        ensures
            out == if *node is Sink {
                0usize
            } else {
                1usize
            },
    {
        match node {
            Nodes::Sink => 0,
            _ => 1,
        }
    }

    /// Whether a wire from the output of `from` to input `input` of `to` is
    /// taken: it is where the output gives a kind of value that the input
    /// takes. A wire that is taken replaces the wires that the input has.
    pub fn connect(&self, from: &Nodes, to: &Nodes, input: usize) -> (accepted: bool)
        requires
            !(*from is Sink),
            !(*to is Number),
            !(*to is String),
        ensures
            accepted == output_kinds(*from).spec_overlaps(input_kinds(*to, input)),
    {
        pin_out_compat(from).overlaps(pin_in_compat(to, input))
    }
}

} // verus!
