//! The expression node: a text, the expression that the text spells, its
//! free variables and the value bound to each of them.

use vstd::prelude::*;
use crate::ast::{lemma_leaves_bound, Expr, Tree};
use crate::bindings::{covers, free_variables, lemma_absorb_len, lemma_free_variables, names};
use crate::error::{ParseError, ParseErrorKind};
use crate::grammar::{atom, parse_text, sum, sum_tail, term, term_tail, unary, Parse};
use crate::parser::parse;
use crate::program::{ops, program, Step};
use crate::token::{digit_run, scan, syms, token_len, Mark, Scan, Sym};
use crate::reconcile::{carried_values, carry_values, reconcile, wires, Rewiring, SourceId};

verus! {

/// The model of an expression node. A value is the bit pattern of an
/// IEEE-754 double.
pub struct NodeState {
    pub text: Seq<char>,
    pub tree: Tree,
    pub bindings: Seq<Seq<char>>,
    pub values: Seq<u64>,
}

impl NodeState {
    /// The state of a node at every moment: the tree is the one that the
    /// text spells, the bindings are the free variables of the tree, and
    /// every binding has a value.
    pub open spec fn well_formed(self) -> bool {
        &&& parse_text(self.text) == Ok::<Tree, (ParseErrorKind, nat)>(self.tree)
        &&& self.bindings == free_variables(self.tree)
        &&& self.values.len() == self.bindings.len()
    }

    /// The number of input slots: one for the text and one for each
    /// binding.
    pub open spec fn slot_count(self) -> nat {
        self.bindings.len() + 1
    }
}

/// In a well-formed state every binding has a value, no name is bound
/// twice, and every variable of the tree is bound.
pub proof fn lemma_well_formed(state: NodeState)
    requires
        state.well_formed(),
    ensures
        state.values.len() == state.bindings.len(),
        state.bindings.no_duplicates(),
        covers(state.bindings, state.tree),
        forall|name: Seq<char>| state.bindings.contains(name) <==> state.tree.leaves().contains(name),
{
    lemma_free_variables(state.tree);
}

/// An expression node.
#[derive(Debug, PartialEq, Eq)]
pub struct ExprNode {
    text: String,
    bindings: Vec<String>,
    values: Vec<u64>,
    expr: Expr,
}

impl View for ExprNode {
    type V = NodeState;

    closed spec fn view(&self) -> NodeState {
        NodeState {
            text: self.text@,
            tree: self.expr@,
            bindings: names(self.bindings@),
            values: self.values@,
        }
    }
}

/// What committing a text did.
#[derive(Debug, PartialEq, Eq)]
pub enum ReconcileResult {
    /// The text is no expression. The node is as it was.
    Unchanged(ParseError),
    /// The node now holds the text, and the graph has this to do.
    Committed(Rewiring),
}

impl ExprNode {
    #[verifier::type_invariant]
    spec fn consistent(&self) -> bool {
        &&& self@.well_formed()
        &&& self.bindings@.len() < usize::MAX
    }

    /// A node with the text `0`.
    pub fn new() -> (out: ExprNode)
        ensures
            out@.text == "0"@,
            out@.tree == Tree::Val("0"@),
            out@.bindings.len() == 0,
            out@.values.len() == 0,
            out@.well_formed(),
    {
        let text = "0".to_owned();
        let expr = Expr::Val("0".to_owned());
        let bindings: Vec<String> = Vec::new();
        proof {
            lemma_zero(text@);
            assert(names(bindings@) =~= free_variables(expr@));
        }
        ExprNode { text, bindings, values: Vec::new(), expr }
    }

    /// The text that was committed last.
    pub fn text(&self) -> (out: &String)
        ensures
            out@ == self@.text,
            self@.well_formed(),
    {
        proof {
            use_type_invariant(self);
        }
        &self.text
    }

    /// The expression that the text spells.
    pub fn expr(&self) -> (out: &Expr)
        ensures
            out@ == self@.tree,
            self@.well_formed(),
    {
        proof {
            use_type_invariant(self);
        }
        &self.expr
    }

    /// The free variables of the expression, in slot order.
    pub fn bindings(&self) -> (out: &Vec<String>)
        ensures
            names(out@) == self@.bindings,
            out@.len() < usize::MAX,
            self@.well_formed(),
    {
        proof {
            use_type_invariant(self);
        }
        &self.bindings
    }

    /// The value bound to each variable.
    pub fn values(&self) -> (out: &Vec<u64>)
        ensures
            out@ == self@.values,
            self@.well_formed(),
    {
        proof {
            use_type_invariant(self);
        }
        &self.values
    }

    /// The number of input slots.
    pub fn slot_count(&self) -> (out: usize)
        ensures
            out == self@.slot_count(),
    {
        proof {
            use_type_invariant(self);
        }
        self.bindings.len() + 1
    }

    /// The name of the variable that input slot `slot` takes.
    pub fn label(&self, slot: usize) -> (out: &String)
        requires
            1 <= slot < self@.slot_count(),
        ensures
            out@ == self@.bindings[slot - 1],
    {
        &self.bindings[slot - 1]
    }

    /// The value bound to the variable of input slot `slot`.
    pub fn value(&self, slot: usize) -> (out: u64)
        requires
            1 <= slot < self@.slot_count(),
        ensures
            out == self@.values[slot - 1],
    {
        proof {
            use_type_invariant(self);
        }
        self.values[slot - 1]
    }

    /// Binds `value` to the variable of input slot `slot`.
    pub fn set_value(&mut self, slot: usize, value: u64)
        requires
            1 <= slot < old(self)@.slot_count(),
        ensures
            final(self)@ == (NodeState {
                values: old(self)@.values.update(slot - 1, value),
                ..old(self)@
            }),
    {
        proof {
            use_type_invariant(&*self);
        }
        self.values = replaced(&self.values, slot - 1, value);
    }

    /// The postfix program that computes the value of the node from its
    /// values.
    pub fn program(&self) -> (out: Vec<Step>)
        ensures
            ops(out@) == program(self@.tree, self@.bindings),
    {
        proof {
            use_type_invariant(self);
            lemma_free_variables(self.expr@);
        }
        self.expr.lower(&self.bindings)
    }

    /// Commits `new_text`. A text that is no expression leaves the node
    /// untouched. A text that is one replaces text, expression, bindings
    /// and values at once: a name keeps its value, a new name gets zero,
    /// and the connections in `connections`, the sources of each input
    /// slot, are reconciled with the new bindings.
    pub fn commit_text(&mut self, new_text: &str, connections: &Vec<Vec<SourceId>>) -> (out:
        ReconcileResult)
        ensures
            match parse_text(new_text@) {
                Err((kind, position)) => {
                    &&& final(self)@ == old(self)@
                    &&& out is Unchanged
                    &&& out->Unchanged_0.kind == kind
                    &&& out->Unchanged_0.position == position
                },
                Ok(tree) => {
                    &&& final(self)@ == (NodeState {
                        text: new_text@,
                        tree,
                        bindings: free_variables(tree),
                        values: carried_values(
                            old(self)@.bindings,
                            old(self)@.values,
                            free_variables(tree),
                        ),
                    })
                    &&& out is Committed
                    &&& out->Committed_0.is_reconciliation(
                        old(self)@.bindings,
                        free_variables(tree),
                        wires(connections@),
                    )
                },
            },
            final(self)@.well_formed(),
    {
        proof {
            use_type_invariant(&*self);
        }
        let expr = match parse(new_text) {
            Ok(expr) => expr,
            Err(fault) => {
                return ReconcileResult::Unchanged(fault);
            },
        };
        let bindings = expr.extract_bindings();
        proof {
            lemma_leaves_bound(expr@);
            lemma_absorb_len(Seq::empty(), expr@.leaves());
            assert(bindings@.len() == names(bindings@).len());
        }
        let values = carry_values(&self.bindings, &self.values, &bindings);
        let rewiring = reconcile(&self.bindings, &bindings, connections);
        *self = ExprNode { text: new_text.to_owned(), bindings, values, expr };
        ReconcileResult::Committed(rewiring)
    }
}

impl Clone for ExprNode {
    fn clone(&self) -> (out: ExprNode)
        ensures
            out@ == self@,
    {
        proof {
            use_type_invariant(self);
        }
        let mut bindings: Vec<String> = Vec::new();
        let mut values: Vec<u64> = Vec::new();
        let mut i: usize = 0;
        while i < self.bindings.len()
            invariant
                i <= self.bindings@.len(),
                self.bindings@.len() == self.values@.len(),
                names(bindings@) == names(self.bindings@).take(i as int),
                values@ == self.values@.take(i as int),
            decreases self.bindings@.len() - i,
        {
            let ghost before = names(bindings@);
            let name = self.bindings[i].clone();
            assert(name@ == self.bindings@[i as int]@);
            bindings.push(name);
            values.push(self.values[i]);
            assert(names(bindings@) =~= before.push(name@));
            assert(names(bindings@) =~= names(self.bindings@).take(i + 1));
            assert(values@ =~= self.values@.take(i + 1));
            i += 1;
        }
        assert(names(bindings@) =~= names(self.bindings@));
        assert(values@ =~= self.values@);
        ExprNode { text: self.text.clone(), bindings, values, expr: self.expr.duplicate() }
    }
}

/// A copy of `values` with `value` at `index`.
fn replaced(values: &Vec<u64>, index: usize, value: u64) -> (out: Vec<u64>)
    requires
        index < values@.len(),
    ensures
        out@ == values@.update(index as int, value),
{
    let mut out: Vec<u64> = Vec::new();
    let mut i: usize = 0;
    while i < values.len()
        invariant
            i <= values@.len(),
            index < values@.len(),
            out@ == values@.update(index as int, value).take(i as int),
        decreases values@.len() - i,
    {
        let item: u64 = if i == index {
            value
        } else {
            values[i]
        };
        out.push(item);
        assert(out@ =~= values@.update(index as int, value).take(i + 1));
        i += 1;
    }
    assert(out@ =~= values@.update(index as int, value));
    out
}

/// The text `0` spells the numeral `0`.
proof fn lemma_zero(text: Seq<char>)
    requires
        text == "0"@,
    ensures
        parse_text(text) == Ok::<Tree, (ParseErrorKind, nat)>(Tree::Val(text)),
        free_variables(Tree::Val(text)) == Seq::<Seq<char>>::empty(),
{
    reveal_strlit("0");
    assert(text.len() == 1 && text[0] == '0');
    reveal_with_fuel(digit_run, 3);
    assert(digit_run(text, 0) == 1);
    assert(token_len(text, 0) == 1);
    assert(text.subrange(0, 1) =~= text);
    let mark = Mark { sym: Sym::Number(text), offset: 0 };
    assert(scan(text, 1) == Scan::Tokens(Seq::empty()));
    assert(seq![mark] + Seq::<Mark>::empty() =~= seq![mark]);
    assert(scan(text, 0) == Scan::Tokens(seq![mark]));
    let s = syms(seq![mark]);
    assert(s.len() == 1 && s[0] == Sym::Number(text));
    let tree = Tree::Val(text);
    assert(atom(s, 0) == Parse::Done(tree, 1));
    assert(unary(s, 0) == Parse::Done(tree, 1));
    assert(term_tail(s, 1, tree) == Parse::Done(tree, 0));
    assert(term(s, 0) == Parse::Done(tree, 1));
    assert(sum_tail(s, 1, tree) == Parse::Done(tree, 0));
    assert(sum(s, 0) == Parse::Done(tree, 1));
    assert(tree.leaves().len() == 0);
}

} // verus!
