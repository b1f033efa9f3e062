//! Evaluation. An expression is lowered to a postfix program in which every
//! variable is resolved to its index in the binding list. The program leaves
//! the arithmetic to whoever runs it: this library holds no floating-point
//! numbers.

use vstd::prelude::*;
use crate::ast::{BinOp, Expr, Tree, UnOp};
use crate::bindings::{covers, names, position};

verus! {

/// The model of a step.
pub enum Op {
    Load(nat),
    Push(Seq<char>),
    Negate,
    Apply(BinOp),
}

/// One step of a postfix program, which works on a stack of numbers.
#[derive(Clone, Debug, PartialEq, Eq)]
pub enum Step {
    /// Push the value bound to the variable with this index.
    Load(usize),
    /// Push the number that this decimal numeral denotes.
    Push(String),
    /// Replace the top of the stack by its negation.
    Negate,
    /// Replace the two topmost numbers, `a` below `b`, by `a op b`.
    Apply(BinOp),
}

impl View for Step {
    type V = Op;

    open spec fn view(&self) -> Op {
        match self {
            Step::Load(index) => Op::Load(*index as nat),
            Step::Push(numeral) => Op::Push(numeral@),
            Step::Negate => Op::Negate,
            Step::Apply(op) => Op::Apply(*op),
        }
    }
}

/// The models of a sequence of steps.
pub open spec fn ops(steps: Seq<Step>) -> Seq<Op> {
    Seq::new(steps.len(), |i: int| steps[i]@)
}

/// The index of the first entry of `list` that is `name`; the length of
/// `list` where there is none.
pub open spec fn index_of(list: Seq<Seq<char>>, name: Seq<char>) -> nat {
    match list.index_of_first(name) {
        Some(index) => index as nat,
        None => list.len(),
    }
}

/// The postfix program of a tree: operands before their operator, the left
/// operand before the right one.
pub open spec fn program(tree: Tree, list: Seq<Seq<char>>) -> Seq<Op>
    decreases tree,
{
    match tree {
        Tree::Var(name) => seq![Op::Load(index_of(list, name))],
        Tree::Val(numeral) => seq![Op::Push(numeral)],
        Tree::Unary(UnOp::Pos, inner) => program(*inner, list),
        Tree::Unary(UnOp::Neg, inner) => program(*inner, list).push(Op::Negate),
        Tree::Binary(lhs, op, rhs) => (program(*lhs, list) + program(*rhs, list)).push(
            Op::Apply(op),
        ),
    }
}

/// What the numerals and the operators mean, over numbers of type `V`.
#[verifier::reject_recursive_types(V)]
pub struct Arithmetic<V> {
    pub literal: spec_fn(Seq<char>) -> V,
    pub negate: spec_fn(V) -> V,
    pub apply: spec_fn(BinOp, V, V) -> V,
}

/// The value of a tree: a variable has the value that stands, in `values`,
/// at the index that its name has in `list`.
pub open spec fn value<V>(
    tree: Tree,
    list: Seq<Seq<char>>,
    values: Seq<V>,
    arithmetic: Arithmetic<V>,
) -> V
    decreases tree,
{
    match tree {
        Tree::Var(name) => values[index_of(list, name) as int],
        Tree::Val(numeral) => (arithmetic.literal)(numeral),
        Tree::Unary(UnOp::Pos, inner) => value(*inner, list, values, arithmetic),
        Tree::Unary(UnOp::Neg, inner) => (arithmetic.negate)(
            value(*inner, list, values, arithmetic),
        ),
        Tree::Binary(lhs, op, rhs) => (arithmetic.apply)(
            op,
            value(*lhs, list, values, arithmetic),
            value(*rhs, list, values, arithmetic),
        ),
    }
}

/// The stack after one step. A step that finds too few numbers on the stack
/// leaves it as it is.
pub open spec fn step<V>(op: Op, stack: Seq<V>, values: Seq<V>, arithmetic: Arithmetic<V>) -> Seq<
    V,
> {
    match op {
        Op::Load(index) => stack.push(values[index as int]),
        Op::Push(numeral) => stack.push((arithmetic.literal)(numeral)),
        Op::Negate => if stack.len() >= 1 {
            stack.drop_last().push((arithmetic.negate)(stack.last()))
        } else {
            stack
        },
        Op::Apply(op) => if stack.len() >= 2 {
            stack.take(stack.len() - 2).push(
                (arithmetic.apply)(op, stack[stack.len() - 2], stack[stack.len() - 1]),
            )
        } else {
            stack
        },
    }
}

/// The stack after a program.
pub open spec fn run<V>(
    steps: Seq<Op>,
    stack: Seq<V>,
    values: Seq<V>,
    arithmetic: Arithmetic<V>,
) -> Seq<V>
    decreases steps.len(),
{
    if steps.len() == 0 {
        stack
    } else {
        step(steps.last(), run(steps.drop_last(), stack, values, arithmetic), values, arithmetic)
    }
}

/// Running two programs one after the other is running their
/// concatenation.
pub proof fn lemma_run_concat<V>(
    first: Seq<Op>,
    second: Seq<Op>,
    stack: Seq<V>,
    values: Seq<V>,
    arithmetic: Arithmetic<V>,
)
    ensures
        run(first + second, stack, values, arithmetic) == run(
            second,
            run(first, stack, values, arithmetic),
            values,
            arithmetic,
        ),
    decreases second.len(),
{
    if second.len() == 0 {
        assert(first + second =~= first);
    } else {
        assert((first + second).drop_last() =~= first + second.drop_last());
        assert((first + second).last() == second.last());
        lemma_run_concat(first, second.drop_last(), stack, values, arithmetic);
    }
}

/// Running a program of one step is taking that step.
pub proof fn lemma_run_one<V>(op: Op, stack: Seq<V>, values: Seq<V>, arithmetic: Arithmetic<V>)
    ensures
        run(seq![op], stack, values, arithmetic) == step(op, stack, values, arithmetic),
{
    let one = seq![op];
    assert(one.drop_last() =~= Seq::<Op>::empty());
    assert(run(one.drop_last(), stack, values, arithmetic) == stack);
    assert(one.last() == op);
}

/// The program of a tree computes the value of the tree: whatever the
/// numerals and the operators mean, running it pushes that value on the
/// stack and leaves the rest of the stack alone.
pub proof fn lemma_program_computes_value<V>(
    tree: Tree,
    list: Seq<Seq<char>>,
    stack: Seq<V>,
    values: Seq<V>,
    arithmetic: Arithmetic<V>,
)
    ensures
        run(program(tree, list), stack, values, arithmetic) == stack.push(
            value(tree, list, values, arithmetic),
        ),
    decreases tree,
{
    match tree {
        Tree::Var(name) => {
            lemma_run_one(Op::Load(index_of(list, name)), stack, values, arithmetic);
        },
        Tree::Val(numeral) => {
            lemma_run_one(Op::Push(numeral), stack, values, arithmetic);
        },
        Tree::Unary(UnOp::Pos, inner) => {
            lemma_program_computes_value(*inner, list, stack, values, arithmetic);
        },
        Tree::Unary(UnOp::Neg, inner) => {
            lemma_program_computes_value(*inner, list, stack, values, arithmetic);
            let body = program(*inner, list);
            let after = stack.push(value(*inner, list, values, arithmetic));
            assert(body.push(Op::Negate).drop_last() =~= body);
            assert(after.drop_last() =~= stack);
        },
        Tree::Binary(lhs, op, rhs) => {
            let left = program(*lhs, list);
            let right = program(*rhs, list);
            let a = value(*lhs, list, values, arithmetic);
            let b = value(*rhs, list, values, arithmetic);
            lemma_program_computes_value(*lhs, list, stack, values, arithmetic);
            lemma_program_computes_value(*rhs, list, stack.push(a), values, arithmetic);
            lemma_run_concat(left, right, stack, values, arithmetic);
            let after = stack.push(a).push(b);
            assert((left + right).push(Op::Apply(op)).drop_last() =~= left + right);
            assert(after.take(after.len() - 2) =~= stack);
        },
    }
}

impl Expr {
    /// Appends the postfix program of the expression to `out`.
    pub fn lower_into(&self, bindings: &Vec<String>, out: &mut Vec<Step>)
        requires
            covers(names(bindings@), self@),
        ensures
            ops(final(out)@) == ops(old(out)@) + program(self@, names(bindings@)),
        decreases self,
    {
        let ghost before = ops(out@);
        let ghost list = names(bindings@);
        match self {
            Expr::Var(name) => {
                proof {
                    assert(self@.leaves()[0] == name@);
                    list.index_of_first_ensures(name@);
                }
                match position(bindings, name) {
                    Some(index) => {
                        out.push(Step::Load(index));
                        assert(ops(out@) =~= before + program(self@, list));
                    },
                    None => {
                        assert(false);
                    },
                }
            },
            Expr::Val(numeral) => {
                out.push(Step::Push(numeral.clone()));
                assert(ops(out@) =~= before + program(self@, list));
            },
            Expr::UnOp { op, expr } => {
                assert(self@.leaves() == expr@.leaves());
                expr.lower_into(bindings, out);
                match op {
                    UnOp::Pos => {},
                    UnOp::Neg => {
                        let ghost inner = ops(out@);
                        out.push(Step::Negate);
                        assert(ops(out@) =~= inner.push(Op::Negate));
                        assert(ops(out@) =~= before + program(self@, list));
                    },
                }
            },
            Expr::BinOp { lhs, op, rhs } => {
                proof {
                    let left = lhs@.leaves();
                    let right = rhs@.leaves();
                    assert forall|i: int| 0 <= i < left.len() implies list.contains(
                        #[trigger] left[i],
                    ) by {
                        assert(self@.leaves()[i] == left[i]);
                    }
                    assert forall|i: int| 0 <= i < right.len() implies list.contains(
                        #[trigger] right[i],
                    ) by {
                        assert(self@.leaves()[left.len() + i] == right[i]);
                    }
                }
                lhs.lower_into(bindings, out);
                rhs.lower_into(bindings, out);
                let ghost operands = ops(out@);
                assert(operands =~= before + (program(lhs@, list) + program(rhs@, list)));
                out.push(Step::Apply(*op));
                assert(ops(out@) =~= operands.push(Op::Apply(*op)));
                assert(ops(out@) =~= before + program(self@, list));
            },
        }
    }

    /// The postfix program of the expression, with every variable resolved
    /// to its index in `bindings`.
    pub fn lower(&self, bindings: &Vec<String>) -> (out: Vec<Step>)
        requires
            covers(names(bindings@), self@),
        ensures
            ops(out@) == program(self@, names(bindings@)),
    {
        let mut out: Vec<Step> = Vec::new();
        self.lower_into(bindings, &mut out);
        assert(ops(out@) =~= program(self@, names(bindings@)));
        out
    }
}

} // verus!
