//! The order in which an expression is evaluated.
//!
//! A tree is evaluated on a stack of values: each number is pushed, each
//! operator replaces the two values on top by its result, and each unary
//! minus replaces the value on top.  [`schedule`] lays the steps out, and
//! [`lemma_schedule_computes_value`] shows that carrying them out, in any
//! arithmetic, leaves the value of the tree.  The arithmetic itself, on
//! numbers of the machine, is the caller's.
use vstd::prelude::*;
use crate::parsemath::ast::{Expr, ExprView, Operator};
use crate::parsemath::token::Literal;

verus! {

/// What a [`Step`] stands for in specifications.
pub enum StepView {
    Push(Seq<char>),
    Apply(Operator),
    Negate,
}

/// One step of an evaluation.
#[derive(Debug, PartialEq, Eq)]
pub enum Step {
    /// Push the value of the number.
    Push(Literal),
    /// Pop the right operand, then the left one, and push what the operator
    /// makes of them.
    Apply(Operator),
    /// Replace the value on top by its negation.
    Negate,
}

impl View for Step {
    type V = StepView;

    open spec fn view(&self) -> StepView {
        match self {
            Step::Push(lit) => StepView::Push(lit@),
            Step::Apply(op) => StepView::Apply(*op),
            Step::Negate => StepView::Negate,
        }
    }
}

/// The views of a run of steps, in order.
pub open spec fn step_views(steps: Seq<Step>) -> Seq<StepView> {
    steps.map_values(|s: Step| s@)
}

/// The steps that evaluate `tree`: the operands of a node from left to
/// right, then the node itself.
pub open spec fn steps_of(tree: ExprView) -> Seq<StepView>
    decreases tree,
{
    match tree {
        ExprView::Number(text) => seq![StepView::Push(text)],
        ExprView::BinaryOp(op, left, right) => steps_of(*left) + steps_of(*right) + seq![
            StepView::Apply(op),
        ],
        ExprView::UnaryMinus(operand) => steps_of(*operand) + seq![StepView::Negate],
    }
}

/// An arithmetic on values of type `V`: the value of a number's text, what
/// an operator makes of two values, and the negation of a value.
#[verifier::reject_recursive_types(V)]
pub struct Arithmetic<V> {
    pub number: spec_fn(Seq<char>) -> V,
    pub binary: spec_fn(Operator, V, V) -> V,
    pub negate: spec_fn(V) -> V,
}

/// The value of `tree` in the arithmetic `a`.
pub open spec fn value<V>(a: Arithmetic<V>, tree: ExprView) -> V
    decreases tree,
{
    match tree {
        ExprView::Number(text) => (a.number)(text),
        ExprView::BinaryOp(op, left, right) => (a.binary)(op, value(a, *left), value(a, *right)),
        ExprView::UnaryMinus(operand) => (a.negate)(value(a, *operand)),
    }
}

/// The stack after one step; `None` where the stack holds too little.
pub open spec fn step<V>(a: Arithmetic<V>, s: StepView, stack: Seq<V>) -> Option<Seq<V>> {
    match s {
        StepView::Push(text) => Some(stack.push((a.number)(text))),
        StepView::Apply(op) => if stack.len() >= 2 {
            let right = stack[stack.len() - 1];
            let left = stack[stack.len() - 2];
            Some(stack.take(stack.len() - 2).push((a.binary)(op, left, right)))
        } else {
            None
        },
        StepView::Negate => if stack.len() >= 1 {
            Some(stack.drop_last().push((a.negate)(stack.last())))
        } else {
            None
        },
    }
}

/// The stack after all of `steps`, from first to last; `None` where a step
/// finds too little on the stack.
pub open spec fn run<V>(a: Arithmetic<V>, steps: Seq<StepView>, stack: Seq<V>) -> Option<Seq<V>>
    decreases steps.len(),
{
    if steps.len() == 0 {
        Some(stack)
    } else {
        match step(a, steps[0], stack) {
            Some(next) => run(a, steps.drop_first(), next),
            None => None,
        }
    }
}

/// Running one run of steps after another is running them joined.
pub proof fn lemma_run_joined<V>(a: Arithmetic<V>, first: Seq<StepView>, second: Seq<StepView>, stack: Seq<V>)
    ensures
        run(a, first + second, stack) == match run(a, first, stack) {
            Some(between) => run(a, second, between),
            None => None,
        },
    decreases first.len(),
{
    if first.len() == 0 {
        assert(first + second =~= second);
    } else {
        assert((first + second)[0] == first[0]);
        assert((first + second).drop_first() =~= first.drop_first() + second);
        if let Some(next) = step(a, first[0], stack) {
            lemma_run_joined(a, first.drop_first(), second, next);
        }
    }
}

/// Carrying out the steps of a tree never finds too little on the stack,
/// and leaves the value of the tree on top of what was there.
pub proof fn lemma_schedule_computes_value<V>(a: Arithmetic<V>, tree: ExprView, stack: Seq<V>)
    ensures
        run(a, steps_of(tree), stack) == Some(stack.push(value(a, tree))),
    decreases tree,
{
    match tree {
        ExprView::Number(text) => {
            let steps = steps_of(tree);
            assert(steps.drop_first() =~= Seq::<StepView>::empty());
            assert(run(a, steps.drop_first(), stack.push((a.number)(text))) == Some(
                stack.push((a.number)(text)),
            ));
        },
        ExprView::BinaryOp(op, left, right) => {
            let l = value(a, *left);
            let r = value(a, *right);
            let last = seq![StepView::Apply(op)];
            lemma_schedule_computes_value(a, *left, stack);
            lemma_schedule_computes_value(a, *right, stack.push(l));
            lemma_run_joined(a, steps_of(*left), steps_of(*right), stack);
            lemma_run_joined(a, steps_of(*left) + steps_of(*right), last, stack);
            let both = stack.push(l).push(r);
            assert(both.take(both.len() - 2) =~= stack);
            assert(last.drop_first() =~= Seq::<StepView>::empty());
            assert(run(a, last, both) == run(a, last.drop_first(), stack.push(value(a, tree))));
        },
        ExprView::UnaryMinus(operand) => {
            let v = value(a, *operand);
            let last = seq![StepView::Negate];
            lemma_schedule_computes_value(a, *operand, stack);
            lemma_run_joined(a, steps_of(*operand), last, stack);
            let one = stack.push(v);
            assert(one.drop_last() =~= stack);
            assert(last.drop_first() =~= Seq::<StepView>::empty());
            assert(run(a, last, one) == run(a, last.drop_first(), stack.push(value(a, tree))));
        },
    }
}

/// Appends the steps of `tree` to `out`.
fn push_steps(tree: &Expr, out: &mut Vec<Step>)
    ensures
        step_views(final(out)@) == step_views(old(out)@) + steps_of(tree@),
    decreases tree,
{
    let ghost before = step_views(out@);
    match tree {
        Expr::Number(lit) => {
            out.push(Step::Push(lit.clone()));
            assert(step_views(out@) =~= before + steps_of(tree@));
        },
        Expr::BinaryOp(op, left, right) => {
            let ghost l = steps_of(left.model());
            let ghost r = steps_of(right.model());
            assert(steps_of(tree@) == l + r + seq![StepView::Apply(*op)]);
            push_steps(left, out);
            push_steps(right, out);
            let ghost operands = step_views(out@);
            out.push(Step::Apply(*op));
            assert(step_views(out@) =~= operands.push(StepView::Apply(*op)));
            assert(step_views(out@) =~= before + steps_of(tree@));
        },
        Expr::UnaryMinus(operand) => {
            let ghost inner = steps_of(operand.model());
            assert(steps_of(tree@) == inner + seq![StepView::Negate]);
            push_steps(operand, out);
            let ghost operands = step_views(out@);
            out.push(Step::Negate);
            assert(step_views(out@) =~= operands.push(StepView::Negate));
            assert(step_views(out@) =~= before + steps_of(tree@));
        },
    }
}

/// The steps that evaluate `tree`, in the order to carry them out.
pub fn schedule(tree: &Expr) -> (steps: Vec<Step>)
    ensures
        step_views(steps@) == steps_of(tree@),
{
    let mut steps: Vec<Step> = Vec::new();
    push_steps(tree, &mut steps);
    assert(step_views(steps@) =~= steps_of(tree@));
    steps
}

} // verus!
