use vstd::prelude::*;

use crate::parsing::{lexemes, Lexeme, Token};
use crate::{Context, EvalError};

verus! {

/// The arithmetic operators that evaluation knows how to apply.
#[derive(Debug, Clone, Copy, PartialEq, Eq, Structural)]
pub enum BinaryOp {
    Add,
    Subtract,
    Multiply,
    Divide,
    Power,
}

/// One step of a postfix program over a stack of values.
#[derive(Debug, Clone, PartialEq)]
pub enum Step {
    /// Push the value of this numeric literal.
    Number(String),
    /// Push the value of this variable.
    Variable(String),
    /// Pop the right operand, then the left one, and push the result.
    Binary(BinaryOp),
    /// Pop this many arguments (the last one first), call the function with
    /// them in the order they were written, and push the result.
    Call(String, usize),
}

/// The mathematical value of a step.
pub enum StepView {
    Number(Seq<char>),
    Variable(Seq<char>),
    Binary(BinaryOp),
    Call(Seq<char>, nat),
}

impl View for Step {
    type V = StepView;

    open spec fn view(&self) -> StepView {
        match self {
            Step::Number(s) => StepView::Number(s@),
            Step::Variable(s) => StepView::Variable(s@),
            Step::Binary(op) => StepView::Binary(*op),
            Step::Call(s, k) => StepView::Call(s@, *k as nat),
        }
    }
}

/// The views of a sequence of steps.
pub open spec fn step_views(steps: Seq<Step>) -> Seq<StepView> {
    steps.map_values(|s: Step| s@)
}

/// Appends `s` to `v`.
fn push_step(v: &mut Vec<Step>, s: Step)
    ensures
        step_views(final(v)@) == step_views(old(v)@).push(s@),
{
    v.push(s);
    assert(step_views(v@) =~= step_views(old(v)@).push(s@));
}

/// The operator that a symbol's text stands for during evaluation, if any.
pub open spec fn spec_binary_op(s: Seq<char>) -> Option<BinaryOp> {
    if s == seq!['+'] {
        Some(BinaryOp::Add)
    } else if s == seq!['-'] {
        Some(BinaryOp::Subtract)
    } else if s == seq!['*'] {
        Some(BinaryOp::Multiply)
    } else if s == seq!['/'] {
        Some(BinaryOp::Divide)
    } else if s == seq!['^'] {
        Some(BinaryOp::Power)
    } else {
        None
    }
}

/// The steps so far, and how many values they leave on the stack.
pub type Resolution = (Seq<StepView>, nat);

/// What one postfix token adds to the program, checking that the values it
/// consumes are there.
pub open spec fn resolve_step<V, F>(context: &Context<V, F>, st: Resolution, t: Lexeme) -> Result<
    Resolution,
    EvalError,
> {
    let (steps, depth) = st;
    match t {
        Lexeme::Number(s) => Ok((steps.push(StepView::Number(s)), depth + 1)),
        Lexeme::Symbol(s) => match spec_binary_op(s) {
            Some(op) => if depth < 2 {
                Err(EvalError::StackUnderflow)
            } else {
                Ok((steps.push(StepView::Binary(op)), (depth - 1) as nat))
            },
            None => Ok(st),
        },
        Lexeme::Identifier(name) => if context.variables().contains_key(name) {
            Ok((steps.push(StepView::Variable(name)), depth + 1))
        } else if context.functions().contains_key(name) {
            let k = context.functions()[name].arity();
            if depth < k {
                Err(EvalError::StackUnderflow)
            } else {
                Ok((steps.push(StepView::Call(name, k)), (depth - k + 1) as nat))
            }
        } else {
            Err(EvalError::UndefinedReference)
        },
        _ => Ok(st),
    }
}

/// The program after all of `queue`, from left to right.
pub open spec fn resolve_scan<V, F>(context: &Context<V, F>, queue: Seq<Lexeme>) -> Result<
    Resolution,
    EvalError,
>
    decreases queue.len(),
{
    if queue.len() == 0 {
        Ok((seq![], 0))
    } else {
        match resolve_scan(context, queue.drop_last()) {
            Ok(st) => resolve_step(context, st, queue.last()),
            Err(e) => Err(e),
        }
    }
}

/// The program for a postfix queue, which must leave exactly one value.
pub open spec fn program<V, F>(context: &Context<V, F>, queue: Seq<Lexeme>) -> Result<
    Seq<StepView>,
    EvalError,
> {
    match resolve_scan(context, queue) {
        Ok((steps, depth)) => if depth == 1 {
            Ok(steps)
        } else {
            Err(EvalError::MalformedResult)
        },
        Err(e) => Err(e),
    }
}

/// How many values remain on a stack of `start` values after `steps`, or
/// `None` where a step finds too few.
pub open spec fn stack_depth(steps: Seq<StepView>, start: nat) -> Option<nat>
    decreases steps.len(),
{
    if steps.len() == 0 {
        Some(start)
    } else {
        match stack_depth(steps.drop_last(), start) {
            Some(d) => match steps.last() {
                StepView::Number(_) => Some(d + 1),
                StepView::Variable(_) => Some(d + 1),
                StepView::Binary(_) => if d < 2 {
                    None
                } else {
                    Some((d - 1) as nat)
                },
                StepView::Call(_, k) => if d < k {
                    None
                } else {
                    Some((d - k + 1) as nat)
                },
            },
            None => None,
        }
    }
}

proof fn lemma_resolve_error<V, F>(context: &Context<V, F>, queue: Seq<Lexeme>, i: int)
    requires
        0 <= i <= queue.len(),
        resolve_scan(context, queue.take(i)) is Err,
    ensures
        resolve_scan(context, queue) == resolve_scan(context, queue.take(i)),
    decreases queue.len() - i,
{
    if i < queue.len() {
        assert(queue.take(i + 1).drop_last() =~= queue.take(i));
        lemma_resolve_error(context, queue, i + 1);
    } else {
        assert(queue.take(i) =~= queue);
    }
}

/// Every program that a scan builds runs on an empty stack without running
/// short, and leaves the number of values that the scan counted.
proof fn lemma_resolve_depth<V, F>(context: &Context<V, F>, queue: Seq<Lexeme>)
    requires
        resolve_scan(context, queue) is Ok,
    ensures
        stack_depth(resolve_scan(context, queue)->Ok_0.0, 0) == Some(
            resolve_scan(context, queue)->Ok_0.1,
        ),
    decreases queue.len(),
{
    if queue.len() > 0 {
        lemma_resolve_depth(context, queue.drop_last());
        let (steps, _) = resolve_scan(context, queue.drop_last())->Ok_0;
        let (steps2, _) = resolve_scan(context, queue)->Ok_0;
        if steps2.len() > steps.len() {
            assert(steps2.drop_last() =~= steps);
        }
    }
}

fn binary_op(s: &String) -> (r: Option<BinaryOp>)
    ensures
        r == spec_binary_op(s@),
{
    let t = s.as_str();
    if t.unicode_len() != 1 {
        return None;
    }
    let c = t.get_char(0);
    assert(t@ =~= seq![c]);
    if c == '+' {
        Some(BinaryOp::Add)
    } else if c == '-' {
        Some(BinaryOp::Subtract)
    } else if c == '*' {
        Some(BinaryOp::Multiply)
    } else if c == '/' {
        Some(BinaryOp::Divide)
    } else if c == '^' {
        Some(BinaryOp::Power)
    } else {
        proof {
            assert(seq![c][0] != seq!['+'][0] && seq![c][0] != seq!['-'][0]);
            assert(seq![c][0] != seq!['*'][0] && seq![c][0] != seq!['/'][0]);
            assert(seq![c][0] != seq!['^'][0]);
        }
        None
    }
}

/// Turns a postfix queue into a program for a stack machine: numbers and
/// variables push a value, the arithmetic operators pop two and push one, a
/// function pops its arguments and pushes one; other tokens are ignored. The
/// program runs without running short and leaves exactly one value.
pub fn resolve<V, F>(queue: &Vec<Token>, context: &Context<V, F>) -> (r: Result<
    Vec<Step>,
    EvalError,
>)
    requires
        context.wf(),
    ensures
        match r {
            Ok(steps) => program(context, lexemes(queue@)) == Ok::<Seq<StepView>, EvalError>(
                step_views(steps@),
            ) && stack_depth(step_views(steps@), 0) == Some(1nat),
            Err(e) => program(context, lexemes(queue@)) == Err::<Seq<StepView>, EvalError>(e),
        },
{
    let mut steps: Vec<Step> = Vec::new();
    let mut depth: usize = 0;
    let mut i: usize = 0;
    let ghost ls = lexemes(queue@);
    assert(ls.take(0) =~= seq![]);
    assert(step_views(steps@) =~= seq![]);
    while i < queue.len()
        invariant
            context.wf(),
            i <= queue@.len(),
            depth <= i,
            ls == lexemes(queue@),
            resolve_scan(context, ls.take(i as int)) == Ok::<Resolution, EvalError>(
                (step_views(steps@), depth as nat),
            ),
        decreases queue@.len() - i,
    {
        assert(ls.take(i + 1).drop_last() =~= ls.take(i as int));
        assert(ls.take(i + 1).last() == queue@[i as int]@);
        match &queue[i] {
            Token::Number(s) => {
                push_step(&mut steps, Step::Number(s.clone()));
                depth = depth + 1;
            },
            Token::Symbol(s) => {
                match binary_op(s) {
                    Some(op) => {
                        if depth < 2 {
                            proof {
                                lemma_resolve_error(context, ls, i + 1);
                            }
                            return Err(EvalError::StackUnderflow);
                        }
                        push_step(&mut steps, Step::Binary(op));
                        depth = depth - 1;
                    },
                    None => {},
                }
            },
            Token::Identifier(name) => {
                if context.get_variable(name.as_str()).is_some() {
                    push_step(&mut steps, Step::Variable(name.clone()));
                    depth = depth + 1;
                } else {
                    match context.get_function(name.as_str()) {
                        Some(function) => {
                            let k = function.num_args();
                            if depth < k {
                                proof {
                                    lemma_resolve_error(context, ls, i + 1);
                                }
                                return Err(EvalError::StackUnderflow);
                            }
                            push_step(&mut steps, Step::Call(name.clone(), k));
                            depth = depth - k + 1;
                        },
                        None => {
                            proof {
                                lemma_resolve_error(context, ls, i + 1);
                            }
                            return Err(EvalError::UndefinedReference);
                        },
                    }
                }
            },
            _ => {},
        }
        i += 1;
    }
    assert(ls.take(i as int) =~= ls);
    proof {
        lemma_resolve_depth(context, ls);
    }
    if depth != 1 {
        return Err(EvalError::MalformedResult);
    }
    Ok(steps)
}

} // verus!
