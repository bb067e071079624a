use vstd::prelude::*;

use crate::parsing::{lexemes, push_token, Lexeme, Token};
use crate::{Associativity, Context, EvalError, Operator};

verus! {

/// The pair of output queue and operator stack that the reordering carries.
pub type Reordering = (Seq<Lexeme>, Seq<Lexeme>);

/// Whether `top`, on top of the operator stack, leaves for the output before
/// `op` is pushed: it is an operator that binds tighter, or as tightly while
/// `op` groups to the left.
pub open spec fn pops_before<V, F>(context: &Context<V, F>, op: Operator, top: Lexeme) -> bool {
    match top {
        Lexeme::Symbol(s) => context.operators().contains_key(s) && ({
            let other = context.operators()[s];
            other.precedence > op.precedence || (other.precedence == op.precedence
                && op.associativity == Associativity::Left)
        }),
        _ => false,
    }
}

/// Moves to the output the operators on top of the stack that go before `op`.
pub open spec fn move_operators_spec<V, F>(
    context: &Context<V, F>,
    op: Operator,
    queue: Seq<Lexeme>,
    stack: Seq<Lexeme>,
) -> Reordering
    decreases stack.len(),
{
    if stack.len() > 0 && pops_before(context, op, stack.last()) {
        move_operators_spec(context, op, queue.push(stack.last()), stack.drop_last())
    } else {
        (queue, stack)
    }
}

/// A closing parenthesis: moves operators to the output down to the matching
/// opening parenthesis, drops that, and then moves a function name found below
/// it.
pub open spec fn close_group(queue: Seq<Lexeme>, stack: Seq<Lexeme>) -> Result<Reordering, EvalError>
    decreases stack.len(),
{
    if stack.len() == 0 {
        Err(EvalError::MismatchedParentheses)
    } else if stack.last() is LeftParenthesis {
        let rest = stack.drop_last();
        if rest.len() > 0 && rest.last() is Identifier {
            Ok((queue.push(rest.last()), rest.drop_last()))
        } else {
            Ok((queue, rest))
        }
    } else {
        close_group(queue.push(stack.last()), stack.drop_last())
    }
}

/// An argument separator: moves operators to the output down to the nearest
/// opening parenthesis, which stays.
pub open spec fn separate(queue: Seq<Lexeme>, stack: Seq<Lexeme>) -> Result<Reordering, EvalError>
    decreases stack.len(),
{
    if stack.len() == 0 {
        Err(EvalError::MalformedArgumentList)
    } else if stack.last() is LeftParenthesis {
        Ok((queue, stack))
    } else {
        separate(queue.push(stack.last()), stack.drop_last())
    }
}

/// What one input token does to the queue and the stack.
pub open spec fn reorder_step<V, F>(context: &Context<V, F>, st: Reordering, t: Lexeme) -> Result<
    Reordering,
    EvalError,
> {
    let (queue, stack) = st;
    match t {
        Lexeme::Number(_) => Ok((queue.push(t), stack)),
        Lexeme::Identifier(name) => if context.functions().contains_key(name) {
            Ok((queue, stack.push(t)))
        } else {
            Ok((queue.push(t), stack))
        },
        Lexeme::Symbol(s) => if context.operators().contains_key(s) {
            let (q, st2) = move_operators_spec(context, context.operators()[s], queue, stack);
            Ok((q, st2.push(t)))
        } else {
            Err(EvalError::UnknownOperator)
        },
        Lexeme::Whitespace(_) => Ok((queue, stack)),
        Lexeme::LeftParenthesis => Ok((queue, stack.push(t))),
        Lexeme::RightParenthesis => close_group(queue, stack),
        Lexeme::ArgumentSeparator => separate(queue, stack),
    }
}

/// The queue and stack after all of `tokens`, from left to right.
pub open spec fn reorder_scan<V, F>(context: &Context<V, F>, tokens: Seq<Lexeme>) -> Result<
    Reordering,
    EvalError,
>
    decreases tokens.len(),
{
    if tokens.len() == 0 {
        Ok((seq![], seq![]))
    } else {
        match reorder_scan(context, tokens.drop_last()) {
            Ok(st) => reorder_step(context, st, tokens.last()),
            Err(e) => Err(e),
        }
    }
}

/// Empties the stack onto the output, top first; a parenthesis left open
/// there has no match.
pub open spec fn drain(queue: Seq<Lexeme>, stack: Seq<Lexeme>) -> Result<Seq<Lexeme>, EvalError>
    decreases stack.len(),
{
    if stack.len() == 0 {
        Ok(queue)
    } else if stack.last() is LeftParenthesis {
        Err(EvalError::MismatchedParentheses)
    } else {
        drain(queue.push(stack.last()), stack.drop_last())
    }
}

/// The postfix order of `tokens`.
pub open spec fn postfix<V, F>(context: &Context<V, F>, tokens: Seq<Lexeme>) -> Result<
    Seq<Lexeme>,
    EvalError,
> {
    match reorder_scan(context, tokens) {
        Ok((queue, stack)) => drain(queue, stack),
        Err(e) => Err(e),
    }
}

proof fn lemma_scan_error<V, F>(context: &Context<V, F>, tokens: Seq<Lexeme>, i: int)
    requires
        0 <= i <= tokens.len(),
        reorder_scan(context, tokens.take(i)) is Err,
    ensures
        reorder_scan(context, tokens) == reorder_scan(context, tokens.take(i)),
    decreases tokens.len() - i,
{
    if i < tokens.len() {
        assert(tokens.take(i + 1).drop_last() =~= tokens.take(i));
        lemma_scan_error(context, tokens, i + 1);
    } else {
        assert(tokens.take(i) =~= tokens);
    }
}

/// A copy of `t`.
fn copy_token(t: &Token) -> (r: Token)
    ensures
        r == *t,
{
    match t {
        Token::Number(s) => Token::Number(s.clone()),
        Token::Identifier(s) => Token::Identifier(s.clone()),
        Token::Symbol(s) => Token::Symbol(s.clone()),
        Token::Whitespace(s) => Token::Whitespace(s.clone()),
        Token::LeftParenthesis => Token::LeftParenthesis,
        Token::RightParenthesis => Token::RightParenthesis,
        Token::ArgumentSeparator => Token::ArgumentSeparator,
    }
}

fn top_is_open(stack: &Vec<Token>) -> (r: bool)
    ensures
        r == (lexemes(stack@).len() > 0 && lexemes(stack@).last() is LeftParenthesis),
{
    stack.len() > 0 && match &stack[stack.len() - 1] {
        Token::LeftParenthesis => true,
        _ => false,
    }
}

fn top_is_identifier(stack: &Vec<Token>) -> (r: bool)
    ensures
        r == (lexemes(stack@).len() > 0 && lexemes(stack@).last() is Identifier),
{
    stack.len() > 0 && match &stack[stack.len() - 1] {
        Token::Identifier(_) => true,
        _ => false,
    }
}

/// Moves the top of `stack` to the back of `queue`.
fn move_top(stack: &mut Vec<Token>, queue: &mut Vec<Token>)
    requires
        old(stack)@.len() > 0,
    ensures
        final(stack)@ == old(stack)@.drop_last(),
        final(queue)@ == old(queue)@.push(old(stack)@.last()),
        lexemes(final(stack)@) == lexemes(old(stack)@).drop_last(),
        lexemes(final(queue)@) == lexemes(old(queue)@).push(lexemes(old(stack)@).last()),
{
    match stack.pop() {
        Some(t) => push_token(queue, t),
        None => {},
    }
    assert(lexemes(stack@) =~= lexemes(old(stack)@).drop_last());
}

/// Removes the top of `stack`.
fn drop_top(stack: &mut Vec<Token>)
    requires
        old(stack)@.len() > 0,
    ensures
        lexemes(final(stack)@) == lexemes(old(stack)@).drop_last(),
{
    stack.pop();
    assert(lexemes(stack@) =~= lexemes(old(stack)@).drop_last());
}

fn top_pops_before<V, F>(operator: &Operator, stack: &Vec<Token>, context: &Context<V, F>) -> (r:
    bool)
    requires
        context.wf(),
    ensures
        r == (lexemes(stack@).len() > 0 && pops_before(
            context,
            *operator,
            lexemes(stack@).last(),
        )),
{
    if stack.len() == 0 {
        return false;
    }
    match &stack[stack.len() - 1] {
        Token::Symbol(other_symbol) => match context.get_operator(other_symbol.as_str()) {
            Some(other) => other.precedence > operator.precedence || (other.precedence
                == operator.precedence && operator.associativity == Associativity::Left),
            None => false,
        },
        _ => false,
    }
}

/// Moves to the output the operators on top of the stack that bind tighter
/// than `operator`, or as tightly where it groups to the left.
fn move_operators<V, F>(
    operator: &Operator,
    stack: &mut Vec<Token>,
    queue: &mut Vec<Token>,
    context: &Context<V, F>,
)
    requires
        context.wf(),
    ensures
        (lexemes(final(queue)@), lexemes(final(stack)@)) == move_operators_spec(
            context,
            *operator,
            lexemes(old(queue)@),
            lexemes(old(stack)@),
        ),
{
    while top_pops_before(operator, stack, context)
        invariant
            context.wf(),
            move_operators_spec(context, *operator, lexemes(queue@), lexemes(stack@))
                == move_operators_spec(
                context,
                *operator,
                lexemes(old(queue)@),
                lexemes(old(stack)@),
            ),
        decreases stack@.len(),
    {
        move_top(stack, queue);
    }
}

/// Reorders `tokens` from infix into postfix order, as the shunting-yard
/// algorithm does with the operators and functions of `context`.
pub fn shunting_yard<V, F>(tokens: Vec<Token>, context: &Context<V, F>) -> (r: Result<
    Vec<Token>,
    EvalError,
>)
    requires
        context.wf(),
    ensures
        match r {
            Ok(queue) => postfix(context, lexemes(tokens@)) == Ok::<Seq<Lexeme>, EvalError>(
                lexemes(queue@),
            ),
            Err(e) => postfix(context, lexemes(tokens@)) == Err::<Seq<Lexeme>, EvalError>(e),
        },
{
    let mut queue: Vec<Token> = Vec::new();
    let mut stack: Vec<Token> = Vec::new();
    let mut i: usize = 0;
    let ghost ls = lexemes(tokens@);
    assert(ls.take(0) =~= seq![]);
    assert(lexemes(queue@) =~= seq![]);
    while i < tokens.len()
        invariant
            context.wf(),
            i <= tokens@.len(),
            ls == lexemes(tokens@),
            reorder_scan(context, ls.take(i as int)) == Ok::<Reordering, EvalError>(
                (lexemes(queue@), lexemes(stack@)),
            ),
        decreases tokens@.len() - i,
    {
        let token = copy_token(&tokens[i]);
        assert(ls.take(i + 1).drop_last() =~= ls.take(i as int));
        assert(ls.take(i + 1).last() == token@);
        match &token {
            Token::Number(_) => push_token(&mut queue, token),
            Token::Identifier(name) => {
                if context.function_exists(name.as_str()) {
                    push_token(&mut stack, token);
                } else {
                    push_token(&mut queue, token);
                }
            },
            Token::Symbol(symbol) => {
                match context.get_operator(symbol.as_str()) {
                    Some(operator) => {
                        move_operators(operator, &mut stack, &mut queue, context);
                        push_token(&mut stack, token);
                    },
                    None => {
                        proof {
                            lemma_scan_error(context, ls, i + 1);
                        }
                        return Err(EvalError::UnknownOperator);
                    },
                }
            },
            Token::Whitespace(_) => {},
            Token::LeftParenthesis => push_token(&mut stack, token),
            Token::RightParenthesis => {
                while stack.len() > 0 && !top_is_open(&stack)
                    invariant
                        close_group(lexemes(queue@), lexemes(stack@)) == reorder_step(
                            context,
                            reorder_scan(context, ls.take(i as int))->Ok_0,
                            token@,
                        ),
                    decreases stack@.len(),
                {
                    move_top(&mut stack, &mut queue);
                }
                if stack.len() == 0 {
                    proof {
                        lemma_scan_error(context, ls, i + 1);
                    }
                    return Err(EvalError::MismatchedParentheses);
                }
                drop_top(&mut stack);
                if top_is_identifier(&stack) {
                    move_top(&mut stack, &mut queue);
                }
            },
            Token::ArgumentSeparator => {
                while stack.len() > 0 && !top_is_open(&stack)
                    invariant
                        separate(lexemes(queue@), lexemes(stack@)) == reorder_step(
                            context,
                            reorder_scan(context, ls.take(i as int))->Ok_0,
                            token@,
                        ),
                    decreases stack@.len(),
                {
                    move_top(&mut stack, &mut queue);
                }
                if stack.len() == 0 {
                    proof {
                        lemma_scan_error(context, ls, i + 1);
                    }
                    return Err(EvalError::MalformedArgumentList);
                }
            },
        }
        i += 1;
    }
    assert(ls.take(i as int) =~= ls);
    while stack.len() > 0
        invariant
            drain(lexemes(queue@), lexemes(stack@)) == postfix(context, ls),
            ls == lexemes(tokens@),
        decreases stack@.len(),
    {
        if top_is_open(&stack) {
            return Err(EvalError::MismatchedParentheses);
        }
        move_top(&mut stack, &mut queue);
    }
    Ok(queue)
}

} // verus!
