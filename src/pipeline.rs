use vstd::prelude::*;

use itertools::Itertools;

use crate::eval::{program, resolve, resolve_scan, stack_depth, step_views, Step, StepView};
use crate::parsing::{lex, lexemes, result_view, tokenize, LexError, Lexeme, Token};
use crate::reorder::{move_operators_spec, postfix, reorder_scan, shunting_yard};
use crate::{Context, EvalError, Operator};

verus! {

/// The values of `items` when all are `Ok`, or else the first error.
pub open spec fn collect_results(items: Seq<Result<Token, LexError>>) -> Result<
    Seq<Token>,
    LexError,
>
    decreases items.len(),
{
    if items.len() == 0 {
        Ok(seq![])
    } else {
        match items[0] {
            Err(e) => Err(e),
            Ok(t) => match collect_results(items.drop_first()) {
                Ok(rest) => Ok(seq![t] + rest),
                Err(e) => Err(e),
            },
        }
    }
}

/// The tokens of a scan when it met no error, or else its error.
pub open spec fn collect_lexemes(items: Seq<Result<Lexeme, LexError>>) -> Result<
    Seq<Lexeme>,
    LexError,
>
    decreases items.len(),
{
    if items.len() == 0 {
        Ok(seq![])
    } else {
        match items[0] {
            Err(e) => Err(e),
            Ok(t) => match collect_lexemes(items.drop_first()) {
                Ok(rest) => Ok(seq![t] + rest),
                Err(e) => Err(e),
            },
        }
    }
}

/// The stack program for the text of an expression: scanned, reordered into
/// postfix order and resolved against `context`; or the first error met.
pub open spec fn compiled<V, F>(context: &Context<V, F>, text: Seq<char>) -> Result<
    Seq<StepView>,
    EvalError,
> {
    match collect_lexemes(lex(text)) {
        Err(e) => Err(EvalError::Lex(e)),
        Ok(ls) => match postfix(context, ls) {
            Err(e) => Err(e),
            Ok(queue) => program(context, queue),
        },
    }
}

/// The views of a sequence of scanning results.
pub open spec fn result_views(items: Seq<Result<Token, LexError>>) -> Seq<Result<Lexeme, LexError>> {
    items.map_values(|x: Result<Token, LexError>| result_view(x))
}

/// What `prepare` hands back for `text`: the program that `compiled` gives,
/// which leaves one value, or the error that it gives.
pub open spec fn prepared<V, F>(
    context: &Context<V, F>,
    text: Seq<char>,
    r: Result<Vec<Step>, EvalError>,
) -> bool {
    match r {
        Ok(steps) => compiled(context, text) == Ok::<Seq<StepView>, EvalError>(step_views(steps@))
            && stack_depth(step_views(steps@), 0) == Some(1nat),
        Err(e) => compiled(context, text) == Err::<Seq<StepView>, EvalError>(e),
    }
}

/// Two contexts that hold the same variables, operators and functions.
pub open spec fn same_contents<V, F>(c1: &Context<V, F>, c2: &Context<V, F>) -> bool {
    &&& c1.variables() == c2.variables()
    &&& c1.operators() == c2.operators()
    &&& c1.functions() == c2.functions()
}

proof fn lemma_move_operators_same<V, F>(
    c1: &Context<V, F>,
    c2: &Context<V, F>,
    op: Operator,
    queue: Seq<Lexeme>,
    stack: Seq<Lexeme>,
)
    requires
        same_contents(c1, c2),
    ensures
        move_operators_spec(c1, op, queue, stack) == move_operators_spec(c2, op, queue, stack),
    decreases stack.len(),
{
    if stack.len() > 0 {
        lemma_move_operators_same(c1, c2, op, queue.push(stack.last()), stack.drop_last());
    }
}

proof fn lemma_reorder_scan_same<V, F>(c1: &Context<V, F>, c2: &Context<V, F>, ls: Seq<Lexeme>)
    requires
        same_contents(c1, c2),
    ensures
        reorder_scan(c1, ls) == reorder_scan(c2, ls),
    decreases ls.len(),
{
    if ls.len() > 0 {
        lemma_reorder_scan_same(c1, c2, ls.drop_last());
        match reorder_scan(c1, ls.drop_last()) {
            Ok(st) => match ls.last() {
                Lexeme::Symbol(s) => if c1.operators().contains_key(s) {
                    lemma_move_operators_same(c1, c2, c1.operators()[s], st.0, st.1);
                },
                _ => {},
            },
            Err(_) => {},
        }
    }
}

proof fn lemma_resolve_scan_same<V, F>(c1: &Context<V, F>, c2: &Context<V, F>, ls: Seq<Lexeme>)
    requires
        same_contents(c1, c2),
    ensures
        resolve_scan(c1, ls) == resolve_scan(c2, ls),
    decreases ls.len(),
{
    if ls.len() > 0 {
        lemma_resolve_scan_same(c1, c2, ls.drop_last());
    }
}

/// The program for a text depends on the context's contents alone: contexts
/// with the same variables, operators and functions give the same result.
pub proof fn lemma_compiled_depends_on_contents<V, F>(
    c1: &Context<V, F>,
    c2: &Context<V, F>,
    text: Seq<char>,
)
    requires
        same_contents(c1, c2),
    ensures
        compiled(c1, text) == compiled(c2, text),
{
    match collect_lexemes(lex(text)) {
        Ok(ls) => {
            lemma_reorder_scan_same(c1, c2, ls);
            match postfix(c1, ls) {
                Ok(queue) => lemma_resolve_scan_same(c1, c2, queue),
                Err(_) => {},
            }
        },
        Err(_) => {},
    }
}

/// Evaluation is repeatable: preparing the same text twice, against a context
/// left unchanged in between (or any context with the same contents), gives
/// the same program or the same error.
pub proof fn lemma_prepare_repeatable<V, F>(
    c1: &Context<V, F>,
    c2: &Context<V, F>,
    text: Seq<char>,
    r1: Result<Vec<Step>, EvalError>,
    r2: Result<Vec<Step>, EvalError>,
)
    requires
        same_contents(c1, c2),
        prepared(c1, text, r1),
        prepared(c2, text, r2),
    ensures
        match (r1, r2) {
            (Ok(a), Ok(b)) => step_views(a@) == step_views(b@),
            (Err(e1), Err(e2)) => e1 == e2,
            _ => false,
        },
{
    lemma_compiled_depends_on_contents(c1, c2, text);
}

/// Relies on itertools::Itertools::try_collect, which collects into a
/// `Result`: every value in order when all items are `Ok`, else the first
/// error.
#[verifier::external_body]
fn try_collect_tokens(items: Vec<Result<Token, LexError>>) -> (r: Result<Vec<Token>, LexError>)
    ensures
        match r {
            Ok(v) => collect_results(items@) == Ok::<Seq<Token>, LexError>(v@),
            Err(e) => collect_results(items@) == Err::<Seq<Token>, LexError>(e),
        },
{
    items.into_iter().try_collect()
}

proof fn lemma_collect_views(items: Seq<Result<Token, LexError>>)
    ensures
        collect_lexemes(result_views(items))
            == match collect_results(items) {
            Ok(v) => Ok::<Seq<Lexeme>, LexError>(lexemes(v)),
            Err(e) => Err::<Seq<Lexeme>, LexError>(e),
        },
    decreases items.len(),
{
    if items.len() == 0 {
        assert(lexemes(seq![]) =~= seq![]);
    } else {
        lemma_collect_views(items.drop_first());
        assert(result_views(items).drop_first() =~= result_views(items.drop_first()));
        assert(result_views(items)[0] == result_view(items[0]));
        match collect_results(items) {
            Ok(v) => {
                let rest = collect_results(items.drop_first())->Ok_0;
                assert(lexemes(v) =~= seq![items[0]->Ok_0@] + lexemes(rest));
            },
            Err(_) => {},
        }
    }
}

/// Scans all of `expression`: its tokens, or the first error.
pub fn tokenize_all(expression: &str) -> (r: Result<Vec<Token>, LexError>)
    ensures
        match r {
            Ok(v) => collect_lexemes(lex(expression@)) == Ok::<Seq<Lexeme>, LexError>(
                lexemes(v@),
            ),
            Err(e) => collect_lexemes(lex(expression@)) == Err::<Seq<Lexeme>, LexError>(e),
        },
{
    let mut tokens = tokenize(expression);
    let mut items: Vec<Result<Token, LexError>> = Vec::new();
    let ghost all = lex(expression@);
    loop
        invariant
            tokens.wf(),
            all == result_views(items@)
                + tokens.remaining(),
        ensures
            all == result_views(items@),
        decreases tokens.remaining().len(),
    {
        let ghost before = items@;
        match tokens.next() {
            Some(item) => {
                items.push(item);
                assert(result_views(items@)
                    =~= result_views(before).push(
                    result_view(item),
                ));
                assert(all =~= result_views(items@)
                    + tokens.remaining());
            },
            None => {
                assert(all =~= result_views(items@));
                break ;
            },
        }
    }
    proof {
        lemma_collect_views(items@);
    }
    try_collect_tokens(items)
}

/// Turns the text of an expression into a stack program over the variables,
/// operators and functions of `context`.
pub fn prepare<V, F>(expression: &str, context: &Context<V, F>) -> (r: Result<
    Vec<Step>,
    EvalError,
>)
    requires
        context.wf(),
    ensures
        prepared(context, expression@, r),
{
    let tokens = match tokenize_all(expression) {
        Ok(tokens) => tokens,
        Err(e) => {
            return Err(EvalError::Lex(e));
        },
    };
    let queue = shunting_yard(tokens, context)?;
    resolve(&queue, context)
}

} // verus!
