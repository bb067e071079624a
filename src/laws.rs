use vstd::prelude::*;

use crate::eval::{program, resolve_scan, spec_binary_op, Resolution, StepView};
use crate::parsing::{
    lemma_run_len, lex, lex_front, number_run, number_well_formed, spec_is_digit,
    spec_is_number_char, spec_is_whitespace, whitespace_run, LexError, Lexeme,
};
use crate::pipeline::{collect_lexemes, compiled};
use crate::reorder::{drain, move_operators_spec, postfix, reorder_scan, Reordering};
use crate::{Context, EvalError};

verus! {

/// The text of a numeric literal: a digit, then digits with at most one
/// decimal point, not at the end.
pub open spec fn is_number_text(a: Seq<char>) -> bool {
    &&& a.len() > 0
    &&& spec_is_digit(a[0])
    &&& forall|i: int| 0 <= i < a.len() ==> spec_is_number_char(#[trigger] a[i])
    &&& number_well_formed(a)
}

/// A run of whitespace, possibly empty.
pub open spec fn is_blank(w: Seq<char>) -> bool {
    forall|i: int| 0 <= i < w.len() ==> spec_is_whitespace(#[trigger] w[i])
}

proof fn lemma_lex_number(a: Seq<char>, rest: Seq<char>)
    requires
        is_number_text(a),
        rest.len() == 0 || !spec_is_number_char(rest[0]),
    ensures
        lex(a + rest) == seq![Ok::<Lexeme, LexError>(Lexeme::Number(a))] + lex(rest),
{
    let s = a + rest;
    lemma_run_len(s, |x: char| spec_is_number_char(x), a.len() as int);
    assert(number_run(s) == a.len());
    assert(s.take(a.len() as int) =~= a);
    assert(lex_front(s) == Ok::<Lexeme, LexError>(Lexeme::Number(a)));
    assert(s.skip(a.len() as int) =~= rest);
}

proof fn lemma_lex_blank(w: Seq<char>, rest: Seq<char>)
    requires
        w.len() > 0,
        is_blank(w),
        rest.len() == 0 || !spec_is_whitespace(rest[0]),
    ensures
        lex(w + rest) == seq![Ok::<Lexeme, LexError>(Lexeme::Whitespace(w))] + lex(rest),
{
    let s = w + rest;
    lemma_run_len(s, |x: char| spec_is_whitespace(x), w.len() as int);
    assert(whitespace_run(s) == w.len());
    assert(s.take(w.len() as int) =~= w);
    assert(s.skip(w.len() as int) =~= rest);
}

proof fn lemma_lex_symbol(c: char, rest: Seq<char>)
    requires
        spec_binary_op(seq![c]) is Some,
    ensures
        lex(seq![c] + rest) == seq![Ok::<Lexeme, LexError>(Lexeme::Symbol(seq![c]))] + lex(rest),
{
    let s = seq![c] + rest;
    lemma_binary_op_char(c);
    assert(s[0] == c);
    assert(s.take(1) =~= seq![c]);
    assert(s.skip(1) =~= rest);
}

proof fn lemma_binary_op_char(c: char)
    requires
        spec_binary_op(seq![c]) is Some,
    ensures
        c == '+' || c == '-' || c == '*' || c == '/' || c == '^',
{
    if !(c == '+' || c == '-' || c == '*' || c == '/' || c == '^') {
        assert(seq![c][0] != seq!['+'][0] && seq![c][0] != seq!['-'][0]);
        assert(seq![c][0] != seq!['*'][0] && seq![c][0] != seq!['/'][0]);
        assert(seq![c][0] != seq!['^'][0]);
    }
}

/// Lexes `w + rest`, where `w` is a possibly empty run of whitespace.
proof fn lemma_lex_optional_blank(w: Seq<char>, rest: Seq<char>)
    requires
        is_blank(w),
        rest.len() > 0 && !spec_is_whitespace(rest[0]),
    ensures
        lex(w + rest) == blank_lexemes(w) + lex(rest),
{
    if w.len() == 0 {
        assert(w + rest =~= rest);
        assert(blank_lexemes(w) + lex(rest) =~= lex(rest));
    } else {
        lemma_lex_blank(w, rest);
    }
}

/// The scanning results for a possibly empty run of whitespace.
pub open spec fn blank_lexemes(w: Seq<char>) -> Seq<Result<Lexeme, LexError>> {
    if w.len() == 0 {
        seq![]
    } else {
        seq![Ok(Lexeme::Whitespace(w))]
    }
}

proof fn lemma_collect_ok(x: Lexeme, t: Seq<Result<Lexeme, LexError>>)
    ensures
        collect_lexemes(seq![Ok(x)] + t) == match collect_lexemes(t) {
            Ok(r) => Ok::<Seq<Lexeme>, LexError>(seq![x] + r),
            Err(e) => Err(e),
        },
{
    assert((seq![Ok(x)] + t).drop_first() =~= t);
}

proof fn lemma_scan_push<V, F>(context: &Context<V, F>, ls: Seq<Lexeme>, t: Lexeme)
    ensures
        reorder_scan(context, ls.push(t)) == match reorder_scan(context, ls) {
            Ok(st) => crate::reorder::reorder_step(context, st, t),
            Err(e) => Err(e),
        },
{
    assert(ls.push(t).drop_last() =~= ls);
}

/// The tokens of a possibly empty run of whitespace.
pub open spec fn blank_tokens(w: Seq<char>) -> Seq<Lexeme> {
    if w.len() == 0 {
        seq![]
    } else {
        seq![Lexeme::Whitespace(w)]
    }
}

proof fn lemma_scan_blank<V, F>(context: &Context<V, F>, ls: Seq<Lexeme>, w: Seq<char>)
    ensures
        reorder_scan(context, ls + blank_tokens(w)) == reorder_scan(context, ls),
{
    if w.len() == 0 {
        assert(ls + blank_tokens(w) =~= ls);
    } else {
        assert(ls + blank_tokens(w) =~= ls.push(Lexeme::Whitespace(w)));
        lemma_scan_push(context, ls, Lexeme::Whitespace(w));
    }
}

/// The tokens of `a OP b` with optional whitespace around the operator.
pub open spec fn operation_tokens(a: Seq<char>, left_gap: Seq<char>, op: char, right_gap: Seq<char>, b: Seq<
    char,
>) -> Seq<Lexeme> {
    seq![Lexeme::Number(a)] + blank_tokens(left_gap) + seq![Lexeme::Symbol(seq![op])] + blank_tokens(
        right_gap,
    ) + seq![Lexeme::Number(b)]
}

proof fn lemma_lex_operation(a: Seq<char>, left_gap: Seq<char>, op: char, right_gap: Seq<char>, b: Seq<char>)
    requires
        is_number_text(a),
        is_number_text(b),
        is_blank(left_gap),
        is_blank(right_gap),
        spec_binary_op(seq![op]) is Some,
    ensures
        collect_lexemes(lex(a + left_gap + seq![op] + right_gap + b)) == Ok::<Seq<Lexeme>, LexError>(
            operation_tokens(a, left_gap, op, right_gap, b),
        ),
{
    let o = seq![op];
    let text = a + left_gap + o + right_gap + b;
    let ra = Ok::<Lexeme, LexError>(Lexeme::Number(a));
    let rb = Ok::<Lexeme, LexError>(Lexeme::Number(b));
    let ro = Ok::<Lexeme, LexError>(Lexeme::Symbol(o));
    lemma_binary_op_char(op);
    // scanning
    lemma_lex_number(b, seq![]);
    assert(b + seq![] =~= b);
    assert(lex(seq![]) =~= Seq::<Result<Lexeme, LexError>>::empty());
    assert(spec_is_digit(b[0]));
    lemma_lex_optional_blank(right_gap, b);
    lemma_lex_symbol(op, right_gap + b);
    assert((o + (right_gap + b))[0] == op);
    lemma_lex_optional_blank(left_gap, o + (right_gap + b));
    let rest1 = left_gap + (o + (right_gap + b));
    assert(rest1.len() == 0 || !spec_is_number_char(rest1[0])) by {
        if left_gap.len() > 0 {
            assert(rest1[0] == left_gap[0]);
        } else {
            assert(rest1[0] == op);
        }
    }
    lemma_lex_number(a, rest1);
    assert(text =~= a + rest1);
    let items = seq![ra] + (blank_lexemes(left_gap) + (seq![ro] + (blank_lexemes(right_gap) + seq![rb])));
    assert(lex(text) =~= items);
    // collecting
    let ls = operation_tokens(a, left_gap, op, right_gap, b);
    lemma_collect_ok(Lexeme::Number(b), seq![]);
    assert(collect_lexemes(seq![rb]) == Ok::<Seq<Lexeme>, LexError>(seq![Lexeme::Number(b)])) by {
        assert(seq![rb] =~= seq![rb] + Seq::<Result<Lexeme, LexError>>::empty());
        assert(seq![Lexeme::Number(b)] + Seq::<Lexeme>::empty() =~= seq![Lexeme::Number(b)]);
    }
    let t2 = blank_lexemes(right_gap) + seq![rb];
    assert(collect_lexemes(t2) == Ok::<Seq<Lexeme>, LexError>(
        blank_tokens(right_gap) + seq![Lexeme::Number(b)],
    )) by {
        if right_gap.len() > 0 {
            lemma_collect_ok(Lexeme::Whitespace(right_gap), seq![rb]);
        } else {
            assert(t2 =~= seq![rb]);
            assert(blank_tokens(right_gap) + seq![Lexeme::Number(b)] =~= seq![Lexeme::Number(b)]);
        }
    }
    lemma_collect_ok(Lexeme::Symbol(o), t2);
    let t1 = blank_lexemes(left_gap) + (seq![ro] + t2);
    let l1 = seq![Lexeme::Symbol(o)] + (blank_tokens(right_gap) + seq![Lexeme::Number(b)]);
    assert(collect_lexemes(t1) == Ok::<Seq<Lexeme>, LexError>(blank_tokens(left_gap) + l1)) by {
        if left_gap.len() > 0 {
            lemma_collect_ok(Lexeme::Whitespace(left_gap), seq![ro] + t2);
        } else {
            assert(t1 =~= seq![ro] + t2);
            assert(blank_tokens(left_gap) + l1 =~= l1);
        }
    }
    lemma_collect_ok(Lexeme::Number(a), t1);
    assert(items =~= seq![ra] + t1);
    assert(seq![Lexeme::Number(a)] + (blank_tokens(left_gap) + l1) =~= ls);
    assert(collect_lexemes(lex(text)) == Ok::<Seq<Lexeme>, LexError>(ls));
}

proof fn lemma_postfix_operation<V, F>(
    context: &Context<V, F>,
    a: Seq<char>,
    left_gap: Seq<char>,
    op: char,
    right_gap: Seq<char>,
    b: Seq<char>,
)
    requires
        context.operators().contains_key(seq![op]),
    ensures
        postfix(context, operation_tokens(a, left_gap, op, right_gap, b)) == Ok::<Seq<Lexeme>, EvalError>(
            seq![Lexeme::Number(a), Lexeme::Number(b), Lexeme::Symbol(seq![op])],
        ),
{
    let o = seq![op];
    let ls = operation_tokens(a, left_gap, op, right_gap, b);
    // reordering
    let na = Lexeme::Number(a);
    let nb = Lexeme::Number(b);
    let so = Lexeme::Symbol(o);
    let prefix1 = seq![na];
    let prefix2 = prefix1 + blank_tokens(left_gap);
    let prefix3 = prefix2.push(so);
    let prefix4 = prefix3 + blank_tokens(right_gap);
    let prefix5 = prefix4.push(nb);
    assert(prefix5 =~= ls);
    lemma_scan_push(context, Seq::<Lexeme>::empty(), na);
    assert(Seq::<Lexeme>::empty().push(na) =~= prefix1);
    assert(Seq::<Lexeme>::empty().push(na) =~= seq![na]);
    assert(reorder_scan(context, prefix1) == Ok::<Reordering, EvalError>((seq![na], seq![])));
    lemma_scan_blank(context, prefix1, left_gap);
    lemma_scan_push(context, prefix2, so);
    let st_empty: Seq<Lexeme> = seq![];
    assert(move_operators_spec(context, context.operators()[o], seq![na], st_empty) == (
    seq![na], st_empty));
    assert(st_empty.push(so) =~= seq![so]);
    assert(reorder_scan(context, prefix3) == Ok::<Reordering, EvalError>((seq![na], seq![so])));
    lemma_scan_blank(context, prefix3, right_gap);
    lemma_scan_push(context, prefix4, nb);
    assert(seq![na].push(nb) =~= seq![na, nb]);
    assert(reorder_scan(context, prefix5) == Ok::<Reordering, EvalError>((seq![na, nb], seq![so])));
    assert(seq![so].drop_last() =~= st_empty);
    assert(seq![na, nb].push(so) =~= seq![na, nb, so]);
    assert(drain(seq![na, nb, so], st_empty) == Ok::<Seq<Lexeme>, EvalError>(seq![na, nb, so]));
    assert(postfix(context, ls) == Ok::<Seq<Lexeme>, EvalError>(seq![na, nb, so]));
}

proof fn lemma_program_operation<V, F>(context: &Context<V, F>, a: Seq<char>, b: Seq<char>, op: char)
    requires
        spec_binary_op(seq![op]) is Some,
    ensures
        program(
            context,
            seq![Lexeme::Number(a), Lexeme::Number(b), Lexeme::Symbol(seq![op])],
        ) == Ok::<Seq<StepView>, EvalError>(
            seq![
                StepView::Number(a),
                StepView::Number(b),
                StepView::Binary(spec_binary_op(seq![op])->Some_0),
            ],
        ),
{
    let o = seq![op];
    let na = Lexeme::Number(a);
    let nb = Lexeme::Number(b);
    let so = Lexeme::Symbol(o);
    // resolving
    let q = seq![na, nb, so];
    assert(q.take(0) =~= Seq::<Lexeme>::empty());
    assert(q.drop_last() =~= seq![na, nb]);
    assert(seq![na, nb].drop_last() =~= seq![na]);
    assert(seq![na].drop_last() =~= Seq::<Lexeme>::empty());
    let e: Seq<StepView> = seq![];
    assert(e.push(StepView::Number(a)) =~= seq![StepView::Number(a)]);
    assert(seq![StepView::Number(a)].push(StepView::Number(b)) =~= seq![
        StepView::Number(a),
        StepView::Number(b),
    ]);
    assert(seq![StepView::Number(a), StepView::Number(b)].push(
        StepView::Binary(spec_binary_op(o)->Some_0),
    ) =~= seq![
        StepView::Number(a),
        StepView::Number(b),
        StepView::Binary(spec_binary_op(o)->Some_0),
    ]);
    assert(resolve_scan(context, Seq::<Lexeme>::empty()) == Ok::<Resolution, EvalError>((e, 0)));
    assert(resolve_scan(context, seq![na]) == Ok::<Resolution, EvalError>(
        (seq![StepView::Number(a)], 1),
    ));
    assert(resolve_scan(context, seq![na, nb]) == Ok::<Resolution, EvalError>(
        (seq![StepView::Number(a), StepView::Number(b)], 2),
    ));
    assert(program(context, q) == Ok::<Seq<StepView>, EvalError>(
        seq![
            StepView::Number(a),
            StepView::Number(b),
            StepView::Binary(spec_binary_op(o)->Some_0),
        ],
    ));
}

/// A single binary operation: the text `a OP b`, with optional whitespace
/// around an arithmetic operator that `context` registers, becomes the program
/// that pushes `a`, pushes `b` and applies OP to them in that order.
pub proof fn lemma_single_operation<V, F>(
    context: &Context<V, F>,
    a: Seq<char>,
    left_gap: Seq<char>,
    op: char,
    right_gap: Seq<char>,
    b: Seq<char>,
)
    requires
        is_number_text(a),
        is_number_text(b),
        is_blank(left_gap),
        is_blank(right_gap),
        spec_binary_op(seq![op]) is Some,
        context.operators().contains_key(seq![op]),
    ensures
        compiled(context, a + left_gap + seq![op] + right_gap + b) == Ok::<Seq<StepView>, EvalError>(
            seq![
                StepView::Number(a),
                StepView::Number(b),
                StepView::Binary(spec_binary_op(seq![op])->Some_0),
            ],
        ),
{
    lemma_lex_operation(a, left_gap, op, right_gap, b);
    lemma_postfix_operation(context, a, left_gap, op, right_gap, b);
    lemma_program_operation(context, a, b, op);
}

} // verus!
