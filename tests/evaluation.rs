use clc::{
    prepare, resolve, shunting_yard, tokenize_all, Associativity, BinaryOp, Context, EvalError,
    Function, Operator, Step, Token,
};
use core::f64::consts::PI;

type Native = fn(&[f64]) -> f64;

fn min2(args: &[f64]) -> f64 {
    if args[0] < args[1] {
        args[0]
    } else {
        args[1]
    }
}

fn max2(args: &[f64]) -> f64 {
    if args[0] > args[1] {
        args[0]
    } else {
        args[1]
    }
}

fn sub3(args: &[f64]) -> f64 {
    args[0] - args[1] - args[2]
}

fn standard() -> Context<f64, Native> {
    let mut context = Context::with_arithmetic_operators();
    context.add_function(Function::NativeFunction {
        name: String::from("min"),
        num_args: 2,
        execute: min2 as Native,
    });
    context.add_function(Function::NativeFunction {
        name: String::from("max"),
        num_args: 2,
        execute: max2 as Native,
    });
    context
}

/// Runs a prepared program on a stack of floats.
fn run(steps: &[Step], context: &Context<f64, Native>) -> f64 {
    let mut stack: Vec<f64> = Vec::new();
    for step in steps {
        match step {
            Step::Number(text) => stack.push(text.parse().unwrap()),
            Step::Variable(name) => stack.push(*context.get_variable(name).unwrap()),
            Step::Binary(op) => {
                let right = stack.pop().unwrap();
                let left = stack.pop().unwrap();
                stack.push(match op {
                    BinaryOp::Add => left + right,
                    BinaryOp::Subtract => left - right,
                    BinaryOp::Multiply => left * right,
                    BinaryOp::Divide => left / right,
                    BinaryOp::Power => left.powf(right),
                });
            }
            Step::Call(name, k) => {
                let args = stack.split_off(stack.len() - k);
                match context.get_function(name).unwrap() {
                    Function::NativeFunction { execute, .. } => stack.push(execute(&args)),
                }
            }
        }
    }
    assert_eq!(stack.len(), 1);
    stack[0]
}

fn evaluate(expression: &str, context: &Context<f64, Native>) -> f64 {
    let steps = prepare(expression, context).unwrap();
    run(&steps, context)
}

fn calc(expression: &str) -> f64 {
    evaluate(expression, &standard())
}

fn num(s: &str) -> Step {
    Step::Number(s.to_string())
}

#[test]
fn addition() {
    assert_eq!(calc("4 + 9"), 4.0 + 9.0);
}

#[test]
fn subtraction() {
    assert_eq!(calc("25 - 3"), 25.0 - 3.0);
}

#[test]
fn multiplication() {
    assert_eq!(calc("2 * 3"), 2.0 * 3.0);
}

#[test]
fn division() {
    assert_eq!(calc("10 / 2"), 10.0 / 2.0);
}

#[test]
fn exponentiation() {
    assert_eq!(calc("2^10"), f64::powf(2.0, 10.0));
}

#[test]
fn variables() {
    let mut context = standard();
    context.set_variable("pi", PI);

    assert_eq!(evaluate("2 * pi", &context), 2.0 * PI);
}

#[test]
fn precedence() {
    assert_eq!(calc("2 + 3 * 4"), 2.0 + 3.0 * 4.0);
}

#[test]
fn parentheses() {
    assert_eq!(calc("(2 + 3) * 4"), (2.0 + 3.0) * 4.0);
    assert_eq!(calc("((2) + 3) * 4"), (2.0 + 3.0) * 4.0);
    assert_eq!(calc("(5 + 3) * (4 - 1)"), (5.0 + 3.0) * (4.0 - 1.0));
    assert_eq!(calc("2^(9+1)"), f64::powf(2.0, 9.0 + 1.0));
}

#[test]
fn functions() {
    assert_eq!(calc("max(2 * 4, 3 + 5)"), 8.0);
}

#[test]
fn precedence_program_order() {
    let steps = prepare("2 + 3 * 4", &standard()).unwrap();
    assert_eq!(
        steps,
        vec![
            num("2"),
            num("3"),
            num("4"),
            Step::Binary(BinaryOp::Multiply),
            Step::Binary(BinaryOp::Add)
        ]
    );
    assert_eq!(calc("2 + 3 * 4"), 14.0);
}

#[test]
fn subtraction_groups_to_the_left() {
    let steps = prepare("25 - 3 - 2", &standard()).unwrap();
    assert_eq!(
        steps,
        vec![
            num("25"),
            num("3"),
            Step::Binary(BinaryOp::Subtract),
            num("2"),
            Step::Binary(BinaryOp::Subtract)
        ]
    );
    assert_eq!(calc("25 - 3 - 2"), 20.0);
}

#[test]
fn power_groups_to_the_right() {
    assert_eq!(calc("2^3^2"), 512.0);
}

#[test]
fn nested_parentheses() {
    assert_eq!(calc("(2 + 3) * 4"), 20.0);
    assert_eq!(calc("((2) + 3) * 4"), 20.0);
}

#[test]
fn variable_substitution() {
    let mut context = standard();
    context.set_variable("pi", 3.14159265);
    assert_eq!(evaluate("2 * pi", &context), 2.0 * 3.14159265);
}

#[test]
fn variable_rebinding_replaces_value() {
    let mut context = standard();
    context.set_variable("x", 1.0);
    context.set_variable("x", 5.0);
    assert_eq!(*context.get_variable("x").unwrap(), 5.0);
    assert_eq!(evaluate("x * 2", &context), 10.0);
    assert!(context.get_variable("y").is_none());
}

#[test]
fn function_arguments_keep_their_order() {
    let mut context = standard();
    context.add_function(Function::NativeFunction {
        name: String::from("sub"),
        num_args: 3,
        execute: sub3 as Native,
    });
    assert_eq!(evaluate("sub(10, 2, 3)", &context), 5.0);
    assert_eq!(evaluate("min(7, 2 * 4)", &context), 7.0);
}

#[test]
fn repeated_evaluation_is_identical() {
    let context = standard();
    let first = prepare("max(1, 2) + 3 * (4 - 1)", &context).unwrap();
    let second = prepare("max(1, 2) + 3 * (4 - 1)", &context).unwrap();
    assert_eq!(first, second);
    assert_eq!(run(&first, &context), run(&second, &context));
}

#[test]
fn unmatched_open_parenthesis() {
    assert_eq!(prepare("(1 + 2", &standard()), Err(EvalError::MismatchedParentheses));
}

#[test]
fn unmatched_close_parenthesis() {
    assert_eq!(prepare("1 + 2)", &standard()), Err(EvalError::MismatchedParentheses));
}

#[test]
fn unknown_operator() {
    assert_eq!(prepare("1 + $", &standard()), Err(EvalError::UnknownOperator));
}

#[test]
fn undefined_reference() {
    assert_eq!(prepare("unknownvar + 1", &standard()), Err(EvalError::UndefinedReference));
}

#[test]
fn malformed_number_fails_before_reordering() {
    assert_eq!(
        prepare("3.4.5", &standard()),
        Err(EvalError::Lex(clc::LexError::MalformedNumber))
    );
}

#[test]
fn separator_outside_parentheses() {
    assert_eq!(prepare("1, 2", &standard()), Err(EvalError::MalformedArgumentList));
}

#[test]
fn operator_short_of_operands() {
    assert_eq!(prepare("1 +", &standard()), Err(EvalError::StackUnderflow));
    assert_eq!(prepare("max(1)", &standard()), Err(EvalError::StackUnderflow));
}

#[test]
fn leftover_values_are_malformed() {
    assert_eq!(prepare("1 2", &standard()), Err(EvalError::MalformedResult));
    assert_eq!(prepare("", &standard()), Err(EvalError::MalformedResult));
}

#[test]
fn shunting_yard_emits_postfix() {
    let context = standard();
    let tokens = tokenize_all("max(1, 2) * 3").unwrap();
    let queue = shunting_yard(tokens, &context).unwrap();
    let kinds: Vec<String> = queue
        .iter()
        .map(|t| match t {
            Token::Number(s) | Token::Identifier(s) | Token::Symbol(s) => s.clone(),
            _ => String::from("?"),
        })
        .collect();
    assert_eq!(kinds, vec!["1", "2", "max", "3", "*"]);
    let steps = resolve(&queue, &context).unwrap();
    assert_eq!(steps[2], Step::Call(String::from("max"), 2));
}

#[test]
fn registry_lookups() {
    let mut context = standard();
    assert!(context.function_exists("max"));
    assert!(!context.function_exists("sum"));
    assert_eq!(context.get_operator("^").unwrap().precedence, 4);
    assert_eq!(context.get_operator("^").unwrap().associativity, Associativity::Right);
    assert!(context.get_operator("%").is_none());
    context.add_operator("^", 1, Associativity::Left);
    assert_eq!(context.get_operator("^").unwrap().precedence, 1);
    assert_eq!(calc("2^3^2"), 512.0);
    assert_eq!(evaluate("2^3^2", &context), 64.0);
    assert_eq!(evaluate("2^3*2", &context), 64.0);
    let f = context.get_function("min").unwrap();
    assert_eq!(f.get_name(), "min");
    assert_eq!(f.num_args(), 2);
}

#[test]
fn operator_new_keeps_fields() {
    let op = Operator::new("%", 7, Associativity::Left);
    assert_eq!(op.symbol, "%");
    assert_eq!(op.precedence, 7);
    assert_eq!(op.associativity, Associativity::Left);
}

#[test]
fn empty_context_knows_nothing() {
    let context: Context<f64, Native> = Context::new();
    assert_eq!(prepare("1 + 2", &context), Err(EvalError::UnknownOperator));
    assert_eq!(prepare("7", &context), Ok(vec![num("7")]));
}
