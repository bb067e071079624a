use vstd::prelude::*;

pub mod eval;
pub mod laws;
pub mod parsing;
pub mod pipeline;
pub mod reorder;
pub mod table;

pub use eval::{resolve, BinaryOp, Step};
pub use parsing::{tokenize, LexError, Lexeme, Token, Tokens};
pub use pipeline::{prepare, tokenize_all};
pub use reorder::shunting_yard;
use table::NameTable;

verus! {

/// Why an expression could not be evaluated.
#[derive(Debug, Clone, Copy, PartialEq, Eq, Structural)]
pub enum EvalError {
    /// Scanning failed.
    Lex(LexError),
    /// A symbol names no registered operator.
    UnknownOperator,
    /// A closing parenthesis without an opening one, or the reverse.
    MismatchedParentheses,
    /// An argument separator outside any parentheses.
    MalformedArgumentList,
    /// A name that is neither a variable nor a function.
    UndefinedReference,
    /// An operator or function found too few operands.
    StackUnderflow,
    /// The expression left no value, or more than one.
    MalformedResult,
}

/// How operators of equal precedence group.
#[derive(Debug, Clone, Copy, PartialEq, Eq, Structural)]
pub enum Associativity {
    Left,
    Right,
}

/// A binary operator: its symbol, how tightly it binds (higher binds tighter)
/// and how it groups.
#[derive(Debug)]
pub struct Operator {
    pub symbol: String,
    pub precedence: i32,
    pub associativity: Associativity,
}

impl Operator {
    pub fn new(symbol: &str, precedence: i32, associativity: Associativity) -> (r: Self)
        ensures
            r.symbol@ == symbol@,
            r.precedence == precedence,
            r.associativity == associativity,
    {
        Operator { symbol: symbol.to_owned(), precedence, associativity }
    }
}

/// A function that the host registers: its name, how many arguments it takes,
/// and the callable that computes its value.
pub enum Function<F> {
    NativeFunction { name: String, num_args: usize, execute: F },
}

impl<F> Function<F> {
    pub open spec fn name(&self) -> Seq<char> {
        match self {
            Function::NativeFunction { name, .. } => name@,
        }
    }

    pub open spec fn arity(&self) -> nat {
        match self {
            Function::NativeFunction { num_args, .. } => *num_args as nat,
        }
    }

    pub fn get_name(&self) -> (r: &str)
        ensures
            r@ == self.name(),
    {
        match self {
            Function::NativeFunction { name, .. } => name.as_str(),
        }
    }

    pub fn num_args(&self) -> (r: usize)
        ensures
            r == self.arity(),
    {
        match self {
            Function::NativeFunction { num_args, .. } => *num_args,
        }
    }
}

/// The names an expression may use: variables with their values (of type `V`),
/// operators, and functions (whose callables are of type `F`).
pub struct Context<V, F> {
    variables: NameTable<V>,
    operators: NameTable<Operator>,
    functions: NameTable<Function<F>>,
}

impl<V, F> Context<V, F> {
    pub closed spec fn wf(&self) -> bool {
        self.variables.wf() && self.operators.wf() && self.functions.wf()
    }

    pub closed spec fn variables(&self) -> Map<Seq<char>, V> {
        self.variables.view()
    }

    pub closed spec fn operators(&self) -> Map<Seq<char>, Operator> {
        self.operators.view()
    }

    pub closed spec fn functions(&self) -> Map<Seq<char>, Function<F>> {
        self.functions.view()
    }

    /// An empty context.
    pub fn new() -> (r: Self)
        ensures
            r.wf(),
            r.variables() == Map::<Seq<char>, V>::empty(),
            r.operators() == Map::<Seq<char>, Operator>::empty(),
            r.functions() == Map::<Seq<char>, Function<F>>::empty(),
    {
        Context { variables: NameTable::new(), operators: NameTable::new(), functions: NameTable::new() }
    }

    /// A context that knows the arithmetic operators: `+` and `-` of
    /// precedence 2, `*` and `/` of precedence 3, all left-associative, and
    /// `^` of precedence 4, right-associative.
    pub fn with_arithmetic_operators() -> (r: Self)
        ensures
            r.wf(),
            r.variables() == Map::<Seq<char>, V>::empty(),
            r.functions() == Map::<Seq<char>, Function<F>>::empty(),
            r.operators().dom() == set![seq!['+'], seq!['-'], seq!['*'], seq!['/'], seq!['^']],
            r.operators()[seq!['+']].precedence == 2,
            r.operators()[seq!['-']].precedence == 2,
            r.operators()[seq!['*']].precedence == 3,
            r.operators()[seq!['/']].precedence == 3,
            r.operators()[seq!['^']].precedence == 4,
            r.operators()[seq!['+']].associativity == Associativity::Left,
            r.operators()[seq!['-']].associativity == Associativity::Left,
            r.operators()[seq!['*']].associativity == Associativity::Left,
            r.operators()[seq!['/']].associativity == Associativity::Left,
            r.operators()[seq!['^']].associativity == Associativity::Right,
            forall|k: Seq<char>| #[trigger]
                r.operators().contains_key(k) ==> r.operators()[k].symbol@ == k,
    {
        proof {
            reveal_strlit("+");
            reveal_strlit("-");
            reveal_strlit("*");
            reveal_strlit("/");
            reveal_strlit("^");
            assert("+"@ =~= seq!['+']);
            assert("-"@ =~= seq!['-']);
            assert("*"@ =~= seq!['*']);
            assert("/"@ =~= seq!['/']);
            assert("^"@ =~= seq!['^']);
            assert(seq!['+'][0] != seq!['-'][0] && seq!['+'][0] != seq!['*'][0]);
            assert(seq!['+'][0] != seq!['/'][0] && seq!['+'][0] != seq!['^'][0]);
            assert(seq!['-'][0] != seq!['*'][0] && seq!['-'][0] != seq!['/'][0]);
            assert(seq!['-'][0] != seq!['^'][0] && seq!['*'][0] != seq!['/'][0]);
            assert(seq!['*'][0] != seq!['^'][0] && seq!['/'][0] != seq!['^'][0]);
        }
        let mut context = Self::new();
        context.add_operator("+", 2, Associativity::Left);
        assert(context.operators().contains_key(seq!['+']));
        context.add_operator("-", 2, Associativity::Left);
        assert(context.operators().contains_key(seq!['+']));
        assert(context.operators().contains_key(seq!['-']));
        context.add_operator("*", 3, Associativity::Left);
        assert(context.operators().contains_key(seq!['+']));
        assert(context.operators().contains_key(seq!['-']));
        assert(context.operators().contains_key(seq!['*']));
        context.add_operator("/", 3, Associativity::Left);
        assert(context.operators().contains_key(seq!['+']));
        assert(context.operators().contains_key(seq!['-']));
        assert(context.operators().contains_key(seq!['*']));
        assert(context.operators().contains_key(seq!['/']));
        context.add_operator("^", 4, Associativity::Right);
        proof {
            assert(context.operators().dom() =~= set![
                seq!['+'],
                seq!['-'],
                seq!['*'],
                seq!['/'],
                seq!['^'],
            ]);
        }
        context
    }

    /// Binds `name` to `value`, replacing an earlier binding.
    pub fn set_variable(&mut self, name: &str, value: V)
        requires
            old(self).wf(),
        ensures
            final(self).wf(),
            final(self).variables() == old(self).variables().insert(name@, value),
            final(self).operators() == old(self).operators(),
            final(self).functions() == old(self).functions(),
    {
        self.variables.insert(name.to_owned(), value);
    }

    pub fn get_variable(&self, name: &str) -> (r: Option<&V>)
        requires
            self.wf(),
        ensures
            match r {
                Some(v) => self.variables().contains_key(name@) && self.variables()[name@] == *v,
                None => !self.variables().contains_key(name@),
            },
    {
        self.variables.get(name)
    }

    /// Registers the operator `symbol`, replacing an earlier definition.
    pub fn add_operator(&mut self, symbol: &str, precedence: i32, associativity: Associativity)
        requires
            old(self).wf(),
        ensures
            final(self).wf(),
            final(self).operators().dom() == old(self).operators().dom().insert(symbol@),
            final(self).operators()[symbol@].symbol@ == symbol@,
            final(self).operators()[symbol@].precedence == precedence,
            final(self).operators()[symbol@].associativity == associativity,
            forall|k: Seq<char>|
                k != symbol@ && #[trigger] old(self).operators().contains_key(k)
                    ==> final(self).operators()[k] == old(self).operators()[k],
            final(self).variables() == old(self).variables(),
            final(self).functions() == old(self).functions(),
    {
        let operator = Operator::new(symbol, precedence, associativity);
        self.operators.insert(symbol.to_owned(), operator);
    }

    pub fn get_operator(&self, symbol: &str) -> (r: Option<&Operator>)
        requires
            self.wf(),
        ensures
            match r {
                Some(o) => self.operators().contains_key(symbol@) && self.operators()[symbol@]
                    == *o,
                None => !self.operators().contains_key(symbol@),
            },
    {
        self.operators.get(symbol)
    }

    pub fn function_exists(&self, name: &str) -> (r: bool)
        requires
            self.wf(),
        ensures
            r == self.functions().contains_key(name@),
    {
        self.functions.contains(name)
    }

    /// Registers `function` under its own name, replacing an earlier one.
    pub fn add_function(&mut self, function: Function<F>)
        requires
            old(self).wf(),
        ensures
            final(self).wf(),
            final(self).functions() == old(self).functions().insert(function.name(), function),
            final(self).variables() == old(self).variables(),
            final(self).operators() == old(self).operators(),
    {
        let name = function.get_name().to_owned();
        self.functions.insert(name, function);
    }

    pub fn get_function(&self, name: &str) -> (r: Option<&Function<F>>)
        requires
            self.wf(),
        ensures
            match r {
                Some(f) => self.functions().contains_key(name@) && self.functions()[name@] == *f,
                None => !self.functions().contains_key(name@),
            },
    {
        self.functions.get(name)
    }
}

} // verus!
