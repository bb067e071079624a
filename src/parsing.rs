use vstd::prelude::*;

verus! {

/// A lexical token, carrying the text it was scanned from.
#[derive(Debug, Clone)]
pub enum Token {
    Number(String),
    Identifier(String),
    Symbol(String),
    Whitespace(String),
    LeftParenthesis,
    RightParenthesis,
    ArgumentSeparator,
}

/// The mathematical value of a token: its kind and its characters.
pub enum Lexeme {
    Number(Seq<char>),
    Identifier(Seq<char>),
    Symbol(Seq<char>),
    Whitespace(Seq<char>),
    LeftParenthesis,
    RightParenthesis,
    ArgumentSeparator,
}

/// Why scanning stopped.
#[derive(Debug, Clone, Copy, PartialEq, Eq, Structural)]
pub enum LexError {
    /// A number with a second decimal point, or one that ends in a decimal point.
    MalformedNumber,
}

impl View for Token {
    type V = Lexeme;

    open spec fn view(&self) -> Lexeme {
        match self {
            Token::Number(s) => Lexeme::Number(s@),
            Token::Identifier(s) => Lexeme::Identifier(s@),
            Token::Symbol(s) => Lexeme::Symbol(s@),
            Token::Whitespace(s) => Lexeme::Whitespace(s@),
            Token::LeftParenthesis => Lexeme::LeftParenthesis,
            Token::RightParenthesis => Lexeme::RightParenthesis,
            Token::ArgumentSeparator => Lexeme::ArgumentSeparator,
        }
    }
}

/// The views of a sequence of tokens.
pub open spec fn lexemes(ts: Seq<Token>) -> Seq<Lexeme> {
    ts.map_values(|t: Token| t@)
}

/// Appends `t` to `v`.
pub fn push_token(v: &mut Vec<Token>, t: Token)
    ensures
        final(v)@ == old(v)@.push(t),
        lexemes(final(v)@) == lexemes(old(v)@).push(t@),
{
    v.push(t);
    assert(lexemes(v@) =~= lexemes(old(v)@).push(t@));
}

impl Lexeme {
    /// How many characters of the input the token covers.
    pub open spec fn len(self) -> nat {
        match self {
            Lexeme::Number(s) => s.len(),
            Lexeme::Identifier(s) => s.len(),
            Lexeme::Symbol(s) => s.len(),
            Lexeme::Whitespace(s) => s.len(),
            _ => 1,
        }
    }
}

impl Token {
    /// The number of characters of the input that the token covers.
    pub fn len(&self) -> (r: usize)
        ensures
            r == self@.len(),
    {
        match self {
            Token::Number(s) => s.as_str().unicode_len(),
            Token::Identifier(s) => s.as_str().unicode_len(),
            Token::Symbol(s) => s.as_str().unicode_len(),
            Token::Whitespace(s) => s.as_str().unicode_len(),
            Token::LeftParenthesis => 1,
            Token::RightParenthesis => 1,
            Token::ArgumentSeparator => 1,
        }
    }
}


pub open spec fn spec_is_whitespace(c: char) -> bool {
    c == '\t' || c == '\n' || c == ' '
}

pub open spec fn spec_is_digit(c: char) -> bool {
    '0' <= c <= '9'
}

pub open spec fn spec_is_letter(c: char) -> bool {
    'a' <= c <= 'z'
}

/// A character that may stand inside a number: a digit or a decimal point.
pub open spec fn spec_is_number_char(c: char) -> bool {
    spec_is_digit(c) || c == '.'
}

/// Length of the longest prefix of `s` whose characters all satisfy `p`.
pub open spec fn run_len(s: Seq<char>, p: spec_fn(char) -> bool) -> nat
    decreases s.len(),
{
    if s.len() > 0 && p(s[0]) {
        1 + run_len(s.drop_first(), p)
    } else {
        0
    }
}

/// Length of the run of whitespace at the front of `s`.
pub open spec fn whitespace_run(s: Seq<char>) -> nat {
    run_len(s, |x: char| spec_is_whitespace(x))
}

/// Length of the run of digits and decimal points at the front of `s`.
pub open spec fn number_run(s: Seq<char>) -> nat {
    run_len(s, |x: char| spec_is_number_char(x))
}

/// Length of the run of lowercase letters at the front of `s`.
pub open spec fn letter_run(s: Seq<char>) -> nat {
    run_len(s, |x: char| spec_is_letter(x))
}

/// A number's text is well formed when it holds at most one decimal point
/// and does not end in one.
pub open spec fn number_well_formed(t: Seq<char>) -> bool {
    &&& t.len() > 0 ==> t.last() != '.'
    &&& forall|i: int, j: int| 0 <= i < j < t.len() ==> !(t[i] == '.' && t[j] == '.')
}

/// The token at the front of a non-empty input, by maximal munch.
pub open spec fn lex_front(s: Seq<char>) -> Result<Lexeme, LexError> {
    let c = s[0];
    if spec_is_whitespace(c) {
        Ok(Lexeme::Whitespace(s.take(whitespace_run(s) as int)))
    } else if spec_is_digit(c) {
        let t = s.take(number_run(s) as int);
        if number_well_formed(t) {
            Ok(Lexeme::Number(t))
        } else {
            Err(LexError::MalformedNumber)
        }
    } else if spec_is_letter(c) {
        Ok(Lexeme::Identifier(s.take(letter_run(s) as int)))
    } else if c == '(' {
        Ok(Lexeme::LeftParenthesis)
    } else if c == ')' {
        Ok(Lexeme::RightParenthesis)
    } else if c == ',' {
        Ok(Lexeme::ArgumentSeparator)
    } else {
        Ok(Lexeme::Symbol(s.take(1)))
    }
}

/// The whole sequence of results that scanning `s` yields: tokens up to the
/// end of the input, or up to and including the first error.
pub open spec fn lex(s: Seq<char>) -> Seq<Result<Lexeme, LexError>>
    decreases s.len(),
{
    if s.len() == 0 {
        seq![]
    } else {
        match lex_front(s) {
            Ok(l) => if 0 < l.len() <= s.len() {
                seq![Ok(l)].add(lex(s.skip(l.len() as int)))
            } else {
                seq![]
            },
            Err(e) => seq![Err(e)],
        }
    }
}

/// The view of one scanning result.
pub open spec fn result_view(r: Result<Token, LexError>) -> Result<Lexeme, LexError> {
    match r {
        Ok(t) => Ok(t@),
        Err(e) => Err(e),
    }
}

pub(crate) proof fn lemma_run_len(s: Seq<char>, p: spec_fn(char) -> bool, n: int)
    requires
        0 <= n <= s.len(),
        forall|i: int| 0 <= i < n ==> p(s[i]),
        n == s.len() || !p(s[n]),
    ensures
        run_len(s, p) == n,
    decreases n,
{
    if n > 0 {
        lemma_run_len(s.drop_first(), p, n - 1);
    }
}

fn is_whitespace(c: char) -> (r: bool)
    ensures
        r == spec_is_whitespace(c),
{
    c == '\t' || c == '\n' || c == ' '
}

fn is_digit(c: char) -> (r: bool)
    ensures
        r == spec_is_digit(c),
{
    '0' <= c && c <= '9'
}

fn is_letter(c: char) -> (r: bool)
    ensures
        r == spec_is_letter(c),
{
    'a' <= c && c <= 'z'
}

fn is_number_char(c: char) -> (r: bool)
    ensures
        r == spec_is_number_char(c),
{
    c == '.' || is_digit(c)
}

fn is_left_parenthesis(c: char) -> (r: bool)
    ensures
        r == (c == '('),
{
    c == '('
}

fn is_right_parenthesis(c: char) -> (r: bool)
    ensures
        r == (c == ')'),
{
    c == ')'
}

/// The run of whitespace at the front of `expression`.
fn parse_whitespace(expression: &str) -> (r: &str)
    ensures
        r@ == expression@.take(whitespace_run(expression@) as int),
{
    let n = expression.unicode_len();
    let mut length: usize = 0;
    while length < n && is_whitespace(expression.get_char(length))
        invariant
            n == expression@.len(),
            length <= n,
            forall|i: int| 0 <= i < length ==> spec_is_whitespace(expression@[i]),
        decreases n - length,
    {
        length += 1;
    }
    proof {
        lemma_run_len(expression@, |x: char| spec_is_whitespace(x), length as int);
    }
    expression.substring_char(0, length)
}

/// The run of lowercase letters at the front of `expression`.
fn parse_identifier(expression: &str) -> (r: &str)
    ensures
        r@ == expression@.take(letter_run(expression@) as int),
{
    let n = expression.unicode_len();
    let mut length: usize = 0;
    while length < n && is_letter(expression.get_char(length))
        invariant
            n == expression@.len(),
            length <= n,
            forall|i: int| 0 <= i < length ==> spec_is_letter(expression@[i]),
        decreases n - length,
    {
        length += 1;
    }
    proof {
        lemma_run_len(expression@, |x: char| spec_is_letter(x), length as int);
    }
    expression.substring_char(0, length)
}

/// The number at the front of `expression`: its run of digits and decimal
/// points, when that run is well formed.
fn parse_number(expression: &str) -> (r: Result<&str, LexError>)
    ensures
        ({
            let t = expression@.take(number_run(expression@) as int);
            match r {
                Ok(s) => number_well_formed(t) && s@ == t,
                Err(e) => !number_well_formed(t) && e == LexError::MalformedNumber,
            }
        }),
{
    let n = expression.unicode_len();
    let mut length: usize = 0;
    let mut has_decimals = false;
    while length < n && is_number_char(expression.get_char(length))
        invariant
            n == expression@.len(),
            length <= n,
            forall|i: int| 0 <= i < length ==> spec_is_number_char(expression@[i]),
            has_decimals <==> exists|i: int| 0 <= i < length && expression@[i] == '.',
            forall|i: int, j: int|
                0 <= i < j < length ==> !(expression@[i] == '.' && expression@[j] == '.'),
        decreases n - length,
    {
        if expression.get_char(length) == '.' {
            if has_decimals {
                proof {
                    lemma_run_len_at_least(
                        expression@,
                        |x: char| spec_is_number_char(x),
                        length as int + 1,
                    );
                    let t = expression@.take(number_run(expression@) as int);
                    let w = choose|i: int| 0 <= i < length && expression@[i] == '.';
                    lemma_run_len_bound(expression@, |x: char| spec_is_number_char(x));
                    assert(t[w] == '.' && t[length as int] == '.');
                }
                return Err(LexError::MalformedNumber);
            }
            has_decimals = true;
        }
        length += 1;
    }
    proof {
        lemma_run_len(expression@, |x: char| spec_is_number_char(x), length as int);
    }
    if length > 0 && expression.get_char(length - 1) == '.' {
        return Err(LexError::MalformedNumber);
    }
    Ok(expression.substring_char(0, length))
}

proof fn lemma_run_len_bound(s: Seq<char>, p: spec_fn(char) -> bool)
    ensures
        run_len(s, p) <= s.len(),
    decreases s.len(),
{
    if s.len() > 0 {
        lemma_run_len_bound(s.drop_first(), p);
    }
}

proof fn lemma_run_len_at_least(s: Seq<char>, p: spec_fn(char) -> bool, n: int)
    requires
        0 <= n <= s.len(),
        forall|i: int| 0 <= i < n ==> p(s[i]),
    ensures
        run_len(s, p) >= n,
    decreases n,
{
    if n > 0 {
        lemma_run_len_at_least(s.drop_first(), p, n - 1);
    }
}

proof fn lemma_lex_front_len(s: Seq<char>)
    requires
        s.len() > 0,
    ensures
        lex_front(s) is Ok ==> 0 < lex_front(s)->Ok_0.len() <= s.len(),
{
    lemma_run_len_bound(s, |x: char| spec_is_whitespace(x));
    lemma_run_len_bound(s, |x: char| spec_is_number_char(x));
    lemma_run_len_bound(s, |x: char| spec_is_letter(x));
    if spec_is_whitespace(s[0]) {
        lemma_run_len_at_least(s, |x: char| spec_is_whitespace(x), 1);
    }
    if spec_is_number_char(s[0]) {
        lemma_run_len_at_least(s, |x: char| spec_is_number_char(x), 1);
    }
    if spec_is_letter(s[0]) {
        lemma_run_len_at_least(s, |x: char| spec_is_letter(x), 1);
    }
}

/// Scans the token at the front of a non-empty input.
fn parse_token(expression: &str) -> (r: Result<Token, LexError>)
    requires
        expression@.len() > 0,
    ensures
        result_view(r) == lex_front(expression@),
{
    let current_char = expression.get_char(0);
    if is_whitespace(current_char) {
        Ok(Token::Whitespace(parse_whitespace(expression).to_owned()))
    } else if is_digit(current_char) {
        match parse_number(expression) {
            Ok(t) => Ok(Token::Number(t.to_owned())),
            Err(e) => Err(e),
        }
    } else if is_letter(current_char) {
        Ok(Token::Identifier(parse_identifier(expression).to_owned()))
    } else if is_left_parenthesis(current_char) {
        Ok(Token::LeftParenthesis)
    } else if is_right_parenthesis(current_char) {
        Ok(Token::RightParenthesis)
    } else if current_char == ',' {
        Ok(Token::ArgumentSeparator)
    } else {
        Ok(Token::Symbol(expression.substring_char(0, 1).to_owned()))
    }
}

/// A scan of an expression, handing out one token at a time. It stops for
/// good after the first error.
pub struct Tokens<'a> {
    expression: &'a str,
    pos: usize,
    error: bool,
}

impl<'a> Tokens<'a> {
    pub closed spec fn wf(&self) -> bool {
        self.pos <= self.expression@.len()
    }

    /// The results that the scan has still to hand out.
    pub closed spec fn remaining(&self) -> Seq<Result<Lexeme, LexError>> {
        if self.error {
            seq![]
        } else {
            lex(self.expression@.skip(self.pos as int))
        }
    }

    /// Starts a scan at the front of `expression`.
    pub fn from(expression: &'a str) -> (r: Tokens<'a>)
        ensures
            r.wf(),
            r.remaining() == lex(expression@),
    {
        let r = Tokens { expression, pos: 0, error: false };
        assert(expression@.skip(0) =~= expression@);
        r
    }

    /// Hands out the next result of the scan, or `None` once it is over.
    pub fn next(&mut self) -> (r: Option<Result<Token, LexError>>)
        requires
            old(self).wf(),
        ensures
            final(self).wf(),
            match r {
                None => old(self).remaining().len() == 0,
                Some(x) => old(self).remaining().len() > 0 && result_view(x)
                    == old(self).remaining()[0],
            },
            final(self).remaining() == if old(self).remaining().len() == 0 {
                old(self).remaining()
            } else {
                old(self).remaining().drop_first()
            },
    {
        let n = self.expression.unicode_len();
        if self.error || self.pos >= n {
            proof {
                if !self.error {
                    assert(self.expression@.skip(self.pos as int).len() == 0);
                }
            }
            return None;
        }
        let rest = self.expression.substring_char(self.pos, n);
        assert(rest@ =~= self.expression@.skip(self.pos as int));
        let res = parse_token(rest);
        proof {
            lemma_lex_front_len(rest@);
        }
        match &res {
            Ok(token) => {
                let len = token.len();
                proof {
                    assert(rest@.skip(len as int) =~= self.expression@.skip(
                        self.pos + len,
                    ));
                    assert(lex(rest@).drop_first() =~= lex(rest@.skip(len as int)));
                }
                self.pos = self.pos + len;
            },
            Err(_) => {
                self.error = true;
            },
        }
        Some(res)
    }
}

/// Starts a scan of `expression`.
pub fn tokenize<'a>(expression: &'a str) -> (r: Tokens<'a>)
    ensures
        r.wf(),
        r.remaining() == lex(expression@),
{
    Tokens::from(expression)
}

} // verus!
