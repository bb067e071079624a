use clc::{tokenize, tokenize_all, LexError, Token};

fn scan(expression: &str) -> Vec<Result<Token, LexError>> {
    let mut tokens = tokenize(expression);
    let mut out = Vec::new();
    while let Some(item) = tokens.next() {
        out.push(item);
    }
    out
}

fn texts(tokens: &[Token]) -> Vec<String> {
    tokens
        .iter()
        .map(|t| match t {
            Token::Number(s) => format!("N:{}", s),
            Token::Identifier(s) => format!("I:{}", s),
            Token::Symbol(s) => format!("S:{}", s),
            Token::Whitespace(s) => format!("W:{}", s.len()),
            Token::LeftParenthesis => "(".to_string(),
            Token::RightParenthesis => ")".to_string(),
            Token::ArgumentSeparator => ",".to_string(),
        })
        .collect()
}

#[test]
fn maximal_munch_groups_runs() {
    let tokens = tokenize_all("12.5  +abc(x,y)").unwrap();
    assert_eq!(
        texts(&tokens),
        vec!["N:12.5", "W:2", "S:+", "I:abc", "(", "I:x", ",", "I:y", ")"]
    );
}

#[test]
fn empty_input_has_no_tokens() {
    assert!(scan("").is_empty());
    assert_eq!(tokenize_all("").unwrap().len(), 0);
}

#[test]
fn whitespace_kinds_are_grouped() {
    let tokens = tokenize_all(" \t\n1").unwrap();
    assert_eq!(texts(&tokens), vec!["W:3", "N:1"]);
}

#[test]
fn unknown_characters_become_symbols() {
    let tokens = tokenize_all("$A").unwrap();
    assert_eq!(texts(&tokens), vec!["S:$", "S:A"]);
}

#[test]
fn second_decimal_point_is_a_lex_error() {
    assert_eq!(tokenize_all("3.4.5").unwrap_err(), LexError::MalformedNumber);
}

#[test]
fn trailing_decimal_point_is_a_lex_error() {
    assert_eq!(tokenize_all("3. + 1").unwrap_err(), LexError::MalformedNumber);
}

#[test]
fn scan_stops_after_first_error() {
    let items = scan("1 + 2. 3 4");
    assert_eq!(items.len(), 5);
    assert!(items[..4].iter().all(|i| i.is_ok()));
    assert_eq!(items[4].clone().unwrap_err(), LexError::MalformedNumber);
}

#[test]
fn token_len_counts_characters() {
    let tokens = tokenize_all("123 ( ab ,").unwrap();
    let lens: Vec<usize> = tokens.iter().map(|t| t.len()).collect();
    assert_eq!(lens, vec![3, 1, 1, 1, 2, 1, 1]);
    assert_eq!(Token::Symbol("é".to_string()).len(), 1);
}
