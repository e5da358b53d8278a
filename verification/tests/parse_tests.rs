use num_bigint::BigInt;
use sputter::parse;
use sputter::ParseError;
use sputter::Value;

fn ident(s: &str) -> Value {
    Value::Identifier(String::from(s))
}

fn num(n: i64) -> Value {
    Value::Int(BigInt::from(n))
}

#[test]
fn empty_parens_give_empty_expression() {
    assert_eq!(parse("()"), Ok(Value::Expr(vec![])));
}

#[test]
fn three_atoms() {
    assert_eq!(
        parse("(a b c)"),
        Ok(Value::Expr(vec![ident("a"), ident("b"), ident("c")]))
    );
}

#[test]
fn whitespace_insensitive() {
    assert_eq!(parse("(a b)"), parse("(  a \n b )"));
    assert_eq!(
        parse("   (    a\nb\tc       d\n\t  \n\n\r\n\te)"),
        Ok(Value::Expr(vec![
            ident("a"),
            ident("b"),
            ident("c"),
            ident("d"),
            ident("e"),
        ]))
    );
}

#[test]
fn nested_expressions() {
    assert_eq!(
        parse("((a b) c)"),
        Ok(Value::Expr(vec![
            Value::Expr(vec![ident("a"), ident("b")]),
            ident("c"),
        ]))
    );
    assert_eq!(
        parse("(((a)))"),
        Ok(Value::Expr(vec![Value::Expr(vec![Value::Expr(vec![ident(
            "a"
        )])])]))
    );
}

#[test]
fn parens_delimit_atoms_without_whitespace() {
    assert_eq!(
        parse("(a(b)c)"),
        Ok(Value::Expr(vec![
            ident("a"),
            Value::Expr(vec![ident("b")]),
            ident("c"),
        ]))
    );
}

#[test]
fn empty_input_is_empty_expression() {
    assert_eq!(parse(""), Ok(Value::Expr(vec![])));
    assert_eq!(parse("  \n\t "), Ok(Value::Expr(vec![])));
}

#[test]
fn bare_atom_expects_open_paren() {
    assert_eq!(parse("a"), Err(ParseError::ExpectedOpenParen));
    assert_eq!(parse("  7 "), Err(ParseError::ExpectedOpenParen));
}

#[test]
fn missing_close_paren() {
    assert_eq!(parse("(a"), Err(ParseError::UnclosedParen));
    assert_eq!(parse("((a)"), Err(ParseError::UnclosedParen));
    assert_eq!(parse("("), Err(ParseError::UnclosedParen));
}

#[test]
fn trailing_content_expects_eof() {
    assert_eq!(parse("(a)(b)"), Err(ParseError::ExpectedEOF));
    assert_eq!(parse("(a) b"), Err(ParseError::ExpectedEOF));
}

#[test]
fn trailing_whitespace_is_fine() {
    assert_eq!(parse("(a)  \n"), Ok(Value::Expr(vec![ident("a")])));
}

#[test]
fn integer_literals() {
    assert_eq!(
        parse("(1 -2 007 -0)"),
        Ok(Value::Expr(vec![num(1), num(-2), num(7), num(0)]))
    );
}

#[test]
fn non_literal_atoms_stay_identifiers() {
    assert_eq!(
        parse("(+5 - 12a 1.5)"),
        Ok(Value::Expr(vec![
            ident("+5"),
            ident("-"),
            ident("12a"),
            ident("1.5"),
        ]))
    );
}

#[test]
fn huge_literal_is_exact() {
    let expected: BigInt = "99999999999999999999".parse().unwrap();
    assert_eq!(
        parse("(99999999999999999999)"),
        Ok(Value::Expr(vec![Value::Int(expected)]))
    );
}

#[test]
fn unicode_atoms() {
    assert_eq!(
        parse("((ένας สอง) trì 𝄞)"),
        Ok(Value::Expr(vec![
            Value::Expr(vec![ident("ένας"), ident("สอง")]),
            ident("trì"),
            ident("𝄞"),
        ]))
    );
}

#[test]
fn value_equality_is_structural() {
    assert_ne!(num(1), num(2));
    assert_ne!(ident("a"), ident("ab"));
    assert_ne!(num(1), ident("1x"));
    assert_ne!(
        Value::Expr(vec![num(1)]),
        Value::Expr(vec![num(1), num(1)])
    );
    assert_eq!(
        Value::Expr(vec![num(1), ident("a")]),
        Value::Expr(vec![num(1), ident("a")])
    );
}
