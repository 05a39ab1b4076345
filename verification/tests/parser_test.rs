use secd::data::SExpr;
use secd::errors::ParseErrKind;
use secd::parser::Parser;

#[test]
fn parser() {
    let a = Parser::new(&"(a 0 ab 12 (a (b) ()) ()\nab\n())".into()).parse();
    assert!(a.is_ok());
    assert_eq!(a.unwrap().to_text(), "(a 0 ab 12 (a (b) ()) () ab ())".to_string());
}

#[test]
fn parser_int_leaf() {
    let a = Parser::new(&"12".into()).parse().unwrap();
    assert!(matches!(a.sexpr, SExpr::Int(12)));
}

#[test]
fn parser_returns_last_expression() {
    let a = Parser::new(&"a b c".into()).parse().unwrap();
    assert!(matches!(a.sexpr, SExpr::Atom(ref id) if id == "c"));
}

#[test]
fn parser_unexpected_char() {
    let e = Parser::new(&"(a ' b)".into()).parse().unwrap_err();
    assert_eq!(e.kind, ParseErrKind::UnexpectedChar('\''));
}

#[test]
fn parser_unbalanced_close() {
    let e = Parser::new(&")".into()).parse().unwrap_err();
    assert_eq!(e.kind, ParseErrKind::UnbalancedClose);
}

#[test]
fn parser_unbalanced_open() {
    let e = Parser::new(&"(a (b)".into()).parse().unwrap_err();
    assert_eq!(e.kind, ParseErrKind::UnbalancedOpen);
}

#[test]
fn parser_empty_input() {
    let e = Parser::new(&"  \n ".into()).parse().unwrap_err();
    assert_eq!(e.kind, ParseErrKind::Empty);
}

#[test]
fn parser_int_overflow() {
    let e = Parser::new(&"99999999999".into()).parse().unwrap_err();
    assert_eq!(e.kind, ParseErrKind::IntOverflow);
    let ok = Parser::new(&"2147483647".into()).parse().unwrap();
    assert!(matches!(ok.sexpr, SExpr::Int(2147483647)));
    let e2 = Parser::new(&"2147483648".into()).parse().unwrap_err();
    assert_eq!(e2.kind, ParseErrKind::IntOverflow);
}
