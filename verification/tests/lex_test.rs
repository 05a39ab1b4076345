use secd::parser::{Parser, TokenKind};

#[test]
fn next() {
    let mut p = Parser::new(&"(a 0 12 ab12 (1 2) a())\n".into());
    assert_eq!(p.next().unwrap().unwrap().token, "(".to_string());
    assert_eq!(p.next().unwrap().unwrap().token, "a".to_string());
    assert_eq!(p.next().unwrap().unwrap().token, "0".to_string());
    assert_eq!(p.next().unwrap().unwrap().token, "12".to_string());
    assert_eq!(p.next().unwrap().unwrap().token, "ab12".to_string());
    assert_eq!(p.next().unwrap().unwrap().token, "(".to_string());
    assert_eq!(p.next().unwrap().unwrap().token, "1".to_string());
    assert_eq!(p.next().unwrap().unwrap().token, "2".to_string());
    assert_eq!(p.next().unwrap().unwrap().token, ")".to_string());
    assert_eq!(p.next().unwrap().unwrap().token, "a".to_string());
    assert_eq!(p.next().unwrap().unwrap().token, "(".to_string());
    assert_eq!(p.next().unwrap().unwrap().token, ")".to_string());
}

#[test]
fn peek() {
    let mut p = Parser::new(&"(a 0 12 ab12 (1 2) a())\n".into());
    assert_eq!(p.peek().unwrap().unwrap().token, "(".to_string());
    assert_eq!(p.peek().unwrap().unwrap().token, "(".to_string());
}

#[test]
fn next_kinds() {
    let mut p = Parser::new(&"(ab 12)".into());
    assert_eq!(p.next().unwrap().unwrap().kind, TokenKind::Open);
    assert_eq!(p.next().unwrap().unwrap().kind, TokenKind::Id);
    assert_eq!(p.next().unwrap().unwrap().kind, TokenKind::Int);
    assert_eq!(p.next().unwrap().unwrap().kind, TokenKind::Close);
    assert!(p.next().unwrap().is_none());
}

#[test]
fn next_token_positions() {
    let mut p = Parser::new(&"ab\ncd".into());
    let t1 = p.next().unwrap().unwrap();
    assert_eq!(t1.info.line, 1);
    assert_eq!(t1.info.col, 3);
    let t2 = p.next().unwrap().unwrap();
    assert_eq!(t2.info.line, 2);
    assert_eq!(t2.info.col, 3);
}

#[test]
fn next_token_at_end_of_input() {
    let mut p = Parser::new(&"abc".into());
    assert_eq!(p.next().unwrap().unwrap().token, "abc".to_string());
    assert!(p.next().unwrap().is_none());
}
