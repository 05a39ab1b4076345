use secd::compiler::Compiler;
use secd::data::{Lisp, SECD};
use secd::parser::Parser;
use secd::render::render;

fn output_of(s: &str) -> Vec<String> {
    let mut p = Parser::new(&s.into());
    let mut c = Compiler::new();
    let mut vm = SECD::new(c.compile(p.parse().unwrap()).unwrap());
    assert!(vm.run().is_ok());
    vm.output
}

#[test]
fn render_integers() {
    assert_eq!(render(&Lisp::Int(0)), "0".to_string());
    assert_eq!(render(&Lisp::Int(42)), "42".to_string());
    assert_eq!(render(&Lisp::Int(-5)), "-5".to_string());
    assert_eq!(render(&Lisp::Int(i32::MAX)), "2147483647".to_string());
    assert_eq!(render(&Lisp::Int(i32::MIN)), "-2147483648".to_string());
}

#[test]
fn render_keywords() {
    assert_eq!(render(&Lisp::Nil), "nil".to_string());
    assert_eq!(render(&Lisp::True), "true".to_string());
    assert_eq!(render(&Lisp::False), "false".to_string());
}

#[test]
fn render_pairs() {
    let v = Lisp::Cons(Box::new(Lisp::Int(1)), Box::new(Lisp::Nil));
    assert_eq!(render(&v), "(cons 1 nil)".to_string());
}

#[test]
fn puts_renders_pairs() {
    assert_eq!(output_of("(puts (cons 1 nil))"), vec!["(cons 1 nil)".to_string()]);
}

#[test]
fn puts_renders_closures() {
    assert_eq!(
        output_of("(puts (lambda (a b) a))"),
        vec!["(lambda (a b) code)".to_string()]
    );
}

#[test]
fn puts_keeps_order() {
    let out = output_of("(let a (puts 1) (puts 2))");
    assert_eq!(out, vec!["1".to_string(), "2".to_string()]);
}
