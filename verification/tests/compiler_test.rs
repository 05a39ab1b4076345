use secd::compiler::Compiler;
use secd::data::{CodeOP, CodeOPInfo, Info, Lisp};
use secd::errors::CompileErrKind;
use secd::parser::Parser;

fn zero() -> Info {
    Info { line: 0, col: 0 }
}

#[test]
fn compile() {
    let mut p = Parser::new(&"(let a 0 (letrec b (a 0) (puts b)))".into());
    let mut c = Compiler::new();
    let code1 = c.compile(p.parse().unwrap());

    let code2 = vec![
        CodeOPInfo { info: zero(), op: CodeOP::LDC(Lisp::Int(0)) },
        CodeOPInfo { info: zero(), op: CodeOP::LET("a".into()) },
        CodeOPInfo { info: zero(), op: CodeOP::LDC(Lisp::Int(0)) },
        CodeOPInfo { info: zero(), op: CodeOP::ARGS(1) },
        CodeOPInfo { info: zero(), op: CodeOP::LD("a".into()) },
        CodeOPInfo { info: zero(), op: CodeOP::AP },
        CodeOPInfo { info: zero(), op: CodeOP::LET("b".into()) },
        CodeOPInfo { info: zero(), op: CodeOP::LD("b".into()) },
        CodeOPInfo { info: zero(), op: CodeOP::PUTS },
    ];

    assert!(code1.is_ok());
    assert_eq!(code1.unwrap(), code2);
}

fn compile_err(src: &str) -> CompileErrKind {
    let mut p = Parser::new(&src.into());
    let mut c = Compiler::new();
    c.compile(p.parse().unwrap()).unwrap_err().kind
}

#[test]
fn compile_lambda_arity_error() {
    assert_eq!(compile_err("(lambda)"), CompileErrKind::LambdaSyntax);
    assert_eq!(compile_err("(lambda a)"), CompileErrKind::LambdaSyntax);
}

#[test]
fn compile_if_arity_error() {
    assert_eq!(compile_err("(if 1 2)"), CompileErrKind::IfSyntax);
}

#[test]
fn compile_form_arity_errors() {
    assert_eq!(compile_err("(let a 1)"), CompileErrKind::LetSyntax);
    assert_eq!(compile_err("(letrec a 1)"), CompileErrKind::LetrecSyntax);
    assert_eq!(compile_err("(puts)"), CompileErrKind::PutsSyntax);
    assert_eq!(compile_err("(eq 1)"), CompileErrKind::EqSyntax);
    assert_eq!(compile_err("(+ 1)"), CompileErrKind::AddSyntax);
    assert_eq!(compile_err("(- 1)"), CompileErrKind::SubSyntax);
    assert_eq!(compile_err("(cons 1)"), CompileErrKind::ConsSyntax);
    assert_eq!(compile_err("(car)"), CompileErrKind::CarSyntax);
    assert_eq!(compile_err("(cdr 1 2)"), CompileErrKind::CdrSyntax);
}

#[test]
fn compile_binding_shape_errors() {
    assert_eq!(compile_err("(let 1 2 3)"), CompileErrKind::LetBindId);
    assert_eq!(compile_err("(letrec 1 2 3)"), CompileErrKind::LetrecBindId);
    assert_eq!(compile_err("(lambda (a 1) a)"), CompileErrKind::LambdaArgs);
    assert_eq!(compile_err("(lambda 1 2)"), CompileErrKind::LambdaArgs);
}

#[test]
fn compile_apply_int_error() {
    assert_eq!(compile_err("(1 2)"), CompileErrKind::ApplyInt);
}

#[test]
fn compile_twice_identical() {
    let src = "(let a (+ 1 2) (if (eq a 3) (cons a nil) (lambda (x) (- x a))))";
    let mut p1 = Parser::new(&src.into());
    let mut c1 = Compiler::new();
    let code1 = c1.compile(p1.parse().unwrap()).unwrap();
    let mut p2 = Parser::new(&src.into());
    let mut c2 = Compiler::new();
    let code2 = c2.compile(p2.parse().unwrap()).unwrap();
    assert_eq!(code1, code2);
}
