use secd::compiler::Compiler;
use secd::data::{Lisp, SECD};
use secd::parser::Parser;

fn eval(s: &str) -> Result<Lisp, secd::errors::RuntimeError> {
    let mut p = Parser::new(&s.into());
    let mut c = Compiler::new();
    let mut vm = SECD::new(c.compile(p.parse().unwrap()).unwrap());
    vm.run()
}

#[test]
fn let_() {
    let s = r#"
    (let a 0 a)
  "#;
    let r = eval(s);
    assert!(r.is_ok());
    assert_eq!(r.unwrap(), Lisp::Int(0));
}

#[test]
fn let_lambda_ap() {
    let s = r#"
    (let a (lambda b b) (a 0))
  "#;
    let r = eval(s);
    assert!(r.is_ok());
    assert_eq!(r.unwrap(), Lisp::Int(0));
}

#[test]
fn letrec_rap() {
    let s = r#"
    (letrec a (lambda b a) (a 0))
  "#;
    let r = eval(s);
    assert!(r.is_ok());
}

#[test]
fn sel_eq() {
    let s = r#"
    (puts (if (eq 0 0) 1 0))
  "#;
    let r = eval(s);
    assert!(r.is_ok());
}

#[test]
fn cons_car_cdr() {
    let s = r#"
    (let a (cons 0 1)
    (let b (car a)
    (let c (cdr a)
    (eq (eq b 0) (eq c 1)))))
  "#;
    let r = eval(s);
    assert!(r.is_ok());
    assert_eq!(r.unwrap(), Lisp::True);
}

#[test]
fn add_sub() {
    let s = r#"
    (let a (+ 0 1)
    (let b (- 1 0)
    (eq a b)))
  "#;
    let r = eval(s);
    assert!(r.is_ok());
    assert_eq!(r.unwrap(), Lisp::True);
}

#[test]
fn puts_writes_one() {
    let mut p = Parser::new(&"(puts (if (eq 0 0) 1 0))".into());
    let mut c = Compiler::new();
    let mut vm = SECD::new(c.compile(p.parse().unwrap()).unwrap());
    let r = vm.run();
    assert!(r.is_ok());
    assert_eq!(vm.output, vec!["1".to_string()]);
}

#[test]
fn add_commutes_on_values() {
    let r = eval("(eq (+ 3 4) (+ 4 3))");
    assert_eq!(r.unwrap(), Lisp::True);
    let r2 = eval("(eq (+ (- 1 5) 2147483647) (+ 2147483647 (- 1 5)))");
    assert_eq!(r2.unwrap(), Lisp::True);
}

#[test]
fn add_wraps_around() {
    let r = eval("(+ 2147483647 1)");
    assert_eq!(r.unwrap(), Lisp::Int(-2147483648));
}

#[test]
fn sub_is_left_minus_right() {
    let r = eval("(- 5 3)");
    assert_eq!(r.unwrap(), Lisp::Int(2));
}

#[test]
fn cons_car_returns_first() {
    let r = eval("(car (cons 7 8))");
    assert_eq!(r.unwrap(), Lisp::Int(7));
    let r2 = eval("(cdr (cons 7 8))");
    assert_eq!(r2.unwrap(), Lisp::Int(8));
}

#[test]
fn let_shadows_inner() {
    let r = eval("(let a 1 (let a 2 a))");
    assert_eq!(r.unwrap(), Lisp::Int(2));
}

#[test]
fn keyword_literals() {
    assert_eq!(eval("nil").unwrap(), Lisp::Nil);
    assert_eq!(eval("true").unwrap(), Lisp::True);
    assert_eq!(eval("false").unwrap(), Lisp::False);
    assert_eq!(eval("()").unwrap(), Lisp::Nil);
}

#[test]
fn eq_on_different_values() {
    assert_eq!(eval("(eq 0 1)").unwrap(), Lisp::False);
    assert_eq!(eval("(eq nil nil)").unwrap(), Lisp::True);
    assert_eq!(eval("(eq nil false)").unwrap(), Lisp::False);
}

#[test]
fn closures_never_compare_equal() {
    let r = eval("(eq (lambda a a) (lambda a a))");
    assert_eq!(r.unwrap(), Lisp::False);
}

#[test]
fn two_parameter_lambda() {
    let r = eval("(let f (lambda (a b) (- a b)) (f 10 4))");
    assert_eq!(r.unwrap(), Lisp::Int(6));
}

#[test]
fn zero_parameter_lambda() {
    let r = eval("(let f (lambda () 42) (f))");
    assert_eq!(r.unwrap(), Lisp::Int(42));
}

#[test]
fn if_picks_else_branch() {
    let r = eval("(if (eq 0 1) 10 20)");
    assert_eq!(r.unwrap(), Lisp::Int(20));
}
