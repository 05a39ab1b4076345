use secd::compiler::Compiler;
use secd::data::{CodeOP, CodeOPInfo, Info, Lisp, SECD};
use secd::errors::{EvalError, RuntimeErrKind};
use secd::parser::Parser;
use secd::run_lisp;

fn run_err(s: &str) -> RuntimeErrKind {
    let mut p = Parser::new(&s.into());
    let mut c = Compiler::new();
    let mut vm = SECD::new(c.compile(p.parse().unwrap()).unwrap());
    vm.run().unwrap_err().kind
}

fn instr(op: CodeOP) -> CodeOPInfo {
    CodeOPInfo { info: Info { line: 0, col: 0 }, op }
}

#[test]
fn unbound_identifier() {
    assert_eq!(run_err("x"), RuntimeErrKind::UnboundId);
}

#[test]
fn letrec_body_sees_its_own_name() {
    let r = run_lisp(&"(letrec a (lambda b a) (a 0))".into());
    assert!(r.is_ok());
}

#[test]
fn sel_expects_bool() {
    assert_eq!(run_err("(if 1 2 3)"), RuntimeErrKind::SelExpectedBool);
}

#[test]
fn arith_expects_int() {
    assert_eq!(run_err("(+ nil 1)"), RuntimeErrKind::AddExpectedInt);
    assert_eq!(run_err("(+ 1 nil)"), RuntimeErrKind::AddExpectedInt);
    assert_eq!(run_err("(- nil 1)"), RuntimeErrKind::SubExpectedInt);
}

#[test]
fn car_cdr_expect_cons() {
    assert_eq!(run_err("(car 1)"), RuntimeErrKind::CarExpectedCons);
    assert_eq!(run_err("(cdr 1)"), RuntimeErrKind::CdrExpectedCons);
}

#[test]
fn apply_expects_closure() {
    assert_eq!(run_err("(let a 1 (a 2))"), RuntimeErrKind::ApExpectedClosure);
}

#[test]
fn apply_checks_arity() {
    assert_eq!(
        run_err("(let f (lambda (a b) a) (f 1))"),
        RuntimeErrKind::ApArity
    );
}

#[test]
fn bare_machine_stack_underflow() {
    let mut vm = SECD::new(vec![instr(CodeOP::ADD)]);
    assert_eq!(vm.run().unwrap_err().kind, RuntimeErrKind::StackEmpty);
}

#[test]
fn bare_machine_no_result() {
    let mut vm = SECD::new(vec![]);
    assert_eq!(vm.run().unwrap_err().kind, RuntimeErrKind::StackEmpty);
}

#[test]
fn bare_machine_dump_underflow() {
    let mut vm = SECD::new(vec![instr(CodeOP::JOIN)]);
    assert_eq!(vm.run().unwrap_err().kind, RuntimeErrKind::DumpEmpty);
}

#[test]
fn bare_machine_ret_needs_call_frame() {
    let thn = vec![instr(CodeOP::RET)];
    let els = vec![instr(CodeOP::JOIN)];
    let code = vec![
        instr(CodeOP::LDC(Lisp::Int(1))),
        instr(CodeOP::LDC(Lisp::True)),
        instr(CodeOP::SEL(thn, els)),
    ];
    let mut vm = SECD::new(code);
    assert_eq!(vm.run().unwrap_err().kind, RuntimeErrKind::RetExpectedAp);
}

#[test]
fn bare_machine_join_needs_branch_frame() {
    let body = vec![instr(CodeOP::JOIN)];
    let code = vec![
        instr(CodeOP::ARGS(0)),
        instr(CodeOP::LDF(vec![], body)),
        instr(CodeOP::AP),
    ];
    let mut vm = SECD::new(code);
    assert_eq!(vm.run().unwrap_err().kind, RuntimeErrKind::JoinExpectedSel);
}

#[test]
fn bare_machine_ap_expects_list() {
    let body = vec![instr(CodeOP::RET)];
    let code = vec![
        instr(CodeOP::LDC(Lisp::Int(9))),
        instr(CodeOP::LDF(vec![], body)),
        instr(CodeOP::AP),
    ];
    let mut vm = SECD::new(code);
    assert_eq!(vm.run().unwrap_err().kind, RuntimeErrKind::ApExpectedList);
}

#[test]
fn error_renders_with_position() {
    let mut p = Parser::new(&"(lambda)".into());
    let mut c = Compiler::new();
    let e = c.compile(p.parse().unwrap()).unwrap_err();
    assert_eq!(e.render(), "1:8:compile error: lambda syntax".to_string());
}

#[test]
fn eval_error_stages() {
    assert!(matches!(run_lisp(&")".into()), Err(EvalError::Parse(_))));
    assert!(matches!(run_lisp(&"(if 1 2)".into()), Err(EvalError::Compile(_))));
    assert!(matches!(run_lisp(&"(car 1)".into()), Err(EvalError::Runtime(_))));
    assert_eq!(run_lisp(&"(let a 0 a)".into()).unwrap(), Lisp::Int(0));
}

#[test]
fn run_lisp_output_returns_lines() {
    let (r, out) = secd::run_lisp_output(&"(let a (puts 1) (puts (cons a 2)))".into());
    assert_eq!(r.unwrap(), Lisp::Cons(Box::new(Lisp::Int(1)), Box::new(Lisp::Int(2))));
    assert_eq!(out, vec!["1".to_string(), "(cons 1 2)".to_string()]);
}

#[test]
fn run_lisp_output_keeps_lines_on_error() {
    let (r, out) = secd::run_lisp_output(&"(let a (puts 7) (car a))".into());
    assert!(matches!(r, Err(EvalError::Runtime(_))));
    assert_eq!(out, vec!["7".to_string()]);
}

#[test]
fn parse_error_renders() {
    let e = Parser::new(&"(a 'b)".into()).parse().unwrap_err();
    assert_eq!(e.render(), "1:4:parse error: unexpected character '''".to_string());
}
