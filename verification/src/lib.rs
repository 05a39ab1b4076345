//! A small compiler and virtual machine for a minimal Lisp-like language,
//! built on the classical SECD (Stack / Environment / Code / Dump) abstract
//! machine.  Source text is parsed into an expression tree, the tree is
//! compiled into a flat instruction sequence, and the sequence is executed
//! against four explicit machine registers.
pub mod compiler;
pub mod data;
pub mod errors;
pub mod laws;
pub mod parser;
pub mod render;
pub mod vm;

use vstd::prelude::*;
use crate::compiler::{Compiler, CompRes, comp};
use crate::data::{Info, Lisp, MState, SECD};
use crate::errors::{EvalError, RuntimeErrKind};
use crate::parser::{Parser, parse_spec};
use crate::vm::{StepRes, steps};

verus! {

/// The machine a fresh evaluation starts from: the given code,
/// everything else empty.
pub open spec fn initial_machine(code: Seq<crate::data::InstrV>) -> MState {
    MState {
        stack: Seq::empty(),
        env: Map::empty(),
        code,
        dump: Seq::empty(),
        output: Seq::empty(),
    }
}

/// Parses, compiles and runs one source text, and returns the final
/// value together with the lines `puts` wrote, in order: the last
/// top-level expression's tree per `parse_spec`, its code per `comp`,
/// and the value and output the machine halts with per `steps`.
/// Whichever stage fails first, exactly its error comes back, with
/// whatever output stood when it struck.
pub fn run_lisp_output(s: &String) -> (r: (Result<Lisp, EvalError>, Vec<String>))
    ensures
        match parse_spec(s@, 0, Info { line: 1, col: 1 }) {
            Result::Err(pe) => r.0 == Result::<Lisp, EvalError>::Err(EvalError::Parse(pe))
                && r.1.deep_view() == Seq::<Seq<char>>::empty(),
            Result::Ok(t) => match comp(t, Seq::empty()) {
                CompRes::Fail(ce) => r.0 == Result::<Lisp, EvalError>::Err(
                    EvalError::Compile(ce),
                ) && r.1.deep_view() == Seq::<Seq<char>>::empty(),
                CompRes::Done(c, _) => match r.0 {
                    Result::Ok(v) => exists|k: nat|
                        (#[trigger] steps(initial_machine(c), k)) is Halt && steps(
                            initial_machine(c),
                            k,
                        )->Halt_0.stack.len() > 0 && v@ == steps(
                            initial_machine(c),
                            k,
                        )->Halt_0.stack.last() && r.1.deep_view() == steps(
                            initial_machine(c),
                            k,
                        )->Halt_0.output,
                    Result::Err(e) => match e {
                        EvalError::Runtime(re) => (exists|k: nat|
                            (#[trigger] steps(initial_machine(c), k)) is Fail && steps(
                                initial_machine(c),
                                k,
                            )->Fail_1 == re && r.1.deep_view() == steps(
                                initial_machine(c),
                                k,
                            )->Fail_0.output) || (re.kind == RuntimeErrKind::StepLimit && steps(
                            initial_machine(c),
                            usize::MAX as nat,
                        ) is More && r.1.deep_view() == steps(
                            initial_machine(c),
                            usize::MAX as nat,
                        )->More_0.output),
                        _ => false,
                    },
                },
            },
        },
{
    let mut p = Parser::new(s);
    let ast = match p.parse() {
        Result::Ok(ast) => ast,
        Result::Err(e) => {
            return (Result::Err(EvalError::Parse(e)), Vec::new());
        },
    };
    let mut c = Compiler::new();
    let code = match c.compile(ast) {
        Result::Ok(code) => code,
        Result::Err(e) => {
            return (Result::Err(EvalError::Compile(e)), Vec::new());
        },
    };
    proof {
        if let CompRes::Done(cv, l2) = comp(ast@, Seq::<Seq<char>>::empty()) {
            assert(Seq::<crate::data::InstrV>::empty() + cv =~= cv);
        }
    }
    let mut vm = SECD::new(code);
    let ghost minit = vm@;
    match vm.run() {
        Result::Ok(v) => {
            proof {
                if let CompRes::Done(cv, l2) = comp(ast@, Seq::<Seq<char>>::empty()) {
                    assert(minit == initial_machine(cv));
                    let k = choose|k: nat| steps(minit, k) == StepRes::Halt(vm@);
                    assert(steps(initial_machine(cv), k) is Halt);
                    assert(steps(initial_machine(cv), k)->Halt_0 == vm@);
                }
            }
            (Result::Ok(v), vm.output)
        },
        Result::Err(e) => {
            proof {
                if let CompRes::Done(cv, l2) = comp(ast@, Seq::<Seq<char>>::empty()) {
                    assert(minit == initial_machine(cv));
                    if exists|k: nat| steps(minit, k) == StepRes::Fail(vm@, e) {
                        let k = choose|k: nat| steps(minit, k) == StepRes::Fail(vm@, e);
                        assert(steps(initial_machine(cv), k) is Fail);
                        assert(steps(initial_machine(cv), k)->Fail_0 == vm@);
                    }
                }
            }
            (Result::Err(EvalError::Runtime(e)), vm.output)
        },
    }
}

/// Parses, compiles and runs one source text, and returns the final
/// value alone.  A runtime error of the step-limit kind comes back
/// only from a machine that `steps` still shows running after the
/// whole allowance; every other outcome is exactly the one `steps`
/// reaches.
pub fn run_lisp(s: &String) -> (r: Result<Lisp, EvalError>)
    ensures
        match parse_spec(s@, 0, Info { line: 1, col: 1 }) {
            Result::Err(pe) => r == Result::<Lisp, EvalError>::Err(EvalError::Parse(pe)),
            Result::Ok(t) => match comp(t, Seq::empty()) {
                CompRes::Fail(ce) => r == Result::<Lisp, EvalError>::Err(EvalError::Compile(ce)),
                CompRes::Done(c, _) => match r {
                    Result::Ok(v) => exists|k: nat|
                        (#[trigger] steps(initial_machine(c), k)) is Halt && steps(
                            initial_machine(c),
                            k,
                        )->Halt_0.stack.len() > 0 && v@ == steps(
                            initial_machine(c),
                            k,
                        )->Halt_0.stack.last(),
                    Result::Err(e) => match e {
                        EvalError::Runtime(re) => (exists|k: nat|
                            (#[trigger] steps(initial_machine(c), k)) is Fail && steps(
                                initial_machine(c),
                                k,
                            )->Fail_1 == re) || (re.kind == RuntimeErrKind::StepLimit && steps(
                            initial_machine(c),
                            usize::MAX as nat,
                        ) is More),
                        _ => false,
                    },
                },
            },
        },
{
    let (r, _lines) = run_lisp_output(s);
    let ghost rg = r;
    proof {
        match parse_spec(s@, 0, Info { line: 1, col: 1 }) {
            Result::Err(pe) => {},
            Result::Ok(t) => {
                if let CompRes::Done(c, l2) = comp(t, Seq::<Seq<char>>::empty()) {
                    match rg {
                        Result::Ok(v) => {
                            let k = choose|k: nat|
                                (#[trigger] steps(initial_machine(c), k)) is Halt && steps(
                                    initial_machine(c),
                                    k,
                                )->Halt_0.stack.len() > 0 && v@ == steps(
                                    initial_machine(c),
                                    k,
                                )->Halt_0.stack.last();
                            assert(steps(initial_machine(c), k) is Halt);
                        },
                        Result::Err(e) => {
                            if let EvalError::Runtime(re) = e {
                                if exists|k: nat|
                                    (#[trigger] steps(initial_machine(c), k)) is Fail && steps(
                                        initial_machine(c),
                                        k,
                                    )->Fail_1 == re {
                                    let k = choose|k: nat|
                                        (#[trigger] steps(initial_machine(c), k)) is Fail && steps(
                                            initial_machine(c),
                                            k,
                                        )->Fail_1 == re;
                                    assert(steps(initial_machine(c), k) is Fail);
                                }
                            }
                        },
                    }
                }
            },
        }
    }
    r
}

} // verus!
