//! The virtual machine: executes an instruction sequence against the
//! four SECD registers.  The function `step` is the mathematical
//! small-step semantics of the machine; `steps` iterates it.  The
//! executable `run` is proved to follow `steps` exactly, instruction
//! by instruction.
use vstd::prelude::*;
use crate::data::{
    Code, CodeOP, CodeOPInfo, DumpOP, DumpV, Env, Info, InstrV, Lisp, LispV, MState, OpV, SECD,
    dumpop_view, dumps_view, env_view, instr_view, instrs_view, lisp_view, lisps_view, pairs_view,
    val_eq, lisp_eq, lemma_lisps_view_len, lemma_lisps_view_index, lemma_lisps_view_push,
    lemma_lisps_view_subrange, lemma_pop_view, lemma_dump_pop_view, lemma_instrs_view_len,
    lemma_instrs_view_index, lemma_instrs_view_subrange, lemma_dumps_view_len,
    lemma_dumps_view_push,
};
use crate::errors::{RuntimeErrKind, RuntimeError};
use crate::render::{render, render_val};

verus! {

/// What one machine step yields: the next state, a finished machine
/// (its code empty and its result on top of the stack), or a fatal
/// error with the state at the point of failure.
pub enum StepRes {
    More(MState),
    Halt(MState),
    Fail(MState, RuntimeError),
}

/// The position reported by a failure that no single instruction is
/// responsible for.
pub open spec fn no_info() -> Info {
    Info { line: 0, col: 0 }
}

pub open spec fn rerr(info: Info, kind: RuntimeErrKind) -> RuntimeError {
    RuntimeError { info, kind }
}

/// Parameter names bound to argument values, first to last, on top of
/// the environment `e`; on a repeated name the later binding wins.
pub open spec fn bind_params(
    e: Map<Seq<char>, LispV>,
    ns: Seq<Seq<char>>,
    vs: Seq<LispV>,
) -> Map<Seq<char>, LispV>
    decreases ns.len(),
{
    if ns.len() == 0 {
        e
    } else {
        bind_params(e, ns.subrange(0, ns.len() - 1), vs.subrange(0, ns.len() - 1)).insert(
            ns[ns.len() - 1],
            vs[ns.len() - 1],
        )
    }
}

pub open spec fn step_let(m: MState, info: Info, id: Seq<char>) -> StepRes {
    if m.stack.len() == 0 {
        StepRes::Fail(m, rerr(info, RuntimeErrKind::StackEmpty))
    } else {
        StepRes::More(
            MState {
                stack: m.stack.drop_last(),
                env: m.env.insert(id, m.stack.last()),
                ..m
            },
        )
    }
}

pub open spec fn step_ld(m: MState, info: Info, id: Seq<char>) -> StepRes {
    if m.env.contains_key(id) {
        StepRes::More(MState { stack: m.stack.push(m.env[id]), ..m })
    } else {
        StepRes::Fail(m, rerr(info, RuntimeErrKind::UnboundId))
    }
}

pub open spec fn step_ldc(m: MState, info: Info, v: LispV) -> StepRes {
    StepRes::More(MState { stack: m.stack.push(v), ..m })
}

pub open spec fn step_ldf(m: MState, info: Info, ns: Seq<Seq<char>>, body: Seq<InstrV>) -> StepRes {
    StepRes::More(MState { stack: m.stack.push(LispV::Closure(ns, body, m.env)), ..m })
}

/// `AP` and `RAP` share their shape: pop a closure and an argument
/// list, save a call frame, and enter the body.  `AP` runs the body in
/// the closure's captured environment extended with the parameter
/// bindings; `RAP` merges those bindings over the caller's own
/// environment, which is what lets a `letrec`-bound name see itself.
pub open spec fn step_ap(m: MState, info: Info, rap: bool) -> StepRes {
    if m.stack.len() < 2 {
        StepRes::Fail(m, rerr(info, RuntimeErrKind::StackEmpty))
    } else {
        match m.stack[m.stack.len() - 1] {
            LispV::Closure(ns, body, cenv) => match m.stack[m.stack.len() - 2] {
                LispV::List(vs) => {
                    if ns.len() != vs.len() {
                        StepRes::Fail(
                            m,
                            rerr(
                                info,
                                if rap {
                                    RuntimeErrKind::RapArity
                                } else {
                                    RuntimeErrKind::ApArity
                                },
                            ),
                        )
                    } else {
                        let stack0 = m.stack.subrange(0, m.stack.len() - 2);
                        let newenv = bind_params(cenv, ns, vs);
                        StepRes::More(
                            MState {
                                stack: Seq::empty(),
                                env: if rap {
                                    m.env.union_prefer_right(newenv)
                                } else {
                                    newenv
                                },
                                code: body,
                                dump: m.dump.push(DumpV::DumpAP(stack0, m.env, m.code)),
                                output: m.output,
                            },
                        )
                    }
                },
                _ => StepRes::Fail(
                    m,
                    rerr(
                        info,
                        if rap {
                            RuntimeErrKind::RapExpectedList
                        } else {
                            RuntimeErrKind::ApExpectedList
                        },
                    ),
                ),
            },
            _ => StepRes::Fail(
                m,
                rerr(
                    info,
                    if rap {
                        RuntimeErrKind::RapExpectedClosure
                    } else {
                        RuntimeErrKind::ApExpectedClosure
                    },
                ),
            ),
        }
    }
}

pub open spec fn step_ret(m: MState, info: Info) -> StepRes {
    if m.stack.len() == 0 {
        StepRes::Fail(m, rerr(info, RuntimeErrKind::StackEmpty))
    } else if m.dump.len() == 0 {
        StepRes::Fail(m, rerr(info, RuntimeErrKind::DumpEmpty))
    } else {
        match m.dump[m.dump.len() - 1] {
            DumpV::DumpAP(s, e, c) => StepRes::More(
                MState {
                    stack: s.push(m.stack.last()),
                    env: e,
                    code: c,
                    dump: m.dump.drop_last(),
                    output: m.output,
                },
            ),
            _ => StepRes::Fail(m, rerr(info, RuntimeErrKind::RetExpectedAp)),
        }
    }
}

pub open spec fn step_args(m: MState, info: Info, n: nat) -> StepRes {
    if m.stack.len() < n {
        StepRes::Fail(m, rerr(info, RuntimeErrKind::StackEmpty))
    } else {
        let taken = m.stack.subrange(m.stack.len() - n, m.stack.len() as int);
        StepRes::More(
            MState {
                stack: m.stack.subrange(0, m.stack.len() - n).push(LispV::List(taken)),
                ..m
            },
        )
    }
}

pub open spec fn step_puts(m: MState, info: Info) -> StepRes {
    if m.stack.len() == 0 {
        StepRes::Fail(m, rerr(info, RuntimeErrKind::StackEmpty))
    } else {
        StepRes::More(MState { output: m.output.push(render_val(m.stack.last())), ..m })
    }
}

pub open spec fn step_sel(m: MState, info: Info, t: Seq<InstrV>, f: Seq<InstrV>) -> StepRes {
    if m.stack.len() == 0 {
        StepRes::Fail(m, rerr(info, RuntimeErrKind::StackEmpty))
    } else {
        match m.stack.last() {
            LispV::True => StepRes::More(
                MState {
                    stack: m.stack.drop_last(),
                    code: t,
                    dump: m.dump.push(DumpV::DumpSEL(m.code)),
                    ..m
                },
            ),
            LispV::False => StepRes::More(
                MState {
                    stack: m.stack.drop_last(),
                    code: f,
                    dump: m.dump.push(DumpV::DumpSEL(m.code)),
                    ..m
                },
            ),
            _ => StepRes::Fail(m, rerr(info, RuntimeErrKind::SelExpectedBool)),
        }
    }
}

pub open spec fn step_join(m: MState, info: Info) -> StepRes {
    if m.dump.len() == 0 {
        StepRes::Fail(m, rerr(info, RuntimeErrKind::DumpEmpty))
    } else {
        match m.dump[m.dump.len() - 1] {
            DumpV::DumpSEL(c) => StepRes::More(
                MState { code: c, dump: m.dump.drop_last(), ..m },
            ),
            _ => StepRes::Fail(m, rerr(info, RuntimeErrKind::JoinExpectedSel)),
        }
    }
}

pub open spec fn step_eq(m: MState, info: Info) -> StepRes {
    if m.stack.len() < 2 {
        StepRes::Fail(m, rerr(info, RuntimeErrKind::StackEmpty))
    } else {
        let a = m.stack[m.stack.len() - 1];
        let b = m.stack[m.stack.len() - 2];
        StepRes::More(
            MState {
                stack: m.stack.subrange(0, m.stack.len() - 2).push(
                    if val_eq(a, b) {
                        LispV::True
                    } else {
                        LispV::False
                    },
                ),
                ..m
            },
        )
    }
}

/// `ADD` and `SUB` wrap around on overflow, as two's-complement
/// machine arithmetic does.
pub open spec fn step_arith(m: MState, info: Info, sub: bool) -> StepRes {
    if m.stack.len() < 2 {
        StepRes::Fail(m, rerr(info, RuntimeErrKind::StackEmpty))
    } else {
        match m.stack[m.stack.len() - 1] {
            LispV::Int(a) => match m.stack[m.stack.len() - 2] {
                LispV::Int(b) => StepRes::More(
                    MState {
                        stack: m.stack.subrange(0, m.stack.len() - 2).push(
                            LispV::Int(
                                if sub {
                                    vstd::wrapping::i32_specs::wrapping_sub(b, a)
                                } else {
                                    vstd::wrapping::i32_specs::wrapping_add(b, a)
                                },
                            ),
                        ),
                        ..m
                    },
                ),
                _ => StepRes::Fail(
                    m,
                    rerr(
                        info,
                        if sub {
                            RuntimeErrKind::SubExpectedInt
                        } else {
                            RuntimeErrKind::AddExpectedInt
                        },
                    ),
                ),
            },
            _ => StepRes::Fail(
                m,
                rerr(
                    info,
                    if sub {
                        RuntimeErrKind::SubExpectedInt
                    } else {
                        RuntimeErrKind::AddExpectedInt
                    },
                ),
            ),
        }
    }
}

pub open spec fn step_cons(m: MState, info: Info) -> StepRes {
    if m.stack.len() < 2 {
        StepRes::Fail(m, rerr(info, RuntimeErrKind::StackEmpty))
    } else {
        let a = m.stack[m.stack.len() - 1];
        let b = m.stack[m.stack.len() - 2];
        StepRes::More(
            MState {
                stack: m.stack.subrange(0, m.stack.len() - 2).push(
                    LispV::Cons(Box::new(b), Box::new(a)),
                ),
                ..m
            },
        )
    }
}

pub open spec fn step_car(m: MState, info: Info) -> StepRes {
    if m.stack.len() == 0 {
        StepRes::Fail(m, rerr(info, RuntimeErrKind::StackEmpty))
    } else {
        match m.stack.last() {
            LispV::Cons(h, t) => StepRes::More(
                MState { stack: m.stack.drop_last().push(*h), ..m },
            ),
            _ => StepRes::Fail(m, rerr(info, RuntimeErrKind::CarExpectedCons)),
        }
    }
}

pub open spec fn step_cdr(m: MState, info: Info) -> StepRes {
    if m.stack.len() == 0 {
        StepRes::Fail(m, rerr(info, RuntimeErrKind::StackEmpty))
    } else {
        match m.stack.last() {
            LispV::Cons(h, t) => StepRes::More(
                MState { stack: m.stack.drop_last().push(*t), ..m },
            ),
            _ => StepRes::Fail(m, rerr(info, RuntimeErrKind::CdrExpectedCons)),
        }
    }
}

/// One machine step.  With the code register empty the machine halts,
/// its result the top of the stack; otherwise the first instruction is
/// removed and interpreted.
pub open spec fn step(m: MState) -> StepRes {
    if m.code.len() == 0 {
        if m.stack.len() > 0 {
            StepRes::Halt(m)
        } else {
            StepRes::Fail(m, rerr(no_info(), RuntimeErrKind::StackEmpty))
        }
    } else {
        let instr = m.code[0];
        let info = instr.info;
        let m1 = MState { code: m.code.subrange(1, m.code.len() as int), ..m };
        match instr.op {
            OpV::LET(id) => step_let(m1, info, id),
            OpV::LD(id) => step_ld(m1, info, id),
            OpV::LDC(v) => step_ldc(m1, info, v),
            OpV::LDF(ns, body) => step_ldf(m1, info, ns, body),
            OpV::SEL(t, f) => step_sel(m1, info, t, f),
            OpV::JOIN => step_join(m1, info),
            OpV::RET => step_ret(m1, info),
            OpV::AP => step_ap(m1, info, false),
            OpV::RAP => step_ap(m1, info, true),
            OpV::ARGS(n) => step_args(m1, info, n),
            OpV::PUTS => step_puts(m1, info),
            OpV::EQ => step_eq(m1, info),
            OpV::ADD => step_arith(m1, info, false),
            OpV::SUB => step_arith(m1, info, true),
            OpV::CONS => step_cons(m1, info),
            OpV::CAR => step_car(m1, info),
            OpV::CDR => step_cdr(m1, info),
        }
    }
}

/// The machine after up to `n` steps: either still running (`More`),
/// or the halt or failure it reached within those steps.
pub open spec fn steps(m: MState, n: nat) -> StepRes
    decreases n,
{
    if n == 0 {
        StepRes::More(m)
    } else {
        match step(m) {
            StepRes::More(m2) => steps(m2, (n - 1) as nat),
            r => r,
        }
    }
}

pub proof fn lemma_steps_snoc(m0: MState, n: nat, a: MState)
    requires
        steps(m0, n) == StepRes::More(a),
    ensures
        steps(m0, n + 1) == step(a),
    decreases n,
{
    if n == 0 {
        assert(m0 == a);
        match step(a) {
            StepRes::More(b) => {
                assert(steps(m0, 1) == steps(b, 0));
            },
            _ => {},
        }
    } else {
        match step(m0) {
            StepRes::More(m2) => {
                lemma_steps_snoc(m2, (n - 1) as nat, a);
                assert(steps(m0, n + 1) == steps(m2, n));
            },
            _ => {},
        }
    }
}

/// How an executable machine step relates to its model `sr`: the next
/// state is the model's next state, or exactly the model's error comes
/// back with the machine left in the model's failure state.
pub open spec fn obeys_step(sr: StepRes, mnew: MState, r: Result<(), RuntimeError>) -> bool {
    match sr {
        StepRes::More(m2) => r == Result::<(), RuntimeError>::Ok(()) && mnew == m2,
        StepRes::Fail(m2, e) => r == Result::<(), RuntimeError>::Err(e) && mnew == m2,
        StepRes::Halt(_) => false,
    }
}

impl SECD {
    /// A fresh machine: the given code, everything else empty.
    pub fn new(c: Code) -> (r: SECD)
        ensures
            r@ == (MState {
                stack: Seq::empty(),
                env: Map::empty(),
                code: instrs_view(c@),
                dump: Seq::empty(),
                output: Seq::empty(),
            }),
    {
        let r = SECD {
            stack: Vec::new(),
            env: Env::empty(),
            code: c,
            dump: Vec::new(),
            output: Vec::new(),
        };
        proof {
            assert(r@.stack =~= Seq::<LispV>::empty());
            assert(r@.dump =~= Seq::<DumpV>::empty());
            assert(r@.output =~= Seq::<Seq<char>>::empty());
        }
        r
    }

    fn run_let(&mut self, info: Info, id: String) -> (r: Result<(), RuntimeError>)
        ensures
            obeys_step(step_let(old(self)@, info, id@), final(self)@, r),
    {
        proof {
            lemma_lisps_view_len(self.stack@);
        }
        match self.stack.pop() {
            Option::Some(v) => {
                proof {
                    lemma_pop_view(old(self).stack@);
                }
                self.env.insert(id, v);
                Result::Ok(())
            },
            Option::None => Result::Err(RuntimeError { info, kind: RuntimeErrKind::StackEmpty }),
        }
    }

    fn run_ld(&mut self, info: Info, id: String) -> (r: Result<(), RuntimeError>)
        ensures
            obeys_step(step_ld(old(self)@, info, id@), final(self)@, r),
    {
        match self.env.lookup(&id) {
            Option::Some(l) => {
                let d = l.duplicate();
                proof {
                    lemma_lisps_view_push(self.stack@, d);
                }
                self.stack.push(d);
                Result::Ok(())
            },
            Option::None => Result::Err(RuntimeError { info, kind: RuntimeErrKind::UnboundId }),
        }
    }

    fn run_ldc(&mut self, info: Info, lisp: Lisp) -> (r: Result<(), RuntimeError>)
        ensures
            obeys_step(step_ldc(old(self)@, info, lisp@), final(self)@, r),
    {
        proof {
            lemma_lisps_view_push(self.stack@, lisp);
        }
        self.stack.push(lisp);
        Result::Ok(())
    }

    fn run_ldf(&mut self, info: Info, names: Vec<String>, code: Code) -> (r: Result<
        (),
        RuntimeError,
    >)
        ensures
            obeys_step(
                step_ldf(old(self)@, info, names.deep_view(), instrs_view(code@)),
                final(self)@,
                r,
            ),
    {
        let clo = Lisp::Closure(names, code, self.env.duplicate());
        proof {
            lemma_lisps_view_push(self.stack@, clo);
        }
        self.stack.push(clo);
        Result::Ok(())
    }

    fn run_puts(&mut self, info: Info) -> (r: Result<(), RuntimeError>)
        ensures
            obeys_step(step_puts(old(self)@, info), final(self)@, r),
    {
        proof {
            lemma_lisps_view_len(self.stack@);
        }
        if self.stack.len() == 0 {
            return Result::Err(RuntimeError { info, kind: RuntimeErrKind::StackEmpty });
        }
        let line = render(&self.stack[self.stack.len() - 1]);
        proof {
            lemma_pop_view(self.stack@);
            assert(old(self)@.stack.last() == lisp_view(self.stack@[self.stack@.len() - 1]));
        }
        let ghost o0 = self.output.deep_view();
        let ghost lv = line@;
        self.output.push(line);
        proof {
            assert(self.output.deep_view() =~= o0.push(lv));
        }
        Result::Ok(())
    }

    fn run_eq(&mut self, info: Info) -> (r: Result<(), RuntimeError>)
        ensures
            obeys_step(step_eq(old(self)@, info), final(self)@, r),
    {
        proof {
            lemma_lisps_view_len(self.stack@);
        }
        if self.stack.len() < 2 {
            return Result::Err(RuntimeError { info, kind: RuntimeErrKind::StackEmpty });
        }
        let a = match self.stack.pop() {
            Option::Some(a) => a,
            Option::None => {
                return Result::Err(RuntimeError { info, kind: RuntimeErrKind::StackEmpty });
            },
        };
        proof {
            lemma_pop_view(old(self).stack@);
        }
        let b = match self.stack.pop() {
            Option::Some(b) => b,
            Option::None => {
                return Result::Err(RuntimeError { info, kind: RuntimeErrKind::StackEmpty });
            },
        };
        proof {
            lemma_pop_view(old(self).stack@.subrange(0, old(self).stack@.len() - 1));
        }
        let e = lisp_eq(&a, &b);
        let res = if e {
            Lisp::True
        } else {
            Lisp::False
        };
        proof {
            lemma_lisps_view_push(self.stack@, res);
            let m = old(self)@;
            assert(a@ == m.stack[m.stack.len() - 1]);
            assert(b@ == m.stack[m.stack.len() - 2]) by {
                assert(old(self).stack@.subrange(0, old(self).stack@.len() - 1)[old(
                    self,
                ).stack@.len() - 2] == old(self).stack@[old(self).stack@.len() - 2]);
                lemma_lisps_view_index(old(self).stack@, old(self).stack@.len() - 2);
            }
            assert(self.stack@ =~= old(self).stack@.subrange(0, old(self).stack@.len() - 2));
            lemma_lisps_view_subrange(old(self).stack@, 0, old(self).stack@.len() - 2);
            assert(lisps_view(self.stack@) =~= m.stack.subrange(0, m.stack.len() - 2));
        }
        self.stack.push(res);
        Result::Ok(())
    }

    fn run_add(&mut self, info: Info) -> (r: Result<(), RuntimeError>)
        ensures
            obeys_step(step_arith(old(self)@, info, false), final(self)@, r),
    {
        proof {
            lemma_lisps_view_len(self.stack@);
        }
        let n = self.stack.len();
        if n < 2 {
            return Result::Err(RuntimeError { info, kind: RuntimeErrKind::StackEmpty });
        }
        proof {
            lemma_lisps_view_index(self.stack@, n - 1);
            lemma_lisps_view_index(self.stack@, n - 2);
        }
        if !matches!(&self.stack[n - 1], Lisp::Int(_)) {
            return Result::Err(RuntimeError { info, kind: RuntimeErrKind::AddExpectedInt });
        }
        if !matches!(&self.stack[n - 2], Lisp::Int(_)) {
            return Result::Err(RuntimeError { info, kind: RuntimeErrKind::AddExpectedInt });
        }
        let a: i32 = match self.stack.pop() {
            Option::Some(Lisp::Int(a)) => a,
            _ => {
                proof {
                    assert(false);
                }
                return Result::Err(RuntimeError { info, kind: RuntimeErrKind::AddExpectedInt });
            },
        };
        proof {
            lemma_pop_view(old(self).stack@);
        }
        let b: i32 = match self.stack.pop() {
            Option::Some(Lisp::Int(b)) => b,
            _ => {
                proof {
                    assert(old(self).stack@.subrange(0, n - 1)[n as int - 2] == old(
                        self,
                    ).stack@[n as int - 2]);
                    assert(false);
                }
                return Result::Err(RuntimeError { info, kind: RuntimeErrKind::AddExpectedInt });
            },
        };
        proof {
            lemma_pop_view(old(self).stack@.subrange(0, n - 1));
            assert(old(self).stack@.subrange(0, n - 1)[n as int - 2] == old(self).stack@[n as int
                - 2]);
        }
        let res = Lisp::Int(b.wrapping_add(a));
        proof {
            lemma_lisps_view_push(self.stack@, res);
            assert(self.stack@ =~= old(self).stack@.subrange(0, n as int - 2));
            lemma_lisps_view_subrange(old(self).stack@, 0, n as int - 2);
            assert(lisps_view(self.stack@) =~= old(self)@.stack.subrange(
                0,
                old(self)@.stack.len() - 2,
            ));
        }
        self.stack.push(res);
        Result::Ok(())
    }

    fn run_sub(&mut self, info: Info) -> (r: Result<(), RuntimeError>)
        ensures
            obeys_step(step_arith(old(self)@, info, true), final(self)@, r),
    {
        proof {
            lemma_lisps_view_len(self.stack@);
        }
        let n = self.stack.len();
        if n < 2 {
            return Result::Err(RuntimeError { info, kind: RuntimeErrKind::StackEmpty });
        }
        proof {
            lemma_lisps_view_index(self.stack@, n - 1);
            lemma_lisps_view_index(self.stack@, n - 2);
        }
        if !matches!(&self.stack[n - 1], Lisp::Int(_)) {
            return Result::Err(RuntimeError { info, kind: RuntimeErrKind::SubExpectedInt });
        }
        if !matches!(&self.stack[n - 2], Lisp::Int(_)) {
            return Result::Err(RuntimeError { info, kind: RuntimeErrKind::SubExpectedInt });
        }
        let a: i32 = match self.stack.pop() {
            Option::Some(Lisp::Int(a)) => a,
            _ => {
                proof {
                    assert(false);
                }
                return Result::Err(RuntimeError { info, kind: RuntimeErrKind::SubExpectedInt });
            },
        };
        proof {
            lemma_pop_view(old(self).stack@);
        }
        let b: i32 = match self.stack.pop() {
            Option::Some(Lisp::Int(b)) => b,
            _ => {
                proof {
                    assert(old(self).stack@.subrange(0, n - 1)[n as int - 2] == old(
                        self,
                    ).stack@[n as int - 2]);
                    assert(false);
                }
                return Result::Err(RuntimeError { info, kind: RuntimeErrKind::SubExpectedInt });
            },
        };
        proof {
            lemma_pop_view(old(self).stack@.subrange(0, n - 1));
            assert(old(self).stack@.subrange(0, n - 1)[n as int - 2] == old(self).stack@[n as int
                - 2]);
        }
        let res = Lisp::Int(b.wrapping_sub(a));
        proof {
            lemma_lisps_view_push(self.stack@, res);
            assert(self.stack@ =~= old(self).stack@.subrange(0, n as int - 2));
            lemma_lisps_view_subrange(old(self).stack@, 0, n as int - 2);
            assert(lisps_view(self.stack@) =~= old(self)@.stack.subrange(
                0,
                old(self)@.stack.len() - 2,
            ));
        }
        self.stack.push(res);
        Result::Ok(())
    }

    fn run_cons(&mut self, info: Info) -> (r: Result<(), RuntimeError>)
        ensures
            obeys_step(step_cons(old(self)@, info), final(self)@, r),
    {
        proof {
            lemma_lisps_view_len(self.stack@);
        }
        let n = self.stack.len();
        if n < 2 {
            return Result::Err(RuntimeError { info, kind: RuntimeErrKind::StackEmpty });
        }
        let a = match self.stack.pop() {
            Option::Some(a) => a,
            Option::None => {
                return Result::Err(RuntimeError { info, kind: RuntimeErrKind::StackEmpty });
            },
        };
        proof {
            lemma_pop_view(old(self).stack@);
        }
        let b = match self.stack.pop() {
            Option::Some(b) => b,
            Option::None => {
                return Result::Err(RuntimeError { info, kind: RuntimeErrKind::StackEmpty });
            },
        };
        proof {
            lemma_pop_view(old(self).stack@.subrange(0, n - 1));
            assert(old(self).stack@.subrange(0, n - 1)[n as int - 2] == old(self).stack@[n as int
                - 2]);
            lemma_lisps_view_index(old(self).stack@, n as int - 2);
        }
        let res = Lisp::Cons(Box::new(b), Box::new(a));
        proof {
            lemma_lisps_view_push(self.stack@, res);
            assert(self.stack@ =~= old(self).stack@.subrange(0, n as int - 2));
            lemma_lisps_view_subrange(old(self).stack@, 0, n as int - 2);
            assert(lisps_view(self.stack@) =~= old(self)@.stack.subrange(
                0,
                old(self)@.stack.len() - 2,
            ));
        }
        self.stack.push(res);
        Result::Ok(())
    }

    fn run_car(&mut self, info: Info) -> (r: Result<(), RuntimeError>)
        ensures
            obeys_step(step_car(old(self)@, info), final(self)@, r),
    {
        proof {
            lemma_lisps_view_len(self.stack@);
        }
        let n = self.stack.len();
        if n == 0 {
            return Result::Err(RuntimeError { info, kind: RuntimeErrKind::StackEmpty });
        }
        proof {
            lemma_pop_view(self.stack@);
        }
        if !matches!(&self.stack[n - 1], Lisp::Cons(_, _)) {
            return Result::Err(RuntimeError { info, kind: RuntimeErrKind::CarExpectedCons });
        }
        match self.stack.pop() {
            Option::Some(Lisp::Cons(h, t)) => {
                let hv = *h;
                proof {
                    lemma_lisps_view_push(self.stack@, hv);
                }
                self.stack.push(hv);
                Result::Ok(())
            },
            _ => {
                proof {
                    assert(false);
                }
                Result::Err(RuntimeError { info, kind: RuntimeErrKind::CarExpectedCons })
            },
        }
    }

    fn run_cdr(&mut self, info: Info) -> (r: Result<(), RuntimeError>)
        ensures
            obeys_step(step_cdr(old(self)@, info), final(self)@, r),
    {
        proof {
            lemma_lisps_view_len(self.stack@);
        }
        let n = self.stack.len();
        if n == 0 {
            return Result::Err(RuntimeError { info, kind: RuntimeErrKind::StackEmpty });
        }
        proof {
            lemma_pop_view(self.stack@);
        }
        if !matches!(&self.stack[n - 1], Lisp::Cons(_, _)) {
            return Result::Err(RuntimeError { info, kind: RuntimeErrKind::CdrExpectedCons });
        }
        match self.stack.pop() {
            Option::Some(Lisp::Cons(h, t)) => {
                let tv = *t;
                proof {
                    lemma_lisps_view_push(self.stack@, tv);
                }
                self.stack.push(tv);
                Result::Ok(())
            },
            _ => {
                proof {
                    assert(false);
                }
                Result::Err(RuntimeError { info, kind: RuntimeErrKind::CdrExpectedCons })
            },
        }
    }

    fn run_args(&mut self, info: Info, n: usize) -> (r: Result<(), RuntimeError>)
        ensures
            obeys_step(step_args(old(self)@, info, n as nat), final(self)@, r),
    {
        proof {
            lemma_lisps_view_len(self.stack@);
        }
        if self.stack.len() < n {
            return Result::Err(RuntimeError { info, kind: RuntimeErrKind::StackEmpty });
        }
        let at = self.stack.len() - n;
        let tail = self.stack.split_off(at);
        proof {
            lemma_lisps_view_subrange(old(self).stack@, 0, at as int);
            lemma_lisps_view_subrange(old(self).stack@, at as int, old(self).stack@.len() as int);
        }
        let res = Lisp::List(tail);
        proof {
            lemma_lisps_view_push(self.stack@, res);
            assert(lisps_view(self.stack@) =~= old(self)@.stack.subrange(0, at as int));
        }
        self.stack.push(res);
        proof {
            assert(final(self)@.stack =~= old(self)@.stack.subrange(0, at as int).push(
                LispV::List(old(self)@.stack.subrange(at as int, old(self)@.stack.len() as int)),
            ));
        }
        Result::Ok(())
    }

    fn run_sel(&mut self, info: Info, t: Code, f: Code) -> (r: Result<(), RuntimeError>)
        ensures
            obeys_step(
                step_sel(old(self)@, info, instrs_view(t@), instrs_view(f@)),
                final(self)@,
                r,
            ),
    {
        proof {
            lemma_lisps_view_len(self.stack@);
        }
        let n = self.stack.len();
        if n == 0 {
            return Result::Err(RuntimeError { info, kind: RuntimeErrKind::StackEmpty });
        }
        proof {
            lemma_pop_view(self.stack@);
        }
        let is_true: bool = match &self.stack[n - 1] {
            Lisp::True => true,
            Lisp::False => false,
            _ => {
                return Result::Err(RuntimeError { info, kind: RuntimeErrKind::SelExpectedBool });
            },
        };
        let _ = self.stack.pop();
        let mut oldc: Code = if is_true {
            t
        } else {
            f
        };
        core::mem::swap(&mut self.code, &mut oldc);
        let frame = DumpOP::DumpSEL(oldc);
        proof {
            lemma_dumps_view_push(self.dump@, frame);
        }
        self.dump.push(frame);
        Result::Ok(())
    }

    fn run_join(&mut self, info: Info) -> (r: Result<(), RuntimeError>)
        ensures
            obeys_step(step_join(old(self)@, info), final(self)@, r),
    {
        proof {
            lemma_dumps_view_len(self.dump@);
        }
        let n = self.dump.len();
        if n == 0 {
            return Result::Err(RuntimeError { info, kind: RuntimeErrKind::DumpEmpty });
        }
        proof {
            lemma_dump_pop_view(self.dump@);
        }
        if !matches!(&self.dump[n - 1], DumpOP::DumpSEL(_)) {
            return Result::Err(RuntimeError { info, kind: RuntimeErrKind::JoinExpectedSel });
        }
        match self.dump.pop() {
            Option::Some(DumpOP::DumpSEL(c)) => {
                self.code = c;
                Result::Ok(())
            },
            _ => {
                proof {
                    assert(false);
                }
                Result::Err(RuntimeError { info, kind: RuntimeErrKind::JoinExpectedSel })
            },
        }
    }

    fn run_ret(&mut self, info: Info) -> (r: Result<(), RuntimeError>)
        ensures
            obeys_step(step_ret(old(self)@, info), final(self)@, r),
    {
        proof {
            lemma_lisps_view_len(self.stack@);
            lemma_dumps_view_len(self.dump@);
        }
        if self.stack.len() == 0 {
            return Result::Err(RuntimeError { info, kind: RuntimeErrKind::StackEmpty });
        }
        let nd = self.dump.len();
        if nd == 0 {
            return Result::Err(RuntimeError { info, kind: RuntimeErrKind::DumpEmpty });
        }
        proof {
            lemma_pop_view(self.stack@);
            lemma_dump_pop_view(self.dump@);
        }
        if !matches!(&self.dump[nd - 1], DumpOP::DumpAP(_, _, _)) {
            return Result::Err(RuntimeError { info, kind: RuntimeErrKind::RetExpectedAp });
        }
        let val = match self.stack.pop() {
            Option::Some(v) => v,
            Option::None => {
                return Result::Err(RuntimeError { info, kind: RuntimeErrKind::StackEmpty });
            },
        };
        match self.dump.pop() {
            Option::Some(DumpOP::DumpAP(s, e, c)) => {
                self.stack = s;
                self.env = e;
                self.code = c;
                proof {
                    lemma_lisps_view_push(self.stack@, val);
                }
                self.stack.push(val);
                Result::Ok(())
            },
            _ => {
                proof {
                    assert(false);
                }
                Result::Err(RuntimeError { info, kind: RuntimeErrKind::RetExpectedAp })
            },
        }
    }

    /// Shared body of `AP` and `RAP`.
    #[verifier::loop_isolation(false)]
    fn run_apply(&mut self, info: Info, rap: bool) -> (r: Result<(), RuntimeError>)
        ensures
            obeys_step(step_ap(old(self)@, info, rap), final(self)@, r),
    {
        proof {
            lemma_lisps_view_len(self.stack@);
        }
        let n = self.stack.len();
        if n < 2 {
            return Result::Err(RuntimeError { info, kind: RuntimeErrKind::StackEmpty });
        }
        proof {
            lemma_lisps_view_index(self.stack@, n - 1);
            lemma_lisps_view_index(self.stack@, n - 2);
            crate::data::lemma_view_variant(self.stack@[n - 1]);
            crate::data::lemma_view_variant(self.stack@[n - 2]);
        }
        if !matches!(&self.stack[n - 1], Lisp::Closure(_, _, _)) {
            return Result::Err(
                RuntimeError {
                    info,
                    kind: if rap {
                        RuntimeErrKind::RapExpectedClosure
                    } else {
                        RuntimeErrKind::ApExpectedClosure
                    },
                },
            );
        }
        if !matches!(&self.stack[n - 2], Lisp::List(_)) {
            return Result::Err(
                RuntimeError {
                    info,
                    kind: if rap {
                        RuntimeErrKind::RapExpectedList
                    } else {
                        RuntimeErrKind::ApExpectedList
                    },
                },
            );
        }
        let arity_ok: bool = match (&self.stack[n - 1], &self.stack[n - 2]) {
            (Lisp::Closure(cns, _, _), Lisp::List(cvs)) => {
                proof {
                    lemma_lisps_view_len(cvs@);
                }
                cns.len() == cvs.len()
            },
            _ => false,
        };
        if !arity_ok {
            return Result::Err(
                RuntimeError {
                    info,
                    kind: if rap {
                        RuntimeErrKind::RapArity
                    } else {
                        RuntimeErrKind::ApArity
                    },
                },
            );
        }
        let (ns, body, cenv): (Vec<String>, Code, Env) = match self.stack.pop() {
            Option::Some(Lisp::Closure(ns, body, cenv)) => (ns, body, cenv),
            _ => {
                proof {
                    assert(false);
                }
                return Result::Err(RuntimeError { info, kind: RuntimeErrKind::ApExpectedClosure });
            },
        };
        proof {
            lemma_pop_view(old(self).stack@);
        }
        let vals: Vec<Lisp> = match self.stack.pop() {
            Option::Some(Lisp::List(vals)) => vals,
            _ => {
                proof {
                    assert(old(self).stack@.subrange(0, n - 1)[n as int - 2] == old(
                        self,
                    ).stack@[n as int - 2]);
                    assert(false);
                }
                return Result::Err(RuntimeError { info, kind: RuntimeErrKind::ApExpectedList });
            },
        };
        proof {
            lemma_pop_view(old(self).stack@.subrange(0, n - 1));
            assert(old(self).stack@.subrange(0, n - 1)[n as int - 2] == old(self).stack@[n as int
                - 2]);
        }
        let ghost nsv = ns.deep_view();
        let ghost vsv = lisps_view(vals@);
        let ghost cenv0 = cenv@;
        proof {
            lemma_lisps_view_len(vals@);
        }
        let mut newenv = cenv;
        let mut i: usize = 0;
        proof {
            assert(nsv.subrange(0, 0) =~= Seq::<Seq<char>>::empty());
            assert(vsv.subrange(0, 0) =~= Seq::<LispV>::empty());
        }
        while i < ns.len()
            invariant
                i <= ns@.len(),
                ns@.len() == vals@.len(),
                newenv@ == bind_params(cenv0, nsv.subrange(0, i as int), vsv.subrange(0, i as int)),
            decreases ns@.len() - i,
        {
            let nm = ns[i].clone();
            let vv = vals[i].duplicate();
            proof {
                lemma_lisps_view_index(vals@, i as int);
                assert(nm == ns@[i as int]);
                assert(nm@ == nsv[i as int]);
                assert(vv@ == vsv[i as int]);
            }
            newenv.insert(nm, vv);
            proof {
                let ns1 = nsv.subrange(0, i + 1);
                let vs1 = vsv.subrange(0, i + 1);
                assert(ns1.subrange(0, i as int) =~= nsv.subrange(0, i as int));
                assert(vs1.subrange(0, i as int) =~= vsv.subrange(0, i as int));
                assert(ns1[i as int] == nsv[i as int]);
                assert(vs1[i as int] == vsv[i as int]);
                assert(newenv@ == bind_params(cenv0, ns1, vs1));
            }
            i += 1;
        }
        proof {
            assert(nsv.subrange(0, nsv.len() as int) =~= nsv);
            assert(vsv.subrange(0, vsv.len() as int) =~= vsv);
        }
        let mut st: Vec<Lisp> = Vec::new();
        core::mem::swap(&mut self.stack, &mut st);
        let mut cd: Code = body;
        core::mem::swap(&mut self.code, &mut cd);
        if rap {
            let saved = self.env.duplicate();
            let frame = DumpOP::DumpAP(st, saved, cd);
            proof {
                lemma_dumps_view_push(self.dump@, frame);
            }
            self.dump.push(frame);
            self.env.extend(newenv);
        } else {
            let mut en: Env = newenv;
            core::mem::swap(&mut self.env, &mut en);
            let frame = DumpOP::DumpAP(st, en, cd);
            proof {
                lemma_dumps_view_push(self.dump@, frame);
            }
            self.dump.push(frame);
        }
        proof {
            lemma_lisps_view_subrange(old(self).stack@, 0, n as int - 2);
            assert(st@ =~= old(self).stack@.subrange(0, n as int - 2));
            assert(final(self)@.stack =~= Seq::<LispV>::empty());
            if let StepRes::More(m2) = step_ap(old(self)@, info, rap) {
                assert(final(self)@.dump =~= m2.dump);
                assert(final(self)@ == m2);
            }
        }
        Result::Ok(())
    }

    /// Drives the machine: one instruction at a time until the code
    /// register is empty or a step fails.  The result is exactly what
    /// iterating `step` from the starting state yields.  A step
    /// allowance, far beyond anything reachable in practice, keeps the
    /// loop's termination measure finite; exhausting it is reported as
    /// its own error kind, and only happens to a machine that `step`
    /// still calls running after that many steps.
    #[verifier::loop_isolation(false)]
    fn run_(&mut self) -> (r: Result<(), RuntimeError>)
        ensures
            match r {
                Result::Ok(()) => final(self)@.code.len() == 0 && (exists|k: nat|
                    #[trigger] steps(old(self)@, k) == StepRes::More(final(self)@)),
                Result::Err(e) => (exists|k: nat|
                    #[trigger] steps(old(self)@, k) == StepRes::Fail(final(self)@, e)) || (e.kind
                    == RuntimeErrKind::StepLimit && steps(old(self)@, usize::MAX as nat)
                    == StepRes::More(final(self)@)),
            },
    {
        let ghost m0 = self@;
        let mut fuel: usize = usize::MAX;
        proof {
            assert(steps(m0, (usize::MAX - fuel) as nat) == StepRes::More(self@));
        }
        while self.code.len() != 0
            invariant
                steps(m0, (usize::MAX - fuel) as nat) == StepRes::More(self@),
            decreases fuel,
        {
            if fuel == 0 {
                return Result::Err(
                    RuntimeError {
                        info: Info { line: 0, col: 0 },
                        kind: RuntimeErrKind::StepLimit,
                    },
                );
            }
            fuel = fuel - 1;
            let ghost mpre = self@;
            let ghost spent = (usize::MAX - fuel - 1) as nat;
            let ghost cpre = self.code@;
            proof {
                lemma_instrs_view_len(cpre);
                lemma_instrs_view_index(cpre, 0);
                lemma_instrs_view_subrange(cpre, 1, cpre.len() as int);
            }
            let c = self.code.remove(0);
            let ghost cg = c;
            let info = c.info;
            let ghost m1 = self@;
            proof {
                assert(cpre.remove(0) =~= cpre.subrange(1, cpre.len() as int));
                assert(m1.code =~= mpre.code.subrange(1, mpre.code.len() as int));
                assert(m1 == MState {
                    code: mpre.code.subrange(1, mpre.code.len() as int),
                    ..mpre
                });
                assert(mpre.code[0] == instr_view(cg));
            }
            let hr: Result<(), RuntimeError> = match c.op {
                CodeOP::LET(id) => self.run_let(info, id),
                CodeOP::LD(id) => self.run_ld(info, id),
                CodeOP::LDC(l) => self.run_ldc(info, l),
                CodeOP::LDF(ns, cd) => self.run_ldf(info, ns, cd),
                CodeOP::SEL(t, f) => self.run_sel(info, t, f),
                CodeOP::JOIN => self.run_join(info),
                CodeOP::RET => self.run_ret(info),
                CodeOP::AP => self.run_ap(info),
                CodeOP::RAP => self.run_rap(info),
                CodeOP::ARGS(k) => self.run_args(info, k),
                CodeOP::PUTS => self.run_puts(info),
                CodeOP::EQ => self.run_eq(info),
                CodeOP::ADD => self.run_add(info),
                CodeOP::SUB => self.run_sub(info),
                CodeOP::CONS => self.run_cons(info),
                CodeOP::CAR => self.run_car(info),
                CodeOP::CDR => self.run_cdr(info),
            };
            proof {
                lemma_steps_snoc(m0, spent, mpre);
                assert(steps(m0, spent + 1) == step(mpre));
            }
            match hr {
                Result::Ok(()) => {
                    proof {
                        assert(step(mpre) == StepRes::More(self@));
                        assert(steps(m0, (usize::MAX - fuel) as nat) == StepRes::More(self@));
                    }
                },
                Result::Err(e) => {
                    proof {
                        assert(step(mpre) == StepRes::Fail(self@, e));
                        assert(steps(m0, spent + 1) == StepRes::Fail(self@, e));
                    }
                    return Result::Err(e);
                },
            }
        }
        proof {
            lemma_instrs_view_len(self.code@);
        }
        Result::Ok(())
    }

    /// Runs the machine to completion and hands back the single value
    /// left on top of the stack: exactly the halt state that iterating
    /// `step` reaches, or exactly the failure it reaches.  The lines
    /// `puts` wrote stand in the machine's output register afterwards.
    pub fn run(&mut self) -> (r: Result<Lisp, RuntimeError>)
        ensures
            match r {
                Result::Ok(v) => (exists|k: nat|
                    #[trigger] steps(old(self)@, k) == StepRes::Halt(final(self)@))
                    && final(self)@.stack.len() > 0 && v@ == final(self)@.stack.last(),
                Result::Err(e) => (exists|k: nat|
                    #[trigger] steps(old(self)@, k) == StepRes::Fail(final(self)@, e)) || (e.kind
                    == RuntimeErrKind::StepLimit && steps(old(self)@, usize::MAX as nat)
                    == StepRes::More(final(self)@)),
            },
    {
        let ghost m0 = self@;
        match self.run_() {
            Result::Ok(()) => {
                proof {
                    lemma_lisps_view_len(self.stack@);
                }
                if self.stack.len() > 0 {
                    let v = self.stack[self.stack.len() - 1].duplicate();
                    proof {
                        lemma_pop_view(self.stack@);
                        let k = choose|k: nat| steps(m0, k) == StepRes::More(self@);
                        lemma_steps_snoc(m0, k, self@);
                        assert(steps(m0, k + 1) == StepRes::Halt(self@));
                    }
                    Result::Ok(v)
                } else {
                    proof {
                        let k = choose|k: nat| steps(m0, k) == StepRes::More(self@);
                        lemma_steps_snoc(m0, k, self@);
                        assert(steps(m0, k + 1) == StepRes::Fail(
                            self@,
                            rerr(no_info(), RuntimeErrKind::StackEmpty),
                        ));
                    }
                    Result::Err(
                        RuntimeError {
                            info: Info { line: 0, col: 0 },
                            kind: RuntimeErrKind::StackEmpty,
                        },
                    )
                }
            },
            Result::Err(e) => Result::Err(e),
        }
    }

    fn run_ap(&mut self, info: Info) -> (r: Result<(), RuntimeError>)
        ensures
            obeys_step(step_ap(old(self)@, info, false), final(self)@, r),
    {
        self.run_apply(info, false)
    }

    fn run_rap(&mut self, info: Info) -> (r: Result<(), RuntimeError>)
        ensures
            obeys_step(step_ap(old(self)@, info, true), final(self)@, r),
    {
        self.run_apply(info, true)
    }
}

/// A halt or failure is definitive: taking more steps changes nothing.
pub proof fn lemma_steps_absorb(m0: MState, n: nat, n2: nat)
    requires
        !(steps(m0, n) is More),
        n2 >= n,
    ensures
        steps(m0, n2) == steps(m0, n),
    decreases n,
{
    if n == 0 {
    } else {
        match step(m0) {
            StepRes::More(m2) => {
                lemma_steps_absorb(m2, (n - 1) as nat, (n2 - 1) as nat);
            },
            _ => {},
        }
    }
}

} // verus!
