//! The laws the library stands by, proved once and for all: machine
//! steps compose, compilation is deterministic, the pair primitives
//! round-trip, and addition commutes through the whole
//! compile-and-run pipeline.
use vstd::prelude::*;
use crate::compiler::{CompRes, comp, comp_prim2};
use crate::data::{ASTV, Info, InstrV, LispV, MState, OpV, SExprV};
use crate::errors::CompileErrKind;
use crate::initial_machine;
use crate::vm::{StepRes, lemma_steps_snoc, step, steps};

verus! {

/// Step iteration composes: running `n1 + n2` steps is running `n1`
/// steps followed by `n2` more.
pub proof fn lemma_steps_trans(m: MState, n1: nat, m1: MState, n2: nat)
    requires
        steps(m, n1) == StepRes::More(m1),
    ensures
        steps(m, n1 + n2) == steps(m1, n2),
    decreases n1,
{
    if n1 == 0 {
        assert(m == m1);
    } else {
        match step(m) {
            StepRes::More(m2) => {
                lemma_steps_trans(m2, (n1 - 1) as nat, m1, n2);
                assert(steps(m, n1 + n2) == steps(m2, (n1 + n2 - 1) as nat));
            },
            _ => {},
        }
    }
}

/// The machine is deterministic in its outcome: whatever two step
/// counts both suffice to end the run, they end it the same way.
pub proof fn lemma_outcome_unique(m: MState, k1: nat, k2: nat)
    requires
        !(steps(m, k1) is More),
        !(steps(m, k2) is More),
    ensures
        steps(m, k1) == steps(m, k2),
{
    if k1 <= k2 {
        crate::vm::lemma_steps_absorb(m, k1, k2);
    } else {
        crate::vm::lemma_steps_absorb(m, k2, k1);
    }
}

/// Compiling is a pure function of the tree and the ambient set: two
/// compilations of the same tree under the same set yield identical
/// results, instruction for instruction.
pub proof fn lemma_compile_deterministic(t: ASTV, l: Seq<Seq<char>>, r1: CompRes, r2: CompRes)
    requires
        r1 == comp(t, l),
        r2 == comp(t, l),
    ensures
        r1 == r2,
{
}

/// The pair round-trip, first half: with `x` below `y` on the stack,
/// `CONS` followed by `CAR` leaves exactly `x`, whatever else the
/// machine holds.
pub proof fn lemma_cons_car_roundtrip(m: MState, i1: Info, i2: Info, rest: Seq<InstrV>)
    requires
        m.stack.len() >= 2,
        m.code == seq![InstrV { info: i1, op: OpV::CONS }, InstrV { info: i2, op: OpV::CAR }]
            + rest,
    ensures
        steps(m, 2) == StepRes::More(
            MState {
                stack: m.stack.subrange(0, m.stack.len() - 2).push(m.stack[m.stack.len() - 2]),
                code: rest,
                ..m
            },
        ),
{
    let x = m.stack[m.stack.len() - 2];
    let y = m.stack[m.stack.len() - 1];
    assert(m.code[0] == InstrV { info: i1, op: OpV::CONS });
    assert(m.code[1] == InstrV { info: i2, op: OpV::CAR });
    let code1 = m.code.subrange(1, m.code.len() as int);
    assert(code1[0] == InstrV { info: i2, op: OpV::CAR });
    let s1 = m.stack.subrange(0, m.stack.len() - 2).push(
        LispV::Cons(Box::new(x), Box::new(y)),
    );
    let m1 = MState { stack: s1, code: code1.subrange(1, code1.len() as int), ..m };
    assert(step(m) == StepRes::More(
        MState { stack: s1, code: code1, ..m },
    ));
    let mc = MState { stack: s1, code: code1, ..m };
    assert(step(mc) == StepRes::More(
        MState { stack: s1.drop_last().push(x), code: code1.subrange(1, code1.len() as int), ..m },
    ));
    assert(s1.drop_last().push(x) =~= m.stack.subrange(0, m.stack.len() - 2).push(x));
    assert(code1.subrange(1, code1.len() as int) =~= rest);
    lemma_steps_snoc(m, 0, m);
    assert(steps(m, 1) == StepRes::More(mc));
    lemma_steps_snoc(m, 1, mc);
    assert(steps(m, 2) == step(mc));
}

/// The pair round-trip, second half: `CONS` followed by `CDR` leaves
/// exactly the value that was on top.
pub proof fn lemma_cons_cdr_roundtrip(m: MState, i1: Info, i2: Info, rest: Seq<InstrV>)
    requires
        m.stack.len() >= 2,
        m.code == seq![InstrV { info: i1, op: OpV::CONS }, InstrV { info: i2, op: OpV::CDR }]
            + rest,
    ensures
        steps(m, 2) == StepRes::More(
            MState {
                stack: m.stack.subrange(0, m.stack.len() - 2).push(m.stack[m.stack.len() - 1]),
                code: rest,
                ..m
            },
        ),
{
    let x = m.stack[m.stack.len() - 2];
    let y = m.stack[m.stack.len() - 1];
    assert(m.code[0] == InstrV { info: i1, op: OpV::CONS });
    assert(m.code[1] == InstrV { info: i2, op: OpV::CDR });
    let code1 = m.code.subrange(1, m.code.len() as int);
    assert(code1[0] == InstrV { info: i2, op: OpV::CDR });
    let s1 = m.stack.subrange(0, m.stack.len() - 2).push(
        LispV::Cons(Box::new(x), Box::new(y)),
    );
    assert(step(m) == StepRes::More(
        MState { stack: s1, code: code1, ..m },
    ));
    let mc = MState { stack: s1, code: code1, ..m };
    assert(step(mc) == StepRes::More(
        MState { stack: s1.drop_last().push(y), code: code1.subrange(1, code1.len() as int), ..m },
    ));
    assert(s1.drop_last().push(y) =~= m.stack.subrange(0, m.stack.len() - 2).push(y));
    assert(code1.subrange(1, code1.len() as int) =~= rest);
    lemma_steps_snoc(m, 0, m);
    assert(steps(m, 1) == StepRes::More(mc));
    lemma_steps_snoc(m, 1, mc);
    assert(steps(m, 2) == step(mc));
}

/// A closed arithmetic expression: an integer literal, or `+` or `-`
/// of two of them.
pub open spec fn is_arith(a: ASTV) -> bool
    decreases a,
{
    match a.sexpr {
        SExprV::Int(_) => true,
        SExprV::List(ls) => ls.len() == 3 && (ls[0].sexpr == SExprV::Atom("+"@) || ls[0].sexpr
            == SExprV::Atom("-"@)) && is_arith(ls[1]) && is_arith(ls[2]),
        _ => false,
    }
}

/// Its value, with the machine's wrap-around arithmetic.
pub open spec fn arith_val(a: ASTV) -> i32
    decreases a,
{
    match a.sexpr {
        SExprV::Int(n) => n,
        SExprV::List(ls) => if ls.len() == 3 {
            if ls[0].sexpr == SExprV::Atom("+"@) {
                vstd::wrapping::i32_specs::wrapping_add(arith_val(ls[1]), arith_val(ls[2]))
            } else {
                vstd::wrapping::i32_specs::wrapping_sub(arith_val(ls[1]), arith_val(ls[2]))
            }
        } else {
            0
        },
        _ => 0,
    }
}

/// The same arithmetic expression written at two places in a source
/// text: equal in everything but the recorded positions.
pub open spec fn arith_same(x: ASTV, y: ASTV) -> bool
    decreases x,
{
    match x.sexpr {
        SExprV::Int(mv) => y.sexpr == SExprV::Int(mv),
        SExprV::List(xs) => match y.sexpr {
            SExprV::List(ys) => xs.len() == 3 && ys.len() == 3 && xs[0].sexpr == ys[0].sexpr
                && arith_same(xs[1], ys[1]) && arith_same(xs[2], ys[2]),
            _ => false,
        },
        _ => false,
    }
}

pub proof fn lemma_arith_same_val(x: ASTV, y: ASTV)
    requires
        is_arith(x),
        arith_same(x, y),
    ensures
        is_arith(y),
        arith_val(y) == arith_val(x),
    decreases x,
{
    match x.sexpr {
        SExprV::List(xs) => match y.sexpr {
            SExprV::List(ys) => {
                assert(decreases_to!(x => x.sexpr));
                assert(decreases_to!(x.sexpr => xs));
                assert(decreases_to!(xs => xs[1]));
                assert(decreases_to!(xs => xs[2]));
                lemma_arith_same_val(xs[1], ys[1]);
                lemma_arith_same_val(xs[2], ys[2]);
            },
            _ => {},
        },
        _ => {},
    }
}

proof fn lemma_keyword_disequalities()
    ensures
        "+"@ != "lambda"@ && "+"@ != "let"@ && "+"@ != "letrec"@ && "+"@ != "puts"@ && "+"@
            != "if"@ && "+"@ != "eq"@,
        "-"@ != "lambda"@ && "-"@ != "let"@ && "-"@ != "letrec"@ && "-"@ != "puts"@ && "-"@
            != "if"@ && "-"@ != "eq"@ && "-"@ != "+"@,
        "eq"@ != "lambda"@ && "eq"@ != "let"@ && "eq"@ != "letrec"@ && "eq"@ != "puts"@ && "eq"@
            != "if"@,
        "cons"@ != "lambda"@ && "cons"@ != "let"@ && "cons"@ != "letrec"@ && "cons"@ != "puts"@
            && "cons"@ != "if"@ && "cons"@ != "eq"@ && "cons"@ != "+"@ && "cons"@ != "-"@,
        "car"@ != "lambda"@ && "car"@ != "let"@ && "car"@ != "letrec"@ && "car"@ != "puts"@
            && "car"@ != "if"@ && "car"@ != "eq"@ && "car"@ != "+"@ && "car"@ != "-"@ && "car"@
            != "cons"@,
        "cdr"@ != "lambda"@ && "cdr"@ != "let"@ && "cdr"@ != "letrec"@ && "cdr"@ != "puts"@
            && "cdr"@ != "if"@ && "cdr"@ != "eq"@ && "cdr"@ != "+"@ && "cdr"@ != "-"@ && "cdr"@
            != "cons"@ && "cdr"@ != "car"@,
{
    reveal_strlit("+");
    reveal_strlit("-");
    reveal_strlit("lambda");
    reveal_strlit("let");
    reveal_strlit("letrec");
    reveal_strlit("puts");
    reveal_strlit("if");
    reveal_strlit("eq");
    reveal_strlit("cons");
    reveal_strlit("car");
    reveal_strlit("cdr");
    assert("+"@.len() == 1);
    assert("-"@.len() == 1);
    assert("lambda"@.len() == 6);
    assert("let"@.len() == 3);
    assert("letrec"@.len() == 6);
    assert("puts"@.len() == 4);
    assert("if"@.len() == 2);
    assert("eq"@.len() == 2);
    assert("+"@[0] == '+' && "-"@[0] == '-');
    assert("eq"@[0] == 'e' && "if"@[0] == 'i');
    assert("cons"@.len() == 4 && "car"@.len() == 3 && "cdr"@.len() == 3);
    assert("cons"@[0] == 'c' && "puts"@[0] == 'p');
    assert("car"@[0] == 'c' && "cdr"@[0] == 'c' && "let"@[0] == 'l');
    assert("car"@[1] == 'a' && "cdr"@[1] == 'd');
}

/// A closed arithmetic expression always compiles, leaves the ambient
/// set alone, and its code, run from any machine state, pushes
/// exactly its value.
pub proof fn lemma_arith_eval(a: ASTV, l: Seq<Seq<char>>, m: MState, rest: Seq<InstrV>)
    requires
        is_arith(a),
    ensures
        comp(a, l) is Done,
        comp(a, l)->Done_1 == l,
        m.code == comp(a, l)->Done_0 + rest ==> exists|n: nat|
            #[trigger] steps(m, n) == StepRes::More(
                MState { stack: m.stack.push(LispV::Int(arith_val(a))), code: rest, ..m },
            ),
    decreases a,
{
    lemma_keyword_disequalities();
    match a.sexpr {
        SExprV::Int(nv) => {
            let instr = InstrV { info: a.info, op: OpV::LDC(LispV::Int(nv)) };
            assert(comp(a, l) == CompRes::Done(seq![instr], l));
            if m.code == seq![instr] + rest {
                assert(m.code[0] == instr);
                assert(m.code.subrange(1, m.code.len() as int) =~= rest);
                let m2 = MState { stack: m.stack.push(LispV::Int(nv)), code: rest, ..m };
                assert(step(m) == StepRes::More(m2));
                lemma_steps_snoc(m, 0, m);
                assert(steps(m, 1) == StepRes::More(m2));
            }
        },
        SExprV::List(ls) => {
            assert(decreases_to!(a => a.sexpr));
            assert(decreases_to!(a.sexpr => ls));
            assert(decreases_to!(ls => ls[1]));
            assert(decreases_to!(ls => ls[2]));
            let finfo = ls[0].info;
            let plus = ls[0].sexpr == SExprV::Atom("+"@);
            let op = if plus {
                OpV::ADD
            } else {
                OpV::SUB
            };
            let kerr = if plus {
                CompileErrKind::AddSyntax
            } else {
                CompileErrKind::SubSyntax
            };
            assert(comp(a, l) == comp_prim2(finfo, ls, l, op, kerr));
            lemma_arith_eval(ls[1], l, m, rest);
            let c1 = comp(ls[1], l)->Done_0;
            lemma_arith_eval(ls[2], l, m, rest);
            let c2 = comp(ls[2], l)->Done_0;
            let opi = InstrV { info: finfo, op };
            assert(comp(a, l) == CompRes::Done(c1 + c2 + seq![opi], l));
            if m.code == (c1 + c2 + seq![opi]) + rest {
                let rest1 = c2 + (seq![opi] + rest);
                assert(m.code =~= c1 + rest1);
                lemma_arith_eval(ls[1], l, m, rest1);
                let v1 = arith_val(ls[1]);
                let v2 = arith_val(ls[2]);
                let m1 = MState { stack: m.stack.push(LispV::Int(v1)), code: rest1, ..m };
                let n1 = choose|n: nat| steps(m, n) == StepRes::More(m1);
                let rest2 = seq![opi] + rest;
                assert(m1.code =~= c2 + rest2);
                lemma_arith_eval(ls[2], l, m1, rest2);
                let m2 = MState { stack: m1.stack.push(LispV::Int(v2)), code: rest2, ..m1 };
                let n2 = choose|n: nat| steps(m1, n) == StepRes::More(m2);
                lemma_steps_trans(m, n1, m1, n2);
                assert(steps(m, n1 + n2) == StepRes::More(m2));
                assert(m2.code[0] == opi);
                assert(m2.code.subrange(1, m2.code.len() as int) =~= rest);
                assert(m2.stack.len() >= 2);
                assert(m2.stack[m2.stack.len() - 1] == LispV::Int(v2));
                assert(m2.stack[m2.stack.len() - 2] == LispV::Int(v1));
                let s3 = m2.stack.subrange(0, m2.stack.len() - 2).push(
                    LispV::Int(arith_val(a)),
                );
                let m3 = MState { stack: s3, code: rest, ..m };
                assert(step(m2) == StepRes::More(m3));
                lemma_steps_snoc(m2, 0, m2);
                assert(steps(m2, 1) == StepRes::More(m3));
                lemma_steps_trans(m, n1 + n2, m2, 1);
                assert(steps(m, n1 + n2 + 1) == StepRes::More(m3));
                assert(s3 =~= m.stack.push(LispV::Int(arith_val(a))));
                assert(steps(m, n1 + n2 + 1) == StepRes::More(
                    MState { stack: m.stack.push(LispV::Int(arith_val(a))), code: rest, ..m },
                ));
            }
        },
        _ => {},
    }
}

/// Commutativity of addition, end to end: the program
/// `(eq (+ a b) (+ b a))` — the same two arithmetic sub-expressions,
/// swapped — compiles, and the machine halts with `True` as its one
/// value.
pub proof fn lemma_add_commutes(t: ASTV)
    requires
        t.sexpr is List,
        t.sexpr->List_0.len() == 3,
        t.sexpr->List_0[0].sexpr == SExprV::Atom("eq"@),
        t.sexpr->List_0[1].sexpr is List,
        t.sexpr->List_0[2].sexpr is List,
        ({
            let lhs = t.sexpr->List_0[1].sexpr->List_0;
            let rhs = t.sexpr->List_0[2].sexpr->List_0;
            lhs.len() == 3 && rhs.len() == 3 && lhs[0].sexpr == SExprV::Atom("+"@) && rhs[0].sexpr
                == SExprV::Atom("+"@) && is_arith(lhs[1]) && is_arith(lhs[2]) && arith_same(
                lhs[1],
                rhs[2],
            ) && arith_same(lhs[2], rhs[1])
        }),
    ensures
        comp(t, Seq::<Seq<char>>::empty()) is Done,
        exists|n: nat|
            (#[trigger] steps(initial_machine(comp(t, Seq::<Seq<char>>::empty())->Done_0), n))
                is Halt && steps(
                initial_machine(comp(t, Seq::<Seq<char>>::empty())->Done_0),
                n,
            )->Halt_0.stack == seq![LispV::True],
{
    lemma_keyword_disequalities();
    let l0 = Seq::<Seq<char>>::empty();
    let ls = t.sexpr->List_0;
    let lhs = t.sexpr->List_0[1];
    let rhs = t.sexpr->List_0[2];
    assert(is_arith(lhs));
    assert(is_arith(rhs)) by {
        lemma_arith_same_val(lhs.sexpr->List_0[1], rhs.sexpr->List_0[2]);
        lemma_arith_same_val(lhs.sexpr->List_0[2], rhs.sexpr->List_0[1]);
    }
    assert(arith_val(rhs) == arith_val(lhs)) by {
        lemma_arith_same_val(lhs.sexpr->List_0[1], rhs.sexpr->List_0[2]);
        lemma_arith_same_val(lhs.sexpr->List_0[2], rhs.sexpr->List_0[1]);
    }
    let finfo = ls[0].info;
    assert(comp(t, l0) == comp_prim2(finfo, ls, l0, OpV::EQ, CompileErrKind::EqSyntax));
    let dummy = initial_machine(Seq::empty());
    lemma_arith_eval(lhs, l0, dummy, Seq::empty());
    lemma_arith_eval(rhs, l0, dummy, Seq::empty());
    let c1 = comp(lhs, l0)->Done_0;
    let c2 = comp(rhs, l0)->Done_0;
    let opi = InstrV { info: finfo, op: OpV::EQ };
    assert(comp(t, l0) == CompRes::Done(c1 + c2 + seq![opi], l0));
    let m0 = initial_machine(c1 + c2 + seq![opi]);
    let rest1 = c2 + (seq![opi] + Seq::<InstrV>::empty());
    assert(m0.code =~= c1 + rest1);
    lemma_arith_eval(lhs, l0, m0, rest1);
    let v1 = arith_val(lhs);
    let v2 = arith_val(rhs);
    let m1 = MState { stack: m0.stack.push(LispV::Int(v1)), code: rest1, ..m0 };
    let n1 = choose|n: nat| steps(m0, n) == StepRes::More(m1);
    let rest2 = seq![opi] + Seq::<InstrV>::empty();
    assert(m1.code =~= c2 + rest2);
    lemma_arith_eval(rhs, l0, m1, rest2);
    let m2 = MState { stack: m1.stack.push(LispV::Int(v2)), code: rest2, ..m1 };
    let n2 = choose|n: nat| steps(m1, n) == StepRes::More(m2);
    lemma_steps_trans(m0, n1, m1, n2);
    assert(steps(m0, n1 + n2) == StepRes::More(m2));
    assert(m2.code[0] == opi);
    assert(m2.stack.len() == 2);
    assert(m2.stack[1] == LispV::Int(v2));
    assert(m2.stack[0] == LispV::Int(v1));
    assert(crate::data::val_eq(LispV::Int(v2), LispV::Int(v1)));
    let s3 = m2.stack.subrange(0, 0).push(LispV::True);
    let m3 = MState { stack: s3, code: m2.code.subrange(1, m2.code.len() as int), ..m2 };
    assert(step(m2) == StepRes::More(m3));
    lemma_steps_snoc(m2, 0, m2);
    assert(steps(m2, 1) == StepRes::More(m3));
    lemma_steps_trans(m0, n1 + n2, m2, 1);
    assert(steps(m0, n1 + n2 + 1) == StepRes::More(m3));
    assert(m3.code =~= Seq::<InstrV>::empty());
    assert(m3.stack =~= seq![LispV::True]);
    assert(step(m3) == StepRes::Halt(m3));
    crate::vm::lemma_steps_snoc(m0, n1 + n2 + 1, m3);
    assert(steps(m0, n1 + n2 + 2) == StepRes::Halt(m3));
    assert(m0 == initial_machine(comp(t, l0)->Done_0));
}

/// The pair round-trip end to end, first half: for any two closed
/// arithmetic expressions `X` and `Y`, the program `(car (cons X Y))`
/// compiles, and the machine halts with exactly the value of `X`.
pub proof fn lemma_cons_car_eval(t: ASTV)
    requires
        t.sexpr is List,
        t.sexpr->List_0.len() == 2,
        t.sexpr->List_0[0].sexpr == SExprV::Atom("car"@),
        t.sexpr->List_0[1].sexpr is List,
        ({
            let inner = t.sexpr->List_0[1].sexpr->List_0;
            inner.len() == 3 && inner[0].sexpr == SExprV::Atom("cons"@) && is_arith(inner[1])
                && is_arith(inner[2])
        }),
    ensures
        comp(t, Seq::<Seq<char>>::empty()) is Done,
        exists|n: nat|
            (#[trigger] steps(initial_machine(comp(t, Seq::<Seq<char>>::empty())->Done_0), n))
                is Halt && steps(
                initial_machine(comp(t, Seq::<Seq<char>>::empty())->Done_0),
                n,
            )->Halt_0.stack == seq![
                LispV::Int(arith_val(t.sexpr->List_0[1].sexpr->List_0[1]))
            ],
{
    lemma_keyword_disequalities();
    let l0 = Seq::<Seq<char>>::empty();
    let ls = t.sexpr->List_0;
    let pair = ls[1];
    let inner = pair.sexpr->List_0;
    let x = inner[1];
    let y = inner[2];
    let carinfo = ls[0].info;
    let consinfo = inner[0].info;
    assert(comp(t, l0) == crate::compiler::comp_prim1(
        carinfo,
        ls,
        l0,
        OpV::CAR,
        CompileErrKind::CarSyntax,
    ));
    assert(comp(pair, l0) == comp_prim2(consinfo, inner, l0, OpV::CONS, CompileErrKind::ConsSyntax));
    let dummy = initial_machine(Seq::empty());
    lemma_arith_eval(x, l0, dummy, Seq::empty());
    lemma_arith_eval(y, l0, dummy, Seq::empty());
    let cx = comp(x, l0)->Done_0;
    let cy = comp(y, l0)->Done_0;
    let consi = InstrV { info: consinfo, op: OpV::CONS };
    let cari = InstrV { info: carinfo, op: OpV::CAR };
    assert(comp(pair, l0) == CompRes::Done(cx + cy + seq![consi], l0));
    assert(comp(t, l0) == CompRes::Done((cx + cy + seq![consi]).push(cari), l0));
    let code = (cx + cy + seq![consi]).push(cari);
    let m0 = initial_machine(code);
    let tailc = seq![consi, cari] + Seq::<InstrV>::empty();
    let rest1 = cy + tailc;
    assert(m0.code =~= cx + rest1);
    lemma_arith_eval(x, l0, m0, rest1);
    let vx = arith_val(x);
    let vy = arith_val(y);
    let m1 = MState { stack: m0.stack.push(LispV::Int(vx)), code: rest1, ..m0 };
    let n1 = choose|n: nat| steps(m0, n) == StepRes::More(m1);
    assert(m1.code =~= cy + tailc);
    lemma_arith_eval(y, l0, m1, tailc);
    let m2 = MState { stack: m1.stack.push(LispV::Int(vy)), code: tailc, ..m1 };
    let n2 = choose|n: nat| steps(m1, n) == StepRes::More(m2);
    lemma_steps_trans(m0, n1, m1, n2);
    assert(steps(m0, n1 + n2) == StepRes::More(m2));
    assert(m2.stack.len() == 2);
    assert(m2.stack[0] == LispV::Int(vx));
    lemma_cons_car_roundtrip(m2, consinfo, carinfo, Seq::empty());
    let m3 = MState {
        stack: m2.stack.subrange(0, 0).push(m2.stack[0]),
        code: Seq::empty(),
        ..m2
    };
    assert(steps(m2, 2) == StepRes::More(m3));
    lemma_steps_trans(m0, n1 + n2, m2, 2);
    assert(steps(m0, n1 + n2 + 2) == StepRes::More(m3));
    assert(m3.stack =~= seq![LispV::Int(vx)]);
    assert(step(m3) == StepRes::Halt(m3));
    lemma_steps_snoc(m0, n1 + n2 + 2, m3);
    assert(steps(m0, n1 + n2 + 3) == StepRes::Halt(m3));
    assert(m0 == initial_machine(comp(t, l0)->Done_0));
}

} // verus!
