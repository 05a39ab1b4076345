//! The compiler: walks an expression tree once and produces an
//! instruction sequence.  The function `comp` is the mathematical
//! statement of what is produced for every tree and every ambient set
//! of recursively bound names; the executable `Compiler` is proved to
//! return exactly that.
use vstd::prelude::*;
use crate::data::{
    AST, ASTV, SExpr, SExprV, Code, CodeOP, CodeOPInfo, Info, InstrV, Lisp, LispV, OpV, ast_view,
    asts_view, instrs_view, instr_view, op_view, sexpr_view, lemma_asts_view_len,
    lemma_asts_view_index, lemma_instrs_view_push,
};
use crate::errors::{CompileError, CompileErrKind};

verus! {

/// What compiling one node yields: the instructions it appends and the
/// set of recursively bound names after it, or the first error.
pub enum CompRes {
    Done(Seq<InstrV>, Seq<Seq<char>>),
    Fail(CompileError),
}

/// The instruction a lone atom compiles to: the three keyword literals
/// become constants, anything else a variable reference.
pub open spec fn atom_op(id: Seq<char>) -> OpV {
    if id == "nil"@ {
        OpV::LDC(LispV::Nil)
    } else if id == "true"@ {
        OpV::LDC(LispV::True)
    } else if id == "false"@ {
        OpV::LDC(LispV::False)
    } else {
        OpV::LD(id)
    }
}

/// The parameter names of a lambda whose parameter node is a list:
/// every element must be a bare identifier.
pub open spec fn params_of(aa: Seq<ASTV>) -> Option<Seq<Seq<char>>>
    decreases aa,
{
    if aa.len() == 0 {
        Option::Some(Seq::empty())
    } else {
        match params_of(aa.subrange(0, aa.len() - 1)) {
            Option::Some(ps) => match aa[aa.len() - 1].sexpr {
                SExprV::Atom(a) => Option::Some(ps.push(a)),
                _ => Option::None,
            },
            Option::None => Option::None,
        }
    }
}

/// The ambient set with every occurrence of `id` removed, order kept:
/// a plain `let` shadow is never self-referential.
pub open spec fn remove_name(l: Seq<Seq<char>>, id: Seq<char>) -> Seq<Seq<char>>
    decreases l.len(),
{
    if l.len() == 0 {
        Seq::empty()
    } else if l[0] == id {
        remove_name(l.subrange(1, l.len() as int), id)
    } else {
        seq![l[0]] + remove_name(l.subrange(1, l.len() as int), id)
    }
}

/// Compiling one node under the ambient set `l`.
pub open spec fn comp(a: ASTV, l: Seq<Seq<char>>) -> CompRes
    decreases a, 0int, 0int,
{
    match a.sexpr {
        SExprV::Int(n) => CompRes::Done(
            seq![InstrV { info: a.info, op: OpV::LDC(LispV::Int(n)) }],
            l,
        ),
        SExprV::Atom(id) => CompRes::Done(seq![InstrV { info: a.info, op: atom_op(id) }], l),
        SExprV::List(ls) => {
            if ls.len() == 0 {
                CompRes::Done(seq![InstrV { info: a.info, op: OpV::LDC(LispV::Nil) }], l)
            } else {
                let finfo = ls[0].info;
                match ls[0].sexpr {
                    SExprV::Int(_) => CompRes::Fail(
                        CompileError { info: finfo, kind: CompileErrKind::ApplyInt },
                    ),
                    SExprV::Atom(id) => {
                        if id == "lambda"@ {
                            comp_lambda(finfo, ls, l)
                        } else if id == "let"@ {
                            comp_let(finfo, ls, l)
                        } else if id == "letrec"@ {
                            comp_letrec(finfo, ls, l)
                        } else if id == "puts"@ {
                            comp_prim1(finfo, ls, l, OpV::PUTS, CompileErrKind::PutsSyntax)
                        } else if id == "if"@ {
                            comp_if(finfo, ls, l)
                        } else if id == "eq"@ {
                            comp_prim2(finfo, ls, l, OpV::EQ, CompileErrKind::EqSyntax)
                        } else if id == "+"@ {
                            comp_prim2(finfo, ls, l, OpV::ADD, CompileErrKind::AddSyntax)
                        } else if id == "-"@ {
                            comp_prim2(finfo, ls, l, OpV::SUB, CompileErrKind::SubSyntax)
                        } else if id == "cons"@ {
                            comp_prim2(finfo, ls, l, OpV::CONS, CompileErrKind::ConsSyntax)
                        } else if id == "car"@ {
                            comp_prim1(finfo, ls, l, OpV::CAR, CompileErrKind::CarSyntax)
                        } else if id == "cdr"@ {
                            comp_prim1(finfo, ls, l, OpV::CDR, CompileErrKind::CdrSyntax)
                        } else {
                            comp_apply(finfo, ls, l)
                        }
                    },
                    SExprV::List(_) => comp_apply(finfo, ls, l),
                }
            }
        },
    }
}

/// A primitive of one operand: `(op e)` compiles `e` and appends the
/// instruction; any other length is an arity error naming the form.
pub open spec fn comp_prim1(
    info: Info,
    ls: Seq<ASTV>,
    l: Seq<Seq<char>>,
    op: OpV,
    k: CompileErrKind,
) -> CompRes
    decreases ls, 1int, 0int,
{
    if ls.len() != 2 {
        CompRes::Fail(CompileError { info, kind: k })
    } else {
        match comp(ls[1], l) {
            CompRes::Done(c1, l1) => CompRes::Done(c1.push(InstrV { info, op }), l1),
            CompRes::Fail(e) => CompRes::Fail(e),
        }
    }
}

/// A primitive of two operands: `(op a b)` compiles `a`, next `b`,
/// and appends the instruction; any other length is an arity error.
pub open spec fn comp_prim2(
    info: Info,
    ls: Seq<ASTV>,
    l: Seq<Seq<char>>,
    op: OpV,
    k: CompileErrKind,
) -> CompRes
    decreases ls, 1int, 0int,
{
    if ls.len() != 3 {
        CompRes::Fail(CompileError { info, kind: k })
    } else {
        match comp(ls[1], l) {
            CompRes::Done(c1, l1) => match comp(ls[2], l1) {
                CompRes::Done(c2, l2) => CompRes::Done(c1 + c2 + seq![InstrV { info, op }], l2),
                CompRes::Fail(e) => CompRes::Fail(e),
            },
            CompRes::Fail(e) => CompRes::Fail(e),
        }
    }
}

/// `(lambda params body)`: the body goes into a fresh sequence that
/// inherits the ambient set and ends with `RET`; the outer sequence
/// receives one `LDF`.  The ambient set is unchanged outside.
pub open spec fn comp_lambda(info: Info, ls: Seq<ASTV>, l: Seq<Seq<char>>) -> CompRes
    decreases ls, 1int, 0int,
{
    if ls.len() != 3 {
        CompRes::Fail(CompileError { info, kind: CompileErrKind::LambdaSyntax })
    } else {
        let pr = match ls[1].sexpr {
            SExprV::Atom(a) => Option::Some(seq![a]),
            SExprV::List(aa) => params_of(aa),
            SExprV::Int(_) => Option::None,
        };
        let perr_info = match ls[1].sexpr {
            SExprV::Int(_) => ls[1].info,
            _ => info,
        };
        match pr {
            Option::None => CompRes::Fail(
                CompileError { info: perr_info, kind: CompileErrKind::LambdaArgs },
            ),
            Option::Some(params) => match comp(ls[2], l) {
                CompRes::Done(cb, lb) => CompRes::Done(
                    seq![
                        InstrV {
                            info,
                            op: OpV::LDF(params, cb.push(InstrV { info, op: OpV::RET })),
                        }
                    ],
                    l,
                ),
                CompRes::Fail(e) => CompRes::Fail(e),
            },
        }
    }
}

/// `(let name expr body)`: `name` leaves the ambient set, `expr` is
/// compiled, `LET(name)` emitted, and `body` compiled in the same
/// sequence.
pub open spec fn comp_let(info: Info, ls: Seq<ASTV>, l: Seq<Seq<char>>) -> CompRes
    decreases ls, 1int, 0int,
{
    if ls.len() != 4 {
        CompRes::Fail(CompileError { info, kind: CompileErrKind::LetSyntax })
    } else {
        match ls[1].sexpr {
            SExprV::Atom(id) => {
                let l1 = remove_name(l, id);
                match comp(ls[2], l1) {
                    CompRes::Done(ce, l2) => match comp(ls[3], l2) {
                        CompRes::Done(cb, l3) => CompRes::Done(
                            ce + seq![InstrV { info, op: OpV::LET(id) }] + cb,
                            l3,
                        ),
                        CompRes::Fail(e) => CompRes::Fail(e),
                    },
                    CompRes::Fail(e) => CompRes::Fail(e),
                }
            },
            _ => CompRes::Fail(CompileError { info, kind: CompileErrKind::LetBindId }),
        }
    }
}

/// `(letrec name expr body)`: as `let`, but `name` joins the ambient
/// set before `expr` is compiled, so applications of `name` inside it
/// compile to `RAP`.
pub open spec fn comp_letrec(info: Info, ls: Seq<ASTV>, l: Seq<Seq<char>>) -> CompRes
    decreases ls, 1int, 0int,
{
    if ls.len() != 4 {
        CompRes::Fail(CompileError { info, kind: CompileErrKind::LetrecSyntax })
    } else {
        match ls[1].sexpr {
            SExprV::Atom(id) => {
                let l1 = l.push(id);
                match comp(ls[2], l1) {
                    CompRes::Done(ce, l2) => match comp(ls[3], l2) {
                        CompRes::Done(cb, l3) => CompRes::Done(
                            ce + seq![InstrV { info, op: OpV::LET(id) }] + cb,
                            l3,
                        ),
                        CompRes::Fail(e) => CompRes::Fail(e),
                    },
                    CompRes::Fail(e) => CompRes::Fail(e),
                }
            },
            _ => CompRes::Fail(CompileError { info, kind: CompileErrKind::LetrecBindId }),
        }
    }
}

/// An `if` form: the condition in the current sequence, each branch
/// in its own sequence ending with `JOIN`, and one `SEL` after.  Both
/// branches see the ambient set as it stands after the condition.
pub open spec fn comp_if(info: Info, ls: Seq<ASTV>, l: Seq<Seq<char>>) -> CompRes
    decreases ls, 1int, 0int,
{
    if ls.len() != 4 {
        CompRes::Fail(CompileError { info, kind: CompileErrKind::IfSyntax })
    } else {
        match comp(ls[1], l) {
            CompRes::Done(cc, l1) => match comp(ls[2], l1) {
                CompRes::Done(ct, lt) => match comp(ls[3], l1) {
                    CompRes::Done(cf, lf) => CompRes::Done(
                        cc + seq![
                            InstrV {
                                info,
                                op: OpV::SEL(
                                    ct.push(InstrV { info: ls[2].info, op: OpV::JOIN }),
                                    cf.push(InstrV { info: ls[3].info, op: OpV::JOIN }),
                                ),
                            }
                        ],
                        l1,
                    ),
                    CompRes::Fail(e) => CompRes::Fail(e),
                },
                CompRes::Fail(e) => CompRes::Fail(e),
            },
            CompRes::Fail(e) => CompRes::Fail(e),
        }
    }
}

/// Function application `(f a1 .. aN)`: the arguments left to right,
/// `ARGS(N)`, next `f`, and `RAP` when `f` is a bare name in the
/// ambient set, `AP` otherwise.
pub open spec fn comp_apply(info: Info, ls: Seq<ASTV>, l: Seq<Seq<char>>) -> CompRes
    decreases ls, 1int, 0int,
    when ls.len() > 0
{
    match comp_seq(ls, 1, l) {
        CompRes::Done(ca, l1) => match comp(ls[0], l1) {
            CompRes::Done(cf, l2) => {
                let rap = match ls[0].sexpr {
                    SExprV::Atom(id) => l2.contains(id),
                    _ => false,
                };
                CompRes::Done(
                    ca + seq![InstrV { info, op: OpV::ARGS((ls.len() - 1) as nat) }] + cf + seq![
                        InstrV { info, op: (if rap {
                            OpV::RAP
                        } else {
                            OpV::AP
                        }) }
                    ],
                    l2,
                )
            },
            CompRes::Fail(e) => CompRes::Fail(e),
        },
        CompRes::Fail(e) => CompRes::Fail(e),
    }
}

/// The elements of `ls` from position `i` on, compiled left to right
/// into one sequence, the ambient set threaded through.
pub open spec fn comp_seq(ls: Seq<ASTV>, i: nat, l: Seq<Seq<char>>) -> CompRes
    decreases ls, 0int, ls.len() - i,
{
    if i >= ls.len() {
        CompRes::Done(Seq::empty(), l)
    } else {
        match comp(ls[i as int], l) {
            CompRes::Done(c0, l1) => match comp_seq(ls, i + 1, l1) {
                CompRes::Done(cr, l2) => CompRes::Done(c0 + cr, l2),
                CompRes::Fail(e) => CompRes::Fail(e),
            },
            CompRes::Fail(e) => CompRes::Fail(e),
        }
    }
}

pub proof fn lemma_params_of_char(aa: Seq<ASTV>)
    ensures
        (params_of(aa) is Some <==> (forall|i: int| 0 <= i < aa.len() ==> aa[i].sexpr is Atom)),
        params_of(aa) is Some ==> {
            let ps = params_of(aa)->Some_0;
            ps.len() == aa.len() && (forall|i: int|
                0 <= i < aa.len() ==> ps[i] == aa[i].sexpr->Atom_0)
        },
    decreases aa.len(),
{
    if aa.len() > 0 {
        let aa0 = aa.subrange(0, aa.len() - 1);
        lemma_params_of_char(aa0);
        assert forall|i: int| 0 <= i < aa0.len() implies aa0[i] == aa[i] by {}
    }
}

/// The compiler's state: the instruction sequence built so far and the
/// identifiers currently known to be recursively bound.
pub struct Compiler {
    pub code: Code,
    pub letrec_id_list: Vec<String>,
}

/// How an executable compiling step relates to its model `res`: on
/// success the produced instructions are appended and the ambient set
/// becomes the model's; on failure exactly the model's error comes
/// back.
pub open spec fn obeys(
    res: CompRes,
    c_old: Seq<InstrV>,
    c_new: Seq<InstrV>,
    l_new: Seq<Seq<char>>,
    r: Result<(), CompileError>,
) -> bool {
    match res {
        CompRes::Done(c, l2) => r == Result::<(), CompileError>::Ok(()) && c_new == c_old + c
            && l_new == l2,
        CompRes::Fail(e) => r == Result::<(), CompileError>::Err(e),
    }
}

fn is_kw(id: &String, kw: &str) -> (r: bool)
    ensures
        r == (id@ == kw@),
{
    let k = String::from_str(kw);
    id.eq(&k)
}

fn contains_name(ns: &Vec<String>, id: &String) -> (r: bool)
    ensures
        r == ns.deep_view().contains(id@),
{
    let mut i: usize = 0;
    while i < ns.len()
        invariant
            i <= ns@.len(),
            forall|j: int| 0 <= j < i ==> ns.deep_view()[j] != id@,
        decreases ns@.len() - i,
    {
        if ns[i].eq(id) {
            proof {
                assert(ns.deep_view()[i as int] == id@);
            }
            return true;
        }
        proof {
            assert(ns.deep_view()[i as int] == ns@[i as int]@);
        }
        i += 1;
    }
    proof {
        assert(!ns.deep_view().contains(id@)) by {
            if ns.deep_view().contains(id@) {
                let j = choose|j: int|
                    0 <= j < ns.deep_view().len() && ns.deep_view()[j] == id@;
                assert(false);
            }
        }
    }
    false
}

impl Compiler {
    /// A fresh compiler: empty instruction sequence, empty ambient set.
    pub fn new() -> (r: Compiler)
        ensures
            r.code@.len() == 0,
            instrs_view(r.code@) == Seq::<InstrV>::empty(),
            r.lset() == Seq::<Seq<char>>::empty(),
    {
        let r = Compiler { code: Vec::new(), letrec_id_list: Vec::new() };
        proof {
            assert(r.lset() =~= Seq::<Seq<char>>::empty());
        }
        r
    }

    /// The identifiers currently treated as recursively bound.
    pub open spec fn lset(&self) -> Seq<Seq<char>> {
        self.letrec_id_list.deep_view()
    }

    /// Compile one tree on top of whatever this compiler holds, and
    /// return a copy of the whole buffer as it stands after the call:
    /// exactly what `comp` says, for every tree and every prior state,
    /// so reusing one compiler returns the concatenation.
    pub fn compile(&mut self, ast: AST) -> (r: Result<Code, CompileError>)
        ensures
            match comp(ast@, old(self).lset()) {
                CompRes::Done(c, l2) => (match r {
                    Result::Ok(code) => instrs_view(code@) == instrs_view(final(self).code@),
                    Result::Err(_) => false,
                }) && instrs_view(final(self).code@) == instrs_view(old(self).code@) + c
                    && final(self).lset() == l2,
                CompRes::Fail(e) => r == Result::<Code, CompileError>::Err(e),
            },
    {
        match self.compile_(ast) {
            Result::Ok(()) => Result::Ok(crate::data::dup_code(&self.code)),
            Result::Err(e) => Result::Err(e),
        }
    }

    /// Compile one tree node, appending to the instruction sequence.
    pub fn compile_(&mut self, ast: AST) -> (r: Result<(), CompileError>)
        ensures
            obeys(
                comp(ast@, old(self).lset()),
                instrs_view(old(self).code@),
                instrs_view(final(self).code@),
                final(self).lset(),
                r,
            ),
        decreases ast, 0int, 0int,
    {
        let ghost a0 = ast;
        let AST { info, sexpr } = ast;
        match sexpr {
            SExpr::Int(n) => self.compile_int(info, n),
            SExpr::Atom(id) => self.compile_atom(info, id),
            SExpr::List(ls) => {
                if ls.len() == 0 {
                    proof {
                        lemma_asts_view_len(ls@);
                    }
                    self.compile_nil(info)
                } else {
                    proof {
                        assert(decreases_to!(a0 => a0.sexpr));
                        assert(decreases_to!(a0.sexpr => ls));
                        assert(decreases_to!(ls => ls@));
                        lemma_asts_view_len(ls@);
                        lemma_asts_view_index(ls@, 0);
                    }
                    let finfo = ls[0].info;
                    let head_is_int = matches!(&ls[0].sexpr, SExpr::Int(_));
                    let head_atom: Option<String> = match &ls[0].sexpr {
                        SExpr::Atom(id) => Option::Some(id.clone()),
                        _ => Option::None,
                    };
                    if head_is_int {
                        Result::Err(
                            CompileError { info: finfo, kind: CompileErrKind::ApplyInt },
                        )
                    } else {
                        match head_atom {
                            Option::Some(id) => {
                                if is_kw(&id, "lambda") {
                                    self.compile_lambda(finfo, ls)
                                } else if is_kw(&id, "let") {
                                    self.compile_let(finfo, ls)
                                } else if is_kw(&id, "letrec") {
                                    self.compile_letrec(finfo, ls)
                                } else if is_kw(&id, "puts") {
                                    self.compile_puts(finfo, ls)
                                } else if is_kw(&id, "if") {
                                    self.compile_if(finfo, ls)
                                } else if is_kw(&id, "eq") {
                                    self.compile_eq(finfo, ls)
                                } else if is_kw(&id, "+") {
                                    self.compile_add(finfo, ls)
                                } else if is_kw(&id, "-") {
                                    self.compile_sub(finfo, ls)
                                } else if is_kw(&id, "cons") {
                                    self.compile_cons(finfo, ls)
                                } else if is_kw(&id, "car") {
                                    self.compile_car(finfo, ls)
                                } else if is_kw(&id, "cdr") {
                                    self.compile_cdr(finfo, ls)
                                } else {
                                    self.compile_apply(finfo, ls)
                                }
                            },
                            Option::None => self.compile_apply(finfo, ls),
                        }
                    }
                }
            },
        }
    }

    fn compile_int(&mut self, info: Info, n: i32) -> (r: Result<(), CompileError>)
        ensures
            r == Result::<(), CompileError>::Ok(()),
            instrs_view(final(self).code@) == instrs_view(old(self).code@) + seq![
                InstrV { info, op: OpV::LDC(LispV::Int(n)) }
            ],
            final(self).lset() == old(self).lset(),
    {
        let ghost c0 = self.code@;
        let ci = CodeOPInfo { info, op: CodeOP::LDC(Lisp::Int(n)) };
        self.code.push(ci);
        proof {
            lemma_instrs_view_push(c0, ci);
            assert(instrs_view(c0).push(instr_view(ci)) =~= instrs_view(c0) + seq![
                instr_view(ci)
            ]);
        }
        Result::Ok(())
    }

    fn compile_atom(&mut self, info: Info, id: String) -> (r: Result<(), CompileError>)
        ensures
            r == Result::<(), CompileError>::Ok(()),
            instrs_view(final(self).code@) == instrs_view(old(self).code@) + seq![
                InstrV { info, op: atom_op(id@) }
            ],
            final(self).lset() == old(self).lset(),
    {
        let ghost c0 = self.code@;
        let op: CodeOP = if is_kw(&id, "nil") {
            CodeOP::LDC(Lisp::Nil)
        } else if is_kw(&id, "true") {
            CodeOP::LDC(Lisp::True)
        } else if is_kw(&id, "false") {
            CodeOP::LDC(Lisp::False)
        } else {
            CodeOP::LD(id)
        };
        let ci = CodeOPInfo { info, op };
        self.code.push(ci);
        proof {
            lemma_instrs_view_push(c0, ci);
            assert(instrs_view(c0).push(instr_view(ci)) =~= instrs_view(c0) + seq![
                instr_view(ci)
            ]);
        }
        Result::Ok(())
    }

    fn remove_letrec(&mut self, id: &String)
        ensures
            final(self).lset() == remove_name(old(self).lset(), id@),
            final(self).code@ == old(self).code@,
    {
        let ghost full = self.letrec_id_list.deep_view();
        let mut out: Vec<String> = Vec::new();
        let mut i: usize = 0;
        proof {
            assert(full.subrange(0, full.len() as int) =~= full);
            assert(out.deep_view() =~= Seq::<Seq<char>>::empty());
        }
        while i < self.letrec_id_list.len()
            invariant
                i <= self.letrec_id_list@.len(),
                full == self.letrec_id_list.deep_view(),
                self.code@ == old(self).code@,
                self.letrec_id_list@ == old(self).letrec_id_list@,
                remove_name(full, id@) == out.deep_view() + remove_name(
                    full.subrange(i as int, full.len() as int),
                    id@,
                ),
            decreases self.letrec_id_list@.len() - i,
        {
            let ghost out0 = out.deep_view();
            let ghost tail = full.subrange(i as int, full.len() as int);
            proof {
                assert(tail[0] == full[i as int]);
                assert(tail.subrange(1, tail.len() as int) =~= full.subrange(
                    i + 1,
                    full.len() as int,
                ));
                assert(full[i as int] == self.letrec_id_list@[i as int]@);
            }
            if !self.letrec_id_list[i].eq(id) {
                out.push(self.letrec_id_list[i].clone());
                proof {
                    assert(cloned::<String>(
                        self.letrec_id_list@[i as int],
                        out@[out@.len() - 1],
                    ));
                    assert(out.deep_view() =~= out0.push(full[i as int]));
                    assert(out0 + (seq![full[i as int]] + remove_name(
                        full.subrange(i + 1, full.len() as int),
                        id@,
                    )) =~= out.deep_view() + remove_name(
                        full.subrange(i + 1, full.len() as int),
                        id@,
                    ));
                }
            }
            i += 1;
        }
        proof {
            assert(full.subrange(full.len() as int, full.len() as int) =~= Seq::<
                Seq<char>,
            >::empty());
            assert(out.deep_view() + Seq::<Seq<char>>::empty() =~= out.deep_view());
        }
        self.letrec_id_list = out;
    }

    fn compile_prim1(
        &mut self,
        info: Info,
        ls: Vec<AST>,
        op: CodeOP,
        k: CompileErrKind,
    ) -> (r: Result<(), CompileError>)
        requires
            ls@.len() >= 1,
        ensures
            obeys(
                comp_prim1(info, asts_view(ls@), old(self).lset(), op_view(op), k),
                instrs_view(old(self).code@),
                instrs_view(final(self).code@),
                final(self).lset(),
                r,
            ),
        decreases ls@, 1int, 0int,
    {
        let ghost lsg = ls@;
        let ghost lsv = asts_view(ls@);
        let ghost l0 = self.lset();
        let ghost c0 = instrs_view(self.code@);
        proof {
            lemma_asts_view_len(lsg);
        }
        if ls.len() != 2 {
            return Result::Err(CompileError { info, kind: k });
        }
        let mut ls = ls;
        let _head = ls.remove(0);
        let a1 = ls.remove(0);
        proof {
            assert(lsg.remove(0) =~= lsg.subrange(1, lsg.len() as int));
            assert(a1 == lsg[1]);
            lemma_asts_view_index(lsg, 1);
            assert(decreases_to!(lsg => lsg[1]));
        }
        match self.compile_(a1) {
            Result::Ok(()) => {},
            Result::Err(e) => {
                return Result::Err(e);
            },
        }
        let ci = CodeOPInfo { info, op };
        let ghost cpre = self.code@;
        self.code.push(ci);
        proof {
            lemma_instrs_view_push(cpre, ci);
            if let CompRes::Done(c1, l1) = comp(lsv[1], l0) {
                assert((c0 + c1).push(instr_view(ci)) =~= c0 + c1.push(instr_view(ci)));
            }
        }
        Result::Ok(())
    }

    fn compile_prim2(
        &mut self,
        info: Info,
        ls: Vec<AST>,
        op: CodeOP,
        k: CompileErrKind,
    ) -> (r: Result<(), CompileError>)
        requires
            ls@.len() >= 1,
        ensures
            obeys(
                comp_prim2(info, asts_view(ls@), old(self).lset(), op_view(op), k),
                instrs_view(old(self).code@),
                instrs_view(final(self).code@),
                final(self).lset(),
                r,
            ),
        decreases ls@, 1int, 0int,
    {
        let ghost lsg = ls@;
        let ghost lsv = asts_view(ls@);
        let ghost l0 = self.lset();
        let ghost c0 = instrs_view(self.code@);
        proof {
            lemma_asts_view_len(lsg);
        }
        if ls.len() != 3 {
            return Result::Err(CompileError { info, kind: k });
        }
        let mut ls = ls;
        let _head = ls.remove(0);
        let a1 = ls.remove(0);
        let a2 = ls.remove(0);
        proof {
            assert(lsg.remove(0) =~= lsg.subrange(1, lsg.len() as int));
            assert(lsg.remove(0).remove(0) =~= lsg.subrange(2, lsg.len() as int));
            assert(a1 == lsg[1]);
            assert(a2 == lsg[2]);
            lemma_asts_view_index(lsg, 1);
            lemma_asts_view_index(lsg, 2);
            assert(decreases_to!(lsg => lsg[1]));
            assert(decreases_to!(lsg => lsg[2]));
        }
        match self.compile_(a1) {
            Result::Ok(()) => {},
            Result::Err(e) => {
                return Result::Err(e);
            },
        }
        match self.compile_(a2) {
            Result::Ok(()) => {},
            Result::Err(e) => {
                return Result::Err(e);
            },
        }
        let ci = CodeOPInfo { info, op };
        let ghost cpre = self.code@;
        self.code.push(ci);
        proof {
            lemma_instrs_view_push(cpre, ci);
            if let CompRes::Done(c1, l1) = comp(lsv[1], l0) {
                if let CompRes::Done(c2, l2) = comp(lsv[2], l1) {
                    assert(((c0 + c1) + c2).push(instr_view(ci)) =~= c0 + (c1 + c2 + seq![
                        instr_view(ci)
                    ]));
                }
            }
        }
        Result::Ok(())
    }

    fn compile_nil(&mut self, info: Info) -> (r: Result<(), CompileError>)
        ensures
            r == Result::<(), CompileError>::Ok(()),
            instrs_view(final(self).code@) == instrs_view(old(self).code@) + seq![
                InstrV { info, op: OpV::LDC(LispV::Nil) }
            ],
            final(self).lset() == old(self).lset(),
    {
        let ghost c0 = self.code@;
        let ci = CodeOPInfo { info, op: CodeOP::LDC(Lisp::Nil) };
        self.code.push(ci);
        proof {
            lemma_instrs_view_push(c0, ci);
            assert(instrs_view(c0).push(instr_view(ci)) =~= instrs_view(c0) + seq![
                instr_view(ci)
            ]);
        }
        Result::Ok(())
    }

    fn compile_puts(&mut self, info: Info, ls: Vec<AST>) -> (r: Result<(), CompileError>)
        requires
            ls@.len() >= 1,
        ensures
            obeys(
                comp_prim1(
                    info,
                    asts_view(ls@),
                    old(self).lset(),
                    OpV::PUTS,
                    CompileErrKind::PutsSyntax,
                ),
                instrs_view(old(self).code@),
                instrs_view(final(self).code@),
                final(self).lset(),
                r,
            ),
        decreases ls@, 2int, 0int,
    {
        self.compile_prim1(info, ls, CodeOP::PUTS, CompileErrKind::PutsSyntax)
    }

    fn compile_car(&mut self, info: Info, ls: Vec<AST>) -> (r: Result<(), CompileError>)
        requires
            ls@.len() >= 1,
        ensures
            obeys(
                comp_prim1(
                    info,
                    asts_view(ls@),
                    old(self).lset(),
                    OpV::CAR,
                    CompileErrKind::CarSyntax,
                ),
                instrs_view(old(self).code@),
                instrs_view(final(self).code@),
                final(self).lset(),
                r,
            ),
        decreases ls@, 2int, 0int,
    {
        self.compile_prim1(info, ls, CodeOP::CAR, CompileErrKind::CarSyntax)
    }

    fn compile_cdr(&mut self, info: Info, ls: Vec<AST>) -> (r: Result<(), CompileError>)
        requires
            ls@.len() >= 1,
        ensures
            obeys(
                comp_prim1(
                    info,
                    asts_view(ls@),
                    old(self).lset(),
                    OpV::CDR,
                    CompileErrKind::CdrSyntax,
                ),
                instrs_view(old(self).code@),
                instrs_view(final(self).code@),
                final(self).lset(),
                r,
            ),
        decreases ls@, 2int, 0int,
    {
        self.compile_prim1(info, ls, CodeOP::CDR, CompileErrKind::CdrSyntax)
    }

    fn compile_eq(&mut self, info: Info, ls: Vec<AST>) -> (r: Result<(), CompileError>)
        requires
            ls@.len() >= 1,
        ensures
            obeys(
                comp_prim2(
                    info,
                    asts_view(ls@),
                    old(self).lset(),
                    OpV::EQ,
                    CompileErrKind::EqSyntax,
                ),
                instrs_view(old(self).code@),
                instrs_view(final(self).code@),
                final(self).lset(),
                r,
            ),
        decreases ls@, 2int, 0int,
    {
        self.compile_prim2(info, ls, CodeOP::EQ, CompileErrKind::EqSyntax)
    }

    fn compile_add(&mut self, info: Info, ls: Vec<AST>) -> (r: Result<(), CompileError>)
        requires
            ls@.len() >= 1,
        ensures
            obeys(
                comp_prim2(
                    info,
                    asts_view(ls@),
                    old(self).lset(),
                    OpV::ADD,
                    CompileErrKind::AddSyntax,
                ),
                instrs_view(old(self).code@),
                instrs_view(final(self).code@),
                final(self).lset(),
                r,
            ),
        decreases ls@, 2int, 0int,
    {
        self.compile_prim2(info, ls, CodeOP::ADD, CompileErrKind::AddSyntax)
    }

    fn compile_sub(&mut self, info: Info, ls: Vec<AST>) -> (r: Result<(), CompileError>)
        requires
            ls@.len() >= 1,
        ensures
            obeys(
                comp_prim2(
                    info,
                    asts_view(ls@),
                    old(self).lset(),
                    OpV::SUB,
                    CompileErrKind::SubSyntax,
                ),
                instrs_view(old(self).code@),
                instrs_view(final(self).code@),
                final(self).lset(),
                r,
            ),
        decreases ls@, 2int, 0int,
    {
        self.compile_prim2(info, ls, CodeOP::SUB, CompileErrKind::SubSyntax)
    }

    fn compile_cons(&mut self, info: Info, ls: Vec<AST>) -> (r: Result<(), CompileError>)
        requires
            ls@.len() >= 1,
        ensures
            obeys(
                comp_prim2(
                    info,
                    asts_view(ls@),
                    old(self).lset(),
                    OpV::CONS,
                    CompileErrKind::ConsSyntax,
                ),
                instrs_view(old(self).code@),
                instrs_view(final(self).code@),
                final(self).lset(),
                r,
            ),
        decreases ls@, 2int, 0int,
    {
        self.compile_prim2(info, ls, CodeOP::CONS, CompileErrKind::ConsSyntax)
    }

    #[verifier::loop_isolation(false)]
    fn compile_lambda(&mut self, info: Info, ls: Vec<AST>) -> (r: Result<(), CompileError>)
        requires
            ls@.len() >= 1,
        ensures
            obeys(
                comp_lambda(info, asts_view(ls@), old(self).lset()),
                instrs_view(old(self).code@),
                instrs_view(final(self).code@),
                final(self).lset(),
                r,
            ),
        decreases ls@, 1int, 0int,
    {
        let ghost lsg = ls@;
        let ghost lsv = asts_view(ls@);
        let ghost l0 = self.lset();
        let ghost c0 = instrs_view(self.code@);
        proof {
            lemma_asts_view_len(lsg);
        }
        if ls.len() != 3 {
            return Result::Err(CompileError { info, kind: CompileErrKind::LambdaSyntax });
        }
        let mut ls = ls;
        let _head = ls.remove(0);
        let arg = ls.remove(0);
        let body = ls.remove(0);
        proof {
            assert(lsg.remove(0) =~= lsg.subrange(1, lsg.len() as int));
            assert(lsg.remove(0).remove(0) =~= lsg.subrange(2, lsg.len() as int));
            assert(arg == lsg[1]);
            assert(body == lsg[2]);
            lemma_asts_view_index(lsg, 1);
            lemma_asts_view_index(lsg, 2);
            assert(decreases_to!(lsg => lsg[2]));
        }
        let mut params: Vec<String> = Vec::new();
        match arg.sexpr {
            SExpr::Atom(a) => {
                params.push(a);
                proof {
                    assert(params.deep_view() =~= seq![lsv[1].sexpr->Atom_0]);
                }
            },
            SExpr::List(aa) => {
                let ghost aav = asts_view(aa@);
                proof {
                    lemma_asts_view_len(aa@);
                }
                let mut i: usize = 0;
                while i < aa.len()
                    invariant
                        i <= aa@.len(),
                        aav == asts_view(aa@),
                        aav.len() == aa@.len(),
                        params@.len() == i,
                        forall|j: int| 0 <= j < i ==> (#[trigger] aav[j]).sexpr is Atom,
                        forall|j: int|
                            0 <= j < i ==> (#[trigger] params@[j])@ == aav[j].sexpr->Atom_0,
                    decreases aa@.len() - i,
                {
                    proof {
                        lemma_asts_view_index(aa@, i as int);
                    }
                    match &aa[i].sexpr {
                        SExpr::Atom(a) => {
                            let an = a.clone();
                            proof {
                                assert(an == *a);
                                assert(aav[i as int] == ast_view(aa@[i as int]));
                                assert(aav[i as int].sexpr == sexpr_view(aa@[i as int].sexpr));
                                assert(aav[i as int].sexpr == SExprV::Atom(an@));
                            }
                            params.push(an);
                        },
                        _ => {
                            proof {
                                lemma_params_of_char(aav);
                                assert(aav[i as int].sexpr == sexpr_view(aa@[i as int].sexpr));
                                assert(!(aav[i as int].sexpr is Atom));
                            }
                            return Result::Err(
                                CompileError { info, kind: CompileErrKind::LambdaArgs },
                            );
                        },
                    }
                    i += 1;
                }
                proof {
                    lemma_params_of_char(aav);
                    assert(params_of(aav) is Some);
                    assert forall|j: int| 0 <= j < params@.len() implies params.deep_view()[j]
                        == params_of(aav)->Some_0[j] by {
                        assert(params.deep_view()[j] == params@[j]@);
                    }
                    assert(params.deep_view() =~= params_of(aav)->Some_0);
                }
            },
            SExpr::Int(_) => {
                return Result::Err(
                    CompileError { info: arg.info, kind: CompileErrKind::LambdaArgs },
                );
            },
        }
        let mut bc = Compiler::new();
        bc.letrec_id_list = crate::data::dup_names(&self.letrec_id_list);
        let ghost bc0 = instrs_view(bc.code@);
        match bc.compile_(body) {
            Result::Ok(()) => {},
            Result::Err(e) => {
                return Result::Err(e);
            },
        }
        let rci = CodeOPInfo { info, op: CodeOP::RET };
        let ghost bpre = bc.code@;
        bc.code.push(rci);
        proof {
            lemma_instrs_view_push(bpre, rci);
            if let CompRes::Done(cb, lb) = comp(lsv[2], l0) {
                assert(Seq::<InstrV>::empty() + cb =~= cb);
                assert(instrs_view(bc.code@) == cb.push(InstrV { info, op: OpV::RET }));
            }
        }
        let ldf = CodeOPInfo { info, op: CodeOP::LDF(params, bc.code) };
        let ghost cpre = self.code@;
        self.code.push(ldf);
        proof {
            lemma_instrs_view_push(cpre, ldf);
            if let CompRes::Done(c, l2) = comp_lambda(info, lsv, l0) {
                assert(c0.push(instr_view(ldf)) =~= c0 + seq![instr_view(ldf)]);
                assert(c0 + seq![instr_view(ldf)] =~= c0 + c);
            }
        }
        Result::Ok(())
    }

    fn compile_let(&mut self, info: Info, ls: Vec<AST>) -> (r: Result<(), CompileError>)
        requires
            ls@.len() >= 1,
        ensures
            obeys(
                comp_let(info, asts_view(ls@), old(self).lset()),
                instrs_view(old(self).code@),
                instrs_view(final(self).code@),
                final(self).lset(),
                r,
            ),
        decreases ls@, 1int, 0int,
    {
        let ghost lsg = ls@;
        let ghost lsv = asts_view(ls@);
        let ghost l0 = self.lset();
        let ghost c0 = instrs_view(self.code@);
        proof {
            lemma_asts_view_len(lsg);
        }
        if ls.len() != 4 {
            return Result::Err(CompileError { info, kind: CompileErrKind::LetSyntax });
        }
        let mut ls = ls;
        let _head = ls.remove(0);
        let var = ls.remove(0);
        let expr = ls.remove(0);
        let body = ls.remove(0);
        proof {
            assert(lsg.remove(0) =~= lsg.subrange(1, lsg.len() as int));
            assert(lsg.remove(0).remove(0) =~= lsg.subrange(2, lsg.len() as int));
            assert(lsg.remove(0).remove(0).remove(0) =~= lsg.subrange(3, lsg.len() as int));
            assert(var == lsg[1]);
            assert(expr == lsg[2]);
            assert(body == lsg[3]);
            lemma_asts_view_index(lsg, 1);
            lemma_asts_view_index(lsg, 2);
            lemma_asts_view_index(lsg, 3);
            assert(decreases_to!(lsg => lsg[2]));
            assert(decreases_to!(lsg => lsg[3]));
        }
        let id: String = match var.sexpr {
            SExpr::Atom(id) => id,
            _ => {
                return Result::Err(CompileError { info, kind: CompileErrKind::LetBindId });
            },
        };
        self.remove_letrec(&id);
        match self.compile_(expr) {
            Result::Ok(()) => {},
            Result::Err(e) => {
                return Result::Err(e);
            },
        }
        let ghost idv = id@;
        let lci = CodeOPInfo { info, op: CodeOP::LET(id) };
        let ghost cpre = self.code@;
        self.code.push(lci);
        proof {
            lemma_instrs_view_push(cpre, lci);
        }
        match self.compile_(body) {
            Result::Ok(()) => {},
            Result::Err(e) => {
                return Result::Err(e);
            },
        }
        proof {
            let l1 = remove_name(l0, idv);
            if let CompRes::Done(ce, l2) = comp(lsv[2], l1) {
                if let CompRes::Done(cb, l3) = comp(lsv[3], l2) {
                    assert(((c0 + ce).push(InstrV { info, op: OpV::LET(idv) })) + cb =~= c0 + (ce
                        + seq![InstrV { info, op: OpV::LET(idv) }] + cb));
                }
            }
        }
        Result::Ok(())
    }

    fn compile_letrec(&mut self, info: Info, ls: Vec<AST>) -> (r: Result<(), CompileError>)
        requires
            ls@.len() >= 1,
        ensures
            obeys(
                comp_letrec(info, asts_view(ls@), old(self).lset()),
                instrs_view(old(self).code@),
                instrs_view(final(self).code@),
                final(self).lset(),
                r,
            ),
        decreases ls@, 1int, 0int,
    {
        let ghost lsg = ls@;
        let ghost lsv = asts_view(ls@);
        let ghost l0 = self.lset();
        let ghost c0 = instrs_view(self.code@);
        proof {
            lemma_asts_view_len(lsg);
        }
        if ls.len() != 4 {
            return Result::Err(CompileError { info, kind: CompileErrKind::LetrecSyntax });
        }
        let mut ls = ls;
        let _head = ls.remove(0);
        let var = ls.remove(0);
        let expr = ls.remove(0);
        let body = ls.remove(0);
        proof {
            assert(lsg.remove(0) =~= lsg.subrange(1, lsg.len() as int));
            assert(lsg.remove(0).remove(0) =~= lsg.subrange(2, lsg.len() as int));
            assert(lsg.remove(0).remove(0).remove(0) =~= lsg.subrange(3, lsg.len() as int));
            assert(var == lsg[1]);
            assert(expr == lsg[2]);
            assert(body == lsg[3]);
            lemma_asts_view_index(lsg, 1);
            lemma_asts_view_index(lsg, 2);
            lemma_asts_view_index(lsg, 3);
            assert(decreases_to!(lsg => lsg[2]));
            assert(decreases_to!(lsg => lsg[3]));
        }
        let id: String = match var.sexpr {
            SExpr::Atom(id) => id,
            _ => {
                return Result::Err(CompileError { info, kind: CompileErrKind::LetrecBindId });
            },
        };
        let ghost idv = id@;
        let ghost lpre = self.letrec_id_list.deep_view();
        self.letrec_id_list.push(id.clone());
        proof {
            assert(cloned::<String>(id, self.letrec_id_list@[self.letrec_id_list@.len() - 1]));
            assert(self.letrec_id_list.deep_view() =~= lpre.push(idv));
        }
        match self.compile_(expr) {
            Result::Ok(()) => {},
            Result::Err(e) => {
                return Result::Err(e);
            },
        }
        let lci = CodeOPInfo { info, op: CodeOP::LET(id) };
        let ghost cpre = self.code@;
        self.code.push(lci);
        proof {
            lemma_instrs_view_push(cpre, lci);
        }
        match self.compile_(body) {
            Result::Ok(()) => {},
            Result::Err(e) => {
                return Result::Err(e);
            },
        }
        proof {
            let l1 = l0.push(idv);
            if let CompRes::Done(ce, l2) = comp(lsv[2], l1) {
                if let CompRes::Done(cb, l3) = comp(lsv[3], l2) {
                    assert(((c0 + ce).push(InstrV { info, op: OpV::LET(idv) })) + cb =~= c0 + (ce
                        + seq![InstrV { info, op: OpV::LET(idv) }] + cb));
                }
            }
        }
        Result::Ok(())
    }

    fn compile_if(&mut self, info: Info, ls: Vec<AST>) -> (r: Result<(), CompileError>)
        requires
            ls@.len() >= 1,
        ensures
            obeys(
                comp_if(info, asts_view(ls@), old(self).lset()),
                instrs_view(old(self).code@),
                instrs_view(final(self).code@),
                final(self).lset(),
                r,
            ),
        decreases ls@, 1int, 0int,
    {
        let ghost lsg = ls@;
        let ghost lsv = asts_view(ls@);
        let ghost l0 = self.lset();
        let ghost c0 = instrs_view(self.code@);
        proof {
            lemma_asts_view_len(lsg);
        }
        if ls.len() != 4 {
            return Result::Err(CompileError { info, kind: CompileErrKind::IfSyntax });
        }
        let mut ls = ls;
        let _head = ls.remove(0);
        let cond = ls.remove(0);
        let thn = ls.remove(0);
        let els = ls.remove(0);
        proof {
            assert(lsg.remove(0) =~= lsg.subrange(1, lsg.len() as int));
            assert(lsg.remove(0).remove(0) =~= lsg.subrange(2, lsg.len() as int));
            assert(lsg.remove(0).remove(0).remove(0) =~= lsg.subrange(3, lsg.len() as int));
            assert(cond == lsg[1]);
            assert(thn == lsg[2]);
            assert(els == lsg[3]);
            lemma_asts_view_index(lsg, 1);
            lemma_asts_view_index(lsg, 2);
            lemma_asts_view_index(lsg, 3);
            assert(decreases_to!(lsg => lsg[1]));
            assert(decreases_to!(lsg => lsg[2]));
            assert(decreases_to!(lsg => lsg[3]));
        }
        let thn_info = thn.info;
        let els_info = els.info;
        match self.compile_(cond) {
            Result::Ok(()) => {},
            Result::Err(e) => {
                return Result::Err(e);
            },
        }
        let ghost l1 = self.lset();
        let mut tc = Compiler::new();
        tc.letrec_id_list = crate::data::dup_names(&self.letrec_id_list);
        match tc.compile_(thn) {
            Result::Ok(()) => {},
            Result::Err(e) => {
                return Result::Err(e);
            },
        }
        let tji = CodeOPInfo { info: thn_info, op: CodeOP::JOIN };
        let ghost tpre = tc.code@;
        tc.code.push(tji);
        proof {
            lemma_instrs_view_push(tpre, tji);
        }
        let mut fc = Compiler::new();
        fc.letrec_id_list = crate::data::dup_names(&self.letrec_id_list);
        match fc.compile_(els) {
            Result::Ok(()) => {},
            Result::Err(e) => {
                return Result::Err(e);
            },
        }
        let fji = CodeOPInfo { info: els_info, op: CodeOP::JOIN };
        let ghost fpre = fc.code@;
        fc.code.push(fji);
        proof {
            lemma_instrs_view_push(fpre, fji);
        }
        let sel = CodeOPInfo { info, op: CodeOP::SEL(tc.code, fc.code) };
        let ghost cpre = self.code@;
        self.code.push(sel);
        proof {
            lemma_instrs_view_push(cpre, sel);
            if let CompRes::Done(cc, l1g) = comp(lsv[1], l0) {
                if let CompRes::Done(ct, lt) = comp(lsv[2], l1g) {
                    if let CompRes::Done(cf, lf) = comp(lsv[3], l1g) {
                        assert(Seq::<InstrV>::empty() + ct =~= ct);
                        assert(Seq::<InstrV>::empty() + cf =~= cf);
                        assert((c0 + cc).push(instr_view(sel)) =~= c0 + (cc + seq![
                            instr_view(sel)
                        ]));
                    }
                }
            }
        }
        Result::Ok(())
    }

    #[verifier::loop_isolation(false)]
    fn compile_apply(&mut self, info: Info, ls: Vec<AST>) -> (r: Result<(), CompileError>)
        requires
            ls@.len() >= 1,
        ensures
            obeys(
                comp_apply(info, asts_view(ls@), old(self).lset()),
                instrs_view(old(self).code@),
                instrs_view(final(self).code@),
                final(self).lset(),
                r,
            ),
        decreases ls@, 1int, 0int,
    {
        let ghost lsg = ls@;
        let ghost lsv = asts_view(ls@);
        let ghost l0 = self.lset();
        let ghost c0 = instrs_view(self.code@);
        proof {
            lemma_asts_view_len(lsg);
            lemma_asts_view_index(lsg, 0);
        }
        let mut ls = ls;
        let head = ls.remove(0);
        proof {
            assert(lsg.remove(0) =~= lsg.subrange(1, lsg.len() as int));
            assert(head == lsg[0]);
        }
        let nargs = ls.len();
        let ghost mut acc: Seq<InstrV> = Seq::empty();
        let ghost mut i: int = 0;
        proof {
            assert(c0 + acc =~= c0);
            assert(acc + Seq::<InstrV>::empty() =~= acc);
        }
        while ls.len() > 0
            invariant
                0 <= i,
                i + ls@.len() + 1 == lsg.len(),
                ls@ =~= lsg.subrange(1 + i, lsg.len() as int),
                lsv.len() == lsg.len(),
                lsv == asts_view(lsg),
                instrs_view(self.code@) == c0 + acc,
                match comp_seq(lsv, (1 + i) as nat, self.lset()) {
                    CompRes::Done(cr, l2) => comp_seq(lsv, 1, l0) == CompRes::Done(acc + cr, l2),
                    CompRes::Fail(e) => comp_seq(lsv, 1, l0) == CompRes::Fail(e),
                },
            decreases ls@.len(),
        {
            let a = ls.remove(0);
            proof {
                assert(a == lsg[1 + i]);
                lemma_asts_view_index(lsg, 1 + i);
                assert(decreases_to!(lsg => lsg[1 + i]));
                assert(ls@ =~= lsg.subrange(1 + (i + 1), lsg.len() as int));
            }
            let ghost lset_pre = self.lset();
            let ghost acc0 = acc;
            let rr = self.compile_(a);
            match rr {
                Result::Ok(()) => {},
                Result::Err(e) => {
                    proof {
                        assert(comp(lsv[1 + i], lset_pre) == CompRes::Fail(e));
                    }
                    return Result::Err(e);
                },
            }
            proof {
                if let CompRes::Done(ci, li) = comp(lsv[1 + i], lset_pre) {
                    acc = acc0 + ci;
                    assert((c0 + acc0) + ci =~= c0 + acc);
                    if let CompRes::Done(cr2, l2) = comp_seq(lsv, (1 + i + 1) as nat, self.lset()) {
                        assert((acc0 + ci) + cr2 =~= acc0 + (ci + cr2));
                    }
                }
                i = i + 1;
            }
        }
        let aci = CodeOPInfo { info, op: CodeOP::ARGS(nargs) };
        let ghost cpre1 = self.code@;
        self.code.push(aci);
        proof {
            lemma_instrs_view_push(cpre1, aci);
            assert(i + 1 == lsg.len());
            assert(comp_seq(lsv, (1 + i) as nat, self.lset()) == CompRes::Done(
                Seq::<InstrV>::empty(),
                self.lset(),
            ));
            assert(acc + Seq::<InstrV>::empty() =~= acc);
            assert(instr_view(aci) == InstrV { info, op: OpV::ARGS((lsv.len() - 1) as nat) });
        }
        let ghost acc1 = acc.push(InstrV { info, op: OpV::ARGS((lsv.len() - 1) as nat) });
        let (is_atom, idop): (bool, Option<String>) = match &head.sexpr {
            SExpr::Atom(id) => (true, Option::Some(id.clone())),
            _ => (false, Option::None),
        };
        let ghost lmid = self.lset();
        proof {
            assert(decreases_to!(lsg => lsg[0]));
        }
        match self.compile_(head) {
            Result::Ok(()) => {},
            Result::Err(e) => {
                return Result::Err(e);
            },
        }
        let rap: bool = match &idop {
            Option::Some(id) => contains_name(&self.letrec_id_list, id),
            Option::None => false,
        };
        let fci = CodeOPInfo { info, op: if rap {
            CodeOP::RAP
        } else {
            CodeOP::AP
        } };
        let ghost cpre2 = self.code@;
        self.code.push(fci);
        proof {
            lemma_instrs_view_push(cpre2, fci);
            if let CompRes::Done(cf, l2) = comp(lsv[0], lmid) {
                assert(((c0 + acc).push(InstrV { info, op: OpV::ARGS((lsv.len() - 1) as nat) })
                    + cf).push(instr_view(fci)) =~= c0 + (acc + seq![
                    InstrV { info, op: OpV::ARGS((lsv.len() - 1) as nat) }
                ] + cf + seq![instr_view(fci)]));
            }
        }
        Result::Ok(())
    }
}

} // verus!
