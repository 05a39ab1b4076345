//! The data flowing between the parser, the compiler and the virtual
//! machine: expression-tree nodes, instructions, runtime values,
//! environments and machine registers, together with the mathematical
//! models (`..V` types) that the contracts speak of.
use vstd::prelude::*;

verus! {

/// A source position: line and column, both 1-based, carried by every
/// tree node and every instruction, used only for diagnostics.
#[derive(Clone, Copy, Debug, PartialEq, Eq, Structural)]
pub struct Info {
    pub line: usize,
    pub col: usize,
}

/// The payload of an expression-tree node: an identifier atom, an
/// integer literal, or an ordered list of sub-nodes.
#[derive(Debug)]
pub enum SExpr {
    Atom(String),
    Int(i32),
    List(Vec<AST>),
}

/// An expression-tree node together with its source position.
#[derive(Debug)]
pub struct AST {
    pub info: Info,
    pub sexpr: SExpr,
}

/// Model of a tree node: the same shape over `Seq` instead of `Vec`.
pub struct ASTV {
    pub info: Info,
    pub sexpr: SExprV,
}

/// Model of a node payload.
pub enum SExprV {
    Atom(Seq<char>),
    Int(i32),
    List(Seq<ASTV>),
}

pub open spec fn ast_view(a: AST) -> ASTV
    decreases a,
{
    ASTV { info: a.info, sexpr: sexpr_view(a.sexpr) }
}

pub open spec fn sexpr_view(s: SExpr) -> SExprV
    decreases s,
{
    match s {
        SExpr::Atom(id) => SExprV::Atom(id@),
        SExpr::Int(n) => SExprV::Int(n),
        SExpr::List(ls) => SExprV::List(asts_view(ls@)),
    }
}

pub open spec fn asts_view(ls: Seq<AST>) -> Seq<ASTV>
    decreases ls,
{
    if ls.len() == 0 {
        Seq::empty()
    } else {
        asts_view(ls.subrange(0, ls.len() - 1)).push(ast_view(ls[ls.len() - 1]))
    }
}

pub proof fn lemma_asts_view_len(ls: Seq<AST>)
    ensures
        asts_view(ls).len() == ls.len(),
    decreases ls.len(),
{
    if ls.len() > 0 {
        lemma_asts_view_len(ls.subrange(0, ls.len() - 1));
    }
}

pub proof fn lemma_asts_view_index(ls: Seq<AST>, i: int)
    requires
        0 <= i < ls.len(),
    ensures
        asts_view(ls).len() == ls.len(),
        asts_view(ls)[i] == ast_view(ls[i]),
    decreases ls.len(),
{
    lemma_asts_view_len(ls);
    if i < ls.len() - 1 {
        lemma_asts_view_index(ls.subrange(0, ls.len() - 1), i);
    } else {
        lemma_asts_view_len(ls.subrange(0, ls.len() - 1));
    }
}

impl View for AST {
    type V = ASTV;

    open spec fn view(&self) -> ASTV {
        ast_view(*self)
    }
}

impl View for SExpr {
    type V = SExprV;

    open spec fn view(&self) -> SExprV {
        sexpr_view(*self)
    }
}

/// An instruction sequence: the unit the compiler produces and the
/// machine consumes.  `LDF` and `SEL` embed complete nested sequences
/// rather than jump offsets.
pub type Code = Vec<CodeOPInfo>;

/// The working-value register of the machine.
pub type Stack = Vec<Lisp>;

/// The saved-continuation register of the machine.
pub type Dump = Vec<DumpOP>;

/// A machine instruction.
#[derive(Debug)]
pub enum CodeOP {
    LET(String),
    LD(String),
    LDC(Lisp),
    LDF(Vec<String>, Code),
    SEL(Code, Code),
    JOIN,
    RET,
    AP,
    RAP,
    ARGS(usize),
    PUTS,
    EQ,
    ADD,
    SUB,
    CONS,
    CAR,
    CDR,
}

/// An instruction together with the source position of the tree node
/// that produced it.
#[derive(Debug)]
pub struct CodeOPInfo {
    pub info: Info,
    pub op: CodeOP,
}

/// A runtime value.  `List` is produced only by argument collection,
/// `Cons` only by the `cons` primitive.
#[derive(Debug)]
pub enum Lisp {
    Nil,
    False,
    True,
    Int(i32),
    List(Vec<Lisp>),
    Closure(Vec<String>, Code, Env),
    Cons(Box<Lisp>, Box<Lisp>),
}

/// A mapping from identifiers to values, kept as an ordered list of
/// bindings where a later binding for the same name shadows an earlier
/// one.  Its model is the `Map` obtained by folding the bindings in
/// order.
#[derive(Debug)]
pub struct Env {
    pub pairs: Vec<(String, Lisp)>,
}

/// A saved continuation: a call frame (caller stack, caller
/// environment, caller remaining code) or a branch frame (pre-branch
/// remaining code).
#[derive(Debug)]
pub enum DumpOP {
    DumpAP(Stack, Env, Code),
    DumpSEL(Code),
}

/// The four machine registers, plus the lines written by `puts` so far.
#[derive(Debug)]
pub struct SECD {
    pub stack: Stack,
    pub env: Env,
    pub code: Code,
    pub dump: Dump,
    pub output: Vec<String>,
}

/// Model of an instruction payload.
pub enum OpV {
    LET(Seq<char>),
    LD(Seq<char>),
    LDC(LispV),
    LDF(Seq<Seq<char>>, Seq<InstrV>),
    SEL(Seq<InstrV>, Seq<InstrV>),
    JOIN,
    RET,
    AP,
    RAP,
    ARGS(nat),
    PUTS,
    EQ,
    ADD,
    SUB,
    CONS,
    CAR,
    CDR,
}

/// Model of an instruction with its source position.
pub struct InstrV {
    pub info: Info,
    pub op: OpV,
}

/// Model of a runtime value.
pub enum LispV {
    Nil,
    False,
    True,
    Int(i32),
    List(Seq<LispV>),
    Closure(Seq<Seq<char>>, Seq<InstrV>, Map<Seq<char>, LispV>),
    Cons(Box<LispV>, Box<LispV>),
}

/// Model of a saved continuation.
pub enum DumpV {
    DumpAP(Seq<LispV>, Map<Seq<char>, LispV>, Seq<InstrV>),
    DumpSEL(Seq<InstrV>),
}

/// Model of the whole machine: the four registers and the output.
pub struct MState {
    pub stack: Seq<LispV>,
    pub env: Map<Seq<char>, LispV>,
    pub code: Seq<InstrV>,
    pub dump: Seq<DumpV>,
    pub output: Seq<Seq<char>>,
}

pub open spec fn lisp_view(l: Lisp) -> LispV
    decreases l,
{
    match l {
        Lisp::Nil => LispV::Nil,
        Lisp::False => LispV::False,
        Lisp::True => LispV::True,
        Lisp::Int(n) => LispV::Int(n),
        Lisp::List(ls) => LispV::List(lisps_view(ls@)),
        Lisp::Closure(ns, c, e) => LispV::Closure(ns.deep_view(), instrs_view(c@), env_view(e)),
        Lisp::Cons(h, t) => LispV::Cons(Box::new(lisp_view(*h)), Box::new(lisp_view(*t))),
    }
}

pub open spec fn lisps_view(ls: Seq<Lisp>) -> Seq<LispV>
    decreases ls,
{
    if ls.len() == 0 {
        Seq::empty()
    } else {
        lisps_view(ls.subrange(0, ls.len() - 1)).push(lisp_view(ls[ls.len() - 1]))
    }
}

pub open spec fn env_view(e: Env) -> Map<Seq<char>, LispV>
    decreases e,
{
    pairs_view(e.pairs@)
}

pub open spec fn pairs_view(ps: Seq<(String, Lisp)>) -> Map<Seq<char>, LispV>
    decreases ps,
{
    if ps.len() == 0 {
        Map::empty()
    } else {
        pairs_view(ps.subrange(0, ps.len() - 1)).insert(
            ps[ps.len() - 1].0@,
            lisp_view(ps[ps.len() - 1].1),
        )
    }
}

pub open spec fn op_view(op: CodeOP) -> OpV
    decreases op,
{
    match op {
        CodeOP::LET(id) => OpV::LET(id@),
        CodeOP::LD(id) => OpV::LD(id@),
        CodeOP::LDC(l) => OpV::LDC(lisp_view(l)),
        CodeOP::LDF(ns, c) => OpV::LDF(ns.deep_view(), instrs_view(c@)),
        CodeOP::SEL(t, f) => OpV::SEL(instrs_view(t@), instrs_view(f@)),
        CodeOP::JOIN => OpV::JOIN,
        CodeOP::RET => OpV::RET,
        CodeOP::AP => OpV::AP,
        CodeOP::RAP => OpV::RAP,
        CodeOP::ARGS(n) => OpV::ARGS(n as nat),
        CodeOP::PUTS => OpV::PUTS,
        CodeOP::EQ => OpV::EQ,
        CodeOP::ADD => OpV::ADD,
        CodeOP::SUB => OpV::SUB,
        CodeOP::CONS => OpV::CONS,
        CodeOP::CAR => OpV::CAR,
        CodeOP::CDR => OpV::CDR,
    }
}

pub open spec fn instr_view(c: CodeOPInfo) -> InstrV
    decreases c,
{
    InstrV { info: c.info, op: op_view(c.op) }
}

pub open spec fn instrs_view(cs: Seq<CodeOPInfo>) -> Seq<InstrV>
    decreases cs,
{
    if cs.len() == 0 {
        Seq::empty()
    } else {
        instrs_view(cs.subrange(0, cs.len() - 1)).push(instr_view(cs[cs.len() - 1]))
    }
}

pub open spec fn dumpop_view(d: DumpOP) -> DumpV
    decreases d,
{
    match d {
        DumpOP::DumpAP(s, e, c) => DumpV::DumpAP(lisps_view(s@), env_view(e), instrs_view(c@)),
        DumpOP::DumpSEL(c) => DumpV::DumpSEL(instrs_view(c@)),
    }
}

pub open spec fn dumps_view(ds: Seq<DumpOP>) -> Seq<DumpV>
    decreases ds,
{
    if ds.len() == 0 {
        Seq::empty()
    } else {
        dumps_view(ds.subrange(0, ds.len() - 1)).push(dumpop_view(ds[ds.len() - 1]))
    }
}

pub broadcast proof fn lemma_lisps_view_len(ls: Seq<Lisp>)
    ensures
        (#[trigger] lisps_view(ls)).len() == ls.len(),
    decreases ls.len(),
{
    if ls.len() > 0 {
        lemma_lisps_view_len(ls.subrange(0, ls.len() - 1));
    }
}

pub broadcast proof fn lemma_lisps_view_index(ls: Seq<Lisp>, i: int)
    requires
        0 <= i < ls.len(),
    ensures
        #[trigger] lisps_view(ls)[i] == lisp_view(ls[i]),
    decreases ls.len(),
{
    lemma_lisps_view_len(ls);
    if i < ls.len() - 1 {
        lemma_lisps_view_index(ls.subrange(0, ls.len() - 1), i);
    } else {
        lemma_lisps_view_len(ls.subrange(0, ls.len() - 1));
    }
}

pub broadcast proof fn lemma_lisps_view_push(ls: Seq<Lisp>, l: Lisp)
    ensures
        #[trigger] lisps_view(ls.push(l)) == lisps_view(ls).push(lisp_view(l)),
{
    assert(ls.push(l).subrange(0, ls.push(l).len() - 1) =~= ls);
}

pub broadcast proof fn lemma_instrs_view_len(cs: Seq<CodeOPInfo>)
    ensures
        (#[trigger] instrs_view(cs)).len() == cs.len(),
    decreases cs.len(),
{
    if cs.len() > 0 {
        lemma_instrs_view_len(cs.subrange(0, cs.len() - 1));
    }
}

pub broadcast proof fn lemma_instrs_view_index(cs: Seq<CodeOPInfo>, i: int)
    requires
        0 <= i < cs.len(),
    ensures
        #[trigger] instrs_view(cs)[i] == instr_view(cs[i]),
    decreases cs.len(),
{
    lemma_instrs_view_len(cs);
    if i < cs.len() - 1 {
        lemma_instrs_view_index(cs.subrange(0, cs.len() - 1), i);
    } else {
        lemma_instrs_view_len(cs.subrange(0, cs.len() - 1));
    }
}

pub broadcast proof fn lemma_instrs_view_push(cs: Seq<CodeOPInfo>, c: CodeOPInfo)
    ensures
        #[trigger] instrs_view(cs.push(c)) == instrs_view(cs).push(instr_view(c)),
{
    assert(cs.push(c).subrange(0, cs.push(c).len() - 1) =~= cs);
}

pub proof fn lemma_instrs_view_subrange(cs: Seq<CodeOPInfo>, i: int, j: int)
    requires
        0 <= i <= j <= cs.len(),
    ensures
        instrs_view(cs.subrange(i, j)) =~= instrs_view(cs).subrange(i, j),
{
    broadcast use lemma_instrs_view_len, lemma_instrs_view_index;

    assert forall|k: int| 0 <= k < j - i implies instrs_view(cs.subrange(i, j))[k] == instrs_view(
        cs,
    ).subrange(i, j)[k] by {
        assert(cs.subrange(i, j)[k] == cs[i + k]);
    }
}

pub proof fn lemma_lisps_view_subrange(ls: Seq<Lisp>, i: int, j: int)
    requires
        0 <= i <= j <= ls.len(),
    ensures
        lisps_view(ls.subrange(i, j)) =~= lisps_view(ls).subrange(i, j),
{
    broadcast use lemma_lisps_view_len, lemma_lisps_view_index;

    assert forall|k: int| 0 <= k < j - i implies lisps_view(ls.subrange(i, j))[k] == lisps_view(
        ls,
    ).subrange(i, j)[k] by {
        assert(ls.subrange(i, j)[k] == ls[i + k]);
    }
}

/// The view of a stack with its last element removed, and of that
/// element: what a pop leaves behind.
pub proof fn lemma_pop_view(s: Seq<Lisp>)
    requires
        s.len() > 0,
    ensures
        lisps_view(s).len() == s.len(),
        lisps_view(s.subrange(0, s.len() - 1)) == lisps_view(s).drop_last(),
        lisps_view(s).last() == lisp_view(s[s.len() - 1]),
        lisps_view(s)[s.len() - 1] == lisp_view(s[s.len() - 1]),
{
    lemma_lisps_view_len(s);
    lemma_lisps_view_len(s.subrange(0, s.len() - 1));
    assert(lisps_view(s) == lisps_view(s.subrange(0, s.len() - 1)).push(
        lisp_view(s[s.len() - 1]),
    ));
    assert(lisps_view(s.subrange(0, s.len() - 1)) =~= lisps_view(s).drop_last());
}

/// A value and its model are always the same variant.
pub proof fn lemma_view_variant(l: Lisp)
    ensures
        (lisp_view(l) is Closure) == (l is Closure),
        (lisp_view(l) is List) == (l is List),
        (lisp_view(l) is Int) == (l is Int),
        (lisp_view(l) is Cons) == (l is Cons),
        (lisp_view(l) is True) == (l is True),
        (lisp_view(l) is False) == (l is False),
        (lisp_view(l) is Nil) == (l is Nil),
{
    match l {
        Lisp::Nil => {
            assert(lisp_view(l) is Nil);
        },
        Lisp::False => {
            assert(lisp_view(l) is False);
        },
        Lisp::True => {
            assert(lisp_view(l) is True);
        },
        Lisp::Int(_) => {
            assert(lisp_view(l) is Int);
        },
        Lisp::List(_) => {
            assert(lisp_view(l) is List);
        },
        Lisp::Closure(_, _, _) => {
            assert(lisp_view(l) is Closure);
        },
        Lisp::Cons(_, _) => {
            assert(lisp_view(l) is Cons);
        },
    }
}

/// The same for the dump register.
pub proof fn lemma_dump_pop_view(d: Seq<DumpOP>)
    requires
        d.len() > 0,
    ensures
        dumps_view(d).len() == d.len(),
        dumps_view(d.subrange(0, d.len() - 1)) == dumps_view(d).drop_last(),
        dumps_view(d)[d.len() - 1] == dumpop_view(d[d.len() - 1]),
{
    lemma_dumps_view_len(d);
    lemma_dumps_view_len(d.subrange(0, d.len() - 1));
    assert(dumps_view(d) == dumps_view(d.subrange(0, d.len() - 1)).push(
        dumpop_view(d[d.len() - 1]),
    ));
    assert(dumps_view(d.subrange(0, d.len() - 1)) =~= dumps_view(d).drop_last());
}

pub broadcast proof fn lemma_dumps_view_len(ds: Seq<DumpOP>)
    ensures
        (#[trigger] dumps_view(ds)).len() == ds.len(),
    decreases ds.len(),
{
    if ds.len() > 0 {
        lemma_dumps_view_len(ds.subrange(0, ds.len() - 1));
    }
}

pub broadcast proof fn lemma_dumps_view_push(ds: Seq<DumpOP>, d: DumpOP)
    ensures
        #[trigger] dumps_view(ds.push(d)) == dumps_view(ds).push(dumpop_view(d)),
{
    assert(ds.push(d).subrange(0, ds.push(d).len() - 1) =~= ds);
}

pub broadcast proof fn lemma_pairs_view_push(ps: Seq<(String, Lisp)>, p: (String, Lisp))
    ensures
        #[trigger] pairs_view(ps.push(p)) == pairs_view(ps).insert(p.0@, lisp_view(p.1)),
{
    assert(ps.push(p).subrange(0, ps.push(p).len() - 1) =~= ps);
}

pub proof fn lemma_pairs_view_concat(a: Seq<(String, Lisp)>, b: Seq<(String, Lisp)>)
    ensures
        pairs_view(a + b) =~= pairs_view(a).union_prefer_right(pairs_view(b)),
    decreases b.len(),
{
    if b.len() == 0 {
        assert(a + b =~= a);
        assert(pairs_view(a).union_prefer_right(Map::empty()) =~= pairs_view(a));
    } else {
        let b0 = b.subrange(0, b.len() - 1);
        lemma_pairs_view_concat(a, b0);
        assert((a + b).subrange(0, (a + b).len() - 1) =~= a + b0);
        assert((a + b)[(a + b).len() - 1] == b[b.len() - 1]);
        assert(pairs_view(a).union_prefer_right(pairs_view(b0)).insert(
            b[b.len() - 1].0@,
            lisp_view(b[b.len() - 1].1),
        ) =~= pairs_view(a).union_prefer_right(pairs_view(b)));
    }
}

impl View for Lisp {
    type V = LispV;

    open spec fn view(&self) -> LispV {
        lisp_view(*self)
    }
}

impl View for Env {
    type V = Map<Seq<char>, LispV>;

    open spec fn view(&self) -> Map<Seq<char>, LispV> {
        env_view(*self)
    }
}

impl View for CodeOPInfo {
    type V = InstrV;

    open spec fn view(&self) -> InstrV {
        instr_view(*self)
    }
}

impl View for DumpOP {
    type V = DumpV;

    open spec fn view(&self) -> DumpV {
        dumpop_view(*self)
    }
}

impl View for SECD {
    type V = MState;

    open spec fn view(&self) -> MState {
        MState {
            stack: lisps_view(self.stack@),
            env: env_view(self.env),
            code: instrs_view(self.code@),
            dump: dumps_view(self.dump@),
            output: self.output.deep_view(),
        }
    }
}

impl Lisp {
    /// Deep copy: the model of the copy equals the model of the original.
    pub fn duplicate(&self) -> (r: Lisp)
        ensures
            r@ == self@,
        decreases *self,
    {
        match self {
            Lisp::Nil => Lisp::Nil,
            Lisp::False => Lisp::False,
            Lisp::True => Lisp::True,
            Lisp::Int(n) => Lisp::Int(*n),
            Lisp::List(ls) => Lisp::List(dup_lisps(ls)),
            Lisp::Closure(ns, c, e) => Lisp::Closure(dup_names(ns), dup_code(c), e.duplicate()),
            Lisp::Cons(h, t) => Lisp::Cons(Box::new(h.duplicate()), Box::new(t.duplicate())),
        }
    }
}

pub fn dup_lisps(ls: &Vec<Lisp>) -> (r: Vec<Lisp>)
    ensures
        lisps_view(r@) == lisps_view(ls@),
        r@.len() == ls@.len(),
    decreases ls@,
{
    broadcast use lemma_lisps_view_push;

    let mut r: Vec<Lisp> = Vec::new();
    let mut i: usize = 0;
    while i < ls.len()
        invariant
            i <= ls.len(),
            r@.len() == i,
            lisps_view(r@) == lisps_view(ls@.subrange(0, i as int)),
        decreases ls.len() - i,
    {
        proof {
            broadcast use lemma_lisps_view_push;

            assert(decreases_to!(ls@ => ls@[i as int]));
            assert(ls@.subrange(0, i + 1).subrange(0, i as int) =~= ls@.subrange(0, i as int));
            assert(ls@.subrange(0, i + 1)[i as int] == ls@[i as int]);
        }
        r.push(ls[i].duplicate());
        i += 1;
    }
    proof {
        assert(ls@.subrange(0, ls@.len() as int) =~= ls@);
    }
    r
}

pub fn dup_names(ns: &Vec<String>) -> (r: Vec<String>)
    ensures
        r.deep_view() == ns.deep_view(),
        r@.len() == ns@.len(),
{
    let r = ns.clone();
    proof {
        assert forall|i: int| 0 <= i < ns@.len() implies r.deep_view()[i] == ns.deep_view()[i] by {
            assert(cloned::<String>(ns[i], r[i]));
        }
        assert(r.deep_view() =~= ns.deep_view());
    }
    r
}

pub fn dup_op(op: &CodeOP) -> (r: CodeOP)
    ensures
        op_view(r) == op_view(*op),
    decreases *op,
{
    match op {
        CodeOP::LET(id) => CodeOP::LET(id.clone()),
        CodeOP::LD(id) => CodeOP::LD(id.clone()),
        CodeOP::LDC(l) => CodeOP::LDC(l.duplicate()),
        CodeOP::LDF(ns, c) => CodeOP::LDF(dup_names(ns), dup_code(c)),
        CodeOP::SEL(t, f) => CodeOP::SEL(dup_code(t), dup_code(f)),
        CodeOP::JOIN => CodeOP::JOIN,
        CodeOP::RET => CodeOP::RET,
        CodeOP::AP => CodeOP::AP,
        CodeOP::RAP => CodeOP::RAP,
        CodeOP::ARGS(n) => CodeOP::ARGS(*n),
        CodeOP::PUTS => CodeOP::PUTS,
        CodeOP::EQ => CodeOP::EQ,
        CodeOP::ADD => CodeOP::ADD,
        CodeOP::SUB => CodeOP::SUB,
        CodeOP::CONS => CodeOP::CONS,
        CodeOP::CAR => CodeOP::CAR,
        CodeOP::CDR => CodeOP::CDR,
    }
}

pub fn dup_code(c: &Code) -> (r: Code)
    ensures
        instrs_view(r@) == instrs_view(c@),
        r@.len() == c@.len(),
    decreases c@,
{
    broadcast use lemma_instrs_view_push;

    let mut r: Code = Vec::new();
    let mut i: usize = 0;
    while i < c.len()
        invariant
            i <= c.len(),
            r@.len() == i,
            instrs_view(r@) == instrs_view(c@.subrange(0, i as int)),
        decreases c.len() - i,
    {
        proof {
            broadcast use lemma_instrs_view_push;

            assert(decreases_to!(c@ => c@[i as int]));
            assert(decreases_to!(c@[i as int] => c@[i as int].op));
            assert(c@.subrange(0, i + 1).subrange(0, i as int) =~= c@.subrange(0, i as int));
            assert(c@.subrange(0, i + 1)[i as int] == c@[i as int]);
        }
        let ci = CodeOPInfo { info: c[i].info, op: dup_op(&c[i].op) };
        proof {
            assert(instr_view(ci) == instr_view(c@[i as int]));
        }
        r.push(ci);
        i += 1;
    }
    proof {
        assert(c@.subrange(0, c@.len() as int) =~= c@);
    }
    r
}

impl Env {
    /// An empty environment.
    pub fn empty() -> (r: Env)
        ensures
            r@ == Map::<Seq<char>, LispV>::empty(),
    {
        Env { pairs: Vec::new() }
    }

    /// Deep copy: the model of the copy equals the model of the original.
    pub fn duplicate(&self) -> (r: Env)
        ensures
            r@ == self@,
        decreases *self,
    {
        let mut ps: Vec<(String, Lisp)> = Vec::new();
        let mut i: usize = 0;
        while i < self.pairs.len()
            invariant
                i <= self.pairs.len(),
                ps@.len() == i,
                pairs_view(ps@) == pairs_view(self.pairs@.subrange(0, i as int)),
            decreases self.pairs.len() - i,
        {
            proof {
                assert(decreases_to!(self.pairs@ => self.pairs@[i as int]));
                assert(decreases_to!(self.pairs@[i as int] => self.pairs@[i as int].1));
                assert(self.pairs@.subrange(0, i + 1).subrange(0, i as int) =~= self.pairs@.subrange(
                    0,
                    i as int,
                ));
                assert(self.pairs@.subrange(0, i + 1)[i as int] == self.pairs@[i as int]);
            }
            let p = (self.pairs[i].0.clone(), self.pairs[i].1.duplicate());
            proof {
                broadcast use lemma_pairs_view_push;

            }
            ps.push(p);
            i += 1;
        }
        proof {
            assert(self.pairs@.subrange(0, self.pairs@.len() as int) =~= self.pairs@);
        }
        Env { pairs: ps }
    }
}

impl Env {
    /// Look up a name: the latest binding for it wins, which is
    /// exactly what the model `Map` holds at that key.
    #[verifier::loop_isolation(false)]
    pub fn lookup(&self, id: &String) -> (r: Option<&Lisp>)
        ensures
            match r {
                Some(l) => self@.contains_key(id@) && l@ == self@[id@],
                None => !self@.contains_key(id@),
            },
    {
        let ps = &self.pairs;
        let mut i: usize = ps.len();
        proof {
            assert(ps@.subrange(0, ps@.len() as int) =~= ps@);
        }
        while i > 0
            invariant
                i <= ps@.len(),
                pairs_view(ps@).contains_key(id@) == pairs_view(ps@.subrange(0, i as int)).contains_key(id@),
                pairs_view(ps@.subrange(0, i as int)).contains_key(id@) ==> pairs_view(ps@)[id@]
                    == pairs_view(ps@.subrange(0, i as int))[id@],
            decreases i,
        {
            i -= 1;
            proof {
                assert(ps@.subrange(0, i + 1).subrange(0, i as int) =~= ps@.subrange(0, i as int));
                assert(ps@.subrange(0, i + 1)[i as int] == ps@[i as int]);
            }
            if ps[i].0.eq(id) {
                return Some(&ps[i].1);
            }
        }
        proof {
            assert(ps@.subrange(0, 0) =~= Seq::<(String, Lisp)>::empty());
        }
        None
    }

    /// Bind a name to a value, shadowing any earlier binding.
    pub fn insert(&mut self, id: String, l: Lisp)
        ensures
            final(self)@ == old(self)@.insert(id@, l@),
    {
        let ghost ps0 = self.pairs@;
        let p = (id, l);
        let ghost pg = p;
        self.pairs.push(p);
        proof {
            lemma_pairs_view_push(ps0, pg);
        }
    }

    /// Merge another environment into this one; on a shared name the
    /// other environment's binding wins.
    #[verifier::loop_isolation(false)]
    pub fn extend(&mut self, other: Env)
        ensures
            final(self)@ == old(self)@.union_prefer_right(other@),
    {
        let ghost orig_self = self.pairs@;
        let ghost orig_other = other.pairs@;
        let mut o = other;
        while o.pairs.len() > 0
            invariant
                self.pairs@ + o.pairs@ =~= orig_self + orig_other,
            decreases o.pairs.len(),
        {
            let p = o.pairs.remove(0);
            self.pairs.push(p);
            proof {
                assert(self.pairs@ + o.pairs@ =~= orig_self + orig_other);
            }
        }
        proof {
            assert(self.pairs@ =~= orig_self + orig_other);
            lemma_pairs_view_concat(orig_self, orig_other);
        }
    }
}

/// Structural equality of runtime values, as decided by the `eq`
/// primitive.  Two closures never compare equal: every closure value is
/// its own copy, so this reads as equality of references.
pub open spec fn val_eq(a: LispV, b: LispV) -> bool
    decreases a,
{
    match (a, b) {
        (LispV::Nil, LispV::Nil) => true,
        (LispV::False, LispV::False) => true,
        (LispV::True, LispV::True) => true,
        (LispV::Int(x), LispV::Int(y)) => x == y,
        (LispV::List(xs), LispV::List(ys)) => vals_eq(xs, ys),
        (LispV::Cons(h1, t1), LispV::Cons(h2, t2)) => val_eq(*h1, *h2) && val_eq(*t1, *t2),
        _ => false,
    }
}

pub open spec fn vals_eq(xs: Seq<LispV>, ys: Seq<LispV>) -> bool
    decreases xs,
{
    if xs.len() != ys.len() {
        false
    } else if xs.len() == 0 {
        true
    } else {
        vals_eq(xs.subrange(0, xs.len() - 1), ys.subrange(0, ys.len() - 1)) && val_eq(
            xs[xs.len() - 1],
            ys[ys.len() - 1],
        )
    }
}

pub proof fn lemma_vals_eq_iff(xs: Seq<LispV>, ys: Seq<LispV>)
    ensures
        vals_eq(xs, ys) <==> (xs.len() == ys.len() && forall|i: int|
            0 <= i < xs.len() ==> val_eq(xs[i], ys[i])),
    decreases xs.len(),
{
    if xs.len() == ys.len() && xs.len() > 0 {
        let xs0 = xs.subrange(0, xs.len() - 1);
        let ys0 = ys.subrange(0, ys.len() - 1);
        lemma_vals_eq_iff(xs0, ys0);
        assert forall|i: int| 0 <= i < xs0.len() implies xs0[i] == xs[i] && ys0[i] == ys[i] by {}
    }
}

/// Decides `val_eq` on the models of two values.
#[verifier::loop_isolation(false)]
pub fn lisp_eq(a: &Lisp, b: &Lisp) -> (r: bool)
    ensures
        r == val_eq(a@, b@),
    decreases *a,
{
    match (a, b) {
        (Lisp::Nil, Lisp::Nil) => true,
        (Lisp::False, Lisp::False) => true,
        (Lisp::True, Lisp::True) => true,
        (Lisp::Int(x), Lisp::Int(y)) => *x == *y,
        (Lisp::List(xs), Lisp::List(ys)) => {
            proof {
                broadcast use lemma_lisps_view_len;

            }
            if xs.len() != ys.len() {
                proof {
                    lemma_vals_eq_iff(lisps_view(xs@), lisps_view(ys@));
                }
                false
            } else {
                let mut i: usize = 0;
                let mut ok: bool = true;
                while ok && i < xs.len()
                    invariant
                        xs@.len() == ys@.len(),
                        i <= xs@.len(),
                        ok ==> forall|j: int|
                            0 <= j < i ==> val_eq(
                                lisps_view(xs@)[j],
                                lisps_view(ys@)[j],
                            ),
                        !ok ==> !vals_eq(lisps_view(xs@), lisps_view(ys@)),
                    decreases xs.len() - i + (if ok {
                        1int
                    } else {
                        0int
                    }),
                {
                    proof {
                        assert(decreases_to!(xs@ => xs@[i as int]));
                    }
                    let e = lisp_eq(&xs[i], &ys[i]);
                    proof {
                        lemma_lisps_view_len(xs@);
                        lemma_lisps_view_len(ys@);
                        lemma_lisps_view_index(xs@, i as int);
                        lemma_lisps_view_index(ys@, i as int);
                        if !e {
                            lemma_vals_eq_iff(lisps_view(xs@), lisps_view(ys@));
                        }
                    }
                    if e {
                        i += 1;
                    } else {
                        ok = false;
                    }
                }
                proof {
                    if ok {
                        lemma_vals_eq_iff(lisps_view(xs@), lisps_view(ys@));
                    }
                }
                ok
            }
        },
        (Lisp::Cons(h1, t1), Lisp::Cons(h2, t2)) => {
            proof {
                assert(decreases_to!(*a => *h1));
                assert(decreases_to!(*a => *t1));
            }
            let he = lisp_eq(h1, h2);
            if he {
                lisp_eq(t1, t2)
            } else {
                false
            }
        },
        _ => false,
    }
}

/// Equality of instruction payloads, position information left aside.
/// Embedded constants are compared with `val_eq`.
pub open spec fn op_similar(a: OpV, b: OpV) -> bool
    decreases a,
{
    match (a, b) {
        (OpV::LET(x), OpV::LET(y)) => x == y,
        (OpV::LD(x), OpV::LD(y)) => x == y,
        (OpV::LDC(u), OpV::LDC(v)) => val_eq(u, v),
        (OpV::LDF(m, c), OpV::LDF(n, d)) => m == n && instrs_similar(c, d),
        (OpV::SEL(t1, f1), OpV::SEL(t2, f2)) => instrs_similar(t1, t2) && instrs_similar(f1, f2),
        (OpV::JOIN, OpV::JOIN) => true,
        (OpV::RET, OpV::RET) => true,
        (OpV::AP, OpV::AP) => true,
        (OpV::RAP, OpV::RAP) => true,
        (OpV::ARGS(m), OpV::ARGS(n)) => m == n,
        (OpV::PUTS, OpV::PUTS) => true,
        (OpV::EQ, OpV::EQ) => true,
        (OpV::ADD, OpV::ADD) => true,
        (OpV::SUB, OpV::SUB) => true,
        (OpV::CONS, OpV::CONS) => true,
        (OpV::CAR, OpV::CAR) => true,
        (OpV::CDR, OpV::CDR) => true,
        _ => false,
    }
}

pub open spec fn instrs_similar(a: Seq<InstrV>, b: Seq<InstrV>) -> bool
    decreases a,
{
    if a.len() != b.len() {
        false
    } else if a.len() == 0 {
        true
    } else {
        instrs_similar(a.subrange(0, a.len() - 1), b.subrange(0, b.len() - 1)) && op_similar(
            a[a.len() - 1].op,
            b[b.len() - 1].op,
        )
    }
}

pub proof fn lemma_instrs_similar_iff(a: Seq<InstrV>, b: Seq<InstrV>)
    ensures
        instrs_similar(a, b) <==> (a.len() == b.len() && forall|i: int|
            0 <= i < a.len() ==> op_similar(a[i].op, b[i].op)),
    decreases a.len(),
{
    if a.len() == b.len() && a.len() > 0 {
        let a0 = a.subrange(0, a.len() - 1);
        let b0 = b.subrange(0, b.len() - 1);
        lemma_instrs_similar_iff(a0, b0);
        assert forall|i: int| 0 <= i < a0.len() implies a0[i] == a[i] && b0[i] == b[i] by {}
    }
}

pub fn names_eq(a: &Vec<String>, b: &Vec<String>) -> (r: bool)
    ensures
        r == (a.deep_view() == b.deep_view()),
{
    if a.len() != b.len() {
        proof {
            assert(a.deep_view().len() == a@.len());
            assert(b.deep_view().len() == b@.len());
        }
        false
    } else {
        let mut i: usize = 0;
        while i < a.len()
            invariant
                a@.len() == b@.len(),
                i <= a@.len(),
                forall|j: int| 0 <= j < i ==> a.deep_view()[j] == b.deep_view()[j],
            decreases a.len() - i,
        {
            if !(*a)[i].eq(&(*b)[i]) {
                proof {
                    assert(a.deep_view()[i as int] == a@[i as int]@);
                    assert(b.deep_view()[i as int] == b@[i as int]@);
                }
                return false;
            }
            i += 1;
        }
        proof {
            assert(a.deep_view() =~= b.deep_view());
        }
        true
    }
}

/// Decides `op_similar` on the models of two instruction payloads.
pub fn op_eq(a: &CodeOP, b: &CodeOP) -> (r: bool)
    ensures
        r == op_similar(op_view(*a), op_view(*b)),
    decreases *a,
{
    match (a, b) {
        (CodeOP::LET(x), CodeOP::LET(y)) => x.eq(y),
        (CodeOP::LD(x), CodeOP::LD(y)) => x.eq(y),
        (CodeOP::LDC(u), CodeOP::LDC(v)) => lisp_eq(u, v),
        (CodeOP::LDF(m, c), CodeOP::LDF(n, d)) => {
            proof {
                assert(decreases_to!(*a => *c));
            }
            if names_eq(m, n) {
                code_similar(c, d)
            } else {
                false
            }
        },
        (CodeOP::SEL(t1, f1), CodeOP::SEL(t2, f2)) => {
            proof {
                assert(decreases_to!(*a => *t1));
                assert(decreases_to!(*a => *f1));
            }
            if code_similar(t1, t2) {
                code_similar(f1, f2)
            } else {
                false
            }
        },
        (CodeOP::JOIN, CodeOP::JOIN) => true,
        (CodeOP::RET, CodeOP::RET) => true,
        (CodeOP::AP, CodeOP::AP) => true,
        (CodeOP::RAP, CodeOP::RAP) => true,
        (CodeOP::ARGS(m), CodeOP::ARGS(n)) => *m == *n,
        (CodeOP::PUTS, CodeOP::PUTS) => true,
        (CodeOP::EQ, CodeOP::EQ) => true,
        (CodeOP::ADD, CodeOP::ADD) => true,
        (CodeOP::SUB, CodeOP::SUB) => true,
        (CodeOP::CONS, CodeOP::CONS) => true,
        (CodeOP::CAR, CodeOP::CAR) => true,
        (CodeOP::CDR, CodeOP::CDR) => true,
        _ => false,
    }
}

/// Decides `instrs_similar` on the models of two instruction sequences.
#[verifier::loop_isolation(false)]
pub fn code_similar(a: &Code, b: &Code) -> (r: bool)
    ensures
        r == instrs_similar(instrs_view(a@), instrs_view(b@)),
    decreases a@,
{
    proof {
        broadcast use lemma_instrs_view_len;

    }
    if a.len() != b.len() {
        proof {
            lemma_instrs_similar_iff(instrs_view(a@), instrs_view(b@));
        }
        false
    } else {
        let mut i: usize = 0;
        let mut ok: bool = true;
        while ok && i < a.len()
            invariant
                a@.len() == b@.len(),
                i <= a@.len(),
                ok ==> forall|j: int|
                    0 <= j < i ==> op_similar(
                        instrs_view(a@)[j].op,
                        instrs_view(b@)[j].op,
                    ),
                !ok ==> !instrs_similar(instrs_view(a@), instrs_view(b@)),
            decreases a.len() - i + (if ok {
                1int
            } else {
                0int
            }),
        {
            proof {
                assert(decreases_to!(a@ => a@[i as int]));
                assert(decreases_to!(a@[i as int] => a@[i as int].op));
            }
            let e = op_eq(&a[i].op, &b[i].op);
            proof {
                lemma_instrs_view_len(a@);
                lemma_instrs_view_len(b@);
                lemma_instrs_view_index(a@, i as int);
                lemma_instrs_view_index(b@, i as int);
                if !e {
                    lemma_instrs_similar_iff(instrs_view(a@), instrs_view(b@));
                }
            }
            if e {
                i += 1;
            } else {
                ok = false;
            }
        }
        proof {
            if ok {
                broadcast use lemma_instrs_view_len, lemma_instrs_view_index;

                lemma_instrs_similar_iff(instrs_view(a@), instrs_view(b@));
            }
        }
        ok
    }
}

impl PartialEq for Lisp {
    /// Structural equality; two closures never compare equal.
    fn eq(&self, other: &Lisp) -> (r: bool)
        ensures
            r == val_eq(self@, other@),
    {
        lisp_eq(self, other)
    }
}

impl vstd::std_specs::cmp::PartialEqSpecImpl for Lisp {
    open spec fn obeys_eq_spec() -> bool {
        true
    }

    open spec fn eq_spec(&self, other: &Lisp) -> bool {
        val_eq(self@, other@)
    }
}

impl PartialEq for CodeOPInfo {
    /// Instructions compare by payload alone: the source position is
    /// not part of the meaning of an instruction.
    fn eq(&self, other: &CodeOPInfo) -> (r: bool)
        ensures
            r == op_similar(self@.op, other@.op),
    {
        op_eq(&self.op, &other.op)
    }
}

impl vstd::std_specs::cmp::PartialEqSpecImpl for CodeOPInfo {
    open spec fn obeys_eq_spec() -> bool {
        true
    }

    open spec fn eq_spec(&self, other: &CodeOPInfo) -> bool {
        op_similar(self@.op, other@.op)
    }
}

} // verus!
