//! The error taxonomy, by stage: parse errors, compile errors and
//! runtime errors, each carrying the source position responsible, and
//! each rendered as `line:column:stage error: message`.
use vstd::prelude::*;
use crate::data::Info;
use crate::render::{dec_digits, push_usize_dec};

verus! {

/// Relies on `String::push` of std, which vstd leaves unspecified:
/// it appends the given character to the end of the string.
pub assume_specification[ String::push ](s: &mut String, c: char)
    ensures
        final(s)@ == old(s)@.push(c),
;

/// What went wrong while reading source text.
#[derive(Clone, Copy, Debug, PartialEq, Eq, Structural)]
pub enum ParseErrKind {
    /// A character outside the language's alphabet.
    UnexpectedChar(char),
    /// A `)` with no `(` left open.
    UnbalancedClose,
    /// A `(` never closed.
    UnbalancedOpen,
    /// No expression in the input at all.
    Empty,
    /// An integer literal that does not fit the value range.
    IntOverflow,
}

/// A parse error with the position it was noticed at.
#[derive(Clone, Copy, Debug, PartialEq, Eq, Structural)]
pub struct ParseError {
    pub info: Info,
    pub kind: ParseErrKind,
}

/// What went wrong while compiling a tree: an arity mismatch or a
/// malformed binding shape, named after the form concerned.
#[derive(Clone, Copy, Debug, PartialEq, Eq, Structural)]
pub enum CompileErrKind {
    LambdaSyntax,
    LambdaArgs,
    LetSyntax,
    LetBindId,
    LetrecSyntax,
    LetrecBindId,
    PutsSyntax,
    IfSyntax,
    EqSyntax,
    AddSyntax,
    SubSyntax,
    ConsSyntax,
    CarSyntax,
    CdrSyntax,
    /// An integer literal in function position.
    ApplyInt,
}

/// A compile error with the position of the offending node.
#[derive(Clone, Copy, Debug, PartialEq, Eq, Structural)]
pub struct CompileError {
    pub info: Info,
    pub kind: CompileErrKind,
}

/// What went wrong while the machine ran.
#[derive(Clone, Copy, Debug, PartialEq, Eq, Structural)]
pub enum RuntimeErrKind {
    /// A pop found the stack empty (also: no result at the end).
    StackEmpty,
    /// `LD` found no binding for the name.
    UnboundId,
    /// A pop found the dump empty.
    DumpEmpty,
    ApExpectedClosure,
    ApExpectedList,
    /// Argument count differed from parameter count at a call.
    ApArity,
    RapExpectedClosure,
    RapExpectedList,
    RapArity,
    RetExpectedAp,
    SelExpectedBool,
    JoinExpectedSel,
    AddExpectedInt,
    SubExpectedInt,
    CarExpectedCons,
    CdrExpectedCons,
    /// The machine was still running after the step allowance.
    StepLimit,
}

/// A runtime error with the position of the instruction responsible.
#[derive(Clone, Copy, Debug, PartialEq, Eq, Structural)]
pub struct RuntimeError {
    pub info: Info,
    pub kind: RuntimeErrKind,
}

/// The union of the three stage errors, as `run_lisp` reports them.
#[derive(Clone, Copy, Debug, PartialEq, Eq, Structural)]
pub enum EvalError {
    Parse(ParseError),
    Compile(CompileError),
    Runtime(RuntimeError),
}

pub open spec fn parse_msg(k: ParseErrKind) -> Seq<char> {
    match k {
        ParseErrKind::UnexpectedChar(c) => "unexpected character '"@ + seq![c] + "'"@,
        ParseErrKind::UnbalancedClose => "many ')'"@,
        ParseErrKind::UnbalancedOpen => "many '('"@,
        ParseErrKind::Empty => "empty source"@,
        ParseErrKind::IntOverflow => "integer literal too large"@,
    }
}

pub open spec fn compile_msg(k: CompileErrKind) -> Seq<char> {
    match k {
        CompileErrKind::LambdaSyntax => "lambda syntax"@,
        CompileErrKind::LambdaArgs => "lambda args"@,
        CompileErrKind::LetSyntax => "let syntax"@,
        CompileErrKind::LetBindId => "let bind id syntax"@,
        CompileErrKind::LetrecSyntax => "letrec syntax"@,
        CompileErrKind::LetrecBindId => "letrec bind id syntax"@,
        CompileErrKind::PutsSyntax => "puts syntax"@,
        CompileErrKind::IfSyntax => "if syntax"@,
        CompileErrKind::EqSyntax => "eq syntax"@,
        CompileErrKind::AddSyntax => "add syntax"@,
        CompileErrKind::SubSyntax => "sub syntax"@,
        CompileErrKind::ConsSyntax => "cons syntax"@,
        CompileErrKind::CarSyntax => "car syntax"@,
        CompileErrKind::CdrSyntax => "cdr syntax"@,
        CompileErrKind::ApplyInt => "apply unexpect int"@,
    }
}

pub open spec fn runtime_msg(k: RuntimeErrKind) -> Seq<char> {
    match k {
        RuntimeErrKind::StackEmpty => "stack is empty"@,
        RuntimeErrKind::UnboundId => "unbound identifier"@,
        RuntimeErrKind::DumpEmpty => "dump is empty"@,
        RuntimeErrKind::ApExpectedClosure => "AP: expected Closure"@,
        RuntimeErrKind::ApExpectedList => "AP: expected List"@,
        RuntimeErrKind::ApArity => "AP: wrong number of arguments"@,
        RuntimeErrKind::RapExpectedClosure => "RAP: expected Closure"@,
        RuntimeErrKind::RapExpectedList => "RAP: expected List"@,
        RuntimeErrKind::RapArity => "RAP: wrong number of arguments"@,
        RuntimeErrKind::RetExpectedAp => "RET: expected DumpAP"@,
        RuntimeErrKind::SelExpectedBool => "SEL: expected bool"@,
        RuntimeErrKind::JoinExpectedSel => "JOIN: expected DumpSEL"@,
        RuntimeErrKind::AddExpectedInt => "ADD: expected int"@,
        RuntimeErrKind::SubExpectedInt => "SUB: expected int"@,
        RuntimeErrKind::CarExpectedCons => "CAR: expected Cons"@,
        RuntimeErrKind::CdrExpectedCons => "CDR: expected Cons"@,
        RuntimeErrKind::StepLimit => "step limit exceeded"@,
    }
}

/// `line:column:stage error: message`.
pub open spec fn err_text(info: Info, stage: Seq<char>, msg: Seq<char>) -> Seq<char> {
    dec_digits(info.line as nat) + ":"@ + dec_digits(info.col as nat) + ":"@ + stage
        + " error: "@ + msg
}

fn push_err_prefix(s: &mut String, info: Info, stage: &str)
    ensures
        final(s)@ == old(s)@ + dec_digits(info.line as nat) + ":"@ + dec_digits(info.col as nat)
            + ":"@ + stage@ + " error: "@,
{
    push_usize_dec(s, info.line);
    s.append(":");
    push_usize_dec(s, info.col);
    s.append(":");
    s.append(stage);
    s.append(" error: ");
}

impl ParseError {
    /// The full diagnostic line for this error.
    pub fn render(&self) -> (r: String)
        ensures
            r@ == err_text(self.info, "parse"@, parse_msg(self.kind)),
    {
        let mut s = String::new();
        push_err_prefix(&mut s, self.info, "parse");
        match self.kind {
            ParseErrKind::UnexpectedChar(c) => {
                s.append("unexpected character '");
                let mut t = String::new();
                t.push(c);
                s.append(t.as_str());
                s.append("'");
                proof {
                    assert(s@ =~= Seq::<char>::empty() + err_text(
                        self.info,
                        "parse"@,
                        parse_msg(self.kind),
                    ));
                }
            },
            ParseErrKind::UnbalancedClose => s.append("many ')'"),
            ParseErrKind::UnbalancedOpen => s.append("many '('"),
            ParseErrKind::Empty => s.append("empty source"),
            ParseErrKind::IntOverflow => s.append("integer literal too large"),
        }
        proof {
            assert(s@ =~= err_text(self.info, "parse"@, parse_msg(self.kind)));
        }
        s
    }
}

impl CompileError {
    /// The full diagnostic line for this error.
    pub fn render(&self) -> (r: String)
        ensures
            r@ == err_text(self.info, "compile"@, compile_msg(self.kind)),
    {
        let mut s = String::new();
        push_err_prefix(&mut s, self.info, "compile");
        match self.kind {
            CompileErrKind::LambdaSyntax => s.append("lambda syntax"),
            CompileErrKind::LambdaArgs => s.append("lambda args"),
            CompileErrKind::LetSyntax => s.append("let syntax"),
            CompileErrKind::LetBindId => s.append("let bind id syntax"),
            CompileErrKind::LetrecSyntax => s.append("letrec syntax"),
            CompileErrKind::LetrecBindId => s.append("letrec bind id syntax"),
            CompileErrKind::PutsSyntax => s.append("puts syntax"),
            CompileErrKind::IfSyntax => s.append("if syntax"),
            CompileErrKind::EqSyntax => s.append("eq syntax"),
            CompileErrKind::AddSyntax => s.append("add syntax"),
            CompileErrKind::SubSyntax => s.append("sub syntax"),
            CompileErrKind::ConsSyntax => s.append("cons syntax"),
            CompileErrKind::CarSyntax => s.append("car syntax"),
            CompileErrKind::CdrSyntax => s.append("cdr syntax"),
            CompileErrKind::ApplyInt => s.append("apply unexpect int"),
        }
        proof {
            assert(s@ =~= err_text(self.info, "compile"@, compile_msg(self.kind)));
        }
        s
    }
}

impl RuntimeError {
    /// The full diagnostic line for this error.
    pub fn render(&self) -> (r: String)
        ensures
            r@ == err_text(self.info, "vm"@, runtime_msg(self.kind)),
    {
        let mut s = String::new();
        push_err_prefix(&mut s, self.info, "vm");
        match self.kind {
            RuntimeErrKind::StackEmpty => s.append("stack is empty"),
            RuntimeErrKind::UnboundId => s.append("unbound identifier"),
            RuntimeErrKind::DumpEmpty => s.append("dump is empty"),
            RuntimeErrKind::ApExpectedClosure => s.append("AP: expected Closure"),
            RuntimeErrKind::ApExpectedList => s.append("AP: expected List"),
            RuntimeErrKind::ApArity => s.append("AP: wrong number of arguments"),
            RuntimeErrKind::RapExpectedClosure => s.append("RAP: expected Closure"),
            RuntimeErrKind::RapExpectedList => s.append("RAP: expected List"),
            RuntimeErrKind::RapArity => s.append("RAP: wrong number of arguments"),
            RuntimeErrKind::RetExpectedAp => s.append("RET: expected DumpAP"),
            RuntimeErrKind::SelExpectedBool => s.append("SEL: expected bool"),
            RuntimeErrKind::JoinExpectedSel => s.append("JOIN: expected DumpSEL"),
            RuntimeErrKind::AddExpectedInt => s.append("ADD: expected int"),
            RuntimeErrKind::SubExpectedInt => s.append("SUB: expected int"),
            RuntimeErrKind::CarExpectedCons => s.append("CAR: expected Cons"),
            RuntimeErrKind::CdrExpectedCons => s.append("CDR: expected Cons"),
            RuntimeErrKind::StepLimit => s.append("step limit exceeded"),
        }
        proof {
            assert(s@ =~= err_text(self.info, "vm"@, runtime_msg(self.kind)));
        }
        s
    }
}

/// The diagnostic line of whichever stage failed.
pub open spec fn eval_err_text(e: EvalError) -> Seq<char> {
    match e {
        EvalError::Parse(p) => err_text(p.info, "parse"@, parse_msg(p.kind)),
        EvalError::Compile(c) => err_text(c.info, "compile"@, compile_msg(c.kind)),
        EvalError::Runtime(r) => err_text(r.info, "vm"@, runtime_msg(r.kind)),
    }
}

impl EvalError {
    /// The full diagnostic line for this error.
    pub fn render(&self) -> (r: String)
        ensures
            r@ == eval_err_text(*self),
    {
        match self {
            EvalError::Parse(p) => p.render(),
            EvalError::Compile(c) => c.render(),
            EvalError::Runtime(r) => r.render(),
        }
    }
}

} // verus!
