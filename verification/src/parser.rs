//! The lexer and parser: source text to expression tree.  The
//! functions `lex_spec` and `parse_expr_spec` state exactly which
//! token or tree each position of the input yields; the executable
//! `Parser` is proved to return that.
use vstd::prelude::*;
use crate::data::{AST, ASTV, Info, SExpr, SExprV, asts_view, ast_view, lemma_asts_view_len};
use crate::errors::{ParseErrKind, ParseError};

verus! {

/// A lexeme class: a parenthesis, an integer literal or an identifier.
#[derive(Clone, Copy, Debug, PartialEq, Eq, Structural)]
pub enum TokenKind {
    Open,
    Close,
    Int,
    Id,
}

/// A lexeme: its text, its class, and the source position just past
/// it.
pub struct Token {
    pub token: String,
    pub kind: TokenKind,
    pub info: Info,
}

/// Model of a lexeme.
pub struct TokG {
    pub text: Seq<char>,
    pub kind: TokenKind,
    pub info: Info,
}

pub open spec fn token_view(t: Token) -> TokG {
    TokG { text: t.token@, kind: t.kind, info: t.info }
}

impl View for Token {
    type V = TokG;

    open spec fn view(&self) -> TokG {
        token_view(*self)
    }
}

/// A decimal digit.
pub open spec fn is_digit_char(c: char) -> bool {
    '0' <= c && c <= '9'
}

/// A character that may stand in an identifier: letters, digits, and
/// a fixed set of symbols.  Parentheses and whitespace are not in it.
pub open spec fn is_ident_char(c: char) -> bool {
    is_digit_char(c) || ('a' <= c && c <= 'z') || ('A' <= c && c <= 'Z') || c == '!' || c == '#'
        || c == '$' || c == '%' || c == '&' || c == '-' || c == '^' || c == '=' || c == '~' || c
        == '|' || c == '@' || c == '`' || c == ';' || c == ':' || c == '+' || c == '*' || c == ','
        || c == '.' || c == '/' || c == '_' || c == '<' || c == '>' || c == '?'
}

fn is_digit(c: char) -> (r: bool)
    ensures
        r == is_digit_char(c),
{
    '0' <= c && c <= '9'
}

fn is_id(c: char) -> (r: bool)
    ensures
        r == is_ident_char(c),
{
    is_digit(c) || ('a' <= c && c <= 'z') || ('A' <= c && c <= 'Z') || c == '!' || c == '#' || c
        == '$' || c == '%' || c == '&' || c == '-' || c == '^' || c == '=' || c == '~' || c == '|'
        || c == '@' || c == '`' || c == ';' || c == ':' || c == '+' || c == '*' || c == ',' || c
        == '.' || c == '/' || c == '_' || c == '<' || c == '>' || c == '?'
}

/// One column to the right.
pub open spec fn inc_col(info: Info) -> Info {
    Info { line: info.line, col: vstd::wrapping::usize_specs::wrapping_add(info.col, 1) }
}

/// Several columns to the right.
pub open spec fn add_col(info: Info, k: usize) -> Info {
    Info { line: info.line, col: vstd::wrapping::usize_specs::wrapping_add(info.col, k) }
}

/// The next line, first column.
pub open spec fn inc_line(info: Info) -> Info {
    Info { line: vstd::wrapping::usize_specs::wrapping_add(info.line, 1), col: 1 }
}

/// What the lexer yields at a position: a token with the state just
/// past it, the end of the input with the state that reached it, or a
/// character outside the alphabet with the state that sits on it.
pub enum LexOut {
    Tok(TokG, usize, Info),
    End(usize, Info),
    Bad(ParseError, usize, Info),
}

/// The first position at or after `i` that does not hold a digit.
pub open spec fn scan_digits(src: Seq<char>, i: usize) -> usize
    decreases src.len() - i,
{
    if i >= src.len() || i == usize::MAX {
        i
    } else if is_digit_char(src[i as int]) {
        scan_digits(src, (i + 1) as usize)
    } else {
        i
    }
}

/// The first position at or after `i` that does not hold an
/// identifier character.
pub open spec fn scan_ident(src: Seq<char>, i: usize) -> usize
    decreases src.len() - i,
{
    if i >= src.len() || i == usize::MAX {
        i
    } else if is_ident_char(src[i as int]) {
        scan_ident(src, (i + 1) as usize)
    } else {
        i
    }
}

pub proof fn lemma_scan_digits(src: Seq<char>, i: usize)
    requires
        src.len() <= usize::MAX,
    ensures
        i <= scan_digits(src, i),
        scan_digits(src, i) <= src.len() || scan_digits(src, i) == i,
        forall|j: int| i <= j < scan_digits(src, i) ==> is_digit_char(src[j]),
        scan_digits(src, i) < src.len() ==> !is_digit_char(src[scan_digits(src, i) as int]),
    decreases src.len() - i,
{
    if i < src.len() && i < usize::MAX && is_digit_char(src[i as int]) {
        lemma_scan_digits(src, (i + 1) as usize);
    }
}

pub proof fn lemma_scan_ident(src: Seq<char>, i: usize)
    requires
        src.len() <= usize::MAX,
    ensures
        i <= scan_ident(src, i),
        scan_ident(src, i) <= src.len() || scan_ident(src, i) == i,
        forall|j: int| i <= j < scan_ident(src, i) ==> is_ident_char(src[j]),
        scan_ident(src, i) < src.len() ==> !is_ident_char(src[scan_ident(src, i) as int]),
    decreases src.len() - i,
{
    if i < src.len() && i < usize::MAX && is_ident_char(src[i as int]) {
        lemma_scan_ident(src, (i + 1) as usize);
    }
}

/// The lexer: skips spaces and newlines, keeping the line and column
/// count, and reads one token.  A parenthesis is one character; a
/// run of digits is an integer literal; a run of identifier
/// characters starting with a non-digit is an identifier; anything
/// else is an error.  A token's recorded position is the position
/// just past it, as the column counter stands there.
pub open spec fn lex_spec(src: Seq<char>, pos: usize, info: Info) -> LexOut
    decreases src.len() - pos,
    when src.len() <= usize::MAX
{
    if pos >= src.len() {
        LexOut::End(pos, info)
    } else {
        let c = src[pos as int];
        if c == '(' {
            LexOut::Tok(
                TokG { text: seq!['('], kind: TokenKind::Open, info: inc_col(info) },
                (pos + 1) as usize,
                inc_col(info),
            )
        } else if c == ')' {
            LexOut::Tok(
                TokG { text: seq![')'], kind: TokenKind::Close, info: inc_col(info) },
                (pos + 1) as usize,
                inc_col(info),
            )
        } else if c == ' ' {
            lex_spec(src, (pos + 1) as usize, inc_col(info))
        } else if c == '\n' {
            lex_spec(src, (pos + 1) as usize, inc_line(info))
        } else if is_digit_char(c) {
            let j = scan_digits(src, (pos + 1) as usize);
            let ninfo = add_col(info, (j - pos) as usize);
            LexOut::Tok(
                TokG { text: src.subrange(pos as int, j as int), kind: TokenKind::Int, info: ninfo },
                j,
                ninfo,
            )
        } else if is_ident_char(c) {
            let j = scan_ident(src, (pos + 1) as usize);
            let ninfo = add_col(info, (j - pos) as usize);
            LexOut::Tok(
                TokG { text: src.subrange(pos as int, j as int), kind: TokenKind::Id, info: ninfo },
                j,
                ninfo,
            )
        } else {
            LexOut::Bad(
                ParseError { info, kind: ParseErrKind::UnexpectedChar(c) },
                pos,
                info,
            )
        }
    }
}

/// The lexer always moves forward: a token ends strictly past where
/// it began, and the end of input is at or past the length.
pub proof fn lemma_lex_advances(src: Seq<char>, pos: usize, info: Info)
    requires
        src.len() <= usize::MAX,
    ensures
        match lex_spec(src, pos, info) {
            LexOut::Tok(t, p2, i2) => pos < p2 <= src.len(),
            LexOut::End(p2, i2) => p2 >= src.len() && p2 >= pos,
            LexOut::Bad(e, p2, i2) => pos <= p2 < src.len(),
        },
    decreases src.len() - pos,
{
    if pos < src.len() {
        let c = src[pos as int];
        if c == ' ' {
            lemma_lex_advances(src, (pos + 1) as usize, inc_col(info));
        } else if c == '\n' {
            lemma_lex_advances(src, (pos + 1) as usize, inc_line(info));
        } else if c == '(' || c == ')' {
        } else if is_digit_char(c) {
            lemma_scan_digits(src, (pos + 1) as usize);
        } else if is_ident_char(c) {
            lemma_scan_ident(src, (pos + 1) as usize);
        }
    }
}

/// The numeric value of a digit character.
pub open spec fn digit_val(c: char) -> int {
    c as u32 - 48
}

/// The value of a sequence of decimal digits, most significant first.
pub open spec fn dec_value(s: Seq<char>) -> int
    decreases s.len(),
{
    if s.len() == 0 {
        0
    } else {
        dec_value(s.subrange(0, s.len() - 1)) * 10 + digit_val(s[s.len() - 1])
    }
}

pub proof fn lemma_dec_value_nonneg(s: Seq<char>)
    requires
        forall|j: int| 0 <= j < s.len() ==> is_digit_char(s[j]),
    ensures
        dec_value(s) >= 0,
    decreases s.len(),
{
    if s.len() > 0 {
        let s0 = s.subrange(0, s.len() - 1);
        assert(forall|j: int| 0 <= j < s0.len() ==> s0[j] == s[j]);
        lemma_dec_value_nonneg(s0);
    }
}

/// A digit prefix never exceeds the whole number.
pub proof fn lemma_dec_value_prefix_le(s: Seq<char>, i: int)
    requires
        forall|j: int| 0 <= j < s.len() ==> is_digit_char(s[j]),
        0 <= i <= s.len(),
    ensures
        dec_value(s.subrange(0, i)) <= dec_value(s),
    decreases s.len() - i,
{
    if i < s.len() {
        let s1 = s.subrange(0, i + 1);
        assert(forall|j: int| 0 <= j < s1.len() ==> s1[j] == s[j]);
        assert(s1.subrange(0, i) =~= s.subrange(0, i));
        lemma_dec_value_nonneg(s.subrange(0, i));
        assert(dec_value(s.subrange(0, i)) <= dec_value(s1));
        lemma_dec_value_prefix_le(s, i + 1);
    } else {
        assert(s.subrange(0, i) =~= s);
    }
}

/// An integer token consists of digits, at least one.
pub proof fn lemma_lex_int_digits(src: Seq<char>, pos: usize, info: Info)
    requires
        src.len() <= usize::MAX,
    ensures
        match lex_spec(src, pos, info) {
            LexOut::Tok(t, p2, i2) => t.kind == TokenKind::Int ==> t.text.len() >= 1 && (forall|
                j: int,
            | 0 <= j < t.text.len() ==> is_digit_char(t.text[j])),
            _ => true,
        },
    decreases src.len() - pos,
{
    if pos < src.len() {
        let c = src[pos as int];
        if c == ' ' {
            lemma_lex_int_digits(src, (pos + 1) as usize, inc_col(info));
        } else if c == '\n' {
            lemma_lex_int_digits(src, (pos + 1) as usize, inc_line(info));
        } else if c == '(' || c == ')' {
        } else if is_digit_char(c) {
            lemma_scan_digits(src, (pos + 1) as usize);
        }
    }
}

/// What parsing one expression yields: a tree node with the state
/// just past it, or the first error.
pub enum PExp {
    Node(ASTV, usize, Info),
    PErr(ParseError),
}

/// What parsing the elements of a parenthesized list yields: the
/// elements, the closing token's position, and the state just past
/// the closing parenthesis; or the first error.
pub enum PList {
    Elems(Seq<ASTV>, Info, usize, Info),
    LErr(ParseError),
}

/// What parsing a whole input yields: every top-level expression, or
/// the first error.
pub enum PAll {
    All(Seq<ASTV>),
    AErr(ParseError),
}

/// One expression: an integer literal or identifier becomes a leaf; a
/// `(` opens a list whose node carries the closing token's position; a
/// stray `)` and a premature end of input are errors.  An integer
/// literal beyond the value range is an error.
pub open spec fn parse_expr_spec(src: Seq<char>, pos: usize, info: Info) -> PExp
    decreases src.len() - pos, 0int,
    when src.len() <= usize::MAX
    via parse_expr_spec_dec
{
    match lex_spec(src, pos, info) {
        LexOut::End(p2, i2) => PExp::PErr(
            ParseError { info: i2, kind: ParseErrKind::UnbalancedOpen },
        ),
        LexOut::Bad(e, p2, i2) => PExp::PErr(e),
        LexOut::Tok(t, p2, i2) => match t.kind {
            TokenKind::Open => match parse_list_spec(src, p2, i2) {
                PList::Elems(items, cinfo, p3, i3) => PExp::Node(
                    ASTV { info: cinfo, sexpr: SExprV::List(items) },
                    p3,
                    i3,
                ),
                PList::LErr(e) => PExp::PErr(e),
            },
            TokenKind::Close => PExp::PErr(
                ParseError { info: t.info, kind: ParseErrKind::UnbalancedClose },
            ),
            TokenKind::Int => {
                if dec_value(t.text) > i32::MAX {
                    PExp::PErr(ParseError { info: t.info, kind: ParseErrKind::IntOverflow })
                } else {
                    PExp::Node(
                        ASTV { info: t.info, sexpr: SExprV::Int(dec_value(t.text) as i32) },
                        p2,
                        i2,
                    )
                }
            },
            TokenKind::Id => PExp::Node(ASTV { info: t.info, sexpr: SExprV::Atom(t.text) }, p2, i2),
        },
    }
}

#[via_fn]
proof fn parse_expr_spec_dec(src: Seq<char>, pos: usize, info: Info) {
    lemma_lex_advances(src, pos, info);
}

/// List elements up to and including the closing parenthesis.  The
/// guards on the recursion positions can never fail — the cursor
/// always moves strictly forward — and only make the recursion
/// obviously bounded.
pub open spec fn parse_list_spec(src: Seq<char>, pos: usize, info: Info) -> PList
    decreases src.len() - pos, 1int,
    when src.len() <= usize::MAX
{
    match lex_spec(src, pos, info) {
        LexOut::End(p2, i2) => PList::LErr(
            ParseError { info: i2, kind: ParseErrKind::UnbalancedOpen },
        ),
        LexOut::Bad(e, p2, i2) => PList::LErr(e),
        LexOut::Tok(t, p2, i2) => {
            if t.kind == TokenKind::Close {
                PList::Elems(Seq::empty(), t.info, p2, i2)
            } else {
                match parse_expr_spec(src, pos, info) {
                    PExp::Node(a, p3, i3) => {
                        if pos < p3 <= src.len() {
                            match parse_list_spec(src, p3, i3) {
                                PList::Elems(rest, cinfo, p4, i4) => PList::Elems(
                                    seq![a] + rest,
                                    cinfo,
                                    p4,
                                    i4,
                                ),
                                PList::LErr(e) => PList::LErr(e),
                            }
                        } else {
                            PList::LErr(
                                ParseError { info: i3, kind: ParseErrKind::UnbalancedOpen },
                            )
                        }
                    },
                    PExp::PErr(e) => PList::LErr(e),
                }
            }
        },
    }
}

/// Every top-level expression in turn; a stray `)` between them is an
/// error.
pub open spec fn parse_all(src: Seq<char>, pos: usize, info: Info) -> PAll
    decreases src.len() - pos, 2int,
    when src.len() <= usize::MAX
{
    match lex_spec(src, pos, info) {
        LexOut::End(p2, i2) => PAll::All(Seq::empty()),
        LexOut::Bad(e, p2, i2) => PAll::AErr(e),
        LexOut::Tok(t, p2, i2) => {
            if t.kind == TokenKind::Close {
                PAll::AErr(ParseError { info: t.info, kind: ParseErrKind::UnbalancedClose })
            } else {
                match parse_expr_spec(src, pos, info) {
                    PExp::Node(a, p3, i3) => {
                        if pos < p3 <= src.len() {
                            match parse_all(src, p3, i3) {
                                PAll::All(rest) => PAll::All(seq![a] + rest),
                                PAll::AErr(e) => PAll::AErr(e),
                            }
                        } else {
                            PAll::AErr(
                                ParseError { info: i3, kind: ParseErrKind::UnbalancedOpen },
                            )
                        }
                    },
                    PExp::PErr(e) => PAll::AErr(e),
                }
            }
        },
    }
}

/// A whole input: its last top-level expression, an error if it has
/// none, and otherwise the first error.
pub open spec fn parse_spec(src: Seq<char>, pos: usize, info: Info) -> Result<ASTV, ParseError> {
    match parse_all(src, pos, info) {
        PAll::All(es) => if es.len() == 0 {
            Result::Err(ParseError { info, kind: ParseErrKind::Empty })
        } else {
            Result::Ok(es.last())
        },
        PAll::AErr(e) => Result::Err(e),
    }
}

/// The parser's state: the source as characters, a cursor, and the
/// line and column the cursor stands at.
pub struct Parser {
    pub src: Vec<char>,
    pub pos: usize,
    pub info: Info,
}

/// Whether `r` is the reading that the lexer's model `lr` calls for.
pub open spec fn lex_result(lr: LexOut, r: Result<Option<Token>, ParseError>) -> bool {
    match lr {
        LexOut::Tok(t, p2, i2) => match r {
            Result::Ok(Option::Some(tk)) => tk@ == t,
            _ => false,
        },
        LexOut::End(p2, i2) => r == Result::<Option<Token>, ParseError>::Ok(Option::None),
        LexOut::Bad(e, p2, i2) => r == Result::<Option<Token>, ParseError>::Err(e),
    }
}

pub open spec fn lex_pos(lr: LexOut) -> usize {
    match lr {
        LexOut::Tok(_, p, _) => p,
        LexOut::End(p, _) => p,
        LexOut::Bad(_, p, _) => p,
    }
}

pub open spec fn lex_info(lr: LexOut) -> Info {
    match lr {
        LexOut::Tok(_, _, i) => i,
        LexOut::End(_, i) => i,
        LexOut::Bad(_, _, i) => i,
    }
}

impl Parser {
    pub open spec fn wf(&self) -> bool {
        self.src@.len() <= usize::MAX
    }

    /// A parser over the given text, its cursor at the start,
    /// line 1, column 1.
    pub fn new(s: &String) -> (r: Parser)
        ensures
            r.wf(),
            r.src@ == s@,
            r.pos == 0,
            r.info == (Info { line: 1, col: 1 }),
    {
        let mut v: Vec<char> = Vec::new();
        let n = s.as_str().unicode_len();
        let mut i: usize = 0;
        proof {
            assert(v@ =~= s@.subrange(0, 0));
        }
        while i < n
            invariant
                i <= n,
                n == s@.len(),
                v@ == s@.subrange(0, i as int),
            decreases n - i,
        {
            let c = s.as_str().get_char(i);
            v.push(c);
            proof {
                assert(v@ =~= s@.subrange(0, i + 1));
            }
            i += 1;
        }
        proof {
            assert(v@ =~= s@);
        }
        Parser { src: v, pos: 0, info: Info { line: 1, col: 1 } }
    }

    /// Reads one token: consuming it when `is_peek` is false, leaving
    /// the cursor alone when it is true.
    #[verifier::loop_isolation(false)]
    fn lex(&mut self, is_peek: bool) -> (r: Result<Option<Token>, ParseError>)
        requires
            old(self).wf(),
        ensures
            final(self).wf(),
            final(self).src@ == old(self).src@,
            lex_result(lex_spec(old(self).src@, old(self).pos, old(self).info), r),
            is_peek ==> final(self).pos == old(self).pos && final(self).info == old(self).info,
            !is_peek ==> final(self).pos == lex_pos(
                lex_spec(old(self).src@, old(self).pos, old(self).info),
            ) && final(self).info == lex_info(
                lex_spec(old(self).src@, old(self).pos, old(self).info),
            ),
    {
        let ghost srcv = self.src@;
        let ghost l0 = lex_spec(self.src@, self.pos, self.info);
        let n = self.src.len();
        let mut pos = self.pos;
        let mut info = self.info;
        let mut out: Result<Option<Token>, ParseError> = Result::Ok(Option::None);
        let mut done = false;
        while !done && pos < n
            invariant
                !done ==> lex_spec(srcv, pos, info) == l0 && out == Result::<
                    Option<Token>,
                    ParseError,
                >::Ok(Option::None),
                done ==> lex_result(l0, out) && pos == lex_pos(l0) && info == lex_info(l0),
            decreases n - pos + (if done {
                0int
            } else {
                1int
            }),
        {
            let c = self.src[pos];
            let ghost bpos = pos;
            let ghost binfo = info;
            if c == ' ' {
                pos = pos + 1;
                info = Info { line: info.line, col: info.col.wrapping_add(1) };
            } else if c == '\n' {
                pos = pos + 1;
                info = Info { line: info.line.wrapping_add(1), col: 1 };
            } else if c == '(' {
                pos = pos + 1;
                info = Info { line: info.line, col: info.col.wrapping_add(1) };
                let t = Token { token: String::from_str("("), kind: TokenKind::Open, info };
                proof {
                    reveal_strlit("(");
                    assert(t@.text =~= seq!['(']);
                    assert(lex_result(l0, Result::Ok(Option::Some(t))) && pos == lex_pos(l0)
                        && info == lex_info(l0));
                }
                out = Result::Ok(Option::Some(t));
                done = true;
            } else if c == ')' {
                pos = pos + 1;
                info = Info { line: info.line, col: info.col.wrapping_add(1) };
                let t = Token { token: String::from_str(")"), kind: TokenKind::Close, info };
                proof {
                    reveal_strlit(")");
                    assert(t@.text =~= seq![')']);
                    assert(lex_result(l0, Result::Ok(Option::Some(t))) && pos == lex_pos(l0)
                        && info == lex_info(l0));
                }
                out = Result::Ok(Option::Some(t));
                done = true;
            } else if is_digit(c) {
                let start = pos;
                let mut j = pos + 1;
                let mut text = String::new();
                text.push(c);
                proof {
                    assert(text@ =~= srcv.subrange(start as int, j as int));
                }
                while j < n && is_digit(self.src[j])
                    invariant
                        start < j <= n,
                        scan_digits(srcv, (start + 1) as usize) == scan_digits(srcv, j),
                        text@ == srcv.subrange(start as int, j as int),
                    decreases n - j,
                {
                    text.push(self.src[j]);
                    j = j + 1;
                    proof {
                        assert(text@ =~= srcv.subrange(start as int, j as int));
                    }
                }
                proof {
                    assert(scan_digits(srcv, j) == j);
                    assert(j == scan_digits(srcv, (start + 1) as usize));
                }
                let count: usize = j - start;
                info = Info { line: info.line, col: info.col.wrapping_add(count) };
                pos = j;
                let t = Token { token: text, kind: TokenKind::Int, info };
                proof {
                    assert(info == add_col(binfo, (j - bpos) as usize));
                    assert(lex_result(l0, Result::Ok(Option::Some(t))) && pos == lex_pos(l0)
                        && info == lex_info(l0));
                }
                out = Result::Ok(Option::Some(t));
                done = true;
            } else if is_id(c) {
                let start = pos;
                let mut j = pos + 1;
                let mut text = String::new();
                text.push(c);
                proof {
                    assert(text@ =~= srcv.subrange(start as int, j as int));
                }
                while j < n && is_id(self.src[j])
                    invariant
                        start < j <= n,
                        scan_ident(srcv, (start + 1) as usize) == scan_ident(srcv, j),
                        text@ == srcv.subrange(start as int, j as int),
                    decreases n - j,
                {
                    text.push(self.src[j]);
                    j = j + 1;
                    proof {
                        assert(text@ =~= srcv.subrange(start as int, j as int));
                    }
                }
                proof {
                    assert(scan_ident(srcv, j) == j);
                    assert(j == scan_ident(srcv, (start + 1) as usize));
                }
                let count: usize = j - start;
                info = Info { line: info.line, col: info.col.wrapping_add(count) };
                pos = j;
                let t = Token { token: text, kind: TokenKind::Id, info };
                proof {
                    assert(info == add_col(binfo, (j - bpos) as usize));
                    assert(lex_result(l0, Result::Ok(Option::Some(t))) && pos == lex_pos(l0)
                        && info == lex_info(l0));
                }
                out = Result::Ok(Option::Some(t));
                done = true;
            } else {
                proof {
                    assert(lex_result(
                        l0,
                        Result::<Option<Token>, ParseError>::Err(
                            ParseError { info, kind: ParseErrKind::UnexpectedChar(c) },
                        ),
                    ) && pos == lex_pos(l0) && info == lex_info(l0));
                }
                out = Result::Err(ParseError { info, kind: ParseErrKind::UnexpectedChar(c) });
                done = true;
            }
        }
        proof {
            if !done {
                assert(lex_spec(srcv, pos, info) == LexOut::End(pos, info));
            }
        }
        if !is_peek {
            self.pos = pos;
            self.info = info;
        }
        out
    }

    /// Reads and consumes one token.
    pub fn next(&mut self) -> (r: Result<Option<Token>, ParseError>)
        requires
            old(self).wf(),
        ensures
            final(self).wf(),
            final(self).src@ == old(self).src@,
            lex_result(lex_spec(old(self).src@, old(self).pos, old(self).info), r),
            final(self).pos == lex_pos(lex_spec(old(self).src@, old(self).pos, old(self).info)),
            final(self).info == lex_info(lex_spec(old(self).src@, old(self).pos, old(self).info)),
    {
        self.lex(false)
    }

    /// Parses one expression starting at the cursor: exactly the node
    /// that `parse_expr_spec` assigns to this position.
    #[verifier::loop_isolation(false)]
    fn parse_expr(&mut self) -> (r: Result<AST, ParseError>)
        requires
            old(self).wf(),
        ensures
            final(self).wf(),
            final(self).src@ == old(self).src@,
            match parse_expr_spec(old(self).src@, old(self).pos, old(self).info) {
                PExp::Node(a, p3, i3) => (match r {
                    Result::Ok(ast) => ast@ == a,
                    Result::Err(_) => false,
                }) && final(self).pos == p3 && final(self).info == i3 && old(self).pos < p3
                    <= old(self).src@.len(),
                PExp::PErr(e) => r == Result::<AST, ParseError>::Err(e),
            },
        decreases old(self).src@.len() - old(self).pos, 0int,
    {
        let ghost srcv = self.src@;
        let ghost pos0 = self.pos;
        let ghost info0 = self.info;
        let ghost lx = lex_spec(srcv, pos0, info0);
        proof {
            lemma_lex_advances(srcv, pos0, info0);
        }
        let tk = match self.next() {
            Result::Ok(t) => t,
            Result::Err(e) => {
                return Result::Err(e);
            },
        };
        let t = match tk {
            Option::Some(t) => t,
            Option::None => {
                return Result::Err(
                    ParseError { info: self.info, kind: ParseErrKind::UnbalancedOpen },
                );
            },
        };
        match t.kind {
            TokenKind::Close => Result::Err(
                ParseError { info: t.info, kind: ParseErrKind::UnbalancedClose },
            ),
            TokenKind::Id => Result::Ok(AST { info: t.info, sexpr: SExpr::Atom(t.token) }),
            TokenKind::Int => {
                proof {
                    lemma_lex_int_digits(srcv, pos0, info0);
                }
                let ghost text = t.token@;
                let slen = t.token.as_str().unicode_len();
                let mut value: u64 = 0;
                let mut i: usize = 0;
                let mut over = false;
                proof {
                    assert(text.subrange(0, 0) =~= Seq::<char>::empty());
                }
                while i < slen && !over
                    invariant
                        i <= slen,
                        slen == text.len(),
                        !over ==> value == dec_value(text.subrange(0, i as int)) && value
                            <= i32::MAX,
                        over ==> dec_value(text) > i32::MAX,
                    decreases slen - i,
                {
                    let c = t.token.as_str().get_char(i);
                    let d: u64 = (c as u64) - 48;
                    proof {
                        assert(is_digit_char(text[i as int]));
                        assert(d == digit_val(c));
                        assert(d <= 9);
                    }
                    value = value * 10 + d;
                    proof {
                        let t1 = text.subrange(0, i + 1);
                        assert(t1.subrange(0, i as int) =~= text.subrange(0, i as int));
                        assert(t1[i as int] == text[i as int]);
                        assert(value == dec_value(t1));
                    }
                    if value > 2147483647u64 {
                        proof {
                            lemma_dec_value_prefix_le(text, i + 1);
                        }
                        over = true;
                    }
                    i = i + 1;
                }
                if over {
                    return Result::Err(
                        ParseError { info: t.info, kind: ParseErrKind::IntOverflow },
                    );
                }
                proof {
                    assert(text.subrange(0, slen as int) =~= text);
                }
                let v32: i32 = value as i32;
                Result::Ok(AST { info: t.info, sexpr: SExpr::Int(v32) })
            },
            TokenKind::Open => {
                let ghost popen = self.pos;
                let ghost iopen = self.info;
                let mut items: Vec<AST> = Vec::new();
                proof {
                    assert(asts_view(items@) =~= Seq::<ASTV>::empty());
                }
                loop
                    invariant
                        self.wf(),
                        self.src@ == srcv,
                        pos0 < self.pos <= srcv.len(),
                        (match parse_list_spec(srcv, self.pos, self.info) {
                            PList::Elems(rest, cinfo, p4, i4) => parse_list_spec(
                                srcv,
                                popen,
                                iopen,
                            ) == PList::Elems(asts_view(items@) + rest, cinfo, p4, i4),
                            PList::LErr(e) => parse_list_spec(srcv, popen, iopen)
                                == PList::LErr(e),
                        }),
                    decreases srcv.len() - self.pos,
                {
                    let ghost pcur = self.pos;
                    let ghost icur = self.info;
                    proof {
                        lemma_lex_advances(srcv, pcur, icur);
                    }
                    let pk = match self.peek() {
                        Result::Ok(pk) => pk,
                        Result::Err(e) => {
                            return Result::Err(e);
                        },
                    };
                    match pk {
                        Option::None => {
                            let _ = self.next();
                            return Result::Err(
                                ParseError { info: self.info, kind: ParseErrKind::UnbalancedOpen },
                            );
                        },
                        Option::Some(t2) => {
                            if matches!(t2.kind, TokenKind::Close) {
                                let _ = self.next();
                                proof {
                                    lemma_asts_view_len(items@);
                                    assert(asts_view(items@) + Seq::<ASTV>::empty() =~= asts_view(
                                        items@,
                                    ));
                                }
                                return Result::Ok(
                                    AST { info: t2.info, sexpr: SExpr::List(items) },
                                );
                            }
                            let a = match self.parse_expr() {
                                Result::Ok(a) => a,
                                Result::Err(e) => {
                                    return Result::Err(e);
                                },
                            };
                            proof {
                                let ghost av = a@;
                                lemma_asts_view_len(items@);
                                crate::data::lemma_asts_view_index(items@.push(a), items@.len() as int);
                                assert(asts_view(items@.push(a)) =~= asts_view(items@).push(a@))
                                    by {
                                    assert(items@.push(a).subrange(0, items@.len() as int) =~= items@);
                                }
                                if let PList::Elems(rest2, ci2, p5, i5) = parse_list_spec(
                                    srcv,
                                    self.pos,
                                    self.info,
                                ) {
                                    assert((asts_view(items@).push(a@)) + rest2 =~= asts_view(
                                        items@,
                                    ) + (seq![a@] + rest2));
                                }
                            }
                            items.push(a);
                        },
                    }
                }
            },
        }
    }

    /// Parses the whole input and returns its last top-level
    /// expression: exactly what `parse_spec` assigns to the text.
    #[verifier::loop_isolation(false)]
    pub fn parse(&mut self) -> (r: Result<AST, ParseError>)
        requires
            old(self).wf(),
        ensures
            match parse_spec(old(self).src@, old(self).pos, old(self).info) {
                Result::Ok(a) => match r {
                    Result::Ok(ast) => ast@ == a,
                    Result::Err(_) => false,
                },
                Result::Err(e) => r == Result::<AST, ParseError>::Err(e),
            },
    {
        let ghost srcv = self.src@;
        let ghost pos0 = self.pos;
        let ghost info0 = self.info;
        let mut last: Option<AST> = Option::None;
        let ghost mut acc: Seq<ASTV> = Seq::empty();
        let mut done = false;
        proof {
            assert(acc + Seq::<ASTV>::empty() =~= acc);
        }
        while !done
            invariant
                self.wf(),
                self.src@ == srcv,
                (match last {
                    Option::Some(a) => acc.len() > 0 && a@ == acc.last(),
                    Option::None => acc.len() == 0,
                }),
                !done ==> (match parse_all(srcv, self.pos, self.info) {
                    PAll::All(rest) => parse_all(srcv, pos0, info0) == PAll::All(acc + rest),
                    PAll::AErr(e) => parse_all(srcv, pos0, info0) == PAll::AErr(e),
                }),
                done ==> parse_all(srcv, pos0, info0) == PAll::All(acc),
                acc.len() == 0 ==> self.pos == pos0 && self.info == info0,
            decreases (if self.pos <= srcv.len() {
                srcv.len() - self.pos
            } else {
                0int
            }) + (if done {
                0int
            } else {
                1int
            }),
        {
            let ghost pcur = self.pos;
            let ghost icur = self.info;
            proof {
                lemma_lex_advances(srcv, pcur, icur);
            }
            let pk = match self.peek() {
                Result::Ok(pk) => pk,
                Result::Err(e) => {
                    return Result::Err(e);
                },
            };
            match pk {
                Option::None => {
                    proof {
                        assert(acc + Seq::<ASTV>::empty() =~= acc);
                    }
                    done = true;
                },
                Option::Some(t) => {
                    if matches!(t.kind, TokenKind::Close) {
                        return Result::Err(
                            ParseError { info: t.info, kind: ParseErrKind::UnbalancedClose },
                        );
                    }
                    let a = match self.parse_expr() {
                        Result::Ok(a) => a,
                        Result::Err(e) => {
                            return Result::Err(e);
                        },
                    };
                    proof {
                        let av = a@;
                        if let PAll::All(rest2) = parse_all(srcv, self.pos, self.info) {
                            assert((acc.push(av)) + rest2 =~= acc + (seq![av] + rest2));
                        }
                        acc = acc.push(av);
                    }
                    last = Option::Some(a);
                },
            }
        }
        match last {
            Option::Some(a) => Result::Ok(a),
            Option::None => Result::Err(
                ParseError { info: self.info, kind: ParseErrKind::Empty },
            ),
        }
    }

    /// Reads one token without consuming it.
    pub fn peek(&mut self) -> (r: Result<Option<Token>, ParseError>)
        requires
            old(self).wf(),
        ensures
            final(self).wf(),
            final(self).src@ == old(self).src@,
            final(self).pos == old(self).pos,
            final(self).info == old(self).info,
            lex_result(lex_spec(old(self).src@, old(self).pos, old(self).info), r),
    {
        self.lex(true)
    }
}

} // verus!
