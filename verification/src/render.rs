//! Textual form of runtime values: what `puts` writes.  The model of
//! every produced string is pinned down character by character.
use vstd::prelude::*;
use crate::data::{
    AST, ASTV, Info, Lisp, LispV, SExpr, SExprV, asts_view, lisps_view, lemma_asts_view_len,
    lemma_asts_view_index, lemma_lisps_view_len, lemma_lisps_view_index,
};

verus! {

/// The decimal digit character for `d`.
pub open spec fn digit_char(d: nat) -> char {
    if d == 0 {
        '0'
    } else if d == 1 {
        '1'
    } else if d == 2 {
        '2'
    } else if d == 3 {
        '3'
    } else if d == 4 {
        '4'
    } else if d == 5 {
        '5'
    } else if d == 6 {
        '6'
    } else if d == 7 {
        '7'
    } else if d == 8 {
        '8'
    } else {
        '9'
    }
}

/// The decimal digits of `n`, most significant first, no sign and no
/// leading zeros (a single `'0'` for zero).
pub open spec fn dec_digits(n: nat) -> Seq<char>
    decreases n,
{
    if n < 10 {
        seq![digit_char(n)]
    } else {
        dec_digits(n / 10).push(digit_char(n % 10))
    }
}

/// The decimal text of `n`, a `'-'` sign first when negative.
pub open spec fn int_text(n: int) -> Seq<char> {
    if n < 0 {
        seq!['-'] + dec_digits((-n) as nat)
    } else {
        dec_digits(n as nat)
    }
}

fn push_digit(s: &mut String, d: u32)
    requires
        d < 10,
    ensures
        final(s)@ == old(s)@.push(digit_char(d as nat)),
{
    let t: &str = if d == 0 {
        "0"
    } else if d == 1 {
        "1"
    } else if d == 2 {
        "2"
    } else if d == 3 {
        "3"
    } else if d == 4 {
        "4"
    } else if d == 5 {
        "5"
    } else if d == 6 {
        "6"
    } else if d == 7 {
        "7"
    } else if d == 8 {
        "8"
    } else {
        "9"
    };
    proof {
        reveal_strlit("0");
        reveal_strlit("1");
        reveal_strlit("2");
        reveal_strlit("3");
        reveal_strlit("4");
        reveal_strlit("5");
        reveal_strlit("6");
        reveal_strlit("7");
        reveal_strlit("8");
        reveal_strlit("9");
    }
    s.append(t);
    proof {
        assert(final(s)@ =~= old(s)@.push(digit_char(d as nat)));
    }
}

fn push_u32_dec(s: &mut String, n: u32)
    ensures
        final(s)@ == old(s)@ + dec_digits(n as nat),
    decreases n,
{
    if n < 10 {
        push_digit(s, n);
        proof {
            assert(final(s)@ =~= old(s)@ + dec_digits(n as nat));
        }
    } else {
        push_u32_dec(s, n / 10);
        push_digit(s, n % 10);
        proof {
            assert(final(s)@ =~= old(s)@ + dec_digits(n as nat));
        }
    }
}

/// Appends the decimal text of `n` to `s`.
pub fn push_i32_dec(s: &mut String, n: i32)
    ensures
        final(s)@ == old(s)@ + int_text(n as int),
{
    if n < 0 {
        s.append("-");
        let m: u32 = #[verifier::truncate] ((-(n as i64)) as u32);
        proof {
            reveal_strlit("-");
            assert(m as nat == (-(n as int)) as nat);
        }
        push_u32_dec(s, m);
        proof {
            assert(final(s)@ =~= old(s)@ + int_text(n as int));
        }
    } else {
        push_u32_dec(s, n as u32);
    }
}

/// Appends the decimal text of `n` to `s`.
pub fn push_usize_dec(s: &mut String, n: usize)
    ensures
        final(s)@ == old(s)@ + dec_digits(n as nat),
    decreases n,
{
    if n < 10 {
        push_digit(s, n as u32);
        proof {
            assert(final(s)@ =~= old(s)@ + dec_digits(n as nat));
        }
    } else {
        push_usize_dec(s, n / 10);
        push_digit(s, (n % 10) as u32);
        proof {
            assert(final(s)@ =~= old(s)@ + dec_digits(n as nat));
        }
    }
}

/// The textual form of a value: keywords and integers print as
/// themselves, pairs as `(cons h t)`, argument lists as `(list ...)`,
/// and closures as `(lambda (params) code)`.
pub open spec fn render_val(v: LispV) -> Seq<char>
    decreases v,
{
    match v {
        LispV::Nil => "nil"@,
        LispV::True => "true"@,
        LispV::False => "false"@,
        LispV::Int(n) => int_text(n as int),
        LispV::List(ls) => "(list"@ + render_items(ls) + ")"@,
        LispV::Closure(ns, c, e) => "(lambda ("@ + render_names(ns) + ") code)"@,
        LispV::Cons(h, t) => "(cons "@ + render_val(*h) + " "@ + render_val(*t) + ")"@,
    }
}

pub open spec fn render_items(ls: Seq<LispV>) -> Seq<char>
    decreases ls,
{
    if ls.len() == 0 {
        Seq::empty()
    } else {
        render_items(ls.subrange(0, ls.len() - 1)) + " "@ + render_val(ls[ls.len() - 1])
    }
}

pub open spec fn render_names(ns: Seq<Seq<char>>) -> Seq<char>
    decreases ns.len(),
{
    if ns.len() == 0 {
        Seq::empty()
    } else if ns.len() == 1 {
        ns[0]
    } else {
        render_names(ns.subrange(0, ns.len() - 1)) + " "@ + ns[ns.len() - 1]
    }
}

#[verifier::loop_isolation(false)]
fn render_into(v: &Lisp, s: &mut String)
    ensures
        final(s)@ == old(s)@ + render_val(v@),
    decreases *v,
{
    match v {
        Lisp::Nil => {
            s.append("nil");
        },
        Lisp::True => {
            s.append("true");
        },
        Lisp::False => {
            s.append("false");
        },
        Lisp::Int(n) => {
            push_i32_dec(s, *n);
        },
        Lisp::List(ls) => {
            s.append("(list");
            let ghost s1 = s@;
            let mut i: usize = 0;
            proof {
                assert(render_items(lisps_view(ls@).subrange(0, 0)) =~= Seq::<char>::empty());
                assert(s@ =~= s1 + render_items(lisps_view(ls@).subrange(0, 0)));
            }
            while i < ls.len()
                invariant
                    i <= ls@.len(),
                    s@ == s1 + render_items(lisps_view(ls@).subrange(0, i as int)),
                decreases ls@.len() - i,
            {
                proof {
                    assert(decreases_to!(*v => *ls));
                    assert(decreases_to!(*ls => ls@));
                    assert(decreases_to!(ls@ => ls@[i as int]));
                }
                s.append(" ");
                render_into(&ls[i], s);
                proof {
                    lemma_lisps_view_len(ls@);
                    lemma_lisps_view_index(ls@, i as int);
                    let lv = lisps_view(ls@);
                    assert(lv.subrange(0, i + 1).subrange(0, i as int) =~= lv.subrange(0, i as int));
                    assert(lv.subrange(0, i + 1)[i as int] == lv[i as int]);
                    assert(s@ =~= s1 + render_items(lv.subrange(0, i + 1)));
                }
                i += 1;
            }
            s.append(")");
            proof {
                lemma_lisps_view_len(ls@);
                let lv = lisps_view(ls@);
                assert(lv.subrange(0, lv.len() as int) =~= lv);
                assert(s@ =~= old(s)@ + render_val(v@));
            }
        },
        Lisp::Closure(ns, c, e) => {
            s.append("(lambda (");
            let ghost s1 = s@;
            let mut i: usize = 0;
            while i < ns.len()
                invariant
                    i <= ns@.len(),
                    s@ == s1 + render_names(ns.deep_view().subrange(0, i as int)),
                decreases ns@.len() - i,
            {
                if i > 0 {
                    s.append(" ");
                }
                s.append(ns[i].as_str());
                proof {
                    let nv = ns.deep_view();
                    assert(nv[i as int] == ns@[i as int]@);
                    assert(nv.subrange(0, i + 1).subrange(0, i as int) =~= nv.subrange(0, i as int));
                    assert(nv.subrange(0, i + 1)[i as int] == nv[i as int]);
                    if i == 0 {
                        assert(s@ =~= s1 + render_names(nv.subrange(0, 1)));
                    } else {
                        assert(s@ =~= s1 + render_names(nv.subrange(0, i + 1)));
                    }
                }
                i += 1;
            }
            s.append(") code)");
            proof {
                let nv = ns.deep_view();
                assert(nv.subrange(0, nv.len() as int) =~= nv);
                assert(s@ =~= old(s)@ + render_val(v@));
            }
        },
        Lisp::Cons(h, t) => {
            proof {
                assert(decreases_to!(*v => *h));
                assert(decreases_to!(*v => *t));
            }
            s.append("(cons ");
            render_into(h, s);
            s.append(" ");
            render_into(t, s);
            s.append(")");
            proof {
                assert(s@ =~= old(s)@ + render_val(v@));
            }
        },
    }
}

/// The textual form of a value as a fresh string.
pub fn render(v: &Lisp) -> (r: String)
    ensures
        r@ == render_val(v@),
{
    let mut s = String::new();
    render_into(v, &mut s);
    proof {
        assert(Seq::<char>::empty() + render_val(v@) =~= render_val(v@));
    }
    s
}

/// The textual form of a tree node: atoms and integers as themselves,
/// lists in parentheses with one space between the elements.
pub open spec fn ast_text(a: ASTV) -> Seq<char>
    decreases a,
{
    match a.sexpr {
        SExprV::Atom(id) => id,
        SExprV::Int(n) => int_text(n as int),
        SExprV::List(ls) => "("@ + ast_items(ls) + ")"@,
    }
}

pub open spec fn ast_items(ls: Seq<ASTV>) -> Seq<char>
    decreases ls, 1int,
{
    if ls.len() == 0 {
        Seq::empty()
    } else if ls.len() == 1 {
        ast_text(ls[0])
    } else {
        ast_items(ls.subrange(0, ls.len() - 1)) + " "@ + ast_text(ls[ls.len() - 1])
    }
}

#[verifier::loop_isolation(false)]
fn ast_text_into(a: &AST, s: &mut String)
    ensures
        final(s)@ == old(s)@ + ast_text(a@),
    decreases *a,
{
    match &a.sexpr {
        SExpr::Atom(id) => {
            s.append(id.as_str());
        },
        SExpr::Int(n) => {
            push_i32_dec(s, *n);
        },
        SExpr::List(ls) => {
            s.append("(");
            let ghost s1 = s@;
            let mut i: usize = 0;
            proof {
                lemma_asts_view_len(ls@);
                assert(s@ =~= s1 + ast_items(asts_view(ls@).subrange(0, 0)));
            }
            while i < ls.len()
                invariant
                    i <= ls@.len(),
                    s@ == s1 + ast_items(asts_view(ls@).subrange(0, i as int)),
                decreases ls@.len() - i,
            {
                proof {
                    assert(decreases_to!(*a => a.sexpr));
                    assert(decreases_to!(a.sexpr => *ls));
                    assert(decreases_to!(*ls => ls@));
                    assert(decreases_to!(ls@ => ls@[i as int]));
                }
                if i > 0 {
                    s.append(" ");
                }
                ast_text_into(&ls[i], s);
                proof {
                    lemma_asts_view_index(ls@, i as int);
                    let av = asts_view(ls@);
                    assert(av.subrange(0, i + 1).subrange(0, i as int) =~= av.subrange(
                        0,
                        i as int,
                    ));
                    assert(av.subrange(0, i + 1)[i as int] == av[i as int]);
                    if i == 0 {
                        assert(s@ =~= s1 + ast_items(av.subrange(0, 1)));
                    } else {
                        assert(s@ =~= s1 + ast_items(av.subrange(0, i + 1)));
                    }
                }
                i += 1;
            }
            s.append(")");
            proof {
                let av = asts_view(ls@);
                assert(av.subrange(0, av.len() as int) =~= av);
                assert(s@ =~= old(s)@ + ast_text(a@));
            }
        },
    }
}

impl AST {
    /// The textual form of this tree as a fresh string.
    pub fn to_text(&self) -> (r: String)
        ensures
            r@ == ast_text(self@),
    {
        let mut s = String::new();
        ast_text_into(self, &mut s);
        proof {
            assert(Seq::<char>::empty() + ast_text(self@) =~= ast_text(self@));
        }
        s
    }
}

} // verus!
