//! The recursive-descent parser: terms, rules, and the book assembly pass.
//!
//! The grammar, over the tokens of [`crate::lexer`] (`NL` is a newline
//! token):
//!
//! ```text
//! Item   ::= Name | Number | "(" NL* Term NL* ")"
//! App    ::= Item Item*                      (left-associative fold)
//! Lam    ::= ("λ" | "\") Name Term
//! Dup    ::= "dup" Name Name "=" Term ";" NL* Term
//! Let    ::= "let" Name "=" Term ";" NL* Term
//! NumOp  ::= Op Item Item
//! Term   ::= Lam | App | Dup | Let | NumOp | Item
//! Rule   ::= "(" Name ")" "=" NL* Term
//! Book   ::= NL* (Rule (NL+ Rule)* NL*)?
//! ```
//!
//! `let x = V; N` is pure sugar for `(λx N) V`.  Each parsing function is
//! proved equal to a specification function that defines the grammar; the
//! book assembly pass groups contiguous same-named rules and checks global
//! name uniqueness, collecting all diagnostics instead of stopping at the
//! first.

use vstd::prelude::*;

use crate::ast::{
    book_has_name, book_wf, DefV, Definition, DefinitionBook, Name, Rule, RuleV, Term, TermV,
    MAX_NAME_LEN,
};
use crate::diagnostic::{DiagKind, DiagKindV, DiagV, Diagnostic};
use crate::lexer::{tokenize, lex_from, SpannedToken, SpannedTokenV, Token, TokenV};

verus! {

/// Result of a name parse: the name read, the position after it, and the
/// diagnostics emitted.
pub struct PName {
    pub name: Option<Seq<char>>,
    pub pos: int,
    pub ds: Seq<DiagV>,
}

/// Result of a term parse.
pub struct PTerm {
    pub term: Option<TermV>,
    pub pos: int,
    pub ds: Seq<DiagV>,
}

/// The diagnostic for a position that fits no grammar alternative: the token
/// there, or the end of the input.
pub open spec fn fail_diag(toks: Seq<SpannedTokenV>, pos: int) -> DiagV {
    if 0 <= pos < toks.len() {
        DiagV { kind: DiagKindV::UnexpectedToken, start: toks[pos].start, end: toks[pos].end }
    } else if toks.len() > 0 {
        DiagV { kind: DiagKindV::UnexpectedEnd, start: toks.last().end, end: toks.last().end }
    } else {
        DiagV { kind: DiagKindV::UnexpectedEnd, start: 0, end: 0 }
    }
}

/// Clamps the position a sub-parse returned into the range after `cur`, so
/// that recursion over positions visibly advances.  Positions returned by the
/// parsing functions always lie in that range, so the clamp never alters
/// them.
pub open spec fn next_pos(cur: int, sub: int, len: int) -> int {
    if cur < sub && sub <= len {
        sub
    } else if cur + 1 <= len {
        cur + 1
    } else {
        len
    }
}

/// The first position at or after `pos` that does not hold a newline token.
pub open spec fn skip_nl(toks: Seq<SpannedTokenV>, pos: int) -> int
    decreases toks.len() - pos,
    when 0 <= pos <= toks.len()
{
    if pos < toks.len() && toks[pos].tok is NewLine {
        skip_nl(toks, pos + 1)
    } else {
        pos
    }
}

/// Reads one name token.  A name longer than [`MAX_NAME_LEN`] is reported
/// through a diagnostic but still returned: validation does not block grammar
/// continuation.
pub open spec fn sp_name(toks: Seq<SpannedTokenV>, pos: int) -> PName {
    if 0 <= pos < toks.len() {
        match toks[pos].tok {
            TokenV::Name(n) => {
                let ds = if n.len() > MAX_NAME_LEN as int {
                    seq![
                        DiagV {
                            kind: DiagKindV::OversizeName(n),
                            start: toks[pos].start,
                            end: toks[pos].end,
                        },
                    ]
                } else {
                    Seq::empty()
                };
                PName { name: Some(n), pos: pos + 1, ds }
            },
            _ => PName { name: None, pos, ds: seq![fail_diag(toks, pos)] },
        }
    } else {
        PName { name: None, pos, ds: seq![fail_diag(toks, pos)] }
    }
}

/// Whether the token at `pos` can open an item.
pub open spec fn starts_item(toks: Seq<SpannedTokenV>, pos: int) -> bool {
    0 <= pos < toks.len() && (toks[pos].tok is Name || toks[pos].tok is Number
        || toks[pos].tok is LParen)
}

/// Reads one item: a variable, a number, or a parenthesized term with
/// optional newlines inside the parentheses.
pub open spec fn sp_item(toks: Seq<SpannedTokenV>, pos: int) -> PTerm
    decreases toks.len() - pos, 0int,
    when 0 <= pos <= toks.len()
{
    if pos >= toks.len() {
        PTerm { term: None, pos, ds: seq![fail_diag(toks, pos)] }
    } else {
        match toks[pos].tok {
            TokenV::Name(_) => {
                let n = sp_name(toks, pos);
                match n.name {
                    Some(nm) => PTerm {
                        term: Some(TermV::Var { nam: nm }),
                        pos: n.pos,
                        ds: n.ds,
                    },
                    None => PTerm { term: None, pos: n.pos, ds: n.ds },
                }
            },
            TokenV::Number(v) => PTerm {
                term: Some(TermV::Num { val: v }),
                pos: pos + 1,
                ds: Seq::empty(),
            },
            TokenV::LParen => {
                let q = next_pos(pos, skip_nl(toks, pos + 1), toks.len() as int);
                let t = sp_term(toks, q);
                match t.term {
                    Some(tt) => {
                        let q2 = skip_nl(toks, next_pos(pos, t.pos, toks.len() as int));
                        if q2 < toks.len() && toks[q2].tok is RParen {
                            PTerm { term: Some(tt), pos: q2 + 1, ds: t.ds }
                        } else {
                            PTerm { term: None, pos: q2, ds: t.ds + seq![fail_diag(toks, q2)] }
                        }
                    },
                    None => PTerm { term: None, pos: t.pos, ds: t.ds },
                }
            },
            _ => PTerm { term: None, pos, ds: seq![fail_diag(toks, pos)] },
        }
    }
}

/// Greedily folds further items onto `acc` as left-nested applications.
pub open spec fn sp_app_rest(toks: Seq<SpannedTokenV>, acc: TermV, pos: int) -> PTerm
    decreases toks.len() - pos, 1int,
    when 0 <= pos <= toks.len()
{
    if starts_item(toks, pos) {
        let i = sp_item(toks, pos);
        match i.term {
            Some(arg) => {
                let r = sp_app_rest(
                    toks,
                    TermV::App { fun: Box::new(acc), arg: Box::new(arg) },
                    next_pos(pos, i.pos, toks.len() as int),
                );
                PTerm { term: r.term, pos: r.pos, ds: i.ds + r.ds }
            },
            None => PTerm { term: None, pos: i.pos, ds: i.ds },
        }
    } else {
        PTerm { term: Some(acc), pos, ds: Seq::empty() }
    }
}

/// Reads an application: one item followed by zero or more further items,
/// left-folded, so `f a b c` is `((f a) b) c`.
pub open spec fn sp_app(toks: Seq<SpannedTokenV>, pos: int) -> PTerm
    decreases toks.len() - pos, 2int,
    when 0 <= pos <= toks.len()
{
    let i = sp_item(toks, pos);
    match i.term {
        Some(t0) => {
            let r = sp_app_rest(toks, t0, next_pos(pos, i.pos, toks.len() as int));
            PTerm { term: r.term, pos: r.pos, ds: i.ds + r.ds }
        },
        None => PTerm { term: None, pos: i.pos, ds: i.ds },
    }
}

/// Reads one term.  Alternatives are decided by the leading token: a lambda
/// glyph, the `dup` keyword, the `let` keyword, an operator symbol, or an
/// item opener; anything else fails with a syntax diagnostic.
pub open spec fn sp_term(toks: Seq<SpannedTokenV>, pos: int) -> PTerm
    decreases toks.len() - pos, 3int,
    when 0 <= pos <= toks.len()
{
    if pos >= toks.len() {
        PTerm { term: None, pos, ds: seq![fail_diag(toks, pos)] }
    } else {
        match toks[pos].tok {
            TokenV::Lambda => {
                let n = sp_name(toks, pos + 1);
                match n.name {
                    None => PTerm { term: None, pos: n.pos, ds: n.ds },
                    Some(nm) => {
                        let b = sp_term(toks, next_pos(pos, n.pos, toks.len() as int));
                        match b.term {
                            None => PTerm { term: None, pos: b.pos, ds: n.ds + b.ds },
                            Some(bt) => PTerm {
                                term: Some(TermV::Lam { nam: nm, bod: Box::new(bt) }),
                                pos: b.pos,
                                ds: n.ds + b.ds,
                            },
                        }
                    },
                }
            },
            TokenV::Dup => {
                let n1 = sp_name(toks, pos + 1);
                match n1.name {
                    None => PTerm { term: None, pos: n1.pos, ds: n1.ds },
                    Some(f) => {
                        let n2 = sp_name(toks, n1.pos);
                        match n2.name {
                            None => PTerm { term: None, pos: n2.pos, ds: n1.ds + n2.ds },
                            Some(s) => {
                                if n2.pos < toks.len() && toks[n2.pos].tok is Equals {
                                    let v = sp_term(
                                        toks,
                                        next_pos(pos, n2.pos + 1, toks.len() as int),
                                    );
                                    match v.term {
                                        None => PTerm {
                                            term: None,
                                            pos: v.pos,
                                            ds: n1.ds + n2.ds + v.ds,
                                        },
                                        Some(vt) => {
                                            if v.pos < toks.len() && toks[v.pos].tok
                                                is Semicolon {
                                                let q = skip_nl(
                                                    toks,
                                                    next_pos(pos, v.pos + 1, toks.len() as int),
                                                );
                                                let nx = sp_term(
                                                    toks,
                                                    next_pos(pos, q, toks.len() as int),
                                                );
                                                match nx.term {
                                                    None => PTerm {
                                                        term: None,
                                                        pos: nx.pos,
                                                        ds: n1.ds + n2.ds + v.ds + nx.ds,
                                                    },
                                                    Some(nt) => PTerm {
                                                        term: Some(
                                                            TermV::Dup {
                                                                fst: f,
                                                                snd: s,
                                                                val: Box::new(vt),
                                                                nxt: Box::new(nt),
                                                            },
                                                        ),
                                                        pos: nx.pos,
                                                        ds: n1.ds + n2.ds + v.ds + nx.ds,
                                                    },
                                                }
                                            } else {
                                                PTerm {
                                                    term: None,
                                                    pos: v.pos,
                                                    ds: n1.ds + n2.ds + v.ds + seq![
                                                        fail_diag(toks, v.pos),
                                                    ],
                                                }
                                            }
                                        },
                                    }
                                } else {
                                    PTerm {
                                        term: None,
                                        pos: n2.pos,
                                        ds: n1.ds + n2.ds + seq![fail_diag(toks, n2.pos)],
                                    }
                                }
                            },
                        }
                    },
                }
            },
            TokenV::Let => {
                let n = sp_name(toks, pos + 1);
                match n.name {
                    None => PTerm { term: None, pos: n.pos, ds: n.ds },
                    Some(nm) => {
                        if n.pos < toks.len() && toks[n.pos].tok is Equals {
                            let v = sp_term(toks, next_pos(pos, n.pos + 1, toks.len() as int));
                            match v.term {
                                None => PTerm { term: None, pos: v.pos, ds: n.ds + v.ds },
                                Some(vt) => {
                                    if v.pos < toks.len() && toks[v.pos].tok is Semicolon {
                                        let q = skip_nl(
                                            toks,
                                            next_pos(pos, v.pos + 1, toks.len() as int),
                                        );
                                        let nx = sp_term(toks, next_pos(pos, q, toks.len() as int));
                                        match nx.term {
                                            None => PTerm {
                                                term: None,
                                                pos: nx.pos,
                                                ds: n.ds + v.ds + nx.ds,
                                            },
                                            Some(nt) => PTerm {
                                                term: Some(
                                                    TermV::App {
                                                        fun: Box::new(
                                                            TermV::Lam {
                                                                nam: nm,
                                                                bod: Box::new(nt),
                                                            },
                                                        ),
                                                        arg: Box::new(vt),
                                                    },
                                                ),
                                                pos: nx.pos,
                                                ds: n.ds + v.ds + nx.ds,
                                            },
                                        }
                                    } else {
                                        PTerm {
                                            term: None,
                                            pos: v.pos,
                                            ds: n.ds + v.ds + seq![fail_diag(toks, v.pos)],
                                        }
                                    }
                                },
                            }
                        } else {
                            PTerm {
                                term: None,
                                pos: n.pos,
                                ds: n.ds + seq![fail_diag(toks, n.pos)],
                            }
                        }
                    },
                }
            },
            TokenV::Op(op) => {
                let f = sp_item(toks, pos + 1);
                match f.term {
                    None => PTerm { term: None, pos: f.pos, ds: f.ds },
                    Some(ft) => {
                        let s = sp_item(toks, next_pos(pos, f.pos, toks.len() as int));
                        match s.term {
                            None => PTerm { term: None, pos: s.pos, ds: f.ds + s.ds },
                            Some(st) => PTerm {
                                term: Some(
                                    TermV::NumOp { op, fst: Box::new(ft), snd: Box::new(st) },
                                ),
                                pos: s.pos,
                                ds: f.ds + s.ds,
                            },
                        }
                    },
                }
            },
            TokenV::Name(_) => sp_app(toks, pos),
            TokenV::Number(_) => sp_app(toks, pos),
            TokenV::LParen => sp_app(toks, pos),
            _ => PTerm { term: None, pos, ds: seq![fail_diag(toks, pos)] },
        }
    }
}

/// Appends the diagnostic for a failure at `pos`.
fn push_fail(toks: &Vec<SpannedToken>, pos: usize, diags: &mut Vec<Diagnostic>)
    ensures
        final(diags).deep_view() == old(diags).deep_view() + seq![
            fail_diag(toks.deep_view(), pos as int),
        ],
{
    if pos < toks.len() {
        let t = &toks[pos];
        diags.push(Diagnostic { kind: DiagKind::UnexpectedToken, start: t.start, end: t.end });
    } else if toks.len() > 0 {
        let e = toks[toks.len() - 1].end;
        diags.push(Diagnostic { kind: DiagKind::UnexpectedEnd, start: e, end: e });
    } else {
        diags.push(Diagnostic { kind: DiagKind::UnexpectedEnd, start: 0, end: 0 });
    }
    proof {
        assert(diags.deep_view() =~= old(diags).deep_view() + seq![
            fail_diag(toks.deep_view(), pos as int),
        ]);
    }
}

/// Skips newline tokens.
fn p_skip_newlines(toks: &Vec<SpannedToken>, pos: usize) -> (r: usize)
    requires
        pos <= toks@.len(),
    ensures
        r == skip_nl(toks.deep_view(), pos as int),
        pos <= r <= toks@.len(),
{
    let mut p = pos;
    while p < toks.len() && matches!(&toks[p].tok, Token::NewLine)
        invariant
            pos <= p <= toks@.len(),
            skip_nl(toks.deep_view(), pos as int) == skip_nl(toks.deep_view(), p as int),
        decreases toks@.len() - p,
    {
        p = p + 1;
    }
    p
}

/// Parses one name token, reporting oversized names.
fn p_name(toks: &Vec<SpannedToken>, pos: usize, diags: &mut Vec<Diagnostic>) -> (r: (
    Option<Name>,
    usize,
))
    requires
        pos <= toks@.len(),
    ensures
        ({
            let m = sp_name(toks.deep_view(), pos as int);
            &&& r.0.deep_view() == m.name
            &&& r.1 == m.pos
            &&& final(diags).deep_view() == old(diags).deep_view() + m.ds
            &&& pos <= r.1 <= toks@.len()
        }),
{
    if pos < toks.len() {
        let start = toks[pos].start;
        let end = toks[pos].end;
        match &toks[pos].tok {
            Token::Name(s) => {
                let name = Name(s.clone());
                if name.0.as_str().unicode_len() > MAX_NAME_LEN {
                    diags.push(
                        Diagnostic { kind: DiagKind::OversizeName(name.clone()), start, end },
                    );
                    proof {
                        assert(diags.deep_view() =~= old(diags).deep_view() + sp_name(
                            toks.deep_view(),
                            pos as int,
                        ).ds);
                    }
                } else {
                    proof {
                        assert(diags.deep_view() =~= old(diags).deep_view() + sp_name(
                            toks.deep_view(),
                            pos as int,
                        ).ds);
                    }
                }
                (Some(name), pos + 1)
            },
            _ => {
                push_fail(toks, pos, diags);
                (None, pos)
            },
        }
    } else {
        push_fail(toks, pos, diags);
        (None, pos)
    }
}

/// Parses one item.
#[verifier::rlimit(100)]
fn p_item(toks: &Vec<SpannedToken>, pos: usize, diags: &mut Vec<Diagnostic>) -> (r: (
    Option<Term>,
    usize,
))
    requires
        pos <= toks@.len(),
    ensures
        ({
            let m = sp_item(toks.deep_view(), pos as int);
            &&& r.0.deep_view() == m.term
            &&& r.1 == m.pos
            &&& final(diags).deep_view() == old(diags).deep_view() + m.ds
            &&& pos <= r.1 <= toks@.len()
            &&& (m.term is Some ==> pos < r.1)
        }),
    decreases toks@.len() - pos, 0int,
{
    if pos < toks.len() {
        match &toks[pos].tok {
            Token::Name(_) => {
                let (n, p2) = p_name(toks, pos, diags);
                match n {
                    Some(nm) => (Some(Term::Var { nam: nm }), p2),
                    None => (None, p2),
                }
            },
            Token::Number(v) => (Some(Term::Num { val: crate::ast::Number(*v) }), pos + 1),
            Token::LParen => {
                let q = p_skip_newlines(toks, pos + 1);
                let (t, p2) = p_term(toks, q, diags);
                match t {
                    Some(tt) => {
                        let q2 = p_skip_newlines(toks, p2);
                        if q2 < toks.len() && matches!(&toks[q2].tok, Token::RParen) {
                            (Some(tt), q2 + 1)
                        } else {
                            push_fail(toks, q2, diags);
                            (None, q2)
                        }
                    },
                    None => (None, p2),
                }
            },
            _ => {
                push_fail(toks, pos, diags);
                (None, pos)
            },
        }
    } else {
        push_fail(toks, pos, diags);
        (None, pos)
    }
}

/// Parses an application chain.
#[verifier::rlimit(100)]
fn p_app(toks: &Vec<SpannedToken>, pos: usize, diags: &mut Vec<Diagnostic>) -> (r: (
    Option<Term>,
    usize,
))
    requires
        pos <= toks@.len(),
    ensures
        ({
            let m = sp_app(toks.deep_view(), pos as int);
            &&& r.0.deep_view() == m.term
            &&& r.1 == m.pos
            &&& final(diags).deep_view() == old(diags).deep_view() + m.ds
            &&& pos <= r.1 <= toks@.len()
            &&& (m.term is Some ==> pos < r.1)
        }),
    decreases toks@.len() - pos, 2int,
{
    let ghost tv = toks.deep_view();
    let ghost m = sp_app(tv, pos as int);
    let (first, p1) = p_item(toks, pos, diags);
    match first {
        None => (None, p1),
        Some(t0) => {
            let mut acc = t0;
            let mut p = p1;
            proof {
                let rest0 = sp_app_rest(tv, acc@, p as int);
                assert(old(diags).deep_view() + sp_item(tv, pos as int).ds + rest0.ds =~= old(
                    diags,
                ).deep_view() + (sp_item(tv, pos as int).ds + rest0.ds));
            }
            while p < toks.len() && (matches!(&toks[p].tok, Token::Name(_)) || matches!(
                &toks[p].tok,
                Token::Number(_),
            ) || matches!(&toks[p].tok, Token::LParen))
                invariant
                    tv == toks.deep_view(),
                    m == sp_app(tv, pos as int),
                    pos < p <= toks@.len(),
                    ({
                        let rest = sp_app_rest(tv, acc@, p as int);
                        &&& m.term == rest.term
                        &&& m.pos == rest.pos
                        &&& diags.deep_view() + rest.ds == old(diags).deep_view() + m.ds
                    }),
                decreases toks@.len() - p,
            {
                proof {
                    assert(starts_item(tv, p as int));
                }
                let ghost dv_before = diags.deep_view();
                let ghost rest_before = sp_app_rest(tv, acc@, p as int);
                let (arg, p2) = p_item(toks, p, diags);
                match arg {
                    Some(at) => {
                        let prev = acc;
                        acc = Term::App { fun: Box::new(prev), arg: Box::new(at) };
                        proof {
                            let i = sp_item(tv, p as int);
                            let rest_after = sp_app_rest(tv, acc@, p2 as int);
                            assert(rest_before.ds == i.ds + rest_after.ds);
                            assert(diags.deep_view() + rest_after.ds =~= dv_before + (i.ds
                                + rest_after.ds));
                        }
                        p = p2;
                    },
                    None => {
                        proof {
                            let i = sp_item(tv, p as int);
                            assert(diags.deep_view() =~= dv_before + i.ds);
                        }
                        return (None, p2);
                    },
                }
            }
            proof {
                assert(!starts_item(tv, p as int));
                let rest = sp_app_rest(tv, acc@, p as int);
                assert(rest.ds =~= Seq::<DiagV>::empty());
                assert(diags.deep_view() + rest.ds =~= diags.deep_view());
            }
            (Some(acc), p)
        },
    }
}

/// Parses a lambda abstraction.
#[verifier::rlimit(100)]
fn p_lam(toks: &Vec<SpannedToken>, pos: usize, diags: &mut Vec<Diagnostic>) -> (r: (
    Option<Term>,
    usize,
))
    requires
        pos < toks@.len(),
        toks.deep_view()[pos as int].tok is Lambda,
    ensures
        ({
            let m = sp_term(toks.deep_view(), pos as int);
            &&& r.0.deep_view() == m.term
            &&& r.1 == m.pos
            &&& final(diags).deep_view() == old(diags).deep_view() + m.ds
            &&& pos <= r.1 <= toks@.len()
            &&& (m.term is Some ==> pos < r.1)
        }),
    decreases toks@.len() - pos, 2int,
{
    let tn = toks.len();
    let ghost tv = toks.deep_view();
    let ghost m = sp_term(tv, pos as int);
    let (n, p1) = p_name(toks, pos + 1, diags);
    match n {
        None => (None, p1),
        Some(nm) => {
            let ghost n_ds = sp_name(tv, pos + 1).ds;
            let (b, p2) = p_term(toks, p1, diags);
            proof {
                let b_sp = sp_term(tv, next_pos(pos as int, p1 as int, tv.len() as int));
                assert(old(diags).deep_view() + n_ds + b_sp.ds =~= old(diags).deep_view() + (n_ds
                    + b_sp.ds));
            }
            match b {
                None => (None, p2),
                Some(bt) => (Some(Term::Lam { nam: nm, bod: Box::new(bt) }), p2),
            }
        },
    }
}

/// Parses a duplication.
#[verifier::rlimit(100)]
fn p_dup(toks: &Vec<SpannedToken>, pos: usize, diags: &mut Vec<Diagnostic>) -> (r: (
    Option<Term>,
    usize,
))
    requires
        pos < toks@.len(),
        toks.deep_view()[pos as int].tok is Dup,
    ensures
        ({
            let m = sp_term(toks.deep_view(), pos as int);
            &&& r.0.deep_view() == m.term
            &&& r.1 == m.pos
            &&& final(diags).deep_view() == old(diags).deep_view() + m.ds
            &&& pos <= r.1 <= toks@.len()
            &&& (m.term is Some ==> pos < r.1)
        }),
    decreases toks@.len() - pos, 2int,
{
    let tn = toks.len();
    let ghost tv = toks.deep_view();
    let ghost m = sp_term(tv, pos as int);
    let ghost dv0 = old(diags).deep_view();
    let (n1, p1) = p_name(toks, pos + 1, diags);
    match n1 {
        None => (None, p1),
        Some(f) => {
            let ghost ds1 = sp_name(tv, pos + 1).ds;
            let (n2, p2) = p_name(toks, p1, diags);
            let ghost ds2 = sp_name(tv, p1 as int).ds;
            proof {
                assert(dv0 + ds1 + ds2 =~= dv0 + (ds1 + ds2));
            }
            match n2 {
                None => (None, p2),
                Some(s) => {
                    if p2 < tn && matches!(&toks[p2].tok, Token::Equals) {
                        let (v, p3) = p_term(toks, p2 + 1, diags);
                        let ghost ds3 = sp_term(
                            tv,
                            next_pos(pos as int, p2 + 1, tv.len() as int),
                        ).ds;
                        proof {
                            assert(dv0 + ds1 + ds2 + ds3 =~= dv0 + (ds1 + ds2 + ds3));
                        }
                        match v {
                            None => (None, p3),
                            Some(vt) => {
                                if p3 < tn && matches!(&toks[p3].tok, Token::Semicolon) {
                                    let q = p_skip_newlines(toks, p3 + 1);
                                    let (nx, p4) = p_term(toks, q, diags);
                                    let ghost ds4 = sp_term(
                                        tv,
                                        next_pos(pos as int, q as int, tv.len() as int),
                                    ).ds;
                                    proof {
                                        assert(dv0 + ds1 + ds2 + ds3 + ds4 =~= dv0 + (ds1 + ds2
                                            + ds3 + ds4));
                                    }
                                    match nx {
                                        None => (None, p4),
                                        Some(nt) => (
                                            Some(
                                                Term::Dup {
                                                    fst: f,
                                                    snd: s,
                                                    val: Box::new(vt),
                                                    nxt: Box::new(nt),
                                                },
                                            ),
                                            p4,
                                        ),
                                    }
                                } else {
                                    push_fail(toks, p3, diags);
                                    proof {
                                        assert(dv0 + ds1 + ds2 + ds3 + seq![
                                            fail_diag(tv, p3 as int),
                                        ] =~= dv0 + (ds1 + ds2 + ds3 + seq![
                                            fail_diag(tv, p3 as int),
                                        ]));
                                    }
                                    (None, p3)
                                }
                            },
                        }
                    } else {
                        push_fail(toks, p2, diags);
                        proof {
                            assert(dv0 + ds1 + ds2 + seq![fail_diag(tv, p2 as int)] =~= dv0 + (ds1
                                + ds2 + seq![fail_diag(tv, p2 as int)]));
                        }
                        (None, p2)
                    }
                },
            }
        },
    }
}

/// Parses a let binding, desugared on the spot to `(λx next) body`.
#[verifier::rlimit(100)]
fn p_let(toks: &Vec<SpannedToken>, pos: usize, diags: &mut Vec<Diagnostic>) -> (r: (
    Option<Term>,
    usize,
))
    requires
        pos < toks@.len(),
        toks.deep_view()[pos as int].tok is Let,
    ensures
        ({
            let m = sp_term(toks.deep_view(), pos as int);
            &&& r.0.deep_view() == m.term
            &&& r.1 == m.pos
            &&& final(diags).deep_view() == old(diags).deep_view() + m.ds
            &&& pos <= r.1 <= toks@.len()
            &&& (m.term is Some ==> pos < r.1)
        }),
    decreases toks@.len() - pos, 2int,
{
    let tn = toks.len();
    let ghost tv = toks.deep_view();
    let ghost m = sp_term(tv, pos as int);
    let ghost dv0 = old(diags).deep_view();
    let (n, p1) = p_name(toks, pos + 1, diags);
    match n {
        None => (None, p1),
        Some(nm) => {
            let ghost ds1 = sp_name(tv, pos + 1).ds;
            if p1 < tn && matches!(&toks[p1].tok, Token::Equals) {
                let (v, p2) = p_term(toks, p1 + 1, diags);
                let ghost ds2 = sp_term(tv, next_pos(pos as int, p1 + 1, tv.len() as int)).ds;
                proof {
                    assert(next_pos(pos as int, p1 + 1, tv.len() as int) == p1 + 1);
                    assert(dv0 + ds1 + ds2 =~= dv0 + (ds1 + ds2));
                }
                match v {
                    None => (None, p2),
                    Some(vt) => {
                        if p2 < tn && matches!(&toks[p2].tok, Token::Semicolon) {
                            let q = p_skip_newlines(toks, p2 + 1);
                            let (nx, p3) = p_term(toks, q, diags);
                            let ghost ds3 = sp_term(
                                tv,
                                next_pos(pos as int, q as int, tv.len() as int),
                            ).ds;
                            proof {
                                assert(next_pos(pos as int, q as int, tv.len() as int) == q as int);
                                assert(dv0 + ds1 + ds2 + ds3 =~= dv0 + (ds1 + ds2 + ds3));
                            }
                            match nx {
                                None => (None, p3),
                                Some(nt) => {
                                    let lam = Term::Lam { nam: nm, bod: Box::new(nt) };
                                    proof {
                                        assert(lam@ is Lam);
                                    }
                                    (
                                        Some(Term::App { fun: Box::new(lam), arg: Box::new(vt) }),
                                        p3,
                                    )
                                },
                            }
                        } else {
                            push_fail(toks, p2, diags);
                            proof {
                                assert(dv0 + ds1 + ds2 + seq![fail_diag(tv, p2 as int)] =~= dv0 + (
                                ds1 + ds2 + seq![fail_diag(tv, p2 as int)]));
                            }
                            (None, p2)
                        }
                    },
                }
            } else {
                push_fail(toks, p1, diags);
                proof {
                    assert(dv0 + ds1 + seq![fail_diag(tv, p1 as int)] =~= dv0 + (ds1 + seq![
                        fail_diag(tv, p1 as int),
                    ]));
                }
                (None, p1)
            }
        },
    }
}

/// Parses a prefix numeric operation: an operator and exactly two items.
#[verifier::rlimit(100)]
fn p_numop(toks: &Vec<SpannedToken>, pos: usize, diags: &mut Vec<Diagnostic>) -> (r: (
    Option<Term>,
    usize,
))
    requires
        pos < toks@.len(),
        toks.deep_view()[pos as int].tok is Op,
    ensures
        ({
            let m = sp_term(toks.deep_view(), pos as int);
            &&& r.0.deep_view() == m.term
            &&& r.1 == m.pos
            &&& final(diags).deep_view() == old(diags).deep_view() + m.ds
            &&& pos <= r.1 <= toks@.len()
            &&& (m.term is Some ==> pos < r.1)
        }),
    decreases toks@.len() - pos, 2int,
{
    let tn = toks.len();
    let ghost tv = toks.deep_view();
    let ghost dv0 = old(diags).deep_view();
    // the leading token is an operator by the precondition; the fallback arm
    // only completes the match
    let o = match &toks[pos].tok {
        Token::Op(op) => *op,
        _ => crate::ast::NumOper::Add,
    };
    let (f, p1) = p_item(toks, pos + 1, diags);
    match f {
        None => (None, p1),
        Some(ft) => {
            let ghost ds1 = sp_item(tv, pos + 1).ds;
            let (s, p2) = p_item(toks, p1, diags);
            let ghost ds2 = sp_item(tv, next_pos(pos as int, p1 as int, tv.len() as int)).ds;
            proof {
                assert(dv0 + ds1 + ds2 =~= dv0 + (ds1 + ds2));
            }
            match s {
                None => (None, p2),
                Some(st) => (
                    Some(Term::NumOp { op: o, fst: Box::new(ft), snd: Box::new(st) }),
                    p2,
                ),
            }
        },
    }
}

/// Parses one term.
#[verifier::rlimit(100)]
fn p_term(toks: &Vec<SpannedToken>, pos: usize, diags: &mut Vec<Diagnostic>) -> (r: (
    Option<Term>,
    usize,
))
    requires
        pos <= toks@.len(),
    ensures
        ({
            let m = sp_term(toks.deep_view(), pos as int);
            &&& r.0.deep_view() == m.term
            &&& r.1 == m.pos
            &&& final(diags).deep_view() == old(diags).deep_view() + m.ds
            &&& pos <= r.1 <= toks@.len()
            &&& (m.term is Some ==> pos < r.1)
        }),
    decreases toks@.len() - pos, 3int,
{
    let tn = toks.len();
    if pos >= tn {
        push_fail(toks, pos, diags);
        return (None, pos);
    }
    match &toks[pos].tok {
        Token::Lambda => p_lam(toks, pos, diags),
        Token::Dup => p_dup(toks, pos, diags),
        Token::Let => p_let(toks, pos, diags),
        Token::Op(_) => p_numop(toks, pos, diags),
        Token::Name(_) => p_app(toks, pos, diags),
        Token::Number(_) => p_app(toks, pos, diags),
        Token::LParen => p_app(toks, pos, diags),
        _ => {
            push_fail(toks, pos, diags);
            (None, pos)
        },
    }
}

/// A parsed rule together with the byte span it was read from.
#[derive(Debug, PartialEq, Eq)]
pub struct SpannedRule {
    pub rule: Rule,
    pub start: usize,
    pub end: usize,
}

/// Mathematical model of a spanned rule.
pub struct SRuleV {
    pub rule: RuleV,
    pub start: int,
    pub end: int,
}

impl DeepView for SpannedRule {
    type V = SRuleV;

    open spec fn deep_view(&self) -> SRuleV {
        SRuleV {
            rule: self.rule.deep_view(),
            start: self.start as int,
            end: self.end as int,
        }
    }
}

/// Result of a rule parse.
pub struct PRule {
    pub rule: Option<SRuleV>,
    pub pos: int,
    pub ds: Seq<DiagV>,
}

/// Result of parsing a whole sequence of rules.
pub struct PRules {
    pub rules: Option<Seq<SRuleV>>,
    pub pos: int,
    pub ds: Seq<DiagV>,
}

/// Reads one rule: `"(" Name ")" "=" NL* Term`.  Its span runs from the
/// opening parenthesis to the last token of the body.
pub open spec fn sp_rule(toks: Seq<SpannedTokenV>, pos: int) -> PRule {
    if 0 <= pos < toks.len() && toks[pos].tok is LParen {
        let n = sp_name(toks, pos + 1);
        match n.name {
            None => PRule { rule: None, pos: n.pos, ds: n.ds },
            Some(nm) => {
                if n.pos < toks.len() && toks[n.pos].tok is RParen {
                    if n.pos + 1 < toks.len() && toks[n.pos + 1].tok is Equals {
                        let q = skip_nl(toks, n.pos + 2);
                        let b = sp_term(toks, q);
                        match b.term {
                            None => PRule { rule: None, pos: b.pos, ds: n.ds + b.ds },
                            Some(bt) => PRule {
                                rule: Some(
                                    SRuleV {
                                        rule: RuleV { name: nm, pats: Seq::empty(), body: bt },
                                        start: toks[pos].start,
                                        end: toks[b.pos - 1].end,
                                    },
                                ),
                                pos: b.pos,
                                ds: n.ds + b.ds,
                            },
                        }
                    } else {
                        PRule {
                            rule: None,
                            pos: n.pos + 1,
                            ds: n.ds + seq![fail_diag(toks, n.pos + 1)],
                        }
                    }
                } else {
                    PRule { rule: None, pos: n.pos, ds: n.ds + seq![fail_diag(toks, n.pos)] }
                }
            },
        }
    } else {
        PRule { rule: None, pos, ds: seq![fail_diag(toks, pos)] }
    }
}

/// Reads the whole sequence of rules of a source unit: leading newlines, then
/// rules separated by one or more newlines, then trailing newlines.
pub open spec fn sp_rules(toks: Seq<SpannedTokenV>, pos: int) -> PRules
    decreases toks.len() - pos,
    when 0 <= pos <= toks.len()
{
    let q = skip_nl(toks, pos);
    if q >= toks.len() {
        PRules { rules: Some(Seq::empty()), pos: q, ds: Seq::empty() }
    } else {
        let r = sp_rule(toks, q);
        match r.rule {
            None => PRules { rules: None, pos: r.pos, ds: r.ds },
            Some(rv) => {
                if r.pos < toks.len() && toks[r.pos].tok is NewLine {
                    let rest = sp_rules(toks, next_pos(pos, r.pos, toks.len() as int));
                    match rest.rules {
                        None => PRules { rules: None, pos: rest.pos, ds: r.ds + rest.ds },
                        Some(rs) => PRules {
                            rules: Some(seq![rv] + rs),
                            pos: rest.pos,
                            ds: r.ds + rest.ds,
                        },
                    }
                } else if r.pos >= toks.len() {
                    PRules { rules: Some(seq![rv]), pos: r.pos, ds: r.ds }
                } else {
                    PRules { rules: None, pos: r.pos, ds: r.ds + seq![fail_diag(toks, r.pos)] }
                }
            },
        }
    }
}

/// Parses one rule.
#[verifier::rlimit(100)]
fn p_rule(toks: &Vec<SpannedToken>, pos: usize, diags: &mut Vec<Diagnostic>) -> (r: (
    Option<SpannedRule>,
    usize,
))
    requires
        pos <= toks@.len(),
    ensures
        ({
            let m = sp_rule(toks.deep_view(), pos as int);
            &&& r.0.deep_view() == m.rule
            &&& r.1 == m.pos
            &&& final(diags).deep_view() == old(diags).deep_view() + m.ds
            &&& pos <= r.1 <= toks@.len()
            &&& (m.rule is Some ==> pos < r.1)
        }),
{
    let tn = toks.len();
    let ghost tv = toks.deep_view();
    let ghost dv0 = old(diags).deep_view();
    if pos < tn && matches!(&toks[pos].tok, Token::LParen) {
        let start = toks[pos].start;
        let (n, p1) = p_name(toks, pos + 1, diags);
        match n {
            None => (None, p1),
            Some(nm) => {
                let ghost ds1 = sp_name(tv, pos + 1).ds;
                if p1 < tn && matches!(&toks[p1].tok, Token::RParen) {
                    if p1 + 1 < tn && matches!(&toks[p1 + 1].tok, Token::Equals) {
                        let q = p_skip_newlines(toks, p1 + 2);
                        let (b, p2) = p_term(toks, q, diags);
                        let ghost ds2 = sp_term(tv, q as int).ds;
                        proof {
                            assert(dv0 + ds1 + ds2 =~= dv0 + (ds1 + ds2));
                        }
                        match b {
                            None => (None, p2),
                            Some(bt) => {
                                let end = toks[p2 - 1].end;
                                let pats: Vec<crate::ast::Pattern> = Vec::new();
                                proof {
                                    assert(pats.deep_view() =~= Seq::<
                                        crate::ast::PatternV,
                                    >::empty());
                                }
                                (
                                    Some(
                                        SpannedRule {
                                            rule: Rule { name: nm, pats, body: bt },
                                            start,
                                            end,
                                        },
                                    ),
                                    p2,
                                )
                            },
                        }
                    } else {
                        push_fail(toks, p1 + 1, diags);
                        proof {
                            assert(dv0 + ds1 + seq![fail_diag(tv, p1 + 1)] =~= dv0 + (ds1 + seq![
                                fail_diag(tv, p1 + 1),
                            ]));
                        }
                        (None, p1 + 1)
                    }
                } else {
                    push_fail(toks, p1, diags);
                    proof {
                        assert(dv0 + ds1 + seq![fail_diag(tv, p1 as int)] =~= dv0 + (ds1 + seq![
                            fail_diag(tv, p1 as int),
                        ]));
                    }
                    (None, p1)
                }
            },
        }
    } else {
        push_fail(toks, pos, diags);
        (None, pos)
    }
}

/// Parses every rule of a source unit.
#[verifier::rlimit(100)]
fn p_rules(toks: &Vec<SpannedToken>, pos: usize, diags: &mut Vec<Diagnostic>) -> (r: (
    Option<Vec<SpannedRule>>,
    usize,
))
    requires
        pos <= toks@.len(),
    ensures
        ({
            let m = sp_rules(toks.deep_view(), pos as int);
            &&& r.0.deep_view() == m.rules
            &&& r.1 == m.pos
            &&& final(diags).deep_view() == old(diags).deep_view() + m.ds
            &&& pos <= r.1 <= toks@.len()
        }),
    decreases toks@.len() - pos,
{
    let tn = toks.len();
    let ghost tv = toks.deep_view();
    let ghost dv0 = old(diags).deep_view();
    let q = p_skip_newlines(toks, pos);
    if q >= tn {
        let empty_rules: Vec<SpannedRule> = Vec::new();
        proof {
            assert(empty_rules.deep_view() =~= Seq::<SRuleV>::empty());
            assert(diags.deep_view() =~= dv0 + Seq::<DiagV>::empty());
        }
        (Some(empty_rules), q)
    } else {
        let (ro, p1) = p_rule(toks, q, diags);
        match ro {
            None => (None, p1),
            Some(rv) => {
                let ghost ds1 = sp_rule(tv, q as int).ds;
                let ghost rvv = rv.deep_view();
                if p1 < tn && matches!(&toks[p1].tok, Token::NewLine) {
                    proof {
                        assert(next_pos(pos as int, p1 as int, tv.len() as int) == p1 as int);
                    }
                    let (rest, p2) = p_rules(toks, p1, diags);
                    let ghost ds2 = sp_rules(tv, p1 as int).ds;
                    proof {
                        assert(dv0 + ds1 + ds2 =~= dv0 + (ds1 + ds2));
                    }
                    match rest {
                        None => (None, p2),
                        Some(rs) => {
                            let ghost rs_dv = rs.deep_view();
                            let mut rs = rs;
                            rs.insert(0, rv);
                            proof {
                                assert(rs.deep_view() =~= seq![rvv] + rs_dv);
                            }
                            (Some(rs), p2)
                        },
                    }
                } else if p1 >= tn {
                    let mut rs: Vec<SpannedRule> = Vec::new();
                    rs.push(rv);
                    proof {
                        assert(rs.deep_view() =~= seq![rvv]);
                    }
                    (Some(rs), p1)
                } else {
                    push_fail(toks, p1, diags);
                    proof {
                        assert(dv0 + ds1 + seq![fail_diag(tv, p1 as int)] =~= dv0 + (ds1 + seq![
                            fail_diag(tv, p1 as int),
                        ]));
                    }
                    (None, p1)
                }
            },
        }
    }
}

/// The extent of the maximal run of rules sharing one name that starts at
/// `i`: grouping is positional, so only adjacent rules join a group.
pub open spec fn group_end(rs: Seq<SRuleV>, i: int) -> int
    decreases rs.len() - i,
    when 0 <= i < rs.len()
{
    if i + 1 < rs.len() && rs[i + 1].rule.name == rs[i].rule.name {
        group_end(rs, i + 1)
    } else {
        i + 1
    }
}

/// A group extends past its first rule and ends within the sequence.
pub proof fn lemma_group_end_bounds(rs: Seq<SRuleV>, i: int)
    requires
        0 <= i < rs.len(),
    ensures
        i < group_end(rs, i) <= rs.len(),
    decreases rs.len() - i,
{
    if i + 1 < rs.len() && rs[i + 1].rule.name == rs[i].rule.name {
        lemma_group_end_bounds(rs, i + 1);
    }
}

/// Assembles a book from the rules at `i` on: a group of more than one rule
/// is reported as an unsupported multi-rule definition and not inserted; a
/// single rule whose name is already in the book is reported as a repeated
/// definition and does not overwrite the existing entry; any other single
/// rule becomes a new definition.
pub open spec fn sp_book(rs: Seq<SRuleV>, i: int, book: Seq<DefV>, ds: Seq<DiagV>) -> (
    Seq<DefV>,
    Seq<DiagV>,
)
    decreases rs.len() - i,
    when 0 <= i <= rs.len()
    via sp_book_decreases
{
    if i >= rs.len() {
        (book, ds)
    } else {
        let j = group_end(rs, i);
        if j - i > 1 {
            sp_book(
                rs,
                j,
                book,
                ds + seq![
                    DiagV {
                        kind: DiagKindV::MultipleRules(rs[i].rule.name),
                        start: rs[i].start,
                        end: rs[j - 1].end,
                    },
                ],
            )
        } else if book_has_name(book, rs[i].rule.name) {
            sp_book(
                rs,
                i + 1,
                book,
                ds + seq![
                    DiagV {
                        kind: DiagKindV::RepeatedDefinition(rs[i].rule.name),
                        start: rs[i].start,
                        end: rs[i].end,
                    },
                ],
            )
        } else {
            sp_book(
                rs,
                i + 1,
                book + seq![DefV { name: rs[i].rule.name, rules: seq![rs[i].rule] }],
                ds,
            )
        }
    }
}

#[via_fn]
proof fn sp_book_decreases(rs: Seq<SRuleV>, i: int, book: Seq<DefV>, ds: Seq<DiagV>) {
    if 0 <= i < rs.len() {
        lemma_group_end_bounds(rs, i);
    }
}

/// Diagnostics already collected pass through book assembly unchanged, in
/// front of the ones it emits.
pub proof fn lemma_sp_book_offset(rs: Seq<SRuleV>, i: int, book: Seq<DefV>, pre: Seq<DiagV>, ds: Seq<DiagV>)
    requires
        0 <= i <= rs.len(),
    ensures
        sp_book(rs, i, book, pre + ds).0 == sp_book(rs, i, book, ds).0,
        sp_book(rs, i, book, pre + ds).1 == pre + sp_book(rs, i, book, ds).1,
    decreases rs.len() - i,
{
    if i < rs.len() {
        let j = group_end(rs, i);
        lemma_group_end_bounds(rs, i);
        if j - i > 1 {
            let d = seq![
                DiagV {
                    kind: DiagKindV::MultipleRules(rs[i].rule.name),
                    start: rs[i].start,
                    end: rs[j - 1].end,
                },
            ];
            assert((pre + ds) + d =~= pre + (ds + d));
            lemma_sp_book_offset(rs, j, book, pre, ds + d);
        } else if book_has_name(book, rs[i].rule.name) {
            let d = seq![
                DiagV {
                    kind: DiagKindV::RepeatedDefinition(rs[i].rule.name),
                    start: rs[i].start,
                    end: rs[i].end,
                },
            ];
            assert((pre + ds) + d =~= pre + (ds + d));
            lemma_sp_book_offset(rs, i + 1, book, pre, ds + d);
        } else {
            lemma_sp_book_offset(
                rs,
                i + 1,
                book + seq![DefV { name: rs[i].rule.name, rules: seq![rs[i].rule] }],
                pre,
                ds,
            );
        }
    }
}

/// Name equality by characters.
fn name_eq(a: &Name, b: &Name) -> (r: bool)
    ensures
        r == (a@ == b@),
{
    a.0 == b.0
}

/// Whether the book already holds a definition under `name`.
fn book_contains(book: &DefinitionBook, name: &Name) -> (r: bool)
    ensures
        r == book_has_name(book.deep_view(), name@),
{
    let mut k: usize = 0;
    while k < book.defs.len()
        invariant
            k <= book.defs.len(),
            forall|t: int| 0 <= t < k ==> book.deep_view()[t].name != name@,
        decreases book.defs.len() - k,
    {
        if name_eq(&book.defs[k].name, name) {
            proof {
                assert(book.deep_view()[k as int] == book.defs@[k as int].deep_view());
            }
            return true;
        }
        k = k + 1;
    }
    false
}

/// Removing the first element of a rule vector drops the first entry of its
/// view.
proof fn lemma_deep_remove0(
    pre_v: Seq<SpannedRule>,
    pre_dv: Seq<SRuleV>,
    post_v: Seq<SpannedRule>,
    post_dv: Seq<SRuleV>,
)
    requires
        pre_v.len() > 0,
        post_v == pre_v.remove(0),
        pre_dv == Seq::new(pre_v.len(), |k: int| pre_v[k].deep_view()),
        post_dv == Seq::new(post_v.len(), |k: int| post_v[k].deep_view()),
    ensures
        post_dv =~= pre_dv.drop_first(),
        pre_v[0].deep_view() == pre_dv[0],
{
    assert(post_v =~= pre_v.subrange(1, pre_v.len() as int));
    assert forall|k: int| 0 <= k < post_dv.len() implies post_dv[k] == pre_dv.drop_first()[k] by {
        assert(post_v[k] == pre_v[1 + k]);
        assert(post_dv[k] == post_v[k].deep_view());
        assert(pre_dv[1 + k] == pre_v[1 + k].deep_view());
    }
}

/// Groups the parsed rules and validates the book, collecting the
/// diagnostics of every group rather than stopping at the first.
#[verifier::rlimit(100)]
pub fn rules_to_book(rules: Vec<SpannedRule>, diags: &mut Vec<Diagnostic>) -> (book:
    DefinitionBook)
    ensures
        ({
            let m = sp_book(rules.deep_view(), 0, Seq::empty(), Seq::empty());
            &&& book.deep_view() == m.0
            &&& final(diags).deep_view() == old(diags).deep_view() + m.1
            &&& book_wf(book.deep_view())
        }),
{
    let total = rules.len();
    let ghost rs0 = rules.deep_view();
    let ghost dv0 = old(diags).deep_view();
    let mut rules = rules;
    let mut book = DefinitionBook::new();
    let ghost mut i: int = 0;
    proof {
        assert(rules.deep_view() =~= rs0.subrange(0, rs0.len() as int));
    }
    while rules.len() > 0
        invariant
            rs0.len() == total as int,
            0 <= i <= rs0.len(),
            rules.deep_view() == rs0.subrange(i, rs0.len() as int),
            book_wf(book.deep_view()),
            sp_book(rs0, i, book.deep_view(), diags.deep_view()) == sp_book(
                rs0,
                0,
                Seq::empty(),
                dv0,
            ),
            dv0 == old(diags).deep_view(),
        decreases rs0.len() - i,
    {
        let ghost rules_before = rules.deep_view();
        let ghost vec_before = rules@;
        let first = rules.remove(0);
        proof {
            lemma_deep_remove0(vec_before, rules_before, rules@, rules.deep_view());
            assert(first.deep_view() == rs0[i]);
            assert(rules.deep_view() =~= rs0.subrange(i + 1, rs0.len() as int));
        }
        let mut last_end = first.end;
        let mut count: usize = 1;
        while rules.len() > 0 && name_eq(&rules[0].rule.name, &first.rule.name)
            invariant
                rs0.len() == total as int,
                0 <= i,
                1 <= count,
                i + count <= rs0.len(),
                first.deep_view() == rs0[i],
                rules.deep_view() == rs0.subrange(i + count, rs0.len() as int),
                rs0[i + count - 1].rule.name == rs0[i].rule.name,
                group_end(rs0, i) == group_end(rs0, i + count - 1),
                last_end == rs0[i + count - 1].end,
            decreases rs0.len() - i - count,
        {
            let ghost rules_before2 = rules.deep_view();
            let ghost vec_before2 = rules@;
            let x = rules.remove(0);
            proof {
                lemma_deep_remove0(vec_before2, rules_before2, rules@, rules.deep_view());
                assert(x.deep_view() == rs0[i + count]);
                assert(rules.deep_view() =~= rs0.subrange(i + count + 1, rs0.len() as int));
                assert(rs0[i + count].rule.name == rs0[i + count - 1].rule.name);
            }
            last_end = x.end;
            count = count + 1;
        }
        proof {
            if i + count < rs0.len() {
                assert(rules.deep_view()[0] == rs0[i + count]);
                assert(rules.deep_view()[0] == rules@[0].deep_view());
                assert(rs0[i + count].rule.name != rs0[i + count - 1].rule.name);
            }
            assert(group_end(rs0, i + count - 1) == i + count);
            assert(group_end(rs0, i) == i + count);
        }
        if count > 1 {
            let ghost dv_before = diags.deep_view();
            diags.push(
                Diagnostic {
                    kind: DiagKind::MultipleRules(first.rule.name),
                    start: first.start,
                    end: last_end,
                },
            );
            proof {
                assert(diags.deep_view() =~= dv_before + seq![
                    DiagV {
                        kind: DiagKindV::MultipleRules(rs0[i].rule.name),
                        start: rs0[i].start,
                        end: rs0[i + count - 1].end,
                    },
                ]);
                i = i + count;
            }
        } else {
            if book_contains(&book, &first.rule.name) {
                let ghost dv_before = diags.deep_view();
                diags.push(
                    Diagnostic {
                        kind: DiagKind::RepeatedDefinition(first.rule.name),
                        start: first.start,
                        end: first.end,
                    },
                );
                proof {
                    assert(diags.deep_view() =~= dv_before + seq![
                        DiagV {
                            kind: DiagKindV::RepeatedDefinition(rs0[i].rule.name),
                            start: rs0[i].start,
                            end: rs0[i].end,
                        },
                    ]);
                    i = i + 1;
                }
            } else {
                let ghost book_before = book.deep_view();
                let ghost defs_before = book.defs@;
                let ghost firstv = first.deep_view();
                let nm = first.rule.name.clone();
                let mut rl: Vec<Rule> = Vec::new();
                rl.push(first.rule);
                proof {
                    assert(rl.deep_view() =~= seq![firstv.rule]);
                }
                let def = Definition { name: nm, rules: rl };
                proof {
                    assert(def.deep_view() == (DefV {
                        name: rs0[i].rule.name,
                        rules: seq![rs0[i].rule],
                    }));
                }
                book.defs.push(def);
                proof {
                    assert forall|k: int|
                        0 <= k < book.deep_view().len() implies book.deep_view()[k] == (
                    book_before + seq![
                        DefV { name: rs0[i].rule.name, rules: seq![rs0[i].rule] },
                    ])[k] by {
                        assert(book.deep_view()[k] == book.defs@[k].deep_view());
                        if k < book_before.len() {
                            assert(book.defs@[k] == defs_before[k]);
                            assert(book_before[k] == defs_before[k].deep_view());
                        }
                    }
                    assert(book.deep_view() =~= book_before + seq![
                        DefV { name: rs0[i].rule.name, rules: seq![rs0[i].rule] },
                    ]);
                    assert forall|a: int, b: int|
                        0 <= a < b < book.deep_view().len() implies book.deep_view()[a].name
                        != book.deep_view()[b].name by {
                        if b + 1 == book.deep_view().len() {
                            assert(!book_has_name(book_before, rs0[i].rule.name));
                        }
                    }
                    i = i + 1;
                }
            }
        }
    }
    proof {
        assert(i == rs0.len());
        lemma_sp_book_offset(rs0, 0, Seq::empty(), dv0, Seq::empty());
        assert(dv0 + Seq::<DiagV>::empty() =~= dv0);
        assert(Seq::<DiagV>::empty() + sp_book(rs0, 0, Seq::empty(), Seq::empty()).1 =~= sp_book(
            rs0,
            0,
            Seq::empty(),
            Seq::empty(),
        ).1);
    }
    book
}

/// The outcome of parsing a whole source unit as one term: the term if the
/// grammar matched the entire token sequence, and every diagnostic emitted.
pub open spec fn parse_term_result(bytes: Seq<u8>) -> (Option<TermV>, Seq<DiagV>) {
    let toks = lex_from(bytes, 0);
    let m = sp_term(toks, 0);
    match m.term {
        None => (None::<TermV>, m.ds),
        Some(t) => {
            if m.pos == toks.len() {
                (Some(t), m.ds)
            } else {
                (None::<TermV>, m.ds + seq![fail_diag(toks, m.pos)])
            }
        },
    }
}

/// The outcome of parsing a whole source unit as a definition book: the book
/// (absent when a rule failed to parse) and every diagnostic emitted.
pub open spec fn parse_book_result(bytes: Seq<u8>) -> (Option<Seq<DefV>>, Seq<DiagV>) {
    let toks = lex_from(bytes, 0);
    let r = sp_rules(toks, 0);
    match r.rules {
        None => (None::<Seq<DefV>>, r.ds),
        Some(rs) => {
            let m = sp_book(rs, 0, Seq::empty(), Seq::empty());
            (Some(m.0), r.ds + m.1)
        },
    }
}

/// Parses a source unit into its definition book, returning the best-effort
/// book together with every diagnostic found: syntax failures leave no book,
/// while validation findings (oversized names, multi-rule or repeated
/// definitions) accompany the book they were found in.
pub fn parse_definition_book_with_diags(code: &str) -> (r: (
    Option<DefinitionBook>,
    Vec<Diagnostic>,
))
    ensures
        ({
            let m = parse_book_result(vstd::string::StringSliceAdditionalSpecFns::spec_bytes(
                code,
            ));
            &&& r.0.deep_view() == m.0
            &&& r.1.deep_view() == m.1
        }),
        (r.0 matches Some(b) ==> book_wf(b.deep_view())),
{
    let bytes = code.as_bytes();
    let toks = tokenize(bytes);
    let mut diags: Vec<Diagnostic> = Vec::new();
    proof {
        assert(diags.deep_view() =~= Seq::<DiagV>::empty());
    }
    let (rs_opt, _pos) = p_rules(&toks, 0, &mut diags);
    match rs_opt {
        None => {
            proof {
                assert(Seq::<DiagV>::empty() + sp_rules(toks.deep_view(), 0).ds =~= sp_rules(
                    toks.deep_view(),
                    0,
                ).ds);
            }
            (None, diags)
        },
        Some(rs) => {
            let ghost rds = sp_rules(toks.deep_view(), 0).ds;
            let book = rules_to_book(rs, &mut diags);
            proof {
                let bds = sp_book(rs.deep_view(), 0, Seq::empty(), Seq::empty()).1;
                assert(Seq::<DiagV>::empty() + rds =~= rds);
                assert(rds + bds =~= diags.deep_view());
            }
            (Some(book), diags)
        },
    }
}

/// Full-file entry point: parses a source unit into its definition book.
/// Succeeds exactly when no diagnostic was found; otherwise returns the full
/// diagnostic list.
pub fn parse_definition_book(code: &str) -> (r: Result<DefinitionBook, Vec<Diagnostic>>)
    ensures
        ({
            let m = parse_book_result(vstd::string::StringSliceAdditionalSpecFns::spec_bytes(
                code,
            ));
            &&& (r is Ok <==> (m.0 is Some && m.1.len() == 0))
            &&& (r matches Ok(b) ==> Some(b.deep_view()) == m.0 && book_wf(b.deep_view()))
            &&& (r matches Err(ds) ==> ds.deep_view() == m.1)
        }),
{
    let (b, ds) = parse_definition_book_with_diags(code);
    match b {
        Some(book) => {
            if ds.len() == 0 {
                Ok(book)
            } else {
                Err(ds)
            }
        },
        None => Err(ds),
    }
}

/// Standalone single-term entry point: parses a source unit as one term,
/// which must span the whole input.  Succeeds exactly when the term parsed,
/// covered every token, and no diagnostic was found.
pub fn parse_term(code: &str) -> (r: Result<Term, Vec<Diagnostic>>)
    ensures
        ({
            let m = parse_term_result(vstd::string::StringSliceAdditionalSpecFns::spec_bytes(
                code,
            ));
            &&& (r is Ok <==> (m.0 is Some && m.1.len() == 0))
            &&& (r matches Ok(t) ==> Some(t.deep_view()) == m.0)
            &&& (r matches Err(ds) ==> ds.deep_view() == m.1)
        }),
{
    let bytes = code.as_bytes();
    let toks = tokenize(bytes);
    let mut diags: Vec<Diagnostic> = Vec::new();
    proof {
        assert(diags.deep_view() =~= Seq::<DiagV>::empty());
    }
    let (t, p) = p_term(&toks, 0, &mut diags);
    proof {
        assert(Seq::<DiagV>::empty() + sp_term(toks.deep_view(), 0).ds =~= sp_term(
            toks.deep_view(),
            0,
        ).ds);
    }
    match t {
        Some(tt) => {
            if p == toks.len() {
                if diags.len() == 0 {
                    Ok(tt)
                } else {
                    Err(diags)
                }
            } else {
                push_fail(&toks, p, &mut diags);
                Err(diags)
            }
        },
        None => Err(diags),
    }
}

} // verus!
