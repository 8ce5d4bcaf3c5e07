//! Textual rendering of the AST back to source-like syntax: lambdas render
//! with the lambda glyph, applications fully parenthesized, duplication as
//! `dup a b = v; n`, superposition as a brace-delimited pair, erasure as `*`.

use vstd::prelude::*;
use vstd::string::StringExecFns;

use crate::ast::{
    pat_term, fold_apps, Definition, DefinitionBook, DefV, Name, NumOper, Pattern, PatternV,
    Rule, RuleV, Term, TermV, MAX_NAME_LEN,
};
use crate::diagnostic::{DiagKind, DiagKindV, Diagnostic};

verus! {

/// The character of one decimal digit.
pub open spec fn digit_char(d: int) -> char {
    if d == 0 {
        '0'
    } else if d == 1 {
        '1'
    } else if d == 2 {
        '2'
    } else if d == 3 {
        '3'
    } else if d == 4 {
        '4'
    } else if d == 5 {
        '5'
    } else if d == 6 {
        '6'
    } else if d == 7 {
        '7'
    } else if d == 8 {
        '8'
    } else {
        '9'
    }
}

/// The decimal rendering of a non-negative integer, most significant digit
/// first, without leading zeroes.
pub open spec fn dec_chars(n: int) -> Seq<char>
    decreases n,
    when n >= 0
    via dec_chars_decreases
{
    if n < 10 {
        seq![digit_char(n)]
    } else {
        dec_chars(n / 10) + seq![digit_char(n % 10)]
    }
}

#[via_fn]
proof fn dec_chars_decreases(n: int) {
    assert(n >= 10 ==> 0 <= n / 10 < n) by (nonlinear_arith);
}

/// The symbol of an operator, as the grammar writes it.
pub open spec fn op_symbol(op: NumOper) -> Seq<char> {
    match op {
        NumOper::Add => "+"@,
        NumOper::Sub => "-"@,
        NumOper::Mul => "*"@,
        NumOper::Div => "/"@,
        NumOper::Mod => "%"@,
        NumOper::And => "&"@,
        NumOper::Or => "|"@,
        NumOper::Xor => "^"@,
        NumOper::Shl => "<<"@,
        NumOper::Shr => ">>"@,
        NumOper::Ltn => "<"@,
        NumOper::Lte => "<="@,
        NumOper::Gtn => ">"@,
        NumOper::Gte => ">="@,
        NumOper::Eql => "=="@,
        NumOper::Neq => "!="@,
    }
}

/// The rendering of a term.
pub open spec fn render_term(t: TermV) -> Seq<char>
    decreases t,
{
    match t {
        TermV::Lam { nam, bod } => "λ"@ + nam + " "@ + render_term(*bod),
        TermV::Var { nam } => nam,
        TermV::App { fun, arg } => "("@ + render_term(*fun) + " "@ + render_term(*arg) + ")"@,
        TermV::Dup { fst, snd, val, nxt } => "dup "@ + fst + " "@ + snd + " = "@ + render_term(
            *val,
        ) + "; "@ + render_term(*nxt),
        TermV::Num { val } => dec_chars(val as int),
        TermV::NumOp { op, fst, snd } => "("@ + op_symbol(op) + " "@ + render_term(*fst) + " "@
            + render_term(*snd) + ")"@,
        TermV::Sup { fst, snd } => "{"@ + render_term(*fst) + " "@ + render_term(*snd) + "}"@,
        TermV::Era => "*"@,
    }
}

/// The rendering of the application chain a constructor pattern stands for,
/// restricted to the first `k` sub-patterns: `((Ctr p1) p2) ...` written with
/// explicit parentheses.
pub open spec fn render_ctr_upto(nam: Seq<char>, args: Seq<PatternV>, k: int) -> Seq<char>
    decreases args, k,
    when 0 <= k <= args.len()
{
    if k == 0 {
        nam
    } else {
        "("@ + render_ctr_upto(nam, args, k - 1) + " "@ + render_pattern(args[k - 1]) + ")"@
    }
}

/// The rendering of a pattern: exactly the rendering of the term the pattern
/// stands for.
pub open spec fn render_pattern(p: PatternV) -> Seq<char>
    decreases p,
{
    match p {
        PatternV::Ctr(nam, args) => render_ctr_upto(nam, args, args.len() as int),
        PatternV::Num(v) => dec_chars(v as int),
        PatternV::Var(nam) => nam,
    }
}

/// Law: a left fold of applications ends in an application of the last
/// argument.
pub proof fn lemma_fold_apps_snoc(acc: TermV, args: Seq<PatternV>)
    requires
        args.len() > 0,
    ensures
        fold_apps(acc, args) == (TermV::App {
            fun: Box::new(fold_apps(acc, args.drop_last())),
            arg: Box::new(pat_term(args.last())),
        }),
    decreases args.len(),
{
    let stepped = TermV::App { fun: Box::new(acc), arg: Box::new(pat_term(args[0])) };
    if args.len() == 1 {
        assert(args.drop_first() =~= Seq::<PatternV>::empty());
        assert(args.drop_last() =~= Seq::<PatternV>::empty());
    } else {
        lemma_fold_apps_snoc(stepped, args.drop_first());
        assert(args.drop_first().drop_last() =~= args.drop_last().drop_first());
        assert(args.drop_first().last() == args.last());
        assert(args.drop_last()[0] == args[0]);
    }
}

/// Law (pattern–term isomorphism): converting a pattern to a term and
/// rendering that term gives exactly the pattern's own rendering, the
/// application chain a reader would write by hand.
pub proof fn lemma_pattern_term_isomorphism(p: PatternV)
    ensures
        render_term(pat_term(p)) == render_pattern(p),
    decreases p,
{
    match p {
        PatternV::Ctr(nam, args) => {
            lemma_render_ctr_upto(nam, args, args.len() as int);
            assert(args.subrange(0, args.len() as int) =~= args);
        },
        PatternV::Num(v) => {},
        PatternV::Var(nam) => {},
    }
}

/// The application chain of the first `k` sub-patterns renders as the
/// parenthesized chain of their renderings.
pub proof fn lemma_render_ctr_upto(nam: Seq<char>, args: Seq<PatternV>, k: int)
    requires
        0 <= k <= args.len(),
    ensures
        render_term(fold_apps(TermV::Var { nam }, args.subrange(0, k))) == render_ctr_upto(
            nam,
            args,
            k,
        ),
    decreases args, k,
{
    let sub = args.subrange(0, k);
    if k == 0 {
        assert(sub =~= Seq::<PatternV>::empty());
    } else {
        lemma_fold_apps_snoc(TermV::Var { nam }, sub);
        assert(sub.drop_last() =~= args.subrange(0, k - 1));
        assert(sub.last() == args[k - 1]);
        lemma_render_ctr_upto(nam, args, k - 1);
        assert(decreases_to!(args => args[k - 1]));
        lemma_pattern_term_isomorphism(args[k - 1]);
    }
}

/// The rendering of the first `k` patterns of a rule head, each preceded by
/// one space.
pub open spec fn render_pats_upto(ps: Seq<PatternV>, k: int) -> Seq<char>
    decreases k,
    when 0 <= k <= ps.len()
{
    if k <= 0 {
        Seq::empty()
    } else {
        render_pats_upto(ps, k - 1) + " "@ + render_pattern(ps[k - 1])
    }
}

/// The rendering of a rule: `(Name pats) = body`, ended by a newline.
pub open spec fn render_rule(r: RuleV) -> Seq<char> {
    "("@ + r.name + render_pats_upto(r.pats, r.pats.len() as int) + ") = "@ + render_term(r.body)
        + "\n"@
}

/// The rendering of the first `k` rules of a definition.
pub open spec fn render_rules_upto(rs: Seq<RuleV>, k: int) -> Seq<char>
    decreases k,
    when 0 <= k <= rs.len()
{
    if k <= 0 {
        Seq::empty()
    } else {
        render_rules_upto(rs, k - 1) + render_rule(rs[k - 1])
    }
}

/// The rendering of a definition: its rules, in order.
pub open spec fn render_def(d: DefV) -> Seq<char> {
    render_rules_upto(d.rules, d.rules.len() as int)
}

/// The rendering of the first `k` definitions of a book, separated by blank
/// lines.
pub open spec fn render_book_upto(defs: Seq<DefV>, k: int) -> Seq<char>
    decreases k,
    when 0 <= k <= defs.len()
{
    if k <= 0 {
        Seq::empty()
    } else if k == 1 {
        render_def(defs[0])
    } else {
        render_book_upto(defs, k - 1) + "\n"@ + render_def(defs[k - 1])
    }
}

/// The message of a diagnostic.
pub open spec fn diag_message(k: DiagKindV) -> Seq<char> {
    match k {
        DiagKindV::UnexpectedToken => "unexpected token"@,
        DiagKindV::UnexpectedEnd => "unexpected end of input"@,
        DiagKindV::OversizeName(n) => "'"@ + n + "' exceeds maximum name length of "@ + dec_chars(
            MAX_NAME_LEN as int,
        ),
        DiagKindV::MultipleRules(n) => "definition with multiple rules '"@ + n + "'"@,
        DiagKindV::RepeatedDefinition(n) => "repeated definition '"@ + n + "'"@,
    }
}

/// One decimal digit as text.
fn digit_str(d: u64) -> (r: &'static str)
    requires
        d < 10,
    ensures
        r@ == seq![digit_char(d as int)],
{
    proof {
        reveal_strlit("0");
        reveal_strlit("1");
        reveal_strlit("2");
        reveal_strlit("3");
        reveal_strlit("4");
        reveal_strlit("5");
        reveal_strlit("6");
        reveal_strlit("7");
        reveal_strlit("8");
        reveal_strlit("9");
    }
    match d {
        0 => "0",
        1 => "1",
        2 => "2",
        3 => "3",
        4 => "4",
        5 => "5",
        6 => "6",
        7 => "7",
        8 => "8",
        _ => "9",
    }
}

/// Renders a non-negative integer in decimal.
pub fn u64_string(n: u64) -> (r: String)
    ensures
        r@ == dec_chars(n as int),
    decreases n,
{
    if n < 10 {
        digit_str(n).to_owned()
    } else {
        let mut s = u64_string(n / 10);
        s.append(digit_str(n % 10));
        s
    }
}

impl NumOper {
    /// The operator's symbol, as the grammar writes it.
    pub fn symbol(&self) -> (r: &'static str)
        ensures
            r@ == op_symbol(*self),
    {
        match self {
            NumOper::Add => "+",
            NumOper::Sub => "-",
            NumOper::Mul => "*",
            NumOper::Div => "/",
            NumOper::Mod => "%",
            NumOper::And => "&",
            NumOper::Or => "|",
            NumOper::Xor => "^",
            NumOper::Shl => "<<",
            NumOper::Shr => ">>",
            NumOper::Ltn => "<",
            NumOper::Lte => "<=",
            NumOper::Gtn => ">",
            NumOper::Gte => ">=",
            NumOper::Eql => "==",
            NumOper::Neq => "!=",
        }
    }
}

impl Term {
    /// Renders the term back to source-like syntax.
    pub fn display_string(&self) -> (r: String)
        ensures
            r@ == render_term(self@),
        decreases self,
    {
        match self {
            Term::Lam { nam, bod } => {
                let mut s = "λ".to_owned();
                s.append(nam.0.as_str());
                s.append(" ");
                s.append(bod.display_string().as_str());
                s
            },
            Term::Var { nam } => nam.0.clone(),
            Term::App { fun, arg } => {
                let mut s = "(".to_owned();
                s.append(fun.display_string().as_str());
                s.append(" ");
                s.append(arg.display_string().as_str());
                s.append(")");
                s
            },
            Term::Dup { fst, snd, val, nxt } => {
                let mut s = "dup ".to_owned();
                s.append(fst.0.as_str());
                s.append(" ");
                s.append(snd.0.as_str());
                s.append(" = ");
                s.append(val.display_string().as_str());
                s.append("; ");
                s.append(nxt.display_string().as_str());
                s
            },
            Term::Num { val } => u64_string(val.0),
            Term::NumOp { op, fst, snd } => {
                let mut s = "(".to_owned();
                s.append(op.symbol());
                s.append(" ");
                s.append(fst.display_string().as_str());
                s.append(" ");
                s.append(snd.display_string().as_str());
                s.append(")");
                s
            },
            Term::Sup { fst, snd } => {
                let mut s = "{".to_owned();
                s.append(fst.display_string().as_str());
                s.append(" ");
                s.append(snd.display_string().as_str());
                s.append("}");
                s
            },
            Term::Era => "*".to_owned(),
        }
    }
}

/// Renders the application chain of the first `k` sub-patterns of a
/// constructor pattern.
fn ctr_display(nam: &Name, args: &Vec<Pattern>, k: usize) -> (r: String)
    requires
        k <= args@.len(),
    ensures
        r@ == render_ctr_upto(nam@, crate::ast::patterns_view(args@), k as int),
    decreases args, k,
{
    proof {
        crate::ast::lemma_patterns_view_len(args@);
    }
    if k == 0 {
        nam.0.clone()
    } else {
        proof {
            crate::ast::lemma_patterns_view_index(args@, k - 1);
            assert(decreases_to!(args => args[k - 1 as int]));
        }
        let mut s = "(".to_owned();
        s.append(ctr_display(nam, args, k - 1).as_str());
        s.append(" ");
        s.append(args[k - 1].display_string().as_str());
        s.append(")");
        s
    }
}

impl Pattern {
    /// Renders the pattern: exactly the rendering of the term it stands for.
    pub fn display_string(&self) -> (r: String)
        ensures
            r@ == render_pattern(self@),
        decreases self,
    {
        match self {
            Pattern::Ctr(nam, args) => {
                proof {
                    crate::ast::lemma_patterns_view_len(args@);
                }
                ctr_display(nam, args, args.len())
            },
            Pattern::Num(v) => u64_string(v.0),
            Pattern::Var(nam) => nam.0.clone(),
        }
    }
}

impl Rule {
    /// Renders the rule as `(Name pats) = body`, ended by a newline.
    pub fn display_string(&self) -> (r: String)
        ensures
            r@ == render_rule(self.deep_view()),
    {
        let mut s = "(".to_owned();
        s.append(self.name.0.as_str());
        let mut k: usize = 0;
        proof {
            crate::ast::lemma_patterns_view_len(self.pats@);
        }
        while k < self.pats.len()
            invariant
                k <= self.pats@.len(),
                crate::ast::patterns_view(self.pats@).len() == self.pats@.len(),
                s@ == "("@ + self.name@ + render_pats_upto(
                    crate::ast::patterns_view(self.pats@),
                    k as int,
                ),
            decreases self.pats@.len() - k,
        {
            proof {
                crate::ast::lemma_patterns_view_index(self.pats@, k as int);
            }
            s.append(" ");
            s.append(self.pats[k].display_string().as_str());
            k = k + 1;
        }
        s.append(") = ");
        s.append(self.body.display_string().as_str());
        s.append("\n");
        s
    }
}

impl Definition {
    /// Renders the definition: its rules in order.
    pub fn display_string(&self) -> (r: String)
        ensures
            r@ == render_def(self.deep_view()),
    {
        let mut s = String::new();
        let mut k: usize = 0;
        while k < self.rules.len()
            invariant
                k <= self.rules@.len(),
                s@ == render_rules_upto(self.deep_view().rules, k as int),
                self.deep_view().rules.len() == self.rules@.len(),
            decreases self.rules@.len() - k,
        {
            proof {
                assert(self.deep_view().rules[k as int] == self.rules@[k as int].deep_view());
            }
            s.append(self.rules[k].display_string().as_str());
            k = k + 1;
        }
        s
    }
}

impl DefinitionBook {
    /// Renders the whole book, definitions separated by blank lines.
    pub fn display_string(&self) -> (r: String)
        ensures
            r@ == render_book_upto(self.deep_view(), self.deep_view().len() as int),
    {
        let mut s = String::new();
        let mut k: usize = 0;
        while k < self.defs.len()
            invariant
                k <= self.defs@.len(),
                s@ == render_book_upto(self.deep_view(), k as int),
                self.deep_view().len() == self.defs@.len(),
            decreases self.defs@.len() - k,
        {
            proof {
                assert(self.deep_view()[k as int] == self.defs@[k as int].deep_view());
            }
            if k > 0 {
                s.append("\n");
            }
            s.append(self.defs[k].display_string().as_str());
            k = k + 1;
        }
        s
    }
}

impl Diagnostic {
    /// The human-readable message of the diagnostic.
    pub fn message(&self) -> (r: String)
        ensures
            r@ == diag_message(self.kind.deep_view()),
    {
        match &self.kind {
            DiagKind::UnexpectedToken => "unexpected token".to_owned(),
            DiagKind::UnexpectedEnd => "unexpected end of input".to_owned(),
            DiagKind::OversizeName(n) => {
                let mut s = "'".to_owned();
                s.append(n.0.as_str());
                s.append("' exceeds maximum name length of ");
                s.append(u64_string(MAX_NAME_LEN as u64).as_str());
                s
            },
            DiagKind::MultipleRules(n) => {
                let mut s = "definition with multiple rules '".to_owned();
                s.append(n.0.as_str());
                s.append("'");
                s
            },
            DiagKind::RepeatedDefinition(n) => {
                let mut s = "repeated definition '".to_owned();
                s.append(n.0.as_str());
                s.append("'");
                s
            },
        }
    }
}

} // verus!
