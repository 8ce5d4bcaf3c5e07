//! The term, rule and definition-book data model.
//!
//! Every executable type here has a mathematical view: names are sequences of
//! characters, terms are trees over such names, and a book is a sequence of
//! definitions whose names are pairwise distinct.

use vstd::prelude::*;

verus! {

/// Maximum number of characters in a name.
///
/// A 64-bit word downstream reserves 16 bits for a tag and splits the
/// remaining 48 bits into 6-bit character slots, so a name has at most
/// 48 / 6 = 8 characters.
pub const MAX_NAME_LEN: usize = (64 - 16) / 6;

/// A validated identifier.  Names longer than [`MAX_NAME_LEN`] are accepted
/// by the grammar but reported through a diagnostic.
#[derive(Debug, PartialEq, Eq)]
pub struct Name(pub String);

/// A non-negative integer literal, opaque to this layer beyond storage.
#[derive(Debug, PartialEq, Eq)]
pub struct Number(pub u64);

impl View for Name {
    type V = Seq<char>;

    open spec fn view(&self) -> Seq<char> {
        self.0@
    }
}

impl DeepView for Name {
    type V = Seq<char>;

    open spec fn deep_view(&self) -> Seq<char> {
        self@
    }
}

impl Clone for Name {
    fn clone(&self) -> (r: Self)
        ensures
            r@ == self@,
    {
        Name(self.0.clone())
    }
}

impl View for Number {
    type V = u64;

    open spec fn view(&self) -> u64 {
        self.0
    }
}

impl Clone for Number {
    fn clone(&self) -> (r: Self)
        ensures
            r@ == self@,
    {
        Number(self.0)
    }
}

/// The sixteen binary numeric and comparison operators.
#[derive(Debug, PartialEq, Eq, Structural, Clone, Copy)]
pub enum NumOper {
    Add,
    Sub,
    Mul,
    Div,
    Mod,
    And,
    Or,
    Xor,
    Shl,
    Shr,
    Ltn,
    Lte,
    Gtn,
    Gte,
    Eql,
    Neq,
}

/// The canonical 4-bit opcode of an operator.
pub open spec fn spec_opcode(op: NumOper) -> u8 {
    match op {
        NumOper::Add => 0x0,
        NumOper::Sub => 0x1,
        NumOper::Mul => 0x2,
        NumOper::Div => 0x3,
        NumOper::Mod => 0x4,
        NumOper::And => 0x5,
        NumOper::Or => 0x6,
        NumOper::Xor => 0x7,
        NumOper::Shl => 0x8,
        NumOper::Shr => 0x9,
        NumOper::Ltn => 0xa,
        NumOper::Lte => 0xb,
        NumOper::Gtn => 0xc,
        NumOper::Gte => 0xd,
        NumOper::Eql => 0xe,
        NumOper::Neq => 0xf,
    }
}

/// The operator denoted by an opcode; `None` for codes above 0xf.
pub open spec fn spec_from_opcode(code: u8) -> Option<NumOper> {
    match code {
        0x0 => Some(NumOper::Add),
        0x1 => Some(NumOper::Sub),
        0x2 => Some(NumOper::Mul),
        0x3 => Some(NumOper::Div),
        0x4 => Some(NumOper::Mod),
        0x5 => Some(NumOper::And),
        0x6 => Some(NumOper::Or),
        0x7 => Some(NumOper::Xor),
        0x8 => Some(NumOper::Shl),
        0x9 => Some(NumOper::Shr),
        0xa => Some(NumOper::Ltn),
        0xb => Some(NumOper::Lte),
        0xc => Some(NumOper::Gtn),
        0xd => Some(NumOper::Gte),
        0xe => Some(NumOper::Eql),
        0xf => Some(NumOper::Neq),
        _ => None,
    }
}

impl NumOper {
    /// Encodes the operator as its 4-bit opcode.
    pub fn to_opcode(self) -> (code: u8)
        ensures
            code == spec_opcode(self),
            code <= 0xf,
    {
        match self {
            NumOper::Add => 0x0,
            NumOper::Sub => 0x1,
            NumOper::Mul => 0x2,
            NumOper::Div => 0x3,
            NumOper::Mod => 0x4,
            NumOper::And => 0x5,
            NumOper::Or => 0x6,
            NumOper::Xor => 0x7,
            NumOper::Shl => 0x8,
            NumOper::Shr => 0x9,
            NumOper::Ltn => 0xa,
            NumOper::Lte => 0xb,
            NumOper::Gtn => 0xc,
            NumOper::Gte => 0xd,
            NumOper::Eql => 0xe,
            NumOper::Neq => 0xf,
        }
    }

    /// Decodes an opcode back to its operator.  Every code in `0x0 ..= 0xf`
    /// decodes; larger codes are rejected with `None`.
    pub fn from_opcode(code: u8) -> (r: Option<NumOper>)
        ensures
            r == spec_from_opcode(code),
    {
        match code {
            0x0 => Some(NumOper::Add),
            0x1 => Some(NumOper::Sub),
            0x2 => Some(NumOper::Mul),
            0x3 => Some(NumOper::Div),
            0x4 => Some(NumOper::Mod),
            0x5 => Some(NumOper::And),
            0x6 => Some(NumOper::Or),
            0x7 => Some(NumOper::Xor),
            0x8 => Some(NumOper::Shl),
            0x9 => Some(NumOper::Shr),
            0xa => Some(NumOper::Ltn),
            0xb => Some(NumOper::Lte),
            0xc => Some(NumOper::Gtn),
            0xd => Some(NumOper::Gte),
            0xe => Some(NumOper::Eql),
            0xf => Some(NumOper::Neq),
            _ => None,
        }
    }
}

/// Law: encoding an operator to its opcode and decoding back yields the
/// original operator, for every one of the sixteen operators.
pub proof fn lemma_opcode_round_trip(op: NumOper)
    ensures
        spec_from_opcode(spec_opcode(op)) == Some(op),
{
}

/// Law: decoding succeeds exactly on the sixteen 4-bit codes, and the decoded
/// operator encodes back to the code that was decoded.
pub proof fn lemma_opcode_decode_range(code: u8)
    ensures
        spec_from_opcode(code) is Some <==> code <= 0xf,
        spec_from_opcode(code) matches Some(op) ==> spec_opcode(op) == code,
{
}

/// A pattern: a constructor applied to sub-patterns, a numeric literal, or a
/// variable.  The grammar does not yet parse patterns into rules; the type and
/// its term conversion are part of the data model nonetheless.
#[derive(Debug, PartialEq, Eq)]
pub enum Pattern {
    Ctr(Name, Vec<Pattern>),
    Num(Number),
    Var(Name),
}

/// The expression syntax tree.
#[derive(Debug, PartialEq, Eq)]
pub enum Term {
    Lam { nam: Name, bod: Box<Term> },
    Var { nam: Name },
    App { fun: Box<Term>, arg: Box<Term> },
    Dup { fst: Name, snd: Name, val: Box<Term>, nxt: Box<Term> },
    Num { val: Number },
    NumOp { op: NumOper, fst: Box<Term>, snd: Box<Term> },
    Sup { fst: Box<Term>, snd: Box<Term> },
    Era,
}

/// Mathematical model of a pattern.
pub enum PatternV {
    Ctr(Seq<char>, Seq<PatternV>),
    Num(u64),
    Var(Seq<char>),
}

/// Mathematical model of a term.
pub enum TermV {
    Lam { nam: Seq<char>, bod: Box<TermV> },
    Var { nam: Seq<char> },
    App { fun: Box<TermV>, arg: Box<TermV> },
    Dup { fst: Seq<char>, snd: Seq<char>, val: Box<TermV>, nxt: Box<TermV> },
    Num { val: u64 },
    NumOp { op: NumOper, fst: Box<TermV>, snd: Box<TermV> },
    Sup { fst: Box<TermV>, snd: Box<TermV> },
    Era,
}

pub open spec fn pattern_view(p: Pattern) -> PatternV
    decreases p,
    via pattern_view_decreases
{
    match p {
        Pattern::Ctr(nam, args) => PatternV::Ctr(nam@, patterns_view(args@)),
        Pattern::Num(num) => PatternV::Num(num@),
        Pattern::Var(nam) => PatternV::Var(nam@),
    }
}

pub open spec fn patterns_view(ps: Seq<Pattern>) -> Seq<PatternV>
    decreases ps,
{
    if ps.len() == 0 {
        Seq::empty()
    } else {
        seq![pattern_view(ps[0])] + patterns_view(ps.drop_first())
    }
}

#[via_fn]
proof fn pattern_view_decreases(p: Pattern) {
    match p {
        Pattern::Ctr(nam, args) => {
            assert(decreases_to!(p => args));
            assert(decreases_to!(args => args@));
        },
        _ => {},
    }
}

pub open spec fn term_view(t: Term) -> TermV
    decreases t,
{
    match t {
        Term::Lam { nam, bod } => TermV::Lam { nam: nam@, bod: Box::new(term_view(*bod)) },
        Term::Var { nam } => TermV::Var { nam: nam@ },
        Term::App { fun, arg } => TermV::App {
            fun: Box::new(term_view(*fun)),
            arg: Box::new(term_view(*arg)),
        },
        Term::Dup { fst, snd, val, nxt } => TermV::Dup {
            fst: fst@,
            snd: snd@,
            val: Box::new(term_view(*val)),
            nxt: Box::new(term_view(*nxt)),
        },
        Term::Num { val } => TermV::Num { val: val@ },
        Term::NumOp { op, fst, snd } => TermV::NumOp {
            op,
            fst: Box::new(term_view(*fst)),
            snd: Box::new(term_view(*snd)),
        },
        Term::Sup { fst, snd } => TermV::Sup {
            fst: Box::new(term_view(*fst)),
            snd: Box::new(term_view(*snd)),
        },
        Term::Era => TermV::Era,
    }
}

impl View for Pattern {
    type V = PatternV;

    open spec fn view(&self) -> PatternV {
        pattern_view(*self)
    }
}

impl DeepView for Pattern {
    type V = PatternV;

    open spec fn deep_view(&self) -> PatternV {
        pattern_view(*self)
    }
}

impl View for Term {
    type V = TermV;

    open spec fn view(&self) -> TermV {
        term_view(*self)
    }
}

impl DeepView for Term {
    type V = TermV;

    open spec fn deep_view(&self) -> TermV {
        term_view(*self)
    }
}

/// One named clause that may implement a definition: a name, a pattern list
/// (always empty in the current grammar) and a body term.
#[derive(Debug, PartialEq, Eq)]
pub struct Rule {
    pub name: Name,
    pub pats: Vec<Pattern>,
    pub body: Term,
}

/// A name together with the ordered rules that implement it; the current
/// grammar admits exactly one rule per definition.
#[derive(Debug, PartialEq, Eq)]
pub struct Definition {
    pub name: Name,
    pub rules: Vec<Rule>,
}

/// The name-keyed collection of definitions of one source unit.  Definitions
/// are kept in insertion order and their names are pairwise distinct.
#[derive(Debug, PartialEq, Eq)]
pub struct DefinitionBook {
    pub defs: Vec<Definition>,
}

/// Mathematical model of a rule.
pub struct RuleV {
    pub name: Seq<char>,
    pub pats: Seq<PatternV>,
    pub body: TermV,
}

/// Mathematical model of a definition.
pub struct DefV {
    pub name: Seq<char>,
    pub rules: Seq<RuleV>,
}

impl DeepView for Rule {
    type V = RuleV;

    open spec fn deep_view(&self) -> RuleV {
        RuleV { name: self.name@, pats: patterns_view(self.pats@), body: self.body.deep_view() }
    }
}

impl DeepView for Definition {
    type V = DefV;

    open spec fn deep_view(&self) -> DefV {
        DefV { name: self.name@, rules: self.rules.deep_view() }
    }
}

impl DeepView for DefinitionBook {
    type V = Seq<DefV>;

    open spec fn deep_view(&self) -> Seq<DefV> {
        self.defs.deep_view()
    }
}

/// Whether a sequence of definitions holds one under the given name.
pub open spec fn book_has_name(defs: Seq<DefV>, name: Seq<char>) -> bool {
    exists|i: int| 0 <= i < defs.len() && defs[i].name == name
}

/// Well-formedness of a book: definition names are pairwise distinct.
pub open spec fn book_wf(defs: Seq<DefV>) -> bool {
    forall|i: int, j: int|
        0 <= i < j < defs.len() ==> defs[i].name != defs[j].name
}

impl DefinitionBook {
    /// Creates an empty definition book.
    pub fn new() -> (book: Self)
        ensures
            book.deep_view() == Seq::<DefV>::empty(),
            book_wf(book.deep_view()),
    {
        DefinitionBook { defs: Vec::new() }
    }
}

/// Left-folds the terms of `args` as successive applications onto `acc`.
pub open spec fn fold_apps(acc: TermV, args: Seq<PatternV>) -> TermV
    decreases args,
{
    if args.len() == 0 {
        acc
    } else {
        fold_apps(
            TermV::App { fun: Box::new(acc), arg: Box::new(pat_term(args[0])) },
            args.drop_first(),
        )
    }
}

/// The term a pattern stands for: a constructor pattern is the left-folded
/// application of its sub-patterns onto a variable named after the
/// constructor; numeric and variable patterns map to the matching term forms.
pub open spec fn pat_term(p: PatternV) -> TermV
    decreases p,
{
    match p {
        PatternV::Ctr(nam, args) => fold_apps(TermV::Var { nam }, args),
        PatternV::Num(v) => TermV::Num { val: v },
        PatternV::Var(nam) => TermV::Var { nam },
    }
}

/// Law: folding one more argument onto an application chain wraps the chain
/// of the remaining arguments in one further application.
pub proof fn lemma_fold_apps_step(acc: TermV, args: Seq<PatternV>, i: int)
    requires
        0 <= i < args.len(),
    ensures
        fold_apps(acc, args.subrange(i, args.len() as int)) == fold_apps(
            TermV::App { fun: Box::new(acc), arg: Box::new(pat_term(args[i])) },
            args.subrange(i + 1, args.len() as int),
        ),
{
    let tail = args.subrange(i, args.len() as int);
    assert(tail[0] == args[i]);
    assert(tail.drop_first() =~= args.subrange(i + 1, args.len() as int));
}

impl Pattern {
    /// Converts the pattern into the term it stands for: sub-patterns of a
    /// constructor pattern are left-folded as successive applications onto a
    /// variable named after the constructor.
    pub fn to_term(&self) -> (t: Term)
        ensures
            t@ == pat_term(self@),
        decreases self,
    {
        match self {
            Pattern::Ctr(nam, args) => {
                let mut acc = Term::Var { nam: nam.clone() };
                let mut i: usize = 0;
                let ghost goal = pat_term(self@);
                proof {
                    lemma_patterns_view_len(args@);
                    assert(patterns_view(args@).subrange(0, args@.len() as int)
                        =~= patterns_view(args@));
                }
                while i < args.len()
                    invariant
                        decreases_to!(*self => *args),
                        i <= args.len(),
                        patterns_view(args@).len() == args@.len(),
                        fold_apps(
                            acc@,
                            patterns_view(args@).subrange(i as int, args@.len() as int),
                        ) == goal,
                    decreases args.len() - i,
                {
                    proof {
                        lemma_patterns_view_len(args@);
                        lemma_patterns_view_index(args@, i as int);
                        lemma_fold_apps_step(acc@, patterns_view(args@), i as int);
                        assert(decreases_to!(*args => args[i as int]));
                        assert(decreases_to!(*self => args[i as int]));
                    }
                    let a = &args[i];
                    let t = a.to_term();
                    acc = Term::App { fun: Box::new(acc), arg: Box::new(t) };
                    i = i + 1;
                }
                proof {
                    assert(patterns_view(args@).subrange(args@.len() as int, args@.len() as int)
                        =~= Seq::<PatternV>::empty());
                }
                acc
            },
            Pattern::Num(num) => Term::Num { val: num.clone() },
            Pattern::Var(nam) => Term::Var { nam: nam.clone() },
        }
    }
}

/// The view of a pattern sequence has one entry per pattern.
pub proof fn lemma_patterns_view_len(ps: Seq<Pattern>)
    ensures
        patterns_view(ps).len() == ps.len(),
    decreases ps.len(),
{
    if ps.len() > 0 {
        lemma_patterns_view_len(ps.drop_first());
    }
}

/// The view of a pattern sequence is the view of each pattern in place.
pub proof fn lemma_patterns_view_index(ps: Seq<Pattern>, i: int)
    requires
        0 <= i < ps.len(),
    ensures
        patterns_view(ps).len() == ps.len(),
        patterns_view(ps)[i] == pattern_view(ps[i]),
    decreases ps.len(),
{
    lemma_patterns_view_len(ps);
    if i > 0 {
        lemma_patterns_view_index(ps.drop_first(), i - 1);
    }
}

} // verus!
