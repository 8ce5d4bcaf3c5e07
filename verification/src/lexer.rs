//! The tokenizer: turns the UTF-8 bytes of a source unit into an ordered
//! sequence of span-tagged tokens.  Unrecognized input is not dropped: it
//! becomes an explicit error token carrying its span, so the grammar layer can
//! report lexical failures through the same diagnostic channel as syntax
//! errors.
//!
//! Lexical rules: names are `[_a-zA-Z][_a-zA-Z0-9]*` (with `dup` and `let` as
//! keywords), numbers are `[0-9]+`, the lambda glyph is `λ` or `\`, operators
//! are the sixteen numeric-operator symbols, and `(`, `)`, `=`, `;` and the
//! newline are structural.  Spaces, tabs and carriage returns are skipped;
//! spans are byte offsets into the source.

use vstd::prelude::*;

use crate::ast::NumOper;

verus! {

/// One lexical token.
#[derive(Debug, PartialEq, Eq)]
pub enum Token {
    /// An identifier.
    Name(String),
    /// A numeric literal that fits in 64 bits.
    Number(u64),
    /// A numeric-operator symbol.
    Op(NumOper),
    /// The lambda glyph, `λ` or `\`.
    Lambda,
    /// The keyword `dup`.
    Dup,
    /// The keyword `let`.
    Let,
    /// A single `=`.
    Equals,
    /// `;`
    Semicolon,
    /// `(`
    LParen,
    /// `)`
    RParen,
    /// A line break.
    NewLine,
    /// A span of input that matches no token.
    Error,
}

/// Mathematical model of a token.
pub enum TokenV {
    Name(Seq<char>),
    Number(u64),
    Op(NumOper),
    Lambda,
    Dup,
    Let,
    Equals,
    Semicolon,
    LParen,
    RParen,
    NewLine,
    Error,
}

impl DeepView for Token {
    type V = TokenV;

    open spec fn deep_view(&self) -> TokenV {
        match self {
            Token::Name(s) => TokenV::Name(s@),
            Token::Number(v) => TokenV::Number(*v),
            Token::Op(op) => TokenV::Op(*op),
            Token::Lambda => TokenV::Lambda,
            Token::Dup => TokenV::Dup,
            Token::Let => TokenV::Let,
            Token::Equals => TokenV::Equals,
            Token::Semicolon => TokenV::Semicolon,
            Token::LParen => TokenV::LParen,
            Token::RParen => TokenV::RParen,
            Token::NewLine => TokenV::NewLine,
            Token::Error => TokenV::Error,
        }
    }
}

/// A token together with the byte span it was read from.
#[derive(Debug, PartialEq, Eq)]
pub struct SpannedToken {
    pub tok: Token,
    pub start: usize,
    pub end: usize,
}

/// Mathematical model of a spanned token.
pub struct SpannedTokenV {
    pub tok: TokenV,
    pub start: int,
    pub end: int,
}

impl DeepView for SpannedToken {
    type V = SpannedTokenV;

    open spec fn deep_view(&self) -> SpannedTokenV {
        SpannedTokenV { tok: self.tok.deep_view(), start: self.start as int, end: self.end as int }
    }
}

/// Bytes that may open a name: `_`, `a`-`z`, `A`-`Z`.
pub open spec fn is_name_start(b: u8) -> bool {
    b == 95 || (65 <= b <= 90) || (97 <= b <= 122)
}

/// Bytes that may continue a name: a name-start byte or a digit.
pub open spec fn is_name_byte(b: u8) -> bool {
    is_name_start(b) || is_digit(b)
}

/// ASCII digits `0`-`9`.
pub open spec fn is_digit(b: u8) -> bool {
    48 <= b <= 57
}

/// Bytes skipped between tokens: space, tab, carriage return.
pub open spec fn is_skip_byte(b: u8) -> bool {
    b == 32 || b == 9 || b == 13
}

/// The first position at or after `pos` that does not continue a name.
pub open spec fn name_end(bytes: Seq<u8>, pos: int) -> int
    decreases bytes.len() - pos,
    when 0 <= pos <= bytes.len()
{
    if pos < bytes.len() && is_name_byte(bytes[pos]) {
        name_end(bytes, pos + 1)
    } else {
        pos
    }
}

/// The first position at or after `pos` that is not a digit.
pub open spec fn digits_end(bytes: Seq<u8>, pos: int) -> int
    decreases bytes.len() - pos,
    when 0 <= pos <= bytes.len()
{
    if pos < bytes.len() && is_digit(bytes[pos]) {
        digits_end(bytes, pos + 1)
    } else {
        pos
    }
}

/// The value of a string of decimal digit bytes.
pub open spec fn dec_val(digits: Seq<u8>) -> int
    decreases digits.len(),
{
    if digits.len() == 0 {
        0
    } else {
        dec_val(digits.drop_last()) * 10 + (digits.last() - 48)
    }
}

/// ASCII bytes read as the characters they denote.
pub open spec fn ascii_chars(bytes: Seq<u8>) -> Seq<char> {
    bytes.map_values(|b: u8| b as char)
}

/// The token starting at `pos` (which must hold a non-skipped byte) and the
/// position just after it.
pub open spec fn lex_tok(bytes: Seq<u8>, pos: int) -> (TokenV, int) {
    let b = bytes[pos];
    if is_name_start(b) {
        let e = name_end(bytes, pos + 1);
        let word = bytes.subrange(pos, e);
        if word =~= seq![100u8, 117u8, 112u8] {  // the keyword `dup`
            (TokenV::Dup, e)
        } else if word =~= seq![108u8, 101u8, 116u8] {  // the keyword `let`
            (TokenV::Let, e)
        } else {
            (TokenV::Name(ascii_chars(word)), e)
        }
    } else if is_digit(b) {
        let e = digits_end(bytes, pos + 1);
        let v = dec_val(bytes.subrange(pos, e));
        if v <= u64::MAX {
            (TokenV::Number(v as u64), e)
        } else {
            (TokenV::Error, e)
        }
    } else if b == 92 {  // backslash lambda
        (TokenV::Lambda, pos + 1)
    } else if b == 0xce && pos + 1 < bytes.len() && bytes[pos + 1] == 0xbb {  // the glyph λ
        (TokenV::Lambda, pos + 2)
    } else if b == 40 {
        (TokenV::LParen, pos + 1)
    } else if b == 41 {
        (TokenV::RParen, pos + 1)
    } else if b == 59 {
        (TokenV::Semicolon, pos + 1)
    } else if b == 10 {
        (TokenV::NewLine, pos + 1)
    } else if b == 61 {  // `=` or `==`
        if pos + 1 < bytes.len() && bytes[pos + 1] == 61 {
            (TokenV::Op(NumOper::Eql), pos + 2)
        } else {
            (TokenV::Equals, pos + 1)
        }
    } else if b == 33 {  // `!=`
        if pos + 1 < bytes.len() && bytes[pos + 1] == 61 {
            (TokenV::Op(NumOper::Neq), pos + 2)
        } else {
            (TokenV::Error, pos + 1)
        }
    } else if b == 60 {  // `<<`, `<=` or `<`
        if pos + 1 < bytes.len() && bytes[pos + 1] == 60 {
            (TokenV::Op(NumOper::Shl), pos + 2)
        } else if pos + 1 < bytes.len() && bytes[pos + 1] == 61 {
            (TokenV::Op(NumOper::Lte), pos + 2)
        } else {
            (TokenV::Op(NumOper::Ltn), pos + 1)
        }
    } else if b == 62 {  // `>>`, `>=` or `>`
        if pos + 1 < bytes.len() && bytes[pos + 1] == 62 {
            (TokenV::Op(NumOper::Shr), pos + 2)
        } else if pos + 1 < bytes.len() && bytes[pos + 1] == 61 {
            (TokenV::Op(NumOper::Gte), pos + 2)
        } else {
            (TokenV::Op(NumOper::Gtn), pos + 1)
        }
    } else if b == 43 {
        (TokenV::Op(NumOper::Add), pos + 1)
    } else if b == 45 {
        (TokenV::Op(NumOper::Sub), pos + 1)
    } else if b == 42 {
        (TokenV::Op(NumOper::Mul), pos + 1)
    } else if b == 47 {
        (TokenV::Op(NumOper::Div), pos + 1)
    } else if b == 37 {
        (TokenV::Op(NumOper::Mod), pos + 1)
    } else if b == 38 {
        (TokenV::Op(NumOper::And), pos + 1)
    } else if b == 124 {
        (TokenV::Op(NumOper::Or), pos + 1)
    } else if b == 94 {
        (TokenV::Op(NumOper::Xor), pos + 1)
    } else {
        (TokenV::Error, pos + 1)
    }
}

/// Scanning for the end of a name or number never runs past the input and
/// never runs backwards.
pub proof fn lemma_scan_bounds(bytes: Seq<u8>, pos: int)
    requires
        0 <= pos <= bytes.len(),
    ensures
        pos <= name_end(bytes, pos) <= bytes.len(),
        pos <= digits_end(bytes, pos) <= bytes.len(),
    decreases bytes.len() - pos,
{
    if pos < bytes.len() {
        lemma_scan_bounds(bytes, pos + 1);
    }
}

/// Every token occupies at least one byte and ends within the input.
pub proof fn lemma_lex_tok_bounds(bytes: Seq<u8>, pos: int)
    requires
        0 <= pos < bytes.len(),
    ensures
        pos < lex_tok(bytes, pos).1 <= bytes.len(),
{
    lemma_scan_bounds(bytes, pos + 1);
}

/// The token sequence of the input from `pos` on: skipped bytes produce
/// nothing, every other byte starts exactly one token.
pub open spec fn lex_from(bytes: Seq<u8>, pos: int) -> Seq<SpannedTokenV>
    decreases bytes.len() - pos,
    when 0 <= pos <= bytes.len()
    via lex_from_decreases
{
    if pos >= bytes.len() {
        Seq::empty()
    } else if is_skip_byte(bytes[pos]) {
        lex_from(bytes, pos + 1)
    } else {
        let r = lex_tok(bytes, pos);
        seq![SpannedTokenV { tok: r.0, start: pos, end: r.1 }] + lex_from(bytes, r.1)
    }
}

#[via_fn]
proof fn lex_from_decreases(bytes: Seq<u8>, pos: int) {
    if 0 <= pos < bytes.len() && !is_skip_byte(bytes[pos]) {
        lemma_lex_tok_bounds(bytes, pos);
    }
}

/// Builds a string holding exactly the given characters.
///
/// Relies on `String`'s `FromIterator` implementation over `char`: collecting
/// an iterator of characters yields the string of those characters in order.
#[verifier::external_body]
fn string_from_chars(cs: &Vec<char>) -> (r: String)
    ensures
        r@ == cs@,
{
    cs.iter().collect()
}

/// Reads the name or keyword token starting at `pos`.
fn lex_name(bytes: &[u8], pos: usize) -> (r: (Token, usize))
    requires
        pos < bytes@.len(),
        is_name_start(bytes@[pos as int]),
    ensures
        r.0.deep_view() == lex_tok(bytes@, pos as int).0,
        r.1 == lex_tok(bytes@, pos as int).1,
{
    let n = bytes.len();
    let mut e: usize = pos + 1;
    while e < n && (bytes[e] == 95 || (65 <= bytes[e] && bytes[e] <= 90) || (97
        <= bytes[e] && bytes[e] <= 122) || (48 <= bytes[e] && bytes[e] <= 57))
        invariant
            n == bytes@.len(),
            pos + 1 <= e <= bytes@.len(),
            name_end(bytes@, pos + 1) == name_end(bytes@, e as int),
        decreases bytes@.len() - e,
    {
        e = e + 1;
    }
    proof {
        assert(name_end(bytes@, e as int) == e);
    }
    if e - pos == 3 && bytes[pos] == 100 && bytes[pos + 1] == 117 && bytes[pos + 2] == 112 {
        proof {
            assert(bytes@.subrange(pos as int, e as int) =~= seq![100u8, 117u8, 112u8]);
        }
        (Token::Dup, e)
    } else if e - pos == 3 && bytes[pos] == 108 && bytes[pos + 1] == 101 && bytes[pos + 2] == 116 {
        proof {
            assert(!(bytes@.subrange(pos as int, e as int) =~= seq![100u8, 117u8, 112u8]));
            assert(bytes@.subrange(pos as int, e as int) =~= seq![108u8, 101u8, 116u8]);
        }
        (Token::Let, e)
    } else {
        proof {
            let word = bytes@.subrange(pos as int, e as int);
            if word =~= seq![100u8, 117u8, 112u8] {
                assert(e - pos == 3 && bytes@[pos as int] == 100 && bytes@[pos + 1] == 117
                    && bytes@[pos + 2] == 112);
            }
            if word =~= seq![108u8, 101u8, 116u8] {
                assert(e - pos == 3 && bytes@[pos as int] == 108 && bytes@[pos + 1] == 101
                    && bytes@[pos + 2] == 116);
            }
        }
        let mut cs: Vec<char> = Vec::new();
        let mut j: usize = pos;
        while j < e
            invariant
                pos <= j <= e <= bytes@.len(),
                cs@.len() == j - pos,
                forall|k: int| 0 <= k < cs@.len() ==> cs@[k] == (bytes@[pos + k] as char),
            decreases e - j,
        {
            cs.push(bytes[j] as char);
            j = j + 1;
        }
        let s = string_from_chars(&cs);
        proof {
            assert(s@ =~= ascii_chars(bytes@.subrange(pos as int, e as int)));
        }
        (Token::Name(s), e)
    }
}

/// Reads the number token starting at `pos`; a literal whose value does not
/// fit in 64 bits is an error token.
fn lex_number(bytes: &[u8], pos: usize) -> (r: (Token, usize))
    requires
        pos < bytes@.len(),
        is_digit(bytes@[pos as int]),
    ensures
        r.0.deep_view() == lex_tok(bytes@, pos as int).0,
        r.1 == lex_tok(bytes@, pos as int).1,
{
    let n = bytes.len();
    let mut e: usize = pos + 1;
    while e < n && 48 <= bytes[e] && bytes[e] <= 57
        invariant
            n == bytes@.len(),
            pos + 1 <= e <= bytes@.len(),
            digits_end(bytes@, pos + 1) == digits_end(bytes@, e as int),
            forall|k: int| pos <= k < e ==> is_digit(bytes@[k]),
        decreases bytes@.len() - e,
    {
        e = e + 1;
    }
    proof {
        assert(digits_end(bytes@, e as int) == e);
    }
    let mut val: u64 = 0;
    let mut over = false;
    let mut j: usize = pos;
    while j < e
        invariant
            pos <= j <= e <= bytes@.len(),
            forall|k: int| pos <= k < e ==> is_digit(bytes@[k]),
            !over ==> val == dec_val(bytes@.subrange(pos as int, j as int)),
            over ==> dec_val(bytes@.subrange(pos as int, j as int)) > u64::MAX,
        decreases e - j,
    {
        let ghost prefix = bytes@.subrange(pos as int, j as int);
        let ghost next_prefix = bytes@.subrange(pos as int, j + 1);
        proof {
            assert(next_prefix.drop_last() =~= prefix);
            assert(next_prefix.last() == bytes@[j as int]);
            assert(forall|i: int| 0 <= i < prefix.len() ==> is_digit(prefix[i]));
            lemma_dec_val_nonneg(prefix);
            assert(dec_val(next_prefix) == dec_val(prefix) * 10 + (next_prefix.last() - 48));
        }
        let d = bytes[j];
        let d_low: u64 = (d - 48) as u64;
        if !over {
            let m_opt = val.checked_mul(10);
            match m_opt {
                Some(m) => {
                    let s_opt = m.checked_add(d_low);
                    match s_opt {
                        Some(s) => {
                            val = s;
                        },
                        None => {
                            over = true;
                        },
                    }
                },
                None => {
                    over = true;
                },
            }
        }
        j = j + 1;
    }
    if over {
        (Token::Error, e)
    } else {
        (Token::Number(val), e)
    }
}

/// Reads the token starting at `pos`, which must not be a skipped byte.
fn lex_token(bytes: &[u8], pos: usize) -> (r: (Token, usize))
    requires
        pos < bytes@.len(),
        !is_skip_byte(bytes@[pos as int]),
    ensures
        r.0.deep_view() == lex_tok(bytes@, pos as int).0,
        r.1 == lex_tok(bytes@, pos as int).1,
        pos < r.1 <= bytes@.len(),
{
    proof {
        lemma_lex_tok_bounds(bytes@, pos as int);
    }
    let b = bytes[pos];
    if b == 95 || (65 <= b && b <= 90) || (97 <= b && b <= 122) {
        lex_name(bytes, pos)
    } else if 48 <= b && b <= 57 {
        lex_number(bytes, pos)
    } else if b == 92 {
        (Token::Lambda, pos + 1)
    } else if b == 0xce && pos + 1 < bytes.len() && bytes[pos + 1] == 0xbb {
        (Token::Lambda, pos + 2)
    } else if b == 40 {
        (Token::LParen, pos + 1)
    } else if b == 41 {
        (Token::RParen, pos + 1)
    } else if b == 59 {
        (Token::Semicolon, pos + 1)
    } else if b == 10 {
        (Token::NewLine, pos + 1)
    } else if b == 61 {
        if pos + 1 < bytes.len() && bytes[pos + 1] == 61 {
            (Token::Op(NumOper::Eql), pos + 2)
        } else {
            (Token::Equals, pos + 1)
        }
    } else if b == 33 {
        if pos + 1 < bytes.len() && bytes[pos + 1] == 61 {
            (Token::Op(NumOper::Neq), pos + 2)
        } else {
            (Token::Error, pos + 1)
        }
    } else if b == 60 {
        if pos + 1 < bytes.len() && bytes[pos + 1] == 60 {
            (Token::Op(NumOper::Shl), pos + 2)
        } else if pos + 1 < bytes.len() && bytes[pos + 1] == 61 {
            (Token::Op(NumOper::Lte), pos + 2)
        } else {
            (Token::Op(NumOper::Ltn), pos + 1)
        }
    } else if b == 62 {
        if pos + 1 < bytes.len() && bytes[pos + 1] == 62 {
            (Token::Op(NumOper::Shr), pos + 2)
        } else if pos + 1 < bytes.len() && bytes[pos + 1] == 61 {
            (Token::Op(NumOper::Gte), pos + 2)
        } else {
            (Token::Op(NumOper::Gtn), pos + 1)
        }
    } else if b == 43 {
        (Token::Op(NumOper::Add), pos + 1)
    } else if b == 45 {
        (Token::Op(NumOper::Sub), pos + 1)
    } else if b == 42 {
        (Token::Op(NumOper::Mul), pos + 1)
    } else if b == 47 {
        (Token::Op(NumOper::Div), pos + 1)
    } else if b == 37 {
        (Token::Op(NumOper::Mod), pos + 1)
    } else if b == 38 {
        (Token::Op(NumOper::And), pos + 1)
    } else if b == 124 {
        (Token::Op(NumOper::Or), pos + 1)
    } else if b == 94 {
        (Token::Op(NumOper::Xor), pos + 1)
    } else {
        (Token::Error, pos + 1)
    }
}

/// The value of a digit string is never negative.
pub proof fn lemma_dec_val_nonneg(digits: Seq<u8>)
    requires
        forall|i: int| 0 <= i < digits.len() ==> is_digit(digits[i]),
    ensures
        dec_val(digits) >= 0,
    decreases digits.len(),
{
    if digits.len() > 0 {
        lemma_dec_val_nonneg(digits.drop_last());
        assert(dec_val(digits.drop_last()) * 10 >= 0) by (nonlinear_arith)
            requires
                dec_val(digits.drop_last()) >= 0,
        ;
    }
}

/// Tokenizes a whole byte sequence.
pub fn tokenize(bytes: &[u8]) -> (toks: Vec<SpannedToken>)
    ensures
        toks.deep_view() == lex_from(bytes@, 0),
{
    let mut toks: Vec<SpannedToken> = Vec::new();
    let mut pos: usize = 0;
    while pos < bytes.len()
        invariant
            pos <= bytes@.len(),
            toks.deep_view() + lex_from(bytes@, pos as int) =~= lex_from(bytes@, 0),
        decreases bytes@.len() - pos,
    {
        let b = bytes[pos];
        if b == 32 || b == 9 || b == 13 {
            pos = pos + 1;
        } else {
            let ghost old_dv = toks.deep_view();
            let (tok, end) = lex_token(bytes, pos);
            let st = SpannedToken { tok, start: pos, end };
            let ghost stv = st.deep_view();
            toks.push(st);
            proof {
                assert(toks.deep_view() =~= old_dv + seq![stv]);
                assert(lex_from(bytes@, pos as int) == seq![stv] + lex_from(bytes@, end as int));
                assert(toks.deep_view() + lex_from(bytes@, end as int) =~= old_dv + lex_from(
                    bytes@,
                    pos as int,
                ));
            }
            pos = end;
        }
    }
    proof {
        assert(lex_from(bytes@, pos as int) =~= Seq::<SpannedTokenV>::empty());
        assert(toks.deep_view() =~= lex_from(bytes@, 0));
    }
    toks
}

} // verus!
