use hvm_lang::parser::parse_definition_book_with_diags;
use hvm_lang::{parse_definition_book, parse_term, DiagKind, Name, NumOper, Number, Term};

fn name(s: &str) -> Name {
    Name(String::from(s))
}

fn var(s: &str) -> Term {
    Term::Var { nam: name(s) }
}

fn num(v: u64) -> Term {
    Term::Num { val: Number(v) }
}

fn app(f: Term, a: Term) -> Term {
    Term::App { fun: Box::new(f), arg: Box::new(a) }
}

fn lam(n: &str, b: Term) -> Term {
    Term::Lam { nam: name(n), bod: Box::new(b) }
}

#[test]
fn application_is_left_associative() {
    let t = parse_term("f a b c").unwrap();
    assert_eq!(t, app(app(app(var("f"), var("a")), var("b")), var("c")));
}

#[test]
fn let_desugars_to_applied_lambda() {
    let t = parse_term("let x = 1; x").unwrap();
    assert_eq!(t, app(lam("x", var("x")), num(1)));
}

#[test]
fn numeric_operation_takes_two_items() {
    let t = parse_term("+ 1 2").unwrap();
    assert_eq!(
        t,
        Term::NumOp { op: NumOper::Add, fst: Box::new(num(1)), snd: Box::new(num(2)) }
    );
}

#[test]
fn numeric_operation_nests_through_parentheses() {
    let t = parse_term("+ 1 (+ 2 3)").unwrap();
    let inner = Term::NumOp { op: NumOper::Add, fst: Box::new(num(2)), snd: Box::new(num(3)) };
    assert_eq!(t, Term::NumOp { op: NumOper::Add, fst: Box::new(num(1)), snd: Box::new(inner) });
}

#[test]
fn lambda_parses_with_glyph_and_backslash() {
    let a = parse_term("λx x").unwrap();
    let b = parse_term("\\x x").unwrap();
    assert_eq!(a, lam("x", var("x")));
    assert_eq!(a, b);
}

#[test]
fn dup_parses_to_duplication_node() {
    let t = parse_term("dup a b = 5; (a b)").unwrap();
    assert_eq!(
        t,
        Term::Dup {
            fst: name("a"),
            snd: name("b"),
            val: Box::new(num(5)),
            nxt: Box::new(app(var("a"), var("b"))),
        }
    );
}

#[test]
fn parentheses_absorb_leading_and_trailing_newlines() {
    let t = parse_term("(\nf a\n)").unwrap();
    assert_eq!(t, app(var("f"), var("a")));
}

#[test]
fn newline_between_items_in_parentheses_is_rejected() {
    assert!(parse_term("(f\na)").is_err());
}

#[test]
fn largest_number_parses_and_overflow_is_rejected() {
    assert_eq!(parse_term("18446744073709551615").unwrap(), num(u64::MAX));
    assert!(parse_term("18446744073709551616").is_err());
}

#[test]
fn unrecognized_input_is_an_error() {
    let e = parse_term("?").unwrap_err();
    assert!(!e.is_empty());
    assert_eq!(e[0].kind, DiagKind::UnexpectedToken);
    assert_eq!((e[0].start, e[0].end), (0, 1));
}

#[test]
fn empty_term_input_is_an_error() {
    let e = parse_term("").unwrap_err();
    assert!(!e.is_empty());
    assert_eq!(e[0].kind, DiagKind::UnexpectedEnd);
}

#[test]
fn trailing_tokens_after_term_are_an_error() {
    assert!(parse_term("f a )").is_err());
}

#[test]
fn end_to_end_book() {
    let book = parse_definition_book("(Id) = λx x\n(Main) = (Id 42)").unwrap();
    assert_eq!(book.defs.len(), 2);
    assert_eq!(book.defs[0].name, name("Id"));
    assert_eq!(book.defs[0].rules.len(), 1);
    assert_eq!(book.defs[0].rules[0].name, name("Id"));
    assert!(book.defs[0].rules[0].pats.is_empty());
    assert_eq!(book.defs[0].rules[0].body, lam("x", var("x")));
    assert_eq!(book.defs[1].name, name("Main"));
    assert_eq!(book.defs[1].rules[0].body, app(var("Id"), num(42)));
}

#[test]
fn empty_source_gives_empty_book() {
    let book = parse_definition_book("").unwrap();
    assert!(book.defs.is_empty());
    let book = parse_definition_book("\n\n").unwrap();
    assert!(book.defs.is_empty());
}

#[test]
fn oversize_name_is_reported_but_short_names_still_enter_the_book() {
    let (book, diags) = parse_definition_book_with_diags("(Verylongname) = 1\n(Ok) = 2");
    assert_eq!(diags.len(), 1);
    assert_eq!(diags[0].kind, DiagKind::OversizeName(name("Verylongname")));
    assert_eq!((diags[0].start, diags[0].end), (1, 13));
    let book = book.unwrap();
    assert_eq!(book.defs.len(), 2);
    assert_eq!(book.defs[1].name, name("Ok"));
    // the strict entry point reports the same finding as a failure
    assert!(parse_definition_book("(Verylongname) = 1\n(Ok) = 2").is_err());
}

#[test]
fn eight_character_names_pass_without_diagnostics() {
    let (book, diags) = parse_definition_book_with_diags("(abcdefgh) = 1");
    assert!(diags.is_empty());
    assert_eq!(book.unwrap().defs[0].name, name("abcdefgh"));
    let (_, diags) = parse_definition_book_with_diags("(abcdefghi) = 1");
    assert_eq!(diags.len(), 1);
}

#[test]
fn adjacent_duplicate_rules_are_a_multi_rule_definition() {
    let (book, diags) = parse_definition_book_with_diags("(a) = 1\n(a) = 2\n(b) = 3");
    assert_eq!(diags.len(), 1);
    assert_eq!(diags[0].kind, DiagKind::MultipleRules(name("a")));
    assert_eq!((diags[0].start, diags[0].end), (0, 15));
    let book = book.unwrap();
    assert_eq!(book.defs.len(), 1);
    assert_eq!(book.defs[0].name, name("b"));
}

#[test]
fn non_adjacent_duplicate_is_a_repeated_definition() {
    let (book, diags) = parse_definition_book_with_diags("(a) = 1\n(b) = 2\n(a) = 3");
    assert_eq!(diags.len(), 1);
    assert_eq!(diags[0].kind, DiagKind::RepeatedDefinition(name("a")));
    assert_eq!((diags[0].start, diags[0].end), (16, 23));
    let book = book.unwrap();
    assert_eq!(book.defs.len(), 2);
    assert_eq!(book.defs[0].name, name("a"));
    assert_eq!(book.defs[0].rules[0].body, num(1));
    assert_eq!(book.defs[1].name, name("b"));
}

#[test]
fn rules_must_be_separated_by_newlines() {
    assert!(parse_definition_book("(a) = 1 (b) = 2").is_err());
}

#[test]
fn book_display_round_trips_to_source_syntax() {
    let book = parse_definition_book("(Id) = λx x\n(Main) = (Id 42)").unwrap();
    assert_eq!(book.display_string(), "(Id) = λx x\n\n(Main) = (Id 42)\n");
}

#[test]
fn diagnostic_messages_name_the_offender() {
    let (_, diags) = parse_definition_book_with_diags("(a) = 1\n(b) = 2\n(a) = 3");
    assert_eq!(diags[0].message(), "repeated definition 'a'");
    let (_, diags) = parse_definition_book_with_diags("(a) = 1\n(a) = 2");
    assert_eq!(diags[0].message(), "definition with multiple rules 'a'");
    let (_, diags) = parse_definition_book_with_diags("(Verylongname) = 1");
    assert_eq!(diags[0].message(), "'Verylongname' exceeds maximum name length of 8");
    let e = parse_term("").unwrap_err();
    assert_eq!(e[0].message(), "unexpected end of input");
}

#[test]
fn syntax_error_in_rule_body_fails_the_parse() {
    let (book, diags) = parse_definition_book_with_diags("(a) = λ");
    assert!(book.is_none());
    assert!(!diags.is_empty());
}

#[test]
fn lambda_body_extends_over_following_items() {
    let t = parse_term("λx x y").unwrap();
    assert_eq!(t, lam("x", app(var("x"), var("y"))));
}

#[test]
fn newlines_are_allowed_after_dup_semicolon_and_rule_equals() {
    let t = parse_term("dup a b = 5;\n(a b)").unwrap();
    assert_eq!(
        t,
        Term::Dup {
            fst: name("a"),
            snd: name("b"),
            val: Box::new(num(5)),
            nxt: Box::new(app(var("a"), var("b"))),
        }
    );
    let book = parse_definition_book("(a) =\n1").unwrap();
    assert_eq!(book.defs[0].rules[0].body, num(1));
}

#[test]
fn leading_and_trailing_newlines_around_rules_are_allowed() {
    let book = parse_definition_book("\n\n(a) = 1\n\n\n(b) = 2\n\n").unwrap();
    assert_eq!(book.defs.len(), 2);
}
