use hvm_lang::{Name, NumOper, Number, Pattern, Term};

fn name(s: &str) -> Name {
    Name(String::from(s))
}

fn var(s: &str) -> Term {
    Term::Var { nam: name(s) }
}

fn num(v: u64) -> Term {
    Term::Num { val: Number(v) }
}

fn app(f: Term, a: Term) -> Term {
    Term::App { fun: Box::new(f), arg: Box::new(a) }
}

const ALL_OPS: [NumOper; 16] = [
    NumOper::Add,
    NumOper::Sub,
    NumOper::Mul,
    NumOper::Div,
    NumOper::Mod,
    NumOper::And,
    NumOper::Or,
    NumOper::Xor,
    NumOper::Shl,
    NumOper::Shr,
    NumOper::Ltn,
    NumOper::Lte,
    NumOper::Gtn,
    NumOper::Gte,
    NumOper::Eql,
    NumOper::Neq,
];

#[test]
fn opcode_round_trip_all_sixteen() {
    for op in ALL_OPS {
        let code = op.to_opcode();
        assert!(code <= 0xf);
        assert_eq!(NumOper::from_opcode(code), Some(op));
    }
}

#[test]
fn opcode_values_are_canonical() {
    assert_eq!(NumOper::Add.to_opcode(), 0x0);
    assert_eq!(NumOper::Sub.to_opcode(), 0x1);
    assert_eq!(NumOper::Mul.to_opcode(), 0x2);
    assert_eq!(NumOper::Div.to_opcode(), 0x3);
    assert_eq!(NumOper::Mod.to_opcode(), 0x4);
    assert_eq!(NumOper::Neq.to_opcode(), 0xf);
}

#[test]
fn opcode_decode_rejects_large_codes() {
    for code in 16..=255u8 {
        assert_eq!(NumOper::from_opcode(code), None);
    }
}

#[test]
fn pattern_to_term_left_folds_applications() {
    let p = Pattern::Ctr(name("Pair"), vec![Pattern::Var(name("a")), Pattern::Var(name("b"))]);
    let t = p.to_term();
    assert_eq!(t, app(app(var("Pair"), var("a")), var("b")));
}

#[test]
fn pattern_display_matches_hand_written_chain() {
    let p = Pattern::Ctr(name("Pair"), vec![Pattern::Var(name("a")), Pattern::Var(name("b"))]);
    assert_eq!(p.display_string(), "((Pair a) b)");
}

#[test]
fn pattern_display_equals_term_display() {
    let cases = vec![
        Pattern::Var(name("x")),
        Pattern::Num(Number(42)),
        Pattern::Ctr(
            name("Triple"),
            vec![
                Pattern::Var(name("a")),
                Pattern::Num(Number(7)),
                Pattern::Ctr(name("Nil"), vec![]),
            ],
        ),
    ];
    for p in cases {
        let shown = p.display_string();
        assert_eq!(shown, p.to_term().display_string());
    }
}

#[test]
fn numeric_pattern_converts_to_numeric_term() {
    let p = Pattern::Num(Number(7));
    assert_eq!(p.to_term(), num(7));
}

#[test]
fn term_display_forms() {
    let lam = Term::Lam { nam: name("x"), bod: Box::new(var("x")) };
    assert_eq!(lam.display_string(), "λx x");
    assert_eq!(app(var("f"), num(3)).display_string(), "(f 3)");
    let dup = Term::Dup {
        fst: name("a"),
        snd: name("b"),
        val: Box::new(num(5)),
        nxt: Box::new(app(var("a"), var("b"))),
    };
    assert_eq!(dup.display_string(), "dup a b = 5; (a b)");
    let op = Term::NumOp { op: NumOper::Add, fst: Box::new(num(1)), snd: Box::new(num(2)) };
    assert_eq!(op.display_string(), "(+ 1 2)");
    let sup = Term::Sup { fst: Box::new(var("a")), snd: Box::new(var("b")) };
    assert_eq!(sup.display_string(), "{a b}");
    assert_eq!(Term::Era.display_string(), "*");
}

#[test]
fn number_display_is_decimal() {
    assert_eq!(num(0).display_string(), "0");
    assert_eq!(num(9).display_string(), "9");
    assert_eq!(num(1234).display_string(), "1234");
    assert_eq!(num(u64::MAX).display_string(), "18446744073709551615");
}

#[test]
fn operator_symbols() {
    assert_eq!(NumOper::Add.symbol(), "+");
    assert_eq!(NumOper::Shl.symbol(), "<<");
    assert_eq!(NumOper::Lte.symbol(), "<=");
    assert_eq!(NumOper::Neq.symbol(), "!=");
}
