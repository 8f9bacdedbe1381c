use wmds::expr::ast::{BinOp, Expr, UnOp};
use wmds::expr::error::ParseError;
use wmds::expr::lexer::{is_keyword, lex, OpTok, Tok, UnitSymbols};
use wmds::expr::parser::{describe, parse};

fn units() -> UnitSymbols {
    UnitSymbols {
        symbols: ["mm", "m", "N", "kg", "deg", "kWh", "Nm"].iter().map(|s| s.to_string()).collect(),
    }
}

fn p(src: &str) -> Expr {
    parse(src, &units()).unwrap()
}

fn is_num(e: &Expr, text: &str) -> bool {
    matches!(e, Expr::Num(n) if n.text == text && n.unit.is_none() && !n.negated)
}

#[test]
fn precedence() {
    let e = p("1 + 2 * 3 ^ 2");
    let Expr::Binary(BinOp::Add, l, r) = &e else { panic!("{e:?}") };
    assert!(is_num(l, "1"));
    let Expr::Binary(BinOp::Mul, l2, r2) = &**r else { panic!("{e:?}") };
    assert!(is_num(l2, "2"));
    let Expr::Binary(BinOp::Pow, l3, r3) = &**r2 else { panic!("{e:?}") };
    assert!(is_num(l3, "3"));
    assert!(is_num(r3, "2"));
}

#[test]
fn units_and_paths() {
    let e = p("2 * track_width - 120 mm");
    assert_eq!(e.references(), vec![&["track_width".to_string()][..]]);
    let e = p("spring.k");
    assert!(matches!(&e, Expr::Path(v) if v == &vec!["spring".to_string(), "k".to_string()]));
}

#[test]
fn tuples_calls_lambdas() {
    assert!(matches!(p("(-span/2, 0 mm, 0 mm)"), Expr::Tuple(v) if v.len() == 3));
    assert!(matches!(p("min(a, b)"), Expr::Call(n, v) if n == "min" && v.len() == 2));
    assert!(matches!(p("all(lamps, l -> l.z > 500 mm)"), Expr::Call(_, v) if matches!(v[1], Expr::Lambda(..))));
    assert!(matches!(p("l.port(\"lens\").centre"), Expr::Member(..)));
}

#[test]
fn conditionals_and_logic() {
    let e = p("if kind == \"coil\" then k else 0 N/mm");
    assert!(matches!(e, Expr::If(..)));
    let e = p("a >= 1 and b <= 2 or not c");
    assert!(matches!(e, Expr::Binary(BinOp::Or, ..)));
    assert!(matches!(p("x in [1, 2, 3]"), Expr::Binary(BinOp::In, ..)));
}

#[test]
fn unit_suffix_does_not_swallow_operands() {
    // `120 mm / 2` must be (120 mm) / 2, not 120 (mm/2).
    let e = p("120 mm / 2");
    assert!(matches!(e, Expr::Binary(BinOp::Div, ..)));
}

#[test]
fn a_unit_is_read_only_when_the_unit_system_knows_it() {
    let e = p("120 mm");
    assert!(matches!(&e, Expr::Num(n) if n.text == "120" && n.unit.as_deref() == Some("mm")));
    // `mmx` is not a unit, so it is not swallowed into the number.
    assert!(parse("120 mmx", &units()).is_err());
}

#[test]
fn negation_and_not() {
    assert!(matches!(p("-x"), Expr::Unary(UnOp::Neg, _)));
    assert!(matches!(p("not done"), Expr::Unary(UnOp::Not, _)));
    assert!(matches!(p("true"), Expr::Bool(true)));
    assert!(matches!(p("\"M12\""), Expr::Str(s) if s == "M12"));
}

#[test]
fn a_bad_number_is_reported() {
    let e = parse("1.2.3", &units()).unwrap_err();
    assert!(matches!(&e, ParseError::BadNumber(s) if s == "1.2.3"), "{e:?}");
    assert_eq!(e.message(), "bad number `1.2.3`");
}

#[test]
fn an_unterminated_string_is_reported() {
    let e = parse("\"open", &units()).unwrap_err();
    assert!(matches!(e, ParseError::UnterminatedString));
    assert_eq!(e.message(), "unterminated string");
}

#[test]
fn an_unexpected_character_is_reported() {
    let e = parse("a # b", &units()).unwrap_err();
    assert!(matches!(e, ParseError::UnexpectedChar('#')));
    assert_eq!(e.message(), "unexpected character `#`");
}

#[test]
fn an_expression_that_stops_early_is_reported() {
    let e = parse("1 +", &units()).unwrap_err();
    assert!(matches!(e, ParseError::UnexpectedEnd));
    assert_eq!(e.message(), "unexpected end of expression");
}

#[test]
fn the_lexer_splits_numbers_words_and_operators() {
    let ts = lex("a <= 2.5 mm", &units()).unwrap();
    assert_eq!(ts.len(), 3);
    assert!(matches!(&ts[0], Tok::Ident(s) if s == "a"));
    assert!(matches!(&ts[1], Tok::Op(OpTok::Le)));
    assert!(matches!(&ts[2], Tok::Num(n) if n.text == "2.5" && n.unit.as_deref() == Some("mm")));
}

#[test]
fn a_token_is_described_for_messages() {
    let ts = lex("width", &units()).unwrap();
    assert!(describe(&ts[0]).contains("width"));
}

#[test]
fn numbers_are_found_anywhere_in_a_tree() {
    assert!(p("(a, b + 2)").contains_number());
    assert!(!p("(a, b + c)").contains_number());
}

#[test]
fn references_are_listed_in_order() {
    let e = p("a.b + c * a.b");
    let r = e.references();
    assert_eq!(r.len(), 3);
    assert_eq!(r[0], &["a".to_string(), "b".to_string()][..]);
    assert_eq!(r[1], &["c".to_string()][..]);
}

#[test]
fn keywords_are_never_units() {
    assert!(is_keyword("then") && is_keyword("in") && !is_keyword("mm"));
    let u = UnitSymbols { symbols: vec!["in".to_string()] };
    // `in` is a keyword, so `2 in x` is a membership test, not two inches.
    assert!(matches!(parse("2 in x", &u).unwrap(), Expr::Binary(BinOp::In, ..)));
}

#[test]
fn a_stray_token_is_named_as_written() {
    let e = parse("a b", &units()).unwrap_err();
    assert!(matches!(&e, ParseError::UnexpectedToken(t) if t == "Ident(\"b\")"), "{e:?}");
    let e = parse("a \"x\\\\y\"", &units()).unwrap_err();
    assert!(matches!(&e, ParseError::UnexpectedToken(t) if t == "Str(\"x\\\\y\")"), "{e:?}");
}
