use wmds::crash::{is_longitudinal, Standard};
use wmds::dynamics::is_unsprung;
use wmds::geom::{kernel, take_body, BuiltGeometry, GeomError, MeshKernel};
use wmds::editor::part::replace_word;
use wmds::expr::lexer::{lex, Tok, UnitSymbols};
use wmds::text::{
    contains_text, decimal_text, join_with, less_text, parse_u32, same_text, shorten,
    split_by, split_whitespace, trim, Sep,
};

#[test]
fn a_label_is_shortened_with_an_ellipsis() {
    assert_eq!(shorten("suspension", 4), "susp…");
    assert_eq!(shorten("arm", 4), "arm");
    assert_eq!(shorten("arms", 4), "arms");
}

#[test]
fn whole_numbers_are_read_or_refused() {
    assert_eq!(parse_u32("500"), Some(500));
    assert_eq!(parse_u32("4294967295"), Some(u32::MAX));
    assert_eq!(parse_u32("4294967296"), None);
    assert_eq!(parse_u32(""), None);
    assert_eq!(parse_u32("5a"), None);
    assert_eq!(parse_u32("+5"), Some(5));
}

#[test]
fn text_is_cut_trimmed_and_joined() {
    assert_eq!(trim("  a b \t"), "a b");
    assert_eq!(split_whitespace(" a  b\tc "), vec!["a", "b", "c"]);
    assert_eq!(split_by("a/b//c", Sep::Char('/')), vec!["a", "b", "", "c"]);
    assert_eq!(join_with(&vec!["x".to_string(), "y".to_string()], ", "), "x, y");
    assert!(contains_text("front_rail_l", "rail"));
    assert!(!contains_text("front", "rail"));
    assert!(same_text("abc", "abc") && !same_text("abc", "abd"));
    assert!(less_text("abc", "abd") && less_text("ab", "abc") && !less_text("b", "a"));
    assert_eq!(decimal_text(0), "0");
    assert_eq!(decimal_text(1234), "1234");
}

#[test]
fn letters_and_digits_are_told_apart() {
    let none = UnitSymbols { symbols: vec![] };
    // Unicode letters start a name, and digits may follow in it.
    let ts = lex("écart x1 + 2", &none).unwrap();
    assert!(matches!(&ts[0], Tok::Ident(s) if s == "écart"));
    assert!(matches!(&ts[1], Tok::Ident(s) if s == "x1"));
    assert_eq!(ts.len(), 4);
    // A name is whole only up to something that is neither a letter nor a digit.
    assert_eq!(replace_word("w1 + w + w_1 + w-1", "w", "x"), "w1 + x + w_1 + x-1");
}

#[test]
fn geometry_levels_are_kept_by_name() {
    let mut g: BuiltGeometry<u32> = BuiltGeometry::new();
    assert!(g.best().is_none());
    assert_eq!(g.insert("envelope".into(), 1), None);
    assert_eq!(g.insert("display".into(), 2), None);
    assert_eq!(g.get("display"), Some(&2));
    assert_eq!(g.insert("display".into(), 3), Some(2));
    assert_eq!(g.get("display"), Some(&3));
    assert_eq!(g.get("manufacture"), None);
    assert_eq!(g.best(), Some(("display", &3)));
    g.insert("manufacture".into(), 4);
    assert_eq!(g.best(), Some(("manufacture", &4)));
}

#[test]
fn the_best_of_unknown_levels_is_the_first_by_name() {
    let mut g: BuiltGeometry<u32> = BuiltGeometry::new();
    g.insert("zeta".into(), 1);
    g.insert("alpha".into(), 2);
    assert_eq!(g.best(), Some(("alpha", &2)));
}

#[test]
fn a_named_body_is_taken_out_once() {
    let mut bodies = vec![("a".to_string(), 1u32), ("b".to_string(), 2u32), ("a".to_string(), 3u32)];
    assert_eq!(take_body(&mut bodies, "a"), Some(1));
    assert_eq!(bodies.len(), 2);
    assert_eq!(take_body(&mut bodies, "c"), None);
    assert_eq!(bodies.len(), 2);
}

#[test]
fn the_default_kernel_is_the_mesh_kernel() {
    let _k: MeshKernel = kernel();
}

#[test]
fn geometry_errors_read_as_sentences() {
    assert_eq!(GeomError::Kernel("boom".into()).message(), "kernel error: boom");
    assert_eq!(GeomError::Unsupported("fillet".into()).message(), "operation not supported by this kernel: fillet");
    assert_eq!(GeomError::Feature("hole".into(), "no size".into()).message(), "feature `hole`: no size");
    assert_eq!(GeomError::Io("disk".into()).message(), "io error: disk");
}

#[test]
fn the_standard_impacts_are_named_and_sourced() {
    let all = Standard::all();
    assert_eq!(all, [Standard::FullFrontal, Standard::OffsetFrontal, Standard::Pole]);
    assert_eq!(Standard::FullFrontal.name(), "full width rigid barrier");
    assert_eq!(Standard::OffsetFrontal.source(), "ADR 73: 64 km/h, 40 per cent overlap");
    assert_eq!(Standard::Pole.name(), "rigid pole");
}

#[test]
fn rails_crush_end_on() {
    assert!(is_longitudinal("frame/front-rail"));
    assert!(!is_longitudinal("frame/cross-member"));
}

#[test]
fn wheels_brakes_and_uprights_are_unsprung() {
    assert!(is_unsprung("wheels/15in-steel"));
    assert!(is_unsprung("braking/disc-256"));
    assert!(is_unsprung("suspension/upright-front"));
    assert!(!is_unsprung("suspension/coilover"));
    assert!(!is_unsprung("frame/wheels-guard"));
    assert!(is_unsprung("wheels"));
}

#[test]
fn renaming_a_name_and_back_restores_the_text() {
    let text = "width + w * 2 + sqrt(w_2)";
    let there = replace_word(text, "w", "depth");
    assert_eq!(there, "width + depth * 2 + sqrt(w_2)");
    assert_eq!(replace_word(&there, "depth", "w"), text);
}
