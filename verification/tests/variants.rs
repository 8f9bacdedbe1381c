use wmds::editor::part::{add_variant, new_primitive};
use wmds::expr::lexer::UnitSymbols;
use wmds::model::errors::ModelError;
use wmds::model::variants::resolve_variants;

fn units() -> UnitSymbols {
    UnitSymbols { symbols: ["mm", "m", "N", "kg"].iter().map(|s| s.to_string()).collect() }
}

fn ask(pairs: &[(&str, &str)]) -> Vec<(String, String)> {
    pairs.iter().map(|(a, b)| (a.to_string(), b.to_string())).collect()
}

fn handed() -> wmds::editor::part::PrimitiveDef {
    let mut def = new_primitive("test/bracket", &units());
    let name = add_variant(&mut def);
    assert_eq!(name, "side");
    def
}

#[test]
fn a_variant_not_asked_for_takes_its_first_option() {
    let def = handed();
    let t = resolve_variants(&def, &Vec::new(), &Vec::new()).expect("resolves");
    assert_eq!(t, ask(&[("side", "left")]));
}

#[test]
fn the_option_asked_for_is_taken() {
    let def = handed();
    let t = resolve_variants(&def, &ask(&[("side", "right")]), &Vec::new()).expect("resolves");
    assert_eq!(t, ask(&[("side", "right")]));
}

#[test]
fn an_option_the_variant_does_not_have_is_refused() {
    let def = handed();
    match resolve_variants(&def, &ask(&[("side", "up")]), &Vec::new()) {
        Err(ModelError::BadVariantOption(v, o)) => {
            assert_eq!(v, "side");
            assert_eq!(o, "up");
        }
        other => panic!("expected a refused option, got {other:?}"),
    }
}

#[test]
fn a_request_naming_nothing_is_refused() {
    let def = handed();
    match resolve_variants(&def, &ask(&[("colour", "red")]), &Vec::new()) {
        Err(ModelError::UnknownVariant(v)) => assert_eq!(v, "colour"),
        other => panic!("expected an unknown variant, got {other:?}"),
    }
}

#[test]
fn a_text_request_may_name_a_parameter() {
    let def = handed();
    let t = resolve_variants(&def, &ask(&[("length", "long")]), &Vec::new()).expect("resolves");
    assert_eq!(t, ask(&[("side", "left")]));
}

#[test]
fn a_value_for_a_missing_parameter_is_refused() {
    let def = handed();
    let keys = vec!["width".to_string(), "depth".to_string()];
    match resolve_variants(&def, &Vec::new(), &keys) {
        Err(ModelError::Param(p, why)) => {
            assert_eq!(p, "depth");
            assert_eq!(why, "no such parameter");
        }
        other => panic!("expected a missing parameter, got {other:?}"),
    }
    assert!(resolve_variants(&def, &Vec::new(), &vec!["width".to_string()]).is_ok());
}

#[test]
fn a_refused_option_is_reported_before_an_unknown_name() {
    let def = handed();
    match resolve_variants(&def, &ask(&[("colour", "red"), ("side", "up")]), &vec!["depth".to_string()]) {
        Err(ModelError::BadVariantOption(v, _)) => assert_eq!(v, "side"),
        other => panic!("expected a refused option, got {other:?}"),
    }
}

#[test]
fn a_part_without_variants_chooses_nothing() {
    let def = new_primitive("test/plate", &units());
    let t = resolve_variants(&def, &Vec::new(), &Vec::new()).expect("resolves");
    assert!(t.is_empty());
}

use wmds::model::variants::{param_source, ParamSource};

#[test]
fn a_derived_parameter_cannot_be_overridden() {
    let mut def = handed();
    def.params[0].expr = def.params[0].default.take();
    let p = &def.params[0];
    match param_source(p, &vec![p.name.clone()], &Vec::new()) {
        Err(ModelError::Param(n, why)) => {
            assert_eq!(n, p.name);
            assert_eq!(why, "derived parameters (expr=) cannot be overridden");
        }
        other => panic!("expected a refusal, got {other:?}"),
    }
    assert!(matches!(param_source(p, &Vec::new(), &Vec::new()), Ok(ParamSource::Derived)));
}

#[test]
fn a_parameter_takes_a_given_value_then_a_text_then_its_default() {
    let def = handed();
    let p = &def.params[1];
    let keys = vec!["other".to_string(), p.name.clone()];
    assert!(matches!(param_source(p, &keys, &Vec::new()), Ok(ParamSource::Given(1))));
    let rq = ask(&[(p.name.as_str(), "wide")]);
    assert!(matches!(param_source(p, &Vec::new(), &rq), Ok(ParamSource::Text(t)) if t == "wide"));
    assert!(matches!(param_source(p, &Vec::new(), &Vec::new()), Ok(ParamSource::Default)));
}
