use wmds::geom::level::{level_finish, level_step, Combine, FeatureShape, LevelAct, LevelBodies, Plane};
use wmds::geom::GeomError;

fn feat(op: &str, name: Option<&str>, args: &[(&str, &str)]) -> FeatureShape {
    FeatureShape {
        op: op.into(),
        name: name.map(|s| s.to_string()),
        args: args.iter().map(|(k, v)| (k.to_string(), v.to_string())).collect(),
    }
}

fn fault(r: Result<LevelAct, GeomError>) -> (String, String) {
    match r {
        Err(GeomError::Feature(f, m)) => (f, m),
        other => panic!("expected a feature error, got {other:?}"),
    }
}

#[test]
fn unnamed_bodies_are_numbered_and_booleans_take_them_by_name() {
    let mut b = LevelBodies::new();
    let none = Vec::new();
    assert!(matches!(level_step(&mut b, &feat("box", None, &[("size", "(1,1,1)")]), &none), Ok(LevelAct::Make { name }) if name == "body1"));
    assert!(matches!(level_step(&mut b, &feat("cylinder", Some("bore"), &[]), &none), Ok(LevelAct::Make { name }) if name == "bore"));
    assert!(matches!(level_step(&mut b, &feat("tube", None, &[]), &none), Ok(LevelAct::Make { name }) if name == "body2"));
    match level_step(&mut b, &feat("subtract", Some("plate"), &[("a", "body1"), ("b", "bore")]), &none) {
        Ok(LevelAct::Combine { op, a, b: second, name }) => {
            assert_eq!((op, a, second, name.as_str()), (Combine::Subtract, 0, 0, "plate"));
        }
        other => panic!("{other:?}"),
    }
    assert_eq!(b.names, vec!["body2".to_string(), "plate".to_string()]);
    match level_step(&mut b, &feat("mirror", None, &[("of", "plate"), ("plane", "yz")]), &none) {
        Ok(LevelAct::Mirror { of, plane, name }) => assert_eq!((of, plane, name.as_str()), (1, Plane::YZ, "body3")),
        other => panic!("{other:?}"),
    }
    assert!(matches!(level_step(&mut b, &feat("union", None, &[]), &none), Ok(LevelAct::FuseAll)));
    assert_eq!(b.names, vec!["result".to_string()]);
    assert!(level_finish(&b, "manufacture").is_ok());
}

#[test]
fn what_is_wrong_with_a_feature_is_reported_by_its_label() {
    let mut b = LevelBodies::new();
    let none = Vec::new();
    assert_eq!(fault(level_step(&mut b, &feat("union", None, &[]), &none)).1, "union with nothing built yet");
    assert_eq!(fault(level_step(&mut b, &feat("subtract", None, &[]), &none)).1, "subtract needs a=X b=Y");
    level_step(&mut b, &feat("box", Some("a"), &[]), &none).unwrap();
    assert_eq!(fault(level_step(&mut b, &feat("intersect", Some("x"), &[("a", "a")]), &none)), ("x".to_string(), "intersect needs b=".to_string()));
    assert_eq!(fault(level_step(&mut b, &feat("union", Some("x"), &[("a", "a"), ("b", "a")]), &none)).1, "no body named `a`");
    assert_eq!(b.names, vec!["a".to_string()], "a refused feature leaves the bodies as they were");
    assert_eq!(fault(level_step(&mut b, &feat("mirror", None, &[]), &none)).1, "mirror needs of=");
    assert_eq!(fault(level_step(&mut b, &feat("mirror", None, &[("of", "a"), ("plane", "ab")]), &none)).1, "unknown mirror plane `ab`");
    assert_eq!(fault(level_step(&mut b, &feat("hull", None, &[]), &none)).1, "hull needs a manufacture or display level built first");
    assert_eq!(fault(level_step(&mut b, &feat("fillet", None, &[]), &none)), ("fillet".to_string(), "unknown geometry feature `fillet`".to_string()));
    assert!(matches!(level_step(&mut b, &feat("hull", None, &[]), &vec!["display".to_string()]), Ok(LevelAct::Hull { manufacture: false, .. })));
    match level_finish(&LevelBodies::new(), "envelope") {
        Err(GeomError::Feature(l, m)) => assert_eq!((l.as_str(), m.as_str()), ("envelope", "level produced no geometry")),
        other => panic!("{other:?}"),
    }
}
