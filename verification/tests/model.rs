use wmds::model::errors::{LibraryError, MateAxis, MateError, ModelError};
use wmds::model::mates::{check_mate_types, mate_report, CompatRule, MateRule, PortTypeRules};
use wmds::model::placement::{plan_placement, PlacedBy, PlacementMate, PlacementUnit, PortFrame};

fn unit(id: &str, free: Option<&str>, ports: &[(&str, bool)]) -> PlacementUnit {
    PlacementUnit {
        id: id.into(),
        free: free.map(|s| s.to_string()),
        ports: ports.iter().map(|(n, a)| PortFrame { name: n.to_string(), aligned: *a }).collect(),
    }
}

fn mate(id: &str, a: &str, ap: &str, b: &str, bp: &str, ok: bool) -> PlacementMate {
    PlacementMate { id: id.into(), a: a.into(), a_port: ap.into(), b: b.into(), b_port: bp.into(), compatible: ok }
}

fn is_mate(p: &PlacedBy, id: &str) -> bool {
    matches!(p, PlacedBy::Mate(m) if m == id)
}

#[test]
fn parts_are_placed_outward_from_the_root_through_the_joints() {
    let units = vec![
        unit("chassis", None, &[("node", false), ("tray", false)]),
        unit("corner", None, &[("mount", false), ("hub", true)]),
        unit("wheel", None, &[("bore", false)]),
    ];
    let mates = vec![
        mate("m_wheel", "corner", "hub", "wheel", "bore", true),
        mate("m_corner", "chassis", "node", "corner", "mount", true),
    ];
    let p = plan_placement(&Some("chassis".into()), &units, &mates);
    assert!(matches!(p.placed_by[0], PlacedBy::Root));
    assert!(is_mate(&p.placed_by[1], "m_corner"));
    assert!(is_mate(&p.placed_by[2], "m_wheel"));
    assert_eq!(p.steps.len(), 2);
    assert_eq!((p.steps[0].to, p.steps[0].from, p.steps[0].mate), (1, 0, 1));
    assert_eq!(p.steps[0].from_port, "node");
    assert_eq!(p.steps[0].to_port, "mount");
    assert_eq!(p.steps[0].axis, MateAxis::Opposed);
    // The wheel is placed from the corner, whose hub mates aligned.
    assert_eq!((p.steps[1].to, p.steps[1].from), (2, 1));
    assert_eq!(p.steps[1].axis, MateAxis::Aligned);
    assert!(p.error.is_none());
    assert!(p.warning.is_none());
}

#[test]
fn without_a_named_root_the_first_part_without_a_placement_is_held() {
    let units = vec![unit("jig", Some("bench"), &[]), unit("frame", None, &[]), unit("rail", None, &[])];
    let p = plan_placement(&None, &units, &vec![]);
    assert!(matches!(&p.placed_by[0], PlacedBy::Free(w) if w == "bench"));
    assert!(matches!(p.placed_by[1], PlacedBy::Root));
    assert!(matches!(p.placed_by[2], PlacedBy::Unreached));
    assert_eq!(p.error.as_deref(), Some("not connected to the rest of the assembly, so their position is unknown: rail"));
}

#[test]
fn a_refused_joint_places_nothing() {
    let units = vec![unit("a", None, &[("p", false)]), unit("b", None, &[("q", false)])];
    let mates = vec![mate("bad", "a", "p", "b", "q", false)];
    let p = plan_placement(&Some("a".into()), &units, &mates);
    assert!(matches!(p.placed_by[1], PlacedBy::Unreached));
    assert!(p.steps.is_empty());
    assert_eq!(p.error.as_deref(), Some("not connected to the rest of the assembly, so their position is unknown: b"));
}

#[test]
fn a_joint_on_a_port_with_no_frame_places_nothing() {
    let units = vec![unit("a", None, &[("p", false)]), unit("b", None, &[])];
    let mates = vec![mate("m", "a", "p", "b", "q", true)];
    let p = plan_placement(&Some("a".into()), &units, &mates);
    assert!(matches!(p.placed_by[1], PlacedBy::Unreached));
}

#[test]
fn unreached_parts_are_listed_in_order() {
    let units = vec![unit("a", None, &[]), unit("x", None, &[]), unit("y", None, &[])];
    let p = plan_placement(&Some("a".into()), &units, &vec![]);
    assert_eq!(p.error.as_deref(), Some("not connected to the rest of the assembly, so their position is unknown: x, y"));
}

#[test]
fn repeated_joints_are_counted_once_each() {
    let units = vec![unit("a", None, &[("p", false), ("p2", false), ("p3", false)]), unit("b", None, &[("q", false), ("q2", false), ("q3", false)])];
    let mates = vec![
        mate("m1", "a", "p", "b", "q", true),
        mate("m2", "b", "q2", "a", "p2", true),
        mate("m3", "a", "p3", "b", "q3", true),
    ];
    let p = plan_placement(&Some("a".into()), &units, &mates);
    assert!(is_mate(&p.placed_by[1], "m1"));
    assert_eq!(
        p.warning.as_deref(),
        Some("2 mate(s) join a pair of parts that is already joined; positions come from the first and the rest are assumed consistent")
    );
}

#[test]
fn a_root_with_a_stated_placement_keeps_it() {
    let units = vec![unit("a", Some("on the jig"), &[])];
    let p = plan_placement(&Some("a".into()), &units, &vec![]);
    assert!(matches!(&p.placed_by[0], PlacedBy::Free(w) if w == "on the jig"));
    assert!(p.error.is_none());
}

#[test]
fn an_empty_assembly_places_nothing_and_reports_nothing() {
    let p = plan_placement(&None, &vec![], &vec![]);
    assert!(p.placed_by.is_empty() && p.steps.is_empty() && p.error.is_none() && p.warning.is_none());
}

#[test]
fn placed_by_copies() {
    let p = PlacedBy::Mate("m".into());
    assert!(is_mate(&p.copy(), "m"));
}

#[test]
fn mate_errors_read_as_sentences() {
    assert_eq!(MateError::NoSuchPort("arm".into(), "p".into()).message(), "instance `arm` has no port `p`");
    assert_eq!(MateError::UnknownPortType("weird".into()).message(), "port type `weird` is not in the registry");
    assert_eq!(
        MateError::Incompatible { a: "a.p".into(), a_type: "x".into(), b: "b.q".into(), b_type: "y".into() }.message(),
        "`a.p` (x) is not compatible with `b.q` (y)"
    );
    assert_eq!(
        MateError::ParamsDiffer { a: "a.p".into(), b: "b.q".into(), reason: "bolt".into() }.message(),
        "`a.p` and `b.q` are compatible types but their parameters do not match: bolt"
    );
    assert_eq!(MateError::MissingParam("bolt".into(), "a.p".into()).message(), "missing required port parameter `bolt` on `a.p`");
}

#[test]
fn model_errors_read_as_sentences() {
    assert_eq!(ModelError::Param("span".into(), "too big".into()).message(), "param `span`: too big");
    assert_eq!(
        ModelError::Unresolved(vec!["a".into(), "b".into()]).message(),
        "params could not be resolved (cycle or unknown name): [\"a\", \"b\"]"
    );
    assert_eq!(
        ModelError::Unresolved(vec!["a\"b".into()]).message(),
        "params could not be resolved (cycle or unknown name): [\"a\\\"b\"]"
    );
    assert_eq!(LibraryError::Missing("/lib".into()).message(), "no library found at /lib");
}

#[test]
fn a_mate_axis_defaults_to_facing() {
    assert_eq!(MateAxis::default(), MateAxis::Opposed);
}

fn registry() -> Vec<PortTypeRules> {
    vec![
        PortTypeRules {
            name: "bolt_face".into(),
            compatible: vec![
                CompatRule { other: "grid".into(), conditional: false },
                CompatRule { other: "bolt_face".into(), conditional: true },
            ],
        },
        PortTypeRules { name: "grid".into(), compatible: vec![] },
        PortTypeRules { name: "hv".into(), compatible: vec![] },
    ]
}

fn t(s: &str) -> Option<String> {
    Some(s.to_string())
}

#[test]
fn a_mate_between_incompatible_ports_is_refused() {
    let r = check_mate_types(&registry(), "battery", "foot", &t("bolt_face"), "motor", "hv_in", &t("hv"));
    let e = r.unwrap_err();
    assert!(matches!(&e, MateError::Incompatible { a, a_type, b, b_type }
        if a == "battery.foot" && a_type == "bolt_face" && b == "motor.hv_in" && b_type == "hv"));
    assert_eq!(mate_report("m1", &e), "mate `m1`: `battery.foot` (bolt_face) is not compatible with `motor.hv_in` (hv)");
}

#[test]
fn port_types_decide_what_joins() {
    let reg = registry();
    assert_eq!(check_mate_types(&reg, "a", "p", &t("bolt_face"), "b", "q", &t("grid")).unwrap(), MateRule::Always);
    assert_eq!(check_mate_types(&reg, "a", "p", &t("bolt_face"), "b", "q", &t("bolt_face")).unwrap(), MateRule::When(1));
    assert!(matches!(
        check_mate_types(&reg, "a", "p", &None, "b", "q", &t("grid")),
        Err(MateError::NoSuchPort(u, p)) if u == "a" && p == "p"
    ));
    assert!(matches!(
        check_mate_types(&reg, "a", "p", &t("bolt_face"), "b", "q", &None),
        Err(MateError::NoSuchPort(u, p)) if u == "b" && p == "q"
    ));
    assert!(matches!(
        check_mate_types(&reg, "a", "p", &t("weird"), "b", "q", &t("grid")),
        Err(MateError::UnknownPortType(x)) if x == "weird"
    ));
    assert!(matches!(
        check_mate_types(&reg, "a", "p", &t("bolt_face"), "b", "q", &t("weird")),
        Err(MateError::UnknownPortType(x)) if x == "weird"
    ));
    // A rule is one way round: the grid lists nothing, so the grid cannot start the joint.
    assert!(matches!(
        check_mate_types(&reg, "a", "p", &t("grid"), "b", "q", &t("bolt_face")),
        Err(MateError::Incompatible { .. })
    ));
}

use wmds::editor::part::{new_primitive, VariantDef};
use wmds::expr::lexer::UnitSymbols;
use wmds::model::params::{ParamRounds, RoundStep};
use wmds::model::variants::resolve_variants;

/// Run the rounds over parameters that each need the ones listed, recording what is evaluated.
fn resolve(needs: &[&[usize]]) -> (Vec<usize>, Option<Vec<usize>>) {
    let mut known = vec![false; needs.len()];
    let mut order = Vec::new();
    let mut r = ParamRounds::new(needs.len());
    loop {
        match r.next() {
            RoundStep::Evaluate(i) => {
                order.push(i);
                let ok = needs[i].iter().all(|&d| known[d]);
                if ok {
                    known[i] = true;
                }
                r.report(ok);
            }
            RoundStep::Done => return (order, None),
            RoundStep::Unresolved(v) => return (order, Some(v)),
        }
    }
}

#[test]
fn resolves_defaults_in_any_order() {
    // The test arm: leg_length = sqrt((span/2)^2 + reach^2) comes first but is derived from
    // span = 380 mm and reach = 320 mm, which follow it; tube_od = 28 mm needs nothing.
    let names = ["leg_length", "span", "reach", "tube_od"];
    let mut values: [Option<f64>; 4] = [None; 4];
    let mut order = Vec::new();
    let mut r = ParamRounds::new(names.len());
    let failed = loop {
        match r.next() {
            RoundStep::Evaluate(i) => {
                order.push(i);
                let v = match i {
                    0 => match (values[1], values[2]) {
                        (Some(span), Some(reach)) => Some(((span / 2.0).powi(2) + reach.powi(2)).sqrt()),
                        _ => None,
                    },
                    1 => Some(380.0),
                    2 => Some(320.0),
                    _ => Some(28.0),
                };
                values[i] = v;
                r.report(v.is_some());
            }
            RoundStep::Done => break None,
            RoundStep::Unresolved(v) => break Some(v),
        }
    };
    assert!(failed.is_none());
    assert_eq!(order, vec![0, 1, 2, 3, 0]);
    let ll = values[0].unwrap();
    assert!((ll - (190.0f64.powi(2) + 320.0f64.powi(2)).sqrt()).abs() < 1e-6);

    // With nothing asked of it, the arm is made in its first hand.
    let mut def = new_primitive("suspension/arms/test", &UnitSymbols { symbols: vec!["mm".to_string()] });
    def.variants.push(VariantDef {
        name: "hand".into(),
        options: vec!["left".into(), "right".into()],
        mirror_when: Some("right".into()),
        mirror_plane: "xz".into(),
    });
    let chosen = resolve_variants(&def, &Vec::new(), &Vec::new()).expect("resolves");
    assert_eq!(chosen, vec![("hand".to_string(), "left".to_string())]);
}

#[test]
fn a_cycle_is_reported_rather_than_looping() {
    // a needs b, b needs a, c needs nothing.
    let (order, failed) = resolve(&[&[1], &[0], &[]]);
    assert_eq!(order, vec![0, 1, 2, 0, 1]);
    assert_eq!(failed, Some(vec![0, 1]));
}

#[test]
fn no_parameters_resolve_at_once() {
    let (order, failed) = resolve(&[]);
    assert!(order.is_empty() && failed.is_none());
}

use wmds::model::flatten::{flatten, resolve_exports, unit_ports, ExportRef, FlatUnit};

fn corner() -> FlatUnit {
    let parts = vec![
        ("upright".to_string(), PlacedBy::Root),
        ("arm".to_string(), PlacedBy::Mate("m_arm".into())),
        ("arm".to_string(), PlacedBy::Mate("m_arm2".into())),
    ];
    let exports = vec![
        ("mount".to_string(), "upright".to_string(), "inner".to_string()),
        ("pivot".to_string(), "arm".to_string(), "bush".to_string()),
        ("gone".to_string(), "nothing".to_string(), "x".to_string()),
        ("mount".to_string(), "arm".to_string(), "outer".to_string()),
    ];
    let ports = unit_ports(&parts, &exports);
    FlatUnit { id: "corner_fl".into(), parts, ports }
}

#[test]
fn a_sub_assembly_offers_the_ports_it_exports() {
    let u = corner();
    // An export of a part that does not exist is dropped; a name given twice keeps its place
    // and takes the later part; of two parts with one id the last is meant.
    assert_eq!(
        u.ports,
        vec![("mount".to_string(), 2, "outer".to_string()), ("pivot".to_string(), 2, "bush".to_string())]
    );
}

#[test]
fn parts_are_named_through_their_sub_assembly() {
    let chassis = FlatUnit { id: "chassis".into(), parts: vec![("chassis".into(), PlacedBy::Unreached)], ports: vec![] };
    let units = vec![chassis, corner()];
    let placed = vec![PlacedBy::Root, PlacedBy::Mate("m_corner".into())];
    let flat = flatten(&units, &placed);
    let ids: Vec<&str> = flat.iter().map(|(i, _)| i.as_str()).collect();
    assert_eq!(ids, vec!["chassis", "corner_fl.upright", "corner_fl.arm", "corner_fl.arm"]);
    // A unit of one part is placed as the unit was; parts of a sub-assembly keep their own.
    assert!(matches!(flat[0].1, PlacedBy::Root));
    assert!(matches!(flat[1].1, PlacedBy::Root));
    assert!(is_mate(&flat[2].1, "m_arm"));
}

#[test]
fn exports_are_named_by_their_instances() {
    let single = FlatUnit {
        id: "battery".into(),
        parts: vec![("battery".into(), PlacedBy::Root)],
        ports: vec![("hv_out".into(), 0, "hv_out".into())],
    };
    let units = vec![single, corner()];
    let exports = vec![
        ExportRef { name: "hv".into(), instance: "battery".into(), port: "hv_out".into() },
        ExportRef { name: "pivot_fl".into(), instance: "corner_fl".into(), port: "pivot".into() },
        ExportRef { name: "bad".into(), instance: "corner_fl".into(), port: "nope".into() },
        ExportRef { name: "skipped".into(), instance: "ghost".into(), port: "p".into() },
    ];
    let (done, errors) = resolve_exports(&units, &exports);
    assert_eq!(
        done,
        vec![
            ("hv".to_string(), "battery".to_string(), "hv_out".to_string()),
            ("pivot_fl".to_string(), "corner_fl.arm".to_string(), "bush".to_string()),
        ]
    );
    assert_eq!(errors, vec!["export `bad`: `corner_fl` has no port `nope`".to_string()]);
}

use wmds::model::library::{check_id, expected_id, file_kind, summary, FileKind};

#[test]
fn definition_files_are_known_by_their_names() {
    assert_eq!(file_kind("arm.prim.kdl"), Some(FileKind::Primitive));
    assert_eq!(file_kind("corner.asm.kdl"), Some(FileKind::Assembly));
    assert_eq!(file_kind("car.veh.kdl"), Some(FileKind::Assembly));
    assert_eq!(file_kind("mcds.chassis.kdl"), Some(FileKind::Chassis));
    assert_eq!(file_kind("ports.kdl"), None);
    assert_eq!(file_kind("notes.txt"), None);
}

#[test]
fn a_definition_must_live_where_its_id_says() {
    assert_eq!(expected_id("arms\\lower.prim.kdl", ".prim.kdl"), "arms/lower");
    assert_eq!(expected_id("a.prim.kdl.prim.kdl", ".prim.kdl"), "a");
    assert_eq!(check_id("arms/lower.prim.kdl", "arms/lower", ".prim.kdl"), None);
    assert_eq!(
        check_id("arms/lower.prim.kdl", "arms/upper", ".prim.kdl").as_deref(),
        Some("declared id `arms/upper` does not match its location, which implies `arms/lower`")
    );
}

#[test]
fn a_library_says_what_it_holds() {
    assert_eq!(summary(12, 3, 1, 7), "12 primitives, 3 assemblies, 1 chassis systems, 7 port types");
}
