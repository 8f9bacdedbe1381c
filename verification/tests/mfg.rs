use wmds::mfg::bom::scale_covers;
use wmds::mfg::steps::{assembly_steps, expand, position_word, readable, segment, Assembly, Fixing, Joint, Placed, StepKind};
use wmds::model::placement::PlacedBy;

fn placed(id: &str, by: PlacedBy) -> Placed {
    Placed { id: id.into(), placed_by: by }
}

fn joint(id: &str, unit: Option<&str>, a: &str, ap: &str, b: &str, bp: &str, factory: bool, f: Option<Fixing>) -> Joint {
    Joint {
        id: id.into(),
        unit: unit.map(|u| u.to_string()),
        a: a.into(),
        a_port: ap.into(),
        b: b.into(),
        b_port: bp.into(),
        factory,
        fasteners: f,
    }
}

fn bolts(n: u32, size: &str, nut: Option<&str>, torque: Option<&str>) -> Fixing {
    Fixing {
        quantity: n,
        kind: "bolt".into(),
        size: size.into(),
        grade: "8.8".into(),
        nut: nut.map(|s| s.to_string()),
        washer: None,
        thread_locker: None,
        torque: torque.map(|s| s.to_string()),
    }
}

fn vehicle() -> Assembly {
    Assembly {
        mateable: vec![
            placed("chassis", PlacedBy::Root),
            placed("corner_fl", PlacedBy::Mate("m_corner".into())),
            placed("battery", PlacedBy::Mate("m_bat".into())),
        ],
        instances: vec![
            placed("chassis", PlacedBy::Root),
            placed("corner_fl.upright", PlacedBy::Root),
            placed("corner_fl.arm", PlacedBy::Mate("m_arm".into())),
            placed("battery", PlacedBy::Mate("m_bat".into())),
        ],
        mates: vec![
            joint("m_corner", None, "chassis", "node_fl", "corner_fl", "mount", false, Some(bolts(4, "M12", Some("nyloc"), Some("80 Nm")))),
            joint("m_arm", Some("corner_fl"), "corner_fl.upright", "lower", "corner_fl.arm", "outer", false, None),
            joint("m_bat", None, "chassis", "tray", "battery", "feet", true, None),
            joint("m_brace", None, "chassis", "brace", "corner_fl", "brace", false, Some(bolts(2, "M8", None, None))),
        ],
    }
}

#[test]
fn sub_assemblies_are_built_before_they_are_fitted() {
    let steps = assembly_steps(&vehicle());
    let corner_fitted = steps.iter().position(|s| s.mate.as_deref() == Some("m_corner")).unwrap();
    let corner_built = steps.iter().position(|s| s.mate.as_deref() == Some("m_arm")).unwrap();
    assert!(corner_built < corner_fitted);
    assert_eq!(steps[0].text, "Build the front left corner");
    assert_eq!(steps[0].group.as_deref(), Some("corner_fl"));
}

#[test]
fn every_joint_becomes_exactly_one_step() {
    let steps = assembly_steps(&vehicle());
    for m in ["m_corner", "m_arm", "m_bat", "m_brace"] {
        assert_eq!(steps.iter().filter(|s| s.mate.as_deref() == Some(m)).count(), 1, "{m}");
    }
}

#[test]
fn the_steps_are_numbered_from_one() {
    let steps = assembly_steps(&vehicle());
    assert_eq!(steps.len(), 8);
    for (i, s) in steps.iter().enumerate() {
        assert_eq!(s.number, i + 1);
    }
}

#[test]
fn the_instructions_read_as_written() {
    let steps = assembly_steps(&vehicle());
    let texts: Vec<&str> = steps.iter().map(|s| s.text.as_str()).collect();
    assert_eq!(
        texts,
        vec![
            "Build the front left corner",
            "Lay out front left corner upright to build on.",
            "Fit front left corner arm to front left corner upright at lower.",
            "Put it together",
            "Lay out chassis to build on.",
            "Fit front left corner to chassis at node_fl.",
            "battery comes already fitted to chassis.",
            "Also bolt front left corner at brace to chassis at brace. It should line up without forcing.",
        ]
    );
    let kinds: Vec<StepKind> = steps.iter().map(|s| s.kind).collect();
    assert_eq!(
        kinds,
        vec![
            StepKind::Start,
            StepKind::Start,
            StepKind::Join,
            StepKind::Start,
            StepKind::Start,
            StepKind::Join,
            StepKind::Supplied,
            StepKind::AlsoBolt,
        ]
    );
    assert_eq!(steps[5].fastener.as_deref(), Some("4 x bolt M12 8.8, nyloc nut"));
    assert_eq!(steps[5].torque.as_deref(), Some("80 Nm"));
    assert_eq!(steps[5].warning, None);
    assert_eq!(steps[2].warning.as_deref(), Some("This joint has no fastener specified."));
    assert_eq!(steps[6].warning, None);
    assert_eq!(steps[7].fastener.as_deref(), Some("2 x bolt M8 8.8"));
    assert_eq!(steps[7].warning.as_deref(), Some("No torque figure for the M8 bolt."));
}

#[test]
fn no_step_asks_for_something_that_is_not_there_yet() {
    let steps = assembly_steps(&vehicle());
    let mut there: Vec<String> = vec!["chassis".into(), "corner_fl.upright".into()];
    let model = vehicle();
    for s in &steps {
        if let Some(m) = &s.mate {
            let j = model.mates.iter().find(|j| &j.id == m).unwrap();
            assert!(there.contains(&j.a) || there.contains(&j.b), "{m} came before either end was there");
            there.push(j.a.clone());
            there.push(j.b.clone());
        }
    }
}

#[test]
fn a_joint_that_cannot_be_ordered_is_kept_and_flagged() {
    let model = Assembly {
        mateable: vec![placed("x", PlacedBy::Unreached), placed("y", PlacedBy::Unreached)],
        instances: vec![],
        mates: vec![joint("m", None, "x", "p", "y", "q", false, Some(bolts(1, "M6", None, Some("10 Nm"))))],
    };
    let steps = assembly_steps(&model);
    assert_eq!(steps.len(), 2);
    assert_eq!(steps[1].kind, StepKind::AlsoBolt);
    assert_eq!(
        steps[1].warning.as_deref(),
        Some("This joint could not be placed in a build order, which usually means neither end is reachable from the part you started with.")
    );
}

#[test]
fn no_joints_means_no_steps() {
    let model = Assembly { mateable: vec![placed("x", PlacedBy::Root)], instances: vec![], mates: vec![] };
    assert!(assembly_steps(&model).is_empty());
}

#[test]
fn words_and_positions_are_spelled_out() {
    assert_eq!(position_word("fl"), Some("front left"));
    assert_eq!(position_word("arm"), None);
    assert_eq!(expand("lca"), "lower control arm");
    assert_eq!(expand("arm"), "arm");
    assert_eq!(segment("tie_rod_l"), "left tie rod");
    assert_eq!(readable("hv_cable"), "high voltage cable");
}

#[test]
fn a_scale_range_is_forgiving_about_what_it_cannot_read() {
    assert!(scale_covers(Some("any"), 7));
    assert!(scale_covers(Some(" 5 .. 10 "), 7));
    assert!(!scale_covers(Some(" 5 .. 10 "), 11));
    // An unreadable lower bound counts from zero; an unreadable upper bound is open.
    assert!(scale_covers(Some("x..10"), 0));
    assert!(scale_covers(Some("5..y"), 4_000_000_000));
    assert!(scale_covers(Some("5.."), 5));
}
