use wmds::mfg::bom::{bill_of_materials, cut_list, BomPart, CutPiece};
use wmds::mfg::fasteners::{fasteners, FastenerUse};
use wmds::mfg::markdown::{fitted_by, fittings_text, hands_on_steps, hands_text, write_assembly, write_assembly_text};
use wmds::mfg::steps::{Step, StepKind};

fn bolt(joint: &str, size: &str, n: u32, torque: &str, kit: bool) -> FastenerUse {
    FastenerUse {
        joint: joint.into(),
        kind: "bolt".into(),
        size: size.into(),
        grade: "8.8".into(),
        quantity: n,
        torque: torque.into(),
        nut: Some("nyloc".into()),
        washer: None,
        thread_locker: None,
        kit,
    }
}

#[test]
fn the_fastener_schedule_counts_every_bolt_including_the_ones_inside_corners() {
    // Two corners each bolted with four M12s inside the corner, and the corners bolted to the
    // chassis with six more each.
    let uses = vec![
        bolt("corner_fl.upright_arm", "M12", 4, "80.0", false),
        bolt("corner_fr.upright_arm", "M12", 4, "80.0", false),
        bolt("chassis_corner_fl", "M12", 6, "80.0", true),
        bolt("chassis_corner_fr", "M12", 6, "80.0", true),
        bolt("battery_tray", "M8", 4, "", true),
    ];
    let lines = fasteners(&uses);
    let total: u32 = lines.iter().map(|l| l.quantity).sum();
    assert_eq!(total, 24);
    assert_eq!(lines.len(), 2);
    // In the order of kind, size and grade: M12 before M8 as text.
    assert_eq!(lines[0].size, "M12");
    assert_eq!(lines[0].quantity, 20);
    assert!(lines[0].kit);
    assert_eq!(lines[0].joints.len(), 4);
    assert_eq!(lines[0].first, 0);
    assert_eq!(lines[0].nut.as_deref(), Some("nyloc"));
    assert_eq!(lines[1].size, "M8");
    assert_eq!(lines[1].quantity, 4);
    assert_eq!(lines[1].first, 4);
}

#[test]
fn two_torques_are_two_lines() {
    let uses = vec![bolt("a", "M12", 2, "80.0", false), bolt("b", "M12", 2, "60.0", false)];
    let lines = fasteners(&uses);
    assert_eq!(lines.len(), 2);
    // Equal kind, size and grade keep the order they were met in.
    assert_eq!(lines[0].first, 0);
    assert_eq!(lines[1].first, 1);
    assert!(!lines[0].kit);
}

fn part(source: &str, config: &[(&str, &str)], hands: &[&str]) -> BomPart {
    BomPart {
        source_id: source.into(),
        config: config.iter().map(|(k, v)| (k.to_string(), v.to_string())).collect(),
        hands: hands.iter().map(|h| h.to_string()).collect(),
        material: Some("steel".into()),
    }
}

#[test]
fn every_part_in_the_vehicle_reaches_the_bill_of_materials() {
    let parts = vec![
        part("wheels/wheel", &[("od", "600 mm")], &[]),
        part("arms/lower", &[("length", "320 mm")], &["left"]),
        part("arms/lower", &[("length", "320 mm")], &["right"]),
        part("arms/lower", &[("length", "320 mm")], &["left"]),
        part("arms/lower", &[("length", "350 mm")], &["right"]),
        part("wheels/wheel", &[("od", "600 mm")], &[]),
    ];
    let bill = bill_of_materials(&parts);
    let total: usize = bill.iter().map(|l| l.quantity).sum();
    assert_eq!(total, parts.len());
    assert_eq!(bill.len(), 3);
    // By part id; the two arm lengths are two different things to make.
    assert_eq!(bill[0].source_id, "arms/lower");
    assert_eq!(bill[0].quantity, 3);
    assert_eq!(bill[0].variants, vec![("left".to_string(), 2), ("right".to_string(), 1)]);
    assert_eq!(bill[0].first, 1);
    assert_eq!(bill[1].source_id, "arms/lower");
    assert_eq!(bill[1].quantity, 1);
    assert_eq!(bill[2].source_id, "wheels/wheel");
    assert_eq!(bill[2].quantity, 2);
    assert!(bill[2].variants.is_empty());
    assert_eq!(bill[2].material.as_deref(), Some("steel"));
}

#[test]
fn handed_parts_with_two_options_are_listed_together() {
    let parts = vec![part("a", &[], &["left", "front"]), part("a", &[], &["left", "front"])];
    let bill = bill_of_materials(&parts);
    assert_eq!(bill.len(), 1);
    assert_eq!(bill[0].variants, vec![("left front".to_string(), 2)]);
}

fn piece(source: &str, body: &str, section: &str, length: &str) -> CutPiece {
    CutPiece { source_id: source.into(), body: body.into(), section: section.into(), length: length.into(), material: None }
}

#[test]
fn the_cut_list_counts_and_orders_its_pieces() {
    let pieces = vec![
        piece("frame/rail", "rail", "round 40 x 2.0 wall", "1.2000"),
        piece("frame/cross", "tube", "box 40 x 40 x 2.0 wall", "0.8000"),
        piece("frame/rail", "rail", "round 40 x 2.0 wall", "1.2000"),
        piece("frame/rail", "rail", "round 40 x 2.0 wall", "1.1000"),
    ];
    let cuts = cut_list(&pieces);
    let total: usize = cuts.iter().map(|c| c.quantity).sum();
    assert_eq!(total, 4);
    assert_eq!(cuts.len(), 3);
    assert_eq!(cuts[0].section, "box 40 x 40 x 2.0 wall");
    assert_eq!(cuts[1].quantity, 2);
    assert_eq!(cuts[1].first, 0);
    assert_eq!(cuts[2].first, 3);
}

fn step(n: usize, group: Option<&str>, kind: StepKind, text: &str) -> Step {
    Step {
        number: n,
        group: group.map(|g| g.to_string()),
        kind,
        text: text.into(),
        fastener: None,
        torque: None,
        mate: None,
        warning: None,
    }
}

#[test]
fn the_pack_renders_without_losing_anything() {
    let mut steps = vec![
        step(1, Some("corner_fl"), StepKind::Start, "Build the front left corner"),
        step(2, Some("corner_fl"), StepKind::Start, "Lay out upright to build on."),
        step(3, Some("corner_fl"), StepKind::Join, "Fit arm to upright at lower."),
        step(4, None, StepKind::Start, "Put it together"),
        step(5, None, StepKind::AlsoBolt, "Also bolt arm at a to chassis at b."),
        step(6, None, StepKind::Supplied, "battery comes already fitted to chassis."),
    ];
    steps[2].fastener = Some("4 x bolt M12 8.8".into());
    steps[2].torque = Some("80 Nm".into());
    steps[4].warning = Some("No torque figure for the M8 bolt.".into());
    let text = write_assembly(&steps);
    for s in &steps {
        assert!(text.contains(&s.text), "{} is missing", s.text);
    }
    assert_eq!(
        text,
        "\n## Assembly\n\nFollow these in order. Each step only asks for parts that are already in front of you.\n\
         \n### Build the front left corner\n\n\
         2. Lay out upright to build on.\n\
         3. Fit arm to upright at lower. Use 4 x bolt M12 8.8. Tighten to 80 Nm.\n\
         \n### Put it together\n\n\
         5. Also bolt arm at a to chassis at b.\n   - No torque figure for the M8 bolt.\n\
         6. battery comes already fitted to chassis.\n"
    );
    assert_eq!(hands_on_steps(&steps), 2);
}

#[test]
fn the_terminal_form_aligns_the_numbers() {
    let mut steps = vec![
        step(1, None, StepKind::Start, "Put it together"),
        step(2, None, StepKind::Join, "Fit arm to upright at lower."),
        step(12, None, StepKind::Join, "Fit wheel to hub at face."),
    ];
    steps[1].mate = Some("m1".into());
    steps[2].mate = Some("m2".into());
    steps[2].torque = Some("110 Nm".into());
    steps[2].warning = Some("Check the wheel nuts after 50 km.".into());
    assert_eq!(
        write_assembly_text(&steps),
        "\nassembly\n\n  Put it together\n    2. Fit arm to upright at lower.\n   12. Fit wheel to hub at face. Tighten to 110 Nm.\n       ! Check the wheel nuts after 50 km.\n"
    );
}

#[test]
fn the_tables_say_what_things_are_fitted_with() {
    let parts = vec![part("a", &[], &["left"]), part("a", &[], &["right"]), part("a", &[], &["left"]), part("b", &[], &[])];
    let bill = bill_of_materials(&parts);
    assert_eq!(hands_text(&bill[0]), "2 left, 1 right");
    assert_eq!(hands_text(&bill[1]), "-");

    let mut uses = vec![bolt("a", "M12", 2, "80.0", true)];
    uses[0].washer = Some("spring".into());
    let lines = fasteners(&uses);
    assert_eq!(fittings_text(&lines[0]), "nyloc nut, spring washer");
    assert_eq!(fitted_by(&lines[0]), "you");
    let mut bare = vec![bolt("b", "M6", 1, "", false)];
    bare[0].nut = None;
    let lines = fasteners(&bare);
    assert_eq!(fittings_text(&lines[0]), "-");
    assert_eq!(fitted_by(&lines[0]), "the factory");
}
