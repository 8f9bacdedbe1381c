use wmds::editor::part::{add_feature, move_feature, new_primitive};
use wmds::editor::vehicle::{
    add_instance, add_mate, new_vehicle, pick_port, retarget_joint, set_placement, set_root, CatalogueEntry,
    EntryKind, JointEnd, JointPick, PickOutcome, PortRef,
};
use wmds::expr::lexer::UnitSymbols;
use wmds::model::flatten::source_error;

fn units() -> UnitSymbols {
    UnitSymbols { symbols: ["mm", "m"].iter().map(|s| s.to_string()).collect() }
}

fn entry(id: &str) -> CatalogueEntry {
    CatalogueEntry { id: id.into(), kind: EntryKind::Primitive, category: "test".into(), description: String::new() }
}

fn pref(i: &str, p: &str) -> PortRef {
    PortRef { instance: i.into(), port: p.into() }
}

#[test]
fn any_part_can_be_made_the_root() {
    let mut d = new_vehicle("test/car");
    let a = add_instance(&mut d, &entry("frame/rail"));
    set_root(&mut d, &a);
    assert_eq!(d.root.as_deref(), Some("rail"));
}

#[test]
fn one_end_of_a_joint_can_be_moved() {
    let mut d = new_vehicle("test/car");
    let a = add_instance(&mut d, &entry("a/one"));
    let b = add_instance(&mut d, &entry("b/two"));
    let id = add_mate(&mut d, pref(&a, "p"), pref(&b, "q"), None);
    retarget_joint(&mut d, &id, JointEnd::B, "three", "r");
    assert_eq!(d.mates[0].a.instance, a);
    assert_eq!((d.mates[0].b.instance.as_str(), d.mates[0].b.port.as_str()), ("three", "r"));
    retarget_joint(&mut d, &id, JointEnd::A, "four", "s");
    assert_eq!((d.mates[0].a.instance.as_str(), d.mates[0].a.port.as_str()), ("four", "s"));
    // A joint that is not there changes nothing.
    retarget_joint(&mut d, "nothing", JointEnd::A, "x", "y");
    assert_eq!(d.mates[0].a.instance, "four");
}

#[test]
fn a_part_placed_by_hand_says_why_and_can_go_back_to_its_joints() {
    let mut d = new_vehicle("test/car");
    let a = add_instance(&mut d, &entry("battery/pack"));
    assert!(d.instances[0].placement.is_none());
    set_placement(&mut d, &a, Some("(1 m, 0 m, 0.2 m)".to_string()), &units());
    let p = d.instances[0].placement.as_ref().expect("placed");
    assert_eq!(p.justification, "placed by hand in the editor");
    assert!(p.rotate.is_none() && p.mirror.is_none());
    set_placement(&mut d, &a, None, &units());
    assert!(d.instances[0].placement.is_none());
}

#[test]
fn picking_ports_makes_a_joint_step_by_step() {
    let mut pick = JointPick { a: None, b: None };
    let cands = vec![("wheel".to_string(), "bore".to_string())];
    assert_eq!(pick_port(&mut pick, "corner", "hub", &cands), PickOutcome::Started);
    assert_eq!(pick.a, Some(("corner".to_string(), "hub".to_string())));
    assert_eq!(pick_port(&mut pick, "wheel", "bore", &cands), PickOutcome::Chosen);
    assert_eq!(pick.b, Some(("wheel".to_string(), "bore".to_string())));
    assert_eq!(pick_port(&mut pick, "seat", "base", &cands), PickOutcome::Restarted);
    assert_eq!(pick.a, Some(("seat".to_string(), "base".to_string())));
    assert!(pick.b.is_none());
    assert_eq!(pick_port(&mut pick, "seat", "base", &cands), PickOutcome::Cleared);
    assert!(pick.a.is_none() && pick.b.is_none());
}

#[test]
fn moving_a_feature_from_an_index_past_the_signed_range_does_nothing() {
    let u = units();
    let mut def = new_primitive("test/bracket", &u);
    add_feature(&mut def, 0, "cylinder", &u);
    let before: Vec<String> = def.geometry[0].features.iter().map(|f| f.op.clone()).collect();
    move_feature(&mut def, 0, usize::MAX, 0);
    let after: Vec<String> = def.geometry[0].features.iter().map(|f| f.op.clone()).collect();
    assert_eq!(before, after);
}

#[test]
fn an_instance_of_a_part_the_library_lacks_is_reported() {
    let mut d = new_vehicle("test/car");
    add_instance(&mut d, &entry("frame/rail"));
    let prims = vec!["frame/rail".to_string()];
    assert_eq!(source_error(&d.instances[0], &prims, &Vec::new()), None);
    assert_eq!(
        source_error(&d.instances[0], &Vec::new(), &Vec::new()).as_deref(),
        Some("instance `rail`: unknown primitive `frame/rail`")
    );
}
