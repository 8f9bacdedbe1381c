//! The editor's own scenarios, on the library's side: the part and vehicle files, the loaded
//! library and the geometry are not part of this crate, so what is checked is what the edits
//! leave in the definition and how the model then places it.

use wmds::editor::part::new_primitive;
use wmds::editor::vehicle::{
    add_instance, add_mate, default_fastener, new_vehicle, pick_port, remove_instance, set_chassis, AssemblyDef,
    CatalogueEntry, EntryKind, JointPick, PickOutcome, PortRef,
};
use wmds::expr::lexer::UnitSymbols;
use wmds::geom::level::{level_finish, level_step, FeatureShape, LevelBodies};
use wmds::model::chassis::{chassis_exports, section_stations, SectionGrid};
use wmds::model::flatten::source_error;
use wmds::model::params::{ParamRounds, RoundStep};
use wmds::model::placement::{plan_placement, PlacedBy, PlacementMate, PlacementUnit, PortFrame};
use wmds::model::variants::{param_source, resolve_variants, ParamSource};

fn units() -> UnitSymbols {
    UnitSymbols { symbols: ["mm", "m", "kg"].iter().map(|s| s.to_string()).collect() }
}

fn battery() -> CatalogueEntry {
    CatalogueEntry {
        id: "energy/battery-pack".into(),
        kind: EntryKind::Primitive,
        category: "energy".into(),
        description: String::new(),
    }
}

fn with_chassis(id: &str) -> AssemblyDef {
    let mut def = new_vehicle(id);
    let sections = vec![("front".to_string(), "1100".to_string()), ("central".to_string(), "1900".to_string())];
    set_chassis(&mut def, "mcds-v1", "2/3-length", "narrow", "120x60", &sections);
    def
}

/// The units and joints of a vehicle whose chassis is the root, as the model sees them.
fn placement(def: &AssemblyDef) -> (Vec<PlacementUnit>, Vec<PlacementMate>) {
    let mut us = vec![PlacementUnit {
        id: "chassis".into(),
        free: None,
        ports: vec![PortFrame { name: "station_left_1".into(), aligned: false }],
    }];
    for i in &def.instances {
        us.push(PlacementUnit { id: i.id.clone(), free: None, ports: vec![PortFrame { name: "foot_1".into(), aligned: false }] });
    }
    let ms = def
        .mates
        .iter()
        .map(|m| PlacementMate {
            id: m.id.clone(),
            a: m.a.instance.clone(),
            a_port: m.a.port.clone(),
            b: m.b.instance.clone(),
            b_port: m.b.port.clone(),
            compatible: true,
        })
        .collect();
    (us, ms)
}

#[test]
fn a_vehicle_built_by_clicking_resolves_and_places() {
    let mut def = with_chassis("test/clicked");
    let id = add_instance(&mut def, &battery());

    // Before anything is bolted, the part is in the vehicle but not positioned.
    let (us, ms) = placement(&def);
    let plan = plan_placement(&Some("chassis".to_string()), &us, &ms);
    assert!(matches!(plan.placed_by[1], PlacedBy::Unreached));

    // Choose the foot, then a station it can bolt to.
    let mut pick = JointPick { a: None, b: None };
    let candidates = vec![("chassis".to_string(), "station_left_1".to_string())];
    assert_eq!(pick_port(&mut pick, &id, "foot_1", &candidates), PickOutcome::Started);
    assert_eq!(pick_port(&mut pick, "chassis", "station_left_1", &candidates), PickOutcome::Chosen);
    let (unit, port) = pick.b.clone().unwrap();
    assert_eq!(unit, "chassis", "the first thing it should fit is the chassis");

    // Bolt them together: after one joint the battery is positioned by it.
    add_mate(
        &mut def,
        PortRef { instance: unit, port },
        PortRef { instance: id.clone(), port: "foot_1".into() },
        Some(default_fastener(Some("M12"))),
    );
    let (us, ms) = placement(&def);
    let plan = plan_placement(&Some("chassis".to_string()), &us, &ms);
    assert!(matches!(&plan.placed_by[1], PlacedBy::Mate(_)), "{:?}", plan.placed_by[1]);
    assert!(plan.error.is_none());
}

#[test]
fn deleting_a_part_leaves_a_vehicle_that_still_loads() {
    let mut def = with_chassis("test/deleted");
    let id = add_instance(&mut def, &battery());
    add_mate(
        &mut def,
        PortRef { instance: "chassis".into(), port: "station_left_1".into() },
        PortRef { instance: id.clone(), port: "foot_1".into() },
        None,
    );
    assert_eq!(def.mates.len(), 1);

    remove_instance(&mut def, &id);
    assert!(def.instances.is_empty());
    assert!(def.mates.is_empty(), "the joint to the deleted part must go too");
    let prims = vec![battery().id];
    assert!(def.instances.iter().all(|i| source_error(i, &prims, &Vec::new()).is_none()));
    let (us, ms) = placement(&def);
    assert!(plan_placement(&Some("chassis".to_string()), &us, &ms).error.is_none());
}

#[test]
fn a_new_part_is_valid_and_builds_something() {
    let def = new_primitive("test/bracket", &units());
    assert_eq!(def.id, "test/bracket");
    assert_eq!(def.category, "test");
    assert_eq!(def.geometry.len(), 1);
    assert_eq!(def.geometry[0].features.len(), 1);

    // It resolves straight away: no variant to choose, every parameter from its default.
    assert!(resolve_variants(&def, &Vec::new(), &Vec::new()).unwrap().is_empty());
    for p in &def.params {
        assert!(matches!(param_source(p, &Vec::new(), &Vec::new()), Ok(ParamSource::Default)));
    }
    let mut rounds = ParamRounds::new(def.params.len());
    let mut resolved = 0;
    loop {
        match rounds.next() {
            RoundStep::Evaluate(_) => {
                resolved += 1;
                rounds.report(true);
            }
            RoundStep::Done => break,
            RoundStep::Unresolved(v) => panic!("unresolved {v:?}"),
        }
    }
    assert_eq!(resolved, 3);

    // And its one level builds a body.
    let mut bodies = LevelBodies::new();
    for f in &def.geometry[0].features {
        let shape = FeatureShape {
            op: f.op.clone(),
            name: f.name.clone(),
            args: f.args.iter().map(|(k, _)| (k.clone(), String::new())).collect(),
        };
        level_step(&mut bodies, &shape, &Vec::new()).expect("the box builds");
    }
    assert!(level_finish(&bodies, "manufacture").is_ok());
}

#[test]
fn changing_a_section_length_moves_everything_downstream() {
    // Stations are numbered from the front joint plane, which does not move: lengthening the
    // front section from 1100 mm to 1400 mm (100 mm grid) adds stations forward of it and
    // leaves every station behind it, and what it is bolted to, where it was.
    let central = |first: i32, last: i32| SectionGrid { kind: "central".into(), first, last, joints: vec!["front".into()], bays: 3 };
    let front = |first: i32| SectionGrid { kind: "front".into(), first, last: 0, joints: vec!["rear".into()], bays: 2 };
    let before = vec![front(-11), central(0, 19)];
    let after = vec![front(-14), central(0, 19)];
    assert_eq!(section_stations(&before)[1], section_stations(&after)[1]);
    let names = |s: &Vec<SectionGrid>| -> Vec<(String, String, String)> {
        chassis_exports(s).into_iter().map(|e| (e.name, e.instance, e.port)).collect()
    };
    let (b, a) = (names(&before), names(&after));
    let station_5 = |v: &Vec<(String, String, String)>| v.iter().find(|e| e.0 == "station_left_5").cloned();
    assert_eq!(station_5(&b), station_5(&a));
    assert!(station_5(&a).is_some());
    assert_eq!(section_stations(&after)[0].len(), 14);
}
