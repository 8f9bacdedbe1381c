use wmds::editor::part::{
    add_feature, add_param, add_port, axis_from, replace_word, set_feature_arg, set_port_field, set_port_param,
    set_port_type, AxisSpec, add_variant, bodies_before, feature_kind, move_feature,
    new_primitive, param_uses, port_param_start, port_type_params, remove_feature, remove_param,
    remove_port, remove_variant, set_feature_name, text_expr, unique, ParamKind, PortParamDef,
    PortTypeDef,
};
use wmds::editor::vehicle::{
    add_instance, add_mate, catalogue, default_fastener, find_port, new_vehicle, remove_instance,
    remove_mate, set_chassis, set_param, set_variant, unique_id, AssemblySummary, CatalogueEntry, EntryKind,
    LibraryIndex, PortRef, PortSlot, PrimitiveSummary, Stage, UnitPorts,
};
use wmds::expr::ast::Expr;
use wmds::expr::lexer::UnitSymbols;

fn units() -> UnitSymbols {
    UnitSymbols { symbols: ["mm", "m", "N", "kg", "kWh", "Nm"].iter().map(|s| s.to_string()).collect() }
}

fn entry(id: &str) -> CatalogueEntry {
    CatalogueEntry { id: id.into(), kind: EntryKind::Primitive, category: "test".into(), description: String::new() }
}

fn pref(i: &str, p: &str) -> PortRef {
    PortRef { instance: i.into(), port: p.into() }
}

#[test]
fn added_instances_get_readable_unique_ids() {
    let mut d = new_vehicle("test/car");
    assert_eq!(add_instance(&mut d, &entry("wheels/wheel-steel")), "wheel_steel");
    assert_eq!(add_instance(&mut d, &entry("wheels/wheel-steel")), "wheel_steel_2");
    assert_eq!(add_instance(&mut d, &entry("wheels/wheel-steel")), "wheel_steel_3");
    assert_eq!(d.instances.len(), 3);
}

#[test]
fn removing_an_instance_takes_its_mates_with_it() {
    let mut d = new_vehicle("test/car");
    let a = add_instance(&mut d, &entry("a/one"));
    let b = add_instance(&mut d, &entry("b/two"));
    add_mate(&mut d, pref(&a, "p"), pref(&b, "q"), None);
    d.root = Some(a.clone());
    assert_eq!(d.mates.len(), 1);

    let removed = remove_instance(&mut d, &a);
    assert_eq!(removed, 1);
    assert!(d.mates.is_empty(), "a dangling mate would make the file unloadable");
    assert!(d.root.is_none(), "the root must not point at something that is gone");
    assert_eq!(d.instances.len(), 1);
}

#[test]
fn parameters_can_be_set_and_cleared() {
    let mut d = new_vehicle("test/car");
    let a = add_instance(&mut d, &entry("a/one"));
    set_param(&mut d, &a, "span", Some("420 mm".into()), &units());
    let i = &d.instances[0];
    assert_eq!(i.params.len(), 1);
    assert_eq!(i.params[0].0, "span");
    assert!(matches!(&i.params[0].1, Expr::TextOr(t, _) if t == "420 mm"));

    set_param(&mut d, &a, "span", None, &units());
    assert!(d.instances[0].params.is_empty());
}

#[test]
fn a_new_vehicle_starts_empty() {
    let d = new_vehicle("test/car");
    assert_eq!(d.id, "test/car");
    assert_eq!(d.version, "0.1.0");
    assert!(d.vehicle_kind);
    assert!(d.instances.is_empty() && d.mates.is_empty() && d.root.is_none());
    let meta = d.vehicle.as_ref().unwrap();
    assert_eq!(meta.category, "MA");
    assert_eq!(meta.markets, vec!["AU".to_string()]);
}

#[test]
fn joints_are_named_after_their_ends_and_made_by_the_kit_builder() {
    let mut d = new_vehicle("test/car");
    let a = add_instance(&mut d, &entry("a/one"));
    let b = add_instance(&mut d, &entry("b/two"));
    assert_eq!(add_mate(&mut d, pref(&a, "p"), pref(&b, "q"), None), "one_two");
    assert_eq!(add_mate(&mut d, pref(&a, "r"), pref(&b, "s"), Some(default_fastener(Some("M12")))), "one_two_2");
    assert_eq!(d.mates[0].stage, Some(Stage::Kit));
    let f = d.mates[1].fasteners.as_ref().unwrap();
    assert_eq!((f.kind.as_str(), f.size.as_str(), f.grade.as_str()), ("bolt", "M12", "8.8"));
    remove_mate(&mut d, "one_two");
    assert_eq!(d.mates.len(), 1);
    assert_eq!(d.mates[0].id, "one_two_2");
}

#[test]
fn a_default_fastener_is_an_m10_unless_told() {
    assert_eq!(default_fastener(None).size, "M10");
    assert_eq!(default_fastener(Some("M8")).size, "M8");
}

#[test]
fn variants_are_recorded_on_the_instance() {
    let mut d = new_vehicle("test/car");
    let a = add_instance(&mut d, &entry("a/one"));
    set_variant(&mut d, &a, "hand", "left");
    assert_eq!(d.instances[0].variants.len(), 1);
    assert_eq!(d.instances[0].variants[0].0, "hand");
    set_variant(&mut d, &a, "hand", "right");
    assert_eq!(d.instances[0].variants.len(), 1);
}

#[test]
fn a_unique_id_skips_what_is_taken() {
    let mut d = new_vehicle("test/car");
    assert_eq!(unique_id(&d, "frame/cross-member"), "cross_member");
    add_instance(&mut d, &entry("frame/cross-member"));
    assert_eq!(unique_id(&d, "frame/cross-member"), "cross_member_2");
}

#[test]
fn unique_names_count_from_two() {
    let taken = vec!["arm".to_string(), "arm_2".to_string()];
    assert_eq!(unique("arm", &taken), "arm_3");
    assert_eq!(unique("link", &taken), "link");
}

#[test]
fn the_catalogue_is_sorted_by_category_then_id() {
    let lib = LibraryIndex {
        primitives: vec![
            PrimitiveSummary { id: "wheels/b".into(), category: "wheels".into(), description: "b".into() },
            PrimitiveSummary { id: "frame/a".into(), category: "frame".into(), description: "a".into() },
        ],
        assemblies: vec![
            AssemblySummary { id: "corner/x".into(), vehicle: false, description: "x".into() },
            AssemblySummary { id: "vehicles/car".into(), vehicle: true, description: "car".into() },
        ],
    };
    let cat = catalogue(&lib);
    let ids: Vec<&str> = cat.iter().map(|e| e.id.as_str()).collect();
    assert_eq!(cat.len(), 3);
    assert_eq!(ids[0], "corner/x");
    assert_eq!(cat[0].kind, EntryKind::Assembly);
    assert_eq!(ids[1], "frame/a");
    assert_eq!(ids[2], "wheels/b");
}

#[test]
fn a_port_is_found_by_unit_and_name() {
    let units = vec![UnitPorts {
        unit: "chassis".into(),
        ports: vec![PortSlot { name: "node_a".into(), port_type: "grid".into() }],
    }];
    assert!(find_port(&units, "chassis", "node_a").is_some());
    assert!(find_port(&units, "chassis", "node_b").is_none());
    assert!(find_port(&units, "battery", "node_a").is_none());
}

#[test]
fn a_parameter_in_use_cannot_be_deleted_by_accident() {
    let u = units();
    let mut def = new_primitive("test/bracket", &u);
    // `length` is used by the starting box.
    let err = remove_param(&mut def, "length").unwrap_err();
    assert!(err.iter().any(|u| u.contains("box")), "expected the box to be named as a user, got {err:?}");
    assert_eq!(def.params.len(), 3, "nothing should have been removed");

    // One that nothing refers to goes cleanly.
    let name = add_param(&mut def, &u);
    assert!(remove_param(&mut def, &name).is_ok());
    assert_eq!(def.params.len(), 3);
}

#[test]
fn the_uses_of_a_parameter_are_listed_once_each_in_order() {
    let u = units();
    let def = new_primitive("test/bracket", &u);
    assert_eq!(param_uses(&def, "width"), vec!["box body (size)".to_string()]);
    assert!(param_uses(&def, "nothing").is_empty());
}

#[test]
fn a_new_part_starts_from_a_box() {
    let u = units();
    let def = new_primitive("test/bracket", &u);
    assert_eq!(def.id, "test/bracket");
    assert_eq!(def.category, "test");
    assert_eq!(def.params.len(), 3);
    assert_eq!(def.geometry.len(), 1);
    assert_eq!(def.geometry[0].features.len(), 1);
    assert_eq!(def.geometry[0].features[0].op, "box");
}

#[test]
fn a_trailing_union_stays_last() {
    let u = units();
    let mut def = new_primitive("test/bracket", &u);
    add_feature(&mut def, 0, "union", &u);
    let added = add_feature(&mut def, 0, "cylinder", &u).expect("added");
    let ops: Vec<&str> = def.geometry[0].features.iter().map(|f| f.op.as_str()).collect();
    assert_eq!(ops.last(), Some(&"union"), "a bare union fuses what came before it, so it has to stay last: {ops:?}");
    assert!(added < def.geometry[0].features.len() - 1);
}

#[test]
fn an_unknown_operation_adds_nothing() {
    let u = units();
    let mut def = new_primitive("test/bracket", &u);
    assert!(add_feature(&mut def, 0, "teleport", &u).is_none());
    assert!(add_feature(&mut def, 5, "box", &u).is_none());
    assert_eq!(def.geometry[0].features.len(), 1);
    assert!(feature_kind("teleport").is_none());
    assert!(feature_kind("cylinder").is_some());
}

#[test]
fn features_can_be_renamed_moved_and_removed() {
    let u = units();
    let mut def = new_primitive("test/bracket", &u);
    let i = add_feature(&mut def, 0, "cylinder", &u).unwrap();
    assert_eq!(i, 1);
    set_feature_name(&mut def, 0, 1, "pin");
    assert_eq!(def.geometry[0].features[1].name.as_deref(), Some("pin"));
    assert_eq!(bodies_before(&def, 0, 1), vec!["body".to_string()]);
    move_feature(&mut def, 0, 1, -1);
    assert_eq!(def.geometry[0].features[0].op, "cylinder");
    remove_feature(&mut def, 0, 0);
    assert_eq!(def.geometry[0].features.len(), 1);
    assert_eq!(def.geometry[0].features[0].op, "box");
}

#[test]
fn variants_get_fresh_names_and_can_be_removed() {
    let u = units();
    let mut def = new_primitive("test/bracket", &u);
    let v1 = add_variant(&mut def);
    let v2 = add_variant(&mut def);
    assert_ne!(v1, v2);
    assert_eq!(def.variants.len(), 2);
    remove_variant(&mut def, &v1);
    assert_eq!(def.variants.len(), 1);
    assert_eq!(def.variants[0].name, v2);
}

#[test]
fn a_port_gets_the_parameters_its_type_asks_for() {
    let u = units();
    let types = vec![PortTypeDef {
        name: "bolt_face".into(),
        params: vec![
            PortParamDef { name: "bolt".into(), kind: ParamKind::Text, optional: false },
            PortParamDef { name: "pcd".into(), kind: ParamKind::Quantity("mm".into()), optional: true },
        ],
    }];
    let slots = port_type_params(&types, "bolt_face");
    assert_eq!(slots.len(), 2);
    assert!(port_type_params(&types, "missing").is_empty());
    assert_eq!(port_param_start("mm"), "50 mm");
    assert_eq!(port_param_start("kg"), "1 kg");

    let mut def = new_primitive("test/bracket", &u);
    let name = add_port(&mut def, &types, "bolt_face", &u);
    assert_eq!(def.ports.len(), 1);
    assert_eq!(def.ports[0].name, name);
    assert_eq!(def.ports[0].port_type, "bolt_face");
    remove_port(&mut def, &name);
    assert!(def.ports.is_empty());
}

#[test]
fn text_that_is_not_an_expression_stays_text() {
    let u = units();
    assert!(matches!(text_expr("420 mm", &u), Expr::TextOr(t, _) if t == "420 mm"));
    assert!(matches!(text_expr("(((", &u), Expr::Str(t) if t == "((("));
}

fn bolt_types() -> Vec<PortTypeDef> {
    vec![
        PortTypeDef {
            name: "bolt_face".into(),
            params: vec![PortParamDef { name: "bolt".into(), kind: ParamKind::Text, optional: false }],
        },
        PortTypeDef {
            name: "shaft".into(),
            params: vec![
                PortParamDef { name: "dia".into(), kind: ParamKind::Quantity("mm".into()), optional: false },
                PortParamDef { name: "spline".into(), kind: ParamKind::Text, optional: true },
            ],
        },
    ]
}

#[test]
fn a_feature_argument_is_set_from_text_and_cleared_by_blank_text() {
    let u = units();
    let mut def = new_primitive("test/bracket", &u);
    set_feature_arg(&mut def, 0, 0, "fillet", "2 mm", &u);
    let args = &def.geometry[0].features[0].args;
    assert_eq!(args.len(), 3);
    assert_eq!(args[2].0, "fillet");
    set_feature_arg(&mut def, 0, 0, "fillet", "   ", &u);
    assert_eq!(def.geometry[0].features[0].args.len(), 2);
    // Past the end of the part, nothing happens.
    set_feature_arg(&mut def, 0, 9, "fillet", "2 mm", &u);
    assert_eq!(def.geometry[0].features[0].args.len(), 2);
}

#[test]
fn a_port_is_edited_field_by_field() {
    let u = units();
    let types = bolt_types();
    let mut def = new_primitive("test/bracket", &u);
    let name = add_port(&mut def, &types, "bolt_face", &u);
    set_port_field(&mut def, &name, "name", "  mount  ", &u);
    assert_eq!(def.ports[0].name, "mount");
    set_port_field(&mut def, "mount", "axis", "-z", &u);
    assert!(matches!(&def.ports[0].axis, AxisSpec::Named(a) if a == "-z"));
    set_port_field(&mut def, "mount", "clock", "x", &u);
    assert!(matches!(&def.ports[0].clock, Some(AxisSpec::Named(a)) if a == "x"));
    set_port_field(&mut def, "mount", "clock", "", &u);
    assert!(def.ports[0].clock.is_none());
    // A name cannot be blanked.
    set_port_field(&mut def, "mount", "name", "  ", &u);
    assert_eq!(def.ports[0].name, "mount");
    set_port_param(&mut def, "mount", "bolt", "\"M12\"", &u);
    assert!(def.ports[0].params.iter().any(|(k, _)| k == "bolt"));
}

#[test]
fn retyping_a_port_keeps_what_still_applies_and_fills_what_is_required() {
    let u = units();
    let types = bolt_types();
    let mut def = new_primitive("test/bracket", &u);
    let name = add_port(&mut def, &types, "bolt_face", &u);
    set_port_type(&mut def, &types, &name, "shaft", &u);
    let p = &def.ports[0];
    assert_eq!(p.port_type, "shaft");
    let keys: Vec<&str> = p.params.iter().map(|(k, _)| k.as_str()).collect();
    // `bolt` no longer applies; `dia` is required and gets a starting value; `spline` is optional.
    assert_eq!(keys, vec!["dia"]);
}

#[test]
fn an_axis_is_named_or_computed() {
    let u = units();
    assert!(matches!(axis_from(" y ", &u), AxisSpec::Named(a) if a == "y"));
    assert!(matches!(axis_from("(1, 0, 0)", &u), AxisSpec::Expr(_)));
}

#[test]
fn a_vehicle_is_given_a_chassis_with_its_section_lengths() {
    let mut d = new_vehicle("test/car");
    let sections = vec![
        ("front".to_string(), "1100".to_string()),
        ("central".to_string(), "1900".to_string()),
        ("front".to_string(), "1200".to_string()),
    ];
    set_chassis(&mut d, "mcds-v1", "2/3-length", "narrow", "120x60", &sections);
    let c = d.chassis.as_ref().unwrap();
    assert_eq!(c.id, "chassis");
    assert_eq!(c.configuration, "2/3-length");
    assert_eq!(c.section_lengths.len(), 2);
    assert_eq!(c.section_lengths[0].0, "front");
    assert!(matches!(&c.section_lengths[0].1, Expr::TextOr(t, n) if t == "1200 mm"
        && matches!(&**n, Expr::Num(q) if q.text == "1200" && q.unit.as_deref() == Some("mm"))));
    assert!(d.instances.is_empty());
}

#[test]
fn renaming_nothing_changes_nothing() {
    assert_eq!(replace_word("abc", "", "x"), "abc");
    assert_eq!(replace_word("", "", "x"), "");
}
