use wmds::model::chassis::{chassis_exports, cross_members, section_stations, SectionGrid};

fn section(kind: &str, first: i32, last: i32, joints: &[&str], bays: usize) -> SectionGrid {
    SectionGrid {
        kind: kind.into(),
        first,
        last,
        joints: joints.iter().map(|s| s.to_string()).collect(),
        bays,
    }
}

fn three() -> Vec<SectionGrid> {
    vec![
        section("front", -4, 0, &["rear"], 2),
        section("mid", 0, 6, &["front", "rear"], 3),
        section("rear", 6, 9, &["front"], 1),
    ]
}

#[test]
fn a_station_on_a_joint_plane_belongs_to_the_section_behind_it() {
    let st = section_stations(&three());
    assert_eq!(st[0], vec![-4, -3, -2, -1]);
    assert_eq!(st[1], vec![0, 1, 2, 3, 4, 5]);
    assert_eq!(st[2], vec![6, 7, 8, 9]);
}

#[test]
fn every_station_of_the_chassis_is_carried_once() {
    let st = section_stations(&three());
    for s in -4..=9 {
        let n = st.iter().filter(|row| row.contains(&s)).count();
        assert_eq!(n, 1, "station {s}");
    }
    assert!(st.iter().all(|row| !row.contains(&-5) && !row.contains(&10)));
}

#[test]
fn a_single_section_keeps_both_faces() {
    let st = section_stations(&vec![section("only", 2, 4, &[], 1)]);
    assert_eq!(st, vec![vec![2, 3, 4]]);
}

#[test]
fn no_second_cross_member_on_a_shared_joint_plane() {
    let cm = cross_members(&three());
    let got: Vec<(String, usize, usize)> = cm.iter().map(|m| (m.id.clone(), m.section, m.at)).collect();
    assert_eq!(
        got,
        vec![
            ("front_crossmember_0".to_string(), 0, 0),
            ("front_crossmember_1".to_string(), 0, 1),
            ("front_crossmember_2".to_string(), 0, 2),
            ("mid_crossmember_1".to_string(), 1, 1),
            ("mid_crossmember_2".to_string(), 1, 2),
            ("mid_crossmember_3".to_string(), 1, 3),
            ("rear_crossmember_1".to_string(), 2, 1),
        ]
    );
}

#[test]
fn the_rails_offer_their_stations_and_joints_right_then_left() {
    let ex = chassis_exports(&vec![section("front", -2, 0, &["rear"], 1), section("rear", 0, 1, &["front"], 1)]);
    let got: Vec<(String, String, String)> =
        ex.iter().map(|e| (e.name.clone(), e.instance.clone(), e.port.clone())).collect();
    let want = vec![
        ("station_right_-2", "front_rail_right", "station_-2"),
        ("station_right_-1", "front_rail_right", "station_-1"),
        ("joint_front_right_rear", "front_rail_right", "joint_rear"),
        ("station_left_-2", "front_rail_left", "station_-2"),
        ("station_left_-1", "front_rail_left", "station_-1"),
        ("joint_front_left_rear", "front_rail_left", "joint_rear"),
        ("station_right_0", "rear_rail_right", "station_0"),
        ("station_right_1", "rear_rail_right", "station_1"),
        ("joint_rear_right_front", "rear_rail_right", "joint_front"),
        ("station_left_0", "rear_rail_left", "station_0"),
        ("station_left_1", "rear_rail_left", "station_1"),
        ("joint_rear_left_front", "rear_rail_left", "joint_front"),
    ];
    let want: Vec<(String, String, String)> =
        want.into_iter().map(|(a, b, c)| (a.to_string(), b.to_string(), c.to_string())).collect();
    assert_eq!(got, want);
}

#[test]
fn a_repeated_export_name_keeps_its_first_place() {
    // Two sections of the same kind both keep their rear faces, so station 1 is offered twice;
    // the later offer takes the earlier one's place.
    let ex = chassis_exports(&vec![section("mid", 0, 1, &[], 1), section("mid", 1, 2, &[], 1)]);
    let names: Vec<&str> = ex.iter().map(|e| e.name.as_str()).collect();
    assert_eq!(
        names,
        vec!["station_right_0", "station_right_1", "station_left_0", "station_left_1", "station_right_2", "station_left_2"]
    );
}

use wmds::editor::vehicle::ChassisRef;
use wmds::model::chassis::{choose_chassis, rail_part, section_length, ChassisError, ChassisSystem};

fn system() -> ChassisSystem {
    ChassisSystem {
        id: "mcds".into(),
        configurations: vec![
            ("short".into(), vec!["front".into(), "rear".into()]),
            ("long".into(), vec!["front".into(), "mid".into(), "rear".into()]),
        ],
        widths: vec!["narrow".into(), "wide".into()],
        rail_sections: vec!["60x40".into()],
        rail: "frame/rail".into(),
    }
}

fn request(system: &str, configuration: &str, width: &str, rail: &str) -> ChassisRef {
    ChassisRef {
        id: "chassis".into(),
        system: system.into(),
        configuration: configuration.into(),
        width: width.into(),
        rail_section: rail.into(),
        section_lengths: Vec::new(),
    }
}

#[test]
fn a_chassis_request_finds_what_it_names() {
    let c = choose_chassis(&vec![system()], &request("mcds", "long", "wide", "60x40")).expect("found");
    assert_eq!((c.system, c.configuration, c.width, c.rail_section), (0, 1, 1, 0));
}

#[test]
fn a_chassis_request_naming_nothing_is_refused_in_order() {
    let s = vec![system()];
    assert!(matches!(choose_chassis(&s, &request("other", "x", "y", "z")), Err(ChassisError::UnknownSystem(n)) if n == "other"));
    assert!(matches!(
        choose_chassis(&s, &request("mcds", "x", "y", "z")),
        Err(ChassisError::UnknownConfiguration { system, name }) if system == "mcds" && name == "x"
    ));
    assert!(matches!(
        choose_chassis(&s, &request("mcds", "short", "y", "z")),
        Err(ChassisError::UnknownWidth { name, .. }) if name == "y"
    ));
    assert!(matches!(
        choose_chassis(&s, &request("mcds", "short", "narrow", "z")),
        Err(ChassisError::UnknownRailSection { name, .. }) if name == "z"
    ));
}

#[test]
fn a_section_without_a_length_and_a_missing_rail_are_reported() {
    let r = request("mcds", "short", "narrow", "60x40");
    assert!(matches!(section_length(&r, "front"), Err(ChassisError::MissingLength(k)) if k == "front"));
    assert!(rail_part(&system(), &vec!["frame/rail".to_string()]).is_ok());
    assert!(matches!(rail_part(&system(), &Vec::new()), Err(ChassisError::MissingRail(p)) if p == "frame/rail"));
}
