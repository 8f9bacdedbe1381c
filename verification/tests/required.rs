use wmds::editor::part::replace_word;
use wmds::mfg::bom::scale_covers;
use wmds::mfg::steps::readable;

#[test]
fn renaming_does_not_corrupt_a_longer_name_that_contains_it() {
    // Renaming `w` must not turn `width` into `spanidth`.
    assert_eq!(replace_word("w * width + w", "w", "span"), "span * width + span");
    assert_eq!(replace_word("(w, h, d)", "w", "wide"), "(wide, h, d)");
}

#[test]
fn identifiers_are_turned_into_english() {
    assert_eq!(readable("corner_fl.lower_arm"), "front left corner lower arm");
    assert_eq!(readable("battery"), "battery");
    assert_eq!(readable("tie_rod_l"), "left tie rod");
    assert_eq!(readable("bracket_upper_front"), "upper front bracket");
    assert_eq!(readable("master_cylinder"), "master cylinder");
}

#[test]
fn a_scale_range_is_read_the_way_it_is_written() {
    assert!(scale_covers(Some("1..500"), 1));
    assert!(scale_covers(Some("1..500"), 500));
    assert!(!scale_covers(Some("1..500"), 501));
    assert!(scale_covers(Some("500..*"), 500));
    assert!(scale_covers(Some("500..*"), 1_000_000));
    assert!(!scale_covers(Some("500..*"), 499));
    // No range means the method suits any volume.
    assert!(scale_covers(None, 1));
    assert!(scale_covers(Some("1..*"), 42));
}
