use wmds::mfg::bom::{BomLine, CutLine};
use wmds::mfg::fasteners::Fastener;
use wmds::mfg::markdown::{write_markdown, LineTexts, PackText};

fn line(id: &str, q: usize) -> (BomLine, LineTexts) {
    (
        BomLine {
            source_id: id.into(),
            quantity: q,
            variants: vec![("left".into(), 1), ("right".into(), 1)],
            material: None,
            first: 0,
        },
        LineTexts { each: Some("1.50".into()), total: Some("3.00".into()), method: None, cost: Some("12".into()) },
    )
}

fn pack() -> PackText {
    PackText {
        vehicle: "test/car".into(),
        version: "0.1.0".into(),
        volume: 100,
        bom: vec![line("suspension/arms/lower", 2), line("frame/rail", 4)],
        cuts: vec![(
            CutLine {
                source_id: "frame/rail".into(),
                body: "body1".into(),
                section: "60x40x3".into(),
                quantity: 4,
                material: Some("steel".into()),
                first: 0,
            },
            "1200".into(),
        )],
        section_metres: "4.8".into(),
        fasteners: vec![(
            Fastener {
                kind: "bolt".into(),
                size: "M10".into(),
                grade: "8.8".into(),
                quantity: 6,
                nut: Some("nyloc".into()),
                washer: None,
                thread_locker: None,
                kit: true,
                joints: vec!["m1".into()],
                first: 0,
            },
            Some("45".into()),
        )],
        steps: Vec::new(),
        caveats: vec!["the rails are not validated".into()],
        mass: "9.0".into(),
        unit_cost: None,
        tooling: "0".into(),
    }
}

#[test]
fn the_written_pack_keeps_every_part_and_its_figures() {
    let p = pack();
    let md = write_markdown(&p);
    assert!(md.starts_with("# test/car v0.1.0\n"));
    for (b, _) in &p.bom {
        assert!(md.contains(&b.source_id), "{} is missing from the pack", b.source_id);
    }
    assert!(md.contains("| Parts | 2 |"));
    assert!(md.contains("| Pieces per vehicle | 6 |"));
    assert!(md.contains("| Fasteners per vehicle | 6 |"));
    assert!(md.contains("| Parts cost per vehicle | not known |"));
    assert!(md.contains("## Read this first\n\n- the rails are not validated\n"));
    assert!(md.contains("| suspension/arms/lower | 2 | 1 left, 1 right | - | 1.50 kg | 3.00 kg | no route | 12 AUD |\n"));
    assert!(md.contains("| 60x40x3 | 1200 mm | 4 | frame/rail (body1) | steel |\n"));
    assert!(md.contains("\n4.8 m of section per vehicle, before offcuts.\n"));
    assert!(md.contains("| bolt M10 8.8 | 6 | 45 Nm | nyloc nut | you |\n"));
    assert!(md.ends_with("inspection of the finished vehicle.\n"));
}

#[test]
fn a_pack_without_cuts_or_caveats_leaves_those_sections_out() {
    let mut p = pack();
    p.cuts.clear();
    p.caveats.clear();
    let md = write_markdown(&p);
    assert!(!md.contains("## Cut list"));
    assert!(!md.contains("## Read this first"));
    assert!(md.contains("## Bill of materials"));
}
