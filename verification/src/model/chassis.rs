//! The grid of a generated chassis: which mount stations each section's rails carry, where its
//! cross-members go, and the names the vehicle mates to.
//!
//! Coordinates run rearward from the front section-joint plane; grid stations are numbered from
//! it, negative forward. Lengths, spans and placements are floating point work done by the
//! application, which rounds each section face to its grid index and works out how many bays
//! the cross-members divide each section into. What follows from those integers is decided
//! here.

use vstd::prelude::*;

use crate::editor::part::{find_arg, first_key};
use crate::editor::vehicle::{ChassisRef, ChassisRefV};
use crate::text::{concat, decimal, decimal_text, holds_text, same_text, string_from, texts};

verus! {

/// One section of the chassis on the mount grid.
pub struct SectionGrid {
    pub kind: String,
    /// The grid station at the section's front face.
    pub first: i32,
    /// The grid station at the section's rear face.
    pub last: i32,
    /// The ends of the section that carry a section joint.
    pub joints: Vec<String>,
    /// How many equal bays the cross-members divide the section into.
    pub bays: usize,
}

pub struct SectionGridV {
    pub kind: Seq<char>,
    pub first: int,
    pub last: int,
    pub joints: Seq<Seq<char>>,
    pub bays: nat,
}

impl View for SectionGrid {
    type V = SectionGridV;

    open spec fn view(&self) -> SectionGridV {
        SectionGridV {
            kind: self.kind@,
            first: self.first as int,
            last: self.last as int,
            joints: texts(self.joints@),
            bays: self.bays as nat,
        }
    }
}

pub open spec fn grids_view(v: Seq<SectionGrid>) -> Seq<SectionGridV> {
    v.map_values(|g: SectionGrid| g@)
}

/// How many stations section `k` carries: every one from its front face to its rear face,
/// except that a station on a joint plane belongs to the section behind it, so only a section
/// of the last section's kind keeps its rear face.
pub open spec fn station_count(ss: Seq<SectionGridV>, k: int) -> int {
    let n = ss[k].last - ss[k].first + 1;
    if n <= 0 {
        0
    } else if ss[k].kind == ss.last().kind {
        n
    } else {
        n - 1
    }
}

/// The stations section `k` carries, front to back.
pub open spec fn stations_of(ss: Seq<SectionGridV>, k: int) -> Seq<int> {
    Seq::new(station_count(ss, k) as nat, |j: int| ss[k].first + j)
}

/// The stations each section's rails carry, front to back. Both rails of a section carry the
/// same stations.
pub fn section_stations(sections: &Vec<SectionGrid>) -> (r: Vec<Vec<i32>>)
    ensures
        r@.len() == sections@.len(),
        forall|k: int|
            0 <= k < r@.len() ==> (#[trigger] r@[k])@.map_values(|s: i32| s as int) == stations_of(
                grids_view(sections@),
                k,
            ),
{
    let ghost ss = grids_view(sections@);
    let mut out: Vec<Vec<i32>> = Vec::new();
    let mut k: usize = 0;
    while k < sections.len()
        invariant
            ss == grids_view(sections@),
            0 <= k <= sections@.len(),
            out@.len() == k,
            forall|q: int|
                0 <= q < k ==> (#[trigger] out@[q])@.map_values(|s: i32| s as int) == stations_of(ss, q),
        decreases sections@.len() - k,
    {
        let g = &sections[k];
        assert(ss[k as int] == g@);
        let last_kind = sections[sections.len() - 1].kind.as_str();
        assert(ss.last() == sections@[sections@.len() - 1]@);
        let keeps_rear = same_text(g.kind.as_str(), last_kind);
        let end: i64 = if keeps_rear {
            g.last as i64 + 1
        } else {
            g.last as i64
        };
        let mut row: Vec<i32> = Vec::new();
        let mut s: i64 = g.first as i64;
        while s < end
            invariant
                g.first <= s,
                s <= end || s == g.first,
                end <= i32::MAX as i64 + 1,
                row@.len() == s - g.first,
                forall|j: int| 0 <= j < row@.len() ==> row@[j] == g.first + j,
            decreases end - s,
        {
            row.push(s as i32);
            s += 1;
        }
        proof {
            assert(row@.len() == station_count(ss, k as int));
            assert(row@.map_values(|s: i32| s as int) =~= stations_of(ss, k as int));
        }
        out.push(row);
        k += 1;
    }
    out
}

/// No section before the last is of the last section's kind.
pub open spec fn last_kind_once(ss: Seq<SectionGridV>) -> bool {
    forall|k: int| 0 <= k < ss.len() - 1 ==> (#[trigger] ss[k]).kind != ss.last().kind
}

/// Each section runs front to back and starts where the one before it ends.
pub open spec fn contiguous(ss: Seq<SectionGridV>) -> bool {
    &&& forall|k: int| 0 <= k < ss.len() ==> (#[trigger] ss[k]).first <= ss[k].last
    &&& forall|k: int| 0 <= k < ss.len() - 1 ==> (#[trigger] ss[k]).last == ss[k + 1].first
}

proof fn lemma_ordered(ss: Seq<SectionGridV>, i: int, j: int)
    requires
        contiguous(ss),
        0 <= i < j < ss.len(),
    ensures
        ss[i].last <= ss[j].first,
    decreases j - i,
{
    if j > i + 1 {
        lemma_ordered(ss, i, j - 1);
        assert(ss[j - 1].first <= ss[j - 1].last);
        assert(ss[j - 1].last == ss[j].first);
    } else {
        assert(ss[i].last == ss[i + 1].first);
    }
}

proof fn lemma_carrier_from(ss: Seq<SectionGridV>, s: int, k: int) -> (c: int)
    requires
        contiguous(ss),
        0 <= k < ss.len(),
        ss[k].first <= s <= ss.last().last,
    ensures
        k <= c < ss.len(),
        stations_of(ss, c).contains(s),
    decreases ss.len() - k,
{
    let n = ss.len();
    if s < ss[k].last || k == n - 1 {
        if k == n - 1 {
            assert(ss[k] == ss.last());
        }
        assert(stations_of(ss, k)[s - ss[k].first] == s);
        k
    } else {
        assert(ss[k].last == ss[k + 1].first);
        lemma_carrier_from(ss, s, k + 1)
    }
}

/// On a chassis whose sections follow one another, each station from the front face to the
/// rear face is carried by exactly one section, and none outside that range is carried. The
/// station on a joint plane between two sections belongs to the one behind it.
pub proof fn law_each_station_belongs_to_one_section(ss: Seq<SectionGridV>, s: int)
    requires
        ss.len() > 0,
        contiguous(ss),
        last_kind_once(ss),
    ensures
        (ss[0].first <= s <= ss.last().last) <==> (exists|k: int|
            0 <= k < ss.len() && #[trigger] stations_of(ss, k).contains(s)),
        forall|k1: int, k2: int|
            0 <= k1 < ss.len() && 0 <= k2 < ss.len() && #[trigger] stations_of(ss, k1).contains(s)
                && #[trigger] stations_of(ss, k2).contains(s) ==> k1 == k2,
{
    let n = ss.len();
    if ss[0].first <= s <= ss.last().last {
        let c = lemma_carrier_from(ss, s, 0);
    }
    assert forall|k: int| 0 <= k < n && #[trigger] stations_of(ss, k).contains(s) implies ss[0].first <= s
        <= ss.last().last by {
        let j = choose|j: int| 0 <= j < stations_of(ss, k).len() && stations_of(ss, k)[j] == s;
        assert(ss[k].first <= s <= ss[k].last);
        if k > 0 {
            lemma_ordered(ss, 0, k);
            assert(ss[0].first <= ss[0].last);
        }
        if k < n - 1 {
            lemma_ordered(ss, k, n - 1);
            assert(ss[n - 1] == ss.last());
            assert(ss[n - 1].first <= ss[n - 1].last);
        } else {
            assert(ss[k] == ss.last());
        }
    }
    assert forall|k1: int, k2: int|
        0 <= k1 < n && 0 <= k2 < n && #[trigger] stations_of(ss, k1).contains(s)
            && #[trigger] stations_of(ss, k2).contains(s) implies k1 == k2 by {
        if k1 != k2 {
            let (a, b) = if k1 < k2 {
                (k1, k2)
            } else {
                (k2, k1)
            };
            let ja = choose|j: int| 0 <= j < stations_of(ss, a).len() && stations_of(ss, a)[j] == s;
            let jb = choose|j: int| 0 <= j < stations_of(ss, b).len() && stations_of(ss, b)[j] == s;
            lemma_ordered(ss, a, b);
            assert(ss[a].kind != ss.last().kind);
            assert(s < ss[a].last);
            assert(ss[b].first <= s);
        }
    }
}

/// A cross-member: which section it stands in, and at which of the section's division lines,
/// from 0 at its front face to its bay count at its rear face.
pub struct CrossMember {
    pub id: String,
    pub section: usize,
    pub at: usize,
}

pub struct CrossMemberV {
    pub id: Seq<char>,
    pub section: int,
    pub at: int,
}

impl View for CrossMember {
    type V = CrossMemberV;

    open spec fn view(&self) -> CrossMemberV {
        CrossMemberV { id: self.id@, section: self.section as int, at: self.at as int }
    }
}

pub open spec fn members_view(v: Seq<CrossMember>) -> Seq<CrossMemberV> {
    v.map_values(|m: CrossMember| m@)
}

pub open spec fn member_name(kind: Seq<char>, at: nat) -> Seq<char> {
    kind + "_crossmember_"@ + decimal(at)
}

/// The first division line of section `k` that gets a cross-member: the front face for a
/// section of the first section's kind, else the line behind it, as the section in front
/// already has one on the joint plane they share.
pub open spec fn first_line(ss: Seq<SectionGridV>, k: int) -> int {
    if ss[k].kind == ss[0].kind {
        0
    } else {
        1
    }
}

/// The cross-members of section `k`, front to back.
pub open spec fn section_members(ss: Seq<SectionGridV>, k: int) -> Seq<CrossMemberV> {
    let from = first_line(ss, k);
    Seq::new(
        (ss[k].bays + 1 - from) as nat,
        |j: int| CrossMemberV { id: member_name(ss[k].kind, (from + j) as nat), section: k, at: from + j },
    )
}

/// The cross-members of the first `k` sections, front to back.
pub open spec fn members_upto(ss: Seq<SectionGridV>, k: int) -> Seq<CrossMemberV>
    decreases k,
{
    if k <= 0 || k > ss.len() {
        seq![]
    } else {
        members_upto(ss, k - 1) + section_members(ss, k - 1)
    }
}

/// The cross-members of the chassis, front to back: one at each division line of each
/// section, without a second one on a joint plane that the section in front already has.
pub fn cross_members(sections: &Vec<SectionGrid>) -> (r: Vec<CrossMember>)
    ensures
        members_view(r@) == members_upto(grids_view(sections@), sections@.len() as int),
{
    let ghost ss = grids_view(sections@);
    let mut out: Vec<CrossMember> = Vec::new();
    let mut k: usize = 0;
    while k < sections.len()
        invariant
            ss == grids_view(sections@),
            0 <= k <= sections@.len(),
            members_view(out@) == members_upto(ss, k as int),
        decreases sections@.len() - k,
    {
        let g = &sections[k];
        assert(ss[k as int] == g@);
        assert(ss[0] == sections@[0]@);
        let from: usize = if same_text(g.kind.as_str(), sections[0].kind.as_str()) {
            0
        } else {
            1
        };
        let ghost base = members_view(out@);
        let mut i: u128 = from as u128;
        while i <= g.bays as u128
            invariant
                ss == grids_view(sections@),
                ss[k as int] == g@,
                k < sections@.len(),
                from == first_line(ss, k as int),
                from <= i <= g.bays as u128 + 1,
                members_view(out@) == base + section_members(ss, k as int).subrange(0, i - from),
            decreases g.bays as u128 + 1 - i,
        {
            let name = concat(g.kind.as_str(), "_crossmember_");
            let num = decimal_text(i);
            let id = concat(name.as_str(), num.as_str());
            let ghost before = members_view(out@);
            out.push(CrossMember { id, section: k, at: i as usize });
            proof {
                let m = section_members(ss, k as int);
                assert(m[i - from] == CrossMemberV { id: id@, section: k as int, at: i as int });
                assert(members_view(out@) =~= before.push(m[i - from]));
                assert(m.subrange(0, i + 1 - from) =~= m.subrange(0, i - from).push(m[i - from]));
            }
            i += 1;
        }
        proof {
            let m = section_members(ss, k as int);
            assert(m.subrange(0, i - from) =~= m);
            assert(members_upto(ss, k + 1) == members_upto(ss, k as int) + m);
        }
        k += 1;
    }
    out
}

/// Each joint plane between two sections carries one cross-member, that of the section in
/// front standing on its rear face, provided only the first section is of its kind and each
/// section has at least one bay.
pub proof fn law_one_cross_member_per_joint_plane(ss: Seq<SectionGridV>, k: int)
    requires
        0 <= k < ss.len() - 1,
        ss[k].bays >= 1,
        forall|q: int| 0 < q < ss.len() ==> (#[trigger] ss[q]).kind != ss[0].kind,
    ensures
        section_members(ss, k).contains(
            CrossMemberV { id: member_name(ss[k].kind, ss[k].bays), section: k, at: ss[k].bays as int },
        ),
        forall|j: int| 0 <= j < section_members(ss, k + 1).len() ==> (#[trigger] section_members(ss, k + 1)[j]).at != 0,
{
    let m = section_members(ss, k);
    let from = first_line(ss, k);
    assert(m[ss[k].bays - from] == CrossMemberV { id: member_name(ss[k].kind, ss[k].bays), section: k, at: ss[k].bays as int });
    assert(ss[k + 1].kind != ss[0].kind);
}

/// A name the vehicle mates to: a port of one of the chassis parts.
pub struct Export {
    pub name: String,
    pub instance: String,
    pub port: String,
}

pub struct ExportV {
    pub name: Seq<char>,
    pub instance: Seq<char>,
    pub port: Seq<char>,
}

impl View for Export {
    type V = ExportV;

    open spec fn view(&self) -> ExportV {
        ExportV { name: self.name@, instance: self.instance@, port: self.port@ }
    }
}

pub open spec fn exports_view(v: Seq<Export>) -> Seq<ExportV> {
    v.map_values(|e: Export| e@)
}

/// The first export from index `i` on called `name`.
pub open spec fn export_from(t: Seq<ExportV>, name: Seq<char>, i: int) -> Option<int>
    decreases t.len() - i,
{
    if i < 0 || i >= t.len() {
        None
    } else if t[i].name == name {
        Some(i)
    } else {
        export_from(t, name, i + 1)
    }
}

/// `t` with `e` added: in place of an export of the same name, else at the end.
pub open spec fn put(t: Seq<ExportV>, e: ExportV) -> Seq<ExportV> {
    match export_from(t, e.name, 0) {
        Some(j) => t.update(j, e),
        None => t.push(e),
    }
}

/// `t` with each of `es` added in turn.
pub open spec fn put_all(t: Seq<ExportV>, es: Seq<ExportV>) -> Seq<ExportV>
    decreases es.len(),
{
    if es.len() == 0 {
        t
    } else {
        put(put_all(t, es.drop_last()), es.last())
    }
}

/// `i` written in decimal, with a minus sign when negative.
pub open spec fn signed(i: int) -> Seq<char> {
    if i < 0 {
        "-"@ + decimal((-i) as nat)
    } else {
        decimal(i as nat)
    }
}

pub open spec fn side_name(right: bool) -> Seq<char> {
    if right {
        "right"@
    } else {
        "left"@
    }
}

/// The rail of a section on one side.
pub open spec fn rail_name(kind: Seq<char>, right: bool) -> Seq<char> {
    kind + "_rail_"@ + side_name(right)
}

pub open spec fn station_port(s: int) -> Seq<char> {
    "station_"@ + signed(s)
}

pub open spec fn joint_port(end: Seq<char>) -> Seq<char> {
    "joint_"@ + end
}

/// What one rail offers: each station it carries, then each section joint at its ends.
pub open spec fn rail_exports(ss: Seq<SectionGridV>, k: int, right: bool) -> Seq<ExportV> {
    let rail = rail_name(ss[k].kind, right);
    stations_of(ss, k).map_values(
        |s: int|
            ExportV {
                name: "station_"@ + side_name(right) + "_"@ + signed(s),
                instance: rail,
                port: station_port(s),
            },
    ) + ss[k].joints.map_values(
        |e: Seq<char>|
            ExportV {
                name: "joint_"@ + ss[k].kind + "_"@ + side_name(right) + "_"@ + e,
                instance: rail,
                port: joint_port(e),
            },
    )
}

/// The exports of the first `k` sections: for each, its right rail, then its left.
pub open spec fn exports_upto(ss: Seq<SectionGridV>, k: int) -> Seq<ExportV>
    decreases k,
{
    if k <= 0 || k > ss.len() {
        seq![]
    } else {
        put_all(
            put_all(exports_upto(ss, k - 1), rail_exports(ss, k - 1, true)),
            rail_exports(ss, k - 1, false),
        )
    }
}

proof fn lemma_put_all_step(t: Seq<ExportV>, es: Seq<ExportV>, j: int)
    requires
        0 <= j < es.len(),
    ensures
        put_all(t, es.subrange(0, j + 1)) == put(put_all(t, es.subrange(0, j)), es[j]),
{
    assert(es.subrange(0, j + 1).drop_last() =~= es.subrange(0, j));
}

proof fn lemma_put_all_concat(t: Seq<ExportV>, a: Seq<ExportV>, b: Seq<ExportV>)
    ensures
        put_all(t, a + b) == put_all(put_all(t, a), b),
    decreases b.len(),
{
    if b.len() == 0 {
        assert(a + b =~= a);
    } else {
        lemma_put_all_concat(t, a, b.drop_last());
        assert((a + b).drop_last() =~= a + b.drop_last());
        assert((a + b).last() == b.last());
    }
}

fn signed_text(i: i32) -> (r: String)
    ensures
        r@ == signed(i as int),
{
    if i < 0 {
        let m: i128 = -(i as i128);
        let d = decimal_text(m as u128);
        concat("-", d.as_str())
    } else {
        decimal_text(i as u128)
    }
}

/// Add `e` to `t`, in place of an export of the same name.
fn put_export(t: &mut Vec<Export>, e: Export)
    ensures
        exports_view(final(t)@) == put(exports_view(old(t)@), e@),
{
    let ghost tv = exports_view(t@);
    let mut i: usize = 0;
    while i < t.len()
        invariant
            tv == exports_view(t@),
            tv == exports_view(old(t)@),
            0 <= i <= t@.len(),
            export_from(tv, e@.name, 0) == export_from(tv, e@.name, i as int),
        decreases t@.len() - i,
    {
        assert(tv[i as int] == t@[i as int]@);
        if same_text(t[i].name.as_str(), e.name.as_str()) {
            let ghost ev = e@;
            assert(export_from(tv, ev.name, i as int) == Some(i as int));
            t.set(i, e);
            assert(exports_view(t@) =~= tv.update(i as int, ev));
            return;
        }
        i += 1;
    }
    let ghost ev = e@;
    t.push(e);
    assert(exports_view(t@) =~= tv.push(ev));
}

/// Add what the rail of section `k` on one side offers.
fn add_rail_exports(t: &mut Vec<Export>, sections: &Vec<SectionGrid>, k: usize, right: bool)
    requires
        k < sections@.len(),
    ensures
        exports_view(final(t)@) == put_all(exports_view(old(t)@), rail_exports(grids_view(sections@), k as int, right)),
{
    let ghost ss = grids_view(sections@);
    let ghost start = exports_view(t@);
    let ghost es = rail_exports(ss, k as int, right);
    let ghost ns = stations_of(ss, k as int).len();
    let g = &sections[k];
    assert(ss[k as int] == g@);
    assert(ss.last() == sections@[sections@.len() - 1]@);
    let side = if right {
        "right"
    } else {
        "left"
    };
    let rail = concat(concat(g.kind.as_str(), "_rail_").as_str(), side);
    assert(rail@ == rail_name(g.kind@, right));
    let keeps_rear = same_text(g.kind.as_str(), sections[sections.len() - 1].kind.as_str());
    let end: i64 = if keeps_rear {
        g.last as i64 + 1
    } else {
        g.last as i64
    };
    let mut s: i64 = g.first as i64;
    while s < end
        invariant
            ss == grids_view(sections@),
            ss[k as int] == g@,
            es == rail_exports(ss, k as int, right),
            rail@ == rail_name(g.kind@, right),
            side@ == side_name(right),
            ns == stations_of(ss, k as int).len(),
            ns == if end > g.first { end - g.first } else { 0 },
            g.first <= s,
            s <= end || s == g.first,
            end <= i32::MAX as i64 + 1,
            exports_view(t@) == put_all(start, es.subrange(0, s - g.first)),
        decreases end - s,
    {
        let st = signed_text(s as i32);
        let name = concat(concat(concat("station_", side).as_str(), "_").as_str(), st.as_str());
        let port = concat("station_", st.as_str());
        let e = Export { name, instance: rail.clone(), port };
        proof {
            let j = s - g.first;
            assert(es[j] == e@);
            lemma_put_all_step(start, es, j);
        }
        put_export(t, e);
        s += 1;
    }
    let mut q: usize = 0;
    while q < g.joints.len()
        invariant
            ss == grids_view(sections@),
            ss[k as int] == g@,
            es == rail_exports(ss, k as int, right),
            rail@ == rail_name(g.kind@, right),
            side@ == side_name(right),
            ns == stations_of(ss, k as int).len(),
            0 <= q <= g.joints@.len(),
            es.len() == ns + g.joints@.len(),
            exports_view(t@) == put_all(start, es.subrange(0, ns + q)),
        decreases g.joints@.len() - q,
    {
        let end_name = g.joints[q].as_str();
        let name = concat(
            concat(concat(concat(concat("joint_", g.kind.as_str()).as_str(), "_").as_str(), side).as_str(), "_").as_str(),
            end_name,
        );
        let port = concat("joint_", end_name);
        let e = Export { name, instance: rail.clone(), port };
        proof {
            let j = ns + q;
            assert(texts(g.joints@)[q as int] == end_name@);
            assert(es[j] == e@);
            lemma_put_all_step(start, es, j);
        }
        put_export(t, e);
        q += 1;
    }
    assert(es.subrange(0, es.len() as int) =~= es);
}

/// What the vehicle can mate to on the chassis: for each section, the right rail's stations and
/// section joints, then the left rail's. A later export of the same name takes the place of the
/// earlier one.
pub fn chassis_exports(sections: &Vec<SectionGrid>) -> (r: Vec<Export>)
    ensures
        exports_view(r@) == exports_upto(grids_view(sections@), sections@.len() as int),
{
    let ghost ss = grids_view(sections@);
    let mut out: Vec<Export> = Vec::new();
    let mut k: usize = 0;
    while k < sections.len()
        invariant
            ss == grids_view(sections@),
            0 <= k <= sections@.len(),
            exports_view(out@) == exports_upto(ss, k as int),
        decreases sections@.len() - k,
    {
        add_rail_exports(&mut out, sections, k, true);
        add_rail_exports(&mut out, sections, k, false);
        k += 1;
    }
    out
}

/// What a vehicle's chassis request can name in a chassis system: its configurations (each the
/// kinds of its sections, front to back), its width configs, its rail sections, and the part its
/// rails are made from.
pub struct ChassisSystem {
    pub id: String,
    pub configurations: Vec<(String, Vec<String>)>,
    pub widths: Vec<String>,
    pub rail_sections: Vec<String>,
    pub rail: String,
}

pub struct ChassisSystemV {
    pub id: Seq<char>,
    pub configurations: Seq<(Seq<char>, Seq<Seq<char>>)>,
    pub widths: Seq<Seq<char>>,
    pub rail_sections: Seq<Seq<char>>,
    pub rail: Seq<char>,
}

impl View for ChassisSystem {
    type V = ChassisSystemV;

    open spec fn view(&self) -> ChassisSystemV {
        ChassisSystemV {
            id: self.id@,
            configurations: self.configurations@.map_values(
                |c: (String, Vec<String>)| (c.0@, texts(c.1@)),
            ),
            widths: texts(self.widths@),
            rail_sections: texts(self.rail_sections@),
            rail: self.rail@,
        }
    }
}

pub open spec fn systems_view(v: Seq<ChassisSystem>) -> Seq<ChassisSystemV> {
    v.map_values(|s: ChassisSystem| s@)
}

/// Why a chassis cannot be generated from its request, as far as names decide it. Lengths out
/// of range or off the grid are measured by the application.
#[derive(Debug)]
pub enum ChassisError {
    UnknownSystem(String),
    UnknownConfiguration { system: String, name: String },
    UnknownWidth { system: String, name: String },
    UnknownRailSection { system: String, name: String },
    MissingLength(String),
    MissingRail(String),
}

pub enum ChassisErrorV {
    UnknownSystem(Seq<char>),
    UnknownConfiguration { system: Seq<char>, name: Seq<char> },
    UnknownWidth { system: Seq<char>, name: Seq<char> },
    UnknownRailSection { system: Seq<char>, name: Seq<char> },
    MissingLength(Seq<char>),
    MissingRail(Seq<char>),
}

impl View for ChassisError {
    type V = ChassisErrorV;

    open spec fn view(&self) -> ChassisErrorV {
        match self {
            ChassisError::UnknownSystem(s) => ChassisErrorV::UnknownSystem(s@),
            ChassisError::UnknownConfiguration { system, name } => ChassisErrorV::UnknownConfiguration {
                system: system@,
                name: name@,
            },
            ChassisError::UnknownWidth { system, name } => ChassisErrorV::UnknownWidth { system: system@, name: name@ },
            ChassisError::UnknownRailSection { system, name } => ChassisErrorV::UnknownRailSection {
                system: system@,
                name: name@,
            },
            ChassisError::MissingLength(k) => ChassisErrorV::MissingLength(k@),
            ChassisError::MissingRail(r) => ChassisErrorV::MissingRail(r@),
        }
    }
}

/// The first of `names` from index `i` on that is `k`.
pub open spec fn name_from(names: Seq<Seq<char>>, k: Seq<char>, i: int) -> Option<int>
    decreases names.len() - i,
{
    if i < 0 || i >= names.len() {
        None
    } else if names[i] == k {
        Some(i)
    } else {
        name_from(names, k, i + 1)
    }
}

pub open spec fn system_ids(v: Seq<ChassisSystemV>) -> Seq<Seq<char>> {
    v.map_values(|s: ChassisSystemV| s.id)
}

pub open spec fn configuration_names(v: Seq<(Seq<char>, Seq<Seq<char>>)>) -> Seq<Seq<char>> {
    v.map_values(|c: (Seq<char>, Seq<Seq<char>>)| c.0)
}

/// What a request chose: the system, and which of its configurations, widths and rail
/// sections, by position.
pub struct ChassisChoice {
    pub system: usize,
    pub configuration: usize,
    pub width: usize,
    pub rail_section: usize,
}

/// The choice a request makes among `systems`, or the first name it gives that is not there:
/// the system, then its configuration, its width config and its rail section.
pub open spec fn choice_spec(systems: Seq<ChassisSystemV>, req: ChassisRefV) -> Result<
    (int, int, int, int),
    ChassisErrorV,
> {
    match name_from(system_ids(systems), req.system, 0) {
        None => Err(ChassisErrorV::UnknownSystem(req.system)),
        Some(s) => {
            let d = systems[s];
            match name_from(configuration_names(d.configurations), req.configuration, 0) {
                None => Err(ChassisErrorV::UnknownConfiguration { system: d.id, name: req.configuration }),
                Some(c) => match name_from(d.widths, req.width, 0) {
                    None => Err(ChassisErrorV::UnknownWidth { system: d.id, name: req.width }),
                    Some(w) => match name_from(d.rail_sections, req.rail_section, 0) {
                        None => Err(ChassisErrorV::UnknownRailSection { system: d.id, name: req.rail_section }),
                        Some(r) => Ok((s, c, w, r)),
                    },
                },
            }
        },
    }
}

pub(crate) fn position_in(names: &Vec<String>, k: &str) -> (r: Option<usize>)
    ensures
        match r {
            Some(i) => name_from(texts(names@), k@, 0) == Some(i as int) && i < names@.len(),
            None => name_from(texts(names@), k@, 0) is None,
        },
{
    let ghost nv = texts(names@);
    let mut i: usize = 0;
    while i < names.len()
        invariant
            nv == texts(names@),
            0 <= i <= names@.len(),
            name_from(nv, k@, 0) == name_from(nv, k@, i as int),
        decreases names@.len() - i,
    {
        assert(nv[i as int] == names@[i as int]@);
        if same_text(names[i].as_str(), k) {
            return Some(i);
        }
        i += 1;
    }
    None
}

fn find_system(systems: &Vec<ChassisSystem>, k: &str) -> (r: Option<usize>)
    ensures
        match r {
            Some(i) => name_from(system_ids(systems_view(systems@)), k@, 0) == Some(i as int) && i < systems@.len(),
            None => name_from(system_ids(systems_view(systems@)), k@, 0) is None,
        },
{
    let ghost nv = system_ids(systems_view(systems@));
    let mut i: usize = 0;
    while i < systems.len()
        invariant
            nv == system_ids(systems_view(systems@)),
            0 <= i <= systems@.len(),
            name_from(nv, k@, 0) == name_from(nv, k@, i as int),
        decreases systems@.len() - i,
    {
        assert(nv[i as int] == systems@[i as int].id@);
        if same_text(systems[i].id.as_str(), k) {
            return Some(i);
        }
        i += 1;
    }
    None
}

fn find_configuration(cs: &Vec<(String, Vec<String>)>, k: &str) -> (r: Option<usize>)
    ensures
        match r {
            Some(i) => name_from(
                configuration_names(cs@.map_values(|c: (String, Vec<String>)| (c.0@, texts(c.1@)))),
                k@,
                0,
            ) == Some(i as int) && i < cs@.len(),
            None => name_from(
                configuration_names(cs@.map_values(|c: (String, Vec<String>)| (c.0@, texts(c.1@)))),
                k@,
                0,
            ) is None,
        },
{
    let ghost nv = configuration_names(cs@.map_values(|c: (String, Vec<String>)| (c.0@, texts(c.1@))));
    let mut i: usize = 0;
    while i < cs.len()
        invariant
            nv == configuration_names(cs@.map_values(|c: (String, Vec<String>)| (c.0@, texts(c.1@)))),
            0 <= i <= cs@.len(),
            name_from(nv, k@, 0) == name_from(nv, k@, i as int),
        decreases cs@.len() - i,
    {
        assert(nv[i as int] == cs@[i as int].0@);
        if same_text(cs[i].0.as_str(), k) {
            return Some(i);
        }
        i += 1;
    }
    None
}

/// Find what a chassis request names among the chassis systems of the library.
pub fn choose_chassis(systems: &Vec<ChassisSystem>, req: &ChassisRef) -> (r: Result<ChassisChoice, ChassisError>)
    ensures
        match r {
            Ok(c) => choice_spec(systems_view(systems@), req@) == Ok::<(int, int, int, int), ChassisErrorV>(
                (c.system as int, c.configuration as int, c.width as int, c.rail_section as int),
            ),
            Err(e) => choice_spec(systems_view(systems@), req@) == Err::<(int, int, int, int), ChassisErrorV>(e@),
        },
{
    let ghost sv = systems_view(systems@);
    let s = match find_system(systems, req.system.as_str()) {
        Some(s) => s,
        None => {
            return Err(ChassisError::UnknownSystem(req.system.clone()));
        },
    };
    let d = &systems[s];
    assert(sv[s as int] == d@);
    let c = match find_configuration(&d.configurations, req.configuration.as_str()) {
        Some(c) => c,
        None => {
            return Err(ChassisError::UnknownConfiguration { system: d.id.clone(), name: req.configuration.clone() });
        },
    };
    let w = match position_in(&d.widths, req.width.as_str()) {
        Some(w) => w,
        None => {
            return Err(ChassisError::UnknownWidth { system: d.id.clone(), name: req.width.clone() });
        },
    };
    let r = match position_in(&d.rail_sections, req.rail_section.as_str()) {
        Some(r) => r,
        None => {
            return Err(ChassisError::UnknownRailSection { system: d.id.clone(), name: req.rail_section.clone() });
        },
    };
    Ok(ChassisChoice { system: s, configuration: c, width: w, rail_section: r })
}

/// The length a request gives a section of kind `kind`: the position of its first entry, or
/// the section's name when it gives none.
pub fn section_length(req: &ChassisRef, kind: &str) -> (r: Result<usize, ChassisError>)
    ensures
        match r {
            Ok(i) => first_key(req@.section_lengths, kind@) == Some(i as int),
            Err(e) => first_key(req@.section_lengths, kind@) is None && e@ == ChassisErrorV::MissingLength(kind@),
        },
{
    match find_arg(&req.section_lengths, kind) {
        Some(i) => Ok(i),
        None => Err(ChassisError::MissingLength(string_from(kind))),
    }
}

/// The part a system's rails are made from, among the library's primitives: found, or missing.
pub fn rail_part(system: &ChassisSystem, primitives: &Vec<String>) -> (r: Result<(), ChassisError>)
    ensures
        r is Ok <==> texts(primitives@).contains(system@.rail),
        r matches Err(e) ==> e@ == ChassisErrorV::MissingRail(system@.rail),
{
    if holds_text(primitives, system.rail.as_str()) {
        Ok(())
    } else {
        Err(ChassisError::MissingRail(system.rail.clone()))
    }
}

} // verus!
