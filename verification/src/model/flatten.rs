//! Turning placed units back into the instances of the model.
//!
//! A unit is a single part or a whole sub-assembly. Once every unit is placed, the model lists
//! the parts: a single part keeps its id, a part inside a sub-assembly is named through it
//! (`corner_fl.lower_arm`), and the ports the assembly exports are named by those instances.

use vstd::prelude::*;

use super::placement::{PlacedBy, PlacedByV};
use crate::editor::vehicle::{InstanceDef, InstanceDefV, InstanceSource, InstanceSourceV};
use crate::text::{concat, holds_text, opt_text, same_text, string_from, texts};

verus! {

/// A placed unit: its id, its parts with how each was placed inside it, and the ports it
/// offers, each naming the part and that part's port.
pub struct FlatUnit {
    pub id: String,
    pub parts: Vec<(String, PlacedBy)>,
    pub ports: Vec<(String, usize, String)>,
}

pub struct FlatUnitV {
    pub id: Seq<char>,
    pub parts: Seq<(Seq<char>, PlacedByV)>,
    pub ports: Seq<(Seq<char>, int, Seq<char>)>,
}

impl View for FlatUnit {
    type V = FlatUnitV;

    open spec fn view(&self) -> FlatUnitV {
        FlatUnitV {
            id: self.id@,
            parts: self.parts@.map_values(|p: (String, PlacedBy)| (p.0@, p.1@)),
            ports: self.ports@.map_values(|p: (String, usize, String)| (p.0@, p.1 as int, p.2@)),
        }
    }
}

pub open spec fn flat_units(v: Seq<FlatUnit>) -> Seq<FlatUnitV> {
    v.map_values(|u: FlatUnit| u@)
}

/// The id of a part of a unit in the model: a unit of one part of its own name is that part;
/// any other part is named through its unit.
pub open spec fn part_id(u: FlatUnitV, p: Seq<char>) -> Seq<char> {
    if u.parts.len() == 1 && p == u.id {
        u.id
    } else {
        u.id + "."@ + p
    }
}

/// The id of a part of a unit in the model, when an export names it.
pub open spec fn export_part_id(u: FlatUnitV, k: int) -> Seq<char> {
    if u.parts.len() == 1 {
        u.id
    } else {
        u.id + "."@ + u.parts[k].0
    }
}

/// The parts of unit `u`, placed as `by` says the unit was placed.
pub open spec fn unit_parts(u: FlatUnitV, by: PlacedByV) -> Seq<(Seq<char>, PlacedByV)> {
    u.parts.map_values(
        |p: (Seq<char>, PlacedByV)|
            (part_id(u, p.0), if u.parts.len() == 1 {
                by
            } else {
                p.1
            }),
    )
}

/// The parts of the first `n` units, in order. A unit of one part is placed as the unit is;
/// the parts of a sub-assembly keep how they were placed inside it.
pub open spec fn flat_upto(us: Seq<FlatUnitV>, bys: Seq<PlacedByV>, n: int) -> Seq<(Seq<char>, PlacedByV)>
    decreases n,
{
    if n <= 0 {
        seq![]
    } else {
        flat_upto(us, bys, n - 1) + unit_parts(us[n - 1], bys[n - 1])
    }
}

pub open spec fn flat_view(v: Seq<(String, PlacedBy)>) -> Seq<(Seq<char>, PlacedByV)> {
    v.map_values(|p: (String, PlacedBy)| (p.0@, p.1@))
}

fn part_id_of(u: &FlatUnit, p: &str) -> (r: String)
    ensures
        r@ == part_id(u@, p@),
{
    if u.parts.len() == 1 && same_text(p, u.id.as_str()) {
        u.id.clone()
    } else {
        let mut s = concat(u.id.as_str(), ".");
        s.append(p);
        s
    }
}

/// The instances of the model: every part of every unit, in order, with its id in the model
/// and how it came to be placed.
pub fn flatten(units: &Vec<FlatUnit>, placed: &Vec<PlacedBy>) -> (r: Vec<(String, PlacedBy)>)
    requires
        placed@.len() == units@.len(),
    ensures
        flat_view(r@) == flat_upto(
            flat_units(units@),
            placed@.map_values(|p: PlacedBy| p@),
            units@.len() as int,
        ),
{
    let ghost us = flat_units(units@);
    let ghost bys = placed@.map_values(|p: PlacedBy| p@);
    let mut out: Vec<(String, PlacedBy)> = Vec::new();
    let mut i: usize = 0;
    while i < units.len()
        invariant
            us == flat_units(units@),
            bys == placed@.map_values(|p: PlacedBy| p@),
            placed@.len() == units@.len(),
            i <= units@.len(),
            flat_view(out@) == flat_upto(us, bys, i as int),
        decreases units@.len() - i,
    {
        let u = &units[i];
        assert(us[i as int] == u@);
        assert(bys[i as int] == placed@[i as int]@);
        let ghost before = flat_view(out@);
        let ghost want = unit_parts(u@, bys[i as int]);
        let mut k: usize = 0;
        while k < u.parts.len()
            invariant
                u@ == us[i as int],
                bys[i as int] == placed@[i as int]@,
                i < placed@.len(),
                k <= u.parts@.len(),
                want == unit_parts(u@, bys[i as int]),
                flat_view(out@) == before + want.subrange(0, k as int),
            decreases u.parts@.len() - k,
        {
            let id = part_id_of(u, u.parts[k].0.as_str());
            let by = if u.parts.len() == 1 {
                placed[i].copy()
            } else {
                u.parts[k].1.copy()
            };
            assert(u@.parts[k as int] == (u.parts@[k as int].0@, u.parts@[k as int].1@));
            let ghost prev = out@;
            out.push((id, by));
            assert(flat_view(out@) =~= flat_view(prev).push(want[k as int]));
            assert(flat_view(out@) =~= before + want.subrange(0, k + 1));
            k += 1;
        }
        assert(want.subrange(0, u.parts@.len() as int) =~= want);
        i += 1;
    }
    out
}

// ---------------------------------------------------------------------------------- exports

/// A port the assembly offers to a parent: its name there, and the unit and port it comes from.
pub struct ExportRef {
    pub name: String,
    pub instance: String,
    pub port: String,
}

pub struct ExportRefV {
    pub name: Seq<char>,
    pub instance: Seq<char>,
    pub port: Seq<char>,
}

impl View for ExportRef {
    type V = ExportRefV;

    open spec fn view(&self) -> ExportRefV {
        ExportRefV { name: self.name@, instance: self.instance@, port: self.port@ }
    }
}

/// An export of the model: its name, the part it is on, and that part's port.
pub type ExportV = (Seq<char>, Seq<char>, Seq<char>);

/// The last unit with id `id` among the first `n`, as a map from id to position keeps it.
pub open spec fn unit_named(us: Seq<FlatUnitV>, id: Seq<char>, n: int) -> Option<int>
    decreases n,
{
    if n <= 0 {
        None
    } else if us[n - 1].id == id {
        Some(n - 1)
    } else {
        unit_named(us, id, n - 1)
    }
}

/// The first port entry at or after `i` named `p`.
pub open spec fn port_entry(ps: Seq<(Seq<char>, int, Seq<char>)>, p: Seq<char>, i: int) -> Option<int>
    decreases ps.len() - i,
{
    if i < 0 || i >= ps.len() {
        None
    } else if ps[i].0 == p {
        Some(i)
    } else {
        port_entry(ps, p, i + 1)
    }
}

/// The first export at or after `i` named `name`.
pub open spec fn export_at(es: Seq<ExportV>, name: Seq<char>, i: int) -> Option<int>
    decreases es.len() - i,
{
    if i < 0 || i >= es.len() {
        None
    } else if es[i].0 == name {
        Some(i)
    } else {
        export_at(es, name, i + 1)
    }
}

/// `es` with `e` in it: an export of the same name is replaced where it stands.
pub open spec fn export_set(es: Seq<ExportV>, e: ExportV) -> Seq<ExportV> {
    match export_at(es, e.0, 0) {
        Some(i) => es.update(i, e),
        None => es.push(e),
    }
}

/// What is said of an export whose unit has no such port.
pub open spec fn export_error(e: ExportRefV) -> Seq<char> {
    "export `"@ + e.name + "`: `"@ + e.instance + "` has no port `"@ + e.port + "`"@
}

/// The exports of the model and the errors, after the first `n` exports of the definition. An
/// export of a unit that does not exist is skipped, as the definition's reader has reported it.
pub open spec fn exports_upto(us: Seq<FlatUnitV>, es: Seq<ExportRefV>, n: int) -> (Seq<ExportV>, Seq<Seq<char>>)
    decreases n,
{
    if n <= 0 {
        (seq![], seq![])
    } else {
        let (done, errs) = exports_upto(us, es, n - 1);
        let e = es[n - 1];
        match unit_named(us, e.instance, us.len() as int) {
            None => (done, errs),
            Some(i) => match port_entry(us[i].ports, e.port, 0) {
                None => (done, errs.push(export_error(e))),
                Some(k) => (
                    export_set(
                        done,
                        (e.name, export_part_id(us[i], us[i].ports[k].1), us[i].ports[k].2),
                    ),
                    errs,
                ),
            },
        }
    }
}

pub open spec fn exports_view(v: Seq<(String, String, String)>) -> Seq<ExportV> {
    v.map_values(|e: (String, String, String)| (e.0@, e.1@, e.2@))
}

pub open spec fn export_refs(v: Seq<ExportRef>) -> Seq<ExportRefV> {
    v.map_values(|e: ExportRef| e@)
}

proof fn lemma_unit_named(us: Seq<FlatUnitV>, id: Seq<char>, n: int)
    requires
        n <= us.len(),
    ensures
        match unit_named(us, id, n) {
            Some(i) => 0 <= i < n && us[i].id == id,
            None => true,
        },
    decreases n,
{
    if n > 0 && us[n - 1].id != id {
        lemma_unit_named(us, id, n - 1);
    }
}

fn find_unit(units: &Vec<FlatUnit>, id: &str) -> (r: Option<usize>)
    ensures
        match r {
            Some(i) => unit_named(flat_units(units@), id@, units@.len() as int) == Some(i as int),
            None => unit_named(flat_units(units@), id@, units@.len() as int) is None,
        },
{
    let ghost us = flat_units(units@);
    let mut k = units.len();
    while k > 0
        invariant
            k <= units@.len(),
            us == flat_units(units@),
            unit_named(us, id@, units@.len() as int) == unit_named(us, id@, k as int),
        decreases k,
    {
        assert(us[k - 1] == units@[k - 1]@);
        if same_text(units[k - 1].id.as_str(), id) {
            return Some(k - 1);
        }
        k -= 1;
    }
    None
}

fn find_port_entry(ps: &Vec<(String, usize, String)>, p: &str) -> (r: Option<usize>)
    ensures
        match r {
            Some(k) => k < ps@.len() && port_entry(
                ps@.map_values(|x: (String, usize, String)| (x.0@, x.1 as int, x.2@)),
                p@,
                0,
            ) == Some(k as int),
            None => port_entry(
                ps@.map_values(|x: (String, usize, String)| (x.0@, x.1 as int, x.2@)),
                p@,
                0,
            ) is None,
        },
{
    let ghost pv = ps@.map_values(|x: (String, usize, String)| (x.0@, x.1 as int, x.2@));
    let mut k: usize = 0;
    while k < ps.len()
        invariant
            pv == ps@.map_values(|x: (String, usize, String)| (x.0@, x.1 as int, x.2@)),
            k <= ps@.len(),
            port_entry(pv, p@, 0) == port_entry(pv, p@, k as int),
        decreases ps@.len() - k,
    {
        assert(pv[k as int].0 == ps@[k as int].0@);
        if same_text(ps[k].0.as_str(), p) {
            return Some(k);
        }
        k += 1;
    }
    None
}

fn find_export(done: &Vec<(String, String, String)>, name: &str) -> (r: Option<usize>)
    ensures
        match r {
            Some(i) => i < done@.len() && export_at(exports_view(done@), name@, 0) == Some(i as int),
            None => export_at(exports_view(done@), name@, 0) is None,
        },
{
    let ghost dv = exports_view(done@);
    let mut i: usize = 0;
    while i < done.len()
        invariant
            dv == exports_view(done@),
            i <= done@.len(),
            export_at(dv, name@, 0) == export_at(dv, name@, i as int),
        decreases done@.len() - i,
    {
        assert(dv[i as int].0 == done@[i as int].0@);
        if same_text(done[i].0.as_str(), name) {
            return Some(i);
        }
        i += 1;
    }
    None
}

fn set_export(done: &mut Vec<(String, String, String)>, e: (String, String, String))
    ensures
        exports_view(final(done)@) == export_set(exports_view(old(done)@), (e.0@, e.1@, e.2@)),
{
    let ghost dv = exports_view(done@);
    let ghost ev = (e.0@, e.1@, e.2@);
    match find_export(done, e.0.as_str()) {
        Some(i) => {
            done.set(i, e);
            assert(exports_view(done@) =~= dv.update(i as int, ev));
        },
        None => {
            done.push(e);
            assert(exports_view(done@) =~= dv.push(ev));
        },
    }
}

/// Each port a unit of several parts offers names one of its parts.
pub open spec fn ports_name_parts(u: FlatUnitV) -> bool {
    u.parts.len() == 1 || forall|k: int| 0 <= k < u.ports.len() ==> 0 <= #[trigger] u.ports[k].1 < u.parts.len()
}

/// The exports of the model, named through the parts they are on, and an error for each export
/// whose unit has no such port.
pub fn resolve_exports(units: &Vec<FlatUnit>, exports: &Vec<ExportRef>) -> (r: (
    Vec<(String, String, String)>,
    Vec<String>,
))
    requires
        forall|i: int| 0 <= i < units@.len() ==> ports_name_parts(#[trigger] flat_units(units@)[i]),
    ensures
        (exports_view(r.0@), texts(r.1@)) == exports_upto(
            flat_units(units@),
            export_refs(exports@),
            exports@.len() as int,
        ),
{
    let ghost us = flat_units(units@);
    let ghost es = export_refs(exports@);
    let mut done: Vec<(String, String, String)> = Vec::new();
    let mut errs: Vec<String> = Vec::new();
    let mut n: usize = 0;
    while n < exports.len()
        invariant
            us == flat_units(units@),
            es == export_refs(exports@),
            n <= exports@.len(),
            forall|i: int| 0 <= i < units@.len() ==> ports_name_parts(#[trigger] us[i]),
            (exports_view(done@), texts(errs@)) == exports_upto(us, es, n as int),
        decreases exports@.len() - n,
    {
        let e = &exports[n];
        assert(es[n as int] == e@);
        match find_unit(units, e.instance.as_str()) {
            None => {},
            Some(i) => {
                proof {
                    lemma_unit_named(us, e@.instance, units@.len() as int);
                }
                let u = &units[i];
                assert(us[i as int] == u@);
                match find_port_entry(&u.ports, e.port.as_str()) {
                    None => {
                        let mut m = concat("export `", e.name.as_str());
                        m.append("`: `");
                        m.append(e.instance.as_str());
                        m.append("` has no port `");
                        m.append(e.port.as_str());
                        m.append("`");
                        let ghost before = texts(errs@);
                        errs.push(m);
                        assert(texts(errs@) =~= before.push(export_error(e@)));
                    },
                    Some(k) => {
                        let (_, part, port) = &u.ports[k];
                        assert(u@.ports[k as int] == (u.ports@[k as int].0@, *part as int, port@));
                        let inst = if u.parts.len() == 1 {
                            u.id.clone()
                        } else {
                            assert(ports_name_parts(us[i as int]));
                            assert(u@.ports[k as int].1 < u@.parts.len());
                            let mut s = concat(u.id.as_str(), ".");
                            s.append(u.parts[*part].0.as_str());
                            assert(u@.parts[*part as int].0 == u.parts@[*part as int].0@);
                            s
                        };
                        set_export(&mut done, (string_from(e.name.as_str()), inst, port.clone()));
                    },
                }
            },
        }
        n += 1;
    }
    (done, errs)
}


// ------------------------------------------------------------------ a sub-assembly as a unit

/// The last part among the first `n` with id `id`, as a map from id to position keeps it.
pub open spec fn part_named(parts: Seq<(Seq<char>, PlacedByV)>, id: Seq<char>, n: int) -> Option<int>
    decreases n,
{
    if n <= 0 {
        None
    } else if parts[n - 1].0 == id {
        Some(n - 1)
    } else {
        part_named(parts, id, n - 1)
    }
}

/// `ps` with port `p` in it: a port of the same name is replaced where it stands.
pub open spec fn port_set(ps: Seq<(Seq<char>, int, Seq<char>)>, p: (Seq<char>, int, Seq<char>)) -> Seq<(Seq<char>, int, Seq<char>)> {
    match port_entry(ps, p.0, 0) {
        Some(i) => ps.update(i, p),
        None => ps.push(p),
    }
}

/// The ports a sub-assembly offers as a unit, after the first `n` of its exports: each export
/// whose part exists, naming that part by position.
pub open spec fn unit_ports_upto(parts: Seq<(Seq<char>, PlacedByV)>, es: Seq<ExportV>, n: int) -> Seq<(Seq<char>, int, Seq<char>)>
    decreases n,
{
    if n <= 0 {
        seq![]
    } else {
        let prev = unit_ports_upto(parts, es, n - 1);
        match part_named(parts, es[n - 1].1, parts.len() as int) {
            Some(i) => port_set(prev, (es[n - 1].0, i, es[n - 1].2)),
            None => prev,
        }
    }
}

pub open spec fn ports_view(v: Seq<(String, usize, String)>) -> Seq<(Seq<char>, int, Seq<char>)> {
    v.map_values(|x: (String, usize, String)| (x.0@, x.1 as int, x.2@))
}

fn find_part(parts: &Vec<(String, PlacedBy)>, id: &str) -> (r: Option<usize>)
    ensures
        match r {
            Some(i) => i < parts@.len() && part_named(flat_view(parts@), id@, parts@.len() as int) == Some(i as int),
            None => part_named(flat_view(parts@), id@, parts@.len() as int) is None,
        },
{
    let ghost pv = flat_view(parts@);
    let mut k = parts.len();
    while k > 0
        invariant
            k <= parts@.len(),
            pv == flat_view(parts@),
            part_named(pv, id@, parts@.len() as int) == part_named(pv, id@, k as int),
        decreases k,
    {
        assert(pv[k - 1].0 == parts@[k - 1].0@);
        if same_text(parts[k - 1].0.as_str(), id) {
            return Some(k - 1);
        }
        k -= 1;
    }
    None
}

fn set_port(ports: &mut Vec<(String, usize, String)>, p: (String, usize, String))
    ensures
        ports_view(final(ports)@) == port_set(ports_view(old(ports)@), (p.0@, p.1 as int, p.2@)),
        forall|k: int|
            0 <= k < final(ports)@.len() ==> (#[trigger] final(ports)@[k]).1 == p.1 || (k < old(
                ports,
            )@.len() && final(ports)@[k].1 == old(ports)@[k].1),
{
    let ghost pv = ports_view(ports@);
    let ghost want = (p.0@, p.1 as int, p.2@);
    assert(ports_view(ports@) =~= ports@.map_values(|x: (String, usize, String)| (x.0@, x.1 as int, x.2@)));
    match find_port_entry(ports, p.0.as_str()) {
        Some(i) => {
            ports.set(i, p);
            assert(ports_view(ports@) =~= pv.update(i as int, want));
        },
        None => {
            ports.push(p);
            assert(ports_view(ports@) =~= pv.push(want));
        },
    }
}

/// The ports a sub-assembly offers as a unit: each of its exports whose part exists, naming
/// that part by position. Every port so made names one of the parts.
pub fn unit_ports(parts: &Vec<(String, PlacedBy)>, exports: &Vec<(String, String, String)>) -> (r: Vec<(String, usize, String)>)
    ensures
        ports_view(r@) == unit_ports_upto(flat_view(parts@), exports_view(exports@), exports@.len() as int),
        forall|k: int| 0 <= k < r@.len() ==> #[trigger] r@[k].1 < parts@.len(),
{
    let ghost pv = flat_view(parts@);
    let ghost ev = exports_view(exports@);
    let mut out: Vec<(String, usize, String)> = Vec::new();
    let mut n: usize = 0;
    while n < exports.len()
        invariant
            pv == flat_view(parts@),
            ev == exports_view(exports@),
            n <= exports@.len(),
            ports_view(out@) == unit_ports_upto(pv, ev, n as int),
            forall|k: int| 0 <= k < out@.len() ==> #[trigger] out@[k].1 < parts@.len(),
        decreases exports@.len() - n,
    {
        assert(ev[n as int] == (exports@[n as int].0@, exports@[n as int].1@, exports@[n as int].2@));
        match find_part(parts, exports[n].1.as_str()) {
            Some(i) => {
                let ghost before = out@;
                set_port(&mut out, (exports[n].0.clone(), i, exports[n].2.clone()));
                assert forall|k: int| 0 <= k < out@.len() implies #[trigger] out@[k].1 < parts@.len() by {
                    if out@[k].1 != i {
                        assert(before[k].1 < parts@.len());
                    }
                }
            },
            None => {},
        }
        n += 1;
    }
    out
}

/// The parts of the first `n` units, counted.
pub open spec fn parts_upto(us: Seq<FlatUnitV>, n: int) -> int
    decreases n,
{
    if n <= 0 {
        0
    } else {
        parts_upto(us, n - 1) + us[n - 1].parts.len()
    }
}

/// Flattening loses and invents nothing: every part of every unit becomes one instance.
pub proof fn law_every_part_becomes_an_instance(us: Seq<FlatUnitV>, bys: Seq<PlacedByV>, n: int)
    requires
        0 <= n,
    ensures
        flat_upto(us, bys, n).len() == parts_upto(us, n),
    decreases n,
{
    if n > 0 {
        law_every_part_becomes_an_instance(us, bys, n - 1);
    }
}

/// What is reported of an instance whose part or sub-assembly the library does not have.
pub open spec fn unknown_source(inst: InstanceDefV, primitives: Seq<Seq<char>>, assemblies: Seq<Seq<char>>) -> Option<
    Seq<char>,
> {
    match inst.source {
        InstanceSourceV::Primitive(p) => if primitives.contains(p) {
            None
        } else {
            Some("instance `"@ + inst.id + "`: unknown primitive `"@ + p + "`"@)
        },
        InstanceSourceV::Assembly(a) => if assemblies.contains(a) {
            None
        } else {
            Some("instance `"@ + inst.id + "`: unknown assembly `"@ + a + "`"@)
        },
    }
}

/// The error for an instance of a part or sub-assembly that is not in the library, whose ids
/// are `primitives` and `assemblies`; none when it is there. Such an instance is left out.
pub fn source_error(inst: &InstanceDef, primitives: &Vec<String>, assemblies: &Vec<String>) -> (r: Option<String>)
    ensures
        opt_text(r) == unknown_source(inst@, texts(primitives@), texts(assemblies@)),
{
    match &inst.source {
        InstanceSource::Primitive(p) => {
            if holds_text(primitives, p.as_str()) {
                None
            } else {
                let mut s = concat("instance `", inst.id.as_str());
                s.append("`: unknown primitive `");
                s.append(p.as_str());
                s.append("`");
                Some(s)
            }
        },
        InstanceSource::Assembly(a) => {
            if holds_text(assemblies, a.as_str()) {
                None
            } else {
                let mut s = concat("instance `", inst.id.as_str());
                s.append("`: unknown assembly `");
                s.append(a.as_str());
                s.append("`");
                Some(s)
            }
        },
    }
}

} // verus!
