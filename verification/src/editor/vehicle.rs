//! Editing a vehicle: picking parts from the library, joining their ports, and taking them out
//! again. Every operation works on the definition that gets saved; the model is re-resolved
//! from it, so what you see is always what the file says.

use vstd::prelude::*;

use super::part::{
    args_set, args_view, fresh_name, remove_arg, set_arg, text_expr, text_expr_spec, unique,
};
use crate::expr::ast::{Expr, ExprV, copy_expr};
use crate::expr::lexer::UnitSymbols;
use crate::expr::parser::{expr_of_text, parse};
use crate::text::{
    lemma_text_less_irreflexive, lemma_text_less_total, lemma_text_less_transitive, less_text,
    text_less, Sep, concat, lemma_split_nonempty, opt_text, same_text, split, split_by, string_from, texts,
};

verus! {

/// What an instance is an instance of.
pub enum InstanceSource {
    Primitive(String),
    Assembly(String),
}

pub enum InstanceSourceV {
    Primitive(Seq<char>),
    Assembly(Seq<char>),
}

impl View for InstanceSource {
    type V = InstanceSourceV;

    open spec fn view(&self) -> InstanceSourceV {
        match self {
            InstanceSource::Primitive(s) => InstanceSourceV::Primitive(s@),
            InstanceSource::Assembly(s) => InstanceSourceV::Assembly(s@),
        }
    }
}

/// Where an instance is put by hand rather than by its joints, and why.
pub struct PlacementDef {
    pub at: Expr,
    pub rotate: Option<Expr>,
    /// The plane it is mirrored in, if it is.
    pub mirror: Option<String>,
    pub justification: String,
}

pub struct PlacementDefV {
    pub at: ExprV,
    pub rotate: Option<ExprV>,
    pub mirror: Option<Seq<char>>,
    pub justification: Seq<char>,
}

impl View for PlacementDef {
    type V = PlacementDefV;

    open spec fn view(&self) -> PlacementDefV {
        PlacementDefV {
            at: self.at@,
            rotate: match self.rotate {
                Some(e) => Some(e@),
                None => None,
            },
            mirror: opt_text(self.mirror),
            justification: self.justification@,
        }
    }
}

pub open spec fn opt_placement(p: Option<PlacementDef>) -> Option<PlacementDefV> {
    match p {
        Some(p) => Some(p@),
        None => None,
    }
}

/// One use of a part or sub-assembly in a vehicle, with its parameter and variant choices.
pub struct InstanceDef {
    pub id: String,
    pub source: InstanceSource,
    /// The version of its part or sub-assembly it was made for, where it is pinned to one.
    pub version: Option<String>,
    pub params: Vec<(String, Expr)>,
    pub variants: Vec<(String, Expr)>,
    /// Put in place by hand; none when its joints place it.
    pub placement: Option<PlacementDef>,
}

pub struct InstanceDefV {
    pub id: Seq<char>,
    pub source: InstanceSourceV,
    pub version: Option<Seq<char>>,
    pub params: Seq<(Seq<char>, ExprV)>,
    pub variants: Seq<(Seq<char>, ExprV)>,
    pub placement: Option<PlacementDefV>,
}

impl View for InstanceDef {
    type V = InstanceDefV;

    open spec fn view(&self) -> InstanceDefV {
        InstanceDefV {
            id: self.id@,
            source: self.source@,
            version: opt_text(self.version),
            params: args_view(self.params@),
            variants: args_view(self.variants@),
            placement: opt_placement(self.placement),
        }
    }
}

/// A port of an instance.
pub struct PortRef {
    pub instance: String,
    pub port: String,
}

pub struct PortRefV {
    pub instance: Seq<char>,
    pub port: Seq<char>,
}

impl View for PortRef {
    type V = PortRefV;

    open spec fn view(&self) -> PortRefV {
        PortRefV { instance: self.instance@, port: self.port@ }
    }
}

/// Who makes a joint.
#[derive(Debug, Clone, Copy, PartialEq, Eq, Structural)]
pub enum Stage {
    /// Made in the factory.
    Factory,
    /// Made by the person building the kit.
    Kit,
}

/// What a joint is fastened with, as written.
pub struct FastenerDef {
    pub kind: String,
    pub size: String,
    pub grade: String,
    pub quantity: u32,
    pub torque: Option<Expr>,
    pub nut: Option<String>,
    pub washer: Option<String>,
    pub thread_locker: Option<String>,
}

pub struct FastenerDefV {
    pub kind: Seq<char>,
    pub size: Seq<char>,
    pub grade: Seq<char>,
    pub quantity: u32,
    pub torque: Option<ExprV>,
    pub nut: Option<Seq<char>>,
    pub washer: Option<Seq<char>>,
    pub thread_locker: Option<Seq<char>>,
}

impl View for FastenerDef {
    type V = FastenerDefV;

    open spec fn view(&self) -> FastenerDefV {
        FastenerDefV {
            kind: self.kind@,
            size: self.size@,
            grade: self.grade@,
            quantity: self.quantity,
            torque: match self.torque {
                Some(e) => Some(e@),
                None => None,
            },
            nut: opt_text(self.nut),
            washer: opt_text(self.washer),
            thread_locker: opt_text(self.thread_locker),
        }
    }
}

pub open spec fn opt_fastener(o: Option<FastenerDef>) -> Option<FastenerDefV> {
    match o {
        Some(f) => Some(f@),
        None => None,
    }
}

/// A joint between two ports.
pub struct MateDef {
    pub id: String,
    pub a: PortRef,
    pub b: PortRef,
    pub stage: Option<Stage>,
    pub fasteners: Option<FastenerDef>,
}

pub struct MateDefV {
    pub id: Seq<char>,
    pub a: PortRefV,
    pub b: PortRefV,
    pub stage: Option<Stage>,
    pub fasteners: Option<FastenerDefV>,
}

impl View for MateDef {
    type V = MateDefV;

    open spec fn view(&self) -> MateDefV {
        MateDefV {
            id: self.id@,
            a: self.a@,
            b: self.b@,
            stage: self.stage,
            fasteners: match self.fasteners {
                Some(f) => Some(f@),
                None => None,
            },
        }
    }
}

/// A port the assembly offers to a parent, under its own name.
pub struct ExportDef {
    pub name: String,
    pub source: PortRef,
}

pub struct ExportDefV {
    pub name: Seq<char>,
    pub source: PortRefV,
}

impl View for ExportDef {
    type V = ExportDefV;

    open spec fn view(&self) -> ExportDefV {
        ExportDefV { name: self.name@, source: self.source@ }
    }
}

/// What a vehicle is registered as, and the rules it is checked against.
pub struct VehicleMeta {
    pub category: String,
    pub markets: Vec<String>,
    pub rule_packs: Vec<String>,
}

pub struct VehicleMetaV {
    pub category: Seq<char>,
    pub markets: Seq<Seq<char>>,
    pub rule_packs: Seq<Seq<char>>,
}

impl View for VehicleMeta {
    type V = VehicleMetaV;

    open spec fn view(&self) -> VehicleMetaV {
        VehicleMetaV {
            category: self.category@,
            markets: texts(self.markets@),
            rule_packs: texts(self.rule_packs@),
        }
    }
}

/// The chassis a vehicle is built on: a system, how it is configured, and the length of each of
/// its sections.
pub struct ChassisRef {
    pub id: String,
    pub system: String,
    pub configuration: String,
    pub width: String,
    pub rail_section: String,
    pub section_lengths: Vec<(String, Expr)>,
}

pub struct ChassisRefV {
    pub id: Seq<char>,
    pub system: Seq<char>,
    pub configuration: Seq<char>,
    pub width: Seq<char>,
    pub rail_section: Seq<char>,
    pub section_lengths: Seq<(Seq<char>, ExprV)>,
}

impl View for ChassisRef {
    type V = ChassisRefV;

    open spec fn view(&self) -> ChassisRefV {
        ChassisRefV {
            id: self.id@,
            system: self.system@,
            configuration: self.configuration@,
            width: self.width@,
            rail_section: self.rail_section@,
            section_lengths: args_view(self.section_lengths@),
        }
    }
}

/// A vehicle or sub-assembly as it is written in its definition file: what the editor changes.
pub struct AssemblyDef {
    /// A vehicle, rather than a sub-assembly.
    pub vehicle_kind: bool,
    pub id: String,
    pub version: String,
    pub description: String,
    pub instances: Vec<InstanceDef>,
    pub mates: Vec<MateDef>,
    pub root: Option<String>,
    pub exports: Vec<ExportDef>,
    pub vehicle: Option<VehicleMeta>,
    pub chassis: Option<ChassisRef>,
}

pub struct AssemblyDefV {
    pub vehicle_kind: bool,
    pub id: Seq<char>,
    pub version: Seq<char>,
    pub description: Seq<char>,
    pub instances: Seq<InstanceDefV>,
    pub mates: Seq<MateDefV>,
    pub root: Option<Seq<char>>,
    pub exports: Seq<ExportDefV>,
    pub vehicle: Option<VehicleMetaV>,
    pub chassis: Option<ChassisRefV>,
}

impl View for AssemblyDef {
    type V = AssemblyDefV;

    open spec fn view(&self) -> AssemblyDefV {
        AssemblyDefV {
            vehicle_kind: self.vehicle_kind,
            id: self.id@,
            version: self.version@,
            description: self.description@,
            instances: self.instances@.map_values(|i: InstanceDef| i@),
            mates: self.mates@.map_values(|m: MateDef| m@),
            root: opt_text(self.root),
            exports: self.exports@.map_values(|e: ExportDef| e@),
            vehicle: match self.vehicle {
                Some(v) => Some(v@),
                None => None,
            },
            chassis: match self.chassis {
                Some(c) => Some(c@),
                None => None,
            },
        }
    }
}

/// A new, empty vehicle to start from.
pub open spec fn empty_vehicle(id: Seq<char>) -> AssemblyDefV {
    AssemblyDefV {
        vehicle_kind: true,
        id,
        version: "0.1.0"@,
        description: seq![],
        instances: seq![],
        mates: seq![],
        root: None,
        exports: seq![],
        vehicle: Some(
            VehicleMetaV {
                category: "MA"@,
                markets: seq!["AU"@],
                rule_packs: seq!["wright-internal"@],
            },
        ),
        chassis: None,
    }
}

/// A new, empty vehicle to start from.
pub fn new_vehicle(id: &str) -> (r: AssemblyDef)
    ensures
        r@ == empty_vehicle(id@),
{
    let mut markets: Vec<String> = Vec::new();
    markets.push(string_from("AU"));
    let mut rule_packs: Vec<String> = Vec::new();
    rule_packs.push(string_from("wright-internal"));
    let r = AssemblyDef {
        vehicle_kind: true,
        id: string_from(id),
        version: string_from("0.1.0"),
        description: String::new(),
        instances: Vec::new(),
        mates: Vec::new(),
        root: None,
        exports: Vec::new(),
        vehicle: Some(VehicleMeta { category: string_from("MA"), markets, rule_packs }),
        chassis: None,
    };
    proof {
        let v = r@;
        let w = empty_vehicle(id@);
        assert(v.instances =~= w.instances);
        assert(v.mates =~= w.mates);
        assert(v.exports =~= w.exports);
        assert(v.vehicle->0.markets =~= w.vehicle->0.markets);
        assert(v.vehicle->0.rule_packs =~= w.vehicle->0.rule_packs);
    }
    r
}

/// A section length as the chassis reference writes it: the whole number of millimetres, as
/// text that also reads as the quantity.
pub open spec fn section_length(mm: Seq<char>) -> ExprV {
    ExprV::TextOr(
        mm + " mm"@,
        Box::new(ExprV::Num(crate::expr::ast::NumV { text: mm, unit: Some("mm"@), negated: false })),
    )
}

/// The section lengths after the first `n` sections are set, a section given twice keeping its
/// first place and its last length.
pub open spec fn section_lengths(sections: Seq<(Seq<char>, Seq<char>)>, n: int) -> Seq<(Seq<char>, ExprV)>
    decreases n,
{
    if n <= 0 {
        seq![]
    } else {
        args_set(section_lengths(sections, n - 1), sections[n - 1].0, section_length(sections[n - 1].1))
    }
}

/// Give a vehicle a chassis, or change the one it has. Each section comes with its length in
/// whole millimetres, written out.
pub fn set_chassis(
    def: &mut AssemblyDef,
    system: &str,
    configuration: &str,
    width: &str,
    rail_section: &str,
    sections: &Vec<(String, String)>,
)
    ensures
        final(def)@ == (AssemblyDefV {
            chassis: Some(
                ChassisRefV {
                    id: "chassis"@,
                    system: system@,
                    configuration: configuration@,
                    width: width@,
                    rail_section: rail_section@,
                    section_lengths: section_lengths(
                        sections@.map_values(|s: (String, String)| (s.0@, s.1@)),
                        sections@.len() as int,
                    ),
                },
            ),
            ..old(def)@
        }),
{
    let ghost sv = sections@.map_values(|s: (String, String)| (s.0@, s.1@));
    let mut lengths: Vec<(String, Expr)> = Vec::new();
    let mut i: usize = 0;
    while i < sections.len()
        invariant
            sv == sections@.map_values(|s: (String, String)| (s.0@, s.1@)),
            i <= sections@.len(),
            args_view(lengths@) == section_lengths(sv, i as int),
        decreases sections@.len() - i,
    {
        let (kind, mm) = &sections[i];
        assert(sv[i as int] == (kind@, mm@));
        let mut text = string_from(mm.as_str());
        text.append(" mm");
        let num = crate::expr::ast::NumLit { text: mm.clone(), unit: Some(string_from("mm")), negated: false };
        let ghost nv = num@;
        assert(nv == crate::expr::ast::NumV { text: mm@, unit: Some("mm"@), negated: false });
        let inner = Expr::Num(num);
        assert(inner@ == ExprV::Num(nv));
        let ghost tv = text@;
        let e = Expr::TextOr(text, Box::new(inner));
        assert(e@ == ExprV::TextOr(tv, Box::new(ExprV::Num(nv))));
        assert(e@ == section_length(mm@));
        set_arg(&mut lengths, kind.as_str(), e);
        i += 1;
    }
    def.chassis = Some(
        ChassisRef {
            id: string_from("chassis"),
            system: string_from(system),
            configuration: string_from(configuration),
            width: string_from(width),
            rail_section: string_from(rail_section),
            section_lengths: lengths,
        },
    );
}

// ------------------------------------------------------------------------------ instances

pub open spec fn instance_ids(is: Seq<InstanceDefV>) -> Seq<Seq<char>> {
    is.map_values(|i: InstanceDefV| i.id)
}

pub open spec fn mate_ids(ms: Seq<MateDefV>) -> Seq<Seq<char>> {
    ms.map_values(|m: MateDefV| m.id)
}

/// The instance id an added part starts from: the last `/` segment of what is added, with
/// dashes written as underscores.
pub open spec fn id_base(source: Seq<char>) -> Seq<char> {
    super::part::dashes_to_underscores(split(source, Sep::Char('/')).last())
}

fn ids_of_instances(is: &Vec<InstanceDef>) -> (r: Vec<String>)
    ensures
        texts(r@) == instance_ids(is@.map_values(|i: InstanceDef| i@)),
{
    let mut out: Vec<String> = Vec::new();
    let mut i: usize = 0;
    while i < is.len()
        invariant
            0 <= i <= is@.len(),
            texts(out@) == instance_ids(is@.map_values(|i: InstanceDef| i@)).subrange(0, i as int),
        decreases is@.len() - i,
    {
        let ghost before = texts(out@);
        out.push(is[i].id.clone());
        proof {
            assert(texts(out@) =~= before.push(is@[i as int].id@));
            assert(instance_ids(is@.map_values(|i: InstanceDef| i@)).subrange(0, i + 1) =~= before.push(
                is@[i as int].id@,
            ));
        }
        i += 1;
    }
    assert(instance_ids(is@.map_values(|i: InstanceDef| i@)).subrange(0, is@.len() as int)
        =~= instance_ids(is@.map_values(|i: InstanceDef| i@)));
    out
}

fn ids_of_mates(ms: &Vec<MateDef>) -> (r: Vec<String>)
    ensures
        texts(r@) == mate_ids(ms@.map_values(|m: MateDef| m@)),
{
    let mut out: Vec<String> = Vec::new();
    let mut i: usize = 0;
    while i < ms.len()
        invariant
            0 <= i <= ms@.len(),
            texts(out@) == mate_ids(ms@.map_values(|m: MateDef| m@)).subrange(0, i as int),
        decreases ms@.len() - i,
    {
        let ghost before = texts(out@);
        out.push(ms[i].id.clone());
        proof {
            assert(texts(out@) =~= before.push(ms@[i as int].id@));
            assert(mate_ids(ms@.map_values(|m: MateDef| m@)).subrange(0, i + 1) =~= before.push(
                ms@[i as int].id@,
            ));
        }
        i += 1;
    }
    assert(mate_ids(ms@.map_values(|m: MateDef| m@)).subrange(0, ms@.len() as int) =~= mate_ids(
        ms@.map_values(|m: MateDef| m@),
    ));
    out
}

/// A short, unique instance id derived from what is being added.
pub fn unique_id(def: &AssemblyDef, source: &str) -> (r: String)
    ensures
        fresh_name(id_base(source@), instance_ids(def@.instances), r@),
{
    let pieces = split_by(source, Sep::Char('/'));
    proof {
        lemma_split_nonempty(source@, Sep::Char('/'));
    }
    let last = pieces.len() - 1;
    let base = super::part::replace_dashes(pieces[last].as_str());
    let taken = ids_of_instances(&def.instances);
    unique(base.as_str(), &taken)
}

/// A thing that can be added to a vehicle.
pub struct CatalogueEntry {
    pub id: String,
    pub kind: EntryKind,
    pub category: String,
    pub description: String,
}

#[derive(Clone, Copy, Debug, PartialEq, Eq, Structural)]
pub enum EntryKind {
    Primitive,
    Assembly,
}

pub struct CatalogueEntryV {
    pub id: Seq<char>,
    pub kind: EntryKind,
    pub category: Seq<char>,
    pub description: Seq<char>,
}

impl View for CatalogueEntry {
    type V = CatalogueEntryV;

    open spec fn view(&self) -> CatalogueEntryV {
        CatalogueEntryV {
            id: self.id@,
            kind: self.kind,
            category: self.category@,
            description: self.description@,
        }
    }
}

impl CatalogueEntry {
    /// A copy of this entry.
    pub fn copy(&self) -> (r: CatalogueEntry)
        ensures
            r@ == self@,
    {
        CatalogueEntry {
            id: self.id.clone(),
            kind: self.kind,
            category: self.category.clone(),
            description: self.description.clone(),
        }
    }
}

/// What the instance added for an entry is an instance of.
pub open spec fn source_of(e: CatalogueEntryV) -> InstanceSourceV {
    match e.kind {
        EntryKind::Primitive => InstanceSourceV::Primitive(e.id),
        EntryKind::Assembly => InstanceSourceV::Assembly(e.id),
    }
}

/// Add an instance of a catalogue entry, with no choices made yet; returns its id.
pub fn add_instance(def: &mut AssemblyDef, entry: &CatalogueEntry) -> (r: String)
    ensures
        fresh_name(id_base(entry@.id), instance_ids(old(def)@.instances), r@),
        final(def)@ == (AssemblyDefV {
            instances: old(def)@.instances.push(
                InstanceDefV { id: r@, source: source_of(entry@), version: None, params: seq![], variants: seq![], placement: None },
            ),
            ..old(def)@
        }),
{
    let id = unique_id(def, entry.id.as_str());
    let source = match entry.kind {
        EntryKind::Primitive => InstanceSource::Primitive(entry.id.clone()),
        EntryKind::Assembly => InstanceSource::Assembly(entry.id.clone()),
    };
    let inst = InstanceDef { id: id.clone(), source, version: None, params: Vec::new(), variants: Vec::new(), placement: None };
    assert(inst@.params =~= Seq::<(Seq<char>, ExprV)>::empty());
    assert(inst@.variants =~= Seq::<(Seq<char>, ExprV)>::empty());
    def.instances.push(inst);
    assert(def@.instances =~= old(def)@.instances.push(
        InstanceDefV { id: id@, source: source_of(entry@), version: None, params: seq![], variants: seq![], placement: None },
    ));
    id
}

/// Does joint `m` touch instance `id`?
pub open spec fn touches(m: MateDefV, id: Seq<char>) -> bool {
    m.a.instance == id || m.b.instance == id
}

pub open spec fn instances_without(is: Seq<InstanceDefV>, id: Seq<char>) -> Seq<InstanceDefV>
    decreases is.len(),
{
    if is.len() == 0 {
        seq![]
    } else if is[0].id == id {
        instances_without(is.drop_first(), id)
    } else {
        seq![is[0]] + instances_without(is.drop_first(), id)
    }
}

pub open spec fn mates_without(ms: Seq<MateDefV>, id: Seq<char>) -> Seq<MateDefV>
    decreases ms.len(),
{
    if ms.len() == 0 {
        seq![]
    } else if touches(ms[0], id) {
        mates_without(ms.drop_first(), id)
    } else {
        seq![ms[0]] + mates_without(ms.drop_first(), id)
    }
}

pub open spec fn exports_without(es: Seq<ExportDefV>, id: Seq<char>) -> Seq<ExportDefV>
    decreases es.len(),
{
    if es.len() == 0 {
        seq![]
    } else if es[0].source.instance == id {
        exports_without(es.drop_first(), id)
    } else {
        seq![es[0]] + exports_without(es.drop_first(), id)
    }
}

pub open spec fn mates_named_without(ms: Seq<MateDefV>, id: Seq<char>) -> Seq<MateDefV>
    decreases ms.len(),
{
    if ms.len() == 0 {
        seq![]
    } else if ms[0].id == id {
        mates_named_without(ms.drop_first(), id)
    } else {
        seq![ms[0]] + mates_named_without(ms.drop_first(), id)
    }
}

/// Remove an instance and every mate that touched it, so the file never keeps a dangling
/// reference that would fail to load. Returns how many mates went with it.
pub fn remove_instance(def: &mut AssemblyDef, id: &str) -> (r: usize)
    ensures
        final(def)@ == (AssemblyDefV {
            instances: instances_without(old(def)@.instances, id@),
            mates: mates_without(old(def)@.mates, id@),
            exports: exports_without(old(def)@.exports, id@),
            root: if old(def)@.root == Some(id@) {
                None
            } else {
                old(def)@.root
            },
            ..old(def)@
        }),
        r == old(def)@.mates.len() - mates_without(old(def)@.mates, id@).len(),
{
    let ghost d0 = def@;
    // instances
    let mut i: usize = 0;
    assert(def@.instances.subrange(0, 0) + def@.instances.subrange(0, def@.instances.len() as int)
        =~= d0.instances);
    while i < def.instances.len()
        invariant
            0 <= i <= def.instances@.len(),
            def@ == (AssemblyDefV { instances: def@.instances, ..d0 }),
            instances_without(d0.instances, id@) == def@.instances.subrange(0, i as int)
                + instances_without(def@.instances.subrange(i as int, def@.instances.len() as int), id@),
        decreases def.instances@.len() - i,
    {
        let ghost vs = def@.instances;
        let ghost rest = vs.subrange(i as int, vs.len() as int);
        assert(rest.drop_first() =~= vs.subrange(i + 1, vs.len() as int));
        if same_text(def.instances[i].id.as_str(), id) {
            def.instances.remove(i);
            proof {
                let nv = def@.instances;
                assert(nv.subrange(0, i as int) =~= vs.subrange(0, i as int));
                assert(nv.subrange(i as int, nv.len() as int) =~= rest.drop_first());
            }
        } else {
            i += 1;
            proof {
                assert(vs.subrange(0, i as int) =~= vs.subrange(0, i - 1).push(rest[0]));
                assert(vs.subrange(0, i - 1) + (seq![rest[0]] + instances_without(rest.drop_first(), id@))
                    =~= vs.subrange(0, i as int) + instances_without(rest.drop_first(), id@));
            }
        }
    }
    assert(def@.instances.subrange(0, i as int) =~= def@.instances);
    assert(def@.instances + Seq::<InstanceDefV>::empty() =~= def@.instances);
    let ghost d1 = def@;
    // mates
    let before = def.mates.len();
    let mut i: usize = 0;
    assert(def@.mates.subrange(0, 0) + def@.mates.subrange(0, def@.mates.len() as int) =~= d1.mates);
    while i < def.mates.len()
        invariant
            0 <= i <= def.mates@.len(),
            def@ == (AssemblyDefV { mates: def@.mates, ..d1 }),
            mates_without(d1.mates, id@) == def@.mates.subrange(0, i as int) + mates_without(
                def@.mates.subrange(i as int, def@.mates.len() as int),
                id@,
            ),
        decreases def.mates@.len() - i,
    {
        let ghost vs = def@.mates;
        let ghost rest = vs.subrange(i as int, vs.len() as int);
        assert(rest.drop_first() =~= vs.subrange(i + 1, vs.len() as int));
        if same_text(def.mates[i].a.instance.as_str(), id) || same_text(
            def.mates[i].b.instance.as_str(),
            id,
        ) {
            def.mates.remove(i);
            proof {
                let nv = def@.mates;
                assert(nv.subrange(0, i as int) =~= vs.subrange(0, i as int));
                assert(nv.subrange(i as int, nv.len() as int) =~= rest.drop_first());
            }
        } else {
            i += 1;
            proof {
                assert(vs.subrange(0, i as int) =~= vs.subrange(0, i - 1).push(rest[0]));
                assert(vs.subrange(0, i - 1) + (seq![rest[0]] + mates_without(rest.drop_first(), id@))
                    =~= vs.subrange(0, i as int) + mates_without(rest.drop_first(), id@));
            }
        }
    }
    assert(def@.mates.subrange(0, i as int) =~= def@.mates);
    assert(def@.mates + Seq::<MateDefV>::empty() =~= def@.mates);
    proof {
        lemma_without_shorter(d1.mates, id@);
    }
    let ghost d2 = def@;
    // exports
    let mut i: usize = 0;
    assert(def@.exports.subrange(0, 0) + def@.exports.subrange(0, def@.exports.len() as int) =~= d2.exports);
    while i < def.exports.len()
        invariant
            0 <= i <= def.exports@.len(),
            def@ == (AssemblyDefV { exports: def@.exports, ..d2 }),
            exports_without(d2.exports, id@) == def@.exports.subrange(0, i as int) + exports_without(
                def@.exports.subrange(i as int, def@.exports.len() as int),
                id@,
            ),
        decreases def.exports@.len() - i,
    {
        let ghost vs = def@.exports;
        let ghost rest = vs.subrange(i as int, vs.len() as int);
        assert(rest.drop_first() =~= vs.subrange(i + 1, vs.len() as int));
        if same_text(def.exports[i].source.instance.as_str(), id) {
            def.exports.remove(i);
            proof {
                let nv = def@.exports;
                assert(nv.subrange(0, i as int) =~= vs.subrange(0, i as int));
                assert(nv.subrange(i as int, nv.len() as int) =~= rest.drop_first());
            }
        } else {
            i += 1;
            proof {
                assert(vs.subrange(0, i as int) =~= vs.subrange(0, i - 1).push(rest[0]));
                assert(vs.subrange(0, i - 1) + (seq![rest[0]] + exports_without(rest.drop_first(), id@))
                    =~= vs.subrange(0, i as int) + exports_without(rest.drop_first(), id@));
            }
        }
    }
    assert(def@.exports.subrange(0, i as int) =~= def@.exports);
    assert(def@.exports + Seq::<ExportDefV>::empty() =~= def@.exports);
    let clear = match &def.root {
        Some(r) => same_text(r.as_str(), id),
        None => false,
    };
    if clear {
        def.root = None;
    }
    before - def.mates.len()
}

proof fn lemma_without_shorter(ms: Seq<MateDefV>, id: Seq<char>)
    ensures
        mates_without(ms, id).len() <= ms.len(),
    decreases ms.len(),
{
    if ms.len() > 0 {
        lemma_without_shorter(ms.drop_first(), id);
    }
}

/// Every joint that survives no longer touches the removed instance.
proof fn lemma_mates_without_touch(ms: Seq<MateDefV>, id: Seq<char>)
    ensures
        forall|i: int| 0 <= i < mates_without(ms, id).len() ==> !touches(#[trigger] mates_without(ms, id)[i], id),
    decreases ms.len(),
{
    if ms.len() > 0 {
        lemma_mates_without_touch(ms.drop_first(), id);
        let rest = mates_without(ms.drop_first(), id);
        if !touches(ms[0], id) {
            assert forall|i: int| 0 <= i < (seq![ms[0]] + rest).len() implies !touches(
                #[trigger] (seq![ms[0]] + rest)[i],
                id,
            ) by {
                if i > 0 {
                    assert((seq![ms[0]] + rest)[i] == rest[i - 1]);
                }
            }
        }
    }
}

/// Removing an instance leaves no joint and no root pointing at it, and the count it returns
/// is how many joints went.
pub proof fn law_removal_leaves_nothing_dangling(before: AssemblyDefV, after: AssemblyDefV, id: Seq<char>, count: int)
    requires
        after == (AssemblyDefV {
            instances: instances_without(before.instances, id),
            mates: mates_without(before.mates, id),
            exports: exports_without(before.exports, id),
            root: if before.root == Some(id) {
                None
            } else {
                before.root
            },
            ..before
        }),
        count == before.mates.len() - mates_without(before.mates, id).len(),
    ensures
        forall|i: int| 0 <= i < after.mates.len() ==> !touches(#[trigger] after.mates[i], id),
        after.root != Some(id),
        count == before.mates.len() - after.mates.len(),
{
    lemma_mates_without_touch(before.mates, id);
}

/// Remove the joints named `id`.
pub fn remove_mate(def: &mut AssemblyDef, id: &str)
    ensures
        final(def)@ == (AssemblyDefV { mates: mates_named_without(old(def)@.mates, id@), ..old(def)@ }),
{
    let ghost d0 = def@;
    let mut i: usize = 0;
    assert(def@.mates.subrange(0, 0) + def@.mates.subrange(0, def@.mates.len() as int) =~= d0.mates);
    while i < def.mates.len()
        invariant
            0 <= i <= def.mates@.len(),
            def@ == (AssemblyDefV { mates: def@.mates, ..d0 }),
            mates_named_without(d0.mates, id@) == def@.mates.subrange(0, i as int) + mates_named_without(
                def@.mates.subrange(i as int, def@.mates.len() as int),
                id@,
            ),
        decreases def.mates@.len() - i,
    {
        let ghost vs = def@.mates;
        let ghost rest = vs.subrange(i as int, vs.len() as int);
        assert(rest.drop_first() =~= vs.subrange(i + 1, vs.len() as int));
        if same_text(def.mates[i].id.as_str(), id) {
            def.mates.remove(i);
            proof {
                let nv = def@.mates;
                assert(nv.subrange(0, i as int) =~= vs.subrange(0, i as int));
                assert(nv.subrange(i as int, nv.len() as int) =~= rest.drop_first());
            }
        } else {
            i += 1;
            proof {
                assert(vs.subrange(0, i as int) =~= vs.subrange(0, i - 1).push(rest[0]));
                assert(vs.subrange(0, i - 1) + (seq![rest[0]] + mates_named_without(rest.drop_first(), id@))
                    =~= vs.subrange(0, i as int) + mates_named_without(rest.drop_first(), id@));
            }
        }
    }
    assert(def@.mates.subrange(0, i as int) =~= def@.mates);
    assert(def@.mates + Seq::<MateDefV>::empty() =~= def@.mates);
}

/// The position of the first instance named `id` at or after `i`.
pub open spec fn instance_from(is: Seq<InstanceDefV>, id: Seq<char>, i: int) -> Option<int>
    decreases is.len() - i,
{
    if i < 0 || i >= is.len() {
        None
    } else if is[i].id == id {
        Some(i)
    } else {
        instance_from(is, id, i + 1)
    }
}

fn find_instance(is: &Vec<InstanceDef>, id: &str) -> (r: Option<usize>)
    ensures
        match r {
            Some(i) => instance_from(is@.map_values(|x: InstanceDef| x@), id@, 0) == Some(i as int) && i
                < is@.len(),
            None => instance_from(is@.map_values(|x: InstanceDef| x@), id@, 0) is None,
        },
{
    let ghost iv = is@.map_values(|x: InstanceDef| x@);
    let mut i: usize = 0;
    while i < is.len()
        invariant
            iv == is@.map_values(|x: InstanceDef| x@),
            0 <= i <= is@.len(),
            instance_from(iv, id@, 0) == instance_from(iv, id@, i as int),
        decreases is@.len() - i,
    {
        if same_text(is[i].id.as_str(), id) {
            return Some(i);
        }
        i += 1;
    }
    None
}

/// An override as it is stored: the typed text, with its parse when it parses.
pub open spec fn override_expr(text: Seq<char>, units: Seq<Seq<char>>) -> ExprV {
    match expr_of_text(text, units) {
        Ok(parsed) => ExprV::TextOr(text, Box::new(parsed)),
        Err(_) => ExprV::Str(text),
    }
}

/// The parameter overrides of an instance after setting or clearing `name`.
pub open spec fn params_after(
    params: Seq<(Seq<char>, ExprV)>,
    name: Seq<char>,
    value: Option<Seq<char>>,
    units: Seq<Seq<char>>,
) -> Seq<(Seq<char>, ExprV)> {
    match value {
        Some(text) => args_set(params, name, override_expr(text, units)),
        None => super::part::args_remove(params, name),
    }
}

/// Set or clear one parameter override on the first instance named `instance`.
pub fn set_param(
    def: &mut AssemblyDef,
    instance: &str,
    name: &str,
    value: Option<String>,
    units: &UnitSymbols,
)
    ensures
        final(def)@ == (match instance_from(old(def)@.instances, instance@, 0) {
            Some(i) => AssemblyDefV {
                instances: old(def)@.instances.update(
                    i,
                    InstanceDefV {
                        params: params_after(old(def)@.instances[i].params, name@, opt_text(value), units@),
                        ..old(def)@.instances[i]
                    },
                ),
                ..old(def)@
            },
            None => old(def)@,
        }),
{
    let ghost vv = opt_text(value);
    let i = match find_instance(&def.instances, instance) {
        Some(i) => i,
        None => {
            return;
        },
    };
    let ghost d0 = def@;
    match value {
        Some(text) => {
            let e = match parse(text.as_str(), units) {
                Ok(parsed) => Expr::TextOr(text, Box::new(parsed)),
                Err(_) => Expr::Str(text),
            };
            set_arg(&mut def.instances[i].params, name, e);
        },
        None => {
            remove_arg(&mut def.instances[i].params, name);
        },
    }
    assert(def@.instances =~= d0.instances.update(
        i as int,
        InstanceDefV { params: params_after(d0.instances[i as int].params, name@, vv, units@), ..d0.instances[i as int] },
    ));
}

/// A variant choice as it is stored: the option, as text.
pub open spec fn choice_expr(option: Seq<char>) -> ExprV {
    ExprV::TextOr(option, Box::new(ExprV::Str(option)))
}

/// Choose option `option` for variant `name` of the first instance named `instance`.
pub fn set_variant(def: &mut AssemblyDef, instance: &str, name: &str, option: &str)
    ensures
        final(def)@ == (match instance_from(old(def)@.instances, instance@, 0) {
            Some(i) => AssemblyDefV {
                instances: old(def)@.instances.update(
                    i,
                    InstanceDefV {
                        variants: args_set(old(def)@.instances[i].variants, name@, choice_expr(option@)),
                        ..old(def)@.instances[i]
                    },
                ),
                ..old(def)@
            },
            None => old(def)@,
        }),
{
    let i = match find_instance(&def.instances, instance) {
        Some(i) => i,
        None => {
            return;
        },
    };
    let ghost d0 = def@;
    let inner = Expr::Str(string_from(option));
    assert(inner@ == ExprV::Str(option@));
    let e = Expr::TextOr(string_from(option), Box::new(inner));
    assert(e@ == choice_expr(option@));
    set_arg(&mut def.instances[i].variants, name, e);
    assert(def@.instances =~= d0.instances.update(
        i as int,
        InstanceDefV {
            variants: args_set(d0.instances[i as int].variants, name@, choice_expr(option@)),
            ..d0.instances[i as int]
        },
    ));
}

/// The placement an instance gets when `at` is typed for it: at that position, keeping any
/// rotation, mirror and reason it had; none when `at` is cleared.
pub open spec fn placed_at(
    old: Option<PlacementDefV>,
    at: Option<Seq<char>>,
    units: Seq<Seq<char>>,
) -> Option<PlacementDefV> {
    match at {
        Some(text) => Some(
            PlacementDefV {
                at: text_expr_spec(text, units),
                rotate: match old {
                    Some(p) => p.rotate,
                    None => None,
                },
                mirror: match old {
                    Some(p) => p.mirror,
                    None => None,
                },
                justification: match old {
                    Some(p) => p.justification,
                    None => "placed by hand in the editor"@,
                },
            },
        ),
        None => None,
    }
}

/// Place the first instance named `instance` by hand at the position typed, or, with none,
/// leave it to its joints again.
pub fn set_placement(def: &mut AssemblyDef, instance: &str, at: Option<String>, units: &UnitSymbols)
    ensures
        final(def)@ == (match instance_from(old(def)@.instances, instance@, 0) {
            Some(i) => AssemblyDefV {
                instances: old(def)@.instances.update(
                    i,
                    InstanceDefV {
                        placement: placed_at(old(def)@.instances[i].placement, opt_text(at), units@),
                        ..old(def)@.instances[i]
                    },
                ),
                ..old(def)@
            },
            None => old(def)@,
        }),
{
    let i = match find_instance(&def.instances, instance) {
        Some(i) => i,
        None => {
            return;
        },
    };
    let ghost d0 = def@;
    let ghost before = d0.instances[i as int].placement;
    let placement = match at {
        Some(text) => {
            let (rotate, mirror, justification) = match &def.instances[i].placement {
                Some(p) => {
                    let rotate = match &p.rotate {
                        Some(e) => Some(copy_expr(e)),
                        None => None,
                    };
                    let mirror = match &p.mirror {
                        Some(m) => Some(m.clone()),
                        None => None,
                    };
                    (rotate, mirror, p.justification.clone())
                },
                None => (None, None, string_from("placed by hand in the editor")),
            };
            let p = PlacementDef { at: text_expr(text.as_str(), units), rotate, mirror, justification };
            Some(p)
        },
        None => None,
    };
    assert(opt_placement(placement) == placed_at(before, opt_text(at), units@));
    def.instances[i].placement = placement;
    assert(def@.instances =~= d0.instances.update(
        i as int,
        InstanceDefV { placement: placed_at(before, opt_text(at), units@), ..d0.instances[i as int] },
    ));
}

/// Make `id` the fixed part that everything else is placed from.
pub fn set_root(def: &mut AssemblyDef, id: &str)
    ensures
        final(def)@ == (AssemblyDefV { root: Some(id@), ..old(def)@ }),
{
    def.root = Some(string_from(id));
}

// ---------------------------------------------------------------------------------- joints

/// A unique mate id built from the two things being joined.
pub fn unique_mate_id(def: &AssemblyDef, a: &PortRef, b: &PortRef) -> (r: String)
    ensures
        fresh_name(a@.instance + "_"@ + b@.instance, mate_ids(def@.mates), r@),
{
    let mut base = concat(a.instance.as_str(), "_");
    base.append(b.instance.as_str());
    let taken = ids_of_mates(&def.mates);
    unique(base.as_str(), &taken)
}

/// Join two ports, made by the person building the kit; returns the joint's id. The caller has
/// already checked that the ports may be joined.
pub fn add_mate(def: &mut AssemblyDef, a: PortRef, b: PortRef, fasteners: Option<FastenerDef>) -> (r: String)
    ensures
        fresh_name(a@.instance + "_"@ + b@.instance, mate_ids(old(def)@.mates), r@),
        final(def)@ == (AssemblyDefV {
            mates: old(def)@.mates.push(
                MateDefV {
                    id: r@,
                    a: a@,
                    b: b@,
                    stage: Some(Stage::Kit),
                    fasteners: opt_fastener(fasteners),
                },
            ),
            ..old(def)@
        }),
{
    let id = unique_mate_id(def, &a, &b);
    let ghost av = a@;
    let ghost bv = b@;
    let ghost fv = opt_fastener(fasteners);
    def.mates.push(MateDef { id: id.clone(), a, b, stage: Some(Stage::Kit), fasteners });
    assert(def@.mates =~= old(def)@.mates.push(
        MateDefV { id: id@, a: av, b: bv, stage: Some(Stage::Kit), fasteners: fv },
    ));
    id
}

/// A starting fastener for a joint: one grade 8.8 bolt of the given size, M10 when none is
/// given, so a new mate is not silently missing what the instructions and the bill of materials
/// both need.
pub fn default_fastener(bolt: Option<&str>) -> (r: FastenerDef)
    ensures
        r@ == (FastenerDefV {
            kind: "bolt"@,
            size: match bolt {
                Some(b) => b@,
                None => "M10"@,
            },
            grade: "8.8"@,
            quantity: 1,
            torque: None,
            nut: None,
            washer: None,
            thread_locker: None,
        }),
{
    let size = match bolt {
        Some(b) => string_from(b),
        None => string_from("M10"),
    };
    FastenerDef {
        kind: string_from("bolt"),
        size,
        grade: string_from("8.8"),
        quantity: 1,
        torque: None,
        nut: None,
        washer: None,
        thread_locker: None,
    }
}

/// One end of a joint.
#[derive(Debug, Clone, Copy, PartialEq, Eq, Structural)]
pub enum JointEnd {
    A,
    B,
}

/// The position of the first joint named `id` at or after `i`.
pub open spec fn mate_from(ms: Seq<MateDefV>, id: Seq<char>, i: int) -> Option<int>
    decreases ms.len() - i,
{
    if i < 0 || i >= ms.len() {
        None
    } else if ms[i].id == id {
        Some(i)
    } else {
        mate_from(ms, id, i + 1)
    }
}

fn find_mate(ms: &Vec<MateDef>, id: &str) -> (r: Option<usize>)
    ensures
        match r {
            Some(i) => mate_from(ms@.map_values(|m: MateDef| m@), id@, 0) == Some(i as int) && i
                < ms@.len(),
            None => mate_from(ms@.map_values(|m: MateDef| m@), id@, 0) is None,
        },
{
    let ghost mv = ms@.map_values(|m: MateDef| m@);
    let mut i: usize = 0;
    while i < ms.len()
        invariant
            mv == ms@.map_values(|m: MateDef| m@),
            0 <= i <= ms@.len(),
            mate_from(mv, id@, 0) == mate_from(mv, id@, i as int),
        decreases ms@.len() - i,
    {
        if same_text(ms[i].id.as_str(), id) {
            return Some(i);
        }
        i += 1;
    }
    None
}

/// Joint `m` with one end moved to `port` of `unit`.
pub open spec fn retargeted(m: MateDefV, end: JointEnd, unit: Seq<char>, port: Seq<char>) -> MateDefV {
    match end {
        JointEnd::A => MateDefV { a: PortRefV { instance: unit, port }, ..m },
        JointEnd::B => MateDefV { b: PortRefV { instance: unit, port }, ..m },
    }
}

/// Move one end of the first joint named `id` to `port` of `unit`.
pub fn retarget_joint(def: &mut AssemblyDef, id: &str, end: JointEnd, unit: &str, port: &str)
    ensures
        final(def)@ == (match mate_from(old(def)@.mates, id@, 0) {
            Some(i) => AssemblyDefV {
                mates: old(def)@.mates.update(i, retargeted(old(def)@.mates[i], end, unit@, port@)),
                ..old(def)@
            },
            None => old(def)@,
        }),
{
    let i = match find_mate(&def.mates, id) {
        Some(i) => i,
        None => {
            return;
        },
    };
    let ghost d0 = def@;
    let r = PortRef { instance: string_from(unit), port: string_from(port) };
    match end {
        JointEnd::A => {
            def.mates[i].a = r;
        },
        JointEnd::B => {
            def.mates[i].b = r;
        },
    }
    assert(def@.mates =~= d0.mates.update(i as int, retargeted(d0.mates[i as int], end, unit@, port@)));
}

/// The joint being made in the editor: the port picked first, and the one picked to join it.
pub struct JointPick {
    pub a: Option<(String, String)>,
    pub b: Option<(String, String)>,
}

pub struct JointPickV {
    pub a: Option<(Seq<char>, Seq<char>)>,
    pub b: Option<(Seq<char>, Seq<char>)>,
}

pub open spec fn opt_pair(p: Option<(String, String)>) -> Option<(Seq<char>, Seq<char>)> {
    match p {
        Some(p) => Some((p.0@, p.1@)),
        None => None,
    }
}

impl View for JointPick {
    type V = JointPickV;

    open spec fn view(&self) -> JointPickV {
        JointPickV { a: opt_pair(self.a), b: opt_pair(self.b) }
    }
}

/// What picking a port did, so the caller knows whether to look for candidates again.
#[derive(Debug, Clone, Copy, PartialEq, Eq, Structural)]
pub enum PickOutcome {
    /// It is the first end of a new joint.
    Started,
    /// It was the first end again: the joint is abandoned.
    Cleared,
    /// It can join the first end, and is chosen to.
    Chosen,
    /// It cannot join the first end, so it starts a new joint instead.
    Restarted,
}

pub open spec fn pair_views(v: Seq<(String, String)>) -> Seq<(Seq<char>, Seq<char>)> {
    v.map_values(|p: (String, String)| (p.0@, p.1@))
}

/// The joint after picking port `port` of `unit`, where `candidates` are the ports that can
/// join the first end.
pub open spec fn picked(
    s: JointPickV,
    unit: Seq<char>,
    port: Seq<char>,
    candidates: Seq<(Seq<char>, Seq<char>)>,
) -> (JointPickV, PickOutcome) {
    match s.a {
        None => (JointPickV { a: Some((unit, port)), b: None }, PickOutcome::Started),
        Some(a) => if a == (unit, port) {
            (JointPickV { a: None, b: None }, PickOutcome::Cleared)
        } else if candidates.contains((unit, port)) {
            (JointPickV { a: s.a, b: Some((unit, port)) }, PickOutcome::Chosen)
        } else {
            (JointPickV { a: Some((unit, port)), b: None }, PickOutcome::Restarted)
        },
    }
}

/// Pick port `port` of `unit` while making a joint.
pub fn pick_port(pick: &mut JointPick, unit: &str, port: &str, candidates: &Vec<(String, String)>) -> (r:
    PickOutcome)
    ensures
        (final(pick)@, r) == picked(old(pick)@, unit@, port@, pair_views(candidates@)),
{
    let chosen = (string_from(unit), string_from(port));
    let same = match &pick.a {
        None => {
            pick.a = Some(chosen);
            pick.b = None;
            return PickOutcome::Started;
        },
        Some(a) => same_text(a.0.as_str(), unit) && same_text(a.1.as_str(), port),
    };
    if same {
        pick.a = None;
        pick.b = None;
        return PickOutcome::Cleared;
    }
    let ghost cv = pair_views(candidates@);
    let mut i: usize = 0;
    while i < candidates.len()
        invariant
            cv == pair_views(candidates@),
            0 <= i <= candidates@.len(),
            pick@ == old(pick)@,
            old(pick)@.a matches Some(a) && a != (unit@, port@),
            chosen.0@ == unit@,
            chosen.1@ == port@,
            forall|k: int| 0 <= k < i ==> cv[k] != (unit@, port@),
        decreases candidates@.len() - i,
    {
        assert(cv[i as int] == (candidates@[i as int].0@, candidates@[i as int].1@));
        if same_text(candidates[i].0.as_str(), unit) && same_text(candidates[i].1.as_str(), port) {
            assert(cv.contains((unit@, port@)));
            pick.b = Some(chosen);
            return PickOutcome::Chosen;
        }
        i += 1;
    }
    pick.a = Some(chosen);
    pick.b = None;
    PickOutcome::Restarted
}

// ------------------------------------------------------------------------------ catalogue

/// A part of the library, as the catalogue lists it.
pub struct PrimitiveSummary {
    pub id: String,
    pub category: String,
    pub description: String,
}

/// An assembly of the library, as the catalogue lists it.
pub struct AssemblySummary {
    pub id: String,
    /// A whole vehicle rather than a sub-assembly.
    pub vehicle: bool,
    pub description: String,
}

/// What the library holds, each kind in the order of its ids.
pub struct LibraryIndex {
    pub primitives: Vec<PrimitiveSummary>,
    pub assemblies: Vec<AssemblySummary>,
}

pub open spec fn primitive_entry(p: PrimitiveSummary) -> CatalogueEntryV {
    CatalogueEntryV {
        id: p.id@,
        kind: EntryKind::Primitive,
        category: p.category@,
        description: p.description@,
    }
}

pub open spec fn assembly_entry(a: AssemblySummary) -> CatalogueEntryV {
    CatalogueEntryV {
        id: a.id@,
        kind: EntryKind::Assembly,
        category: split(a.id@, Sep::Char('/'))[0],
        description: a.description@,
    }
}

/// The sub-assemblies of a list, as entries: a vehicle is not a component.
pub open spec fn assembly_entries(s: Seq<AssemblySummary>) -> Seq<CatalogueEntryV>
    decreases s.len(),
{
    if s.len() == 0 {
        seq![]
    } else if s.last().vehicle {
        assembly_entries(s.drop_last())
    } else {
        assembly_entries(s.drop_last()).push(assembly_entry(s.last()))
    }
}

/// Everything in the library that can be placed, before sorting.
pub open spec fn listed(lib: LibraryIndex) -> Seq<CatalogueEntryV> {
    lib.primitives@.map_values(|p: PrimitiveSummary| primitive_entry(p)) + assembly_entries(
        lib.assemblies@,
    )
}

/// `a` sorts no later than `b`: by category, then by id.
pub open spec fn entry_le(a: CatalogueEntryV, b: CatalogueEntryV) -> bool {
    text_less(a.category, b.category) || (a.category == b.category && !text_less(b.id, a.id))
}

pub open spec fn entries_sorted(s: Seq<CatalogueEntryV>) -> bool {
    forall|i: int, j: int| 0 <= i < j < s.len() ==> entry_le(#[trigger] s[i], #[trigger] s[j])
}

proof fn lemma_entry_le_total(a: CatalogueEntryV, b: CatalogueEntryV)
    ensures
        entry_le(a, b) || entry_le(b, a),
        !entry_le(a, b) ==> entry_le(b, a),
{
    lemma_text_less_total(a.category, b.category);
    lemma_text_less_total(a.id, b.id);
}

proof fn lemma_entry_le_transitive(a: CatalogueEntryV, b: CatalogueEntryV, c: CatalogueEntryV)
    requires
        entry_le(a, b),
        entry_le(b, c),
    ensures
        entry_le(a, c),
{
    lemma_text_less_total(a.category, b.category);
    lemma_text_less_total(b.category, c.category);
    lemma_text_less_total(a.id, b.id);
    lemma_text_less_total(b.id, c.id);
    lemma_text_less_total(a.id, c.id);
    if text_less(a.category, b.category) && text_less(b.category, c.category) {
        lemma_text_less_transitive(a.category, b.category, c.category);
    }
    if a.category == b.category && b.category == c.category {
        if text_less(c.id, a.id) {
            if text_less(b.id, a.id) {
            } else if b.id == a.id {
            } else {
                assert(text_less(a.id, b.id));
                lemma_text_less_transitive(c.id, a.id, b.id);
            }
        }
    }
}

/// `s`, sorted, with `e` added after every entry that does not sort later than it.
pub open spec fn insert_entry_spec(s: Seq<CatalogueEntryV>, e: CatalogueEntryV) -> Seq<CatalogueEntryV>
    decreases s.len(),
{
    if s.len() == 0 {
        seq![e]
    } else if !entry_le(s.last(), e) {
        insert_entry_spec(s.drop_last(), e).push(s.last())
    } else {
        s.push(e)
    }
}

/// `l` sorted by category and then id, entries that tie keeping their order: what a stable sort
/// gives.
pub open spec fn sorted_entries(l: Seq<CatalogueEntryV>) -> Seq<CatalogueEntryV>
    decreases l.len(),
{
    if l.len() == 0 {
        seq![]
    } else {
        insert_entry_spec(sorted_entries(l.drop_last()), l.last())
    }
}

proof fn lemma_insert_front(s: Seq<CatalogueEntryV>, e: CatalogueEntryV, i: int)
    requires
        entries_sorted(s),
        0 <= i <= s.len(),
        forall|t: int| 0 <= t < i ==> entry_le(#[trigger] s[t], e),
        i < s.len() ==> !entry_le(s[i], e),
    ensures
        insert_entry_spec(s, e) == s.insert(i, e),
    decreases s.len(),
{
    if s.len() == 0 {
        assert(s.insert(i, e) =~= seq![e]);
    } else if i == s.len() {
        assert(entry_le(s[s.len() - 1], e));
        assert(s.insert(i, e) =~= s.push(e));
    } else {
        let l = s.len() - 1;
        if l > i {
            assert(entry_le(s[i], s[l]));
            if entry_le(s[l], e) {
                lemma_entry_le_transitive(s[i], s[l], e);
            }
        }
        assert(!entry_le(s.last(), e));
        let d = s.drop_last();
        assert(entries_sorted(d)) by {
            assert forall|a: int, b: int| 0 <= a < b < d.len() implies entry_le(#[trigger] d[a], #[trigger] d[b]) by {
                assert(d[a] == s[a] && d[b] == s[b]);
            }
        }
        assert forall|t: int| 0 <= t < i implies entry_le(#[trigger] d[t], e) by {
            assert(d[t] == s[t]);
        }
        if i < d.len() {
            assert(d[i] == s[i]);
        }
        lemma_insert_front(d, e, i);
        assert(d.insert(i, e).push(s.last()) =~= s.insert(i, e));
    }
}

fn entry_before(a: &CatalogueEntry, b: &CatalogueEntry) -> (r: bool)
    ensures
        r == !entry_le(b@, a@),
{
    proof {
        lemma_text_less_total(a@.category, b@.category);
        lemma_text_less_irreflexive(a@.category);
    }
    if less_text(a.category.as_str(), b.category.as_str()) {
        true
    } else if same_text(a.category.as_str(), b.category.as_str()) {
        less_text(a.id.as_str(), b.id.as_str())
    } else {
        false
    }
}

/// Add `e` to a sorted list after every entry that does not sort later than it.
fn insert_entry(out: &mut Vec<CatalogueEntry>, e: CatalogueEntry)
    requires
        entries_sorted(old(out)@.map_values(|x: CatalogueEntry| x@)),
    ensures
        entries_sorted(final(out)@.map_values(|x: CatalogueEntry| x@)),
        final(out)@.map_values(|x: CatalogueEntry| x@).to_multiset() == old(out)@.map_values(
            |x: CatalogueEntry| x@,
        ).to_multiset().insert(e@),
        final(out)@.map_values(|x: CatalogueEntry| x@) == insert_entry_spec(
            old(out)@.map_values(|x: CatalogueEntry| x@),
            e@,
        ),
{
    let ghost v0 = out@.map_values(|x: CatalogueEntry| x@);
    let ghost ev = e@;
    let mut i: usize = 0;
    while i < out.len() && !entry_before(&e, &out[i])
        invariant
            v0 == out@.map_values(|x: CatalogueEntry| x@),
            ev == e@,
            0 <= i <= out@.len(),
            forall|j: int| 0 <= j < i ==> entry_le(#[trigger] v0[j], ev),
        decreases out@.len() - i,
    {
        i += 1;
    }
    out.insert(i, e);
    proof {
        let v1 = out@.map_values(|x: CatalogueEntry| x@);
        assert(v1 =~= v0.insert(i as int, ev));
        lemma_insert_front(v0, ev, i as int);
        vstd::seq_lib::to_multiset_insert(v0, i as int, ev);
        if i < v0.len() {
            assert(!entry_le(v0[i as int], ev));
            lemma_entry_le_total(v0[i as int], ev);
        }
        assert forall|a: int, b: int| 0 <= a < b < v1.len() implies entry_le(#[trigger] v1[a], #[trigger] v1[b]) by {
            if b < i {
            } else if a < i && b == i {
            } else if a < i && b > i {
                assert(v1[b] == v0[b - 1]);
                lemma_entry_le_transitive(v0[a], ev, v0[i as int]);
                if b - 1 > i {
                    lemma_entry_le_transitive(v0[a], v0[i as int], v0[b - 1]);
                }
            } else if a == i {
                assert(v1[b] == v0[b - 1]);
                if b - 1 > i {
                    lemma_entry_le_transitive(ev, v0[i as int], v0[b - 1]);
                }
            } else {
                assert(v1[a] == v0[a - 1] && v1[b] == v0[b - 1]);
            }
        }
    }
}

/// Everything in the library that can be placed, sorted by category and then by id.
pub fn catalogue(lib: &LibraryIndex) -> (r: Vec<CatalogueEntry>)
    ensures
        r@.map_values(|x: CatalogueEntry| x@) == sorted_entries(listed(*lib)),
        entries_sorted(r@.map_values(|x: CatalogueEntry| x@)),
        r@.map_values(|x: CatalogueEntry| x@).to_multiset() == listed(*lib).to_multiset(),
{
    let mut out: Vec<CatalogueEntry> = Vec::new();
    let ghost all = listed(*lib);
    let ghost prims = lib.primitives@.map_values(|p: PrimitiveSummary| primitive_entry(p));
    let mut i: usize = 0;
    assert(out@.map_values(|x: CatalogueEntry| x@) =~= prims.subrange(0, 0));
    while i < lib.primitives.len()
        invariant
            prims == lib.primitives@.map_values(|p: PrimitiveSummary| primitive_entry(p)),
            0 <= i <= lib.primitives@.len(),
            entries_sorted(out@.map_values(|x: CatalogueEntry| x@)),
            out@.map_values(|x: CatalogueEntry| x@).to_multiset() == prims.subrange(0, i as int).to_multiset(),
            out@.map_values(|x: CatalogueEntry| x@) == sorted_entries(prims.subrange(0, i as int)),
        decreases lib.primitives@.len() - i,
    {
        let p = &lib.primitives[i];
        let e = CatalogueEntry {
            id: p.id.clone(),
            kind: EntryKind::Primitive,
            category: p.category.clone(),
            description: p.description.clone(),
        };
        assert(e@ == prims[i as int]);
        insert_entry(&mut out, e);
        proof {
            assert(prims.subrange(0, i + 1) =~= prims.subrange(0, i as int).push(prims[i as int]));
            assert(prims.subrange(0, i + 1).drop_last() =~= prims.subrange(0, i as int));
            vstd::seq_lib::to_multiset_build(prims.subrange(0, i as int), prims[i as int]);
        }
        i += 1;
    }
    assert(prims.subrange(0, prims.len() as int) =~= prims);
    let ghost subs = assembly_entries(lib.assemblies@);
    let mut k: usize = 0;
    while k < lib.assemblies.len()
        invariant
            prims == lib.primitives@.map_values(|p: PrimitiveSummary| primitive_entry(p)),
            0 <= k <= lib.assemblies@.len(),
            entries_sorted(out@.map_values(|x: CatalogueEntry| x@)),
            out@.map_values(|x: CatalogueEntry| x@).to_multiset() == (prims + assembly_entries(
                lib.assemblies@.subrange(0, k as int),
            )).to_multiset(),
            out@.map_values(|x: CatalogueEntry| x@) == sorted_entries(
                prims + assembly_entries(lib.assemblies@.subrange(0, k as int)),
            ),
        decreases lib.assemblies@.len() - k,
    {
        let a = &lib.assemblies[k];
        let ghost pre = lib.assemblies@.subrange(0, k as int);
        proof {
            assert(lib.assemblies@.subrange(0, k + 1).drop_last() =~= pre);
        }
        if !a.vehicle {
            let pieces = split_by(a.id.as_str(), Sep::Char('/'));
            proof {
                lemma_split_nonempty(a.id@, Sep::Char('/'));
            }
            let e = CatalogueEntry {
                id: a.id.clone(),
                kind: EntryKind::Assembly,
                category: pieces[0].clone(),
                description: a.description.clone(),
            };
            assert(e@ == assembly_entry(lib.assemblies@[k as int]));
            insert_entry(&mut out, e);
            proof {
                let before = prims + assembly_entries(pre);
                assert(prims + assembly_entries(pre).push(e@) =~= before.push(e@));
                assert(before.push(e@).drop_last() =~= before);
                vstd::seq_lib::to_multiset_build(before, e@);
            }
        }
        k += 1;
    }
    assert(lib.assemblies@.subrange(0, lib.assemblies@.len() as int) =~= lib.assemblies@);
    out
}

// ---------------------------------------------------------------------- ports on the bench

/// A port a thing in the vehicle offers.
pub struct PortSlot {
    pub name: String,
    pub port_type: String,
}

/// The ports one thing in the vehicle offers to joints.
pub struct UnitPorts {
    pub unit: String,
    pub ports: Vec<PortSlot>,
}

/// The position of the first thing named `unit` at or after `i`.
pub open spec fn unit_from(ms: Seq<UnitPorts>, unit: Seq<char>, i: int) -> Option<int>
    decreases ms.len() - i,
{
    if i < 0 || i >= ms.len() {
        None
    } else if ms[i].unit@ == unit {
        Some(i)
    } else {
        unit_from(ms, unit, i + 1)
    }
}

/// The position of the first port named `port` at or after `k`.
pub open spec fn slot_from(ps: Seq<PortSlot>, port: Seq<char>, k: int) -> Option<int>
    decreases ps.len() - k,
{
    if k < 0 || k >= ps.len() {
        None
    } else if ps[k].name@ == port {
        Some(k)
    } else {
        slot_from(ps, port, k + 1)
    }
}

/// The first thing named `unit`, and in it the first port named `port`.
pub open spec fn port_at(mateable: Seq<UnitPorts>, unit: Seq<char>, port: Seq<char>) -> Option<(int, int)> {
    match unit_from(mateable, unit, 0) {
        Some(i) => match slot_from(mateable[i].ports@, port, 0) {
            Some(k) => Some((i, k)),
            None => None,
        },
        None => None,
    }
}

/// The port `port` of the first thing named `unit`.
pub fn find_port<'a>(mateable: &'a [UnitPorts], unit: &str, port: &str) -> (r: Option<&'a PortSlot>)
    ensures
        match port_at(mateable@, unit@, port@) {
            Some((i, k)) => r == Some(&mateable@[i].ports@[k]),
            None => r is None,
        },
{
    let mut i: usize = 0;
    while i < mateable.len()
        invariant
            0 <= i <= mateable@.len(),
            unit_from(mateable@, unit@, 0) == unit_from(mateable@, unit@, i as int),
        decreases mateable@.len() - i,
    {
        if same_text(mateable[i].unit.as_str(), unit) {
            let ps = &mateable[i].ports;
            let mut k: usize = 0;
            while k < ps.len()
                invariant
                    i < mateable@.len(),
                    mateable@[i as int].unit@ == unit@,
                    unit_from(mateable@, unit@, 0) == unit_from(mateable@, unit@, i as int),
                    *ps == mateable@[i as int].ports,
                    0 <= k <= ps@.len(),
                    slot_from(ps@, port@, 0) == slot_from(ps@, port@, k as int),
                decreases ps@.len() - k,
            {
                if same_text(ps[k].name.as_str(), port) {
                    assert(slot_from(ps@, port@, k as int) == Some(k as int));
                    assert(unit_from(mateable@, unit@, i as int) == Some(i as int));
                    assert(port_at(mateable@, unit@, port@) == Some((i as int, k as int)));
                    return Some(&ps[k]);
                }
                k += 1;
            }
            return None;
        }
        i += 1;
    }
    None
}

} // verus!
