//! The decisions of building one geometry level from its features.
//!
//! A level is a list of features read in order. Primitive features (a box, a cylinder, a tube,
//! a box tube) each make a body; booleans take two bodies by name and put back their
//! combination; a bare `union` fuses everything built so far; `mirror` copies a body in a plane;
//! `hull` wraps a level built earlier. At the end every body left is fused into the level's
//! solid. Which bodies are taken, what each new body is called, and what is wrong with a feature
//! that names nothing or something that is not there is decided here. The solids, and reading
//! the numbers a primitive feature needs, are the geometry kernel's work in the application,
//! which performs each action in turn.

use vstd::prelude::*;

use crate::expr::ast::copy_texts;
use crate::model::chassis::{name_from, position_in};
use crate::model::variants::{named_from, pairs_view, position_named};
use crate::text::{concat, decimal, decimal_text, holds_text, opt_text, same_text, string_from, texts};

use super::{GeomError, GeomErrorV};

verus! {

/// A feature as the level sees it: its operation, its name if it has one, and its arguments as
/// text.
pub struct FeatureShape {
    pub op: String,
    pub name: Option<String>,
    pub args: Vec<(String, String)>,
}

pub struct FeatureShapeV {
    pub op: Seq<char>,
    pub name: Option<Seq<char>>,
    pub args: Seq<(Seq<char>, Seq<char>)>,
}

impl View for FeatureShape {
    type V = FeatureShapeV;

    open spec fn view(&self) -> FeatureShapeV {
        FeatureShapeV { op: self.op@, name: opt_text(self.name), args: pairs_view(self.args@) }
    }
}

/// The bodies built so far, by name in the order they were built, and how many unnamed bodies
/// have been numbered.
pub struct LevelBodies {
    pub names: Vec<String>,
    pub counter: usize,
}

pub struct LevelBodiesV {
    pub names: Seq<Seq<char>>,
    pub counter: nat,
}

impl View for LevelBodies {
    type V = LevelBodiesV;

    open spec fn view(&self) -> LevelBodiesV {
        LevelBodiesV { names: texts(self.names@), counter: self.counter as nat }
    }
}

#[derive(Debug, Clone, Copy, PartialEq, Eq, Structural)]
pub enum Combine {
    Union,
    Subtract,
    Intersect,
}

#[derive(Debug, Clone, Copy, PartialEq, Eq, Structural)]
pub enum Plane {
    XY,
    XZ,
    YZ,
}

/// What the kernel is to do for one feature.
#[derive(Debug)]
pub enum LevelAct {
    /// Build the feature's primitive solid and add it under `name`.
    Make { name: String },
    /// Take out the body at `a`, then the body at `b` of those left, and add their combination
    /// under `name`.
    Combine { op: Combine, a: usize, b: usize, name: String },
    /// Fuse every body built so far into one, called `result`.
    FuseAll,
    /// Add a mirrored copy of the body at `of` under `name`.
    Mirror { of: usize, plane: Plane, name: String },
    /// Add the hull of the manufacture level (else the display level) under `name`.
    Hull { manufacture: bool, name: String },
}

pub enum LevelActV {
    Make { name: Seq<char> },
    Combine { op: Combine, a: int, b: int, name: Seq<char> },
    FuseAll,
    Mirror { of: int, plane: Plane, name: Seq<char> },
    Hull { manufacture: bool, name: Seq<char> },
}

impl View for LevelAct {
    type V = LevelActV;

    open spec fn view(&self) -> LevelActV {
        match self {
            LevelAct::Make { name } => LevelActV::Make { name: name@ },
            LevelAct::Combine { op, a, b, name } => LevelActV::Combine {
                op: *op,
                a: *a as int,
                b: *b as int,
                name: name@,
            },
            LevelAct::FuseAll => LevelActV::FuseAll,
            LevelAct::Mirror { of, plane, name } => LevelActV::Mirror { of: *of as int, plane: *plane, name: name@ },
            LevelAct::Hull { manufacture, name } => LevelActV::Hull { manufacture: *manufacture, name: name@ },
        }
    }
}

/// How a feature is named in what is reported of it: its name, else its operation.
pub open spec fn label(f: FeatureShapeV) -> Seq<char> {
    match f.name {
        Some(n) => n,
        None => f.op,
    }
}

pub open spec fn fault(f: FeatureShapeV, message: Seq<char>) -> GeomErrorV {
    GeomErrorV::Feature(label(f), message)
}

/// The text of argument `k`: that of its first entry.
pub open spec fn arg(f: FeatureShapeV, k: Seq<char>) -> Option<Seq<char>> {
    match named_from(f.args, k, 0) {
        Some(i) => Some(f.args[i].1),
        None => None,
    }
}

/// The name a new body gets, and the count of numbered bodies after it: the feature's own
/// name, else the next of `body1`, `body2`, ...
pub open spec fn fresh(s: LevelBodiesV, f: FeatureShapeV) -> (Seq<char>, nat) {
    match f.name {
        Some(n) => (n, s.counter),
        None => ("body"@ + decimal(s.counter + 1), s.counter + 1),
    }
}

/// The bodies after adding one for `f`.
pub open spec fn added(s: LevelBodiesV, names: Seq<Seq<char>>, f: FeatureShapeV) -> LevelBodiesV {
    LevelBodiesV { names: names.push(fresh(s, f).0), counter: fresh(s, f).1 }
}

pub open spec fn is_primitive(op: Seq<char>) -> bool {
    op == "box"@ || op == "cylinder"@ || op == "tube"@ || op == "box_tube"@
}

pub open spec fn combine_of(op: Seq<char>) -> Combine {
    if op == "union"@ {
        Combine::Union
    } else if op == "subtract"@ {
        Combine::Subtract
    } else {
        Combine::Intersect
    }
}

pub open spec fn plane_of(p: Seq<char>) -> Option<Plane> {
    if p == "xy"@ {
        Some(Plane::XY)
    } else if p == "xz"@ {
        Some(Plane::XZ)
    } else if p == "yz"@ {
        Some(Plane::YZ)
    } else {
        None
    }
}

pub open spec fn missing(f: FeatureShapeV, n: Seq<char>) -> GeomErrorV {
    fault(f, "no body named `"@ + n + "`"@)
}

/// A boolean between two named bodies.
pub open spec fn combine_step(s: LevelBodiesV, f: FeatureShapeV) -> Result<(LevelBodiesV, LevelActV), GeomErrorV> {
    match arg(f, "a"@) {
        None => Err(fault(f, f.op + " needs a="@)),
        Some(an) => match arg(f, "b"@) {
            None => Err(fault(f, f.op + " needs b="@)),
            Some(bn) => match name_from(s.names, an, 0) {
                None => Err(missing(f, an)),
                Some(ia) => {
                    let rest = s.names.remove(ia);
                    match name_from(rest, bn, 0) {
                        None => Err(missing(f, bn)),
                        Some(ib) => Ok(
                            (
                                added(s, rest.remove(ib), f),
                                LevelActV::Combine { op: combine_of(f.op), a: ia, b: ib, name: fresh(s, f).0 },
                            ),
                        ),
                    }
                },
            },
        },
    }
}

/// What feature `f` does to the bodies `s`, with the levels `built` already built, or what is
/// wrong with it.
pub open spec fn step_spec(s: LevelBodiesV, f: FeatureShapeV, built: Seq<Seq<char>>) -> Result<
    (LevelBodiesV, LevelActV),
    GeomErrorV,
> {
    let op = f.op;
    if is_primitive(op) {
        Ok((added(s, s.names, f), LevelActV::Make { name: fresh(s, f).0 }))
    } else if op == "union"@ || op == "subtract"@ || op == "intersect"@ {
        if f.args.len() == 0 && f.name is None {
            if op != "union"@ {
                Err(fault(f, op + " needs a=X b=Y"@))
            } else if s.names.len() == 0 {
                Err(fault(f, "union with nothing built yet"@))
            } else {
                Ok((LevelBodiesV { names: seq!["result"@], counter: s.counter }, LevelActV::FuseAll))
            }
        } else {
            combine_step(s, f)
        }
    } else if op == "mirror"@ {
        match arg(f, "of"@) {
            None => Err(fault(f, "mirror needs of="@)),
            Some(of) => {
                let plane = match arg(f, "plane"@) {
                    Some(p) => p,
                    None => "xz"@,
                };
                match plane_of(plane) {
                    None => Err(fault(f, "unknown mirror plane `"@ + plane + "`"@)),
                    Some(pl) => match name_from(s.names, of, 0) {
                        None => Err(missing(f, of)),
                        Some(i) => Ok(
                            (added(s, s.names, f), LevelActV::Mirror { of: i, plane: pl, name: fresh(s, f).0 }),
                        ),
                    },
                }
            },
        }
    } else if op == "hull"@ {
        if built.contains("manufacture"@) {
            Ok((added(s, s.names, f), LevelActV::Hull { manufacture: true, name: fresh(s, f).0 }))
        } else if built.contains("display"@) {
            Ok((added(s, s.names, f), LevelActV::Hull { manufacture: false, name: fresh(s, f).0 }))
        } else {
            Err(fault(f, "hull needs a manufacture or display level built first"@))
        }
    } else {
        Err(fault(f, "unknown geometry feature `"@ + op + "`"@))
    }
}

impl LevelBodies {
    /// Nothing built yet.
    pub fn new() -> (r: LevelBodies)
        ensures
            r@ == (LevelBodiesV { names: seq![], counter: 0 }),
    {
        let r = LevelBodies { names: Vec::new(), counter: 0 };
        assert(r@.names =~= Seq::<Seq<char>>::empty());
        r
    }
}

fn arg_text(f: &FeatureShape, k: &str) -> (r: Option<String>)
    ensures
        opt_text(r) == arg(f@, k@),
{
    match position_named(&f.args, k) {
        Some(i) => {
            assert(pairs_view(f.args@)[i as int] == (f.args@[i as int].0@, f.args@[i as int].1@));
            Some(f.args[i].1.clone())
        },
        None => None,
    }
}

fn label_text(f: &FeatureShape) -> (r: String)
    ensures
        r@ == label(f@),
{
    match &f.name {
        Some(n) => n.clone(),
        None => f.op.clone(),
    }
}

fn fault_of(f: &FeatureShape, message: String) -> (r: GeomError)
    ensures
        r@ == fault(f@, message@),
{
    GeomError::Feature(label_text(f), message)
}

fn missing_of(f: &FeatureShape, n: &str) -> (r: GeomError)
    ensures
        r@ == missing(f@, n@),
{
    let mut m = concat("no body named `", n);
    m.append("`");
    fault_of(f, m)
}

/// Name the new body for `f` and count it.
fn take_name(bodies: &mut LevelBodies, f: &FeatureShape) -> (r: String)
    requires
        old(bodies).counter < usize::MAX,
    ensures
        r@ == fresh(old(bodies)@, f@).0,
        final(bodies).counter == fresh(old(bodies)@, f@).1,
        final(bodies).names@ == old(bodies).names@,
{
    match &f.name {
        Some(n) => n.clone(),
        None => {
            bodies.counter = bodies.counter + 1;
            let d = decimal_text(bodies.counter as u128);
            concat("body", d.as_str())
        },
    }
}

fn add_body(bodies: &mut LevelBodies, name: &String)
    ensures
        final(bodies)@ == (LevelBodiesV { names: old(bodies)@.names.push(name@), counter: old(bodies)@.counter }),
{
    bodies.names.push(name.clone());
    assert(texts(bodies.names@) =~= texts(old(bodies).names@).push(name@));
}

fn remove_body(bodies: &mut LevelBodies, i: usize)
    requires
        i < old(bodies).names@.len(),
    ensures
        final(bodies)@ == (LevelBodiesV { names: old(bodies)@.names.remove(i as int), counter: old(bodies)@.counter }),
{
    bodies.names.remove(i);
    assert(texts(bodies.names@) =~= texts(old(bodies).names@).remove(i as int));
}

/// Read feature `f` of a level, the levels named `built` having been built already: what the
/// kernel is to do, with the bodies updated to what it will leave; or what is wrong with the
/// feature, with the bodies as they were. Numbering an unnamed body must not run out of count.
pub fn level_step(bodies: &mut LevelBodies, f: &FeatureShape, built: &Vec<String>) -> (r: Result<LevelAct, GeomError>)
    requires
        old(bodies).counter < usize::MAX,
    ensures
        match r {
            Ok(a) => step_spec(old(bodies)@, f@, texts(built@)) == Ok::<(LevelBodiesV, LevelActV), GeomErrorV>(
                (final(bodies)@, a@),
            ),
            Err(e) => step_spec(old(bodies)@, f@, texts(built@)) == Err::<(LevelBodiesV, LevelActV), GeomErrorV>(e@)
                && final(bodies)@ == old(bodies)@,
        },
{
    let ghost s0 = bodies@;
    let op = f.op.as_str();
    if same_text(op, "box") || same_text(op, "cylinder") || same_text(op, "tube") || same_text(op, "box_tube") {
        let name = take_name(bodies, f);
        add_body(bodies, &name);
        return Ok(LevelAct::Make { name });
    }
    let is_union = same_text(op, "union");
    if is_union || same_text(op, "subtract") || same_text(op, "intersect") {
        if f.args.len() == 0 && f.name.is_none() {
            if !is_union {
                return Err(fault_of(f, concat(op, " needs a=X b=Y")));
            }
            if bodies.names.len() == 0 {
                return Err(fault_of(f, string_from("union with nothing built yet")));
            }
            bodies.names = Vec::new();
            bodies.names.push(string_from("result"));
            assert(bodies@.names =~= seq!["result"@]);
            return Ok(LevelAct::FuseAll);
        }
        let an = match arg_text(f, "a") {
            Some(a) => a,
            None => {
                return Err(fault_of(f, concat(op, " needs a=")));
            },
        };
        let bn = match arg_text(f, "b") {
            Some(b) => b,
            None => {
                return Err(fault_of(f, concat(op, " needs b=")));
            },
        };
        let ia = match position_in(&bodies.names, an.as_str()) {
            Some(i) => i,
            None => {
                return Err(missing_of(f, an.as_str()));
            },
        };
        let mut rest = copy_texts(&bodies.names);
        rest.remove(ia);
        assert(texts(rest@) =~= s0.names.remove(ia as int));
        let ib = match position_in(&rest, bn.as_str()) {
            Some(i) => i,
            None => {
                return Err(missing_of(f, bn.as_str()));
            },
        };
        let name = take_name(bodies, f);
        remove_body(bodies, ia);
        remove_body(bodies, ib);
        add_body(bodies, &name);
        let c = if is_union {
            Combine::Union
        } else if same_text(op, "subtract") {
            Combine::Subtract
        } else {
            Combine::Intersect
        };
        return Ok(LevelAct::Combine { op: c, a: ia, b: ib, name });
    }
    if same_text(op, "mirror") {
        let of = match arg_text(f, "of") {
            Some(o) => o,
            None => {
                return Err(fault_of(f, string_from("mirror needs of=")));
            },
        };
        let plane_text = match arg_text(f, "plane") {
            Some(p) => p,
            None => string_from("xz"),
        };
        let plane = if same_text(plane_text.as_str(), "xy") {
            Plane::XY
        } else if same_text(plane_text.as_str(), "xz") {
            Plane::XZ
        } else if same_text(plane_text.as_str(), "yz") {
            Plane::YZ
        } else {
            let mut m = concat("unknown mirror plane `", plane_text.as_str());
            m.append("`");
            return Err(fault_of(f, m));
        };
        let i = match position_in(&bodies.names, of.as_str()) {
            Some(i) => i,
            None => {
                return Err(missing_of(f, of.as_str()));
            },
        };
        let name = take_name(bodies, f);
        add_body(bodies, &name);
        return Ok(LevelAct::Mirror { of: i, plane, name });
    }
    if same_text(op, "hull") {
        let manufacture = holds_text(built, "manufacture");
        if !manufacture && !holds_text(built, "display") {
            return Err(fault_of(f, string_from("hull needs a manufacture or display level built first")));
        }
        let name = take_name(bodies, f);
        add_body(bodies, &name);
        return Ok(LevelAct::Hull { manufacture, name });
    }
    let mut m = concat("unknown geometry feature `", op);
    m.append("`");
    Err(fault_of(f, m))
}

/// The end of a level: its bodies are fused into its solid, and a level that built nothing is
/// an error.
pub fn level_finish(bodies: &LevelBodies, level: &str) -> (r: Result<(), GeomError>)
    ensures
        r is Ok <==> bodies@.names.len() > 0,
        r matches Err(e) ==> e@ == GeomErrorV::Feature(level@, "level produced no geometry"@),
{
    if bodies.names.len() == 0 {
        Err(GeomError::Feature(string_from(level), string_from("level produced no geometry")))
    } else {
        Ok(())
    }
}

} // verus!
