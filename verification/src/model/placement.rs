//! Where each part of an assembly is, derived rather than authored.
//!
//! One part is held fixed (the root), parts with a stated placement are put where they say, and
//! every other part is positioned by walking outward along the mate graph: a joint whose one end
//! is placed places the other. That is what makes a change to the chassis ripple through the
//! whole vehicle instead of leaving parts floating where a designer last dragged them.
//!
//! This module decides which joint places which part, and in what order; composing the port
//! frames into positions along that order is floating point work done by the application.

use vstd::prelude::*;

use super::errors::MateAxis;
use super::reach::{
    law_placement, lemma_ends, lemma_pop, lemma_start, lemma_visit_from, walk_inv,
};
use crate::text::{
    concat, decimal, decimal_text, join, join_with, opt_text, same_text, string_from, texts,
};

verus! {

/// How an instance came to be where it is.
#[derive(Debug)]
pub enum PlacedBy {
    /// Held fixed at the assembly origin.
    Root,
    /// Positioned by this mate.
    Mate(String),
    /// Positioned explicitly, with the justification recorded.
    Free(String),
    /// Not reachable through mates; left at the origin and reported.
    Unreached,
}

pub enum PlacedByV {
    Root,
    Mate(Seq<char>),
    Free(Seq<char>),
    Unreached,
}

impl View for PlacedBy {
    type V = PlacedByV;

    open spec fn view(&self) -> PlacedByV {
        match self {
            PlacedBy::Root => PlacedByV::Root,
            PlacedBy::Mate(m) => PlacedByV::Mate(m@),
            PlacedBy::Free(w) => PlacedByV::Free(w@),
            PlacedBy::Unreached => PlacedByV::Unreached,
        }
    }
}

impl PlacedBy {
    /// A copy of this value.
    pub fn copy(&self) -> (r: PlacedBy)
        ensures
            r@ == self@,
    {
        match self {
            PlacedBy::Root => PlacedBy::Root,
            PlacedBy::Mate(m) => PlacedBy::Mate(m.clone()),
            PlacedBy::Free(w) => PlacedBy::Free(w.clone()),
            PlacedBy::Unreached => PlacedBy::Unreached,
        }
    }
}

// ------------------------------------------------------------------------------ the graph

/// A port of a unit whose frame is known, and whether its port type mates aligned rather than
/// face to face.
pub struct PortFrame {
    pub name: String,
    pub aligned: bool,
}

/// One thing that can be mated: a part, or a whole sub-assembly.
pub struct PlacementUnit {
    pub id: String,
    /// A stated placement, with its justification.
    pub free: Option<String>,
    /// The ports whose frames are known.
    pub ports: Vec<PortFrame>,
}

/// A joint, and whether its two ports may legally be joined.
pub struct PlacementMate {
    pub id: String,
    pub a: String,
    pub a_port: String,
    pub b: String,
    pub b_port: String,
    pub compatible: bool,
}

pub struct PortFrameV {
    pub name: Seq<char>,
    pub aligned: bool,
}

pub struct UnitV {
    pub id: Seq<char>,
    pub free: Option<Seq<char>>,
    pub ports: Seq<PortFrameV>,
}

pub struct MateV {
    pub id: Seq<char>,
    pub a: Seq<char>,
    pub a_port: Seq<char>,
    pub b: Seq<char>,
    pub b_port: Seq<char>,
    pub compatible: bool,
}

impl View for PortFrame {
    type V = PortFrameV;

    open spec fn view(&self) -> PortFrameV {
        PortFrameV { name: self.name@, aligned: self.aligned }
    }
}

impl View for PlacementUnit {
    type V = UnitV;

    open spec fn view(&self) -> UnitV {
        UnitV {
            id: self.id@,
            free: crate::text::opt_text(self.free),
            ports: self.ports@.map_values(|p: PortFrame| p@),
        }
    }
}

impl View for PlacementMate {
    type V = MateV;

    open spec fn view(&self) -> MateV {
        MateV {
            id: self.id@,
            a: self.a@,
            a_port: self.a_port@,
            b: self.b@,
            b_port: self.b_port@,
            compatible: self.compatible,
        }
    }
}

pub open spec fn units_view(v: Seq<PlacementUnit>) -> Seq<UnitV> {
    v.map_values(|u: PlacementUnit| u@)
}

pub open spec fn mates_view(v: Seq<PlacementMate>) -> Seq<MateV> {
    v.map_values(|m: PlacementMate| m@)
}

/// The unit a joint names by `id`: the last of that id.
pub open spec fn index_upto(us: Seq<UnitV>, id: Seq<char>, n: int) -> Option<int>
    decreases n,
{
    if n <= 0 {
        None
    } else if us[n - 1].id == id {
        Some(n - 1)
    } else {
        index_upto(us, id, n - 1)
    }
}

pub open spec fn index_of(us: Seq<UnitV>, id: Seq<char>) -> Option<int> {
    index_upto(us, id, us.len() as int)
}

pub proof fn lemma_index_upto(us: Seq<UnitV>, id: Seq<char>, n: int)
    requires
        n <= us.len(),
    ensures
        match index_upto(us, id, n) {
            Some(i) => 0 <= i < n && us[i].id == id,
            None => true,
        },
    decreases n,
{
    if n > 0 && us[n - 1].id != id {
        lemma_index_upto(us, id, n - 1);
    }
}

/// The position of the first known frame named `p` at or after `k`.
pub open spec fn frame_from(ps: Seq<PortFrameV>, p: Seq<char>, k: int) -> Option<int>
    decreases ps.len() - k,
{
    if k < 0 || k >= ps.len() {
        None
    } else if ps[k].name == p {
        Some(k)
    } else {
        frame_from(ps, p, k + 1)
    }
}

pub proof fn lemma_frame_from(ps: Seq<PortFrameV>, p: Seq<char>, k: int)
    requires
        0 <= k,
    ensures
        match frame_from(ps, p, k) {
            Some(j) => k <= j < ps.len() && ps[j].name == p,
            None => true,
        },
    decreases ps.len() - k,
{
    if k < ps.len() && ps[k].name != p {
        lemma_frame_from(ps, p, k + 1);
    }
}

/// The unit has a known frame for port `p`.
pub open spec fn has_frame(u: UnitV, p: Seq<char>) -> bool {
    frame_from(u.ports, p, 0) is Some
}

/// How a joint at port `p` of `u` orients the part it places.
pub open spec fn axis_at(u: UnitV, p: Seq<char>) -> MateAxis {
    match frame_from(u.ports, p, 0) {
        Some(k) => if u.ports[k].aligned {
            MateAxis::Aligned
        } else {
            MateAxis::Opposed
        },
        None => MateAxis::Opposed,
    }
}

/// The first unit with no stated placement, at or after `i`.
pub open spec fn first_unfixed(us: Seq<UnitV>, i: int) -> Option<int>
    decreases us.len() - i,
{
    if i < 0 || i >= us.len() {
        None
    } else if us[i].free is None {
        Some(i)
    } else {
        first_unfixed(us, i + 1)
    }
}

pub proof fn lemma_first_unfixed(us: Seq<UnitV>, i: int)
    requires
        0 <= i,
    ensures
        match first_unfixed(us, i) {
            Some(j) => i <= j < us.len() && us[j].free is None,
            None => true,
        },
    decreases us.len() - i,
{
    if i < us.len() && us[i].free is Some {
        lemma_first_unfixed(us, i + 1);
    }
}

/// The unit held fixed: the named root when there is such a unit, otherwise the first unit
/// with no stated placement.
pub open spec fn root_index(root: Option<Seq<char>>, us: Seq<UnitV>) -> Option<int> {
    match root {
        Some(r) => match index_of(us, r) {
            Some(i) => Some(i),
            None => first_unfixed(us, 0),
        },
        None => first_unfixed(us, 0),
    }
}

/// The two units a joint joins, when both exist.
pub open spec fn ends(us: Seq<UnitV>, m: MateV) -> Option<(int, int)> {
    match (index_of(us, m.a), index_of(us, m.b)) {
        (Some(a), Some(b)) => Some((a, b)),
        _ => None,
    }
}

/// A joint that can place: it passed its compatibility check and both its ends exist. Placing
/// through an invalid joint would produce a plausible-looking but wrong model.
pub open spec fn usable(us: Seq<UnitV>, m: MateV) -> bool {
    m.compatible && ends(us, m) is Some
}

/// Both ports of a usable joint have known frames.
pub open spec fn framed(us: Seq<UnitV>, m: MateV) -> bool {
    let (a, b) = ends(us, m)->0;
    has_frame(us[a], m.a_port) && has_frame(us[b], m.b_port)
}

/// A unit placed before any joint is followed: the root, or one with a stated placement.
pub open spec fn seed(root: Option<Seq<char>>, us: Seq<UnitV>, i: int) -> bool {
    us[i].free is Some || root_index(root, us) == Some(i)
}

// ------------------------------------------------------------------------------- the plan

/// One part placed through one joint: `to` is put where the joint says, relative to `from`,
/// which is already placed.
pub struct PlacementStep {
    pub to: usize,
    pub from: usize,
    pub mate: usize,
    pub from_port: String,
    pub to_port: String,
    pub axis: MateAxis,
}

pub struct PlacementStepV {
    pub to: int,
    pub from: int,
    pub mate: int,
    pub from_port: Seq<char>,
    pub to_port: Seq<char>,
    pub axis: MateAxis,
}

impl View for PlacementStep {
    type V = PlacementStepV;

    open spec fn view(&self) -> PlacementStepV {
        PlacementStepV {
            to: self.to as int,
            from: self.from as int,
            mate: self.mate as int,
            from_port: self.from_port@,
            to_port: self.to_port@,
            axis: self.axis,
        }
    }
}

pub open spec fn steps_view(v: Seq<PlacementStep>) -> Seq<PlacementStepV> {
    v.map_values(|s: PlacementStep| s@)
}

pub open spec fn placed_view(v: Seq<PlacedBy>) -> Seq<PlacedByV> {
    v.map_values(|p: PlacedBy| p@)
}

/// Step `k` places its part through a usable, framed joint, from a part already placed.
pub open spec fn step_ok(
    root: Option<Seq<char>>,
    us: Seq<UnitV>,
    ms: Seq<MateV>,
    steps: Seq<PlacementStepV>,
    out: Seq<PlacedByV>,
    k: int,
) -> bool {
    let s = steps[k];
    &&& 0 <= s.mate < ms.len()
    &&& usable(us, ms[s.mate])
    &&& framed(us, ms[s.mate])
    &&& 0 <= s.from < us.len()
    &&& 0 <= s.to < us.len()
    &&& ({
        let (a, b) = ends(us, ms[s.mate])->0;
        ||| (s.from == a && s.to == b && s.from_port == ms[s.mate].a_port && s.to_port
            == ms[s.mate].b_port)
        ||| (s.from == b && s.to == a && s.from_port == ms[s.mate].b_port && s.to_port
            == ms[s.mate].a_port)
    })
    &&& s.axis == axis_at(us[s.from], s.from_port)
    &&& out[s.to] == PlacedByV::Mate(ms[s.mate].id)
    &&& !seed(root, us, s.to)
    &&& (seed(root, us, s.from) || exists|k2: int| 0 <= k2 < k && (#[trigger] steps[k2]).to == s.from)
}

/// How each unit came to be placed, as far as the seeds go.
pub open spec fn seeded_right(root: Option<Seq<char>>, us: Seq<UnitV>, out: Seq<PlacedByV>, i: int) -> bool {
    &&& (us[i].free is Some ==> out[i] == PlacedByV::Free(us[i].free->0))
    &&& (us[i].free is None && root_index(root, us) == Some(i) ==> out[i] == PlacedByV::Root)
}

/// The facts the placement keeps as it goes.
pub open spec fn plan_facts(
    root: Option<Seq<char>>,
    us: Seq<UnitV>,
    ms: Seq<MateV>,
    steps: Seq<PlacementStepV>,
    out: Seq<PlacedByV>,
) -> bool {
    &&& out.len() == us.len()
    &&& forall|i: int| 0 <= i < us.len() ==> seeded_right(root, us, out, i)
    &&& forall|i: int| 0 <= i < us.len() ==> (#[trigger] out[i] is Unreached <==> !(seed(root, us, i) || exists|k: int| 0 <= k < steps.len() && steps[k].to == i))
    &&& forall|i: int| 0 <= i < us.len() && (#[trigger] out[i]) is Root ==> root_index(root, us) == Some(i) && us[i].free is None
    &&& forall|i: int| 0 <= i < us.len() && (#[trigger] out[i]) is Free ==> us[i].free is Some
    &&& forall|k: int| 0 <= k < steps.len() ==> #[trigger] step_ok(root, us, ms, steps, out, k)
    &&& forall|k1: int, k2: int| 0 <= k1 < k2 < steps.len() ==> (#[trigger] steps[k1]).to != (#[trigger] steps[k2]).to
}

/// Every usable joint with both frames known joins two placed units or two unplaced ones:
/// a placed unit has pulled in everything it is bolted to.
pub open spec fn closed(us: Seq<UnitV>, ms: Seq<MateV>, out: Seq<PlacedByV>) -> bool {
    forall|mi: int|
        0 <= mi < ms.len() && usable(us, #[trigger] ms[mi]) && framed(us, ms[mi]) ==> (out[(ends(
            us,
            ms[mi],
        )->0).0] is Unreached <==> out[(ends(us, ms[mi])->0).1] is Unreached)
}


// ------------------------------------------------------------------------------- the walk

/// The state of the breadth-first walk over the mate graph: how each unit is placed so far,
/// the steps taken, and the queue of placed units with the position of the next one to visit.
#[verifier::ext_equal]
pub struct Walk {
    pub out: Seq<PlacedByV>,
    pub steps: Seq<PlacementStepV>,
    pub queue: Seq<int>,
    pub head: int,
}

pub open spec fn placed(w: Walk, i: int) -> bool {
    !(w.out[i] is Unreached)
}

/// The units with a stated placement among the first `k`, in order.
pub open spec fn frees_upto(us: Seq<UnitV>, k: int) -> Seq<int>
    decreases k,
{
    if k <= 0 {
        seq![]
    } else if us[k - 1].free is Some {
        frees_upto(us, k - 1).push(k - 1)
    } else {
        frees_upto(us, k - 1)
    }
}

/// How each unit is placed before any joint is followed.
pub open spec fn start_out(root: Option<Seq<char>>, us: Seq<UnitV>) -> Seq<PlacedByV> {
    Seq::new(
        us.len(),
        |i: int|
            if us[i].free is Some {
                PlacedByV::Free(us[i].free->0)
            } else if root_index(root, us) == Some(i) {
                PlacedByV::Root
            } else {
                PlacedByV::Unreached
            },
    )
}

/// The walk before its first visit: the root queued first, then each unit with a stated
/// placement.
pub open spec fn start(root: Option<Seq<char>>, us: Seq<UnitV>) -> Walk {
    Walk {
        out: start_out(root, us),
        steps: seq![],
        queue: match root_index(root, us) {
            Some(r) => seq![r],
            None => seq![],
        } + frees_upto(us, us.len() as int),
        head: 0,
    }
}

/// Visiting unit `i` follows joint `mi` if it is usable and touches `i`: the far end, if not
/// yet placed and both frames are known, is placed through it and queued.
pub open spec fn visit(us: Seq<UnitV>, ms: Seq<MateV>, w: Walk, i: int, mi: int) -> Walk {
    let m = ms[mi];
    if !usable(us, m) {
        w
    } else {
        let (a, b) = ends(us, m)->0;
        if a != i && b != i {
            w
        } else {
            let from = if a == i { a } else { b };
            let to = if a == i { b } else { a };
            let fp = if a == i { m.a_port } else { m.b_port };
            let tp = if a == i { m.b_port } else { m.a_port };
            if !(w.out[to] is Unreached) || !has_frame(us[from], fp) || !has_frame(us[to], tp) {
                w
            } else {
                Walk {
                    out: w.out.update(to, PlacedByV::Mate(m.id)),
                    steps: w.steps.push(
                        PlacementStepV {
                            to,
                            from,
                            mate: mi,
                            from_port: fp,
                            to_port: tp,
                            axis: axis_at(us[from], fp),
                        },
                    ),
                    queue: w.queue.push(to),
                    head: w.head,
                }
            }
        }
    }
}

/// Visiting unit `i` follows the joints from `mi` on, in order.
pub open spec fn visit_from(us: Seq<UnitV>, ms: Seq<MateV>, w: Walk, i: int, mi: int) -> Walk
    decreases ms.len() - mi,
{
    if mi < 0 || mi >= ms.len() {
        w
    } else {
        visit_from(us, ms, visit(us, ms, w, i, mi), i, mi + 1)
    }
}

/// Up to `fuel` visits, each taking the next unit off the queue.
pub open spec fn walk(us: Seq<UnitV>, ms: Seq<MateV>, w: Walk, fuel: nat) -> Walk
    decreases fuel,
{
    if fuel == 0 || w.head < 0 || w.head >= w.queue.len() {
        w
    } else {
        let i = w.queue[w.head];
        walk(us, ms, visit_from(us, ms, Walk { head: w.head + 1, ..w }, i, 0), (fuel - 1) as nat)
    }
}

/// The whole walk. A unit is queued at most once, but for a root that also has a stated
/// placement, so the queue never outgrows one more than the units.
pub open spec fn plan(root: Option<Seq<char>>, us: Seq<UnitV>, ms: Seq<MateV>) -> Walk {
    walk(us, ms, start(root, us), (us.len() + 1) as nat)
}


// ------------------------------------------------------------------------------- the walk, run

pub open spec fn ints(v: Seq<usize>) -> Seq<int> {
    v.map_values(|x: usize| x as int)
}

pub open spec fn ports_view(v: Seq<PortFrame>) -> Seq<PortFrameV> {
    v.map_values(|p: PortFrame| p@)
}

/// The walk held in these vectors.
pub open spec fn walk_of(
    out: Seq<PlacedBy>,
    steps: Seq<PlacementStep>,
    queue: Seq<usize>,
    head: usize,
) -> Walk {
    Walk { out: placed_view(out), steps: steps_view(steps), queue: ints(queue), head: head as int }
}

/// The unit a joint names by `id`: the last of that id, as a map from id to position keeps it.
fn unit_index(units: &Vec<PlacementUnit>, id: &str) -> (r: Option<usize>)
    ensures
        match r {
            Some(i) => index_of(units_view(units@), id@) == Some(i as int),
            None => index_of(units_view(units@), id@) is None,
        },
{
    let ghost us = units_view(units@);
    let mut k = units.len();
    while k > 0
        invariant
            k <= units@.len(),
            us == units_view(units@),
            index_of(us, id@) == index_upto(us, id@, k as int),
        decreases k,
    {
        if same_text(units[k - 1].id.as_str(), id) {
            return Some(k - 1);
        }
        k -= 1;
    }
    None
}

/// The first known frame of port `name`.
fn frame_index(ports: &Vec<PortFrame>, name: &str) -> (r: Option<usize>)
    ensures
        match r {
            Some(k) => frame_from(ports_view(ports@), name@, 0) == Some(k as int),
            None => frame_from(ports_view(ports@), name@, 0) is None,
        },
{
    let ghost ps = ports_view(ports@);
    let mut k: usize = 0;
    while k < ports.len()
        invariant
            k <= ports@.len(),
            ps == ports_view(ports@),
            frame_from(ps, name@, 0) == frame_from(ps, name@, k as int),
        decreases ports@.len() - k,
    {
        if same_text(ports[k].name.as_str(), name) {
            return Some(k);
        }
        k += 1;
    }
    None
}

/// The unit held fixed.
fn root_unit(root: &Option<String>, units: &Vec<PlacementUnit>) -> (r: Option<usize>)
    ensures
        match r {
            Some(i) => root_index(opt_text(*root), units_view(units@)) == Some(i as int),
            None => root_index(opt_text(*root), units_view(units@)) is None,
        },
{
    let ghost us = units_view(units@);
    if let Some(name) = root {
        if let Some(i) = unit_index(units, name.as_str()) {
            return Some(i);
        }
    }
    assert(root_index(opt_text(*root), us) == first_unfixed(us, 0));
    let mut k: usize = 0;
    while k < units.len()
        invariant
            k <= units@.len(),
            us == units_view(units@),
            root_index(opt_text(*root), us) == first_unfixed(us, 0),
            first_unfixed(us, 0) == first_unfixed(us, k as int),
        decreases units@.len() - k,
    {
        if units[k].free.is_none() {
            return Some(k);
        }
        k += 1;
    }
    None
}

/// The two units each joint joins, where both exist.
fn mate_ends(units: &Vec<PlacementUnit>, mates: &Vec<PlacementMate>) -> (r: Vec<Option<(usize, usize)>>)
    ensures
        r@.len() == mates@.len(),
        forall|mi: int|
            0 <= mi < mates@.len() ==> match #[trigger] r@[mi] {
                Some((a, b)) => ends(units_view(units@), mates@[mi]@) == Some((a as int, b as int)),
                None => ends(units_view(units@), mates@[mi]@) is None,
            },
{
    let mut r: Vec<Option<(usize, usize)>> = Vec::new();
    let mut mi: usize = 0;
    while mi < mates.len()
        invariant
            mi <= mates@.len(),
            r@.len() == mi,
            forall|j: int|
                0 <= j < mi ==> match #[trigger] r@[j] {
                    Some((a, b)) => ends(units_view(units@), mates@[j]@) == Some((a as int, b as int)),
                    None => ends(units_view(units@), mates@[j]@) is None,
                },
        decreases mates@.len() - mi,
    {
        let e = match (unit_index(units, mates[mi].a.as_str()), unit_index(units, mates[mi].b.as_str())) {
            (Some(a), Some(b)) => Some((a, b)),
            _ => None,
        };
        r.push(e);
        mi += 1;
    }
    r
}


// ------------------------------------------------------------------------------ the report

/// The ids of the unplaced units among the first `k`, in order.
pub open spec fn unplaced_upto(us: Seq<UnitV>, out: Seq<PlacedByV>, k: int) -> Seq<Seq<char>>
    decreases k,
{
    if k <= 0 {
        seq![]
    } else if out[k - 1] is Unreached {
        unplaced_upto(us, out, k - 1).push(us[k - 1].id)
    } else {
        unplaced_upto(us, out, k - 1)
    }
}

/// What is reported when parts are left unplaced: a hole in the design, not a detail.
pub open spec fn unplaced_error(us: Seq<UnitV>, out: Seq<PlacedByV>) -> Option<Seq<char>> {
    let ids = unplaced_upto(us, out, us.len() as int);
    if ids.len() == 0 {
        None
    } else {
        Some(
            "not connected to the rest of the assembly, so their position is unknown: "@ + join(
                ids,
                ", "@,
            ),
        )
    }
}

/// The pair of units a usable joint joins, the lower position first.
pub open spec fn pair_of(us: Seq<UnitV>, m: MateV) -> (int, int) {
    let (a, b) = ends(us, m)->0;
    if a <= b {
        (a, b)
    } else {
        (b, a)
    }
}

/// Joint `k` is usable and joins a pair that an earlier usable joint already joins.
pub open spec fn repeats(us: Seq<UnitV>, ms: Seq<MateV>, k: int) -> bool {
    usable(us, ms[k]) && exists|j: int|
        0 <= j < k && usable(us, ms[j]) && pair_of(us, ms[j]) == pair_of(us, ms[k])
}

/// How many of the first `k` joints repeat a pair.
pub open spec fn repeats_upto(us: Seq<UnitV>, ms: Seq<MateV>, k: int) -> nat
    decreases k,
{
    if k <= 0 {
        0
    } else {
        repeats_upto(us, ms, k - 1) + if repeats(us, ms, k - 1) {
            1nat
        } else {
            0nat
        }
    }
}

/// What is said of joints that join a pair already joined. Over-constrained joints are
/// legitimate (a part bolted at four corners) but worth counting, because a closed loop that
/// does not actually close is a common modelling mistake.
pub open spec fn repeat_warning(us: Seq<UnitV>, ms: Seq<MateV>) -> Option<Seq<char>> {
    let n = repeats_upto(us, ms, ms.len() as int);
    if n == 0 {
        None
    } else {
        Some(
            decimal(n) + " mate(s) join a pair of parts that is already joined; positions come from the first and the rest are assumed consistent"@,
        )
    }
}

/// There is a usable joint before `k` that joins the pair `(a, b)`.
pub open spec fn joined_before(us: Seq<UnitV>, ms: Seq<MateV>, k: int, a: int, b: int) -> bool {
    exists|j: int| 0 <= j < k && usable(us, ms[j]) && #[trigger] pair_of(us, ms[j]) == (a, b)
}

pub open spec fn in_seen(seen: Seq<(usize, usize)>, p: (int, int)) -> bool {
    exists|t: int| 0 <= t < seen.len() && #[trigger] seen[t].0 == p.0 && seen[t].1 == p.1
}

fn seen_pair(seen: &Vec<(usize, usize)>, a: usize, b: usize) -> (r: bool)
    ensures
        r == in_seen(seen@, (a as int, b as int)),
{
    let mut t: usize = 0;
    while t < seen.len()
        invariant
            t <= seen@.len(),
            forall|t2: int| 0 <= t2 < t ==> !(#[trigger] seen@[t2].0 == a && seen@[t2].1 == b),
        decreases seen@.len() - t,
    {
        if seen[t].0 == a && seen[t].1 == b {
            return true;
        }
        t += 1;
    }
    false
}

/// The warning on joints that join a pair already joined.
fn repeat_count_warning(
    units: &Vec<PlacementUnit>,
    mates: &Vec<PlacementMate>,
    ends_v: &Vec<Option<(usize, usize)>>,
) -> (r: Option<String>)
    requires
        ends_v@.len() == mates@.len(),
        forall|mi: int|
            0 <= mi < mates@.len() ==> match #[trigger] ends_v@[mi] {
                Some((a, b)) => ends(units_view(units@), mates_view(mates@)[mi]) == Some(
                    (a as int, b as int),
                ),
                None => ends(units_view(units@), mates_view(mates@)[mi]) is None,
            },
    ensures
        opt_text(r) == repeat_warning(units_view(units@), mates_view(mates@)),
{
    let ghost us = units_view(units@);
    let ghost ms = mates_view(mates@);
    let mut seen: Vec<(usize, usize)> = Vec::new();
    let mut count: usize = 0;
    let mut mi: usize = 0;
    while mi < mates.len()
        invariant
            us == units_view(units@),
            ms == mates_view(mates@),
            ends_v@.len() == mates@.len(),
            forall|mj: int|
                0 <= mj < mates@.len() ==> match #[trigger] ends_v@[mj] {
                    Some((a, b)) => ends(us, ms[mj]) == Some((a as int, b as int)),
                    None => ends(us, ms[mj]) is None,
                },
            mi <= mates@.len(),
            count <= mi,
            count as nat == repeats_upto(us, ms, mi as int),
            forall|t: int|
                0 <= t < seen@.len() ==> joined_before(
                    us,
                    ms,
                    mi as int,
                    (#[trigger] seen@[t]).0 as int,
                    seen@[t].1 as int,
                ),
            forall|j: int|
                0 <= j < mi && usable(us, #[trigger] ms[j]) ==> in_seen(seen@, pair_of(us, ms[j])),
        decreases mates@.len() - mi,
    {
        let ghost seen0 = seen@;
        let mut again = false;
        if mates[mi].compatible {
            if let Some((a, b)) = ends_v[mi] {
                let key = if a <= b {
                    (a, b)
                } else {
                    (b, a)
                };
                again = seen_pair(&seen, key.0, key.1);
                seen.push(key);
                proof {
                    assert(pair_of(us, ms[mi as int]) == (key.0 as int, key.1 as int));
                    if again {
                        let t = choose|t: int|
                            0 <= t < seen0.len() && #[trigger] seen0[t].0 == key.0 && seen0[t].1
                                == key.1;
                        assert(joined_before(us, ms, mi as int, seen0[t].0 as int, seen0[t].1 as int));
                    } else {
                        assert forall|j: int| 0 <= j < mi && usable(us, ms[j]) implies pair_of(
                            us,
                            ms[j],
                        ) != pair_of(us, ms[mi as int]) by {
                            assert(in_seen(seen0, pair_of(us, ms[j])));
                        }
                    }
                }
            }
        }
        assert(repeats(us, ms, mi as int) == again);
        if again {
            count += 1;
        }
        proof {
            assert forall|t: int| 0 <= t < seen@.len() implies joined_before(
                us,
                ms,
                mi + 1,
                (#[trigger] seen@[t]).0 as int,
                seen@[t].1 as int,
            ) by {
                if t < seen0.len() {
                    assert(seen@[t] == seen0[t]);
                    assert(joined_before(us, ms, mi as int, seen0[t].0 as int, seen0[t].1 as int));
                } else {
                    assert(pair_of(us, ms[mi as int]) == (seen@[t].0 as int, seen@[t].1 as int));
                }
            }
            assert forall|j: int| 0 <= j < mi + 1 && usable(us, #[trigger] ms[j]) implies in_seen(
                seen@,
                pair_of(us, ms[j]),
            ) by {
                if j < mi {
                    assert(in_seen(seen0, pair_of(us, ms[j])));
                    let t = choose|t: int|
                        0 <= t < seen0.len() && #[trigger] seen0[t].0 == pair_of(us, ms[j]).0
                            && seen0[t].1 == pair_of(us, ms[j]).1;
                    assert(seen@[t] == seen0[t]);
                } else {
                    assert(seen@[seen0.len() as int] == seen@.last());
                }
            }
        }
        mi += 1;
    }
    if count > 0 {
        let mut s = decimal_text(count as u128);
        s.append(
            " mate(s) join a pair of parts that is already joined; positions come from the first and the rest are assumed consistent",
        );
        Some(s)
    } else {
        None
    }
}

/// Which joint places which part, and what is reported of the rest.
pub struct PlacementPlan {
    /// How each unit came to be placed, by position.
    pub placed_by: Vec<PlacedBy>,
    /// The parts placed through joints, in the order they were reached.
    pub steps: Vec<PlacementStep>,
    /// The parts that no joint reaches, when there are any.
    pub error: Option<String>,
    /// The count of joints that repeat a pair, when there are any.
    pub warning: Option<String>,
}

/// Decide how every unit is placed: the root fixed, stated placements kept, and the rest
/// reached breadth first through the joints that passed their checks and whose frames are
/// known, in the order the joints are listed.
pub fn plan_placement(
    root: &Option<String>,
    units: &Vec<PlacementUnit>,
    mates: &Vec<PlacementMate>,
) -> (p: PlacementPlan)
    ensures
        placed_view(p.placed_by@) == plan(opt_text(*root), units_view(units@), mates_view(mates@)).out,
        steps_view(p.steps@) == plan(opt_text(*root), units_view(units@), mates_view(mates@)).steps,
        plan_facts(
            opt_text(*root),
            units_view(units@),
            mates_view(mates@),
            steps_view(p.steps@),
            placed_view(p.placed_by@),
        ),
        closed(units_view(units@), mates_view(mates@), placed_view(p.placed_by@)),
        opt_text(p.error) == unplaced_error(units_view(units@), placed_view(p.placed_by@)),
        opt_text(p.warning) == repeat_warning(units_view(units@), mates_view(mates@)),
{
    let ghost rv = opt_text(*root);
    let ghost us = units_view(units@);
    let ghost ms = mates_view(mates@);
    let n = units.len();
    let ends_v = mate_ends(units, mates);
    let r = root_unit(root, units);
    proof {
        lemma_start(rv, us, ms);
    }
    // the seeds
    let mut out: Vec<PlacedBy> = Vec::new();
    let mut queue: Vec<usize> = Vec::new();
    if let Some(ri) = r {
        queue.push(ri);
    }
    let ghost pre = ints(queue@);
    let mut i: usize = 0;
    while i < n
        invariant
            n == units@.len(),
            us == units_view(units@),
            i <= n,
            match r {
                Some(ri) => root_index(rv, us) == Some(ri as int),
                None => root_index(rv, us) is None,
            },
            out@.len() == i,
            placed_view(out@) == start_out(rv, us).subrange(0, i as int),
            ints(queue@) == pre + frees_upto(us, i as int),
        decreases n - i,
    {
        assert(us[i as int] == units@[i as int]@);
        let here = match &units[i].free {
            Some(why) => PlacedBy::Free(why.clone()),
            None => match r {
                Some(ri) => if ri == i {
                    PlacedBy::Root
                } else {
                    PlacedBy::Unreached
                },
                None => PlacedBy::Unreached,
            },
        };
        out.push(here);
        let ghost q0 = queue@;
        if units[i].free.is_some() {
            queue.push(i);
            assert(ints(queue@) =~= ints(q0).push(i as int));
        }
        assert(out@[i as int] == here);
        assert(placed_view(out@)[i as int] == here@);
        assert(here@ == start_out(rv, us)[i as int]);
        assert(placed_view(out@) =~= start_out(rv, us).subrange(0, i + 1));
        assert(ints(queue@) =~= pre + frees_upto(us, i + 1));
        i += 1;
    }
    let mut steps: Vec<PlacementStep> = Vec::new();
    let mut head: usize = 0;
    assert(walk_of(out@, steps@, queue@, head) =~= start(rv, us));
    // the walk
    while head < queue.len()
        invariant
            n == units@.len(),
            us == units_view(units@),
            ms == mates_view(mates@),
            ends_v@.len() == mates@.len(),
            forall|mi: int|
                0 <= mi < mates@.len() ==> match #[trigger] ends_v@[mi] {
                    Some((a, b)) => ends(us, ms[mi]) == Some((a as int, b as int)),
                    None => ends(us, ms[mi]) is None,
                },
            walk_inv(rv, us, ms, walk_of(out@, steps@, queue@, head)),
            walk(us, ms, walk_of(out@, steps@, queue@, head), (n + 1 - head) as nat) == plan(rv, us, ms),
        decreases n + 1 - head,
    {
        let ghost w0 = walk_of(out@, steps@, queue@, head);
        proof {
            lemma_pop(rv, us, ms, w0);
        }
        let i = queue[head];
        head += 1;
        let ghost w1 = walk_of(out@, steps@, queue@, head);
        assert(w1 =~= Walk { head: w0.head + 1, ..w0 });
        let mut mi: usize = 0;
        while mi < mates.len()
            invariant
                n == units@.len(),
                us == units_view(units@),
                ms == mates_view(mates@),
                i < n,
                out@.len() == n,
                ends_v@.len() == mates@.len(),
                forall|mj: int|
                    0 <= mj < mates@.len() ==> match #[trigger] ends_v@[mj] {
                        Some((a, b)) => ends(us, ms[mj]) == Some((a as int, b as int)),
                        None => ends(us, ms[mj]) is None,
                    },
                mi <= mates@.len(),
                visit_from(us, ms, w1, i as int, 0) == visit_from(
                    us,
                    ms,
                    walk_of(out@, steps@, queue@, head),
                    i as int,
                    mi as int,
                ),
            decreases mates@.len() - mi,
        {
            let ghost before = walk_of(out@, steps@, queue@, head);
            let m = &mates[mi];
            proof {
                lemma_ends(us, ms[mi as int]);
            }
            if m.compatible {
                if let Some((a, b)) = ends_v[mi] {
                    if a == i || b == i {
                        let from = if a == i { a } else { b };
                        let to = if a == i { b } else { a };
                        let fp = if a == i { m.a_port.as_str() } else { m.b_port.as_str() };
                        let tp = if a == i { m.b_port.as_str() } else { m.a_port.as_str() };
                        let open = match &out[to] {
                            PlacedBy::Unreached => true,
                            _ => false,
                        };
                        if open {
                            let fk = frame_index(&units[from].ports, fp);
                            let tk = frame_index(&units[to].ports, tp);
                            if let (Some(k), Some(_)) = (fk, tk) {
                                proof {
                                    assert(us[from as int].ports == ports_view(units@[from as int].ports@));
                                    lemma_frame_from(us[from as int].ports, fp@, 0);
                                }
                                let axis = if units[from].ports[k].aligned {
                                    MateAxis::Aligned
                                } else {
                                    MateAxis::Opposed
                                };
                                out.set(to, PlacedBy::Mate(m.id.clone()));
                                steps.push(
                                    PlacementStep {
                                        to,
                                        from,
                                        mate: mi,
                                        from_port: string_from(fp),
                                        to_port: string_from(tp),
                                        axis,
                                    },
                                );
                                queue.push(to);
                            }
                        }
                    }
                }
            }
            assert(walk_of(out@, steps@, queue@, head) =~= visit(us, ms, before, i as int, mi as int));
            mi += 1;
        }
        proof {
            lemma_visit_from(rv, us, ms, w1, i as int, 0);
            assert(walk(us, ms, w0, (n + 1 - (head - 1)) as nat) == walk(
                us,
                ms,
                visit_from(us, ms, w1, i as int, 0),
                (n + 1 - head) as nat,
            ));
        }
    }
    // the report
    let ghost fin = walk_of(out@, steps@, queue@, head);
    assert(fin == plan(rv, us, ms));
    let mut ids: Vec<String> = Vec::new();
    let mut k: usize = 0;
    while k < n
        invariant
            n == units@.len(),
            us == units_view(units@),
            out@.len() == n,
            k <= n,
            texts(ids@) == unplaced_upto(us, placed_view(out@), k as int),
        decreases n - k,
    {
        let gone = match &out[k] {
            PlacedBy::Unreached => true,
            _ => false,
        };
        if gone {
            ids.push(units[k].id.clone());
        }
        assert(texts(ids@) =~= unplaced_upto(us, placed_view(out@), k + 1));
        k += 1;
    }
    let error = if ids.len() > 0 {
        let listed = join_with(&ids, ", ");
        Some(
            concat(
                "not connected to the rest of the assembly, so their position is unknown: ",
                listed.as_str(),
            ),
        )
    } else {
        None
    };
    let warning = repeat_count_warning(units, mates, &ends_v);
    proof {
        law_placement(rv, us, ms);
    }
    PlacementPlan { placed_by: out, steps, error, warning }
}

} // verus!
