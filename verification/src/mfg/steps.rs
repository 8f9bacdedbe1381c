//! Turning a mate graph into instructions somebody can follow.
//!
//! The order is not invented. A joint can only be made once both things it joins are in front of
//! you, and the placement solver already worked out which joint put each part where. Following
//! that gives an order that is buildable by construction: nothing is ever bolted to something
//! that has not been put down yet.
//!
//! Sub-assemblies come first and as a group, which is also how a flatpack works. You build the
//! four corners on the bench, then bolt the corners to the chassis.

use vstd::prelude::*;

use crate::model::placement::{PlacedBy, PlacedByV};
use crate::text::{
    Sep, decimal, decimal_text, holds_text, join, join_with, opt_text, same_text, split, split_by, split_whitespace, string_from,
    texts, words,
};

verus! {

// ------------------------------------------------------------------------ readable names

/// Words that say where on the vehicle something is, rather than what it is.
pub open spec fn position_of(w: Seq<char>) -> Option<Seq<char>> {
    if w == "fl"@ {
        Some("front left"@)
    } else if w == "fr"@ {
        Some("front right"@)
    } else if w == "rl"@ {
        Some("rear left"@)
    } else if w == "rr"@ {
        Some("rear right"@)
    } else if w == "l"@ || w == "left"@ {
        Some("left"@)
    } else if w == "r"@ || w == "right"@ {
        Some("right"@)
    } else if w == "front"@ {
        Some("front"@)
    } else if w == "rear"@ {
        Some("rear"@)
    } else if w == "upper"@ {
        Some("upper"@)
    } else if w == "lower"@ {
        Some("lower"@)
    } else {
        None
    }
}

/// Abbreviations spelled out; any other word as it is.
pub open spec fn expanded(w: Seq<char>) -> Seq<char> {
    if w == "lca"@ {
        "lower control arm"@
    } else if w == "bj"@ {
        "ball joint"@
    } else if w == "hv"@ {
        "high voltage"@
    } else if w == "od"@ {
        "outside diameter"@
    } else if w == "dw"@ {
        "double wishbone"@
    } else {
        w
    }
}

/// A word as it is read: a position marker spelled out when `marker` is set, otherwise with
/// its abbreviation expanded.
pub open spec fn word_form(w: Seq<char>, marker: bool) -> Seq<char> {
    if marker {
        match position_of(w) {
            Some(p) => p,
            None => w,
        }
    } else {
        expanded(w)
    }
}

pub open spec fn forms(ws: Seq<Seq<char>>, marker: bool) -> Seq<Seq<char>> {
    ws.map_values(|w: Seq<char>| word_form(w, marker))
}

/// The end of the run of position markers that starts at `i`.
pub open spec fn lead_markers(ws: Seq<Seq<char>>, i: int) -> int
    decreases ws.len() - i,
{
    if 0 <= i < ws.len() && position_of(ws[i]) is Some {
        lead_markers(ws, i + 1)
    } else {
        i
    }
}

/// The start of the run of position markers that ends at `t`, going no further back than `lo`.
pub open spec fn tail_markers(ws: Seq<Seq<char>>, lo: int, t: int) -> int
    decreases t - lo,
{
    if t > lo && position_of(ws[t - 1]) is Some {
        tail_markers(ws, lo, t - 1)
    } else {
        t
    }
}

/// One underscored segment as words, with the position markers at either end moved to the
/// front in the order written. A marker in the middle is an ordinary word.
pub open spec fn segment_text(seg: Seq<char>) -> Seq<char> {
    let ws = split(seg, Sep::Char('_'));
    let l = lead_markers(ws, 0);
    let t = tail_markers(ws, l, ws.len() as int);
    if l == 0 && t == ws.len() {
        join(forms(ws, false), " "@)
    } else if l >= t {
        join(forms(ws, true), " "@)
    } else {
        join(forms(ws.subrange(0, l) + ws.subrange(t, ws.len() as int), true), " "@) + " "@ + join(
            forms(ws.subrange(l, t), false),
            " "@,
        )
    }
}

pub open spec fn segments(gs: Seq<Seq<char>>) -> Seq<Seq<char>> {
    gs.map_values(|g: Seq<char>| segment_text(g))
}

/// An identifier as words: each dotted segment read on its own, and the words joined by single
/// spaces.
pub open spec fn readable_text(id: Seq<char>) -> Seq<char> {
    join(words(join(segments(split(id, Sep::Char('.'))), " "@)), " "@)
}

/// Words that say where on the vehicle something is, rather than what it is.
pub fn position_word(w: &str) -> (r: Option<&'static str>)
    ensures
        match r {
            Some(p) => position_of(w@) == Some(p@),
            None => position_of(w@) is None,
        },
{
    if same_text(w, "fl") {
        Some("front left")
    } else if same_text(w, "fr") {
        Some("front right")
    } else if same_text(w, "rl") {
        Some("rear left")
    } else if same_text(w, "rr") {
        Some("rear right")
    } else if same_text(w, "l") || same_text(w, "left") {
        Some("left")
    } else if same_text(w, "r") || same_text(w, "right") {
        Some("right")
    } else if same_text(w, "front") {
        Some("front")
    } else if same_text(w, "rear") {
        Some("rear")
    } else if same_text(w, "upper") {
        Some("upper")
    } else if same_text(w, "lower") {
        Some("lower")
    } else {
        None
    }
}

/// Abbreviations that mean nothing to somebody holding a spanner.
pub fn expand(w: &str) -> (r: String)
    ensures
        r@ == expanded(w@),
{
    if same_text(w, "lca") {
        string_from("lower control arm")
    } else if same_text(w, "bj") {
        string_from("ball joint")
    } else if same_text(w, "hv") {
        string_from("high voltage")
    } else if same_text(w, "od") {
        string_from("outside diameter")
    } else if same_text(w, "dw") {
        string_from("double wishbone")
    } else {
        string_from(w)
    }
}

fn form_of(w: &str, marker: bool) -> (r: String)
    ensures
        r@ == word_form(w@, marker),
{
    if marker {
        match position_word(w) {
            Some(p) => string_from(p),
            None => string_from(w),
        }
    } else {
        expand(w)
    }
}

/// Appends the reading of each of `ws[lo..hi]`.
fn push_forms(out: &mut Vec<String>, ws: &Vec<String>, lo: usize, hi: usize, marker: bool)
    requires
        lo <= hi <= ws@.len(),
    ensures
        texts(final(out)@) == texts(old(out)@) + forms(texts(ws@).subrange(lo as int, hi as int), marker),
{
    let ghost start = texts(out@);
    let mut i = lo;
    while i < hi
        invariant
            lo <= i <= hi <= ws@.len(),
            texts(out@) == start + forms(texts(ws@).subrange(lo as int, i as int), marker),
        decreases hi - i,
    {
        let f = form_of(ws[i].as_str(), marker);
        let ghost before = texts(out@);
        out.push(f);
        proof {
            let a = texts(ws@).subrange(lo as int, i as int);
            let b = texts(ws@).subrange(lo as int, i + 1);
            assert(b =~= a.push(ws@[i as int]@));
            assert(forms(b, marker) =~= forms(a, marker).push(word_form(ws@[i as int]@, marker)));
            assert(texts(out@) =~= before.push(f@));
        }
        i += 1;
        assert(texts(out@) =~= start + forms(texts(ws@).subrange(lo as int, i as int), marker));
    }
}

/// One dotted segment, with any position markers moved to the front in the order written.
///
/// `bracket_upper_front` is an upper front bracket, not a front bracket upper. Markers are only
/// taken from the ends, so a word in the middle that happens to look like one is left alone.
pub fn segment(seg: &str) -> (r: String)
    ensures
        r@ == segment_text(seg@),
{
    let ws = split_by(seg, Sep::Char('_'));
    let ghost wv = texts(ws@);
    let n = ws.len();
    let mut lead: usize = 0;
    while lead < n && position_word(ws[lead].as_str()).is_some()
        invariant
            n == ws@.len(),
            wv == texts(ws@),
            0 <= lead <= n,
            lead_markers(wv, 0) == lead_markers(wv, lead as int),
        decreases n - lead,
    {
        lead += 1;
    }
    let mut tail: usize = n;
    while tail > lead && position_word(ws[tail - 1].as_str()).is_some()
        invariant
            n == ws@.len(),
            wv == texts(ws@),
            lead <= tail <= n,
            lead == lead_markers(wv, 0),
            tail_markers(wv, lead as int, n as int) == tail_markers(wv, lead as int, tail as int),
        decreases tail - lead,
    {
        tail -= 1;
    }
    assert(wv.subrange(0, n as int) =~= wv);
    if lead == 0 && tail == n {
        let mut out: Vec<String> = Vec::new();
        push_forms(&mut out, &ws, 0, n, false);
        assert(texts(out@) =~= forms(wv, false));
        return join_with(&out, " ");
    }
    if lead >= tail {
        let mut out: Vec<String> = Vec::new();
        push_forms(&mut out, &ws, 0, n, true);
        assert(texts(out@) =~= forms(wv, true));
        return join_with(&out, " ");
    }
    let mut positions: Vec<String> = Vec::new();
    push_forms(&mut positions, &ws, 0, lead, true);
    push_forms(&mut positions, &ws, tail, n, true);
    assert(texts(positions@) =~= forms(wv.subrange(0, lead as int) + wv.subrange(tail as int, n as int), true));
    let mut body: Vec<String> = Vec::new();
    push_forms(&mut body, &ws, lead, tail, false);
    assert(texts(body@) =~= forms(wv.subrange(lead as int, tail as int), false));
    let mut out = join_with(&positions, " ");
    out.append(" ");
    let b = join_with(&body, " ");
    out.append(b.as_str());
    out
}

/// Turn an identifier into something readable in an instruction.
///
/// `corner_fl.lower_arm` becomes "front left corner lower arm". Nobody assembling a vehicle
/// should have to read an identifier, and a position marker reads better in front of the thing
/// it describes than tacked on the end of it.
pub fn readable(id: &str) -> (r: String)
    ensures
        r@ == readable_text(id@),
{
    let gs = split_by(id, Sep::Char('.'));
    let mut segs: Vec<String> = Vec::new();
    let mut i: usize = 0;
    while i < gs.len()
        invariant
            0 <= i <= gs@.len(),
            texts(segs@) == segments(texts(gs@).subrange(0, i as int)),
        decreases gs@.len() - i,
    {
        let s = segment(gs[i].as_str());
        let ghost before = texts(segs@);
        segs.push(s);
        proof {
            let a = texts(gs@).subrange(0, i as int);
            let b = texts(gs@).subrange(0, i + 1);
            assert(b =~= a.push(gs@[i as int]@));
            assert(segments(b) =~= segments(a).push(segment_text(gs@[i as int]@)));
            assert(texts(segs@) =~= before.push(s@));
        }
        i += 1;
        assert(texts(segs@) =~= segments(texts(gs@).subrange(0, i as int)));
    }
    assert(texts(gs@).subrange(0, gs@.len() as int) =~= texts(gs@));
    let joined = join_with(&segs, " ");
    let ws = split_whitespace(joined.as_str());
    join_with(&ws, " ")
}

// ------------------------------------------------------------------------------- the model

/// What a joint is fastened with.
pub struct Fixing {
    pub quantity: u32,
    pub kind: String,
    pub size: String,
    pub grade: String,
    pub nut: Option<String>,
    pub washer: Option<String>,
    pub thread_locker: Option<String>,
    /// The tightening torque, as written in the model.
    pub torque: Option<String>,
}

/// One joint of the assembly.
pub struct Joint {
    pub id: String,
    /// The sub-assembly the joint is made in, or none for the vehicle itself.
    pub unit: Option<String>,
    pub a: String,
    pub a_port: String,
    pub b: String,
    pub b_port: String,
    /// Made in the factory rather than by the person building the kit.
    pub factory: bool,
    pub fasteners: Option<Fixing>,
}

/// Something a joint can name, and what placed it.
pub struct Placed {
    pub id: String,
    pub placed_by: PlacedBy,
}

/// What the instructions are built from: the things the vehicle's joints name (its parts and
/// whole sub-assemblies), every part with a dotted id inside a sub-assembly, and the joints.
pub struct Assembly {
    pub mateable: Vec<Placed>,
    pub instances: Vec<Placed>,
    pub mates: Vec<Joint>,
}

#[derive(Debug, Clone, Copy, PartialEq, Eq, Structural)]
pub enum StepKind {
    /// Put a part down to build from. Nothing is attached to it yet.
    Start,
    /// Join two things together.
    Join,
    /// A joint that does not position anything, because both ends are already placed. It is
    /// still a bolt to fit, and if it does not line up something upstream is wrong.
    AlsoBolt,
    /// Comes already assembled, made in the factory rather than by the person building the kit.
    Supplied,
}

#[derive(Debug)]
pub struct Step {
    pub number: usize,
    /// Which sub-assembly this belongs to, or none for the vehicle itself.
    pub group: Option<String>,
    pub kind: StepKind,
    pub text: String,
    /// What to fit it with.
    pub fastener: Option<String>,
    pub torque: Option<String>,
    /// The joint this step makes, for tracing back into the model.
    pub mate: Option<String>,
    /// Things that will go wrong here if something upstream is not right.
    pub warning: Option<String>,
}

pub struct FixingV {
    pub quantity: u32,
    pub kind: Seq<char>,
    pub size: Seq<char>,
    pub grade: Seq<char>,
    pub nut: Option<Seq<char>>,
    pub washer: Option<Seq<char>>,
    pub thread_locker: Option<Seq<char>>,
    pub torque: Option<Seq<char>>,
}

pub struct JointV {
    pub id: Seq<char>,
    pub unit: Option<Seq<char>>,
    pub a: Seq<char>,
    pub a_port: Seq<char>,
    pub b: Seq<char>,
    pub b_port: Seq<char>,
    pub factory: bool,
    pub fasteners: Option<FixingV>,
}

pub struct PlacedV {
    pub id: Seq<char>,
    pub by: PlacedByV,
}

pub struct AssemblyV {
    pub mateable: Seq<PlacedV>,
    pub instances: Seq<PlacedV>,
    pub mates: Seq<JointV>,
}

pub struct StepV {
    pub number: int,
    pub group: Option<Seq<char>>,
    pub kind: StepKind,
    pub text: Seq<char>,
    pub fastener: Option<Seq<char>>,
    pub torque: Option<Seq<char>>,
    pub mate: Option<Seq<char>>,
    pub warning: Option<Seq<char>>,
}

impl View for Fixing {
    type V = FixingV;

    open spec fn view(&self) -> FixingV {
        FixingV {
            quantity: self.quantity,
            kind: self.kind@,
            size: self.size@,
            grade: self.grade@,
            nut: opt_text(self.nut),
            washer: opt_text(self.washer),
            thread_locker: opt_text(self.thread_locker),
            torque: opt_text(self.torque),
        }
    }
}

impl View for Joint {
    type V = JointV;

    open spec fn view(&self) -> JointV {
        JointV {
            id: self.id@,
            unit: opt_text(self.unit),
            a: self.a@,
            a_port: self.a_port@,
            b: self.b@,
            b_port: self.b_port@,
            factory: self.factory,
            fasteners: match self.fasteners {
                Some(f) => Some(f@),
                None => None,
            },
        }
    }
}

impl View for Placed {
    type V = PlacedV;

    open spec fn view(&self) -> PlacedV {
        PlacedV { id: self.id@, by: self.placed_by@ }
    }
}

impl View for Assembly {
    type V = AssemblyV;

    open spec fn view(&self) -> AssemblyV {
        AssemblyV {
            mateable: placed_views(self.mateable@),
            instances: placed_views(self.instances@),
            mates: joint_views(self.mates@),
        }
    }
}

impl View for Step {
    type V = StepV;

    open spec fn view(&self) -> StepV {
        StepV {
            number: self.number as int,
            group: opt_text(self.group),
            kind: self.kind,
            text: self.text@,
            fastener: opt_text(self.fastener),
            torque: opt_text(self.torque),
            mate: opt_text(self.mate),
            warning: opt_text(self.warning),
        }
    }
}

pub open spec fn placed_views(s: Seq<Placed>) -> Seq<PlacedV> {
    s.map_values(|p: Placed| p@)
}

pub open spec fn joint_views(s: Seq<Joint>) -> Seq<JointV> {
    s.map_values(|j: Joint| j@)
}

pub open spec fn steps_view(s: Seq<Step>) -> Seq<StepV> {
    s.map_values(|x: Step| x@)
}

// ------------------------------------------------------------------------ what placed what

/// The position of the first `.` in `s` at or after `i`.
pub open spec fn first_dot(s: Seq<char>, i: int) -> Option<int>
    decreases s.len() - i,
{
    if i < 0 || i >= s.len() {
        None
    } else if s[i] == '.' {
        Some(i)
    } else {
        first_dot(s, i + 1)
    }
}

/// The sub-assembly a dotted part id belongs to: the text before its first `.`.
pub open spec fn unit_of(id: Seq<char>) -> Option<Seq<char>> {
    match first_dot(id, 0) {
        Some(k) => Some(id.subrange(0, k)),
        None => None,
    }
}

/// Placed with nothing joined to it yet: the root, or a freely placed part.
pub open spec fn is_start(b: PlacedByV) -> bool {
    b is Root || b is Free
}

/// The joint that placed `x`, according to the last entry of `es` that names `x` as placed by
/// a joint. When `dotted` is set only dotted ids count.
pub open spec fn placer_in(es: Seq<PlacedV>, x: Seq<char>, dotted: bool) -> Option<Seq<char>>
    decreases es.len(),
{
    if es.len() == 0 {
        None
    } else {
        let e = es.last();
        if e.id == x && (!dotted || unit_of(e.id) is Some) && e.by is Mate {
            Some(e.by->Mate_0)
        } else {
            placer_in(es.drop_last(), x, dotted)
        }
    }
}

/// The joint that placed `x`: parts inside sub-assemblies are placed by the joint inside the
/// sub-assembly, and what a joint of the vehicle names is placed by the vehicle's joint.
pub open spec fn placer(av: AssemblyV, x: Seq<char>) -> Option<Seq<char>> {
    match placer_in(av.instances, x, true) {
        Some(m) => Some(m),
        None => placer_in(av.mateable, x, false),
    }
}

/// The things of the vehicle that everything is built from, in order.
pub open spec fn unit_roots(es: Seq<PlacedV>) -> Seq<Seq<char>>
    decreases es.len(),
{
    if es.len() == 0 {
        seq![]
    } else if is_start(es.last().by) {
        unit_roots(es.drop_last()).push(es.last().id)
    } else {
        unit_roots(es.drop_last())
    }
}

/// The parts of sub-assembly `u` that it is built from, in order.
pub open spec fn part_roots(es: Seq<PlacedV>, u: Seq<char>) -> Seq<Seq<char>>
    decreases es.len(),
{
    if es.len() == 0 {
        seq![]
    } else if unit_of(es.last().id) == Some(u) && is_start(es.last().by) {
        part_roots(es.drop_last(), u).push(es.last().id)
    } else {
        part_roots(es.drop_last(), u)
    }
}

/// What the work of group `g` is built on.
pub open spec fn roots(av: AssemblyV, g: Option<Seq<char>>) -> Seq<Seq<char>> {
    match g {
        None => unit_roots(av.mateable),
        Some(u) => part_roots(av.instances, u),
    }
}

// ------------------------------------------------------------------------------ the groups

/// The groups the joints are made in, each once, in the order they first appear.
pub open spec fn units_seen(ms: Seq<JointV>) -> Seq<Option<Seq<char>>>
    decreases ms.len(),
{
    if ms.len() == 0 {
        seq![]
    } else {
        let d = units_seen(ms.drop_last());
        if d.contains(ms.last().unit) {
            d
        } else {
            d.push(ms.last().unit)
        }
    }
}

pub open spec fn somes(d: Seq<Option<Seq<char>>>) -> Seq<Option<Seq<char>>>
    decreases d.len(),
{
    if d.len() == 0 {
        seq![]
    } else if d.last() is Some {
        somes(d.drop_last()).push(d.last())
    } else {
        somes(d.drop_last())
    }
}

pub open spec fn nones(d: Seq<Option<Seq<char>>>) -> Seq<Option<Seq<char>>>
    decreases d.len(),
{
    if d.len() == 0 {
        seq![]
    } else if d.last() is None {
        nones(d.drop_last()).push(d.last())
    } else {
        nones(d.drop_last())
    }
}

/// The groups in the order they are built: every sub-assembly, then the vehicle.
pub open spec fn build_groups(av: AssemblyV) -> Seq<Option<Seq<char>>> {
    let d = units_seen(av.mates);
    somes(d) + nones(d)
}

/// The positions of the joints made in group `g`, among the first `n`.
pub open spec fn members(ms: Seq<JointV>, g: Option<Seq<char>>, n: int) -> Seq<int>
    decreases n,
{
    if n <= 0 {
        seq![]
    } else if ms[n - 1].unit == g {
        members(ms, g, n - 1).push(n - 1)
    } else {
        members(ms, g, n - 1)
    }
}

// ------------------------------------------------------------------------------- the steps

pub open spec fn suffix(o: Option<Seq<char>>, what: Seq<char>) -> Seq<char> {
    match o {
        Some(x) => ", "@ + x + what,
        None => seq![],
    }
}

/// What to fit a joint with, as one line: `8 x bolt M12 8.8, M12 nut`.
pub open spec fn fixing_text(f: FixingV) -> Seq<char> {
    decimal(f.quantity as nat) + " x "@ + f.kind + " "@ + f.size + " "@ + f.grade + suffix(
        f.nut,
        " nut"@,
    ) + suffix(f.washer, " washer"@) + suffix(f.thread_locker, " thread locker"@)
}

pub open spec fn joint_text(m: JointV, kind: StepKind) -> Seq<char> {
    match kind {
        StepKind::Supplied => readable_text(m.b) + " comes already fitted to "@ + readable_text(m.a)
            + "."@,
        StepKind::AlsoBolt => "Also bolt "@ + readable_text(m.b) + " at "@ + m.b_port + " to "@
            + readable_text(m.a) + " at "@ + m.a_port + ". It should line up without forcing."@,
        _ => "Fit "@ + readable_text(m.b) + " to "@ + readable_text(m.a) + " at "@ + m.a_port
            + "."@,
    }
}

pub open spec fn joint_warning(m: JointV, kind: StepKind) -> Option<Seq<char>> {
    if kind is Supplied {
        None
    } else {
        match m.fasteners {
            None => Some("This joint has no fastener specified."@),
            Some(f) => if f.torque is None {
                Some("No torque figure for the "@ + f.size + " "@ + f.kind + "."@)
            } else {
                None
            },
        }
    }
}

/// The step that makes joint `m`. A joint made in the factory is supplied, whatever it would
/// otherwise be.
pub open spec fn joint_step(m: JointV, kind: StepKind, g: Option<Seq<char>>) -> StepV {
    let k = if m.factory {
        StepKind::Supplied
    } else {
        kind
    };
    StepV {
        number: 0,
        group: g,
        kind: k,
        text: joint_text(m, k),
        fastener: match m.fasteners {
            Some(f) => Some(fixing_text(f)),
            None => None,
        },
        torque: match m.fasteners {
            Some(f) => f.torque,
            None => None,
        },
        mate: Some(m.id),
        warning: joint_warning(m, k),
    }
}

pub open spec fn start_step(g: Option<Seq<char>>, text: Seq<char>) -> StepV {
    StepV {
        number: 0,
        group: g,
        kind: StepKind::Start,
        text,
        fastener: None,
        torque: None,
        mate: None,
        warning: None,
    }
}

pub open spec fn title(g: Option<Seq<char>>) -> Seq<char> {
    match g {
        Some(u) => "Build the "@ + readable_text(u),
        None => "Put it together"@,
    }
}

pub open spec fn lay_out_steps(rs: Seq<Seq<char>>, g: Option<Seq<char>>) -> Seq<StepV> {
    rs.map_values(|r: Seq<char>| start_step(g, "Lay out "@ + readable_text(r) + " to build on."@))
}

pub open spec fn unordered_warning() -> Seq<char> {
    "This joint could not be placed in a build order, which usually means neither end is reachable from the part you started with."@
}

/// Whether joint `m` can be made now that the things in `done` are on the bench. A joint that
/// placed one of its ends needs the other end; any other joint is a second fixing and needs
/// both.
pub open spec fn ready(av: AssemblyV, m: JointV, done: Seq<Seq<char>>) -> bool {
    let places_a = placer(av, m.a) == Some(m.id);
    let places_b = placer(av, m.b) == Some(m.id);
    if places_a {
        done.contains(m.b)
    } else if places_b {
        done.contains(m.a)
    } else {
        done.contains(m.a) && done.contains(m.b)
    }
}

pub open spec fn joint_kind(av: AssemblyV, m: JointV) -> StepKind {
    if placer(av, m.a) == Some(m.id) || placer(av, m.b) == Some(m.id) {
        StepKind::Join
    } else {
        StepKind::AlsoBolt
    }
}

/// One pass over the joints still waiting: what is still waiting after it, what is on the
/// bench, the steps made, and whether any were.
pub struct Pass {
    pub kept: Seq<int>,
    pub done: Seq<Seq<char>>,
    pub steps: Seq<StepV>,
    pub progressed: bool,
}

/// One pass over the waiting joints `rem`, in order, making each that is ready.
pub open spec fn pass(av: AssemblyV, rem: Seq<int>, done: Seq<Seq<char>>, g: Option<Seq<char>>) -> Pass
    decreases rem.len(),
{
    if rem.len() == 0 {
        Pass { kept: seq![], done, steps: seq![], progressed: false }
    } else {
        let m = av.mates[rem[0]];
        if ready(av, m, done) {
            let r = pass(av, rem.drop_first(), done.push(m.a).push(m.b), g);
            Pass {
                kept: r.kept,
                done: r.done,
                steps: seq![joint_step(m, joint_kind(av, m), g)] + r.steps,
                progressed: true,
            }
        } else {
            let r = pass(av, rem.drop_first(), done, g);
            Pass { kept: seq![rem[0]] + r.kept, done: r.done, steps: r.steps, progressed: r.progressed }
        }
    }
}

/// Passes over the waiting joints until none is left, a pass makes nothing, or `guard` passes
/// have been made.
pub open spec fn rounds(
    av: AssemblyV,
    rem: Seq<int>,
    done: Seq<Seq<char>>,
    guard: nat,
    g: Option<Seq<char>>,
) -> Pass
    decreases guard,
{
    if rem.len() == 0 || guard == 0 {
        Pass { kept: rem, done, steps: seq![], progressed: false }
    } else {
        let p = pass(av, rem, done, g);
        if !p.progressed {
            Pass { kept: p.kept, done: p.done, steps: p.steps, progressed: false }
        } else {
            let r = rounds(av, p.kept, p.done, (guard - 1) as nat, g);
            Pass { kept: r.kept, done: r.done, steps: p.steps + r.steps, progressed: true }
        }
    }
}

/// The joints that could not be ordered, each as a second fixing with a warning.
pub open spec fn unordered_steps(av: AssemblyV, left: Seq<int>, g: Option<Seq<char>>) -> Seq<StepV> {
    left.map_values(
        |j: int|
            {
                let s = joint_step(av.mates[j], StepKind::AlsoBolt, g);
                StepV { warning: Some(unordered_warning()), ..s }
            },
    )
}

/// The steps of group `g`, and what is on the bench after them.
pub open spec fn group_steps(av: AssemblyV, g: Option<Seq<char>>, done: Seq<Seq<char>>) -> (
    Seq<StepV>,
    Seq<Seq<char>>,
) {
    let ig = members(av.mates, g, av.mates.len() as int);
    if ig.len() == 0 {
        (seq![], done)
    } else {
        let rs = roots(av, g);
        let r = rounds(av, ig, done + rs, (ig.len() + 1) as nat, g);
        (
            seq![start_step(g, title(g))] + lay_out_steps(rs, g) + r.steps + unordered_steps(
                av,
                r.kept,
                g,
            ),
            r.done,
        )
    }
}

/// The steps of the groups `gs`, in order, starting with `done` on the bench.
pub open spec fn groups_steps(av: AssemblyV, gs: Seq<Option<Seq<char>>>, done: Seq<Seq<char>>) -> Seq<
    StepV,
>
    decreases gs.len(),
{
    if gs.len() == 0 {
        seq![]
    } else {
        let (s, d) = group_steps(av, gs[0], done);
        s + groups_steps(av, gs.drop_first(), d)
    }
}

/// The steps numbered from one.
pub open spec fn numbered(s: Seq<StepV>) -> Seq<StepV> {
    Seq::new(s.len(), |i: int| StepV { number: i + 1, ..s[i] })
}

/// The instructions for an assembly.
pub open spec fn instructions(av: AssemblyV) -> Seq<StepV> {
    numbered(groups_steps(av, build_groups(av), seq![]))
}

// ------------------------------------------------------------------------ building them

fn first_dot_exec(s: &str) -> (r: Option<usize>)
    ensures
        match r {
            Some(k) => first_dot(s@, 0) == Some(k as int) && k < s@.len(),
            None => first_dot(s@, 0) is None,
        },
{
    let n = s.unicode_len();
    let mut i: usize = 0;
    while i < n
        invariant
            n == s@.len(),
            0 <= i <= n,
            first_dot(s@, 0) == first_dot(s@, i as int),
        decreases n - i,
    {
        if s.get_char(i) == '.' {
            return Some(i);
        }
        i += 1;
    }
    None
}

/// The sub-assembly a dotted part id belongs to.
fn unit_name(id: &str) -> (r: Option<String>)
    ensures
        opt_text(r) == unit_of(id@),
{
    match first_dot_exec(id) {
        Some(k) => {
            let cs = crate::text::chars_of(id);
            Some(crate::text::string_of(&cs, 0, k))
        },
        None => None,
    }
}

fn placer_in_exec<'a>(es: &'a Vec<Placed>, x: &str, dotted: bool) -> (r: Option<&'a String>)
    ensures
        match r {
            Some(m) => placer_in(placed_views(es@), x@, dotted) == Some(m@),
            None => placer_in(placed_views(es@), x@, dotted) is None,
        },
{
    let ghost all = placed_views(es@);
    let mut i = es.len();
    assert(all.subrange(0, i as int) =~= all);
    while i > 0
        invariant
            i <= es@.len(),
            all == placed_views(es@),
            placer_in(all, x@, dotted) == placer_in(all.subrange(0, i as int), x@, dotted),
        decreases i,
    {
        let ghost pre = all.subrange(0, i as int);
        proof {
            assert(pre.drop_last() =~= all.subrange(0, i - 1));
            assert(pre.last() == es@[i - 1]@);
        }
        i -= 1;
        let e = &es[i];
        if same_text(e.id.as_str(), x) && (!dotted || unit_name(e.id.as_str()).is_some()) {
            match &e.placed_by {
                PlacedBy::Mate(m) => {
                    return Some(m);
                },
                _ => {},
            }
        }
    }
    None
}

fn placer_exec<'a>(model: &'a Assembly, x: &str) -> (r: Option<&'a String>)
    ensures
        match r {
            Some(m) => placer(model@, x@) == Some(m@),
            None => placer(model@, x@) is None,
        },
{
    match placer_in_exec(&model.instances, x, true) {
        Some(m) => Some(m),
        None => placer_in_exec(&model.mateable, x, false),
    }
}

fn append_suffix(out: &mut String, o: &Option<String>, what: &str)
    ensures
        final(out)@ == old(out)@ + suffix(opt_text(*o), what@),
{
    match o {
        Some(x) => {
            out.append(", ");
            out.append(x.as_str());
            out.append(what);
            assert(final(out)@ =~= old(out)@ + suffix(opt_text(*o), what@));
        },
        None => {
            assert(out@ =~= old(out)@ + suffix(opt_text(*o), what@));
        },
    }
}

fn fixing_line(f: &Fixing) -> (r: String)
    ensures
        r@ == fixing_text(f@),
{
    let mut s = decimal_text(f.quantity as u128);
    s.append(" x ");
    s.append(f.kind.as_str());
    s.append(" ");
    s.append(f.size.as_str());
    s.append(" ");
    s.append(f.grade.as_str());
    append_suffix(&mut s, &f.nut, " nut");
    append_suffix(&mut s, &f.washer, " washer");
    append_suffix(&mut s, &f.thread_locker, " thread locker");
    s
}

fn joint_line(m: &Joint, kind: StepKind) -> (r: String)
    ensures
        r@ == joint_text(m@, kind),
{
    let b = readable(m.b.as_str());
    let a = readable(m.a.as_str());
    match kind {
        StepKind::Supplied => {
            let mut s = b;
            s.append(" comes already fitted to ");
            s.append(a.as_str());
            s.append(".");
            s
        },
        StepKind::AlsoBolt => {
            let mut s = string_from("Also bolt ");
            s.append(b.as_str());
            s.append(" at ");
            s.append(m.b_port.as_str());
            s.append(" to ");
            s.append(a.as_str());
            s.append(" at ");
            s.append(m.a_port.as_str());
            s.append(". It should line up without forcing.");
            s
        },
        _ => {
            let mut s = string_from("Fit ");
            s.append(b.as_str());
            s.append(" to ");
            s.append(a.as_str());
            s.append(" at ");
            s.append(m.a_port.as_str());
            s.append(".");
            s
        },
    }
}

fn clone_opt(o: &Option<String>) -> (r: Option<String>)
    ensures
        opt_text(r) == opt_text(*o),
{
    match o {
        Some(s) => Some(s.clone()),
        None => None,
    }
}

/// The step that makes joint `m`.
fn step_for(m: &Joint, kind: StepKind, group: Option<String>) -> (r: Step)
    ensures
        r@ == joint_step(m@, kind, opt_text(group)),
{
    let kind = if m.factory {
        StepKind::Supplied
    } else {
        kind
    };
    let text = joint_line(m, kind);
    let (fastener, torque) = match &m.fasteners {
        Some(f) => (Some(fixing_line(f)), clone_opt(&f.torque)),
        None => (None, None),
    };
    let warning = match kind {
        StepKind::Supplied => None,
        _ => match &m.fasteners {
            None => Some(string_from("This joint has no fastener specified.")),
            Some(f) => if f.torque.is_none() {
                let mut w = string_from("No torque figure for the ");
                w.append(f.size.as_str());
                w.append(" ");
                w.append(f.kind.as_str());
                w.append(".");
                Some(w)
            } else {
                None
            },
        },
    };
    Step {
        number: 0,
        group,
        kind,
        text,
        fastener,
        torque,
        mate: Some(m.id.clone()),
        warning,
    }
}

pub open spec fn opt_texts(v: Seq<Option<String>>) -> Seq<Option<Seq<char>>> {
    v.map_values(|o: Option<String>| opt_text(o))
}

pub open spec fn idx(v: Seq<usize>) -> Seq<int> {
    v.map_values(|i: usize| i as int)
}

fn same_group(a: &Option<String>, b: &Option<String>) -> (r: bool)
    ensures
        r == (opt_text(*a) == opt_text(*b)),
{
    match (a, b) {
        (Some(x), Some(y)) => same_text(x.as_str(), y.as_str()),
        (None, None) => true,
        _ => false,
    }
}

fn has_group(d: &Vec<Option<String>>, u: &Option<String>) -> (r: bool)
    ensures
        r == opt_texts(d@).contains(opt_text(*u)),
{
    let mut i: usize = 0;
    while i < d.len()
        invariant
            0 <= i <= d@.len(),
            forall|j: int| 0 <= j < i ==> opt_texts(d@)[j] != opt_text(*u),
        decreases d@.len() - i,
    {
        if same_group(&d[i], u) {
            assert(opt_texts(d@)[i as int] == opt_text(*u));
            return true;
        }
        i += 1;
    }
    false
}

/// The groups in the order they are built: every sub-assembly, then the vehicle.
fn build_groups_exec(model: &Assembly) -> (r: Vec<Option<String>>)
    ensures
        opt_texts(r@) == build_groups(model@),
{
    let ghost ms = model@.mates;
    let mut d: Vec<Option<String>> = Vec::new();
    let mut i: usize = 0;
    while i < model.mates.len()
        invariant
            ms == model@.mates,
            0 <= i <= model.mates@.len(),
            opt_texts(d@) == units_seen(ms.subrange(0, i as int)),
        decreases model.mates@.len() - i,
    {
        proof {
            assert(ms.subrange(0, i + 1).drop_last() =~= ms.subrange(0, i as int));
            assert(ms[i as int] == model.mates@[i as int]@);
        }
        if !has_group(&d, &model.mates[i].unit) {
            let u = clone_opt(&model.mates[i].unit);
            d.push(u);
            assert(opt_texts(d@) =~= units_seen(ms.subrange(0, i as int)).push(ms[i as int].unit));
        }
        i += 1;
    }
    assert(ms.subrange(0, ms.len() as int) =~= ms);
    let ghost dv = opt_texts(d@);
    let mut out: Vec<Option<String>> = Vec::new();
    let mut j: usize = 0;
    while j < d.len()
        invariant
            dv == opt_texts(d@),
            0 <= j <= d@.len(),
            opt_texts(out@) == somes(dv.subrange(0, j as int)),
        decreases d@.len() - j,
    {
        proof {
            assert(dv.subrange(0, j + 1).drop_last() =~= dv.subrange(0, j as int));
        }
        if d[j].is_some() {
            let u = clone_opt(&d[j]);
            out.push(u);
            assert(opt_texts(out@) =~= somes(dv.subrange(0, j as int)).push(dv[j as int]));
        }
        j += 1;
    }
    assert(dv.subrange(0, dv.len() as int) =~= dv);
    let ghost front = opt_texts(out@);
    let mut k: usize = 0;
    while k < d.len()
        invariant
            dv == opt_texts(d@),
            0 <= k <= d@.len(),
            opt_texts(out@) == front + nones(dv.subrange(0, k as int)),
        decreases d@.len() - k,
    {
        proof {
            assert(dv.subrange(0, k + 1).drop_last() =~= dv.subrange(0, k as int));
        }
        if d[k].is_none() {
            let ghost before = opt_texts(out@);
            out.push(None);
            assert(dv[k as int] is None);
            assert(opt_texts(out@) =~= before.push(None));
            assert(opt_texts(out@) =~= front + nones(dv.subrange(0, k as int)).push(dv[k as int]));
        }
        k += 1;
    }
    out
}

/// The positions of the joints made in group `g`.
fn members_exec(model: &Assembly, g: &Option<String>) -> (r: Vec<usize>)
    ensures
        idx(r@) == members(model@.mates, opt_text(*g), model@.mates.len() as int),
        forall|i: int| 0 <= i < r@.len() ==> r@[i] < model.mates@.len(),
{
    let mut out: Vec<usize> = Vec::new();
    let mut i: usize = 0;
    while i < model.mates.len()
        invariant
            0 <= i <= model.mates@.len(),
            idx(out@) == members(model@.mates, opt_text(*g), i as int),
            forall|k: int| 0 <= k < out@.len() ==> out@[k] < model.mates@.len(),
        decreases model.mates@.len() - i,
    {
        if same_group(&model.mates[i].unit, g) {
            out.push(i);
            assert(idx(out@) =~= members(model@.mates, opt_text(*g), i as int).push(i as int));
        }
        i += 1;
    }
    out
}

/// What the work of group `g` is built on.
fn roots_exec(model: &Assembly, g: &Option<String>) -> (r: Vec<String>)
    ensures
        texts(r@) == roots(model@, opt_text(*g)),
{
    let mut out: Vec<String> = Vec::new();
    match g {
        None => {
            let ghost es = model@.mateable;
            let mut i: usize = 0;
            while i < model.mateable.len()
                invariant
                    es == model@.mateable,
                    0 <= i <= model.mateable@.len(),
                    texts(out@) == unit_roots(es.subrange(0, i as int)),
                decreases model.mateable@.len() - i,
            {
                proof {
                    assert(es.subrange(0, i + 1).drop_last() =~= es.subrange(0, i as int));
                    assert(es[i as int] == model.mateable@[i as int]@);
                }
                let e = &model.mateable[i];
                let start = match &e.placed_by {
                    PlacedBy::Root => true,
                    PlacedBy::Free(_) => true,
                    _ => false,
                };
                if start {
                    out.push(e.id.clone());
                    assert(texts(out@) =~= unit_roots(es.subrange(0, i as int)).push(es[i as int].id));
                }
                i += 1;
            }
            assert(es.subrange(0, es.len() as int) =~= es);
        },
        Some(u) => {
            let ghost es = model@.instances;
            let mut i: usize = 0;
            while i < model.instances.len()
                invariant
                    es == model@.instances,
                    0 <= i <= model.instances@.len(),
                    texts(out@) == part_roots(es.subrange(0, i as int), u@),
                decreases model.instances@.len() - i,
            {
                proof {
                    assert(es.subrange(0, i + 1).drop_last() =~= es.subrange(0, i as int));
                    assert(es[i as int] == model.instances@[i as int]@);
                }
                let e = &model.instances[i];
                let start = match &e.placed_by {
                    PlacedBy::Root => true,
                    PlacedBy::Free(_) => true,
                    _ => false,
                };
                let here = match unit_name(e.id.as_str()) {
                    Some(w) => same_text(w.as_str(), u.as_str()),
                    None => false,
                };
                if here && start {
                    out.push(e.id.clone());
                    assert(texts(out@) =~= part_roots(es.subrange(0, i as int), u@).push(es[i as int].id));
                }
                i += 1;
            }
            assert(es.subrange(0, es.len() as int) =~= es);
        },
    }
    out
}

/// One pass over the waiting joints, making each that is ready; the steps are appended.
fn pass_exec(
    model: &Assembly,
    rem: &Vec<usize>,
    done: &mut Vec<String>,
    g: &Option<String>,
    steps: &mut Vec<Step>,
) -> (r: (Vec<usize>, bool))
    requires
        forall|i: int| 0 <= i < rem@.len() ==> rem@[i] < model.mates@.len(),
    ensures
        ({
            let p = pass(model@, idx(rem@), texts(old(done)@), opt_text(*g));
            &&& idx(r.0@) == p.kept
            &&& texts(final(done)@) == p.done
            &&& steps_view(final(steps)@) == steps_view(old(steps)@) + p.steps
            &&& r.1 == p.progressed
        }),
        forall|i: int| 0 <= i < r.0@.len() ==> r.0@[i] < model.mates@.len(),
{
    let ghost av = model@;
    let ghost all = idx(rem@);
    let ghost p0 = pass(av, all, texts(done@), opt_text(*g));
    let ghost s0 = steps_view(steps@);
    let mut kept: Vec<usize> = Vec::new();
    let mut progressed = false;
    let mut i: usize = 0;
    assert(all.subrange(0, all.len() as int) =~= all);
    while i < rem.len()
        invariant
            av == model@,
            all == idx(rem@),
            forall|k: int| 0 <= k < rem@.len() ==> rem@[k] < model.mates@.len(),
            0 <= i <= rem@.len(),
            p0.kept == idx(kept@) + pass(av, all.subrange(i as int, all.len() as int), texts(done@), opt_text(*g)).kept,
            p0.done == pass(av, all.subrange(i as int, all.len() as int), texts(done@), opt_text(*g)).done,
            s0 + p0.steps == steps_view(steps@) + pass(av, all.subrange(i as int, all.len() as int), texts(done@), opt_text(*g)).steps,
            p0.progressed == (progressed || pass(av, all.subrange(i as int, all.len() as int), texts(done@), opt_text(*g)).progressed),
            forall|k: int| 0 <= k < kept@.len() ==> kept@[k] < model.mates@.len(),
        decreases rem@.len() - i,
    {
        let ghost rest = all.subrange(i as int, all.len() as int);
        let ghost d = texts(done@);
        proof {
            assert(rest.drop_first() =~= all.subrange(i + 1, all.len() as int));
            assert(rest[0] == rem@[i as int] as int);
        }
        let j = rem[i];
        let m = &model.mates[j];
        assert(av.mates[j as int] == m@);
        let places_a = match placer_exec(model, m.a.as_str()) {
            Some(x) => same_text(x.as_str(), m.id.as_str()),
            None => false,
        };
        let places_b = match placer_exec(model, m.b.as_str()) {
            Some(x) => same_text(x.as_str(), m.id.as_str()),
            None => false,
        };
        let is_ready = if places_a {
            holds_text(done, m.b.as_str())
        } else if places_b {
            holds_text(done, m.a.as_str())
        } else {
            holds_text(done, m.a.as_str()) && holds_text(done, m.b.as_str())
        };
        assert(is_ready == ready(av, m@, d));
        if is_ready {
            let kind = if places_a || places_b {
                StepKind::Join
            } else {
                StepKind::AlsoBolt
            };
            let s = step_for(m, kind, clone_opt(g));
            let ghost sv = s@;
            steps.push(s);
            done.push(m.a.clone());
            done.push(m.b.clone());
            progressed = true;
            proof {
                assert(texts(done@) =~= d.push(m@.a).push(m@.b));
                let after = pass(av, rest.drop_first(), texts(done@), opt_text(*g));
                assert(pass(av, rest, d, opt_text(*g)).steps =~= seq![sv] + after.steps);
                assert(steps_view(steps@) + after.steps =~= (steps_view(steps@).drop_last()) + (seq![sv] + after.steps));
            }
        } else {
            kept.push(j);
            proof {
                let after = pass(av, rest.drop_first(), d, opt_text(*g));
                assert(idx(kept@) =~= idx(kept@).drop_last().push(j as int));
                assert(pass(av, rest, d, opt_text(*g)).kept =~= seq![j as int] + after.kept);
                assert(idx(kept@) + after.kept =~= idx(kept@).drop_last() + (seq![j as int] + after.kept));
            }
        }
        i += 1;
    }
    proof {
        let rest = all.subrange(i as int, all.len() as int);
        assert(rest.len() == 0);
        assert(idx(kept@) + seq![] =~= idx(kept@));
        assert(steps_view(steps@) + Seq::<StepV>::empty() =~= steps_view(steps@));
    }
    (kept, progressed)
}

/// Passes over the waiting joints until none is left, a pass makes nothing, or `guard` passes
/// have been made. Returns the joints still waiting.
#[verifier::loop_isolation(false)]
fn rounds_exec(
    model: &Assembly,
    rem: Vec<usize>,
    done: &mut Vec<String>,
    guard: u128,
    g: &Option<String>,
    steps: &mut Vec<Step>,
) -> (r: Vec<usize>)
    requires
        forall|i: int| 0 <= i < rem@.len() ==> rem@[i] < model.mates@.len(),
    ensures
        ({
            let p = rounds(model@, idx(rem@), texts(old(done)@), guard as nat, opt_text(*g));
            &&& idx(r@) == p.kept
            &&& texts(final(done)@) == p.done
            &&& steps_view(final(steps)@) == steps_view(old(steps)@) + p.steps
        }),
        forall|i: int| 0 <= i < r@.len() ==> r@[i] < model.mates@.len(),
{
    let ghost av = model@;
    let ghost p0 = rounds(av, idx(rem@), texts(done@), guard as nat, opt_text(*g));
    let ghost s0 = steps_view(steps@);
    let mut rem = rem;
    let mut guard = guard;
    loop
        invariant
            forall|i: int| 0 <= i < rem@.len() ==> rem@[i] < model.mates@.len(),
            p0.kept == rounds(av, idx(rem@), texts(done@), guard as nat, opt_text(*g)).kept,
            p0.done == rounds(av, idx(rem@), texts(done@), guard as nat, opt_text(*g)).done,
            s0 + p0.steps == steps_view(steps@) + rounds(av, idx(rem@), texts(done@), guard as nat, opt_text(*g)).steps,
        decreases guard,
    {
        if rem.len() == 0 || guard == 0 {
            assert(steps_view(steps@) + Seq::<StepV>::empty() =~= steps_view(steps@));
            return rem;
        }
        let ghost before = steps_view(steps@);
        let ghost p = pass(av, idx(rem@), texts(done@), opt_text(*g));
        guard -= 1;
        let (kept, progressed) = pass_exec(model, &rem, done, g, steps);
        rem = kept;
        if !progressed {
            assert(steps_view(steps@) + Seq::<StepV>::empty() =~= steps_view(steps@));
            return rem;
        }
        assert(before + (p.steps + rounds(av, idx(rem@), texts(done@), guard as nat, opt_text(*g)).steps)
            =~= steps_view(steps@) + rounds(av, idx(rem@), texts(done@), guard as nat, opt_text(*g)).steps);
    }
}

fn lay_out_step(r: &String, g: &Option<String>) -> (s: Step)
    ensures
        s@ == start_step(opt_text(*g), "Lay out "@ + readable_text(r@) + " to build on."@),
{
    let mut text = string_from("Lay out ");
    let name = readable(r.as_str());
    text.append(name.as_str());
    text.append(" to build on.");
    Step {
        number: 0,
        group: clone_opt(g),
        kind: StepKind::Start,
        text,
        fastener: None,
        torque: None,
        mate: None,
        warning: None,
    }
}

fn title_step(g: &Option<String>) -> (s: Step)
    ensures
        s@ == start_step(opt_text(*g), title(opt_text(*g))),
{
    let text = match g {
        Some(u) => {
            let mut t = string_from("Build the ");
            let name = readable(u.as_str());
            t.append(name.as_str());
            t
        },
        None => string_from("Put it together"),
    };
    Step {
        number: 0,
        group: clone_opt(g),
        kind: StepKind::Start,
        text,
        fastener: None,
        torque: None,
        mate: None,
        warning: None,
    }
}

/// The steps of group `g`, appended to `steps`.
fn group_exec(model: &Assembly, g: &Option<String>, done: &mut Vec<String>, steps: &mut Vec<Step>)
    ensures
        ({
            let (gs, d) = group_steps(model@, opt_text(*g), texts(old(done)@));
            &&& steps_view(final(steps)@) == steps_view(old(steps)@) + gs
            &&& texts(final(done)@) == d
        }),
{
    let ghost av = model@;
    let ghost gv = opt_text(*g);
    let ghost s0 = steps_view(steps@);
    let ghost d0 = texts(done@);
    let ig = members_exec(model, g);
    if ig.len() == 0 {
        assert(steps_view(steps@) =~= s0 + Seq::<StepV>::empty());
        return;
    }
    steps.push(title_step(g));
    let rs = roots_exec(model, g);
    let ghost after_title = steps_view(steps@);
    let mut i: usize = 0;
    while i < rs.len()
        invariant
            gv == opt_text(*g),
            0 <= i <= rs@.len(),
            steps_view(steps@) == after_title + lay_out_steps(texts(rs@).subrange(0, i as int), gv),
            texts(done@) == d0 + texts(rs@).subrange(0, i as int),
        decreases rs@.len() - i,
    {
        let ghost sv = steps_view(steps@);
        let ghost dv = texts(done@);
        let s = lay_out_step(&rs[i], g);
        let ghost one = s@;
        steps.push(s);
        done.push(rs[i].clone());
        proof {
            let a = texts(rs@).subrange(0, i as int);
            let b = texts(rs@).subrange(0, i + 1);
            assert(b =~= a.push(rs@[i as int]@));
            assert(lay_out_steps(b, gv) =~= lay_out_steps(a, gv).push(one));
            assert(steps_view(steps@) =~= sv.push(one));
            assert(texts(done@) =~= dv.push(rs@[i as int]@));
            assert(steps_view(steps@) =~= after_title + lay_out_steps(b, gv));
            assert(texts(done@) =~= d0 + b);
        }
        i += 1;
    }
    assert(texts(rs@).subrange(0, rs@.len() as int) =~= texts(rs@));
    let ghost before_rounds = steps_view(steps@);
    let guard: u128 = ig.len() as u128 + 1;
    let left = rounds_exec(model, ig, done, guard, g, steps);
    let ghost after_rounds = steps_view(steps@);
    let mut k: usize = 0;
    while k < left.len()
        invariant
            av == model@,
            gv == opt_text(*g),
            0 <= k <= left@.len(),
            forall|q: int| 0 <= q < left@.len() ==> left@[q] < model.mates@.len(),
            steps_view(steps@) == after_rounds + unordered_steps(av, idx(left@).subrange(0, k as int), gv),
        decreases left@.len() - k,
    {
        let ghost sv = steps_view(steps@);
        let m = &model.mates[left[k]];
        assert(av.mates[left@[k as int] as int] == m@);
        let mut s = step_for(m, StepKind::AlsoBolt, clone_opt(g));
        s.warning = Some(
            string_from(
                "This joint could not be placed in a build order, which usually means neither end is reachable from the part you started with.",
            ),
        );
        let ghost one = s@;
        steps.push(s);
        proof {
            let a = idx(left@).subrange(0, k as int);
            let b = idx(left@).subrange(0, k + 1);
            assert(b =~= a.push(left@[k as int] as int));
            assert(one == StepV { warning: Some(unordered_warning()), ..joint_step(m@, StepKind::AlsoBolt, gv) });
            assert(unordered_steps(av, b, gv) =~= unordered_steps(av, a, gv).push(one));
            assert(steps_view(steps@) =~= sv.push(one));
            assert(steps_view(steps@) =~= after_rounds + unordered_steps(av, b, gv));
        }
        k += 1;
    }
    assert(idx(left@).subrange(0, left@.len() as int) =~= idx(left@));
    assert(steps_view(steps@) =~= s0 + (seq![start_step(gv, title(gv))] + lay_out_steps(texts(rs@), gv)
        + rounds(av, idx(ig@), d0 + texts(rs@), (ig@.len() + 1) as nat, gv).steps + unordered_steps(
        av,
        idx(left@),
        gv,
    )));
}

/// The steps numbered from one.
fn number_steps(steps: Vec<Step>) -> (r: Vec<Step>)
    ensures
        steps_view(r@) == numbered(steps_view(steps@)),
{
    let ghost orig = steps_view(steps@);
    let n = steps.len();
    let mut steps = steps;
    let mut rev: Vec<Step> = Vec::new();
    while steps.len() > 0
        invariant
            rev@.len() + steps@.len() == n,
            n == orig.len(),
            steps_view(steps@) == orig.subrange(0, steps@.len() as int),
            forall|i: int| 0 <= i < rev@.len() ==> #[trigger] rev@[i]@ == orig[n - 1 - i],
        decreases steps@.len(),
    {
        let ghost len0 = steps@.len();
        let ghost last = steps@[len0 - 1];
        assert(steps_view(steps@)[len0 - 1] == last@);
        assert(orig.subrange(0, len0 as int)[len0 - 1] == orig[len0 - 1]);
        let s = steps.pop().unwrap();
        assert(s == last);
        rev.push(s);
        assert(steps_view(steps@) =~= orig.subrange(0, steps@.len() as int));
        assert(rev@[rev@.len() - 1]@ == orig[n - 1 - (rev@.len() - 1)]);
    }
    let mut out: Vec<Step> = Vec::new();
    while rev.len() > 0
        invariant
            rev@.len() + out@.len() == n,
            n == orig.len(),
            forall|i: int| 0 <= i < rev@.len() ==> #[trigger] rev@[i]@ == orig[n - 1 - i],
            forall|i: int| 0 <= i < out@.len() ==> #[trigger] out@[i]@ == (StepV { number: i + 1, ..orig[i] }),
        decreases rev@.len(),
    {
        let ghost last = rev@[rev@.len() - 1];
        assert(last@ == orig[n - 1 - (rev@.len() - 1)]);
        let mut s = rev.pop().unwrap();
        assert(s == last);
        s.number = out.len() + 1;
        out.push(s);
        assert(out@[out@.len() - 1]@ == (StepV { number: out@.len() as int, ..orig[out@.len() - 1] }));
    }
    assert(steps_view(out@) =~= numbered(orig));
    out
}

/// Build the instructions for a resolved vehicle or assembly.
pub fn assembly_steps(model: &Assembly) -> (r: Vec<Step>)
    ensures
        steps_view(r@) == instructions(model@),
{
    let ghost av = model@;
    let gs = build_groups_exec(model);
    let ghost gv = opt_texts(gs@);
    let mut done: Vec<String> = Vec::new();
    let mut steps: Vec<Step> = Vec::new();
    let mut i: usize = 0;
    assert(gv.subrange(0, gv.len() as int) =~= gv);
    assert(texts(done@) =~= Seq::<Seq<char>>::empty());
    while i < gs.len()
        invariant
            av == model@,
            gv == opt_texts(gs@),
            0 <= i <= gs@.len(),
            groups_steps(av, gv, seq![]) == steps_view(steps@) + groups_steps(av, gv.subrange(i as int, gv.len() as int), texts(done@)),
        decreases gs@.len() - i,
    {
        let ghost rest = gv.subrange(i as int, gv.len() as int);
        let ghost before = steps_view(steps@);
        let ghost d = texts(done@);
        group_exec(model, &gs[i], &mut done, &mut steps);
        proof {
            assert(rest.drop_first() =~= gv.subrange(i + 1, gv.len() as int));
            assert(rest[0] == gv[i as int]);
            let (s, d2) = group_steps(av, gv[i as int], d);
            assert(groups_steps(av, rest, d) == s + groups_steps(av, rest.drop_first(), d2));
            assert(before + (s + groups_steps(av, rest.drop_first(), d2)) =~= steps_view(steps@) + groups_steps(av, rest.drop_first(), d2));
        }
        i += 1;
    }
    assert(steps_view(steps@) + Seq::<StepV>::empty() =~= steps_view(steps@));
    number_steps(steps)
}

// ------------------------------------------------------------------------------ the laws

/// Every step of `s` belongs to group `g`.
pub open spec fn all_in_group(s: Seq<StepV>, g: Option<Seq<char>>) -> bool {
    forall|i: int| 0 <= i < s.len() ==> (#[trigger] s[i]).group == g
}

/// Once a step of the vehicle itself has come, no step of a sub-assembly follows.
pub open spec fn subs_first(s: Seq<StepV>) -> bool {
    forall|i: int, j: int|
        0 <= i < j < s.len() && (#[trigger] s[i]).group is None ==> (#[trigger] s[j]).group is None
}

pub open spec fn groups_sorted(gs: Seq<Option<Seq<char>>>) -> bool {
    forall|i: int, j: int| 0 <= i < j < gs.len() && (#[trigger] gs[i]) is None ==> (#[trigger] gs[j]) is None
}

proof fn lemma_pass_in_group(av: AssemblyV, rem: Seq<int>, done: Seq<Seq<char>>, g: Option<Seq<char>>)
    ensures
        all_in_group(pass(av, rem, done, g).steps, g),
    decreases rem.len(),
{
    if rem.len() > 0 {
        let m = av.mates[rem[0]];
        if ready(av, m, done) {
            lemma_pass_in_group(av, rem.drop_first(), done.push(m.a).push(m.b), g);
            let r = pass(av, rem.drop_first(), done.push(m.a).push(m.b), g);
            assert forall|i: int| 0 <= i < pass(av, rem, done, g).steps.len() implies
                (#[trigger] pass(av, rem, done, g).steps[i]).group == g by {
                if i > 0 {
                    assert(pass(av, rem, done, g).steps[i] == r.steps[i - 1]);
                }
            }
        } else {
            lemma_pass_in_group(av, rem.drop_first(), done, g);
        }
    }
}

proof fn lemma_rounds_in_group(
    av: AssemblyV,
    rem: Seq<int>,
    done: Seq<Seq<char>>,
    guard: nat,
    g: Option<Seq<char>>,
)
    ensures
        all_in_group(rounds(av, rem, done, guard, g).steps, g),
    decreases guard,
{
    if rem.len() > 0 && guard > 0 {
        let p = pass(av, rem, done, g);
        lemma_pass_in_group(av, rem, done, g);
        if p.progressed {
            lemma_rounds_in_group(av, p.kept, p.done, (guard - 1) as nat, g);
            let r = rounds(av, p.kept, p.done, (guard - 1) as nat, g);
            assert forall|i: int| 0 <= i < (p.steps + r.steps).len() implies
                (#[trigger] (p.steps + r.steps)[i]).group == g by {
                if i >= p.steps.len() {
                    assert((p.steps + r.steps)[i] == r.steps[i - p.steps.len()]);
                }
            }
        }
    }
}

proof fn lemma_group_steps_in_group(av: AssemblyV, g: Option<Seq<char>>, done: Seq<Seq<char>>)
    ensures
        all_in_group(group_steps(av, g, done).0, g),
{
    let ig = members(av.mates, g, av.mates.len() as int);
    if ig.len() > 0 {
        let rs = roots(av, g);
        let r = rounds(av, ig, done + rs, (ig.len() + 1) as nat, g);
        lemma_rounds_in_group(av, ig, done + rs, (ig.len() + 1) as nat, g);
        let a = seq![start_step(g, title(g))];
        let b = lay_out_steps(rs, g);
        let c = r.steps;
        let d = unordered_steps(av, r.kept, g);
        assert forall|i: int| 0 <= i < (a + b + c + d).len() implies
            (#[trigger] (a + b + c + d)[i]).group == g by {
            if i < a.len() {
            } else if i < a.len() + b.len() {
                assert((a + b + c + d)[i] == b[i - a.len()]);
            } else if i < a.len() + b.len() + c.len() {
                assert((a + b + c + d)[i] == c[i - a.len() - b.len()]);
            } else {
                assert((a + b + c + d)[i] == d[i - a.len() - b.len() - c.len()]);
            }
        }
    }
}

proof fn lemma_groups_steps_sorted(av: AssemblyV, gs: Seq<Option<Seq<char>>>, done: Seq<Seq<char>>)
    requires
        groups_sorted(gs),
    ensures
        subs_first(groups_steps(av, gs, done)),
        gs.len() > 0 && gs[0] is None ==> all_in_group(groups_steps(av, gs, done), None),
    decreases gs.len(),
{
    if gs.len() > 0 {
        let (s, d) = group_steps(av, gs[0], done);
        let rest = gs.drop_first();
        assert(groups_sorted(rest)) by {
            assert forall|i: int, j: int| 0 <= i < j < rest.len() && (#[trigger] rest[i]) is None implies
                (#[trigger] rest[j]) is None by {
                assert(rest[i] == gs[i + 1] && rest[j] == gs[j + 1]);
            }
        }
        lemma_groups_steps_sorted(av, rest, d);
        lemma_group_steps_in_group(av, gs[0], done);
        let t = groups_steps(av, rest, d);
        let all = s + t;
        assert(groups_steps(av, gs, done) == all);
        if gs[0] is None {
            if rest.len() > 0 {
                assert(gs[1] is None);
                assert(rest[0] is None);
            }
            assert forall|i: int| 0 <= i < all.len() implies (#[trigger] all[i]).group is None by {
                if i >= s.len() {
                    assert(all[i] == t[i - s.len()]);
                }
            }
        } else {
            assert forall|i: int, j: int| 0 <= i < j < all.len() && (#[trigger] all[i]).group is None implies
                (#[trigger] all[j]).group is None by {
                assert(i >= s.len());
                assert(all[i] == t[i - s.len()]);
                assert(all[j] == t[j - s.len()]);
            }
        }
        if gs[0] is None {
            assert forall|i: int, j: int| 0 <= i < j < all.len() && (#[trigger] all[i]).group is None implies
                (#[trigger] all[j]).group is None by {
            }
        }
    }
}

proof fn lemma_somes_nones(d: Seq<Option<Seq<char>>>)
    ensures
        forall|i: int| 0 <= i < somes(d).len() ==> (#[trigger] somes(d)[i]) is Some,
        forall|i: int| 0 <= i < nones(d).len() ==> (#[trigger] nones(d)[i]) is None,
    decreases d.len(),
{
    if d.len() > 0 {
        lemma_somes_nones(d.drop_last());
    }
}

/// The sub-assemblies are built before they are fitted: in the instructions for any assembly,
/// once a step of the vehicle itself has come, no step of a sub-assembly follows.
pub proof fn law_sub_assemblies_first(av: AssemblyV)
    ensures
        forall|i: int, j: int|
            0 <= i < j < instructions(av).len() && (#[trigger] instructions(av)[i]).group is None
                ==> (#[trigger] instructions(av)[j]).group is None,
{
    let d = units_seen(av.mates);
    let gs = build_groups(av);
    lemma_somes_nones(d);
    assert(groups_sorted(gs)) by {
        assert forall|i: int, j: int| 0 <= i < j < gs.len() && (#[trigger] gs[i]) is None implies
            (#[trigger] gs[j]) is None by {
            if i < somes(d).len() {
                assert(gs[i] == somes(d)[i]);
            } else {
                assert(gs[j] == nones(d)[j - somes(d).len()]);
            }
        }
    }
    lemma_groups_steps_sorted(av, gs, seq![]);
}

/// The steps are numbered from one, in order.
pub proof fn law_steps_numbered(av: AssemblyV)
    ensures
        forall|i: int| 0 <= i < instructions(av).len() ==> (#[trigger] instructions(av)[i]).number == i + 1,
{
}

/// The step that makes a joint names everything its fixing specifies: it begins with how many
/// fasteners, of what kind, size and grade, and goes on to name the nut, the washer and the
/// thread locker wherever the fixing has one.
pub proof fn law_a_step_names_the_whole_fixing(m: JointV, kind: StepKind, g: Option<Seq<char>>)
    requires
        m.fasteners is Some,
    ensures
        joint_step(m, kind, g).fastener is Some,
        ({
            let f = m.fasteners.unwrap();
            let t = joint_step(m, kind, g).fastener.unwrap();
            let head = decimal(f.quantity as nat) + " x "@ + f.kind + " "@ + f.size + " "@ + f.grade;
            &&& head.len() <= t.len()
            &&& t.subrange(0, head.len() as int) == head
            &&& (f.nut matches Some(n) ==> crate::text::has_text(t, ", "@ + n + " nut"@))
            &&& (f.washer matches Some(w) ==> crate::text::has_text(t, ", "@ + w + " washer"@))
            &&& (f.thread_locker matches Some(l) ==> crate::text::has_text(t, ", "@ + l + " thread locker"@))
        }),
{
    let f = m.fasteners.unwrap();
    let t = joint_step(m, kind, g).fastener.unwrap();
    let head = decimal(f.quantity as nat) + " x "@ + f.kind + " "@ + f.size + " "@ + f.grade;
    let sn = suffix(f.nut, " nut"@);
    let sw = suffix(f.washer, " washer"@);
    let sl = suffix(f.thread_locker, " thread locker"@);
    assert(t == head + sn + sw + sl);
    assert(t.subrange(0, head.len() as int) =~= head);
    let a = head.len() as int;
    let b = a + sn.len();
    let c = b + sw.len();
    if f.nut is Some {
        assert(t.subrange(a, a + sn.len()) =~= sn);
        assert(crate::text::occurs_at(t, sn, a));
    }
    if f.washer is Some {
        assert(t.subrange(b, b + sw.len()) =~= sw);
        assert(crate::text::occurs_at(t, sw, b));
    }
    if f.thread_locker is Some {
        assert(t.subrange(c, c + sl.len()) =~= sl);
        assert(crate::text::occurs_at(t, sl, c));
    }
}

} // verus!
