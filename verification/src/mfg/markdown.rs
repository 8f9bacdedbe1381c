//! The text of a build pack: the assembly instructions, as Markdown for a document and as plain
//! text for a terminal, and the cells of its tables that are words rather than measurements.
//!
//! The whole pack is laid out here too. Its measured figures (costs, masses and lengths) are
//! floating point work done by the application, which hands them over already written as
//! numbers; the layout, the counts and the words are decided here.

use vstd::prelude::*;

use super::bom::{counts_view, BomLine, BomLineV, CutLine, CutLineV};
use super::fasteners::{Fastener, FastenerV};
use super::steps::{steps_view, Step, StepKind, StepV};
use crate::text::{
    concat, decimal, decimal_text, has_text, join, join_with, occurs_at, opt_text, push_char, same_text,
    string_from, texts,
};

verus! {

/// What one step contributes: a heading where a new group begins (the group's first step is its
/// title), otherwise a numbered line with what to fit it with and how tight, and any warning
/// beneath it.
pub open spec fn step_markdown(steps: Seq<StepV>, k: int) -> Seq<char> {
    let s = steps[k];
    if k == 0 || steps[k - 1].group != s.group {
        "\n### "@ + s.text + "\n\n"@
    } else {
        decimal(s.number as nat) + ". "@ + s.text + match s.fastener {
            Some(f) => " Use "@ + f + "."@,
            None => seq![],
        } + match s.torque {
            Some(t) => " Tighten to "@ + t + "."@,
            None => seq![],
        } + "\n"@ + match s.warning {
            Some(w) => "   - "@ + w + "\n"@,
            None => seq![],
        }
    }
}

/// The first `n` steps, written out in order.
pub open spec fn steps_markdown(steps: Seq<StepV>, n: int) -> Seq<char>
    decreases n,
{
    if n <= 0 {
        seq![]
    } else {
        steps_markdown(steps, n - 1) + step_markdown(steps, n - 1)
    }
}

/// The assembly section of the pack.
pub open spec fn assembly_markdown(steps: Seq<StepV>) -> Seq<char> {
    "\n## Assembly\n\nFollow these in order. Each step only asks for parts that are already in front of you.\n"@
        + steps_markdown(steps, steps.len() as int)
}

fn same_group(a: &Option<String>, b: &Option<String>) -> (r: bool)
    ensures
        r == (crate::text::opt_text(*a) == crate::text::opt_text(*b)),
{
    match (a, b) {
        (Some(x), Some(y)) => same_text(x.as_str(), y.as_str()),
        (None, None) => true,
        _ => false,
    }
}

/// Write step `k`.
fn write_step(steps: &Vec<Step>, k: usize) -> (r: String)
    requires
        k < steps@.len(),
    ensures
        r@ == step_markdown(steps_view(steps@), k as int),
{
    let ghost sv = steps_view(steps@);
    let s = &steps[k];
    assert(sv[k as int] == s@);
    if k == 0 || !same_group(&steps[k - 1].group, &s.group) {
        proof {
            if k > 0 {
                assert(sv[k - 1] == steps@[k - 1]@);
            }
        }
        let mut out = concat("\n### ", s.text.as_str());
        out.append("\n\n");
        return out;
    }
    assert(sv[k - 1] == steps@[k - 1]@);
    let mut out = decimal_text(s.number as u128);
    out.append(". ");
    out.append(s.text.as_str());
    let ghost head = out@;
    match &s.fastener {
        Some(f) => {
            out.append(" Use ");
            out.append(f.as_str());
            out.append(".");
        },
        None => {},
    }
    let ghost with_fastener = out@;
    match &s.torque {
        Some(t) => {
            out.append(" Tighten to ");
            out.append(t.as_str());
            out.append(".");
        },
        None => {},
    }
    out.append("\n");
    match &s.warning {
        Some(w) => {
            out.append("   - ");
            out.append(w.as_str());
            out.append("\n");
        },
        None => {},
    }
    out
}

/// The assembly section of a build pack, in Markdown: the steps in order under a heading for
/// each group, each numbered, with its fastener, torque and warning.
pub fn write_assembly(steps: &Vec<Step>) -> (r: String)
    ensures
        r@ == assembly_markdown(steps_view(steps@)),
{
    let ghost sv = steps_view(steps@);
    let mut out = string_from(
        "\n## Assembly\n\nFollow these in order. Each step only asks for parts that are already in front of you.\n",
    );
    let ghost intro = out@;
    let mut k: usize = 0;
    while k < steps.len()
        invariant
            sv == steps_view(steps@),
            k <= steps@.len(),
            out@ == intro + steps_markdown(sv, k as int),
        decreases steps@.len() - k,
    {
        let line = write_step(steps, k);
        out.append(line.as_str());
        k += 1;
    }
    out
}

/// The steps a person carries out, rather than headings and parts that come already fitted.
pub open spec fn hands_on(steps: Seq<StepV>, n: int) -> nat
    decreases n,
{
    if n <= 0 {
        0
    } else {
        hands_on(steps, n - 1) + if steps[n - 1].kind == StepKind::Join || steps[n - 1].kind
            == StepKind::AlsoBolt {
            1nat
        } else {
            0nat
        }
    }
}

/// How many of the steps a person carries out.
pub fn hands_on_steps(steps: &Vec<Step>) -> (r: usize)
    ensures
        r as nat == hands_on(steps_view(steps@), steps@.len() as int),
{
    let ghost sv = steps_view(steps@);
    let mut c: usize = 0;
    let mut k: usize = 0;
    while k < steps.len()
        invariant
            sv == steps_view(steps@),
            k <= steps@.len(),
            c <= k,
            c as nat == hands_on(sv, k as int),
        decreases steps@.len() - k,
    {
        assert(sv[k as int] == steps@[k as int]@);
        match steps[k].kind {
            StepKind::Join | StepKind::AlsoBolt => {
                c += 1;
            },
            _ => {},
        }
        k += 1;
    }
    c
}


proof fn lemma_written_within(sv: Seq<StepV>, n: int, k: int) -> (ab: (Seq<char>, Seq<char>))
    requires
        0 <= k < n,
    ensures
        steps_markdown(sv, n) == ab.0 + step_markdown(sv, k) + ab.1,
    decreases n,
{
    if k == n - 1 {
        let a = steps_markdown(sv, n - 1);
        assert(steps_markdown(sv, n) =~= a + step_markdown(sv, k) + Seq::<char>::empty());
        (a, Seq::<char>::empty())
    } else {
        let (a, b) = lemma_written_within(sv, n - 1, k);
        assert(steps_markdown(sv, n) =~= a + step_markdown(sv, k) + (b + step_markdown(sv, n - 1)));
        (a, b + step_markdown(sv, n - 1))
    }
}

proof fn lemma_occurs_inside(a: Seq<char>, m: Seq<char>, b: Seq<char>, pat: Seq<char>, i: int)
    requires
        occurs_at(m, pat, i),
    ensures
        occurs_at(a + m + b, pat, a.len() + i),
{
    assert((a + m + b).subrange(a.len() + i, a.len() + i + pat.len()) =~= m.subrange(i, i + pat.len()));
}

/// Nothing is lost in the writing: the text of every step appears in the assembly section.
pub proof fn law_every_step_is_written(sv: Seq<StepV>, k: int)
    requires
        0 <= k < sv.len(),
    ensures
        has_text(assembly_markdown(sv), sv[k].text),
{
    let n = sv.len() as int;
    let (a, b) = lemma_written_within(sv, n, k);
    let m = step_markdown(sv, k);
    let t = sv[k].text;
    let off: int = if k == 0 || sv[k - 1].group != sv[k].group {
        5int
    } else {
        decimal(sv[k].number as nat).len() + 2int
    };
    reveal_strlit("\n### ");
    reveal_strlit(". ");
    reveal_strlit("\n\n");
    if k == 0 || sv[k - 1].group != sv[k].group {
        assert(m =~= "\n### "@ + t + "\n\n"@);
        assert(m.subrange(5int, 5int + t.len()) =~= t);
    } else {
        let d = decimal(sv[k].number as nat);
        let rest = match sv[k].fastener {
            Some(f) => " Use "@ + f + "."@,
            None => seq![],
        } + match sv[k].torque {
            Some(x) => " Tighten to "@ + x + "."@,
            None => seq![],
        } + "\n"@ + match sv[k].warning {
            Some(w) => "   - "@ + w + "\n"@,
            None => seq![],
        };
        assert(m =~= d + ". "@ + t + rest);
        assert(m.subrange(d.len() + 2int, d.len() + 2int + t.len()) =~= t);
    }
    assert(occurs_at(m, t, off));
    let intro = "\n## Assembly\n\nFollow these in order. Each step only asks for parts that are already in front of you.\n"@;
    lemma_occurs_inside(intro + a, m, b, t, off);
    assert(assembly_markdown(sv) =~= (intro + a) + m + b);
}


// --------------------------------------------------------------------------- terminal form

/// `t` with spaces in front to make it `w` characters wide, as `{:>w}` writes it.
pub open spec fn pad_left(t: Seq<char>, w: nat) -> Seq<char> {
    if t.len() >= w {
        t
    } else {
        Seq::new((w - t.len()) as nat, |i: int| ' ') + t
    }
}

/// What one step contributes to the terminal form: a heading for a step that makes no joint,
/// otherwise its number right-aligned in three places, the instruction, what to fit it with and
/// how tight, and any warning beneath it.
pub open spec fn step_text(s: StepV) -> Seq<char> {
    if s.mate is None {
        "\n  "@ + s.text + "\n"@
    } else {
        "  "@ + pad_left(decimal(s.number as nat), 3) + ". "@ + s.text + match s.fastener {
            Some(f) => " Use "@ + f + "."@,
            None => seq![],
        } + match s.torque {
            Some(t) => " Tighten to "@ + t + "."@,
            None => seq![],
        } + "\n"@ + match s.warning {
            Some(w) => "       ! "@ + w + "\n"@,
            None => seq![],
        }
    }
}

/// The first `n` steps in the terminal form.
pub open spec fn steps_text(steps: Seq<StepV>, n: int) -> Seq<char>
    decreases n,
{
    if n <= 0 {
        seq![]
    } else {
        steps_text(steps, n - 1) + step_text(steps[n - 1])
    }
}

/// The assembly section of the terminal form.
pub open spec fn assembly_text(steps: Seq<StepV>) -> Seq<char> {
    "\nassembly\n"@ + steps_text(steps, steps.len() as int)
}

fn padded(t: String, w: usize) -> (r: String)
    ensures
        r@ == pad_left(t@, w as nat),
{
    let n = t.unicode_len();
    if n >= w {
        return t;
    }
    let mut out = String::new();
    let mut i: usize = 0;
    while i < w - n
        invariant
            n < w,
            i <= w - n,
            out@ == Seq::new(i as nat, |j: int| ' '),
        decreases w - n - i,
    {
        push_char(&mut out, ' ');
        assert(out@ =~= Seq::new((i + 1) as nat, |j: int| ' '));
        i += 1;
    }
    out.append(t.as_str());
    out
}

fn write_step_text(s: &Step) -> (r: String)
    ensures
        r@ == step_text(s@),
{
    if s.mate.is_none() {
        let mut out = concat("\n  ", s.text.as_str());
        out.append("\n");
        return out;
    }
    let mut out = string_from("  ");
    let num = padded(decimal_text(s.number as u128), 3);
    out.append(num.as_str());
    out.append(". ");
    out.append(s.text.as_str());
    match &s.fastener {
        Some(f) => {
            out.append(" Use ");
            out.append(f.as_str());
            out.append(".");
        },
        None => {},
    }
    match &s.torque {
        Some(t) => {
            out.append(" Tighten to ");
            out.append(t.as_str());
            out.append(".");
        },
        None => {},
    }
    out.append("\n");
    match &s.warning {
        Some(w) => {
            out.append("       ! ");
            out.append(w.as_str());
            out.append("\n");
        },
        None => {},
    }
    out
}

/// The assembly section of a build pack, for a terminal.
pub fn write_assembly_text(steps: &Vec<Step>) -> (r: String)
    ensures
        r@ == assembly_text(steps_view(steps@)),
{
    let ghost sv = steps_view(steps@);
    let mut out = string_from("\nassembly\n");
    let ghost intro = out@;
    let mut k: usize = 0;
    while k < steps.len()
        invariant
            sv == steps_view(steps@),
            k <= steps@.len(),
            out@ == intro + steps_text(sv, k as int),
        decreases steps@.len() - k,
    {
        assert(sv[k as int] == steps@[k as int]@);
        let line = write_step_text(&steps[k]);
        out.append(line.as_str());
        k += 1;
    }
    out
}

// ------------------------------------------------------------------------------ table cells

/// The handed versions on a bill line, such as `2 left, 2 right`, or `-` for none.
pub open spec fn hands_cell(variants: Seq<(Seq<char>, nat)>) -> Seq<char> {
    if variants.len() == 0 {
        "-"@
    } else {
        join(variants.map_values(|v: (Seq<char>, nat)| decimal(v.1) + " "@ + v.0), ", "@)
    }
}

/// The handed versions on a bill line, as the pack's table shows them.
pub fn hands_text(line: &BomLine) -> (r: String)
    ensures
        r@ == hands_cell(counts_view(line.variants@)),
{
    let ghost vv = counts_view(line.variants@);
    if line.variants.len() == 0 {
        return string_from("-");
    }
    let ghost want = vv.map_values(|v: (Seq<char>, nat)| decimal(v.1) + " "@ + v.0);
    let mut parts: Vec<String> = Vec::new();
    let mut i: usize = 0;
    while i < line.variants.len()
        invariant
            vv == counts_view(line.variants@),
            want == vv.map_values(|v: (Seq<char>, nat)| decimal(v.1) + " "@ + v.0),
            i <= line.variants@.len(),
            parts@.len() == i,
            texts(parts@) == want.subrange(0, i as int),
        decreases line.variants@.len() - i,
    {
        let mut one = decimal_text(line.variants[i].1 as u128);
        one.append(" ");
        one.append(line.variants[i].0.as_str());
        assert(vv[i as int] == (line.variants@[i as int].0@, line.variants@[i as int].1 as nat));
        parts.push(one);
        assert(texts(parts@) =~= want.subrange(0, i + 1));
        i += 1;
    }
    assert(want.subrange(0, line.variants@.len() as int) =~= want);
    join_with(&parts, ", ")
}

/// What a fastener is fitted with, such as `nyloc nut, spring washer`, in that order.
pub open spec fn fittings(nut: Option<Seq<char>>, washer: Option<Seq<char>>, locker: Option<Seq<char>>) -> Seq<Seq<char>> {
    (match nut {
        Some(n) => seq![n + " nut"@],
        None => seq![],
    }) + (match washer {
        Some(w) => seq![w + " washer"@],
        None => seq![],
    }) + (match locker {
        Some(t) => seq![t + " thread locker"@],
        None => seq![],
    })
}

/// What a fastener is fitted with, or `-` for nothing.
pub open spec fn fittings_cell(nut: Option<Seq<char>>, washer: Option<Seq<char>>, locker: Option<Seq<char>>) -> Seq<char> {
    let w = fittings(nut, washer, locker);
    if w.len() == 0 {
        "-"@
    } else {
        join(w, ", "@)
    }
}

/// What a fastener on the schedule is fitted with, as the pack's table shows it.
pub fn fittings_text(f: &Fastener) -> (r: String)
    ensures
        r@ == fittings_cell(opt_text(f.nut), opt_text(f.washer), opt_text(f.thread_locker)),
{
    let mut with: Vec<String> = Vec::new();
    match &f.nut {
        Some(n) => {
            with.push(concat(n.as_str(), " nut"));
        },
        None => {},
    }
    match &f.washer {
        Some(w) => {
            with.push(concat(w.as_str(), " washer"));
        },
        None => {},
    }
    match &f.thread_locker {
        Some(t) => {
            with.push(concat(t.as_str(), " thread locker"));
        },
        None => {},
    }
    assert(texts(with@) =~= fittings(opt_text(f.nut), opt_text(f.washer), opt_text(f.thread_locker)));
    if with.len() == 0 {
        string_from("-")
    } else {
        join_with(&with, ", ")
    }
}

/// Who fits a fastener, as the pack's table says it.
pub fn fitted_by(f: &Fastener) -> (r: &'static str)
    ensures
        r@ == (if f.kit {
            "you"@
        } else {
            "the factory"@
        }),
{
    if f.kit {
        "you"
    } else {
        "the factory"
    }
}

// ------------------------------------------------------------------------------ the whole pack

/// What a bill line shows that is measured or chosen by cost, each already written as a
/// number: the mass of one and of all (kilograms), the manufacturing route, and the cost of one
/// (AUD). None where it is not known.
pub struct LineTexts {
    pub each: Option<String>,
    pub total: Option<String>,
    pub method: Option<String>,
    pub cost: Option<String>,
}

pub struct LineTextsV {
    pub each: Option<Seq<char>>,
    pub total: Option<Seq<char>>,
    pub method: Option<Seq<char>>,
    pub cost: Option<Seq<char>>,
}

impl View for LineTexts {
    type V = LineTextsV;

    open spec fn view(&self) -> LineTextsV {
        LineTextsV {
            each: opt_text(self.each),
            total: opt_text(self.total),
            method: opt_text(self.method),
            cost: opt_text(self.cost),
        }
    }
}

/// A build pack, with its measured figures already written as numbers: each cut's length in
/// millimetres, each fastener's torque in newton metres where the joints agree on one, the
/// section total in metres, the modelled mass in kilograms, the costs in AUD.
pub struct PackText {
    pub vehicle: String,
    pub version: String,
    pub volume: u32,
    pub bom: Vec<(BomLine, LineTexts)>,
    pub cuts: Vec<(CutLine, String)>,
    pub section_metres: String,
    pub fasteners: Vec<(Fastener, Option<String>)>,
    pub steps: Vec<Step>,
    pub caveats: Vec<String>,
    pub mass: String,
    pub unit_cost: Option<String>,
    pub tooling: String,
}

pub struct PackTextV {
    pub vehicle: Seq<char>,
    pub version: Seq<char>,
    pub volume: nat,
    pub bom: Seq<(BomLineV, LineTextsV)>,
    pub cuts: Seq<(CutLineV, Seq<char>)>,
    pub section_metres: Seq<char>,
    pub fasteners: Seq<(FastenerV, Option<Seq<char>>)>,
    pub steps: Seq<StepV>,
    pub caveats: Seq<Seq<char>>,
    pub mass: Seq<char>,
    pub unit_cost: Option<Seq<char>>,
    pub tooling: Seq<char>,
}

impl View for PackText {
    type V = PackTextV;

    open spec fn view(&self) -> PackTextV {
        PackTextV {
            vehicle: self.vehicle@,
            version: self.version@,
            volume: self.volume as nat,
            bom: self.bom@.map_values(|e: (BomLine, LineTexts)| (e.0@, e.1@)),
            cuts: self.cuts@.map_values(|e: (CutLine, String)| (e.0@, e.1@)),
            section_metres: self.section_metres@,
            fasteners: self.fasteners@.map_values(|e: (Fastener, Option<String>)| (e.0@, opt_text(e.1))),
            steps: steps_view(self.steps@),
            caveats: texts(self.caveats@),
            mass: self.mass@,
            unit_cost: opt_text(self.unit_cost),
            tooling: self.tooling@,
        }
    }
}

/// A line of the document.
pub open spec fn nl(s: Seq<char>) -> Seq<char> {
    s + "\n"@
}

pub open spec fn or_dash(o: Option<Seq<char>>) -> Seq<char> {
    match o {
        Some(t) => t,
        None => "-"@,
    }
}

/// A figure with its unit, or `-` where it is not known.
pub open spec fn with_unit(o: Option<Seq<char>>, unit: Seq<char>) -> Seq<char> {
    match o {
        Some(t) => t + unit,
        None => "-"@,
    }
}

/// The parts written one after another, the first `n` of them.
pub open spec fn concat_upto(parts: Seq<Seq<char>>, n: int) -> Seq<char>
    decreases n,
{
    if n <= 0 || n > parts.len() {
        seq![]
    } else {
        concat_upto(parts, n - 1) + parts[n - 1]
    }
}

pub open spec fn concat_all(parts: Seq<Seq<char>>) -> Seq<char> {
    concat_upto(parts, parts.len() as int)
}

pub open spec fn bom_row(b: BomLineV, t: LineTextsV) -> Seq<char> {
    nl(
        "| "@ + b.source_id + " | "@ + decimal(b.quantity) + " | "@ + hands_cell(b.variants) + " | "@ + or_dash(
            b.material,
        ) + " | "@ + with_unit(t.each, " kg"@) + " | "@ + with_unit(t.total, " kg"@) + " | "@ + match t.method {
            Some(m) => m,
            None => "no route"@,
        } + " | "@ + with_unit(t.cost, " AUD"@) + " |"@,
    )
}

pub open spec fn cut_row(c: CutLineV, length: Seq<char>) -> Seq<char> {
    nl(
        "| "@ + c.section + " | "@ + length + " mm | "@ + decimal(c.quantity) + " | "@ + c.source_id + " ("@ + c.body
            + ") | "@ + or_dash(c.material) + " |"@,
    )
}

pub open spec fn fastener_row(f: FastenerV, torque: Option<Seq<char>>) -> Seq<char> {
    nl(
        "| "@ + f.kind + " "@ + f.size + " "@ + f.grade + " | "@ + decimal(f.quantity) + " | "@ + match torque {
            Some(t) => t + " Nm"@,
            None => "varies or missing"@,
        } + " | "@ + fittings_cell(f.nut, f.washer, f.thread_locker) + " | "@ + (if f.kit {
            "you"@
        } else {
            "the factory"@
        }) + " |"@,
    )
}

pub open spec fn bom_rows(p: PackTextV) -> Seq<Seq<char>> {
    p.bom.map_values(|e: (BomLineV, LineTextsV)| bom_row(e.0, e.1))
}

pub open spec fn cut_rows(p: PackTextV) -> Seq<Seq<char>> {
    p.cuts.map_values(|e: (CutLineV, Seq<char>)| cut_row(e.0, e.1))
}

pub open spec fn fastener_rows(p: PackTextV) -> Seq<Seq<char>> {
    p.fasteners.map_values(|e: (FastenerV, Option<Seq<char>>)| fastener_row(e.0, e.1))
}

pub open spec fn caveat_rows(p: PackTextV) -> Seq<Seq<char>> {
    p.caveats.map_values(|c: Seq<char>| nl("- "@ + c))
}

/// The pieces on the first `n` bill lines.
pub open spec fn pieces(bom: Seq<(BomLineV, LineTextsV)>, n: int) -> nat
    decreases n,
{
    if n <= 0 || n > bom.len() {
        0
    } else {
        pieces(bom, n - 1) + bom[n - 1].0.quantity
    }
}

/// The fasteners on the first `n` lines of the schedule.
pub open spec fn fastener_count(fs: Seq<(FastenerV, Option<Seq<char>>)>, n: int) -> nat
    decreases n,
{
    if n <= 0 || n > fs.len() {
        0
    } else {
        fastener_count(fs, n - 1) + fs[n - 1].0.quantity
    }
}

/// The lines of the title, the volume and the summary table.
pub open spec fn summary_lines(p: PackTextV) -> Seq<Seq<char>> {
    seq![
        "# "@ + p.vehicle + " v"@ + p.version,
        seq![],
        "Build pack for a production volume of "@ + decimal(p.volume) + " vehicle(s)."@,
        seq![],
        "| | |"@,
        "|---|---|"@,
        "| Parts | "@ + decimal(p.bom.len()) + " |"@,
        "| Pieces per vehicle | "@ + decimal(pieces(p.bom, p.bom.len() as int)) + " |"@,
        "| Modelled mass | "@ + p.mass + " kg |"@,
        "| Fasteners per vehicle | "@ + decimal(fastener_count(p.fasteners, p.fasteners.len() as int)) + " |"@,
        "| Assembly steps a person carries out | "@ + decimal(hands_on(p.steps, p.steps.len() as int)) + " |"@,
        match p.unit_cost {
            Some(u) => "| Parts cost per vehicle | "@ + u + " AUD |"@,
            None => "| Parts cost per vehicle | not known |"@,
        },
        "| Tooling assumed | "@ + p.tooling + " AUD |"@,
    ]
}

/// Each of `lines` ended by a newline.
pub open spec fn lines_of(lines: Seq<Seq<char>>) -> Seq<Seq<char>> {
    lines.map_values(|l: Seq<char>| nl(l))
}

/// The title, the volume and the summary table.
#[verifier::opaque]
pub open spec fn pack_summary(p: PackTextV) -> Seq<char> {
    concat_all(lines_of(summary_lines(p)))
}

/// The caveats, under their own heading, where there are any.
#[verifier::opaque]
pub open spec fn caveat_section(p: PackTextV) -> Seq<char> {
    if p.caveats.len() == 0 {
        seq![]
    } else {
        nl(seq![]) + nl("## Read this first"@) + nl(seq![]) + concat_all(caveat_rows(p))
    }
}

#[verifier::opaque]
pub open spec fn bom_head() -> Seq<char> {
    nl(seq![]) + nl("## Bill of materials"@) + nl(seq![]) + nl(
        "| Part | Qty | Hands | Material | Each | Total | How it is made | Cost each |"@,
    ) + nl("|---|---|---|---|---|---|---|---|"@)
}

/// The cut list and its total, where there is anything to cut.
#[verifier::opaque]
pub open spec fn cut_section(p: PackTextV) -> Seq<char> {
    if p.cuts.len() == 0 {
        seq![]
    } else {
        nl(seq![]) + nl("## Cut list"@) + nl(seq![]) + nl("| Section | Length | Qty | For | Material |"@) + nl(
            "|---|---|---|---|---|"@,
        ) + concat_all(cut_rows(p)) + nl(seq![]) + nl(p.section_metres + " m of section per vehicle, before offcuts."@)
    }
}

#[verifier::opaque]
pub open spec fn fastener_head() -> Seq<char> {
    nl(seq![]) + nl("## Fasteners"@) + nl(seq![]) + nl("| Fastener | Qty | Torque | With | Fitted by |"@) + nl(
        "|---|---|---|---|---|"@,
    )
}

#[verifier::opaque]
pub open spec fn pack_close() -> Seq<char> {
    nl(seq![]) + nl(
        "This pack is generated from the model. It is not a substitute for a qualified inspection of the finished vehicle."@,
    )
}

/// Everything after the bill of materials.
pub open spec fn pack_after_bom(p: PackTextV) -> Seq<char> {
    cut_section(p) + fastener_head() + concat_all(fastener_rows(p)) + assembly_markdown(p.steps) + pack_close()
}

/// The whole pack as Markdown: the summary, the caveats, the bill of materials, the cut list,
/// the fasteners, the assembly instructions, and the closing note.
pub open spec fn pack_markdown(p: PackTextV) -> Seq<char> {
    pack_summary(p) + caveat_section(p) + bom_head() + concat_all(bom_rows(p)) + pack_after_bom(p)
}

fn dash_or(o: &Option<String>) -> (r: String)
    ensures
        r@ == or_dash(opt_text(*o)),
{
    match o {
        Some(t) => t.clone(),
        None => string_from("-"),
    }
}

fn unit_or_dash(o: &Option<String>, unit: &str) -> (r: String)
    ensures
        r@ == with_unit(opt_text(*o), unit@),
{
    match o {
        Some(t) => concat(t.as_str(), unit),
        None => string_from("-"),
    }
}

fn write_bom_row(b: &BomLine, t: &LineTexts) -> (r: String)
    ensures
        r@ == bom_row(b@, t@),
{
    let mut s = string_from("| ");
    s.append(b.source_id.as_str());
    s.append(" | ");
    s.append(decimal_text(b.quantity as u128).as_str());
    s.append(" | ");
    s.append(hands_text(b).as_str());
    s.append(" | ");
    s.append(dash_or(&b.material).as_str());
    s.append(" | ");
    s.append(unit_or_dash(&t.each, " kg").as_str());
    s.append(" | ");
    s.append(unit_or_dash(&t.total, " kg").as_str());
    s.append(" | ");
    let method = match &t.method {
        Some(m) => m.clone(),
        None => string_from("no route"),
    };
    s.append(method.as_str());
    s.append(" | ");
    s.append(unit_or_dash(&t.cost, " AUD").as_str());
    s.append(" |");
    s.append("\n");
    assert(s@ =~= bom_row(b@, t@));
    s
}

fn write_cut_row(c: &CutLine, length: &String) -> (r: String)
    ensures
        r@ == cut_row(c@, length@),
{
    let mut s = string_from("| ");
    s.append(c.section.as_str());
    s.append(" | ");
    s.append(length.as_str());
    s.append(" mm | ");
    s.append(decimal_text(c.quantity as u128).as_str());
    s.append(" | ");
    s.append(c.source_id.as_str());
    s.append(" (");
    s.append(c.body.as_str());
    s.append(") | ");
    s.append(dash_or(&c.material).as_str());
    s.append(" |");
    s.append("\n");
    assert(s@ =~= cut_row(c@, length@));
    s
}

fn write_fastener_row(f: &Fastener, torque: &Option<String>) -> (r: String)
    ensures
        r@ == fastener_row(f@, opt_text(*torque)),
{
    let mut s = string_from("| ");
    s.append(f.kind.as_str());
    s.append(" ");
    s.append(f.size.as_str());
    s.append(" ");
    s.append(f.grade.as_str());
    s.append(" | ");
    s.append(decimal_text(f.quantity as u128).as_str());
    s.append(" | ");
    let t = match torque {
        Some(t) => concat(t.as_str(), " Nm"),
        None => string_from("varies or missing"),
    };
    s.append(t.as_str());
    s.append(" | ");
    s.append(fittings_text(f).as_str());
    s.append(" | ");
    s.append(fitted_by(f));
    s.append(" |");
    s.append("\n");
    assert(s@ =~= fastener_row(f@, opt_text(*torque)));
    s
}

fn count_pieces(pack: &PackText) -> (r: usize)
    requires
        pieces(pack@.bom, pack@.bom.len() as int) <= usize::MAX,
    ensures
        r as nat == pieces(pack@.bom, pack@.bom.len() as int),
{
    let ghost p = pack@;
    let mut total: usize = 0;
    let mut i: usize = 0;
    while i < pack.bom.len()
        invariant
            p == pack@,
            0 <= i <= pack.bom@.len(),
            total as nat == pieces(p.bom, i as int),
            pieces(p.bom, p.bom.len() as int) <= usize::MAX,
        decreases pack.bom@.len() - i,
    {
        proof {
            lemma_pieces_grow(p.bom, i as int + 1, p.bom.len() as int);
        }
        assert(p.bom[i as int].0.quantity == pack.bom@[i as int].0.quantity);
        total = total + pack.bom[i].0.quantity;
        i += 1;
    }
    total
}

fn count_fasteners(pack: &PackText) -> (r: u32)
    requires
        fastener_count(pack@.fasteners, pack@.fasteners.len() as int) <= u32::MAX,
    ensures
        r as nat == fastener_count(pack@.fasteners, pack@.fasteners.len() as int),
{
    let ghost p = pack@;
    let mut total: u32 = 0;
    let mut i: usize = 0;
    while i < pack.fasteners.len()
        invariant
            p == pack@,
            0 <= i <= pack.fasteners@.len(),
            total as nat == fastener_count(p.fasteners, i as int),
            fastener_count(p.fasteners, p.fasteners.len() as int) <= u32::MAX,
        decreases pack.fasteners@.len() - i,
    {
        proof {
            lemma_fasteners_grow(p.fasteners, i as int + 1, p.fasteners.len() as int);
        }
        assert(p.fasteners[i as int].0.quantity == pack.fasteners@[i as int].0.quantity);
        total = total + pack.fasteners[i].0.quantity;
        i += 1;
    }
    total
}

fn write_summary(pack: &PackText) -> (r: String)
    requires
        pieces(pack@.bom, pack@.bom.len() as int) <= usize::MAX,
        fastener_count(pack@.fasteners, pack@.fasteners.len() as int) <= u32::MAX,
    ensures
        r@ == pack_summary(pack@),
{
    let piece_total = count_pieces(pack);
    let fastener_total = count_fasteners(pack);
    let hands = hands_on_steps(&pack.steps);
    let mut lines: Vec<String> = Vec::new();
    let mut title = concat("# ", pack.vehicle.as_str());
    title.append(" v");
    title.append(pack.version.as_str());
    lines.push(title);
    lines.push(String::new());
    let mut volume = concat("Build pack for a production volume of ", decimal_text(pack.volume as u128).as_str());
    volume.append(" vehicle(s).");
    lines.push(volume);
    lines.push(String::new());
    lines.push(string_from("| | |"));
    lines.push(string_from("|---|---|"));
    let mut parts = concat("| Parts | ", decimal_text(pack.bom.len() as u128).as_str());
    parts.append(" |");
    lines.push(parts);
    let mut pcs = concat("| Pieces per vehicle | ", decimal_text(piece_total as u128).as_str());
    pcs.append(" |");
    lines.push(pcs);
    let mut mass = concat("| Modelled mass | ", pack.mass.as_str());
    mass.append(" kg |");
    lines.push(mass);
    let mut fs = concat("| Fasteners per vehicle | ", decimal_text(fastener_total as u128).as_str());
    fs.append(" |");
    lines.push(fs);
    let mut steps = concat("| Assembly steps a person carries out | ", decimal_text(hands as u128).as_str());
    steps.append(" |");
    lines.push(steps);
    let cost = match &pack.unit_cost {
        Some(u) => {
            let mut c = concat("| Parts cost per vehicle | ", u.as_str());
            c.append(" AUD |");
            c
        },
        None => string_from("| Parts cost per vehicle | not known |"),
    };
    lines.push(cost);
    let mut tooling = concat("| Tooling assumed | ", pack.tooling.as_str());
    tooling.append(" AUD |");
    lines.push(tooling);
    proof {
        reveal(pack_summary);
    }
    let ghost want = summary_lines(pack@);
    assert(texts(lines@) =~= want);
    let ghost nls = lines_of(want);
    let mut s = String::new();
    let mut k: usize = 0;
    while k < lines.len()
        invariant
            texts(lines@) == want,
            nls == lines_of(want),
            0 <= k <= lines@.len(),
            s@ == concat_upto(nls, k as int),
        decreases lines@.len() - k,
    {
        s.append(lines[k].as_str());
        s.append("\n");
        assert(nls[k as int] == nl(texts(lines@)[k as int]));
        assert(s@ =~= concat_upto(nls, k + 1));
        k += 1;
    }
    s
}

fn append_caveats(s: &mut String, pack: &PackText)
    ensures
        final(s)@ == old(s)@ + caveat_section(pack@),
{
    let ghost p = pack@;
    let ghost start = s@;
    proof {
        reveal(caveat_section);
    }
    if pack.caveats.len() == 0 {
        assert(s@ =~= start + caveat_section(p));
        return;
    }
    s.append("\n");
    s.append("## Read this first");
    s.append("\n");
    s.append("\n");
    let ghost head = s@;
    assert(head =~= start + (nl(seq![]) + nl("## Read this first"@) + nl(seq![])));
    let ghost rows = caveat_rows(p);
    let mut k: usize = 0;
    while k < pack.caveats.len()
        invariant
            p == pack@,
            rows == caveat_rows(p),
            0 <= k <= pack.caveats@.len(),
            s@ == head + concat_upto(rows, k as int),
        decreases pack.caveats@.len() - k,
    {
        s.append("- ");
        s.append(pack.caveats[k].as_str());
        s.append("\n");
        assert(rows[k as int] == nl("- "@ + pack.caveats@[k as int]@));
        assert(s@ =~= head + concat_upto(rows, k + 1));
        k += 1;
    }
    assert(s@ =~= start + caveat_section(p));
}

fn append_bom(s: &mut String, pack: &PackText)
    ensures
        final(s)@ == old(s)@ + bom_head() + concat_all(bom_rows(pack@)),
{
    let ghost p = pack@;
    let ghost start = s@;
    s.append("\n");
    s.append("## Bill of materials");
    s.append("\n");
    s.append("\n");
    s.append("| Part | Qty | Hands | Material | Each | Total | How it is made | Cost each |");
    s.append("\n");
    s.append("|---|---|---|---|---|---|---|---|");
    s.append("\n");
    proof {
        reveal(bom_head);
        assert(seq![] + "\n"@ =~= "\n"@);
    }
    assert(s@ =~= start + bom_head());
    let ghost head = s@;
    let ghost rows = bom_rows(p);
    let mut k: usize = 0;
    while k < pack.bom.len()
        invariant
            p == pack@,
            rows == bom_rows(p),
            0 <= k <= pack.bom@.len(),
            s@ == head + concat_upto(rows, k as int),
        decreases pack.bom@.len() - k,
    {
        let line = write_bom_row(&pack.bom[k].0, &pack.bom[k].1);
        s.append(line.as_str());
        assert(rows[k as int] == bom_row(pack.bom@[k as int].0@, pack.bom@[k as int].1@));
        assert(s@ =~= head + concat_upto(rows, k + 1));
        k += 1;
    }
}

fn append_cuts(s: &mut String, pack: &PackText)
    ensures
        final(s)@ == old(s)@ + cut_section(pack@),
{
    let ghost p = pack@;
    let ghost start = s@;
    proof {
        reveal(cut_section);
    }
    if pack.cuts.len() == 0 {
        assert(s@ =~= start + cut_section(p));
        return;
    }
    s.append("\n");
    s.append("## Cut list");
    s.append("\n");
    s.append("\n");
    s.append("| Section | Length | Qty | For | Material |");
    s.append("\n");
    s.append("|---|---|---|---|---|");
    s.append("\n");
    let ghost head = s@;
    let ghost rows = cut_rows(p);
    let mut k: usize = 0;
    while k < pack.cuts.len()
        invariant
            p == pack@,
            rows == cut_rows(p),
            0 <= k <= pack.cuts@.len(),
            s@ == head + concat_upto(rows, k as int),
        decreases pack.cuts@.len() - k,
    {
        let line = write_cut_row(&pack.cuts[k].0, &pack.cuts[k].1);
        s.append(line.as_str());
        assert(rows[k as int] == cut_row(pack.cuts@[k as int].0@, pack.cuts@[k as int].1@));
        assert(s@ =~= head + concat_upto(rows, k + 1));
        k += 1;
    }
    let ghost body = s@;
    s.append("\n");
    s.append(pack.section_metres.as_str());
    s.append(" m of section per vehicle, before offcuts.");
    s.append("\n");
    assert(seq![] + "\n"@ =~= "\n"@);
    assert(s@ =~= start + cut_section(p));
}

fn append_fasteners(s: &mut String, pack: &PackText)
    ensures
        final(s)@ == old(s)@ + fastener_head() + concat_all(fastener_rows(pack@)),
{
    let ghost p = pack@;
    let ghost start = s@;
    s.append("\n");
    s.append("## Fasteners");
    s.append("\n");
    s.append("\n");
    s.append("| Fastener | Qty | Torque | With | Fitted by |");
    s.append("\n");
    s.append("|---|---|---|---|---|");
    s.append("\n");
    proof {
        reveal(fastener_head);
        assert(seq![] + "\n"@ =~= "\n"@);
    }
    assert(s@ =~= start + fastener_head());
    let ghost head = s@;
    let ghost rows = fastener_rows(p);
    let mut k: usize = 0;
    while k < pack.fasteners.len()
        invariant
            p == pack@,
            rows == fastener_rows(p),
            0 <= k <= pack.fasteners@.len(),
            s@ == head + concat_upto(rows, k as int),
        decreases pack.fasteners@.len() - k,
    {
        let line = write_fastener_row(&pack.fasteners[k].0, &pack.fasteners[k].1);
        s.append(line.as_str());
        assert(rows[k as int] == fastener_row(pack.fasteners@[k as int].0@, opt_text(pack.fasteners@[k as int].1)));
        assert(s@ =~= head + concat_upto(rows, k + 1));
        k += 1;
    }
}

/// The whole pack as Markdown: what to make, what to buy, and how to put it together. The
/// pieces on the bill must be countable in a `usize` and the fasteners in a `u32`.
pub fn write_markdown(pack: &PackText) -> (r: String)
    requires
        pieces(pack@.bom, pack@.bom.len() as int) <= usize::MAX,
        fastener_count(pack@.fasteners, pack@.fasteners.len() as int) <= u32::MAX,
    ensures
        r@ == pack_markdown(pack@),
{
    let ghost p = pack@;
    let mut s = write_summary(pack);
    append_caveats(&mut s, pack);
    append_bom(&mut s, pack);
    let ghost upto_bom = s@;
    append_cuts(&mut s, pack);
    append_fasteners(&mut s, pack);
    s.append(write_assembly(&pack.steps).as_str());
    s.append("\n");
    s.append("This pack is generated from the model. It is not a substitute for a qualified inspection of the finished vehicle.");
    s.append("\n");
    proof {
        reveal(pack_close);
        assert(seq![] + "\n"@ =~= "\n"@);
    }
    assert(s@ =~= upto_bom + pack_after_bom(p));
    assert(s@ =~= pack_markdown(p));
    s
}

proof fn lemma_pieces_grow(bom: Seq<(BomLineV, LineTextsV)>, m: int, n: int)
    requires
        0 <= m <= n <= bom.len(),
    ensures
        pieces(bom, m) <= pieces(bom, n),
    decreases n - m,
{
    if m < n {
        lemma_pieces_grow(bom, m, n - 1);
    }
}

proof fn lemma_fasteners_grow(fs: Seq<(FastenerV, Option<Seq<char>>)>, m: int, n: int)
    requires
        0 <= m <= n <= fs.len(),
    ensures
        fastener_count(fs, m) <= fastener_count(fs, n),
    decreases n - m,
{
    if m < n {
        lemma_fasteners_grow(fs, m, n - 1);
    }
}

proof fn lemma_occurs_in_parts(parts: Seq<Seq<char>>, n: int, k: int, pat: Seq<char>, i: int)
    requires
        0 <= k < n <= parts.len(),
        occurs_at(parts[k], pat, i),
    ensures
        has_text(concat_upto(parts, n), pat),
    decreases n,
{
    if k == n - 1 {
        lemma_occurs_inside(concat_upto(parts, n - 1), parts[k], seq![], pat, i);
        assert(concat_upto(parts, n - 1) + parts[k] + seq![] =~= concat_upto(parts, n));
        assert(occurs_at(concat_upto(parts, n), pat, concat_upto(parts, n - 1).len() + i));
    } else {
        lemma_occurs_in_parts(parts, n - 1, k, pat, i);
        let j = choose|j: int| #[trigger] occurs_at(concat_upto(parts, n - 1), pat, j);
        lemma_occurs_inside(seq![], concat_upto(parts, n - 1), parts[n - 1], pat, j);
        assert(seq![] + concat_upto(parts, n - 1) + parts[n - 1] =~= concat_upto(parts, n));
        assert(occurs_at(concat_upto(parts, n), pat, j));
    }
}

proof fn lemma_first_part(parts: Seq<Seq<char>>, n: int)
    requires
        1 <= n <= parts.len(),
    ensures
        concat_upto(parts, n).len() >= parts[0].len(),
        concat_upto(parts, n).subrange(0, parts[0].len() as int) == parts[0],
    decreases n,
{
    if n == 1 {
        assert(concat_upto(parts, 0) + parts[0] =~= parts[0]);
        assert(parts[0].subrange(0, parts[0].len() as int) =~= parts[0]);
    } else {
        lemma_first_part(parts, n - 1);
        assert(concat_upto(parts, n).subrange(0, parts[0].len() as int) =~= concat_upto(parts, n - 1).subrange(
            0,
            parts[0].len() as int,
        ));
    }
}

proof fn lemma_summary_title(p: PackTextV)
    ensures
        pack_summary(p).len() >= ("# "@ + p.vehicle + " v"@ + p.version).len(),
        pack_summary(p).subrange(0, ("# "@ + p.vehicle + " v"@ + p.version).len() as int) == "# "@ + p.vehicle
            + " v"@ + p.version,
{
    reveal(pack_summary);
    let title = "# "@ + p.vehicle + " v"@ + p.version;
    let parts = lines_of(summary_lines(p));
    assert(parts[0] == nl(title));
    lemma_first_part(parts, parts.len() as int);
    assert(pack_summary(p).subrange(0, title.len() as int) =~= parts[0].subrange(0, title.len() as int));
    assert(parts[0].subrange(0, title.len() as int) =~= title);
}

/// The pack begins with the vehicle and its version, and loses no part: every line of the bill
/// of materials names its part in the written pack.
pub proof fn law_the_pack_loses_no_part(p: PackTextV)
    ensures
        pack_markdown(p).subrange(0, ("# "@ + p.vehicle + " v"@ + p.version).len() as int) == "# "@ + p.vehicle
            + " v"@ + p.version,
        forall|k: int| 0 <= k < p.bom.len() ==> has_text(pack_markdown(p), #[trigger] p.bom[k].0.source_id),
{
    let title = "# "@ + p.vehicle + " v"@ + p.version;
    lemma_summary_title(p);
    let tail = caveat_section(p) + bom_head() + concat_all(bom_rows(p)) + pack_after_bom(p);
    assert(pack_markdown(p) =~= pack_summary(p) + tail);
    assert(pack_markdown(p).subrange(0, title.len() as int) =~= pack_summary(p).subrange(0, title.len() as int));
    let rows = bom_rows(p);
    assert forall|k: int| 0 <= k < p.bom.len() implies has_text(pack_markdown(p), #[trigger] p.bom[k].0.source_id) by {
        let id = p.bom[k].0.source_id;
        let row = rows[k];
        reveal_strlit("| ");
        assert(row == bom_row(p.bom[k].0, p.bom[k].1));
        assert(row.subrange(2, 2 + id.len() as int) =~= id);
        assert(occurs_at(row, id, 2));
        lemma_occurs_in_parts(rows, rows.len() as int, k, id, 2);
        let j = choose|j: int| #[trigger] occurs_at(concat_all(rows), id, j);
        let before = pack_summary(p) + caveat_section(p) + bom_head();
        lemma_occurs_inside(before, concat_all(rows), pack_after_bom(p), id, j);
        assert(before + concat_all(rows) + pack_after_bom(p) == pack_markdown(p));
        assert(occurs_at(pack_markdown(p), id, before.len() + j));
    }
}
/// The quantities on the lines of the pack's fastener table, in order.
pub open spec fn table_fasteners(p: PackTextV) -> Seq<nat> {
    p.fasteners.map_values(|e: (FastenerV, Option<Seq<char>>)| e.0.quantity)
}

/// The quantities on the lines of the pack's bill of materials, in order.
pub open spec fn bill_pieces(p: PackTextV) -> Seq<nat> {
    p.bom.map_values(|e: (BomLineV, LineTextsV)| e.0.quantity)
}

proof fn lemma_fastener_count_total(p: PackTextV, n: int)
    requires
        0 <= n <= p.fasteners.len(),
    ensures
        fastener_count(p.fasteners, n) == crate::mfg::tally::total(table_fasteners(p), n),
    decreases n,
{
    if n > 0 {
        lemma_fastener_count_total(p, n - 1);
    }
}

proof fn lemma_pieces_total(p: PackTextV, n: int)
    requires
        0 <= n <= p.bom.len(),
    ensures
        pieces(p.bom, n) == crate::mfg::tally::total(bill_pieces(p), n),
    decreases n,
{
    if n > 0 {
        lemma_pieces_total(p, n - 1);
    }
}

/// A summary line of the pack, written at the top of it.
proof fn lemma_summary_line(p: PackTextV, k: int)
    requires
        0 <= k < summary_lines(p).len(),
    ensures
        has_text(pack_markdown(p), summary_lines(p)[k]),
{
    reveal(pack_summary);
    let parts = lines_of(summary_lines(p));
    let line = summary_lines(p)[k];
    assert(parts[k] == nl(line));
    assert(nl(line).subrange(0, line.len() as int) =~= line);
    assert(occurs_at(parts[k], line, 0));
    lemma_occurs_in_parts(parts, parts.len() as int, k, line, 0);
    let j = choose|j: int| #[trigger] occurs_at(concat_all(parts), line, j);
    let tail = caveat_section(p) + bom_head() + concat_all(bom_rows(p)) + pack_after_bom(p);
    lemma_occurs_inside(seq![], concat_all(parts), tail, line, j);
    assert(seq![] + concat_all(parts) + tail =~= pack_markdown(p));
    assert(occurs_at(pack_markdown(p), line, j));
}

/// The pack's summary counts every piece on the bill and every fastener on the schedule, each
/// line's quantity whatever else the line says (who fits it, how tight, what it is made of).
pub proof fn law_the_summary_counts_everything(p: PackTextV)
    ensures
        has_text(
            pack_markdown(p),
            "| Pieces per vehicle | "@ + decimal(crate::mfg::tally::total(bill_pieces(p), p.bom.len() as int))
                + " |"@,
        ),
        has_text(
            pack_markdown(p),
            "| Fasteners per vehicle | "@ + decimal(
                crate::mfg::tally::total(table_fasteners(p), p.fasteners.len() as int),
            ) + " |"@,
        ),
{
    lemma_pieces_total(p, p.bom.len() as int);
    lemma_fastener_count_total(p, p.fasteners.len() as int);
    lemma_summary_line(p, 7);
    lemma_summary_line(p, 9);
}

} // verus!
