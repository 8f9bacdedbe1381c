//! The bill of materials and the cut list, and reading the scale range a manufacturing method
//! declares.
//!
//! A method declares the build volumes it suits, such as `1..500` for machining or `500..*` for
//! casting. Choosing between the methods that cover a volume compares their costs, and the
//! masses and lengths on each line are measured; that is floating point work and is done by the
//! application, which finds it through each line's first part.

use vstd::prelude::*;

use super::grouping::{
    count_of, first_positions, firsts, ints, keys_view, occurrences, stable_order, stable_positions,
};
use super::tally::{
    group_weights, lemma_firsts_range, lemma_list_weighs_all, lemma_occurrences_weigh,
    lemma_stable_order_range, lemma_total_ones, ones, total,
};
use crate::text::{
    chars_of, concat, join, join_with, opt_text, parse_u32, parse_u32_spec, same_text, string_of,
    texts, trim, trimmed,
};

verus! {

/// The position of the first `..` in `s` at or after `i`.
pub open spec fn dots_at(s: Seq<char>, i: int) -> Option<int>
    decreases s.len() - i,
{
    if i < 0 || i + 1 >= s.len() {
        None
    } else if s[i] == '.' && s[i + 1] == '.' {
        Some(i)
    } else {
        dots_at(s, i + 1)
    }
}

/// Does the scale range `s` contain `volume`?
///
/// A range is `lo..hi`. A missing or unreadable `lo` is 0; a `hi` that is `*`, empty or
/// unreadable has no limit. Text with no `..` in it places no limit at all.
pub open spec fn range_covers(s: Seq<char>, volume: u32) -> bool {
    match dots_at(s, 0) {
        None => true,
        Some(k) => {
            let lo = match parse_u32_spec(trimmed(s.subrange(0, k))) {
                Some(v) => v,
                None => 0,
            };
            let h = trimmed(s.subrange(k + 2, s.len() as int));
            let hi = if h == "*"@ || h.len() == 0 {
                u32::MAX
            } else {
                match parse_u32_spec(h) {
                    Some(v) => v,
                    None => u32::MAX,
                }
            };
            lo <= volume && volume <= hi
        },
    }
}

/// Does a method with this scale suit `volume`? A method with no scale suits any volume.
pub open spec fn scale_allows(scale: Option<Seq<char>>, volume: u32) -> bool {
    match scale {
        None => true,
        Some(s) => range_covers(s, volume),
    }
}

pub open spec fn opt_view(o: Option<&str>) -> Option<Seq<char>> {
    match o {
        Some(s) => Some(s@),
        None => None,
    }
}

fn find_dots(cs: &Vec<char>) -> (r: Option<usize>)
    ensures
        match r {
            Some(k) => dots_at(cs@, 0) == Some(k as int) && k + 1 < cs@.len(),
            None => dots_at(cs@, 0) is None,
        },
{
    let n = cs.len();
    let mut i: usize = 0;
    while i < n && i + 1 < n
        invariant
            n == cs@.len(),
            0 <= i,
            i <= n,
            dots_at(cs@, 0) == dots_at(cs@, i as int),
        decreases n - i,
    {
        if cs[i] == '.' && cs[i + 1] == '.' {
            return Some(i);
        }
        i += 1;
    }
    None
}

/// Does a scale range such as `1..500`, `500..*` or `1..*` contain this volume?
pub fn scale_covers(scale: Option<&str>, volume: u32) -> (r: bool)
    ensures
        r == scale_allows(opt_view(scale), volume),
{
    let s = match scale {
        None => {
            return true;
        },
        Some(s) => s,
    };
    let cs = chars_of(s);
    let k = match find_dots(&cs) {
        None => {
            return true;
        },
        Some(k) => k,
    };
    let lo_text = trim(string_of(&cs, 0, k).as_str());
    let lo: u32 = match parse_u32(lo_text.as_str()) {
        Some(v) => v,
        None => 0,
    };
    let hi_text = trim(string_of(&cs, k + 2, cs.len()).as_str());
    let hi: u32 = if same_text(hi_text.as_str(), "*") || hi_text.unicode_len() == 0 {
        u32::MAX
    } else {
        match parse_u32(hi_text.as_str()) {
            Some(v) => v,
            None => u32::MAX,
        }
    };
    volume >= lo && volume <= hi
}


// ----------------------------------------------------------------------- bill of materials

/// One part of the vehicle, as the bill of materials reads it.
pub struct BomPart {
    pub source_id: String,
    /// Each parameter and its value, as written: what changes what has to be made.
    pub config: Vec<(String, String)>,
    /// The variant options chosen, such as `left`.
    pub hands: Vec<String>,
    pub material: Option<String>,
}

pub struct BomPartV {
    pub source_id: Seq<char>,
    pub config: Seq<(Seq<char>, Seq<char>)>,
    pub hands: Seq<Seq<char>>,
    pub material: Option<Seq<char>>,
}

impl View for BomPart {
    type V = BomPartV;

    open spec fn view(&self) -> BomPartV {
        BomPartV {
            source_id: self.source_id@,
            config: self.config@.map_values(|c: (String, String)| (c.0@, c.1@)),
            hands: texts(self.hands@),
            material: opt_text(self.material),
        }
    }
}

/// One line of the bill of materials.
pub struct BomLine {
    pub source_id: String,
    pub quantity: usize,
    /// Which handed versions are needed, such as two left and two right.
    pub variants: Vec<(String, usize)>,
    pub material: Option<String>,
    /// The first part on the line, whose mass and manufacturing route the line shows.
    pub first: usize,
}

pub struct BomLineV {
    pub source_id: Seq<char>,
    pub quantity: nat,
    pub variants: Seq<(Seq<char>, nat)>,
    pub material: Option<Seq<char>>,
    pub first: int,
}

impl View for BomLine {
    type V = BomLineV;

    open spec fn view(&self) -> BomLineV {
        BomLineV {
            source_id: self.source_id@,
            quantity: self.quantity as nat,
            variants: counts_view(self.variants@),
            material: opt_text(self.material),
            first: self.first as int,
        }
    }
}

pub open spec fn counts_view(v: Seq<(String, usize)>) -> Seq<(Seq<char>, nat)> {
    v.map_values(|c: (String, usize)| (c.0@, c.1 as nat))
}

pub open spec fn parts_view(v: Seq<BomPart>) -> Seq<BomPartV> {
    v.map_values(|p: BomPart| p@)
}

pub open spec fn bom_view(v: Seq<BomLine>) -> Seq<BomLineV> {
    v.map_values(|l: BomLine| l@)
}

/// What a part is and how it is configured: two arms of the same design at different lengths
/// are two different things to make. Handedness is deliberately not in it: a left and a right
/// come off the same drawing and belong on one line, with the split shown.
pub open spec fn bom_key(p: BomPartV) -> Seq<char> {
    p.source_id + "|"@ + join(p.config.map_values(|c: (Seq<char>, Seq<char>)| c.0 + "="@ + c.1), ","@)
}

pub open spec fn bom_keys(ps: Seq<BomPartV>) -> Seq<Seq<char>> {
    ps.map_values(|p: BomPartV| bom_key(p))
}

/// The hand of a part: its variant options, separated by spaces.
pub open spec fn hand_of(p: BomPartV) -> Seq<char> {
    join(p.hands, " "@)
}

/// The hands of the first `n` parts with key `k`, where they have one.
pub open spec fn hands_of(ps: Seq<BomPartV>, k: Seq<char>, n: int) -> Seq<Seq<char>>
    decreases n,
{
    if n <= 0 {
        seq![]
    } else if bom_key(ps[n - 1]) == k && hand_of(ps[n - 1]).len() > 0 {
        hands_of(ps, k, n - 1).push(hand_of(ps[n - 1]))
    } else {
        hands_of(ps, k, n - 1)
    }
}

/// Each hand once, in the order it is first met, with how many parts have it.
pub open spec fn hand_counts(hs: Seq<Seq<char>>) -> Seq<(Seq<char>, nat)> {
    firsts(hs).map_values(|f: int| (hs[f], occurrences(hs, hs[f], hs.len() as int)))
}

/// The line whose first part is `f`.
pub open spec fn bom_line(ps: Seq<BomPartV>, f: int) -> BomLineV {
    let k = bom_key(ps[f]);
    BomLineV {
        source_id: ps[f].source_id,
        quantity: occurrences(bom_keys(ps), k, ps.len() as int),
        variants: hand_counts(hands_of(ps, k, ps.len() as int)),
        material: ps[f].material,
        first: f,
    }
}

/// The bill: one line per distinct part, in the order of the part ids, lines that tie in the
/// order they were first met.
pub open spec fn bill(ps: Seq<BomPartV>) -> Seq<BomLineV> {
    let fs = firsts(bom_keys(ps));
    let ks = fs.map_values(|f: int| seq![ps[f].source_id]);
    stable_order(ks, fs.len() as int).map_values(|j: int| bom_line(ps, fs[j]))
}

fn bom_key_of(p: &BomPart) -> (r: String)
    ensures
        r@ == bom_key(p@),
{
    let ghost cv = p@.config.map_values(|c: (Seq<char>, Seq<char>)| c.0 + "="@ + c.1);
    let mut pairs: Vec<String> = Vec::new();
    let mut i: usize = 0;
    while i < p.config.len()
        invariant
            cv == p@.config.map_values(|c: (Seq<char>, Seq<char>)| c.0 + "="@ + c.1),
            i <= p.config@.len(),
            pairs@.len() == i,
            texts(pairs@) == cv.subrange(0, i as int),
        decreases p.config@.len() - i,
    {
        let mut one = concat(p.config[i].0.as_str(), "=");
        one.append(p.config[i].1.as_str());
        assert(p@.config[i as int] == (p.config@[i as int].0@, p.config@[i as int].1@));
        assert(cv[i as int] == one@);
        pairs.push(one);
        assert(texts(pairs@) =~= cv.subrange(0, i + 1));
        i += 1;
    }
    assert(texts(pairs@) =~= cv);
    let joined = join_with(&pairs, ",");
    let mut k = concat(p.source_id.as_str(), "|");
    k.append(joined.as_str());
    k
}

fn clone_text(o: &Option<String>) -> (r: Option<String>)
    ensures
        opt_text(r) == opt_text(*o),
{
    match o {
        Some(s) => Some(s.clone()),
        None => None,
    }
}

/// The hands, each once in the order first met, with their counts.
fn count_hands(hs: &Vec<String>) -> (r: Vec<(String, usize)>)
    ensures
        counts_view(r@) == hand_counts(texts(hs@)),
{
    let ghost hv = texts(hs@);
    let fs = first_positions(hs);
    let ghost fv = ints(fs@);
    let ghost want = hand_counts(hv);
    let mut out: Vec<(String, usize)> = Vec::new();
    let mut t: usize = 0;
    while t < fs.len()
        invariant
            hv == texts(hs@),
            fv == ints(fs@),
            fv == firsts(hv),
            want == hand_counts(hv),
            forall|q: int| 0 <= q < fs@.len() ==> #[trigger] fs@[q] < hs@.len(),
            t <= fs@.len(),
            out@.len() == t,
            counts_view(out@) == want.subrange(0, t as int),
        decreases fs@.len() - t,
    {
        let f = fs[t];
        let h = hs[f].clone();
        let n = count_of(hs, h.as_str());
        assert(hv[f as int] == h@);
        assert(want[t as int] == (hv[fv[t as int]], occurrences(hv, hv[fv[t as int]], hv.len() as int)));
        let ghost before = out@;
        out.push((h, n));
        assert forall|q: int| 0 <= q < t + 1 implies #[trigger] counts_view(out@)[q] == want.subrange(0, t + 1)[q] by {
            if q < t {
                assert(out@[q] == before[q]);
            }
        }
        assert(counts_view(out@) =~= want.subrange(0, t + 1));
        t += 1;
    }
    assert(want.subrange(0, fs@.len() as int) =~= want);
    out
}

/// The line for the key of part `f`.
fn bom_line_for(parts: &Vec<BomPart>, keys: &Vec<String>, f: usize) -> (r: BomLine)
    requires
        f < parts@.len(),
        keys@.len() == parts@.len(),
        texts(keys@) == bom_keys(parts_view(parts@)),
    ensures
        r@ == bom_line(parts_view(parts@), f as int),
{
    let ghost ps = parts_view(parts@);
    let ghost k = bom_key(ps[f as int]);
    assert(keys@[f as int]@ == k) by {
        assert(texts(keys@)[f as int] == bom_keys(ps)[f as int]);
    }
    let quantity = count_of(keys, keys[f].as_str());
    let mut hands: Vec<String> = Vec::new();
    let mut i: usize = 0;
    while i < parts.len()
        invariant
            ps == parts_view(parts@),
            keys@.len() == parts@.len(),
            texts(keys@) == bom_keys(ps),
            f < parts@.len(),
            k == bom_key(ps[f as int]),
            keys@[f as int]@ == k,
            i <= parts@.len(),
            texts(hands@) == hands_of(ps, k, i as int),
        decreases parts@.len() - i,
    {
        assert(texts(keys@)[i as int] == bom_keys(ps)[i as int]);
        assert(ps[i as int] == parts@[i as int]@);
        if same_text(keys[i].as_str(), keys[f].as_str()) {
            let h = join_with(&parts[i].hands, " ");
            if h.unicode_len() > 0 {
                let ghost before = hands@;
                hands.push(h);
                assert(texts(hands@) =~= texts(before).push(hand_of(ps[i as int])));
            }
        }
        i += 1;
    }
    let variants = count_hands(&hands);
    let p = &parts[f];
    assert(ps[f as int] == p@);
    BomLine {
        source_id: p.source_id.clone(),
        quantity,
        variants,
        material: clone_text(&p.material),
        first: f,
    }
}

/// Every distinct part in the vehicle, with how many are needed.
///
/// Parts are grouped by what they are and how they are configured, not just by name: two arms
/// of the same design at different lengths are two different things to make, and lumping them
/// together would produce a bill nobody could order from.
pub fn bill_of_materials(parts: &Vec<BomPart>) -> (r: Vec<BomLine>)
    ensures
        bom_view(r@) == bill(parts_view(parts@)),
{
    let ghost ps = parts_view(parts@);
    let mut keys: Vec<String> = Vec::new();
    let mut i: usize = 0;
    while i < parts.len()
        invariant
            ps == parts_view(parts@),
            i <= parts@.len(),
            keys@.len() == i,
            texts(keys@) == bom_keys(ps).subrange(0, i as int),
        decreases parts@.len() - i,
    {
        let k = bom_key_of(&parts[i]);
        assert(ps[i as int] == parts@[i as int]@);
        assert(bom_keys(ps)[i as int] == bom_key(ps[i as int]));
        keys.push(k);
        assert(texts(keys@)[i as int] == bom_keys(ps)[i as int]);
        assert(texts(keys@) =~= bom_keys(ps).subrange(0, i + 1));
        i += 1;
    }
    assert(texts(keys@) =~= bom_keys(ps));
    let fs = first_positions(&keys);
    let ghost fsv = ints(fs@);
    let ghost ks = fsv.map_values(|f: int| seq![ps[f].source_id]);
    let mut order_keys: Vec<Vec<String>> = Vec::new();
    let mut g: usize = 0;
    while g < fs.len()
        invariant
            ps == parts_view(parts@),
            fsv == ints(fs@),
            ks == fsv.map_values(|f: int| seq![ps[f].source_id]),
            forall|t: int| 0 <= t < fs@.len() ==> #[trigger] fs@[t] < parts@.len(),
            g <= fs@.len(),
            order_keys@.len() == g,
            keys_view(order_keys@) == ks.subrange(0, g as int),
        decreases fs@.len() - g,
    {
        let p = &parts[fs[g]];
        assert(ps[fs@[g as int] as int] == p@);
        let mut row: Vec<String> = Vec::new();
        row.push(p.source_id.clone());
        assert(texts(row@) =~= seq![p@.source_id]);
        assert(fsv[g as int] == fs@[g as int] as int);
        let ghost before = order_keys@;
        order_keys.push(row);
        assert(keys_view(order_keys@)[g as int] == texts(row@));
        assert(keys_view(order_keys@) =~= ks.subrange(0, g + 1));
        g += 1;
    }
    assert(keys_view(order_keys@) =~= ks);
    let order = stable_positions(&order_keys);
    let ghost ov = ints(order@);
    let mut out: Vec<BomLine> = Vec::new();
    let mut t: usize = 0;
    while t < order.len()
        invariant
            ps == parts_view(parts@),
            keys@.len() == parts@.len(),
            texts(keys@) == bom_keys(ps),
            fsv == ints(fs@),
            ov == ints(order@),
            ov == stable_order(ks, fs@.len() as int),
            order@.len() == fs@.len(),
            forall|q: int| 0 <= q < order@.len() ==> #[trigger] order@[q] < fs@.len(),
            forall|q: int| 0 <= q < fs@.len() ==> #[trigger] fs@[q] < parts@.len(),
            t <= order@.len(),
            out@.len() == t,
            bom_view(out@) == ov.subrange(0, t as int).map_values(|j: int| bom_line(ps, fsv[j])),
        decreases order@.len() - t,
    {
        let f = fs[order[t]];
        let line = bom_line_for(parts, &keys, f);
        assert(ov[t as int] == order@[t as int] as int);
        assert(fsv[ov[t as int]] == f as int);
        let ghost before = out@;
        out.push(line);
        let ghost want = ov.subrange(0, t + 1).map_values(|j: int| bom_line(ps, fsv[j]));
        let ghost had = ov.subrange(0, t as int).map_values(|j: int| bom_line(ps, fsv[j]));
        assert forall|q: int| 0 <= q < t + 1 implies #[trigger] bom_view(out@)[q] == want[q] by {
            if q < t {
                assert(out@[q] == before[q]);
                assert(bom_view(before)[q] == had[q]);
            }
        }
        assert(bom_view(out@) =~= want);
        t += 1;
    }
    assert(ov.subrange(0, order@.len() as int) =~= ov);
    out
}


// ------------------------------------------------------------------------------- cut list

/// One piece of tube or section to cut, as the cut list reads it: the section and the length
/// as the list writes them, the length to four places.
pub struct CutPiece {
    pub source_id: String,
    pub body: String,
    pub section: String,
    pub length: String,
    pub material: Option<String>,
}

pub struct CutPieceV {
    pub source_id: Seq<char>,
    pub body: Seq<char>,
    pub section: Seq<char>,
    pub length: Seq<char>,
    pub material: Option<Seq<char>>,
}

impl View for CutPiece {
    type V = CutPieceV;

    open spec fn view(&self) -> CutPieceV {
        CutPieceV {
            source_id: self.source_id@,
            body: self.body@,
            section: self.section@,
            length: self.length@,
            material: opt_text(self.material),
        }
    }
}

/// One line of the cut list.
pub struct CutLine {
    pub source_id: String,
    pub body: String,
    pub section: String,
    pub quantity: usize,
    pub material: Option<String>,
    /// The first piece on the line, whose length the line shows.
    pub first: usize,
}

pub struct CutLineV {
    pub source_id: Seq<char>,
    pub body: Seq<char>,
    pub section: Seq<char>,
    pub quantity: nat,
    pub material: Option<Seq<char>>,
    pub first: int,
}

impl View for CutLine {
    type V = CutLineV;

    open spec fn view(&self) -> CutLineV {
        CutLineV {
            source_id: self.source_id@,
            body: self.body@,
            section: self.section@,
            quantity: self.quantity as nat,
            material: opt_text(self.material),
            first: self.first as int,
        }
    }
}

pub open spec fn pieces_view(v: Seq<CutPiece>) -> Seq<CutPieceV> {
    v.map_values(|p: CutPiece| p@)
}

pub open spec fn cuts_view(v: Seq<CutLine>) -> Seq<CutLineV> {
    v.map_values(|l: CutLine| l@)
}

/// Pieces of the same part, body, section and length are one line.
pub open spec fn cut_key(p: CutPieceV) -> Seq<char> {
    p.source_id + "|"@ + p.body + "|"@ + p.section + "|"@ + p.length
}

pub open spec fn cut_keys(ps: Seq<CutPieceV>) -> Seq<Seq<char>> {
    ps.map_values(|p: CutPieceV| cut_key(p))
}

/// The line whose first piece is `f`.
pub open spec fn cut_line(ps: Seq<CutPieceV>, f: int) -> CutLineV {
    CutLineV {
        source_id: ps[f].source_id,
        body: ps[f].body,
        section: ps[f].section,
        quantity: occurrences(cut_keys(ps), cut_key(ps[f]), ps.len() as int),
        material: ps[f].material,
        first: f,
    }
}

/// The cut list: one line per distinct piece, in the order of section and then part, lines
/// that tie in the order they were first met.
pub open spec fn cuts(ps: Seq<CutPieceV>) -> Seq<CutLineV> {
    let fs = firsts(cut_keys(ps));
    let ks = fs.map_values(|f: int| seq![ps[f].section, ps[f].source_id]);
    stable_order(ks, fs.len() as int).map_values(|j: int| cut_line(ps, fs[j]))
}

fn cut_key_of(p: &CutPiece) -> (r: String)
    ensures
        r@ == cut_key(p@),
{
    let mut s = concat(p.source_id.as_str(), "|");
    s.append(p.body.as_str());
    s.append("|");
    s.append(p.section.as_str());
    s.append("|");
    s.append(p.length.as_str());
    s
}

/// Every piece of tube or section that has to be cut to length, counted.
pub fn cut_list(pieces: &Vec<CutPiece>) -> (r: Vec<CutLine>)
    ensures
        cuts_view(r@) == cuts(pieces_view(pieces@)),
{
    let ghost ps = pieces_view(pieces@);
    let mut keys: Vec<String> = Vec::new();
    let mut i: usize = 0;
    while i < pieces.len()
        invariant
            ps == pieces_view(pieces@),
            i <= pieces@.len(),
            keys@.len() == i,
            texts(keys@) == cut_keys(ps).subrange(0, i as int),
        decreases pieces@.len() - i,
    {
        let k = cut_key_of(&pieces[i]);
        assert(ps[i as int] == pieces@[i as int]@);
        assert(cut_keys(ps)[i as int] == cut_key(ps[i as int]));
        keys.push(k);
        assert(texts(keys@)[i as int] == cut_keys(ps)[i as int]);
        assert(texts(keys@) =~= cut_keys(ps).subrange(0, i + 1));
        i += 1;
    }
    assert(texts(keys@) =~= cut_keys(ps));
    let fs = first_positions(&keys);
    let ghost fsv = ints(fs@);
    let ghost ks = fsv.map_values(|f: int| seq![ps[f].section, ps[f].source_id]);
    let mut order_keys: Vec<Vec<String>> = Vec::new();
    let mut g: usize = 0;
    while g < fs.len()
        invariant
            ps == pieces_view(pieces@),
            fsv == ints(fs@),
            ks == fsv.map_values(|f: int| seq![ps[f].section, ps[f].source_id]),
            forall|t: int| 0 <= t < fs@.len() ==> #[trigger] fs@[t] < pieces@.len(),
            g <= fs@.len(),
            order_keys@.len() == g,
            keys_view(order_keys@) == ks.subrange(0, g as int),
        decreases fs@.len() - g,
    {
        let p = &pieces[fs[g]];
        assert(ps[fs@[g as int] as int] == p@);
        let mut row: Vec<String> = Vec::new();
        row.push(p.section.clone());
        row.push(p.source_id.clone());
        assert(texts(row@) =~= seq![p@.section, p@.source_id]);
        assert(fsv[g as int] == fs@[g as int] as int);
        order_keys.push(row);
        assert(keys_view(order_keys@)[g as int] == texts(row@));
        assert(keys_view(order_keys@) =~= ks.subrange(0, g + 1));
        g += 1;
    }
    assert(keys_view(order_keys@) =~= ks);
    let order = stable_positions(&order_keys);
    let ghost ov = ints(order@);
    let mut out: Vec<CutLine> = Vec::new();
    let mut t: usize = 0;
    while t < order.len()
        invariant
            ps == pieces_view(pieces@),
            keys@.len() == pieces@.len(),
            texts(keys@) == cut_keys(ps),
            fsv == ints(fs@),
            ov == ints(order@),
            ov == stable_order(ks, fs@.len() as int),
            order@.len() == fs@.len(),
            forall|q: int| 0 <= q < order@.len() ==> #[trigger] order@[q] < fs@.len(),
            forall|q: int| 0 <= q < fs@.len() ==> #[trigger] fs@[q] < pieces@.len(),
            t <= order@.len(),
            out@.len() == t,
            cuts_view(out@) == ov.subrange(0, t as int).map_values(|j: int| cut_line(ps, fsv[j])),
        decreases order@.len() - t,
    {
        let f = fs[order[t]];
        let p = &pieces[f];
        assert(ps[f as int] == p@);
        assert(keys@[f as int]@ == cut_key(ps[f as int])) by {
            assert(texts(keys@)[f as int] == cut_keys(ps)[f as int]);
        }
        let quantity = count_of(&keys, keys[f].as_str());
        let line = CutLine {
            source_id: p.source_id.clone(),
            body: p.body.clone(),
            section: p.section.clone(),
            quantity,
            material: clone_text(&p.material),
            first: f,
        };
        assert(line@ == cut_line(ps, f as int));
        assert(ov[t as int] == order@[t as int] as int);
        assert(fsv[ov[t as int]] == f as int);
        let ghost before = out@;
        out.push(line);
        let ghost want = ov.subrange(0, t + 1).map_values(|j: int| cut_line(ps, fsv[j]));
        let ghost had = ov.subrange(0, t as int).map_values(|j: int| cut_line(ps, fsv[j]));
        assert forall|q: int| 0 <= q < t + 1 implies #[trigger] cuts_view(out@)[q] == want[q] by {
            if q < t {
                assert(out@[q] == before[q]);
                assert(cuts_view(before)[q] == had[q]);
            }
        }
        assert(cuts_view(out@) =~= want);
        t += 1;
    }
    assert(ov.subrange(0, order@.len() as int) =~= ov);
    out
}


// ----------------------------------------------------------------------------------- laws

/// The quantities of the lines of a bill, in order.
pub open spec fn bill_quantities(ls: Seq<BomLineV>) -> Seq<nat> {
    ls.map_values(|l: BomLineV| l.quantity)
}

/// The quantities of the lines of a cut list, in order.
pub open spec fn cut_quantities(ls: Seq<CutLineV>) -> Seq<nat> {
    ls.map_values(|l: CutLineV| l.quantity)
}

/// Every part in the vehicle reaches the bill of materials, once: the quantities on the lines
/// add up to the number of parts.
pub proof fn law_every_part_is_on_the_bill(ps: Seq<BomPartV>)
    ensures
        total(bill_quantities(bill(ps)), bill(ps).len() as int) == ps.len(),
{
    let keys = bom_keys(ps);
    let n = ps.len() as int;
    let fs = firsts(keys);
    let ks = fs.map_values(|f: int| seq![ps[f].source_id]);
    let w = ones(ps.len());
    let hv = group_weights(keys, w, fs, n);
    let ord = stable_order(ks, fs.len() as int);
    lemma_list_weighs_all(keys, w, ks);
    lemma_stable_order_range(ks, fs.len() as int);
    lemma_firsts_range(keys, n);
    assert forall|t: int| 0 <= t < ord.len() implies #[trigger] bill_quantities(bill(ps))[t] == ord.map_values(
        |j: int| hv[j],
    )[t] by {
        let f = fs[ord[t]];
        assert(0 <= ord[t] < fs.len());
        assert(keys[f] == bom_key(ps[f]));
        lemma_occurrences_weigh(keys, keys[f], n);
    }
    assert(bill_quantities(bill(ps)) =~= ord.map_values(|j: int| hv[j]));
    lemma_total_ones(ps.len(), n);
}

/// Every piece to be cut reaches the cut list, once: the quantities on the lines add up to the
/// number of pieces.
pub proof fn law_every_piece_is_on_the_cut_list(ps: Seq<CutPieceV>)
    ensures
        total(cut_quantities(cuts(ps)), cuts(ps).len() as int) == ps.len(),
{
    let keys = cut_keys(ps);
    let n = ps.len() as int;
    let fs = firsts(keys);
    let ks = fs.map_values(|f: int| seq![ps[f].section, ps[f].source_id]);
    let w = ones(ps.len());
    let hv = group_weights(keys, w, fs, n);
    let ord = stable_order(ks, fs.len() as int);
    lemma_list_weighs_all(keys, w, ks);
    lemma_stable_order_range(ks, fs.len() as int);
    lemma_firsts_range(keys, n);
    assert forall|t: int| 0 <= t < ord.len() implies #[trigger] cut_quantities(cuts(ps))[t] == ord.map_values(
        |j: int| hv[j],
    )[t] by {
        let f = fs[ord[t]];
        assert(0 <= ord[t] < fs.len());
        assert(keys[f] == cut_key(ps[f]));
        lemma_occurrences_weigh(keys, keys[f], n);
    }
    assert(cut_quantities(cuts(ps)) =~= ord.map_values(|j: int| hv[j]));
    lemma_total_ones(ps.len(), n);
}

} // verus!
