//! Editing a primitive: the operations behind making a new part without writing a file.

use vstd::prelude::*;

use crate::expr::ast::{Expr, ExprV, copy_expr, exprs_view, lemma_exprs_view_push};
use crate::expr::lexer::UnitSymbols;
use crate::expr::parser::{expr_of_text, parse};
use crate::text::{
    lemma_text_less_total, lemma_text_less_transitive, less_text,
    text_less, Sep, lemma_split_nonempty, split, split_by, opt_text, trim, trimmed, same_text, alphanumeric, candidate, concat, decimal_text, holds_text, is_alphanumeric_char,
    lemma_candidate_injective, push_char, string_from, texts,
};

verus! {

/// `r` is the first of `base`, `base_2`, `base_3`, ... that `taken` does not hold.
pub open spec fn fresh_name(base: Seq<char>, taken: Seq<Seq<char>>, r: Seq<char>) -> bool {
    &&& !taken.contains(r)
    &&& exists|n: nat|
        n >= 1 && r == candidate(base, n) && forall|m: nat|
            1 <= m < n ==> taken.contains(#[trigger] candidate(base, m))
}

/// The first of `name`, `name_2`, `name_3`, ... that is not taken.
pub fn unique(name: &str, taken: &Vec<String>) -> (r: String)
    ensures
        fresh_name(name@, texts(taken@), r@),
{
    let ghost tv = texts(taken@);
    assert(tv.len() == taken.len());
    if !holds_text(taken, name) {
        assert(name@ == candidate(name@, 1));
        return string_from(name);
    }
    let mut n: u128 = 2;
    let ghost mut seen: Seq<Seq<char>> = seq![name@];
    proof {
        assert(seen[0] == candidate(name@, 1));
        tv.lemma_cardinality_of_set();
        assert(seen.to_set().subset_of(tv.to_set()));
        seen.unique_seq_to_set();
        vstd::set_lib::lemma_len_subset(seen.to_set(), tv.to_set());
    }
    loop
        invariant
            tv == texts(taken@),
            tv.len() <= usize::MAX,
            2 <= n,
            n <= tv.len() + 1,
            seen.len() == n - 1,
            seen.no_duplicates(),
            forall|i: int| 0 <= i < seen.len() ==> #[trigger] seen[i] == candidate(name@, (i + 1) as nat),
            forall|m: nat| 1 <= m < n ==> tv.contains(#[trigger] candidate(name@, m)),
        decreases tv.len() + 1 - n,
    {
        let mut c = concat(name, "_");
        let digits = decimal_text(n);
        c.append(digits.as_str());
        assert(c@ == candidate(name@, n as nat));
        if !holds_text(taken, c.as_str()) {
            return c;
        }
        proof {
            let next = seen.push(c@);
            assert forall|i: int, j: int| 0 <= i < next.len() && 0 <= j < next.len() && i != j implies next[i] != next[j] by {
                if next[i] == next[j] {
                    lemma_candidate_injective(name@, (i + 1) as nat, (j + 1) as nat);
                }
            }
            assert forall|x: Seq<char>| next.to_set().contains(x) implies tv.to_set().contains(x) by {
                let i = choose|i: int| 0 <= i < next.len() && next[i] == x;
                assert(tv.contains(candidate(name@, (i + 1) as nat)));
            }
            next.unique_seq_to_set();
            tv.lemma_cardinality_of_set();
            vstd::set_lib::lemma_len_subset(next.to_set(), tv.to_set());
            seen = next;
        }
        n += 1;
    }
}

/// A character that can be part of a name.
pub open spec fn is_word_char(c: char) -> bool {
    is_alphanumeric_char(c) || c == '_'
}

/// Does the whole word `f` stand at position `i` of `t`?
pub open spec fn word_at(t: Seq<char>, f: Seq<char>, i: int) -> bool {
    let ends = i + f.len();
    &&& 0 <= i
    &&& ends <= t.len()
    &&& t.subrange(i, ends) == f
    &&& (i == 0 || !is_word_char(t[i - 1]))
    &&& (ends == t.len() || !is_word_char(t[ends]))
}

/// `t` from position `i` on, with every whole word `f` written as `to`.
pub open spec fn replaced(t: Seq<char>, f: Seq<char>, to: Seq<char>, i: int) -> Seq<char>
    decreases t.len() - i,
{
    if i < 0 || i >= t.len() {
        seq![]
    } else if f.len() > 0 && word_at(t, f, i) {
        to + replaced(t, f, to, i + f.len())
    } else {
        seq![t[i]] + replaced(t, f, to, i + 1)
    }
}

fn word_char(c: char) -> (r: bool)
    ensures
        r == is_word_char(c),
{
    alphanumeric(c) || c == '_'
}

/// Searching `t` for an empty word stalls: at some position with no name character before it
/// nor at it, an empty word stands, and the search never moves past it.
pub open spec fn stalls_on_empty(t: Seq<char>) -> bool {
    exists|i: int| 0 <= i < t.len() && (i == 0 || !is_word_char(t[i - 1])) && !is_word_char(#[trigger] t[i])
}

proof fn lemma_replaced_nothing(t: Seq<char>, to: Seq<char>, i: int)
    requires
        0 <= i <= t.len(),
    ensures
        replaced(t, seq![], to, i) == t.subrange(i, t.len() as int),
    decreases t.len() - i,
{
    if i < t.len() {
        lemma_replaced_nothing(t, to, i + 1);
        assert(seq![t[i]] + t.subrange(i + 1, t.len() as int) =~= t.subrange(i, t.len() as int));
    } else {
        assert(t.subrange(i, t.len() as int) =~= Seq::<char>::empty());
    }
}

/// Rewrite `text` with every whole word `from` changed to `to`.
///
/// Only whole words are replaced, so renaming `w` does not corrupt `width`.
pub fn replace_word(text: &str, from: &str, to: &str) -> (r: String)
    requires
        from@.len() > 0 || !stalls_on_empty(text@),
    ensures
        r@ == replaced(text@, from@, to@, 0),
{
    if from.unicode_len() == 0 {
        proof {
            assert(from@ =~= Seq::<char>::empty());
            lemma_replaced_nothing(text@, to@, 0);
            assert(text@.subrange(0, text@.len() as int) =~= text@);
        }
        return string_from(text);
    }
    let t = crate::text::chars_of(text);
    let f = crate::text::chars_of(from);
    let n = t.len();
    let fl = f.len();
    let mut out = String::new();
    let mut i: usize = 0;
    while i < n
        invariant
            t@ == text@,
            f@ == from@,
            n == t@.len(),
            fl == f@.len(),
            fl > 0,
            0 <= i <= n,
            replaced(text@, from@, to@, 0) == out@ + replaced(text@, from@, to@, i as int),
        decreases n - i,
    {
        let ghost before = out@;
        let mut matches = fl <= n - i;
        if matches {
            let mut k: usize = 0;
            while k < fl && t[i + k] == f[k]
                invariant
                    t@ == text@,
                    f@ == from@,
                    n == t@.len(),
                    fl == f@.len(),
                    i + fl <= n,
                    0 <= k <= fl,
                    t@.subrange(i as int, i + k) == f@.subrange(0, k as int),
                decreases fl - k,
            {
                k += 1;
                assert(t@.subrange(i as int, i + k) =~= f@.subrange(0, k as int));
            }
            if k < fl {
                assert(t@.subrange(i as int, i + fl)[k as int] != f@[k as int]);
                matches = false;
            } else {
                assert(f@.subrange(0, fl as int) =~= f@);
            }
        }
        if matches {
            let ends = i + fl;
            if i > 0 && word_char(t[i - 1]) {
                matches = false;
            } else if ends < n && word_char(t[ends]) {
                matches = false;
            }
        }
        assert(matches == word_at(text@, from@, i as int));
        if matches {
            out.append(to);
            assert(out@ + replaced(text@, from@, to@, i + fl) =~= before + (to@ + replaced(
                text@,
                from@,
                to@,
                i + fl,
            )));
            i = i + fl;
        } else {
            push_char(&mut out, t[i]);
            assert(out@ + replaced(text@, from@, to@, i + 1) =~= before + (seq![t@[i as int]] + replaced(
                text@,
                from@,
                to@,
                i + 1,
            )));
            i += 1;
        }
    }
    assert(out@ + Seq::<char>::empty() =~= out@);
    out
}

/// Every character of `s` can be part of a name.
pub open spec fn name_chars(s: Seq<char>) -> bool {
    forall|k: int| 0 <= k < s.len() ==> is_word_char(#[trigger] s[k])
}

/// `w` stands nowhere in `t` as a whole word.
pub open spec fn absent_word(t: Seq<char>, w: Seq<char>) -> bool {
    forall|k: int| !#[trigger] word_at(t, w, k)
}

/// Where the rename of `t` shows `to` as a whole word at `j` and `t` has no whole word `f` at
/// the matching `i`, the same characters stand in `t` at `i`, as a whole word there too.
proof fn lemma_copied_word(
    t: Seq<char>,
    f: Seq<char>,
    to: Seq<char>,
    u: Seq<char>,
    i: int,
    j: int,
    p: int,
)
    requires
        f.len() > 0,
        to.len() > 0,
        name_chars(f),
        name_chars(to),
        0 <= p <= to.len(),
        0 <= i,
        i + p <= t.len(),
        0 <= j,
        word_at(u, to, j),
        !word_at(t, f, i),
        u.subrange(j + p, u.len() as int) == replaced(t, f, to, i + p),
        t.subrange(i, i + p) == to.subrange(0, p),
    ensures
        i + to.len() <= t.len(),
        t.subrange(i, i + to.len()) == to,
        i + to.len() == t.len() || !is_word_char(t[i + to.len()]),
    decreases to.len() - p,
{
    let m = to.len() as int;
    if p < m {
        assert(u.subrange(j, j + m)[p] == u[j + p]);
        assert(u[j + p] == to[p]);
        assert(u.subrange(j + p, u.len() as int)[0] == u[j + p]);
        assert(i + p < t.len());
        if p > 0 {
            assert(t.subrange(i, i + p)[p - 1] == t[i + p - 1]);
            assert(to.subrange(0, p)[p - 1] == to[p - 1]);
            assert(is_word_char(to[p - 1]));
        }
        assert(!word_at(t, f, i + p));
        assert(replaced(t, f, to, i + p) == seq![t[i + p]] + replaced(t, f, to, i + p + 1));
        assert(t[i + p] == to[p]);
        assert(u.subrange(j + p + 1, u.len() as int) =~= u.subrange(j + p, u.len() as int).subrange(
            1,
            u.len() - j - p,
        ));
        assert(replaced(t, f, to, i + p + 1) =~= replaced(t, f, to, i + p).subrange(
            1,
            replaced(t, f, to, i + p).len() as int,
        ));
        assert(t.subrange(i, i + p + 1) =~= to.subrange(0, p + 1)) by {
            assert forall|k: int| 0 <= k < p + 1 implies #[trigger] t.subrange(i, i + p + 1)[k] == to.subrange(
                0,
                p + 1,
            )[k] by {
                if k < p {
                    assert(t.subrange(i, i + p)[k] == to.subrange(0, p)[k]);
                }
            }
        }
        lemma_copied_word(t, f, to, u, i, j, p + 1);
    } else {
        assert(to.subrange(0, p) =~= to);
        if i + p < t.len() {
            assert(t.subrange(i, i + p)[p - 1] == t[i + p - 1]);
            assert(is_word_char(to[p - 1]));
            assert(!word_at(t, f, i + p));
            assert(replaced(t, f, to, i + p) == seq![t[i + p]] + replaced(t, f, to, i + p + 1));
            assert(j + p < u.len());
            assert(u.subrange(j + p, u.len() as int)[0] == u[j + p]);
            assert(u[j + p] == t[i + p]);
        }
    }
}

/// Renaming back, from matching places: the rename `u` of `t`, read from `j`, renames back to
/// `t` read from `i`, where the two places agree on whether a name character stands before them.
proof fn lemma_renamed_back(t: Seq<char>, f: Seq<char>, to: Seq<char>, u: Seq<char>, i: int, j: int)
    requires
        f.len() > 0,
        to.len() > 0,
        name_chars(f),
        name_chars(to),
        absent_word(t, to),
        0 <= i <= t.len(),
        0 <= j <= u.len(),
        (i == 0) == (j == 0),
        i > 0 ==> is_word_char(t[i - 1]) == is_word_char(u[j - 1]),
        u.subrange(j, u.len() as int) == replaced(t, f, to, i),
    ensures
        replaced(u, to, f, j) == t.subrange(i, t.len() as int),
    decreases t.len() - i,
{
    let tl = t.len() as int;
    let ul = u.len() as int;
    if i == tl {
        assert(u.subrange(j, ul).len() == 0);
        assert(t.subrange(i, tl) =~= Seq::<char>::empty());
    } else if word_at(t, f, i) {
        let n = i + f.len();
        let m = to.len() as int;
        assert(replaced(t, f, to, i) == to + replaced(t, f, to, n));
        assert(j + m <= ul);
        assert(u.subrange(j, j + m) =~= u.subrange(j, ul).subrange(0, m));
        assert(u.subrange(j + m, ul) =~= u.subrange(j, ul).subrange(m, ul - j));
        assert(u.subrange(j + m, ul) =~= replaced(t, f, to, n));
        assert(t.subrange(i, n)[f.len() - 1] == t[n - 1]);
        assert(is_word_char(f[f.len() - 1]));
        if j + m < ul {
            assert(u.subrange(j + m, ul)[0] == u[j + m]);
            assert(n < tl);
            assert(!word_at(t, f, n));
            assert(replaced(t, f, to, n) == seq![t[n]] + replaced(t, f, to, n + 1));
            assert(u[j + m] == t[n]);
        }
        assert(u.subrange(j, j + m)[m - 1] == u[j + m - 1]);
        assert(is_word_char(to[m - 1]));
        assert((to + replaced(t, f, to, n)).subrange(0, m) =~= to);
        assert(u.subrange(j, j + m) == to);
        assert(j == 0 || !is_word_char(u[j - 1]));
        assert(j + m == ul || !is_word_char(u[j + m]));
        assert(word_at(u, to, j));
        assert(replaced(u, to, f, j) == f + replaced(u, to, f, j + m));
        lemma_renamed_back(t, f, to, u, n, j + m);
        assert(f + t.subrange(n, tl) =~= t.subrange(i, tl));
    } else {
        assert(replaced(t, f, to, i) == seq![t[i]] + replaced(t, f, to, i + 1));
        assert(j < ul);
        assert(u.subrange(j, ul)[0] == u[j]);
        assert(u[j] == t[i]);
        if word_at(u, to, j) {
            assert(t.subrange(i, i) =~= to.subrange(0, 0));
            lemma_copied_word(t, f, to, u, i, j, 0);
            assert(word_at(t, to, i));
        }
        assert(replaced(u, to, f, j) == seq![u[j]] + replaced(u, to, f, j + 1));
        assert(u.subrange(j + 1, ul) =~= u.subrange(j, ul).subrange(1, ul - j));
        assert(replaced(t, f, to, i + 1) =~= replaced(t, f, to, i).subrange(
            1,
            replaced(t, f, to, i).len() as int,
        ));
        lemma_renamed_back(t, f, to, u, i + 1, j + 1);
        assert(seq![t[i]] + t.subrange(i + 1, tl) =~= t.subrange(i, tl));
    }
}

/// Renaming `from` to `to` and then `to` back to `from` gives the text back, where both are
/// names and `to` stood nowhere in the text as a whole word.
pub proof fn law_rename_round_trip(text: Seq<char>, from: Seq<char>, to: Seq<char>)
    requires
        from.len() > 0,
        to.len() > 0,
        name_chars(from),
        name_chars(to),
        absent_word(text, to),
    ensures
        replaced(replaced(text, from, to, 0), to, from, 0) == text,
{
    let u = replaced(text, from, to, 0);
    assert(u.subrange(0, u.len() as int) =~= u);
    lemma_renamed_back(text, from, to, u, 0, 0);
    assert(text.subrange(0, text.len() as int) =~= text);
}

// --------------------------------------------------------------------------------- features

/// A geometry operation the editor can offer, and the arguments it takes: each argument's name,
/// a hint for the field, and a starting value.
pub struct FeatureKind {
    pub op: &'static str,
    pub doc: &'static str,
    pub args: Vec<(&'static str, &'static str, &'static str)>,
    /// True when the operation combines bodies that were built earlier by name.
    pub boolean: bool,
}

pub struct FeatureKindV {
    pub op: Seq<char>,
    pub doc: Seq<char>,
    pub args: Seq<(Seq<char>, Seq<char>, Seq<char>)>,
    pub boolean: bool,
}

impl View for FeatureKind {
    type V = FeatureKindV;

    open spec fn view(&self) -> FeatureKindV {
        FeatureKindV {
            op: self.op@,
            doc: self.doc@,
            args: self.args@.map_values(
                |a: (&'static str, &'static str, &'static str)| (a.0@, a.1@, a.2@),
            ),
            boolean: self.boolean,
        }
    }
}

/// Everything that can go in a geometry block.
///
/// The starting values are whole millimetres that produce something visible, so a newly added
/// feature shows up in the viewport instead of being an invisible zero-sized body.
pub open spec fn feature_spec(op: Seq<char>) -> Option<FeatureKindV> {
    if op == "box"@ {
        Some(
            FeatureKindV {
                op: "box"@,
                doc: "A rectangular block, centred on `at`"@,
                args: seq![
                    ("size"@, "length, width, height"@, "(100 mm, 100 mm, 100 mm)"@),
                    ("at"@, "centre"@, "(0 mm, 0 mm, 0 mm)"@),
                ],
                boolean: false,
            },
        )
    } else if op == "cylinder"@ {
        Some(
            FeatureKindV {
                op: "cylinder"@,
                doc: "A solid cylinder, centred on `at`, along `axis`"@,
                args: seq![
                    ("d"@, "diameter"@, "50 mm"@),
                    ("h"@, "height"@, "100 mm"@),
                    ("at"@, "centre"@, "(0 mm, 0 mm, 0 mm)"@),
                    ("axis"@, "x, y or z"@, "z"@),
                ],
                boolean: false,
            },
        )
    } else if op == "tube"@ {
        Some(
            FeatureKindV {
                op: "tube"@,
                doc: "A hollow tube running between two points. The only feature that can run at an angle"@,
                args: seq![
                    ("od"@, "outside diameter"@, "30 mm"@),
                    ("wall"@, "wall thickness"@, "3 mm"@),
                    ("from"@, "start"@, "(0 mm, 0 mm, 0 mm)"@),
                    ("to"@, "end"@, "(200 mm, 0 mm, 0 mm)"@),
                ],
                boolean: false,
            },
        )
    } else if op == "box_tube"@ {
        Some(
            FeatureKindV {
                op: "box_tube"@,
                doc: "A rectangular hollow section, centred on `at`"@,
                args: seq![
                    ("size"@, "length, width, height"@, "(500 mm, 60 mm, 120 mm)"@),
                    ("wall"@, "wall thickness"@, "3 mm"@),
                    ("at"@, "centre"@, "(0 mm, 0 mm, 0 mm)"@),
                ],
                boolean: false,
            },
        )
    } else if op == "union"@ {
        Some(
            FeatureKindV {
                op: "union"@,
                doc: "Fuse everything built so far into one body. Usually the last line"@,
                args: seq![],
                boolean: false,
            },
        )
    } else if op == "subtract"@ {
        Some(
            FeatureKindV {
                op: "subtract"@,
                doc: "Cut body b out of body a. Needs the real geometry kernel"@,
                args: seq![("a"@, "body to cut"@, ""@), ("b"@, "body to cut with"@, ""@)],
                boolean: true,
            },
        )
    } else if op == "intersect"@ {
        Some(
            FeatureKindV {
                op: "intersect"@,
                doc: "Keep only what a and b share. Needs the real geometry kernel"@,
                args: seq![("a"@, "first body"@, ""@), ("b"@, "second body"@, ""@)],
                boolean: true,
            },
        )
    } else if op == "mirror"@ {
        Some(
            FeatureKindV {
                op: "mirror"@,
                doc: "Copy a body reflected about a plane through the origin"@,
                args: seq![("of"@, "body to mirror"@, ""@), ("plane"@, "xy, xz or yz"@, "xz"@)],
                boolean: true,
            },
        )
    } else {
        None
    }
}

fn kind_of(
    op: &'static str,
    doc: &'static str,
    args: Vec<(&'static str, &'static str, &'static str)>,
    boolean: bool,
) -> (r: FeatureKind)
    ensures
        r.op == op,
        r.doc == doc,
        r.args == args,
        r.boolean == boolean,
{
    FeatureKind { op, doc, args, boolean }
}

/// What arguments the geometry operation `op` takes, if it is one the editor offers.
pub fn feature_kind(op: &str) -> (r: Option<FeatureKind>)
    ensures
        match r {
            Some(k) => feature_spec(op@) == Some(k@),
            None => feature_spec(op@) is None,
        },
{
    let r = if same_text(op, "box") {
        Some(
            kind_of(
                "box",
                "A rectangular block, centred on `at`",
                vec![
                    ("size", "length, width, height", "(100 mm, 100 mm, 100 mm)"),
                    ("at", "centre", "(0 mm, 0 mm, 0 mm)"),
                ],
                false,
            ),
        )
    } else if same_text(op, "cylinder") {
        Some(
            kind_of(
                "cylinder",
                "A solid cylinder, centred on `at`, along `axis`",
                vec![
                    ("d", "diameter", "50 mm"),
                    ("h", "height", "100 mm"),
                    ("at", "centre", "(0 mm, 0 mm, 0 mm)"),
                    ("axis", "x, y or z", "z"),
                ],
                false,
            ),
        )
    } else if same_text(op, "tube") {
        Some(
            kind_of(
                "tube",
                "A hollow tube running between two points. The only feature that can run at an angle",
                vec![
                    ("od", "outside diameter", "30 mm"),
                    ("wall", "wall thickness", "3 mm"),
                    ("from", "start", "(0 mm, 0 mm, 0 mm)"),
                    ("to", "end", "(200 mm, 0 mm, 0 mm)"),
                ],
                false,
            ),
        )
    } else if same_text(op, "box_tube") {
        Some(
            kind_of(
                "box_tube",
                "A rectangular hollow section, centred on `at`",
                vec![
                    ("size", "length, width, height", "(500 mm, 60 mm, 120 mm)"),
                    ("wall", "wall thickness", "3 mm"),
                    ("at", "centre", "(0 mm, 0 mm, 0 mm)"),
                ],
                false,
            ),
        )
    } else if same_text(op, "union") {
        Some(
            kind_of(
                "union",
                "Fuse everything built so far into one body. Usually the last line",
                vec![],
                false,
            ),
        )
    } else if same_text(op, "subtract") {
        Some(
            kind_of(
                "subtract",
                "Cut body b out of body a. Needs the real geometry kernel",
                vec![("a", "body to cut", ""), ("b", "body to cut with", "")],
                true,
            ),
        )
    } else if same_text(op, "intersect") {
        Some(
            kind_of(
                "intersect",
                "Keep only what a and b share. Needs the real geometry kernel",
                vec![("a", "first body", ""), ("b", "second body", "")],
                true,
            ),
        )
    } else if same_text(op, "mirror") {
        Some(
            kind_of(
                "mirror",
                "Copy a body reflected about a plane through the origin",
                vec![("of", "body to mirror", ""), ("plane", "xy, xz or yz", "xz")],
                true,
            ),
        )
    } else {
        None
    };
    proof {
        if r is Some {
            assert(r->0@.args =~= feature_spec(op@)->0.args);
        }
    }
    r
}

// ------------------------------------------------------------------------------------ ports

/// What a port parameter holds.
pub enum ParamKind {
    Int,
    Bool,
    Text,
    /// A quantity in the named unit.
    Quantity(String),
}

/// One parameter a port type declares.
pub struct PortParamDef {
    pub name: String,
    pub kind: ParamKind,
    pub optional: bool,
}

/// A port type of the registry, with the parameters a port of the type carries.
pub struct PortTypeDef {
    pub name: String,
    pub params: Vec<PortParamDef>,
}

/// One parameter a port of a given type has to carry.
pub struct PortParamSlot {
    pub name: String,
    /// What the registry says it is: a unit name, or `text`, `int` or `bool`.
    pub kind: String,
    pub optional: bool,
    /// A value to start from, so a newly added port is valid rather than empty.
    pub start: String,
}

pub struct PortParamSlotV {
    pub name: Seq<char>,
    pub kind: Seq<char>,
    pub optional: bool,
    pub start: Seq<char>,
}

impl View for PortParamSlot {
    type V = PortParamSlotV;

    open spec fn view(&self) -> PortParamSlotV {
        PortParamSlotV {
            name: self.name@,
            kind: self.kind@,
            optional: self.optional,
            start: self.start@,
        }
    }
}

/// A sensible starting value for a port parameter, given the unit the registry declares.
pub open spec fn start_for_unit(unit: Seq<char>) -> Seq<char> {
    if unit == "mm"@ {
        "50 mm"@
    } else if unit == "inch"@ {
        "15 inch"@
    } else if unit == "A"@ {
        "200 A"@
    } else if unit == "N/mm"@ {
        "100 N/mm"@
    } else if unit == "kN"@ {
        "10 kN"@
    } else {
        "1 "@ + unit
    }
}

/// The field a port parameter of this declaration gets.
pub open spec fn slot_of(p: PortParamDef) -> PortParamSlotV {
    let (kind, start) = match p.kind {
        ParamKind::Int => ("int"@, "4"@),
        ParamKind::Text => ("text"@, "M12"@),
        ParamKind::Bool => ("bool"@, "#true"@),
        ParamKind::Quantity(u) => (u@, start_for_unit(u@)),
    };
    PortParamSlotV { name: p.name@, kind, optional: p.optional, start }
}

/// The first port type of the registry with this name.
pub open spec fn type_named(types: Seq<PortTypeDef>, name: Seq<char>) -> Option<int> {
    if exists|i: int| 0 <= i < types.len() && (#[trigger] types[i]).name@ == name {
        Some(
            choose|i: int|
                0 <= i < types.len() && (#[trigger] types[i]).name@ == name && forall|j: int|
                    0 <= j < i ==> (#[trigger] types[j]).name@ != name,
        )
    } else {
        None
    }
}

/// A sensible starting value for a port parameter, given the unit the registry declares.
pub fn port_param_start(unit: &str) -> (r: String)
    ensures
        r@ == start_for_unit(unit@),
{
    if same_text(unit, "mm") {
        string_from("50 mm")
    } else if same_text(unit, "inch") {
        string_from("15 inch")
    } else if same_text(unit, "A") {
        string_from("200 A")
    } else if same_text(unit, "N/mm") {
        string_from("100 N/mm")
    } else if same_text(unit, "kN") {
        string_from("10 kN")
    } else {
        concat("1 ", unit)
    }
}

fn slot_for(p: &PortParamDef) -> (r: PortParamSlot)
    ensures
        r@ == slot_of(*p),
{
    let (kind, start) = match &p.kind {
        ParamKind::Int => (string_from("int"), string_from("4")),
        ParamKind::Text => (string_from("text"), string_from("M12")),
        ParamKind::Bool => (string_from("bool"), string_from("#true")),
        ParamKind::Quantity(u) => (u.clone(), port_param_start(u.as_str())),
    };
    PortParamSlot { name: p.name.clone(), kind, optional: p.optional, start }
}

/// The parameters a port of this type must carry, from the port registry; none for a type the
/// registry does not have.
///
/// This is what lets the editor offer the right fields for a joint it has never heard of: the
/// registry is a data file, and adding a port type to it is enough.
pub fn port_type_params(types: &Vec<PortTypeDef>, port_type: &str) -> (r: Vec<PortParamSlot>)
    ensures
        match type_named(types@, port_type@) {
            Some(i) => r@.map_values(|s: PortParamSlot| s@) == types@[i].params@.map_values(
                |p: PortParamDef| slot_of(p),
            ),
            None => r@.len() == 0,
        },
{
    let mut t: usize = 0;
    while t < types.len()
        invariant
            0 <= t <= types@.len(),
            forall|j: int| 0 <= j < t ==> (#[trigger] types@[j]).name@ != port_type@,
        decreases types@.len() - t,
    {
        if same_text(types[t].name.as_str(), port_type) {
            let ps = &types[t].params;
            let mut out: Vec<PortParamSlot> = Vec::new();
            let mut i: usize = 0;
            while i < ps.len()
                invariant
                    0 <= i <= ps@.len(),
                    out@.map_values(|s: PortParamSlot| s@) == ps@.subrange(0, i as int).map_values(
                        |p: PortParamDef| slot_of(p),
                    ),
                decreases ps@.len() - i,
            {
                let slot = slot_for(&ps[i]);
                let ghost sv = slot@;
                let ghost before = out@.map_values(|s: PortParamSlot| s@);
                out.push(slot);
                proof {
                    let a = ps@.subrange(0, i as int);
                    let b = ps@.subrange(0, i + 1);
                    assert(b =~= a.push(ps@[i as int]));
                    assert(b.map_values(|p: PortParamDef| slot_of(p)) =~= a.map_values(
                        |p: PortParamDef| slot_of(p),
                    ).push(slot_of(ps@[i as int])));
                    assert(out@.map_values(|s: PortParamSlot| s@) =~= before.push(sv));
                }
                i += 1;
            }
            proof {
                assert(ps@.subrange(0, ps@.len() as int) =~= ps@);
                let k = type_named(types@, port_type@)->0;
                assert(types@[t as int].name@ == port_type@);
                if k != t {
                    if k < t {
                    } else {
                        assert(types@[t as int].name@ != port_type@);
                    }
                }
            }
            return out;
        }
        t += 1;
    }
    Vec::new()
}

// ------------------------------------------------------------------------------ expressions

/// Does this expression read the value `name`, as the first segment of a path, anywhere
/// inside it?
pub open spec fn mentions(e: ExprV, name: Seq<char>) -> bool
    decreases e,
{
    match e {
        ExprV::Path(p) => p.len() > 0 && p[0] == name,
        ExprV::TextOr(_, inner) => mentions(*inner, name),
        ExprV::Unary(_, a) => mentions(*a, name),
        ExprV::Binary(_, a, b) => mentions(*a, name) || mentions(*b, name),
        ExprV::Tuple(items) => any_mentions(items, name),
        ExprV::List(items) => any_mentions(items, name),
        ExprV::If(c, a, b) => mentions(*c, name) || mentions(*a, name) || mentions(*b, name),
        ExprV::Call(_, args) => any_mentions(args, name),
        ExprV::Member(base, _) => mentions(*base, name),
        ExprV::MethodCall(base, _, args) => mentions(*base, name) || any_mentions(args, name),
        ExprV::Lambda(_, body) => mentions(*body, name),
        _ => false,
    }
}

pub open spec fn any_mentions(s: Seq<ExprV>, name: Seq<char>) -> bool
    decreases s,
{
    if s.len() == 0 {
        false
    } else {
        proof {
            assert(decreases_to!(s => s.subrange(0, s.len() - 1)));
            assert(decreases_to!(s => s[s.len() - 1]));
        }
        any_mentions(s.drop_last(), name) || mentions(s.last(), name)
    }
}

/// The expressions directly inside `e`: operands, items, arguments, conditions and branches,
/// the base of a member or method, a lambda's body, and the parse of a text.
pub open spec fn children(e: ExprV) -> Seq<ExprV> {
    match e {
        ExprV::TextOr(_, inner) => seq![*inner],
        ExprV::Unary(_, a) => seq![*a],
        ExprV::Binary(_, a, b) => seq![*a, *b],
        ExprV::Tuple(items) => items,
        ExprV::List(items) => items,
        ExprV::If(c, a, b) => seq![*c, *a, *b],
        ExprV::Call(_, args) => args,
        ExprV::Member(base, _) => seq![*base],
        ExprV::MethodCall(base, _, args) => seq![*base] + args,
        ExprV::Lambda(_, body) => seq![*body],
        _ => seq![],
    }
}

/// `e` is a path whose first segment is `name`.
pub open spec fn path_from(e: ExprV, name: Seq<char>) -> bool {
    e matches ExprV::Path(p) && p.len() > 0 && p[0] == name
}

proof fn lemma_any_mentions(s: Seq<ExprV>, name: Seq<char>)
    ensures
        any_mentions(s, name) <==> exists|i: int| 0 <= i < s.len() && mentions(#[trigger] s[i], name),
    decreases s.len(),
{
    if s.len() > 0 {
        lemma_any_mentions(s.drop_last(), name);
        if exists|i: int| 0 <= i < s.len() && mentions(#[trigger] s[i], name) {
            let i = choose|i: int| 0 <= i < s.len() && mentions(#[trigger] s[i], name);
            if i < s.len() - 1 {
                assert(s.drop_last()[i] == s[i]);
            }
        }
        if any_mentions(s.drop_last(), name) {
            let i = choose|i: int| 0 <= i < s.drop_last().len() && mentions(#[trigger] s.drop_last()[i], name);
            assert(s[i] == s.drop_last()[i]);
        }
    }
}

/// An expression reads a value exactly when it is a path starting with its name or something
/// directly inside it reads it; so a value is read wherever a path naming it stands, however
/// deep: in call and method arguments, lambda bodies, conditions, members and items alike.
pub proof fn law_a_value_is_read_wherever_it_is_named(e: ExprV, name: Seq<char>)
    ensures
        mentions(e, name) <==> (path_from(e, name) || exists|i: int|
            0 <= i < children(e).len() && mentions(#[trigger] children(e)[i], name)),
{
    let c = children(e);
    match e {
        ExprV::Tuple(items) => lemma_any_mentions(items, name),
        ExprV::List(items) => lemma_any_mentions(items, name),
        ExprV::Call(_, args) => lemma_any_mentions(args, name),
        ExprV::MethodCall(base, _, args) => {
            lemma_any_mentions(args, name);
            if exists|i: int| 0 <= i < c.len() && mentions(#[trigger] c[i], name) {
                let i = choose|i: int| 0 <= i < c.len() && mentions(#[trigger] c[i], name);
                if i > 0 {
                    assert(c[i] == args[i - 1]);
                }
            }
            if any_mentions(args, name) {
                let i = choose|i: int| 0 <= i < args.len() && mentions(#[trigger] args[i], name);
                assert(c[i + 1] == args[i]);
            }
            assert(c[0] == *base);
        },
        ExprV::Binary(_, a, b) => {
            assert(c[0] == *a && c[1] == *b);
        },
        ExprV::If(x, a, b) => {
            assert(c[0] == *x && c[1] == *a && c[2] == *b);
        },
        ExprV::TextOr(_, inner) => {
            assert(c[0] == *inner);
        },
        ExprV::Unary(_, a) => {
            assert(c[0] == *a);
        },
        ExprV::Member(base, _) => {
            assert(c[0] == *base);
        },
        ExprV::Lambda(_, body) => {
            assert(c[0] == *body);
        },
        _ => {},
    }
}

/// Does this expression read the named value anywhere inside it?
pub fn expr_mentions(e: &Expr, name: &str) -> (r: bool)
    ensures
        r == mentions(e@, name@),
    decreases e,
{
    match e {
        Expr::Path(p) => p.len() > 0 && same_text(p[0].as_str(), name),
        Expr::TextOr(_, inner) => expr_mentions(inner, name),
        Expr::Unary(_, a) => expr_mentions(a, name),
        Expr::Binary(_, a, b) => expr_mentions(a, name) || expr_mentions(b, name),
        Expr::Tuple(items) => list_mentions(items, name),
        Expr::List(items) => list_mentions(items, name),
        Expr::If(c, a, b) => expr_mentions(c, name) || expr_mentions(a, name) || expr_mentions(
            b,
            name,
        ),
        Expr::Call(_, args) => list_mentions(args, name),
        Expr::Member(base, _) => expr_mentions(base, name),
        Expr::MethodCall(base, _, args) => expr_mentions(base, name) || list_mentions(args, name),
        Expr::Lambda(_, body) => expr_mentions(body, name),
        _ => false,
    }
}

fn list_mentions(v: &Vec<Expr>, name: &str) -> (r: bool)
    ensures
        r == any_mentions(exprs_view(v@), name@),
    decreases v,
{
    let mut i: usize = 0;
    let mut found = false;
    while i < v.len()
        invariant
            0 <= i <= v@.len(),
            found == any_mentions(exprs_view(v@.subrange(0, i as int)), name@),
        decreases v@.len() - i,
    {
        proof {
            assert(decreases_to!(v => v@[i as int]));
        }
        let here = expr_mentions(&v[i], name);
        proof {
            let s = v@.subrange(0, i as int);
            assert(v@.subrange(0, i + 1) =~= s.push(v@[i as int]));
            lemma_exprs_view_push(s, v@[i as int]);
            assert(exprs_view(s.push(v@[i as int])).drop_last() =~= exprs_view(s));
        }
        found = found || here;
        i += 1;
    }
    assert(v@.subrange(0, v@.len() as int) =~= v@);
    found
}

// ------------------------------------------------------------------------------ a part file

/// Text a person typed, kept as text and parsed if it parses.
///
/// Keeping the text as it was typed is what makes `36 kWh` stay `36 kWh` in the saved file instead of
/// becoming a number of joules.
pub open spec fn text_expr_spec(text: Seq<char>, units: Seq<Seq<char>>) -> ExprV {
    match expr_of_text(text, units) {
        Ok(ExprV::Str(s)) => ExprV::Str(s),
        Ok(parsed) => ExprV::TextOr(text, Box::new(parsed)),
        Err(_) => ExprV::Str(text),
    }
}

/// Text a person typed, kept as text and parsed if it parses.
pub fn text_expr(text: &str, units: &UnitSymbols) -> (r: Expr)
    ensures
        r@ == text_expr_spec(text@, units@),
{
    match parse(text, units) {
        Ok(Expr::Str(s)) => Expr::Str(s),
        Ok(parsed) => Expr::TextOr(string_from(text), Box::new(parsed)),
        Err(_) => Expr::Str(string_from(text)),
    }
}

pub open spec fn opt_expr(o: Option<Expr>) -> Option<ExprV> {
    match o {
        Some(e) => Some(e@),
        None => None,
    }
}

/// A named value of a part, with its limits or the expression that derives it.
pub struct ParamDef {
    pub name: String,
    pub unit: Option<String>,
    pub default: Option<Expr>,
    pub min: Option<Expr>,
    pub max: Option<Expr>,
    pub expr: Option<Expr>,
    pub doc: Option<String>,
}

pub struct ParamDefV {
    pub name: Seq<char>,
    pub unit: Option<Seq<char>>,
    pub default: Option<ExprV>,
    pub min: Option<ExprV>,
    pub max: Option<ExprV>,
    pub expr: Option<ExprV>,
    pub doc: Option<Seq<char>>,
}

impl View for ParamDef {
    type V = ParamDefV;

    open spec fn view(&self) -> ParamDefV {
        ParamDefV {
            name: self.name@,
            unit: opt_text(self.unit),
            default: opt_expr(self.default),
            min: opt_expr(self.min),
            max: opt_expr(self.max),
            expr: opt_expr(self.expr),
            doc: opt_text(self.doc),
        }
    }
}

/// Named arguments, in the order they are written.
pub open spec fn args_view(v: Seq<(String, Expr)>) -> Seq<(Seq<char>, ExprV)> {
    v.map_values(|a: (String, Expr)| (a.0@, a.1@))
}

/// One line of a geometry block.
pub struct Feature {
    pub op: String,
    pub name: Option<String>,
    pub args: Vec<(String, Expr)>,
}

pub struct FeatureV {
    pub op: Seq<char>,
    pub name: Option<Seq<char>>,
    pub args: Seq<(Seq<char>, ExprV)>,
}

impl View for Feature {
    type V = FeatureV;

    open spec fn view(&self) -> FeatureV {
        FeatureV { op: self.op@, name: opt_text(self.name), args: args_view(self.args@) }
    }
}

pub open spec fn features_view(v: Seq<Feature>) -> Seq<FeatureV> {
    v.map_values(|f: Feature| f@)
}

/// The geometry of a part at one level of detail.
pub struct GeometryLevel {
    pub level: String,
    pub features: Vec<Feature>,
}

pub struct GeometryLevelV {
    pub level: Seq<char>,
    pub features: Seq<FeatureV>,
}

impl View for GeometryLevel {
    type V = GeometryLevelV;

    open spec fn view(&self) -> GeometryLevelV {
        GeometryLevelV { level: self.level@, features: features_view(self.features@) }
    }
}

/// A direction: one of the named axes, or an expression.
pub enum AxisSpec {
    Named(String),
    Expr(Expr),
}

pub enum AxisSpecV {
    Named(Seq<char>),
    Expr(ExprV),
}

impl View for AxisSpec {
    type V = AxisSpecV;

    open spec fn view(&self) -> AxisSpecV {
        match self {
            AxisSpec::Named(n) => AxisSpecV::Named(n@),
            AxisSpec::Expr(e) => AxisSpecV::Expr(e@),
        }
    }
}

pub open spec fn opt_axis(o: Option<AxisSpec>) -> Option<AxisSpecV> {
    match o {
        Some(a) => Some(a@),
        None => None,
    }
}

/// A port: where the part joins others, and what the joint carries.
pub struct PortDef {
    pub name: String,
    pub port_type: String,
    pub at: Expr,
    pub axis: AxisSpec,
    pub clock: Option<AxisSpec>,
    pub params: Vec<(String, Expr)>,
}

pub struct PortDefV {
    pub name: Seq<char>,
    pub port_type: Seq<char>,
    pub at: ExprV,
    pub axis: AxisSpecV,
    pub clock: Option<AxisSpecV>,
    pub params: Seq<(Seq<char>, ExprV)>,
}

impl View for PortDef {
    type V = PortDefV;

    open spec fn view(&self) -> PortDefV {
        PortDefV {
            name: self.name@,
            port_type: self.port_type@,
            at: self.at@,
            axis: self.axis@,
            clock: opt_axis(self.clock),
            params: args_view(self.params@),
        }
    }
}

/// The mass of a part: computed from its geometry, or declared.
pub enum MassPropsDef {
    Computed,
    Declared { mass: Expr, cg: Option<Expr> },
}

pub enum MassPropsDefV {
    Computed,
    Declared { mass: ExprV, cg: Option<ExprV> },
}

impl View for MassPropsDef {
    type V = MassPropsDefV;

    open spec fn view(&self) -> MassPropsDefV {
        match self {
            MassPropsDef::Computed => MassPropsDefV::Computed,
            MassPropsDef::Declared { mass, cg } => MassPropsDefV::Declared {
                mass: mass@,
                cg: opt_expr(*cg),
            },
        }
    }
}

/// A handed choice, such as left and right.
pub struct VariantDef {
    pub name: String,
    pub options: Vec<String>,
    pub mirror_when: Option<String>,
    pub mirror_plane: String,
}

pub struct VariantDefV {
    pub name: Seq<char>,
    pub options: Seq<Seq<char>>,
    pub mirror_when: Option<Seq<char>>,
    pub mirror_plane: Seq<char>,
}

impl View for VariantDef {
    type V = VariantDefV;

    open spec fn view(&self) -> VariantDefV {
        VariantDefV {
            name: self.name@,
            options: texts(self.options@),
            mirror_when: opt_text(self.mirror_when),
            mirror_plane: self.mirror_plane@,
        }
    }
}

/// A way of making the part, and the build volumes it suits.
pub struct MfgMethodDef {
    pub method: String,
    pub scale: Option<String>,
    pub exports: Vec<String>,
}

pub struct MfgMethodDefV {
    pub method: Seq<char>,
    pub scale: Option<Seq<char>>,
    pub exports: Seq<Seq<char>>,
}

impl View for MfgMethodDef {
    type V = MfgMethodDefV;

    open spec fn view(&self) -> MfgMethodDefV {
        MfgMethodDefV {
            method: self.method@,
            scale: opt_text(self.scale),
            exports: texts(self.exports@),
        }
    }
}

/// A part as it is written in its definition file: what the editor changes.
pub struct PrimitiveDef {
    pub id: String,
    pub version: String,
    pub description: String,
    pub category: String,
    pub params: Vec<ParamDef>,
    pub variants: Vec<VariantDef>,
    pub material: Option<String>,
    pub geometry: Vec<GeometryLevel>,
    pub massprops: MassPropsDef,
    pub ports: Vec<PortDef>,
    pub manufacturing: Vec<MfgMethodDef>,
}

pub struct PrimitiveDefV {
    pub id: Seq<char>,
    pub version: Seq<char>,
    pub description: Seq<char>,
    pub category: Seq<char>,
    pub params: Seq<ParamDefV>,
    pub variants: Seq<VariantDefV>,
    pub material: Option<Seq<char>>,
    pub geometry: Seq<GeometryLevelV>,
    pub massprops: MassPropsDefV,
    pub ports: Seq<PortDefV>,
    pub manufacturing: Seq<MfgMethodDefV>,
}

impl View for PrimitiveDef {
    type V = PrimitiveDefV;

    open spec fn view(&self) -> PrimitiveDefV {
        PrimitiveDefV {
            id: self.id@,
            version: self.version@,
            description: self.description@,
            category: self.category@,
            params: self.params@.map_values(|p: ParamDef| p@),
            variants: self.variants@.map_values(|v: VariantDef| v@),
            material: opt_text(self.material),
            geometry: self.geometry@.map_values(|l: GeometryLevel| l@),
            massprops: self.massprops@,
            ports: self.ports@.map_values(|p: PortDef| p@),
            manufacturing: self.manufacturing@.map_values(|m: MfgMethodDef| m@),
        }
    }
}

// --------------------------------------------------------------------------------- variants

pub open spec fn variant_names(vs: Seq<VariantDefV>) -> Seq<Seq<char>> {
    vs.map_values(|v: VariantDefV| v.name)
}

pub open spec fn new_side(name: Seq<char>) -> VariantDefV {
    VariantDefV {
        name,
        options: seq!["left"@, "right"@],
        mirror_when: Some("right"@),
        mirror_plane: "xz"@,
    }
}

/// The variants without those named `name`.
pub open spec fn variants_without(vs: Seq<VariantDefV>, name: Seq<char>) -> Seq<VariantDefV>
    decreases vs.len(),
{
    if vs.len() == 0 {
        seq![]
    } else if vs[0].name == name {
        variants_without(vs.drop_first(), name)
    } else {
        seq![vs[0]] + variants_without(vs.drop_first(), name)
    }
}

/// Add a left and right choice, mirrored for the right; returns its name.
pub fn add_variant(def: &mut PrimitiveDef) -> (r: String)
    ensures
        fresh_name("side"@, variant_names(old(def)@.variants), r@),
        final(def)@ == (PrimitiveDefV { variants: old(def)@.variants.push(new_side(r@)), ..old(def)@ }),
{
    let mut taken: Vec<String> = Vec::new();
    let mut i: usize = 0;
    while i < def.variants.len()
        invariant
            0 <= i <= def.variants@.len(),
            texts(taken@) == variant_names(def@.variants).subrange(0, i as int),
        decreases def.variants@.len() - i,
    {
        let ghost before = texts(taken@);
        taken.push(def.variants[i].name.clone());
        proof {
            assert(variant_names(def@.variants).subrange(0, i + 1) =~= before.push(
                def.variants@[i as int].name@,
            ));
            assert(texts(taken@) =~= before.push(def.variants@[i as int].name@));
        }
        i += 1;
    }
    assert(variant_names(def@.variants).subrange(0, def.variants@.len() as int) =~= variant_names(
        def@.variants,
    ));
    let name = unique("side", &taken);
    let mut options: Vec<String> = Vec::new();
    options.push(string_from("left"));
    options.push(string_from("right"));
    let v = VariantDef {
        name: name.clone(),
        options,
        mirror_when: Some(string_from("right")),
        mirror_plane: string_from("xz"),
    };
    assert(v@.options =~= seq!["left"@, "right"@]);
    def.variants.push(v);
    assert(def@.variants =~= old(def)@.variants.push(new_side(name@)));
    name
}

/// Remove the variants named `name`.
pub fn remove_variant(def: &mut PrimitiveDef, name: &str)
    ensures
        final(def)@ == (PrimitiveDefV {
            variants: variants_without(old(def)@.variants, name@),
            ..old(def)@
        }),
{
    let ghost all = old(def)@.variants;
    let mut i: usize = 0;
    assert(def@.variants.subrange(0, 0) + def@.variants.subrange(0, def@.variants.len() as int) =~= all);
    while i < def.variants.len()
        invariant
            0 <= i <= def.variants@.len(),
            def@ == (PrimitiveDefV { variants: def@.variants, ..old(def)@ }),
            variants_without(all, name@) == def@.variants.subrange(0, i as int) + variants_without(
                def@.variants.subrange(i as int, def@.variants.len() as int),
                name@,
            ),
        decreases def.variants@.len() - i,
    {
        let ghost vs = def@.variants;
        let ghost rest = vs.subrange(i as int, vs.len() as int);
        assert(rest.drop_first() =~= vs.subrange(i + 1, vs.len() as int));
        if same_text(def.variants[i].name.as_str(), name) {
            def.variants.remove(i);
            proof {
                let nv = def@.variants;
                assert(nv.subrange(0, i as int) =~= vs.subrange(0, i as int));
                assert(nv.subrange(i as int, nv.len() as int) =~= rest.drop_first());
            }
        } else {
            i += 1;
            proof {
                assert(vs.subrange(0, i as int) =~= vs.subrange(0, i - 1).push(rest[0]));
                assert(vs.subrange(0, i - 1) + (seq![rest[0]] + variants_without(rest.drop_first(), name@))
                    =~= vs.subrange(0, i as int) + variants_without(rest.drop_first(), name@));
            }
        }
    }
    assert(def@.variants.subrange(0, i as int) =~= def@.variants);
    assert(def@.variants.subrange(i as int, def@.variants.len() as int) =~= Seq::<VariantDefV>::empty());
    assert(def@.variants + Seq::<VariantDefV>::empty() =~= def@.variants);
}

// --------------------------------------------------------------------------------- geometry

/// The names the features of a list are known by, in order.
pub open spec fn feature_names(fs: Seq<FeatureV>) -> Seq<Seq<char>>
    decreases fs.len(),
{
    if fs.len() == 0 {
        seq![]
    } else {
        match fs.last().name {
            Some(n) => feature_names(fs.drop_last()).push(n),
            None => feature_names(fs.drop_last()),
        }
    }
}

/// The names of the features of level `level` before position `index`: the bodies a boolean
/// there may name.
pub open spec fn bodies_before_spec(d: PrimitiveDefV, level: int, index: int) -> Seq<Seq<char>> {
    if 0 <= level < d.geometry.len() {
        let fs = d.geometry[level].features;
        feature_names(fs.subrange(0, if index < fs.len() { index } else { fs.len() as int }))
    } else {
        seq![]
    }
}

fn names_of_features(fs: &Vec<Feature>, upto: usize) -> (r: Vec<String>)
    requires
        upto <= fs@.len(),
    ensures
        texts(r@) == feature_names(features_view(fs@).subrange(0, upto as int)),
{
    let mut out: Vec<String> = Vec::new();
    let mut i: usize = 0;
    while i < upto
        invariant
            upto <= fs@.len(),
            0 <= i <= upto,
            texts(out@) == feature_names(features_view(fs@).subrange(0, i as int)),
        decreases upto - i,
    {
        let ghost before = texts(out@);
        proof {
            assert(features_view(fs@).subrange(0, i + 1).drop_last() =~= features_view(fs@).subrange(
                0,
                i as int,
            ));
        }
        match &fs[i].name {
            Some(n) => {
                out.push(n.clone());
                assert(texts(out@) =~= before.push(n@));
            },
            None => {},
        }
        i += 1;
    }
    out
}

/// The bodies a boolean at this position is allowed to name: the ones built before it.
pub fn bodies_before(def: &PrimitiveDef, level: usize, index: usize) -> (r: Vec<String>)
    ensures
        texts(r@) == bodies_before_spec(def@, level as int, index as int),
{
    if level < def.geometry.len() {
        let fs = &def.geometry[level].features;
        let upto = if index < fs.len() {
            index
        } else {
            fs.len()
        };
        names_of_features(fs, upto)
    } else {
        let r: Vec<String> = Vec::new();
        assert(texts(r@) =~= Seq::<Seq<char>>::empty());
        r
    }
}

/// The part with the features of level `level` replaced.
pub open spec fn with_features(d: PrimitiveDefV, level: int, fs: Seq<FeatureV>) -> PrimitiveDefV {
    PrimitiveDefV {
        geometry: d.geometry.update(level, GeometryLevelV { features: fs, ..d.geometry[level] }),
        ..d
    }
}

/// Remove a feature, when there is one at this position.
pub fn remove_feature(def: &mut PrimitiveDef, level: usize, index: usize)
    ensures
        final(def)@ == (if level < old(def)@.geometry.len() && index
            < old(def)@.geometry[level as int].features.len() {
            with_features(
                old(def)@,
                level as int,
                old(def)@.geometry[level as int].features.remove(index as int),
            )
        } else {
            old(def)@
        }),
{
    if level < def.geometry.len() && index < def.geometry[level].features.len() {
        let ghost d0 = def@;
        def.geometry[level].features.remove(index);
        proof {
            assert(def@.geometry[level as int].features =~= d0.geometry[level as int].features.remove(
                index as int,
            ));
            assert(def@.geometry =~= with_features(
                d0,
                level as int,
                d0.geometry[level as int].features.remove(index as int),
            ).geometry);
        }
    }
}

/// The features with positions `i` and `j` exchanged.
pub open spec fn swapped(fs: Seq<FeatureV>, i: int, j: int) -> Seq<FeatureV> {
    fs.update(i, fs[j]).update(j, fs[i])
}

/// `index` read as a signed number of the same width, as `as isize` reads it.
pub open spec fn as_signed(index: usize) -> int {
    if index <= isize::MAX {
        index as int
    } else {
        index - (usize::MAX + 1)
    }
}

/// Move a feature earlier or later by `delta` places; nothing happens when that would leave
/// the list. Order matters: a boolean can only name a body built before it. The target place
/// is worked out in `isize`, so an index beyond `isize::MAX` reads as negative.
#[verifier::spinoff_prover]
#[verifier::rlimit(40)]
pub fn move_feature(def: &mut PrimitiveDef, level: usize, index: usize, delta: isize)
    requires
        isize::MIN <= as_signed(index) + delta <= isize::MAX,
        level < old(def)@.geometry.len() && 0 <= as_signed(index) + delta < old(
            def,
        )@.geometry[level as int].features.len() ==> index < old(def)@.geometry[level as int].features.len(),
    ensures
        final(def)@ == (if level < old(def)@.geometry.len() && 0 <= as_signed(index) + delta
            < old(def)@.geometry[level as int].features.len() {
            with_features(
                old(def)@,
                level as int,
                swapped(old(def)@.geometry[level as int].features, index as int, as_signed(index) + delta),
            )
        } else {
            old(def)@
        }),
{
    if level >= def.geometry.len() {
        return;
    }
    let signed: i128 = if index <= isize::MAX as usize {
        index as i128
    } else {
        index as i128 - (usize::MAX as i128 + 1)
    };
    let target: i128 = signed + delta as i128;
    if target < 0 || target >= def.geometry[level].features.len() as i128 {
        return;
    }
    let t = target as usize;
    let ghost d0 = def@;
    let ghost fs0 = d0.geometry[level as int].features;
    assert(signed == as_signed(index));
    assert(t as int == as_signed(index) + delta);
    if t != index {
        let (lo, hi) = if t < index {
            (t, index)
        } else {
            (index, t)
        };
        let b = def.geometry[level].features.remove(hi);
        let a = def.geometry[level].features.remove(lo);
        let ghost av = a@;
        let ghost bv = b@;
        def.geometry[level].features.insert(lo, b);
        def.geometry[level].features.insert(hi, a);
        proof {
            assert(av == fs0[lo as int]);
            assert(bv == fs0[hi as int]);
            assert(def@.geometry[level as int].features =~= swapped(fs0, index as int, t as int));
        }
    } else {
        assert(swapped(fs0, index as int, t as int) =~= fs0);
    }
    assert(def@.geometry =~= with_features(
        d0,
        level as int,
        swapped(fs0, index as int, as_signed(index) + delta),
    ).geometry);
}

/// A name as it is stored: trimmed, and none when only whitespace was typed.
pub open spec fn name_entry(name: Seq<char>) -> Option<Seq<char>> {
    if trimmed(name).len() == 0 {
        None
    } else {
        Some(trimmed(name))
    }
}

/// Name a feature, or clear its name when only whitespace is given.
pub fn set_feature_name(def: &mut PrimitiveDef, level: usize, index: usize, name: &str)
    ensures
        final(def)@ == (if level < old(def)@.geometry.len() && index
            < old(def)@.geometry[level as int].features.len() {
            with_features(
                old(def)@,
                level as int,
                old(def)@.geometry[level as int].features.update(
                    index as int,
                    FeatureV {
                        name: name_entry(name@),
                        ..old(def)@.geometry[level as int].features[index as int]
                    },
                ),
            )
        } else {
            old(def)@
        }),
{
    if level < def.geometry.len() && index < def.geometry[level].features.len() {
        let ghost d0 = def@;
        let t = trim(name);
        let entry = if t.unicode_len() == 0 {
            None
        } else {
            Some(t)
        };
        def.geometry[level].features[index].name = entry;
        proof {
            assert(def@.geometry[level as int].features =~= d0.geometry[level as int].features.update(
                index as int,
                FeatureV { name: name_entry(name@), ..d0.geometry[level as int].features[index as int] },
            ));
            assert(def@.geometry =~= with_features(
                d0,
                level as int,
                d0.geometry[level as int].features.update(
                    index as int,
                    FeatureV {
                        name: name_entry(name@),
                        ..d0.geometry[level as int].features[index as int]
                    },
                ),
            ).geometry);
        }
    }
}

// ------------------------------------------------------------------------ named arguments

/// The position of the first argument named `k` at or after `i`.
pub open spec fn key_from(args: Seq<(Seq<char>, ExprV)>, k: Seq<char>, i: int) -> Option<int>
    decreases args.len() - i,
{
    if i < 0 || i >= args.len() {
        None
    } else if args[i].0 == k {
        Some(i)
    } else {
        key_from(args, k, i + 1)
    }
}

/// The position of the first argument named `k`.
pub open spec fn first_key(args: Seq<(Seq<char>, ExprV)>, k: Seq<char>) -> Option<int> {
    key_from(args, k, 0)
}

/// The arguments with `k` set to `v`: in place when it is there, at the end when not.
pub open spec fn args_set(args: Seq<(Seq<char>, ExprV)>, k: Seq<char>, v: ExprV) -> Seq<
    (Seq<char>, ExprV),
> {
    match first_key(args, k) {
        Some(i) => args.update(i, (k, v)),
        None => args.push((k, v)),
    }
}

/// The arguments without `k`, the rest keeping their order.
pub open spec fn args_remove(args: Seq<(Seq<char>, ExprV)>, k: Seq<char>) -> Seq<(Seq<char>, ExprV)> {
    match first_key(args, k) {
        Some(i) => args.remove(i),
        None => args,
    }
}

pub(crate) fn find_arg(args: &Vec<(String, Expr)>, k: &str) -> (r: Option<usize>)
    ensures
        match r {
            Some(i) => first_key(args_view(args@), k@) == Some(i as int) && i < args@.len(),
            None => first_key(args_view(args@), k@) is None,
        },
{
    let ghost av = args_view(args@);
    let mut i: usize = 0;
    while i < args.len()
        invariant
            av == args_view(args@),
            0 <= i <= args@.len(),
            key_from(av, k@, 0) == key_from(av, k@, i as int),
        decreases args@.len() - i,
    {
        if same_text(args[i].0.as_str(), k) {
            return Some(i);
        }
        i += 1;
    }
    None
}

/// Set `k` to `v`: in place when it is there, at the end when not.
pub(crate) fn set_arg(args: &mut Vec<(String, Expr)>, k: &str, v: Expr)
    ensures
        args_view(final(args)@) == args_set(args_view(old(args)@), k@, v@),
{
    let ghost v0 = v@;
    match find_arg(args, k) {
        Some(i) => {
            args.remove(i);
            args.insert(i, (string_from(k), v));
            assert(args_view(args@) =~= args_set(args_view(old(args)@), k@, v0));
        },
        None => {
            args.push((string_from(k), v));
            assert(args_view(args@) =~= args_set(args_view(old(args)@), k@, v0));
        },
    }
}

/// Remove `k`, the rest keeping their order.
pub(crate) fn remove_arg(args: &mut Vec<(String, Expr)>, k: &str)
    ensures
        args_view(final(args)@) == args_remove(args_view(old(args)@), k@),
{
    match find_arg(args, k) {
        Some(i) => {
            args.remove(i);
            assert(args_view(args@) =~= args_remove(args_view(old(args)@), k@));
        },
        None => {},
    }
}

/// What setting an argument to the typed `value` does: whitespace alone clears it.
pub open spec fn arg_entry(
    args: Seq<(Seq<char>, ExprV)>,
    k: Seq<char>,
    value: Seq<char>,
    units: Seq<Seq<char>>,
) -> Seq<(Seq<char>, ExprV)> {
    if trimmed(value).len() == 0 {
        args_remove(args, k)
    } else {
        args_set(args, k, text_expr_spec(value, units))
    }
}

/// Set one argument of a feature from typed text, or clear it when only whitespace is given.
pub fn set_feature_arg(
    def: &mut PrimitiveDef,
    level: usize,
    index: usize,
    key: &str,
    value: &str,
    units: &UnitSymbols,
)
    ensures
        final(def)@ == (if level < old(def)@.geometry.len() && index
            < old(def)@.geometry[level as int].features.len() {
            with_features(
                old(def)@,
                level as int,
                old(def)@.geometry[level as int].features.update(
                    index as int,
                    FeatureV {
                        args: arg_entry(
                            old(def)@.geometry[level as int].features[index as int].args,
                            key@,
                            value@,
                            units@,
                        ),
                        ..old(def)@.geometry[level as int].features[index as int]
                    },
                ),
            )
        } else {
            old(def)@
        }),
{
    if level < def.geometry.len() && index < def.geometry[level].features.len() {
        let ghost d0 = def@;
        let ghost f0 = d0.geometry[level as int].features[index as int];
        let t = trim(value);
        if t.unicode_len() == 0 {
            remove_arg(&mut def.geometry[level].features[index].args, key);
        } else {
            let e = text_expr(value, units);
            set_arg(&mut def.geometry[level].features[index].args, key, e);
        }
        proof {
            let nf = FeatureV { args: arg_entry(f0.args, key@, value@, units@), ..f0 };
            assert(def@.geometry[level as int].features[index as int] == nf);
            assert(def@.geometry[level as int].features =~= d0.geometry[level as int].features.update(
                index as int,
                nf,
            ));
            assert(def@.geometry =~= with_features(
                d0,
                level as int,
                d0.geometry[level as int].features.update(index as int, nf),
            ).geometry);
        }
    }
}

/// A union with no arguments: it fuses everything built before it.
pub open spec fn bare_union(f: FeatureV) -> bool {
    f.op == "union"@ && f.args.len() == 0
}

/// Where the first bare union at or after `i` is.
pub open spec fn bare_union_from(fs: Seq<FeatureV>, i: int) -> Option<int>
    decreases fs.len() - i,
{
    if i < 0 || i >= fs.len() {
        None
    } else if bare_union(fs[i]) {
        Some(i)
    } else {
        bare_union_from(fs, i + 1)
    }
}

/// Where the first bare union is.
pub open spec fn first_bare_union(fs: Seq<FeatureV>) -> Option<int> {
    bare_union_from(fs, 0)
}

pub proof fn lemma_bare_union_from(fs: Seq<FeatureV>, i: int)
    requires
        0 <= i,
    ensures
        match bare_union_from(fs, i) {
            Some(j) => i <= j < fs.len() && bare_union(fs[j]),
            None => forall|q: int| i <= q < fs.len() ==> !bare_union(#[trigger] fs[q]),
        },
    decreases fs.len() - i,
{
    if i < fs.len() && !bare_union(fs[i]) {
        lemma_bare_union_from(fs, i + 1);
    }
}

/// The starting arguments of a new feature: each argument that has a starting value, parsed.
pub open spec fn start_args(
    ks: Seq<(Seq<char>, Seq<char>, Seq<char>)>,
    units: Seq<Seq<char>>,
) -> Seq<(Seq<char>, ExprV)>
    decreases ks.len(),
{
    if ks.len() == 0 {
        seq![]
    } else {
        let prev = start_args(ks.drop_last(), units);
        let (k, _, start) = ks.last();
        if start.len() > 0 {
            args_set(prev, k, text_expr_spec(start, units))
        } else {
            prev
        }
    }
}

/// Where a new feature `op` goes: a trailing bare union stays last, because it consumes what
/// was built before it.
pub open spec fn insert_position(fs: Seq<FeatureV>, op: Seq<char>) -> int {
    match first_bare_union(fs) {
        Some(i) => if op != "union"@ {
            i
        } else {
            fs.len() as int
        },
        None => fs.len() as int,
    }
}

/// The feature added for operation `op` under the name `name`.
pub open spec fn new_feature(k: FeatureKindV, name: Seq<char>, units: Seq<Seq<char>>) -> FeatureV {
    FeatureV {
        op: k.op,
        name: if k.op == "union"@ && k.args.len() == 0 {
            None
        } else {
            Some(name)
        },
        args: start_args(k.args, units),
    }
}

fn feature_arg_starts(k: &FeatureKind, units: &UnitSymbols) -> (r: Vec<(String, Expr)>)
    ensures
        args_view(r@) == start_args(k@.args, units@),
{
    let mut out: Vec<(String, Expr)> = Vec::new();
    let mut i: usize = 0;
    while i < k.args.len()
        invariant
            0 <= i <= k.args@.len(),
            args_view(out@) == start_args(k@.args.subrange(0, i as int), units@),
        decreases k.args@.len() - i,
    {
        let (name, _, start) = k.args[i];
        proof {
            assert(k@.args.subrange(0, i + 1).drop_last() =~= k@.args.subrange(0, i as int));
        }
        if start.unicode_len() > 0 {
            let e = text_expr(start, units);
            set_arg(&mut out, name, e);
        }
        i += 1;
    }
    assert(k@.args.subrange(0, k.args@.len() as int) =~= k@.args);
    out
}

fn find_bare_union(fs: &Vec<Feature>) -> (r: Option<usize>)
    ensures
        match r {
            Some(i) => first_bare_union(features_view(fs@)) == Some(i as int) && i < fs@.len(),
            None => first_bare_union(features_view(fs@)) is None,
        },
{
    let ghost fv = features_view(fs@);
    let mut i: usize = 0;
    while i < fs.len()
        invariant
            fv == features_view(fs@),
            0 <= i <= fs@.len(),
            bare_union_from(fv, 0) == bare_union_from(fv, i as int),
        decreases fs@.len() - i,
    {
        if same_text(fs[i].op.as_str(), "union") && fs[i].args.len() == 0 {
            assert(bare_union(fv[i as int]));
            return Some(i);
        }
        i += 1;
    }
    None
}

/// Add a feature for operation `op` to geometry level `level`; returns where it went, or none
/// when the operation or the level is unknown.
pub fn add_feature(def: &mut PrimitiveDef, level: usize, op: &str, units: &UnitSymbols) -> (r: Option<usize>)
    ensures
        match r {
            None => (feature_spec(op@) is None || level >= old(def)@.geometry.len()) && final(def)@
                == old(def)@,
            Some(i) => {
                let fs = old(def)@.geometry[level as int].features;
                &&& feature_spec(op@) is Some
                &&& level < old(def)@.geometry.len()
                &&& i == insert_position(fs, op@)
                &&& exists|name: Seq<char>|
                    fresh_name(op@, feature_names(fs), name) && final(def)@ == with_features(
                        old(def)@,
                        level as int,
                        fs.insert(i as int, new_feature(feature_spec(op@)->0, name, units@)),
                    )
            },
        },
{
    let kind = match feature_kind(op) {
        Some(k) => k,
        None => {
            return None;
        },
    };
    if level >= def.geometry.len() {
        return None;
    }
    let ghost d0 = def@;
    let ghost fs0 = d0.geometry[level as int].features;
    let n = def.geometry[level].features.len();
    let taken = names_of_features(&def.geometry[level].features, n);
    assert(features_view(def.geometry@[level as int].features@).subrange(0, n as int) =~= fs0);
    let name = unique(op, &taken);
    let args = feature_arg_starts(&kind, units);
    let bare = same_text(op, "union") && kind.args.len() == 0;
    let fname = if bare {
        None
    } else {
        Some(name)
    };
    let feature = Feature { op: string_from(op), name: fname, args };
    assert(feature@ == new_feature(kind@, name@, units@));
    let at = match find_bare_union(&def.geometry[level].features) {
        Some(j) => if !same_text(op, "union") {
            j
        } else {
            n
        },
        None => n,
    };
    assert(at as int == insert_position(fs0, op@));
    def.geometry[level].features.insert(at, feature);
    proof {
        assert(def@.geometry[level as int].features =~= fs0.insert(
            at as int,
            new_feature(feature_spec(op@)->0, name@, units@),
        ));
        assert(def@.geometry =~= with_features(
            d0,
            level as int,
            fs0.insert(at as int, new_feature(feature_spec(op@)->0, name@, units@)),
        ).geometry);
    }
    Some(at)
}

/// A trailing union stays last: adding any other feature to a list that ends with a bare union
/// leaves that union at the end.
pub proof fn law_trailing_union_stays_last(fs: Seq<FeatureV>, op: Seq<char>, f: FeatureV)
    requires
        fs.len() > 0,
        bare_union(fs.last()),
        op != "union"@,
    ensures
        fs.insert(insert_position(fs, op), f).last() == fs.last(),
        insert_position(fs, op) < fs.len(),
{
    assert(bare_union(fs[fs.len() - 1]));
    lemma_bare_union_from(fs, 0);
    let i = first_bare_union(fs)->0;
    assert(0 <= i < fs.len());
}

// ------------------------------------------------------------------------- ports of a part

/// A direction from typed text: one of the named axes, or an expression.
pub open spec fn axis_entry(v: Seq<char>, units: Seq<Seq<char>>) -> AxisSpecV {
    let t = trimmed(v);
    if t == "x"@ || t == "y"@ || t == "z"@ || t == "-x"@ || t == "-y"@ || t == "-z"@ {
        AxisSpecV::Named(t)
    } else {
        AxisSpecV::Expr(text_expr_spec(t, units))
    }
}

/// A direction from typed text: one of the named axes, or an expression.
pub fn axis_from(v: &str, units: &UnitSymbols) -> (r: AxisSpec)
    ensures
        r@ == axis_entry(v@, units@),
{
    let t = trim(v);
    let ts = t.as_str();
    if same_text(ts, "x") || same_text(ts, "y") || same_text(ts, "z") || same_text(ts, "-x")
        || same_text(ts, "-y") || same_text(ts, "-z") {
        AxisSpec::Named(t)
    } else {
        AxisSpec::Expr(text_expr(ts, units))
    }
}

/// The position of the first port named `name` at or after `i`.
pub open spec fn port_from(ps: Seq<PortDefV>, name: Seq<char>, i: int) -> Option<int>
    decreases ps.len() - i,
{
    if i < 0 || i >= ps.len() {
        None
    } else if ps[i].name == name {
        Some(i)
    } else {
        port_from(ps, name, i + 1)
    }
}

fn find_port_def(ps: &Vec<PortDef>, name: &str) -> (r: Option<usize>)
    ensures
        match r {
            Some(i) => port_from(ps@.map_values(|p: PortDef| p@), name@, 0) == Some(i as int) && i
                < ps@.len(),
            None => port_from(ps@.map_values(|p: PortDef| p@), name@, 0) is None,
        },
{
    let ghost pv = ps@.map_values(|p: PortDef| p@);
    let mut i: usize = 0;
    while i < ps.len()
        invariant
            pv == ps@.map_values(|p: PortDef| p@),
            0 <= i <= ps@.len(),
            port_from(pv, name@, 0) == port_from(pv, name@, i as int),
        decreases ps@.len() - i,
    {
        if same_text(ps[i].name.as_str(), name) {
            return Some(i);
        }
        i += 1;
    }
    None
}

/// The part with port `i` replaced.
pub open spec fn with_port(d: PrimitiveDefV, i: int, p: PortDefV) -> PrimitiveDefV {
    PrimitiveDefV { ports: d.ports.update(i, p), ..d }
}

/// A port with one of its fields set from typed text. Setting the name to whitespace, or a
/// field that is not one of `name`, `at`, `axis` and `clock`, changes nothing.
pub open spec fn port_field_set(
    p: PortDefV,
    field: Seq<char>,
    value: Seq<char>,
    units: Seq<Seq<char>>,
) -> PortDefV {
    if field == "name"@ && trimmed(value).len() > 0 {
        PortDefV { name: trimmed(value), ..p }
    } else if field == "at"@ {
        PortDefV { at: text_expr_spec(value, units), ..p }
    } else if field == "axis"@ {
        PortDefV { axis: axis_entry(value, units), ..p }
    } else if field == "clock"@ {
        PortDefV {
            clock: if trimmed(value).len() == 0 {
                None
            } else {
                Some(axis_entry(value, units))
            },
            ..p
        }
    } else {
        p
    }
}

/// Set one field of the first port named `name` from typed text.
pub fn set_port_field(def: &mut PrimitiveDef, name: &str, field: &str, value: &str, units: &UnitSymbols)
    ensures
        final(def)@ == (match port_from(old(def)@.ports, name@, 0) {
            Some(i) => with_port(
                old(def)@,
                i,
                port_field_set(old(def)@.ports[i], field@, value@, units@),
            ),
            None => old(def)@,
        }),
{
    let i = match find_port_def(&def.ports, name) {
        Some(i) => i,
        None => {
            return;
        },
    };
    let ghost d0 = def@;
    if same_text(field, "name") && trim(value).unicode_len() > 0 {
        def.ports[i].name = trim(value);
    } else if same_text(field, "at") {
        def.ports[i].at = text_expr(value, units);
    } else if same_text(field, "axis") {
        def.ports[i].axis = axis_from(value, units);
    } else if same_text(field, "clock") {
        let c = if trim(value).unicode_len() == 0 {
            None
        } else {
            Some(axis_from(value, units))
        };
        def.ports[i].clock = c;
    }
    assert(def@.ports =~= d0.ports.update(
        i as int,
        port_field_set(d0.ports[i as int], field@, value@, units@),
    ));
}

/// Set one parameter of the first port named `name` from typed text, or clear it when only
/// whitespace is given.
pub fn set_port_param(def: &mut PrimitiveDef, name: &str, key: &str, value: &str, units: &UnitSymbols)
    ensures
        final(def)@ == (match port_from(old(def)@.ports, name@, 0) {
            Some(i) => with_port(
                old(def)@,
                i,
                PortDefV {
                    params: arg_entry(old(def)@.ports[i].params, key@, value@, units@),
                    ..old(def)@.ports[i]
                },
            ),
            None => old(def)@,
        }),
{
    let i = match find_port_def(&def.ports, name) {
        Some(i) => i,
        None => {
            return;
        },
    };
    let ghost d0 = def@;
    if trim(value).unicode_len() == 0 {
        remove_arg(&mut def.ports[i].params, key);
    } else {
        let e = text_expr(value, units);
        set_arg(&mut def.ports[i].params, key, e);
    }
    assert(def@.ports =~= d0.ports.update(
        i as int,
        PortDefV { params: arg_entry(d0.ports[i as int].params, key@, value@, units@), ..d0.ports[i as int] },
    ));
}

/// The fields a port of type `port_type` is offered, from the registry.
pub open spec fn wanted_slots(types: Seq<PortTypeDef>, port_type: Seq<char>) -> Seq<PortParamSlotV> {
    match type_named(types, port_type) {
        Some(i) => types[i].params@.map_values(|p: PortParamDef| slot_of(p)),
        None => seq![],
    }
}

/// The parameters of a port after its type changes: each one the new type wants, kept when the
/// port had it and started afresh when it did not, unless it is optional.
pub open spec fn retyped_params(
    old_params: Seq<(Seq<char>, ExprV)>,
    slots: Seq<PortParamSlotV>,
    units: Seq<Seq<char>>,
) -> Seq<(Seq<char>, ExprV)>
    decreases slots.len(),
{
    if slots.len() == 0 {
        seq![]
    } else {
        let prev = retyped_params(old_params, slots.drop_last(), units);
        let slot = slots.last();
        match first_key(old_params, slot.name) {
            Some(i) => args_set(prev, slot.name, old_params[i].1),
            None => if !slot.optional {
                args_set(prev, slot.name, text_expr_spec(slot.start, units))
            } else {
                prev
            },
        }
    }
}

/// Change the type of the first port named `name`, keeping any parameters the new type also
/// wants.
pub fn set_port_type(
    def: &mut PrimitiveDef,
    types: &Vec<PortTypeDef>,
    name: &str,
    port_type: &str,
    units: &UnitSymbols,
)
    ensures
        final(def)@ == (match port_from(old(def)@.ports, name@, 0) {
            Some(i) => with_port(
                old(def)@,
                i,
                PortDefV {
                    port_type: port_type@,
                    params: retyped_params(
                        old(def)@.ports[i].params,
                        wanted_slots(types@, port_type@),
                        units@,
                    ),
                    ..old(def)@.ports[i]
                },
            ),
            None => old(def)@,
        }),
{
    let wanted = port_type_params(types, port_type);
    let ghost slots = wanted@.map_values(|s: PortParamSlot| s@);
    assert(slots =~= wanted_slots(types@, port_type@));
    let i = match find_port_def(&def.ports, name) {
        Some(i) => i,
        None => {
            return;
        },
    };
    let ghost d0 = def@;
    let ghost olds = d0.ports[i as int].params;
    let mut params: Vec<(String, Expr)> = Vec::new();
    let mut k: usize = 0;
    while k < wanted.len()
        invariant
            d0 == def@,
            i < def.ports@.len(),
            olds == args_view(def.ports@[i as int].params@),
            slots == wanted@.map_values(|s: PortParamSlot| s@),
            0 <= k <= wanted@.len(),
            args_view(params@) == retyped_params(olds, slots.subrange(0, k as int), units@),
        decreases wanted@.len() - k,
    {
        proof {
            assert(slots.subrange(0, k + 1).drop_last() =~= slots.subrange(0, k as int));
            assert(slots.subrange(0, k + 1).last() == wanted@[k as int]@);
        }
        let slot = &wanted[k];
        match find_arg(&def.ports[i].params, slot.name.as_str()) {
            Some(j) => {
                let v = copy_expr(&def.ports[i].params[j].1);
                set_arg(&mut params, slot.name.as_str(), v);
            },
            None => {
                if !slot.optional {
                    let v = text_expr(slot.start.as_str(), units);
                    set_arg(&mut params, slot.name.as_str(), v);
                }
            },
        }
        k += 1;
    }
    assert(slots.subrange(0, wanted@.len() as int) =~= slots);
    def.ports[i].port_type = string_from(port_type);
    def.ports[i].params = params;
    assert(def@.ports =~= d0.ports.update(
        i as int,
        PortDefV {
            port_type: port_type@,
            params: retyped_params(olds, wanted_slots(types@, port_type@), units@),
            ..d0.ports[i as int]
        },
    ));
}

/// The ports without those named `name`.
pub open spec fn ports_without(ps: Seq<PortDefV>, name: Seq<char>) -> Seq<PortDefV>
    decreases ps.len(),
{
    if ps.len() == 0 {
        seq![]
    } else if ps[0].name == name {
        ports_without(ps.drop_first(), name)
    } else {
        seq![ps[0]] + ports_without(ps.drop_first(), name)
    }
}

/// Remove the ports named `name`.
pub fn remove_port(def: &mut PrimitiveDef, name: &str)
    ensures
        final(def)@ == (PrimitiveDefV { ports: ports_without(old(def)@.ports, name@), ..old(def)@ }),
{
    let ghost all = old(def)@.ports;
    let mut i: usize = 0;
    assert(def@.ports.subrange(0, 0) + def@.ports.subrange(0, def@.ports.len() as int) =~= all);
    while i < def.ports.len()
        invariant
            0 <= i <= def.ports@.len(),
            def@ == (PrimitiveDefV { ports: def@.ports, ..old(def)@ }),
            ports_without(all, name@) == def@.ports.subrange(0, i as int) + ports_without(
                def@.ports.subrange(i as int, def@.ports.len() as int),
                name@,
            ),
        decreases def.ports@.len() - i,
    {
        let ghost vs = def@.ports;
        let ghost rest = vs.subrange(i as int, vs.len() as int);
        assert(rest.drop_first() =~= vs.subrange(i + 1, vs.len() as int));
        if same_text(def.ports[i].name.as_str(), name) {
            def.ports.remove(i);
            proof {
                let nv = def@.ports;
                assert(nv.subrange(0, i as int) =~= vs.subrange(0, i as int));
                assert(nv.subrange(i as int, nv.len() as int) =~= rest.drop_first());
            }
        } else {
            i += 1;
            proof {
                assert(vs.subrange(0, i as int) =~= vs.subrange(0, i - 1).push(rest[0]));
                assert(vs.subrange(0, i - 1) + (seq![rest[0]] + ports_without(rest.drop_first(), name@))
                    =~= vs.subrange(0, i as int) + ports_without(rest.drop_first(), name@));
            }
        }
    }
    assert(def@.ports.subrange(0, i as int) =~= def@.ports);
    assert(def@.ports.subrange(i as int, def@.ports.len() as int) =~= Seq::<PortDefV>::empty());
    assert(def@.ports + Seq::<PortDefV>::empty() =~= def@.ports);
}

/// `s` with every `-` written as `_`.
pub open spec fn dashes_to_underscores(s: Seq<char>) -> Seq<char> {
    s.map_values(|c: char| if c == '-' { '_' } else { c })
}

/// The name a new port of type `port_type` starts from: the last dotted segment of the type,
/// with dashes written as underscores.
pub open spec fn port_base(port_type: Seq<char>) -> Seq<char> {
    dashes_to_underscores(split(port_type, Sep::Char('.')).last())
}

/// The parameters a new port starts with: every one its type requires, at its starting value.
pub open spec fn start_params(slots: Seq<PortParamSlotV>, units: Seq<Seq<char>>) -> Seq<
    (Seq<char>, ExprV),
>
    decreases slots.len(),
{
    if slots.len() == 0 {
        seq![]
    } else {
        let prev = start_params(slots.drop_last(), units);
        let slot = slots.last();
        if !slot.optional {
            args_set(prev, slot.name, text_expr_spec(slot.start, units))
        } else {
            prev
        }
    }
}

pub open spec fn port_names(ps: Seq<PortDefV>) -> Seq<Seq<char>> {
    ps.map_values(|p: PortDefV| p.name)
}

/// The port a part gets when a port of type `port_type` is added under `name`.
pub open spec fn new_port(
    name: Seq<char>,
    port_type: Seq<char>,
    types: Seq<PortTypeDef>,
    units: Seq<Seq<char>>,
) -> PortDefV {
    PortDefV {
        name,
        port_type,
        at: text_expr_spec("(0 mm, 0 mm, 0 mm)"@, units),
        axis: AxisSpecV::Named("z"@),
        clock: Some(AxisSpecV::Named("x"@)),
        params: start_params(wanted_slots(types, port_type), units),
    }
}

pub(crate) fn replace_dashes(s: &str) -> (r: String)
    ensures
        r@ == dashes_to_underscores(s@),
{
    let n = s.unicode_len();
    let mut out = String::new();
    let mut i: usize = 0;
    while i < n
        invariant
            n == s@.len(),
            0 <= i <= n,
            out@ == dashes_to_underscores(s@.subrange(0, i as int)),
        decreases n - i,
    {
        let c = s.get_char(i);
        let d = if c == '-' {
            '_'
        } else {
            c
        };
        push_char(&mut out, d);
        i += 1;
        assert(out@ =~= dashes_to_underscores(s@.subrange(0, i as int)));
    }
    assert(s@.subrange(0, n as int) =~= s@);
    out
}

fn names_of_ports(ps: &Vec<PortDef>) -> (r: Vec<String>)
    ensures
        texts(r@) == port_names(ps@.map_values(|p: PortDef| p@)),
{
    let mut out: Vec<String> = Vec::new();
    let mut i: usize = 0;
    while i < ps.len()
        invariant
            0 <= i <= ps@.len(),
            texts(out@) == port_names(ps@.map_values(|p: PortDef| p@)).subrange(0, i as int),
        decreases ps@.len() - i,
    {
        let ghost before = texts(out@);
        out.push(ps[i].name.clone());
        proof {
            assert(texts(out@) =~= before.push(ps@[i as int].name@));
            assert(port_names(ps@.map_values(|p: PortDef| p@)).subrange(0, i + 1) =~= before.push(
                ps@[i as int].name@,
            ));
        }
        i += 1;
    }
    assert(port_names(ps@.map_values(|p: PortDef| p@)).subrange(0, ps@.len() as int) =~= port_names(
        ps@.map_values(|p: PortDef| p@),
    ));
    out
}

/// Add a port of type `port_type`, carrying every parameter its type requires at a starting
/// value; returns its name.
pub fn add_port(def: &mut PrimitiveDef, types: &Vec<PortTypeDef>, port_type: &str, units: &UnitSymbols) -> (r: String)
    ensures
        fresh_name(port_base(port_type@), port_names(old(def)@.ports), r@),
        final(def)@ == (PrimitiveDefV {
            ports: old(def)@.ports.push(new_port(r@, port_type@, types@, units@)),
            ..old(def)@
        }),
{
    let taken = names_of_ports(&def.ports);
    let pieces = split_by(port_type, Sep::Char('.'));
    proof {
        lemma_split_nonempty(port_type@, Sep::Char('.'));
    }
    let last = pieces.len() - 1;
    let base = replace_dashes(pieces[last].as_str());
    let name = unique(base.as_str(), &taken);
    let wanted = port_type_params(types, port_type);
    let ghost slots = wanted@.map_values(|s: PortParamSlot| s@);
    assert(slots =~= wanted_slots(types@, port_type@));
    let mut params: Vec<(String, Expr)> = Vec::new();
    let mut k: usize = 0;
    while k < wanted.len()
        invariant
            slots == wanted@.map_values(|s: PortParamSlot| s@),
            0 <= k <= wanted@.len(),
            args_view(params@) == start_params(slots.subrange(0, k as int), units@),
        decreases wanted@.len() - k,
    {
        proof {
            assert(slots.subrange(0, k + 1).drop_last() =~= slots.subrange(0, k as int));
            assert(slots.subrange(0, k + 1).last() == wanted@[k as int]@);
        }
        if !wanted[k].optional {
            let v = text_expr(wanted[k].start.as_str(), units);
            set_arg(&mut params, wanted[k].name.as_str(), v);
        }
        k += 1;
    }
    assert(slots.subrange(0, wanted@.len() as int) =~= slots);
    let port = PortDef {
        name: name.clone(),
        port_type: string_from(port_type),
        at: text_expr("(0 mm, 0 mm, 0 mm)", units),
        axis: AxisSpec::Named(string_from("z")),
        clock: Some(AxisSpec::Named(string_from("x"))),
        params,
    };
    def.ports.push(port);
    assert(def@.ports =~= old(def)@.ports.push(new_port(name@, port_type@, types@, units@)));
    name
}

// ---------------------------------------------------------------------------- parameters

pub open spec fn param_names(ps: Seq<ParamDefV>) -> Seq<Seq<char>> {
    ps.map_values(|p: ParamDefV| p.name)
}

/// A parameter in millimetres with its starting value and limits, as typed.
pub open spec fn mm_param(
    name: Seq<char>,
    default: Seq<char>,
    min: Seq<char>,
    max: Seq<char>,
    doc: Option<Seq<char>>,
    units: Seq<Seq<char>>,
) -> ParamDefV {
    ParamDefV {
        name,
        unit: Some("mm"@),
        default: Some(text_expr_spec(default, units)),
        min: Some(text_expr_spec(min, units)),
        max: Some(text_expr_spec(max, units)),
        expr: None,
        doc,
    }
}

fn make_mm_param(
    name: &str,
    default: &str,
    min: &str,
    max: &str,
    doc: Option<&str>,
    units: &UnitSymbols,
) -> (r: ParamDef)
    ensures
        r@ == mm_param(
            name@,
            default@,
            min@,
            max@,
            match doc {
                Some(d) => Some(d@),
                None => None,
            },
            units@,
        ),
{
    ParamDef {
        name: string_from(name),
        unit: Some(string_from("mm")),
        default: Some(text_expr(default, units)),
        min: Some(text_expr(min, units)),
        max: Some(text_expr(max, units)),
        expr: None,
        doc: match doc {
            Some(d) => Some(string_from(d)),
            None => None,
        },
    }
}

fn names_of_params(ps: &Vec<ParamDef>) -> (r: Vec<String>)
    ensures
        texts(r@) == param_names(ps@.map_values(|p: ParamDef| p@)),
{
    let mut out: Vec<String> = Vec::new();
    let mut i: usize = 0;
    while i < ps.len()
        invariant
            0 <= i <= ps@.len(),
            texts(out@) == param_names(ps@.map_values(|p: ParamDef| p@)).subrange(0, i as int),
        decreases ps@.len() - i,
    {
        let ghost before = texts(out@);
        out.push(ps[i].name.clone());
        proof {
            assert(texts(out@) =~= before.push(ps@[i as int].name@));
            assert(param_names(ps@.map_values(|p: ParamDef| p@)).subrange(0, i + 1) =~= before.push(
                ps@[i as int].name@,
            ));
        }
        i += 1;
    }
    assert(param_names(ps@.map_values(|p: ParamDef| p@)).subrange(0, ps@.len() as int) =~= param_names(
        ps@.map_values(|p: ParamDef| p@),
    ));
    out
}

/// Add a new dimension in millimetres; returns its name.
pub fn add_param(def: &mut PrimitiveDef, units: &UnitSymbols) -> (r: String)
    ensures
        fresh_name("new_dimension"@, param_names(old(def)@.params), r@),
        final(def)@ == (PrimitiveDefV {
            params: old(def)@.params.push(
                mm_param(r@, "100 mm"@, "1 mm"@, "1000 mm"@, None, units@),
            ),
            ..old(def)@
        }),
{
    let taken = names_of_params(&def.params);
    let name = unique("new_dimension", &taken);
    let p = make_mm_param(name.as_str(), "100 mm", "1 mm", "1000 mm", None, units);
    def.params.push(p);
    assert(def@.params =~= old(def)@.params.push(
        mm_param(name@, "100 mm"@, "1 mm"@, "1000 mm"@, None, units@),
    ));
    name
}

// ------------------------------------------------------------------------------ a new part

/// The category of a new part: the first `/` segment of its id.
pub open spec fn category_of(id: Seq<char>) -> Seq<char> {
    split(id, Sep::Char('/'))[0]
}

/// A new, empty part to start from, as its view.
///
/// It arrives with three dimensions, one box and no ports, because an empty part builds nothing
/// and looks broken. A box with a length is something you can immediately see and drag.
pub open spec fn new_part(id: Seq<char>, units: Seq<Seq<char>>) -> PrimitiveDefV {
    PrimitiveDefV {
        id,
        version: "0.1.0"@,
        description: seq![],
        category: category_of(id),
        params: seq![
            mm_param("length"@, "200 mm"@, "20 mm"@, "2000 mm"@, Some("overall length"@), units),
            mm_param("width"@, "60 mm"@, "5 mm"@, "1000 mm"@, Some("overall width"@), units),
            mm_param("height"@, "40 mm"@, "5 mm"@, "1000 mm"@, Some("overall height"@), units),
        ],
        variants: seq![],
        material: Some("steel/s355-plate"@),
        geometry: seq![
            GeometryLevelV {
                level: "manufacture"@,
                features: seq![
                    FeatureV {
                        op: "box"@,
                        name: Some("body"@),
                        args: args_set(
                            args_set(
                                seq![],
                                "size"@,
                                text_expr_spec("(length, width, height)"@, units),
                            ),
                            "at"@,
                            text_expr_spec("(0 mm, 0 mm, 0 mm)"@, units),
                        ),
                    },
                ],
            },
        ],
        massprops: MassPropsDefV::Computed,
        ports: seq![],
        manufacturing: seq![
            MfgMethodDefV { method: "machined"@, scale: Some("1..*"@), exports: seq!["step"@] },
        ],
    }
}

/// A new, empty part to start from.
pub fn new_primitive(id: &str, units: &UnitSymbols) -> (r: PrimitiveDef)
    ensures
        r@ == new_part(id@, units@),
{
    let pieces = split_by(id, Sep::Char('/'));
    proof {
        lemma_split_nonempty(id@, Sep::Char('/'));
    }
    let category = pieces[0].clone();
    let mut params: Vec<ParamDef> = Vec::new();
    params.push(make_mm_param("length", "200 mm", "20 mm", "2000 mm", Some("overall length"), units));
    params.push(make_mm_param("width", "60 mm", "5 mm", "1000 mm", Some("overall width"), units));
    params.push(make_mm_param("height", "40 mm", "5 mm", "1000 mm", Some("overall height"), units));
    let mut args: Vec<(String, Expr)> = Vec::new();
    assert(args_view(args@) =~= Seq::<(Seq<char>, ExprV)>::empty());
    set_arg(&mut args, "size", text_expr("(length, width, height)", units));
    set_arg(&mut args, "at", text_expr("(0 mm, 0 mm, 0 mm)", units));
    let ghost av = args_view(args@);
    assert(av == args_set(
        args_set(seq![], "size"@, text_expr_spec("(length, width, height)"@, units@)),
        "at"@,
        text_expr_spec("(0 mm, 0 mm, 0 mm)"@, units@),
    ));
    let mut features: Vec<Feature> = Vec::new();
    features.push(Feature { op: string_from("box"), name: Some(string_from("body")), args });
    let mut geometry: Vec<GeometryLevel> = Vec::new();
    geometry.push(GeometryLevel { level: string_from("manufacture"), features });
    let mut exports: Vec<String> = Vec::new();
    exports.push(string_from("step"));
    let mut manufacturing: Vec<MfgMethodDef> = Vec::new();
    manufacturing.push(
        MfgMethodDef {
            method: string_from("machined"),
            scale: Some(string_from("1..*")),
            exports,
        },
    );
    let r = PrimitiveDef {
        id: string_from(id),
        version: string_from("0.1.0"),
        description: String::new(),
        category,
        params,
        variants: Vec::new(),
        material: Some(string_from("steel/s355-plate")),
        geometry,
        massprops: MassPropsDef::Computed,
        ports: Vec::new(),
        manufacturing,
    };
    proof {
        let v = r@;
        let w = new_part(id@, units@);
        assert(v.params =~= w.params);
        assert(v.variants =~= w.variants);
        assert(v.geometry[0].features =~= w.geometry[0].features);
        assert(v.geometry =~= w.geometry);
        assert(v.ports =~= w.ports);
        assert(v.manufacturing[0].exports =~= w.manufacturing[0].exports);
        assert(v.manufacturing =~= w.manufacturing);
    }
    r
}

// ------------------------------------------------------------------ where a parameter is used

/// Texts in strictly increasing order: sorted, each once.
pub open spec fn strictly_sorted(v: Seq<Seq<char>>) -> bool {
    forall|i: int, j: int| 0 <= i < j < v.len() ==> text_less(#[trigger] v[i], #[trigger] v[j])
}

/// Add `s` to a sorted list of texts, unless it is there already.
fn insert_sorted(out: &mut Vec<String>, s: String)
    requires
        strictly_sorted(texts(old(out)@)),
    ensures
        strictly_sorted(texts(final(out)@)),
        forall|x: Seq<char>| #[trigger] texts(final(out)@).contains(x) <==> (texts(old(out)@).contains(x) || x == s@),
{
    let ghost v0 = texts(out@);
    let mut i: usize = 0;
    while i < out.len() && less_text(out[i].as_str(), s.as_str())
        invariant
            v0 == texts(out@),
            0 <= i <= out@.len(),
            forall|j: int| 0 <= j < i ==> text_less(#[trigger] v0[j], s@),
        decreases out@.len() - i,
    {
        i += 1;
    }
    if i < out.len() && same_text(out[i].as_str(), s.as_str()) {
        assert(v0[i as int] == s@);
        return;
    }
    let ghost sv = s@;
    proof {
        if i < v0.len() {
            lemma_text_less_total(v0[i as int], sv);
            assert(text_less(sv, v0[i as int]));
        }
    }
    out.insert(i, s);
    proof {
        let v1 = texts(out@);
        assert(v1 =~= v0.insert(i as int, sv));
        assert forall|a: int, b: int| 0 <= a < b < v1.len() implies text_less(#[trigger] v1[a], #[trigger] v1[b]) by {
            if b < i {
            } else if a < i && b == i {
            } else if a < i && b > i {
                assert(v1[b] == v0[b - 1]);
                if b - 1 > i {
                    lemma_text_less_transitive(sv, v0[i as int], v0[b - 1]);
                }
                lemma_text_less_transitive(v0[a], sv, v0[b - 1]);
            } else if a == i {
                assert(v1[b] == v0[b - 1]);
                if b - 1 > i {
                    lemma_text_less_transitive(sv, v0[i as int], v0[b - 1]);
                }
            } else {
                assert(v1[a] == v0[a - 1] && v1[b] == v0[b - 1]);
            }
        }
        assert forall|x: Seq<char>| #[trigger] v1.contains(x) <==> (v0.contains(x) || x == sv) by {
            if v1.contains(x) {
                let k = choose|k: int| 0 <= k < v1.len() && v1[k] == x;
                if k < i {
                    assert(v0[k] == x);
                } else if k > i {
                    assert(v0[k - 1] == x);
                }
            }
            if v0.contains(x) {
                let k = choose|k: int| 0 <= k < v0.len() && v0[k] == x;
                if k < i {
                    assert(v1[k] == x);
                } else {
                    assert(v1[k + 1] == x);
                }
            }
            if x == sv {
                assert(v1[i as int] == x);
            }
        }
    }
}

/// The expression a parameter holds in field `w`: its default, minimum, maximum or derivation.
pub open spec fn field_of(p: ParamDefV, w: int) -> Option<ExprV> {
    if w == 0 {
        p.default
    } else if w == 1 {
        p.min
    } else if w == 2 {
        p.max
    } else {
        p.expr
    }
}

pub open spec fn field_label(w: int) -> Seq<char> {
    if w == 0 {
        "default"@
    } else if w == 1 {
        "min"@
    } else if w == 2 {
        "max"@
    } else {
        "expr"@
    }
}

/// Another parameter reads `name` in its field `w`.
pub open spec fn param_reads(p: ParamDefV, w: int, name: Seq<char>) -> bool {
    p.name != name && field_of(p, w) is Some && mentions(field_of(p, w)->0, name)
}

pub open spec fn param_use_text(p: ParamDefV, w: int) -> Seq<char> {
    "parameter "@ + p.name + " ("@ + field_label(w) + ")"@
}

pub open spec fn feature_use_text(f: FeatureV, a: int) -> Seq<char> {
    f.op + " "@ + (match f.name {
        Some(n) => n,
        None => seq![],
    }) + " ("@ + f.args[a].0 + ")"@
}

pub open spec fn port_at_text(p: PortDefV) -> Seq<char> {
    "port "@ + p.name + " (at)"@
}

pub open spec fn port_param_text(p: PortDefV, a: int) -> Seq<char> {
    "port "@ + p.name + " ("@ + p.params[a].0 + ")"@
}

pub open spec fn feature_reads(d: PrimitiveDefV, l: int, f: int, a: int, name: Seq<char>) -> bool {
    &&& 0 <= l < d.geometry.len()
    &&& 0 <= f < d.geometry[l].features.len()
    &&& 0 <= a < d.geometry[l].features[f].args.len()
    &&& mentions(d.geometry[l].features[f].args[a].1, name)
}

pub open spec fn port_param_reads(d: PrimitiveDefV, i: int, a: int, name: Seq<char>) -> bool {
    &&& 0 <= i < d.ports.len()
    &&& 0 <= a < d.ports[i].params.len()
    &&& mentions(d.ports[i].params[a].1, name)
}

/// `s` describes a place in the part, other than the parameter itself, that reads `name`.
pub open spec fn is_use(d: PrimitiveDefV, name: Seq<char>, s: Seq<char>) -> bool {
    ||| exists|i: int, w: int|
        0 <= i < d.params.len() && 0 <= w < 4 && param_reads(d.params[i], w, name) && s
            == param_use_text(d.params[i], w)
    ||| exists|l: int, f: int, a: int|
        feature_reads(d, l, f, a, name) && s == feature_use_text(d.geometry[l].features[f], a)
    ||| exists|i: int| 0 <= i < d.ports.len() && mentions(d.ports[i].at, name) && s == port_at_text(d.ports[i])
    ||| exists|i: int, a: int| port_param_reads(d, i, a, name) && s == port_param_text(d.ports[i], a)
    ||| (d.massprops matches MassPropsDefV::Declared { mass, cg } && mentions(mass, name) && s
        == "declared mass"@)
    ||| (d.massprops matches MassPropsDefV::Declared { mass, cg } && cg is Some && mentions(
        cg->0,
        name,
    ) && s == "declared centre of gravity"@)
}

pub open spec fn sound(out: Seq<Seq<char>>, d: PrimitiveDefV, name: Seq<char>) -> bool {
    forall|x: Seq<char>| #[trigger] out.contains(x) ==> is_use(d, name, x)
}

pub open spec fn params_done(out: Seq<Seq<char>>, d: PrimitiveDefV, name: Seq<char>, n: int) -> bool {
    forall|i: int, w: int|
        0 <= i < n && 0 <= w < 4 && #[trigger] param_reads(d.params[i], w, name) ==> out.contains(
            param_use_text(d.params[i], w),
        )
}

pub open spec fn features_done(
    out: Seq<Seq<char>>,
    d: PrimitiveDefV,
    name: Seq<char>,
    l: int,
    f: int,
    a: int,
) -> bool {
    forall|l2: int, f2: int, a2: int|
        #[trigger] feature_reads(d, l2, f2, a2, name) && (l2 < l || (l2 == l && (f2 < f || (f2 == f
            && a2 < a)))) ==> out.contains(feature_use_text(d.geometry[l2].features[f2], a2))
}

pub open spec fn ports_done(out: Seq<Seq<char>>, d: PrimitiveDefV, name: Seq<char>, i: int, a: int) -> bool {
    &&& forall|i2: int|
        0 <= i2 < i && mentions(#[trigger] d.ports[i2].at, name) ==> out.contains(
            port_at_text(d.ports[i2]),
        )
    &&& forall|i2: int, a2: int|
        #[trigger] port_param_reads(d, i2, a2, name) && (i2 < i || (i2 == i && a2 < a))
            ==> out.contains(port_param_text(d.ports[i2], a2))
}

fn param_use_line(p: &ParamDef, label: &str) -> (r: String)
    ensures
        r@ == "parameter "@ + p.name@ + " ("@ + label@ + ")"@,
{
    let mut s = concat("parameter ", p.name.as_str());
    s.append(" (");
    s.append(label);
    s.append(")");
    s
}

fn field_mentions(o: &Option<Expr>, name: &str) -> (r: bool)
    ensures
        r == (opt_expr(*o) is Some && mentions(opt_expr(*o)->0, name@)),
{
    match o {
        Some(e) => expr_mentions(e, name),
        None => false,
    }
}

/// Everywhere a parameter name appears in the rest of the part, each place once, in order.
pub fn param_uses(def: &PrimitiveDef, name: &str) -> (r: Vec<String>)
    ensures
        strictly_sorted(texts(r@)),
        forall|x: Seq<char>| #[trigger] texts(r@).contains(x) <==> is_use(def@, name@, x),
{
    let ghost d = def@;
    let mut out: Vec<String> = Vec::new();
    // the other parameters
    let mut i: usize = 0;
    while i < def.params.len()
        invariant
            d == def@,
            0 <= i <= def.params@.len(),
            strictly_sorted(texts(out@)),
            sound(texts(out@), d, name@),
            params_done(texts(out@), d, name@, i as int),
        decreases def.params@.len() - i,
    {
        let p = &def.params[i];
        if !same_text(p.name.as_str(), name) {
            let mut w: usize = 0;
            while w < 4
                invariant
                    d == def@,
                    i < def.params@.len(),
                    *p == def.params@[i as int],
                    p.name@ != name@,
                    0 <= w <= 4,
                    strictly_sorted(texts(out@)),
                    sound(texts(out@), d, name@),
                    params_done(texts(out@), d, name@, i as int),
                    forall|w2: int|
                        0 <= w2 < w && #[trigger] param_reads(d.params[i as int], w2, name@) ==> texts(
                            out@,
                        ).contains(param_use_text(d.params[i as int], w2)),
                decreases 4 - w,
            {
                let (field, label) = if w == 0 {
                    (&p.default, "default")
                } else if w == 1 {
                    (&p.min, "min")
                } else if w == 2 {
                    (&p.max, "max")
                } else {
                    (&p.expr, "expr")
                };
                assert(opt_expr(*field) == field_of(d.params[i as int], w as int));
                assert(label@ == field_label(w as int));
                if field_mentions(field, name) {
                    let line = param_use_line(p, label);
                    assert(d.params[i as int] == p@);
                    assert(line@ == param_use_text(d.params[i as int], w as int));
                    assert(param_reads(d.params[i as int], w as int, name@));
                    assert(0 <= i < d.params.len() && 0 <= w < 4 && param_reads(d.params[i as int], w as int, name@) && line@
                        == param_use_text(d.params[i as int], w as int));
                    assert(is_use(d, name@, line@));
                    insert_sorted(&mut out, line);
                }
                w += 1;
            }
        }
        i += 1;
    }
    // the arguments of the geometry features
    let mut l: usize = 0;
    while l < def.geometry.len()
        invariant
            d == def@,
            0 <= l <= def.geometry@.len(),
            strictly_sorted(texts(out@)),
            sound(texts(out@), d, name@),
            params_done(texts(out@), d, name@, d.params.len() as int),
            features_done(texts(out@), d, name@, l as int, 0, 0),
        decreases def.geometry@.len() - l,
    {
        let fs = &def.geometry[l].features;
        let mut f: usize = 0;
        while f < fs.len()
            invariant
                d == def@,
                l < def.geometry@.len(),
                *fs == def.geometry@[l as int].features,
                0 <= f <= fs@.len(),
                strictly_sorted(texts(out@)),
                sound(texts(out@), d, name@),
                params_done(texts(out@), d, name@, d.params.len() as int),
                features_done(texts(out@), d, name@, l as int, f as int, 0),
            decreases fs@.len() - f,
        {
            let ft = &fs[f];
            let mut a: usize = 0;
            while a < ft.args.len()
                invariant
                    d == def@,
                    l < def.geometry@.len(),
                    f < def.geometry@[l as int].features@.len(),
                    *ft == def.geometry@[l as int].features@[f as int],
                    0 <= a <= ft.args@.len(),
                    strictly_sorted(texts(out@)),
                    sound(texts(out@), d, name@),
                    params_done(texts(out@), d, name@, d.params.len() as int),
                    features_done(texts(out@), d, name@, l as int, f as int, a as int),
                decreases ft.args@.len() - a,
            {
                if expr_mentions(&ft.args[a].1, name) {
                    let mut line = string_from(ft.op.as_str());
                    line.append(" ");
                    match &ft.name {
                        Some(n) => line.append(n.as_str()),
                        None => {},
                    }
                    line.append(" (");
                    line.append(ft.args[a].0.as_str());
                    line.append(")");
                    assert(line@ == feature_use_text(d.geometry[l as int].features[f as int], a as int));
                    assert(feature_reads(d, l as int, f as int, a as int, name@));
                    assert(is_use(d, name@, line@));
                    insert_sorted(&mut out, line);
                }
                a += 1;
            }
            f += 1;
        }
        l += 1;
    }
    // the ports
    let mut i: usize = 0;
    while i < def.ports.len()
        invariant
            d == def@,
            0 <= i <= def.ports@.len(),
            strictly_sorted(texts(out@)),
            sound(texts(out@), d, name@),
            params_done(texts(out@), d, name@, d.params.len() as int),
            features_done(texts(out@), d, name@, d.geometry.len() as int, 0, 0),
            ports_done(texts(out@), d, name@, i as int, 0),
        decreases def.ports@.len() - i,
    {
        let p = &def.ports[i];
        if expr_mentions(&p.at, name) {
            let mut line = concat("port ", p.name.as_str());
            line.append(" (at)");
            assert(line@ == port_at_text(d.ports[i as int]));
            assert(is_use(d, name@, line@));
            insert_sorted(&mut out, line);
        }
        let mut a: usize = 0;
        while a < p.params.len()
            invariant
                d == def@,
                i < def.ports@.len(),
                *p == def.ports@[i as int],
                0 <= a <= p.params@.len(),
                strictly_sorted(texts(out@)),
                sound(texts(out@), d, name@),
                params_done(texts(out@), d, name@, d.params.len() as int),
                features_done(texts(out@), d, name@, d.geometry.len() as int, 0, 0),
                ports_done(texts(out@), d, name@, i as int, a as int),
                mentions(d.ports[i as int].at, name@) ==> texts(out@).contains(port_at_text(d.ports[i as int])),
            decreases p.params@.len() - a,
        {
            if expr_mentions(&p.params[a].1, name) {
                let mut line = concat("port ", p.name.as_str());
                line.append(" (");
                line.append(p.params[a].0.as_str());
                line.append(")");
                assert(line@ == port_param_text(d.ports[i as int], a as int));
                assert(port_param_reads(d, i as int, a as int, name@));
                assert(is_use(d, name@, line@));
                insert_sorted(&mut out, line);
            }
            a += 1;
        }
        i += 1;
    }
    // a declared mass
    match &def.massprops {
        MassPropsDef::Declared { mass, cg } => {
            if expr_mentions(mass, name) {
                let line = string_from("declared mass");
                assert(is_use(d, name@, line@));
                insert_sorted(&mut out, line);
            }
            if field_mentions(cg, name) {
                let line = string_from("declared centre of gravity");
                assert(is_use(d, name@, line@));
                insert_sorted(&mut out, line);
            }
        },
        MassPropsDef::Computed => {},
    }
    proof {
        let v = texts(out@);
        assert forall|x: Seq<char>| is_use(d, name@, x) implies #[trigger] v.contains(x) by {
            if exists|i: int, w: int|
                0 <= i < d.params.len() && 0 <= w < 4 && param_reads(d.params[i], w, name@) && x
                    == param_use_text(d.params[i], w) {
                let (i, w) = choose|i: int, w: int|
                    0 <= i < d.params.len() && 0 <= w < 4 && param_reads(d.params[i], w, name@) && x
                        == param_use_text(d.params[i], w);
                assert(param_reads(d.params[i], w, name@));
            }
            if exists|l: int, f: int, a: int|
                feature_reads(d, l, f, a, name@) && x == feature_use_text(d.geometry[l].features[f], a) {
                let (l, f, a) = choose|l: int, f: int, a: int|
                    feature_reads(d, l, f, a, name@) && x == feature_use_text(
                        d.geometry[l].features[f],
                        a,
                    );
                assert(feature_reads(d, l, f, a, name@));
            }
            if exists|i: int, a: int| port_param_reads(d, i, a, name@) && x == port_param_text(d.ports[i], a) {
                let (i, a) = choose|i: int, a: int|
                    port_param_reads(d, i, a, name@) && x == port_param_text(d.ports[i], a);
                assert(port_param_reads(d, i, a, name@));
            }
            if exists|i: int| 0 <= i < d.ports.len() && mentions(d.ports[i].at, name@) && x == port_at_text(d.ports[i]) {
                let i = choose|i: int| 0 <= i < d.ports.len() && mentions(d.ports[i].at, name@) && x == port_at_text(d.ports[i]);
                assert(mentions(d.ports[i].at, name@));
            }
        }
    }
    out
}

/// The parameters without those named `name`.
pub open spec fn params_without(ps: Seq<ParamDefV>, name: Seq<char>) -> Seq<ParamDefV>
    decreases ps.len(),
{
    if ps.len() == 0 {
        seq![]
    } else if ps[0].name == name {
        params_without(ps.drop_first(), name)
    } else {
        seq![ps[0]] + params_without(ps.drop_first(), name)
    }
}

/// Remove a parameter, unless something still refers to it.
///
/// Returns the places that still use it. Deleting a parameter a geometry feature depends on
/// produces a part that will not resolve, and the failure appears far from the cause, so it is
/// refused instead.
pub fn remove_param(def: &mut PrimitiveDef, name: &str) -> (r: Result<(), Vec<String>>)
    ensures
        match r {
            Err(uses) => {
                &&& texts(uses@).len() > 0
                &&& strictly_sorted(texts(uses@))
                &&& forall|x: Seq<char>| #[trigger] texts(uses@).contains(x) <==> is_use(old(def)@, name@, x)
                &&& final(def)@ == old(def)@
            },
            Ok(()) => {
                &&& forall|x: Seq<char>| !is_use(old(def)@, name@, x)
                &&& final(def)@ == (PrimitiveDefV {
                    params: params_without(old(def)@.params, name@),
                    ..old(def)@
                })
            },
        },
{
    let uses = param_uses(def, name);
    if uses.len() > 0 {
        return Err(uses);
    }
    proof {
        assert forall|x: Seq<char>| !is_use(old(def)@, name@, x) by {
            if is_use(old(def)@, name@, x) {
                assert(texts(uses@).contains(x));
            }
        }
    }
    let ghost all = old(def)@.params;
    let mut i: usize = 0;
    assert(def@.params.subrange(0, 0) + def@.params.subrange(0, def@.params.len() as int) =~= all);
    while i < def.params.len()
        invariant
            0 <= i <= def.params@.len(),
            def@ == (PrimitiveDefV { params: def@.params, ..old(def)@ }),
            params_without(all, name@) == def@.params.subrange(0, i as int) + params_without(
                def@.params.subrange(i as int, def@.params.len() as int),
                name@,
            ),
        decreases def.params@.len() - i,
    {
        let ghost vs = def@.params;
        let ghost rest = vs.subrange(i as int, vs.len() as int);
        assert(rest.drop_first() =~= vs.subrange(i + 1, vs.len() as int));
        if same_text(def.params[i].name.as_str(), name) {
            def.params.remove(i);
            proof {
                let nv = def@.params;
                assert(nv.subrange(0, i as int) =~= vs.subrange(0, i as int));
                assert(nv.subrange(i as int, nv.len() as int) =~= rest.drop_first());
            }
        } else {
            i += 1;
            proof {
                assert(vs.subrange(0, i as int) =~= vs.subrange(0, i - 1).push(rest[0]));
                assert(vs.subrange(0, i - 1) + (seq![rest[0]] + params_without(rest.drop_first(), name@))
                    =~= vs.subrange(0, i as int) + params_without(rest.drop_first(), name@));
            }
        }
    }
    assert(def@.params.subrange(0, i as int) =~= def@.params);
    assert(def@.params.subrange(i as int, def@.params.len() as int) =~= Seq::<ParamDefV>::empty());
    assert(def@.params + Seq::<ParamDefV>::empty() =~= def@.params);
    Ok(())
}

} // verus!
