//! What a library directory holds: which files are definitions, and whether a definition's id
//! matches where it lives. Reading the files is the application's work.

use vstd::prelude::*;

use crate::text::{chars_of, concat, decimal, decimal_text, push_char, same_text, string_of};

verus! {

/// What a definition file defines, by its name.
#[derive(Debug, Clone, Copy, PartialEq, Eq, Structural)]
pub enum FileKind {
    Primitive,
    Assembly,
    Chassis,
}

/// `s` ends with `suf`.
pub open spec fn ends_with(s: Seq<char>, suf: Seq<char>) -> bool {
    s.len() >= suf.len() && s.subrange(s.len() - suf.len(), s.len() as int) == suf
}

/// What a file of this name defines: `.prim.kdl` a primitive, `.asm.kdl` or `.veh.kdl` an
/// assembly, `.chassis.kdl` a chassis system; any other file is not a definition.
pub open spec fn kind_of(name: Seq<char>) -> Option<FileKind> {
    if ends_with(name, ".prim.kdl"@) {
        Some(FileKind::Primitive)
    } else if ends_with(name, ".asm.kdl"@) || ends_with(name, ".veh.kdl"@) {
        Some(FileKind::Assembly)
    } else if ends_with(name, ".chassis.kdl"@) {
        Some(FileKind::Chassis)
    } else {
        None
    }
}

fn ends_with_text(s: &Vec<char>, suf: &str) -> (r: bool)
    ensures
        r == ends_with(s@, suf@),
{
    let t = chars_of(suf);
    let n = s.len();
    let m = t.len();
    if n < m {
        return false;
    }
    let mut i: usize = 0;
    while i < m
        invariant
            n == s@.len(),
            m == t@.len(),
            t@ == suf@,
            m <= n,
            i <= m,
            forall|j: int| 0 <= j < i ==> s@[n - m + j] == t@[j],
        decreases m - i,
    {
        if s[n - m + i] != t[i] {
            assert(s@.subrange(n - m, n as int)[i as int] != suf@[i as int]);
            return false;
        }
        i += 1;
    }
    assert(s@.subrange(n - m, n as int) =~= suf@);
    true
}

/// What a file of this name defines, if it is a definition.
pub fn file_kind(name: &str) -> (r: Option<FileKind>)
    ensures
        r == kind_of(name@),
{
    let cs = chars_of(name);
    if ends_with_text(&cs, ".prim.kdl") {
        Some(FileKind::Primitive)
    } else if ends_with_text(&cs, ".asm.kdl") || ends_with_text(&cs, ".veh.kdl") {
        Some(FileKind::Assembly)
    } else if ends_with_text(&cs, ".chassis.kdl") {
        Some(FileKind::Chassis)
    } else {
        None
    }
}

/// `s` with every `\` made `/`.
pub open spec fn forward_slashes(s: Seq<char>) -> Seq<char> {
    s.map_values(|c: char| if c == '\\' { '/' } else { c })
}

/// `s` with `suf` taken off its end for as long as it ends with it.
pub open spec fn strip_all(s: Seq<char>, suf: Seq<char>) -> Seq<char>
    decreases s.len(),
{
    if suf.len() > 0 && ends_with(s, suf) {
        strip_all(s.subrange(0, s.len() - suf.len()), suf)
    } else {
        s
    }
}

/// The id a definition at this path under the library root implies.
pub open spec fn implied_id(rel: Seq<char>, suffix: Seq<char>) -> Seq<char> {
    strip_all(forward_slashes(rel), suffix)
}

/// What is said of a definition whose declared id does not match its location.
pub open spec fn id_mismatch(rel: Seq<char>, id: Seq<char>, suffix: Seq<char>) -> Option<Seq<char>> {
    let expected = implied_id(rel, suffix);
    if expected == id {
        None
    } else {
        Some(
            "declared id `"@ + id + "` does not match its location, which implies `"@ + expected
                + "`"@,
        )
    }
}

/// The id a definition at this path under the library root implies: the path with forward
/// slashes, less its file suffix.
pub fn expected_id(rel: &str, suffix: &str) -> (r: String)
    ensures
        r@ == implied_id(rel@, suffix@),
{
    let cs = chars_of(rel);
    let mut fwd: Vec<char> = Vec::new();
    let mut i: usize = 0;
    while i < cs.len()
        invariant
            cs@ == rel@,
            i <= cs@.len(),
            fwd@ == forward_slashes(rel@).subrange(0, i as int),
        decreases cs@.len() - i,
    {
        let c = cs[i];
        fwd.push(if c == '\\' { '/' } else { c });
        assert(fwd@ =~= forward_slashes(rel@).subrange(0, i + 1));
        i += 1;
    }
    assert(fwd@ =~= forward_slashes(rel@));
    let m = suffix.unicode_len();
    let mut end = fwd.len();
    if m > 0 {
        loop
            invariant
                m == suffix@.len(),
                m > 0,
                end <= fwd@.len(),
                strip_all(fwd@, suffix@) == strip_all(fwd@.subrange(0, end as int), suffix@),
            ensures
                end <= fwd@.len(),
                strip_all(fwd@, suffix@) == fwd@.subrange(0, end as int),
            decreases end,
        {
            let head = string_of(&fwd, 0, end);
            let hc = chars_of(head.as_str());
            if !ends_with_text(&hc, suffix) {
                break;
            }
            assert(fwd@.subrange(0, end as int).subrange(0, end - m) =~= fwd@.subrange(0, end - m));
            end = end - m;
        }
    }
    proof {
        if m == 0 {
            assert(fwd@.subrange(0, end as int) =~= fwd@);
        }
    }
    assert(strip_all(fwd@, suffix@) == fwd@.subrange(0, end as int));
    string_of(&fwd, 0, end)
}

/// What is said of a definition whose declared id does not match its location, if it does not.
pub fn check_id(rel: &str, id: &str, suffix: &str) -> (r: Option<String>)
    ensures
        match r {
            Some(m) => id_mismatch(rel@, id@, suffix@) == Some(m@),
            None => id_mismatch(rel@, id@, suffix@) is None,
        },
{
    let expected = expected_id(rel, suffix);
    if same_text(expected.as_str(), id) {
        None
    } else {
        let mut m = concat("declared id `", id);
        m.append("` does not match its location, which implies `");
        m.append(expected.as_str());
        m.append("`");
        Some(m)
    }
}

/// How a library describes itself.
pub open spec fn summary_text(primitives: nat, assemblies: nat, chassis: nat, port_types: nat) -> Seq<char> {
    decimal(primitives) + " primitives, "@ + decimal(assemblies) + " assemblies, "@ + decimal(chassis)
        + " chassis systems, "@ + decimal(port_types) + " port types"@
}

/// How a library describes itself: how many of each kind of definition it holds.
pub fn summary(primitives: usize, assemblies: usize, chassis: usize, port_types: usize) -> (r: String)
    ensures
        r@ == summary_text(primitives as nat, assemblies as nat, chassis as nat, port_types as nat),
{
    let mut s = decimal_text(primitives as u128);
    s.append(" primitives, ");
    s.append(decimal_text(assemblies as u128).as_str());
    s.append(" assemblies, ");
    s.append(decimal_text(chassis as u128).as_str());
    s.append(" chassis systems, ");
    s.append(decimal_text(port_types as u128).as_str());
    s.append(" port types");
    s
}


/// The id a path implies never keeps the suffix: it is taken off as often as it is there.
pub proof fn law_implied_id_has_no_suffix(rel: Seq<char>, suffix: Seq<char>)
    requires
        suffix.len() > 0,
    ensures
        !ends_with(implied_id(rel, suffix), suffix),
{
    lemma_strip_all(forward_slashes(rel), suffix);
}

proof fn lemma_strip_all(s: Seq<char>, suf: Seq<char>)
    requires
        suf.len() > 0,
    ensures
        !ends_with(strip_all(s, suf), suf),
    decreases s.len(),
{
    if ends_with(s, suf) {
        lemma_strip_all(s.subrange(0, s.len() - suf.len()), suf);
    }
}

} // verus!
