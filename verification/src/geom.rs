//! Geometry levels and the bodies a feature list builds.
//!
//! The solid modelling itself (meshes, B-reps, lengths in metres) is floating point work done by
//! a geometry kernel in the application. What is decided here is which level of a part stands
//! for it, and how named bodies are taken by the features that use them.

use vstd::prelude::*;

pub mod level;

use crate::text::{
    lemma_text_less_irreflexive, lemma_text_less_total, lemma_text_less_transitive, less_text,
    same_text, text_less,
};

verus! {

/// What can go wrong building geometry.
#[derive(Debug)]
pub enum GeomError {
    Kernel(String),
    Unsupported(String),
    Feature(String, String),
    Io(String),
}

pub enum GeomErrorV {
    Kernel(Seq<char>),
    Unsupported(Seq<char>),
    Feature(Seq<char>, Seq<char>),
    Io(Seq<char>),
}

impl View for GeomError {
    type V = GeomErrorV;

    open spec fn view(&self) -> GeomErrorV {
        match self {
            GeomError::Kernel(s) => GeomErrorV::Kernel(s@),
            GeomError::Unsupported(s) => GeomErrorV::Unsupported(s@),
            GeomError::Feature(f, m) => GeomErrorV::Feature(f@, m@),
            GeomError::Io(s) => GeomErrorV::Io(s@),
        }
    }
}

pub open spec fn geom_error_message(e: GeomErrorV) -> Seq<char> {
    match e {
        GeomErrorV::Kernel(s) => "kernel error: "@ + s,
        GeomErrorV::Unsupported(s) => "operation not supported by this kernel: "@ + s,
        GeomErrorV::Feature(f, m) => "feature `"@ + f + "`: "@ + m,
        GeomErrorV::Io(s) => "io error: "@ + s,
    }
}

impl GeomError {
    /// The message a person reads.
    pub fn message(&self) -> (r: String)
        ensures
            r@ == geom_error_message(self@),
    {
        match self {
            GeomError::Kernel(s) => crate::text::concat("kernel error: ", s.as_str()),
            GeomError::Unsupported(s) => crate::text::concat(
                "operation not supported by this kernel: ",
                s.as_str(),
            ),
            GeomError::Feature(f, m) => {
                let mut r = crate::text::concat("feature `", f.as_str());
                r.append("`: ");
                r.append(m.as_str());
                r
            },
            GeomError::Io(s) => crate::text::concat("io error: ", s.as_str()),
        }
    }
}

/// The mesh-only kernel: triangle meshes, no booleans and no STEP. Previews, tests and builds
/// without a C++ toolchain use it; its operations run in the application.
#[derive(Default, Clone, Copy, Debug)]
pub struct MeshKernel;

/// The OpenCASCADE kernel, for real booleans and STEP files; its operations run in the
/// application.
#[derive(Default, Clone, Copy, Debug)]
pub struct OcctKernel;

/// The kernel the command line reports are built with.
pub fn kernel() -> MeshKernel {
    MeshKernel
}

/// Solids built for each geometry level of a primitive, keyed by level name in the order of
/// the names.
pub struct BuiltGeometry<S> {
    pub levels: Vec<(String, S)>,
    pub warnings: Vec<String>,
}

pub open spec fn key_of<S>(ls: Seq<(String, S)>, i: int) -> Seq<char> {
    ls[i].0@
}

/// The level names strictly increase.
pub open spec fn keys_sorted<S>(ls: Seq<(String, S)>) -> bool {
    forall|i: int, j: int| 0 <= i < j < ls.len() ==> text_less(key_of(ls, i), key_of(ls, j))
}

pub open spec fn has_key<S>(ls: Seq<(String, S)>, k: Seq<char>) -> bool {
    exists|i: int| 0 <= i < ls.len() && key_of(ls, i) == k
}

/// The levels as a map from name to solid.
pub open spec fn levels_map<S>(ls: Seq<(String, S)>) -> Map<Seq<char>, S> {
    Map::new(
        |k: Seq<char>| has_key(ls, k),
        |k: Seq<char>| ls[choose|i: int| 0 <= i < ls.len() && key_of(ls, i) == k].1,
    )
}

/// The most detailed level available: manufacture, then display, then envelope, then the
/// first by name.
pub open spec fn best_level<S>(m: Map<Seq<char>, S>) -> Option<(Seq<char>, S)> {
    if m.dom().contains("manufacture"@) {
        Some(("manufacture"@, m["manufacture"@]))
    } else if m.dom().contains("display"@) {
        Some(("display"@, m["display"@]))
    } else if m.dom().contains("envelope"@) {
        Some(("envelope"@, m["envelope"@]))
    } else if m.dom().len() == 0 {
        None
    } else {
        let k = choose|k: Seq<char>|
            m.dom().contains(k) && forall|k2: Seq<char>| #[trigger] m.dom().contains(k2) ==> k2 == k || text_less(k, k2);
        Some((k, m[k]))
    }
}

proof fn lemma_sorted_unique<S>(ls: Seq<(String, S)>, i: int, j: int)
    requires
        keys_sorted(ls),
        0 <= i < ls.len(),
        0 <= j < ls.len(),
        key_of(ls, i) == key_of(ls, j),
    ensures
        i == j,
{
    if i < j {
        lemma_text_less_irreflexive(key_of(ls, i));
    } else if j < i {
        lemma_text_less_irreflexive(key_of(ls, i));
    }
}

proof fn lemma_map_at<S>(ls: Seq<(String, S)>, i: int)
    requires
        keys_sorted(ls),
        0 <= i < ls.len(),
    ensures
        levels_map(ls).dom().contains(key_of(ls, i)),
        levels_map(ls)[key_of(ls, i)] == ls[i].1,
{
    let k = key_of(ls, i);
    assert(has_key(ls, k));
    let c = choose|c: int| 0 <= c < ls.len() && key_of(ls, c) == k;
    lemma_sorted_unique(ls, c, i);
}

impl<S> BuiltGeometry<S> {
    pub open spec fn wf(&self) -> bool {
        keys_sorted(self.levels@)
    }

    pub open spec fn level_map(&self) -> Map<Seq<char>, S> {
        levels_map(self.levels@)
    }

    /// No levels yet.
    pub fn new() -> (r: Self)
        ensures
            r.wf(),
            r.level_map() == Map::<Seq<char>, S>::empty(),
            r.warnings@.len() == 0,
    {
        let r = BuiltGeometry { levels: Vec::new(), warnings: Vec::new() };
        assert(r.level_map() =~= Map::<Seq<char>, S>::empty());
        r
    }

    /// Where level `name` is, or where it would go.
    fn position(&self, name: &str) -> (r: usize)
        requires
            self.wf(),
        ensures
            r <= self.levels@.len(),
            forall|i: int| 0 <= i < r ==> text_less(key_of(self.levels@, i), name@),
            r < self.levels@.len() ==> !text_less(key_of(self.levels@, r as int), name@),
    {
        let mut i: usize = 0;
        while i < self.levels.len()
            invariant
                0 <= i <= self.levels@.len(),
                forall|j: int| 0 <= j < i ==> text_less(key_of(self.levels@, j), name@),
            decreases self.levels@.len() - i,
        {
            if !less_text(self.levels[i].0.as_str(), name) {
                return i;
            }
            i += 1;
        }
        i
    }

    /// The solid of level `name`, if it was built.
    pub fn get(&self, name: &str) -> (r: Option<&S>)
        requires
            self.wf(),
        ensures
            match r {
                Some(s) => self.level_map().dom().contains(name@) && *s == self.level_map()[name@],
                None => !self.level_map().dom().contains(name@),
            },
    {
        let i = self.position(name);
        if i < self.levels.len() && same_text(self.levels[i].0.as_str(), name) {
            proof {
                lemma_map_at(self.levels@, i as int);
            }
            Some(&self.levels[i].1)
        } else {
            proof {
                if has_key(self.levels@, name@) {
                    let j = choose|j: int| 0 <= j < self.levels@.len() && key_of(self.levels@, j) == name@;
                    lemma_text_less_irreflexive(name@);
                    if j > i {
                        lemma_text_less_total(key_of(self.levels@, i as int), name@);
                    }
                }
            }
            None
        }
    }

    /// Record the solid of level `name`, replacing any built before; returns the one replaced.
    pub fn insert(&mut self, name: String, solid: S) -> (r: Option<S>)
        requires
            old(self).wf(),
        ensures
            final(self).wf(),
            final(self).level_map() == old(self).level_map().insert(name@, solid),
            r == (if old(self).level_map().dom().contains(name@) {
                Some(old(self).level_map()[name@])
            } else {
                None
            }),
            final(self).warnings == old(self).warnings,
    {
        let ghost ls = self.levels@;
        let ghost k = name@;
        let i = self.position(name.as_str());
        if i < self.levels.len() && same_text(self.levels[i].0.as_str(), name.as_str()) {
            let (_, before) = self.levels.remove(i);
            self.levels.insert(i, (name, solid));
            proof {
                lemma_map_at(ls, i as int);
                let nl = self.levels@;
                assert(nl =~= ls.update(i as int, nl[i as int]));
                assert(keys_sorted(nl)) by {
                    assert forall|a: int, b: int| 0 <= a < b < nl.len() implies text_less(
                        key_of(nl, a),
                        key_of(nl, b),
                    ) by {
                        assert(key_of(nl, a) == key_of(ls, a));
                        assert(key_of(nl, b) == key_of(ls, b));
                    }
                }
                assert(levels_map(nl) =~= levels_map(ls).insert(k, solid)) by {
                    assert forall|q: Seq<char>| #[trigger] levels_map(nl).dom().contains(q) <==> levels_map(
                        ls,
                    ).insert(k, solid).dom().contains(q) by {
                        if has_key(nl, q) {
                            let j = choose|j: int| 0 <= j < nl.len() && key_of(nl, j) == q;
                            assert(key_of(ls, j) == q);
                        }
                        if has_key(ls, q) {
                            let j = choose|j: int| 0 <= j < ls.len() && key_of(ls, j) == q;
                            assert(key_of(nl, j) == q);
                        }
                    }
                    assert forall|q: Seq<char>| #[trigger] levels_map(nl).dom().contains(q) implies levels_map(
                        nl,
                    )[q] == levels_map(ls).insert(k, solid)[q] by {
                        let j = choose|j: int| 0 <= j < nl.len() && key_of(nl, j) == q;
                        lemma_map_at(nl, j);
                        if j != i {
                            assert(key_of(ls, j) == q);
                            lemma_map_at(ls, j);
                            if q == k {
                                lemma_sorted_unique(nl, i as int, j);
                            }
                        }
                    }
                }
            }
            Some(before)
        } else {
            self.levels.insert(i, (name, solid));
            proof {
                let nl = self.levels@;
                assert forall|a: int| 0 <= a < i implies key_of(nl, a) == key_of(ls, a) by {}
                assert forall|a: int| i < a < nl.len() implies key_of(nl, a) == key_of(ls, a - 1) by {}
                if i < ls.len() {
                    lemma_text_less_total(key_of(ls, i as int), k);
                    assert(text_less(k, key_of(ls, i as int)));
                }
                assert(keys_sorted(nl)) by {
                    assert forall|a: int, b: int| 0 <= a < b < nl.len() implies text_less(
                        key_of(nl, a),
                        key_of(nl, b),
                    ) by {
                        if a < i && b == i {
                        } else if a < i && b > i {
                            if i < ls.len() {
                                lemma_text_less_transitive(key_of(ls, a), k, key_of(ls, i as int));
                                if b - 1 > i {
                                    lemma_text_less_transitive(
                                        key_of(ls, a),
                                        key_of(ls, i as int),
                                        key_of(ls, b - 1),
                                    );
                                }
                            }
                        } else if a == i && b > i {
                            if b - 1 > i {
                                lemma_text_less_transitive(k, key_of(ls, i as int), key_of(ls, b - 1));
                            }
                        }
                    }
                }
                assert(!has_key(ls, k)) by {
                    if has_key(ls, k) {
                        let j = choose|j: int| 0 <= j < ls.len() && key_of(ls, j) == k;
                        lemma_text_less_irreflexive(k);
                        if j >= i {
                            if j > i {
                                lemma_text_less_transitive(k, key_of(ls, i as int), key_of(ls, j));
                            }
                        }
                    }
                }
                assert(levels_map(nl) =~= levels_map(ls).insert(k, solid)) by {
                    assert forall|q: Seq<char>| #[trigger] levels_map(nl).dom().contains(q) <==> levels_map(
                        ls,
                    ).insert(k, solid).dom().contains(q) by {
                        if has_key(nl, q) {
                            let j = choose|j: int| 0 <= j < nl.len() && key_of(nl, j) == q;
                            if j < i {
                                assert(key_of(ls, j) == q);
                            } else if j > i {
                                assert(key_of(ls, j - 1) == q);
                            }
                        }
                        if has_key(ls, q) {
                            let j = choose|j: int| 0 <= j < ls.len() && key_of(ls, j) == q;
                            if j < i {
                                assert(key_of(nl, j) == q);
                            } else {
                                assert(key_of(nl, j + 1) == q);
                            }
                        }
                        if q == k {
                            assert(key_of(nl, i as int) == q);
                        }
                    }
                    assert forall|q: Seq<char>| #[trigger] levels_map(nl).dom().contains(q) implies levels_map(
                        nl,
                    )[q] == levels_map(ls).insert(k, solid)[q] by {
                        let j = choose|j: int| 0 <= j < nl.len() && key_of(nl, j) == q;
                        lemma_map_at(nl, j);
                        if j < i {
                            lemma_map_at(ls, j);
                        } else if j > i {
                            lemma_map_at(ls, j - 1);
                        }
                    }
                }
            }
            None
        }
    }

    /// The most detailed level available: manufacture, then display, then envelope, then the
    /// first by name.
    pub fn best(&self) -> (r: Option<(&str, &S)>)
        requires
            self.wf(),
        ensures
            match r {
                Some((k, s)) => best_level(self.level_map()) == Some((k@, *s)),
                None => best_level(self.level_map()) is None,
            },
    {
        let names = ["manufacture", "display", "envelope"];
        let ghost m = self.level_map();
        let mut t: usize = 0;
        while t < 3
            invariant
                names@ == seq!["manufacture", "display", "envelope"],
                m == self.level_map(),
                self.wf(),
                0 <= t <= 3,
                t > 0 ==> !m.dom().contains("manufacture"@),
                t > 1 ==> !m.dom().contains("display"@),
                t > 2 ==> !m.dom().contains("envelope"@),
            decreases 3 - t,
        {
            let lvl = names[t];
            match self.get(lvl) {
                Some(s) => {
                    return Some((lvl, s));
                },
                None => {},
            }
            t += 1;
        }
        if self.levels.len() == 0 {
            assert(m.dom() =~= Set::<Seq<char>>::empty());
            return None;
        }
        let ghost ls = self.levels@;
        let ghost k0 = key_of(ls, 0);
        proof {
            lemma_map_at(ls, 0);
            assert forall|k2: Seq<char>| #[trigger] m.dom().contains(k2) implies k2 == k0 || text_less(k0, k2) by {
                let j = choose|j: int| 0 <= j < ls.len() && key_of(ls, j) == k2;
                if j > 0 {
                }
            }
            let k = choose|k: Seq<char>|
                m.dom().contains(k) && forall|k2: Seq<char>| #[trigger] m.dom().contains(k2) ==> k2 == k || text_less(k, k2);
            assert(m.dom().contains(k0));
            assert(m.dom().len() > 0) by {
                assert(m.dom().finite()) by {
                    assert(m.dom() =~= Set::new(|q: Seq<char>| has_key(ls, q)));
                    let keys = ls.map_values(|p: (String, S)| p.0@);
                    assert(m.dom() =~= keys.to_set()) by {
                        assert forall|q: Seq<char>| m.dom().contains(q) <==> keys.to_set().contains(q) by {
                            if m.dom().contains(q) {
                                let j = choose|j: int| 0 <= j < ls.len() && key_of(ls, j) == q;
                                assert(keys[j] == q);
                            }
                            if keys.contains(q) {
                                let j = choose|j: int| 0 <= j < keys.len() && keys[j] == q;
                                assert(key_of(ls, j) == q);
                            }
                        }
                    }
                }
                vstd::set_lib::lemma_set_empty_equivalency_len(m.dom());
            }
            assert(m.dom().contains(k));
            if k != k0 {
                assert(text_less(k, k0));
                assert(text_less(k0, k));
                lemma_text_less_total(k, k0);
            }
        }
        Some((self.levels[0].0.as_str(), &self.levels[0].1))
    }
}

/// The body named `name`, taken out of the list: the first of that name.
pub fn take_body<S>(bodies: &mut Vec<(String, S)>, name: &str) -> (r: Option<S>)
    ensures
        match r {
            Some(s) => exists|i: int|
                0 <= i < old(bodies)@.len() && old(bodies)@[i].0@ == name@ && (forall|j: int|
                    0 <= j < i ==> old(bodies)@[j].0@ != name@) && s == old(bodies)@[i].1
                    && final(bodies)@ == old(bodies)@.remove(i),
            None => (forall|j: int| 0 <= j < old(bodies)@.len() ==> old(bodies)@[j].0@ != name@)
                && final(bodies)@ == old(bodies)@,
        },
{
    let mut i: usize = 0;
    while i < bodies.len()
        invariant
            bodies@ == old(bodies)@,
            0 <= i <= bodies@.len(),
            forall|j: int| 0 <= j < i ==> bodies@[j].0@ != name@,
        decreases bodies@.len() - i,
    {
        if same_text(bodies[i].0.as_str(), name) {
            let (_, s) = bodies.remove(i);
            return Some(s);
        }
        i += 1;
    }
    None
}

} // verus!
