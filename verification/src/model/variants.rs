//! Which option of each handed choice a part is made in.
//!
//! A part names its variants, each with the options it can be made in. A request may choose an
//! option for a variant; a variant not asked for is made in its first option. A request for an
//! option the variant does not have is refused, and so is a request that names neither a
//! variant nor a parameter, and a value for a parameter the part does not have.

use vstd::prelude::*;

use super::errors::{ModelError, ModelErrorV};
use crate::editor::part::{
    ParamDef, ParamDefV, PrimitiveDef, PrimitiveDefV, VariantDef, VariantDefV, variant_names,
};
use crate::text::{holds_text, same_text, string_from, texts};

verus! {

/// Name and text pairs, as text.
pub open spec fn pairs_view(v: Seq<(String, String)>) -> Seq<(Seq<char>, Seq<char>)> {
    v.map_values(|p: (String, String)| (p.0@, p.1@))
}

pub open spec fn param_names(ps: Seq<ParamDefV>) -> Seq<Seq<char>> {
    ps.map_values(|p: ParamDefV| p.name)
}

/// The first pair from index `i` on whose name is `name`.
pub open spec fn named_from(t: Seq<(Seq<char>, Seq<char>)>, name: Seq<char>, i: int) -> Option<int>
    decreases t.len() - i,
{
    if i < 0 || i >= t.len() {
        None
    } else if t[i].0 == name {
        Some(i)
    } else {
        named_from(t, name, i + 1)
    }
}

/// The option asked for `name`: that of the first request that names it.
pub open spec fn asked(rq: Seq<(Seq<char>, Seq<char>)>, name: Seq<char>) -> Option<Seq<char>> {
    match named_from(rq, name, 0) {
        Some(i) => Some(rq[i].1),
        None => None,
    }
}

/// Asked for an option the variant does not have.
pub open spec fn refused(v: VariantDefV, rq: Seq<(Seq<char>, Seq<char>)>) -> bool {
    match asked(rq, v.name) {
        Some(o) => !v.options.contains(o),
        None => false,
    }
}

/// The option a variant is made in: the one asked for, else its first.
pub open spec fn chosen(v: VariantDefV, rq: Seq<(Seq<char>, Seq<char>)>) -> Seq<char> {
    match asked(rq, v.name) {
        Some(o) => o,
        None => v.options[0],
    }
}

/// The first refused variant from index `i` on.
pub open spec fn refused_from(vs: Seq<VariantDefV>, rq: Seq<(Seq<char>, Seq<char>)>, i: int) -> Option<
    int,
>
    decreases vs.len() - i,
{
    if i < 0 || i >= vs.len() {
        None
    } else if refused(vs[i], rq) {
        Some(i)
    } else {
        refused_from(vs, rq, i + 1)
    }
}

/// The first request from index `i` on that names neither a variant nor a parameter.
pub open spec fn unknown_from(
    rq: Seq<(Seq<char>, Seq<char>)>,
    variants: Seq<Seq<char>>,
    params: Seq<Seq<char>>,
    i: int,
) -> Option<int>
    decreases rq.len() - i,
{
    if i < 0 || i >= rq.len() {
        None
    } else if !variants.contains(rq[i].0) && !params.contains(rq[i].0) {
        Some(i)
    } else {
        unknown_from(rq, variants, params, i + 1)
    }
}

/// The first value from index `i` on for a parameter the part does not have.
pub open spec fn stray_from(keys: Seq<Seq<char>>, params: Seq<Seq<char>>, i: int) -> Option<int>
    decreases keys.len() - i,
{
    if i < 0 || i >= keys.len() {
        None
    } else if !params.contains(keys[i]) {
        Some(i)
    } else {
        stray_from(keys, params, i + 1)
    }
}

/// `t` with `k` set to `v`: in its place where `k` is already set, else at the end.
pub open spec fn put(t: Seq<(Seq<char>, Seq<char>)>, k: Seq<char>, v: Seq<char>) -> Seq<
    (Seq<char>, Seq<char>),
> {
    match named_from(t, k, 0) {
        Some(j) => t.update(j, (k, v)),
        None => t.push((k, v)),
    }
}

/// The options chosen for the first `n` variants, by variant name.
pub open spec fn chosen_upto(vs: Seq<VariantDefV>, rq: Seq<(Seq<char>, Seq<char>)>, n: int) -> Seq<
    (Seq<char>, Seq<char>),
>
    decreases n,
{
    if n <= 0 || n > vs.len() {
        seq![]
    } else {
        put(chosen_upto(vs, rq, n - 1), vs[n - 1].name, chosen(vs[n - 1], rq))
    }
}

/// Each variant that the choice reaches and that is not asked for has an option to fall back
/// on: one without options comes after a refused variant.
pub open spec fn choosable(vs: Seq<VariantDefV>, rq: Seq<(Seq<char>, Seq<char>)>) -> bool {
    forall|i: int|
        0 <= i < vs.len() && asked(rq, (#[trigger] vs[i]).name) is None && vs[i].options.len()
            == 0 ==> (refused_from(vs, rq, 0) matches Some(j) && j < i)
}

/// The choice for part `d`, asked `rq` of its variants and given values for the parameters
/// named `keys`: the chosen option of each variant, or why the request is refused.
pub open spec fn variant_choice(
    d: PrimitiveDefV,
    rq: Seq<(Seq<char>, Seq<char>)>,
    keys: Seq<Seq<char>>,
) -> Result<Seq<(Seq<char>, Seq<char>)>, ModelErrorV> {
    let pn = param_names(d.params);
    match refused_from(d.variants, rq, 0) {
        Some(i) => Err(
            ModelErrorV::BadVariantOption(d.variants[i].name, asked(rq, d.variants[i].name).unwrap()),
        ),
        None => match unknown_from(rq, variant_names(d.variants), pn, 0) {
            Some(i) => Err(ModelErrorV::UnknownVariant(rq[i].0)),
            None => match stray_from(keys, pn, 0) {
                Some(i) => Err(ModelErrorV::Param(keys[i], "no such parameter"@)),
                None => Ok(chosen_upto(d.variants, rq, d.variants.len() as int)),
            },
        },
    }
}

proof fn lemma_refused_from_bounds(vs: Seq<VariantDefV>, rq: Seq<(Seq<char>, Seq<char>)>, i: int)
    requires
        0 <= i,
    ensures
        refused_from(vs, rq, i) matches Some(k) ==> i <= k < vs.len() && refused(vs[k], rq),
    decreases vs.len() - i,
{
    if i < vs.len() && !refused(vs[i], rq) {
        lemma_refused_from_bounds(vs, rq, i + 1);
    }
}

/// The first pair of `t` named `name`.
pub(crate) fn position_named(t: &Vec<(String, String)>, name: &str) -> (r: Option<usize>)
    ensures
        match r {
            Some(j) => named_from(pairs_view(t@), name@, 0) == Some(j as int) && j < t@.len(),
            None => named_from(pairs_view(t@), name@, 0) is None,
        },
{
    let ghost tv = pairs_view(t@);
    let mut i: usize = 0;
    while i < t.len()
        invariant
            tv == pairs_view(t@),
            0 <= i <= t@.len(),
            named_from(tv, name@, 0) == named_from(tv, name@, i as int),
        decreases t@.len() - i,
    {
        assert(tv[i as int] == (t@[i as int].0@, t@[i as int].1@));
        if same_text(t[i].0.as_str(), name) {
            return Some(i);
        }
        i += 1;
    }
    None
}

/// Does the part have a variant called `k`?
fn names_variant(vs: &Vec<VariantDef>, k: &str) -> (r: bool)
    ensures
        r == variant_names(vs@.map_values(|v: VariantDef| v@)).contains(k@),
{
    let ghost names = variant_names(vs@.map_values(|v: VariantDef| v@));
    let mut i: usize = 0;
    while i < vs.len()
        invariant
            names == variant_names(vs@.map_values(|v: VariantDef| v@)),
            names.len() == vs@.len(),
            0 <= i <= vs@.len(),
            forall|j: int| 0 <= j < i ==> names[j] != k@,
        decreases vs@.len() - i,
    {
        assert(names[i as int] == vs@[i as int].name@);
        if same_text(vs[i].name.as_str(), k) {
            return true;
        }
        i += 1;
    }
    false
}

/// Does the part have a parameter called `k`?
fn names_param(ps: &Vec<ParamDef>, k: &str) -> (r: bool)
    ensures
        r == param_names(ps@.map_values(|p: ParamDef| p@)).contains(k@),
{
    let ghost names = param_names(ps@.map_values(|p: ParamDef| p@));
    let mut i: usize = 0;
    while i < ps.len()
        invariant
            names == param_names(ps@.map_values(|p: ParamDef| p@)),
            names.len() == ps@.len(),
            0 <= i <= ps@.len(),
            forall|j: int| 0 <= j < i ==> names[j] != k@,
        decreases ps@.len() - i,
    {
        assert(names[i as int] == ps@[i as int].name@);
        if same_text(ps[i].name.as_str(), k) {
            return true;
        }
        i += 1;
    }
    false
}

/// The option each variant of `def` is made in, given the options `requested` by variant name
/// and values for the parameters named `param_keys`. A variant not asked for is made in its
/// first option. Refused, in this order of checking: a request for an option the variant does
/// not have; a request that names neither a variant nor a parameter (a parameter may take a
/// text value); a value for a parameter the part does not have.
pub fn resolve_variants(
    def: &PrimitiveDef,
    requested: &Vec<(String, String)>,
    param_keys: &Vec<String>,
) -> (r: Result<Vec<(String, String)>, ModelError>)
    requires
        choosable(def@.variants, pairs_view(requested@)),
    ensures
        match r {
            Ok(t) => variant_choice(def@, pairs_view(requested@), texts(param_keys@)) == Ok::<
                Seq<(Seq<char>, Seq<char>)>,
                ModelErrorV,
            >(pairs_view(t@)),
            Err(e) => variant_choice(def@, pairs_view(requested@), texts(param_keys@)) == Err::<
                Seq<(Seq<char>, Seq<char>)>,
                ModelErrorV,
            >(e@),
        },
{
    let ghost d = def@;
    let ghost rq = pairs_view(requested@);
    let ghost pn = param_names(d.params);
    let ghost keys = texts(param_keys@);
    let mut table: Vec<(String, String)> = Vec::new();
    let mut i: usize = 0;
    while i < def.variants.len()
        invariant
            d == def@,
            rq == pairs_view(requested@),
            d.variants.len() == def.variants@.len(),
            0 <= i <= def.variants@.len(),
            choosable(d.variants, rq),
            refused_from(d.variants, rq, 0) == refused_from(d.variants, rq, i as int),
            pairs_view(table@) == chosen_upto(d.variants, rq, i as int),
        decreases def.variants@.len() - i,
    {
        let v = &def.variants[i];
        assert(d.variants[i as int] == v@);
        let option: String = match position_named(requested, v.name.as_str()) {
            Some(j) => {
                let o = &requested[j].1;
                assert(rq[j as int] == (requested@[j as int].0@, o@));
                assert(asked(rq, v.name@) == Some(o@));
                if !holds_text(&v.options, o.as_str()) {
                    assert(refused(d.variants[i as int], rq));
                    return Err(ModelError::BadVariantOption(v.name.clone(), o.clone()));
                }
                o.clone()
            },
            None => {
                assert(asked(rq, v.name@) is None);
                if v.options.len() == 0 {
                    proof {
                        lemma_refused_from_bounds(d.variants, rq, i as int);
                        assert(d.variants[i as int].options.len() == 0);
                    }
                }
                v.options[0].clone()
            },
        };
        assert(!refused(d.variants[i as int], rq));
        assert(option@ == chosen(d.variants[i as int], rq));
        let ghost before = pairs_view(table@);
        match position_named(&table, v.name.as_str()) {
            Some(j) => {
                table.set(j, (v.name.clone(), option));
                assert(pairs_view(table@) =~= before.update(j as int, (v.name@, option@)));
            },
            None => {
                table.push((v.name.clone(), option));
                assert(pairs_view(table@) =~= before.push((v.name@, option@)));
            },
        }
        i += 1;
    }
    let ghost vn = variant_names(d.variants);
    let mut k: usize = 0;
    while k < requested.len()
        invariant
            d == def@,
            rq == pairs_view(requested@),
            vn == variant_names(d.variants),
            pn == param_names(d.params),
            0 <= k <= requested@.len(),
            refused_from(d.variants, rq, 0) is None,
            pairs_view(table@) == chosen_upto(d.variants, rq, d.variants.len() as int),
            unknown_from(rq, vn, pn, 0) == unknown_from(rq, vn, pn, k as int),
        decreases requested@.len() - k,
    {
        let name = requested[k].0.as_str();
        assert(rq[k as int].0 == name@);
        if !names_variant(&def.variants, name) && !names_param(&def.params, name) {
            return Err(ModelError::UnknownVariant(requested[k].0.clone()));
        }
        k += 1;
    }
    let mut k: usize = 0;
    while k < param_keys.len()
        invariant
            d == def@,
            pn == param_names(d.params),
            keys == texts(param_keys@),
            0 <= k <= param_keys@.len(),
            rq == pairs_view(requested@),
            vn == variant_names(d.variants),
            refused_from(d.variants, rq, 0) is None,
            unknown_from(rq, vn, pn, 0) is None,
            pairs_view(table@) == chosen_upto(d.variants, rq, d.variants.len() as int),
            stray_from(keys, pn, 0) == stray_from(keys, pn, k as int),
        decreases param_keys@.len() - k,
    {
        assert(keys[k as int] == param_keys@[k as int]@);
        if !names_param(&def.params, param_keys[k].as_str()) {
            return Err(ModelError::Param(param_keys[k].clone(), string_from("no such parameter")));
        }
        k += 1;
    }
    Ok(table)
}

/// The first of `keys` from index `i` on that is `k`.
pub open spec fn key_from(keys: Seq<Seq<char>>, k: Seq<char>, i: int) -> Option<int>
    decreases keys.len() - i,
{
    if i < 0 || i >= keys.len() {
        None
    } else if keys[i] == k {
        Some(i)
    } else {
        key_from(keys, k, i + 1)
    }
}

/// Where a parameter's value comes from.
#[derive(Debug)]
pub enum ParamSource {
    /// The value given for it, at this position among the given values.
    Given(usize),
    /// The text of a request that names it.
    Text(String),
    /// Its own expression: it is derived from other values.
    Derived,
    /// Its default expression.
    Default,
    /// Nothing: it is empty text.
    Blank,
}

pub enum ParamSourceV {
    Given(int),
    Text(Seq<char>),
    Derived,
    Default,
    Blank,
}

impl View for ParamSource {
    type V = ParamSourceV;

    open spec fn view(&self) -> ParamSourceV {
        match self {
            ParamSource::Given(i) => ParamSourceV::Given(*i as int),
            ParamSource::Text(t) => ParamSourceV::Text(t@),
            ParamSource::Derived => ParamSourceV::Derived,
            ParamSource::Default => ParamSourceV::Default,
            ParamSource::Blank => ParamSourceV::Blank,
        }
    }
}

/// Where the value of parameter `p` comes from, given values for the parameters named `keys`
/// and the text requests `rq`. A value given for it comes first, then a request's text; a
/// derived parameter cannot be given either. Otherwise its expression, its default, or nothing.
pub open spec fn source_spec(
    p: ParamDefV,
    keys: Seq<Seq<char>>,
    rq: Seq<(Seq<char>, Seq<char>)>,
) -> Result<ParamSourceV, ModelErrorV> {
    let given = match key_from(keys, p.name, 0) {
        Some(i) => Some(ParamSourceV::Given(i)),
        None => match asked(rq, p.name) {
            Some(t) => Some(ParamSourceV::Text(t)),
            None => None,
        },
    };
    match given {
        Some(g) => if p.expr is Some {
            Err(ModelErrorV::Param(p.name, "derived parameters (expr=) cannot be overridden"@))
        } else {
            Ok(g)
        },
        None => if p.expr is Some {
            Ok(ParamSourceV::Derived)
        } else if p.default is Some {
            Ok(ParamSourceV::Default)
        } else {
            Ok(ParamSourceV::Blank)
        },
    }
}

/// Where the value of parameter `p` comes from, given values for the parameters named
/// `param_keys` and the text requests `requested`. A derived parameter cannot be overridden.
pub fn param_source(p: &ParamDef, param_keys: &Vec<String>, requested: &Vec<(String, String)>) -> (r:
    Result<ParamSource, ModelError>)
    ensures
        match r {
            Ok(s) => source_spec(p@, texts(param_keys@), pairs_view(requested@)) == Ok::<
                ParamSourceV,
                ModelErrorV,
            >(s@),
            Err(e) => source_spec(p@, texts(param_keys@), pairs_view(requested@)) == Err::<
                ParamSourceV,
                ModelErrorV,
            >(e@),
        },
{
    let ghost keys = texts(param_keys@);
    let mut found: Option<usize> = None;
    let mut i: usize = 0;
    while i < param_keys.len()
        invariant
            keys == texts(param_keys@),
            0 <= i <= param_keys@.len(),
            match found {
                Some(j) => key_from(keys, p@.name, 0) == Some(j as int),
                None => key_from(keys, p@.name, 0) == key_from(keys, p@.name, i as int),
            },
        decreases param_keys@.len() - i,
    {
        assert(keys[i as int] == param_keys@[i as int]@);
        if found.is_none() && same_text(param_keys[i].as_str(), p.name.as_str()) {
            found = Some(i);
        }
        i += 1;
    }
    let mut given: Option<ParamSource> = match found {
        Some(j) => Some(ParamSource::Given(j)),
        None => None,
    };
    if given.is_none() {
        match position_named(requested, p.name.as_str()) {
            Some(j) => {
                assert(pairs_view(requested@)[j as int] == (requested@[j as int].0@, requested@[j as int].1@));
                given = Some(ParamSource::Text(requested[j].1.clone()));
            },
            None => {},
        }
    }
    assert(match given {
        Some(g) => Some(g@),
        None => None::<ParamSourceV>,
    } == match key_from(keys, p@.name, 0) {
        Some(i) => Some(ParamSourceV::Given(i)),
        None => match asked(pairs_view(requested@), p@.name) {
            Some(t) => Some(ParamSourceV::Text(t)),
            None => None,
        },
    });
    match given {
        Some(g) => {
            if p.expr.is_some() {
                Err(ModelError::Param(p.name.clone(), string_from("derived parameters (expr=) cannot be overridden")))
            } else {
                Ok(g)
            }
        },
        None => {
            if p.expr.is_some() {
                Ok(ParamSource::Derived)
            } else if p.default.is_some() {
                Ok(ParamSource::Default)
            } else {
                Ok(ParamSource::Blank)
            }
        },
    }
}

} // verus!
