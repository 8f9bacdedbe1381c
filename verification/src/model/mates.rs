//! Whether two ports may be joined, as far as their types decide it.
//!
//! A port type lists the types it joins. A rule may also carry a condition on the two ports'
//! parameters (a bolt pattern that has to match, say); evaluating that condition is numeric
//! work done by the application, so here a conditional rule is handed back for it.

use vstd::prelude::*;

use super::errors::{MateError, MateErrorV};
use crate::text::{concat, opt_text, same_text};

verus! {

/// One rule of a port type: the type it joins, and whether a condition must also hold.
pub struct CompatRule {
    pub other: String,
    pub conditional: bool,
}

/// A port type of the registry and its rules.
pub struct PortTypeRules {
    pub name: String,
    pub compatible: Vec<CompatRule>,
}

pub struct CompatRuleV {
    pub other: Seq<char>,
    pub conditional: bool,
}

pub struct PortTypeRulesV {
    pub name: Seq<char>,
    pub compatible: Seq<CompatRuleV>,
}

impl View for CompatRule {
    type V = CompatRuleV;

    open spec fn view(&self) -> CompatRuleV {
        CompatRuleV { other: self.other@, conditional: self.conditional }
    }
}

impl View for PortTypeRules {
    type V = PortTypeRulesV;

    open spec fn view(&self) -> PortTypeRulesV {
        PortTypeRulesV {
            name: self.name@,
            compatible: self.compatible@.map_values(|r: CompatRule| r@),
        }
    }
}

pub open spec fn registry_view(v: Seq<PortTypeRules>) -> Seq<PortTypeRulesV> {
    v.map_values(|t: PortTypeRules| t@)
}

/// What the types say of a joint.
#[derive(Debug, Clone, Copy, PartialEq, Eq, Structural)]
pub enum MateRule {
    /// The types join with no condition.
    Always,
    /// The types join when the condition of this rule of the first port's type holds.
    When(usize),
}

/// The first port type at or after `i` named `name`.
pub open spec fn type_from(ts: Seq<PortTypeRulesV>, name: Seq<char>, i: int) -> Option<int>
    decreases ts.len() - i,
{
    if i < 0 || i >= ts.len() {
        None
    } else if ts[i].name == name {
        Some(i)
    } else {
        type_from(ts, name, i + 1)
    }
}

/// The first rule at or after `i` that joins type `other`.
pub open spec fn rule_from(rs: Seq<CompatRuleV>, other: Seq<char>, i: int) -> Option<int>
    decreases rs.len() - i,
{
    if i < 0 || i >= rs.len() {
        None
    } else if rs[i].other == other {
        Some(i)
    } else {
        rule_from(rs, other, i + 1)
    }
}

/// What the types say of joining port `ap` of `au` (of type `at`, if it has that port) to port
/// `bp` of `bu` (of type `bt`): each port must exist, both types must be in the registry, and
/// the first port's type must list the second's.
pub open spec fn mate_check(
    ts: Seq<PortTypeRulesV>,
    au: Seq<char>,
    ap: Seq<char>,
    at: Option<Seq<char>>,
    bu: Seq<char>,
    bp: Seq<char>,
    bt: Option<Seq<char>>,
) -> Result<MateRule, MateErrorV> {
    match at {
        None => Err(MateErrorV::NoSuchPort(au, ap)),
        Some(ta) => match bt {
            None => Err(MateErrorV::NoSuchPort(bu, bp)),
            Some(tb) => match type_from(ts, ta, 0) {
                None => Err(MateErrorV::UnknownPortType(ta)),
                Some(ia) => if type_from(ts, tb, 0) is None {
                    Err(MateErrorV::UnknownPortType(tb))
                } else {
                    match rule_from(ts[ia].compatible, tb, 0) {
                        None => Err(
                            MateErrorV::Incompatible {
                                a: au + "."@ + ap,
                                a_type: ta,
                                b: bu + "."@ + bp,
                                b_type: tb,
                            },
                        ),
                        Some(k) => Ok(
                            if ts[ia].compatible[k].conditional {
                                MateRule::When(k as usize)
                            } else {
                                MateRule::Always
                            },
                        ),
                    }
                },
            },
        },
    }
}

pub open spec fn check_view(r: Result<MateRule, MateError>) -> Result<MateRule, MateErrorV> {
    match r {
        Ok(m) => Ok(m),
        Err(e) => Err(e@),
    }
}

fn find_type(ts: &Vec<PortTypeRules>, name: &str) -> (r: Option<usize>)
    ensures
        match r {
            Some(i) => i < ts@.len() && type_from(registry_view(ts@), name@, 0) == Some(i as int),
            None => type_from(registry_view(ts@), name@, 0) is None,
        },
{
    let ghost tv = registry_view(ts@);
    let mut i: usize = 0;
    while i < ts.len()
        invariant
            tv == registry_view(ts@),
            i <= ts@.len(),
            type_from(tv, name@, 0) == type_from(tv, name@, i as int),
        decreases ts@.len() - i,
    {
        assert(tv[i as int] == ts@[i as int]@);
        if same_text(ts[i].name.as_str(), name) {
            return Some(i);
        }
        i += 1;
    }
    None
}

fn find_rule(rs: &Vec<CompatRule>, other: &str) -> (r: Option<usize>)
    ensures
        match r {
            Some(k) => k < rs@.len() && rule_from(rs@.map_values(|x: CompatRule| x@), other@, 0) == Some(
                k as int,
            ),
            None => rule_from(rs@.map_values(|x: CompatRule| x@), other@, 0) is None,
        },
{
    let ghost rv = rs@.map_values(|x: CompatRule| x@);
    let mut k: usize = 0;
    while k < rs.len()
        invariant
            rv == rs@.map_values(|x: CompatRule| x@),
            k <= rs@.len(),
            rule_from(rv, other@, 0) == rule_from(rv, other@, k as int),
        decreases rs@.len() - k,
    {
        assert(rv[k as int] == rs@[k as int]@);
        if same_text(rs[k].other.as_str(), other) {
            return Some(k);
        }
        k += 1;
    }
    None
}

fn dotted(unit: &str, port: &str) -> (r: String)
    ensures
        r@ == unit@ + "."@ + port@,
{
    let mut s = concat(unit, ".");
    s.append(port);
    s
}

/// Are these two ports allowed to be joined, as far as their types decide it? `a_type` and
/// `b_type` are the types of the ports, or none where the unit has no such port.
pub fn check_mate_types(
    types: &Vec<PortTypeRules>,
    a_unit: &str,
    a_port: &str,
    a_type: &Option<String>,
    b_unit: &str,
    b_port: &str,
    b_type: &Option<String>,
) -> (r: Result<MateRule, MateError>)
    ensures
        check_view(r) == mate_check(
            registry_view(types@),
            a_unit@,
            a_port@,
            opt_text(*a_type),
            b_unit@,
            b_port@,
            opt_text(*b_type),
        ),
{
    let ta = match a_type {
        None => {
            return Err(MateError::NoSuchPort(crate::text::string_from(a_unit), crate::text::string_from(a_port)));
        },
        Some(t) => t,
    };
    let tb = match b_type {
        None => {
            return Err(MateError::NoSuchPort(crate::text::string_from(b_unit), crate::text::string_from(b_port)));
        },
        Some(t) => t,
    };
    let ia = match find_type(types, ta.as_str()) {
        None => {
            return Err(MateError::UnknownPortType(ta.clone()));
        },
        Some(i) => i,
    };
    if find_type(types, tb.as_str()).is_none() {
        return Err(MateError::UnknownPortType(tb.clone()));
    }
    let ghost tv = registry_view(types@);
    assert(tv[ia as int] == types@[ia as int]@);
    match find_rule(&types[ia].compatible, tb.as_str()) {
        None => Err(
            MateError::Incompatible {
                a: dotted(a_unit, a_port),
                a_type: ta.clone(),
                b: dotted(b_unit, b_port),
                b_type: tb.clone(),
            },
        ),
        Some(k) => {
            assert(tv[ia as int].compatible[k as int] == types@[ia as int].compatible@[k as int]@);
            if types[ia].compatible[k].conditional {
                Ok(MateRule::When(k))
            } else {
                Ok(MateRule::Always)
            }
        },
    }
}

/// How a refused joint is reported.
pub fn mate_report(id: &str, e: &MateError) -> (r: String)
    ensures
        r@ == "mate `"@ + id@ + "`: "@ + super::errors::mate_error_message(e@),
{
    let mut s = concat("mate `", id);
    s.append("`: ");
    s.append(e.message().as_str());
    s
}

} // verus!
