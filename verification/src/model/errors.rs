//! What goes wrong resolving a part, an assembly or a library, and how each is told.

use vstd::prelude::*;

use crate::text::{concat, debug_quoted, debug_text, join, join_with, texts};

verus! {

/// Why two ports may not be joined.
#[derive(Debug)]
pub enum MateError {
    NoSuchPort(String, String),
    UnknownPortType(String),
    Incompatible { a: String, a_type: String, b: String, b_type: String },
    ParamsDiffer { a: String, b: String, reason: String },
    MissingParam(String, String),
}

pub enum MateErrorV {
    NoSuchPort(Seq<char>, Seq<char>),
    UnknownPortType(Seq<char>),
    Incompatible { a: Seq<char>, a_type: Seq<char>, b: Seq<char>, b_type: Seq<char> },
    ParamsDiffer { a: Seq<char>, b: Seq<char>, reason: Seq<char> },
    MissingParam(Seq<char>, Seq<char>),
}

impl View for MateError {
    type V = MateErrorV;

    open spec fn view(&self) -> MateErrorV {
        match self {
            MateError::NoSuchPort(i, p) => MateErrorV::NoSuchPort(i@, p@),
            MateError::UnknownPortType(t) => MateErrorV::UnknownPortType(t@),
            MateError::Incompatible { a, a_type, b, b_type } => MateErrorV::Incompatible {
                a: a@,
                a_type: a_type@,
                b: b@,
                b_type: b_type@,
            },
            MateError::ParamsDiffer { a, b, reason } => MateErrorV::ParamsDiffer {
                a: a@,
                b: b@,
                reason: reason@,
            },
            MateError::MissingParam(p, w) => MateErrorV::MissingParam(p@, w@),
        }
    }
}

pub open spec fn mate_error_message(e: MateErrorV) -> Seq<char> {
    match e {
        MateErrorV::NoSuchPort(i, p) => "instance `"@ + i + "` has no port `"@ + p + "`"@,
        MateErrorV::UnknownPortType(t) => "port type `"@ + t + "` is not in the registry"@,
        MateErrorV::Incompatible { a, a_type, b, b_type } => "`"@ + a + "` ("@ + a_type
            + ") is not compatible with `"@ + b + "` ("@ + b_type + ")"@,
        MateErrorV::ParamsDiffer { a, b, reason } => "`"@ + a + "` and `"@ + b
            + "` are compatible types but their parameters do not match: "@ + reason,
        MateErrorV::MissingParam(p, w) => "missing required port parameter `"@ + p + "` on `"@ + w
            + "`"@,
    }
}

impl MateError {
    /// The message a person reads.
    pub fn message(&self) -> (r: String)
        ensures
            r@ == mate_error_message(self@),
    {
        match self {
            MateError::NoSuchPort(i, p) => {
                let mut s = concat("instance `", i.as_str());
                s.append("` has no port `");
                s.append(p.as_str());
                s.append("`");
                s
            },
            MateError::UnknownPortType(t) => {
                let mut s = concat("port type `", t.as_str());
                s.append("` is not in the registry");
                s
            },
            MateError::Incompatible { a, a_type, b, b_type } => {
                let mut s = concat("`", a.as_str());
                s.append("` (");
                s.append(a_type.as_str());
                s.append(") is not compatible with `");
                s.append(b.as_str());
                s.append("` (");
                s.append(b_type.as_str());
                s.append(")");
                s
            },
            MateError::ParamsDiffer { a, b, reason } => {
                let mut s = concat("`", a.as_str());
                s.append("` and `");
                s.append(b.as_str());
                s.append("` are compatible types but their parameters do not match: ");
                s.append(reason.as_str());
                s
            },
            MateError::MissingParam(p, w) => {
                let mut s = concat("missing required port parameter `", p.as_str());
                s.append("` on `");
                s.append(w.as_str());
                s.append("`");
                s
            },
        }
    }
}

/// Why a part could not be resolved.
#[derive(Debug)]
pub enum ModelError {
    Param(String, String),
    Unresolved(Vec<String>),
    Port(String, String),
    Feature(String, String),
    MassProps(String),
    Mfg(String, String),
    UnknownVariant(String),
    BadVariantOption(String, String),
}

pub enum ModelErrorV {
    Param(Seq<char>, Seq<char>),
    Unresolved(Seq<Seq<char>>),
    Port(Seq<char>, Seq<char>),
    Feature(Seq<char>, Seq<char>),
    MassProps(Seq<char>),
    Mfg(Seq<char>, Seq<char>),
    UnknownVariant(Seq<char>),
    BadVariantOption(Seq<char>, Seq<char>),
}

impl View for ModelError {
    type V = ModelErrorV;

    open spec fn view(&self) -> ModelErrorV {
        match self {
            ModelError::Param(n, m) => ModelErrorV::Param(n@, m@),
            ModelError::Unresolved(v) => ModelErrorV::Unresolved(texts(v@)),
            ModelError::Port(n, m) => ModelErrorV::Port(n@, m@),
            ModelError::Feature(n, m) => ModelErrorV::Feature(n@, m@),
            ModelError::MassProps(m) => ModelErrorV::MassProps(m@),
            ModelError::Mfg(n, m) => ModelErrorV::Mfg(n@, m@),
            ModelError::UnknownVariant(n) => ModelErrorV::UnknownVariant(n@),
            ModelError::BadVariantOption(n, o) => ModelErrorV::BadVariantOption(n@, o@),
        }
    }
}

/// A list of names as `{:?}` shows it: in brackets, each quoted and escaped, separated by
/// commas.
pub open spec fn quoted_list(v: Seq<Seq<char>>) -> Seq<char> {
    "["@ + join(v.map_values(|s: Seq<char>| debug_text(s)), ", "@) + "]"@
}

pub open spec fn model_error_message(e: ModelErrorV) -> Seq<char> {
    match e {
        ModelErrorV::Param(n, m) => "param `"@ + n + "`: "@ + m,
        ModelErrorV::Unresolved(v) => "params could not be resolved (cycle or unknown name): "@
            + quoted_list(v),
        ModelErrorV::Port(n, m) => "port `"@ + n + "`: "@ + m,
        ModelErrorV::Feature(n, m) => "geometry feature `"@ + n + "`: "@ + m,
        ModelErrorV::MassProps(m) => "massprops: "@ + m,
        ModelErrorV::Mfg(n, m) => "manufacturing method `"@ + n + "`: "@ + m,
        ModelErrorV::UnknownVariant(n) => "unknown variant `"@ + n + "`"@,
        ModelErrorV::BadVariantOption(n, o) => "variant `"@ + n + "` has no option `"@ + o + "`"@,
    }
}

fn quoted_list_exec(v: &Vec<String>) -> (r: String)
    ensures
        r@ == quoted_list(texts(v@)),
{
    let mut q: Vec<String> = Vec::new();
    let mut i: usize = 0;
    while i < v.len()
        invariant
            0 <= i <= v@.len(),
            texts(q@) == texts(v@).subrange(0, i as int).map_values(|s: Seq<char>| debug_text(s)),
        decreases v@.len() - i,
    {
        let one = debug_quoted(v[i].as_str());
        let ghost before = texts(q@);
        q.push(one);
        proof {
            let a = texts(v@).subrange(0, i as int);
            let b = texts(v@).subrange(0, i + 1);
            assert(b =~= a.push(v@[i as int]@));
            assert(texts(q@) =~= before.push(debug_text(v@[i as int]@)));
            assert(b.map_values(|s: Seq<char>| debug_text(s)) =~= a.map_values(
                |s: Seq<char>| debug_text(s),
            ).push(debug_text(v@[i as int]@)));
        }
        i += 1;
    }
    assert(texts(v@).subrange(0, v@.len() as int) =~= texts(v@));
    let inner = join_with(&q, ", ");
    let mut r = concat("[", inner.as_str());
    r.append("]");
    r
}

impl ModelError {
    /// The message a person reads.
    pub fn message(&self) -> (r: String)
        ensures
            r@ == model_error_message(self@),
    {
        match self {
            ModelError::Param(n, m) => {
                let mut s = concat("param `", n.as_str());
                s.append("`: ");
                s.append(m.as_str());
                s
            },
            ModelError::Unresolved(v) => {
                let l = quoted_list_exec(v);
                concat("params could not be resolved (cycle or unknown name): ", l.as_str())
            },
            ModelError::Port(n, m) => {
                let mut s = concat("port `", n.as_str());
                s.append("`: ");
                s.append(m.as_str());
                s
            },
            ModelError::Feature(n, m) => {
                let mut s = concat("geometry feature `", n.as_str());
                s.append("`: ");
                s.append(m.as_str());
                s
            },
            ModelError::MassProps(m) => concat("massprops: ", m.as_str()),
            ModelError::Mfg(n, m) => {
                let mut s = concat("manufacturing method `", n.as_str());
                s.append("`: ");
                s.append(m.as_str());
                s
            },
            ModelError::UnknownVariant(n) => {
                let mut s = concat("unknown variant `", n.as_str());
                s.append("`");
                s
            },
            ModelError::BadVariantOption(n, o) => {
                let mut s = concat("variant `", n.as_str());
                s.append("` has no option `");
                s.append(o.as_str());
                s.append("`");
                s
            },
        }
    }
}

/// Why a library could not be loaded.
#[derive(Debug)]
pub enum LibraryError {
    Load { path: String, message: String },
    Missing(String),
}

pub enum LibraryErrorV {
    Load { path: Seq<char>, message: Seq<char> },
    Missing(Seq<char>),
}

impl View for LibraryError {
    type V = LibraryErrorV;

    open spec fn view(&self) -> LibraryErrorV {
        match self {
            LibraryError::Load { path, message } => LibraryErrorV::Load {
                path: path@,
                message: message@,
            },
            LibraryError::Missing(p) => LibraryErrorV::Missing(p@),
        }
    }
}

pub open spec fn library_error_message(e: LibraryErrorV) -> Seq<char> {
    match e {
        LibraryErrorV::Load { path, message } => path + ": "@ + message,
        LibraryErrorV::Missing(p) => "no library found at "@ + p,
    }
}

impl LibraryError {
    /// The message a person reads.
    pub fn message(&self) -> (r: String)
        ensures
            r@ == library_error_message(self@),
    {
        match self {
            LibraryError::Load { path, message } => {
                let mut s = concat(path.as_str(), ": ");
                s.append(message.as_str());
                s
            },
            LibraryError::Missing(p) => concat("no library found at ", p.as_str()),
        }
    }
}

/// How two mated ports are oriented relative to each other.
#[derive(Clone, Copy, Debug, PartialEq, Eq, Structural)]
pub enum MateAxis {
    /// The ports face each other: their mating axes are antiparallel. Bolted faces, flanges.
    Opposed,
    /// The ports share a direction: their mating axes are parallel. Coaxial pins and shafts.
    Aligned,
}

impl Default for MateAxis {
    fn default() -> (r: MateAxis)
        ensures
            r == MateAxis::Opposed,
    {
        MateAxis::Opposed
    }
}

} // verus!
