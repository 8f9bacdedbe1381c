//! The syntax tree of the expression language, and its mathematical view.

use vstd::prelude::*;

use crate::text::{opt_text, texts};

verus! {

/// A numeric literal as written: the digits (with any decimal point and exponent), the unit
/// that followed it, and whether a leading minus sign was folded into it.
///
/// The literal is kept as text; turning it into a quantity is the unit system's job.
#[derive(Debug)]
pub struct NumLit {
    pub text: String,
    pub unit: Option<String>,
    pub negated: bool,
}

/// Abstract syntax tree of an expression.
#[derive(Debug)]
pub enum Expr {
    Num(NumLit),
    Bool(bool),
    Str(String),
    /// Dotted path such as `spring.k` or a bare identifier.
    Path(Vec<String>),
    Tuple(Vec<Expr>),
    List(Vec<Expr>),
    Unary(UnOp, Box<Expr>),
    Binary(BinOp, Box<Expr>, Box<Expr>),
    If(Box<Expr>, Box<Expr>, Box<Expr>),
    Call(String, Vec<Expr>),
    Lambda(String, Box<Expr>),
    /// Member access on a computed value, e.g. `l.port("lens").centre`.
    Member(Box<Expr>, String),
    /// Text from a definition file that also parses as an expression.
    ///
    /// Definition files write both values and expressions as quoted strings, so `"M12"` and
    /// `"span / 2"` look alike. When such an expression cannot be evaluated *and* contains no
    /// numbers, it was a word all along and evaluates to the text.
    TextOr(String, Box<Expr>),
    /// Method call on a computed value, e.g. `l.port("lens")`.
    MethodCall(Box<Expr>, String, Vec<Expr>),
}

#[derive(Debug, Clone, Copy, PartialEq, Eq, Structural)]
pub enum UnOp {
    Neg,
    Not,
}

#[derive(Debug, Clone, Copy, PartialEq, Eq, Structural)]
pub enum BinOp {
    Add,
    Sub,
    Mul,
    Div,
    Pow,
    Eq,
    Ne,
    Lt,
    Le,
    Gt,
    Ge,
    And,
    Or,
    In,
}

/// A numeric literal, as text.
pub struct NumV {
    pub text: Seq<char>,
    pub unit: Option<Seq<char>>,
    pub negated: bool,
}

/// The mathematical value of an expression: the same tree, with text as character sequences.
pub enum ExprV {
    Num(NumV),
    Bool(bool),
    Str(Seq<char>),
    Path(Seq<Seq<char>>),
    Tuple(Seq<ExprV>),
    List(Seq<ExprV>),
    Unary(UnOp, Box<ExprV>),
    Binary(BinOp, Box<ExprV>, Box<ExprV>),
    If(Box<ExprV>, Box<ExprV>, Box<ExprV>),
    Call(Seq<char>, Seq<ExprV>),
    Lambda(Seq<char>, Box<ExprV>),
    Member(Box<ExprV>, Seq<char>),
    TextOr(Seq<char>, Box<ExprV>),
    MethodCall(Box<ExprV>, Seq<char>, Seq<ExprV>),
}

impl View for NumLit {
    type V = NumV;

    open spec fn view(&self) -> NumV {
        NumV { text: self.text@, unit: opt_text(self.unit), negated: self.negated }
    }
}

pub open spec fn expr_view(e: Expr) -> ExprV
    decreases e,
{
    match e {
        Expr::Num(n) => ExprV::Num(n@),
        Expr::Bool(b) => ExprV::Bool(b),
        Expr::Str(s) => ExprV::Str(s@),
        Expr::Path(p) => ExprV::Path(texts(p@)),
        Expr::Tuple(v) => {
            proof {
                assert(decreases_to!(e => e->Tuple_0));
            }
            ExprV::Tuple(exprs_view(v@))
        },
        Expr::List(v) => {
            proof {
                assert(decreases_to!(e => e->List_0));
            }
            ExprV::List(exprs_view(v@))
        },
        Expr::Unary(op, a) => ExprV::Unary(op, Box::new(expr_view(*a))),
        Expr::Binary(op, a, b) => ExprV::Binary(op, Box::new(expr_view(*a)), Box::new(expr_view(*b))),
        Expr::If(c, a, b) => ExprV::If(
            Box::new(expr_view(*c)),
            Box::new(expr_view(*a)),
            Box::new(expr_view(*b)),
        ),
        Expr::Call(n, v) => {
            proof {
                assert(decreases_to!(e => e->Call_1));
            }
            ExprV::Call(n@, exprs_view(v@))
        },
        Expr::Lambda(p, b) => ExprV::Lambda(p@, Box::new(expr_view(*b))),
        Expr::Member(b, n) => ExprV::Member(Box::new(expr_view(*b)), n@),
        Expr::TextOr(t, b) => ExprV::TextOr(t@, Box::new(expr_view(*b))),
        Expr::MethodCall(b, n, v) => {
            proof {
                assert(decreases_to!(e => e->MethodCall_2));
            }
            ExprV::MethodCall(Box::new(expr_view(*b)), n@, exprs_view(v@))
        },
    }
}

pub open spec fn exprs_view(s: Seq<Expr>) -> Seq<ExprV>
    decreases s,
{
    if s.len() == 0 {
        seq![]
    } else {
        proof {
            assert(decreases_to!(s => s.subrange(0, s.len() - 1)));
            assert(decreases_to!(s => s[s.len() - 1]));
        }
        exprs_view(s.drop_last()).push(expr_view(s.last()))
    }
}

impl View for Expr {
    type V = ExprV;

    open spec fn view(&self) -> ExprV {
        expr_view(*self)
    }
}

/// Views of two lists agree when they agree element by element.
pub proof fn lemma_exprs_view_push(s: Seq<Expr>, e: Expr)
    ensures
        exprs_view(s.push(e)) == exprs_view(s).push(expr_view(e)),
{
    assert(s.push(e).drop_last() =~= s);
}

/// Whether an expression holds a numeric literal anywhere. A call of any kind counts as one:
/// a call is never a stray word.
pub open spec fn has_number(e: ExprV) -> bool
    decreases e,
{
    match e {
        ExprV::Num(_) => true,
        ExprV::Bool(_) => false,
        ExprV::Str(_) => false,
        ExprV::Path(_) => false,
        ExprV::Tuple(v) => any_has_number(v),
        ExprV::List(v) => any_has_number(v),
        ExprV::Unary(_, a) => has_number(*a),
        ExprV::Binary(_, a, b) => has_number(*a) || has_number(*b),
        ExprV::If(c, a, b) => has_number(*c) || has_number(*a) || has_number(*b),
        ExprV::Call(_, _) => true,
        ExprV::Lambda(_, b) => has_number(*b),
        ExprV::Member(a, _) => has_number(*a),
        ExprV::TextOr(_, a) => has_number(*a),
        ExprV::MethodCall(_, _, _) => true,
    }
}

pub open spec fn any_has_number(s: Seq<ExprV>) -> bool
    decreases s,
{
    if s.len() == 0 {
        false
    } else {
        proof {
            assert(decreases_to!(s => s.subrange(0, s.len() - 1)));
            assert(decreases_to!(s => s[s.len() - 1]));
        }
        any_has_number(s.drop_last()) || has_number(s.last())
    }
}

/// The paths an expression refers to, in the order they are written.
pub open spec fn refs(e: ExprV) -> Seq<Seq<Seq<char>>>
    decreases e,
{
    match e {
        ExprV::Num(_) => seq![],
        ExprV::Bool(_) => seq![],
        ExprV::Str(_) => seq![],
        ExprV::Path(p) => seq![p],
        ExprV::Tuple(v) => refs_all(v),
        ExprV::List(v) => refs_all(v),
        ExprV::Unary(_, a) => refs(*a),
        ExprV::Binary(_, a, b) => refs(*a) + refs(*b),
        ExprV::If(c, a, b) => refs(*c) + refs(*a) + refs(*b),
        ExprV::Call(_, args) => refs_all(args),
        ExprV::Lambda(_, b) => refs(*b),
        ExprV::Member(a, _) => refs(*a),
        ExprV::TextOr(_, a) => refs(*a),
        ExprV::MethodCall(a, _, args) => refs(*a) + refs_all(args),
    }
}

pub open spec fn refs_all(s: Seq<ExprV>) -> Seq<Seq<Seq<char>>>
    decreases s,
{
    if s.len() == 0 {
        seq![]
    } else {
        proof {
            assert(decreases_to!(s => s.subrange(0, s.len() - 1)));
            assert(decreases_to!(s => s[s.len() - 1]));
        }
        refs_all(s.drop_last()) + refs(s.last())
    }
}

/// The paths held by a list of borrowed paths, as text.
pub open spec fn paths_view(v: Seq<&[String]>) -> Seq<Seq<Seq<char>>> {
    v.map_values(|p: &[String]| texts(p@))
}

impl Expr {
    /// Does this expression contain a numeric literal anywhere?
    ///
    /// Used to decide whether an expression that cannot be evaluated was meant as text. A word
    /// has no numbers in it; a mistyped formula usually does.
    pub fn contains_number(&self) -> (r: bool)
        ensures
            r == has_number(self@),
        decreases self,
    {
        match self {
            Expr::Num(_) => true,
            Expr::Bool(_) => false,
            Expr::Str(_) => false,
            Expr::Path(_) => false,
            Expr::Tuple(v) => any_contains_number(v),
            Expr::List(v) => any_contains_number(v),
            Expr::Unary(_, a) => a.contains_number(),
            Expr::Binary(_, a, b) => a.contains_number() || b.contains_number(),
            Expr::If(c, a, b) => c.contains_number() || a.contains_number() || b.contains_number(),
            Expr::Call(_, _) => true,
            Expr::Lambda(_, b) => b.contains_number(),
            Expr::Member(a, _) => a.contains_number(),
            Expr::TextOr(_, a) => a.contains_number(),
            Expr::MethodCall(_, _, _) => true,
        }
    }
}

impl Expr {
    /// Every path referenced by the expression, in the order they are written; used to order
    /// parameters by their dependencies.
    pub fn references(&self) -> (r: Vec<&[String]>)
        ensures
            paths_view(r@) == refs(self@),
    {
        let mut out: Vec<&[String]> = Vec::new();
        self.collect_refs(&mut out);
        assert(paths_view(out@) =~= paths_view(Seq::<&[String]>::empty()) + refs(self@));
        out
    }

    fn collect_refs<'a>(&'a self, out: &mut Vec<&'a [String]>)
        ensures
            paths_view(final(out)@) == paths_view(old(out)@) + refs(self@),
        decreases self,
    {
        let ghost before = paths_view(out@);
        match self {
            Expr::Path(p) => {
                out.push(p.as_slice());
                assert(paths_view(out@) =~= before + refs(self@));
            },
            Expr::Num(_) => {
                assert(paths_view(out@) =~= before + refs(self@));
            },
            Expr::Bool(_) => {
                assert(paths_view(out@) =~= before + refs(self@));
            },
            Expr::Str(_) => {
                assert(paths_view(out@) =~= before + refs(self@));
            },
            Expr::Tuple(v) => collect_refs_all(v, out),
            Expr::List(v) => collect_refs_all(v, out),
            Expr::Unary(_, a) => a.collect_refs(out),
            Expr::Binary(_, a, b) => {
                a.collect_refs(out);
                b.collect_refs(out);
                assert(paths_view(out@) =~= before + refs(self@));
            },
            Expr::If(c, a, b) => {
                c.collect_refs(out);
                a.collect_refs(out);
                b.collect_refs(out);
                assert(paths_view(out@) =~= before + refs(self@));
            },
            Expr::Call(_, args) => collect_refs_all(args, out),
            Expr::Lambda(_, body) => body.collect_refs(out),
            Expr::Member(a, _) => a.collect_refs(out),
            Expr::TextOr(_, a) => a.collect_refs(out),
            Expr::MethodCall(a, _, args) => {
                a.collect_refs(out);
                collect_refs_all(args, out);
                assert(paths_view(out@) =~= before + refs(self@));
            },
        }
    }
}

fn collect_refs_all<'a>(v: &'a Vec<Expr>, out: &mut Vec<&'a [String]>)
    ensures
        paths_view(final(out)@) == paths_view(old(out)@) + refs_all(exprs_view(v@)),
    decreases v,
{
    let ghost before = paths_view(out@);
    let mut i: usize = 0;
    while i < v.len()
        invariant
            0 <= i <= v@.len(),
            paths_view(out@) == before + refs_all(exprs_view(v@.subrange(0, i as int))),
        decreases v@.len() - i,
    {
        proof {
            assert(decreases_to!(v => v@[i as int]));
        }
        v[i].collect_refs(out);
        proof {
            let s = v@.subrange(0, i as int);
            assert(v@.subrange(0, i + 1) =~= s.push(v@[i as int]));
            lemma_exprs_view_push(s, v@[i as int]);
            assert(exprs_view(s.push(v@[i as int])).drop_last() =~= exprs_view(s));
            assert(paths_view(out@) =~= before + refs_all(exprs_view(v@.subrange(0, i + 1))));
        }
        i += 1;
    }
    assert(v@.subrange(0, v@.len() as int) =~= v@);
}

fn any_contains_number(v: &Vec<Expr>) -> (r: bool)
    ensures
        r == any_has_number(exprs_view(v@)),
    decreases v,
{
    let mut i: usize = 0;
    let mut found = false;
    while i < v.len()
        invariant
            0 <= i <= v@.len(),
            found == any_has_number(exprs_view(v@.subrange(0, i as int))),
        decreases v@.len() - i,
    {
        proof {
            assert(decreases_to!(v => v@[i as int]));
        }
        let here = v[i].contains_number();
        proof {
            let s = v@.subrange(0, i as int);
            assert(v@.subrange(0, i + 1) =~= s.push(v@[i as int]));
            lemma_exprs_view_push(s, v@[i as int]);
            assert(exprs_view(s.push(v@[i as int])).drop_last() =~= exprs_view(s));
        }
        found = found || here;
        i += 1;
    }
    assert(v@.subrange(0, v@.len() as int) =~= v@);
    found
}

/// A copy of an expression.
pub fn copy_expr(e: &Expr) -> (r: Expr)
    ensures
        r@ == e@,
    decreases e,
{
    match e {
        Expr::Num(n) => Expr::Num(clone_num(n)),
        Expr::Bool(b) => Expr::Bool(*b),
        Expr::Str(s) => Expr::Str(s.clone()),
        Expr::Path(p) => {
            let q = copy_texts(p);
            Expr::Path(q)
        },
        Expr::Tuple(v) => Expr::Tuple(copy_exprs(v)),
        Expr::List(v) => Expr::List(copy_exprs(v)),
        Expr::Unary(op, a) => Expr::Unary(*op, Box::new(copy_expr(a))),
        Expr::Binary(op, a, b) => Expr::Binary(*op, Box::new(copy_expr(a)), Box::new(copy_expr(b))),
        Expr::If(c, a, b) => Expr::If(
            Box::new(copy_expr(c)),
            Box::new(copy_expr(a)),
            Box::new(copy_expr(b)),
        ),
        Expr::Call(n, v) => Expr::Call(n.clone(), copy_exprs(v)),
        Expr::Lambda(p, b) => Expr::Lambda(p.clone(), Box::new(copy_expr(b))),
        Expr::Member(b, n) => Expr::Member(Box::new(copy_expr(b)), n.clone()),
        Expr::TextOr(t, b) => Expr::TextOr(t.clone(), Box::new(copy_expr(b))),
        Expr::MethodCall(b, n, v) => Expr::MethodCall(Box::new(copy_expr(b)), n.clone(), copy_exprs(v)),
    }
}

pub(crate) fn copy_texts(v: &Vec<String>) -> (r: Vec<String>)
    ensures
        texts(r@) == texts(v@),
{
    let mut out: Vec<String> = Vec::new();
    let mut i: usize = 0;
    while i < v.len()
        invariant
            0 <= i <= v@.len(),
            texts(out@) == texts(v@).subrange(0, i as int),
        decreases v@.len() - i,
    {
        let c = v[i].clone();
        let ghost before = texts(out@);
        out.push(c);
        proof {
            let a = texts(v@).subrange(0, i as int);
            let b = texts(v@).subrange(0, i + 1);
            assert(b =~= a.push(v@[i as int]@));
            assert(texts(out@) =~= before.push(v@[i as int]@));
        }
        i += 1;
    }
    assert(texts(v@).subrange(0, v@.len() as int) =~= texts(v@));
    out
}

/// A copy of a list of expressions.
pub fn copy_exprs(v: &Vec<Expr>) -> (r: Vec<Expr>)
    ensures
        exprs_view(r@) == exprs_view(v@),
    decreases v,
{
    let mut out: Vec<Expr> = Vec::new();
    let mut i: usize = 0;
    while i < v.len()
        invariant
            0 <= i <= v@.len(),
            exprs_view(out@) == exprs_view(v@.subrange(0, i as int)),
        decreases v@.len() - i,
    {
        proof {
            assert(decreases_to!(v => v@[i as int]));
        }
        let c = copy_expr(&v[i]);
        let ghost g = c;
        let ghost before = out@;
        out.push(c);
        proof {
            let s = v@.subrange(0, i as int);
            assert(v@.subrange(0, i + 1) =~= s.push(v@[i as int]));
            lemma_exprs_view_push(s, v@[i as int]);
            lemma_exprs_view_push(before, g);
            assert(out@ =~= before.push(g));
        }
        i += 1;
    }
    assert(v@.subrange(0, v@.len() as int) =~= v@);
    out
}

pub fn clone_text_opt(o: &Option<String>) -> (r: Option<String>)
    ensures
        r == *o,
{
    match o {
        Some(s) => Some(s.clone()),
        None => None,
    }
}

pub fn clone_num(n: &NumLit) -> (r: NumLit)
    ensures
        r == *n,
{
    NumLit { text: n.text.clone(), unit: clone_text_opt(&n.unit), negated: n.negated }
}

} // verus!
