//! Turning tokens into a syntax tree: a Pratt parser over the token list.

use vstd::prelude::*;

use super::ast::{
    BinOp, Expr, ExprV, NumLit, NumV, UnOp, clone_num, exprs_view, lemma_exprs_view_push,
};
use super::error::{ParseError, ParseErrorV};
use super::lexer::{OpTok, Tok, TokV, UnitSymbols, lex, lex_spec, toks_view};
use crate::text::{debug_quoted, debug_text, same_text, string_from, texts};

verus! {

// Binding powers, lowest to highest.
pub const BP_LAMBDA: u8 = 1;

pub const BP_OR: u8 = 2;

pub const BP_AND: u8 = 3;

pub const BP_NOT: u8 = 4;

pub const BP_CMP: u8 = 5;

pub const BP_ADD: u8 = 6;

pub const BP_MUL: u8 = 7;

pub const BP_NEG: u8 = 8;

pub const BP_POW: u8 = 9;

pub const BP_POSTFIX: u8 = 10;

/// How an operator token is written in messages.
pub open spec fn op_text(o: OpTok) -> Seq<char> {
    match o {
        OpTok::LParen => "("@,
        OpTok::RParen => ")"@,
        OpTok::LBracket => "["@,
        OpTok::RBracket => "]"@,
        OpTok::Comma => ","@,
        OpTok::Dot => "."@,
        OpTok::Plus => "+"@,
        OpTok::Minus => "-"@,
        OpTok::Star => "*"@,
        OpTok::Slash => "/"@,
        OpTok::Caret => "^"@,
        OpTok::Lt => "<"@,
        OpTok::Le => "<="@,
        OpTok::Gt => ">"@,
        OpTok::Ge => ">="@,
        OpTok::EqEq => "=="@,
        OpTok::Ne => "!="@,
        OpTok::Arrow => "->"@,
        OpTok::And => "and"@,
        OpTok::Or => "or"@,
        OpTok::Not => "not"@,
        OpTok::Abs => "abs"@,
    }
}

pub open spec fn unit_note(u: Option<Seq<char>>) -> Seq<char> {
    match u {
        Some(u) => " "@ + u,
        None => seq![],
    }
}

/// A token as it is shown in an error message.
pub open spec fn describe_tok(t: TokV) -> Seq<char> {
    match t {
        TokV::Num(n) => "Num("@ + n.text + unit_note(n.unit) + ")"@,
        TokV::Str(s) => "Str("@ + debug_text(s) + ")"@,
        TokV::Ident(s) => "Ident("@ + debug_text(s) + ")"@,
        TokV::Op(o) => "Op(\""@ + op_text(o) + "\")"@,
    }
}

/// What stands at position `p`: a token, or the end.
pub open spec fn found(ts: Seq<TokV>, p: int) -> Seq<char> {
    if 0 <= p < ts.len() {
        describe_tok(ts[p])
    } else {
        "end"@
    }
}

/// The error for a missing closing operator `o` at position `p`.
pub open spec fn expected_op(o: OpTok, ts: Seq<TokV>, p: int) -> ParseErrorV {
    ParseErrorV::Expected("`"@ + op_text(o) + "` but found "@ + found(ts, p))
}

pub open spec fn is_op(ts: Seq<TokV>, p: int, o: OpTok) -> bool {
    0 <= p < ts.len() && ts[p] == TokV::Op(o)
}

pub open spec fn is_word(ts: Seq<TokV>, p: int, w: Seq<char>) -> bool {
    0 <= p < ts.len() && ts[p] == TokV::Ident(w)
}

/// The binary operator a token stands for, with its left and right binding powers.
///
/// `^` binds right to left; every other operator binds left to right.
pub open spec fn infix(t: TokV) -> Option<(BinOp, int, int)> {
    match t {
        TokV::Op(o) => match o {
            OpTok::Plus => Some((BinOp::Add, BP_ADD as int, BP_ADD + 1)),
            OpTok::Minus => Some((BinOp::Sub, BP_ADD as int, BP_ADD + 1)),
            OpTok::Star => Some((BinOp::Mul, BP_MUL as int, BP_MUL + 1)),
            OpTok::Slash => Some((BinOp::Div, BP_MUL as int, BP_MUL + 1)),
            OpTok::Caret => Some((BinOp::Pow, BP_POW as int, BP_POW as int)),
            OpTok::Lt => Some((BinOp::Lt, BP_CMP as int, BP_CMP + 1)),
            OpTok::Le => Some((BinOp::Le, BP_CMP as int, BP_CMP + 1)),
            OpTok::Gt => Some((BinOp::Gt, BP_CMP as int, BP_CMP + 1)),
            OpTok::Ge => Some((BinOp::Ge, BP_CMP as int, BP_CMP + 1)),
            OpTok::EqEq => Some((BinOp::Eq, BP_CMP as int, BP_CMP + 1)),
            OpTok::Ne => Some((BinOp::Ne, BP_CMP as int, BP_CMP + 1)),
            OpTok::And => Some((BinOp::And, BP_AND as int, BP_AND + 1)),
            OpTok::Or => Some((BinOp::Or, BP_OR as int, BP_OR + 1)),
            _ => None,
        },
        TokV::Ident(w) => if w == "and"@ {
            Some((BinOp::And, BP_AND as int, BP_AND + 1))
        } else if w == "or"@ {
            Some((BinOp::Or, BP_OR as int, BP_OR + 1))
        } else if w == "in"@ {
            Some((BinOp::In, BP_CMP as int, BP_CMP + 1))
        } else {
            None
        },
        _ => None,
    }
}

/// A leading minus: folded into a numeric literal, otherwise a negation.
pub open spec fn negate(e: ExprV) -> ExprV {
    match e {
        ExprV::Num(n) => ExprV::Num(NumV { text: n.text, unit: n.unit, negated: !n.negated }),
        other => ExprV::Unary(UnOp::Neg, Box::new(other)),
    }
}

/// `lhs.name`: a longer path when `lhs` is a path, otherwise a member access.
pub open spec fn member(lhs: ExprV, name: Seq<char>) -> ExprV {
    match lhs {
        ExprV::Path(p) => ExprV::Path(p.push(name)),
        other => ExprV::Member(Box::new(other), name),
    }
}

// The parse functions below return the expression read and the position just after it.
// Positions only move forward; the guards that say so keep the definitions well founded.

/// An expression starting at `pos` whose operators bind at least as tightly as `min_bp`.
pub open spec fn parse_expr(ts: Seq<TokV>, pos: int, min_bp: int) -> Result<(ExprV, int), ParseErrorV>
    decreases ts.len() - pos, 2int,
{
    match parse_prefix(ts, pos) {
        Ok((lhs, p)) => if pos < p <= ts.len() {
            parse_infix(ts, p, lhs, min_bp)
        } else {
            Err(ParseErrorV::UnexpectedEnd)
        },
        Err(e) => Err(e),
    }
}

/// The operators that follow `lhs` at `pos`, for as long as they bind tightly enough.
pub open spec fn parse_infix(ts: Seq<TokV>, pos: int, lhs: ExprV, min_bp: int) -> Result<
    (ExprV, int),
    ParseErrorV,
>
    decreases ts.len() - pos, 2int,
{
    if is_op(ts, pos, OpTok::Dot) && BP_POSTFIX >= min_bp {
        if pos + 1 < ts.len() && ts[pos + 1] is Ident {
            let name = ts[pos + 1]->Ident_0;
            if is_op(ts, pos + 2, OpTok::LParen) {
                match parse_items(ts, pos + 3, seq![], OpTok::RParen) {
                    Ok((args, p)) => if pos < p <= ts.len() {
                        parse_infix(ts, p, ExprV::MethodCall(Box::new(lhs), name, args), min_bp)
                    } else {
                        Err(ParseErrorV::UnexpectedEnd)
                    },
                    Err(e) => Err(e),
                }
            } else {
                parse_infix(ts, pos + 2, member(lhs, name), min_bp)
            }
        } else {
            Err(ParseErrorV::Expected("member name after `.`"@))
        }
    } else if 0 <= pos < ts.len() && infix(ts[pos]) is Some && (infix(ts[pos])->0).1 >= min_bp {
        let (op, l, r) = infix(ts[pos])->0;
        match parse_expr(ts, pos + 1, r) {
            Ok((rhs, p)) => if pos < p <= ts.len() {
                parse_infix(ts, p, ExprV::Binary(op, Box::new(lhs), Box::new(rhs)), min_bp)
            } else {
                Err(ParseErrorV::UnexpectedEnd)
            },
            Err(e) => Err(e),
        }
    } else {
        Ok((lhs, pos))
    }
}

/// What an expression starts with.
pub open spec fn parse_prefix(ts: Seq<TokV>, pos: int) -> Result<(ExprV, int), ParseErrorV>
    decreases ts.len() - pos, 1int,
{
    if pos < 0 || pos >= ts.len() {
        Err(ParseErrorV::UnexpectedEnd)
    } else {
        match ts[pos] {
            TokV::Num(n) => Ok((ExprV::Num(n), pos + 1)),
            TokV::Str(s) => Ok((ExprV::Str(s), pos + 1)),
            TokV::Ident(w) => parse_word(ts, pos, w),
            TokV::Op(o) => parse_op(ts, pos, o),
        }
    }
}

/// An expression that starts with the operator `o` at `pos`.
pub open spec fn parse_op(ts: Seq<TokV>, pos: int, o: OpTok) -> Result<(ExprV, int), ParseErrorV>
    decreases ts.len() - pos, 0int,
{
    if pos < 0 || pos >= ts.len() {
        Err(ParseErrorV::UnexpectedEnd)
    } else {
        match o {
            OpTok::Minus => match parse_expr(ts, pos + 1, BP_NEG as int) {
                Ok((e, p)) => Ok((negate(e), p)),
                Err(e) => Err(e),
            },
            OpTok::Plus => parse_expr(ts, pos + 1, BP_NEG as int),
            OpTok::Not => match parse_expr(ts, pos + 1, BP_NOT as int) {
                Ok((e, p)) => Ok((ExprV::Unary(UnOp::Not, Box::new(e)), p)),
                Err(e) => Err(e),
            },
            OpTok::Abs => match parse_expr(ts, pos + 1, 0) {
                Ok((e, p)) => if is_op(ts, p, OpTok::Abs) {
                    Ok((ExprV::Call("abs"@, seq![e]), p + 1))
                } else {
                    Err(expected_op(OpTok::Abs, ts, p))
                },
                Err(e) => Err(e),
            },
            OpTok::LParen => if is_op(ts, pos + 1, OpTok::RParen) {
                Ok((ExprV::Tuple(seq![]), pos + 2))
            } else {
                match parse_expr(ts, pos + 1, 0) {
                    Ok((first, p)) => if pos < p {
                        if is_op(ts, p, OpTok::Comma) {
                            match parse_items(ts, p + 1, seq![first], OpTok::RParen) {
                                Ok((items, q)) => Ok((ExprV::Tuple(items), q)),
                                Err(e) => Err(e),
                            }
                        } else if is_op(ts, p, OpTok::RParen) {
                            Ok((first, p + 1))
                        } else {
                            Err(expected_op(OpTok::RParen, ts, p))
                        }
                    } else {
                        Err(ParseErrorV::UnexpectedEnd)
                    },
                    Err(e) => Err(e),
                }
            },
            OpTok::LBracket => match parse_items(ts, pos + 1, seq![], OpTok::RBracket) {
                Ok((items, q)) => Ok((ExprV::List(items), q)),
                Err(e) => Err(e),
            },
            _ => Err(ParseErrorV::UnexpectedToken(describe_tok(TokV::Op(o)))),
        }
    }
}

/// An expression that starts with the word `w` at `pos`: a literal, `not`, `if`, a lambda,
/// a call, or a name.
pub open spec fn parse_word(ts: Seq<TokV>, pos: int, w: Seq<char>) -> Result<
    (ExprV, int),
    ParseErrorV,
>
    decreases ts.len() - pos, 0int,
{
    if pos < 0 || pos >= ts.len() {
        Err(ParseErrorV::UnexpectedEnd)
    } else if w == "true"@ {
        Ok((ExprV::Bool(true), pos + 1))
    } else if w == "false"@ {
        Ok((ExprV::Bool(false), pos + 1))
    } else if w == "not"@ {
        match parse_expr(ts, pos + 1, BP_NOT as int) {
            Ok((e, p)) => Ok((ExprV::Unary(UnOp::Not, Box::new(e)), p)),
            Err(e) => Err(e),
        }
    } else if w == "if"@ {
        match parse_expr(ts, pos + 1, 0) {
            Ok((c, p1)) => if pos < p1 {
                if is_word(ts, p1, "then"@) {
                    match parse_expr(ts, p1 + 1, 0) {
                        Ok((a, p2)) => if pos < p2 {
                            if is_word(ts, p2, "else"@) {
                                match parse_expr(ts, p2 + 1, BP_LAMBDA as int) {
                                    Ok((b, p3)) => Ok(
                                        (ExprV::If(Box::new(c), Box::new(a), Box::new(b)), p3),
                                    ),
                                    Err(e) => Err(e),
                                }
                            } else {
                                Err(ParseErrorV::Expected("`else`"@))
                            }
                        } else {
                            Err(ParseErrorV::UnexpectedEnd)
                        },
                        Err(e) => Err(e),
                    }
                } else {
                    Err(ParseErrorV::Expected("`then`"@))
                }
            } else {
                Err(ParseErrorV::UnexpectedEnd)
            },
            Err(e) => Err(e),
        }
    } else if is_op(ts, pos + 1, OpTok::Arrow) {
        match parse_expr(ts, pos + 2, BP_LAMBDA as int) {
            Ok((body, p)) => Ok((ExprV::Lambda(w, Box::new(body)), p)),
            Err(e) => Err(e),
        }
    } else if is_op(ts, pos + 1, OpTok::LParen) {
        match parse_items(ts, pos + 2, seq![], OpTok::RParen) {
            Ok((args, p)) => Ok((ExprV::Call(w, args), p)),
            Err(e) => Err(e),
        }
    } else {
        Ok((ExprV::Path(seq![w]), pos + 1))
    }
}

/// Comma separated expressions up to the closing operator `close`, after `acc` has been read.
/// A comma before the closing operator is allowed.
pub open spec fn parse_items(ts: Seq<TokV>, pos: int, acc: Seq<ExprV>, close: OpTok) -> Result<
    (Seq<ExprV>, int),
    ParseErrorV,
>
    decreases ts.len() - pos, 3int,
{
    if is_op(ts, pos, close) {
        Ok((acc, pos + 1))
    } else {
        match parse_expr(ts, pos, 0) {
            Ok((e, p)) => if pos < p {
                if is_op(ts, p, OpTok::Comma) {
                    parse_items(ts, p + 1, acc.push(e), close)
                } else if is_op(ts, p, close) {
                    Ok((acc.push(e), p + 1))
                } else {
                    Err(expected_op(close, ts, p))
                }
            } else {
                Err(ParseErrorV::UnexpectedEnd)
            },
            Err(e) => Err(e),
        }
    }
}

/// The expression a whole token list spells, which must use every token.
pub open spec fn expr_of_tokens(ts: Seq<TokV>) -> Result<ExprV, ParseErrorV> {
    match parse_expr(ts, 0, 0) {
        Ok((e, p)) => if p == ts.len() {
            Ok(e)
        } else {
            Err(ParseErrorV::UnexpectedToken(found(ts, p)))
        },
        Err(e) => Err(e),
    }
}

/// The expression a text spells.
pub open spec fn expr_of_text(src: Seq<char>, units: Seq<Seq<char>>) -> Result<ExprV, ParseErrorV> {
    match lex_spec(src, units) {
        Ok(ts) => expr_of_tokens(ts),
        Err(e) => Err(e),
    }
}

pub open spec fn parsed_view(r: Result<(Expr, usize), ParseError>) -> Result<
    (ExprV, int),
    ParseErrorV,
> {
    match r {
        Ok((e, p)) => Ok((e@, p as int)),
        Err(x) => Err(x@),
    }
}

pub open spec fn items_view(r: Result<(Vec<Expr>, usize), ParseError>) -> Result<
    (Seq<ExprV>, int),
    ParseErrorV,
> {
    match r {
        Ok((v, p)) => Ok((exprs_view(v@), p as int)),
        Err(x) => Err(x@),
    }
}

pub open spec fn expr_result_view(r: Result<Expr, ParseError>) -> Result<ExprV, ParseErrorV> {
    match r {
        Ok(e) => Ok(e@),
        Err(x) => Err(x@),
    }
}

fn op_text_exec(o: OpTok) -> (r: &'static str)
    ensures
        r@ == op_text(o),
{
    match o {
        OpTok::LParen => "(",
        OpTok::RParen => ")",
        OpTok::LBracket => "[",
        OpTok::RBracket => "]",
        OpTok::Comma => ",",
        OpTok::Dot => ".",
        OpTok::Plus => "+",
        OpTok::Minus => "-",
        OpTok::Star => "*",
        OpTok::Slash => "/",
        OpTok::Caret => "^",
        OpTok::Lt => "<",
        OpTok::Le => "<=",
        OpTok::Gt => ">",
        OpTok::Ge => ">=",
        OpTok::EqEq => "==",
        OpTok::Ne => "!=",
        OpTok::Arrow => "->",
        OpTok::And => "and",
        OpTok::Or => "or",
        OpTok::Not => "not",
        OpTok::Abs => "abs",
    }
}

/// A token as it is shown in an error message.
pub fn describe(t: &Tok) -> (r: String)
    ensures
        r@ == describe_tok(t@),
{
    match t {
        Tok::Num(n) => {
            let mut s = string_from("Num(");
            s.append(n.text.as_str());
            match &n.unit {
                Some(u) => {
                    s.append(" ");
                    s.append(u.as_str());
                    assert(s@ =~= "Num("@ + n.text@ + unit_note(Some(u@)));
                },
                None => {
                    assert(s@ =~= "Num("@ + n.text@ + unit_note(None));
                },
            }
            s.append(")");
            s
        },
        Tok::Str(x) => {
            let mut s = string_from("Str(");
            s.append(debug_quoted(x.as_str()).as_str());
            s.append(")");
            s
        },
        Tok::Ident(x) => {
            let mut s = string_from("Ident(");
            s.append(debug_quoted(x.as_str()).as_str());
            s.append(")");
            s
        },
        Tok::Op(o) => {
            let mut s = string_from("Op(\"");
            s.append(op_text_exec(*o));
            s.append("\")");
            s
        },
    }
}

fn found_exec(ts: &Vec<Tok>, p: usize) -> (r: String)
    ensures
        r@ == found(toks_view(ts@), p as int),
{
    if p < ts.len() {
        describe(&ts[p])
    } else {
        string_from("end")
    }
}

fn expected_exec(o: OpTok, ts: &Vec<Tok>, p: usize) -> (r: ParseError)
    ensures
        r@ == expected_op(o, toks_view(ts@), p as int),
{
    let mut s = string_from("`");
    s.append(op_text_exec(o));
    s.append("` but found ");
    let f = found_exec(ts, p);
    s.append(f.as_str());
    ParseError::Expected(s)
}

fn is_op_at(ts: &Vec<Tok>, p: usize, o: OpTok) -> (r: bool)
    ensures
        r == is_op(toks_view(ts@), p as int, o),
{
    if p < ts.len() {
        match &ts[p] {
            Tok::Op(x) => *x == o,
            _ => false,
        }
    } else {
        false
    }
}

fn is_word_at(ts: &Vec<Tok>, p: usize, w: &str) -> (r: bool)
    ensures
        r == is_word(toks_view(ts@), p as int, w@),
{
    if p < ts.len() {
        match &ts[p] {
            Tok::Ident(x) => same_text(x.as_str(), w),
            _ => false,
        }
    } else {
        false
    }
}

fn infix_at(t: &Tok) -> (r: Option<(BinOp, u8, u8)>)
    ensures
        match r {
            Some((op, l, rb)) => infix(t@) == Some((op, l as int, rb as int)),
            None => infix(t@) is None,
        },
{
    match t {
        Tok::Op(o) => match o {
            OpTok::Plus => Some((BinOp::Add, BP_ADD, BP_ADD + 1)),
            OpTok::Minus => Some((BinOp::Sub, BP_ADD, BP_ADD + 1)),
            OpTok::Star => Some((BinOp::Mul, BP_MUL, BP_MUL + 1)),
            OpTok::Slash => Some((BinOp::Div, BP_MUL, BP_MUL + 1)),
            OpTok::Caret => Some((BinOp::Pow, BP_POW, BP_POW)),
            OpTok::Lt => Some((BinOp::Lt, BP_CMP, BP_CMP + 1)),
            OpTok::Le => Some((BinOp::Le, BP_CMP, BP_CMP + 1)),
            OpTok::Gt => Some((BinOp::Gt, BP_CMP, BP_CMP + 1)),
            OpTok::Ge => Some((BinOp::Ge, BP_CMP, BP_CMP + 1)),
            OpTok::EqEq => Some((BinOp::Eq, BP_CMP, BP_CMP + 1)),
            OpTok::Ne => Some((BinOp::Ne, BP_CMP, BP_CMP + 1)),
            OpTok::And => Some((BinOp::And, BP_AND, BP_AND + 1)),
            OpTok::Or => Some((BinOp::Or, BP_OR, BP_OR + 1)),
            _ => None,
        },
        Tok::Ident(w) => if same_text(w.as_str(), "and") {
            Some((BinOp::And, BP_AND, BP_AND + 1))
        } else if same_text(w.as_str(), "or") {
            Some((BinOp::Or, BP_OR, BP_OR + 1))
        } else if same_text(w.as_str(), "in") {
            Some((BinOp::In, BP_CMP, BP_CMP + 1))
        } else {
            None
        },
        _ => None,
    }
}

fn negate_exec(e: Expr) -> (r: Expr)
    ensures
        r@ == negate(e@),
{
    match e {
        Expr::Num(n) => Expr::Num(NumLit { text: n.text, unit: n.unit, negated: !n.negated }),
        other => Expr::Unary(UnOp::Neg, Box::new(other)),
    }
}

fn member_exec(lhs: Expr, name: String) -> (r: Expr)
    ensures
        r@ == member(lhs@, name@),
{
    match lhs {
        Expr::Path(p) => {
            let ghost before = p@;
            let mut p = p;
            p.push(name);
            assert(texts(p@) =~= texts(before).push(name@));
            Expr::Path(p)
        },
        other => Expr::Member(Box::new(other), name),
    }
}

/// A list holding one expression.
fn single(e: Expr) -> (r: Vec<Expr>)
    ensures
        exprs_view(r@) == seq![e@],
{
    let mut v: Vec<Expr> = Vec::new();
    let ghost g = e;
    v.push(e);
    proof {
        lemma_exprs_view_push(seq![], g);
        assert(v@ =~= seq![].push(g));
        assert(seq![g@] =~= exprs_view(seq![]).push(g@));
    }
    v
}

fn parse_expr_exec(ts: &Vec<Tok>, pos: usize, min_bp: u8) -> (r: Result<(Expr, usize), ParseError>)
    requires
        pos <= ts@.len(),
    ensures
        parsed_view(r) == parse_expr(toks_view(ts@), pos as int, min_bp as int),
        r matches Ok((_, p)) ==> pos < p <= ts@.len(),
    decreases ts@.len() - pos, 2int,
{
    match parse_prefix_exec(ts, pos) {
        Ok((lhs, p)) => parse_infix_exec(ts, p, lhs, min_bp),
        Err(e) => Err(e),
    }
}

fn parse_infix_exec(ts: &Vec<Tok>, pos: usize, lhs: Expr, min_bp: u8) -> (r: Result<
    (Expr, usize),
    ParseError,
>)
    requires
        pos <= ts@.len(),
    ensures
        parsed_view(r) == parse_infix(toks_view(ts@), pos as int, lhs@, min_bp as int),
        r matches Ok((_, p)) ==> pos <= p <= ts@.len(),
    decreases ts@.len() - pos, 2int,
{
    assert(toks_view(ts@).len() == ts.len());
    let ghost tv = toks_view(ts@);
    if is_op_at(ts, pos, OpTok::Dot) && BP_POSTFIX >= min_bp {
        let name = if pos + 1 < ts.len() {
            match &ts[pos + 1] {
                Tok::Ident(n) => Some(n.clone()),
                _ => None,
            }
        } else {
            None
        };
        match name {
            None => Err(ParseError::Expected(string_from("member name after `.`"))),
            Some(name) => {
                assert(tv[pos + 1] == TokV::Ident(name@));
                if is_op_at(ts, pos + 2, OpTok::LParen) {
                    match parse_items_exec(ts, pos + 3, Vec::new(), OpTok::RParen) {
                        Ok((args, p)) => parse_infix_exec(
                            ts,
                            p,
                            Expr::MethodCall(Box::new(lhs), name, args),
                            min_bp,
                        ),
                        Err(e) => Err(e),
                    }
                } else {
                    let next = member_exec(lhs, name);
                    parse_infix_exec(ts, pos + 2, next, min_bp)
                }
            },
        }
    } else if pos < ts.len() {
        match infix_at(&ts[pos]) {
            Some((op, l, rb)) => if l >= min_bp {
                match parse_expr_exec(ts, pos + 1, rb) {
                    Ok((rhs, p)) => parse_infix_exec(
                        ts,
                        p,
                        Expr::Binary(op, Box::new(lhs), Box::new(rhs)),
                        min_bp,
                    ),
                    Err(e) => Err(e),
                }
            } else {
                Ok((lhs, pos))
            },
            None => Ok((lhs, pos)),
        }
    } else {
        Ok((lhs, pos))
    }
}

fn parse_prefix_exec(ts: &Vec<Tok>, pos: usize) -> (r: Result<(Expr, usize), ParseError>)
    requires
        pos <= ts@.len(),
    ensures
        parsed_view(r) == parse_prefix(toks_view(ts@), pos as int),
        r matches Ok((_, p)) ==> pos < p <= ts@.len(),
    decreases ts@.len() - pos, 1int,
{
    if pos >= ts.len() {
        return Err(ParseError::UnexpectedEnd);
    }
    match &ts[pos] {
        Tok::Num(n) => Ok((Expr::Num(clone_num(n)), pos + 1)),
        Tok::Str(s) => Ok((Expr::Str(s.clone()), pos + 1)),
        Tok::Ident(w) => parse_word_exec(ts, pos, w),
        Tok::Op(o) => parse_op_exec(ts, pos, *o),
    }
}

fn parse_op_exec(ts: &Vec<Tok>, pos: usize, o: OpTok) -> (r: Result<(Expr, usize), ParseError>)
    requires
        pos < ts@.len(),
    ensures
        parsed_view(r) == parse_op(toks_view(ts@), pos as int, o),
        r matches Ok((_, p)) ==> pos < p <= ts@.len(),
    decreases ts@.len() - pos, 0int,
{
    assert(toks_view(ts@).len() == ts.len());
    match o {
        OpTok::Minus => match parse_expr_exec(ts, pos + 1, BP_NEG) {
            Ok((e, p)) => Ok((negate_exec(e), p)),
            Err(x) => Err(x),
        },
        OpTok::Plus => parse_expr_exec(ts, pos + 1, BP_NEG),
        OpTok::Not => match parse_expr_exec(ts, pos + 1, BP_NOT) {
            Ok((e, p)) => Ok((Expr::Unary(UnOp::Not, Box::new(e)), p)),
            Err(x) => Err(x),
        },
        OpTok::Abs => match parse_expr_exec(ts, pos + 1, 0) {
            Ok((e, p)) => if is_op_at(ts, p, OpTok::Abs) {
                Ok((Expr::Call(string_from("abs"), single(e)), p + 1))
            } else {
                Err(expected_exec(OpTok::Abs, ts, p))
            },
            Err(x) => Err(x),
        },
        OpTok::LParen => {
            if is_op_at(ts, pos + 1, OpTok::RParen) {
                let empty: Vec<Expr> = Vec::new();
                assert(exprs_view(empty@) =~= seq![]);
                return Ok((Expr::Tuple(empty), pos + 2));
            }
            match parse_expr_exec(ts, pos + 1, 0) {
                Ok((first, p)) => if is_op_at(ts, p, OpTok::Comma) {
                    match parse_items_exec(ts, p + 1, single(first), OpTok::RParen) {
                        Ok((items, q)) => Ok((Expr::Tuple(items), q)),
                        Err(x) => Err(x),
                    }
                } else if is_op_at(ts, p, OpTok::RParen) {
                    Ok((first, p + 1))
                } else {
                    Err(expected_exec(OpTok::RParen, ts, p))
                },
                Err(x) => Err(x),
            }
        },
        OpTok::LBracket => match parse_items_exec(ts, pos + 1, Vec::new(), OpTok::RBracket) {
            Ok((items, q)) => Ok((Expr::List(items), q)),
            Err(x) => Err(x),
        },
        _ => {
            let t = Tok::Op(o);
            Err(ParseError::UnexpectedToken(describe(&t)))
        },
    }
}

fn parse_word_exec(ts: &Vec<Tok>, pos: usize, w: &String) -> (r: Result<(Expr, usize), ParseError>)
    requires
        pos < ts@.len(),
    ensures
        parsed_view(r) == parse_word(toks_view(ts@), pos as int, w@),
        r matches Ok((_, p)) ==> pos < p <= ts@.len(),
    decreases ts@.len() - pos, 0int,
{
    assert(toks_view(ts@).len() == ts.len());
    if same_text(w.as_str(), "true") {
        return Ok((Expr::Bool(true), pos + 1));
    }
    if same_text(w.as_str(), "false") {
        return Ok((Expr::Bool(false), pos + 1));
    }
    if same_text(w.as_str(), "not") {
        return match parse_expr_exec(ts, pos + 1, BP_NOT) {
            Ok((e, p)) => Ok((Expr::Unary(UnOp::Not, Box::new(e)), p)),
            Err(x) => Err(x),
        };
    }
    if same_text(w.as_str(), "if") {
        let (c, p1) = match parse_expr_exec(ts, pos + 1, 0) {
            Ok(x) => x,
            Err(x) => {
                return Err(x);
            },
        };
        if !is_word_at(ts, p1, "then") {
            return Err(ParseError::Expected(string_from("`then`")));
        }
        let (a, p2) = match parse_expr_exec(ts, p1 + 1, 0) {
            Ok(x) => x,
            Err(x) => {
                return Err(x);
            },
        };
        if !is_word_at(ts, p2, "else") {
            return Err(ParseError::Expected(string_from("`else`")));
        }
        let (b, p3) = match parse_expr_exec(ts, p2 + 1, BP_LAMBDA) {
            Ok(x) => x,
            Err(x) => {
                return Err(x);
            },
        };
        return Ok((Expr::If(Box::new(c), Box::new(a), Box::new(b)), p3));
    }
    if is_op_at(ts, pos + 1, OpTok::Arrow) {
        return match parse_expr_exec(ts, pos + 2, BP_LAMBDA) {
            Ok((body, p)) => Ok((Expr::Lambda(w.clone(), Box::new(body)), p)),
            Err(x) => Err(x),
        };
    }
    if is_op_at(ts, pos + 1, OpTok::LParen) {
        return match parse_items_exec(ts, pos + 2, Vec::new(), OpTok::RParen) {
            Ok((args, p)) => Ok((Expr::Call(w.clone(), args), p)),
            Err(x) => Err(x),
        };
    }
    let mut path: Vec<String> = Vec::new();
    path.push(w.clone());
    assert(texts(path@) =~= seq![w@]);
    Ok((Expr::Path(path), pos + 1))
}

fn parse_items_exec(ts: &Vec<Tok>, pos: usize, acc: Vec<Expr>, close: OpTok) -> (r: Result<
    (Vec<Expr>, usize),
    ParseError,
>)
    requires
        pos <= ts@.len(),
    ensures
        items_view(r) == parse_items(toks_view(ts@), pos as int, exprs_view(acc@), close),
        r matches Ok((_, p)) ==> pos < p <= ts@.len(),
    decreases ts@.len() - pos, 3int,
{
    assert(toks_view(ts@).len() == ts.len());
    if is_op_at(ts, pos, close) {
        return Ok((acc, pos + 1));
    }
    match parse_expr_exec(ts, pos, 0) {
        Ok((e, p)) => {
            let ghost a0 = acc@;
            let ghost g = e;
            let mut acc = acc;
            if is_op_at(ts, p, OpTok::Comma) {
                acc.push(e);
                proof {
                    lemma_exprs_view_push(a0, g);
                }
                parse_items_exec(ts, p + 1, acc, close)
            } else if is_op_at(ts, p, close) {
                acc.push(e);
                proof {
                    lemma_exprs_view_push(a0, g);
                }
                Ok((acc, p + 1))
            } else {
                Err(expected_exec(close, ts, p))
            }
        },
        Err(x) => Err(x),
    }
}

/// Parse a token list as one expression; every token must be used.
pub fn parse_tokens(ts: &Vec<Tok>) -> (r: Result<Expr, ParseError>)
    ensures
        expr_result_view(r) == expr_of_tokens(toks_view(ts@)),
{
    match parse_expr_exec(ts, 0, 0) {
        Ok((e, p)) => if p == ts.len() {
            Ok(e)
        } else {
            Err(ParseError::UnexpectedToken(found_exec(ts, p)))
        },
        Err(x) => Err(x),
    }
}

/// Parse an expression from text, reading units with the symbols in `units`.
pub fn parse(src: &str, units: &UnitSymbols) -> (r: Result<Expr, ParseError>)
    ensures
        expr_result_view(r) == expr_of_text(src@, units@),
{
    match lex(src, units) {
        Ok(ts) => parse_tokens(&ts),
        Err(e) => Err(e),
    }
}

// ------------------------------------------------------------------------------ the laws

/// What each arithmetic or comparison operator token means.
pub open spec fn op_meaning(o: OpTok) -> BinOp {
    match o {
        OpTok::Plus => BinOp::Add,
        OpTok::Minus => BinOp::Sub,
        OpTok::Star => BinOp::Mul,
        OpTok::Slash => BinOp::Div,
        OpTok::Caret => BinOp::Pow,
        OpTok::Lt => BinOp::Lt,
        OpTok::Le => BinOp::Le,
        OpTok::Gt => BinOp::Gt,
        OpTok::Ge => BinOp::Ge,
        OpTok::EqEq => BinOp::Eq,
        _ => BinOp::Ne,
    }
}

pub open spec fn is_additive(o: OpTok) -> bool {
    o == OpTok::Plus || o == OpTok::Minus
}

pub open spec fn is_multiplicative(o: OpTok) -> bool {
    o == OpTok::Star || o == OpTok::Slash
}

pub open spec fn is_comparison(o: OpTok) -> bool {
    o == OpTok::Lt || o == OpTok::Le || o == OpTok::Gt || o == OpTok::Ge || o == OpTok::EqEq || o == OpTok::Ne
}

/// Two operators of one precedence: both additive, both multiplicative, or both comparisons.
pub open spec fn same_precedence(a: OpTok, b: OpTok) -> bool {
    (is_additive(a) && is_additive(b)) || (is_multiplicative(a) && is_multiplicative(b)) || (is_comparison(a)
        && is_comparison(b))
}

pub open spec fn num(n: NumV) -> Box<ExprV> {
    Box::new(ExprV::Num(n))
}

/// Operators of one precedence other than `^` bind left to right: `x - y + z` is
/// `(x - y) + z` and `x - y - z` is `(x - y) - z`, whatever the numbers.
pub proof fn law_operators_bind_left_to_right(x: NumV, y: NumV, z: NumV, o1: OpTok, o2: OpTok)
    requires
        same_precedence(o1, o2),
    ensures
        expr_of_tokens(seq![TokV::Num(x), TokV::Op(o1), TokV::Num(y), TokV::Op(o2), TokV::Num(z)]) == Ok::<
            ExprV,
            ParseErrorV,
        >(
            ExprV::Binary(
                op_meaning(o2),
                Box::new(ExprV::Binary(op_meaning(o1), num(x), num(y))),
                num(z),
            ),
        ),
{
    let ts = seq![TokV::Num(x), TokV::Op(o1), TokV::Num(y), TokV::Op(o2), TokV::Num(z)];
    let (p1, l1, r1) = infix(ts[1])->0;
    let (p2, l2, r2) = infix(ts[3])->0;
    assert(infix(ts[1]) is Some && p1 == op_meaning(o1) && l1 >= 0 && l2 < r1 && l2 == l1);
    assert(infix(ts[3]) is Some && p2 == op_meaning(o2) && l2 >= 0 && r2 > 0);
    assert(parse_prefix(ts, 0) == Ok::<(ExprV, int), ParseErrorV>((ExprV::Num(x), 1)));
    assert(parse_prefix(ts, 2) == Ok::<(ExprV, int), ParseErrorV>((ExprV::Num(y), 3)));
    assert(parse_prefix(ts, 4) == Ok::<(ExprV, int), ParseErrorV>((ExprV::Num(z), 5)));
    assert(parse_infix(ts, 3, ExprV::Num(y), r1) == Ok::<(ExprV, int), ParseErrorV>((ExprV::Num(y), 3)));
    assert(parse_expr(ts, 2, r1) == Ok::<(ExprV, int), ParseErrorV>((ExprV::Num(y), 3)));
    assert(parse_infix(ts, 5, ExprV::Num(z), r2) == Ok::<(ExprV, int), ParseErrorV>((ExprV::Num(z), 5)));
    assert(parse_expr(ts, 4, r2) == Ok::<(ExprV, int), ParseErrorV>((ExprV::Num(z), 5)));
    let e1 = ExprV::Binary(p1, num(x), num(y));
    let e2 = ExprV::Binary(p2, Box::new(e1), num(z));
    assert(parse_infix(ts, 5, e2, 0) == Ok::<(ExprV, int), ParseErrorV>((e2, 5)));
    assert(parse_infix(ts, 3, e1, 0) == Ok::<(ExprV, int), ParseErrorV>((e2, 5)));
    assert(parse_infix(ts, 1, ExprV::Num(x), 0) == Ok::<(ExprV, int), ParseErrorV>((e2, 5)));
    assert(parse_expr(ts, 0, 0) == Ok::<(ExprV, int), ParseErrorV>((e2, 5)));
}

/// `^` binds right to left: `x ^ y ^ z` is `x ^ (y ^ z)`.
pub proof fn law_power_binds_right_to_left(x: NumV, y: NumV, z: NumV)
    ensures
        expr_of_tokens(
            seq![TokV::Num(x), TokV::Op(OpTok::Caret), TokV::Num(y), TokV::Op(OpTok::Caret), TokV::Num(z)],
        ) == Ok::<ExprV, ParseErrorV>(
            ExprV::Binary(BinOp::Pow, num(x), Box::new(ExprV::Binary(BinOp::Pow, num(y), num(z)))),
        ),
{
    let ts = seq![TokV::Num(x), TokV::Op(OpTok::Caret), TokV::Num(y), TokV::Op(OpTok::Caret), TokV::Num(z)];
    let r = BP_POW as int;
    assert(parse_prefix(ts, 0) == Ok::<(ExprV, int), ParseErrorV>((ExprV::Num(x), 1)));
    assert(parse_prefix(ts, 2) == Ok::<(ExprV, int), ParseErrorV>((ExprV::Num(y), 3)));
    assert(parse_prefix(ts, 4) == Ok::<(ExprV, int), ParseErrorV>((ExprV::Num(z), 5)));
    assert(parse_infix(ts, 5, ExprV::Num(z), r) == Ok::<(ExprV, int), ParseErrorV>((ExprV::Num(z), 5)));
    assert(parse_expr(ts, 4, r) == Ok::<(ExprV, int), ParseErrorV>((ExprV::Num(z), 5)));
    let inner = ExprV::Binary(BinOp::Pow, num(y), num(z));
    assert(parse_infix(ts, 5, inner, r) == Ok::<(ExprV, int), ParseErrorV>((inner, 5)));
    assert(parse_infix(ts, 3, ExprV::Num(y), r) == Ok::<(ExprV, int), ParseErrorV>((inner, 5)));
    assert(parse_expr(ts, 2, r) == Ok::<(ExprV, int), ParseErrorV>((inner, 5)));
    let whole = ExprV::Binary(BinOp::Pow, num(x), Box::new(inner));
    assert(parse_infix(ts, 5, whole, 0) == Ok::<(ExprV, int), ParseErrorV>((whole, 5)));
    assert(parse_infix(ts, 1, ExprV::Num(x), 0) == Ok::<(ExprV, int), ParseErrorV>((whole, 5)));
    assert(parse_expr(ts, 0, 0) == Ok::<(ExprV, int), ParseErrorV>((whole, 5)));
}

} // verus!
