//! Turning expression text into tokens.

use vstd::prelude::*;

use super::ast::{NumLit, NumV};
use super::error::{ParseError, ParseErrorV};
use crate::text::{
    alphabetic, alphanumeric, digit, is_alphabetic_char, is_alphanumeric_char, is_digit,
    is_white_space, push_char, same_text, string_of, white_space,
};

verus! {

/// Punctuation and operators: `( ) [ ] , . + - * / ^ < <= > >= == != ->`, the spelled-out
/// `and`, `or`, `not`, and `|` for an absolute value.
#[derive(Debug, Clone, Copy, PartialEq, Eq, Structural)]
pub enum OpTok {
    LParen,
    RParen,
    LBracket,
    RBracket,
    Comma,
    Dot,
    Plus,
    Minus,
    Star,
    Slash,
    Caret,
    Lt,
    Le,
    Gt,
    Ge,
    EqEq,
    Ne,
    Arrow,
    And,
    Or,
    Not,
    Abs,
}

#[derive(Debug)]
pub enum Tok {
    Num(NumLit),
    Str(String),
    Ident(String),
    Op(OpTok),
}

pub enum TokV {
    Num(NumV),
    Str(Seq<char>),
    Ident(Seq<char>),
    Op(OpTok),
}

impl View for Tok {
    type V = TokV;

    open spec fn view(&self) -> TokV {
        match self {
            Tok::Num(n) => TokV::Num(n@),
            Tok::Str(s) => TokV::Str(s@),
            Tok::Ident(s) => TokV::Ident(s@),
            Tok::Op(o) => TokV::Op(*o),
        }
    }
}

pub open spec fn toks_view(s: Seq<Tok>) -> Seq<TokV> {
    s.map_values(|t: Tok| t@)
}

/// The unit symbols the unit system knows, such as `mm`, `kg` or `N`.
///
/// A word directly after a number is read as its unit only when it is one of these.
pub struct UnitSymbols {
    pub symbols: Vec<String>,
}

impl View for UnitSymbols {
    type V = Seq<Seq<char>>;

    open spec fn view(&self) -> Seq<Seq<char>> {
        self.symbols@.map_values(|s: String| s@)
    }
}

pub open spec fn is_unit(units: Seq<Seq<char>>, w: Seq<char>) -> bool {
    units.contains(w)
}

/// Words of the language that can never be a unit.
pub open spec fn keyword_spec(w: Seq<char>) -> bool {
    ||| w == "if"@
    ||| w == "then"@
    ||| w == "else"@
    ||| w == "and"@
    ||| w == "or"@
    ||| w == "not"@
    ||| w == "in"@
    ||| w == "true"@
    ||| w == "false"@
}

/// The kinds of character run the lexer reads.
#[derive(Clone, Copy, PartialEq, Eq, Structural)]
pub enum Run {
    Digits,
    Number,
    Alpha,
    Ident,
    Spaces,
}

pub open spec fn in_run(k: Run, c: char) -> bool {
    match k {
        Run::Digits => is_digit(c),
        Run::Number => is_digit(c) || c == '.',
        Run::Alpha => is_alphabetic_char(c),
        Run::Ident => is_alphanumeric_char(c) || c == '_',
        Run::Spaces => c == ' ',
    }
}

/// The first position at or after `i` whose character is not in the run.
pub open spec fn run_end(cs: Seq<char>, i: int, k: Run) -> int
    decreases cs.len() - i,
{
    if 0 <= i < cs.len() && in_run(k, cs[i]) {
        run_end(cs, i + 1, k)
    } else {
        i
    }
}

pub open spec fn exponent_end(cs: Seq<char>, m: int) -> int {
    if 0 <= m < cs.len() && (cs[m] == 'e' || cs[m] == 'E') {
        let k = if m + 1 < cs.len() && (cs[m + 1] == '+' || cs[m + 1] == '-') {
            m + 2
        } else {
            m + 1
        };
        if k < cs.len() && is_digit(cs[k]) {
            run_end(cs, k, Run::Digits)
        } else {
            m
        }
    } else {
        m
    }
}

/// How many decimal points there are in `cs[lo..hi]`.
pub open spec fn dots_in(cs: Seq<char>, lo: int, hi: int) -> nat
    decreases hi - lo,
{
    if hi <= lo {
        0
    } else {
        dots_in(cs, lo, hi - 1) + if cs[hi - 1] == '.' {
            1nat
        } else {
            0nat
        }
    }
}

/// A unit word starting at `start`: `%`, or a known unit symbol that is not a keyword.
pub open spec fn read_unit_word_spec(cs: Seq<char>, units: Seq<Seq<char>>, start: int) -> Option<
    (Seq<char>, int),
> {
    if 0 <= start < cs.len() && cs[start] == '%' {
        Some((seq!['%'], start + 1))
    } else {
        let q = run_end(cs, start, Run::Alpha);
        if q == start {
            None
        } else {
            let w = cs.subrange(start, q);
            if is_unit(units, w) && !keyword_spec(w) {
                Some((w, q))
            } else {
                None
            }
        }
    }
}

/// An optional `^int` after a unit word.
pub open spec fn caret(cs: Seq<char>, j: int, acc: Seq<char>) -> (Seq<char>, int) {
    if 0 <= j < cs.len() && cs[j] == '^' {
        let ds = if j + 1 < cs.len() && cs[j + 1] == '-' {
            j + 2
        } else {
            j + 1
        };
        let k = run_end(cs, ds, Run::Digits);
        if k > ds {
            (acc + cs.subrange(j, k), k)
        } else {
            (acc, j)
        }
    } else {
        (acc, j)
    }
}

/// The rest of a unit expression: powers, and further unit words joined by `*` or `/`.
pub open spec fn unit_tail(cs: Seq<char>, units: Seq<Seq<char>>, j: int, acc: Seq<char>) -> (
    Seq<char>,
    int,
)
    decreases cs.len() - j,
{
    let (acc1, j1) = caret(cs, j, acc);
    if 0 <= j1 < cs.len() && (cs[j1] == '*' || cs[j1] == '/') {
        match read_unit_word_spec(cs, units, j1 + 1) {
            Some((w, next)) => if j < next <= cs.len() && j >= 0 {
                unit_tail(cs, units, next, acc1.push(cs[j1]) + w)
            } else {
                (acc1, j1)
            },
            None => (acc1, j1),
        }
    } else {
        (acc1, j1)
    }
}

/// The unit written after a number that ends at `i`, and where it ends.
pub open spec fn unit_suffix_spec(cs: Seq<char>, units: Seq<Seq<char>>, i: int) -> Option<
    (Seq<char>, int),
> {
    let j = run_end(cs, i, Run::Spaces);
    match read_unit_word_spec(cs, units, j) {
        None => None,
        Some((w, j1)) => Some(unit_tail(cs, units, j1, w)),
    }
}

/// The inside of a quoted string starting at `k`, up to the closing `quote`.
pub open spec fn scan_string(cs: Seq<char>, k: int, quote: char, acc: Seq<char>) -> Result<
    (Seq<char>, int),
    ParseErrorV,
>
    decreases cs.len() - k,
{
    if k < 0 || k >= cs.len() {
        Err(ParseErrorV::UnterminatedString)
    } else if cs[k] == quote {
        Ok((acc, k + 1))
    } else if cs[k] == '\\' && k + 1 < cs.len() {
        scan_string(cs, k + 2, quote, acc.push(cs[k + 1]))
    } else {
        scan_string(cs, k + 1, quote, acc.push(cs[k]))
    }
}

pub open spec fn op2(a: char, b: char) -> Option<OpTok> {
    if a == '<' && b == '=' {
        Some(OpTok::Le)
    } else if a == '>' && b == '=' {
        Some(OpTok::Ge)
    } else if a == '=' && b == '=' {
        Some(OpTok::EqEq)
    } else if a == '!' && b == '=' {
        Some(OpTok::Ne)
    } else if a == '-' && b == '>' {
        Some(OpTok::Arrow)
    } else if a == '&' && b == '&' {
        Some(OpTok::And)
    } else if a == '|' && b == '|' {
        Some(OpTok::Or)
    } else {
        None
    }
}

pub open spec fn op1(c: char) -> Option<OpTok> {
    if c == '(' {
        Some(OpTok::LParen)
    } else if c == ')' {
        Some(OpTok::RParen)
    } else if c == '[' {
        Some(OpTok::LBracket)
    } else if c == ']' {
        Some(OpTok::RBracket)
    } else if c == ',' {
        Some(OpTok::Comma)
    } else if c == '.' {
        Some(OpTok::Dot)
    } else if c == '+' {
        Some(OpTok::Plus)
    } else if c == '-' {
        Some(OpTok::Minus)
    } else if c == '*' {
        Some(OpTok::Star)
    } else if c == '/' {
        Some(OpTok::Slash)
    } else if c == '^' {
        Some(OpTok::Caret)
    } else if c == '<' {
        Some(OpTok::Lt)
    } else if c == '>' {
        Some(OpTok::Gt)
    } else if c == '=' {
        Some(OpTok::EqEq)
    } else if c == '!' {
        Some(OpTok::Not)
    } else if c == '|' {
        Some(OpTok::Abs)
    } else {
        None
    }
}

/// What the lexer does at one position.
pub enum Step {
    Skip(int),
    Token(TokV, int),
    Fail(ParseErrorV),
}

pub open spec fn starts_number(cs: Seq<char>, i: int) -> bool {
    is_digit(cs[i]) || (cs[i] == '.' && i + 1 < cs.len() && is_digit(cs[i + 1]))
}

pub open spec fn lex_number(cs: Seq<char>, units: Seq<Seq<char>>, i: int) -> Step {
    let m = run_end(cs, i, Run::Number);
    let e = exponent_end(cs, m);
    let text = cs.subrange(i, e);
    if dots_in(cs, i, m) > 1 {
        Step::Fail(ParseErrorV::BadNumber(text))
    } else {
        match unit_suffix_spec(cs, units, e) {
            Some((u, j)) => Step::Token(TokV::Num(NumV { text, unit: Some(u), negated: false }), j),
            None => Step::Token(TokV::Num(NumV { text, unit: None, negated: false }), e),
        }
    }
}

pub open spec fn lex_step(cs: Seq<char>, units: Seq<Seq<char>>, i: int) -> Step {
    let c = cs[i];
    if is_white_space(c) {
        Step::Skip(i + 1)
    } else if starts_number(cs, i) {
        lex_number(cs, units, i)
    } else if is_alphabetic_char(c) || c == '_' {
        let j = run_end(cs, i + 1, Run::Ident);
        Step::Token(TokV::Ident(cs.subrange(i, j)), j)
    } else if c == '"' || c == '\'' {
        match scan_string(cs, i + 1, c, seq![]) {
            Ok((s, j)) => Step::Token(TokV::Str(s), j),
            Err(e) => Step::Fail(e),
        }
    } else if i + 1 < cs.len() && op2(c, cs[i + 1]) is Some {
        Step::Token(TokV::Op(op2(c, cs[i + 1])->0), i + 2)
    } else if op1(c) is Some {
        Step::Token(TokV::Op(op1(c)->0), i + 1)
    } else {
        Step::Fail(ParseErrorV::UnexpectedChar(c))
    }
}

pub open spec fn prepend(p: Seq<TokV>, r: Result<Seq<TokV>, ParseErrorV>) -> Result<
    Seq<TokV>,
    ParseErrorV,
> {
    match r {
        Ok(s) => Ok(p + s),
        Err(e) => Err(e),
    }
}

/// The tokens of `cs` from position `i` on.
pub open spec fn lex_from(cs: Seq<char>, units: Seq<Seq<char>>, i: int) -> Result<
    Seq<TokV>,
    ParseErrorV,
>
    decreases cs.len() - i,
{
    if i < 0 || i >= cs.len() {
        Ok(seq![])
    } else {
        match lex_step(cs, units, i) {
            Step::Skip(j) => if i < j <= cs.len() {
                lex_from(cs, units, j)
            } else {
                Err(ParseErrorV::UnexpectedEnd)
            },
            Step::Token(t, j) => if i < j <= cs.len() {
                prepend(seq![t], lex_from(cs, units, j))
            } else {
                Err(ParseErrorV::UnexpectedEnd)
            },
            Step::Fail(e) => Err(e),
        }
    }
}

/// The tokens of a whole expression.
pub open spec fn lex_spec(src: Seq<char>, units: Seq<Seq<char>>) -> Result<
    Seq<TokV>,
    ParseErrorV,
> {
    lex_from(src, units, 0)
}

pub open spec fn lex_result_view(r: Result<Vec<Tok>, ParseError>) -> Result<
    Seq<TokV>,
    ParseErrorV,
> {
    match r {
        Ok(v) => Ok(toks_view(v@)),
        Err(e) => Err(e@),
    }
}

/// A run ends at or after where it starts.
proof fn lemma_run_end_ge(cs: Seq<char>, i: int, k: Run)
    ensures
        run_end(cs, i, k) >= i,
        0 <= i <= cs.len() ==> run_end(cs, i, k) <= cs.len(),
    decreases cs.len() - i,
{
    if 0 <= i < cs.len() && in_run(k, cs[i]) {
        lemma_run_end_ge(cs, i + 1, k);
    }
}

fn in_run_exec(k: Run, c: char) -> (r: bool)
    ensures
        r == in_run(k, c),
{
    match k {
        Run::Digits => digit(c),
        Run::Number => digit(c) || c == '.',
        Run::Alpha => alphabetic(c),
        Run::Ident => alphanumeric(c) || c == '_',
        Run::Spaces => c == ' ',
    }
}

fn scan(cs: &Vec<char>, i: usize, k: Run) -> (r: usize)
    requires
        i <= cs@.len(),
    ensures
        r as int == run_end(cs@, i as int, k),
        i <= r <= cs@.len(),
{
    let mut j = i;
    while j < cs.len() && in_run_exec(k, cs[j])
        invariant
            i <= j <= cs@.len(),
            run_end(cs@, i as int, k) == run_end(cs@, j as int, k),
        decreases cs@.len() - j,
    {
        j += 1;
    }
    j
}

fn exponent_end_exec(cs: &Vec<char>, m: usize) -> (r: usize)
    requires
        m <= cs@.len(),
    ensures
        r as int == exponent_end(cs@, m as int),
        m <= r <= cs@.len(),
{
    if m < cs.len() && (cs[m] == 'e' || cs[m] == 'E') {
        let k = if m + 1 < cs.len() && (cs[m + 1] == '+' || cs[m + 1] == '-') {
            m + 2
        } else {
            m + 1
        };
        if k < cs.len() && digit(cs[k]) {
            scan(cs, k, Run::Digits)
        } else {
            m
        }
    } else {
        m
    }
}

fn count_dots(cs: &Vec<char>, lo: usize, hi: usize) -> (r: usize)
    requires
        lo <= hi <= cs@.len(),
    ensures
        r as nat == dots_in(cs@, lo as int, hi as int),
        r <= hi - lo,
{
    let mut n: usize = 0;
    let mut j = lo;
    while j < hi
        invariant
            lo <= j <= hi <= cs@.len(),
            n as nat == dots_in(cs@, lo as int, j as int),
            n <= j - lo,
        decreases hi - j,
    {
        if cs[j] == '.' {
            n += 1;
        }
        j += 1;
    }
    n
}

/// Is `w` one of the language's keywords?
pub fn is_keyword(w: &str) -> (r: bool)
    ensures
        r == keyword_spec(w@),
{
    same_text(w, "if") || same_text(w, "then") || same_text(w, "else") || same_text(w, "and")
        || same_text(w, "or") || same_text(w, "not") || same_text(w, "in") || same_text(w, "true")
        || same_text(w, "false")
}

fn known_unit(units: &UnitSymbols, w: &str) -> (r: bool)
    ensures
        r == is_unit(units@, w@),
{
    let mut i: usize = 0;
    while i < units.symbols.len()
        invariant
            0 <= i <= units.symbols@.len(),
            forall|j: int| 0 <= j < i ==> (#[trigger] units.symbols@[j])@ != w@,
        decreases units.symbols@.len() - i,
    {
        if same_text(units.symbols[i].as_str(), w) {
            assert(units@[i as int] == w@);
            return true;
        }
        i += 1;
    }
    assert forall|j: int| 0 <= j < units@.len() implies units@[j] != w@ by {
        assert(units@[j] == units.symbols@[j]@);
    }
    false
}

fn read_unit_word(cs: &Vec<char>, units: &UnitSymbols, start: usize) -> (r: Option<
    (String, usize),
>)
    requires
        start <= cs@.len(),
    ensures
        match r {
            Some((w, q)) => read_unit_word_spec(cs@, units@, start as int) == Some((w@, q as int)) && start
                < q <= cs@.len(),
            None => read_unit_word_spec(cs@, units@, start as int) is None,
        },
{
    if start < cs.len() && cs[start] == '%' {
        let mut w = String::new();
        push_char(&mut w, '%');
        assert(w@ =~= seq!['%']);
        return Some((w, start + 1));
    }
    let q = scan(cs, start, Run::Alpha);
    if q == start {
        return None;
    }
    let w = string_of(cs, start, q);
    if known_unit(units, w.as_str()) && !is_keyword(w.as_str()) {
        Some((w, q))
    } else {
        None
    }
}

fn caret_exec(cs: &Vec<char>, j: usize, acc: String) -> (r: (String, usize))
    requires
        j <= cs@.len(),
    ensures
        caret(cs@, j as int, acc@) == (r.0@, r.1 as int),
        j <= r.1 <= cs@.len(),
{
    if j < cs.len() && cs[j] == '^' {
        let ds = if j + 1 < cs.len() && cs[j + 1] == '-' {
            j + 2
        } else {
            j + 1
        };
        let k = scan(cs, ds, Run::Digits);
        if k > ds {
            let ghost a0 = acc@;
            let mut acc = acc;
            let mut t = j;
            while t < k
                invariant
                    j <= t <= k <= cs@.len(),
                    acc@ == a0 + cs@.subrange(j as int, t as int),
                decreases k - t,
            {
                push_char(&mut acc, cs[t]);
                t += 1;
                assert(acc@ =~= a0 + cs@.subrange(j as int, t as int));
            }
            (acc, k)
        } else {
            (acc, j)
        }
    } else {
        (acc, j)
    }
}

fn append_string(acc: &mut String, w: &String)
    ensures
        final(acc)@ == old(acc)@ + w@,
{
    acc.append(w.as_str());
}

#[verifier::loop_isolation(false)]
fn unit_tail_exec(cs: &Vec<char>, units: &UnitSymbols, j: usize, acc: String) -> (r: (
    String,
    usize,
))
    requires
        j <= cs@.len(),
    ensures
        unit_tail(cs@, units@, j as int, acc@) == (r.0@, r.1 as int),
        j <= r.1 <= cs@.len(),
{
    let mut j = j;
    let mut acc = acc;
    let ghost j0 = j as int;
    let ghost a0 = acc@;
    loop
        invariant
            j0 <= j <= cs@.len(),
            unit_tail(cs@, units@, j0, a0) == unit_tail(cs@, units@, j as int, acc@),
        decreases cs@.len() - j,
    {
        let ghost acc_in = acc@;
        let (acc1, j1) = caret_exec(cs, j, acc);
        assert(caret(cs@, j as int, acc_in) == (acc1@, j1 as int));
        if j1 < cs.len() && (cs[j1] == '*' || cs[j1] == '/') {
            match read_unit_word(cs, units, j1 + 1) {
                Some((w, next)) => {
                    let mut a = acc1;
                    push_char(&mut a, cs[j1]);
                    append_string(&mut a, &w);
                    acc = a;
                    j = next;
                },
                None => {
                    assert(unit_tail(cs@, units@, j as int, acc_in) == (acc1@, j1 as int));
                    return (acc1, j1);
                },
            }
        } else {
            return (acc1, j1);
        }
    }
}

fn lex_unit_suffix(cs: &Vec<char>, units: &UnitSymbols, i: usize) -> (r: Option<(String, usize)>)
    requires
        i <= cs@.len(),
    ensures
        match r {
            Some((u, j)) => unit_suffix_spec(cs@, units@, i as int) == Some((u@, j as int)) && i < j
                <= cs@.len(),
            None => unit_suffix_spec(cs@, units@, i as int) is None,
        },
{
    let j = scan(cs, i, Run::Spaces);
    match read_unit_word(cs, units, j) {
        None => None,
        Some((w, j1)) => {
            let (u, j2) = unit_tail_exec(cs, units, j1, w);
            Some((u, j2))
        },
    }
}

#[verifier::loop_isolation(false)]
fn scan_string_exec(cs: &Vec<char>, k: usize, quote: char) -> (r: Result<(String, usize), ParseError>)
    requires
        k <= cs@.len(),
    ensures
        match r {
            Ok((s, j)) => scan_string(cs@, k as int, quote, seq![]) == Ok::<(Seq<char>, int), ParseErrorV>((s@, j as int))
                && k < j <= cs@.len(),
            Err(e) => scan_string(cs@, k as int, quote, seq![]) == Err::<(Seq<char>, int), ParseErrorV>(e@),
        },
{
    let mut out = String::new();
    let mut t = k;
    loop
        invariant
            k <= t <= cs@.len(),
            scan_string(cs@, k as int, quote, seq![]) == scan_string(cs@, t as int, quote, out@),
        decreases cs@.len() - t,
    {
        if t >= cs.len() {
            return Err(ParseError::UnterminatedString);
        }
        if cs[t] == quote {
            return Ok((out, t + 1));
        }
        if cs[t] == '\\' && t + 1 < cs.len() {
            push_char(&mut out, cs[t + 1]);
            t += 2;
        } else {
            push_char(&mut out, cs[t]);
            t += 1;
        }
    }
}

fn op2_exec(a: char, b: char) -> (r: Option<OpTok>)
    ensures
        r == op2(a, b),
{
    if a == '<' && b == '=' {
        Some(OpTok::Le)
    } else if a == '>' && b == '=' {
        Some(OpTok::Ge)
    } else if a == '=' && b == '=' {
        Some(OpTok::EqEq)
    } else if a == '!' && b == '=' {
        Some(OpTok::Ne)
    } else if a == '-' && b == '>' {
        Some(OpTok::Arrow)
    } else if a == '&' && b == '&' {
        Some(OpTok::And)
    } else if a == '|' && b == '|' {
        Some(OpTok::Or)
    } else {
        None
    }
}

fn op1_exec(c: char) -> (r: Option<OpTok>)
    ensures
        r == op1(c),
{
    if c == '(' {
        Some(OpTok::LParen)
    } else if c == ')' {
        Some(OpTok::RParen)
    } else if c == '[' {
        Some(OpTok::LBracket)
    } else if c == ']' {
        Some(OpTok::RBracket)
    } else if c == ',' {
        Some(OpTok::Comma)
    } else if c == '.' {
        Some(OpTok::Dot)
    } else if c == '+' {
        Some(OpTok::Plus)
    } else if c == '-' {
        Some(OpTok::Minus)
    } else if c == '*' {
        Some(OpTok::Star)
    } else if c == '/' {
        Some(OpTok::Slash)
    } else if c == '^' {
        Some(OpTok::Caret)
    } else if c == '<' {
        Some(OpTok::Lt)
    } else if c == '>' {
        Some(OpTok::Gt)
    } else if c == '=' {
        Some(OpTok::EqEq)
    } else if c == '!' {
        Some(OpTok::Not)
    } else if c == '|' {
        Some(OpTok::Abs)
    } else {
        None
    }
}

enum StepX {
    Skip(usize),
    Token(Tok, usize),
    Fail(ParseError),
}

spec fn step_view(s: StepX) -> Step {
    match s {
        StepX::Skip(j) => Step::Skip(j as int),
        StepX::Token(t, j) => Step::Token(t@, j as int),
        StepX::Fail(e) => Step::Fail(e@),
    }
}

fn lex_number_exec(cs: &Vec<char>, units: &UnitSymbols, i: usize) -> (r: StepX)
    requires
        i < cs@.len(),
        starts_number(cs@, i as int),
    ensures
        step_view(r) == lex_number(cs@, units@, i as int),
        r matches StepX::Token(_, j) ==> i < j <= cs@.len(),
{
    let m = scan(cs, i, Run::Number);
    proof {
        assert(in_run(Run::Number, cs@[i as int]));
        lemma_run_end_ge(cs@, i as int + 1, Run::Number);
    }
    let e = exponent_end_exec(cs, m);
    let text = string_of(cs, i, e);
    if count_dots(cs, i, m) > 1 {
        return StepX::Fail(ParseError::BadNumber(text));
    }
    match lex_unit_suffix(cs, units, e) {
        Some((u, j)) => StepX::Token(Tok::Num(NumLit { text, unit: Some(u), negated: false }), j),
        None => StepX::Token(Tok::Num(NumLit { text, unit: None, negated: false }), e),
    }
}

fn lex_step_exec(cs: &Vec<char>, units: &UnitSymbols, i: usize) -> (r: StepX)
    requires
        i < cs@.len(),
    ensures
        step_view(r) == lex_step(cs@, units@, i as int),
        r matches StepX::Skip(j) ==> i < j <= cs@.len(),
        r matches StepX::Token(_, j) ==> i < j <= cs@.len(),
{
    assert(cs@.len() == cs.len());
    let c = cs[i];
    if white_space(c) {
        return StepX::Skip(i + 1);
    }
    if digit(c) || (c == '.' && i + 1 < cs.len() && digit(cs[i + 1])) {
        return lex_number_exec(cs, units, i);
    }
    if alphabetic(c) || c == '_' {
        let j = scan(cs, i + 1, Run::Ident);
        proof {
            lemma_run_end_ge(cs@, i as int + 1, Run::Ident);
        }
        let name = string_of(cs, i, j);
        return StepX::Token(Tok::Ident(name), j);
    }
    if c == '"' || c == '\'' {
        return match scan_string_exec(cs, i + 1, c) {
            Ok((s, j)) => StepX::Token(Tok::Str(s), j),
            Err(e) => StepX::Fail(e),
        };
    }
    if i + 1 < cs.len() {
        if let Some(op) = op2_exec(c, cs[i + 1]) {
            return StepX::Token(Tok::Op(op), i + 2);
        }
    }
    match op1_exec(c) {
        Some(op) => StepX::Token(Tok::Op(op), i + 1),
        None => StepX::Fail(ParseError::UnexpectedChar(c)),
    }
}

/// Split an expression into tokens.
///
/// A number may be followed by a unit written with the symbols in `units`, joined by `*` and
/// `/` and raised to whole powers with `^`: `380 mm`, `1550 kg/m^3`, `0.18 kg*m^2`.
pub fn lex(src: &str, units: &UnitSymbols) -> (r: Result<Vec<Tok>, ParseError>)
    ensures
        lex_result_view(r) == lex_spec(src@, units@),
{
    let cs = crate::text::chars_of(src);
    let mut out: Vec<Tok> = Vec::new();
    let mut i: usize = 0;
    while i < cs.len()
        invariant
            cs@ == src@,
            0 <= i <= cs@.len(),
            lex_from(cs@, units@, 0) == prepend(toks_view(out@), lex_from(cs@, units@, i as int)),
        decreases cs@.len() - i,
    {
        let ghost before = toks_view(out@);
        match lex_step_exec(&cs, units, i) {
            StepX::Skip(j) => {
                i = j;
            },
            StepX::Token(t, j) => {
                let ghost tv = t@;
                out.push(t);
                proof {
                    assert(toks_view(out@) =~= before + seq![tv]);
                    match lex_from(cs@, units@, j as int) {
                        Ok(rest) => {
                            assert(before + (seq![tv] + rest) =~= (before + seq![tv]) + rest);
                        },
                        Err(_) => {},
                    }
                }
                i = j;
            },
            StepX::Fail(e) => {
                return Err(e);
            },
        }
    }
    assert(toks_view(out@) + seq![] =~= toks_view(out@));
    Ok(out)
}

} // verus!
