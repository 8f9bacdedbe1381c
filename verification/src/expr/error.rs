//! Why a piece of text is not an expression.

use vstd::prelude::*;

verus! {

#[derive(Debug)]
pub enum ParseError {
    /// A number that is not a number, such as `1.2.3`.
    BadNumber(String),
    /// A unit the unit system does not accept.
    Unit(String),
    UnterminatedString,
    UnexpectedChar(char),
    UnexpectedEnd,
    UnexpectedToken(String),
    Expected(String),
}

pub enum ParseErrorV {
    BadNumber(Seq<char>),
    Unit(Seq<char>),
    UnterminatedString,
    UnexpectedChar(char),
    UnexpectedEnd,
    UnexpectedToken(Seq<char>),
    Expected(Seq<char>),
}

impl View for ParseError {
    type V = ParseErrorV;

    open spec fn view(&self) -> ParseErrorV {
        match self {
            ParseError::BadNumber(s) => ParseErrorV::BadNumber(s@),
            ParseError::Unit(s) => ParseErrorV::Unit(s@),
            ParseError::UnterminatedString => ParseErrorV::UnterminatedString,
            ParseError::UnexpectedChar(c) => ParseErrorV::UnexpectedChar(*c),
            ParseError::UnexpectedEnd => ParseErrorV::UnexpectedEnd,
            ParseError::UnexpectedToken(s) => ParseErrorV::UnexpectedToken(s@),
            ParseError::Expected(s) => ParseErrorV::Expected(s@),
        }
    }
}

impl ParseError {
    /// The message a person reads.
    pub fn message(&self) -> (r: String)
        ensures
            r@ == error_message(self@),
    {
        match self {
            ParseError::BadNumber(s) => {
                let mut m = crate::text::concat("bad number `", s.as_str());
                m.append("`");
                m
            },
            ParseError::Unit(s) => crate::text::concat("unit error: ", s.as_str()),
            ParseError::UnterminatedString => crate::text::string_from("unterminated string"),
            ParseError::UnexpectedChar(c) => {
                let mut m = crate::text::string_from("unexpected character `");
                crate::text::push_char(&mut m, *c);
                m.append("`");
                m
            },
            ParseError::UnexpectedEnd => crate::text::string_from("unexpected end of expression"),
            ParseError::UnexpectedToken(s) => crate::text::concat("unexpected token ", s.as_str()),
            ParseError::Expected(s) => crate::text::concat("expected ", s.as_str()),
        }
    }
}

pub open spec fn error_message(e: ParseErrorV) -> Seq<char> {
    match e {
        ParseErrorV::BadNumber(s) => "bad number `"@ + s + "`"@,
        ParseErrorV::Unit(s) => "unit error: "@ + s,
        ParseErrorV::UnterminatedString => "unterminated string"@,
        ParseErrorV::UnexpectedChar(c) => "unexpected character `"@.push(c) + "`"@,
        ParseErrorV::UnexpectedEnd => "unexpected end of expression"@,
        ParseErrorV::UnexpectedToken(s) => "unexpected token "@ + s,
        ParseErrorV::Expected(s) => "expected "@ + s,
    }
}

} // verus!
