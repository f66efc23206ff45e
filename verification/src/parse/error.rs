use crate::decimal::{spec_digits, spec_render, Decimal};
use crate::parse::token::{tokens_wf, Token, TokenV};
use vstd::prelude::*;
use vstd::string::StringSliceAdditionalSpecFns;

verus! {

/// A fatal lexing failure.
#[derive(Debug, Clone, Copy, PartialEq, Eq, Structural)]
pub enum LexError {
    /// A byte that starts no token.
    Unrecognized(u8),
    /// The input ended inside a token (an unterminated string).
    UnexpectedEof,
    /// A numeric literal with more significant digits than a canonical
    /// decimal can hold.
    NumberTooLarge,
}

/// A parsing failure.
#[derive(Debug)]
pub enum ParseError {
    /// The next token fits none of the alternatives the grammar allows
    /// here.
    Unexpected { got: Token, expected: Vec<Token> },
    /// The token stream ended where the grammar needs more.
    UnexpectedEnd,
    /// A column type name other than `string` or `number`.
    UnknownType(Vec<u8>),
    /// A cursor underflow that the parser's own discipline rules out.
    Internal,
}

/// Specification-level form of a parse error.
pub enum ParseErrV {
    Unexpected { got: TokenV, expected: Seq<TokenV> },
    UnexpectedEnd,
    UnknownType(Seq<u8>),
    Internal,
}

impl View for ParseError {
    type V = ParseErrV;

    open spec fn view(&self) -> ParseErrV {
        match self {
            ParseError::Unexpected { got, expected } => ParseErrV::Unexpected {
                got: got@,
                expected: expected.deep_view(),
            },
            ParseError::UnexpectedEnd => ParseErrV::UnexpectedEnd,
            ParseError::UnknownType(name) => ParseErrV::UnknownType(name@),
            ParseError::Internal => ParseErrV::Internal,
        }
    }
}

impl DeepView for ParseError {
    type V = ParseErrV;

    open spec fn deep_view(&self) -> ParseErrV {
        self.view()
    }
}

impl ParseErrV {
    /// Every token the error mentions is well formed.
    pub open spec fn wf(self) -> bool {
        match self {
            ParseErrV::Unexpected { got, expected } => got.wf() && tokens_wf(expected),
            _ => true,
        }
    }
}

/// Fails with an `Unexpected` error naming the offending token and the
/// alternatives the grammar would have accepted.
pub fn throw_unexpected<T>(got: &Token, expected: Vec<Token>) -> (r: Result<T, ParseError>)
    ensures
        r matches Err(e) && e@ == (ParseErrV::Unexpected {
            got: got@,
            expected: expected.deep_view(),
        }),
{
    Err(ParseError::Unexpected { got: got.clone(), expected })
}

/// Debug text of a decimal, in the float-like form the diagnostics use:
/// integers carry a trailing `.0`.
pub open spec fn spec_decimal_debug(d: Decimal) -> Seq<u8> {
    if d.scale == 0 {
        spec_digits(d.mantissa as nat) + seq![46u8, 48u8]
    } else {
        spec_render(d)
    }
}

/// Debug text of a token, as the diagnostics print it.
pub open spec fn spec_token_debug(t: TokenV) -> Seq<u8> {
    match t {
        TokenV::Star => ("Star").spec_bytes(),
        TokenV::LeftParen => ("LeftParen").spec_bytes(),
        TokenV::RightParen => ("RightParen").spec_bytes(),
        TokenV::Comma => ("Comma").spec_bytes(),
        TokenV::GreaterThan => ("GreaterThan").spec_bytes(),
        TokenV::LessThan => ("LessThan").spec_bytes(),
        TokenV::Equal => ("Equal").spec_bytes(),
        TokenV::GreaterEqual => ("GreaterEqual").spec_bytes(),
        TokenV::LessEqual => ("LessEqual").spec_bytes(),
        TokenV::And => ("And").spec_bytes(),
        TokenV::Or => ("Or").spec_bytes(),
        TokenV::Insert => ("Insert").spec_bytes(),
        TokenV::Select => ("Select").spec_bytes(),
        TokenV::From => ("From").spec_bytes(),
        TokenV::Into => ("Into").spec_bytes(),
        TokenV::Values => ("Values").spec_bytes(),
        TokenV::Create => ("Create").spec_bytes(),
        TokenV::Table => ("Table").spec_bytes(),
        TokenV::As => ("As").spec_bytes(),
        TokenV::Not => ("Not").spec_bytes(),
        TokenV::Null => ("Null").spec_bytes(),
        TokenV::Unique => ("Unique").spec_bytes(),
        TokenV::Primary => ("Primary").spec_bytes(),
        TokenV::Foreign => ("Foreign").spec_bytes(),
        TokenV::Key => ("Key").spec_bytes(),
        TokenV::Check => ("Check").spec_bytes(),
        TokenV::Default => ("Default").spec_bytes(),
        TokenV::Index => ("Index").spec_bytes(),
        TokenV::Identifier(b) => ("Identifier(\"").spec_bytes() + b + ("\")").spec_bytes(),
        TokenV::Number(d) => ("Number(").spec_bytes() + spec_decimal_debug(d) + seq![41u8],
        TokenV::String(b) => ("String(\"").spec_bytes() + b + ("\")").spec_bytes(),
        TokenV::Bool(b) => if b {
            ("Bool(true)").spec_bytes()
        } else {
            ("Bool(false)").spec_bytes()
        },
        TokenV::EOF => ("EOF").spec_bytes(),
    }
}

/// Debug text of a token.
pub fn token_debug(t: &Token) -> (r: Vec<u8>)
    requires
        t@.wf(),
    ensures
        r@ == spec_token_debug(t@),
{
    let mut out: Vec<u8> = Vec::new();
    match t {
        Token::Star => out.extend_from_slice(("Star").as_bytes()),
        Token::LeftParen => out.extend_from_slice(("LeftParen").as_bytes()),
        Token::RightParen => out.extend_from_slice(("RightParen").as_bytes()),
        Token::Comma => out.extend_from_slice(("Comma").as_bytes()),
        Token::GreaterThan => out.extend_from_slice(("GreaterThan").as_bytes()),
        Token::LessThan => out.extend_from_slice(("LessThan").as_bytes()),
        Token::Equal => out.extend_from_slice(("Equal").as_bytes()),
        Token::GreaterEqual => out.extend_from_slice(("GreaterEqual").as_bytes()),
        Token::LessEqual => out.extend_from_slice(("LessEqual").as_bytes()),
        Token::And => out.extend_from_slice(("And").as_bytes()),
        Token::Or => out.extend_from_slice(("Or").as_bytes()),
        Token::Insert => out.extend_from_slice(("Insert").as_bytes()),
        Token::Select => out.extend_from_slice(("Select").as_bytes()),
        Token::From => out.extend_from_slice(("From").as_bytes()),
        Token::Into => out.extend_from_slice(("Into").as_bytes()),
        Token::Values => out.extend_from_slice(("Values").as_bytes()),
        Token::Create => out.extend_from_slice(("Create").as_bytes()),
        Token::Table => out.extend_from_slice(("Table").as_bytes()),
        Token::As => out.extend_from_slice(("As").as_bytes()),
        Token::Not => out.extend_from_slice(("Not").as_bytes()),
        Token::Null => out.extend_from_slice(("Null").as_bytes()),
        Token::Unique => out.extend_from_slice(("Unique").as_bytes()),
        Token::Primary => out.extend_from_slice(("Primary").as_bytes()),
        Token::Foreign => out.extend_from_slice(("Foreign").as_bytes()),
        Token::Key => out.extend_from_slice(("Key").as_bytes()),
        Token::Check => out.extend_from_slice(("Check").as_bytes()),
        Token::Default => out.extend_from_slice(("Default").as_bytes()),
        Token::Index => out.extend_from_slice(("Index").as_bytes()),
        Token::Identifier(b) => {
            out.extend_from_slice(("Identifier(\"").as_bytes());
            out.extend_from_slice(b.as_slice());
            out.extend_from_slice(("\")").as_bytes());
        },
        Token::Number(d) => {
            out.extend_from_slice(("Number(").as_bytes());
            let mut digits = decimal_debug(d);
            out.append(&mut digits);
            out.push(41);
        },
        Token::String(b) => {
            out.extend_from_slice(("String(\"").as_bytes());
            out.extend_from_slice(b.as_slice());
            out.extend_from_slice(("\")").as_bytes());
        },
        Token::Bool(b) => {
            if *b {
                out.extend_from_slice(("Bool(true)").as_bytes());
            } else {
                out.extend_from_slice(("Bool(false)").as_bytes());
            }
        },
        Token::EOF => out.extend_from_slice(("EOF").as_bytes()),
    }
    out
}

/// Debug text of a decimal (trailing `.0` on integers).
pub fn decimal_debug(d: &Decimal) -> (r: Vec<u8>)
    requires
        d.wf(),
    ensures
        r@ == spec_decimal_debug(*d),
{
    let mut out = d.to_bytes();
    if d.scale == 0 {
        out.push(46);
        out.push(48);
    }
    out
}

/// The items of `ts` before index `i`, each rendered in debug form and
/// preceded by a comma separator.
pub open spec fn spec_expected_rest(ts: Seq<TokenV>, i: int) -> Seq<u8>
    decreases i,
{
    if i <= 1 {
        Seq::empty()
    } else {
        spec_expected_rest(ts, i - 1) + (", ").spec_bytes() + spec_token_debug(ts[i - 1])
    }
}

/// Message text of a parse error.
pub open spec fn spec_parse_message(e: ParseErrV) -> Seq<u8> {
    match e {
        ParseErrV::Unexpected { got, expected } => {
            let head = ("Unexpected token: `").spec_bytes() + spec_token_debug(got) + (
            "`; expected one of: ").spec_bytes();
            if expected.len() == 0 {
                head
            } else {
                head + spec_token_debug(expected[0]) + spec_expected_rest(
                    expected,
                    expected.len() as int,
                )
            }
        },
        ParseErrV::UnexpectedEnd => ("Unexpected end of file").spec_bytes(),
        ParseErrV::UnknownType(name) => ("unknown type ").spec_bytes() + name,
        ParseErrV::Internal => ("Internal error").spec_bytes(),
    }
}

/// Message text of a lex error.
pub open spec fn spec_lex_message(e: LexError) -> Seq<u8> {
    match e {
        LexError::Unrecognized(b) => ("Unrecognized token '").spec_bytes() + seq![b, 39u8],
        LexError::UnexpectedEof => ("Unexpected end of file").spec_bytes(),
        LexError::NumberTooLarge => ("number too large").spec_bytes(),
    }
}

impl LexError {
    /// The diagnostic text of this error.
    pub fn message(&self) -> (r: Vec<u8>)
        ensures
            r@ == spec_lex_message(*self),
    {
        let mut out: Vec<u8> = Vec::new();
        match self {
            LexError::Unrecognized(b) => {
                out.extend_from_slice(("Unrecognized token '").as_bytes());
                out.push(*b);
                out.push(39);
            },
            LexError::UnexpectedEof => {
                out.extend_from_slice(("Unexpected end of file").as_bytes());
            },
            LexError::NumberTooLarge => {
                out.extend_from_slice(("number too large").as_bytes());
            },
        }
        out
    }
}

impl ParseError {
    /// The diagnostic text of this error.
    pub fn message(&self) -> (r: Vec<u8>)
        requires
            self@.wf(),
        ensures
            r@ == spec_parse_message(self@),
    {
        let mut out: Vec<u8> = Vec::new();
        match self {
            ParseError::Unexpected { got, expected } => {
                out.extend_from_slice(("Unexpected token: `").as_bytes());
                let mut got_text = token_debug(got);
                out.append(&mut got_text);
                out.extend_from_slice(("`; expected one of: ").as_bytes());
                if expected.len() > 0 {
                    proof {
                        assert(expected.deep_view()[0] == expected@[0]@);
                        assert(expected.deep_view()[0].wf());
                    }
                    let mut first = token_debug(&expected[0]);
                    out.append(&mut first);
                    let mut i: usize = 1;
                    while i < expected.len()
                        invariant
                            1 <= i <= expected@.len(),
                            tokens_wf(expected.deep_view()),
                            got@.wf(),
                            out@ == ("Unexpected token: `").spec_bytes() + spec_token_debug(got@)
                                + ("`; expected one of: ").spec_bytes() + spec_token_debug(
                                expected.deep_view()[0],
                            ) + spec_expected_rest(expected.deep_view(), i as int),
                        decreases expected@.len() - i,
                    {
                        out.extend_from_slice((", ").as_bytes());
                        proof {
                            assert(expected.deep_view()[i as int] == expected@[i as int]@);
                            assert(expected.deep_view()[i as int].wf());
                        }
                        let mut item = token_debug(&expected[i]);
                        out.append(&mut item);
                        i = i + 1;
                    }
                }
            },
            ParseError::UnexpectedEnd => {
                out.extend_from_slice(("Unexpected end of file").as_bytes());
            },
            ParseError::UnknownType(name) => {
                out.extend_from_slice(("unknown type ").as_bytes());
                out.extend_from_slice(name.as_slice());
            },
            ParseError::Internal => {
                out.extend_from_slice(("Internal error").as_bytes());
            },
        }
        out
    }
}

} // verus!
