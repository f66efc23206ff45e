use crate::decimal::Decimal;
use vstd::prelude::*;
use vstd::string::StringSliceAdditionalSpecFns;

verus! {

/// Specification-level form of a token: byte payloads as sequences.
pub enum TokenV {
    Star,
    LeftParen,
    RightParen,
    Comma,
    GreaterThan,
    LessThan,
    Equal,
    GreaterEqual,
    LessEqual,
    And,
    Or,
    Insert,
    Select,
    From,
    Into,
    Values,
    Create,
    Table,
    As,
    Not,
    Null,
    Unique,
    Primary,
    Foreign,
    Key,
    Check,
    Default,
    Index,
    Identifier(Seq<u8>),
    Number(Decimal),
    String(Seq<u8>),
    Bool(bool),
    EOF,
}

/// One lexical token. Identifier and string payloads are the raw bytes
/// from the input; numbers are canonical decimals.
#[derive(Debug)]
pub enum Token {
    Star,
    LeftParen,
    RightParen,
    Comma,
    GreaterThan,
    LessThan,
    Equal,
    GreaterEqual,
    LessEqual,
    And,
    Or,
    Insert,
    Select,
    From,
    Into,
    Values,
    Create,
    Table,
    As,
    Not,
    Null,
    Unique,
    Primary,
    Foreign,
    Key,
    Check,
    Default,
    Index,
    Identifier(Vec<u8>),
    Number(Decimal),
    String(Vec<u8>),
    Bool(bool),
    EOF,
}

impl View for Token {
    type V = TokenV;

    open spec fn view(&self) -> TokenV {
        match self {
            Token::Star => TokenV::Star,
            Token::LeftParen => TokenV::LeftParen,
            Token::RightParen => TokenV::RightParen,
            Token::Comma => TokenV::Comma,
            Token::GreaterThan => TokenV::GreaterThan,
            Token::LessThan => TokenV::LessThan,
            Token::Equal => TokenV::Equal,
            Token::GreaterEqual => TokenV::GreaterEqual,
            Token::LessEqual => TokenV::LessEqual,
            Token::And => TokenV::And,
            Token::Or => TokenV::Or,
            Token::Insert => TokenV::Insert,
            Token::Select => TokenV::Select,
            Token::From => TokenV::From,
            Token::Into => TokenV::Into,
            Token::Values => TokenV::Values,
            Token::Create => TokenV::Create,
            Token::Table => TokenV::Table,
            Token::As => TokenV::As,
            Token::Not => TokenV::Not,
            Token::Null => TokenV::Null,
            Token::Unique => TokenV::Unique,
            Token::Primary => TokenV::Primary,
            Token::Foreign => TokenV::Foreign,
            Token::Key => TokenV::Key,
            Token::Check => TokenV::Check,
            Token::Default => TokenV::Default,
            Token::Index => TokenV::Index,
            Token::Identifier(b) => TokenV::Identifier(b@),
            Token::Number(d) => TokenV::Number(*d),
            Token::String(b) => TokenV::String(b@),
            Token::Bool(b) => TokenV::Bool(*b),
            Token::EOF => TokenV::EOF,
        }
    }
}

impl DeepView for Token {
    type V = TokenV;

    open spec fn deep_view(&self) -> TokenV {
        self.view()
    }
}

impl TokenV {
    /// Every number a token carries is canonical.
    pub open spec fn wf(self) -> bool {
        match self {
            TokenV::Number(d) => d.wf(),
            _ => true,
        }
    }
}

/// Every token of the sequence is well formed.
pub open spec fn tokens_wf(ts: Seq<TokenV>) -> bool {
    forall|i: int| 0 <= i < ts.len() ==> (#[trigger] ts[i]).wf()
}

impl Clone for Token {
    fn clone(&self) -> (r: Token)
        ensures
            r@ == self@,
    {
        match self {
            Token::Star => Token::Star,
            Token::LeftParen => Token::LeftParen,
            Token::RightParen => Token::RightParen,
            Token::Comma => Token::Comma,
            Token::GreaterThan => Token::GreaterThan,
            Token::LessThan => Token::LessThan,
            Token::Equal => Token::Equal,
            Token::GreaterEqual => Token::GreaterEqual,
            Token::LessEqual => Token::LessEqual,
            Token::And => Token::And,
            Token::Or => Token::Or,
            Token::Insert => Token::Insert,
            Token::Select => Token::Select,
            Token::From => Token::From,
            Token::Into => Token::Into,
            Token::Values => Token::Values,
            Token::Create => Token::Create,
            Token::Table => Token::Table,
            Token::As => Token::As,
            Token::Not => Token::Not,
            Token::Null => Token::Null,
            Token::Unique => Token::Unique,
            Token::Primary => Token::Primary,
            Token::Foreign => Token::Foreign,
            Token::Key => Token::Key,
            Token::Check => Token::Check,
            Token::Default => Token::Default,
            Token::Index => Token::Index,
            Token::Identifier(b) => Token::Identifier(b.clone()),
            Token::Number(d) => Token::Number(*d),
            Token::String(b) => Token::String(b.clone()),
            Token::Bool(b) => Token::Bool(*b),
            Token::EOF => Token::EOF,
        }
    }
}

impl PartialEq for Token {
    fn eq(&self, other: &Token) -> (r: bool) {
        match (self, other) {
            (Token::Star, Token::Star) => true,
            (Token::LeftParen, Token::LeftParen) => true,
            (Token::RightParen, Token::RightParen) => true,
            (Token::Comma, Token::Comma) => true,
            (Token::GreaterThan, Token::GreaterThan) => true,
            (Token::LessThan, Token::LessThan) => true,
            (Token::Equal, Token::Equal) => true,
            (Token::GreaterEqual, Token::GreaterEqual) => true,
            (Token::LessEqual, Token::LessEqual) => true,
            (Token::And, Token::And) => true,
            (Token::Or, Token::Or) => true,
            (Token::Insert, Token::Insert) => true,
            (Token::Select, Token::Select) => true,
            (Token::From, Token::From) => true,
            (Token::Into, Token::Into) => true,
            (Token::Values, Token::Values) => true,
            (Token::Create, Token::Create) => true,
            (Token::Table, Token::Table) => true,
            (Token::As, Token::As) => true,
            (Token::Not, Token::Not) => true,
            (Token::Null, Token::Null) => true,
            (Token::Unique, Token::Unique) => true,
            (Token::Primary, Token::Primary) => true,
            (Token::Foreign, Token::Foreign) => true,
            (Token::Key, Token::Key) => true,
            (Token::Check, Token::Check) => true,
            (Token::Default, Token::Default) => true,
            (Token::Index, Token::Index) => true,
            (Token::Identifier(a), Token::Identifier(b)) => bytes_eq(a.as_slice(), b.as_slice()),
            (Token::Number(a), Token::Number(b)) => a == b,
            (Token::String(a), Token::String(b)) => bytes_eq(a.as_slice(), b.as_slice()),
            (Token::Bool(a), Token::Bool(b)) => a == b,
            (Token::EOF, Token::EOF) => true,
            _ => false,
        }
    }
}

impl Eq for Token {

}

impl vstd::std_specs::cmp::PartialEqSpecImpl for Token {
    open spec fn obeys_eq_spec() -> bool {
        true
    }

    open spec fn eq_spec(&self, other: &Token) -> bool {
        self@ == other@
    }
}

/// Byte-for-byte equality of two slices.
pub fn bytes_eq(a: &[u8], b: &[u8]) -> (r: bool)
    ensures
        r == (a@ == b@),
{
    if a.len() != b.len() {
        assert(a@ != b@);
        return false;
    }
    let n = a.len();
    let mut i: usize = 0;
    while i < n
        invariant
            n == a@.len() == b@.len(),
            i <= n,
            forall|k: int| 0 <= k < i ==> a@[k] == b@[k],
        decreases n - i,
    {
        if a[i] != b[i] {
            return false;
        }
        i = i + 1;
    }
    proof {
        assert(a@ =~= b@);
    }
    true
}

/// The keyword table: uppercase SQL keywords plus the lowercase
/// boolean literals.
pub open spec fn spec_keyword(key: Seq<u8>) -> Option<TokenV> {
    if key == ("AND").spec_bytes() {
        Some(TokenV::And)
    } else if key == ("OR").spec_bytes() {
        Some(TokenV::Or)
    } else if key == ("INSERT").spec_bytes() {
        Some(TokenV::Insert)
    } else if key == ("SELECT").spec_bytes() {
        Some(TokenV::Select)
    } else if key == ("FROM").spec_bytes() {
        Some(TokenV::From)
    } else if key == ("INTO").spec_bytes() {
        Some(TokenV::Into)
    } else if key == ("VALUES").spec_bytes() {
        Some(TokenV::Values)
    } else if key == ("CREATE").spec_bytes() {
        Some(TokenV::Create)
    } else if key == ("TABLE").spec_bytes() {
        Some(TokenV::Table)
    } else if key == ("AS").spec_bytes() {
        Some(TokenV::As)
    } else if key == ("NOT").spec_bytes() {
        Some(TokenV::Not)
    } else if key == ("NULL").spec_bytes() {
        Some(TokenV::Null)
    } else if key == ("UNIQUE").spec_bytes() {
        Some(TokenV::Unique)
    } else if key == ("PRIMARY").spec_bytes() {
        Some(TokenV::Primary)
    } else if key == ("FOREIGN").spec_bytes() {
        Some(TokenV::Foreign)
    } else if key == ("KEY").spec_bytes() {
        Some(TokenV::Key)
    } else if key == ("CHECK").spec_bytes() {
        Some(TokenV::Check)
    } else if key == ("DEFAULT").spec_bytes() {
        Some(TokenV::Default)
    } else if key == ("INDEX").spec_bytes() {
        Some(TokenV::Index)
    } else if key == ("true").spec_bytes() {
        Some(TokenV::Bool(true))
    } else if key == ("false").spec_bytes() {
        Some(TokenV::Bool(false))
    } else {
        None
    }
}

/// Keyword lookup over byte strings.
pub struct Keyword;

impl Keyword {
    /// Searches the keyword table for a byte-string match.
    pub fn get(key: &[u8]) -> (r: Option<Token>)
        ensures
            r.deep_view() == spec_keyword(key@),
    {
        if bytes_eq(key, ("AND").as_bytes()) {
            Some(Token::And)
        } else if bytes_eq(key, ("OR").as_bytes()) {
            Some(Token::Or)
        } else if bytes_eq(key, ("INSERT").as_bytes()) {
            Some(Token::Insert)
        } else if bytes_eq(key, ("SELECT").as_bytes()) {
            Some(Token::Select)
        } else if bytes_eq(key, ("FROM").as_bytes()) {
            Some(Token::From)
        } else if bytes_eq(key, ("INTO").as_bytes()) {
            Some(Token::Into)
        } else if bytes_eq(key, ("VALUES").as_bytes()) {
            Some(Token::Values)
        } else if bytes_eq(key, ("CREATE").as_bytes()) {
            Some(Token::Create)
        } else if bytes_eq(key, ("TABLE").as_bytes()) {
            Some(Token::Table)
        } else if bytes_eq(key, ("AS").as_bytes()) {
            Some(Token::As)
        } else if bytes_eq(key, ("NOT").as_bytes()) {
            Some(Token::Not)
        } else if bytes_eq(key, ("NULL").as_bytes()) {
            Some(Token::Null)
        } else if bytes_eq(key, ("UNIQUE").as_bytes()) {
            Some(Token::Unique)
        } else if bytes_eq(key, ("PRIMARY").as_bytes()) {
            Some(Token::Primary)
        } else if bytes_eq(key, ("FOREIGN").as_bytes()) {
            Some(Token::Foreign)
        } else if bytes_eq(key, ("KEY").as_bytes()) {
            Some(Token::Key)
        } else if bytes_eq(key, ("CHECK").as_bytes()) {
            Some(Token::Check)
        } else if bytes_eq(key, ("DEFAULT").as_bytes()) {
            Some(Token::Default)
        } else if bytes_eq(key, ("INDEX").as_bytes()) {
            Some(Token::Index)
        } else if bytes_eq(key, ("true").as_bytes()) {
            Some(Token::Bool(true))
        } else if bytes_eq(key, ("false").as_bytes()) {
            Some(Token::Bool(false))
        } else {
            None
        }
    }
}

impl Token {
    /// The identifier payload, when this token is an identifier.
    pub fn ident(&self) -> (r: Option<&Vec<u8>>)
        ensures
            match self {
                Token::Identifier(v) => r == Some(v),
                _ => r is None,
            },
    {
        if let Token::Identifier(ident) = self {
            Some(ident)
        } else {
            None
        }
    }
}

} // verus!
