use sequel::decimal::Decimal;
use sequel::parse::ast::{ColDecl, Command, Constraint, Expr, Key, TableDef, Ty};
use sequel::parse::parser::Parser;
use sequel::parse::scanner::Scanner;
use sequel::parse::token::Token;

fn b(s: &str) -> Vec<u8> {
    s.as_bytes().to_vec()
}

#[test]
fn scanner() {
    let stream = b("INSERT 17.6 * (\"one\", \"two\") table");
    let tokens = Scanner::scan(stream).unwrap();
    assert_eq!(
        tokens,
        vec![
            Token::Insert,
            Token::Number(Decimal { mantissa: 176, scale: 1 }),
            Token::Star,
            Token::LeftParen,
            Token::String(b("one")),
            Token::Comma,
            Token::String(b("two")),
            Token::RightParen,
            Token::Identifier(b("table")),
            Token::EOF,
        ]
    );

    let stream = b("CREATE TABLE people (ID number PRIMARY KEY, FirstName string CHECK (FirstName >= \"Brian\"), Age number NOT NULL UNIQUE)");
    let tokens = Scanner::scan(stream).unwrap();
    assert_eq!(
        tokens,
        vec![
            Token::Create,
            Token::Table,
            Token::Identifier(b("people")),
            Token::LeftParen,
            Token::Identifier(b("ID")),
            Token::Identifier(b("number")),
            Token::Primary,
            Token::Key,
            Token::Comma,
            Token::Identifier(b("FirstName")),
            Token::Identifier(b("string")),
            Token::Check,
            Token::LeftParen,
            Token::Identifier(b("FirstName")),
            Token::GreaterEqual,
            Token::String(b("Brian")),
            Token::RightParen,
            Token::Comma,
            Token::Identifier(b("Age")),
            Token::Identifier(b("number")),
            Token::Not,
            Token::Null,
            Token::Unique,
            Token::RightParen,
            Token::EOF,
        ]
    );
}

#[test]
fn scanner_err() {
    let res = Scanner::scan(b("#"));
    assert!(res.is_err());
    assert_eq!(res.unwrap_err().message(), b("Unrecognized token '#'"));
    let res = Scanner::scan(b("\"unterminated string"));
    assert!(res.is_err());
    assert_eq!(res.unwrap_err().message(), b("Unexpected end of file"));
}

#[test]
fn parser() {
    let tokens = vec![
        Token::Select,
        Token::Star,
        Token::From,
        Token::Identifier(b("people")),
        Token::EOF,
    ];
    let expr = Parser::new(tokens).parse().unwrap();
    assert_eq!(
        expr,
        Command::Select {
            key: Key::Glob,
            table: Token::Identifier(b("people")),
        }
    );

    let tokens = vec![
        Token::Create,
        Token::Table,
        Token::Identifier(b("people")),
        Token::LeftParen,
        Token::Identifier(b("ID")),
        Token::Identifier(b("number")),
        Token::Primary,
        Token::Key,
        Token::Comma,
        Token::Identifier(b("FirstName")),
        Token::Identifier(b("string")),
        Token::Comma,
        Token::Identifier(b("LastName")),
        Token::Identifier(b("string")),
        Token::Comma,
        Token::Identifier(b("Age")),
        Token::Identifier(b("number")),
        Token::Not,
        Token::Null,
        Token::Check,
        Token::LeftParen,
        Token::Identifier(b("Age")),
        Token::GreaterEqual,
        Token::Number(Decimal::from_int(18)),
        Token::RightParen,
        Token::RightParen,
    ];
    let expr = Parser::new(tokens).parse().unwrap();
    assert_eq!(
        expr,
        Command::CreateTable {
            name: Token::Identifier(b("people")),
            def: TableDef::Cols(vec![
                ColDecl::new(
                    Token::Identifier(b("ID")),
                    Ty::Number,
                    vec![Constraint::PrimaryKey]
                ),
                ColDecl::new(Token::Identifier(b("FirstName")), Ty::String, Vec::new()),
                ColDecl::new(Token::Identifier(b("LastName")), Ty::String, Vec::new()),
                ColDecl::new(
                    Token::Identifier(b("Age")),
                    Ty::Number,
                    vec![
                        Constraint::NotNull,
                        Constraint::Check(Expr::Binary {
                            left: Token::Identifier(b("Age")),
                            op: Token::GreaterEqual,
                            right: Token::Number(Decimal::from_int(18)),
                        })
                    ]
                ),
            ])
        }
    );
}

#[test]
fn parser_err() {
    let res = Parser::new(vec![Token::From]).parse();
    assert!(res.is_err());
    assert_eq!(
        res.unwrap_err().message(),
        b("Unexpected token: `From`; expected one of: Insert, Select"),
    );
    let res = Parser::new(vec![
        Token::Insert,
        Token::Into,
        Token::Identifier(b("table")),
        Token::LeftParen,
        Token::Identifier(b("field")),
        Token::RightParen,
        Token::Values,
        Token::LeftParen,
        Token::Star,
        Token::RightParen,
    ])
    .parse();
    assert!(res.is_err());
    assert_eq!(
        res.unwrap_err().message(),
        b("Unexpected token: `Star`; expected one of: Number(0.0), String(\"\")"),
    );
}
