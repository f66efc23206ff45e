use sequel::command::create_table::create_table;
use sequel::command::insert::insert;
use sequel::command::select::select;
use sequel::connection::frame::Frame;
use sequel::db::catalog::Db;
use sequel::db::column_header::{ColumnHeader, DefaultOpt};
use sequel::db::row::Column;
use sequel::db::table::Table;
use sequel::decimal::Decimal;
use sequel::parse::ast::{ColDecl, Command, Key, LiteralValue, TableDef, Tokens, Ty};
use sequel::parse::token::Token;

fn b(s: &str) -> Vec<u8> {
    s.as_bytes().to_vec()
}

fn num(n: u64) -> LiteralValue {
    LiteralValue::Number(Decimal::from_int(n))
}

fn init_db() -> Db {
    let mut table = Table::try_from(vec![
        ColumnHeader::new(b("name")).ty(Ty::String).build().unwrap(),
        ColumnHeader::new(b("age")).ty(Ty::Number).build().unwrap(),
    ])
    .unwrap();
    table
        .append(vec![
            Column::new(LiteralValue::String(b("Elliot")), b("name")),
            Column::new(num(16), b("age")),
        ])
        .unwrap();
    let mut db = Db::new();
    db.insert(b("people"), table);
    db
}

fn assert_ok(res: Result<Frame, sequel::command::error::CmdError>, expected: Frame) {
    assert!(res.is_ok());
    match res {
        Ok(res) => assert_eq!(res, expected),
        Err(_) => unreachable!(),
    }
}

fn assert_err(res: Result<Frame, sequel::command::error::CmdError>, expected: &str) {
    assert!(res.is_err());
    match res {
        Ok(_) => unreachable!(),
        Err(e) => assert_eq!(e.message(), expected.as_bytes().to_vec()),
    }
}

#[test]
fn test_select() {
    let db = init_db();
    assert_ok(
        select(&db, Key::Glob, Token::Identifier(b("people"))),
        Frame::Table(vec![
            vec![b("name"), b("age"), b("ID")],
            vec![b("Elliot"), b("16"), b("0")],
        ]),
    );
    assert_ok(
        select(
            &db,
            Key::List(vec![Token::Identifier(b("name"))]),
            Token::Identifier(b("people")),
        ),
        Frame::Table(vec![vec![b("name")], vec![b("Elliot")]]),
    );
}

#[test]
fn test_insert() {
    let mut db = init_db();
    assert!(insert(
        &mut db,
        Token::Identifier(b("people")),
        Tokens::List(vec![
            Token::Identifier(b("name")),
            Token::Identifier(b("age")),
        ]),
        vec![vec![LiteralValue::String(b("Joe")), num(60)]],
    )
    .is_ok());
    assert!(insert(
        &mut db,
        Token::Identifier(b("people")),
        Tokens::Omitted,
        vec![vec![LiteralValue::String(b("Fredward")), num(999)]],
    )
    .is_ok());
    assert_ok(
        select(&db, Key::Glob, Token::Identifier(b("people"))),
        Frame::Table(vec![
            vec![b("name"), b("age"), b("ID")],
            vec![b("Elliot"), b("16"), b("0")],
            vec![b("Joe"), b("60"), b("1")],
            vec![b("Fredward"), b("999"), b("2")],
        ]),
    );
}

#[test]
fn insert_wrong_num_cols() {
    let mut db = init_db();
    assert!(insert(
        &mut db,
        Token::Identifier(b("people")),
        Tokens::Omitted,
        vec![vec![LiteralValue::String(b("Elliot"))]],
    )
    .is_ok());
    assert_ok(
        select(&db, Key::Glob, Token::Identifier(b("people"))),
        Frame::Table(vec![
            vec![b("name"), b("age"), b("ID")],
            vec![b("Elliot"), b("16"), b("0")],
            vec![b("Elliot"), Vec::new(), b("1")],
        ]),
    );

    assert_err(
        insert(
            &mut db,
            Token::Identifier(b("people")),
            Tokens::Omitted,
            vec![vec![num(1), num(2), num(3), num(4)]],
        ),
        "too many values supplied",
    );
}

#[test]
fn default_opts() {
    let table = Table::try_from(vec![
        ColumnHeader::new(b("three"))
            .def(DefaultOpt::Literal(num(3)))
            .ty(Ty::Number)
            .build()
            .unwrap(),
        ColumnHeader::new(b("inc"))
            .def(DefaultOpt::Incrementing(11))
            .ty(Ty::Number)
            .build()
            .unwrap(),
    ])
    .unwrap();
    let mut db = Db::new();
    db.insert(b("table"), table);
    assert!(insert(
        &mut db,
        Token::Identifier(b("table")),
        Tokens::Omitted,
        vec![vec![]]
    )
    .is_ok());
    assert!(insert(
        &mut db,
        Token::Identifier(b("table")),
        Tokens::List(vec![Token::Identifier(b("three"))]),
        vec![vec![num(4)]]
    )
    .is_ok());

    assert_ok(
        select(
            &db,
            Key::List(vec![Token::Identifier(b("three")), Token::Identifier(b("inc"))]),
            Token::Identifier(b("table")),
        ),
        Frame::Table(vec![
            vec![b("three"), b("inc")],
            vec![b("3"), b("11")],
            vec![b("4"), b("12")],
        ]),
    );
}

#[test]
fn test_create_table() {
    let mut db = Db::new();
    assert!(create_table(
        &mut db,
        Token::Identifier(b("people")),
        TableDef::Cols(vec![
            ColDecl::new(Token::Identifier(b("name")), Ty::String, Vec::new()),
            ColDecl::new(Token::Identifier(b("age")), Ty::Number, Vec::new()),
        ])
    )
    .is_ok());

    assert!(create_table(
        &mut db,
        Token::Identifier(b("names")),
        TableDef::As(Box::new(Command::Select {
            key: Key::List(vec![Token::Identifier(b("name"))]),
            table: Token::Identifier(b("people")),
        }))
    )
    .is_ok());

    let people = db.get(b("people").as_slice()).unwrap();
    assert_table_def_equals(people, &[("name", Ty::String), ("age", Ty::Number)]);

    let names = db.get(b("names").as_slice()).unwrap();
    assert_table_def_equals(names, &[("name", Ty::String)]);
}

fn assert_table_def_equals(table: &Table, expected: &[(&str, Ty)]) {
    assert!(table
        .col_headers()
        .iter()
        .zip(expected)
        .all(|(col_header, (expected_name, expected_ty))| {
            col_header.name().as_slice() == expected_name.as_bytes()
                && col_header.ty() == expected_ty
        }))
}
