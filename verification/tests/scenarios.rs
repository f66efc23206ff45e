use sequel::command::run_cmd;
use sequel::connection::frame::Frame;
use sequel::db::catalog::Db;

fn b(s: &str) -> Vec<u8> {
    s.as_bytes().to_vec()
}

fn run(db: &mut Db, sql: &str) -> Frame {
    run_cmd(db, b(sql))
}

fn expect_null(db: &mut Db, sql: &str) {
    assert_eq!(run(db, sql), Frame::Null);
}

fn expect_table(db: &mut Db, sql: &str, rows: Vec<Vec<&str>>) {
    let expected = Frame::Table(
        rows.into_iter()
            .map(|r| r.into_iter().map(b).collect())
            .collect(),
    );
    assert_eq!(run(db, sql), expected);
}

fn expect_error(db: &mut Db, sql: &str, msg: &str) {
    assert_eq!(run(db, sql), Frame::Error(b(msg)));
}

#[test]
fn create_then_select_headers() {
    let mut db = Db::new();
    expect_null(&mut db, "CREATE TABLE people (name string, age number)");
    expect_table(
        &mut db,
        "SELECT * FROM people",
        vec![vec!["name", "age", "ID"]],
    );
}

#[test]
fn insert_then_select_all() {
    let mut db = Db::new();
    expect_null(&mut db, "CREATE TABLE people (name string, age number)");
    expect_null(&mut db, "INSERT INTO people VALUES (\"Elliot\", 16)");
    expect_table(
        &mut db,
        "SELECT * FROM people",
        vec![vec!["name", "age", "ID"], vec!["Elliot", "16", "0"]],
    );
}

#[test]
fn insert_named_column_and_auto_keys() {
    let mut db = Db::new();
    expect_null(&mut db, "CREATE TABLE people (name string, age number)");
    expect_null(&mut db, "INSERT INTO people VALUES (\"Elliot\", 16)");
    expect_null(&mut db, "INSERT INTO people (name) VALUES (\"Joe\")");
    expect_table(
        &mut db,
        "SELECT name,ID FROM people",
        vec![vec!["name", "ID"], vec!["Elliot", "0"], vec!["Joe", "1"]],
    );
}

#[test]
fn too_many_values() {
    let mut db = Db::new();
    expect_null(&mut db, "CREATE TABLE people (name string, age number)");
    expect_null(&mut db, "INSERT INTO people VALUES (\"Elliot\", 16)");
    expect_error(
        &mut db,
        "INSERT INTO people VALUES (1, 2, 3, 4)",
        "too many values supplied",
    );
}

#[test]
fn literal_default_fills_omitted_rows() {
    let mut db = Db::new();
    expect_null(&mut db, "CREATE TABLE t (three number DEFAULT 3, inc number)");
    expect_null(&mut db, "INSERT INTO t VALUES ()");
    expect_null(&mut db, "INSERT INTO t (three) VALUES (4)");
    expect_table(
        &mut db,
        "SELECT three,ID FROM t",
        vec![vec!["three", "ID"], vec!["3", "0"], vec!["4", "1"]],
    );
}

#[test]
fn check_constraint_rejects() {
    let mut db = Db::new();
    expect_null(&mut db, "CREATE TABLE people (age number CHECK (age >= 18))");
    expect_error(
        &mut db,
        "INSERT INTO people VALUES (17)",
        "Check condition on age failed",
    );
}

#[test]
fn create_table_as_select() {
    let mut db = Db::new();
    expect_null(&mut db, "CREATE TABLE people (name string, age number)");
    expect_null(&mut db, "INSERT INTO people VALUES (\"Elliot\", 16)");
    expect_null(&mut db, "CREATE TABLE names AS SELECT name FROM people");
    expect_table(
        &mut db,
        "SELECT * FROM names",
        vec![vec!["name", "ID"], vec!["Elliot", "0"]],
    );
}

#[test]
fn select_from_missing_table() {
    let mut db = Db::new();
    expect_error(&mut db, "SELECT col FROM missing", "Table \"missing\" not found");
}

#[test]
fn not_null_rejects_null_default() {
    let mut db = Db::new();
    expect_null(&mut db, "CREATE TABLE t (a string NOT NULL, b number)");
    expect_error(&mut db, "INSERT INTO t VALUES ()", "Column a non-nullable");
}

#[test]
fn unique_rejects_duplicates() {
    let mut db = Db::new();
    expect_null(&mut db, "CREATE TABLE t (a number UNIQUE)");
    expect_null(&mut db, "INSERT INTO t VALUES (5)");
    expect_error(&mut db, "INSERT INTO t VALUES (5)", "Col a must be unique");
}

#[test]
fn unique_allows_nulls() {
    let mut db = Db::new();
    expect_null(&mut db, "CREATE TABLE t (a number UNIQUE, b number)");
    expect_null(&mut db, "INSERT INTO t (b) VALUES (1)");
    expect_null(&mut db, "INSERT INTO t (b) VALUES (2)");
    expect_table(
        &mut db,
        "SELECT b FROM t",
        vec![vec!["b"], vec!["1"], vec!["2"]],
    );
}

#[test]
fn type_mismatch_rejected() {
    let mut db = Db::new();
    expect_null(&mut db, "CREATE TABLE t (a number)");
    expect_error(&mut db, "INSERT INTO t VALUES (\"word\")", "Expected number");
}

#[test]
fn unknown_columns_rejected() {
    let mut db = Db::new();
    expect_null(&mut db, "CREATE TABLE t (a number)");
    expect_error(
        &mut db,
        "INSERT INTO t (missing) VALUES (1)",
        "Unknown columns: [\"missing\"]",
    );
}

#[test]
fn unimplemented_constraints_rejected() {
    let mut db = Db::new();
    expect_error(&mut db, "CREATE TABLE t (a number FOREIGN KEY)", "not implemented");
    expect_error(&mut db, "CREATE TABLE t (a number CREATE INDEX)", "not implemented");
}

#[test]
fn single_column_table() {
    let mut db = Db::new();
    expect_null(&mut db, "CREATE TABLE t (a string)");
    expect_null(&mut db, "INSERT INTO t VALUES (\"x\")");
    expect_table(&mut db, "SELECT * FROM t", vec![vec!["a", "ID"], vec!["x", "0"]]);
}

#[test]
fn rows_keep_key_order() {
    let mut db = Db::new();
    expect_null(&mut db, "CREATE TABLE t (a number PRIMARY KEY, b string)");
    expect_null(&mut db, "INSERT INTO t VALUES (3, \"c\")");
    expect_null(&mut db, "INSERT INTO t VALUES (1, \"a\")");
    expect_null(&mut db, "INSERT INTO t VALUES (2, \"b\")");
    expect_table(
        &mut db,
        "SELECT a,b FROM t",
        vec![vec!["a", "b"], vec!["1", "a"], vec!["2", "b"], vec!["3", "c"]],
    );
}

#[test]
fn fractional_literals_round_trip() {
    let mut db = Db::new();
    expect_null(&mut db, "CREATE TABLE t (a number)");
    expect_null(&mut db, "INSERT INTO t VALUES (17.6)");
    expect_null(&mut db, "INSERT INTO t VALUES (2.50)");
    expect_table(
        &mut db,
        "SELECT a FROM t",
        vec![vec!["a"], vec!["17.6"], vec!["2.5"]],
    );
}

#[test]
fn unknown_type_rejected() {
    let mut db = Db::new();
    expect_error(
        &mut db,
        "CREATE TABLE t (a varchar)",
        "unknown type varchar",
    );
}

#[test]
fn duplicate_columns_rejected() {
    let mut db = Db::new();
    expect_error(
        &mut db,
        "CREATE TABLE t (a number, a string)",
        "Cannot have duplicate columns",
    );
}

#[test]
fn multiple_primary_keys_rejected() {
    let mut db = Db::new();
    expect_error(
        &mut db,
        "CREATE TABLE t (a number PRIMARY KEY, b number PRIMARY KEY)",
        "Expected 1 primary key, found 2",
    );
}

#[test]
fn default_type_mismatch_rejected() {
    let mut db = Db::new();
    expect_error(
        &mut db,
        "CREATE TABLE t (a string DEFAULT 3)",
        "Default type doesn't match declared type; expected Number, got String",
    );
}

#[test]
fn multi_row_insert() {
    let mut db = Db::new();
    expect_null(&mut db, "CREATE TABLE t (a number)");
    expect_null(&mut db, "INSERT INTO t VALUES (1), (2), (3)");
    expect_table(
        &mut db,
        "SELECT a FROM t",
        vec![vec!["a"], vec!["1"], vec!["2"], vec!["3"]],
    );
}

#[test]
fn partial_insert_keeps_earlier_rows() {
    let mut db = Db::new();
    expect_null(&mut db, "CREATE TABLE t (a number UNIQUE)");
    expect_error(
        &mut db,
        "INSERT INTO t VALUES (1), (1)",
        "Col a must be unique",
    );
    expect_table(&mut db, "SELECT a FROM t", vec![vec!["a"], vec!["1"]]);
}

#[test]
fn unrecognized_byte_is_reported() {
    let mut db = Db::new();
    expect_error(&mut db, "SELECT # FROM t", "Unrecognized token '#'");
}

#[test]
fn oversized_numeral_is_reported() {
    let mut db = Db::new();
    expect_null(&mut db, "CREATE TABLE t (a number)");
    expect_error(
        &mut db,
        "INSERT INTO t VALUES (99999999999999999999999)",
        "number too large",
    );
}

#[test]
fn create_table_as_rejects_missing_source() {
    let mut db = Db::new();
    expect_error(
        &mut db,
        "CREATE TABLE c AS SELECT a FROM missing",
        "Table \"missing\" not found",
    );
}

#[test]
fn check_equality_on_strings() {
    let mut db = Db::new();
    expect_null(&mut db, "CREATE TABLE t (a string CHECK (a = \"yes\"))");
    expect_null(&mut db, "INSERT INTO t VALUES (\"yes\")");
    expect_error(
        &mut db,
        "INSERT INTO t VALUES (\"no\")",
        "Check condition on a failed",
    );
}

#[test]
fn declared_id_column_collides_with_implicit_key() {
    let mut db = Db::new();
    expect_error(
        &mut db,
        "CREATE TABLE t (ID number, b string)",
        "Cannot have duplicate columns",
    );
}

#[test]
fn create_table_overwrites_existing_name() {
    let mut db = Db::new();
    expect_null(&mut db, "CREATE TABLE t (a number)");
    expect_null(&mut db, "INSERT INTO t VALUES (1)");
    expect_null(&mut db, "CREATE TABLE t (b string)");
    expect_table(&mut db, "SELECT * FROM t", vec![vec!["b", "ID"]]);
}

#[test]
fn selecting_a_column_a_row_lacks_fails() {
    let mut db = Db::new();
    expect_null(&mut db, "CREATE TABLE t (a string, b number)");
    expect_null(&mut db, "INSERT INTO t (b) VALUES (1)");
    expect_error(&mut db, "SELECT a FROM t", "Unknown column names");
}
