use sequel::connection::frame::{get_line, get_u8, get_until, get_word, throw_incomplete, Error, Frame};

fn b(s: &str) -> Vec<u8> {
    s.as_bytes().to_vec()
}

#[test]
fn cmd_frame_round_trip() {
    let frame = Frame::Cmd(b("SELECT * FROM people"));
    let bytes = frame.encode();
    assert_eq!(bytes, b(":SELECT * FROM people\r\n"));
    assert_eq!(Frame::check(&bytes), Ok(bytes.len()));
    assert_eq!(Frame::parse(&bytes), Ok(frame));
}

#[test]
fn table_frame_round_trip() {
    let frame = Frame::Table(vec![
        vec![b("name"), b("age")],
        vec![b("Elliot"), b("16")],
    ]);
    let bytes = frame.encode();
    assert_eq!(bytes, b("*name|age^Elliot|16*\r\n"));
    assert_eq!(Frame::check(&bytes), Ok(bytes.len()));
    assert_eq!(Frame::parse(&bytes), Ok(frame));
}

#[test]
fn null_and_error_frames() {
    let bytes = Frame::Null.encode();
    assert_eq!(bytes, b("-1\r\n"));
    assert_eq!(Frame::parse(&bytes), Ok(Frame::Null));

    let frame = Frame::Error(b("Table \"x\" not found"));
    let bytes = frame.encode();
    assert_eq!(Frame::parse(&bytes), Ok(frame));
}

#[test]
fn incomplete_and_protocol_errors() {
    assert_eq!(Frame::check(b(":no line end yet").as_slice()), Err(Error::Incomplete));
    assert_eq!(Frame::check(b("*a|b^c").as_slice()), Err(Error::Incomplete));
    assert_eq!(Frame::check(b("xoops\r\n").as_slice()), Err(Error::Protocol(120)));
    assert_eq!(Frame::check(b("").as_slice()), Err(Error::Incomplete));
}

#[test]
fn cursor_helpers() {
    let src = b("word rest\r\ntail");
    let (w, next) = get_word(src.as_slice(), 0).unwrap();
    assert_eq!(w, b("word"));
    assert_eq!(next, 5);
    let (rest, next2) = get_word(src.as_slice(), next).unwrap();
    assert_eq!(rest, b("rest"));
    assert_eq!(next2, 11);

    let line_src = b("abc\r\ndef");
    let (line, after) = get_line(line_src.as_slice(), 0).unwrap();
    assert_eq!(line, b("abc"));
    assert_eq!(after, 5);
    assert!(get_line(b("no end").as_slice(), 0).is_none());

    assert_eq!(get_u8(line_src.as_slice(), 0), Some((97, 1)));
    assert_eq!(get_u8(line_src.as_slice(), 8), None);

    let (body, at) = get_until(b("body*rest").as_slice(), 0, 42).unwrap();
    assert_eq!(body, b("body"));
    assert_eq!(at, 4);
    assert!(get_until(b("no star").as_slice(), 0, 42).is_none());

    assert_eq!(throw_incomplete(Some(7u8)), Ok(7u8));
    assert_eq!(throw_incomplete::<u8>(None), Err(Error::Incomplete));
}

#[test]
fn empty_cells_round_trip() {
    let frame = Frame::Table(vec![vec![b("")], vec![b("")]]);
    let bytes = frame.encode();
    assert_eq!(bytes, b("*^*\r\n"));
    assert_eq!(Frame::parse(&bytes), Ok(frame));
}

#[test]
fn display_frame() {
    let table = Frame::Table(vec![
        vec![b("Name"), b("Age")],
        vec![b("Elliot"), b("16")],
        vec![b("Aurelius"), b("0")],
    ]);
    let expected = " Name     | Age\n----------+-----\n Elliot   | 16 \n Aurelius | 0  \n";
    assert_eq!(String::from_utf8(table.render()).unwrap(), expected);
}

#[test]
fn display_error_and_null() {
    assert_eq!(Frame::Error(b("boom")).render(), b("Error: boom"));
    assert_eq!(Frame::Null.render(), b("NULL"));
    assert_eq!(Frame::Cmd(b("SELECT")).render(), b("SELECT"));
}
