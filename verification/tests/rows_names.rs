use jsoncdc::name::{fmt_name, NameData};
use jsoncdc::tuple::{
    append_tuple_buf_as_json, is_stale_toast, plan_skipped, toast_check_applies, ColumnProbe,
    TupleJson, VarattHeader, VARTAG_ONDISK,
};

fn probe(datum: usize, attnum: i16, dropped: bool, header: Option<(u8, u8)>, name: &str) -> ColumnProbe {
    ColumnProbe {
        datum,
        attnum,
        attisdropped: dropped,
        header: header.map(|(h, t)| VarattHeader { va_header: h, va_tag: t }),
        name: name.as_bytes().to_vec(),
    }
}

#[test]
fn stale_toast_detection() {
    assert!(!is_stale_toast(&None));
    assert!(is_stale_toast(&Some(VarattHeader { va_header: 0x01, va_tag: VARTAG_ONDISK })));
    assert!(!is_stale_toast(&Some(VarattHeader { va_header: 0x01, va_tag: 1 })));
    assert!(!is_stale_toast(&Some(VarattHeader { va_header: 0x03, va_tag: VARTAG_ONDISK })));
    assert_eq!(VARTAG_ONDISK, 18);
}

#[test]
fn toast_check_conditions() {
    assert!(toast_check_applies(0x1000, 1, false));
    assert!(!toast_check_applies(0, 1, false));
    assert!(!toast_check_applies(0x1000, 0, false));
    assert!(!toast_check_applies(0x1000, -2, false));
    assert!(!toast_check_applies(0x1000, 1, true));
}

#[test]
fn plan_marks_stale_columns_null() {
    let cols = vec![
        probe(0x10, 1, false, None, "id"),
        probe(0x20, 2, false, Some((0x01, 18)), "doc"),
        probe(0x30, 3, true, Some((0x01, 18)), "gone"),
        probe(0, 4, false, Some((0x01, 18)), "nothing"),
        probe(0x40, 5, false, Some((0x01, 18)), "pic"),
        probe(0x50, 6, false, Some((0x02, 18)), "inline"),
    ];
    let mut nulls = vec![false, false, false, true, false, false];
    let skip = plan_skipped(&cols, &mut nulls);
    assert_eq!(skip, vec![1, 4]);
    assert_eq!(nulls, vec![false, true, false, true, true, false]);

    let t = TupleJson::new(b"{\"id\":1,\"doc\":null,\"pic\":null}".to_vec(), &cols, &skip);
    assert_eq!(t.skipped, vec![b"doc".to_vec(), b"pic".to_vec()]);
    let mut out = Vec::new();
    append_tuple_buf_as_json(&mut out, &Some(t));
    assert_eq!(
        String::from_utf8(out).unwrap(),
        "{\"id\":1,\"doc\":null,\"pic\":null}, \"skipped\": [\"doc\", \"pic\"]"
    );
}

#[test]
fn plan_without_stale_columns() {
    let cols = vec![probe(0x10, 1, false, None, "id")];
    let mut nulls = vec![false];
    assert!(plan_skipped(&cols, &mut nulls).is_empty());
    assert_eq!(nulls, vec![false]);
}

#[test]
fn missing_row_is_empty_object() {
    let mut out = Vec::new();
    append_tuple_buf_as_json(&mut out, &None);
    assert_eq!(out, b"{}".to_vec());
}

#[test]
fn row_without_skips_is_its_text() {
    let mut out = Vec::new();
    let t = TupleJson { row: b"{\"a\":\"x\\ny\"}".to_vec(), skipped: Vec::new() };
    append_tuple_buf_as_json(&mut out, &Some(t));
    assert_eq!(out, b"{\"a\":\"x\\ny\"}".to_vec());
}

fn name(bytes: &[u8]) -> NameData {
    let mut data = [0u8; 64];
    data[..bytes.len()].copy_from_slice(bytes);
    NameData { data }
}

#[test]
fn fmt_name_plain() {
    assert_eq!(fmt_name(name(b"users")), "\"users\"");
}

#[test]
fn fmt_name_escapes() {
    assert_eq!(fmt_name(name(b"a\"b\\c\td\x80'")), "\"a\\\"b\\\\c\\td\\x80\\'\"");
}

#[test]
fn fmt_name_stops_at_terminator() {
    let mut n = name(b"ab");
    n.data[3] = b'z';
    assert_eq!(fmt_name(n), "\"ab\"");
}

#[test]
fn fmt_name_empty_and_full() {
    assert_eq!(fmt_name(name(b"")), "\"\"");
    let long = [b'x'; 63];
    assert_eq!(fmt_name(name(&long)), format!("\"{}\"", "x".repeat(63)));
}
