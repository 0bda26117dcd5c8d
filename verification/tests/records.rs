use jsoncdc::change::{append_change, change_type_name, Change, ChangeType};
use jsoncdc::decoder::{append_begin, append_commit, Decoder};
use jsoncdc::message::{append_message, append_message_text};
use jsoncdc::schema::{append_schema, schema_lists_column, SchemaColumn};
use jsoncdc::tuple::TupleJson;

fn row(text: &str) -> Option<TupleJson> {
    Some(TupleJson { row: text.as_bytes().to_vec(), skipped: Vec::new() })
}

fn col(attnum: i16, dropped: bool, name: &str, typ: &str) -> SchemaColumn {
    SchemaColumn {
        attnum,
        attisdropped: dropped,
        name: name.as_bytes().to_vec(),
        typ: typ.as_bytes().to_vec(),
    }
}

fn text(v: Vec<u8>) -> String {
    String::from_utf8(v).unwrap()
}

#[test]
fn begin_record() {
    let mut out = Vec::new();
    append_begin(&mut out, 42);
    assert_eq!(text(out), "{ \"begin\": 42 }");
}

#[test]
fn commit_record() {
    let mut out = Vec::new();
    append_commit(&mut out, 4294967295, b"2016-05-01 10:00:00.123+00");
    assert_eq!(text(out), "{ \"commit\": 4294967295, \"t\": \"2016-05-01 10:00:00.123+00\" }");
}

#[test]
fn schema_record_lists_live_user_columns() {
    let cols = vec![
        col(1, false, "id", "integer"),
        col(2, true, "........pg.dropped.2........", "-"),
        col(-1, false, "ctid", "tid"),
        col(3, false, "name", "character varying(20)"),
    ];
    let mut out = Vec::new();
    append_schema(&mut out, &cols, b"public.users");
    assert_eq!(
        text(out),
        "{ \"table\": \"public.users\", \
         \"schema\": [{\"id\":\"integer\"},{\"name\":\"character varying(20)\"}] }"
    );
}

#[test]
fn schema_record_without_columns() {
    let mut out = Vec::new();
    append_schema(&mut out, &Vec::new(), b"t");
    assert_eq!(text(out), "{ \"table\": \"t\", \"schema\": [] }");
}

#[test]
fn schema_record_escapes_names() {
    let cols = vec![col(1, false, "we\"ird", "text")];
    let mut out = Vec::new();
    append_schema(&mut out, &cols, b"\"Odd Name\"");
    assert_eq!(
        text(out),
        "{ \"table\": \"\\\"Odd Name\\\"\", \"schema\": [{\"we\\\"ird\":\"text\"}] }"
    );
}

#[test]
fn schema_column_listing() {
    assert!(schema_lists_column(1, false));
    assert!(!schema_lists_column(1, true));
    assert!(!schema_lists_column(0, false));
    assert!(!schema_lists_column(-3, false));
}

#[test]
fn insert_record() {
    let change = Change { action: ChangeType::Insert, new_tuple: row("{\"id\":1}"), old_tuple: None };
    let mut out = Vec::new();
    assert!(append_change(&mut out, &change, b"public.t"));
    assert_eq!(text(out), "{ \"insert\": {\"id\":1}, \"table\": \"public.t\" }");
}

#[test]
fn update_record_with_old_row() {
    let change = Change {
        action: ChangeType::Update,
        new_tuple: row("{\"id\":2}"),
        old_tuple: row("{\"id\":1}"),
    };
    let mut out = Vec::new();
    assert!(append_change(&mut out, &change, b"t"));
    assert_eq!(text(out), "{ \"update\": {\"id\":2}, \"@\": {\"id\":1}, \"table\": \"t\" }");
}

#[test]
fn delete_record_without_new_row() {
    let change = Change { action: ChangeType::Delete, new_tuple: None, old_tuple: row("{\"id\":9}") };
    let mut out = Vec::new();
    assert!(append_change(&mut out, &change, b"t"));
    assert_eq!(text(out), "{ \"delete\": {}, \"@\": {\"id\":9}, \"table\": \"t\" }");
}

#[test]
fn insert_record_with_skipped_columns() {
    let change = Change {
        action: ChangeType::Insert,
        new_tuple: Some(TupleJson {
            row: b"{\"id\":1,\"doc\":null,\"pic\":null}".to_vec(),
            skipped: vec![b"doc".to_vec(), b"pic".to_vec()],
        }),
        old_tuple: None,
    };
    let mut out = Vec::new();
    assert!(append_change(&mut out, &change, b"t"));
    assert_eq!(
        text(out),
        "{ \"insert\": {\"id\":1,\"doc\":null,\"pic\":null}, \"skipped\": [\"doc\", \"pic\"], \
         \"table\": \"t\" }"
    );
}

#[test]
fn unrecognized_change_writes_nothing() {
    for action in [
        ChangeType::InternalSnapshot,
        ChangeType::InternalCommandId,
        ChangeType::InternalTuplecid,
        ChangeType::InternalSpecInsert,
        ChangeType::Other,
    ] {
        let change = Change { action, new_tuple: row("{}"), old_tuple: None };
        let mut out = b"kept".to_vec();
        assert!(!append_change(&mut out, &change, b"t"));
        assert_eq!(out, b"kept".to_vec());
    }
}

#[test]
fn change_type_names() {
    assert_eq!(change_type_name(&ChangeType::Insert), "insert");
    assert_eq!(change_type_name(&ChangeType::Update), "update");
    assert_eq!(change_type_name(&ChangeType::Delete), "delete");
    assert_eq!(change_type_name(&ChangeType::InternalSnapshot), "internal_snapshot");
    assert_eq!(change_type_name(&ChangeType::InternalCommandId), "internal_command_id");
    assert_eq!(change_type_name(&ChangeType::InternalTuplecid), "internal_tuplecid");
    assert_eq!(change_type_name(&ChangeType::InternalSpecInsert), "internal_spec_insert");
    assert_eq!(change_type_name(&ChangeType::Other), "unknown_change_type");
}

#[test]
fn message_record() {
    let mut out = Vec::new();
    append_message(&mut out, true, b"app", b"hello\nworld");
    assert_eq!(
        text(out),
        "{ \"prefix\": \"app\", \"message\": \"hello\\nworld\", \"transactional\": true }"
    );
}

#[test]
fn message_record_not_transactional() {
    let mut out = Vec::new();
    append_message(&mut out, false, b"", b"");
    assert_eq!(text(out), "{ \"prefix\": \"\", \"message\": \"\", \"transactional\": false }");
}

#[test]
fn message_invalid_utf8_is_replaced() {
    let mut out = Vec::new();
    append_message(&mut out, false, b"p", b"a\xffb");
    assert_eq!(
        text(out),
        "{ \"prefix\": \"p\", \"message\": \"a\u{fffd}b\", \"transactional\": false }"
    );
}

#[test]
fn message_valid_utf8_is_kept() {
    let mut out = Vec::new();
    append_message(&mut out, true, b"p", "na\u{ef}ve \u{1f600}".as_bytes());
    assert_eq!(
        text(out),
        "{ \"prefix\": \"p\", \"message\": \"na\u{ef}ve \u{1f600}\", \"transactional\": true }"
    );
}

#[test]
fn message_text_record() {
    let mut out = Vec::new();
    append_message_text(&mut out, true, b"x", b"\"q\"");
    assert_eq!(
        text(out),
        "{ \"prefix\": \"x\", \"message\": \"\\\"q\\\"\", \"transactional\": true }"
    );
}

#[test]
fn records_stay_on_one_line() {
    let mut out = Vec::new();
    append_message(&mut out, true, b"a\nb", b"c\r\nd");
    let change = Change { action: ChangeType::Insert, new_tuple: row("{\"a\":1}"), old_tuple: None };
    append_change(&mut out, &change, b"line\nbreak");
    append_schema(&mut out, &vec![col(1, false, "x\ny", "t\nz")], b"n\nm");
    append_begin(&mut out, 1);
    append_commit(&mut out, 1, b"now");
    assert!(!out.contains(&b'\n'));
}

#[test]
fn decoder_starts_without_table() {
    assert_eq!(Decoder::new().last_relid, 0);
}

#[test]
fn decoder_schema_before_each_new_table() {
    let mut d = Decoder::new();
    assert!(d.change(16384));
    assert!(!d.change(16384));
    assert!(!d.change(16384));
    assert!(d.change(16390));
    assert!(d.change(16384));
    assert_eq!(d.last_relid, 16384);
}

#[test]
fn decoder_commit_forgets_table() {
    let mut d = Decoder::new();
    assert!(d.change(16384));
    d.commit();
    assert_eq!(d.last_relid, 0);
    assert!(d.change(16384));
}

#[test]
fn whole_transaction_scenario() {
    // The callbacks' sequence for one transaction inserting two rows into
    // one table, as the server would drive it.
    let mut d = Decoder::new();
    let mut lines: Vec<String> = Vec::new();
    let mut rec = Vec::new();
    append_begin(&mut rec, 700);
    lines.push(text(rec));
    for id in 1..=2 {
        if d.change(16384) {
            let mut rec = Vec::new();
            append_schema(&mut rec, &vec![col(1, false, "id", "integer")], b"public.t");
            lines.push(text(rec));
        }
        let mut rec = Vec::new();
        let change = Change {
            action: ChangeType::Insert,
            new_tuple: row(&format!("{{\"id\":{}}}", id)),
            old_tuple: None,
        };
        assert!(append_change(&mut rec, &change, b"public.t"));
        lines.push(text(rec));
    }
    let mut rec = Vec::new();
    append_commit(&mut rec, 700, b"2016-05-01 10:00:00+00");
    lines.push(text(rec));
    d.commit();
    assert_eq!(
        lines,
        vec![
            "{ \"begin\": 700 }".to_string(),
            "{ \"table\": \"public.t\", \"schema\": [{\"id\":\"integer\"}] }".to_string(),
            "{ \"insert\": {\"id\":1}, \"table\": \"public.t\" }".to_string(),
            "{ \"insert\": {\"id\":2}, \"table\": \"public.t\" }".to_string(),
            "{ \"commit\": 700, \"t\": \"2016-05-01 10:00:00+00\" }".to_string(),
        ]
    );
    assert_eq!(d.last_relid, 0);
}
