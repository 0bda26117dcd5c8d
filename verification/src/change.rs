//! Row changes: the name of each kind of change, and the record written
//! for an insert, an update or a delete.

use vstd::prelude::*;
use crate::text::{no_nul, lit, lemma_lit_ascii, append_str};
use crate::json::{json_string, append_json, lemma_json_key};
use crate::tuple::{TupleJson, tuple_json, tuple_parts, names_ok, append_tuple_buf_as_json};

verus! {

/// The kinds of change the server's reorder buffer reports.
pub enum ChangeType {
    Insert,
    Update,
    Delete,
    InternalSnapshot,
    InternalCommandId,
    InternalTuplecid,
    InternalSpecInsert,
    /// A kind this decoder has no name for.
    Other,
}

/// The name of a kind of change, as log messages print it.
pub open spec fn change_type_label(t: ChangeType) -> Seq<char> {
    match t {
        ChangeType::Insert => "insert"@,
        ChangeType::Update => "update"@,
        ChangeType::Delete => "delete"@,
        ChangeType::InternalSnapshot => "internal_snapshot"@,
        ChangeType::InternalCommandId => "internal_command_id"@,
        ChangeType::InternalTuplecid => "internal_tuplecid"@,
        ChangeType::InternalSpecInsert => "internal_spec_insert"@,
        ChangeType::Other => "unknown_change_type"@,
    }
}

/// The name of a kind of change, as log messages print it.
pub fn change_type_name(t: &ChangeType) -> (r: &'static str)
    ensures
        r@ == change_type_label(*t),
{
    match t {
        ChangeType::Insert => "insert",
        ChangeType::Update => "update",
        ChangeType::Delete => "delete",
        ChangeType::InternalSnapshot => "internal_snapshot",
        ChangeType::InternalCommandId => "internal_command_id",
        ChangeType::InternalTuplecid => "internal_tuplecid",
        ChangeType::InternalSpecInsert => "internal_spec_insert",
        ChangeType::Other => "unknown_change_type",
    }
}

/// The key a change record opens with: `insert`, `update` or `delete`;
/// `None` for every other kind, which gets no record.
pub open spec fn change_key(t: ChangeType) -> Option<Seq<u8>> {
    match t {
        ChangeType::Insert => Some(lit("insert")),
        ChangeType::Update => Some(lit("update")),
        ChangeType::Delete => Some(lit("delete")),
        _ => None,
    }
}

/// One change of one row: its kind, the new row (where there is one) and
/// the old row (where the server logged it).
pub struct Change {
    pub action: ChangeType,
    pub new_tuple: Option<TupleJson>,
    pub old_tuple: Option<TupleJson>,
}

/// The record of a change: `{ ` the key `: ` the new row, then
/// `, "@": ` the old row where there is one, then `, "table": ` the
/// qualified name of the table ` }`.
pub open spec fn change_json(
    key: Seq<u8>,
    new_tuple: Option<(Seq<u8>, Seq<Seq<u8>>)>,
    old_tuple: Option<(Seq<u8>, Seq<Seq<u8>>)>,
    qualified_name: Seq<u8>,
) -> Seq<u8> {
    lit("{ ") + json_string(key) + lit(": ") + tuple_json(new_tuple) + (if old_tuple is Some {
        lit(", \"@\": ") + tuple_json(old_tuple)
    } else {
        Seq::empty()
    }) + lit(", ") + json_string(lit("table")) + lit(": ") + json_string(qualified_name) + lit(
        " }",
    )
}

/// Appends the record of `change` on the table named `qualified_name` to
/// `out` and returns `true`; for a kind of change other than insert,
/// update and delete, leaves `out` as it is and returns `false` (the
/// caller logs it).
pub fn append_change(out: &mut Vec<u8>, change: &Change, qualified_name: &[u8]) -> (written: bool)
    requires
        no_nul(qualified_name@),
        names_ok(change.new_tuple),
        names_ok(change.old_tuple),
    ensures
        written == change_key(change.action) is Some,
        written ==> final(out)@ == old(out)@ + change_json(
            change_key(change.action).unwrap(),
            tuple_parts(change.new_tuple),
            tuple_parts(change.old_tuple),
            qualified_name@,
        ),
        !written ==> final(out)@ == old(out)@,
{
    let token: &str = match change.action {
        ChangeType::Insert => {
            proof {
                reveal_strlit("insert");
                lemma_lit_ascii("insert");
            }
            "insert"
        },
        ChangeType::Update => {
            proof {
                reveal_strlit("update");
                lemma_lit_ascii("update");
            }
            "update"
        },
        ChangeType::Delete => {
            proof {
                reveal_strlit("delete");
                lemma_lit_ascii("delete");
            }
            "delete"
        },
        _ => {
            return false;
        },
    };
    append_change_record(out, token, &change.new_tuple, &change.old_tuple, qualified_name);
    true
}

/// Appends the record of a change whose key is `key`.
fn append_change_record(
    out: &mut Vec<u8>,
    key: &str,
    new_tuple: &Option<TupleJson>,
    old_tuple: &Option<TupleJson>,
    qualified_name: &[u8],
)
    requires
        no_nul(lit(key)),
        no_nul(qualified_name@),
        names_ok(*new_tuple),
        names_ok(*old_tuple),
    ensures
        final(out)@ == old(out)@ + change_json(
            lit(key),
            tuple_parts(*new_tuple),
            tuple_parts(*old_tuple),
            qualified_name@,
        ),
{
    proof {
        reveal_strlit("table");
        lemma_lit_ascii("table");
    }
    let ghost head = lit("{ ") + json_string(lit(key)) + lit(": ") + tuple_json(tuple_parts(*new_tuple));
    let ghost old_part = if old_tuple is Some {
        lit(", \"@\": ") + tuple_json(tuple_parts(*old_tuple))
    } else {
        Seq::<u8>::empty()
    };
    let ghost tail = lit(", ") + json_string(lit("table")) + lit(": ") + json_string(
        qualified_name@,
    ) + lit(" }");
    let ghost before = out@;
    append_str(out, "{ ");
    append_json(out, key.as_bytes());
    append_str(out, ": ");
    append_tuple_buf_as_json(out, new_tuple);
    let ghost mid = out@;
    assert(mid =~= before + head);
    if old_tuple.is_some() {
        append_str(out, ", \"@\": ");
        append_tuple_buf_as_json(out, old_tuple);
    }
    let ghost mid2 = out@;
    assert(mid2 =~= mid + old_part);
    append_str(out, ", ");
    append_json(out, "table".as_bytes());
    append_str(out, ": ");
    append_json(out, qualified_name);
    append_str(out, " }");
    assert(out@ =~= mid2 + tail);
    assert(change_json(lit(key), tuple_parts(*new_tuple), tuple_parts(*old_tuple), qualified_name@)
        =~= head + old_part + tail);
}

/// The `"@"` field is there exactly when the change carries an old row:
/// without one the record is `{ ` key `: ` new row `, "table": ` name
/// ` }`; with one, `, "@": ` and the old row stand between the new row
/// and the table's name. This holds for every key.
pub proof fn lemma_change_record_old_row(
    key: Seq<u8>,
    new_tuple: Option<(Seq<u8>, Seq<Seq<u8>>)>,
    old_tuple: Option<(Seq<u8>, Seq<Seq<u8>>)>,
    qualified_name: Seq<u8>,
)
    ensures
        old_tuple is None ==> change_json(key, new_tuple, old_tuple, qualified_name) == lit("{ ")
            + json_string(key) + lit(": ") + tuple_json(new_tuple) + lit(", \"table\": ")
            + json_string(qualified_name) + lit(" }"),
        old_tuple is Some ==> change_json(key, new_tuple, old_tuple, qualified_name) == lit("{ ")
            + json_string(key) + lit(": ") + tuple_json(new_tuple) + lit(", \"@\": ") + tuple_json(
            old_tuple,
        ) + lit(", \"table\": ") + json_string(qualified_name) + lit(" }"),
{
    reveal_strlit(", ");
    reveal_strlit("table");
    reveal_strlit(": ");
    reveal_strlit(", \"table\": ");
    lemma_lit_ascii(", ");
    lemma_lit_ascii(": ");
    lemma_lit_ascii(", \"table\": ");
    lemma_json_key("table");
    lemma_lit_ascii("table");
    assert(lit(", ") + json_string(lit("table")) + lit(": ") =~= lit(", \"table\": "));
    let head = lit("{ ") + json_string(key) + lit(": ") + tuple_json(new_tuple);
    let tail = json_string(qualified_name) + lit(" }");
    if old_tuple is None {
        assert(change_json(key, new_tuple, old_tuple, qualified_name) =~= head + (lit(", ")
            + json_string(lit("table")) + lit(": ")) + tail);
    } else {
        let mid = lit(", \"@\": ") + tuple_json(old_tuple);
        assert(change_json(key, new_tuple, old_tuple, qualified_name) =~= head + mid + (lit(", ")
            + json_string(lit("table")) + lit(": ")) + tail);
    }
}

/// Insert, update and delete open their records with the same names
/// that log messages give them; every other kind of change has no record.
pub proof fn lemma_change_keys(t: ChangeType)
    ensures
        change_key(t) is Some <==> (t is Insert || t is Update || t is Delete),
        change_key(t) is Some ==> change_key(t).unwrap() == vstd::utf8::encode_utf8(
            change_type_label(t),
        ),
{
}

} // verus!
