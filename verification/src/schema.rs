//! The schema record written before the first change of a table: the
//! table's name, then its user columns with their types.

use vstd::prelude::*;
use crate::text::{no_nul, lit, lemma_lit_ascii, append_str};
use crate::json::{json_string, append_json, read_string, lemma_read_json_string, lemma_json_key};

verus! {

/// One column of a table as the schema record describes it.
pub struct SchemaColumn {
    /// The column's number (positive for user columns).
    pub attnum: i16,
    /// Whether the column has been dropped.
    pub attisdropped: bool,
    /// The column's name (looked up only for a listed column).
    pub name: Vec<u8>,
    /// The column's type as the server formats it (looked up only for a
    /// listed column).
    pub typ: Vec<u8>,
}

/// A column is listed: it is a user column that has not been dropped.
pub open spec fn spec_schema_lists_column(attnum: i16, attisdropped: bool) -> bool {
    !attisdropped && attnum > 0
}

/// Whether the schema record lists a column; only then are its name and
/// type looked up.
pub fn schema_lists_column(attnum: i16, attisdropped: bool) -> (r: bool)
    ensures
        r == spec_schema_lists_column(attnum, attisdropped),
{
    if attisdropped || attnum <= 0 {
        return false;
    }
    true
}

/// The names and types of the listed columns, in column order.
pub open spec fn listed_columns(cols: Seq<SchemaColumn>) -> Seq<(Seq<u8>, Seq<u8>)>
    decreases cols.len(),
{
    if cols.len() == 0 {
        Seq::empty()
    } else {
        let before = listed_columns(cols.drop_last());
        let c = cols.last();
        if spec_schema_lists_column(c.attnum, c.attisdropped) {
            before.push((c.name@, c.typ@))
        } else {
            before
        }
    }
}

/// One entry of the schema: `{` the column's name `:` its type `}`.
pub open spec fn schema_entry(col: (Seq<u8>, Seq<u8>)) -> Seq<u8> {
    lit("{") + json_string(col.0) + lit(":") + json_string(col.1) + lit("}")
}

/// The entries of `cols`, separated by commas.
pub open spec fn schema_entries(cols: Seq<(Seq<u8>, Seq<u8>)>) -> Seq<u8>
    decreases cols.len(),
{
    if cols.len() == 0 {
        Seq::empty()
    } else if cols.len() == 1 {
        schema_entry(cols[0])
    } else {
        schema_entries(cols.drop_last()) + lit(",") + schema_entry(cols.last())
    }
}

/// The schema record of a table: `{ "table": ` its qualified name
/// `, "schema": [` its entries `] }`.
pub open spec fn schema_json(cols: Seq<SchemaColumn>, qualified_name: Seq<u8>) -> Seq<u8> {
    lit("{ ") + json_string(lit("table")) + lit(": ") + json_string(qualified_name) + lit(", ")
        + json_string(lit("schema")) + lit(": ") + lit("[") + schema_entries(
        listed_columns(cols),
    ) + lit("]") + lit(" }")
}

/// The name and type of every listed column are contents of C strings.
pub open spec fn schema_names_ok(cols: Seq<SchemaColumn>) -> bool {
    forall|i: int|
        0 <= i < cols.len() && spec_schema_lists_column(cols[i].attnum, cols[i].attisdropped)
            ==> no_nul(#[trigger] cols[i].name@) && no_nul(cols[i].typ@)
}

/// Appends the schema record of the table named `qualified_name` whose
/// columns are `columns` to `out`.
pub fn append_schema(out: &mut Vec<u8>, columns: &Vec<SchemaColumn>, qualified_name: &[u8])
    requires
        schema_names_ok(columns@),
        no_nul(qualified_name@),
    ensures
        final(out)@ == old(out)@ + schema_json(columns@, qualified_name@),
{
    proof {
        reveal_strlit("schema");
        lemma_lit_ascii("schema");
        reveal_strlit("table");
        lemma_lit_ascii("table");
    }
    let ghost before = out@;
    append_str(out, "{ ");
    append_json(out, "table".as_bytes());
    append_str(out, ": ");
    append_json(out, qualified_name);
    append_str(out, ", ");
    append_json(out, "schema".as_bytes());
    append_str(out, ": ");
    append_str(out, "[");
    let ghost head = out@;
    let mut first: bool = true;
    let n = columns.len();
    let mut i: usize = 0;
    while i < n
        invariant
            n == columns@.len(),
            0 <= i <= n,
            schema_names_ok(columns@),
            first == (listed_columns(columns@.take(i as int)).len() == 0),
            out@ == head + schema_entries(listed_columns(columns@.take(i as int))),
        decreases n - i,
    {
        let col = &columns[i];
        let ghost prev = listed_columns(columns@.take(i as int));
        proof {
            assert(columns@.take(i + 1).drop_last() =~= columns@.take(i as int));
            assert(columns@.take(i + 1).last() == columns@[i as int]);
        }
        if schema_lists_column(col.attnum, col.attisdropped) {
            let ghost entry = (col.name@, col.typ@);
            let ghost mid = out@;
            if !first {
                append_str(out, ",");
            } else {
                first = false;
            }
            append_str(out, "{");
            append_json(out, col.name.as_slice());
            append_str(out, ":");
            append_json(out, col.typ.as_slice());
            append_str(out, "}");
            proof {
                let now = listed_columns(columns@.take(i + 1));
                assert(now == prev.push(entry));
                assert(now.drop_last() =~= prev);
                if prev.len() == 0 {
                    assert(schema_entries(prev) =~= Seq::<u8>::empty());
                    assert(out@ =~= head + schema_entry(entry));
                } else {
                    assert(out@ =~= head + (schema_entries(prev) + lit(",") + schema_entry(entry)));
                }
            }
        }
        i = i + 1;
    }
    assert(columns@.take(n as int) =~= columns@);
    let ghost mid = out@;
    append_str(out, "]");
    append_str(out, " }");
    assert(out@ =~= before + schema_json(columns@, qualified_name@));
}

/// Reads one schema entry at the start of `t`: `{`, a JSON string, `:`,
/// a JSON string, `}`; the two strings' bytes and the entry's length.
pub open spec fn read_entry(t: Seq<u8>) -> Option<((Seq<u8>, Seq<u8>), nat)> {
    if t.len() > 0 && t[0] == 123 {
        match read_string(t.drop_first()) {
            Some((name, n)) => {
                let t1 = t.skip(1 + n as int);
                if 1 + n < t.len() && t1[0] == 58 {
                    match read_string(t1.drop_first()) {
                        Some((typ, m)) => {
                            let used = 1 + n + 1 + m;
                            if used < t.len() && t[used as int] == 125 {
                                Some(((name, typ), used + 1))
                            } else {
                                None
                            }
                        },
                        None => None,
                    }
                } else {
                    None
                }
            },
            None => None,
        }
    } else {
        None
    }
}

/// Reads one or more schema entries separated by commas.
pub open spec fn read_entries_nonempty(t: Seq<u8>) -> Option<Seq<(Seq<u8>, Seq<u8>)>>
    decreases t.len(),
{
    match read_entry(t) {
        Some((e, n)) => if n == t.len() {
            Some(seq![e])
        } else if 1 <= n < t.len() && t[n as int] == 44 {
            match read_entries_nonempty(t.skip(n + 1int)) {
                Some(r) => Some(seq![e] + r),
                None => None,
            }
        } else {
            None
        },
        None => None,
    }
}

/// Reads the text between the brackets of a schema list: no entries, or
/// entries separated by commas; `None` where it is neither.
pub open spec fn read_entries(t: Seq<u8>) -> Option<Seq<(Seq<u8>, Seq<u8>)>> {
    if t.len() == 0 {
        Some(Seq::empty())
    } else {
        read_entries_nonempty(t)
    }
}

proof fn lemma_punct()
    ensures
        lit("{") == seq![123u8],
        lit(":") == seq![58u8],
        lit("}") == seq![125u8],
        lit(",") == seq![44u8],
{
    reveal_strlit("{");
    reveal_strlit(":");
    reveal_strlit("}");
    reveal_strlit(",");
    lemma_lit_ascii("{");
    lemma_lit_ascii(":");
    lemma_lit_ascii("}");
    lemma_lit_ascii(",");
    assert(lit("{") =~= seq![123u8]);
    assert(lit(":") =~= seq![58u8]);
    assert(lit("}") =~= seq![125u8]);
    assert(lit(",") =~= seq![44u8]);
}

proof fn lemma_read_entry(c: (Seq<u8>, Seq<u8>), rest: Seq<u8>)
    ensures
        read_entry(schema_entry(c) + rest) == Some((c, schema_entry(c).len())),
{
    lemma_punct();
    let a = json_string(c.0);
    let b = json_string(c.1);
    let t = schema_entry(c) + rest;
    assert(t =~= seq![123u8] + a + seq![58u8] + b + seq![125u8] + rest);
    lemma_read_json_string(c.0, seq![58u8] + b + seq![125u8] + rest);
    assert(t.drop_first() =~= a + (seq![58u8] + b + seq![125u8] + rest));
    let t1 = t.skip(1 + a.len() as int);
    assert(t1 =~= seq![58u8] + b + seq![125u8] + rest);
    lemma_read_json_string(c.1, seq![125u8] + rest);
    assert(t1.drop_first() =~= b + (seq![125u8] + rest));
    let used = 1 + a.len() + 1 + b.len();
    assert(t[used as int] == 125u8);
    assert(schema_entry(c).len() == used + 1);
}

/// The entries read from the front: the first, then the rest.
proof fn lemma_schema_entries_front(cols: Seq<(Seq<u8>, Seq<u8>)>)
    requires
        cols.len() >= 2,
    ensures
        schema_entries(cols) == schema_entry(cols[0]) + lit(",") + schema_entries(
            cols.drop_first(),
        ),
    decreases cols.len(),
{
    let dl = cols.drop_last();
    let df = cols.drop_first();
    if cols.len() == 2 {
        assert(dl[0] == cols[0]);
        assert(df[0] == cols[1]);
        assert(schema_entries(df) == schema_entry(cols[1]));
        assert(schema_entries(dl) == schema_entry(cols[0]));
        assert(cols.last() == cols[1]);
    } else {
        lemma_schema_entries_front(dl);
        assert(dl.drop_first() =~= df.drop_last());
        assert(df.last() == cols.last());
        assert(dl[0] == cols[0]);
        assert(schema_entries(cols) == schema_entries(dl) + lit(",") + schema_entry(cols.last()));
        assert(schema_entries(df) == schema_entries(df.drop_last()) + lit(",") + schema_entry(
            df.last(),
        ));
        assert(schema_entries(cols) =~= schema_entry(cols[0]) + lit(",") + (schema_entries(
            dl.drop_first(),
        ) + lit(",") + schema_entry(cols.last())));
    }
}

/// The entries written read back as exactly the columns they were
/// written from, in order.
pub proof fn lemma_read_schema_entries(cols: Seq<(Seq<u8>, Seq<u8>)>)
    ensures
        read_entries(schema_entries(cols)) == Some(cols),
    decreases cols.len(),
{
    if cols.len() == 0 {
        assert(schema_entries(cols).len() == 0);
        assert(cols =~= Seq::<(Seq<u8>, Seq<u8>)>::empty());
    } else if cols.len() == 1 {
        lemma_read_entry(cols[0], Seq::empty());
        assert(schema_entry(cols[0]) + Seq::<u8>::empty() =~= schema_entry(cols[0]));
        assert(seq![cols[0]] =~= cols);
    } else {
        lemma_schema_entries_front(cols);
        lemma_punct();
        let first = schema_entry(cols[0]);
        let rest = schema_entries(cols.drop_first());
        let t = first + lit(",") + rest;
        lemma_read_entry(cols[0], lit(",") + rest);
        assert(t =~= first + (lit(",") + rest));
        let n = first.len() as int;
        assert(t[n] == 44u8);
        assert(t.skip(n + 1) =~= rest);
        lemma_read_schema_entries(cols.drop_first());
        assert(rest.len() > 0);
        assert(seq![cols[0]] + cols.drop_first() =~= cols);
    }
}

/// The names and types of the live user columns (not dropped, positive
/// number), in column order.
pub open spec fn live_user_columns(cols: Seq<SchemaColumn>) -> Seq<(Seq<u8>, Seq<u8>)> {
    cols.filter(|c: SchemaColumn| !c.attisdropped && c.attnum > 0).map_values(
        |c: SchemaColumn| (c.name@, c.typ@),
    )
}

proof fn lemma_listed_are_live(cols: Seq<SchemaColumn>)
    ensures
        listed_columns(cols) == live_user_columns(cols),
    decreases cols.len(),
{
    let pred = |c: SchemaColumn| !c.attisdropped && c.attnum > 0;
    reveal_with_fuel(Seq::filter, 1);
    if cols.len() == 0 {
        assert(cols.filter(pred) =~= Seq::<SchemaColumn>::empty());
        assert(live_user_columns(cols) =~= Seq::<(Seq<u8>, Seq<u8>)>::empty());
    } else {
        lemma_listed_are_live(cols.drop_last());
        let sub = cols.drop_last().filter(pred);
        if pred(cols.last()) {
            assert(cols.filter(pred) == sub.push(cols.last()));
            assert(live_user_columns(cols) =~= live_user_columns(cols.drop_last()).push(
                (cols.last().name@, cols.last().typ@),
            ));
        } else {
            assert(cols.filter(pred) == sub);
        }
    }
}

/// The opening of a schema record up to its list.
proof fn lemma_schema_keys(qualified_name: Seq<u8>)
    ensures
        lit("{ ") + json_string(lit("table")) + lit(": ") + json_string(qualified_name) + lit(
            ", ",
        ) + json_string(lit("schema")) + lit(": ") + lit("[") == lit("{ \"table\": ")
            + json_string(qualified_name) + lit(", \"schema\": ["),
        lit("]") + lit(" }") == lit("] }"),
{
    reveal_strlit("{ ");
    reveal_strlit("table");
    reveal_strlit(": ");
    reveal_strlit(", ");
    reveal_strlit("schema");
    reveal_strlit("[");
    reveal_strlit("]");
    reveal_strlit(" }");
    reveal_strlit("{ \"table\": ");
    reveal_strlit(", \"schema\": [");
    reveal_strlit("] }");
    lemma_lit_ascii("{ ");
    lemma_lit_ascii("table");
    lemma_lit_ascii(": ");
    lemma_lit_ascii(", ");
    lemma_lit_ascii("schema");
    lemma_lit_ascii("[");
    lemma_lit_ascii("]");
    lemma_lit_ascii(" }");
    lemma_lit_ascii("{ \"table\": ");
    lemma_lit_ascii(", \"schema\": [");
    lemma_lit_ascii("] }");
    lemma_json_key("table");
    lemma_json_key("schema");
    assert(lit("{ ") + json_string(lit("table")) + lit(": ") =~= lit("{ \"table\": "));
    assert(lit(", ") + json_string(lit("schema")) + lit(": ") + lit("[") =~= lit(
        ", \"schema\": [",
    ));
    assert(lit("]") + lit(" }") =~= lit("] }"));
}

/// The schema record of a table is `{ "table": ` the JSON string of its
/// qualified name `, "schema": [`, then a list that reads back as exactly
/// the names and types of its live user columns in column order (dropped
/// and system columns leave no trace in it), then `] }`.
pub proof fn lemma_schema_record(cols: Seq<SchemaColumn>, qualified_name: Seq<u8>)
    ensures
        ({
            let out = schema_json(cols, qualified_name);
            let head = lit("{ \"table\": ") + json_string(qualified_name) + lit(", \"schema\": [");
            &&& out.len() >= head.len() + lit("] }").len()
            &&& out.take(head.len() as int) == head
            &&& out.skip(out.len() - lit("] }").len()) == lit("] }")
            &&& read_entries(out.subrange(head.len() as int, out.len() - lit("] }").len()))
                == Some(live_user_columns(cols))
        }),
{
    lemma_schema_keys(qualified_name);
    lemma_listed_are_live(cols);
    let entries = schema_entries(listed_columns(cols));
    lemma_read_schema_entries(listed_columns(cols));
    let out = schema_json(cols, qualified_name);
    let head = lit("{ \"table\": ") + json_string(qualified_name) + lit(", \"schema\": [");
    let tail = lit("] }");
    assert(out =~= (lit("{ ") + json_string(lit("table")) + lit(": ") + json_string(
        qualified_name,
    ) + lit(", ") + json_string(lit("schema")) + lit(": ") + lit("[")) + entries + (lit("]")
        + lit(" }")));
    assert(out =~= head + entries + tail);
    assert(out.take(head.len() as int) =~= head);
    assert(out.skip(out.len() - tail.len()) =~= tail);
    assert(out.subrange(head.len() as int, out.len() - tail.len()) =~= entries);
}

} // verus!
