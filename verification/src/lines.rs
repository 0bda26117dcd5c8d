//! Every record is one line: none of the bytes the decoder writes is a
//! line feed, so a reader can split the stream of records at line feeds.
//! The only bytes copied through as they are, the rows' own JSON text and
//! the commit time, are the server's, and are assumed to be one line.

use vstd::prelude::*;
use crate::text::{lit, lemma_lit_ascii, decimal, digit};
use crate::json::{json_string, lemma_json_string_printable, SPACE};
use crate::tuple::{tuple_json, json_list};
use crate::change::{change_json};
use crate::schema::{SchemaColumn, schema_json, schema_entries, schema_entry, listed_columns};
use crate::message::message_json;
use crate::decoder::{begin_json, commit_json};

verus! {

/// The line feed.
pub const LINE_FEED: u8 = 10;

/// No byte of `s` is a line feed.
pub open spec fn single_line(s: Seq<u8>) -> bool {
    forall|i: int| 0 <= i < s.len() ==> s[i] != LINE_FEED
}

proof fn lemma_concat(a: Seq<u8>, b: Seq<u8>)
    requires
        single_line(a),
        single_line(b),
    ensures
        single_line(a + b),
{
    assert forall|i: int| 0 <= i < (a + b).len() implies (a + b)[i] != LINE_FEED by {
        if i < a.len() {
            assert((a + b)[i] == a[i]);
        } else {
            assert((a + b)[i] == b[i - a.len()]);
        }
    }
}

proof fn lemma_json_string(s: Seq<u8>)
    ensures
        single_line(json_string(s)),
{
    lemma_json_string_printable(s);
    assert forall|i: int| 0 <= i < json_string(s).len() implies json_string(s)[i] != LINE_FEED by {
        assert(json_string(s)[i] >= SPACE);
    }
}

proof fn lemma_lit(s: &str)
    requires
        forall|i: int| 0 <= i < s@.len() ==> ' ' <= #[trigger] s@[i] <= '~',
    ensures
        single_line(lit(s)),
{
    lemma_lit_ascii(s);
}

proof fn lemma_decimal(n: nat)
    ensures
        single_line(decimal(n)),
    decreases n,
{
    if n >= 10 {
        lemma_decimal(n / 10);
        lemma_concat(decimal(n / 10), seq![digit(n % 10)]);
        assert(decimal(n / 10).push(digit(n % 10)) =~= decimal(n / 10) + seq![digit(n % 10)]);
    }
}

proof fn lemma_json_list(items: Seq<Seq<u8>>)
    ensures
        single_line(json_list(items)),
    decreases items.len(),
{
    reveal_strlit(", ");
    lemma_lit(", ");
    if items.len() == 1 {
        lemma_json_string(items[0]);
    } else if items.len() > 1 {
        lemma_json_list(items.drop_last());
        lemma_json_string(items.last());
        lemma_concat(json_list(items.drop_last()), lit(", "));
        lemma_concat(json_list(items.drop_last()) + lit(", "), json_string(items.last()));
    }
}

/// A row is written on one line where its own text is.
proof fn lemma_tuple(t: Option<(Seq<u8>, Seq<Seq<u8>>)>)
    requires
        t matches Some(p) ==> single_line(p.0),
    ensures
        single_line(tuple_json(t)),
{
    reveal_strlit("{}");
    lemma_lit("{}");
    if let Some((row, skipped)) = t {
        if skipped.len() > 0 {
            reveal_strlit(", ");
            reveal_strlit("skipped");
            reveal_strlit(": [");
            reveal_strlit("]");
            lemma_lit(", ");
            lemma_lit(": [");
            lemma_lit("]");
            lemma_json_string(lit("skipped"));
            lemma_json_list(skipped);
            let p1 = row + lit(", ");
            lemma_concat(row, lit(", "));
            lemma_concat(p1, json_string(lit("skipped")));
            let p2 = p1 + json_string(lit("skipped"));
            lemma_concat(p2, lit(": ["));
            let p3 = p2 + lit(": [");
            lemma_concat(p3, json_list(skipped));
            let p4 = p3 + json_list(skipped);
            lemma_concat(p4, lit("]"));
        }
    }
}

/// The record that opens a transaction is one line.
pub proof fn lemma_begin_single_line(xid: u32)
    ensures
        single_line(begin_json(xid)),
{
    reveal_strlit("{ \"begin\": ");
    reveal_strlit(" }");
    lemma_lit("{ \"begin\": ");
    lemma_lit(" }");
    lemma_decimal(xid as nat);
    lemma_concat(lit("{ \"begin\": "), decimal(xid as nat));
    lemma_concat(lit("{ \"begin\": ") + decimal(xid as nat), lit(" }"));
}

/// The record that closes a transaction is one line where the commit
/// time is.
pub proof fn lemma_commit_single_line(xid: u32, time: Seq<u8>)
    requires
        single_line(time),
    ensures
        single_line(commit_json(xid, time)),
{
    reveal_strlit("{ \"commit\": ");
    reveal_strlit(", \"t\": \"");
    reveal_strlit("\" }");
    lemma_lit("{ \"commit\": ");
    lemma_lit(", \"t\": \"");
    lemma_lit("\" }");
    lemma_decimal(xid as nat);
    let p1 = lit("{ \"commit\": ") + decimal(xid as nat);
    lemma_concat(lit("{ \"commit\": "), decimal(xid as nat));
    lemma_concat(p1, lit(", \"t\": \""));
    let p2 = p1 + lit(", \"t\": \"");
    lemma_concat(p2, time);
    lemma_concat(p2 + time, lit("\" }"));
}

/// The record of a change is one line where its rows' texts are.
pub proof fn lemma_change_single_line(
    key: Seq<u8>,
    new_tuple: Option<(Seq<u8>, Seq<Seq<u8>>)>,
    old_tuple: Option<(Seq<u8>, Seq<Seq<u8>>)>,
    qualified_name: Seq<u8>,
)
    requires
        new_tuple matches Some(p) ==> single_line(p.0),
        old_tuple matches Some(p) ==> single_line(p.0),
    ensures
        single_line(change_json(key, new_tuple, old_tuple, qualified_name)),
{
    reveal_strlit("{ ");
    reveal_strlit(": ");
    reveal_strlit(", \"@\": ");
    reveal_strlit(", ");
    reveal_strlit("table");
    reveal_strlit(" }");
    lemma_lit("{ ");
    lemma_lit(": ");
    lemma_lit(", \"@\": ");
    lemma_lit(", ");
    lemma_lit(" }");
    lemma_json_string(key);
    lemma_json_string(lit("table"));
    lemma_json_string(qualified_name);
    lemma_tuple(new_tuple);
    lemma_tuple(old_tuple);
    let old_part = if old_tuple is Some {
        lit(", \"@\": ") + tuple_json(old_tuple)
    } else {
        Seq::<u8>::empty()
    };
    if old_tuple is Some {
        lemma_concat(lit(", \"@\": "), tuple_json(old_tuple));
    }
    let p1 = lit("{ ") + json_string(key);
    lemma_concat(lit("{ "), json_string(key));
    lemma_concat(p1, lit(": "));
    let p2 = p1 + lit(": ");
    lemma_concat(p2, tuple_json(new_tuple));
    let p3 = p2 + tuple_json(new_tuple);
    lemma_concat(p3, old_part);
    let p4 = p3 + old_part;
    lemma_concat(p4, lit(", "));
    let p5 = p4 + lit(", ");
    lemma_concat(p5, json_string(lit("table")));
    let p6 = p5 + json_string(lit("table"));
    lemma_concat(p6, lit(": "));
    let p7 = p6 + lit(": ");
    lemma_concat(p7, json_string(qualified_name));
    let p8 = p7 + json_string(qualified_name);
    lemma_concat(p8, lit(" }"));
}

proof fn lemma_schema_entries(cols: Seq<(Seq<u8>, Seq<u8>)>)
    ensures
        single_line(schema_entries(cols)),
    decreases cols.len(),
{
    reveal_strlit("{");
    reveal_strlit(":");
    reveal_strlit("}");
    reveal_strlit(",");
    lemma_lit("{");
    lemma_lit(":");
    lemma_lit("}");
    lemma_lit(",");
    if cols.len() > 0 {
        let c = cols.last();
        lemma_json_string(c.0);
        lemma_json_string(c.1);
        lemma_concat(lit("{"), json_string(c.0));
        lemma_concat(lit("{") + json_string(c.0), lit(":"));
        lemma_concat(lit("{") + json_string(c.0) + lit(":"), json_string(c.1));
        lemma_concat(lit("{") + json_string(c.0) + lit(":") + json_string(c.1), lit("}"));
        assert(single_line(schema_entry(c)));
        if cols.len() == 1 {
            assert(cols[0] == c);
        } else {
            lemma_schema_entries(cols.drop_last());
            lemma_concat(schema_entries(cols.drop_last()), lit(","));
            lemma_concat(schema_entries(cols.drop_last()) + lit(","), schema_entry(c));
        }
    }
}

/// The schema record of a table is one line.
pub proof fn lemma_schema_single_line(cols: Seq<SchemaColumn>, qualified_name: Seq<u8>)
    ensures
        single_line(schema_json(cols, qualified_name)),
{
    reveal_strlit("{ ");
    reveal_strlit("schema");
    reveal_strlit(": ");
    reveal_strlit("[");
    reveal_strlit("]");
    reveal_strlit(", ");
    reveal_strlit("table");
    reveal_strlit(" }");
    lemma_lit("{ ");
    lemma_lit(": ");
    lemma_lit("[");
    lemma_lit("]");
    lemma_lit(", ");
    lemma_lit(" }");
    lemma_json_string(lit("schema"));
    lemma_json_string(lit("table"));
    lemma_json_string(qualified_name);
    let entries = schema_entries(listed_columns(cols));
    lemma_schema_entries(listed_columns(cols));
    let p1 = lit("{ ") + json_string(lit("table"));
    lemma_concat(lit("{ "), json_string(lit("table")));
    lemma_concat(p1, lit(": "));
    let p2 = p1 + lit(": ");
    lemma_concat(p2, json_string(qualified_name));
    let p3 = p2 + json_string(qualified_name);
    lemma_concat(p3, lit(", "));
    let p4 = p3 + lit(", ");
    lemma_concat(p4, json_string(lit("schema")));
    let p5 = p4 + json_string(lit("schema"));
    lemma_concat(p5, lit(": "));
    let p6 = p5 + lit(": ");
    lemma_concat(p6, lit("["));
    let p7 = p6 + lit("[");
    lemma_concat(p7, entries);
    let p8 = p7 + entries;
    lemma_concat(p8, lit("]"));
    let p9 = p8 + lit("]");
    lemma_concat(p9, lit(" }"));
}

/// The record of a message is one line, whatever bytes its prefix and
/// text hold.
pub proof fn lemma_message_single_line(transactional: bool, prefix: Seq<u8>, text: Seq<u8>)
    ensures
        single_line(message_json(transactional, prefix, text)),
{
    reveal_strlit("{ ");
    reveal_strlit("prefix");
    reveal_strlit(": ");
    reveal_strlit(", ");
    reveal_strlit("message");
    reveal_strlit("transactional");
    reveal_strlit("true");
    reveal_strlit("false");
    reveal_strlit(" }");
    lemma_lit("{ ");
    lemma_lit(": ");
    lemma_lit(", ");
    lemma_lit("true");
    lemma_lit("false");
    lemma_lit(" }");
    lemma_json_string(lit("prefix"));
    lemma_json_string(lit("message"));
    lemma_json_string(lit("transactional"));
    lemma_json_string(prefix);
    lemma_json_string(text);
    let flag = if transactional {
        lit("true")
    } else {
        lit("false")
    };
    let p1 = lit("{ ") + json_string(lit("prefix"));
    lemma_concat(lit("{ "), json_string(lit("prefix")));
    lemma_concat(p1, lit(": "));
    let p2 = p1 + lit(": ");
    lemma_concat(p2, json_string(prefix));
    let p3 = p2 + json_string(prefix);
    lemma_concat(p3, lit(", "));
    let p4 = p3 + lit(", ");
    lemma_concat(p4, json_string(lit("message")));
    let p5 = p4 + json_string(lit("message"));
    lemma_concat(p5, lit(": "));
    let p6 = p5 + lit(": ");
    lemma_concat(p6, json_string(text));
    let p7 = p6 + json_string(text);
    lemma_concat(p7, lit(", "));
    let p8 = p7 + lit(", ");
    lemma_concat(p8, json_string(lit("transactional")));
    let p9 = p8 + json_string(lit("transactional"));
    lemma_concat(p9, lit(": "));
    let p10 = p9 + lit(": ");
    lemma_concat(p10, flag);
    let p11 = p10 + flag;
    lemma_concat(p11, lit(" }"));
}

} // verus!
