//! One row of a change: finding the columns whose value is a stale
//! pointer to out-of-line (TOAST) storage, and writing the row as JSON
//! with the names of the columns left out.

use vstd::prelude::*;
use crate::text::{no_nul, lit, lemma_lit_ascii, append_str, append_bytes};
use crate::json::{json_string, append_json, read_string, lemma_read_json_string, lemma_json_key};

verus! {

/// The tag of a TOAST pointer to on-disk storage (`VARTAG_ONDISK`).
pub const VARTAG_ONDISK: u8 = 18;

/// The first two bytes a variable-length datum points at: the one-byte
/// header and, for an external value, its tag.
pub struct VarattHeader {
    pub va_header: u8,
    pub va_tag: u8,
}

/// Whether a column's value is an on-disk TOAST pointer
/// (`VARATT_IS_EXTERNAL_ONDISK`): the column's type is variable-length
/// (`header` is `Some`), the header byte is `0x01` (an external value)
/// and the tag is `VARTAG_ONDISK`.
pub open spec fn spec_is_stale_toast(header: Option<VarattHeader>) -> bool {
    match header {
        Some(h) => h.va_header == 1 && h.va_tag == VARTAG_ONDISK,
        None => false,
    }
}

/// Whether a column's value is an on-disk TOAST pointer, which a logical
/// decoder cannot follow. `header` is `None` where the column's type is
/// not variable-length, else the first bytes the datum points at.
pub fn is_stale_toast(header: &Option<VarattHeader>) -> (r: bool)
    ensures
        r == spec_is_stale_toast(*header),
{
    match header {
        Some(h) => {
            if h.va_header != 1 {
                return false;
            }
            h.va_tag == VARTAG_ONDISK
        },
        None => false,
    }
}

/// Whether a column gets the TOAST check: its value is not null (a zero
/// datum), it is a user column (positive number) and it is not dropped.
pub open spec fn spec_toast_check_applies(datum: usize, attnum: i16, attisdropped: bool) -> bool {
    datum != 0 && attnum > 0 && !attisdropped
}

/// Whether a column gets the TOAST check; only then may its datum be read
/// as a pointer.
pub fn toast_check_applies(datum: usize, attnum: i16, attisdropped: bool) -> (r: bool)
    ensures
        r == spec_toast_check_applies(datum, attnum, attisdropped),
{
    if datum == 0 || attnum <= 0 {
        return false;
    }
    !attisdropped
}

/// What the decoder knows of one column of a row.
pub struct ColumnProbe {
    /// The column's datum as the row was taken apart.
    pub datum: usize,
    /// The column's number (positive for user columns).
    pub attnum: i16,
    /// Whether the column has been dropped.
    pub attisdropped: bool,
    /// The first bytes the datum points at, where the check applies and
    /// the column's type is variable-length; else `None`.
    pub header: Option<VarattHeader>,
    /// The column's name.
    pub name: Vec<u8>,
}

/// The column is left out of the row: it gets the check and its value is
/// a stale TOAST pointer.
pub open spec fn is_skipped(c: ColumnProbe) -> bool {
    spec_toast_check_applies(c.datum, c.attnum, c.attisdropped) && spec_is_stale_toast(c.header)
}

/// The positions of the left-out columns, in column order.
pub open spec fn skipped_positions(cols: Seq<ColumnProbe>) -> Seq<usize>
    decreases cols.len(),
{
    if cols.len() == 0 {
        Seq::empty()
    } else {
        let before = skipped_positions(cols.drop_last());
        if is_skipped(cols.last()) {
            before.push((cols.len() - 1) as usize)
        } else {
            before
        }
    }
}

proof fn lemma_skipped_positions_bound(cols: Seq<ColumnProbe>)
    ensures
        forall|k: int|
            0 <= k < skipped_positions(cols).len() ==> #[trigger] skipped_positions(cols)[k]
                < cols.len(),
    decreases cols.len(),
{
    if cols.len() > 0 {
        let before = skipped_positions(cols.drop_last());
        lemma_skipped_positions_bound(cols.drop_last());
        assert forall|k: int| 0 <= k < skipped_positions(cols).len() implies #[trigger] skipped_positions(cols)[k] < cols.len() by {
            if k < before.len() {
                assert(skipped_positions(cols)[k] == before[k]);
            }
        }
    }
}

/// Finds the columns of a row whose value is a stale TOAST pointer,
/// returns their positions in column order, and marks each of them null
/// in `nulls` so that the row can be formed again without them.
pub fn plan_skipped(columns: &Vec<ColumnProbe>, nulls: &mut Vec<bool>) -> (skip: Vec<usize>)
    requires
        old(nulls)@.len() == columns@.len(),
    ensures
        skip@ == skipped_positions(columns@),
        forall|k: int| 0 <= k < skip@.len() ==> #[trigger] skip@[k] < columns@.len(),
        final(nulls)@.len() == old(nulls)@.len(),
        forall|i: int|
            0 <= i < columns@.len() ==> #[trigger] final(nulls)@[i] == (old(nulls)@[i]
                || is_skipped(columns@[i])),
{
    let mut skip: Vec<usize> = Vec::new();
    let n = columns.len();
    let mut i: usize = 0;
    while i < n
        invariant
            n == columns@.len(),
            0 <= i <= n,
            nulls@.len() == n,
            skip@ == skipped_positions(columns@.take(i as int)),
            forall|j: int| 0 <= j < i ==> #[trigger] nulls@[j] == (old(nulls)@[j] || is_skipped(
                columns@[j],
            )),
            forall|j: int| i <= j < n ==> #[trigger] nulls@[j] == old(nulls)@[j],
        decreases n - i,
    {
        let c = &columns[i];
        assert(columns@.take(i + 1).drop_last() =~= columns@.take(i as int));
        assert(columns@.take(i + 1).last() == columns@[i as int]);
        if toast_check_applies(c.datum, c.attnum, c.attisdropped) && is_stale_toast(&c.header) {
            skip.push(i);
            nulls.set(i, true);
        }
        i = i + 1;
    }
    assert(columns@.take(n as int) =~= columns@);
    proof {
        lemma_skipped_positions_bound(columns@);
    }
    skip
}

/// The names of the left-out columns, in the order of `skip`.
pub open spec fn skipped_names(cols: Seq<ColumnProbe>, skip: Seq<usize>) -> Seq<Seq<u8>> {
    Seq::new(skip.len(), |k: int| cols[skip[k] as int].name@)
}

/// A row as written: the text the server made of it (`row_to_json`) and
/// the names of the columns left out of it.
pub struct TupleJson {
    pub row: Vec<u8>,
    pub skipped: Vec<Vec<u8>>,
}

impl TupleJson {
    /// The row text and the left-out names as byte sequences.
    pub open spec fn parts(&self) -> (Seq<u8>, Seq<Seq<u8>>) {
        (self.row@, self.skipped@.map_values(|v: Vec<u8>| v@))
    }

    /// Pairs the row text with the names of the columns at the positions
    /// in `skip`.
    pub fn new(row: Vec<u8>, columns: &Vec<ColumnProbe>, skip: &Vec<usize>) -> (t: TupleJson)
        requires
            forall|k: int| 0 <= k < skip@.len() ==> #[trigger] skip@[k] < columns@.len(),
        ensures
            t.parts() == (row@, skipped_names(columns@, skip@)),
    {
        let mut skipped: Vec<Vec<u8>> = Vec::new();
        let mut k: usize = 0;
        while k < skip.len()
            invariant
                0 <= k <= skip@.len(),
                skipped@.len() == k,
                forall|j: int| 0 <= j < skip@.len() ==> #[trigger] skip@[j] < columns@.len(),
                skipped@.map_values(|v: Vec<u8>| v@) =~= skipped_names(columns@, skip@.take(
                    k as int,
                )),
            decreases skip.len() - k,
        {
            let name = columns[skip[k]].name.clone();
            assert(name@ =~= columns@[skip@[k as int] as int].name@);
            let ghost prev_vec = skipped@;
            let ghost prev = skipped@.map_values(|v: Vec<u8>| v@);
            let ghost name_view = name@;
            skipped.push(name);
            proof {
                let now = skipped@.map_values(|v: Vec<u8>| v@);
                let want = skipped_names(columns@, skip@.take(k + 1));
                assert(skipped@ == prev_vec.push(skipped@[k as int]));
                assert(prev.len() == k);
                assert(now.len() == k + 1);
                assert(want.len() == k + 1);
                assert forall|j: int| 0 <= j < k + 1 implies now[j] == want[j] by {
                    assert(now[j] == skipped@[j]@);
                    if j < k {
                        assert(skipped@[j] == prev_vec[j]);
                        assert(prev[j] == prev_vec[j]@);
                        assert(prev[j] == skipped_names(columns@, skip@.take(k as int))[j]);
                    } else {
                        assert(skipped@[j]@ == name_view);
                    }
                }
                assert(now =~= want);
            }
            k = k + 1;
            assert(skipped@.map_values(|v: Vec<u8>| v@) =~= skipped_names(
                columns@,
                skip@.take(k as int),
            ));
        }
        assert(skip@.take(skip@.len() as int) =~= skip@);
        TupleJson { row, skipped }
    }
}

/// The JSON strings of `items`, separated by a comma and a space.
pub open spec fn json_list(items: Seq<Seq<u8>>) -> Seq<u8>
    decreases items.len(),
{
    if items.len() == 0 {
        Seq::empty()
    } else if items.len() == 1 {
        json_string(items[0])
    } else {
        json_list(items.drop_last()) + lit(", ") + json_string(items.last())
    }
}

/// What a row is written as: `{}` where there is none; else the row's
/// own text, followed, where columns were left out, by
/// `, "skipped": [` the JSON strings of their names `]`.
pub open spec fn tuple_json(t: Option<(Seq<u8>, Seq<Seq<u8>>)>) -> Seq<u8> {
    match t {
        None => lit("{}"),
        Some((row, skipped)) => if skipped.len() > 0 {
            row + lit(", ") + json_string(lit("skipped")) + lit(": [") + json_list(skipped)
                + lit("]")
        } else {
            row
        },
    }
}

/// The parts of an optional row.
pub open spec fn tuple_parts(t: Option<TupleJson>) -> Option<(Seq<u8>, Seq<Seq<u8>>)> {
    match t {
        Some(t) => Some(t.parts()),
        None => None,
    }
}

/// Every left-out name is the contents of a C string.
pub open spec fn names_ok(t: Option<TupleJson>) -> bool {
    match t {
        Some(t) => forall|k: int| 0 <= k < t.skipped@.len() ==> no_nul(#[trigger] t.skipped@[k]@),
        None => true,
    }
}

/// Appends a row of a change to `out`, as `tuple_json` says.
pub fn append_tuple_buf_as_json(out: &mut Vec<u8>, tuple: &Option<TupleJson>)
    requires
        names_ok(*tuple),
    ensures
        final(out)@ == old(out)@ + tuple_json(tuple_parts(*tuple)),
{
    match tuple {
        None => {
            append_str(out, "{}");
        },
        Some(t) => {
            let ghost before = out@;
            let ghost names = t.skipped@.map_values(|v: Vec<u8>| v@);
            append_bytes(out, t.row.as_slice());
            if t.skipped.len() > 0 {
                proof {
                    reveal_strlit("skipped");
                    lemma_lit_ascii("skipped");
                }
                append_str(out, ", ");
                append_json(out, "skipped".as_bytes());
                append_str(out, ": [");
                let ghost head = out@;
                let mut i: usize = 0;
                while i < t.skipped.len()
                    invariant
                        0 <= i <= t.skipped@.len(),
                        names == t.skipped@.map_values(|v: Vec<u8>| v@),
                        forall|k: int|
                            0 <= k < t.skipped@.len() ==> no_nul(#[trigger] t.skipped@[k]@),
                        out@ == head + json_list(names.take(i as int)),
                    decreases t.skipped.len() - i,
                {
                    let ghost prev = out@;
                    if i > 0 {
                        append_str(out, ", ");
                    }
                    append_json(out, t.skipped[i].as_slice());
                    proof {
                        let next = names.take(i + 1);
                        assert(next.drop_last() =~= names.take(i as int));
                        assert(next.last() == t.skipped@[i as int]@);
                        if i == 0 {
                            assert(json_list(names.take(0)) =~= Seq::<u8>::empty());
                            assert(out@ =~= head + json_list(next));
                        } else {
                            assert(out@ =~= head + json_list(next));
                        }
                    }
                    i = i + 1;
                }
                assert(names.take(t.skipped@.len() as int) =~= names);
                append_str(out, "]");
                assert(out@ =~= before + tuple_json(tuple_parts(*tuple)));
            } else {
                assert(out@ =~= before + tuple_json(tuple_parts(*tuple)));
            }
        },
    }
}

/// Reads a list of JSON string literals separated by a comma and a
/// space: the bytes each stands for, in order; `None` where the text is
/// not such a list of at least one string.
pub open spec fn read_names(t: Seq<u8>) -> Option<Seq<Seq<u8>>>
    decreases t.len(),
{
    match read_string(t) {
        Some((s, n)) => if n == t.len() {
            Some(seq![s])
        } else if 2 <= n && n + 2 <= t.len() && t[n as int] == 44 && t[n + 1int] == 32 {
            match read_names(t.skip(n + 2int)) {
                Some(r) => Some(seq![s] + r),
                None => None,
            }
        } else {
            None
        },
        None => None,
    }
}

proof fn lemma_comma_space()
    ensures
        lit(", ") == seq![44u8, 32u8],
{
    reveal_strlit(", ");
    lemma_lit_ascii(", ");
    assert(lit(", ") =~= seq![44u8, 32u8]);
}

/// The list read from the front: the first string, then the rest.
proof fn lemma_json_list_front(items: Seq<Seq<u8>>)
    requires
        items.len() >= 2,
    ensures
        json_list(items) == json_string(items[0]) + lit(", ") + json_list(items.drop_first()),
    decreases items.len(),
{
    if items.len() == 2 {
        assert(items.drop_last().len() == 1);
        assert(items.drop_first().len() == 1);
        assert(items.drop_last()[0] == items[0]);
        assert(items.drop_first()[0] == items[1]);
        assert(json_list(items.drop_first()) == json_string(items[1]));
        assert(json_list(items.drop_last()) == json_string(items[0]));
        assert(items.last() == items[1]);
    } else {
        let dl = items.drop_last();
        let df = items.drop_first();
        lemma_json_list_front(dl);
        assert(dl.drop_first() =~= df.drop_last());
        assert(df.last() == items.last());
        assert(dl[0] == items[0]);
        assert(json_list(items) == json_list(dl) + lit(", ") + json_string(items.last()));
        assert(json_list(df) == json_list(df.drop_last()) + lit(", ") + json_string(df.last()));
        assert(json_list(items) =~= json_string(items[0]) + lit(", ") + (json_list(dl.drop_first())
            + lit(", ") + json_string(items.last())));
    }
}

/// The list of names written for left-out columns reads back as exactly
/// those names, in order.
pub proof fn lemma_read_json_list(items: Seq<Seq<u8>>)
    requires
        items.len() > 0,
    ensures
        read_names(json_list(items)) == Some(items),
    decreases items.len(),
{
    if items.len() == 1 {
        lemma_read_json_string(items[0], Seq::empty());
        assert(json_string(items[0]) + Seq::<u8>::empty() =~= json_string(items[0]));
        assert(seq![items[0]] =~= items);
    } else {
        lemma_json_list_front(items);
        lemma_comma_space();
        let first = json_string(items[0]);
        let rest = json_list(items.drop_first());
        let t = first + lit(", ") + rest;
        lemma_read_json_string(items[0], lit(", ") + rest);
        assert(t =~= first + (lit(", ") + rest));
        let n = first.len() as int;
        assert(t[n] == 44u8);
        assert(t[n + 1] == 32u8);
        assert(t.skip(n + 2) =~= rest);
        lemma_read_json_list(items.drop_first());
        assert(seq![items[0]] + items.drop_first() =~= items);
    }
}

/// The key that opens the list of left-out columns.
proof fn lemma_skipped_key()
    ensures
        lit(", ") + json_string(lit("skipped")) + lit(": [") == lit(", \"skipped\": ["),
{
    reveal_strlit(", ");
    reveal_strlit("skipped");
    reveal_strlit(": [");
    reveal_strlit(", \"skipped\": [");
    lemma_lit_ascii(", ");
    lemma_lit_ascii(": [");
    lemma_lit_ascii(", \"skipped\": [");
    lemma_json_key("skipped");
    lemma_lit_ascii("skipped");
    assert(lit(", ") + json_string(lit("skipped")) + lit(": [") =~= lit(", \"skipped\": ["));
}

/// A row with left-out columns is written as its own text, then
/// `, "skipped": [`, then a list that reads back as exactly the left-out
/// names in order, then `]`; a row without any is written as its text
/// alone; a missing row as `{}`.
pub proof fn lemma_tuple_json_lists_skipped(row: Seq<u8>, skipped: Seq<Seq<u8>>)
    ensures
        ({
            let out = tuple_json(Some((row, skipped)));
            let head = row + lit(", \"skipped\": [");
            skipped.len() > 0 ==> {
                &&& out.len() > head.len()
                &&& out.take(head.len() as int) == head
                &&& out.last() == 93u8
                &&& read_names(out.subrange(head.len() as int, out.len() - 1)) == Some(skipped)
            }
        }),
        skipped.len() == 0 ==> tuple_json(Some((row, skipped))) == row,
        tuple_json(None) == lit("{}"),
{
    if skipped.len() > 0 {
        reveal_strlit("]");
        lemma_lit_ascii("]");
        lemma_skipped_key();
        lemma_read_json_list(skipped);
        let out = tuple_json(Some((row, skipped)));
        let head = row + lit(", \"skipped\": [");
        let list = json_list(skipped);
        assert(out =~= head + list + lit("]"));
        assert(out.take(head.len() as int) =~= head);
        assert(out.subrange(head.len() as int, out.len() - 1) =~= list);
    }
}

/// The columns left out of a row are exactly those whose value is
/// non-null, that are live user columns, and whose datum points at a
/// one-byte header `0x01` with tag `VARTAG_ONDISK` (18); their positions
/// come in increasing order.
pub proof fn lemma_skipped_positions_exact(cols: Seq<ColumnProbe>)
    requires
        cols.len() <= usize::MAX,
    ensures
        forall|k: int|
            #![trigger skipped_positions(cols)[k]]
            0 <= k < skipped_positions(cols).len() ==> {
                let c = cols[skipped_positions(cols)[k] as int];
                &&& skipped_positions(cols)[k] < cols.len()
                &&& c.datum != 0 && c.attnum > 0 && !c.attisdropped
                &&& c.header matches Some(h) && h.va_header == 1 && h.va_tag == 18
            },
        forall|k1: int, k2: int|
            0 <= k1 < k2 < skipped_positions(cols).len() ==> skipped_positions(cols)[k1]
                < skipped_positions(cols)[k2],
        forall|i: int|
            #![trigger cols[i]]
            0 <= i < cols.len() && cols[i].datum != 0 && cols[i].attnum > 0
                && !cols[i].attisdropped && (cols[i].header matches Some(h) && h.va_header == 1
                && h.va_tag == 18) ==> skipped_positions(cols).contains(i as usize),
    decreases cols.len(),
{
    if cols.len() > 0 {
        let dl = cols.drop_last();
        let before = skipped_positions(dl);
        let p = skipped_positions(cols);
        lemma_skipped_positions_exact(dl);
        lemma_skipped_positions_bound(dl);
        assert forall|k: int| 0 <= k < before.len() implies before[k] < dl.len() by {
            assert(before[k] < dl.len());
        }
        assert forall|k: int|
            #![trigger p[k]]
            0 <= k < p.len() implies {
                let c = cols[p[k] as int];
                &&& p[k] < cols.len()
                &&& c.datum != 0 && c.attnum > 0 && !c.attisdropped
                &&& c.header matches Some(h) && h.va_header == 1 && h.va_tag == 18
            } by {
            if k < before.len() {
                assert(p[k] == before[k]);
                assert(cols[before[k] as int] == dl[before[k] as int]);
            } else {
                assert(is_skipped(cols.last()));
                assert(p[k] == (cols.len() - 1) as usize);
                assert(cols[p[k] as int] == cols.last());
            }
        }
        assert forall|k1: int, k2: int| 0 <= k1 < k2 < p.len() implies p[k1] < p[k2] by {
            assert(p[k1] == before[k1]);
            if k2 < before.len() {
                assert(p[k2] == before[k2]);
            } else {
                assert(p[k2] == (cols.len() - 1) as usize);
            }
        }
        assert forall|i: int|
            #![trigger cols[i]]
            0 <= i < cols.len() && cols[i].datum != 0 && cols[i].attnum > 0
                && !cols[i].attisdropped && (cols[i].header matches Some(h) && h.va_header == 1
                && h.va_tag == 18) implies p.contains(i as usize) by {
            if i < dl.len() {
                assert(dl[i] == cols[i]);
                let k = choose|k: int| 0 <= k < before.len() && before[k] == i as usize;
                assert(p[k] == before[k]);
            } else {
                assert(p[p.len() - 1] == i as usize);
            }
        }
    }
}

} // verus!
