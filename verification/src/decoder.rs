//! The decoder's state between callbacks, and the transaction records.
//!
//! The server calls the decoder at the start of each transaction, for each
//! changed row, at each commit and for each logged message. Between calls
//! the decoder keeps one value: the table of the last change it wrote.
//! A change on another table is preceded by that table's schema record,
//! and a commit forgets the table, so every transaction names the schema
//! of each table before the first of its changes there.

use vstd::prelude::*;
use crate::text::{no_nul, lit, decimal, append_str, append_bytes, append_decimal, is_digit, digits_value, lemma_decimal_reads_back};

verus! {

/// The state the decoder keeps between callbacks.
pub struct Decoder {
    /// The id of the table of the last change written since startup or
    /// the last commit; 0 (no table has id 0) where there is none.
    pub last_relid: u32,
}

impl Decoder {
    /// The state at startup, as a value.
    pub open spec fn new_spec() -> Decoder {
        Decoder { last_relid: 0 }
    }

    /// The state at startup: no table yet.
    pub fn new() -> (d: Decoder)
        ensures
            d == Decoder::new_spec(),
    {
        Decoder { last_relid: 0 }
    }

    /// A change on table `relid` needs that table's schema record first.
    pub open spec fn needs_schema(self, relid: u32) -> bool {
        self.last_relid != relid
    }

    /// The state after a change on table `relid`.
    pub open spec fn after_change(self, relid: u32) -> Decoder {
        Decoder { last_relid: relid }
    }

    /// The state after a commit.
    pub open spec fn after_commit(self) -> Decoder {
        Decoder { last_relid: 0 }
    }

    /// Takes note of a change on table `relid`; returns whether the
    /// table's schema record must be written before the change's record.
    pub fn change(&mut self, relid: u32) -> (schema_first: bool)
        ensures
            schema_first == old(self).needs_schema(relid),
            *final(self) == old(self).after_change(relid),
    {
        if self.last_relid != relid {
            self.last_relid = relid;
            true
        } else {
            false
        }
    }

    /// Takes note of a commit: the next change needs its schema again.
    pub fn commit(&mut self)
        ensures
            *final(self) == old(self).after_commit(),
    {
        self.last_relid = 0;
    }
}

/// For changes on the tables `relids` in turn, from state `d`: whether
/// each needs its table's schema record first.
pub open spec fn schema_flags(d: Decoder, relids: Seq<u32>) -> Seq<bool>
    decreases relids.len(),
{
    if relids.len() == 0 {
        Seq::empty()
    } else {
        seq![d.needs_schema(relids[0])] + schema_flags(d.after_change(relids[0]), relids.drop_first())
    }
}

/// The state after changes on the tables `relids` in turn.
pub open spec fn after_changes(d: Decoder, relids: Seq<u32>) -> Decoder
    decreases relids.len(),
{
    if relids.len() == 0 {
        d
    } else {
        after_changes(d.after_change(relids[0]), relids.drop_first())
    }
}

/// In a run of changes, a schema record comes before the first change
/// and before each change whose table differs from the table of the
/// change before it, and before no other; afterwards the state holds the
/// last change's table.
pub proof fn lemma_schema_before_each_new_table(d: Decoder, relids: Seq<u32>)
    ensures
        schema_flags(d, relids).len() == relids.len(),
        forall|k: int|
            0 <= k < relids.len() ==> #[trigger] schema_flags(d, relids)[k] == (if k == 0 {
                relids[0] != d.last_relid
            } else {
                relids[k] != relids[k - 1]
            }),
        relids.len() > 0 ==> after_changes(d, relids).last_relid == relids.last(),
        relids.len() == 0 ==> after_changes(d, relids) == d,
    decreases relids.len(),
{
    if relids.len() > 0 {
        let rest = relids.drop_first();
        let d1 = d.after_change(relids[0]);
        lemma_schema_before_each_new_table(d1, rest);
        let f = schema_flags(d, relids);
        let fr = schema_flags(d1, rest);
        assert forall|k: int| 0 <= k < relids.len() implies #[trigger] f[k] == (if k == 0 {
            relids[0] != d.last_relid
        } else {
            relids[k] != relids[k - 1]
        }) by {
            if k > 0 {
                assert(f[k] == fr[k - 1]);
                assert(rest[k - 1] == relids[k]);
                if k > 1 {
                    assert(rest[k - 2] == relids[k - 1]);
                }
            }
        }
        if rest.len() > 0 {
            assert(rest.last() == relids.last());
        }
    }
}

/// After a commit (and at startup) the first change of any table is
/// preceded by the table's schema record.
pub proof fn lemma_commit_forgets_table(d: Decoder, relid: u32)
    requires
        relid != 0,
    ensures
        d.after_commit().needs_schema(relid),
        Decoder::new_spec().needs_schema(relid),
{
}

/// The record that opens a transaction: `{ "begin": ` its id ` }`.
pub open spec fn begin_json(xid: u32) -> Seq<u8> {
    lit("{ \"begin\": ") + decimal(xid as nat) + lit(" }")
}

/// Appends the record that opens transaction `xid` to `out`.
pub fn append_begin(out: &mut Vec<u8>, xid: u32)
    ensures
        final(out)@ == old(out)@ + begin_json(xid),
{
    let ghost before = out@;
    append_str(out, "{ \"begin\": ");
    append_decimal(out, xid);
    append_str(out, " }");
    assert(out@ =~= before + begin_json(xid));
}

/// The record that closes a transaction: `{ "commit": ` its id
/// `, "t": "` the commit time as the server prints it `" }`.
pub open spec fn commit_json(xid: u32, time: Seq<u8>) -> Seq<u8> {
    lit("{ \"commit\": ") + decimal(xid as nat) + lit(", \"t\": \"") + time + lit("\" }")
}

/// Appends the record that closes transaction `xid`, committed at
/// `time` (the server's text for the commit timestamp), to `out`.
pub fn append_commit(out: &mut Vec<u8>, xid: u32, time: &[u8])
    requires
        no_nul(time@),
    ensures
        final(out)@ == old(out)@ + commit_json(xid, time@),
{
    let ghost before = out@;
    append_str(out, "{ \"commit\": ");
    append_decimal(out, xid);
    append_str(out, ", \"t\": \"");
    append_bytes(out, time);
    append_str(out, "\" }");
    assert(out@ =~= before + commit_json(xid, time@));
}

/// The records that open and close a transaction print its id as the
/// same string of decimal digits: unsigned, without a sign or a leading
/// zero (unless the id is 0), denoting the id.
pub proof fn lemma_records_print_xid(xid: u32, time: Seq<u8>)
    ensures
        exists|d: Seq<u8>|
            {
                &&& d.len() > 0
                &&& (forall|i: int| 0 <= i < d.len() ==> is_digit(#[trigger] d[i]))
                &&& digits_value(d) == xid
                &&& (d.len() > 1 ==> d[0] != 48u8)
                &&& begin_json(xid) == lit("{ \"begin\": ") + d + lit(" }")
                &&& commit_json(xid, time) == lit("{ \"commit\": ") + d + lit(", \"t\": \"") + time
                    + lit("\" }")
            },
{
    let d = decimal(xid as nat);
    lemma_decimal_reads_back(xid as nat);
    assert(begin_json(xid) == lit("{ \"begin\": ") + d + lit(" }"));
}

} // verus!
