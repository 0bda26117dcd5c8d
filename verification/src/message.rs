//! Messages that sessions write into the log (`pg_logical_emit_message`):
//! the record written for each one.

use vstd::prelude::*;
use vstd::utf8::valid_utf8;
use crate::text::{no_nul, lit, lemma_lit_ascii, append_str};
use crate::json::{json_string, append_json, lemma_json_key};

verus! {

/// What `String::from_utf8_lossy` makes of `bytes`, as UTF-8 bytes.
pub uninterp spec fn utf8_lossy(bytes: Seq<u8>) -> Seq<u8>;

/// Calls `String::from_utf8_lossy` (std) and hands back the bytes of the
/// string it makes. Claimed of it, as its documentation says: the result
/// is valid UTF-8; valid UTF-8 input comes back unchanged; otherwise
/// each invalid sequence is replaced by U+FFFD (bytes EF BF BD) and every
/// valid one kept (a zero byte among them), so the output holds a zero
/// byte exactly where the input does.
/// Which sequences count as invalid, and so the exact output on invalid
/// input, is left to the name `utf8_lossy`.
#[verifier::external_body]
fn decode_lossy(bytes: &[u8]) -> (res: Vec<u8>)
    ensures
        res@ == utf8_lossy(bytes@),
        valid_utf8(res@),
        valid_utf8(bytes@) ==> res@ == bytes@,
        no_nul(bytes@) <==> no_nul(res@),
{
    String::from_utf8_lossy(bytes).into_owned().into_bytes()
}

/// The record of a message: `{ "prefix": ` its prefix `, "message": `
/// its text `, "transactional": ` `true` or `false` ` }`.
pub open spec fn message_json(transactional: bool, prefix: Seq<u8>, text: Seq<u8>) -> Seq<u8> {
    lit("{ ") + json_string(lit("prefix")) + lit(": ") + json_string(prefix) + lit(", ")
        + json_string(lit("message")) + lit(": ") + json_string(text) + lit(", ") + json_string(
        lit("transactional"),
    ) + lit(": ") + (if transactional {
        lit("true")
    } else {
        lit("false")
    }) + lit(" }")
}

/// Appends the record of a message whose payload has already been
/// decoded as text (`text`) to `out`.
pub fn append_message_text(out: &mut Vec<u8>, transactional: bool, prefix: &[u8], text: &[u8])
    requires
        no_nul(prefix@),
        no_nul(text@),
    ensures
        final(out)@ == old(out)@ + message_json(transactional, prefix@, text@),
{
    proof {
        reveal_strlit("prefix");
        lemma_lit_ascii("prefix");
        reveal_strlit("message");
        lemma_lit_ascii("message");
        reveal_strlit("transactional");
        lemma_lit_ascii("transactional");
    }
    let ghost before = out@;
    append_str(out, "{ ");
    append_json(out, "prefix".as_bytes());
    append_str(out, ": ");
    append_json(out, prefix);
    append_str(out, ", ");
    let ghost a = out@;
    append_json(out, "message".as_bytes());
    append_str(out, ": ");
    append_json(out, text);
    append_str(out, ", ");
    let ghost b = out@;
    append_json(out, "transactional".as_bytes());
    append_str(out, ": ");
    if transactional {
        append_str(out, "true");
    } else {
        append_str(out, "false");
    }
    append_str(out, " }");
    assert(out@ =~= before + message_json(transactional, prefix@, text@));
}

/// Appends the record of a message to `out`: its payload `message` is
/// decoded as UTF-8, invalid sequences replaced. The payload is handed on
/// as a C string, so it cannot hold a zero byte; valid UTF-8 is written
/// as it is.
pub fn append_message(out: &mut Vec<u8>, transactional: bool, prefix: &[u8], message: &[u8])
    requires
        no_nul(prefix@),
        no_nul(message@),
    ensures
        final(out)@ == old(out)@ + message_json(transactional, prefix@, utf8_lossy(message@)),
        valid_utf8(message@) ==> final(out)@ == old(out)@ + message_json(
            transactional,
            prefix@,
            message@,
        ),
{
    let text = decode_lossy(message);
    append_message_text(out, transactional, prefix, text.as_slice());
}

/// The record of a message names its prefix, then its text, then
/// whether it is transactional, as `true` exactly when it is.
pub proof fn lemma_message_record(transactional: bool, prefix: Seq<u8>, text: Seq<u8>)
    ensures
        message_json(transactional, prefix, text) == lit("{ \"prefix\": ") + json_string(prefix)
            + lit(", \"message\": ") + json_string(text) + lit(", \"transactional\": ") + (
        if transactional {
            lit("true")
        } else {
            lit("false")
        }) + lit(" }"),
{
    reveal_strlit("{ ");
    reveal_strlit("prefix");
    reveal_strlit(": ");
    reveal_strlit(", ");
    reveal_strlit("message");
    reveal_strlit("transactional");
    reveal_strlit("{ \"prefix\": ");
    reveal_strlit(", \"message\": ");
    reveal_strlit(", \"transactional\": ");
    lemma_lit_ascii("{ ");
    lemma_lit_ascii("prefix");
    lemma_lit_ascii(": ");
    lemma_lit_ascii(", ");
    lemma_lit_ascii("message");
    lemma_lit_ascii("transactional");
    lemma_lit_ascii("{ \"prefix\": ");
    lemma_lit_ascii(", \"message\": ");
    lemma_lit_ascii(", \"transactional\": ");
    lemma_json_key("prefix");
    lemma_json_key("message");
    lemma_json_key("transactional");
    assert(lit("{ ") + json_string(lit("prefix")) + lit(": ") =~= lit("{ \"prefix\": "));
    assert(lit(", ") + json_string(lit("message")) + lit(": ") =~= lit(", \"message\": "));
    assert(lit(", ") + json_string(lit("transactional")) + lit(": ") =~= lit(
        ", \"transactional\": ",
    ));
    let flag = if transactional {
        lit("true")
    } else {
        lit("false")
    };
    assert(message_json(transactional, prefix, text) =~= (lit("{ ") + json_string(lit("prefix"))
        + lit(": ")) + json_string(prefix) + (lit(", ") + json_string(lit("message")) + lit(": "))
        + json_string(text) + (lit(", ") + json_string(lit("transactional")) + lit(": ")) + flag
        + lit(" }"));
}

} // verus!
