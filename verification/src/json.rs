//! The JSON payload of a log line.

use crate::coordinate::{coordinate_text, push_coordinate};
use crate::decimal::{decimal_text, push_decimal};
use vstd::prelude::*;
use vstd::string::StringExecFns;

verus! {

/// The JSON string literal, quotes and escapes included, that stands for a
/// text.
pub uninterp spec fn json_string_text(s: Seq<char>) -> Seq<char>;

/// Calls `serde_json::to_string` on a string slice, which writes it as a JSON
/// string literal and cannot fail on such a value. The literal is named, not
/// computed here.
#[verifier::external_body]
pub(crate) fn json_string(s: &str) -> (text: String)
    ensures
        text@ == json_string_text(s@),
{
    serde_json::to_string(s).unwrap_or_default()
}

/// A member of the payload that holds an integer, or nothing where the value
/// is absent: `,"acc":20`.
pub open spec fn optional_member_text(key: Seq<char>, value: Option<i64>) -> Seq<char> {
    match value {
        Some(n) => key + decimal_text(n as int),
        None => Seq::empty(),
    }
}

/// The payload of a record, given the JSON string literal of its tracker id:
/// an object with the members `_type`, `tid`, `tst`, `lat` and `lon`, in
/// this order, then those of `acc`, `alt` and `vac` that are present.
pub open spec fn object_text(
    tid_literal: Seq<char>,
    seconds: int,
    lat_e7: int,
    lon_e7: int,
    acc: Option<i64>,
    alt: Option<i64>,
    vac: Option<i64>,
) -> Seq<char> {
    "{\"_type\":\"location\",\"tid\":"@ + tid_literal + ",\"tst\":"@ + decimal_text(seconds)
        + ",\"lat\":"@ + coordinate_text(lat_e7) + ",\"lon\":"@ + coordinate_text(lon_e7)
        + optional_member_text(",\"acc\":"@, acc) + optional_member_text(",\"alt\":"@, alt)
        + optional_member_text(",\"vac\":"@, vac) + "}"@
}

/// The payload of a record: the object with the tracker id as a JSON string.
pub open spec fn payload_text(
    tid: Seq<char>,
    seconds: int,
    lat_e7: int,
    lon_e7: int,
    acc: Option<i64>,
    alt: Option<i64>,
    vac: Option<i64>,
) -> Seq<char> {
    object_text(json_string_text(tid), seconds, lat_e7, lon_e7, acc, alt, vac)
}

/// Appends a member that holds an integer, or nothing where the value is
/// absent.
fn push_optional_member(out: &mut String, key: &str, value: Option<i64>)
    ensures
        final(out)@ == old(out)@ + optional_member_text(key@, value),
{
    match value {
        Some(n) => {
            out.append(key);
            push_decimal(out, n);
            assert(out@ =~= old(out)@ + optional_member_text(key@, value));
        },
        None => {
            assert(out@ =~= old(out)@ + optional_member_text(key@, value));
        },
    }
}

/// Appends the payload of a record, given the JSON string literal of its
/// tracker id.
pub fn push_object(
    out: &mut String,
    tid_literal: &str,
    seconds: i64,
    lat_e7: i64,
    lon_e7: i64,
    acc: Option<i64>,
    alt: Option<i64>,
    vac: Option<i64>,
)
    ensures
        final(out)@ == old(out)@ + object_text(
            tid_literal@,
            seconds as int,
            lat_e7 as int,
            lon_e7 as int,
            acc,
            alt,
            vac,
        ),
{
    out.append("{\"_type\":\"location\",\"tid\":");
    out.append(tid_literal);
    out.append(",\"tst\":");
    push_decimal(out, seconds);
    out.append(",\"lat\":");
    push_coordinate(out, lat_e7);
    out.append(",\"lon\":");
    push_coordinate(out, lon_e7);
    push_optional_member(out, ",\"acc\":", acc);
    push_optional_member(out, ",\"alt\":", alt);
    push_optional_member(out, ",\"vac\":", vac);
    out.append("}");
    assert(out@ =~= old(out)@ + object_text(
        tid_literal@,
        seconds as int,
        lat_e7 as int,
        lon_e7 as int,
        acc,
        alt,
        vac,
    ));
}

/// Appends the payload of a record.
pub fn push_payload(
    out: &mut String,
    tid: &str,
    seconds: i64,
    lat_e7: i64,
    lon_e7: i64,
    acc: Option<i64>,
    alt: Option<i64>,
    vac: Option<i64>,
)
    ensures
        final(out)@ == old(out)@ + payload_text(
            tid@,
            seconds as int,
            lat_e7 as int,
            lon_e7 as int,
            acc,
            alt,
            vac,
        ),
{
    let tid_literal = json_string(tid);
    push_object(out, tid_literal.as_str(), seconds, lat_e7, lon_e7, acc, alt, vac);
}

/// A value that is absent leaves nothing in the payload, neither a key nor
/// a `null`: without altitude and vertical accuracy the object ends after
/// the accuracy, and without that after the longitude.
pub proof fn lemma_absent_members_leave_no_text(
    tid_literal: Seq<char>,
    seconds: int,
    lat_e7: int,
    lon_e7: int,
    acc: Option<i64>,
)
    ensures
        object_text(tid_literal, seconds, lat_e7, lon_e7, acc, None, None) == object_text(
            tid_literal,
            seconds,
            lat_e7,
            lon_e7,
            None,
            None,
            None,
        ).drop_last() + optional_member_text(",\"acc\":"@, acc) + "}"@,
        object_text(tid_literal, seconds, lat_e7, lon_e7, None, None, None)
            == "{\"_type\":\"location\",\"tid\":"@ + tid_literal + ",\"tst\":"@ + decimal_text(
            seconds,
        ) + ",\"lat\":"@ + coordinate_text(lat_e7) + ",\"lon\":"@ + coordinate_text(lon_e7)
            + "}"@,
{
    reveal_strlit("}");
    let core = "{\"_type\":\"location\",\"tid\":"@ + tid_literal + ",\"tst\":"@ + decimal_text(
        seconds,
    ) + ",\"lat\":"@ + coordinate_text(lat_e7) + ",\"lon\":"@ + coordinate_text(lon_e7);
    let bare = object_text(tid_literal, seconds, lat_e7, lon_e7, None, None, None);
    assert(bare =~= core + "}"@);
    assert(bare.drop_last() =~= core);
    assert(object_text(tid_literal, seconds, lat_e7, lon_e7, acc, None, None) =~= core
        + optional_member_text(",\"acc\":"@, acc) + "}"@);
}

} // verus!
