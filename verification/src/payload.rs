//! The payload of a block: its batch of transactions as JSON text. Each
//! transaction is an array of sender, receiver, amount, fee and signature;
//! the amounts are written as text, with all their decimal places.

use vstd::prelude::*;

verus! {

/// A transaction as it is written: sender, receiver, amount, fee, signature.
pub type Record = (String, String, String, String, Option<Vec<u8>>);

/// What a `Record` holds.
pub type RecordView = (Seq<char>, Seq<char>, Seq<char>, Seq<char>, Option<Seq<u8>>);

/// What one record holds.
pub open spec fn record_view(record: Record) -> RecordView {
    (
        record.0@,
        record.1@,
        record.2@,
        record.3@,
        match record.4 {
            Some(bytes) => Some(bytes@),
            None => None,
        },
    )
}

/// What a sequence of records holds.
pub open spec fn record_views(records: Seq<Record>) -> Seq<RecordView> {
    Seq::new(records.len(), |i: int| record_view(records[i]))
}

/// The JSON text that `serde_json::to_string` writes for the records.
pub uninterp spec fn json_of_records(records: Seq<RecordView>) -> Seq<char>;

/// The records that `serde_json::from_str` reads from a text; `None` where it
/// reports an error.
pub uninterp spec fn records_of_json(text: Seq<char>) -> Option<Seq<RecordView>>;

/// The JSON string literal that `serde_json::to_string` writes for a text:
/// the text in double quotes, with escapes where JSON asks for them.
pub uninterp spec fn json_quoted(text: Seq<char>) -> Seq<char>;

/// `serde_json::to_string` on a text. It reports no error for a text; the
/// result would be empty if it did.
#[verifier::external_body]
pub(crate) fn quote(text: &str) -> (quoted: String)
    ensures
        quoted@ == json_quoted(text@),
{
    serde_json::to_string(text).unwrap_or_default()
}

/// `serde_json::to_string` on the records. It reports no error for values of
/// this type; the text would be empty if it did.
#[verifier::external_body]
pub(crate) fn write_records(records: &Vec<Record>) -> (text: String)
    ensures
        text@ == json_of_records(record_views(records@)),
{
    serde_json::to_string(records).unwrap_or_default()
}

/// `serde_json::from_str` for a sequence of records.
#[verifier::external_body]
pub(crate) fn read_records(text: &str) -> (records: Option<Vec<Record>>)
    ensures
        match records {
            Some(found) => records_of_json(text@) == Some(record_views(found@)),
            None => records_of_json(text@) is None,
        },
{
    serde_json::from_str::<Vec<Record>>(text).ok()
}

} // verus!
