//! The rows of a CSV document, as the `csv` crate reads them.

use vstd::prelude::*;

verus! {

/// The fields of one row, in the order of the columns.
pub type Row = Seq<Seq<char>>;

#[verifier::external_type_specification]
#[verifier::external_body]
pub struct ExCsvError(csv::Error);

/// The rows that the `csv` reader yields for a document, every row taken as
/// data and rows of any number of fields admitted; `None` where the reader
/// rejects the document.
pub uninterp spec fn csv_rows(bytes: Seq<u8>) -> Option<Seq<Row>>;

/// Trusted: reads `bytes` with a `csv::Reader` built by `csv::ReaderBuilder`
/// with `has_headers(false)` and `flexible(true)`, and collects what
/// `Reader::records` yields, up to the first error. Reading from memory, the
/// outcome depends on the bytes alone; the contract gives it the name
/// `csv_rows` and claims nothing else of it.
#[verifier::external_body]
pub(crate) fn read_rows(bytes: &[u8]) -> (outcome: Result<Vec<Vec<String>>, csv::Error>)
    ensures
        match outcome {
            Ok(rows) => csv_rows(bytes@) == Some(rows.deep_view()),
            Err(_) => csv_rows(bytes@).is_none(),
        },
{
    let mut reader = csv::ReaderBuilder::new().has_headers(false).flexible(true).from_reader(bytes);
    reader.records().map(|r| r.map(|rec| rec.iter().map(|f| f.to_string()).collect())).collect()
}

} // verus!
