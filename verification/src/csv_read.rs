//! Reading a CSV text into its header and records with the `csv` crate.
use vstd::prelude::*;

use crate::text::texts;

verus! {

/// A CSV text split into its header row and its data records. Each part is
/// either the fields read or the message of the error the reader reported.
pub struct CsvTable {
    pub header: Result<Vec<String>, String>,
    pub records: Vec<Result<Vec<String>, String>>,
}

/// The mathematical value of a [`CsvTable`].
pub struct CsvTableView {
    pub header: Result<Seq<Seq<char>>, Seq<char>>,
    pub records: Seq<Result<Seq<Seq<char>>, Seq<char>>>,
}

/// The mathematical value of one read row.
pub open spec fn row_view(r: Result<Vec<String>, String>) -> Result<Seq<Seq<char>>, Seq<char>> {
    match r {
        Ok(fields) => Ok(texts(fields@)),
        Err(e) => Err(e@),
    }
}

impl View for CsvTable {
    type V = CsvTableView;

    open spec fn view(&self) -> CsvTableView {
        CsvTableView {
            header: row_view(self.header),
            records: self.records@.map_values(|r: Result<Vec<String>, String>| row_view(r)),
        }
    }
}

/// What a `csv::Reader` over `bytes` (headers on, the given delimiter and
/// flexibility) yields: its header row, then every remaining record.
pub uninterp spec fn csv_table_of(bytes: Seq<u8>, delimiter: u8, flexible: bool) -> CsvTableView;

/// Reads `bytes` with `csv::ReaderBuilder` (headers on, `delimiter`,
/// `flexible`), then `headers()` and every item of `records()`, each field
/// converted to a `String` and each error to its `Display` text. The contract
/// names the outcome `csv_table_of(bytes@, delimiter, flexible)`; it states
/// nothing of the CSV grammar itself.
#[verifier::external_body]
pub(crate) fn read_csv_table(bytes: &[u8], delimiter: u8, flexible: bool) -> (t: CsvTable)
    ensures
        t@ == csv_table_of(bytes@, delimiter, flexible),
{
    let mut rdr = csv::ReaderBuilder::new().has_headers(true).delimiter(delimiter)
        .flexible(flexible).from_reader(bytes);
    let header = rdr.headers().map(|h| h.iter().map(String::from).collect())
        .map_err(|e| e.to_string());
    let records = rdr.records().map(|r| r.map(|rec| rec.iter().map(String::from).collect())
        .map_err(|e| e.to_string())).collect();
    CsvTable { header, records }
}

} // verus!
