//! CSV encoding and decoding of the table, delegated to the `csv` crate
//! behind trusted declarations: the first row of a file is the header, every
//! later row is a data row, and all cells are strings.

use vstd::prelude::*;

verus! {

/// Error cases of decoding and encoding a table.
#[derive(Clone, Copy, Debug, PartialEq, Eq, Structural)]
pub enum CsvError {
    /// The input is not a well-formed CSV table (for the default,
    /// non-flexible parse: bad UTF-8, or a record of a different width than
    /// the first).
    Parse,
    /// The table could not be encoded (the default writer refuses a row of a
    /// different width than the header's).
    Write,
}

/// The error type of the `csv` crate, declared so that the wrappers below
/// can return it; it is opaque here.
#[verifier::external_type_specification]
#[verifier::external_body]
pub struct ExCsvError(csv::Error);

/// What the `csv` crate's default parse of `input` yields when the first row
/// is taken as the header: the header and the data rows for a well-formed
/// input, and nothing otherwise. A function of the bytes alone.
pub uninterp spec fn csv_parse_of(input: Seq<u8>) -> Option<(Seq<Seq<char>>, Seq<Seq<Seq<char>>>)>;

/// What the `csv` crate's default writer produces for this header and these
/// rows. A function of the cells alone.
pub uninterp spec fn csv_encoding_of(header: Seq<Seq<char>>, rows: Seq<Seq<Seq<char>>>) -> Seq<u8>;

/// Relies on `csv::Reader` over an in-memory buffer with the default
/// configuration (first row is the header; records must be of equal width):
/// reading a slice never io-fails, so the outcome is a function of the bytes
/// alone — it succeeds exactly on the well-formed inputs and yields the
/// header and the data rows.
#[verifier::external_body]
fn parse_csv(input: &[u8]) -> (r: Result<(Vec<String>, Vec<Vec<String>>), csv::Error>)
    ensures
        r matches Ok(t) ==> Some((t.0.deep_view(), t.1.deep_view())) == csv_parse_of(input@),
        r is Err ==> csv_parse_of(input@) is None,
{
    let mut rdr = csv::Reader::from_reader(input);
    let header = rdr.headers()?.iter().map(|s| s.to_string()).collect();
    let mut records = Vec::new();
    for result in rdr.records() {
        let record = result?;
        records.push(record.iter().map(|s| s.to_string()).collect());
    }
    Ok((header, records))
}

/// Relies on `csv::Writer` over an in-memory buffer with the default
/// configuration: writing to a vector never io-fails, and the writer's one
/// remaining check compares each record's field count against the first
/// record's — here the header's — so the call succeeds exactly when every
/// row has the header's width, and the encoding is a function of the cells
/// alone.
#[verifier::external_body]
fn write_csv(header: &Vec<String>, rows: &Vec<Vec<String>>) -> (r: Result<Vec<u8>, csv::Error>)
    ensures
        r matches Ok(bytes) ==> bytes@ == csv_encoding_of(header.deep_view(), rows.deep_view()),
        (r is Ok) <==> (forall|i: int|
            0 <= i < rows@.len() ==> (#[trigger] rows.deep_view()[i]).len() == header@.len()),
{
    let mut wtr = csv::Writer::from_writer(Vec::new());
    wtr.write_record(header)?;
    for row in rows {
        wtr.write_record(row)?;
    }
    match wtr.into_inner() {
        Ok(bytes) => Ok(bytes),
        Err(e) => Err(csv::Error::from(e.into_error())),
    }
}

/// Decodes a CSV file's bytes into the header row and the data rows; every
/// cell is kept as a string. Succeeds exactly on the inputs the csv parse
/// accepts, and reports any other as a parse error. The default,
/// non-flexible reader is kept on purpose: a file with a record of a
/// different width than the header is rejected as malformed rather than
/// loaded ragged.
pub fn read_csv_with_header(input: &[u8]) -> (r: Result<
    (Vec<String>, Vec<Vec<String>>),
    CsvError,
>)
    ensures
        r matches Ok(t) ==> Some((t.0.deep_view(), t.1.deep_view())) == csv_parse_of(input@),
        r matches Err(e) ==> e == CsvError::Parse && csv_parse_of(input@) is None,
        (r is Ok) == (csv_parse_of(input@) is Some),
{
    match parse_csv(input) {
        Ok(t) => Ok(t),
        Err(_) => Err(CsvError::Parse),
    }
}

/// Encodes the table verbatim: the header row, then every data row in table
/// order. Succeeds exactly when every data row has the header's width; a
/// row of any other width is the one thing the writer refuses, reported as
/// a write error.
pub fn save_csv(header: &Vec<String>, data: &Vec<Vec<String>>) -> (r: Result<Vec<u8>, CsvError>)
    ensures
        r matches Ok(bytes) ==> bytes@ == csv_encoding_of(header.deep_view(), data.deep_view()),
        r matches Err(e) ==> e == CsvError::Write,
        (r is Ok) <==> (forall|i: int|
            0 <= i < data@.len() ==> (#[trigger] data.deep_view()[i]).len() == header@.len()),
{
    match write_csv(header, data) {
        Ok(b) => Ok(b),
        Err(_) => Err(CsvError::Write),
    }
}

} // verus!
