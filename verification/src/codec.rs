//! Manifests as CSV: the table is read and written by the `csv` crate, the
//! rows are turned into records and back by [`crate::manifest`].

use crate::manifest::{
    chunk_record_of, chunk_records_of, chunk_rows, decode_chunk_rows, decode_file_rows,
    encode_chunk_rows, encode_file_rows, file_record_of, file_records_of, file_rows, ChunkRecord,
    ChunkRecordView, FileRecord, FileRecordView, ManifestError,
};
use vstd::prelude::*;
use vstd::utf8::*;

verus! {

/// The error type of the `csv` crate, carried through as an opaque value.
#[verifier::external_type_specification]
#[verifier::external_body]
pub struct ExCsvError(csv::Error);

/// The data rows that the `csv` reader, as it is set up by default, finds in
/// `bytes`: the first row is the header and is left out; `None` where the
/// reader reports an error for any row.
pub uninterp spec fn csv_data_rows(bytes: Seq<u8>) -> Option<Seq<Seq<Seq<u8>>>>;

/// The bytes that the `csv` writer, as it is set up by default, produces for
/// `rows` written one after the other; `None` where it reports an error.
pub uninterp spec fn csv_text(rows: Seq<Seq<Seq<u8>>>) -> Option<Seq<u8>>;

/// Splits CSV text into its data rows.
///
/// Trusted: runs `csv::Reader::from_reader` over the bytes and collects what
/// `byte_records` yields, field by field; the first error ends the reading.
/// The contract names the outcome and claims nothing more of it.
#[verifier::external_body]
fn read_rows(bytes: &[u8]) -> (r: Result<Vec<Vec<Vec<u8>>>, csv::Error>)
    ensures
        match r {
            Ok(rows) => csv_data_rows(bytes@) == Some(rows.deep_view()),
            Err(_) => csv_data_rows(bytes@) is None,
        },
{
    let mut reader = csv::Reader::from_reader(bytes);
    let mut rows = Vec::new();
    for record in reader.byte_records() {
        rows.push(record?.iter().map(|field| field.to_vec()).collect());
    }
    Ok(rows)
}

/// Joins rows into CSV text.
///
/// Trusted: hands each row to `csv::Writer::write_record` on a writer over
/// a byte vector and takes the vector back with `into_inner`. The contract
/// names the outcome and claims nothing more of it.
#[verifier::external_body]
fn write_rows(rows: &Vec<Vec<Vec<u8>>>) -> (r: Result<Vec<u8>, csv::Error>)
    ensures
        match r {
            Ok(bytes) => csv_text(rows.deep_view()) == Some(bytes@),
            Err(_) => csv_text(rows.deep_view()) is None,
        },
{
    let mut writer = csv::Writer::from_writer(Vec::new());
    for row in rows.iter() {
        writer.write_record(row)?;
    }
    writer.into_inner().map_err(|e| csv::Error::from(e.into_error()))
}

/// The header row of a file manifest.
pub open spec fn file_header() -> Seq<Seq<u8>> {
    seq![
        encode_utf8("sha"@),
        encode_utf8("file_name"@),
        encode_utf8("chunks"@),
        encode_utf8("flags"@),
        encode_utf8("size_in_bytes"@),
        encode_utf8("tag"@),
    ]
}

/// The header row of a chunk manifest.
pub open spec fn chunk_header() -> Seq<Seq<u8>> {
    seq![encode_utf8("sha"@), encode_utf8("file_path"@), encode_utf8("id"@)]
}

/// The table under which a file manifest is written: the header and one row
/// for each record; nothing at all for a manifest without records.
pub open spec fn file_table(records: Seq<FileRecordView>) -> Seq<Seq<Seq<u8>>> {
    if records.len() == 0 {
        Seq::empty()
    } else {
        seq![file_header()] + file_rows(records)
    }
}

/// The table under which a chunk manifest is written: the header and one
/// row for each record; nothing at all for a manifest without records.
pub open spec fn chunk_table(records: Seq<ChunkRecordView>) -> Seq<Seq<Seq<u8>>> {
    if records.len() == 0 {
        Seq::empty()
    } else {
        seq![chunk_header()] + chunk_rows(records)
    }
}

/// The outcome of reading a file manifest whose data rows are `rows`.
pub open spec fn file_manifest_read(
    rows: Option<Seq<Seq<Seq<u8>>>>,
    r: Result<Vec<FileRecord>, ManifestError>,
) -> bool {
    match r {
        Ok(records) => rows is Some && file_records_of(rows.unwrap()) == Some(
            records.deep_view(),
        ),
        Err(ManifestError::Malformed) => rows is None,
        Err(ManifestError::BadRecord { row }) => {
            &&& rows is Some
            &&& row < rows.unwrap().len()
            &&& file_record_of(rows.unwrap()[row as int]) is None
            &&& forall|j: int|
                0 <= j < row ==> (#[trigger] file_record_of(rows.unwrap()[j])) is Some
        },
        Err(ManifestError::Unwritable) => false,
    }
}

/// The outcome of reading a chunk manifest whose data rows are `rows`.
pub open spec fn chunk_manifest_read(
    rows: Option<Seq<Seq<Seq<u8>>>>,
    r: Result<Vec<ChunkRecord>, ManifestError>,
) -> bool {
    match r {
        Ok(records) => rows is Some && chunk_records_of(rows.unwrap()) == Some(
            records.deep_view(),
        ),
        Err(ManifestError::Malformed) => rows is None,
        Err(ManifestError::BadRecord { row }) => {
            &&& rows is Some
            &&& row < rows.unwrap().len()
            &&& chunk_record_of(rows.unwrap()[row as int]) is None
            &&& forall|j: int|
                0 <= j < row ==> (#[trigger] chunk_record_of(rows.unwrap()[j])) is Some
        },
        Err(ManifestError::Unwritable) => false,
    }
}

/// Splits a manifest into its data rows, each a list of fields.
pub fn read_table(bytes: &[u8]) -> (r: Result<Vec<Vec<Vec<u8>>>, ManifestError>)
    ensures
        match r {
            Ok(rows) => csv_data_rows(bytes@) == Some(rows.deep_view()),
            Err(ManifestError::Malformed) => csv_data_rows(bytes@) is None,
            Err(_) => false,
        },
{
    match read_rows(bytes) {
        Ok(rows) => Ok(rows),
        Err(_) => Err(ManifestError::Malformed),
    }
}

/// Reads a file manifest: every data row becomes a record, in order.
pub fn read_file_manifest(bytes: &[u8]) -> (r: Result<Vec<FileRecord>, ManifestError>)
    ensures
        file_manifest_read(csv_data_rows(bytes@), r),
{
    match read_table(bytes) {
        Ok(rows) => decode_file_rows(&rows),
        Err(e) => Err(e),
    }
}

/// Reads a chunk manifest: every data row becomes a record, in order.
pub fn read_chunk_manifest(bytes: &[u8]) -> (r: Result<Vec<ChunkRecord>, ManifestError>)
    ensures
        chunk_manifest_read(csv_data_rows(bytes@), r),
{
    match read_table(bytes) {
        Ok(rows) => decode_chunk_rows(&rows),
        Err(e) => Err(e),
    }
}

/// The header row of a file manifest.
fn file_header_row() -> (r: Vec<Vec<u8>>)
    ensures
        r.deep_view() == file_header(),
{
    let mut row: Vec<Vec<u8>> = Vec::new();
    row.push("sha".as_bytes_vec());
    row.push("file_name".as_bytes_vec());
    row.push("chunks".as_bytes_vec());
    row.push("flags".as_bytes_vec());
    row.push("size_in_bytes".as_bytes_vec());
    row.push("tag".as_bytes_vec());
    assert(row.deep_view() =~~= file_header());
    row
}

/// The header row of a chunk manifest.
fn chunk_header_row() -> (r: Vec<Vec<u8>>)
    ensures
        r.deep_view() == chunk_header(),
{
    let mut row: Vec<Vec<u8>> = Vec::new();
    row.push("sha".as_bytes_vec());
    row.push("file_path".as_bytes_vec());
    row.push("id".as_bytes_vec());
    assert(row.deep_view() =~~= chunk_header());
    row
}

/// Puts `header` in front of `rows`.
fn with_header(header: Vec<Vec<u8>>, rows: Vec<Vec<Vec<u8>>>) -> (r: Vec<Vec<Vec<u8>>>)
    ensures
        r.deep_view() == seq![header.deep_view()] + rows.deep_view(),
{
    let ghost head = header.deep_view();
    let ghost tail = rows.deep_view();
    let mut table: Vec<Vec<Vec<u8>>> = Vec::new();
    table.push(header);
    let mut rows = rows;
    let ghost before = table.deep_view();
    assert(before =~~= seq![head]);
    table.append(&mut rows);
    assert(table.deep_view() =~~= seq![head] + tail);
    table
}

/// Writes a file manifest: a header row, then one row for each record. A
/// manifest without records is written as no bytes at all.
pub fn write_file_manifest(records: &Vec<FileRecord>) -> (r: Result<Vec<u8>, ManifestError>)
    ensures
        match r {
            Ok(bytes) => csv_text(file_table(records.deep_view())) == Some(bytes@),
            Err(ManifestError::Unwritable) => csv_text(file_table(records.deep_view())) is None,
            Err(_) => false,
        },
{
    let table = if records.len() == 0 {
        let empty: Vec<Vec<Vec<u8>>> = Vec::new();
        assert(empty.deep_view() =~~= file_table(records.deep_view()));
        empty
    } else {
        with_header(file_header_row(), encode_file_rows(records))
    };
    match write_rows(&table) {
        Ok(bytes) => Ok(bytes),
        Err(_) => Err(ManifestError::Unwritable),
    }
}

/// Writes a chunk manifest: a header row, then one row for each record. A
/// manifest without records is written as no bytes at all.
pub fn write_chunk_manifest(records: &Vec<ChunkRecord>) -> (r: Result<Vec<u8>, ManifestError>)
    ensures
        match r {
            Ok(bytes) => csv_text(chunk_table(records.deep_view())) == Some(bytes@),
            Err(ManifestError::Unwritable) => csv_text(chunk_table(records.deep_view())) is None,
            Err(_) => false,
        },
{
    let table = if records.len() == 0 {
        let empty: Vec<Vec<Vec<u8>>> = Vec::new();
        assert(empty.deep_view() =~~= chunk_table(records.deep_view()));
        empty
    } else {
        with_header(chunk_header_row(), encode_chunk_rows(records))
    };
    match write_rows(&table) {
        Ok(bytes) => Ok(bytes),
        Err(_) => Err(ManifestError::Unwritable),
    }
}

} // verus!
