//! Comma-separated text as the `csv` crate reads and writes it.
use vstd::prelude::*;

verus! {

/// A character that forces a field into double quotes when written.
pub open spec fn is_special(c: char) -> bool {
    c == ',' || c == '"' || c == '\r' || c == '\n'
}

/// The field holds a character that forces quoting.
pub open spec fn needs_quotes(field: Seq<char>) -> bool {
    exists|i: int| 0 <= i < field.len() && is_special(#[trigger] field[i])
}

/// The field with each double quote written twice.
pub open spec fn double_quotes(field: Seq<char>) -> Seq<char>
    decreases field.len(),
{
    if field.len() == 0 {
        Seq::empty()
    } else {
        let rest = double_quotes(field.drop_last());
        if field.last() == '"' {
            rest + seq!['"', '"']
        } else {
            rest.push(field.last())
        }
    }
}

/// The field in double quotes, inner double quotes doubled.
pub open spec fn quoted(field: Seq<char>) -> Seq<char> {
    seq!['"'] + double_quotes(field) + seq!['"']
}

/// One field as written: quoted only where it must be.
pub open spec fn csv_field(field: Seq<char>) -> Seq<char> {
    if needs_quotes(field) {
        quoted(field)
    } else {
        field
    }
}

/// The written fields separated by commas.
pub open spec fn joined_fields(fields: Seq<Seq<char>>) -> Seq<char>
    decreases fields.len(),
{
    if fields.len() == 0 {
        Seq::empty()
    } else if fields.len() == 1 {
        csv_field(fields[0])
    } else {
        joined_fields(fields.drop_last()).push(',') + csv_field(fields.last())
    }
}

/// One record as a line: the joined fields (`""` where they are empty text)
/// and a line feed.
pub open spec fn csv_line(fields: Seq<Seq<char>>) -> Seq<char> {
    let body = joined_fields(fields);
    if body.len() == 0 {
        seq!['"', '"', '\n']
    } else {
        body.push('\n')
    }
}

/// Writes one record as comma-separated text.
///
/// Relies on `csv::Writer::write_record` with the default configuration,
/// writing into memory, where no write can fail: a field holding a comma,
/// a double quote, a carriage return or a line feed is put in double quotes
/// with its double quotes doubled, fields are separated by commas, the
/// record ends with a line feed, and a record with no bytes is written as
/// `""`. Only valid UTF-8 is written, so the text converts back losslessly.
#[verifier::external_body]
pub(crate) fn write_csv_record(fields: &Vec<String>) -> (r: Option<String>)
    ensures
        r is Some,
        r.unwrap()@ == csv_line(fields.deep_view()),
{
    let mut writer = csv::Writer::from_writer(Vec::new());
    writer.write_record(fields).ok()?;
    String::from_utf8(writer.into_inner().ok()?).ok()
}

/// The records that the `csv` reader finds in `input` when fields are
/// separated by `delimiter`, there is no header row and records may differ in
/// length: each record as its fields, or `None` where a record could not be
/// read (its text is not UTF-8).
pub uninterp spec fn csv_records(input: Seq<u8>, delimiter: u8) -> Seq<Option<Seq<Seq<char>>>>;

/// Reads every record of `input`.
///
/// Relies on `csv::ReaderBuilder` (no header row, flexible record length)
/// and on `csv::Reader::into_records`: the records are a function of the
/// bytes and the delimiter alone, and empty input holds none.
#[verifier::external_body]
pub(crate) fn read_csv_records(input: &[u8], delimiter: u8) -> (r: Vec<Option<Vec<String>>>)
    ensures
        r.deep_view() == csv_records(input@, delimiter),
        input@.len() == 0 ==> r@.len() == 0,
{
    csv::ReaderBuilder::new()
        .delimiter(delimiter)
        .has_headers(false)
        .flexible(true)
        .from_reader(input)
        .into_records()
        .map(|rec| rec.ok().map(|rec| rec.iter().map(String::from).collect()))
        .collect()
}

} // verus!
