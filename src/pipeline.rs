//! The record pipeline: rows of the bank export in, rows of the import
//! layout out, each row converted or reported on its own.
use crate::csv_text::{
    csv_field, csv_line, csv_records, is_special, joined_fields, needs_quotes, quoted, read_csv_records, write_csv_record,
};
use crate::transcode::{amount_text, date_text, transcode_amount, transcode_date};
use vstd::prelude::*;
use vstd::string::StringExecFns;
use vstd::utf8::encode_utf8;

verus! {

/// Field separator of the bank export: the byte of `;`.
pub const INPUT_DELIMITER: u8 = 0x3b;

/// Number of fields in a row of the bank export: date, payee, amount,
/// running total and currency.
pub const INPUT_FIELDS: usize = 5;

/// One transaction in the import layout. The memo is always empty, so it is
/// not held.
pub struct Transaction {
    pub date: String,
    pub payee: String,
    pub amount: String,
}

/// Why a row of the export was left out of the output.
#[derive(Debug, Clone, Copy, PartialEq, Eq, Structural)]
pub enum RowError {
    /// The row does not have exactly five fields.
    FieldCount { found: usize },
    /// The row could not be read as text.
    Unreadable,
}

/// A row that was left out, with its position among the rows (from zero).
#[derive(Debug, Clone, Copy, PartialEq, Eq, Structural)]
pub struct SkippedRow {
    pub index: usize,
    pub error: RowError,
}

/// The column names of the import layout.
pub open spec fn header_fields() -> Seq<Seq<char>> {
    seq!["Date"@, "Payee"@, "Memo"@, "Amount"@]
}

/// The header line of the output.
pub open spec fn header_text() -> Seq<char> {
    csv_line(header_fields())
}

/// The output fields of one transaction: date, payee, empty memo, amount.
pub open spec fn row_fields(date: Seq<char>, payee: Seq<char>, amount: Seq<char>) -> Seq<
    Seq<char>,
> {
    seq![date, payee, Seq::empty(), amount]
}

/// What one record of the export becomes: its output line, or the reason it
/// is skipped.
pub open spec fn record_outcome(rec: Option<Seq<Seq<char>>>) -> Result<Seq<char>, RowError> {
    match rec {
        Some(f) => if f.len() == INPUT_FIELDS {
            Ok(csv_line(row_fields(date_text(f[0]), f[1], amount_text(f[2]))))
        } else {
            Err(RowError::FieldCount { found: f.len() as usize })
        },
        None => Err(RowError::Unreadable),
    }
}

/// The output lines of the records that convert, in input order.
pub open spec fn rows_text(recs: Seq<Option<Seq<Seq<char>>>>) -> Seq<char>
    decreases recs.len(),
{
    if recs.len() == 0 {
        Seq::empty()
    } else {
        rows_text(recs.drop_last()) + match record_outcome(recs.last()) {
            Ok(line) => line,
            Err(_) => Seq::empty(),
        }
    }
}

/// The records that do not convert, with their positions, in input order.
pub open spec fn skipped_rows(recs: Seq<Option<Seq<Seq<char>>>>) -> Seq<SkippedRow>
    decreases recs.len(),
{
    if recs.len() == 0 {
        Seq::empty()
    } else {
        let before = skipped_rows(recs.drop_last());
        match record_outcome(recs.last()) {
            Ok(_) => before,
            Err(e) => before.push(SkippedRow { index: (recs.len() - 1) as usize, error: e }),
        }
    }
}

/// The whole output text: the header line, then one line per converted
/// record.
pub open spec fn converted_text(recs: Seq<Option<Seq<Seq<char>>>>) -> Seq<char> {
    header_text() + rows_text(recs)
}

/// Decodes one row of the export: the date and the amount are rewritten, the
/// payee is kept, the running total and the currency are read and dropped.
pub fn decode_row(fields: &Vec<String>) -> (r: Result<Transaction, RowError>)
    ensures
        fields.len() == INPUT_FIELDS ==> (r matches Ok(t) && t.date@ == date_text(fields[0]@)
            && t.payee@ == fields[1]@ && t.amount@ == amount_text(fields[2]@)),
        fields.len() != INPUT_FIELDS ==> r == Err::<Transaction, RowError>(
            RowError::FieldCount { found: fields.len() },
        ),
{
    if fields.len() != INPUT_FIELDS {
        return Err(RowError::FieldCount { found: fields.len() });
    }
    let date = transcode_date(fields[0].as_str());
    let payee = fields[1].clone();
    let amount = transcode_amount(fields[2].as_str());
    Ok(Transaction { date, payee, amount })
}

/// The header line `Date,Payee,Memo,Amount`.
pub fn header_line() -> (r: String)
    ensures
        r@ == header_text(),
{
    let fields: Vec<String> = vec![
        String::from_str("Date"),
        String::from_str("Payee"),
        String::from_str("Memo"),
        String::from_str("Amount"),
    ];
    assert(fields.deep_view() =~= header_fields());
    write_csv_record(&fields).unwrap()
}

/// The output line of one transaction.
pub fn encode_row(t: &Transaction) -> (r: String)
    ensures
        r@ == csv_line(row_fields(t.date@, t.payee@, t.amount@)),
{
    let fields: Vec<String> = vec![t.date.clone(), t.payee.clone(), String::new(), t.amount.clone()];
    assert(fields.deep_view() =~= row_fields(t.date@, t.payee@, t.amount@));
    write_csv_record(&fields).unwrap()
}

/// The encoding of joined texts is the joined encodings.
proof fn lemma_encode_concat(a: Seq<char>, b: Seq<char>)
    ensures
        encode_utf8(a + b) == encode_utf8(a) + encode_utf8(b),
    decreases a.len(),
{
    if a.len() == 0 {
        assert(a + b =~= b);
        assert(encode_utf8(a) + encode_utf8(b) =~= encode_utf8(b));
    } else {
        lemma_encode_concat(a.drop_first(), b);
        assert((a + b).drop_first() =~= a.drop_first() + b);
        assert((a + b)[0] == a[0]);
        assert(encode_utf8(a + b) =~= encode_utf8(a) + encode_utf8(b));
    }
}

/// Appends the UTF-8 bytes of `text` to `output`.
fn emit(output: &mut Vec<u8>, text: &String)
    ensures
        final(output)@ == old(output)@ + encode_utf8(text@),
{
    output.extend_from_slice(text.as_str().as_bytes());
    assert(final(output)@ =~= old(output)@ + encode_utf8(text@));
}

/// Converts a whole export: writes the header line and then, in order, the
/// line of each row that converts; returns the rows that were skipped.
///
/// A row that cannot be converted is reported and skipped; the lines already
/// written stay as they are, and the rows after it are still converted.
pub fn convert(input: &[u8], output: &mut Vec<u8>) -> (skipped: Vec<SkippedRow>)
    ensures
        final(output)@ == old(output)@ + encode_utf8(
            converted_text(csv_records(input@, INPUT_DELIMITER)),
        ),
        skipped@ == skipped_rows(csv_records(input@, INPUT_DELIMITER)),
        input@.len() == 0 ==> final(output)@ == old(output)@ + encode_utf8(header_text()),
{
    let records = read_csv_records(input, INPUT_DELIMITER);
    let ghost recs = records.deep_view();
    let ghost start = output@;
    let header = header_line();
    emit(output, &header);
    let mut skipped: Vec<SkippedRow> = Vec::new();
    let n = records.len();
    let mut i: usize = 0;
    assert(recs.take(0) =~= Seq::<Option<Seq<Seq<char>>>>::empty());
    while i < n
        invariant
            n == records.len(),
            i <= n,
            recs == records.deep_view(),
            output@ == start + encode_utf8(header_text()) + encode_utf8(
                rows_text(recs.take(i as int)),
            ),
            skipped@ == skipped_rows(recs.take(i as int)),
        decreases n - i,
    {
        let ghost done = recs.take(i as int);
        let ghost upto = recs.take(i + 1);
        assert(upto.drop_last() =~= done);
        assert(upto.last() == recs[i as int]);
        match &records[i] {
            Some(fields) => {
                assert(recs[i as int] == Some(fields.deep_view()));
                match decode_row(fields) {
                    Ok(t) => {
                        let line = encode_row(&t);
                        emit(output, &line);
                        proof {
                            lemma_encode_concat(rows_text(done), line@);
                        }
                    },
                    Err(e) => {
                        skipped.push(SkippedRow { index: i, error: e });
                        assert(rows_text(upto) =~= rows_text(done));
                    },
                }
            },
            None => {
                skipped.push(SkippedRow { index: i, error: RowError::Unreadable });
                assert(rows_text(upto) =~= rows_text(done));
            },
        }
        i = i + 1;
    }
    assert(recs.take(n as int) =~= recs);
    proof {
        lemma_encode_concat(header_text(), rows_text(recs));
        if input@.len() == 0 {
            assert(rows_text(recs) =~= Seq::<char>::empty());
            assert(encode_utf8(Seq::<char>::empty()) =~= Seq::<u8>::empty());
        }
    }
    assert(output@ =~= start + encode_utf8(converted_text(recs)));
    skipped
}

/// A row with fewer than five fields leaves the output text exactly as the
/// rows before it left it, and is reported with its position and field
/// count.
pub proof fn law_short_row_skipped(recs: Seq<Option<Seq<Seq<char>>>>, fields: Seq<Seq<char>>)
    requires
        fields.len() < INPUT_FIELDS,
    ensures
        converted_text(recs.push(Some(fields))) == converted_text(recs),
        skipped_rows(recs.push(Some(fields))) == skipped_rows(recs).push(
            SkippedRow {
                index: recs.len() as usize,
                error: RowError::FieldCount { found: fields.len() as usize },
            },
        ),
{
    let all = recs.push(Some(fields));
    assert(all.drop_last() =~= recs);
    assert(rows_text(all) =~= rows_text(recs));
}

/// Whatever rows follow, the output of the rows before them stands
/// unchanged at the start of the output.
pub proof fn law_output_prefix(
    recs: Seq<Option<Seq<Seq<char>>>>,
    more: Seq<Option<Seq<Seq<char>>>>,
)
    ensures
        converted_text(recs + more).len() >= converted_text(recs).len(),
        converted_text(recs + more).subrange(0, converted_text(recs).len() as int)
            == converted_text(recs),
    decreases more.len(),
{
    if more.len() == 0 {
        assert(recs + more =~= recs);
        assert(converted_text(recs).subrange(0, converted_text(recs).len() as int)
            =~= converted_text(recs));
    } else {
        let shorter = more.drop_last();
        law_output_prefix(recs, shorter);
        assert((recs + more).drop_last() =~= recs + shorter);
        let a = converted_text(recs + shorter);
        let b = converted_text(recs + more);
        let extra = match record_outcome((recs + more).last()) {
            Ok(line) => line,
            Err(_) => Seq::<char>::empty(),
        };
        assert(b =~= a + extra);
        assert(b.subrange(0, converted_text(recs).len() as int) =~= a.subrange(
            0,
            converted_text(recs).len() as int,
        ));
    }
}

/// A payee that holds a comma is written in double quotes, its own double
/// quotes doubled, so that the comma does not split the field.
pub proof fn law_payee_comma_quoted(date: Seq<char>, payee: Seq<char>, amount: Seq<char>)
    requires
        payee.contains(','),
    ensures
        csv_line(row_fields(date, payee, amount)) == csv_field(date) + seq![','] + quoted(payee)
            + seq![',', ','] + csv_field(amount) + seq!['\n'],
{
    let i = choose|i: int| 0 <= i < payee.len() && payee[i] == ',';
    assert(is_special(payee[i]));
    let fs = row_fields(date, payee, amount);
    assert(fs.drop_last() =~= seq![date, payee, Seq::empty()]);
    assert(fs.drop_last().drop_last() =~= seq![date, payee]);
    assert(fs.drop_last().drop_last().drop_last() =~= seq![date]);
    assert(csv_field(Seq::<char>::empty()) =~= Seq::<char>::empty());
    let body = csv_field(date) + seq![','] + quoted(payee) + seq![',', ','] + csv_field(amount);
    assert(needs_quotes(payee));
    assert(csv_field(payee) == quoted(payee));
    let one = seq![date];
    let two = seq![date, payee];
    let three = seq![date, payee, Seq::<char>::empty()];
    assert(joined_fields(one) == csv_field(date));
    assert(two.drop_last() =~= one);
    assert(joined_fields(two) =~= csv_field(date).push(',') + quoted(payee));
    assert(three.drop_last() =~= two);
    assert(joined_fields(three) =~= csv_field(date).push(',') + quoted(payee).push(','));
    assert(joined_fields(fs) =~= body);
    assert(body.len() > 0);
    assert(csv_line(fs) =~= body.push('\n'));
}

} // verus!
