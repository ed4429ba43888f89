use crate::error::DataError;
use crate::record::Record;
use crate::text::{chars_of, int_of_text, parse_int, strip_commas, without_commas};
use vstd::prelude::*;

verus! {

/// The number of fields an import row needs.
pub const ROW_FIELDS: usize = 8;

/// What csv's reader makes of `data` read without a header row: each record
/// as its fields, or `None` where it reports an error. It depends on the
/// bytes alone.
pub uninterp spec fn csv_rows_of(data: Seq<u8>) -> Option<Seq<Seq<Seq<char>>>>;

#[verifier::external_type_specification]
#[verifier::external_body]
pub struct ExCsvError(csv::Error);

/// Relies on csv's `Reader` (built with `has_headers(false)`) for the records
/// of `data`; the first error it reports ends the read.
#[verifier::external_body]
fn read_csv(data: &[u8]) -> (r: Result<Vec<Vec<String>>, csv::Error>)
    ensures
        match r {
            Ok(rows) => csv_rows_of(data@) == Some(rows.deep_view()),
            Err(_) => csv_rows_of(data@) is None,
        },
{
    let mut reader = csv::ReaderBuilder::new().has_headers(false).from_reader(data);
    reader.records().map(|rec| rec.map(|fields| fields.iter().map(String::from).collect())).collect()
}

/// The integer a numeric field holds once its thousands separators are gone.
pub open spec fn field_number(t: Seq<char>) -> Option<int> {
    int_of_text(without_commas(t))
}

/// A row has the eight fields and its price and quantity parse.
pub open spec fn row_valid(row: Seq<Seq<char>>) -> bool {
    &&& row.len() >= ROW_FIELDS
    &&& field_number(row[4]) is Some
    &&& field_number(row[7]) is Some
}

pub open spec fn all_rows_valid(rows: Seq<Seq<Seq<char>>>) -> bool {
    forall|i: int| 0 <= i < rows.len() ==> #[trigger] row_valid(rows[i])
}

/// `r` is row `row` of an import, read at position `k`.
pub open spec fn decodes(row: Seq<Seq<char>>, k: int, r: Record) -> bool {
    &&& r.id == k
    &&& r.code@ == row[0]
    &&& r.name@ == row[1]
    &&& r.brand@ == row[2]
    &&& r.car_type@ == row[3]
    &&& field_number(row[4]) == Some(r.price as int)
    &&& r.price_code@ == row[5]
    &&& r.date@ == row[6]
    &&& field_number(row[7]) == Some(r.quantity as int)
}

/// `recs` are the records of `rows`, one per row, in order.
pub open spec fn decodes_all(rows: Seq<Seq<Seq<char>>>, recs: Seq<Record>) -> bool {
    &&& recs.len() == rows.len()
    &&& forall|k: int| 0 <= k < rows.len() ==> #[trigger] decodes(rows[k], k, recs[k])
}

/// The integer in a numeric field, with its thousands separators ignored.
pub fn read_number(t: &String) -> (r: Option<i64>)
    ensures
        match field_number(t@) {
            Some(v) => r == Some(v as i64),
            None => r is None,
        },
{
    parse_int(&strip_commas(&chars_of(t.as_str())))
}

/// The record of one row read at position `k`.
fn decode_row(row: &Vec<String>, k: i64) -> (r: Option<Record>)
    requires
        row.len() >= ROW_FIELDS,
    ensures
        match r {
            Some(rec) => row_valid(row.deep_view()) && decodes(row.deep_view(), k as int, rec),
            None => !row_valid(row.deep_view()),
        },
{
    let price = read_number(&row[4]);
    let quantity = read_number(&row[7]);
    match (price, quantity) {
        (Some(price), Some(quantity)) => Some(
            Record {
                id: k,
                code: row[0].clone(),
                name: row[1].clone(),
                brand: row[2].clone(),
                car_type: row[3].clone(),
                price,
                price_code: row[5].clone(),
                date: row[6].clone(),
                quantity,
            },
        ),
        _ => None,
    }
}

/// The records of the rows of an import, each numbered by its row.
pub fn records_from_rows(rows: &Vec<Vec<String>>) -> (r: Result<Vec<Record>, DataError>)
    requires
        rows.len() <= i64::MAX,
    ensures
        match r {
            Ok(recs) => all_rows_valid(rows.deep_view()) && decodes_all(rows.deep_view(), recs@),
            Err(e) => e == DataError::Format && !all_rows_valid(rows.deep_view()),
        },
{
    let ghost dv = rows.deep_view();
    let mut recs: Vec<Record> = Vec::new();
    let mut k: usize = 0;
    while k < rows.len()
        invariant
            k <= rows.len() <= i64::MAX,
            dv == rows.deep_view(),
            recs.len() == k,
            forall|j: int| 0 <= j < k ==> #[trigger] row_valid(dv[j]),
            forall|j: int| 0 <= j < k ==> #[trigger] decodes(dv[j], j, recs[j]),
        decreases rows.len() - k,
    {
        assert(dv[k as int] == rows[k as int].deep_view());
        if rows[k].len() < ROW_FIELDS {
            assert(!row_valid(dv[k as int]));
            return Err(DataError::Format);
        }
        match decode_row(&rows[k], k as i64) {
            Some(rec) => recs.push(rec),
            None => {
                return Err(DataError::Format);
            },
        }
        k = k + 1;
    }
    Ok(recs)
}

/// The records of a delimited text with no header row: eight fields per row
/// (code, name, brand, category, price, price code, date, quantity), numbered
/// by their row. A text that the reader refuses, a row with too few fields,
/// a number that does not parse, or more rows than an ordinal can number,
/// gives `Format`.
pub fn parse_records(data: &[u8]) -> (r: Result<Vec<Record>, DataError>)
    ensures
        match csv_rows_of(data@) {
            None => r == Err::<Vec<Record>, DataError>(DataError::Format),
            Some(rows) => match r {
                Ok(recs) => all_rows_valid(rows) && rows.len() <= i64::MAX && decodes_all(
                    rows,
                    recs@,
                ),
                Err(e) => e == DataError::Format && (!all_rows_valid(rows) || rows.len()
                    > i64::MAX),
            },
        },
{
    match read_csv(data) {
        Err(_) => Err(DataError::Format),
        Ok(rows) => {
            if rows.len() as u128 > i64::MAX as u128 {
                Err(DataError::Format)
            } else {
                records_from_rows(&rows)
            }
        },
    }
}

} // verus!
