//! Comma- and tab-separated text: records become rows, and each field is cast to what it reads as.
use vstd::prelude::*;

use crate::cast::{cast_csv_field, cast_field};
use crate::error::ConvertError;
use crate::text::{decimal, decimal_text, decimals_are_plain_digits, int_of_text, trimmed};
use crate::value::{
    distinct_keys, distinct_settings_all_stay, one_setting_more, row_of, rows_have_distinct_keys, table,
    the_last_setting_counts, Row, RowView,
};

verus! {

broadcast use vstd::string::group_string_axioms;

/// `csv::Error`: why a record could not be read.
#[verifier::external_type_specification]
#[verifier::external_body]
pub struct ExCsvError(csv::Error);

/// The texts of a list.
pub open spec fn texts(list: Seq<String>) -> Seq<Seq<char>> {
    list.map_values(|s: String| s@)
}

/// The texts of a list that may be missing.
pub open spec fn optional_texts(list: Option<Vec<String>>) -> Option<Seq<Seq<char>>> {
    match list {
        Some(l) => Some(texts(l@)),
        None => None,
    }
}

/// The texts of the list that a reader gave, where it gave one.
pub open spec fn read_texts(list: Result<Vec<String>, csv::Error>) -> Option<Seq<Seq<char>>> {
    match list {
        Ok(l) => Some(texts(l@)),
        Err(_) => None,
    }
}

/// The first record of delimited data, or nothing where it cannot be read.
pub uninterp spec fn csv_headers(data: Seq<u8>, delimiter: u8) -> Option<Seq<Seq<char>>>;

/// `csv::Reader::headers` on a reader over `data` with this delimiter that takes records of any
/// length: a function of the data and the delimiter.
#[verifier::external_body]
fn read_headers(data: &[u8], delimiter: u8) -> (r: Result<Vec<String>, csv::Error>)
    ensures
        read_texts(r) == csv_headers(data@, delimiter),
{
    let mut reader = csv::ReaderBuilder::new().delimiter(delimiter).flexible(true).from_reader(data);
    reader.headers().cloned().map(|record| record.iter().map(String::from).collect())
}

/// The records of delimited data after the first, each one or nothing where it cannot be read.
pub uninterp spec fn csv_records(data: Seq<u8>, delimiter: u8) -> Seq<Option<Seq<Seq<char>>>>;

/// `csv::Reader::records` on a reader over `data` with this delimiter that takes records of any
/// length: a function of the data and the delimiter.
#[verifier::external_body]
fn read_records(data: &[u8], delimiter: u8) -> (r: Vec<Result<Vec<String>, csv::Error>>)
    ensures
        r@.map_values(|record: Result<Vec<String>, csv::Error>| read_texts(record)) == csv_records(data@, delimiter),
{
    let mut reader = csv::ReaderBuilder::new().delimiter(delimiter).flexible(true).from_reader(data);
    reader.records().map(|record| record.map(|r| r.iter().map(String::from).collect())).collect()
}

// Columns.

/// The key of a column that has no name of its own.
pub open spec fn numbered_key(i: int) -> Seq<char> {
    "col_"@ + decimal(i as nat)
}

/// The key of column `i`: its header, or its number where there are fewer headers.
pub open spec fn column_key(headers: Seq<Seq<char>>, i: int) -> Seq<char> {
    if i < headers.len() {
        headers[i]
    } else {
        numbered_key(i)
    }
}

/// Makes the key of a column that has no name of its own.
pub fn number_key(i: usize) -> (r: String)
    ensures
        r@ == numbered_key(i as int),
{
    let mut r = "col_".to_string();
    r.append(decimal_text(i as u64).as_str());
    r
}

/// The key of column `i`.
pub fn key_of_column(headers: &Vec<String>, i: usize) -> (r: String)
    ensures
        r@ == column_key(texts(headers@), i as int),
{
    if i < headers.len() {
        headers[i].clone()
    } else {
        number_key(i)
    }
}

// Rows.

/// The columns of a record: each field, cast, under the key of its place.
pub open spec fn csv_pairs(headers: Seq<Seq<char>>, record: Seq<Seq<char>>) -> RowView {
    Seq::new(record.len(), |i: int| (column_key(headers, i), cast_field(record[i])))
}

/// The row of a record.
pub open spec fn csv_row(headers: Seq<Seq<char>>, record: Seq<Seq<char>>) -> RowView {
    row_of(csv_pairs(headers, record))
}

/// The headers as keys: without the white space around them.
pub open spec fn header_keys(headers: Seq<Seq<char>>) -> Seq<Seq<char>> {
    headers.map_values(|h: Seq<char>| trimmed(h))
}

/// The rows of readable records.
pub open spec fn csv_rows(headers: Seq<Seq<char>>, records: Seq<Option<Seq<Seq<char>>>>) -> Seq<RowView> {
    records.map_values(|record: Option<Seq<Seq<char>>>| csv_row(header_keys(headers), record->0))
}

/// Every record could be read.
pub open spec fn all_readable(records: Seq<Option<Seq<Seq<char>>>>) -> bool {
    forall|i: int| 0 <= i < records.len() ==> #[trigger] records[i] is Some
}

/// Makes the row of a record.
pub fn record_to_row(headers: &Vec<String>, record: &Vec<String>) -> (r: Row)
    ensures
        r@ == csv_row(texts(headers@), texts(record@)),
{
    let ghost pairs = csv_pairs(texts(headers@), texts(record@));
    let mut row = Row::new();
    let mut i: usize = 0;
    assert(pairs.take(0) =~= RowView::empty());
    while i < record.len()
        invariant
            i <= record@.len(),
            pairs == csv_pairs(texts(headers@), texts(record@)),
            row@ == row_of(pairs.take(i as int)),
        decreases record@.len() - i,
    {
        let key = key_of_column(headers, i);
        let value = cast_csv_field(record[i].as_str());
        row.insert(key, value);
        assert(pairs.take(i + 1).drop_last() =~= pairs.take(i as int));
        i = i + 1;
    }
    assert(pairs.take(record@.len() as int) =~= pairs);
    row
}

/// The rows, or the error, that the headers and records of a file give: without headers nothing
/// is read, and one record that cannot be read fails the file.
pub open spec fn csv_outcome(
    headers: Option<Seq<Seq<char>>>,
    records: Seq<Option<Seq<Seq<char>>>>,
    r: Result<Vec<Row>, ConvertError>,
) -> bool {
    match headers {
        None => r matches Err(ConvertError::CsvHeaders),
        Some(h) => if all_readable(records) {
            r is Ok && table(r->Ok_0@) == csv_rows(h, records)
        } else {
            r matches Err(ConvertError::CsvRecord)
        },
    }
}

/// Trims the headers.
fn trim_headers(headers: &Vec<String>) -> (r: Vec<String>)
    ensures
        texts(r@) == header_keys(texts(headers@)),
{
    let mut r: Vec<String> = Vec::new();
    let mut i: usize = 0;
    while i < headers.len()
        invariant
            i <= headers@.len(),
            r@.len() == i,
            forall|j: int| 0 <= j < i ==> (#[trigger] r@[j])@ == trimmed(headers@[j]@),
        decreases headers@.len() - i,
    {
        r.push(headers[i].as_str().trim().to_string());
        i = i + 1;
    }
    assert(texts(r@) =~= header_keys(texts(headers@)));
    r
}

/// Makes rows of headers and records, each where it could be read.
pub fn assemble_csv(headers: Option<Vec<String>>, records: Vec<Option<Vec<String>>>) -> (r: Result<Vec<Row>, ConvertError>)
    ensures
        csv_outcome(
            optional_texts(headers),
            records@.map_values(|record: Option<Vec<String>>| optional_texts(record)),
            r,
        ),
{
    let ghost views = records@.map_values(|record: Option<Vec<String>>| optional_texts(record));
    match &headers {
        None => Err(ConvertError::CsvHeaders),
        Some(raw) => {
            let ghost h = texts(raw@);
            let keys = trim_headers(raw);
            let mut rows: Vec<Row> = Vec::new();
            let mut i: usize = 0;
            while i < records.len()
                invariant
                    i <= records@.len(),
                    rows@.len() == i,
                    views == records@.map_values(|record: Option<Vec<String>>| optional_texts(record)),
                    optional_texts(headers) == Some(h),
                    texts(keys@) == header_keys(h),
                    forall|j: int| 0 <= j < i ==> #[trigger] views[j] is Some,
                    forall|j: int| 0 <= j < i ==> (#[trigger] rows@[j])@ == csv_row(header_keys(h), views[j]->0),
                decreases records@.len() - i,
            {
                match &records[i] {
                    Some(record) => {
                        assert(views[i as int] == Some(texts(record@)));
                        rows.push(record_to_row(&keys, record));
                    },
                    None => {
                        assert(views[i as int] is None);
                        return Err(ConvertError::CsvRecord);
                    },
                }
                i = i + 1;
            }
            assert(table(rows@) =~= csv_rows(h, views));
            Ok(rows)
        },
    }
}

/// Reads delimited data: the first record names the columns, each other one becomes a row.
pub fn read_csv(data: &[u8], delimiter: u8) -> (r: Result<Vec<Row>, ConvertError>)
    ensures
        csv_outcome(csv_headers(data@, delimiter), csv_records(data@, delimiter), r),
{
    let headers = match read_headers(data, delimiter) {
        Ok(h) => Some(h),
        Err(_) => None,
    };
    let read = read_records(data, delimiter);
    let ghost views = csv_records(data@, delimiter);
    let ghost all = read@;
    let mut records: Vec<Option<Vec<String>>> = Vec::new();
    for record in it: read
        invariant
            it.seq() == all,
            records@.len() == it.index(),
            forall|j: int| 0 <= j < it.index() ==> optional_texts(#[trigger] records@[j]) == read_texts(all[j]),
    {
        match record {
            Ok(fields) => records.push(Some(fields)),
            Err(_) => records.push(None),
        }
    }
    assert(records@.map_values(|record: Option<Vec<String>>| optional_texts(record)) =~= views) by {
        assert(views == all.map_values(|record: Result<Vec<String>, csv::Error>| read_texts(record)));
    }
    assemble_csv(headers, records)
}

// Laws.

/// Every row of delimited data has each key once.
pub proof fn csv_rows_have_distinct_keys(headers: Seq<Seq<char>>, records: Seq<Option<Seq<Seq<char>>>>, i: int)
    requires
        0 <= i < records.len(),
    ensures
        csv_rows(headers, records).len() == records.len(),
        distinct_keys(csv_rows(headers, records)[i]),
{
    rows_have_distinct_keys(csv_pairs(header_keys(headers), records[i]->0));
}

/// A list is seen text by text, in order.
pub proof fn lists_are_their_texts(list: Vec<String>)
    ensures
        texts(list@).len() == list@.len(),
        forall|i: int| 0 <= i < list@.len() ==> #[trigger] texts(list@)[i] == list@[i]@,
        optional_texts(Some(list)) == Some(texts(list@)),
        optional_texts(None) is None,
{
}

/// A column is named by its header; one without a header by `col_` and its number, which reads back.
pub proof fn columns_are_named_by_their_headers(headers: Seq<Seq<char>>, i: int)
    requires
        0 <= i <= i64::MAX,
    ensures
        i < headers.len() ==> column_key(headers, i) == headers[i],
        i >= headers.len() ==> column_key(headers, i) == numbered_key(i),
        numbered_key(i).len() > 4,
        numbered_key(i).take(4) == seq!['c', 'o', 'l', '_'],
        int_of_text(numbered_key(i).skip(4)) == Some(i as i64),
        '0' <= numbered_key(i)[4] <= '9',
        numbered_key(i)[4] == '0' ==> i == 0 && numbered_key(i).len() == 5,
{
    reveal_strlit("col_");
    decimals_are_plain_digits(i as nat);
    let digits = decimal(i as nat);
    assert('0' <= digits[0] <= '9');
    assert(numbered_key(i)[4] == digits[0]);
    assert(numbered_key(i).take(4) =~= seq!['c', 'o', 'l', '_']);
    assert(numbered_key(i).skip(4) =~= digits);
}

/// Where the headers and every record can be read, each record is a row of its own, in order. Of
/// the fields with the same key the last stands in the row, cast, under the trimmed header of its
/// place; and the row holds nothing that is not a field of this very record.
pub proof fn each_record_is_a_row(
    headers: Seq<Seq<char>>,
    records: Seq<Option<Seq<Seq<char>>>>,
    r: Result<Vec<Row>, ConvertError>,
    i: int,
    j: int,
)
    requires
        csv_outcome(Some(headers), records, r),
        forall|k: int| 0 <= k < records.len() ==> #[trigger] records[k] is Some,
        0 <= i < records.len(),
        0 <= j < records[i]->0.len(),
    ensures
        r is Ok,
        r->Ok_0@.len() == records.len(),
        j < headers.len() ==> column_key(header_keys(headers), j) == trimmed(headers[j]),
        j >= headers.len() ==> column_key(header_keys(headers), j) == numbered_key(j),
        (forall|k: int| j < k < records[i]->0.len() ==> #[trigger] column_key(header_keys(headers), k) != column_key(
            header_keys(headers),
            j,
        )) ==> r->Ok_0@[i]@.contains((column_key(header_keys(headers), j), cast_field(records[i]->0[j]))),
        forall|p: int|
            0 <= p < r->Ok_0@[i]@.len() ==> exists|k: int|
                0 <= k < records[i]->0.len() && #[trigger] r->Ok_0@[i]@[p] == (
                    #[trigger] column_key(header_keys(headers), k),
                    cast_field(records[i]->0[k]),
                ),
{
    let keys = header_keys(headers);
    let record = records[i]->0;
    let pairs = csv_pairs(keys, record);
    let rows = r->Ok_0@;
    assert(table(rows).len() == rows.len());
    assert(table(rows)[i] == rows[i]@);
    assert(rows[i]@ == row_of(pairs));
    the_last_setting_counts(pairs);
    if forall|k: int| j < k < record.len() ==> #[trigger] column_key(keys, k) != column_key(keys, j) {
        assert forall|k: int| j < k < pairs.len() implies (#[trigger] pairs[k]).0 != pairs[j].0 by {
            assert(column_key(keys, k) != column_key(keys, j));
        }
        assert(row_of(pairs).contains(pairs[j]));
    }
    assert forall|p: int| 0 <= p < rows[i]@.len() implies exists|k: int|
        0 <= k < record.len() && #[trigger] rows[i]@[p] == (#[trigger] column_key(keys, k), cast_field(record[k])) by {
        assert(pairs.contains(row_of(pairs)[p]));
        let k = choose|k: int| 0 <= k < pairs.len() && pairs[k] == row_of(pairs)[p];
        assert(rows[i]@[p] == (column_key(keys, k), cast_field(record[k])));
    }
}

/// Where the columns of a record have distinct keys, the row is the record field by field.
pub proof fn records_of_distinct_columns_are_rows(keys: Seq<Seq<char>>, record: Seq<Seq<char>>, j: int)
    requires
        forall|a: int, b: int| 0 <= a < b < record.len() ==> #[trigger] column_key(keys, a) != #[trigger] column_key(keys, b),
        0 <= j < record.len(),
    ensures
        csv_row(keys, record).len() == record.len(),
        csv_row(keys, record)[j] == (column_key(keys, j), cast_field(record[j])),
{
    let pairs = csv_pairs(keys, record);
    assert forall|a: int, b: int| 0 <= a < b < pairs.len() implies #[trigger] pairs[a].0 != #[trigger] pairs[b].0 by {
        assert(column_key(keys, a) != column_key(keys, b));
    }
    distinct_settings_all_stay(pairs);
}

/// One field more is one setting more: under the key of its place, after all that were there.
pub proof fn one_field_more(keys: Seq<Seq<char>>, record: Seq<Seq<char>>, field: Seq<char>, p: int)
    ensures
        csv_row(keys, Seq::empty()) == RowView::empty(),
        0 <= p < csv_row(keys, record).len() && csv_row(keys, record)[p].0 == column_key(keys, record.len() as int)
            ==> csv_row(keys, record.push(field)) == csv_row(keys, record).update(
            p,
            (column_key(keys, record.len() as int), cast_field(field)),
        ),
        (forall|i: int|
            0 <= i < csv_row(keys, record).len() ==> (#[trigger] csv_row(keys, record)[i]).0 != column_key(
                keys,
                record.len() as int,
            )) ==> csv_row(keys, record.push(field)) == csv_row(keys, record).push(
            (column_key(keys, record.len() as int), cast_field(field)),
        ),
{
    let n = record.len() as int;
    assert(csv_pairs(keys, Seq::empty()) =~= RowView::empty());
    assert(csv_pairs(keys, record.push(field)) =~= csv_pairs(keys, record).push((column_key(keys, n), cast_field(field))));
    one_setting_more(csv_pairs(keys, record), column_key(keys, n), cast_field(field), p);
}

/// Without readable headers a file is refused, and with one record that cannot be read too; nothing
/// else is.
pub proof fn just_what_cannot_be_read_is_refused(
    headers: Option<Seq<Seq<char>>>,
    records: Seq<Option<Seq<Seq<char>>>>,
    r: Result<Vec<Row>, ConvertError>,
    i: int,
)
    requires
        csv_outcome(headers, records, r),
    ensures
        headers is None ==> r is Err && r->Err_0 is CsvHeaders,
        headers is Some && 0 <= i < records.len() && records[i] is None ==> r is Err && r->Err_0 is CsvRecord,
        headers is Some && (forall|k: int| 0 <= k < records.len() ==> #[trigger] records[k] is Some) ==> r is Ok,
{
}

/// Reading records one after the other is reading each alone.
pub proof fn records_are_read_alone(
    headers: Seq<Seq<char>>,
    a: Seq<Option<Seq<Seq<char>>>>,
    b: Seq<Option<Seq<Seq<char>>>>,
    record: Seq<Seq<char>>,
)
    ensures
        csv_rows(headers, a + b) == csv_rows(headers, a) + csv_rows(headers, b),
        csv_rows(headers, seq![Some(record)]) == seq![csv_row(header_keys(headers), record)],
{
    assert(csv_rows(headers, a + b) =~= csv_rows(headers, a) + csv_rows(headers, b));
    assert(csv_rows(headers, seq![Some(record)]) =~= seq![csv_row(header_keys(headers), record)]);
}

} // verus!
