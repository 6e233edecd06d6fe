//! The conversion: from what a file holds to the clean files and the record of the job.
use vstd::prelude::*;

use crate::curate::{
    curated_rows_are_clean, curation_keeps_the_order, deduplicate, drop_empty_rows, duplicates_go_once,
    every_row_stays_once, is_blank_row, is_subsequence, just_the_blank_rows_go, no_duplicates_are_left,
    rows_with_a_value_stay, the_first_row_stays, without_blank_rows, without_duplicates,
};
use crate::dbf::{dbf_rows, read_dbf, records, Field};
use crate::delimited::{all_readable, csv_headers, csv_outcome, csv_records, csv_rows, read_csv};
use crate::error::ConvertError;
use crate::excel::{excel_rows, read_excel, sheet, Cell};
use crate::format::LegacyFormat;
use crate::json::{list_text, table_fields, table_to_json};
use crate::names::{json_file_name, json_name, xlsx_file_name, xlsx_name};
use crate::sheet::{entries, sheet_entries, write_xlsx, Sheet};
use crate::text::{digits_value, is_digit, signed_value};
use crate::value::{fields, table, Row, RowView};

verus! {

broadcast use vstd::string::group_string_axioms;

/// What a conversion did.
#[derive(Debug, Clone, PartialEq)]
pub struct ConversionRecord {
    pub id: String,
    pub original_name: String,
    pub file_type: String,
    pub rows: usize,
    pub columns: usize,
    pub duplicates_removed: usize,
    pub timestamp: String,
    pub output_json: String,
    pub output_xlsx: String,
}

/// What an uploaded file holds, by its type.
#[derive(Debug, PartialEq)]
pub enum Input {
    Dbf(Vec<Vec<(String, Field)>>),
    Xls(Vec<Vec<Cell>>),
    Xlsx(Vec<Vec<Cell>>),
    Csv(Vec<u8>),
    Tsv(Vec<u8>),
    Unknown,
}

impl Input {
    /// The type of the file.
    pub open spec fn spec_format(&self) -> LegacyFormat {
        match self {
            Input::Dbf(_) => LegacyFormat::Dbf,
            Input::Xls(_) => LegacyFormat::Xls,
            Input::Xlsx(_) => LegacyFormat::Xlsx,
            Input::Csv(_) => LegacyFormat::Csv,
            Input::Tsv(_) => LegacyFormat::Tsv,
            Input::Unknown => LegacyFormat::Unknown,
        }
    }

    /// The type of the file.
    pub fn format(&self) -> (r: LegacyFormat)
        ensures
            r == self.spec_format(),
    {
        match self {
            Input::Dbf(_) => LegacyFormat::Dbf,
            Input::Xls(_) => LegacyFormat::Xls,
            Input::Xlsx(_) => LegacyFormat::Xlsx,
            Input::Csv(_) => LegacyFormat::Csv,
            Input::Tsv(_) => LegacyFormat::Tsv,
            Input::Unknown => LegacyFormat::Unknown,
        }
    }
}

/// The rows that reading a file gives, or why it gives none: records and worksheets always read,
/// comma- and tab-separated text as far as it can be read, and no other file.
pub open spec fn read_outcome(input: Input, r: Result<Vec<Row>, ConvertError>) -> bool {
    match input {
        Input::Dbf(list) => r is Ok && table(r->Ok_0@) == dbf_rows(records(list@)),
        Input::Xls(rows) => r is Ok && table(r->Ok_0@) == excel_rows(sheet(rows@)),
        Input::Xlsx(rows) => r is Ok && table(r->Ok_0@) == excel_rows(sheet(rows@)),
        Input::Csv(data) => csv_outcome(csv_headers(data@, 0x2c), csv_records(data@, 0x2c), r),
        Input::Tsv(data) => csv_outcome(csv_headers(data@, 0x09), csv_records(data@, 0x09), r),
        Input::Unknown => r matches Err(ConvertError::Unsupported),
    }
}

/// Reads what a file holds.
pub fn read_rows(input: &Input) -> (r: Result<Vec<Row>, ConvertError>)
    ensures
        read_outcome(*input, r),
{
    match input {
        Input::Dbf(list) => Ok(read_dbf(list)),
        Input::Xls(rows) => Ok(read_excel(rows)),
        Input::Xlsx(rows) => Ok(read_excel(rows)),
        Input::Csv(data) => read_csv(data.as_slice(), 0x2c),
        Input::Tsv(data) => read_csv(data.as_slice(), 0x09),
        Input::Unknown => Err(ConvertError::Unsupported),
    }
}

/// A curated table.
#[derive(Debug, PartialEq)]
pub struct Curated {
    pub rows: Vec<Row>,
    /// The number of fields of the first row that is not blank.
    pub columns: usize,
    pub duplicates_removed: usize,
}

/// The number of fields of the first row, or zero without rows.
pub open spec fn first_width(rows: Seq<RowView>) -> nat {
    if rows.len() == 0 {
        0
    } else {
        rows[0].len()
    }
}

/// `c` is what curating `rows` gives: blank rows go first, then of rows with the same JSON all
/// but one, which are counted.
pub open spec fn is_curated(rows: Seq<RowView>, c: Curated) -> bool {
    &&& table(c.rows@) == without_duplicates(without_blank_rows(rows))
    &&& c.columns == first_width(without_blank_rows(rows))
    &&& c.duplicates_removed == without_blank_rows(rows).len() - c.rows@.len()
}

/// Curates a table.
pub fn curate(rows: Vec<Row>) -> (r: Curated)
    ensures
        is_curated(table(rows@), r),
{
    let cleaned = drop_empty_rows(rows);
    assert(table(cleaned@).len() == cleaned@.len());
    let columns: usize = if cleaned.len() == 0 {
        0
    } else {
        cleaned[0].len()
    };
    let (kept, duplicates_removed) = deduplicate(cleaned);
    Curated { rows: kept, columns, duplicates_removed }
}

/// A converted file: the clean files to write and what to report once they are written.
#[derive(Debug, PartialEq)]
pub struct Conversion {
    pub id: String,
    pub original_name: String,
    pub file_type: String,
    pub table: Curated,
    /// The clean rows as JSON.
    pub json: String,
    /// The clean rows as a worksheet.
    pub sheet: Sheet,
}

/// `c` is what converting the rows of a file gives.
pub open spec fn is_conversion(format: LegacyFormat, rows: Seq<RowView>, original_name: Seq<char>, job_id: Seq<char>, c: Conversion) -> bool {
    &&& c.id@ == job_id
    &&& c.original_name@ == original_name
    &&& c.file_type@ == format.file_type()
    &&& is_curated(rows, c.table)
    &&& c.json@ == list_text(table_fields(table(c.table.rows@)))
    &&& entries(c.sheet.entries@) == sheet_entries(table(c.table.rows@))
    &&& c.table.rows@.len() == 0 ==> c.sheet.name is None
    &&& c.table.rows@.len() > 0 ==> c.sheet.name is Some && c.sheet.name->0@ == "Clean Data"@
}

/// Converts the rows of a file.
pub fn convert_rows(format: LegacyFormat, rows: Vec<Row>, original_name: &str, job_id: &str) -> (r: Conversion)
    ensures
        is_conversion(format, table(rows@), original_name@, job_id@, r),
{
    let curated = curate(rows);
    let json = table_to_json(&curated.rows);
    let sheet = write_xlsx(&curated.rows);
    Conversion {
        id: job_id.to_string(),
        original_name: original_name.to_string(),
        file_type: format.name(),
        table: curated,
        json,
        sheet,
    }
}

/// The rows of a file that can be read.
pub open spec fn rows_of(input: Input) -> Option<Seq<RowView>> {
    match input {
        Input::Dbf(list) => Some(dbf_rows(records(list@))),
        Input::Xls(rows) => Some(excel_rows(sheet(rows@))),
        Input::Xlsx(rows) => Some(excel_rows(sheet(rows@))),
        Input::Csv(data) => delimited_rows(data@, 0x2c),
        Input::Tsv(data) => delimited_rows(data@, 0x09),
        Input::Unknown => None,
    }
}

/// The rows of delimited data, where all of it can be read.
pub open spec fn delimited_rows(data: Seq<u8>, delimiter: u8) -> Option<Seq<RowView>> {
    if csv_headers(data, delimiter) is Some && all_readable(csv_records(data, delimiter)) {
        Some(csv_rows(csv_headers(data, delimiter)->0, csv_records(data, delimiter)))
    } else {
        None
    }
}

/// Converts a file: what cannot be read is reported as the reader reports it, and what can be
/// read is curated and laid out for both clean files.
pub fn convert_legacy(input: &Input, original_name: &str, job_id: &str) -> (r: Result<Conversion, ConvertError>)
    ensures
        rows_of(*input) is Some ==> r is Ok && is_conversion(
            input.spec_format(),
            rows_of(*input)->0,
            original_name@,
            job_id@,
            r->Ok_0,
        ),
        rows_of(*input) is None ==> r is Err && read_outcome(*input, Err(r->Err_0)),
{
    match read_rows(input) {
        Ok(rows) => Ok(convert_rows(input.format(), rows, original_name, job_id)),
        Err(e) => Err(e),
    }
}

// The record.

/// `r` is the record of a conversion that was finished at `timestamp`.
pub open spec fn is_record_of(c: Conversion, timestamp: Seq<char>, r: ConversionRecord) -> bool {
    &&& r.id@ == c.id@
    &&& r.original_name@ == c.original_name@
    &&& r.file_type@ == c.file_type@
    &&& r.rows == c.table.rows@.len()
    &&& r.columns == c.table.columns
    &&& r.duplicates_removed == c.table.duplicates_removed
    &&& r.timestamp@ == timestamp
    &&& r.output_json@ == json_name(c.id@)
    &&& r.output_xlsx@ == xlsx_name(c.id@)
}

/// Makes the record of a conversion.
pub fn record_at(c: &Conversion, timestamp: String) -> (r: ConversionRecord)
    ensures
        is_record_of(*c, timestamp@, r),
{
    ConversionRecord {
        id: c.id.clone(),
        original_name: c.original_name.clone(),
        file_type: c.file_type.clone(),
        rows: c.table.rows.len(),
        columns: c.table.columns,
        duplicates_removed: c.table.duplicates_removed,
        timestamp,
        output_json: json_file_name(c.id.as_str()),
        output_xlsx: xlsx_file_name(c.id.as_str()),
    }
}

/// Two decimal digits from `i` on that stand for a number from `low` to `high`.
pub open spec fn two_digits_at(s: Seq<char>, i: int, low: int, high: int) -> bool {
    &&& is_digit(s[i]) && is_digit(s[i + 1])
    &&& low <= digits_value(s.subrange(i, i + 2)) <= high
}

/// The number of days of a month of the Gregorian calendar.
pub open spec fn days_of(year: int, month: nat) -> int {
    if month == 2 {
        if year % 4 == 0 && (year % 100 != 0 || year % 400 == 0) {
            29
        } else {
            28
        }
    } else if month == 4 || month == 6 || month == 9 || month == 11 {
        30
    } else {
        31
    }
}

/// A time of UTC in whole seconds: `YYYY-MM-DDTHH:MM:SSZ`, the year in four digits, or in more with
/// a sign where it does not fit four, the day one of its month. A leap second is the sixtieth.
pub open spec fn is_timestamp(s: Seq<char>) -> bool {
    let n = s.len() - 16;
    &&& n >= 4
    &&& forall|i: int| 1 <= i < n ==> is_digit(#[trigger] s[i])
    &&& is_digit(s[0]) && n == 4 || (s[0] == '+' || s[0] == '-') && n >= 5
    &&& s[n] == '-' && two_digits_at(s, n + 1, 1, 12)
    &&& s[n + 3] == '-' && two_digits_at(
        s,
        n + 4,
        1,
        days_of(signed_value(s.take(n)), digits_value(s.subrange(n + 1, n + 3))),
    )
    &&& s[n + 6] == 'T' && two_digits_at(s, n + 7, 0, 23)
    &&& s[n + 9] == ':' && two_digits_at(s, n + 10, 0, 59)
    &&& s[n + 12] == ':' && two_digits_at(s, n + 13, 0, 60)
    &&& s[n + 15] == 'Z'
}

/// `chrono::Utc::now`, written by `to_rfc3339_opts` in whole seconds with `Z`: a date of the
/// Gregorian calendar and a time of the day. It is the time of the call, another one each time. It
/// relies on a clock that is not set before 1970.
#[verifier::external_body]
fn timestamp_now() -> (r: String)
    ensures
        is_timestamp(r@),
{
    chrono::Utc::now().to_rfc3339_opts(chrono::SecondsFormat::Secs, true)
}

/// Makes the record of a conversion that is finished now.
pub fn record_now(c: &Conversion) -> (r: ConversionRecord)
    ensures
        is_timestamp(r.timestamp@),
        is_record_of(*c, r.timestamp@, r),
{
    record_at(c, timestamp_now())
}

// Laws.

/// Where no row is blank, none goes.
proof fn lemma_full_rows_stay(rows: Seq<RowView>)
    requires
        forall|i: int| 0 <= i < rows.len() ==> !is_blank_row(#[trigger] rows[i]),
    ensures
        without_blank_rows(rows) == rows,
    decreases rows.len(),
{
    reveal(Seq::filter);
    if rows.len() > 0 {
        let front = rows.drop_last();
        assert forall|i: int| 0 <= i < front.len() implies !is_blank_row(#[trigger] front[i]) by {
            assert(!is_blank_row(rows[i]));
        }
        lemma_full_rows_stay(front);
        assert(!is_blank_row(rows[rows.len() - 1]));
        assert(front.push(rows.last()) =~= rows);
    }
}

/// Curating a curated table changes nothing and finds no duplicates, and its width stays.
pub proof fn curating_twice_is_curating_once(rows: Seq<RowView>, c: Curated, again: Curated)
    requires
        is_curated(rows, c),
        is_curated(table(c.rows@), again),
    ensures
        table(again.rows@) == table(c.rows@),
        again.duplicates_removed == 0,
        again.columns == c.columns,
{
    let cleaned = without_blank_rows(rows);
    let kept = without_duplicates(cleaned);
    assert forall|i: int| 0 <= i < kept.len() implies !is_blank_row(#[trigger] kept[i]) by {
        curated_rows_are_clean(rows, i);
    }
    lemma_full_rows_stay(kept);
    duplicates_go_once(cleaned);
    assert(table(again.rows@).len() == again.rows@.len());
    if cleaned.len() > 0 {
        the_first_row_stays(cleaned);
    } else {
        assert(kept =~= Seq::empty());
    }
}

/// The rows that are reported, with the duplicates, are the rows that are not blank.
pub proof fn the_record_accounts_for_every_row(format: LegacyFormat, rows: Seq<RowView>, name: Seq<char>, id: Seq<char>, c: Conversion, timestamp: Seq<char>, r: ConversionRecord)
    requires
        is_conversion(format, rows, name, id, c),
        is_record_of(c, timestamp, r),
    ensures
        r.rows + r.duplicates_removed == without_blank_rows(rows).len(),
        r.rows + r.duplicates_removed <= rows.len(),
        r.rows == without_duplicates(without_blank_rows(rows)).len(),
        r.rows == 0 ==> r.columns == 0,
{
    assert(table(c.table.rows@).len() == c.table.rows@.len());
    just_the_blank_rows_go(rows, Seq::empty());
    if without_blank_rows(rows).len() > 0 {
        the_first_row_stays(without_blank_rows(rows));
    }
}

/// A file without a row that is not blank becomes a worksheet with a note and no other cell.
pub proof fn an_empty_table_becomes_a_note(format: LegacyFormat, rows: Seq<RowView>, name: Seq<char>, id: Seq<char>, c: Conversion)
    requires
        is_conversion(format, rows, name, id, c),
        forall|i: int| 0 <= i < rows.len() ==> is_blank_row(#[trigger] rows[i]),
    ensures
        c.table.rows@.len() == 0,
        c.table.columns == 0,
        entries(c.sheet.entries@) == sheet_entries(Seq::empty()),
{
    let cleaned = without_blank_rows(rows);
    if cleaned.len() > 0 {
        just_the_blank_rows_go(rows, cleaned[0]);
        assert(cleaned.contains(cleaned[0]));
        let i = choose|i: int| 0 <= i < rows.len() && rows[i] == cleaned[0];
        assert(is_blank_row(rows[i]));
    }
    assert(table(c.table.rows@).len() == c.table.rows@.len());
    assert(table(c.table.rows@) =~= Seq::empty());
}

/// What a file holds goes to the reader for its type: records and worksheets always give rows,
/// comma-separated text is taken apart at commas and tab-separated text at tabs, and a file of
/// another type gives an error.
pub proof fn files_go_to_their_readers(input: Input, r: Result<Vec<Row>, ConvertError>)
    requires
        read_outcome(input, r),
    ensures
        input matches Input::Dbf(list) ==> r is Ok && table(r->Ok_0@) == dbf_rows(records(list@)),
        input matches Input::Xls(rows) ==> r is Ok && table(r->Ok_0@) == excel_rows(sheet(rows@)),
        input matches Input::Xlsx(rows) ==> r is Ok && table(r->Ok_0@) == excel_rows(sheet(rows@)),
        input matches Input::Csv(data) ==> csv_outcome(
            csv_headers(data@, ',' as u8),
            csv_records(data@, ',' as u8),
            r,
        ),
        input matches Input::Tsv(data) ==> csv_outcome(
            csv_headers(data@, '\t' as u8),
            csv_records(data@, '\t' as u8),
            r,
        ),
        input is Unknown ==> r is Err && r->Err_0 is Unsupported,
        r is Ok <==> rows_of(input) is Some,
        r is Ok ==> rows_of(input) == Some(table(r->Ok_0@)),
{
}

/// A file is of the type that its contents were read as.
pub proof fn files_have_their_type(input: Input)
    ensures
        input is Dbf <==> input.spec_format() == LegacyFormat::Dbf,
        input is Xls <==> input.spec_format() == LegacyFormat::Xls,
        input is Xlsx <==> input.spec_format() == LegacyFormat::Xlsx,
        input is Csv <==> input.spec_format() == LegacyFormat::Csv,
        input is Tsv <==> input.spec_format() == LegacyFormat::Tsv,
        input is Unknown <==> input.spec_format() == LegacyFormat::Unknown,
{
}

/// A curated table holds rows of the table with a value, no two of them the same object, and each
/// row with a value has its object there. Every other row with a value is counted as a duplicate,
/// and the columns are those of the first row.
pub proof fn curated_tables_hold_each_row_once(rows: Seq<RowView>, c: Curated, i: int, j: int, row: RowView)
    requires
        is_curated(rows, c),
    ensures
        0 <= i < c.rows@.len() ==> rows.contains(c.rows@[i]@) && exists|k: int|
            0 <= k < c.rows@[i]@.len() && ((#[trigger] c.rows@[i]@[k]).1 is Num || c.rows@[i]@[k].1 is Bool
                || c.rows@[i]@[k].1 is Text && c.rows@[i]@[k].1->Text_0.len() > 0),
        0 <= i < j < c.rows@.len() ==> fields(c.rows@[i]@) != fields(c.rows@[j]@),
        rows.contains(row) && (exists|k: int|
            0 <= k < row.len() && ((#[trigger] row[k]).1 is Num || row[k].1 is Bool || row[k].1 is Text && row[k].1->Text_0.len()
                > 0)) ==> exists|k: int| 0 <= k < c.rows@.len() && fields(#[trigger] c.rows@[k]@) == fields(row),
        c.rows@.len() + c.duplicates_removed == without_blank_rows(rows).len(),
        c.rows@.len() == 0 ==> c.columns == 0 && c.duplicates_removed == 0,
        c.rows@.len() > 0 ==> c.columns == c.rows@[0]@.len(),
        is_subsequence(table(c.rows@), without_blank_rows(rows)),
        is_subsequence(without_blank_rows(rows), rows),
{
    let cleaned = without_blank_rows(rows);
    let kept = without_duplicates(cleaned);
    assert(table(c.rows@).len() == c.rows@.len());
    if 0 <= i < c.rows@.len() {
        assert(table(c.rows@)[i] == c.rows@[i]@);
        curated_rows_are_clean(rows, i);
        assert(cleaned.contains(kept[i])) by {
            just_the_blank_rows_go(rows, kept[i]);
        }
        rows_with_a_value_stay(rows, kept[i]);
    }
    if 0 <= i < j < c.rows@.len() {
        assert(table(c.rows@)[i] == c.rows@[i]@ && table(c.rows@)[j] == c.rows@[j]@);
        no_duplicates_are_left(cleaned, i, j);
    }
    rows_with_a_value_stay(rows, row);
    if cleaned.contains(row) {
        every_row_stays_once(cleaned, fields(row), row);
        let a = choose|a: int| 0 <= a < cleaned.len() && cleaned[a] == row;
        assert(table_fields(cleaned)[a] == fields(row));
        assert(table_fields(kept).contains(fields(row)));
        let k = choose|k: int| 0 <= k < table_fields(kept).len() && table_fields(kept)[k] == fields(row);
        assert(table(c.rows@)[k] == c.rows@[k]@);
        assert(fields(c.rows@[k]@) == fields(row));
    }
    if cleaned.len() > 0 {
        the_first_row_stays(cleaned);
        assert(table(c.rows@)[0] == c.rows@[0]@);
    } else {
        assert(kept =~= Seq::empty());
    }
    curation_keeps_the_order(rows);
    curation_keeps_the_order(cleaned);
}

/// A conversion keeps what it was asked for, and lays out the same curated rows in both files: as
/// the list of their objects, and as the worksheet with the name and the cells of the table.
pub proof fn both_files_hold_the_curated_rows(
    format: LegacyFormat,
    rows: Seq<RowView>,
    name: Seq<char>,
    id: Seq<char>,
    c: Conversion,
)
    requires
        is_conversion(format, rows, name, id, c),
    ensures
        c.id@ == id,
        c.original_name@ == name,
        c.file_type@ == format.file_type(),
        is_curated(rows, c.table),
        c.json@ == list_text(table_fields(table(c.table.rows@))),
        entries(c.sheet.entries@) == sheet_entries(table(c.table.rows@)),
        c.table.rows@.len() == 0 <==> c.sheet.name is None,
        c.sheet.name matches Some(s) ==> s@ == seq!['C', 'l', 'e', 'a', 'n', ' ', 'D', 'a', 't', 'a'],
{
    reveal_strlit("Clean Data");
    assert("Clean Data"@ =~= seq!['C', 'l', 'e', 'a', 'n', ' ', 'D', 'a', 't', 'a']);
}

/// The record of a job says what was asked for, what came of it and when, and names the two files
/// of the job.
pub proof fn records_tell_the_job(
    format: LegacyFormat,
    rows: Seq<RowView>,
    name: Seq<char>,
    id: Seq<char>,
    c: Conversion,
    timestamp: Seq<char>,
    r: ConversionRecord,
)
    requires
        is_conversion(format, rows, name, id, c),
        is_record_of(c, timestamp, r),
    ensures
        r.id@ == id,
        r.original_name@ == name,
        r.file_type@ == format.file_type(),
        r.rows == c.table.rows@.len(),
        r.columns == c.table.columns,
        r.duplicates_removed == c.table.duplicates_removed,
        r.timestamp@ == timestamp,
        r.output_json@ == json_name(id),
        r.output_xlsx@ == xlsx_name(id),
{
}

} // verus!
