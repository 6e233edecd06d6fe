//! Worksheets: the first row names the columns, each other row becomes a row of the table.
use vstd::prelude::*;

use crate::cast::{cast_text, text_value};
use crate::delimited::{column_key, key_of_column, number_key, numbered_key, texts};
use crate::error::ConvertError;
use crate::json::{finite, float_datum, float_num, Float};
use crate::text::{
    decimal, decimal_text, decimals_are_plain_digits, int_of_text, int_text, int_to_text,
    only_digits_read_as_whole_numbers, trimmed, whole_numbers_are_written_plainly,
};
use crate::value::{
    distinct_keys, distinct_settings_all_stay, one_setting_more, row_of, rows_have_distinct_keys, table,
    the_last_setting_counts, Datum, DatumView, Num, NumView, Row, RowView,
};

verus! {

broadcast use vstd::string::group_string_axioms;

/// A worksheet cell.
#[derive(Debug, PartialEq)]
pub enum Cell {
    Text(String),
    /// A float: how it is shown, and the JSON number for it where it is finite.
    Float { shown: String, number: Option<Float> },
    Int(i64),
    Bool(bool),
    Empty,
    /// A date, a duration or an error, as it is shown.
    Other(String),
}

/// What a [`Cell`] is, with its text as a sequence of characters.
#[verifier::ext_equal]
pub enum CellView {
    Text(Seq<char>),
    Float { shown: Seq<char>, number: Option<serde_json::Number> },
    Int(i64),
    Bool(bool),
    Empty,
    Other(Seq<char>),
}

impl View for Cell {
    type V = CellView;

    open spec fn view(&self) -> CellView {
        match self {
            Cell::Text(s) => CellView::Text(s@),
            Cell::Float { shown, number } => CellView::Float { shown: shown@, number: finite(*number) },
            Cell::Int(i) => CellView::Int(*i),
            Cell::Bool(b) => CellView::Bool(*b),
            Cell::Empty => CellView::Empty,
            Cell::Other(s) => CellView::Other(s@),
        }
    }
}

/// The cells of a worksheet row.
pub open spec fn cells(row: Seq<Cell>) -> Seq<CellView> {
    row.map_values(|c: Cell| c@)
}

/// The rows of a worksheet.
pub open spec fn sheet(rows: Seq<Vec<Cell>>) -> Seq<Seq<CellView>> {
    rows.map_values(|row: Vec<Cell>| cells(row@))
}

// Headers.

/// The name that a cell of the first row gives its column.
pub open spec fn header_name(cell: CellView) -> Seq<char> {
    match cell {
        CellView::Text(s) => trimmed(s),
        CellView::Float { shown, .. } => shown,
        CellView::Int(i) => int_text(i as int),
        _ => "column"@,
    }
}

/// The name of column `i`: the one its first cell gives, or its number where that is empty.
pub open spec fn column_name(cell: CellView, i: int) -> Seq<char> {
    if header_name(cell).len() == 0 {
        numbered_key(i)
    } else {
        header_name(cell)
    }
}

/// A name with the index of its column behind it.
pub open spec fn indexed(name: Seq<char>, i: int) -> Seq<char> {
    name + seq!['_'] + decimal(i as nat)
}

/// The length of the longest of the texts.
pub open spec fn longest(list: Seq<Seq<char>>) -> nat
    decreases list.len(),
{
    if list.len() == 0 {
        0
    } else if longest(list.drop_last()) < list.last().len() {
        list.last().len()
    } else {
        longest(list.drop_last())
    }
}

/// No text is longer than the longest.
proof fn lemma_longest(list: Seq<Seq<char>>, s: Seq<char>)
    requires
        list.contains(s),
    ensures
        s.len() <= longest(list),
    decreases list.len(),
{
    let i = choose|i: int| 0 <= i < list.len() && list[i] == s;
    if i < list.len() - 1 {
        assert(list.drop_last()[i] == s);
        lemma_longest(list.drop_last(), s);
    }
}

/// How far a name is from being longer than all that are taken.
pub open spec fn room(taken: Seq<Seq<char>>, name: Seq<char>) -> nat {
    if name.len() > longest(taken) {
        0
    } else {
        (longest(taken) + 1 - name.len()) as nat
    }
}

/// The key of column `i` among those that are taken: its name, with the index of the column behind
/// it where the name is taken, and once more where that is.
pub open spec fn told_apart(taken: Seq<Seq<char>>, name: Seq<char>, i: int) -> Seq<char>
    decreases room(taken, name),
    via told_apart_ends
{
    if taken.contains(name) {
        told_apart(taken, indexed(name, i), i)
    } else {
        name
    }
}

#[via_fn]
proof fn told_apart_ends(taken: Seq<Seq<char>>, name: Seq<char>, i: int) {
    if taken.contains(name) {
        lemma_longest(taken, name);
    }
}

/// The keys of the columns under these first cells: each column's name, told apart from the keys
/// before it.
pub open spec fn header_keys(first: Seq<CellView>) -> Seq<Seq<char>>
    decreases first.len(),
{
    if first.len() == 0 {
        Seq::empty()
    } else {
        let earlier = header_keys(first.drop_last());
        let i = first.len() - 1;
        earlier.push(told_apart(earlier, column_name(first.last(), i), i))
    }
}

/// Makes the name that a cell of the first row gives its column.
fn name_of(cell: &Cell) -> (r: String)
    ensures
        r@ == header_name(cell@),
{
    match cell {
        Cell::Text(s) => s.as_str().trim().to_string(),
        Cell::Float { shown, .. } => shown.clone(),
        Cell::Int(i) => int_to_text(*i),
        _ => "column".to_string(),
    }
}

/// Is the text on the list?
fn holds(list: &Vec<String>, s: &String) -> (r: bool)
    ensures
        r == texts(list@).contains(s@),
{
    let mut i: usize = 0;
    while i < list.len()
        invariant
            i <= list@.len(),
            forall|j: int| 0 <= j < i ==> (#[trigger] texts(list@)[j]) != s@,
        decreases list@.len() - i,
    {
        if list[i] == *s {
            assert(texts(list@)[i as int] == s@);
            return true;
        }
        i = i + 1;
    }
    false
}

/// Makes the keys of the columns.
pub fn excel_headers(first: &Vec<Cell>) -> (r: Vec<String>)
    ensures
        texts(r@) == header_keys(cells(first@)),
{
    let ghost all = cells(first@);
    let mut r: Vec<String> = Vec::new();
    let mut i: usize = 0;
    assert(texts(r@) =~= header_keys(all.take(0)));
    while i < first.len()
        invariant
            i <= first@.len(),
            all == cells(first@),
            texts(r@) == header_keys(all.take(i as int)),
        decreases first@.len() - i,
    {
        let ghost earlier = texts(r@);
        let name = name_of(&first[i]);
        let mut key = if name.as_str().is_empty() {
            number_key(i)
        } else {
            name
        };
        let ghost column = column_name(all[i as int], i as int);
        assert(key@ == column);
        while holds(&r, &key)
            invariant
                texts(r@) == earlier,
                told_apart(earlier, key@, i as int) == told_apart(earlier, column, i as int),
            decreases room(earlier, key@),
        {
            proof {
                lemma_longest(earlier, key@);
            }
            let ghost before = key@;
            key.push('_');
            key.append(decimal_text(i as u64).as_str());
            assert(key@ =~= indexed(before, i as int));
        }
        r.push(key);
        assert(all.take(i + 1).drop_last() =~= all.take(i as int));
        assert(texts(r@) =~= earlier.push(key@));
        i = i + 1;
    }
    assert(all.take(all.len() as int) =~= all);
    r
}

// Values.

/// The value of a cell.
pub open spec fn cell_value(cell: CellView) -> DatumView {
    match cell {
        CellView::Text(s) => text_value(s),
        CellView::Float { number, .. } => DatumView::Num(float_num(number)),
        CellView::Int(i) => DatumView::Num(NumView::Int(i)),
        CellView::Bool(b) => DatumView::Bool(b),
        CellView::Empty => DatumView::Null,
        CellView::Other(s) => DatumView::Text(s),
    }
}

/// Casts a cell.
pub fn cast_cell(cell: &Cell) -> (r: Datum)
    ensures
        r@ == cell_value(cell@),
{
    match cell {
        Cell::Text(s) => cast_text(s.as_str()),
        Cell::Float { number, .. } => match number {
            Some(n) => float_datum(Some(n.clone())),
            None => float_datum(None),
        },
        Cell::Int(i) => Datum::Num(Num::Int(*i)),
        Cell::Bool(b) => Datum::Bool(*b),
        Cell::Empty => Datum::Null,
        Cell::Other(s) => Datum::Text(s.clone()),
    }
}

// Rows.

/// The columns of a worksheet row: each cell, cast, under the key of its place.
pub open spec fn excel_pairs(keys: Seq<Seq<char>>, row: Seq<CellView>) -> RowView {
    Seq::new(row.len(), |i: int| (column_key(keys, i), cell_value(row[i])))
}

/// The row of a worksheet row.
pub open spec fn excel_row(keys: Seq<Seq<char>>, row: Seq<CellView>) -> RowView {
    row_of(excel_pairs(keys, row))
}

/// The rows of a worksheet: none where it is empty, else one for each row after the first.
pub open spec fn excel_rows(rows: Seq<Seq<CellView>>) -> Seq<RowView> {
    if rows.len() == 0 {
        Seq::empty()
    } else {
        Seq::new((rows.len() - 1) as nat, |i: int| excel_row(header_keys(rows[0]), rows[i + 1]))
    }
}

/// Makes the row of a worksheet row.
fn cells_to_row(keys: &Vec<String>, row: &Vec<Cell>) -> (r: Row)
    ensures
        r@ == excel_row(texts(keys@), cells(row@)),
{
    let ghost pairs = excel_pairs(texts(keys@), cells(row@));
    let mut r = Row::new();
    let mut i: usize = 0;
    assert(pairs.take(0) =~= RowView::empty());
    while i < row.len()
        invariant
            i <= row@.len(),
            pairs == excel_pairs(texts(keys@), cells(row@)),
            r@ == row_of(pairs.take(i as int)),
        decreases row@.len() - i,
    {
        let key = key_of_column(keys, i);
        let value = cast_cell(&row[i]);
        r.insert(key, value);
        assert(pairs.take(i + 1).drop_last() =~= pairs.take(i as int));
        i = i + 1;
    }
    assert(pairs.take(row@.len() as int) =~= pairs);
    r
}

/// Picks the sheet to read: the first.
pub fn first_sheet(names: &Vec<String>) -> (r: Result<String, ConvertError>)
    ensures
        names@.len() == 0 ==> r matches Err(ConvertError::NoSheets),
        names@.len() > 0 ==> r is Ok && r->Ok_0@ == names@[0]@,
{
    if names.len() == 0 {
        Err(ConvertError::NoSheets)
    } else {
        Ok(names[0].clone())
    }
}

/// Reads the cells of a worksheet.
pub fn read_excel(rows: &Vec<Vec<Cell>>) -> (r: Vec<Row>)
    ensures
        table(r@) == excel_rows(sheet(rows@)),
{
    let mut r: Vec<Row> = Vec::new();
    if rows.len() == 0 {
        assert(table(r@) =~= excel_rows(sheet(rows@)));
        return r;
    }
    let keys = excel_headers(&rows[0]);
    let mut i: usize = 1;
    while i < rows.len()
        invariant
            1 <= i <= rows@.len(),
            r@.len() == i - 1,
            texts(keys@) == header_keys(sheet(rows@)[0]),
            forall|j: int| 0 <= j < i - 1 ==> (#[trigger] r@[j])@ == excel_row(header_keys(sheet(rows@)[0]), sheet(rows@)[j + 1]),
        decreases rows@.len() - i,
    {
        r.push(cells_to_row(&keys, &rows[i]));
        i = i + 1;
    }
    assert(table(r@) =~= excel_rows(sheet(rows@)));
    r
}

// Laws.

/// A name that is told apart is none of those that are taken. It stays where it is not taken, and
/// else starts with the name and the index of its column.
proof fn lemma_told_apart(taken: Seq<Seq<char>>, name: Seq<char>, i: int)
    ensures
        !taken.contains(told_apart(taken, name, i)),
        !taken.contains(name) ==> told_apart(taken, name, i) == name,
        taken.contains(name) ==> indexed(name, i).is_prefix_of(told_apart(taken, name, i)),
        name.len() <= told_apart(taken, name, i).len(),
    decreases room(taken, name),
{
    if taken.contains(name) {
        lemma_longest(taken, name);
        lemma_told_apart(taken, indexed(name, i), i);
        let next = indexed(name, i);
        if taken.contains(next) {
            assert(next =~= indexed(next, i).take(next.len() as int));
        }
    }
}

/// The keys of the columns but the last are the keys but the last.
proof fn lemma_header_keys_front(first: Seq<CellView>, i: int)
    requires
        0 <= i < first.len(),
    ensures
        header_keys(first).len() == first.len(),
        header_keys(first).take(i) == header_keys(first.take(i)),
        header_keys(first)[i] == told_apart(header_keys(first.take(i)), column_name(first[i], i), i),
    decreases first.len(),
{
    let front = first.drop_last();
    if i < front.len() {
        lemma_header_keys_front(front, i);
        assert(front.take(i) =~= first.take(i));
        assert(header_keys(first).take(i) =~= header_keys(front).take(i));
    } else {
        assert(first.take(i) =~= front);
        if front.len() > 0 {
            lemma_header_keys_front(front, front.len() - 1);
        }
        assert(header_keys(first).take(i) =~= header_keys(front));
    }
}

/// Each column has a key, and no two columns have the same.
pub proof fn header_keys_are_distinct(first: Seq<CellView>, i: int, j: int)
    requires
        0 <= i < j < first.len(),
    ensures
        header_keys(first).len() == first.len(),
        header_keys(first)[i] != header_keys(first)[j],
{
    lemma_header_keys_front(first, j);
    let taken = header_keys(first).take(j);
    lemma_told_apart(taken, column_name(first[j], j), j);
    assert(taken[i] == header_keys(first)[i]);
}

/// A column's key is its name where no column before it has that key; else the name is followed by
/// the column's index.
pub proof fn repeated_names_get_their_index(first: Seq<CellView>, i: int)
    requires
        0 <= i < first.len(),
    ensures
        header_keys(first).len() == first.len(),
        !header_keys(first).take(i).contains(column_name(first[i], i)) ==> header_keys(first)[i] == column_name(
            first[i],
            i,
        ),
        header_keys(first).take(i).contains(column_name(first[i], i)) ==> indexed(
            column_name(first[i], i),
            i,
        ).is_prefix_of(header_keys(first)[i]),
{
    lemma_header_keys_front(first, i);
    lemma_told_apart(header_keys(first.take(i)), column_name(first[i], i), i);
}

/// No column of a worksheet has an empty key.
pub proof fn no_column_key_is_empty(first: Seq<CellView>, i: int)
    requires
        0 <= i < first.len(),
    ensures
        header_keys(first).len() == first.len(),
        header_keys(first)[i].len() > 0,
{
    reveal_strlit("col_");
    lemma_header_keys_front(first, i);
    lemma_told_apart(header_keys(first.take(i)), column_name(first[i], i), i);
}

/// No column is lost: a row that is no longer than the first has a field for each of its cells, in
/// their order.
pub proof fn no_column_is_lost(first: Seq<CellView>, row: Seq<CellView>)
    requires
        row.len() <= first.len(),
    ensures
        excel_row(header_keys(first), row) == excel_pairs(header_keys(first), row),
        excel_row(header_keys(first), row).len() == row.len(),
{
    let pairs = excel_pairs(header_keys(first), row);
    assert forall|i: int, j: int| 0 <= i < j < pairs.len() implies #[trigger] pairs[i].0 != #[trigger] pairs[j].0 by {
        header_keys_are_distinct(first, i, j);
    }
    distinct_settings_all_stay(pairs);
}

/// A worksheet gives one row less than it has, and every row has each key once.
pub proof fn excel_rows_have_distinct_keys(rows: Seq<Seq<CellView>>, i: int)
    requires
        0 <= i < rows.len() - 1,
    ensures
        excel_rows(rows).len() == rows.len() - 1,
        distinct_keys(excel_rows(rows)[i]),
{
    rows_have_distinct_keys(excel_pairs(header_keys(rows[0]), rows[i + 1]));
}

/// A cell is seen as what it holds.
pub proof fn cells_are_what_they_hold(c: Cell)
    ensures
        c matches Cell::Text(s) ==> c@ == CellView::Text(s@),
        c matches Cell::Float { shown, number: Some(f) } ==> c@ == (CellView::Float { shown: shown@, number: Some(f@) }),
        c matches Cell::Float { shown, number: None } ==> c@ == (CellView::Float { shown: shown@, number: None }),
        c matches Cell::Int(i) ==> c@ == CellView::Int(i),
        c matches Cell::Bool(b) ==> c@ == CellView::Bool(b),
        c matches Cell::Empty ==> c@ == CellView::Empty,
        c matches Cell::Other(s) ==> c@ == CellView::Other(s@),
{
}

/// A worksheet is seen cell by cell, in order.
pub proof fn worksheets_are_their_cells(rows: Seq<Vec<Cell>>, i: int, j: int)
    requires
        0 <= i < rows.len(),
        0 <= j < rows[i]@.len(),
    ensures
        sheet(rows).len() == rows.len(),
        sheet(rows)[i] == cells(rows[i]@),
        sheet(rows)[i].len() == rows[i]@.len(),
        sheet(rows)[i][j] == rows[i]@[j]@,
{
}

/// A number is taken over as the number it is, a truth value and a text that stands for a date or
/// an error as they are, an empty cell as null, and a text as what it reads as.
pub proof fn cells_are_taken_over(c: Cell)
    ensures
        c matches Cell::Int(i) ==> cell_value(c@) == DatumView::Num(NumView::Int(i)),
        c matches Cell::Float { shown, number: Some(f) } ==> cell_value(c@) == DatumView::Num(NumView::Float(f@)),
        c matches Cell::Float { shown, number: None } ==> cell_value(c@) == DatumView::Num(NumView::Int(0)),
        c matches Cell::Bool(b) ==> cell_value(c@) == DatumView::Bool(b),
        c matches Cell::Empty ==> cell_value(c@) == DatumView::Null,
        c matches Cell::Other(s) ==> cell_value(c@) == DatumView::Text(s@),
        c matches Cell::Text(s) ==> cell_value(c@) == text_value(s@),
        cell_value(c@) is Null ==> c is Empty,
{
    if let Cell::Text(s) = c {
        crate::cast::only_words_become_truth_values(s@);
    }
}

/// A column is named by the cell above it: by a text without the white space around it, by a number
/// as it is written, by `column` where the cell is something else, and by its number where the name
/// is empty.
pub proof fn columns_are_named_by_their_cells(c: Cell, i: int)
    requires
        0 <= i <= i64::MAX,
    ensures
        c matches Cell::Text(s) ==> trimmed(s@).len() > 0 ==> column_name(c@, i) == trimmed(s@),
        c matches Cell::Text(s) ==> trimmed(s@).len() == 0 ==> column_name(c@, i) == numbered_key(i),
        c matches Cell::Float { shown, number } ==> shown@.len() > 0 ==> column_name(c@, i) == shown@,
        c matches Cell::Float { shown, number } ==> shown@.len() == 0 ==> column_name(c@, i) == numbered_key(i),
        c matches Cell::Int(n) ==> column_name(c@, i) == int_text(n as int) && int_of_text(column_name(c@, i)) == Some(n),
        c is Bool || c is Empty || c is Other ==> column_name(c@, i) == seq!['c', 'o', 'l', 'u', 'm', 'n'],
{
    reveal_strlit("column");
    if let Cell::Int(n) = c {
        whole_numbers_are_written_plainly(n);
        only_digits_read_as_whole_numbers(int_text(n as int));
    }
    assert("column"@ =~= seq!['c', 'o', 'l', 'u', 'm', 'n']);
}

/// The key of a column that repeats another is its name, an underscore, the column's index in
/// decimal, which reads back, and this once more wherever that is a key already.
pub proof fn repeated_columns_carry_their_index(first: Seq<CellView>, i: int)
    requires
        0 <= i < first.len(),
        i <= i64::MAX,
        exists|j: int| 0 <= j < i && #[trigger] header_keys(first)[j] == column_name(first[i], i),
    ensures
        ({
            let n = column_name(first[i], i).len() as int;
            let m = decimal(i as nat).len() as int;
            let key = header_keys(first)[i];
            &&& key.len() >= n + 1 + m
            &&& key.take(n) == column_name(first[i], i)
            &&& key[n] == '_'
            &&& int_of_text(key.subrange(n + 1, n + 1 + m)) == Some(i as i64)
            &&& (forall|j: int|
                0 <= j < i ==> #[trigger] header_keys(first)[j] != column_name(first[i], i) + seq!['_'] + decimal(
                    i as nat,
                )) ==> key == column_name(first[i], i) + seq!['_'] + decimal(i as nat)
        }),
{
    let name = column_name(first[i], i);
    let taken = header_keys(first.take(i));
    let key = header_keys(first)[i];
    let next = indexed(name, i);
    lemma_header_keys_front(first, i);
    let j = choose|j: int| 0 <= j < i && #[trigger] header_keys(first)[j] == name;
    assert(taken[j] == name);
    assert(taken.len() == i) by {
        assert(header_keys(first).take(i).len() == i);
    }
    lemma_told_apart(taken, name, i);
    decimals_are_plain_digits(i as nat);
    let n = name.len() as int;
    let m = decimal(i as nat).len() as int;
    assert(key.take(next.len() as int) =~= next);
    assert(key.take(n) =~= name) by {
        assert forall|k: int| 0 <= k < n implies key[k] == name[k] by {
            assert(next[k] == name[k]);
            assert(key.take(next.len() as int)[k] == next[k]);
        }
    }
    assert(key[n] == '_') by {
        assert(next[n] == '_');
        assert(key.take(next.len() as int)[n] == next[n]);
    }
    assert(key.subrange(n + 1, n + 1 + m) =~= decimal(i as nat)) by {
        assert forall|k: int| 0 <= k < m implies key[n + 1 + k] == #[trigger] decimal(i as nat)[k] by {
            assert(next[n + 1 + k] == decimal(i as nat)[k]);
            assert(key.take(next.len() as int)[n + 1 + k] == next[n + 1 + k]);
        }
    }
    if forall|j: int| 0 <= j < i ==> #[trigger] header_keys(first)[j] != next {
        assert(!taken.contains(next)) by {
            if taken.contains(next) {
                let k = choose|k: int| 0 <= k < taken.len() && taken[k] == next;
                assert(header_keys(first)[k] == next);
            }
        }
        lemma_told_apart(taken, next, i);
    }
}

/// A column whose name no column before it has for its key is keyed by its name.
pub proof fn new_names_are_keys(first: Seq<CellView>, i: int)
    requires
        0 <= i < first.len(),
        forall|j: int| 0 <= j < i ==> #[trigger] header_keys(first)[j] != column_name(first[i], i),
    ensures
        header_keys(first).len() == first.len(),
        header_keys(first)[i] == column_name(first[i], i),
{
    repeated_names_get_their_index(first, i);
    assert(!header_keys(first).take(i).contains(column_name(first[i], i)));
}

/// What the rows of a worksheet hold: row `i` has, under the key of column `j`, the value of cell
/// `j` of the worksheet row after it, and no other field.
pub proof fn each_worksheet_row_is_a_row(rows: Seq<Vec<Cell>>, r: Seq<Row>, i: int, j: int)
    requires
        table(r) == excel_rows(sheet(rows)),
        0 <= i < rows.len() - 1,
        rows[i + 1]@.len() <= rows[0]@.len(),
        0 <= j < rows[i + 1]@.len(),
    ensures
        r.len() == rows.len() - 1,
        r[i]@.len() == rows[i + 1]@.len(),
        header_keys(cells(rows[0]@)).len() == rows[0]@.len(),
        r[i]@[j].0 == header_keys(cells(rows[0]@))[j],
        r[i]@[j].1 == cell_value(rows[i + 1]@[j]@),
{
    assert(table(r).len() == r.len());
    assert(table(r)[i] == r[i]@);
    assert(sheet(rows)[0] == cells(rows[0]@));
    assert(sheet(rows)[i + 1] == cells(rows[i + 1]@));
    no_column_is_lost(cells(rows[0]@), cells(rows[i + 1]@));
    lemma_header_keys_front(cells(rows[0]@), j);
}

/// A worksheet row that is longer than the first gives a row too: of the cells with the same key,
/// the last stands in it, and nothing stands in it but cells of this very row.
pub proof fn longer_worksheet_rows_are_rows(rows: Seq<Vec<Cell>>, r: Seq<Row>, i: int, j: int)
    requires
        table(r) == excel_rows(sheet(rows)),
        0 <= i < rows.len() - 1,
        0 <= j < rows[i + 1]@.len(),
    ensures
        r.len() == rows.len() - 1,
        j < rows[0]@.len() ==> column_key(header_keys(cells(rows[0]@)), j) == header_keys(cells(rows[0]@))[j],
        j >= rows[0]@.len() ==> column_key(header_keys(cells(rows[0]@)), j) == numbered_key(j),
        (forall|k: int|
            j < k < rows[i + 1]@.len() ==> #[trigger] column_key(header_keys(cells(rows[0]@)), k) != column_key(
                header_keys(cells(rows[0]@)),
                j,
            )) ==> r[i]@.contains((column_key(header_keys(cells(rows[0]@)), j), cell_value(rows[i + 1]@[j]@))),
        forall|p: int|
            0 <= p < r[i]@.len() ==> exists|k: int|
                0 <= k < rows[i + 1]@.len() && #[trigger] r[i]@[p] == (
                    #[trigger] column_key(header_keys(cells(rows[0]@)), k),
                    cell_value(rows[i + 1]@[k]@),
                ),
{
    let first = cells(rows[0]@);
    let keys = header_keys(first);
    let row = cells(rows[i + 1]@);
    let pairs = excel_pairs(keys, row);
    assert(table(r).len() == r.len());
    assert(table(r)[i] == r[i]@);
    assert(sheet(rows)[0] == first);
    assert(sheet(rows)[i + 1] == row);
    assert(keys.len() == first.len()) by {
        if first.len() > 0 {
            lemma_header_keys_front(first, 0);
        }
    }
    the_last_setting_counts(pairs);
    if forall|k: int| j < k < row.len() ==> #[trigger] column_key(keys, k) != column_key(keys, j) {
        assert forall|k: int| j < k < pairs.len() implies (#[trigger] pairs[k]).0 != pairs[j].0 by {
            assert(column_key(keys, k) != column_key(keys, j));
        }
        assert(row_of(pairs).contains(pairs[j]));
    }
    assert forall|p: int| 0 <= p < r[i]@.len() implies exists|k: int|
        0 <= k < row.len() && #[trigger] r[i]@[p] == (#[trigger] column_key(keys, k), cell_value(row[k])) by {
        assert(pairs.contains(row_of(pairs)[p]));
        let k = choose|k: int| 0 <= k < pairs.len() && pairs[k] == row_of(pairs)[p];
        assert(r[i]@[p] == (column_key(keys, k), cell_value(row[k])));
    }
}

/// A row of a worksheet depends on its own cells and the first row alone: changing another row
/// changes nothing in it, and rows that change places change places in the table.
pub proof fn worksheet_rows_are_read_alone(a: Seq<Seq<CellView>>, b: Seq<Seq<CellView>>, i: int, k: int)
    requires
        0 <= i < a.len() - 1,
        0 <= k < b.len() - 1,
        a[0] == b[0],
        a[i + 1] == b[k + 1],
    ensures
        excel_rows(a).len() == a.len() - 1,
        excel_rows(b).len() == b.len() - 1,
        excel_rows(a)[i] == excel_rows(b)[k],
{
}

/// A worksheet of one row, or of none, has no rows to give.
pub proof fn the_first_row_is_no_row(first: Seq<CellView>)
    ensures
        excel_rows(Seq::empty()).len() == 0,
        excel_rows(seq![first]).len() == 0,
{
}

/// How a name is told apart from the keys before it: it stays where it is none of them, and else it
/// is told apart with its column's index behind it.
pub proof fn names_are_told_apart_by_their_index(first: Seq<CellView>, taken: Seq<Seq<char>>, name: Seq<char>, i: int)
    ensures
        !taken.contains(name) ==> told_apart(taken, name, i) == name,
        taken.contains(name) ==> told_apart(taken, name, i) == told_apart(taken, name + seq!['_'] + decimal(i as nat), i),
        0 <= i < first.len() ==> header_keys(first).len() == first.len() && header_keys(first)[i] == told_apart(
            header_keys(first).take(i),
            column_name(first[i], i),
            i,
        ),
{
    lemma_told_apart(taken, name, i);
    if taken.contains(name) {
        lemma_longest(taken, name);
    }
    if 0 <= i < first.len() {
        lemma_header_keys_front(first, i);
    }
}

/// One cell more is one setting more: under the key of its place, after all that were there.
pub proof fn one_cell_more(keys: Seq<Seq<char>>, row: Seq<CellView>, cell: CellView, p: int)
    ensures
        excel_row(keys, Seq::empty()) == RowView::empty(),
        0 <= p < excel_row(keys, row).len() && excel_row(keys, row)[p].0 == column_key(keys, row.len() as int)
            ==> excel_row(keys, row.push(cell)) == excel_row(keys, row).update(
            p,
            (column_key(keys, row.len() as int), cell_value(cell)),
        ),
        (forall|i: int|
            0 <= i < excel_row(keys, row).len() ==> (#[trigger] excel_row(keys, row)[i]).0 != column_key(
                keys,
                row.len() as int,
            )) ==> excel_row(keys, row.push(cell)) == excel_row(keys, row).push(
            (column_key(keys, row.len() as int), cell_value(cell)),
        ),
{
    let n = row.len() as int;
    assert(excel_pairs(keys, Seq::empty()) =~= RowView::empty());
    assert(excel_pairs(keys, row.push(cell)) =~= excel_pairs(keys, row).push((column_key(keys, n), cell_value(cell))));
    one_setting_more(excel_pairs(keys, row), column_key(keys, n), cell_value(cell), p);
}

} // verus!
