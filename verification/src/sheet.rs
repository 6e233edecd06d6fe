//! The clean worksheet: what is written into which cell.
use vstd::prelude::*;

use crate::delimited::texts;
use crate::json::{is_plain, plain_texts_need_no_escape, string_literal, string_to_json};
use crate::text::{only_quotation_marks_are_taken_off, unquote, unquoted, unquoted_end, unquoted_start};
use crate::value::{keys_are_found_where_they_stand, lookup, table, Datum, DatumView, Num, NumView, Row, RowView};

verus! {

broadcast use vstd::string::group_string_axioms;

/// What is written into a cell.
#[derive(Debug, PartialEq)]
pub enum Content {
    /// A column's name, in bold.
    Header(String),
    Text(String),
    Num(Num),
    Blank,
}

/// What a [`Content`] is, with its text as a sequence of characters.
#[verifier::ext_equal]
pub enum ContentView {
    Header(Seq<char>),
    Text(Seq<char>),
    Num(NumView),
    Blank,
}

impl View for Content {
    type V = ContentView;

    open spec fn view(&self) -> ContentView {
        match self {
            Content::Header(s) => ContentView::Header(s@),
            Content::Text(s) => ContentView::Text(s@),
            Content::Num(n) => ContentView::Num(n@),
            Content::Blank => ContentView::Blank,
        }
    }
}

/// One cell to write.
#[derive(Debug, PartialEq)]
pub struct Entry {
    pub row: u32,
    pub column: u16,
    pub content: Content,
}

/// What an [`Entry`] is.
#[verifier::ext_equal]
pub struct EntryView {
    pub row: u32,
    pub column: u16,
    pub content: ContentView,
}

impl View for Entry {
    type V = EntryView;

    open spec fn view(&self) -> EntryView {
        EntryView { row: self.row, column: self.column, content: self.content@ }
    }
}

/// A worksheet to write: its name, where it has one of its own, and its cells in order.
#[derive(Debug, PartialEq)]
pub struct Sheet {
    pub name: Option<String>,
    pub entries: Vec<Entry>,
}

/// The cells of a worksheet.
pub open spec fn entries(list: Seq<Entry>) -> Seq<EntryView> {
    list.map_values(|e: Entry| e@)
}

/// The row number of a worksheet that a count is written as.
pub open spec fn row_number(n: int) -> u32 {
    (n % 0x1_0000_0000) as u32
}

/// The column number of a worksheet that a count is written as.
pub open spec fn column_number(n: int) -> u16 {
    (n % 0x1_0000) as u16
}

/// What is written for a value: a number as a number, a truth value as a word, null as a blank,
/// and a text as its JSON string without the quotation marks on its ends.
pub open spec fn content_of(value: DatumView) -> ContentView {
    match value {
        DatumView::Num(n) => ContentView::Num(n),
        DatumView::Bool(true) => ContentView::Text("TRUE"@),
        DatumView::Bool(false) => ContentView::Text("FALSE"@),
        DatumView::Null => ContentView::Blank,
        DatumView::Text(s) => ContentView::Text(unquoted(string_literal(s))),
    }
}

/// The keys of a row, in order.
pub open spec fn keys(row: RowView) -> Seq<Seq<char>> {
    row.map_values(|f: (Seq<char>, DatumView)| f.0)
}

/// The cells of the header row.
pub open spec fn header_entries(headers: Seq<Seq<char>>) -> Seq<EntryView> {
    Seq::new(
        headers.len(),
        |j: int| EntryView { row: 0, column: column_number(j), content: ContentView::Header(headers[j]) },
    )
}

/// The cells of row `i` of the table: one under each header, in the worksheet row after it.
pub open spec fn row_entries(headers: Seq<Seq<char>>, row: RowView, i: int) -> Seq<EntryView> {
    Seq::new(
        headers.len(),
        |j: int|
            EntryView {
                row: row_number(i + 1),
                column: column_number(j),
                content: content_of(lookup(row, headers[j])),
            },
    )
}

/// The cells of the rows of a table, row by row.
pub open spec fn body_entries(headers: Seq<Seq<char>>, rows: Seq<RowView>) -> Seq<EntryView>
    decreases rows.len(),
{
    if rows.len() == 0 {
        Seq::empty()
    } else {
        body_entries(headers, rows.drop_last()) + row_entries(headers, rows.last(), rows.len() - 1)
    }
}

/// The cells of a table: of an empty one a note, else the first row's keys and a row for each row.
pub open spec fn sheet_entries(rows: Seq<RowView>) -> Seq<EntryView> {
    if rows.len() == 0 {
        seq![EntryView { row: 0, column: 0, content: ContentView::Text("No data"@) }]
    } else {
        header_entries(keys(rows[0])) + body_entries(keys(rows[0]), rows)
    }
}

/// The row number for a count.
fn to_row_number(n: usize) -> (r: u32)
    ensures
        r == row_number(n as int),
{
    let wide: u64 = n as u64;
    assert(wide as u32 == (wide % 0x1_0000_0000) as u32) by (bit_vector);
    wide as u32
}

/// The column number for a count.
fn to_column_number(n: usize) -> (r: u16)
    ensures
        r == column_number(n as int),
{
    let wide: u64 = n as u64;
    assert(wide as u16 == (wide % 0x1_0000) as u16) by (bit_vector);
    wide as u16
}

/// Makes what is written for a value.
pub fn to_content(value: &Datum) -> (r: Content)
    ensures
        r@ == content_of(value@),
{
    match value {
        Datum::Num(n) => Content::Num(n.clone()),
        Datum::Bool(b) => {
            if *b {
                Content::Text("TRUE".to_string())
            } else {
                Content::Text("FALSE".to_string())
            }
        },
        Datum::Null => Content::Blank,
        Datum::Text(s) => Content::Text(unquote(string_to_json(s.as_str()).as_str())),
    }
}

/// Takes the keys of a row.
fn row_keys(row: &Row) -> (r: Vec<String>)
    ensures
        texts(r@) == keys(row@),
{
    let mut r: Vec<String> = Vec::new();
    let mut i: usize = 0;
    while i < row.len()
        invariant
            i <= row@.len(),
            r@.len() == i,
            forall|j: int| 0 <= j < i ==> (#[trigger] r@[j])@ == row@[j].0,
        decreases row@.len() - i,
    {
        r.push(row.key(i).clone());
        i = i + 1;
    }
    assert(texts(r@) =~= keys(row@));
    r
}

/// Appends the cells of the header row.
fn push_headers(list: &mut Vec<Entry>, headers: &Vec<String>)
    ensures
        entries(final(list)@) == entries(old(list)@) + header_entries(texts(headers@)),
{
    let ghost h = texts(headers@);
    let ghost before = entries(list@);
    let mut j: usize = 0;
    while j < headers.len()
        invariant
            j <= headers@.len(),
            h == texts(headers@),
            entries(list@) =~= before + header_entries(h).take(j as int),
        decreases headers@.len() - j,
    {
        let ghost earlier = list@;
        list.push(Entry { row: 0, column: to_column_number(j), content: Content::Header(headers[j].clone()) });
        assert(entries(list@) =~= entries(earlier).push(list@.last()@));
        assert(list@.last()@ == header_entries(h)[j as int]);
        assert(header_entries(h).take(j + 1) =~= header_entries(h).take(j as int).push(header_entries(h)[j as int]));
        j = j + 1;
    }
    assert(header_entries(h).take(h.len() as int) =~= header_entries(h));
}

/// Appends the cells of row `i`.
fn push_row(list: &mut Vec<Entry>, headers: &Vec<String>, row: &Row, i: usize)
    requires
        i < usize::MAX,
    ensures
        entries(final(list)@) == entries(old(list)@) + row_entries(texts(headers@), row@, i as int),
{
    let ghost h = texts(headers@);
    let ghost whole = row_entries(h, row@, i as int);
    let ghost before = entries(list@);
    let number: u32 = to_row_number(i + 1);
    let mut j: usize = 0;
    while j < headers.len()
        invariant
            j <= headers@.len(),
            h == texts(headers@),
            whole == row_entries(h, row@, i as int),
            number == row_number(i + 1),
            entries(list@) =~= before + whole.take(j as int),
        decreases headers@.len() - j,
    {
        let content = match row.get(&headers[j]) {
            Some(value) => to_content(value),
            None => Content::Blank,
        };
        let ghost earlier = list@;
        list.push(Entry { row: number, column: to_column_number(j), content });
        assert(entries(list@) =~= entries(earlier).push(list@.last()@));
        assert(list@.last()@ == whole[j as int]);
        assert(whole.take(j + 1) =~= whole.take(j as int).push(whole[j as int]));
        j = j + 1;
    }
    assert(whole.take(h.len() as int) =~= whole);
}

/// Lays a table out as a worksheet.
pub fn write_xlsx(rows: &Vec<Row>) -> (r: Sheet)
    ensures
        entries(r.entries@) == sheet_entries(table(rows@)),
        rows@.len() == 0 ==> r.name is None,
        rows@.len() > 0 ==> r.name is Some && r.name->0@ == "Clean Data"@,
{
    let mut list: Vec<Entry> = Vec::new();
    if rows.len() == 0 {
        list.push(Entry { row: 0, column: 0, content: Content::Text("No data".to_string()) });
        assert(entries(list@) =~= sheet_entries(table(rows@)));
        return Sheet { name: None, entries: list };
    }
    let ghost all = table(rows@);
    let headers = row_keys(&rows[0]);
    let ghost h = keys(all[0]);
    push_headers(&mut list, &headers);
    assert(entries(list@) =~= header_entries(h));
    let mut i: usize = 0;
    while i < rows.len()
        invariant
            i <= rows@.len(),
            all == table(rows@),
            texts(headers@) == h,
            entries(list@) =~= header_entries(h) + body_entries(h, all.take(i as int)),
        decreases rows@.len() - i,
    {
        push_row(&mut list, &headers, &rows[i], i);
        assert(all.take(i + 1).drop_last() =~= all.take(i as int));
        assert(all.take(i + 1).last() == rows@[i as int]@);
        i = i + 1;
    }
    assert(all.take(all.len() as int) =~= all);
    Sheet { name: Some("Clean Data".to_string()), entries: list }
}

// Laws.

/// A text that JSON writes without an escape is written into its cell as it is.
pub proof fn plain_texts_are_written_as_they_are(s: Seq<char>)
    requires
        is_plain(s),
    ensures
        content_of(DatumView::Text(s)) == ContentView::Text(s),
{
    plain_texts_need_no_escape(s);
    let q = seq!['"'];
    let whole = q + s + q;
    assert(whole.drop_first() =~= s + q);
    if s.len() == 0 {
        assert((s + q).drop_first() =~= s);
        assert(unquoted_start(s) == s);
        assert(unquoted_start(s + q) == s);
        assert(unquoted_end(s) == s);
    } else {
        assert((s + q).first() == s[0]);
        assert(unquoted_start(s + q) == s + q);
        assert((s + q).drop_last() =~= s);
        assert(s.last() == s[s.len() - 1]);
        assert(unquoted_end(s) == s);
    }
    assert(unquoted_start(whole) == unquoted_start(s + q));
}

/// The cells of the rows are as many as there are rows times headers.
proof fn lemma_body_len(headers: Seq<Seq<char>>, rows: Seq<RowView>)
    ensures
        body_entries(headers, rows).len() == rows.len() * headers.len(),
    decreases rows.len(),
{
    if rows.len() > 0 {
        lemma_body_len(headers, rows.drop_last());
        assert(rows.len() * headers.len() == (rows.len() - 1) * headers.len() + headers.len()) by (nonlinear_arith)
            requires
                rows.len() > 0,
        ;
    } else {
        assert(0 * headers.len() == 0) by (nonlinear_arith);
    }
}

/// Row `i` of a table, column `j`, is among the cells at the place that its row and column count to.
proof fn lemma_body_entry(headers: Seq<Seq<char>>, rows: Seq<RowView>, i: int, j: int)
    requires
        0 <= i < rows.len(),
        0 <= j < headers.len(),
    ensures
        0 <= i * headers.len() + j < body_entries(headers, rows).len(),
        body_entries(headers, rows)[i * headers.len() + j] == row_entries(headers, rows[i], i)[j],
    decreases rows.len(),
{
    let front = rows.drop_last();
    let n = headers.len();
    lemma_body_len(headers, front);
    lemma_body_len(headers, rows);
    assert(0 <= i * n + j < rows.len() * n) by (nonlinear_arith)
        requires
            0 <= i < rows.len(),
            0 <= j < n,
    ;
    if i < front.len() {
        lemma_body_entry(headers, front, i, j);
    }
}

/// The worksheet of a table has a cell for each header and, for each row, one under each header.
pub proof fn every_cell_is_written(rows: Seq<RowView>, i: int, j: int)
    requires
        0 <= i < rows.len(),
        0 <= j < rows[0].len(),
    ensures
        sheet_entries(rows).len() == (rows.len() + 1) * rows[0].len(),
        sheet_entries(rows)[j] == (EntryView {
            row: 0,
            column: column_number(j),
            content: ContentView::Header(rows[0][j].0),
        }),
        0 <= (i + 1) * rows[0].len() + j < sheet_entries(rows).len(),
        sheet_entries(rows)[(i + 1) * rows[0].len() + j] == (EntryView {
            row: row_number(i + 1),
            column: column_number(j),
            content: content_of(lookup(rows[i], rows[0][j].0)),
        }),
{
    let h = keys(rows[0]);
    let n = h.len();
    lemma_body_len(h, rows);
    lemma_body_entry(h, rows, i, j);
    assert((rows.len() + 1) * n == n + rows.len() * n) by (nonlinear_arith);
    assert((i + 1) * n + j == n + (i * n + j)) by (nonlinear_arith);
}

/// Within the limits of a worksheet's numbers, no two cells of a table are written to one place.
pub proof fn no_cell_is_written_twice(rows: Seq<RowView>, i: int, j: int, k: int, l: int)
    requires
        rows.len() < 0xffff_ffff,
        0 <= i < rows.len(),
        0 <= k < rows.len(),
        rows[0].len() <= 0x1_0000,
        0 <= j < rows[0].len(),
        0 <= l < rows[0].len(),
        row_number(i + 1) == row_number(k + 1),
        column_number(j) == column_number(l),
    ensures
        i == k && j == l,
        row_number(i + 1) != 0,
{
}

/// What is written is seen as what it holds.
pub proof fn contents_are_what_they_hold(c: Content, e: Entry)
    ensures
        c matches Content::Header(s) ==> c@ == ContentView::Header(s@),
        c matches Content::Text(s) ==> c@ == ContentView::Text(s@),
        c matches Content::Num(Num::Int(i)) ==> c@ == ContentView::Num(NumView::Int(i)),
        c matches Content::Num(Num::Float(f)) ==> c@ == ContentView::Num(NumView::Float(f@)),
        c matches Content::Blank ==> c@ == ContentView::Blank,
        e@.row == e.row,
        e@.column == e.column,
        e@.content == e.content@,
{
}

/// A number is written as that very number, a truth value as its word in capitals, and a blank for
/// null alone; what is written for a text is a text.
pub proof fn values_are_written_as_they_are(value: Datum, c: Content)
    requires
        c@ == content_of(value@),
    ensures
        value matches Datum::Num(Num::Int(i)) ==> c matches Content::Num(Num::Int(k)) && k == i,
        value matches Datum::Num(Num::Float(f)) ==> c matches Content::Num(Num::Float(g)) && g@ == f@,
        value matches Datum::Bool(b) ==> c matches Content::Text(s) && s@ == (if b {
            seq!['T', 'R', 'U', 'E']
        } else {
            seq!['F', 'A', 'L', 'S', 'E']
        }),
        value is Null <==> c is Blank,
        value is Text ==> c is Text,
        c !is Header,
{
    reveal_strlit("TRUE");
    reveal_strlit("FALSE");
    assert("TRUE"@ =~= seq!['T', 'R', 'U', 'E']);
    assert("FALSE"@ =~= seq!['F', 'A', 'L', 'S', 'E']);
}

/// A text is written as its JSON string, of which the quotation marks on the ends are taken off and
/// nothing else.
pub proof fn texts_are_written_as_json_strings(s: Seq<char>) -> (place: (int, int))
    ensures
        content_of(DatumView::Text(s)) is Text,
        0 <= place.0 <= place.1 <= string_literal(s).len(),
        content_of(DatumView::Text(s))->Text_0 == string_literal(s).subrange(place.0, place.1),
        forall|i: int| 0 <= i < place.0 ==> #[trigger] string_literal(s)[i] == '"',
        forall|i: int| place.1 <= i < string_literal(s).len() ==> #[trigger] string_literal(s)[i] == '"',
        content_of(DatumView::Text(s))->Text_0.len() > 0 ==> content_of(DatumView::Text(s))->Text_0.first() != '"'
            && content_of(DatumView::Text(s))->Text_0.last() != '"',
{
    only_quotation_marks_are_taken_off(string_literal(s))
}

/// Rows and columns are numbered by their count, and over the largest number again from zero.
pub proof fn counts_are_numbers(n: int)
    requires
        n >= 0,
    ensures
        n <= 0xffff_ffff ==> row_number(n) == n,
        n <= 0xffff ==> column_number(n) == n,
        row_number(n + 0x1_0000_0000) == row_number(n),
        column_number(n + 0x1_0000) == column_number(n),
{
}

/// The worksheet of a table: the first line names the columns, by the keys of the first row and in
/// their order. Below it each row of the table has a line of its own, in order, with the value that
/// the row has under the column's key, and a blank where it has no such key.
pub proof fn each_row_is_a_line(rows: Seq<Row>, list: Seq<Entry>, i: int, j: int, p: int)
    requires
        entries(list) == sheet_entries(table(rows)),
        0 <= i < rows.len(),
        0 <= j < rows[0]@.len(),
        rows.len() < 0xffff_ffff,
        rows[0]@.len() <= 0x1_0000,
        forall|a: int, b: int| 0 <= a < b < rows[i]@.len() ==> #[trigger] rows[i]@[a].0 != #[trigger] rows[i]@[b].0,
    ensures
        list.len() == (rows.len() + 1) * rows[0]@.len(),
        list[j].row == 0,
        list[j].column == j,
        list[j].content matches Content::Header(s) && s@ == rows[0]@[j].0,
        0 <= (i + 1) * rows[0]@.len() + j < list.len(),
        ({
            let e = list[(i + 1) * rows[0]@.len() + j];
            &&& e.row == i + 1
            &&& e.column == j
            &&& 0 <= p < rows[i]@.len() && rows[i]@[p].0 == rows[0]@[j].0 ==> e.content@ == content_of(rows[i]@[p].1)
            &&& (forall|q: int| 0 <= q < rows[i]@.len() ==> (#[trigger] rows[i]@[q]).0 != rows[0]@[j].0)
                ==> e.content is Blank
        }),
{
    let all = table(rows);
    let n = rows[0]@.len();
    let at = (i + 1) * n + j;
    assert(all[0] == rows[0]@ && all[i] == rows[i]@);
    every_cell_is_written(all, i, j);
    keys_are_found_where_they_stand(rows[i]@, rows[0]@[j].0, p);
    assert(entries(list).len() == list.len());
    assert(j < list.len()) by (nonlinear_arith)
        requires
            list.len() == (rows.len() + 1) * n,
            0 <= j < n,
            rows.len() >= 0,
    ;
    assert(entries(list)[j] == list[j]@);
    assert(sheet_entries(all)[j] == header_entries(keys(all[0]))[j]);
    assert(entries(list)[at] == list[at]@);
}

/// The worksheet of an empty table is a note in the first cell.
pub proof fn an_empty_sheet_is_a_note(list: Seq<Entry>)
    requires
        entries(list) == sheet_entries(Seq::empty()),
    ensures
        list.len() == 1,
        list[0].row == 0,
        list[0].column == 0,
        list[0].content matches Content::Text(s) && s@ == seq!['N', 'o', ' ', 'd', 'a', 't', 'a'],
{
    reveal_strlit("No data");
    assert(entries(list).len() == list.len());
    assert(entries(list)[0] == list[0]@);
    assert("No data"@ =~= seq!['N', 'o', ' ', 'd', 'a', 't', 'a']);
}

} // verus!
