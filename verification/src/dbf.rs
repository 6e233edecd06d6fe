//! dBase and FoxPro records: each record becomes a row.
use vstd::prelude::*;

use crate::cast::{cast_character, character_value};
use crate::json::{float_datum, float_num, reading, Float};
use crate::text::{date_text, date_to_text};
use crate::value::{
    distinct_keys, distinct_settings_all_stay, fields, lemma_fields_contain, lemma_fields_value, one_setting_more,
    row_is_the_object, row_of, rows_have_distinct_keys, table, the_last_setting_counts, Datum, DatumView, Num, NumView,
    Row, RowView,
};

verus! {

broadcast use vstd::string::group_string_axioms;

/// The value of one field of a record.
#[derive(Debug, PartialEq)]
pub enum Field {
    Character(Option<String>),
    /// A number, which may be missing, and which may be no finite one.
    Numeric(Option<Option<Float>>),
    Logical(Option<bool>),
    /// A date as year, month and day.
    Date(Option<(u32, u32, u32)>),
    Integer(i32),
    /// A memo, a currency, a time or a double: nothing is taken over.
    Other,
}

/// What a [`Field`] is, with its text as a sequence of characters.
#[verifier::ext_equal]
pub enum FieldView {
    Character(Option<Seq<char>>),
    Numeric(Option<Option<serde_json::Number>>),
    Logical(Option<bool>),
    Date(Option<(u32, u32, u32)>),
    Integer(i32),
    Other,
}

impl View for Field {
    type V = FieldView;

    open spec fn view(&self) -> FieldView {
        match self {
            Field::Character(Some(s)) => FieldView::Character(Some(s@)),
            Field::Character(None) => FieldView::Character(None),
            Field::Numeric(n) => FieldView::Numeric(reading(*n)),
            Field::Logical(b) => FieldView::Logical(*b),
            Field::Date(d) => FieldView::Date(*d),
            Field::Integer(i) => FieldView::Integer(*i),
            Field::Other => FieldView::Other,
        }
    }
}

/// The fields of a record, by name, in the order in which they are given.
pub open spec fn record(fields: Seq<(String, Field)>) -> Seq<(Seq<char>, FieldView)> {
    fields.map_values(|f: (String, Field)| (f.0@, f.1@))
}

/// The records of a file.
pub open spec fn records(list: Seq<Vec<(String, Field)>>) -> Seq<Seq<(Seq<char>, FieldView)>> {
    list.map_values(|r: Vec<(String, Field)>| record(r@))
}

/// The value that a field becomes.
pub open spec fn field_value(field: FieldView) -> DatumView {
    match field {
        FieldView::Character(Some(s)) => character_value(s),
        FieldView::Numeric(Some(n)) => DatumView::Num(float_num(n)),
        FieldView::Logical(Some(b)) => DatumView::Bool(b),
        FieldView::Date(Some(d)) => DatumView::Text(date_text(d.0, d.1, d.2)),
        FieldView::Integer(i) => DatumView::Num(NumView::Int(i as i64)),
        _ => DatumView::Null,
    }
}

/// Makes the value that a field becomes.
pub fn cast_dbf_field(field: &Field) -> (r: Datum)
    ensures
        r@ == field_value(field@),
{
    match field {
        Field::Character(Some(s)) => cast_character(s.as_str()),
        Field::Numeric(Some(Some(n))) => float_datum(Some(n.clone())),
        Field::Numeric(Some(None)) => float_datum(None),
        Field::Logical(Some(b)) => Datum::Bool(*b),
        Field::Date(Some((year, month, day))) => Datum::Text(date_to_text(*year, *month, *day)),
        Field::Integer(i) => Datum::Num(Num::Int(*i as i64)),
        _ => Datum::Null,
    }
}

/// The columns of a record: each field's value under its name.
pub open spec fn dbf_pairs(fields: Seq<(Seq<char>, FieldView)>) -> RowView {
    fields.map_values(|f: (Seq<char>, FieldView)| (f.0, field_value(f.1)))
}

/// The rows of the records of a file.
pub open spec fn dbf_rows(list: Seq<Seq<(Seq<char>, FieldView)>>) -> Seq<RowView> {
    list.map_values(|fields: Seq<(Seq<char>, FieldView)>| row_of(dbf_pairs(fields)))
}

/// Makes the row of a record.
fn fields_to_row(fields: &Vec<(String, Field)>) -> (r: Row)
    ensures
        r@ == row_of(dbf_pairs(record(fields@))),
{
    let ghost pairs = dbf_pairs(record(fields@));
    let mut r = Row::new();
    let mut i: usize = 0;
    assert(pairs.take(0) =~= RowView::empty());
    while i < fields.len()
        invariant
            i <= fields@.len(),
            pairs == dbf_pairs(record(fields@)),
            r@ == row_of(pairs.take(i as int)),
        decreases fields@.len() - i,
    {
        let key = fields[i].0.clone();
        let value = cast_dbf_field(&fields[i].1);
        r.insert(key, value);
        assert(pairs.take(i + 1).drop_last() =~= pairs.take(i as int));
        i = i + 1;
    }
    assert(pairs.take(fields@.len() as int) =~= pairs);
    r
}

/// Reads the records of a file.
pub fn read_dbf(list: &Vec<Vec<(String, Field)>>) -> (r: Vec<Row>)
    ensures
        table(r@) == dbf_rows(records(list@)),
{
    let mut r: Vec<Row> = Vec::new();
    let mut i: usize = 0;
    while i < list.len()
        invariant
            i <= list@.len(),
            r@.len() == i,
            forall|j: int| 0 <= j < i ==> (#[trigger] r@[j])@ == row_of(dbf_pairs(record(list@[j]@))),
        decreases list@.len() - i,
    {
        r.push(fields_to_row(&list[i]));
        i = i + 1;
    }
    assert(table(r@) =~= dbf_rows(records(list@)));
    r
}

// Laws.

/// Every record gives one row, and every row has each key once.
pub proof fn dbf_rows_have_distinct_keys(list: Seq<Seq<(Seq<char>, FieldView)>>, i: int)
    requires
        0 <= i < list.len(),
    ensures
        dbf_rows(list).len() == list.len(),
        distinct_keys(dbf_rows(list)[i]),
{
    rows_have_distinct_keys(dbf_pairs(list[i]));
}

/// No field is lost: a record with distinct names gives a row with its fields, in their order.
pub proof fn no_field_is_lost(record: Seq<(Seq<char>, FieldView)>)
    requires
        distinct_keys(dbf_pairs(record)),
    ensures
        row_of(dbf_pairs(record)) == dbf_pairs(record),
{
    distinct_settings_all_stay(dbf_pairs(record));
}

/// The order in which a record's fields are given makes no difference to the object of its row:
/// two records with distinct names that hold the same fields give rows that are one object.
pub proof fn field_order_makes_no_difference(a: Seq<(Seq<char>, FieldView)>, b: Seq<(Seq<char>, FieldView)>)
    requires
        distinct_keys(dbf_pairs(a)),
        distinct_keys(dbf_pairs(b)),
        forall|f: (Seq<char>, FieldView)| a.contains(f) == b.contains(f),
    ensures
        fields(row_of(dbf_pairs(a))) == fields(row_of(dbf_pairs(b))),
{
    row_is_the_object(dbf_pairs(a));
    row_is_the_object(dbf_pairs(b));
    lemma_fields_within(a, b);
    lemma_fields_within(b, a);
    assert(fields(dbf_pairs(a)) =~= fields(dbf_pairs(b)));
}

/// What one record holds under a name, another that has the same fields holds too.
proof fn lemma_fields_within(a: Seq<(Seq<char>, FieldView)>, b: Seq<(Seq<char>, FieldView)>)
    requires
        distinct_keys(dbf_pairs(a)),
        distinct_keys(dbf_pairs(b)),
        forall|f: (Seq<char>, FieldView)| a.contains(f) ==> b.contains(f),
    ensures
        forall|k: Seq<char>| #[trigger] fields(dbf_pairs(a)).contains_key(k) ==> fields(dbf_pairs(b)).contains_key(k)
            && fields(dbf_pairs(b))[k] == fields(dbf_pairs(a))[k],
{
    let pa = dbf_pairs(a);
    let pb = dbf_pairs(b);
    assert forall|k: Seq<char>| #[trigger] fields(pa).contains_key(k) implies fields(pb).contains_key(k) && fields(pb)[k] == fields(pa)[k] by {
        lemma_fields_contain(pa, k);
        let i = choose|i: int| 0 <= i < pa.len() && (#[trigger] pa[i]).0 == k;
        lemma_fields_value(pa, i);
        assert(a.contains(a[i]));
        let j = choose|j: int| 0 <= j < b.len() && b[j] == a[i];
        assert(pb[j] == pa[i]);
        lemma_fields_value(pb, j);
    }
}

/// A field is seen as what it holds.
pub proof fn fields_are_what_they_hold(f: Field)
    ensures
        f matches Field::Character(Some(s)) ==> f@ == FieldView::Character(Some(s@)),
        f matches Field::Character(None) ==> f@ == FieldView::Character(None),
        f matches Field::Numeric(Some(Some(n))) ==> f@ == FieldView::Numeric(Some(Some(n@))),
        f matches Field::Numeric(Some(None)) ==> f@ == FieldView::Numeric(Some(None)),
        f matches Field::Numeric(None) ==> f@ == FieldView::Numeric(None),
        f matches Field::Logical(b) ==> f@ == FieldView::Logical(b),
        f matches Field::Date(d) ==> f@ == FieldView::Date(d),
        f matches Field::Integer(i) ==> f@ == FieldView::Integer(i),
        f matches Field::Other ==> f@ == FieldView::Other,
{
}

/// A number and a truth value are taken over as they are, a date as its text, a text as what it
/// reads as, and what is missing or of another kind as null.
pub proof fn fields_are_taken_over(f: Field)
    ensures
        f matches Field::Character(Some(s)) ==> field_value(f@) == character_value(s@),
        f matches Field::Character(None) ==> field_value(f@) == DatumView::Null,
        f matches Field::Numeric(Some(Some(n))) ==> field_value(f@) == DatumView::Num(NumView::Float(n@)),
        f matches Field::Numeric(Some(None)) ==> field_value(f@) == DatumView::Num(NumView::Int(0)),
        f matches Field::Numeric(None) ==> field_value(f@) == DatumView::Null,
        f matches Field::Logical(Some(b)) ==> field_value(f@) == DatumView::Bool(b),
        f matches Field::Logical(None) ==> field_value(f@) == DatumView::Null,
        f matches Field::Date(Some(d)) ==> field_value(f@) == DatumView::Text(date_text(d.0, d.1, d.2)),
        f matches Field::Date(None) ==> field_value(f@) == DatumView::Null,
        f matches Field::Integer(i) ==> field_value(f@) matches DatumView::Num(NumView::Int(v)) && v == i,
        f matches Field::Other ==> field_value(f@) == DatumView::Null,
{
}

/// What the rows of a file hold: row `i` has, under the name of each field of record `i` that no
/// later field of that record has, the value of that very field, and nothing that is not a field of
/// record `i`.
pub proof fn each_table_record_is_a_row(list: Seq<Vec<(String, Field)>>, r: Seq<Row>, i: int, j: int)
    requires
        table(r) == dbf_rows(records(list)),
        0 <= i < list.len(),
        0 <= j < list[i]@.len(),
    ensures
        r.len() == list.len(),
        (forall|k: int| j < k < list[i]@.len() ==> (#[trigger] list[i]@[k]).0@ != list[i]@[j].0@) ==> r[i]@.contains(
            (list[i]@[j].0@, field_value(list[i]@[j].1@)),
        ),
        forall|p: int|
            0 <= p < r[i]@.len() ==> exists|k: int|
                0 <= k < list[i]@.len() && #[trigger] r[i]@[p] == (
                    (#[trigger] list[i]@[k]).0@,
                    field_value(list[i]@[k].1@),
                ),
        (forall|a: int, b: int| 0 <= a < b < list[i]@.len() ==> (#[trigger] list[i]@[a]).0@ != (#[trigger] list[i]@[b]).0@)
            ==> r[i]@.len() == list[i]@.len() && r[i]@[j] == (list[i]@[j].0@, field_value(list[i]@[j].1@)),
{
    let own = list[i]@;
    let pairs = dbf_pairs(record(own));
    assert(table(r).len() == r.len());
    assert(table(r)[i] == r[i]@);
    assert(records(list)[i] == record(own));
    assert(r[i]@ == row_of(pairs));
    the_last_setting_counts(pairs);
    assert(pairs[j] == (own[j].0@, field_value(own[j].1@)));
    if forall|k: int| j < k < own.len() ==> (#[trigger] own[k]).0@ != own[j].0@ {
        assert forall|k: int| j < k < pairs.len() implies (#[trigger] pairs[k]).0 != pairs[j].0 by {
            assert(own[k].0@ != own[j].0@);
        }
        assert(row_of(pairs).contains(pairs[j]));
    }
    assert forall|p: int| 0 <= p < r[i]@.len() implies exists|k: int|
        0 <= k < own.len() && #[trigger] r[i]@[p] == ((#[trigger] own[k]).0@, field_value(own[k].1@)) by {
        assert(pairs.contains(row_of(pairs)[p]));
        let k = choose|k: int| 0 <= k < pairs.len() && pairs[k] == row_of(pairs)[p];
        assert(r[i]@[p] == (own[k].0@, field_value(own[k].1@)));
    }
    if forall|a: int, b: int| 0 <= a < b < own.len() ==> (#[trigger] own[a]).0@ != (#[trigger] own[b]).0@ {
        assert forall|a: int, b: int| 0 <= a < b < pairs.len() implies #[trigger] pairs[a].0 != #[trigger] pairs[b].0 by {
            assert(own[a].0@ != own[b].0@);
        }
        distinct_settings_all_stay(pairs);
    }
}

/// Reading a list of records is reading each alone, in order.
pub proof fn table_records_are_read_alone(
    a: Seq<Seq<(Seq<char>, FieldView)>>,
    b: Seq<Seq<(Seq<char>, FieldView)>>,
    record: Seq<(Seq<char>, FieldView)>,
)
    ensures
        dbf_rows(a + b) == dbf_rows(a) + dbf_rows(b),
        dbf_rows(seq![record]) == seq![row_of(dbf_pairs(record))],
        dbf_rows(Seq::empty()).len() == 0,
{
    assert(dbf_rows(a + b) =~= dbf_rows(a) + dbf_rows(b));
    assert(dbf_rows(seq![record]) =~= seq![row_of(dbf_pairs(record))]);
}

/// One field more is one setting more: its value under its name, after all that were there.
pub proof fn one_more_of_a_record(record: Seq<(Seq<char>, FieldView)>, name: Seq<char>, field: FieldView, p: int)
    ensures
        row_of(dbf_pairs(Seq::empty())) == RowView::empty(),
        0 <= p < row_of(dbf_pairs(record)).len() && row_of(dbf_pairs(record))[p].0 == name ==> row_of(
            dbf_pairs(record.push((name, field))),
        ) == row_of(dbf_pairs(record)).update(p, (name, field_value(field))),
        (forall|i: int|
            0 <= i < row_of(dbf_pairs(record)).len() ==> (#[trigger] row_of(dbf_pairs(record))[i]).0 != name) ==> row_of(
            dbf_pairs(record.push((name, field))),
        ) == row_of(dbf_pairs(record)).push((name, field_value(field))),
{
    assert(dbf_pairs(Seq::empty()) =~= RowView::empty());
    assert(dbf_pairs(record.push((name, field))) =~= dbf_pairs(record).push((name, field_value(field))));
    one_setting_more(dbf_pairs(record), name, field_value(field), p);
}

} // verus!
