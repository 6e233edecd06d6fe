//! Values and rows.
use vstd::prelude::*;

use crate::json::Float;

verus! {

/// A JSON number: a whole number or a float.
#[derive(Debug, PartialEq)]
pub enum Num {
    Int(i64),
    Float(Float),
}

/// What a [`Num`] is, with its float as `serde_json` holds it.
pub enum NumView {
    Int(i64),
    Float(serde_json::Number),
}

impl View for Num {
    type V = NumView;

    open spec fn view(&self) -> NumView {
        match self {
            Num::Int(i) => NumView::Int(*i),
            Num::Float(f) => NumView::Float(f@),
        }
    }
}

impl Clone for Num {
    fn clone(&self) -> (r: Num)
        ensures
            r@ == self@,
    {
        match self {
            Num::Int(i) => Num::Int(*i),
            Num::Float(f) => Num::Float(f.clone()),
        }
    }
}

/// The value of one field of a row.
#[derive(Debug, PartialEq)]
pub enum Datum {
    Null,
    Bool(bool),
    Num(Num),
    Text(String),
}

impl Clone for Datum {
    fn clone(&self) -> (r: Datum)
        ensures
            r@ == self@,
    {
        match self {
            Datum::Null => Datum::Null,
            Datum::Bool(b) => Datum::Bool(*b),
            Datum::Num(n) => Datum::Num(n.clone()),
            Datum::Text(s) => Datum::Text(s.clone()),
        }
    }
}

/// What a [`Datum`] is, with its text as a sequence of characters.
#[verifier::ext_equal]
pub enum DatumView {
    Null,
    Bool(bool),
    Num(NumView),
    Text(Seq<char>),
}

impl View for Datum {
    type V = DatumView;

    open spec fn view(&self) -> DatumView {
        match self {
            Datum::Null => DatumView::Null,
            Datum::Bool(b) => DatumView::Bool(*b),
            Datum::Num(n) => DatumView::Num(n@),
            Datum::Text(s) => DatumView::Text(s@),
        }
    }
}

/// The fields of a row in the order in which they were set: each key once, with its value.
pub type RowView = Seq<(Seq<char>, DatumView)>;

/// The first place at or after `from` where `row` has `key`, or its length.
pub open spec fn find_key(row: RowView, key: Seq<char>, from: int) -> int
    decreases row.len() - from,
{
    if from < 0 || from >= row.len() {
        row.len() as int
    } else if row[from].0 == key {
        from
    } else {
        find_key(row, key, from + 1)
    }
}

pub open spec fn has_key(row: RowView, key: Seq<char>) -> bool {
    find_key(row, key, 0) < row.len()
}

/// The value under `key`, or null where the row has no such key.
pub open spec fn lookup(row: RowView, key: Seq<char>) -> DatumView {
    if has_key(row, key) {
        row[find_key(row, key, 0)].1
    } else {
        DatumView::Null
    }
}

/// `row` with `value` under `key`: a key that is there keeps its place, another goes to the end.
pub open spec fn upsert(row: RowView, key: Seq<char>, value: DatumView) -> RowView {
    if has_key(row, key) {
        row.update(find_key(row, key, 0), (key, value))
    } else {
        row.push((key, value))
    }
}

/// No key occurs twice.
pub open spec fn distinct_keys(row: RowView) -> bool {
    forall|i: int, j: int| 0 <= i < j < row.len() ==> #[trigger] row[i].0 != #[trigger] row[j].0
}

/// A JSON object of plain values: the values by key, without order.
pub type Object = Map<Seq<char>, DatumView>;

/// The JSON object of a row.
pub open spec fn fields(row: RowView) -> Object
    decreases row.len(),
{
    if row.len() == 0 {
        Map::empty()
    } else {
        fields(row.drop_last()).insert(row.last().0, row.last().1)
    }
}

/// The row that setting the pairs of `pairs` one after the other makes of an empty row.
pub open spec fn row_of(pairs: RowView) -> RowView
    decreases pairs.len(),
{
    if pairs.len() == 0 {
        Seq::empty()
    } else {
        upsert(row_of(pairs.drop_last()), pairs.last().0, pairs.last().1)
    }
}

/// One row of a table: no key occurs twice.
#[derive(Debug, PartialEq)]
pub struct Row {
    entries: Vec<(String, Datum)>,
}

/// The fields of a row that holds these entries.
spec fn entry_views(entries: Seq<(String, Datum)>) -> RowView {
    Seq::new(entries.len(), |i: int| (entries[i].0@, entries[i].1@))
}

impl View for Row {
    type V = RowView;

    closed spec fn view(&self) -> RowView {
        entry_views(self.entries@)
    }
}

/// The rows of a table as views.
pub open spec fn table(rows: Seq<Row>) -> Seq<RowView> {
    rows.map_values(|r: Row| r@)
}

impl Row {
    #[verifier::type_invariant]
    spec fn well_formed(self) -> bool {
        distinct_keys(self@)
    }

    /// A row without fields.
    pub fn new() -> (r: Row)
        ensures
            r@ == RowView::empty(),
    {
        let r = Row { entries: Vec::new() };
        assert(r@ =~= RowView::empty());
        r
    }

    /// The number of fields. Every row has each key once.
    pub fn len(&self) -> (n: usize)
        ensures
            n == self@.len(),
            distinct_keys(self@),
    {
        proof {
            use_type_invariant(self);
        }
        self.entries.len()
    }

    /// The key of field `i`.
    pub fn key(&self, i: usize) -> (r: &String)
        requires
            i < self@.len(),
        ensures
            r@ == self@[i as int].0,
    {
        &self.entries[i].0
    }

    /// The value of field `i`.
    pub fn datum(&self, i: usize) -> (r: &Datum)
        requires
            i < self@.len(),
        ensures
            r@ == self@[i as int].1,
    {
        &self.entries[i].1
    }

    /// The place of the first field with this key, or the number of fields.
    fn find(&self, key: &String) -> (p: usize)
        ensures
            p == find_key(self@, key@, 0),
            p <= self@.len(),
    {
        let mut i: usize = 0;
        while i < self.entries.len()
            invariant
                i <= self@.len(),
                self@.len() == self.entries@.len(),
                find_key(self@, key@, 0) == find_key(self@, key@, i as int),
            decreases self.entries.len() - i,
        {
            if self.entries[i].0 == *key {
                return i;
            }
            i = i + 1;
        }
        i
    }

    /// The value under `key`, where there is one.
    pub fn get(&self, key: &String) -> (r: Option<&Datum>)
        ensures
            r is Some == has_key(self@, key@),
            r is Some ==> r->0@ == lookup(self@, key@),
    {
        let p: usize = self.find(key);
        if p < self.entries.len() {
            Some(&self.entries[p].1)
        } else {
            None
        }
    }

    /// Sets the value under `key`: the last value set stays, in the place of the first.
    pub fn insert(&mut self, key: String, value: Datum)
        ensures
            final(self)@ == upsert(old(self)@, key@, value@),
            distinct_keys(final(self)@),
    {
        proof {
            use_type_invariant(&*self);
            upsert_keeps_keys_distinct(self@, key@, value@);
        }
        let p: usize = self.find(&key);
        let mut entries: Vec<(String, Datum)> = Vec::new();
        std::mem::swap(&mut entries, &mut self.entries);
        if p < entries.len() {
            entries.set(p, (key, value));
        } else {
            entries.push((key, value));
        }
        assert(entry_views(entries@) =~= upsert(old(self)@, key@, value@));
        self.entries = entries;
    }
}

// Laws of rows.

/// A key that is found holds at the place found, and no earlier place has it.
proof fn lemma_find_key(row: RowView, key: Seq<char>, from: int)
    requires
        0 <= from <= row.len(),
    ensures
        from <= find_key(row, key, from) <= row.len(),
        find_key(row, key, from) < row.len() ==> row[find_key(row, key, from)].0 == key,
        forall|i: int| from <= i < find_key(row, key, from) ==> (#[trigger] row[i]).0 != key,
    decreases row.len() - from,
{
    if from < row.len() && row[from].0 != key {
        lemma_find_key(row, key, from + 1);
    }
}

/// Setting a field keeps the keys of a row distinct.
pub proof fn upsert_keeps_keys_distinct(row: RowView, key: Seq<char>, value: DatumView)
    requires
        distinct_keys(row),
    ensures
        distinct_keys(upsert(row, key, value)),
{
    lemma_find_key(row, key, 0);
}

/// What was set last under a key is what is found there; the other keys keep their values.
pub proof fn upsert_then_lookup(row: RowView, key: Seq<char>, value: DatumView, other: Seq<char>)
    ensures
        has_key(upsert(row, key, value), key),
        lookup(upsert(row, key, value), key) == value,
        other != key ==> has_key(upsert(row, key, value), other) == has_key(row, other),
        other != key ==> lookup(upsert(row, key, value), other) == lookup(row, other),
{
    let after = upsert(row, key, value);
    lemma_find_key(row, key, 0);
    lemma_find_key(after, key, 0);
    lemma_find_key(row, other, 0);
    lemma_find_key(after, other, 0);
    let p = find_key(row, key, 0);
    assert(after[p] == (key, value));
    let q = find_key(after, key, 0);
    if q < p {
        assert(after[q] == row[q]);
    }
    if other != key {
        let a = find_key(row, other, 0);
        let b = find_key(after, other, 0);
        if a < row.len() {
            assert(after[a].0 == other);
        }
        if b < after.len() {
            assert(after[b].0 == other);
            assert(b < row.len() && row[b].0 == other);
        }
    }
}

/// Every row that is built field by field has each key once.
pub proof fn rows_have_distinct_keys(pairs: RowView)
    ensures
        distinct_keys(row_of(pairs)),
    decreases pairs.len(),
{
    if pairs.len() > 0 {
        rows_have_distinct_keys(pairs.drop_last());
        upsert_keeps_keys_distinct(row_of(pairs.drop_last()), pairs.last().0, pairs.last().1);
    }
}

/// Where no key is set twice, the row is the settings as they are: none is lost or moved.
pub proof fn distinct_settings_all_stay(pairs: RowView)
    requires
        distinct_keys(pairs),
    ensures
        row_of(pairs) == pairs,
    decreases pairs.len(),
{
    if pairs.len() > 0 {
        let front = pairs.drop_last();
        assert forall|a: int, b: int| 0 <= a < b < front.len() implies #[trigger] front[a].0 != #[trigger] front[b].0 by {
            assert(pairs[a].0 != pairs[b].0);
        }
        distinct_settings_all_stay(front);
        lemma_find_key(front, pairs.last().0, 0);
        let p = find_key(front, pairs.last().0, 0);
        if p < front.len() {
            assert(pairs[p].0 != pairs[pairs.len() - 1].0);
        }
        assert(front.push(pairs.last()) =~= pairs);
    }
}

/// A key is among the fields of a row just where the row has it.
pub(crate) proof fn lemma_fields_contain(row: RowView, key: Seq<char>)
    ensures
        fields(row).contains_key(key) == (exists|i: int| 0 <= i < row.len() && (#[trigger] row[i]).0 == key),
    decreases row.len(),
{
    if row.len() > 0 {
        let front = row.drop_last();
        lemma_fields_contain(front, key);
        if fields(row).contains_key(key) {
            if row.last().0 == key {
                assert(row[row.len() - 1].0 == key);
            } else {
                let i = choose|i: int| 0 <= i < front.len() && (#[trigger] front[i]).0 == key;
                assert(row[i].0 == key);
            }
        }
        if exists|i: int| 0 <= i < row.len() && (#[trigger] row[i]).0 == key {
            let i = choose|i: int| 0 <= i < row.len() && (#[trigger] row[i]).0 == key;
            if i < front.len() {
                assert(front[i].0 == key);
            }
        }
    }
}

/// In a row with distinct keys, each field's value is the one the object has.
pub(crate) proof fn lemma_fields_value(row: RowView, i: int)
    requires
        distinct_keys(row),
        0 <= i < row.len(),
    ensures
        fields(row).contains_key(row[i].0),
        fields(row)[row[i].0] == row[i].1,
    decreases row.len(),
{
    if i < row.len() - 1 {
        let front = row.drop_last();
        assert(distinct_keys(front)) by {
            assert forall|a: int, b: int| 0 <= a < b < front.len() implies #[trigger] front[a].0 != #[trigger] front[b].0 by {
                assert(row[a].0 != row[b].0);
            }
        }
        lemma_fields_value(front, i);
        assert(front[i] == row[i]);
        assert(row[i].0 != row[row.len() - 1].0);
    }
}

/// In a row with distinct keys, looking a key up and reading it off the object are one.
pub proof fn lookup_is_the_field(row: RowView, key: Seq<char>)
    requires
        distinct_keys(row),
    ensures
        has_key(row, key) == fields(row).contains_key(key),
        has_key(row, key) ==> lookup(row, key) == fields(row)[key],
{
    lemma_find_key(row, key, 0);
    lemma_fields_contain(row, key);
    if has_key(row, key) {
        let p = find_key(row, key, 0);
        assert(row[p].0 == key);
        lemma_fields_value(row, p);
    }
}

/// The object of a row built field by field is the object that the same settings build, one
/// after the other: the last value set under a key stays.
pub proof fn row_is_the_object(pairs: RowView)
    ensures
        fields(row_of(pairs)) == fields(pairs),
    decreases pairs.len(),
{
    if pairs.len() > 0 {
        let front = row_of(pairs.drop_last());
        let key = pairs.last().0;
        let value = pairs.last().1;
        row_is_the_object(pairs.drop_last());
        rows_have_distinct_keys(pairs.drop_last());
        rows_have_distinct_keys(pairs);
        let after = upsert(front, key, value);
        assert forall|k: Seq<char>| #[trigger] fields(after).contains_key(k) == fields(front).insert(key, value).contains_key(k) by {
            upsert_then_lookup(front, key, value, k);
            lookup_is_the_field(after, k);
            lookup_is_the_field(front, k);
        }
        assert forall|k: Seq<char>| #[trigger] fields(after).contains_key(k) implies fields(after)[k] == fields(front).insert(key, value)[k] by {
            upsert_then_lookup(front, key, value, k);
            lookup_is_the_field(after, k);
            lookup_is_the_field(front, k);
            assert(fields(front).insert(key, value).contains_key(k));
        }
        assert(fields(after) =~= fields(front).insert(key, value));
    }
}

/// A value is seen as what it holds.
pub proof fn values_are_what_they_hold(d: Datum)
    ensures
        d matches Datum::Null ==> d@ == DatumView::Null,
        d matches Datum::Bool(b) ==> d@ == DatumView::Bool(b),
        d matches Datum::Num(Num::Int(i)) ==> d@ == DatumView::Num(NumView::Int(i)),
        d matches Datum::Num(Num::Float(f)) ==> d@ == DatumView::Num(NumView::Float(f@)),
        d matches Datum::Text(s) ==> d@ == DatumView::Text(s@),
{
}

/// The rows of a table are seen one by one, in order.
pub proof fn tables_are_their_rows(rows: Seq<Row>)
    ensures
        table(rows).len() == rows.len(),
        forall|i: int| 0 <= i < rows.len() ==> #[trigger] table(rows)[i] == rows[i]@,
{
}

/// In a row without a key twice, a key is found just where a field has it, with that field's value.
pub proof fn keys_are_found_where_they_stand(row: RowView, key: Seq<char>, p: int)
    requires
        forall|i: int, j: int| 0 <= i < j < row.len() ==> #[trigger] row[i].0 != #[trigger] row[j].0,
    ensures
        0 <= p < row.len() && row[p].0 == key ==> has_key(row, key) && lookup(row, key) == row[p].1,
        (forall|i: int| 0 <= i < row.len() ==> (#[trigger] row[i]).0 != key) ==> !has_key(row, key) && lookup(row, key)
            == DatumView::Null,
{
    lemma_find_key(row, key, 0);
    let q = find_key(row, key, 0);
    if 0 <= p < row.len() && row[p].0 == key {
        assert(q <= p);
        if q < p {
            assert(row[q].0 != row[p].0);
        }
    }
}

/// Setting a key that stands in a row changes that field alone; setting another puts a field at the
/// end and changes none.
pub proof fn setting_touches_one_field(row: RowView, key: Seq<char>, value: DatumView, p: int)
    requires
        forall|i: int, j: int| 0 <= i < j < row.len() ==> #[trigger] row[i].0 != #[trigger] row[j].0,
    ensures
        0 <= p < row.len() && row[p].0 == key ==> upsert(row, key, value) == row.update(p, (key, value)),
        (forall|i: int| 0 <= i < row.len() ==> (#[trigger] row[i]).0 != key) ==> upsert(row, key, value) == row.push(
            (key, value),
        ),
{
    lemma_find_key(row, key, 0);
    let q = find_key(row, key, 0);
    if 0 <= p < row.len() && row[p].0 == key {
        assert(q <= p);
        if q < p {
            assert(row[q].0 != row[p].0);
        }
    }
}

/// One setting more: where the row has the key already, at `p`, that field takes the new value, and
/// else the setting stands at the end. Without settings there are no fields.
pub proof fn one_setting_more(pairs: RowView, key: Seq<char>, value: DatumView, p: int)
    ensures
        row_of(RowView::empty()) == RowView::empty(),
        0 <= p < row_of(pairs).len() && row_of(pairs)[p].0 == key ==> row_of(pairs.push((key, value))) == row_of(
            pairs,
        ).update(p, (key, value)),
        (forall|i: int| 0 <= i < row_of(pairs).len() ==> (#[trigger] row_of(pairs)[i]).0 != key) ==> row_of(
            pairs.push((key, value)),
        ) == row_of(pairs).push((key, value)),
{
    assert(pairs.push((key, value)).drop_last() =~= pairs);
    rows_have_distinct_keys(pairs);
    setting_touches_one_field(row_of(pairs), key, value, p);
}

/// The last setting of a key is a field of the row, and the row has no other field.
pub proof fn the_last_setting_counts(pairs: RowView)
    ensures
        forall|i: int|
            0 <= i < pairs.len() && (forall|j: int| i < j < pairs.len() ==> (#[trigger] pairs[j]).0 != pairs[i].0)
                ==> row_of(pairs).contains(#[trigger] pairs[i]),
        forall|p: int| 0 <= p < row_of(pairs).len() ==> pairs.contains(#[trigger] row_of(pairs)[p]),
        forall|p: int, q: int| 0 <= p < q < row_of(pairs).len() ==> #[trigger] row_of(pairs)[p].0 != #[trigger] row_of(
            pairs,
        )[q].0,
    decreases pairs.len(),
{
    rows_have_distinct_keys(pairs);
    if pairs.len() > 0 {
        let front = pairs.drop_last();
        let last = pairs.last();
        let before = row_of(front);
        let after = row_of(pairs);
        the_last_setting_counts(front);
        rows_have_distinct_keys(front);
        lemma_find_key(before, last.0, 0);
        let place = find_key(before, last.0, 0);
        assert(after[place] == last);
        assert forall|i: int|
            0 <= i < pairs.len() && (forall|j: int| i < j < pairs.len() ==> (#[trigger] pairs[j]).0 != pairs[i].0)
                implies after.contains(#[trigger] pairs[i]) by {
            if i < front.len() {
                assert(pairs[pairs.len() - 1].0 != pairs[i].0);
                assert forall|j: int| i < j < front.len() implies (#[trigger] front[j]).0 != front[i].0 by {
                    assert(pairs[j].0 != pairs[i].0);
                }
                assert(before.contains(front[i]));
                let p = choose|p: int| 0 <= p < before.len() && before[p] == front[i];
                assert(after[p] == pairs[i]);
            }
        }
        assert forall|p: int| 0 <= p < after.len() implies pairs.contains(#[trigger] after[p]) by {
            if p == place {
                assert(pairs[pairs.len() - 1] == last);
            } else {
                assert(after[p] == before[p]);
                assert(front.contains(before[p]));
                let i = choose|i: int| 0 <= i < front.len() && front[i] == before[p];
                assert(pairs[i] == after[p]);
            }
        }
    }
}

/// The object of a row without a key twice has just the row's keys, each with its value.
pub proof fn objects_hold_the_fields(row: RowView, key: Seq<char>, p: int)
    requires
        forall|i: int, j: int| 0 <= i < j < row.len() ==> #[trigger] row[i].0 != #[trigger] row[j].0,
    ensures
        0 <= p < row.len() && row[p].0 == key ==> fields(row).contains_key(key) && fields(row)[key] == row[p].1,
        (forall|i: int| 0 <= i < row.len() ==> (#[trigger] row[i]).0 != key) ==> !fields(row).contains_key(key),
{
    lemma_fields_contain(row, key);
    if 0 <= p < row.len() && row[p].0 == key {
        lemma_fields_value(row, p);
    }
}

} // verus!
