//! Curation: blank rows go, and of rows that are the same JSON object the first stays.
use vstd::hash_set::StringHashSet;
use vstd::prelude::*;

use crate::delimited::texts;
use crate::json::{is_object, is_text_of_only, object_text, row_to_json, table_fields};
use crate::value::{
    distinct_keys, fields, lemma_fields_contain, lemma_fields_value, table, Datum, DatumView, Object, Row, RowView,
};

verus! {

broadcast use vstd::string::group_string_axioms;

// Blank rows.

/// Null or an empty text.
pub open spec fn is_blank(value: DatumView) -> bool {
    match value {
        DatumView::Null => true,
        DatumView::Text(s) => s.len() == 0,
        _ => false,
    }
}

/// Every field of the row is blank.
pub open spec fn is_blank_row(row: RowView) -> bool {
    forall|i: int| 0 <= i < row.len() ==> is_blank((#[trigger] row[i]).1)
}

/// The rows that are not blank, in order.
pub open spec fn without_blank_rows(rows: Seq<RowView>) -> Seq<RowView> {
    rows.filter(|row: RowView| !is_blank_row(row))
}

/// Is every field of the row null or empty?
pub fn row_is_blank(row: &Row) -> (r: bool)
    ensures
        r == is_blank_row(row@),
{
    let mut i: usize = 0;
    while i < row.len()
        invariant
            i <= row@.len(),
            forall|j: int| 0 <= j < i ==> is_blank((#[trigger] row@[j]).1),
        decreases row@.len() - i,
    {
        let blank = match row.datum(i) {
            Datum::Null => true,
            Datum::Text(s) => s.as_str().is_empty(),
            _ => false,
        };
        if !blank {
            assert(!is_blank(row@[i as int].1));
            return false;
        }
        i = i + 1;
    }
    true
}

/// Takes out the rows in which every field is null or empty.
pub fn drop_empty_rows(rows: Vec<Row>) -> (r: Vec<Row>)
    ensures
        table(r@) == without_blank_rows(table(rows@)),
{
    let ghost all = table(rows@);
    let mut kept: Vec<Row> = Vec::new();
    assert(table(kept@) =~= without_blank_rows(all.take(0))) by {
        reveal(Seq::filter);
    }
    for row in it: rows
        invariant
            it.seq() == rows@,
            all == table(rows@),
            table(kept@) == without_blank_rows(all.take(it.index())),
    {
        let ghost i = it.index();
        let ghost before = kept@;
        let blank = row_is_blank(&row);
        proof {
            reveal(Seq::filter);
            assert(all.take(i + 1).drop_last() =~= all.take(i));
            assert(all.take(i + 1).last() == row@);
        }
        if !blank {
            kept.push(row);
            assert(table(kept@) =~= table(before).push(row@));
        }
    }
    assert(all.take(all.len() as int) =~= all);
    kept
}

// Duplicates.

/// `rows` without each row whose key stood before it. `keys` gives each row's key.
pub open spec fn first_of_each<K>(rows: Seq<RowView>, keys: Seq<K>) -> Seq<RowView>
    decreases rows.len(),
{
    if rows.len() == 0 || keys.len() != rows.len() {
        Seq::empty()
    } else {
        let kept = first_of_each(rows.drop_last(), keys.drop_last());
        if keys.drop_last().contains(keys.last()) {
            kept
        } else {
            kept.push(rows.last())
        }
    }
}

/// `rows` without each row that, as a JSON object, stood before it.
pub open spec fn without_duplicates(rows: Seq<RowView>) -> Seq<RowView> {
    first_of_each(rows, table_fields(rows))
}

/// Keeps the first row of each key and says how many rows went. `keys` gives each row's key.
pub fn keep_first_of_each(rows: Vec<Row>, keys: Vec<String>) -> (r: (Vec<Row>, usize))
    requires
        rows@.len() == keys@.len(),
    ensures
        table(r.0@) == first_of_each(table(rows@), texts(keys@)),
        r.1 == rows@.len() - r.0@.len(),
{
    let ghost all = table(rows@);
    let ghost names = texts(keys@);
    let total: usize = rows.len();
    let mut seen = StringHashSet::new();
    let mut kept: Vec<Row> = Vec::new();
    let mut i: usize = 0;
    assert(table(kept@) =~= first_of_each(all.take(0), names.take(0)));
    for row in it: rows
        invariant
            it.seq() == rows@,
            total == rows@.len(),
            all == table(rows@),
            names == texts(keys@),
            rows@.len() == keys@.len(),
            i == it.index(),
            kept@.len() <= i,
            table(kept@) == first_of_each(all.take(i as int), names.take(i as int)),
            forall|k: Seq<char>| seen@.contains(k) == names.take(i as int).contains(k),
    {
        let ghost before = kept@;
        let ghost earlier = names.take(i as int);
        let ghost now = names.take(i + 1);
        let key = keys[i].clone();
        proof {
            assert(all.take(i + 1).drop_last() =~= all.take(i as int));
            assert(now.drop_last() =~= earlier);
            assert(all.take(i + 1).last() == row@);
            assert(now.last() == key@);
        }
        let new = seen.insert(key);
        assert forall|k: Seq<char>| seen@.contains(k) == now.contains(k) by {
            if earlier.contains(k) {
                let j = choose|j: int| 0 <= j < earlier.len() && earlier[j] == k;
                assert(now[j] == k);
            }
            if now.contains(k) && k != names[i as int] {
                let j = choose|j: int| 0 <= j < now.len() && now[j] == k;
                assert(earlier[j] == k);
            }
            assert(now[i as int] == names[i as int]);
        }
        if new {
            kept.push(row);
            assert(table(kept@) =~= table(before).push(row@));
        }
        i = i + 1;
    }
    assert(all.take(all.len() as int) =~= all);
    assert(names.take(names.len() as int) =~= names);
    let removed: usize = total - kept.len();
    (kept, removed)
}

/// Keys that tell the rows apart in the same way keep the same rows.
proof fn lemma_same_distinctions<K, L>(rows: Seq<RowView>, a: Seq<K>, b: Seq<L>)
    requires
        a.len() == rows.len(),
        b.len() == rows.len(),
        forall|i: int, j: int|
            #![trigger a[i], a[j]]
            #![trigger b[i], b[j]]
            0 <= i < rows.len() && 0 <= j < rows.len() ==> (a[i] == a[j]) == (b[i] == b[j]),
    ensures
        first_of_each(rows, a) == first_of_each(rows, b),
    decreases rows.len(),
{
    if rows.len() > 0 {
        let n = rows.len() - 1;
        let fa = a.drop_last();
        let fb = b.drop_last();
        assert forall|i: int, j: int|
            #![trigger fa[i], fa[j]]
            #![trigger fb[i], fb[j]]
            0 <= i < n && 0 <= j < n implies (fa[i] == fa[j]) == (fb[i] == fb[j]) by {
            assert((a[i] == a[j]) == (b[i] == b[j]));
        }
        lemma_same_distinctions(rows.drop_last(), fa, fb);
        if fa.contains(a.last()) {
            let i = choose|i: int| 0 <= i < fa.len() && fa[i] == a.last();
            assert((a[i] == a[n]) == (b[i] == b[n]));
            assert(fb[i] == b.last());
        }
        if fb.contains(b.last()) {
            let i = choose|i: int| 0 <= i < fb.len() && fb[i] == b.last();
            assert((a[i] == a[n]) == (b[i] == b[n]));
            assert(fa[i] == a.last());
        }
    }
}

/// Keeps the first of the rows that are the same JSON object and says how many rows went.
pub fn deduplicate(rows: Vec<Row>) -> (r: (Vec<Row>, usize))
    ensures
        table(r.0@) == without_duplicates(table(rows@)),
        r.1 == rows@.len() - r.0@.len(),
{
    let ghost objects = table_fields(table(rows@));
    let mut keys: Vec<String> = Vec::new();
    let mut i: usize = 0;
    while i < rows.len()
        invariant
            i <= rows@.len(),
            keys@.len() == i,
            objects == table_fields(table(rows@)),
            forall|j: int| 0 <= j < i ==> (#[trigger] keys@[j])@ == object_text(objects[j]),
            forall|j: int| 0 <= j < i ==> is_text_of_only((#[trigger] keys@[j])@, objects[j]) && is_object(objects[j]),
        decreases rows@.len() - i,
    {
        keys.push(row_to_json(&rows[i]));
        i = i + 1;
    }
    proof {
        let names = texts(keys@);
        assert forall|i: int, j: int|
            #![trigger names[i], names[j]]
            #![trigger objects[i], objects[j]]
            0 <= i < rows@.len() && 0 <= j < rows@.len() implies (names[i] == names[j]) == (objects[i] == objects[j]) by {
            assert(names[i] == keys@[i]@ && names[j] == keys@[j]@);
            assert(is_text_of_only(keys@[j]@, objects[j]) && is_object(objects[i]));
            assert(object_text(objects[i]) == keys@[i]@);
        }
        lemma_same_distinctions(table(rows@), names, objects);
    }
    keep_first_of_each(rows, keys)
}

// Laws.

/// No row that is left is blank, every row that is not blank is left, and nothing is added.
pub proof fn just_the_blank_rows_go(rows: Seq<RowView>, row: RowView)
    ensures
        without_blank_rows(rows).contains(row) == (rows.contains(row) && !is_blank_row(row)),
        without_blank_rows(rows).len() <= rows.len(),
    decreases rows.len(),
{
    reveal(Seq::filter);
    if rows.len() > 0 {
        let front = rows.drop_last();
        let kept = without_blank_rows(front);
        just_the_blank_rows_go(front, row);
        lemma_push_contains(front, rows.last(), row);
        assert(front.push(rows.last()) =~= rows);
        lemma_push_contains(kept, rows.last(), row);
    }
}

/// Taking out the blank rows twice is taking them out once.
pub proof fn blank_rows_go_once(rows: Seq<RowView>)
    ensures
        without_blank_rows(without_blank_rows(rows)) == without_blank_rows(rows),
    decreases rows.len(),
{
    reveal(Seq::filter);
    if rows.len() > 0 {
        let kept = without_blank_rows(rows.drop_last());
        blank_rows_go_once(rows.drop_last());
        assert(kept.push(rows.last()).drop_last() =~= kept);
    }
}

/// What a sequence holds after one more element is put at its end.
proof fn lemma_push_contains<T>(s: Seq<T>, last: T, x: T)
    ensures
        s.push(last).contains(x) == (s.contains(x) || x == last),
{
    if s.contains(x) {
        let i = choose|i: int| 0 <= i < s.len() && s[i] == x;
        assert(s.push(last)[i] == x);
    }
    if s.push(last).contains(x) && x != last {
        let i = choose|i: int| 0 <= i < s.push(last).len() && s.push(last)[i] == x;
        assert(s[i] == x);
    }
    assert(s.push(last)[s.len() as int] == last);
}

/// The objects of the rows but the last are the objects but the last.
proof fn lemma_objects_front(rows: Seq<RowView>)
    requires
        rows.len() > 0,
    ensures
        table_fields(rows).drop_last() == table_fields(rows.drop_last()),
        table_fields(rows).last() == fields(rows.last()),
{
    assert(table_fields(rows).drop_last() =~= table_fields(rows.drop_last()));
}

/// The rows that are left are the objects that there were, and each row that is left was there.
pub proof fn every_row_stays_once(rows: Seq<RowView>, object: Object, row: RowView)
    ensures
        table_fields(without_duplicates(rows)).contains(object) == table_fields(rows).contains(object),
        without_duplicates(rows).contains(row) ==> rows.contains(row),
        without_duplicates(rows).len() <= rows.len(),
    decreases rows.len(),
{
    if rows.len() == 0 {
        assert(table_fields(without_duplicates(rows)) =~= table_fields(rows));
    } else {
        let front = rows.drop_last();
        let kept = without_duplicates(front);
        lemma_objects_front(rows);
        every_row_stays_once(front, object, row);
        every_row_stays_once(front, fields(rows.last()), row);
        lemma_push_contains(table_fields(front), fields(rows.last()), object);
        assert(table_fields(front).push(fields(rows.last())) =~= table_fields(rows));
        lemma_push_contains(table_fields(kept), fields(rows.last()), object);
        assert(table_fields(kept).push(fields(rows.last())) =~= table_fields(kept.push(rows.last())));
        lemma_push_contains(front, rows.last(), row);
        assert(front.push(rows.last()) =~= rows);
        lemma_push_contains(kept, rows.last(), row);
    }
}

/// No two of the rows that are left are the same JSON object, whatever the order of their fields.
pub proof fn no_duplicates_are_left(rows: Seq<RowView>, i: int, j: int)
    requires
        0 <= i < j < without_duplicates(rows).len(),
    ensures
        fields(without_duplicates(rows)[i]) != fields(without_duplicates(rows)[j]),
    decreases rows.len(),
{
    let front = rows.drop_last();
    let kept = without_duplicates(front);
    lemma_objects_front(rows);
    if j < kept.len() {
        no_duplicates_are_left(front, i, j);
    } else {
        every_row_stays_once(front, fields(rows.last()), rows.last());
        assert(table_fields(kept)[i] == fields(kept[i]));
    }
}

/// Where no two rows are the same JSON object, every row stays.
pub proof fn distinct_rows_stay(rows: Seq<RowView>)
    requires
        forall|i: int, j: int| 0 <= i < j < rows.len() ==> fields(#[trigger] rows[i]) != fields(#[trigger] rows[j]),
    ensures
        without_duplicates(rows) == rows,
    decreases rows.len(),
{
    if rows.len() > 0 {
        let front = rows.drop_last();
        lemma_objects_front(rows);
        assert forall|i: int, j: int| 0 <= i < j < front.len() implies fields(#[trigger] front[i]) != fields(#[trigger] front[j]) by {
            assert(fields(rows[i]) != fields(rows[j]));
        }
        distinct_rows_stay(front);
        if table_fields(front).contains(fields(rows.last())) {
            let i = choose|i: int| 0 <= i < table_fields(front).len() && table_fields(front)[i] == fields(rows.last());
            assert(fields(rows[i]) != fields(rows[rows.len() - 1]));
        }
        assert(front.push(rows.last()) =~= rows);
    }
}

/// Taking out the duplicates twice is taking them out once.
pub proof fn duplicates_go_once(rows: Seq<RowView>)
    ensures
        without_duplicates(without_duplicates(rows)) == without_duplicates(rows),
{
    let kept = without_duplicates(rows);
    assert forall|i: int, j: int| 0 <= i < j < kept.len() implies fields(#[trigger] kept[i]) != fields(#[trigger] kept[j]) by {
        no_duplicates_are_left(rows, i, j);
    }
    distinct_rows_stay(kept);
}

/// The first row of a table always stays, in its place.
pub proof fn the_first_row_stays(rows: Seq<RowView>)
    requires
        rows.len() > 0,
    ensures
        without_duplicates(rows).len() > 0,
        without_duplicates(rows)[0] == rows[0],
    decreases rows.len(),
{
    lemma_objects_front(rows);
    if rows.len() > 1 {
        the_first_row_stays(rows.drop_last());
    } else {
        assert(without_duplicates(rows.drop_last()) =~= Seq::empty());
    }
}

/// Every row of a curated table was in the table, and none is blank.
pub proof fn curated_rows_are_clean(rows: Seq<RowView>, i: int)
    requires
        0 <= i < without_duplicates(without_blank_rows(rows)).len(),
    ensures
        !is_blank_row(without_duplicates(without_blank_rows(rows))[i]),
        rows.contains(without_duplicates(without_blank_rows(rows))[i]),
{
    let cleaned = without_blank_rows(rows);
    let row = without_duplicates(cleaned)[i];
    every_row_stays_once(cleaned, fields(row), row);
    just_the_blank_rows_go(rows, row);
}

/// `part` is `whole` with some of its elements left out.
pub open spec fn is_subsequence(part: Seq<RowView>, whole: Seq<RowView>) -> bool
    decreases whole.len(),
{
    if whole.len() == 0 {
        part.len() == 0
    } else {
        ||| is_subsequence(part, whole.drop_last())
        ||| part.len() > 0 && part.last() == whole.last() && is_subsequence(part.drop_last(), whole.drop_last())
    }
}

/// Curation leaves rows out; it neither changes nor moves any.
pub proof fn curation_keeps_the_order(rows: Seq<RowView>)
    ensures
        is_subsequence(without_blank_rows(rows), rows),
        is_subsequence(without_duplicates(rows), rows),
    decreases rows.len(),
{
    reveal(Seq::filter);
    if rows.len() > 0 {
        let front = rows.drop_last();
        curation_keeps_the_order(front);
        lemma_objects_front(rows);
        let cleaned = without_blank_rows(front);
        assert(cleaned.push(rows.last()).drop_last() =~= cleaned);
        let kept = without_duplicates(front);
        assert(kept.push(rows.last()).drop_last() =~= kept);
    }
}

/// Whether a row is blank shows in its JSON object.
proof fn lemma_blank_objects(a: RowView, b: RowView)
    requires
        distinct_keys(a),
        distinct_keys(b),
        fields(a) == fields(b),
        is_blank_row(a),
    ensures
        is_blank_row(b),
{
    assert forall|i: int| 0 <= i < b.len() implies is_blank((#[trigger] b[i]).1) by {
        lemma_fields_value(b, i);
        lemma_fields_contain(a, b[i].0);
        let j = choose|j: int| 0 <= j < a.len() && (#[trigger] a[j]).0 == b[i].0;
        lemma_fields_value(a, j);
        assert(is_blank(a[j].1));
    }
}

/// The two steps of curation may change places: the rows that are left do not depend on which
/// comes first.
pub proof fn the_steps_may_change_places(rows: Seq<RowView>)
    requires
        forall|i: int| 0 <= i < rows.len() ==> distinct_keys(#[trigger] rows[i]),
    ensures
        without_blank_rows(without_duplicates(rows)) == without_duplicates(without_blank_rows(rows)),
    decreases rows.len(),
{
    reveal(Seq::filter);
    if rows.len() == 0 {
        assert(without_blank_rows(rows) =~= rows);
        assert(without_duplicates(rows) =~= rows);
    } else {
        let front = rows.drop_last();
        let last = rows.last();
        assert forall|i: int| 0 <= i < front.len() implies distinct_keys(#[trigger] front[i]) by {
            assert(front[i] == rows[i]);
        }
        assert(distinct_keys(rows[rows.len() - 1]));
        the_steps_may_change_places(front);
        lemma_objects_front(rows);
        let kept = without_duplicates(front);
        let full = without_blank_rows(front);
        assert(kept.push(last).drop_last() =~= kept);
        if !is_blank_row(last) {
            assert(full.push(last).drop_last() =~= full);
            lemma_objects_front(full.push(last));
            assert(table_fields(front).contains(fields(last)) == table_fields(full).contains(fields(last))) by {
                if table_fields(front).contains(fields(last)) {
                    let i = choose|i: int| 0 <= i < front.len() && table_fields(front)[i] == fields(last);
                    assert(distinct_keys(front[i]));
                    if is_blank_row(front[i]) {
                        lemma_blank_objects(front[i], last);
                    }
                    just_the_blank_rows_go(front, front[i]);
                    assert(front.contains(front[i]));
                    let k = choose|k: int| 0 <= k < full.len() && full[k] == front[i];
                    assert(table_fields(full)[k] == fields(last));
                }
                if table_fields(full).contains(fields(last)) {
                    let k = choose|k: int| 0 <= k < full.len() && table_fields(full)[k] == fields(last);
                    just_the_blank_rows_go(front, full[k]);
                    assert(full.contains(full[k]));
                    let i = choose|i: int| 0 <= i < front.len() && front[i] == full[k];
                    assert(table_fields(front)[i] == fields(last));
                }
            }
        }
    }
}

/// A row stays just where it holds a number, a truth value or a text of at least one character: it
/// goes only where every value is null or the empty text.
pub proof fn rows_with_a_value_stay(rows: Seq<RowView>, row: RowView)
    ensures
        without_blank_rows(rows).contains(row) <==> rows.contains(row) && exists|i: int|
            0 <= i < row.len() && ((#[trigger] row[i]).1 is Num || row[i].1 is Bool || row[i].1 is Text && row[i].1->Text_0.len()
                > 0),
{
    just_the_blank_rows_go(rows, row);
    if is_blank_row(row) {
        assert forall|i: int| 0 <= i < row.len() implies !((#[trigger] row[i]).1 is Num || row[i].1 is Bool || row[i].1 is Text
            && row[i].1->Text_0.len() > 0) by {
            assert(is_blank(row[i].1));
        }
    } else {
        let i = choose|i: int| 0 <= i < row.len() && !is_blank((#[trigger] row[i]).1);
        assert(row[i].1 is Num || row[i].1 is Bool || row[i].1 is Text && row[i].1->Text_0.len() > 0);
    }
}

/// One row more: it stands at the end where it holds a number, a truth value or a text of at least
/// one character, and else nothing changes. Of no rows none are left.
pub proof fn one_row_more_to_clean(rows: Seq<RowView>, row: RowView)
    ensures
        without_blank_rows(Seq::empty()) == Seq::<RowView>::empty(),
        (exists|i: int|
            0 <= i < row.len() && ((#[trigger] row[i]).1 is Num || row[i].1 is Bool || row[i].1 is Text && row[i].1->Text_0.len()
                > 0)) ==> without_blank_rows(rows.push(row)) == without_blank_rows(rows).push(row),
        (forall|i: int|
            0 <= i < row.len() ==> (#[trigger] row[i]).1 is Null || row[i].1 is Text && row[i].1->Text_0.len() == 0)
            ==> without_blank_rows(rows.push(row)) == without_blank_rows(rows),
{
    reveal(Seq::filter);
    assert(rows.push(row).drop_last() =~= rows);
    if exists|i: int|
        0 <= i < row.len() && ((#[trigger] row[i]).1 is Num || row[i].1 is Bool || row[i].1 is Text && row[i].1->Text_0.len()
            > 0) {
        let i = choose|i: int|
            0 <= i < row.len() && ((#[trigger] row[i]).1 is Num || row[i].1 is Bool || row[i].1 is Text && row[i].1->Text_0.len()
                > 0);
        assert(!is_blank(row[i].1));
    }
    if forall|i: int| 0 <= i < row.len() ==> (#[trigger] row[i]).1 is Null || row[i].1 is Text && row[i].1->Text_0.len() == 0 {
        assert forall|i: int| 0 <= i < row.len() implies is_blank((#[trigger] row[i]).1) by {}
    }
}

/// A row is blank just where every value is null or the empty text.
pub proof fn blank_is_null_or_empty(row: RowView)
    ensures
        is_blank_row(row) <==> forall|i: int|
            0 <= i < row.len() ==> (#[trigger] row[i]).1 is Null || row[i].1 is Text && row[i].1->Text_0.len() == 0,
{
    if is_blank_row(row) {
        assert forall|i: int| 0 <= i < row.len() implies (#[trigger] row[i]).1 is Null || row[i].1 is Text
            && row[i].1->Text_0.len() == 0 by {
            assert(is_blank(row[i].1));
        }
    }
}

/// One row more: it stands at the end unless a row before it is the same object, and then nothing
/// changes. So the first of the rows that are one object stays, in its place, as it is.
pub proof fn one_row_more_to_tell_apart(rows: Seq<RowView>, row: RowView)
    ensures
        without_duplicates(Seq::empty()) == Seq::<RowView>::empty(),
        (exists|i: int| 0 <= i < rows.len() && fields(#[trigger] rows[i]) == fields(row)) ==> without_duplicates(
            rows.push(row),
        ) == without_duplicates(rows),
        (forall|i: int| 0 <= i < rows.len() ==> fields(#[trigger] rows[i]) != fields(row)) ==> without_duplicates(
            rows.push(row),
        ) == without_duplicates(rows).push(row),
{
    let longer = rows.push(row);
    assert(longer.drop_last() =~= rows);
    lemma_objects_front(longer);
    if exists|i: int| 0 <= i < rows.len() && fields(#[trigger] rows[i]) == fields(row) {
        let i = choose|i: int| 0 <= i < rows.len() && fields(#[trigger] rows[i]) == fields(row);
        assert(table_fields(rows)[i] == fields(row));
    }
    if table_fields(rows).contains(fields(row)) {
        let i = choose|i: int| 0 <= i < table_fields(rows).len() && table_fields(rows)[i] == fields(row);
        assert(fields(rows[i]) == fields(row));
    }
}

/// One row more, with its key: it stands at the end unless its key stood before it.
pub proof fn one_key_more<K>(rows: Seq<RowView>, keys: Seq<K>, row: RowView, key: K)
    requires
        rows.len() == keys.len(),
    ensures
        first_of_each(Seq::empty(), Seq::<K>::empty()) == Seq::<RowView>::empty(),
        keys.contains(key) ==> first_of_each(rows.push(row), keys.push(key)) == first_of_each(rows, keys),
        !keys.contains(key) ==> first_of_each(rows.push(row), keys.push(key)) == first_of_each(rows, keys).push(row),
{
    assert(rows.push(row).drop_last() =~= rows);
    assert(keys.push(key).drop_last() =~= keys);
}

} // verus!
