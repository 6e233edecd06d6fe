//! What comes from `serde_json`: its numbers, the text of objects and tables, string literals.
use vstd::prelude::*;

use crate::text::{all_digits, ascii_lower, has_sign, is_digit, unsigned};
use crate::value::{fields, objects_hold_the_fields, table, Datum, DatumView, Num, NumView, Object, Row, RowView};

verus! {

broadcast use vstd::string::group_string_axioms;

/// `serde_json::Number`: a number as JSON can hold it. Here it carries a finite float through.
#[verifier::external_type_specification]
#[verifier::external_body]
pub struct ExJsonNumber(serde_json::Number);

/// `serde_json::Error`: why a value could not be written as JSON.
#[verifier::external_type_specification]
#[verifier::external_body]
pub struct ExJsonError(serde_json::Error);

/// `serde_json::Value`: any JSON value.
#[verifier::external_type_specification]
#[verifier::external_body]
pub struct ExJsonValue(serde_json::Value);

/// `serde_json::Map`: a JSON object, its keys in order.
#[verifier::external_type_specification]
#[verifier::external_body]
#[verifier::reject_recursive_types(K)]
#[verifier::reject_recursive_types(V)]
pub struct ExJsonObject<K, V>(serde_json::Map<K, V>);

/// `serde_json::Number::clone`: the copy is the number.
pub assume_specification[ <serde_json::Number as Clone>::clone ](n: &serde_json::Number) -> (r: serde_json::Number)
    ensures
        r == *n,
;

// Floats.

/// The words that name a float which is not finite.
pub open spec fn is_float_word(s: Seq<char>) -> bool {
    ascii_lower(s) == "inf"@ || ascii_lower(s) == "infinity"@ || ascii_lower(s) == "nan"@
}

/// Digits with at most one point among them, and at least one digit.
pub open spec fn is_mantissa(s: Seq<char>) -> bool {
    ||| s.len() > 0 && all_digits(s)
    ||| s.len() > 1 && exists|p: int|
        0 <= p < s.len() && #[trigger] s[p] == '.' && all_digits(s.take(p)) && all_digits(s.skip(p + 1))
}

/// Nothing, or `e` with an optional sign and one or more digits.
pub open spec fn is_exponent(s: Seq<char>) -> bool {
    s.len() > 0 ==> (s[0] == 'e' || s[0] == 'E') && unsigned(s.skip(1)).len() > 0 && all_digits(
        unsigned(s.skip(1)),
    )
}

/// The texts that read as a float: an optional sign, then a word for a float that is not finite,
/// or digits with at most one point and an optional exponent.
pub open spec fn is_float_text(s: Seq<char>) -> bool {
    ||| is_float_word(unsigned(s))
    ||| exists|m: int|
        0 <= m <= unsigned(s).len() && #[trigger] is_mantissa(unsigned(s).take(m)) && is_exponent(
            unsigned(s).skip(m),
        )
}

/// The JSON number for a text of digits that reads as a float, or nothing where the float is not
/// finite and so no JSON number.
pub uninterp spec fn float_number(s: Seq<char>) -> Option<serde_json::Number>;

/// The number is a float, and so no whole number, not even where its fraction is zero.
pub uninterp spec fn is_float(n: serde_json::Number) -> bool;

/// `serde_json::Number::is_f64`: a function of the number.
pub assume_specification[ serde_json::Number::is_f64 ](n: &serde_json::Number) -> (r: bool)
    ensures
        r == is_float(*n),
;

/// What a text reads as where it reads as a float: the JSON number for it, or nothing where the
/// float is not finite.
pub open spec fn float_of_text(s: Seq<char>) -> Option<Option<serde_json::Number>> {
    if !is_float_text(s) {
        None
    } else if is_float_word(unsigned(s)) {
        Some(None)
    } else {
        Some(float_number(s))
    }
}

/// `serde_json::Number::from_f64` on the float that `str::parse` reads. The text reads as a float
/// just where it has the documented form, and a word for an infinity or for no number gives no
/// JSON number. Which number a text of digits gives is a function of the text; it is a float.
#[verifier::external_body]
fn parse_float(s: &str) -> (r: Option<Option<serde_json::Number>>)
    ensures
        r is Some == is_float_text(s@),
        is_float_word(unsigned(s@)) ==> r is Some && r->0 is None,
        r is Some && !is_float_word(unsigned(s@)) ==> r->0 == float_number(s@),
        r is Some && r->0 is Some ==> is_float(r->0->0),
{
    s.parse().ok().map(serde_json::Number::from_f64)
}

/// A finite float, as `serde_json` holds it.
#[derive(Debug, PartialEq)]
pub struct Float {
    number: serde_json::Number,
}

impl View for Float {
    type V = serde_json::Number;

    closed spec fn view(&self) -> serde_json::Number {
        self.number
    }
}

impl Clone for Float {
    fn clone(&self) -> (r: Float)
        ensures
            r@ == self@,
    {
        proof {
            use_type_invariant(self);
        }
        Float { number: self.number.clone() }
    }
}

impl Float {
    #[verifier::type_invariant]
    spec fn well_formed(self) -> bool {
        is_float(self.number)
    }

    /// The float that a JSON number is, where it is one.
    pub fn of(number: serde_json::Number) -> (r: Option<Float>)
        ensures
            r is Some == is_float(number),
            r is Some ==> r->0@ == number,
    {
        if number.is_f64() {
            Some(Float { number })
        } else {
            None
        }
    }

    /// The float as a JSON number.
    pub fn number(&self) -> (r: &serde_json::Number)
        ensures
            *r == self@,
            is_float(*r),
    {
        proof {
            use_type_invariant(self);
        }
        &self.number
    }
}

/// The number of a float that may be missing since it is not finite.
pub open spec fn finite(float: Option<Float>) -> Option<serde_json::Number> {
    match float {
        Some(f) => Some(f@),
        None => None,
    }
}

/// What was read as a float, where a float was read.
pub open spec fn reading(float: Option<Option<Float>>) -> Option<Option<serde_json::Number>> {
    match float {
        Some(f) => Some(finite(f)),
        None => None,
    }
}

/// Reads a text as a float.
pub fn read_float(s: &str) -> (r: Option<Option<Float>>)
    ensures
        reading(r) == float_of_text(s@),
{
    match parse_float(s) {
        Some(Some(n)) => Some(Float::of(n)),
        Some(None) => Some(None),
        None => None,
    }
}

/// The number that stands for a float: a float that is not finite becomes zero.
pub open spec fn float_num(float: Option<serde_json::Number>) -> NumView {
    match float {
        Some(n) => NumView::Float(n),
        None => NumView::Int(0),
    }
}

/// The value for a float: itself where it is finite, zero where it is not.
pub fn float_datum(float: Option<Float>) -> (r: Datum)
    ensures
        r@ == DatumView::Num(float_num(finite(float))),
{
    match float {
        Some(f) => Datum::Num(Num::Float(f)),
        None => Datum::Num(Num::Int(0)),
    }
}

// Objects.

/// The fields that a JSON object holds: a number as a whole number where it is one that fits, else
/// as it is.
pub uninterp spec fn object_fields(m: serde_json::Map<String, serde_json::Value>) -> Object;

/// An object without fields.
pub open spec fn no_fields() -> Object {
    Map::empty()
}

/// `serde_json::Map::new`: an object without fields.
#[verifier::external_body]
fn object_new() -> (r: serde_json::Map<String, serde_json::Value>)
    ensures
        object_fields(r) == no_fields(),
{
    serde_json::Map::new()
}

/// `serde_json::Map::insert`: sets the field, in place of one with the same key. Different values
/// are different JSON values: a [`Float`] holds no whole number.
#[verifier::external_body]
fn object_insert(m: &mut serde_json::Map<String, serde_json::Value>, key: &str, value: &Datum)
    ensures
        object_fields(*final(m)) == object_fields(*old(m)).insert(key@, value@),
{
    let json = match value {
        Datum::Null => serde_json::Value::Null,
        Datum::Bool(b) => serde_json::Value::Bool(*b),
        Datum::Num(Num::Int(i)) => serde_json::Value::from(*i),
        Datum::Num(Num::Float(f)) => serde_json::Value::Number(f.number.clone()),
        Datum::Text(s) => serde_json::Value::from(s.as_str()),
    };
    m.insert(key.to_string(), json);
}

/// What `serde_json::to_string` writes for an object with these fields.
pub uninterp spec fn object_text(fields: Object) -> Seq<char>;

/// A value as rows hold it: what it holds as a float is one.
pub open spec fn is_value(value: DatumView) -> bool {
    value matches DatumView::Num(NumView::Float(n)) ==> is_float(n)
}

/// An object of such values.
pub open spec fn is_object(object: Object) -> bool {
    forall|key: Seq<char>| object.contains_key(key) ==> is_value(#[trigger] object[key])
}

/// No object of values but this one is written as `text`.
pub open spec fn is_text_of_only(text: Seq<char>, object: Object) -> bool {
    forall|other: Object| is_object(other) && #[trigger] object_text(other) == text ==> other == object
}

/// `serde_json::to_string` on an object of plain values. The text is a function of the fields
/// alone, since the object keeps its keys in order, and no other object has it: a text is quoted
/// and escaped, a float is written with its point or exponent and in digits that read back as it.
/// Writing fails only where a value decides to or a key is no string, and no such value is held
/// here.
#[verifier::external_body]
fn object_to_string(m: &serde_json::Map<String, serde_json::Value>) -> (r: Result<String, serde_json::Error>)
    ensures
        r is Ok && r->Ok_0@ == object_text(object_fields(*m)),
        r is Ok && is_text_of_only(r->Ok_0@, object_fields(*m)),
{
    serde_json::to_string(m)
}

/// What `serde_json::to_string_pretty` writes for a list of objects with these fields.
pub uninterp spec fn list_text(objects: Seq<Object>) -> Seq<char>;

/// The fields of each object of a list.
pub open spec fn list_fields(objects: Seq<serde_json::Map<String, serde_json::Value>>) -> Seq<Object> {
    objects.map_values(|m: serde_json::Map<String, serde_json::Value>| object_fields(m))
}

/// `serde_json::to_string_pretty` on a list of objects of plain values: as with one object, the
/// text is a function of the fields and writing does not fail.
#[verifier::external_body]
fn list_to_string_pretty(objects: &Vec<serde_json::Map<String, serde_json::Value>>) -> (r: Result<String, serde_json::Error>)
    ensures
        r is Ok && r->Ok_0@ == list_text(list_fields(objects@)),
{
    serde_json::to_string_pretty(objects)
}

/// Hands a value on, of which this much is known: what it holds as a float is one.
fn check_value(value: &Datum) -> (r: &Datum)
    ensures
        *r == *value,
        is_value(r@),
{
    if let Datum::Num(Num::Float(f)) = value {
        proof {
            use_type_invariant(f);
        }
    }
    value
}

/// The JSON object of a row.
fn row_object(row: &Row) -> (r: serde_json::Map<String, serde_json::Value>)
    ensures
        object_fields(r) == fields(row@),
        is_object(object_fields(r)),
{
    let mut object = object_new();
    let mut i: usize = 0;
    assert(row@.take(0) =~= RowView::empty());
    while i < row.len()
        invariant
            i <= row@.len(),
            object_fields(object) == fields(row@.take(i as int)),
            is_object(object_fields(object)),
        decreases row@.len() - i,
    {
        object_insert(&mut object, row.key(i).as_str(), check_value(row.datum(i)));
        assert(row@.take(i + 1).drop_last() =~= row@.take(i as int));
        i = i + 1;
    }
    assert(row@.take(row@.len() as int) =~= row@);
    object
}

/// The JSON text of a row.
pub open spec fn row_text(row: RowView) -> Seq<char> {
    object_text(fields(row))
}

/// Writes a row as a JSON object. Rows that are different objects give different texts.
pub fn row_to_json(row: &Row) -> (r: String)
    ensures
        r@ == row_text(row@),
        is_text_of_only(r@, fields(row@)),
        is_object(fields(row@)),
{
    let object = row_object(row);
    match object_to_string(&object) {
        Ok(text) => text,
        Err(_) => String::new(),
    }
}

/// The JSON objects of the rows of a table.
pub open spec fn table_fields(rows: Seq<RowView>) -> Seq<Object> {
    rows.map_values(|row: RowView| fields(row))
}

/// Writes a table as an indented JSON list of objects.
pub fn table_to_json(rows: &Vec<Row>) -> (r: String)
    ensures
        r@ == list_text(table_fields(table(rows@))),
{
    let mut objects: Vec<serde_json::Map<String, serde_json::Value>> = Vec::new();
    let mut i: usize = 0;
    while i < rows.len()
        invariant
            i <= rows@.len(),
            objects@.len() == i,
            forall|j: int| 0 <= j < i ==> object_fields(#[trigger] objects@[j]) == fields(rows@[j]@),
        decreases rows@.len() - i,
    {
        objects.push(row_object(&rows[i]));
        i = i + 1;
    }
    assert(list_fields(objects@) =~= table_fields(table(rows@)));
    match list_to_string_pretty(&objects) {
        Ok(text) => text,
        Err(_) => String::new(),
    }
}

// String literals.

/// No character of the text needs an escape in a JSON string.
pub open spec fn is_plain(s: Seq<char>) -> bool {
    forall|i: int| 0 <= i < s.len() ==> '\u{20}' <= #[trigger] s[i] && s[i] != '"' && s[i] != '\\'
}

/// A hexadecimal digit, in lower case.
pub open spec fn hex_char(d: int) -> char {
    if d < 10 {
        ('0' as int + d) as char
    } else {
        ('a' as int + d - 10) as char
    }
}

/// What a character is written as in a JSON string: itself, unless it is a quotation mark, a
/// backslash or a control character of ASCII below the space.
pub open spec fn escaped_char(c: char) -> Seq<char> {
    if c == '"' || c == '\\' {
        seq!['\\', c]
    } else if c == '\u{8}' {
        seq!['\\', 'b']
    } else if c == '\u{9}' {
        seq!['\\', 't']
    } else if c == '\u{a}' {
        seq!['\\', 'n']
    } else if c == '\u{c}' {
        seq!['\\', 'f']
    } else if c == '\u{d}' {
        seq!['\\', 'r']
    } else if c <= '\u{1f}' {
        seq!['\\', 'u', '0', '0', hex_char(c as int / 16), hex_char(c as int % 16)]
    } else {
        seq![c]
    }
}

/// What a text is written as in a JSON string: its characters one after the other.
pub open spec fn escaped(s: Seq<char>) -> Seq<char>
    decreases s.len(),
{
    if s.len() == 0 {
        Seq::empty()
    } else {
        escaped(s.drop_last()) + escaped_char(s.last())
    }
}

/// What a JSON string value with this text is written as.
pub open spec fn string_literal(s: Seq<char>) -> Seq<char> {
    seq!['"'] + escaped(s) + seq!['"']
}

/// `serde_json::Value::to_string` on a string: the text with its escapes, between two quotation
/// marks.
#[verifier::external_body]
pub(crate) fn string_to_json(s: &str) -> (r: String)
    ensures
        r@ == string_literal(s@),
{
    serde_json::Value::from(s).to_string()
}

// Laws.

/// A text that reads as a float and is no word starts, after its sign, with a digit or a point.
pub proof fn floats_start_with_a_digit_or_a_point(s: Seq<char>)
    requires
        is_float_text(s),
        !is_float_word(unsigned(s)),
    ensures
        unsigned(s).len() > 0,
        is_digit(unsigned(s)[0]) || unsigned(s)[0] == '.',
{
    let t = unsigned(s);
    let m = choose|m: int| 0 <= m <= t.len() && #[trigger] is_mantissa(t.take(m)) && is_exponent(t.skip(m));
    let mantissa = t.take(m);
    assert(mantissa.len() > 0);
    assert(mantissa[0] == t[0]);
    if !all_digits(mantissa) {
        let p = choose|p: int|
            0 <= p < mantissa.len() && #[trigger] mantissa[p] == '.' && all_digits(mantissa.take(p)) && all_digits(
                mantissa.skip(p + 1),
            );
        if p > 0 {
            assert(mantissa.take(p)[0] == mantissa[0]);
        }
    }
}

/// A text that needs no escape is written as it is.
pub proof fn plain_texts_need_no_escape(s: Seq<char>)
    requires
        is_plain(s),
    ensures
        escaped(s) == s,
    decreases s.len(),
{
    if s.len() > 0 {
        let front = s.drop_last();
        assert(is_plain(front)) by {
            assert forall|i: int| 0 <= i < front.len() implies #[trigger] front[i] == s[i] by {}
        }
        plain_texts_need_no_escape(front);
        assert(s[s.len() - 1] == s.last());
        assert(front + seq![s.last()] =~= s);
    }
}

/// A float is read as what its text says: nothing where the text has not the form of a float, no
/// number where it is a word for one that is not finite, and else the number of the text. It is
/// taken for itself, and a float that is not finite for zero.
pub proof fn floats_are_taken_for_themselves(s: Seq<char>, n: serde_json::Number, f: Float)
    ensures
        !is_float_text(s) ==> float_of_text(s) is None,
        is_float_word(unsigned(s)) ==> float_of_text(s) == Some(None::<serde_json::Number>),
        is_float_text(s) && !is_float_word(unsigned(s)) ==> float_of_text(s) == Some(float_number(s)),
        float_num(Some(n)) == NumView::Float(n),
        float_num(None) == NumView::Int(0),
        finite(Some(f)) == Some(f@),
        finite(None) is None,
        reading(Some(Some(f))) == Some(Some(f@)),
        reading(Some(None)) == Some(None::<serde_json::Number>),
        reading(None) is None,
{
}

/// A table is written row by row, in order, each row as the object of its fields: of a row without
/// a key twice, every field stands in its object, and nothing else does.
pub proof fn every_row_is_written(rows: Seq<Row>, i: int, key: Seq<char>, p: int)
    requires
        0 <= i < rows.len(),
        forall|a: int, b: int| 0 <= a < b < rows[i]@.len() ==> #[trigger] rows[i]@[a].0 != #[trigger] rows[i]@[b].0,
    ensures
        table_fields(table(rows)).len() == rows.len(),
        0 <= p < rows[i]@.len() && rows[i]@[p].0 == key ==> table_fields(table(rows))[i].contains_key(key)
            && table_fields(table(rows))[i][key] == rows[i]@[p].1,
        (forall|a: int| 0 <= a < rows[i]@.len() ==> (#[trigger] rows[i]@[a]).0 != key) ==> !table_fields(
            table(rows),
        )[i].contains_key(key),
{
    objects_hold_the_fields(rows[i]@, key, p);
}

/// The text of a row is that of the object of its fields.
pub proof fn rows_are_written_as_objects(a: RowView, b: RowView)
    ensures
        row_text(a) == object_text(fields(a)),
        fields(a) == fields(b) ==> row_text(a) == row_text(b),
{
}

/// A text that reads as a float is a word for one that is not finite, or is made of digits, points,
/// signs and the letter of an exponent.
pub proof fn floats_are_made_of_digits(s: Seq<char>, i: int)
    requires
        is_float_text(s),
        !is_float_word(unsigned(s)),
        0 <= i < s.len(),
    ensures
        '0' <= s[i] <= '9' || s[i] == '.' || s[i] == '+' || s[i] == '-' || s[i] == 'e' || s[i] == 'E',
{
    let t = unsigned(s);
    let from: int = if has_sign(s) {
        1
    } else {
        0
    };
    let m = choose|m: int| 0 <= m <= t.len() && #[trigger] is_mantissa(t.take(m)) && is_exponent(t.skip(m));
    let k = i - from;
    if k >= 0 {
        assert(t[k] == s[i]);
        if k < m {
            let front = t.take(m);
            assert(front[k] == t[k]);
            if all_digits(front) {
                assert(is_digit(front[k]));
            } else {
                let p = choose|p: int|
                    0 <= p < front.len() && #[trigger] front[p] == '.' && all_digits(front.take(p)) && all_digits(
                        front.skip(p + 1),
                    );
                if k < p {
                    assert(is_digit(front.take(p)[k]));
                } else if k > p {
                    assert(is_digit(front.skip(p + 1)[k - p - 1]));
                }
            }
        } else {
            let back = t.skip(m);
            assert(back[k - m] == t[k]);
            if k > m {
                let e = back.skip(1);
                let digits = unsigned(e);
                assert(e[k - m - 1] == t[k]);
                if has_sign(e) {
                    if k - m - 1 > 0 {
                        assert(is_digit(digits[k - m - 2]));
                    }
                } else {
                    assert(is_digit(digits[k - m - 1]));
                }
            }
        }
    }
}

/// Digits read as a float, and so do digits with a point among them, at their start or at their end,
/// unless the point is alone.
pub proof fn digits_and_a_point_are_floats(a: Seq<char>, b: Seq<char>)
    requires
        forall|i: int| 0 <= i < a.len() ==> '0' <= #[trigger] a[i] <= '9',
        forall|i: int| 0 <= i < b.len() ==> '0' <= #[trigger] b[i] <= '9',
    ensures
        a.len() > 0 ==> is_float_text(a),
        a.len() + b.len() > 0 ==> is_float_text(a + seq!['.'] + b),
        a.len() + b.len() > 0 ==> is_float_text(seq!['-'] + (a + seq!['.'] + b)),
{
    let whole = a + seq!['.'] + b;
    if a.len() > 0 {
        lemma_mantissa_is_float(a);
    }
    if a.len() + b.len() > 0 {
        assert(whole[a.len() as int] == '.');
        assert(whole.take(a.len() as int) =~= a);
        assert(whole.skip(a.len() as int + 1) =~= b);
        assert(is_mantissa(whole));
        lemma_mantissa_is_float(whole);
        let signed = seq!['-'] + whole;
        assert(unsigned(signed) =~= whole);
        assert(unsigned(signed).take(whole.len() as int) =~= whole);
        assert(unsigned(signed).skip(whole.len() as int).len() == 0);
    }
}

/// A mantissa without an exponent reads as a float.
proof fn lemma_mantissa_is_float(s: Seq<char>)
    requires
        is_mantissa(s),
        '0' <= s[0] <= '9' || s[0] == '.',
    ensures
        is_float_text(s),
{
    assert(unsigned(s) == s);
    assert(s.take(s.len() as int) =~= s);
    assert(s.skip(s.len() as int).len() == 0);
    assert(is_mantissa(unsigned(s).take(s.len() as int)));
}

/// A JSON string writes its text character by character: the quotation mark, the backslash and the
/// control characters below the space as escapes, every other as it is.
pub proof fn characters_are_escaped_one_by_one(s: Seq<char>, c: char)
    ensures
        string_literal(s) == seq!['"'] + escaped(s) + seq!['"'],
        escaped(Seq::empty()) == Seq::<char>::empty(),
        ' ' <= c && c != '"' && c != '\\' ==> escaped(s.push(c)) == escaped(s).push(c),
        c == '"' || c == '\\' ==> escaped(s.push(c)) == escaped(s) + seq!['\\', c],
        c == '\u{8}' ==> escaped(s.push(c)) == escaped(s) + seq!['\\', 'b'],
        c == '\t' ==> escaped(s.push(c)) == escaped(s) + seq!['\\', 't'],
        c == '\n' ==> escaped(s.push(c)) == escaped(s) + seq!['\\', 'n'],
        c == '\u{c}' ==> escaped(s.push(c)) == escaped(s) + seq!['\\', 'f'],
        c == '\r' ==> escaped(s.push(c)) == escaped(s) + seq!['\\', 'r'],
        c <= '\u{7}' || c == '\u{b}' || '\u{e}' <= c <= '\u{f}' || '\u{10}' <= c <= '\u{1f}' ==> escaped(s.push(c))
            == escaped(s) + seq!['\\', 'u', '0', '0', hex_char(c as int / 16), hex_char(c as int % 16)],
        '0' == hex_char(0) && '1' == hex_char(1) && '9' == hex_char(9) && 'a' == hex_char(10) && 'f' == hex_char(15),
{
    assert(s.push(c).drop_last() =~= s);
    if ' ' <= c && c != '"' && c != '\\' {
        assert(escaped(s) + seq![c] =~= escaped(s).push(c));
    }
}

/// Three words name a float that is not finite, in whatever ASCII case, and no other does.
pub proof fn three_words_are_not_finite(s: Seq<char>)
    ensures
        is_float_word(s) <==> ascii_lower(s) == seq!['i', 'n', 'f'] || ascii_lower(s) == seq![
            'i',
            'n',
            'f',
            'i',
            'n',
            'i',
            't',
            'y',
        ] || ascii_lower(s) == seq!['n', 'a', 'n'],
{
    reveal_strlit("inf");
    reveal_strlit("infinity");
    reveal_strlit("nan");
    assert("inf"@ =~= seq!['i', 'n', 'f']);
    assert("infinity"@ =~= seq!['i', 'n', 'f', 'i', 'n', 'i', 't', 'y']);
    assert("nan"@ =~= seq!['n', 'a', 'n']);
}

/// `s` has the form of a float: a sign up to `from`, digits up to `p`, then, where `p` is not `m`, a
/// point and digits up to `m`, at least one digit in all; and behind `m` nothing, or the letter of
/// an exponent, an optional sign and digits from `x` on, at least one.
pub open spec fn has_float_form(s: Seq<char>, from: int, p: int, m: int, x: int) -> bool {
    &&& 0 <= from <= 1 && from <= p <= m <= s.len()
    &&& from == 1 ==> s[0] == '+' || s[0] == '-'
    &&& forall|i: int| from <= i < p ==> '0' <= #[trigger] s[i] <= '9'
    &&& p < m ==> s[p] == '.' && m - from > 1
    &&& p == m ==> m > from
    &&& forall|i: int| p < i < m ==> '0' <= #[trigger] s[i] <= '9'
    &&& m < s.len() ==> {
        &&& s[m] == 'e' || s[m] == 'E'
        &&& x == m + 1 || x == m + 2 && (s[m + 1] == '+' || s[m + 1] == '-')
        &&& x < s.len()
        &&& forall|i: int| x <= i < s.len() ==> '0' <= #[trigger] s[i] <= '9'
    }
}

/// A text reads as a float only where it has the form of one or is a word for one.
pub proof fn floats_have_their_form(s: Seq<char>) -> (at: (int, int, int, int))
    requires
        is_float_text(s),
        !is_float_word(unsigned(s)),
    ensures
        has_float_form(s, at.0, at.1, at.2, at.3),
{
    let t = unsigned(s);
    let from: int = if has_sign(s) {
        1
    } else {
        0
    };
    let k = choose|k: int| 0 <= k <= t.len() && #[trigger] is_mantissa(t.take(k)) && is_exponent(t.skip(k));
    let front = t.take(k);
    let m = from + k;
    assert forall|i: int| 0 <= i < t.len() implies #[trigger] t[i] == s[i + from] by {}
    let p: int = if all_digits(front) {
        m
    } else {
        from + choose|q: int|
            0 <= q < front.len() && #[trigger] front[q] == '.' && all_digits(front.take(q)) && all_digits(
                front.skip(q + 1),
            )
    };
    assert forall|i: int| from <= i < p implies '0' <= #[trigger] s[i] <= '9' by {
        assert(t[i - from] == s[i]);
        assert(front[i - from] == s[i]);
        if p == m {
            assert(is_digit(front[i - from]));
        } else {
            assert(is_digit(front.take(p - from)[i - from]));
        }
    }
    if p < m {
        assert(front[p - from] == t[p - from]);
        assert forall|i: int| p < i < m implies '0' <= #[trigger] s[i] <= '9' by {
            assert(front[i - from] == t[i - from]);
            assert(is_digit(front.skip(p - from + 1)[i - p - 1]));
        }
    }
    let back = t.skip(k);
    let e = back.skip(1);
    let x: int = if back.len() > 0 && has_sign(e) {
        m + 2
    } else {
        m + 1
    };
    if m < s.len() {
        assert(back[0] == t[k]);
        assert(e.len() == s.len() - m - 1);
        assert forall|i: int| 0 <= i < e.len() implies #[trigger] e[i] == s[m + 1 + i] by {
            assert(t[k + 1 + i] == s[m + 1 + i]);
        }
        assert(e[0] == s[m + 1]);
        assert forall|i: int| x <= i < s.len() implies '0' <= #[trigger] s[i] <= '9' by {
            assert(e[i - m - 1] == s[i]);
            assert(unsigned(e)[i - x] == e[i - m - 1]);
            assert(is_digit(unsigned(e)[i - x]));
        }
    }
    (from, p, m, x)
}

/// Every text that has the form of a float reads as one.
pub proof fn texts_of_that_form_are_floats(s: Seq<char>, from: int, p: int, m: int, x: int)
    requires
        has_float_form(s, from, p, m, x),
    ensures
        is_float_text(s),
{
    let t = unsigned(s);
    assert(from < s.len());
    assert(s[from] != '+' && s[from] != '-') by {
        if p == from {
            assert(s[p] == '.');
        } else {
            assert('0' <= s[from] <= '9');
        }
    }
    assert(has_sign(s) == (from == 1));
    assert(t =~= s.skip(from));
    let k = m - from;
    let front = t.take(k);
    assert forall|i: int| 0 <= i < k implies #[trigger] front[i] == s[i + from] by {}
    if p == m {
        assert forall|i: int| 0 <= i < front.len() implies is_digit(#[trigger] front[i]) by {
            assert('0' <= s[i + from] <= '9');
        }
    } else {
        let q = p - from;
        assert(front[q] == '.');
        assert forall|i: int| 0 <= i < front.take(q).len() implies is_digit(#[trigger] front.take(q)[i]) by {
            assert(front.take(q)[i] == s[i + from]);
        }
        assert forall|i: int| 0 <= i < front.skip(q + 1).len() implies is_digit(#[trigger] front.skip(q + 1)[i]) by {
            assert(front.skip(q + 1)[i] == s[i + p + 1]);
        }
    }
    assert(is_mantissa(front));
    let back = t.skip(k);
    if m < s.len() {
        let e = back.skip(1);
        assert(back[0] == s[m]);
        assert(e.len() == s.len() - m - 1);
        assert(e[0] == s[m + 1]);
        if x == m + 1 {
            assert('0' <= s[x] <= '9');
        }
        assert(has_sign(e) == (x == m + 2));
        let digits = unsigned(e);
        assert(digits.len() == s.len() - x);
        assert forall|i: int| 0 <= i < digits.len() implies is_digit(#[trigger] digits[i]) by {
            assert(digits[i] == s[i + x]);
        }
    }
    assert(is_exponent(back));
    assert(is_mantissa(t.take(k)));
}

} // verus!
