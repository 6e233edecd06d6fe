//! Casting: what a text is taken for.
use vstd::prelude::*;

use crate::json::{
    float_datum, float_num, float_of_text, floats_start_with_a_digit_or_a_point, is_float_text, is_float_word,
    read_float, reading, Float,
};
use crate::text::{
    all_digits, ascii_lower, ascii_lower_char, has_sign, int_of_text, int_text, is_digit, only_digits_read_as_whole_numbers,
    parse_int, trimmed,
    trimming_twice_is_trimming_once, unsigned, whole_numbers_read_back,
};
use crate::value::{Datum, DatumView, Num, NumView};

verus! {

broadcast use vstd::string::group_string_axioms;

// Fields of delimited text.

/// What a trimmed field is cast to: a whole number, else a float, else a truth value, else null
/// where it is empty, else the text. `float` is what the text reads as where it reads as a float.
pub open spec fn cast_trimmed(t: Seq<char>, float: Option<Option<serde_json::Number>>) -> DatumView {
    if int_of_text(t) is Some {
        DatumView::Num(NumView::Int(int_of_text(t)->0))
    } else if float is Some {
        DatumView::Num(float_num(float->0))
    } else if ascii_lower(t) == "true"@ {
        DatumView::Bool(true)
    } else if ascii_lower(t) == "false"@ {
        DatumView::Bool(false)
    } else if t.len() == 0 {
        DatumView::Null
    } else {
        DatumView::Text(t)
    }
}

/// What a field is cast to.
pub open spec fn cast_field(field: Seq<char>) -> DatumView {
    cast_trimmed(trimmed(field), float_of_text(trimmed(field)))
}

/// Casts a trimmed field, given what it reads as where it reads as a float.
pub fn cast(t: &str, float: Option<Option<Float>>) -> (r: Datum)
    ensures
        r@ == cast_trimmed(t@, reading(float)),
{
    proof {
        lemma_words_are_lower_case();
    }
    match parse_int(t) {
        Some(i) => Datum::Num(Num::Int(i)),
        None => match float {
            Some(f) => float_datum(f),
            None => {
                if t.eq_ignore_ascii_case("true") {
                    Datum::Bool(true)
                } else if t.eq_ignore_ascii_case("false") {
                    Datum::Bool(false)
                } else if t.is_empty() {
                    Datum::Null
                } else {
                    Datum::Text(t.to_string())
                }
            },
        },
    }
}

/// Casts a field.
pub fn cast_csv_field(field: &str) -> (r: Datum)
    ensures
        r@ == cast_field(field@),
{
    let t = field.trim();
    cast(t, read_float(t))
}

/// The words for the truth values are their own lower case.
proof fn lemma_words_are_lower_case()
    ensures
        ascii_lower("true"@) == "true"@,
        ascii_lower("false"@) == "false"@,
{
    reveal_strlit("true");
    reveal_strlit("false");
    assert(ascii_lower("true"@) =~= "true"@);
    assert(ascii_lower("false"@) =~= "false"@);
}

// Texts of worksheets, and of tables.

/// What a trimmed text is cast to: a float, else a truth value, else the text. `float` is what the
/// text reads as where it reads as a float.
pub open spec fn cast_trimmed_text(t: Seq<char>, float: Option<Option<serde_json::Number>>) -> DatumView {
    if float is Some {
        DatumView::Num(float_num(float->0))
    } else if ascii_lower(t) == "true"@ {
        DatumView::Bool(true)
    } else if ascii_lower(t) == "false"@ {
        DatumView::Bool(false)
    } else {
        DatumView::Text(t)
    }
}

/// What a text is cast to.
pub open spec fn text_value(s: Seq<char>) -> DatumView {
    cast_trimmed_text(trimmed(s), float_of_text(trimmed(s)))
}

/// Casts a trimmed text, given what it reads as where it reads as a float.
pub fn cast_cell_text(t: &str, float: Option<Option<Float>>) -> (r: Datum)
    ensures
        r@ == cast_trimmed_text(t@, reading(float)),
{
    proof {
        lemma_words_are_lower_case();
    }
    match float {
        Some(f) => float_datum(f),
        None => {
            if t.eq_ignore_ascii_case("true") {
                Datum::Bool(true)
            } else if t.eq_ignore_ascii_case("false") {
                Datum::Bool(false)
            } else {
                Datum::Text(t.to_string())
            }
        },
    }
}

/// Casts a text.
pub fn cast_text(s: &str) -> (r: Datum)
    ensures
        r@ == text_value(s@),
{
    let t = s.trim();
    cast_cell_text(t, read_float(t))
}

/// What a trimmed text of a table is cast to: where it reads as a float that is not finite, the
/// text, since no number stands for it; else as any other text.
pub open spec fn cast_trimmed_character(t: Seq<char>, float: Option<Option<serde_json::Number>>) -> DatumView {
    if float is Some && float->0 is None {
        DatumView::Text(t)
    } else {
        cast_trimmed_text(t, float)
    }
}

/// What a text of a table is cast to.
pub open spec fn character_value(s: Seq<char>) -> DatumView {
    cast_trimmed_character(trimmed(s), float_of_text(trimmed(s)))
}

/// Casts a trimmed text of a table, given what it reads as where it reads as a float.
pub fn cast_character_text(t: &str, float: Option<Option<Float>>) -> (r: Datum)
    ensures
        r@ == cast_trimmed_character(t@, reading(float)),
{
    match float {
        Some(None) => Datum::Text(t.to_string()),
        _ => cast_cell_text(t, float),
    }
}

/// Casts a text of a table.
pub fn cast_character(s: &str) -> (r: Datum)
    ensures
        r@ == character_value(s@),
{
    let t = s.trim();
    cast_character_text(t, read_float(t))
}

// Laws.

/// A text whose first character is a letter and that names no float is no number at all.
proof fn lemma_letters_are_no_numbers(t: Seq<char>)
    requires
        t.len() > 0,
        'A' <= t[0] <= 'z',
        !is_float_word(t),
    ensures
        int_of_text(t) is None,
        float_of_text(t) is None,
{
    assert(!has_sign(t));
    if is_float_text(t) {
        floats_start_with_a_digit_or_a_point(t);
    }
    if all_digits(t) {
        assert(is_digit(t[0]));
    }
}

/// The words for the truth values are cast to them, in whatever case they are written and with
/// whatever white space around them.
pub proof fn truth_values_are_cast(field: Seq<char>)
    ensures
        ascii_lower(trimmed(field)) == "true"@ ==> cast_field(field) == DatumView::Bool(true),
        ascii_lower(trimmed(field)) == "false"@ ==> cast_field(field) == DatumView::Bool(false),
        ascii_lower(trimmed(field)) == "true"@ ==> text_value(field) == DatumView::Bool(true),
        ascii_lower(trimmed(field)) == "false"@ ==> text_value(field) == DatumView::Bool(false),
        ascii_lower(trimmed(field)) == "true"@ ==> character_value(field) == DatumView::Bool(true),
        ascii_lower(trimmed(field)) == "false"@ ==> character_value(field) == DatumView::Bool(false),
{
    reveal_strlit("true");
    reveal_strlit("false");
    reveal_strlit("inf");
    reveal_strlit("infinity");
    reveal_strlit("nan");
    let t = trimmed(field);
    let l = ascii_lower(t);
    assert("true"@[0] == 't' && "false"@[0] == 'f');
    assert("inf"@[0] == 'i' && "infinity"@[0] == 'i' && "nan"@[0] == 'n');
    if l == "true"@ || l == "false"@ {
        assert(l.len() == t.len());
        assert(l[0] == ascii_lower_char(t[0]));
        lemma_letters_are_no_numbers(t);
    }
    if l == "false"@ {
        assert(l[0] != "true"@[0]);
    }
}

/// A field of nothing but white space is null.
pub proof fn blank_fields_are_null(field: Seq<char>)
    requires
        trimmed(field).len() == 0,
    ensures
        cast_field(field) == DatumView::Null,
{
    reveal_strlit("true");
    reveal_strlit("false");
    reveal_strlit("inf");
    reveal_strlit("infinity");
    reveal_strlit("nan");
    let t = trimmed(field);
    assert(ascii_lower(t).len() == 0);
    if is_float_text(t) && !is_float_word(unsigned(t)) {
        floats_start_with_a_digit_or_a_point(t);
    }
    assert(unsigned(t) == t);
}

/// A whole number that is written out is cast to itself.
pub proof fn whole_numbers_are_cast(i: i64)
    ensures
        cast_field(int_text(i as int)) == DatumView::Num(NumView::Int(i)),
{
    whole_numbers_read_back(i);
}

/// The words for floats that are not finite are cast to zero, but in a table they stay.
pub proof fn infinities_become_zero(field: Seq<char>)
    requires
        is_float_word(unsigned(trimmed(field))),
    ensures
        cast_field(field) == DatumView::Num(NumView::Int(0)),
        text_value(field) == DatumView::Num(NumView::Int(0)),
        character_value(field) == DatumView::Text(trimmed(field)),
{
    reveal_strlit("inf");
    reveal_strlit("infinity");
    reveal_strlit("nan");
    let t = trimmed(field);
    let u = unsigned(t);
    let l = ascii_lower(u);
    assert("inf"@[0] == 'i' && "infinity"@[0] == 'i' && "nan"@[0] == 'n');
    assert(l.len() == u.len());
    assert(l[0] == ascii_lower_char(u[0]));
    if all_digits(u) {
        assert(is_digit(u[0]));
    }
}

/// The white space around a field makes no difference.
pub proof fn white_space_around_a_field_is_ignored(field: Seq<char>)
    ensures
        cast_field(field) == cast_field(trimmed(field)),
        text_value(field) == text_value(trimmed(field)),
        character_value(field) == character_value(trimmed(field)),
{
    trimming_twice_is_trimming_once(field);
}

/// Every text that is no number, no truth value and not blank stays, trimmed.
pub proof fn other_texts_stay(field: Seq<char>)
    requires
        int_of_text(trimmed(field)) is None,
        !is_float_text(trimmed(field)),
        ascii_lower(trimmed(field)) != "true"@,
        ascii_lower(trimmed(field)) != "false"@,
        trimmed(field).len() > 0,
    ensures
        cast_field(field) == DatumView::Text(trimmed(field)),
        text_value(field) == DatumView::Text(trimmed(field)),
        character_value(field) == DatumView::Text(trimmed(field)),
{
}

/// Where a text reads as a finite float but as no whole number, it is cast to the same float
/// wherever it stands.
pub proof fn floats_are_cast_alike(field: Seq<char>)
    requires
        float_of_text(trimmed(field)) is Some,
        float_of_text(trimmed(field))->0 is Some,
        int_of_text(trimmed(field)) is None,
    ensures
        cast_field(field) == DatumView::Num(NumView::Float(float_of_text(trimmed(field))->0->0)),
        text_value(field) == cast_field(field),
        character_value(field) == cast_field(field),
{
}

/// No text of a table is lost: it becomes a number only where it reads as a finite one.
pub proof fn only_numbers_become_numbers(s: Seq<char>)
    ensures
        character_value(s) is Num == (float_of_text(trimmed(s)) is Some && float_of_text(trimmed(s))->0 is Some),
{
}

/// A text that has a character which is neither a digit nor a sign in front of the digits, and that
/// has not the form of a float and is no truth value, is taken for itself, character by character.
pub proof fn texts_of_other_characters_stay(field: Seq<char>, i: int)
    requires
        0 <= i < trimmed(field).len(),
        !('0' <= trimmed(field)[i] <= '9'),
        i == 0 ==> trimmed(field)[0] != '+' && trimmed(field)[0] != '-',
        !is_float_text(trimmed(field)),
        ascii_lower(trimmed(field)) != "true"@,
        ascii_lower(trimmed(field)) != "false"@,
    ensures
        cast_field(field) == DatumView::Text(trimmed(field)),
        text_value(field) == DatumView::Text(trimmed(field)),
        character_value(field) == DatumView::Text(trimmed(field)),
{
    let t = trimmed(field);
    if int_of_text(t) is Some {
        only_digits_read_as_whole_numbers(t);
        if i > 0 {
            assert('0' <= t[i] <= '9');
        }
    }
}

/// A sign alone is a text.
pub proof fn a_sign_alone_stays(field: Seq<char>)
    requires
        trimmed(field) == seq!['+'] || trimmed(field) == seq!['-'],
    ensures
        cast_field(field) == DatumView::Text(trimmed(field)),
        text_value(field) == DatumView::Text(trimmed(field)),
        character_value(field) == DatumView::Text(trimmed(field)),
{
    reveal_strlit("true");
    reveal_strlit("false");
    reveal_strlit("inf");
    reveal_strlit("infinity");
    reveal_strlit("nan");
    let t = trimmed(field);
    assert(unsigned(t).len() == 0);
    assert(ascii_lower(unsigned(t)).len() == 0);
    assert(ascii_lower(t).len() == 1);
    if int_of_text(t) is Some {
        only_digits_read_as_whole_numbers(t);
    }
    if is_float_text(t) {
        floats_start_with_a_digit_or_a_point(t);
    }
}

/// A field is cast to a whole number only where it is digits, with or without a sign, and then to
/// the number they are, or to zero where it reads as a float that is not finite.
pub proof fn only_digits_become_whole_numbers(field: Seq<char>, v: i64)
    requires
        cast_field(field) == DatumView::Num(NumView::Int(v)),
    ensures
        ({
            let t = trimmed(field);
            ||| v == 0 && is_float_text(t)
            ||| {
                &&& int_of_text(t) == Some(v)
                &&& t.len() > 0
                &&& forall|i: int| 1 <= i < t.len() ==> '0' <= #[trigger] t[i] <= '9'
                &&& '0' <= t[0] <= '9' || t.len() > 1 && (t[0] == '+' || t[0] == '-')
            }
        }),
{
    let t = trimmed(field);
    if int_of_text(t) is Some {
        only_digits_read_as_whole_numbers(t);
    }
}

/// What a trimmed field reads as decides what it is cast to: the whole number, else the float, which
/// is zero where it is not finite. In a worksheet or a table the float comes first.
pub proof fn numbers_are_cast_to_what_they_read_as(field: Seq<char>)
    ensures
        int_of_text(trimmed(field)) matches Some(v) ==> cast_field(field) == DatumView::Num(NumView::Int(v)),
        int_of_text(trimmed(field)) is None ==> (float_of_text(trimmed(field)) matches Some(Some(n)) ==> cast_field(
            field,
        ) == DatumView::Num(NumView::Float(n))),
        int_of_text(trimmed(field)) is None && float_of_text(trimmed(field)) == Some(None::<serde_json::Number>)
            ==> cast_field(field) == DatumView::Num(NumView::Int(0)),
        float_of_text(trimmed(field)) matches Some(Some(n)) ==> text_value(field) == DatumView::Num(NumView::Float(n)),
        float_of_text(trimmed(field)) matches Some(Some(n)) ==> character_value(field) == DatumView::Num(
            NumView::Float(n),
        ),
        float_of_text(trimmed(field)) == Some(None::<serde_json::Number>) ==> text_value(field) == DatumView::Num(
            NumView::Int(0),
        ),
        float_of_text(trimmed(field)) == Some(None::<serde_json::Number>) ==> character_value(field) == DatumView::Text(
            trimmed(field),
        ),
{
}

/// A field is a truth value only where it is one of the two words, and null only where it is blank;
/// a text of a worksheet or a table is never null.
pub proof fn only_words_become_truth_values(field: Seq<char>)
    ensures
        cast_field(field) == DatumView::Bool(true) <==> ascii_lower(trimmed(field)) == "true"@,
        cast_field(field) == DatumView::Bool(false) <==> ascii_lower(trimmed(field)) == "false"@,
        text_value(field) == DatumView::Bool(true) <==> ascii_lower(trimmed(field)) == "true"@,
        text_value(field) == DatumView::Bool(false) <==> ascii_lower(trimmed(field)) == "false"@,
        character_value(field) == DatumView::Bool(true) <==> ascii_lower(trimmed(field)) == "true"@,
        character_value(field) == DatumView::Bool(false) <==> ascii_lower(trimmed(field)) == "false"@,
        cast_field(field) is Null <==> trimmed(field).len() == 0,
        text_value(field) !is Null,
        character_value(field) !is Null,
        cast_field(field) matches DatumView::Text(t) ==> t == trimmed(field),
        text_value(field) matches DatumView::Text(t) ==> t == trimmed(field),
        character_value(field) matches DatumView::Text(t) ==> t == trimmed(field),
{
    truth_values_are_cast(field);
    if trimmed(field).len() == 0 {
        blank_fields_are_null(field);
    }
}

/// A cast that is given what the text reads as gives the number of that reading and no other.
pub proof fn readings_are_used_as_given(t: Seq<char>, n: serde_json::Number)
    ensures
        int_of_text(t) matches Some(v) ==> cast_trimmed(t, None) == DatumView::Num(NumView::Int(v)),
        int_of_text(t) is None ==> cast_trimmed(t, Some(Some(n))) == DatumView::Num(NumView::Float(n)),
        cast_trimmed_text(t, Some(Some(n))) == DatumView::Num(NumView::Float(n)),
        cast_trimmed_character(t, Some(Some(n))) == DatumView::Num(NumView::Float(n)),
        cast_trimmed_text(t, Some(None)) == DatumView::Num(NumView::Int(0)),
        cast_trimmed_character(t, Some(None)) == DatumView::Text(t),
{
}

} // verus!
