use revive_me::dbf::{cast_dbf_field, read_dbf, Field};
use revive_me::cast::{cast, cast_cell_text, cast_character, cast_character_text, cast_csv_field, cast_text};
use revive_me::delimited::{assemble_csv, key_of_column, read_csv, record_to_row};
use revive_me::error::ConvertError;
use revive_me::excel::{cast_cell, excel_headers, first_sheet, read_excel, Cell};
use revive_me::json::{float_datum, read_float, row_to_json, Float};
use revive_me::text::{chars_of, date_to_text, decimal_text, int_to_text, parse_int, text_of, unquote};
use revive_me::value::{Datum, Num, Row};

fn finite(f: f64) -> Option<Float> {
    serde_json::Number::from_f64(f).and_then(Float::of)
}

fn float(f: f64) -> Datum {
    Datum::Num(Num::Float(finite(f).unwrap()))
}

fn whole(i: i64) -> Datum {
    Datum::Num(Num::Int(i))
}

fn text(s: &str) -> Datum {
    Datum::Text(s.to_string())
}

fn row(fields: Vec<(&str, Datum)>) -> Row {
    let mut r = Row::new();
    for (k, v) in fields {
        r.insert(k.to_string(), v);
    }
    r
}

fn strings(list: &[&str]) -> Vec<String> {
    list.iter().map(|s| s.to_string()).collect()
}

#[test]
fn text_100_50_is_cast_to_a_float() {
    assert_eq!(cast_csv_field("100.50"), float(100.5));
    assert_eq!(row_to_json(&row(vec![("v", cast_csv_field("100.50"))])), "{\"v\":100.5}");
}

#[test]
fn text_true_is_cast_to_a_truth_value() {
    assert_eq!(cast_csv_field("TRUE"), Datum::Bool(true));
    assert_eq!(cast_csv_field(" tRuE "), Datum::Bool(true));
    assert_eq!(cast_csv_field("False"), Datum::Bool(false));
}

#[test]
fn whole_numbers_are_cast_before_floats() {
    assert_eq!(cast_csv_field("42"), whole(42));
    assert_eq!(cast_csv_field("+7"), whole(7));
    assert_eq!(cast_csv_field("-007"), whole(-7));
    assert_eq!(cast_csv_field("9223372036854775807"), whole(i64::MAX));
    assert_eq!(cast_csv_field("-9223372036854775808"), whole(i64::MIN));
    assert_eq!(cast_csv_field("9223372036854775808"), float(9223372036854775808.0));
    for i in [0, 1, -1, 10, 99, 100, 12345, i64::MAX, i64::MIN] {
        assert_eq!(cast_csv_field(&int_to_text(i)), whole(i));
    }
}

#[test]
fn floats_are_cast_as_parse_reads_them() {
    assert_eq!(cast_csv_field("1e3"), float(1000.0));
    assert_eq!(cast_csv_field(".5"), float(0.5));
    assert_eq!(cast_csv_field("5."), float(5.0));
    assert_eq!(cast_csv_field("-0.0"), float(-0.0));
    assert_eq!(cast_csv_field("+1.5E-2"), float(0.015));
}

#[test]
fn floats_that_are_not_finite_become_zero() {
    for s in ["inf", "-Infinity", "NaN", "+nan", "1e999"] {
        assert_eq!(cast_csv_field(s), whole(0), "{}", s);
    }
    assert_eq!(float_datum(None), whole(0));
}

#[test]
fn float_syntax_is_the_documented_one() {
    fn digits(s: &str) -> bool {
        s.chars().all(|c| c.is_ascii_digit())
    }
    fn unsigned(s: &str) -> &str {
        if s.starts_with('+') || s.starts_with('-') { &s[1..] } else { s }
    }
    fn mantissa(s: &str) -> bool {
        (!s.is_empty() && digits(s))
            || (s.len() > 1 && (0..s.len()).any(|p| &s[p..p + 1] == "." && digits(&s[..p]) && digits(&s[p + 1..])))
    }
    fn exponent(s: &str) -> bool {
        s.is_empty() || ((s.starts_with('e') || s.starts_with('E')) && !unsigned(&s[1..]).is_empty() && digits(unsigned(&s[1..])))
    }
    fn is_float(s: &str) -> bool {
        let t = unsigned(s);
        let l = t.to_ascii_lowercase();
        l == "inf" || l == "infinity" || l == "nan" || (0..=t.len()).any(|m| mantissa(&t[..m]) && exponent(&t[m..]))
    }
    let alphabet = ["0", "7", ".", "e", "E", "+", "-", "i", "n", "f", "a"];
    let mut words: Vec<String> = vec![String::new()];
    let mut from = 0;
    for _ in 0..5 {
        let to = words.len();
        for i in from..to {
            for a in alphabet {
                words.push(format!("{}{}", words[i], a));
            }
        }
        from = to;
    }
    words.extend(["infinity", "-INFINITY", "infinit", "1_0", "0x1", " 1", "1e+", "1e1.0", "NaN1"].iter().map(|s| s.to_string()));
    for w in words {
        assert_eq!(w.parse::<f64>().is_ok(), is_float(&w), "{:?}", w);
    }
}

#[test]
fn other_fields_stay_text_or_become_null() {
    assert_eq!(cast_csv_field(""), Datum::Null);
    assert_eq!(cast_csv_field(" \t\u{a0}\u{3000}"), Datum::Null);
    assert_eq!(cast_csv_field("  hello world "), text("hello world"));
    assert_eq!(cast_csv_field("1,5"), text("1,5"));
    assert_eq!(cast_csv_field("+"), text("+"));
    assert_eq!(cast_csv_field("trues"), text("trues"));
}

#[test]
fn the_cast_follows_the_float_it_is_given() {
    assert_eq!(cast("abc", None), text("abc"));
    assert_eq!(cast("abc", Some(None)), whole(0));
    assert_eq!(cast("3", Some(None)), whole(3));
    assert_eq!(cast_cell_text("True", None), Datum::Bool(true));
    assert_eq!(cast_cell_text("abc", None), text("abc"));
    assert_eq!(cast_cell_text("3", Some(finite(3.0))), float(3.0));
}

#[test]
fn white_space_is_the_unicode_property() {
    let listed = |c: char| {
        matches!(c as u32, 0x9..=0xd | 0x20 | 0x85 | 0xa0 | 0x1680 | 0x2000..=0x200a | 0x2028 | 0x2029 | 0x202f | 0x205f | 0x3000)
    };
    for n in 0..=0x10ffffu32 {
        if let Some(c) = char::from_u32(n) {
            assert_eq!(c.is_whitespace(), listed(c), "{:x}", n);
        }
    }
    assert_eq!(cast_csv_field("\u{2003}a b\u{85}"), text("a b"));
}

#[test]
fn numbers_are_written_and_read() {
    assert_eq!(decimal_text(0), "0");
    assert_eq!(decimal_text(u64::MAX), u64::MAX.to_string());
    assert_eq!(int_to_text(i64::MIN), i64::MIN.to_string());
    for s in ["", "+", "-", "12a", "1 2", "--1", "+0", "00012", "99999999999999999999999999"] {
        assert_eq!(parse_int(s), s.parse::<i64>().ok(), "{:?}", s);
    }
}

#[test]
fn dates_are_padded() {
    assert_eq!(date_to_text(2024, 1, 9), "2024-01-09");
    assert_eq!(date_to_text(987, 12, 31), "987-12-31");
    assert_eq!(date_to_text(5, 0, 100), format!("{}-{:02}-{:02}", 5, 0, 100));
}

#[test]
fn text_tools() {
    let chars = chars_of("h\u{e9}llo");
    assert_eq!(text_of(&chars, 1, 4), "\u{e9}ll");
    for s in ["", "\"", "\"\"", "\"a\"", "a\"b", "\"\"a\"\"\"", "a"] {
        assert_eq!(unquote(s), s.trim_matches('"'));
    }
}

#[test]
fn csv_records_become_rows() {
    let data = b" name ,age,ok\nAda,36,true\n\"Bob, Jr\",,x\n";
    let rows = read_csv(data, b',').unwrap();
    assert_eq!(
        rows,
        vec![
            row(vec![("name", text("Ada")), ("age", whole(36)), ("ok", Datum::Bool(true))]),
            row(vec![("name", text("Bob, Jr")), ("age", Datum::Null), ("ok", text("x"))]),
        ]
    );
}

#[test]
fn csv_records_may_be_longer_or_shorter_than_the_headers() {
    let rows = read_csv(b"a,b\n1\n1,2,3\n", b',').unwrap();
    assert_eq!(rows[0], row(vec![("a", whole(1))]));
    assert_eq!(rows[1], row(vec![("a", whole(1)), ("b", whole(2)), ("col_2", whole(3))]));
    assert_eq!(key_of_column(&strings(&["a"]), 0), "a");
    assert_eq!(key_of_column(&strings(&["a"]), 12), "col_12");
}

#[test]
fn of_two_columns_with_one_name_the_last_stays() {
    let rows = read_csv(b"a,b,a\n1,2,3\n", b',').unwrap();
    assert_eq!(rows[0].len(), 2);
    assert_eq!(rows[0].key(0), "a");
    assert_eq!(rows[0].get(&"a".to_string()), Some(&whole(3)));
    assert_eq!(rows[0].get(&"b".to_string()), Some(&whole(2)));
    assert_eq!(rows[0].get(&"c".to_string()), None);
}

#[test]
fn tabs_separate_too() {
    let rows = read_csv(b"a\tb\n1,5\tx\n", b'\t').unwrap();
    assert_eq!(rows[0], row(vec![("a", text("1,5")), ("b", text("x"))]));
}

#[test]
fn csv_without_records_has_no_rows() {
    assert_eq!(read_csv(b"", b',').unwrap().len(), 0);
    assert_eq!(read_csv(b"a,b\n", b',').unwrap().len(), 0);
}

#[test]
fn csv_that_is_no_text_is_refused() {
    assert_eq!(read_csv(b"a,\xff\n1,2\n", b','), Err(ConvertError::CsvHeaders));
    assert_eq!(read_csv(b"a,b\n1,2\n\xff,2\n", b','), Err(ConvertError::CsvRecord));
}

#[test]
fn csv_parts_are_put_together() {
    assert_eq!(assemble_csv(None, vec![]), Err(ConvertError::CsvHeaders));
    assert_eq!(assemble_csv(Some(strings(&["a"])), vec![Some(strings(&["1"])), None]), Err(ConvertError::CsvRecord));
    assert_eq!(
        assemble_csv(Some(strings(&[" a "])), vec![Some(strings(&["1"]))]),
        Ok(vec![row(vec![("a", whole(1))])])
    );
    assert_eq!(record_to_row(&strings(&["a"]), &strings(&["x", "y"])), row(vec![("a", text("x")), ("col_1", text("y"))]));
}

#[test]
fn worksheets_become_rows() {
    let one = Cell::Float { shown: "1".to_string(), number: finite(1.0) };
    let sheet = vec![
        vec![Cell::Text(" id ".to_string()), one, Cell::Int(7), Cell::Empty, Cell::Text(" ".to_string())],
        vec![
            Cell::Text(" 12.5 ".to_string()),
            Cell::Float { shown: "2.5".to_string(), number: finite(2.5) },
            Cell::Bool(true),
            Cell::Empty,
            Cell::Other("#N/A".to_string()),
        ],
    ];
    assert_eq!(excel_headers(&sheet[0]), strings(&["id", "1", "7", "column", "col_4"]));
    assert_eq!(
        read_excel(&sheet),
        vec![row(vec![
            ("id", float(12.5)),
            ("1", float(2.5)),
            ("7", Datum::Bool(true)),
            ("column", Datum::Null),
            ("col_4", text("#N/A")),
        ])]
    );
    assert_eq!(read_excel(&vec![]).len(), 0);
}

#[test]
fn worksheet_texts_are_cast() {
    assert_eq!(cast_cell(&Cell::Text("TRUE".to_string())), Datum::Bool(true));
    assert_eq!(cast_cell(&Cell::Text(" false ".to_string())), Datum::Bool(false));
    assert_eq!(cast_cell(&Cell::Text("100.50".to_string())), float(100.5));
    assert_eq!(cast_cell(&Cell::Text("42".to_string())), float(42.0));
    assert_eq!(cast_cell(&Cell::Text("truth".to_string())), text("truth"));
    assert_eq!(cast_cell(&Cell::Text("  ".to_string())), text(""));
    assert_eq!(cast_cell(&Cell::Int(-3)), whole(-3));
    assert_eq!(cast_cell(&Cell::Float { shown: "inf".to_string(), number: None }), whole(0));
    let sheet = vec![vec![Cell::Text("v".to_string())], vec![Cell::Text("TRUE".to_string())]];
    assert_eq!(read_excel(&sheet), vec![row(vec![("v", Datum::Bool(true))])]);
}

#[test]
fn repeated_headers_get_their_index() {
    let names = |list: &[&str]| list.iter().map(|s| Cell::Text(s.to_string())).collect::<Vec<Cell>>();
    let sheet = vec![names(&["x", "x"]), vec![Cell::Int(1), Cell::Int(2)]];
    assert_eq!(read_excel(&sheet), vec![row(vec![("x", whole(1)), ("x_1", whole(2))])]);
    assert_eq!(excel_headers(&names(&["x", "y", "x", "x"])), strings(&["x", "y", "x_2", "x_3"]));
    assert_eq!(excel_headers(&names(&["x_2", "x", "x"])), strings(&["x_2", "x", "x_2_2"]));
    assert_eq!(excel_headers(&names(&["col_1", ""])), strings(&["col_1", "col_1_1"]));
    assert_eq!(excel_headers(&vec![Cell::Empty, Cell::Bool(true)]), strings(&["column", "column_1"]));
}

#[test]
fn whole_numbers_are_no_floats() {
    assert_eq!(Float::of(serde_json::Number::from(5)), None);
    assert_eq!(Float::of(serde_json::Number::from(u64::MAX)), None);
    assert_eq!(finite(5.0).unwrap().number().as_f64(), Some(5.0));
    assert_eq!(read_float("5"), Some(finite(5.0)));
    assert_eq!(read_float("inf"), Some(None));
    assert_eq!(read_float("five"), None);
    assert_eq!(cast_text(" 5 "), float(5.0));
}

#[test]
fn the_first_sheet_is_read() {
    assert_eq!(first_sheet(&strings(&["One", "Two"])), Ok("One".to_string()));
    assert_eq!(first_sheet(&vec![]), Err(ConvertError::NoSheets));
}

#[test]
fn dbf_fields_become_values() {
    assert_eq!(cast_dbf_field(&Field::Character(Some(" a ".to_string()))), text("a"));
    assert_eq!(cast_dbf_field(&Field::Character(Some(" 100.50 ".to_string()))), float(100.5));
    assert_eq!(cast_dbf_field(&Field::Character(Some("True".to_string()))), Datum::Bool(true));
    for s in ["Nan", "inf", "-Infinity", "1e999"] {
        assert_eq!(cast_dbf_field(&Field::Character(Some(format!(" {} ", s)))), text(s));
        assert_eq!(cast_cell(&Cell::Text(s.to_string())), whole(0));
    }
    assert_eq!(cast_character_text("abc", Some(None)), text("abc"));
    assert_eq!(cast_character_text("abc", Some(finite(2.5))), float(2.5));
    assert_eq!(cast_character_text("false", None), Datum::Bool(false));
    assert_eq!(cast_character(" 7 "), float(7.0));
    assert_eq!(cast_dbf_field(&Field::Character(None)), Datum::Null);
    assert_eq!(cast_dbf_field(&Field::Numeric(Some(finite(1.5)))), float(1.5));
    assert_eq!(cast_dbf_field(&Field::Numeric(Some(None))), whole(0));
    assert_eq!(cast_dbf_field(&Field::Numeric(None)), Datum::Null);
    assert_eq!(cast_dbf_field(&Field::Logical(Some(false))), Datum::Bool(false));
    assert_eq!(cast_dbf_field(&Field::Logical(None)), Datum::Null);
    assert_eq!(cast_dbf_field(&Field::Date(Some((2020, 2, 3)))), text("2020-02-03"));
    assert_eq!(cast_dbf_field(&Field::Date(None)), Datum::Null);
    assert_eq!(cast_dbf_field(&Field::Integer(-5)), whole(-5));
    assert_eq!(cast_dbf_field(&Field::Other), Datum::Null);
}

#[test]
fn dbf_records_become_rows_whatever_the_order_of_their_fields() {
    let a = vec![("X".to_string(), Field::Integer(1)), ("Y".to_string(), Field::Logical(Some(true)))];
    let b = vec![("Y".to_string(), Field::Logical(Some(true))), ("X".to_string(), Field::Integer(1))];
    let rows = read_dbf(&vec![a, b]);
    assert_eq!(rows[0], row(vec![("X", whole(1)), ("Y", Datum::Bool(true))]));
    assert_eq!(row_to_json(&rows[0]), "{\"X\":1,\"Y\":true}");
    assert_eq!(row_to_json(&rows[0]), row_to_json(&rows[1]));
    let record = vec![("V".to_string(), Field::Character(Some("100.50".to_string())))];
    assert_eq!(read_dbf(&vec![record]), vec![row(vec![("V", float(100.5))])]);
}
