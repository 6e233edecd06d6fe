use revive_me::convert::{convert_legacy, convert_rows, curate, read_rows, record_at, record_now, Input};
use revive_me::curate::{deduplicate, drop_empty_rows, keep_first_of_each, row_is_blank};
use revive_me::dbf::Field;
use revive_me::error::ConvertError;
use revive_me::excel::Cell;
use revive_me::format::LegacyFormat;
use revive_me::json::{row_to_json, table_to_json, Float};
use revive_me::sheet::{to_content, write_xlsx, Content, Entry};
use revive_me::value::{Datum, Num, Row};

fn whole(i: i64) -> Datum {
    Datum::Num(Num::Int(i))
}

fn text(s: &str) -> Datum {
    Datum::Text(s.to_string())
}

fn row(fields: Vec<(&str, Datum)>) -> Row {
    let mut r = Row::new();
    for (k, v) in fields {
        r.insert(k.to_string(), v);
    }
    r
}

#[test]
fn setting_a_field_again_keeps_its_place() {
    let mut r = row(vec![("a", whole(1)), ("b", whole(2))]);
    r.insert("a".to_string(), whole(3));
    assert_eq!(r, row(vec![("a", whole(3)), ("b", whole(2))]));
    assert_eq!(r.datum(0), &whole(3));
    assert_eq!(r.len(), 2);
}

#[test]
fn blank_rows_are_dropped() {
    assert!(row_is_blank(&row(vec![])));
    assert!(row_is_blank(&row(vec![("a", Datum::Null), ("b", text(""))])));
    assert!(!row_is_blank(&row(vec![("a", Datum::Null), ("b", Datum::Bool(false))])));
    assert!(!row_is_blank(&row(vec![("a", whole(0))])));
    let rows = vec![row(vec![("a", Datum::Null)]), row(vec![("a", whole(1))]), row(vec![("a", text(""))])];
    let kept = drop_empty_rows(rows);
    assert_eq!(kept, vec![row(vec![("a", whole(1))])]);
    assert_eq!(drop_empty_rows(kept), vec![row(vec![("a", whole(1))])]);
}

#[test]
fn identical_rows_are_removed_and_counted() {
    let rows = vec![
        row(vec![("a", whole(1)), ("b", text("x"))]),
        row(vec![("a", whole(2)), ("b", text("x"))]),
        row(vec![("b", text("x")), ("a", whole(1))]),
        row(vec![("a", whole(1)), ("b", text("x"))]),
    ];
    let (kept, removed) = deduplicate(rows);
    assert_eq!(removed, 2);
    assert_eq!(kept, vec![row(vec![("a", whole(1)), ("b", text("x"))]), row(vec![("a", whole(2)), ("b", text("x"))])]);
    let (again, none) = deduplicate(kept);
    assert_eq!((again.len(), none), (2, 0));
}

#[test]
fn rows_with_different_json_all_stay() {
    let one = Float::of(serde_json::Number::from_f64(1.0).unwrap()).unwrap();
    let rows = vec![
        row(vec![("a", whole(1))]),
        row(vec![("a", Datum::Num(Num::Float(one)))]),
        row(vec![("a", text("1"))]),
        row(vec![("a", Datum::Null)]),
        row(vec![("b", whole(1))]),
        row(vec![]),
    ];
    assert_eq!(deduplicate(rows).1, 0);
}

#[test]
fn the_first_row_of_each_key_stays() {
    let rows = vec![row(vec![("a", whole(1))]), row(vec![("a", whole(2))]), row(vec![("a", whole(3))])];
    let keys = vec!["k".to_string(), "l".to_string(), "k".to_string()];
    let (kept, removed) = keep_first_of_each(rows, keys);
    assert_eq!(kept, vec![row(vec![("a", whole(1))]), row(vec![("a", whole(2))])]);
    assert_eq!(removed, 1);
}

#[test]
fn a_table_is_curated_once() {
    let rows = || {
        vec![
            row(vec![("a", Datum::Null), ("b", Datum::Null), ("c", Datum::Null)]),
            row(vec![("a", whole(1)), ("b", Datum::Null)]),
            row(vec![("a", whole(1)), ("b", Datum::Null)]),
            row(vec![("a", whole(2))]),
        ]
    };
    let c = curate(rows());
    assert_eq!((c.rows.len(), c.columns, c.duplicates_removed), (2, 2, 1));
    let again = curate(c.rows);
    assert_eq!((again.rows.len(), again.columns, again.duplicates_removed), (2, 2, 0));
    let none = curate(vec![]);
    assert_eq!((none.rows.len(), none.columns, none.duplicates_removed), (0, 0, 0));
}

#[test]
fn rows_are_written_as_json() {
    let r = row(vec![("b", text("q\"\\\n")), ("a", whole(-5)), ("c", Datum::Null), ("d", Datum::Bool(true))]);
    assert_eq!(row_to_json(&r), "{\"a\":-5,\"b\":\"q\\\"\\\\\\n\",\"c\":null,\"d\":true}");
    assert_eq!(table_to_json(&vec![row(vec![("a", whole(1))])]), "[\n  {\n    \"a\": 1\n  }\n]");
    assert_eq!(table_to_json(&vec![]), "[]");
}

#[test]
fn values_become_cells() {
    assert_eq!(to_content(&Datum::Bool(true)), Content::Text("TRUE".to_string()));
    assert_eq!(to_content(&Datum::Bool(false)), Content::Text("FALSE".to_string()));
    assert_eq!(to_content(&Datum::Null), Content::Blank);
    assert_eq!(to_content(&whole(4)), Content::Num(Num::Int(4)));
    let n = Float::of(serde_json::Number::from_f64(2.5).unwrap()).unwrap();
    assert_eq!(to_content(&Datum::Num(Num::Float(n.clone()))), Content::Num(Num::Float(n)));
}

#[test]
fn texts_become_cells_as_json_writes_them() {
    assert_eq!(to_content(&text("plain text")), Content::Text("plain text".to_string()));
    assert_eq!(to_content(&text("")), Content::Text("".to_string()));
    assert_eq!(to_content(&text("a\tb")), Content::Text("a\\tb".to_string()));
    assert_eq!(to_content(&text("say \"hi\"")), Content::Text("say \\\"hi\\".to_string()));
    assert_eq!(to_content(&text("\u{1f}\u{0}\u{8}\u{c}\r\n")), Content::Text("\\u001f\\u0000\\b\\f\\r\\n".to_string()));
    for s in ["x", "\"", "a\\b", "\u{1}", "\u{7f}\u{e9}"] {
        let json = serde_json::Value::String(s.to_string()).to_string();
        assert_eq!(to_content(&text(s)), Content::Text(json.trim_matches('"').to_string()));
    }
}

#[test]
fn a_table_is_laid_out_under_the_keys_of_its_first_row() {
    let rows = vec![
        row(vec![("b", whole(1)), ("a", text("x"))]),
        row(vec![("a", text("y")), ("c", whole(9))]),
    ];
    let sheet = write_xlsx(&rows);
    assert_eq!(sheet.name, Some("Clean Data".to_string()));
    let entry = |row: u32, column: u16, content: Content| Entry { row, column, content };
    assert_eq!(
        sheet.entries,
        vec![
            entry(0, 0, Content::Header("b".to_string())),
            entry(0, 1, Content::Header("a".to_string())),
            entry(1, 0, Content::Num(Num::Int(1))),
            entry(1, 1, Content::Text("x".to_string())),
            entry(2, 0, Content::Blank),
            entry(2, 1, Content::Text("y".to_string())),
        ]
    );
}

#[test]
fn rows_are_numbered_after_the_headers() {
    let mut wide = Row::new();
    let (key, value) = ("k".to_string(), whole(1));
    wide.insert(key, value);
    let sheet = write_xlsx(&vec![wide]);
    assert_eq!(sheet.entries.len(), 2);
    assert_eq!((sheet.entries[1].row, sheet.entries[1].column), (1, 0));
}

#[test]
fn an_empty_table_is_a_note() {
    let sheet = write_xlsx(&vec![]);
    assert_eq!(sheet.name, None);
    assert_eq!(sheet.entries, vec![Entry { row: 0, column: 0, content: Content::Text("No data".to_string()) }]);
}

#[test]
fn a_csv_file_is_converted() {
    let data = b"name,age\nAda,36\n,\nAda,36\nBob,41\n".to_vec();
    let c = convert_legacy(&Input::Csv(data), "people.csv", "job").unwrap();
    assert_eq!(c.file_type, "csv");
    assert_eq!(c.table.rows.len(), 2);
    assert_eq!(c.json, "[\n  {\n    \"age\": 36,\n    \"name\": \"Ada\"\n  },\n  {\n    \"age\": 41,\n    \"name\": \"Bob\"\n  }\n]");
    assert_eq!(c.sheet.entries.len(), 6);
    let r = record_at(&c, "now".to_string());
    assert_eq!((r.rows, r.columns, r.duplicates_removed), (2, 2, 1));
    assert_eq!((r.id.as_str(), r.original_name.as_str(), r.timestamp.as_str()), ("job", "people.csv", "now"));
}

#[test]
fn each_type_is_read_by_its_reader() {
    let tsv = convert_legacy(&Input::Tsv(b"a\tb\n1\t2\n".to_vec()), "x.tsv", "j").unwrap();
    assert_eq!((tsv.file_type.as_str(), tsv.table.columns), ("tsv", 2));
    let cells = || vec![vec![Cell::Text("h".to_string())], vec![Cell::Int(1)]];
    assert_eq!(convert_legacy(&Input::Xls(cells()), "x.xls", "j").unwrap().file_type, "xls");
    let xlsx = convert_legacy(&Input::Xlsx(cells()), "x.xlsx", "j").unwrap();
    assert_eq!((xlsx.file_type.as_str(), xlsx.table.rows), ("xlsx", vec![row(vec![("h", whole(1))])]));
    let dbf = Input::Dbf(vec![vec![("N".to_string(), Field::Integer(3))]]);
    assert_eq!(dbf.format(), LegacyFormat::Dbf);
    assert_eq!(read_rows(&dbf), Ok(vec![row(vec![("N", whole(3))])]));
    assert_eq!(convert_legacy(&dbf, "x.dbf", "j").unwrap().file_type, "dbf");
}

#[test]
fn what_cannot_be_read_is_refused() {
    assert_eq!(convert_legacy(&Input::Unknown, "x", "j"), Err(ConvertError::Unsupported));
    assert_eq!(convert_legacy(&Input::Csv(b"\xff".to_vec()), "x", "j"), Err(ConvertError::CsvHeaders));
    assert_eq!(convert_legacy(&Input::Tsv(b"a\n\xff".to_vec()), "x", "j"), Err(ConvertError::CsvRecord));
}

#[test]
fn a_file_of_blank_rows_becomes_a_note() {
    let c = convert_rows(LegacyFormat::Csv, vec![row(vec![("a", Datum::Null)])], "x.csv", "j");
    assert_eq!((c.table.rows.len(), c.table.columns, c.json.as_str()), (0, 0, "[]"));
    assert_eq!(c.sheet, write_xlsx(&vec![]));
}

#[test]
fn the_record_of_a_job_reads_as_documented() {
    let id = "550e8400-e29b-41d4-a716-446655440000";
    let mut rows: Vec<Row> = (0..1842).map(|i| row((0..12).map(|_| ("", Datum::Null)).chain([("id", whole(i))]).collect())).collect();
    for r in rows.iter_mut() {
        for k in ["b", "c", "d", "e", "f", "g", "h", "i", "j", "k"] {
            r.insert(k.to_string(), Datum::Null);
        }
    }
    let width = rows[0].len();
    rows.extend((0..37).map(|i| {
        let mut r = row(vec![("", Datum::Null), ("id", whole(i))]);
        for k in ["b", "c", "d", "e", "f", "g", "h", "i", "j", "k"] {
            r.insert(k.to_string(), Datum::Null);
        }
        r
    }));
    let c = convert_rows(LegacyFormat::Dbf, rows, "customers.dbf", id);
    let r = record_at(&c, "2026-03-08T10:22:01Z".to_string());
    assert_eq!(width, 12);
    assert_eq!(r.id, id);
    assert_eq!(r.original_name, "customers.dbf");
    assert_eq!(r.file_type, "dbf");
    assert_eq!(r.rows, 1842);
    assert_eq!(r.columns, 12);
    assert_eq!(r.duplicates_removed, 37);
    assert_eq!(r.timestamp, "2026-03-08T10:22:01Z");
    assert_eq!(r.output_json, "550e8400_clean.json");
    assert_eq!(r.output_xlsx, "550e8400_clean.xlsx");
}

#[test]
fn the_time_of_a_record_is_utc_in_whole_seconds() {
    let c = convert_rows(LegacyFormat::Csv, vec![], "x.csv", "j");
    let t = record_now(&c).timestamp;
    assert_eq!(t.len(), 20);
    assert!(t.ends_with('Z'));
    let part = |from: usize| t[from..from + 2].parse::<u32>().unwrap();
    assert!((1..=12).contains(&part(5)) && (1..=31).contains(&part(8)));
    assert!(part(11) <= 23 && part(14) <= 59 && part(17) <= 60);
    assert_eq!(&t[4..5], "-");
    assert_eq!(&t[10..11], "T");
    let parsed = chrono::DateTime::parse_from_rfc3339(&t).unwrap();
    assert!((chrono::Utc::now().timestamp() - parsed.timestamp()).abs() < 60);
}

#[test]
fn the_steps_of_curation_may_change_places() {
    let rows = || {
        vec![
            row(vec![("a", Datum::Null), ("b", text(""))]),
            row(vec![("a", whole(1)), ("b", text(""))]),
            row(vec![("b", text("")), ("a", Datum::Null)]),
            row(vec![("b", text("")), ("a", whole(1))]),
        ]
    };
    let one = drop_empty_rows(deduplicate(rows()).0);
    let other = deduplicate(drop_empty_rows(rows())).0;
    assert_eq!(one, vec![row(vec![("a", whole(1)), ("b", text(""))])]);
    assert_eq!(one, other);
}

#[test]
fn strings_are_escaped_as_stated() {
    let escaped = |c: char| match c {
        '"' | '\\' => format!("\\{}", c),
        '\u{8}' => "\\b".to_string(),
        '\t' => "\\t".to_string(),
        '\n' => "\\n".to_string(),
        '\u{c}' => "\\f".to_string(),
        '\r' => "\\r".to_string(),
        _ if (c as u32) < 0x20 => format!("\\u{:04x}", c as u32),
        _ => c.to_string(),
    };
    for n in 0..=0x10ffffu32 {
        if let Some(c) = char::from_u32(n) {
            let literal = serde_json::Value::String(format!("a{}b", c)).to_string();
            assert_eq!(literal, format!("\"a{}b\"", escaped(c)));
        }
    }
}
