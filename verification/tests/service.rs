use revive_me::api::{
    cleanup_names, cleanup_reply, download_name, download_reply, health, output_names, save_failed, upload_reply,
    ApiResponse, Attachment, FileRead, Job, Reply, Upload, MAX_FILE_SIZE, OUTPUT_DIR, UPLOAD_DIR,
};
use revive_me::convert::{convert_rows, record_at};
use revive_me::error::ConvertError;
use revive_me::format::{detect_format, format_of_extension, LegacyFormat};
use revive_me::names::{json_file_name, stored_file_name, xlsx_file_name};

fn failure(status: u16, message: &str) -> Reply<()> {
    Reply { status, body: ApiResponse { success: false, message: message.to_string(), data: None } }
}

#[test]
fn formats_are_told_from_the_extension() {
    assert_eq!(detect_format("a.dbf"), LegacyFormat::Dbf);
    assert_eq!(detect_format("./tmp/uploads/job_a.XLS"), LegacyFormat::Xls);
    assert_eq!(detect_format("a.b.xlsx"), LegacyFormat::Xlsx);
    assert_eq!(detect_format("A.Csv"), LegacyFormat::Csv);
    assert_eq!(detect_format("dir.csv/a.tsv"), LegacyFormat::Tsv);
    for path in ["a", "a.", "a.txt", ".csv", "dir.csv/a", "a.csv ", "a.\u{212a}", "..", ""] {
        assert_eq!(detect_format(path), LegacyFormat::Unknown, "{}", path);
    }
    assert_eq!(detect_format("550e8400_.csv"), LegacyFormat::Csv);
    assert_eq!(detect_format("C:\\data\\a.csv"), LegacyFormat::Csv);
    assert_eq!(detect_format("data\\a.txt"), LegacyFormat::Unknown);
}

#[test]
fn formats_are_named_by_their_extension() {
    for (name, format) in [
        ("dbf", LegacyFormat::Dbf),
        ("xls", LegacyFormat::Xls),
        ("xlsx", LegacyFormat::Xlsx),
        ("csv", LegacyFormat::Csv),
        ("tsv", LegacyFormat::Tsv),
    ] {
        assert_eq!(format.name(), name);
        assert_eq!(format_of_extension(&Some(name.to_uppercase())), format);
    }
    assert_eq!(LegacyFormat::Unknown.name(), "unknown");
    assert_eq!(format_of_extension(&None), LegacyFormat::Unknown);
}

#[test]
fn responses_carry_success_or_failure() {
    let ok = ApiResponse::ok("fine", 3);
    assert_eq!(ok, ApiResponse { success: true, message: "fine".to_string(), data: Some(3) });
    let err = ApiResponse::<u8>::err("bad");
    assert_eq!(err, ApiResponse { success: false, message: "bad".to_string(), data: None });
}

#[test]
fn health_lists_the_formats() {
    let r = health();
    assert_eq!(r.status, 200);
    assert_eq!(r.body.message, "revive-me is running \u{1f7e2}");
    let data = r.body.data.unwrap();
    assert_eq!(data.version, "1.0.0");
    assert_eq!(data.supported, vec![".dbf", ".xls", ".xlsx", ".csv", ".tsv"]);
}

#[test]
fn the_configuration_is_the_documented_one() {
    assert_eq!(UPLOAD_DIR, "./tmp/uploads");
    assert_eq!(OUTPUT_DIR, "./tmp/outputs");
    assert_eq!(MAX_FILE_SIZE, 52428800);
}

#[test]
fn every_request_has_a_new_job_id() {
    let a = Upload::begin();
    let b = Upload::begin();
    assert_ne!(a.job_id, b.job_id);
    assert_eq!(a.original_name, "unknown");
    assert_eq!(a.saved, None);
    let id: Vec<char> = a.job_id.chars().collect();
    assert_eq!(id.len(), 36);
    for (i, c) in id.iter().enumerate() {
        if [8, 13, 18, 23].contains(&i) {
            assert_eq!(*c, '-');
        } else {
            assert!(c.is_ascii_digit() || ('a'..='f').contains(c));
        }
    }
    assert_eq!(id[14], '4');
    assert!("89ab".contains(id[19]));
    assert_eq!(cleanup_names(&a.job_id), output_names(&a.job_id));
    assert_eq!(download_name(&json_file_name(&a.job_id)), json_file_name(&a.job_id));
}

#[test]
fn an_upload_is_read_file_by_file() {
    let mut upload = Upload::with_job_id("job".to_string());
    let mut first = upload.begin_file(Some("../a/b:c.csv".to_string()));
    assert_eq!(first.name, "..abc.csv");
    assert_eq!(upload.original_name, "..abc.csv");
    assert_eq!(first.receive(b"12"), None);
    assert_eq!(first.receive(b"34"), None);
    assert_eq!(first.bytes, b"1234");
    assert_eq!(upload.stored_as(&first), "job_..abc.csv");
    upload.save(first);
    let second = upload.begin_file(None);
    assert_eq!(second.name, "upload.bin");
    upload.save(second);
    assert_eq!(
        upload.finish(),
        Ok(Job { job_id: "job".to_string(), original_name: "upload.bin".to_string(), stored: "job_upload.bin".to_string() })
    );
}

#[test]
fn a_named_file_keeps_its_name() {
    let mut upload = Upload::with_job_id("job".to_string());
    let file = upload.begin_named("x y.csv".to_string());
    assert_eq!((file.name.as_str(), file.bytes.len()), ("x y.csv", 0));
    assert_eq!(upload.original_name, "x y.csv");
}

#[test]
fn a_request_without_a_file_is_refused() {
    let mut upload = Upload::with_job_id("job".to_string());
    let _begun = upload.begin_file(Some("a.csv".to_string()));
    assert_eq!(upload.finish(), Err(failure(400, "No file received in request")));
}

#[test]
fn a_file_over_the_limit_is_refused() {
    let mut upload = Upload::with_job_id("job".to_string());
    let mut file = upload.begin_file(Some("a.csv".to_string()));
    let chunk = vec![0u8; MAX_FILE_SIZE / 2];
    assert_eq!(file.receive(&chunk), None);
    assert_eq!(file.receive(&chunk), None);
    assert_eq!(file.bytes.len(), MAX_FILE_SIZE);
    assert_eq!(file.receive(b"x"), Some(failure(413, "File exceeds 50 MB limit")));
}

#[test]
fn names_are_cleaned() {
    for (given, clean) in [
        ("report.csv", "report.csv"),
        ("a/b\\c", "abc"),
        ("h?w<x>:*|\"", "hwx"),
        ("tab\there\u{85}", "tabhere"),
        (".", ""),
        ("../..", ""),
        ("r\u{e9}sum\u{e9}", "r\u{e9}sum\u{e9}"),
    ] {
        assert_eq!(download_name(given), clean);
    }
    let dotted = download_name("a.");
    assert!(dotted == "a." || dotted == "a");
    let device = download_name("aux.csv");
    assert!(device == "aux.csv" || device == "");
    let long = "\u{e9}".repeat(200);
    assert_eq!(download_name(&long), "\u{e9}".repeat(127));
    assert_eq!(download_name(&"a".repeat(300)).len(), 255);
}

#[test]
fn the_files_of_a_job_are_named_by_its_first_group() {
    let id = "550e8400-e29b-41d4-a716-446655440000";
    assert_eq!(json_file_name(id), "550e8400_clean.json");
    assert_eq!(xlsx_file_name(id), "550e8400_clean.xlsx");
    assert_eq!(json_file_name("job"), "job_clean.json");
    assert_eq!(stored_file_name(id, "a.csv"), "550e8400-e29b-41d4-a716-446655440000_a.csv");
    assert_eq!(output_names("job"), vec!["job_clean.json", "job_clean.xlsx"]);
}

#[test]
fn cleanup_takes_away_what_a_record_names() {
    let id = "550e8400-e29b-41d4-a716-446655440000";
    let c = convert_rows(LegacyFormat::Csv, vec![], "x.csv", id);
    let r = record_at(&c, "t".to_string());
    assert_eq!(cleanup_names(id), vec![r.output_json.clone(), r.output_xlsx.clone()]);
    assert_eq!(download_name(&r.output_json), r.output_json);
    assert_eq!(download_name(&r.output_xlsx), r.output_xlsx);
    assert_eq!(cleanup_names("../x"), vec!["..x_clean.json", "..x_clean.xlsx"]);
}

#[test]
fn cleanup_counts_the_files_it_found() {
    for (found, n) in [(vec![], 0), (vec![false, false], 0), (vec![true, false], 1), (vec![true, true], 2)] {
        let r = cleanup_reply(&found);
        assert_eq!((r.status, r.body.data), (200, Some(n)));
        assert_eq!(r.body.message, format!("Removed {} file(s)", n));
        assert!(r.body.success);
    }
}

#[test]
fn uploads_are_answered() {
    let c = convert_rows(LegacyFormat::Csv, vec![], "x.csv", "j");
    let record = record_at(&c, "t".to_string());
    let ok = upload_reply(Ok(record.clone())).unwrap();
    assert_eq!((ok.status, ok.body.message.as_str()), (200, "Conversion successful!"));
    assert_eq!(ok.body.data, Some(record));
    assert_eq!(
        upload_reply(Err(ConvertError::Unsupported)),
        Err(failure(422, "Conversion failed: Unsupported file type. Accepted: .dbf, .xls, .xlsx, .csv, .tsv"))
    );
    assert_eq!(save_failed("disk full"), failure(500, "Failed to save file: disk full"));
}

#[test]
fn downloads_are_answered() {
    assert_eq!(download_reply("x.json", FileRead::Missing), Err(failure(404, "File not found")));
    assert_eq!(download_reply("x.json", FileRead::Failed("why".to_string())), Err(failure(500, "Read error: why")));
    assert_eq!(
        download_reply("x_clean.json", FileRead::Found(vec![1, 2])),
        Ok(Attachment {
            content_type: "application/json".to_string(),
            content_disposition: "attachment; filename=\"x_clean.json\"".to_string(),
            bytes: vec![1, 2],
        })
    );
    for name in ["x.xlsx", "json", "x.JSON", ""] {
        let r = download_reply(name, FileRead::Found(vec![])).unwrap();
        assert_eq!(r.content_type, "application/vnd.openxmlformats-officedocument.spreadsheetml.sheet");
    }
}

#[test]
fn errors_have_messages() {
    for (e, m) in [
        (ConvertError::Unsupported, "Unsupported file type. Accepted: .dbf, .xls, .xlsx, .csv, .tsv"),
        (ConvertError::OpenDbf, "Failed to open .dbf file"),
        (ConvertError::ReadDbf, "Failed to read .dbf records"),
        (ConvertError::OpenExcel, "Failed to open Excel file"),
        (ConvertError::NoSheets, "No sheets found in workbook"),
        (ConvertError::ReadWorksheet, "Failed to read worksheet"),
        (ConvertError::OpenCsv, "Failed to open CSV file"),
        (ConvertError::CsvHeaders, "Failed to read CSV headers"),
        (ConvertError::CsvRecord, "Failed to read CSV record"),
        (ConvertError::Output("why".to_string()), "why"),
    ] {
        assert_eq!(e.message(), m);
    }
}

#[test]
fn the_listed_extensions_are_read() {
    for extension in health().body.data.unwrap().supported {
        let format = detect_format(&format!("{}/job_data{}", UPLOAD_DIR, extension));
        assert_ne!(format, LegacyFormat::Unknown);
        assert_eq!(format!(".{}", format.name()), extension);
    }
}

#[test]
fn paths_are_taken_apart_as_stated() {
    fn file_name(path: &str) -> Option<&str> {
        let last = path.rsplit('/').next().unwrap();
        if path.is_empty() || path == "." || last == ".." {
            None
        } else if path.ends_with('/') || last == "." {
            file_name(&path[..path.len() - 1])
        } else {
            Some(last)
        }
    }
    fn is_csv(path: &str) -> bool {
        match file_name(path) {
            Some(name) => match name.rfind('.') {
                Some(dot) => dot > 0 && &name[dot + 1..] == "csv",
                None => false,
            },
            None => false,
        }
    }
    fn is_slash(c: char) -> bool {
        c == '/' || c == '\\'
    }
    let mut paths: Vec<String> = vec![String::new()];
    let mut from = 0;
    for _ in 0..7 {
        let to = paths.len();
        for i in from..to {
            for piece in ["/", "\\", ".", "csv", "a:"] {
                paths.push(format!("{}{}", paths[i], piece));
            }
        }
        from = to;
    }
    for path in paths {
        let seen = detect_format(&path) == LegacyFormat::Csv;
        let drive = path.len() > 1 && &path[1..2] == ":" && !path[2..].starts_with('/');
        if !path.contains('\\') && !path.starts_with("//") && !drive {
            assert_eq!(seen, is_csv(&path), "{}", path);
        }
        let mut start = path.chars();
        let server = start.next().map_or(false, is_slash) && start.next().map_or(false, is_slash);
        let tail = path.rsplit(|c: char| is_slash(c) || c == ':').next().unwrap();
        if let Some(dot) = tail.rfind('.') {
            if !server && dot > 0 && tail != ".." {
                assert_eq!(seen, &tail[dot + 1..] == "csv", "{}", path);
            }
        }
        let before = path[..path.len() - tail.len()].chars().last();
        let hidden = !server && before == Some('/') && tail.len() > 1 && tail.rfind('.') == Some(0);
        if !tail.is_empty() && !tail.contains('.') || tail == ".." || hidden {
            assert_eq!(detect_format(&path), LegacyFormat::Unknown, "{}", path);
        }
        if !path.contains('.') {
            assert_eq!(detect_format(&path), LegacyFormat::Unknown);
        }
    }
}

#[test]
fn no_other_letters_fold_into_an_extension() {
    for n in 0x80..=0x10ffffu32 {
        if let Some(c) = char::from_u32(n) {
            let low = c.to_string().to_lowercase();
            assert!(low == "k" || !low.is_ascii(), "{:x}", n);
            assert_eq!(format_of_extension(&Some(format!("cs{}", c))), LegacyFormat::Unknown);
        }
    }
}
