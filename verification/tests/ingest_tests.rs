use rag_core::error::ErrorKind;
use rag_core::ingest::{
    append_row, classify_lowered, classify_upload, dated_title, extract_csv_text,
    extract_txt_text, join_rows, read_rows, resolve_title, upload_title, SourceKind,
    UploadError, TIMESTAMP_FORMAT,
};

fn row(items: &[&str]) -> Vec<String> {
    items.iter().map(|s| s.to_string()).collect()
}

#[test]
fn csv_text_joins_fields_and_rows() {
    let data = b"h1,h2\na,b\nc,d\n";
    assert_eq!(extract_csv_text(data), Ok("a b \nc d \n".to_string()));
}

#[test]
fn csv_header_is_left_out() {
    assert_eq!(extract_csv_text(b"only,a,header\n"), Ok(String::new()));
    assert_eq!(extract_csv_text(b""), Ok(String::new()));
}

#[test]
fn csv_last_row_needs_no_line_feed() {
    assert_eq!(extract_csv_text(b"h\nx"), Ok("x \n".to_string()));
}

#[test]
fn csv_quoted_fields_keep_commas_and_line_feeds() {
    let data = b"name,note\n\"Doe, Jane\",\"line one\nline two\"\n";
    assert_eq!(extract_csv_text(data), Ok("Doe, Jane line one\nline two \n".to_string()));
}

#[test]
fn csv_rows_of_unequal_length_fail() {
    assert_eq!(extract_csv_text(b"a,b\n1,2\n3\n"), Err(ErrorKind::Validation));
    assert_eq!(read_rows(b"a,b\n1,2,3\n"), Err(ErrorKind::Validation));
}

#[test]
fn csv_that_is_not_utf8_fails() {
    assert_eq!(extract_csv_text(b"a,b\n\xff,2\n"), Err(ErrorKind::Validation));
}

#[test]
fn read_rows_returns_the_fields() {
    assert_eq!(
        read_rows(b"h1,h2\na,b\n,d\n"),
        Ok(vec![row(&["a", "b"]), row(&["", "d"])])
    );
    assert_eq!(read_rows(b"h1,h2\n"), Ok(Vec::new()));
}

#[test]
fn join_rows_is_exact() {
    assert_eq!(join_rows(&vec![row(&["a", "b"]), row(&[]), row(&["c"])]), "a b \n\nc \n");
    assert_eq!(join_rows(&Vec::new()), "");
}

#[test]
fn append_row_adds_to_what_is_there() {
    let mut text = "start:".to_string();
    append_row(&mut text, &row(&["x", "", "z"]));
    assert_eq!(text, "start:x  z \n");
}

#[test]
fn txt_text_is_the_decoded_bytes() {
    assert_eq!(extract_txt_text("héllo\nwörld".as_bytes()), Ok("héllo\nwörld".to_string()));
    assert_eq!(extract_txt_text(b""), Ok(String::new()));
}

#[test]
fn txt_that_is_not_utf8_fails() {
    assert_eq!(extract_txt_text(b"ok\xc3"), Err(ErrorKind::Validation));
    assert_eq!(extract_txt_text(b"\xed\xa0\x80"), Err(ErrorKind::Validation));
    assert_eq!(extract_txt_text(b"\xc0\x80"), Err(ErrorKind::Validation));
}

#[test]
fn uploads_are_classified_by_extension() {
    assert_eq!(classify_upload("report.pdf"), Ok(SourceKind::Pdf));
    assert_eq!(classify_upload("table.csv"), Ok(SourceKind::Csv));
    assert_eq!(classify_upload("notes.txt"), Ok(SourceKind::Txt));
    assert_eq!(classify_upload("archive.tar.txt"), Ok(SourceKind::Txt));
}

#[test]
fn classification_ignores_case() {
    assert_eq!(classify_upload("REPORT.PDF"), Ok(SourceKind::Pdf));
    assert_eq!(classify_upload("Table.Csv"), Ok(SourceKind::Csv));
    assert_eq!(classify_lowered("REPORT.PDF"), Err(UploadError::UnsupportedFormat));
}

#[test]
fn a_name_without_extension_is_refused() {
    assert_eq!(classify_upload("README"), Err(UploadError::MissingExtension));
    assert_eq!(classify_upload(""), Err(UploadError::MissingExtension));
}

#[test]
fn an_unknown_extension_is_refused() {
    assert_eq!(classify_upload("photo.png"), Err(UploadError::UnsupportedFormat));
    assert_eq!(classify_upload("file."), Err(UploadError::UnsupportedFormat));
    assert_eq!(classify_upload("file.pdf "), Err(UploadError::UnsupportedFormat));
    assert_eq!(classify_upload("pdf"), Err(UploadError::MissingExtension));
}

#[test]
fn upload_errors_are_the_clients() {
    assert_eq!(UploadError::MissingExtension.kind(), ErrorKind::Validation);
    assert_eq!(UploadError::UnsupportedFormat.kind(), ErrorKind::Validation);
    assert_eq!(UploadError::MissingExtension.message(), "Ekstensi file tidak valid");
    assert_eq!(UploadError::UnsupportedFormat.message(), "Format file tidak didukung");
}

#[test]
fn source_labels() {
    assert_eq!(SourceKind::Manual.label(), "manual_input");
    assert_eq!(SourceKind::Pdf.label(), "pdf");
    assert_eq!(SourceKind::Csv.label(), "csv");
    assert_eq!(SourceKind::Txt.label(), "txt");
}

#[test]
fn a_given_title_is_kept() {
    assert_eq!(resolve_title(Some("My title".to_string()), 0), "My title");
    assert_eq!(resolve_title(Some(String::new()), 0), "");
}

#[test]
fn a_missing_title_is_made_of_the_time() {
    assert_eq!(resolve_title(None, 0), "Dokumen 1970-01-01 00:00:00");
    assert_eq!(resolve_title(None, 1431648000), "Dokumen 2015-05-15 00:00:00");
    assert_eq!(resolve_title(None, 1431648000 + 3661), "Dokumen 2015-05-15 01:01:01");
    assert_eq!(resolve_title(None, -1), "Dokumen 1969-12-31 23:59:59");
}

#[test]
fn a_time_out_of_the_calendar_gives_an_untitled_document() {
    assert_eq!(resolve_title(None, i64::MAX), "Untitled");
    assert_eq!(resolve_title(None, i64::MIN), "Untitled");
}

#[test]
fn dated_title_is_exact() {
    assert_eq!(dated_title("2024-01-02 03:04:05"), "Dokumen 2024-01-02 03:04:05");
    assert_eq!(dated_title(""), "Dokumen ");
    assert_eq!(TIMESTAMP_FORMAT, "%Y-%m-%d %H:%M:%S");
}

#[test]
fn the_title_of_an_upload_is_the_name_of_its_file() {
    assert_eq!(upload_title("report.pdf"), "report.pdf");
    assert_eq!(upload_title("dir/report.pdf"), "report.pdf");
    assert_eq!(upload_title("/a/b/c/Table.CSV"), "Table.CSV");
    assert_eq!(upload_title("données/résumé.txt"), "résumé.txt");
    assert_eq!(upload_title("/.pdf"), ".pdf");
}

#[test]
fn the_title_of_a_name_that_ends_in_a_separator_is_empty() {
    assert_eq!(upload_title("dir/"), "");
    assert_eq!(upload_title("/"), "");
    assert_eq!(upload_title(""), "");
}

#[test]
fn the_title_agrees_with_the_last_path_component_of_accepted_uploads() {
    let names = vec!["a.pdf", "x/y.csv", "/tmp/up/notes.txt", "./z.txt", "a b/c d.pdf", "q//r.csv"];
    for name in names {
        let expected = std::path::Path::new(name).file_name().unwrap().to_string_lossy().to_string();
        assert_eq!(upload_title(name), expected);
    }
}
