//! Ingestion: which uploads are accepted, how the text of a file is read,
//! and the title a document gets.

use vstd::prelude::*;
use vstd::string::StringExecFns;
use crate::error::ErrorKind;
use crate::models::views;
use crate::text::{file_extension, get_file_extension, same_text};
use vstd::string::StringSliceAdditionalSpecFns;
use vstd::utf8::{decode_utf8, valid_utf8};

verus! {

/// `csv::Reader`, a reader of CSV rows; nothing is known of its inside.
#[verifier::external_type_specification]
#[verifier::external_body]
#[verifier::reject_recursive_types(R)]
pub struct ExCsvReader<R>(csv::Reader<R>);

/// `csv::StringRecord`, one row of text fields; nothing is known of its
/// inside.
#[verifier::external_type_specification]
#[verifier::external_body]
pub struct ExCsvRecord(csv::StringRecord);

/// `csv::Error`, why a row did not read; nothing is known of its inside.
#[verifier::external_type_specification]
#[verifier::external_body]
pub struct ExCsvError(csv::Error);

/// The rows that a CSV reader with the default settings yields for `data`,
/// in their order: the fields of each row that reads well, `None` for a
/// row that does not. The first row is the header and is not among them.
pub uninterp spec fn csv_rows(data: Seq<u8>) -> Seq<Option<Seq<Seq<char>>>>;

/// The rows that `reader` has yet to yield.
pub uninterp spec fn pending_rows(reader: csv::Reader<&[u8]>) -> Seq<Option<Seq<Seq<char>>>>;

/// The fields of `record`.
pub uninterp spec fn record_fields(record: csv::StringRecord) -> Seq<Seq<char>>;

/// `csv::Reader::from_reader` on a byte slice: a reader with the default
/// settings that has all the rows of `data` before it.
#[verifier::external_body]
fn csv_reader(data: &[u8]) -> (reader: csv::Reader<&[u8]>)
    ensures
        pending_rows(reader) == csv_rows(data@),
{
    csv::Reader::from_reader(data)
}

/// `csv::Reader::read_record`: reads the next row into `record`. At the
/// end of the data it returns `Ok(false)`. A row that reads well is taken
/// off the pending rows and returned as `Ok(true)`, its fields in
/// `record`; one that does not is an error.
#[verifier::external_body]
fn read_record(
    reader: &mut csv::Reader<&[u8]>,
    record: &mut csv::StringRecord,
) -> (r: Result<bool, csv::Error>)
    ensures
        match r {
            Ok(true) => pending_rows(*old(reader)).len() > 0 && pending_rows(*old(reader))[0]
                == Some(record_fields(*final(record))) && pending_rows(*final(reader))
                == pending_rows(*old(reader)).drop_first(),
            Ok(false) => pending_rows(*old(reader)).len() == 0 && pending_rows(
                *final(reader)).len() == 0,
            Err(_) => pending_rows(*old(reader)).len() > 0 && pending_rows(*old(reader))[0] is None,
        },
{
    reader.read_record(record)
}

/// `csv::StringRecord::new` makes a record without fields.
pub assume_specification[ csv::StringRecord::new ]() -> (record: csv::StringRecord)
    ensures
        record_fields(record).len() == 0,
;

/// `csv::StringRecord::len` is the number of fields.
pub assume_specification[ csv::StringRecord::len ](record: &csv::StringRecord) -> (n: usize)
    ensures
        n == record_fields(*record).len(),
;

/// `csv::StringRecord::get` returns the field at `i`, if there is one.
pub assume_specification[ csv::StringRecord::get ](
    record: &csv::StringRecord,
    i: usize,
) -> (field: Option<&str>)
    ensures
        match field {
            Some(s) => i < record_fields(*record).len() && s@ == record_fields(*record)[i as int],
            None => i >= record_fields(*record).len(),
        },
;

/// The views of rows of fields.
pub open spec fn row_views(rows: Seq<Vec<String>>) -> Seq<Seq<Seq<char>>> {
    Seq::new(rows.len(), |i: int| views(rows[i]@))
}

/// The rows of a file all of whose rows read well; `None` where one does
/// not.
pub open spec fn all_rows(rows: Seq<Option<Seq<Seq<char>>>>) -> Option<Seq<Seq<Seq<char>>>> {
    if forall|i: int| 0 <= i < rows.len() ==> (#[trigger] rows[i]) is Some {
        Some(Seq::new(rows.len(), |i: int| rows[i]->0))
    } else {
        None
    }
}

/// The text of one row: each field, followed by a space.
pub open spec fn row_text(fields: Seq<Seq<char>>) -> Seq<char>
    decreases fields.len(),
{
    if fields.len() == 0 {
        Seq::empty()
    } else {
        row_text(fields.drop_last()) + fields.last() + seq![' ']
    }
}

/// The text of a table: the text of each row, followed by a line feed.
pub open spec fn rows_text(rows: Seq<Seq<Seq<char>>>) -> Seq<char>
    decreases rows.len(),
{
    if rows.len() == 0 {
        Seq::empty()
    } else {
        rows_text(rows.drop_last()) + row_text(rows.last()) + seq!['\n']
    }
}

/// The fields of `record` as strings.
fn record_strings(record: &csv::StringRecord) -> (fields: Vec<String>)
    ensures
        views(fields@) == record_fields(*record),
{
    let mut fields: Vec<String> = Vec::new();
    let n = record.len();
    let mut i: usize = 0;
    while i < n
        invariant
            n == record_fields(*record).len(),
            i <= n,
            fields@.len() == i,
            forall|j: int| 0 <= j < i ==> (#[trigger] fields@[j])@ == record_fields(*record)[j],
        decreases n - i,
    {
        match record.get(i) {
            Some(field) => {
                fields.push(field.to_owned());
            },
            None => {
                assert(false);
            },
        }
        i += 1;
    }
    assert(views(fields@) =~= record_fields(*record));
    fields
}

/// Reads the rows of the CSV file `data`, the header row left out. Fails
/// where a row does not read well: where it is not UTF-8, or has another
/// number of fields than the first row.
pub fn read_rows(data: &[u8]) -> (r: Result<Vec<Vec<String>>, ErrorKind>)
    ensures
        match r {
            Ok(rows) => all_rows(csv_rows(data@)) == Some(row_views(rows@)),
            Err(e) => e == ErrorKind::Validation && all_rows(csv_rows(data@)) is None,
        },
{
    let mut reader = csv_reader(data);
    let mut record = csv::StringRecord::new();
    let mut rows: Vec<Vec<String>> = Vec::new();
    let ghost all = csv_rows(data@);
    assert(all.skip(0) =~= all);
    loop
        invariant
            all == csv_rows(data@),
            rows@.len() <= all.len(),
            pending_rows(reader) == all.skip(rows@.len() as int),
            forall|j: int| 0 <= j < rows@.len() ==> all[j] == Some(views((#[trigger] rows@[j])@)),
        ensures
            rows@.len() == all.len(),
            forall|j: int| 0 <= j < rows@.len() ==> all[j] == Some(views((#[trigger] rows@[j])@)),
        decreases all.len() - rows@.len(),
    {
        let ghost n = rows@.len() as int;
        match read_record(&mut reader, &mut record) {
            Ok(true) => {
                assert(all.skip(n)[0] == all[n]);
                assert(all.skip(n).drop_first() =~= all.skip(n + 1));
                let fields = record_strings(&record);
                rows.push(fields);
            },
            Ok(false) => {
                break ;
            },
            Err(_) => {
                assert(all.skip(n)[0] == all[n]);
                assert(all[n] is None);
                return Err(ErrorKind::Validation);
            },
        }
    }
    assert forall|i: int| 0 <= i < all.len() implies (#[trigger] all[i]) is Some && all[i]->0
        == row_views(rows@)[i] by {
        assert(all[i] == Some(views(rows@[i]@)));
    }
    assert(row_views(rows@) =~= Seq::new(all.len(), |i: int| all[i]->0));
    Ok(rows)
}

/// Appends the text of one row to `text`.
pub fn append_row(text: &mut String, fields: &Vec<String>)
    ensures
        final(text)@ == old(text)@ + row_text(views(fields@)) + seq!['\n'],
{
    let ghost start = text@;
    let mut i: usize = 0;
    assert(views(fields@).take(0) =~= Seq::empty());
    while i < fields.len()
        invariant
            i <= fields@.len(),
            text@ == start + row_text(views(fields@).take(i as int)),
        decreases fields@.len() - i,
    {
        text.append(fields[i].as_str());
        text.push(' ');
        assert(views(fields@).take(i + 1).drop_last() =~= views(fields@).take(i as int));
        assert(views(fields@).take(i + 1).last() == fields@[i as int]@);
        assert(text@ =~= start + row_text(views(fields@).take(i + 1)));
        i += 1;
    }
    assert(views(fields@).take(fields@.len() as int) =~= views(fields@));
    text.push('\n');
}

/// The text of a table: every field followed by a space, every row by a
/// line feed.
pub fn join_rows(rows: &Vec<Vec<String>>) -> (text: String)
    ensures
        text@ == rows_text(row_views(rows@)),
{
    let mut text = String::new();
    let mut i: usize = 0;
    assert(row_views(rows@).take(0) =~= Seq::empty());
    while i < rows.len()
        invariant
            i <= rows@.len(),
            text@ == rows_text(row_views(rows@).take(i as int)),
        decreases rows@.len() - i,
    {
        append_row(&mut text, &rows[i]);
        assert(row_views(rows@).take(i + 1).drop_last() =~= row_views(rows@).take(i as int));
        assert(row_views(rows@).take(i + 1).last() == views(rows@[i as int]@));
        i += 1;
    }
    assert(row_views(rows@).take(rows@.len() as int) =~= row_views(rows@));
    text
}

/// The text of the CSV file `data`: its rows but the header, every field
/// followed by a space and every row by a line feed. Fails where a row does
/// not read well.
pub fn extract_csv_text(data: &[u8]) -> (r: Result<String, ErrorKind>)
    ensures
        match all_rows(csv_rows(data@)) {
            Some(rows) => r matches Ok(text) && text@ == rows_text(rows),
            None => r == Err::<String, ErrorKind>(ErrorKind::Validation),
        },
{
    match read_rows(data) {
        Ok(rows) => Ok(join_rows(&rows)),
        Err(e) => Err(e),
    }
}

/// `std::str::from_utf8`: the text that `data` encodes, if `data` is valid
/// UTF-8.
#[verifier::external_body]
fn utf8_text(data: &[u8]) -> (text: Option<&str>)
    ensures
        match text {
            Some(s) => valid_utf8(data@) && s.spec_bytes() == data@,
            None => !valid_utf8(data@),
        },
{
    std::str::from_utf8(data).ok()
}

/// The text of the plain-text file `data`. Fails where `data` is not valid
/// UTF-8.
pub fn extract_txt_text(data: &[u8]) -> (r: Result<String, ErrorKind>)
    ensures
        match r {
            Ok(text) => valid_utf8(data@) && text@ == decode_utf8(data@),
            Err(e) => !valid_utf8(data@) && e == ErrorKind::Validation,
        },
{
    match utf8_text(data) {
        Some(s) => {
            proof {
                vstd::utf8::encode_utf8_decode_utf8(s@);
            }
            Ok(s.to_owned())
        },
        None => Err(ErrorKind::Validation),
    }
}

/// `s` in lower case, by the rules of Unicode.
pub uninterp spec fn lowercase(s: Seq<char>) -> Seq<char>;

/// `str::to_lowercase` returns the lower-case form of the text.
pub assume_specification[ str::to_lowercase ](s: &str) -> (lower: String)
    ensures
        lower@ == lowercase(s@),
;

/// Where the text of a document comes from.
#[derive(Clone, Copy, Debug, PartialEq, Eq, Structural)]
pub enum SourceKind {
    /// Text that was typed in.
    Manual,
    /// A PDF file.
    Pdf,
    /// A CSV file.
    Csv,
    /// A plain-text file.
    Txt,
}

impl SourceKind {
    /// The name under which the source is stored with the document.
    pub open spec fn label_text(self) -> Seq<char> {
        match self {
            SourceKind::Manual => "manual_input"@,
            SourceKind::Pdf => "pdf"@,
            SourceKind::Csv => "csv"@,
            SourceKind::Txt => "txt"@,
        }
    }

    /// The name under which the source is stored with the document.
    pub fn label(&self) -> (name: &'static str)
        ensures
            name@ == self.label_text(),
    {
        match self {
            SourceKind::Manual => "manual_input",
            SourceKind::Pdf => "pdf",
            SourceKind::Csv => "csv",
            SourceKind::Txt => "txt",
        }
    }
}

/// Why an upload is turned away before its content is read.
#[derive(Clone, Copy, Debug, PartialEq, Eq, Structural)]
pub enum UploadError {
    /// The file name has no extension.
    MissingExtension,
    /// The extension is none of `pdf`, `csv` and `txt`.
    UnsupportedFormat,
}

impl UploadError {
    /// What the client is told.
    pub open spec fn message_text(self) -> Seq<char> {
        match self {
            UploadError::MissingExtension => "Ekstensi file tidak valid"@,
            UploadError::UnsupportedFormat => "Format file tidak didukung"@,
        }
    }

    /// What the client is told.
    pub fn message(&self) -> (text: &'static str)
        ensures
            text@ == self.message_text(),
    {
        match self {
            UploadError::MissingExtension => "Ekstensi file tidak valid",
            UploadError::UnsupportedFormat => "Format file tidak didukung",
        }
    }

    /// The kind of the failure: an upload is turned away for its input.
    pub fn kind(&self) -> (kind: ErrorKind)
        ensures
            kind == ErrorKind::Validation,
            kind.client_side(),
    {
        ErrorKind::Validation
    }
}

/// The kind of file that the extension `ext` stands for.
pub open spec fn kind_of_extension(ext: Seq<char>) -> Option<SourceKind> {
    if ext == "pdf"@ {
        Some(SourceKind::Pdf)
    } else if ext == "csv"@ {
        Some(SourceKind::Csv)
    } else if ext == "txt"@ {
        Some(SourceKind::Txt)
    } else {
        None
    }
}

/// What becomes of an upload whose file name, in lower case, is `lowered`.
pub open spec fn classified(lowered: Seq<char>) -> Result<SourceKind, UploadError> {
    match file_extension(lowered) {
        None => Err(UploadError::MissingExtension),
        Some(ext) => match kind_of_extension(ext) {
            Some(kind) => Ok(kind),
            None => Err(UploadError::UnsupportedFormat),
        },
    }
}

/// Decides by its extension whether a file is taken, and as what. The name
/// is expected in lower case: the extension is compared as it stands.
pub fn classify_lowered(lowered: &str) -> (r: Result<SourceKind, UploadError>)
    ensures
        r == classified(lowered@),
{
    match get_file_extension(lowered) {
        None => Err(UploadError::MissingExtension),
        Some(ext) => {
            if same_text(ext, "pdf") {
                Ok(SourceKind::Pdf)
            } else if same_text(ext, "csv") {
                Ok(SourceKind::Csv)
            } else if same_text(ext, "txt") {
                Ok(SourceKind::Txt)
            } else {
                Err(UploadError::UnsupportedFormat)
            }
        },
    }
}

/// Decides by the extension of `filename`, whatever its case, whether a
/// file is taken, and as what.
pub fn classify_upload(filename: &str) -> (r: Result<SourceKind, UploadError>)
    ensures
        r == classified(lowercase(filename@)),
{
    let lowered = filename.to_lowercase();
    classify_lowered(lowered.as_str())
}

/// The name of a file without the directories before it: what follows the
/// last `/` of `s`, and all of `s` where it has none.
pub open spec fn file_name(s: Seq<char>) -> Seq<char>
    decreases s.len(),
{
    if s.len() == 0 || s.last() == '/' {
        Seq::empty()
    } else {
        file_name(s.drop_last()).push(s.last())
    }
}

/// The title of an uploaded document: the name of its file, without the
/// directories before it.
pub fn upload_title(filename: &str) -> (title: String)
    ensures
        title@ == file_name(filename@),
{
    let chars = crate::text::to_chars(filename);
    let n = chars.len();
    let mut start: usize = n;
    assert(chars@.subrange(0, n as int) =~= chars@);
    assert(chars@.subrange(n as int, n as int) =~= Seq::<char>::empty());
    while start > 0 && chars[start - 1] != '/'
        invariant
            n == chars@.len(),
            start <= n,
            file_name(chars@) == file_name(chars@.subrange(0, start as int)) + chars@.subrange(
                start as int,
                n as int,
            ),
        decreases start,
    {
        let ghost head = chars@.subrange(0, start as int);
        assert(head.drop_last() =~= chars@.subrange(0, start - 1));
        assert(file_name(head.drop_last()).push(head.last()) + chars@.subrange(
            start as int,
            n as int,
        ) =~= file_name(head.drop_last()) + chars@.subrange(start - 1, n as int));
        start -= 1;
    }
    assert(file_name(chars@.subrange(0, start as int)) =~= Seq::<char>::empty());
    assert(file_name(chars@) =~= chars@.subrange(start as int, n as int));
    filename.substring_char(start, n).to_owned()
}

/// The format of the time in a default title.
pub const TIMESTAMP_FORMAT: &'static str = "%Y-%m-%d %H:%M:%S";

/// The time, in UTC, that lies `seconds` seconds after the start of 1970,
/// written in the format `format`; `None` where the calendar does not
/// reach that far.
pub uninterp spec fn utc_text(seconds: i64, format: Seq<char>) -> Option<Seq<char>>;

/// `chrono::DateTime::from_timestamp`, written out by `DateTime::format`:
/// the time `seconds` seconds after the start of 1970, or `None` where that
/// is out of the calendar's range.
#[verifier::external_body]
fn format_utc(seconds: i64, format: &str) -> (text: Option<String>)
    requires
        format@ == TIMESTAMP_FORMAT@,
    ensures
        match text {
            Some(t) => utc_text(seconds, format@) == Some(t@),
            None => utc_text(seconds, format@) is None,
        },
{
    match chrono::DateTime::from_timestamp(seconds, 0) {
        Some(time) => Some(time.format(format).to_string()),
        None => None,
    }
}

/// The title of a document that came without one and was taken in at the
/// time written in `stamp`.
pub open spec fn dated(stamp: Seq<char>) -> Seq<char> {
    "Dokumen "@ + stamp
}

/// The title of a document that came without one and was taken in at the
/// time written in `stamp`.
pub fn dated_title(stamp: &str) -> (title: String)
    ensures
        title@ == dated(stamp@),
{
    let mut title = "Dokumen ".to_owned();
    title.append(stamp);
    title
}

/// The title of a document taken in `seconds` seconds after the start of
/// 1970: the one it came with, else one made of the time, else, where the
/// calendar does not reach that time, the title of an untitled document.
pub open spec fn resolved_title(given: Option<Seq<char>>, seconds: i64) -> Seq<char> {
    match given {
        Some(title) => title,
        None => match utc_text(seconds, TIMESTAMP_FORMAT@) {
            Some(stamp) => dated(stamp),
            None => "Untitled"@,
        },
    }
}

/// The title under which a document is stored.
pub fn resolve_title(given: Option<String>, seconds: i64) -> (title: String)
    ensures
        title@ == resolved_title(
            match given {
                Some(t) => Some(t@),
                None => None,
            },
            seconds,
        ),
{
    match given {
        Some(title) => title,
        None => match format_utc(seconds, TIMESTAMP_FORMAT) {
            Some(stamp) => dated_title(stamp.as_str()),
            None => "Untitled".to_owned(),
        },
    }
}

} // verus!
