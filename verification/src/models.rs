//! The records that cross the service boundary.

use vstd::prelude::*;
use vstd::utf8::decode_utf8;
use crate::text::{parse_id, parsed_id, signed_decimal, signed_decimal_text};
use vstd::string::StringExecFns;
use vstd::string::StringSliceAdditionalSpecFns;

verus! {

/// How many bytes of a document's text its preview shows.
pub const PREVIEW_BYTES: usize = 100;

/// A question put to the service.
#[derive(Debug)]
pub struct ChatRequest {
    pub query: String,
}

/// The answer to a question.
#[derive(Debug)]
pub struct ChatResponse {
    pub response: String,
}

/// One past exchange.
#[derive(Debug)]
pub struct ChatHistory {
    pub query: String,
    pub response: String,
}

/// Past exchanges, newest first.
#[derive(Debug)]
pub struct ChatHistoryResponse {
    pub history: Vec<ChatHistory>,
}

/// A stored document as it is listed.
#[derive(Debug)]
pub struct Document {
    pub id: String,
    pub title: String,
    pub text: String,
    pub source: String,
    pub preview: Option<String>,
}

/// The stored documents.
#[derive(Debug)]
pub struct DocumentList {
    pub documents: Vec<Document>,
}

/// A request to ingest text.
#[derive(Debug)]
pub struct DocumentAddRequest {
    pub text: String,
    pub title: Option<String>,
}

/// The receipt for ingested text.
#[derive(Debug)]
pub struct DocumentAddResponse {
    pub message: String,
    pub id: String,
}

/// The receipt for an ingested file.
#[derive(Debug)]
pub struct FileUploadResponse {
    pub message: String,
    pub filename: String,
    pub id: String,
}

/// Where a retrieved text comes from.
#[derive(Debug, Clone)]
pub struct DocumentMetadata {
    pub title: String,
    pub source: String,
}

/// Retrieved texts with their metadata, position by position.
#[derive(Debug)]
pub struct SearchResult {
    pub documents: Vec<String>,
    pub metadata: Vec<DocumentMetadata>,
}

/// A failure as it is reported to a client.
#[derive(Debug)]
pub struct ErrorResponse {
    pub error: String,
}

/// The views of a sequence of strings.
pub open spec fn views(texts: Seq<String>) -> Seq<Seq<char>> {
    Seq::new(texts.len(), |i: int| texts[i]@)
}

/// What a listing shows of a text: all of it up to `PREVIEW_BYTES` bytes,
/// else its first `PREVIEW_BYTES` bytes and an ellipsis.
pub open spec fn preview(text: Seq<char>) -> Seq<char> {
    let bytes = vstd::utf8::encode_utf8(text);
    if bytes.len() > PREVIEW_BYTES {
        decode_utf8(bytes.subrange(0, PREVIEW_BYTES as int)) + "..."@
    } else {
        text
    }
}

/// Whether a preview of `text` can be cut: a longer text must have a
/// character boundary at `PREVIEW_BYTES`.
pub open spec fn previewable(text: Seq<char>) -> bool {
    let bytes = vstd::utf8::encode_utf8(text);
    bytes.len() <= PREVIEW_BYTES || vstd::utf8::is_char_boundary(bytes, PREVIEW_BYTES as int)
}

/// The preview of `text`.
pub fn preview_of(text: &str) -> (out: String)
    requires
        previewable(text@),
    ensures
        out@ == preview(text@),
{
    if text.as_bytes().len() > PREVIEW_BYTES {
        let (head, _) = text.split_at(PREVIEW_BYTES);
        proof {
            vstd::utf8::encode_utf8_decode_utf8(head@);
            assert(head.spec_bytes() == text.spec_bytes().subrange(0, PREVIEW_BYTES as int));
        }
        let mut out = head.to_owned();
        out.append("...");
        out
    } else {
        text.to_owned()
    }
}

impl DocumentMetadata {
    /// The metadata of a text that the document store does not know.
    pub open spec fn is_fallback(&self) -> bool {
        self.title@ == "Untitled"@ && self.source@ == "unknown"@
    }

    /// The metadata given to a text that the document store does not know.
    pub fn fallback() -> (m: DocumentMetadata)
        ensures
            m.is_fallback(),
    {
        DocumentMetadata { title: "Untitled".to_owned(), source: "unknown".to_owned() }
    }

    /// A copy of this metadata.
    pub fn duplicate(&self) -> (m: DocumentMetadata)
        ensures
            m == *self,
    {
        DocumentMetadata { title: self.title.clone(), source: self.source.clone() }
    }
}

impl Document {
    /// The listing entry of one stored row: its identifier in decimal, its
    /// fields as they are, and the preview of its text.
    pub fn from_row(id: i64, text: String, title: String, source: String) -> (doc: Document)
        requires
            previewable(text@),
        ensures
            doc.id@ == signed_decimal(id as int),
            doc.text == text,
            doc.title == title,
            doc.source == source,
            doc.preview matches Some(p) && p@ == preview(text@),
    {
        let shown = preview_of(text.as_str());
        Document { id: signed_decimal_text(id), title, text, source, preview: Some(shown) }
    }
}

impl DocumentAddResponse {
    /// The receipt for a document stored under `id`.
    pub fn added(id: String) -> (r: DocumentAddResponse)
        ensures
            r.id == id,
            r.message@ == "Dokumen berhasil ditambahkan!"@,
    {
        DocumentAddResponse { message: "Dokumen berhasil ditambahkan!".to_owned(), id }
    }
}

impl FileUploadResponse {
    /// The receipt for the file `filename` stored under `id`.
    pub fn processed(filename: String, id: String) -> (r: FileUploadResponse)
        ensures
            r.id == id,
            r.filename == filename,
            r.message@ == "File berhasil diproses dan disimpan!"@,
    {
        FileUploadResponse {
            message: "File berhasil diproses dan disimpan!".to_owned(),
            filename,
            id,
        }
    }
}

/// How many past exchanges are listed where the request does not say.
pub const DEFAULT_HISTORY_LIMIT: usize = 10;

/// How many past exchanges a request for the history asks for: the number
/// its `limit` parameter writes, else `DEFAULT_HISTORY_LIMIT`.
pub open spec fn limit_of(raw: Option<Seq<char>>) -> usize {
    match raw {
        Some(text) => match parsed_id(text) {
            Some(n) => n,
            None => DEFAULT_HISTORY_LIMIT,
        },
        None => DEFAULT_HISTORY_LIMIT,
    }
}

/// How many past exchanges a request for the history asks for.
pub fn history_limit(raw: Option<&str>) -> (limit: usize)
    ensures
        limit == limit_of(
            match raw {
                Some(text) => Some(text@),
                None => None,
            },
        ),
{
    match raw {
        Some(text) => match parse_id(text) {
            Some(n) => n,
            None => DEFAULT_HISTORY_LIMIT,
        },
        None => DEFAULT_HISTORY_LIMIT,
    }
}

/// What the client is told after the document `doc_id` was deleted.
pub fn deletion_message(doc_id: &str) -> (message: String)
    ensures
        message@ == "Dokumen dengan ID "@ + doc_id@ + " berhasil dihapus"@,
{
    let mut message = "Dokumen dengan ID ".to_owned();
    message.append(doc_id);
    message.append(" berhasil dihapus");
    message
}

} // verus!
