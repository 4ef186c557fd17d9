//! How the text of a fetched attachment is extracted, by its media type,
//! its leading bytes or its file extension.

use vstd::prelude::*;
use crate::text::{chars_eq, chars_of, starts_with, starts_with_chars};

verus! {

/// The way to read the text of an attachment.
#[derive(Debug, Clone, Copy, PartialEq, Eq)]
pub enum ExtractKind {
    /// Run `pdftotext` on the archived file.
    Pdf,
    /// Take the visible text of the HTML page.
    Html,
    /// Take the bytes as (lossy) UTF-8 text.
    Text,
    /// No text can be extracted; the original is archived only.
    Unsupported,
}

/// The bytes begin with the PDF signature `%PDF-`.
pub open spec fn has_pdf_signature(bytes: Seq<u8>) -> bool {
    bytes.len() >= 5 && bytes[0] == 0x25u8 && bytes[1] == 0x50u8 && bytes[2] == 0x44u8 && bytes[3] == 0x46u8
        && bytes[4] == 0x2du8
}

/// `bytes.starts_with(b"%PDF-")`.
pub fn pdf_signature(bytes: &[u8]) -> (b: bool)
    ensures
        b == has_pdf_signature(bytes@),
{
    bytes.len() >= 5 && bytes[0] == 0x25u8 && bytes[1] == 0x50u8 && bytes[2] == 0x44u8 && bytes[3] == 0x46u8
        && bytes[4] == 0x2du8
}

/// The media type `m` starts with `prefix`.
pub open spec fn media_starts(m: Option<Seq<char>>, prefix: Seq<char>) -> bool {
    m matches Some(t) && starts_with(t, prefix)
}

fn media_starts_exec(m: Option<&str>, prefix: &str) -> (b: bool)
    ensures
        b == media_starts(
            match m {
                Some(t) => Some(t@),
                None => None,
            },
            prefix@,
        ),
{
    match m {
        Some(t) => starts_with_chars(&chars_of(t), &chars_of(prefix)),
        None => false,
    }
}

fn media_is(m: Option<&str>, t: &str) -> (b: bool)
    ensures
        b == (m matches Some(x) && x@ == t@),
{
    match m {
        Some(x) => chars_eq(&chars_of(x), &chars_of(t)),
        None => false,
    }
}

pub open spec fn opt_str(m: Option<&str>) -> Option<Seq<char>> {
    match m {
        Some(t) => Some(t@),
        None => None,
    }
}

/// A public-comment attachment: a PDF by its media type or signature,
/// text for `text/*`, JSON and XML.
pub open spec fn pubcomment_kind_spec(media: Option<Seq<char>>, bytes: Seq<u8>) -> ExtractKind {
    if media == Some("application/pdf"@) || has_pdf_signature(bytes) {
        ExtractKind::Pdf
    } else if media_starts(media, "text/"@) || media == Some("application/json"@) || media == Some("application/xml"@) {
        ExtractKind::Text
    } else {
        ExtractKind::Unsupported
    }
}

/// How to read a public-comment attachment.
pub fn pubcomment_attachment_kind(media_type: Option<&str>, bytes: &[u8]) -> (k: ExtractKind)
    ensures
        k == pubcomment_kind_spec(opt_str(media_type), bytes@),
{
    if media_is(media_type, "application/pdf") || pdf_signature(bytes) {
        ExtractKind::Pdf
    } else if media_starts_exec(media_type, "text/") || media_is(media_type, "application/json") || media_is(
        media_type,
        "application/xml",
    ) {
        ExtractKind::Text
    } else {
        ExtractKind::Unsupported
    }
}

/// An attachment of council minutes: HTML by media type or extension, then
/// text (`text/*`, `txt`, `csv`), then PDF (`application/pdf*`, `pdf`).
pub open spec fn minutes_kind_spec(media: Option<Seq<char>>, ext: Seq<char>) -> ExtractKind {
    if media_starts(media, "text/html"@) || ext == "html"@ || ext == "htm"@ {
        ExtractKind::Html
    } else if media_starts(media, "text/"@) || ext == "txt"@ || ext == "csv"@ {
        ExtractKind::Text
    } else if media_starts(media, "application/pdf"@) || ext == "pdf"@ {
        ExtractKind::Pdf
    } else {
        ExtractKind::Unsupported
    }
}

/// How to read an attachment of council minutes archived with extension
/// `extension`.
pub fn minutes_attachment_kind(media_type: Option<&str>, extension: &str) -> (k: ExtractKind)
    ensures
        k == minutes_kind_spec(opt_str(media_type), extension@),
{
    let e = chars_of(extension);
    if media_starts_exec(media_type, "text/html") || chars_eq(&e, &chars_of("html")) || chars_eq(&e, &chars_of("htm")) {
        ExtractKind::Html
    } else if media_starts_exec(media_type, "text/") || chars_eq(&e, &chars_of("txt")) || chars_eq(&e, &chars_of("csv")) {
        ExtractKind::Text
    } else if media_starts_exec(media_type, "application/pdf") || chars_eq(&e, &chars_of("pdf")) {
        ExtractKind::Pdf
    } else {
        ExtractKind::Unsupported
    }
}

/// The original of a supplementary resolution: a PDF by media type
/// (`application/pdf*`) or signature, else text for `text/*`.
pub open spec fn resolution_kind_spec(media: Option<Seq<char>>, bytes: Seq<u8>) -> ExtractKind {
    if media_starts(media, "application/pdf"@) || has_pdf_signature(bytes) {
        ExtractKind::Pdf
    } else if media_starts(media, "text/"@) {
        ExtractKind::Text
    } else {
        ExtractKind::Unsupported
    }
}

/// How to read the original of a supplementary resolution.
pub fn resolution_source_kind(media_type: Option<&str>, bytes: &[u8]) -> (k: ExtractKind)
    ensures
        k == resolution_kind_spec(opt_str(media_type), bytes@),
{
    if media_starts_exec(media_type, "application/pdf") || pdf_signature(bytes) {
        ExtractKind::Pdf
    } else if media_starts_exec(media_type, "text/") {
        ExtractKind::Text
    } else {
        ExtractKind::Unsupported
    }
}

} // verus!
