//! Word documents (`.docx`): a zip archive whose `word/document.xml` holds
//! the body.
use vstd::prelude::*;

use std::io::{Cursor, Read};
use zip::ZipArchive;

use super::{extension_listed, has_listed_extension, single, utf8_text, DocumentError, DocumentParser};
use crate::markup::{char_ref_error, docx_state, docx_text, docx_text_of, read_events, xml_events};

verus! {

#[verifier::external_type_specification]
#[verifier::external_body]
#[verifier::reject_recursive_types(R)]
pub struct ExZipArchive<R>(ZipArchive<R>);

#[verifier::external_type_specification]
#[verifier::external_body]
#[verifier::reject_recursive_types(T)]
pub struct ExCursor<T>(Cursor<T>);

/// The files an open archive holds that `ZipArchive::by_name` finds (by the
/// raw name, or else its decoded form): for each, `Err(message)` when
/// opening it fails, else `Ok(Ok(bytes))` with what reading it to the end
/// yields, or `Ok(Err(message))` when reading fails; each message as the
/// error displays it.
pub uninterp spec fn archive_files(archive: ZipArchive<Cursor<Vec<u8>>>) -> Map<Seq<char>, Result<Result<Seq<u8>, Seq<char>>, Seq<char>>>;

/// The files of the zip archive in `bytes`, as [`archive_files`] gives
/// them, or `Err(message)` when the zip crate does not take `bytes` for an
/// archive (the message as its error displays it).
pub uninterp spec fn zip_files(bytes: Seq<u8>) -> Result<Map<Seq<char>, Result<Result<Seq<u8>, Seq<char>>, Seq<char>>>, Seq<char>>;

/// How the zip crate's `FileNotFound` error displays.
pub open spec fn not_found_message() -> Seq<char> {
    "specified file not found in archive"@
}

/// How `std::io::Read::read_to_string` reports bytes that are not UTF-8.
pub open spec fn not_utf8_message() -> Seq<char> {
    "stream did not contain valid UTF-8"@
}

/// What looking up and reading the entry `name` gives: as [`archive_files`]
/// says, or the not-found error when no entry has that name.
pub open spec fn entry(files: Map<Seq<char>, Result<Result<Seq<u8>, Seq<char>>, Seq<char>>>, name: Seq<char>) -> Result<Result<Seq<u8>, Seq<char>>, Seq<char>> {
    if files.contains_key(name) {
        files[name]
    } else {
        Err(not_found_message())
    }
}

/// `zip::ZipArchive::new` over the bytes: the archive, or the zip error as
/// it displays it when the bytes are not a zip archive.
#[verifier::external_body]
fn open_archive(bytes: &[u8]) -> (r: Result<ZipArchive<Cursor<Vec<u8>>>, String>)
    ensures
        match zip_files(bytes@) {
            Ok(files) => r matches Ok(a) && archive_files(a) == files,
            Err(m) => r matches Err(s) && s@ == m,
        },
{
    match ZipArchive::new(Cursor::new(bytes.to_vec())) {
        Ok(a) => Ok(a),
        Err(e) => Err(e.to_string()),
    }
}

/// `zip::ZipArchive::by_name` and `Read::read_to_end` on the entry: `Err`
/// with the zip error's message when no entry of that name can be found or
/// opened (`FileNotFound` when none has the name), `Ok(Err(..))` with the
/// I/O error's message when reading it fails, `Ok(Ok(bytes))` with its
/// contents.
#[verifier::external_body]
fn read_file(archive: &mut ZipArchive<Cursor<Vec<u8>>>, name: &str) -> (r: Result<Result<Vec<u8>, String>, String>)
    ensures
        archive_files(*final(archive)) == archive_files(*old(archive)),
        match entry(archive_files(*old(archive)), name@) {
            Err(m) => r matches Err(s) && s@ == m,
            Ok(Err(m)) => r matches Ok(Err(s)) && s@ == m,
            Ok(Ok(bytes)) => r matches Ok(Ok(v)) && v@ == bytes,
        },
{
    let mut file = match archive.by_name(name) {
        Ok(file) => file,
        Err(e) => return Err(e.to_string()),
    };
    let mut v = Vec::new();
    match file.read_to_end(&mut v) {
        Ok(_) => Ok(Ok(v)),
        Err(e) => Ok(Err(e.to_string())),
    }
}

/// The name of the part that holds a Word document's body.
pub open spec fn body_part() -> Seq<char> {
    "word/document.xml"@
}

/// The bytes of the body part of the Word document in `contents`: `None`
/// when the archive or the part is missing or the part cannot be read.
pub open spec fn docx_body(contents: Seq<u8>) -> Option<Seq<u8>> {
    match zip_files(contents) {
        Ok(files) => match entry(files, body_part()) {
            Ok(Ok(bytes)) => Some(bytes),
            _ => None,
        },
        Err(_) => None,
    }
}

/// The visible text of a WordprocessingML body: `None` when quick-xml stops
/// at an error or a character reference inside a run names no character.
pub open spec fn docx_body_text(xml: Seq<char>) -> Option<Seq<char>> {
    if xml_events(xml).1 is None && docx_state(xml_events(xml).0).failed is None {
        Some(docx_text(xml_events(xml).0))
    } else {
        None
    }
}

/// The error extracting the text of a WordprocessingML body gives: for a
/// character reference in a run that names no character, quick-xml's
/// message for it; else quick-xml's message for the markup error.
pub open spec fn body_error(xml: Seq<char>, e: DocumentError) -> bool {
    match docx_state(xml_events(xml).0).failed {
        Some(c) => e matches DocumentError::MalformedBodyCharRef(d) && d@ == char_ref_error(c),
        None => xml_events(xml).1 matches Some(m) && e matches DocumentError::MalformedBody(d)
            && d@ == m,
    }
}

/// The error reading the Word document at `path` gives, each message as
/// the outside error displays it: not a zip archive; no body part that can
/// be found and opened; a body part that cannot be read or is not UTF-8;
/// else the error of its markup.
pub open spec fn docx_error(path: Seq<char>, contents: Seq<u8>, e: DocumentError) -> bool {
    match zip_files(contents) {
        Err(m) => e matches DocumentError::NotZip(p, d) && p@ == path && d@ == m,
        Ok(files) => match entry(files, body_part()) {
            Err(m) => e matches DocumentError::NotWordDocument(p, d) && p@ == path && d@ == m,
            Ok(Err(m)) => e matches DocumentError::UnreadableBody(p, d) && p@ == path && d@ == m,
            Ok(Ok(b)) => if vstd::utf8::valid_utf8(b) {
                body_error(vstd::utf8::decode_utf8(b), e)
            } else {
                e matches DocumentError::UnreadableBody(p, d) && p@ == path && d@
                    == not_utf8_message()
            },
        },
    }
}

/// The visible text of the Word document in `contents`: `None` when the
/// archive, the body part, its UTF-8, its markup or a character reference
/// in one of its runs is missing or invalid.
pub open spec fn docx_contents_text(contents: Seq<u8>) -> Option<Seq<char>> {
    match docx_body(contents) {
        Some(body) => if vstd::utf8::valid_utf8(body) {
            docx_body_text(vstd::utf8::decode_utf8(body))
        } else {
            None
        },
        None => None,
    }
}

/// Word documents: the `.docx` extension, ignoring ASCII case. Legacy
/// binary `.doc` files are not taken.
pub struct DocxParser;

/// The visible text of a WordprocessingML body.
pub fn extract_docx_text(xml: &str) -> (r: Result<String, DocumentError>)
    ensures
        r is Ok <==> docx_body_text(xml@) is Some,
        r matches Ok(t) ==> docx_body_text(xml@) == Some(t@),
        r matches Err(e) ==> body_error(xml@, e),
{
    let (events, failure) = read_events(xml);
    match docx_text_of(&events) {
        Err(detail) => Err(DocumentError::MalformedBodyCharRef(detail)),
        Ok(text) => match failure {
            None => Ok(text),
            Some(detail) => Err(DocumentError::MalformedBody(detail)),
        },
    }
}

impl DocumentParser for DocxParser {
    open spec fn claims(&self, path: Seq<char>) -> bool {
        extension_listed(path, seq!["docx"@])
    }

    open spec fn returns_on(&self, path: Seq<char>, contents: Seq<u8>) -> bool {
        true
    }

    fn supports(&self, path: &str) -> (r: bool) {
        has_listed_extension(path, &single("docx"))
    }

    /// Reads `word/document.xml` out of the archive and extracts the text
    /// of its runs, tabs, breaks and paragraphs.
    fn parse(&self, path: &str, contents: &[u8]) -> (r: Result<String, DocumentError>)
        ensures
            r is Ok <==> docx_contents_text(contents@) is Some,
            r matches Ok(t) ==> docx_contents_text(contents@) == Some(t@),
            r matches Err(e) ==> docx_error(path@, contents@, e),
    {
        let mut archive = match open_archive(contents) {
            Ok(a) => a,
            Err(detail) => return Err(DocumentError::NotZip(path.to_string(), detail)),
        };
        let body = match read_file(&mut archive, "word/document.xml") {
            Ok(Ok(bytes)) => bytes,
            Ok(Err(detail)) => return Err(DocumentError::UnreadableBody(path.to_string(), detail)),
            Err(detail) => return Err(DocumentError::NotWordDocument(path.to_string(), detail)),
        };
        match utf8_text(body.as_slice()) {
            None => Err(
                DocumentError::UnreadableBody(
                    path.to_string(),
                    "stream did not contain valid UTF-8".to_string(),
                ),
            ),
            Some(xml) => extract_docx_text(xml.as_str()),
        }
    }
}

} // verus!
