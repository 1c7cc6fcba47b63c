//! PDF documents.
use vstd::prelude::*;

use super::{extension_listed, has_listed_extension, single, DocumentError, DocumentParser};

verus! {

/// What pdf-extract makes of the PDF in `contents`: `None` when it panics
/// on them, `Some(Err(message))` when it reports an error (the message as
/// the error displays it), else `Some(Ok(text))` with the text it finds.
pub uninterp spec fn pdf_text(contents: Seq<u8>) -> Option<Result<Seq<char>, Seq<char>>>;

/// `pdf_extract::extract_text_from_mem`: the text of the PDF held in
/// `contents`, or the crate's error as it displays it. pdf-extract panics
/// on some malformed PDFs (fonts, encodings); those inputs are left out.
#[verifier::external_body]
fn extract_pdf_text(contents: &[u8]) -> (r: Result<String, String>)
    requires
        pdf_text(contents@) is Some,
    ensures
        match pdf_text(contents@) {
            Some(Ok(t)) => r matches Ok(s) && s@ == t,
            Some(Err(m)) => r matches Err(s) && s@ == m,
            None => true,
        },
{
    match pdf_extract::extract_text_from_mem(contents) {
        Ok(text) => Ok(text),
        Err(e) => Err(e.to_string()),
    }
}

/// The error reading the PDF at `path` with the given contents gives:
/// pdf-extract's message, under the path.
pub open spec fn pdf_error(path: Seq<char>, contents: Seq<u8>, e: DocumentError) -> bool {
    pdf_text(contents) matches Some(Err(m)) && e matches DocumentError::Pdf(p, d) && p@ == path
        && d@ == m
}

/// PDF documents: the `.pdf` extension, ignoring ASCII case.
pub struct PdfParser;

impl DocumentParser for PdfParser {
    open spec fn claims(&self, path: Seq<char>) -> bool {
        extension_listed(path, seq!["pdf"@])
    }

    open spec fn returns_on(&self, path: Seq<char>, contents: Seq<u8>) -> bool {
        pdf_text(contents) is Some
    }

    fn supports(&self, path: &str) -> (r: bool) {
        has_listed_extension(path, &single("pdf"))
    }

    fn parse(&self, path: &str, contents: &[u8]) -> (r: Result<String, DocumentError>)
        ensures
            pdf_text(contents@) matches Some(Ok(t)) ==> r matches Ok(s) && s@ == t,
            r matches Err(e) ==> pdf_error(path@, contents@, e),
            r is Err <==> pdf_text(contents@) matches Some(Err(_)),
    {
        match extract_pdf_text(contents) {
            Ok(text) => Ok(text),
            Err(detail) => Err(DocumentError::Pdf(path.to_string(), detail)),
        }
    }
}

} // verus!
