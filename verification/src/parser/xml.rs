//! XML documents.
use vstd::prelude::*;

use super::{extension_listed, has_listed_extension, single, utf8_text, DocumentError, DocumentParser};
use crate::markup::{
    char_ref_error, first_bad_ref, read_events, resolve_all, xml_document, xml_events, xml_text,
    xml_text_of,
};

verus! {

/// XML documents: the `.xml` extension, ignoring ASCII case.
pub struct XmlParser;

/// Turns the markup of an XML document into text: character data and
/// references kept, tags and attributes dropped, one line per closed
/// element, lines trimmed, blank lines dropped. A malformed character
/// reference read before quick-xml stops is reported before the markup
/// error, as the events come in that order.
pub fn extract_xml_text(xml: &str) -> (r: Result<String, DocumentError>)
    ensures
        r is Ok <==> xml_document(xml@) is Some,
        r matches Ok(t) ==> (xml_document(xml@) matches Some(events) && t@ == xml_text(events)),
        r matches Err(e) ==> xml_text_error(xml@, e),
{
    let (events, failure) = read_events(xml);
    match resolve_all(&events) {
        Err(detail) => Err(DocumentError::MalformedCharRef(detail)),
        Ok(resolved) => match failure {
            None => Ok(xml_text_of(&resolved)),
            Some(detail) => Err(DocumentError::MalformedXml(detail)),
        },
    }
}

/// The error extracting the text of an XML document gives: quick-xml's
/// message for the first character reference that names no character,
/// else its message for the markup error.
pub open spec fn xml_text_error(xml: Seq<char>, e: DocumentError) -> bool {
    match first_bad_ref(xml_events(xml).0) {
        Some(c) => e matches DocumentError::MalformedCharRef(d) && d@ == char_ref_error(c),
        None => xml_events(xml).1 matches Some(m) && e matches DocumentError::MalformedXml(d) && d@
            == m,
    }
}

/// The error reading the XML document at `path` gives.
pub open spec fn xml_error(path: Seq<char>, contents: Seq<u8>, e: DocumentError) -> bool {
    if vstd::utf8::valid_utf8(contents) {
        xml_text_error(vstd::utf8::decode_utf8(contents), e)
    } else {
        e matches DocumentError::NotUtf8(p) && p@ == path
    }
}

impl DocumentParser for XmlParser {
    open spec fn claims(&self, path: Seq<char>) -> bool {
        extension_listed(path, seq!["xml"@])
    }

    open spec fn returns_on(&self, path: Seq<char>, contents: Seq<u8>) -> bool {
        true
    }

    fn supports(&self, path: &str) -> (r: bool) {
        has_listed_extension(path, &single("xml"))
    }

    fn parse(&self, path: &str, contents: &[u8]) -> (r: Result<String, DocumentError>)
        ensures
            r is Ok <==> vstd::utf8::valid_utf8(contents@) && xml_document(
                vstd::utf8::decode_utf8(contents@),
            ) is Some,
            r matches Ok(t) ==> (xml_document(vstd::utf8::decode_utf8(contents@)) matches Some(
                events,
            ) && t@ == xml_text(events)),
            r matches Err(e) ==> xml_error(path@, contents@, e),
    {
        match utf8_text(contents) {
            None => Err(DocumentError::NotUtf8(path.to_string())),
            Some(xml) => extract_xml_text(xml.as_str()),
        }
    }
}

} // verus!
