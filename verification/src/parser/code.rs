//! Source code files, read as plain text.
use vstd::prelude::*;

use super::plain_text::{plain_text_of, PlainTextParser};
use super::{code_extension_list, code_extensions, extension_listed, has_listed_extension, DocumentError, DocumentParser};

verus! {

/// Source code files. The content is plain text, so extraction is delegated
/// to [`PlainTextParser`]; only the claimed extensions differ.
pub struct CodeParser;

impl DocumentParser for CodeParser {
    /// A listed extension, ignoring ASCII case; extensionless files are not
    /// claimed.
    open spec fn claims(&self, path: Seq<char>) -> bool {
        extension_listed(path, code_extensions())
    }

    open spec fn returns_on(&self, path: Seq<char>, contents: Seq<u8>) -> bool {
        true
    }

    fn supports(&self, path: &str) -> (r: bool) {
        has_listed_extension(path, &code_extension_list())
    }

    fn parse(&self, path: &str, contents: &[u8]) -> (r: Result<String, DocumentError>)
        ensures
            r matches Ok(s) && s@ == plain_text_of(contents@),
    {
        PlainTextParser.parse(path, contents)
    }
}

} // verus!
