//! Plain text files.
use vstd::prelude::*;

use super::{
    extension_listed, has_listed_extension, text_extension_list, text_extensions, DocumentError,
    DocumentParser,
};
use crate::path::{lower_extension, path_extension};

verus! {

/// The text `String::from_utf8_lossy` makes of some bytes.
pub uninterp spec fn utf8_lossy(bytes: Seq<u8>) -> Seq<char>;

/// `String::from_utf8_lossy`: the bytes decoded as UTF-8, each invalid
/// sequence replaced by U+FFFD; valid UTF-8 decodes unchanged.
#[verifier::external_body]
fn decode_lossy(bytes: &[u8]) -> (r: String)
    ensures
        r@ == utf8_lossy(bytes@),
        vstd::utf8::valid_utf8(bytes@) ==> r@ == vstd::utf8::decode_utf8(bytes@),
{
    String::from_utf8_lossy(bytes).into_owned()
}

/// Plain text: `.txt`, `.md`, `.markdown`, `.log`, `.text`, and files
/// without an extension.
pub struct PlainTextParser;

/// The text of a plain text file: its bytes decoded as UTF-8, invalid
/// sequences replaced.
pub open spec fn plain_text_of(contents: Seq<u8>) -> Seq<char> {
    utf8_lossy(contents)
}

impl PlainTextParser {
    /// Decodes a plain text file's contents; this never fails.
    pub fn decode(&self, contents: &[u8]) -> (r: String)
        ensures
            r@ == plain_text_of(contents@),
            vstd::utf8::valid_utf8(contents@) ==> r@ == vstd::utf8::decode_utf8(contents@),
    {
        decode_lossy(contents)
    }
}

impl DocumentParser for PlainTextParser {
    /// A listed extension, ignoring ASCII case, or no extension at all.
    open spec fn claims(&self, path: Seq<char>) -> bool {
        path_extension(path) is None || extension_listed(path, text_extensions())
    }

    open spec fn returns_on(&self, path: Seq<char>, contents: Seq<u8>) -> bool {
        true
    }

    fn supports(&self, path: &str) -> (r: bool) {
        match lower_extension(path) {
            None => true,
            Some(_) => has_listed_extension(path, &text_extension_list()),
        }
    }

    fn parse(&self, path: &str, contents: &[u8]) -> (r: Result<String, DocumentError>)
        ensures
            r matches Ok(s) && s@ == plain_text_of(contents@),
    {
        Ok(self.decode(contents))
    }
}

} // verus!
