//! Picking a parser by file type, and the parsers' common ground: the
//! trait they implement, their errors and the extension lists.
pub mod code;
pub mod docx;
pub mod excel;
pub mod pdf;
pub mod plain_text;
pub mod xml;

use vstd::prelude::*;

use crate::path::{lower_extension, path_extension};
use crate::text::{ascii_lower_seq, chars_of, push_str};

use code::CodeParser;
use docx::DocxParser;
use excel::ExcelParser;
use pdf::PdfParser;
use plain_text::PlainTextParser;
use xml::XmlParser;

verus! {

/// Why a document could not be turned into text. Where a variant holds a
/// path, it is the path of the document; where it holds a detail, it is the
/// message of the outside library's error.
#[derive(Debug)]
pub enum DocumentError {
    /// No registered parser claims the path.
    Unsupported(String),
    /// The file (path) is not valid UTF-8 where text was expected.
    NotUtf8(String),
    /// The PDF (path) could not be read (detail).
    Pdf(String, String),
    /// A `.docx` (path) that is not a zip archive (detail).
    NotZip(String, String),
    /// `word/document.xml` cannot be found or opened in the archive (path,
    /// detail).
    NotWordDocument(String, String),
    /// `word/document.xml` could not be read as text (path, detail).
    UnreadableBody(String, String),
    /// The markup of an XML document is malformed (detail).
    MalformedXml(String),
    /// A character reference in an XML document names no character (detail).
    MalformedCharRef(String),
    /// The markup of `word/document.xml` is malformed (detail).
    MalformedBody(String),
    /// A character reference in a text run of `word/document.xml` names no
    /// character (detail).
    MalformedBodyCharRef(String),
    /// The workbook (path) could not be opened (detail).
    NotWorkbook(String, String),
    /// A sheet (name) of the workbook (path) could not be read (detail).
    UnreadableSheet(String, String, String),
}

/// The message that describes an error.
pub open spec fn error_message(e: DocumentError) -> Seq<char> {
    match e {
        DocumentError::Unsupported(p) => "unsupported document type: "@ + p@,
        DocumentError::NotUtf8(p) => "failed to read file "@ + p@
            + ": stream did not contain valid UTF-8"@,
        DocumentError::Pdf(p, d) => "failed to extract text from PDF "@ + p@ + ": "@ + d@,
        DocumentError::NotZip(p, d) => p@ + " is not a valid .docx (zip) file: "@ + d@,
        DocumentError::NotWordDocument(p, d) => p@
            + " is not a Word document (missing word/document.xml): "@ + d@,
        DocumentError::UnreadableBody(p, d) => "failed to read document body of "@ + p@ + ": "@
            + d@,
        DocumentError::MalformedXml(d) => "malformed XML: "@ + d@,
        DocumentError::MalformedCharRef(d) => "malformed character reference in XML: "@ + d@,
        DocumentError::MalformedBody(d) => "malformed document.xml: "@ + d@,
        DocumentError::MalformedBodyCharRef(d) => "malformed character reference in document.xml: "@
            + d@,
        DocumentError::NotWorkbook(p, d) => "failed to open Excel file "@ + p@ + ": "@ + d@,
        DocumentError::UnreadableSheet(n, p, d) => "failed to read sheet '"@ + n@ + "' of "@ + p@
            + ": "@ + d@,
    }
}

impl DocumentError {
    /// A human-readable description of the error.
    pub fn message(&self) -> (r: String)
        ensures
            r@ == error_message(*self),
    {
        let mut r = String::new();
        match self {
            DocumentError::Unsupported(p) => {
                push_str(&mut r, "unsupported document type: ");
                push_str(&mut r, p.as_str());
            },
            DocumentError::NotUtf8(p) => {
                push_str(&mut r, "failed to read file ");
                push_str(&mut r, p.as_str());
                push_str(&mut r, ": stream did not contain valid UTF-8");
            },
            DocumentError::Pdf(p, d) => {
                push_str(&mut r, "failed to extract text from PDF ");
                push_str(&mut r, p.as_str());
                push_str(&mut r, ": ");
                push_str(&mut r, d.as_str());
            },
            DocumentError::NotZip(p, d) => {
                assert(Seq::<char>::empty() + p@ =~= p@);
                push_str(&mut r, p.as_str());
                push_str(&mut r, " is not a valid .docx (zip) file: ");
                push_str(&mut r, d.as_str());
            },
            DocumentError::NotWordDocument(p, d) => {
                assert(Seq::<char>::empty() + p@ =~= p@);
                push_str(&mut r, p.as_str());
                push_str(&mut r, " is not a Word document (missing word/document.xml): ");
                push_str(&mut r, d.as_str());
            },
            DocumentError::UnreadableBody(p, d) => {
                push_str(&mut r, "failed to read document body of ");
                push_str(&mut r, p.as_str());
                push_str(&mut r, ": ");
                push_str(&mut r, d.as_str());
            },
            DocumentError::MalformedXml(d) => {
                push_str(&mut r, "malformed XML: ");
                push_str(&mut r, d.as_str());
            },
            DocumentError::MalformedCharRef(d) => {
                push_str(&mut r, "malformed character reference in XML: ");
                push_str(&mut r, d.as_str());
            },
            DocumentError::MalformedBody(d) => {
                push_str(&mut r, "malformed document.xml: ");
                push_str(&mut r, d.as_str());
            },
            DocumentError::MalformedBodyCharRef(d) => {
                push_str(&mut r, "malformed character reference in document.xml: ");
                push_str(&mut r, d.as_str());
            },
            DocumentError::NotWorkbook(p, d) => {
                push_str(&mut r, "failed to open Excel file ");
                push_str(&mut r, p.as_str());
                push_str(&mut r, ": ");
                push_str(&mut r, d.as_str());
            },
            DocumentError::UnreadableSheet(n, p, d) => {
                push_str(&mut r, "failed to read sheet '");
                push_str(&mut r, n.as_str());
                push_str(&mut r, "' of ");
                push_str(&mut r, p.as_str());
                push_str(&mut r, ": ");
                push_str(&mut r, d.as_str());
            },
        }
        r
    }
}

/// Extracts plain text from a document. One implementation per document
/// type; the caller reads the file and hands over its path and contents.
pub trait DocumentParser {
    /// The paths this parser takes, judged by the file extension.
    spec fn claims(&self, path: Seq<char>) -> bool;

    /// The outside library this parser reads with returns on these contents
    /// rather than panicking.
    spec fn returns_on(&self, path: Seq<char>, contents: Seq<u8>) -> bool;

    /// Returns true if this parser can handle the given file.
    fn supports(&self, path: &str) -> (r: bool)
        ensures
            r == self.claims(path@),
    ;

    /// Extracts the text content of the document at `path` from the file's
    /// bytes.
    fn parse(&self, path: &str, contents: &[u8]) -> Result<String, DocumentError>
        requires
            self.returns_on(path@, contents@),
    ;
}

/// The lower-cased extension `ext` is one of `list`.
pub fn listed(ext: &Vec<char>, list: &Vec<&str>) -> (r: bool)
    ensures
        r == list@.map_values(|s: &str| s@).contains(ext@),
{
    let ghost views = list@.map_values(|s: &str| s@);
    let mut i: usize = 0;
    while i < list.len()
        invariant
            views == list@.map_values(|s: &str| s@),
            i <= list@.len(),
            forall|k: int| 0 <= k < i ==> views[k] != ext@,
        decreases list.len() - i,
    {
        let w = chars_of(list[i]);
        if same_chars(ext, &w) {
            assert(views[i as int] == ext@);
            return true;
        }
        i = i + 1;
    }
    proof {
        if views.contains(ext@) {
            let k = choose|k: int| 0 <= k < views.len() && views[k] == ext@;
            assert(views[k] != ext@);
        }
    }
    false
}

/// Whether two character vectors are equal.
pub fn same_chars(a: &Vec<char>, b: &Vec<char>) -> (r: bool)
    ensures
        r == (a@ == b@),
{
    if a.len() != b.len() {
        return false;
    }
    let mut i: usize = 0;
    while i < a.len()
        invariant
            a@.len() == b@.len(),
            i <= a@.len(),
            forall|k: int| 0 <= k < i ==> a@[k] == b@[k],
        decreases a.len() - i,
    {
        if a[i] != b[i] {
            assert(a@[i as int] != b@[i as int]);
            return false;
        }
        i = i + 1;
    }
    assert(a@ =~= b@);
    true
}

/// The path has an extension that, lower-cased, is one of `list`.
pub open spec fn extension_listed(path: Seq<char>, list: Seq<Seq<char>>) -> bool {
    match path_extension(path) {
        Some(ext) => list.contains(ascii_lower_seq(ext)),
        None => false,
    }
}

/// Whether the path's extension, lower-cased, is one of `list`.
pub fn has_listed_extension(path: &str, list: &Vec<&str>) -> (r: bool)
    ensures
        r == extension_listed(path@, list@.map_values(|s: &str| s@)),
{
    match lower_extension(path) {
        Some(ext) => listed(&ext, list),
        None => false,
    }
}

/// The one-entry list holding `ext`.
pub fn single(ext: &'static str) -> (v: Vec<&'static str>)
    ensures
        v@.map_values(|s: &str| s@) == seq![ext@],
{
    let mut v: Vec<&'static str> = Vec::new();
    v.push(ext);
    assert(v@.map_values(|s: &str| s@) =~= seq![ext@]);
    v
}

/// Extensions of plain text files.
pub open spec fn text_extensions() -> Seq<Seq<char>> {
    seq![
        "txt"@,
        "md"@,
        "markdown"@,
        "log"@,
        "text"@,
    ]
}

/// The entries of [`text_extensions`].
pub fn text_extension_list() -> (v: Vec<&'static str>)
    ensures
        v@.map_values(|s: &str| s@) == text_extensions(),
{
    let mut v: Vec<&'static str> = Vec::new();
    v.push("txt");
    v.push("md");
    v.push("markdown");
    v.push("log");
    v.push("text");
    assert(v@.map_values(|s: &str| s@) =~= text_extensions());
    v
}

/// Extensions of source code files (and text-like configuration).
pub open spec fn code_extensions() -> Seq<Seq<char>> {
    seq![
        "java"@,
        "kt"@,
        "kts"@,
        "groovy"@,
        "gradle"@,
        "scala"@,
        "clj"@,
        "py"@,
        "rb"@,
        "pl"@,
        "php"@,
        "lua"@,
        "r"@,
        "sh"@,
        "bash"@,
        "zsh"@,
        "fish"@,
        "ps1"@,
        "psm1"@,
        "bat"@,
        "cmd"@,
        "c"@,
        "h"@,
        "cc"@,
        "cpp"@,
        "cxx"@,
        "hpp"@,
        "hh"@,
        "cs"@,
        "m"@,
        "mm"@,
        "js"@,
        "jsx"@,
        "mjs"@,
        "cjs"@,
        "ts"@,
        "tsx"@,
        "css"@,
        "scss"@,
        "sass"@,
        "less"@,
        "rs"@,
        "go"@,
        "swift"@,
        "sql"@,
        "toml"@,
        "yaml"@,
        "yml"@,
        "json"@,
        "ini"@,
        "cfg"@,
        "properties"@,
    ]
}

/// The entries of [`code_extensions`].
pub fn code_extension_list() -> (v: Vec<&'static str>)
    ensures
        v@.map_values(|s: &str| s@) == code_extensions(),
{
    let mut v: Vec<&'static str> = Vec::new();
    v.push("java");
    v.push("kt");
    v.push("kts");
    v.push("groovy");
    v.push("gradle");
    v.push("scala");
    v.push("clj");
    v.push("py");
    v.push("rb");
    v.push("pl");
    v.push("php");
    v.push("lua");
    v.push("r");
    v.push("sh");
    v.push("bash");
    v.push("zsh");
    v.push("fish");
    v.push("ps1");
    v.push("psm1");
    v.push("bat");
    v.push("cmd");
    v.push("c");
    v.push("h");
    v.push("cc");
    v.push("cpp");
    v.push("cxx");
    v.push("hpp");
    v.push("hh");
    v.push("cs");
    v.push("m");
    v.push("mm");
    v.push("js");
    v.push("jsx");
    v.push("mjs");
    v.push("cjs");
    v.push("ts");
    v.push("tsx");
    v.push("css");
    v.push("scss");
    v.push("sass");
    v.push("less");
    v.push("rs");
    v.push("go");
    v.push("swift");
    v.push("sql");
    v.push("toml");
    v.push("yaml");
    v.push("yml");
    v.push("json");
    v.push("ini");
    v.push("cfg");
    v.push("properties");
    assert(v@.map_values(|s: &str| s@) =~= code_extensions());
    v
}

/// Extensions of Excel workbooks.
pub open spec fn excel_extensions() -> Seq<Seq<char>> {
    seq![
        "xlsx"@,
        "xlsm"@,
        "xlsb"@,
        "xls"@,
    ]
}

/// The entries of [`excel_extensions`].
pub fn excel_extension_list() -> (v: Vec<&'static str>)
    ensures
        v@.map_values(|s: &str| s@) == excel_extensions(),
{
    let mut v: Vec<&'static str> = Vec::new();
    v.push("xlsx");
    v.push("xlsm");
    v.push("xlsb");
    v.push("xls");
    assert(v@.map_values(|s: &str| s@) =~= excel_extensions());
    v
}

/// The registered parsers.
#[derive(Clone, Copy, Debug, PartialEq, Eq, Structural)]
pub enum ParserKind {
    PlainText,
    Pdf,
    Docx,
    Excel,
    Xml,
    Code,
}

/// The registration order in which parsers are asked. The plain text parser
/// claims extensionless files, so it comes first.
pub open spec fn registered_parsers() -> Seq<ParserKind> {
    seq![
        ParserKind::PlainText,
        ParserKind::Pdf,
        ParserKind::Docx,
        ParserKind::Excel,
        ParserKind::Xml,
        ParserKind::Code,
    ]
}

/// `text` is what a parser of the given kind extracts from the document at
/// `path` with the given contents.
pub open spec fn parsed_as(kind: ParserKind, path: Seq<char>, contents: Seq<u8>, text: Seq<char>) -> bool {
    match kind {
        ParserKind::PlainText => text == plain_text::plain_text_of(contents),
        ParserKind::Code => text == plain_text::plain_text_of(contents),
        ParserKind::Pdf => pdf::pdf_text(contents) == Some(Ok::<Seq<char>, Seq<char>>(text)),
        ParserKind::Docx => docx::docx_contents_text(contents) == Some(text),
        ParserKind::Xml => vstd::utf8::valid_utf8(contents) && (crate::markup::xml_document(
            vstd::utf8::decode_utf8(contents),
        ) matches Some(events) && text == crate::markup::xml_text(events)),
        ParserKind::Excel => excel::workbook_readable(path, contents) && text == excel::excel_text(
            path,
            contents,
        ),
    }
}

/// A parser of the given kind extracts text from the document at `path`
/// with the given contents.
pub open spec fn parses(kind: ParserKind, path: Seq<char>, contents: Seq<u8>) -> bool {
    match kind {
        ParserKind::PlainText => true,
        ParserKind::Code => true,
        ParserKind::Pdf => pdf::pdf_text(contents) matches Some(Ok(_)),
        ParserKind::Docx => docx::docx_contents_text(contents) is Some,
        ParserKind::Xml => vstd::utf8::valid_utf8(contents) && crate::markup::xml_document(
            vstd::utf8::decode_utf8(contents),
        ) is Some,
        ParserKind::Excel => excel::workbook_readable(path, contents),
    }
}

/// `e` is the error a parser of the given kind reports for the document at
/// `path` with the given contents (plain text and code never fail).
pub open spec fn parse_error(kind: ParserKind, path: Seq<char>, contents: Seq<u8>, e: DocumentError) -> bool {
    match kind {
        ParserKind::PlainText => false,
        ParserKind::Code => false,
        ParserKind::Pdf => pdf::pdf_error(path, contents, e),
        ParserKind::Docx => docx::docx_error(path, contents, e),
        ParserKind::Xml => xml::xml_error(path, contents, e),
        ParserKind::Excel => excel::excel_error(path, contents, e),
    }
}

/// `e` is the error reading the document at `path` reports: the chosen
/// parser's, or `Unsupported` with the path when no parser claims it.
pub open spec fn document_error(path: Seq<char>, contents: Seq<u8>, e: DocumentError) -> bool {
    match first_claiming(path) {
        Some(k) => parse_error(k, path, contents, e),
        None => e matches DocumentError::Unsupported(p) && p@ == path,
    }
}

impl DocumentParser for ParserKind {
    open spec fn claims(&self, path: Seq<char>) -> bool {
        match *self {
            ParserKind::PlainText => PlainTextParser.claims(path),
            ParserKind::Pdf => PdfParser.claims(path),
            ParserKind::Docx => DocxParser.claims(path),
            ParserKind::Excel => ExcelParser.claims(path),
            ParserKind::Xml => XmlParser.claims(path),
            ParserKind::Code => CodeParser.claims(path),
        }
    }

    open spec fn returns_on(&self, path: Seq<char>, contents: Seq<u8>) -> bool {
        match *self {
            ParserKind::PlainText => PlainTextParser.returns_on(path, contents),
            ParserKind::Pdf => PdfParser.returns_on(path, contents),
            ParserKind::Docx => DocxParser.returns_on(path, contents),
            ParserKind::Excel => ExcelParser.returns_on(path, contents),
            ParserKind::Xml => XmlParser.returns_on(path, contents),
            ParserKind::Code => CodeParser.returns_on(path, contents),
        }
    }

    fn supports(&self, path: &str) -> (r: bool) {
        match self {
            ParserKind::PlainText => PlainTextParser.supports(path),
            ParserKind::Pdf => PdfParser.supports(path),
            ParserKind::Docx => DocxParser.supports(path),
            ParserKind::Excel => ExcelParser.supports(path),
            ParserKind::Xml => XmlParser.supports(path),
            ParserKind::Code => CodeParser.supports(path),
        }
    }

    fn parse(&self, path: &str, contents: &[u8]) -> (r: Result<String, DocumentError>)
        ensures
            r is Ok <==> parses(*self, path@, contents@),
            r matches Ok(t) ==> parsed_as(*self, path@, contents@, t@),
            r matches Err(e) ==> parse_error(*self, path@, contents@, e),
    {
        match self {
            ParserKind::PlainText => PlainTextParser.parse(path, contents),
            ParserKind::Pdf => PdfParser.parse(path, contents),
            ParserKind::Docx => DocxParser.parse(path, contents),
            ParserKind::Excel => ExcelParser.parse(path, contents),
            ParserKind::Xml => XmlParser.parse(path, contents),
            ParserKind::Code => CodeParser.parse(path, contents),
        }
    }
}

/// The first registered parser that claims `path`, if any.
pub open spec fn first_claiming(path: Seq<char>) -> Option<ParserKind> {
    first_claiming_from(path, 0)
}

/// The first parser from position `i` of the registration order on that
/// claims `path`.
pub open spec fn first_claiming_from(path: Seq<char>, i: int) -> Option<ParserKind>
    decreases registered_parsers().len() - i,
{
    if i < 0 || i >= registered_parsers().len() {
        None
    } else if registered_parsers()[i].claims(path) {
        Some(registered_parsers()[i])
    } else {
        first_claiming_from(path, i + 1)
    }
}

/// The outside library the parser chosen for `path` reads with returns on
/// `contents` rather than panicking (there is nothing to read with when no
/// parser claims the path).
pub open spec fn parser_returns_on(path: Seq<char>, contents: Seq<u8>) -> bool {
    match first_claiming(path) {
        Some(k) => k.returns_on(path, contents),
        None => true,
    }
}

/// Returns the first registered parser that supports `path`.
pub fn parser_for(path: &str) -> (r: Result<ParserKind, DocumentError>)
    ensures
        match first_claiming(path@) {
            Some(k) => r == Ok::<ParserKind, DocumentError>(k),
            None => r matches Err(DocumentError::Unsupported(p)) && p@ == path@,
        },
{
    let kinds = [
        ParserKind::PlainText,
        ParserKind::Pdf,
        ParserKind::Docx,
        ParserKind::Excel,
        ParserKind::Xml,
        ParserKind::Code,
    ];
    let mut i: usize = 0;
    while i < 6
        invariant
            i <= 6,
            forall|k: int| 0 <= k < 6 ==> kinds@[k] == registered_parsers()[k],
            first_claiming(path@) == first_claiming_from(path@, i as int),
        decreases 6 - i,
    {
        let kind = kinds[i];
        if kind.supports(path) {
            return Ok(kind);
        }
        i = i + 1;
    }
    Err(DocumentError::Unsupported(path.to_string()))
}

/// Laws of parser selection: a selected parser claims the path and no
/// parser registered before it does; a path is refused exactly when no
/// registered parser claims it.
pub proof fn lemma_parser_selection(path: Seq<char>)
    ensures
        first_claiming(path) matches Some(k) ==> k.claims(path) && exists|i: int|
            0 <= i < registered_parsers().len() && registered_parsers()[i] == k && forall|j: int|
                0 <= j < i ==> !#[trigger] registered_parsers()[j].claims(path),
        first_claiming(path) is None <==> forall|j: int|
            0 <= j < registered_parsers().len() ==> !#[trigger] registered_parsers()[j].claims(path),
{
    lemma_first_claiming_from(path, 0);
}

/// How many of the registered parsers claim `path`.
pub open spec fn claim_count(path: Seq<char>) -> int {
    (if PlainTextParser.claims(path) { 1int } else { 0int })
        + (if PdfParser.claims(path) { 1int } else { 0int })
        + (if DocxParser.claims(path) { 1int } else { 0int })
        + (if ExcelParser.claims(path) { 1int } else { 0int })
        + (if XmlParser.claims(path) { 1int } else { 0int })
        + (if CodeParser.claims(path) { 1int } else { 0int })
}

/// The entries of [`text_extensions`], spelled out.
proof fn lemma_text_member(x: Seq<char>)
    requires
        text_extensions().contains(x),
    ensures
        (x.len() == 3 && x[0] == 't' && x[1] == 'x' && x[2] == 't')
            || (x.len() == 2 && x[0] == 'm' && x[1] == 'd')
            || (x.len() == 8 && x[0] == 'm' && x[1] == 'a' && x[2] == 'r' && x[3] == 'k' && x[4] == 'd' && x[5] == 'o' && x[6] == 'w' && x[7] == 'n')
            || (x.len() == 3 && x[0] == 'l' && x[1] == 'o' && x[2] == 'g')
            || (x.len() == 4 && x[0] == 't' && x[1] == 'e' && x[2] == 'x' && x[3] == 't'),
{
    let i = choose|i: int| 0 <= i < text_extensions().len() && text_extensions()[i] == x;
    assert(i == 0 || i == 1 || i == 2 || i == 3 || i == 4);
    if i == 0 {
        reveal_strlit("txt");
        assert("txt"@.len() == 3);
        assert("txt"@[0] == 't');
        assert("txt"@[1] == 'x');
        assert("txt"@[2] == 't');
    }
    if i == 1 {
        reveal_strlit("md");
        assert("md"@.len() == 2);
        assert("md"@[0] == 'm');
        assert("md"@[1] == 'd');
    }
    if i == 2 {
        reveal_strlit("markdown");
        assert("markdown"@.len() == 8);
        assert("markdown"@[0] == 'm');
        assert("markdown"@[1] == 'a');
        assert("markdown"@[2] == 'r');
        assert("markdown"@[3] == 'k');
        assert("markdown"@[4] == 'd');
        assert("markdown"@[5] == 'o');
        assert("markdown"@[6] == 'w');
        assert("markdown"@[7] == 'n');
    }
    if i == 3 {
        reveal_strlit("log");
        assert("log"@.len() == 3);
        assert("log"@[0] == 'l');
        assert("log"@[1] == 'o');
        assert("log"@[2] == 'g');
    }
    if i == 4 {
        reveal_strlit("text");
        assert("text"@.len() == 4);
        assert("text"@[0] == 't');
        assert("text"@[1] == 'e');
        assert("text"@[2] == 'x');
        assert("text"@[3] == 't');
    }
}

/// The entries of [`code_extensions`], spelled out.
proof fn lemma_code_member(x: Seq<char>)
    requires
        code_extensions().contains(x),
    ensures
        (x.len() == 4 && x[0] == 'j' && x[1] == 'a' && x[2] == 'v' && x[3] == 'a')
            || (x.len() == 2 && x[0] == 'k' && x[1] == 't')
            || (x.len() == 3 && x[0] == 'k' && x[1] == 't' && x[2] == 's')
            || (x.len() == 6 && x[0] == 'g' && x[1] == 'r' && x[2] == 'o' && x[3] == 'o' && x[4] == 'v' && x[5] == 'y')
            || (x.len() == 6 && x[0] == 'g' && x[1] == 'r' && x[2] == 'a' && x[3] == 'd' && x[4] == 'l' && x[5] == 'e')
            || (x.len() == 5 && x[0] == 's' && x[1] == 'c' && x[2] == 'a' && x[3] == 'l' && x[4] == 'a')
            || (x.len() == 3 && x[0] == 'c' && x[1] == 'l' && x[2] == 'j')
            || (x.len() == 2 && x[0] == 'p' && x[1] == 'y')
            || (x.len() == 2 && x[0] == 'r' && x[1] == 'b')
            || (x.len() == 2 && x[0] == 'p' && x[1] == 'l')
            || (x.len() == 3 && x[0] == 'p' && x[1] == 'h' && x[2] == 'p')
            || (x.len() == 3 && x[0] == 'l' && x[1] == 'u' && x[2] == 'a')
            || (x.len() == 1 && x[0] == 'r')
            || (x.len() == 2 && x[0] == 's' && x[1] == 'h')
            || (x.len() == 4 && x[0] == 'b' && x[1] == 'a' && x[2] == 's' && x[3] == 'h')
            || (x.len() == 3 && x[0] == 'z' && x[1] == 's' && x[2] == 'h')
            || (x.len() == 4 && x[0] == 'f' && x[1] == 'i' && x[2] == 's' && x[3] == 'h')
            || (x.len() == 3 && x[0] == 'p' && x[1] == 's' && x[2] == '1')
            || (x.len() == 4 && x[0] == 'p' && x[1] == 's' && x[2] == 'm' && x[3] == '1')
            || (x.len() == 3 && x[0] == 'b' && x[1] == 'a' && x[2] == 't')
            || (x.len() == 3 && x[0] == 'c' && x[1] == 'm' && x[2] == 'd')
            || (x.len() == 1 && x[0] == 'c')
            || (x.len() == 1 && x[0] == 'h')
            || (x.len() == 2 && x[0] == 'c' && x[1] == 'c')
            || (x.len() == 3 && x[0] == 'c' && x[1] == 'p' && x[2] == 'p')
            || (x.len() == 3 && x[0] == 'c' && x[1] == 'x' && x[2] == 'x')
            || (x.len() == 3 && x[0] == 'h' && x[1] == 'p' && x[2] == 'p')
            || (x.len() == 2 && x[0] == 'h' && x[1] == 'h')
            || (x.len() == 2 && x[0] == 'c' && x[1] == 's')
            || (x.len() == 1 && x[0] == 'm')
            || (x.len() == 2 && x[0] == 'm' && x[1] == 'm')
            || (x.len() == 2 && x[0] == 'j' && x[1] == 's')
            || (x.len() == 3 && x[0] == 'j' && x[1] == 's' && x[2] == 'x')
            || (x.len() == 3 && x[0] == 'm' && x[1] == 'j' && x[2] == 's')
            || (x.len() == 3 && x[0] == 'c' && x[1] == 'j' && x[2] == 's')
            || (x.len() == 2 && x[0] == 't' && x[1] == 's')
            || (x.len() == 3 && x[0] == 't' && x[1] == 's' && x[2] == 'x')
            || (x.len() == 3 && x[0] == 'c' && x[1] == 's' && x[2] == 's')
            || (x.len() == 4 && x[0] == 's' && x[1] == 'c' && x[2] == 's' && x[3] == 's')
            || (x.len() == 4 && x[0] == 's' && x[1] == 'a' && x[2] == 's' && x[3] == 's')
            || (x.len() == 4 && x[0] == 'l' && x[1] == 'e' && x[2] == 's' && x[3] == 's')
            || (x.len() == 2 && x[0] == 'r' && x[1] == 's')
            || (x.len() == 2 && x[0] == 'g' && x[1] == 'o')
            || (x.len() == 5 && x[0] == 's' && x[1] == 'w' && x[2] == 'i' && x[3] == 'f' && x[4] == 't')
            || (x.len() == 3 && x[0] == 's' && x[1] == 'q' && x[2] == 'l')
            || (x.len() == 4 && x[0] == 't' && x[1] == 'o' && x[2] == 'm' && x[3] == 'l')
            || (x.len() == 4 && x[0] == 'y' && x[1] == 'a' && x[2] == 'm' && x[3] == 'l')
            || (x.len() == 3 && x[0] == 'y' && x[1] == 'm' && x[2] == 'l')
            || (x.len() == 4 && x[0] == 'j' && x[1] == 's' && x[2] == 'o' && x[3] == 'n')
            || (x.len() == 3 && x[0] == 'i' && x[1] == 'n' && x[2] == 'i')
            || (x.len() == 3 && x[0] == 'c' && x[1] == 'f' && x[2] == 'g')
            || (x.len() == 10 && x[0] == 'p' && x[1] == 'r' && x[2] == 'o' && x[3] == 'p' && x[4] == 'e' && x[5] == 'r' && x[6] == 't' && x[7] == 'i' && x[8] == 'e' && x[9] == 's'),
{
    let i = choose|i: int| 0 <= i < code_extensions().len() && code_extensions()[i] == x;
    assert(i == 0 || i == 1 || i == 2 || i == 3 || i == 4 || i == 5 || i == 6 || i == 7 || i == 8 || i == 9 || i == 10 || i == 11 || i == 12 || i == 13 || i == 14 || i == 15 || i == 16 || i == 17 || i == 18 || i == 19 || i == 20 || i == 21 || i == 22 || i == 23 || i == 24 || i == 25 || i == 26 || i == 27 || i == 28 || i == 29 || i == 30 || i == 31 || i == 32 || i == 33 || i == 34 || i == 35 || i == 36 || i == 37 || i == 38 || i == 39 || i == 40 || i == 41 || i == 42 || i == 43 || i == 44 || i == 45 || i == 46 || i == 47 || i == 48 || i == 49 || i == 50 || i == 51);
    if i == 0 {
        reveal_strlit("java");
        assert("java"@.len() == 4);
        assert("java"@[0] == 'j');
        assert("java"@[1] == 'a');
        assert("java"@[2] == 'v');
        assert("java"@[3] == 'a');
    }
    if i == 1 {
        reveal_strlit("kt");
        assert("kt"@.len() == 2);
        assert("kt"@[0] == 'k');
        assert("kt"@[1] == 't');
    }
    if i == 2 {
        reveal_strlit("kts");
        assert("kts"@.len() == 3);
        assert("kts"@[0] == 'k');
        assert("kts"@[1] == 't');
        assert("kts"@[2] == 's');
    }
    if i == 3 {
        reveal_strlit("groovy");
        assert("groovy"@.len() == 6);
        assert("groovy"@[0] == 'g');
        assert("groovy"@[1] == 'r');
        assert("groovy"@[2] == 'o');
        assert("groovy"@[3] == 'o');
        assert("groovy"@[4] == 'v');
        assert("groovy"@[5] == 'y');
    }
    if i == 4 {
        reveal_strlit("gradle");
        assert("gradle"@.len() == 6);
        assert("gradle"@[0] == 'g');
        assert("gradle"@[1] == 'r');
        assert("gradle"@[2] == 'a');
        assert("gradle"@[3] == 'd');
        assert("gradle"@[4] == 'l');
        assert("gradle"@[5] == 'e');
    }
    if i == 5 {
        reveal_strlit("scala");
        assert("scala"@.len() == 5);
        assert("scala"@[0] == 's');
        assert("scala"@[1] == 'c');
        assert("scala"@[2] == 'a');
        assert("scala"@[3] == 'l');
        assert("scala"@[4] == 'a');
    }
    if i == 6 {
        reveal_strlit("clj");
        assert("clj"@.len() == 3);
        assert("clj"@[0] == 'c');
        assert("clj"@[1] == 'l');
        assert("clj"@[2] == 'j');
    }
    if i == 7 {
        reveal_strlit("py");
        assert("py"@.len() == 2);
        assert("py"@[0] == 'p');
        assert("py"@[1] == 'y');
    }
    if i == 8 {
        reveal_strlit("rb");
        assert("rb"@.len() == 2);
        assert("rb"@[0] == 'r');
        assert("rb"@[1] == 'b');
    }
    if i == 9 {
        reveal_strlit("pl");
        assert("pl"@.len() == 2);
        assert("pl"@[0] == 'p');
        assert("pl"@[1] == 'l');
    }
    if i == 10 {
        reveal_strlit("php");
        assert("php"@.len() == 3);
        assert("php"@[0] == 'p');
        assert("php"@[1] == 'h');
        assert("php"@[2] == 'p');
    }
    if i == 11 {
        reveal_strlit("lua");
        assert("lua"@.len() == 3);
        assert("lua"@[0] == 'l');
        assert("lua"@[1] == 'u');
        assert("lua"@[2] == 'a');
    }
    if i == 12 {
        reveal_strlit("r");
        assert("r"@.len() == 1);
        assert("r"@[0] == 'r');
    }
    if i == 13 {
        reveal_strlit("sh");
        assert("sh"@.len() == 2);
        assert("sh"@[0] == 's');
        assert("sh"@[1] == 'h');
    }
    if i == 14 {
        reveal_strlit("bash");
        assert("bash"@.len() == 4);
        assert("bash"@[0] == 'b');
        assert("bash"@[1] == 'a');
        assert("bash"@[2] == 's');
        assert("bash"@[3] == 'h');
    }
    if i == 15 {
        reveal_strlit("zsh");
        assert("zsh"@.len() == 3);
        assert("zsh"@[0] == 'z');
        assert("zsh"@[1] == 's');
        assert("zsh"@[2] == 'h');
    }
    if i == 16 {
        reveal_strlit("fish");
        assert("fish"@.len() == 4);
        assert("fish"@[0] == 'f');
        assert("fish"@[1] == 'i');
        assert("fish"@[2] == 's');
        assert("fish"@[3] == 'h');
    }
    if i == 17 {
        reveal_strlit("ps1");
        assert("ps1"@.len() == 3);
        assert("ps1"@[0] == 'p');
        assert("ps1"@[1] == 's');
        assert("ps1"@[2] == '1');
    }
    if i == 18 {
        reveal_strlit("psm1");
        assert("psm1"@.len() == 4);
        assert("psm1"@[0] == 'p');
        assert("psm1"@[1] == 's');
        assert("psm1"@[2] == 'm');
        assert("psm1"@[3] == '1');
    }
    if i == 19 {
        reveal_strlit("bat");
        assert("bat"@.len() == 3);
        assert("bat"@[0] == 'b');
        assert("bat"@[1] == 'a');
        assert("bat"@[2] == 't');
    }
    if i == 20 {
        reveal_strlit("cmd");
        assert("cmd"@.len() == 3);
        assert("cmd"@[0] == 'c');
        assert("cmd"@[1] == 'm');
        assert("cmd"@[2] == 'd');
    }
    if i == 21 {
        reveal_strlit("c");
        assert("c"@.len() == 1);
        assert("c"@[0] == 'c');
    }
    if i == 22 {
        reveal_strlit("h");
        assert("h"@.len() == 1);
        assert("h"@[0] == 'h');
    }
    if i == 23 {
        reveal_strlit("cc");
        assert("cc"@.len() == 2);
        assert("cc"@[0] == 'c');
        assert("cc"@[1] == 'c');
    }
    if i == 24 {
        reveal_strlit("cpp");
        assert("cpp"@.len() == 3);
        assert("cpp"@[0] == 'c');
        assert("cpp"@[1] == 'p');
        assert("cpp"@[2] == 'p');
    }
    if i == 25 {
        reveal_strlit("cxx");
        assert("cxx"@.len() == 3);
        assert("cxx"@[0] == 'c');
        assert("cxx"@[1] == 'x');
        assert("cxx"@[2] == 'x');
    }
    if i == 26 {
        reveal_strlit("hpp");
        assert("hpp"@.len() == 3);
        assert("hpp"@[0] == 'h');
        assert("hpp"@[1] == 'p');
        assert("hpp"@[2] == 'p');
    }
    if i == 27 {
        reveal_strlit("hh");
        assert("hh"@.len() == 2);
        assert("hh"@[0] == 'h');
        assert("hh"@[1] == 'h');
    }
    if i == 28 {
        reveal_strlit("cs");
        assert("cs"@.len() == 2);
        assert("cs"@[0] == 'c');
        assert("cs"@[1] == 's');
    }
    if i == 29 {
        reveal_strlit("m");
        assert("m"@.len() == 1);
        assert("m"@[0] == 'm');
    }
    if i == 30 {
        reveal_strlit("mm");
        assert("mm"@.len() == 2);
        assert("mm"@[0] == 'm');
        assert("mm"@[1] == 'm');
    }
    if i == 31 {
        reveal_strlit("js");
        assert("js"@.len() == 2);
        assert("js"@[0] == 'j');
        assert("js"@[1] == 's');
    }
    if i == 32 {
        reveal_strlit("jsx");
        assert("jsx"@.len() == 3);
        assert("jsx"@[0] == 'j');
        assert("jsx"@[1] == 's');
        assert("jsx"@[2] == 'x');
    }
    if i == 33 {
        reveal_strlit("mjs");
        assert("mjs"@.len() == 3);
        assert("mjs"@[0] == 'm');
        assert("mjs"@[1] == 'j');
        assert("mjs"@[2] == 's');
    }
    if i == 34 {
        reveal_strlit("cjs");
        assert("cjs"@.len() == 3);
        assert("cjs"@[0] == 'c');
        assert("cjs"@[1] == 'j');
        assert("cjs"@[2] == 's');
    }
    if i == 35 {
        reveal_strlit("ts");
        assert("ts"@.len() == 2);
        assert("ts"@[0] == 't');
        assert("ts"@[1] == 's');
    }
    if i == 36 {
        reveal_strlit("tsx");
        assert("tsx"@.len() == 3);
        assert("tsx"@[0] == 't');
        assert("tsx"@[1] == 's');
        assert("tsx"@[2] == 'x');
    }
    if i == 37 {
        reveal_strlit("css");
        assert("css"@.len() == 3);
        assert("css"@[0] == 'c');
        assert("css"@[1] == 's');
        assert("css"@[2] == 's');
    }
    if i == 38 {
        reveal_strlit("scss");
        assert("scss"@.len() == 4);
        assert("scss"@[0] == 's');
        assert("scss"@[1] == 'c');
        assert("scss"@[2] == 's');
        assert("scss"@[3] == 's');
    }
    if i == 39 {
        reveal_strlit("sass");
        assert("sass"@.len() == 4);
        assert("sass"@[0] == 's');
        assert("sass"@[1] == 'a');
        assert("sass"@[2] == 's');
        assert("sass"@[3] == 's');
    }
    if i == 40 {
        reveal_strlit("less");
        assert("less"@.len() == 4);
        assert("less"@[0] == 'l');
        assert("less"@[1] == 'e');
        assert("less"@[2] == 's');
        assert("less"@[3] == 's');
    }
    if i == 41 {
        reveal_strlit("rs");
        assert("rs"@.len() == 2);
        assert("rs"@[0] == 'r');
        assert("rs"@[1] == 's');
    }
    if i == 42 {
        reveal_strlit("go");
        assert("go"@.len() == 2);
        assert("go"@[0] == 'g');
        assert("go"@[1] == 'o');
    }
    if i == 43 {
        reveal_strlit("swift");
        assert("swift"@.len() == 5);
        assert("swift"@[0] == 's');
        assert("swift"@[1] == 'w');
        assert("swift"@[2] == 'i');
        assert("swift"@[3] == 'f');
        assert("swift"@[4] == 't');
    }
    if i == 44 {
        reveal_strlit("sql");
        assert("sql"@.len() == 3);
        assert("sql"@[0] == 's');
        assert("sql"@[1] == 'q');
        assert("sql"@[2] == 'l');
    }
    if i == 45 {
        reveal_strlit("toml");
        assert("toml"@.len() == 4);
        assert("toml"@[0] == 't');
        assert("toml"@[1] == 'o');
        assert("toml"@[2] == 'm');
        assert("toml"@[3] == 'l');
    }
    if i == 46 {
        reveal_strlit("yaml");
        assert("yaml"@.len() == 4);
        assert("yaml"@[0] == 'y');
        assert("yaml"@[1] == 'a');
        assert("yaml"@[2] == 'm');
        assert("yaml"@[3] == 'l');
    }
    if i == 47 {
        reveal_strlit("yml");
        assert("yml"@.len() == 3);
        assert("yml"@[0] == 'y');
        assert("yml"@[1] == 'm');
        assert("yml"@[2] == 'l');
    }
    if i == 48 {
        reveal_strlit("json");
        assert("json"@.len() == 4);
        assert("json"@[0] == 'j');
        assert("json"@[1] == 's');
        assert("json"@[2] == 'o');
        assert("json"@[3] == 'n');
    }
    if i == 49 {
        reveal_strlit("ini");
        assert("ini"@.len() == 3);
        assert("ini"@[0] == 'i');
        assert("ini"@[1] == 'n');
        assert("ini"@[2] == 'i');
    }
    if i == 50 {
        reveal_strlit("cfg");
        assert("cfg"@.len() == 3);
        assert("cfg"@[0] == 'c');
        assert("cfg"@[1] == 'f');
        assert("cfg"@[2] == 'g');
    }
    if i == 51 {
        reveal_strlit("properties");
        assert("properties"@.len() == 10);
        assert("properties"@[0] == 'p');
        assert("properties"@[1] == 'r');
        assert("properties"@[2] == 'o');
        assert("properties"@[3] == 'p');
        assert("properties"@[4] == 'e');
        assert("properties"@[5] == 'r');
        assert("properties"@[6] == 't');
        assert("properties"@[7] == 'i');
        assert("properties"@[8] == 'e');
        assert("properties"@[9] == 's');
    }
}

/// The entries of [`excel_extensions`], spelled out.
proof fn lemma_excel_member(x: Seq<char>)
    requires
        excel_extensions().contains(x),
    ensures
        (x.len() == 4 && x[0] == 'x' && x[1] == 'l' && x[2] == 's' && x[3] == 'x')
            || (x.len() == 4 && x[0] == 'x' && x[1] == 'l' && x[2] == 's' && x[3] == 'm')
            || (x.len() == 4 && x[0] == 'x' && x[1] == 'l' && x[2] == 's' && x[3] == 'b')
            || (x.len() == 3 && x[0] == 'x' && x[1] == 'l' && x[2] == 's'),
{
    let i = choose|i: int| 0 <= i < excel_extensions().len() && excel_extensions()[i] == x;
    assert(i == 0 || i == 1 || i == 2 || i == 3);
    if i == 0 {
        reveal_strlit("xlsx");
        assert("xlsx"@.len() == 4);
        assert("xlsx"@[0] == 'x');
        assert("xlsx"@[1] == 'l');
        assert("xlsx"@[2] == 's');
        assert("xlsx"@[3] == 'x');
    }
    if i == 1 {
        reveal_strlit("xlsm");
        assert("xlsm"@.len() == 4);
        assert("xlsm"@[0] == 'x');
        assert("xlsm"@[1] == 'l');
        assert("xlsm"@[2] == 's');
        assert("xlsm"@[3] == 'm');
    }
    if i == 2 {
        reveal_strlit("xlsb");
        assert("xlsb"@.len() == 4);
        assert("xlsb"@[0] == 'x');
        assert("xlsb"@[1] == 'l');
        assert("xlsb"@[2] == 's');
        assert("xlsb"@[3] == 'b');
    }
    if i == 3 {
        reveal_strlit("xls");
        assert("xls"@.len() == 3);
        assert("xls"@[0] == 'x');
        assert("xls"@[1] == 'l');
        assert("xls"@[2] == 's');
    }
}

/// The one entry of the `pdf` list, spelled out.
proof fn lemma_pdf_member(x: Seq<char>)
    requires
        seq!["pdf"@].contains(x),
    ensures
        (x.len() == 3 && x[0] == 'p' && x[1] == 'd' && x[2] == 'f'),
{
    let i = choose|i: int| 0 <= i < 1 && seq!["pdf"@][i] == x;
    reveal_strlit("pdf");
    assert("pdf"@.len() == 3);
    assert("pdf"@[0] == 'p');
    assert("pdf"@[1] == 'd');
    assert("pdf"@[2] == 'f');
}

/// The one entry of the `docx` list, spelled out.
proof fn lemma_docx_member(x: Seq<char>)
    requires
        seq!["docx"@].contains(x),
    ensures
        (x.len() == 4 && x[0] == 'd' && x[1] == 'o' && x[2] == 'c' && x[3] == 'x'),
{
    let i = choose|i: int| 0 <= i < 1 && seq!["docx"@][i] == x;
    reveal_strlit("docx");
    assert("docx"@.len() == 4);
    assert("docx"@[0] == 'd');
    assert("docx"@[1] == 'o');
    assert("docx"@[2] == 'c');
    assert("docx"@[3] == 'x');
}

/// The one entry of the `xml` list, spelled out.
proof fn lemma_xml_member(x: Seq<char>)
    requires
        seq!["xml"@].contains(x),
    ensures
        (x.len() == 3 && x[0] == 'x' && x[1] == 'm' && x[2] == 'l'),
{
    let i = choose|i: int| 0 <= i < 1 && seq!["xml"@][i] == x;
    reveal_strlit("xml");
    assert("xml"@.len() == 3);
    assert("xml"@[0] == 'x');
    assert("xml"@[1] == 'm');
    assert("xml"@[2] == 'l');
}

/// The parsers' extension lists are pairwise disjoint and only the plain
/// text parser takes paths without an extension: no path is claimed by two
/// registered parsers, so the parser a path gets does not depend on the
/// registration order.
pub proof fn lemma_claims_disjoint(path: Seq<char>)
    ensures
        claim_count(path) <= 1,
{
    if let Some(ext) = path_extension(path) {
        let x = ascii_lower_seq(ext);
        if text_extensions().contains(x) {
            lemma_text_member(x);
        }
        if code_extensions().contains(x) {
            lemma_code_member(x);
        }
        if excel_extensions().contains(x) {
            lemma_excel_member(x);
        }
        if seq!["pdf"@].contains(x) {
            lemma_pdf_member(x);
        }
        if seq!["docx"@].contains(x) {
            lemma_docx_member(x);
        }
        if seq!["xml"@].contains(x) {
            lemma_xml_member(x);
        }
    }
}

/// The entries of [`text_extensions`], as literals.
proof fn lemma_text_list(x: Seq<char>)
    ensures
        text_extensions().contains(x) <==> (x == "txt"@
            || x == "md"@
            || x == "markdown"@
            || x == "log"@
            || x == "text"@),
{
    assert(text_extensions()[0] == "txt"@);
    assert(text_extensions()[1] == "md"@);
    assert(text_extensions()[2] == "markdown"@);
    assert(text_extensions()[3] == "log"@);
    assert(text_extensions()[4] == "text"@);
    if text_extensions().contains(x) {
        let i = choose|i: int| 0 <= i < text_extensions().len() && text_extensions()[i] == x;
        assert(i == 0 || i == 1 || i == 2 || i == 3 || i == 4);
    }
}

/// The entries of [`code_extensions`], as literals.
proof fn lemma_code_list(x: Seq<char>)
    ensures
        code_extensions().contains(x) <==> (x == "java"@
            || x == "kt"@
            || x == "kts"@
            || x == "groovy"@
            || x == "gradle"@
            || x == "scala"@
            || x == "clj"@
            || x == "py"@
            || x == "rb"@
            || x == "pl"@
            || x == "php"@
            || x == "lua"@
            || x == "r"@
            || x == "sh"@
            || x == "bash"@
            || x == "zsh"@
            || x == "fish"@
            || x == "ps1"@
            || x == "psm1"@
            || x == "bat"@
            || x == "cmd"@
            || x == "c"@
            || x == "h"@
            || x == "cc"@
            || x == "cpp"@
            || x == "cxx"@
            || x == "hpp"@
            || x == "hh"@
            || x == "cs"@
            || x == "m"@
            || x == "mm"@
            || x == "js"@
            || x == "jsx"@
            || x == "mjs"@
            || x == "cjs"@
            || x == "ts"@
            || x == "tsx"@
            || x == "css"@
            || x == "scss"@
            || x == "sass"@
            || x == "less"@
            || x == "rs"@
            || x == "go"@
            || x == "swift"@
            || x == "sql"@
            || x == "toml"@
            || x == "yaml"@
            || x == "yml"@
            || x == "json"@
            || x == "ini"@
            || x == "cfg"@
            || x == "properties"@),
{
    assert(code_extensions()[0] == "java"@);
    assert(code_extensions()[1] == "kt"@);
    assert(code_extensions()[2] == "kts"@);
    assert(code_extensions()[3] == "groovy"@);
    assert(code_extensions()[4] == "gradle"@);
    assert(code_extensions()[5] == "scala"@);
    assert(code_extensions()[6] == "clj"@);
    assert(code_extensions()[7] == "py"@);
    assert(code_extensions()[8] == "rb"@);
    assert(code_extensions()[9] == "pl"@);
    assert(code_extensions()[10] == "php"@);
    assert(code_extensions()[11] == "lua"@);
    assert(code_extensions()[12] == "r"@);
    assert(code_extensions()[13] == "sh"@);
    assert(code_extensions()[14] == "bash"@);
    assert(code_extensions()[15] == "zsh"@);
    assert(code_extensions()[16] == "fish"@);
    assert(code_extensions()[17] == "ps1"@);
    assert(code_extensions()[18] == "psm1"@);
    assert(code_extensions()[19] == "bat"@);
    assert(code_extensions()[20] == "cmd"@);
    assert(code_extensions()[21] == "c"@);
    assert(code_extensions()[22] == "h"@);
    assert(code_extensions()[23] == "cc"@);
    assert(code_extensions()[24] == "cpp"@);
    assert(code_extensions()[25] == "cxx"@);
    assert(code_extensions()[26] == "hpp"@);
    assert(code_extensions()[27] == "hh"@);
    assert(code_extensions()[28] == "cs"@);
    assert(code_extensions()[29] == "m"@);
    assert(code_extensions()[30] == "mm"@);
    assert(code_extensions()[31] == "js"@);
    assert(code_extensions()[32] == "jsx"@);
    assert(code_extensions()[33] == "mjs"@);
    assert(code_extensions()[34] == "cjs"@);
    assert(code_extensions()[35] == "ts"@);
    assert(code_extensions()[36] == "tsx"@);
    assert(code_extensions()[37] == "css"@);
    assert(code_extensions()[38] == "scss"@);
    assert(code_extensions()[39] == "sass"@);
    assert(code_extensions()[40] == "less"@);
    assert(code_extensions()[41] == "rs"@);
    assert(code_extensions()[42] == "go"@);
    assert(code_extensions()[43] == "swift"@);
    assert(code_extensions()[44] == "sql"@);
    assert(code_extensions()[45] == "toml"@);
    assert(code_extensions()[46] == "yaml"@);
    assert(code_extensions()[47] == "yml"@);
    assert(code_extensions()[48] == "json"@);
    assert(code_extensions()[49] == "ini"@);
    assert(code_extensions()[50] == "cfg"@);
    assert(code_extensions()[51] == "properties"@);
    if code_extensions().contains(x) {
        let i = choose|i: int| 0 <= i < code_extensions().len() && code_extensions()[i] == x;
        assert(i == 0 || i == 1 || i == 2 || i == 3 || i == 4 || i == 5 || i == 6 || i == 7 || i == 8 || i == 9 || i == 10 || i == 11 || i == 12 || i == 13 || i == 14 || i == 15 || i == 16 || i == 17 || i == 18 || i == 19 || i == 20 || i == 21 || i == 22 || i == 23 || i == 24 || i == 25 || i == 26 || i == 27 || i == 28 || i == 29 || i == 30 || i == 31 || i == 32 || i == 33 || i == 34 || i == 35 || i == 36 || i == 37 || i == 38 || i == 39 || i == 40 || i == 41 || i == 42 || i == 43 || i == 44 || i == 45 || i == 46 || i == 47 || i == 48 || i == 49 || i == 50 || i == 51);
    }
}

/// The entries of [`excel_extensions`], as literals.
proof fn lemma_excel_list(x: Seq<char>)
    ensures
        excel_extensions().contains(x) <==> (x == "xlsx"@
            || x == "xlsm"@
            || x == "xlsb"@
            || x == "xls"@),
{
    assert(excel_extensions()[0] == "xlsx"@);
    assert(excel_extensions()[1] == "xlsm"@);
    assert(excel_extensions()[2] == "xlsb"@);
    assert(excel_extensions()[3] == "xls"@);
    if excel_extensions().contains(x) {
        let i = choose|i: int| 0 <= i < excel_extensions().len() && excel_extensions()[i] == x;
        assert(i == 0 || i == 1 || i == 2 || i == 3);
    }
}

/// A path with a listed extension gets the parser of that list; the kind
/// claiming a path is the one the path gets.
proof fn lemma_claimer_is_chosen(path: Seq<char>, kind: ParserKind)
    requires
        kind.claims(path),
    ensures
        first_claiming(path) == Some(kind),
{
    lemma_parser_selection(path);
    lemma_claims_disjoint(path);
}

/// Which parser a path gets, by its extension lower-cased the ASCII way:
/// `txt`, `md`, `markdown`, `log`, `text` or no extension at all give the
/// plain text parser; `pdf` the PDF parser; `docx` the Word parser; `xlsx`,
/// `xlsm`, `xlsb`, `xls` the Excel parser; `xml` the XML parser; the listed
/// source-code extensions the code parser; any other extension none.
pub proof fn lemma_parser_by_extension(path: Seq<char>)
    ensures
        path_extension(path) is None ==> first_claiming(path) == Some(ParserKind::PlainText),
        path_extension(path) matches Some(e) && (ascii_lower_seq(e) == "txt"@ || ascii_lower_seq(e) == "md"@ || ascii_lower_seq(e) == "markdown"@ || ascii_lower_seq(e) == "log"@ || ascii_lower_seq(e) == "text"@) ==> first_claiming(path) == Some(
            ParserKind::PlainText,
        ),
        path_extension(path) matches Some(e) && ascii_lower_seq(e) == "pdf"@ ==> first_claiming(path)
            == Some(ParserKind::Pdf),
        path_extension(path) matches Some(e) && ascii_lower_seq(e) == "docx"@ ==> first_claiming(path)
            == Some(ParserKind::Docx),
        path_extension(path) matches Some(e) && (ascii_lower_seq(e) == "xlsx"@ || ascii_lower_seq(e) == "xlsm"@ || ascii_lower_seq(e) == "xlsb"@ || ascii_lower_seq(e) == "xls"@) ==> first_claiming(path) == Some(
            ParserKind::Excel,
        ),
        path_extension(path) matches Some(e) && ascii_lower_seq(e) == "xml"@ ==> first_claiming(path)
            == Some(ParserKind::Xml),
        path_extension(path) matches Some(e) && (ascii_lower_seq(e) == "java"@ || ascii_lower_seq(e) == "kt"@ || ascii_lower_seq(e) == "kts"@ || ascii_lower_seq(e) == "groovy"@ || ascii_lower_seq(e) == "gradle"@ || ascii_lower_seq(e) == "scala"@ || ascii_lower_seq(e) == "clj"@ || ascii_lower_seq(e) == "py"@ || ascii_lower_seq(e) == "rb"@ || ascii_lower_seq(e) == "pl"@ || ascii_lower_seq(e) == "php"@ || ascii_lower_seq(e) == "lua"@ || ascii_lower_seq(e) == "r"@ || ascii_lower_seq(e) == "sh"@ || ascii_lower_seq(e) == "bash"@ || ascii_lower_seq(e) == "zsh"@ || ascii_lower_seq(e) == "fish"@ || ascii_lower_seq(e) == "ps1"@ || ascii_lower_seq(e) == "psm1"@ || ascii_lower_seq(e) == "bat"@ || ascii_lower_seq(e) == "cmd"@ || ascii_lower_seq(e) == "c"@ || ascii_lower_seq(e) == "h"@ || ascii_lower_seq(e) == "cc"@ || ascii_lower_seq(e) == "cpp"@ || ascii_lower_seq(e) == "cxx"@ || ascii_lower_seq(e) == "hpp"@ || ascii_lower_seq(e) == "hh"@ || ascii_lower_seq(e) == "cs"@ || ascii_lower_seq(e) == "m"@ || ascii_lower_seq(e) == "mm"@ || ascii_lower_seq(e) == "js"@ || ascii_lower_seq(e) == "jsx"@ || ascii_lower_seq(e) == "mjs"@ || ascii_lower_seq(e) == "cjs"@ || ascii_lower_seq(e) == "ts"@ || ascii_lower_seq(e) == "tsx"@ || ascii_lower_seq(e) == "css"@ || ascii_lower_seq(e) == "scss"@ || ascii_lower_seq(e) == "sass"@ || ascii_lower_seq(e) == "less"@ || ascii_lower_seq(e) == "rs"@ || ascii_lower_seq(e) == "go"@ || ascii_lower_seq(e) == "swift"@ || ascii_lower_seq(e) == "sql"@ || ascii_lower_seq(e) == "toml"@ || ascii_lower_seq(e) == "yaml"@ || ascii_lower_seq(e) == "yml"@ || ascii_lower_seq(e) == "json"@ || ascii_lower_seq(e) == "ini"@ || ascii_lower_seq(e) == "cfg"@ || ascii_lower_seq(e) == "properties"@) ==> first_claiming(path) == Some(
            ParserKind::Code,
        ),
        path_extension(path) matches Some(e) && !(ascii_lower_seq(e) == "txt"@ || ascii_lower_seq(e) == "md"@ || ascii_lower_seq(e) == "markdown"@ || ascii_lower_seq(e) == "log"@ || ascii_lower_seq(e) == "text"@ || ascii_lower_seq(e) == "xlsx"@ || ascii_lower_seq(e) == "xlsm"@ || ascii_lower_seq(e) == "xlsb"@ || ascii_lower_seq(e) == "xls"@ || ascii_lower_seq(e) == "java"@ || ascii_lower_seq(e) == "kt"@ || ascii_lower_seq(e) == "kts"@ || ascii_lower_seq(e) == "groovy"@ || ascii_lower_seq(e) == "gradle"@ || ascii_lower_seq(e) == "scala"@ || ascii_lower_seq(e) == "clj"@ || ascii_lower_seq(e) == "py"@ || ascii_lower_seq(e) == "rb"@ || ascii_lower_seq(e) == "pl"@ || ascii_lower_seq(e) == "php"@ || ascii_lower_seq(e) == "lua"@ || ascii_lower_seq(e) == "r"@ || ascii_lower_seq(e) == "sh"@ || ascii_lower_seq(e) == "bash"@ || ascii_lower_seq(e) == "zsh"@ || ascii_lower_seq(e) == "fish"@ || ascii_lower_seq(e) == "ps1"@ || ascii_lower_seq(e) == "psm1"@ || ascii_lower_seq(e) == "bat"@ || ascii_lower_seq(e) == "cmd"@ || ascii_lower_seq(e) == "c"@ || ascii_lower_seq(e) == "h"@ || ascii_lower_seq(e) == "cc"@ || ascii_lower_seq(e) == "cpp"@ || ascii_lower_seq(e) == "cxx"@ || ascii_lower_seq(e) == "hpp"@ || ascii_lower_seq(e) == "hh"@ || ascii_lower_seq(e) == "cs"@ || ascii_lower_seq(e) == "m"@ || ascii_lower_seq(e) == "mm"@ || ascii_lower_seq(e) == "js"@ || ascii_lower_seq(e) == "jsx"@ || ascii_lower_seq(e) == "mjs"@ || ascii_lower_seq(e) == "cjs"@ || ascii_lower_seq(e) == "ts"@ || ascii_lower_seq(e) == "tsx"@ || ascii_lower_seq(e) == "css"@ || ascii_lower_seq(e) == "scss"@ || ascii_lower_seq(e) == "sass"@ || ascii_lower_seq(e) == "less"@ || ascii_lower_seq(e) == "rs"@ || ascii_lower_seq(e) == "go"@ || ascii_lower_seq(e) == "swift"@ || ascii_lower_seq(e) == "sql"@ || ascii_lower_seq(e) == "toml"@ || ascii_lower_seq(e) == "yaml"@ || ascii_lower_seq(e) == "yml"@ || ascii_lower_seq(e) == "json"@ || ascii_lower_seq(e) == "ini"@ || ascii_lower_seq(e) == "cfg"@ || ascii_lower_seq(e) == "properties"@ || ascii_lower_seq(e) == "pdf"@ || ascii_lower_seq(e) == "docx"@ || ascii_lower_seq(e) == "xml"@) ==> first_claiming(
            path,
        ) is None,
{
    lemma_parser_selection(path);
    match path_extension(path) {
        None => {
            lemma_extensionless_is_plain_text(path);
        },
        Some(e) => {
            let x = ascii_lower_seq(e);
            lemma_text_list(x);
            lemma_code_list(x);
            lemma_excel_list(x);
            assert(seq!["pdf"@][0] == "pdf"@);
            assert(seq!["docx"@][0] == "docx"@);
            assert(seq!["xml"@][0] == "xml"@);
            if seq!["pdf"@].contains(x) {
                let i = choose|i: int| 0 <= i < 1 && seq!["pdf"@][i] == x;
            }
            if seq!["docx"@].contains(x) {
                let i = choose|i: int| 0 <= i < 1 && seq!["docx"@][i] == x;
            }
            if seq!["xml"@].contains(x) {
                let i = choose|i: int| 0 <= i < 1 && seq!["xml"@][i] == x;
            }
            if PlainTextParser.claims(path) {
                lemma_claimer_is_chosen(path, ParserKind::PlainText);
            }
            if PdfParser.claims(path) {
                lemma_claimer_is_chosen(path, ParserKind::Pdf);
            }
            if DocxParser.claims(path) {
                lemma_claimer_is_chosen(path, ParserKind::Docx);
            }
            if ExcelParser.claims(path) {
                lemma_claimer_is_chosen(path, ParserKind::Excel);
            }
            if XmlParser.claims(path) {
                lemma_claimer_is_chosen(path, ParserKind::Xml);
            }
            if CodeParser.claims(path) {
                lemma_claimer_is_chosen(path, ParserKind::Code);
            }
        },
    }
}

/// Files without an extension are plain text: the plain text parser claims
/// them and no other parser does, so its place in the registration order
/// decides nothing for them.
pub proof fn lemma_extensionless_is_plain_text(path: Seq<char>)
    requires
        path_extension(path) is None,
    ensures
        first_claiming(path) == Some(ParserKind::PlainText),
        forall|j: int|
            0 < j < registered_parsers().len() ==> !#[trigger] registered_parsers()[j].claims(path),
{
    assert(registered_parsers()[0] == ParserKind::PlainText);
}

proof fn lemma_first_claiming_from(path: Seq<char>, i: int)
    requires
        0 <= i <= registered_parsers().len(),
    ensures
        first_claiming_from(path, i) matches Some(k) ==> k.claims(path) && exists|m: int|
            i <= m < registered_parsers().len() && registered_parsers()[m] == k && forall|j: int|
                i <= j < m ==> !#[trigger] registered_parsers()[j].claims(path),
        first_claiming_from(path, i) is None <==> forall|j: int|
            i <= j < registered_parsers().len() ==> !#[trigger] registered_parsers()[j].claims(path),
    decreases registered_parsers().len() - i,
{
    if i < registered_parsers().len() && !registered_parsers()[i].claims(path) {
        lemma_first_claiming_from(path, i + 1);
    }
}

/// `std::str::from_utf8`: the text the bytes encode, if they are valid
/// UTF-8.
#[verifier::external_body]
pub(crate) fn utf8_text(bytes: &[u8]) -> (r: Option<String>)
    ensures
        r is Some <==> vstd::utf8::valid_utf8(bytes@),
        r matches Some(s) ==> s@ == vstd::utf8::decode_utf8(bytes@),
{
    match std::str::from_utf8(bytes) {
        Ok(s) => Some(s.to_string()),
        Err(_) => None,
    }
}

} // verus!
