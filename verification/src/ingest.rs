//! Adding a document: its fingerprint, whether it changed since it was last
//! stored, its chunks, and the chunks paired with their embeddings.
use vstd::prelude::*;

use crate::chunker::{chunk_text, chunks_of};
use crate::parser::{
    document_error, first_claiming, parsed_as, parser_for, parser_returns_on, parses, DocumentError,
    DocumentParser,
};
use crate::store::EmbeddedChunk;
use crate::text::{all_ws, chars_of, push_char};

verus! {

/// Characters per chunk.
pub const CHUNK_SIZE: usize = 1500;

/// Characters carried over between consecutive chunks.
pub const CHUNK_OVERLAP: usize = 200;

/// The MD5 digest of some bytes.
pub uninterp spec fn md5_of(bytes: Seq<u8>) -> Seq<u8>;

/// `md5::compute`: the 16 bytes of the MD5 digest of `bytes`.
#[verifier::external_body]
fn md5_digest(bytes: &[u8]) -> (r: Vec<u8>)
    ensures
        r@ == md5_of(bytes@),
        r@.len() == 16,
{
    md5::compute(bytes).0.to_vec()
}

/// The lower-case hexadecimal digit for a value below 16.
pub open spec fn hex_digit(d: u8) -> char {
    if d < 10 {
        ((d + 48) as u32) as char
    } else {
        ((d + 87) as u32) as char
    }
}

/// Bytes in lower-case hexadecimal, two digits each (`{:x}` of a digest).
pub open spec fn hex(bytes: Seq<u8>) -> Seq<char>
    decreases bytes.len(),
{
    if bytes.len() == 0 {
        Seq::empty()
    } else {
        hex(bytes.drop_last()).push(hex_digit(bytes.last() / 16)).push(hex_digit(bytes.last() % 16))
    }
}

fn hex_char(d: u8) -> (c: char)
    requires
        d < 16,
    ensures
        c == hex_digit(d),
{
    if d < 10 {
        ((d + 48) as u8) as char
    } else {
        ((d + 87) as u8) as char
    }
}

/// Bytes in lower-case hexadecimal.
pub fn to_hex(bytes: &[u8]) -> (r: String)
    ensures
        r@ == hex(bytes@),
{
    let mut r = String::new();
    let mut i: usize = 0;
    proof {
        assert(bytes@.subrange(0, 0) =~= Seq::<u8>::empty());
    }
    while i < bytes.len()
        invariant
            i <= bytes@.len(),
            r@ == hex(bytes@.subrange(0, i as int)),
        decreases bytes.len() - i,
    {
        let b = bytes[i];
        push_char(&mut r, hex_char(b / 16));
        push_char(&mut r, hex_char(b % 16));
        proof {
            let next = bytes@.subrange(0, i + 1);
            assert(next.drop_last() =~= bytes@.subrange(0, i as int));
            assert(next.last() == b);
        }
        i = i + 1;
    }
    proof {
        assert(bytes@.subrange(0, bytes@.len() as int) =~= bytes@);
    }
    r
}

/// What identifies a file's contents: its size and its MD5 digest in hex.
pub fn fingerprint(contents: &[u8]) -> (r: (u64, String))
    ensures
        r.0 == contents@.len(),
        r.1@ == hex(md5_of(contents@)),
{
    let digest = md5_digest(contents);
    (contents.len() as u64, to_hex(digest.as_slice()))
}

/// The file is unchanged since it was stored: the stored fingerprint has
/// the same size and hash.
pub fn is_unchanged(stored: &Option<(u64, String)>, size: u64, hash: &str) -> (r: bool)
    ensures
        r == (stored matches Some((s, h)) && s == size && h@ == hash@),
{
    match stored {
        None => false,
        Some((s, h)) => {
            if *s != size {
                return false;
            }
            let a = chars_of(h.as_str());
            let b = chars_of(hash);
            crate::parser::same_chars(&a, &b)
        },
    }
}

/// Why a document yields no chunks.
#[derive(Debug)]
pub enum IngestError {
    /// The document could not be parsed.
    Document(DocumentError),
    /// The document holds no text.
    NoText,
}

/// Picks the parser for `path`, extracts the text from `contents`, and
/// splits it into chunks of [`CHUNK_SIZE`] characters with
/// [`CHUNK_OVERLAP`] characters of overlap. A document without text is an
/// error.
pub fn document_chunks(path: &str, contents: &[u8]) -> (r: Result<Vec<String>, IngestError>)
    requires
        parser_returns_on(path@, contents@),
    ensures
        first_claiming(path@) is None ==> (r matches Err(
            IngestError::Document(DocumentError::Unsupported(p)),
        ) && p@ == path@),
        r matches Ok(chunks) ==> (first_claiming(path@) matches Some(kind) && exists|
            text: Seq<char>,
        |
            parsed_as(kind, path@, contents@, text) && !all_ws(text) && chunks@.map_values(|c: String| c@)
                == chunks_of(text, CHUNK_SIZE as int, CHUNK_OVERLAP as int)),
        r matches Err(IngestError::NoText) ==> (first_claiming(path@) matches Some(kind) && exists|
            text: Seq<char>,
        | parsed_as(kind, path@, contents@, text) && all_ws(text)),
        first_claiming(path@) matches Some(kind) ==> (r matches Err(IngestError::Document(_))
            <==> !parses(kind, path@, contents@)),
        r matches Err(IngestError::Document(e)) ==> document_error(path@, contents@, e),
{
    let kind = match parser_for(path) {
        Ok(k) => k,
        Err(e) => return Err(IngestError::Document(e)),
    };
    let text = match kind.parse(path, contents) {
        Ok(t) => t,
        Err(e) => return Err(IngestError::Document(e)),
    };
    let chunks = chunk_text(text.as_str(), CHUNK_SIZE, CHUNK_OVERLAP);
    proof {
        crate::chunker::lemma_chunking_laws(text@, CHUNK_SIZE as int, CHUNK_OVERLAP as int);
    }
    if chunks.len() == 0 {
        return Err(IngestError::NoText);
    }
    Ok(chunks)
}

/// The chunks paired with their embeddings, numbered from 0 in order.
pub open spec fn pairs_as_embedded(chunks: Seq<String>, embeddings: Seq<Vec<u32>>, result: Seq<
    EmbeddedChunk,
>) -> bool {
    &&& result.len() == chunks.len()
    &&& forall|i: int|
        0 <= i < result.len() ==> (#[trigger] result[i]).index == i && result[i].content
            == chunks[i] && result[i].embedding == embeddings[i]
}

/// Pairs each chunk with its embedding, numbering them in order.
pub fn embed_chunks(chunks: Vec<String>, embeddings: Vec<Vec<u32>>) -> (r: Vec<EmbeddedChunk>)
    requires
        chunks@.len() == embeddings@.len(),
    ensures
        pairs_as_embedded(chunks@, embeddings@, r@),
{
    let ghost cs = chunks@;
    let ghost es = embeddings@;
    let mut chunks = chunks;
    let mut embeddings = embeddings;
    let mut out: Vec<EmbeddedChunk> = Vec::new();
    let n = chunks.len();
    let mut i: usize = 0;
    while i < n
        invariant
            n == cs.len() == es.len(),
            i <= n,
            chunks@ == cs.subrange(i as int, n as int),
            embeddings@ == es.subrange(i as int, n as int),
            out@.len() == i,
            forall|k: int|
                0 <= k < i ==> (#[trigger] out@[k]).index == k && out@[k].content == cs[k]
                    && out@[k].embedding == es[k],
        decreases n - i,
    {
        let content = chunks.remove(0);
        let embedding = embeddings.remove(0);
        out.push(EmbeddedChunk { index: i, content, embedding });
        proof {
            assert(chunks@ =~= cs.subrange(i + 1, n as int));
            assert(embeddings@ =~= es.subrange(i + 1, n as int));
        }
        i = i + 1;
    }
    out
}

/// The stored fingerprint is that of `contents`: the same size and the same
/// MD5 hash.
pub open spec fn fingerprint_matches(stored: Option<(u64, String)>, contents: Seq<u8>) -> bool {
    stored matches Some((s, h)) && s == contents.len() && h@ == hex(md5_of(contents))
}

/// Adding a document again is idempotent: once the size and hash that
/// planning reports for some contents are stored, the stored fingerprint
/// matches those contents, so planning them again skips them; a change of
/// size makes it match no more.
pub proof fn lemma_readd_skips(contents: Seq<u8>, size: u64, hash: String, other: Seq<u8>)
    requires
        size == contents.len(),
        hash@ == hex(md5_of(contents)),
    ensures
        fingerprint_matches(Some((size, hash)), contents),
        other.len() != contents.len() ==> !fingerprint_matches(Some((size, hash)), other),
{
}

/// What adding a document comes to, once its contents are read.
#[derive(Debug)]
pub enum AddDecision {
    /// The stored fingerprint matches: nothing to do.
    Skip,
    /// The document cannot be parsed: record the error and fail.
    Fail(DocumentError),
    /// The document holds no text: fail without recording anything.
    NoText,
    /// Embed these chunks and store them.
    Embed(Vec<String>),
}

/// Decides what adding the document at `path` with the given contents does,
/// given the fingerprint stored for it: skip it when unchanged, else parse
/// and chunk it. Also returns the contents' size and hash.
pub fn plan_add(path: &str, contents: &[u8], stored: &Option<(u64, String)>) -> (r: (
    u64,
    String,
    AddDecision,
))
    requires
        !fingerprint_matches(*stored, contents@) ==> parser_returns_on(path@, contents@),
    ensures
        r.0 == contents@.len(),
        r.1@ == hex(md5_of(contents@)),
        (stored matches Some((s, h)) && s == r.0 && h@ == r.1@) <==> r.2 is Skip,
        r.2 is Skip <==> fingerprint_matches(*stored, contents@),
        r.2 matches AddDecision::Embed(chunks) ==> (first_claiming(path@) matches Some(kind)
            && exists|text: Seq<char>|
            parsed_as(kind, path@, contents@, text) && !all_ws(text) && chunks@.map_values(|c: String| c@)
                == chunks_of(text, CHUNK_SIZE as int, CHUNK_OVERLAP as int)),
        r.2 matches AddDecision::NoText ==> (first_claiming(path@) matches Some(kind) && exists|
            text: Seq<char>,
        | parsed_as(kind, path@, contents@, text) && all_ws(text)),
        !(r.2 is Skip) && first_claiming(path@) is None ==> (r.2 matches AddDecision::Fail(
            DocumentError::Unsupported(p),
        ) && p@ == path@),
        first_claiming(path@) matches Some(kind) ==> (!(r.2 is Skip) ==> (r.2 is Fail <==> !parses(
            kind,
            path@,
            contents@,
        ))),
        r.2 matches AddDecision::Fail(e) ==> document_error(path@, contents@, e),
{
    let (size, hash) = fingerprint(contents);
    if is_unchanged(stored, size, hash.as_str()) {
        return (size, hash, AddDecision::Skip);
    }
    let decision = match document_chunks(path, contents) {
        Ok(chunks) => AddDecision::Embed(chunks),
        Err(IngestError::NoText) => AddDecision::NoText,
        Err(IngestError::Document(e)) => AddDecision::Fail(e),
    };
    (size, hash, decision)
}

} // verus!
