//! What the vector store holds: documents, their chunks with embeddings,
//! and search results. Embedding components are carried as the IEEE-754
//! bit patterns of `f32` values, which is also how they are stored.
use vstd::prelude::*;

use crate::text::{decimal, push_decimal, push_str};

verus! {

/// A chunk of a document together with its embedding, ready to be stored.
#[derive(Debug)]
pub struct EmbeddedChunk {
    pub index: usize,
    pub content: String,
    /// The embedding, one `f32` bit pattern per dimension.
    pub embedding: Vec<u32>,
}

/// A stored chunk returned from a similarity search, best match first.
#[derive(Debug)]
pub struct SearchResult {
    pub source_path: String,
    pub content: String,
    /// Cosine similarity to the query, in [-1, 1], as an `f32` bit pattern.
    pub score: u32,
}

/// Summary of a stored document, as reported by `recent_documents`.
#[derive(Debug)]
pub struct StoredDocument {
    pub source_path: String,
    pub chunk_count: usize,
    /// When the document was (last) added, in the machine's local time zone.
    pub added_at: String,
    /// The parse error from the last failed `add`, if any.
    pub error: Option<String>,
}

/// The little-endian bytes of a 32-bit value.
pub open spec fn le_bytes(x: u32) -> Seq<u8> {
    seq![
        (x & 0xff) as u8,
        ((x >> 8u32) & 0xff) as u8,
        ((x >> 16u32) & 0xff) as u8,
        ((x >> 24u32) & 0xff) as u8,
    ]
}

/// The 32-bit value of four little-endian bytes.
pub open spec fn from_le(b0: u8, b1: u8, b2: u8, b3: u8) -> u32 {
    (b0 as u32) | ((b1 as u32) << 8u32) | ((b2 as u32) << 16u32) | ((b3 as u32) << 24u32)
}

/// An embedding as stored: each component's four bytes, little-endian, in
/// order.
pub open spec fn embedding_bytes(e: Seq<u32>) -> Seq<u8>
    decreases e.len(),
{
    if e.len() == 0 {
        Seq::empty()
    } else {
        embedding_bytes(e.drop_last()) + le_bytes(e.last())
    }
}

/// An embedding read back from bytes: every complete group of four bytes
/// gives one component; a shorter tail is ignored.
pub open spec fn embedding_from(b: Seq<u8>) -> Seq<u32> {
    Seq::new(
        b.len() / 4,
        |i: int| from_le(b[4 * i], b[4 * i + 1], b[4 * i + 2], b[4 * i + 3]),
    )
}

proof fn lemma_le_roundtrip(x: u32)
    ensures
        from_le(le_bytes(x)[0], le_bytes(x)[1], le_bytes(x)[2], le_bytes(x)[3]) == x,
{
    let b0 = (x & 0xff) as u8;
    let b1 = ((x >> 8u32) & 0xff) as u8;
    let b2 = ((x >> 16u32) & 0xff) as u8;
    let b3 = ((x >> 24u32) & 0xff) as u8;
    assert((b0 as u32) | ((b1 as u32) << 8u32) | ((b2 as u32) << 16u32) | ((b3 as u32) << 24u32)
        == x) by (bit_vector)
        requires
            b0 == (x & 0xff) as u8,
            b1 == ((x >> 8u32) & 0xff) as u8,
            b2 == ((x >> 16u32) & 0xff) as u8,
            b3 == ((x >> 24u32) & 0xff) as u8,
    ;
}

proof fn lemma_from_le_roundtrip(b0: u8, b1: u8, b2: u8, b3: u8)
    ensures
        le_bytes(from_le(b0, b1, b2, b3)) == seq![b0, b1, b2, b3],
{
    let x = from_le(b0, b1, b2, b3);
    assert((x & 0xff) as u8 == b0 && ((x >> 8u32) & 0xff) as u8 == b1 && ((x >> 16u32) & 0xff) as u8
        == b2 && ((x >> 24u32) & 0xff) as u8 == b3) by (bit_vector)
        requires
            x == (b0 as u32) | ((b1 as u32) << 8u32) | ((b2 as u32) << 16u32) | ((b3 as u32)
                << 24u32),
    ;
    assert(le_bytes(x) =~= seq![b0, b1, b2, b3]);
}

proof fn lemma_embedding_bytes_len(e: Seq<u32>)
    ensures
        embedding_bytes(e).len() == 4 * e.len(),
    decreases e.len(),
{
    if e.len() > 0 {
        lemma_embedding_bytes_len(e.drop_last());
    }
}

proof fn lemma_embedding_bytes_at(e: Seq<u32>, i: int)
    requires
        0 <= i < e.len(),
    ensures
        embedding_bytes(e).subrange(4 * i, 4 * i + 4) == le_bytes(e[i]),
    decreases e.len(),
{
    lemma_embedding_bytes_len(e.drop_last());
    let b = embedding_bytes(e);
    let p = embedding_bytes(e.drop_last());
    if i == e.len() - 1 {
        assert(b.subrange(4 * i, 4 * i + 4) =~= le_bytes(e.last()));
    } else {
        lemma_embedding_bytes_at(e.drop_last(), i);
        assert(b.subrange(4 * i, 4 * i + 4) =~= p.subrange(4 * i, 4 * i + 4));
    }
}

/// Storing an embedding loses nothing: reading its bytes back gives the
/// same components.
pub proof fn lemma_embedding_roundtrip(e: Seq<u32>)
    ensures
        embedding_from(embedding_bytes(e)) == e,
{
    let b = embedding_bytes(e);
    lemma_embedding_bytes_len(e);
    assert forall|i: int| 0 <= i < e.len() implies #[trigger] embedding_from(b)[i] == e[i] by {
        lemma_embedding_bytes_at(e, i);
        let w = b.subrange(4 * i, 4 * i + 4);
        assert(w[0] == b[4 * i] && w[1] == b[4 * i + 1] && w[2] == b[4 * i + 2] && w[3] == b[4 * i
            + 3]);
        lemma_le_roundtrip(e[i]);
    }
    assert(embedding_from(b) =~= e);
}

/// Bytes holding whole components survive reading and storing again.
pub proof fn lemma_bytes_roundtrip(b: Seq<u8>)
    requires
        b.len() % 4 == 0,
    ensures
        embedding_bytes(embedding_from(b)) == b,
    decreases b.len(),
{
    let e = embedding_from(b);
    lemma_embedding_bytes_len(e);
    let r = embedding_bytes(e);
    assert forall|j: int| 0 <= j < b.len() implies #[trigger] r[j] == b[j] by {
        let i = j / 4;
        lemma_embedding_bytes_at(e, i);
        lemma_from_le_roundtrip(b[4 * i], b[4 * i + 1], b[4 * i + 2], b[4 * i + 3]);
        let w = r.subrange(4 * i, 4 * i + 4);
        assert(w == seq![b[4 * i], b[4 * i + 1], b[4 * i + 2], b[4 * i + 3]]);
        assert(r[j] == w[j - 4 * i]);
    }
    assert(r =~= b);
}

/// The bytes an embedding is stored as: each component little-endian.
pub fn embedding_to_bytes(embedding: &[u32]) -> (r: Vec<u8>)
    ensures
        r@ == embedding_bytes(embedding@),
{
    let mut r: Vec<u8> = Vec::new();
    let mut i: usize = 0;
    proof {
        assert(embedding@.subrange(0, 0) =~= Seq::<u32>::empty());
    }
    while i < embedding.len()
        invariant
            i <= embedding@.len(),
            r@ == embedding_bytes(embedding@.subrange(0, i as int)),
        decreases embedding.len() - i,
    {
        let x = embedding[i];
        let ghost before = r@;
        r.push((x & 0xff) as u8);
        r.push(((x >> 8u32) & 0xff) as u8);
        r.push(((x >> 16u32) & 0xff) as u8);
        r.push(((x >> 24u32) & 0xff) as u8);
        proof {
            let next = embedding@.subrange(0, i + 1);
            assert(next.drop_last() =~= embedding@.subrange(0, i as int));
            assert(next.last() == x);
            assert(r@ =~= before + le_bytes(x));
        }
        i = i + 1;
    }
    proof {
        assert(embedding@.subrange(0, embedding@.len() as int) =~= embedding@);
    }
    r
}

/// Reads an embedding back from its stored bytes.
pub fn embedding_from_bytes(bytes: &[u8]) -> (r: Vec<u32>)
    ensures
        r@ == embedding_from(bytes@),
{
    let len = bytes.len();
    let n = len / 4;
    let mut r: Vec<u32> = Vec::new();
    let mut i: usize = 0;
    while i < n
        invariant
            len == bytes@.len(),
            n == bytes@.len() / 4,
            i <= n,
            r@ =~= embedding_from(bytes@).subrange(0, i as int),
        decreases n - i,
    {
        assert(4 * i + 3 < len) by (nonlinear_arith)
            requires
                i < n,
                n == len / 4,
        ;
        let k = 4 * i;
        let x = (bytes[k] as u32) | ((bytes[k + 1] as u32) << 8u32) | ((bytes[k + 2] as u32)
            << 16u32) | ((bytes[k + 3] as u32) << 24u32);
        r.push(x);
        i = i + 1;
    }
    r
}

/// How a stored document is listed: when it was added, its path, its chunk
/// count and, if its last add failed, the error.
pub open spec fn document_line(doc: StoredDocument) -> Seq<char> {
    doc.added_at@ + "  "@ + doc.source_path@ + " ("@ + decimal(doc.chunk_count as nat) + match doc.error {
        Some(e) => " chunk(s), error: "@ + e@ + ")"@,
        None => " chunk(s))"@,
    }
}

/// The line that lists a stored document.
pub fn describe_document(doc: &StoredDocument) -> (r: String)
    ensures
        r@ == document_line(*doc),
{
    let mut r = String::new();
    push_str(&mut r, doc.added_at.as_str());
    push_str(&mut r, "  ");
    push_str(&mut r, doc.source_path.as_str());
    push_str(&mut r, " (");
    push_decimal(&mut r, doc.chunk_count as u64);
    match &doc.error {
        Some(e) => {
            push_str(&mut r, " chunk(s), error: ");
            push_str(&mut r, e.as_str());
            push_str(&mut r, ")");
        },
        None => push_str(&mut r, " chunk(s))"),
    }
    proof {
        let head = doc.added_at@ + "  "@ + doc.source_path@ + " ("@ + decimal(doc.chunk_count as nat);
        match &doc.error {
            Some(e) => {
                assert(r@ =~= head + (" chunk(s), error: "@ + e@ + ")"@));
            },
            None => {
                assert(r@ =~= head + " chunk(s))"@);
            },
        }
    }
    r
}

/// The substring that selects stored documents by path: `*` selects all
/// of them, as the empty substring does.
pub fn path_filter(term: &str) -> (r: String)
    ensures
        r@ == if term@ == "*"@ {
            Seq::<char>::empty()
        } else {
            term@
        },
{
    let mut r = String::new();
    proof {
        reveal_strlit("*");
    }
    let v = crate::text::chars_of(term);
    if v.len() == 1 && v[0] == '*' {
        assert(term@ =~= "*"@);
        r
    } else {
        proof {
            if term@ == "*"@ {
                assert(v@[0] == '*');
            }
        }
        push_str(&mut r, term);
        assert(Seq::<char>::empty() + term@ =~= term@);
        r
    }
}

} // verus!
