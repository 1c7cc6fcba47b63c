use ragcli::config::{trim_trailing_slashes, Config, DEFAULT_CHAT_MODEL, DEFAULT_EMBEDDING_MODEL};
use ragcli::ingest::{
    document_chunks, embed_chunks, fingerprint, is_unchanged, plan_add, AddDecision, IngestError,
    CHUNK_SIZE,
};
use ragcli::llm::{chat_url, check_embedding_count, embed_url, ollama_failure};
use ragcli::parser::DocumentError;
use ragcli::path::normalize_absolute;

#[test]
fn config_requires_url_and_defaults_models() {
    assert!(Config::from_values(None, None, None).is_err());
    let c = Config::from_values(Some("http://localhost:11434//"), None, None).ok().unwrap();
    assert_eq!(c.ollama_url, "http://localhost:11434");
    assert_eq!(c.embedding_model, DEFAULT_EMBEDDING_MODEL);
    assert_eq!(c.chat_model, DEFAULT_CHAT_MODEL);
    let c = Config::from_values(Some("u"), Some("e".into()), Some("c".into())).ok().unwrap();
    assert_eq!((c.embedding_model.as_str(), c.chat_model.as_str()), ("e", "c"));
}

#[test]
fn trailing_slashes_are_trimmed() {
    assert_eq!(trim_trailing_slashes("a/b///"), "a/b");
    assert_eq!(trim_trailing_slashes("///"), "");
}

#[test]
fn endpoints_append_paths() {
    assert_eq!(chat_url("http://h:1/"), "http://h:1/api/chat");
    assert_eq!(embed_url("http://h:1"), "http://h:1/api/embed");
}

#[test]
fn failure_message_prefers_error_field() {
    assert_eq!(
        ollama_failure("404 Not Found", "m", "{\"error\":\"x\"}", Some("x")),
        "Ollama returned 404 Not Found for model 'm': x\nHint: pull the model first with `ollama pull m`"
    );
    assert_eq!(
        ollama_failure("500", "m", "raw body", None),
        "Ollama returned 500 for model 'm': raw body\nHint: pull the model first with `ollama pull m`"
    );
}

#[test]
fn embedding_count_must_match() {
    assert!(check_embedding_count(3, 3).is_ok());
    assert_eq!(
        check_embedding_count(2, 13).unwrap_err(),
        "Ollama returned 2 embeddings for 13 inputs"
    );
}

#[test]
fn fingerprint_is_size_and_md5_hex() {
    let (size, hash) = fingerprint(b"");
    assert_eq!(size, 0);
    assert_eq!(hash, "d41d8cd98f00b204e9800998ecf8427e");
    let (size, hash) = fingerprint(b"hello");
    assert_eq!(size, 5);
    assert_eq!(hash, "5d41402abc4b2a76b9719d911017c592");
}

#[test]
fn unchanged_needs_same_size_and_hash() {
    let stored = Some((5u64, "abc".to_string()));
    assert!(is_unchanged(&stored, 5, "abc"));
    assert!(!is_unchanged(&stored, 6, "abc"));
    assert!(!is_unchanged(&stored, 5, "abd"));
    assert!(!is_unchanged(&None, 5, "abc"));
}

#[test]
fn document_chunks_of_text_file() {
    let chunks = document_chunks("/x/notes.txt", b"  hello world \n").ok().unwrap();
    assert_eq!(chunks, vec!["hello world"]);
    let long = "word ".repeat(1000);
    let chunks = document_chunks("notes.md", long.as_bytes()).ok().unwrap();
    assert!(chunks.len() > 1);
    assert!(chunks.iter().all(|c| c.chars().count() <= CHUNK_SIZE));
}

#[test]
fn document_chunks_errors() {
    assert!(matches!(document_chunks("a.txt", b" \n\t "), Err(IngestError::NoText)));
    assert!(matches!(
        document_chunks("a.png", b"x"),
        Err(IngestError::Document(DocumentError::Unsupported(_)))
    ));
    assert!(matches!(
        document_chunks("a.xml", b"<a><b></a>"),
        Err(IngestError::Document(DocumentError::MalformedXml(_)))
    ));
}

#[test]
fn chunks_are_numbered_with_their_embeddings() {
    let out = embed_chunks(vec!["a".into(), "b".into()], vec![vec![1], vec![2, 3]]);
    assert_eq!(out.len(), 2);
    assert_eq!((out[0].index, out[0].content.as_str(), out[0].embedding.clone()), (0, "a", vec![1]));
    assert_eq!((out[1].index, out[1].content.as_str(), out[1].embedding.clone()), (1, "b", vec![2, 3]));
}

#[test]
fn absolute_paths_are_cleaned_lexically() {
    assert_eq!(normalize_absolute("/a/./b/../c//d/"), "/a/c/d");
    assert_eq!(normalize_absolute("/../x"), "/x");
    assert_eq!(normalize_absolute("/"), "/");
    assert_eq!(normalize_absolute("/cwd/no-such-dir/../missing.txt"), "/cwd/missing.txt");
}

#[test]
fn plan_add_skips_unchanged_and_chunks_changed() {
    let bytes = b"some notes";
    let (size, hash, decision) = plan_add("n.txt", bytes, &None);
    assert_eq!(size, 10);
    match decision {
        AddDecision::Embed(chunks) => assert_eq!(chunks, vec!["some notes"]),
        other => panic!("unexpected {other:?}"),
    }
    let stored = Some((size, hash));
    let (_, _, decision) = plan_add("n.txt", bytes, &stored);
    assert!(matches!(decision, AddDecision::Skip));
    let (_, _, decision) = plan_add("n.txt", b"changed", &stored);
    assert!(matches!(decision, AddDecision::Embed(_)));
    let (_, _, decision) = plan_add("n.bin", b"x", &None);
    assert!(matches!(decision, AddDecision::Fail(DocumentError::Unsupported(_))));
    let (_, _, decision) = plan_add("n.txt", b"   ", &None);
    assert!(matches!(decision, AddDecision::NoText));
}

#[test]
fn failed_parse_passes_the_parser_error_on() {
    let (_, _, decision) = plan_add("a.xml", b"<a><b></a>", &None);
    match decision {
        AddDecision::Fail(e) => {
            assert!(matches!(e, DocumentError::MalformedXml(ref d) if !d.is_empty()));
            assert!(e.message().starts_with("malformed XML: "));
        }
        other => panic!("unexpected {other:?}"),
    }
    let (_, _, decision) = plan_add("a.docx", b"not a zip", &None);
    match decision {
        AddDecision::Fail(e) => {
            assert!(matches!(e, DocumentError::NotZip(ref p, _) if p == "a.docx"));
        }
        other => panic!("unexpected {other:?}"),
    }
}
