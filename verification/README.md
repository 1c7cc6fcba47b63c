# ragcli

A retrieval-augmented question answering tool: documents are parsed, cut
into overlapping chunks, embedded by an Ollama server and stored in SQLite;
questions are answered from the closest chunks.

## Layout

- `src/` is the library, verified with Verus. It holds the document logic:
  choosing a parser by file extension, extracting text from plain text,
  code, XML, Word (`.docx`), Excel and PDF files, chunking text for
  embedding, fingerprinting documents, encoding embeddings for storage, and
  building prompts, previews and messages. Calls into quick-xml, zip,
  calamine, pdf-extract and md5 go through small trusted wrappers whose
  contracts are stated in their doc comments; everything around them is
  proved.
- `app/` is the command-line program: argument parsing, reading files,
  HTTP calls to Ollama and the SQLite store.
- `tests/` runs the library on concrete inputs.

## Limits

pdf-extract panics on some malformed PDFs, and calamine on some malformed
workbooks. The parsers that use them, and `ingest::document_chunks` and
`ingest::plan_add`, require that these libraries return on the bytes at
hand (`DocumentParser::returns_on`). Nothing can test that beforehand, so
the program, like any caller, panics on such files.
