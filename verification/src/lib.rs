//! Document ingestion and question answering over a local vector store:
//! picking a parser by file type, extracting text from plain text, code,
//! XML, Word, Excel and PDF files, chunking it for embedding, and building
//! the prompts, listings and messages around embedding and answering.
pub mod answer;
pub mod chunker;
pub mod config;
pub mod ingest;
pub mod llm;
pub mod markup;
pub mod parser;
pub mod path;
pub mod store;
pub mod text;
