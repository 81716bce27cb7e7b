//! Retrieval-augmented generation (RAG): chunks of documents, the tokenizer
//! of the embedding model, and the ranking of chunks for a query.

pub mod chunks;
pub mod store;
pub mod tokenizer;

pub use chunks::{load_documents, MAX_CHUNK_CHARS};
pub use store::{RagStore, DEFAULT_MAX_SEQ_LEN, DEFAULT_RAG_MODEL};
