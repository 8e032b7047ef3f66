//! Retrieval core of a single-document question-answering assistant:
//! quantised embeddings, an in-memory vector index ranked by cosine
//! similarity, prompt assembly, loader outcomes and the chat state machine.

pub mod vector;
pub mod score;
pub mod index;
pub mod text;
pub mod error;
pub mod loader;
pub mod chat;
pub mod prompt;
pub mod config;
