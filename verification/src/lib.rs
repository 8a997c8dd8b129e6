//! Document chunking, retrieval bookkeeping and token handling for a
//! retrieval-augmented question answering service over financial filings.

pub mod text;
pub mod clock;
pub mod pattern;
pub mod document_processor;
pub mod vector_store;
pub mod config;
pub mod crypto;
pub mod keyed;
pub mod auth;
pub mod document_queue;
pub mod rag_pipeline;
pub mod server;
