//! Service configuration and its defaults.

use vstd::prelude::*;

use crate::text::string_from;

verus! {

/// Where and how the HTTP server listens.
#[derive(Clone, Debug)]
pub struct ServerConfig {
    pub bind_addr: String,
    pub max_connections: usize,
    pub request_timeout_secs: u64,
    pub max_body_size_mb: usize,
    pub cors_origins: Vec<String>,
}

/// The model server and the models used on it.
#[derive(Clone, Debug)]
pub struct OllamaConfig {
    pub url: String,
    pub embedding_model: String,
    pub llm_model: String,
    pub embedding_batch_size: usize,
    pub request_timeout_secs: u64,
}

/// Chunking and retrieval settings (the minimum similarity score, a
/// floating-point value, is kept beside this by the service).
#[derive(Clone, Debug)]
pub struct RagConfig {
    pub chunk_size: usize,
    pub chunk_overlap: usize,
    pub top_k: usize,
    pub max_context_tokens: usize,
    pub system_prompt: String,
}

/// Token authentication and rate limiting.
#[derive(Clone, Debug)]
pub struct AuthConfig {
    pub enabled: bool,
    pub jwt_secret: String,
    pub jwt_expiry_hours: i64,
    pub rate_limit_per_minute: u32,
}

/// Where vectors are kept.
#[derive(Clone, Debug)]
pub struct StorageConfig {
    pub sled_path: String,
    pub vector_cache_size_mb: usize,
}

/// The whole configuration.
#[derive(Clone, Debug)]
pub struct AppConfig {
    pub server: ServerConfig,
    pub ollama: OllamaConfig,
    pub rag: RagConfig,
    pub auth: AuthConfig,
    pub storage: StorageConfig,
}

/// The default instructions given to the language model.
pub const DEFAULT_SYSTEM_PROMPT: &'static str = "You are a financial document analyst. Answer the user's question based ONLY on the provided context from financial filings.\n\nRules:\n1. If the answer is not in the context, say \"This information is not available in the provided document.\"\n2. Cite the source section for each claim.\n3. For numerical data, present it clearly.\n4. Do not make assumptions or use external knowledge.";

/// The default address to listen on.
pub const DEFAULT_BIND_ADDR: &'static str = "127.0.0.1:3000";

/// The default model server.
pub const DEFAULT_OLLAMA_URL: &'static str = "http://localhost:11434";

/// The default embedding model.
pub const DEFAULT_EMBEDDING_MODEL: &'static str = "nomic-embed-text";

/// The default language model.
pub const DEFAULT_LLM_MODEL: &'static str = "llama3.1:8b";

/// The default token signing secret, meant to be replaced.
pub const DEFAULT_JWT_SECRET: &'static str = "change-me-in-production";

/// The default vector storage path.
pub const DEFAULT_SLED_PATH: &'static str = "./data/vectors.sled";

/// The origin pattern that admits every origin.
pub const ANY_ORIGIN: &'static str = "*";

impl Default for AppConfig {
    fn default() -> (res: Self)
        ensures
            res.server.bind_addr@ == DEFAULT_BIND_ADDR@,
            res.server.max_connections == 1000,
            res.server.request_timeout_secs == 120,
            res.server.max_body_size_mb == 100,
            res.server.cors_origins@.len() == 1,
            res.server.cors_origins@[0]@ == ANY_ORIGIN@,
            res.ollama.url@ == DEFAULT_OLLAMA_URL@,
            res.ollama.embedding_model@ == DEFAULT_EMBEDDING_MODEL@,
            res.ollama.llm_model@ == DEFAULT_LLM_MODEL@,
            res.ollama.embedding_batch_size == 10,
            res.ollama.request_timeout_secs == 120,
            res.rag.chunk_size == 800,
            res.rag.chunk_overlap == 150,
            res.rag.top_k == 5,
            res.rag.max_context_tokens == 4096,
            res.rag.system_prompt@ == DEFAULT_SYSTEM_PROMPT@,
            !res.auth.enabled,
            res.auth.jwt_secret@ == DEFAULT_JWT_SECRET@,
            res.auth.jwt_expiry_hours == 24,
            res.auth.rate_limit_per_minute == 60,
            res.storage.sled_path@ == DEFAULT_SLED_PATH@,
            res.storage.vector_cache_size_mb == 256,
    {
        let mut origins: Vec<String> = Vec::new();
        origins.push(string_from(ANY_ORIGIN));
        AppConfig {
            server: ServerConfig {
                bind_addr: string_from(DEFAULT_BIND_ADDR),
                max_connections: 1000,
                request_timeout_secs: 120,
                max_body_size_mb: 100,
                cors_origins: origins,
            },
            ollama: OllamaConfig {
                url: string_from(DEFAULT_OLLAMA_URL),
                embedding_model: string_from(DEFAULT_EMBEDDING_MODEL),
                llm_model: string_from(DEFAULT_LLM_MODEL),
                embedding_batch_size: 10,
                request_timeout_secs: 120,
            },
            rag: RagConfig {
                chunk_size: 800,
                chunk_overlap: 150,
                top_k: 5,
                max_context_tokens: 4096,
                system_prompt: string_from(DEFAULT_SYSTEM_PROMPT),
            },
            auth: AuthConfig {
                enabled: false,
                jwt_secret: string_from(DEFAULT_JWT_SECRET),
                jwt_expiry_hours: 24,
                rate_limit_per_minute: 60,
            },
            storage: StorageConfig {
                sled_path: string_from(DEFAULT_SLED_PATH),
                vector_cache_size_mb: 256,
            },
        }
    }
}

} // verus!
