//! Multi-layer adaptive-threshold expansion search over a store of text
//! memories: threshold scheduling, layer-by-layer neighbourhood growth with
//! global de-duplication and budgets, flat and tree views of the outcome,
//! and how a reranker's ranking is applied to the candidates. Around this
//! core stand what a command-line program needs to feed it: settings and
//! their scopes, the choice of providers, documents and their sections.
//!
//! Similarity scores and thresholds are fixed-point: whole numbers of
//! millionths, so `600_000` stands for a similarity of 0.60. Vectors are
//! carried as the bit patterns of their components. Nothing here reads a
//! clock, a file or a socket but through the few functions of [`outside`].

pub mod config;
pub mod curate;
pub mod error;
pub mod expansion;
pub mod markdown;
pub mod models;
pub mod outside;
pub mod provider;
pub mod rerank;
pub mod schedule;
pub mod search;
pub mod store;
pub mod tags;
pub mod text;
pub mod time_filter;
pub mod trace;
pub mod tree;

pub use config::{Config, ConfigLoader, ConfigScope};
pub use error::ConfigError;
pub use expansion::{Expansion, SearchRequest};
pub use models::{MemoMetadata, MemoSection, Memory, MemoryBuilder, QueryResult};
pub use rerank::{RerankItem, RerankRequest};
pub use schedule::TreeSearchConfig;
pub use store::StorageBackend;
pub use time_filter::TimeRange;
pub use trace::{BranchReply, TraceNode};
pub use tree::{MemoryNode, MemoryTree};
