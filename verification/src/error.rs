//! What can be wrong with the settings of a run before any search starts.

use vstd::prelude::*;

verus! {

/// A fault in what the user asked for. It is found before the store is
/// asked anything.
#[derive(Debug, Clone, Copy, PartialEq, Eq, Structural)]
pub enum ConfigError {
    /// A time bound is written neither as a day nor as a day with hour and
    /// minute.
    InvalidDateFormat,
    /// A day was read, but no time of day could be attached to it.
    InvalidTimeOfDay,
    /// Both the local and the global scope were demanded.
    ConflictingScopes,
    /// The embedding provider needs a key and none is configured.
    MissingEmbeddingKey,
    /// No key for the reranker is configured.
    MissingRerankKey,
}

impl ConfigError {
    /// The message for the user.
    pub fn message(&self) -> (text: String)
        ensures
            text@ == self.message_spec(),
    {
        match self {
            ConfigError::InvalidDateFormat => {
                "Invalid date format. Use YYYY-MM-DD or YYYY-MM-DD HH:MM".to_owned()
            },
            ConfigError::InvalidTimeOfDay => "Failed to create datetime".to_owned(),
            ConfigError::ConflictingScopes => {
                "Cannot specify both --local and --global, please choose one".to_owned()
            },
            ConfigError::MissingEmbeddingKey => {
                "Missing required configuration: embedding_api_key".to_owned()
            },
            ConfigError::MissingRerankKey => {
                "Missing required configuration: rerank_api_key".to_owned()
            },
        }
    }

    /// The message for the user.
    pub open spec fn message_spec(&self) -> Seq<char> {
        match self {
            ConfigError::InvalidDateFormat => {
                "Invalid date format. Use YYYY-MM-DD or YYYY-MM-DD HH:MM"@
            },
            ConfigError::InvalidTimeOfDay => "Failed to create datetime"@,
            ConfigError::ConflictingScopes => {
                "Cannot specify both --local and --global, please choose one"@
            },
            ConfigError::MissingEmbeddingKey => {
                "Missing required configuration: embedding_api_key"@
            },
            ConfigError::MissingRerankKey => "Missing required configuration: rerank_api_key"@,
        }
    }
}

} // verus!
