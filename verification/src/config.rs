//! Settings: their defaults, where they are loaded from, and what must be
//! in them before a provider can be called.

use crate::error::ConfigError;
use crate::outside::{
    contains_text, has_substring, home_directory, join_path, lowercase, to_lowercase,
};
use vstd::prelude::*;

verus! {

/// Which settings a run should use.
#[derive(Debug, Clone, Copy, PartialEq, Eq, Structural)]
pub enum ConfigScope {
    /// The local settings if there are any, else the global ones, else the
    /// defaults.
    Auto,
    /// The settings of the current directory.
    Local,
    /// The settings of the user.
    Global,
}

/// One of the two places settings are kept in.
#[derive(Debug, Clone, Copy, PartialEq, Eq, Structural)]
pub enum ConfigFile {
    Local,
    Global,
}

/// What loading the settings comes to: which file to read, if any, and
/// whether the database is the one of the current directory whatever the
/// file says.
#[derive(Debug, Clone, Copy, PartialEq, Eq, Structural)]
pub struct LoadPlan {
    pub read: Option<ConfigFile>,
    pub local_brain: bool,
}

/// Loads settings for one scope.
#[derive(Debug, Clone, Copy, PartialEq, Eq)]
pub struct ConfigLoader {
    scope: ConfigScope,
}

impl ConfigLoader {
    /// The scope this loader was made for.
    pub closed spec fn scope(&self) -> ConfigScope {
        self.scope
    }

    /// The plan for a scope: a forced scope reads its own file if there is
    /// one; otherwise local settings, if they count, come before global
    /// ones, and those before the defaults. Local settings always go with
    /// the local database.
    pub open spec fn plan_spec(
        &self,
        local_counts: bool,
        local_exists: bool,
        global_exists: bool,
    ) -> LoadPlan {
        match self.scope() {
            ConfigScope::Local => LoadPlan {
                read: if local_exists {
                    Some(ConfigFile::Local)
                } else {
                    None
                },
                local_brain: true,
            },
            ConfigScope::Global => LoadPlan {
                read: if global_exists {
                    Some(ConfigFile::Global)
                } else {
                    None
                },
                local_brain: false,
            },
            ConfigScope::Auto => if local_counts {
                LoadPlan {
                    read: if local_exists {
                        Some(ConfigFile::Local)
                    } else {
                        None
                    },
                    local_brain: true,
                }
            } else if global_exists {
                LoadPlan { read: Some(ConfigFile::Global), local_brain: false }
            } else {
                LoadPlan { read: None, local_brain: false }
            },
        }
    }

    /// A loader for `scope`.
    pub fn new(scope: ConfigScope) -> (loader: Self)
        ensures
            loader.scope() == scope,
    {
        ConfigLoader { scope }
    }

    /// Decides what to load, given whether local settings count (see
    /// [`Config::has_local_config`]) and which of the two files exist.
    pub fn plan(&self, local_counts: bool, local_exists: bool, global_exists: bool) -> (plan:
        LoadPlan)
        ensures
            plan == self.plan_spec(local_counts, local_exists, global_exists),
    {
        match self.scope {
            ConfigScope::Local => LoadPlan {
                read: if local_exists {
                    Some(ConfigFile::Local)
                } else {
                    None
                },
                local_brain: true,
            },
            ConfigScope::Global => LoadPlan {
                read: if global_exists {
                    Some(ConfigFile::Global)
                } else {
                    None
                },
                local_brain: false,
            },
            ConfigScope::Auto => {
                if local_counts {
                    LoadPlan {
                        read: if local_exists {
                            Some(ConfigFile::Local)
                        } else {
                            None
                        },
                        local_brain: true,
                    }
                } else if global_exists {
                    LoadPlan { read: Some(ConfigFile::Global), local_brain: false }
                } else {
                    LoadPlan { read: None, local_brain: false }
                }
            },
        }
    }
}

/// Where the database lies unless the settings say otherwise: `brain`
/// under the user's settings directory.
pub fn default_brain_path() -> String {
    let base = Config::global_memo_dir();
    join_path(base.as_str(), "brain")
}

/// No key.
pub fn default_embedding_api_key() -> (key: String)
    ensures
        key@ == Seq::<char>::empty(),
{
    String::new()
}

/// The embedding model used unless the settings name one.
pub fn default_embedding_model() -> (model: String)
    ensures
        model@ == "embedding-3"@,
{
    "embedding-3".to_owned()
}

/// How many results a search returns unless asked otherwise.
pub fn default_search_limit() -> (limit: usize)
    ensures
        limit == 5,
{
    5
}

/// The similarity a result must reach unless asked otherwise: 0.3.
pub fn default_similarity_threshold() -> (threshold: i64)
    ensures
        threshold == 300_000,
{
    300_000
}

/// The similarity from which a new text counts as a duplicate of a stored
/// one: 0.85.
pub fn default_duplicate_threshold() -> (threshold: i64)
    ensures
        threshold == 850_000,
{
    850_000
}

/// The rerank model used unless the settings name one.
pub fn default_rerank_model() -> (model: String)
    ensures
        model@ == "rerank"@,
{
    "rerank".to_owned()
}

/// No key.
pub fn default_rerank_api_key() -> (key: String)
    ensures
        key@ == Seq::<char>::empty(),
{
    String::new()
}

/// The settings of a run. Thresholds are in millionths, paths are text.
#[derive(Debug, Clone, PartialEq, Eq)]
pub struct Config {
    pub brain_path: String,
    pub model_cache_dir: Option<String>,
    pub embedding_provider: Option<String>,
    pub embedding_base_url: Option<String>,
    pub embedding_api_key: String,
    pub embedding_model: String,
    pub embedding_dimension: Option<usize>,
    pub rerank_base_url: Option<String>,
    pub rerank_api_key: String,
    pub rerank_model: String,
    pub search_limit: usize,
    pub similarity_threshold: i64,
    pub duplicate_threshold: i64,
}

impl Default for Config {
    fn default() -> (config: Self)
        ensures
            config.has_default_values(),
    {
        Config::with_brain_path(default_brain_path())
    }
}

impl Config {
    /// Everything but the database path is as the defaults have it.
    pub open spec fn has_default_values(&self) -> bool {
        &&& self.model_cache_dir is None
        &&& self.embedding_provider is None
        &&& self.embedding_base_url is None
        &&& self.embedding_api_key@ == Seq::<char>::empty()
        &&& self.embedding_model@ == "embedding-3"@
        &&& self.embedding_dimension is None
        &&& self.rerank_base_url is None
        &&& self.rerank_api_key@ == Seq::<char>::empty()
        &&& self.rerank_model@ == "rerank"@
        &&& self.search_limit == 5
        &&& self.similarity_threshold == 300_000
        &&& self.duplicate_threshold == 850_000
    }

    /// The default settings for a database at `brain_path`.
    pub fn with_brain_path(brain_path: String) -> (config: Config)
        ensures
            config.has_default_values(),
            config.brain_path@ == brain_path@,
    {
        Config {
            brain_path,
            model_cache_dir: None,
            embedding_provider: None,
            embedding_base_url: None,
            embedding_api_key: default_embedding_api_key(),
            embedding_model: default_embedding_model(),
            embedding_dimension: None,
            rerank_base_url: None,
            rerank_api_key: default_rerank_api_key(),
            rerank_model: default_rerank_model(),
            search_limit: default_search_limit(),
            similarity_threshold: default_similarity_threshold(),
            duplicate_threshold: default_duplicate_threshold(),
        }
    }

    /// The user's settings directory: `.memo` under the home directory, or
    /// under the current directory where no home is known.
    pub fn global_memo_dir() -> String {
        let base = settings_base(home_directory());
        join_path(base.as_str(), ".memo")
    }

    /// Whether local settings count: there is a settings file in the
    /// current directory, and that directory is not the user's home, whose
    /// settings are the global ones.
    pub fn has_local_config(current_is_home: bool, local_exists: bool) -> (counts: bool)
        ensures
            counts == (!current_is_home && local_exists),
    {
        !current_is_home && local_exists
    }

    /// Refuses a demand for both scopes at once.
    pub fn validate_scope_flags(local: bool, global: bool) -> (outcome: Result<(), ConfigError>)
        ensures
            outcome == if local && global {
                Err::<(), ConfigError>(ConfigError::ConflictingScopes)
            } else {
                Ok::<(), ConfigError>(())
            },
    {
        if local && global {
            Err(ConfigError::ConflictingScopes)
        } else {
            Ok(())
        }
    }

    /// The scope for the two flags of the command line.
    pub open spec fn scope_spec(force_local: bool, force_global: bool) -> Result<
        ConfigScope,
        ConfigError,
    > {
        if force_local && force_global {
            Err(ConfigError::ConflictingScopes)
        } else if force_local {
            Ok(ConfigScope::Local)
        } else if force_global {
            Ok(ConfigScope::Global)
        } else {
            Ok(ConfigScope::Auto)
        }
    }

    /// The scope for the two flags of the command line: a forced one where
    /// one flag is set, a fault where both are.
    pub fn scope_for(force_local: bool, force_global: bool) -> (outcome: Result<
        ConfigScope,
        ConfigError,
    >)
        ensures
            outcome == Self::scope_spec(force_local, force_global),
    {
        match Self::validate_scope_flags(force_local, force_global) {
            Err(fault) => Err(fault),
            Ok(()) => {
                if force_local {
                    Ok(ConfigScope::Local)
                } else if force_global {
                    Ok(ConfigScope::Global)
                } else {
                    Ok(ConfigScope::Auto)
                }
            },
        }
    }

    /// Whether a run under these flags is local.
    pub open spec fn is_local_run(force_local: bool, force_global: bool, local_counts: bool) -> bool {
        force_local || (!force_global && local_counts)
    }

    /// The name of the scope a run works in, `local` or `global`: a forced
    /// scope, the local flag first, else local where local settings count.
    pub fn get_scope_name(force_local: bool, force_global: bool, local_counts: bool) -> (name:
        &'static str)
        ensures
            name@ == if Self::is_local_run(force_local, force_global, local_counts) {
                "local"@
            } else {
                "global"@
            },
    {
        if force_local {
            "local"
        } else if force_global {
            "global"
        } else if local_counts {
            "local"
        } else {
            "global"
        }
    }

    /// Whether the embedding provider is a local Ollama: by the provider's
    /// name where one is configured, whatever its case; else by the look
    /// of the address.
    pub open spec fn is_ollama_spec(&self) -> bool {
        match self.embedding_provider {
            Some(name) => lowercase(name@) == "ollama"@,
            None => match self.embedding_base_url {
                Some(url) => has_substring(url@, "ollama"@) || has_substring(url@, "11434"@),
                None => false,
            },
        }
    }

    /// Whether the embedding provider is a local Ollama.
    pub fn is_ollama(&self) -> (local: bool)
        ensures
            local == self.is_ollama_spec(),
    {
        match &self.embedding_provider {
            Some(name) => lowered_is_ollama(to_lowercase(name.as_str())),
            None => match &self.embedding_base_url {
                Some(url) => contains_text(url.as_str(), "ollama") || contains_text(
                    url.as_str(),
                    "11434",
                ),
                None => false,
            },
        }
    }

    /// Which key is missing, if any: the embedding key unless the provider
    /// is Ollama, which needs none; then the rerank key.
    pub open spec fn missing_key(&self) -> Result<(), ConfigError> {
        if !self.is_ollama_spec() && self.embedding_api_key@.len() == 0 {
            Err(ConfigError::MissingEmbeddingKey)
        } else if self.rerank_api_key@.len() == 0 {
            Err(ConfigError::MissingRerankKey)
        } else {
            Ok(())
        }
    }

    /// Makes sure the keys the providers need are configured.
    pub fn validate_api_key(&self) -> (outcome: Result<(), ConfigError>)
        ensures
            outcome == self.missing_key(),
    {
        keys_present(self.is_ollama(), &self.embedding_api_key, &self.rerank_api_key)
    }
}

/// Whether a provider's name, already in lower case, is Ollama's.
pub fn lowered_is_ollama(lowered: String) -> (local: bool)
    ensures
        local == (lowered@ == "ollama"@),
{
    lowered == "ollama".to_owned()
}

/// Which key is missing, given whether the embedding provider is Ollama.
pub fn keys_present(ollama: bool, embedding_key: &String, rerank_key: &String) -> (outcome: Result<
    (),
    ConfigError,
>)
    ensures
        outcome == if !ollama && embedding_key@.len() == 0 {
            Err::<(), ConfigError>(ConfigError::MissingEmbeddingKey)
        } else if rerank_key@.len() == 0 {
            Err::<(), ConfigError>(ConfigError::MissingRerankKey)
        } else {
            Ok::<(), ConfigError>(())
        },
{
    if !ollama && embedding_key.as_str().is_empty() {
        Err(ConfigError::MissingEmbeddingKey)
    } else if rerank_key.as_str().is_empty() {
        Err(ConfigError::MissingRerankKey)
    } else {
        Ok(())
    }
}

/// Under which directory the user's settings directory lies: the home
/// directory, or the current directory where no home is known.
pub fn settings_base(home: Option<String>) -> (base: String)
    ensures
        base@ == match home {
            Some(path) => path@,
            None => "."@,
        },
{
    match home {
        Some(path) => path,
        None => ".".to_owned(),
    }
}

} // verus!
