//! Which embedding provider a configuration means, where it is reached, and
//! how long its vectors are.

use crate::outside::{contains_text, has_substring, lowercase, to_lowercase};
use vstd::prelude::*;

verus! {

/// The families of embedding providers, which differ in their wire format.
#[derive(Debug, Clone, Copy, PartialEq, Eq, Structural)]
pub enum ProviderType {
    ZhipuAI,
    OpenAI,
    Ollama,
}

impl ProviderType {
    /// The provider for a configured name in lower case; an unknown name
    /// means the default provider.
    pub open spec fn named_spec(lowered: Seq<char>) -> ProviderType {
        if lowered == "zhipu"@ || lowered == "zhipuai"@ || lowered == "bigmodel"@ {
            ProviderType::ZhipuAI
        } else if lowered == "ollama"@ {
            ProviderType::Ollama
        } else if lowered == "openai"@ {
            ProviderType::OpenAI
        } else {
            ProviderType::ZhipuAI
        }
    }

    /// The provider for a configured name in lower case.
    pub fn named(lowered: &String) -> (provider: ProviderType)
        ensures
            provider == Self::named_spec(lowered@),
    {
        if *lowered == "zhipu".to_owned() || *lowered == "zhipuai".to_owned() || *lowered
            == "bigmodel".to_owned() {
            ProviderType::ZhipuAI
        } else if *lowered == "ollama".to_owned() {
            ProviderType::Ollama
        } else if *lowered == "openai".to_owned() {
            ProviderType::OpenAI
        } else {
            ProviderType::ZhipuAI
        }
    }

    /// Where the provider is reached unless the settings say otherwise.
    pub open spec fn default_base_url_spec(&self) -> Seq<char> {
        match self {
            ProviderType::ZhipuAI => "https://open.bigmodel.cn/api/paas/v4"@,
            ProviderType::Ollama => "http://localhost:11434/api"@,
            ProviderType::OpenAI => "https://api.openai.com/v1"@,
        }
    }

    /// Where the provider is reached unless the settings say otherwise.
    pub fn default_base_url(&self) -> (url: String)
        ensures
            url@ == self.default_base_url_spec(),
    {
        match self {
            ProviderType::ZhipuAI => "https://open.bigmodel.cn/api/paas/v4".to_owned(),
            ProviderType::Ollama => "http://localhost:11434/api".to_owned(),
            ProviderType::OpenAI => "https://api.openai.com/v1".to_owned(),
        }
    }

    /// The provider that an address points to: a local address or one that
    /// names Ollama means Ollama, one of Zhipu's means Zhipu, any other an
    /// OpenAI-compatible service.
    pub open spec fn at_spec(url: Seq<char>) -> ProviderType {
        if has_substring(url, "localhost"@) || has_substring(url, "127.0.0.1"@) || has_substring(
            url,
            "ollama"@,
        ) {
            ProviderType::Ollama
        } else if has_substring(url, "bigmodel.cn"@) || has_substring(url, "zhipu"@) {
            ProviderType::ZhipuAI
        } else {
            ProviderType::OpenAI
        }
    }

    /// The provider that an address points to.
    pub fn at(url: &str) -> (provider: ProviderType)
        ensures
            provider == Self::at_spec(url@),
    {
        if contains_text(url, "localhost") || contains_text(url, "127.0.0.1") || contains_text(
            url,
            "ollama",
        ) {
            ProviderType::Ollama
        } else if contains_text(url, "bigmodel.cn") || contains_text(url, "zhipu") {
            ProviderType::ZhipuAI
        } else {
            ProviderType::OpenAI
        }
    }
}

/// The provider and address that the settings mean. A configured provider
/// name decides, whatever its case, and brings its own address where none
/// is configured; without a name the address decides; without either it is
/// the default provider at its own address.
pub open spec fn inferred_provider(base_url: Option<String>, provider: Option<String>) -> (
    ProviderType,
    Seq<char>,
) {
    match provider {
        Some(name) => {
            let kind = ProviderType::named_spec(lowercase(name@));
            match base_url {
                Some(url) => (kind, url@),
                None => (kind, kind.default_base_url_spec()),
            }
        },
        None => match base_url {
            Some(url) => (ProviderType::at_spec(url@), url@),
            None => (ProviderType::ZhipuAI, ProviderType::ZhipuAI.default_base_url_spec()),
        },
    }
}

/// Works out the provider and its address from the settings.
pub fn infer_provider(base_url: &Option<String>, provider: &Option<String>) -> (inferred: (
    ProviderType,
    String,
))
    ensures
        (inferred.0, inferred.1@) == inferred_provider(*base_url, *provider),
{
    match provider {
        Some(name) => {
            let lowered = to_lowercase(name.as_str());
            let kind = ProviderType::named(&lowered);
            match base_url {
                Some(url) => (kind, url.clone()),
                None => (kind, kind.default_base_url()),
            }
        },
        None => match base_url {
            Some(url) => (ProviderType::at(url.as_str()), url.clone()),
            None => (ProviderType::ZhipuAI, ProviderType::ZhipuAI.default_base_url()),
        },
    }
}

/// How long the vectors of a model are, going by its name.
pub open spec fn inferred_dimension(model: Seq<char>) -> usize {
    if model == "embedding-3"@ {
        2048
    } else if model == "embedding-2"@ {
        1024
    } else if has_substring(model, "text-embedding-3-large"@) {
        3072
    } else if has_substring(model, "text-embedding-3-small"@) || has_substring(
        model,
        "text-embedding-ada"@,
    ) {
        1536
    } else if has_substring(model, "nomic"@) {
        768
    } else if has_substring(model, "jina"@) && has_substring(model, "v3"@) {
        1024
    } else {
        2048
    }
}

/// Works out the length of a model's vectors from its name.
pub fn infer_dimension(model: &str) -> (dimension: usize)
    ensures
        dimension == inferred_dimension(model@),
{
    let name = model.to_owned();
    if name == "embedding-3".to_owned() {
        2048
    } else if name == "embedding-2".to_owned() {
        1024
    } else if contains_text(model, "text-embedding-3-large") {
        3072
    } else if contains_text(model, "text-embedding-3-small") || contains_text(
        model,
        "text-embedding-ada",
    ) {
        1536
    } else if contains_text(model, "nomic") {
        768
    } else if contains_text(model, "jina") && contains_text(model, "v3") {
        1024
    } else {
        2048
    }
}

/// The length of the vectors to expect: the configured one, else the one
/// that the model's name suggests.
pub fn embedding_dimension(configured: Option<usize>, model: &str) -> (dimension: usize)
    ensures
        dimension == match configured {
            Some(length) => length,
            None => inferred_dimension(model@),
        },
{
    match configured {
        Some(length) => length,
        None => infer_dimension(model),
    }
}

/// The length of the vectors of a store that is only read or tidied, where
/// no model is asked: the configured one, else 1536.
pub fn stored_dimension(configured: Option<usize>) -> (dimension: usize)
    ensures
        dimension == match configured {
            Some(length) => length,
            None => 1536,
        },
{
    match configured {
        Some(length) => length,
        None => 1536,
    }
}

/// Where the reranker is reached: the configured address, else Zhipu's.
pub fn rerank_base_url(configured: Option<String>) -> (url: String)
    ensures
        url@ == match configured {
            Some(address) => address@,
            None => "https://open.bigmodel.cn/api/paas/v4"@,
        },
{
    match configured {
        Some(address) => address,
        None => "https://open.bigmodel.cn/api/paas/v4".to_owned(),
    }
}

} // verus!
