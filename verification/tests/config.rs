use memo::config::{
    default_brain_path, default_duplicate_threshold, default_embedding_api_key,
    default_embedding_model, default_rerank_api_key, default_rerank_model, default_search_limit,
    default_similarity_threshold, keys_present, lowered_is_ollama, ConfigFile, LoadPlan,
};
use memo::provider::{
    embedding_dimension, infer_dimension, infer_provider, rerank_base_url, ProviderType,
};
use memo::text::normalize_for_embedding;
use memo::{Config, ConfigError, ConfigLoader, ConfigScope};

#[test]
fn defaults_are_as_documented() {
    assert_eq!(default_embedding_api_key(), "");
    assert_eq!(default_embedding_model(), "embedding-3");
    assert_eq!(default_search_limit(), 5);
    assert_eq!(default_similarity_threshold(), 300_000);
    assert_eq!(default_duplicate_threshold(), 850_000);
    assert_eq!(default_rerank_model(), "rerank");
    assert_eq!(default_rerank_api_key(), "");
}

#[test]
fn default_database_lies_under_the_settings_directory() {
    let brain = default_brain_path();
    let base = Config::global_memo_dir();
    assert!(base.ends_with(".memo"));
    assert!(brain.starts_with(&base));
    assert!(brain.ends_with("brain"));
    assert_eq!(brain.len(), base.len() + 1 + "brain".len());
}

#[test]
fn default_config_uses_the_defaults() {
    let config = Config::default();
    assert_eq!(config.brain_path, default_brain_path());
    assert_eq!(config, Config::with_brain_path(default_brain_path()));
    assert_eq!(config.model_cache_dir, None);
    assert_eq!(config.embedding_provider, None);
    assert_eq!(config.embedding_base_url, None);
    assert_eq!(config.embedding_api_key, "");
    assert_eq!(config.embedding_model, "embedding-3");
    assert_eq!(config.embedding_dimension, None);
    assert_eq!(config.rerank_base_url, None);
    assert_eq!(config.rerank_api_key, "");
    assert_eq!(config.rerank_model, "rerank");
    assert_eq!(config.search_limit, 5);
    assert_eq!(config.similarity_threshold, 300_000);
    assert_eq!(config.duplicate_threshold, 850_000);
}

#[test]
fn both_scopes_at_once_are_refused() {
    assert_eq!(Config::validate_scope_flags(true, true), Err(ConfigError::ConflictingScopes));
    assert_eq!(Config::validate_scope_flags(true, false), Ok(()));
    assert_eq!(Config::validate_scope_flags(false, true), Ok(()));
    assert_eq!(Config::validate_scope_flags(false, false), Ok(()));
    assert_eq!(Config::scope_for(true, true), Err(ConfigError::ConflictingScopes));
    assert_eq!(Config::scope_for(true, false), Ok(ConfigScope::Local));
    assert_eq!(Config::scope_for(false, true), Ok(ConfigScope::Global));
    assert_eq!(Config::scope_for(false, false), Ok(ConfigScope::Auto));
}

#[test]
fn scope_name_follows_flags_then_local_settings() {
    assert_eq!(Config::get_scope_name(true, false, false), "local");
    assert_eq!(Config::get_scope_name(true, true, false), "local");
    assert_eq!(Config::get_scope_name(false, true, true), "global");
    assert_eq!(Config::get_scope_name(false, false, true), "local");
    assert_eq!(Config::get_scope_name(false, false, false), "global");
}

#[test]
fn home_directory_never_counts_as_local() {
    assert!(Config::has_local_config(false, true));
    assert!(!Config::has_local_config(true, true));
    assert!(!Config::has_local_config(false, false));
    assert!(!Config::has_local_config(true, false));
}

#[test]
fn load_plan_for_each_scope() {
    let local = ConfigLoader::new(ConfigScope::Local);
    assert_eq!(
        local.plan(false, true, true),
        LoadPlan { read: Some(ConfigFile::Local), local_brain: true }
    );
    assert_eq!(local.plan(false, false, true), LoadPlan { read: None, local_brain: true });
    let global = ConfigLoader::new(ConfigScope::Global);
    assert_eq!(
        global.plan(true, true, true),
        LoadPlan { read: Some(ConfigFile::Global), local_brain: false }
    );
    assert_eq!(global.plan(true, true, false), LoadPlan { read: None, local_brain: false });
    let auto = ConfigLoader::new(ConfigScope::Auto);
    assert_eq!(
        auto.plan(true, true, true),
        LoadPlan { read: Some(ConfigFile::Local), local_brain: true }
    );
    assert_eq!(
        auto.plan(false, true, true),
        LoadPlan { read: Some(ConfigFile::Global), local_brain: false }
    );
    assert_eq!(auto.plan(false, false, false), LoadPlan { read: None, local_brain: false });
}

fn config_with(provider: Option<&str>, url: Option<&str>, key: &str, rerank_key: &str) -> Config {
    let mut config = Config::with_brain_path("/tmp/brain".to_string());
    config.embedding_provider = provider.map(|p| p.to_string());
    config.embedding_base_url = url.map(|u| u.to_string());
    config.embedding_api_key = key.to_string();
    config.rerank_api_key = rerank_key.to_string();
    config
}

#[test]
fn ollama_is_known_by_name_or_address() {
    assert!(config_with(Some("ollama"), None, "", "").is_ollama());
    assert!(config_with(Some("OLLAMA"), None, "", "").is_ollama());
    assert!(config_with(Some("Ollama"), Some("https://api.openai.com/v1"), "", "").is_ollama());
    assert!(!config_with(Some("openai"), Some("http://localhost:11434/api"), "", "").is_ollama());
    assert!(config_with(None, Some("http://localhost:11434/api"), "", "").is_ollama());
    assert!(config_with(None, Some("http://my-ollama.internal/api"), "", "").is_ollama());
    assert!(!config_with(None, Some("https://api.openai.com/v1"), "", "").is_ollama());
    assert!(!config_with(None, None, "", "").is_ollama());
    assert!(lowered_is_ollama("ollama".to_string()));
    assert!(!lowered_is_ollama("Ollama".to_string()));
}

#[test]
fn missing_keys_are_reported_embedding_first() {
    assert_eq!(
        config_with(None, None, "", "").validate_api_key(),
        Err(ConfigError::MissingEmbeddingKey)
    );
    assert_eq!(
        config_with(None, None, "sk-1", "").validate_api_key(),
        Err(ConfigError::MissingRerankKey)
    );
    assert_eq!(config_with(None, None, "sk-1", "rk-1").validate_api_key(), Ok(()));
    assert_eq!(
        config_with(Some("ollama"), None, "", "").validate_api_key(),
        Err(ConfigError::MissingRerankKey)
    );
    assert_eq!(config_with(Some("ollama"), None, "", "rk-1").validate_api_key(), Ok(()));
    assert_eq!(
        keys_present(false, &"".to_string(), &"rk".to_string()),
        Err(ConfigError::MissingEmbeddingKey)
    );
    assert_eq!(keys_present(true, &"".to_string(), &"rk".to_string()), Ok(()));
}

#[test]
fn provider_by_name() {
    let url = Some("http://example.test/v1".to_string());
    for name in ["zhipu", "ZhipuAI", "BIGMODEL", "something-else"] {
        assert_eq!(
            infer_provider(&url, &Some(name.to_string())),
            (ProviderType::ZhipuAI, "http://example.test/v1".to_string())
        );
    }
    assert_eq!(
        infer_provider(&None, &Some("Ollama".to_string())),
        (ProviderType::Ollama, "http://localhost:11434/api".to_string())
    );
    assert_eq!(
        infer_provider(&None, &Some("openai".to_string())),
        (ProviderType::OpenAI, "https://api.openai.com/v1".to_string())
    );
    assert_eq!(
        infer_provider(&None, &Some("zhipu".to_string())),
        (ProviderType::ZhipuAI, "https://open.bigmodel.cn/api/paas/v4".to_string())
    );
    assert_eq!(ProviderType::named(&"openai".to_string()), ProviderType::OpenAI);
    assert_eq!(ProviderType::named(&"OpenAI".to_string()), ProviderType::ZhipuAI);
}

#[test]
fn provider_by_address() {
    let cases = [
        ("http://localhost:8080/v1", ProviderType::Ollama),
        ("http://127.0.0.1:11434", ProviderType::Ollama),
        ("https://ollama.example.test", ProviderType::Ollama),
        ("https://open.bigmodel.cn/api/paas/v4", ProviderType::ZhipuAI),
        ("https://zhipu.example.test", ProviderType::ZhipuAI),
        ("https://api.openai.com/v1", ProviderType::OpenAI),
        ("https://api.jina.ai/v1", ProviderType::OpenAI),
    ];
    for (url, expected) in cases {
        assert_eq!(infer_provider(&Some(url.to_string()), &None), (expected, url.to_string()));
        assert_eq!(ProviderType::at(url), expected);
    }
    assert_eq!(
        infer_provider(&None, &None),
        (ProviderType::ZhipuAI, "https://open.bigmodel.cn/api/paas/v4".to_string())
    );
}

#[test]
fn dimension_by_model_name() {
    assert_eq!(infer_dimension("embedding-3"), 2048);
    assert_eq!(infer_dimension("embedding-2"), 1024);
    assert_eq!(infer_dimension("text-embedding-3-large"), 3072);
    assert_eq!(infer_dimension("azure/text-embedding-3-large-v2"), 3072);
    assert_eq!(infer_dimension("text-embedding-3-small"), 1536);
    assert_eq!(infer_dimension("text-embedding-ada-002"), 1536);
    assert_eq!(infer_dimension("nomic-embed-text"), 768);
    assert_eq!(infer_dimension("jina-embeddings-v3"), 1024);
    assert_eq!(infer_dimension("jina-embeddings-v2"), 2048);
    assert_eq!(infer_dimension("x-embedding-3"), 2048);
    assert_eq!(infer_dimension(""), 2048);
    assert_eq!(embedding_dimension(Some(256), "embedding-2"), 256);
    assert_eq!(embedding_dimension(None, "embedding-2"), 1024);
}

#[test]
fn reranker_address() {
    assert_eq!(rerank_base_url(None), "https://open.bigmodel.cn/api/paas/v4");
    assert_eq!(rerank_base_url(Some("http://r.test".to_string())), "http://r.test");
}

#[test]
fn normalizing_squeezes_white_space() {
    assert_eq!(normalize_for_embedding("hello world"), "hello world");
    assert_eq!(normalize_for_embedding("  hello \t\n  world  "), "hello world");
    assert_eq!(normalize_for_embedding("a\nb\r\nc\td"), "a b c d");
    assert_eq!(normalize_for_embedding(""), "");
    assert_eq!(normalize_for_embedding(" \n\t "), "");
    assert_eq!(normalize_for_embedding("one"), "one");
    assert_eq!(normalize_for_embedding("记忆\u{3000}向量 search"), "记忆 向量 search");
}

#[test]
fn normalizing_agrees_with_splitting_on_white_space() {
    let samples = [
        "the  quick\tbrown\n\nfox",
        " leading",
        "trailing ",
        "\u{a0}no-break\u{2003}spaces\u{a0}",
        "x",
        "a b",
    ];
    for sample in samples {
        let expected = sample.split_whitespace().collect::<Vec<_>>().join(" ");
        assert_eq!(normalize_for_embedding(sample), expected);
    }
}

#[test]
fn dimension_of_a_store_that_is_only_read() {
    assert_eq!(memo::provider::stored_dimension(None), 1536);
    assert_eq!(memo::provider::stored_dimension(Some(768)), 768);
}

#[test]
fn argument_of_embed_is_a_path_or_a_text() {
    let classify = memo::curate::classify_input;
    assert_eq!(classify(false, false, false), memo::curate::InputKind::Text);
    assert_eq!(classify(false, true, true), memo::curate::InputKind::Text);
    assert_eq!(classify(true, true, false), memo::curate::InputKind::Directory);
    assert_eq!(classify(true, true, true), memo::curate::InputKind::Directory);
    assert_eq!(classify(true, false, true), memo::curate::InputKind::File);
    assert_eq!(classify(true, false, false), memo::curate::InputKind::Other);
}

#[test]
fn settings_lie_under_home_or_under_the_current_directory() {
    assert_eq!(memo::config::settings_base(Some("/home/u".to_string())), "/home/u");
    assert_eq!(memo::config::settings_base(Some(String::new())), "");
    assert_eq!(memo::config::settings_base(None), ".");
}
