use opencontext_core::config::{
    default_batch_size, default_chunk_overlap, default_chunk_size, default_dimensions,
    default_limit, default_model, EmbeddingConfig, NodeJsConfig, PathsConfig,
    SearchBehaviorConfig, SearchConfig, SearchSurroundings,
};
use opencontext_core::error::{CoreError, ErrorKind};
use opencontext_core::search_error::SearchError;
use opencontext_core::types::{
    AggregateBy, MatchType, SearchMode, SearchOptions, SearchResults,
};

#[test]
fn test_config_defaults() {
    let config = EmbeddingConfig::default();
    assert_eq!(config.model, "text-embedding-3-small");
    assert_eq!(config.dimensions, 1536);
}

#[test]
fn test_search_mode_default() {
    let mode = SearchMode::default();
    assert_eq!(mode, SearchMode::Hybrid);
}

#[test]
fn test_aggregate_by_default() {
    let agg = AggregateBy::default();
    assert_eq!(agg, AggregateBy::Doc);
}

#[test]
fn test_search_options_defaults() {
    let opts = SearchOptions::default();
    assert_eq!(opts.limit(), 10);
    assert_eq!(opts.mode(), SearchMode::Hybrid);
    assert_eq!(opts.aggregate_by(), AggregateBy::Doc);
}

#[test]
fn test_search_results_empty() {
    let results = SearchResults::empty("test query".to_string());
    assert_eq!(results.query, "test query");
    assert_eq!(results.count, 0);
    assert!(results.results.is_empty());
}

#[test]
fn test_search_results_with_error() {
    let results =
        SearchResults::with_error("query".to_string(), "Something went wrong".to_string());
    assert!(results.error.is_some());
    assert_eq!(results.error.unwrap(), "Something went wrong");
}

#[test]
fn test_search_results_index_not_built() {
    let results = SearchResults::index_not_built("query".to_string());
    assert!(results.index_missing.unwrap_or(false));
}

#[test]
fn test_search_config_default() {
    let config = SearchConfig::default();
    assert!(config.embedding.dimensions > 0);
    assert!(config.search.chunk_size > 0);
}

#[test]
fn test_embedding_config_default() {
    let config = EmbeddingConfig::default();
    assert!(!config.model.is_empty());
    assert!(config.dimensions > 0);
    assert!(config.batch_size > 0);
}

#[test]
fn test_search_error_display() {
    let err = SearchError::Index("test error".to_string());
    let display = err.message();
    assert!(display.contains("test error"));
}

#[test]
fn test_search_error_from_io() {
    let io_err = std::io::Error::new(std::io::ErrorKind::NotFound, "file not found");
    let search_err = SearchError::from(io_err);
    let display = search_err.message();
    assert!(display.contains("file not found") || display.contains("IO"));
}

#[test]
fn search_error_messages_name_their_class() {
    assert_eq!(SearchError::Index("x".into()).message(), "Index error: x");
    assert_eq!(SearchError::Io("x".into()).message(), "IO error: x");
    assert_eq!(SearchError::Http("x".into()).message(), "HTTP error: x");
    assert_eq!(SearchError::Json("x".into()).message(), "JSON error: x");
    assert_eq!(SearchError::Embedding("x".into()).message(), "Embedding error: x");
    assert_eq!(SearchError::VectorStore("x".into()).message(), "Vector store error: x");
    assert!(SearchError::IndexNotBuilt.message().contains("Index not built"));
    assert!(SearchError::ApiKeyMissing.message().contains("API key"));
}

#[test]
fn core_error_from_io_is_an_io_error() {
    let io_err = std::io::Error::new(std::io::ErrorKind::PermissionDenied, "no access");
    let err = CoreError::from(io_err);
    assert_eq!(err.kind(), ErrorKind::Io);
    assert_eq!(err.message(), "io error: no access");
}

#[test]
fn core_error_messages() {
    assert_eq!(CoreError::InvalidInput("a".into()).message(), "a");
    assert_eq!(CoreError::NotFound("b".into()).message(), "b");
    assert_eq!(CoreError::Conflict("c".into()).message(), "c");
    assert_eq!(CoreError::Store("d".into()).message(), "database error: d");
    assert_eq!(CoreError::Conflict("c".into()).kind(), ErrorKind::Conflict);
    assert_eq!(CoreError::Store("d".into()).kind(), ErrorKind::Store);
    assert_eq!(CoreError::NotFound("d".into()).kind(), ErrorKind::NotFound);
    assert_eq!(CoreError::InvalidInput("d".into()).kind(), ErrorKind::InvalidInput);
}

#[test]
fn search_options_keep_what_is_given() {
    let opts = SearchOptions {
        query: "q".into(),
        limit: Some(3),
        mode: Some(SearchMode::Keyword),
        aggregate_by: Some(AggregateBy::Folder),
        doc_type: Some("idea".into()),
    };
    assert_eq!(opts.limit(), 3);
    assert_eq!(opts.mode(), SearchMode::Keyword);
    assert_eq!(opts.aggregate_by(), AggregateBy::Folder);
    assert_ne!(MatchType::Vector, MatchType::Hybrid);
}

#[test]
fn config_default_values() {
    assert_eq!(default_model(), "text-embedding-3-small");
    assert_eq!(default_dimensions(), 1536);
    assert_eq!(default_batch_size(), 10);
    assert_eq!(default_limit(), 10);
    assert_eq!(default_chunk_size(), 1500);
    assert_eq!(default_chunk_overlap(), 200);
    let config = SearchConfig::default();
    assert_eq!(config.embedding.api_base, "https://api.openai.com/v1");
    assert_eq!(config.embedding.batch_size, 10);
    assert!(config.embedding.api_key.is_none());
    assert_eq!(config.search.default_limit, 10);
    assert_eq!(config.search.chunk_size, 1500);
    assert_eq!(config.search.chunk_overlap, 200);
    assert!(config.paths.lancedb_path.is_none());
    assert!(config.paths.index_metadata_path.is_none());
    let behavior = SearchBehaviorConfig::default();
    assert_eq!(behavior.chunk_size, 1500);
}

#[test]
fn config_paths_follow_root_then_home() {
    let with_root = SearchSurroundings {
        root_var: Some("/srv/oc".into()),
        home_dir: Some("/home/u".into()),
        ..SearchSurroundings::default()
    };
    assert_eq!(SearchConfig::json_config_path(&with_root), "/srv/oc/config.json");
    assert_eq!(SearchConfig::toml_config_path(&with_root), "/srv/oc/config.toml");
    assert_eq!(SearchConfig::config_path(&with_root), "/srv/oc/config.json");
    let with_home =
        SearchSurroundings { home_dir: Some("/home/u".into()), ..SearchSurroundings::default() };
    assert_eq!(SearchConfig::json_config_path(&with_home), "/home/u/.opencontext/config.json");
    let bare = SearchSurroundings::default();
    assert_eq!(SearchConfig::toml_config_path(&bare), ".opencontext/config.toml");
    let paths = PathsConfig::default();
    assert_eq!(paths.get_lancedb_path(&with_home), "/home/u/.opencontext/lancedb");
    assert_eq!(paths.get_index_metadata_path(&with_root), "/srv/oc/index-metadata.json");
    let set = PathsConfig {
        lancedb_path: Some("/data/lance".into()),
        index_metadata_path: Some("/data/meta.json".into()),
    };
    assert_eq!(set.get_lancedb_path(&with_root), "/data/lance");
    assert_eq!(set.get_index_metadata_path(&with_root), "/data/meta.json");
}

#[test]
fn api_key_prefers_config_then_environment() {
    let mut config = EmbeddingConfig::default();
    let none = SearchSurroundings::default();
    assert!(matches!(config.get_api_key(&none), Err(SearchError::ApiKeyMissing)));
    let env = SearchSurroundings {
        openai_api_key: Some("env-key".into()),
        openai_key: Some("old-key".into()),
        ..SearchSurroundings::default()
    };
    assert_eq!(config.get_api_key(&env).unwrap(), "env-key");
    let older =
        SearchSurroundings { openai_key: Some("old-key".into()), ..SearchSurroundings::default() };
    assert_eq!(config.get_api_key(&older).unwrap(), "old-key");
    config.api_key = Some(String::new());
    assert_eq!(config.get_api_key(&env).unwrap(), "env-key");
    config.api_key = Some("own".into());
    assert_eq!(config.get_api_key(&env).unwrap(), "own");
}

#[test]
fn load_lets_json_override_toml_and_environment_override_both() {
    let toml = SearchConfig {
        embedding: EmbeddingConfig {
            api_key: Some("toml-key".into()),
            api_base: "https://toml".into(),
            model: "toml-model".into(),
            dimensions: 1024,
            batch_size: 4,
        },
        search: SearchBehaviorConfig { default_limit: 5, chunk_size: 800, chunk_overlap: 80 },
        paths: PathsConfig { lancedb_path: Some("/l".into()), index_metadata_path: None },
    };
    let json = NodeJsConfig {
        embedding_api_key: None,
        embedding_api_base: Some(String::new()),
        embedding_model: Some("json-model".into()),
        openai_api_key: Some("legacy-key".into()),
        openai_base_url: Some("https://legacy".into()),
    };
    let env = SearchSurroundings {
        embedding_model: Some("env-model".into()),
        ..SearchSurroundings::default()
    };
    let loaded = SearchConfig::load(Some(toml), Some(json), &env).unwrap();
    assert_eq!(loaded.embedding.api_key.as_deref(), Some("legacy-key"));
    // the empty new-style address hides the legacy one and is itself skipped
    assert_eq!(loaded.embedding.api_base, "https://toml");
    assert_eq!(loaded.embedding.model, "env-model");
    assert_eq!(loaded.embedding.dimensions, 1024);
    assert_eq!(loaded.embedding.batch_size, 4);
    assert_eq!(loaded.search.chunk_size, 800);
    assert_eq!(loaded.paths.lancedb_path.as_deref(), Some("/l"));
}

#[test]
fn load_without_files_gives_defaults_and_environment() {
    let env = SearchSurroundings {
        openai_api_base: Some("https://env".into()),
        embedding_api_key: Some("k".into()),
        openai_api_key: Some("ignored".into()),
        ..SearchSurroundings::default()
    };
    let loaded = SearchConfig::load(None, None, &env).unwrap();
    assert_eq!(loaded.embedding.api_base, "https://env");
    assert_eq!(loaded.embedding.api_key.as_deref(), Some("k"));
    assert_eq!(loaded.embedding.model, "text-embedding-3-small");
    assert_eq!(loaded.embedding.dimensions, 1536);
    let plain = SearchConfig::load(None, None, &SearchSurroundings::default()).unwrap();
    assert_eq!(plain.embedding.api_base, "https://api.openai.com/v1");
    assert!(plain.embedding.api_key.is_none());
}

#[test]
fn options_from_names() {
    let o = SearchOptions::from_names("q".into(), Some(7), Some("vector"), Some("folder"));
    assert_eq!(o.query, "q");
    assert_eq!(o.limit(), 7);
    assert_eq!(o.mode(), SearchMode::Vector);
    assert_eq!(o.aggregate_by(), AggregateBy::Folder);
    assert!(o.doc_type.is_none());
    let o = SearchOptions::from_names("q".into(), None, Some("Keyword"), Some("content"));
    // names are read as they are written
    assert_eq!(o.mode, Some(SearchMode::Hybrid));
    assert_eq!(o.aggregate_by, Some(AggregateBy::Content));
    let o = SearchOptions::from_names("q".into(), None, None, None);
    assert!(o.limit.is_none() && o.mode.is_none() && o.aggregate_by.is_none());
    assert_eq!(SearchMode::from_name("keyword"), SearchMode::Keyword);
    assert_eq!(SearchMode::from_name(""), SearchMode::Hybrid);
    assert_eq!(AggregateBy::from_name("doc"), AggregateBy::Doc);
    assert_eq!(AggregateBy::from_name("anything"), AggregateBy::Doc);
}
