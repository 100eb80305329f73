//! Configuration resolution and lookup.

use herder::config::{
    AliasOrIndex, Config, ConfigError, ExternalConfig, ExternalModelConfig,
    ExternalProviderAndModelConfig, ExternalProviderConfig, ExternalProviderNameAndModelConfig,
    LlamaCppModelConfig, ModelConfig, ModelTypeConfig,
};

fn llama(alias: &str, port: u16) -> ModelConfig {
    ModelConfig {
        unloads: None,
        loads: None,
        is_default: None,
        config: ModelTypeConfig::LlamaCpp(LlamaCppModelConfig {
            hf_repo: format!("org/{alias}"),
            port,
            alias: alias.to_owned(),
            api_key: None,
            host: None,
            additional_properties: Vec::new(),
        }),
    }
}

fn external_named(alias: &str, id: &str, provider: &str) -> ModelConfig {
    ModelConfig {
        unloads: None,
        loads: None,
        is_default: None,
        config: ModelTypeConfig::External(ExternalConfig::ProviderNameAndModel(
            ExternalProviderNameAndModelConfig {
                provider: provider.to_owned(),
                model: ExternalModelConfig { id: id.to_owned(), alias: Some(alias.to_owned()) },
            },
        )),
    }
}

fn provider(url: &str) -> ExternalProviderConfig {
    ExternalProviderConfig { base_url: url.to_owned(), api_key: "SECRET-REDACTED".to_owned() }
}

#[test]
fn resolve_inlines_named_provider() {
    let raw = Config {
        schema: None,
        models: vec![external_named("gpt", "gpt-4", "open")],
        providers: Some(vec![("open".to_owned(), provider("https://api.example.com/v1"))]),
        load_defaults_on_launch: None,
    };
    let resolved = raw.resolve().unwrap();
    let m = &resolved.models[0];
    assert_eq!(m.alias(), "gpt");
    assert_eq!(m.id(), "gpt-4");
    assert_eq!(m.api_key(), Some("SECRET-REDACTED"));
    assert_eq!(m.url(), "https://api.example.com/v1");
    match &m.config {
        ModelTypeConfig::External(ExternalConfig::ProviderAndModel(
            ExternalProviderAndModelConfig { provider, model },
        )) => {
            assert_eq!(provider.base_url, "https://api.example.com/v1");
            assert_eq!(model.id, "gpt-4");
        }
        other => panic!("expected an inline provider, got {other:?}"),
    }
}

#[test]
fn resolve_rejects_missing_provider() {
    let raw = Config {
        schema: None,
        models: vec![external_named("gpt", "gpt-4", "absent")],
        providers: None,
        load_defaults_on_launch: None,
    };
    match raw.resolve() {
        Err(ConfigError::MissingProvider { model, provider }) => {
            assert_eq!(model, "gpt-4");
            assert_eq!(provider, "absent");
        }
        other => panic!("expected a missing provider error, got {other:?}"),
    }
}

#[test]
fn resolve_rejects_duplicate_defaults() {
    let mut a = llama("chat", 8081);
    a.is_default = Some(true);
    let mut b = llama("chat", 8082);
    b.is_default = Some(true);
    let raw = Config {
        schema: None,
        models: vec![a, b],
        providers: None,
        load_defaults_on_launch: Some(true),
    };
    match raw.resolve() {
        Err(ConfigError::DuplicateDefault { alias }) => assert_eq!(alias, "chat"),
        other => panic!("expected a duplicate default error, got {other:?}"),
    }
}

#[test]
fn resolve_rejects_unusable_base_url() {
    let raw = Config {
        schema: None,
        models: vec![ModelConfig {
            unloads: None,
            loads: None,
            is_default: None,
            config: ModelTypeConfig::External(ExternalConfig::ProviderAndModel(
                ExternalProviderAndModelConfig {
                    provider: provider("not a url"),
                    model: ExternalModelConfig { id: "m".to_owned(), alias: None },
                },
            )),
        }],
        providers: None,
        load_defaults_on_launch: None,
    };
    match raw.resolve() {
        Err(ConfigError::InvalidBaseUrl { url }) => assert_eq!(url, "not a url"),
        other => panic!("expected an invalid base url error, got {other:?}"),
    }
}

#[test]
fn lookup_by_alias_and_index() {
    let config = Config {
        schema: None,
        models: vec![llama("a", 1), llama("b", 2)],
        providers: None,
        load_defaults_on_launch: None,
    }
    .resolve()
    .unwrap();
    assert_eq!(config.get_model_config(&AliasOrIndex::Alias("b".to_owned())).unwrap().alias(), "b");
    assert_eq!(config.get_model_config(&AliasOrIndex::Index(0)).unwrap().alias(), "a");
}

#[test]
fn lookup_reports_not_found() {
    let config = Config {
        schema: None,
        models: vec![llama("a", 1)],
        providers: None,
        load_defaults_on_launch: None,
    };
    match config.get_model_config(&AliasOrIndex::Alias("zz".to_owned())) {
        Err(ConfigError::NotFound { selector }) => {
            assert_eq!(selector, "zz");
        }
        other => panic!("expected not found, got {other:?}"),
    }
    let e = config.get_model_config(&AliasOrIndex::Index(9)).unwrap_err();
    assert_eq!(e.message(), "model not found: 9");
}

#[test]
fn lookup_reports_ambiguity() {
    let config = Config {
        schema: None,
        models: vec![llama("dup", 1), llama("dup", 2)],
        providers: None,
        load_defaults_on_launch: None,
    };
    match config.get_model_config(&AliasOrIndex::Alias("dup".to_owned())) {
        Err(ConfigError::Ambiguous { alias, count }) => {
            assert_eq!(alias, "dup");
            assert_eq!(count, 2);
        }
        other => panic!("expected ambiguity, got {other:?}"),
    }
    // An index always resolves one definition.
    assert_eq!(config.get_model_config(&AliasOrIndex::Index(1)).unwrap().url(), "http://localhost:2");
}

#[test]
fn selector_parsing_follows_standard_integer_rules() {
    match AliasOrIndex::from("7".to_owned()) {
        AliasOrIndex::Index(i) => assert_eq!(i, 7),
        other => panic!("expected an index, got {other:?}"),
    }
    match AliasOrIndex::from("+7".to_owned()) {
        AliasOrIndex::Index(i) => assert_eq!(i, 7),
        other => panic!("expected an index, got {other:?}"),
    }
    match AliasOrIndex::from("7b".to_owned()) {
        AliasOrIndex::Alias(a) => assert_eq!(a, "7b"),
        other => panic!("expected an alias, got {other:?}"),
    }
    match AliasOrIndex::from("99999999999999999999999999".to_owned()) {
        AliasOrIndex::Alias(a) => assert_eq!(a, "99999999999999999999999999"),
        other => panic!("expected an alias for an overflowing number, got {other:?}"),
    }
    assert_eq!(AliasOrIndex::Alias("x".to_owned()).as_alias(), Some("x"));
    assert_eq!(AliasOrIndex::Index(3).as_alias(), None);
}

#[test]
fn default_indices_keep_configuration_order() {
    let mut a = llama("a", 1);
    a.is_default = Some(true);
    let b = llama("b", 2);
    let mut c = llama("c", 3);
    c.is_default = Some(true);
    let mut d = llama("d", 4);
    d.is_default = Some(false);
    let config = Config {
        schema: None,
        models: vec![a, b, c, d],
        providers: None,
        load_defaults_on_launch: Some(true),
    };
    assert_eq!(config.default_indices(), vec![0, 2]);
}
