//! Routing, body rewriting, listing aggregation, and response formatting.

use herder::api::{
    ApiError, RouteBody, aggregate_v1_models, format_logs_json, format_logs_plain,
    is_json_content_type, provider_keys, resolve_alias_text, route_by_header, route_by_json_body,
};
use herder::config::{
    AliasOrIndex, Config, ExternalConfig, ExternalModelConfig, ExternalProviderAndModelConfig,
    ExternalProviderConfig, LlamaCppModelConfig, ModelConfig, ModelTypeConfig,
};
use herder::models::{LoadSession, LoadStep, Log, Models, TimestampedMessage};

fn llama(alias: &str, port: u16) -> ModelConfig {
    ModelConfig {
        unloads: None,
        loads: None,
        is_default: None,
        config: ModelTypeConfig::LlamaCpp(LlamaCppModelConfig {
            hf_repo: format!("org/{alias}"),
            port,
            alias: alias.to_owned(),
            api_key: None,
            host: None,
            additional_properties: Vec::new(),
        }),
    }
}

fn external(alias: &str, id: &str, url: &str, key: &str) -> ModelConfig {
    ModelConfig {
        unloads: None,
        loads: None,
        is_default: None,
        config: ModelTypeConfig::External(ExternalConfig::ProviderAndModel(
            ExternalProviderAndModelConfig {
                provider: ExternalProviderConfig {
                    base_url: url.to_owned(),
                    api_key: key.to_owned(),
                },
                model: ExternalModelConfig { id: id.to_owned(), alias: Some(alias.to_owned()) },
            },
        )),
    }
}

fn loaded(models: Vec<ModelConfig>) -> Models {
    let config = Config { schema: None, models, providers: None, load_defaults_on_launch: None }
        .resolve()
        .expect("the test configuration resolves");
    let mut registry = Models::new();
    let mut h = 0u64;
    for i in 0..config.models.len() {
        let mut session = LoadSession::start(AliasOrIndex::Index(i));
        loop {
            match session.next_load_step(&config).unwrap() {
                LoadStep::Done => break,
                LoadStep::Skipped => continue,
                LoadStep::Ready { spawn_args } => {
                    let spawned = spawn_args.map(|_| {
                        h += 1;
                        h
                    });
                    registry.finish_load_step(&mut session, spawned);
                }
            }
        }
    }
    registry
}

#[test]
fn structured_requests_are_rewritten_to_the_backend_id() {
    let models = loaded(vec![
        llama("chat", 8081),
        external("gpt", "gpt-4", "https://api.example.com", "SECRET-REDACTED"),
    ]);
    let plan = route_by_json_body(
        &models,
        None,
        "{\"model\": \"gpt\", \"prompt\": \"hi\"}",
        "/v1/completions",
    )
    .expect("gpt is loaded");
    assert_eq!(plan.url, "https://api.example.com/v1/completions");
    assert_eq!(plan.authorization.as_deref(), Some("Bearer SECRET-REDACTED"));
    match plan.body {
        RouteBody::Rewritten(b) => assert_eq!(b, "{\"model\":\"gpt-4\",\"prompt\":\"hi\"}"),
        RouteBody::Passthrough => panic!("a structured body is rewritten"),
    }
}

#[test]
fn structured_requests_fall_back_to_the_header() {
    let models = loaded(vec![llama("chat", 8081)]);
    let header = "chat".to_owned();
    let plan = route_by_json_body(&models, Some(&header), "{\"prompt\": \"hi\"}", "/v1/x")
        .expect("chat is loaded");
    assert_eq!(plan.url, "http://localhost:8081/v1/x");
    assert_eq!(plan.authorization, None);
    match plan.body {
        RouteBody::Rewritten(b) => {
            assert_eq!(b, "{\"prompt\":\"hi\",\"model\":\"chat\"}", "the object gains the backend id");
        }
        RouteBody::Passthrough => panic!("a structured body is rewritten"),
    }
}

#[test]
fn structured_request_errors_are_distinguished() {
    let models = loaded(vec![llama("chat", 8081)]);
    match route_by_json_body(&models, None, "{nope", "/p") {
        Err(ApiError::BadRequest(_)) => {}
        other => panic!("a malformed body is a bad request, got {other:?}"),
    }
    match route_by_json_body(&models, None, "{\"prompt\": 1}", "/p") {
        Err(ApiError::BadRequest(m)) => assert_eq!(m, "No model specified in body nor headers"),
        other => panic!("a nameless request is a bad request, got {other:?}"),
    }
    match route_by_json_body(&models, None, "{\"model\": \"nope\"}", "/p") {
        Err(e @ ApiError::NotFound(_)) => {
            assert_eq!(e.status_code(), 404);
            assert_eq!(e.message(), "Model alias nope not found");
        }
        other => panic!("an unknown alias is not found, got {other:?}"),
    }
}

#[test]
fn unstructured_requests_stream_through() {
    let models = loaded(vec![llama("chat", 8081)]);
    let header = "chat".to_owned();
    let plan = route_by_header(&models, Some(&header), "/upload?x=1").expect("chat is loaded");
    assert_eq!(plan.url, "http://localhost:8081/upload?x=1");
    assert!(matches!(plan.body, RouteBody::Passthrough));
    match route_by_header(&models, None, "/upload") {
        Err(ApiError::BadRequest(m)) => assert_eq!(m, "No model specified in headers"),
        other => panic!("a headerless request is a bad request, got {other:?}"),
    }
}

#[test]
fn content_type_detection_is_case_insensitive() {
    let ct = "Application/JSON; charset=utf-8".to_owned();
    assert!(is_json_content_type(Some(&ct)));
    let ct = "text/plain".to_owned();
    assert!(!is_json_content_type(Some(&ct)));
    assert!(!is_json_content_type(None));
}

#[test]
fn listing_queries_each_backend_once() {
    let models = loaded(vec![
        external("a", "m-a", "https://one.example.com", "k1"),
        external("b", "m-b", "https://one.example.com", "k1"),
        external("c", "m-c", "https://two.example.com", "k2"),
    ]);
    let configs = models.get_loaded_configs();
    let keys = provider_keys(&configs);
    assert_eq!(
        keys,
        vec![
            ("https://one.example.com".to_owned(), Some("k1".to_owned())),
            ("https://two.example.com".to_owned(), Some("k2".to_owned())),
        ],
    );
}

#[test]
fn listing_renames_backend_entries_to_aliases() {
    let models = loaded(vec![
        external("a", "m-a", "https://one.example.com", "k1"),
        external("b", "m-b", "https://one.example.com", "k1"),
    ]);
    let configs = models.get_loaded_configs();
    let keys = provider_keys(&configs);
    let bodies = vec![
        "{\"object\":\"list\",\"data\":[{\"id\":\"m-b\",\"owned_by\":\"x\"},{\"id\":\"m-a\"}]}"
            .to_owned(),
    ];
    let out = aggregate_v1_models(&configs, &keys, &bodies).expect("both ids are listed");
    assert_eq!(out, "{\"data\":[{\"id\":\"a\"},{\"id\":\"b\",\"owned_by\":\"x\"}]}");
}

#[test]
fn listing_fails_when_an_id_is_missing_upstream() {
    let models = loaded(vec![external("a", "m-a", "https://one.example.com", "k1")]);
    let configs = models.get_loaded_configs();
    let keys = provider_keys(&configs);
    let bodies = vec!["{\"data\":[{\"id\":\"other\"}]}".to_owned()];
    match aggregate_v1_models(&configs, &keys, &bodies) {
        Err(e @ ApiError::Internal(_)) => assert_eq!(e.status_code(), 500),
        other => panic!("a missing id fails the listing, got {other:?}"),
    }
    let bodies = vec!["not json".to_owned()];
    assert!(aggregate_v1_models(&configs, &keys, &bodies).is_err());
}

#[test]
fn log_histories_format_both_ways() {
    let logs = vec![
        Log::StdOut(TimestampedMessage { timestamp: 5, message: "up".to_owned() }),
        Log::StdErr(TimestampedMessage { timestamp: -3, message: "warn \"x\"".to_owned() }),
    ];
    assert_eq!(format_logs_plain(&logs), "StdOut - 5 - up\nStdErr - -3 - warn \"x\"");
    assert_eq!(
        format_logs_json(&logs),
        "[{\"stream\":\"StdOut\",\"timestamp\":5,\"message\":\"up\"},{\"stream\":\"StdErr\",\"timestamp\":-3,\"message\":\"warn \\\"x\\\"\"}]",
    );
    assert_eq!(
        logs[0].to_json_line(),
        "{\"stream\":\"StdOut\",\"timestamp\":5,\"message\":\"up\"}",
    );
}

#[test]
fn path_segments_resolve_to_aliases() {
    let config = Config {
        schema: None,
        models: vec![llama("chat", 8081), llama("other", 8082)],
        providers: None,
        load_defaults_on_launch: None,
    }
    .resolve()
    .unwrap();
    assert_eq!(resolve_alias_text(&config, "chat".to_owned()).unwrap(), "chat");
    assert_eq!(resolve_alias_text(&config, "1".to_owned()).unwrap(), "other");
    assert!(resolve_alias_text(&config, "9".to_owned()).is_err());
}
