//! The registry's load, unload, cascade and log behaviour, driven the way
//! the server drives it.

use herder::config::{
    AliasOrIndex, Config, ConfigError, ExternalConfig, ExternalModelConfig,
    ExternalProviderAndModelConfig, ExternalProviderConfig, LlamaCppModelConfig, ModelConfig,
    ModelTypeConfig,
};
use herder::json::Json;
use herder::models::{
    Log, LoadSession, LoadStep, LogsAndTailReceiver, Models, TimestampedMessage,
};

fn llama(alias: &str, port: u16) -> ModelConfig {
    ModelConfig {
        unloads: None,
        loads: None,
        is_default: None,
        config: ModelTypeConfig::LlamaCpp(LlamaCppModelConfig {
            hf_repo: format!("org/{alias}"),
            port,
            alias: alias.to_owned(),
            api_key: None,
            host: None,
            additional_properties: Vec::new(),
        }),
    }
}

fn external(alias: &str, id: &str, url: &str) -> ModelConfig {
    ModelConfig {
        unloads: None,
        loads: None,
        is_default: None,
        config: ModelTypeConfig::External(ExternalConfig::ProviderAndModel(
            ExternalProviderAndModelConfig {
                provider: ExternalProviderConfig {
                    base_url: url.to_owned(),
                    api_key: "SECRET-REDACTED".to_owned(),
                },
                model: ExternalModelConfig { id: id.to_owned(), alias: Some(alias.to_owned()) },
            },
        )),
    }
}

fn config_of(models: Vec<ModelConfig>) -> Config {
    Config { schema: None, models, providers: None, load_defaults_on_launch: None }
        .resolve()
        .expect("the test configuration resolves")
}

/// Drives one whole load the way the server does: resolve, pretend to
/// spawn, complete, repeat for the cascade.
fn run_load(
    models: &mut Models,
    config: &Config,
    sel: AliasOrIndex,
    next_handle: &mut u64,
) -> Result<(ModelConfig, Option<LogsAndTailReceiver>, Vec<u64>), ConfigError> {
    let mut session = LoadSession::start(sel);
    let mut primary = None;
    let mut killed = Vec::new();
    loop {
        match session.next_load_step(config)? {
            LoadStep::Done => break,
            LoadStep::Skipped => continue,
            LoadStep::Ready { spawn_args } => {
                let spawned = match spawn_args {
                    Some(_args) => {
                        *next_handle += 1;
                        assert!(!models.contains_handle(*next_handle));
                        Some(*next_handle)
                    }
                    None => None,
                };
                let outcome = models.finish_load_step(&mut session, spawned);
                killed.extend(outcome.terminated);
                if primary.is_none() {
                    primary = Some((outcome.definition, outcome.receiver));
                }
            }
        }
    }
    let (d, r) = primary.expect("a completed load resolved its target");
    Ok((d, r, killed))
}

#[test]
fn load_then_get_returns_the_configured_definition() {
    let config = config_of(vec![llama("chat", 8081), external("gpt", "gpt-4", "https://api.example.com")]);
    let mut models = Models::new();
    let mut h = 0;
    run_load(&mut models, &config, AliasOrIndex::Alias("chat".to_owned()), &mut h).unwrap();
    run_load(&mut models, &config, AliasOrIndex::Alias("gpt".to_owned()), &mut h).unwrap();
    let got = models.get_loaded_config("chat").expect("chat is loaded");
    assert_eq!(got.id(), "chat");
    let got = models.get_loaded_config("gpt").expect("gpt is loaded");
    assert_eq!(got.id(), "gpt-4");
    assert_eq!(models.get_loaded_configs().len(), 2);
}

#[test]
fn reloading_an_alias_terminates_the_first_process() {
    let config = config_of(vec![llama("chat", 8081)]);
    let mut models = Models::new();
    let mut h = 0;
    run_load(&mut models, &config, AliasOrIndex::Alias("chat".to_owned()), &mut h).unwrap();
    assert!(models.contains_handle(1));
    let (_d, receiver, killed) =
        run_load(&mut models, &config, AliasOrIndex::Alias("chat".to_owned()), &mut h).unwrap();
    assert_eq!(killed, vec![1]);
    assert!(!models.contains_handle(1));
    assert!(models.contains_handle(2));
    assert_eq!(receiver.expect("a fresh process tails").tail_receiver.handle, 2);
    // Only one entry serves the alias.
    assert_eq!(models.get_loaded_configs().len(), 1);
}

#[test]
fn unloading_an_absent_alias_removes_nothing() {
    let mut models = Models::new();
    assert!(models.unload("ghost").is_none());
    let config = config_of(vec![llama("chat", 8081)]);
    let mut h = 0;
    run_load(&mut models, &config, AliasOrIndex::Alias("chat".to_owned()), &mut h).unwrap();
    assert!(models.unload("ghost").is_none());
    assert_eq!(models.get_loaded_configs().len(), 1);
    let removed = models.unload("chat").expect("chat was loaded");
    assert_eq!(removed.alias(), "chat");
    assert_eq!(models.get_loaded_configs().len(), 0);
}

#[test]
fn cascade_loads_and_unloads() {
    let mut a = llama("a", 1);
    a.loads = Some(vec![AliasOrIndex::Alias("b".to_owned())]);
    a.unloads = Some(vec![AliasOrIndex::Alias("c".to_owned())]);
    let config = config_of(vec![a, llama("b", 2), llama("c", 3)]);
    let mut models = Models::new();
    let mut h = 0;
    run_load(&mut models, &config, AliasOrIndex::Alias("c".to_owned()), &mut h).unwrap();
    assert!(models.get_loaded_config("c").is_some());
    let (_d, _r, killed) =
        run_load(&mut models, &config, AliasOrIndex::Alias("a".to_owned()), &mut h).unwrap();
    assert!(models.get_loaded_config("a").is_some());
    assert!(models.get_loaded_config("b").is_some(), "the cascade loads b");
    assert!(models.get_loaded_config("c").is_none(), "the cascade unloads c");
    assert_eq!(killed, vec![1], "c's process is reported for termination");
}

#[test]
fn cascade_skips_the_target_itself_and_cycles() {
    let mut a = llama("a", 1);
    a.unloads = Some(vec![AliasOrIndex::Alias("a".to_owned())]);
    a.loads = Some(vec![AliasOrIndex::Alias("a".to_owned())]);
    let config = config_of(vec![a]);
    let mut models = Models::new();
    let mut h = 0;
    run_load(&mut models, &config, AliasOrIndex::Alias("a".to_owned()), &mut h).unwrap();
    assert!(models.get_loaded_config("a").is_some(), "a is not unloaded by its own cascade");
    assert_eq!(models.get_loaded_configs().len(), 1);
}

#[test]
fn loads_in_either_order_reach_the_same_registry() {
    let config = config_of(vec![llama("x", 1), llama("y", 2)]);
    let mut first = Models::new();
    let mut h1 = 0;
    run_load(&mut first, &config, AliasOrIndex::Alias("x".to_owned()), &mut h1).unwrap();
    run_load(&mut first, &config, AliasOrIndex::Alias("y".to_owned()), &mut h1).unwrap();
    let mut second = Models::new();
    let mut h2 = 0;
    run_load(&mut second, &config, AliasOrIndex::Alias("y".to_owned()), &mut h2).unwrap();
    run_load(&mut second, &config, AliasOrIndex::Alias("x".to_owned()), &mut h2).unwrap();
    for alias in ["x", "y"] {
        assert_eq!(
            first.get_loaded_config(alias).unwrap().url(),
            second.get_loaded_config(alias).unwrap().url(),
        );
    }
}

#[test]
fn logs_for_an_external_definition_are_unavailable() {
    let config = config_of(vec![external("gpt", "gpt-4", "https://api.example.com")]);
    let mut models = Models::new();
    let mut h = 0;
    let (_d, receiver, _k) =
        run_load(&mut models, &config, AliasOrIndex::Alias("gpt".to_owned()), &mut h).unwrap();
    assert!(receiver.is_none(), "an external definition spawns nothing");
    assert!(models.get_logs_and_receiver("gpt").is_none());
    assert!(models.get_logs_and_receiver("missing").is_none());
}

#[test]
fn tail_subscribers_see_entries_once_and_in_order() {
    let config = config_of(vec![llama("chat", 8081)]);
    let mut models = Models::new();
    let mut h = 0;
    let (_d, receiver, _k) =
        run_load(&mut models, &config, AliasOrIndex::Alias("chat".to_owned()), &mut h).unwrap();
    let mut rx = receiver.expect("a local process tails").tail_receiver;
    models.push_log(1, Log::StdOut(TimestampedMessage { timestamp: 10, message: "one".to_owned() }));
    models.push_log(1, Log::StdErr(TimestampedMessage { timestamp: 11, message: "two".to_owned() }));
    let batch = models.poll_tail(&mut rx).expect("the process is registered");
    let lines: Vec<String> = batch.iter().map(|l| l.to_plain_line()).collect();
    assert_eq!(lines, vec!["StdOut - 10 - one".to_owned(), "StdErr - 11 - two".to_owned()]);
    models.push_log(1, Log::StdOut(TimestampedMessage { timestamp: 12, message: "three".to_owned() }));
    let batch = models.poll_tail(&mut rx).expect("the process is registered");
    assert_eq!(batch.len(), 1, "delivered entries are never repeated");
    assert_eq!(batch[0].to_plain_line(), "StdOut - 12 - three");
    // A late subscriber misses prior entries but keeps the history.
    let late = models.get_logs_and_receiver("chat").expect("chat has a process");
    assert_eq!(late.logs.len(), 3);
    let mut late_rx = late.tail_receiver;
    assert_eq!(models.poll_tail(&mut late_rx).unwrap().len(), 0);
}

#[test]
fn spawn_args_follow_the_launch_rules() {
    let m = LlamaCppModelConfig {
        hf_repo: "org/repo".to_owned(),
        port: 8081,
        alias: "chat".to_owned(),
        api_key: Some("SECRET-REDACTED".to_owned()),
        host: Some("0.0.0.0".to_owned()),
        additional_properties: vec![
            ("verbose".to_owned(), Json::Bool(true)),
            ("mmap".to_owned(), Json::Bool(false)),
            ("seed".to_owned(), Json::Null),
            ("ctx-size".to_owned(), Json::Num("4096".to_owned())),
            ("template".to_owned(), Json::Str("chatml".to_owned())),
        ],
    };
    assert_eq!(
        m.spawn_args(),
        vec![
            "--alias".to_owned(),
            "chat".to_owned(),
            "--hf-repo".to_owned(),
            "org/repo".to_owned(),
            "--port".to_owned(),
            "8081".to_owned(),
            "--api-key".to_owned(),
            "SECRET-REDACTED".to_owned(),
            "--host".to_owned(),
            "0.0.0.0".to_owned(),
            "--verbose".to_owned(),
            "--ctx-size".to_owned(),
            "4096".to_owned(),
            "--template".to_owned(),
            "\"chatml\"".to_owned(),
        ],
    );
}
