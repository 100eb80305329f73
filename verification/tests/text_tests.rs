//! Text helpers: decimal rendering, selector parsing, URL joining, and the
//! command-line URL builders.

use herder::commands::{list_lines, load_url, loaded_url, logs_url, unload_url};
use herder::config::{Config, LlamaCppModelConfig, ModelConfig, ModelTypeConfig};
use herder::models::{Q4, Quantization};
use herder::text::{contains_json, dec_i64, dec_u64, join_url, parse_usize, str_eq, valid_base_url};

#[test]
fn decimal_rendering() {
    assert_eq!(dec_u64(0), "0");
    assert_eq!(dec_u64(8081), "8081");
    assert_eq!(dec_u64(u64::MAX), "18446744073709551615");
    assert_eq!(dec_i64(0), "0");
    assert_eq!(dec_i64(-42), "-42");
    assert_eq!(dec_i64(i64::MIN), "-9223372036854775808");
}

#[test]
fn parsing_positions() {
    assert_eq!(parse_usize("0"), Some(0));
    assert_eq!(parse_usize("+12"), Some(12));
    assert_eq!(parse_usize(""), None);
    assert_eq!(parse_usize("+"), None);
    assert_eq!(parse_usize("1x"), None);
    assert_eq!(parse_usize("-1"), None);
    assert_eq!(parse_usize("999999999999999999999999"), None);
}

#[test]
fn url_joining_replaces_the_base_path() {
    assert!(valid_base_url("http://localhost:8081"));
    assert!(valid_base_url("https://api.example.com/v1"));
    assert!(!valid_base_url("not a url"));
    assert!(!valid_base_url("http://"));
    assert_eq!(join_url("http://localhost:8081", "/v1/models"), "http://localhost:8081/v1/models");
    assert_eq!(
        join_url("https://api.example.com/v1?x=1", "/v1/chat?stream=true"),
        "https://api.example.com/v1/chat?stream=true",
    );
    assert_eq!(join_url("http://h:1", "p"), "http://h:1/p");
}

#[test]
fn json_detection_and_string_equality() {
    assert!(contains_json("application/json"));
    assert!(contains_json("APPLICATION/JSON"));
    assert!(!contains_json("text/plain"));
    assert!(!contains_json("jso"));
    assert!(str_eq("abc", "abc"));
    assert!(!str_eq("abc", "abd"));
    assert!(!str_eq("abc", "ab"));
}

#[test]
fn command_urls() {
    assert_eq!(
        load_url("chat", 3100, true, false),
        "http://localhost:3100/herder/chat?tail=true&json=false",
    );
    assert_eq!(
        logs_url("0", 3100, false, true),
        "http://localhost:3100/herder/0/logs?tail=false&json=true",
    );
    assert_eq!(unload_url("chat", 3100), "http://localhost:3100/herder/chat");
    assert_eq!(loaded_url(3100), "http://localhost:3100/herder");
}

#[test]
fn listing_lines() {
    let mut a = ModelConfig {
        unloads: None,
        loads: None,
        is_default: Some(true),
        config: ModelTypeConfig::LlamaCpp(LlamaCppModelConfig {
            hf_repo: "org/repo".to_owned(),
            port: 8081,
            alias: "chat".to_owned(),
            api_key: None,
            host: None,
            additional_properties: Vec::new(),
        }),
    };
    a.loads = Some(vec![herder::config::AliasOrIndex::Alias("b".to_owned())]);
    a.unloads = Some(vec![herder::config::AliasOrIndex::Index(0)]);
    let config = Config {
        schema: None,
        models: vec![a],
        providers: None,
        load_defaults_on_launch: None,
    }
    .resolve()
    .unwrap();
    assert_eq!(
        list_lines(&config),
        vec![
            "[0]: Alias 'chat' (default) - Loads: b - Unloads: 0 - LlamaCpp ('org/repo' - http://localhost:8081)"
                .to_owned(),
        ],
    );
}

#[test]
fn quantization_bit_widths() {
    assert_eq!(Quantization::BF16.bits_per_param(), 16);
    assert_eq!(Quantization::Q4(Q4::Q4KM).bits_per_param(), 4);
}
