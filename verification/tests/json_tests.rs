//! The structured-body parser and serialiser.

use herder::json::{Json, parse_json};

fn parse(s: &str) -> Json {
    parse_json(s).unwrap_or_else(|| panic!("{s:?} should parse"))
}

#[test]
fn parses_scalars() {
    assert_eq!(parse("null"), Json::Null);
    assert_eq!(parse(" true "), Json::Bool(true));
    assert_eq!(parse("false"), Json::Bool(false));
    assert_eq!(parse("0"), Json::Num("0".to_owned()));
    assert_eq!(parse("-12.5e+3"), Json::Num("-12.5e+3".to_owned()));
    assert_eq!(parse("\"hi\""), Json::Str("hi".to_owned()));
}

#[test]
fn parses_escapes() {
    assert_eq!(parse("\"a\\n\\t\\\"b\\\\\""), Json::Str("a\n\t\"b\\".to_owned()));
    assert_eq!(parse("\"\\u0041\""), Json::Str("A".to_owned()));
    assert_eq!(parse("\"\\ud83d\\ude00\""), Json::Str("\u{1F600}".to_owned()));
    assert!(parse_json("\"\\ud83d\"").is_none(), "a lone surrogate is rejected");
    assert!(parse_json("\"\\q\"").is_none(), "an unknown escape is rejected");
}

#[test]
fn parses_structures() {
    assert_eq!(parse("[]"), Json::Arr(Vec::new()));
    assert_eq!(
        parse("[1, \"two\", null]"),
        Json::Arr(vec![
            Json::Num("1".to_owned()),
            Json::Str("two".to_owned()),
            Json::Null,
        ]),
    );
    assert_eq!(parse("{}"), Json::Obj(Vec::new()));
    assert_eq!(
        parse("{\"model\": \"gpt\", \"n\": 2}"),
        Json::Obj(vec![
            ("model".to_owned(), Json::Str("gpt".to_owned())),
            ("n".to_owned(), Json::Num("2".to_owned())),
        ]),
    );
    assert_eq!(
        parse(" { \"a\" : [ { \"b\" : [] } ] } "),
        Json::Obj(vec![(
            "a".to_owned(),
            Json::Arr(vec![Json::Obj(vec![("b".to_owned(), Json::Arr(Vec::new()))])]),
        )]),
    );
}

#[test]
fn rejects_malformed_texts() {
    for bad in ["", "  ", "{", "[1,", "{\"a\":}", "tru", "\"unterminated", "1 2", "{\"a\" 1}", "nul"] {
        assert!(parse_json(bad).is_none(), "{bad:?} should be rejected");
    }
}

#[test]
fn renders_compactly_and_round_trips() {
    let v = parse("{\"model\":\"gpt\",\"msgs\":[{\"role\":\"user\",\"text\":\"hi\\nthere\"}],\"n\":2,\"stream\":true,\"stop\":null}");
    let text = v.render();
    assert_eq!(
        text,
        "{\"model\":\"gpt\",\"msgs\":[{\"role\":\"user\",\"text\":\"hi\\nthere\"}],\"n\":2,\"stream\":true,\"stop\":null}",
    );
    assert_eq!(parse(&text), v);
}

#[test]
fn renders_control_characters_escaped() {
    let v = Json::Str("a\u{1}b\u{8}c".to_owned());
    assert_eq!(v.render(), "\"a\\u0001b\\bc\"");
    assert_eq!(parse(&v.render()), v);
}

#[test]
fn duplicate_copies_every_level() {
    let v = parse("{\"a\":[1,{\"b\":\"c\"}]}");
    let w = v.duplicate();
    assert_eq!(v, w);
    assert_eq!(w.render(), v.render());
}
