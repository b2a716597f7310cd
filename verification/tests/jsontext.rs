//! The JSON text layer: the verified parser and writer agree with each
//! other and with an ordinary JSON library.

use warp_json_rpc::json::{parse_json, to_json_vec};
use warp_json_rpc::req::Id;
use warp_json_rpc::res::{Error, Response};
use warp_json_rpc::value::Value;

fn sample_doc() -> Value {
    Value::Obj(vec![
        ("nul".to_string(), Value::Null),
        ("yes".to_string(), Value::Bool(true)),
        ("no".to_string(), Value::Bool(false)),
        ("n".to_string(), Value::Int(-42)),
        ("big".to_string(), Value::Int(i64::MAX)),
        ("small".to_string(), Value::Int(i64::MIN)),
        ("s".to_string(), Value::Str("he said \"hi\\\" \n\t ok".to_string())),
        ("uni".to_string(), Value::Str("é€\u{10348}".to_string())),
        (
            "arr".to_string(),
            Value::Arr(vec![Value::Int(1), Value::Arr(vec![]), Value::Obj(vec![])]),
        ),
    ])
}

#[test]
fn writer_then_parser_round_trips() {
    let doc = sample_doc();
    let text = to_json_vec(&doc);
    let back = parse_json(&text).unwrap();
    assert_eq!(back, doc);
}

#[test]
fn parser_reads_plain_documents() {
    let v = parse_json(b" { \"a\" : [ 1 , -2 , \"x\" , null , true , false ] , \"b\" : { } } ").unwrap();
    let expected = Value::Obj(vec![
        (
            "a".to_string(),
            Value::Arr(vec![
                Value::Int(1),
                Value::Int(-2),
                Value::Str("x".to_string()),
                Value::Null,
                Value::Bool(true),
                Value::Bool(false),
            ]),
        ),
        ("b".to_string(), Value::Obj(vec![])),
    ]);
    assert_eq!(v, expected);
}

#[test]
fn parser_reads_escapes() {
    let v = parse_json(br#""a\"b\\c\/d\b\f\n\r\t\u0041\u00e9\ud800\udf48""#).unwrap();
    assert_eq!(
        v,
        Value::Str("a\"b\\c/d\u{8}\u{c}\n\r\tAé\u{10348}".to_string())
    );
}

#[test]
fn parser_rejects_malformed_documents() {
    assert!(parse_json(b"").is_none());
    assert!(parse_json(b"  ").is_none());
    assert!(parse_json(b"{").is_none());
    assert!(parse_json(b"[1,]").is_none());
    assert!(parse_json(b"[1 2]").is_none());
    assert!(parse_json(b"{\"a\":}").is_none());
    assert!(parse_json(b"{\"a\" 1}").is_none());
    assert!(parse_json(b"{1:2}").is_none());
    assert!(parse_json(b"\"unterminated").is_none());
    assert!(parse_json(b"\"lone \\ud800 surrogate: \\ud800\"").is_none());
    assert!(parse_json(b"nul").is_none());
    assert!(parse_json(b"truee").is_none());
    assert!(parse_json(b"1 2").is_none());
}

#[test]
fn parser_rejects_non_integer_numbers() {
    assert!(parse_json(b"1.5").is_none());
    assert!(parse_json(b"1e3").is_none());
    assert!(parse_json(b"1E3").is_none());
    assert!(parse_json(b"01").is_none());
    assert!(parse_json(b"-").is_none());
    // one past the 64-bit bounds
    assert!(parse_json(b"9223372036854775808").is_none());
    assert!(parse_json(b"-9223372036854775809").is_none());
    assert_eq!(parse_json(b"9223372036854775807"), Some(Value::Int(i64::MAX)));
    assert_eq!(parse_json(b"-9223372036854775808"), Some(Value::Int(i64::MIN)));
    assert_eq!(parse_json(b"0"), Some(Value::Int(0)));
}

#[test]
fn parser_agrees_with_serde() {
    let text = br#"{"a":[1,-2,"x\n",null,true],"b":{"c":"d"}}"#;
    let ours = parse_json(text).unwrap();
    let theirs: serde_json::Value = serde_json::from_slice(text).unwrap();
    // re-serialize ours and parse with serde: both readings must agree
    let again: serde_json::Value = serde_json::from_slice(&to_json_vec(&ours)).unwrap();
    assert_eq!(theirs, again);
}

#[test]
fn response_text_round_trips() {
    let res = Response::new_err(
        Id::Number(3),
        Error::custom(7, "bad \"input\"".to_string()).with_data(Value::Arr(vec![
            Value::Int(1),
            Value::Str("två\n".to_string()),
        ])),
    );
    let doc = res.to_value();
    let text = warp_json_rpc::json::to_json_vec(&doc);
    assert_eq!(text, res.to_json());
    assert_eq!(parse_json(&text), Some(doc));
}
