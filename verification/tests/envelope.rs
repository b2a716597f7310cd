//! Request envelope parsing, ported to document values: version token,
//! id shapes, method checks, and deferred parameter decoding.

use warp_json_rpc::req::{Id, ParamError, Params, Request, RequestError};
use warp_json_rpc::value::{obj_get, Value};

fn key(k: &str) -> String {
    k.to_string()
}

fn str_val(s: &str) -> Value {
    Value::Str(s.to_string())
}

fn request_doc(id: Option<Value>, method: Option<Value>, params: Option<Value>) -> Value {
    let mut members: Vec<(String, Value)> = vec![(key("jsonrpc"), str_val("2.0"))];
    if let Some(m) = method {
        members.push((key("method"), m));
    }
    if let Some(p) = params {
        members.push((key("params"), p));
    }
    if let Some(i) = id {
        members.push((key("id"), i));
    }
    Value::Obj(members)
}

#[test]
fn deserialize_by_name_request() {
    let req_str = r#"{
            "jsonrpc": "2.0",
            "method": "op",
            "params": { "lhs": 24, "rhs": 12, "op": "+"},
            "id": 42
        }"#;
    let req = warp_json_rpc::req::parse_request_text(req_str.as_bytes()).unwrap();
    assert_eq!(req.id(), Id::Number(42));
    assert_eq!(req.method(), "op");

    let param = req.deserialize_param::<Value>().unwrap();
    let members = match &param {
        Value::Obj(members) => members,
        other => panic!("expected an object, got {:?}", other),
    };
    assert_eq!(obj_get(members, &key("lhs")), Some(&Value::Int(24)));
    assert_eq!(obj_get(members, &key("rhs")), Some(&Value::Int(12)));
    assert_eq!(obj_get(members, &key("op")), Some(&str_val("+")));
}

#[test]
fn deserialize_by_pos_request() {
    let req_str = r#"{
            "jsonrpc": "2.0",
            "method": "op",
            "params": [24, 12, "+"],
            "id": 42
        }"#;
    let req = warp_json_rpc::req::parse_request_text(req_str.as_bytes()).unwrap();
    assert_eq!(req.id(), Id::Number(42));
    assert_eq!(req.method(), "op");

    let (lhs, rhs, op) = req.deserialize_param::<(i64, i64, String)>().unwrap();
    assert_eq!(lhs, 24);
    assert_eq!(rhs, 12);
    assert_eq!(op, "+".to_string());
}

#[test]
fn deserialize_string_id() {
    let req_str = r#"{
            "jsonrpc": "2.0",
            "method": "op",
            "id": "string identifier"
        }"#;
    let req = warp_json_rpc::req::parse_request_text(req_str.as_bytes()).unwrap();
    assert_eq!(req.id(), Id::String("string identifier".to_string()));
    assert_eq!(req.id(), Id::String(String::from("string identifier")));
}

#[test]
fn deserialize_number_id() {
    let req_str = r#"{
            "jsonrpc": "2.0",
            "method": "op",
            "id": -1234
        }"#;
    let req = warp_json_rpc::req::parse_request_text(req_str.as_bytes()).unwrap();
    assert_eq!(req.id(), Id::Number(-1234));
}

#[test]
fn deserialize_null_id() {
    let req_str = r#"{
            "jsonrpc": "2.0",
            "method": "op",
            "id": null
        }"#;
    let req = warp_json_rpc::req::parse_request_text(req_str.as_bytes()).unwrap();
    assert_eq!(req.id(), Id::Null);
}

#[test]
fn deserialize_no_id_should_fail() {
    let req_str = r#"{
            "jsonrpc": "2.0",
            "method": "op"
        }"#;
    assert!(warp_json_rpc::req::parse_request_text(req_str.as_bytes()).is_err());

    let doc = request_doc(None, Some(str_val("op")), None);
    assert_eq!(
        warp_json_rpc::req::parse_request(&doc).unwrap_err(),
        RequestError::NoId
    );
}

#[test]
fn deserialize_bad_id() {
    let req_str = r#"{
            "jsonrpc": "2.0",
            "method": "op",
            "id": 1.0
        }"#;
    assert!(warp_json_rpc::req::parse_request_text(req_str.as_bytes()).is_err());

    // an id must be a string, an integer, or null; a boolean is none of those
    let doc = request_doc(Some(Value::Bool(true)), Some(str_val("op")), None);
    assert_eq!(
        warp_json_rpc::req::parse_request(&doc).unwrap_err(),
        RequestError::BadId
    );
}

#[test]
fn reject_wrong_version_token() {
    let doc = Value::Obj(vec![
        (key("jsonrpc"), str_val("1.0")),
        (key("method"), str_val("op")),
        (key("id"), Value::Int(1)),
    ]);
    assert_eq!(
        warp_json_rpc::req::parse_request(&doc).unwrap_err(),
        RequestError::BadVersion
    );
}

#[test]
fn reject_missing_version() {
    let doc = Value::Obj(vec![(key("method"), str_val("op")), (key("id"), Value::Int(1))]);
    assert_eq!(
        warp_json_rpc::req::parse_request(&doc).unwrap_err(),
        RequestError::NoVersion
    );
}

#[test]
fn reject_non_object_document() {
    assert_eq!(
        warp_json_rpc::req::parse_request(&Value::Int(3)).unwrap_err(),
        RequestError::NotObject
    );
}

#[test]
fn reject_missing_method() {
    let doc = request_doc(Some(Value::Int(1)), None, None);
    assert_eq!(
        warp_json_rpc::req::parse_request(&doc).unwrap_err(),
        RequestError::NoMethod
    );
}

#[test]
fn reject_non_string_method() {
    let doc = request_doc(Some(Value::Int(1)), Some(Value::Int(5)), None);
    assert_eq!(
        warp_json_rpc::req::parse_request(&doc).unwrap_err(),
        RequestError::BadMethod
    );
}

#[test]
fn reject_empty_method() {
    let doc = request_doc(Some(Value::Int(1)), Some(str_val("")), None);
    assert_eq!(
        warp_json_rpc::req::parse_request(&doc).unwrap_err(),
        RequestError::EmptyMethod
    );
}

#[test]
fn reject_scalar_params() {
    let doc = request_doc(Some(Value::Int(1)), Some(str_val("op")), Some(Value::Int(7)));
    assert_eq!(
        warp_json_rpc::req::parse_request(&doc).unwrap_err(),
        RequestError::BadParams
    );
}

#[test]
fn method_name_match_is_exact_and_case_sensitive() {
    let req = Request::new(Id::Number(1), "Add".to_string(), None);
    assert!(req.method_is(&"Add".to_string()));
    assert!(!req.method_is(&"add".to_string()));
    assert!(!req.method_is(&"Add ".to_string()));
}

#[test]
fn deserialize_param_absent_params() {
    let req = Request::new(Id::Number(1), "op".to_string(), None);
    assert_eq!(req.deserialize_param::<Value>(), Err(ParamError::Missing));
}

#[test]
fn deserialize_param_arity_mismatch() {
    let few = Request::new(
        Id::Number(1),
        "op".to_string(),
        Some(Params::ByPosition(vec![Value::Int(1)])),
    );
    assert_eq!(few.deserialize_param::<(i64, i64)>(), Err(ParamError::Mismatch));

    let many = Request::new(
        Id::Number(1),
        "op".to_string(),
        Some(Params::ByPosition(vec![
            Value::Int(1),
            Value::Int(2),
            Value::Int(3),
        ])),
    );
    assert_eq!(many.deserialize_param::<(i64, i64)>(), Err(ParamError::Mismatch));
}

#[test]
fn deserialize_param_element_types() {
    let req = Request::new(
        Id::Number(1),
        "op".to_string(),
        Some(Params::ByPosition(vec![Value::Int(3000000000), Value::Bool(true)])),
    );
    // 3000000000 does not fit a 32-bit integer
    assert_eq!(req.deserialize_param::<(i32, bool)>(), Err(ParamError::Mismatch));
    assert_eq!(req.deserialize_param::<(i64, bool)>(), Ok((3000000000, true)));
}

#[test]
fn text_parse_error_classification() {
    // malformed JSON is a parse error
    let err = warp_json_rpc::req::parse_request_text(b"{ not json").unwrap_err();
    assert_eq!(err.code, -32700);
    assert_eq!(err.message, "Parse error");

    // well-formed JSON that is no request envelope is an invalid request
    let err = warp_json_rpc::req::parse_request_text(
        br#"{"jsonrpc": "2.0", "method": "op"}"#,
    )
    .unwrap_err();
    assert_eq!(err.code, -32600);
    assert_eq!(err.message, "Invalid Request");
}
