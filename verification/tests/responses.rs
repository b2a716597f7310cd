//! Response construction and its wire document: exactly one of result and
//! error, the id always present, nulls emitted explicitly.

use warp_json_rpc::req::Id;
use warp_json_rpc::res::{Builder, Error, Response, ResponseContent};
use warp_json_rpc::value::{obj_get, Value};

fn wire_members(resp: &Response) -> Vec<(String, Value)> {
    match resp.to_value() {
        Value::Obj(members) => members,
        other => panic!("wire document is not an object: {:?}", other),
    }
}

fn lookup(members: &Vec<(String, Value)>, k: &str) -> Option<Value> {
    obj_get(members, &k.to_string()).cloned()
}

#[test]
fn serialize_response() {
    let res = Response::new(
        Id::Number(42),
        ResponseContent::Success(Value::Str("The answer".to_string())),
    );
    let members = wire_members(&res);
    assert_eq!(lookup(&members, "jsonrpc"), Some(Value::Str("2.0".to_string())));
    assert_eq!(lookup(&members, "result"), Some(Value::Str("The answer".to_string())));
    assert_eq!(lookup(&members, "id"), Some(Value::Int(42)));
    assert_eq!(lookup(&members, "error"), None);
}

#[test]
fn serialize_err_response() {
    let res = Response::new(Id::Null, ResponseContent::Error(Error::invalid_params()));
    let members = wire_members(&res);
    assert_eq!(lookup(&members, "jsonrpc"), Some(Value::Str("2.0".to_string())));
    assert_eq!(lookup(&members, "id"), Some(Value::Null));
    assert_eq!(lookup(&members, "result"), None);
    let error = match lookup(&members, "error") {
        Some(Value::Obj(error)) => error,
        other => panic!("error member missing or not an object: {:?}", other),
    };
    assert_eq!(lookup(&error, "code"), Some(Value::Int(-32602)));
    assert_eq!(lookup(&error, "message"), Some(Value::Str("Invalid params".to_string())));
    assert_eq!(lookup(&error, "data"), None);
}

#[test]
fn wire_has_exactly_one_of_result_and_error() {
    let ok = Response::new(Id::Number(1), ResponseContent::Success(Value::Null));
    let ok_members = wire_members(&ok);
    assert!(lookup(&ok_members, "result").is_some());
    assert!(lookup(&ok_members, "error").is_none());
    assert!(lookup(&ok_members, "id").is_some());

    let err = Response::new_err(Id::String("x".to_string()), Error::method_not_found());
    let err_members = wire_members(&err);
    assert!(lookup(&err_members, "result").is_none());
    assert!(lookup(&err_members, "error").is_some());
    assert_eq!(lookup(&err_members, "id"), Some(Value::Str("x".to_string())));
}

#[test]
fn reserved_error_table() {
    assert_eq!(Error::parse_error().code, -32700);
    assert_eq!(Error::parse_error().message, "Parse error");
    assert_eq!(Error::invalid_request().code, -32600);
    assert_eq!(Error::invalid_request().message, "Invalid Request");
    assert_eq!(Error::method_not_found().code, -32601);
    assert_eq!(Error::method_not_found().message, "Method not found");
    assert_eq!(Error::invalid_params().code, -32602);
    assert_eq!(Error::invalid_params().message, "Invalid params");
    assert_eq!(Error::internal_error().code, -32603);
    assert_eq!(Error::internal_error().message, "Internal error");
    assert!(Error::parse_error().data.is_none());
    assert!(Error::internal_error().data.is_none());
}

#[test]
fn custom_error_with_data() {
    let e = Error::custom(5, "oops".to_string()).with_data(Value::Int(1));
    assert_eq!(e.code, 5);
    assert_eq!(e.message, "oops");
    assert_eq!(e.data, Some(Value::Int(1)));

    let res = Response::new_err(Id::Number(9), e);
    let members = wire_members(&res);
    let error = match lookup(&members, "error") {
        Some(Value::Obj(error)) => error,
        other => panic!("error member missing or not an object: {:?}", other),
    };
    assert_eq!(lookup(&error, "code"), Some(Value::Int(5)));
    assert_eq!(lookup(&error, "data"), Some(Value::Int(1)));
}

#[test]
fn builder_copies_id_verbatim() {
    let ok = Builder::new(Id::Number(7)).success(Value::Str("hi".to_string()));
    assert_eq!(ok.id, Id::Number(7));
    assert_eq!(ok.content, ResponseContent::Success(Value::Str("hi".to_string())));

    let err = Builder::new(Id::String("q".to_string())).error(Error::method_not_found());
    assert_eq!(err.id, Id::String("q".to_string()));
    assert_eq!(err.content, ResponseContent::Error(Error::method_not_found()));
}

#[test]
fn builder_result_collapses_outcomes() {
    let ok = Builder::new(Id::Number(1)).result(Ok(Value::Int(10)));
    assert_eq!(ok, Response::new(Id::Number(1), ResponseContent::Success(Value::Int(10))));

    let err = Builder::new(Id::Number(1)).result(Err(Error::custom(7, "no".to_string())));
    assert_eq!(err, Response::new_err(Id::Number(1), Error::custom(7, "no".to_string())));
}

#[test]
fn json_text_of_success_response() {
    let res = Response::new(Id::Number(1), ResponseContent::Success(Value::Int(5)));
    assert_eq!(res.to_json(), b"{\"jsonrpc\":\"2.0\",\"id\":1,\"result\":5}".to_vec());
}

#[test]
fn json_text_of_error_response() {
    let res = Response::new_err(Id::String("x".to_string()), Error::method_not_found());
    assert_eq!(
        String::from_utf8(res.to_json()).unwrap(),
        "{\"jsonrpc\":\"2.0\",\"id\":\"x\",\"error\":{\"code\":-32601,\"message\":\"Method not found\"}}"
    );
}

#[test]
fn json_text_escapes_and_numbers() {
    let res = Response::new(
        Id::Null,
        ResponseContent::Success(Value::Arr(vec![
            Value::Str("a\"b\\c\nd".to_string()),
            Value::Str("é€\u{10348}".to_string()),
            Value::Int(i64::MIN),
            Value::Int(i64::MAX),
            Value::Int(0),
            Value::Bool(true),
            Value::Bool(false),
            Value::Null,
            Value::Obj(vec![]),
            Value::Arr(vec![]),
        ])),
    );
    let text = String::from_utf8(res.to_json()).unwrap();
    assert_eq!(
        text,
        "{\"jsonrpc\":\"2.0\",\"id\":null,\"result\":[\"a\\\"b\\\\c\\u000ad\",\"\\u00e9\\u20ac\\ud800\\udf48\",-9223372036854775808,9223372036854775807,0,true,false,null,{},[]]}"
    );
}

#[test]
fn json_text_reparses_with_serde() {
    // the verified writer's text must be valid JSON for an ordinary parser
    let res = Response::new(
        Id::Number(42),
        ResponseContent::Success(Value::Obj(vec![
            ("msg".to_string(), Value::Str("tab\there \"and\" back\\slash é".to_string())),
            ("n".to_string(), Value::Int(-7)),
            ("flags".to_string(), Value::Arr(vec![Value::Bool(true), Value::Null])),
        ])),
    );
    let parsed: serde_json::Value = serde_json::from_slice(&res.to_json()).unwrap();
    assert_eq!(parsed["jsonrpc"], serde_json::Value::String("2.0".to_string()));
    assert_eq!(parsed["id"], serde_json::Value::Number(42.into()));
    assert_eq!(
        parsed["result"]["msg"],
        serde_json::Value::String("tab\there \"and\" back\\slash é".to_string())
    );
    assert_eq!(parsed["result"]["n"], serde_json::Value::Number((-7).into()));
    assert_eq!(parsed["result"]["flags"][0], serde_json::Value::Bool(true));
    assert_eq!(parsed["result"]["flags"][1], serde_json::Value::Null);
    assert!(parsed.get("error").is_none());
}
