//! The dispatch core: registration, routing, parameter binding, handler
//! outcomes, and the fixed error responses.

use std::cell::Cell;
use std::rc::Rc;

use warp_json_rpc::method::{array_method_fn, map_method_fn};
use warp_json_rpc::req::{Id, Params, Request};
use warp_json_rpc::res::{Error, Response, ResponseContent};
use warp_json_rpc::server::{CopyFactory, RegisterError, Server, ServerBuilder};
use warp_json_rpc::store::LazyReqStore;
use warp_json_rpc::value::Value;

fn pos_request(id: Id, method: &str, params: Vec<Value>) -> Request {
    Request::new(id, method.to_string(), Some(Params::ByPosition(params)))
}

#[test]
fn macro_test_inner() {
    let req_str = r#"{
            "jsonrpc": "2.0",
            "method": "add",
            "params": [1, 2],
            "id": 42
        }"#;
    let req = warp_json_rpc::req::parse_request_text(req_str.as_bytes()).unwrap();

    let factory = || array_method_fn(|a: i64, b: i64| Ok(Value::Int(a + b)));
    let server = Server::builder()
        .register("add".to_string(), factory)
        .unwrap()
        .build();
    let res = server.handle_request(req);
    assert_eq!(res.id, Id::Number(42));
    assert_eq!(res.content, ResponseContent::Success(Value::Int(3)));
}

#[test]
fn positional_add_scenario() {
    // {"jsonrpc":"2.0","id":1,"method":"add","params":[2,3]} answers result 5
    let factory = || array_method_fn(|a: i64, b: i64| Ok(Value::Int(a + b)));
    let server = Server::builder()
        .register("add".to_string(), factory)
        .unwrap()
        .build();
    let req = pos_request(Id::Number(1), "add", vec![Value::Int(2), Value::Int(3)]);
    let res = server.handle_request(req);
    assert_eq!(
        res,
        Response::new(Id::Number(1), ResponseContent::Success(Value::Int(5)))
    );
}

#[test]
fn unknown_method_scenario() {
    // no method named "sub" is registered
    let factory = || array_method_fn(|a: i64, b: i64| Ok(Value::Int(a + b)));
    let server = Server::builder()
        .register("add".to_string(), factory)
        .unwrap()
        .build();
    let req = pos_request(Id::String("x".to_string()), "sub", vec![Value::Int(1)]);
    let res = server.handle_request(req);
    assert_eq!(res.id, Id::String("x".to_string()));
    assert_eq!(res.content, ResponseContent::Error(Error::method_not_found()));
    assert_eq!(Error::method_not_found().code, -32601);
}

#[test]
fn named_params_for_positional_handler_scenario() {
    let factory = || array_method_fn(|a: i64, b: i64| Ok(Value::Int(a + b)));
    let server = Server::builder()
        .register("add".to_string(), factory)
        .unwrap()
        .build();
    let req = Request::new(
        Id::Number(1),
        "add".to_string(),
        Some(Params::ByName(vec![
            ("a".to_string(), Value::Int(2)),
            ("b".to_string(), Value::Int(3)),
        ])),
    );
    let res = server.handle_request(req);
    assert_eq!(res.id, Id::Number(1));
    assert_eq!(res.content, ResponseContent::Error(Error::invalid_params()));
    assert_eq!(Error::invalid_params().code, -32602);
}

#[test]
fn null_id_notification_scenario() {
    let factory = || array_method_fn(|| Ok(Value::Str("done".to_string())));
    let server = Server::builder()
        .register("notify_only".to_string(), factory)
        .unwrap()
        .build();
    let req = Request::new(Id::Null, "notify_only".to_string(), None);
    let res = server.handle_request(req);
    assert_eq!(res.id, Id::Null);
    assert_eq!(res.content, ResponseContent::Success(Value::Str("done".to_string())));

    // the wire document still carries the id member, explicitly null
    let members = match res.to_value() {
        Value::Obj(members) => members,
        other => panic!("wire document is not an object: {:?}", other),
    };
    assert_eq!(
        warp_json_rpc::value::obj_get(&members, &"id".to_string()),
        Some(&Value::Null)
    );
}

#[test]
fn handler_runs_once_and_only_on_match() {
    let count = Rc::new(Cell::new(0u32));
    let c = count.clone();
    let factory = move || {
        let c = c.clone();
        array_method_fn(move |a: i64, b: i64| {
            c.set(c.get() + 1);
            Ok(Value::Int(a + b))
        })
    };
    let server = Server::builder()
        .register("add".to_string(), factory)
        .unwrap()
        .build();

    // unknown method: the handler is never invoked
    let res = server.handle_request(pos_request(Id::Number(1), "sub", vec![Value::Int(1)]));
    assert_eq!(res.content, ResponseContent::Error(Error::method_not_found()));
    assert_eq!(count.get(), 0);

    // undecodable params: the handler is never invoked
    let res = server.handle_request(pos_request(Id::Number(2), "add", vec![Value::Int(1)]));
    assert_eq!(res.content, ResponseContent::Error(Error::invalid_params()));
    assert_eq!(count.get(), 0);

    // a well-formed call invokes it exactly once
    let res = server.handle_request(pos_request(
        Id::Number(3),
        "add",
        vec![Value::Int(1), Value::Int(2)],
    ));
    assert_eq!(res.content, ResponseContent::Success(Value::Int(3)));
    assert_eq!(count.get(), 1);
}

#[test]
fn dispatch_twice_same_request_same_response() {
    let factory = || array_method_fn(|a: i64, b: i64| Ok(Value::Int(a + b)));
    let server = Server::builder()
        .register("add".to_string(), factory)
        .unwrap()
        .build();
    let mk = || pos_request(Id::Number(8), "add", vec![Value::Int(20), Value::Int(22)]);
    let res1 = server.handle_request(mk());
    let res2 = server.handle_request(mk());
    assert_eq!(res1, res2);
    assert_eq!(res1.content, ResponseContent::Success(Value::Int(42)));

    let unknown = || pos_request(Id::Number(9), "gone", vec![]);
    let res3 = server.handle_request(unknown());
    let res4 = server.handle_request(unknown());
    assert_eq!(res3, res4);
}

#[test]
fn duplicate_registration_is_refused() {
    let factory =
        || array_method_fn(|a: i64, b: i64| -> Result<Value, Error> { Ok(Value::Int(a + b)) });
    let builder = ServerBuilder::new().register("add".to_string(), factory).unwrap();
    let err = match builder.register("add".to_string(), factory) {
        Err(e) => e,
        Ok(_) => panic!("a duplicate registration was accepted"),
    };
    assert_eq!(err, RegisterError::DuplicateName);
}

#[test]
fn handler_error_propagates_verbatim() {
    let factory = || {
        array_method_fn(|n: i64| {
            if n < 0 {
                Err(Error::custom(1000, "negative".to_string()).with_data(Value::Int(n)))
            } else {
                Ok(Value::Int(n))
            }
        })
    };
    let server = Server::builder()
        .register("check".to_string(), factory)
        .unwrap()
        .build();

    let res = server.handle_request(pos_request(Id::Number(1), "check", vec![Value::Int(-4)]));
    assert_eq!(res.id, Id::Number(1));
    assert_eq!(
        res.content,
        ResponseContent::Error(
            Error::custom(1000, "negative".to_string()).with_data(Value::Int(-4))
        )
    );

    let res = server.handle_request(pos_request(Id::Number(2), "check", vec![Value::Int(4)]));
    assert_eq!(res.content, ResponseContent::Success(Value::Int(4)));
}

#[test]
fn named_binding_decodes_whole_mapping() {
    let factory = || {
        map_method_fn(|v: Value| {
            let members = match &v {
                Value::Obj(members) => members,
                _ => return Err(Error::invalid_params()),
            };
            let lhs = match warp_json_rpc::value::obj_get(members, &"lhs".to_string()) {
                Some(Value::Int(n)) => *n,
                _ => return Err(Error::invalid_params()),
            };
            let rhs = match warp_json_rpc::value::obj_get(members, &"rhs".to_string()) {
                Some(Value::Int(n)) => *n,
                _ => return Err(Error::invalid_params()),
            };
            Ok(Value::Int(lhs * rhs))
        })
    };
    let server = Server::builder()
        .register("mul2".to_string(), factory)
        .unwrap()
        .build();

    let req = Request::new(
        Id::Number(1),
        "mul2".to_string(),
        Some(Params::ByName(vec![
            ("lhs".to_string(), Value::Int(6)),
            ("rhs".to_string(), Value::Int(7)),
        ])),
    );
    assert_eq!(
        server.handle_request(req).content,
        ResponseContent::Success(Value::Int(42))
    );

    // positional params never reach a named-binding handler
    let req = pos_request(Id::Number(2), "mul2", vec![Value::Int(6), Value::Int(7)]);
    assert_eq!(
        server.handle_request(req).content,
        ResponseContent::Error(Error::invalid_params())
    );
}

#[test]
fn zero_arity_binding() {
    let factory = || array_method_fn(|| Ok(Value::Int(99)));
    let server = Server::builder()
        .register("ping".to_string(), factory)
        .unwrap()
        .build();

    // absent params bind
    let res = server.handle_request(Request::new(Id::Number(1), "ping".to_string(), None));
    assert_eq!(res.content, ResponseContent::Success(Value::Int(99)));

    // an empty positional list binds
    let res = server.handle_request(pos_request(Id::Number(2), "ping", vec![]));
    assert_eq!(res.content, ResponseContent::Success(Value::Int(99)));

    // extra positional values are an arity mismatch, not a truncation
    let res = server.handle_request(pos_request(Id::Number(3), "ping", vec![Value::Int(1)]));
    assert_eq!(res.content, ResponseContent::Error(Error::invalid_params()));

    // named params never bind a zero-arity positional handler
    let res = server.handle_request(Request::new(
        Id::Number(4),
        "ping".to_string(),
        Some(Params::ByName(vec![])),
    ));
    assert_eq!(res.content, ResponseContent::Error(Error::invalid_params()));
}

#[test]
fn store_is_fill_once() {
    let mut store = LazyReqStore::empty();
    assert!(!store.filled());
    assert!(store.borrow().is_none());

    let first = Request::new(Id::Number(1), "one".to_string(), None);
    assert!(store.fill(first).is_ok());
    assert!(store.filled());
    assert_eq!(store.borrow().unwrap().method(), "one");

    let second = Request::new(Id::Number(2), "two".to_string(), None);
    let back = store.fill(second).unwrap_err();
    assert_eq!(back.method(), "two");
    assert_eq!(store.borrow().unwrap().method(), "one");
}

#[test]
fn stateless_method_as_its_own_factory() {
    let factory = CopyFactory { m: array_method_fn(|n: i64| Ok(Value::Int(n * 2))) };
    let server = Server::builder()
        .register("double".to_string(), factory)
        .unwrap()
        .build();
    let res = server.handle_request(pos_request(Id::Number(1), "double", vec![Value::Int(21)]));
    assert_eq!(res.content, ResponseContent::Success(Value::Int(42)));
}
