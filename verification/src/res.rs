//! The response side of the protocol envelope.
//!
//! A response carries the request's id unchanged and exactly one of a
//! success result or an error object; the wire document omits whichever
//! of the two is absent, while a null id is emitted explicitly.

use vstd::prelude::*;

use crate::req::{id_of_value, Id, IdV, Version};
use crate::value::{clone_value, obj_lookup, Value, ValueV};

verus! {

/// A protocol error object: a signed 64-bit code, a message, and an
/// optional structured payload.
#[derive(Debug)]
pub struct Error {
    pub code: i64,
    pub message: String,
    pub data: Option<Value>,
}

/// Spec-level shadow of [`Error`].
#[verifier::ext_equal]
pub struct ErrorV {
    pub code: int,
    pub message: Seq<char>,
    pub data: Option<ValueV>,
}

impl View for Error {
    type V = ErrorV;

    open spec fn view(&self) -> ErrorV {
        ErrorV { code: self.code as int, message: self.message@, data: self.data.deep_view() }
    }
}

/// The reserved error codes, whose meaning the protocol fixes.
pub open spec fn is_reserved_code(code: int) -> bool {
    ||| code == -32700
    ||| code == -32600
    ||| code == -32601
    ||| code == -32602
    ||| code == -32603
}

pub open spec fn parse_error_v() -> ErrorV {
    ErrorV { code: -32700, message: "Parse error"@, data: None }
}

pub open spec fn invalid_request_v() -> ErrorV {
    ErrorV { code: -32600, message: "Invalid Request"@, data: None }
}

pub open spec fn method_not_found_v() -> ErrorV {
    ErrorV { code: -32601, message: "Method not found"@, data: None }
}

pub open spec fn invalid_params_v() -> ErrorV {
    ErrorV { code: -32602, message: "Invalid params"@, data: None }
}

pub open spec fn internal_error_v() -> ErrorV {
    ErrorV { code: -32603, message: "Internal error"@, data: None }
}

impl Error {
    /// Reserved error: the request document was not valid JSON.
    pub fn parse_error() -> (e: Error)
        ensures
            e@ == parse_error_v(),
    {
        Error { code: -32700, message: String::from_str("Parse error"), data: None }
    }

    /// Reserved error: the document is not a valid request envelope.
    pub fn invalid_request() -> (e: Error)
        ensures
            e@ == invalid_request_v(),
    {
        Error { code: -32600, message: String::from_str("Invalid Request"), data: None }
    }

    /// Reserved error: no method with the requested name is registered.
    pub fn method_not_found() -> (e: Error)
        ensures
            e@ == method_not_found_v(),
    {
        Error { code: -32601, message: String::from_str("Method not found"), data: None }
    }

    /// Reserved error: the parameters do not fit the method's declared shape.
    pub fn invalid_params() -> (e: Error)
        ensures
            e@ == invalid_params_v(),
    {
        Error { code: -32602, message: String::from_str("Invalid params"), data: None }
    }

    /// Reserved error: an unexpected fault inside the dispatch plumbing.
    pub fn internal_error() -> (e: Error)
        ensures
            e@ == internal_error_v(),
    {
        Error { code: -32603, message: String::from_str("Internal error"), data: None }
    }

    /// An application-defined error with the given code and message.
    pub fn custom(code: i64, message: String) -> (e: Error)
        ensures
            e@ == (ErrorV { code: code as int, message: message@, data: None }),
    {
        Error { code, message, data: None }
    }

    /// The same error, with a structured diagnostic payload attached.
    pub fn with_data(self, data: Value) -> (e: Error)
        ensures
            e@ == (ErrorV { code: self@.code, message: self@.message, data: Some(data@) }),
    {
        Error { code: self.code, message: self.message, data: Some(data) }
    }
}

impl Clone for Error {
    fn clone(&self) -> (r: Self)
        ensures
            r@ == self@,
    {
        Error {
            code: self.code,
            message: self.message.clone(),
            data: match &self.data {
                None => None,
                Some(d) => Some(clone_value(d)),
            },
        }
    }
}

/// Exactly one of the two mutually exclusive response contents.
#[derive(Debug)]
pub enum ResponseContent {
    Success(Value),
    Error(Error),
}

/// Spec-level shadow of [`ResponseContent`].
#[verifier::ext_equal]
pub enum ResponseContentV {
    Success(ValueV),
    Error(ErrorV),
}

impl View for ResponseContent {
    type V = ResponseContentV;

    open spec fn view(&self) -> ResponseContentV {
        match self {
            ResponseContent::Success(v) => ResponseContentV::Success(v@),
            ResponseContent::Error(e) => ResponseContentV::Error(e@),
        }
    }
}

/// A full response envelope.
#[derive(Debug)]
pub struct Response {
    pub jsonrpc: Version,
    pub id: Id,
    pub content: ResponseContent,
}

/// Spec-level shadow of [`Response`].
#[verifier::ext_equal]
pub struct ResponseV {
    pub id: IdV,
    pub content: ResponseContentV,
}

impl View for Response {
    type V = ResponseV;

    open spec fn view(&self) -> ResponseV {
        ResponseV { id: self.id@, content: self.content@ }
    }
}

impl Response {
    /// A response with the given id and content.
    pub fn new(id: Id, content: ResponseContent) -> (r: Response)
        ensures
            r@ == (ResponseV { id: id@, content: content@ }),
    {
        Response { jsonrpc: Version::V2, id, content }
    }

    /// An error response with the given id.
    pub fn new_err(id: Id, error: Error) -> (r: Response)
        ensures
            r@ == (ResponseV { id: id@, content: ResponseContentV::Error(error@) }),
    {
        Response { jsonrpc: Version::V2, id, content: ResponseContent::Error(error) }
    }

    /// The wire document of this response, per [`response_to_value_v`].
    pub fn to_value(&self) -> (r: Value)
        ensures
            r@ == response_to_value_v(self@),
    {
        let mut members: Vec<(String, Value)> = Vec::new();
        members.push((String::from_str("jsonrpc"), Value::Str(String::from_str("2.0"))));
        members.push((String::from_str("id"), id_to_value(&self.id)));
        match &self.content {
            ResponseContent::Success(v) => {
                members.push((String::from_str("result"), clone_value(v)));
            },
            ResponseContent::Error(e) => {
                members.push((String::from_str("error"), error_to_value(e)));
            },
        }
        let ghost ms = members@;
        let r = Value::Obj(members);
        proof {
            lemma_members_unfold(ms);
            assert(crate::value::members_view(ms) =~= response_to_value_v(self@)->Obj_0);
            assert(r@ == response_to_value_v(self@));
        }
        r
    }

    /// The canonical JSON text of this response's wire document.
    pub fn to_json(&self) -> (r: Vec<u8>)
        ensures
            r@ == crate::json::json_bytes(response_to_value_v(self@)),
    {
        let doc = self.to_value();
        crate::json::to_json_vec(&doc)
    }
}

/// The wire form of an id.  A null id is emitted explicitly, never omitted.
pub open spec fn id_to_value_v(id: IdV) -> ValueV {
    match id {
        IdV::Str(s) => ValueV::Str(s),
        IdV::Num(n) => ValueV::Int(n),
        IdV::Null => ValueV::Null,
    }
}

/// The wire form of an error object: code and message always, the data
/// member only when a payload is present.
pub open spec fn error_to_value_v(e: ErrorV) -> ValueV {
    ValueV::Obj(
        if e.data is Some {
            seq![
                ("code"@, ValueV::Int(e.code)),
                ("message"@, ValueV::Str(e.message)),
                ("data"@, e.data->0),
            ]
        } else {
            seq![("code"@, ValueV::Int(e.code)), ("message"@, ValueV::Str(e.message))]
        },
    )
}

/// The wire form of a response: the version token, the id (explicitly null
/// for a null id), and exactly one of the result or error members.
pub open spec fn response_to_value_v(r: ResponseV) -> ValueV {
    ValueV::Obj(
        seq![("jsonrpc"@, ValueV::Str("2.0"@)), ("id"@, id_to_value_v(r.id))].push(
            match r.content {
                ResponseContentV::Success(v) => ("result"@, v),
                ResponseContentV::Error(e) => ("error"@, error_to_value_v(e)),
            },
        ),
    )
}

/// The wire form of an id.
pub fn id_to_value(id: &Id) -> (r: Value)
    ensures
        r@ == id_to_value_v(id@),
{
    match id {
        Id::String(s) => Value::Str(s.clone()),
        Id::Number(n) => Value::Int(*n),
        Id::Null => Value::Null,
    }
}

/// The wire form of an error object.
pub fn error_to_value(e: &Error) -> (r: Value)
    ensures
        r@ == error_to_value_v(e@),
{
    let mut members: Vec<(String, Value)> = Vec::new();
    members.push((String::from_str("code"), Value::Int(e.code)));
    members.push((String::from_str("message"), Value::Str(e.message.clone())));
    match &e.data {
        None => {},
        Some(d) => {
            members.push((String::from_str("data"), clone_value(d)));
        },
    }
    let ghost ms = members@;
    let r = Value::Obj(members);
    proof {
        lemma_members_unfold(ms);
        assert(crate::value::members_view(ms) =~= error_to_value_v(e@)->Obj_0);
        assert(r@ == error_to_value_v(e@));
    }
    r
}

/// Unfolds the member view of a short member list element by element, so
/// that a literal document built by pushes can be compared to its spec.
proof fn lemma_members_unfold(s: Seq<(String, Value)>)
    ensures
        crate::value::members_view(s).len() == s.len(),
        forall|i: int|
            0 <= i < s.len() ==> crate::value::members_view(s)[i] == (
            s[i].0@,
            crate::value::value_view(s[i].1),
            ),
{
    crate::value::lemma_members_view_len(s);
    assert forall|i: int| 0 <= i < s.len() implies crate::value::members_view(s)[i] == (
        s[i].0@,
        crate::value::value_view(s[i].1),
    ) by {
        crate::value::lemma_members_view_index(s, i);
    }
}

/// A per-request response factory: it remembers the originating id and
/// produces well-formed success or error responses for it.
#[derive(Debug)]
pub struct Builder {
    pub id: Id,
}

impl Builder {
    /// A builder for the request with the given id.
    pub fn new(id: Id) -> (b: Builder)
        ensures
            b@ == id@,
    {
        Builder { id }
    }

    /// A success response carrying `content`, with the remembered id.
    pub fn success(self, content: Value) -> (r: Response)
        ensures
            r@ == (ResponseV { id: self@, content: ResponseContentV::Success(content@) }),
    {
        Response::new(self.id, ResponseContent::Success(content))
    }

    /// An error response carrying `error`, with the remembered id.
    pub fn error(self, error: Error) -> (r: Response)
        ensures
            r@ == (ResponseV { id: self@, content: ResponseContentV::Error(error@) }),
    {
        Response::new(self.id, ResponseContent::Error(error))
    }

    /// Collapse a caller-level outcome into the matching response variant.
    pub fn result(self, result: Result<Value, Error>) -> (r: Response)
        ensures
            r@.id == self@,
            match result {
                Ok(v) => r@.content == ResponseContentV::Success(v@),
                Err(e) => r@.content == ResponseContentV::Error(e@),
            },
    {
        match result {
            Ok(success) => self.success(success),
            Err(error) => self.error(error),
        }
    }
}

impl View for Builder {
    type V = IdV;

    open spec fn view(&self) -> IdV {
        self.id@
    }
}


impl PartialEq for Error {
    fn eq(&self, other: &Self) -> (r: bool) {
        self.code == other.code && self.message == other.message && match (
            &self.data,
            &other.data,
        ) {
            (None, None) => true,
            (Some(a), Some(b)) => crate::value::value_eq(a, b),
            _ => false,
        }
    }
}

impl vstd::std_specs::cmp::PartialEqSpecImpl for Error {
    open spec fn obeys_eq_spec() -> bool {
        true
    }

    open spec fn eq_spec(&self, other: &Self) -> bool {
        self@ == other@
    }
}

impl PartialEq for ResponseContent {
    fn eq(&self, other: &Self) -> (r: bool) {
        match (self, other) {
            (ResponseContent::Success(a), ResponseContent::Success(b)) => crate::value::value_eq(
                a,
                b,
            ),
            (ResponseContent::Error(a), ResponseContent::Error(b)) => *a == *b,
            _ => false,
        }
    }
}

impl vstd::std_specs::cmp::PartialEqSpecImpl for ResponseContent {
    open spec fn obeys_eq_spec() -> bool {
        true
    }

    open spec fn eq_spec(&self, other: &Self) -> bool {
        self@ == other@
    }
}

impl PartialEq for Response {
    fn eq(&self, other: &Self) -> (r: bool) {
        self.id == other.id && self.content == other.content
    }
}

impl vstd::std_specs::cmp::PartialEqSpecImpl for Response {
    open spec fn obeys_eq_spec() -> bool {
        true
    }

    open spec fn eq_spec(&self, other: &Self) -> bool {
        self@ == other@
    }
}

/// The wire document of a response holds the version token, holds the id
/// member in every case (explicitly null when the id is null), and holds
/// exactly one of the result and error members, never both; that member
/// carries the response's own content.
pub proof fn lemma_response_wire_shape(r: ResponseV)
    ensures
        response_to_value_v(r) is Obj,
        obj_lookup(response_to_value_v(r)->Obj_0, "jsonrpc"@) == Some(ValueV::Str("2.0"@)),
        obj_lookup(response_to_value_v(r)->Obj_0, "id"@) == Some(id_to_value_v(r.id)),
        r.id is Null ==> obj_lookup(response_to_value_v(r)->Obj_0, "id"@) == Some(ValueV::Null),
        r.content matches ResponseContentV::Success(v) ==> obj_lookup(
            response_to_value_v(r)->Obj_0,
            "result"@,
        ) == Some(v) && obj_lookup(response_to_value_v(r)->Obj_0, "error"@) is None,
        r.content matches ResponseContentV::Error(e) ==> obj_lookup(
            response_to_value_v(r)->Obj_0,
            "error"@,
        ) == Some(error_to_value_v(e)) && obj_lookup(
            response_to_value_v(r)->Obj_0,
            "result"@,
        ) is None,
        id_of_value(id_to_value_v(r.id)) == Some(r.id),
{
    reveal_strlit("jsonrpc");
    reveal_strlit("id");
    reveal_strlit("result");
    reveal_strlit("error");
    reveal_strlit("2.0");
    reveal_with_fuel(obj_lookup, 5);
    let ms = response_to_value_v(r)->Obj_0;
    assert(ms.len() == 3);
    assert("jsonrpc"@.len() == 7);
    assert("id"@.len() == 2);
    assert("result"@.len() == 6);
    assert("error"@.len() == 5);
    assert(ms.skip(1) =~= seq![ms[1], ms[2]]);
    assert(ms.skip(1).skip(1) =~= seq![ms[2]]);
    assert(ms.skip(1).skip(1).skip(1) =~= Seq::<(Seq<char>, ValueV)>::empty());
    assert(obj_lookup(ms, "jsonrpc"@) == Some(ms[0].1));
    assert(obj_lookup(ms, "id"@) == Some(ms[1].1));
    assert(obj_lookup(ms, "result"@) == if ms[2].0 == "result"@ {
        Some(ms[2].1)
    } else {
        None
    });
    assert(obj_lookup(ms, "error"@) == if ms[2].0 == "error"@ {
        Some(ms[2].1)
    } else {
        None
    });
}


/// Round trip at the text level: the JSON text of a response's wire
/// document parses back to exactly that document.  With
/// [`lemma_response_wire_shape`], the parsed document carries the
/// response's id and exactly one of its result or error.
pub proof fn lemma_response_wire_round_trip(resp: Response)
    ensures
        crate::json::parse_json_spec(crate::json::json_bytes(response_to_value_v(resp@)))
            == Some(response_to_value_v(resp@)),
{
    let doc = response_to_value_v(resp@);
    assert(crate::json::wf_doc(doc)) by {
        let ms = doc->Obj_0;
        assert(ms.len() == 3);
        assert(crate::json::wf_doc(ms[0].1));
        assert(crate::json::wf_doc(ms[1].1));
        match &resp.content {
            ResponseContent::Success(v) => {
                crate::json::lemma_value_view_wf(*v);
                assert(ms[2].1 == crate::value::value_view(*v));
            },
            ResponseContent::Error(e) => {
                assert(ms[2].1 == error_to_value_v((*e)@));
                let es = error_to_value_v((*e)@)->Obj_0;
                match &e.data {
                    None => {
                        assert(es.len() == 2);
                        assert(crate::json::wf_doc(es[0].1));
                        assert(crate::json::wf_doc(es[1].1));
                        assert forall|k: int| 0 <= k < es.len() implies crate::json::wf_doc(
                            #[trigger] es[k].1,
                        ) by {
                            assert(k == 0 || k == 1);
                        };
                    },
                    Some(d) => {
                        crate::json::lemma_value_view_wf(*d);
                        assert(es.len() == 3);
                        assert(crate::json::wf_doc(es[0].1));
                        assert(crate::json::wf_doc(es[1].1));
                        assert(es[2].1 == crate::value::value_view(*d));
                        assert forall|k: int| 0 <= k < es.len() implies crate::json::wf_doc(
                            #[trigger] es[k].1,
                        ) by {
                            assert(k == 0 || k == 1 || k == 2);
                        };
                    },
                }
                assert(crate::json::wf_doc(ms[2].1));
            },
        }
        assert(crate::json::wf_doc(ms[2].1));
        assert forall|k: int| 0 <= k < ms.len() implies crate::json::wf_doc(
            #[trigger] ms[k].1,
        ) by {
            assert(k == 0 || k == 1 || k == 2);
        };
    }
    crate::json::lemma_write_parse_round_trip(doc);
}

} // verus!
