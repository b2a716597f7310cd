//! The request side of the protocol envelope.
//!
//! A request document must carry the exact version token, an id (string,
//! integer or null — a missing id key is rejected, a null id is not), a
//! non-empty method name, and optionally positional or named parameters.

use vstd::prelude::*;

use crate::value::{
    clone_members, clone_value, clone_values, members_view, obj_lookup, vals_view, Value, ValueV,
};

verus! {

/// The protocol version token.  Only "2.0" exists.
#[derive(Clone, Copy, PartialEq, Eq, Structural, Debug)]
pub enum Version {
    V2,
}

/// A request id: a string, an integer, or null.
#[derive(Debug)]
pub enum Id {
    String(String),
    Number(i64),
    Null,
}

/// Spec-level shadow of [`Id`].
#[verifier::ext_equal]
pub enum IdV {
    Str(Seq<char>),
    Num(int),
    Null,
}

impl View for Id {
    type V = IdV;

    open spec fn view(&self) -> IdV {
        match self {
            Id::String(s) => IdV::Str(s@),
            Id::Number(n) => IdV::Num(*n as int),
            Id::Null => IdV::Null,
        }
    }
}

impl Clone for Id {
    fn clone(&self) -> (r: Self)
        ensures
            r == self,
    {
        match self {
            Id::String(s) => Id::String(s.clone()),
            Id::Number(n) => Id::Number(*n),
            Id::Null => Id::Null,
        }
    }
}

impl PartialEq for Id {
    fn eq(&self, other: &Self) -> (r: bool) {
        match (self, other) {
            (Id::String(a), Id::Number(_)) => false,
            (Id::String(a), Id::Null) => false,
            (Id::Number(_), Id::String(_)) => false,
            (Id::Number(_), Id::Null) => false,
            (Id::Null, Id::String(_)) => false,
            (Id::Null, Id::Number(_)) => false,
            (Id::String(a), Id::String(b)) => *a == *b,
            (Id::Number(a), Id::Number(b)) => *a == *b,
            (Id::Null, Id::Null) => true,
        }
    }
}

impl vstd::std_specs::cmp::PartialEqSpecImpl for Id {
    open spec fn obeys_eq_spec() -> bool {
        true
    }

    open spec fn eq_spec(&self, other: &Self) -> bool {
        self@ == other@
    }
}

/// Request parameters: a positional sequence or a named mapping.
#[derive(Debug)]
pub enum Params {
    ByPosition(Vec<Value>),
    ByName(Vec<(String, Value)>),
}

/// Spec-level shadow of [`Params`].
#[verifier::ext_equal]
pub enum ParamsV {
    ByPosition(Seq<ValueV>),
    ByName(Seq<(Seq<char>, ValueV)>),
}

impl View for Params {
    type V = ParamsV;

    open spec fn view(&self) -> ParamsV {
        match self {
            Params::ByPosition(items) => ParamsV::ByPosition(vals_view(items@)),
            Params::ByName(members) => ParamsV::ByName(members_view(members@)),
        }
    }
}

impl DeepView for Params {
    type V = ParamsV;

    open spec fn deep_view(&self) -> ParamsV {
        self.view()
    }
}

/// A fully-parsed request envelope, immutable after construction.
#[derive(Debug)]
pub struct Request {
    pub jsonrpc: Version,
    pub id: Id,
    pub method: String,
    pub params: Option<Params>,
}

/// Spec-level shadow of [`Request`].  The version token carries no
/// information, so it is not part of the view.
#[verifier::ext_equal]
pub struct RequestV {
    pub id: IdV,
    pub method: Seq<char>,
    pub params: Option<ParamsV>,
}

impl View for Request {
    type V = RequestV;

    open spec fn view(&self) -> RequestV {
        RequestV { id: self.id@, method: self.method@, params: self.params.deep_view() }
    }
}

/// Why a document was rejected as a request envelope.
#[derive(Clone, Copy, PartialEq, Eq, Structural, Debug)]
pub enum RequestError {
    /// The document is not an object.
    NotObject,
    /// No "jsonrpc" key.
    NoVersion,
    /// The version token is not exactly "2.0".
    BadVersion,
    /// No "id" key at all (distinct from an explicit null id).
    NoId,
    /// The id is not a string, an integer, or null.
    BadId,
    /// No "method" key.
    NoMethod,
    /// The method name is not a string.
    BadMethod,
    /// The method name is empty.
    EmptyMethod,
    /// Params are present but neither an array nor an object.
    BadParams,
}

/// The id denoted by a document value, if it has an id shape.
pub open spec fn id_of_value(v: ValueV) -> Option<IdV> {
    match v {
        ValueV::Str(s) => Some(IdV::Str(s)),
        ValueV::Int(n) => Some(IdV::Num(n)),
        ValueV::Null => Some(IdV::Null),
        _ => None,
    }
}

/// The parameter list denoted by a document value, if it has one.
pub open spec fn params_of_value(v: ValueV) -> Option<ParamsV> {
    match v {
        ValueV::Arr(items) => Some(ParamsV::ByPosition(items)),
        ValueV::Obj(members) => Some(ParamsV::ByName(members)),
        _ => None,
    }
}

/// What parsing a request document yields: the envelope, or the first
/// violated envelope rule (checked in the order version, id, method, params).
pub open spec fn parse_request_spec(doc: ValueV) -> Result<RequestV, RequestError> {
    if !(doc is Obj) {
        Err(RequestError::NotObject)
    } else {
        let ms = doc->Obj_0;
        match obj_lookup(ms, "jsonrpc"@) {
            None => Err(RequestError::NoVersion),
            Some(ver) => if ver != ValueV::Str("2.0"@) {
                Err(RequestError::BadVersion)
            } else {
                match obj_lookup(ms, "id"@) {
                    None => Err(RequestError::NoId),
                    Some(idval) => match id_of_value(idval) {
                        None => Err(RequestError::BadId),
                        Some(id) => match obj_lookup(ms, "method"@) {
                            None => Err(RequestError::NoMethod),
                            Some(mv) => if !(mv is Str) {
                                Err(RequestError::BadMethod)
                            } else if mv->Str_0.len() == 0 {
                                Err(RequestError::EmptyMethod)
                            } else {
                                match obj_lookup(ms, "params"@) {
                                    None => Ok(
                                        RequestV { id, method: mv->Str_0, params: None },
                                    ),
                                    Some(pv) => match params_of_value(pv) {
                                        None => Err(RequestError::BadParams),
                                        Some(p) => Ok(
                                            RequestV {
                                                id,
                                                method: mv->Str_0,
                                                params: Some(p),
                                            },
                                        ),
                                    },
                                }
                            },
                        },
                    },
                }
            },
        }
    }
}

impl Request {
    /// Build a request directly, for hosts that already hold parsed parts.
    pub fn new(id: Id, method: String, params: Option<Params>) -> (r: Request)
        ensures
            r@ == (RequestV { id: id@, method: method@, params: params.deep_view() }),
    {
        Request { jsonrpc: Version::V2, id, method, params }
    }

    /// The request's id, unchanged.
    pub fn id(&self) -> (r: Id)
        ensures
            r@ == self@.id,
    {
        self.id.clone()
    }

    /// The request's method name.
    pub fn method(&self) -> (r: &str)
        ensures
            r@ == self@.method,
    {
        self.method.as_str()
    }


    /// Decode the request's parameters wholesale into `T`.  Absent
    /// parameters decode into nothing; present ones decode per `T`'s own
    /// decode function, from the parameter list taken as one document.
    pub fn deserialize_param<T: crate::method::FromJson>(&self) -> (r: Result<T, ParamError>)
        ensures
            match r {
                Ok(t) => self@.params matches Some(p) && T::from_json_spec(params_doc(p))
                    == Some(t.deep_view()),
                Err(ParamError::Missing) => self@.params is None,
                Err(ParamError::Mismatch) => self@.params matches Some(p)
                    && T::from_json_spec(params_doc(p)) is None,
            },
    {
        match &self.params {
            None => Err(ParamError::Missing),
            Some(p) => match T::from_json(params_to_value(p)) {
                Some(t) => Ok(t),
                None => Err(ParamError::Mismatch),
            },
        }
    }

    /// Whether the method name equals `name`: the routing decision of the
    /// method filter.  Matching is exact and case-sensitive.
    pub fn method_is(&self, name: &String) -> (r: bool)
        ensures
            r == (self@.method == name@),
    {
        self.method == *name
    }
}


/// Why parameter decoding failed.
#[derive(Clone, Copy, PartialEq, Eq, Structural, Debug)]
pub enum ParamError {
    /// The request carries no parameters at all.
    Missing,
    /// The parameters do not decode into the requested type.
    Mismatch,
}

/// The parameter list as one document: positional parameters as an array,
/// named parameters as an object.
pub open spec fn params_doc(p: ParamsV) -> ValueV {
    match p {
        ParamsV::ByPosition(items) => ValueV::Arr(items),
        ParamsV::ByName(members) => ValueV::Obj(members),
    }
}

/// The parameter list as one document value.
pub fn params_to_value(p: &Params) -> (v: Value)
    ensures
        v@ == params_doc(p@),
{
    match p {
        Params::ByPosition(items) => Value::Arr(clone_values(items)),
        Params::ByName(members) => Value::Obj(clone_members(members)),
    }
}

/// Parse a request envelope out of a document, per [`parse_request_spec`].
pub fn parse_request(v: &Value) -> (r: Result<Request, RequestError>)
    ensures
        match r {
            Ok(req) => parse_request_spec(v@) == Ok::<RequestV, RequestError>(req@),
            Err(e) => parse_request_spec(v@) == Err::<RequestV, RequestError>(e),
        },
{
    let members: &Vec<(String, Value)> = match v {
        Value::Obj(members) => members,
        _ => {
            return Err(RequestError::NotObject);
        },
    };
    let ghost ms = members_view(members@);

    let ver = match crate::value::obj_get(members, &String::from_str("jsonrpc")) {
        Some(ver) => ver,
        None => {
            return Err(RequestError::NoVersion);
        },
    };
    match ver {
        Value::Str(s) => {
            if !(*s == String::from_str("2.0")) {
                return Err(RequestError::BadVersion);
            }
        },
        _ => {
            return Err(RequestError::BadVersion);
        },
    }

    let id = match crate::value::obj_get(members, &String::from_str("id")) {
        None => {
            return Err(RequestError::NoId);
        },
        Some(Value::Str(s)) => Id::String(s.clone()),
        Some(Value::Int(n)) => Id::Number(*n),
        Some(Value::Null) => Id::Null,
        Some(_) => {
            return Err(RequestError::BadId);
        },
    };

    let method = match crate::value::obj_get(members, &String::from_str("method")) {
        None => {
            return Err(RequestError::NoMethod);
        },
        Some(Value::Str(s)) => {
            if s.as_str().unicode_len() == 0 {
                return Err(RequestError::EmptyMethod);
            }
            s.clone()
        },
        Some(_) => {
            return Err(RequestError::BadMethod);
        },
    };

    let params = match crate::value::obj_get(members, &String::from_str("params")) {
        None => None,
        Some(Value::Arr(items)) => Some(Params::ByPosition(clone_values(items))),
        Some(Value::Obj(obj)) => Some(Params::ByName(clone_members(obj))),
        Some(_) => {
            return Err(RequestError::BadParams);
        },
    };

    Ok(Request { jsonrpc: Version::V2, id, method, params })
}

impl Clone for Params {
    fn clone(&self) -> (r: Self)
        ensures
            r@ == self@,
    {
        match self {
            Params::ByPosition(items) => Params::ByPosition(clone_values(items)),
            Params::ByName(members) => Params::ByName(clone_members(members)),
        }
    }
}

impl Clone for Request {
    fn clone(&self) -> (r: Self)
        ensures
            r@ == self@,
    {
        Request {
            jsonrpc: self.jsonrpc,
            id: self.id.clone(),
            method: self.method.clone(),
            params: match &self.params {
                None => None,
                Some(p) => Some(p.clone()),
            },
        }
    }
}


/// Parse a request from JSON text.  A malformed text is answered with the
/// reserved parse error; a well-formed document that violates the envelope
/// rules is answered with the reserved invalid-request error.
pub fn parse_request_text(s: &[u8]) -> (r: Result<Request, crate::res::Error>)
    requires
        s@.len() + 16 <= usize::MAX,
    ensures
        match crate::json::parse_json_spec(s@) {
            None => r matches Err(e) && e@ == crate::res::parse_error_v(),
            Some(doc) => match parse_request_spec(doc) {
                Ok(rv) => r matches Ok(req) && req@ == rv,
                Err(_) => r matches Err(e) && e@ == crate::res::invalid_request_v(),
            },
        },
{
    match crate::json::parse_json(s) {
        None => Err(crate::res::Error::parse_error()),
        Some(doc) => match parse_request(&doc) {
            Ok(req) => Ok(req),
            Err(_) => Err(crate::res::Error::invalid_request()),
        },
    }
}

} // verus!
