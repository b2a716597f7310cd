//! The method abstraction: a callable with typed parameters, producing a
//! result value or a protocol error, behind a uniform decode-and-invoke
//! interface.
//!
//! Two parameter-binding conventions exist.  Positional binding
//! ([`ArrayType`]) matches an ordered parameter sequence against the
//! callable's declared arity, each element decoding independently; an arity
//! mismatch is a decode failure, never truncation or padding.  Named binding
//! ([`MapType`]) decodes the whole named mapping into the callable's single
//! aggregate parameter type.  The zero-parameter case binds to an
//! absent-or-empty parameter list and never attempts decoding.

use core::marker::PhantomData;
use vstd::prelude::*;

use crate::req::{Params, ParamsV};
use crate::res::Error;
use crate::value::{lemma_vals_view_index, lemma_vals_view_len, Value, ValueV};

verus! {

/// A parameter type that decodes from a JSON value.
///
/// `from_json_spec` is the mathematical decode function; the executable
/// decoder returns exactly what it says, at the level of views.
pub trait FromJson: DeepView + Sized {
    /// What this type decodes from a document value, if anything.
    spec fn from_json_spec(v: ValueV) -> Option<Self::V>;

    /// Decode a document value, exactly per [`Self::from_json_spec`].
    fn from_json(v: Value) -> (r: Option<Self>)
        ensures
            match r {
                Some(x) => Self::from_json_spec(v@) == Some(x.deep_view()),
                None => Self::from_json_spec(v@) is None,
            },
    ;
}

impl FromJson for i64 {
    open spec fn from_json_spec(v: ValueV) -> Option<i64> {
        match v {
            ValueV::Int(n) => if i64::MIN <= n <= i64::MAX {
                Some(n as i64)
            } else {
                None
            },
            _ => None,
        }
    }

    fn from_json(v: Value) -> (r: Option<i64>) {
        match v {
            Value::Int(n) => Some(n),
            _ => None,
        }
    }
}

impl FromJson for i32 {
    open spec fn from_json_spec(v: ValueV) -> Option<i32> {
        match v {
            ValueV::Int(n) => if i32::MIN <= n <= i32::MAX {
                Some(n as i32)
            } else {
                None
            },
            _ => None,
        }
    }

    fn from_json(v: Value) -> (r: Option<i32>) {
        match v {
            Value::Int(n) => if i32::MIN as i64 <= n && n <= i32::MAX as i64 {
                Some(n as i32)
            } else {
                None
            },
            _ => None,
        }
    }
}

impl FromJson for u64 {
    open spec fn from_json_spec(v: ValueV) -> Option<u64> {
        match v {
            ValueV::Int(n) => if 0 <= n {
                Some(n as u64)
            } else {
                None
            },
            _ => None,
        }
    }

    fn from_json(v: Value) -> (r: Option<u64>) {
        match v {
            Value::Int(n) => if 0 <= n {
                Some(n as u64)
            } else {
                None
            },
            _ => None,
        }
    }
}

impl FromJson for bool {
    open spec fn from_json_spec(v: ValueV) -> Option<bool> {
        match v {
            ValueV::Bool(b) => Some(b),
            _ => None,
        }
    }

    fn from_json(v: Value) -> (r: Option<bool>) {
        match v {
            Value::Bool(b) => Some(b),
            _ => None,
        }
    }
}

impl FromJson for String {
    open spec fn from_json_spec(v: ValueV) -> Option<Seq<char>> {
        match v {
            ValueV::Str(s) => Some(s),
            _ => None,
        }
    }

    fn from_json(v: Value) -> (r: Option<String>) {
        match v {
            Value::Str(s) => Some(s),
            _ => None,
        }
    }
}

impl FromJson for Value {
    open spec fn from_json_spec(v: ValueV) -> Option<ValueV> {
        Some(v)
    }

    fn from_json(v: Value) -> (r: Option<Value>) {
        Some(v)
    }
}

impl<A: FromJson> FromJson for (A,) {
    open spec fn from_json_spec(v: ValueV) -> Option<(A::V,)> {
        match v {
            ValueV::Arr(items) => if items.len() == 1 {
                match A::from_json_spec(items[0]) {
                    Some(a) => Some((a,)),
                    None => None,
                }
            } else {
                None
            },
            _ => None,
        }
    }

    fn from_json(v: Value) -> (r: Option<(A,)>) {
        match v {
            Value::Arr(items) => {
                let mut items = items;
                if items.len() == 1 {
                    proof {
                        lemma_vals_view_len(items@);
                        lemma_vals_view_index(items@, 0);
                    }
                    let a0 = items.pop().unwrap();
                    match A::from_json(a0) {
                        Some(a) => Some((a,)),
                        None => None,
                    }
                } else {
                    proof {
                        lemma_vals_view_len(items@);
                    }
                    None
                }
            },
            _ => None,
        }
    }
}

impl<A: FromJson, B: FromJson> FromJson for (A, B) {
    open spec fn from_json_spec(v: ValueV) -> Option<(A::V, B::V)> {
        match v {
            ValueV::Arr(items) => if items.len() == 2 {
                match A::from_json_spec(items[0]) {
                    Some(a) => match B::from_json_spec(items[1]) {
                        Some(b) => Some((a, b)),
                        None => None,
                    },
                    None => None,
                }
            } else {
                None
            },
            _ => None,
        }
    }

    fn from_json(v: Value) -> (r: Option<(A, B)>) {
        match v {
            Value::Arr(items) => {
                let mut items = items;
                if items.len() == 2 {
                    proof {
                        lemma_vals_view_len(items@);
                        lemma_vals_view_index(items@, 0);
                        lemma_vals_view_index(items@, 1);
                    }
                    let b0 = items.pop().unwrap();
                    let a0 = items.pop().unwrap();
                    match A::from_json(a0) {
                        Some(a) => match B::from_json(b0) {
                            Some(b) => Some((a, b)),
                            None => None,
                        },
                        None => None,
                    }
                } else {
                    proof {
                        lemma_vals_view_len(items@);
                    }
                    None
                }
            },
            _ => None,
        }
    }
}

impl<A: FromJson, B: FromJson, C: FromJson> FromJson for (A, B, C) {
    open spec fn from_json_spec(v: ValueV) -> Option<(A::V, B::V, C::V)> {
        match v {
            ValueV::Arr(items) => if items.len() == 3 {
                match A::from_json_spec(items[0]) {
                    Some(a) => match B::from_json_spec(items[1]) {
                        Some(b) => match C::from_json_spec(items[2]) {
                            Some(c) => Some((a, b, c)),
                            None => None,
                        },
                        None => None,
                    },
                    None => None,
                }
            } else {
                None
            },
            _ => None,
        }
    }

    fn from_json(v: Value) -> (r: Option<(A, B, C)>) {
        match v {
            Value::Arr(items) => {
                let mut items = items;
                if items.len() == 3 {
                    proof {
                        lemma_vals_view_len(items@);
                        lemma_vals_view_index(items@, 0);
                        lemma_vals_view_index(items@, 1);
                        lemma_vals_view_index(items@, 2);
                    }
                    let c0 = items.pop().unwrap();
                    let b0 = items.pop().unwrap();
                    let a0 = items.pop().unwrap();
                    match A::from_json(a0) {
                        Some(a) => match B::from_json(b0) {
                            Some(b) => match C::from_json(c0) {
                                Some(c) => Some((a, b, c)),
                                None => None,
                            },
                            None => None,
                        },
                        None => None,
                    }
                } else {
                    proof {
                        lemma_vals_view_len(items@);
                    }
                    None
                }
            },
            _ => None,
        }
    }
}

/// A callable with typed parameters of shape `Args`, bound per convention
/// `Kind`, producing a result value or a protocol error.
///
/// `decode_params_spec` is the method's mathematical decode function: it
/// pins down exactly which parameter lists the method accepts and what they
/// decode to.  `call_rel` is everything the handler promises of its
/// outcome; invoking the handler yields an outcome that satisfies it.
pub trait Method<Args: DeepView, Kind>: Sized {
    /// The handler accepts every argument value of its declared shape.
    spec fn wf(&self) -> bool;

    /// What the declared parameter shape decodes from the request's
    /// parameters, if anything.
    spec fn decode_params_spec(p: Option<ParamsV>) -> Option<Args::V>;

    /// Decode the request's parameters, exactly per
    /// [`Self::decode_params_spec`].
    fn decode_params(p: Option<Params>) -> (r: Option<Args>)
        ensures
            match r {
                Some(a) => Self::decode_params_spec(p.deep_view()) == Some(a.deep_view()),
                None => Self::decode_params_spec(p.deep_view()) is None,
            },
    ;

    /// The handler's input-output relation.
    spec fn call_rel(self, a: Args, out: Result<Value, Error>) -> bool;

    /// Invoke the handler once with decoded arguments.
    fn call(self, a: Args) -> (out: Result<Value, Error>)
        requires
            self.wf(),
        ensures
            self.call_rel(a, out),
    ;
}

/// Marker: positional parameter binding.
#[derive(Clone, Copy)]
pub struct ArrayType();

/// Marker: named parameter binding.
#[derive(Clone, Copy)]
pub struct MapType();

/// A method backed by a plain callable, with its binding convention
/// recorded in the type.
pub struct MethodFn<F, ParamType> {
    pub f: F,
    pub _param_type: PhantomData<ParamType>,
}

impl<F: Copy, ParamType> Clone for MethodFn<F, ParamType> {
    fn clone(&self) -> (r: Self)
        ensures
            r == self,
    {
        *self
    }
}

impl<F: Copy, ParamType> Copy for MethodFn<F, ParamType> {

}

/// Wrap a callable over one aggregate parameter type as a named-binding
/// method.
pub fn map_method_fn<F>(f: F) -> (m: MethodFn<F, MapType>)
    ensures
        m.f == f,
{
    MethodFn { f, _param_type: PhantomData }
}

/// Wrap a callable over positional parameters as a positional-binding
/// method.
pub fn array_method_fn<F>(f: F) -> (m: MethodFn<F, ArrayType>)
    ensures
        m.f == f,
{
    MethodFn { f, _param_type: PhantomData }
}

impl<F, P> Method<P, MapType> for MethodFn<F, MapType> where
    F: FnOnce(P) -> Result<Value, Error>,
    P: FromJson,
 {
    open spec fn wf(&self) -> bool {
        forall|a: P| call_requires(self.f, (a,))
    }

    open spec fn decode_params_spec(p: Option<ParamsV>) -> Option<P::V> {
        match p {
            Some(ParamsV::ByName(members)) => P::from_json_spec(ValueV::Obj(members)),
            _ => None,
        }
    }

    fn decode_params(p: Option<Params>) -> (r: Option<P>) {
        match p {
            Some(Params::ByName(members)) => P::from_json(Value::Obj(members)),
            _ => None,
        }
    }

    open spec fn call_rel(self, a: P, out: Result<Value, Error>) -> bool {
        call_ensures(self.f, (a,), out)
    }

    fn call(self, a: P) -> (out: Result<Value, Error>) {
        (self.f)(a)
    }
}

impl<F> Method<(), ArrayType> for MethodFn<F, ArrayType> where F: FnOnce() -> Result<
    Value,
    Error,
> {
    open spec fn wf(&self) -> bool {
        call_requires(self.f, ())
    }

    open spec fn decode_params_spec(p: Option<ParamsV>) -> Option<()> {
        match p {
            None => Some(()),
            Some(ParamsV::ByPosition(items)) => if items.len() == 0 {
                Some(())
            } else {
                None
            },
            _ => None,
        }
    }

    fn decode_params(p: Option<Params>) -> (r: Option<()>) {
        match p {
            None => Some(()),
            Some(Params::ByPosition(items)) => {
                proof {
                    lemma_vals_view_len(items@);
                }
                if items.len() == 0 {
                    Some(())
                } else {
                    None
                }
            },
            _ => None,
        }
    }

    open spec fn call_rel(self, a: (), out: Result<Value, Error>) -> bool {
        call_ensures(self.f, (), out)
    }

    fn call(self, a: ()) -> (out: Result<Value, Error>) {
        (self.f)()
    }
}

impl<F, P> Method<(P,), ArrayType> for MethodFn<F, ArrayType> where
    F: FnOnce(P) -> Result<Value, Error>,
    P: FromJson,
 {
    open spec fn wf(&self) -> bool {
        forall|a: P| call_requires(self.f, (a,))
    }

    open spec fn decode_params_spec(p: Option<ParamsV>) -> Option<(P::V,)> {
        match p {
            Some(ParamsV::ByPosition(items)) => <(P,)>::from_json_spec(ValueV::Arr(items)),
            _ => None,
        }
    }

    fn decode_params(p: Option<Params>) -> (r: Option<(P,)>) {
        match p {
            Some(Params::ByPosition(items)) => <(P,)>::from_json(Value::Arr(items)),
            _ => None,
        }
    }

    open spec fn call_rel(self, a: (P,), out: Result<Value, Error>) -> bool {
        call_ensures(self.f, (a.0,), out)
    }

    fn call(self, a: (P,)) -> (out: Result<Value, Error>) {
        (self.f)(a.0)
    }
}

impl<F, P1, P2> Method<(P1, P2), ArrayType> for MethodFn<F, ArrayType> where
    F: FnOnce(P1, P2) -> Result<Value, Error>,
    P1: FromJson,
    P2: FromJson,
 {
    open spec fn wf(&self) -> bool {
        forall|a1: P1, a2: P2| call_requires(self.f, (a1, a2))
    }

    open spec fn decode_params_spec(p: Option<ParamsV>) -> Option<(P1::V, P2::V)> {
        match p {
            Some(ParamsV::ByPosition(items)) => <(P1, P2)>::from_json_spec(ValueV::Arr(items)),
            _ => None,
        }
    }

    fn decode_params(p: Option<Params>) -> (r: Option<(P1, P2)>) {
        match p {
            Some(Params::ByPosition(items)) => <(P1, P2)>::from_json(Value::Arr(items)),
            _ => None,
        }
    }

    open spec fn call_rel(self, a: (P1, P2), out: Result<Value, Error>) -> bool {
        call_ensures(self.f, (a.0, a.1), out)
    }

    fn call(self, a: (P1, P2)) -> (out: Result<Value, Error>) {
        (self.f)(a.0, a.1)
    }
}

} // verus!
