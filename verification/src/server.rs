//! The registry and the dispatch algorithm.
//!
//! A builder collects name-to-factory bindings (a duplicate name is a hard
//! configuration error, not last-write-wins), `build` freezes them into a
//! server, and `handle_request` resolves a request to a handler, decodes
//! its parameters, invokes it, and always returns exactly one response
//! carrying the request's id.

use vstd::prelude::*;

use crate::method::Method;
use crate::req::{Request, RequestV};
use crate::res::{
    invalid_params_v, method_not_found_v, Error, Response, ResponseContent, ResponseContentV,
    ResponseV,
};
use crate::value::Value;

verus! {

/// A factory that produces one fresh handler instance per invocation, so
/// that handler state is never shared across calls.
pub trait MethodFactory<M>: Sized {
    /// The factory may be invoked at any time.
    spec fn wf(&self) -> bool;

    /// Which handler instances this factory can produce.
    spec fn produces(&self, m: M) -> bool;

    /// Produce a fresh handler instance.
    fn create(&self) -> (m: M)
        requires
            self.wf(),
        ensures
            self.produces(m),
    ;
}

impl<G, M> MethodFactory<M> for G where G: Fn() -> M {
    open spec fn wf(&self) -> bool {
        call_requires(*self, ())
    }

    open spec fn produces(&self, m: M) -> bool {
        call_ensures(*self, (), m)
    }

    fn create(&self) -> (m: M) {
        (self)()
    }
}

/// A copyable, stateless method registered as its own factory: every
/// invocation gets a bitwise-fresh copy of the same handler.
pub struct CopyFactory<M> {
    pub m: M,
}

impl<M: Copy> MethodFactory<M> for CopyFactory<M> {
    open spec fn wf(&self) -> bool {
        true
    }

    open spec fn produces(&self, m: M) -> bool {
        m == self.m
    }

    fn create(&self) -> (m: M) {
        self.m
    }
}

/// The first factory bound to `name` in a routing table, if any.
pub open spec fn table_lookup<F>(t: Seq<(String, F)>, name: Seq<char>) -> Option<F>
    decreases t.len(),
{
    if t.len() == 0 {
        None
    } else if t[0].0@ == name {
        Some(t[0].1)
    } else {
        table_lookup(t.skip(1), name)
    }
}

/// Whether a routing table binds `name`.
pub open spec fn table_contains<F>(t: Seq<(String, F)>, name: Seq<char>) -> bool {
    table_lookup(t, name) is Some
}

/// First factory bound to `name`, by linear search.
fn table_get<'a, F>(t: &'a Vec<(String, F)>, name: &String) -> (r: Option<&'a F>)
    ensures
        match r {
            Some(f) => table_lookup(t@, name@) == Some(*f),
            None => table_lookup(t@, name@) is None,
        },
{
    proof {
        assert(t@.skip(0) =~= t@);
    }
    for i in 0..t.len()
        invariant
            i <= t.len(),
            table_lookup(t@, name@) == table_lookup(t@.skip(i as int), name@),
    {
        proof {
            assert(t@.skip(i as int)[0] == t@[i as int]);
        }
        if t[i].0 == *name {
            return Some(&t[i].1);
        }
        proof {
            assert(t@.skip(i as int).skip(1) =~= t@.skip(i + 1));
        }
    }
    None
}

/// A name-indexed, immutable routing table of handler factories.
pub struct Server<F> {
    pub methods: Vec<(String, F)>,
}

/// Collects registrations before the routing table is frozen.
pub struct ServerBuilder<F> {
    pub methods: Vec<(String, F)>,
}

/// The one registration failure: the name is already bound.
#[derive(Clone, Copy, PartialEq, Eq, Structural, Debug)]
pub enum RegisterError {
    DuplicateName,
}

/// Every factory in the table may be invoked, and every handler it
/// produces accepts its declared argument shape.
pub open spec fn server_wf<F, M, Args, Kind>(t: Seq<(String, F)>) -> bool where
    F: MethodFactory<M>,
    M: Method<Args, Kind>,
    Args: DeepView,
 {
    forall|i: int|
        0 <= i < t.len() ==> {
            &&& (#[trigger] t[i]).1.wf()
            &&& forall|m: M| #[trigger] t[i].1.produces(m) ==> m.wf()
        }
}

/// Everything `handle_request` promises of its response.
///
/// The response carries the request's id in every case.  An unbound method
/// name yields the reserved method-not-found error; parameters that do not
/// decode into the matched method's declared shape yield the reserved
/// invalid-params error, and the handler is never invoked; otherwise some
/// handler instance the matched factory produces was invoked once on the
/// decoded arguments, and its outcome — a value on success, the handler's
/// own error on failure — is wrapped unchanged.
pub open spec fn dispatch_post<F, M, Args, Kind>(
    t: Seq<(String, F)>,
    req: RequestV,
    resp: ResponseV,
) -> bool where F: MethodFactory<M>, M: Method<Args, Kind>, Args: DeepView {
    &&& resp.id == req.id
    &&& match table_lookup(t, req.method) {
        None => resp.content == ResponseContentV::Error(method_not_found_v()),
        Some(factory) => match M::decode_params_spec(req.params) {
            None => resp.content == ResponseContentV::Error(invalid_params_v()),
            Some(args) => exists|m: M, a: Args, out: Result<Value, Error>|
                {
                    &&& #[trigger] factory.produces(m)
                    &&& a.deep_view() == args
                    &&& #[trigger] m.call_rel(a, out)
                    &&& match out {
                        Ok(v) => resp.content == ResponseContentV::Success(v@),
                        Err(e) => resp.content == ResponseContentV::Error(e@),
                    }
                },
        },
    }
}

impl<F> Server<F> {
    /// A builder with no names bound.
    pub fn builder() -> (b: ServerBuilder<F>)
        ensures
            b.methods@ == Seq::<(String, F)>::empty(),
    {
        ServerBuilder::new()
    }

    /// Dispatch one request to its registered handler and return the one
    /// response, per [`dispatch_post`].  Every step of the plumbing here is
    /// verified total, so the reserved internal error has no source in this
    /// path: the only failures are the unknown name, the undecodable
    /// parameters, and whatever error the handler itself signals.
    pub fn handle_request<M, Args, Kind>(&self, req: Request) -> (resp: Response) where
        F: MethodFactory<M>,
        M: Method<Args, Kind>,
        Args: DeepView,

        requires
            server_wf::<F, M, Args, Kind>(self.methods@),
        ensures
            dispatch_post::<F, M, Args, Kind>(self.methods@, req@, resp@),
    {
        let Request { jsonrpc: _, id, method, params } = req;
        match table_get(&self.methods, &method) {
            None => Response::new_err(id, Error::method_not_found()),
            Some(factory) => {
                proof {
                    lemma_table_lookup_member(self.methods@, method@);
                }
                let m = factory.create();
                match M::decode_params(params) {
                    None => Response::new_err(id, Error::invalid_params()),
                    Some(a) => {
                        let out = m.call(a);
                        match out {
                            Ok(v) => Response::new(id, ResponseContent::Success(v)),
                            Err(e) => Response::new_err(id, e),
                        }
                    },
                }
            },
        }
    }
}

/// A factory found by lookup is one of the table's entries.
proof fn lemma_table_lookup_member<F>(t: Seq<(String, F)>, name: Seq<char>)
    ensures
        table_lookup(t, name) matches Some(f) ==> exists|i: int|
            0 <= i < t.len() && #[trigger] t[i].1 == f,
    decreases t.len(),
{
    if t.len() != 0 && !(t[0].0@ == name) {
        lemma_table_lookup_member(t.skip(1), name);
        if table_lookup(t, name) is Some {
            let f = table_lookup(t, name)->0;
            let j = choose|j: int| 0 <= j < t.skip(1).len() && #[trigger] t.skip(1)[j].1 == f;
            assert(t[j + 1].1 == f);
        }
    }
}

impl<F> ServerBuilder<F> {
    /// A builder with no names bound.
    pub fn new() -> (b: ServerBuilder<F>)
        ensures
            b.methods@ == Seq::<(String, F)>::empty(),
    {
        ServerBuilder { methods: Vec::new() }
    }

    /// Bind `name` to a handler factory.  A name may be bound once: binding
    /// it again is a configuration error, surfaced here rather than by
    /// overwriting the earlier binding.
    pub fn register(self, name: String, factory: F) -> (r: Result<ServerBuilder<F>, RegisterError>)
        ensures
            match r {
                Ok(b) => !table_contains(self.methods@, name@) && b.methods@ == self.methods@.push(
                    (name, factory),
                ),
                Err(e) => table_contains(self.methods@, name@) && e
                    == RegisterError::DuplicateName,
            },
    {
        if table_get(&self.methods, &name).is_some() {
            return Err(RegisterError::DuplicateName);
        }
        let mut methods = self.methods;
        methods.push((name, factory));
        Ok(ServerBuilder { methods })
    }

    /// Freeze the registrations into an immutable routing table.
    pub fn build(self) -> (s: Server<F>)
        ensures
            s.methods@ == self.methods@,
    {
        Server { methods: self.methods }
    }
}

/// An unbound method name is answered with the reserved method-not-found
/// error, under the request's id, and no handler is invoked.
pub proof fn lemma_dispatch_method_not_found<F, M, Args, Kind>(
    t: Seq<(String, F)>,
    req: RequestV,
    resp: ResponseV,
) where F: MethodFactory<M>, M: Method<Args, Kind>, Args: DeepView
    requires
        dispatch_post::<F, M, Args, Kind>(t, req, resp),
        !table_contains(t, req.method),
    ensures
        resp.id == req.id,
        resp.content == ResponseContentV::Error(method_not_found_v()),
{
}

/// Parameters that do not decode into the matched method's declared shape
/// are answered with the reserved invalid-params error, under the
/// request's id, and the handler is never invoked.
pub proof fn lemma_dispatch_invalid_params<F, M, Args, Kind>(
    t: Seq<(String, F)>,
    req: RequestV,
    resp: ResponseV,
) where F: MethodFactory<M>, M: Method<Args, Kind>, Args: DeepView
    requires
        dispatch_post::<F, M, Args, Kind>(t, req, resp),
        table_contains(t, req.method),
        M::decode_params_spec(req.params) is None,
    ensures
        resp.id == req.id,
        resp.content == ResponseContentV::Error(invalid_params_v()),
{
}

/// For a registered method name and parameters that decode into its
/// declared shape, if every handler the matched factory produces maps the
/// decoded arguments to the success value `v`, then dispatch answers with
/// success wrapping `v`, under the request's id.
pub proof fn lemma_dispatch_success<F, M, Args, Kind>(
    t: Seq<(String, F)>,
    req: RequestV,
    resp: ResponseV,
    v: crate::value::ValueV,
) where F: MethodFactory<M>, M: Method<Args, Kind>, Args: DeepView
    requires
        dispatch_post::<F, M, Args, Kind>(t, req, resp),
        table_contains(t, req.method),
        M::decode_params_spec(req.params) is Some,
        forall|m: M, a: Args, out: Result<Value, Error>|
            {
                (#[trigger] table_lookup(t, req.method)->0.produces(m) && a.deep_view()
                    == M::decode_params_spec(req.params)->0 && #[trigger] m.call_rel(a, out))
                    ==> (out matches Ok(res) && res@ == v)
            },
    ensures
        resp.id == req.id,
        resp.content == ResponseContentV::Success(v),
{
}

/// The outcome of a handler, at the level of views.
pub open spec fn outcome_view(out: Result<Value, Error>) -> Result<
    crate::value::ValueV,
    crate::res::ErrorV,
> {
    match out {
        Ok(v) => Ok(v@),
        Err(e) => Err(e@),
    }
}

/// Dispatch is idempotent: two dispatches of the same request against the
/// same table produce the same response, provided the matched factory's
/// handlers are pure — equal argument views always yield equal outcome
/// views.
pub proof fn lemma_dispatch_idempotent<F, M, Args, Kind>(
    t: Seq<(String, F)>,
    req: RequestV,
    resp1: ResponseV,
    resp2: ResponseV,
) where F: MethodFactory<M>, M: Method<Args, Kind>, Args: DeepView
    requires
        dispatch_post::<F, M, Args, Kind>(t, req, resp1),
        dispatch_post::<F, M, Args, Kind>(t, req, resp2),
        forall|m1: M, m2: M, a1: Args, a2: Args, o1: Result<Value, Error>, o2: Result<
            Value,
            Error,
        >|
            ({
                &&& table_lookup(t, req.method) matches Some(factory)
                &&& factory.produces(m1)
                &&& factory.produces(m2)
                &&& a1.deep_view() == a2.deep_view()
                &&& #[trigger] m1.call_rel(a1, o1)
                &&& #[trigger] m2.call_rel(a2, o2)
            }) ==> outcome_view(o1) == outcome_view(o2),
    ensures
        resp1 == resp2,
{
}

} // verus!
