//! A fill-once cell for the parsed request.
//!
//! The transport pipeline parses a request once and every later stage
//! reads the same stored value; filling the cell a second time is refused
//! and hands the request back, so a stored request is never overwritten.

use vstd::prelude::*;

use crate::req::Request;

verus! {

/// Holds the one parsed request of a call, once some stage has stored it.
pub struct LazyReqStore {
    pub store: Option<Request>,
}

impl LazyReqStore {
    /// A cell with nothing stored.
    pub fn empty() -> (s: LazyReqStore)
        ensures
            s.store is None,
    {
        LazyReqStore { store: None }
    }

    /// Whether a request has been stored.
    pub fn filled(&self) -> (r: bool)
        ensures
            r == (self.store is Some),
    {
        self.store.is_some()
    }

    /// Store the parsed request, once: a second fill refuses and returns
    /// the request unchanged, leaving the stored one in place.
    pub fn fill(&mut self, req: Request) -> (r: Result<(), Request>)
        ensures
            match r {
                Ok(_) => old(self).store is None && final(self).store == Some(req),
                Err(back) => old(self).store is Some && *final(self) == *old(self) && back
                    == req,
            },
    {
        if self.store.is_some() {
            Err(req)
        } else {
            self.store = Some(req);
            Ok(())
        }
    }

    /// The stored request, if one has been stored.
    pub fn borrow(&self) -> (r: Option<&Request>)
        ensures
            match r {
                Some(rq) => self.store == Some(*rq),
                None => self.store is None,
            },
    {
        self.store.as_ref()
    }
}

} // verus!
