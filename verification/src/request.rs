//! The request context: the parts of an incoming request that the
//! response core reads. It is owned by the caller and read-only here.

use vstd::prelude::*;

use crate::headers::{views, Header, HeaderView};

verus! {

/// The request method, as far as the core distinguishes methods.
///
/// Every method the router accepts has a variant; anything else is
/// `Other`, which the core treats like any non-`OPTIONS` method.
#[derive(Clone, Copy, Debug, PartialEq, Eq, Structural)]
pub enum Method {
    Get,
    Post,
    Put,
    Patch,
    Delete,
    Trace,
    Head,
    Options,
    Other,
}

/// What the core reads of a request: its method, path, headers and the
/// peer address of the connection.
pub struct RequestContext {
    pub method: Method,
    pub path: String,
    pub headers: Vec<Header>,
    pub peer: String,
}

/// The mathematical image of a request context.
pub struct RequestView {
    pub method: Method,
    pub path: Seq<char>,
    pub headers: Seq<HeaderView>,
    pub peer: Seq<char>,
}

impl View for RequestContext {
    type V = RequestView;

    open spec fn view(&self) -> RequestView {
        RequestView {
            method: self.method,
            path: self.path@,
            headers: views(self.headers@),
            peer: self.peer@,
        }
    }
}

} // verus!
