//! The response shape: status, ordered headers and body, built once per
//! request and immutable after construction.

use vstd::prelude::*;

use crate::headers::{views, Header, HeaderView};

verus! {

/// A complete response: status code, ordered header list and body.
pub struct ResponseShape {
    pub status: u16,
    pub headers: Vec<Header>,
    pub body: String,
}

/// The mathematical image of a response.
pub struct ResponseView {
    pub status: int,
    pub headers: Seq<HeaderView>,
    pub body: Seq<char>,
}

impl View for ResponseShape {
    type V = ResponseView;

    open spec fn view(&self) -> ResponseView {
        ResponseView {
            status: self.status as int,
            headers: views(self.headers@),
            body: self.body@,
        }
    }
}

} // verus!
