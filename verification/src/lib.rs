//! A diagnostic HTTP response core: it parses a status-code specifier
//! (single or weighted multi-choice), selects one candidate code by
//! weighted sampling, builds the response shape mandated for that code,
//! and applies the response-shaping middleware (server identification
//! and CORS headers) that wraps every route.

pub mod builder;
pub mod headers;
pub mod middleware;
pub mod request;
pub mod response;
pub mod sampling;
pub mod service;
pub mod specifier;
