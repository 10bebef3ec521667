//! The response-shaping middleware that wraps every route: it injects
//! the server-identity header, computes the CORS headers from the
//! request's `Origin` and method, and short-circuits `OPTIONS`
//! preflight requests to `204 No Content`.

use vstd::prelude::*;

use crate::headers::{
    lemma_lookup_after_write, lemma_lookup_other_after_write, lookup, lookup_header, lower,
    lower_char, name_eq, write_header, HeaderView,
};
use crate::request::{Method, RequestContext, RequestView};
use crate::response::{ResponseShape, ResponseView};

verus! {

/// The fixed product name and version every response identifies
/// itself with.
pub const SERVER_IDENTITY: &'static str = "httpbin-rs/0.1.0";

/// The fixed list of methods a preflight answer allows.
pub const ALLOWED_METHODS: &'static str = "GET, POST, PUT, DELETE, PATCH, OPTIONS";

/// How long a preflight answer may be cached, in seconds.
pub const MAX_AGE: &'static str = "3600";

/// The response after the server-identity stage: the `Server` header
/// is written, everything else stands.
pub open spec fn with_server_header(r: ResponseView) -> ResponseView {
    ResponseView {
        status: r.status,
        headers: crate::headers::written(r.headers, "Server"@, SERVER_IDENTITY@),
        body: r.body,
    }
}

/// The origin a response allows: the request's `Origin` header when
/// present, else every origin.
pub open spec fn allowed_origin(req: RequestView) -> Seq<char> {
    match lookup(req.headers, "Origin"@) {
        Some(v) => v,
        None => "*"@,
    }
}

/// The response after the CORS stage.
///
/// Every response allows the request's origin and credentials. A
/// preflight request — method `OPTIONS` — is additionally answered
/// with the allowed methods, the cache age, the mirrored
/// `Access-Control-Request-Headers` when present, and its status is
/// overridden to `204 No Content`, whatever the handler produced.
pub open spec fn with_cors_headers(req: RequestView, r: ResponseView) -> ResponseView {
    let h1 = crate::headers::written(
        r.headers,
        "Access-Control-Allow-Origin"@,
        allowed_origin(req),
    );
    let h2 = crate::headers::written(h1, "Access-Control-Allow-Credentials"@, "true"@);
    if req.method == Method::Options {
        let h3 = crate::headers::written(h2, "Access-Control-Allow-Methods"@, ALLOWED_METHODS@);
        let h4 = crate::headers::written(h3, "Access-Control-Max-Age"@, MAX_AGE@);
        let h5 = match lookup(req.headers, "Access-Control-Request-Headers"@) {
            Some(v) => crate::headers::written(h4, "Access-Control-Allow-Headers"@, v),
            None => h4,
        };
        ResponseView { status: 204, headers: h5, body: r.body }
    } else {
        ResponseView { status: r.status, headers: h2, body: r.body }
    }
}

/// The response after the whole middleware: the server-identity stage,
/// then the CORS stage, which may override the status.
pub open spec fn shaped(req: RequestView, r: ResponseView) -> ResponseView {
    with_cors_headers(req, with_server_header(r))
}

/// Writes the server-identity header.
pub fn apply_server_header(resp: &mut ResponseShape)
    ensures
        final(resp)@ == with_server_header(old(resp)@),
{
    write_header(&mut resp.headers, "Server", String::from_str(SERVER_IDENTITY));
}

/// Writes the CORS headers, and for a preflight request overrides the
/// status to `204 No Content`.
pub fn apply_cors_headers(req: &RequestContext, resp: &mut ResponseShape)
    ensures
        final(resp)@ == with_cors_headers(req@, old(resp)@),
{
    let origin: String = match lookup_header(&req.headers, "Origin") {
        Some(v) => v.clone(),
        None => String::from_str("*"),
    };
    proof {
        assert(origin@ == allowed_origin(req@));
    }
    write_header(&mut resp.headers, "Access-Control-Allow-Origin", origin);
    write_header(
        &mut resp.headers,
        "Access-Control-Allow-Credentials",
        String::from_str("true"),
    );
    if req.method == Method::Options {
        write_header(
            &mut resp.headers,
            "Access-Control-Allow-Methods",
            String::from_str(ALLOWED_METHODS),
        );
        write_header(&mut resp.headers, "Access-Control-Max-Age", String::from_str(MAX_AGE));
        match lookup_header(&req.headers, "Access-Control-Request-Headers") {
            Some(v) => {
                let mirrored = v.clone();
                write_header(&mut resp.headers, "Access-Control-Allow-Headers", mirrored);
            },
            None => {},
        }
        resp.status = 204;
    }
}

/// Applies the whole middleware: the server-identity stage, then the
/// CORS stage.
pub fn shape_response(req: &RequestContext, resp: &mut ResponseShape)
    ensures
        final(resp)@ == shaped(req@, old(resp)@),
{
    apply_server_header(resp);
    apply_cors_headers(req, resp);
}

/// The header names the CORS stage writes name five different
/// headers.
proof fn lemma_cors_names_distinct()
    ensures
        !name_eq("Access-Control-Allow-Credentials"@, "Access-Control-Allow-Origin"@),
        !name_eq("Access-Control-Allow-Methods"@, "Access-Control-Allow-Origin"@),
        !name_eq("Access-Control-Max-Age"@, "Access-Control-Allow-Origin"@),
        !name_eq("Access-Control-Allow-Headers"@, "Access-Control-Allow-Origin"@),
        !name_eq("Access-Control-Max-Age"@, "Access-Control-Allow-Methods"@),
        !name_eq("Access-Control-Allow-Headers"@, "Access-Control-Allow-Methods"@),
        !name_eq("Access-Control-Allow-Headers"@, "Access-Control-Max-Age"@),
        !name_eq("Access-Control-Allow-Credentials"@, "Access-Control-Allow-Methods"@),
        !name_eq("Access-Control-Allow-Credentials"@, "Access-Control-Max-Age"@),
        !name_eq("Access-Control-Allow-Credentials"@, "Access-Control-Allow-Headers"@),
{
    reveal_strlit("Access-Control-Allow-Origin");
    reveal_strlit("Access-Control-Allow-Credentials");
    reveal_strlit("Access-Control-Allow-Methods");
    reveal_strlit("Access-Control-Max-Age");
    reveal_strlit("Access-Control-Allow-Headers");
    let ao = "Access-Control-Allow-Origin"@;
    let ac = "Access-Control-Allow-Credentials"@;
    let am = "Access-Control-Allow-Methods"@;
    let aa = "Access-Control-Max-Age"@;
    let ah = "Access-Control-Allow-Headers"@;
    assert(lower(ao).len() == 27 && lower(ac).len() == 32 && lower(am).len() == 28 && lower(
        aa,
    ).len() == 22 && lower(ah).len() == 28);
    assert(lower(am)[21] == lower_char(am[21]) && lower(ah)[21] == lower_char(ah[21]));
    assert(lower_char('M') == 'm' && lower_char('H') == 'h');
    assert(lower(am) != lower(ah)) by {
        assert(lower(am)[21] != lower(ah)[21]);
    }
}

/// None of the names the CORS stage writes is the server-identity
/// header's.
proof fn lemma_cors_names_not_server()
    ensures
        !name_eq("Access-Control-Allow-Origin"@, "Server"@),
        !name_eq("Access-Control-Allow-Credentials"@, "Server"@),
        !name_eq("Access-Control-Allow-Methods"@, "Server"@),
        !name_eq("Access-Control-Max-Age"@, "Server"@),
        !name_eq("Access-Control-Allow-Headers"@, "Server"@),
{
    reveal_strlit("Server");
    reveal_strlit("Access-Control-Allow-Origin");
    reveal_strlit("Access-Control-Allow-Credentials");
    reveal_strlit("Access-Control-Allow-Methods");
    reveal_strlit("Access-Control-Max-Age");
    reveal_strlit("Access-Control-Allow-Headers");
    assert(lower("Server"@).len() == 6);
    assert(lower("Access-Control-Allow-Origin"@).len() == 27);
    assert(lower("Access-Control-Allow-Credentials"@).len() == 32);
    assert(lower("Access-Control-Allow-Methods"@).len() == 28);
    assert(lower("Access-Control-Max-Age"@).len() == 22);
    assert(lower("Access-Control-Allow-Headers"@).len() == 28);
}

/// Every shaped response identifies the server: it carries the fixed
/// product name and version under the `Server` header.
pub proof fn lemma_shaped_server_identity(req: RequestView, r: ResponseView)
    ensures
        lookup(shaped(req, r).headers, "Server"@) == Some(SERVER_IDENTITY@),
{
    lemma_cors_names_not_server();
    let hs = with_server_header(r).headers;
    lemma_lookup_after_write(r.headers, "Server"@, SERVER_IDENTITY@);
    let h1 = crate::headers::written(hs, "Access-Control-Allow-Origin"@, allowed_origin(req));
    let h2 = crate::headers::written(h1, "Access-Control-Allow-Credentials"@, "true"@);
    lemma_lookup_other_after_write(hs, "Access-Control-Allow-Origin"@, allowed_origin(req), "Server"@);
    lemma_lookup_other_after_write(h1, "Access-Control-Allow-Credentials"@, "true"@, "Server"@);
    if req.method == Method::Options {
        let h3 = crate::headers::written(h2, "Access-Control-Allow-Methods"@, ALLOWED_METHODS@);
        let h4 = crate::headers::written(h3, "Access-Control-Max-Age"@, MAX_AGE@);
        lemma_lookup_other_after_write(h2, "Access-Control-Allow-Methods"@, ALLOWED_METHODS@, "Server"@);
        lemma_lookup_other_after_write(h3, "Access-Control-Max-Age"@, MAX_AGE@, "Server"@);
        match lookup(req.headers, "Access-Control-Request-Headers"@) {
            Some(v) => {
                lemma_lookup_other_after_write(h4, "Access-Control-Allow-Headers"@, v, "Server"@);
            },
            None => {},
        }
    }
}

/// Every shaped response allows exactly the request's origin — the
/// `Origin` header when the request carries one, else every origin —
/// and allows credentials.
pub proof fn lemma_shaped_origin_and_credentials(req: RequestView, r: ResponseView)
    ensures
        lookup(shaped(req, r).headers, "Access-Control-Allow-Origin"@) == Some(
            allowed_origin(req),
        ),
        lookup(shaped(req, r).headers, "Access-Control-Allow-Credentials"@) == Some("true"@),
{
    lemma_cors_names_distinct();
    let hs = with_server_header(r).headers;
    let h1 = crate::headers::written(hs, "Access-Control-Allow-Origin"@, allowed_origin(req));
    let h2 = crate::headers::written(h1, "Access-Control-Allow-Credentials"@, "true"@);
    lemma_lookup_after_write(hs, "Access-Control-Allow-Origin"@, allowed_origin(req));
    lemma_lookup_other_after_write(
        h1,
        "Access-Control-Allow-Credentials"@,
        "true"@,
        "Access-Control-Allow-Origin"@,
    );
    lemma_lookup_after_write(h1, "Access-Control-Allow-Credentials"@, "true"@);
    if req.method == Method::Options {
        let h3 = crate::headers::written(h2, "Access-Control-Allow-Methods"@, ALLOWED_METHODS@);
        let h4 = crate::headers::written(h3, "Access-Control-Max-Age"@, MAX_AGE@);
        lemma_lookup_other_after_write(
            h2,
            "Access-Control-Allow-Methods"@,
            ALLOWED_METHODS@,
            "Access-Control-Allow-Origin"@,
        );
        lemma_lookup_other_after_write(
            h2,
            "Access-Control-Allow-Methods"@,
            ALLOWED_METHODS@,
            "Access-Control-Allow-Credentials"@,
        );
        lemma_lookup_other_after_write(
            h3,
            "Access-Control-Max-Age"@,
            MAX_AGE@,
            "Access-Control-Allow-Origin"@,
        );
        lemma_lookup_other_after_write(
            h3,
            "Access-Control-Max-Age"@,
            MAX_AGE@,
            "Access-Control-Allow-Credentials"@,
        );
        match lookup(req.headers, "Access-Control-Request-Headers"@) {
            Some(v) => {
                lemma_lookup_other_after_write(
                    h4,
                    "Access-Control-Allow-Headers"@,
                    v,
                    "Access-Control-Allow-Origin"@,
                );
                lemma_lookup_other_after_write(
                    h4,
                    "Access-Control-Allow-Headers"@,
                    v,
                    "Access-Control-Allow-Credentials"@,
                );
            },
            None => {},
        }
    }
}

/// A preflight request — method `OPTIONS` — is answered `204 No
/// Content` with a non-empty allowed-method list and cache age, and
/// with the request's asked-for headers mirrored back when it named
/// any.
pub proof fn lemma_shaped_preflight(req: RequestView, r: ResponseView)
    requires
        req.method == Method::Options,
    ensures
        shaped(req, r).status == 204,
        lookup(shaped(req, r).headers, "Access-Control-Allow-Methods"@) == Some(
            ALLOWED_METHODS@,
        ),
        lookup(shaped(req, r).headers, "Access-Control-Max-Age"@) == Some(MAX_AGE@),
        lookup(req.headers, "Access-Control-Request-Headers"@) matches Some(h)
            ==> lookup(shaped(req, r).headers, "Access-Control-Allow-Headers"@) == Some(h),
{
    lemma_cors_names_distinct();
    let hs = with_server_header(r).headers;
    let h1 = crate::headers::written(hs, "Access-Control-Allow-Origin"@, allowed_origin(req));
    let h2 = crate::headers::written(h1, "Access-Control-Allow-Credentials"@, "true"@);
    let h3 = crate::headers::written(h2, "Access-Control-Allow-Methods"@, ALLOWED_METHODS@);
    let h4 = crate::headers::written(h3, "Access-Control-Max-Age"@, MAX_AGE@);
    lemma_lookup_after_write(h2, "Access-Control-Allow-Methods"@, ALLOWED_METHODS@);
    lemma_lookup_other_after_write(
        h3,
        "Access-Control-Max-Age"@,
        MAX_AGE@,
        "Access-Control-Allow-Methods"@,
    );
    lemma_lookup_after_write(h3, "Access-Control-Max-Age"@, MAX_AGE@);
    match lookup(req.headers, "Access-Control-Request-Headers"@) {
        Some(v) => {
            lemma_lookup_other_after_write(
                h4,
                "Access-Control-Allow-Headers"@,
                v,
                "Access-Control-Allow-Methods"@,
            );
            lemma_lookup_other_after_write(
                h4,
                "Access-Control-Allow-Headers"@,
                v,
                "Access-Control-Max-Age"@,
            );
            lemma_lookup_after_write(h4, "Access-Control-Allow-Headers"@, v);
        },
        None => {},
    }
}

/// A request that is no preflight keeps the handler's status.
pub proof fn lemma_shaped_keeps_status(req: RequestView, r: ResponseView)
    requires
        req.method != Method::Options,
    ensures
        shaped(req, r).status == r.status,
{
}

} // verus!
