//! The status response builder: maps a concrete status code to the
//! exact header and body shape mandated for that code's semantic
//! class, and maps anything that is not a valid status code to the
//! fixed rejection response.

use vstd::prelude::*;

use crate::headers::{views, Header, HeaderView};
use crate::request::RequestContext;
use crate::response::{ResponseShape, ResponseView};

verus! {

/// The target of every synthesized redirect.
pub const REDIRECT_LOCATION: &'static str = "/redirect/1";

/// The challenge offered for authentication-demanding codes.
pub const FAKE_REALM: &'static str = "Basic realm=\"Fake realm\"";

/// The rejection body for an invalid status code.
pub const INVALID_BODY: &'static str = "Invalid status code";

/// The body of the payment-required response.
pub const PAYMENT_BODY: &'static str = "Show me the money!";

/// The body of the not-acceptable response: the content-negotiation
/// error with the media types the image routes accept.
pub const NOT_ACCEPTABLE_BODY: &'static str = "{\"accept\":[\"image/webp\",\"image/svg+xml\",\"image/jpeg\",\"image/png\",\"image/*\"],\"message\":\"Client did not request a supported media type.\"}";

/// The teapot illustration served for the teapot code.
pub const TEAPOT_BODY: &'static str = "\n    -=[ teapot ]=-\n\n       _...._\n     .'  _ _ `.\n    | .\"` ^ `\". _,\n    \\_;`\"---\"`|//\n      |       ;/\n      \\_     _/\n        `\\\"\\\"\\\"`\n";

pub open spec fn hv(name: Seq<char>, value: Seq<char>) -> HeaderView {
    HeaderView { name, value }
}

/// The codes answered with a redirect shape.
pub open spec fn is_redirect_code(code: int) -> bool {
    code == 301 || code == 302 || code == 303 || code == 304 || code == 307
}

/// A syntactically valid status code.
pub open spec fn is_valid_code(code: int) -> bool {
    100 <= code <= 599
}

/// The fixed rejection response: 400 with a plain-text notice.
pub open spec fn invalid_shape() -> ResponseView {
    ResponseView {
        status: 400,
        headers: seq![hv("Content-Type"@, "text/plain"@)],
        body: INVALID_BODY@,
    }
}

/// The response shape mandated for a status code: redirects carry a
/// `Location`, the authentication codes carry their challenge, the
/// payment, not-acceptable and teapot codes carry their fixed bodies,
/// every other valid code is bare, and an invalid code is rejected.
pub open spec fn build_shape(code: int) -> ResponseView {
    if !is_valid_code(code) {
        invalid_shape()
    } else if is_redirect_code(code) {
        ResponseView {
            status: code,
            headers: seq![hv("Location"@, REDIRECT_LOCATION@)],
            body: Seq::<char>::empty(),
        }
    } else if code == 401 {
        ResponseView {
            status: code,
            headers: seq![hv("WWW-Authenticate"@, FAKE_REALM@)],
            body: Seq::<char>::empty(),
        }
    } else if code == 402 {
        ResponseView {
            status: code,
            headers: seq![
                hv("x-more-info"@, "https://youtu.be/FFrag8ll85w"@),
                hv("Content-Type"@, "text/plain"@),
            ],
            body: PAYMENT_BODY@,
        }
    } else if code == 406 {
        ResponseView {
            status: code,
            headers: seq![hv("Content-Type"@, "application/json"@)],
            body: NOT_ACCEPTABLE_BODY@,
        }
    } else if code == 407 {
        ResponseView {
            status: code,
            headers: seq![hv("Proxy-Authenticate"@, FAKE_REALM@)],
            body: Seq::<char>::empty(),
        }
    } else if code == 418 {
        ResponseView {
            status: code,
            headers: seq![
                hv("x-more-info"@, "http://tools.ietf.org/html/rfc2324"@),
                hv("Content-Type"@, "text/plain"@),
            ],
            body: TEAPOT_BODY@,
        }
    } else {
        ResponseView { status: code, headers: Seq::<HeaderView>::empty(), body: Seq::<char>::empty() }
    }
}

fn header_of(name: &str, value: &str) -> (h: Header)
    ensures
        h@ == hv(name@, value@),
{
    Header { name: String::from_str(name), value: String::from_str(value) }
}

/// The fixed rejection response, built.
pub fn invalid_response() -> (r: ResponseShape)
    ensures
        r@ == invalid_shape(),
{
    let mut hs: Vec<Header> = Vec::new();
    hs.push(header_of("Content-Type", "text/plain"));
    let r = ResponseShape {
        status: 400,
        headers: hs,
        body: String::from_str(INVALID_BODY),
    };
    proof {
        assert(views(r.headers@) =~= invalid_shape().headers);
    }
    r
}

fn shape_with(code: u16, hs: Vec<Header>, body: String) -> (r: ResponseShape)
    ensures
        r@ == (ResponseView { status: code as int, headers: views(hs@), body: body@ }),
{
    ResponseShape { status: code, headers: hs, body }
}

/// Builds the response shape for a status code.
///
/// The shape is a function of the code alone: the request does not
/// influence it, which the contract states by giving the result for
/// every request. An invalid code is answered with the fixed
/// rejection shape.
pub fn build(code: u16, _req: &RequestContext) -> (r: ResponseShape)
    ensures
        r@ == build_shape(code as int),
{
    if code < 100 || code > 599 {
        return invalid_response();
    }
    if code == 301 || code == 302 || code == 303 || code == 304 || code == 307 {
        let mut hs: Vec<Header> = Vec::new();
        hs.push(header_of("Location", REDIRECT_LOCATION));
        let r = shape_with(code, hs, String::new());
        proof {
            assert(r@.headers =~= build_shape(code as int).headers);
        }
        r
    } else if code == 401 {
        let mut hs: Vec<Header> = Vec::new();
        hs.push(header_of("WWW-Authenticate", FAKE_REALM));
        let r = shape_with(code, hs, String::new());
        proof {
            assert(r@.headers =~= build_shape(code as int).headers);
        }
        r
    } else if code == 402 {
        let mut hs: Vec<Header> = Vec::new();
        hs.push(header_of("x-more-info", "https://youtu.be/FFrag8ll85w"));
        hs.push(header_of("Content-Type", "text/plain"));
        let r = shape_with(code, hs, String::from_str(PAYMENT_BODY));
        proof {
            assert(r@.headers =~= build_shape(code as int).headers);
        }
        r
    } else if code == 406 {
        let mut hs: Vec<Header> = Vec::new();
        hs.push(header_of("Content-Type", "application/json"));
        let r = shape_with(code, hs, String::from_str(NOT_ACCEPTABLE_BODY));
        proof {
            assert(r@.headers =~= build_shape(code as int).headers);
        }
        r
    } else if code == 407 {
        let mut hs: Vec<Header> = Vec::new();
        hs.push(header_of("Proxy-Authenticate", FAKE_REALM));
        let r = shape_with(code, hs, String::new());
        proof {
            assert(r@.headers =~= build_shape(code as int).headers);
        }
        r
    } else if code == 418 {
        let mut hs: Vec<Header> = Vec::new();
        hs.push(header_of("x-more-info", "http://tools.ietf.org/html/rfc2324"));
        hs.push(header_of("Content-Type", "text/plain"));
        let r = shape_with(code, hs, String::from_str(TEAPOT_BODY));
        proof {
            assert(r@.headers =~= build_shape(code as int).headers);
        }
        r
    } else {
        let hs: Vec<Header> = Vec::new();
        let r = shape_with(code, hs, String::new());
        proof {
            assert(r@.headers =~= build_shape(code as int).headers);
        }
        r
    }
}

/// Building is idempotent: two responses built for the same code are
/// identical, the shape being a function of the code alone.
pub proof fn lemma_build_deterministic(code: u16, r1: ResponseShape, r2: ResponseShape)
    requires
        r1@ == build_shape(code as int),
        r2@ == build_shape(code as int),
    ensures
        r1@ == r2@,
{
}

} // verus!
