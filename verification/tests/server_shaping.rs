use httpbin_rs::builder::build;
use httpbin_rs::headers::Header;
use httpbin_rs::middleware::shape_response;
use httpbin_rs::request::{Method, RequestContext};
use httpbin_rs::response::ResponseShape;
use httpbin_rs::service::respond_status;

fn request_with(method: Method, headers: Vec<(&str, &str)>) -> RequestContext {
    RequestContext {
        method,
        path: String::from("/"),
        headers: headers
            .into_iter()
            .map(|(n, v)| Header {
                name: String::from(n),
                value: String::from(v),
            })
            .collect(),
        peer: String::from("127.0.0.1:4000"),
    }
}

fn header_value<'a>(resp: &'a ResponseShape, name: &str) -> Option<&'a String> {
    resp.headers
        .iter()
        .find(|h| h.name.eq_ignore_ascii_case(name))
        .map(|h| &h.value)
}

#[test]
fn inserts_server_header() {
    let req = request_with(Method::Get, vec![]);
    let mut resp = build(200, &req);
    shape_response(&req, &mut resp);
    assert!(header_value(&resp, "Server").is_some());
}

#[test]
fn inserts_default_cors_headers() {
    let req = request_with(Method::Get, vec![]);
    let mut resp = build(200, &req);
    shape_response(&req, &mut resp);
    assert_eq!(
        header_value(&resp, "Access-Control-Allow-Origin"),
        Some(&String::from("*"))
    );
    assert_eq!(
        header_value(&resp, "Access-Control-Allow-Credentials"),
        Some(&String::from("true"))
    );
}

#[test]
fn inserts_cors_origin_header_with_origin_from_request() {
    let req = request_with(Method::Get, vec![("Origin", "example.com")]);
    let mut resp = build(200, &req);
    shape_response(&req, &mut resp);
    assert_eq!(
        header_value(&resp, "Access-Control-Allow-Origin"),
        Some(&String::from("example.com"))
    );
}

#[test]
fn inserts_cors_headers_on_preflight_requests() {
    let req = request_with(
        Method::Options,
        vec![("Access-Control-Request-Headers", "Content-Type, Authorization")],
    );
    let mut resp = build(200, &req);
    shape_response(&req, &mut resp);
    assert_eq!(resp.status, 204);
    assert_eq!(
        header_value(&resp, "Access-Control-Allow-Headers"),
        Some(&String::from("Content-Type, Authorization"))
    );
    assert!(header_value(&resp, "Access-Control-Allow-Methods").is_some());
    assert!(header_value(&resp, "Access-Control-Max-Age").is_some());
}

#[test]
fn preflight_overrides_status_on_any_route() {
    let req = request_with(Method::Options, vec![]);
    let mut resp = respond_status("503", &req);
    assert_eq!(resp.status, 503);
    shape_response(&req, &mut resp);
    assert_eq!(resp.status, 204);
    assert!(header_value(&resp, "Access-Control-Allow-Methods").is_some());
}

#[test]
fn non_preflight_keeps_status_and_lacks_preflight_headers() {
    let req = request_with(Method::Post, vec![("Origin", "example.com")]);
    let mut resp = respond_status("201", &req);
    shape_response(&req, &mut resp);
    assert_eq!(resp.status, 201);
    assert!(header_value(&resp, "Access-Control-Allow-Methods").is_none());
    assert!(header_value(&resp, "Access-Control-Max-Age").is_none());
    assert!(header_value(&resp, "Access-Control-Allow-Headers").is_none());
}

#[test]
fn origin_header_name_is_matched_case_insensitively() {
    let req = request_with(Method::Get, vec![("oRiGiN", "example.org")]);
    let mut resp = build(200, &req);
    shape_response(&req, &mut resp);
    assert_eq!(
        header_value(&resp, "Access-Control-Allow-Origin"),
        Some(&String::from("example.org"))
    );
}

#[test]
fn shaping_overwrites_an_existing_header_value() {
    let req = request_with(Method::Get, vec![("Origin", "example.net")]);
    let mut resp = build(200, &req);
    resp.headers.push(Header {
        name: String::from("access-control-allow-origin"),
        value: String::from("stale"),
    });
    shape_response(&req, &mut resp);
    let values: Vec<&Header> = resp
        .headers
        .iter()
        .filter(|h| h.name.eq_ignore_ascii_case("Access-Control-Allow-Origin"))
        .collect();
    assert_eq!(values.len(), 1);
    assert_eq!(values[0].value, "example.net");
}

#[test]
fn server_header_names_the_product() {
    let req = request_with(Method::Get, vec![]);
    let mut resp = build(204, &req);
    shape_response(&req, &mut resp);
    let server = header_value(&resp, "Server").unwrap();
    assert!(server.starts_with("httpbin-rs/"));
}
