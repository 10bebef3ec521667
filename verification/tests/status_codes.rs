use httpbin_rs::builder::build;
use httpbin_rs::headers::Header;
use httpbin_rs::request::{Method, RequestContext};
use httpbin_rs::response::ResponseShape;
use httpbin_rs::service::respond_status;

fn request(method: Method) -> RequestContext {
    RequestContext {
        method,
        path: String::from("/status/test"),
        headers: Vec::new(),
        peer: String::from("127.0.0.1:4000"),
    }
}

fn header_value<'a>(resp: &'a ResponseShape, name: &str) -> Option<&'a String> {
    resp.headers
        .iter()
        .find(|h| h.name.eq_ignore_ascii_case(name))
        .map(|h| &h.value)
}

#[test]
fn selects_a_single_status_code() {
    let resp = respond_status("200", &request(Method::Get));
    assert_eq!(resp.status, 200);
}

#[test]
fn supports_multiple_http_methods() {
    let methods = vec![
        Method::Get,
        Method::Post,
        Method::Put,
        Method::Delete,
        Method::Patch,
        Method::Trace,
        Method::Head,
    ];
    for method in methods {
        let resp = respond_status("200", &request(method));
        assert_eq!(resp.status, 200);
    }
}

#[test]
fn chooses_a_random_status_code_when_multiple_provided() {
    let choices: Vec<u16> = vec![200, 201, 202, 204];
    for _ in 0..1000 {
        let resp = respond_status("200,201,202,204", &request(Method::Get));
        assert!(choices.contains(&resp.status));
    }
}

#[test]
fn chooses_a_random_status_code_when_multiple_provided_with_weights() {
    let choices: Vec<u16> = vec![200, 201, 202, 204];
    let resp = respond_status("200:0.1,201:0.1,202:0.1,204:1", &request(Method::Get));
    assert!(choices.contains(&resp.status));
}

#[test]
fn chooses_a_higher_weighted_random_status_code_more_often() {
    let mut ok_returns: u16 = 0;
    let mut created_returns: u16 = 0;
    let mut accepted_returns: u16 = 0;
    let mut no_content_returns: u16 = 0;

    for _num in 0..1000 {
        let resp = respond_status("200:0.1,201:0.25,202:0.75,204:1", &request(Method::Get));
        match resp.status {
            200 => ok_returns += 1,
            201 => created_returns += 1,
            202 => accepted_returns += 1,
            204 => no_content_returns += 1,
            _ => {}
        }
    }

    assert!(no_content_returns > ok_returns);
    assert!(no_content_returns > created_returns);
    assert!(no_content_returns > accepted_returns);
    assert!(accepted_returns > created_returns);
    assert!(accepted_returns > ok_returns);
    assert!(created_returns > ok_returns);
}

#[test]
fn returns_an_error_on_invalid_status_code_by_itself() {
    let resp = respond_status("jalapeno", &request(Method::Get));
    assert_eq!(resp.status, 400);
    assert_eq!(
        header_value(&resp, "Content-Type"),
        Some(&String::from("text/plain"))
    );
}

#[test]
fn returns_an_error_on_invalid_status_code_among_multiple() {
    let resp = respond_status("200,201,204,jalapeno", &request(Method::Get));
    assert_eq!(resp.status, 400);
    assert_eq!(
        header_value(&resp, "Content-Type"),
        Some(&String::from("text/plain"))
    );
}

#[test]
fn redirects_have_location_header() {
    let redirects: Vec<u16> = vec![301, 302, 303, 304, 307];
    for redirect in redirects {
        let resp = respond_status(&format!("{}", redirect), &request(Method::Get));
        assert_eq!(resp.status, redirect);
        assert!(header_value(&resp, "Location").is_some());
        assert_eq!(
            header_value(&resp, "Location"),
            Some(&String::from("/redirect/1"))
        );
        assert!(resp.body.is_empty());
    }
}

#[test]
fn unauthorized_has_www_authenticate_header() {
    let resp = respond_status("401", &request(Method::Get));
    assert_eq!(resp.status, 401);
    assert_eq!(
        header_value(&resp, "WWW-Authenticate"),
        Some(&String::from("Basic realm=\"Fake realm\""))
    );
    assert!(resp.body.is_empty());
}

#[test]
fn payment_required_has_text_body() {
    let resp = respond_status("402", &request(Method::Get));
    assert_eq!(resp.status, 402);
    assert_eq!(
        header_value(&resp, "Content-Type"),
        Some(&String::from("text/plain"))
    );
    assert_eq!(resp.body, "Show me the money!");
    assert!(header_value(&resp, "x-more-info").is_some());
}

#[test]
fn not_acceptable_has_json_body() {
    let resp = respond_status("406", &request(Method::Get));
    assert_eq!(resp.status, 406);
    assert_eq!(
        header_value(&resp, "Content-Type"),
        Some(&String::from("application/json"))
    );
    let parsed: serde_json::Value = serde_json::from_str(&resp.body).unwrap();
    let accept = parsed["accept"].as_array().unwrap();
    assert_eq!(accept.len(), 5);
    assert_eq!(
        parsed["message"],
        "Client did not request a supported media type."
    );
}

#[test]
fn proxy_authentication_required_has_proxy_authenticate_header() {
    let resp = respond_status("407", &request(Method::Get));
    assert_eq!(resp.status, 407);
    assert_eq!(
        header_value(&resp, "Proxy-Authenticate"),
        Some(&String::from("Basic realm=\"Fake realm\""))
    );
}

#[test]
fn teapot_has_body() {
    let resp = respond_status("418", &request(Method::Get));
    assert_eq!(resp.status, 418);
    assert_eq!(
        header_value(&resp, "Content-Type"),
        Some(&String::from("text/plain"))
    );
    assert!(std::str::from_utf8(resp.body.as_bytes()).is_ok());
    assert!(resp.body.contains("teapot"));
}

#[test]
fn other_valid_codes_have_bare_shape() {
    let resp = respond_status("503", &request(Method::Get));
    assert_eq!(resp.status, 503);
    assert!(resp.headers.is_empty());
    assert!(resp.body.is_empty());
}

#[test]
fn build_is_deterministic() {
    let req = request(Method::Get);
    let first = build(418, &req);
    let second = build(418, &req);
    assert_eq!(first.status, second.status);
    assert_eq!(first.body, second.body);
    assert_eq!(first.headers.len(), second.headers.len());
    for (a, b) in first.headers.iter().zip(second.headers.iter()) {
        assert_eq!(a.name, b.name);
        assert_eq!(a.value, b.value);
    }
}

#[test]
fn build_ignores_the_request() {
    let bare = build(401, &request(Method::Get));
    let mut other = request(Method::Options);
    other.headers.push(Header {
        name: String::from("Origin"),
        value: String::from("example.com"),
    });
    let with_headers = build(401, &other);
    assert_eq!(bare.status, with_headers.status);
    assert_eq!(bare.body, with_headers.body);
    assert_eq!(bare.headers.len(), with_headers.headers.len());
}

#[test]
fn invalid_code_values_are_rejected() {
    for specifier in ["600", "099", "99", "1000", "20a", " 200", "200 ", "2,00"] {
        let resp = respond_status(specifier, &request(Method::Get));
        assert_eq!(resp.status, 400, "specifier {:?}", specifier);
        assert_eq!(resp.body, "Invalid status code");
    }
}

#[test]
fn empty_specifier_is_rejected() {
    let resp = respond_status("", &request(Method::Get));
    assert_eq!(resp.status, 400);
    let trailing = respond_status("200,", &request(Method::Get));
    assert_eq!(trailing.status, 400);
}

#[test]
fn lone_code_with_weight_is_rejected() {
    // without a comma the whole specifier must be a bare code token
    let resp = respond_status("200:0.5", &request(Method::Get));
    assert_eq!(resp.status, 400);
}
