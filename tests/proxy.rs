use http_proxy::error::HttpError;
use http_proxy::handler::{after_proxy, health_response, route, Step};
use http_proxy::headers::Headers;
use http_proxy::http_client::{
    check_written, needs_more_input, resolved_address, upstream_address, HTTPClient,
};
use http_proxy::http_request::HttpRequest;
use http_proxy::http_response::HttpResponse;
use http_proxy::status_code::StatusCode;

#[test]
fn status_codes_round_trip_and_reject_the_rest() {
    for n in 0u32..1000 {
        match StatusCode::from_u32(n) {
            Ok(s) => assert_eq!(s.to_u32(), n),
            Err(e) => {
                if n < 100 || n > 599 {
                    assert_eq!(e, HttpError::InvalidStatusCode);
                } else {
                    assert_eq!(e, HttpError::UnknownStatusCode);
                }
            }
        }
    }
    assert_eq!(StatusCode::from_u32(u32::MAX), Err(HttpError::InvalidStatusCode));
    assert_eq!(StatusCode::from_u32(404), Ok(StatusCode::NotFound));
    assert_eq!(StatusCode::from_u32(418), Err(HttpError::UnknownStatusCode));
    assert_eq!(StatusCode::NotAcceptable.to_reason_phrase(), b"Not Acceptable".to_vec());
    assert_eq!(StatusCode::InvalidRequest.to_reason_phrase(), b"Invalid Request".to_vec());
}

#[test]
fn health_path_short_circuits() {
    match route(b"GET http://example.com/health HTTP/1.1\r\n\r\n") {
        Step::Reply(r) => {
            assert_eq!(r.status_code, StatusCode::OK);
            assert_eq!(r.body, b"OK".to_vec());
            assert_eq!(r.headers.get(b"Content-Length").unwrap(), &b"2".to_vec());
        }
        Step::Forward(_) => panic!("a health check was forwarded"),
    }
    match route(b"GET /x/favicon.ico HTTP/1.1\r\nHost: example.com\r\n\r\n") {
        Step::Reply(r) => assert_eq!(r.status_code, StatusCode::OK),
        Step::Forward(_) => panic!("a favicon request was forwarded"),
    }
    assert_eq!(
        health_response().serialize(),
        b"HTTP/1.1 200 OK\r\nContent-Length: 2\r\n\r\nOK".to_vec()
    );
}

#[test]
fn ordinary_requests_are_forwarded() {
    match route(b"GET /x HTTP/1.1\r\nHost: health.example.com\r\n\r\n") {
        Step::Forward(q) => assert_eq!(q.url.path, b"/x".to_vec()),
        Step::Reply(_) => panic!("an ordinary request was answered locally"),
    }
}

#[test]
fn malformed_input_gets_a_400() {
    match route(b"garbage not http") {
        Step::Reply(r) => {
            assert_eq!(r.status_code, StatusCode::InvalidRequest);
            assert_eq!(r.body, b"Bad Request".to_vec());
            assert_eq!(
                r.serialize(),
                b"HTTP/1.1 400 Invalid Request\r\n\r\nBad Request".to_vec()
            );
        }
        Step::Forward(_) => panic!("garbage was forwarded"),
    }
}

#[test]
fn proxy_failure_gets_a_500() {
    let r = after_proxy(Err(HttpError::ConnectFailure));
    assert_eq!(r.status_code, StatusCode::InternalServerError);
    let ok = HttpResponse::new(StatusCode::Found, Headers::new(), b"x".to_vec());
    assert_eq!(after_proxy(Ok(ok)).status_code, StatusCode::Found);
}

#[test]
fn upstream_address_uses_port_or_80() {
    let q = HttpRequest::from_bytes(b"GET /x HTTP/1.1\r\nHost: example.com:8080\r\n\r\n").unwrap();
    assert_eq!(upstream_address(&q), (b"example.com".to_vec(), 8080));
    let q = HttpRequest::from_bytes(b"GET http://example.com/x HTTP/1.1\r\n\r\n").unwrap();
    assert_eq!(upstream_address(&q), (b"example.com".to_vec(), 80));
    let q = HttpRequest::from_bytes(b"GET /x HTTP/1.1\r\nHost: example.com:99999\r\n\r\n").unwrap();
    assert_eq!(upstream_address(&q), (b"example.com".to_vec(), 80));
    assert_eq!(
        HttpRequest::from_bytes(b"GET http://example.com:99999/x HTTP/1.1\r\n\r\n").unwrap_err(),
        HttpError::InvalidTarget
    );
}

#[test]
fn short_writes_fail() {
    assert_eq!(check_written(10, 10), Ok(()));
    assert_eq!(check_written(9, 10), Err(HttpError::WriteFailure));
}

#[test]
fn incomplete_input_asks_for_more() {
    assert!(needs_more_input(b"GET / HTTP/1.1\r\n", HttpError::UnterminatedHead));
    assert!(needs_more_input(b"GET / HTTP/1.1\r\n", HttpError::TruncatedBody));
    assert!(needs_more_input(b"GE", HttpError::InvalidMethod));
    assert!(!needs_more_input(b"GE\r\n", HttpError::InvalidMethod));
}

#[test]
fn each_connection_is_routed_on_its_own_bytes() {
    // Connections are handled one at a time, and nothing is carried from one
    // to the next: routing the same bytes twice decides the same way.
    for _ in 0..2 {
        match route(b"GET /health HTTP/1.1\r\nHost: a\r\n\r\n") {
            Step::Reply(r) => assert_eq!(r.body, b"OK".to_vec()),
            Step::Forward(_) => panic!("a health check was forwarded"),
        }
    }
}

#[test]
fn client_keeps_its_default_headers() {
    let mut h = Headers::new();
    h.insert(b"User-Agent".to_vec(), b"proxy".to_vec());
    let c = HTTPClient::new(h);
    assert_eq!(c.default_headers.len(), 1);
}

#[test]
fn resolution_takes_the_first_address() {
    assert_eq!(resolved_address::<u32>(&vec![]), Err(HttpError::ResolutionFailure));
    assert_eq!(resolved_address(&vec![7u32, 9]), Ok(7));
}
