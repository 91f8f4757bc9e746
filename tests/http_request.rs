use http_proxy::error::HttpError;
use http_proxy::headers::Headers;
use http_proxy::http_request::HttpRequest;
use http_proxy::http_response::HttpResponse;
use http_proxy::method::Method;
use http_proxy::status_code::StatusCode;
use http_proxy::url::Url;

fn headers_of(pairs: &[(&str, &str)]) -> Headers {
    let mut h = Headers::new();
    for (k, v) in pairs {
        h.insert(k.as_bytes().to_vec(), v.as_bytes().to_vec());
    }
    h
}

fn same_headers(a: &Headers, b: &Headers) -> bool {
    if a.len() != b.len() {
        return false;
    }
    for i in 0..a.len() {
        let (k, v) = a.pair_at(i);
        match b.get(k) {
            Some(w) if w == v => {}
            _ => return false,
        }
    }
    true
}

fn header(h: &Headers, name: &str) -> String {
    String::from_utf8(h.get(name.as_bytes()).unwrap().clone()).unwrap()
}

fn url(s: &str) -> Url {
    Url::parse_absolute(s.as_bytes()).unwrap()
}

#[test]
fn test_httprequest_from_string() {
    let dummy_request =
        "GET / HTTP/1.1\r\nHost: localhost:8080\r\nUser-Agent: curl/7.64.1\r\nAccept: */*\r\n\r\n";
    let request = HttpRequest::from_string(dummy_request).unwrap();
    assert_eq!(request.method, Method::Get);
    assert_eq!(request.url, url("http://localhost:8080/"));
    assert_eq!(header(&request.headers, "Host"), "localhost:8080");
    assert_eq!(header(&request.headers, "User-Agent"), "curl/7.64.1");
    assert_eq!(header(&request.headers, "Accept"), "*/*");
}

#[test]
fn test_from_string() {
    struct TestCase {
        input: String,
        expected: Option<HttpRequest>,
        expected_error: bool,
    }
    let test_cases = [
        TestCase {
            input: "GET / HTTP/1.1\r\nHost: localhost:8080\r\nUser-Agent: curl/7.64.1\r\nAccept: */*\r\n\r\n".to_string(),
            expected: Some(HttpRequest::new(
                Method::Get,
                url("http://localhost:8080/"),
                headers_of(&[
                    ("User-Agent", "curl/7.64.1"),
                    ("Accept", "*/*"),
                    ("Host", "localhost:8080"),
                ]),
                Vec::new(),
            )),
            expected_error: false,
        },
        TestCase {
            input: "invalid request".to_string(),
            expected: None,
            expected_error: true,
        },
    ];
    for test_case in test_cases.iter() {
        let actual = match HttpRequest::from_string(&test_case.input) {
            Ok(request) => request,
            Err(_e) => {
                assert!(test_case.expected_error);
                continue;
            }
        };
        let expected = test_case.expected.as_ref().unwrap();
        assert_eq!(actual.method, expected.method);
        assert_eq!(actual.url, expected.url);
        assert!(same_headers(&actual.headers, &expected.headers));
        assert_eq!(actual.body, expected.body);
    }
}

#[test]
fn test_read_request() {
    let tests = vec![
        (
            "POST /users/1 HTTP/1.1\r\nHost: google.com\r\nUser-Agent: curl/7.64.1\r\nAccept: */*\r\nContent-Length: 20\r\n\r\n<h1>Hello World</h1>",
            ("POST", "/users/1", "google.com", "curl/7.64.1", "*/*", "20", "<h1>Hello World</h1>"),
        ),
        (
            "GET /users/1 HTTP/1.1\r\nHost: google.com\r\nUser-Agent: curl/7.64.1\r\nAccept: */*\r\n\r\n",
            ("GET", "/users/1", "google.com", "curl/7.64.1", "*/*", "unused", "unused"),
        ),
        (
            "PUT /users/1 HTTP/1.1\r\nHost: google.com\r\nUser-Agent: curl/7.64.1\r\nAccept: */*\r\nContent-Length: 20\r\n\r\n<h1>Hello World</h1>",
            ("PUT", "/users/1", "google.com", "curl/7.64.1", "*/*", "20", "<h1>Hello World</h1>"),
        ),
        (
            "DELETE /users/1 HTTP/1.1\r\nHost: google.com\r\nUser-Agent: curl/7.64.1\r\nAccept: */*\r\nContent-Length: 20\r\n\r\n<h1>Hello World</h1>",
            ("DELETE", "/users/1", "google.com", "curl/7.64.1", "*/*", "20", "<h1>Hello World</h1>"),
        ),
        (
            "OPTIONS /users/1 HTTP/1.1\r\nHost: google.com\r\nUser-Agent: curl/7.64.1\r\nAccept: */*\r\nContent-Length: 20\r\n\r\n<h1>Hello World</h1>",
            ("OPTIONS", "/users/1", "google.com", "curl/7.64.1", "*/*", "20", "<h1>Hello World</h1>"),
        ),
        (
            "HEAD /users/1 HTTP/1.1\r\nHost: google.com\r\nUser-Agent: curl/7.64.1\r\nAccept: */*\r\nContent-Length: 20\r\n\r\n<h1>Hello World</h1>",
            ("HEAD", "/users/1", "google.com", "curl/7.64.1", "*/*", "20", "<h1>Hello World</h1>"),
        ),
    ];
    for (input, (method, path, host, user_agent, accept, content_length, body)) in tests {
        let request = HttpRequest::from_bytes(input.as_bytes()).unwrap();
        assert_eq!(method.as_bytes().to_vec(), request.method.to_bytes());
        assert_eq!(path.as_bytes().to_vec(), request.url.path);
        assert_eq!(host, header(&request.headers, "Host"));
        assert_eq!(user_agent, header(&request.headers, "User-Agent"));
        assert_eq!(accept, header(&request.headers, "Accept"));
        if request.method != Method::Get {
            assert_eq!(content_length, header(&request.headers, "Content-Length"));
            assert_eq!(body.as_bytes().to_vec(), request.body);
        }
    }
}

#[test]
fn test_read_request_lifecycle() {
    let tests_requests = vec![
        HttpRequest::new(
            Method::Get,
            url("http://example.com"),
            headers_of(&[
                ("Content-Length", "5"),
                ("Host", "example.com"),
                ("User-Agent", "curl"),
                ("Accept", "*/*"),
            ]),
            b"hello".to_vec(),
        ),
        HttpRequest::new(
            Method::Post,
            url("http://example.com"),
            headers_of(&[
                ("Content-Length", "14"),
                ("Host", "example.com"),
                ("User-Agent", "curl"),
                ("Accept", "*/*"),
            ]),
            b"<h1>hello</h1>".to_vec(),
        ),
    ];
    for input in tests_requests {
        let serialized = input.serialize();
        let request = HttpRequest::from_bytes(&serialized).unwrap();
        assert_eq!(input.method, request.method);
        assert_eq!(input.url, request.url);
        assert_eq!(header(&input.headers, "Host"), header(&request.headers, "Host"));
        assert_eq!(header(&input.headers, "User-Agent"), header(&request.headers, "User-Agent"));
        assert_eq!(header(&input.headers, "Accept"), header(&request.headers, "Accept"));
        if request.method != Method::Get {
            assert_eq!(
                header(&input.headers, "Content-Length"),
                header(&request.headers, "Content-Length")
            );
            assert_eq!(input.body, request.body);
        }
    }
}

#[test]
fn test_read_response_lifecycle() {
    let tests_responses = vec![
        HttpResponse::new(
            StatusCode::OK,
            headers_of(&[
                ("Content-Length", "5"),
                ("Host", "example.com"),
                ("User-Agent", "curl"),
                ("Accept", "*/*"),
            ]),
            b"hello".to_vec(),
        ),
        HttpResponse::new(
            StatusCode::OK,
            headers_of(&[
                ("Content-Length", "14"),
                ("Host", "example.com"),
                ("User-Agent", "curl"),
                ("Accept", "*/*"),
            ]),
            b"<h1>hello</h1>".to_vec(),
        ),
    ];
    for input in tests_responses {
        let serialized = input.serialize();
        let response = HttpResponse::from_bytes(&serialized).unwrap();
        assert_eq!(input.status_code, response.status_code);
        assert_eq!(header(&input.headers, "Host"), header(&response.headers, "Host"));
        assert_eq!(header(&input.headers, "User-Agent"), header(&response.headers, "User-Agent"));
        assert_eq!(header(&input.headers, "Accept"), header(&response.headers, "Accept"));
    }
}

#[test]
fn request_serialization_writes_path_headers_and_body() {
    let request = HttpRequest::new(
        Method::Patch,
        url("http://example.com:8080/a/b?q=1"),
        headers_of(&[("Host", "example.com:8080"), ("Content-Length", "2")]),
        b"hi".to_vec(),
    );
    let expected = "PATCH /a/b HTTP/1.1\r\nHost: example.com:8080\r\nContent-Length: 2\r\n\r\nhi\r\n";
    assert_eq!(request.serialize(), expected.as_bytes().to_vec());
}

#[test]
fn request_round_trip_keeps_every_part() {
    let request = HttpRequest::new(
        Method::Delete,
        url("http://example.com/x/y"),
        headers_of(&[("Host", "example.com"), ("X-Trace", "a b"), ("Content-Length", "3")]),
        b"abc".to_vec(),
    );
    let back = HttpRequest::from_bytes(&request.serialize()).unwrap();
    assert_eq!(back.method, request.method);
    assert_eq!(back.url, request.url);
    assert!(same_headers(&back.headers, &request.headers));
    assert_eq!(back.body, request.body);
}

#[test]
fn content_length_frames_the_body() {
    let input = "POST /x HTTP/1.1\r\nHost: example.com\r\nContent-Length: 11\r\n\r\nhello world<garbage>";
    let request = HttpRequest::from_bytes(input.as_bytes()).unwrap();
    assert_eq!(request.body, b"hello world".to_vec());
}

#[test]
fn proxied_and_relative_targets_give_the_same_url() {
    let proxied = HttpRequest::from_bytes(b"GET http://example.com/x HTTP/1.1\r\nHost: example.com\r\n\r\n").unwrap();
    let relative = HttpRequest::from_bytes(b"GET /x HTTP/1.1\r\nHost: example.com\r\n\r\n").unwrap();
    assert_eq!(proxied.url, url("http://example.com/x"));
    assert_eq!(relative.url, url("http://example.com/x"));
    let secure = HttpRequest::from_bytes(b"GET https://example.com HTTP/1.1\r\n\r\n").unwrap();
    assert_eq!(secure.url.scheme, b"https".to_vec());
    assert_eq!(secure.url.path, b"/".to_vec());
}

#[test]
fn garbage_fails_to_parse() {
    assert_eq!(HttpRequest::from_bytes(b"garbage not http").unwrap_err(), HttpError::InvalidMethod);
}

#[test]
fn request_errors() {
    assert_eq!(HttpRequest::from_bytes(b"").unwrap_err(), HttpError::MissingToken);
    assert_eq!(HttpRequest::from_bytes(b"get / HTTP/1.1\r\n\r\n").unwrap_err(), HttpError::InvalidMethod);
    assert_eq!(HttpRequest::from_bytes(b"GET /\r\n\r\n").unwrap_err(), HttpError::MissingToken);
    assert_eq!(HttpRequest::from_bytes(b"GET / HTTP/1.1\r\n\r\n").unwrap_err(), HttpError::MissingHostHeader);
    assert_eq!(HttpRequest::from_bytes(b"GET x HTTP/1.1\r\nHost: a\r\n\r\n").unwrap_err(), HttpError::InvalidTarget);
    assert_eq!(HttpRequest::from_bytes(b"GET http://[bad/x HTTP/1.1\r\n\r\n").unwrap_err(), HttpError::InvalidTarget);
    assert_eq!(HttpRequest::from_bytes(b"GET / HTTP/1.1\r\nHost: a\r\n").unwrap_err(), HttpError::UnterminatedHead);
    assert_eq!(HttpRequest::from_bytes(b"GET / HTTP/1.1\r\nHost a\r\n\r\n").unwrap_err(), HttpError::MalformedHeader);
    assert_eq!(HttpRequest::from_bytes(b"GET / HTTP/1.1\r\nHost: a\r\nContent-Length: 4\r\n\r\nab").unwrap_err(), HttpError::TruncatedBody);
    assert_eq!(HttpRequest::from_bytes(b"GET / HTTP/1.1\r\nHost: a\r\nContent-Length: -1\r\n\r\nab").unwrap_err(), HttpError::InvalidContentLength);
}

#[test]
fn every_method_name_parses_back() {
    let all = [
        Method::Get, Method::Post, Method::Put, Method::Delete, Method::Options,
        Method::Head, Method::Trace, Method::Connect, Method::Patch,
    ];
    for m in all {
        assert_eq!(Method::from_bytes(&m.to_bytes()), Ok(m));
    }
    assert_eq!(Method::Options.to_bytes(), b"OPTIONS".to_vec());
    assert_eq!(Method::from_bytes(b"Get"), Err(HttpError::InvalidMethod));
}

#[test]
fn absolute_urls_are_read_by_the_url_crate() {
    let u = url("http://Example.COM:80/a/../c?q#f");
    assert_eq!(u.scheme, b"http".to_vec());
    assert_eq!(u.authority, b"example.com".to_vec());
    assert_eq!(u.path, b"/c".to_vec());
    let u = url("https://example.com:8443");
    assert_eq!(u.authority, b"example.com:8443".to_vec());
    assert_eq!(u.path, b"/".to_vec());
    assert_eq!(Url::parse_absolute(b"ftp://example.com/"), Err(HttpError::InvalidTarget));
    assert_eq!(Url::parse_absolute(b"http://exa mple.com/"), Err(HttpError::InvalidTarget));
}
