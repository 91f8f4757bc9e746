use http_proxy::error::HttpError;
use http_proxy::headers::Headers;
use http_proxy::http_response::HttpResponse;
use http_proxy::status_code::StatusCode;

fn headers_of(pairs: &[(&str, &str)]) -> Headers {
    let mut h = Headers::new();
    for (k, v) in pairs {
        h.insert(k.as_bytes().to_vec(), v.as_bytes().to_vec());
    }
    h
}

fn same_headers(a: &Headers, b: &Headers) -> bool {
    if a.len() != b.len() {
        return false;
    }
    for i in 0..a.len() {
        let (k, v) = a.pair_at(i);
        match b.get(k) {
            Some(w) if w == v => {}
            _ => return false,
        }
    }
    true
}

const PAGE: &str = "<html>\r\n<head>\r\n<title>An Example Page</title>\r\n</head>\r\n<body>\r\nHello World, this is a very simple HTML document.\r\n</body>\r\n</html>";
const MOVED: &str = "<html>\r\n<head><title>301 Moved Permanently</title></head>\r\n<body>\r\n<p>The document has moved <a href=\"https://www.example.com/\">here</a>.</p>\r\n</body>\r\n</html>";

#[test]
fn test_serialize() {
    struct TestCase {
        name: String,
        input: String,
        expected: Option<HttpResponse>,
        expected_error: bool,
    }
    let test_cases = [
        TestCase {
            name: "simple 200 OK".to_string(),
            input: format!("HTTP/1.1 200 OK\r\nDate: Mon, 23 May 2023 22:38:34 GMT\r\nContent-Type: text/html; charset=UTF-8\r\nContent-Length: 132\r\n\r\n{}", PAGE),
            expected: Some(HttpResponse::new(
                StatusCode::OK,
                headers_of(&[
                    ("Date", "Mon, 23 May 2023 22:38:34 GMT"),
                    ("Content-Type", "text/html; charset=UTF-8"),
                    ("Content-Length", "132"),
                ]),
                PAGE.as_bytes().to_vec(),
            )),
            expected_error: false,
        },
        TestCase {
            name: "simple 404 Not Found".to_string(),
            input: format!("HTTP/1.1 404 Not Found\r\nDate: Mon, 23 May 2023 22:38:34 GMT\r\nContent-Type: text/html; charset=UTF-8\r\nContent-Length: 132\r\n\r\n{}", PAGE),
            expected: Some(HttpResponse::new(
                StatusCode::NotFound,
                headers_of(&[
                    ("Date", "Mon, 23 May 2023 22:38:34 GMT"),
                    ("Content-Type", "text/html; charset=UTF-8"),
                    ("Content-Length", "132"),
                ]),
                PAGE.as_bytes().to_vec(),
            )),
            expected_error: false,
        },
        TestCase {
            name: "301 Moved Permanently".to_string(),
            input: format!("HTTP/1.1 301 Moved Permanently\r\nLocation: https://www.example.com/\r\nContent-Type: text/html; charset=UTF-8\r\nContent-Length: 159\r\n\r\n{}", MOVED),
            expected: Some(HttpResponse::new(
                StatusCode::MovedPermanently,
                headers_of(&[
                    ("Location", "https://www.example.com/"),
                    ("Content-Type", "text/html; charset=UTF-8"),
                    ("Content-Length", "159"),
                ]),
                MOVED.as_bytes().to_vec(),
            )),
            expected_error: false,
        },
        TestCase {
            name: "simple 405 Method Not Allowed".to_string(),
            input: format!("HTTP/1.1 405 Method Not Allowed\r\nDate: Mon, 23 May 2023 22:38:34 GMT\r\nContent-Type: text/html; charset=UTF-8\r\nContent-Length: 132\r\n\r\n{}", PAGE),
            expected: Some(HttpResponse::new(
                StatusCode::MethodNotAllowed,
                headers_of(&[
                    ("Content-Type", "text/html; charset=UTF-8"),
                    ("Content-Length", "132"),
                    ("Date", "Mon, 23 May 2023 22:38:34 GMT"),
                ]),
                PAGE.as_bytes().to_vec(),
            )),
            expected_error: false,
        },
        TestCase {
            name: "missing status code".to_string(),
            input: format!("HTTP/1.1 OK\r\nDate: Mon, 23 May 2023 22:38:34 GMT\r\nContent-Type: text/html; charset=UTF-8\r\nContent-Length: 159\r\n\r\n{}", PAGE),
            expected: None,
            expected_error: true,
        },
        TestCase {
            name: "body from file as 'hello world'".to_string(),
            input: "HTTP/1.1 200 OK\r\nDate: Mon, 23 May 2023 22:38:34 GMT\r\nContent-Type: text/html; charset=UTF-8\r\nContent-Length: 11\r\n\r\nhello world".to_string(),
            expected: Some(HttpResponse::new(
                StatusCode::OK,
                headers_of(&[
                    ("Content-Type", "text/html; charset=UTF-8"),
                    ("Content-Length", "11"),
                    ("Date", "Mon, 23 May 2023 22:38:34 GMT"),
                ]),
                b"hello world".to_vec(),
            )),
            expected_error: false,
        },
    ];
    for test_case in test_cases.iter() {
        let actual = match HttpResponse::from_bytes(test_case.input.as_bytes()) {
            Ok(response) => response,
            Err(_e) => {
                assert!(test_case.expected_error, "{}", test_case.name);
                continue;
            }
        };
        let expected = test_case.expected.as_ref().unwrap();
        assert_eq!(actual.status_code, expected.status_code, "{}", test_case.name);
        assert!(same_headers(&actual.headers, &expected.headers), "{}", test_case.name);
        assert_eq!(actual.body, expected.body, "{}", test_case.name);
    }
}

#[test]
fn test_to_string() {
    let input = HttpResponse::new(
        StatusCode::OK,
        headers_of(&[
            ("Content-Length", "138"),
            ("Content-Type", "text/html; charset=UTF-8"),
            ("Date", "Mon, 23 May 2023 22:38:34 GMT"),
        ]),
        PAGE.as_bytes().to_vec(),
    );
    let expected = format!("HTTP/1.1 200 OK\r\nContent-Length: 138\r\nContent-Type: text/html; charset=UTF-8\r\nDate: Mon, 23 May 2023 22:38:34 GMT\r\n\r\n{}", PAGE);
    assert_eq!(input.serialize(), expected.as_bytes().to_vec(), "simple 200 OK");
}

#[test]
fn response_headers_are_sorted_by_rendered_line() {
    let input = HttpResponse::new(
        StatusCode::NotFound,
        headers_of(&[("Date", "x"), ("A-B", "2"), ("A", "1"), ("Content-Length", "0")]),
        Vec::new(),
    );
    let expected = "HTTP/1.1 404 Not Found\r\nA-B: 2\r\nA: 1\r\nContent-Length: 0\r\nDate: x\r\n\r\n";
    assert_eq!(input.serialize(), expected.as_bytes().to_vec());
}

#[test]
fn response_serialization_strips_zero_bytes() {
    let input = HttpResponse::new(
        StatusCode::OK,
        headers_of(&[("X", "a\0b")]),
        b"he\0llo".to_vec(),
    );
    let expected = "HTTP/1.1 200 OK\r\nX: ab\r\n\r\nhello";
    assert_eq!(input.serialize(), expected.as_bytes().to_vec());
}

#[test]
fn response_round_trip_keeps_status_headers_and_body() {
    let input = HttpResponse::new(
        StatusCode::BadGateway,
        headers_of(&[("Content-Length", "5"), ("Host", "example.com"), ("Accept", "*/*")]),
        b"hello".to_vec(),
    );
    let back = HttpResponse::from_bytes(&input.serialize()).unwrap();
    assert_eq!(back.status_code, StatusCode::BadGateway);
    assert!(same_headers(&back.headers, &input.headers));
    assert_eq!(back.body, b"hello".to_vec());
}

#[test]
fn response_status_line_errors() {
    assert_eq!(HttpResponse::from_bytes(b"HTTP/2 200 OK\r\n\r\n").unwrap_err(), HttpError::UnsupportedVersion);
    assert_eq!(HttpResponse::from_bytes(b"HTTP/1.0 200 OK\r\n\r\n").unwrap().status_code, StatusCode::OK);
    assert_eq!(HttpResponse::from_bytes(b"HTTP/1.1 700 Odd\r\n\r\n").unwrap_err(), HttpError::InvalidStatusCode);
    assert_eq!(HttpResponse::from_bytes(b"HTTP/1.1 99 Odd\r\n\r\n").unwrap_err(), HttpError::InvalidStatusCode);
    assert_eq!(HttpResponse::from_bytes(b"HTTP/1.1 418 Teapot\r\n\r\n").unwrap_err(), HttpError::UnknownStatusCode);
    assert_eq!(HttpResponse::from_bytes(b"HTTP/1.1\r\n\r\n").unwrap_err(), HttpError::MissingToken);
    assert_eq!(HttpResponse::from_bytes(b"\r\n").unwrap_err(), HttpError::MissingToken);
}

#[test]
fn response_framing_errors() {
    assert_eq!(HttpResponse::from_bytes(b"HTTP/1.1 200 OK\r\nBad line\r\n\r\n").unwrap_err(), HttpError::MalformedHeader);
    assert_eq!(HttpResponse::from_bytes(b"HTTP/1.1 200 OK\r\nA: b\r\n").unwrap_err(), HttpError::UnterminatedHead);
    assert_eq!(HttpResponse::from_bytes(b"HTTP/1.1 200 OK\r\nContent-Length: 10\r\n\r\nshort").unwrap_err(), HttpError::TruncatedBody);
    assert_eq!(HttpResponse::from_bytes(b"HTTP/1.1 200 OK\r\nContent-Length: ten\r\n\r\nshort").unwrap_err(), HttpError::InvalidContentLength);
    let r = HttpResponse::from_bytes(b"HTTP/1.1 200 OK\r\nA: 1\r\nA:  2 \r\n\r\nignored").unwrap();
    assert_eq!(r.headers.len(), 1);
    assert_eq!(r.headers.get(b"A").unwrap(), &b"2".to_vec());
    assert!(r.body.is_empty());
}
