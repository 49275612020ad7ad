use jsrt::client::{plan_request, resolve_target, get_request, RequestOptions, UrlError};
use jsrt::headers::HeaderList;
use jsrt::request::Request;
use jsrt::response::{serialize_response, Response};
use jsrt::text::{console_line, names_match, parse_decimal, push_decimal};
use jsrt::wire::{parse_http_request, RequestParse};

fn text(b: &[u8]) -> String {
    String::from_utf8(b.to_vec()).unwrap()
}

#[test]
fn header_set_replaces_in_place() {
    let mut h = HeaderList::new();
    h.set("Content-Type".to_string(), "text/plain".to_string());
    h.set("X-A".to_string(), "1".to_string());
    h.set("content-type".to_string(), "text/html".to_string());
    assert_eq!(h.len(), 2);
    let (k, v) = h.entry(0);
    assert_eq!(k, "Content-Type");
    assert_eq!(v, "text/html");
    assert_eq!(h.get("CONTENT-TYPE").unwrap(), "text/html");
    assert!(h.get("X-B").is_none());
}

#[test]
fn names_match_ignores_ascii_case_only() {
    assert!(names_match("Content-Length", "content-length"));
    assert!(!names_match("Content-Length", "content-lengt"));
    assert!(!names_match("a", "b"));
}

#[test]
fn decimal_parsing_follows_str_parse() {
    assert_eq!(parse_decimal("404", 65535), Some(404));
    assert_eq!(parse_decimal("+7", 65535), Some(7));
    assert_eq!(parse_decimal("65535", 65535), Some(65535));
    assert_eq!(parse_decimal("65536", 65535), None);
    assert_eq!(parse_decimal("", 65535), None);
    assert_eq!(parse_decimal("+", 65535), None);
    assert_eq!(parse_decimal("-1", 65535), None);
    assert_eq!(parse_decimal("12a", 65535), None);
    assert_eq!(parse_decimal("404.5", 65535), None);
}

#[test]
fn decimal_digits() {
    let mut out = Vec::new();
    push_decimal(&mut out, 0);
    push_decimal(&mut out, 1234);
    assert_eq!(out, b"01234".to_vec());
}

#[test]
fn response_bytes_scenario_echo() {
    let mut r = Response::new(200, HeaderList::new(), String::new());
    r.add_header("X-Echo".to_string(), "/ping".to_string());
    let bytes = r.end(Some("ok".to_string())).unwrap();
    assert_eq!(text(&bytes), "HTTP/1.1 200 OK\r\nX-Echo: /ping\r\n\r\nok");
}

#[test]
fn response_headers_keep_insertion_order() {
    let mut r = Response::new(404, HeaderList::new(), String::new());
    r.add_header("B".to_string(), "2".to_string());
    r.add_header("A".to_string(), "1".to_string());
    r.add_header("C".to_string(), "3".to_string());
    let bytes = r.end(None).unwrap();
    assert_eq!(text(&bytes), "HTTP/1.1 404 OK\r\nB: 2\r\nA: 1\r\nC: 3\r\n\r\n");
}

#[test]
fn response_same_header_twice_keeps_second_value_once() {
    let mut r = Response::new(200, HeaderList::new(), String::new());
    r.add_header("X-Id".to_string(), "first".to_string());
    r.add_header("X-Id".to_string(), "second".to_string());
    let bytes = r.end(None).unwrap();
    assert_eq!(text(&bytes), "HTTP/1.1 200 OK\r\nX-Id: second\r\n\r\n");
}

#[test]
fn response_end_twice_writes_once() {
    let mut r = Response::new(200, HeaderList::new(), String::from("a"));
    let first = r.end(Some("b".to_string()));
    assert_eq!(text(&first.unwrap()), "HTTP/1.1 200 OK\r\n\r\nab");
    assert!(r.end(Some("c".to_string())).is_none());
    assert_eq!(r.body(), "ab");
    assert!(r.is_finished());
}

#[test]
fn response_is_frozen_after_end() {
    let mut r = Response::new(200, HeaderList::new(), String::new());
    r.end(None);
    r.add_header("X".to_string(), "1".to_string());
    r.set_status_code(500);
    assert_eq!(r.headers().len(), 0);
    assert_eq!(r.status_code(), 200);
}

#[test]
fn status_from_script_text() {
    let mut r = Response::new(200, HeaderList::new(), String::new());
    r.set_status_text("201");
    assert_eq!(r.status_code(), 201);
    r.set_status_text("teapot");
    assert_eq!(r.status_code(), 400);
    r.set_status_code(418);
    assert_eq!(r.status_code(), 418);
}

#[test]
fn serialize_response_layout() {
    let mut h = HeaderList::new();
    h.set("K".to_string(), "V".to_string());
    let b = serialize_response(7, &h, "ϕ");
    assert_eq!(b, "HTTP/1.1 7 OK\r\nK: V\r\n\r\nϕ".as_bytes().to_vec());
}

#[test]
fn parse_request_with_content_length() {
    let raw = b"POST /submit HTTP/1.1\r\nHost: x\r\ncontent-length: 5\r\n\r\nhello!";
    match parse_http_request(raw) {
        RequestParse::Complete(req) => {
            assert_eq!(req.get_method(), "POST");
            assert_eq!(req.get_url(), "/submit");
            assert_eq!(req.get_header("Host").unwrap(), "x");
            assert_eq!(req.body(), &b"hello".to_vec());
        }
        _ => panic!("expected a complete request"),
    }
}

#[test]
fn parse_request_without_content_length_has_empty_body() {
    let raw = b"GET /ping HTTP/1.1\r\nHost: x\r\n\r\nextra";
    match parse_http_request(raw) {
        RequestParse::Complete(req) => {
            assert_eq!(req.get_url(), "/ping");
            assert!(req.body().is_empty());
        }
        _ => panic!("expected a complete request"),
    }
}

#[test]
fn parse_request_waits_for_head_and_body() {
    assert!(matches!(parse_http_request(b"GET / HTTP/1.1\r\nHost"), RequestParse::Incomplete));
    let raw = b"POST / HTTP/1.1\r\nContent-Length: 10\r\n\r\nabc";
    assert!(matches!(parse_http_request(raw), RequestParse::Incomplete));
}

#[test]
fn parse_request_rejects_garbage() {
    assert!(matches!(parse_http_request(b"\x01\x02 nonsense\r\n\r\n"), RequestParse::Invalid));
}

#[test]
fn parse_request_repeated_header_keeps_last_value() {
    let raw = b"GET / HTTP/1.1\r\nX-A: 1\r\nx-a: 2\r\n\r\n";
    match parse_http_request(raw) {
        RequestParse::Complete(req) => {
            assert_eq!(req.headers().len(), 1);
            assert_eq!(req.get_header("X-A").unwrap(), "2");
        }
        _ => panic!("expected a complete request"),
    }
}

#[test]
fn url_target_with_port_and_path() {
    let t = resolve_target("http://127.0.0.1:18080/status?x=1").unwrap();
    assert_eq!(t.host, "127.0.0.1");
    assert_eq!(t.port, 18080);
    assert_eq!(t.path, "/status");
}

#[test]
fn url_target_default_port() {
    let t = resolve_target("http://example.com").unwrap();
    assert_eq!(t.host, "example.com");
    assert_eq!(t.port, 80);
    assert_eq!(t.path, "/");
}

#[test]
fn url_target_errors() {
    assert_eq!(resolve_target("not a url").err(), Some(UrlError::Malformed));
    assert_eq!(resolve_target("data:text/plain,hi").err(), Some(UrlError::NoHost));
}

#[test]
fn get_request_bytes() {
    let t = resolve_target("http://localhost:8080/a/b").unwrap();
    let mut req = get_request(&t);
    let bytes = req.end(None).unwrap();
    assert_eq!(text(&bytes), "GET /a/b HTTP/1.1\r\nHost: localhost\r\nConnection: close\r\n\r\n");
    assert!(req.end(None).is_none());
}

#[test]
fn planned_request_bytes() {
    let mut extra = HeaderList::new();
    extra.set("X-Token".to_string(), "t".to_string());
    extra.set("connection".to_string(), "keep-alive".to_string());
    let options = RequestOptions {
        hostname: "h.example".to_string(),
        port: Some("8081".to_string()),
        method: Some("POST".to_string()),
        path: Some("/p".to_string()),
        headers: extra,
    };
    let (target, mut req) = plan_request(options);
    assert_eq!(target.port, 8081);
    assert_eq!(target.host, "h.example");
    let bytes = req.end(Some("body".to_string())).unwrap();
    assert_eq!(
        text(&bytes),
        "POST /p HTTP/1.1\r\nHost: h.example\r\nConnection: keep-alive\r\nX-Token: t\r\n\r\nbody"
    );
}

#[test]
fn planned_request_defaults() {
    let options = RequestOptions {
        hostname: "h".to_string(),
        port: Some("undefined".to_string()),
        method: None,
        path: None,
        headers: HeaderList::new(),
    };
    let (target, req) = plan_request(options);
    assert_eq!(target.port, 80);
    assert_eq!(req.get_method(), "GET");
    assert_eq!(req.get_url(), "/");
}

#[test]
fn request_new_and_headers() {
    let mut h = HeaderList::new();
    h.set("Accept".to_string(), "*/*".to_string());
    let mut req = Request::new("PUT".to_string(), "/x".to_string(), h, Vec::new());
    req.set_header("ACCEPT".to_string(), "text/plain".to_string());
    assert_eq!(req.get_header("accept").unwrap(), "text/plain");
    let bytes = req.end(Some("ϕ".to_string())).unwrap();
    assert_eq!(bytes, "PUT /x HTTP/1.1\r\nAccept: text/plain\r\n\r\nϕ".as_bytes().to_vec());
}

#[test]
fn console_line_joins_with_spaces() {
    assert_eq!(console_line(&vec!["hello".to_string()]), "hello");
    assert_eq!(console_line(&vec!["a".to_string(), "42".to_string(), "".to_string()]), "a 42 ");
    assert_eq!(console_line(&Vec::new()), "");
}
