use net_servers::http::endpoint::{default_404, EndPoint, EndPointPool, Reply};
use net_servers::http::keyed_map::KeyedMap;
use net_servers::http::pattern::{strip_with, trailing_escaped_nuls};
use net_servers::http::reasons::{reasons_from_document, reasons_from_json, JsonDocument};
use net_servers::http::request::parse_request_from_text;
use net_servers::http::request::RequestError;
use net_servers::http::response::build_response;
use net_servers::http::types::{HTTPMethod, HTTPRequest, Response, StringMap};

type Handler = fn(&HTTPRequest) -> Response<'_>;

fn new_pool() -> EndPointPool<Handler> {
    EndPointPool::new()
}

fn reasons() -> StringMap {
    let mut m: StringMap = KeyedMap::new();
    m.insert("200".to_string(), "\"OK\"".to_string());
    m.insert("404".to_string(), "\"Not Found\"".to_string());
    m
}

fn hello(_req: &HTTPRequest) -> Response<'_> {
    Ok((200, "text/plain", "hello"))
}

fn echo_path(req: &HTTPRequest) -> Response<'_> {
    Ok((201, "text/html", req.path.as_str()))
}

fn failing(_req: &HTTPRequest) -> Response<'_> {
    Err("handler failed")
}

fn teapot(_req: &HTTPRequest) -> Response<'_> {
    Ok((418, "text/plain", "short and stout"))
}

#[test]
fn method_from_every_name() {
    let all = [
        ("GET", HTTPMethod::GET),
        ("POST", HTTPMethod::POST),
        ("PUT", HTTPMethod::PUT),
        ("PATCH", HTTPMethod::PATCH),
        ("DELETE", HTTPMethod::DELETE),
        ("HEAD", HTTPMethod::HEAD),
        ("OPTIONS", HTTPMethod::OPTIONS),
        ("COPY", HTTPMethod::COPY),
        ("LINK", HTTPMethod::LINK),
        ("UNLINK", HTTPMethod::UNLINK),
        ("PURGE", HTTPMethod::PURGE),
    ];
    for (name, m) in all {
        assert_eq!(HTTPMethod::from(name), Ok(m));
        assert_eq!(m.to_string(), name);
        assert_eq!(m.name(), name);
        assert_eq!(HTTPMethod::from(m.to_string().as_str()), Ok(m));
    }
}

#[test]
fn method_from_rejects_unknown_names() {
    let msg = "Invalid str. Can't be converted to an HTTPMethod enum";
    assert_eq!(HTTPMethod::from("get"), Err(msg));
    assert_eq!(HTTPMethod::from(""), Err(msg));
    assert_eq!(HTTPMethod::from("GET "), Err(msg));
    assert_eq!(HTTPMethod::from("CONNECT"), Err(msg));
}

#[test]
fn endpoint_new_keeps_path_and_handler() {
    let e: EndPoint<Handler> = EndPoint::new("/hello", hello);
    assert_eq!(e.path, "/hello");
    let req = parse(b"GET / HTTP/1.1\r\n\r\n");
    assert_eq!((e.handler)(&req), Ok((200, "text/plain", "hello")));
}

#[test]
fn default_404_answers_not_found() {
    let req = parse(b"GET /missing HTTP/1.1\r\n\r\n");
    assert_eq!(default_404(&req), Ok((404, "text/plain", "")));
}

fn parse(raw: &[u8]) -> HTTPRequest {
    new_pool().process_request(raw).expect("a well-formed request")
}

#[test]
fn parse_typical_request() {
    let req = parse(b"POST /items HTTP/1.1\r\nHost: example.org\r\nContent-Type: text/plain\r\n\r\nsome body");
    assert_eq!(req.method, HTTPMethod::POST);
    assert_eq!(req.path, "/items");
    assert_eq!(req.body, "some body");
    assert_eq!(req.headers.len(), 2);
    assert_eq!(req.headers.get("Host"), Some(&"example.org".to_string()));
    assert_eq!(req.headers.get("Content-Type"), Some(&"text/plain".to_string()));
    assert_eq!(req.headers.get("Accept"), None);
}

#[test]
fn parse_keeps_only_second_piece_of_header_value() {
    let req = parse(b"GET / HTTP/1.1\r\nA: b: c\r\n\r\n");
    assert_eq!(req.headers.get("A"), Some(&"b".to_string()));
}

#[test]
fn parse_later_header_wins() {
    let req = parse(b"GET / HTTP/1.1\r\nX: 1\r\nY: 2\r\nX: 3\r\n\r\n");
    assert_eq!(req.headers.len(), 2);
    assert_eq!(req.headers.get("X"), Some(&"3".to_string()));
    assert_eq!(req.headers.key_at(0), "X");
    assert_eq!(req.headers.key_at(1), "Y");
}

#[test]
fn parse_body_ends_at_next_blank_line() {
    let req = parse(b"GET / HTTP/1.1\r\n\r\nfirst\r\n\r\nsecond");
    assert_eq!(req.body, "first");
}

#[test]
fn parse_body_strips_trailing_escaped_nuls() {
    let req = parse(b"GET / HTTP/1.1\r\n\r\nabc\\0\\0");
    assert_eq!(req.body, "abc");
    let req = parse(b"GET / HTTP/1.1\r\n\r\na\\0b\\0");
    assert_eq!(req.body, "a\\0b");
    let req = parse(b"GET / HTTP/1.1\r\n\r\n\\\\0");
    assert_eq!(req.body, "\\");
}

#[test]
fn parse_zero_padded_buffer_keeps_nul_bytes() {
    let mut buf = [0u8; 32];
    let msg = b"GET /x HTTP/1.1\r\n\r\nhi";
    buf[..msg.len()].copy_from_slice(msg);
    let req = parse(&buf);
    assert_eq!(req.path, "/x");
    let mut expected = String::from("hi");
    for _ in msg.len()..32 {
        expected.push('\0');
    }
    assert_eq!(req.body, expected);
}

#[test]
fn parse_replaces_invalid_utf8() {
    let req = parse(b"GET / HTTP/1.1\r\n\r\nA\xffB");
    assert_eq!(req.body, "A\u{FFFD}B");
}

#[test]
fn parse_path_is_second_word_only() {
    let req = parse(b"DELETE /a/b extra words\r\n\r\n");
    assert_eq!(req.method, HTTPMethod::DELETE);
    assert_eq!(req.path, "/a/b");
    assert_eq!(req.body, "");
}

#[test]
fn parse_errors() {
    let pool = new_pool();
    assert_eq!(
        pool.process_request(b"GET / HTTP/1.1\r\nNoSeparator\r\n\r\n").unwrap_err(),
        RequestError::MalformedHeader
    );
    assert_eq!(
        pool.process_request(b"FETCH / HTTP/1.1\r\n\r\n").unwrap_err(),
        RequestError::UnknownMethod
    );
    assert_eq!(pool.process_request(b"GET\r\n\r\n").unwrap_err(), RequestError::MissingPath);
    assert_eq!(
        pool.process_request(b"GET / HTTP/1.1\r\nHost: x").unwrap_err(),
        RequestError::MissingBody
    );
}

#[test]
fn parse_error_precedence() {
    let pool = new_pool();
    // A bad header line is reported before a bad method.
    assert_eq!(
        pool.process_request(b"FETCH / HTTP/1.1\r\nbad\r\n\r\n").unwrap_err(),
        RequestError::MalformedHeader
    );
    // A bad method is reported before a missing path and a missing body.
    assert_eq!(pool.process_request(b"FETCH").unwrap_err(), RequestError::UnknownMethod);
    // A missing path is reported before a missing body.
    assert_eq!(pool.process_request(b"GET").unwrap_err(), RequestError::MissingPath);
}

#[test]
fn build_response_exact_text() {
    let req = parse(b"GET / HTTP/1.1\r\nHost: h\r\nX: y\r\n\r\n");
    let text = build_response(200, &req.headers, "text/plain", "hello", &reasons());
    assert_eq!(
        text,
        "\nHTTP/1.1 200 \"OK\"\nHost: h\nX: y\n\nContent-Type: text/plain\nContent-Length: 5\n\nhello"
    );
}

#[test]
fn build_response_unknown_reason_is_null() {
    let headers: StringMap = KeyedMap::new();
    let text = build_response(-7, &headers, "a/b", "", &reasons());
    assert_eq!(text, "\nHTTP/1.1 -7 null\n\nContent-Type: a/b\nContent-Length: 0\n\n");
}

#[test]
fn build_response_counts_body_bytes() {
    let headers: StringMap = KeyedMap::new();
    let text = build_response(404, &headers, "text/plain", "héllo ✓", &reasons());
    assert_eq!(
        text,
        "\nHTTP/1.1 404 \"Not Found\"\n\nContent-Type: text/plain\nContent-Length: 10\n\nhéllo ✓"
    );
}

#[test]
fn build_response_large_status_code() {
    let headers: StringMap = KeyedMap::new();
    let text = build_response(i32::MIN, &headers, "t", "x", &reasons());
    assert_eq!(text, "\nHTTP/1.1 -2147483648 null\n\nContent-Type: t\nContent-Length: 1\n\nx");
}

#[test]
fn handle_client_routes_to_registered_handler() {
    let mut pool = new_pool();
    pool.register_endpoint("/hello", HTTPMethod::GET, hello);
    pool.register_endpoint("/echo", HTTPMethod::POST, echo_path);
    let (req, reply) = pool.handle_client(b"GET /hello HTTP/1.1\r\nHost: h\r\n\r\n", &reasons()).unwrap();
    assert_eq!(req.path, "/hello");
    match reply {
        Reply::Send(text) => assert_eq!(
            text,
            "\nHTTP/1.1 200 \"OK\"\nHost: h\n\nContent-Type: text/plain\nContent-Length: 5\n\nhello"
        ),
        other => panic!("unexpected reply {:?}", other),
    }
    let (_, reply) = pool.handle_client(b"POST /echo HTTP/1.1\r\n\r\n", &reasons()).unwrap();
    match reply {
        Reply::Send(text) => assert_eq!(
            text,
            "\nHTTP/1.1 201 null\n\nContent-Type: text/html\nContent-Length: 5\n\n/echo"
        ),
        other => panic!("unexpected reply {:?}", other),
    }
}

#[test]
fn handle_client_method_must_match() {
    let mut pool = new_pool();
    pool.register_endpoint("/hello", HTTPMethod::GET, hello);
    let (_, reply) = pool.handle_client(b"POST /hello HTTP/1.1\r\n\r\n", &reasons()).unwrap();
    assert!(matches!(reply, Reply::NotFound));
}

#[test]
fn handle_client_not_found_with_custom_handler() {
    let mut pool = new_pool();
    pool.set404(teapot);
    let (_, reply) = pool.handle_client(b"GET /none HTTP/1.1\r\n\r\n", &reasons()).unwrap();
    assert!(matches!(reply, Reply::NotFound));
}

#[test]
fn handle_client_handler_error() {
    let mut pool = new_pool();
    pool.register_endpoint("/f", HTTPMethod::PUT, failing);
    let (_, reply) = pool.handle_client(b"PUT /f HTTP/1.1\r\n\r\n", &reasons()).unwrap();
    match reply {
        Reply::HandlerError(m) => assert_eq!(m, "handler failed"),
        other => panic!("unexpected reply {:?}", other),
    }
}

#[test]
fn handle_client_bad_request_is_error() {
    let pool = new_pool();
    assert_eq!(
        pool.handle_client(b"BREW /pot HTTP/1.1\r\n\r\n", &reasons()).unwrap_err(),
        RequestError::UnknownMethod
    );
}

#[test]
fn register_twice_keeps_second_handler() {
    let mut pool = new_pool();
    pool.register_endpoint("/a", HTTPMethod::GET, hello);
    pool.register_endpoint("/a", HTTPMethod::GET, teapot);
    let req = parse(b"GET /a HTTP/1.1\r\n\r\n");
    let e = pool.endpoint_for(&req).unwrap();
    assert_eq!(e.path, "/a");
    assert_eq!((e.handler)(&req), Ok((418, "text/plain", "short and stout")));
}

#[test]
fn route_keys_of_similar_routes_stay_apart() {
    let mut pool = new_pool();
    pool.register_endpoint("x", HTTPMethod::UNLINK, hello);
    pool.register_endpoint("x UN", HTTPMethod::LINK, teapot);
    pool.register_endpoint("x", HTTPMethod::LINK, echo_path);
    let req = parse(b"UNLINK x HTTP/1.1\r\n\r\n");
    assert_eq!(pool.endpoint_for(&req).unwrap().path, "x");
    assert_eq!((pool.endpoint_for(&req).unwrap().handler)(&req), Ok((200, "text/plain", "hello")));
    let req = parse(b"LINK x HTTP/1.1\r\n\r\n");
    assert_eq!((pool.endpoint_for(&req).unwrap().handler)(&req), Ok((201, "text/html", "x")));
}

#[test]
fn parse_trailing_line_break_without_blank_line_is_malformed() {
    let pool = new_pool();
    assert_eq!(
        pool.process_request(b"GET / HTTP/1.1\r\nHost: x\r\n").unwrap_err(),
        RequestError::MalformedHeader
    );
}

#[test]
fn keyed_map_insert_and_get() {
    let mut m: KeyedMap<u32> = KeyedMap::new();
    assert_eq!(m.len(), 0);
    m.insert("b".to_string(), 1);
    m.insert("a".to_string(), 2);
    m.insert("b".to_string(), 3);
    assert_eq!(m.len(), 2);
    assert_eq!(m.get("b"), Some(&3));
    assert_eq!(m.get("a"), Some(&2));
    assert_eq!(m.get("c"), None);
    assert_eq!(m.key_at(0), "b");
    assert_eq!(*m.value_at(0), 3);
    assert_eq!(m.position("a"), Some(1));
}

#[test]
fn parse_request_from_decoded_text() {
    let trim = trailing_escaped_nuls();
    let req = parse_request_from_text("HEAD /h x\r\nK: v\r\n\r\nb\\0", &trim).unwrap();
    assert_eq!(req.method, HTTPMethod::HEAD);
    assert_eq!(req.path, "/h");
    assert_eq!(req.headers.get("K"), Some(&"v".to_string()));
    assert_eq!(req.body, "b");
    assert_eq!(
        parse_request_from_text("HEAD /h x\r\nK v\r\n\r\n", &trim).unwrap_err(),
        RequestError::MalformedHeader
    );
}

#[test]
fn trimming_twice_changes_nothing() {
    let trim = trailing_escaped_nuls();
    for s in ["", "\\0", "x\\0\\0", "\\0x", "a\\\\0", "0\\"] {
        let once = strip_with(&trim, s);
        let twice = strip_with(&trim, once.as_str());
        assert_eq!(once, twice);
        assert!(!once.ends_with("\\0"));
    }
    assert_eq!(strip_with(&trim, "x\\0\\0"), "x");
    assert_eq!(strip_with(&trim, "0\\"), "0\\");
}

#[test]
fn reasons_from_json_keeps_json_text_of_values() {
    let t = reasons_from_json(r#"{"200": "OK", "404": "Not Found", "999": 7}"#).unwrap();
    assert_eq!(t.len(), 3);
    assert_eq!(t.get("200").map(|s| s.as_str()), Some("\"OK\""));
    assert_eq!(t.get("404").map(|s| s.as_str()), Some("\"Not Found\""));
    assert_eq!(t.get("999").map(|s| s.as_str()), Some("7"));
    assert!(t.get("500").is_none());
}

#[test]
fn reasons_from_json_non_object_and_invalid() {
    let t = reasons_from_json("[1, 2]").unwrap();
    assert_eq!(t.len(), 0);
    assert!(reasons_from_json("{\"200\": ").is_none());
}

#[test]
fn reasons_table_feeds_response_reason() {
    let t = reasons_from_json(r#"{"200": "OK"}"#).unwrap();
    let headers: StringMap = KeyedMap::new();
    let r = build_response(200, &headers, "text/plain", "", &t);
    assert!(r.starts_with("\nHTTP/1.1 200 \"OK\"\n"));
    let r = build_response(404, &headers, "text/plain", "", &t);
    assert!(r.starts_with("\nHTTP/1.1 404 null\n"));
}

#[test]
fn reasons_from_document_last_value_wins() {
    let doc = JsonDocument::Object(vec![
        ("1".to_string(), "a".to_string()),
        ("2".to_string(), "b".to_string()),
        ("1".to_string(), "c".to_string()),
    ]);
    let t = reasons_from_document(doc).unwrap();
    assert_eq!(t.len(), 2);
    assert_eq!(t.get("1").map(|s| s.as_str()), Some("c"));
    assert!(reasons_from_document(JsonDocument::Invalid).is_none());
    assert_eq!(reasons_from_document(JsonDocument::NotObject).unwrap().len(), 0);
}

#[test]
fn pool_endpoints_lists_registered_routes() {
    let mut pool = new_pool();
    assert_eq!(pool.endpoints().len(), 0);
    pool.register_endpoint("/hello", HTTPMethod::GET, hello);
    pool.register_endpoint("/hello", HTTPMethod::POST, hello);
    let routes = pool.endpoints();
    assert_eq!(routes.len(), 2);
    assert_eq!(routes.get("/hello GET").map(|e| e.path.as_str()), Some("/hello"));
    assert!(routes.get("/hello POST").is_some());
    assert!(routes.get("/hello PUT").is_none());
}
