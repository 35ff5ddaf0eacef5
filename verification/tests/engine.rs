use tinyhttp::request::{HttpRequest, Method, ParseRequestError};
use tinyhttp::response::HttpResponse;
use tinyhttp::router::{FixedHandler, Router};
use tinyhttp::response::reason_phrase;
use tinyhttp::server::respond;

fn request(method: Method, path: &str) -> HttpRequest {
    HttpRequest {
        method,
        path: path.to_string(),
        params: Vec::new(),
        headers: Vec::new(),
        body: String::new(),
    }
}

#[test]
fn parse_full_request() {
    let raw = "GET /index.html?a=1 HTTP/1.1\r\nHost: localhost\r\n\r\nhello";
    let req = HttpRequest::parse(raw).unwrap();
    assert_eq!(req.method, Method::GET);
    assert_eq!(req.path, "/index.html");
    assert_eq!(req.params, vec![("a".to_string(), "1".to_string())]);
    assert_eq!(req.headers, vec![("Host".to_string(), "localhost".to_string())]);
    assert_eq!(req.body, "hello");
}

#[test]
fn parse_recovers_path_and_params() {
    let req = HttpRequest::parse("GET /home?k=v HTTP/1.1").unwrap();
    assert_eq!(req.path, "/home");
    assert_eq!(req.params, vec![("k".to_string(), "v".to_string())]);
}

#[test]
fn parse_query_value_keeps_second_equals() {
    let req = HttpRequest::parse("GET /p?a=b=c HTTP/1.1").unwrap();
    assert_eq!(req.params, vec![("a".to_string(), "b=c".to_string())]);
}

#[test]
fn parse_several_params() {
    let req = HttpRequest::parse("POST /q?a=1&b=2 HTTP/1.1").unwrap();
    assert_eq!(req.method, Method::POST);
    assert_eq!(
        req.params,
        vec![("a".to_string(), "1".to_string()), ("b".to_string(), "2".to_string())]
    );
}

#[test]
fn parse_strips_trailing_slash() {
    let req = HttpRequest::parse("GET /x/ HTTP/1.1").unwrap();
    assert_eq!(req.path, "/x");
}

#[test]
fn parse_keeps_root_path() {
    let req = HttpRequest::parse("GET / HTTP/1.1").unwrap();
    assert_eq!(req.path, "/");
}

#[test]
fn parse_strips_trailing_nuls() {
    let raw = "GET / HTTP/1.1\r\n\r\nbody\0\0\0";
    let req = HttpRequest::parse(raw).unwrap();
    assert_eq!(req.body, "body");
}

#[test]
fn parse_unknown_method_defaults_to_get() {
    let req = HttpRequest::parse("FOO / HTTP/1.1").unwrap();
    assert_eq!(req.method, Method::GET);
    let req = HttpRequest::parse("delete / HTTP/1.1").unwrap();
    assert_eq!(req.method, Method::DELETE);
}

#[test]
fn parse_keeps_header_lines_in_order() {
    let raw = "GET / HTTP/1.1\r\nA: 1\r\nA: 2\r\n\r\n";
    let req = HttpRequest::parse(raw).unwrap();
    assert_eq!(
        req.headers,
        vec![("A".to_string(), "1".to_string()), ("A".to_string(), "2".to_string())]
    );
}

#[test]
fn parse_without_http_token_is_invalid() {
    assert_eq!(
        HttpRequest::parse("GET / FTP/1.1"),
        Err(ParseRequestError::InvalidRequest)
    );
}

#[test]
fn parse_missing_method_token() {
    assert_eq!(
        HttpRequest::parse(" / HTTP/1.1"),
        Err(ParseRequestError::ParseMethodError)
    );
}

#[test]
fn parse_missing_target_token() {
    assert_eq!(
        HttpRequest::parse("GETHTTP/1.1"),
        Err(ParseRequestError::ParseUriError)
    );
}

#[test]
fn parse_param_without_equals() {
    assert_eq!(
        HttpRequest::parse("GET /a?x HTTP/1.1"),
        Err(ParseRequestError::ParseParamsError)
    );
    assert_eq!(
        HttpRequest::parse("GET /a?x=1&y HTTP/1.1"),
        Err(ParseRequestError::ParseParamsError)
    );
}

#[test]
fn parse_malformed_header() {
    assert_eq!(
        HttpRequest::parse("GET / HTTP/1.1\r\nNoSeparator\r\n\r\n"),
        Err(ParseRequestError::ParseHeadersError)
    );
    assert_eq!(
        HttpRequest::parse("GET / HTTP/1.1\r\nB@d: v\r\n\r\n"),
        Err(ParseRequestError::ParseHeadersError)
    );
    assert_eq!(
        HttpRequest::parse("GET / HTTP/1.1\r\nA: \u{1}\r\n\r\n"),
        Err(ParseRequestError::ParseHeadersError)
    );
}

#[test]
fn error_messages() {
    assert_eq!(ParseRequestError::InvalidRequest.message(), "ERROR: invalid request.");
    assert_eq!(
        ParseRequestError::ParseParamsError.message(),
        "ERROR: can't parse the query parameters of the request."
    );
}

#[test]
fn empty_request_sentinel() {
    let req = HttpRequest::new();
    assert!(req.is_empty());
    assert!(!request(Method::GET, "/").is_empty());
}

#[test]
fn router_hit_returns_handler_response() {
    let mut router: Router<FixedHandler> = Router::new();
    router.get("/x", FixedHandler::new(HttpResponse::json("{\"n\":1}".to_string())));
    let resp = router.resolve(&request(Method::GET, "/x"));
    assert_eq!(resp.status_code, 200);
    assert_eq!(resp.body, "{\"n\":1}");
}

#[test]
fn router_miss_returns_not_found() {
    let mut router: Router<FixedHandler> = Router::new();
    router.get("/x", FixedHandler::new(HttpResponse::json("{}".to_string())));
    let resp = router.resolve(&request(Method::GET, "/y"));
    assert_eq!(resp.status_code, 404);
    assert_eq!(resp.body, "<h1>404 Not Found</h1>");
    assert_eq!(
        resp.headers,
        vec![
            ("content-type".to_string(), "text/html".to_string()),
            ("content-length".to_string(), "22".to_string())
        ]
    );
}

#[test]
fn router_method_must_match() {
    let mut router: Router<FixedHandler> = Router::new();
    router.post("/x", FixedHandler::new(HttpResponse::json("{}".to_string())));
    let resp = router.resolve(&request(Method::GET, "/x"));
    assert_eq!(resp.status_code, 404);
}

#[test]
fn reregistration_overwrites() {
    let mut router: Router<FixedHandler> = Router::new();
    router.get("/x", FixedHandler::new(HttpResponse::json("first".to_string())));
    router.get("/x", FixedHandler::new(HttpResponse::json("second".to_string())));
    let resp = router.resolve(&request(Method::GET, "/x"));
    assert_eq!(resp.body, "second");
}

#[test]
fn json_builds_expected_response() {
    let resp = HttpResponse::json("{\"a\":1}".to_string());
    assert_eq!(resp.status_code, 200);
    assert_eq!(resp.body, "{\"a\":1}");
    assert_eq!(
        resp.headers,
        vec![
            ("content-type".to_string(), "application/json".to_string()),
            ("content-length".to_string(), "7".to_string())
        ]
    );
}

#[test]
fn redirect_builds_expected_response() {
    let resp = HttpResponse::redirect("/home");
    assert_eq!(resp.status_code, 308);
    assert_eq!(resp.headers, vec![("Location".to_string(), "/home".to_string())]);
    assert_eq!(resp.body, "");
}

#[test]
fn render_builds_html_response() {
    let resp = HttpResponse::render("<p>hi</p>".to_string());
    assert_eq!(resp.status_code, 200);
    assert_eq!(resp.body, "<p>hi</p>");
    assert_eq!(
        resp.headers,
        vec![
            ("content-type".to_string(), "text/html".to_string()),
            ("content-length".to_string(), "9".to_string())
        ]
    );
}

#[test]
fn serialization_round_trip() {
    let resp = HttpResponse::new(200).header("X", "Y").body("abc".to_string()).build();
    assert_eq!(resp.serialize(), "HTTP/1.1 200 OK\r\nX: Y\r\n\r\nabc");
}

#[test]
fn serialization_names_the_status() {
    let resp = HttpResponse::new(404).build();
    assert_eq!(resp.serialize(), "HTTP/1.1 404 Not Found\r\n\r\n");
    let resp = HttpResponse::new(308).build();
    assert_eq!(resp.serialize(), "HTTP/1.1 308 Permanent Redirect\r\n\r\n");
}

#[test]
fn serialization_of_unknown_status() {
    let resp = HttpResponse::new(599).build();
    assert_eq!(resp.serialize(), "HTTP/1.1 599 <unknown status code>\r\n\r\n");
}

#[test]
fn static_file_name_of_paths() {
    assert_eq!(request(Method::GET, "/").static_file_name(), None);
    assert_eq!(
        request(Method::GET, "/index.html").static_file_name(),
        Some("index.html".to_string())
    );
    assert_eq!(request(Method::GET, "nofile").static_file_name(), None);
}

#[test]
fn serve_static_file_found() {
    let contents = "<html><body>home</body></html>";
    let req = request(Method::GET, "/index.html");
    let resp = HttpResponse::serve_static_file(&req, Some(contents.to_string()));
    assert_eq!(resp.status_code, 200);
    assert_eq!(resp.body, contents);
    assert_eq!(
        resp.headers,
        vec![
            ("content-length".to_string(), contents.len().to_string()),
            ("content-type".to_string(), "text/html".to_string())
        ]
    );
}

#[test]
fn serve_static_file_missing() {
    let req = request(Method::GET, "/missing.html");
    let resp = HttpResponse::serve_static_file(&req, None);
    assert_eq!(resp.status_code, 404);
    assert_eq!(resp.body, "");
    assert_eq!(
        resp.headers,
        vec![
            ("content-length".to_string(), "0".to_string()),
            ("content-type".to_string(), "text/plain".to_string())
        ]
    );
}

#[test]
fn content_types_by_extension() {
    let css = HttpResponse::serve_static_file(&request(Method::GET, "/a.css"), Some(String::new()));
    assert_eq!(css.headers[1].1, "text/css");
    let png = HttpResponse::serve_static_file(&request(Method::GET, "/a.png"), Some(String::new()));
    assert_eq!(png.headers[1].1, "image/png");
    let none = HttpResponse::serve_static_file(&request(Method::GET, "/nodot"), Some(String::new()));
    assert_eq!(none.headers[1].1, "text/plain");
    let multi = HttpResponse::serve_static_file(&request(Method::GET, "/a.b.css"), Some(String::new()));
    assert_eq!(multi.headers[1].1, "text/plain");
}

#[test]
fn failed_parse_answers_bad_request() {
    let router: Router<FixedHandler> = Router::new();
    let resp = respond(&router, HttpRequest::parse(" / HTTP/1.1"), None);
    assert_eq!(resp.status_code, 400);
    assert_eq!(resp.body, "");
    let resp = respond(&router, HttpRequest::parse("GET /a?x HTTP/1.1"), None);
    assert_eq!(resp.status_code, 400);
    assert_eq!(resp.body, "");
}

#[test]
fn respond_prefers_static_over_routing() {
    let mut router: Router<FixedHandler> = Router::new();
    router.get("/index.html", FixedHandler::new(HttpResponse::json("{}".to_string())));
    let parsed = HttpRequest::parse("GET /index.html HTTP/1.1");
    let resp = respond(&router, parsed, Some(Some("file".to_string())));
    assert_eq!(resp.status_code, 200);
    assert_eq!(resp.body, "file");
}

#[test]
fn respond_routes_when_no_static_file() {
    let mut router: Router<FixedHandler> = Router::new();
    router.get("/", FixedHandler::new(HttpResponse::json("{\"home\":true}".to_string())));
    let resp = respond(&router, HttpRequest::parse("GET / HTTP/1.1"), None);
    assert_eq!(resp.status_code, 200);
    assert_eq!(resp.body, "{\"home\":true}");
}

#[test]
fn param_and_header_lookup_last_wins() {
    let raw = "GET /q?a=1&b=2&a=3 HTTP/1.1\r\nX: one\r\nX: two\r\n\r\n";
    let req = HttpRequest::parse(raw).unwrap();
    assert_eq!(req.param("a"), Some(&"3".to_string()));
    assert_eq!(req.param("b"), Some(&"2".to_string()));
    assert_eq!(req.param("c"), None);
    assert_eq!(req.header("X"), Some(&"two".to_string()));
    assert_eq!(req.header("Y"), None);
}

#[test]
fn parse_body_is_last_line_even_without_blank_line() {
    let req = HttpRequest::parse("GET / HTTP/1.1").unwrap();
    assert_eq!(req.body, "GET / HTTP/1.1");
    let req = HttpRequest::parse("GET / HTTP/1.1\r\nHost: x").unwrap();
    assert_eq!(req.headers, vec![("Host".to_string(), "x".to_string())]);
    assert_eq!(req.body, "Host: x");
}

#[test]
fn parse_method_ignores_ascii_case() {
    let req = HttpRequest::parse("Post / HTTP/1.1").unwrap();
    assert_eq!(req.method, Method::POST);
    let req = HttpRequest::parse("pAtCh / HTTP/1.1").unwrap();
    assert_eq!(req.method, Method::PATCH);
    let req = HttpRequest::parse("Head / HTTP/1.1").unwrap();
    assert_eq!(req.method, Method::HEAD);
    let req = HttpRequest::parse("GOT / HTTP/1.1").unwrap();
    assert_eq!(req.method, Method::GET);
}

#[test]
fn reason_phrases_of_known_and_unknown_codes() {
    assert_eq!(reason_phrase(200), Some("OK"));
    assert_eq!(reason_phrase(308), Some("Permanent Redirect"));
    assert_eq!(reason_phrase(400), Some("Bad Request"));
    assert_eq!(reason_phrase(404), Some("Not Found"));
    assert_eq!(reason_phrase(599), None);
    assert_eq!(reason_phrase(0), None);
}

#[test]
fn parse_terminated_request_line_gives_empty_body() {
    let req = HttpRequest::parse("GET /home?k=v HTTP/1.1\r\n\r\n").unwrap();
    assert_eq!(req.method, Method::GET);
    assert_eq!(req.path, "/home");
    assert_eq!(req.params, vec![("k".to_string(), "v".to_string())]);
    assert_eq!(req.headers, Vec::<(String, String)>::new());
    assert_eq!(req.body, "");
}
