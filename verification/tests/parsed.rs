use monoio_http::common::parsed::request::ParsedRequest as LazyRequest;
use monoio_http::common::parsed::response::ParsedResponse as LazyResponse;
use monoio_http::common::error::LazyParseError;
use monoio_http::common::Parse;
use monoio_http::common::request::{RequestHeadRef, RequestRef};
use monoio_http::common::{FromParts, IntoParts};
use monoio_http::common::parsed::Parse as LazyParse;
use monoio_http::common::header::{HeaderMap, Version};
use monoio_http::common::parsed_request::ParsedRequest;
use monoio_http::common::request::{Request, RequestHead};
use monoio_http::common::parsed_request::multipart_boundary;
use monoio_http::common::parsed_response::ParsedResponse;
use monoio_http::common::response::{Response, ResponseHead};

fn request(uri: &str, headers: HeaderMap) -> Request<()> {
    Request {
        head: RequestHead { method: b"GET".to_vec(), uri: uri.as_bytes().to_vec(), version: Version::Http11, headers },
        body: (),
    }
}

fn build_request_with_cookies() -> Request<()> {
    let user_id_cookie = "user_id=123;";
    let email_cookie = "email=some_email;";
    let cookie_value = format!("{}; {}", user_id_cookie, email_cookie);
    let mut headers = HeaderMap::new();
    headers.insert(b"cookie".to_vec(), cookie_value.into_bytes());
    request("/", headers)
}

fn build_request() -> Request<()> {
    request("/", HeaderMap::new())
}

fn create_request_with_url_params() -> Request<()> {
    request("http://example.com/path?user_id=123&email=some_email", HeaderMap::new())
}

fn cookie_header_of(req: &Request<()>) -> String {
    String::from_utf8(req.head.headers.get(b"cookie").unwrap().clone()).unwrap()
}

#[test]
fn parsed_request_test_request_cookie_parse() {
    let request = build_request_with_cookies();
    let mut parsed_req = ParsedRequest::new(request);
    parsed_req.parse_cookies_params().unwrap();
    assert_eq!(parsed_req.get_cookie_value("user_id"), Some("123".to_string()));
    assert_eq!(parsed_req.get_cookie_value("email"), Some("some_email".to_string()));
}

#[test]
fn parsed_request_test_request_cookie_set() {
    let request = build_request();
    let mut parsed_req = ParsedRequest::new(request);
    parsed_req.set_cookie_param("user_id", "123").unwrap();
    parsed_req.set_cookie_param("email", "some_email").unwrap();
    let new_req = parsed_req.into_http_request();
    let cookie_str = cookie_header_of(&new_req);
    assert!(cookie_str == "email=some_email; user_id=123" || cookie_str == "user_id=123; email=some_email");
}

#[test]
fn parsed_request_test_request_additional_cookies_set() {
    let request = build_request_with_cookies();
    let mut parsed_req = ParsedRequest::new(request);
    parsed_req.set_cookie_param("org", "ByteDance").unwrap();
    parsed_req.set_cookie_param("id", "36603").unwrap();
    assert_eq!(parsed_req.get_cookie_value("user_id"), Some("123".to_string()));
    assert_eq!(parsed_req.get_cookie_value("email"), Some("some_email".to_string()));
    assert_eq!(parsed_req.get_cookie_value("org"), Some("ByteDance".to_string()));
    assert_eq!(parsed_req.get_cookie_value("id"), Some("36603".to_string()));
}

#[test]
fn parsed_request_test_request_url_params_parse() {
    let request = create_request_with_url_params();
    let mut parsed = ParsedRequest::new(request);
    assert_eq!(parsed.get_url_param("user_id").map(|s| s.as_str()), Some("123"));
    assert_eq!(parsed.get_url_param("email").map(|s| s.as_str()), Some("some_email"));
    assert_eq!(parsed.get_url_param("user_id").map(|s| s.as_str()), Some("123"));
    assert_eq!(parsed.get_url_param("email").map(|s| s.as_str()), Some("some_email"));
}





#[test]
fn url_params_missing_query() {
    let mut parsed = ParsedRequest::new(build_request());
    assert!(parsed.parse_url_params().is_err());
}

#[test]
fn body_url_encoded_params() {
    let mut headers = HeaderMap::new();
    headers.insert(b"content-type".to_vec(), b"application/x-www-form-urlencoded".to_vec());
    let mut parsed = ParsedRequest::new(request("/", headers));
    assert!(matches!(parsed.begin_body_url_encoded_params(), Ok(true)));
    let map = parsed.finish_body_url_encoded_params(b"key1=value1&key2=value2").unwrap();
    assert_eq!(map.get("key1").map(|s| s.as_str()), Some("value1"));
    assert_eq!(parsed.get_body_url_param("key2"), Some("value2".to_string()));
    assert_eq!(parsed.get_body_url_param("key3"), None);
}

#[test]
fn body_url_encoded_wrong_type() {
    let mut headers = HeaderMap::new();
    headers.insert(b"content-type".to_vec(), b"application/json; charset=utf-8".to_vec());
    let parsed = ParsedRequest::new(request("/", headers));
    assert!(parsed.begin_body_url_encoded_params().is_err());
    let parsed = ParsedRequest::new(build_request());
    assert!(parsed.begin_body_url_encoded_params().is_err());
}

#[test]
fn multipart_boundary_of_content_type() {
    let mut headers = HeaderMap::new();
    headers.insert(b"content-type".to_vec(), b"multipart/form-data; boundary=abc123".to_vec());
    assert_eq!(multipart_boundary(&headers).unwrap(), b"abc123".to_vec());
    let mut headers = HeaderMap::new();
    headers.insert(b"content-type".to_vec(), b"text/plain".to_vec());
    assert!(multipart_boundary(&headers).is_err());
}

#[test]
fn response_cookies() {
    let mut headers = HeaderMap::new();
    headers.insert(b"set_cookie".to_vec(), b"session=abc".to_vec());
    let resp = Response {
        head: ResponseHead { version: Version::Http11, status: 200, headers, reason: None },
        body: (),
    };
    let mut parsed = ParsedResponse::new(resp);
    assert_eq!(parsed.get_cookie_value("session"), Some("abc".to_string()));
    parsed.set_cookie_param("theme", "dark").unwrap();
    let resp = parsed.into_http_response();
    let value = String::from_utf8(resp.head.headers.get(b"cookie").unwrap().clone()).unwrap();
    assert!(value == "session=abc; theme=dark" || value == "theme=dark; session=abc");
}

#[test]
fn cookie_param_is_a_copy_of_the_cookie() {
    let mut parsed = ParsedRequest::new(build_request_with_cookies());
    let c = parsed.get_cookie_param("user_id").unwrap();
    assert_eq!(c.name(), "user_id");
    assert_eq!(c.value(), "123");
    assert!(parsed.get_cookie_param("absent").is_none());
}

#[test]
fn url_params_state_follows_parsing() {
    let mut parsed = ParsedRequest::new(create_request_with_url_params());
    assert!(matches!(parsed.get_url_params(), Parse::Unparsed));
    parsed.parse_url_params().unwrap();
    match parsed.get_url_params() {
        Parse::Parsed(m) => assert_eq!(m.get("email").map(|s| s.as_str()), Some("some_email")),
        _ => panic!("the query was parsed"),
    }
}

#[test]
fn body_is_replaced_and_form_kept() {
    let mut headers = HeaderMap::new();
    headers.insert(b"content-type".to_vec(), b"application/x-www-form-urlencoded".to_vec());
    let req = Request {
        head: RequestHead { method: b"POST".to_vec(), uri: b"/".to_vec(), version: Version::Http11, headers },
        body: b"a=1".to_vec(),
    };
    let mut parsed = ParsedRequest::new(req);
    assert!(parsed.body_url_params().is_none());
    let old = parsed.replace_body(Vec::new());
    assert_eq!(old, b"a=1".to_vec());
    parsed.finish_body_url_encoded_params(&old).unwrap();
    parsed.replace_body(old);
    assert_eq!(parsed.body_url_params().unwrap().get("a").map(|s| s.as_str()), Some("1"));
    assert_eq!(parsed.into_request().body, b"a=1".to_vec());
}

#[test]
fn host_header_added_from_target() {
    let mut head = RequestHead {
        method: b"GET".to_vec(),
        uri: b"http://example.com:8080/a".to_vec(),
        version: Version::Http11,
        headers: HeaderMap::new(),
    };
    head.set_host_header();
    assert_eq!(head.headers.get(b"host"), Some(&b"example.com".to_vec()));

    let mut headers = HeaderMap::new();
    headers.insert(b"host".to_vec(), b"other".to_vec());
    let mut head = RequestHead { method: b"GET".to_vec(), uri: b"http://example.com/".to_vec(), version: Version::Http11, headers };
    head.set_host_header();
    assert_eq!(head.headers.get(b"host"), Some(&b"other".to_vec()));

    let mut head = RequestHead { method: b"GET".to_vec(), uri: b"/only/a/path".to_vec(), version: Version::Http11, headers: HeaderMap::new() };
    head.set_host_header();
    assert!(head.headers.get(b"host").is_none());
}

#[test]
fn borrowed_request_head() {
    let req = create_request_with_url_params();
    let head = RequestHeadRef::from_http(&req);
    assert_eq!(head.method, &b"GET".to_vec());
    assert_eq!(head.version, Version::Http11);
    let r: RequestRef<'_, u8> = RequestRef::from_parts(head, 7);
    let (parts, body) = r.into_parts();
    assert_eq!(body, 7);
    assert_eq!(parts.uri, &req.head.uri);
}

#[test]
fn parse_state_written_through() {
    let mut p: LazyParse<u32> = LazyParse::Parsed(5);
    if let LazyParse::Parsed(v) = p.as_mut() {
        *v = 6;
    }
    *p.parsed_inner_mut() += 1;
    assert!(matches!(p, LazyParse::Parsed(7)));
    assert_eq!(p.unwrap_unchecked(), 7);
    let mut q: LazyParse<u32> = LazyParse::Failed;
    assert!(matches!(q.as_mut(), LazyParse::Failed));
}

#[test]
fn parsed_from_message() {
    let mut parsed: ParsedRequest<()> = ParsedRequest::from(create_request_with_url_params());
    assert_eq!(parsed.get_url_param("user_id").map(|s| s.as_str()), Some("123"));
    let resp = Response { head: ResponseHead { version: Version::Http11, status: 404, headers: HeaderMap::new(), reason: None }, body: () };
    let parsed: ParsedResponse<()> = ParsedResponse::from(resp);
    assert_eq!(parsed.into_http_response().head.status, 404);
}

#[test]
fn parse_states_read_back() {
    let mut p: Parse<u32> = Parse::Unparsed;
    assert!(!p.is_parsing_failed());
    p.set(3);
    assert_eq!(*p.parsed_inner_ref(), 3);
    assert_eq!(p.parsed_inner(), 3);
    let q: LazyParse<u32> = LazyParse::Failed;
    assert!(q.is_failed());
    assert!(matches!(q.as_ref(), LazyParse::Failed));
    let r: LazyParse<u32> = LazyParse::Parsed(4);
    assert!(matches!(r.as_ref(), LazyParse::Parsed(&4)));
}

#[test]
fn parsed_messages_lend_themselves() {
    let mut parsed = ParsedRequest::new(build_request_with_cookies());
    parsed.set_cookie_param("theme", "dark").unwrap();
    let value = String::from_utf8(parsed.inner_ref().head.headers.get(b"cookie").unwrap().clone()).unwrap();
    assert!(value.contains("theme=dark"));
    let mut headers = HeaderMap::new();
    headers.insert(b"set_cookie".to_vec(), b"a=b".to_vec());
    let resp = Response { head: ResponseHead { version: Version::Http11, status: 200, headers, reason: None }, body: () };
    let mut parsed = ParsedResponse::new(resp);
    parsed.set_cookie_param("c", "d").unwrap();
    let value = String::from_utf8(parsed.into_http_request_ref().head.headers.get(b"cookie").unwrap().clone()).unwrap();
    assert!(value == "a=b; c=d" || value == "c=d; a=b");
}

fn lazy_request_with_url_params() -> Request<()> {
    request("http://example.com/path?user_id=123&email=some_email&email=another_email", HeaderMap::new())
}

fn lazy_values(v: Option<&Vec<String>>) -> Option<Vec<&str>> {
    v.map(|vs| vs.iter().map(|s| s.as_str()).collect())
}

#[test]
fn request_test_request_cookie_parse() {
    let request = build_request_with_cookies();
    let mut parsed_req = LazyRequest::new(request);
    parsed_req.parse_cookies_params().unwrap();
    assert_eq!(parsed_req.get_cookie_param("user_id").unwrap().unwrap().value(), "123");
    assert_eq!(parsed_req.get_cookie_param("email").unwrap().unwrap().value(), "some_email");
}

#[test]
fn request_test_request_cookie_set() {
    let request = build_request();
    let mut parsed_req = LazyRequest::new(request);
    parsed_req.parse_cookies_params().unwrap();
    parsed_req.set_cookie_param("user_id", "123").unwrap();
    parsed_req.set_cookie_param("email", "some_email").unwrap();
    let new_req = parsed_req.into_http_request();
    let cookie_str = cookie_header_of(&new_req);
    assert!(cookie_str == "email=some_email; user_id=123" || cookie_str == "user_id=123; email=some_email");
}

#[test]
fn request_test_request_additional_cookies_set() {
    let request = build_request_with_cookies();
    let mut parsed_req = LazyRequest::new(request);
    parsed_req.parse_cookies_params().unwrap();
    parsed_req.set_cookie_param("org", "ByteDance").unwrap();
    parsed_req.set_cookie_param("id", "36603").unwrap();
    assert_eq!(parsed_req.get_cookie_param("user_id").unwrap().unwrap().value(), "123");
    assert_eq!(parsed_req.get_cookie_param("email").unwrap().unwrap().value(), "some_email");
    assert_eq!(parsed_req.get_cookie_param("org").unwrap().unwrap().value(), "ByteDance");
    assert_eq!(parsed_req.get_cookie_param("id").unwrap().unwrap().value(), "36603");
}

#[test]
fn request_test_request_url_params_parse() {
    let request = lazy_request_with_url_params();
    let mut parsed = LazyRequest::new(request);
    assert_eq!(lazy_values(parsed.get_url_param("user_id").unwrap()), Some(vec!["123"]));
    assert_eq!(lazy_values(parsed.get_url_param("email").unwrap()), Some(vec!["some_email", "another_email"]));
}

#[test]
fn lazy_url_params_without_query_or_bad() {
    let mut parsed = LazyRequest::new(build_request());
    parsed.parse_url_params().unwrap();
    assert_eq!(lazy_values(parsed.get_url_param("x").unwrap()), None);
    let mut parsed = LazyRequest::new(request("http://example.com/?a=%ZZ&=", HeaderMap::new()));
    let first = parsed.parse_url_params();
    if first.is_err() {
        assert!(matches!(parsed.parse_url_params(), Err(LazyParseError::Previous)));
    }
}

#[test]
fn lazy_body_form_params() {
    let mut headers = HeaderMap::new();
    headers.insert(b"content-type".to_vec(), b"application/x-www-form-urlencoded".to_vec());
    let mut parsed = LazyRequest::new(request("/", headers));
    assert!(parsed.get_body_url_encoded_param("key1").is_none());
    assert!(matches!(parsed.begin_body_form_params(), Ok(true)));
    let body = b"key1=value1&key2=value2&key1=value3";
    parsed.finish_body_form_params(body).unwrap();
    assert_eq!(lazy_values(parsed.get_body_url_encoded_param("key1")), Some(vec!["value1", "value3"]));
    assert_eq!(lazy_values(parsed.get_body_url_encoded_param("key2")), Some(vec!["value2"]));
    assert!(matches!(parsed.begin_body_form_params(), Ok(false)));

    let mut headers = HeaderMap::new();
    headers.insert(b"content-type".to_vec(), b"text/plain".to_vec());
    let mut parsed = LazyRequest::new(request("/", headers));
    assert!(matches!(parsed.begin_body_form_params(), Err(LazyParseError::InvalidContentType)));
    assert!(matches!(parsed.begin_body_form_params(), Err(LazyParseError::Previous)));
}

#[test]
fn lazy_response_cookies() {
    let mut headers = HeaderMap::new();
    headers.insert(b"cookie".to_vec(), b"a=b".to_vec());
    let resp = Response { head: ResponseHead { version: Version::Http11, status: 200, headers, reason: None }, body: () };
    let mut parsed = LazyResponse::new(resp);
    assert_eq!(parsed.get_cookie_param("a").unwrap().unwrap().value(), "b");
    parsed.set_cookie_param("c", "d").unwrap();
    assert_eq!(parsed.raw_response().head.status, 200);
    let resp = parsed.into_http_response();
    let value = String::from_utf8(resp.head.headers.get(b"cookie").unwrap().clone()).unwrap();
    assert!(value == "a=b; c=d" || value == "c=d; a=b");
}

#[test]
fn url_params_after_query_do_not_stop_the_form() {
    let mut headers = HeaderMap::new();
    headers.insert(b"content-type".to_vec(), b"application/x-www-form-urlencoded".to_vec());
    let mut parsed = ParsedRequest::new(request("http://example.com/?q=1", headers));
    assert_eq!(parsed.get_url_param("q").map(|s| s.as_str()), Some("1"));
    assert!(matches!(parsed.begin_body_url_encoded_params(), Ok(true)));
    parsed.finish_body_url_encoded_params(b"key1=value1").unwrap();
    assert!(matches!(parsed.begin_body_url_encoded_params(), Ok(false)));
}
