use rust_web_server::config::Config;
use rust_web_server::http::request::HttpRequest;
use rust_web_server::strmap::StrMap;

fn map_of(pairs: &[(&str, &str)]) -> StrMap {
    let mut m = StrMap::new();
    for (k, v) in pairs {
        m.insert(k.to_string(), v.to_string());
    }
    m
}

fn entries(m: &StrMap) -> Vec<(String, String)> {
    (0..m.len()).map(|i| (m.key_at(i).clone(), m.value_at(i).clone())).collect()
}

fn pairs(v: &[(&str, &str)]) -> Vec<(String, String)> {
    v.iter().map(|(a, b)| (a.to_string(), b.to_string())).collect()
}

#[test]
fn path_from_request_url() {
    assert_eq!(HttpRequest::get_path_from_request_url("/a/b?x=1#h"), "/a/b");
    assert_eq!(HttpRequest::get_path_from_request_url("/a/b#h"), "/a/b");
    assert_eq!(HttpRequest::get_path_from_request_url("abc"), "");
    assert_eq!(HttpRequest::get_path_from_request_url("/"), "/");
}

#[test]
fn query_from_request_url() {
    let q = HttpRequest::get_query_from_request_url("/p?a=1&b=2#frag");
    assert_eq!(entries(&q), pairs(&[("a", "1"), ("b", "2")]));
    let q2 = HttpRequest::get_query_from_request_url("/p?a=1=2&flag&b=&a=7");
    assert_eq!(entries(&q2), pairs(&[("a", "7"), ("b", "")]));
    let q3 = HttpRequest::get_query_from_request_url("/p");
    assert_eq!(q3.len(), 0);
}

#[test]
fn query_string_is_percent_encoded() {
    let m = map_of(&[("a", "1 2"), ("b", "x&y"), ("c", "é")]);
    assert_eq!(HttpRequest::generate_query_string(&m), "a=1%202&b=x%26y&c=%C3%A9");
    assert_eq!(HttpRequest::generate_query_string(&StrMap::new()), "");
}

#[test]
fn domain_port_and_path_of_url() {
    assert_eq!(HttpRequest::get_domain_port("http://example.com:8080/a?b#c"), "example.com:8080");
    assert_eq!(HttpRequest::get_domain_port("http://example.com?x"), "example.com");
    assert_eq!(HttpRequest::get_domain_port("example.com/a"), "");
    assert_eq!(HttpRequest::get_path("http://example.com:8080/a/b?x#y"), "/a/b");
    assert_eq!(HttpRequest::get_path("http://example.com"), "");
    assert_eq!(HttpRequest::get_path("no-scheme/a"), "");
}

#[test]
fn http_base_of_url() {
    let b = HttpRequest::get_http_base("https://example.com/x/y?q=1#h");
    assert_eq!(b.scheme, "https");
    assert_eq!(b.host, "example.com");
    assert_eq!(b.port, ":443");
    assert_eq!(b.path, "/x/y");
    assert!(HttpRequest::try_get_http_base("not a url").is_none());
    assert!(HttpRequest::try_get_http_base("mailto:someone@example.com").is_none());
    let c = HttpRequest::try_get_http_base("http://h.com:81").unwrap();
    assert_eq!(c.port, ":81");
    assert_eq!(c.path, "/");
}

#[test]
fn url_parts_of_url() {
    assert_eq!(HttpRequest::get_url_without_query_hash("http://h.com/p?q#x"), "http://h.com:80/p");
    assert_eq!(HttpRequest::get_url_without_path_query_hash("http://h.com/p?q"), "http://h.com:80");
    assert_eq!(HttpRequest::get_scheme("https://h.com/"), "https");
    assert_eq!(HttpRequest::get_ip_domain("https://H.com:9/"), "h.com");
    assert_eq!(HttpRequest::get_port("http://h.com:81/"), 81);
    assert_eq!(HttpRequest::get_port("https://h.com/"), 443);
    assert_eq!(HttpRequest::get_ip_domain_port("http://h.com:81/"), "h.com:81");
    assert_eq!(HttpRequest::try_get_ip_domain_port("http://h.com/").unwrap(), "h.com:80");
    assert_eq!(HttpRequest::try_get_ip_domain_port("::"), None);
}

#[test]
fn request_line_text() {
    assert_eq!(HttpRequest::get_http_request_protocol_head("/x?y", "GET"), "GET /x?y HTTP/1.1\r\n");
}

#[test]
fn http_data_of_body() {
    let m = map_of(&[("a", "1"), ("b", "2")]);
    assert_eq!(HttpRequest::generate_http_data("GET", "", &m), "a=1&b=2");
    assert_eq!(HttpRequest::generate_http_data("POST", "text/plain", &m), "a=1&b=2");
    let j = map_of(&[("q", "a\"b")]);
    assert_eq!(HttpRequest::generate_http_data("POST", "application/json", &j), "{\"q\":\"a\\\"b\"}");
    assert_eq!(HttpRequest::generate_http_data("PUT", "application/json", &StrMap::new()), "");
    assert_eq!(HttpRequest::generate_http_data("GET", "application/json", &j), "q=a\"b");
    assert_eq!(HttpRequest::generate_http_data("GET", "", &StrMap::new()), "");
}

#[test]
fn parse_get_request() {
    let server = Config::get_default_server();
    let text = "GET /index.html?x=1 HTTP/1.1\r\nHost: localhost\r\nAccept:  */* \r\n\r\n";
    assert!(HttpRequest::can_parse(text));
    let r = HttpRequest::parse_http_request(&server, text).unwrap();
    assert_eq!(r.method, "GET");
    assert_eq!(r.path, "/index.html");
    assert_eq!(entries(&r.headers), pairs(&[("host", "localhost"), ("accept", "*/*")]));
    assert_eq!(entries(&r.body), pairs(&[("x", "1")]));
}

#[test]
fn parse_post_request() {
    let server = Config::get_default_server();
    let text = "POST /form HTTP/1.1\r\nHOST: a.com\r\n\r\na=1&b=%20x&=skip&c%00=2&nokey";
    let r = HttpRequest::parse_http_request(&server, text).unwrap();
    assert_eq!(r.method, "POST");
    assert_eq!(r.path, "/form");
    assert_eq!(entries(&r.headers), pairs(&[("host", "a.com")]));
    assert_eq!(entries(&r.body), pairs(&[("a", "1"), ("b", " x"), ("c", "2")]));
}

#[test]
fn parse_refuses_incomplete_requests() {
    let server = Config::get_default_server();
    assert!(HttpRequest::parse_http_request(&server, "GET / HTTP/1.1\r\nHost: a").is_none());
    assert!(HttpRequest::parse_http_request(&server, "\r\n\r\n").is_none());
    assert!(HttpRequest::parse_http_request(&server, "GET\r\n\r\n").is_none());
}

#[test]
fn process_request_defaults() {
    let none = HttpRequest::process_request(None);
    assert_eq!(none.method, "GET");
    assert_eq!(none.path, "");
    assert_eq!(none.headers.len(), 0);
    let no_host = HttpRequest {
        path: "/p".to_string(),
        method: "POST".to_string(),
        headers: map_of(&[("accept", "*/*")]),
        body: map_of(&[("a", "1")]),
    };
    let r = HttpRequest::process_request(Some(no_host));
    assert_eq!(r.method, "GET");
    assert_eq!(r.path, "/p");
    assert_eq!(r.headers.len(), 0);
    assert_eq!(r.body.len(), 0);
    let with_host = HttpRequest {
        path: "/q".to_string(),
        method: "POST".to_string(),
        headers: map_of(&[("host", "a")]),
        body: map_of(&[("a", "1")]),
    };
    let r2 = HttpRequest::process_request(Some(with_host));
    assert_eq!(r2.method, "POST");
    assert_eq!(entries(&r2.body), pairs(&[("a", "1")]));
}

#[test]
fn process_request_is_idempotent() {
    let no_host = HttpRequest {
        path: "/p".to_string(),
        method: "PUT".to_string(),
        headers: map_of(&[("x", "1")]),
        body: StrMap::new(),
    };
    let once = HttpRequest::process_request(Some(no_host));
    let once_text = once.to_display_string();
    let twice = HttpRequest::process_request(Some(once));
    assert_eq!(twice.to_display_string(), once_text);
}

#[test]
fn request_display_text() {
    let r = HttpRequest {
        path: "/p".to_string(),
        method: "GET".to_string(),
        headers: map_of(&[("host", "a")]),
        body: map_of(&[("k", "v")]),
    };
    assert_eq!(r.to_display_string(), "method: GET\npath: /p\nheaders:\nhost: a\n\nbody:\nk: v\n");
}

#[test]
fn query_string_reads_back() {
    let m = map_of(&[("page", "2"), ("q", "abc"), ("Z9", "x1")]);
    let text = HttpRequest::generate_query_string(&m);
    assert_eq!(text, "page=2&q=abc&Z9=x1");
    let back = HttpRequest::get_query_from_request_url(&format!("?{}", text));
    assert_eq!(entries(&back), entries(&m));
    let empty = HttpRequest::get_query_from_request_url(&format!("?{}", HttpRequest::generate_query_string(&StrMap::new())));
    assert_eq!(empty.len(), 0);
}

#[test]
fn request_copy_is_equal() {
    let r = HttpRequest {
        path: "/p".to_string(),
        method: "POST".to_string(),
        headers: map_of(&[("host", "a")]),
        body: map_of(&[("k", "v")]),
    };
    let c = r.duplicate();
    assert_eq!(c.to_display_string(), r.to_display_string());
}
