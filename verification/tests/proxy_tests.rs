use rust_web_server::config::{Config, Server};
use rust_web_server::http::request::HttpRequest;
use rust_web_server::proxy::{
    convert_headers_to_hashmap, parse_proxy_response, send_sync_request, try_send_sync_request, ProxyPlan,
};
use rust_web_server::strmap::StrMap;

fn map_of(pairs: &[(&str, &str)]) -> StrMap {
    let mut m = StrMap::new();
    for (k, v) in pairs {
        m.insert(k.to_string(), v.to_string());
    }
    m
}

fn entries(m: &StrMap) -> Vec<(String, String)> {
    (0..m.len()).map(|i| (m.key_at(i).clone(), m.value_at(i).clone())).collect()
}

fn pairs(v: &[(&str, &str)]) -> Vec<(String, String)> {
    v.iter().map(|(a, b)| (a.to_string(), b.to_string())).collect()
}

fn proxy_server(proxy: &[&str]) -> Server {
    let mut s = Config::get_default_server();
    s.hotlink_protection = vec![];
    s.proxy = proxy.iter().map(|p| p.to_string()).collect();
    s
}

fn get_request(path: &str) -> HttpRequest {
    HttpRequest {
        path: path.to_string(),
        method: "GET".to_string(),
        headers: map_of(&[("host", "front"), ("accept", "*/*")]),
        body: map_of(&[("a", "1")]),
    }
}

#[test]
fn get_request_forwarded() {
    let server = proxy_server(&["http://backend.local:8080/api?k=v"]);
    let plan = send_sync_request(&server, &get_request("/x"), 0);
    match plan {
        ProxyPlan::Send(p) => {
            assert_eq!(p.proxy_url, "http://backend.local:8080/x?k=v&a=1");
            assert_eq!(p.host, "backend.local");
            assert_eq!(p.port, 8080);
            assert!(!p.tls);
            assert_eq!(
                entries(&p.headers),
                pairs(&[
                    ("host", "backend.local"),
                    ("accept", "*/*"),
                    ("origin", "http://backend.local:8080/x"),
                    ("referer", "http://backend.local:8080/x"),
                    ("content-length", "7"),
                    ("content-type", "application/x-www-form-urlencoded"),
                    ("connection", "close"),
                ])
            );
            assert_eq!(
                p.text,
                "GET http://backend.local:8080/x?k=v&a=1 HTTP/1.1\r\nhost: backend.local\r\naccept: */*\r\norigin: http://backend.local:8080/x\r\nreferer: http://backend.local:8080/x\r\ncontent-length: 7\r\ncontent-type: application/x-www-form-urlencoded\r\nconnection: close\r\n\r\nk=v&a=1"
            );
        }
        _ => panic!("expected a request to send"),
    }
}

#[test]
fn post_json_forwarded_over_tls() {
    let server = proxy_server(&["https://api.example.com"]);
    let req = HttpRequest {
        path: "/p".to_string(),
        method: "POST".to_string(),
        headers: map_of(&[("content-type", "application/json"), ("content-length", "99")]),
        body: map_of(&[("q", "é")]),
    };
    match send_sync_request(&server, &req, 0) {
        ProxyPlan::Send(p) => {
            assert!(p.tls);
            assert_eq!(p.port, 443);
            assert_eq!(p.host, "api.example.com");
            assert_eq!(p.proxy_url, "https://api.example.com:443/p?https://api.example.com:443/p");
            assert_eq!(p.headers.get("content-length"), Some(&"10".to_string()));
            assert_eq!(p.headers.get("host"), Some(&"api.example.com".to_string()));
            assert!(p.text.ends_with("\r\n\r\n{\"q\":\"é\"}"));
        }
        _ => panic!("expected a request to send"),
    }
}

#[test]
fn empty_body_sends_no_length() {
    let server = proxy_server(&["http://b.com"]);
    let req = HttpRequest {
        path: "/".to_string(),
        method: "GET".to_string(),
        headers: map_of(&[("content-length", "5"), ("content-type", "text/plain")]),
        body: StrMap::new(),
    };
    match send_sync_request(&server, &req, 0) {
        ProxyPlan::Send(p) => {
            assert_eq!(p.headers.get("content-length"), None);
            assert_eq!(p.headers.get("content-type"), None);
            assert_eq!(p.headers.get("connection"), Some(&"close".to_string()));
            assert!(p.text.ends_with("connection: close\r\n\r\n"));
        }
        _ => panic!("expected a request to send"),
    }
}

#[test]
fn refused_and_unsendable_requests() {
    let server = proxy_server(&["http://b.com"]);
    assert!(matches!(send_sync_request(&server, &get_request("/../etc"), 0), ProxyPlan::Refused));
    let mut hot = proxy_server(&["http://b.com"]);
    hot.hotlink_protection = vec!["secret".to_string()];
    assert!(matches!(send_sync_request(&hot, &get_request("/secret"), 0), ProxyPlan::Refused));
    assert!(matches!(send_sync_request(&server, &get_request("/a b"), 0), ProxyPlan::BadUri));
}

#[test]
fn try_forms_refuse_bad_addresses() {
    let server = proxy_server(&["http://b.com", "not a url"]);
    assert!(try_send_sync_request(&server, &get_request("/x"), 5).is_none());
    assert!(try_send_sync_request(&server, &get_request("/x"), 1).is_none());
    assert!(matches!(try_send_sync_request(&server, &get_request("/x"), 0), Some(ProxyPlan::Send(_))));
}

#[test]
fn proxy_answer_is_split_into_headers_and_body() {
    let (h, b) = parse_proxy_response("HTTP/1.1 200 OK\r\nContent-Type: text/plain\r\nX: 1\r\nX: 2\r\n\r\nbody\r\n\r\nmore");
    assert_eq!(entries(&h), pairs(&[("Content-Type", "text/plain"), ("X", "2")]));
    assert_eq!(b, b"body\r\n\r\nmore".to_vec());
    let (h2, b2) = parse_proxy_response("no separator");
    assert_eq!(h2.len(), 0);
    assert!(b2.is_empty());
}

#[test]
fn header_map_values_that_are_text() {
    let mut m = http::HeaderMap::new();
    m.insert("a", http::HeaderValue::from_static("1"));
    m.insert("b", http::HeaderValue::from_bytes(&[0xfa]).unwrap());
    m.insert("c", http::HeaderValue::from_static("x\ty"));
    let r = convert_headers_to_hashmap(&m);
    assert_eq!(r.len(), 2);
    assert_eq!(r.get("a"), Some(&"1".to_string()));
    assert_eq!(r.get("b"), None);
    assert_eq!(r.get("c"), Some(&"x\ty".to_string()));
}
