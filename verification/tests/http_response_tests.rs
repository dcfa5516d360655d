use std::io::Read;

use rust_web_server::config::{Config, Server};
use rust_web_server::gzip::{encoder, judge_need_open_gzip};
use rust_web_server::http::request::HttpRequest;
use rust_web_server::http::response::{
    edit_response, error_page_path, get_code_msg, get_res_response, load_other_html, need_fallback, LoadOutcome,
};
use rust_web_server::strmap::StrMap;
use rust_web_server::template::get_error_html;

fn map_of(pairs: &[(&str, &str)]) -> StrMap {
    let mut m = StrMap::new();
    for (k, v) in pairs {
        m.insert(k.to_string(), v.to_string());
    }
    m
}

fn request_with(headers: &[(&str, &str)]) -> HttpRequest {
    HttpRequest {
        path: "/".to_string(),
        method: "GET".to_string(),
        headers: map_of(headers),
        body: StrMap::new(),
    }
}

fn server_with_headers(headers: &[&str]) -> Server {
    let mut s = Config::get_default_server();
    s.response_header_list = headers.iter().map(|h| h.to_string()).collect();
    s
}

fn split_response(bytes: &[u8]) -> (String, Vec<u8>) {
    let pos = bytes.windows(4).position(|w| w == b"\r\n\r\n").unwrap();
    (String::from_utf8(bytes[..pos].to_vec()).unwrap(), bytes[pos + 4..].to_vec())
}

#[test]
fn status_reason_phrases() {
    assert_eq!(get_code_msg(200), "OK");
    assert_eq!(get_code_msg(404), "Not Found");
    assert_eq!(get_code_msg(503), "Service Unavailable");
    assert_eq!(get_code_msg(999), "Unknown Status Code");
}

#[test]
fn plain_response_bytes() {
    let server = server_with_headers(&["Content-Type: text/html", "Server: X", "Content-Length: 99"]);
    let req = request_with(&[("accept", "*/*")]);
    let r = edit_response(&server, &req, 200, &StrMap::new(), &b"hi".to_vec());
    assert_eq!(
        String::from_utf8(r).unwrap(),
        "HTTP/1.1 200 OK\r\ncontent-length: 2\r\ncontent-type: text/html\r\nserver: X\r\n\r\nhi"
    );
}

#[test]
fn forwarded_headers_override_configured_ones() {
    let server = server_with_headers(&["Content-Type: text/html"]);
    let req = request_with(&[]);
    let proxied = map_of(&[("Content-Type", "application/json"), ("X-Up", "1")]);
    let r = edit_response(&server, &req, 201, &proxied, &b"{}".to_vec());
    assert_eq!(
        String::from_utf8(r).unwrap(),
        "HTTP/1.1 201 Created\r\ncontent-length: 2\r\ncontent-type: application/json\r\nx-up: 1\r\n\r\n{}"
    );
}

#[test]
fn gzip_when_client_and_server_ask() {
    let server = server_with_headers(&["Content-Encoding: gzip"]);
    let req = request_with(&[("accept-encoding", "GZIP, br")]);
    let content = b"hello hello hello".to_vec();
    let r = edit_response(&server, &req, 200, &StrMap::new(), &content);
    let (head, body) = split_response(&r);
    assert_eq!(head, format!("HTTP/1.1 200 OK\r\ncontent-length: {}\r\ncontent-encoding: gzip", body.len()));
    assert_eq!(&body[..2], &[0x1f, 0x8b]);
    let mut out = String::new();
    flate2::read::GzDecoder::new(&body[..]).read_to_string(&mut out).unwrap();
    assert_eq!(out, "hello hello hello");
}

#[test]
fn no_gzip_unless_accepted() {
    let server = server_with_headers(&["Content-Encoding: gzip"]);
    let req = request_with(&[("accept-encoding", "br")]);
    let r = edit_response(&server, &req, 200, &StrMap::new(), &b"abc".to_vec());
    assert_eq!(String::from_utf8(r).unwrap(), "HTTP/1.1 200 OK\r\ncontent-length: 3\r\n\r\n\r\nabc");
}

#[test]
fn no_second_gzip_of_gzipped_proxy_answer() {
    let server = server_with_headers(&["Content-Encoding: gzip"]);
    let req = request_with(&[("accept-encoding", "gzip")]);
    let proxied = map_of(&[("content-encoding", "gzip")]);
    let r = edit_response(&server, &req, 200, &proxied, &b"zz".to_vec());
    assert_eq!(String::from_utf8(r).unwrap(), "HTTP/1.1 200 OK\r\ncontent-length: 2\r\ncontent-encoding: gzip\r\n\r\nzz");
}

#[test]
fn gzip_decision() {
    let yes = judge_need_open_gzip(&map_of(&[("accept-encoding", "deflate, GZip")]), &map_of(&[("content-encoding", "gzip")]));
    assert!(yes);
    assert!(!judge_need_open_gzip(&map_of(&[]), &map_of(&[("content-encoding", "gzip")])));
    assert!(!judge_need_open_gzip(&map_of(&[("accept-encoding", "gzip")]), &map_of(&[])));
}

#[test]
fn encoder_output_decodes_back() {
    let data = b"some text to compress".to_vec();
    let z = encoder(&data, 5);
    assert_ne!(z, data);
    let mut out = Vec::new();
    flate2::read::GzDecoder::new(&z[..]).read_to_end(&mut out).unwrap();
    assert_eq!(out, data);
}

#[test]
fn error_page_path_of_code() {
    let mut s = Config::get_default_server();
    assert_eq!(error_page_path(404, &s), "./404.html");
    s.root_path = "/srv/www/".to_string();
    assert_eq!(error_page_path(500, &s), "/srv/www/500.html");
}

#[test]
fn error_html_text() {
    let html = String::from_utf8(get_error_html("404 Not Found")).unwrap();
    assert_eq!(
        html,
        "<!DOCTYPE html><html lang=\"en\"><head><meta charset=\"UTF-8\"><title>404 Not Found</title><style>body{display:flex;justify-content:center}</style></head><body><h1>404 Not Found</h1></body></html>"
    );
}

#[test]
fn other_html_prefers_try_files_then_code_page() {
    let s = Config::get_default_server();
    assert_eq!(load_other_html(404, &s, Some(b"index".to_vec()), Some(b"page".to_vec())), (b"index".to_vec(), 200));
    assert_eq!(load_other_html(404, &s, None, Some(b"page".to_vec())), (b"page".to_vec(), 404));
    assert_eq!(load_other_html(404, &s, None, None), (get_error_html("404 Not Found"), 404));
}

#[test]
fn unsafe_request_gets_not_found_page() {
    let server = server_with_headers(&[]);
    let req = request_with(&[]);
    let r = get_res_response(&server, &req, false, "./x", LoadOutcome::FileLoaded(b"secret".to_vec()), None, Some(b"nf".to_vec()));
    assert_eq!(String::from_utf8(r).unwrap(), "HTTP/1.1 404 Not Found\r\ncontent-length: 2\r\n\r\n\r\nnf");
    let built_in = get_res_response(&server, &req, false, "./x", LoadOutcome::FileMissing, None, None);
    let page = get_error_html("404 Not Found");
    let (head, body) = split_response(&built_in);
    assert_eq!(head, format!("HTTP/1.1 404 Not Found\r\ncontent-length: {}", page.len()));
    assert_eq!(body, [b"\r\n".to_vec(), page].concat());
}

#[test]
fn served_outcomes() {
    let server = server_with_headers(&[]);
    let req = request_with(&[]);
    let loaded = get_res_response(&server, &req, true, "./x", LoadOutcome::FileLoaded(b"file".to_vec()), None, None);
    assert_eq!(String::from_utf8(loaded).unwrap(), "HTTP/1.1 200 OK\r\ncontent-length: 4\r\n\r\n\r\nfile");
    let failed = get_res_response(&server, &req, true, "./x", LoadOutcome::ProxyFailed, None, None);
    assert_eq!(String::from_utf8(failed).unwrap(), "HTTP/1.1 200 OK\r\ncontent-length: 0\r\n\r\n\r\n");
    let missing = get_res_response(&server, &req, true, "./x", LoadOutcome::FileMissing, Some(b"idx".to_vec()), None);
    assert_eq!(String::from_utf8(missing).unwrap(), "HTTP/1.1 200 OK\r\ncontent-length: 3\r\n\r\n\r\nidx");
    let proxied = get_res_response(&server, &req, true, "./x", LoadOutcome::Proxied(map_of(&[("X-A", "1")]), b"up".to_vec()), None, None);
    assert_eq!(String::from_utf8(proxied).unwrap(), "HTTP/1.1 200 OK\r\ncontent-length: 2\r\nx-a: 1\r\n\r\nup");
    assert!(need_fallback(false, &LoadOutcome::ProxyFailed));
    assert!(need_fallback(true, &LoadOutcome::FileMissing));
    assert!(!need_fallback(true, &LoadOutcome::ProxyFailed));
}

#[test]
fn forwarded_gzip_body_keeps_its_encoding_header() {
    let server = server_with_headers(&["Content-Type: text/plain"]);
    let req = request_with(&[("accept-encoding", "br")]);
    let proxied = map_of(&[("content-encoding", "gzip")]);
    let body = vec![0x1f, 0x8b, 1, 2];
    let r = edit_response(&server, &req, 200, &proxied, &body);
    let (head, sent) = split_response(&r);
    assert_eq!(head, "HTTP/1.1 200 OK\r\ncontent-length: 4\r\ncontent-type: text/plain\r\ncontent-encoding: gzip");
    assert_eq!(sent, body);
}

#[test]
fn default_server_headers_are_one_per_line() {
    let server = Config::get_default_server();
    let plain = edit_response(&server, &request_with(&[]), 200, &StrMap::new(), &b"hi".to_vec());
    assert_eq!(
        String::from_utf8(plain).unwrap(),
        "HTTP/1.1 200 OK\r\ncontent-length: 2\r\naccess-control-allow-origin: *\r\naccess-control-allow-methods: *\r\naccess-control-allow-headers: *\r\naccess-control-allow-credentials: true\r\nconnection: keep-alive\r\ncontent-type: text/html\r\nserver: RUST-WEB-SERVER\r\n\r\nhi"
    );
    let zipped = edit_response(&server, &request_with(&[("accept-encoding", "gzip")]), 200, &StrMap::new(), &b"hi".to_vec());
    let (head, body) = split_response(&zipped);
    assert!(head.contains("\r\ncontent-encoding: gzip\r\n"));
    assert_eq!(head.matches("content-length").count(), 1);
    assert_eq!(&body[..2], &[0x1f, 0x8b]);
}

#[test]
fn header_item_with_several_lines() {
    let server = server_with_headers(&["A: 1\r\nContent-Length: 7\nB: 2", "C: 3"]);
    let r = edit_response(&server, &request_with(&[]), 200, &StrMap::new(), &b"x".to_vec());
    assert_eq!(String::from_utf8(r).unwrap(), "HTTP/1.1 200 OK\r\ncontent-length: 1\r\na: 1\r\nb: 2\r\nc: 3\r\n\r\nx");
}
