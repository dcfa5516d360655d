use rust_web_server::base::Base;
use rust_web_server::config::{Config, Server};
use rust_web_server::global::DEFAULT_RESPONSE_HEADER;
use rust_web_server::request::request::Request;

fn server_at(root: &str, try_files: &str) -> Server {
    let mut s = Config::get_default_server();
    s.root_path = root.to_string();
    s.empty_path_try_files_path = try_files.to_string();
    s
}

#[test]
fn default_server_settings() {
    let s = Config::get_default_server();
    assert_eq!(s.root_path, "./");
    assert_eq!(s.log_dir_path, "./logs");
    assert_eq!(s.ssl_certificate_path, "./ssl/certificate.crt");
    assert_eq!(s.ssl_certificate_key_path, "./ssl/certificate.key");
    assert_eq!(s.empty_path_try_files_path, "./index.html");
    assert_eq!(s.response_header_list, vec![DEFAULT_RESPONSE_HEADER.to_string()]);
    assert_eq!(s.proxy, vec!["".to_string()]);
    assert_eq!(s.proxy_timeout_seconds, 10);
    assert_eq!(s.hotlink_protection, vec!["".to_string()]);
}

#[test]
fn default_listening_group() {
    let g = Config::get_default_server_name_bind();
    assert_eq!(g.listen_ip, "0.0.0.0");
    assert_eq!(g.listen_port, 80);
    assert_eq!(g.buffer_size, 10240);
    let names: Vec<&str> = g.bind_server_name.iter().map(|(k, _)| k.as_str()).collect();
    assert_eq!(names, vec!["localhost", "127.0.0.1", "0.0.0.0"]);
    for (_, s) in &g.bind_server_name {
        assert_eq!(s.root_path, "./");
    }
}

#[test]
fn try_files_path_strips_leading_dots_and_slashes() {
    let s = Config::get_default_server();
    assert_eq!(Config::get_try_files_path(&s), "index.html");
    assert_eq!(Config::get_full_try_files_path(&s), "./index.html");
    let s2 = server_at("/srv/www/", "../../app/index.html");
    assert_eq!(Config::get_try_files_path(&s2), "app/index.html");
    assert_eq!(Config::get_full_try_files_path(&s2), "/srv/www/app/index.html");
}

#[test]
fn full_file_path_joins_root_and_request_path() {
    let s = server_at("/srv/www/", "./index.html");
    assert_eq!(Request::get_full_file_path(&s, "/a/b.html"), "/srv/www/a/b.html");
    assert_eq!(Request::get_full_file_path(&s, "a.css"), "/srv/www/a.css");
    assert_eq!(Request::get_full_file_path(&s, "\\img\\x.png"), "/srv/www/img/x.png");
    let win = server_at("C:\\site\\", "./index.html");
    assert_eq!(Request::get_full_file_path(&win, "/x.html"), "C:/site/x.html");
}

#[test]
fn empty_path_serves_try_files() {
    let s = server_at("/srv/www", "./dist/index.html");
    let try_files = Config::get_full_try_files_path(&s);
    assert_eq!(try_files, "/srv/www/dist/index.html");
    assert_eq!(Request::get_full_file_path(&s, ""), try_files);
    assert_eq!(Request::get_full_file_path(&s, "/"), try_files);
    assert_eq!(Base::get_full_file_path(&s, &"".to_string()), try_files);
    assert_eq!(Base::get_full_file_path(&s, &"/x".to_string()), "/srv/www/x");
}

#[test]
fn server_display_text() {
    let s = Config::get_default_server();
    assert_eq!(
        s.to_display_string(),
        "root_path:./\nlog_dir_path:./logs\nssl_certificate_path:./ssl/certificate.crt\nssl_certificate_key_path:./ssl/certificate.key\nempty_path_try_files_path:./index.html"
    );
}
