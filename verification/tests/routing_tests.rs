use rust_web_server::base::Base;
use rust_web_server::config::{Config, Server};
use rust_web_server::file_safe::check_source_full_path_safe;
use rust_web_server::http::request::HttpRequest;
use rust_web_server::request::request::{Request, ResourcePlan};
use rust_web_server::strmap::StrMap;

fn server(root: &str, hotlink: &[&str], proxy: &[&str]) -> Server {
    let mut s = Config::get_default_server();
    s.root_path = root.to_string();
    s.hotlink_protection = hotlink.iter().map(|h| h.to_string()).collect();
    s.proxy = proxy.iter().map(|h| h.to_string()).collect();
    s
}

fn request(host: Option<&str>, path: &str) -> HttpRequest {
    let mut headers = StrMap::new();
    if let Some(h) = host {
        headers.insert("host".to_string(), h.to_string());
    }
    HttpRequest { path: path.to_string(), method: "GET".to_string(), headers, body: StrMap::new() }
}

#[test]
fn path_safety() {
    let s = server("/srv", &[], &[]);
    assert!(check_source_full_path_safe(&s, "/srv/a.html"));
    assert!(!check_source_full_path_safe(&s, "/srv/../etc/passwd"));
    let h = server("/srv", &["\\.secret$"], &[]);
    assert!(!check_source_full_path_safe(&h, "/srv/key.secret"));
    assert!(check_source_full_path_safe(&h, "/srv/key.public"));
    let bad = server("/srv", &["("], &[]);
    assert!(!check_source_full_path_safe(&bad, "/srv/a.html"));
    let everything = server("/srv", &[""], &[]);
    assert!(!check_source_full_path_safe(&everything, "/srv/a.html"));
}

#[test]
fn bound_host_is_routed_to_its_server() {
    let map = vec![
        ("localhost".to_string(), server("/one", &[], &[])),
        ("example.com".to_string(), server("/two", &[], &[])),
        ("localhost".to_string(), server("/three", &[], &[])),
    ];
    let r = Request::route_request(&map, &request(Some("localhost"), "/a.html"));
    assert_eq!(r.server.root_path, "/one");
    assert!(r.is_safe_request);
    assert_eq!(r.file_path, "/one/a.html");
    let r2 = Request::route_request(&map, &request(Some("example.com"), "/"));
    assert_eq!(r2.server.root_path, "/two");
    assert!(r2.is_safe_request);
    assert_eq!(r2.file_path, "/two/index.html");
}

#[test]
fn unbound_or_unsafe_requests_are_not_served() {
    let map = vec![("localhost".to_string(), server("/one", &["\\.secret$"], &[]))];
    let unbound = Request::route_request(&map, &request(Some("evil.com"), "/a.html"));
    assert!(!unbound.is_safe_request);
    assert_eq!(unbound.server.root_path, "./");
    assert_eq!(unbound.file_path, "./a.html");
    let no_host = Request::route_request(&map, &request(None, "/a.html"));
    assert!(!no_host.is_safe_request);
    let parent = Request::route_request(&map, &request(Some("localhost"), "/../x"));
    assert!(!parent.is_safe_request);
    assert_eq!(parent.file_path, "/one/../x");
    let hot = Request::route_request(&map, &request(Some("localhost"), "/k.secret"));
    assert!(!hot.is_safe_request);
}

#[test]
fn proxy_choice() {
    let none = server("/", &[], &[]);
    assert_eq!(Request::judge_need_proxy(&none), "");
    let unusable = server("/", &[], &["ftp://x", "", "http//broken"]);
    assert_eq!(Request::judge_need_proxy(&unusable), "");
    let one = server("/", &[], &["ftp://x", "http://a.com/api"]);
    assert_eq!(Request::judge_need_proxy(&one), "http://a.com/api");
    assert_eq!(Request::safe_proxy_list(&one), vec!["http://a.com/api".to_string()]);
    let two = server("/", &[], &["https://b.com", "http://a.com"]);
    for _ in 0..20 {
        let p = Request::judge_need_proxy(&two);
        assert!(p == "https://b.com" || p == "http://a.com");
    }
    assert_eq!(Request::try_judge_need_proxy(&one), Some("http://a.com/api".to_string()));
}

#[test]
fn base_proxy_decision() {
    assert!(!Base::judge_need_proxy(&server("/", &[], &[])));
    assert!(!Base::judge_need_proxy(&server("/", &[], &["ftp://x"])));
    assert!(Base::judge_need_proxy(&server("/", &[], &["ftp://x", "https://a.com/"])));
}

#[test]
fn proxy_pick_and_position() {
    let list = vec!["http://a.com".to_string(), "http://b.com".to_string()];
    assert_eq!(Request::pick_proxy(&list, 1), "http://b.com");
    let s = server("/", &[], &["ftp://x", "http://a.com", "http://a.com"]);
    assert_eq!(Request::proxy_position(&s, &"http://a.com".to_string()), Some(1));
    assert_eq!(Request::proxy_position(&s, &"http://z.com".to_string()), None);
}

#[test]
fn resource_plans() {
    let s = server("/", &[], &["ftp://x", "http://a.com"]);
    assert!(matches!(Request::plan_resource(&s, false, &"http://a.com".to_string()), ResourcePlan::NotServed));
    assert!(matches!(Request::plan_resource(&s, true, &"".to_string()), ResourcePlan::ReadFile));
    assert!(matches!(Request::plan_resource(&s, true, &"http://a.com".to_string()), ResourcePlan::Forward(1)));
    assert!(matches!(Request::plan_resource(&s, true, &"http://q.com".to_string()), ResourcePlan::UnknownProxy));
    assert_eq!(Base::try_judge_need_proxy(&s), Some(true));
    assert_eq!(Base::try_judge_need_proxy(&server("/", &[], &[])), Some(false));
}
