use rust_web_server::config::{Config, Server, ServerNameBind};
use rust_web_server::request::listen::{group_by_port, plan_listeners};

fn server(root: &str) -> Server {
    let mut s = Config::get_default_server();
    s.root_path = root.to_string();
    s
}

fn group(ip: &str, port: usize, buffer: usize, binds: &[(&str, &str)]) -> ServerNameBind {
    ServerNameBind {
        listen_ip: ip.to_string(),
        listen_port: port,
        buffer_size: buffer,
        bind_server_name: binds.iter().map(|(k, r)| (k.to_string(), server(r))).collect(),
    }
}

fn table(m: &[(String, Server)]) -> Vec<(String, String)> {
    m.iter().map(|(k, s)| (k.clone(), s.root_path.clone())).collect()
}

fn pairs(v: &[(&str, &str)]) -> Vec<(String, String)> {
    v.iter().map(|(a, b)| (a.to_string(), b.to_string())).collect()
}

fn sample() -> Config {
    Config {
        server: vec![
            group("127.0.0.1", 80, 1024, &[("localhost", "/s1"), ("127.0.0.1", "/s2")]),
            group("0.0.0.0", 81, 2048, &[("127.0.0.1", "/s3")]),
            group("10.0.0.1", 80, 512, &[("example.com", "/s4"), ("localhost", "/s5")]),
            group("10.0.0.2", 82, 512, &[]),
        ],
    }
}

#[test]
fn bindings_grouped_by_port() {
    let t = group_by_port(&sample());
    assert_eq!(t.len(), 2);
    assert_eq!(t[0].port, 80);
    assert_eq!(
        table(&t[0].server_map),
        pairs(&[
            ("localhost", "/s1"),
            ("localhost:80", "/s1"),
            ("127.0.0.1", "/s2"),
            ("127.0.0.1:80", "/s2"),
            ("example.com", "/s4"),
            ("example.com:80", "/s4"),
        ])
    );
    assert_eq!(t[1].port, 81);
    assert_eq!(table(&t[1].server_map), pairs(&[("127.0.0.1", "/s3"), ("127.0.0.1:81", "/s3")]));
}

#[test]
fn one_listener_per_port() {
    let ls = plan_listeners(&sample());
    assert_eq!(ls.len(), 2);
    assert_eq!((ls[0].listen_ip.as_str(), ls[0].port, ls[0].buffer_size), ("127.0.0.1", 80, 1024));
    assert_eq!(ls[0].server.root_path, "/s1");
    assert_eq!((ls[1].listen_ip.as_str(), ls[1].port, ls[1].buffer_size), ("0.0.0.0", 81, 2048));
    assert_eq!(ls[1].server.root_path, "/s3");
    let ports: Vec<usize> = ls.iter().map(|l| l.port).collect();
    assert_eq!(ports, vec![80, 81]);
}

#[test]
fn every_bound_host_is_served_on_its_port() {
    let cfg = sample();
    let ls = plan_listeners(&cfg);
    for g in &cfg.server {
        for (name, _) in &g.bind_server_name {
            let l = ls.iter().find(|l| l.port == g.listen_port).unwrap();
            assert!(l.server_map.iter().any(|(k, _)| k == name));
        }
    }
}

#[test]
fn default_configuration_plan() {
    let cfg = Config { server: vec![Config::get_default_server_name_bind()] };
    let ls = plan_listeners(&cfg);
    assert_eq!(ls.len(), 1);
    assert_eq!(ls[0].listen_ip, "0.0.0.0");
    assert_eq!(ls[0].port, 80);
    let names: Vec<&str> = ls[0].server_map.iter().map(|(k, _)| k.as_str()).collect();
    assert_eq!(names, vec!["localhost", "localhost:80", "127.0.0.1", "127.0.0.1:80", "0.0.0.0", "0.0.0.0:80"]);
}

#[test]
fn every_host_answers_with_its_port() {
    let cfg = sample();
    let ls = plan_listeners(&cfg);
    for g in &cfg.server {
        for (name, _) in &g.bind_server_name {
            let l = ls.iter().find(|l| l.port == g.listen_port).unwrap();
            let with_port = format!("{}:{}", name, g.listen_port);
            assert!(l.server_map.iter().any(|(k, _)| *k == with_port));
        }
    }
}

#[test]
fn name_bound_with_port_is_replaced_by_the_alias() {
    let cfg = Config {
        server: vec![group("0.0.0.0", 8080, 64, &[("a:8080", "/explicit"), ("a", "/plain")])],
    };
    let t = group_by_port(&cfg);
    assert_eq!(
        table(&t[0].server_map),
        pairs(&[("a:8080", "/plain"), ("a:8080:8080", "/explicit"), ("a", "/plain")])
    );
}
