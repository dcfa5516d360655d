use rust_web_server::print::{base_print, RED};
use rust_web_server::ssl::get_ssl;
use rust_web_server::strmap::StrMap;
use rust_web_server::utils::tools::{hash_map_to_string, parse_string_array_to_hashmap, vec_u8_to_string};

#[test]
fn message_texts() {
    let (console, log) = rust_web_server::print::println("hi", RED, "2024-05-22 10:33:49");
    assert_eq!(console, "\x1B[32m[2024-05-22 10:33:49]\n\x1B[0m\x1B[31mhi\x1B[0m\n");
    assert_eq!(log, "[2024-05-22 10:33:49]\nhi\n");
    let (c2, l2) = base_print("x", "", "t", false);
    assert_eq!(c2, "\x1B[32m[t]\n\x1B[0mx\x1B[0m");
    assert_eq!(l2, "[t]\nx");
}

#[test]
fn ssl_material() {
    assert_eq!(get_ssl(Some(vec![1, 2]), None), (vec![1, 2], vec![]));
    assert_eq!(get_ssl(None, Some(vec![3])), (vec![], vec![3]));
}

#[test]
fn header_map_text() {
    let mut m = StrMap::new();
    m.insert("a".to_string(), "  1".to_string());
    m.insert(" b".to_string(), "2".to_string());
    assert_eq!(hash_map_to_string(&m, "\n"), "a: 1\nb: 2");
    assert_eq!(hash_map_to_string(&StrMap::new(), "\n"), "");
    let mut one = StrMap::new();
    one.insert(" a".to_string(), "  1".to_string());
    assert_eq!(hash_map_to_string(&one, "\r\n"), "a: 1");
    assert_eq!(hash_map_to_string(&m, "\r\n"), "a: 1\r\nb: 2");
}

#[test]
fn header_text_reads_back() {
    let mut m = StrMap::new();
    m.insert("Content-Type".to_string(), "text/html; charset=utf-8".to_string());
    m.insert("X-Time".to_string(), "10:30".to_string());
    m.insert("Empty".to_string(), "".to_string());
    let text = hash_map_to_string(&m, "\n");
    let items: Vec<String> = text.split('\n').map(String::from).collect();
    let back = parse_string_array_to_hashmap(&items);
    assert_eq!(back.len(), m.len());
    for i in 0..m.len() {
        assert_eq!(back.key_at(i), m.key_at(i));
        assert_eq!(back.value_at(i), m.value_at(i));
    }
}

#[test]
fn header_items_to_map() {
    let items = vec!["A: 1".to_string(), "B:2:3".to_string(), "noval".to_string(), "A:  4".to_string()];
    let m = parse_string_array_to_hashmap(&items);
    assert_eq!(m.len(), 2);
    assert_eq!((m.key_at(0).as_str(), m.value_at(0).as_str()), ("A", "4"));
    assert_eq!((m.key_at(1).as_str(), m.value_at(1).as_str()), ("B", "2:3"));
}

#[test]
fn bytes_to_text() {
    assert_eq!(vec_u8_to_string(&"héllo".as_bytes().to_vec()), "héllo");
    assert_eq!(vec_u8_to_string(&vec![0xff, 0x41]), "");
}
