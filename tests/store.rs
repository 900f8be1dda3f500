use cache_response::message::{Header, Response};
use cache_response::store::ResponseCache;

fn entry(tag: u8) -> Response {
    Response {
        status: 200,
        headers: vec![Header { name: "content-type".to_string(), value: b"text/css".to_vec() }],
        body: vec![tag],
    }
}

#[test]
fn new_store_is_empty() {
    let mut c = ResponseCache::new(3);
    assert_eq!(c.size(), 0);
    assert!(c.get("/a").is_none());
}

#[test]
fn get_returns_a_copy_of_what_was_set() {
    let mut c = ResponseCache::new(3);
    c.set("/a".to_string(), entry(1));
    let got = c.get("/a").unwrap();
    assert_eq!(got.status, 200);
    assert_eq!(got.body, vec![1]);
    assert_eq!(got.headers.len(), 1);
    assert_eq!(got.headers[0].name, "content-type");
    assert_eq!(got.headers[0].value, b"text/css".to_vec());
    assert_eq!(c.size(), 1);
}

#[test]
fn set_replaces_an_existing_entry() {
    let mut c = ResponseCache::new(3);
    c.set("/a".to_string(), entry(1));
    c.set("/a".to_string(), entry(2));
    assert_eq!(c.size(), 1);
    assert_eq!(c.get("/a").unwrap().body, vec![2]);
}

#[test]
fn full_store_evicts_least_recently_set() {
    let mut c = ResponseCache::new(2);
    c.set("/a".to_string(), entry(1));
    c.set("/b".to_string(), entry(2));
    c.set("/c".to_string(), entry(3));
    assert_eq!(c.size(), 2);
    assert!(c.get("/a").is_none());
    assert_eq!(c.get("/b").unwrap().body, vec![2]);
    assert_eq!(c.get("/c").unwrap().body, vec![3]);
}

#[test]
fn get_refreshes_recency() {
    let mut c = ResponseCache::new(2);
    c.set("/a".to_string(), entry(1));
    c.set("/b".to_string(), entry(2));
    assert!(c.get("/a").is_some());
    c.set("/c".to_string(), entry(3));
    assert!(c.get("/b").is_none());
    assert!(c.get("/a").is_some());
    assert!(c.get("/c").is_some());
}

#[test]
fn set_refreshes_recency() {
    let mut c = ResponseCache::new(2);
    c.set("/a".to_string(), entry(1));
    c.set("/b".to_string(), entry(2));
    c.set("/a".to_string(), entry(4));
    c.set("/c".to_string(), entry(3));
    assert!(c.get("/b").is_none());
    assert_eq!(c.get("/a").unwrap().body, vec![4]);
    assert_eq!(c.size(), 2);
}

#[test]
fn missed_get_changes_nothing() {
    let mut c = ResponseCache::new(2);
    c.set("/a".to_string(), entry(1));
    c.set("/b".to_string(), entry(2));
    assert!(c.get("/z").is_none());
    c.set("/c".to_string(), entry(3));
    assert!(c.get("/a").is_none());
    assert!(c.get("/b").is_some());
}

#[test]
fn size_never_exceeds_capacity() {
    let mut c = ResponseCache::new(5);
    for i in 0..40u8 {
        c.set(format!("/k{}", i % 13), entry(i));
        assert!(c.size() <= 5);
    }
    assert_eq!(c.size(), 5);
}

#[test]
fn capacity_one_keeps_the_latest() {
    let mut c = ResponseCache::new(1);
    c.set("/a".to_string(), entry(1));
    c.set("/b".to_string(), entry(2));
    assert_eq!(c.size(), 1);
    assert!(c.get("/a").is_none());
    assert_eq!(c.get("/b").unwrap().body, vec![2]);
}
