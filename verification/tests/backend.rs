use simple_redis::backend::Backend;
use simple_redis::resp::{BulkString, RespFrame, RespMap};

fn bulk(text: &str) -> RespFrame {
    BulkString(text.into()).into()
}

#[test]
fn test_new_store_is_empty() {
    let backend = Backend::new();
    assert_eq!(backend.get("k"), None);
    assert_eq!(backend.hget("k", "f"), None);
    assert_eq!(backend.hgetall("k"), None);
    let backend = Backend::default();
    assert_eq!(backend.get("k"), None);
}

#[test]
fn test_backend_set_and_get() {
    let mut backend = Backend::new();
    backend.set("b".into(), bulk("2"));
    backend.set("a".into(), bulk("1"));
    backend.set("c".into(), bulk("3"));
    assert_eq!(backend.get("a"), Some(bulk("1")));
    assert_eq!(backend.get("b"), Some(bulk("2")));
    assert_eq!(backend.get("c"), Some(bulk("3")));
    assert_eq!(backend.get("d"), None);
    assert_eq!(backend.get(""), None);

    backend.set("b".into(), RespFrame::Integer(9));
    assert_eq!(backend.get("b"), Some(RespFrame::Integer(9)));
    assert_eq!(backend.get("a"), Some(bulk("1")));
    assert_eq!(backend.get("c"), Some(bulk("3")));
}

#[test]
fn test_backend_hset_and_hget() {
    let mut backend = Backend::new();
    backend.hset("h2".into(), "f".into(), bulk("x"));
    backend.hset("h1".into(), "g".into(), bulk("2"));
    backend.hset("h1".into(), "f".into(), bulk("1"));
    assert_eq!(backend.hget("h1", "f"), Some(bulk("1")));
    assert_eq!(backend.hget("h1", "g"), Some(bulk("2")));
    assert_eq!(backend.hget("h2", "f"), Some(bulk("x")));
    assert_eq!(backend.hget("h2", "g"), None);
    assert_eq!(backend.hget("h3", "f"), None);

    backend.hset("h1".into(), "f".into(), bulk("new"));
    assert_eq!(backend.hget("h1", "f"), Some(bulk("new")));
    assert_eq!(backend.hget("h1", "g"), Some(bulk("2")));
    assert_eq!(backend.hget("h2", "f"), Some(bulk("x")));
}

#[test]
fn test_backend_hgetall() {
    let mut backend = Backend::new();
    backend.hset("h".into(), "b".into(), bulk("2"));
    backend.hset("h".into(), "a".into(), bulk("1"));
    let mut expected = RespMap::new();
    expected.insert("a".into(), bulk("1"));
    expected.insert("b".into(), bulk("2"));
    assert_eq!(backend.hgetall("h"), Some(expected));
    assert_eq!(backend.hgetall("other"), None);
}

#[test]
fn test_backend_set_does_not_touch_hashes() {
    let mut backend = Backend::new();
    backend.hset("k".into(), "f".into(), bulk("v"));
    backend.set("k".into(), bulk("plain"));
    assert_eq!(backend.hget("k", "f"), Some(bulk("v")));
    assert_eq!(backend.get("k"), Some(bulk("plain")));
}

#[test]
fn test_backend_keys_with_many_bytes() {
    let mut backend = Backend::new();
    backend.set("\u{e9}".into(), bulk("e-acute"));
    backend.set("z".into(), bulk("z"));
    backend.set("\u{4e16}".into(), bulk("world"));
    backend.set("ab".into(), bulk("ab"));
    backend.set("a".into(), bulk("a"));
    assert_eq!(backend.get("\u{e9}"), Some(bulk("e-acute")));
    assert_eq!(backend.get("z"), Some(bulk("z")));
    assert_eq!(backend.get("\u{4e16}"), Some(bulk("world")));
    assert_eq!(backend.get("ab"), Some(bulk("ab")));
    assert_eq!(backend.get("a"), Some(bulk("a")));
    assert_eq!(backend.get("b"), None);
}
