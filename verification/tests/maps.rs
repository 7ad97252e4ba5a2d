use simple_redis::resp::map::find_key;
use simple_redis::resp::{
    BulkString, RespArray, RespDouble, RespFrame, RespMap, RespSet, SimpleError, SimpleString,
};

fn bulk(text: &str) -> RespFrame {
    BulkString(text.into()).into()
}

#[test]
fn test_map_get() {
    let mut map = RespMap::new();
    assert!(map.is_empty());
    assert_eq!(map.get("a"), None);
    map.insert("b".into(), bulk("2"));
    map.insert("a".into(), bulk("1"));
    map.insert("c".into(), bulk("3"));
    assert!(!map.is_empty());
    assert_eq!(map.len(), 3);
    assert_eq!(map.get("a"), Some(&bulk("1")));
    assert_eq!(map.get("b"), Some(&bulk("2")));
    assert_eq!(map.get("c"), Some(&bulk("3")));
    assert_eq!(map.get("d"), None);
    assert_eq!(map.get(""), None);
    assert_eq!(map.get("ab"), None);
}

#[test]
fn test_map_entries_ascend() {
    let mut map = RespMap::new();
    for key in ["pear", "apple", "fig", "apple", "banana", ""] {
        map.insert(key.into(), bulk(key));
    }
    assert_eq!(map.len(), 5);
    let keys: Vec<&str> = (0..map.len()).map(|i| map.key_at(i).as_str()).collect();
    assert_eq!(keys, ["", "apple", "banana", "fig", "pear"]);
    for i in 0..map.len() {
        assert_eq!(map.value_at(i), &bulk(map.key_at(i)));
    }
}

#[test]
fn test_map_insert_leaves_other_keys() {
    let mut map = RespMap::new();
    map.insert("a".into(), bulk("1"));
    map.insert("c".into(), bulk("3"));
    map.insert("b".into(), bulk("2"));
    map.insert("a".into(), bulk("one"));
    assert_eq!(map.get("a"), Some(&bulk("one")));
    assert_eq!(map.get("b"), Some(&bulk("2")));
    assert_eq!(map.get("c"), Some(&bulk("3")));
    assert_eq!(map.len(), 3);
}

#[test]
fn test_map_clone_and_equality() {
    let mut map = RespMap::new();
    map.insert("k".into(), RespArray(vec![1.into(), bulk("x")]).into());
    let copy = map.clone();
    assert_eq!(copy, map);
    let mut other = RespMap::new();
    other.insert("k".into(), RespArray(vec![1.into(), bulk("y")]).into());
    assert_ne!(other, map);
}

#[test]
fn test_find_key() {
    let entries: Vec<(String, u8)> = vec![("b".into(), 1), ("d".into(), 2), ("f".into(), 3)];
    assert_eq!(find_key(&entries, "a"), (0, false));
    assert_eq!(find_key(&entries, "b"), (0, true));
    assert_eq!(find_key(&entries, "c"), (1, false));
    assert_eq!(find_key(&entries, "d"), (1, true));
    assert_eq!(find_key(&entries, "f"), (2, true));
    assert_eq!(find_key(&entries, "g"), (3, false));
    let none: Vec<(String, u8)> = Vec::new();
    assert_eq!(find_key(&none, "a"), (0, false));
}

#[test]
fn test_is_well_formed() {
    assert!(RespFrame::from(SimpleString("OK".into())).is_well_formed());
    assert!(!RespFrame::from(SimpleString("a\r\nb".into())).is_well_formed());
    assert!(!RespFrame::from(SimpleString("a\rb".into())).is_well_formed());
    assert!(!RespFrame::from(SimpleError("a\nb".into())).is_well_formed());
    assert!(bulk("a\r\nb").is_well_formed());
    assert!(RespFrame::Integer(1).is_well_formed());
    assert!(RespFrame::from(RespDouble::parse(b"1.5").unwrap()).is_well_formed());
    assert!(RespFrame::from(RespArray(vec![bulk("a"), 1.into()])).is_well_formed());
    assert!(
        !RespFrame::from(RespArray(vec![bulk("a"), SimpleString("\n".into()).into()]))
            .is_well_formed()
    );
    assert!(
        !RespFrame::from(RespSet(vec![RespArray(vec![SimpleError("\r".into()).into()]).into()]))
            .is_well_formed()
    );
    let mut map = RespMap::new();
    map.insert("b".into(), bulk("2"));
    map.insert("a".into(), bulk("1"));
    assert!(RespFrame::from(map.clone()).is_well_formed());
    map.insert("bad\nkey".into(), bulk("3"));
    assert!(!RespFrame::from(map).is_well_formed());
    let mut map = RespMap::new();
    map.insert("k".into(), SimpleString("bad\rvalue".into()).into());
    assert!(!RespFrame::from(map).is_well_formed());
}

#[test]
fn test_deref() {
    let s = SimpleString("hello".into());
    assert_eq!(s.len(), 5);
    let e = SimpleError("oops".into());
    assert!(e.starts_with("oo"));
    let b = BulkString(b"abc".to_vec());
    assert_eq!(b.as_slice(), b"abc");
    let a = RespArray(vec![1.into(), 2.into()]);
    assert_eq!(a.len(), 2);
    assert_eq!(a.first(), Some(&RespFrame::Integer(1)));
    let set = RespSet(vec![bulk("x")]);
    assert_eq!(set[0], bulk("x"));
}
