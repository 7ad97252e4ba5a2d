use simple_redis::resp::{
    BulkString, RespArray, RespDouble, RespEncode, RespFrame, RespMap, RespNull, RespNullArray,
    RespNullBulkString, RespSet, SimpleError, SimpleString,
};

fn double(value: f64) -> RespDouble {
    RespDouble::parse(format!("{:e}", value).as_bytes()).unwrap()
}

#[test]
fn test_simple_string_encode() {
    let frame: RespFrame = SimpleString("OK".into()).into();
    assert_eq!(frame.encode(), b"+OK\r\n");
}

#[test]
fn test_integer_encode() {
    let frame: RespFrame = 123.into();
    assert_eq!(frame.encode(), b":+123\r\n");

    let frame: RespFrame = (-123).into();
    assert_eq!(frame.encode(), b":-123\r\n");
}

#[test]
fn test_bulk_string_encode() {
    let frame: RespFrame = BulkString(b"hello".to_vec()).into();
    assert_eq!(frame.encode(), b"$5\r\nhello\r\n");
}

#[test]
fn test_null_bulk_string_encode() {
    let frame: RespFrame = RespNullBulkString.into();
    assert_eq!(frame.encode(), b"$-1\r\n");
}

#[test]
fn test_array_encode() {
    let frame: RespFrame = RespArray(vec![
        BulkString("set".into()).into(),
        BulkString("hello".into()).into(),
        BulkString("world".into()).into(),
    ])
    .into();

    assert_eq!(
        frame.encode(),
        b"*3\r\n$3\r\nset\r\n$5\r\nhello\r\n$5\r\nworld\r\n"
    );
}

#[test]
fn test_null_array_encode() {
    let frame: RespFrame = RespNullArray.into();
    assert_eq!(frame.encode(), b"*-1\r\n");
}

#[test]
fn test_null_encode() {
    let frame: RespFrame = RespNull.into();
    assert_eq!(frame.encode(), b"_\r\n");
}

#[test]
fn test_boolean_encode() {
    let frame: RespFrame = true.into();
    assert_eq!(frame.encode(), b"#t\r\n");

    let frame: RespFrame = false.into();
    assert_eq!(frame.encode(), b"#f\r\n");
}

#[test]
fn test_double_encode() {
    let frame: RespFrame = double(123.456).into();
    assert_eq!(frame.encode(), b",+123.456\r\n");

    let frame: RespFrame = double(-123.456).into();
    assert_eq!(frame.encode(), b",-123.456\r\n");

    let frame: RespFrame = double(1.23456e+8).into();
    assert_eq!(frame.encode(), b",+1.23456e8\r\n");

    let frame: RespFrame = double(-1.23456e-9).into();
    assert_eq!(frame.encode(), b",-1.23456e-9\r\n");
}

#[test]
fn test_map_encode() {
    let mut map = RespMap::new();
    map.insert("hello".into(), BulkString("world".into()).into());

    map.insert("foo".into(), double(-123456.789).into());

    let frame: RespFrame = map.into();
    assert_eq!(
        frame.encode(),
        b"%2\r\n+foo\r\n,-123456.789\r\n+hello\r\n$5\r\nworld\r\n"
    );
}

#[test]
fn test_set_encode() {
    let frame: RespFrame = RespSet(vec![
        RespArray(vec![1234.into(), true.into()]).into(),
        BulkString("world".to_string().into()).into(),
    ])
    .into();
    assert_eq!(
        frame.encode(),
        b"~2\r\n*2\r\n:+1234\r\n#t\r\n$5\r\nworld\r\n"
    );
}

#[test]
fn test_simple_error_encode() {
    let frame: RespFrame = SimpleError("Error message".into()).into();
    assert_eq!(frame.encode(), b"-Error message\r\n");
}

#[test]
fn test_integer_encode_extremes() {
    assert_eq!(0i64.encode(), b":+0\r\n");
    assert_eq!(i64::MAX.encode(), b":+9223372036854775807\r\n");
    assert_eq!(i64::MIN.encode(), b":-9223372036854775808\r\n");
}

#[test]
fn test_empty_values_encode() {
    assert_eq!(BulkString(Vec::new()).encode(), b"$0\r\n\r\n");
    assert_eq!(RespArray(Vec::new()).encode(), b"*0\r\n");
    assert_eq!(RespSet(Vec::new()).encode(), b"~0\r\n");
    assert_eq!(RespMap::new().encode(), b"%0\r\n");
    assert_eq!(SimpleString(String::new()).encode(), b"+\r\n");
}

#[test]
fn test_each_kind_encodes_as_its_frame() {
    assert_eq!(
        SimpleString("a".into()).encode(),
        RespFrame::SimpleSting(SimpleString("a".into())).encode()
    );
    assert_eq!(
        SimpleError("a".into()).encode(),
        RespFrame::Error(SimpleError("a".into())).encode()
    );
    assert_eq!(RespNull.encode(), b"_\r\n");
    assert_eq!(RespNullArray.encode(), b"*-1\r\n");
    assert_eq!(RespNullBulkString.encode(), b"$-1\r\n");
    assert_eq!(true.encode(), b"#t\r\n");
    assert_eq!(double(1.5).encode(), b",+1.5\r\n");
    assert_eq!(
        RespArray(vec![7.into()]).encode(),
        b"*1\r\n:+7\r\n"
    );
    assert_eq!(RespSet(vec![7.into()]).encode(), b"~1\r\n:+7\r\n");
}

#[test]
fn test_double_threshold() {
    assert_eq!(double(99999999.0).encode(), b",+99999999\r\n");
    assert_eq!(double(1e8).encode(), b",+1e8\r\n");
    assert_eq!(double(1e-8).encode(), b",+0.00000001\r\n");
    assert_eq!(double(9.9e-9).encode(), b",+9.9e-9\r\n");
    assert_eq!(double(0.0).encode(), b",+0e0\r\n");
    assert_eq!(double(-0.0).encode(), b",-0e0\r\n");
    assert_eq!(double(1.0).encode(), b",+1\r\n");
    assert_eq!(double(1200.0).encode(), b",+1200\r\n");
    assert_eq!(double(0.5).encode(), b",+0.5\r\n");
    assert_eq!(double(-12.5e10).encode(), b",-1.25e11\r\n");
}

#[test]
fn test_map_encode_is_ordered_by_key() {
    let mut forward = RespMap::new();
    forward.insert("a".into(), 1.into());
    forward.insert("b".into(), 2.into());
    forward.insert("c".into(), 3.into());
    let mut backward = RespMap::new();
    backward.insert("c".into(), 3.into());
    backward.insert("b".into(), 2.into());
    backward.insert("a".into(), 1.into());
    let expected = b"%3\r\n+a\r\n:+1\r\n+b\r\n:+2\r\n+c\r\n:+3\r\n";
    assert_eq!(forward.encode(), expected);
    assert_eq!(backward.encode(), expected);
}

#[test]
fn test_map_insert_overwrites() {
    let mut map = RespMap::new();
    map.insert("k".into(), 1.into());
    map.insert("k".into(), 2.into());
    assert_eq!(map.len(), 1);
    assert_eq!(map.encode(), b"%1\r\n+k\r\n:+2\r\n");
}
